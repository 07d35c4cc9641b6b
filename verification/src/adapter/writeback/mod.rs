//! Writing derived records back to other services.

pub mod image_crop;
pub mod image_crop_laws;
pub mod notion;
