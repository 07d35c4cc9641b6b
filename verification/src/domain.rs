//! The records that the lake is made of.

use vstd::prelude::*;

use crate::json::Json;
use crate::time::Timestamp;

verus! {

/// The identity of one observation.
#[derive(Debug, PartialEq, Eq)]
pub struct ObservationId(pub String);

impl View for ObservationId {
    type V = Seq<char>;

    open spec fn view(&self) -> Seq<char> {
        self.0@
    }
}

impl ObservationId {
    pub fn new(value: &str) -> (r: ObservationId)
        ensures
            r@ == value@,
    {
        ObservationId(value.to_owned())
    }

    pub fn as_str(&self) -> (r: &str)
        ensures
            r@ == self@,
    {
        self.0.as_str()
    }
}

impl Clone for ObservationId {
    fn clone(&self) -> (r: ObservationId)
        ensures
            r@ == self@,
    {
        ObservationId(self.0.clone())
    }
}

/// The schema of an observation's payload.
#[derive(Debug, PartialEq, Eq)]
pub struct SchemaRef(pub String);

impl View for SchemaRef {
    type V = Seq<char>;

    open spec fn view(&self) -> Seq<char> {
        self.0@
    }
}

impl SchemaRef {
    pub fn new(value: &str) -> (r: SchemaRef)
        ensures
            r@ == value@,
    {
        SchemaRef(value.to_owned())
    }

    pub fn as_str(&self) -> (r: &str)
        ensures
            r@ == self@,
    {
        self.0.as_str()
    }
}

impl Clone for SchemaRef {
    fn clone(&self) -> (r: SchemaRef)
        ensures
            r@ == self@,
    {
        SchemaRef(self.0.clone())
    }
}

/// A schema version.
#[derive(Debug, PartialEq, Eq)]
pub struct SemVer(pub String);

impl View for SemVer {
    type V = Seq<char>;

    open spec fn view(&self) -> Seq<char> {
        self.0@
    }
}

impl SemVer {
    pub fn new(value: &str) -> (r: SemVer)
        ensures
            r@ == value@,
    {
        SemVer(value.to_owned())
    }

    pub fn as_str(&self) -> (r: &str)
        ensures
            r@ == self@,
    {
        self.0.as_str()
    }
}

impl Clone for SemVer {
    fn clone(&self) -> (r: SemVer)
        ensures
            r@ == self@,
    {
        SemVer(self.0.clone())
    }
}

/// Who made an observation.
#[derive(Debug, PartialEq, Eq)]
pub struct ObserverRef(pub String);

impl View for ObserverRef {
    type V = Seq<char>;

    open spec fn view(&self) -> Seq<char> {
        self.0@
    }
}

impl ObserverRef {
    pub fn new(value: &str) -> (r: ObserverRef)
        ensures
            r@ == value@,
    {
        ObserverRef(value.to_owned())
    }

    pub fn as_str(&self) -> (r: &str)
        ensures
            r@ == self@,
    {
        self.0.as_str()
    }
}

impl Clone for ObserverRef {
    fn clone(&self) -> (r: ObserverRef)
        ensures
            r@ == self@,
    {
        ObserverRef(self.0.clone())
    }
}

/// The system an observation came from.
#[derive(Debug, PartialEq, Eq)]
pub struct SourceSystemRef(pub String);

impl View for SourceSystemRef {
    type V = Seq<char>;

    open spec fn view(&self) -> Seq<char> {
        self.0@
    }
}

impl SourceSystemRef {
    pub fn new(value: &str) -> (r: SourceSystemRef)
        ensures
            r@ == value@,
    {
        SourceSystemRef(value.to_owned())
    }

    pub fn as_str(&self) -> (r: &str)
        ensures
            r@ == self@,
    {
        self.0.as_str()
    }
}

impl Clone for SourceSystemRef {
    fn clone(&self) -> (r: SourceSystemRef)
        ensures
            r@ == self@,
    {
        SourceSystemRef(self.0.clone())
    }
}

/// The entity an observation is about.
#[derive(Debug, PartialEq, Eq)]
pub struct EntityRef(pub String);

impl View for EntityRef {
    type V = Seq<char>;

    open spec fn view(&self) -> Seq<char> {
        self.0@
    }
}

impl EntityRef {
    pub fn new(value: &str) -> (r: EntityRef)
        ensures
            r@ == value@,
    {
        EntityRef(value.to_owned())
    }

    pub fn as_str(&self) -> (r: &str)
        ensures
            r@ == self@,
    {
        self.0.as_str()
    }
}

impl Clone for EntityRef {
    fn clone(&self) -> (r: EntityRef)
        ensures
            r@ == self@,
    {
        EntityRef(self.0.clone())
    }
}

/// The key that makes repeated deliveries of one observation recognisable.
#[derive(Debug, PartialEq, Eq)]
pub struct IdempotencyKey(pub String);

impl View for IdempotencyKey {
    type V = Seq<char>;

    open spec fn view(&self) -> Seq<char> {
        self.0@
    }
}

impl IdempotencyKey {
    pub fn new(value: &str) -> (r: IdempotencyKey)
        ensures
            r@ == value@,
    {
        IdempotencyKey(value.to_owned())
    }

    pub fn as_str(&self) -> (r: &str)
        ensures
            r@ == self@,
    {
        self.0.as_str()
    }
}

impl Clone for IdempotencyKey {
    fn clone(&self) -> (r: IdempotencyKey)
        ensures
            r@ == self@,
    {
        IdempotencyKey(self.0.clone())
    }
}

/// A stored blob, by its content.
#[derive(Debug, PartialEq, Eq)]
pub struct BlobRef(pub String);

impl View for BlobRef {
    type V = Seq<char>;

    open spec fn view(&self) -> Seq<char> {
        self.0@
    }
}

impl BlobRef {
    pub fn new(value: &str) -> (r: BlobRef)
        ensures
            r@ == value@,
    {
        BlobRef(value.to_owned())
    }

    pub fn as_str(&self) -> (r: &str)
        ensures
            r@ == self@,
    {
        self.0.as_str()
    }
}

impl Clone for BlobRef {
    fn clone(&self) -> (r: BlobRef)
        ensures
            r@ == self@,
    {
        BlobRef(self.0.clone())
    }
}

/// A projection of the lake.
#[derive(Debug, PartialEq, Eq)]
pub struct ProjectionRef(pub String);

impl View for ProjectionRef {
    type V = Seq<char>;

    open spec fn view(&self) -> Seq<char> {
        self.0@
    }
}

impl ProjectionRef {
    pub fn new(value: &str) -> (r: ProjectionRef)
        ensures
            r@ == value@,
    {
        ProjectionRef(value.to_owned())
    }

    pub fn as_str(&self) -> (r: &str)
        ensures
            r@ == self@,
    {
        self.0.as_str()
    }
}

impl Clone for ProjectionRef {
    fn clone(&self) -> (r: ProjectionRef)
        ensures
            r@ == self@,
    {
        ProjectionRef(self.0.clone())
    }
}

/// A registered type of entities.
#[derive(Debug, PartialEq, Eq)]
pub struct EntityTypeRef(pub String);

impl View for EntityTypeRef {
    type V = Seq<char>;

    open spec fn view(&self) -> Seq<char> {
        self.0@
    }
}

impl EntityTypeRef {
    pub fn new(value: &str) -> (r: EntityTypeRef)
        ensures
            r@ == value@,
    {
        EntityTypeRef(value.to_owned())
    }

    pub fn as_str(&self) -> (r: &str)
        ensures
            r@ == self@,
    {
        self.0.as_str()
    }
}

impl Clone for EntityTypeRef {
    fn clone(&self) -> (r: EntityTypeRef)
        ensures
            r@ == self@,
    {
        EntityTypeRef(self.0.clone())
    }
}

/// Which side owns the truth of an observed entity.
#[derive(Debug, PartialEq)]
pub enum AuthorityModel {
    LakeAuthoritative,
    Other(String),
}

/// How an observation was captured.
#[derive(Debug, PartialEq)]
pub enum CaptureModel {
    Event,
    Other(String),
}

/// One immutable observation.
#[derive(Debug, PartialEq)]
pub struct Observation {
    pub id: ObservationId,
    pub schema: SchemaRef,
    pub schema_version: SemVer,
    pub observer: ObserverRef,
    pub source_system: Option<SourceSystemRef>,
    pub actor: Option<String>,
    pub authority_model: AuthorityModel,
    pub capture_model: CaptureModel,
    pub subject: EntityRef,
    pub target: Option<EntityRef>,
    pub payload: Json,
    pub attachments: Vec<BlobRef>,
    pub published: Timestamp,
    pub recorded_at: Timestamp,
    pub consent: Option<Json>,
    pub idempotency_key: IdempotencyKey,
    pub meta: Json,
}

} // verus!
