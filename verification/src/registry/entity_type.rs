//! Types of entities that observations speak of.

use vstd::prelude::*;

use crate::domain::EntityTypeRef;
use crate::time::Timestamp;

verus! {

/// A registered type of entities.
#[derive(Debug)]
pub struct EntityType {
    pub id: EntityTypeRef,
    pub name: String,
    pub description: String,
    /// The type that this one is a kind of.
    pub parent: Option<EntityTypeRef>,
    /// The attributes that observations of the type should have.
    pub attributes: Vec<String>,
    pub registered_by: Option<String>,
    pub registered_at: Option<Timestamp>,
}

/// A type of entities as the seeds list it.
#[derive(Debug)]
pub struct SeedEntityType {
    pub id: String,
    pub name: String,
    pub description: String,
    pub parent: Option<String>,
    pub attributes: Vec<String>,
}

/// Whether a type is a seed as the system registers it.
pub open spec fn registers(r: EntityType, seed: SeedEntityType, now: Timestamp) -> bool {
    &&& r.id@ == seed.id@
    &&& r.name@ == seed.name@
    &&& r.description@ == seed.description@
    &&& (match r.parent {
        Some(p) => Some(p@),
        None => None,
    }) == crate::text::opt_string(seed.parent)
    &&& crate::text::strings(r.attributes@) == crate::text::strings(seed.attributes@)
    &&& crate::text::opt_string(r.registered_by) == Some("system"@)
    &&& r.registered_at == Some(now)
}

/// The types that are always registered, from the seeds that list them.
pub fn base_entity_types(seeds: &[SeedEntityType], now: Timestamp) -> (r: Vec<EntityType>)
    ensures
        r@.len() == seeds@.len(),
        forall|i: int| 0 <= i < seeds@.len() ==> registers(#[trigger] r@[i], seeds@[i], now),
{
    let mut types: Vec<EntityType> = Vec::new();
    let mut i: usize = 0;
    while i < seeds.len()
        invariant
            i <= seeds@.len(),
            types@.len() == i,
            forall|j: int| 0 <= j < i ==> registers(#[trigger] types@[j], seeds@[j], now),
        decreases seeds@.len() - i,
    {
        let seed = &seeds[i];
        let parent = match &seed.parent {
            Some(p) => Some(EntityTypeRef::new(p.as_str())),
            None => None,
        };
        let registered = EntityType {
            id: EntityTypeRef::new(seed.id.as_str()),
            name: seed.name.clone(),
            description: seed.description.clone(),
            parent,
            attributes: crate::text::copy_texts(&seed.attributes),
            registered_by: Some("system".to_owned()),
            registered_at: Some(now),
        };
        types.push(registered);
        i = i + 1;
    }
    types
}

} // verus!
