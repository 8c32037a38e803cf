use vstd::prelude::*;

verus! {

/// One declared relation field: whether the relation is singular, the
/// identifier naming the field, and the dotted path of the target entity
/// type (for example `super::bakery::Entity`).
pub struct EntityLoaderField {
    pub is_one: bool,
    pub field: String,
    pub entity: String,
}

/// Ordered list of the relation fields declared on one entity.  Descriptor
/// order is declaration order and is preserved by everything generated from
/// the schema.
pub struct EntityLoaderSchema {
    pub fields: Vec<EntityLoaderField>,
}

impl core::default::Default for EntityLoaderSchema {
    /// An empty schema: no relation fields.
    fn default() -> (r: Self)
        ensures
            r.fields@.len() == 0,
    {
        EntityLoaderSchema { fields: Vec::new() }
    }
}

} // verus!
