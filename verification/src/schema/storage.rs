//! The registry of the types that a schema names.
use crate::keyed::StrMap;
use crate::schema::types::{DirectEnum, DirectInputObject, DirectObject};
use vstd::prelude::*;

verus! {

/// The named types of a schema. A field refers to one of them by its name,
/// and the name is looked up when the field is executed.
pub struct TypeStorage {
    pub enums: StrMap<DirectEnum>,
    pub objects: StrMap<DirectObject>,
    pub inputs: StrMap<DirectInputObject>,
}

} // verus!
