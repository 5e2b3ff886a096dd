use vstd::prelude::*;
use std::rc::Rc;

verus! {

/// Index into the type table.
pub type TypeId = u32;

/// A class named by its raw type-table id, not resolved to a full type.
pub type ClassId = u32;

/// A resolved type from the type pool: its table id and its descriptor
/// string, shared (not copied) with every entity that references it.
#[derive(Debug)]
pub struct Type {
    pub id: TypeId,
    pub descriptor: Rc<String>,
}

impl Clone for Type {
    /// A second handle onto the same shared descriptor.
    fn clone(&self) -> (r: Self)
        ensures
            r == *self,
    {
        Type { id: self.id, descriptor: Rc::clone(&self.descriptor) }
    }
}

} // verus!
