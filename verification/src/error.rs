use vstd::prelude::*;

verus! {

/// The failure kinds a decode or resolution step can surface.
///
/// Every anomaly is a hard error: the first failure aborts the whole
/// entity resolution and no partial value is produced.
#[derive(Clone, Copy, Debug, PartialEq, Eq, Structural)]
pub enum Error {
    /// A byte access or a fixed-layout read fell outside the buffer.
    OutOfBounds,
    /// A variable-length integer carried more bits than its target width holds.
    MalformedUleb,
    /// A delta pushed a resolved identifier past the width of the id type.
    IdOverflow,
    /// A table id fell outside its table's extent.
    DanglingIndex,
    /// A string or type id was not present in its pool.
    PoolMiss,
}

} // verus!
