use vstd::prelude::*;

verus! {

/// Identifies a game object. The value is the object's bit representation
/// handed over by the engine; two handles are the same object exactly when
/// their bits are equal.
#[derive(Clone, Copy, Debug, PartialEq, Eq, Structural, Hash, PartialOrd, Ord)]
pub struct Entity(pub u64);

impl Entity {
    /// Wraps the engine's bit representation of an object.
    pub fn from_bits(bits: u64) -> (e: Entity)
        ensures
            e.0 == bits,
    {
        Entity(bits)
    }

    /// The engine's bit representation of this object.
    pub fn to_bits(&self) -> (bits: u64)
        ensures
            bits == self.0,
    {
        self.0
    }
}

} // verus!
