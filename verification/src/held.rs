//! A holder for boxed trait objects.

use vstd::prelude::*;

verus! {

/// A value in a field of its own. A boxed trait object that is put into a
/// field of its very type counts as converted, and a contract can no longer
/// tell that it is the same one; handed over as a value of any type, it stays
/// what it was.
pub struct Held<T> {
    /// The value.
    pub value: T,
}

/// `value`, held.
pub fn hold<T>(value: T) -> (held: Held<T>)
    ensures
        held.value == value,
{
    Held { value }
}

}
