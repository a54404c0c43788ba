//! Overflow-checked addition shared by the other modules.

use vstd::prelude::*;

verus! {

/// Addition that reports overflow instead of wrapping.
pub trait SafeAdd: Sized {
    /// The mathematical value of a number of this type.
    spec fn as_int(&self) -> int;

    /// The largest value this type can hold.
    spec fn max_int() -> int;

    /// Returns the sum, or `None` when it would not fit.
    fn safe_add(&self, n: &Self) -> (r: Option<Self>)
        ensures
            r is Some <==> self.as_int() + n.as_int() <= Self::max_int(),
            r is Some ==> r.unwrap().as_int() == self.as_int() + n.as_int(),
    ;
}

impl SafeAdd for usize {
    open spec fn as_int(&self) -> int {
        *self as int
    }

    open spec fn max_int() -> int {
        usize::MAX as int
    }

    fn safe_add(&self, n: &usize) -> (r: Option<usize>) {
        self.checked_add(*n)
    }
}

/// Adds `additional` onto `dst` in place; on overflow `dst` is left
/// unchanged and the error produced by `on_overflow` is returned.
pub fn safe_add<T: SafeAdd, E, F: Fn() -> E>(dst: &mut T, additional: &T, on_overflow: F) -> (r:
    Result<(), E>)
    requires
        on_overflow.requires(()),
    ensures
        old(dst).as_int() + additional.as_int() <= T::max_int() ==> r is Ok && final(dst).as_int()
            == old(dst).as_int() + additional.as_int(),
        old(dst).as_int() + additional.as_int() > T::max_int() ==> r is Err && *final(dst) == *old(
            dst,
        ),
{
    if let Some(num) = dst.safe_add(additional) {
        *dst = num;
        Ok(())
    } else {
        Err(on_overflow())
    }
}

} // verus!
