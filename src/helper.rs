use vstd::prelude::*;

verus! {

/// Addition that reports overflow instead of wrapping.
pub trait SafeAdd: Sized {
    /// The sum, or `None` where it does not fit in the type.
    spec fn spec_safe_add(&self, n: &Self) -> Option<Self>;

    fn safe_add(&self, n: &Self) -> (r: Option<Self>)
        ensures
            r == self.spec_safe_add(n),
    ;
}

impl SafeAdd for usize {
    open spec fn spec_safe_add(&self, n: &usize) -> Option<usize> {
        if *self + *n <= usize::MAX {
            Some((*self + *n) as usize)
        } else {
            None
        }
    }

    fn safe_add(&self, n: &usize) -> (r: Option<usize>) {
        self.checked_add(*n)
    }
}

/// Adds `src` to `*dst` in place; on overflow `*dst` is left as it was and
/// the error built by `f` is returned.
pub fn safe_add<T, F, E>(dst: &mut T, src: &T, f: F) -> (r: Result<(), E>)
    where
        T: SafeAdd,
        F: Fn() -> E,
    requires
        f.requires(()),
    ensures
        match old(dst).spec_safe_add(src) {
            Some(v) => r is Ok && *final(dst) == v,
            None => r matches Err(e) && f.ensures((), e) && *final(dst) == *old(dst),
        },
{
    match dst.safe_add(src) {
        Some(v) => {
            *dst = v;
            Ok(())
        },
        None => Err(f()),
    }
}

} // verus!
