//! Offset validation: whether a value can stand under a given offset, and
//! the checked pass-through used when composing offset views.

use vstd::prelude::*;

use crate::OffsetVec;
use crate::slice::Slice;
use crate::vec_like::TextBuf;
use crate::vec_like::VecLike;

verus! {

/// A borrowed check of the offset invariant.
pub trait OffsetCheckRef {
    /// Whether the value's offset invariant holds.
    spec fn offset_ok(&self) -> bool;

    /// Reports whether the offset invariant holds.
    fn offset_check_ref(&self) -> (r: bool)
        ensures
            r == self.offset_ok(),
    ;
}

/// A pass-through that demands the offset invariant.
pub trait OffsetCheck: OffsetCheckRef + Sized {
    /// Hands the value back; callable only when its offset invariant holds.
    fn offset_check(self) -> (r: Self)
        requires
            self.offset_ok(),
        ensures
            r == self,
    {
        self
    }
}

impl<T: OffsetCheckRef> OffsetCheck for T {

}

impl<T> OffsetCheckRef for Vec<T> {
    open spec fn offset_ok(&self) -> bool {
        true
    }

    fn offset_check_ref(&self) -> (r: bool) {
        true
    }
}

impl OffsetCheckRef for TextBuf {
    open spec fn offset_ok(&self) -> bool {
        true
    }

    fn offset_check_ref(&self) -> (r: bool) {
        true
    }
}

impl<V: VecLike> OffsetCheckRef for OffsetVec<V> {
    open spec fn offset_ok(&self) -> bool {
        self.wf()
    }

    fn offset_check_ref(&self) -> (r: bool) {
        let v = self.origin_vec();
        v.is_aligned(self.origin_offset())
    }
}

} // verus!
