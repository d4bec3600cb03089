//! The offset-construction protocol: how a container, an ownership wrapper
//! around one, or an existing view yields an offset view by value.  Chained
//! offsets flatten to a single (container, total offset) pair, re-validated
//! against the true underlying length.

use vstd::prelude::*;

use std::rc::Rc;
use std::sync::Arc;

pub mod check;

use crate::OffsetVec;
use crate::slice::Slice;
use crate::slice::aligned;
use crate::vec_like::TextBuf;
use crate::vec_like::VecLike;
use crate::vec_like::VecLikeDup;

verus! {

/// The offset view over `vec` hiding the first `offset` native units, which
/// must lie on an element boundary at or before the end.
pub fn create<V: VecLike>(vec: V, offset: usize) -> (r: OffsetVec<V>)
    requires
        aligned(vec.elems(), V::widths(), offset as int),
    ensures
        r.wf(),
        r.origin() == vec,
        r.all_elems() == vec.elems(),
        r.spec_offset() == offset,
{
    OffsetVec { vec, offset }
}

/// As [`create`], rejecting an offset past the end or off an element
/// boundary instead of demanding it: the result is `None` exactly on the
/// offsets [`create`] refuses.
pub fn create_checked<V: VecLike>(vec: V, offset: usize) -> (r: Option<OffsetVec<V>>)
    ensures
        match r {
            Some(ov) => {
                &&& aligned(vec.elems(), V::widths(), offset as int)
                &&& ov.wf()
                &&& ov.all_elems() == vec.elems()
                &&& ov.spec_offset() == offset
            },
            None => !aligned(vec.elems(), V::widths(), offset as int),
        },
{
    if vec.is_aligned(offset) {
        Some(create(vec, offset))
    } else {
        None
    }
}

/// By-value offset construction: consuming the source yields an offset view
/// whose offset counts from the start of the true underlying container.
pub trait Offset: Sized {
    /// The container kind the resulting view owns.
    type Output: VecLike;

    /// The elements of the true underlying container.
    spec fn base_elems(self) -> Seq<<Self::Output as Slice>::Elem>;

    /// The units already hidden before this source's own start.
    spec fn base_offset(self) -> int;

    /// The source's own offset invariant.
    spec fn offset_src_ok(self) -> bool;

    /// The view hiding `i` more native units than this source already hides;
    /// the combined offset must lie on a boundary of the true container.
    fn offset(self, i: usize) -> (r: OffsetVec<Self::Output>)
        requires
            self.offset_src_ok(),
            self.base_offset() + i <= usize::MAX,
            aligned(
                self.base_elems(),
                <Self::Output as Slice>::widths(),
                self.base_offset() + i,
            ),
        ensures
            r.wf(),
            r.all_elems() == self.base_elems(),
            r.spec_offset() == self.base_offset() + i,
    ;
}

impl<T> Offset for Vec<T> {
    type Output = Vec<T>;

    open spec fn base_elems(self) -> Seq<T> {
        self@
    }

    open spec fn base_offset(self) -> int {
        0
    }

    open spec fn offset_src_ok(self) -> bool {
        true
    }

    fn offset(self, i: usize) -> (r: OffsetVec<Vec<T>>) {
        create(self, i)
    }
}

impl Offset for TextBuf {
    type Output = TextBuf;

    open spec fn base_elems(self) -> Seq<char> {
        self.elems()
    }

    open spec fn base_offset(self) -> int {
        0
    }

    open spec fn offset_src_ok(self) -> bool {
        true
    }

    fn offset(self, i: usize) -> (r: OffsetVec<TextBuf>) {
        create(self, i)
    }
}

impl<V: VecLike> Offset for Box<V> {
    type Output = Box<V>;

    open spec fn base_elems(self) -> Seq<V::Elem> {
        (*self).elems()
    }

    open spec fn base_offset(self) -> int {
        0
    }

    open spec fn offset_src_ok(self) -> bool {
        true
    }

    fn offset(self, i: usize) -> (r: OffsetVec<Box<V>>) {
        create(self, i)
    }
}

impl<V: VecLikeDup> Offset for Rc<V> {
    type Output = Rc<V>;

    open spec fn base_elems(self) -> Seq<V::Elem> {
        (*self).elems()
    }

    open spec fn base_offset(self) -> int {
        0
    }

    open spec fn offset_src_ok(self) -> bool {
        true
    }

    fn offset(self, i: usize) -> (r: OffsetVec<Rc<V>>) {
        create(self, i)
    }
}

impl<V: VecLikeDup> Offset for Arc<V> {
    type Output = Arc<V>;

    open spec fn base_elems(self) -> Seq<V::Elem> {
        (*self).elems()
    }

    open spec fn base_offset(self) -> int {
        0
    }

    open spec fn offset_src_ok(self) -> bool {
        true
    }

    fn offset(self, i: usize) -> (r: OffsetVec<Arc<V>>) {
        create(self, i)
    }
}

impl<V: VecLike> Offset for OffsetVec<V> {
    type Output = V;

    open spec fn base_elems(self) -> Seq<V::Elem> {
        self.all_elems()
    }

    open spec fn base_offset(self) -> int {
        self.spec_offset()
    }

    open spec fn offset_src_ok(self) -> bool {
        self.wf()
    }

    /// Chained offsetting flattens: the stored container is re-wrapped under
    /// the combined offset, validated against the true underlying length.
    fn offset(self, i: usize) -> (r: OffsetVec<V>) {
        let OffsetVec { vec, offset } = self;
        create(vec, offset + i)
    }
}

impl<V: VecLike> OffsetVec<V> {
    /// As the chained [`Offset::offset`], rejecting a combined offset that
    /// overflows, passes the end, or misses an element boundary.
    pub fn offset_checked(self, i: usize) -> (r: Option<OffsetVec<V>>)
        requires
            self.wf(),
        ensures
            match r {
                Some(ov) => {
                    &&& self.spec_offset() + i <= usize::MAX
                    &&& aligned(self.all_elems(), V::widths(), self.spec_offset() + i)
                    &&& ov.wf()
                    &&& ov.all_elems() == self.all_elems()
                    &&& ov.spec_offset() == self.spec_offset() + i
                },
                None => self.spec_offset() + i > usize::MAX || !aligned(
                    self.all_elems(),
                    V::widths(),
                    self.spec_offset() + i,
                ),
            },
    {
        let OffsetVec { vec, offset } = self;
        match offset.checked_add(i) {
            None => None,
            Some(total) => create_checked(vec, total),
        }
    }
}

} // verus!
