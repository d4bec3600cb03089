//! Offset views over growable sequence containers.
//!
//! An [`OffsetVec`] pairs an owned, growable container with a hidden-prefix
//! length (the *offset*, counted in the container's native units: elements
//! for an array, bytes for a text buffer).  Every operation of the wrapper
//! works on the visible suffix only: indices are validated against the
//! visible length and then translated by the offset, and the hidden prefix
//! is never touched.

use vstd::prelude::*;

pub mod slice;
pub mod vec_like;
pub mod offset;
pub mod util;

pub use slice::Slice;
pub use vec_like::TextBuf;
pub use vec_like::VecLike;
pub use vec_like::VecLikeAbstract;
pub use vec_like::VecLikeDup;
pub use vec_like::VecLikeSolid;
pub use offset::Offset;
pub use offset::create;
pub use offset::create_checked;
pub use offset::check::OffsetCheck;
pub use offset::check::OffsetCheckRef;
pub use util::transform_char_index;

use crate::slice::aligned;
use crate::slice::count_to;
use crate::slice::lemma_count_to_monotone;
use crate::slice::lemma_count_to_of_prefix;
use crate::slice::lemma_count_to_prefix_only;
use crate::slice::lemma_count_to_props;
use crate::slice::lemma_units_of_take;
use crate::slice::lemma_widths_positive;
use crate::slice::units_of;
use core::cmp::Ordering;

use vstd::std_specs::cmp::PartialEqSpec;
use vstd::std_specs::cmp::PartialOrdSpec;

use crate::vec_like::can_test;
use crate::vec_like::retain_rel;

verus! {

/// The guard of every view-relative index: whether `index` falls outside a
/// visible region of length `len`.  An index equal to the length passes, for
/// the operations that insert at the end.
pub fn index_out_of_range(index: usize, len: usize) -> (r: bool)
    ensures
        r == (index > len),
{
    index > len
}


/// One end of a range expression over view-relative native indices.
#[derive(Clone, Copy)]
pub enum RangeEdge {
    /// The bound itself belongs to the range.
    Included(usize),
    /// Everything strictly past the bound belongs to the range.
    Excluded(usize),
    /// No bound: the range runs to the region's edge.
    Unbounded,
}

/// A range expression over view-relative native indices: both ends.
#[derive(Clone, Copy)]
pub struct RangeArg {
    pub start: RangeEdge,
    pub end: RangeEdge,
}

impl RangeArg {
    /// The range `a..b`.
    pub fn from_to(a: usize, b: usize) -> (r: RangeArg)
        ensures
            r == (RangeArg { start: RangeEdge::Included(a), end: RangeEdge::Excluded(b) }),
    {
        RangeArg { start: RangeEdge::Included(a), end: RangeEdge::Excluded(b) }
    }

    /// The range `a..=b`.
    pub fn from_to_inclusive(a: usize, b: usize) -> (r: RangeArg)
        ensures
            r == (RangeArg { start: RangeEdge::Included(a), end: RangeEdge::Included(b) }),
    {
        RangeArg { start: RangeEdge::Included(a), end: RangeEdge::Included(b) }
    }

    /// The range `a..`.
    pub fn from(a: usize) -> (r: RangeArg)
        ensures
            r == (RangeArg { start: RangeEdge::Included(a), end: RangeEdge::Unbounded }),
    {
        RangeArg { start: RangeEdge::Included(a), end: RangeEdge::Unbounded }
    }

    /// The range `..b`.
    pub fn to(b: usize) -> (r: RangeArg)
        ensures
            r == (RangeArg { start: RangeEdge::Unbounded, end: RangeEdge::Excluded(b) }),
    {
        RangeArg { start: RangeEdge::Unbounded, end: RangeEdge::Excluded(b) }
    }

    /// The range `..`.
    pub fn full() -> (r: RangeArg)
        ensures
            r == (RangeArg { start: RangeEdge::Unbounded, end: RangeEdge::Unbounded }),
    {
        RangeArg { start: RangeEdge::Unbounded, end: RangeEdge::Unbounded }
    }
}

/// An absolute, half-open range of container-relative native indices.
#[derive(Clone, Copy)]
pub struct UnitRange {
    pub start: usize,
    pub end: usize,
}

/// Why a range expression was rejected, with the numbers the caller would
/// want reported: overflow of an inclusive end, a start past the end, or an
/// end past the visible length.
#[derive(Debug)]
pub enum RangeError {
    StartOverflow,
    EndOverflow,
    StartAfterEnd { start: usize, end: usize },
    EndOutOfRange { end: usize, len: usize },
}

/// The view-relative unit index where a range starts.
pub open spec fn edge_start_units(e: RangeEdge) -> int {
    match e {
        RangeEdge::Included(n) => n as int,
        RangeEdge::Excluded(n) => n as int + 1,
        RangeEdge::Unbounded => 0,
    }
}

/// The view-relative unit index where a range ends, given the visible length.
pub open spec fn edge_end_units(e: RangeEdge, len: int) -> int {
    match e {
        RangeEdge::Included(n) => n as int + 1,
        RangeEdge::Excluded(n) => n as int,
        RangeEdge::Unbounded => len,
    }
}

/// An exclusive start bound one past the largest index cannot be resolved.
pub open spec fn edge_start_overflows(e: RangeEdge) -> bool {
    match e {
        RangeEdge::Excluded(n) => n == usize::MAX,
        _ => false,
    }
}

/// An inclusive end bound at the largest index cannot be resolved.
pub open spec fn edge_end_overflows(e: RangeEdge) -> bool {
    match e {
        RangeEdge::Included(n) => n == usize::MAX,
        _ => false,
    }
}

/// The range resolves, is ordered, and fits in a visible region of `len`
/// units.
pub open spec fn range_valid(r: RangeArg, len: int) -> bool {
    &&& !edge_start_overflows(r.start)
    &&& !edge_end_overflows(r.end)
    &&& edge_start_units(r.start) <= edge_end_units(r.end, len)
    &&& edge_end_units(r.end, len) <= len
}

/// An owned, growable container together with a hidden-prefix length: the
/// offset view.  Only the suffix after `offset` native units is visible;
/// every index is validated against the visible length and then translated.
///
/// Built by [`create`] or through the [`Offset`] construction protocol.
pub struct OffsetVec<V: VecLike> {
    pub(crate) vec: V,
    pub(crate) offset: usize,
}

impl<V: VecLike> OffsetVec<V> {
    /// The elements of the underlying container, hidden prefix included.
    pub closed spec fn all_elems(&self) -> Seq<V::Elem> {
        self.vec.elems()
    }

    /// The underlying container.
    pub closed spec fn origin(&self) -> V {
        self.vec
    }

    /// The hidden-prefix length, in native units.
    pub closed spec fn spec_offset(&self) -> int {
        self.offset as int
    }

    /// The offset invariant: the offset lies on an element boundary of the
    /// container, at or before its end.
    pub open spec fn wf(&self) -> bool {
        aligned(self.all_elems(), V::widths(), self.spec_offset())
    }

    /// Count of whole elements hidden before the offset.
    pub open spec fn hidden_count(&self) -> int {
        count_to(self.all_elems(), V::widths(), self.spec_offset())
    }

    /// The visible elements: everything after the hidden prefix.
    pub open spec fn visible(&self) -> Seq<V::Elem> {
        self.all_elems().skip(self.hidden_count())
    }

    /// The visible length, in native units.
    pub open spec fn visible_units(&self) -> int {
        units_of(self.all_elems(), V::widths()) - self.spec_offset()
    }

    /// Borrows the underlying container, hidden prefix included.
    pub fn origin_vec(&self) -> (r: &V)
        ensures
            *r == self.origin(),
    {
        &self.vec
    }

    /// Consumes the view into the underlying container, offset discarded.
    pub fn into_origin_vec(self) -> (r: V)
        ensures
            r == self.origin(),
            r.elems() == self.all_elems(),
    {
        self.vec
    }

    /// The hidden-prefix length, in native units.
    pub fn origin_offset(&self) -> (r: usize)
        ensures
            r == self.spec_offset(),
    {
        self.offset
    }

    /// The visible length, in native units.
    pub fn len(&self) -> (r: usize)
        requires
            self.wf(),
        ensures
            r == self.visible_units(),
    {
        self.vec.len() - self.offset
    }

    /// `self.len() == 0`
    pub fn is_empty(&self) -> (r: bool)
        requires
            self.wf(),
        ensures
            r == (self.visible_units() == 0),
    {
        self.len() == 0
    }

    /// Visible capacity: the container's capacity less the offset.
    pub fn capacity(&self) -> (r: usize)
        requires
            self.wf(),
        ensures
            r >= self.visible_units(),
    {
        self.vec.capacity() - self.offset
    }

    /// A hint; never changes contents or offset.
    pub fn reserve(&mut self, additional: usize)
        ensures
            final(self).all_elems() == old(self).all_elems(),
            final(self).spec_offset() == old(self).spec_offset(),
    {
        self.vec.reserve(additional);
    }

    /// A hint; never changes contents or offset.
    pub fn reserve_exact(&mut self, additional: usize)
        ensures
            final(self).all_elems() == old(self).all_elems(),
            final(self).spec_offset() == old(self).spec_offset(),
    {
        self.vec.reserve_exact(additional);
    }

    /// A hint; never changes contents or offset.
    pub fn shrink_to_fit(&mut self)
        ensures
            final(self).all_elems() == old(self).all_elems(),
            final(self).spec_offset() == old(self).spec_offset(),
    {
        self.vec.shrink_to_fit();
    }

    /// A hint; never changes contents or offset.
    pub fn shrink_to(&mut self, min_capacity: usize)
        ensures
            final(self).all_elems() == old(self).all_elems(),
            final(self).spec_offset() == old(self).spec_offset(),
    {
        self.vec.shrink_to(min_capacity);
    }

    /// Appends one element at the end of the visible region.
    pub fn push(&mut self, value: V::Elem)
        requires
            old(self).wf(),
            units_of(old(self).all_elems(), V::widths()) + V::widths()(value) <= usize::MAX,
        ensures
            final(self).wf(),
            final(self).all_elems() == old(self).all_elems().push(value),
            final(self).spec_offset() == old(self).spec_offset(),
            final(self).visible() == old(self).visible().push(value),
    {
        self.vec.push(value);
        proof {
            let s = old(self).all_elems();
            let off = old(self).spec_offset();
            let m = count_to(s, V::widths(), off);
            lemma_widths_positive::<V>();
            lemma_count_to_props(s, V::widths(), off);
            assert(s.push(value).take(m) =~= s.take(m));
            lemma_keeps_offset::<V>(s, s.push(value), off);
            assert(self.visible() =~= old(self).visible().push(value));
        }
    }

    /// Removes and returns the last visible element; the hidden prefix is
    /// never popped.
    pub fn pop(&mut self) -> (r: Option<V::Elem>)
        requires
            old(self).wf(),
        ensures
            final(self).wf(),
            final(self).spec_offset() == old(self).spec_offset(),
            ({
                let pre = *old(self);
                let post = *final(self);
                if pre.visible_units() == 0 {
                    r is None && post.all_elems() == pre.all_elems()
                } else {
                    r == Some(pre.visible().last()) && post.all_elems()
                        == pre.all_elems().drop_last() && post.visible()
                        == pre.visible().drop_last()
                }
            }),
    {
        if self.is_empty() {
            return None;
        }
        proof {
            lemma_nonempty_visible::<V>(self.all_elems(), self.spec_offset());
        }
        let r = self.vec.pop();
        proof {
            let s = old(self).all_elems();
            let off = old(self).spec_offset();
            let m = count_to(s, V::widths(), off);
            lemma_widths_positive::<V>();
            lemma_count_to_props(s, V::widths(), off);
            assert(s.drop_last().take(m) =~= s.take(m));
            lemma_keeps_offset::<V>(s, s.drop_last(), off);
            assert(self.visible() =~= old(self).visible().drop_last());
            assert(old(self).visible().last() == s.last());
        }
        r
    }

    /// Removes and returns the element starting at the view-relative native
    /// index `index`, shifting the rest of the visible region left.
    pub fn remove(&mut self, index: usize) -> (r: V::Elem)
        requires
            old(self).wf(),
            aligned(old(self).all_elems(), V::widths(), old(self).spec_offset() + index),
            old(self).spec_offset() + index < units_of(old(self).all_elems(), V::widths()),
        ensures
            final(self).wf(),
            final(self).spec_offset() == old(self).spec_offset(),
            ({
                let pre = *old(self);
                let post = *final(self);
                let c = count_to(pre.all_elems(), V::widths(), pre.spec_offset() + index);
                r == pre.all_elems()[c] && post.all_elems() == pre.all_elems().remove(c)
            }),
    {
        proof {
            lemma_index_in_visible::<V>(
                old(self).all_elems(),
                old(self).spec_offset(),
                index as int,
            );
        }
        // reading the width shows the translated index fits in usize
        let _width: usize = self.vec.len();
        let r = self.vec.remove(index + self.offset);
        proof {
            let s = old(self).all_elems();
            let off = old(self).spec_offset();
            let m = count_to(s, V::widths(), off);
            let c = count_to(s, V::widths(), off + index);
            lemma_widths_positive::<V>();
            lemma_count_to_props(s, V::widths(), off);
            lemma_index_in_visible::<V>(s, off, index as int);
            assert(s.remove(c).take(m) =~= s.take(m));
            lemma_keeps_offset::<V>(s, s.remove(c), off);
        }
        r
    }

    /// Inserts an element before the view-relative native index `index`,
    /// shifting the rest of the visible region right.
    pub fn insert(&mut self, index: usize, element: V::Elem)
        requires
            old(self).wf(),
            aligned(old(self).all_elems(), V::widths(), old(self).spec_offset() + index),
            units_of(old(self).all_elems(), V::widths()) + V::widths()(element) <= usize::MAX,
        ensures
            final(self).wf(),
            final(self).spec_offset() == old(self).spec_offset(),
            final(self).all_elems() == old(self).all_elems().insert(
                count_to(old(self).all_elems(), V::widths(), old(self).spec_offset() + index),
                element,
            ),
    {
        proof {
            lemma_widths_positive::<V>();
            lemma_count_to_props(old(self).all_elems(), V::widths(), old(self).spec_offset());
            lemma_count_to_props(
                old(self).all_elems(),
                V::widths(),
                old(self).spec_offset() + index,
            );
            lemma_count_to_monotone(
                old(self).all_elems(),
                V::widths(),
                old(self).spec_offset(),
                old(self).spec_offset() + index,
            );
        }
        // reading the width shows the translated index fits in usize
        let _width: usize = self.vec.len();
        self.vec.insert(index + self.offset, element);
        proof {
            let s = old(self).all_elems();
            let off = old(self).spec_offset();
            let m = count_to(s, V::widths(), off);
            let c = count_to(s, V::widths(), off + index);
            lemma_widths_positive::<V>();
            lemma_count_to_props(s, V::widths(), off);
            lemma_count_to_props(s, V::widths(), off + index);
            assert(s.insert(c, element).take(m) =~= s.take(m));
            lemma_keeps_offset::<V>(s, s.insert(c, element), off);
        }
    }

    /// Shortens the visible region to at most `len` native units; no effect
    /// when it is already short enough.  The hidden prefix is never cut.
    pub fn truncate(&mut self, len: usize)
        requires
            old(self).wf(),
            old(self).spec_offset() + len <= usize::MAX,
            old(self).spec_offset() + len >= units_of(old(self).all_elems(), V::widths())
                || aligned(old(self).all_elems(), V::widths(), old(self).spec_offset() + len),
        ensures
            final(self).wf(),
            final(self).spec_offset() == old(self).spec_offset(),
            ({
                let pre = *old(self);
                let post = *final(self);
                if pre.spec_offset() + len >= units_of(pre.all_elems(), V::widths()) {
                    post.all_elems() == pre.all_elems()
                } else {
                    post.all_elems() == pre.all_elems().take(
                        count_to(pre.all_elems(), V::widths(), pre.spec_offset() + len),
                    )
                }
            }),
    {
        self.vec.truncate(len + self.offset);
        proof {
            let s = old(self).all_elems();
            let off = old(self).spec_offset();
            let m = count_to(s, V::widths(), off);
            lemma_widths_positive::<V>();
            lemma_count_to_props(s, V::widths(), off);
            if off + len < units_of(s, V::widths()) {
                let c = count_to(s, V::widths(), off + len);
                lemma_count_to_monotone(s, V::widths(), off, off + len);
                lemma_count_to_props(s, V::widths(), off + len);
                assert(s.take(c).take(m) =~= s.take(m));
                lemma_keeps_offset::<V>(s, s.take(c), off);
            }
        }
    }

    /// Moves all elements of `other` to the end of the visible region,
    /// leaving `other` empty.
    pub fn append(&mut self, other: &mut V)
        requires
            old(self).wf(),
            units_of(old(self).all_elems(), V::widths()) + units_of(
                old(other).elems(),
                V::widths(),
            ) <= usize::MAX,
        ensures
            final(self).wf(),
            final(self).spec_offset() == old(self).spec_offset(),
            final(self).all_elems() == old(self).all_elems() + old(other).elems(),
            final(other).elems() == Seq::<V::Elem>::empty(),
    {
        self.vec.append(other);
        proof {
            let s = old(self).all_elems();
            let off = old(self).spec_offset();
            let m = count_to(s, V::widths(), off);
            lemma_widths_positive::<V>();
            lemma_count_to_props(s, V::widths(), off);
            assert((s + old(other).elems()).take(m) =~= s.take(m));
            lemma_keeps_offset::<V>(s, s + old(other).elems(), off);
        }
    }

    /// Removes every visible element: the container is cut back to exactly
    /// the offset, never below, so the hidden prefix survives unchanged.
    pub fn clear(&mut self)
        requires
            old(self).wf(),
        ensures
            final(self).wf(),
            final(self).spec_offset() == old(self).spec_offset(),
            final(self).all_elems() == old(self).all_elems().take(old(self).hidden_count()),
            units_of(final(self).all_elems(), V::widths()) == old(self).spec_offset(),
            final(self).visible() == Seq::<V::Elem>::empty(),
    {
        self.vec.truncate(self.offset);
        proof {
            let s = old(self).all_elems();
            let off = old(self).spec_offset();
            let m = count_to(s, V::widths(), off);
            lemma_widths_positive::<V>();
            lemma_count_to_props(s, V::widths(), off);
            if off == units_of(s, V::widths()) {
                lemma_count_to_of_prefix(s, V::widths(), s.len() as int);
                assert(s.take(s.len() as int) =~= s);
                assert(self.all_elems() =~= s.take(m));
            }
            assert(s.take(m).take(m) =~= s.take(m));
            lemma_keeps_offset::<V>(s, s.take(m), off);
            assert(self.visible() =~= Seq::<V::Elem>::empty());
        }
    }

    /// Splits the visible region at the view-relative native index `at`:
    /// this view keeps the front, the returned container takes the back.
    #[must_use]
    pub fn split_off(&mut self, at: usize) -> (r: V)
        requires
            old(self).wf(),
            aligned(old(self).all_elems(), V::widths(), old(self).spec_offset() + at),
        ensures
            final(self).wf(),
            final(self).spec_offset() == old(self).spec_offset(),
            ({
                let pre = *old(self);
                let c = count_to(pre.all_elems(), V::widths(), pre.spec_offset() + at);
                final(self).all_elems() == pre.all_elems().take(c) && r.elems()
                    == pre.all_elems().skip(c)
            }),
    {
        proof {
            lemma_widths_positive::<V>();
            lemma_count_to_props(old(self).all_elems(), V::widths(), old(self).spec_offset());
            lemma_count_to_monotone(
                old(self).all_elems(),
                V::widths(),
                old(self).spec_offset(),
                old(self).spec_offset() + at,
            );
            lemma_count_to_props(
                old(self).all_elems(),
                V::widths(),
                old(self).spec_offset() + at,
            );
        }
        // reading the width shows the translated index fits in usize
        let _width: usize = self.vec.len();
        let r = self.vec.split_off(at + self.offset);
        proof {
            let s = old(self).all_elems();
            let off = old(self).spec_offset();
            let m = count_to(s, V::widths(), off);
            let c = count_to(s, V::widths(), off + at);
            assert(s.take(c).take(m) =~= s.take(m));
            lemma_keeps_offset::<V>(s, s.take(c), off);
        }
        r
    }

    /// Resolves a view-relative range expression into an absolute container
    /// range: each end is validated against the visible length, then
    /// translated by the offset.
    pub fn map_range(&self, range: RangeArg) -> (r: UnitRange)
        requires
            self.wf(),
            range_valid(range, self.visible_units()),
        ensures
            r.start == self.spec_offset() + edge_start_units(range.start),
            r.end == self.spec_offset() + edge_end_units(range.end, self.visible_units()),
    {
        let n: usize = self.vec.len();
        let len: usize = n - self.offset;
        let start: usize = match range.start {
            RangeEdge::Included(a) => a,
            RangeEdge::Excluded(a) => a + 1,
            RangeEdge::Unbounded => 0,
        };
        let end: usize = match range.end {
            RangeEdge::Included(b) => b + 1,
            RangeEdge::Excluded(b) => b,
            RangeEdge::Unbounded => len,
        };
        UnitRange { start: start + self.offset, end: end + self.offset }
    }

    /// As [`Self::map_range`], reporting instead of demanding: each rejected
    /// range comes back as the error naming the numbers involved, in the
    /// order overflow, ordering, length.
    pub fn map_range_checked(&self, range: RangeArg) -> (r: Result<UnitRange, RangeError>)
        requires
            self.wf(),
        ensures
            ({
                let sv = edge_start_units(range.start);
                let ev = edge_end_units(range.end, self.visible_units());
                match r {
                    Ok(u) => range_valid(range, self.visible_units()) && u.start
                        == self.spec_offset() + sv && u.end == self.spec_offset() + ev,
                    Err(RangeError::StartOverflow) => edge_start_overflows(range.start),
                    Err(RangeError::EndOverflow) => !edge_start_overflows(range.start)
                        && edge_end_overflows(range.end),
                    Err(RangeError::StartAfterEnd { start, end }) => !edge_start_overflows(
                        range.start,
                    ) && !edge_end_overflows(range.end) && start == sv && end == ev && sv > ev,
                    Err(RangeError::EndOutOfRange { end, len }) => !edge_start_overflows(
                        range.start,
                    ) && !edge_end_overflows(range.end) && sv <= ev && end == ev && len
                        == self.visible_units() && ev > self.visible_units(),
                }
            }),
    {
        let n: usize = self.vec.len();
        let len: usize = n - self.offset;
        let start: usize = match range.start {
            RangeEdge::Included(a) => a,
            RangeEdge::Excluded(a) => {
                if a == usize::MAX {
                    return Err(RangeError::StartOverflow);
                }
                a + 1
            },
            RangeEdge::Unbounded => 0,
        };
        let end: usize = match range.end {
            RangeEdge::Included(b) => {
                if b == usize::MAX {
                    return Err(RangeError::EndOverflow);
                }
                b + 1
            },
            RangeEdge::Excluded(b) => b,
            RangeEdge::Unbounded => len,
        };
        if start > end {
            return Err(RangeError::StartAfterEnd { start, end });
        }
        if end > len {
            return Err(RangeError::EndOutOfRange { end, len });
        }
        Ok(UnitRange { start: start + self.offset, end: end + self.offset })
    }

    /// Removes the view-relative range from the visible region and returns
    /// the removed elements, in order, as a container.
    pub fn drain(&mut self, range: RangeArg) -> (r: V)
        requires
            old(self).wf(),
            range_valid(range, old(self).visible_units()),
            aligned(
                old(self).all_elems(),
                V::widths(),
                old(self).spec_offset() + edge_start_units(range.start),
            ),
            aligned(
                old(self).all_elems(),
                V::widths(),
                old(self).spec_offset() + edge_end_units(range.end, old(self).visible_units()),
            ),
        ensures
            final(self).wf(),
            final(self).spec_offset() == old(self).spec_offset(),
            ({
                let pre = *old(self);
                let a = count_to(
                    pre.all_elems(),
                    V::widths(),
                    pre.spec_offset() + edge_start_units(range.start),
                );
                let b = count_to(
                    pre.all_elems(),
                    V::widths(),
                    pre.spec_offset() + edge_end_units(range.end, pre.visible_units()),
                );
                r.elems() == pre.all_elems().subrange(a, b) && final(self).all_elems()
                    == pre.all_elems().take(a) + pre.all_elems().skip(b)
            }),
    {
        let u = self.map_range(range);
        let r = self.vec.drain(u.start, u.end);
        proof {
            let s = old(self).all_elems();
            let off = old(self).spec_offset();
            let sv = off + edge_start_units(range.start);
            let ev = off + edge_end_units(range.end, old(self).visible_units());
            let m = count_to(s, V::widths(), off);
            let a = count_to(s, V::widths(), sv);
            let b = count_to(s, V::widths(), ev);
            lemma_widths_positive::<V>();
            lemma_count_to_props(s, V::widths(), off);
            lemma_count_to_monotone(s, V::widths(), off, sv);
            lemma_count_to_monotone(s, V::widths(), sv, ev);
            lemma_count_to_props(s, V::widths(), ev);
            assert((s.take(a) + s.skip(b)).take(m) =~= s.take(m));
            lemma_keeps_offset::<V>(s, s.take(a) + s.skip(b), off);
        }
        r
    }

    /// Resizes the visible region to `new_len` native units: when growing,
    /// appends one generated element per missing unit; when shrinking,
    /// truncates.  The hidden prefix is never touched.
    pub fn resize_with<F: Fn() -> V::Elem>(&mut self, new_len: usize, f: F)
        requires
            old(self).wf(),
            call_requires(f, ()),
            old(self).spec_offset() + new_len <= usize::MAX,
            old(self).spec_offset() + new_len > units_of(old(self).all_elems(), V::widths())
                || aligned(
                old(self).all_elems(),
                V::widths(),
                old(self).spec_offset() + new_len,
            ),
            units_of(old(self).all_elems(), V::widths()) + V::max_elem_units() * (old(
                self,
            ).spec_offset() + new_len) <= usize::MAX,
        ensures
            final(self).wf(),
            final(self).spec_offset() == old(self).spec_offset(),
            ({
                let pre = *old(self);
                let post = *final(self);
                let target = pre.spec_offset() + new_len;
                let total = units_of(pre.all_elems(), V::widths());
                if target <= total {
                    post.all_elems() == pre.all_elems().take(
                        count_to(pre.all_elems(), V::widths(), target),
                    )
                } else {
                    exists|app: Seq<V::Elem>|
                        {
                            &&& app.len() == target - total
                            &&& post.all_elems() == pre.all_elems() + app
                            &&& (forall|i: int|
                                0 <= i < app.len() ==> call_ensures(f, (), #[trigger] app[i]))
                        }
                }
            }),
    {
        self.vec.resize_with(new_len + self.offset, f);
        proof {
            let s = old(self).all_elems();
            let off = old(self).spec_offset();
            let m = count_to(s, V::widths(), off);
            let target = off + new_len;
            let total = units_of(s, V::widths());
            lemma_widths_positive::<V>();
            lemma_count_to_props(s, V::widths(), off);
            if target <= total {
                let c = count_to(s, V::widths(), target);
                lemma_count_to_monotone(s, V::widths(), off, target);
                lemma_count_to_props(s, V::widths(), target);
                if target < total {
                    assert(s.take(c).take(m) =~= s.take(m));
                    lemma_keeps_offset::<V>(s, s.take(c), off);
                } else {
                    lemma_count_to_of_prefix(s, V::widths(), s.len() as int);
                    assert(s.take(s.len() as int) =~= s);
                    assert(self.all_elems() =~= s.take(c));
                }
            } else {
                let app = choose|app: Seq<V::Elem>|
                    {
                        &&& app.len() == target - total
                        &&& self.all_elems() == s + app
                        &&& (forall|i: int|
                            0 <= i < app.len() ==> call_ensures(f, (), #[trigger] app[i]))
                    };
                assert((s + app).take(m) =~= s.take(m));
                lemma_keeps_offset::<V>(s, s + app, off);
            }
        }
    }

    /// Retains, in order, the visible elements the predicate keeps; the
    /// hidden prefix is always kept whole, by element count, without
    /// consulting the predicate.
    pub fn retain<F: Fn(&V::Elem) -> bool>(&mut self, f: F)
        requires
            old(self).wf(),
            can_test(f, old(self).visible()),
        ensures
            final(self).wf(),
            final(self).spec_offset() == old(self).spec_offset(),
            final(self).hidden_count() == old(self).hidden_count(),
            final(self).all_elems().take(old(self).hidden_count()) == old(self).all_elems().take(
                old(self).hidden_count(),
            ),
            retain_rel(f, old(self).visible(), final(self).visible()),
    {
        proof {
            lemma_widths_positive::<V>();
            lemma_count_to_props(old(self).all_elems(), V::widths(), old(self).spec_offset());
        }
        let forced = self.vec.transform_index(self.offset);
        self.vec.retain_from(forced, f);
        proof {
            let s = old(self).all_elems();
            let off = old(self).spec_offset();
            lemma_keeps_offset::<V>(s, self.all_elems(), off);
        }
    }
}

impl<V: VecLikeDup> OffsetVec<V> {
    /// Resizes the visible region to `new_len` native units: when growing,
    /// appends one copy of `value` per missing unit; when shrinking,
    /// truncates.  The hidden prefix is never touched.
    pub fn resize(&mut self, new_len: usize, value: V::Elem)
        requires
            old(self).wf(),
            old(self).spec_offset() + new_len <= usize::MAX,
            old(self).spec_offset() + new_len > units_of(old(self).all_elems(), V::widths())
                || aligned(
                old(self).all_elems(),
                V::widths(),
                old(self).spec_offset() + new_len,
            ),
            units_of(old(self).all_elems(), V::widths()) + V::max_elem_units() * (old(
                self,
            ).spec_offset() + new_len) <= usize::MAX,
        ensures
            final(self).wf(),
            final(self).spec_offset() == old(self).spec_offset(),
            ({
                let pre = *old(self);
                let post = *final(self);
                let target = pre.spec_offset() + new_len;
                let total = units_of(pre.all_elems(), V::widths());
                if target <= total {
                    post.all_elems() == pre.all_elems().take(
                        count_to(pre.all_elems(), V::widths(), target),
                    )
                } else {
                    post.all_elems() == pre.all_elems() + Seq::new(
                        (target - total) as nat,
                        |i: int| value,
                    )
                }
            }),
    {
        self.vec.resize(new_len + self.offset, value);
        proof {
            let s = old(self).all_elems();
            let off = old(self).spec_offset();
            let m = count_to(s, V::widths(), off);
            let target = off + new_len;
            let total = units_of(s, V::widths());
            lemma_widths_positive::<V>();
            lemma_count_to_props(s, V::widths(), off);
            if target <= total {
                let c = count_to(s, V::widths(), target);
                lemma_count_to_monotone(s, V::widths(), off, target);
                lemma_count_to_props(s, V::widths(), target);
                if target < total {
                    assert(s.take(c).take(m) =~= s.take(m));
                    lemma_keeps_offset::<V>(s, s.take(c), off);
                } else {
                    lemma_count_to_of_prefix(s, V::widths(), s.len() as int);
                    assert(s.take(s.len() as int) =~= s);
                    assert(self.all_elems() =~= s.take(c));
                }
            } else {
                let app = Seq::new((target - total) as nat, |i: int| value);
                assert((s + app).take(m) =~= s.take(m));
                lemma_keeps_offset::<V>(s, s + app, off);
            }
        }
    }
}

impl<V: VecLikeSolid> OffsetVec<V> {
    /// As [`Self::retain`]; for solid containers the hidden prefix is
    /// exactly the first `offset` elements, so no translation is needed.
    pub fn retain_mut<F: Fn(&V::Elem) -> bool>(&mut self, f: F)
        requires
            old(self).wf(),
            can_test(f, old(self).visible()),
        ensures
            final(self).wf(),
            final(self).spec_offset() == old(self).spec_offset(),
            final(self).hidden_count() == old(self).hidden_count(),
            final(self).all_elems().take(old(self).hidden_count()) == old(self).all_elems().take(
                old(self).hidden_count(),
            ),
            retain_rel(f, old(self).visible(), final(self).visible()),
    {
        proof {
            let s = old(self).all_elems();
            let off = old(self).spec_offset();
            crate::vec_like::lemma_solid_ones::<V>();
            crate::slice::lemma_units_of_ones(s, V::widths());
            crate::slice::lemma_count_to_ones(s, V::widths(), off);
        }
        self.vec.retain_from(self.offset, f);
        proof {
            let s = old(self).all_elems();
            let off = old(self).spec_offset();
            lemma_widths_positive::<V>();
            lemma_count_to_props(s, V::widths(), off);
            lemma_keeps_offset::<V>(s, self.all_elems(), off);
        }
    }

    /// Removes and returns the visible element at `index`, replacing it with
    /// the last visible element instead of shifting.
    pub fn swap_remove(&mut self, index: usize) -> (r: V::Elem)
        requires
            old(self).wf(),
            index < old(self).visible_units(),
        ensures
            final(self).wf(),
            final(self).spec_offset() == old(self).spec_offset(),
            r == old(self).all_elems()[old(self).spec_offset() + index],
            final(self).all_elems() == old(self).all_elems().update(
                old(self).spec_offset() + index,
                old(self).all_elems().last(),
            ).drop_last(),
    {
        proof {
            let s = old(self).all_elems();
            let off = old(self).spec_offset();
            crate::vec_like::lemma_solid_ones::<V>();
            crate::slice::lemma_units_of_ones(s, V::widths());
        }
        // reading the width shows the translated index fits in usize
        let _width: usize = self.vec.len();
        let r = self.vec.swap_remove(index + self.offset);
        proof {
            let s = old(self).all_elems();
            let off = old(self).spec_offset();
            let m = count_to(s, V::widths(), off);
            lemma_widths_positive::<V>();
            lemma_count_to_props(s, V::widths(), off);
            crate::slice::lemma_count_to_ones(s, V::widths(), off);
            assert(self.all_elems().take(m) =~= s.take(m));
            lemma_keeps_offset::<V>(s, self.all_elems(), off);
        }
        r
    }

    /// Removes and returns the last visible element when the predicate
    /// accepts it; an empty visible region returns nothing without
    /// consulting the predicate.
    pub fn pop_if<F: Fn(&V::Elem) -> bool>(&mut self, predicate: F) -> (r: Option<V::Elem>)
        requires
            old(self).wf(),
            old(self).visible_units() > 0 ==> call_requires(
                predicate,
                (&old(self).all_elems().last(),),
            ),
        ensures
            final(self).wf(),
            final(self).spec_offset() == old(self).spec_offset(),
            ({
                let pre = *old(self);
                let post = *final(self);
                if pre.visible_units() == 0 {
                    r is None && post.all_elems() == pre.all_elems()
                } else {
                    exists|b: bool|
                        {
                            &&& #[trigger] call_ensures(predicate, (&pre.all_elems().last(),), b)
                            &&& b ==> r == Some(pre.all_elems().last()) && post.all_elems()
                                == pre.all_elems().drop_last()
                            &&& !b ==> r is None && post.all_elems() == pre.all_elems()
                        }
                }
            }),
    {
        if self.is_empty() {
            return None;
        }
        proof {
            lemma_nonempty_visible::<V>(self.all_elems(), self.spec_offset());
        }
        let r = self.vec.pop_if(predicate);
        proof {
            let s = old(self).all_elems();
            let off = old(self).spec_offset();
            let m = count_to(s, V::widths(), off);
            lemma_widths_positive::<V>();
            lemma_count_to_props(s, V::widths(), off);
            lemma_nonempty_visible::<V>(s, off);
            let b = choose|b: bool|
                {
                    &&& #[trigger] call_ensures(predicate, (&s.last(),), b)
                    &&& b ==> r == Some(s.last()) && self.all_elems() == s.drop_last()
                    &&& !b ==> r is None && self.all_elems() == s
                };
            if b {
                assert(s.drop_last().take(m) =~= s.take(m));
                lemma_keeps_offset::<V>(s, s.drop_last(), off);
            }
        }
        r
    }
}


/// A visible native index stays strictly inside the container, so the whole
/// element it starts is present.
proof fn lemma_index_in_visible<V: VecLike>(s: Seq<V::Elem>, off: int, index: int)
    requires
        index >= 0,
        aligned(s, V::widths(), off),
        aligned(s, V::widths(), off + index),
        off + index < units_of(s, V::widths()),
    ensures
        count_to(s, V::widths(), off) <= count_to(s, V::widths(), off + index) < s.len(),
{
    let w = V::widths();
    lemma_widths_positive::<V>();
    lemma_count_to_monotone(s, w, off, off + index);
    lemma_count_to_props(s, w, off + index);
    let c = count_to(s, w, off + index);
    assert(s.take(s.len() as int) =~= s);
    if c == s.len() {
        assert(units_of(s.take(c), w) == off + index);
        assert(false);
    }
}

/// The visible region is non-empty exactly when the offset falls short of
/// The visible region is non-empty exactly when the offset falls short of
/// the container's width; then the hidden element count falls short of the
/// element count.
proof fn lemma_nonempty_visible<V: VecLike>(s: Seq<V::Elem>, off: int)
    requires
        aligned(s, V::widths(), off),
        off < units_of(s, V::widths()),
    ensures
        count_to(s, V::widths(), off) < s.len(),
        s.len() > 0,
        s.skip(count_to(s, V::widths(), off)).last() == s.last(),
        s.skip(count_to(s, V::widths(), off)).len() > 0,
{
    let w = V::widths();
    let m = count_to(s, w, off);
    lemma_widths_positive::<V>();
    lemma_count_to_props(s, w, off);
    assert(s.take(s.len() as int) =~= s);
    if m == s.len() {
        assert(units_of(s.take(m), w) == off);
        assert(false);
    }
}

/// An edit that keeps the prefix of hidden elements intact keeps the offset
/// on a boundary, with the same hidden element count.
proof fn lemma_keeps_offset<V: VecLike>(s1: Seq<V::Elem>, s2: Seq<V::Elem>, off: int)
    requires
        aligned(s1, V::widths(), off),
        count_to(s1, V::widths(), off) <= s2.len(),
        s2.take(count_to(s1, V::widths(), off)) == s1.take(count_to(s1, V::widths(), off)),
    ensures
        aligned(s2, V::widths(), off),
        count_to(s2, V::widths(), off) == count_to(s1, V::widths(), off),
{
    let w = V::widths();
    let m = count_to(s1, w, off);
    lemma_widths_positive::<V>();
    lemma_count_to_props(s1, w, off);
    lemma_count_to_prefix_only(s2, s1, w, m, off);
    lemma_units_of_take(s2, w, m, s2.len() as int);
    assert(s2.take(s2.len() as int) =~= s2);
}

impl<V: VecLike> OffsetVec<V> {
    /// Consumes the view into a container holding only the visible elements.
    pub fn into_visible(self) -> (r: V)
        requires
            self.wf(),
        ensures
            r.elems() == self.visible(),
    {
        let OffsetVec { vec: mut vec, offset } = self;
        let r = vec.split_off(offset);
        r
    }
}

impl<T> OffsetVec<Vec<T>> {
    /// Borrows the visible region as a slice.
    pub fn as_slice(&self) -> (r: &[T])
        requires
            self.wf(),
        ensures
            r@ == self.visible(),
    {
        proof {
            let s = self.all_elems();
            let off = self.spec_offset();
            crate::slice::lemma_units_of_ones(s, <Vec<T> as Slice>::widths());
            crate::slice::lemma_count_to_ones(s, <Vec<T> as Slice>::widths(), off);
        }
        let s: &[T] = self.vec.as_slice();
        let r = vstd::slice::slice_subrange(s, self.offset, s.len());
        proof {
            assert(r@ =~= self.visible());
        }
        r
    }
}

impl OffsetVec<TextBuf> {
    /// The visible codepoints, in order.
    pub fn visible_chars(&self) -> (r: Vec<char>)
        requires
            self.wf(),
        ensures
            r@ == self.visible(),
    {
        let m = self.vec.transform_index(self.offset);
        let cs: &Vec<char> = self.vec.chars();
        proof {
            crate::slice::lemma_widths_positive::<TextBuf>();
            lemma_count_to_props(
                self.all_elems(),
                <TextBuf as Slice>::widths(),
                self.spec_offset(),
            );
        }
        let n: usize = cs.len();
        let mut out: Vec<char> = Vec::new();
        let mut i: usize = m;
        while i < n
            invariant
                m <= i <= n,
                n == cs@.len(),
                cs@ == self.all_elems(),
                out@ == cs@.subrange(m as int, i as int),
            decreases n - i,
        {
            out.push(cs[i]);
            proof {
                assert(out@ =~= cs@.subrange(m as int, i + 1 as int));
            }
            i += 1;
        }
        proof {
            assert(out@ =~= self.visible());
        }
        out
    }

    /// Appends the contents of another text buffer to the visible region.
    pub fn push_str(&mut self, other: &TextBuf)
        requires
            old(self).wf(),
            units_of(old(self).all_elems(), <TextBuf as Slice>::widths()) + units_of(
                other.elems(),
                <TextBuf as Slice>::widths(),
            ) <= usize::MAX,
        ensures
            final(self).wf(),
            final(self).spec_offset() == old(self).spec_offset(),
            final(self).all_elems() == old(self).all_elems() + other.elems(),
    {
        let mut d = other.duplicate();
        self.vec.append(&mut d);
        proof {
            let s = old(self).all_elems();
            let off = old(self).spec_offset();
            let m = count_to(s, <TextBuf as Slice>::widths(), off);
            lemma_widths_positive::<TextBuf>();
            lemma_count_to_props(s, <TextBuf as Slice>::widths(), off);
            assert((s + other.elems()).take(m) =~= s.take(m));
            lemma_keeps_offset::<TextBuf>(s, s + other.elems(), off);
        }
    }
}

impl<V: VecLike> Default for OffsetVec<V> {
    /// The view over an empty container, under offset zero.
    fn default() -> (r: Self)
        ensures
            r.wf(),
            r.all_elems() == Seq::<V::Elem>::empty(),
            r.spec_offset() == 0,
    {
        let r = OffsetVec { vec: V::empty(), offset: 0 };
        proof {
            assert(units_of(Seq::<V::Elem>::empty(), V::widths()) == 0);
            assert(count_to(Seq::<V::Elem>::empty(), V::widths(), 0) == 0);
            assert(r.all_elems().take(0) =~= Seq::<V::Elem>::empty());
        }
        r
    }
}

/// Every view splits its container into the hidden prefix, exactly as wide
/// as the offset, followed by the visible suffix: visible width is container
/// width less the offset, and visible content is the container's tail.
pub proof fn lemma_visible_decomposition<V: VecLike>(v: OffsetVec<V>)
    requires
        v.wf(),
    ensures
        v.all_elems() == v.all_elems().take(v.hidden_count()) + v.visible(),
        units_of(v.all_elems().take(v.hidden_count()), V::widths()) == v.spec_offset(),
        units_of(v.visible(), V::widths()) == v.visible_units(),
{
    let s = v.all_elems();
    let w = V::widths();
    let m = v.hidden_count();
    lemma_widths_positive::<V>();
    lemma_count_to_props(s, w, v.spec_offset());
    assert(s =~= s.take(m) + s.skip(m));
    crate::slice::lemma_units_of_concat(s.take(m), s.skip(m), w);
}

/// Pushing a value and then popping the view returns exactly that value and
/// restores the container; the push always leaves the view non-empty, so
/// the pop never reaches the hidden prefix.
pub proof fn lemma_push_then_pop<V: VecLike>(v: OffsetVec<V>, value: V::Elem)
    requires
        v.wf(),
    ensures
        v.all_elems().push(value).last() == value,
        v.all_elems().push(value).drop_last() == v.all_elems(),
        units_of(v.all_elems().push(value), V::widths()) - v.spec_offset() > 0,
{
    let s = v.all_elems();
    let w = V::widths();
    lemma_widths_positive::<V>();
    crate::slice::lemma_units_of_push(s, w, value);
    assert(s.push(value).drop_last() =~= s);
    V::lemma_elem_units(value);
}



/// Chaining a further offset `extra` onto a view is the flat view of the
/// same container under the summed offset: the visible width shrinks by
/// exactly `extra`, and the visible content is the former visible content
/// with its first `extra` units dropped.
pub proof fn lemma_chained_offset<V: VecLike>(outer: OffsetVec<V>, chained: OffsetVec<V>, extra: int)
    requires
        extra >= 0,
        outer.wf(),
        chained.wf(),
        chained.all_elems() == outer.all_elems(),
        chained.spec_offset() == outer.spec_offset() + extra,
    ensures
        chained.visible_units() == outer.visible_units() - extra,
        chained.visible() == outer.visible().skip(chained.hidden_count() - outer.hidden_count()),
{
    let s = outer.all_elems();
    let w = V::widths();
    lemma_widths_positive::<V>();
    lemma_count_to_monotone(s, w, outer.spec_offset(), chained.spec_offset());
    lemma_count_to_props(s, w, outer.spec_offset());
    lemma_count_to_props(s, w, chained.spec_offset());
    assert(chained.visible() =~= outer.visible().skip(
        chained.hidden_count() - outer.hidden_count(),
    ));
}


impl<T: PartialEq + PartialEqSpec> PartialEq for OffsetVec<Vec<T>> {
    /// Two views are equal when their visible slices are, element by
    /// element: the hidden prefixes and the offsets themselves are not
    /// compared.
    fn eq(&self, other: &Self) -> (r: bool) {
        proof {
            crate::slice::lemma_units_of_ones(self.all_elems(), <Vec<T> as Slice>::widths());
            crate::slice::lemma_count_to_ones(
                self.all_elems(),
                <Vec<T> as Slice>::widths(),
                self.spec_offset(),
            );
            crate::slice::lemma_units_of_ones(other.all_elems(), <Vec<T> as Slice>::widths());
            crate::slice::lemma_count_to_ones(
                other.all_elems(),
                <Vec<T> as Slice>::widths(),
                other.spec_offset(),
            );
        }
        let n1: usize = self.vec.len();
        let m1: usize = if self.offset < n1 {
            self.offset
        } else {
            n1
        };
        let n2: usize = other.vec.len();
        let m2: usize = if other.offset < n2 {
            other.offset
        } else {
            n2
        };
        let l1: usize = n1 - m1;
        let l2: usize = n2 - m2;
        if l1 != l2 {
            return false;
        }
        let mut i: usize = 0;
        while i < l1
            invariant
                i <= l1,
                n1 == self.all_elems().len(),
                n2 == other.all_elems().len(),
                m1 == self.hidden_count(),
                m2 == other.hidden_count(),
                m1 <= n1,
                m2 <= n2,
                l1 == n1 - m1,
                l1 == n2 - m2,
                T::obeys_eq_spec() ==> forall|p: int|
                    #![auto]
                    0 <= p < i ==> self.visible()[p].eq_spec(&other.visible()[p]),
            decreases l1 - i,
        {
            let x: &T = &self.vec[m1 + i];
            let y: &T = &other.vec[m2 + i];
            if x != y {
                proof {
                    if T::obeys_eq_spec() {
                        assert(self.visible()[i as int] == self.all_elems()[m1 + i]);
                        assert(other.visible()[i as int] == other.all_elems()[m2 + i]);
                        assert(!self.visible()[i as int].eq_spec(&other.visible()[i as int]));
                    }
                }
                return false;
            }
            proof {
                if T::obeys_eq_spec() {
                    assert(self.visible()[i as int] == self.all_elems()[m1 + i]);
                    assert(other.visible()[i as int] == other.all_elems()[m2 + i]);
                    assert(self.visible()[i as int].eq_spec(&other.visible()[i as int]));
                }
            }
            i += 1;
        }
        true
    }
}

impl<T: PartialEq + PartialEqSpec> vstd::std_specs::cmp::PartialEqSpecImpl for OffsetVec<Vec<T>> {
    open spec fn obeys_eq_spec() -> bool {
        T::obeys_eq_spec()
    }

    open spec fn eq_spec(&self, other: &Self) -> bool {
        &&& self.visible().len() == other.visible().len()
        &&& (forall|i: int|
            #![auto]
            0 <= i < self.visible().len() ==> self.visible()[i].eq_spec(&other.visible()[i]))
    }
}


/// Lexicographic order of two element sequences under the elements' own
/// comparison: the first differing position decides; a strict prefix is
/// smaller; an incomparable pair of elements makes the sequences
/// incomparable.
pub open spec fn lex_cmp_spec<T: PartialOrdSpec>(a: Seq<T>, b: Seq<T>) -> Option<Ordering>
    decreases a.len(),
{
    if a.len() == 0 && b.len() == 0 {
        Some(Ordering::Equal)
    } else if a.len() == 0 {
        Some(Ordering::Less)
    } else if b.len() == 0 {
        Some(Ordering::Greater)
    } else {
        match a[0].partial_cmp_spec(&b[0]) {
            Some(Ordering::Equal) => lex_cmp_spec(a.drop_first(), b.drop_first()),
            o => o,
        }
    }
}

impl<T: PartialEq + PartialEqSpec + PartialOrd + PartialOrdSpec> PartialOrd for OffsetVec<
    Vec<T>,
> {
    /// Views order as their visible slices do, lexicographically.
    fn partial_cmp(&self, other: &Self) -> (r: Option<Ordering>) {
        proof {
            crate::slice::lemma_units_of_ones(self.all_elems(), <Vec<T> as Slice>::widths());
            crate::slice::lemma_count_to_ones(
                self.all_elems(),
                <Vec<T> as Slice>::widths(),
                self.spec_offset(),
            );
            crate::slice::lemma_units_of_ones(other.all_elems(), <Vec<T> as Slice>::widths());
            crate::slice::lemma_count_to_ones(
                other.all_elems(),
                <Vec<T> as Slice>::widths(),
                other.spec_offset(),
            );
        }
        let n1: usize = self.vec.len();
        let m1: usize = if self.offset < n1 {
            self.offset
        } else {
            n1
        };
        let n2: usize = other.vec.len();
        let m2: usize = if other.offset < n2 {
            other.offset
        } else {
            n2
        };
        let l1: usize = n1 - m1;
        let l2: usize = n2 - m2;
        let shorter: usize = if l1 < l2 {
            l1
        } else {
            l2
        };
        proof {
            assert(self.visible().skip(0) =~= self.visible());
            assert(other.visible().skip(0) =~= other.visible());
        }
        let mut i: usize = 0;
        while i < shorter
            invariant
                i <= shorter,
                n1 == self.all_elems().len(),
                n2 == other.all_elems().len(),
                m1 == self.hidden_count(),
                m2 == other.hidden_count(),
                m1 <= n1,
                m2 <= n2,
                l1 == n1 - m1,
                l2 == n2 - m2,
                shorter == if l1 < l2 {
                    l1
                } else {
                    l2
                },
                T::obeys_partial_cmp_spec() ==> lex_cmp_spec(self.visible(), other.visible())
                    == lex_cmp_spec(
                    self.visible().skip(i as int),
                    other.visible().skip(i as int),
                ),
            decreases shorter - i,
        {
            let x: &T = &self.vec[m1 + i];
            let y: &T = &other.vec[m2 + i];
            let c = x.partial_cmp(y);
            proof {
                if T::obeys_partial_cmp_spec() {
                    let a = self.visible().skip(i as int);
                    let b = other.visible().skip(i as int);
                    assert(a[0] == self.all_elems()[m1 + i]);
                    assert(b[0] == other.all_elems()[m2 + i]);
                    assert(a.drop_first() =~= self.visible().skip(i + 1));
                    assert(b.drop_first() =~= other.visible().skip(i + 1));
                }
            }
            match c {
                Some(Ordering::Equal) => {
                    i += 1;
                },
                o => {
                    return o;
                },
            }
        }
        proof {
            if T::obeys_partial_cmp_spec() {
                let a = self.visible().skip(i as int);
                let b = other.visible().skip(i as int);
                if l1 < l2 {
                    assert(a.len() == 0);
                    assert(b.len() > 0);
                } else if l2 < l1 {
                    assert(b.len() == 0);
                    assert(a.len() > 0);
                } else {
                    assert(a.len() == 0);
                    assert(b.len() == 0);
                }
            }
        }
        if l1 < l2 {
            Some(Ordering::Less)
        } else if l2 < l1 {
            Some(Ordering::Greater)
        } else {
            Some(Ordering::Equal)
        }
    }
}

impl<T: PartialEq + PartialEqSpec + PartialOrd + PartialOrdSpec> vstd::std_specs::cmp::PartialOrdSpecImpl for OffsetVec<
    Vec<T>,
> {
    open spec fn obeys_partial_cmp_spec() -> bool {
        T::obeys_partial_cmp_spec()
    }

    open spec fn partial_cmp_spec(&self, other: &Self) -> Option<Ordering> {
        lex_cmp_spec(self.visible(), other.visible())
    }
}


impl<V: VecLike> From<V> for OffsetVec<V> {
    /// The view over the whole container: offset zero hides nothing.
    fn from(value: V) -> (r: Self) {
        proof {
            lemma_zero_offset_aligned::<V>(value.elems());
        }
        create(value, 0)
    }
}

impl<V: VecLike> vstd::std_specs::convert::FromSpecImpl<V> for OffsetVec<V> {
    open spec fn obeys_from_spec() -> bool {
        true
    }

    closed spec fn from_spec(value: V) -> Self {
        OffsetVec { vec: value, offset: 0 }
    }
}

/// What conversion from a container gives: the view holding that container
/// under offset zero.
pub proof fn lemma_from_view<V: VecLike>(value: V)
    ensures
        ({
            let r = <OffsetVec<V> as vstd::std_specs::convert::FromSpec<V>>::from_spec(value);
            r.all_elems() == value.elems() && r.spec_offset() == 0 && r.wf()
        }),
{
    lemma_zero_offset_aligned::<V>(value.elems());
}

/// Offset zero lies on a boundary of every container.
proof fn lemma_zero_offset_aligned<V: VecLike>(s: Seq<V::Elem>)
    ensures
        aligned(s, V::widths(), 0),
        count_to(s, V::widths(), 0) == 0,
{
    lemma_widths_positive::<V>();
    if s.len() > 0 {
        assert(V::widths()(s[0]) >= 1);
    }
    assert(s.take(0) =~= Seq::<V::Elem>::empty());
}

} // verus!
