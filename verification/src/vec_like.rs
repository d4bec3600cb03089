//! The capability trait hierarchy: the base tier every adaptable container
//! satisfies ([`VecLike`]), a tier for containers whose elements can be
//! duplicated ([`VecLikeDup`]), the solid tier for containers with directly
//! addressable storage cells ([`VecLikeSolid`]), and the abstract tier for
//! containers whose elements are not individually addressable storage cells,
//! such as decoded text ([`VecLikeAbstract`]).

use vstd::prelude::*;

use crate::slice::Slice;
use crate::slice::aligned;
use crate::slice::count_to;
use crate::slice::units_of;

mod vec_impl;
mod text_impl;
mod pointers_impl;

pub use text_impl::TextBuf;
pub use text_impl::char_units;
pub use text_impl::char_width;

verus! {

/// The elements of `s` selected by the flags in `keep`, in order.
pub open spec fn mask_seq<T>(s: Seq<T>, keep: Seq<bool>) -> Seq<T>
    decreases s.len(),
{
    if s.len() == 0 {
        Seq::empty()
    } else {
        mask_seq(s.drop_last(), keep.drop_last()) + (if keep.last() {
            seq![s.last()]
        } else {
            Seq::empty()
        })
    }
}

/// The predicate `f` accepts every element of `s` as an argument.
pub open spec fn can_test<T, F: Fn(&T) -> bool>(f: F, s: Seq<T>) -> bool {
    forall|i: int| 0 <= i < s.len() ==> call_requires(f, (&s[i],))
}

/// `after` is `before` filtered by one run of the predicate `f` over each
/// element in order: some flag sequence selects exactly `after`, and each
/// flag is an answer `f` can give for that element.
pub open spec fn retain_rel<T, F: Fn(&T) -> bool>(f: F, before: Seq<T>, after: Seq<T>) -> bool {
    exists|keep: Seq<bool>|
        keep.len() == before.len() && after == mask_seq(before, keep) && (forall|i: int|
            0 <= i < before.len() ==> call_ensures(f, (&before[i],), #[trigger] keep[i]))
}

/// As `can_test`, for a predicate taking elements by value.
pub open spec fn can_test_val<T, F: Fn(T) -> bool>(f: F, s: Seq<T>) -> bool {
    forall|i: int| 0 <= i < s.len() ==> call_requires(f, (s[i],))
}

/// As `retain_rel`, for a predicate taking elements by value.
pub open spec fn retain_rel_val<T, F: Fn(T) -> bool>(f: F, before: Seq<T>, after: Seq<T>) -> bool {
    exists|keep: Seq<bool>|
        keep.len() == before.len() && after == mask_seq(before, keep) && (forall|i: int|
            0 <= i < before.len() ==> call_ensures(f, (before[i],), #[trigger] keep[i]))
}

/// Base tier: what every adaptable owned, growable container provides.
///
/// Indices in this contract are native unit indices (element counts for
/// arrays, byte offsets for text); the effect of each operation is stated on
/// the logical element sequence through the translation functions of
/// [`Slice`].
pub trait VecLike: Slice {
    /// A new, empty container.
    fn empty() -> (r: Self)
        ensures
            r.elems() == Seq::<Self::Elem>::empty(),
    ;

    /// Units of storage available without reallocation; at least the length.
    /// For containers with no real capacity concept this defaults to the
    /// length, so no more is promised here.
    fn capacity(&self) -> (r: usize)
        ensures
            r >= units_of(self.elems(), Self::widths()),
    ;

    /// A hint; never changes the contents.
    fn reserve(&mut self, additional: usize)
        ensures
            final(self).elems() == old(self).elems(),
    ;

    /// A hint; never changes the contents.
    fn reserve_exact(&mut self, additional: usize)
        ensures
            final(self).elems() == old(self).elems(),
    ;

    /// A hint; never changes the contents.
    fn shrink_to_fit(&mut self)
        ensures
            final(self).elems() == old(self).elems(),
    ;

    /// A hint; never changes the contents.
    fn shrink_to(&mut self, min_capacity: usize)
        ensures
            final(self).elems() == old(self).elems(),
    ;

    /// Appends one element.
    fn push(&mut self, value: Self::Elem)
        requires
            units_of(old(self).elems(), Self::widths()) + Self::widths()(value) <= usize::MAX,
        ensures
            final(self).elems() == old(self).elems().push(value),
    ;

    /// Removes and returns the last element, if any.
    fn pop(&mut self) -> (r: Option<Self::Elem>)
        ensures
            ({
                let s = old(self).elems();
                if s.len() == 0 {
                    r is None && final(self).elems() == s
                } else {
                    r == Some(s.last()) && final(self).elems() == s.drop_last()
                }
            }),
    ;

    /// Inserts an element before the native index `index`, shifting the rest
    /// to the right.
    fn insert(&mut self, index: usize, element: Self::Elem)
        requires
            aligned(old(self).elems(), Self::widths(), index as int),
            units_of(old(self).elems(), Self::widths()) + Self::widths()(element) <= usize::MAX,
        ensures
            final(self).elems() == old(self).elems().insert(
                count_to(old(self).elems(), Self::widths(), index as int),
                element,
            ),
    ;

    /// Removes and returns the element starting at the native index `index`,
    /// shifting the rest to the left.
    fn remove(&mut self, index: usize) -> (r: Self::Elem)
        requires
            aligned(old(self).elems(), Self::widths(), index as int),
            index < units_of(old(self).elems(), Self::widths()),
        ensures
            ({
                let c = count_to(old(self).elems(), Self::widths(), index as int);
                r == old(self).elems()[c] && final(self).elems() == old(self).elems().remove(c)
            }),
    ;

    /// Shortens the container to at most `len` native units; no effect when
    /// it is already short enough.
    fn truncate(&mut self, len: usize)
        requires
            (len as int) >= units_of(old(self).elems(), Self::widths()) || aligned(
                old(self).elems(),
                Self::widths(),
                len as int,
            ),
        ensures
            (len as int) >= units_of(old(self).elems(), Self::widths()) ==> final(self).elems()
                == old(self).elems(),
            (len as int) < units_of(old(self).elems(), Self::widths()) ==> final(self).elems()
                == old(self).elems().take(
                count_to(old(self).elems(), Self::widths(), len as int),
            ),
    ;

    /// Moves all elements of `other` to the end of `self`, leaving `other`
    /// empty.
    fn append(&mut self, other: &mut Self)
        requires
            units_of(old(self).elems(), Self::widths()) + units_of(
                old(other).elems(),
                Self::widths(),
            ) <= usize::MAX,
        ensures
            final(self).elems() == old(self).elems() + old(other).elems(),
            final(other).elems() == Seq::<Self::Elem>::empty(),
    ;

    /// Removes all elements.
    fn clear(&mut self)
        ensures
            final(self).elems() == Seq::<Self::Elem>::empty(),
    ;

    /// Splits at the native index `at`: keeps the front, returns the back.
    fn split_off(&mut self, at: usize) -> (r: Self)
        requires
            aligned(old(self).elems(), Self::widths(), at as int),
        ensures
            ({
                let c = count_to(old(self).elems(), Self::widths(), at as int);
                final(self).elems() == old(self).elems().take(c) && r.elems() == old(
                    self,
                ).elems().skip(c)
            }),
    ;

    /// Removes the native unit range `start..end` and returns the removed
    /// elements in order.
    fn drain(&mut self, start: usize, end: usize) -> (r: Self)
        requires
            start <= end,
            aligned(old(self).elems(), Self::widths(), start as int),
            aligned(old(self).elems(), Self::widths(), end as int),
        ensures
            ({
                let a = count_to(old(self).elems(), Self::widths(), start as int);
                let b = count_to(old(self).elems(), Self::widths(), end as int);
                r.elems() == old(self).elems().subrange(a, b) && final(self).elems() == old(
                    self,
                ).elems().take(a) + old(self).elems().skip(b)
            }),
    ;

    /// Resizes to `new_len` native units: when growing, appends one
    /// generated element per missing unit; when shrinking, truncates.
    fn resize_with<F: Fn() -> Self::Elem>(&mut self, new_len: usize, f: F)
        requires
            call_requires(f, ()),
            (new_len as int) > units_of(old(self).elems(), Self::widths()) || aligned(
                old(self).elems(),
                Self::widths(),
                new_len as int,
            ),
            units_of(old(self).elems(), Self::widths()) + Self::max_elem_units() * new_len
                <= usize::MAX,
        ensures
            (new_len as int) <= units_of(old(self).elems(), Self::widths()) ==> final(self).elems()
                == old(self).elems().take(
                count_to(old(self).elems(), Self::widths(), new_len as int),
            ),
            (new_len as int) > units_of(old(self).elems(), Self::widths()) ==> exists|
                app: Seq<Self::Elem>,
            |
                {
                    &&& app.len() == new_len - units_of(old(self).elems(), Self::widths())
                    &&& final(self).elems() == old(self).elems() + app
                    &&& (forall|i: int|
                        0 <= i < app.len() ==> call_ensures(f, (), #[trigger] app[i]))
                },
    ;

    /// Retains, in order, the elements the predicate keeps, except that the
    /// first `forced` elements are always kept without consulting it.
    fn retain_from<F: Fn(&Self::Elem) -> bool>(&mut self, forced: usize, f: F)
        requires
            forced <= old(self).elems().len(),
            can_test(f, old(self).elems().skip(forced as int)),
        ensures
            forced <= final(self).elems().len(),
            final(self).elems().take(forced as int) == old(self).elems().take(forced as int),
            retain_rel(
                f,
                old(self).elems().skip(forced as int),
                final(self).elems().skip(forced as int),
            ),
    ;
}

/// Containers whose elements can be duplicated, enabling whole-container
/// duplication and resizing by a cloned fill value.
pub trait VecLikeDup: VecLike {
    /// A container with equal contents.
    fn duplicate(&self) -> (r: Self)
        ensures
            r.elems() == self.elems(),
    ;

    /// Resizes to `new_len` native units: when growing, appends one copy of
    /// `value` per missing unit; when shrinking, truncates.
    fn resize(&mut self, new_len: usize, value: Self::Elem)
        requires
            (new_len as int) > units_of(old(self).elems(), Self::widths()) || aligned(
                old(self).elems(),
                Self::widths(),
                new_len as int,
            ),
            units_of(old(self).elems(), Self::widths()) + Self::max_elem_units() * new_len
                <= usize::MAX,
        ensures
            (new_len as int) <= units_of(old(self).elems(), Self::widths()) ==> final(self).elems()
                == old(self).elems().take(
                count_to(old(self).elems(), Self::widths(), new_len as int),
            ),
            (new_len as int) > units_of(old(self).elems(), Self::widths()) ==> final(self).elems()
                == old(self).elems() + Seq::new(
                (new_len - units_of(old(self).elems(), Self::widths())) as nat,
                |i: int| value,
            ),
    ;
}

/// Solid tier: containers whose elements are directly addressable storage
/// cells, so one element is exactly one native unit.
pub trait VecLikeSolid: VecLike {
    /// One element, one unit.
    proof fn lemma_solid_units(e: Self::Elem)
        ensures
            Self::widths()(e) == 1,
    ;

    /// Removes and returns the element at `index`, replacing it with the
    /// last element instead of shifting.
    fn swap_remove(&mut self, index: usize) -> (r: Self::Elem)
        requires
            index < old(self).elems().len(),
        ensures
            r == old(self).elems()[index as int],
            final(self).elems() == old(self).elems().update(
                index as int,
                old(self).elems().last(),
            ).drop_last(),
    ;

    /// Retains, in order, exactly the elements the predicate keeps.
    fn retain<F: Fn(&Self::Elem) -> bool>(&mut self, f: F)
        requires
            can_test(f, old(self).elems()),
        ensures
            retain_rel(f, old(self).elems(), final(self).elems()),
    ;

    /// As `retain`; the direct-mutation form collapses to it here, since a
    /// verified predicate observes elements without writing through them.
    fn retain_mut<F: Fn(&Self::Elem) -> bool>(&mut self, f: F)
        requires
            can_test(f, old(self).elems()),
        ensures
            retain_rel(f, old(self).elems(), final(self).elems()),
    ;

    /// Removes and returns the last element when the predicate accepts it.
    fn pop_if<F: Fn(&Self::Elem) -> bool>(&mut self, predicate: F) -> (r: Option<Self::Elem>)
        requires
            old(self).elems().len() > 0 ==> call_requires(predicate, (&old(self).elems().last(),)),
        ensures
            ({
                let s = old(self).elems();
                if s.len() == 0 {
                    r is None && final(self).elems() == s
                } else {
                    exists|b: bool|
                        {
                            &&& #[trigger] call_ensures(predicate, (&s.last(),), b)
                            &&& b ==> r == Some(s.last()) && final(self).elems() == s.drop_last()
                            &&& !b ==> r is None && final(self).elems() == s
                        }
                }
            }),
    ;
}

/// Abstract tier: containers whose elements are not individually addressable
/// storage cells (decoded text over a byte buffer), offered by value.
pub trait VecLikeAbstract: VecLike where Self::Elem: Copy {
    /// Retains, in order, exactly the elements the predicate keeps.
    fn retain<F: Fn(Self::Elem) -> bool>(&mut self, f: F)
        requires
            can_test_val(f, old(self).elems()),
        ensures
            retain_rel_val(f, old(self).elems(), final(self).elems()),
    ;

    /// All (native index, element) pairs, in order: the native index is where
    /// each element's encoding starts.
    fn elem_indices(&self) -> (r: Vec<(usize, Self::Elem)>)
        ensures
            r@.len() == self.elems().len(),
            forall|i: int|
                0 <= i < r@.len() ==> (#[trigger] r@[i]).0 == units_of(
                    self.elems().take(i),
                    Self::widths(),
                ) && r@[i].1 == self.elems()[i],
    ;
}

/// Appending one element and one flag extends a mask by at most that element.
pub proof fn lemma_mask_seq_push<T>(s: Seq<T>, keep: Seq<bool>, x: T, b: bool)
    requires
        keep.len() == s.len(),
    ensures
        mask_seq(s.push(x), keep.push(b)) == mask_seq(s, keep) + (if b {
            seq![x]
        } else {
            Seq::<T>::empty()
        }),
{
    assert(s.push(x).drop_last() =~= s);
    assert(keep.push(b).drop_last() =~= keep);
    assert(s.push(x).last() == x);
    assert(keep.push(b).last() == b);
}

/// A mask selects a subsequence, so it is never wider than its source.
pub proof fn lemma_units_of_mask<T>(s: Seq<T>, keep: Seq<bool>, w: spec_fn(T) -> nat)
    ensures
        crate::slice::units_of(mask_seq(s, keep), w) <= crate::slice::units_of(s, w),
    decreases s.len(),
{
    if s.len() > 0 {
        lemma_units_of_mask(s.drop_last(), keep.drop_last(), w);
        crate::slice::lemma_units_of_concat(
            mask_seq(s.drop_last(), keep.drop_last()),
            if keep.last() {
                seq![s.last()]
            } else {
                Seq::<T>::empty()
            },
            w,
        );
        assert(s =~= s.drop_last().push(s.last()));
        crate::slice::lemma_units_of_push(s.drop_last(), w, s.last());
        if keep.last() {
            assert(seq![s.last()].drop_first() =~= Seq::<T>::empty());
            assert(seq![s.last()][0] == s.last());
            assert(crate::slice::units_of(Seq::<T>::empty(), w) == 0);
            assert(crate::slice::units_of(seq![s.last()], w) == w(s.last()));
        } else {
            assert(crate::slice::units_of(Seq::<T>::empty(), w) == 0);
        }
    }
}

/// Every element of a solid container is one unit wide.
pub proof fn lemma_solid_ones<V: VecLikeSolid>()
    ensures
        forall|e: V::Elem| #[trigger] (V::widths())(e) == 1,
{
    assert forall|e: V::Elem| #[trigger] (V::widths())(e) == 1 by {
        V::lemma_solid_units(e);
    }
}

} // verus!
