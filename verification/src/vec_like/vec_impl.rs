//! The base, duplication and solid capability tiers for the plain growable
//! array, `Vec`.  Every element is exactly one native unit wide, so index
//! translation is the identity.

use vstd::prelude::*;

use crate::slice::Slice;
use crate::slice::lemma_aligned_ones;
use crate::slice::lemma_count_to_ones;
use crate::slice::lemma_units_of_ones;
use crate::slice::units_of;
use crate::vec_like::VecLike;
use crate::vec_like::VecLikeDup;
use crate::vec_like::VecLikeSolid;
use crate::vec_like::can_test;
use crate::vec_like::lemma_mask_seq_push;
use crate::vec_like::mask_seq;
use crate::vec_like::retain_rel;

verus! {

/// Relies on `Vec::capacity`: a vector's capacity is at least its length.
#[verifier::external_body]
fn vec_capacity<T>(v: &Vec<T>) -> (r: usize)
    ensures
        r >= v@.len(),
{
    v.capacity()
}

/// Relies on `Vec::reserve_exact`: a capacity hint never changes contents.
#[verifier::external_body]
fn vec_reserve_exact<T>(v: &mut Vec<T>, additional: usize)
    ensures
        final(v)@ == old(v)@,
{
    v.reserve_exact(additional)
}

/// Relies on `Vec::shrink_to_fit`: a capacity hint never changes contents.
#[verifier::external_body]
fn vec_shrink_to_fit<T>(v: &mut Vec<T>)
    ensures
        final(v)@ == old(v)@,
{
    v.shrink_to_fit()
}

/// Relies on `Vec::shrink_to`: a capacity hint never changes contents.
#[verifier::external_body]
fn vec_shrink_to<T>(v: &mut Vec<T>, min_capacity: usize)
    ensures
        final(v)@ == old(v)@,
{
    v.shrink_to(min_capacity)
}

impl<T> Slice for Vec<T> {
    type Elem = T;

    open spec fn elems(&self) -> Seq<T> {
        self@
    }

    open spec fn widths() -> spec_fn(T) -> nat {
        |e: T| 1 as nat
    }

    open spec fn max_elem_units() -> nat {
        1
    }

    proof fn lemma_elem_units(e: T) {
    }

    fn len(&self) -> (r: usize) {
        proof {
            lemma_units_of_ones(self@, Self::widths());
        }
        self.len()
    }

    fn is_empty(&self) -> (r: bool) {
        self.is_empty()
    }

    fn transform_index(&self, index: usize) -> (r: usize) {
        proof {
            lemma_aligned_ones(self@, Self::widths(), index as int);
            lemma_count_to_ones(self@, Self::widths(), index as int);
        }
        index
    }

    fn is_aligned(&self, index: usize) -> (r: bool) {
        proof {
            lemma_aligned_ones(self@, Self::widths(), index as int);
            lemma_units_of_ones(self@, Self::widths());
        }
        index <= self.len()
    }
}

impl<T> VecLike for Vec<T> {
    fn empty() -> (r: Self) {
        Vec::new()
    }

    fn capacity(&self) -> (r: usize) {
        proof {
            lemma_units_of_ones(self@, Self::widths());
        }
        vec_capacity(self)
    }

    fn reserve(&mut self, additional: usize) {
        self.reserve(additional)
    }

    fn reserve_exact(&mut self, additional: usize) {
        vec_reserve_exact(self, additional)
    }

    fn shrink_to_fit(&mut self) {
        vec_shrink_to_fit(self)
    }

    fn shrink_to(&mut self, min_capacity: usize) {
        vec_shrink_to(self, min_capacity)
    }

    fn push(&mut self, value: T) {
        self.push(value)
    }

    fn pop(&mut self) -> (r: Option<T>) {
        let r = self.pop();
        proof {
            if old(self)@.len() > 0 {
                assert(self@ =~= old(self)@.drop_last());
            }
        }
        r
    }

    fn insert(&mut self, index: usize, element: T) {
        proof {
            lemma_aligned_ones(old(self)@, Self::widths(), index as int);
            lemma_count_to_ones(old(self)@, Self::widths(), index as int);
            lemma_units_of_ones(old(self)@, Self::widths());
        }
        self.insert(index, element)
    }

    fn remove(&mut self, index: usize) -> (r: T) {
        proof {
            lemma_aligned_ones(old(self)@, Self::widths(), index as int);
            lemma_count_to_ones(old(self)@, Self::widths(), index as int);
            lemma_units_of_ones(old(self)@, Self::widths());
        }
        self.remove(index)
    }

    fn truncate(&mut self, len: usize) {
        proof {
            lemma_units_of_ones(old(self)@, Self::widths());
            if (len as int) < old(self)@.len() {
                lemma_count_to_ones(old(self)@, Self::widths(), len as int);
            }
        }
        self.truncate(len);
        proof {
            if (len as int) < old(self)@.len() {
                assert(self@ =~= old(self)@.take(len as int));
            }
        }
    }

    fn append(&mut self, other: &mut Self) {
        self.append(other)
    }

    fn clear(&mut self) {
        self.clear()
    }

    fn split_off(&mut self, at: usize) -> (r: Self) {
        proof {
            lemma_aligned_ones(old(self)@, Self::widths(), at as int);
            lemma_count_to_ones(old(self)@, Self::widths(), at as int);
            lemma_units_of_ones(old(self)@, Self::widths());
        }
        let r = self.split_off(at);
        proof {
            assert(self@ =~= old(self)@.take(at as int));
            assert(r@ =~= old(self)@.skip(at as int));
        }
        r
    }

    fn drain(&mut self, start: usize, end: usize) -> (r: Self) {
        proof {
            lemma_aligned_ones(old(self)@, Self::widths(), start as int);
            lemma_aligned_ones(old(self)@, Self::widths(), end as int);
            lemma_count_to_ones(old(self)@, Self::widths(), start as int);
            lemma_count_to_ones(old(self)@, Self::widths(), end as int);
            lemma_units_of_ones(old(self)@, Self::widths());
        }
        let ghost orig = self@;
        let mut out: Vec<T> = Vec::new();
        let n: usize = end - start;
        let mut j: usize = 0;
        while j < n
            invariant
                j <= n,
                start + n <= orig.len(),
                self@ == orig.take(start as int) + orig.skip(start + j as int),
                out@ == orig.subrange(start as int, start + j as int),
            decreases n - j,
        {
            proof {
                assert(self@.len() == orig.len() - j);
                assert(self@[start as int] == orig[start + j as int]);
            }
            let e = self.remove(start);
            proof {
                assert(self@ =~= orig.take(start as int) + orig.skip(start + (j + 1) as int));
            }
            out.push(e);
            proof {
                assert(out@ =~= orig.subrange(start as int, start + (j + 1) as int));
            }
            j += 1;
        }
        proof {
            assert(self@ =~= orig.take(start as int) + orig.skip(end as int));
        }
        out
    }

    fn resize_with<F: Fn() -> T>(&mut self, new_len: usize, f: F) {
        proof {
            lemma_units_of_ones(old(self)@, Self::widths());
        }
        let n: usize = self.len();
        if new_len <= n {
            proof {
                lemma_aligned_ones(old(self)@, Self::widths(), new_len as int);
                lemma_count_to_ones(old(self)@, Self::widths(), new_len as int);
            }
            self.truncate(new_len);
            proof {
                if (new_len as int) < old(self)@.len() {
                    assert(self@ =~= old(self)@.take(new_len as int));
                } else {
                    assert(self@ =~= old(self)@.take(new_len as int));
                }
            }
        } else {
            let ghost orig = self@;
            let ghost mut app: Seq<T> = Seq::empty();
            let mut i: usize = n;
            while i < new_len
                invariant
                    n <= i <= new_len,
                    orig.len() == n,
                    self@ == orig + app,
                    app.len() == i - n,
                    call_requires(f, ()),
                    forall|p: int| 0 <= p < app.len() ==> call_ensures(f, (), #[trigger] app[p]),
                decreases new_len - i,
            {
                let e = f();
                proof {
                    app = app.push(e);
                }
                self.push(e);
                i += 1;
            }
            proof {
                assert(new_len as int > units_of(orig, Self::widths()) ==> {
                    &&& app.len() == new_len - units_of(orig, Self::widths())
                    &&& self@ == orig + app
                    &&& (forall|p: int| 0 <= p < app.len() ==> call_ensures(f, (), #[trigger] app[p]))
                });
            }
        }
    }

    fn retain_from<F: Fn(&T) -> bool>(&mut self, forced: usize, f: F) {
        let ghost orig = self@;
        let mut out: Vec<T> = Vec::new();
        let mut i: usize = 0;
        while i < forced
            invariant
                i <= forced <= orig.len(),
                self@ == orig.skip(i as int),
                out@ == orig.take(i as int),
            decreases forced - i,
        {
            proof {
                assert(self@[0] == orig[i as int]);
            }
            let e = self.remove(0);
            proof {
                assert(self@ =~= orig.skip(i + 1 as int));
            }
            out.push(e);
            proof {
                assert(out@ =~= orig.take(i + 1 as int));
            }
            i += 1;
        }
        let ghost mid = orig.skip(forced as int);
        let ghost mut keep: Seq<bool> = Seq::empty();
        let m: usize = self.len();
        let mut j: usize = 0;
        while j < m
            invariant
                j <= m,
                m == mid.len(),
                self@ == mid.skip(j as int),
                keep.len() == j,
                out@ == orig.take(forced as int) + mask_seq(mid.take(j as int), keep),
                can_test(f, mid),
                forall|p: int| 0 <= p < j ==> call_ensures(f, (&mid[p],), #[trigger] keep[p]),
            decreases m - j,
        {
            proof {
                assert(self@[0] == mid[j as int]);
            }
            let e = self.remove(0);
            proof {
                assert(self@ =~= mid.skip(j + 1 as int));
            }
            let b = f(&e);
            proof {
                lemma_mask_seq_push(mid.take(j as int), keep, mid[j as int], b);
                assert(mid.take(j + 1 as int) =~= mid.take(j as int).push(mid[j as int]));
                keep = keep.push(b);
            }
            if b {
                out.push(e);
            }
            proof {
                assert(out@ =~= orig.take(forced as int) + mask_seq(mid.take(j + 1 as int), keep));
            }
            j += 1;
        }
        proof {
            assert(mid.take(m as int) =~= mid);
        }
        *self = out;
        proof {
            assert(self@.take(forced as int) =~= orig.take(forced as int));
            assert(self@.skip(forced as int) =~= mask_seq(mid, keep));
            assert(retain_rel(f, mid, self@.skip(forced as int)));
        }
    }
}

impl<T: Copy> VecLikeDup for Vec<T> {
    fn duplicate(&self) -> (r: Self) {
        let mut out: Vec<T> = Vec::new();
        let n: usize = self.len();
        let mut i: usize = 0;
        while i < n
            invariant
                i <= n,
                n == self@.len(),
                out@ == self@.take(i as int),
            decreases n - i,
        {
            out.push(self[i]);
            proof {
                assert(out@ =~= self@.take(i + 1 as int));
            }
            i += 1;
        }
        proof {
            assert(out@ =~= self@);
        }
        out
    }

    fn resize(&mut self, new_len: usize, value: T) {
        proof {
            lemma_units_of_ones(old(self)@, Self::widths());
        }
        let n: usize = self.len();
        if new_len <= n {
            proof {
                lemma_aligned_ones(old(self)@, Self::widths(), new_len as int);
                lemma_count_to_ones(old(self)@, Self::widths(), new_len as int);
            }
            self.truncate(new_len);
            proof {
                assert(self@ =~= old(self)@.take(new_len as int));
            }
        } else {
            let ghost orig = self@;
            let mut i: usize = n;
            while i < new_len
                invariant
                    n <= i <= new_len,
                    orig.len() == n,
                    self@ == orig + Seq::new((i - n) as nat, |p: int| value),
                decreases new_len - i,
            {
                self.push(value);
                proof {
                    assert(self@ =~= orig + Seq::new((i + 1 - n) as nat, |p: int| value));
                }
                i += 1;
            }
        }
    }
}

impl<T> VecLikeSolid for Vec<T> {
    proof fn lemma_solid_units(e: T) {
    }

    fn swap_remove(&mut self, index: usize) -> (r: T) {
        self.swap_remove(index)
    }

    fn retain<F: Fn(&T) -> bool>(&mut self, f: F) {
        proof {
            assert(old(self)@.skip(0) =~= old(self)@);
        }
        VecLike::retain_from(self, 0, f);
        proof {
            assert(self@.skip(0) =~= self@);
        }
    }

    fn retain_mut<F: Fn(&T) -> bool>(&mut self, f: F) {
        proof {
            assert(old(self)@.skip(0) =~= old(self)@);
        }
        VecLike::retain_from(self, 0, f);
        proof {
            assert(self@.skip(0) =~= self@);
        }
    }

    fn pop_if<F: Fn(&T) -> bool>(&mut self, predicate: F) -> (r: Option<T>) {
        if self.len() == 0 {
            None
        } else {
            let idx: usize = self.len() - 1;
            let b = predicate(&self[idx]);
            if b {
                let r = self.pop();
                proof {
                    assert(self@ =~= old(self)@.drop_last());
                }
                r
            } else {
                None
            }
        }
    }
}

} // verus!
