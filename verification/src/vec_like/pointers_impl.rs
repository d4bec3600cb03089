//! Ownership-wrapper delegation: the capability tiers for containers held
//! behind an exclusive heap pointer (`Box`) or a shared, copy-on-write
//! pointer (`Rc`, `Arc`).  The exclusive pointer passes every call through;
//! the shared pointers obtain exclusive access first, duplicating the inner
//! container only when other owners exist, so copy-on-write triggers at the
//! first mutation, never at view creation.

use vstd::prelude::*;

use std::rc::Rc;
use std::sync::Arc;

use crate::slice::Slice;
use crate::vec_like::VecLike;
use crate::vec_like::VecLikeAbstract;
use crate::vec_like::VecLikeDup;
use crate::vec_like::VecLikeSolid;

verus! {

/// Relies on `Arc::try_unwrap`: the inner value comes out when this pointer
/// is the only owner, else the same shared pointer comes back.
#[verifier::external_body]
fn arc_try_unwrap<V>(a: Arc<V>) -> (r: Result<V, Arc<V>>)
    ensures
        match r {
            Ok(t) => t == a,
            Err(e) => e == a,
        },
{
    Arc::try_unwrap(a)
}

/// The inner container of a shared pointer, by unwrapping an exclusive one
/// or duplicating a shared one: copy-on-write obtains exclusive access.
fn rc_unwrap_or_dup<V: VecLikeDup>(rc: Rc<V>) -> (r: V)
    ensures
        r.elems() == (*rc).elems(),
{
    match Rc::try_unwrap(rc) {
        Ok(v) => v,
        Err(shared) => (*shared).duplicate(),
    }
}

/// Moves the inner container out of the slot, duplicating it only when the
/// pointer is shared; the slot is left empty.
fn rc_take<V: VecLikeDup>(slot: &mut Rc<V>) -> (r: V)
    ensures
        r.elems() == (**old(slot)).elems(),
{
    let mut tmp: Rc<V> = Rc::new(V::empty());
    core::mem::swap(slot, &mut tmp);
    rc_unwrap_or_dup(tmp)
}

/// Stores a container into the slot under a fresh exclusive pointer.
fn rc_put<V: VecLike>(slot: &mut Rc<V>, v: V)
    ensures
        (**final(slot)).elems() == v.elems(),
{
    let mut tmp: Rc<V> = Rc::new(v);
    core::mem::swap(slot, &mut tmp);
}

/// As `rc_unwrap_or_dup`, for the atomically shared pointer.
fn arc_unwrap_or_dup<V: VecLikeDup>(rc: Arc<V>) -> (r: V)
    ensures
        r.elems() == (*rc).elems(),
{
    match arc_try_unwrap(rc) {
        Ok(v) => v,
        Err(shared) => (*shared).duplicate(),
    }
}

/// As `rc_take`, for the atomically shared pointer.
fn arc_take<V: VecLikeDup>(slot: &mut Arc<V>) -> (r: V)
    ensures
        r.elems() == (**old(slot)).elems(),
{
    let mut tmp: Arc<V> = Arc::new(V::empty());
    core::mem::swap(slot, &mut tmp);
    arc_unwrap_or_dup(tmp)
}

/// As `rc_put`, for the atomically shared pointer.
fn arc_put<V: VecLike>(slot: &mut Arc<V>, v: V)
    ensures
        (**final(slot)).elems() == v.elems(),
{
    let mut tmp: Arc<V> = Arc::new(v);
    core::mem::swap(slot, &mut tmp);
}

impl<V: VecLike> Slice for Box<V> {
    type Elem = V::Elem;

    open spec fn elems(&self) -> Seq<V::Elem> {
        (**self).elems()
    }

    open spec fn widths() -> spec_fn(V::Elem) -> nat {
        V::widths()
    }

    open spec fn max_elem_units() -> nat {
        V::max_elem_units()
    }

    proof fn lemma_elem_units(e: V::Elem) {
        V::lemma_elem_units(e);
    }

    fn len(&self) -> (r: usize) {
        (**self).len()
    }

    fn is_empty(&self) -> (r: bool) {
        (**self).is_empty()
    }

    fn transform_index(&self, index: usize) -> (r: usize) {
        (**self).transform_index(index)
    }

    fn is_aligned(&self, index: usize) -> (r: bool) {
        (**self).is_aligned(index)
    }
}

impl<V: VecLike> VecLike for Box<V> {
    fn empty() -> (r: Self) {
        Box::new(V::empty())
    }

    fn capacity(&self) -> (r: usize) {
        (**self).capacity()
    }

    fn reserve(&mut self, additional: usize) {
        (**self).reserve(additional)
    }

    fn reserve_exact(&mut self, additional: usize) {
        (**self).reserve_exact(additional)
    }

    fn shrink_to_fit(&mut self) {
        (**self).shrink_to_fit()
    }

    fn shrink_to(&mut self, min_capacity: usize) {
        (**self).shrink_to(min_capacity)
    }

    fn push(&mut self, value: V::Elem) {
        (**self).push(value)
    }

    fn pop(&mut self) -> (r: Option<V::Elem>) {
        (**self).pop()
    }

    fn insert(&mut self, index: usize, element: V::Elem) {
        (**self).insert(index, element)
    }

    fn remove(&mut self, index: usize) -> (r: V::Elem) {
        (**self).remove(index)
    }

    fn truncate(&mut self, len: usize) {
        (**self).truncate(len)
    }

    fn append(&mut self, other: &mut Self) {
        (**self).append(&mut **other)
    }

    fn clear(&mut self) {
        (**self).clear()
    }

    fn split_off(&mut self, at: usize) -> (r: Self) {
        Box::new((**self).split_off(at))
    }

    fn drain(&mut self, start: usize, end: usize) -> (r: Self) {
        Box::new((**self).drain(start, end))
    }

    fn resize_with<F: Fn() -> V::Elem>(&mut self, new_len: usize, f: F) {
        (**self).resize_with(new_len, f)
    }

    fn retain_from<F: Fn(&V::Elem) -> bool>(&mut self, forced: usize, f: F) {
        (**self).retain_from(forced, f)
    }
}

impl<V: VecLikeDup> VecLikeDup for Box<V> {
    fn duplicate(&self) -> (r: Self) {
        Box::new((**self).duplicate())
    }

    fn resize(&mut self, new_len: usize, value: V::Elem) {
        (**self).resize(new_len, value)
    }
}

impl<V: VecLikeSolid> VecLikeSolid for Box<V> {
    proof fn lemma_solid_units(e: V::Elem) {
        V::lemma_solid_units(e);
    }

    fn swap_remove(&mut self, index: usize) -> (r: V::Elem) {
        (**self).swap_remove(index)
    }

    fn retain<F: Fn(&V::Elem) -> bool>(&mut self, f: F) {
        (**self).retain(f)
    }

    fn retain_mut<F: Fn(&V::Elem) -> bool>(&mut self, f: F) {
        (**self).retain_mut(f)
    }

    fn pop_if<F: Fn(&V::Elem) -> bool>(&mut self, predicate: F) -> (r: Option<V::Elem>) {
        (**self).pop_if(predicate)
    }
}

impl<V: VecLikeAbstract> VecLikeAbstract for Box<V> where V::Elem: Copy {
    fn retain<F: Fn(V::Elem) -> bool>(&mut self, f: F) {
        VecLikeAbstract::retain(&mut **self, f)
    }

    fn elem_indices(&self) -> (r: Vec<(usize, V::Elem)>) {
        (**self).elem_indices()
    }
}

impl<V: VecLikeDup> Slice for Rc<V> {
    type Elem = V::Elem;

    open spec fn elems(&self) -> Seq<V::Elem> {
        (**self).elems()
    }

    open spec fn widths() -> spec_fn(V::Elem) -> nat {
        V::widths()
    }

    open spec fn max_elem_units() -> nat {
        V::max_elem_units()
    }

    proof fn lemma_elem_units(e: V::Elem) {
        V::lemma_elem_units(e);
    }

    fn len(&self) -> (r: usize) {
        (**self).len()
    }

    fn is_empty(&self) -> (r: bool) {
        (**self).is_empty()
    }

    fn transform_index(&self, index: usize) -> (r: usize) {
        (**self).transform_index(index)
    }

    fn is_aligned(&self, index: usize) -> (r: bool) {
        (**self).is_aligned(index)
    }
}

impl<V: VecLikeDup> VecLike for Rc<V> {
    fn empty() -> (r: Self) {
        Rc::new(V::empty())
    }

    fn capacity(&self) -> (r: usize) {
        (**self).capacity()
    }

    fn reserve(&mut self, additional: usize) {
        let mut v = rc_take(self);
        v.reserve(additional);
        rc_put(self, v);
    }

    fn reserve_exact(&mut self, additional: usize) {
        let mut v = rc_take(self);
        v.reserve_exact(additional);
        rc_put(self, v);
    }

    fn shrink_to_fit(&mut self) {
        let mut v = rc_take(self);
        v.shrink_to_fit();
        rc_put(self, v);
    }

    fn shrink_to(&mut self, min_capacity: usize) {
        let mut v = rc_take(self);
        v.shrink_to(min_capacity);
        rc_put(self, v);
    }

    fn push(&mut self, value: V::Elem) {
        let mut v = rc_take(self);
        v.push(value);
        rc_put(self, v);
    }

    fn pop(&mut self) -> (r: Option<V::Elem>) {
        let mut v = rc_take(self);
        let r = v.pop();
        rc_put(self, v);
        r
    }

    fn insert(&mut self, index: usize, element: V::Elem) {
        let mut v = rc_take(self);
        v.insert(index, element);
        rc_put(self, v);
    }

    fn remove(&mut self, index: usize) -> (r: V::Elem) {
        let mut v = rc_take(self);
        let r = v.remove(index);
        rc_put(self, v);
        r
    }

    fn truncate(&mut self, len: usize) {
        let mut v = rc_take(self);
        v.truncate(len);
        rc_put(self, v);
    }

    fn append(&mut self, other: &mut Self) {
        let mut v = rc_take(self);
        let mut ov = rc_take(other);
        v.append(&mut ov);
        rc_put(self, v);
        rc_put(other, ov);
    }

    fn clear(&mut self) {
        rc_put(self, V::empty());
    }

    fn split_off(&mut self, at: usize) -> (r: Self) {
        let mut v = rc_take(self);
        let tail = v.split_off(at);
        rc_put(self, v);
        Rc::new(tail)
    }

    fn drain(&mut self, start: usize, end: usize) -> (r: Self) {
        let mut v = rc_take(self);
        let mid = v.drain(start, end);
        rc_put(self, v);
        Rc::new(mid)
    }

    fn resize_with<F: Fn() -> V::Elem>(&mut self, new_len: usize, f: F) {
        let mut v = rc_take(self);
        v.resize_with(new_len, f);
        rc_put(self, v);
    }

    fn retain_from<F: Fn(&V::Elem) -> bool>(&mut self, forced: usize, f: F) {
        let mut v = rc_take(self);
        v.retain_from(forced, f);
        rc_put(self, v);
    }
}

impl<V: VecLikeDup> VecLikeDup for Rc<V> {
    fn duplicate(&self) -> (r: Self) {
        Rc::new((**self).duplicate())
    }

    fn resize(&mut self, new_len: usize, value: V::Elem) {
        let mut v = rc_take(self);
        v.resize(new_len, value);
        rc_put(self, v);
    }
}

impl<V: VecLikeDup + VecLikeSolid> VecLikeSolid for Rc<V> {
    proof fn lemma_solid_units(e: V::Elem) {
        V::lemma_solid_units(e);
    }

    fn swap_remove(&mut self, index: usize) -> (r: V::Elem) {
        let mut v = rc_take(self);
        let r = v.swap_remove(index);
        rc_put(self, v);
        r
    }

    fn retain<F: Fn(&V::Elem) -> bool>(&mut self, f: F) {
        let mut v = rc_take(self);
        VecLikeSolid::retain(&mut v, f);
        rc_put(self, v);
    }

    fn retain_mut<F: Fn(&V::Elem) -> bool>(&mut self, f: F) {
        let mut v = rc_take(self);
        v.retain_mut(f);
        rc_put(self, v);
    }

    fn pop_if<F: Fn(&V::Elem) -> bool>(&mut self, predicate: F) -> (r: Option<V::Elem>) {
        let mut v = rc_take(self);
        let r = v.pop_if(predicate);
        rc_put(self, v);
        r
    }
}

impl<V: VecLikeDup + VecLikeAbstract> VecLikeAbstract for Rc<V> where V::Elem: Copy {
    fn retain<F: Fn(V::Elem) -> bool>(&mut self, f: F) {
        let mut v = rc_take(self);
        VecLikeAbstract::retain(&mut v, f);
        rc_put(self, v);
    }

    fn elem_indices(&self) -> (r: Vec<(usize, V::Elem)>) {
        (**self).elem_indices()
    }
}

impl<V: VecLikeDup> Slice for Arc<V> {
    type Elem = V::Elem;

    open spec fn elems(&self) -> Seq<V::Elem> {
        (**self).elems()
    }

    open spec fn widths() -> spec_fn(V::Elem) -> nat {
        V::widths()
    }

    open spec fn max_elem_units() -> nat {
        V::max_elem_units()
    }

    proof fn lemma_elem_units(e: V::Elem) {
        V::lemma_elem_units(e);
    }

    fn len(&self) -> (r: usize) {
        (**self).len()
    }

    fn is_empty(&self) -> (r: bool) {
        (**self).is_empty()
    }

    fn transform_index(&self, index: usize) -> (r: usize) {
        (**self).transform_index(index)
    }

    fn is_aligned(&self, index: usize) -> (r: bool) {
        (**self).is_aligned(index)
    }
}

impl<V: VecLikeDup> VecLike for Arc<V> {
    fn empty() -> (r: Self) {
        Arc::new(V::empty())
    }

    fn capacity(&self) -> (r: usize) {
        (**self).capacity()
    }

    fn reserve(&mut self, additional: usize) {
        let mut v = arc_take(self);
        v.reserve(additional);
        arc_put(self, v);
    }

    fn reserve_exact(&mut self, additional: usize) {
        let mut v = arc_take(self);
        v.reserve_exact(additional);
        arc_put(self, v);
    }

    fn shrink_to_fit(&mut self) {
        let mut v = arc_take(self);
        v.shrink_to_fit();
        arc_put(self, v);
    }

    fn shrink_to(&mut self, min_capacity: usize) {
        let mut v = arc_take(self);
        v.shrink_to(min_capacity);
        arc_put(self, v);
    }

    fn push(&mut self, value: V::Elem) {
        let mut v = arc_take(self);
        v.push(value);
        arc_put(self, v);
    }

    fn pop(&mut self) -> (r: Option<V::Elem>) {
        let mut v = arc_take(self);
        let r = v.pop();
        arc_put(self, v);
        r
    }

    fn insert(&mut self, index: usize, element: V::Elem) {
        let mut v = arc_take(self);
        v.insert(index, element);
        arc_put(self, v);
    }

    fn remove(&mut self, index: usize) -> (r: V::Elem) {
        let mut v = arc_take(self);
        let r = v.remove(index);
        arc_put(self, v);
        r
    }

    fn truncate(&mut self, len: usize) {
        let mut v = arc_take(self);
        v.truncate(len);
        arc_put(self, v);
    }

    fn append(&mut self, other: &mut Self) {
        let mut v = arc_take(self);
        let mut ov = arc_take(other);
        v.append(&mut ov);
        arc_put(self, v);
        arc_put(other, ov);
    }

    fn clear(&mut self) {
        arc_put(self, V::empty());
    }

    fn split_off(&mut self, at: usize) -> (r: Self) {
        let mut v = arc_take(self);
        let tail = v.split_off(at);
        arc_put(self, v);
        Arc::new(tail)
    }

    fn drain(&mut self, start: usize, end: usize) -> (r: Self) {
        let mut v = arc_take(self);
        let mid = v.drain(start, end);
        arc_put(self, v);
        Arc::new(mid)
    }

    fn resize_with<F: Fn() -> V::Elem>(&mut self, new_len: usize, f: F) {
        let mut v = arc_take(self);
        v.resize_with(new_len, f);
        arc_put(self, v);
    }

    fn retain_from<F: Fn(&V::Elem) -> bool>(&mut self, forced: usize, f: F) {
        let mut v = arc_take(self);
        v.retain_from(forced, f);
        arc_put(self, v);
    }
}

impl<V: VecLikeDup> VecLikeDup for Arc<V> {
    fn duplicate(&self) -> (r: Self) {
        Arc::new((**self).duplicate())
    }

    fn resize(&mut self, new_len: usize, value: V::Elem) {
        let mut v = arc_take(self);
        v.resize(new_len, value);
        arc_put(self, v);
    }
}

impl<V: VecLikeDup + VecLikeSolid> VecLikeSolid for Arc<V> {
    proof fn lemma_solid_units(e: V::Elem) {
        V::lemma_solid_units(e);
    }

    fn swap_remove(&mut self, index: usize) -> (r: V::Elem) {
        let mut v = arc_take(self);
        let r = v.swap_remove(index);
        arc_put(self, v);
        r
    }

    fn retain<F: Fn(&V::Elem) -> bool>(&mut self, f: F) {
        let mut v = arc_take(self);
        VecLikeSolid::retain(&mut v, f);
        arc_put(self, v);
    }

    fn retain_mut<F: Fn(&V::Elem) -> bool>(&mut self, f: F) {
        let mut v = arc_take(self);
        v.retain_mut(f);
        arc_put(self, v);
    }

    fn pop_if<F: Fn(&V::Elem) -> bool>(&mut self, predicate: F) -> (r: Option<V::Elem>) {
        let mut v = arc_take(self);
        let r = v.pop_if(predicate);
        arc_put(self, v);
        r
    }
}

impl<V: VecLikeDup + VecLikeAbstract> VecLikeAbstract for Arc<V> where V::Elem: Copy {
    fn retain<F: Fn(V::Elem) -> bool>(&mut self, f: F) {
        let mut v = arc_take(self);
        VecLikeAbstract::retain(&mut v, f);
        arc_put(self, v);
    }

    fn elem_indices(&self) -> (r: Vec<(usize, V::Elem)>) {
        (**self).elem_indices()
    }
}

} // verus!
