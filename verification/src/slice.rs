//! The slice capability: the minimal, read-only contract every adaptable
//! container satisfies, together with the unit arithmetic that relates a
//! container's native indices (elements for arrays, bytes for text) to its
//! logical elements.

use vstd::prelude::*;

verus! {

/// Total native width of a sequence of elements, under the width function `w`.
pub open spec fn units_of<E>(s: Seq<E>, w: spec_fn(E) -> nat) -> nat
    decreases s.len(),
{
    if s.len() == 0 {
        0
    } else {
        (w(s[0]) + units_of(s.drop_first(), w)) as nat
    }
}

/// Number of elements that fit wholly within the first `u` native units.
pub open spec fn count_to<E>(s: Seq<E>, w: spec_fn(E) -> nat, u: int) -> int
    decreases s.len(),
{
    if s.len() == 0 {
        0
    } else if w(s[0]) <= u {
        1 + count_to(s.drop_first(), w, u - w(s[0]))
    } else {
        0
    }
}

/// `u` lies on an element boundary of `s`, at or before its end.
pub open spec fn aligned<E>(s: Seq<E>, w: spec_fn(E) -> nat, u: int) -> bool {
    &&& 0 <= u <= units_of(s, w)
    &&& units_of(s.take(count_to(s, w, u)), w) == u
}

/// Minimal capability of a borrowed contiguous range: logical elements, the
/// native width of each element, the length in native units, and translation
/// of native indices into logical element counts.
///
/// For an element array every element is one unit wide, so translation is the
/// identity.  For a UTF-8 text buffer an element (a codepoint) is one to four
/// units (bytes) wide, and translation counts whole codepoints preceding a
/// byte index.
pub trait Slice: Sized {
    type Elem;

    /// The logical elements held, in order.
    spec fn elems(&self) -> Seq<Self::Elem>;

    /// Native width of one element.
    spec fn widths() -> spec_fn(Self::Elem) -> nat;

    /// Largest native width an element of this container kind can have.
    spec fn max_elem_units() -> nat;

    /// Every element is at least one unit wide and at most `max_elem_units`.
    proof fn lemma_elem_units(e: Self::Elem)
        ensures
            1 <= Self::widths()(e) <= Self::max_elem_units(),
    ;

    /// Length in native units.
    fn len(&self) -> (r: usize)
        ensures
            r == units_of(self.elems(), Self::widths()),
    ;

    /// `self.len() == 0`
    fn is_empty(&self) -> (r: bool)
        ensures
            r == (self.elems().len() == 0),
    ;

    /// Count of whole elements preceding the native index `index`.
    fn transform_index(&self, index: usize) -> (r: usize)
        requires
            aligned(self.elems(), Self::widths(), index as int),
        ensures
            r == count_to(self.elems(), Self::widths(), index as int),
    ;

    /// Whether `index` lies on an element boundary, at or before the end.
    fn is_aligned(&self, index: usize) -> (r: bool)
        ensures
            r == aligned(self.elems(), Self::widths(), index as int),
    ;
}

/// All elements of this container kind have positive, bounded width.
pub proof fn lemma_widths_positive<V: Slice>()
    ensures
        forall|e: V::Elem| 1 <= #[trigger] V::widths()(e) <= V::max_elem_units(),
{
    assert forall|e: V::Elem| 1 <= #[trigger] V::widths()(e) <= V::max_elem_units() by {
        V::lemma_elem_units(e);
    }
}

/// Unit widths add over concatenation.
pub proof fn lemma_units_of_concat<E>(a: Seq<E>, b: Seq<E>, w: spec_fn(E) -> nat)
    ensures
        units_of(a + b, w) == units_of(a, w) + units_of(b, w),
    decreases a.len(),
{
    if a.len() == 0 {
        assert(a + b =~= b);
    } else {
        assert((a + b).drop_first() =~= a.drop_first() + b);
        lemma_units_of_concat(a.drop_first(), b, w);
    }
}

/// A sequence is at least as many units wide as it has elements.
pub proof fn lemma_units_of_lower<E>(s: Seq<E>, w: spec_fn(E) -> nat)
    requires
        forall|e: E| 1 <= #[trigger] w(e),
    ensures
        units_of(s, w) >= s.len(),
    decreases s.len(),
{
    if s.len() > 0 {
        lemma_units_of_lower(s.drop_first(), w);
    }
}

/// Widths of prefixes grow strictly with the element count.
pub proof fn lemma_units_of_take<E>(s: Seq<E>, w: spec_fn(E) -> nat, i: int, j: int)
    requires
        forall|e: E| 1 <= #[trigger] w(e),
        0 <= i <= j <= s.len(),
    ensures
        units_of(s.take(j), w) == units_of(s.take(i), w) + units_of(s.subrange(i, j), w),
        units_of(s.take(i), w) + (j - i) <= units_of(s.take(j), w),
{
    assert(s.take(j) =~= s.take(i) + s.subrange(i, j));
    lemma_units_of_concat(s.take(i), s.subrange(i, j), w);
    lemma_units_of_lower(s.subrange(i, j), w);
}

/// `count_to` picks the largest element count whose width does not pass `u`.
pub proof fn lemma_count_to_props<E>(s: Seq<E>, w: spec_fn(E) -> nat, u: int)
    requires
        forall|e: E| 1 <= #[trigger] w(e),
        u >= 0,
    ensures
        0 <= count_to(s, w, u) <= s.len(),
        count_to(s, w, u) <= u,
        units_of(s.take(count_to(s, w, u)), w) <= u,
        count_to(s, w, u) < s.len() ==> u < units_of(s.take(count_to(s, w, u) + 1), w),
    decreases s.len(),
{
    if s.len() == 0 {
    } else {
        let wd = w(s[0]) as int;
        if wd <= u {
            lemma_count_to_props(s.drop_first(), w, u - wd);
            let c = count_to(s.drop_first(), w, u - wd);
            assert(s.take(1 + c).drop_first() =~= s.drop_first().take(c));
            assert(s.take(1 + c)[0] == s[0]);
            if 1 + c < s.len() {
                assert(s.take(1 + c + 1).drop_first() =~= s.drop_first().take(c + 1));
                assert(s.take(1 + c + 1)[0] == s[0]);
            }
        } else {
            assert(s.take(0) =~= Seq::<E>::empty());
        }
    }
}

/// On a boundary, `count_to` inverts prefix width exactly.
pub proof fn lemma_count_to_of_prefix<E>(s: Seq<E>, w: spec_fn(E) -> nat, k: int)
    requires
        forall|e: E| 1 <= #[trigger] w(e),
        0 <= k <= s.len(),
    ensures
        count_to(s, w, units_of(s.take(k), w) as int) == k,
        aligned(s, w, units_of(s.take(k), w) as int),
    decreases k,
{
    let u = units_of(s.take(k), w) as int;
    lemma_units_of_take(s, w, k, s.len() as int);
    assert(s.take(s.len() as int) =~= s);
    if k == 0 {
        assert(s.take(0) =~= Seq::<E>::empty());
    } else {
        assert(s.take(k)[0] == s[0]);
        let wd = w(s[0]) as int;
        assert(s.take(k).drop_first() =~= s.drop_first().take(k - 1));
        assert(units_of(s.take(k), w) == wd + units_of(s.drop_first().take(k - 1), w));
        lemma_count_to_of_prefix(s.drop_first(), w, k - 1);
        assert(count_to(s, w, u) == 1 + count_to(s.drop_first(), w, u - wd));
        assert(s.take(1 + (k - 1)).drop_first() =~= s.drop_first().take(k - 1));
        assert(s.take(1 + (k - 1))[0] == s[0]);
    }
}

/// One more element extends a prefix by exactly that element's width.
pub proof fn lemma_units_of_take_succ<E>(s: Seq<E>, w: spec_fn(E) -> nat, i: int)
    requires
        0 <= i < s.len(),
    ensures
        units_of(s.take(i + 1), w) == units_of(s.take(i), w) + w(s[i]),
{
    assert(s.take(i + 1) =~= s.take(i) + s.subrange(i, i + 1));
    lemma_units_of_concat(s.take(i), s.subrange(i, i + 1), w);
    assert(s.subrange(i, i + 1).drop_first() =~= Seq::<E>::empty());
    assert(s.subrange(i, i + 1)[0] == s[i]);
    assert(units_of(Seq::<E>::empty(), w) == 0);
    assert(units_of(s.subrange(i, i + 1), w) == w(s[i]));
}

/// One element more is one width more.
pub proof fn lemma_units_of_push<E>(s: Seq<E>, w: spec_fn(E) -> nat, x: E)
    ensures
        units_of(s.push(x), w) == units_of(s, w) + w(x),
{
    assert(s.push(x) =~= s + seq![x]);
    lemma_units_of_concat(s, seq![x], w);
    assert(seq![x].drop_first() =~= Seq::<E>::empty());
    assert(units_of(Seq::<E>::empty(), w) == 0);
    assert(units_of(seq![x], w) == w(x));
}

/// Inserting an element adds its width.
pub proof fn lemma_units_of_insert<E>(s: Seq<E>, w: spec_fn(E) -> nat, i: int, x: E)
    requires
        0 <= i <= s.len(),
    ensures
        units_of(s.insert(i, x), w) == units_of(s, w) + w(x),
{
    assert(s.insert(i, x) =~= s.take(i) + (seq![x] + s.skip(i)));
    assert(s =~= s.take(i) + s.skip(i));
    lemma_units_of_concat(s.take(i), seq![x] + s.skip(i), w);
    lemma_units_of_concat(seq![x], s.skip(i), w);
    lemma_units_of_concat(s.take(i), s.skip(i), w);
    assert(seq![x].drop_first() =~= Seq::<E>::empty());
    assert(units_of(Seq::<E>::empty(), w) == 0);
    assert(units_of(seq![x], w) == w(x));
}

/// Removing an element subtracts its width.
pub proof fn lemma_units_of_remove<E>(s: Seq<E>, w: spec_fn(E) -> nat, i: int)
    requires
        0 <= i < s.len(),
    ensures
        units_of(s.remove(i), w) + w(s[i]) == units_of(s, w),
{
    assert(s.remove(i) =~= s.take(i) + s.skip(i + 1));
    assert(s =~= s.take(i) + (s.subrange(i, i + 1) + s.skip(i + 1)));
    lemma_units_of_concat(s.take(i), s.skip(i + 1), w);
    lemma_units_of_concat(s.take(i), s.subrange(i, i + 1) + s.skip(i + 1), w);
    lemma_units_of_concat(s.subrange(i, i + 1), s.skip(i + 1), w);
    assert(s.subrange(i, i + 1).drop_first() =~= Seq::<E>::empty());
    assert(s.subrange(i, i + 1)[0] == s[i]);
    assert(units_of(Seq::<E>::empty(), w) == 0);
    assert(units_of(s.subrange(i, i + 1), w) == w(s[i]));
}

/// `count_to` never returns a negative count.
pub proof fn lemma_count_to_nonneg<E>(s: Seq<E>, w: spec_fn(E) -> nat, u: int)
    ensures
        count_to(s, w, u) >= 0,
    decreases s.len(),
{
    if s.len() > 0 && w(s[0]) <= u {
        lemma_count_to_nonneg(s.drop_first(), w, u - w(s[0]));
    }
}

/// Wider prefixes hold at least as many whole elements.
pub proof fn lemma_count_to_monotone<E>(s: Seq<E>, w: spec_fn(E) -> nat, u1: int, u2: int)
    requires
        u1 <= u2,
    ensures
        count_to(s, w, u1) <= count_to(s, w, u2),
    decreases s.len(),
{
    if s.len() > 0 {
        if w(s[0]) <= u1 {
            lemma_count_to_monotone(s.drop_first(), w, u1 - w(s[0]), u2 - w(s[0]));
        } else {
            lemma_count_to_nonneg(s, w, u2);
        }
    }
}

/// With every element one unit wide, width is element count.
pub proof fn lemma_units_of_ones<E>(s: Seq<E>, w: spec_fn(E) -> nat)
    requires
        forall|e: E| #[trigger] w(e) == 1,
    ensures
        units_of(s, w) == s.len(),
    decreases s.len(),
{
    if s.len() > 0 {
        lemma_units_of_ones(s.drop_first(), w);
    }
}

/// With every element one unit wide, `count_to` clamps `u` to the length.
pub proof fn lemma_count_to_ones<E>(s: Seq<E>, w: spec_fn(E) -> nat, u: int)
    requires
        forall|e: E| #[trigger] w(e) == 1,
        u >= 0,
    ensures
        count_to(s, w, u) == if u <= s.len() {
            u
        } else {
            s.len() as int
        },
    decreases s.len(),
{
    if s.len() > 0 && w(s[0]) <= u {
        lemma_count_to_ones(s.drop_first(), w, u - 1);
    }
}

/// With every element one unit wide, the boundaries are all `0 <= u <= len`.
pub proof fn lemma_aligned_ones<E>(s: Seq<E>, w: spec_fn(E) -> nat, u: int)
    requires
        forall|e: E| #[trigger] w(e) == 1,
    ensures
        aligned(s, w, u) <==> 0 <= u <= s.len(),
{
    lemma_units_of_ones(s, w);
    if 0 <= u <= s.len() {
        lemma_count_to_ones(s, w, u);
        lemma_units_of_ones(s.take(u), w);
    }
}

/// `count_to` and alignment depend only on a prefix that is wide enough.
pub proof fn lemma_count_to_prefix_only<E>(
    s: Seq<E>,
    t: Seq<E>,
    w: spec_fn(E) -> nat,
    m: int,
    u: int,
)
    requires
        forall|e: E| 1 <= #[trigger] w(e),
        0 <= m <= s.len(),
        m <= t.len(),
        s.take(m) == t.take(m),
        0 <= u <= units_of(s.take(m), w),
    ensures
        count_to(s, w, u) == count_to(t, w, u),
        count_to(s, w, u) <= m,
        units_of(s.take(count_to(s, w, u)), w) == units_of(t.take(count_to(t, w, u)), w),
    decreases m,
{
    if m == 0 {
        assert(s.take(0) =~= Seq::<E>::empty());
    } else {
        assert(s.take(m)[0] == s[0]);
        assert(t.take(m)[0] == t[0]);
        assert(s[0] == t[0]);
        let wd = w(s[0]) as int;
        assert(s.take(m).drop_first() =~= s.drop_first().take(m - 1));
        assert(t.take(m).drop_first() =~= t.drop_first().take(m - 1));
        if wd <= u {
            lemma_count_to_prefix_only(s.drop_first(), t.drop_first(), w, m - 1, u - wd);
            lemma_count_to_props(s.drop_first(), w, u - wd);
            lemma_count_to_props(t.drop_first(), w, u - wd);
            let c = count_to(s.drop_first(), w, u - wd);
            assert(s.take(1 + c).drop_first() =~= s.drop_first().take(c));
            assert(t.take(1 + c).drop_first() =~= t.drop_first().take(c));
            assert(s.take(1 + c)[0] == s[0]);
            assert(t.take(1 + c)[0] == t[0]);
        } else {
            assert(s.take(0) =~= Seq::<E>::empty());
            assert(t.take(0) =~= Seq::<E>::empty());
        }
    }
}

} // verus!
