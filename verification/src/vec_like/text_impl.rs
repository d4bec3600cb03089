//! The text buffer: a growable sequence of codepoints addressed, as UTF-8
//! text is, by byte offsets.  An element (a `char`) is one to four native
//! units (bytes) wide, so native indices must land on codepoint boundaries
//! and index translation counts whole codepoints.

use vstd::prelude::*;

use crate::slice::Slice;
use crate::slice::aligned;
use crate::slice::count_to;
use crate::slice::lemma_count_to_monotone;
use crate::slice::lemma_count_to_of_prefix;
use crate::slice::lemma_count_to_props;
use crate::slice::lemma_units_of_concat;
use crate::slice::lemma_units_of_lower;
use crate::slice::lemma_units_of_push;
use crate::slice::lemma_units_of_remove;
use crate::slice::lemma_units_of_insert;
use crate::slice::lemma_units_of_take;
use crate::slice::lemma_units_of_take_succ;
use crate::slice::units_of;
use crate::vec_like::VecLike;
use crate::vec_like::VecLikeAbstract;
use crate::vec_like::VecLikeDup;
use crate::vec_like::can_test_val;
use crate::vec_like::lemma_mask_seq_push;
use crate::vec_like::lemma_units_of_mask;
use crate::vec_like::mask_seq;
use crate::vec_like::retain_rel_val;

verus! {

/// The UTF-8 byte width of one codepoint.
pub open spec fn char_width(c: char) -> nat {
    if (c as u32) < 0x80 {
        1
    } else if (c as u32) < 0x800 {
        2
    } else if (c as u32) < 0x10000 {
        3
    } else {
        4
    }
}

/// The UTF-8 byte width of one codepoint.
pub fn char_units(c: char) -> (r: usize)
    ensures
        r == char_width(c),
{
    let v = c as u32;
    if v < 0x80 {
        1
    } else if v < 0x800 {
        2
    } else if v < 0x10000 {
        3
    } else {
        4
    }
}

/// The width function of text: one to four bytes per codepoint.
pub proof fn lemma_text_widths()
    ensures
        forall|c: char| #[trigger] (<TextBuf as Slice>::widths())(c) == char_width(c),
        forall|c: char| 1 <= #[trigger] (<TextBuf as Slice>::widths())(c) <= 4,
{
}

/// An owned, growable UTF-8 text buffer, held as its decoded codepoints
/// beside the byte length of their encoding.
pub struct TextBuf {
    chars: Vec<char>,
    units: usize,
}

impl TextBuf {
    /// The byte length always matches the codepoints held.
    #[verifier::type_invariant]
    spec fn inv(self) -> bool {
        self.units == units_of(self.chars@, <TextBuf as Slice>::widths())
    }

    /// Builds a text buffer from its codepoints.
    pub fn from_chars(chars: Vec<char>) -> (r: TextBuf)
        requires
            units_of(chars@, <TextBuf as Slice>::widths()) <= usize::MAX,
        ensures
            r.elems() == chars@,
    {
        let ghost w = <TextBuf as Slice>::widths();
        proof {
            lemma_text_widths();
        }
        let n: usize = chars.len();
        let mut u: usize = 0;
        let mut i: usize = 0;
        while i < n
            invariant
                i <= n,
                n == chars@.len(),
                u == units_of(chars@.take(i as int), w),
                units_of(chars@, w) <= usize::MAX,
                w == <TextBuf as Slice>::widths(),
                forall|c: char| #[trigger] w(c) == char_width(c),
            decreases n - i,
        {
            let cw = char_units(chars[i]);
            proof {
                crate::slice::lemma_units_of_take_succ(chars@, w, i as int);
                lemma_units_of_take(chars@, w, i + 1 as int, n as int);
                assert(chars@.take(n as int) =~= chars@);
            }
            u = u + cw;
            i += 1;
        }
        proof {
            assert(chars@.take(n as int) =~= chars@);
        }
        TextBuf { chars, units: u }
    }

    /// The codepoints held, in order.
    pub fn chars(&self) -> (r: &Vec<char>)
        ensures
            r@ == self.elems(),
    {
        &self.chars
    }

    /// Moves the buffer out, leaving an empty one, so that the parts can be
    /// edited and a rebuilt buffer swapped back in.
    fn take_buf(&mut self) -> (r: TextBuf)
        ensures
            r == *old(self),
            final(self).elems() == Seq::<char>::empty(),
    {
        let mut tmp = TextBuf { chars: Vec::new(), units: 0 };
        core::mem::swap(self, &mut tmp);
        tmp
    }
}

impl Slice for TextBuf {
    type Elem = char;

    closed spec fn elems(&self) -> Seq<char> {
        self.chars@
    }

    open spec fn widths() -> spec_fn(char) -> nat {
        |c: char| char_width(c)
    }

    open spec fn max_elem_units() -> nat {
        4
    }

    proof fn lemma_elem_units(e: char) {
    }

    fn len(&self) -> (r: usize) {
        proof {
            use_type_invariant(&*self);
        }
        self.units
    }

    fn is_empty(&self) -> (r: bool) {
        proof {
            use_type_invariant(&*self);
            lemma_text_widths();
            lemma_units_of_lower(self.chars@, Self::widths());
        }
        self.units == 0
    }

    fn transform_index(&self, index: usize) -> (r: usize) {
        proof {
            use_type_invariant(&*self);
            lemma_text_widths();
        }
        let ghost w = Self::widths();
        let ghost s = self.chars@;
        let n: usize = self.chars.len();
        let mut i: usize = 0;
        let mut u: usize = 0;
        while u < index
            invariant
                n == self.chars@.len(),
                i <= n,
                u == units_of(self.chars@.take(i as int), w),
                u <= index,
                aligned(self.chars@, w, index as int),
                self.units == units_of(self.chars@, w),
                index <= self.units,
                w == <TextBuf as Slice>::widths(),
                forall|c: char| #[trigger] w(c) == char_width(c),
                s == self.chars@,
            decreases self.chars@.len() - i,
        {
            proof {
                assert(s.take(s.len() as int) =~= s);
                if i as int == s.len() {
                    assert(u == units_of(s, w));
                    assert(false);
                }
            }
            let cw = char_units(self.chars[i]);
            proof {
                crate::slice::lemma_units_of_take_succ(s, w, i as int);
                // the target is a boundary, so the next codepoint never
                // steps past it
                let k = count_to(s, w, index as int);
                crate::slice::lemma_count_to_props(s, w, index as int);
                if u + cw > index {
                    if k <= i {
                        lemma_units_of_take(s, w, k, i as int);
                        assert(false);
                    }
                    lemma_units_of_take(s, w, i + 1 as int, k);
                    assert(false);
                }
            }
            u = u + cw;
            i += 1;
        }
        proof {
            assert(u == index);
            lemma_count_to_of_prefix(s, w, i as int);
        }
        i
    }

    fn is_aligned(&self, index: usize) -> (r: bool) {
        proof {
            use_type_invariant(&*self);
            lemma_text_widths();
        }
        let ghost w = Self::widths();
        let ghost s = self.chars@;
        let n: usize = self.chars.len();
        if index > self.units {
            return false;
        }
        let mut i: usize = 0;
        let mut u: usize = 0;
        while u < index
            invariant
                n == self.chars@.len(),
                i <= n,
                u == units_of(self.chars@.take(i as int), w),
                u <= index,
                self.units == units_of(self.chars@, w),
                index <= self.units,
                w == <TextBuf as Slice>::widths(),
                forall|c: char| #[trigger] w(c) == char_width(c),
                s == self.chars@,
            decreases self.chars@.len() - i,
        {
            proof {
                assert(s.take(s.len() as int) =~= s);
                if i as int == s.len() {
                    assert(false);
                }
            }
            let cw = char_units(self.chars[i]);
            proof {
                crate::slice::lemma_units_of_take_succ(s, w, i as int);
                lemma_units_of_take(s, w, i + 1 as int, s.len() as int);
                assert(s.take(s.len() as int) =~= s);
            }
            let nu = u + cw;
            if nu > index {
                proof {
                    // the scan stepped over `index`: no codepoint starts there
                    if aligned(s, w, index as int) {
                        let k = count_to(s, w, index as int);
                        crate::slice::lemma_count_to_props(s, w, index as int);
                        if k <= i {
                            lemma_units_of_take(s, w, k, i as int);
                            assert(false);
                        }
                        lemma_units_of_take(s, w, i + 1 as int, k);
                        assert(false);
                    }
                }
                return false;
            }
            u = nu;
            i += 1;
        }
        proof {
            assert(u == index);
            lemma_count_to_of_prefix(s, w, i as int);
        }
        true
    }
}

impl VecLike for TextBuf {
    fn empty() -> (r: Self) {
        TextBuf { chars: Vec::new(), units: 0 }
    }

    fn capacity(&self) -> (r: usize) {
        proof {
            use_type_invariant(&*self);
        }
        self.units
    }

    fn reserve(&mut self, additional: usize) {
    }

    fn reserve_exact(&mut self, additional: usize) {
    }

    fn shrink_to_fit(&mut self) {
    }

    fn shrink_to(&mut self, min_capacity: usize) {
    }

    fn push(&mut self, value: char) {
        proof {
            use_type_invariant(&*self);
            lemma_text_widths();
        }
        let cw = char_units(value);
        let b = self.take_buf();
        proof {
            use_type_invariant(&b);
        }
        let TextBuf { chars: mut chars, units } = b;
        chars.push(value);
        proof {
            lemma_units_of_push(old(self).elems(), Self::widths(), value);
        }
        *self = TextBuf { chars, units: units + cw };
    }

    fn pop(&mut self) -> (r: Option<char>) {
        proof {
            use_type_invariant(&*self);
            lemma_text_widths();
        }
        let b = self.take_buf();
        proof {
            use_type_invariant(&b);
        }
        let TextBuf { chars: mut chars, units } = b;
        let r = chars.pop();
        match r {
            None => {
                *self = TextBuf { chars, units };
                None
            },
            Some(c) => {
                let cw = char_units(c);
                proof {
                    let s = old(self).elems();
                    assert(s =~= s.drop_last().push(s.last()));
                    lemma_units_of_push(s.drop_last(), Self::widths(), s.last());
                    assert(chars@ =~= s.drop_last());
                }
                *self = TextBuf { chars, units: units - cw };
                Some(c)
            },
        }
    }

    fn insert(&mut self, index: usize, element: char) {
        proof {
            use_type_invariant(&*self);
            lemma_text_widths();
        }
        let pos = self.transform_index(index);
        proof {
            lemma_count_to_props(self.elems(), Self::widths(), index as int);
        }
        let cw = char_units(element);
        let b = self.take_buf();
        proof {
            use_type_invariant(&b);
        }
        let TextBuf { chars: mut chars, units } = b;
        chars.insert(pos, element);
        proof {
            lemma_units_of_insert(old(self).elems(), Self::widths(), pos as int, element);
        }
        *self = TextBuf { chars, units: units + cw };
    }

    fn remove(&mut self, index: usize) -> (r: char) {
        proof {
            use_type_invariant(&*self);
            lemma_text_widths();
        }
        let pos = self.transform_index(index);
        proof {
            let s = self.elems();
            let w = Self::widths();
            lemma_count_to_props(s, w, index as int);
            assert(s.take(s.len() as int) =~= s);
            if pos as int == s.len() {
                assert(units_of(s.take(pos as int), w) == index);
                assert(false);
            }
        }
        let b = self.take_buf();
        proof {
            use_type_invariant(&b);
        }
        let TextBuf { chars: mut chars, units } = b;
        let c = chars.remove(pos);
        let cw = char_units(c);
        proof {
            lemma_units_of_remove(old(self).elems(), Self::widths(), pos as int);
        }
        *self = TextBuf { chars, units: units - cw };
        c
    }

    fn truncate(&mut self, len: usize) {
        proof {
            use_type_invariant(&*self);
            lemma_text_widths();
        }
        if len >= self.units {
            return ;
        }
        let pos = self.transform_index(len);
        proof {
            lemma_count_to_props(self.elems(), Self::widths(), len as int);
        }
        let b = self.take_buf();
        proof {
            use_type_invariant(&b);
        }
        let TextBuf { chars: mut chars, units } = b;
        chars.truncate(pos);
        proof {
            assert(chars@ =~= old(self).elems().take(pos as int));
        }
        *self = TextBuf { chars, units: len };
    }

    fn append(&mut self, other: &mut Self) {
        proof {
            use_type_invariant(&*self);
            use_type_invariant(&*other);
            lemma_text_widths();
        }
        let ob = other.take_buf();
        proof {
            use_type_invariant(&ob);
        }
        let TextBuf { chars: mut ochars, units: ounits } = ob;
        let b = self.take_buf();
        proof {
            use_type_invariant(&b);
        }
        let TextBuf { chars: mut chars, units } = b;
        chars.append(&mut ochars);
        proof {
            lemma_units_of_concat(old(self).elems(), old(other).elems(), Self::widths());
        }
        *self = TextBuf { chars, units: units + ounits };
    }

    fn clear(&mut self) {
        *self = TextBuf { chars: Vec::new(), units: 0 };
    }

    fn split_off(&mut self, at: usize) -> (r: Self) {
        proof {
            use_type_invariant(&*self);
            lemma_text_widths();
        }
        let pos = self.transform_index(at);
        proof {
            lemma_count_to_props(self.elems(), Self::widths(), at as int);
        }
        let b = self.take_buf();
        proof {
            use_type_invariant(&b);
        }
        let TextBuf { chars: mut chars, units } = b;
        let tail = chars.split_off(pos);
        proof {
            let s = old(self).elems();
            let w = Self::widths();
            assert(chars@ =~= s.take(pos as int));
            assert(tail@ =~= s.skip(pos as int));
            assert(s =~= s.take(pos as int) + s.skip(pos as int));
            lemma_units_of_concat(s.take(pos as int), s.skip(pos as int), w);
        }
        *self = TextBuf { chars, units: at };
        TextBuf { chars: tail, units: units - at }
    }

    fn drain(&mut self, start: usize, end: usize) -> (r: Self) {
        proof {
            use_type_invariant(&*self);
            lemma_text_widths();
        }
        let p1 = self.transform_index(start);
        let p2 = self.transform_index(end);
        proof {
            let s = self.elems();
            let w = Self::widths();
            lemma_count_to_monotone(s, w, start as int, end as int);
            lemma_count_to_props(s, w, start as int);
            lemma_count_to_props(s, w, end as int);
        }
        let b = self.take_buf();
        proof {
            use_type_invariant(&b);
        }
        let TextBuf { chars: mut chars, units } = b;
        let mut tail = chars.split_off(p2);
        let mid = chars.split_off(p1);
        proof {
            let s = old(self).elems();
            let w = Self::widths();
            assert(mid@ =~= s.subrange(p1 as int, p2 as int));
            assert(chars@ =~= s.take(p1 as int));
            assert(tail@ =~= s.skip(p2 as int));
            assert(s =~= s.take(p2 as int) + s.skip(p2 as int));
            lemma_units_of_concat(s.take(p2 as int), s.skip(p2 as int), w);
            lemma_units_of_take(s, w, p1 as int, p2 as int);
            lemma_units_of_concat(s.take(p1 as int), s.skip(p2 as int), w);
        }
        chars.append(&mut tail);
        *self = TextBuf { chars, units: start + (units - end) };
        TextBuf { chars: mid, units: end - start }
    }

    fn resize_with<F: Fn() -> char>(&mut self, new_len: usize, f: F) {
        proof {
            use_type_invariant(&*self);
            lemma_text_widths();
        }
        if new_len <= self.units {
            self.truncate(new_len);
            proof {
                let s = old(self).elems();
                let w = Self::widths();
                if new_len as int == units_of(s, w) {
                    lemma_count_to_of_prefix(s, w, s.len() as int);
                    assert(s.take(s.len() as int) =~= s);
                }
            }
        } else {
            let count: usize = new_len - self.units;
            let ghost orig = self.elems();
            let ghost w = Self::widths();
            let ghost mut app: Seq<char> = Seq::empty();
            let mut k: usize = 0;
            while k < count
                invariant
                    k <= count,
                    self.elems() == orig + app,
                    app.len() == k,
                    call_requires(f, ()),
                    forall|p: int| 0 <= p < app.len() ==> call_ensures(f, (), #[trigger] app[p]),
                    units_of(self.elems(), w) <= units_of(orig, w) + 4 * k,
                    units_of(orig, w) + 4 * count <= usize::MAX,
                    w == <TextBuf as Slice>::widths(),
                    forall|c: char| #[trigger] w(c) == char_width(c),
                decreases count - k,
            {
                let e = f();
                proof {
                    lemma_units_of_push(self.elems(), w, e);
                    app = app.push(e);
                }
                self.push(e);
                k += 1;
            }
        }
    }

    fn retain_from<F: Fn(&char) -> bool>(&mut self, forced: usize, f: F) {
        proof {
            use_type_invariant(&*self);
            lemma_text_widths();
        }
        let b = self.take_buf();
        proof {
            use_type_invariant(&b);
        }
        let TextBuf { chars: mut chars, units } = b;
        VecLike::retain_from(&mut chars, forced, f);
        proof {
            let s = old(self).elems();
            let w = Self::widths();
            let keep = choose|keep: Seq<bool>|
                keep.len() == s.skip(forced as int).len() && chars@.skip(forced as int)
                    == mask_seq(s.skip(forced as int), keep) && (forall|i: int|
                    0 <= i < s.skip(forced as int).len() ==> call_ensures(
                        f,
                        (&s.skip(forced as int)[i],),
                        #[trigger] keep[i],
                    ));
            lemma_units_of_mask(s.skip(forced as int), keep, w);
            assert(chars@ =~= chars@.take(forced as int) + chars@.skip(forced as int));
            assert(s =~= s.take(forced as int) + s.skip(forced as int));
            lemma_units_of_concat(chars@.take(forced as int), chars@.skip(forced as int), w);
            lemma_units_of_concat(s.take(forced as int), s.skip(forced as int), w);
        }
        *self = TextBuf::from_chars(chars);
    }
}

impl VecLikeDup for TextBuf {
    fn duplicate(&self) -> (r: Self) {
        proof {
            use_type_invariant(&*self);
        }
        let chars2 = VecLikeDup::duplicate(&self.chars);
        TextBuf { chars: chars2, units: self.units }
    }

    fn resize(&mut self, new_len: usize, value: char) {
        proof {
            use_type_invariant(&*self);
            lemma_text_widths();
        }
        if new_len <= self.units {
            self.truncate(new_len);
            proof {
                let s = old(self).elems();
                let w = Self::widths();
                if new_len as int == units_of(s, w) {
                    lemma_count_to_of_prefix(s, w, s.len() as int);
                    assert(s.take(s.len() as int) =~= s);
                }
            }
        } else {
            let count: usize = new_len - self.units;
            let ghost orig = self.elems();
            let ghost w = Self::widths();
            let mut k: usize = 0;
            while k < count
                invariant
                    k <= count,
                    self.elems() == orig + Seq::new(k as nat, |p: int| value),
                    units_of(self.elems(), w) <= units_of(orig, w) + 4 * k,
                    units_of(orig, w) + 4 * count <= usize::MAX,
                    w == <TextBuf as Slice>::widths(),
                    forall|c: char| #[trigger] w(c) == char_width(c),
                decreases count - k,
            {
                proof {
                    lemma_units_of_push(self.elems(), w, value);
                }
                self.push(value);
                proof {
                    assert(self.elems() =~= orig + Seq::new((k + 1) as nat, |p: int| value));
                }
                k += 1;
            }
        }
    }
}

impl VecLikeAbstract for TextBuf {
    fn retain<F: Fn(char) -> bool>(&mut self, f: F) {
        proof {
            use_type_invariant(&*self);
            lemma_text_widths();
        }
        let b = self.take_buf();
        proof {
            use_type_invariant(&b);
        }
        let TextBuf { chars, units } = b;
        let ghost s = chars@;
        let ghost w = <TextBuf as Slice>::widths();
        let n: usize = chars.len();
        let mut out: Vec<char> = Vec::new();
        let ghost mut keep: Seq<bool> = Seq::empty();
        let mut ou: usize = 0;
        let mut i: usize = 0;
        while i < n
            invariant
                i <= n,
                n == s.len(),
                chars@ == s,
                keep.len() == i,
                out@ == mask_seq(s.take(i as int), keep),
                forall|p: int| 0 <= p < i ==> call_ensures(f, (s[p],), #[trigger] keep[p]),
                can_test_val(f, s),
                ou == units_of(out@, w),
                units == units_of(s, w),
                w == <TextBuf as Slice>::widths(),
                forall|c: char| #[trigger] w(c) == char_width(c),
            decreases n - i,
        {
            let c = chars[i];
            let bk = f(c);
            proof {
                lemma_mask_seq_push(s.take(i as int), keep, s[i as int], bk);
                assert(s.take(i + 1 as int) =~= s.take(i as int).push(s[i as int]));
                keep = keep.push(bk);
            }
            if bk {
                let cw = char_units(c);
                proof {
                    lemma_units_of_push(out@, w, c);
                    lemma_units_of_mask(s.take(i + 1 as int), keep, w);
                    lemma_units_of_take(s, w, i + 1 as int, n as int);
                    assert(s.take(n as int) =~= s);
                    assert(out@.push(c) =~= mask_seq(s.take(i + 1 as int), keep));
                }
                out.push(c);
                ou = ou + cw;
            } else {
                proof {
                    assert(out@ + Seq::<char>::empty() =~= out@);
                }
            }
            i += 1;
        }
        proof {
            assert(s.take(n as int) =~= s);
        }
        *self = TextBuf { chars: out, units: ou };
        proof {
            assert(retain_rel_val(f, s, self.elems()));
        }
    }

    fn elem_indices(&self) -> (r: Vec<(usize, char)>) {
        proof {
            use_type_invariant(&*self);
            lemma_text_widths();
        }
        let ghost w = <TextBuf as Slice>::widths();
        let n: usize = self.chars.len();
        let mut out: Vec<(usize, char)> = Vec::new();
        let mut u: usize = 0;
        let mut i: usize = 0;
        while i < n
            invariant
                i <= n,
                n == self.chars@.len(),
                u == units_of(self.chars@.take(i as int), w),
                self.units == units_of(self.chars@, w),
                out@.len() == i,
                forall|p: int|
                    0 <= p < i ==> (#[trigger] out@[p]).0 == units_of(self.chars@.take(p), w)
                        && out@[p].1 == self.chars@[p],
                w == <TextBuf as Slice>::widths(),
                forall|c: char| #[trigger] w(c) == char_width(c),
            decreases n - i,
        {
            let c = self.chars[i];
            out.push((u, c));
            let cw = char_units(c);
            proof {
                lemma_units_of_take_succ(self.chars@, w, i as int);
                lemma_units_of_take(self.chars@, w, i + 1 as int, n as int);
                assert(self.chars@.take(n as int) =~= self.chars@);
            }
            u = u + cw;
            i += 1;
        }
        out
    }
}


impl PartialEq for TextBuf {
    /// Two text buffers are equal when they hold the same codepoints.
    fn eq(&self, other: &TextBuf) -> (r: bool) {
        let a: &Vec<char> = &self.chars;
        let b: &Vec<char> = &other.chars;
        let n: usize = a.len();
        if n != b.len() {
            return false;
        }
        let mut i: usize = 0;
        while i < n
            invariant
                i <= n,
                n == a@.len(),
                n == b@.len(),
                a@ == self.elems(),
                b@ == other.elems(),
                forall|p: int| 0 <= p < i ==> a@[p] == b@[p],
            decreases n - i,
        {
            if a[i] != b[i] {
                return false;
            }
            i += 1;
        }
        proof {
            assert(a@ =~= b@);
        }
        true
    }
}

impl vstd::std_specs::cmp::PartialEqSpecImpl for TextBuf {
    open spec fn obeys_eq_spec() -> bool {
        true
    }

    open spec fn eq_spec(&self, other: &TextBuf) -> bool {
        self.elems() == other.elems()
    }
}

} // verus!
