use std::rc::Rc;
use std::sync::Arc;

use offset_vec::Offset;
use offset_vec::RangeArg;
use offset_vec::RangeEdge;
use offset_vec::RangeError;
use offset_vec::TextBuf;
use offset_vec::create;
use offset_vec::create_checked;
use offset_vec::index_out_of_range;
use offset_vec::vec_like::char_units;
use offset_vec::OffsetCheckRef;
use offset_vec::VecLikeAbstract;

fn text(s: &str) -> TextBuf {
    TextBuf::from_chars(s.chars().collect::<Vec<char>>())
}

fn chars_of(s: &str) -> Vec<char> {
    s.chars().collect::<Vec<char>>()
}

#[test]
fn scenario_remove_middle() {
    let mut v = vec![0, 1, 2, 3, 4, 5].offset(3);
    assert_eq!(v.as_slice(), [3, 4, 5]);
    assert_eq!(v.remove(1), 4);
    assert_eq!(v.as_slice(), [3, 5]);
    assert_eq!(v.origin_vec()[..], [0, 1, 2, 3, 5]);
}

#[test]
fn scenario_text_retain() {
    let mut v = text("foo").offset(1);
    assert_eq!(v.visible_chars(), chars_of("oo"));
    v.retain(|_| false);
    assert_eq!(v.visible_chars(), chars_of(""));
    assert_eq!(v.origin_vec().chars()[..], chars_of("f")[..]);
}

#[test]
fn scenario_text_retain_multibyte() {
    let mut v = text("测试中").offset(3);
    assert_eq!(v.visible_chars(), chars_of("试中"));
    v.retain(|_| false);
    assert_eq!(v.origin_vec().chars()[..], chars_of("测")[..]);
}

#[test]
fn scenario_offset_past_end_is_rejected() {
    let r = create_checked(vec![1, 2, 3, 4], 5);
    assert!(r.is_none());
    let r2 = create_checked(vec![1, 2, 3, 4], 4);
    assert!(r2.is_some());
}

#[test]
fn chained_offset_past_end_is_rejected() {
    let v = vec![1, 2, 3, 4].offset(2);
    assert!(v.offset_checked(3).is_none());
    let v2 = vec![1, 2, 3, 4].offset(2);
    assert!(v2.offset_checked(2).is_some());
}

#[test]
fn mid_codepoint_offset_is_rejected() {
    assert!(create_checked(text("测"), 1).is_none());
    assert!(create_checked(text("测"), 2).is_none());
    assert!(create_checked(text("测"), 3).is_some());
}

#[test]
fn offset_view_lengths() {
    let base = vec![10, 20, 30, 40, 50, 60];
    let mut k: usize = 0;
    while k <= base.len() {
        let v = base.clone().offset(k);
        assert_eq!(v.len(), base.len() - k);
        assert_eq!(v.as_slice(), &base[k..]);
        k += 1;
    }
}

#[test]
fn chained_offset_matches_flat_offset() {
    let v = vec![0, 1, 2, 3, 4, 5].offset(2);
    let j: usize = 3;
    let len_before = v.len();
    let chained = v.offset(j);
    assert_eq!(chained.len(), len_before - j);
    assert_eq!(chained.origin_offset(), 5);
    let flat = create(vec![0, 1, 2, 3, 4, 5], 5);
    assert_eq!(chained.as_slice(), flat.as_slice());
    assert_eq!(chained.origin_vec()[..], flat.origin_vec()[..]);
}

#[test]
fn push_then_pop_restores() {
    let mut v = vec![0, 1, 2].offset(1);
    v.push(9);
    assert_eq!(v.as_slice(), [1, 2, 9]);
    assert_eq!(v.pop(), Some(9));
    assert_eq!(v.as_slice(), [1, 2]);
    assert_eq!(v.origin_vec()[..], [0, 1, 2]);
}

#[test]
fn pop_empty_leaves_prefix() {
    let mut v = vec![0, 1, 2].offset(3);
    assert_eq!(v.pop(), None);
    assert_eq!(v.origin_vec()[..], [0, 1, 2]);
}

#[test]
fn clear_cuts_to_offset() {
    let mut v = vec![0, 1, 2, 3, 4].offset(2);
    v.clear();
    assert!(v.is_empty());
    assert_eq!(v.origin_vec()[..], [0, 1]);
    assert_eq!(v.into_origin_vec(), vec![0, 1]);
}

#[test]
fn into_origin_vec_recovers_container() {
    let mut v = vec![0, 1, 2, 3].offset(2);
    v.push(4);
    v.insert(0, 9);
    assert_eq!(v.remove(3), 4);
    assert_eq!(v.into_origin_vec(), vec![0, 1, 9, 2, 3]);
}

#[test]
fn truncate_keeps_prefix() {
    let mut v = vec![0, 1, 2, 3, 4, 5].offset(2);
    v.truncate(2);
    assert_eq!(v.as_slice(), [2, 3]);
    assert_eq!(v.origin_vec()[..], [0, 1, 2, 3]);
    v.truncate(7);
    assert_eq!(v.as_slice(), [2, 3]);
}

#[test]
fn append_moves_other() {
    let mut v = vec![0, 1, 2, 3].offset(2);
    let mut other = vec![4, 5];
    v.append(&mut other);
    assert_eq!(other, Vec::<i32>::new());
    assert_eq!(v.as_slice(), [2, 3, 4, 5]);
    assert_eq!(v.origin_vec()[..], [0, 1, 2, 3, 4, 5]);
}

#[test]
fn drain_range() {
    let mut v = vec![0, 1, 2, 3, 4, 5, 6].offset(2);
    let removed = v.drain(RangeArg::from_to(2, 4));
    assert_eq!(removed, vec![4, 5]);
    assert_eq!(v.as_slice(), [2, 3, 6]);
    assert_eq!(v.origin_vec()[..], [0, 1, 2, 3, 6]);
}

#[test]
fn drain_inclusive_range() {
    let mut v = vec![0, 1, 2, 3, 4, 5, 6].offset(2);
    let removed = v.drain(RangeArg::from_to_inclusive(2, 3));
    assert_eq!(removed, vec![4, 5]);
    assert_eq!(v.as_slice(), [2, 3, 6]);
}

#[test]
fn drain_full_range() {
    let mut v = vec![0, 1, 2, 3].offset(1);
    let removed = v.drain(RangeArg::full());
    assert_eq!(removed, vec![1, 2, 3]);
    assert!(v.is_empty());
    assert_eq!(v.origin_vec()[..], [0]);
}

#[test]
fn drain_text_range() {
    let mut v = text("foobar").offset(1);
    let removed = v.drain(RangeArg::from_to(0, 3));
    assert_eq!(removed.chars()[..], chars_of("oob")[..]);
    assert_eq!(v.visible_chars(), chars_of("ar"));
    assert_eq!(v.origin_vec().chars()[..], chars_of("far")[..]);
}

#[test]
fn map_range_errors() {
    let v = vec![0, 1, 2, 3, 4].offset(2);
    assert!(matches!(
        v.map_range_checked(RangeArg::from_to(2, 1)),
        Err(RangeError::StartAfterEnd { start: 2, end: 1 })
    ));
    assert!(matches!(
        v.map_range_checked(RangeArg::from_to(1, 5)),
        Err(RangeError::EndOutOfRange { end: 5, len: 3 })
    ));
    assert!(matches!(
        v.map_range_checked(RangeArg::from_to_inclusive(0, usize::MAX)),
        Err(RangeError::EndOverflow)
    ));
    let bad_start = RangeArg { start: RangeEdge::Excluded(usize::MAX), end: RangeEdge::Unbounded };
    assert!(matches!(v.map_range_checked(bad_start), Err(RangeError::StartOverflow)));
    let ok = v.map_range_checked(RangeArg::from_to(1, 3)).unwrap();
    assert_eq!(ok.start, 3);
    assert_eq!(ok.end, 5);
}

#[test]
fn split_off_visible() {
    let mut v = vec![0, 1, 2, 3, 4, 5, 6].offset(2);
    let other = v.split_off(3);
    assert_eq!(other, vec![5, 6]);
    assert_eq!(v.as_slice(), [2, 3, 4]);
    assert_eq!(v.origin_vec()[..], [0, 1, 2, 3, 4]);
}

#[test]
fn resize_grows_and_shrinks() {
    let mut v = vec![1, 2].offset(1);
    v.resize(3, 9);
    assert_eq!(v.as_slice(), [2, 9, 9]);
    v.resize(1, 7);
    assert_eq!(v.as_slice(), [2]);
    assert_eq!(v.origin_vec()[..], [1, 2]);
}

#[test]
fn resize_with_generates() {
    let mut v = vec![1, 2].offset(1);
    v.resize_with(3, || 4);
    assert_eq!(v.as_slice(), [2, 4, 4]);
}

#[test]
fn swap_remove_visible() {
    let mut v = vec![1, 2, 3, 4].offset(1);
    assert_eq!(v.swap_remove(0), 2);
    assert_eq!(v.as_slice(), [4, 3]);
    assert_eq!(v.origin_vec()[..], [1, 4, 3]);
}

#[test]
fn pop_if_checks_last() {
    let mut v = vec![1, 2, 3].offset(1);
    assert_eq!(v.pop_if(|x| *x == 9), None);
    assert_eq!(v.pop_if(|x| *x == 3), Some(3));
    assert_eq!(v.as_slice(), [2]);
    let mut empty = vec![1].offset(1);
    assert_eq!(empty.pop_if(|_| true), None);
}

#[test]
fn retain_mut_keeps_prefix() {
    let mut v = vec![0, 1, 2, 3, 4].offset(2);
    v.retain_mut(|x| *x % 2 == 0);
    assert_eq!(v.as_slice(), [2, 4]);
    assert_eq!(v.origin_vec()[..], [0, 1, 2, 4]);
}

#[test]
fn retain_keeps_some() {
    let mut v = vec![0, 1, 2, 3, 4, 5].offset(1);
    v.retain(|x| *x % 2 == 1);
    assert_eq!(v.as_slice(), [1, 3, 5]);
    assert_eq!(v.origin_vec()[..], [0, 1, 3, 5]);
}

#[test]
fn text_push_pop() {
    let mut v = text("测试中").offset(3);
    assert_eq!(v.pop(), Some('中'));
    assert_eq!(v.visible_chars(), chars_of("试"));
    v.push('好');
    assert_eq!(v.origin_vec().chars()[..], chars_of("测试好")[..]);
    assert_eq!(v.len(), 6);
}

#[test]
fn text_insert_remove_by_byte_index() {
    let mut v = text("测试中").offset(3);
    assert_eq!(v.remove(0), '试');
    assert_eq!(v.origin_vec().chars()[..], chars_of("测中")[..]);
    v.insert(3, '好');
    assert_eq!(v.origin_vec().chars()[..], chars_of("测中好")[..]);
}

#[test]
fn text_push_str() {
    let mut v = text("foo").offset(1);
    v.push_str(&text("ba"));
    assert_eq!(v.visible_chars(), chars_of("ooba"));
    assert_eq!(v.origin_vec().chars()[..], chars_of("fooba")[..]);
}

#[test]
fn text_lengths_are_bytes() {
    let v = text("测试中").offset(3);
    assert_eq!(v.len(), 6);
    assert_eq!(v.origin_vec().chars().len(), 3);
}

#[test]
fn char_unit_widths() {
    assert_eq!(char_units('a'), 1);
    assert_eq!(char_units('\u{e9}'), 2);
    assert_eq!(char_units('测'), 3);
    assert_eq!(char_units('\u{1f600}'), 4);
}

#[test]
fn index_guard() {
    assert!(!index_out_of_range(0, 0));
    assert!(!index_out_of_range(2, 3));
    assert!(!index_out_of_range(3, 3));
    assert!(index_out_of_range(4, 3));
}

#[test]
fn offset_check_reports_validity() {
    let v = vec![1, 2, 3].offset(3);
    assert!(v.offset_check_ref());
    let t = text("测").offset(3);
    assert!(t.offset_check_ref());
}

#[test]
fn boxed_container() {
    let mut v = Box::new(vec![1, 2, 3]).offset(1);
    v.push(4);
    assert_eq!(v.pop(), Some(4));
    assert_eq!(v.pop(), Some(3));
    assert_eq!(v.origin_vec()[..], [1, 2]);
}

#[test]
fn shared_container_copies_on_write() {
    let rc = Rc::new(vec![1, 2, 3]);
    let other = rc.clone();
    let mut v = rc.offset(1);
    v.push(4);
    assert_eq!(v.origin_vec()[..], [1, 2, 3, 4]);
    assert_eq!(other[..], [1, 2, 3]);
}

#[test]
fn atomically_shared_container_copies_on_write() {
    let arc = Arc::new(vec![1, 2, 3]);
    let other = arc.clone();
    let mut v = arc.offset(1);
    assert_eq!(v.pop(), Some(3));
    assert_eq!(v.origin_vec()[..], [1, 2]);
    assert_eq!(other[..], [1, 2, 3]);
}

#[test]
fn capacity_at_least_len() {
    let v = vec![1, 2, 3, 4].offset(1);
    assert!(v.capacity() >= v.len());
    let t = text("abc").offset(1);
    assert_eq!(t.capacity(), 2);
}

#[test]
fn text_elem_indices() {
    let t = text("a测b");
    let pairs = t.elem_indices();
    assert_eq!(pairs, vec![(0, 'a'), (1, '测'), (4, 'b')]);
}

#[test]
fn container_drain_by_unit_range() {
    let mut v = vec![0, 1, 2, 3, 4];
    let removed = offset_vec::VecLike::drain(&mut v, 1, 3);
    assert_eq!(removed, vec![1, 2]);
    assert_eq!(v, vec![0, 3, 4]);
}

#[test]
fn container_duplicate_and_resize() {
    let v = vec![1, 2, 3];
    let d = offset_vec::VecLikeDup::duplicate(&v);
    assert_eq!(d, vec![1, 2, 3]);
    let mut t = text("ab");
    offset_vec::VecLikeDup::resize(&mut t, 4, '测');
    assert_eq!(t.chars()[..], chars_of("ab测测")[..]);
}

#[test]
fn equality_is_of_the_visible_slice() {
    let a = vec![9, 1, 2].offset(1);
    let b = vec![7, 8, 1, 2].offset(2);
    assert!(a == b);
    let c = vec![1, 3].offset(0);
    assert!(a != c);
    let d = vec![1, 2, 3].offset(0);
    assert!(a != d);
    assert!(text("foobar") == text("foobar"));
    assert!(text("a") != text("b"));
}

#[test]
fn ordering_is_of_the_visible_slice() {
    let a = vec![9, 1, 2].offset(1);
    let b = vec![1, 2, 3].offset(0);
    assert!(a < b);
    let c = vec![0, 2].offset(1);
    assert!(a < c);
    assert!(c > b);
    let d = vec![5, 1, 2].offset(1);
    assert!(a <= d);
    assert!(a >= d);
}

#[test]
fn from_container_hides_nothing() {
    let v = offset_vec::OffsetVec::from(vec![1, 2, 3]);
    assert_eq!(v.origin_offset(), 0);
    assert_eq!(v.as_slice(), [1, 2, 3]);
    assert_eq!(v.len(), 3);
}
