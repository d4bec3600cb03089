use offset_vec::Offset;
use offset_vec::OffsetVec;
use offset_vec::TextBuf;
use offset_vec::transform_char_index;

fn text(s: &str) -> TextBuf {
    TextBuf::from_chars(s.chars().collect::<Vec<char>>())
}

fn chars_of(s: &str) -> Vec<char> {
    s.chars().collect::<Vec<char>>()
}

#[test]
fn it_works() {
    let vec = vec![1, 2, 3, 4];
    let vec1 = vec.offset(1);
    assert_eq!(vec1.as_slice()[0], 2);
    assert_eq!(vec1.as_slice()[1], 3);
    assert_eq!(vec1.as_slice()[0..2], [2, 3]);
}

#[test]
fn str() {
    let vec = text("foobar");
    let vec1 = vec.offset(1);
    assert_eq!(vec1.visible_chars()[0..3], chars_of("oob")[..]);
    let vec2 = vec1.offset(1);
    assert_eq!(vec2.visible_chars()[0..3], chars_of("oba")[..]);
}

#[test]
fn pop() {
    let mut vec = vec![0, 1, 2, 3, 4, 5].offset(3);
    assert_eq!(vec.as_slice(), [3, 4, 5]);
    assert_eq!(vec.pop(), Some(5));
    assert_eq!(vec.pop(), Some(4));
    assert_eq!(vec.pop(), Some(3));
    assert_eq!(vec.pop(), None);
    assert_eq!(vec.pop(), None);
    assert_eq!(vec.origin_vec()[..], [0, 1, 2]);
}

#[test]
fn into_iter() {
    let vec = vec![0, 1, 2, 3, 4, 5].offset(3);
    assert_eq!(vec.as_slice(), [3, 4, 5]);
    assert_eq!(vec.into_visible().into_iter().collect::<Vec<_>>(), [3, 4, 5]);
}

#[test]
fn iter() {
    let vec = vec![0, 1, 2, 3, 4, 5].offset(3);
    assert_eq!(vec.as_slice(), [3, 4, 5]);
    assert_eq!(vec.as_slice().iter().collect::<Vec<_>>(), [&3, &4, &5]);
}

#[test]
fn remove() {
    let mut vec = vec![0, 1, 2, 3, 4, 5].offset(3);
    assert_eq!(vec.as_slice(), [3, 4, 5]);
    assert_eq!(vec.remove(1), 4);
    assert_eq!(vec.as_slice(), [3, 5]);
}

#[test]
fn insert() {
    let mut vec = vec![0, 1, 2, 3, 4, 5].offset(3);
    assert_eq!(vec.as_slice(), [3, 4, 5]);
    vec.insert(1, 0);
    assert_eq!(vec.as_slice(), [3, 0, 4, 5]);
}

#[test]
fn retain() {
    let mut s = vec![0, 1, 2, 3].to_owned().offset(1);
    s.retain(|_| false);
    assert_eq!(s.origin_vec()[..], [0]);
    assert_eq!(s.as_slice(), []);
}

#[test]
fn retain_val() {
    let mut s = text("foo").offset(1);
    s.retain(|_| false);
    assert_eq!(s.origin_vec().chars()[..], chars_of("f")[..]);
    assert_eq!(s.visible_chars(), chars_of(""));
}

#[test]
fn retain_val2() {
    let mut s = text("foo").offset(2);
    s.retain(|_| false);
    assert_eq!(s.origin_vec().chars()[..], chars_of("fo")[..]);
    assert_eq!(s.visible_chars(), chars_of(""));
}

#[test]
fn retain_val3() {
    let mut s = text("foo").offset(3);
    s.retain(|_| false);
    assert_eq!(s.origin_vec().chars()[..], chars_of("foo")[..]);
    assert_eq!(s.visible_chars(), chars_of(""));
}

#[test]
fn retain_val_fat_zero() {
    let mut s = text("测试中").offset(0);
    s.retain(|_| false);
    assert_eq!(s.origin_vec().chars()[..], chars_of("")[..]);
    assert_eq!(s.visible_chars(), chars_of(""));
}

#[test]
fn retain_val_fat() {
    let mut s = text("测试中").offset(3);
    s.retain(|_| false);
    assert_eq!(s.origin_vec().chars()[..], chars_of("测")[..]);
    assert_eq!(s.visible_chars(), chars_of(""));
}

#[test]
fn retain_val_fat1() {
    let mut s = text("测试中").offset(6);
    s.retain(|_| false);
    assert_eq!(s.origin_vec().chars()[..], chars_of("测试")[..]);
    assert_eq!(s.visible_chars(), chars_of(""));
}

#[test]
fn retain_val_fat2() {
    let mut s = text("测试中").offset(9);
    s.retain(|_| false);
    assert_eq!(s.origin_vec().chars()[..], chars_of("测试中")[..]);
    assert_eq!(s.visible_chars(), chars_of(""));
}

#[test]
fn multiple_offset() {
    let vec = vec![1, 2, 3, 4];
    let o1 = vec.offset(1);
    assert_eq!(o1.origin_offset(), 1);
    let o2 = o1.offset(1);
    assert_eq!(o2.origin_offset(), 2);
    let o4 = o2.offset(2);
    assert_eq!(o4.origin_offset(), 4);
}

#[test]
fn trst_transform_char_index() {
    let datas = [
        ("", 0, 0),
        ("a", 0, 0),
        ("a", 1, 1),
        ("你", 0, 0),
        ("你", 3, 1),
        ("你好", 3, 1),
        ("你好", 6, 2),
    ];

    for (s, bi, ci) in datas {
        let t = text(s);
        assert_eq!(transform_char_index(&t, bi), ci, "{s:?}, {bi}, {ci}");
    }
}

#[test]
fn default_view_is_empty() {
    let v: OffsetVec<Vec<i32>> = OffsetVec::default();
    assert_eq!(v.len(), 0);
    assert_eq!(v.origin_offset(), 0);
    assert!(v.is_empty());
}
