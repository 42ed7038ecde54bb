use maxlen::encoding::Cesu8;
use maxlen::{BSlice, BStr, BString, BVec};

#[test]
fn truncate_takes_the_minimum() {
    let mut v = BVec::<u8, 8>::from_vec(vec![1, 2, 3, 4, 5]).unwrap();
    v.truncate(3);
    assert_eq!(v.as_vec(), &vec![1, 2, 3]);
    v.truncate(9);
    assert_eq!(v.as_vec(), &vec![1, 2, 3]);
    v.truncate(0);
    assert!(v.is_empty());

    let mut s = BString::<8>::from_str("hello").unwrap();
    s.truncate(3);
    assert_eq!(s.as_str(), "hel");
    s.truncate(7);
    assert_eq!(s.as_str(), "hel");
}

#[test]
fn pop_and_clear() {
    let mut v = BVec::<i32, 4>::from_vec(vec![1, 2]).unwrap();
    assert_eq!(v.pop(), Some(2));
    assert_eq!(v.pop(), Some(1));
    assert_eq!(v.pop(), None);
    let mut v = BVec::<i32, 4>::from_vec(vec![1, 2]).unwrap();
    v.clear();
    assert_eq!(v.len(), 0);

    let mut s = BString::<4>::from_str("ab").unwrap();
    assert_eq!(s.pop(), Some('b'));
    assert_eq!(s.pop(), Some('a'));
    assert_eq!(s.pop(), None);
    let mut s = BString::<4>::from_str("ab").unwrap();
    s.clear();
    assert!(s.is_empty());
}

#[test]
fn remove_and_swap_remove() {
    let mut v = BVec::<i32, 8>::from_vec(vec![10, 20, 30, 40]).unwrap();
    assert_eq!(v.remove(1), 20);
    assert_eq!(v.as_vec(), &vec![10, 30, 40]);
    assert_eq!(v.swap_remove(0), 10);
    assert_eq!(v.as_vec(), &vec![40, 30]);

    let mut s = BString::<8>::from_str("hello").unwrap();
    assert_eq!(s.remove(1), 'e');
    assert_eq!(s.as_str(), "hllo");
}

#[test]
fn split_off_keeps_both_halves_bounded() {
    let mut v = BVec::<i32, 4>::from_vec(vec![1, 2, 3, 4]).unwrap();
    let tail = v.split_off(2);
    assert_eq!(v.as_vec(), &vec![1, 2]);
    assert_eq!(tail.as_vec(), &vec![3, 4]);

    let mut s = BString::<5>::from_str("hello").unwrap();
    let tail = s.split_off(2);
    assert_eq!(s.as_str(), "he");
    assert_eq!(tail.as_str(), "llo");
}

#[test]
fn drain_removes_the_byte_range() {
    let mut s = BString::<5>::from_str("hello").unwrap();
    s.drain(1, 3);
    assert_eq!(s.as_str(), "hlo");
    let mut s = BString::<5>::from_str("hello").unwrap();
    s.drain(0, 5);
    assert_eq!(s.as_str(), "");
}

#[test]
fn retain_keeps_matching_elements() {
    let mut v = BVec::<i32, 8>::from_vec(vec![1, 2, 3, 4, 5]).unwrap();
    v.retain(|x| x % 2 == 0);
    assert_eq!(v.as_vec(), &vec![2, 4]);

    let mut s = BString::<8>::from_str("hel\u{0}lo").unwrap();
    s.retain(|c| c != 'l' && c != '\u{0}');
    assert_eq!(s.as_str(), "heo");
}

#[test]
fn pop_if_asks_the_predicate() {
    let mut v = BVec::<i32, 4>::from_vec(vec![1, 2]).unwrap();
    assert_eq!(v.pop_if(|x| *x > 1), Some(2));
    assert_eq!(v.pop_if(|x| *x > 1), None);
    assert_eq!(v.as_vec(), &vec![1]);
    let mut empty = BVec::<i32, 4>::new();
    assert_eq!(empty.pop_if(|_| true), None);
}

#[test]
fn dedup_keeps_first_of_each_run() {
    let mut v = BVec::<i32, 8>::from_vec(vec![1, 1, 2, 2, 2, 3, 1]).unwrap();
    v.dedup();
    assert_eq!(v.as_vec(), &vec![1, 2, 3, 1]);

    let mut v = BVec::<i32, 8>::from_vec(vec![1, 2, 12, 3, 13]).unwrap();
    v.dedup_by(|a, b| a % 10 == b % 10);
    assert_eq!(v.as_vec(), &vec![1, 2, 3]);

    let mut v = BVec::<i32, 8>::from_vec(vec![10, 16, 21, 30]).unwrap();
    v.dedup_by_key(|x| x / 10);
    assert_eq!(v.as_vec(), &vec![10, 21, 30]);
}

#[test]
fn ascii_case_changes_preserve_the_bound() {
    let mut s = BString::<4>::from_str("aB\u{0}z").unwrap();
    s.make_ascii_uppercase();
    assert_eq!(s.as_str(), "AB\u{0}Z");
    s.make_ascii_lowercase();
    assert_eq!(s.as_str(), "ab\u{0}z");

    // Under CESU-8 the logical length is also unchanged.
    let mut s = BString::<10, Cesu8>::from_str("ab\u{10000}").unwrap();
    s.make_ascii_uppercase();
    assert_eq!(s.as_str(), "AB\u{10000}");
}

#[test]
fn capacity_operations_keep_contents() {
    let mut v = BVec::<u8, 4>::from_vec(vec![1, 2]).unwrap();
    v.reserve(10);
    v.reserve_exact(10);
    assert!(v.try_reserve(10).is_ok());
    assert!(v.try_reserve_exact(10).is_ok());
    assert!(v.capacity() >= v.len());
    v.shrink_to(2);
    v.shrink_to_fit();
    assert_eq!(v.as_vec(), &vec![1, 2]);

    let mut s = BString::<4>::from_str("ab").unwrap();
    assert!(s.capacity() >= 2);
    s.shrink_to(1);
    s.shrink_to_fit();
    assert_eq!(s.as_str(), "ab");
}

#[test]
fn leak_yields_an_unowned_bounded_view() {
    let v = BVec::<u8, 4>::from_vec(vec![1, 2, 3]).unwrap();
    let view: BSlice<'static, u8, 4> = v.leak();
    assert_eq!(view.as_slice(), &[1, 2, 3]);

    let s = BString::<4>::from_str("abc").unwrap();
    let view: BStr<'static, 4> = s.leak();
    assert_eq!(view.as_str(), "abc");
}

#[test]
fn bvec_drain_removes_the_range() {
    let mut v = BVec::<i32, 8>::from_vec(vec![1, 2, 3, 4, 5]).unwrap();
    let removed = v.drain(1, 3);
    assert_eq!(removed.as_vec(), &vec![2, 3]);
    assert_eq!(v.as_vec(), &vec![1, 4, 5]);
    let all = v.drain(0, 3);
    assert_eq!(all.as_vec(), &vec![1, 4, 5]);
    assert!(v.is_empty());
}

#[test]
fn extract_if_splits_by_predicate() {
    let mut v = BVec::<i32, 8>::from_vec(vec![1, 2, 3, 4, 5]).unwrap();
    let odd = v.extract_if(|x| x % 2 == 1);
    assert_eq!(odd.as_vec(), &vec![1, 3, 5]);
    assert_eq!(v.as_vec(), &vec![2, 4]);
}
