use maxlen::encoding::{Cesu8, MCesu8};
use maxlen::{BSlice, BStr, BString, BVec};

#[test]
fn sub_views_need_no_validation() {
    let arr = [1u8, 2, 3, 4, 5];
    let v = BSlice::<u8, 5>::from_slice(&arr).unwrap();
    let sub: BSlice<u8, 5> = v.subslice(1, 4);
    assert_eq!(sub.as_slice(), &[2, 3, 4]);
    let head: BSlice<u8, 5> = v.subslice_to(2);
    assert_eq!(head.as_slice(), &[1, 2]);
    let tail: BSlice<u8, 5> = v.subslice_from(3);
    assert_eq!(tail.as_slice(), &[4, 5]);
    let (l, r) = v.split_at(2);
    assert_eq!(l.as_slice(), &[1, 2]);
    assert_eq!(r.as_slice(), &[3, 4, 5]);

    // Text sub-views keep the bound under any encoding.
    let t = BStr::<10, Cesu8>::from_str("a\u{10000}b").unwrap();
    let sub: BStr<10, Cesu8> = t.substring_char(1, 2);
    assert_eq!(sub.as_str(), "\u{10000}");
    let sub2: BStr<10, Cesu8> = t.substring_char(0, 3);
    assert_eq!(sub2.as_str(), "a\u{10000}b");
}

#[test]
fn element_access() {
    let arr = [10u8, 20, 30];
    let v = BSlice::<u8, 3>::from_slice(&arr).unwrap();
    assert_eq!(v.len(), 3);
    assert!(!v.is_empty());
    assert_eq!(*v.index(1), 20);
    assert_eq!(v.get(2), Some(&30));
    assert_eq!(v.get(3), None);
    assert_eq!(v.first(), Some(&10));
    assert_eq!(v.last(), Some(&30));

    let b = BVec::<u8, 3>::from_vec(vec![10, 20, 30]).unwrap();
    assert_eq!(b.len(), 3);
    assert_eq!(*b.index(0), 10);
    assert_eq!(b.get(1), Some(&20));
    assert_eq!(b.get(9), None);
    assert_eq!(b.first(), Some(&10));
    assert_eq!(b.last(), Some(&30));

    let t = BStr::<8>::from_str("chars").unwrap();
    assert_eq!(t.char_count(), 5);
    assert_eq!(t.get_char(0), 'c');
    assert_eq!(t.len(), 5);
    assert_eq!(t.as_bytes(), b"chars");
    assert!(t.is_ascii());

    let s = BString::<8>::from_str("xy").unwrap();
    assert_eq!(s.char_count(), 2);
    assert_eq!(s.get_char(1), 'y');
}

#[test]
fn owned_and_borrowed_round_trip() {
    let arr = [1u8, 2, 3];
    let view = BSlice::<u8, 4>::from_slice(&arr).unwrap();
    let owned: BVec<u8, 4> = view.to_owned();
    assert_eq!(owned.as_vec(), &vec![1, 2, 3]);
    let reborrowed = owned.as_bslice();
    assert_eq!(reborrowed.as_slice(), &arr);

    let text = BStr::<6, MCesu8>::from_str("a\u{0}b").unwrap();
    let owned: BString<6, MCesu8> = text.to_owned();
    assert_eq!(owned.as_str(), "a\u{0}b");
    let reborrowed = owned.as_bstr();
    assert_eq!(reborrowed.as_str(), "a\u{0}b");
}

#[test]
fn comparisons() {
    let a = BVec::<u8, 4>::from_vec(vec![1, 2]).unwrap();
    let b = BVec::<u8, 4>::from_vec(vec![1, 2]).unwrap();
    let c = BVec::<u8, 4>::from_vec(vec![1, 3]).unwrap();
    assert!(a == b);
    assert!(a != c);

    let s = BString::<4>::from_str("ab").unwrap();
    let t = BString::<4>::from_str("ab").unwrap();
    let u = BString::<4>::from_str("ba").unwrap();
    assert!(s == t);
    assert!(s != u);
    assert!(s.eq_str("ab"));
    assert!(!s.eq_str("ba"));

    let x = BStr::<4>::from_str("ab").unwrap();
    let y = BStr::<9>::from_str("ab").unwrap();
    let z = BStr::<9>::from_str("zz").unwrap();
    assert!(x.eq_bstr(&y));
    assert!(!z.eq_bstr(&y));
    assert!(x.eq_str("ab"));
}

#[test]
fn clones_and_defaults() {
    let v = BVec::<u8, 4>::from_vec(vec![1, 2]).unwrap();
    let w = v.clone();
    assert_eq!(v, w);
    let d: BVec<u8, 4> = Default::default();
    assert!(d.is_empty());

    let s = BString::<4>::from_str("ab").unwrap();
    let t = s.clone();
    assert!(s == t);
    let e: BString<4> = Default::default();
    assert!(e.is_empty());

    let arr = [9u8];
    let view = BSlice::<u8, 2>::from_slice(&arr).unwrap();
    let copy = view;
    assert_eq!(copy.as_slice(), view.as_slice());

    let text = BStr::<2>::from_str("z").unwrap();
    let copy = text;
    assert_eq!(copy.as_str(), text.as_str());
}

#[test]
fn to_vec_clones_the_contents() {
    let v = BVec::<u8, 4>::from_vec(vec![4, 5, 6]).unwrap();
    assert_eq!(v.to_vec(), vec![4, 5, 6]);
    let w = BVec::<u8, 8>::from_slice(&[7, 8]).unwrap();
    assert_eq!(w.to_vec(), vec![7, 8]);
}

#[test]
fn empty_buffers_always_fit() {
    let v: BVec<u8, 0> = BVec::new();
    assert_eq!(v.len(), 0);
    let s: BString<0> = BString::new();
    assert!(s.is_empty());
    let c: BVec<u8, 0> = BVec::with_capacity(0);
    assert!(c.is_empty());
    let t: BString<0> = BString::with_capacity(16);
    assert!(t.is_empty());
    assert!(BString::<0>::from_str("").is_ok());
    assert!(BString::<0>::from_str("a").is_err());
}

#[test]
fn split_first_and_last() {
    let arr = [1u8, 2, 3];
    let v = BSlice::<u8, 3>::from_slice(&arr).unwrap();
    let (first, rest) = v.split_first().unwrap();
    assert_eq!(*first, 1);
    assert_eq!(rest.as_slice(), &[2, 3]);
    let (last, init) = v.split_last().unwrap();
    assert_eq!(*last, 3);
    assert_eq!(init.as_slice(), &[1, 2]);
    let empty: [u8; 0] = [];
    let e = BSlice::<u8, 3>::from_slice(&empty).unwrap();
    assert!(e.split_first().is_none());
    assert!(e.split_last().is_none());
}

#[test]
fn contains_and_elementwise_eq() {
    let arr = [1u8, 2, 3];
    let v = BSlice::<u8, 3>::from_slice(&arr).unwrap();
    assert!(v.contains(&2));
    assert!(!v.contains(&9));
    let same = [1u8, 2, 3];
    let w = BSlice::<u8, 9>::from_slice(&same).unwrap();
    assert!(v.eq_bslice(&w));
    let other = [1u8, 2, 4];
    let u = BSlice::<u8, 9>::from_slice(&other).unwrap();
    assert!(!v.eq_bslice(&u));

    let b = BVec::<u8, 3>::from_vec(vec![1, 2, 3]).unwrap();
    assert!(b.contains(&3));
    assert!(!b.contains(&7));
}

#[test]
fn ascii_substring() {
    let t = BStr::<8>::from_str("bounded").unwrap();
    let sub = t.substring_ascii(1, 4);
    assert_eq!(sub.as_str(), "oun");
}

#[test]
fn bslice_to_vec_clones() {
    let arr = [5u8, 6];
    let v = BSlice::<u8, 2>::from_slice(&arr).unwrap();
    assert_eq!(v.to_vec(), vec![5, 6]);
}

#[test]
fn bvec_split_at_views() {
    let b = BVec::<u8, 4>::from_vec(vec![1, 2, 3, 4]).unwrap();
    let (l, r) = b.split_at(1);
    assert_eq!(l.as_slice(), &[1]);
    assert_eq!(r.as_slice(), &[2, 3, 4]);
    assert_eq!(b.as_slice(), &[1, 2, 3, 4]);
}
