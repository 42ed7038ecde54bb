use maxlen::encoding::{Cesu8, Encoding, MCesu8, Utf8};
use maxlen::{BSlice, BStr, BString, BVec};

#[test]
fn test_bslice_macro() {
    let empty: [u8; 0] = [];
    let _: BSlice<u8, 255> = BSlice::from_array(&empty);
    let twenty = [0u8; 20];
    let _: BSlice<_, 255> = BSlice::from_array(&twenty);
    let few = [0, 1, 2, 3, 4];
    let _: BSlice<_, 255> = BSlice::from_array(&few);
}

#[test]
fn test_bvec_macro() {
    let _: BVec<u8, 255> = BVec::new();
    let _: BVec<_, 255> = BVec::from_vec(vec![0u8; 20]).unwrap();
    let _: BVec<_, 255> = BVec::from_vec(vec![0, 1, 2, 3, 4]).unwrap();
}

#[test]
fn encoding_lengths_are_exact() {
    assert_eq!(Utf8::length("hello"), 5);
    assert_eq!(Utf8::length(""), 0);
    assert_eq!(Cesu8::length(""), 0);
    assert_eq!(MCesu8::length(""), 0);
    // One code point above U+FFFF: 4 native bytes + 2.
    assert_eq!(Utf8::length("\u{10000}"), 4);
    assert_eq!(Cesu8::length("\u{10000}"), 6);
    // 3 native bytes + 1 for the embedded NUL.
    assert_eq!(MCesu8::length("a\u{0}b"), 4);
    assert_eq!(Cesu8::length("a\u{0}b"), 3);
    // Characters exactly at U+FFFF are not re-encoded.
    assert_eq!(Cesu8::length("\u{FFFF}"), 3);
    assert_eq!(MCesu8::length("\u{FFFF}"), 3);
    // Mixed content.
    assert_eq!(Cesu8::length("ab\u{10000}cd"), 10);
    assert_eq!(MCesu8::length("\u{0}\u{10000}"), 8);
}

#[test]
fn text_buffer_bounded_at_five_native() {
    let ok = BString::<5>::from_str("hello").unwrap();
    assert_eq!(ok.as_str(), "hello");

    let err = BString::<5>::from_str("hello!").unwrap_err();
    assert_eq!(err.length, 6);
    assert_eq!(err.maximum, 5);
}

#[test]
fn text_buffer_bounded_at_three_cesu8() {
    let err = BString::<3, Cesu8>::from_str("\u{10000}").unwrap_err();
    assert_eq!(err.length, 6);
    assert_eq!(err.maximum, 3);
    // The same character fits under the native encoding at the same bound of 4.
    assert!(BString::<4>::from_str("\u{10000}").is_ok());
}

#[test]
fn rejection_boundary() {
    // Exactly at the bound: succeeds.
    let v = vec![7u8; 4];
    assert!(BVec::<u8, 4>::from_vec(v).is_ok());
    // One past the bound: fails with the exact lengths.
    let v = vec![7u8; 5];
    let e = BVec::<u8, 4>::from_vec(v).unwrap_err();
    assert_eq!(e.length, 5);
    assert_eq!(e.maximum, 4);

    let s = [1, 2, 3];
    assert!(BSlice::<i32, 3>::from_slice(&s).is_ok());
    let e = BSlice::<i32, 2>::from_slice(&s).unwrap_err();
    assert_eq!(e.length, 3);
    assert_eq!(e.maximum, 2);

    assert!(BStr::<2>::from_str("ab").is_ok());
    let e = BStr::<1>::from_str("ab").unwrap_err();
    assert_eq!(e.length, 2);
    assert_eq!(e.maximum, 1);
}

#[test]
fn round_trip_of_checked_construction() {
    let data = vec![3u8, 1, 4, 1, 5];
    let b = BVec::<u8, 10>::from_vec(data.clone()).unwrap();
    assert_eq!(b.into_inner(), data);

    let s = BString::<16>::from_string(String::from("roundtrip")).unwrap();
    assert_eq!(s.into_inner(), "roundtrip");

    let raw = [9u16, 8, 7];
    let view = BSlice::<u16, 3>::from_slice(&raw).unwrap();
    assert_eq!(view.as_slice(), &raw);

    let text = BStr::<8, MCesu8>::from_str("ok\u{0}").unwrap();
    assert_eq!(text.as_str(), "ok\u{0}");
}

#[test]
fn widen_is_total_and_content_preserving() {
    let arr = [1u8, 2, 3];
    let v: BSlice<u8, 3> = BSlice::from_array(&arr);
    let w: BSlice<u8, 300> = v.relax_max();
    assert_eq!(w.as_slice(), &arr);

    let b = BVec::<u8, 3>::from_vec(vec![1, 2, 3]).unwrap();
    let wb: BVec<u8, 1000> = b.relax_max();
    assert_eq!(wb.as_vec(), &vec![1, 2, 3]);

    let s = BString::<5>::from_str("hello").unwrap();
    let ws: BString<9, Utf8> = s.relax_max();
    assert_eq!(ws.as_str(), "hello");

    let t = BStr::<5>::from_str("hello").unwrap();
    let wt: BStr<6, Utf8> = t.relax_max();
    assert_eq!(wt.as_str(), "hello");
}

#[test]
fn change_max_rebounds_at_runtime() {
    let b = BVec::<u8, 10>::from_vec(vec![1, 2, 3]).unwrap();
    let narrowed: BVec<u8, 3> = b.change_max().unwrap();
    let e = narrowed.change_max::<2>().unwrap_err();
    assert_eq!(e.length, 3);
    assert_eq!(e.maximum, 2);

    // Changing the encoding re-measures the logical length.
    let s = BString::<4>::from_str("\u{10000}").unwrap();
    let e = s.change_max::<Cesu8, 5>().unwrap_err();
    assert_eq!(e.length, 6);
    assert_eq!(e.maximum, 5);

    let s = BString::<4>::from_str("\u{10000}").unwrap();
    let widened: BString<6, Cesu8> = s.change_max().unwrap();
    assert_eq!(widened.as_str(), "\u{10000}");

    let arr = [5u8; 4];
    let v = BSlice::<u8, 8>::from_slice(&arr).unwrap();
    let n: BSlice<u8, 4> = v.change_max().unwrap();
    assert_eq!(n.as_slice(), &arr);

    let t = BStr::<8>::from_str("a\u{0}b").unwrap();
    let e = t.change_max::<MCesu8, 3>().unwrap_err();
    assert_eq!(e.length, 4);
    assert_eq!(e.maximum, 3);
}

#[test]
fn error_message_rendering() {
    let e = BString::<5>::from_str("hello!").unwrap_err();
    assert_eq!(e.message(), "length of 6 exceeded (5)");
    let e = BVec::<u8, 0>::from_vec(vec![1]).unwrap_err();
    assert_eq!(e.message(), "length of 1 exceeded (0)");
    let e = maxlen::LengthExceeded { length: 1204, maximum: 1000 };
    assert_eq!(e.message(), "length of 1204 exceeded (1000)");
}

#[test]
fn unchecked_construction_views_the_data() {
    let v: BVec<u8, 9> = BVec::from_vec_unchecked(vec![1, 2]);
    assert_eq!(v.as_vec(), &vec![1, 2]);
    let s: BString<9> = BString::from_str_unchecked("abc");
    assert_eq!(s.as_str(), "abc");
    let arr = [4u8, 5];
    let sl: BSlice<u8, 9> = BSlice::from_slice_unchecked(&arr);
    assert_eq!(sl.as_slice(), &arr);
    let st: BStr<9> = BStr::from_str_unchecked("xy");
    assert_eq!(st.as_str(), "xy");
}
