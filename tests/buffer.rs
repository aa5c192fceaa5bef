use core::fmt::Write;
use strbuf::{CapacityExceeded, StrBuf};

#[test]
fn empty_buffer_has_empty_text() {
    let buf = StrBuf::<16>::new();
    assert_eq!(buf.as_str(), "");
    assert_eq!(buf.len(), 0);
}

#[test]
fn default_is_empty() {
    let buf = StrBuf::<8>::default();
    assert_eq!(buf.as_ref(), "");
}

#[test]
fn temperature_reading() {
    let mut buf = StrBuf::<64>::new();
    assert_eq!(buf.append("Temperature: "), Ok(()));
    let reading = format!("{:.1}", 23.5f64);
    assert_eq!(buf.append(&reading), Ok(()));
    assert_eq!(buf.as_str(), "Temperature: 23.5");
}

#[test]
fn temperature_reading_through_write() {
    let mut buf = StrBuf::<64>::default();
    buf.write_str("Temperature: ").unwrap();
    buf.write_str(&format!("{:.1}", 23.5f64)).unwrap();
    buf.write_str("°C").unwrap();
    assert_eq!(buf.as_ref(), "Temperature: 23.5°C");
}

#[test]
fn display_too_long_is_error() {
    let result = StrBuf::<4>::display("Too long");
    assert!(result.is_err());
}

#[test]
fn display_hello_world() {
    let buf = StrBuf::<128>::display(format!("Hello, {}!", "world")).unwrap();
    assert_eq!(buf.as_ref(), "Hello, world!");
}

#[test]
fn fragments_hello_world() {
    let buf = StrBuf::<128>::from_fragments(&["Hello, ", "world", "!"]).unwrap();
    assert_eq!(buf.as_str(), "Hello, world!");
}

#[test]
fn fragments_exact_fit() {
    let buf = StrBuf::<5>::from_fragments(&["ab", "cde"]).unwrap();
    assert_eq!(buf.as_str(), "abcde");
}

#[test]
fn fragments_too_long() {
    let result = StrBuf::<4>::from_fragments(&["ab", "cde"]);
    assert_eq!(result.err(), Some(CapacityExceeded));
}

#[test]
fn fragments_none() {
    let buf = StrBuf::<0>::from_fragments(&[]).unwrap();
    assert_eq!(buf.as_str(), "");
}

#[test]
fn append_until_full() {
    let mut buf = StrBuf::<5>::new();
    assert_eq!(buf.append("ab"), Ok(()));
    assert_eq!(buf.len(), 2);
    assert_eq!(buf.append("cde"), Ok(()));
    assert_eq!(buf.len(), 5);
    assert_eq!(buf.append("f"), Err(CapacityExceeded));
    assert_eq!(buf.len(), 5);
    assert_eq!(buf.as_str(), "abcde");
}

#[test]
fn failed_append_leaves_buffer_unchanged() {
    let mut buf = StrBuf::<6>::new();
    buf.append("abc").unwrap();
    let before = buf;
    assert_eq!(buf.append("defg"), Err(CapacityExceeded));
    assert_eq!(buf.as_str(), before.as_str());
    assert_eq!(buf.as_str().as_bytes(), b"abc");
    assert_eq!(buf.append("def"), Ok(()));
    assert_eq!(buf.as_str(), "abcdef");
}

#[test]
fn zero_capacity_takes_only_empty_text() {
    let mut buf = StrBuf::<0>::new();
    assert_eq!(buf.append(""), Ok(()));
    assert_eq!(buf.append("x"), Err(CapacityExceeded));
    assert_eq!(buf.as_str(), "");
}

#[test]
fn multibyte_fragment_is_all_or_nothing() {
    let mut buf = StrBuf::<3>::new();
    assert_eq!(buf.append("é"), Ok(()));
    assert_eq!(buf.len(), 2);
    assert_eq!(buf.append("é"), Err(CapacityExceeded));
    assert_eq!(buf.len(), 2);
    assert_eq!(buf.as_str(), "é");
    assert_eq!(buf.append("a"), Ok(()));
    assert_eq!(buf.as_str(), "éa");
}

#[test]
fn text_never_ends_inside_a_character() {
    let mut buf = StrBuf::<5>::new();
    buf.append("ab").unwrap();
    assert_eq!(buf.append("€x"), Err(CapacityExceeded));
    assert_eq!(buf.append("€"), Ok(()));
    assert_eq!(buf.as_str(), "ab€");
    assert!(core::str::from_utf8(buf.as_str().as_bytes()).is_ok());
}

#[test]
fn length_never_decreases() {
    let mut buf = StrBuf::<10>::new();
    let mut last = 0;
    for part in ["abc", "defgh", "ijk", "", "ij", "x"] {
        let _ = buf.append(part);
        assert!(buf.len() >= last);
        last = buf.len();
    }
    assert_eq!(buf.as_str(), "abcdefghij");
}

#[test]
fn accepted_lengths_add_up_to_length() {
    let mut buf = StrBuf::<7>::new();
    let mut accepted = 0;
    for part in ["abcd", "efgh", "ef", "g", "h"] {
        if buf.append(part).is_ok() {
            accepted += part.len();
        }
    }
    assert_eq!(accepted, 7);
    assert_eq!(buf.len(), 7);
    assert_eq!(buf.as_str(), "abcdefg");
}

#[test]
fn display_matches_standard_rendering() {
    let buf = StrBuf::<16>::display(-12345i32).unwrap();
    assert_eq!(buf.as_str(), (-12345i32).to_string());
    let buf = StrBuf::<8>::display(23.5f64).unwrap();
    assert_eq!(buf.as_str(), "23.5");
}

#[test]
fn display_exact_fit() {
    let buf = StrBuf::<6>::display(123456u32).unwrap();
    assert_eq!(buf.as_str(), "123456");
    assert!(StrBuf::<5>::display(123456u32).is_err());
}

#[test]
fn deref_gives_text() {
    let buf = StrBuf::<16>::display("abc").unwrap();
    let text: &str = &buf;
    assert_eq!(text, "abc");
    assert_eq!(buf.len(), 3);
    assert!(buf.starts_with("ab"));
}

#[test]
fn copies_are_independent() {
    let mut a = StrBuf::<8>::new();
    a.append("one").unwrap();
    let b = a;
    a.append("two").unwrap();
    assert_eq!(a.as_str(), "onetwo");
    assert_eq!(b.as_str(), "one");
}

#[test]
fn display_fills_exactly() {
    let buf = StrBuf::<5>::display("abcde").unwrap();
    assert_eq!(buf.as_str(), "abcde");
    assert_eq!(buf.len(), 5);
}

#[test]
fn display_never_splits_a_character() {
    assert!(StrBuf::<2>::display("aé").is_err());
    assert_eq!(StrBuf::<3>::display("aé").unwrap().as_str(), "aé");
}

#[test]
fn display_hello_world_capacity_edges() {
    let text = format!("Hello, {}!", "world");
    let buf = StrBuf::<13>::display(&text).unwrap();
    assert_eq!(&*buf, "Hello, world!");
    assert_eq!(buf.len(), 13);
    assert!(StrBuf::<12>::display(&text).is_err());
}

#[test]
fn larger_capacity_keeps_the_text() {
    let small = StrBuf::<6>::display(-4711i64).unwrap();
    let large = StrBuf::<64>::display(-4711i64).unwrap();
    assert_eq!(small.as_str(), "-4711");
    assert_eq!(large.as_str(), small.as_str());
}

struct FailingValue;

impl core::fmt::Display for FailingValue {
    fn fmt(&self, _f: &mut core::fmt::Formatter<'_>) -> core::fmt::Result {
        Err(core::fmt::Error)
    }
}

#[test]
fn display_passes_on_a_failed_rendering() {
    assert!(StrBuf::<64>::display(FailingValue).is_err());
}
