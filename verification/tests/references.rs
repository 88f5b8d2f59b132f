//! Character references.

use markup_scanner::reference::{code_point, reference, MAX_CODE_POINT};
use markup_scanner::token::ReferenceKind;

fn at_start(source: &str) -> Option<(ReferenceKind, usize)> {
    reference(source.as_bytes(), 0)
}

#[test]
fn the_three_forms() {
    assert_eq!(at_start("&amp;"), Some((ReferenceKind::Named, 5)));
    assert_eq!(at_start("&lt;x"), Some((ReferenceKind::Named, 4)));
    assert_eq!(at_start("&frac12;"), Some((ReferenceKind::Named, 8)));
    assert_eq!(at_start("&#60;"), Some((ReferenceKind::Decimal, 5)));
    assert_eq!(at_start("&#0;"), Some((ReferenceKind::Decimal, 4)));
    assert_eq!(at_start("&#x3C;"), Some((ReferenceKind::Hexadecimal, 6)));
    assert_eq!(at_start("&#X3c;rest"), Some((ReferenceKind::Hexadecimal, 6)));
    assert_eq!(at_start("&#xabcdefABCDEF0123456789;"), Some((ReferenceKind::Hexadecimal, 26)));
}

#[test]
fn what_is_no_reference() {
    for source in [
        "&", "&;", "&amp", "&amp ;", "& amp;", "&1a;", "&a-b;", "&#;", "&#x;", "&#", "&#x",
        "&#12", "&#x1f", "&#12a;", "&#x1g;", "&#-1;", "&#xx1;", "&# 1;", "&&amp;",
    ] {
        assert_eq!(at_start(source), None, "{:?}", source);
        assert_eq!(code_point(source.as_bytes(), 0), None, "{:?}", source);
    }
}

#[test]
fn a_reference_may_start_anywhere() {
    assert_eq!(reference(b"a&b;c", 1), Some((ReferenceKind::Named, 4)));
    assert_eq!(reference(b"a&b;c", 0), None);
    assert_eq!(reference(b"a&b;c", 4), None);
}

#[test]
fn code_points_of_numeric_references() {
    assert_eq!(code_point(b"&#60;", 0), Some(60));
    assert_eq!(code_point(b"&#x3C;", 0), Some(0x3c));
    assert_eq!(code_point(b"&#X3c;", 0), Some(0x3c));
    assert_eq!(code_point(b"&#0;", 0), Some(0));
    assert_eq!(code_point(b"&#000065;", 0), Some(65));
    assert_eq!(code_point(b"&#x0041;", 0), Some(0x41));
    assert_eq!(code_point(b"&#8364;", 0), Some(8364));
    assert_eq!(code_point(b"&#x20AC;", 0), Some(0x20ac));
    assert_eq!(code_point(b"&#xabcdef;", 0), None);
    assert_eq!(code_point(b"&#xAbCd;", 0), Some(0xabcd));
    assert_eq!(code_point(b"x &#128512; y", 2), Some(128512));
    // A named reference has no number.
    assert_eq!(code_point(b"&amp;", 0), None);
    assert_eq!(code_point(b"plain", 0), None);
}

#[test]
fn the_greatest_code_point_is_the_limit() {
    assert_eq!(MAX_CODE_POINT, 0x10ffff);
    assert_eq!(code_point(b"&#1114111;", 0), Some(1114111));
    assert_eq!(code_point(b"&#1114112;", 0), None);
    assert_eq!(code_point(b"&#x10FFFF;", 0), Some(0x10ffff));
    assert_eq!(code_point(b"&#x110000;", 0), None);
    assert_eq!(code_point(b"&#x0010FFFF;", 0), Some(0x10ffff));
    // Far beyond what any machine word holds.
    assert_eq!(code_point(b"&#99999999999999999999999999999999999999999;", 0), None);
    assert_eq!(code_point(b"&#xffffffffffffffffffffffffffffffffffffffff;", 0), None);
    assert_eq!(code_point(b"&#4294967296;", 0), None);
    assert_eq!(code_point(b"&#4294967356;", 0), None);
    assert_eq!(code_point(b"&#x100000041;", 0), None);
}
