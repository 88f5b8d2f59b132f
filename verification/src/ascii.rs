//! Byte constants, byte classes and the two primitive scans every token
//! producer is built from: the end of a run of bytes of one class, and the
//! comparison of a byte range with a keyword.

use vstd::prelude::*;
use vstd::string::StringSliceAdditionalSpecFns;

verus! {

pub const TAB: u8 = 0x09;
pub const LINE_FEED: u8 = 0x0a;
pub const FORM_FEED: u8 = 0x0c;
pub const CARRIAGE_RETURN: u8 = 0x0d;
pub const SPACE: u8 = 0x20;
pub const BANG: u8 = 0x21;
pub const DOUBLE_QUOTE: u8 = 0x22;
pub const HASH: u8 = 0x23;
pub const DOLLAR: u8 = 0x24;
pub const AMPERSAND: u8 = 0x26;
pub const SINGLE_QUOTE: u8 = 0x27;
pub const OPEN_PAREN: u8 = 0x28;
pub const CLOSE_PAREN: u8 = 0x29;
pub const STAR: u8 = 0x2a;
pub const COMMA: u8 = 0x2c;
pub const DASH: u8 = 0x2d;
pub const DOT: u8 = 0x2e;
pub const SLASH: u8 = 0x2f;
pub const DIGIT_0: u8 = 0x30;
pub const DIGIT_9: u8 = 0x39;
pub const COLON: u8 = 0x3a;
pub const SEMICOLON: u8 = 0x3b;
pub const LESS_THAN: u8 = 0x3c;
pub const EQUALS: u8 = 0x3d;
pub const GREATER_THAN: u8 = 0x3e;
pub const AT: u8 = 0x40;
pub const UPPER_A: u8 = 0x41;
pub const UPPER_F: u8 = 0x46;
pub const UPPER_X: u8 = 0x58;
pub const UPPER_Z: u8 = 0x5a;
pub const OPEN_BRACKET: u8 = 0x5b;
pub const BACKSLASH: u8 = 0x5c;
pub const CLOSE_BRACKET: u8 = 0x5d;
pub const UNDERSCORE: u8 = 0x5f;
pub const BACKTICK: u8 = 0x60;
pub const LOWER_A: u8 = 0x61;
pub const LOWER_F: u8 = 0x66;
pub const LOWER_X: u8 = 0x78;
pub const LOWER_Z: u8 = 0x7a;
pub const OPEN_BRACE: u8 = 0x7b;
pub const PIPE: u8 = 0x7c;
pub const CLOSE_BRACE: u8 = 0x7d;

/// A set of bytes that a run may be made of.
#[derive(Clone, Copy, PartialEq, Eq, Debug, Structural)]
pub enum ByteClass {
    /// ASCII whitespace: space, tab, line feed, form feed, carriage return.
    Space,
    /// ASCII letters.
    Alpha,
    /// ASCII decimal digits.
    Digit,
    /// ASCII hexadecimal digits.
    HexDigit,
    /// ASCII letters and decimal digits.
    AlphaNumeric,
    /// Bytes of a tag name: letters, digits, `-`, `_`, `.` and `:`.
    TagName,
    /// Bytes of one part of a tag name: anything but `.` and `:`.
    NamePart,
    /// Bytes of an attribute name: anything but whitespace, `=`, `>` and `/`.
    AttributeName,
    /// Bytes that cannot open anything in character data: anything but `<`
    /// and `&`, and, where `braces` is set, anything but `{` as well.
    Text { braces: bool },
    /// Bytes that continue escapable raw text: anything but `<` and `&`.
    EscapableText,
    /// Bytes of the literal parts of a quoted attribute value: anything but
    /// the quote, and, where `braces` is set, anything but `{` as well.
    QuotedText { quote: u8, braces: bool },
    /// Any byte other than the given one.
    Except(u8),
}

pub open spec fn spec_is_space(b: u8) -> bool {
    b == SPACE || b == TAB || b == LINE_FEED || b == FORM_FEED || b == CARRIAGE_RETURN
}

pub open spec fn spec_is_alpha(b: u8) -> bool {
    (LOWER_A <= b && b <= LOWER_Z) || (UPPER_A <= b && b <= UPPER_Z)
}

pub open spec fn spec_is_digit(b: u8) -> bool {
    DIGIT_0 <= b && b <= DIGIT_9
}

pub open spec fn spec_is_hex_digit(b: u8) -> bool {
    spec_is_digit(b) || (LOWER_A <= b && b <= LOWER_F) || (UPPER_A <= b && b <= UPPER_F)
}

/// Membership of a byte in a class.
pub open spec fn spec_in_class(class: ByteClass, b: u8) -> bool {
    match class {
        ByteClass::Space => spec_is_space(b),
        ByteClass::Alpha => spec_is_alpha(b),
        ByteClass::Digit => spec_is_digit(b),
        ByteClass::HexDigit => spec_is_hex_digit(b),
        ByteClass::AlphaNumeric => spec_is_alpha(b) || spec_is_digit(b),
        ByteClass::TagName => spec_is_alpha(b) || spec_is_digit(b) || b == DASH || b
            == UNDERSCORE || b == DOT || b == COLON,
        ByteClass::NamePart => b != DOT && b != COLON,
        ByteClass::AttributeName => !spec_is_space(b) && b != EQUALS && b != GREATER_THAN && b
            != SLASH,
        ByteClass::Text { braces } => b != LESS_THAN && b != AMPERSAND && !(braces && b
            == OPEN_BRACE),
        ByteClass::EscapableText => b != LESS_THAN && b != AMPERSAND,
        ByteClass::QuotedText { quote, braces } => b != quote && !(braces && b == OPEN_BRACE),
        ByteClass::Except(x) => b != x,
    }
}

/// The ASCII lower-case form of a byte; bytes that are no upper-case letter
/// stay as they are.
pub open spec fn spec_lower(b: u8) -> u8 {
    if UPPER_A <= b && b <= UPPER_Z {
        (b + 32) as u8
    } else {
        b
    }
}

/// A byte sequence with every byte in lower case.
pub open spec fn spec_lower_seq(s: Seq<u8>) -> Seq<u8> {
    Seq::new(s.len(), |i: int| spec_lower(s[i]))
}

/// The end of the longest run of bytes of `class` that starts at `from` and
/// stays below `limit`.
pub open spec fn spec_run_end(buf: Seq<u8>, from: int, limit: int, class: ByteClass) -> int
    decreases limit - from,
{
    if 0 <= from < limit && limit <= buf.len() && spec_in_class(class, buf[from]) {
        spec_run_end(buf, from + 1, limit, class)
    } else {
        from
    }
}

/// `spec_run_end` is the one position that ends the run: every byte before
/// it is in the class, and the byte at it, if it lies below the limit, is not.
pub proof fn lemma_run_end(buf: Seq<u8>, from: int, limit: int, class: ByteClass)
    requires
        0 <= from <= limit <= buf.len(),
    ensures
        from <= spec_run_end(buf, from, limit, class) <= limit,
        forall|j: int|
            from <= j < spec_run_end(buf, from, limit, class) ==> spec_in_class(
                class,
                #[trigger] buf[j],
            ),
        spec_run_end(buf, from, limit, class) < limit ==> !spec_in_class(
            class,
            buf[spec_run_end(buf, from, limit, class)],
        ),
    decreases limit - from,
{
    if from < limit && spec_in_class(class, buf[from]) {
        lemma_run_end(buf, from + 1, limit, class);
    }
}

/// Any position that ends the run in the sense of `lemma_run_end` is
/// `spec_run_end`.
pub proof fn lemma_run_end_unique(buf: Seq<u8>, from: int, limit: int, class: ByteClass, e: int)
    requires
        0 <= from <= e <= limit <= buf.len(),
        forall|j: int| from <= j < e ==> spec_in_class(class, #[trigger] buf[j]),
        e < limit ==> !spec_in_class(class, buf[e]),
    ensures
        spec_run_end(buf, from, limit, class) == e,
    decreases e - from,
{
    if from < e {
        assert(spec_in_class(class, buf[from]));
        lemma_run_end_unique(buf, from + 1, limit, class, e);
    }
}

/// The end of the range `[start, end)` once the whitespace that ends it is
/// dropped.
pub open spec fn spec_trim_end(buf: Seq<u8>, start: int, end: int) -> int
    decreases end - start,
{
    if 0 <= start < end <= buf.len() && spec_is_space(buf[end - 1]) {
        spec_trim_end(buf, start, end - 1)
    } else {
        end
    }
}

/// `spec_trim_end` drops exactly the whitespace that ends the range: what it
/// drops is whitespace, and what is left is empty or ends in another byte.
pub proof fn lemma_trim_end(buf: Seq<u8>, start: int, end: int)
    requires
        0 <= start <= end <= buf.len(),
    ensures
        start <= spec_trim_end(buf, start, end) <= end,
        forall|j: int|
            spec_trim_end(buf, start, end) <= j < end ==> spec_is_space(#[trigger] buf[j]),
        spec_trim_end(buf, start, end) > start ==> !spec_is_space(
            buf[spec_trim_end(buf, start, end) - 1],
        ),
    decreases end - start,
{
    if start < end && spec_is_space(buf[end - 1]) {
        lemma_trim_end(buf, start, end - 1);
    }
}

pub fn is_space(b: u8) -> (r: bool)
    ensures
        r == spec_is_space(b),
{
    b == SPACE || b == TAB || b == LINE_FEED || b == FORM_FEED || b == CARRIAGE_RETURN
}

pub fn is_alpha(b: u8) -> (r: bool)
    ensures
        r == spec_is_alpha(b),
{
    (LOWER_A <= b && b <= LOWER_Z) || (UPPER_A <= b && b <= UPPER_Z)
}

pub fn is_digit(b: u8) -> (r: bool)
    ensures
        r == spec_is_digit(b),
{
    DIGIT_0 <= b && b <= DIGIT_9
}

pub fn is_hex_digit(b: u8) -> (r: bool)
    ensures
        r == spec_is_hex_digit(b),
{
    is_digit(b) || (LOWER_A <= b && b <= LOWER_F) || (UPPER_A <= b && b <= UPPER_F)
}

pub fn in_class(class: ByteClass, b: u8) -> (r: bool)
    ensures
        r == spec_in_class(class, b),
{
    match class {
        ByteClass::Space => is_space(b),
        ByteClass::Alpha => is_alpha(b),
        ByteClass::Digit => is_digit(b),
        ByteClass::HexDigit => is_hex_digit(b),
        ByteClass::AlphaNumeric => is_alpha(b) || is_digit(b),
        ByteClass::TagName => is_alpha(b) || is_digit(b) || b == DASH || b == UNDERSCORE || b
            == DOT || b == COLON,
        ByteClass::NamePart => b != DOT && b != COLON,
        ByteClass::AttributeName => !is_space(b) && b != EQUALS && b != GREATER_THAN && b
            != SLASH,
        ByteClass::Text { braces } => b != LESS_THAN && b != AMPERSAND && !(braces && b
            == OPEN_BRACE),
        ByteClass::EscapableText => b != LESS_THAN && b != AMPERSAND,
        ByteClass::QuotedText { quote, braces } => b != quote && !(braces && b == OPEN_BRACE),
        ByteClass::Except(x) => b != x,
    }
}

pub fn lower(b: u8) -> (r: u8)
    ensures
        r == spec_lower(b),
{
    if UPPER_A <= b && b <= UPPER_Z {
        b + 32
    } else {
        b
    }
}

/// The end of the longest run of bytes of `class` from `from`, below `limit`.
pub fn run_end(buf: &[u8], from: usize, limit: usize, class: ByteClass) -> (e: usize)
    requires
        from <= limit <= buf@.len(),
    ensures
        e == spec_run_end(buf@, from as int, limit as int, class),
        from <= e <= limit,
        forall|j: int| from <= j < e ==> spec_in_class(class, #[trigger] buf@[j]),
        e < limit ==> !spec_in_class(class, buf@[e as int]),
{
    let mut i: usize = from;
    while i < limit && in_class(class, buf[i])
        invariant
            from <= i <= limit <= buf@.len(),
            forall|j: int| from <= j < i ==> spec_in_class(class, #[trigger] buf@[j]),
        decreases limit - i,
    {
        i += 1;
    }
    proof {
        lemma_run_end_unique(buf@, from as int, limit as int, class, i as int);
    }
    i
}

/// The range `[start, end)` without the whitespace that ends it.
pub fn trim_end(buf: &[u8], start: usize, end: usize) -> (e: usize)
    requires
        start <= end <= buf@.len(),
    ensures
        e == spec_trim_end(buf@, start as int, end as int),
        start <= e <= end,
        forall|j: int| e <= j < end ==> spec_is_space(#[trigger] buf@[j]),
        e > start ==> !spec_is_space(buf@[e - 1]),
{
    let mut i: usize = end;
    while i > start && is_space(buf[i - 1])
        invariant
            start <= i <= end <= buf@.len(),
            spec_trim_end(buf@, start as int, end as int) == spec_trim_end(
                buf@,
                start as int,
                i as int,
            ),
        decreases i - start,
    {
        i -= 1;
    }
    proof {
        lemma_trim_end(buf@, start as int, end as int);
    }
    i
}

/// The bytes of `buf` in `[start, end)`; empty where the range is not one.
pub open spec fn spec_slice(buf: Seq<u8>, start: int, end: int) -> Seq<u8> {
    if 0 <= start <= end <= buf.len() {
        buf.subrange(start, end)
    } else {
        Seq::empty()
    }
}

/// Whether the bytes in `[start, end)` are exactly the keyword's.
pub open spec fn spec_is_word(buf: Seq<u8>, start: int, end: int, word: &str) -> bool {
    0 <= start <= end <= buf.len() && buf.subrange(start, end) == word.spec_bytes()
}

/// Whether the keyword stands at `at` and ends at or below `limit`.
pub open spec fn spec_word_at(buf: Seq<u8>, at: int, limit: int, word: &str) -> bool {
    0 <= at && at + word.spec_bytes().len() <= limit <= buf.len() && buf.subrange(
        at,
        at + word.spec_bytes().len(),
    ) == word.spec_bytes()
}

/// Whether the keyword stands at `at`, below `limit`, where upper-case
/// letters of `buf` count as their lower-case forms.
pub open spec fn spec_word_at_ignoring_case(buf: Seq<u8>, at: int, limit: int, word: Seq<u8>) -> bool {
    0 <= at && at + word.len() <= limit <= buf.len() && spec_lower_seq(
        buf.subrange(at, at + word.len()),
    ) == spec_lower_seq(word)
}

/// The first position from `from` on at which the keyword stands; the
/// length of the input where it stands nowhere.
pub open spec fn spec_find_word(buf: Seq<u8>, from: int, word: &str) -> int
    decreases buf.len() - from,
{
    if from < 0 || from >= buf.len() {
        buf.len() as int
    } else if spec_word_at(buf, from, buf.len() as int, word) {
        from
    } else {
        spec_find_word(buf, from + 1, word)
    }
}

/// `spec_find_word` is the first position of the keyword: it stands there,
/// and nowhere between `from` and there.
pub proof fn lemma_find_word(buf: Seq<u8>, from: int, word: &str)
    requires
        0 <= from <= buf.len(),
    ensures
        from <= spec_find_word(buf, from, word) <= buf.len(),
        spec_find_word(buf, from, word) < buf.len() ==> spec_word_at(
            buf,
            spec_find_word(buf, from, word),
            buf.len() as int,
            word,
        ),
        forall|j: int|
            from <= j < spec_find_word(buf, from, word) ==> !spec_word_at(
                buf,
                j,
                buf.len() as int,
                word,
            ),
    decreases buf.len() - from,
{
    if from < buf.len() && !spec_word_at(buf, from, buf.len() as int, word) {
        lemma_find_word(buf, from + 1, word);
    }
}

/// Whether the keyword stands at `at` and ends at or below `limit`.
pub fn word_at(buf: &[u8], at: usize, limit: usize, word: &str) -> (r: bool)
    requires
        at <= limit <= buf@.len(),
    ensures
        r == spec_word_at(buf@, at as int, limit as int, word),
{
    let w = word.as_bytes();
    if w.len() > limit - at {
        return false;
    }
    let mut i: usize = 0;
    while i < w.len()
        invariant
            at <= limit <= buf@.len(),
            w@ == word.spec_bytes(),
            w@.len() <= limit - at,
            i <= w@.len(),
            forall|j: int| 0 <= j < i ==> buf@[at + j] == w@[j],
        decreases w@.len() - i,
    {
        if buf[at + i] != w[i] {
            assert(buf@.subrange(at as int, at + w@.len())[i as int] != w@[i as int]);
            return false;
        }
        i += 1;
    }
    assert(buf@.subrange(at as int, at + w@.len()) =~= w@);
    true
}

/// Whether the bytes in `[start, end)` are exactly the keyword's.
pub fn is_word(buf: &[u8], start: usize, end: usize, word: &str) -> (r: bool)
    requires
        start <= end <= buf@.len(),
    ensures
        r == spec_is_word(buf@, start as int, end as int, word),
{
    let w = word.as_bytes();
    if w.len() != end - start {
        return false;
    }
    word_at(buf, start, end, word)
}

/// Whether `word` stands at `at`, below `limit`, ignoring ASCII case.
pub fn word_at_ignoring_case(buf: &[u8], at: usize, limit: usize, word: &[u8]) -> (r: bool)
    requires
        at <= limit <= buf@.len(),
    ensures
        r == spec_word_at_ignoring_case(buf@, at as int, limit as int, word@),
{
    if word.len() > limit - at {
        return false;
    }
    let mut i: usize = 0;
    while i < word.len()
        invariant
            at <= limit <= buf@.len(),
            word@.len() <= limit - at,
            i <= word@.len(),
            forall|j: int| 0 <= j < i ==> spec_lower(buf@[at + j]) == spec_lower(word@[j]),
        decreases word@.len() - i,
    {
        if lower(buf[at + i]) != lower(word[i]) {
            assert(spec_lower_seq(buf@.subrange(at as int, at + word@.len()))[i as int]
                != spec_lower_seq(word@)[i as int]);
            return false;
        }
        i += 1;
    }
    assert(spec_lower_seq(buf@.subrange(at as int, at + word@.len())) =~= spec_lower_seq(word@));
    true
}

/// The first position from `from` on at which the keyword stands; the
/// length of the input where it stands nowhere.
pub fn find_word(buf: &[u8], from: usize, word: &str) -> (at: usize)
    requires
        from <= buf@.len(),
    ensures
        at == spec_find_word(buf@, from as int, word),
        from <= at <= buf@.len(),
        at < buf@.len() ==> spec_word_at(buf@, at as int, buf@.len() as int, word),
{
    let len = buf.len();
    let mut i: usize = from;
    while i < len && !word_at(buf, i, len, word)
        invariant
            from <= i <= len,
            len == buf@.len(),
            spec_find_word(buf@, from as int, word) == spec_find_word(buf@, i as int, word),
        decreases len - i,
    {
        i += 1;
    }
    i
}

} // verus!
