//! The arguments of commands: numbers, ranges, names, patterns, dates and credentials.
use crate::bytes;
use crate::bytes::{
    contains_byte, index_from, only_digits, parse_number, AT, BANG, COLON, COMMA, DASH, DOT, GREATER,
    LESS, ZERO,
};
use crate::date;
use crate::text::decode;
use vstd::prelude::*;
use vstd::utf8;

verus! {

/// The largest article number of the protocol.
pub const MAX_ARTICLE_NUMBER: u64 = 2_147_483_647;

/// The most bytes of a command line or of the first line of a response, line end included.
pub const MAX_INITIAL_RESPONSE_LINE_BYTES: usize = 512;

/// A printable ASCII byte other than the space.
pub open spec fn is_graphic(byte: u8) -> bool {
    0x21 <= byte <= 0x7e
}

pub open spec fn is_letter(byte: u8) -> bool {
    65 <= byte <= 90 || 97 <= byte <= 122
}

/// A domain whose dot-separated labels are all nonempty.
pub open spec fn is_domain(text: Seq<u8>) -> bool {
    text.len() > 0 && text[0] != DOT && text.last() != DOT && forall|i: int|
        0 <= i < text.len() - 1 ==> !(#[trigger] text[i] == DOT && text[i + 1] == DOT)
}

/// The part of a message-id between its angle brackets: printable, with one at sign between a
/// nonempty local part and a domain.
pub open spec fn is_message_id_content(text: Seq<u8>) -> bool {
    let at = bytes::find_byte(text, AT, 0);
    &&& forall|i: int|
        0 <= i < text.len() ==> is_graphic(#[trigger] text[i]) && text[i] != LESS && text[i]
            != GREATER
    &&& 0 < at < text.len()
    &&& !bytes::has_byte(text.subrange(at + 1, text.len() as int), AT)
    &&& is_domain(text.subrange(at + 1, text.len() as int))
}

/// A message-id in angle brackets.
pub open spec fn is_message_id(text: Seq<u8>) -> bool {
    text.len() >= 2 && text[0] == LESS && text.last() == GREATER && is_message_id_content(
        text.subrange(1, text.len() - 1),
    )
}

fn check_domain(text: &[u8]) -> (valid: bool)
    ensures
        valid == is_domain(text@),
{
    if text.len() == 0 || text[0] == DOT || text[text.len() - 1] == DOT {
        return false;
    }
    let mut i: usize = 0;
    while i < text.len() - 1
        invariant
            text@.len() > 0,
            i <= text@.len() - 1,
            forall|j: int| 0 <= j < i ==> !(#[trigger] text@[j] == DOT && text@[j + 1] == DOT),
        decreases text@.len() - i,
    {
        if text[i] == DOT && text[i + 1] == DOT {
            return false;
        }
        i = i + 1;
    }
    true
}

pub fn check_message_id(text: &[u8]) -> (valid: bool)
    ensures
        valid == is_message_id(text@),
{
    if text.len() < 2 || text[0] != LESS || text[text.len() - 1] != GREATER {
        return false;
    }
    let content: &[u8] = &text[1..text.len() - 1];
    let mut i: usize = 0;
    while i < content.len()
        invariant
            text@.len() >= 2,
            content@ == text@.subrange(1, text@.len() - 1),
            i <= content@.len(),
            forall|j: int|
                0 <= j < i ==> is_graphic(#[trigger] content@[j]) && content@[j] != LESS
                    && content@[j] != GREATER,
        decreases content@.len() - i,
    {
        let byte: u8 = content[i];
        if byte < 0x21 || byte > 0x7e || byte == LESS || byte == GREATER {
            assert(!(is_graphic(content@[i as int]) && content@[i as int] != LESS
                && content@[i as int] != GREATER));
            return false;
        }
        i = i + 1;
    }
    let at: usize = index_from(content, AT, 0);
    if at == 0 || at >= content.len() {
        return false;
    }
    let domain: &[u8] = &content[at + 1..content.len()];
    !contains_byte(domain, AT) && check_domain(domain)
}

/// A text of ASCII bytes is valid UTF-8.
pub proof fn lemma_ascii_is_utf8(text: Seq<u8>)
    requires
        forall|i: int| 0 <= i < text.len() ==> #[trigger] text[i] < 0x80,
    ensures
        utf8::valid_utf8(text),
    decreases text.len(),
{
    if text.len() > 0 {
        let rest = utf8::pop_first_scalar(text);
        assert(text[0] < 0x80);
        assert(rest =~= text.subrange(1, text.len() as int));
        lemma_ascii_is_utf8(rest);
    }
}

/// A message-id is ASCII, so it is valid UTF-8.
pub proof fn lemma_message_id_is_ascii(text: Seq<u8>)
    requires
        is_message_id(text),
    ensures
        utf8::valid_utf8(text),
{
    let content = text.subrange(1, text.len() - 1);
    assert forall|i: int| 0 <= i < text.len() implies #[trigger] text[i] < 0x80 by {
        if 0 < i < text.len() - 1 {
            assert(is_graphic(content[i - 1]));
        }
    }
    lemma_ascii_is_utf8(text);
}

/// An article number: digits without a leading zero, up to the largest number of the protocol.
pub open spec fn is_article_number(text: Seq<u8>) -> bool {
    text.len() > 0 && bytes::all_digits(text) && text[0] != ZERO && bytes::decimal_value(text)
        <= MAX_ARTICLE_NUMBER
}

pub fn check_article_number(text: &[u8]) -> (valid: bool)
    ensures
        valid == is_article_number(text@),
{
    if text.len() == 0 || !only_digits(text) || text[0] == ZERO {
        return false;
    }
    proof {
        assert(bytes::is_digit(text@[0]));
        assert(bytes::unsigned_digits(text@) == text@);
        bytes::lemma_decimal_nonnegative(text@);
    }
    match parse_number(text) {
        Some(value) => value <= MAX_ARTICLE_NUMBER,
        None => false,
    }
}

/// An article number, or two with a dash between them, or one with a dash after it.
pub open spec fn is_article_range(text: Seq<u8>) -> bool {
    let dash = bytes::find_byte(text, DASH, 0);
    if dash >= text.len() {
        is_article_number(text)
    } else {
        is_article_number(text.subrange(0, dash)) && (dash + 1 == text.len() || is_article_number(
            text.subrange(dash + 1, text.len() as int),
        ))
    }
}

pub fn check_article_range(text: &[u8]) -> (valid: bool)
    ensures
        valid == is_article_range(text@),
{
    let dash: usize = index_from(text, DASH, 0);
    if dash >= text.len() {
        check_article_number(text)
    } else {
        check_article_number(&text[0..dash]) && (dash + 1 == text.len() || check_article_number(
            &text[dash + 1..text.len()],
        ))
    }
}

/// An article range or a message-id.
pub open spec fn is_article_selector(text: Seq<u8>) -> bool {
    is_article_range(text) || is_message_id(text)
}

pub fn check_article_selector(text: &[u8]) -> (valid: bool)
    ensures
        valid == is_article_selector(text@),
{
    check_article_range(text) || check_message_id(text)
}

/// A byte of a newsgroup name: a letter, a digit, a plus sign, a dash, a dot, an underscore or a
/// byte of a character beyond ASCII.
pub open spec fn is_group_byte(byte: u8) -> bool {
    is_letter(byte) || bytes::is_digit(byte) || byte == 43 || byte == 45 || byte == 46 || byte == 95
        || byte >= 0x80
}

pub open spec fn is_group_name(text: Seq<u8>) -> bool {
    text.len() > 0 && utf8::valid_utf8(text) && forall|i: int|
        0 <= i < text.len() ==> is_group_byte(#[trigger] text[i])
}

pub fn check_group_name(text: &[u8]) -> (valid: bool)
    ensures
        valid == is_group_name(text@),
{
    if text.len() == 0 || decode(text).is_none() {
        return false;
    }
    let mut i: usize = 0;
    while i < text.len()
        invariant
            i <= text@.len(),
            forall|j: int| 0 <= j < i ==> is_group_byte(#[trigger] text@[j]),
        decreases text@.len() - i,
    {
        let byte: u8 = text[i];
        if !((65 <= byte && byte <= 90) || (97 <= byte && byte <= 122) || (48 <= byte && byte <= 57)
            || byte == 43 || byte == 45 || byte == 46 || byte == 95 || byte >= 0x80) {
            assert(!is_group_byte(text@[i as int]));
            return false;
        }
        i = i + 1;
    }
    true
}

/// Digits and dashes only: such an argument of `LISTGROUP` is a range, never a name.
pub open spec fn looks_like_range(text: Seq<u8>) -> bool {
    forall|i: int| 0 <= i < text.len() ==> bytes::is_digit(#[trigger] text[i]) || text[i] == DASH
}

pub fn check_looks_like_range(text: &[u8]) -> (only: bool)
    ensures
        only == looks_like_range(text@),
{
    let mut i: usize = 0;
    while i < text.len()
        invariant
            i <= text@.len(),
            forall|j: int|
                0 <= j < i ==> bytes::is_digit(#[trigger] text@[j]) || text@[j] == DASH,
        decreases text@.len() - i,
    {
        let byte: u8 = text[i];
        if !((48 <= byte && byte <= 57) || byte == DASH) {
            assert(!(bytes::is_digit(text@[i as int]) || text@[i as int] == DASH));
            return false;
        }
        i = i + 1;
    }
    true
}

/// A byte of a wildmat pattern after its negation mark.
pub open spec fn is_pattern_byte(byte: u8) -> bool {
    (is_graphic(byte) && byte != BANG && byte != COMMA && byte != 91 && byte != 92 && byte != 93)
        || byte >= 0x80
}

/// Nonempty patterns with commas between them, each with an exclamation mark before it or none.
pub open spec fn is_wildmat(text: Seq<u8>) -> bool {
    &&& text.len() > 0
    &&& utf8::valid_utf8(text)
    &&& is_pattern_byte(text.last())
    &&& forall|i: int|
        0 <= i < text.len() ==> {
            ||| is_pattern_byte(#[trigger] text[i])
            ||| text[i] == COMMA && i > 0 && is_pattern_byte(text[i - 1])
            ||| text[i] == BANG && (i == 0 || text[i - 1] == COMMA)
        }
}

fn check_pattern_byte(byte: u8) -> (valid: bool)
    ensures
        valid == is_pattern_byte(byte),
{
    (byte >= 0x21 && byte <= 0x7e && byte != BANG && byte != COMMA && byte != 91 && byte != 92
        && byte != 93) || byte >= 0x80
}

pub fn check_wildmat(text: &[u8]) -> (valid: bool)
    ensures
        valid == is_wildmat(text@),
{
    if text.len() == 0 || decode(text).is_none() || !check_pattern_byte(text[text.len() - 1]) {
        return false;
    }
    let mut i: usize = 0;
    while i < text.len()
        invariant
            i <= text@.len(),
            forall|j: int|
                0 <= j < i ==> {
                    ||| is_pattern_byte(#[trigger] text@[j])
                    ||| text@[j] == COMMA && j > 0 && is_pattern_byte(text@[j - 1])
                    ||| text@[j] == BANG && (j == 0 || text@[j - 1] == COMMA)
                },
        decreases text@.len() - i,
    {
        let byte: u8 = text[i];
        let fits: bool = check_pattern_byte(byte) || (byte == COMMA && i > 0 && check_pattern_byte(
            text[i - 1],
        )) || (byte == BANG && (i == 0 || text[i - 1] == COMMA));
        if !fits {
            assert(text@[i as int] == byte);
            return false;
        }
        i = i + 1;
    }
    true
}

/// Two digits of a text as a number.
pub open spec fn pair(text: Seq<u8>, at: int) -> int {
    (text[at] - 48) * 10 + (text[at + 1] - 48)
}

/// `yymmdd` or `yyyymmdd` with a day that the calendar has, from the year 1900 on. A two-digit
/// year is a leap year when four divides it.
pub open spec fn is_nntp_date(text: Seq<u8>) -> bool {
    &&& bytes::all_digits(text)
    &&& {
        ||| text.len() == 8 && pair(text, 0) >= 19 && date::is_date(
            pair(text, 0) * 100 + pair(text, 2),
            pair(text, 4),
            pair(text, 6),
        )
        ||| text.len() == 6 && date::is_date(2000 + pair(text, 0), pair(text, 2), pair(text, 4))
    }
}

fn pair_at(text: &[u8], at: usize) -> (number: u32)
    requires
        at + 1 < text@.len(),
        bytes::all_digits(text@),
    ensures
        number == pair(text@, at as int),
        number <= 99,
{
    assert(bytes::is_digit(text@[at as int]));
    assert(bytes::is_digit(text@[at + 1]));
    (text[at] - 48) as u32 * 10 + (text[at + 1] - 48) as u32
}

fn check_date(year: u32, month: u32, day: u32) -> (valid: bool)
    requires
        year <= 9_999,
    ensures
        valid == date::is_date(year as int, month as int, day as int),
{
    if month < 1 || month > 12 || day < 1 {
        return false;
    }
    let leap: bool = year % 4 == 0 && (year % 100 != 0 || year % 400 == 0);
    let last: u32 = if month == 2 {
        if leap {
            29
        } else {
            28
        }
    } else if month == 4 || month == 6 || month == 9 || month == 11 {
        30
    } else {
        31
    };
    day <= last
}

pub fn check_nntp_date(text: &[u8]) -> (valid: bool)
    ensures
        valid == is_nntp_date(text@),
{
    if !only_digits(text) {
        return false;
    }
    if text.len() == 8 {
        let century: u32 = pair_at(text, 0);
        century >= 19 && check_date(
            century * 100 + pair_at(text, 2),
            pair_at(text, 4),
            pair_at(text, 6),
        )
    } else if text.len() == 6 {
        check_date(2000 + pair_at(text, 0), pair_at(text, 2), pair_at(text, 4))
    } else {
        false
    }
}

/// `hhmmss`, with a second up to the leap second.
pub open spec fn is_nntp_time(text: Seq<u8>) -> bool {
    bytes::all_digits(text) && text.len() == 6 && pair(text, 0) <= 23 && pair(text, 2) <= 59
        && pair(text, 4) <= 60
}

pub fn check_nntp_time(text: &[u8]) -> (valid: bool)
    ensures
        valid == is_nntp_time(text@),
{
    only_digits(text) && text.len() == 6 && pair_at(text, 0) <= 23 && pair_at(text, 2) <= 59
        && pair_at(text, 4) <= 60
}

/// A header field name: printable without a colon, but for one before the name of a metadata
/// item.
pub open spec fn is_header_name(text: Seq<u8>) -> bool {
    &&& text.len() > 0
    &&& (text[0] == COLON ==> text.len() > 1)
    &&& forall|i: int|
        0 <= i < text.len() ==> is_graphic(#[trigger] text[i]) && (text[i] == COLON ==> i == 0)
}

pub fn check_header_name(text: &[u8]) -> (valid: bool)
    ensures
        valid == is_header_name(text@),
{
    if text.len() == 0 || (text[0] == COLON && text.len() == 1) {
        return false;
    }
    let mut i: usize = 0;
    while i < text.len()
        invariant
            i <= text@.len(),
            forall|j: int|
                0 <= j < i ==> is_graphic(#[trigger] text@[j]) && (text@[j] == COLON ==> j == 0),
        decreases text@.len() - i,
    {
        let byte: u8 = text[i];
        if byte < 0x21 || byte > 0x7e || (byte == COLON && i != 0) {
            assert(!(is_graphic(text@[i as int]) && (text@[i as int] == COLON ==> i == 0)));
            return false;
        }
        i = i + 1;
    }
    true
}

/// A user name or a password: nonempty, without spaces and control characters.
pub open spec fn is_auth_value(text: Seq<u8>) -> bool {
    text.len() > 0 && forall|i: int|
        0 <= i < text.len() ==> #[trigger] text[i] >= 0x21 && text[i] != 0x7f
}

pub fn check_auth_value(text: &[u8]) -> (valid: bool)
    ensures
        valid == is_auth_value(text@),
{
    let mut i: usize = 0;
    while i < text.len()
        invariant
            i <= text@.len(),
            forall|j: int| 0 <= j < i ==> #[trigger] text@[j] >= 0x21 && text@[j] != 0x7f,
        decreases text@.len() - i,
    {
        if text[i] < 0x21 || text[i] == 0x7f {
            assert(!(text@[i as int] >= 0x21 && text@[i as int] != 0x7f));
            return false;
        }
        i = i + 1;
    }
    text.len() > 0
}

/// A capability keyword: a letter, then two or more letters, digits, dots and dashes.
pub open spec fn is_keyword(text: Seq<u8>) -> bool {
    text.len() >= 3 && is_letter(text[0]) && forall|i: int|
        0 <= i < text.len() ==> is_letter(#[trigger] text[i]) || bytes::is_digit(text[i]) || text[i]
            == DOT || text[i] == DASH
}

fn check_letter(byte: u8) -> (valid: bool)
    ensures
        valid == is_letter(byte),
{
    (65 <= byte && byte <= 90) || (97 <= byte && byte <= 122)
}

pub fn check_keyword(text: &[u8]) -> (valid: bool)
    ensures
        valid == is_keyword(text@),
{
    if text.len() < 3 || !check_letter(text[0]) {
        return false;
    }
    let mut i: usize = 0;
    while i < text.len()
        invariant
            i <= text@.len(),
            forall|j: int|
                0 <= j < i ==> is_letter(#[trigger] text@[j]) || bytes::is_digit(text@[j])
                    || text@[j] == DOT || text@[j] == DASH,
        decreases text@.len() - i,
    {
        let byte: u8 = text[i];
        if !(check_letter(byte) || (48 <= byte && byte <= 57) || byte == DOT || byte == DASH) {
            assert(text@[i as int] == byte);
            return false;
        }
        i = i + 1;
    }
    true
}

/// The name of a SASL mechanism: up to twenty capital letters, digits, dashes and underscores.
pub open spec fn is_sasl_mechanism(text: Seq<u8>) -> bool {
    1 <= text.len() <= 20 && forall|i: int|
        0 <= i < text.len() ==> 65 <= #[trigger] text[i] <= 90 || bytes::is_digit(text[i])
            || text[i] == DASH || text[i] == 95
}

pub fn check_sasl_mechanism(text: &[u8]) -> (valid: bool)
    ensures
        valid == is_sasl_mechanism(text@),
{
    if text.len() < 1 || text.len() > 20 {
        return false;
    }
    let mut i: usize = 0;
    while i < text.len()
        invariant
            i <= text@.len(),
            forall|j: int|
                0 <= j < i ==> 65 <= #[trigger] text@[j] <= 90 || bytes::is_digit(text@[j])
                    || text@[j] == DASH || text@[j] == 95,
        decreases text@.len() - i,
    {
        let byte: u8 = text[i];
        if !((65 <= byte && byte <= 90) || (48 <= byte && byte <= 57) || byte == DASH || byte
            == 95) {
            assert(text@[i as int] == byte);
            return false;
        }
        i = i + 1;
    }
    true
}

/// A character of the base64 alphabet.
pub open spec fn is_base64_byte(byte: u8) -> bool {
    is_letter(byte) || bytes::is_digit(byte) || byte == 43 || byte == 47
}

/// The first of the padding characters at the end of `text`, of which at most two count.
pub open spec fn padding_start(text: Seq<u8>) -> int {
    if text.len() >= 2 && text[text.len() - 2] == 61 && text.last() == 61 {
        text.len() - 2
    } else if text.len() >= 1 && text.last() == 61 {
        text.len() - 1
    } else {
        text.len() as int
    }
}

/// The initial response of a SASL exchange: an equals sign for an empty one, or base64 in groups
/// of four.
pub open spec fn is_sasl_response(text: Seq<u8>) -> bool {
    text == seq![61u8] || (text.len() > 0 && text.len() % 4 == 0 && forall|i: int|
        0 <= i < padding_start(text) ==> is_base64_byte(#[trigger] text[i]))
}

pub fn check_sasl_response(text: &[u8]) -> (valid: bool)
    ensures
        valid == is_sasl_response(text@),
{
    if text.len() == 1 && text[0] == 61 {
        assert(text@ =~= seq![61u8]);
        return true;
    }
    assert(text@ != seq![61u8]) by {
        if text@ == seq![61u8] {
            assert(text@[0] == 61);
        }
    }
    if text.len() == 0 || text.len() % 4 != 0 {
        return false;
    }
    let padding: usize = if text[text.len() - 2] == 61 && text[text.len() - 1] == 61 {
        text.len() - 2
    } else if text[text.len() - 1] == 61 {
        text.len() - 1
    } else {
        text.len()
    };
    let mut i: usize = 0;
    while i < padding
        invariant
            i <= padding <= text@.len(),
            padding == padding_start(text@),
            forall|j: int| 0 <= j < i ==> is_base64_byte(#[trigger] text@[j]),
        decreases padding - i,
    {
        let byte: u8 = text[i];
        if !(check_letter(byte) || (48 <= byte && byte <= 57) || byte == 43 || byte == 47) {
            assert(!is_base64_byte(text@[i as int]));
            return false;
        }
        i = i + 1;
    }
    true
}

/// The article numbers are the decimal texts of the numbers from 1 to the largest of the protocol.
pub proof fn law_article_numbers(text: Seq<u8>, number: nat)
    ensures
        is_article_number(bytes::decimal(number)) <==> 1 <= number <= 2_147_483_647,
        is_article_number(text) ==> text == bytes::decimal(bytes::decimal_value(text) as nat)
            && bytes::decimal_value(text) >= 1,
{
    bytes::lemma_decimal(number);
    if number == 0 {
        assert(bytes::decimal(0)[0] == 48);
    }
    if is_article_number(text) {
        bytes::law_decimal_of_number(text);
    }
}

/// An article range is one article number, or two with a dash between them, or one with a dash
/// behind it.
pub proof fn law_article_ranges(first: u64, last: u64)
    ensures
        is_article_range(bytes::decimal(first as nat)) <==> 1 <= first <= 2_147_483_647,
        is_article_range(bytes::decimal(first as nat) + seq![45u8]) <==> 1 <= first
            <= 2_147_483_647,
        is_article_range(bytes::decimal(first as nat) + seq![45u8] + bytes::decimal(last as nat))
            <==> 1 <= first <= 2_147_483_647 && 1 <= last <= 2_147_483_647,
{
    let start = bytes::decimal(first as nat);
    let end = bytes::decimal(last as nat);
    law_article_numbers(start, first as nat);
    law_article_numbers(end, last as nat);
    bytes::lemma_decimal(first as nat);
    bytes::lemma_decimal(last as nat);
    let at = start.len() as int;
    let open = start + seq![45u8];
    let closed = start + seq![45u8] + end;
    assert forall|i: int| 0 <= i < at implies #[trigger] start[i] != DASH && open[i] != DASH
        && closed[i] != DASH by {
        assert(bytes::is_digit(start[i]));
        assert(open[i] == start[i] && closed[i] == start[i]);
    }
    bytes::lemma_find_byte_is(start, DASH, 0, at);
    assert forall|j: int| 0 <= j < at implies open[j] != DASH by {
        assert(start[j] != DASH);
    }
    bytes::lemma_find_byte_is(open, DASH, 0, at);
    assert forall|j: int| 0 <= j < at implies closed[j] != DASH by {
        assert(start[j] != DASH);
    }
    bytes::lemma_find_byte_is(closed, DASH, 0, at);
    assert(open.subrange(0, at) =~= start);
    assert(closed.subrange(0, at) =~= start);
    assert(closed.subrange(at + 1, closed.len() as int) =~= end);
}

/// A printable byte other than the space, the angle brackets and the at sign.
pub open spec fn is_id_byte(byte: u8) -> bool {
    33 <= byte <= 126 && byte != 60 && byte != 62 && byte != 64
}

/// A message-id is a local part and a domain with an at sign between them, in angle brackets: both of
/// printable bytes, the local part not empty.
pub proof fn law_message_id_parts(local: Seq<u8>, domain: Seq<u8>)
    requires
        forall|i: int| 0 <= i < local.len() ==> #[trigger] local[i] != 64,
    ensures
        is_message_id(seq![60u8] + local + seq![64u8] + domain + seq![62u8]) <==> {
            &&& local.len() > 0
            &&& forall|i: int| 0 <= i < local.len() ==> is_id_byte(#[trigger] local[i])
            &&& forall|i: int| 0 <= i < domain.len() ==> is_id_byte(#[trigger] domain[i])
            &&& is_domain(domain)
        },
{
    let id = seq![60u8] + local + seq![64u8] + domain + seq![62u8];
    let content = local + seq![64u8] + domain;
    let at = local.len() as int;
    assert(id.subrange(1, id.len() - 1) =~= content);
    assert forall|j: int| 0 <= j < at implies content[j] != AT by {
        assert(content[j] == local[j]);
    }
    assert(content[at] == 64);
    bytes::lemma_find_byte_is(content, AT, 0, at);
    assert(content.subrange(at + 1, content.len() as int) =~= domain);
    if is_message_id_content(content) {
        assert forall|i: int| 0 <= i < local.len() implies is_id_byte(#[trigger] local[i]) by {
            assert(content[i] == local[i]);
        }
        assert forall|i: int| 0 <= i < domain.len() implies is_id_byte(#[trigger] domain[i]) by {
            assert(content[at + 1 + i] == domain[i]);
            assert(is_graphic(content[at + 1 + i]));
            if domain[i] == 64 {
                assert(bytes::has_byte(domain, AT));
            }
        }
    }
    if local.len() > 0 && (forall|i: int| 0 <= i < local.len() ==> is_id_byte(#[trigger] local[i]))
        && (forall|i: int| 0 <= i < domain.len() ==> is_id_byte(#[trigger] domain[i])) {
        assert forall|i: int| 0 <= i < content.len() implies is_graphic(#[trigger] content[i])
            && content[i] != LESS && content[i] != GREATER by {
            if i < at {
                assert(is_id_byte(local[i]));
            } else if i > at {
                assert(is_id_byte(domain[i - at - 1]));
                assert(content[i] == domain[i - at - 1]);
            }
        }
        if bytes::has_byte(domain, AT) {
            let i = choose|i: int| 0 <= i < domain.len() && domain[i] == AT;
            assert(is_id_byte(domain[i]));
        }
    }
}

/// A domain is labels with dots between them, none of them empty.
pub proof fn law_domain_is_labels(first: Seq<u8>, rest: Seq<u8>)
    requires
        forall|i: int| 0 <= i < first.len() ==> #[trigger] first[i] != 46,
    ensures
        is_domain(first) <==> first.len() > 0,
        is_domain(first + seq![46u8] + rest) <==> first.len() > 0 && is_domain(rest),
{
    let whole = first + seq![46u8] + rest;
    let at = first.len() as int;
    assert(whole[at] == DOT);
    if first.len() > 0 {
        assert(whole[0] == first[0]);
        assert(first.last() == first[at - 1]);
    }
    if rest.len() > 0 {
        assert(whole.last() == rest.last());
        assert(whole[at + 1] == rest[0]);
    }
    if is_domain(whole) {
        if rest.len() > 0 {
            assert(!(whole[at] == DOT && whole[at + 1] == DOT));
        }
        assert forall|i: int| 0 <= i < rest.len() - 1 implies !(#[trigger] rest[i] == DOT && rest[i
            + 1] == DOT) by {
            assert(whole[at + 1 + i] == rest[i]);
            assert(whole[at + 1 + i + 1] == rest[i + 1]);
        }
    }
    if first.len() > 0 && is_domain(rest) {
        assert forall|i: int| 0 <= i < whole.len() - 1 implies !(#[trigger] whole[i] == DOT
            && whole[i + 1] == DOT) by {
            if i < at {
                assert(whole[i] == first[i]);
            } else if i > at {
                assert(whole[i] == rest[i - at - 1]);
                assert(whole[i + 1] == rest[i - at]);
            }
        }
    }
}

/// A wildmat is patterns with commas between them, each of which is one alone.
pub proof fn law_wildmats_join(first: Seq<u8>, second: Seq<u8>)
    requires
        forall|i: int| 0 <= i < first.len() ==> #[trigger] first[i] < 0x80,
        forall|i: int| 0 <= i < second.len() ==> #[trigger] second[i] < 0x80,
    ensures
        is_wildmat(first + seq![44u8] + second) <==> is_wildmat(first) && is_wildmat(second),
{
    let whole = first + seq![44u8] + second;
    let at = first.len() as int;
    lemma_ascii_is_utf8(first);
    lemma_ascii_is_utf8(second);
    assert forall|i: int| 0 <= i < whole.len() implies #[trigger] whole[i] < 0x80 by {
        if i < at {
            assert(whole[i] == first[i]);
        } else if i > at {
            assert(whole[i] == second[i - at - 1]);
        }
    }
    lemma_ascii_is_utf8(whole);
    assert(whole[at] == COMMA);
    if is_wildmat(whole) {
        assert(at > 0 && is_pattern_byte(whole[at - 1]));
        assert(first.last() == whole[at - 1]);
        assert forall|i: int| 0 <= i < first.len() implies ({
            ||| is_pattern_byte(#[trigger] first[i])
            ||| first[i] == COMMA && i > 0 && is_pattern_byte(first[i - 1])
            ||| first[i] == BANG && (i == 0 || first[i - 1] == COMMA)
        }) by {
            assert(whole[i] == first[i]);
        }
        assert(second.len() > 0);
        assert(second.last() == whole.last());
        assert forall|i: int| 0 <= i < second.len() implies ({
            ||| is_pattern_byte(#[trigger] second[i])
            ||| second[i] == COMMA && i > 0 && is_pattern_byte(second[i - 1])
            ||| second[i] == BANG && (i == 0 || second[i - 1] == COMMA)
        }) by {
            assert(whole[at + 1 + i] == second[i]);
            if i > 0 {
                assert(whole[at + i] == second[i - 1]);
            }
        }
    }
    if is_wildmat(first) && is_wildmat(second) {
        assert(whole.last() == second.last());
        assert forall|i: int| 0 <= i < whole.len() implies ({
            ||| is_pattern_byte(#[trigger] whole[i])
            ||| whole[i] == COMMA && i > 0 && is_pattern_byte(whole[i - 1])
            ||| whole[i] == BANG && (i == 0 || whole[i - 1] == COMMA)
        }) by {
            if i < at {
                assert(whole[i] == first[i]);
                assert(is_pattern_byte(first[i]) || first[i] == COMMA || first[i] == BANG);
            } else if i == at {
                assert(whole[at - 1] == first.last());
            } else {
                assert(whole[i] == second[i - at - 1]);
                assert(is_pattern_byte(second[i - at - 1]) || second[i - at - 1] == COMMA || second[i
                    - at - 1] == BANG);
            }
        }
    }
}

/// One pattern of a wildmat is not empty, may start with an exclamation mark, and has no other, nor
/// brackets, backslashes, spaces or control characters.
pub proof fn law_single_wildmat(text: Seq<u8>)
    requires
        forall|i: int| 0 <= i < text.len() ==> #[trigger] text[i] < 0x80 && text[i] != 44,
    ensures
        is_wildmat(text) <==> {
            let start = if text.len() > 0 && text[0] == 33 {
                1int
            } else {
                0int
            };
            &&& text.len() > start
            &&& forall|i: int|
                start <= i < text.len() ==> 33 < #[trigger] text[i] <= 126 && text[i] != 91
                    && text[i] != 92 && text[i] != 93
        },
{
    lemma_ascii_is_utf8(text);
    let start = if text.len() > 0 && text[0] == 33 {
        1int
    } else {
        0int
    };
    if is_wildmat(text) {
        assert forall|i: int| start <= i < text.len() implies 33 < #[trigger] text[i] <= 126
            && text[i] != 91 && text[i] != 92 && text[i] != 93 by {
            assert(is_pattern_byte(text[i]) || text[i] == COMMA || text[i] == BANG);
            if i > 0 {
                assert(text[i - 1] != 44);
            }
        }
    }
}

/// A date of eight digits is one of the calendar from the year 1900 on; one of six digits is one of
/// this century.
pub proof fn law_nntp_dates(year: int, month: int, day: int)
    requires
        0 <= year < 10_000,
        0 <= month < 100,
        0 <= day < 100,
    ensures
        is_nntp_date(date::four_digits(year) + date::two_digits(month) + date::two_digits(day))
            <==> 1_900 <= year && date::is_date(year, month, day),
        is_nntp_date(date::two_digits(year % 100) + date::two_digits(month) + date::two_digits(day))
            <==> date::is_date(2_000 + year % 100, month, day),
{
    let high = date::two_digits(year / 100);
    let low = date::two_digits(year % 100);
    let (m, d) = (date::two_digits(month), date::two_digits(day));
    let full = date::four_digits(year) + m + d;
    let short = low + m + d;
    date::lemma_two_digits_mod(year);
    lemma_pair(high, year / 100);
    lemma_pair(low, year % 100);
    lemma_pair(m, month);
    lemma_pair(d, day);
    assert(full =~= high + low + m + d);
    assert(pair(full, 0) == pair(high, 0));
    assert(pair(full, 2) == pair(low, 0));
    assert(pair(full, 4) == pair(m, 0));
    assert(pair(full, 6) == pair(d, 0));
    assert(pair(short, 0) == pair(low, 0));
    assert(pair(short, 2) == pair(m, 0));
    assert(pair(short, 4) == pair(d, 0));
    assert(bytes::all_digits(full)) by {
        assert forall|i: int| 0 <= i < full.len() implies bytes::is_digit(#[trigger] full[i]) by {
            if i < 2 {
                assert(full[i] == high[i]);
            } else if i < 4 {
                assert(full[i] == low[i - 2]);
            } else if i < 6 {
                assert(full[i] == m[i - 4]);
            } else {
                assert(full[i] == d[i - 6]);
            }
        }
    }
    assert(bytes::all_digits(short)) by {
        assert forall|i: int| 0 <= i < short.len() implies bytes::is_digit(#[trigger] short[i]) by {
            if i < 2 {
                assert(short[i] == low[i]);
            } else if i < 4 {
                assert(short[i] == m[i - 2]);
            } else {
                assert(short[i] == d[i - 4]);
            }
        }
    }
    assert(year == 100 * (year / 100) + year % 100);
}

/// Two digits as a number.
proof fn lemma_pair(text: Seq<u8>, value: int)
    requires
        0 <= value < 100,
        text == date::two_digits(value),
    ensures
        pair(text, 0) == value,
        text.len() == 2,
        bytes::all_digits(text),
{
    assert(text[0] == 48 + value / 10 && text[1] == 48 + value % 10);
}

/// A time is an hour, a minute and a second of two digits each, with room for a leap second.
pub proof fn law_nntp_times(hour: int, minute: int, second: int)
    requires
        0 <= hour < 100,
        0 <= minute < 100,
        0 <= second < 100,
    ensures
        is_nntp_time(date::two_digits(hour) + date::two_digits(minute) + date::two_digits(second))
            <==> hour < 24 && minute < 60 && second <= 60,
{
    let text = date::two_digits(hour) + date::two_digits(minute) + date::two_digits(second);
    assert(pair(text, 0) == hour);
    assert(pair(text, 2) == minute);
    assert(pair(text, 4) == second);
    assert(bytes::all_digits(text));
}

/// The bytes that names and values may hold: a group name letters, digits, plus signs, dashes, dots
/// and underscores; a header name printable bytes but the colon, which may stand before a
/// metadata item; a user name or a password no spaces and control characters.
pub proof fn law_alphabets(text: Seq<u8>)
    requires
        text.len() > 0,
        forall|i: int| 0 <= i < text.len() ==> #[trigger] text[i] < 0x80,
    ensures
        is_group_name(text) <==> forall|i: int|
            0 <= i < text.len() ==> {
                ||| 48 <= #[trigger] text[i] <= 57
                ||| 65 <= text[i] <= 90
                ||| 97 <= text[i] <= 122
                ||| text[i] == 43 || text[i] == 45 || text[i] == 46 || text[i] == 95
            },
        is_header_name(text) <==> {
            &&& forall|i: int| 0 <= i < text.len() ==> 33 <= #[trigger] text[i] <= 126
            &&& forall|i: int| 0 < i < text.len() ==> #[trigger] text[i] != 58
            &&& text[0] == 58 ==> text.len() > 1
        },
        is_auth_value(text) <==> forall|i: int|
            0 <= i < text.len() ==> 33 <= #[trigger] text[i] <= 126,
{
    lemma_ascii_is_utf8(text);
    if is_group_name(text) {
        assert forall|i: int| 0 <= i < text.len() implies ({
            ||| 48 <= #[trigger] text[i] <= 57
            ||| 65 <= text[i] <= 90
            ||| 97 <= text[i] <= 122
            ||| text[i] == 43 || text[i] == 45 || text[i] == 46 || text[i] == 95
        }) by {
            assert(is_group_byte(text[i]));
        }
    }
    if is_header_name(text) {
        assert forall|i: int| 0 <= i < text.len() implies 33 <= #[trigger] text[i] <= 126 by {
            assert(is_graphic(text[i]));
        }
    }
}

/// A keyword takes letters anywhere and digits, dots and dashes behind the first letter, and is at
/// least three characters long.
pub proof fn law_keywords(first: u8, rest: Seq<u8>)
    ensures
        is_keyword(seq![first] + rest) <==> {
            &&& rest.len() >= 2
            &&& 65 <= first <= 90 || 97 <= first <= 122
            &&& forall|i: int|
                0 <= i < rest.len() ==> {
                    ||| 48 <= #[trigger] rest[i] <= 57
                    ||| 65 <= rest[i] <= 90
                    ||| 97 <= rest[i] <= 122
                    ||| rest[i] == 45 || rest[i] == 46
                }
        },
        !is_keyword(Seq::empty()),
{
    let text = seq![first] + rest;
    assert(forall|i: int| 0 <= i < rest.len() ==> #[trigger] rest[i] == text[i + 1]);
    assert(forall|i: int| 1 <= i < text.len() ==> #[trigger] text[i] == rest[i - 1]);
    assert(text[0] == first);
}

/// The name of a SASL mechanism has one to twenty characters, each of them an upper-case letter, a
/// digit, a dash or an underscore.
pub proof fn law_sasl_mechanisms(text: Seq<u8>)
    ensures
        is_sasl_mechanism(text) <==> {
            &&& text.len() > 0
            &&& text.len() < 21
            &&& forall|i: int|
                0 <= i < text.len() ==> {
                    ||| 48 <= #[trigger] text[i] <= 57
                    ||| 65 <= text[i] <= 90
                    ||| text[i] == 45 || text[i] == 95
                }
        },
{
}

/// A SASL response is base64: groups of four characters of which the last may have one or two equals
/// signs at its end, and nowhere else. A lone equals sign is the empty response.
pub proof fn law_sasl_responses(body: Seq<u8>)
    requires
        forall|i: int| 0 <= i < body.len() ==> #[trigger] body[i] != 61,
    ensures
        ({
            let fits = forall|i: int|
                0 <= i < body.len() ==> {
                    ||| 48 <= #[trigger] body[i] <= 57
                    ||| 65 <= body[i] <= 90
                    ||| 97 <= body[i] <= 122
                    ||| body[i] == 43 || body[i] == 47
                };
            &&& is_sasl_response(body) <==> body.len() > 0 && body.len() % 4 == 0 && fits
            &&& is_sasl_response(body + seq![61u8]) <==> body.len() == 0 || (body.len() % 4 == 3
                && fits)
            &&& is_sasl_response(body + seq![61u8, 61u8]) <==> body.len() % 4 == 2 && fits
            &&& forall|more: Seq<u8>|
                more.len() > 0 && #[trigger] more.last() != 61 ==> !is_sasl_response(
                    body + seq![61u8] + more,
                )
            &&& !is_sasl_response(body + seq![61u8, 61u8, 61u8])
        }),
{
    let one = body + seq![61u8];
    let two = body + seq![61u8, 61u8];
    let three = body + seq![61u8, 61u8, 61u8];
    assert(forall|i: int|
        #![trigger body[i]]
        0 <= i < body.len() ==> body[i] == one[i] && body[i] == two[i] && body[i] == three[i]);
    assert(one.last() == 61 && two.last() == 61 && two[two.len() - 2] == 61);
    assert(three.last() == 61 && three[three.len() - 2] == 61 && three[three.len() - 3] == 61);
    assert(padding_start(body) == body.len());
    assert(padding_start(one) == body.len());
    assert(padding_start(two) == body.len());
    assert(padding_start(three) == body.len() + 1);
    assert(three != seq![61u8]);
    assert(!is_base64_byte(three[body.len() as int]));
    if body.len() > 0 {
        assert(body[0] != 61);
        assert(body != seq![61u8]);
        assert(one.len() != 1 && two.len() != 1);
    } else {
        assert(one =~= seq![61u8]);
        assert(two.len() == 2 && seq![61u8].len() == 1);
    }
    assert forall|more: Seq<u8>|
        more.len() > 0 && #[trigger] more.last() != 61 implies !is_sasl_response(
        body + seq![61u8] + more,
    ) by {
        let text = body + seq![61u8] + more;
        assert(text.last() == more.last());
        assert(padding_start(text) == text.len());
        assert(text[body.len() as int] == 61);
        assert(!is_base64_byte(text[body.len() as int]));
        assert(text.len() > 1);
    }
}

/// Beyond ASCII, group names and wildmats take any text, credentials take any bytes, and the names
/// of headers and keywords take nothing.
pub proof fn law_alphabets_beyond_ascii(text: Seq<u8>)
    requires
        text.len() > 0,
        forall|i: int| 0 <= i < text.len() ==> #[trigger] text[i] >= 0x80,
    ensures
        is_auth_value(text),
        is_group_name(text) <==> utf8::valid_utf8(text),
        is_wildmat(text) <==> utf8::valid_utf8(text),
        !is_header_name(text),
        !is_keyword(text),
        !is_message_id(text),
{
    assert(text[0] >= 0x80);
    assert(text.last() >= 0x80);
}

} // verus!
