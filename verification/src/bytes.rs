//! Byte-string helpers: searching, comparing and decimal numbers.
use crate::request_line;
use crate::request_line::{find_blank, find_word};
use vstd::arithmetic::power;
use vstd::prelude::*;
use vstd::string::StringSliceAdditionalSpecFns;

verus! {

pub const TAB: u8 = 9;

pub const LF: u8 = 10;

pub const CR: u8 = 13;

pub const SPACE: u8 = 32;

pub const BANG: u8 = 33;

pub const PLUS: u8 = 43;

pub const COMMA: u8 = 44;

pub const DASH: u8 = 45;

pub const DOT: u8 = 46;

pub const ZERO: u8 = 48;

pub const COLON: u8 = 58;

pub const LESS: u8 = 60;

pub const GREATER: u8 = 62;

pub const AT: u8 = 64;

/// The index of the first `needle` in `text` at or after `from`, or the length of `text`.
pub open spec fn find_byte(text: Seq<u8>, needle: u8, from: int) -> int
    decreases text.len() - from,
{
    if from < 0 || from >= text.len() {
        text.len() as int
    } else if text[from] == needle {
        from
    } else {
        find_byte(text, needle, from + 1)
    }
}

pub open spec fn has_byte(text: Seq<u8>, needle: u8) -> bool {
    exists|i: int| 0 <= i < text.len() && text[i] == needle
}

/// What `find_byte` returns is in range, ends a run without the needle, and is a match unless it
/// is the length.
pub proof fn lemma_find_byte(text: Seq<u8>, needle: u8, from: int)
    requires
        0 <= from <= text.len(),
    ensures
        from <= find_byte(text, needle, from) <= text.len(),
        forall|j: int| from <= j < find_byte(text, needle, from) ==> text[j] != needle,
        find_byte(text, needle, from) < text.len() ==> text[find_byte(text, needle, from)]
            == needle,
    decreases text.len() - from,
{
    if from < text.len() && text[from] != needle {
        lemma_find_byte(text, needle, from + 1);
    }
}

/// The first match is the only index with the properties of `lemma_find_byte`.
pub proof fn lemma_find_byte_is(text: Seq<u8>, needle: u8, from: int, at: int)
    requires
        0 <= from <= at <= text.len(),
        forall|j: int| from <= j < at ==> text[j] != needle,
        at < text.len() ==> text[at] == needle,
    ensures
        find_byte(text, needle, from) == at,
{
    lemma_find_byte(text, needle, from);
    let found = find_byte(text, needle, from);
    if found < at {
        assert(text[found] != needle);
    }
    if at < found {
        assert(text[at] != needle);
    }
}

/// A byte occurs exactly when its first index is not the length.
pub proof fn lemma_has_byte(text: Seq<u8>, needle: u8)
    ensures
        has_byte(text, needle) <==> find_byte(text, needle, 0) < text.len(),
{
    lemma_find_byte(text, needle, 0);
    if find_byte(text, needle, 0) < text.len() {
        assert(text[find_byte(text, needle, 0)] == needle);
    }
}

/// `memchr::memchr`: the index of the first `needle` in `haystack`, `None` when there is none.
#[verifier::external_body]
pub(crate) fn first_index(needle: u8, haystack: &[u8]) -> (index: Option<usize>)
    ensures
        match index {
            Some(i) => i < haystack@.len() && haystack@[i as int] == needle && forall|j: int|
                0 <= j < i ==> haystack@[j] != needle,
            None => forall|j: int| 0 <= j < haystack@.len() ==> haystack@[j] != needle,
        },
{
    memchr::memchr(needle, haystack)
}

/// The index of the first `needle` at or after `from`, or the length.
pub fn index_from(text: &[u8], needle: u8, from: usize) -> (index: usize)
    requires
        from <= text@.len(),
    ensures
        index == find_byte(text@, needle, from as int),
        from <= index <= text@.len(),
{
    let mut index: usize = from;
    while index < text.len() && text[index] != needle
        invariant
            from <= index <= text@.len(),
            forall|j: int| from <= j < index ==> text@[j] != needle,
        decreases text@.len() - index,
    {
        index = index + 1;
    }
    proof {
        lemma_find_byte_is(text@, needle, from as int, index as int);
    }
    index
}

pub fn contains_byte(text: &[u8], needle: u8) -> (found: bool)
    ensures
        found == has_byte(text@, needle),
{
    proof {
        lemma_has_byte(text@, needle);
    }
    index_from(text, needle, 0) < text.len()
}

/// The part of `text` before its first blank.
pub open spec fn first_field(text: Seq<u8>) -> Seq<u8> {
    text.subrange(0, request_line::blank_from(text, 0))
}

/// The word of `text` behind its first blanks; `None` without one.
pub open spec fn second_field(text: Seq<u8>) -> Option<Seq<u8>> {
    let start = request_line::word_from(text, request_line::blank_from(text, 0));
    if start >= text.len() {
        None
    } else {
        Some(text.subrange(start, request_line::blank_from(text, start)))
    }
}

/// The view of an optional slice.
pub open spec fn opt_view(text: Option<&[u8]>) -> Option<Seq<u8>> {
    match text {
        Some(value) => Some(value@),
        None => None,
    }
}

pub fn field_first(text: &[u8]) -> (field: &[u8])
    ensures
        field@ == first_field(text@),
{
    let end: usize = find_blank(text, 0);
    &text[0..end]
}

pub fn field_second(text: &[u8]) -> (field: Option<&[u8]>)
    ensures
        opt_view(field) == second_field(text@),
{
    let start: usize = find_word(text, find_blank(text, 0));
    if start >= text.len() {
        None
    } else {
        let end: usize = find_blank(text, start);
        Some(&text[start..end])
    }
}

pub fn bytes_equal(a: &[u8], b: &[u8]) -> (same: bool)
    ensures
        same == (a@ == b@),
{
    if a.len() != b.len() {
        return false;
    }
    let mut i: usize = 0;
    while i < a.len()
        invariant
            a@.len() == b@.len(),
            i <= a@.len(),
            forall|j: int| 0 <= j < i ==> a@[j] == b@[j],
        decreases a@.len() - i,
    {
        if a[i] != b[i] {
            assert(a@[i as int] != b@[i as int]);
            return false;
        }
        i = i + 1;
    }
    assert(a@ =~= b@);
    true
}

/// The ASCII lower-case form of a byte.
pub open spec fn lower(byte: u8) -> u8 {
    if 65 <= byte <= 90 {
        (byte + 32) as u8
    } else {
        byte
    }
}

/// Equality of two byte strings up to the case of ASCII letters.
pub open spec fn same_letters(a: Seq<u8>, b: Seq<u8>) -> bool {
    a.len() == b.len() && forall|i: int| 0 <= i < a.len() ==> lower(a[i]) == lower(b[i])
}

fn lower_byte(byte: u8) -> (low: u8)
    ensures
        low == lower(byte),
{
    if 65 <= byte && byte <= 90 {
        byte + 32
    } else {
        byte
    }
}

pub fn equal_ignoring_case(a: &[u8], b: &[u8]) -> (same: bool)
    ensures
        same == same_letters(a@, b@),
{
    if a.len() != b.len() {
        return false;
    }
    let mut i: usize = 0;
    while i < a.len()
        invariant
            a@.len() == b@.len(),
            i <= a@.len(),
            forall|j: int| 0 <= j < i ==> lower(a@[j]) == lower(b@[j]),
        decreases a@.len() - i,
    {
        if lower_byte(a[i]) != lower_byte(b[i]) {
            assert(lower(a@[i as int]) != lower(b@[i as int]));
            return false;
        }
        i = i + 1;
    }
    true
}

/// `text` is `word` up to the case of ASCII letters.
pub open spec fn is_word(text: Seq<u8>, word: &str) -> bool {
    same_letters(text, word.spec_bytes())
}

pub fn matches_word(text: &[u8], word: &str) -> (same: bool)
    ensures
        same == is_word(text@, word),
{
    equal_ignoring_case(text, word.as_bytes())
}

pub open spec fn starts_with(text: Seq<u8>, prefix: Seq<u8>) -> bool {
    prefix.len() <= text.len() && text.subrange(0, prefix.len() as int) == prefix
}

pub open spec fn ends_with(text: Seq<u8>, suffix: Seq<u8>) -> bool {
    suffix.len() <= text.len() && text.subrange(text.len() - suffix.len(), text.len() as int)
        == suffix
}

pub fn has_prefix(text: &[u8], prefix: &[u8]) -> (found: bool)
    ensures
        found == starts_with(text@, prefix@),
{
    if prefix.len() > text.len() {
        return false;
    }
    bytes_equal(&text[0..prefix.len()], prefix)
}

pub fn has_suffix(text: &[u8], suffix: &[u8]) -> (found: bool)
    ensures
        found == ends_with(text@, suffix@),
{
    if suffix.len() > text.len() {
        return false;
    }
    bytes_equal(&text[text.len() - suffix.len()..text.len()], suffix)
}

/// `needle` stands somewhere in `text` as one run.
pub open spec fn has_run(text: Seq<u8>, needle: Seq<u8>) -> bool {
    exists|at: int|
        0 <= at <= text.len() - needle.len() && #[trigger] text.subrange(at, at + needle.len())
            == needle
}

pub fn contains_subslice(haystack: &[u8], needle: &[u8]) -> (found: bool)
    requires
        needle@.len() > 0,
    ensures
        found == has_run(haystack@, needle@),
{
    if needle.len() > haystack.len() {
        return false;
    }
    let mut at: usize = 0;
    while at <= haystack.len() - needle.len()
        invariant
            0 < needle@.len() <= haystack@.len(),
            at <= haystack@.len() - needle@.len() + 1,
            forall|k: int|
                0 <= k < at ==> #[trigger] haystack@.subrange(k, k + needle@.len()) != needle@,
        decreases haystack@.len() - needle@.len() + 1 - at,
    {
        if bytes_equal(&haystack[at..at + needle.len()], needle) {
            assert(haystack@.subrange(at as int, at + needle@.len()) == needle@);
            return true;
        }
        at = at + 1;
    }
    false
}

pub open spec fn is_digit(byte: u8) -> bool {
    48 <= byte <= 57
}

pub open spec fn all_digits(text: Seq<u8>) -> bool {
    forall|i: int| 0 <= i < text.len() ==> is_digit(#[trigger] text[i])
}

pub fn only_digits(text: &[u8]) -> (only: bool)
    ensures
        only == all_digits(text@),
{
    let mut i: usize = 0;
    while i < text.len()
        invariant
            i <= text@.len(),
            forall|j: int| 0 <= j < i ==> is_digit(#[trigger] text@[j]),
        decreases text@.len() - i,
    {
        if !(48 <= text[i] && text[i] <= 57) {
            assert(!is_digit(text@[i as int]));
            return false;
        }
        i = i + 1;
    }
    true
}

/// The number that a string of digits writes in base ten.
pub open spec fn decimal_value(digits: Seq<u8>) -> int
    decreases digits.len(),
{
    if digits.len() == 0 {
        0
    } else {
        decimal_value(digits.drop_last()) * 10 + (digits.last() - 48)
    }
}

/// A prefix of a string of digits writes no larger number than the whole.
proof fn lemma_decimal_prefix(digits: Seq<u8>, end: int)
    requires
        all_digits(digits),
        0 <= end <= digits.len(),
    ensures
        0 <= decimal_value(digits.subrange(0, end)) <= decimal_value(digits),
    decreases digits.len(),
{
    if digits.len() == 0 {
        assert(digits.subrange(0, end) =~= digits);
    } else if end == digits.len() {
        lemma_decimal_prefix(digits.drop_last(), end - 1);
        assert(digits.drop_last().subrange(0, end - 1) =~= digits.drop_last());
        assert(digits.subrange(0, end) =~= digits);
        assert(is_digit(digits[digits.len() - 1]));
    } else {
        lemma_decimal_prefix(digits.drop_last(), end);
        assert(digits.drop_last().subrange(0, end) =~= digits.subrange(0, end));
        assert(is_digit(digits[digits.len() - 1]));
    }
}

/// A string of digits never writes a negative number.
pub proof fn lemma_decimal_nonnegative(digits: Seq<u8>)
    requires
        all_digits(digits),
    ensures
        decimal_value(digits) >= 0,
{
    lemma_decimal_prefix(digits, digits.len() as int);
    assert(digits.subrange(0, digits.len() as int) =~= digits);
}

/// The digits of a number after the optional plus sign.
pub open spec fn unsigned_digits(text: Seq<u8>) -> Seq<u8> {
    if text.len() > 0 && text[0] == PLUS {
        text.subrange(1, text.len() as int)
    } else {
        text
    }
}

/// The `u64` that `text` writes in base ten: an optional plus sign, then one digit or more, with
/// a value that fits.
pub open spec fn number(text: Seq<u8>) -> Option<u64> {
    let digits = unsigned_digits(text);
    if digits.len() > 0 && all_digits(digits) && decimal_value(digits) <= u64::MAX {
        Some(decimal_value(digits) as u64)
    } else {
        None
    }
}

/// Reads a `u64` written in base ten.
pub fn parse_number(text: &[u8]) -> (value: Option<u64>)
    ensures
        value == number(text@),
{
    let mut at: usize = 0;
    if text.len() > 0 && text[0] == PLUS {
        at = 1;
    }
    let ghost digits = unsigned_digits(text@);
    let ghost start = at as int;
    assert(digits =~= text@.subrange(start, text@.len() as int));
    if at == text.len() {
        return None;
    }
    let mut value: u64 = 0;
    while at < text.len()
        invariant
            0 <= start <= at <= text@.len(),
            start < text@.len(),
            digits == text@.subrange(start, text@.len() as int),
            all_digits(digits.subrange(0, at - start)),
            value == decimal_value(digits.subrange(0, at - start)),
            digits == unsigned_digits(text@),
        decreases text@.len() - at,
    {
        let byte: u8 = text[at];
        assert(byte == digits[at - start]);
        if byte < 48 || byte > 57 {
            assert(!is_digit(digits[at - start]));
            return None;
        }
        let digit: u64 = (byte - 48) as u64;
        let ghost longer = digits.subrange(0, at - start + 1);
        assert(longer.drop_last() =~= digits.subrange(0, at - start));
        assert(decimal_value(longer) == value * 10 + digit);
        assert forall|k: int| 0 <= k < longer.len() implies is_digit(#[trigger] longer[k]) by {
            if k < at - start {
                assert(longer[k] == digits.subrange(0, at - start)[k]);
            }
        }
        if value > (u64::MAX - digit) / 10 {
            proof {
                if all_digits(digits) {
                    lemma_decimal_prefix(digits, at - start + 1);
                }
            }
            return None;
        }
        value = value * 10 + digit;
        at = at + 1;
    }
    assert(digits.subrange(0, digits.len() as int) =~= digits);
    Some(value)
}

/// The base-ten digits of a number, without leading zeros.
pub open spec fn decimal(value: nat) -> Seq<u8>
    decreases value,
{
    if value < 10 {
        seq![(48 + value) as u8]
    } else {
        decimal(value / 10).push((48 + value % 10) as u8)
    }
}

/// A decimal text is digits only, writes its number back, and has no leading zero.
pub proof fn lemma_decimal(value: nat)
    ensures
        decimal(value).len() >= 1,
        all_digits(decimal(value)),
        decimal_value(decimal(value)) == value,
        value > 0 ==> decimal(value)[0] != ZERO,
    decreases value,
{
    if value < 10 {
        assert(decimal(value).drop_last() =~= Seq::<u8>::empty());
        assert(decimal_value(decimal(value).drop_last()) == 0);
    } else {
        lemma_decimal(value / 10);
        assert(decimal(value).drop_last() =~= decimal(value / 10));
        assert(decimal(value)[0] == decimal(value / 10)[0]);
        assert forall|k: int| 0 <= k < decimal(value).len() implies is_digit(
            #[trigger] decimal(value)[k],
        ) by {
            if k < decimal(value / 10).len() {
                assert(decimal(value)[k] == decimal(value / 10)[k]);
            }
        }
    }
}

/// A `u64` has at most twenty digits.
pub proof fn lemma_decimal_len(value: nat)
    requires
        value <= u64::MAX,
    ensures
        1 <= decimal(value).len() <= 20,
{
    reveal_with_fuel(decimal, 21);
    lemma_decimal(value);
}

/// Reading a decimal text gives the number back.
pub proof fn law_number_of_decimal(value: u64)
    ensures
        number(decimal(value as nat)) == Some(value),
{
    let text = decimal(value as nat);
    lemma_decimal(value as nat);
    assert(is_digit(text[0]));
    assert(unsigned_digits(text) == text);
}

/// Digits without a leading zero are the decimal text of their number, which is positive.
pub proof fn law_decimal_of_number(digits: Seq<u8>)
    requires
        digits.len() > 0,
        all_digits(digits),
        digits[0] != ZERO,
    ensures
        decimal_value(digits) >= 1,
        decimal(decimal_value(digits) as nat) == digits,
    decreases digits.len(),
{
    let shorter = digits.drop_last();
    let last = digits.last();
    assert(is_digit(last));
    if digits.len() > 1 {
        assert forall|i: int| 0 <= i < shorter.len() implies is_digit(
            #[trigger] shorter[i],
        ) by {
            assert(is_digit(digits[i]));
        }
        law_decimal_of_number(shorter);
        let value = decimal_value(digits);
        assert(value == 10 * decimal_value(shorter) + (last - 48));
        assert(value / 10 == decimal_value(shorter) && value % 10 == last - 48);
        assert(decimal(value as nat) =~= digits);
    } else {
        assert(shorter =~= Seq::<u8>::empty());
        assert(decimal_value(shorter) == 0);
        assert(decimal(decimal_value(digits) as nat) =~= digits);
    }
}

/// The base-ten digits of a number.
pub fn decimal_bytes(value: u64) -> (text: Vec<u8>)
    ensures
        text@ == decimal(value as nat),
    decreases value,
{
    if value < 10 {
        let mut text: Vec<u8> = Vec::new();
        text.push(48 + value as u8);
        assert(text@ =~= decimal(value as nat));
        text
    } else {
        let mut text: Vec<u8> = decimal_bytes(value / 10);
        text.push(48 + (value % 10) as u8);
        text
    }
}

/// The texts are the same up to `at`, where the first ends or has the smaller byte.
pub open spec fn differs_at(first: Seq<u8>, second: Seq<u8>, at: int) -> bool {
    &&& 0 <= at <= first.len()
    &&& at < second.len()
    &&& forall|j: int| 0 <= j < at ==> first[j] == second[j]
    &&& at == first.len() || first[at] < second[at]
}

/// The first text comes before the second in byte order.
pub open spec fn precedes(first: Seq<u8>, second: Seq<u8>) -> bool {
    exists|at: int| differs_at(first, second, at)
}

/// What follows texts of one length does not change their order.
pub proof fn lemma_precedes_before(
    first: Seq<u8>,
    second: Seq<u8>,
    first_rest: Seq<u8>,
    second_rest: Seq<u8>,
)
    requires
        precedes(first, second),
        first.len() == second.len(),
    ensures
        precedes(first + first_rest, second + second_rest),
{
    let at = choose|at: int| differs_at(first, second, at);
    assert(differs_at(first + first_rest, second + second_rest, at));
}

/// The order of texts is that of what they end in, behind the same start.
pub proof fn lemma_precedes_behind(start: Seq<u8>, first: Seq<u8>, second: Seq<u8>)
    requires
        precedes(first, second),
    ensures
        precedes(start + first, start + second),
{
    let at = choose|at: int| differs_at(first, second, at);
    assert(differs_at(start + first, start + second, start.len() + at));
}

/// Each place of a decimal text holds the digit of its power of ten, and there is no place more
/// than the number needs.
pub proof fn law_decimal_digits(value: nat, place: int)
    requires
        0 <= place < decimal(value).len(),
    ensures
        decimal(value)[decimal(value).len() - 1 - place] == 48 + (value as int / power::pow(10, place as nat))
            % 10,
        decimal(value).len() > 1 ==> power::pow(10, (decimal(value).len() - 1) as nat) <= value,
        value < power::pow(10, decimal(value).len()),
    decreases value,
{
    let text = decimal(value);
    reveal_with_fuel(power::pow, 2);
    power::lemma_pow_positive(10, place as nat);
    if value < 10 {
        assert(power::pow(10, 0) == 1);
        assert(power::pow(10, 1) == 10);
        assert(value as int / 1 == value);
    } else {
        let shorter = decimal(value / 10);
        assert(text =~= shorter.push((48 + value % 10) as u8));
        let len = shorter.len();
        lemma_decimal(value / 10);
        law_decimal_digits(value / 10, if place > 0 { place - 1 } else { 0 });
        assert(power::pow(10, len + 1) == 10 * power::pow(10, len));
        assert(value < 10 * power::pow(10, len)) by {
            assert(value / 10 < power::pow(10, len));
        }
        if len > 1 {
            assert(power::pow(10, len) == 10 * power::pow(10, (len - 1) as nat));
        } else {
            assert(power::pow(10, 1) == 10 * power::pow(10, 0));
            assert(power::pow(10, 0) == 1);
        }
        if place > 0 {
            let power = power::pow(10, (place - 1) as nat);
            power::lemma_pow_positive(10, (place - 1) as nat);
            assert(power::pow(10, place as nat) == 10 * power);
            vstd::arithmetic::div_mod::lemma_div_denominator(value as int, 10, power);
            assert((value as int / 10) / power == value as int / (10 * power));
            assert(text[text.len() - 1 - place] == shorter[shorter.len() - 1 - (place - 1)]);
        } else {
            assert(power::pow(10, 0) == 1);
            assert(value as int / 1 == value);
        }
    }
}

/// A digit behind others counts once, and the others ten times; leading zeros count nothing.
pub proof fn law_decimal_value_by_digits(digits: Seq<u8>, digit: u8)
    ensures
        decimal_value(digits.push(digit)) == 10 * decimal_value(digits) + (digit - 48),
        decimal_value(seq![48u8] + digits) == decimal_value(digits),
    decreases digits.len(),
{
    assert(digits.push(digit).drop_last() =~= digits);
    let zero = seq![48u8] + digits;
    if digits.len() == 0 {
        assert(zero.drop_last() =~= digits);
    } else {
        law_decimal_value_by_digits(digits.drop_last(), digit);
        assert(zero.drop_last() =~= seq![48u8] + digits.drop_last());
    }
}

/// Two texts are the same up to the case of letters exactly where their bytes are pairwise equal or
/// the two forms of one letter.
pub proof fn law_same_letters(a: Seq<u8>, b: Seq<u8>)
    ensures
        same_letters(a, b) <==> a.len() == b.len() && forall|i: int|
            0 <= i < a.len() ==> (#[trigger] a[i] == b[i] || (65 <= a[i] <= 90 && b[i] == a[i] + 32)
                || (65 <= b[i] <= 90 && a[i] == b[i] + 32)),
{
    if same_letters(a, b) {
        assert forall|i: int| 0 <= i < a.len() implies (#[trigger] a[i] == b[i] || (65 <= a[i] <= 90
            && b[i] == a[i] + 32) || (65 <= b[i] <= 90 && a[i] == b[i] + 32)) by {
            assert(lower(a[i]) == lower(b[i]));
        }
    }
}

/// The fields of two words with a blank between them are the two words.
pub proof fn law_fields_of_two_words(first: Seq<u8>, blank: u8, second: Seq<u8>)
    requires
        blank == SPACE || blank == TAB,
        forall|i: int| 0 <= i < first.len() ==> #[trigger] first[i] != SPACE && first[i] != TAB,
        forall|i: int| 0 <= i < second.len() ==> #[trigger] second[i] != SPACE && second[i] != TAB,
    ensures
        first_field(first) == first,
        second_field(first) is None,
        first_field(first + seq![blank] + second) == first,
        second_field(first + seq![blank] + second) == (if second.len() == 0 {
            None
        } else {
            Some(second)
        }),
{
    let text = first + seq![blank] + second;
    let at = first.len() as int;
    request_line::lemma_blank_from_is(first, 0, at);
    request_line::lemma_word_from(first, at);
    assert(first.subrange(0, at) =~= first);
    assert forall|j: int| 0 <= j < at implies !request_line::is_blank(#[trigger] text[j]) by {
        assert(text[j] == first[j]);
    }
    assert(text[at] == blank);
    request_line::lemma_blank_from_is(text, 0, at);
    assert(text.subrange(0, at) =~= first);
    request_line::lemma_word_from(text, at);
    if second.len() > 0 {
        assert(text[at + 1] == second[0]);
        let start = request_line::word_from(text, at);
        if start > at + 1 {
            assert(request_line::is_blank(text[at + 1]));
        }
        assert(start == at + 1) by {
            assert(!request_line::is_blank(text[start]));
        }
        assert forall|j: int| start <= j < text.len() implies !request_line::is_blank(
            #[trigger] text[j],
        ) by {
            assert(text[j] == second[j - at - 1]);
        }
        request_line::lemma_blank_from_is(text, start, text.len() as int);
        assert(text.subrange(start, text.len() as int) =~= second);
    }
}

} // verus!
