//! Text in UTF-8: decoding, trimming and characters.
use crate::bytes;
use crate::bytes::{only_digits, parse_number};
use arrayvec::ArrayString;
use vstd::prelude::*;
use vstd::string::StringSliceAdditionalSpecFns;
use vstd::utf8;

verus! {

/// `std::str::from_utf8`: the text that the bytes encode in UTF-8, `None` when they encode none.
#[verifier::external_body]
pub(crate) fn decode(value: &[u8]) -> (text: Option<&str>)
    ensures
        text is Some <==> utf8::valid_utf8(value@),
        text matches Some(s) ==> s.spec_bytes() == value@,
{
    std::str::from_utf8(value).ok()
}

/// The characters that Unicode counts as white space.
pub open spec fn is_white_space(c: char) -> bool {
    let code = c as u32;
    9 <= code <= 13 || code == 0x20 || code == 0x85 || code == 0xa0 || code == 0x1680 || 0x2000
        <= code <= 0x200a || code == 0x2028 || code == 0x2029 || code == 0x202f || code == 0x205f
        || code == 0x3000
}

/// The text without the white space at its start.
pub open spec fn trimmed_start(text: Seq<char>) -> Seq<char>
    decreases text.len(),
{
    if text.len() > 0 && is_white_space(text[0]) {
        trimmed_start(text.drop_first())
    } else {
        text
    }
}

/// The text without the white space at its end.
pub open spec fn trimmed_end(text: Seq<char>) -> Seq<char>
    decreases text.len(),
{
    if text.len() > 0 && is_white_space(text.last()) {
        trimmed_end(text.drop_last())
    } else {
        text
    }
}

/// `str::trim`: the text without the white space at its start and at its end.
#[verifier::external_body]
pub(crate) fn trim(text: &str) -> (trimmed: &str)
    ensures
        trimmed@ == trimmed_end(trimmed_start(text@)),
{
    text.trim()
}

/// `arrayvec::ArrayString::try_push_str`, on a string with room for `CAP` bytes: the first text
/// and then the second, `None` when they need more room. Making such a string panics for a
/// capacity beyond 32 bits.
#[verifier::external_body]
pub(crate) fn joined_within<const CAP: usize>(first: &str, second: &str) -> (joined: Option<String>)
    requires
        CAP <= 0xffff_ffff,
    ensures
        match joined {
            Some(text) => text@ == first@ + second@ && first.spec_bytes().len()
                + second.spec_bytes().len() <= CAP,
            None => first.spec_bytes().len() + second.spec_bytes().len() > CAP,
        },
{
    let mut text = ArrayString::<CAP>::new();
    text.try_push_str(first).ok()?;
    text.try_push_str(second).ok()?;
    Some(String::from(text.as_str()))
}

/// The characters of a text.
pub fn characters(text: &str) -> (list: Vec<char>)
    ensures
        list@ == text@,
{
    let mut list: Vec<char> = Vec::new();
    for c in iter: text.chars()
        invariant
            list@ == iter.seq().subrange(0, iter.index()),
            iter.seq() == text@,
    {
        list.push(c);
        assert(list@ =~= iter.seq().subrange(0, iter.index() + 1));
    }
    assert(list@ =~= text@);
    list
}

/// The article number that an argument writes: digits only, apart from white space around them.
pub open spec fn article_id_arg(args: Seq<u8>) -> Option<u64> {
    if !utf8::valid_utf8(args) {
        None
    } else {
        let arg = utf8::encode_utf8(trimmed_end(trimmed_start(utf8::decode_utf8(args))));
        if arg.len() > 0 && bytes::all_digits(arg) {
            bytes::number(arg)
        } else {
            None
        }
    }
}

/// No argument is no article number.
pub proof fn lemma_no_article_id()
    ensures
        article_id_arg(Seq::empty()) is None,
{
    let none = Seq::<char>::empty();
    assert(utf8::encode_utf8(none) =~= Seq::<u8>::empty());
    utf8::encode_utf8_decode_utf8(none);
    assert(trimmed_end(trimmed_start(none)) == none);
}

/// An argument of visible characters is read as it stands.
pub proof fn lemma_article_id_of_visible(arg: Seq<u8>)
    requires
        arg.len() > 0,
        forall|i: int| 0 <= i < arg.len() ==> 0x21 <= #[trigger] arg[i] < 0x7f,
    ensures
        article_id_arg(arg) == (if bytes::all_digits(arg) {
            bytes::number(arg)
        } else {
            None
        }),
{
    let chars = Seq::new(arg.len(), |i: int| arg[i] as char);
    assert(utf8::is_ascii_chars(chars));
    utf8::is_ascii_chars_encode_utf8(chars);
    assert(utf8::encode_utf8(chars) =~= arg);
    utf8::encode_utf8_valid_utf8(chars);
    utf8::encode_utf8_decode_utf8(chars);
    assert(chars[0] as u32 == arg[0]);
    assert(chars.last() as u32 == arg.last());
    assert(trimmed_start(chars) == chars);
    assert(trimmed_end(chars) == chars);
}

/// Reads the argument of a command as an article number.
pub fn parse_article_id_arg(args: &[u8]) -> (article_id: Option<u64>)
    ensures
        article_id == article_id_arg(args@),
{
    match decode(args) {
        Some(text) => {
            proof {
                utf8::encode_utf8_decode_utf8(text@);
            }
            let arg: &[u8] = trim(text).as_bytes();
            if arg.len() == 0 || !only_digits(arg) {
                None
            } else {
                parse_number(arg)
            }
        },
        None => None,
    }
}

/// An argument is an article number exactly where it is its digits; other visible bytes among them
/// make it none.
pub proof fn law_article_id_reads_back(number: u64, other: Seq<u8>)
    requires
        other.len() > 0,
        forall|i: int| 0 <= i < other.len() ==> 0x21 <= #[trigger] other[i] < 0x7f,
    ensures
        article_id_arg(bytes::decimal(number as nat)) == Some(number),
        article_id_arg(other) is Some ==> bytes::all_digits(other) && article_id_arg(other)->0
            == bytes::decimal_value(other),
        bytes::all_digits(other) && bytes::decimal_value(other) <= u64::MAX ==> article_id_arg(other)
            is Some,
{
    let digits = bytes::decimal(number as nat);
    bytes::lemma_decimal(number as nat);
    bytes::law_number_of_decimal(number);
    assert forall|i: int| 0 <= i < digits.len() implies 0x21 <= #[trigger] digits[i] < 0x7f by {
        assert(bytes::is_digit(digits[i]));
    }
    lemma_article_id_of_visible(digits);
    lemma_article_id_of_visible(other);
    if bytes::all_digits(other) {
        assert(bytes::is_digit(other[0]));
        assert(bytes::unsigned_digits(other) == other);
        bytes::lemma_decimal_nonnegative(other);
    }
}

/// Trimming takes the white space off both ends and nothing else.
pub proof fn law_trimming_takes_off_white_space(before: Seq<char>, text: Seq<char>, after: Seq<char>)
    requires
        forall|i: int| 0 <= i < before.len() ==> is_white_space(#[trigger] before[i]),
        forall|i: int| 0 <= i < after.len() ==> is_white_space(#[trigger] after[i]),
        text.len() > 0 ==> !is_white_space(text[0]) && !is_white_space(text.last()),
    ensures
        text.len() > 0 ==> trimmed_end(trimmed_start(before + text + after)) == text,
        trimmed_start(before + after).len() == 0,
{
    let rest = text + after;
    if text.len() > 0 {
        assert(rest[0] == text[0]);
        lemma_trimmed_start(before, rest);
        assert(before + text + after =~= before + rest);
        lemma_trimmed_end(text, after);
    }
    let blanks = before + after;
    assert forall|i: int| 0 <= i < blanks.len() implies is_white_space(#[trigger] blanks[i]) by {
        if i >= before.len() {
            assert(blanks[i] == after[i - before.len()]);
        }
    }
    lemma_trimmed_start(blanks, Seq::empty());
    assert(blanks + Seq::<char>::empty() =~= blanks);
}

proof fn lemma_trimmed_start(before: Seq<char>, rest: Seq<char>)
    requires
        forall|i: int| 0 <= i < before.len() ==> is_white_space(#[trigger] before[i]),
        rest.len() > 0 ==> !is_white_space(rest[0]),
    ensures
        trimmed_start(before + rest) == rest,
    decreases before.len(),
{
    let whole = before + rest;
    if before.len() > 0 {
        assert(whole[0] == before[0]);
        assert(whole.drop_first() =~= before.drop_first() + rest);
        lemma_trimmed_start(before.drop_first(), rest);
    } else {
        assert(whole =~= rest);
    }
}

proof fn lemma_trimmed_end(text: Seq<char>, after: Seq<char>)
    requires
        forall|i: int| 0 <= i < after.len() ==> is_white_space(#[trigger] after[i]),
        text.len() > 0,
        !is_white_space(text.last()),
    ensures
        trimmed_end(text + after) == text,
    decreases after.len(),
{
    let whole = text + after;
    if after.len() > 0 {
        assert(whole.last() == after.last());
        assert(whole.drop_last() =~= text + after.drop_last());
        lemma_trimmed_end(text, after.drop_last());
    } else {
        assert(whole =~= text);
    }
}

} // verus!
