//! Where the store keeps an article, below its directory.
use crate::bytes;
use crate::bytes::decimal_bytes;
use crate::message_id::MessageId;
use crate::text::{decode, joined_within};
use crate::values;
use vstd::prelude::*;
use vstd::string::StringSliceAdditionalSpecFns;
use vstd::utf8;

verus! {

/// The longest name of a file in the store.
pub const MAX_ENCODED_BYTES: usize = 1024;

/// The message-id is too long for a file name.
#[derive(Debug, Clone, Copy, PartialEq, Eq, Structural)]
pub struct NameTooLong;

/// What an article is stored under.
#[derive(Debug)]
pub enum ArticleStoreKey<'a> {
    Number(u64),
    MessageId(&'a MessageId),
}

/// A number with at least three digits.
pub open spec fn three_digits(value: nat) -> Seq<u8> {
    if value < 10 {
        seq![48u8, 48u8] + bytes::decimal(value)
    } else if value < 100 {
        seq![48u8] + bytes::decimal(value)
    } else {
        bytes::decimal(value)
    }
}

/// The directories and the file for an article number: its millions, its thousands, itself.
pub open spec fn number_path(article_id: u64) -> Seq<Seq<u8>> {
    seq![
        three_digits((article_id / 1_000_000) as nat),
        three_digits(((article_id / 1_000) % 1_000) as nat),
        bytes::decimal(article_id as nat),
    ]
}

pub open spec fn hex_digit(value: int) -> u8 {
    if value < 10 {
        (48 + value) as u8
    } else {
        (87 + value) as u8
    }
}

/// Two lower-case hexadecimal digits for each byte.
pub open spec fn hex(text: Seq<u8>) -> Seq<u8> {
    Seq::new(
        2 * text.len(),
        |i: int|
            if i % 2 == 0 {
                hex_digit(text[i / 2] as int / 16)
            } else {
                hex_digit(text[i / 2] as int % 16)
            },
    )
}

/// The directories and the file for a message-id, by its hexadecimal form.
pub open spec fn message_id_path(id: Seq<u8>) -> Seq<Seq<u8>> {
    seq!["msgid".spec_bytes(), hex(id).subrange(0, 2), hex(id)]
}

/// The texts of a path.
pub open spec fn path_view(path: Seq<String>) -> Seq<Seq<u8>> {
    Seq::new(path.len(), |i: int| utf8::encode_utf8(path[i]@))
}

fn ascii_string(text: &[u8]) -> (string: String)
    requires
        forall|i: int| 0 <= i < text@.len() ==> #[trigger] text@[i] < 0x80,
    ensures
        utf8::encode_utf8(string@) == text@,
{
    proof {
        values::lemma_ascii_is_utf8(text@);
    }
    match decode(text) {
        Some(found) => found.to_owned(),
        None => {
            assert(false);
            "".to_owned()
        },
    }
}

proof fn lemma_decimal_is_ascii(value: nat)
    ensures
        forall|i: int|
            0 <= i < bytes::decimal(value).len() ==> #[trigger] bytes::decimal(value)[i] < 0x80,
{
    bytes::lemma_decimal(value);
    assert forall|i: int| 0 <= i < bytes::decimal(value).len() implies #[trigger] bytes::decimal(
        value,
    )[i] < 0x80 by {
        assert(bytes::is_digit(bytes::decimal(value)[i]));
    }
}

fn padded_number(value: u64) -> (text: String)
    ensures
        utf8::encode_utf8(text@) == three_digits(value as nat),
{
    let digits: Vec<u8> = decimal_bytes(value);
    let mut padded: Vec<u8> = Vec::new();
    if value < 10 {
        padded.push(48);
    }
    if value < 100 {
        padded.push(48);
    }
    padded.extend_from_slice(digits.as_slice());
    assert(padded@ =~= three_digits(value as nat));
    proof {
        lemma_decimal_is_ascii(value as nat);
    }
    ascii_string(padded.as_slice())
}

/// The path of an article number.
pub fn article_id_tree_path(article_id: u64) -> (path: Vec<String>)
    ensures
        path_view(path@) == number_path(article_id),
{
    let digits: Vec<u8> = decimal_bytes(article_id);
    proof {
        lemma_decimal_is_ascii(article_id as nat);
    }
    let top: String = padded_number(article_id / 1_000_000);
    let middle: String = padded_number((article_id / 1_000) % 1_000);
    let leaf: String = ascii_string(digits.as_slice());
    let mut path: Vec<String> = Vec::new();
    path.push(top);
    path.push(middle);
    path.push(leaf);
    assert(path_view(path@) =~= number_path(article_id));
    path
}

fn hex_byte(value: u8) -> (digit: u8)
    requires
        value < 16,
    ensures
        digit == hex_digit(value as int),
{
    if value < 10 {
        48 + value
    } else {
        87 + value
    }
}

/// The hexadecimal form of some bytes.
pub fn hex_lower(text: &[u8]) -> (encoded: Vec<u8>)
    ensures
        encoded@ == hex(text@),
{
    let mut encoded: Vec<u8> = Vec::new();
    let mut i: usize = 0;
    while i < text.len()
        invariant
            i <= text@.len(),
            encoded@ == hex(text@.subrange(0, i as int)),
        decreases text@.len() - i,
    {
        let ghost done = hex(text@.subrange(0, i as int));
        encoded.push(hex_byte(text[i] / 16));
        encoded.push(hex_byte(text[i] % 16));
        proof {
            let more = hex(text@.subrange(0, i + 1));
            assert forall|k: int| 0 <= k < more.len() implies encoded@[k] == more[k] by {
                if k < done.len() {
                    assert(done[k] == more[k]);
                } else if k == done.len() {
                    assert(k % 2 == 0 && k / 2 == i);
                } else {
                    assert(k % 2 == 1 && k / 2 == i);
                }
            }
            assert(encoded@ =~= more);
        }
        i = i + 1;
    }
    assert(text@.subrange(0, text@.len() as int) =~= text@);
    encoded
}

proof fn lemma_hex_is_ascii(text: Seq<u8>)
    ensures
        forall|i: int| 0 <= i < hex(text).len() ==> #[trigger] hex(text)[i] < 0x80,
{
}

/// The path of a message-id. A long one has none.
pub fn message_id_tree_path(message_id: &MessageId) -> (path: Result<Vec<String>, NameTooLong>)
    ensures
        match path {
            Ok(parts) => path_view(parts@) == message_id_path(message_id@) && 2 * message_id@.len()
                <= MAX_ENCODED_BYTES,
            Err(_) => 2 * message_id@.len() > MAX_ENCODED_BYTES,
        },
{
    let text: &[u8] = message_id.as_bytes();
    let encoded: Vec<u8> = hex_lower(text);
    proof {
        lemma_hex_is_ascii(text@);
    }
    let name: String = ascii_string(encoded.as_slice());
    let leaf: String = match joined_within::<MAX_ENCODED_BYTES>(name.as_str(), "") {
        Some(leaf) => leaf,
        None => {
            proof {
                reveal_strlit("");
                assert("".is_ascii());
            }
            return Err(NameTooLong);
        },
    };
    proof {
        reveal_strlit("");
        assert("".is_ascii());
        assert(name@ + ""@ =~= name@);
    }
    let start: &[u8] = &encoded.as_slice()[0..2];
    assert forall|i: int| 0 <= i < start@.len() implies #[trigger] start@[i] < 0x80 by {
        assert(start@[i] == encoded@[i]);
    }
    let middle: String = ascii_string(start);
    let mut path: Vec<String> = Vec::new();
    path.push("msgid".to_owned());
    path.push(middle);
    path.push(leaf);
    assert(path_view(path@) =~= message_id_path(message_id@));
    Ok(path)
}

/// The path of an article in the store.
pub fn store_path(key: ArticleStoreKey) -> (path: Result<Vec<String>, NameTooLong>)
    ensures
        match key {
            ArticleStoreKey::Number(article_id) => path matches Ok(parts) && path_view(parts@)
                == number_path(article_id),
            ArticleStoreKey::MessageId(id) => match path {
                Ok(parts) => path_view(parts@) == message_id_path(id@) && 2 * id@.len()
                    <= MAX_ENCODED_BYTES,
                Err(_) => 2 * id@.len() > MAX_ENCODED_BYTES,
            },
        },
{
    match key {
        ArticleStoreKey::Number(article_id) => Ok(article_id_tree_path(article_id)),
        ArticleStoreKey::MessageId(id) => message_id_tree_path(id),
    }
}

/// Two article numbers are never stored under one path.
pub proof fn law_number_paths_differ(first: u64, second: u64)
    requires
        number_path(first) == number_path(second),
    ensures
        first == second,
{
    assert(number_path(first)[2] == number_path(second)[2]);
    bytes::lemma_decimal(first as nat);
    bytes::lemma_decimal(second as nat);
}

/// Two message-ids are never stored under one path.
pub proof fn law_message_id_paths_differ(first: Seq<u8>, second: Seq<u8>)
    requires
        message_id_path(first) == message_id_path(second),
    ensures
        first == second,
{
    assert(message_id_path(first)[2] == message_id_path(second)[2]);
    let one = hex(first);
    let two = hex(second);
    assert(one.len() == two.len());
    assert forall|i: int| 0 <= i < first.len() implies first[i] == second[i] by {
        assert(one[2 * i] == two[2 * i]);
        assert(one[2 * i + 1] == two[2 * i + 1]);
        assert((2 * i) / 2 == i && (2 * i) % 2 == 0);
        assert((2 * i + 1) / 2 == i && (2 * i + 1) % 2 == 1);
    }
    assert(first =~= second);
}

/// An article number and a message-id are never stored under one path.
pub proof fn law_kinds_of_paths_differ(article_id: u64, id: Seq<u8>)
    ensures
        number_path(article_id) != message_id_path(id),
{
    reveal_strlit("msgid");
    assert("msgid".is_ascii());
    let top = number_path(article_id)[0];
    let value = (article_id / 1_000_000) as nat;
    bytes::lemma_decimal(value);
    assert(bytes::is_digit(bytes::decimal(value)[0]));
    assert(bytes::is_digit(top[0])) by {
        if value >= 100 {
            assert(top[0] == bytes::decimal(value)[0]);
        }
    }
    assert(message_id_path(id)[0][0] == 109);
}

/// A number with at least three digits: it writes the number, and has no leading zero that is not
/// needed for the third digit.
proof fn lemma_three_digits(value: nat)
    ensures
        bytes::all_digits(three_digits(value)),
        bytes::decimal_value(three_digits(value)) == value,
        three_digits(value).len() >= 3,
        three_digits(value).len() > 3 ==> three_digits(value)[0] != 48,
        value < 1_000 ==> three_digits(value).len() == 3,
{
    let digits = bytes::decimal(value);
    bytes::lemma_decimal(value);
    bytes::law_decimal_digits(value, 0);
    reveal_with_fuel(vstd::arithmetic::power::pow, 4);
    assert(vstd::arithmetic::power::pow(10, 1) == 10);
    assert(vstd::arithmetic::power::pow(10, 2) == 100);
    assert(vstd::arithmetic::power::pow(10, 3) == 1_000);
    reveal_with_fuel(bytes::decimal, 4);
    assert forall|i: int| 0 <= i < three_digits(value).len() implies bytes::is_digit(
        #[trigger] three_digits(value)[i],
    ) by {
        let zeros = three_digits(value).len() - digits.len();
        if i >= zeros {
            assert(three_digits(value)[i] == digits[i - zeros]);
        }
    }
    bytes::law_decimal_value_by_digits(digits, 48);
    bytes::law_decimal_value_by_digits(seq![48u8] + digits, 48);
    if value < 10 {
        assert(three_digits(value) =~= seq![48u8] + (seq![48u8] + digits));
    }
}

/// The path of an article number has three parts: its millions and its thousands with at least
/// three digits each, and the number itself.
pub proof fn law_number_path_parts(article_id: u64)
    ensures
        number_path(article_id).len() == 3,
        forall|i: int|
            0 <= i < 3 ==> bytes::all_digits(#[trigger] number_path(article_id)[i])
                && number_path(article_id)[i].len() > 0,
        bytes::decimal_value(number_path(article_id)[0]) == article_id as int / 1_000_000,
        bytes::decimal_value(number_path(article_id)[1]) == (article_id as int / 1_000) % 1_000,
        bytes::decimal_value(number_path(article_id)[2]) == article_id,
        number_path(article_id)[0].len() >= 3,
        number_path(article_id)[0].len() > 3 ==> number_path(article_id)[0][0] != 48,
        number_path(article_id)[1].len() == 3,
        article_id > 0 ==> number_path(article_id)[2][0] != 48,
        article_id == 0 ==> number_path(article_id)[2].len() == 1,
{
    lemma_three_digits((article_id / 1_000_000) as nat);
    lemma_three_digits(((article_id / 1_000) % 1_000) as nat);
    bytes::lemma_decimal(article_id as nat);
}

/// Articles whose numbers differ in the last three digits only share their directories.
pub proof fn law_thousand_articles_share_directories(first: u64, second: u64)
    requires
        first as int / 1_000 == second as int / 1_000,
    ensures
        number_path(first)[0] == number_path(second)[0],
        number_path(first)[1] == number_path(second)[1],
{
    assert(first / 1_000_000 == second / 1_000_000) by (nonlinear_arith)
        requires
            first / 1_000 == second / 1_000,
    ;
}

/// The value of a lower-case hexadecimal digit.
pub open spec fn hex_value(digit: u8) -> int {
    if 48 <= digit <= 57 {
        digit - 48
    } else {
        digit - 87
    }
}

/// The path of a message-id has three parts: a fixed directory, the first two hexadecimal digits of
/// the message-id, and all of them, of which each two write one byte in lower case.
pub proof fn law_message_id_path_parts(id: Seq<u8>, i: int)
    requires
        0 <= i < id.len(),
    ensures
        message_id_path(id).len() == 3,
        message_id_path(id)[0] == "msgid".spec_bytes(),
        message_id_path(id)[2].len() == 2 * id.len(),
        message_id_path(id)[1] == message_id_path(id)[2].take(2),
        ({
            let high = message_id_path(id)[2][2 * i];
            let low = message_id_path(id)[2][2 * i + 1];
            &&& 48 <= high <= 57 || 97 <= high <= 102
            &&& 48 <= low <= 57 || 97 <= low <= 102
            &&& id[i] == 16 * hex_value(high) + hex_value(low)
        }),
{
    assert((2 * i) / 2 == i && (2 * i) % 2 == 0);
    assert((2 * i + 1) / 2 == i && (2 * i + 1) % 2 == 1);
    assert(hex(id).subrange(0, 2) =~= hex(id).take(2));
}

} // verus!
