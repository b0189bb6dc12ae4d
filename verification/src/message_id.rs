//! Message-ids.
use crate::text::decode;
use crate::values;
use crate::values::check_message_id;
use vstd::prelude::*;
use vstd::string::{StringExecFns, StringSliceAdditionalSpecFns};
use vstd::utf8;

verus! {

/// A text is no message-id.
#[derive(Debug, Clone, Copy, PartialEq, Eq, Structural)]
pub struct InvalidMessageId;

/// A valid message-id in its angle brackets. Its view is its bytes.
#[derive(Debug, PartialEq, Eq)]
pub struct MessageId {
    value: String,
}

impl View for MessageId {
    type V = Seq<u8>;

    closed spec fn view(&self) -> Seq<u8> {
        utf8::encode_utf8(self.value@)
    }
}

/// The message-id that a text names: the text itself where it stands in angle brackets, the text
/// between angle brackets otherwise.
pub open spec fn bracketed(text: Seq<u8>) -> Seq<u8> {
    if text.len() > 0 && text[0] == 60 && text.last() == 62 {
        text
    } else {
        seq![60u8] + text + seq![62u8]
    }
}

/// The encoding of two texts one after the other.
pub proof fn lemma_encode_concat(first: Seq<char>, second: Seq<char>)
    ensures
        utf8::encode_utf8(first + second) == utf8::encode_utf8(first) + utf8::encode_utf8(second),
    decreases first.len(),
{
    if first.len() == 0 {
        assert(first + second =~= second);
        assert(utf8::encode_utf8(first) + utf8::encode_utf8(second) =~= utf8::encode_utf8(second));
    } else {
        lemma_encode_concat(first.drop_first(), second);
        assert((first + second).drop_first() =~= first.drop_first() + second);
        assert((first + second)[0] == first[0]);
        assert(utf8::encode_utf8(first + second) =~= utf8::encode_utf8(first)
            + utf8::encode_utf8(second));
    }
}

/// The bytes of the angle brackets.
pub proof fn lemma_brackets()
    ensures
        "<".spec_bytes() == seq![60u8],
        ">".spec_bytes() == seq![62u8],
{
    reveal_strlit("<");
    reveal_strlit(">");
    assert("<".is_ascii());
    assert(">".is_ascii());
    assert("<".spec_bytes() =~= seq![60u8]);
    assert(">".spec_bytes() =~= seq![62u8]);
}

/// The text stands in angle brackets.
pub(crate) fn is_bracketed(value: &str) -> (found: bool)
    ensures
        found == (value.spec_bytes().len() > 0 && value.spec_bytes()[0] == 60
            && value.spec_bytes().last() == 62),
{
    let text: &[u8] = value.as_bytes();
    text.len() > 0 && text[0] == 60 && text[text.len() - 1] == 62
}

impl MessageId {
    #[verifier::type_invariant]
    spec fn is_valid(self) -> bool {
        values::is_message_id(utf8::encode_utf8(self.value@))
    }

    /// The message-id that `value` writes with its angle brackets.
    pub fn from_borrowed(value: &str) -> (id: Result<MessageId, InvalidMessageId>)
        ensures
            match id {
                Ok(message_id) => values::is_message_id(value.spec_bytes()) && message_id@
                    == value.spec_bytes(),
                Err(_) => !values::is_message_id(value.spec_bytes()),
            },
    {
        if check_message_id(value.as_bytes()) {
            Ok(MessageId { value: value.to_owned() })
        } else {
            Err(InvalidMessageId)
        }
    }

    /// As `from_borrowed`, for a text that the caller gives away.
    pub fn from_shared(value: String) -> (id: Result<MessageId, InvalidMessageId>)
        ensures
            match id {
                Ok(message_id) => values::is_message_id(utf8::encode_utf8(value@)) && message_id@
                    == utf8::encode_utf8(value@),
                Err(_) => !values::is_message_id(utf8::encode_utf8(value@)),
            },
    {
        if check_message_id(value.as_str().as_bytes()) {
            Ok(MessageId { value })
        } else {
            Err(InvalidMessageId)
        }
    }

    /// The message-id that `value` writes with its angle brackets or without them.
    pub fn from_str_or_wrap(value: &str) -> (id: Result<MessageId, InvalidMessageId>)
        ensures
            match id {
                Ok(message_id) => values::is_message_id(bracketed(value.spec_bytes()))
                    && message_id@ == bracketed(value.spec_bytes()),
                Err(_) => !values::is_message_id(bracketed(value.spec_bytes())),
            },
    {
        if is_bracketed(value) {
            return MessageId::from_borrowed(value);
        }
        let mut wrapped: String = String::from_str("<");
        wrapped.append(value);
        wrapped.append(">");
        proof {
            lemma_encode_concat("<"@, value@);
            lemma_encode_concat("<"@ + value@, ">"@);
            lemma_brackets();
        }
        MessageId::from_shared(wrapped)
    }

    /// The message-id that the bytes write with its angle brackets.
    pub fn from_bytes(value: &[u8]) -> (id: Option<MessageId>)
        ensures
            match id {
                Some(message_id) => values::is_message_id(value@) && message_id@ == value@,
                None => !values::is_message_id(value@),
            },
    {
        if !check_message_id(value) {
            return None;
        }
        proof {
            values::lemma_message_id_is_ascii(value@);
        }
        match decode(value) {
            Some(text) => Some(MessageId { value: text.to_owned() }),
            None => None,
        }
    }

    pub fn as_str(&self) -> (text: &str)
        ensures
            text.spec_bytes() == self@,
    {
        self.value.as_str()
    }

    /// The message-id is valid, as every value of the type.
    pub fn as_bytes(&self) -> (text: &[u8])
        ensures
            text@ == self@,
            values::is_message_id(text@),
    {
        proof {
            use_type_invariant(self);
        }
        self.value.as_str().as_bytes()
    }
}

impl Clone for MessageId {
    fn clone(&self) -> (copy: MessageId)
        ensures
            copy@ == self@,
            values::is_message_id(copy@),
    {
        proof {
            use_type_invariant(self);
        }
        MessageId { value: self.value.clone() }
    }
}

/// A message-id can be written with its angle brackets or without them: both name the same one, and
/// what is named stands in angle brackets.
pub proof fn law_brackets_may_be_left_out(text: Seq<u8>)
    ensures
        bracketed(bracketed(text)) == bracketed(text),
        bracketed(text)[0] == 60 && bracketed(text).last() == 62,
        text.len() > 0 && text[0] != 60 ==> bracketed(text) == seq![60u8] + text + seq![62u8]
            && bracketed(seq![60u8] + text + seq![62u8]) == bracketed(text),
        text.len() > 0 && text.last() != 62 ==> bracketed(text) == seq![60u8] + text + seq![62u8],
        values::is_message_id(text) ==> bracketed(text) == text,
{
}

} // verus!
