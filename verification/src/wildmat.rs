//! Patterns over newsgroup names.
use crate::text::{characters, decode};
use vstd::prelude::*;
use vstd::string::StringSliceAdditionalSpecFns;
use vstd::utf8;

verus! {

/// `pattern` covers the whole of `name`: a star stands for any run of characters, a question
/// mark for one character, and every other character for itself.
pub open spec fn pattern_covers(pattern: Seq<char>, name: Seq<char>) -> bool
    decreases pattern.len() + name.len(),
{
    if pattern.len() == 0 {
        name.len() == 0
    } else if pattern[0] == '*' {
        pattern_covers(pattern.drop_first(), name) || (name.len() > 0 && pattern_covers(
            pattern,
            name.drop_first(),
        ))
    } else if name.len() == 0 {
        false
    } else {
        (pattern[0] == '?' || pattern[0] == name[0]) && pattern_covers(
            pattern.drop_first(),
            name.drop_first(),
        )
    }
}

/// What one pattern of a list says of a name: nothing unless it covers the name; then that the
/// name is in, or out where the pattern starts with an exclamation mark.
pub open spec fn pattern_verdict(pattern: Seq<char>, name: Seq<char>) -> Option<bool> {
    if pattern.len() > 0 && pattern[0] == '!' {
        if pattern_covers(pattern.drop_first(), name) {
            Some(false)
        } else {
            None
        }
    } else if pattern_covers(pattern, name) {
        Some(true)
    } else {
        None
    }
}

/// The index of the first comma at or after `from`, or the length.
pub open spec fn comma_from(list: Seq<char>, from: int) -> int
    decreases list.len() - from,
{
    if from < 0 || from >= list.len() {
        list.len() as int
    } else if list[from] == ',' {
        from
    } else {
        comma_from(list, from + 1)
    }
}

/// What a comma-separated list of patterns says of a name: what the last pattern says that says
/// anything.
pub open spec fn list_verdict(list: Seq<char>, name: Seq<char>, from: int) -> Option<bool>
    decreases list.len() - from,
{
    if from < 0 || from > list.len() {
        None
    } else {
        let end = comma_from(list, from);
        let head = pattern_verdict(list.subrange(from, end), name);
        if from <= end < list.len() {
            match list_verdict(list, name, end + 1) {
                Some(verdict) => Some(verdict),
                None => head,
            }
        } else {
            head
        }
    }
}

/// A wildmat and a group name, both in UTF-8, match.
pub open spec fn wildmat_covers(patterns: Seq<u8>, group: Seq<u8>) -> bool {
    utf8::valid_utf8(patterns) && utf8::valid_utf8(group) && list_verdict(
        utf8::decode_utf8(patterns),
        utf8::decode_utf8(group),
        0,
    ) == Some(true)
}

fn matches_from(pattern: &[char], at: usize, end: usize, name: &[char], from: usize) -> (covers:
    bool)
    requires
        at <= end <= pattern@.len(),
        from <= name@.len(),
    ensures
        covers == pattern_covers(
            pattern@.subrange(at as int, end as int),
            name@.subrange(from as int, name@.len() as int),
        ),
    decreases end - at + name@.len() - from,
{
    let ghost whole = pattern@.subrange(at as int, end as int);
    let ghost rest = name@.subrange(from as int, name@.len() as int);
    if at == end {
        return from == name.len();
    }
    assert(whole.drop_first() =~= pattern@.subrange(at + 1, end as int));
    if from < name.len() {
        assert(rest.drop_first() =~= name@.subrange(from + 1, name@.len() as int));
    }
    if pattern[at] == '*' {
        if matches_from(pattern, at + 1, end, name, from) {
            return true;
        }
        from < name.len() && matches_from(pattern, at, end, name, from + 1)
    } else if from == name.len() {
        false
    } else if pattern[at] == '?' || pattern[at] == name[from] {
        matches_from(pattern, at + 1, end, name, from + 1)
    } else {
        false
    }
}

/// The pattern covers the name.
pub fn wildmat_pattern_matches(pattern: &str, group: &str) -> (covers: bool)
    ensures
        covers == pattern_covers(pattern@, group@),
{
    let pattern_chars: Vec<char> = characters(pattern);
    let group_chars: Vec<char> = characters(group);
    assert(pattern@.subrange(0, pattern@.len() as int) =~= pattern@);
    assert(group@.subrange(0, group@.len() as int) =~= group@);
    matches_from(pattern_chars.as_slice(), 0, pattern_chars.len(), group_chars.as_slice(), 0)
}

fn comma_after(list: &[char], from: usize) -> (index: usize)
    requires
        from <= list@.len(),
    ensures
        index == comma_from(list@, from as int),
        from <= index <= list@.len(),
{
    let mut index: usize = from;
    while index < list.len() && list[index] != ','
        invariant
            from <= index <= list@.len(),
            comma_from(list@, from as int) == comma_from(list@, index as int),
        decreases list@.len() - index,
    {
        index = index + 1;
    }
    index
}

fn single_verdict(list: &[char], from: usize, end: usize, name: &[char]) -> (verdict: Option<bool>)
    requires
        from <= end <= list@.len(),
    ensures
        verdict == pattern_verdict(list@.subrange(from as int, end as int), name@),
{
    assert(name@.subrange(0, name@.len() as int) =~= name@);
    if from < end && list[from] == '!' {
        assert(list@.subrange(from as int, end as int).drop_first() =~= list@.subrange(
            from + 1,
            end as int,
        ));
        if matches_from(list, from + 1, end, name, 0) {
            Some(false)
        } else {
            None
        }
    } else if matches_from(list, from, end, name, 0) {
        Some(true)
    } else {
        None
    }
}

/// A later verdict replaces an earlier one.
pub open spec fn latest(later: Option<bool>, earlier: Option<bool>) -> Option<bool> {
    match later {
        Some(verdict) => Some(verdict),
        None => earlier,
    }
}

fn verdict_of_list(list: &[char], name: &[char]) -> (verdict: Option<bool>)
    ensures
        verdict == list_verdict(list@, name@, 0),
{
    let mut matched: Option<bool> = None;
    let mut from: usize = 0;
    loop
        invariant
            from <= list@.len(),
            list_verdict(list@, name@, 0) == latest(
                list_verdict(list@, name@, from as int),
                matched,
            ),
        decreases list@.len() - from,
    {
        let end: usize = comma_after(list, from);
        match single_verdict(list, from, end, name) {
            Some(verdict) => {
                matched = Some(verdict);
            },
            None => {},
        }
        if end == list.len() {
            return matched;
        }
        from = end + 1;
    }
}

/// The comma-separated `patterns` select `group`.
pub fn wildmat_matches(patterns: &[u8], group: &[u8]) -> (matched: bool)
    ensures
        matched == wildmat_covers(patterns@, group@),
{
    let list: &str = match decode(patterns) {
        Some(list) => list,
        None => {
            return false;
        },
    };
    let name: &str = match decode(group) {
        Some(name) => name,
        None => {
            return false;
        },
    };
    proof {
        utf8::encode_utf8_decode_utf8(list@);
        utf8::encode_utf8_decode_utf8(name@);
    }
    let list_chars: Vec<char> = characters(list);
    let name_chars: Vec<char> = characters(name);
    match verdict_of_list(list_chars.as_slice(), name_chars.as_slice()) {
        Some(verdict) => verdict,
        None => false,
    }
}

proof fn lemma_comma_from(list: Seq<char>, from: int)
    requires
        0 <= from <= list.len(),
    ensures
        from <= comma_from(list, from) <= list.len(),
        forall|j: int| from <= j < comma_from(list, from) ==> list[j] != ',',
        comma_from(list, from) < list.len() ==> list[comma_from(list, from)] == ',',
    decreases list.len() - from,
{
    if from < list.len() && list[from] != ',' {
        lemma_comma_from(list, from + 1);
    }
}

proof fn lemma_comma_from_is(list: Seq<char>, from: int, at: int)
    requires
        0 <= from <= at <= list.len(),
        forall|j: int| from <= j < at ==> list[j] != ',',
        at < list.len() ==> list[at] == ',',
    ensures
        comma_from(list, from) == at,
    decreases at - from,
{
    if from < at {
        lemma_comma_from_is(list, from + 1, at);
    }
}

proof fn lemma_appended_pattern(list: Seq<char>, pattern: Seq<char>, name: Seq<char>, from: int)
    requires
        0 <= from <= list.len(),
        forall|j: int| 0 <= j < pattern.len() ==> pattern[j] != ',',
    ensures
        list_verdict(list + seq![','] + pattern, name, from) == latest(
            pattern_verdict(pattern, name),
            list_verdict(list, name, from),
        ),
    decreases list.len() - from,
{
    let whole = list + seq![','] + pattern;
    lemma_comma_from(list, from);
    let end = comma_from(list, from);
    lemma_comma_from_is(whole, from, end);
    assert(whole.subrange(from, end) =~= list.subrange(from, end));
    if end < list.len() {
        lemma_appended_pattern(list, pattern, name, end + 1);
    } else {
        lemma_comma_from_is(whole, list.len() as int + 1, whole.len() as int);
        assert(whole.subrange(list.len() as int + 1, whole.len() as int) =~= pattern);
    }
}

/// The rightmost pattern that covers a name decides: a pattern added at the end of a list
/// overrules the list on the names that it covers, and changes nothing on the others.
pub proof fn law_last_pattern_decides(list: Seq<char>, pattern: Seq<char>, name: Seq<char>)
    requires
        forall|j: int| 0 <= j < pattern.len() ==> pattern[j] != ',',
    ensures
        list_verdict(list + seq![','] + pattern, name, 0) == latest(
            pattern_verdict(pattern, name),
            list_verdict(list, name, 0),
        ),
{
    lemma_appended_pattern(list, pattern, name, 0);
}

/// A star covers any start of a name: a pattern behind it is to cover some end of the name.
pub proof fn law_star_covers_any_start(pattern: Seq<char>, name: Seq<char>)
    ensures
        pattern_covers(seq!['*'] + pattern, name) <==> exists|k: int|
            0 <= k <= name.len() && pattern_covers(pattern, #[trigger] name.skip(k)),
    decreases name.len(),
{
    let whole = seq!['*'] + pattern;
    assert(whole.drop_first() =~= pattern);
    assert(name.skip(0) =~= name);
    if name.len() > 0 {
        let rest = name.drop_first();
        law_star_covers_any_start(pattern, rest);
        if pattern_covers(whole, rest) {
            let k = choose|k: int|
                0 <= k <= rest.len() && pattern_covers(pattern, #[trigger] rest.skip(k));
            assert(rest.skip(k) =~= name.skip(k + 1));
        }
        if exists|k: int| 0 <= k <= name.len() && pattern_covers(pattern, #[trigger] name.skip(k)) {
            let k = choose|k: int|
                0 <= k <= name.len() && pattern_covers(pattern, #[trigger] name.skip(k));
            if k > 0 {
                assert(rest.skip(k - 1) =~= name.skip(k));
            }
        }
    } else if exists|k: int|
        0 <= k <= name.len() && pattern_covers(pattern, #[trigger] name.skip(k)) {
        let k = choose|k: int|
            0 <= k <= name.len() && pattern_covers(pattern, #[trigger] name.skip(k));
        assert(k == 0);
    }
}

/// A question mark covers exactly one character, whichever it is.
pub proof fn law_question_mark_covers_one(pattern: Seq<char>, name: Seq<char>)
    ensures
        pattern_covers(seq!['?'] + pattern, name) <==> name.len() > 0 && pattern_covers(
            pattern,
            name.skip(1),
        ),
{
    assert((seq!['?'] + pattern).drop_first() =~= pattern);
    if name.len() > 0 {
        assert(name.drop_first() =~= name.skip(1));
    }
}

/// A pattern without stars and question marks covers itself and nothing else.
pub proof fn law_plain_pattern_covers_itself(text: Seq<char>, name: Seq<char>)
    requires
        !text.contains('*'),
        !text.contains('?'),
    ensures
        pattern_covers(text, name) <==> name == text,
    decreases text.len(),
{
    if text.len() == 0 {
        assert(name.len() == 0 ==> name =~= text);
    } else {
        assert(text.contains(text[0]));
        let rest = text.drop_first();
        assert forall|c: char| rest.contains(c) implies text.contains(c) by {
            let i = choose|i: int| 0 <= i < rest.len() && rest[i] == c;
            assert(text[i + 1] == c);
        }
        if name.len() > 0 {
            law_plain_pattern_covers_itself(rest, name.drop_first());
            if name[0] == text[0] && name.drop_first() == rest {
                assert(name =~= seq![name[0]] + name.drop_first());
                assert(text =~= seq![text[0]] + rest);
            }
        }
    }
}

/// A star and then a text without stars and question marks covers exactly the names that end in
/// that text.
pub proof fn law_star_and_text_covers_the_names_that_end_so(text: Seq<char>, name: Seq<char>)
    requires
        !text.contains('*'),
        !text.contains('?'),
    ensures
        pattern_covers(seq!['*'] + text, name) <==> text.len() <= name.len() && name.skip(
            name.len() - text.len(),
        ) == text,
{
    law_star_covers_any_start(text, name);
    if pattern_covers(seq!['*'] + text, name) {
        let k = choose|k: int| 0 <= k <= name.len() && pattern_covers(text, #[trigger] name.skip(k));
        law_plain_pattern_covers_itself(text, name.skip(k));
        assert(k == name.len() - text.len());
    }
    if text.len() <= name.len() && name.skip(name.len() - text.len()) == text {
        law_plain_pattern_covers_itself(text, name.skip(name.len() - text.len()));
    }
}

/// A text without stars and question marks and then a star covers exactly the names that start
/// with that text.
pub proof fn law_text_and_star_covers_the_names_that_start_so(text: Seq<char>, name: Seq<char>)
    requires
        !text.contains('*'),
        !text.contains('?'),
    ensures
        pattern_covers(text + seq!['*'], name) <==> text.len() <= name.len() && name.take(
            text.len() as int,
        ) == text,
{
    law_patterns_join(text, seq!['*'], name);
    assert forall|rest: Seq<char>| #[trigger] pattern_covers(seq!['*'], rest) by {
        law_one_character_pattern('*', rest);
    }
    if pattern_covers(text + seq!['*'], name) {
        let k = choose|k: int|
            0 <= k <= name.len() && pattern_covers(text, #[trigger] name.take(k))
                && pattern_covers(seq!['*'], name.skip(k));
        law_plain_pattern_covers_itself(text, name.take(k));
        assert(k == text.len());
    }
    if text.len() <= name.len() && name.take(text.len() as int) == text {
        law_plain_pattern_covers_itself(text, name.take(text.len() as int));
    }
}

/// A pattern of one character covers any name where it is a star, any name of one character where
/// it is a question mark, and itself otherwise.
pub proof fn law_one_character_pattern(c: char, name: Seq<char>)
    ensures
        pattern_covers(seq![c], name) <==> c == '*' || (name.len() == 1 && (c == '?' || name[0]
            == c)),
{
    let none = Seq::<char>::empty();
    assert(seq![c].drop_first() =~= none);
    if c == '*' {
        law_star_covers_any_start(none, name);
        assert(seq!['*'] + none =~= seq![c]);
        assert(name.skip(name.len() as int) =~= none);
        assert(pattern_covers(none, name.skip(name.len() as int)));
    } else if name.len() > 0 {
        assert(pattern_covers(none, name.drop_first()) <==> name.drop_first().len() == 0);
    }
}

/// Two patterns one after the other cover a name exactly where the name can be cut in two, of
/// which the first pattern covers the start and the second the rest.
pub proof fn law_patterns_join(first: Seq<char>, second: Seq<char>, name: Seq<char>)
    ensures
        pattern_covers(first + second, name) <==> exists|k: int|
            0 <= k <= name.len() && pattern_covers(first, #[trigger] name.take(k))
                && pattern_covers(second, name.skip(k)),
    decreases first.len() + name.len(),
{
    let whole = first + second;
    if first.len() == 0 {
        assert(whole =~= second);
        assert(name.skip(0) =~= name);
        if pattern_covers(second, name) {
            assert(pattern_covers(first, name.take(0)));
        }
    } else {
        let tail = first.drop_first();
        assert(whole.drop_first() =~= tail + second);
        if first[0] == '*' {
            law_patterns_join(tail, second, name);
            if name.len() > 0 {
                law_patterns_join(first, second, name.drop_first());
            }
            if pattern_covers(whole, name) {
                if pattern_covers(tail + second, name) {
                    let k = choose|k: int|
                        0 <= k <= name.len() && pattern_covers(tail, #[trigger] name.take(k))
                            && pattern_covers(second, name.skip(k));
                    assert(pattern_covers(first, name.take(k)));
                } else {
                    let rest = name.drop_first();
                    let k = choose|k: int|
                        0 <= k <= rest.len() && pattern_covers(first, #[trigger] rest.take(k))
                            && pattern_covers(second, rest.skip(k));
                    assert(name.take(k + 1).drop_first() =~= rest.take(k));
                    assert(name.skip(k + 1) =~= rest.skip(k));
                    assert(pattern_covers(first, name.take(k + 1)));
                }
            }
            if exists|k: int|
                0 <= k <= name.len() && pattern_covers(first, #[trigger] name.take(k))
                    && pattern_covers(second, name.skip(k)) {
                let k = choose|k: int|
                    0 <= k <= name.len() && pattern_covers(first, #[trigger] name.take(k))
                        && pattern_covers(second, name.skip(k));
                if !pattern_covers(tail, name.take(k)) {
                    assert(k > 0);
                    let rest = name.drop_first();
                    assert(name.take(k).drop_first() =~= rest.take(k - 1));
                    assert(name.skip(k) =~= rest.skip(k - 1));
                    assert(pattern_covers(first, rest.take(k - 1)));
                    assert(pattern_covers(whole, rest));
                } else {
                    assert(pattern_covers(tail + second, name));
                }
            }
        } else {
            if name.len() > 0 {
                let rest = name.drop_first();
                law_patterns_join(tail, second, rest);
                if pattern_covers(whole, name) {
                    let k = choose|k: int|
                        0 <= k <= rest.len() && pattern_covers(tail, #[trigger] rest.take(k))
                            && pattern_covers(second, rest.skip(k));
                    assert(name.take(k + 1).drop_first() =~= rest.take(k));
                    assert(name.skip(k + 1) =~= rest.skip(k));
                    assert(pattern_covers(first, name.take(k + 1)));
                }
                if exists|k: int|
                    0 <= k <= name.len() && pattern_covers(first, #[trigger] name.take(k))
                        && pattern_covers(second, name.skip(k)) {
                    let k = choose|k: int|
                        0 <= k <= name.len() && pattern_covers(first, #[trigger] name.take(k))
                            && pattern_covers(second, name.skip(k));
                    assert(k > 0);
                    assert(name.take(k).drop_first() =~= rest.take(k - 1));
                    assert(name.skip(k) =~= rest.skip(k - 1));
                    assert(pattern_covers(tail, rest.take(k - 1)));
                    assert(name.take(k)[0] == name[0]);
                }
            }
        }
    }
}

/// The list of patterns selects the name.
pub open spec fn list_selects(list: Seq<char>, name: Seq<char>) -> bool {
    list_verdict(list, name, 0) == Some(true)
}

/// A list of one pattern selects the names that the pattern covers; with an exclamation mark
/// before it, it selects none.
pub proof fn law_single_pattern_selects(pattern: Seq<char>, name: Seq<char>)
    requires
        !pattern.contains(','),
    ensures
        !seq!['!'].is_prefix_of(pattern) ==> (list_selects(pattern, name) <==> pattern_covers(
            pattern,
            name,
        )),
        !list_selects(seq!['!'] + pattern, name),
{
    let out = seq!['!'] + pattern;
    assert forall|j: int| 0 <= j < pattern.len() implies pattern[j] != ',' by {
        assert(pattern.contains(pattern[j]));
    }
    lemma_comma_from_is(pattern, 0, pattern.len() as int);
    lemma_comma_from_is(out, 0, out.len() as int);
    assert(pattern.subrange(0, pattern.len() as int) =~= pattern);
    assert(out.subrange(0, out.len() as int) =~= out);
    if pattern.len() > 0 && pattern[0] == '!' {
        assert(seq!['!'].is_prefix_of(pattern));
    }
}

/// One more pattern adds the names that it covers to those that the list selects; with an
/// exclamation mark before it, it takes them away.
pub proof fn law_pattern_adds_or_takes_away(list: Seq<char>, pattern: Seq<char>, name: Seq<char>)
    requires
        !pattern.contains(','),
    ensures
        !seq!['!'].is_prefix_of(pattern) ==> (list_selects(list + seq![','] + pattern, name) <==> (
        list_selects(list, name) || pattern_covers(pattern, name))),
        list_selects(list + seq![','] + (seq!['!'] + pattern), name) <==> (list_selects(list, name)
            && !pattern_covers(pattern, name)),
{
    let out = seq!['!'] + pattern;
    assert forall|j: int| 0 <= j < pattern.len() implies pattern[j] != ',' by {
        assert(pattern.contains(pattern[j]));
    }
    law_last_pattern_decides(list, pattern, name);
    law_last_pattern_decides(list, out, name);
    assert(out.drop_first() =~= pattern);
    if pattern.len() > 0 && pattern[0] == '!' {
        assert(seq!['!'].is_prefix_of(pattern));
    }
}

/// A wildmat on the wire selects what its characters select; bytes that are no text select nothing
/// and are not selected.
pub proof fn law_wildmat_goes_by_characters(list: Seq<char>, name: Seq<char>, other: Seq<u8>)
    ensures
        wildmat_covers(utf8::encode_utf8(list), utf8::encode_utf8(name)) <==> list_selects(
            list,
            name,
        ),
        !utf8::valid_utf8(other) ==> !wildmat_covers(other, utf8::encode_utf8(name))
            && !wildmat_covers(utf8::encode_utf8(list), other),
{
    utf8::encode_utf8_valid_utf8(list);
    utf8::encode_utf8_valid_utf8(name);
    utf8::encode_utf8_decode_utf8(list);
    utf8::encode_utf8_decode_utf8(name);
}

} // verus!
