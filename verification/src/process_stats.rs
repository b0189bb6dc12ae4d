//! What the system reports of the process: the time it took and the memory it holds.
use crate::bytes;
use crate::bytes::parse_number;
use crate::text;
use crate::text::{characters, decode};
use vstd::prelude::*;
use vstd::string::StringSliceAdditionalSpecFns;
use vstd::utf8;

verus! {

/// The first index at or after `from` without white space, or the length.
pub open spec fn field_start(line: Seq<char>, from: int) -> int
    decreases line.len() - from,
{
    if from < 0 || from >= line.len() {
        line.len() as int
    } else if text::is_white_space(line[from]) {
        field_start(line, from + 1)
    } else {
        from
    }
}

/// The first index at or after `from` with white space, or the length.
pub open spec fn field_end(line: Seq<char>, from: int) -> int
    decreases line.len() - from,
{
    if from < 0 || from >= line.len() {
        line.len() as int
    } else if text::is_white_space(line[from]) {
        from
    } else {
        field_end(line, from + 1)
    }
}

/// The start and the end of the field that comes after `skip` others.
pub open spec fn field_place(line: Seq<char>, from: int, skip: nat) -> Option<(int, int)>
    decreases skip,
{
    let start = field_start(line, from);
    let end = field_end(line, start);
    if start >= line.len() {
        None
    } else if skip == 0 {
        Some((start, end))
    } else {
        field_place(line, end, (skip - 1) as nat)
    }
}

/// The number that a field writes in ASCII digits.
pub open spec fn field_number(field: Seq<char>) -> Option<u64> {
    if exists|i: int| 0 <= i < field.len() && field[i] as u32 >= 0x80 {
        None
    } else {
        bytes::number(Seq::new(field.len(), |i: int| (field[i] as u32) as u8))
    }
}

fn is_space(c: char) -> (space: bool)
    ensures
        space == text::is_white_space(c),
{
    let code: u32 = c as u32;
    (9 <= code && code <= 13) || code == 0x20 || code == 0x85 || code == 0xa0 || code == 0x1680 || (
    0x2000 <= code && code <= 0x200a) || code == 0x2028 || code == 0x2029 || code == 0x202f || code
        == 0x205f || code == 0x3000
}

fn find_field(line: &[char], from: usize, skip: usize) -> (place: Option<(usize, usize)>)
    requires
        from <= line@.len(),
    ensures
        match place {
            Some((start, end)) => field_place(line@, from as int, skip as nat) == Some(
                (start as int, end as int),
            ) && from <= start <= end <= line@.len(),
            None => field_place(line@, from as int, skip as nat) is None,
        },
    decreases skip,
{
    let mut start: usize = from;
    while start < line.len() && is_space(line[start])
        invariant
            from <= start <= line@.len(),
            field_start(line@, from as int) == field_start(line@, start as int),
        decreases line@.len() - start,
    {
        start = start + 1;
    }
    if start >= line.len() {
        return None;
    }
    let mut end: usize = start;
    while end < line.len() && !is_space(line[end])
        invariant
            start <= end <= line@.len(),
            field_end(line@, start as int) == field_end(line@, end as int),
        decreases line@.len() - end,
    {
        end = end + 1;
    }
    if skip == 0 {
        Some((start, end))
    } else {
        find_field(line, end, skip - 1)
    }
}

fn parse_field(field: &[char]) -> (value: Option<u64>)
    ensures
        value == field_number(field@),
{
    let mut digits: Vec<u8> = Vec::new();
    let mut i: usize = 0;
    while i < field.len()
        invariant
            i <= field@.len(),
            digits@ == Seq::new(i as nat, |j: int| (field@[j] as u32) as u8),
            forall|j: int| 0 <= j < i ==> (#[trigger] field@[j] as u32) < 0x80,
        decreases field@.len() - i,
    {
        let code: u32 = field[i] as u32;
        if code >= 0x80 {
            assert(field@[i as int] as u32 >= 0x80);
            return None;
        }
        digits.push(code as u8);
        assert(digits@ =~= Seq::new((i + 1) as nat, |j: int| (field@[j] as u32) as u8));
        i = i + 1;
    }
    parse_number(digits.as_slice())
}

/// The last index of a closing bracket with a space behind it.
pub open spec fn last_bracket(line: Seq<char>, before: int) -> Option<int>
    decreases before,
{
    if before <= 0 {
        None
    } else if before < line.len() && line[before - 1] == ')' && line[before] == ' ' {
        Some(before - 1)
    } else {
        last_bracket(line, before - 1)
    }
}

/// The ticks in a line of process statistics: the twelfth and the thirteenth field behind the
/// name in brackets together. The sum wraps around.
pub open spec fn ticks_of(stat: Seq<u8>) -> Option<u64> {
    let line = utf8::decode_utf8(stat);
    if !utf8::valid_utf8(stat) {
        None
    } else {
        match last_bracket(line, line.len() as int) {
            None => None,
            Some(bracket) => {
                let fields = line.subrange(bracket + 2, line.len() as int);
                match (field_place(fields, 0, 11), field_place(fields, 0, 12)) {
                    (Some(user), Some(system)) => match (
                        field_number(fields.subrange(user.0, user.1)),
                        field_number(fields.subrange(system.0, system.1)),
                    ) {
                        (Some(first), Some(second)) => Some(first.wrapping_add(second)),
                        _ => None,
                    },
                    _ => None,
                }
            },
        }
    }
}

pub fn process_cpu_ticks(stat: &[u8]) -> (ticks: Option<u64>)
    ensures
        ticks == ticks_of(stat@),
{
    let line: Vec<char> = match decode(stat) {
        Some(found) => {
            proof {
                utf8::encode_utf8_decode_utf8(found@);
            }
            characters(found)
        },
        None => {
            return None;
        },
    };
    assert(line@ == utf8::decode_utf8(stat@));
    let mut before: usize = line.len();
    while before > 0 && !(before < line.len() && line[before - 1] == ')' && line[before] == ' ')
        invariant
            before <= line@.len(),
            last_bracket(line@, line@.len() as int) == last_bracket(line@, before as int),
        decreases before,
    {
        before = before - 1;
    }
    if before == 0 {
        return None;
    }
    let fields: &[char] = &line.as_slice()[before + 1..line.len()];
    assert(fields@ == line@.subrange(before + 1, line@.len() as int));
    match (find_field(fields, 0, 11), find_field(fields, 0, 12)) {
        (Some((user_start, user_end)), Some((system_start, system_end))) => {
            match (
                parse_field(&fields[user_start..user_end]),
                parse_field(&fields[system_start..system_end]),
            ) {
                (Some(user), Some(system)) => Some(user.wrapping_add(system)),
                _ => None,
            }
        },
        _ => None,
    }
}

/// The index of the first line feed at or after `from`, or the length.
pub open spec fn feed_from(status: Seq<char>, from: int) -> int
    decreases status.len() - from,
{
    if from < 0 || from >= status.len() {
        status.len() as int
    } else if status[from] == '\n' {
        from
    } else {
        feed_from(status, from + 1)
    }
}

pub open spec fn begins(line: Seq<char>, label: Seq<char>) -> bool {
    line.len() >= label.len() && line.subrange(0, label.len() as int) == label
}

/// The number in the first field behind a label of six characters.
pub open spec fn labelled_number(line: Seq<char>) -> Option<u64> {
    match field_place(line, 6, 0) {
        Some(place) => field_number(line.subrange(place.0, place.1)),
        None => None,
    }
}

/// The memory in the lines from `from` on, when those before give `known`: the peak where one is
/// reported, else the last present value.
pub open spec fn memory_from(status: Seq<char>, from: int, known: u64) -> u64
    decreases status.len() - from + 1,
{
    let end = feed_from(status, from);
    let line = status.subrange(from, end);
    if from < 0 || from >= status.len() || !(from <= end <= status.len()) {
        known
    } else if begins(line, "VmHWM:"@) && labelled_number(line) is Some {
        labelled_number(line)->0
    } else if begins(line, "VmRSS:"@) && labelled_number(line) is Some {
        memory_from(status, end + 1, labelled_number(line)->0)
    } else {
        memory_from(status, end + 1, known)
    }
}

/// The memory of the process in KiB, by its status.
pub open spec fn memory_of(status: Seq<u8>) -> u64 {
    if utf8::valid_utf8(status) {
        memory_from(utf8::decode_utf8(status), 0, 0)
    } else {
        0
    }
}

fn starts_with_label(line: &[char], label: &str) -> (found: bool)
    ensures
        found == begins(line@, label@),
{
    let wanted: Vec<char> = characters(label);
    if line.len() < wanted.len() {
        return false;
    }
    let mut i: usize = 0;
    while i < wanted.len()
        invariant
            i <= wanted@.len() <= line@.len(),
            wanted@ == label@,
            forall|j: int| 0 <= j < i ==> line@[j] == wanted@[j],
        decreases wanted@.len() - i,
    {
        if line[i] != wanted[i] {
            assert(line@.subrange(0, label@.len() as int)[i as int] != label@[i as int]);
            return false;
        }
        i = i + 1;
    }
    assert(line@.subrange(0, label@.len() as int) =~= label@);
    true
}

fn number_behind_label(line: &[char]) -> (value: Option<u64>)
    requires
        line@.len() >= 6,
    ensures
        value == labelled_number(line@),
{
    match find_field(line, 6, 0) {
        Some((start, end)) => parse_field(&line[start..end]),
        None => None,
    }
}

pub fn process_rss_kib(status: &[u8]) -> (memory: u64)
    ensures
        memory == memory_of(status@),
{
    proof {
        reveal_strlit("VmHWM:");
        reveal_strlit("VmRSS:");
    }
    let all: Vec<char> = match decode(status) {
        Some(found) => {
            proof {
                utf8::encode_utf8_decode_utf8(found@);
            }
            characters(found)
        },
        None => {
            return 0;
        },
    };
    let mut start: usize = 0;
    let mut memory: u64 = 0;
    while start < all.len()
        invariant
            "VmHWM:"@.len() == 6,
            "VmRSS:"@.len() == 6,
            memory_of(status@) == memory_from(all@, start as int, memory),
        decreases all@.len() - start,
    {
        let mut end: usize = start;
        while end < all.len() && all[end] != '\n'
            invariant
                start <= end <= all@.len(),
                start < all@.len(),
                feed_from(all@, start as int) == feed_from(all@, end as int),
            decreases all@.len() - end,
        {
            end = end + 1;
        }
        let line: &[char] = &all.as_slice()[start..end];
        if starts_with_label(line, "VmHWM:") {
            if let Some(value) = number_behind_label(line) {
                return value;
            }
        } else if starts_with_label(line, "VmRSS:") {
            if let Some(value) = number_behind_label(line) {
                memory = value;
            }
        }
        if end >= all.len() {
            assert(memory_from(all@, end + 1, memory) == memory);
            return memory;
        }
        start = end + 1;
    }
    memory
}

/// The ticks since an earlier count. Without one of the two counts none have passed.
pub fn ticks_since(start: Option<u64>, end: Option<u64>) -> (ticks: u64)
    ensures
        ticks == (match (start, end) {
            (Some(first), Some(last)) => if last > first {
                last - first
            } else {
                0
            },
            _ => 0int,
        }),
{
    match (start, end) {
        (Some(first), Some(last)) => last.saturating_sub(first),
        _ => 0,
    }
}

/// Fields with a space between each two.
pub open spec fn spaced_fields(fields: Seq<Seq<char>>) -> Seq<char>
    decreases fields.len(),
{
    if fields.len() == 0 {
        Seq::empty()
    } else if fields.len() == 1 {
        fields[0]
    } else {
        fields[0] + seq![' '] + spaced_fields(fields.drop_first())
    }
}

/// A field is not empty and has no white space.
pub open spec fn is_field(field: Seq<char>) -> bool {
    field.len() > 0 && forall|i: int|
        0 <= i < field.len() ==> !text::is_white_space(#[trigger] field[i])
}

proof fn lemma_field_start_is(line: Seq<char>, from: int, at: int)
    requires
        0 <= from <= at <= line.len(),
        forall|j: int| from <= j < at ==> text::is_white_space(#[trigger] line[j]),
        at < line.len() ==> !text::is_white_space(line[at]),
    ensures
        field_start(line, from) == at,
    decreases at - from,
{
    if from < at {
        assert(text::is_white_space(line[from]));
        lemma_field_start_is(line, from + 1, at);
    }
}

proof fn lemma_field_end_is(line: Seq<char>, from: int, at: int)
    requires
        0 <= from <= at <= line.len(),
        forall|j: int| from <= j < at ==> !text::is_white_space(#[trigger] line[j]),
        at < line.len() ==> text::is_white_space(line[at]),
    ensures
        field_end(line, from) == at,
    decreases at - from,
{
    if from < at {
        assert(!text::is_white_space(line[from]));
        lemma_field_end_is(line, from + 1, at);
    }
}

/// Where a field stands behind some text and white space.
proof fn lemma_field_place(prefix: Seq<char>, fields: Seq<Seq<char>>, from: int, skip: nat)
    requires
        0 <= from <= prefix.len(),
        forall|j: int| from <= j < prefix.len() ==> text::is_white_space(#[trigger] prefix[j]),
        skip < fields.len(),
        forall|i: int| 0 <= i < fields.len() ==> is_field(#[trigger] fields[i]),
    ensures
        field_place(prefix + spaced_fields(fields), from, skip) matches Some(place) && 0 <= place.0
            <= place.1 <= (prefix + spaced_fields(fields)).len() && (prefix + spaced_fields(
            fields,
        )).subrange(place.0, place.1) == fields[skip as int],
    decreases skip,
{
    let line = prefix + spaced_fields(fields);
    let start = prefix.len() as int;
    let first = fields[0];
    let end = start + first.len();
    assert(is_field(first));
    assert forall|j: int| from <= j < start implies text::is_white_space(#[trigger] line[j]) by {
        assert(line[j] == prefix[j]);
    }
    assert forall|j: int| start <= j < end implies line[j] == first[j - start] by {}
    assert(line[start] == first[0]);
    lemma_field_start_is(line, from, start);
    assert forall|j: int| start <= j < end implies !text::is_white_space(#[trigger] line[j]) by {
        assert(line[j] == first[j - start]);
    }
    if fields.len() > 1 {
        assert(line[end] == ' ');
    }
    lemma_field_end_is(line, start, end);
    assert(line.subrange(start, end) =~= first);
    if skip > 0 {
        let rest = fields.drop_first();
        let longer = prefix + first + seq![' '];
        assert forall|i: int| 0 <= i < rest.len() implies is_field(#[trigger] rest[i]) by {
            assert(rest[i] == fields[i + 1]);
        }
        assert forall|j: int| end <= j < longer.len() implies text::is_white_space(
            #[trigger] longer[j],
        ) by {
            assert(longer[j] == ' ');
        }
        lemma_field_place(longer, rest, end, (skip - 1) as nat);
        assert(longer + spaced_fields(rest) =~= line);
    }
}

/// The digits of a number as characters.
pub open spec fn digit_field(number: u64) -> Seq<char> {
    Seq::new(
        bytes::decimal(number as nat).len(),
        |i: int| bytes::decimal(number as nat)[i] as char,
    )
}

/// A field of digits writes its number.
pub proof fn law_field_writes_its_number(number: u64)
    ensures
        field_number(digit_field(number)) == Some(number),
        is_field(digit_field(number)),
        forall|i: int| 0 <= i < digit_field(number).len() ==> #[trigger] digit_field(number)[i] != ')',
{
    let digits = bytes::decimal(number as nat);
    let field = digit_field(number);
    bytes::lemma_decimal(number as nat);
    bytes::law_number_of_decimal(number);
    assert forall|i: int| 0 <= i < field.len() implies #[trigger] field[i] as u32 == digits[i] && 48
        <= field[i] as u32 <= 57 by {
        assert(bytes::is_digit(digits[i]));
    }
    assert(Seq::new(field.len(), |i: int| (field[i] as u32) as u8) =~= digits);
    assert forall|i: int| 0 <= i < field.len() implies !text::is_white_space(#[trigger] field[i])
        && field[i] != ')' by {
        assert(48 <= field[i] as u32 <= 57);
    }
}

proof fn lemma_last_bracket(line: Seq<char>, at: int, before: int)
    requires
        0 <= at,
        at + 1 < line.len(),
        at + 1 <= before <= line.len(),
        line[at] == ')' && line[at + 1] == ' ',
        forall|j: int| at < j < line.len() ==> #[trigger] line[j] != ')',
    ensures
        last_bracket(line, before) == Some(at),
    decreases before,
{
    if before > at + 1 {
        assert(line[before - 1] != ')');
        lemma_last_bracket(line, at, before - 1);
    }
}

/// The ticks of a process are the sum of the numbers in the twelfth and the thirteenth field behind
/// its name, whatever the name is and whatever the other fields hold.
pub proof fn law_ticks_stand_behind_the_name(name: Seq<char>, fields: Seq<Seq<char>>)
    requires
        fields.len() >= 13,
        forall|i: int| 0 <= i < fields.len() ==> is_field(#[trigger] fields[i]),
        forall|i: int, j: int|
            0 <= i < fields.len() && 0 <= j < fields[i].len() ==> #[trigger] fields[i][j] != ')',
        field_number(fields[11]) is Some,
        field_number(fields[12]) is Some,
        field_number(fields[11])->0 + field_number(fields[12])->0 <= u64::MAX,
    ensures
        ticks_of(utf8::encode_utf8(name + seq![')', ' '] + spaced_fields(fields))) == Some(
            (field_number(fields[11])->0 + field_number(fields[12])->0) as u64,
        ),
{
    let rest = spaced_fields(fields);
    let line = name + seq![')', ' '] + rest;
    let at = name.len() as int;
    utf8::encode_utf8_valid_utf8(line);
    utf8::encode_utf8_decode_utf8(line);
    lemma_no_bracket(fields);
    assert(line[at] == ')' && line[at + 1] == ' ');
    assert forall|j: int| at < j < line.len() implies #[trigger] line[j] != ')' by {
        if j > at + 1 {
            assert(line[j] == rest[j - at - 2]);
        }
    }
    lemma_last_bracket(line, at, line.len() as int);
    assert(line.subrange(at + 2, line.len() as int) =~= rest);
    let none = Seq::<char>::empty();
    lemma_field_place(none, fields, 0, 11);
    lemma_field_place(none, fields, 0, 12);
    assert(none + rest =~= rest);
}

proof fn lemma_no_bracket(fields: Seq<Seq<char>>)
    requires
        forall|i: int, j: int|
            0 <= i < fields.len() && 0 <= j < fields[i].len() ==> #[trigger] fields[i][j] != ')',
    ensures
        forall|j: int| 0 <= j < spaced_fields(fields).len() ==> #[trigger] spaced_fields(fields)[j]
            != ')',
    decreases fields.len(),
{
    if fields.len() == 1 {
        assert(forall|j: int| 0 <= j < fields[0].len() ==> #[trigger] fields[0][j] != ')');
    } else if fields.len() > 1 {
        let rest = fields.drop_first();
        assert forall|i: int, j: int|
            0 <= i < rest.len() && 0 <= j < rest[i].len() implies #[trigger] rest[i][j] != ')' by {
            assert(fields[i + 1][j] != ')');
        }
        lemma_no_bracket(rest);
        let whole = spaced_fields(fields);
        assert forall|j: int| 0 <= j < whole.len() implies #[trigger] whole[j] != ')' by {
            if j < fields[0].len() {
                assert(whole[j] == fields[0][j]);
            } else if j > fields[0].len() {
                assert(whole[j] == spaced_fields(rest)[j - fields[0].len() - 1]);
            }
        }
    }
}

/// Where a line of a status ends does not depend on what stands before it.
proof fn lemma_feed_shift(prefix: Seq<char>, status: Seq<char>, from: int)
    requires
        0 <= from <= status.len(),
    ensures
        feed_from(prefix + status, prefix.len() + from) == prefix.len() + feed_from(status, from),
        from <= feed_from(status, from) <= status.len(),
    decreases status.len() - from,
{
    let whole = prefix + status;
    if from < status.len() {
        assert(whole[prefix.len() + from] == status[from]);
        if status[from] != '\n' {
            lemma_feed_shift(prefix, status, from + 1);
        }
    }
}

proof fn lemma_memory_shift(prefix: Seq<char>, status: Seq<char>, from: int, known: u64)
    requires
        0 <= from <= status.len() + 1,
    ensures
        memory_from(prefix + status, prefix.len() + from, known) == memory_from(
            status,
            from,
            known,
        ),
    decreases status.len() + 1 - from,
{
    if from < status.len() {
        lemma_feed_shift(prefix, status, from);
        let end = feed_from(status, from);
        let whole = prefix + status;
        let shift = prefix.len() as int;
        let line = status.subrange(from, end);
        assert(whole.subrange(shift + from, shift + end) =~= line);
        lemma_memory_shift(prefix, status, end + 1, known);
        if labelled_number(line) is Some {
            lemma_memory_shift(prefix, status, end + 1, labelled_number(line)->0);
        }
    }
}

proof fn lemma_feed_is(status: Seq<char>, from: int, at: int)
    requires
        0 <= from <= at < status.len(),
        forall|j: int| from <= j < at ==> #[trigger] status[j] != '\n',
        status[at] == '\n',
    ensures
        feed_from(status, from) == at,
    decreases at - from,
{
    if from < at {
        assert(status[from] != '\n');
        lemma_feed_is(status, from + 1, at);
    }
}

/// The memory of a process goes line by line: the peak is final, the present value is kept for
/// lack of a peak, and other lines say nothing.
pub proof fn law_memory_goes_line_by_line(line: Seq<char>, rest: Seq<char>, known: u64)
    requires
        forall|i: int| 0 <= i < line.len() ==> #[trigger] line[i] != '\n',
    ensures
        memory_from(Seq::empty(), 0, known) == known,
        memory_from(line + seq!['\n'] + rest, 0, known) == (if "VmHWM:"@.is_prefix_of(line)
            && labelled_number(line) is Some {
            labelled_number(line)->0
        } else if "VmRSS:"@.is_prefix_of(line) && labelled_number(line) is Some {
            memory_from(rest, 0, labelled_number(line)->0)
        } else {
            memory_from(rest, 0, known)
        }),
{
    let status = line + seq!['\n'] + rest;
    let at = line.len() as int;
    let prefix = line + seq!['\n'];
    assert forall|j: int| 0 <= j < at implies #[trigger] status[j] != '\n' by {
        assert(status[j] == line[j]);
    }
    assert(status[at] == '\n');
    lemma_feed_is(status, 0, at);
    assert(status.subrange(0, at) =~= line);
    lemma_memory_shift(prefix, rest, 0, known);
    if labelled_number(line) is Some {
        lemma_memory_shift(prefix, rest, 0, labelled_number(line)->0);
    }
    assert(begins(line, "VmHWM:"@) <==> "VmHWM:"@.is_prefix_of(line));
    assert(begins(line, "VmRSS:"@) <==> "VmRSS:"@.is_prefix_of(line));
}

proof fn lemma_labelled(label: Seq<char>, gap: Seq<char>, number: u64, fields: Seq<Seq<char>>)
    requires
        label.len() == 6,
        forall|i: int| 0 <= i < gap.len() ==> text::is_white_space(#[trigger] gap[i]),
        fields.len() > 0,
        fields[0] == digit_field(number),
        forall|i: int| 0 <= i < fields.len() ==> is_field(#[trigger] fields[i]),
    ensures
        labelled_number(label + gap + spaced_fields(fields)) == Some(number),
{
    law_field_writes_its_number(number);
    let prefix = label + gap;
    assert forall|j: int| 6 <= j < prefix.len() implies text::is_white_space(#[trigger] prefix[j]) by {
        assert(prefix[j] == gap[j - 6]);
    }
    lemma_field_place(prefix, fields, 6, 0);
}

/// The number of a line stands behind its label of six characters and white space, before what
/// follows it.
pub proof fn law_number_stands_behind_the_label(
    label: Seq<char>,
    gap: Seq<char>,
    number: u64,
    unit: Seq<char>,
)
    requires
        label.len() == 6,
        forall|i: int| 0 <= i < gap.len() ==> text::is_white_space(#[trigger] gap[i]),
        is_field(unit),
    ensures
        labelled_number(label + gap + digit_field(number) + seq![' '] + unit) == Some(number),
        labelled_number(label + gap + digit_field(number)) == Some(number),
{
    let digits = digit_field(number);
    let one = seq![digits];
    let two = seq![digits, unit];
    assert(is_field(digits)) by {
        law_field_writes_its_number(number);
    }
    lemma_labelled(label, gap, number, one);
    lemma_labelled(label, gap, number, two);
    assert(spaced_fields(one) == digits);
    assert(spaced_fields(two) == digits + seq![' '] + unit) by {
        assert(two.drop_first() =~= seq![unit]);
        assert(spaced_fields(seq![unit]) == unit);
    }
    assert(label + gap + spaced_fields(two) =~= label + gap + digits + seq![' '] + unit);
}

} // verus!
