//! The groups of the server, what a session has selected, and answers about groups.
use crate::bytes;
use crate::bytes::{field_first, field_second, index_from, matches_word, parse_number, DASH};
use crate::listing::{ALT_GROUP, COMP_GROUP};
use crate::responses::{
    CRLF, GROUP_COMP_RESPONSE, GROUP_RESPONSE, LAST_RESPONSE, LISTGROUP_1_2_RESPONSE,
    LISTGROUP_1_RESPONSE, LISTGROUP_2_3_RESPONSE, LISTGROUP_2_RESPONSE, LISTGROUP_3_RESPONSE,
    LISTGROUP_COMP_EMPTY_RESPONSE, LISTGROUP_COMP_RESPONSE, LISTGROUP_EMPTY_RESPONSE,
    LISTGROUP_RESPONSE, NAVIGATION_ARTICLE_2_RESPONSE, NAVIGATION_ARTICLE_3_RESPONSE,
    NEXT_RESPONSE, NO_ARTICLE_NUMBER_RESPONSE, NO_GROUP_SELECTED_RESPONSE, NO_SUCH_GROUP_RESPONSE,
};
use crate::terminator;
use crate::terminator::DOT_TERMINATOR;
use crate::text::decode;
use vstd::prelude::*;
use vstd::string::StringSliceAdditionalSpecFns;
use vstd::utf8;

verus! {

/// A group of the server. Its articles are numbered from 1.
#[derive(Debug, Clone, Copy, PartialEq, Eq, Structural)]
pub enum FixtureGroup {
    AltTest,
    CompLangRust,
}

pub open spec fn group_size(group: FixtureGroup) -> u64 {
    match group {
        FixtureGroup::AltTest => 3,
        FixtureGroup::CompLangRust => 1,
    }
}

impl FixtureGroup {
    pub fn article_count(self) -> (count: u64)
        ensures
            count == group_size(self),
    {
        match self {
            FixtureGroup::AltTest => 3,
            FixtureGroup::CompLangRust => 1,
        }
    }
}

/// What a session has selected.
#[derive(Debug, Clone, Copy, PartialEq, Eq, Structural)]
pub struct SessionState {
    pub group_selected: bool,
    pub selected_group: Option<FixtureGroup>,
    pub current_article: Option<u64>,
}

/// The articles of the selected group, or those of `alt.test` without one.
pub open spec fn articles_in_reach(state: SessionState) -> u64 {
    match state.selected_group {
        Some(group) => group_size(group),
        None => group_size(FixtureGroup::AltTest),
    }
}

impl SessionState {
    /// The state of a session that has selected nothing.
    pub fn new() -> (state: SessionState)
        ensures
            state == (SessionState {
                group_selected: false,
                selected_group: None,
                current_article: None,
            }),
    {
        SessionState { group_selected: false, selected_group: None, current_article: None }
    }

    pub fn article_count(&self) -> (count: u64)
        ensures
            count == articles_in_reach(*self),
    {
        match self.selected_group {
            Some(group) => group.article_count(),
            None => FixtureGroup::AltTest.article_count(),
        }
    }
}

/// The group with this name, up to the case of letters.
pub open spec fn group_named(name: Seq<u8>) -> Option<FixtureGroup> {
    if bytes::is_word(name, ALT_GROUP) {
        Some(FixtureGroup::AltTest)
    } else if bytes::is_word(name, COMP_GROUP) {
        Some(FixtureGroup::CompLangRust)
    } else {
        None
    }
}

pub fn fixture_group_from_name(name: &[u8]) -> (group: Option<FixtureGroup>)
    ensures
        group == group_named(name@),
{
    if matches_word(name, ALT_GROUP) {
        Some(FixtureGroup::AltTest)
    } else if matches_word(name, COMP_GROUP) {
        Some(FixtureGroup::CompLangRust)
    } else {
        None
    }
}

pub open spec fn group_text(group: FixtureGroup) -> &'static str {
    match group {
        FixtureGroup::AltTest => GROUP_RESPONSE,
        FixtureGroup::CompLangRust => GROUP_COMP_RESPONSE,
    }
}

pub fn group_response_for_group(group: FixtureGroup) -> (text: &'static str)
    ensures
        text == group_text(group),
{
    match group {
        FixtureGroup::AltTest => GROUP_RESPONSE,
        FixtureGroup::CompLangRust => GROUP_COMP_RESPONSE,
    }
}

/// The answer to `GROUP`.
pub open spec fn group_text_for(args: Seq<u8>) -> &'static str {
    match group_named(args) {
        Some(group) => group_text(group),
        None => NO_SUCH_GROUP_RESPONSE,
    }
}

pub fn group_response_for_args(args: &[u8]) -> (text: &'static str)
    ensures
        text == group_text_for(args@),
{
    match fixture_group_from_name(args) {
        Some(group) => group_response_for_group(group),
        None => NO_SUCH_GROUP_RESPONSE,
    }
}

/// The answer to `LAST` that moved to an article.
pub open spec fn last_text(article_id: u64) -> &'static str {
    if article_id == 1 {
        LAST_RESPONSE
    } else if article_id == 2 {
        NAVIGATION_ARTICLE_2_RESPONSE
    } else {
        NO_ARTICLE_NUMBER_RESPONSE
    }
}

pub fn last_response_for_article(article_id: u64) -> (text: &'static str)
    ensures
        text == last_text(article_id),
{
    if article_id == 1 {
        LAST_RESPONSE
    } else if article_id == 2 {
        NAVIGATION_ARTICLE_2_RESPONSE
    } else {
        NO_ARTICLE_NUMBER_RESPONSE
    }
}

/// The answer to `NEXT` that moved to an article.
pub open spec fn next_text(article_id: u64) -> &'static str {
    if article_id == 2 {
        NEXT_RESPONSE
    } else if article_id == 3 {
        NAVIGATION_ARTICLE_3_RESPONSE
    } else {
        NO_ARTICLE_NUMBER_RESPONSE
    }
}

pub fn next_response_for_article(article_id: u64) -> (text: &'static str)
    ensures
        text == next_text(article_id),
{
    if article_id == 2 {
        NEXT_RESPONSE
    } else if article_id == 3 {
        NAVIGATION_ARTICLE_3_RESPONSE
    } else {
        NO_ARTICLE_NUMBER_RESPONSE
    }
}

/// The first argument of `LISTGROUP` is a range: only digits and dashes.
pub open spec fn is_range_field(field: Seq<u8>) -> bool {
    forall|i: int|
        0 <= i < field.len() ==> bytes::is_digit(#[trigger] field[i]) || field[i] == DASH
}

fn check_range_field(field: &[u8]) -> (is_range: bool)
    ensures
        is_range == is_range_field(field@),
{
    let mut i: usize = 0;
    while i < field.len()
        invariant
            i <= field@.len(),
            forall|j: int|
                0 <= j < i ==> bytes::is_digit(#[trigger] field@[j]) || field@[j] == DASH,
        decreases field@.len() - i,
    {
        let byte: u8 = field[i];
        if !(48 <= byte && byte <= 57) && byte != DASH {
            assert(!(bytes::is_digit(field@[i as int]) || field@[i as int] == DASH));
            return false;
        }
        i = i + 1;
    }
    true
}

/// `LISTGROUP` without a group name means the selected group.
pub open spec fn uses_current_group(args: Seq<u8>) -> bool {
    args.len() == 0 || is_range_field(bytes::first_field(args))
}

pub fn listgroup_uses_current_group(args: &[u8]) -> (current: bool)
    ensures
        current == uses_current_group(args@),
{
    args.len() == 0 || check_range_field(field_first(args))
}

/// The group name among the arguments of `LISTGROUP`.
pub open spec fn explicit_group(args: Seq<u8>) -> Option<Seq<u8>> {
    let first = bytes::first_field(args);
    if first.len() == 0 || is_range_field(first) {
        None
    } else {
        Some(first)
    }
}

pub fn listgroup_explicit_group_arg(args: &[u8]) -> (name: Option<&[u8]>)
    ensures
        bytes::opt_view(name) == explicit_group(args@),
{
    let first: &[u8] = field_first(args);
    if first.len() == 0 || check_range_field(first) {
        None
    } else {
        Some(first)
    }
}

/// The group that `LISTGROUP` names is unknown.
pub open spec fn names_unknown_group(args: Seq<u8>) -> bool {
    match explicit_group(args) {
        Some(name) => group_named(name) is None,
        None => false,
    }
}

fn check_names_unknown_group(args: &[u8]) -> (unknown: bool)
    ensures
        unknown == names_unknown_group(args@),
{
    match listgroup_explicit_group_arg(args) {
        Some(name) => fixture_group_from_name(name).is_none(),
        None => false,
    }
}

/// The group that `LISTGROUP` lists: the one that it names, or the selected one.
pub open spec fn listed_group(args: Seq<u8>, current: Option<FixtureGroup>) -> Option<FixtureGroup> {
    match explicit_group(args) {
        Some(name) => match group_named(name) {
            Some(group) => Some(group),
            None => current,
        },
        None => current,
    }
}

pub fn listgroup_selected_group(args: &[u8], current_group: Option<FixtureGroup>) -> (group: Option<
    FixtureGroup,
>)
    ensures
        group == listed_group(args@, current_group),
{
    match listgroup_explicit_group_arg(args) {
        Some(name) => match fixture_group_from_name(name) {
            Some(group) => Some(group),
            None => current_group,
        },
        None => current_group,
    }
}

/// Why `LISTGROUP` is refused, if it is.
pub open spec fn listgroup_error(args: Seq<u8>, group_selected: bool) -> Option<&'static str> {
    if names_unknown_group(args) {
        Some(NO_SUCH_GROUP_RESPONSE)
    } else if !group_selected && uses_current_group(args) {
        Some(NO_GROUP_SELECTED_RESPONSE)
    } else {
        None
    }
}

pub fn listgroup_state_error(args: &[u8], state: &SessionState) -> (error: Option<&'static str>)
    ensures
        error == listgroup_error(args@, state.group_selected),
{
    if check_names_unknown_group(args) {
        Some(NO_SUCH_GROUP_RESPONSE)
    } else if !state.group_selected && listgroup_uses_current_group(args) {
        Some(NO_GROUP_SELECTED_RESPONSE)
    } else {
        None
    }
}

/// The first number of a range and the last one where it has one. A text that is no number
/// behind the dash counts as none.
pub open spec fn range_bounds(range: Seq<u8>) -> Option<(u64, Option<u64>)> {
    let dash = bytes::find_byte(range, DASH, 0);
    if !utf8::valid_utf8(range) {
        None
    } else if dash < range.len() {
        match bytes::number(range.subrange(0, dash)) {
            Some(start) => Some(
                (start, bytes::number(range.subrange(dash + 1, range.len() as int))),
            ),
            None => None,
        }
    } else {
        match bytes::number(range) {
            Some(value) => Some((value, Some(value))),
            None => None,
        }
    }
}

pub fn listgroup_range_bounds(range: &[u8]) -> (bounds: Option<(u64, Option<u64>)>)
    ensures
        bounds == range_bounds(range@),
{
    if decode(range).is_none() {
        return None;
    }
    let dash: usize = index_from(range, DASH, 0);
    if dash < range.len() {
        match parse_number(&range[0..dash]) {
            Some(start) => {
                let end: &[u8] = &range[dash + 1..range.len()];
                Some((start, parse_number(end)))
            },
            None => None,
        }
    } else {
        match parse_number(range) {
            Some(value) => Some((value, Some(value))),
            None => None,
        }
    }
}

/// The number lies in the range.
pub open spec fn range_covers(range: Seq<u8>, number: int) -> bool {
    match range_bounds(range) {
        Some((start, Some(end))) => start <= number <= end,
        Some((start, None)) => start <= number,
        None => false,
    }
}

pub(crate) fn check_range_covers(range: &[u8], number: u64) -> (covered: bool)
    ensures
        covered == range_covers(range@, number as int),
{
    match listgroup_range_bounds(range) {
        Some((start, Some(end))) => start <= number && number <= end,
        Some((start, None)) => start <= number,
        None => false,
    }
}

/// Some article from 1 to `count` lies in the range.
pub open spec fn range_selects(range: Seq<u8>, count: u64) -> bool {
    exists|number: int| 1 <= number <= count && #[trigger] range_covers(range, number)
}

pub fn range_selects_articles(range: &[u8], count: u64) -> (selects: bool)
    ensures
        selects == range_selects(range@, count),
{
    match listgroup_range_bounds(range) {
        Some((start, end)) => {
            let low: u64 = if start < 1 {
                1
            } else {
                start
            };
            let high: u64 = match end {
                Some(end) => if end < count {
                    end
                } else {
                    count
                },
                None => count,
            };
            assert(low <= high ==> range_covers(range@, low as int));
            low <= high
        },
        None => false,
    }
}

/// The range among the arguments of `LISTGROUP`.
pub open spec fn listgroup_range(args: Seq<u8>) -> Option<Seq<u8>> {
    let first = bytes::first_field(args);
    if first.len() == 0 {
        None
    } else if explicit_group(args) is Some {
        bytes::second_field(args)
    } else {
        Some(first)
    }
}

pub fn listgroup_range_arg(args: &[u8]) -> (range: Option<&[u8]>)
    ensures
        bytes::opt_view(range) == listgroup_range(args@),
{
    let first: &[u8] = field_first(args);
    if first.len() == 0 {
        None
    } else if listgroup_explicit_group_arg(args).is_some() {
        field_second(args)
    } else {
        Some(first)
    }
}

/// `LISTGROUP` lists the article with this number of a group with `count` articles.
pub open spec fn is_listed(range: Option<Seq<u8>>, number: int, count: u64) -> bool {
    1 <= number <= count && match range {
        Some(text) => range_covers(text, number),
        None => true,
    }
}

pub(crate) fn check_listed(range: Option<&[u8]>, number: u64, count: u64) -> (listed: bool)
    ensures
        listed == is_listed(bytes::opt_view(range), number as int, count),
{
    1 <= number && number <= count && match range {
        Some(text) => check_range_covers(text, number),
        None => true,
    }
}

/// The answer to `LISTGROUP` for a group, by the articles that are listed.
pub open spec fn listing_text(group: FixtureGroup, range: Option<Seq<u8>>) -> &'static str {
    let count = group_size(group);
    let first = is_listed(range, 1, count);
    let second = is_listed(range, 2, count);
    let third = is_listed(range, 3, count);
    match group {
        FixtureGroup::CompLangRust => if first {
            LISTGROUP_COMP_RESPONSE
        } else {
            LISTGROUP_COMP_EMPTY_RESPONSE
        },
        FixtureGroup::AltTest => if first && second && third {
            LISTGROUP_RESPONSE
        } else if first && second {
            LISTGROUP_1_2_RESPONSE
        } else if second && third {
            LISTGROUP_2_3_RESPONSE
        } else if first {
            LISTGROUP_1_RESPONSE
        } else if second {
            LISTGROUP_2_RESPONSE
        } else if third {
            LISTGROUP_3_RESPONSE
        } else {
            LISTGROUP_EMPTY_RESPONSE
        },
    }
}

/// The answer to `LISTGROUP`.
pub open spec fn listgroup_text(args: Seq<u8>, current: Option<FixtureGroup>) -> &'static str {
    if names_unknown_group(args) {
        NO_SUCH_GROUP_RESPONSE
    } else {
        let group = match listed_group(args, current) {
            Some(group) => group,
            None => FixtureGroup::AltTest,
        };
        listing_text(group, listgroup_range(args))
    }
}

pub fn listgroup_response_for_args(args: &[u8], current_group: Option<FixtureGroup>) -> (text:
    &'static str)
    ensures
        text == listgroup_text(args@, current_group),
{
    if check_names_unknown_group(args) {
        return NO_SUCH_GROUP_RESPONSE;
    }
    let group: FixtureGroup = match listgroup_selected_group(args, current_group) {
        Some(group) => group,
        None => FixtureGroup::AltTest,
    };
    let range: Option<&[u8]> = listgroup_range_arg(args);
    let count: u64 = group.article_count();
    let first: bool = check_listed(range, 1, count);
    let second: bool = check_listed(range, 2, count);
    let third: bool = check_listed(range, 3, count);
    match group {
        FixtureGroup::CompLangRust => if first {
            LISTGROUP_COMP_RESPONSE
        } else {
            LISTGROUP_COMP_EMPTY_RESPONSE
        },
        FixtureGroup::AltTest => if first && second && third {
            LISTGROUP_RESPONSE
        } else if first && second {
            LISTGROUP_1_2_RESPONSE
        } else if second && third {
            LISTGROUP_2_3_RESPONSE
        } else if first {
            LISTGROUP_1_RESPONSE
        } else if second {
            LISTGROUP_2_RESPONSE
        } else if third {
            LISTGROUP_3_RESPONSE
        } else {
            LISTGROUP_EMPTY_RESPONSE
        },
    }
}

/// One line for each article up to `last` that is listed, in rising order.
pub open spec fn number_lines(range: Option<Seq<u8>>, last: nat, count: u64) -> Seq<u8>
    decreases last,
{
    if last == 0 {
        Seq::empty()
    } else if is_listed(range, last as int, count) {
        number_lines(range, (last - 1) as nat, count) + bytes::decimal(last) + CRLF.spec_bytes()
    } else {
        number_lines(range, (last - 1) as nat, count)
    }
}

proof fn lemma_digit_lines()
    ensures
        bytes::decimal(1) + CRLF.spec_bytes() == seq![49u8, 13, 10],
        bytes::decimal(2) + CRLF.spec_bytes() == seq![50u8, 13, 10],
        bytes::decimal(3) + CRLF.spec_bytes() == seq![51u8, 13, 10],
{
    terminator::lemma_dot_terminator();
    assert(bytes::decimal(1) + CRLF.spec_bytes() =~= seq![49u8, 13, 10]);
    assert(bytes::decimal(2) + CRLF.spec_bytes() =~= seq![50u8, 13, 10]);
    assert(bytes::decimal(3) + CRLF.spec_bytes() =~= seq![51u8, 13, 10]);
}

proof fn lemma_alt_listings()
    ensures
        LISTGROUP_RESPONSE.spec_bytes() == GROUP_RESPONSE.spec_bytes()
            + seq![49u8, 13, 10, 50, 13, 10, 51, 13, 10] + DOT_TERMINATOR.spec_bytes(),
        LISTGROUP_1_2_RESPONSE.spec_bytes() == GROUP_RESPONSE.spec_bytes()
            + seq![49u8, 13, 10, 50, 13, 10] + DOT_TERMINATOR.spec_bytes(),
        LISTGROUP_2_3_RESPONSE.spec_bytes() == GROUP_RESPONSE.spec_bytes()
            + seq![50u8, 13, 10, 51, 13, 10] + DOT_TERMINATOR.spec_bytes(),
        LISTGROUP_1_RESPONSE.spec_bytes() == GROUP_RESPONSE.spec_bytes() + seq![49u8, 13, 10]
            + DOT_TERMINATOR.spec_bytes(),
        LISTGROUP_2_RESPONSE.spec_bytes() == GROUP_RESPONSE.spec_bytes() + seq![50u8, 13, 10]
            + DOT_TERMINATOR.spec_bytes(),
        LISTGROUP_3_RESPONSE.spec_bytes() == GROUP_RESPONSE.spec_bytes() + seq![51u8, 13, 10]
            + DOT_TERMINATOR.spec_bytes(),
        LISTGROUP_EMPTY_RESPONSE.spec_bytes() == GROUP_RESPONSE.spec_bytes() + Seq::empty()
            + DOT_TERMINATOR.spec_bytes(),
{
    terminator::lemma_dot_terminator();
    reveal_strlit("211 3 1 3 alt.test\r\n");
    assert(GROUP_RESPONSE.is_ascii());
    reveal_strlit("211 3 1 3 alt.test\r\n1\r\n2\r\n3\r\n.\r\n");
    assert(LISTGROUP_RESPONSE.is_ascii());
    assert(LISTGROUP_RESPONSE.spec_bytes() =~= GROUP_RESPONSE.spec_bytes()
        + seq![49u8, 13, 10, 50, 13, 10, 51, 13, 10] + DOT_TERMINATOR.spec_bytes());
    reveal_strlit("211 3 1 3 alt.test\r\n1\r\n2\r\n.\r\n");
    assert(LISTGROUP_1_2_RESPONSE.is_ascii());
    assert(LISTGROUP_1_2_RESPONSE.spec_bytes() =~= GROUP_RESPONSE.spec_bytes()
        + seq![49u8, 13, 10, 50, 13, 10] + DOT_TERMINATOR.spec_bytes());
    reveal_strlit("211 3 1 3 alt.test\r\n2\r\n3\r\n.\r\n");
    assert(LISTGROUP_2_3_RESPONSE.is_ascii());
    assert(LISTGROUP_2_3_RESPONSE.spec_bytes() =~= GROUP_RESPONSE.spec_bytes()
        + seq![50u8, 13, 10, 51, 13, 10] + DOT_TERMINATOR.spec_bytes());
    reveal_strlit("211 3 1 3 alt.test\r\n1\r\n.\r\n");
    assert(LISTGROUP_1_RESPONSE.is_ascii());
    assert(LISTGROUP_1_RESPONSE.spec_bytes() =~= GROUP_RESPONSE.spec_bytes() + seq![49u8, 13, 10]
        + DOT_TERMINATOR.spec_bytes());
    reveal_strlit("211 3 1 3 alt.test\r\n2\r\n.\r\n");
    assert(LISTGROUP_2_RESPONSE.is_ascii());
    assert(LISTGROUP_2_RESPONSE.spec_bytes() =~= GROUP_RESPONSE.spec_bytes() + seq![50u8, 13, 10]
        + DOT_TERMINATOR.spec_bytes());
    reveal_strlit("211 3 1 3 alt.test\r\n3\r\n.\r\n");
    assert(LISTGROUP_3_RESPONSE.is_ascii());
    assert(LISTGROUP_3_RESPONSE.spec_bytes() =~= GROUP_RESPONSE.spec_bytes() + seq![51u8, 13, 10]
        + DOT_TERMINATOR.spec_bytes());
    reveal_strlit("211 3 1 3 alt.test\r\n.\r\n");
    assert(LISTGROUP_EMPTY_RESPONSE.is_ascii());
    assert(LISTGROUP_EMPTY_RESPONSE.spec_bytes() =~= GROUP_RESPONSE.spec_bytes()
        + Seq::<u8>::empty() + DOT_TERMINATOR.spec_bytes());
}

proof fn lemma_comp_listings()
    ensures
        LISTGROUP_COMP_RESPONSE.spec_bytes() == GROUP_COMP_RESPONSE.spec_bytes()
            + seq![49u8, 13, 10] + DOT_TERMINATOR.spec_bytes(),
        LISTGROUP_COMP_EMPTY_RESPONSE.spec_bytes() == GROUP_COMP_RESPONSE.spec_bytes()
            + Seq::empty() + DOT_TERMINATOR.spec_bytes(),
{
    terminator::lemma_dot_terminator();
    reveal_strlit("211 1 1 1 comp.lang.rust\r\n");
    assert(GROUP_COMP_RESPONSE.is_ascii());
    reveal_strlit("211 1 1 1 comp.lang.rust\r\n1\r\n.\r\n");
    assert(LISTGROUP_COMP_RESPONSE.is_ascii());
    assert(LISTGROUP_COMP_RESPONSE.spec_bytes() =~= GROUP_COMP_RESPONSE.spec_bytes()
        + seq![49u8, 13, 10] + DOT_TERMINATOR.spec_bytes());
    reveal_strlit("211 1 1 1 comp.lang.rust\r\n.\r\n");
    assert(LISTGROUP_COMP_EMPTY_RESPONSE.is_ascii());
    assert(LISTGROUP_COMP_EMPTY_RESPONSE.spec_bytes() =~= GROUP_COMP_RESPONSE.spec_bytes()
        + Seq::<u8>::empty() + DOT_TERMINATOR.spec_bytes());
}

/// `LISTGROUP` answers with the line of `GROUP` and then one line for each article of the group
/// that lies in the range, and for no other.
pub proof fn law_listgroup_lists_the_range(group: FixtureGroup, range: Option<Seq<u8>>)
    ensures
        listing_text(group, range).spec_bytes() == group_text(group).spec_bytes() + number_lines(
            range,
            group_size(group) as nat,
            group_size(group),
        ) + DOT_TERMINATOR.spec_bytes(),
{
    let count = group_size(group);
    reveal_with_fuel(number_lines, 4);
    lemma_digit_lines();
    let first = if is_listed(range, 1, count) {
        seq![49u8, 13, 10]
    } else {
        Seq::empty()
    };
    let second = if is_listed(range, 2, count) {
        seq![50u8, 13, 10]
    } else {
        Seq::empty()
    };
    let third = if is_listed(range, 3, count) {
        seq![51u8, 13, 10]
    } else {
        Seq::empty()
    };
    assert(number_lines(range, 1, count) =~= first);
    assert(number_lines(range, 2, count) =~= first + second);
    assert(number_lines(range, 3, count) =~= first + second + third);
    match group {
        FixtureGroup::CompLangRust => {
            lemma_comp_listings();
        },
        FixtureGroup::AltTest => {
            lemma_alt_listings();
        },
    }
}

/// The two names are those of two groups, and no other name is that of a group.
pub proof fn law_groups_are_found_by_name(name: Seq<u8>)
    ensures
        group_named(name) == Some(FixtureGroup::AltTest) <==> bytes::same_letters(
            name,
            "alt.test".spec_bytes(),
        ),
        group_named(name) == Some(FixtureGroup::CompLangRust) <==> bytes::same_letters(
            name,
            "comp.lang.rust".spec_bytes(),
        ),
{
    reveal_strlit("alt.test");
    reveal_strlit("comp.lang.rust");
    assert("alt.test".is_ascii());
    assert("comp.lang.rust".is_ascii());
}

/// The name that answers write for a group.
pub open spec fn name_of(group: FixtureGroup) -> &'static str {
    match group {
        FixtureGroup::AltTest => "alt.test",
        FixtureGroup::CompLangRust => "comp.lang.rust",
    }
}

/// A group is found by the name that answers write for it.
pub proof fn law_group_has_its_name(group: FixtureGroup)
    ensures
        group_named(name_of(group).spec_bytes()) == Some(group),
{
    law_groups_are_found_by_name(name_of(group).spec_bytes());
}

/// `GROUP` answers with how many articles the group has, the numbers of its first and its last
/// one, and its name.
pub proof fn law_group_line_counts_its_articles(group: FixtureGroup)
    ensures
        group_text(group).spec_bytes() == "211 ".spec_bytes() + bytes::decimal(
            group_size(group) as nat,
        ) + " 1 ".spec_bytes() + bytes::decimal(group_size(group) as nat) + " ".spec_bytes()
            + name_of(group).spec_bytes() + "\r\n".spec_bytes(),
{
    reveal_strlit("211 ");
    reveal_strlit(" 1 ");
    reveal_strlit(" ");
    reveal_strlit("\r\n");
    reveal_strlit("alt.test");
    reveal_strlit("comp.lang.rust");
    reveal_strlit("211 3 1 3 alt.test\r\n");
    reveal_strlit("211 1 1 1 comp.lang.rust\r\n");
    assert("211 ".is_ascii() && " 1 ".is_ascii() && " ".is_ascii() && "\r\n".is_ascii());
    assert("alt.test".is_ascii() && "comp.lang.rust".is_ascii());
    assert(GROUP_RESPONSE.is_ascii() && GROUP_COMP_RESPONSE.is_ascii());
    match group {
        FixtureGroup::AltTest => {
            assert(bytes::decimal(3) =~= seq![51u8]);
            assert(GROUP_RESPONSE.spec_bytes() =~= "211 ".spec_bytes() + seq![51u8]
                + " 1 ".spec_bytes() + seq![51u8] + " ".spec_bytes() + "alt.test".spec_bytes()
                + "\r\n".spec_bytes());
        },
        FixtureGroup::CompLangRust => {
            assert(bytes::decimal(1) =~= seq![49u8]);
            assert(GROUP_COMP_RESPONSE.spec_bytes() =~= "211 ".spec_bytes() + seq![49u8]
                + " 1 ".spec_bytes() + seq![49u8] + " ".spec_bytes()
                + "comp.lang.rust".spec_bytes() + "\r\n".spec_bytes());
        },
    }
}

/// The name of a group is one word and no range.
proof fn lemma_group_name(name: Seq<u8>)
    requires
        group_named(name) is Some,
    ensures
        name.len() > 0,
        !is_range_field(name),
        forall|i: int|
            0 <= i < name.len() ==> #[trigger] name[i] != bytes::SPACE && name[i] != bytes::TAB,
{
    reveal_strlit("alt.test");
    reveal_strlit("comp.lang.rust");
    assert("alt.test".is_ascii());
    assert("comp.lang.rust".is_ascii());
    let word = if bytes::is_word(name, ALT_GROUP) {
        "alt.test".spec_bytes()
    } else {
        "comp.lang.rust".spec_bytes()
    };
    assert(bytes::same_letters(name, word));
    assert(bytes::lower(name[0]) == bytes::lower(word[0]));
    assert(!(bytes::is_digit(name[0]) || name[0] == DASH));
    assert forall|i: int| 0 <= i < name.len() implies #[trigger] name[i] != bytes::SPACE && name[i]
        != bytes::TAB by {
        assert(bytes::lower(name[i]) == bytes::lower(word[i]));
    }
}

/// `LISTGROUP` with the name of a group lists that group, whatever was selected before, and the
/// range behind the name decides which of its articles.
pub proof fn law_listgroup_lists_the_group_it_names(
    name: Seq<u8>,
    group: FixtureGroup,
    range: Seq<u8>,
    current: Option<FixtureGroup>,
    group_selected: bool,
)
    requires
        group_named(name) == Some(group),
        range.len() > 0,
        forall|i: int|
            0 <= i < range.len() ==> #[trigger] range[i] != bytes::SPACE && range[i] != bytes::TAB,
    ensures
        listed_group(name, current) == Some(group),
        listgroup_error(name, group_selected) is None,
        listgroup_text(name, current) == listing_text(group, None),
        listed_group(name + seq![bytes::SPACE] + range, current) == Some(group),
        listgroup_error(name + seq![bytes::SPACE] + range, group_selected) is None,
        listgroup_text(name + seq![bytes::SPACE] + range, current) == listing_text(
            group,
            Some(range),
        ),
{
    lemma_group_name(name);
    bytes::law_fields_of_two_words(name, bytes::SPACE, range);
    let args = name + seq![bytes::SPACE] + range;
    assert(explicit_group(name) == Some(name));
    assert(explicit_group(args) == Some(name));
}

/// `LISTGROUP` without a name, with a range or without one, lists the group that is selected, and
/// is refused where none is.
pub proof fn law_listgroup_without_a_name_lists_the_selected_group(
    range: Seq<u8>,
    current: Option<FixtureGroup>,
)
    requires
        forall|i: int|
            0 <= i < range.len() ==> 48 <= #[trigger] range[i] <= 57 || range[i] == 45,
    ensures
        listed_group(range, current) == current,
        listgroup_error(range, true) is None,
        listgroup_error(range, false) == Some(NO_GROUP_SELECTED_RESPONSE),
        current is Some ==> listgroup_text(range, current) == listing_text(
            current->0,
            if range.len() == 0 {
                None
            } else {
                Some(range)
            },
        ),
{
    assert forall|i: int| 0 <= i < range.len() implies #[trigger] range[i] != bytes::SPACE && range[i]
        != bytes::TAB by {}
    bytes::law_fields_of_two_words(range, bytes::SPACE, Seq::empty());
    assert forall|i: int| 0 <= i < range.len() implies bytes::is_digit(#[trigger] range[i])
        || range[i] == DASH by {}
    assert(is_range_field(range));
    assert(explicit_group(range) is None);
}

/// `LISTGROUP` with a name that is that of no group is refused, whatever was selected before.
pub proof fn law_listgroup_refuses_unknown_groups(
    name: Seq<u8>,
    at: int,
    current: Option<FixtureGroup>,
    group_selected: bool,
)
    requires
        group_named(name) is None,
        0 <= at < name.len(),
        !(48 <= name[at] <= 57) && name[at] != 45,
        forall|i: int|
            0 <= i < name.len() ==> #[trigger] name[i] != bytes::SPACE && name[i] != bytes::TAB,
    ensures
        listgroup_error(name, group_selected) == Some(NO_SUCH_GROUP_RESPONSE),
        listgroup_text(name, current) == NO_SUCH_GROUP_RESPONSE,
{
    bytes::law_fields_of_two_words(name, bytes::SPACE, Seq::empty());
    assert(!(bytes::is_digit(name[at]) || name[at] == DASH));
    assert(explicit_group(name) == Some(name));
}

/// The range from one number to another, or on from it.
pub open spec fn range_text(first: u64, last: Option<u64>) -> Seq<u8> {
    bytes::decimal(first as nat) + seq![45u8] + (match last {
        Some(number) => bytes::decimal(number as nat),
        None => Seq::empty(),
    })
}

proof fn lemma_range_bounds(first: u64, last: Option<u64>)
    ensures
        range_bounds(range_text(first, last)) == Some((first, last)),
{
    let start = bytes::decimal(first as nat);
    let end = match last {
        Some(number) => bytes::decimal(number as nat),
        None => Seq::empty(),
    };
    let text = range_text(first, last);
    let dash = start.len() as int;
    bytes::lemma_decimal(first as nat);
    bytes::law_number_of_decimal(first);
    if let Some(number) = last {
        bytes::lemma_decimal(number as nat);
        bytes::law_number_of_decimal(number);
    }
    assert forall|i: int| 0 <= i < text.len() implies #[trigger] text[i] < 0x80 && (i < dash
        ==> text[i] != DASH) by {
        if i < dash {
            assert(text[i] == start[i]);
            assert(bytes::is_digit(start[i]));
        } else if i > dash {
            assert(text[i] == end[i - dash - 1]);
            assert(bytes::is_digit(end[i - dash - 1]));
        }
    }
    crate::values::lemma_ascii_is_utf8(text);
    bytes::lemma_find_byte_is(text, DASH, 0, dash);
    assert(text.subrange(0, dash) =~= start);
    assert(text.subrange(dash + 1, text.len() as int) =~= end);
}

/// A range from one number to another covers the numbers between the two and the two themselves;
/// without an end it covers all numbers from the first on; and a number alone covers itself.
pub proof fn law_range_covers_what_it_spans(first: u64, last: u64, number: int)
    ensures
        range_covers(range_text(first, Some(last)), number) <==> first <= number <= last,
        range_covers(range_text(first, None), number) <==> first <= number,
        range_covers(bytes::decimal(first as nat), number) <==> number == first,
{
    lemma_range_bounds(first, Some(last));
    lemma_range_bounds(first, None);
    let text = bytes::decimal(first as nat);
    bytes::lemma_decimal(first as nat);
    bytes::law_number_of_decimal(first);
    assert forall|i: int| 0 <= i < text.len() implies #[trigger] text[i] < 0x80 && text[i] != DASH by {
        assert(bytes::is_digit(text[i]));
    }
    crate::values::lemma_ascii_is_utf8(text);
    bytes::lemma_find_byte_is(text, DASH, 0, text.len() as int);
}

/// A range selects something in a group exactly where it reaches an article of the group.
pub proof fn law_range_selects_what_it_reaches(first: u64, last: u64, count: u64)
    ensures
        range_selects(range_text(first, Some(last)), count) <==> first <= last && first <= count
            && 1 <= last && 1 <= count,
        range_selects(range_text(first, None), count) <==> first <= count && 1 <= count,
{
    assert forall|number: int| true implies (#[trigger] range_covers(
        range_text(first, Some(last)),
        number,
    ) <==> first <= number <= last) && (range_covers(range_text(first, None), number) <==> first
        <= number) by {
        law_range_covers_what_it_spans(first, last, number);
    }
    assert forall|number: int| true implies (#[trigger] range_covers(
        range_text(first, None),
        number,
    ) <==> first <= number) by {
        law_range_covers_what_it_spans(first, last, number);
    }
    let low = if first < 1 {
        1int
    } else {
        first as int
    };
    assert(range_covers(range_text(first, Some(last)), low) <==> low <= last);
    assert(range_covers(range_text(first, None), low));
}

/// A listing of a group without a range has a line for each of its articles; with a range that
/// covers none of them it has none, and ends behind the line of `GROUP`.
pub proof fn law_listgroup_lists_all_or_none(group: FixtureGroup, range: Seq<u8>)
    requires
        forall|number: int| 1 <= number <= group_size(group) ==> !#[trigger] range_covers(
            range,
            number,
        ),
    ensures
        listing_text(group, None).spec_bytes() == group_text(group).spec_bytes() + (match group {
            FixtureGroup::AltTest => "1\r\n2\r\n3\r\n",
            FixtureGroup::CompLangRust => "1\r\n",
        }).spec_bytes() + ".\r\n".spec_bytes(),
        listing_text(group, Some(range)).spec_bytes() == group_text(group).spec_bytes()
            + ".\r\n".spec_bytes(),
{
    lemma_alt_listings();
    lemma_comp_listings();
    reveal_strlit("1\r\n2\r\n3\r\n");
    reveal_strlit("1\r\n");
    assert("1\r\n2\r\n3\r\n".is_ascii());
    assert("1\r\n".is_ascii());
    assert("1\r\n2\r\n3\r\n".spec_bytes() =~= seq![49u8, 13, 10, 50, 13, 10, 51, 13, 10]);
    assert("1\r\n".spec_bytes() =~= seq![49u8, 13, 10]);
    let head = group_text(group).spec_bytes();
    assert(head + Seq::<u8>::empty() =~= head);
    assert(!range_covers(range, 1));
    if group == FixtureGroup::AltTest {
        assert(!range_covers(range, 2));
        assert(!range_covers(range, 3));
    }
}

} // verus!
