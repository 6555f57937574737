//! Reading what a model replied: the first JSON object in it, and the mark it carries.
//!
//! Models wrap JSON in prose and fences. The object is found by its braces, with the
//! text inside strings passed over.

use crate::config::maybe_string;
use crate::double::{Double, ONE, ZERO};
use crate::error::ApiError;
use crate::json::{
    json_member, json_number, json_text, json_value, number_at, number_under, parse_json, text_at,
    text_under,
};
use crate::text::{chars_of, text_of};
use vstd::prelude::*;
use vstd::string::*;

verus! {

/// What a marking reply says, each part where it says it.
#[derive(Clone, Debug)]
pub struct RubricReply {
    pub score: Option<Double>,
    pub feedback: Option<String>,
}

impl RubricReply {
    /// The parts as plain values.
    pub open spec fn fields(&self) -> (Option<u64>, Option<Seq<char>>) {
        (
            match self.score {
                Some(score) => Some(score.bits),
                None => None,
            },
            maybe_string(self.feedback),
        )
    }
}

/// What a marking reply says: the `score` and the `feedback` of the first JSON object in
/// it; nothing where there is none.
pub open spec fn reply_of(raw: Seq<char>) -> Option<(Option<u64>, Option<Seq<char>>)> {
    match object_in(raw) {
        None => None,
        Some(value) => Some(
            (number_under(Some(value), "score"@), text_under(Some(value), "feedback"@)),
        ),
    }
}

/// Where the first opening brace stands, from `i` on.
pub open spec fn first_open(s: Seq<char>, i: int) -> Option<int>
    decreases s.len() - i,
{
    if i < 0 || i >= s.len() {
        None
    } else if s[i] == '{' {
        Some(i)
    } else {
        first_open(s, i + 1)
    }
}

/// Where the brace stands that closes the outermost object, from `i` on, with `depth`
/// objects open. Inside a string braces do not count; a backslash there hides what
/// follows it.
pub open spec fn closing_brace(
    s: Seq<char>,
    i: int,
    depth: nat,
    in_string: bool,
    escaped: bool,
) -> Option<int>
    decreases s.len() - i,
{
    if i < 0 || i >= s.len() {
        None
    } else if in_string {
        if escaped {
            closing_brace(s, i + 1, depth, true, false)
        } else if s[i] == '\\' {
            closing_brace(s, i + 1, depth, true, true)
        } else {
            closing_brace(s, i + 1, depth, s[i] != '"', false)
        }
    } else if s[i] == '"' {
        closing_brace(s, i + 1, depth, true, false)
    } else if s[i] == '{' {
        closing_brace(s, i + 1, depth + 1, false, false)
    } else if s[i] == '}' {
        if depth <= 1 {
            Some(i)
        } else {
            closing_brace(s, i + 1, (depth - 1) as nat, false, false)
        }
    } else {
        closing_brace(s, i + 1, depth, false, false)
    }
}

/// The first balanced object in a text.
pub open spec fn first_object(s: Seq<char>) -> Option<Seq<char>> {
    match first_open(s, 0) {
        None => None,
        Some(start) => match closing_brace(s, start, 0, false, false) {
            None => None,
            Some(end) => Some(s.subrange(start, end + 1)),
        },
    }
}

/// The first balanced object in a text. An object that is never closed is none.
pub fn object_text(text: &str) -> (object: Option<String>)
    ensures
        (match object {
            Some(o) => Some(o@),
            None => None,
        }) == first_object(text@),
{
    let chars: Vec<char> = chars_of(text);
    let mut start: usize = 0;
    while start < chars.len() && chars[start] != '{'
        invariant
            chars@ == text@,
            start <= chars@.len(),
            first_open(text@, 0) == first_open(text@, start as int),
        decreases chars@.len() - start,
    {
        start += 1;
    }
    if start == chars.len() {
        return None;
    }
    let mut depth: usize = 0;
    let mut in_string: bool = false;
    let mut escaped: bool = false;
    let mut i: usize = start;
    while i < chars.len()
        invariant
            chars@ == text@,
            start <= i <= chars@.len(),
            first_open(text@, 0) == Some(start as int),
            depth <= i - start,
            !in_string ==> !escaped,
            closing_brace(text@, start as int, 0, false, false) == closing_brace(
                text@,
                i as int,
                depth as nat,
                in_string,
                escaped,
            ),
        decreases chars@.len() - i,
    {
        let c: char = chars[i];
        if in_string {
            if escaped {
                escaped = false;
            } else if c == '\\' {
                escaped = true;
            } else if c == '"' {
                in_string = false;
            }
        } else if c == '"' {
            in_string = true;
        } else if c == '{' {
            depth += 1;
        } else if c == '}' {
            if depth <= 1 {
                return Some(text_of(&chars[start..i + 1]));
            }
            depth -= 1;
        }
        i += 1;
    }
    None
}

/// The first balanced JSON object in a reply, if it is one.
pub open spec fn object_in(text: Seq<char>) -> Option<serde_json::Value> {
    match first_object(text) {
        Some(object) => json_value(object),
        None => None,
    }
}

/// The first balanced JSON object in a reply, if it is one.
pub fn extract_json(text: &str) -> (value: Option<serde_json::Value>)
    ensures
        value == object_in(text@),
{
    match object_text(text) {
        Some(object) => parse_json(object.as_str()),
        None => None,
    }
}

/// A mark against a rubric.
#[derive(Clone, Debug)]
pub struct RubricMark {
    pub correct: bool,
    /// In `[0,1]`.
    pub score: Double,
    pub feedback: Option<String>,
}

/// The highest score that a mark needs to count as correct: the bit pattern of 0.6.
pub const PASSING_MARK: u64 = 0x3fe3_3333_3333_3333;

/// The score of a mark: what the model gave, cut off to `[0,1]`, and 0 where it gave
/// none.
pub open spec fn marked_score(given: Option<u64>) -> Double {
    match given {
        Some(bits) => (Double { bits }).clamped(Double { bits: ZERO }, Double { bits: ONE }),
        None => Double { bits: ZERO },
    }
}

/// The score from which an answer counts as correct.
pub open spec fn passing_score(target_mastery: Double) -> Double {
    target_mastery.smaller(Double { bits: PASSING_MARK })
}

/// Whether a mark is what a reply's fields amount to.
pub open spec fn is_mark_of(
    mark: RubricMark,
    fields: (Option<u64>, Option<Seq<char>>),
    target_mastery: Double,
) -> bool {
    &&& mark.score == marked_score(fields.0)
    &&& mark.correct == marked_score(fields.0).at_least(passing_score(target_mastery))
    &&& (match mark.feedback {
        Some(text) => Some(text@),
        None => None,
    }) == fields.1
}

/// The mark that a reply amounts to. The score is cut off rather than trusted.
pub fn mark_of(reply: RubricReply, target_mastery: Double) -> (mark: RubricMark)
    ensures
        is_mark_of(mark, reply.fields(), target_mastery),
        (reply.score matches Some(score) ==> score.finite()) ==> mark.score.is_share(),
        // The score as given, from nothing to all; correct from 0.6 on, or from the target where
        // that is lower.
        reply.score is None ==> mark.score.bits == 0,
        reply.score matches Some(given) ==> given.is_share() ==> mark.score == given,
        reply.score matches Some(given) ==> given.finite() && (Double { bits: ONE }).below(given)
            ==> mark.score.bits == ONE,
        reply.score matches Some(given) ==> given.finite() && given.below(Double { bits: ZERO })
            ==> mark.score.bits == 0,
        target_mastery.at_least(Double { bits: 0x3fe3_3333_3333_3333 }) ==> (mark.correct
            <==> mark.score.at_least(Double { bits: 0x3fe3_3333_3333_3333 })),
        target_mastery.below(Double { bits: 0x3fe3_3333_3333_3333 }) ==> (mark.correct
            <==> mark.score.at_least(target_mastery)),
        mark.feedback is Some <==> reply.feedback is Some,
        mark.feedback matches Some(text) ==> text@ == reply.feedback->0@,
{
    let zero: Double = Double { bits: ZERO };
    let score: Double = match reply.score {
        Some(given) => given.clamp(zero, Double { bits: ONE }),
        None => zero,
    };
    let passing: Double = target_mastery.min(Double { bits: PASSING_MARK });
    RubricMark { correct: score.ge(passing), score, feedback: reply.feedback }
}

/// The mark in what a grading model replied. A reply without a JSON object is a failure
/// of the model, not of the learner.
pub fn read_mark(raw: &str, target_mastery: Double) -> (mark: Result<RubricMark, ApiError>)
    ensures
        match reply_of(raw@) {
            Some(fields) => mark matches Ok(m) && is_mark_of(m, fields, target_mastery),
            None => mark matches Err(ApiError::Upstream(why)) && why@
                == "the grading model did not return JSON"@,
        },
        mark matches Ok(m) ==> m.score.is_share(),
        // Only what the first object in the reply says counts.
        mark is Ok <==> first_object(raw@) is Some && json_value(first_object(raw@)->0) is Some,
        mark matches Ok(m) ==> {
            let value = json_value(first_object(raw@)->0)->0;
            let given = match json_member(value, "score"@) {
                Some(score) => json_number(score),
                None => None,
            };
            let said = match json_member(value, "feedback"@) {
                Some(feedback) => json_text(feedback),
                None => None,
            };
            &&& given is None ==> m.score.bits == 0
            &&& given matches Some(bits) ==> (Double { bits }).is_share() ==> m.score.bits == bits
            &&& m.feedback is Some <==> said is Some
            &&& m.feedback matches Some(text) ==> text@ == said->0
            &&& target_mastery.at_least(Double { bits: 0x3fe3_3333_3333_3333 }) ==> (m.correct
                <==> m.score.at_least(Double { bits: 0x3fe3_3333_3333_3333 }))
        },
{
    match extract_json(raw) {
        Some(value) => {
            let reply: RubricReply = RubricReply {
                score: number_at(Some(&value), "score"),
                feedback: text_at(Some(&value), "feedback"),
            };
            Ok(mark_of(reply, target_mastery))
        },
        None => Err(ApiError::upstream("the grading model did not return JSON")),
    }
}

/// What is taken for an object starts with a brace and ends with the one that closes it.
pub proof fn first_object_is_braced(s: Seq<char>)
    ensures
        first_object(s) matches Some(object) ==> object.len() >= 2 && object[0] == '{'
            && object.last() == '}',
{
    if first_object(s) is Some {
        open_found(s, 0);
        let start = first_open(s, 0)->0;
        close_found(s, start, 0, false, false);
    }
}

proof fn open_found(s: Seq<char>, i: int)
    requires
        0 <= i,
    ensures
        first_open(s, i) matches Some(at) ==> i <= at < s.len() && s[at] == '{',
    decreases s.len() - i,
{
    if i < s.len() && s[i] != '{' {
        open_found(s, i + 1);
    }
}

proof fn close_found(s: Seq<char>, i: int, depth: nat, in_string: bool, escaped: bool)
    requires
        0 <= i,
    ensures
        closing_brace(s, i, depth, in_string, escaped) matches Some(at) ==> i <= at < s.len()
            && s[at] == '}',
    decreases s.len() - i,
{
    if i < s.len() {
        if in_string {
            if escaped {
                close_found(s, i + 1, depth, true, false);
            } else if s[i] == '\\' {
                close_found(s, i + 1, depth, true, true);
            } else {
                close_found(s, i + 1, depth, s[i] != '"', false);
            }
        } else if s[i] == '"' {
            close_found(s, i + 1, depth, true, false);
        } else if s[i] == '{' {
            close_found(s, i + 1, depth + 1, false, false);
        } else if s[i] == '}' {
            if depth > 1 {
                close_found(s, i + 1, (depth - 1) as nat, false, false);
            }
        } else {
            close_found(s, i + 1, depth, false, false);
        }
    }
}

proof fn open_shifts(lead: Seq<char>, s: Seq<char>, i: int)
    requires
        0 <= i <= s.len(),
    ensures
        first_open(lead + s, lead.len() + i) == (match first_open(s, i) {
            Some(at) => Some(lead.len() + at),
            None => None,
        }),
    decreases s.len() - i,
{
    let all = lead + s;
    if i < s.len() {
        assert(all[lead.len() + i] == s[i]);
        if s[i] != '{' {
            open_shifts(lead, s, i + 1);
        }
    }
}

proof fn open_skips(lead: Seq<char>, s: Seq<char>, i: int)
    requires
        0 <= i <= lead.len(),
        forall|k: int| 0 <= k < lead.len() ==> lead[k] != '{',
    ensures
        first_open(lead + s, i) == first_open(lead + s, lead.len() as int),
    decreases lead.len() - i,
{
    if i < lead.len() {
        assert((lead + s)[i] == lead[i]);
        open_skips(lead, s, i + 1);
    }
}

proof fn close_shifts(
    lead: Seq<char>,
    s: Seq<char>,
    i: int,
    depth: nat,
    in_string: bool,
    escaped: bool,
)
    requires
        0 <= i <= s.len(),
    ensures
        closing_brace(lead + s, lead.len() + i, depth, in_string, escaped) == (match closing_brace(
            s,
            i,
            depth,
            in_string,
            escaped,
        ) {
            Some(at) => Some(lead.len() + at),
            None => None,
        }),
    decreases s.len() - i,
{
    let all = lead + s;
    if i < s.len() {
        assert(all[lead.len() + i] == s[i]);
        if in_string {
            if escaped {
                close_shifts(lead, s, i + 1, depth, true, false);
            } else if s[i] == '\\' {
                close_shifts(lead, s, i + 1, depth, true, true);
            } else {
                close_shifts(lead, s, i + 1, depth, s[i] != '"', false);
            }
        } else if s[i] == '"' {
            close_shifts(lead, s, i + 1, depth, true, false);
        } else if s[i] == '{' {
            close_shifts(lead, s, i + 1, depth + 1, false, false);
        } else if s[i] == '}' {
            if depth > 1 {
                close_shifts(lead, s, i + 1, (depth - 1) as nat, false, false);
            }
        } else {
            close_shifts(lead, s, i + 1, depth, false, false);
        }
    }
}

/// What comes before the first brace, and what follows the brace that closes the object, makes
/// no difference to it.
pub proof fn an_object_is_found_in_any_prose(lead: Seq<char>, object: Seq<char>, tail: Seq<char>)
    requires
        forall|k: int| 0 <= k < lead.len() ==> lead[k] != '{',
        first_object(object) == Some(object),
    ensures
        first_object(lead + object + tail) == Some(object),
{
    let rest = object + tail;
    assert(lead + object + tail =~= lead + rest);
    open_found(object, 0);
    let start = first_open(object, 0)->0;
    close_found(object, start, 0, false, false);
    let end = closing_brace(object, start, 0, false, false)->0;
    assert(object.subrange(start, end + 1).len() == end + 1 - start);
    assert(start == 0 && end == object.len() - 1);
    open_skips(lead, rest, 0);
    open_shifts(lead, rest, 0);
    assert(rest[0] == object[0]);
    assert(first_open(rest, 0) == Some(0int));
    close_ignores_tail(object, tail, 0, 0, false, false);
    close_shifts(lead, rest, 0, 0, false, false);
    assert((lead + rest).subrange(lead.len() as int, lead.len() + end + 1) =~= object);
}

proof fn close_ignores_tail(
    s: Seq<char>,
    tail: Seq<char>,
    i: int,
    depth: nat,
    in_string: bool,
    escaped: bool,
)
    requires
        0 <= i <= s.len(),
        closing_brace(s, i, depth, in_string, escaped) is Some,
    ensures
        closing_brace(s + tail, i, depth, in_string, escaped) == closing_brace(
            s,
            i,
            depth,
            in_string,
            escaped,
        ),
    decreases s.len() - i,
{
    let all = s + tail;
    if i < s.len() {
        assert(all[i] == s[i]);
        if in_string {
            if escaped {
                close_ignores_tail(s, tail, i + 1, depth, true, false);
            } else if s[i] == '\\' {
                close_ignores_tail(s, tail, i + 1, depth, true, true);
            } else {
                close_ignores_tail(s, tail, i + 1, depth, s[i] != '"', false);
            }
        } else if s[i] == '"' {
            close_ignores_tail(s, tail, i + 1, depth, true, false);
        } else if s[i] == '{' {
            close_ignores_tail(s, tail, i + 1, depth + 1, false, false);
        } else if s[i] == '}' {
            if depth > 1 {
                close_ignores_tail(s, tail, i + 1, (depth - 1) as nat, false, false);
            }
        } else {
            close_ignores_tail(s, tail, i + 1, depth, false, false);
        }
    }
}

/// Whether a text has neither braces nor quotes.
pub open spec fn is_plain(s: Seq<char>) -> bool {
    forall|i: int| 0 <= i < s.len() ==> s[i] != '{' && s[i] != '}' && #[trigger] s[i] != '"'
}

/// Whether a text has neither quotes nor backslashes: what may stand in a string as it is.
pub open spec fn is_quoted_plainly(s: Seq<char>) -> bool {
    forall|i: int| 0 <= i < s.len() ==> s[i] != '"' && #[trigger] s[i] != '\\'
}

proof fn plain_passes(s: Seq<char>, from: int, to: int, depth: nat)
    requires
        0 <= from <= to <= s.len(),
        is_plain(s.subrange(from, to)),
    ensures
        closing_brace(s, from, depth, false, false) == closing_brace(s, to, depth, false, false),
    decreases to - from,
{
    if from < to {
        let part = s.subrange(from, to);
        assert(part[0] == s[from]);
        assert(part[0] != '{' && part[0] != '}' && part[0] != '"');
        assert(is_plain(s.subrange(from + 1, to))) by {
            let rest = s.subrange(from + 1, to);
            assert forall|i: int| 0 <= i < rest.len() implies rest[i] != '{' && rest[i] != '}'
                && #[trigger] rest[i] != '"' by {
                assert(rest[i] == part[i + 1]);
            }
        }
        plain_passes(s, from + 1, to, depth);
    }
}

proof fn quoted_passes(s: Seq<char>, from: int, to: int, depth: nat)
    requires
        0 <= from <= to <= s.len(),
        is_quoted_plainly(s.subrange(from, to)),
    ensures
        closing_brace(s, from, depth, true, false) == closing_brace(s, to, depth, true, false),
    decreases to - from,
{
    if from < to {
        let part = s.subrange(from, to);
        assert(part[0] == s[from]);
        assert(part[0] != '"' && part[0] != '\\');
        assert(is_quoted_plainly(s.subrange(from + 1, to))) by {
            let rest = s.subrange(from + 1, to);
            assert forall|i: int| 0 <= i < rest.len() implies rest[i] != '"' && #[trigger] rest[i]
                != '\\' by {
                assert(rest[i] == part[i + 1]);
            }
        }
        quoted_passes(s, from + 1, to, depth);
    }
}

/// A brace inside a string does not count, and neither does a quote behind a backslash there:
/// an object that holds a string is taken whole, whatever the string says.
pub proof fn a_string_hides_its_braces(
    a: Seq<char>,
    said: Seq<char>,
    hidden: char,
    more: Seq<char>,
    b: Seq<char>,
)
    requires
        is_plain(a),
        is_plain(b),
        is_quoted_plainly(said),
        is_quoted_plainly(more),
    ensures
        ({
            let object = seq!['{'] + a + seq!['"'] + said + seq!['\\', hidden] + more + seq!['"'] + b
                + seq!['}'];
            first_object(object) == Some(object)
        }),
        ({
            let object = seq!['{'] + a + seq!['"'] + said + seq!['"'] + b + seq!['}'];
            first_object(object) == Some(object)
        }),
{
    let p1 = 1 + a.len() as int;
    let p2 = p1 + 1 + said.len();
    {
        let s = seq!['{'] + a + seq!['"'] + said + seq!['\\', hidden] + more + seq!['"'] + b + seq![
            '}',
        ];
        let p3 = p2 + 2 + more.len();
        let p4 = p3 + 1 + b.len();
        assert(s[0] == '{');
        assert(s.subrange(1, p1) =~= a);
        plain_passes(s, 1, p1, 1);
        assert(s[p1] == '"');
        assert(s.subrange(p1 + 1, p2) =~= said);
        quoted_passes(s, p1 + 1, p2, 1);
        assert(s[p2] == '\\');
        assert(s.subrange(p2 + 2, p3) =~= more);
        quoted_passes(s, p2 + 2, p3, 1);
        assert(s[p3] == '"');
        assert(s.subrange(p3 + 1, p4) =~= b);
        plain_passes(s, p3 + 1, p4, 1);
        assert(s[p4] == '}');
        assert(p4 + 1 == s.len());
        assert(closing_brace(s, p2, 1, true, false) == closing_brace(s, p2 + 1, 1, true, true));
        assert(closing_brace(s, p2 + 1, 1, true, true) == closing_brace(s, p2 + 2, 1, true, false));
        assert(closing_brace(s, p3, 1, true, false) == closing_brace(s, p3 + 1, 1, false, false));
        assert(closing_brace(s, p1, 1, false, false) == closing_brace(s, p1 + 1, 1, true, false));
        assert(closing_brace(s, 0, 0, false, false) == closing_brace(s, 1, 1, false, false));
        assert(closing_brace(s, p4, 1, false, false) == Some(p4));
        assert(s.subrange(0, p4 + 1) =~= s);
    }
    let s = seq!['{'] + a + seq!['"'] + said + seq!['"'] + b + seq!['}'];
    let p4 = p2 + 1 + b.len();
    assert(s[0] == '{');
    assert(s.subrange(1, p1) =~= a);
    plain_passes(s, 1, p1, 1);
    assert(s[p1] == '"');
    assert(s.subrange(p1 + 1, p2) =~= said);
    quoted_passes(s, p1 + 1, p2, 1);
    assert(s[p2] == '"');
    assert(s.subrange(p2 + 1, p4) =~= b);
    plain_passes(s, p2 + 1, p4, 1);
    assert(s[p4] == '}');
    assert(closing_brace(s, p2, 1, true, false) == closing_brace(s, p2 + 1, 1, false, false));
    assert(closing_brace(s, p1, 1, false, false) == closing_brace(s, p1 + 1, 1, true, false));
    assert(closing_brace(s, 0, 0, false, false) == closing_brace(s, 1, 1, false, false));
    assert(closing_brace(s, p4, 1, false, false) == Some(p4));
    assert(s.subrange(0, p4 + 1) =~= s);
}

proof fn deeper_goes_on(
    s: Seq<char>,
    i: int,
    depth: nat,
    in_string: bool,
    escaped: bool,
    more: nat,
)
    requires
        0 <= i <= s.len(),
        more >= 1,
        closing_brace(s, i, depth, in_string, escaped) is Some,
        depth >= 1 || (i < s.len() && s[i] == '{' && !in_string),
    ensures
        closing_brace(s, i, depth + more, in_string, escaped) == closing_brace(
            s,
            closing_brace(s, i, depth, in_string, escaped)->0 + 1,
            more,
            false,
            false,
        ),
    decreases s.len() - i,
{
    if i < s.len() {
        if in_string {
            if escaped {
                deeper_goes_on(s, i + 1, depth, true, false, more);
            } else if s[i] == '\\' {
                deeper_goes_on(s, i + 1, depth, true, true, more);
            } else {
                deeper_goes_on(s, i + 1, depth, s[i] != '"', false, more);
            }
        } else if s[i] == '"' {
            deeper_goes_on(s, i + 1, depth, true, false, more);
        } else if s[i] == '{' {
            deeper_goes_on(s, i + 1, depth + 1, false, false, more);
        } else if s[i] == '}' {
            if depth > 1 {
                deeper_goes_on(s, i + 1, (depth - 1) as nat, false, false, more);
            }
        } else {
            deeper_goes_on(s, i + 1, depth, false, false, more);
        }
    }
}

/// An object that holds another is taken whole, to the brace that closes the outer one.
pub proof fn objects_nest(a: Seq<char>, inner: Seq<char>, b: Seq<char>)
    requires
        is_plain(a),
        is_plain(b),
        first_object(inner) == Some(inner),
    ensures
        ({
            let outer = seq!['{'] + a + inner + b + seq!['}'];
            first_object(outer) == Some(outer)
        }),
{
    let s = seq!['{'] + a + inner + b + seq!['}'];
    let lead = seq!['{'] + a;
    let tail = b + seq!['}'];
    assert(s =~= lead + (inner + tail));
    open_found(inner, 0);
    let start = first_open(inner, 0)->0;
    close_found(inner, start, 0, false, false);
    let end = closing_brace(inner, start, 0, false, false)->0;
    assert(inner.subrange(start, end + 1).len() == end + 1 - start);
    assert(start == 0 && end == inner.len() - 1);
    let p1 = 1 + a.len() as int;
    let p2 = p1 + inner.len();
    let p3 = p2 + b.len();
    assert(s[0] == '{');
    assert(s.subrange(1, p1) =~= a);
    plain_passes(s, 1, p1, 1);
    close_ignores_tail(inner, tail, 0, 0, false, false);
    close_shifts(lead, inner + tail, 0, 0, false, false);
    assert(s[p1] == inner[0]);
    assert(closing_brace(s, p1, 0, false, false) == Some(p2 - 1));
    deeper_goes_on(s, p1, 0, false, false, 1);
    assert(s.subrange(p2, p3) =~= b);
    plain_passes(s, p2, p3, 1);
    assert(s[p3] == '}');
    assert(closing_brace(s, 0, 0, false, false) == closing_brace(s, 1, 1, false, false));
    assert(closing_brace(s, p3, 1, false, false) == Some(p3));
    assert(s.subrange(0, p3 + 1) =~= s);
}

/// Where no brace opens there is no object, and neither where one opens that is never closed
/// outside a string.
pub proof fn an_open_object_is_none(lead: Seq<char>, inside: Seq<char>)
    requires
        forall|k: int| 0 <= k < lead.len() ==> lead[k] != '{',
        is_plain(inside),
    ensures
        first_object(lead) is None,
        first_object(lead + seq!['{'] + inside) is None,
{
    open_skips(lead, seq![], 0);
    assert(lead + seq![] =~= lead);
    let s = seq!['{'] + inside;
    let all = lead + seq!['{'] + inside;
    assert(all =~= lead + s);
    open_skips(lead, s, 0);
    open_shifts(lead, s, 0);
    assert(s[0] == '{');
    assert(s.subrange(1, s.len() as int) =~= inside);
    plain_passes(s, 1, s.len() as int, 1);
    assert(closing_brace(s, 0, 0, false, false) == closing_brace(s, 1, 1, false, false));
    close_shifts(lead, s, 0, 0, false, false);
}

/// A mark is the score as given, from nothing to all, and correct from 0.6 on, or from the
/// target where that is lower; a better score is never worse marked.
pub proof fn a_mark_goes_by_its_score(given: u64, better: u64, target: Double)
    requires
        (Double { bits: better }).at_least(Double { bits: given }),
        !target.nan(),
    ensures
        marked_score(None).bits == 0,
        (Double { bits: given }).is_share() ==> marked_score(Some(given)).bits == given,
        (Double { bits: ONE }).below(Double { bits: given }) ==> marked_score(Some(given)).bits
            == 0x3ff0_0000_0000_0000,
        (Double { bits: given }).below(Double { bits: ZERO }) ==> marked_score(Some(given)).bits == 0,
        target.at_least(Double { bits: 0x3fe3_3333_3333_3333 }) ==> passing_score(target).bits
            == 0x3fe3_3333_3333_3333 || passing_score(target).rank() == (Double {
            bits: 0x3fe3_3333_3333_3333,
        }).rank(),
        target.below(Double { bits: 0x3fe3_3333_3333_3333 }) ==> passing_score(target) == target,
        marked_score(Some(given)).at_least(passing_score(target)) ==> marked_score(
            Some(better),
        ).at_least(passing_score(target)),
{
}

/// What a reply says is the `score` and the `feedback` of the first object in it.
pub proof fn a_reply_says_its_score_and_feedback(raw: Seq<char>, value: serde_json::Value)
    ensures
        first_object(raw) is None ==> reply_of(raw) is None && object_in(raw) is None,
        first_object(raw) matches Some(object) ==> (json_value(object) is None ==> reply_of(
            raw,
        ) is None && object_in(raw) is None),
        first_object(raw) matches Some(object) ==> (json_value(object) == Some(value) ==> object_in(
            raw,
        ) == Some(value) && reply_of(raw) == Some(
            (
                match json_member(value, "score"@) {
                    Some(score) => json_number(score),
                    None => None,
                },
                match json_member(value, "feedback"@) {
                    Some(feedback) => json_text(feedback),
                    None => None,
                },
            ),
        )),
{
}

/// A mark carries what the reply said, and is correct by its score alone.
pub proof fn a_mark_carries_what_was_said(
    mark: RubricMark,
    fields: (Option<u64>, Option<Seq<char>>),
    target: Double,
)
    requires
        is_mark_of(mark, fields, target),
    ensures
        mark.score == marked_score(fields.0),
        mark.correct <==> mark.score.at_least(passing_score(target)),
        mark.feedback is Some <==> fields.1 is Some,
        mark.feedback matches Some(text) ==> text@ == fields.1->0,
{
}

} // verus!
