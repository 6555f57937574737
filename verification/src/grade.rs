//! Objective grading: the part that never asks a model anything.
//!
//! Four of the five item kinds are decided here by comparison. Only free response is
//! handed on, with the rubric it is to be marked against. What cannot be graded is
//! reported as such, never as incorrect.

use crate::decimal::{pow10, pow10_adds, pow10_grows, read, read_bound, thirty_digits_fit, Decimal};
use crate::models::{AnswerKey, GradedBy, ItemKind, Tolerance};
use crate::text::{
    all_words, chars_of, is_white, is_word, join, joined, joined_words,
    joined_words_are_single_spaced, joining_puts_the_separator_between, pieces, run_len,
    run_len_bound, same_text, single_spaced, split_on, text_of, texts, white_space_parts_words,
    words, words_are_words,
};
use vstd::prelude::*;
use vstd::string::*;

verus! {

/// The lower-case form of a text by full Unicode case mapping, as `str::to_lowercase`
/// gives it.
pub uninterp spec fn lowercase(text: Seq<char>) -> Seq<char>;

/// An ASCII letter in lower case; every other character as it is.
pub open spec fn ascii_lower(c: char) -> char {
    if 'A' <= c <= 'Z' {
        ((c as u32 + 32) as u32) as char
    } else {
        c
    }
}

/// Whether every character is ASCII.
pub open spec fn all_ascii(s: Seq<char>) -> bool {
    forall|i: int| 0 <= i < s.len() ==> (#[trigger] s[i]) as int <= 127
}

/// `str::to_lowercase` of the standard library. The result depends on the text alone;
/// of a text that is ASCII throughout it is the same text with `A` to `Z` replaced by
/// `a` to `z`.
pub assume_specification[ str::to_lowercase ](text: &str) -> (lower: String)
    ensures
        lower@ == lowercase(text@),
        all_ascii(text@) ==> lower@ == text@.map_values(|c: char| ascii_lower(c)),
;

/// Text as it is compared: words in lower case, one space between them.
pub open spec fn folded(s: Seq<char>) -> Seq<char> {
    joined(words(s).map_values(|w: Seq<char>| lowercase(w)), seq![' '])
}

/// A word with its ASCII letters in lower case.
pub open spec fn ascii_lowered(word: Seq<char>) -> Seq<char> {
    word.map_values(|c: char| ascii_lower(c))
}

/// What ASCII text is compared as.
pub open spec fn ascii_folded(s: Seq<char>) -> Seq<char> {
    joined(words(s).map_values(|w: Seq<char>| ascii_lowered(w)), seq![' '])
}

/// Folds text for comparison: lower case, white space collapsed and trimmed.
pub fn fold(text: &str) -> (out: String)
    ensures
        out@ == folded(text@),
        all_ascii(text@) ==> out@ == ascii_folded(text@) && all_ascii(out@) && ascii_folded(out@)
            == out@,
{
    let chars: Vec<char> = chars_of(text);
    let mut parts: Vec<String> = Vec::new();
    let mut i: usize = 0;
    let ghost all = words(text@).map_values(|w: Seq<char>| lowercase(w));
    let ghost plain = words(text@).map_values(|w: Seq<char>| ascii_lowered(w));
    proof {
        assert(text@.skip(0) =~= text@);
        assert(texts(parts@) + words(text@).map_values(|w: Seq<char>| lowercase(w)) =~= all);
        assert(texts(parts@) + words(text@).map_values(|w: Seq<char>| ascii_lowered(w)) =~= plain);
    }
    while i < chars.len()
        invariant
            chars@ == text@,
            i <= chars@.len(),
            all == words(text@).map_values(|w: Seq<char>| lowercase(w)),
            texts(parts@) + words(text@.skip(i as int)).map_values(|w: Seq<char>| lowercase(w))
                == all,
            plain == words(text@).map_values(|w: Seq<char>| ascii_lowered(w)),
            all_ascii(text@) ==> texts(parts@) + words(text@.skip(i as int)).map_values(
                |w: Seq<char>| ascii_lowered(w),
            ) == plain,
        decreases chars@.len() - i,
    {
        let ghost rest = text@.skip(i as int);
        assert(rest[0] == chars@[i as int]);
        if chars[i].is_whitespace() {
            assert(rest.skip(1) =~= text@.skip(i + 1));
            i += 1;
        } else {
            let mut end: usize = i;
            assert(rest.skip(0) =~= rest);
            while end < chars.len() && !chars[end].is_whitespace()
                invariant
                    chars@ == text@,
                    i <= end <= chars@.len(),
                    rest == text@.skip(i as int),
                    run_len(rest) == (end - i) + run_len(rest.skip(end - i)),
                decreases chars@.len() - end,
            {
                assert(rest.skip(end - i)[0] == chars@[end as int]);
                assert(rest.skip(end - i).skip(1) =~= rest.skip(end - i + 1));
                end += 1;
            }
            assert(end < chars@.len() ==> rest.skip(end - i)[0] == chars@[end as int]);
            assert(run_len(rest) == end - i);
            proof {
                run_len_bound(rest);
            }
            let word: String = text_of(&chars[i..end]);
            let ghost before = texts(parts@);
            parts.push(word.as_str().to_lowercase());
            proof {
                let n = end - i;
                assert(word@ =~= rest.take(n));
                assert(rest.skip(n) =~= text@.skip(end as int));
                let f = |w: Seq<char>| lowercase(w);
                assert(words(rest) == seq![rest.take(n)] + words(rest.skip(n)));
                assert(texts(parts@) =~= before.push(lowercase(rest.take(n))));
                assert(texts(parts@) + words(rest.skip(n)).map_values(f) =~= before + words(
                    rest,
                ).map_values(f));
                if all_ascii(text@) {
                    let g = |w: Seq<char>| ascii_lowered(w);
                    assert forall|k: int| 0 <= k < n implies (#[trigger] word@[k]) as int <= 127 by {
                        assert(word@[k] == text@[i + k]);
                    }
                    assert(texts(parts@) =~= before.push(ascii_lowered(rest.take(n))));
                    assert(texts(parts@) + words(rest.skip(n)).map_values(g) =~= before + words(
                        rest,
                    ).map_values(g));
                }
            }
            i = end;
        }
    }
    proof {
        assert(words(text@.skip(i as int)) =~= seq![]);
        assert(texts(parts@) =~= all);
        assert(all_ascii(text@) ==> texts(parts@) =~= plain);
        ascii_folding_keeps_the_words(text@);
        if all_ascii(text@) {
            ascii_folded_is_ascii(text@);
        }
        reveal_strlit(" ");
        assert(" "@ =~= seq![' ']);
    }
    join(parts.as_slice(), " ")
}

/// Whether lower case turns every word of a text into a word: nothing is lost, and no white
/// space comes up.
pub open spec fn lowers_to_words(s: Seq<char>) -> bool {
    forall|k: int| 0 <= k < words(s).len() ==> is_word(lowercase(#[trigger] words(s)[k]))
}

/// What a text is folded to has its words, in lower case, and no white space but a single
/// space between each two of them.
pub proof fn folding_keeps_the_words(s: Seq<char>)
    requires
        lowers_to_words(s),
    ensures
        words(folded(s)) == words(s).map_values(|w: Seq<char>| lowercase(w)),
        words(folded(s)).len() == words(s).len(),
        single_spaced(folded(s)),
{
    let lowered = words(s).map_values(|w: Seq<char>| lowercase(w));
    assert forall|k: int| 0 <= k < lowered.len() implies is_word(#[trigger] lowered[k]) by {
        assert(is_word(lowercase(words(s)[k])));
    }
    joined_words(lowered);
    joined_words_are_single_spaced(lowered);
}

/// Two texts are folded alike exactly when their words are the same in lower case.
pub proof fn texts_fold_alike_by_their_words(a: Seq<char>, b: Seq<char>)
    requires
        lowers_to_words(a),
        lowers_to_words(b),
    ensures
        folded(a) == folded(b) <==> words(a).map_values(|w: Seq<char>| lowercase(w)) == words(
            b,
        ).map_values(|w: Seq<char>| lowercase(w)),
{
    folding_keeps_the_words(a);
    folding_keeps_the_words(b);
}

/// Folding twice changes nothing, where lower case turns words into words that it leaves
/// as they are.
pub proof fn folding_twice_changes_nothing(s: Seq<char>)
    requires
        lowers_to_words(s),
        forall|k: int|
            0 <= k < words(s).len() ==> lowercase(lowercase(#[trigger] words(s)[k])) == lowercase(
                words(s)[k],
            ),
    ensures
        folded(folded(s)) == folded(s),
{
    folding_keeps_the_words(s);
    let lowered = words(s).map_values(|w: Seq<char>| lowercase(w));
    assert forall|k: int| 0 <= k < lowered.len() implies lowercase(#[trigger] lowered[k])
        == lowered[k] by {
        assert(lowercase(lowercase(words(s)[k])) == lowercase(words(s)[k]));
    }
    assert(lowered.map_values(|w: Seq<char>| lowercase(w)) =~= lowered);
}

proof fn ascii_lower_keeps(c: char)
    ensures
        ascii_lower(ascii_lower(c)) == ascii_lower(c),
        is_white(ascii_lower(c)) <==> is_white(c),
        c as int <= 127 ==> ascii_lower(c) as int <= 127,
{
}

proof fn ascii_words_stay(s: Seq<char>)
    ensures
        all_words(words(s).map_values(|w: Seq<char>| ascii_lowered(w))),
        words(s).map_values(|w: Seq<char>| ascii_lowered(w)).map_values(
            |w: Seq<char>| ascii_lowered(w),
        ) == words(s).map_values(|w: Seq<char>| ascii_lowered(w)),
{
    let plain = words(s);
    let lowered = plain.map_values(|w: Seq<char>| ascii_lowered(w));
    words_are_words(s);
    assert forall|k: int| 0 <= k < lowered.len() implies is_word(#[trigger] lowered[k]) by {
        let w = plain[k];
        assert(is_word(w));
        assert forall|i: int| 0 <= i < lowered[k].len() implies !is_white(
            #[trigger] lowered[k][i],
        ) by {
            assert(!is_white(w[i]));
            ascii_lower_keeps(w[i]);
        }
    }
    let again = lowered.map_values(|w: Seq<char>| ascii_lowered(w));
    assert forall|k: int| 0 <= k < again.len() implies #[trigger] again[k] == lowered[k] by {
        assert forall|i: int| 0 <= i < again[k].len() implies #[trigger] again[k][i]
            == lowered[k][i] by {
            ascii_lower_keeps(plain[k][i]);
        }
        assert(again[k] =~= lowered[k]);
    }
    assert(again =~= lowered);
}

/// What an ASCII text is folded to has its words, with capitals in lower case, and no white
/// space but a single space between each two of them; folding it again changes nothing.
pub proof fn ascii_folding_keeps_the_words(s: Seq<char>)
    ensures
        words(ascii_folded(s)) == words(s).map_values(|w: Seq<char>| ascii_lowered(w)),
        words(ascii_folded(s)).len() == words(s).len(),
        single_spaced(ascii_folded(s)),
        ascii_folded(ascii_folded(s)) == ascii_folded(s),
{
    ascii_words_stay(s);
    let lowered = words(s).map_values(|w: Seq<char>| ascii_lowered(w));
    joined_words(lowered);
    joined_words_are_single_spaced(lowered);
}

/// Two ASCII texts are folded alike exactly when their words agree but for capitals.
pub proof fn ascii_texts_fold_alike_ignoring_case(a: Seq<char>, b: Seq<char>)
    ensures
        ascii_folded(a) == ascii_folded(b) <==> words(a).map_values(
            |w: Seq<char>| ascii_lowered(w),
        ) == words(b).map_values(|w: Seq<char>| ascii_lowered(w)),
{
    ascii_folding_keeps_the_words(a);
    ascii_folding_keeps_the_words(b);
}

proof fn words_of_ascii(s: Seq<char>)
    requires
        all_ascii(s),
    ensures
        forall|k: int| 0 <= k < words(s).len() ==> all_ascii(#[trigger] words(s)[k]),
    decreases s.len(),
{
    if s.len() > 0 {
        let n = if is_white(s[0]) {
            1int
        } else {
            run_len_bound(s);
            run_len(s) as int
        };
        let rest = s.skip(n);
        assert forall|i: int| 0 <= i < rest.len() implies (#[trigger] rest[i]) as int <= 127 by {
            assert(rest[i] == s[i + n]);
        }
        words_of_ascii(rest);
        if is_white(s[0]) {
            assert(words(s) == words(rest));
        } else {
            assert(words(s) == seq![s.take(n)] + words(rest));
            assert forall|k: int| 0 <= k < words(s).len() implies all_ascii(#[trigger] words(s)[k]) by {
                if k == 0 {
                    assert(words(s)[0] == s.take(n));
                } else {
                    assert(words(s)[k] == words(rest)[k - 1]);
                }
            }
        }
    }
}

proof fn joined_ascii(parts: Seq<Seq<char>>)
    requires
        forall|k: int| 0 <= k < parts.len() ==> all_ascii(#[trigger] parts[k]),
    ensures
        all_ascii(joined(parts, seq![' '])),
    decreases parts.len(),
{
    if parts.len() == 1 {
        assert(all_ascii(parts[0]));
    } else if parts.len() > 1 {
        let init = parts.drop_last();
        assert forall|k: int| 0 <= k < init.len() implies all_ascii(#[trigger] init[k]) by {
            assert(init[k] == parts[k]);
        }
        joined_ascii(init);
        assert(all_ascii(parts[parts.len() - 1]));
    }
}

/// Folding keeps ASCII text within ASCII.
proof fn ascii_folded_is_ascii(s: Seq<char>)
    requires
        all_ascii(s),
    ensures
        all_ascii(ascii_folded(s)),
{
    words_of_ascii(s);
    let lowered = words(s).map_values(|w: Seq<char>| ascii_lowered(w));
    assert forall|k: int| 0 <= k < lowered.len() implies all_ascii(#[trigger] lowered[k]) by {
        let w = words(s)[k];
        assert(all_ascii(w));
        assert forall|i: int| 0 <= i < lowered[k].len() implies (#[trigger] lowered[k][i]) as int
            <= 127 by {
            assert(w[i] as int <= 127);
            ascii_lower_keeps(w[i]);
        }
    }
    joined_ascii(lowered);
}

/// How much of what was asked was right: `hits` of `of`.
#[derive(Clone, Copy, Debug, PartialEq, Eq, Structural)]
pub struct Score {
    pub hits: usize,
    pub of: usize,
}

/// The result of grading one answer.
#[derive(Clone, Debug)]
pub enum Outcome {
    /// Decided here, with no model involved.
    Decided {
        correct: bool,
        /// Partial credit. Only cloze gives more than none and less than all.
        score: Score,
        graded_by: GradedBy,
        /// Per-blank results, for cloze. Empty otherwise.
        blanks: Vec<bool>,
    },
    /// Free response: to be marked against the rubric.
    NeedsRubric { rubric: String },
    /// The answer could not be graded, and no verdict is invented.
    Ungradeable { reason: String },
}

impl Outcome {
    /// Whether this outcome should move the mastery posterior.
    pub fn is_informative(&self) -> (yes: bool)
        ensures
            yes == (self is Decided),
    {
        matches!(self, Outcome::Decided { .. })
    }

    /// All or nothing, by comparison alone.
    pub open spec fn is_verdict(&self, right: bool) -> bool {
        match self {
            Outcome::Decided { correct, score, graded_by, blanks } => {
                &&& *correct == right
                &&& *score == (Score {
                    hits: if right {
                        1
                    } else {
                        0
                    },
                    of: 1,
                })
                &&& *graded_by == GradedBy::Deterministic
                &&& blanks@.len() == 0
            },
            _ => false,
        }
    }

    /// No verdict, and why.
    pub open spec fn is_refusal(&self, why: Seq<char>) -> bool {
        self matches Outcome::Ungradeable { reason } && reason@ == why
    }
}

/// Whether one of the accepted texts is the answer, as text is compared.
pub open spec fn accepts(accepted: Seq<String>, answer: Seq<char>) -> bool {
    exists|i: int| 0 <= i < accepted.len() && folded((#[trigger] accepted[i])@) == answer
}

/// The answer given for a blank, as text is compared; nothing where there is none.
pub open spec fn given_for(response: Seq<char>, blank: int) -> Seq<char> {
    let given = pieces(response, '|');
    if blank < given.len() {
        folded(given[blank])
    } else {
        seq![]
    }
}

/// Whether a blank was filled in right. One left empty is wrong, whatever is accepted.
pub open spec fn blank_is_right(
    blanks: Seq<Vec<String>>,
    response: Seq<char>,
    blank: int,
) -> bool {
    let answer = given_for(response, blank);
    answer.len() > 0 && accepts(blanks[blank]@, answer)
}

/// How many are true.
pub open spec fn hits_in(results: Seq<bool>) -> nat
    decreases results.len(),
{
    if results.len() == 0 {
        0
    } else {
        hits_in(results.drop_last()) + if results.last() {
            1nat
        } else {
            0nat
        }
    }
}

/// Credit for each blank that was filled in right.
pub open spec fn is_cloze_mark(
    outcome: Outcome,
    blanks: Seq<Vec<String>>,
    response: Seq<char>,
) -> bool {
    match outcome {
        Outcome::Decided { correct, score, graded_by, blanks: results } => {
            &&& results@.len() == blanks.len()
            &&& forall|i: int|
                0 <= i < blanks.len() ==> #[trigger] results@[i] == blank_is_right(
                    blanks,
                    response,
                    i,
                )
            &&& score.hits == hits_in(results@)
            &&& score.of == blanks.len()
            &&& correct == (score.hits == score.of)
            &&& graded_by == GradedBy::Deterministic
        },
        _ => false,
    }
}

/// How far a number may be from the expected one, if the tolerance can be read.
pub open spec fn allowed_by(tolerance: Tolerance, expected: Decimal) -> Option<Decimal> {
    match tolerance {
        Tolerance::Absolute { value } => read(value@),
        Tolerance::RelativePercent { value } => match read(value@) {
            Some(percent) => expected.share(percent),
            None => None,
        },
    }
}

/// Whether a number lies within what is allowed of the expected one, if the three can
/// be compared.
pub open spec fn within(given: Decimal, expected: Decimal, allowed: Decimal) -> Option<bool> {
    match given.distance(expected) {
        Some(gap) => gap.at_most(allowed),
        None => None,
    }
}

/// What a numeric answer is marked.
pub open spec fn is_numeric_mark(
    outcome: Outcome,
    expected: Seq<char>,
    tolerance: Tolerance,
    response: Seq<char>,
) -> bool {
    match read(expected) {
        None => outcome.is_refusal("this item's expected value could not be read"@),
        Some(value) => match read(response) {
            None => outcome.is_verdict(false),
            Some(given) => match allowed_by(tolerance, value) {
                None => outcome.is_refusal("this item's tolerance could not be read"@),
                Some(allowed) => match within(given, value, allowed) {
                    None => outcome.is_refusal("the answer has too many digits to compare"@),
                    Some(right) => outcome.is_verdict(right),
                },
            },
        },
    }
}

/// Why an item of one kind with an answer of another is not graded.
pub open spec fn mismatch_reason(kind: ItemKind, key_kind: ItemKind) -> Seq<char> {
    "this item is stored as '"@ + kind.label() + "' but its answer is a '"@ + key_kind.label()
        + "' answer"@
}

/// What a response to an item is marked.
pub open spec fn is_mark(
    outcome: Outcome,
    kind: ItemKind,
    key: AnswerKey,
    response: Seq<char>,
) -> bool {
    match key.grades() {
        None => outcome.is_refusal("this item's stored answer could not be read"@),
        Some(key_kind) => if key_kind != kind {
            outcome.is_refusal(mismatch_reason(kind, key_kind))
        } else {
            match key {
                AnswerKey::Mcq { choice_id } => outcome.is_verdict(
                    folded(response) == folded(choice_id@),
                ),
                AnswerKey::Exact { text, alternatives } => outcome.is_verdict(
                    folded(text@) == folded(response) || accepts(
                        alternatives@,
                        folded(response),
                    ),
                ),
                AnswerKey::Cloze { blanks } => if blanks@.len() == 0 {
                    outcome.is_refusal("this cloze item has no blanks"@)
                } else {
                    is_cloze_mark(outcome, blanks@, response)
                },
                AnswerKey::Numeric { expected, tolerance } => is_numeric_mark(
                    outcome,
                    expected@,
                    tolerance,
                    response,
                ),
                AnswerKey::Free { rubric } => outcome matches Outcome::NeedsRubric { rubric: shown }
                    && shown@ == rubric@,
                AnswerKey::Malformed { .. } => false,
            }
        },
    }
}

/// Grades one response against an answer key.
///
/// `kind` is taken alongside the key so that a row whose kind and answer disagree is
/// caught rather than graded by whichever of the two was read.
pub fn grade(kind: ItemKind, key: &AnswerKey, response: &str) -> (outcome: Outcome)
    ensures
        is_mark(outcome, kind, *key, response@),
        all_ascii(response@) ==> match *key {
            AnswerKey::Mcq { choice_id } => kind == ItemKind::Mcq && all_ascii(choice_id@)
                ==> outcome.is_verdict(ascii_folded(response@) == ascii_folded(choice_id@)),
            AnswerKey::Exact { text, alternatives } => kind == ItemKind::Exact && all_ascii(text@)
                && alternatives@.len() == 0 ==> outcome.is_verdict(
                ascii_folded(response@) == ascii_folded(text@),
            ),
            _ => true,
        },
{
    match key.kind() {
        None => {
            return Outcome::Ungradeable {
                reason: "this item's stored answer could not be read".to_owned(),
            };
        },
        Some(key_kind) => {
            if key_kind != kind {
                let mut reason: String = "this item is stored as '".to_owned();
                reason.append(kind.as_str());
                reason.append("' but its answer is a '");
                reason.append(key_kind.as_str());
                reason.append("' answer");
                return Outcome::Ungradeable { reason };
            }
        },
    }
    match key {
        AnswerKey::Mcq { choice_id } => {
            let given: String = fold(response);
            let wanted: String = fold(choice_id.as_str());
            decided(given == wanted)
        },
        AnswerKey::Exact { text, alternatives } => {
            let given: String = fold(response);
            let wanted: String = fold(text.as_str());
            let listed: bool = is_accepted(alternatives, given.as_str());
            decided(wanted == given || listed)
        },
        AnswerKey::Cloze { blanks } => grade_cloze(blanks, response),
        AnswerKey::Numeric { expected, tolerance } => grade_numeric(
            expected.as_str(),
            tolerance,
            response,
        ),
        AnswerKey::Free { rubric } => Outcome::NeedsRubric { rubric: rubric.clone() },
        AnswerKey::Malformed { .. } => Outcome::Ungradeable {
            reason: "this item's stored answer could not be read".to_owned(),
        },
    }
}

/// All or nothing, by comparison alone.
pub fn decided(correct: bool) -> (outcome: Outcome)
    ensures
        outcome.is_verdict(correct),
{
    Outcome::Decided {
        correct,
        score: Score {
            hits: if correct {
                1
            } else {
                0
            },
            of: 1,
        },
        graded_by: GradedBy::Deterministic,
        blanks: Vec::new(),
    }
}

/// Whether one of the accepted texts is the answer, as text is compared.
fn is_accepted(accepted: &Vec<String>, answer: &str) -> (yes: bool)
    ensures
        yes == accepts(accepted@, answer@),
{
    let mut i: usize = 0;
    while i < accepted.len()
        invariant
            i <= accepted@.len(),
            forall|k: int| 0 <= k < i ==> folded((#[trigger] accepted@[k])@) != answer@,
        decreases accepted@.len() - i,
    {
        let one: String = fold(accepted[i].as_str());
        if same_text(one.as_str(), answer) {
            assert(folded(accepted@[i as int]@) == answer@);
            return true;
        }
        i += 1;
    }
    false
}

/// Cloze: one response segment per blank, separated by `|`, with credit per blank.
pub fn grade_cloze(blanks: &Vec<Vec<String>>, response: &str) -> (outcome: Outcome)
    ensures
        blanks@.len() == 0 ==> outcome.is_refusal("this cloze item has no blanks"@),
        blanks@.len() > 0 ==> is_cloze_mark(outcome, blanks@, response@),
{
    if blanks.len() == 0 {
        return Outcome::Ungradeable { reason: "this cloze item has no blanks".to_owned() };
    }
    let given: Vec<String> = split_on(response, '|');
    let mut results: Vec<bool> = Vec::new();
    let mut hits: usize = 0;
    while results.len() < blanks.len()
        invariant
            results@.len() <= blanks@.len(),
            texts(given@) == pieces(response@, '|'),
            forall|i: int|
                0 <= i < results@.len() ==> #[trigger] results@[i] == blank_is_right(
                    blanks@,
                    response@,
                    i,
                ),
            hits == hits_in(results@),
            hits <= results@.len(),
        decreases blanks@.len() - results@.len(),
    {
        let i: usize = results.len();
        let ghost before = results@;
        let answer: String = if i < given.len() {
            assert(texts(given@)[i as int] == given@[i as int]@);
            fold(given[i].as_str())
        } else {
            String::new()
        };
        assert(answer@ =~= given_for(response@, i as int));
        let right: bool = !answer.as_str().is_empty() && is_accepted(&blanks[i], answer.as_str());
        results.push(right);
        assert(results@.drop_last() =~= before);
        if right {
            hits += 1;
        }
    }
    Outcome::Decided {
        correct: hits == blanks.len(),
        score: Score { hits, of: blanks.len() },
        graded_by: GradedBy::Deterministic,
        blanks: results,
    }
}

/// A numeric answer, within an inclusive and exact tolerance. A response that is no
/// number is wrong; a stored value that is none is refused.
pub fn grade_numeric(expected: &str, tolerance: &Tolerance, response: &str) -> (outcome: Outcome)
    ensures
        is_numeric_mark(outcome, expected@, *tolerance, response@),
{
    let value: Decimal = match Decimal::parse(expected) {
        Some(value) => value,
        None => {
            return Outcome::Ungradeable {
                reason: "this item's expected value could not be read".to_owned(),
            };
        },
    };
    let given: Decimal = match Decimal::parse(response) {
        Some(given) => given,
        None => {
            return decided(false);
        },
    };
    let allowed: Option<Decimal> = match tolerance {
        Tolerance::Absolute { value: bound } => Decimal::parse(bound.as_str()),
        Tolerance::RelativePercent { value: bound } => match Decimal::parse(bound.as_str()) {
            Some(percent) => value.percent_of(percent),
            None => None,
        },
    };
    match allowed {
        None => Outcome::Ungradeable {
            reason: "this item's tolerance could not be read".to_owned(),
        },
        Some(allowed) => match given.abs_difference(value) {
            None => Outcome::Ungradeable {
                reason: "the answer has too many digits to compare".to_owned(),
            },
            Some(gap) => match gap.le(allowed) {
                None => Outcome::Ungradeable {
                    reason: "the answer has too many digits to compare".to_owned(),
                },
                Some(right) => decided(right),
            },
        },
    }
}

/// A verdict is reached by comparison alone, and never on a key that cannot be read or
/// that belongs to another kind of item.
pub proof fn verdicts_are_deterministic(
    outcome: Outcome,
    kind: ItemKind,
    key: AnswerKey,
    response: Seq<char>,
)
    requires
        is_mark(outcome, kind, key, response),
    ensures
        outcome matches Outcome::Decided { graded_by, .. } ==> graded_by == GradedBy::Deterministic,
        outcome is Decided ==> key.grades() == Some(kind) && kind.objective(),
        key is Malformed ==> outcome is Ungradeable,
        outcome is NeedsRubric <==> kind == ItemKind::Free && key is Free,
{
}

/// Whether `|given - expected| <= allowed`, all three brought to one denominator.
pub open spec fn lies_within(given: Decimal, expected: Decimal, allowed: Decimal) -> bool {
    let g = given.mantissa * pow10(expected.scale as nat);
    let e = expected.mantissa * pow10(given.scale as nat);
    let gap = if g >= e {
        g - e
    } else {
        e - g
    };
    gap * pow10(allowed.scale as nat) <= allowed.mantissa * pow10(
        (given.scale + expected.scale) as nat,
    )
}

/// Where numbers can be compared at all, the verdict is that of exact arithmetic: the
/// boundary counts as within, and nothing is rounded.
pub proof fn numeric_verdict_is_exact(given: Decimal, expected: Decimal, allowed: Decimal)
    ensures
        within(given, expected, allowed) matches Some(right) ==> right == lies_within(
            given,
            expected,
            allowed,
        ),
{
    if within(given, expected, allowed) is Some {
        let gap = given.distance(expected)->0;
        gap.at_most_is_by_value(allowed);
        let g = given.mantissa as int;
        let e = expected.mantissa as int;
        let gs = given.scale as nat;
        let es = expected.scale as nat;
        let (low, high) = if gs >= es {
            (es, gs)
        } else {
            (gs, es)
        };
        let up = pow10((high - low) as nat);
        let base = pow10(low);
        pow10_adds((high - low) as nat, low);
        pow10_adds(gs, es);
        pow10_adds(high, low);
        pow10_grows(0, low);
        assert(pow10(0) == 1);
        assert(pow10(high) == up * base);
        let a = allowed.mantissa as int;
        let at = pow10(allowed.scale as nat);
        let m = gap.mantissa as int;
        let wide = pow10(high);
        assert(pow10((gs + es) as nat) == wide * base);
        // The gap at the common scale, times the smaller power, is the gap at one
        // denominator.
        let gg = g * pow10(es);
        let ee = e * pow10(gs);
        let big = if gg >= ee {
            gg - ee
        } else {
            ee - gg
        };
        if gs >= es {
            assert(g * 1 == g);
            assert(e * (up * base) == (e * up) * base) by (nonlinear_arith);
            assert(big == m * base) by (nonlinear_arith)
                requires
                    gg == g * base,
                    ee == (e * up) * base,
                    base >= 1,
                    big == (if gg >= ee {
                        gg - ee
                    } else {
                        ee - gg
                    }),
                    m == (if g >= e * up {
                        g - e * up
                    } else {
                        e * up - g
                    }),
            ;
        } else {
            assert(e * 1 == e);
            assert(g * (up * base) == (g * up) * base) by (nonlinear_arith);
            assert(big == m * base) by (nonlinear_arith)
                requires
                    gg == (g * up) * base,
                    ee == e * base,
                    base >= 1,
                    big == (if gg >= ee {
                        gg - ee
                    } else {
                        ee - gg
                    }),
                    m == (if g * up >= e {
                        g * up - e
                    } else {
                        e - g * up
                    }),
            ;
        }
        assert((m * at <= a * wide) == (big * at <= a * (wide * base))) by (nonlinear_arith)
            requires
                big == m * base,
                base >= 1,
        ;
    }
}

/// A blank left empty is wrong, even where the empty text is accepted.
pub proof fn empty_blank_is_wrong(blanks: Seq<Vec<String>>, response: Seq<char>, blank: int)
    requires
        0 <= blank < blanks.len(),
        given_for(response, blank) == Seq::<char>::empty(),
    ensures
        !blank_is_right(blanks, response, blank),
{
}

/// Credit is all exactly when every blank was filled in right.
pub proof fn full_credit_means_every_blank(
    outcome: Outcome,
    blanks: Seq<Vec<String>>,
    response: Seq<char>,
)
    requires
        is_cloze_mark(outcome, blanks, response),
    ensures
        outcome->correct <==> forall|i: int|
            0 <= i < blanks.len() ==> #[trigger] blank_is_right(blanks, response, i),
        outcome->score.hits <= outcome->score.of,
{
    let results = outcome->blanks@;
    hits_bound(results);
    if outcome->correct {
        assert forall|i: int| 0 <= i < blanks.len() implies #[trigger] blank_is_right(
            blanks,
            response,
            i,
        ) by {
            assert(results[i]);
        }
    } else if forall|i: int|
        0 <= i < blanks.len() ==> #[trigger] blank_is_right(blanks, response, i) {
        assert forall|i: int| 0 <= i < results.len() implies #[trigger] results[i] by {
            assert(blank_is_right(blanks, response, i));
        }
    }
}

proof fn hits_bound(results: Seq<bool>)
    ensures
        hits_in(results) <= results.len(),
        hits_in(results) == results.len() <==> forall|i: int|
            0 <= i < results.len() ==> #[trigger] results[i],
    decreases results.len(),
{
    if results.len() > 0 {
        let init = results.drop_last();
        hits_bound(init);
        if hits_in(results) == results.len() {
            assert forall|i: int| 0 <= i < results.len() implies #[trigger] results[i] by {
                if i < init.len() {
                    assert(init[i]);
                }
            }
        }
        if forall|i: int| 0 <= i < results.len() ==> #[trigger] results[i] {
            assert forall|i: int| 0 <= i < init.len() implies #[trigger] init[i] by {
                assert(results[i]);
            }
            assert(results[results.len() - 1]);
        }
    }
}

/// Whether two numbers and a bound can be compared without losing a digit: brought to the
/// larger number of places, each stays within thirty-eight digits or so, and so do their
/// distance and then the bound.
pub open spec fn comparable(given: Decimal, expected: Decimal, bound: int, places: int) -> bool {
    let most = if given.scale >= expected.scale {
        given.scale as int
    } else {
        expected.scale as int
    };
    let g = given.mantissa * pow10((most - given.scale) as nat);
    let e = expected.mantissa * pow10((most - expected.scale) as nat);
    let gap = if g >= e {
        g - e
    } else {
        e - g
    };
    let last = if most >= places {
        most
    } else {
        places
    };
    &&& pow10((most - given.scale) as nat) <= i128::MAX
    &&& pow10((most - expected.scale) as nat) <= i128::MAX
    &&& i128::MIN <= g <= i128::MAX && i128::MIN <= e <= i128::MAX && gap <= i128::MAX
    &&& pow10((last - most) as nat) <= i128::MAX && pow10((last - places) as nat) <= i128::MAX
    &&& gap * pow10((last - most) as nat) <= i128::MAX
    &&& i128::MIN <= bound * pow10((last - places) as nat) <= i128::MAX
}

proof fn everyday_powers()
    ensures
        pow10(2) == 100,
        pow10(9) == 1_000_000_000,
        pow10(18) == 1_000_000_000_000_000_000,
        pow10(18) <= i128::MAX,
{
    reveal_with_fuel(pow10, 20);
}

/// Numbers of everyday size can always be compared.
pub proof fn everyday_numbers_are_comparable(
    given: Decimal,
    expected: Decimal,
    bound: int,
    places: int,
)
    requires
        -1_000_000_000_000_000_000 < given.mantissa < 1_000_000_000_000_000_000,
        -1_000_000_000_000_000_000 < expected.mantissa < 1_000_000_000_000_000_000,
        -1_000_000_000_000_000_000_000_000 < bound < 1_000_000_000_000_000_000_000_000,
        given.scale <= 9,
        expected.scale <= 9,
        0 <= places <= 18,
    ensures
        comparable(given, expected, bound, places),
{
    everyday_powers();
    let most = if given.scale >= expected.scale {
        given.scale as int
    } else {
        expected.scale as int
    };
    let last = if most >= places {
        most
    } else {
        places
    };
    pow10_grows((most - given.scale) as nat, 9);
    pow10_grows((most - expected.scale) as nat, 9);
    let up = pow10((most - given.scale) as nat);
    let down = pow10((most - expected.scale) as nat);
    let g = given.mantissa * up;
    let e = expected.mantissa * down;
    let x = given.mantissa as int;
    let y = expected.mantissa as int;
    assert(-1_000_000_000_000_000_000_000_000_000 < x * up
        < 1_000_000_000_000_000_000_000_000_000) by (nonlinear_arith)
        requires
            -1_000_000_000_000_000_000 < x < 1_000_000_000_000_000_000,
            1 <= up <= 1_000_000_000,
    ;
    assert(-1_000_000_000_000_000_000_000_000_000 < y * down
        < 1_000_000_000_000_000_000_000_000_000) by (nonlinear_arith)
        requires
            -1_000_000_000_000_000_000 < y < 1_000_000_000_000_000_000,
            1 <= down <= 1_000_000_000,
    ;
    let gap = if g >= e {
        g - e
    } else {
        e - g
    };
    // Where the distance is wide it was brought to many places already.
    let left = pow10((last - most) as nat);
    let right = pow10((last - places) as nat);
    pow10_grows((last - places) as nat, 9);
    pow10_adds((most - given.scale) as nat, (last - most) as nat);
    pow10_adds((most - expected.scale) as nat, (last - most) as nat);
    pow10_grows((last - given.scale) as nat, 18);
    pow10_grows((last - expected.scale) as nat, 18);
    pow10_grows(0, (last - most) as nat);
    pow10_grows((last - most) as nat, 18);
    assert(gap * left <= 2_000_000_000_000_000_000 * 1_000_000_000_000_000_000) by (nonlinear_arith)
        requires
            gap == (if x * up >= y * down {
                x * up - y * down
            } else {
                y * down - x * up
            }),
            -1_000_000_000_000_000_000 < x < 1_000_000_000_000_000_000,
            -1_000_000_000_000_000_000 < y < 1_000_000_000_000_000_000,
            1 <= up * left <= 1_000_000_000_000_000_000,
            1 <= down * left <= 1_000_000_000_000_000_000,
            left >= 1,
    ;
    assert(-1_000_000_000_000_000_000_000_000_000_000_000 <= bound * right
        <= 1_000_000_000_000_000_000_000_000_000_000_000) by (nonlinear_arith)
        requires
            -1_000_000_000_000_000_000_000_000 < bound < 1_000_000_000_000_000_000_000_000,
            1 <= right <= 1_000_000_000,
    ;
}

proof fn fits_is_comparable(given: Decimal, expected: Decimal, allowed: Decimal)
    ensures
        within(given, expected, allowed) is Some <==> comparable(
            given,
            expected,
            allowed.mantissa as int,
            allowed.scale as int,
        ),
{
    let most = given.common_scale(expected);
    assert(pow10(0) == 1);
    let g = given.mantissa as int;
    let e = expected.mantissa as int;
    let gm = g * pow10((most - given.scale) as nat);
    let em = e * pow10((most - expected.scale) as nat);
    let gap = if gm >= em {
        gm - em
    } else {
        em - gm
    };
    if let Some(d) = given.distance(expected) {
        assert(d.mantissa == gap && d.scale == most);
        let last = d.common_scale(allowed);
        pow10_grows(0, (last - most) as nat);
        let up = pow10((last - most) as nat);
        assert(gap * up >= 0) by (nonlinear_arith)
            requires
                gap >= 0,
                up >= 1,
        ;
    }
}

/// A numeric answer is judged by exact distance. With an absolute tolerance it is right exactly
/// when it is no further from the expected value than that; with a tolerance of so many percent
/// exactly when a hundred times the distance is no more than that many times the expected
/// value, its sign left out. All of it holds for numbers written to any number of places, each
/// side brought to one denominator. It is judged whenever the numbers can be compared at all,
/// and refused otherwise.
pub proof fn a_numeric_answer_is_judged_by_exact_distance(
    outcome: Outcome,
    expected: Seq<char>,
    tolerance: Tolerance,
    response: Seq<char>,
    e: Decimal,
    g: Decimal,
    t: Decimal,
)
    requires
        is_numeric_mark(outcome, expected, tolerance, response),
        read(expected) == Some(e),
        read(response) == Some(g),
        match tolerance {
            Tolerance::Absolute { value } => read(value@) == Some(t),
            Tolerance::RelativePercent { value } => read(value@) == Some(t),
        },
    ensures
        ({
            let gs = g.scale as nat;
            let es = e.scale as nat;
            let ts = t.scale as nat;
            let a = g.mantissa * pow10(es);
            let b = e.mantissa * pow10(gs);
            let distance = if a >= b {
                a - b
            } else {
                b - a
            };
            let size = if e.mantissa >= 0 {
                e.mantissa as int
            } else {
                -e.mantissa
            };
            &&& tolerance is Absolute ==> (outcome is Decided <==> comparable(
                g,
                e,
                t.mantissa as int,
                t.scale as int,
            ))
            &&& tolerance is Absolute && outcome is Decided ==> (outcome->correct <==> distance
                * pow10(ts) <= t.mantissa * pow10((gs + es) as nat))
            &&& tolerance is RelativePercent ==> (outcome is Decided <==> i128::MIN <= size
                * t.mantissa <= i128::MAX && comparable(
                g,
                e,
                size * t.mantissa,
                e.scale + t.scale + 2,
            ))
            &&& tolerance is RelativePercent && outcome is Decided ==> (outcome->correct <==> 100
                * distance * pow10(ts) <= t.mantissa * size * pow10(gs))
            &&& !(outcome is Decided) ==> outcome is Ungradeable
            &&& outcome is Decided ==> outcome->graded_by == GradedBy::Deterministic
                && outcome->blanks@.len() == 0 && outcome->score.of == 1 && outcome->score.hits == (
            if outcome->correct {
                1int
            } else {
                0int
            })
        }),
{
    read_bound(expected);
    read_bound(response);
    match tolerance {
        Tolerance::Absolute { value } => {
            fits_is_comparable(g, e, t);
            numeric_verdict_is_exact(g, e, t);
        },
        Tolerance::RelativePercent { value } => {
            read_bound(value@);
            thirty_digits_fit();
            if let Some(allowed) = e.share(t) {
                fits_is_comparable(g, e, allowed);
                numeric_verdict_is_exact(g, e, allowed);
                let gs = g.scale as nat;
                let es = e.scale as nat;
                let ts = t.scale as nat;
                let a = g.mantissa * pow10(es);
                let b = e.mantissa * pow10(gs);
                let distance = if a >= b {
                    a - b
                } else {
                    b - a
                };
                let size = e.size();
                pow10_adds(es, ts);
                pow10_adds((es + ts) as nat, 2);
                pow10_adds(gs, es);
                pow10_grows(0, es);
                everyday_powers();
                let pe = pow10(es);
                let pt = pow10(ts);
                let pg = pow10(gs);
                let m = size * t.mantissa;
                let tm = t.mantissa as int;
                assert(pow10(allowed.scale as nat) == pe * pt * 100);
                assert((distance * (pe * pt * 100) <= m * (pg * pe)) == (100 * distance * pt <= tm
                    * size * pg)) by (nonlinear_arith)
                    requires
                        m == size * tm,
                        pe >= 1,
                ;
            }
        },
    }
}

/// A response that is no number is wrong; an expected value that cannot be read, or a
/// tolerance that cannot, is nobody's fault.
pub proof fn only_a_readable_item_holds_a_learner_wrong(
    outcome: Outcome,
    expected: Seq<char>,
    tolerance: Tolerance,
    response: Seq<char>,
)
    requires
        is_numeric_mark(outcome, expected, tolerance, response),
    ensures
        read(expected) is None ==> outcome is Ungradeable,
        read(expected) is Some && read(response) is None ==> outcome is Decided
            && !outcome->correct,
        read(expected) is Some && read(response) is Some && (match tolerance {
            Tolerance::Absolute { value } => read(value@) is None,
            Tolerance::RelativePercent { value } => read(value@) is None,
        }) ==> outcome is Ungradeable,
        read(expected) is None ==> outcome->reason@
            == "this item's expected value could not be read"@,
        read(expected) is Some && read(response) is Some && (match tolerance {
            Tolerance::Absolute { value } => read(value@) is None,
            Tolerance::RelativePercent { value } => read(value@) is None,
        }) ==> outcome->reason@ == "this item's tolerance could not be read"@,
        read(expected) is Some && outcome is Ungradeable ==> outcome->reason@
            == "this item's tolerance could not be read"@ || outcome->reason@
            == "the answer has too many digits to compare"@,
{
}

/// What each kind of item is marked by: the choice, one of the accepted texts, each blank, or
/// the rubric; nothing where the key cannot be read or grades another kind.
pub proof fn a_mark_compares_what_was_asked(
    outcome: Outcome,
    kind: ItemKind,
    key: AnswerKey,
    response: Seq<char>,
)
    requires
        is_mark(outcome, kind, key, response),
    ensures
        key is Malformed ==> outcome is Ungradeable && outcome->reason@
            == "this item's stored answer could not be read"@,
        key is Mcq && kind != ItemKind::Mcq ==> outcome is Ungradeable,
        key is Exact && kind != ItemKind::Exact ==> outcome is Ungradeable,
        key is Cloze && kind != ItemKind::Cloze ==> outcome is Ungradeable,
        key is Numeric && kind != ItemKind::Numeric ==> outcome is Ungradeable,
        key is Free && kind != ItemKind::Free ==> outcome is Ungradeable,
        kind == ItemKind::Mcq ==> (key matches AnswerKey::Mcq { choice_id } ==> outcome is Decided
            && (outcome->correct <==> folded(response) == folded(choice_id@))),
        kind == ItemKind::Exact ==> (key matches AnswerKey::Exact { text, alternatives }
            ==> outcome is Decided && (outcome->correct <==> folded(response) == folded(text@)
            || exists|i: int|
            0 <= i < alternatives@.len() && folded((#[trigger] alternatives@[i])@) == folded(
                response,
            ))),
        kind == ItemKind::Free ==> (key matches AnswerKey::Free { rubric } ==> (
        outcome matches Outcome::NeedsRubric { rubric: shown } && shown@ == rubric@)),
        kind == ItemKind::Numeric ==> (key matches AnswerKey::Numeric { expected, tolerance }
            ==> is_numeric_mark(outcome, expected@, tolerance, response)),
        kind == ItemKind::Cloze ==> (key matches AnswerKey::Cloze { blanks } ==> (blanks@.len() == 0
            ==> outcome is Ungradeable) && (blanks@.len() > 0 ==> is_cloze_mark(
            outcome,
            blanks@,
            response,
        ))),
        outcome is Decided ==> outcome->graded_by == GradedBy::Deterministic,
        outcome is Decided && !(key is Cloze) ==> outcome->blanks@.len() == 0 && outcome->score.of
            == 1 && outcome->score.hits == (if outcome->correct {
            1int
        } else {
            0int
        }),
{
}

proof fn hits_are_filtered(results: Seq<bool>)
    ensures
        hits_in(results) == results.filter(|hit: bool| hit).len(),
    decreases results.len(),
{
    reveal(Seq::filter);
    if results.len() > 0 {
        hits_are_filtered(results.drop_last());
    }
}

/// A cloze item is marked blank by blank: the piece of the response between two bars, in its
/// turn, is right where it says something and is one of the texts accepted for that blank.
/// The credit is the number that are right out of all of them, and the answer is correct
/// where all are.
pub proof fn a_cloze_item_is_marked_blank_by_blank(
    outcome: Outcome,
    blanks: Seq<Vec<String>>,
    response: Seq<char>,
)
    requires
        is_cloze_mark(outcome, blanks, response),
    ensures
        outcome is Decided,
        outcome->blanks@.len() == blanks.len(),
        outcome->score.of == blanks.len(),
        outcome->score.hits == outcome->blanks@.filter(|hit: bool| hit).len(),
        outcome->correct <==> forall|i: int|
            0 <= i < blanks.len() ==> #[trigger] outcome->blanks@[i],
        forall|i: int|
            0 <= i < blanks.len() && i < pieces(response, '|').len() ==> (#[trigger] outcome->blanks@[i]
                <==> folded(pieces(response, '|')[i]).len() > 0 && exists|k: int|
                0 <= k < blanks[i]@.len() && folded((#[trigger] blanks[i]@[k])@) == folded(
                    pieces(response, '|')[i],
                )),
        forall|i: int|
            pieces(response, '|').len() <= i < blanks.len() ==> !#[trigger] outcome->blanks@[i],
{
    hits_are_filtered(outcome->blanks@);
    hits_bound(outcome->blanks@);
}

/// Text is compared word by word: white space parts words and is otherwise ignored, words are
/// compared in lower case, and where there is no word there is nothing.
pub proof fn folding_goes_word_by_word(a: Seq<char>, white: char, b: Seq<char>)
    requires
        is_white(white),
    ensures
        words(a).len() > 0 && words(b).len() > 0 ==> folded(a + seq![white] + b) == folded(a) + seq![
            ' ',
        ] + folded(b),
        words(b).len() == 0 ==> folded(a + seq![white] + b) == folded(a),
        words(a).len() == 0 ==> folded(a + seq![white] + b) == folded(b),
        a.len() > 0 && (forall|i: int| 0 <= i < a.len() ==> !is_white(#[trigger] a[i])) ==> folded(a)
            == lowercase(a),
        words(a).len() == 0 ==> folded(a).len() == 0,
{
    white_space_parts_words(a, white, b);
    let f = |w: Seq<char>| lowercase(w);
    let x = words(a).map_values(f);
    let y = words(b).map_values(f);
    assert((words(a) + words(b)).map_values(f) =~= x + y);
    if words(a).len() > 0 && words(b).len() > 0 {
        joining_puts_the_separator_between(x, y, seq![' ']);
    } else if words(b).len() == 0 {
        assert(x + y =~= x);
    } else {
        assert(x + y =~= y);
    }
    if a.len() > 0 && (forall|i: int| 0 <= i < a.len() ==> !is_white(#[trigger] a[i])) {
        assert(words(a) == seq![a]);
        assert(x =~= seq![lowercase(a)]);
    }
}

} // verus!
