//! The domain types: what is stored, what is sent, and the word each closed set of
//! values is stored as.
//!
//! Ids are text with a typed prefix. Timestamps are epoch milliseconds. A value that
//! fails to parse degrades to a fixed, safe member of its set rather than failing the
//! whole read; the one exception is an answer key, which becomes
//! `AnswerKey::Malformed` and can neither be graded nor written back.

use crate::double::{clamp01, Double};
use crate::error::ApiError;
use crate::text::same_text;
use vstd::prelude::*;
use vstd::string::*;

verus! {

/// Prefix of a subject's id.
pub const ID_SUBJECT: &'static str = "sub_";

/// Prefix of a source's id.
pub const ID_SOURCE: &'static str = "src_";

/// Prefix of a skill's id.
pub const ID_SKILL: &'static str = "skl_";

/// Prefix of an item's id.
pub const ID_ITEM: &'static str = "itm_";

/// Prefix of an attempt's id.
pub const ID_ATTEMPT: &'static str = "att_";

/// Prefix of a session's id.
pub const ID_SESSION: &'static str = "ses_";

/// Prefix of a review candidate's id.
pub const ID_CANDIDATE: &'static str = "cnd_";

/// The IANA zone a subject falls back to when its own is unset or unknown.
pub const DEFAULT_TIMEZONE: &'static str = "UTC";

/// Default `p_init`: the bit pattern of 0.20.
pub const DEFAULT_P_INIT: u64 = 0x3fc9_9999_9999_999a;

/// Default `p_transit`: the bit pattern of 0.15.
pub const DEFAULT_P_TRANSIT: u64 = 0x3fc3_3333_3333_3333;

/// Default `p_slip`: the bit pattern of 0.10.
pub const DEFAULT_P_SLIP: u64 = 0x3fb9_9999_9999_999a;

/// Default `p_guess`: the bit pattern of 0.20.
pub const DEFAULT_P_GUESS: u64 = 0x3fc9_9999_9999_999a;

/// The ease of a skill that was never reviewed: the bit pattern of 2.5.
pub const DEFAULT_EASE: u64 = 0x4004_0000_0000_0000;

/// The floor of the ease: the bit pattern of 1.3. Below it intervals collapse and the
/// skill reappears every single day.
pub const MIN_EASE: u64 = 0x3ff4_cccc_cccc_cccd;

/// The payload version of a candidate envelope.
pub const CANDIDATE_ENVELOPE_VERSION: i64 = 1;

/// One body of material being learned: a course, a paper, a chapter.
#[derive(Clone, Debug)]
pub struct Subject {
    pub id: String,
    pub name: String,
    /// Free text shown under the name.
    pub detail: Option<String>,
    /// `YYYY-MM-DD`, or `None` for no exam.
    pub exam_date: Option<String>,
    /// IANA zone the day boundaries of this subject's schedule are measured in.
    pub timezone: String,
    pub created_at: i64,
    pub updated_at: i64,
}

/// Where a source document came from. It decides which ingest path runs, and is shown
/// as provenance next to every item generated from it.
#[derive(Clone, Copy, Debug, PartialEq, Eq, Hash, Structural)]
pub enum SourceKind {
    /// A file on this node, read through a document parser.
    File,
    /// A URL fetched and then parsed.
    Url,
    /// Text pasted in; no parser involved.
    Text,
}

impl SourceKind {
    /// The word this value is stored and sent as.
    pub open spec fn label(self) -> Seq<char> {
        match self {
            Self::File => "file"@,
            Self::Url => "url"@,
            Self::Text => "text"@,
        }
    }

    /// The value a stored word stands for.
    pub open spec fn of_label(raw: Seq<char>) -> Self {
        if raw == "file"@ {
            Self::File
        } else if raw == "url"@ {
            Self::Url
        } else {
            Self::Text
        }
    }

    /// The word this value is stored and sent as.
    pub fn as_str(self) -> (word: &'static str)
        ensures
            word@ == self.label(),
    {
        match self {
            Self::File => "file",
            Self::Url => "url",
            Self::Text => "text",
        }
    }

    /// Unknown values degrade to `Text`, the kind that needs no parser, so a corrupt row
    /// still renders its stored text.
    pub fn parse(raw: &str) -> (value: Self)
        ensures
            value == Self::of_label(raw@),
            raw@ == value.label() || value == Self::Text,
    {
        if same_text(raw, "file") {
            Self::File
        } else if same_text(raw, "url") {
            Self::Url
        } else {
            Self::Text
        }
    }

    /// Reading back the word a value is stored as gives the value.
    pub proof fn label_round_trip(self)
        ensures
            Self::of_label(self.label()) == self,
    {
        reveal_strlit("file");
        reveal_strlit("url");
        reveal_strlit("text");
        assert("file"@.len() != "url"@.len());
        assert("file"@[0] != "text"@[0]);
        assert("url"@.len() != "text"@.len());
    }
}

/// A document the subject's skills and items were derived from. The parsed text is
/// stored, so that a locator into it never moves.
#[derive(Clone, Debug)]
pub struct Source {
    pub id: String,
    pub subject_id: String,
    pub kind: SourceKind,
    pub title: String,
    /// Path or URL. `None` for pasted text.
    pub uri: Option<String>,
    pub parsed_text: String,
    /// What parsed the text, or `None` when no parser was needed.
    pub parser: Option<String>,
    pub created_at: i64,
}

/// The four Bayesian Knowledge Tracing parameters, all meant to lie in `[0,1]`.
#[derive(Clone, Copy, Debug, PartialEq, Eq, Structural)]
pub struct BktParams {
    /// P(already knew it before any practice).
    pub p_init: Double,
    /// P(learn it on an attempt, given not known).
    pub p_transit: Double,
    /// P(get it wrong although known).
    pub p_slip: Double,
    /// P(get it right although not known).
    pub p_guess: Double,
}

impl Default for BktParams {
    fn default() -> (params: Self)
        ensures
            params == (BktParams {
                p_init: Double { bits: DEFAULT_P_INIT },
                p_transit: Double { bits: DEFAULT_P_TRANSIT },
                p_slip: Double { bits: DEFAULT_P_SLIP },
                p_guess: Double { bits: DEFAULT_P_GUESS },
            }),
    {
        BktParams {
            p_init: Double { bits: DEFAULT_P_INIT },
            p_transit: Double { bits: DEFAULT_P_TRANSIT },
            p_slip: Double { bits: DEFAULT_P_SLIP },
            p_guess: Double { bits: DEFAULT_P_GUESS },
        }
    }
}

impl BktParams {
    /// Every parameter cut off to `[0,1]`.
    pub open spec fn in_unit(self) -> BktParams {
        BktParams {
            p_init: self.p_init.share(),
            p_transit: self.p_transit.share(),
            p_slip: self.p_slip.share(),
            p_guess: self.p_guess.share(),
        }
    }

    /// Whether every parameter is a number in `[0,1]`.
    pub open spec fn well_formed(self) -> bool {
        self.p_init.is_share() && self.p_transit.is_share() && self.p_slip.is_share()
            && self.p_guess.is_share()
    }

    /// Clamp every parameter into `[0,1]`, so that a hand-edited row cannot produce a
    /// posterior that leaves the unit interval.
    pub fn clamped(self) -> (params: Self)
        ensures
            params == self.in_unit(),
            params.well_formed(),
            params.p_init == self.p_init.share(),
            params.p_transit == self.p_transit.share(),
            params.p_slip == self.p_slip.share(),
            params.p_guess == self.p_guess.share(),
    {
        BktParams {
            p_init: clamp01(self.p_init),
            p_transit: clamp01(self.p_transit),
            p_slip: clamp01(self.p_slip),
            p_guess: clamp01(self.p_guess),
        }
    }

    /// Clamping twice is clamping once.
    pub proof fn clamping_is_idempotent(self)
        ensures
            self.in_unit().in_unit() == self.in_unit(),
            self.well_formed() ==> self.in_unit() == self,
    {
    }
}

/// Whether a skill is part of the deck yet.
///
/// What a model proposes lands as `Proposed` and stays invisible to scheduling until a
/// person promotes it.
#[derive(Clone, Copy, Debug, PartialEq, Eq, Hash, Structural)]
pub enum SkillStatus {
    Proposed,
    Active,
    Archived,
}

impl SkillStatus {
    /// The word this value is stored and sent as.
    pub open spec fn label(self) -> Seq<char> {
        match self {
            Self::Proposed => "proposed"@,
            Self::Active => "active"@,
            Self::Archived => "archived"@,
        }
    }

    /// The value a stored word stands for.
    pub open spec fn of_label(raw: Seq<char>) -> Self {
        if raw == "active"@ {
            Self::Active
        } else if raw == "archived"@ {
            Self::Archived
        } else {
            Self::Proposed
        }
    }

    /// The word this value is stored and sent as.
    pub fn as_str(self) -> (word: &'static str)
        ensures
            word@ == self.label(),
    {
        match self {
            Self::Proposed => "proposed",
            Self::Active => "active",
            Self::Archived => "archived",
        }
    }

    /// Unknown values degrade to `Proposed`: the state that is neither scheduled nor
    /// graded.
    pub fn parse(raw: &str) -> (value: Self)
        ensures
            value == Self::of_label(raw@),
            raw@ == value.label() || value == Self::Proposed,
    {
        if same_text(raw, "active") {
            Self::Active
        } else if same_text(raw, "archived") {
            Self::Archived
        } else {
            Self::Proposed
        }
    }

    /// Reading back the word a value is stored as gives the value.
    pub proof fn label_round_trip(self)
        ensures
            Self::of_label(self.label()) == self,
    {
        reveal_strlit("proposed");
        reveal_strlit("active");
        reveal_strlit("archived");
        assert("proposed"@.len() != "active"@.len());
        assert("proposed"@[0] != "archived"@[0]);
        assert("active"@.len() != "archived"@.len());
    }
}

/// One learnable thing, carrying both halves of its state: what the learner knows and
/// when it is next owed.
#[derive(Clone, Debug)]
pub struct Skill {
    pub id: String,
    pub subject_id: String,
    pub name: String,
    pub detail: Option<String>,
    pub status: SkillStatus,
    /// The source this skill was proposed from, when it came from ingest.
    pub source_id: Option<String>,
    pub params: BktParams,
    /// The running posterior `P(known)`, seeded to `params.p_init`.
    pub mastery: Double,
    pub ease: Double,
    pub interval_days: u32,
    pub reps: u32,
    pub lapses: u32,
    /// A day boundary in the subject's timezone. `None` until the skill has been
    /// reviewed once.
    pub due_at: Option<i64>,
    pub last_reviewed_at: Option<i64>,
    pub created_at: i64,
    pub updated_at: i64,
}

/// A prerequisite edge: `prereq_id` must be mastered before `skill_id` is ready.
#[derive(Clone, Debug)]
pub struct PrereqEdge {
    pub skill_id: String,
    pub prereq_id: String,
}

/// The five item kinds. The first four are graded by comparison with no model in the
/// loop; only `Free` reaches one, and it shows the rubric it was graded against.
#[derive(Clone, Copy, Debug, PartialEq, Eq, Hash, Structural)]
pub enum ItemKind {
    Mcq,
    Cloze,
    Numeric,
    Exact,
    Free,
}

impl ItemKind {
    /// The word this value is stored and sent as.
    pub open spec fn label(self) -> Seq<char> {
        match self {
            Self::Mcq => "mcq"@,
            Self::Cloze => "cloze"@,
            Self::Numeric => "numeric"@,
            Self::Exact => "exact"@,
            Self::Free => "free"@,
        }
    }

    /// The value a stored word stands for.
    pub open spec fn of_label(raw: Seq<char>) -> Self {
        if raw == "mcq"@ {
            Self::Mcq
        } else if raw == "cloze"@ {
            Self::Cloze
        } else if raw == "numeric"@ {
            Self::Numeric
        } else if raw == "exact"@ {
            Self::Exact
        } else {
            Self::Free
        }
    }

    /// The word this value is stored and sent as.
    pub fn as_str(self) -> (word: &'static str)
        ensures
            word@ == self.label(),
    {
        match self {
            Self::Mcq => "mcq",
            Self::Cloze => "cloze",
            Self::Numeric => "numeric",
            Self::Exact => "exact",
            Self::Free => "free",
        }
    }

    /// Unknown values degrade to `Free`, the kind that is never graded automatically.
    pub fn parse(raw: &str) -> (value: Self)
        ensures
            value == Self::of_label(raw@),
            raw@ == value.label() || value == Self::Free,
    {
        if same_text(raw, "mcq") {
            Self::Mcq
        } else if same_text(raw, "cloze") {
            Self::Cloze
        } else if same_text(raw, "numeric") {
            Self::Numeric
        } else if same_text(raw, "exact") {
            Self::Exact
        } else {
            Self::Free
        }
    }

    /// Whether grading this kind is pure comparison.
    pub open spec fn objective(self) -> bool {
        self != ItemKind::Free
    }

    /// Whether grading this kind is pure comparison.
    pub fn is_objective(self) -> (yes: bool)
        ensures
            yes == self.objective(),
            yes <==> self == ItemKind::Mcq || self == ItemKind::Cloze || self == ItemKind::Numeric || self
                == ItemKind::Exact,
    {
        !matches!(self, Self::Free)
    }

    /// Reading back the word a value is stored as gives the value.
    pub proof fn label_round_trip(self)
        ensures
            Self::of_label(self.label()) == self,
    {
        reveal_strlit("mcq");
        reveal_strlit("cloze");
        reveal_strlit("numeric");
        reveal_strlit("exact");
        reveal_strlit("free");
        assert("mcq"@.len() != "cloze"@.len());
        assert("mcq"@.len() != "numeric"@.len());
        assert("mcq"@.len() != "exact"@.len());
        assert("mcq"@.len() != "free"@.len());
        assert("cloze"@.len() != "numeric"@.len());
        assert("cloze"@[0] != "exact"@[0]);
        assert("cloze"@.len() != "free"@.len());
        assert("numeric"@.len() != "exact"@.len());
        assert("numeric"@.len() != "free"@.len());
        assert("exact"@.len() != "free"@.len());
    }
}

/// One selectable answer of a multiple-choice item. The `id` is what an attempt
/// records, so re-wording a choice never invalidates stored attempts.
#[derive(Clone, Debug)]
pub struct Choice {
    pub id: String,
    pub text: String,
}

/// How far off a numeric answer may be and still count. Both bounds are decimal text.
#[derive(Clone, Debug)]
pub enum Tolerance {
    /// `|given - expected| <= value`.
    Absolute { value: String },
    /// `|given - expected| <= |expected| * value / 100`.
    RelativePercent { value: String },
}

/// The gradeable half of an item.
#[derive(Clone, Debug)]
pub enum AnswerKey {
    Mcq { choice_id: String },
    /// One entry per blank, each holding the accepted alternatives for that blank.
    Cloze { blanks: Vec<Vec<String>> },
    /// `expected` is decimal text, read exactly at grade time.
    Numeric { expected: String, tolerance: Tolerance },
    Exact { text: String, alternatives: Vec<String> },
    /// The only kind a model grades.
    Free { rubric: String },
    /// A stored answer that could not be decoded. It is never graded and never written.
    Malformed { raw: String },
}

impl AnswerKey {
    /// The item kind this key grades, if it grades one.
    pub open spec fn grades(&self) -> Option<ItemKind> {
        match self {
            Self::Mcq { .. } => Some(ItemKind::Mcq),
            Self::Cloze { .. } => Some(ItemKind::Cloze),
            Self::Numeric { .. } => Some(ItemKind::Numeric),
            Self::Exact { .. } => Some(ItemKind::Exact),
            Self::Free { .. } => Some(ItemKind::Free),
            Self::Malformed { .. } => None,
        }
    }

    /// The item kind this key grades. `None` only for a key that could not be read.
    pub fn kind(&self) -> (kind: Option<ItemKind>)
        ensures
            kind == self.grades(),
            kind is None <==> self is Malformed,
            kind == Some(ItemKind::Mcq) <==> self is Mcq,
            kind == Some(ItemKind::Cloze) <==> self is Cloze,
            kind == Some(ItemKind::Numeric) <==> self is Numeric,
            kind == Some(ItemKind::Exact) <==> self is Exact,
            kind == Some(ItemKind::Free) <==> self is Free,
    {
        match self {
            Self::Mcq { .. } => Some(ItemKind::Mcq),
            Self::Cloze { .. } => Some(ItemKind::Cloze),
            Self::Numeric { .. } => Some(ItemKind::Numeric),
            Self::Exact { .. } => Some(ItemKind::Exact),
            Self::Free { .. } => Some(ItemKind::Free),
            Self::Malformed { .. } => None,
        }
    }
}

impl AnswerKey {
    /// What a stored key is read as: what it decoded to, or else the text itself, kept as a
    /// key that cannot be read.
    pub open spec fn is_decoded(&self, raw: Seq<char>, parsed: Option<AnswerKey>) -> bool {
        match parsed {
            Some(key) => *self == key,
            None => self matches AnswerKey::Malformed { raw: kept } && kept@ == raw,
        }
    }

    /// What a stored key is read as, `parsed` being what its text decoded to. One that did
    /// not decode is kept as it is, so that it can still be recovered.
    pub fn decoded(raw: &str, parsed: Option<AnswerKey>) -> (key: AnswerKey)
        ensures
            key.is_decoded(raw@, parsed),
    {
        match parsed {
            Some(key) => key,
            None => AnswerKey::Malformed { raw: raw.to_owned() },
        }
    }

    /// Whether a key may be written: not one that could not be read, or the shell of it
    /// would overwrite what can still be recovered.
    pub fn check_writable(&self) -> (checked: Result<(), ApiError>)
        ensures
            checked is Ok <==> self.grades() is Some,
            checked matches Err(e) ==> (e matches ApiError::BadRequest(why) && why@
                == "an item's answer key is unreadable and cannot be rewritten"@),
    {
        match self.kind() {
            Some(_) => Ok(()),
            None => Err(
                ApiError::bad_request("an item's answer key is unreadable and cannot be rewritten"),
            ),
        }
    }

    /// A key grades no kind exactly where it could not be read, and a key that is read back
    /// from what was written grades the kind that it did. `parsed` is what the written text
    /// decodes to.
    pub proof fn a_key_that_reads_back_keeps_its_kind(
        self,
        raw: Seq<char>,
        parsed: Option<AnswerKey>,
        read: AnswerKey,
    )
        requires
            read.is_decoded(raw, parsed),
        ensures
            self.grades() is None <==> self is Malformed,
            parsed == Some(self) ==> read.grades() == self.grades(),
            parsed is None ==> read.grades() is None,
    {
    }
}

/// Who wrote an item. Shown next to it.
#[derive(Clone, Copy, Debug, PartialEq, Eq, Hash, Structural)]
pub enum ItemOrigin {
    /// Generated from source material by a model.
    Model,
    /// Written by the learner.
    Human,
    /// Promoted from a review candidate.
    Candidate,
}

impl ItemOrigin {
    /// The word this value is stored and sent as.
    pub open spec fn label(self) -> Seq<char> {
        match self {
            Self::Model => "model"@,
            Self::Human => "human"@,
            Self::Candidate => "candidate"@,
        }
    }

    /// The value a stored word stands for.
    pub open spec fn of_label(raw: Seq<char>) -> Self {
        if raw == "human"@ {
            Self::Human
        } else if raw == "candidate"@ {
            Self::Candidate
        } else {
            Self::Model
        }
    }

    /// The word this value is stored and sent as.
    pub fn as_str(self) -> (word: &'static str)
        ensures
            word@ == self.label(),
    {
        match self {
            Self::Model => "model",
            Self::Human => "human",
            Self::Candidate => "candidate",
        }
    }

    /// Unknown values degrade to `Model`.
    pub fn parse(raw: &str) -> (value: Self)
        ensures
            value == Self::of_label(raw@),
            raw@ == value.label() || value == Self::Model,
    {
        if same_text(raw, "human") {
            Self::Human
        } else if same_text(raw, "candidate") {
            Self::Candidate
        } else {
            Self::Model
        }
    }

    /// Reading back the word a value is stored as gives the value.
    pub proof fn label_round_trip(self)
        ensures
            Self::of_label(self.label()) == self,
    {
        reveal_strlit("model");
        reveal_strlit("human");
        reveal_strlit("candidate");
        assert("model"@[0] != "human"@[0]);
        assert("model"@.len() != "candidate"@.len());
        assert("human"@.len() != "candidate"@.len());
    }
}

/// A practice item. Stored, versioned and reusable.
#[derive(Clone, Debug)]
pub struct Item {
    pub id: String,
    /// Copied from the skill when the item is made, and never edited.
    pub subject_id: String,
    pub skill_id: String,
    pub kind: ItemKind,
    pub prompt: String,
    /// Only populated for `ItemKind::Mcq`.
    pub choices: Vec<Choice>,
    pub answer: AnswerKey,
    pub origin: ItemOrigin,
    /// The model that generated it, when `origin` is `Model`.
    pub origin_model: Option<String>,
    pub source_id: Option<String>,
    /// A quotation or locator into the source.
    pub source_ref: Option<String>,
    /// Bumped on every edit. Attempts record the version they were graded under.
    pub version: i64,
    pub archived: bool,
    pub created_at: i64,
    pub updated_at: i64,
}

/// What decided a grade.
#[derive(Clone, Copy, Debug, PartialEq, Eq, Hash, Structural)]
pub enum GradedBy {
    /// Pure comparison. No model was consulted.
    Deterministic,
    /// Marked by a model against the item's written rubric.
    Rubric,
}

impl GradedBy {
    /// The word this value is stored and sent as.
    pub open spec fn label(self) -> Seq<char> {
        match self {
            Self::Deterministic => "deterministic"@,
            Self::Rubric => "rubric"@,
        }
    }

    /// The value a stored word stands for.
    pub open spec fn of_label(raw: Seq<char>) -> Self {
        if raw == "deterministic"@ {
            Self::Deterministic
        } else {
            Self::Rubric
        }
    }

    /// The word this value is stored and sent as.
    pub fn as_str(self) -> (word: &'static str)
        ensures
            word@ == self.label(),
    {
        match self {
            Self::Deterministic => "deterministic",
            Self::Rubric => "rubric",
        }
    }

    /// Unknown values degrade to `Rubric`, the weaker claim.
    pub fn parse(raw: &str) -> (value: Self)
        ensures
            value == Self::of_label(raw@),
            raw@ == value.label() || value == Self::Rubric,
    {
        if same_text(raw, "deterministic") {
            Self::Deterministic
        } else {
            Self::Rubric
        }
    }

    /// Reading back the word a value is stored as gives the value.
    pub proof fn label_round_trip(self)
        ensures
            Self::of_label(self.label()) == self,
    {
        reveal_strlit("deterministic");
        reveal_strlit("rubric");
        assert("deterministic"@.len() != "rubric"@.len());
    }
}

/// One graded (or awaiting-grade) answer.
///
/// `correct` is `None` while a free-response answer is still awaiting its mark; until
/// then the posterior does not move.
#[derive(Clone, Debug)]
pub struct Attempt {
    pub id: String,
    pub subject_id: String,
    pub skill_id: String,
    pub item_id: String,
    pub session_id: Option<String>,
    /// The item version this was graded against.
    pub item_version: i64,
    pub response: String,
    pub correct: Option<bool>,
    /// Partial credit in `[0,1]` where the kind supports it: cloze blanks, or a mark against
    /// a rubric. `None` for a grade that is pass or fail.
    pub score: Option<Double>,
    pub graded_by: Option<GradedBy>,
    /// The mark's reasoning, shown with the grade.
    pub feedback: Option<String>,
    pub latency_ms: Option<i64>,
    pub mastery_before: Double,
    pub mastery_after: Double,
    /// `false` when the posterior was left unchanged because the model had nothing to
    /// condition on.
    pub informative: bool,
    pub at: i64,
}

/// Where a sitting stands.
#[derive(Clone, Copy, Debug, PartialEq, Eq, Hash, Structural)]
pub enum SessionStatus {
    /// Planned but not started. The plan is stored before the first question is shown.
    Planned,
    Active,
    Finished,
    Abandoned,
}

impl SessionStatus {
    /// The word this value is stored and sent as.
    pub open spec fn label(self) -> Seq<char> {
        match self {
            Self::Planned => "planned"@,
            Self::Active => "active"@,
            Self::Finished => "finished"@,
            Self::Abandoned => "abandoned"@,
        }
    }

    /// The value a stored word stands for.
    pub open spec fn of_label(raw: Seq<char>) -> Self {
        if raw == "active"@ {
            Self::Active
        } else if raw == "finished"@ {
            Self::Finished
        } else if raw == "abandoned"@ {
            Self::Abandoned
        } else {
            Self::Planned
        }
    }

    /// The word this value is stored and sent as.
    pub fn as_str(self) -> (word: &'static str)
        ensures
            word@ == self.label(),
    {
        match self {
            Self::Planned => "planned",
            Self::Active => "active",
            Self::Finished => "finished",
            Self::Abandoned => "abandoned",
        }
    }

    /// Unknown values degrade to `Planned`.
    pub fn parse(raw: &str) -> (value: Self)
        ensures
            value == Self::of_label(raw@),
            raw@ == value.label() || value == Self::Planned,
    {
        if same_text(raw, "active") {
            Self::Active
        } else if same_text(raw, "finished") {
            Self::Finished
        } else if same_text(raw, "abandoned") {
            Self::Abandoned
        } else {
            Self::Planned
        }
    }

    /// Reading back the word a value is stored as gives the value.
    pub proof fn label_round_trip(self)
        ensures
            Self::of_label(self.label()) == self,
    {
        reveal_strlit("planned");
        reveal_strlit("active");
        reveal_strlit("finished");
        reveal_strlit("abandoned");
        assert("planned"@.len() != "active"@.len());
        assert("planned"@.len() != "finished"@.len());
        assert("planned"@.len() != "abandoned"@.len());
        assert("active"@.len() != "finished"@.len());
        assert("active"@.len() != "abandoned"@.len());
        assert("finished"@.len() != "abandoned"@.len());
    }
}

/// One planned study sitting.
#[derive(Clone, Debug)]
pub struct Session {
    pub id: String,
    pub subject_id: String,
    /// The budget the planner filled.
    pub planned_minutes: u32,
    pub status: SessionStatus,
    /// Sum of `mastery_after - mastery_before` over the informative attempts, written
    /// when the sitting is closed.
    pub mastery_gain: Option<Double>,
    pub summary: Option<String>,
    pub created_at: i64,
    pub started_at: Option<i64>,
    pub finished_at: Option<i64>,
}

/// One item on a session's plan, in the order the planner chose.
#[derive(Clone, Debug)]
pub struct SessionItem {
    pub session_id: String,
    pub position: u32,
    pub item_id: String,
    pub skill_id: String,
    pub est_cost_ms: i64,
    pub est_gain: Double,
    /// Set when the item is answered. `None` means still pending.
    pub attempt_id: Option<String>,
}

/// What a person decided about a review candidate.
#[derive(Clone, Copy, Debug, PartialEq, Eq, Hash, Structural)]
pub enum CandidateStatus {
    Pending,
    Accepted,
    Rejected,
}

impl CandidateStatus {
    /// The word this value is stored and sent as.
    pub open spec fn label(self) -> Seq<char> {
        match self {
            Self::Pending => "pending"@,
            Self::Accepted => "accepted"@,
            Self::Rejected => "rejected"@,
        }
    }

    /// The value a stored word stands for.
    pub open spec fn of_label(raw: Seq<char>) -> Self {
        if raw == "accepted"@ {
            Self::Accepted
        } else if raw == "rejected"@ {
            Self::Rejected
        } else {
            Self::Pending
        }
    }

    /// The word this value is stored and sent as.
    pub fn as_str(self) -> (word: &'static str)
        ensures
            word@ == self.label(),
    {
        match self {
            Self::Pending => "pending",
            Self::Accepted => "accepted",
            Self::Rejected => "rejected",
        }
    }

    /// Unknown values degrade to `Pending`.
    pub fn parse(raw: &str) -> (value: Self)
        ensures
            value == Self::of_label(raw@),
            raw@ == value.label() || value == Self::Pending,
    {
        if same_text(raw, "accepted") {
            Self::Accepted
        } else if same_text(raw, "rejected") {
            Self::Rejected
        } else {
            Self::Pending
        }
    }

    /// Reading back the word a value is stored as gives the value.
    pub proof fn label_round_trip(self)
        ensures
            Self::of_label(self.label()) == self,
    {
        reveal_strlit("pending");
        reveal_strlit("accepted");
        reveal_strlit("rejected");
        assert("pending"@.len() != "accepted"@.len());
        assert("pending"@.len() != "rejected"@.len());
        assert("accepted"@[0] != "rejected"@[0]);
    }
}

/// A fact a chat turn taught, waiting on a person. Never accepted automatically.
///
/// `source_key` and `source_index` say where the fact was delivered from; the pair is
/// unique, which makes a repeated delivery a no-op.
#[derive(Clone, Debug)]
pub struct ReviewCandidate {
    pub id: String,
    pub subject_id: String,
    pub conversation_id: Option<String>,
    pub agent_id: Option<String>,
    pub prompt: String,
    pub answer: String,
    /// The topic label. Acceptance matches it against existing skill names.
    pub skill_label: Option<String>,
    pub status: CandidateStatus,
    pub source_key: String,
    pub source_index: i64,
    /// The item acceptance created, once decided.
    pub item_id: Option<String>,
    pub created_at: i64,
    pub decided_at: Option<i64>,
}

/// One candidate as it arrives, before it has an id.
#[derive(Clone, Debug)]
pub struct NewCandidate {
    pub prompt: String,
    pub answer: String,
    pub skill: Option<String>,
}

/// A delivery of candidates from one conversation turn.
#[derive(Clone, Debug)]
pub struct CandidateEnvelope {
    /// The payload version.
    pub v: i64,
    pub subject_id: String,
    pub conversation_id: Option<String>,
    pub agent_id: Option<String>,
    pub created_at: Option<String>,
    pub candidates: Vec<NewCandidate>,
}

/// The payload version of an envelope that names none.
pub fn one() -> (version: i64)
    ensures
        version == 1,
        version == CANDIDATE_ENVELOPE_VERSION,
{
    1
}

/// The knobs of the deterministic spine.
#[derive(Clone, Copy, Debug, PartialEq, Eq, Structural)]
pub struct TuitionSettings {
    /// The posterior at which a prerequisite counts as mastered.
    pub ready_threshold: Double,
    /// The posterior the "how many more correct" projection aims at.
    pub target_mastery: Double,
    /// Cap on items from one skill in a single session.
    pub per_skill_item_cap: u32,
    /// The cost of an item kind that was never answered, in seconds.
    pub default_item_seconds: u32,
    /// Sessions the learner expects to do per day.
    pub sessions_per_day: Double,
    /// How far over the available sessions the projection may run before the goal is
    /// at risk: 1.15 is an overrun of 15%.
    pub at_risk_overrun: Double,
    /// Trailing sessions the observed learning rate is averaged over.
    pub trajectory_window: u32,
    /// Below this many finished sessions nothing is projected.
    pub trajectory_min_sessions: u32,
}

impl TuitionSettings {
    /// The settings of a node nobody has configured.
    pub open spec fn initial() -> TuitionSettings {
        TuitionSettings {
            ready_threshold: Double { bits: 0x3fe9_9999_9999_999a },
            target_mastery: Double { bits: 0x3fec_cccc_cccc_cccd },
            per_skill_item_cap: 5,
            default_item_seconds: 60,
            sessions_per_day: Double { bits: 0x3ff0_0000_0000_0000 },
            at_risk_overrun: Double { bits: 0x3ff2_6666_6666_6666 },
            trajectory_window: 10,
            trajectory_min_sessions: 3,
        }
    }
}

impl Default for TuitionSettings {
    fn default() -> (settings: Self)
        ensures
            settings == TuitionSettings::initial(),
    {
        TuitionSettings {
            ready_threshold: Double { bits: 0x3fe9_9999_9999_999a },
            target_mastery: Double { bits: 0x3fec_cccc_cccc_cccd },
            per_skill_item_cap: 5,
            default_item_seconds: 60,
            sessions_per_day: Double { bits: 0x3ff0_0000_0000_0000 },
            at_risk_overrun: Double { bits: 0x3ff2_6666_6666_6666 },
            trajectory_window: 10,
            trajectory_min_sessions: 3,
        }
    }
}

/// A practice item as it arrives from generation or from a person.
#[derive(Clone, Debug)]
pub struct NewItem {
    pub skill_id: String,
    pub kind: ItemKind,
    pub prompt: String,
    pub choices: Vec<Choice>,
    pub answer: AnswerKey,
    pub origin: ItemOrigin,
    pub origin_model: Option<String>,
    pub source_id: Option<String>,
    pub source_ref: Option<String>,
}

/// An item posted with no stated origin came from a person typing it.
pub fn default_origin() -> (origin: ItemOrigin)
    ensures
        origin == ItemOrigin::Human,
{
    ItemOrigin::Human
}

/// A graded (or awaiting-grade) answer as it arrives, before it has an id.
#[derive(Clone, Debug)]
pub struct NewAttempt {
    pub skill_id: String,
    pub item_id: String,
    pub session_id: Option<String>,
    pub response: String,
    pub correct: Option<bool>,
    pub score: Option<Double>,
    pub graded_by: Option<GradedBy>,
    pub feedback: Option<String>,
    pub latency_ms: Option<i64>,
    pub mastery_before: Double,
    pub mastery_after: Double,
    pub informative: bool,
}

/// One line of a session plan, in the order the planner chose.
#[derive(Clone, Debug)]
pub struct PlannedItem {
    pub item_id: String,
    pub skill_id: String,
    pub est_cost_ms: i64,
    pub est_gain: Double,
}

/// What the health probe reports.
#[derive(Clone, Copy, Debug, PartialEq, Eq, Structural)]
pub struct StoreCounts {
    pub subjects: i64,
    pub skills: i64,
    pub items: i64,
    pub attempts: i64,
    pub pending_candidates: i64,
}

} // verus!
