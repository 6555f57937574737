//! What a request may ask for: which parts are required, what the rest defaults to, and
//! how far it reaches.

use crate::config::{maybe_string, maybe_text};
use crate::error::ApiError;
use crate::models::{CandidateStatus, SkillStatus};
use crate::store::{DEFAULT_LIMIT, MAX_LIMIT};
use crate::text::{trim, trimmed};
use vstd::prelude::*;
use vstd::string::*;

verus! {

/// The paths that are served, under the mount.
pub fn served_routes() -> (routes: Vec<&'static str>)
    ensures
        routes@.len() == 24,
        routes@ =~= seq![
            "/subjects",
            "/subjects/:id",
            "/sources",
            "/sources/:id",
            "/skills",
            "/skills/:id",
            "/skills/:id/prereqs",
            "/items",
            "/items/generate",
            "/items/:id",
            "/sessions",
            "/sessions/plan",
            "/sessions/:id",
            "/sessions/:id/next",
            "/sessions/:id/answer",
            "/sessions/:id/finish",
            "/attempts",
            "/mastery",
            "/due",
            "/trajectory",
            "/candidates",
            "/candidates/:id/accept",
            "/candidates/:id/reject",
            "/settings",
        ],
{
    vec![
        "/subjects",
        "/subjects/:id",
        "/sources",
        "/sources/:id",
        "/skills",
        "/skills/:id",
        "/skills/:id/prereqs",
        "/items",
        "/items/generate",
        "/items/:id",
        "/sessions",
        "/sessions/plan",
        "/sessions/:id",
        "/sessions/:id/next",
        "/sessions/:id/answer",
        "/sessions/:id/finish",
        "/attempts",
        "/mastery",
        "/due",
        "/trajectory",
        "/candidates",
        "/candidates/:id/accept",
        "/candidates/:id/reject",
        "/settings",
    ]
}

/// A stated number, or a default, cut off to a range.
pub open spec fn within_or(stated: Option<i64>, fallback: i64, low: i64, high: i64) -> i64 {
    let n = match stated {
        Some(n) => n,
        None => fallback,
    };
    if n < low {
        low
    } else if n > high {
        high
    } else {
        n
    }
}

/// A stated number, or a default, cut off to a range.
pub fn stated_within(stated: Option<i64>, fallback: i64, low: i64, high: i64) -> (n: i64)
    ensures
        n == within_or(stated, fallback, low, high),
        low <= high ==> low <= n <= high,
        stated matches Some(given) ==> (low <= given <= high ==> n == given) && (given < low ==> n
            == low) && (given > high && low <= high ==> n == high),
        stated is None && low <= fallback <= high ==> n == fallback,
{
    let n: i64 = match stated {
        Some(n) => n,
        None => fallback,
    };
    if n < low {
        low
    } else if n > high {
        high
    } else {
        n
    }
}

/// What a list of one subject is asked with.
#[derive(Clone, Debug)]
pub struct SubjectQuery {
    pub subject_id: Option<String>,
    pub limit: Option<i64>,
}

impl SubjectQuery {
    /// How many rows are asked for: at least one, and never more than the ceiling.
    pub fn limit(&self) -> (rows: i64)
        ensures
            rows == within_or(self.limit, DEFAULT_LIMIT, 1, MAX_LIMIT),
            1 <= rows <= MAX_LIMIT,
            self.limit is None ==> rows == 200,
            self.limit matches Some(n) ==> (1 <= n <= 500 ==> rows == n) && (n < 1 ==> rows == 1)
                && (n > 500 ==> rows == 500),
    {
        stated_within(self.limit, DEFAULT_LIMIT, 1, MAX_LIMIT)
    }

    /// The subject asked for. A request without one is refused rather than answered with
    /// an empty list.
    pub fn subject(&self) -> (subject: Result<&str, ApiError>)
        ensures
            match subject {
                Ok(id) => maybe_string(self.subject_id) == Some(id@) && id@.len() > 0,
                Err(e) => (self.subject_id is None || self.subject_id->0@.len() == 0) && (
                e matches ApiError::BadRequest(why) && why@ == "subject_id is required"@),
            },
    {
        required(&self.subject_id, "subject_id is required")
    }
}

/// A text that has to be there, and not be empty.
pub fn required<'a>(text: &'a Option<String>, why: &str) -> (found: Result<&'a str, ApiError>)
    ensures
        match found {
            Ok(id) => maybe_string(*text) == Some(id@) && id@.len() > 0,
            Err(e) => (text is None || text->0@.len() == 0) && (e matches ApiError::BadRequest(m)
                && m@ == why@),
        },
{
    match text {
        Some(id) => if id.as_str().is_empty() {
            Err(ApiError::bad_request(why))
        } else {
            Ok(id.as_str())
        },
        None => Err(ApiError::bad_request(why)),
    }
}

/// What a list of one skill is asked with.
#[derive(Clone, Debug)]
pub struct SkillQuery {
    pub skill_id: Option<String>,
    pub include_archived: Option<bool>,
    pub limit: Option<i64>,
}

impl SkillQuery {
    /// How many rows are asked for: at least one, and never more than the ceiling.
    pub fn limit(&self) -> (rows: i64)
        ensures
            rows == within_or(self.limit, DEFAULT_LIMIT, 1, MAX_LIMIT),
            1 <= rows <= MAX_LIMIT,
            self.limit is None ==> rows == 200,
            self.limit matches Some(n) ==> (1 <= n <= 500 ==> rows == n) && (n < 1 ==> rows == 1)
                && (n > 500 ==> rows == 500),
    {
        stated_within(self.limit, DEFAULT_LIMIT, 1, MAX_LIMIT)
    }

    /// Whether archived items are asked for too.
    pub fn archived(&self) -> (yes: bool)
        ensures
            yes == (self.include_archived == Some(true)),
    {
        match self.include_archived {
            Some(yes) => yes,
            None => false,
        }
    }

    /// The skill asked for.
    pub fn skill(&self) -> (skill: Result<&str, ApiError>)
        ensures
            match skill {
                Ok(id) => maybe_string(self.skill_id) == Some(id@) && id@.len() > 0,
                Err(e) => (self.skill_id is None || self.skill_id->0@.len() == 0) && (
                e matches ApiError::BadRequest(why) && why@ == "skill_id is required"@),
            },
    {
        required(&self.skill_id, "skill_id is required")
    }
}

/// Turns "did anything change" into an answer: nothing changed because nothing is there.
pub fn require_hit(changed: bool, what: &str) -> (answer: Result<(), ApiError>)
    ensures
        changed ==> answer is Ok,
        !changed ==> (answer matches Err(ApiError::NotFound(m)) && m@ == what@),
{
    if changed {
        Ok(())
    } else {
        Err(ApiError::not_found(what))
    }
}

/// Turns a decision on a candidate into an answer: one that does not exist is not found,
/// one that was decided before cannot be decided again.
pub fn require_decision(status: Option<CandidateStatus>) -> (answer: Result<(), ApiError>)
    ensures
        match status {
            None => answer matches Err(ApiError::NotFound(what)) && what@ == "candidate"@,
            Some(s) => if s == CandidateStatus::Pending {
                answer is Ok
            } else {
                answer matches Err(ApiError::Conflict(why)) && why@
                    == "this candidate was already decided"@
            },
        },
{
    match status {
        None => Err(ApiError::not_found("candidate")),
        Some(s) => if s == CandidateStatus::Pending {
            Ok(())
        } else {
            Err(ApiError::conflict("this candidate was already decided"))
        },
    }
}

/// The status that a skill is created with: what was stated, or `Active` where nothing
/// was. A person who types a skill has accepted it already.
pub open spec fn created_status(stated: Option<Seq<char>>) -> SkillStatus {
    match stated {
        Some(raw) => if trimmed(raw).len() > 0 {
            SkillStatus::of_label(raw)
        } else {
            SkillStatus::Active
        },
        None => SkillStatus::Active,
    }
}

/// The status that a skill is created with.
pub fn default_status(stated: Option<&str>) -> (status: SkillStatus)
    ensures
        status == created_status(maybe_text(stated)),
        stated is None ==> status == SkillStatus::Active,
        stated matches Some(raw) ==> (trimmed(raw@).len() == 0 ==> status == SkillStatus::Active)
            && (trimmed(raw@).len() > 0 ==> status == SkillStatus::of_label(raw@)),
{
    match stated {
        Some(raw) => {
            let kept: String = trim(raw);
            if kept.as_str().is_empty() {
                SkillStatus::Active
            } else {
                SkillStatus::parse(raw)
            }
        },
        None => SkillStatus::Active,
    }
}

/// A text that has to hold more than white space.
pub fn not_blank(text: &str, why: &str) -> (checked: Result<(), ApiError>)
    ensures
        trimmed(text@).len() > 0 ==> checked is Ok,
        trimmed(text@).len() == 0 ==> (checked matches Err(ApiError::BadRequest(m)) && m@ == why@),
{
    let kept: String = trim(text);
    if kept.as_str().is_empty() {
        Err(ApiError::bad_request(why))
    } else {
        Ok(())
    }
}

/// The minutes of a sitting: fifteen where none are stated, from one to four hours'
/// worth.
pub fn session_minutes(stated: Option<u32>) -> (minutes: u32)
    ensures
        minutes == (match stated {
            Some(n) => if n < 1 {
                1
            } else if n > 240 {
                240
            } else {
                n
            },
            None => 15,
        }),
{
    match stated {
        Some(n) => if n < 1 {
            1
        } else if n > 240 {
            240
        } else {
            n
        },
        None => 15,
    }
}

/// How many items are to be generated: five where nothing is stated, from one to twenty.
pub fn generation_count(stated: Option<u32>) -> (count: u32)
    ensures
        count == (match stated {
            Some(n) => if n < 1 {
                1
            } else if n > 20 {
                20
            } else {
                n
            },
            None => 5,
        }),
{
    match stated {
        Some(n) => if n < 1 {
            1
        } else if n > 20 {
            20
        } else {
            n
        },
        None => 5,
    }
}

} // verus!
