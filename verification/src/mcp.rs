//! The tools that agents call: what they are named, what they take, and how a call is
//! read.
//!
//! Tool names are registered bare; whoever hosts the server puts its own name in front.

use crate::config::maybe_string;
use crate::json::{
    boolean_at, boolean_under, held, integer_at, integer_under, json_member, json_text, json_value,
    member,
    member_at, parse_json, text_at, text_under, under, unsigned_at, unsigned_under,
};
use crate::text::{same_text, trim, trimmed};
use vstd::prelude::*;
use vstd::string::*;

verus! {

/// The protocol version this server speaks.
pub const PROTOCOL_VERSION: &'static str = "2024-11-05";

/// The code of an answer to an unknown method.
pub const METHOD_NOT_FOUND: i64 = -32601;

/// Minutes that a quiz is planned for where none are stated.
pub const DEFAULT_QUIZ_MINUTES: u32 = 10;

/// What an argument holds.
#[derive(Clone, Copy, Debug, PartialEq, Eq, Structural)]
pub enum ArgKind {
    Text,
    Integer,
    Boolean,
}

/// One argument of a tool.
#[derive(Clone, Copy, Debug)]
pub struct ToolArg {
    pub name: &'static str,
    pub kind: ArgKind,
    /// Empty where the name says enough.
    pub description: &'static str,
    pub required: bool,
}

/// One tool, described for a model that chooses between them.
#[derive(Clone, Debug)]
pub struct Tool {
    pub name: &'static str,
    pub description: &'static str,
    pub args: Vec<ToolArg>,
}

/// The names of the tools, in the order in which they are listed.
pub open spec fn tool_names() -> Seq<&'static str> {
    seq!["due", "quiz", "grade", "log", "mastery"]
}

/// What a model is told of the tool `due`.
pub const DUE_DESCRIPTION: &'static str = "List the skills whose spaced-repetition review is due now for a subject, weakest first. Read-only: it records nothing and does not start a session. Use this to answer 'what should I study' before serving any questions.";

/// What a model is told of the tool `quiz`.
pub const QUIZ_DESCRIPTION: &'static str = "Plan a study session for a time budget and return the questions to ask, in order, with their choices. Picks the items with the best expected mastery gain per minute and caps how many come from any one skill. Returns the questions ONLY — it does not grade them; pass each answer to `grade`.";

/// What a model is told of the tool `grade`.
pub const GRADE_DESCRIPTION: &'static str = "Grade one answer and fold it into the learner's mastery estimate. Multiple choice, cloze, numeric and exact-match answers are decided by comparison with NO model involved; only free-response answers are marked by a model, against the item's written rubric, which is returned with the mark. Returns the verdict, the mastery before and after, and whether the answer moved the estimate at all.";

/// What a model is told of the tool `log`.
pub const LOG_DESCRIPTION: &'static str = "Record that a skill was practised outside the app — a past paper, a lesson, a conversation — without grading a specific stored item. Moves the mastery estimate the same way a graded attempt would. Use this when you taught something and want it to count.";

/// What a model is told of the tool `mastery`.
pub const MASTERY_DESCRIPTION: &'static str = "The mastery report for a subject: the posterior probability the learner knows each skill, how many more correct answers would reach their target, and — when the subject has an exam date and at least three finished sessions — whether they are on track. Reports 'unknown' rather than guessing below that. Read-only.";

/// An argument of a tool.
pub open spec fn arg_of(
    name: &'static str,
    kind: ArgKind,
    description: &'static str,
    required: bool,
) -> ToolArg {
    ToolArg { name, kind, description, required }
}

fn arg(name: &'static str, kind: ArgKind, description: &'static str, required: bool) -> (out: ToolArg)
    ensures
        out == arg_of(name, kind, description, required),
        out.name == name && out.kind == kind && out.description == description && out.required
            == required,
{
    ToolArg { name, kind, description, required }
}

/// The tool table.
pub fn tools() -> (table: Vec<Tool>)
    ensures
        table@.map_values(|tool: Tool| tool.name) =~= tool_names(),
        table@.map_values(|tool: Tool| tool.description) =~= seq![
            DUE_DESCRIPTION,
            QUIZ_DESCRIPTION,
            GRADE_DESCRIPTION,
            LOG_DESCRIPTION,
            MASTERY_DESCRIPTION,
        ],
        table@[0].args@ =~= seq![
            arg_of(
                "subject_id",
                ArgKind::Text,
                "The subject to look at. Omit to cover every subject.",
                false,
            ),
            arg_of("limit", ArgKind::Integer, "Maximum skills to return (default 20).", false),
        ],
        table@[1].args@ =~= seq![
            arg_of("subject_id", ArgKind::Text, "", true),
            arg_of("minutes", ArgKind::Integer, "Time budget in minutes (default 10).", false),
        ],
        table@[2].args@ =~= seq![
            arg_of("item_id", ArgKind::Text, "", true),
            arg_of(
                "response",
                ArgKind::Text,
                "The learner's answer. For a cloze item, separate the blanks with '|'.",
                true,
            ),
            arg_of(
                "session_id",
                ArgKind::Text,
                "Attach the attempt to a session, if one is open.",
                false,
            ),
        ],
        table@[3].args@ =~= seq![
            arg_of("skill_id", ArgKind::Text, "", true),
            arg_of("correct", ArgKind::Boolean, "Whether the learner got it right.", true),
            arg_of("note", ArgKind::Text, "What was practised, for the history.", false),
        ],
        table@[4].args@ =~= seq![
            arg_of("subject_id", ArgKind::Text, "", true),
        ],
{
    let due: Tool = Tool {
        name: "due",
        description: DUE_DESCRIPTION,
        args: vec![
            arg(
                "subject_id",
                ArgKind::Text,
                "The subject to look at. Omit to cover every subject.",
                false,
            ),
            arg("limit", ArgKind::Integer, "Maximum skills to return (default 20).", false),
        ],
    };
    let quiz: Tool = Tool {
        name: "quiz",
        description: QUIZ_DESCRIPTION,
        args: vec![
            arg("subject_id", ArgKind::Text, "", true),
            arg("minutes", ArgKind::Integer, "Time budget in minutes (default 10).", false),
        ],
    };
    let grade: Tool = Tool {
        name: "grade",
        description: GRADE_DESCRIPTION,
        args: vec![
            arg("item_id", ArgKind::Text, "", true),
            arg(
                "response",
                ArgKind::Text,
                "The learner's answer. For a cloze item, separate the blanks with '|'.",
                true,
            ),
            arg(
                "session_id",
                ArgKind::Text,
                "Attach the attempt to a session, if one is open.",
                false,
            ),
        ],
    };
    let log: Tool = Tool {
        name: "log",
        description: LOG_DESCRIPTION,
        args: vec![
            arg("skill_id", ArgKind::Text, "", true),
            arg("correct", ArgKind::Boolean, "Whether the learner got it right.", true),
            arg("note", ArgKind::Text, "What was practised, for the history.", false),
        ],
    };
    let mastery: Tool = Tool {
        name: "mastery",
        description: MASTERY_DESCRIPTION,
        args: vec![arg("subject_id", ArgKind::Text, "", true)],
    };
    vec![due, quiz, grade, log, mastery]
}

/// The arguments of a call, each where it was given and holds what it should.
#[derive(Clone, Debug)]
pub struct CallArgs {
    pub subject_id: Option<String>,
    pub limit: Option<i64>,
    pub minutes: Option<u64>,
    pub item_id: Option<String>,
    pub response: Option<String>,
    pub session_id: Option<String>,
    pub skill_id: Option<String>,
    pub correct: Option<bool>,
    pub note: Option<String>,
}

/// Whether arguments are those that a JSON value holds, each under its own key.
pub open spec fn is_args(args: CallArgs, arguments: Option<serde_json::Value>) -> bool {
    &&& maybe_string(args.subject_id) == text_under(arguments, "subject_id"@)
    &&& args.limit == integer_under(arguments, "limit"@)
    &&& args.minutes == unsigned_under(arguments, "minutes"@)
    &&& maybe_string(args.item_id) == text_under(arguments, "item_id"@)
    &&& maybe_string(args.response) == text_under(arguments, "response"@)
    &&& maybe_string(args.session_id) == text_under(arguments, "session_id"@)
    &&& maybe_string(args.skill_id) == text_under(arguments, "skill_id"@)
    &&& args.correct == boolean_under(arguments, "correct"@)
    &&& maybe_string(args.note) == text_under(arguments, "note"@)
}

/// The arguments that a JSON value holds. What is not there, or is of another kind, counts
/// as not given.
pub fn read_args(arguments: Option<&serde_json::Value>) -> (args: CallArgs)
    ensures
        is_args(args, held(arguments)),
{
    CallArgs {
        subject_id: text_at(arguments, "subject_id"),
        limit: integer_at(arguments, "limit"),
        minutes: unsigned_at(arguments, "minutes"),
        item_id: text_at(arguments, "item_id"),
        response: text_at(arguments, "response"),
        session_id: text_at(arguments, "session_id"),
        skill_id: text_at(arguments, "skill_id"),
        correct: boolean_at(arguments, "correct"),
        note: text_at(arguments, "note"),
    }
}

/// A call that can be carried out.
#[derive(Clone, Debug)]
pub enum ToolCall {
    Due { subject_id: Option<String>, limit: i64 },
    Quiz { subject_id: String, minutes: u32 },
    Grade { item_id: String, response: String, session_id: Option<String> },
    Log { skill_id: String, correct: bool, note: Option<String> },
    Mastery { subject_id: String },
}

/// A text that is not empty.
pub open spec fn given_text(text: Option<String>) -> Option<String> {
    match text {
        Some(t) => if t@.len() > 0 {
            Some(t)
        } else {
            None
        },
        None => None,
    }
}

fn given(text: Option<String>) -> (kept: Option<String>)
    ensures
        kept == given_text(text),
{
    match text {
        Some(t) => if t.as_str().is_empty() {
            None
        } else {
            Some(t)
        },
        None => None,
    }
}

/// How many skills a call asks for: twenty where nothing is stated, from one to two
/// hundred.
pub open spec fn due_limit(stated: Option<i64>) -> i64 {
    match stated {
        Some(n) => if n < 1 {
            1
        } else if n > 200 {
            200
        } else {
            n
        },
        None => 20,
    }
}

/// How many minutes a quiz is planned for.
pub open spec fn quiz_minutes(stated: Option<u64>) -> u32 {
    match stated {
        Some(n) => if n < 1 {
            1
        } else if n > 240 {
            240
        } else {
            n as u32
        },
        None => DEFAULT_QUIZ_MINUTES,
    }
}

/// Whether a call is refused for the given reason.
pub open spec fn refused(call: Result<ToolCall, String>, why: Seq<char>) -> bool {
    call matches Err(text) && text@ == why
}

/// Whether a call is the one that a tool's name and its arguments ask for. A missing
/// argument, or a tool that does not exist, is named.
pub open spec fn is_call(call: Result<ToolCall, String>, name: Seq<char>, args: CallArgs) -> bool {
    if name == "due"@ {
        call == Ok::<ToolCall, String>(
            ToolCall::Due {
                subject_id: given_text(args.subject_id),
                limit: due_limit(args.limit),
            },
        )
    } else if name == "quiz"@ {
        match given_text(args.subject_id) {
            Some(subject_id) => call == Ok::<ToolCall, String>(
                ToolCall::Quiz { subject_id, minutes: quiz_minutes(args.minutes) },
            ),
            None => refused(call, "subject_id is required"@),
        }
    } else if name == "grade"@ {
        match (args.item_id, args.response) {
            (Some(item_id), Some(response)) => call == Ok::<ToolCall, String>(
                ToolCall::Grade { item_id, response, session_id: args.session_id },
            ),
            (None, _) => refused(call, "item_id is required"@),
            (Some(_), None) => refused(call, "response is required"@),
        }
    } else if name == "log"@ {
        match (args.skill_id, args.correct) {
            (Some(skill_id), Some(correct)) => call == Ok::<ToolCall, String>(
                ToolCall::Log { skill_id, correct, note: args.note },
            ),
            (None, _) => refused(call, "skill_id is required"@),
            (Some(_), None) => refused(call, "correct is required"@),
        }
    } else if name == "mastery"@ {
        match given_text(args.subject_id) {
            Some(subject_id) => call == Ok::<ToolCall, String>(ToolCall::Mastery { subject_id }),
            None => refused(call, "subject_id is required"@),
        }
    } else {
        refused(call, "unknown tool '"@ + name + "'"@)
    }
}

/// The call that a tool's name and its arguments ask for.
pub fn read_call(name: &str, args: CallArgs) -> (call: Result<ToolCall, String>)
    ensures
        is_call(call, name@, args),
{
    proof {
        names_differ();
    }
    if same_text(name, "due") {
        let limit: i64 = match args.limit {
            Some(n) => if n < 1 {
                1
            } else if n > 200 {
                200
            } else {
                n
            },
            None => 20,
        };
        return Ok(ToolCall::Due { subject_id: given(args.subject_id), limit });
    }
    if same_text(name, "quiz") {
        let minutes: u32 = match args.minutes {
            Some(n) => if n < 1 {
                1
            } else if n > 240 {
                240
            } else {
                n as u32
            },
            None => DEFAULT_QUIZ_MINUTES,
        };
        return match given(args.subject_id) {
            Some(subject_id) => Ok(ToolCall::Quiz { subject_id, minutes }),
            None => Err("subject_id is required".to_owned()),
        };
    }
    if same_text(name, "grade") {
        return match (args.item_id, args.response) {
            (Some(item_id), Some(response)) => Ok(
                ToolCall::Grade { item_id, response, session_id: args.session_id },
            ),
            (None, _) => Err("item_id is required".to_owned()),
            (Some(_), None) => Err("response is required".to_owned()),
        };
    }
    if same_text(name, "log") {
        return match (args.skill_id, args.correct) {
            (Some(skill_id), Some(correct)) => Ok(
                ToolCall::Log { skill_id, correct, note: args.note },
            ),
            (None, _) => Err("skill_id is required".to_owned()),
            (Some(_), None) => Err("correct is required".to_owned()),
        };
    }
    if same_text(name, "mastery") {
        return match given(args.subject_id) {
            Some(subject_id) => Ok(ToolCall::Mastery { subject_id }),
            None => Err("subject_id is required".to_owned()),
        };
    }
    let mut why: String = "unknown tool '".to_owned();
    why.append(name);
    why.append("'");
    Err(why)
}

/// No two tools share a name.
pub proof fn names_differ()
    ensures
        "due"@ != "quiz"@,
        "due"@ != "grade"@,
        "due"@ != "log"@,
        "due"@ != "mastery"@,
        "quiz"@ != "grade"@,
        "quiz"@ != "log"@,
        "quiz"@ != "mastery"@,
        "grade"@ != "log"@,
        "grade"@ != "mastery"@,
        "log"@ != "mastery"@,
{
    reveal_strlit("due");
    reveal_strlit("quiz");
    reveal_strlit("grade");
    reveal_strlit("log");
    reveal_strlit("mastery");
    assert("due"@.len() == 3 && "log"@.len() == 3 && "quiz"@.len() == 4 && "grade"@.len() == 5
        && "mastery"@.len() == 7);
    assert("due"@[0] != "log"@[0]);
}

/// A line of the protocol.
#[derive(Debug)]
pub enum Message {
    /// Nothing on the line, or nothing that could be parsed.
    Noise,
    /// A message without an id, which expects no answer.
    Notification,
    /// A message with an id. Its method is empty where it names none.
    Request { id: serde_json::Value, method: String, params: Option<serde_json::Value> },
}

/// A text that may be there, or else the empty one.
pub open spec fn or_empty(text: Option<Seq<char>>) -> Seq<char> {
    match text {
        Some(t) => t,
        None => seq![],
    }
}

fn or_blank(text: Option<String>) -> (kept: String)
    ensures
        kept@ == or_empty(maybe_string(text)),
{
    match text {
        Some(t) => t,
        None => {
            let blank: String = String::new();
            assert(blank@ =~= seq![]);
            blank
        },
    }
}

/// Whether a message is what a line holds, the white space around it left out.
pub open spec fn is_message(message: Message, line: Seq<char>) -> bool {
    if trimmed(line).len() == 0 {
        message is Noise
    } else {
        match json_value(trimmed(line)) {
            None => message is Noise,
            Some(value) => match json_member(value, "id"@) {
                None => message is Notification,
                Some(id) => message matches Message::Request { id: i, method, params } && i == id
                    && method@ == or_empty(text_under(Some(value), "method"@)) && params
                    == json_member(value, "params"@),
            },
        }
    }
}

/// Reads a line of the protocol. A line that is no JSON is noise: without an id there is
/// nothing to answer, and a guessed one would answer another message.
pub fn read_message(line: &str) -> (message: Message)
    ensures
        is_message(message, line@),
{
    let kept: String = trim(line);
    if kept.as_str().is_empty() {
        return Message::Noise;
    }
    match parse_json(kept.as_str()) {
        None => Message::Noise,
        Some(value) => match member(&value, "id") {
            None => Message::Notification,
            Some(id) => {
                let method: String = or_blank(text_at(Some(&value), "method"));
                let params: Option<serde_json::Value> = member(&value, "params");
                Message::Request { id, method, params }
            },
        },
    }
}

/// What a message is answered with.
#[derive(Debug)]
pub enum Reply {
    /// Nothing: without an id there is nothing to answer.
    Silence,
    Initialized { id: serde_json::Value },
    Pong { id: serde_json::Value },
    ToolList { id: serde_json::Value },
    /// What comes of a call. One that cannot be carried out is a result that says so, not
    /// an error of the protocol: whoever called has to read it.
    CallTool { id: serde_json::Value, call: Result<ToolCall, String> },
    /// An error of the protocol, with its message.
    UnknownMethod { id: serde_json::Value, why: String },
}

/// Whether a call is the one that the parameters of a message ask for.
pub open spec fn is_requested(
    call: Result<ToolCall, String>,
    params: Option<serde_json::Value>,
) -> bool {
    exists|args: CallArgs| #[trigger]
        is_args(args, under(params, "arguments"@)) && is_call(
            call,
            or_empty(text_under(params, "name"@)),
            args,
        )
}

/// The call that the parameters of a message ask for.
pub fn requested_call(params: Option<&serde_json::Value>) -> (call: Result<ToolCall, String>)
    ensures
        is_requested(call, held(params)),
{
    let name: String = or_blank(text_at(params, "name"));
    let arguments: Option<serde_json::Value> = member_at(params, "arguments");
    let args: CallArgs = read_args(arguments.as_ref());
    let ghost taken = args;
    let call: Result<ToolCall, String> = read_call(name.as_str(), args);
    assert(is_args(taken, under(held(params), "arguments"@)));
    call
}

/// Whether a reply is the one that a message is answered with, under the same id.
pub open spec fn is_reply(reply: Reply, message: Message) -> bool {
    match message {
        Message::Noise => reply is Silence,
        Message::Notification => reply is Silence,
        Message::Request { id, method, params } => if method@ == "initialize"@ {
            reply == (Reply::Initialized { id })
        } else if method@ == "ping"@ {
            reply == (Reply::Pong { id })
        } else if method@ == "tools/list"@ {
            reply == (Reply::ToolList { id })
        } else if method@ == "tools/call"@ {
            reply matches Reply::CallTool { id: i, call } && i == id && is_requested(call, params)
        } else {
            reply matches Reply::UnknownMethod { id: i, why } && i == id && why@
                == "unknown method '"@ + method@ + "'"@
        },
    }
}

/// What a message is answered with.
pub fn reply_to(message: Message) -> (reply: Reply)
    ensures
        is_reply(reply, message),
{
    match message {
        Message::Noise => Reply::Silence,
        Message::Notification => Reply::Silence,
        Message::Request { id, method, params } => {
            if same_text(method.as_str(), "initialize") {
                Reply::Initialized { id }
            } else if same_text(method.as_str(), "ping") {
                Reply::Pong { id }
            } else if same_text(method.as_str(), "tools/list") {
                Reply::ToolList { id }
            } else if same_text(method.as_str(), "tools/call") {
                Reply::CallTool { id, call: requested_call(params.as_ref()) }
            } else {
                let mut why: String = "unknown method '".to_owned();
                why.append(method.as_str());
                why.append("'");
                Reply::UnknownMethod { id, why }
            }
        },
    }
}

/// Every message with an id is answered under that id, and no other line is answered.
pub proof fn requests_alone_are_answered(line: Seq<char>, message: Message, reply: Reply)
    requires
        is_message(message, line),
        is_reply(reply, message),
    ensures
        reply is Silence <==> !(message is Request),
        reply matches Reply::CallTool { id, .. } ==> json_value(trimmed(line)) matches Some(value)
            && json_member(value, "id"@) == Some(id),
{
}

/// What each tool is called with: what it requires has to be there, an empty subject counts as
/// none, and numbers are kept within bounds.
pub proof fn a_call_has_what_its_tool_requires(
    call: Result<ToolCall, String>,
    name: Seq<char>,
    args: CallArgs,
)
    requires
        is_call(call, name, args),
    ensures
        name == "due"@ ==> (call matches Ok(ToolCall::Due { subject_id, limit }) && (args.limit is None
            ==> limit == 20) && (args.limit matches Some(n) ==> (1 <= n <= 200 ==> limit == n) && (n
            < 1 ==> limit == 1) && (n > 200 ==> limit == 200)) && (subject_id is Some
            <==> args.subject_id is Some && args.subject_id->0@.len() > 0) && (subject_id is Some
            ==> subject_id == args.subject_id)),
        name == "quiz"@ ==> (call is Ok <==> args.subject_id is Some && args.subject_id->0@.len()
            > 0),
        name == "quiz"@ && call is Ok ==> (call matches Ok(ToolCall::Quiz { subject_id, minutes })
            && Some(subject_id) == args.subject_id && (args.minutes is None ==> minutes == 10) && (
        args.minutes matches Some(n) ==> (1 <= n <= 240 ==> minutes == n) && (n < 1 ==> minutes == 1)
            && (n > 240 ==> minutes == 240))),
        name == "grade"@ ==> (call is Ok <==> args.item_id is Some && args.response is Some),
        name == "grade"@ && call is Ok ==> (call matches Ok(
            ToolCall::Grade { item_id, response, session_id },
        ) && Some(item_id) == args.item_id && Some(response) == args.response && session_id
            == args.session_id),
        name == "log"@ ==> (call is Ok <==> args.skill_id is Some && args.correct is Some),
        name == "log"@ && call is Ok ==> (call matches Ok(ToolCall::Log { skill_id, correct, note })
            && Some(skill_id) == args.skill_id && Some(correct) == args.correct && note
            == args.note),
        name == "mastery"@ ==> (call is Ok <==> args.subject_id is Some && args.subject_id->0@.len()
            > 0),
        name == "mastery"@ && call is Ok ==> (call matches Ok(ToolCall::Mastery { subject_id })
            && Some(subject_id) == args.subject_id),
        call is Ok ==> name == "due"@ || name == "quiz"@ || name == "grade"@ || name == "log"@ || name
            == "mastery"@,
{
    names_differ();
}

/// What a line says: nothing where it is blank or no JSON, a notification where it has no id,
/// and otherwise a request under that id, with the method that it names and its parameters.
pub proof fn a_line_says_what_its_json_does(message: Message, line: Seq<char>)
    requires
        is_message(message, line),
    ensures
        message is Noise <==> trimmed(line).len() == 0 || json_value(trimmed(line)) is None,
        json_value(trimmed(line)) matches Some(value) ==> trimmed(line).len() > 0 ==> (
        message is Request <==> json_member(value, "id"@) is Some),
        message matches Message::Request { id, method, params } ==> {
            let value = json_value(trimmed(line))->0;
            &&& json_member(value, "id"@) == Some(id)
            &&& json_member(value, "params"@) == params
            &&& json_member(value, "method"@) matches Some(named) ==> (json_text(named) matches Some(
                text,
            ) ==> method@ == text)
            &&& json_member(value, "method"@) is None ==> method@.len() == 0
        },
{
}

/// What a request is answered with goes by its method alone, under its own id.
pub proof fn a_request_is_answered_by_its_method(
    reply: Reply,
    id: serde_json::Value,
    method: String,
    params: Option<serde_json::Value>,
)
    requires
        is_reply(reply, Message::Request { id, method, params }),
    ensures
        reply is Initialized <==> method@ == "initialize"@,
        reply is Pong <==> method@ == "ping"@,
        reply is ToolList <==> method@ == "tools/list"@,
        reply is CallTool <==> method@ == "tools/call"@,
        !(reply is Silence),
        reply matches Reply::Initialized { id: i } ==> i == id,
        reply matches Reply::Pong { id: i } ==> i == id,
        reply matches Reply::ToolList { id: i } ==> i == id,
        reply matches Reply::CallTool { id: i, call } ==> i == id && is_requested(call, params),
        reply matches Reply::UnknownMethod { id: i, why } ==> i == id && why@ == "unknown method '"@
            + method@ + "'"@,
{
    reveal_strlit("initialize");
    reveal_strlit("ping");
    reveal_strlit("tools/list");
    reveal_strlit("tools/call");
    assert("initialize"@.len() == 10 && "ping"@.len() == 4 && "tools/list"@.len() == 10
        && "tools/call"@.len() == 10);
    assert("initialize"@[0] != "tools/list"@[0]);
    assert("tools/list"@[6] != "tools/call"@[6]);
}

/// An argument of a tool is what it says it is.
pub proof fn an_argument_is_as_declared(
    name: &'static str,
    kind: ArgKind,
    description: &'static str,
    required: bool,
)
    ensures
        ({
            let arg = arg_of(name, kind, description, required);
            arg.name == name && arg.kind == kind && arg.description == description && arg.required
                == required
        }),
{
}

/// A call that is refused says which argument is missing, the first in the order in which a tool
/// declares them, or which tool there is not.
pub proof fn a_refused_call_says_why(
    call: Result<ToolCall, String>,
    name: Seq<char>,
    args: CallArgs,
)
    requires
        is_call(call, name, args),
        call is Err,
    ensures
        name == "quiz"@ || name == "mastery"@ ==> call->Err_0@ == "subject_id is required"@,
        name == "grade"@ && args.item_id is None ==> call->Err_0@ == "item_id is required"@,
        name == "grade"@ && args.item_id is Some ==> call->Err_0@ == "response is required"@,
        name == "log"@ && args.skill_id is None ==> call->Err_0@ == "skill_id is required"@,
        name == "log"@ && args.skill_id is Some ==> call->Err_0@ == "correct is required"@,
        name != "quiz"@ && name != "mastery"@ && name != "grade"@ && name != "log"@
            ==> call->Err_0@ == "unknown tool '"@ + name + "'"@,
{
    names_differ();
}

/// The call that a message asks for is of the tool under `name`, with the arguments under
/// `arguments`.
pub proof fn a_message_names_its_tool(
    call: Result<ToolCall, String>,
    params: serde_json::Value,
    named: serde_json::Value,
    name: Seq<char>,
    arguments: serde_json::Value,
)
    requires
        is_requested(call, Some(params)),
        json_member(params, "name"@) == Some(named),
        json_text(named) == Some(name),
    ensures
        json_member(params, "arguments"@) == Some(arguments) ==> exists|args: CallArgs| #[trigger]
            is_args(args, Some(arguments)) && is_call(call, name, args),
        json_member(params, "arguments"@) is None ==> exists|args: CallArgs| #[trigger]
            is_args(args, None) && is_call(call, name, args),
{
    let args = choose|args: CallArgs| #[trigger]
        is_args(args, under(Some(params), "arguments"@)) && is_call(
            call,
            or_empty(text_under(Some(params), "name"@)),
            args,
        );
    assert(is_args(args, json_member(params, "arguments"@)));
}

} // verus!
