//! Talking to the host: what is said when it is absent, and how its replies are read.

use crate::config::{maybe_text, non_empty, setting};
use crate::json::{json_member, json_text, member, text_at, text_of, text_under};
use vstd::prelude::*;
use vstd::string::*;

verus! {

/// Prefix of the keys that candidates are queued under.
pub const CANDIDATE_KEY_PREFIX: &'static str = "tuition/candidates/";

/// What is said when a model is needed and there is no host.
pub const NO_HOST: &'static str = "this needs a model, and the app is not connected to Ryu right now — open it from the Ryu desktop app rather than running the binary directly";

/// What is said when a model is needed and there is no host.
pub open spec fn no_host_text() -> Seq<char> {
    NO_HOST@
}

/// What is said when a model is needed and there is no host: what to do about it.
pub fn no_host_message() -> (message: &'static str)
    ensures
        message@ == no_host_text(),
{
    NO_HOST
}

/// Where the host is reached, and as whom.
#[derive(Clone, Debug)]
pub struct HostAddress {
    pub base: String,
    pub token: String,
    pub plugin_id: String,
}

/// Where the host is reached, from the settings it gives this process; nothing unless
/// all three are there.
pub fn host_address(token: Option<&str>, plugin_id: Option<&str>, port: Option<&str>) -> (address:
    Option<HostAddress>)
    ensures
        address is Some <==> setting(maybe_text(token)) is Some && setting(
            maybe_text(plugin_id),
        ) is Some && setting(maybe_text(port)) is Some,
        address matches Some(a) ==> {
            &&& a.token@ == setting(maybe_text(token))->0
            &&& a.plugin_id@ == setting(maybe_text(plugin_id))->0
            &&& a.base@ == "http://127.0.0.1:"@ + setting(maybe_text(port))->0
        },
{
    match (non_empty(token), non_empty(plugin_id), non_empty(port)) {
        (Some(token), Some(plugin_id), Some(port)) => {
            let mut base: String = "http://127.0.0.1:".to_owned();
            base.append(port.as_str());
            Some(HostAddress { base, token, plugin_id })
        },
        _ => None,
    }
}

/// The text that a completion carries: its `text`, or its `content` where it has no
/// `text` at all.
pub open spec fn completion_text(payload: serde_json::Value) -> Option<Seq<char>> {
    match json_member(payload, "text"@) {
        Some(value) => json_text(value),
        None => text_under(Some(payload), "content"@),
    }
}

/// Why a call was refused, by the reply's own account.
pub open spec fn refusal_detail(payload: serde_json::Value) -> Seq<char> {
    match text_under(Some(payload), "error"@) {
        Some(text) => text,
        None => "no detail"@,
    }
}

/// Why a call was refused, with what was called and the status it came back with.
pub open spec fn refusal_text(what: Seq<char>, status: Seq<char>, payload: serde_json::Value) -> Seq<
    char,
> {
    "Core refused "@ + what + " ("@ + status + "): "@ + refusal_detail(payload)
}

/// Why a call was refused, with what was called and the status it came back with.
pub fn refusal(what: &str, status: &str, payload: &serde_json::Value) -> (why: String)
    ensures
        why@ == refusal_text(what@, status@, *payload),
{
    let mut why: String = "Core refused ".to_owned();
    why.append(what);
    why.append(" (");
    why.append(status);
    why.append("): ");
    match text_at(Some(payload), "error") {
        Some(text) => why.append(text.as_str()),
        None => why.append("no detail"),
    }
    why
}

/// The text that a model's completion carries, or why there is none.
pub fn read_completion(success: bool, status: &str, payload: &serde_json::Value) -> (reply: Result<
    String,
    String,
>)
    ensures
        !success ==> (reply matches Err(why) && why@ == refusal_text(
            "the model call"@,
            status@,
            *payload,
        )),
        success ==> match completion_text(*payload) {
            Some(found) => reply matches Ok(said) && said@ == found,
            None => reply matches Err(why) && why@ == "Core's model response carried no text"@,
        },
{
    if !success {
        return Err(refusal("the model call", status, payload));
    }
    let text: Option<String> = match member(payload, "text") {
        Some(value) => text_of(&value),
        None => text_at(Some(payload), "content"),
    };
    match text {
        Some(said) => Ok(said),
        None => Err("Core's model response carried no text".to_owned()),
    }
}

/// What a call of the host's interface gave: the `result` of the reply, or the reply itself
/// where it has none.
pub open spec fn result_in(payload: serde_json::Value) -> serde_json::Value {
    match json_member(payload, "result"@) {
        Some(result) => result,
        None => payload,
    }
}

/// What a call of the host's interface gave, or why it gave nothing.
pub fn read_result(success: bool, status: &str, method: &str, payload: serde_json::Value) -> (result:
    Result<serde_json::Value, String>)
    ensures
        success ==> result == Ok::<serde_json::Value, String>(result_in(payload)),
        !success ==> (result matches Err(why) && why@ == refusal_text(
            "'"@ + method@ + "'"@,
            status@,
            payload,
        )),
{
    if !success {
        let mut what: String = "'".to_owned();
        what.append(method);
        what.append("'");
        return Err(refusal(what.as_str(), status, &payload));
    }
    match member(&payload, "result") {
        Some(result) => Ok(result),
        None => Ok(payload),
    }
}

/// A completion says its `text`; where it has none at all, its `content`; and a refusal its
/// `error`.
pub proof fn a_completion_says_its_text(payload: serde_json::Value, value: serde_json::Value)
    ensures
        json_member(payload, "text"@) == Some(value) ==> completion_text(payload) == json_text(value),
        json_member(payload, "text"@) is None && json_member(payload, "content"@) == Some(value)
            ==> completion_text(payload) == json_text(value),
        json_member(payload, "text"@) is None && json_member(payload, "content"@) is None
            ==> completion_text(payload) is None,
        json_member(payload, "error"@) == Some(value) && json_text(value) is Some ==> refusal_detail(
            payload,
        ) == json_text(value)->0,
        json_member(payload, "result"@) == Some(value) ==> result_in(payload) == value,
        json_member(payload, "result"@) is None ==> result_in(payload) == payload,
{
}

/// A refusal names what was called, the status and the `error` of the reply, where it has one.
pub proof fn a_refusal_names_the_call(
    what: Seq<char>,
    status: Seq<char>,
    payload: serde_json::Value,
    held: serde_json::Value,
    detail: Seq<char>,
)
    ensures
        json_member(payload, "error"@) == Some(held) && json_text(held) == Some(detail)
            ==> refusal_text(what, status, payload) == "Core refused "@ + what + " ("@ + status
            + "): "@ + detail,
        json_member(payload, "error"@) is None || (json_member(payload, "error"@) == Some(held)
            && json_text(held) is None) ==> refusal_text(what, status, payload) == "Core refused "@
            + what + " ("@ + status + "): "@ + "no detail"@,
{
}

} // verus!
