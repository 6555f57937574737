//! The edges at which a model is asked: writing practice items from the learner's own
//! material, and marking a free response against its rubric.
//!
//! What is asked is fixed here, and so is what is kept of the reply.

use crate::config::{maybe_string, maybe_text};
use crate::error::ApiError;
use crate::json::{items_of, json_items, json_member, member, text_at, text_under};
use crate::models::{AnswerKey, Choice, ItemKind, ItemOrigin, NewItem, Skill, Source};
use crate::reply::{extract_json, object_in};
use crate::store::owned;
use crate::text::{chars_of, decimal_text, integer_text, join, joined, text_of, texts};
use vstd::prelude::*;
use vstd::string::*;

verus! {

/// How many characters of source material are handed to the generation model.
pub const MAX_GENERATION_CONTEXT_CHARS: usize = 12_000;

/// The model that items are generated with, by the name of its preference.
pub const GENERATION_MODEL: &'static str = "tuition-generation-model";

/// The model that answers are marked with, by the name of its preference.
pub const GRADING_MODEL: &'static str = "tuition-grading-model";

/// What the generation model is told about its task.
pub const GENERATION_SYSTEM: &'static str = "You write practice questions from source material. Reply with JSON only: {\"items\": [{\"kind\": \"mcq\"|\"cloze\"|\"numeric\"|\"exact\", \"prompt\": \"...\", \"choices\": [{\"id\": \"a\", \"text\": \"...\"}], \"answer\": {...}}]}. The answer object matches the kind: mcq {\"kind\":\"mcq\",\"choice_id\":\"a\"}; cloze {\"kind\":\"cloze\",\"blanks\":[[\"one\",\"alt\"]]}; numeric {\"kind\":\"numeric\",\"expected\":\"3.14\",\"tolerance\":{\"kind\":\"absolute\",\"value\":\"0.01\"}}; exact {\"kind\":\"exact\",\"text\":\"...\",\"alternatives\":[]}. Ask about the material, not around it. Never write a free-response question.";

/// What the grading model is told about its task.
pub const GRADING_SYSTEM: &'static str = "You mark one short answer against a written rubric. Reply with JSON only: {\"score\": <0..1>, \"feedback\": \"<one sentence>\"}. Score strictly against the rubric and nothing else — not style, not length, not whether you would have said it differently.";

/// The texts of a list of sources.
pub open spec fn source_texts(sources: Seq<Source>) -> Seq<Seq<char>> {
    sources.map_values(|source: Source| source.parsed_text@)
}

/// The material of a list of sources: their texts, a blank line between each two, no more
/// of it than fits.
pub open spec fn material_in(sources: Seq<Source>) -> Seq<char> {
    let all = joined(source_texts(sources), "\n\n"@);
    if all.len() > MAX_GENERATION_CONTEXT_CHARS {
        all.take(MAX_GENERATION_CONTEXT_CHARS as int)
    } else {
        all
    }
}

/// The material of a list of sources, no more of it than fits.
pub fn material(sources: &[Source]) -> (text: String)
    ensures
        text@ == material_in(sources@),
{
    let mut parts: Vec<String> = Vec::new();
    while parts.len() < sources.len()
        invariant
            parts@.len() <= sources@.len(),
            forall|i: int|
                0 <= i < parts@.len() ==> (#[trigger] parts@[i])@ == sources@[i].parsed_text@,
        decreases sources@.len() - parts@.len(),
    {
        let at: usize = parts.len();
        parts.push(sources[at].parsed_text.clone());
    }
    assert(texts(parts@) =~= source_texts(sources@));
    let all: String = join(parts.as_slice(), "\n\n");
    let chars: Vec<char> = chars_of(all.as_str());
    if chars.len() > MAX_GENERATION_CONTEXT_CHARS {
        let text: String = text_of(&chars[0..MAX_GENERATION_CONTEXT_CHARS]);
        assert(text@ =~= all@.take(MAX_GENERATION_CONTEXT_CHARS as int));
        text
    } else {
        all
    }
}

/// What the generation model is asked.
pub open spec fn generation_request(
    name: Seq<char>,
    detail: Option<Seq<char>>,
    count: u32,
    material: Seq<char>,
) -> Seq<char> {
    "Skill: "@ + name + "\n"@ + (match detail {
        Some(text) => text,
        None => Seq::<char>::empty(),
    }) + "\n\nWrite "@ + integer_text(count as int) + " questions.\n\nSource material:\n"@ + material
}

/// What the generation model is asked.
pub fn generation_prompt(skill: &Skill, count: u32, material: &str) -> (prompt: String)
    ensures
        prompt@ == generation_request(skill.name@, maybe_string(skill.detail), count, material@),
        skill.detail matches Some(detail) ==> prompt@ == "Skill: "@ + skill.name@ + "\n"@ + detail@
            + "\n\nWrite "@ + integer_text(count as int) + " questions.\n\nSource material:\n"@
            + material@,
        skill.detail is None ==> prompt@ == "Skill: "@ + skill.name@ + "\n"@ + Seq::<char>::empty()
            + "\n\nWrite "@ + integer_text(count as int) + " questions.\n\nSource material:\n"@
            + material@,
{
    let mut prompt: String = "Skill: ".to_owned();
    prompt.append(skill.name.as_str());
    prompt.append("\n");
    let ghost head = prompt@;
    if let Some(detail) = &skill.detail {
        prompt.append(detail.as_str());
    } else {
        assert(head + Seq::<char>::empty() =~= head);
    }
    prompt.append("\n\nWrite ");
    let number: String = decimal_text(count as i64);
    prompt.append(number.as_str());
    prompt.append(" questions.\n\nSource material:\n");
    prompt.append(material);
    prompt
}

/// What the grading model is asked.
pub fn grading_prompt(question: &str, rubric: &str, response: &str) -> (prompt: String)
    ensures
        prompt@ == "Question:\n"@ + question@ + "\n\nRubric:\n"@ + rubric@ + "\n\nAnswer:\n"@
            + response@,
{
    let mut prompt: String = "Question:\n".to_owned();
    prompt.append(question);
    prompt.append("\n\nRubric:\n");
    prompt.append(rubric);
    prompt.append("\n\nAnswer:\n");
    prompt.append(response);
    prompt
}

/// One entry of a generation reply: its words, and the two parts that are decoded on
/// their own.
#[derive(Debug)]
pub struct Draft {
    pub kind: Option<String>,
    pub prompt: Option<String>,
    pub choices: Option<serde_json::Value>,
    pub answer: Option<serde_json::Value>,
}

/// Whether a draft is what an entry of a reply holds.
pub open spec fn is_draft(draft: Draft, entry: serde_json::Value) -> bool {
    &&& maybe_string(draft.kind) == text_under(Some(entry), "kind"@)
    &&& maybe_string(draft.prompt) == text_under(Some(entry), "prompt"@)
    &&& draft.choices == json_member(entry, "choices"@)
    &&& draft.answer == json_member(entry, "answer"@)
}

/// The entries of a generation reply: its `items`, where that is a list, and none
/// otherwise.
pub open spec fn entries_in(reply: serde_json::Value) -> Seq<serde_json::Value> {
    match json_member(reply, "items"@) {
        Some(list) => match json_items(list) {
            Some(entries) => entries,
            None => seq![],
        },
        None => seq![],
    }
}

/// Whether drafts are what the entries of a reply hold, in order.
pub open spec fn are_drafts(drafts: Seq<Draft>, entries: Seq<serde_json::Value>) -> bool {
    &&& drafts.len() == entries.len()
    &&& forall|i: int| 0 <= i < drafts.len() ==> is_draft(#[trigger] drafts[i], entries[i])
}

/// The drafts in a generation reply, in order.
pub fn read_proposals(reply: &serde_json::Value) -> (drafts: Vec<Draft>)
    ensures
        are_drafts(drafts@, entries_in(*reply)),
{
    let entries: Vec<serde_json::Value> = match member(reply, "items") {
        Some(list) => match items_of(&list) {
            Some(entries) => entries,
            None => Vec::new(),
        },
        None => Vec::new(),
    };
    assert(entries@ =~= entries_in(*reply));
    let mut drafts: Vec<Draft> = Vec::new();
    while drafts.len() < entries.len()
        invariant
            drafts@.len() <= entries@.len(),
            forall|i: int|
                0 <= i < drafts@.len() ==> is_draft(#[trigger] drafts@[i], entries@[i]),
        decreases entries@.len() - drafts@.len(),
    {
        let entry: &serde_json::Value = &entries[drafts.len()];
        let draft: Draft = Draft {
            kind: text_at(Some(entry), "kind"),
            prompt: text_at(Some(entry), "prompt"),
            choices: member(entry, "choices"),
            answer: member(entry, "answer"),
        };
        drafts.push(draft);
    }
    drafts
}

/// The drafts in what a generation model replied. A reply without a JSON object is a
/// failure of the model.
pub fn read_generation(raw: &str) -> (drafts: Result<Vec<Draft>, ApiError>)
    ensures
        match object_in(raw@) {
            Some(reply) => drafts matches Ok(list) && are_drafts(list@, entries_in(reply)),
            None => drafts matches Err(ApiError::Upstream(why)) && why@
                == "the generation model did not return JSON"@,
        },
{
    match extract_json(raw) {
        Some(reply) => Ok(read_proposals(&reply)),
        None => Err(ApiError::upstream("the generation model did not return JSON")),
    }
}

impl Draft {
    /// The proposal that a draft makes, once its choices and its answer are decoded. Choices
    /// that did not decode count as none.
    pub fn completed(self, choices: Option<Vec<Choice>>, answer: Option<AnswerKey>) -> (proposal:
        Proposal)
        ensures
            proposal.kind == self.kind,
            proposal.prompt == self.prompt,
            proposal.choices@ == (match choices {
                Some(list) => list@,
                None => seq![],
            }),
            proposal.answer == answer,
    {
        let list: Vec<Choice> = match choices {
            Some(list) => list,
            None => {
                let none: Vec<Choice> = Vec::new();
                assert(none@ =~= seq![]);
                none
            },
        };
        Proposal { kind: self.kind, prompt: self.prompt, choices: list, answer }
    }
}

/// One item as a model proposes it, each part where it could be read.
#[derive(Clone, Debug)]
pub struct Proposal {
    pub kind: Option<String>,
    pub prompt: Option<String>,
    pub choices: Vec<Choice>,
    pub answer: Option<AnswerKey>,
}

impl Proposal {
    /// The kind of item that is proposed.
    pub open spec fn item_kind(&self) -> ItemKind {
        ItemKind::of_label(
            match self.kind {
                Some(word) => word@,
                None => Seq::<char>::empty(),
            },
        )
    }

    /// Whether an item can be made of it: not a free response, whose rubric nobody
    /// wrote, and with a question and a readable answer.
    pub open spec fn usable(&self) -> bool {
        &&& self.item_kind() != ItemKind::Free
        &&& self.prompt is Some
        &&& self.answer matches Some(key) && !(key is Malformed)
    }
}

/// Whether an item is the one that a proposal makes.
pub open spec fn is_proposed(
    item: NewItem,
    proposal: Proposal,
    skill_id: Seq<char>,
    source_id: Option<Seq<char>>,
) -> bool {
    &&& item.skill_id@ == skill_id
    &&& item.kind == proposal.item_kind()
    &&& Some(item.prompt) == proposal.prompt
    &&& item.choices == proposal.choices
    &&& Some(item.answer) == proposal.answer
    &&& item.origin == ItemOrigin::Model
    &&& maybe_string(item.origin_model) == Some(GENERATION_MODEL@)
    &&& maybe_string(item.source_id) == source_id
    &&& item.source_ref is None
}

/// The item that a proposal makes, if one can be made of it.
pub fn accept_proposal(proposal: Proposal, skill_id: &str, source_id: Option<&str>) -> (item: Option<
    NewItem,
>)
    ensures
        item is Some <==> proposal.usable(),
        item matches Some(new) ==> is_proposed(new, proposal, skill_id@, maybe_text(source_id)),
{
    let kind: ItemKind = match &proposal.kind {
        Some(word) => ItemKind::parse(word.as_str()),
        None => {
            let blank: String = String::new();
            ItemKind::parse(blank.as_str())
        },
    };
    if kind == ItemKind::Free {
        return None;
    }
    match (proposal.prompt, proposal.answer) {
        (Some(prompt), Some(answer)) => {
            if answer.kind().is_none() {
                return None;
            }
            Some(
                NewItem {
                    skill_id: skill_id.to_owned(),
                    kind,
                    prompt,
                    choices: proposal.choices,
                    answer,
                    origin: ItemOrigin::Model,
                    origin_model: Some(GENERATION_MODEL.to_owned()),
                    source_id: owned(source_id),
                    source_ref: None,
                },
            )
        },
        _ => None,
    }
}

/// The proposals that items are made of: the usable ones among the first `count`.
pub open spec fn kept_proposals(proposals: Seq<Proposal>, count: nat) -> Seq<Proposal> {
    let considered = if proposals.len() > count {
        proposals.take(count as int)
    } else {
        proposals
    };
    considered.filter(|p: Proposal| p.usable())
}

/// The items that a list of proposals makes: no more are considered than were asked for.
pub fn accept_proposals(
    proposals: Vec<Proposal>,
    count: u32,
    skill_id: &str,
    source_id: Option<&str>,
) -> (items: Vec<NewItem>)
    ensures
        items@.len() == kept_proposals(proposals@, count as nat).len(),
        forall|i: int|
            0 <= i < items@.len() ==> is_proposed(
                #[trigger] items@[i],
                kept_proposals(proposals@, count as nat)[i],
                skill_id@,
                maybe_text(source_id),
            ),
{
    let ghost all = proposals@;
    let ghost keep = |p: Proposal| p.usable();
    let ghost considered = if all.len() > count {
        all.take(count as int)
    } else {
        all
    };
    let mut rest: Vec<Proposal> = proposals;
    let mut items: Vec<NewItem> = Vec::new();
    let mut at: usize = 0;
    proof {
        reveal(Seq::filter);
        assert(considered.take(0) =~= seq![]);
        assert(all.skip(0) =~= all);
    }
    while at < count as usize && rest.len() > 0
        invariant
            at <= count,
            at <= all.len(),
            rest@ == all.skip(at as int),
            considered == (if all.len() > count {
                all.take(count as int)
            } else {
                all
            }),
            keep == (|p: Proposal| p.usable()),
            items@.len() == considered.take(at as int).filter(keep).len(),
            forall|i: int|
                0 <= i < items@.len() ==> is_proposed(
                    #[trigger] items@[i],
                    considered.take(at as int).filter(keep)[i],
                    skill_id@,
                    maybe_text(source_id),
                ),
        decreases rest@.len(),
    {
        let ghost before = considered.take(at as int).filter(keep);
        let proposal: Proposal = rest.remove(0);
        proof {
            reveal(Seq::filter);
            assert(proposal == all[at as int]);
            let seen = considered.take(at + 1);
            assert(seen.drop_last() =~= considered.take(at as int));
            assert(seen.last() == proposal);
            assert(rest@ =~= all.skip(at + 1));
        }
        if let Some(item) = accept_proposal(proposal, skill_id, source_id) {
            items.push(item);
            assert(considered.take(at + 1).filter(keep) =~= before.push(proposal));
        } else {
            assert(considered.take(at + 1).filter(keep) =~= before);
        }
        at += 1;
    }
    assert(considered.take(at as int) =~= considered);
    items
}

/// What generation adds can be graded by comparison as far as its answer goes: no free
/// responses, no unreadable keys.
pub proof fn generated_items_are_objective(
    item: NewItem,
    proposal: Proposal,
    skill_id: Seq<char>,
    source_id: Option<Seq<char>>,
)
    requires
        proposal.usable(),
        is_proposed(item, proposal, skill_id, source_id),
    ensures
        item.kind.objective(),
        !(item.answer is Malformed),
{
}

/// The material is the sources' texts in order, a blank line between each two, and at most the
/// first twelve thousand characters of that.
pub proof fn the_material_is_the_sources_in_order(a: Seq<Source>, b: Seq<Source>, one: Source)
    requires
        a.len() > 0,
        b.len() > 0,
    ensures
        source_texts(a + b) == source_texts(a) + source_texts(b),
        source_texts(seq![one]) == seq![one.parsed_text@],
        joined(source_texts(a), "\n\n"@).len() <= 12_000 ==> material_in(a) == joined(
            source_texts(a),
            "\n\n"@,
        ),
        joined(source_texts(a), "\n\n"@).len() > 12_000 ==> material_in(a) == joined(
            source_texts(a),
            "\n\n"@,
        ).take(12_000),
{
    assert(source_texts(a + b) =~= source_texts(a) + source_texts(b));
    assert(source_texts(seq![one]) =~= seq![one.parsed_text@]);
}

/// Which proposals become items: those among the first `count` that are not free responses and
/// have a question and a readable answer, in their order.
pub proof fn usable_proposals_are_kept_in_order(proposals: Seq<Proposal>, count: nat)
    ensures
        proposals.len() <= count ==> kept_proposals(proposals, count) == proposals.filter(
            |p: Proposal| p.usable(),
        ),
        proposals.len() > count ==> kept_proposals(proposals, count) == proposals.take(
            count as int,
        ).filter(|p: Proposal| p.usable()),
        forall|p: Proposal| #[trigger]
            p.usable() <==> p.item_kind() != ItemKind::Free && p.prompt is Some && p.answer is Some
                && !(p.answer->0 is Malformed),
        forall|p: Proposal| #[trigger]
            p.item_kind() == (match p.kind {
                Some(word) => ItemKind::of_label(word@),
                None => ItemKind::of_label(Seq::<char>::empty()),
            }),
{
}

/// An item made of a proposal is that proposal, marked as a model's.
pub proof fn a_proposed_item_is_the_proposal(
    item: NewItem,
    proposal: Proposal,
    skill_id: Seq<char>,
    source_id: Option<Seq<char>>,
)
    requires
        is_proposed(item, proposal, skill_id, source_id),
    ensures
        item.skill_id@ == skill_id,
        item.kind == proposal.item_kind(),
        proposal.prompt == Some(item.prompt) && proposal.answer == Some(item.answer)
            && item.choices == proposal.choices,
        item.origin == ItemOrigin::Model,
        item.origin_model is Some && item.origin_model->0@ == GENERATION_MODEL@,
        item.source_id is Some <==> source_id is Some,
        item.source_id matches Some(id) ==> id@ == source_id->0,
        item.source_ref is None,
{
}

/// What a generation reply proposes is what stands under `items`, entry by entry: its kind and
/// prompt as texts, its choices and its answer as they are.
pub proof fn a_reply_proposes_its_items(
    drafts: Seq<Draft>,
    reply: serde_json::Value,
    list: serde_json::Value,
    entries: Seq<serde_json::Value>,
    i: int,
)
    requires
        are_drafts(drafts, entries_in(reply)),
    ensures
        json_member(reply, "items"@) is None ==> drafts.len() == 0,
        json_member(reply, "items"@) == Some(list) && json_items(list) is None ==> drafts.len()
            == 0,
        json_member(reply, "items"@) == Some(list) && json_items(list) == Some(entries)
            ==> drafts.len() == entries.len() && (0 <= i < entries.len() ==> {
            &&& maybe_string(drafts[i].kind) == text_under(Some(entries[i]), "kind"@)
            &&& maybe_string(drafts[i].prompt) == text_under(Some(entries[i]), "prompt"@)
            &&& drafts[i].choices == json_member(entries[i], "choices"@)
            &&& drafts[i].answer == json_member(entries[i], "answer"@)
        }),
{
    if 0 <= i < drafts.len() {
        assert(is_draft(drafts[i], entries_in(reply)[i]));
    }
}

} // verus!
