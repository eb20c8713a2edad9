//! What each kind of endpoint makes of a request body, whatever the body.

use crate::events::ReasoningContentEvent;
use crate::json::{field, parsed, printed, rereadable, string_field, Json, JsonV, Reading};
use crate::kiro_request::{add_ide_thinking, cli_body, ide_body, inject_ide_thinking_fields};
use crate::kiro_request::{inject_profile_arn, marked_body, marked_entry, marked_history};
use crate::kiro_request::{marked_state, rewrite_cli_body, rewrite_cli_json, set_profile_arn};
use crate::kiro_request::{under, with_arn, KiroRequest};
use crate::state::opt_text;
use vstd::prelude::*;

verus! {

/// A message of the user comes from the command line, if it says where it comes from at all.
pub open spec fn says_cli(before: JsonV, after: JsonV) -> bool {
    if field(before, "origin"@) is Some {
        string_field(after, "origin"@) == Some("KIRO_CLI"@)
    } else {
        after == before
    }
}

/// The message of the user in an entry of a conversation.
pub open spec fn message_in(entry: JsonV) -> JsonV {
    under(entry, "userInputMessage"@)
}

/// A request body as the command line sends it: every message of the user, the current one and
/// those of the history, comes from the command line, and no setting for thinking is there, nor
/// settings that would be empty without it.
pub open spec fn is_cli_body(before: JsonV, after: JsonV) -> bool {
    let (state, state_now) = (
        under(before, "conversationState"@),
        under(after, "conversationState"@),
    );
    let settings = field(before, "additionalModelRequestFields"@);
    let settings_now = field(after, "additionalModelRequestFields"@);
    &&& says_cli(
        message_in(under(state, "currentMessage"@)),
        message_in(under(state_now, "currentMessage"@)),
    )
    &&& field(state, "history"@) matches Some(JsonV::Array(history)) ==> (field(
        state_now,
        "history"@,
    ) matches Some(JsonV::Array(now)) && now.len() == history.len() && forall|i: int|
        0 <= i < now.len() ==> says_cli(message_in(history[i]), message_in(#[trigger] now[i])))
    &&& settings matches Some(JsonV::Object(fields)) ==> {
        &&& settings_now is None <==> forall|key: Seq<char>|
            key != "thinking"@ ==> !#[trigger] fields.contains_key(key)
        &&& settings_now matches Some(now) ==> field(now, "thinking"@) is None
    }
}

proof fn lemma_entry(entry: JsonV)
    ensures
        says_cli(message_in(entry), message_in(marked_entry(entry))),
{
}

proof fn lemma_keys()
    ensures
        "conversationState"@ != "additionalModelRequestFields"@,
        "currentMessage"@ != "history"@,
        "profileArn"@ != "conversationState"@,
        "profileArn"@ != "additionalModelRequestFields"@,
{
    reveal_strlit("conversationState");
    reveal_strlit("additionalModelRequestFields");
    reveal_strlit("currentMessage");
    reveal_strlit("history");
    reveal_strlit("profileArn");
    assert("conversationState"@.len() == 17 && "additionalModelRequestFields"@.len() == 28
        && "currentMessage"@.len() == 14 && "history"@.len() == 7 && "profileArn"@.len() == 10);
}

proof fn lemma_history(history: Seq<JsonV>)
    ensures
        marked_history(JsonV::Array(history)) matches JsonV::Array(now) && now.len()
            == history.len() && forall|i: int|
            0 <= i < now.len() ==> says_cli(message_in(history[i]), message_in(#[trigger] now[i])),
{
    let now = marked_history(JsonV::Array(history))->Array_0;
    assert forall|i: int| 0 <= i < now.len() implies says_cli(
        message_in(history[i]),
        message_in(#[trigger] now[i]),
    ) by {
        lemma_entry(history[i]);
        assert(now[i] == marked_entry(history[i]));
    }
}

pub proof fn lemma_cli_body(v: JsonV)
    ensures
        is_cli_body(v, cli_body(v)),
{
    lemma_keys();
    let state = under(v, "conversationState"@);
    let state_now = marked_state(state);
    let w = cli_body(v);
    assert(field(w, "conversationState"@) == field(marked_body(v), "conversationState"@));
    assert(field(v, "conversationState"@) is Some ==> under(w, "conversationState"@) == state_now);
    lemma_entry(under(state, "currentMessage"@));
    if let Some(JsonV::Array(history)) = field(state, "history"@) {
        lemma_history(history);
    }
    if let Some(JsonV::Object(fields)) = field(v, "additionalModelRequestFields"@) {
        let rest = fields.remove("thinking"@);
        assert(field(marked_body(v), "additionalModelRequestFields"@) == Some(
            JsonV::Object(fields),
        ));
        if rest == Map::<Seq<char>, JsonV>::empty() {
            assert forall|key: Seq<char>| key != "thinking"@ implies !#[trigger] fields.contains_key(
                key,
            ) by {
                assert(rest.contains_key(key) == fields.contains_key(key));
            }
        } else if forall|key: Seq<char>|
            key != "thinking"@ ==> !#[trigger] fields.contains_key(key) {
            assert(rest =~= Map::<Seq<char>, JsonV>::empty());
        }
    }
}

/// A request body that the command line sends marks every message of the user as its own, and
/// holds no setting for thinking.
pub proof fn law_cli_body_comes_from_the_cli(v: Json, r: Json)
    requires
        call_ensures(rewrite_cli_json, (v,), r),
    ensures
        is_cli_body(v.view(), r.view()),
{
    lemma_cli_body(v.view());
}

/// So does its text, where it can be read back; a text that is no JSON stays as it is.
pub proof fn law_cli_text_comes_from_the_cli(body: &str, r: String)
    requires
        call_ensures(rewrite_cli_body, (body,), r),
    ensures
        match parsed(body@) {
            Reading::Value(v) => exists|w: JsonV|
                is_cli_body(v, w) && r@ == #[trigger] printed(w) && (rereadable(w, 127) ==> parsed(
                    r@,
                ) == Reading::Value(w)),
            Reading::Fault(_) => r@ == body@,
        },
{
    if let Reading::Value(v) = parsed(body@) {
        lemma_cli_body(v);
        assert(r@ == printed(cli_body(v)));
    }
}

/// Whether a request body sets a level of effort, and says nothing of thinking.
pub open spec fn effort_alone(v: JsonV) -> bool {
    match field(v, "additionalModelRequestFields"@) {
        Some(settings) => field(settings, "output_config"@) is Some && field(
            settings,
            "thinking"@,
        ) is None,
        None => false,
    }
}

/// A request body with adaptive thinking in summary added to its settings, and nothing else
/// changed.
pub open spec fn adds_thinking(before: JsonV, after: JsonV) -> bool {
    let settings = under(before, "additionalModelRequestFields"@);
    let settings_now = under(after, "additionalModelRequestFields"@);
    &&& field(settings_now, "thinking"@) matches Some(thinking) && string_field(
        thinking,
        "type"@,
    ) == Some("adaptive"@) && string_field(thinking, "display"@) == Some("summarized"@)
    &&& forall|key: Seq<char>|
        key != "thinking"@ ==> #[trigger] field(settings_now, key) == field(settings, key)
    &&& forall|key: Seq<char>|
        key != "additionalModelRequestFields"@ ==> #[trigger] field(after, key) == field(
            before,
            key,
        )
}

proof fn lemma_thinking_keys()
    ensures
        "type"@ != "display"@,
{
    reveal_strlit("type");
    reveal_strlit("display");
    assert("type"@.len() == 4 && "display"@.len() == 7);
}

pub proof fn lemma_ide_body(v: JsonV)
    ensures
        effort_alone(v) ==> adds_thinking(v, ide_body(v)),
        !effort_alone(v) ==> ide_body(v) == v,
{
    lemma_thinking_keys();
}

/// The editor sends adaptive thinking, in summary, along with a level of effort, unless the
/// request says itself how to think; nothing else of it changes.
pub proof fn law_ide_body_thinks_with_effort(v: Json, r: Option<Json>)
    requires
        call_ensures(add_ide_thinking, (v,), r),
    ensures
        r is Some <==> effort_alone(v.view()),
        r matches Some(w) ==> adds_thinking(v.view(), w.view()),
{
    lemma_thinking_keys();
}

/// So does its text, where it can be read back; a text to which nothing is to be added stays as
/// it is, to the letter, and so does one that is no JSON.
pub proof fn law_ide_text_thinks_with_effort(body: &str, r: String)
    requires
        call_ensures(inject_ide_thinking_fields, (body,), r),
    ensures
        match parsed(body@) {
            Reading::Value(v) => if effort_alone(v) {
                exists|w: JsonV|
                    adds_thinking(v, w) && r@ == #[trigger] printed(w) && (rereadable(w, 127)
                        ==> parsed(r@) == Reading::Value(w))
            } else {
                r@ == body@
            },
            Reading::Fault(_) => r@ == body@,
        },
{
    lemma_thinking_keys();
    if let Reading::Value(v) = parsed(body@) {
        if effort_alone(v) {
            let w = ide_body(v);
            assert(adds_thinking(v, w));
            assert(r@ == printed(w));
        }
    }
}

/// A request body with the given profile, and nothing else changed.
pub open spec fn gets_profile(before: JsonV, after: JsonV, arn: Seq<char>) -> bool {
    string_field(after, "profileArn"@) == Some(arn) && forall|key: Seq<char>|
        key != "profileArn"@ ==> #[trigger] field(after, key) == field(before, key)
}

/// A profile that is given stands in the request body, whatever stood there before, and nothing
/// else of the body changes. Without a profile the text stays as it is, and so does one that is no
/// JSON.
pub proof fn law_profile_is_told(
    v: Json,
    given: &str,
    w: Json,
    body: &str,
    arn: Option<String>,
    r: String,
)
    requires
        call_ensures(set_profile_arn, (v, given), w),
        call_ensures(inject_profile_arn, (body, &arn), r),
    ensures
        gets_profile(v.view(), w.view(), given@),
        arn is None ==> r@ == body@,
        parsed(body@) is Fault ==> r@ == body@,
        arn matches Some(a) ==> (parsed(body@) matches Reading::Value(x) ==> exists|y: JsonV|
            gets_profile(x, y, a@) && r@ == #[trigger] printed(y) && (rereadable(y, 127)
                ==> parsed(r@) == Reading::Value(y))),
{
    if let Some(a) = arn {
        if let Reading::Value(x) = parsed(body@) {
            assert(gets_profile(x, with_arn(x, a@), a@));
            assert(r@ == printed(with_arn(x, a@)));
        }
    }
}

/// A request to the upstream holds its conversation, its profile and its settings, each under the
/// name that the upstream reads, and nothing that was not set.
pub proof fn law_request_is_written_whole(q: KiroRequest, r: Json)
    requires
        call_ensures(KiroRequest::to_json, (&q,), r),
    ensures
        field(r.view(), "conversationState"@) == Some(q.conversation_state.view()),
        q.profile_arn matches Some(arn) ==> string_field(r.view(), "profileArn"@) == Some(arn@),
        q.profile_arn is None ==> field(r.view(), "profileArn"@) is None,
        q.additional_model_request_fields is None ==> field(
            r.view(),
            "additionalModelRequestFields"@,
        ) is None,
        q.additional_model_request_fields matches Some(f) ==> (field(
            r.view(),
            "additionalModelRequestFields"@,
        ) matches Some(settings) && {
            &&& f.thinking is None ==> field(settings, "thinking"@) is None
            &&& f.thinking matches Some(t) ==> (field(settings, "thinking"@) matches Some(x)
                && string_field(x, "type"@) == Some(t.thinking_type@) && (t.display is None
                ==> field(x, "display"@) is None) && (t.display matches Some(d) ==> string_field(
                x,
                "display"@,
            ) == Some(d@)))
            &&& f.output_config is None ==> field(settings, "output_config"@) is None
            &&& f.output_config matches Some(c) ==> (field(settings, "output_config"@) matches Some(
                x,
            ) && string_field(x, "effort"@) == Some(c.effort@))
            &&& f.reasoning is None ==> field(settings, "reasoning"@) is None
            &&& f.reasoning matches Some(c) ==> (field(settings, "reasoning"@) matches Some(x)
                && string_field(x, "effort"@) == Some(c.effort@))
        }),
{
    lemma_keys();
    lemma_thinking_keys();
    reveal_strlit("thinking");
    reveal_strlit("output_config");
    reveal_strlit("reasoning");
    assert("thinking"@.len() == 8 && "output_config"@.len() == 13 && "reasoning"@.len() == 9);
}

/// A field of an object that is a text, or null, or not there.
pub open spec fn may_be_text(v: JsonV, key: Seq<char>) -> bool {
    match field(v, key) {
        Some(x) => x is Str || x is Null,
        None => true,
    }
}

/// A piece of reasoning is read as it stands: what it discloses, and what it holds back, each from
/// its own field; an object without a text discloses nothing. What is no object, or holds anything
/// but texts, is not read.
pub proof fn law_reasoning_is_read_as_it_stands(v: Json, r: Option<ReasoningContentEvent>)
    requires
        call_ensures(ReasoningContentEvent::from_json, (&v,), r),
    ensures
        r is Some <==> v.view() is Object && (field(v.view(), "text"@) is Some ==> string_field(
            v.view(),
            "text"@,
        ) is Some) && may_be_text(v.view(), "signature"@) && may_be_text(
            v.view(),
            "redactedContent"@,
        ),
        r matches Some(e) ==> {
            &&& field(v.view(), "text"@) is Some ==> string_field(v.view(), "text"@) == Some(
                e.text@,
            )
            &&& field(v.view(), "text"@) is None ==> e.text@.len() == 0
            &&& string_field(v.view(), "redactedContent"@) == opt_text(e.redacted_content)
            &&& string_field(v.view(), "signature"@) == opt_text(e.signature)
        },
{
}

} // verus!
