//! Requests to the upstream, and the rewriting that each kind of endpoint asks for.

use crate::events::ReasoningContentEvent;
use crate::json::{field, is_record, parsed, printed, rereadable, slot, string_field, string_of};
use crate::json::{values, Json, JsonObject, JsonV, Reading};
use crate::state::opt_text;
use vstd::prelude::*;

verus! {

/// How the model is to think.
#[derive(Debug)]
pub struct KiroThinkingConfig {
    pub thinking_type: String,
    pub display: Option<String>,
}

/// How much effort goes into the answer: `low`, `medium`, `high`, `xhigh` or `max`.
#[derive(Debug)]
pub struct KiroOutputConfig {
    pub effort: String,
}

/// How much effort goes into reasoning, for models that take it so.
#[derive(Debug)]
pub struct KiroReasoningConfig {
    pub effort: String,
}

/// Settings for the model, under the names that the upstream uses.
#[derive(Debug)]
pub struct AdditionalModelRequestFields {
    pub thinking: Option<KiroThinkingConfig>,
    pub output_config: Option<KiroOutputConfig>,
    pub reasoning: Option<KiroReasoningConfig>,
}

/// A request to the upstream.
#[derive(Debug)]
pub struct KiroRequest {
    pub conversation_state: Json,
    pub profile_arn: Option<String>,
    pub additional_model_request_fields: Option<AdditionalModelRequestFields>,
}

/// `m` with `v` under `key`, where there is a value.
pub open spec fn with_some(m: Map<Seq<char>, JsonV>, key: Seq<char>, v: Option<JsonV>) -> Map<
    Seq<char>,
    JsonV,
> {
    match v {
        Some(v) => m.insert(key, v),
        None => m,
    }
}

/// A string that may be there.
pub open spec fn opt_string(s: Option<String>) -> Option<JsonV> {
    match s {
        Some(s) => Some(JsonV::Str(s@)),
        None => None,
    }
}

/// An object of one effort.
pub open spec fn effort_json(effort: Seq<char>) -> JsonV {
    JsonV::Object(Map::empty().insert("effort"@, JsonV::Str(effort)))
}

impl KiroThinkingConfig {
    pub open spec fn view(&self) -> JsonV {
        JsonV::Object(
            with_some(
                Map::empty().insert("type"@, JsonV::Str(self.thinking_type@)),
                "display"@,
                opt_string(self.display),
            ),
        )
    }

    pub fn to_json(&self) -> (r: Json)
        ensures
            r.view() == self.view(),
    {
        let mut o = JsonObject::new().with("type", Json::text(self.thinking_type.as_str()));
        if let Some(display) = &self.display {
            o.insert("display", Json::text(display.as_str()));
        }
        Json::Object(o)
    }
}

impl AdditionalModelRequestFields {
    pub open spec fn view(&self) -> JsonV {
        let thinking = match self.thinking {
            Some(t) => Some(t.view()),
            None => None,
        };
        let output_config = match self.output_config {
            Some(c) => Some(effort_json(c.effort@)),
            None => None,
        };
        let reasoning = match self.reasoning {
            Some(c) => Some(effort_json(c.effort@)),
            None => None,
        };
        JsonV::Object(
            with_some(
                with_some(
                    with_some(Map::empty(), "thinking"@, thinking),
                    "output_config"@,
                    output_config,
                ),
                "reasoning"@,
                reasoning,
            ),
        )
    }

    pub fn to_json(&self) -> (r: Json)
        ensures
            r.view() == self.view(),
    {
        let mut o = JsonObject::new();
        if let Some(thinking) = &self.thinking {
            o.insert("thinking", thinking.to_json());
        }
        if let Some(config) = &self.output_config {
            let effort = JsonObject::new().with("effort", Json::text(config.effort.as_str()));
            o.insert("output_config", Json::Object(effort));
        }
        if let Some(config) = &self.reasoning {
            let effort = JsonObject::new().with("effort", Json::text(config.effort.as_str()));
            o.insert("reasoning", Json::Object(effort));
        }
        Json::Object(o)
    }
}

impl KiroRequest {
    pub open spec fn view(&self) -> JsonV {
        let fields = match self.additional_model_request_fields {
            Some(f) => Some(f.view()),
            None => None,
        };
        JsonV::Object(
            with_some(
                with_some(
                    Map::empty().insert("conversationState"@, self.conversation_state.view()),
                    "profileArn"@,
                    opt_string(self.profile_arn),
                ),
                "additionalModelRequestFields"@,
                fields,
            ),
        )
    }

    pub fn to_json(&self) -> (r: Json)
        ensures
            r.view() == self.view(),
    {
        let mut o = JsonObject::new().with("conversationState", self.conversation_state.copy());
        if let Some(arn) = &self.profile_arn {
            o.insert("profileArn", Json::text(arn.as_str()));
        }
        if let Some(fields) = &self.additional_model_request_fields {
            o.insert("additionalModelRequestFields", fields.to_json());
        }
        Json::Object(o)
    }
}

/// A value that is a text or null, or is not there: the text that it is. None where it is
/// anything else.
pub open spec fn maybe_text(v: Option<JsonV>) -> Option<Option<Seq<char>>> {
    match v {
        None => Some(None),
        Some(JsonV::Null) => Some(None),
        Some(JsonV::Str(s)) => Some(Some(s)),
        Some(_) => None,
    }
}

/// A field that holds a text or null, or is not there: the text that it holds. None where it
/// holds anything else.
pub open spec fn optional_text(v: JsonV, key: Seq<char>) -> Option<Option<Seq<char>>> {
    maybe_text(field(v, key))
}

/// Reads a value that may be a text.
pub(crate) fn read_maybe(v: Option<&Json>) -> (r: Option<Option<String>>)
    ensures
        r is Some <==> maybe_text(opt_value(v)) is Some,
        r matches Some(s) ==> maybe_text(opt_value(v)) == Some(opt_text(s)),
{
    match v {
        None => Some(None),
        Some(Json::Null) => Some(None),
        Some(Json::Str(s)) => Some(Some(s.clone())),
        Some(_) => None,
    }
}

/// The value that may be there.
pub open spec fn opt_value(v: Option<&Json>) -> Option<JsonV> {
    match v {
        Some(v) => Some(v.view()),
        None => None,
    }
}

/// A value that may be there, where it is not null.
pub open spec fn non_null(v: Option<JsonV>) -> Option<JsonV> {
    match v {
        Some(JsonV::Null) => None,
        _ => v,
    }
}

/// Whether a value sets how the model is to think.
pub open spec fn is_thinking(v: JsonV) -> bool {
    &&& is_record(v, 2)
    &&& slot(v, "type"@, 0) matches Some(JsonV::Str(_))
    &&& maybe_text(slot(v, "display"@, 1)) is Some
}

/// The setting for thinking that a value holds, without what is not known.
pub open spec fn thinking_of(v: JsonV) -> JsonV {
    JsonV::Object(
        with_some(
            with_some(Map::empty(), "type"@, slot(v, "type"@, 0)),
            "display"@,
            non_null(slot(v, "display"@, 1)),
        ),
    )
}

/// Whether a value sets an effort.
pub open spec fn is_effort(v: JsonV) -> bool {
    is_record(v, 1) && slot(v, "effort"@, 0) matches Some(JsonV::Str(_))
}

/// The effort that a value sets, without what is not known.
pub open spec fn effort_of(v: JsonV) -> JsonV {
    JsonV::Object(with_some(Map::empty(), "effort"@, slot(v, "effort"@, 0)))
}

/// Whether a value holds settings for the model.
pub open spec fn is_fields(v: JsonV) -> bool {
    &&& is_record(v, 3)
    &&& non_null(slot(v, "thinking"@, 0)) matches Some(x) ==> is_thinking(x)
    &&& non_null(slot(v, "output_config"@, 1)) matches Some(x) ==> is_effort(x)
    &&& non_null(slot(v, "reasoning"@, 2)) matches Some(x) ==> is_effort(x)
}

/// What `f` makes of a value that may be there.
pub open spec fn opt_map(v: Option<JsonV>, f: spec_fn(JsonV) -> JsonV) -> Option<JsonV> {
    match v {
        Some(v) => Some(f(v)),
        None => None,
    }
}

/// The settings for the model that a value holds, without what is not known.
pub open spec fn fields_of(v: JsonV) -> JsonV {
    JsonV::Object(
        with_some(
            with_some(
                with_some(
                    Map::empty(),
                    "thinking"@,
                    opt_map(non_null(slot(v, "thinking"@, 0)), |x: JsonV| thinking_of(x)),
                ),
                "output_config"@,
                opt_map(non_null(slot(v, "output_config"@, 1)), |x: JsonV| effort_of(x)),
            ),
            "reasoning"@,
            opt_map(non_null(slot(v, "reasoning"@, 2)), |x: JsonV| effort_of(x)),
        ),
    )
}

/// Whether a value can be the state of a conversation. What the state holds is left open.
pub open spec fn is_state(v: JsonV) -> bool {
    v is Object || v is Array
}

/// Whether a value is a request to the upstream.
pub open spec fn is_request(v: JsonV) -> bool {
    &&& is_record(v, 3)
    &&& slot(v, "conversationState"@, 0) matches Some(x) && is_state(x)
    &&& maybe_text(slot(v, "profileArn"@, 1)) is Some
    &&& non_null(slot(v, "additionalModelRequestFields"@, 2)) matches Some(x) ==> is_fields(x)
}

/// The request to the upstream that a value holds, without what is not known.
pub open spec fn request_of(v: JsonV) -> JsonV {
    JsonV::Object(
        with_some(
            with_some(
                with_some(
                    Map::empty(),
                    "conversationState"@,
                    slot(v, "conversationState"@, 0),
                ),
                "profileArn"@,
                non_null(slot(v, "profileArn"@, 1)),
            ),
            "additionalModelRequestFields"@,
            opt_map(
                non_null(slot(v, "additionalModelRequestFields"@, 2)),
                |x: JsonV| fields_of(x),
            ),
        ),
    )
}

/// The field of a record, where it is not null.
fn get_slot<'a>(v: &'a Json, key: &str, i: usize) -> (r: Option<&'a Json>)
    ensures
        opt_value(r) == non_null(slot(v.view(), key@, i as int)),
{
    match v.slot(key, i) {
        None => None,
        Some(Json::Null) => None,
        Some(x) => Some(x),
    }
}

impl KiroThinkingConfig {
    /// Reads a setting for thinking, from an object or from the list of its fields.
    pub fn from_json(v: &Json) -> (r: Option<KiroThinkingConfig>)
        ensures
            r is Some <==> is_thinking(v.view()),
            r matches Some(t) ==> t.view() == thinking_of(v.view()),
    {
        if !v.is_record(2) {
            return None;
        }
        match (v.slot("type", 0), read_maybe(v.slot("display", 1))) {
            (Some(Json::Str(kind)), Some(display)) => Some(
                KiroThinkingConfig { thinking_type: kind.clone(), display },
            ),
            _ => None,
        }
    }
}

/// Reads an effort, from an object or from the list of its one field.
fn read_effort(v: &Json) -> (r: Option<String>)
    ensures
        r is Some <==> is_effort(v.view()),
        r matches Some(s) ==> effort_json(s@) == effort_of(v.view()),
{
    if !v.is_record(1) {
        return None;
    }
    match v.slot("effort", 0) {
        Some(Json::Str(effort)) => Some(effort.clone()),
        _ => None,
    }
}

/// Reads an effort that may be there; none where something else is there.
fn read_optional_effort(v: Option<&Json>) -> (r: Option<Option<String>>)
    ensures
        r is Some <==> (opt_value(v) matches Some(x) ==> is_effort(x)),
        r matches Some(e) ==> opt_map(opt_value(v), |x: JsonV| effort_of(x)) == (match e {
            Some(s) => Some(effort_json(s@)),
            None => None,
        }),
{
    match v {
        None => Some(None),
        Some(x) => match read_effort(x) {
            Some(effort) => Some(Some(effort)),
            None => None,
        },
    }
}

impl AdditionalModelRequestFields {
    /// Reads settings for the model, from an object or from the list of its fields; fields of an
    /// object that it does not know are passed over.
    pub fn from_json(v: &Json) -> (r: Option<AdditionalModelRequestFields>)
        ensures
            r is Some <==> is_fields(v.view()),
            r matches Some(f) ==> f.view() == fields_of(v.view()),
    {
        if !v.is_record(3) {
            return None;
        }
        let thinking = match get_slot(v, "thinking", 0) {
            None => None,
            Some(x) => match KiroThinkingConfig::from_json(x) {
                Some(t) => Some(t),
                None => {
                    return None;
                },
            },
        };
        let output_config = match read_optional_effort(get_slot(v, "output_config", 1)) {
            Some(Some(effort)) => Some(KiroOutputConfig { effort }),
            Some(None) => None,
            None => {
                return None;
            },
        };
        let reasoning = match read_optional_effort(get_slot(v, "reasoning", 2)) {
            Some(Some(effort)) => Some(KiroReasoningConfig { effort }),
            Some(None) => None,
            None => {
                return None;
            },
        };
        Some(AdditionalModelRequestFields { thinking, output_config, reasoning })
    }
}

impl KiroRequest {
    /// Reads a request to the upstream, from an object or from the list of its fields; fields of
    /// an object that it does not know are passed over.
    ///
    /// The state of the conversation is carried along: of it only that it is an object or a list
    /// is asked.
    pub fn from_json(v: &Json) -> (r: Option<KiroRequest>)
        ensures
            r is Some <==> is_request(v.view()),
            r matches Some(q) ==> q.view() == request_of(v.view()),
    {
        if !v.is_record(3) {
            return None;
        }
        let conversation_state = match v.slot("conversationState", 0) {
            Some(state) => match state {
                Json::Object(_) => state.copy(),
                Json::Array(_) => state.copy(),
                _ => {
                    return None;
                },
            },
            None => {
                return None;
            },
        };
        let profile_arn = match read_maybe(v.slot("profileArn", 1)) {
            Some(arn) => arn,
            None => {
                return None;
            },
        };
        let additional_model_request_fields = match get_slot(
            v,
            "additionalModelRequestFields",
            2,
        ) {
            None => None,
            Some(x) => match AdditionalModelRequestFields::from_json(x) {
                Some(fields) => Some(fields),
                None => {
                    return None;
                },
            },
        };
        Some(KiroRequest { conversation_state, profile_arn, additional_model_request_fields })
    }
}

/// The keys of requests are distinct.
proof fn lemma_request_keys()
    ensures
        "type"@ != "display"@,
        "thinking"@ != "output_config"@,
        "thinking"@ != "reasoning"@,
        "output_config"@ != "reasoning"@,
        "conversationState"@ != "profileArn"@,
        "conversationState"@ != "additionalModelRequestFields"@,
        "profileArn"@ != "additionalModelRequestFields"@,
{
    reveal_strlit("type");
    reveal_strlit("display");
    reveal_strlit("thinking");
    reveal_strlit("output_config");
    reveal_strlit("reasoning");
    reveal_strlit("conversationState");
    reveal_strlit("profileArn");
    reveal_strlit("additionalModelRequestFields");
    assert("type"@.len() == 4 && "display"@.len() == 7);
    assert("thinking"@.len() == 8 && "output_config"@.len() == 13 && "reasoning"@.len() == 9);
    assert("conversationState"@.len() == 17 && "profileArn"@.len() == 10);
    assert("additionalModelRequestFields"@.len() == 28);
}

proof fn lemma_thinking_reads_back(t: KiroThinkingConfig)
    ensures
        is_thinking(t.view()),
        thinking_of(t.view()) == t.view(),
{
    lemma_request_keys();
    assert(thinking_of(t.view())->Object_0 =~= t.view()->Object_0);
}

proof fn lemma_effort_reads_back(effort: Seq<char>)
    ensures
        is_effort(effort_json(effort)),
        effort_of(effort_json(effort)) == effort_json(effort),
{
    assert(effort_of(effort_json(effort))->Object_0 =~= effort_json(effort)->Object_0);
}

proof fn lemma_fields_read_back(f: AdditionalModelRequestFields)
    ensures
        is_fields(f.view()),
        fields_of(f.view()) == f.view(),
{
    lemma_request_keys();
    match f.thinking {
        Some(t) => {
            lemma_thinking_reads_back(t);
        },
        None => {},
    }
    match f.output_config {
        Some(c) => {
            lemma_effort_reads_back(c.effort@);
        },
        None => {},
    }
    match f.reasoning {
        Some(c) => {
            lemma_effort_reads_back(c.effort@);
        },
        None => {},
    }
    assert(fields_of(f.view())->Object_0 =~= f.view()->Object_0);
}

/// Reading a request that was written gives it back.
pub proof fn law_request_reads_back(q: KiroRequest)
    requires
        is_state(q.conversation_state.view()),
    ensures
        is_request(q.view()),
        request_of(q.view()) == q.view(),
{
    lemma_request_keys();
    match q.additional_model_request_fields {
        Some(f) => {
            lemma_fields_read_back(f);
        },
        None => {},
    }
    assert(request_of(q.view())->Object_0 =~= q.view()->Object_0);
}

/// What the payload of a reasoning event holds: its text, signature and held-back content.
pub open spec fn reasoning_payload(v: JsonV) -> Option<
    (Seq<char>, Option<Seq<char>>, Option<Seq<char>>),
> {
    if !(v is Object) {
        None
    } else {
        let text = match field(v, "text"@) {
            None => Some(Seq::<char>::empty()),
            Some(x) => string_of(x),
        };
        match (text, optional_text(v, "signature"@), optional_text(v, "redactedContent"@)) {
            (Some(text), Some(signature), Some(redacted)) => Some((text, signature, redacted)),
            _ => None,
        }
    }
}

impl ReasoningContentEvent {
    /// Reads the payload of a reasoning event; fields that it does not know are passed over.
    pub fn from_json(v: &Json) -> (r: Option<ReasoningContentEvent>)
        ensures
            r is Some <==> reasoning_payload(v.view()) is Some,
            r matches Some(e) ==> reasoning_payload(v.view()) == Some(
                (e.text@, opt_text(e.signature), opt_text(e.redacted_content)),
            ),
    {
        match v {
            Json::Object(_) => {},
            _ => {
                return None;
            },
        }
        let text = match v.get("text") {
            None => Some(String::new()),
            Some(Json::Str(s)) => Some(s.clone()),
            Some(_) => None,
        };
        let signature = read_maybe(v.get("signature"));
        let redacted_content = read_maybe(v.get("redactedContent"));
        match (text, signature, redacted_content) {
            (Some(text), Some(signature), Some(redacted_content)) => Some(
                ReasoningContentEvent { text, signature, redacted_content },
            ),
            _ => None,
        }
    }
}

/// A user's message, marked as coming from the command line.
pub open spec fn from_cli(message: JsonV) -> JsonV {
    match message {
        JsonV::Object(m) => if m.contains_key("origin"@) {
            JsonV::Object(m.insert("origin"@, JsonV::Str("KIRO_CLI"@)))
        } else {
            message
        },
        _ => message,
    }
}

/// `v` with the value under `key` replaced by `w`, where `v` is an object that has the key.
pub open spec fn replaced(v: JsonV, key: Seq<char>, w: JsonV) -> JsonV {
    match v {
        JsonV::Object(m) => if m.contains_key(key) {
            JsonV::Object(m.insert(key, w))
        } else {
            v
        },
        _ => v,
    }
}

/// What stands under `key`, or null.
pub open spec fn under(v: JsonV, key: Seq<char>) -> JsonV {
    match field(v, key) {
        Some(x) => x,
        None => JsonV::Null,
    }
}

/// An entry of a conversation, with its user's message marked.
pub open spec fn marked_entry(entry: JsonV) -> JsonV {
    replaced(entry, "userInputMessage"@, from_cli(under(entry, "userInputMessage"@)))
}

/// The history of a conversation, with its user's messages marked.
pub open spec fn marked_history(history: JsonV) -> JsonV {
    match history {
        JsonV::Array(items) => JsonV::Array(items.map_values(|e: JsonV| marked_entry(e))),
        _ => history,
    }
}

/// A conversation, with its user's messages marked.
pub open spec fn marked_state(state: JsonV) -> JsonV {
    let s1 = replaced(state, "currentMessage"@, marked_entry(under(state, "currentMessage"@)));
    replaced(s1, "history"@, marked_history(under(s1, "history"@)))
}

/// A request body, with its user's messages marked.
pub open spec fn marked_body(v: JsonV) -> JsonV {
    replaced(v, "conversationState"@, marked_state(under(v, "conversationState"@)))
}

/// A request body without the setting for thinking, which the command line does not send; and
/// without settings where none is left.
pub open spec fn without_thinking(v: JsonV) -> JsonV {
    match v {
        JsonV::Object(m) => match field(v, "additionalModelRequestFields"@) {
            Some(JsonV::Object(fields)) => {
                let rest = fields.remove("thinking"@);
                if rest == Map::<Seq<char>, JsonV>::empty() {
                    JsonV::Object(m.remove("additionalModelRequestFields"@))
                } else {
                    JsonV::Object(
                        m.insert("additionalModelRequestFields"@, JsonV::Object(rest)),
                    )
                }
            },
            _ => v,
        },
        _ => v,
    }
}

/// A request body as the command line would send it.
pub open spec fn cli_body(v: JsonV) -> JsonV {
    without_thinking(marked_body(v))
}

/// The text of a request body as the command line would send it; what is no JSON stays.
pub open spec fn cli_text(body: Seq<char>) -> Seq<char> {
    match parsed(body) {
        Reading::Value(v) => printed(cli_body(v)),
        Reading::Fault(_) => body,
    }
}

/// Marks a user's message as coming from the command line.
pub fn set_user_input_for_cli(message: Json) -> (r: Json)
    ensures
        r.view() == from_cli(message.view()),
{
    match message {
        Json::Object(o) => if o.has("origin") {
            Json::Object(o.with("origin", Json::text("KIRO_CLI")))
        } else {
            Json::Object(o)
        },
        other => other,
    }
}

/// Puts `w` back under a key that a value was taken from.
fn put_back(o: &mut JsonObject, key: &str, w: Json, Ghost(before): Ghost<Map<Seq<char>, JsonV>>)
    requires
        old(o).view() == before.remove(key@),
    ensures
        final(o).view() == before.insert(key@, w.view()),
{
    o.insert(key, w);
    assert(before.remove(key@).insert(key@, w.view()) =~= before.insert(key@, w.view()));
}

/// Marks the user's message of an entry.
fn mark_entry(entry: Json) -> (r: Json)
    ensures
        r.view() == marked_entry(entry.view()),
{
    match entry {
        Json::Object(o) => {
            let mut o = o;
            let ghost before = o.view();
            match o.take("userInputMessage") {
                Some(message) => {
                    let message = set_user_input_for_cli(message);
                    put_back(&mut o, "userInputMessage", message, Ghost(before));
                },
                None => {
                    assert(o.view() =~= before);
                },
            }
            Json::Object(o)
        },
        other => other,
    }
}

/// Marks the user's messages of a history.
fn mark_history(history: Json) -> (r: Json)
    ensures
        r.view() == marked_history(history.view()),
{
    match history {
        Json::Array(items) => {
            let ghost all = values(items@);
            let ghost wanted = all.map_values(|e: JsonV| marked_entry(e));
            proof {
                crate::json::lemma_array_view(items);
            }
            let mut rest = items;
            let mut out: Vec<Json> = Vec::new();
            let n = rest.len();
            let mut i: usize = 0;
            assert(all.skip(0) =~= all);
            assert(values(out@) =~= wanted.take(0));
            while i < n
                invariant
                    i <= n,
                    n == all.len(),
                    rest.len() == n - i,
                    values(rest@) == all.skip(i as int),
                    wanted == all.map_values(|e: JsonV| marked_entry(e)),
                    values(out@) == wanted.take(i as int),
                decreases n - i,
            {
                let ghost r0 = rest@;
                let entry = rest.remove(0);
                proof {
                    assert(values(r0)[0] == entry.view());
                    assert(values(rest@) =~= values(r0).remove(0));
                    assert(values(rest@) =~= all.skip(i + 1));
                }
                let entry = mark_entry(entry);
                proof {
                    crate::json::lemma_values_push(out@, entry);
                    assert(wanted.take(i + 1) =~= wanted.take(i as int).push(wanted[i as int]));
                }
                out.push(entry);
                i += 1;
            }
            assert(wanted.take(n as int) =~= wanted);
            Json::array(out)
        },
        other => other,
    }
}

/// Marks the user's messages of a conversation.
fn mark_state(state: Json) -> (r: Json)
    ensures
        r.view() == marked_state(state.view()),
{
    match state {
        Json::Object(o) => {
            let mut o = o;
            let ghost m0 = o.view();
            match o.take("currentMessage") {
                Some(entry) => {
                    let entry = mark_entry(entry);
                    put_back(&mut o, "currentMessage", entry, Ghost(m0));
                },
                None => {
                    assert(o.view() =~= m0);
                },
            }
            let ghost m1 = o.view();
            match o.take("history") {
                Some(history) => {
                    let history = mark_history(history);
                    put_back(&mut o, "history", history, Ghost(m1));
                },
                None => {
                    assert(o.view() =~= m1);
                },
            }
            Json::Object(o)
        },
        other => other,
    }
}

/// Marks the user's messages of a request body.
pub fn rewrite_origin_and_model(v: Json) -> (r: Json)
    ensures
        r.view() == marked_body(v.view()),
{
    match v {
        Json::Object(o) => {
            let mut o = o;
            let ghost before = o.view();
            match o.take("conversationState") {
                Some(state) => {
                    let state = mark_state(state);
                    put_back(&mut o, "conversationState", state, Ghost(before));
                },
                None => {
                    assert(o.view() =~= before);
                },
            }
            Json::Object(o)
        },
        other => other,
    }
}

/// Drops the setting for thinking.
pub fn strip_unsupported_cli_model_fields(v: Json) -> (r: Json)
    ensures
        r.view() == without_thinking(v.view()),
{
    match v {
        Json::Object(o) => {
            let mut o = o;
            let ghost before = o.view();
            match o.take("additionalModelRequestFields") {
                Some(Json::Object(fields)) => {
                    let mut fields = fields;
                    let _ = fields.take("thinking");
                    if !fields.is_empty() {
                        put_back(
                            &mut o,
                            "additionalModelRequestFields",
                            Json::Object(fields),
                            Ghost(before),
                        );
                    }
                },
                Some(other) => {
                    put_back(&mut o, "additionalModelRequestFields", other, Ghost(before));
                    assert(o.view() =~= before);
                },
                None => {
                    assert(o.view() =~= before);
                },
            }
            Json::Object(o)
        },
        other => other,
    }
}

/// Makes a request body what the command line would send.
pub fn rewrite_cli_json(v: Json) -> (r: Json)
    ensures
        r.view() == cli_body(v.view()),
{
    strip_unsupported_cli_model_fields(rewrite_origin_and_model(v))
}

/// Makes the text of a request body what the command line would send.
pub fn rewrite_cli_body(body: &str) -> (r: String)
    ensures
        r@ == cli_text(body@),
        parsed(body@) matches Reading::Value(v) ==> (rereadable(cli_body(v), 127) ==> parsed(r@)
            == Reading::Value(cli_body(v))),
{
    match Json::parse(body) {
        Ok(v) => rewrite_cli_json(v).to_text(),
        Err(_) => body.to_owned(),
    }
}

proof fn lemma_from_cli_settles(m: JsonV)
    ensures
        from_cli(from_cli(m)) == from_cli(m),
{
    match m {
        JsonV::Object(o) => {
            if o.contains_key("origin"@) {
                let once = o.insert("origin"@, JsonV::Str("KIRO_CLI"@));
                assert(once.insert("origin"@, JsonV::Str("KIRO_CLI"@)) =~= once);
            }
        },
        _ => {},
    }
}

proof fn lemma_replaced_settles(v: JsonV, key: Seq<char>, once: JsonV, twice: JsonV)
    requires
        twice == once,
    ensures
        replaced(replaced(v, key, once), key, twice) == replaced(v, key, once),
{
    match v {
        JsonV::Object(m) => {
            if m.contains_key(key) {
                assert(m.insert(key, once).insert(key, twice) =~= m.insert(key, once));
            }
        },
        _ => {},
    }
}

proof fn lemma_marked_entry_settles(e: JsonV)
    ensures
        marked_entry(marked_entry(e)) == marked_entry(e),
{
    let key = "userInputMessage"@;
    lemma_from_cli_settles(under(e, key));
    lemma_replaced_settles(
        e,
        key,
        from_cli(under(e, key)),
        from_cli(from_cli(under(e, key))),
    );
}

proof fn lemma_marked_history_settles(h: JsonV)
    ensures
        marked_history(marked_history(h)) == marked_history(h),
{
    match h {
        JsonV::Array(items) => {
            let once = items.map_values(|e: JsonV| marked_entry(e));
            let twice = once.map_values(|e: JsonV| marked_entry(e));
            assert forall|i: int| 0 <= i < items.len() implies twice[i] == once[i] by {
                lemma_marked_entry_settles(items[i]);
            }
            assert(twice =~= once);
        },
        _ => {},
    }
}

proof fn lemma_marked_state_settles(s: JsonV)
    ensures
        marked_state(marked_state(s)) == marked_state(s),
{
    reveal_strlit("currentMessage");
    reveal_strlit("history");
    assert("currentMessage"@.len() == 14 && "history"@.len() == 7);
    match s {
        JsonV::Object(m) => {
            let current = under(s, "currentMessage"@);
            let s1 = replaced(s, "currentMessage"@, marked_entry(current));
            let history = under(s1, "history"@);
            let s2 = marked_state(s);
            lemma_marked_entry_settles(current);
            lemma_marked_history_settles(history);
            let t1 = replaced(s2, "currentMessage"@, marked_entry(under(s2, "currentMessage"@)));
            assert(t1->Object_0 =~= s2->Object_0);
            let t2 = replaced(t1, "history"@, marked_history(under(t1, "history"@)));
            assert(t2->Object_0 =~= s2->Object_0);
        },
        _ => {},
    }
}

proof fn lemma_without_thinking_settles(v: JsonV)
    ensures
        without_thinking(without_thinking(v)) == without_thinking(v),
{
    match v {
        JsonV::Object(m) => match field(v, "additionalModelRequestFields"@) {
            Some(JsonV::Object(fields)) => {
                let rest = fields.remove("thinking"@);
                assert(rest.remove("thinking"@) =~= rest);
                let key = "additionalModelRequestFields"@;
                assert(m.insert(key, JsonV::Object(rest)).insert(key, JsonV::Object(rest))
                    =~= m.insert(key, JsonV::Object(rest)));
            },
            _ => {},
        },
        _ => {},
    }
}

/// Making a request body what the command line would send, a second time, changes nothing.
pub proof fn law_cli_rewriting_settles(v: JsonV)
    ensures
        cli_body(cli_body(v)) == cli_body(v),
{
    reveal_strlit("conversationState");
    reveal_strlit("additionalModelRequestFields");
    assert("conversationState"@.len() == 17 && "additionalModelRequestFields"@.len() == 28);
    let key = "conversationState"@;
    match v {
        JsonV::Object(m) => {
            let state = under(v, key);
            lemma_marked_state_settles(state);
            let v1 = marked_body(v);
            let v2 = without_thinking(v1);
            lemma_without_thinking_settles(v1);
            assert(field(v2, key) == field(v1, key));
            let again = marked_body(v2);
            assert(again->Object_0 =~= v2->Object_0);
        },
        _ => {},
    }
}

/// Of a request body the rewriting changes the origin of user's messages and the setting for
/// thinking alone. The model, the tools and all else, at every level, stay as they are.
pub proof fn law_cli_rewriting_changes_only_origin(v: JsonV, key: Seq<char>)
    ensures
        ({
            let w = cli_body(v);
            let (state, state_now) = (
                under(v, "conversationState"@),
                under(w, "conversationState"@),
            );
            let (entry, entry_now) = (
                under(state, "currentMessage"@),
                under(state_now, "currentMessage"@),
            );
            let (message, message_now) = (
                under(entry, "userInputMessage"@),
                under(entry_now, "userInputMessage"@),
            );
            let (settings, settings_now) = (
                under(v, "additionalModelRequestFields"@),
                under(w, "additionalModelRequestFields"@),
            );
            &&& key != "conversationState"@ && key != "additionalModelRequestFields"@
                ==> field(w, key) == field(v, key)
            &&& key != "currentMessage"@ && key != "history"@ ==> field(state_now, key) == field(
                state,
                key,
            )
            &&& key != "userInputMessage"@ ==> field(entry_now, key) == field(entry, key)
            &&& key != "origin"@ ==> field(message_now, key) == field(message, key)
            &&& key != "thinking"@ ==> field(settings_now, key) == field(settings, key)
        }),
{
    reveal_strlit("conversationState");
    reveal_strlit("additionalModelRequestFields");
    reveal_strlit("currentMessage");
    reveal_strlit("history");
    assert("conversationState"@.len() == 17 && "additionalModelRequestFields"@.len() == 28);
    assert("currentMessage"@.len() == 14 && "history"@.len() == 7);
    let v1 = marked_body(v);
    let w = cli_body(v);
    assert(field(w, "conversationState"@) == field(v1, "conversationState"@));
    match field(v1, "additionalModelRequestFields"@) {
        Some(JsonV::Object(fields)) => {
            let rest = fields.remove("thinking"@);
            if rest == Map::<Seq<char>, JsonV>::empty() && key != "thinking"@ {
                assert(!rest.contains_key(key));
            }
        },
        _ => {},
    }
}

/// The rewriting keeps the length of a history, and in each entry changes the origin of the
/// user's message alone.
pub proof fn law_cli_rewriting_keeps_history(history: Seq<JsonV>, i: int, key: Seq<char>)
    requires
        0 <= i < history.len(),
    ensures
        marked_history(JsonV::Array(history)) matches JsonV::Array(now) && {
            let (message, message_now) = (
                under(history[i], "userInputMessage"@),
                under(now[i], "userInputMessage"@),
            );
            &&& now.len() == history.len()
            &&& key != "userInputMessage"@ ==> field(now[i], key) == field(history[i], key)
            &&& key != "origin"@ ==> field(message_now, key) == field(message, key)
        },
{
}

/// Whether a value can take a profile under a key of its own.
pub open spec fn can_hold(v: JsonV) -> bool {
    v is Object || v is Null
}

/// A request body with the given profile.
pub open spec fn with_arn(v: JsonV, arn: Seq<char>) -> JsonV {
    match v {
        JsonV::Object(m) => JsonV::Object(m.insert("profileArn"@, JsonV::Str(arn))),
        _ => JsonV::Object(Map::empty().insert("profileArn"@, JsonV::Str(arn))),
    }
}

/// Whether a text can be given a profile: it is no JSON, and stays, or it is JSON that can take
/// one.
pub open spec fn takes_arn(body: Seq<char>, arn: Option<Seq<char>>) -> bool {
    arn is Some ==> (parsed(body) matches Reading::Value(v) ==> can_hold(v))
}

/// The text of a request body with the given profile; what is no JSON stays.
pub open spec fn arn_text(body: Seq<char>, arn: Option<Seq<char>>) -> Seq<char> {
    match (parsed(body), arn) {
        (Reading::Value(v), Some(arn)) => printed(with_arn(v, arn)),
        _ => body,
    }
}

/// Reading the text of a body that was given a profile gives the body with the profile.
pub open spec fn arn_reads_back(body: Seq<char>, arn: Option<Seq<char>>, text: Seq<char>) -> bool {
    match (parsed(body), arn) {
        (Reading::Value(v), Some(arn)) => rereadable(with_arn(v, arn), 127) ==> parsed(text)
            == Reading::Value(with_arn(v, arn)),
        _ => true,
    }
}

/// Gives a request body a profile, in place of the one that it has.
pub fn set_profile_arn(v: Json, arn: &str) -> (r: Json)
    requires
        can_hold(v.view()),
    ensures
        r.view() == with_arn(v.view(), arn@),
{
    match v {
        Json::Object(o) => Json::Object(o.with("profileArn", Json::text(arn))),
        _ => Json::Object(JsonObject::new().with("profileArn", Json::text(arn))),
    }
}

/// Gives the text of a request body a profile, where there is one.
pub fn inject_profile_arn(request_body: &str, profile_arn: &Option<String>) -> (r: String)
    requires
        takes_arn(request_body@, opt_text(*profile_arn)),
    ensures
        r@ == arn_text(request_body@, opt_text(*profile_arn)),
        arn_reads_back(request_body@, opt_text(*profile_arn), r@),
{
    match profile_arn {
        Some(arn) => match Json::parse(request_body) {
            Ok(v) => set_profile_arn(v, arn.as_str()).to_text(),
            Err(_) => request_body.to_owned(),
        },
        None => request_body.to_owned(),
    }
}

/// Gives the text of a request body a profile; none where it is JSON that cannot take one.
pub fn try_inject_profile_arn(request_body: &str, profile_arn: &Option<String>) -> (r: Option<
    String,
>)
    ensures
        r is Some <==> takes_arn(request_body@, opt_text(*profile_arn)),
        r matches Some(s) ==> s@ == arn_text(request_body@, opt_text(*profile_arn))
            && arn_reads_back(request_body@, opt_text(*profile_arn), s@),
{
    if profile_arn.is_some() {
        if let Ok(v) = Json::parse(request_body) {
            match v {
                Json::Object(_) => {},
                Json::Null => {},
                _ => {
                    return None;
                },
            }
        }
    }
    Some(inject_profile_arn(request_body, profile_arn))
}

/// The profile that is given last holds, and nothing else of a request body changes.
pub proof fn law_last_arn_holds(v: JsonV, first: Seq<char>, last: Seq<char>, key: Seq<char>)
    ensures
        with_arn(with_arn(v, first), last) == with_arn(v, last),
        string_field(with_arn(v, last), "profileArn"@) == Some(last),
        key != "profileArn"@ ==> field(with_arn(v, last), key) == field(v, key),
{
    let k = "profileArn"@;
    match v {
        JsonV::Object(m) => {
            assert(m.insert(k, JsonV::Str(first)).insert(k, JsonV::Str(last)) =~= m.insert(
                k,
                JsonV::Str(last),
            ));
        },
        _ => {
            let m = Map::<Seq<char>, JsonV>::empty();
            assert(m.insert(k, JsonV::Str(first)).insert(k, JsonV::Str(last)) =~= m.insert(
                k,
                JsonV::Str(last),
            ));
        },
    }
}

/// The setting for thinking that goes with a level of effort.
pub open spec fn summarized_thinking() -> JsonV {
    JsonV::Object(
        Map::empty().insert("type"@, JsonV::Str("adaptive"@)).insert(
            "display"@,
            JsonV::Str("summarized"@),
        ),
    )
}

/// Whether a request body sets a level of effort without a setting for thinking.
pub open spec fn wants_thinking(v: JsonV) -> bool {
    match field(v, "additionalModelRequestFields"@) {
        Some(JsonV::Object(fields)) => fields.contains_key("output_config"@)
            && !fields.contains_key("thinking"@),
        _ => false,
    }
}

/// A request body with the setting for thinking that goes with its level of effort.
pub open spec fn ide_body(v: JsonV) -> JsonV {
    match v {
        JsonV::Object(m) => if wants_thinking(v) {
            let fields = m["additionalModelRequestFields"@]->Object_0;
            JsonV::Object(
                m.insert(
                    "additionalModelRequestFields"@,
                    JsonV::Object(fields.insert("thinking"@, summarized_thinking())),
                ),
            )
        } else {
            v
        },
        _ => v,
    }
}

/// The text of a request body as the editor would send it; where nothing is missing, and where
/// it is no JSON, it stays as it is.
pub open spec fn ide_text(body: Seq<char>) -> Seq<char> {
    match parsed(body) {
        Reading::Value(v) => if wants_thinking(v) {
            printed(ide_body(v))
        } else {
            body
        },
        Reading::Fault(_) => body,
    }
}

/// Adds the setting for thinking that goes with a level of effort; none where nothing is missing.
pub fn add_ide_thinking(v: Json) -> (r: Option<Json>)
    ensures
        r is Some <==> wants_thinking(v.view()),
        r matches Some(w) ==> w.view() == ide_body(v.view()),
{
    match v {
        Json::Object(o) => {
            let mut o = o;
            let ghost before = o.view();
            match o.take("additionalModelRequestFields") {
                Some(Json::Object(fields)) => {
                    if !fields.has("output_config") || fields.has("thinking") {
                        return None;
                    }
                    let thinking = JsonObject::new().with("type", Json::text("adaptive")).with(
                        "display",
                        Json::text("summarized"),
                    );
                    let fields = fields.with("thinking", Json::Object(thinking));
                    put_back(
                        &mut o,
                        "additionalModelRequestFields",
                        Json::Object(fields),
                        Ghost(before),
                    );
                    Some(Json::Object(o))
                },
                _ => None,
            }
        },
        _ => None,
    }
}

/// Adds the setting for thinking that goes with a level of effort.
pub fn inject_ide_thinking_fields(request_body: &str) -> (r: String)
    ensures
        r@ == ide_text(request_body@),
        parsed(request_body@) matches Reading::Value(v) ==> (rereadable(ide_body(v), 127)
            ==> parsed(r@) == Reading::Value(ide_body(v))),
{
    match Json::parse(request_body) {
        Ok(v) => match add_ide_thinking(v) {
            Some(w) => w.to_text(),
            None => request_body.to_owned(),
        },
        Err(_) => request_body.to_owned(),
    }
}

/// Adding the setting for thinking a second time changes nothing, and a setting that is there
/// is kept.
pub proof fn law_ide_thinking_settles(v: JsonV)
    ensures
        !wants_thinking(ide_body(v)),
        ide_body(ide_body(v)) == ide_body(v),
        !wants_thinking(v) ==> ide_body(v) == v,
{
}

/// What the editor's rewriting adds to a request body, the command line's takes out: behind it
/// nothing shows whether the editor's came before.
pub proof fn law_cli_rewriting_undoes_ide_thinking(v: JsonV)
    ensures
        cli_body(ide_body(v)) == cli_body(v),
{
    if wants_thinking(v) {
        lemma_request_keys();
        let key = "additionalModelRequestFields"@;
        let m = v->Object_0;
        let fields = m[key]->Object_0;
        let added = fields.insert("thinking"@, summarized_thinking());
        assert(added.remove("thinking"@) =~= fields.remove("thinking"@));
        let marked = marked_body(v);
        let marked_ide = marked_body(ide_body(v));
        assert(marked_ide->Object_0 =~= marked->Object_0.insert(key, JsonV::Object(added)));
        let rest = JsonV::Object(fields.remove("thinking"@));
        assert(marked_ide->Object_0.remove(key) =~= marked->Object_0.remove(key));
        assert(marked_ide->Object_0.insert(key, rest) =~= marked->Object_0.insert(key, rest));
    }
}

} // verus!
