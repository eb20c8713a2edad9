//! Web search on behalf of the model: search, hand the results back, and ask again.

use crate::accounting::{success, AttemptOutcome, Closing, ClosingV};
use crate::errors::{map_provider_error, provider_error, ErrorResponse, ErrorV};
use crate::gather::{push_calls, push_redacted, push_text, redacted_blocks, text_blocks};
use crate::gather::{call_blocks, thinking_blocks, unless_empty, usage_input, GatheredV, Gatherer};
use crate::json::{string_field, values, Json, JsonObject, JsonV};
use crate::request::{message_views, Message, MessageV, MessagesRequest, RequestV};
use crate::sse;
use crate::sse::{ping_frame, tool_use_json};
use crate::state::opt_text;
use crate::stream::opt_int;
use crate::text;
use crate::text_map::TextMap;
use crate::tokens::{split, CacheUsage};
use crate::tool_json::{calls, error_text, finish_step, CompletedToolUse, CompletedV, FinishV};
use crate::tool_json::{PendingV, ToolJsonAccumulator};
use crate::xml_filter::{strip_tool_use_xml_leaks, stripped};
use vstd::prelude::*;

verus! {

/// How often the model may search before it has to answer.
pub const MAX_WEB_SEARCH_ROUNDS: usize = 5;

/// A tool call with all of its arguments.
pub type DecodedToolUse = CompletedToolUse;

/// What one round of the loop brought.
pub struct RoundV {
    pub text: Seq<char>,
    pub reasoning: Seq<char>,
    pub redacted: Seq<char>,
    pub calls: Seq<CompletedV>,
    pub context_input_tokens: Option<int>,
    pub stop_reason: Option<Seq<char>>,
    pub stream_error: bool,
    pub error: Option<Seq<char>>,
}

/// What one round of the loop brought.
#[derive(Debug)]
pub struct RoundOutcome {
    pub text: String,
    pub reasoning: String,
    /// Reasoning that the upstream holds back.
    pub redacted_reasoning: String,
    pub tool_uses: Vec<DecodedToolUse>,
    pub context_input_tokens: Option<i32>,
    /// The reason for the end of the message, where the upstream gave one.
    pub stop_reason_override: Option<String>,
    /// Whether the response broke off.
    pub stream_error: bool,
    /// Why a tool call cannot be used.
    pub tool_json_error: Option<String>,
}

/// Ending a round: leaked markup is dropped, and the pending tool calls are settled.
pub open spec fn round_end(
    r: RoundV,
    pending: Seq<PendingV>,
    names: Map<Seq<char>, String>,
) -> RoundV {
    let r1 = RoundV { text: stripped(r.text), ..r };
    if r1.error is Some {
        r1
    } else {
        match finish_step(pending, names).1 {
            FinishV::Done(more) => RoundV { calls: r1.calls + more, ..r1 },
            FinishV::Failed(e) => RoundV { error: Some(error_text(e)), ..r1 },
        }
    }
}

/// A round, as far as it was gathered.
pub open spec fn unfinished_round(g: GatheredV, stream_error: bool) -> RoundV {
    RoundV {
        text: g.text,
        reasoning: g.reasoning,
        redacted: g.redacted,
        calls: g.calls,
        context_input_tokens: g.context_input_tokens,
        stop_reason: g.stop_reason,
        stream_error,
        error: match g.error {
            Some(e) => Some(error_text(e)),
            None => None,
        },
    }
}

impl RoundOutcome {
    pub open spec fn view(&self) -> RoundV {
        RoundV {
            text: self.text@,
            reasoning: self.reasoning@,
            redacted: self.redacted_reasoning@,
            calls: calls(self.tool_uses@),
            context_input_tokens: opt_int(self.context_input_tokens),
            stop_reason: opt_text(self.stop_reason_override),
            stream_error: self.stream_error,
            error: opt_text(self.tool_json_error),
        }
    }

    /// Ends a round with the tool calls that are still pending.
    pub fn from_tool_accumulator_finish(
        tool_accumulator: ToolJsonAccumulator,
        tool_name_map: &TextMap<String>,
        outcome: RoundOutcome,
    ) -> (r: RoundOutcome)
        ensures
            r.view() == round_end(outcome.view(), tool_accumulator.view(), tool_name_map.view()),
    {
        let mut acc = tool_accumulator;
        let mut outcome = outcome;
        outcome.text = strip_tool_use_xml_leaks(outcome.text.as_str());
        if outcome.tool_json_error.is_none() {
            match acc.finish(tool_name_map) {
                Ok(more) => {
                    let mut more = more;
                    let ghost before = outcome.tool_uses@;
                    let ghost added = more@;
                    outcome.tool_uses.append(&mut more);
                    assert(calls(outcome.tool_uses@) =~= calls(before) + calls(added));
                },
                Err(e) => {
                    outcome.tool_json_error = Some(e.message());
                },
            }
        }
        outcome
    }
}

/// Makes a round out of what was gathered of the response.
pub fn decode_round(
    gathered: Gatherer,
    stream_error: bool,
    tool_name_map: &TextMap<String>,
) -> (r: RoundOutcome)
    ensures
        r.view() == round_end(
            unfinished_round(gathered.view(), stream_error),
            gathered.view().pending,
            tool_name_map.view(),
        ),
{
    let tool_json_error = match &gathered.tool_json_error {
        Some(e) => Some(e.message()),
        None => None,
    };
    RoundOutcome::from_tool_accumulator_finish(
        gathered.tool_accumulator,
        tool_name_map,
        RoundOutcome {
            text: gathered.text,
            reasoning: gathered.reasoning,
            redacted_reasoning: gathered.redacted_reasoning,
            tool_uses: gathered.tool_uses,
            context_input_tokens: gathered.context_input_tokens,
            stop_reason_override: gathered.stop_reason,
            stream_error,
            tool_json_error,
        },
    )
}

/// What a search is for.
pub open spec fn query_of(call: CompletedV) -> Seq<char> {
    match string_field(call.input, "query"@) {
        Some(query) => query,
        None => Seq::empty(),
    }
}

impl CompletedToolUse {
    /// What a search is for.
    pub fn query(&self) -> (r: String)
        ensures
            r@ == query_of(self.view()),
    {
        match self.input.get_str("query") {
            Some(query) => query.to_owned(),
            None => String::new(),
        }
    }
}

/// Every call of a round is a search, and there is one.
pub open spec fn only_searches(calls: Seq<CompletedV>) -> bool {
    calls.len() > 0 && forall|i: int|
        0 <= i < calls.len() ==> (#[trigger] calls[i]).name == "web_search"@
}

/// Whether the loop goes on behind round `round_idx`.
pub open spec fn searches_again(round_idx: int, calls: Seq<CompletedV>) -> bool {
    only_searches(calls) && round_idx < MAX_WEB_SEARCH_ROUNDS
}

/// Whether the loop goes on: every call of the round is a search, and the limit is not reached.
pub fn should_search_round(round_idx: usize, tool_uses: &Vec<DecodedToolUse>) -> (r: bool)
    ensures
        r == searches_again(round_idx as int, calls(tool_uses@)),
{
    let ghost all = calls(tool_uses@);
    if tool_uses.len() == 0 {
        return false;
    }
    let mut i: usize = 0;
    while i < tool_uses.len()
        invariant
            i <= tool_uses.len(),
            all == calls(tool_uses@),
            forall|j: int| 0 <= j < i ==> (#[trigger] all[j]).name == "web_search"@,
        decreases tool_uses.len() - i,
    {
        assert(all[i as int] == tool_uses@[i as int].view());
        if !text::same(tool_uses[i].name.as_str(), "web_search") {
            return false;
        }
        i += 1;
    }
    round_idx < MAX_WEB_SEARCH_ROUNDS
}

/// Whatever the upstream asks for, the loop stops at its limit at the latest.
pub proof fn law_loop_stops(rounds: Seq<Seq<CompletedV>>)
    requires
        rounds.len() > MAX_WEB_SEARCH_ROUNDS,
    ensures
        exists|k: int|
            0 <= k <= MAX_WEB_SEARCH_ROUNDS && !searches_again(k, #[trigger] rounds[k]),
{
    let k = MAX_WEB_SEARCH_ROUNDS as int;
    assert(!searches_again(k, rounds[k]));
}

/// Why a round cannot be used: how the client is told, and how the trace is booked.
pub struct RoundFailureV {
    pub response: ErrorV,
    pub trace_status: Seq<char>,
    /// The class of the failure, where it is not that of the last attempt.
    pub error_type: Option<AttemptOutcome>,
}

/// Why a round cannot be used.
#[derive(Debug)]
pub struct RoundFailure {
    pub response: ErrorResponse,
    pub trace_status: String,
    pub error_type: Option<AttemptOutcome>,
}

impl RoundFailure {
    pub open spec fn view(&self) -> RoundFailureV {
        RoundFailureV {
            response: self.response.view(),
            trace_status: self.trace_status@,
            error_type: self.error_type,
        }
    }
}

/// What is recorded of a round that cannot be used, where `last` is the class of the last
/// attempt's failure.
pub open spec fn round_closing(
    f: RoundFailureV,
    input_tokens: int,
    last: Option<AttemptOutcome>,
) -> ClosingV {
    ClosingV {
        counts: (input_tokens, 0, 0, 0),
        status: "error"@,
        trace_status: f.trace_status,
        error_type: match f.error_type {
            Some(class) => Some(class),
            None => last,
        },
        error_message: Some(f.response.message),
        interrupted_after_bytes: None,
        traces_counts: false,
    }
}

impl RoundFailure {
    /// What is recorded of the round, where `last` is the class of the last attempt's failure.
    pub fn closing(&self, input_tokens: i32, last: Option<AttemptOutcome>) -> (r: Closing)
        ensures
            r.view() == round_closing(self.view(), input_tokens as int, last),
    {
        Closing {
            counts: (input_tokens, 0, 0, 0),
            status: "error".to_owned(),
            trace_status: self.trace_status.clone(),
            error_type: match self.error_type {
                Some(class) => Some(class),
                None => last,
            },
            error_message: Some(self.response.message.clone()),
            interrupted_after_bytes: None,
            traces_counts: false,
        }
    }
}

/// Why a round cannot be used, where it cannot.
pub open spec fn round_failure(r: RoundV) -> Option<RoundFailureV> {
    match r.error {
        Some(message) => Some(
            RoundFailureV {
                response: ErrorV {
                    status: 502,
                    error_type: "upstream_tool_json_error"@,
                    message,
                },
                trace_status: "error"@,
                error_type: None,
            },
        ),
        None => if r.stream_error {
            Some(
                RoundFailureV {
                    response: ErrorV {
                        status: 502,
                        error_type: "upstream_error"@,
                        message: "Upstream response stream ended unexpectedly during the web_search loop."@,
                    },
                    trace_status: "interrupted"@,
                    error_type: Some(AttemptOutcome::StreamInterrupted),
                },
            )
        } else {
            None
        },
    }
}

/// A failure that may be there.
pub open spec fn opt_failure(f: Option<RoundFailure>) -> Option<RoundFailureV> {
    match f {
        Some(f) => Some(f.view()),
        None => None,
    }
}

/// Tells whether a round can be used; one that broke off, or holds a call that cannot be used,
/// cannot.
pub fn check_round(round: &RoundOutcome) -> (r: Option<RoundFailure>)
    ensures
        opt_failure(r) == round_failure(round.view()),
{
    if let Some(message) = &round.tool_json_error {
        return Some(
            RoundFailure {
                response: ErrorResponse::new(502, "upstream_tool_json_error", message.as_str()),
                trace_status: "error".to_owned(),
                error_type: None,
            },
        );
    }
    if round.stream_error {
        return Some(
            RoundFailure {
                response: ErrorResponse::new(
                    502,
                    "upstream_error",
                    "Upstream response stream ended unexpectedly during the web_search loop.",
                ),
                trace_status: "interrupted".to_owned(),
                error_type: Some(AttemptOutcome::StreamInterrupted),
            },
        );
    }
    None
}

/// One hit of a search.
#[derive(Debug)]
pub struct WebSearchResult {
    pub title: String,
    pub url: String,
    pub snippet: Option<String>,
    /// Milliseconds since the epoch.
    pub published_date: Option<i64>,
    pub id: Option<String>,
    pub domain: Option<String>,
    pub max_verbatim_word_limit: Option<i32>,
    pub public_domain: Option<bool>,
}

/// The hits of a search.
#[derive(Debug)]
pub struct WebSearchResults {
    pub results: Vec<WebSearchResult>,
    pub total_results: Option<i32>,
    pub query: Option<String>,
    pub error: Option<String>,
}

/// How the date of a page is written: month, day and year.
pub const PAGE_DATE_FORMAT: &'static str = "%B %-d, %Y";

/// The date that `chrono` writes, in a format, for a number of milliseconds since the epoch.
pub uninterp spec fn formatted_date(ms: int, format: Seq<char>) -> Option<Seq<char>>;

/// Calls `chrono::DateTime::from_timestamp_millis` and, for the date, `format`, which does not
/// take every format.
///
/// The result is named: `formatted_date` of the number and the format, which is none where the
/// number is out of the range of dates.
#[verifier::external_body]
fn write_date(ms: i64, format: &str) -> (r: Option<String>)
    requires
        format@ == PAGE_DATE_FORMAT@,
    ensures
        opt_text(r) == formatted_date(ms as int, format@),
{
    chrono::DateTime::from_timestamp_millis(ms).map(|date| date.format(format).to_string())
}

/// A text, or null.
pub open spec fn text_or_null(s: Option<Seq<char>>) -> JsonV {
    match s {
        Some(s) => JsonV::Str(s),
        None => JsonV::Null,
    }
}

/// A hit as the client gets it, with the date of its page in words.
pub open spec fn hit_json(
    title: Seq<char>,
    url: Seq<char>,
    snippet: Seq<char>,
    page_age: Option<Seq<char>>,
) -> JsonV {
    JsonV::Object(
        Map::empty().insert("type"@, JsonV::Str("web_search_result"@)).insert(
            "title"@,
            JsonV::Str(title),
        ).insert("url"@, JsonV::Str(url)).insert("encrypted_content"@, JsonV::Str(snippet)).insert(
            "page_age"@,
            text_or_null(page_age),
        ),
    )
}

/// A text, empty where there is none.
pub open spec fn text_or_empty(s: Option<String>) -> Seq<char> {
    match s {
        Some(s) => s@,
        None => Seq::empty(),
    }
}

/// The date of a page in words.
pub open spec fn page_age(published: Option<i64>) -> Option<Seq<char>> {
    match published {
        Some(ms) => formatted_date(ms as int, PAGE_DATE_FORMAT@),
        None => None,
    }
}

/// A hit as the client gets it.
pub open spec fn hit_of(item: WebSearchResult) -> JsonV {
    hit_json(item.title@, item.url@, text_or_empty(item.snippet), page_age(item.published_date))
}

/// The hits of a search as the client gets them.
pub open spec fn hits_of(results: Option<WebSearchResults>) -> Seq<JsonV> {
    match results {
        Some(r) => r.results@.map_values(|item: WebSearchResult| hit_of(item)),
        None => Seq::empty(),
    }
}

/// Gives a hit to the client, with the date of its page in words.
pub fn result_item(item: &WebSearchResult, age: Option<String>) -> (r: Json)
    ensures
        r.view() == hit_json(
            item.title@,
            item.url@,
            text_or_empty(item.snippet),
            opt_text(age),
        ),
{
    let snippet = match &item.snippet {
        Some(snippet) => Json::text(snippet.as_str()),
        None => {
            let empty = String::new();
            Json::Str(empty)
        },
    };
    let page_age = match age {
        Some(age) => Json::Str(age),
        None => Json::Null,
    };
    Json::Object(
        JsonObject::new().with("type", Json::text("web_search_result")).with(
            "title",
            Json::text(item.title.as_str()),
        ).with("url", Json::text(item.url.as_str())).with("encrypted_content", snippet).with(
            "page_age",
            page_age,
        ),
    )
}

/// Gives the hits of a search to the client.
pub fn build_result_block(results: &Option<WebSearchResults>) -> (r: Vec<Json>)
    ensures
        values(r@) == hits_of(*results),
{
    let ghost all = hits_of(*results);
    let mut out: Vec<Json> = Vec::new();
    assert(values(out@) =~= Seq::empty());
    if let Some(found) = results {
        let mut i: usize = 0;
        assert(values(out@) =~= all.take(0));
        while i < found.results.len()
            invariant
                i <= found.results.len(),
                all == hits_of(*results),
                *results == Some(*found),
                values(out@) == all.take(i as int),
            decreases found.results.len() - i,
        {
            let age = match found.results[i].published_date {
                Some(ms) => write_date(ms, PAGE_DATE_FORMAT),
                None => None,
            };
            let hit = result_item(&found.results[i], age);
            proof {
                crate::json::lemma_values_push(out@, hit);
                assert(all[i as int] == hit_of(found.results@[i as int]));
                assert(all.take(i + 1) =~= all.take(i as int).push(all[i as int]));
            }
            out.push(hit);
            i += 1;
        }
        assert(all.take(found.results.len() as int) =~= all);
    }
    out
}

/// A search that was made: what it found, what the model is told of it, and the id under which
/// the client sees it.
#[derive(Debug)]
pub struct Searched {
    pub results: Option<WebSearchResults>,
    pub summary: String,
    pub server_tool_id: String,
}

/// What the model is told of a search.
pub open spec fn tool_result_json(id: Seq<char>, summary: Seq<char>) -> JsonV {
    JsonV::Object(
        Map::empty().insert("type"@, JsonV::Str("tool_result"@)).insert(
            "tool_use_id"@,
            JsonV::Str(id),
        ).insert("content"@, JsonV::Str(summary)),
    )
}

/// A search as the client sees it.
pub open spec fn server_tool_json(id: Seq<char>, query: Seq<char>) -> JsonV {
    JsonV::Object(
        Map::empty().insert("type"@, JsonV::Str("server_tool_use"@)).insert(
            "id"@,
            JsonV::Str(id),
        ).insert("name"@, JsonV::Str("web_search"@)).insert(
            "input"@,
            JsonV::Object(Map::empty().insert("query"@, JsonV::Str(query))),
        ),
    )
}

/// What a search found, as the client sees it.
pub open spec fn server_result_json(hits: Seq<JsonV>) -> JsonV {
    JsonV::Object(
        Map::empty().insert("type"@, JsonV::Str("web_search_tool_result"@)).insert(
            "content"@,
            JsonV::Array(hits),
        ),
    )
}

/// The content of a round, as the history holds it.
pub open spec fn round_blocks(r: RoundV, thinking_enabled: bool) -> Seq<JsonV> {
    (if thinking_enabled {
        thinking_blocks(unless_empty(r.reasoning)) + redacted_blocks(r.redacted)
    } else {
        Seq::empty()
    }) + text_blocks(r.text) + call_blocks(r.calls)
}

/// What the model is told of the searches of a round; `n` of them.
pub open spec fn told(calls: Seq<CompletedV>, searched: Seq<Searched>, n: int) -> Seq<JsonV>
    decreases n,
{
    if n <= 0 {
        Seq::empty()
    } else {
        told(calls, searched, n - 1).push(
            tool_result_json(calls[n - 1].id, searched[n - 1].summary@),
        )
    }
}

/// What the client sees of the searches of a round; `n` of them.
pub open spec fn shown(calls: Seq<CompletedV>, searched: Seq<Searched>, n: int) -> Seq<JsonV>
    decreases n,
{
    if n <= 0 {
        Seq::empty()
    } else {
        shown(calls, searched, n - 1).push(
            server_tool_json(searched[n - 1].server_tool_id@, query_of(calls[n - 1])),
        ).push(server_result_json(hits_of(searched[n - 1].results)))
    }
}

/// The lesser of two lengths.
pub open spec fn lesser(a: nat, b: nat) -> int {
    if a <= b {
        a as int
    } else {
        b as int
    }
}

/// The request with a round and its searches added to the history: what the model said, and
/// what it is told.
pub open spec fn with_round(
    p: RequestV,
    r: RoundV,
    searched: Seq<Searched>,
    thinking_enabled: bool,
) -> RequestV {
    let n = lesser(r.calls.len(), searched.len());
    RequestV {
        messages: p.messages.push(
            MessageV {
                role: "assistant"@,
                content: JsonV::Array(round_blocks(r, thinking_enabled)),
            },
        ).push(
            MessageV { role: "user"@, content: JsonV::Array(told(r.calls, searched, n)) },
        ),
        ..p
    }
}

impl RoundOutcome {
    /// The content of the round.
    pub fn content(&self, thinking_enabled: bool) -> (r: Vec<Json>)
        ensures
            values(r@) == round_blocks(self.view(), thinking_enabled),
    {
        let mut content: Vec<Json> = Vec::new();
        assert(values(content@) =~= Seq::empty());
        if thinking_enabled {
            if !self.reasoning.as_str().is_empty() {
                let block = sse::thinking_block(
                    self.reasoning.as_str(),
                    sse::THINKING_SIGNATURE_PLACEHOLDER,
                );
                proof {
                    crate::json::lemma_values_push(content@, block);
                }
                content.push(block);
            }
            assert(values(content@) =~= thinking_blocks(unless_empty(self.reasoning@)));
            push_redacted(&mut content, self.redacted_reasoning.as_str());
            assert(values(content@) =~= thinking_blocks(unless_empty(self.reasoning@))
                + redacted_blocks(self.redacted_reasoning@));
        }
        push_text(&mut content, self.text.as_str());
        push_calls(&mut content, &self.tool_uses);
        content
    }
}

/// Adds a round and its searches to the history, and the searches to what the client sees.
pub fn append_search_round(
    payload: &mut MessagesRequest,
    round: &RoundOutcome,
    searched: &Vec<Searched>,
    presentation: &mut Vec<Json>,
    thinking_enabled: bool,
)
    ensures
        final(payload).view() == with_round(
            old(payload).view(),
            round.view(),
            searched@,
            thinking_enabled,
        ),
        values(final(presentation)@) == values(old(presentation)@) + shown(
            round.view().calls,
            searched@,
            lesser(round.view().calls.len(), searched@.len()),
        ),
{
    let ghost said = round.view().calls;
    let ghost p0 = payload.view();
    let assistant = round.content(thinking_enabled);
    let ghost m0 = payload.messages@;
    payload.messages.push(
        Message { role: "assistant".to_owned(), content: Json::array(assistant) },
    );
    let ghost m1 = payload.messages@;
    assert(message_views(m1) =~= message_views(m0).push(m1.last().view()));
    let mut user: Vec<Json> = Vec::new();
    let mut i: usize = 0;
    assert(values(user@) =~= told(said, searched@, 0));
    assert(values(presentation@) =~= values(presentation@) + shown(said, searched@, 0));
    while i < round.tool_uses.len() && i < searched.len()
        invariant
            i <= round.tool_uses.len(),
            i <= searched.len(),
            said == calls(round.tool_uses@),
            values(user@) == told(said, searched@, i as int),
            values(presentation@) == values(old(presentation)@) + shown(
                said,
                searched@,
                i as int,
            ),
        decreases round.tool_uses.len() - i,
    {
        assert(said[i as int] == round.tool_uses@[i as int].view());
        let query = round.tool_uses[i].query();
        let result = Json::Object(
            JsonObject::new().with("type", Json::text("tool_result")).with(
                "tool_use_id",
                Json::text(round.tool_uses[i].id.as_str()),
            ).with("content", Json::text(searched[i].summary.as_str())),
        );
        proof {
            crate::json::lemma_values_push(user@, result);
        }
        user.push(result);
        let input = Json::Object(
            JsonObject::new().with("query", Json::text(query.as_str())),
        );
        let call = Json::Object(
            JsonObject::new().with("type", Json::text("server_tool_use")).with(
                "id",
                Json::text(searched[i].server_tool_id.as_str()),
            ).with("name", Json::text("web_search")).with("input", input),
        );
        let hits = build_result_block(&searched[i].results);
        let found = Json::Object(
            JsonObject::new().with("type", Json::text("web_search_tool_result")).with(
                "content",
                Json::array(hits),
            ),
        );
        let ghost v0 = values(presentation@);
        proof {
            crate::json::lemma_values_push(presentation@, call);
            crate::json::lemma_values_push(presentation@.push(call), found);
        }
        presentation.push(call);
        presentation.push(found);
        proof {
            assert(values(presentation@) == v0.push(call.view()).push(found.view()));
            assert(values(presentation@) =~= values(old(presentation)@) + shown(
                said,
                searched@,
                i + 1,
            ));
        }
        i += 1;
    }
    assert(i == lesser(said.len(), searched@.len()));
    payload.messages.push(Message { role: "user".to_owned(), content: Json::array(user) });
    let ghost m2 = payload.messages@;
    assert(message_views(m2) =~= message_views(m1).push(m2.last().view()));
}

/// A search loop between two rounds.
pub struct LoopV {
    pub payload: RequestV,
    pub presentation: Seq<JsonV>,
    pub round_idx: int,
    pub credential_id: int,
    pub context_input_tokens: Option<int>,
    pub thinking_enabled: bool,
    pub fallback_input_tokens: int,
}

/// A search loop between two rounds.
pub struct SearchLoop {
    pub payload: MessagesRequest,
    pub presentation: Vec<Json>,
    pub round_idx: usize,
    pub credential_id: u64,
    pub context_input_tokens: Option<i32>,
    pub thinking_enabled: bool,
    pub fallback_input_tokens: i32,
}

/// The answer that a search loop leads to, but for its output count.
pub struct LoopDraft {
    pub model: String,
    pub content: Vec<Json>,
    pub stop_reason: String,
    /// New input, cache writes and cache reads.
    pub counts: (i32, i32, i32),
    pub credential_id: u64,
}

impl LoopDraft {
    /// What is recorded of the answer, with its output count.
    pub fn closing(&self, output_tokens: i32) -> (r: Closing)
        ensures
            r.view() == success(
                (
                    self.counts.0 as int,
                    output_tokens as int,
                    self.counts.1 as int,
                    self.counts.2 as int,
                ),
            ),
    {
        Closing::success((self.counts.0, output_tokens, self.counts.1, self.counts.2))
    }
}

/// The reason for the end of the message.
pub open spec fn loop_stop_reason(r: RoundV) -> Seq<char> {
    match r.stop_reason {
        Some(reason) => reason,
        None => if r.calls.len() == 0 {
            "end_turn"@
        } else {
            "tool_use"@
        },
    }
}

/// The number that came last.
pub open spec fn latest(new: Option<int>, before: Option<int>) -> Option<int> {
    match new {
        Some(n) => Some(n),
        None => before,
    }
}

/// A loop behind the searches of one more round.
pub open spec fn search_step(l: LoopV, r: RoundV, searched: Seq<Searched>) -> LoopV {
    LoopV {
        payload: with_round(l.payload, r, searched, l.thinking_enabled),
        presentation: l.presentation + shown(
            r.calls,
            searched,
            lesser(r.calls.len(), searched.len()),
        ),
        round_idx: l.round_idx + 1,
        ..l
    }
}

/// A loop behind the searches of several rounds.
pub open spec fn search_steps(l: LoopV, rounds: Seq<(RoundV, Seq<Searched>)>) -> LoopV
    decreases rounds.len(),
{
    if rounds.len() == 0 {
        l
    } else {
        let (r, searched) = rounds.last();
        search_step(search_steps(l, rounds.drop_last()), r, searched)
    }
}

/// Searching only adds: however often the model searches, the client's messages stay as they
/// are, in front of two new ones for each round; nothing else of the request changes; and what
/// the client was to see of earlier searches stays in front of what it sees of later ones.
pub proof fn law_searching_only_adds(l: LoopV, rounds: Seq<(RoundV, Seq<Searched>)>)
    ensures
        ({
            let m = search_steps(l, rounds);
            let n = l.payload.messages.len() as int;
            let k = l.presentation.len() as int;
            &&& m.payload.messages.len() == n + 2 * rounds.len()
            &&& m.payload.messages.take(n) == l.payload.messages
            &&& (RequestV { messages: l.payload.messages, ..m.payload }) == l.payload
            &&& k <= m.presentation.len()
            &&& m.presentation.take(k) == l.presentation
            &&& m.round_idx == l.round_idx + rounds.len()
            &&& m.fallback_input_tokens == l.fallback_input_tokens
        }),
    decreases rounds.len(),
{
    let n = l.payload.messages.len() as int;
    let k = l.presentation.len() as int;
    if rounds.len() == 0 {
        assert(l.payload.messages.take(n) =~= l.payload.messages);
        assert(l.presentation.take(k) =~= l.presentation);
    } else {
        law_searching_only_adds(l, rounds.drop_last());
        let before = search_steps(l, rounds.drop_last());
        let m = search_steps(l, rounds);
        assert(m.payload.messages.take(n) =~= before.payload.messages.take(n));
        assert(m.presentation.take(k) =~= before.presentation.take(k));
    }
}

/// What the loop does behind a round.
#[derive(Debug)]
pub enum LoopAction {
    /// Search, for each of these.
    Search(Vec<String>),
    /// Answer the client.
    Answer,
}

/// What the searches of a round are for.
pub open spec fn queries(calls: Seq<CompletedV>) -> Seq<Seq<char>> {
    calls.map_values(|c: CompletedV| query_of(c))
}

impl SearchLoop {
    pub open spec fn view(&self) -> LoopV {
        LoopV {
            payload: self.payload.view(),
            presentation: values(self.presentation@),
            round_idx: self.round_idx as int,
            credential_id: self.credential_id as int,
            context_input_tokens: opt_int(self.context_input_tokens),
            thinking_enabled: self.thinking_enabled,
            fallback_input_tokens: self.fallback_input_tokens as int,
        }
    }

    /// A loop before its first round.
    pub fn new(payload: MessagesRequest, fallback_input_tokens: i32) -> (r: SearchLoop)
        ensures
            r.view() == (LoopV {
                payload: payload.view(),
                presentation: Seq::empty(),
                round_idx: 0,
                credential_id: 0,
                context_input_tokens: None,
                thinking_enabled: crate::request::thinks(payload.view().thinking),
                fallback_input_tokens: fallback_input_tokens as int,
            }),
    {
        let thinking_enabled = payload.thinking_enabled();
        let presentation: Vec<Json> = Vec::new();
        assert(values(presentation@) =~= Seq::empty());
        SearchLoop {
            payload,
            presentation,
            round_idx: 0,
            credential_id: 0,
            context_input_tokens: None,
            thinking_enabled,
            fallback_input_tokens,
        }
    }

    /// Takes in a round, and decides what comes next.
    pub fn on_round(&mut self, round: &RoundOutcome, credential_id: u64) -> (r: LoopAction)
        ensures
            final(self).view() == (LoopV {
                credential_id: credential_id as int,
                context_input_tokens: latest(
                    round.view().context_input_tokens,
                    old(self).view().context_input_tokens,
                ),
                ..old(self).view()
            }),
            r is Search <==> searches_again(old(self).view().round_idx, round.view().calls),
            r matches LoopAction::Search(q) ==> crate::session::texts(q@) == queries(
                round.view().calls,
            ),
    {
        self.credential_id = credential_id;
        if round.context_input_tokens.is_some() {
            self.context_input_tokens = round.context_input_tokens;
        }
        if !should_search_round(self.round_idx, &round.tool_uses) {
            return LoopAction::Answer;
        }
        let ghost all = queries(round.view().calls);
        let mut out: Vec<String> = Vec::new();
        let mut i: usize = 0;
        assert(crate::session::texts(out@) =~= all.take(0));
        while i < round.tool_uses.len()
            invariant
                i <= round.tool_uses.len(),
                all == queries(calls(round.tool_uses@)),
                crate::session::texts(out@) == all.take(i as int),
            decreases round.tool_uses.len() - i,
        {
            let ghost before = out@;
            let query = round.tool_uses[i].query();
            out.push(query);
            proof {
                assert(crate::session::texts(out@) =~= crate::session::texts(before).push(query@));
                assert(calls(round.tool_uses@)[i as int] == round.tool_uses@[i as int].view());
                assert(all.take(i + 1) =~= all.take(i as int).push(all[i as int]));
            }
            i += 1;
        }
        assert(all.take(round.tool_uses.len() as int) =~= all);
        LoopAction::Search(out)
    }

    /// Takes in the searches of a round.
    pub fn on_searched(&mut self, round: &RoundOutcome, searched: &Vec<Searched>)
        requires
            old(self).view().round_idx < MAX_WEB_SEARCH_ROUNDS,
        ensures
            final(self).view() == search_step(old(self).view(), round.view(), searched@),
    {
        append_search_round(
            &mut self.payload,
            round,
            searched,
            &mut self.presentation,
            self.thinking_enabled,
        );
        self.round_idx = self.round_idx + 1;
    }

    /// Tells the client of a search that failed, which ends the loop.
    pub fn on_search_failed(&self, error: &str) -> (r: ErrorResponse)
        ensures
            r.view() == provider_error(error@),
    {
        map_provider_error(error)
    }

    /// Makes the answer out of the last round.
    pub fn answer(self, round: &RoundOutcome, cache_usage: CacheUsage) -> (r: LoopDraft)
        ensures
            r.model@ == self.view().payload.model,
            values(r.content@) == self.view().presentation + round_blocks(
                round.view(),
                self.view().thinking_enabled,
            ),
            r.stop_reason@ == loop_stop_reason(round.view()),
            crate::gather::int_counts(r.counts) == split(
                cache_usage,
                usage_input(
                    self.view().fallback_input_tokens,
                    self.view().context_input_tokens,
                ),
            ),
            r.credential_id == self.credential_id,
    {
        let stop_reason = match &round.stop_reason_override {
            Some(reason) => reason.clone(),
            None => if round.tool_uses.len() == 0 {
                "end_turn".to_owned()
            } else {
                "tool_use".to_owned()
            },
        };
        let total = crate::gather::resolve_usage_input_tokens(
            self.fallback_input_tokens,
            self.context_input_tokens,
        );
        let counts = cache_usage.split_against_total(total);
        let mut content = self.presentation;
        let mut more = round.content(self.thinking_enabled);
        let ghost a = content@;
        let ghost b = more@;
        content.append(&mut more);
        assert(values(content@) =~= values(a) + values(b));
        LoopDraft {
            model: self.payload.model,
            content,
            stop_reason,
            counts,
            credential_id: self.credential_id,
        }
    }
}

/// A tool call that is no search ends the loop, and is in the answer as it came.
pub proof fn law_client_tools_are_returned(
    round_idx: int,
    r: RoundV,
    presentation: Seq<JsonV>,
    thinking_enabled: bool,
    i: int,
)
    requires
        0 <= i < r.calls.len(),
        r.calls[i].name != "web_search"@,
    ensures
        !searches_again(round_idx, r.calls),
        (presentation + round_blocks(r, thinking_enabled)).contains(
            tool_use_json(r.calls[i].id, r.calls[i].name, r.calls[i].input),
        ),
{
    let blocks = round_blocks(r, thinking_enabled);
    let tools = call_blocks(r.calls);
    let k = blocks.len() - tools.len() + i;
    assert(blocks[k] == tools[i]);
    assert((presentation + blocks)[presentation.len() + k] == tools[i]);
}

proof fn lemma_told(calls: Seq<CompletedV>, searched: Seq<Searched>, n: int)
    requires
        0 <= n,
    ensures
        told(calls, searched, n).len() == n,
        forall|i: int|
            0 <= i < n ==> #[trigger] told(calls, searched, n)[i] == tool_result_json(
                calls[i].id,
                searched[i].summary@,
            ),
    decreases n,
{
    if n > 0 {
        lemma_told(calls, searched, n - 1);
    }
}

/// In the history every search has its result: the last two messages are what the model said,
/// with its searches, and one result for each search, in the same order.
pub proof fn law_each_search_has_its_result(
    p: RequestV,
    r: RoundV,
    searched: Seq<Searched>,
    thinking_enabled: bool,
    i: int,
)
    requires
        searched.len() == r.calls.len(),
        0 <= i < r.calls.len(),
    ensures
        ({
            let messages = with_round(p, r, searched, thinking_enabled).messages;
            let n = p.messages.len() as int;
            &&& messages.len() == n + 2
            &&& messages.take(n) == p.messages
            &&& messages[n].role == "assistant"@
            &&& messages[n + 1].role == "user"@
            &&& messages[n].content matches JsonV::Array(said) && said.contains(
                tool_use_json(r.calls[i].id, r.calls[i].name, r.calls[i].input),
            )
            &&& messages[n + 1].content matches JsonV::Array(results) && results.len()
                == r.calls.len() && results[i] == tool_result_json(
                r.calls[i].id,
                searched[i].summary@,
            )
        }),
{
    let messages = with_round(p, r, searched, thinking_enabled).messages;
    let n = p.messages.len() as int;
    lemma_told(r.calls, searched, r.calls.len() as int);
    assert(messages.take(n) =~= p.messages);
    let said = round_blocks(r, thinking_enabled);
    let tools = call_blocks(r.calls);
    assert(said[said.len() - tools.len() + i] == tools[i]);
}

/// Where a streamed search loop stands: whether the client has been told that it has begun.
#[derive(Debug)]
pub struct StreamFirstByteMarker {
    pub started: bool,
}

impl StreamFirstByteMarker {
    pub fn new() -> (r: StreamFirstByteMarker)
        ensures
            !r.started,
    {
        StreamFirstByteMarker { started: false }
    }

    /// The upstream has sent something: the first time, the client is told with a frame that the
    /// answer has begun.
    pub fn mark_first_upstream_chunk(&mut self) -> (r: Option<String>)
        ensures
            final(self).started,
            opt_text(r) == (if old(self).started {
                None
            } else {
                Some(ping_frame())
            }),
    {
        if self.started {
            return None;
        }
        self.started = true;
        Some(sse::create_ping_sse())
    }

    /// The answer is about to go out: tells whether the client is yet to be told that it has
    /// begun.
    pub fn mark_started_before_final_flush(&mut self) -> (r: bool)
        ensures
            final(self).started,
            r == !old(self).started,
    {
        let first = !self.started;
        self.started = true;
        first
    }

    /// The loop has failed: tells whether the client can still be given an error response.
    pub fn fail_before_start(&mut self) -> (r: bool)
        ensures
            final(self).started,
            r == !old(self).started,
    {
        let first = !self.started;
        self.started = true;
        first
    }
}

} // verus!
