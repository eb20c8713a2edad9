//! What a search loop does with each round and each search, whatever the model asks for.

use crate::accounting::{AttemptOutcome, Closing};
use crate::answer_laws::{any_failed, held_back, if_shown, lays_out, lemma_gathered_all_error};
use crate::answer_laws::{lemma_gathered_all_texts, lemma_round_blocks, pieces, reasoning_texts};
use crate::answer_laws::response_calls;
use crate::delivery_laws::content_of;
use crate::errors::{map_provider_error, ErrorResponse};
use crate::events::Event;
use crate::gather::{event_views, nothing_gathered, Gatherer};
use crate::json::{field, string_field, values, Json, JsonV};
use crate::request::{MessagesRequest, RequestV};
use crate::search_loop::{build_result_block, check_round, decode_round, hit_of, hits_of};
use crate::search_loop::{server_result_json, server_tool_json, shown, told, tool_result_json};
use crate::search_loop::{LoopAction, LoopDraft, RoundFailure, RoundOutcome, SearchLoop, Searched};
use crate::search_loop::{StreamFirstByteMarker, WebSearchResult, WebSearchResults};
use crate::text::begins;
use crate::text_map::TextMap;
use crate::tool_json::{calls, finish_step, pushed, CompletedToolUse};
use crate::xml_filter::stripped;
use vstd::prelude::*;

verus! {

/// What a call searches for.
pub open spec fn asked(call: CompletedToolUse) -> Seq<char> {
    match string_field(call.input.view(), "query"@) {
        Some(query) => query,
        None => Seq::empty(),
    }
}

/// The loop searches behind a round if and only if the round has calls, all of them are searches,
/// and fewer than five rounds have searched before; it then searches for what each call asks, in
/// their order. A round changes nothing else of the loop than the credential, and the input count
/// where the upstream tells one.
pub proof fn law_loop_searches_for_what_is_asked(
    l: &mut SearchLoop,
    round: RoundOutcome,
    credential_id: u64,
    r: LoopAction,
)
    requires
        call_ensures(SearchLoop::on_round, (l, &round, credential_id), r),
    ensures
        r is Search <==> round.tool_uses@.len() > 0 && old(l).round_idx < 5 && forall|i: int|
            0 <= i < round.tool_uses@.len() ==> (#[trigger] round.tool_uses@[i]).name@
                == "web_search"@,
        r matches LoopAction::Search(queries) ==> queries@.len() == round.tool_uses@.len()
            && forall|i: int|
            0 <= i < queries@.len() ==> (#[trigger] queries@[i])@ == asked(round.tool_uses@[i]),
        final(l).credential_id == credential_id,
        round.context_input_tokens is Some ==> final(l).context_input_tokens
            == round.context_input_tokens,
        round.context_input_tokens is None ==> final(l).context_input_tokens
            == old(l).context_input_tokens,
        final(l).view().payload == old(l).view().payload,
        final(l).view().presentation == old(l).view().presentation,
        final(l).round_idx == old(l).round_idx,
        final(l).thinking_enabled == old(l).thinking_enabled,
        final(l).fallback_input_tokens == old(l).fallback_input_tokens,
{
    let all = calls(round.tool_uses@);
    assert(forall|i: int|
        0 <= i < all.len() ==> (#[trigger] all[i]) == round.tool_uses@[i].view());
    if r is Search {
        assert forall|i: int| 0 <= i < round.tool_uses@.len() implies (
        #[trigger] round.tool_uses@[i]).name@ == "web_search"@ by {
            assert(all[i].name == "web_search"@);
        }
    }
    if let LoopAction::Search(queries) = r {
        let texts = crate::session::texts(queries@);
        assert(texts.len() == queries@.len());
        assert forall|i: int| 0 <= i < queries@.len() implies (#[trigger] queries@[i])@ == asked(
            round.tool_uses@[i],
        ) by {
            assert(texts[i] == queries@[i]@);
            assert(all[i] == round.tool_uses@[i].view());
        }
    }
}

/// What a search found, as the client sees it: its title, its address, what was read of it, and
/// the date of the page, each under its own name.
pub open spec fn is_hit(hit: JsonV, item: WebSearchResult) -> bool {
    &&& string_field(hit, "type"@) == Some("web_search_result"@)
    &&& string_field(hit, "title"@) == Some(item.title@)
    &&& string_field(hit, "url"@) == Some(item.url@)
    &&& item.snippet matches Some(snippet) ==> string_field(hit, "encrypted_content"@) == Some(
        snippet@,
    )
    &&& item.snippet is None ==> string_field(hit, "encrypted_content"@) == Some(
        Seq::<char>::empty(),
    )
    &&& item.published_date is None ==> field(hit, "page_age"@) == Some(JsonV::Null)
    &&& item.published_date matches Some(ms) ==> field(hit, "page_age"@) == Some(
        match crate::search_loop::formatted_date(ms as int, "%B %-d, %Y"@) {
            Some(date) => JsonV::Str(date),
            None => JsonV::Null,
        },
    )
}

/// All that a search found, in its order; nothing where it brought no answer.
pub open spec fn are_hits(hits: Seq<JsonV>, results: Option<WebSearchResults>) -> bool {
    match results {
        Some(found) => hits.len() == found.results@.len() && forall|i: int|
            0 <= i < hits.len() ==> is_hit(#[trigger] hits[i], found.results@[i]),
        None => hits.len() == 0,
    }
}

proof fn lemma_hits(results: Option<WebSearchResults>)
    ensures
        are_hits(hits_of(results), results),
{
    reveal_strlit("type");
    reveal_strlit("title");
    reveal_strlit("url");
    reveal_strlit("encrypted_content");
    reveal_strlit("page_age");
    assert("type"@.len() == 4 && "title"@.len() == 5 && "url"@.len() == 3
        && "encrypted_content"@.len() == 17 && "page_age"@.len() == 8);
    if let Some(found) = results {
        let hits = hits_of(results);
        assert forall|i: int| 0 <= i < hits.len() implies is_hit(
            #[trigger] hits[i],
            found.results@[i],
        ) by {
            assert(hits[i] == hit_of(found.results@[i]));
        }
    }
}

/// The client gets every hit of a search, in its order.
pub proof fn law_every_hit_is_shown(results: Option<WebSearchResults>, r: Vec<Json>)
    requires
        call_ensures(build_result_block, (&results,), r),
    ensures
        are_hits(values(r@), results),
{
    lemma_hits(results);
}

/// What the model is told of a search: under the id of its call, what was found.
pub open spec fn is_result_for(block: JsonV, call: CompletedToolUse, searched: Searched) -> bool {
    &&& string_field(block, "type"@) == Some("tool_result"@)
    &&& string_field(block, "tool_use_id"@) == Some(call.id@)
    &&& string_field(block, "content"@) == Some(searched.summary@)
}

/// A search as the client sees it: what was searched for, under the id that the client knows it
/// by.
pub open spec fn is_search_shown(block: JsonV, call: CompletedToolUse, searched: Searched) -> bool {
    &&& string_field(block, "type"@) == Some("server_tool_use"@)
    &&& string_field(block, "id"@) == Some(searched.server_tool_id@)
    &&& string_field(block, "name"@) == Some("web_search"@)
    &&& field(block, "input"@) matches Some(input) && string_field(input, "query"@) == Some(
        asked(call),
    )
}

/// What a search found, as the client sees it.
pub open spec fn is_found_shown(block: JsonV, searched: Searched) -> bool {
    &&& string_field(block, "type"@) == Some("web_search_tool_result"@)
    &&& field(block, "content"@) matches Some(JsonV::Array(hits)) && are_hits(
        hits,
        searched.results,
    )
}

proof fn lemma_search_keys()
    ensures
        forall|id: Seq<char>, summary: Seq<char>|
            {
                let block = #[trigger] tool_result_json(id, summary);
                string_field(block, "type"@) == Some("tool_result"@) && string_field(
                    block,
                    "tool_use_id"@,
                ) == Some(id) && string_field(block, "content"@) == Some(summary)
            },
        forall|id: Seq<char>, query: Seq<char>|
            {
                let block = #[trigger] server_tool_json(id, query);
                string_field(block, "type"@) == Some("server_tool_use"@) && string_field(
                    block,
                    "id"@,
                ) == Some(id) && string_field(block, "name"@) == Some("web_search"@) && (field(
                    block,
                    "input"@,
                ) matches Some(input) && string_field(input, "query"@) == Some(query))
            },
        forall|hits: Seq<JsonV>|
            {
                let block = #[trigger] server_result_json(hits);
                string_field(block, "type"@) == Some("web_search_tool_result"@) && field(
                    block,
                    "content"@,
                ) == Some(JsonV::Array(hits))
            },
{
    reveal_strlit("type");
    reveal_strlit("tool_use_id");
    reveal_strlit("content");
    reveal_strlit("id");
    reveal_strlit("name");
    reveal_strlit("input");
    assert("type"@.len() == 4 && "tool_use_id"@.len() == 11 && "content"@.len() == 7 && "id"@.len()
        == 2 && "name"@.len() == 4 && "input"@.len() == 5);
    assert("type"@[0] == 't' && "name"@[0] == 'n');
}

proof fn lemma_told_and_shown(round: RoundOutcome, searched: Seq<Searched>, n: int)
    requires
        0 <= n <= round.tool_uses@.len(),
        n <= searched.len(),
    ensures
        told(calls(round.tool_uses@), searched, n).len() == n,
        shown(calls(round.tool_uses@), searched, n).len() == 2 * n,
        forall|i: int|
            0 <= i < n ==> is_result_for(
                #[trigger] told(calls(round.tool_uses@), searched, n)[i],
                round.tool_uses@[i],
                searched[i],
            ),
        forall|i: int|
            0 <= i < n ==> is_search_shown(
                shown(calls(round.tool_uses@), searched, n)[2 * i],
                #[trigger] round.tool_uses@[i],
                searched[i],
            ) && is_found_shown(
                shown(calls(round.tool_uses@), searched, n)[2 * i + 1],
                searched[i],
            ),
    decreases n,
{
    if n > 0 {
        lemma_told_and_shown(round, searched, n - 1);
        lemma_search_keys();
        lemma_hits(searched[n - 1].results);
        let all = calls(round.tool_uses@);
        assert(all[n - 1] == round.tool_uses@[n - 1].view());
        let before = shown(all, searched, n - 1);
        let now = shown(all, searched, n);
        assert(now[2 * (n - 1)] == server_tool_json(
            searched[n - 1].server_tool_id@,
            asked(round.tool_uses@[n - 1]),
        ));
        assert(now[2 * (n - 1) + 1] == server_result_json(hits_of(searched[n - 1].results)));
        assert forall|i: int| 0 <= i < n implies is_search_shown(
            now[2 * i],
            #[trigger] round.tool_uses@[i],
            searched[i],
        ) && is_found_shown(now[2 * i + 1], searched[i]) by {
            if i < n - 1 {
                assert(now[2 * i] == before[2 * i]);
                assert(now[2 * i + 1] == before[2 * i + 1]);
            }
        }
        assert forall|i: int| 0 <= i < n implies is_result_for(
            #[trigger] told(all, searched, n)[i],
            round.tool_uses@[i],
            searched[i],
        ) by {
            if i < n - 1 {
                assert(told(all, searched, n)[i] == told(all, searched, n - 1)[i]);
            }
        }
    }
}

/// Behind the searches of a round, the model gets to read the round as it was, and for each call,
/// under its id, what was found for it; the client gets to see, behind what it was to see before,
/// for each call what was searched for and then what was found. The request is otherwise the
/// same, and the loop is one round further.
pub proof fn law_searches_are_told_and_shown(
    l: &mut SearchLoop,
    round: RoundOutcome,
    searched: Vec<Searched>,
)
    requires
        call_ensures(SearchLoop::on_searched, (l, &round, &searched), ()),
        searched@.len() == round.tool_uses@.len(),
    ensures
        ({
            let before = old(l).view();
            let after = final(l).view();
            let n = before.payload.messages.len() as int;
            let k = before.presentation.len() as int;
            &&& after.round_idx == before.round_idx + 1
            &&& after.payload == (RequestV { messages: after.payload.messages, ..before.payload })
            &&& after.payload.messages.len() == n + 2
            &&& after.payload.messages.take(n) == before.payload.messages
            &&& after.payload.messages[n].role == "assistant"@
            &&& after.payload.messages[n].content matches JsonV::Array(blocks) && lays_out(
                blocks,
                if_shown(before.thinking_enabled, round.reasoning@),
                if_shown(before.thinking_enabled, round.redacted_reasoning@),
                round.text@,
                calls(round.tool_uses@),
            )
            &&& after.payload.messages[n + 1].role == "user"@
            &&& after.payload.messages[n + 1].content matches JsonV::Array(results)
                && results.len() == searched@.len() && forall|i: int|
                0 <= i < searched@.len() ==> is_result_for(
                    results[i],
                    #[trigger] round.tool_uses@[i],
                    searched@[i],
                )
            &&& after.presentation.len() == k + 2 * searched@.len()
            &&& after.presentation.take(k) == before.presentation
            &&& forall|i: int|
                0 <= i < searched@.len() ==> is_search_shown(
                    after.presentation[k + 2 * i],
                    #[trigger] round.tool_uses@[i],
                    searched@[i],
                ) && is_found_shown(after.presentation[k + 2 * i + 1], searched@[i])
            &&& after.credential_id == before.credential_id
            &&& after.context_input_tokens == before.context_input_tokens
            &&& after.thinking_enabled == before.thinking_enabled
            &&& after.fallback_input_tokens == before.fallback_input_tokens
        }),
{
    let before = old(l).view();
    let after = final(l).view();
    let n = before.payload.messages.len() as int;
    let k = before.presentation.len() as int;
    let m = searched@.len() as int;
    lemma_round_blocks(round, before.thinking_enabled);
    lemma_told_and_shown(round, searched@, m);
    let more = shown(calls(round.tool_uses@), searched@, m);
    assert(after.payload.messages.take(n) =~= before.payload.messages);
    assert(after.presentation == before.presentation + more);
    assert(after.presentation.take(k) =~= before.presentation);
    assert forall|i: int| 0 <= i < searched@.len() implies is_search_shown(
        after.presentation[k + 2 * i],
        #[trigger] round.tool_uses@[i],
        searched@[i],
    ) && is_found_shown(after.presentation[k + 2 * i + 1], searched@[i]) by {
        assert(after.presentation[k + 2 * i] == more[2 * i]);
        assert(after.presentation[k + 2 * i + 1] == more[2 * i + 1]);
    }
    let results = told(calls(round.tool_uses@), searched@, m);
    assert forall|i: int| 0 <= i < searched@.len() implies is_result_for(
        results[i],
        #[trigger] round.tool_uses@[i],
        searched@[i],
    ) by {
        assert(is_result_for(results[i], round.tool_uses@[i], searched@[i]));
    }
}

/// A round that holds a call which cannot be used is told to the client as such, with what is
/// wrong with it; one that broke off is told as broken off; any other one can be used.
pub proof fn law_only_whole_rounds_are_used(round: RoundOutcome, r: Option<RoundFailure>)
    requires
        call_ensures(check_round, (&round,), r),
    ensures
        r is None <==> round.tool_json_error is None && !round.stream_error,
        r matches Some(f) ==> f.response.status == 502,
        round.tool_json_error matches Some(message) ==> (r matches Some(f)
            && f.response.error_type@ == "upstream_tool_json_error"@ && f.response.message@
            == message@ && f.trace_status@ == "error"@ && f.error_type is None),
        round.tool_json_error is None && round.stream_error ==> (r matches Some(f)
            && f.response.error_type@ == "upstream_error"@ && begins(
            f.response.message@,
            "Upstream response stream ended unexpectedly"@,
        ) && f.trace_status@ == "interrupted"@
            && f.error_type == Some(AttemptOutcome::StreamInterrupted)),
{
    let m = "Upstream response stream ended unexpectedly during the web_search loop."@;
    reveal_strlit("Upstream response stream ended unexpectedly during the web_search loop.");
    reveal_strlit("Upstream response stream ended unexpectedly");
    assert(m.take(43) =~= "Upstream response stream ended unexpectedly"@);
}

/// A round that cannot be used is recorded as an error, with the message that the client gets
/// and with no more than the estimate of the input; its class is its own, or else that of the last
/// attempt's failure.
pub proof fn law_unusable_round_is_recorded(
    f: RoundFailure,
    input_tokens: i32,
    last: Option<AttemptOutcome>,
    r: Closing,
)
    requires
        call_ensures(RoundFailure::closing, (&f, input_tokens, last), r),
    ensures
        r.counts == (input_tokens, 0i32, 0i32, 0i32),
        r.status@ == "error"@,
        r.trace_status@ == f.trace_status@,
        r.error_type == (if f.error_type is Some {
            f.error_type
        } else {
            last
        }),
        r.error_message matches Some(m) && m@ == f.response.message@,
        r.interrupted_after_bytes is None,
        !r.traces_counts,
{
}

/// A round holds the response of the upstream: the content in a row, leaked markup aside, the
/// texts of its reasoning in a row, what it holds back of it, and the tool calls. It is marked as
/// broken off where the response was.
pub proof fn law_round_holds_the_response(
    g: &mut Gatherer,
    events: Vec<Event>,
    names: TextMap<String>,
    stream_error: bool,
    round: RoundOutcome,
)
    requires
        old(g).view() == nothing_gathered(),
        call_ensures(Gatherer::take_all, (g, &events, &names), ()),
        call_ensures(decode_round, (*final(g), stream_error, &names), round),
    ensures
        ({
            let all = event_views(events@);
            &&& round.text@ == stripped(content_of(all))
            &&& round.reasoning@ == reasoning_texts(all)
            &&& round.redacted_reasoning@ == held_back(all)
            &&& round.stream_error == stream_error
            &&& round.tool_json_error is None ==> calls(round.tool_uses@) == response_calls(
                all,
                names.view(),
            )
            &&& round.tool_json_error is None <==> !any_failed(pieces(all), names.view())
                && finish_step(
                pushed(Seq::empty(), pieces(all), names.view()),
                names.view(),
            ).1 is Done
        }),
{
    let all = event_views(events@);
    lemma_gathered_all_texts(all, names.view());
    lemma_gathered_all_error(all, names.view());
    let r = round.view();
    assert(round.tool_json_error is Some <==> r.error is Some);
}

/// A streamed search loop tells the client once that its answer has begun: at the first chunk of
/// the upstream, and never again.
pub proof fn law_client_is_told_once_of_the_beginning(
    m: &mut StreamFirstByteMarker,
    first: Option<String>,
    after: &mut StreamFirstByteMarker,
    second: Option<String>,
)
    requires
        call_ensures(StreamFirstByteMarker::mark_first_upstream_chunk, (m,), first),
        *old(after) == *final(m),
        call_ensures(StreamFirstByteMarker::mark_first_upstream_chunk, (after,), second),
    ensures
        second is None,
        first is Some <==> !old(m).started,
        first matches Some(frame) ==> frame@ == "event: ping\ndata: {\"type\": \"ping\"}\n\n"@,
        final(m).started,
{
}

/// An error response can be given as long as nothing has gone out, and no longer: neither behind
/// the first chunk, nor behind the answer, nor a second time.
pub proof fn law_error_response_only_before_the_beginning(
    m: &mut StreamFirstByteMarker,
    first: Option<String>,
    flushed: &mut StreamFirstByteMarker,
    unsent: bool,
    failed: &mut StreamFirstByteMarker,
    can_respond: bool,
    again: &mut StreamFirstByteMarker,
    still_can: bool,
)
    requires
        call_ensures(StreamFirstByteMarker::mark_first_upstream_chunk, (m,), first),
        call_ensures(
            StreamFirstByteMarker::mark_started_before_final_flush,
            (flushed,),
            unsent,
        ),
        call_ensures(StreamFirstByteMarker::fail_before_start, (failed,), can_respond),
        call_ensures(StreamFirstByteMarker::fail_before_start, (again,), still_can),
    ensures
        can_respond <==> !old(failed).started,
        unsent <==> !old(flushed).started,
        *old(failed) == *final(m) ==> !can_respond,
        *old(failed) == *final(flushed) ==> !can_respond,
        *old(again) == *final(failed) ==> !still_can,
        *old(flushed) == *final(m) ==> !unsent,
{
}

/// A search loop starts with the request as it is, with nothing shown and no round behind it, and
/// shows thinking where the client asked for it.
pub proof fn law_loop_starts_with_the_request(
    payload: MessagesRequest,
    fallback_input_tokens: i32,
    l: SearchLoop,
)
    requires
        call_ensures(SearchLoop::new, (payload, fallback_input_tokens), l),
    ensures
        l.payload.view() == payload.view(),
        l.presentation@.len() == 0,
        l.round_idx == 0,
        l.fallback_input_tokens == fallback_input_tokens,
        l.context_input_tokens is None,
        l.thinking_enabled <==> (payload.view().thinking matches Some(t) && (t.kind == "enabled"@
            || t.kind == "adaptive"@)),
{
    assert(l.view().presentation.len() == 0);
    assert(l.view().context_input_tokens is None);
}

/// The answer of a search loop is recorded as a success with its own counts, each under its own
/// name; a search that failed is told to the client as the error of the upstream that it is.
pub proof fn law_loop_is_recorded(
    draft: LoopDraft,
    output_tokens: i32,
    r: Closing,
    l: SearchLoop,
    error: &str,
    told: ErrorResponse,
    mapped: ErrorResponse,
)
    requires
        call_ensures(LoopDraft::closing, (&draft, output_tokens), r),
        call_ensures(SearchLoop::on_search_failed, (&l, error), told),
        call_ensures(map_provider_error, (error,), mapped),
    ensures
        r.counts == (draft.counts.0, output_tokens, draft.counts.1, draft.counts.2),
        r.status@ == "success"@,
        r.error_message is None,
        told.status == mapped.status,
        told.error_type@ == mapped.error_type@,
        told.message@ == mapped.message@,
{
    assert(told.view() == mapped.view());
}

} // verus!
