//! What settling a request comes to, whatever the request.

use crate::errors::ConversionError;
use crate::json::{field, string_field, JsonV};
use crate::request::{ascii_lower, choose_route, count_image_budget, count_items, count_messages};
use crate::request::{image_bytes, is_ascii_text, normalize_web_search_tool, override_thinking};
use crate::request::{plan_answer, prepare, shows_thinking, BudgetV, ImageBudget, MessageV};
use crate::request::{MessagesRequest, Plan, RequestV, Route, Thinking, ToolV};
use crate::text::{byte_len, occurs};
use vstd::prelude::*;

verus! {

/// The name of a model that takes a level of effort: Opus from 4.6 to 4.8, and Sonnet 4.6.
pub open spec fn names_effort_model(name: Seq<char>) -> bool {
    ||| occurs(name, "opus"@) && occurs(name, "4-6"@)
    ||| occurs(name, "opus"@) && occurs(name, "4.6"@)
    ||| occurs(name, "opus"@) && occurs(name, "4-7"@)
    ||| occurs(name, "opus"@) && occurs(name, "4.7"@)
    ||| occurs(name, "opus"@) && occurs(name, "4-8"@)
    ||| occurs(name, "opus"@) && occurs(name, "4.8"@)
    ||| occurs(name, "sonnet"@) && occurs(name, "4-6"@)
    ||| occurs(name, "sonnet"@) && occurs(name, "4.6"@)
}

/// Where the model's name speaks of thinking, the request is settled on thinking with a budget of
/// 20000 tokens. Opus from 4.6 to 4.8 and Sonnet 4.6 think adaptively and get a level of effort;
/// every other model has thinking enabled, and its level of effort stays as the client set it.
/// Nothing else of the request changes.
pub proof fn law_named_thinking_is_settled(payload: &mut MessagesRequest, lower: &str)
    requires
        call_ensures(override_thinking, (payload, lower), ()),
        occurs(lower@, "thinking"@),
    ensures
        final(payload).view().thinking matches Some(t) && t.budget_tokens == 20000 && t.kind == (
        if names_effort_model(lower@) {
            "adaptive"@
        } else {
            "enabled"@
        }),
        names_effort_model(lower@) ==> final(payload).view().effort is Some,
        !names_effort_model(lower@) ==> final(payload).view().effort == old(payload).view().effort,
        final(payload).view() == (RequestV {
            thinking: final(payload).view().thinking,
            effort: final(payload).view().effort,
            ..old(payload).view()
        }),
{
}

/// Where the model's name does not speak of thinking, the thinking stays as the client set it. A
/// level of effort that the client set stays too; without one, adaptive thinking gets a high
/// level, and nothing else does. Nothing else of the request changes.
pub proof fn law_unnamed_thinking_stays(payload: &mut MessagesRequest, lower: &str)
    requires
        call_ensures(override_thinking, (payload, lower), ()),
        !occurs(lower@, "thinking"@),
    ensures
        final(payload).view() == (RequestV {
            effort: final(payload).view().effort,
            ..old(payload).view()
        }),
        old(payload).view().effort is Some ==> final(payload).view().effort
            == old(payload).view().effort,
        old(payload).view().effort is None ==> final(payload).view().effort == (
        if old(payload).view().thinking is Some && old(payload).view().thinking->0.kind
            == "adaptive"@ {
            Some("high"@)
        } else {
            None
        }),
{
}

proof fn lemma_effort_words()
    ensures
        "thinking-"@ + "max"@ == "thinking-max"@,
        "thinking_"@ + "max"@ == "thinking_max"@,
        "thinking-"@ + "xhigh"@ == "thinking-xhigh"@,
        "thinking_"@ + "xhigh"@ == "thinking_xhigh"@,
        "thinking-"@ + "high"@ == "thinking-high"@,
        "thinking_"@ + "high"@ == "thinking_high"@,
        "thinking-"@ + "medium"@ == "thinking-medium"@,
        "thinking_"@ + "medium"@ == "thinking_medium"@,
        "thinking-"@ + "low"@ == "thinking-low"@,
        "thinking_"@ + "low"@ == "thinking_low"@,
{
    reveal_strlit("thinking-");
    reveal_strlit("thinking_");
    reveal_strlit("max");
    reveal_strlit("xhigh");
    reveal_strlit("high");
    reveal_strlit("medium");
    reveal_strlit("low");
    reveal_strlit("thinking-max");
    reveal_strlit("thinking_max");
    reveal_strlit("thinking-xhigh");
    reveal_strlit("thinking_xhigh");
    reveal_strlit("thinking-high");
    reveal_strlit("thinking_high");
    reveal_strlit("thinking-medium");
    reveal_strlit("thinking_medium");
    reveal_strlit("thinking-low");
    reveal_strlit("thinking_low");
    assert("thinking-"@ + "max"@ =~= "thinking-max"@);
    assert("thinking_"@ + "max"@ =~= "thinking_max"@);
    assert("thinking-"@ + "xhigh"@ =~= "thinking-xhigh"@);
    assert("thinking_"@ + "xhigh"@ =~= "thinking_xhigh"@);
    assert("thinking-"@ + "high"@ =~= "thinking-high"@);
    assert("thinking_"@ + "high"@ =~= "thinking_high"@);
    assert("thinking-"@ + "medium"@ =~= "thinking-medium"@);
    assert("thinking_"@ + "medium"@ =~= "thinking_medium"@);
    assert("thinking-"@ + "low"@ =~= "thinking-low"@);
    assert("thinking_"@ + "low"@ =~= "thinking_low"@);
}

/// The name of a model asks for a level of effort.
pub open spec fn asks_for(name: Seq<char>, hyphened: Seq<char>, underscored: Seq<char>) -> bool {
    occurs(name, hyphened) || occurs(name, underscored)
}

/// A model that takes a level of effort gets the highest one that its name asks for. Where the
/// name asks for none, the one that the client set holds, if it is known; else it is high.
pub proof fn law_effort_is_the_asked_one(payload: &mut MessagesRequest, lower: &str)
    requires
        call_ensures(override_thinking, (payload, lower), ()),
        occurs(lower@, "thinking"@),
        names_effort_model(lower@),
    ensures
        ({
            let max = asks_for(lower@, "thinking-max"@, "thinking_max"@);
            let xhigh = asks_for(lower@, "thinking-xhigh"@, "thinking_xhigh"@);
            let high = asks_for(lower@, "thinking-high"@, "thinking_high"@);
            let medium = asks_for(lower@, "thinking-medium"@, "thinking_medium"@);
            let low = asks_for(lower@, "thinking-low"@, "thinking_low"@);
            let before = old(payload).view().effort;
            let after = final(payload).view().effort;
            &&& max ==> after == Some("max"@)
            &&& !max && xhigh ==> after == Some("xhigh"@)
            &&& !max && !xhigh && high ==> after == Some("high"@)
            &&& !max && !xhigh && !high && medium ==> after == Some("medium"@)
            &&& !max && !xhigh && !high && !medium && low ==> after == Some("low"@)
            &&& !max && !xhigh && !high && !medium && !low && (before == Some("low"@) || before
                == Some("medium"@) || before == Some("high"@) || before == Some("xhigh"@) || before
                == Some("max"@)) ==> after == before
            &&& !max && !xhigh && !high && !medium && !low && !(before == Some("low"@) || before
                == Some("medium"@) || before == Some("high"@) || before == Some("xhigh"@) || before
                == Some("max"@)) ==> after == Some("high"@)
        }),
{
    lemma_effort_words();
}

/// `lower` is the ASCII text `name` in lower case.
pub open spec fn lower_case_of(lower: Seq<char>, name: Seq<char>) -> bool {
    lower.len() == name.len() && forall|i: int|
        0 <= i < name.len() ==> #[trigger] lower[i] == (if 'A' <= name[i] <= 'Z' {
            ((name[i] as u32 + 32) as u32) as char
        } else {
            name[i]
        })
}

proof fn lemma_lower_case(lower: Seq<char>, name: Seq<char>)
    requires
        lower_case_of(lower, name),
        is_ascii_text(name),
    ensures
        lower == name.map_values(|c: char| ascii_lower(c)),
{
    let m = name.map_values(|c: char| ascii_lower(c));
    assert forall|i: int| 0 <= i < name.len() implies lower[i] == m[i] by {
        assert(m[i] == ascii_lower(name[i]));
    }
    assert(lower =~= m);
}

/// A request whose model's name speaks of thinking, in letters of whatever case, comes out
/// prepared with thinking: adaptive and with a level of effort for Opus from 4.6 to 4.8 and for
/// Sonnet 4.6, enabled for every other model.
pub proof fn law_prepared_request_thinks(payload: &mut MessagesRequest, lower: Seq<char>)
    requires
        call_ensures(prepare, (payload,), ()),
        is_ascii_text(old(payload).view().model),
        lower_case_of(lower, old(payload).view().model),
        occurs(lower, "thinking"@),
    ensures
        final(payload).view().thinking matches Some(t) && t.budget_tokens == 20000 && t.kind == (
        if names_effort_model(lower) {
            "adaptive"@
        } else {
            "enabled"@
        }),
        names_effort_model(lower) ==> final(payload).view().effort is Some,
        final(payload).view().model == old(payload).view().model,
        final(payload).view().messages == old(payload).view().messages,
        final(payload).view().system == old(payload).view().system,
        final(payload).view().max_tokens == old(payload).view().max_tokens,
        final(payload).view().stream == old(payload).view().stream,
{
    lemma_lower_case(lower, old(payload).view().model);
}

/// A tool that a request offers is offered still, under the one name that web search goes by if
/// it is web search; nothing else about it changes but a missing type of web search.
pub open spec fn same_tool(before: ToolV, after: ToolV) -> bool {
    &&& after.rest == before.rest
    &&& before.name == "WebSearch"@ ==> {
        &&& after.name == "web_search"@
        &&& before.tool_type is Some ==> after.tool_type == before.tool_type
        &&& before.tool_type is None ==> after.tool_type == Some("web_search_20250305"@)
    }
    &&& before.name != "WebSearch"@ ==> after.name == before.name && after.tool_type
        == before.tool_type
}

/// The choice of a tool, under the one name that web search goes by.
pub open spec fn same_choice(before: JsonV, after: JsonV) -> bool {
    if string_field(before, "name"@) == Some("WebSearch"@) {
        &&& string_field(after, "name"@) == Some("web_search"@)
        &&& forall|key: Seq<char>|
            key != "name"@ ==> #[trigger] field(after, key) == field(before, key)
    } else {
        after == before
    }
}

/// A settled request offers the same tools in the same order, and none of them, nor the chosen
/// one, goes by another name of web search. Nothing else of the request changes.
pub proof fn law_web_search_goes_by_one_name(payload: &mut MessagesRequest)
    requires
        call_ensures(normalize_web_search_tool, (payload,), ()),
    ensures
        final(payload).view() == (RequestV {
            tools: final(payload).view().tools,
            tool_choice: final(payload).view().tool_choice,
            ..old(payload).view()
        }),
        old(payload).view().tools is None ==> final(payload).view().tools is None,
        old(payload).view().tools matches Some(before) ==> (final(payload).view().tools matches Some(
            after,
        ) && after.len() == before.len() && forall|i: int|
            0 <= i < before.len() ==> same_tool(before[i], #[trigger] after[i])),
        old(payload).view().tool_choice is None ==> final(payload).view().tool_choice is None,
        old(payload).view().tool_choice matches Some(before) ==> (
        final(payload).view().tool_choice matches Some(after) && same_choice(before, after)),
{
}

/// A prepared request offers web search under its one name only.
pub proof fn law_prepared_request_names_web_search(payload: &mut MessagesRequest)
    requires
        call_ensures(prepare, (payload,), ()),
    ensures
        old(payload).view().tools matches Some(before) ==> (final(payload).view().tools matches Some(
            after,
        ) && after.len() == before.len() && forall|i: int|
            0 <= i < before.len() ==> same_tool(before[i], #[trigger] after[i])),
        old(payload).view().tool_choice matches Some(before) ==> (
        final(payload).view().tool_choice matches Some(after) && same_choice(before, after)),
{
}

/// Without an upstream nothing is answered. With one, a request for nothing but a search is
/// searched for at once where the relay is set up so; else a request that may search goes through
/// the search loop, and any other one to the model.
pub proof fn law_each_request_has_its_route(
    provider: bool,
    only_search: bool,
    direct: bool,
    search_among_tools: bool,
    r: Route,
)
    requires
        call_ensures(choose_route, (provider, only_search, direct, search_among_tools), r),
    ensures
        r is Unavailable <==> !provider,
        r is DirectSearch <==> provider && only_search && direct,
        r is Chat <==> provider && !only_search && !search_among_tools,
        r is SearchLoop <==> provider && !(only_search && direct) && (only_search
            || search_among_tools),
{
}

/// A request goes the way that was chosen for it. One for the model is refused where it cannot be
/// put to the upstream; else it is answered as a stream if the client asked for one, and as a
/// whole if it did not. Thinking is shown only where the client asked for it, and in a whole
/// answer only where the relay takes it out of the text.
pub proof fn law_plan_follows_the_request(
    payload: MessagesRequest,
    route: Route,
    refused: Option<ConversionError>,
    extract_thinking: bool,
    r: Plan,
)
    requires
        call_ensures(plan_answer, (&payload, route, &refused, extract_thinking), r),
    ensures
        route is Unavailable ==> (r matches Plan::Refuse(e) && e.view().status == 503
            && e.view().error_type == "service_unavailable"@ && e.view().message
            == "Kiro API provider not configured"@),
        route is DirectSearch ==> r is DirectSearch,
        route is SearchLoop ==> r is SearchLoop,
        route is Chat && refused is Some ==> (r matches Plan::Refuse(e) && e.view().status == 400),
        ({
            let asked = payload.view().thinking matches Some(t) && (t.kind == "enabled"@ || t.kind
                == "adaptive"@);
            &&& route is Chat && refused is None && payload.stream ==> r == Plan::Stream {
                thinking_enabled: asked,
            }
            &&& route is Chat && refused is None && !payload.stream ==> r == Plan::Whole {
                show_thinking: asked && extract_thinking,
            }
        }),
{
}

/// The sizes of the images that come with the items of a message: those whose data is in the
/// request.
pub open spec fn item_images(items: Seq<JsonV>) -> Seq<nat>
    decreases items.len(),
{
    if items.len() == 0 {
        Seq::empty()
    } else {
        let before = item_images(items.drop_last());
        let item = items.last();
        match field(item, "source"@) {
            Some(source) => if string_field(item, "type"@) == Some("image"@) && string_field(
                source,
                "type"@,
            ) == Some("base64"@) {
                before.push(
                    match string_field(source, "data"@) {
                        Some(data) => byte_len(data),
                        None => 0,
                    },
                )
            } else {
                before
            },
            None => before,
        }
    }
}

/// The sizes of the images that come with messages.
pub open spec fn images(messages: Seq<MessageV>) -> Seq<nat>
    decreases messages.len(),
{
    if messages.len() == 0 {
        Seq::empty()
    } else {
        images(messages.drop_last()) + match messages.last().content {
            JsonV::Array(items) => item_images(items),
            _ => Seq::empty(),
        }
    }
}

/// The sum of sizes.
pub open spec fn sum(sizes: Seq<nat>) -> nat
    decreases sizes.len(),
{
    if sizes.len() == 0 {
        0
    } else {
        sum(sizes.drop_last()) + sizes.last()
    }
}

/// What a list of sizes comes to.
spec fn comes_to(b: BudgetV, sizes: Seq<nat>) -> bool {
    &&& b.count == sizes.len()
    &&& b.total == sum(sizes)
    &&& forall|i: int| 0 <= i < sizes.len() ==> #[trigger] sizes[i] <= b.largest
    &&& sizes.len() == 0 ==> b.largest == 0
    &&& sizes.len() > 0 ==> exists|i: int| 0 <= i < sizes.len() && #[trigger] sizes[i] == b.largest
}

proof fn lemma_item_images(b: BudgetV, sizes: Seq<nat>, items: Seq<JsonV>)
    requires
        comes_to(b, sizes),
    ensures
        comes_to(count_items(b, items), sizes + item_images(items)),
    decreases items.len(),
{
    if items.len() == 0 {
        assert(sizes + item_images(items) =~= sizes);
    } else {
        let front = items.drop_last();
        lemma_item_images(b, sizes, front);
        let before = count_items(b, front);
        let known = sizes + item_images(front);
        match image_bytes(items.last()) {
            Some(n) => {
                let all = known.push(n);
                assert(sizes + item_images(items) =~= all);
                assert(all.drop_last() =~= known);
                let after = count_items(b, items);
                assert(all[all.len() - 1] == n);
                if n <= before.largest && known.len() > 0 {
                    let i = choose|i: int|
                        0 <= i < known.len() && #[trigger] known[i] == before.largest;
                    assert(all[i] == after.largest);
                }
                assert forall|i: int| 0 <= i < all.len() implies #[trigger] all[i]
                    <= after.largest by {
                    if i < known.len() {
                        assert(all[i] == known[i]);
                    }
                }
            },
            None => {
                assert(sizes + item_images(items) =~= known);
            },
        }
    }
}

proof fn lemma_images(messages: Seq<MessageV>)
    ensures
        comes_to(count_messages(messages), images(messages)),
    decreases messages.len(),
{
    if messages.len() > 0 {
        lemma_images(messages.drop_last());
        match messages.last().content {
            JsonV::Array(items) => {
                lemma_item_images(
                    count_messages(messages.drop_last()),
                    images(messages.drop_last()),
                    items,
                );
            },
            _ => {
                assert(images(messages) =~= images(messages.drop_last()));
            },
        }
    }
}

/// Every image whose data is in the request is counted once, the total is the sum of their
/// sizes, and the largest is one of them that none exceeds. Counts stop at the greatest `usize`.
pub proof fn law_every_image_is_counted(payload: MessagesRequest, r: ImageBudget)
    requires
        call_ensures(count_image_budget, (&payload,), r),
    ensures
        ({
            let sizes = images(payload.view().messages);
            &&& sizes.len() <= usize::MAX ==> r.count == sizes.len()
            &&& sizes.len() > usize::MAX ==> r.count == usize::MAX
            &&& sum(sizes) <= usize::MAX ==> r.total_b64_bytes == sum(sizes)
            &&& sum(sizes) > usize::MAX ==> r.total_b64_bytes == usize::MAX
            &&& forall|i: int| 0 <= i < sizes.len() ==> #[trigger] sizes[i] <= r.largest_b64_bytes
            &&& sizes.len() == 0 ==> r.largest_b64_bytes == 0
            &&& sizes.len() > 0 ==> exists|i: int|
                0 <= i < sizes.len() && #[trigger] sizes[i] == r.largest_b64_bytes
        }),
{
    lemma_images(payload.view().messages);
}

/// Images are worth a warning from 800 KiB of data on, all of them together.
pub proof fn law_many_images_are_large(budget: ImageBudget, r: bool)
    requires
        call_ensures(ImageBudget::is_large, (&budget,), r),
    ensures
        r <==> budget.total_b64_bytes > 800 * 1024,
{
}

/// A client gets to see thinking that is enabled or adaptive, and no other; in a whole answer only
/// where the relay takes it out of the text.
pub proof fn law_thinking_is_shown_on_request(
    t: Thinking,
    seen: bool,
    payload: MessagesRequest,
    extract_thinking: bool,
    shown: bool,
)
    requires
        call_ensures(Thinking::is_enabled, (&t,), seen),
        call_ensures(shows_thinking, (&payload, extract_thinking), shown),
    ensures
        seen <==> t.thinking_type@ == "enabled"@ || t.thinking_type@ == "adaptive"@,
        shown <==> extract_thinking && (payload.thinking matches Some(asked) && (
        asked.thinking_type@ == "enabled"@ || asked.thinking_type@ == "adaptive"@)),
{
}

} // verus!
