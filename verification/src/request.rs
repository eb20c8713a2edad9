//! Requests of the Messages API, and what is settled about them before they are answered.

use crate::errors::{conversion_error, map_conversion_error, ConversionError, ErrorResponse, ErrorV};
use crate::json::{field, string_field, Json, JsonObject, JsonV};
use crate::text;
use crate::text::{byte_len, occurs};
use vstd::prelude::*;

verus! {

/// A message of a conversation.
pub struct MessageV {
    pub role: Seq<char>,
    pub content: JsonV,
}

/// A tool that the client offers.
pub struct ToolV {
    pub name: Seq<char>,
    pub tool_type: Option<Seq<char>>,
    pub rest: Map<Seq<char>, JsonV>,
}

/// The kind of thinking that the client asks for, and its budget.
pub struct ThinkingV {
    pub kind: Seq<char>,
    pub budget_tokens: int,
}

/// What a request asks for.
#[verifier::ext_equal]
pub struct RequestV {
    pub model: Seq<char>,
    pub max_tokens: int,
    pub messages: Seq<MessageV>,
    pub stream: bool,
    pub system: Option<JsonV>,
    pub tools: Option<Seq<ToolV>>,
    pub tool_choice: Option<JsonV>,
    pub thinking: Option<ThinkingV>,
    /// How much effort goes into thinking.
    pub effort: Option<Seq<char>>,
}

/// A message of a conversation.
#[derive(Debug)]
pub struct Message {
    pub role: String,
    pub content: Json,
}

/// A tool that the client offers. Fields other than its name and type are passed on.
#[derive(Debug)]
pub struct Tool {
    pub name: String,
    pub tool_type: Option<String>,
    pub rest: JsonObject,
}

/// The thinking that the client asks for.
#[derive(Debug)]
pub struct Thinking {
    pub thinking_type: String,
    pub budget_tokens: i32,
}

/// How the answer is to be made.
#[derive(Debug)]
pub struct OutputConfig {
    pub effort: String,
}

/// A request of the Messages API.
#[derive(Debug)]
pub struct MessagesRequest {
    pub model: String,
    pub max_tokens: i32,
    pub messages: Vec<Message>,
    pub stream: bool,
    pub system: Option<Json>,
    pub tools: Option<Vec<Tool>>,
    pub tool_choice: Option<Json>,
    pub thinking: Option<Thinking>,
    pub output_config: Option<OutputConfig>,
}

impl Message {
    pub open spec fn view(&self) -> MessageV {
        MessageV { role: self.role@, content: self.content.view() }
    }
}

impl Tool {
    pub open spec fn view(&self) -> ToolV {
        ToolV {
            name: self.name@,
            tool_type: crate::state::opt_text(self.tool_type),
            rest: self.rest.view(),
        }
    }
}

/// The messages of a list.
pub open spec fn message_views(messages: Seq<Message>) -> Seq<MessageV> {
    messages.map_values(|m: Message| m.view())
}

/// The tools of a list.
pub open spec fn tool_views(tools: Seq<Tool>) -> Seq<ToolV> {
    tools.map_values(|t: Tool| t.view())
}

/// A JSON value that may be there.
pub open spec fn opt_json(v: Option<Json>) -> Option<JsonV> {
    match v {
        Some(v) => Some(v.view()),
        None => None,
    }
}

impl Thinking {
    pub open spec fn view(&self) -> ThinkingV {
        ThinkingV { kind: self.thinking_type@, budget_tokens: self.budget_tokens as int }
    }

    /// Whether the client gets to see thinking.
    pub fn is_enabled(&self) -> (r: bool)
        ensures
            r == thinks(Some(self.view())),
    {
        text::same(self.thinking_type.as_str(), "enabled") || text::same(
            self.thinking_type.as_str(),
            "adaptive",
        )
    }
}

/// Whether the client gets to see thinking.
pub open spec fn thinks(t: Option<ThinkingV>) -> bool {
    match t {
        Some(t) => t.kind == "enabled"@ || t.kind == "adaptive"@,
        None => false,
    }
}

impl MessagesRequest {
    pub open spec fn view(&self) -> RequestV {
        RequestV {
            model: self.model@,
            max_tokens: self.max_tokens as int,
            messages: message_views(self.messages@),
            stream: self.stream,
            system: opt_json(self.system),
            tools: match self.tools {
                Some(tools) => Some(tool_views(tools@)),
                None => None,
            },
            tool_choice: opt_json(self.tool_choice),
            thinking: match self.thinking {
                Some(t) => Some(t.view()),
                None => None,
            },
            effort: match self.output_config {
                Some(c) => Some(c.effort@),
                None => None,
            },
        }
    }

    /// Whether the client gets to see thinking.
    pub fn thinking_enabled(&self) -> (r: bool)
        ensures
            r == thinks(self.view().thinking),
    {
        match &self.thinking {
            Some(t) => t.is_enabled(),
            None => false,
        }
    }
}

/// A tool with the one name that web search goes by.
pub open spec fn normalized_tool(t: ToolV) -> ToolV {
    if t.name == "WebSearch"@ {
        ToolV {
            name: "web_search"@,
            tool_type: match t.tool_type {
                Some(kind) => Some(kind),
                None => Some("web_search_20250305"@),
            },
            ..t
        }
    } else {
        t
    }
}

/// A choice of tool with the one name that web search goes by.
pub open spec fn normalized_choice(choice: JsonV) -> JsonV {
    match choice {
        JsonV::Object(m) => if string_field(choice, "name"@) == Some("WebSearch"@) {
            JsonV::Object(m.insert("name"@, JsonV::Str("web_search"@)))
        } else {
            choice
        },
        _ => choice,
    }
}

/// A request with the one name that web search goes by.
pub open spec fn normalized(r: RequestV) -> RequestV {
    RequestV {
        tools: match r.tools {
            Some(tools) => Some(tools.map_values(|t: ToolV| normalized_tool(t))),
            None => None,
        },
        tool_choice: match r.tool_choice {
            Some(choice) => Some(normalized_choice(choice)),
            None => None,
        },
        ..r
    }
}

/// Settling the name of web search a second time changes nothing.
pub proof fn law_normalizing_settles(r: RequestV)
    ensures
        normalized(normalized(r)) == normalized(r),
{
    reveal_strlit("WebSearch");
    reveal_strlit("web_search");
    assert("WebSearch"@.len() == 9 && "web_search"@.len() == 10);
    match r.tools {
        Some(tools) => {
            let once = tools.map_values(|t: ToolV| normalized_tool(t));
            assert(once.map_values(|t: ToolV| normalized_tool(t)) =~= once);
        },
        None => {},
    }
}

/// Settles the name of one tool.
fn normalize_tool(tool: Tool) -> (r: Tool)
    ensures
        r.view() == normalized_tool(tool.view()),
{
    if !text::same(tool.name.as_str(), "WebSearch") {
        return tool;
    }
    let tool_type = match tool.tool_type {
        Some(kind) => Some(kind),
        None => Some("web_search_20250305".to_owned()),
    };
    Tool { name: "web_search".to_owned(), tool_type, rest: tool.rest }
}

/// Settles the names of tools.
fn normalize_tools(tools: Vec<Tool>) -> (r: Vec<Tool>)
    ensures
        tool_views(r@) == tool_views(tools@).map_values(|t: ToolV| normalized_tool(t)),
{
    let ghost all = tool_views(tools@);
    let ghost wanted = all.map_values(|t: ToolV| normalized_tool(t));
    let mut rest = tools;
    let mut out: Vec<Tool> = Vec::new();
    let n = rest.len();
    let mut i: usize = 0;
    assert(all.skip(0) =~= all);
    assert(tool_views(out@) =~= wanted.take(0));
    while i < n
        invariant
            i <= n,
            n == all.len(),
            rest.len() == n - i,
            tool_views(rest@) == all.skip(i as int),
            wanted == all.map_values(|t: ToolV| normalized_tool(t)),
            tool_views(out@) == wanted.take(i as int),
        decreases n - i,
    {
        let ghost r0 = rest@;
        let ghost o0 = tool_views(out@);
        let tool = rest.remove(0);
        proof {
            assert(tool_views(r0)[0] == tool.view());
            assert(tool_views(rest@) =~= tool_views(r0).remove(0));
            assert(tool_views(rest@) =~= all.skip(i + 1));
        }
        let tool = normalize_tool(tool);
        out.push(tool);
        proof {
            assert(tool_views(out@) =~= o0.push(tool.view()));
            assert(wanted.take(i + 1) =~= wanted.take(i as int).push(wanted[i as int]));
        }
        i += 1;
    }
    assert(wanted.take(n as int) =~= wanted);
    out
}

/// Settles the name of a chosen tool.
fn normalize_choice(choice: Json) -> (r: Json)
    ensures
        r.view() == normalized_choice(choice.view()),
{
    let named = match choice.get_str("name") {
        Some(name) => text::same(name, "WebSearch"),
        None => false,
    };
    match choice {
        Json::Object(o) => if named {
            Json::Object(o.with("name", Json::text("web_search")))
        } else {
            Json::Object(o)
        },
        other => other,
    }
}

/// Gives web search its one name.
pub fn normalize_web_search_tool(payload: &mut MessagesRequest)
    ensures
        final(payload).view() == normalized(old(payload).view()),
{
    let mut tools: Option<Vec<Tool>> = None;
    std::mem::swap(&mut tools, &mut payload.tools);
    payload.tools = match tools {
        Some(tools) => Some(normalize_tools(tools)),
        None => None,
    };
    let mut choice: Option<Json> = None;
    std::mem::swap(&mut choice, &mut payload.tool_choice);
    payload.tool_choice = match choice {
        Some(choice) => Some(normalize_choice(choice)),
        None => None,
    };
}

/// The levels of effort that are known; anything else is `high`.
pub open spec fn normalized_effort(effort: Seq<char>) -> Seq<char> {
    if effort == "low"@ || effort == "medium"@ || effort == "high"@ || effort == "xhigh"@ || effort
        == "max"@ {
        effort
    } else {
        "high"@
    }
}

/// Settles a level of effort.
pub fn normalize_thinking_effort(effort: &str) -> (r: &str)
    ensures
        r@ == normalized_effort(effort@),
{
    if text::same(effort, "low") || text::same(effort, "medium") || text::same(effort, "high")
        || text::same(effort, "xhigh") || text::same(effort, "max") {
        effort
    } else {
        "high"
    }
}

/// The model's name asks for thinking at the given level.
pub open spec fn names_effort(name: Seq<char>, effort: Seq<char>) -> bool {
    occurs(name, "thinking-"@ + effort) || occurs(name, "thinking_"@ + effort)
}

/// The level of effort that a model's name asks for.
pub open spec fn effort_in_name(name: Seq<char>) -> Option<Seq<char>> {
    if names_effort(name, "max"@) {
        Some("max"@)
    } else if names_effort(name, "xhigh"@) {
        Some("xhigh"@)
    } else if names_effort(name, "high"@) {
        Some("high"@)
    } else if names_effort(name, "medium"@) {
        Some("medium"@)
    } else if names_effort(name, "low"@) {
        Some("low"@)
    } else {
        None
    }
}

/// Whether a model's name asks for thinking at the given level.
fn asks_for_effort(name: &str, effort: &str) -> (r: bool)
    ensures
        r == names_effort(name@, effort@),
{
    let mut hyphen = "thinking-".to_owned();
    hyphen.append(effort);
    let mut underscore = "thinking_".to_owned();
    underscore.append(effort);
    text::contains(name, hyphen.as_str()) || text::contains(name, underscore.as_str())
}

/// The level of effort that a model's name asks for.
pub fn parse_thinking_effort_from_model_name(model_lower: &str) -> (r: Option<&'static str>)
    ensures
        r is Some <==> effort_in_name(model_lower@) is Some,
        r matches Some(effort) ==> effort_in_name(model_lower@) == Some(effort@),
{
    if asks_for_effort(model_lower, "max") {
        Some("max")
    } else if asks_for_effort(model_lower, "xhigh") {
        Some("xhigh")
    } else if asks_for_effort(model_lower, "high") {
        Some("high")
    } else if asks_for_effort(model_lower, "medium") {
        Some("medium")
    } else if asks_for_effort(model_lower, "low") {
        Some("low")
    } else {
        None
    }
}

/// Models that take a level of effort.
pub open spec fn takes_effort(name: Seq<char>) -> bool {
    let six = occurs(name, "4-6"@) || occurs(name, "4.6"@);
    let later = occurs(name, "4-7"@) || occurs(name, "4.7"@) || occurs(name, "4-8"@) || occurs(
        name,
        "4.8"@,
    );
    (occurs(name, "opus"@) && (six || later)) || (occurs(name, "sonnet"@) && six)
}

/// Whether a model takes a level of effort.
fn is_native_output_config_model(name: &str) -> (r: bool)
    ensures
        r == takes_effort(name@),
{
    let six = text::contains(name, "4-6") || text::contains(name, "4.6");
    let later = text::contains(name, "4-7") || text::contains(name, "4.7") || text::contains(
        name,
        "4-8",
    ) || text::contains(name, "4.8");
    (text::contains(name, "opus") && (six || later)) || (text::contains(name, "sonnet") && six)
}

/// A request with the thinking that its model's name, in lower case, asks for.
pub open spec fn overridden(r: RequestV, lower: Seq<char>) -> RequestV {
    if !occurs(lower, "thinking"@) {
        match r.thinking {
            Some(t) => if t.kind == "adaptive"@ && r.effort is None {
                RequestV { effort: Some("high"@), ..r }
            } else {
                r
            },
            None => r,
        }
    } else {
        let native = takes_effort(lower);
        RequestV {
            thinking: Some(
                ThinkingV {
                    kind: if native {
                        "adaptive"@
                    } else {
                        "enabled"@
                    },
                    budget_tokens: 20000,
                },
            ),
            effort: if native {
                Some(
                    match effort_in_name(lower) {
                        Some(effort) => effort,
                        None => match r.effort {
                            Some(effort) => normalized_effort(effort),
                            None => "high"@,
                        },
                    },
                )
            } else {
                r.effort
            },
            ..r
        }
    }
}

/// Settling the thinking a second time changes nothing.
pub proof fn law_overriding_settles(r: RequestV, lower: Seq<char>)
    ensures
        overridden(overridden(r, lower), lower) == overridden(r, lower),
{
}

/// The text that `str::to_lowercase` makes.
pub uninterp spec fn lowercase(s: Seq<char>) -> Seq<char>;

/// An ASCII letter in lower case; any other character as it is.
pub open spec fn ascii_lower(c: char) -> char {
    if 'A' <= c <= 'Z' {
        (((c as u32) + 32) as u32) as char
    } else {
        c
    }
}

/// All characters are ASCII.
pub open spec fn is_ascii_text(s: Seq<char>) -> bool {
    forall|i: int| 0 <= i < s.len() ==> (#[trigger] s[i]) as u32 <= 0x7f
}

/// Calls `str::to_lowercase`.
///
/// The result is named: `lowercase` of the text. Of ASCII text it is said that each letter is
/// taken by itself; the rules for other letters are not stated.
#[verifier::external_body]
fn to_lowercase(s: &str) -> (r: String)
    ensures
        r@ == lowercase(s@),
        is_ascii_text(s@) ==> r@ == s@.map_values(|c: char| ascii_lower(c)),
{
    s.to_lowercase()
}

/// Sets the thinking that a model's name, given in lower case, asks for.
pub fn override_thinking(payload: &mut MessagesRequest, model_lower: &str)
    ensures
        final(payload).view() == overridden(old(payload).view(), model_lower@),
{
    if !text::contains(model_lower, "thinking") {
        let adaptive = match &payload.thinking {
            Some(t) => text::same(t.thinking_type.as_str(), "adaptive"),
            None => false,
        };
        if adaptive && payload.output_config.is_none() {
            payload.output_config = Some(OutputConfig { effort: "high".to_owned() });
        }
        return;
    }
    let native = is_native_output_config_model(model_lower);
    let kind = if native {
        "adaptive"
    } else {
        "enabled"
    };
    payload.thinking = Some(Thinking { thinking_type: kind.to_owned(), budget_tokens: 20000 });
    if native {
        let effort = match parse_thinking_effort_from_model_name(model_lower) {
            Some(effort) => effort.to_owned(),
            None => match &payload.output_config {
                Some(config) => normalize_thinking_effort(config.effort.as_str()).to_owned(),
                None => "high".to_owned(),
            },
        };
        payload.output_config = Some(OutputConfig { effort });
    }
}

/// Sets the thinking that the model's name asks for.
pub fn override_thinking_from_model_name(payload: &mut MessagesRequest)
    ensures
        final(payload).view() == overridden(
            old(payload).view(),
            lowercase(old(payload).view().model),
        ),
        is_ascii_text(old(payload).view().model) ==> final(payload).view() == overridden(
            old(payload).view(),
            old(payload).view().model.map_values(|c: char| ascii_lower(c)),
        ),
{
    let lower = to_lowercase(payload.model.as_str());
    override_thinking(payload, lower.as_str());
}

/// Total size from which on the images of a request are worth a warning.
pub const IMAGE_BUDGET_WARN_BYTES: usize = 819200;

/// The images of a request: how many there are, their total size and the largest.
pub struct BudgetV {
    pub count: nat,
    pub total: nat,
    pub largest: nat,
}

/// The size of an image that is sent along with a message, in characters of its base64 text.
pub open spec fn image_bytes(item: JsonV) -> Option<nat> {
    if string_field(item, "type"@) != Some("image"@) {
        None
    } else {
        match field(item, "source"@) {
            None => None,
            Some(source) => if string_field(source, "type"@) != Some("base64"@) {
                None
            } else {
                match string_field(source, "data"@) {
                    Some(data) => Some(byte_len(data)),
                    None => Some(0),
                }
            },
        }
    }
}

/// Counting one more item of a message.
pub open spec fn count_item(b: BudgetV, item: JsonV) -> BudgetV {
    match image_bytes(item) {
        Some(n) => BudgetV {
            count: b.count + 1,
            total: b.total + n,
            largest: if n > b.largest {
                n
            } else {
                b.largest
            },
        },
        None => b,
    }
}

/// Counting the items of a message.
pub open spec fn count_items(b: BudgetV, items: Seq<JsonV>) -> BudgetV
    decreases items.len(),
{
    if items.len() == 0 {
        b
    } else {
        count_item(count_items(b, items.drop_last()), items.last())
    }
}

/// Counting the messages of a request.
pub open spec fn count_messages(messages: Seq<MessageV>) -> BudgetV
    decreases messages.len(),
{
    if messages.len() == 0 {
        BudgetV { count: 0, total: 0, largest: 0 }
    } else {
        let before = count_messages(messages.drop_last());
        match messages.last().content {
            JsonV::Array(items) => count_items(before, items),
            _ => before,
        }
    }
}

/// The images of a request. Counts stop at the greatest `usize`.
#[derive(Debug)]
pub struct ImageBudget {
    pub count: usize,
    pub total_b64_bytes: usize,
    pub largest_b64_bytes: usize,
}

/// A count that stops at the greatest `usize`.
pub open spec fn capped_size(n: nat) -> nat {
    if n > usize::MAX {
        usize::MAX as nat
    } else {
        n
    }
}

impl ImageBudget {
    /// Whether this is what `b` comes to.
    pub open spec fn tells(&self, b: BudgetV) -> bool {
        self.count == capped_size(b.count) && self.total_b64_bytes == capped_size(b.total)
            && self.largest_b64_bytes == b.largest
    }

    /// Whether the images are worth a warning.
    pub fn is_large(&self) -> (r: bool)
        ensures
            r == (self.total_b64_bytes > IMAGE_BUDGET_WARN_BYTES),
    {
        self.total_b64_bytes > IMAGE_BUDGET_WARN_BYTES
    }

    /// Counts one item of a message.
    fn add_item(&mut self, item: &Json, Ghost(b): Ghost<BudgetV>)
        requires
            old(self).tells(b),
        ensures
            final(self).tells(count_item(b, item.view())),
    {
        let is_image = match item.get_str("type") {
            Some(kind) => text::same(kind, "image"),
            None => false,
        };
        if !is_image {
            return;
        }
        if let Some(source) = item.get("source") {
            let inline = match source.get_str("type") {
                Some(kind) => text::same(kind, "base64"),
                None => false,
            };
            if inline {
                let n: usize = match source.get_str("data") {
                    Some(data) => text::byte_length(data),
                    None => 0,
                };
                self.count = add_capped(self.count, 1);
                self.total_b64_bytes = add_capped(self.total_b64_bytes, n);
                if n > self.largest_b64_bytes {
                    self.largest_b64_bytes = n;
                }
            }
        }
    }
}

/// Adds to a count, which stops at the greatest `usize`.
fn add_capped(a: usize, b: usize) -> (r: usize)
    ensures
        r == capped_size((a + b) as nat),
{
    if a > usize::MAX - b {
        usize::MAX
    } else {
        a + b
    }
}

/// Counts the images of a request.
pub fn count_image_budget(payload: &MessagesRequest) -> (r: ImageBudget)
    ensures
        r.tells(count_messages(payload.view().messages)),
{
    let mut budget = ImageBudget { count: 0, total_b64_bytes: 0, largest_b64_bytes: 0 };
    let ghost all = payload.view().messages;
    let mut i: usize = 0;
    assert(all.take(0) =~= Seq::empty());
    while i < payload.messages.len()
        invariant
            i <= payload.messages.len(),
            all == message_views(payload.messages@),
            budget.tells(count_messages(all.take(i as int))),
        decreases payload.messages.len() - i,
    {
        let ghost before = count_messages(all.take(i as int));
        proof {
            assert(all.take(i + 1).drop_last() =~= all.take(i as int));
            assert(all.take(i + 1).last() == payload.messages@[i as int].view());
        }
        if let Json::Array(items) = &payload.messages[i].content {
            proof {
                crate::json::lemma_array_view(*items);
            }
            let ghost list = crate::json::values(items@);
            let mut k: usize = 0;
            assert(list.take(0) =~= Seq::empty());
            while k < items.len()
                invariant
                    k <= items.len(),
                    list == crate::json::values(items@),
                    budget.tells(count_items(before, list.take(k as int))),
                decreases items.len() - k,
            {
                let ghost b = count_items(before, list.take(k as int));
                proof {
                    assert(list.take(k + 1).drop_last() =~= list.take(k as int));
                    assert(list.take(k + 1).last() == items@[k as int].view());
                }
                budget.add_item(&items[k], Ghost(b));
                k += 1;
            }
            assert(list.take(items.len() as int) =~= list);
        }
        i += 1;
    }
    assert(all.take(payload.messages.len() as int) =~= all);
    budget
}

/// How a request is answered.
#[derive(Debug, Clone, Copy, PartialEq, Eq, Structural)]
pub enum Route {
    /// There is no upstream.
    Unavailable,
    /// A search, without asking the model.
    DirectSearch,
    /// The model, which may search as often as it likes.
    SearchLoop,
    /// The model.
    Chat,
}

/// How a request is answered: by what is configured, and by what its tools are.
pub open spec fn route_of(
    provider: bool,
    only_search: bool,
    direct: bool,
    search_among_tools: bool,
) -> Route {
    if !provider {
        Route::Unavailable
    } else if only_search && direct {
        Route::DirectSearch
    } else if only_search || search_among_tools {
        Route::SearchLoop
    } else {
        Route::Chat
    }
}

/// Decides how a request is answered.
pub fn choose_route(
    provider: bool,
    only_search: bool,
    direct: bool,
    search_among_tools: bool,
) -> (r: Route)
    ensures
        r == route_of(provider, only_search, direct, search_among_tools),
{
    if !provider {
        Route::Unavailable
    } else if only_search && direct {
        Route::DirectSearch
    } else if only_search || search_among_tools {
        Route::SearchLoop
    } else {
        Route::Chat
    }
}

/// Settles a request: the thinking that its model's name asks for, and the name of web search.
pub fn prepare(payload: &mut MessagesRequest)
    ensures
        final(payload).view() == normalized(
            overridden(old(payload).view(), lowercase(old(payload).view().model)),
        ),
        is_ascii_text(old(payload).view().model) ==> final(payload).view() == normalized(
            overridden(
                old(payload).view(),
                old(payload).view().model.map_values(|c: char| ascii_lower(c)),
            ),
        ),
{
    override_thinking_from_model_name(payload);
    normalize_web_search_tool(payload);
}

/// Whether an answer as a whole shows thinking: where the client asks for it and the relay is
/// set up to take it out of the text.
pub fn shows_thinking(payload: &MessagesRequest, extract_thinking: bool) -> (r: bool)
    ensures
        r == (extract_thinking && thinks(payload.view().thinking)),
{
    extract_thinking && payload.thinking_enabled()
}

/// What is done about a request.
#[derive(Debug)]
pub enum Plan {
    /// It is refused.
    Refuse(ErrorResponse),
    /// It is answered by a search.
    DirectSearch,
    /// It is answered by a search loop.
    SearchLoop,
    /// It is answered by a stream, with thinking or without.
    Stream { thinking_enabled: bool },
    /// It is answered as a whole, with thinking shown or not.
    Whole { show_thinking: bool },
}

/// How a request is answered that no upstream can take.
pub open spec fn no_provider() -> ErrorV {
    ErrorV {
        status: 503,
        error_type: "service_unavailable"@,
        message: "Kiro API provider not configured"@,
    }
}

/// What is done about a prepared request, where `refused` says why it cannot be put to the
/// upstream, if it cannot.
pub open spec fn planned(
    r: RequestV,
    route: Route,
    refused: Option<ConversionError>,
    extract_thinking: bool,
    plan: Plan,
) -> bool {
    match route {
        Route::Unavailable => plan matches Plan::Refuse(e) && e.view() == no_provider(),
        Route::DirectSearch => plan is DirectSearch,
        Route::SearchLoop => plan is SearchLoop,
        Route::Chat => match refused {
            Some(why) => plan matches Plan::Refuse(e) && e.view() == conversion_error(why),
            None => if r.stream {
                plan == Plan::Stream { thinking_enabled: thinks(r.thinking) }
            } else {
                plan == Plan::Whole { show_thinking: extract_thinking && thinks(r.thinking) }
            },
        },
    }
}

/// Decides what is done about a prepared request.
pub fn plan_answer(
    payload: &MessagesRequest,
    route: Route,
    refused: &Option<ConversionError>,
    extract_thinking: bool,
) -> (r: Plan)
    ensures
        planned(payload.view(), route, *refused, extract_thinking, r),
{
    match route {
        Route::Unavailable => Plan::Refuse(
            ErrorResponse::new(503, "service_unavailable", "Kiro API provider not configured"),
        ),
        Route::DirectSearch => Plan::DirectSearch,
        Route::SearchLoop => Plan::SearchLoop,
        Route::Chat => match refused {
            Some(why) => Plan::Refuse(map_conversion_error(why)),
            None => if payload.stream {
                Plan::Stream { thinking_enabled: payload.thinking_enabled() }
            } else {
                Plan::Whole { show_thinking: shows_thinking(payload, extract_thinking) }
            },
        },
    }
}

} // verus!
