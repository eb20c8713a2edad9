//! Tool calls whose JSON arguments arrive in pieces.

use crate::json::{empty_object, parsed, Json, JsonObject, JsonV, Reading};
use crate::text;
use crate::text::{blank, byte_len, decimal};
use crate::text_map::TextMap;
use vstd::prelude::*;

verus! {

/// What a piece of a tool call is.
pub struct ToolUseV {
    pub name: Seq<char>,
    pub id: Seq<char>,
    pub input: Seq<char>,
    pub stop: bool,
}

/// A tool call whose end has not come yet.
pub struct PendingV {
    pub id: Seq<char>,
    pub name: Seq<char>,
    pub input: Seq<char>,
}

/// A tool call as the client gets it.
pub struct CompletedV {
    pub id: Seq<char>,
    pub name: Seq<char>,
    pub input: JsonV,
}

/// What can be wrong with the arguments of a tool call.
pub enum ToolErrorV {
    Invalid { id: Seq<char>, name: Seq<char>, message: Seq<char> },
    Incomplete { id: Seq<char>, name: Seq<char>, bytes: nat },
}

/// What a piece of a tool call leads to.
pub enum PushV {
    Waiting,
    Done(CompletedV),
    Failed(ToolErrorV),
}

/// What the end of the stream leads to.
pub enum FinishV {
    Done(Seq<CompletedV>),
    Failed(ToolErrorV),
}

/// A piece of a tool call, as the upstream sends it.
#[derive(Debug)]
pub struct ToolUseEvent {
    pub name: String,
    pub tool_use_id: String,
    pub input: String,
    pub stop: bool,
}

/// A tool call with all of its arguments, under the client's names.
#[derive(Debug)]
pub struct CompletedToolUse {
    pub id: String,
    pub name: String,
    pub input: Json,
}

/// What can be wrong with the arguments of a tool call.
#[derive(Debug)]
pub enum ToolJsonAccumulatorError {
    /// The arguments are no JSON.
    InvalidJson { tool_use_id: String, name: String, message: String },
    /// The stream ended within the arguments.
    IncompleteJson { tool_use_id: String, name: String, bytes: usize },
}

impl ToolUseEvent {
    pub open spec fn view(&self) -> ToolUseV {
        ToolUseV {
            name: self.name@,
            id: self.tool_use_id@,
            input: self.input@,
            stop: self.stop,
        }
    }
}

impl CompletedToolUse {
    pub open spec fn view(&self) -> CompletedV {
        CompletedV { id: self.id@, name: self.name@, input: self.input.view() }
    }
}

/// The message that tells the client of an error.
pub open spec fn error_text(e: ToolErrorV) -> Seq<char> {
    match e {
        ToolErrorV::Invalid { id, name, message } => {
            "Upstream returned invalid JSON for tool_use "@ + id + " ("@ + name + "): "@ + message
        },
        ToolErrorV::Incomplete { id, name, bytes } => {
            "Upstream ended before completing tool_use "@ + id + " ("@ + name
                + ") JSON input; buffered "@ + decimal(bytes)
                + " bytes. The tool call was not forwarded to the client."@
        },
    }
}

impl ToolJsonAccumulatorError {
    pub open spec fn view(&self) -> ToolErrorV {
        match self {
            ToolJsonAccumulatorError::InvalidJson { tool_use_id, name, message } => {
                ToolErrorV::Invalid { id: tool_use_id@, name: name@, message: message@ }
            },
            ToolJsonAccumulatorError::IncompleteJson { tool_use_id, name, bytes } => {
                ToolErrorV::Incomplete { id: tool_use_id@, name: name@, bytes: *bytes as nat }
            },
        }
    }

    /// The kind of error that the client is told.
    pub fn error_type(&self) -> (r: &'static str)
        ensures
            r@ == "upstream_tool_json_error"@,
    {
        "upstream_tool_json_error"
    }

    /// The message that tells the client of the error.
    pub fn message(&self) -> (r: String)
        ensures
            r@ == error_text(self.view()),
    {
        match self {
            ToolJsonAccumulatorError::InvalidJson { tool_use_id, name, message } => {
                let mut s = "Upstream returned invalid JSON for tool_use ".to_owned();
                s.append(tool_use_id.as_str());
                s.append(" (");
                s.append(name.as_str());
                s.append("): ");
                s.append(message.as_str());
                s
            },
            ToolJsonAccumulatorError::IncompleteJson { tool_use_id, name, bytes } => {
                let mut s = "Upstream ended before completing tool_use ".to_owned();
                s.append(tool_use_id.as_str());
                s.append(" (");
                s.append(name.as_str());
                s.append(") JSON input; buffered ");
                s.append(text::to_decimal(*bytes as u64).as_str());
                s.append(" bytes. The tool call was not forwarded to the client.");
                s
            },
        }
    }
}

/// The value under `from` moved to `to`, where there is one.
pub open spec fn renamed(m: Map<Seq<char>, JsonV>, from: Seq<char>, to: Seq<char>) -> Map<
    Seq<char>,
    JsonV,
> {
    if m.contains_key(from) {
        m.remove(from).insert(to, m[from])
    } else {
        m
    }
}

/// A number of lines: a whole number in the range of `u64`.
pub open spec fn line_number(v: JsonV) -> Option<int> {
    match v {
        JsonV::Int(n) => if 0 <= n <= u64::MAX {
            Some(n)
        } else {
            None
        },
        _ => None,
    }
}

/// The number of lines from `start_line` to `end_line`, both of them counted.
pub open spec fn line_count(m: Map<Seq<char>, JsonV>) -> Option<int> {
    if m.contains_key("start_line"@) && m.contains_key("end_line"@) {
        match (line_number(m["start_line"@]), line_number(m["end_line"@])) {
            (Some(a), Some(b)) => if a <= b && b - a < u64::MAX {
                Some(b - a + 1)
            } else {
                None
            },
            _ => None,
        }
    } else {
        None
    }
}

/// A line range given by its ends, as an offset and a count.
pub open spec fn with_line_count(m: Map<Seq<char>, JsonV>) -> Map<Seq<char>, JsonV> {
    match line_count(m) {
        Some(n) => m.remove("end_line"@).insert("limit"@, JsonV::Int(n)),
        None => m,
    }
}

/// The arguments of the upstream's tool `kiro`, as the client's tool `client` names them.
pub open spec fn restored_fields(
    kiro: Seq<char>,
    client: Seq<char>,
    m: Map<Seq<char>, JsonV>,
) -> Map<Seq<char>, JsonV> {
    if kiro == "fs_write"@ && client == "Write"@ {
        renamed(renamed(m, "path"@, "file_path"@), "text"@, "content"@)
    } else if kiro == "str_replace"@ && client == "Edit"@ {
        renamed(
            renamed(renamed(m, "path"@, "file_path"@), "oldStr"@, "old_string"@),
            "newStr"@,
            "new_string"@,
        )
    } else if kiro == "read_file"@ && client == "Read"@ {
        renamed(renamed(with_line_count(m), "path"@, "file_path"@), "start_line"@, "offset"@)
    } else if kiro == "file_search"@ && client == "Glob"@ {
        renamed(m, "query"@, "pattern"@)
    } else if kiro == "grep_search"@ && client == "Grep"@ {
        renamed(
            renamed(renamed(m, "query"@, "pattern"@), "includePattern"@, "glob"@),
            "caseSensitive"@,
            "case_sensitive"@,
        )
    } else {
        m
    }
}

/// The client's name for a tool: what the request mapped it from, or the name itself.
pub open spec fn restored_name(kiro: Seq<char>, names: Map<Seq<char>, String>) -> Seq<char> {
    if names.contains_key(kiro) {
        names[kiro]@
    } else {
        kiro
    }
}

/// The arguments as the client names them.
pub open spec fn restored_input(
    kiro: Seq<char>,
    input: JsonV,
    names: Map<Seq<char>, String>,
) -> JsonV {
    match input {
        JsonV::Object(m) => JsonV::Object(restored_fields(kiro, restored_name(kiro, names), m)),
        _ => input,
    }
}

/// A tool call under the client's names.
pub open spec fn restored_call(
    id: Seq<char>,
    kiro: Seq<char>,
    input: JsonV,
    names: Map<Seq<char>, String>,
) -> CompletedV {
    CompletedV {
        id,
        name: restored_name(kiro, names),
        input: restored_input(kiro, input, names),
    }
}

/// What the arguments of a whole tool call come to when read.
pub open spec fn arguments(input: Seq<char>) -> Reading {
    if blank(input) {
        Reading::Value(empty_object())
    } else {
        parsed(input)
    }
}

/// A whole tool call, by what its arguments came to when read.
pub open spec fn call_outcome(
    p: PendingV,
    reading: Reading,
    names: Map<Seq<char>, String>,
) -> PushV {
    match reading {
        Reading::Value(v) => PushV::Done(restored_call(p.id, p.name, v, names)),
        Reading::Fault(message) => PushV::Failed(
            ToolErrorV::Invalid { id: p.id, name: p.name, message },
        ),
    }
}

/// The position of the first pending call with the given id, from `from` on.
pub open spec fn pending_from(acc: Seq<PendingV>, id: Seq<char>, from: int) -> Option<int>
    decreases acc.len() - from,
{
    if from < 0 || from >= acc.len() {
        None
    } else if acc[from].id == id {
        Some(from)
    } else {
        pending_from(acc, id, from + 1)
    }
}

/// The call that a piece belongs to, with the piece added.
pub open spec fn merged(acc: Seq<PendingV>, t: ToolUseV) -> PendingV {
    match pending_from(acc, t.id, 0) {
        Some(i) => PendingV {
            id: t.id,
            name: if acc[i].name.len() == 0 {
                t.name
            } else {
                acc[i].name
            },
            input: acc[i].input + t.input,
        },
        None => PendingV { id: t.id, name: t.name, input: t.input },
    }
}

/// Taking in one piece of a tool call.
pub open spec fn push_step(
    acc: Seq<PendingV>,
    t: ToolUseV,
    names: Map<Seq<char>, String>,
) -> (Seq<PendingV>, PushV) {
    let p = merged(acc, t);
    let at = pending_from(acc, t.id, 0);
    if !t.stop {
        (
            match at {
                Some(i) => acc.update(i, p),
                None => acc.push(p),
            },
            PushV::Waiting,
        )
    } else {
        (
            match at {
                Some(i) => acc.remove(i),
                None => acc,
            },
            call_outcome(p, arguments(p.input), names),
        )
    }
}

/// The pending calls without arguments, or those with some.
pub open spec fn with_blank(acc: Seq<PendingV>, blanks: bool) -> Seq<PendingV>
    decreases acc.len(),
{
    if acc.len() == 0 {
        Seq::empty()
    } else if blank(acc.last().input) == blanks {
        with_blank(acc.drop_last(), blanks).push(acc.last())
    } else {
        with_blank(acc.drop_last(), blanks)
    }
}

/// The position of the pending call with the most bytes; of several, the last.
pub open spec fn longest(acc: Seq<PendingV>) -> int
    decreases acc.len(),
{
    if acc.len() <= 1 {
        0
    } else {
        let best = longest(acc.drop_last());
        if byte_len(acc.last().input) >= byte_len(acc[best].input) {
            acc.len() - 1
        } else {
            best
        }
    }
}

/// Calls without arguments, as the client gets them.
pub open spec fn without_arguments(
    acc: Seq<PendingV>,
    names: Map<Seq<char>, String>,
) -> Seq<CompletedV> {
    acc.map_values(|p: PendingV| restored_call(p.id, p.name, empty_object(), names))
}

/// The end of the stream: calls without arguments are whole, a call cut short is an error.
pub open spec fn finish_step(acc: Seq<PendingV>, names: Map<Seq<char>, String>) -> (
    Seq<PendingV>,
    FinishV,
) {
    let cut = with_blank(acc, false);
    if cut.len() == 0 {
        (cut, FinishV::Done(without_arguments(with_blank(acc, true), names)))
    } else {
        let i = longest(cut);
        (
            cut.remove(i),
            FinishV::Failed(
                ToolErrorV::Incomplete {
                    id: cut[i].id,
                    name: cut[i].name,
                    bytes: byte_len(cut[i].input),
                },
            ),
        )
    }
}

/// No two pending calls have the same id.
pub open spec fn acc_ok(acc: Seq<PendingV>) -> bool {
    forall|i: int, j: int|
        #![trigger acc[i], acc[j]]
        0 <= i < j < acc.len() ==> acc[i].id != acc[j].id
}

pub proof fn lemma_pending_from(acc: Seq<PendingV>, id: Seq<char>, from: int)
    requires
        0 <= from,
    ensures
        pending_from(acc, id, from) matches Some(i) ==> from <= i < acc.len() && acc[i].id == id,
        pending_from(acc, id, from) is None ==> forall|j: int|
            from <= j < acc.len() ==> (#[trigger] acc[j]).id != id,
    decreases acc.len() - from,
{
    if from < acc.len() && acc[from].id != id {
        lemma_pending_from(acc, id, from + 1);
    }
}

pub proof fn lemma_longest(acc: Seq<PendingV>)
    requires
        acc.len() > 0,
    ensures
        0 <= longest(acc) < acc.len(),
        forall|j: int|
            0 <= j < acc.len() ==> byte_len((#[trigger] acc[j]).input) <= byte_len(
                acc[longest(acc)].input,
            ),
        forall|j: int|
            longest(acc) < j < acc.len() ==> byte_len((#[trigger] acc[j]).input) < byte_len(
                acc[longest(acc)].input,
            ),
    decreases acc.len(),
{
    if acc.len() > 1 {
        let front = acc.drop_last();
        lemma_longest(front);
        assert forall|j: int| 0 <= j < acc.len() implies byte_len((#[trigger] acc[j]).input)
            <= byte_len(acc[longest(acc)].input) by {
            if j < front.len() {
                assert(front[j] == acc[j]);
            }
        }
        assert forall|j: int| longest(acc) < j < acc.len() implies byte_len(
            (#[trigger] acc[j]).input,
        ) < byte_len(acc[longest(acc)].input) by {
            if j < front.len() {
                assert(front[j] == acc[j]);
            }
        }
    }
}

pub proof fn lemma_with_blank_len(acc: Seq<PendingV>, blanks: bool)
    ensures
        with_blank(acc, blanks).len() <= acc.len(),
    decreases acc.len(),
{
    if acc.len() > 0 {
        lemma_with_blank_len(acc.drop_last(), blanks);
    }
}

proof fn lemma_with_blank_ok(acc: Seq<PendingV>, blanks: bool)
    requires
        acc_ok(acc),
    ensures
        acc_ok(with_blank(acc, blanks)),
        forall|i: int|
            0 <= i < with_blank(acc, blanks).len() ==> acc.contains(
                #[trigger] with_blank(acc, blanks)[i],
            ),
        forall|i: int|
            0 <= i < with_blank(acc, blanks).len() ==> blank(
                (#[trigger] with_blank(acc, blanks)[i]).input,
            ) == blanks,
    decreases acc.len(),
{
    if acc.len() > 0 {
        let front = acc.drop_last();
        lemma_with_blank_ok(front, blanks);
        let kept = with_blank(front, blanks);
        assert forall|i: int| 0 <= i < with_blank(acc, blanks).len() implies acc.contains(
            #[trigger] with_blank(acc, blanks)[i],
        ) by {
            if i < kept.len() {
                assert(front.contains(kept[i]));
                let j = choose|j: int| 0 <= j < front.len() && #[trigger] front[j] == kept[i];
                assert(acc[j] == with_blank(acc, blanks)[i]);
            } else {
                assert(acc[acc.len() - 1] == with_blank(acc, blanks)[i]);
            }
        }
        assert forall|i: int, j: int|
            0 <= i < j < with_blank(acc, blanks).len() implies #[trigger] with_blank(
            acc,
            blanks,
        )[i].id != #[trigger] with_blank(acc, blanks)[j].id by {
            if j == kept.len() {
                assert(front.contains(kept[i]));
                let k = choose|k: int| 0 <= k < front.len() && #[trigger] front[k] == kept[i];
                assert(acc[k].id != acc[acc.len() - 1].id);
            }
        }
    }
}

/// A tool call reaches the client only when its last piece has come and all of its pieces
/// together are JSON, or are blank and stand for an empty object.
pub proof fn law_only_whole_json_is_forwarded(
    acc: Seq<PendingV>,
    t: ToolUseV,
    names: Map<Seq<char>, String>,
)
    ensures
        push_step(acc, t, names).1 matches PushV::Done(call) ==> {
            &&& t.stop
            &&& call.id == t.id
            &&& if blank(merged(acc, t).input) {
                call.input == restored_input(merged(acc, t).name, empty_object(), names)
            } else {
                parsed(merged(acc, t).input) matches Reading::Value(v) && call.input
                    == restored_input(merged(acc, t).name, v, names)
            }
        },
{
}

/// At the end of the stream a call is forwarded only where none was cut short, and a call cut
/// short is named by the error.
pub proof fn law_no_cut_call_is_forwarded(acc: Seq<PendingV>, names: Map<Seq<char>, String>)
    requires
        acc_ok(acc),
    ensures
        finish_step(acc, names).1 is Done <==> (forall|i: int|
            0 <= i < acc.len() ==> blank((#[trigger] acc[i]).input)),
        finish_step(acc, names).1 matches FinishV::Failed(e) ==> exists|i: int|
            0 <= i < acc.len() && !blank((#[trigger] acc[i]).input) && e
                == (ToolErrorV::Incomplete {
                id: acc[i].id,
                name: acc[i].name,
                bytes: byte_len(acc[i].input),
            }),
{
    lemma_with_blank_ok(acc, false);
    lemma_all_blank(acc);
    let cut = with_blank(acc, false);
    if cut.len() > 0 {
        lemma_longest(cut);
        assert(acc.contains(cut[longest(cut)]));
        let i = choose|i: int| 0 <= i < acc.len() && #[trigger] acc[i] == cut[longest(cut)];
        assert(!blank(acc[i].input));
    }
}

/// The pending call with the given id, where there is one.
pub open spec fn pending_of(acc: Seq<PendingV>, id: Seq<char>) -> Option<PendingV> {
    match pending_from(acc, id, 0) {
        Some(i) => Some(acc[i]),
        None => None,
    }
}

/// What is pending after several pieces, one after the other.
pub open spec fn pushed(
    acc: Seq<PendingV>,
    pieces: Seq<ToolUseV>,
    names: Map<Seq<char>, String>,
) -> Seq<PendingV>
    decreases pieces.len(),
{
    if pieces.len() == 0 {
        acc
    } else {
        push_step(pushed(acc, pieces.drop_last(), names), pieces.last(), names).0
    }
}

/// What the piece at position `i` leads to, behind those before it.
pub open spec fn outcome_at(
    acc: Seq<PendingV>,
    pieces: Seq<ToolUseV>,
    i: int,
    names: Map<Seq<char>, String>,
) -> PushV {
    push_step(pushed(acc, pieces.take(i), names), pieces[i], names).1
}

/// The arguments in the pieces of one call, put together.
pub open spec fn input_for(pieces: Seq<ToolUseV>, id: Seq<char>) -> Seq<char>
    decreases pieces.len(),
{
    if pieces.len() == 0 {
        Seq::empty()
    } else if pieces.last().id == id {
        input_for(pieces.drop_last(), id) + pieces.last().input
    } else {
        input_for(pieces.drop_last(), id)
    }
}

/// Whether any of the pieces belongs to the call.
pub open spec fn has_piece(pieces: Seq<ToolUseV>, id: Seq<char>) -> bool {
    exists|i: int| 0 <= i < pieces.len() && (#[trigger] pieces[i]).id == id
}

/// The pending call with an id is the one that has it.
proof fn lemma_pending_at(acc: Seq<PendingV>, i: int)
    requires
        acc_ok(acc),
        0 <= i < acc.len(),
    ensures
        pending_from(acc, acc[i].id, 0) == Some(i),
{
    lemma_pending_from(acc, acc[i].id, 0);
    assert(acc[i].id == acc[i].id);
    let j = pending_from(acc, acc[i].id, 0)->0;
    if j < i {
        assert(acc[j].id != acc[i].id);
    } else if i < j {
        assert(acc[i].id != acc[j].id);
    }
}

/// A piece changes what is pending of its own call, and of no other; behind the last piece of a
/// call nothing of it is pending.
pub proof fn law_calls_do_not_mix(
    acc: Seq<PendingV>,
    t: ToolUseV,
    names: Map<Seq<char>, String>,
    id: Seq<char>,
)
    requires
        acc_ok(acc),
    ensures
        acc_ok(push_step(acc, t, names).0),
        pending_of(push_step(acc, t, names).0, id) == (if id != t.id {
            pending_of(acc, id)
        } else if t.stop {
            None
        } else {
            Some(merged(acc, t))
        }),
{
    let next = push_step(acc, t, names).0;
    let p = merged(acc, t);
    lemma_pending_from(acc, t.id, 0);
    lemma_pending_from(acc, id, 0);
    lemma_pending_from(next, id, 0);
    let at = pending_from(acc, t.id, 0);
    assert forall|i: int, j: int|
        #![trigger next[i], next[j]]
        0 <= i < j < next.len() implies next[i].id != next[j].id by {
        if at is Some && t.stop {
            let k = at->0;
            let a = if i < k {
                i
            } else {
                i + 1
            };
            let b = if j < k {
                j
            } else {
                j + 1
            };
            assert(next[i] == acc[a] && next[j] == acc[b]);
        } else if i < acc.len() && j < acc.len() {
            assert(acc[i].id != acc[j].id);
        } else if i < acc.len() {
            assert(acc[i].id != t.id);
        }
    }
    if id == t.id {
        if t.stop {
            if pending_from(next, id, 0) is Some {
                let m = pending_from(next, id, 0)->0;
                match at {
                    Some(k) => {
                        let a = if m < k {
                            m
                        } else {
                            m + 1
                        };
                        assert(next[m] == acc[a]);
                        lemma_pending_at(acc, a);
                    },
                    None => {
                        assert(acc[m].id != id);
                    },
                }
            }
        } else {
            let k = match at {
                Some(k) => k,
                None => acc.len() as int,
            };
            assert(next[k] == p);
            lemma_pending_at(next, k);
        }
    } else {
        match pending_from(acc, id, 0) {
            Some(m) => {
                let k = match at {
                    Some(k) => if t.stop && k < m {
                        m - 1
                    } else {
                        m
                    },
                    None => m,
                };
                assert(next[k] == acc[m]);
                lemma_pending_at(next, k);
            },
            None => {
                if pending_from(next, id, 0) is Some {
                    let m = pending_from(next, id, 0)->0;
                    match at {
                        Some(k) => {
                            let a = if t.stop && m >= k {
                                m + 1
                            } else {
                                m
                            };
                            if t.stop || m != k {
                                assert(next[m] == acc[a]);
                                assert(acc[a].id != id);
                            }
                        },
                        None => {
                            if m < acc.len() {
                                assert(next[m] == acc[m]);
                                assert(acc[m].id != id);
                            }
                        },
                    }
                }
            },
        }
    }
}

/// While the last piece of a call has not come, all of its pieces together are pending.
proof fn lemma_pieces_gather(
    acc: Seq<PendingV>,
    pieces: Seq<ToolUseV>,
    names: Map<Seq<char>, String>,
    id: Seq<char>,
    name: Seq<char>,
)
    requires
        acc_ok(acc),
        pending_of(acc, id) is None,
        forall|i: int|
            0 <= i < pieces.len() && (#[trigger] pieces[i]).id == id ==> pieces[i].name == name
                && !pieces[i].stop,
    ensures
        acc_ok(pushed(acc, pieces, names)),
        pending_of(pushed(acc, pieces, names), id) == (if has_piece(pieces, id) {
            Some(PendingV { id, name, input: input_for(pieces, id) })
        } else {
            None
        }),
        !has_piece(pieces, id) ==> input_for(pieces, id).len() == 0,
    decreases pieces.len(),
{
    if pieces.len() > 0 {
        let front = pieces.drop_last();
        let t = pieces.last();
        assert(pieces[pieces.len() - 1] == t);
        assert forall|i: int|
            0 <= i < front.len() && (#[trigger] front[i]).id == id implies front[i].name == name
            && !front[i].stop by {
            assert(front[i] == pieces[i]);
        }
        lemma_pieces_gather(acc, front, names, id, name);
        let before = pushed(acc, front, names);
        law_calls_do_not_mix(before, t, names, id);
        lemma_pending_from(before, id, 0);
        if has_piece(front, id) {
            let i = choose|i: int| 0 <= i < front.len() && (#[trigger] front[i]).id == id;
            assert(pieces[i].id == id);
        }
        if t.id == id {
            assert(has_piece(pieces, id));
            assert(merged(before, t).input =~= input_for(pieces, id));
            assert(merged(before, t).name =~= name);
        } else if has_piece(pieces, id) {
            let i = choose|i: int| 0 <= i < pieces.len() && (#[trigger] pieces[i]).id == id;
            assert(front[i].id == id);
        }
    }
}

/// A call that comes in pieces, whatever pieces of other calls come between them, is the call
/// that its arguments would be in one piece: until its last piece it waits, then it comes to what
/// the whole would have come to on its own, and nothing of it stays behind.
pub proof fn law_pieces_make_the_call(
    acc: Seq<PendingV>,
    pieces: Seq<ToolUseV>,
    names: Map<Seq<char>, String>,
    id: Seq<char>,
    name: Seq<char>,
)
    requires
        acc_ok(acc),
        pending_of(acc, id) is None,
        pieces.len() > 0,
        pieces.last().id == id,
        forall|i: int|
            0 <= i < pieces.len() && (#[trigger] pieces[i]).id == id ==> pieces[i].name == name && (
            pieces[i].stop <==> i == pieces.len() - 1),
    ensures
        forall|i: int|
            0 <= i < pieces.len() - 1 && (#[trigger] pieces[i]).id == id ==> outcome_at(
                acc,
                pieces,
                i,
                names,
            ) == PushV::Waiting,
        outcome_at(acc, pieces, pieces.len() - 1, names) == push_step(
            Seq::empty(),
            ToolUseV { name, id, input: input_for(pieces, id), stop: true },
            names,
        ).1,
        pending_of(pushed(acc, pieces, names), id) is None,
        acc_ok(pushed(acc, pieces, names)),
{
    let front = pieces.drop_last();
    let t = pieces.last();
    let last = pieces.len() - 1;
    assert(pieces[last] == t);
    assert(pieces.take(last) =~= front);
    assert forall|i: int|
        0 <= i < front.len() && (#[trigger] front[i]).id == id implies front[i].name == name
        && !front[i].stop by {
        assert(front[i] == pieces[i]);
    }
    lemma_pieces_gather(acc, front, names, id, name);
    let before = pushed(acc, front, names);
    law_calls_do_not_mix(before, t, names, id);
    lemma_pending_from(before, id, 0);
    let whole = ToolUseV { name, id, input: input_for(pieces, id), stop: true };
    assert(pending_from(Seq::<PendingV>::empty(), id, 0) is None);
    assert(merged(before, t).input =~= whole.input);
    assert(merged(before, t).name =~= name);
    assert(merged(before, t) == merged(Seq::empty(), whole));
}

proof fn lemma_all_blank(acc: Seq<PendingV>)
    ensures
        with_blank(acc, false).len() == 0 <==> forall|i: int|
            0 <= i < acc.len() ==> blank((#[trigger] acc[i]).input),
    decreases acc.len(),
{
    if acc.len() > 0 {
        let front = acc.drop_last();
        lemma_all_blank(front);
        if with_blank(acc, false).len() == 0 {
            assert forall|i: int| 0 <= i < acc.len() implies blank((#[trigger] acc[i]).input) by {
                if i < front.len() {
                    assert(front[i] == acc[i]);
                }
            }
        } else if with_blank(front, false).len() > 0 {
            let i = choose|i: int| 0 <= i < front.len() && !blank((#[trigger] front[i]).input);
            assert(!blank(acc[i].input));
        } else {
            assert(!blank(acc[acc.len() - 1].input));
        }
    }
}

/// Moves the value under `from` to `to`.
fn rename(o: &mut JsonObject, from: &str, to: &str)
    ensures
        final(o).view() == renamed(old(o).view(), from@, to@),
{
    match o.take(from) {
        Some(v) => {
            o.insert(to, v);
        },
        None => {
            assert(o.view() =~= old(o).view());
        },
    }
}

/// A number of lines.
fn as_line_number(v: Option<&Json>) -> (r: Option<u64>)
    ensures
        r is Some <==> v is Some && line_number(v->0.view()) is Some,
        r matches Some(n) ==> line_number(v->0.view()) == Some(n as int),
{
    match v {
        Some(Json::Pos(n)) => Some(*n),
        Some(Json::Neg(n)) => if *n >= 0 {
            Some(*n as u64)
        } else {
            None
        },
        _ => None,
    }
}

/// Gives a line range as an offset and a count.
fn count_lines(o: &mut JsonObject)
    ensures
        final(o).view() == with_line_count(old(o).view()),
{
    let start = as_line_number(o.get("start_line"));
    let end = as_line_number(o.get("end_line"));
    match (start, end) {
        (Some(a), Some(b)) => {
            if a <= b && b - a < u64::MAX {
                let _ = o.take("end_line");
                o.insert("limit", Json::Pos(b - a + 1));
            }
        },
        _ => {},
    }
}

/// Gives the arguments of the upstream's tool under the names of the client's.
fn restore_fields(kiro: &str, client: &str, o: &mut JsonObject)
    ensures
        final(o).view() == restored_fields(kiro@, client@, old(o).view()),
{
    if text::same(kiro, "fs_write") && text::same(client, "Write") {
        rename(o, "path", "file_path");
        rename(o, "text", "content");
    } else if text::same(kiro, "str_replace") && text::same(client, "Edit") {
        rename(o, "path", "file_path");
        rename(o, "oldStr", "old_string");
        rename(o, "newStr", "new_string");
    } else if text::same(kiro, "read_file") && text::same(client, "Read") {
        count_lines(o);
        rename(o, "path", "file_path");
        rename(o, "start_line", "offset");
    } else if text::same(kiro, "file_search") && text::same(client, "Glob") {
        rename(o, "query", "pattern");
    } else if text::same(kiro, "grep_search") && text::same(client, "Grep") {
        rename(o, "query", "pattern");
        rename(o, "includePattern", "glob");
        rename(o, "caseSensitive", "case_sensitive");
    }
}

/// Gives a tool call the names that the client knows.
pub fn restore_tool_use_for_client(
    kiro_name: &str,
    input: Json,
    tool_name_map: &TextMap<String>,
) -> (r: (String, Json))
    ensures
        r.0@ == restored_name(kiro_name@, tool_name_map.view()),
        r.1.view() == restored_input(kiro_name@, input.view(), tool_name_map.view()),
{
    let name = match tool_name_map.get(kiro_name) {
        Some(name) => name.clone(),
        None => kiro_name.to_owned(),
    };
    match input {
        Json::Object(fields) => {
            let mut fields = fields;
            restore_fields(kiro_name, name.as_str(), &mut fields);
            (name, Json::Object(fields))
        },
        other => (name, other),
    }
}

/// What reading came to, as a value of the model.
pub open spec fn reading_of(r: Result<Json, String>) -> Reading {
    match r {
        Ok(v) => Reading::Value(v.view()),
        Err(e) => Reading::Fault(e@),
    }
}

/// What a call of `push` returned, as a value of the model.
pub open spec fn push_of(
    r: Result<Option<CompletedToolUse>, ToolJsonAccumulatorError>,
) -> PushV {
    match r {
        Ok(Some(call)) => PushV::Done(call.view()),
        Ok(None) => PushV::Waiting,
        Err(e) => PushV::Failed(e.view()),
    }
}

/// The calls of a list.
pub open spec fn calls(items: Seq<CompletedToolUse>) -> Seq<CompletedV> {
    items.map_values(|c: CompletedToolUse| c.view())
}

/// What a call of `finish` returned, as a value of the model.
pub open spec fn finish_of(
    r: Result<Vec<CompletedToolUse>, ToolJsonAccumulatorError>,
) -> FinishV {
    match r {
        Ok(done) => FinishV::Done(calls(done@)),
        Err(e) => FinishV::Failed(e.view()),
    }
}

/// Makes a whole tool call out of what its arguments came to when read.
pub fn complete_tool_use(
    tool_use_id: &str,
    kiro_name: &str,
    input: Result<Json, String>,
    tool_name_map: &TextMap<String>,
) -> (r: Result<Option<CompletedToolUse>, ToolJsonAccumulatorError>)
    ensures
        push_of(r) == call_outcome(
            (PendingV { id: tool_use_id@, name: kiro_name@, input: Seq::empty() }),
            reading_of(input),
            tool_name_map.view(),
        ),
{
    match input {
        Ok(input) => {
            let (name, input) = restore_tool_use_for_client(kiro_name, input, tool_name_map);
            Ok(Some(CompletedToolUse { id: tool_use_id.to_owned(), name, input }))
        },
        Err(message) => Err(
            ToolJsonAccumulatorError::InvalidJson {
                tool_use_id: tool_use_id.to_owned(),
                name: kiro_name.to_owned(),
                message,
            },
        ),
    }
}

struct Pending {
    id: String,
    name: String,
    input: String,
}

impl Pending {
    spec fn view(&self) -> PendingV {
        PendingV { id: self.id@, name: self.name@, input: self.input@ }
    }
}

spec fn pending_views(items: Seq<Pending>) -> Seq<PendingV> {
    items.map_values(|p: Pending| p.view())
}

/// Gathers the pieces of tool calls until each is whole.
///
/// The calls at hand stand in the order in which their first pieces came.
pub struct ToolJsonAccumulator {
    buffers: Vec<Pending>,
}

impl ToolJsonAccumulator {
    pub closed spec fn view(&self) -> Seq<PendingV> {
        pending_views(self.buffers@)
    }

    pub fn new() -> (r: ToolJsonAccumulator)
        ensures
            r.view() == Seq::<PendingV>::empty(),
            acc_ok(r.view()),
    {
        let r = ToolJsonAccumulator { buffers: Vec::new() };
        assert(r.view() =~= Seq::empty());
        r
    }

    /// Number of tool calls whose end has not come.
    pub fn pending(&self) -> (r: usize)
        ensures
            r == self.view().len(),
    {
        self.buffers.len()
    }

    /// Position of the pending call with the given id.
    fn find(&self, id: &str) -> (r: Option<usize>)
        ensures
            r is Some <==> pending_from(self.view(), id@, 0) is Some,
            r matches Some(i) ==> pending_from(self.view(), id@, 0) == Some(i as int) && i
                < self.buffers.len(),
    {
        let mut i: usize = 0;
        while i < self.buffers.len()
            invariant
                i <= self.buffers.len(),
                pending_from(self.view(), id@, 0) == pending_from(self.view(), id@, i as int),
            decreases self.buffers.len() - i,
        {
            assert(self.view()[i as int] == self.buffers@[i as int].view());
            if text::same(self.buffers[i].id.as_str(), id) {
                return Some(i);
            }
            i += 1;
        }
        None
    }

    /// The call that a piece belongs to, with the piece added, taken out of the buffers.
    fn merge(&mut self, tool_use: &ToolUseEvent) -> (r: (Option<usize>, Pending))
        ensures
            r.1.view() == merged(old(self).view(), tool_use.view()),
            r.0 is Some <==> pending_from(old(self).view(), tool_use.view().id, 0) is Some,
            r.0 matches Some(i) ==> pending_from(old(self).view(), tool_use.view().id, 0) == Some(
                i as int,
            ) && i < old(self).view().len() && final(self).view() == old(self).view().remove(
                i as int,
            ),
            r.0 is None ==> final(self).view() == old(self).view(),
            final(self).buffers.len() == final(self).view().len(),
    {
        match self.find(tool_use.tool_use_id.as_str()) {
            Some(i) => {
                assert(self.view()[i as int] == self.buffers@[i as int].view());
                let mut p = self.buffers.remove(i);
                assert(self.view() =~= old(self).view().remove(i as int));
                proof {
                    lemma_pending_from(old(self).view(), tool_use.view().id, 0);
                }
                if p.name.as_str().is_empty() {
                    p.name = tool_use.name.clone();
                }
                p.input.append(tool_use.input.as_str());
                (Some(i), p)
            },
            None => (
                None,
                Pending {
                    id: tool_use.tool_use_id.clone(),
                    name: tool_use.name.clone(),
                    input: tool_use.input.clone(),
                },
            ),
        }
    }

    /// Takes in one piece of a tool call, and gives the call back when it is whole.
    pub fn push(&mut self, tool_use: &ToolUseEvent, tool_name_map: &TextMap<String>) -> (r: Result<
        Option<CompletedToolUse>,
        ToolJsonAccumulatorError,
    >)
        ensures
            final(self).view() == push_step(
                old(self).view(),
                tool_use.view(),
                tool_name_map.view(),
            ).0,
            push_of(r) == push_step(old(self).view(), tool_use.view(), tool_name_map.view()).1,
            acc_ok(old(self).view()) ==> acc_ok(final(self).view()),
    {
        let (at, p) = self.merge(tool_use);
        proof {
            lemma_pending_from(old(self).view(), tool_use.view().id, 0);
        }
        if !tool_use.stop {
            match at {
                Some(i) => {
                    let ghost before = self.view();
                    self.buffers.insert(i, p);
                    assert(self.view() =~= before.insert(i as int, p.view()));
                    assert(self.view() =~= old(self).view().update(i as int, p.view()));
                },
                None => {
                    self.buffers.push(p);
                    assert(self.view() =~= old(self).view().push(p.view()));
                },
            }
            return Ok(None);
        }
        let input = if text::is_blank(p.input.as_str()) {
            Ok(Json::Object(JsonObject::new()))
        } else {
            Json::parse(p.input.as_str())
        };
        complete_tool_use(p.id.as_str(), p.name.as_str(), input, tool_name_map)
    }

    /// Parts the pending calls into those without arguments, as the client gets them, and the
    /// others.
    fn part(buffers: Vec<Pending>, tool_name_map: &TextMap<String>) -> (r: (
        Vec<CompletedToolUse>,
        Vec<Pending>,
    ))
        ensures
            calls(r.0@) == without_arguments(
                with_blank(pending_views(buffers@), true),
                tool_name_map.view(),
            ),
            pending_views(r.1@) == with_blank(pending_views(buffers@), false),
    {
        let ghost all = pending_views(buffers@);
        let mut rest = buffers;
        let mut blanks: Vec<CompletedToolUse> = Vec::new();
        let mut cut: Vec<Pending> = Vec::new();
        let mut i: usize = 0;
        let n = rest.len();
        assert(all.take(0) =~= Seq::empty());
        assert(calls(blanks@) =~= without_arguments(
            with_blank(all.take(0), true),
            tool_name_map.view(),
        ));
        assert(pending_views(cut@) =~= with_blank(all.take(0), false));
        assert(all.skip(0) =~= all);
        while i < n
            invariant
                i <= n,
                n == all.len(),
                rest.len() == n - i,
                pending_views(rest@) == all.skip(i as int),
                calls(blanks@) == without_arguments(
                    with_blank(all.take(i as int), true),
                    tool_name_map.view(),
                ),
                pending_views(cut@) == with_blank(all.take(i as int), false),
            decreases n - i,
        {
            let ghost names = tool_name_map.view();
            let ghost r0 = rest@;
            let p = rest.remove(0);
            proof {
                assert(pending_views(r0)[0] == p.view());
                assert(pending_views(rest@) =~= pending_views(r0).remove(0));
                assert(pending_views(rest@) =~= all.skip(i + 1));
                assert(p.view() == all[i as int]);
                assert(all.take(i + 1).drop_last() =~= all.take(i as int));
                assert(all.take(i + 1).last() == p.view());
            }
            let ghost b0 = calls(blanks@);
            let ghost before = with_blank(all.take(i as int), true);
            if text::is_blank(p.input.as_str()) {
                let (name, input) = restore_tool_use_for_client(
                    p.name.as_str(),
                    Json::Object(JsonObject::new()),
                    tool_name_map,
                );
                let call = CompletedToolUse { id: p.id, name, input };
                blanks.push(call);
                proof {
                    assert(calls(blanks@) =~= b0.push(call.view()));
                    assert(without_arguments(before.push(p.view()), names) =~= without_arguments(
                        before,
                        names,
                    ).push(call.view()));
                }
            } else {
                let ghost c0 = pending_views(cut@);
                cut.push(p);
                assert(pending_views(cut@) =~= c0.push(p.view()));
            }
            i += 1;
        }
        assert(all.take(n as int) =~= all);
        (blanks, cut)
    }

    /// Ends the stream: gives back the calls without arguments, or tells of a call cut short.
    pub fn finish(&mut self, tool_name_map: &TextMap<String>) -> (r: Result<
        Vec<CompletedToolUse>,
        ToolJsonAccumulatorError,
    >)
        ensures
            final(self).view() == finish_step(old(self).view(), tool_name_map.view()).0,
            finish_of(r) == finish_step(old(self).view(), tool_name_map.view()).1,
            acc_ok(old(self).view()) ==> acc_ok(final(self).view()),
    {
        let mut buffers: Vec<Pending> = Vec::new();
        std::mem::swap(&mut buffers, &mut self.buffers);
        let (blanks, cut) = ToolJsonAccumulator::part(buffers, tool_name_map);
        let ghost left = pending_views(cut@);
        proof {
            if acc_ok(old(self).view()) {
                lemma_with_blank_ok(old(self).view(), false);
            }
        }
        self.buffers = cut;
        if self.buffers.len() == 0 {
            assert(self.view() =~= left);
            return Ok(blanks);
        }
        let mut best: usize = 0;
        let mut best_bytes = text::byte_length(self.buffers[0].input.as_str());
        let mut i: usize = 1;
        proof {
            assert(left[0] == self.buffers@[0].view());
            assert(left.take(1).len() == 1);
        }
        while i < self.buffers.len()
            invariant
                1 <= i <= self.buffers.len(),
                best < i,
                left == pending_views(self.buffers@),
                best == longest(left.take(i as int)),
                best_bytes == byte_len(left[best as int].input),
            decreases self.buffers.len() - i,
        {
            let bytes = text::byte_length(self.buffers[i].input.as_str());
            proof {
                let upto = left.take(i + 1);
                assert(upto.drop_last() =~= left.take(i as int));
                assert(upto.last() == self.buffers@[i as int].view());
                assert(upto[best as int] == left[best as int]);
            }
            if bytes >= best_bytes {
                best = i;
                best_bytes = bytes;
            }
            i += 1;
        }
        assert(left.take(left.len() as int) =~= left);
        assert(left[best as int] == self.buffers@[best as int].view());
        let p = self.buffers.remove(best);
        assert(self.view() =~= left.remove(best as int));
        Err(
            ToolJsonAccumulatorError::IncompleteJson {
                tool_use_id: p.id,
                name: p.name,
                bytes: best_bytes,
            },
        )
    }
}

} // verus!
