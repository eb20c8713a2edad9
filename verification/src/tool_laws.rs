//! Tool calls reach the client under the names that it knows.

use crate::json::{field, parsed, Json, JsonV, Reading};
use crate::text::{blank, byte_len, occurs, occurs_at};
use crate::text_map::TextMap;
use crate::tool_json::{acc_ok, finish_of, finish_step, lemma_longest, lemma_pending_from, longest};
use crate::tool_json::{pending_of, push_step, restore_tool_use_for_client, restored_fields};
use crate::tool_json::{with_blank, CompletedToolUse, PendingV, ToolJsonAccumulator};
use crate::tool_json::{ToolJsonAccumulatorError, ToolUseEvent, ToolUseV};
use vstd::prelude::*;

verus! {

/// The client's name for a tool of the upstream: the one that the request was mapped from.
pub open spec fn client_name(kiro: Seq<char>, names: Map<Seq<char>, String>) -> Seq<char> {
    if names.contains_key(kiro) {
        names[kiro]@
    } else {
        kiro
    }
}

/// What stood under `from` now stands under `to`, and nothing under `from`.
pub open spec fn moved(before: JsonV, after: JsonV, from: Seq<char>, to: Seq<char>) -> bool {
    &&& field(after, from) is None
    &&& field(before, from) is Some ==> field(after, to) == field(before, from)
    &&& field(before, from) is None ==> field(after, to) == field(before, to)
}

/// The upstream's tool and the client's are the given ones.
pub open spec fn pair(
    kiro: Seq<char>,
    client: Seq<char>,
    a: Seq<char>,
    b: Seq<char>,
) -> bool {
    kiro == a && client == b
}

/// A range of lines that the upstream gives by its ends, and the client by its first line and
/// the number of lines, both ends counted. Ends that make no range stay as they are.
pub open spec fn same_lines(before: JsonV, after: JsonV) -> bool {
    let stays = field(after, "limit"@) == field(before, "limit"@) && field(after, "end_line"@)
        == field(before, "end_line"@);
    match (field(before, "start_line"@), field(before, "end_line"@)) {
        (Some(JsonV::Int(a)), Some(JsonV::Int(b))) => if 0 <= a <= b <= u64::MAX && b - a
            < u64::MAX {
            field(after, "offset"@) == Some(JsonV::Int(a)) && field(after, "limit"@) == Some(
                JsonV::Int(b - a + 1),
            ) && field(after, "end_line"@) is None
        } else {
            stays
        },
        _ => stays,
    }
}

/// The arguments of a call of the upstream's tool `kiro`, as the client's tool `client` takes
/// them: the same values under the client's names. Other tools' arguments are the same.
pub open spec fn same_arguments(
    kiro: Seq<char>,
    client: Seq<char>,
    before: JsonV,
    after: JsonV,
) -> bool {
    if !(before is Object) {
        after == before
    } else if pair(kiro, client, "fs_write"@, "Write"@) {
        &&& moved(before, after, "path"@, "file_path"@)
        &&& moved(before, after, "text"@, "content"@)
        &&& forall|key: Seq<char>|
            key != "path"@ && key != "file_path"@ && key != "text"@ && key != "content"@
                ==> #[trigger] field(after, key) == field(before, key)
    } else if pair(kiro, client, "str_replace"@, "Edit"@) {
        &&& moved(before, after, "path"@, "file_path"@)
        &&& moved(before, after, "oldStr"@, "old_string"@)
        &&& moved(before, after, "newStr"@, "new_string"@)
        &&& forall|key: Seq<char>|
            key != "path"@ && key != "file_path"@ && key != "oldStr"@ && key != "old_string"@
                && key != "newStr"@ && key != "new_string"@ ==> #[trigger] field(after, key)
                == field(before, key)
    } else if pair(kiro, client, "read_file"@, "Read"@) {
        &&& moved(before, after, "path"@, "file_path"@)
        &&& moved(before, after, "start_line"@, "offset"@)
        &&& same_lines(before, after)
        &&& forall|key: Seq<char>|
            key != "path"@ && key != "file_path"@ && key != "start_line"@ && key != "offset"@
                && key != "end_line"@ && key != "limit"@ ==> #[trigger] field(after, key) == field(
                before,
                key,
            )
    } else if pair(kiro, client, "file_search"@, "Glob"@) {
        &&& moved(before, after, "query"@, "pattern"@)
        &&& forall|key: Seq<char>|
            key != "query"@ && key != "pattern"@ ==> #[trigger] field(after, key) == field(
                before,
                key,
            )
    } else if pair(kiro, client, "grep_search"@, "Grep"@) {
        &&& moved(before, after, "query"@, "pattern"@)
        &&& moved(before, after, "includePattern"@, "glob"@)
        &&& moved(before, after, "caseSensitive"@, "case_sensitive"@)
        &&& forall|key: Seq<char>|
            key != "query"@ && key != "pattern"@ && key != "includePattern"@ && key != "glob"@
                && key != "caseSensitive"@ && key != "case_sensitive"@ ==> #[trigger] field(
                after,
                key,
            ) == field(before, key)
    } else {
        after == before
    }
}

proof fn lemma_argument_names()
    ensures
        "path"@ != "file_path"@ && "path"@ != "text"@ && "path"@ != "content"@ && "file_path"@
            != "text"@ && "file_path"@ != "content"@ && "text"@ != "content"@,
        "oldStr"@ != "old_string"@ && "oldStr"@ != "newStr"@ && "oldStr"@ != "new_string"@
            && "old_string"@ != "newStr"@ && "old_string"@ != "new_string"@ && "newStr"@
            != "new_string"@,
        "path"@ != "oldStr"@ && "path"@ != "old_string"@ && "path"@ != "newStr"@ && "path"@
            != "new_string"@ && "file_path"@ != "oldStr"@ && "file_path"@ != "old_string"@
            && "file_path"@ != "newStr"@ && "file_path"@ != "new_string"@,
        "path"@ != "start_line"@ && "path"@ != "offset"@ && "path"@ != "end_line"@ && "path"@
            != "limit"@ && "file_path"@ != "start_line"@ && "file_path"@ != "offset"@
            && "file_path"@ != "end_line"@ && "file_path"@ != "limit"@,
        "start_line"@ != "offset"@ && "start_line"@ != "end_line"@ && "start_line"@ != "limit"@
            && "offset"@ != "end_line"@ && "offset"@ != "limit"@ && "end_line"@ != "limit"@,
        "query"@ != "pattern"@ && "query"@ != "includePattern"@ && "query"@ != "glob"@ && "query"@
            != "caseSensitive"@ && "query"@ != "case_sensitive"@ && "pattern"@ != "includePattern"@
            && "pattern"@ != "glob"@ && "pattern"@ != "caseSensitive"@ && "pattern"@
            != "case_sensitive"@,
        "includePattern"@ != "glob"@ && "includePattern"@ != "caseSensitive"@ && "includePattern"@
            != "case_sensitive"@ && "glob"@ != "caseSensitive"@ && "glob"@ != "case_sensitive"@
            && "caseSensitive"@ != "case_sensitive"@,
{
    reveal_strlit("path");
    reveal_strlit("file_path");
    reveal_strlit("text");
    reveal_strlit("content");
    reveal_strlit("oldStr");
    reveal_strlit("old_string");
    reveal_strlit("newStr");
    reveal_strlit("new_string");
    reveal_strlit("start_line");
    reveal_strlit("offset");
    reveal_strlit("end_line");
    reveal_strlit("limit");
    reveal_strlit("query");
    reveal_strlit("pattern");
    reveal_strlit("includePattern");
    reveal_strlit("glob");
    reveal_strlit("caseSensitive");
    reveal_strlit("case_sensitive");
    assert("path"@.len() == 4 && "file_path"@.len() == 9 && "text"@.len() == 4 && "content"@.len()
        == 7 && "oldStr"@.len() == 6 && "old_string"@.len() == 10 && "newStr"@.len() == 6
        && "new_string"@.len() == 10 && "start_line"@.len() == 10 && "offset"@.len() == 6
        && "end_line"@.len() == 8 && "limit"@.len() == 5 && "query"@.len() == 5 && "pattern"@.len()
        == 7 && "includePattern"@.len() == 14 && "glob"@.len() == 4 && "caseSensitive"@.len() == 13
        && "case_sensitive"@.len() == 14);
    assert("path"@[0] == 'p' && "text"@[0] == 't' && "oldStr"@[0] == 'o' && "newStr"@[0] == 'n'
        && "old_string"@[0] == 'o' && "new_string"@[0] == 'n' && "start_line"@[0] == 's'
        && "includePattern"@[0] == 'i' && "case_sensitive"@[0] == 'c');
}

proof fn lemma_same_arguments(kiro: Seq<char>, client: Seq<char>, m: Map<Seq<char>, JsonV>)
    ensures
        same_arguments(
            kiro,
            client,
            JsonV::Object(m),
            JsonV::Object(restored_fields(kiro, client, m)),
        ),
{
    lemma_argument_names();
    reveal_strlit("fs_write");
    reveal_strlit("str_replace");
    reveal_strlit("read_file");
    reveal_strlit("file_search");
    reveal_strlit("grep_search");
    assert("fs_write"@.len() == 8 && "str_replace"@.len() == 11 && "read_file"@.len() == 9
        && "file_search"@.len() == 11 && "grep_search"@.len() == 11);
    assert("str_replace"@[0] == 's' && "file_search"@[0] == 'f' && "grep_search"@[0] == 'g');
}

/// A tool call reaches the client under the client's name of the tool, and with the client's
/// names for its arguments; the values of the arguments are those that the upstream gave.
pub proof fn law_call_is_restored(
    kiro_name: &str,
    input: Json,
    names: TextMap<String>,
    r: (String, Json),
)
    requires
        call_ensures(restore_tool_use_for_client, (kiro_name, input, &names), r),
    ensures
        r.0@ == client_name(kiro_name@, names.view()),
        same_arguments(
            kiro_name@,
            client_name(kiro_name@, names.view()),
            input.view(),
            r.1.view(),
        ),
{
    if let JsonV::Object(m) = input.view() {
        lemma_same_arguments(kiro_name@, client_name(kiro_name@, names.view()), m);
    }
}

/// A call of the upstream's tool `kiro` with the given arguments, as the client gets it.
pub open spec fn is_restored(
    call: CompletedToolUse,
    id: Seq<char>,
    kiro: Seq<char>,
    input: JsonV,
    names: Map<Seq<char>, String>,
) -> bool {
    &&& call.id@ == id
    &&& call.name@ == client_name(kiro, names)
    &&& same_arguments(kiro, client_name(kiro, names), input, call.input.view())
}

/// A tool call that comes in one piece is given back at once, whole and under the client's names;
/// one without arguments stands for a call with none. Where its arguments are no JSON, the error
/// names the call and says what is wrong. A piece that is not the last is waited on.
pub proof fn law_whole_call_is_given_back(
    acc: &mut ToolJsonAccumulator,
    t: ToolUseEvent,
    names: TextMap<String>,
    r: Result<Option<CompletedToolUse>, ToolJsonAccumulatorError>,
)
    requires
        call_ensures(ToolJsonAccumulator::push, (acc, &t, &names), r),
        forall|i: int|
            0 <= i < old(acc).view().len() ==> (#[trigger] old(acc).view()[i]).id
                != t.tool_use_id@,
    ensures
        !t.stop ==> r matches Ok(None),
        t.stop && blank(t.input@) ==> (r matches Ok(Some(call)) && is_restored(
            call,
            t.tool_use_id@,
            t.name@,
            JsonV::Object(Map::empty()),
            names.view(),
        )),
        t.stop && !blank(t.input@) ==> match parsed(t.input@) {
            Reading::Value(v) => r matches Ok(Some(call)) && is_restored(
                call,
                t.tool_use_id@,
                t.name@,
                v,
                names.view(),
            ),
            Reading::Fault(why) => r matches Err(
                ToolJsonAccumulatorError::InvalidJson { tool_use_id, name, message },
            ) && tool_use_id@ == t.tool_use_id@ && name@ == t.name@ && message@ == why,
        },
{
    lemma_pending_from(old(acc).view(), t.tool_use_id@, 0);
    let client = client_name(t.name@, names.view());
    lemma_same_arguments(t.name@, client, Map::empty());
    if let Reading::Value(JsonV::Object(m)) = parsed(t.input@) {
        lemma_same_arguments(t.name@, client, m);
    }
}

proof fn lemma_all_blank(acc: Seq<PendingV>)
    requires
        forall|i: int| 0 <= i < acc.len() ==> blank((#[trigger] acc[i]).input),
    ensures
        with_blank(acc, true) == acc,
    decreases acc.len(),
{
    if acc.len() > 0 {
        let front = acc.drop_last();
        assert forall|i: int| 0 <= i < front.len() implies blank((#[trigger] front[i]).input) by {
            assert(front[i] == acc[i]);
        }
        lemma_all_blank(front);
        assert(with_blank(acc, true) =~= acc);
    }
}

/// At the end of a response the calls that came without arguments are given back, all of them in
/// their order, as calls with none.
pub proof fn law_calls_without_arguments_are_given_back(
    acc: &mut ToolJsonAccumulator,
    names: TextMap<String>,
    r: Result<Vec<CompletedToolUse>, ToolJsonAccumulatorError>,
)
    requires
        call_ensures(ToolJsonAccumulator::finish, (acc, &names), r),
        acc_ok(old(acc).view()),
        forall|i: int|
            0 <= i < old(acc).view().len() ==> blank((#[trigger] old(acc).view()[i]).input),
    ensures
        r matches Ok(given) && given@.len() == old(acc).view().len() && forall|i: int|
            0 <= i < given@.len() ==> is_restored(
                #[trigger] given@[i],
                old(acc).view()[i].id,
                old(acc).view()[i].name,
                JsonV::Object(Map::empty()),
                names.view(),
            ),
        final(acc).view().len() == 0,
{
    let all = old(acc).view();
    crate::tool_json::law_no_cut_call_is_forwarded(all, names.view());
    lemma_all_blank(all);
    assert(finish_of(r) == finish_step(all, names.view()).1);
    if let Ok(given) = r {
        let views = crate::tool_json::calls(given@);
        assert(views.len() == all.len());
        assert forall|i: int| 0 <= i < given@.len() implies is_restored(
            #[trigger] given@[i],
            all[i].id,
            all[i].name,
            JsonV::Object(Map::empty()),
            names.view(),
        ) by {
            assert(views[i] == given@[i].view());
            lemma_same_arguments(
                all[i].name,
                client_name(all[i].name, names.view()),
                Map::empty(),
            );
        }
    }
}

proof fn lemma_occurs(a: Seq<char>, b: Seq<char>, c: Seq<char>)
    ensures
        occurs(a + b + c, b),
{
    assert((a + b + c).subrange(a.len() as int, (a.len() + b.len()) as int) =~= b);
    assert(occurs_at(a + b + c, b, a.len() as int));
}

/// The message of an error names the call, the tool and, where there is one, the reason.
pub proof fn law_error_names_the_call(e: ToolJsonAccumulatorError, r: String)
    requires
        call_ensures(ToolJsonAccumulatorError::message, (&e,), r),
    ensures
        e matches ToolJsonAccumulatorError::InvalidJson { tool_use_id, name, message } ==> occurs(
            r@,
            tool_use_id@,
        ) && occurs(r@, name@) && occurs(r@, message@) && occurs(r@, "invalid JSON"@),
        e matches ToolJsonAccumulatorError::IncompleteJson { tool_use_id, name, bytes } ==> occurs(
            r@,
            tool_use_id@,
        ) && occurs(r@, name@) && occurs(r@, crate::text::decimal(bytes as nat)) && occurs(
            r@,
            "not forwarded"@,
        ),
{
    match e {
        ToolJsonAccumulatorError::InvalidJson { tool_use_id, name, message } => {
            let p = "Upstream returned invalid JSON for tool_use "@;
            let (a, b, c) = (tool_use_id@, name@, message@);
            let (x, y) = (" ("@, "): "@);
            reveal_strlit("Upstream returned invalid JSON for tool_use ");
            reveal_strlit("invalid JSON");
            let p1 = p.take(18);
            let p2 = p.skip(30);
            assert(p =~= p1 + "invalid JSON"@ + p2);
            lemma_occurs(p1, "invalid JSON"@, p2 + a + x + b + y + c);
            assert(r@ =~= p1 + "invalid JSON"@ + (p2 + a + x + b + y + c));
            lemma_occurs(p, a, x + b + y + c);
            assert(r@ =~= p + a + (x + b + y + c));
            lemma_occurs(p + a + x, b, y + c);
            assert(r@ =~= (p + a + x) + b + (y + c));
            lemma_occurs(p + a + x + b + y, c, Seq::empty());
            assert(r@ =~= (p + a + x + b + y) + c + Seq::<char>::empty());
        },
        ToolJsonAccumulatorError::IncompleteJson { tool_use_id, name, bytes } => {
            let p = "Upstream ended before completing tool_use "@;
            let (a, b, c) = (tool_use_id@, name@, crate::text::decimal(bytes as nat));
            let (x, y) = (" ("@, ") JSON input; buffered "@);
            let z = " bytes. The tool call was not forwarded to the client."@;
            reveal_strlit(" bytes. The tool call was not forwarded to the client.");
            reveal_strlit("not forwarded");
            let z1 = z.take(26);
            let z2 = z.skip(39);
            assert(z =~= z1 + "not forwarded"@ + z2);
            lemma_occurs(p, a, x + b + y + c + z);
            assert(r@ =~= p + a + (x + b + y + c + z));
            lemma_occurs(p + a + x, b, y + c + z);
            assert(r@ =~= (p + a + x) + b + (y + c + z));
            lemma_occurs(p + a + x + b + y, c, z);
            assert(r@ =~= (p + a + x + b + y) + c + z);
            lemma_occurs(p + a + x + b + y + c + z1, "not forwarded"@, z2);
            assert(r@ =~= (p + a + x + b + y + c + z1) + "not forwarded"@ + z2);
        },
    }
}

/// A piece goes on where the pieces of its call before it have stopped: its arguments behind
/// theirs, and under the name that came first, whichever piece it came with.
pub proof fn law_piece_continues_its_call(
    acc: Seq<PendingV>,
    t: ToolUseV,
    names: Map<Seq<char>, String>,
    p: PendingV,
)
    requires
        pending_of(acc, t.id) == Some(p),
        t.stop,
    ensures
        push_step(acc, t, names).1 == push_step(
            Seq::empty(),
            (ToolUseV {
                name: if p.name.len() > 0 {
                    p.name
                } else {
                    t.name
                },
                id: t.id,
                input: p.input + t.input,
                stop: true,
            }),
            names,
        ).1,
{
}

proof fn lemma_kept_apart(acc: Seq<PendingV>, j: int)
    requires
        0 <= j < acc.len(),
        !blank(acc[j].input),
    ensures
        with_blank(acc, false).contains(acc[j]),
    decreases acc.len(),
{
    let front = acc.drop_last();
    let all = with_blank(acc, false);
    if j == acc.len() - 1 {
        assert(all[all.len() - 1] == acc[j]);
    } else {
        lemma_kept_apart(front, j);
        let before = with_blank(front, false);
        let k = choose|k: int| 0 <= k < before.len() && before[k] == front[j];
        assert(all[k] == acc[j]);
    }
}

/// Of several calls that were cut short, the error names one with the most bytes.
pub proof fn law_longest_cut_call_is_named(
    acc: &mut ToolJsonAccumulator,
    names: TextMap<String>,
    e: ToolJsonAccumulatorError,
)
    requires
        call_ensures(
            ToolJsonAccumulator::finish,
            (acc, &names),
            Err::<Vec<CompletedToolUse>, ToolJsonAccumulatorError>(e),
        ),
        acc_ok(old(acc).view()),
    ensures
        e matches ToolJsonAccumulatorError::IncompleteJson { tool_use_id, name, bytes } && (
        exists|i: int|
            0 <= i < old(acc).view().len() && (#[trigger] old(acc).view()[i]).id == tool_use_id@
                && old(acc).view()[i].name == name@ && byte_len(old(acc).view()[i].input) == bytes
                && !blank(old(acc).view()[i].input)) && forall|j: int|
            0 <= j < old(acc).view().len() && !blank((#[trigger] old(acc).view()[j]).input)
                ==> byte_len(old(acc).view()[j].input) <= bytes,
{
    let all = old(acc).view();
    crate::tool_json::law_no_cut_call_is_forwarded(all, names.view());
    let cut = with_blank(all, false);
    lemma_longest(cut);
    assert forall|j: int| 0 <= j < all.len() && !blank((#[trigger] all[j]).input) implies byte_len(
        all[j].input,
    ) <= byte_len(cut[longest(cut)].input) by {
        lemma_kept_apart(all, j);
        let k = choose|k: int| 0 <= k < cut.len() && cut[k] == all[j];
        assert(byte_len(cut[k].input) <= byte_len(cut[longest(cut)].input));
    }
}

} // verus!
