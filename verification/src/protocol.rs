//! The order that the Messages API prescribes for the events of a stream.

use crate::json::{field, JsonV};
use crate::sse::{block_delta_json, block_start_json, delta_event, error_event};
use crate::sse::{message_delta_event, message_stop_event, opt_events, start_event, stop_event};
use crate::sse::{SseEventV, Usage};
use crate::state::{block_delta_step, block_start_step, block_stop_step, closed_block};
use crate::state::{closed_blocks, closing_events, final_step, final_stop_reason, is_open};
use crate::state::{lemma_position_from, message_start_step, position, position_from, state_ok};
use crate::state::{to_close, BlockV, StateV};
use vstd::prelude::*;

verus! {

/// How far a stream has come, as a client that reads its events sees it.
pub struct ProgressV {
    pub started: bool,
    /// The blocks that were started, and whether each is still open.
    pub blocks: Map<int, bool>,
    pub delta_sent: bool,
    pub ended: bool,
    pub failed: bool,
}

/// Nothing has been read yet.
pub open spec fn unread() -> ProgressV {
    ProgressV {
        started: false,
        blocks: Map::empty(),
        delta_sent: false,
        ended: false,
        failed: false,
    }
}

/// The block number that an event carries.
pub open spec fn index_of(e: SseEventV) -> Option<int> {
    match field(e.data, "index"@) {
        Some(JsonV::Int(i)) => Some(i),
        _ => None,
    }
}

/// A block that is open.
pub open spec fn block_open(q: ProgressV, index: int) -> bool {
    q.blocks.contains_key(index) && q.blocks[index]
}

/// Reading one more event; none where the event is out of order.
///
/// The message starts once, before all else. A block is started once, takes additions while it
/// is open, and is stopped once. The final counts come once, when no block is open. The end of
/// the message comes once, behind the final counts. Only an error may follow.
pub open spec fn read(q: ProgressV, e: SseEventV) -> Option<ProgressV> {
    if e.event == "message_start"@ {
        if q.started {
            None
        } else {
            Some(ProgressV { started: true, ..q })
        }
    } else if e.event == "content_block_start"@ {
        match index_of(e) {
            Some(i) => if q.started && !q.delta_sent && !q.blocks.contains_key(i) {
                Some(ProgressV { blocks: q.blocks.insert(i, true), ..q })
            } else {
                None
            },
            None => None,
        }
    } else if e.event == "content_block_delta"@ {
        match index_of(e) {
            Some(i) => if block_open(q, i) {
                Some(q)
            } else {
                None
            },
            None => None,
        }
    } else if e.event == "content_block_stop"@ {
        match index_of(e) {
            Some(i) => if block_open(q, i) {
                Some(ProgressV { blocks: q.blocks.insert(i, false), ..q })
            } else {
                None
            },
            None => None,
        }
    } else if e.event == "message_delta"@ {
        if q.started && !q.delta_sent && (forall|i: int| !#[trigger] block_open(q, i)) {
            Some(ProgressV { delta_sent: true, ..q })
        } else {
            None
        }
    } else if e.event == "message_stop"@ {
        if q.delta_sent && !q.ended {
            Some(ProgressV { ended: true, ..q })
        } else {
            None
        }
    } else if e.event == "error"@ {
        if q.ended && !q.failed {
            Some(ProgressV { failed: true, ..q })
        } else {
            None
        }
    } else {
        None
    }
}

/// Reading events one after the other; none where one is out of order.
pub open spec fn read_all(q: ProgressV, events: Seq<SseEventV>) -> Option<ProgressV>
    decreases events.len(),
{
    if events.len() == 0 {
        Some(q)
    } else {
        match read_all(q, events.drop_last()) {
            Some(q1) => read(q1, events.last()),
            None => None,
        }
    }
}

pub proof fn lemma_read_all_concat(q: ProgressV, a: Seq<SseEventV>, b: Seq<SseEventV>)
    ensures
        read_all(q, a + b) == (match read_all(q, a) {
            Some(q1) => read_all(q1, b),
            None => None,
        }),
    decreases b.len(),
{
    if b.len() == 0 {
        assert(a + b =~= a);
    } else {
        lemma_read_all_concat(q, a, b.drop_last());
        assert((a + b).drop_last() =~= a + b.drop_last());
    }
}

proof fn lemma_read_one(q: ProgressV, e: SseEventV)
    ensures
        read_all(q, seq![e]) == read(q, e),
{
    assert(seq![e].drop_last() =~= Seq::empty());
    assert(read_all(q, Seq::empty()) == Some(q));
}

/// The names of events are distinct.
pub proof fn lemma_event_names()
    ensures
        "message_start"@ != "content_block_start"@,
        "message_start"@ != "content_block_delta"@,
        "message_start"@ != "content_block_stop"@,
        "message_start"@ != "message_delta"@,
        "message_start"@ != "message_stop"@,
        "message_start"@ != "error"@,
        "content_block_start"@ != "content_block_delta"@,
        "content_block_start"@ != "content_block_stop"@,
        "content_block_start"@ != "message_delta"@,
        "content_block_start"@ != "message_stop"@,
        "content_block_start"@ != "error"@,
        "content_block_delta"@ != "content_block_stop"@,
        "content_block_delta"@ != "message_delta"@,
        "content_block_delta"@ != "message_stop"@,
        "content_block_delta"@ != "error"@,
        "content_block_stop"@ != "message_delta"@,
        "content_block_stop"@ != "message_stop"@,
        "content_block_stop"@ != "error"@,
        "message_delta"@ != "message_stop"@,
        "message_delta"@ != "error"@,
        "message_stop"@ != "error"@,
{
    reveal_strlit("message_start");
    reveal_strlit("content_block_start");
    reveal_strlit("content_block_delta");
    reveal_strlit("content_block_stop");
    reveal_strlit("message_delta");
    reveal_strlit("message_stop");
    reveal_strlit("error");
    assert("message_start"@.len() == 13 && "message_delta"@.len() == 13);
    assert("content_block_start"@.len() == 19 && "content_block_delta"@.len() == 19);
    assert("content_block_stop"@.len() == 18);
    assert("message_stop"@.len() == 12);
    assert("error"@.len() == 5);
    assert("message_start"@[8] == 's' && "message_delta"@[8] == 'd');
    assert("content_block_start"@[14] == 's' && "content_block_delta"@[14] == 'd');
}

/// The events of a block carry its number.
pub proof fn lemma_index_of(index: int, x: JsonV)
    ensures
        index_of(start_event(index, x)) == Some(index),
        index_of(delta_event(index, x)) == Some(index),
        index_of(stop_event(index)) == Some(index),
{
    reveal_strlit("type");
    reveal_strlit("index");
    reveal_strlit("content_block");
    reveal_strlit("delta");
    assert("index"@[0] == 'i' && "delta"@[0] == 'd');
}

/// The blocks of a state by their numbers.
pub open spec fn table(blocks: Seq<BlockV>) -> Map<int, BlockV> {
    Map::new(
        |i: int| position(blocks, i) is Some,
        |i: int| blocks[position(blocks, i)->0],
    )
}

/// How far a stream has come that has sent what led to state `s`.
pub open spec fn progress(s: StateV) -> ProgressV {
    ProgressV {
        started: s.message_started,
        blocks: table(s.blocks).map_values(|b: BlockV| is_open(b)),
        delta_sent: s.message_delta_sent,
        ended: s.message_ended,
        failed: false,
    }
}

/// A client that has seen state `s` sees state `t` once it has read the events.
pub open spec fn follows(s: StateV, events: Seq<SseEventV>, t: StateV) -> bool {
    read_all(progress(s), events) == Some(progress(t))
}

/// A stream between its start and its end.
pub open spec fn live(s: StateV) -> bool {
    &&& s.message_started
    &&& !s.message_delta_sent
    &&& !s.message_ended
    &&& state_ok(s)
    &&& forall|k: int| 0 <= k < s.blocks.len() ==> (#[trigger] s.blocks[k]).started
    &&& forall|k: int|
        0 <= k < s.blocks.len() ==> (#[trigger] s.blocks[k]).index < s.next_block_index
}

/// Whether the block numbered `index` is in the state and open.
pub open spec fn has_open(s: StateV, index: int) -> bool {
    table(s.blocks).contains_key(index) && is_open(table(s.blocks)[index])
}

proof fn lemma_table(blocks: Seq<BlockV>, k: int)
    requires
        0 <= k < blocks.len(),
        forall|i: int, j: int|
            #![trigger blocks[i], blocks[j]]
            0 <= i < j < blocks.len() ==> blocks[i].index != blocks[j].index,
    ensures
        position(blocks, blocks[k].index) == Some(k),
        table(blocks).contains_key(blocks[k].index),
        table(blocks)[blocks[k].index] == blocks[k],
{
    lemma_position_from(blocks, blocks[k].index, 0);
}

proof fn lemma_table_get(blocks: Seq<BlockV>, index: int)
    ensures
        table(blocks).contains_key(index) ==> exists|k: int|
            0 <= k < blocks.len() && position(blocks, index) == Some(k) && (#[trigger] blocks[k])
                == table(blocks)[index] && blocks[k].index == index,
        !table(blocks).contains_key(index) ==> forall|k: int|
            0 <= k < blocks.len() ==> (#[trigger] blocks[k]).index != index,
{
    lemma_position_from(blocks, index, 0);
}

proof fn lemma_table_push(s: StateV, b: BlockV)
    requires
        state_ok(s),
        !table(s.blocks).contains_key(b.index),
    ensures
        table(s.blocks.push(b)) == table(s.blocks).insert(b.index, b),
        state_ok((StateV { blocks: s.blocks.push(b), ..s })),
{
    let blocks = s.blocks;
    let more = blocks.push(b);
    lemma_table_get(blocks, b.index);
    assert forall|i: int, j: int|
        #![trigger more[i], more[j]]
        0 <= i < j < more.len() implies more[i].index != more[j].index by {
        if j < blocks.len() {
            assert(blocks[i].index != blocks[j].index);
        } else {
            assert(blocks[i].index != b.index);
        }
    }
    let wanted = table(blocks).insert(b.index, b);
    assert forall|i: int|
        #![trigger table(more).dom().contains(i)]
        #![trigger table(more)[i]]
        table(more).dom().contains(i) == wanted.dom().contains(i) && (table(
            more,
        ).dom().contains(i) ==> table(more)[i] == wanted[i]) by {
        lemma_table_get(blocks, i);
        lemma_table_get(more, i);
        if table(blocks).contains_key(i) {
            let k = choose|k: int|
                0 <= k < blocks.len() && position(blocks, i) == Some(k) && (#[trigger] blocks[k])
                    == table(blocks)[i] && blocks[k].index == i;
            assert(more[k] == blocks[k]);
            lemma_table(more, k);
        } else if i == b.index {
            assert(more[blocks.len() as int] == b);
            lemma_table(more, blocks.len() as int);
        } else if table(more).contains_key(i) {
            let k = choose|k: int|
                0 <= k < more.len() && position(more, i) == Some(k) && (#[trigger] more[k])
                    == table(more)[i] && more[k].index == i;
            assert(blocks[k].index == i);
        }
    }
    assert(table(more) =~= wanted);
}

/// Changing blocks one for one changes the table one for one.
proof fn lemma_table_map(blocks: Seq<BlockV>, changed: Seq<BlockV>)
    requires
        changed.len() == blocks.len(),
        forall|k: int| 0 <= k < blocks.len() ==> (#[trigger] changed[k]).index == blocks[k].index,
    ensures
        forall|i: int| #[trigger] position(changed, i) == position(blocks, i),
        table(changed).dom() == table(blocks).dom(),
{
    assert forall|i: int| #[trigger] position(changed, i) == position(blocks, i) by {
        lemma_position_map(blocks, changed, i, 0);
    }
    assert(table(changed).dom() =~= table(blocks).dom());
}

proof fn lemma_position_map(blocks: Seq<BlockV>, changed: Seq<BlockV>, i: int, from: int)
    requires
        0 <= from,
        changed.len() == blocks.len(),
        forall|k: int| 0 <= k < blocks.len() ==> (#[trigger] changed[k]).index == blocks[k].index,
    ensures
        position_from(changed, i, from) == position_from(blocks, i, from),
    decreases blocks.len() - from,
{
    if from < blocks.len() {
        assert(changed[from].index == blocks[from].index);
        lemma_position_map(blocks, changed, i, from + 1);
    }
}

proof fn lemma_table_update(s: StateV, k: int, b: BlockV)
    requires
        state_ok(s),
        0 <= k < s.blocks.len(),
        b.index == s.blocks[k].index,
    ensures
        table(s.blocks.update(k, b)) == table(s.blocks).insert(b.index, b),
        state_ok((StateV { blocks: s.blocks.update(k, b), ..s })),
{
    let blocks = s.blocks;
    let changed = blocks.update(k, b);
    lemma_table_map(blocks, changed);
    lemma_table(blocks, k);
    assert forall|i: int, j: int|
        #![trigger changed[i], changed[j]]
        0 <= i < j < changed.len() implies changed[i].index != changed[j].index by {
        assert(blocks[i].index != blocks[j].index);
    }
    assert forall|i: int| table(changed).contains_key(i) implies table(changed)[i] == table(
        blocks,
    ).insert(b.index, b)[i] by {
        lemma_table_get(blocks, i);
        lemma_table_get(changed, i);
        assert(position(changed, i) == position(blocks, i));
    }
    assert(table(changed) =~= table(blocks).insert(b.index, b));
}

/// The first `n` blocks closed, the others as they are.
spec fn closed_prefix(blocks: Seq<BlockV>, n: int, text_only: bool) -> Seq<BlockV> {
    Seq::new(
        blocks.len(),
        |k: int|
            if k < n {
                closed_block(blocks[k], text_only)
            } else {
                blocks[k]
            },
    )
}

proof fn lemma_closing_prefix(s: StateV, n: int, text_only: bool)
    requires
        state_ok(s),
        0 <= n <= s.blocks.len(),
    ensures
        follows(
            s,
            closing_events(s.blocks.take(n), text_only),
            (StateV { blocks: closed_prefix(s.blocks, n, text_only), ..s }),
        ),
        state_ok((StateV { blocks: closed_prefix(s.blocks, n, text_only), ..s })),
    decreases n,
{
    let blocks = s.blocks;
    let now = closed_prefix(blocks, n, text_only);
    assert forall|i: int, j: int|
        #![trigger now[i], now[j]]
        0 <= i < j < now.len() implies now[i].index != now[j].index by {
        assert(blocks[i].index != blocks[j].index);
    }
    if n == 0 {
        assert(now =~= blocks);
        assert(blocks.take(0) =~= Seq::empty());
    } else {
        lemma_closing_prefix(s, n - 1, text_only);
        let before = closed_prefix(blocks, n - 1, text_only);
        let sb = StateV { blocks: before, ..s };
        let b = closed_block(blocks[n - 1], text_only);
        assert(blocks.take(n).drop_last() =~= blocks.take(n - 1));
        assert(blocks.take(n).last() == blocks[n - 1]);
        assert(now =~= before.update(n - 1, b));
        assert(before[n - 1] == blocks[n - 1]);
        lemma_table(before, n - 1);
        if to_close(blocks[n - 1], text_only) {
            lemma_table_update(sb, n - 1, b);
            lemma_index_of(b.index, JsonV::Null);
            lemma_event_names();
            let q = progress(sb);
            let t = StateV { blocks: now, ..s };
            assert(progress(t).blocks =~= q.blocks.insert(b.index, false));
            assert(read(q, stop_event(b.index)) == Some(progress(t)));
            let events = closing_events(blocks.take(n), text_only);
            assert(events.drop_last() =~= closing_events(blocks.take(n - 1), text_only));
            assert(events.last() == stop_event(b.index));
        } else {
            assert(b == blocks[n - 1]);
            assert(now =~= before);
        }
    }
}

/// Closing blocks keeps the order.
pub proof fn lemma_closing(s: StateV, text_only: bool)
    requires
        state_ok(s),
    ensures
        follows(
            s,
            closing_events(s.blocks, text_only),
            (StateV { blocks: closed_blocks(s.blocks, text_only), ..s }),
        ),
        state_ok((StateV { blocks: closed_blocks(s.blocks, text_only), ..s })),
        table(closed_blocks(s.blocks, text_only)) == table(s.blocks).map_values(
            |b: BlockV| closed_block(b, text_only),
        ),
{
    let n = s.blocks.len() as int;
    lemma_closing_prefix(s, n, text_only);
    assert(s.blocks.take(n) =~= s.blocks);
    let closed = closed_blocks(s.blocks, text_only);
    assert(closed_prefix(s.blocks, n, text_only) =~= closed);
    lemma_table_map(s.blocks, closed);
    assert forall|i: int| table(closed).contains_key(i) implies table(closed)[i] == closed_block(
        table(s.blocks)[i],
        text_only,
    ) by {
        lemma_table_get(s.blocks, i);
        assert(position(closed, i) == position(s.blocks, i));
    }
    assert(table(closed) =~= table(s.blocks).map_values(
        |b: BlockV| closed_block(b, text_only),
    ));
}

pub proof fn lemma_follows_concat(
    s: StateV,
    a: Seq<SseEventV>,
    t: StateV,
    b: Seq<SseEventV>,
    u: StateV,
)
    requires
        follows(s, a, t),
        follows(t, b, u),
    ensures
        follows(s, a + b, u),
{
    lemma_read_all_concat(progress(s), a, b);
}

/// Starting a block keeps the order; a block that was started before stays as it is.
pub proof fn lemma_block_start(s: StateV, index: int, kind: Seq<char>, block: JsonV)
    requires
        live(s),
        index < s.next_block_index,
    ensures
        ({
            let (t, events) = block_start_step(s, index, kind, block_start_json(index, block));
            let closed = table(s.blocks).map_values(|b: BlockV| closed_block(b, true));
            let rest = if kind == "tool_use"@ {
                closed
            } else {
                table(s.blocks)
            };
            &&& follows(s, events, t)
            &&& live(t)
            &&& t.next_block_index == s.next_block_index
            &&& table(t.blocks) == if table(s.blocks).contains_key(index) {
                rest
            } else {
                rest.insert(index, (BlockV { index, kind, started: true, stopped: false }))
            }
        }),
{
    let (s1, closing) = crate::state::before_block(s, kind);
    lemma_closing(s, true);
    let sc = StateV { blocks: closed_blocks(s.blocks, true), ..s };
    if kind == "tool_use"@ {
        assert(progress(s1) == progress(sc));
        assert forall|k: int| 0 <= k < s1.blocks.len() implies (#[trigger] s1.blocks[k]).started
            && s1.blocks[k].index < s1.next_block_index by {
            assert(s.blocks[k].started);
        }
    }
    assert(follows(s, closing, s1));
    assert(live(s1));
    lemma_table_get(s1.blocks, index);
    let (t, events) = block_start_step(s, index, kind, block_start_json(index, block));
    if position(s1.blocks, index) is Some {
        assert(t == s1);
    } else {
        let b = BlockV { index, kind, started: true, stopped: false };
        lemma_table_push(s1, b);
        lemma_index_of(index, block);
        lemma_event_names();
        let e = start_event(index, block);
        assert(progress(t).blocks =~= progress(s1).blocks.insert(index, true));
        assert(read(progress(s1), e) == Some(progress(t)));
        assert(events.drop_last() =~= closing);
        assert(events.last() == e);
        assert forall|k: int| 0 <= k < t.blocks.len() implies (#[trigger] t.blocks[k]).started
            && t.blocks[k].index < t.next_block_index by {
            if k < s1.blocks.len() {
                assert(t.blocks[k] == s1.blocks[k]);
            }
        }
    }
}

/// Adding to a block through the state keeps the order.
pub proof fn lemma_block_delta(s: StateV, index: int, delta: JsonV)
    requires
        live(s),
    ensures
        follows(s, opt_events(block_delta_step(s, index, block_delta_json(index, delta))), s),
{
    lemma_table_get(s.blocks, index);
    if block_delta_step(s, index, block_delta_json(index, delta)) is Some {
        lemma_open_delta(s, index, delta);
    }
}

/// Adding to an open block keeps the order.
pub proof fn lemma_open_delta(s: StateV, index: int, delta: JsonV)
    requires
        has_open(s, index),
    ensures
        follows(s, seq![delta_event(index, delta)], s),
{
    lemma_index_of(index, delta);
    lemma_event_names();
    lemma_read_one(progress(s), delta_event(index, delta));
}

/// Stopping a block keeps the order.
pub proof fn lemma_block_stop(s: StateV, index: int)
    requires
        live(s),
    ensures
        ({
            let (t, stop) = block_stop_step(s, index);
            &&& follows(s, opt_events(stop), t)
            &&& live(t)
            &&& t.next_block_index == s.next_block_index
            &&& table(t.blocks) == if table(s.blocks).contains_key(index) {
                table(s.blocks).insert(
                    index,
                    (BlockV { stopped: true, ..table(s.blocks)[index] }),
                )
            } else {
                table(s.blocks)
            }
        }),
{
    let (t, stop) = block_stop_step(s, index);
    lemma_table_get(s.blocks, index);
    if table(s.blocks).contains_key(index) {
        let k = position(s.blocks, index)->0;
        let b = BlockV { stopped: true, ..s.blocks[k] };
        lemma_table(s.blocks, k);
        if s.blocks[k].stopped {
            assert(b == s.blocks[k]);
            assert(table(s.blocks) =~= table(s.blocks).insert(index, b));
        } else {
            lemma_table_update(s, k, b);
            lemma_index_of(index, JsonV::Null);
            lemma_event_names();
            assert(progress(t).blocks =~= progress(s).blocks.insert(index, false));
            lemma_read_one(progress(s), stop_event(index));
            assert forall|j: int| 0 <= j < t.blocks.len() implies (#[trigger] t.blocks[j]).started
                && t.blocks[j].index < t.next_block_index by {
                assert(s.blocks[j].started);
            }
        }
    }
}

/// Starting the message keeps the order.
pub proof fn lemma_message_start(s: StateV, data: JsonV)
    requires
        !s.message_started,
    ensures
        follows(
            s,
            opt_events(message_start_step(s, data).1),
            message_start_step(s, data).0,
        ),
{
    let e = SseEventV { event: "message_start"@, data };
    lemma_read_one(progress(s), e);
}

/// Ending the message keeps the order.
pub proof fn lemma_final_step(s: StateV, usage: Usage)
    requires
        live(s),
    ensures
        follows(s, final_step(s, usage).1, final_step(s, usage).0),
        final_step(s, usage).0.message_started,
        final_step(s, usage).0.message_ended,
        forall|i: int| !#[trigger] block_open(progress(final_step(s, usage).0), i),
{
    let (t, events) = final_step(s, usage);
    lemma_closing(s, false);
    lemma_event_names();
    let sc = StateV { blocks: closed_blocks(s.blocks, false), ..s };
    let d = message_delta_event(final_stop_reason(s), usage);
    let closing = closing_events(s.blocks, false);
    let q0 = progress(sc);
    assert forall|i: int| !#[trigger] block_open(q0, i) by {
        lemma_table_get(s.blocks, i);
    }
    let q1 = ProgressV { delta_sent: true, ..q0 };
    let q2 = ProgressV { ended: true, ..q1 };
    assert(read(q0, d) == Some(q1));
    assert(read(q1, message_stop_event()) == Some(q2));
    lemma_read_one(q0, d);
    lemma_read_one(q1, message_stop_event());
    lemma_read_all_concat(progress(s), closing, seq![d]);
    lemma_read_all_concat(progress(s), closing + seq![d], seq![message_stop_event()]);
    assert(progress(t) == q2);
}

/// An error can be told once the message has ended.
pub proof fn lemma_error_last(q: ProgressV, error_type: Seq<char>, message: Seq<char>)
    requires
        q.ended,
        !q.failed,
    ensures
        read(q, error_event(error_type, message)) == Some((ProgressV { failed: true, ..q })),
{
    lemma_event_names();
}

} // verus!
