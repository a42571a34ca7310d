//! What a query of the ledger means: which events a filter selects, and the
//! order in which they are listed, by task and then by time.

use vstd::prelude::*;
use crate::command::{Command, CommandView};
use crate::db::StoredEventView;
use crate::identity::fingerprint;
use crate::text::{
    is_text_at_or_before, lemma_bytes_order_total, lemma_bytes_order_transitive,
    text_at_or_before,
};
use crate::timestamp::Timestamp;

verus! {

/// The events of a list as values of mathematics.
pub open spec fn command_views(cmds: Seq<Command>) -> Seq<CommandView> {
    cmds.map_values(|c: Command| c@)
}

/// The text of a task filter.
pub open spec fn task_text(opt_task: Option<&str>) -> Option<Seq<char>> {
    match opt_task {
        Some(task) => Some(task@),
        None => None,
    }
}

/// An event passes the filters: it is not earlier than `start`, not later
/// than `end`, and of the task `task`, by its identity. A filter that is not
/// given lets every event pass.
pub open spec fn is_selected(
    event: StoredEventView,
    start: Option<Timestamp>,
    end: Option<Timestamp>,
    task: Option<Seq<char>>,
) -> bool {
    &&& start matches Some(first) ==> first.at_or_before(event.command.cmd_datetime)
    &&& end matches Some(last) ==> event.command.cmd_datetime.at_or_before(last)
    &&& task matches Some(text) ==> event.hash.value == fingerprint(text)
}

/// The events of `log` that pass the filters, in the order of the log.
pub open spec fn selection(
    log: Seq<StoredEventView>,
    start: Option<Timestamp>,
    end: Option<Timestamp>,
    task: Option<Seq<char>>,
) -> Seq<CommandView>
    decreases log.len(),
{
    if log.len() == 0 {
        Seq::empty()
    } else {
        let rest = selection(log.drop_last(), start, end, task);
        if is_selected(log.last(), start, end, task) {
            rest.push(log.last().command)
        } else {
            rest
        }
    }
}

/// Without a filter, a query selects every recorded event.
pub proof fn lemma_no_filter_selects_all(log: Seq<StoredEventView>)
    ensures
        selection(log, None, None, None) == log.map_values(|e: StoredEventView| e.command),
    decreases log.len(),
{
    if log.len() > 0 {
        lemma_no_filter_selects_all(log.drop_last());
        assert(log.drop_last().map_values(|e: StoredEventView| e.command).push(
            log.last().command,
        ) == log.map_values(|e: StoredEventView| e.command));
    }
}

/// The filters are independent: an event passes the three together exactly
/// where it passes each of them alone. The start alone sets no upper bound
/// and the end alone no lower one, and both bounds are inclusive.
pub proof fn lemma_filters_are_independent(
    event: StoredEventView,
    start: Option<Timestamp>,
    end: Option<Timestamp>,
    task: Option<Seq<char>>,
)
    ensures
        is_selected(event, start, end, task) == (is_selected(event, start, None, None)
            && is_selected(event, None, end, None) && is_selected(event, None, None, task)),
        start matches Some(first) ==> is_selected(event, start, None, None) == first.at_or_before(
            event.command.cmd_datetime,
        ),
        end matches Some(last) ==> is_selected(event, None, end, None)
            == event.command.cmd_datetime.at_or_before(last),
        is_selected(
            event,
            Some(event.command.cmd_datetime),
            Some(event.command.cmd_datetime),
            None,
        ),
{
}

/// A selection holds the selected events of the log and no others.
pub proof fn lemma_selection_holds_the_selected(
    log: Seq<StoredEventView>,
    start: Option<Timestamp>,
    end: Option<Timestamp>,
    task: Option<Seq<char>>,
)
    ensures
        forall|k: int|
            0 <= k < selection(log, start, end, task).len() ==> exists|i: int|
                0 <= i < log.len() && is_selected(log[i], start, end, task) && log[i].command
                    == #[trigger] selection(log, start, end, task)[k],
        forall|i: int|
            0 <= i < log.len() && is_selected(#[trigger] log[i], start, end, task)
                ==> selection(log, start, end, task).contains(log[i].command),
        selection(log, start, end, task).len() <= log.len(),
    decreases log.len(),
{
    let chosen = selection(log, start, end, task);
    if log.len() > 0 {
        let shorter = log.drop_last();
        let rest = selection(shorter, start, end, task);
        lemma_selection_holds_the_selected(shorter, start, end, task);
        assert forall|k: int| 0 <= k < chosen.len() implies exists|i: int|
            0 <= i < log.len() && is_selected(log[i], start, end, task) && log[i].command
                == #[trigger] chosen[k] by {
            if k < rest.len() {
                assert(chosen[k] == rest[k]);
                let i = choose|i: int|
                    0 <= i < shorter.len() && is_selected(shorter[i], start, end, task)
                        && shorter[i].command == rest[k];
                assert(log[i] == shorter[i]);
            } else {
                assert(log[log.len() - 1].command == chosen[k]);
            }
        }
        assert forall|i: int|
            0 <= i < log.len() && is_selected(#[trigger] log[i], start, end, task) implies chosen.contains(
            log[i].command,
        ) by {
            if i < shorter.len() {
                assert(shorter[i] == log[i]);
                assert(rest.contains(log[i].command));
                let k = choose|k: int| 0 <= k < rest.len() && rest[k] == log[i].command;
                assert(chosen[k] == log[i].command);
            } else {
                assert(chosen[chosen.len() - 1] == log[i].command);
            }
        }
    }
}

/// `a` may stand before `b` in a report: its task comes first, or the tasks
/// are the same and `a` is not the later of the two.
pub open spec fn in_report_order(a: CommandView, b: CommandView) -> bool {
    &&& text_at_or_before(a.task, b.task)
    &&& text_at_or_before(b.task, a.task) ==> a.cmd_datetime.at_or_before(b.cmd_datetime)
}

/// Every event of `events` may stand before each event after it.
pub open spec fn is_arranged(events: Seq<CommandView>) -> bool {
    forall|i: int, j: int| 0 <= i < j < events.len() ==> in_report_order(events[i], events[j])
}

/// `event` put into `sorted` behind the last event that may stand before it.
pub open spec fn placed(sorted: Seq<CommandView>, event: CommandView) -> Seq<CommandView>
    decreases sorted.len(),
{
    if sorted.len() == 0 || in_report_order(sorted.last(), event) {
        sorted.push(event)
    } else {
        placed(sorted.drop_last(), event).push(sorted.last())
    }
}

/// The events in report order: by task, then by time. Events of one task and
/// time keep the order in which they were given.
pub open spec fn arranged(events: Seq<CommandView>) -> Seq<CommandView>
    decreases events.len(),
{
    if events.len() == 0 {
        events
    } else {
        placed(arranged(events.drop_last()), events.last())
    }
}

/// Tells whether `a` may stand before `b` in a report.
pub fn comes_in_order(a: &Command, b: &Command) -> (r: bool)
    ensures
        r == in_report_order(a@, b@),
{
    if !is_text_at_or_before(a.task.as_str(), b.task.as_str()) {
        false
    } else if is_text_at_or_before(b.task.as_str(), a.task.as_str()) {
        a.cmd_datetime.is_at_or_before(&b.cmd_datetime)
    } else {
        true
    }
}

/// Puts an event into a list behind the last event that may stand before it.
pub fn place_in_order(cmds: &mut Vec<Command>, event: Command)
    ensures
        command_views(final(cmds)@) == placed(command_views(old(cmds)@), event@),
{
    let ghost before = command_views(cmds@);
    let mut at: usize = cmds.len();
    while at > 0 && !comes_in_order(&cmds[at - 1], &event)
        invariant
            at <= cmds@.len(),
            before == command_views(cmds@),
            forall|k: int| at <= k < before.len() ==> !in_report_order(before[k], event@),
        decreases at,
    {
        at = at - 1;
    }
    proof {
        lemma_placed_at(before, event@, at as int);
    }
    cmds.insert(at, event);
    proof {
        assert(command_views(cmds@) == before.insert(at as int, event@));
    }
}

/// Of two events, one may stand before the other.
pub proof fn lemma_report_order_total(a: CommandView, b: CommandView)
    ensures
        in_report_order(a, b) || in_report_order(b, a),
{
    lemma_bytes_order_total(vstd::utf8::encode_utf8(a.task), vstd::utf8::encode_utf8(b.task), 0);
}

/// The report order passes on: from `a` to `b` and from `b` to `c` means from
/// `a` to `c`.
pub proof fn lemma_report_order_transitive(a: CommandView, b: CommandView, c: CommandView)
    requires
        in_report_order(a, b),
        in_report_order(b, c),
    ensures
        in_report_order(a, c),
{
    let x = vstd::utf8::encode_utf8(a.task);
    let y = vstd::utf8::encode_utf8(b.task);
    let z = vstd::utf8::encode_utf8(c.task);
    lemma_bytes_order_transitive(x, y, z, 0);
    if text_at_or_before(c.task, a.task) {
        lemma_bytes_order_transitive(z, x, y, 0);
        lemma_bytes_order_transitive(y, z, x, 0);
    }
}

/// Where `placed` puts an event: at an index behind which no event may stand
/// before it, and straight behind one that may.
pub proof fn lemma_placed_position(sorted: Seq<CommandView>, event: CommandView) -> (at: int)
    ensures
        0 <= at <= sorted.len(),
        placed(sorted, event) == sorted.insert(at, event),
        at > 0 ==> in_report_order(sorted[at - 1], event),
        forall|k: int| at <= k < sorted.len() ==> !in_report_order(sorted[k], event),
    decreases sorted.len(),
{
    if sorted.len() == 0 || in_report_order(sorted.last(), event) {
        assert(sorted.push(event) == sorted.insert(sorted.len() as int, event));
        sorted.len() as int
    } else {
        let at = lemma_placed_position(sorted.drop_last(), event);
        assert(sorted.drop_last().insert(at, event).push(sorted.last()) == sorted.insert(
            at,
            event,
        ));
        assert forall|k: int| at <= k < sorted.len() implies !in_report_order(
            sorted[k],
            event,
        ) by {
            if k < sorted.len() - 1 {
                assert(sorted.drop_last()[k] == sorted[k]);
            }
        }
        at
    }
}

/// An index at the boundary that `lemma_placed_position` describes is where
/// `placed` puts the event.
pub proof fn lemma_placed_at(sorted: Seq<CommandView>, event: CommandView, at: int)
    requires
        0 <= at <= sorted.len(),
        at > 0 ==> in_report_order(sorted[at - 1], event),
        forall|k: int| at <= k < sorted.len() ==> !in_report_order(sorted[k], event),
    ensures
        placed(sorted, event) == sorted.insert(at, event),
    decreases sorted.len(),
{
    if at == sorted.len() {
        assert(sorted.push(event) == sorted.insert(at, event));
    } else {
        lemma_placed_at(sorted.drop_last(), event, at);
        assert(sorted.drop_last().insert(at, event).push(sorted.last()) == sorted.insert(
            at,
            event,
        ));
    }
}

/// Placing an event keeps a list arranged, and adds that event and no other.
pub proof fn lemma_placed_is_arranged(sorted: Seq<CommandView>, event: CommandView)
    requires
        is_arranged(sorted),
    ensures
        is_arranged(placed(sorted, event)),
        placed(sorted, event).to_multiset() == sorted.to_multiset().insert(event),
        placed(sorted, event).len() == sorted.len() + 1,
{
    let at = lemma_placed_position(sorted, event);
    let next = sorted.insert(at, event);
    vstd::seq_lib::to_multiset_insert(sorted, at, event);
    assert forall|i: int, j: int| 0 <= i < j < next.len() implies in_report_order(
        next[i],
        next[j],
    ) by {
        if j == at {
            if i < at - 1 {
                lemma_report_order_transitive(sorted[i], sorted[at - 1], event);
            }
        } else if i == at {
            lemma_report_order_total(sorted[j - 1], event);
        } else if i < at && at < j {
            assert(in_report_order(sorted[i], sorted[j - 1]));
        } else if j < at {
            assert(in_report_order(sorted[i], sorted[j]));
        } else {
            assert(in_report_order(sorted[i - 1], sorted[j - 1]));
        }
    }
}

/// A listing holds the selected events of the log and no others, by task and
/// then by time.
pub proof fn lemma_listing_holds_the_selected(
    log: Seq<StoredEventView>,
    start: Option<Timestamp>,
    end: Option<Timestamp>,
    task: Option<Seq<char>>,
    event: CommandView,
)
    ensures
        is_arranged(arranged(selection(log, start, end, task))),
        arranged(selection(log, start, end, task)).contains(event) <==> exists|i: int|
            0 <= i < log.len() && is_selected(#[trigger] log[i], start, end, task)
                && log[i].command == event,
{
    let chosen = selection(log, start, end, task);
    lemma_arranged_is_sorted_permutation(chosen);
    lemma_selection_holds_the_selected(log, start, end, task);
    chosen.to_multiset_ensures();
    arranged(chosen).to_multiset_ensures();
    assert(arranged(chosen).to_multiset().count(event) == chosen.to_multiset().count(event));
    assert(arranged(chosen).contains(event) <==> chosen.contains(event));
    if chosen.contains(event) {
        let k = choose|k: int| 0 <= k < chosen.len() && chosen[k] == event;
        assert(chosen[k] == event);
    }
}

/// A query lists its events by task and then by time, and lists each event
/// that it was given as often as it was given: `arranged` sorts, and neither
/// drops nor adds.
pub proof fn lemma_arranged_is_sorted_permutation(events: Seq<CommandView>)
    ensures
        is_arranged(arranged(events)),
        arranged(events).to_multiset() == events.to_multiset(),
        arranged(events).len() == events.len(),
    decreases events.len(),
{
    broadcast use vstd::seq_lib::group_to_multiset_ensures;

    if events.len() > 0 {
        lemma_arranged_is_sorted_permutation(events.drop_last());
        lemma_placed_is_arranged(arranged(events.drop_last()), events.last());
        assert(events.drop_last().push(events.last()) == events);
    }
}

} // verus!
