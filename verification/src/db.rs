//! The ledger: an append-only log of clock events, with the questions that
//! are asked of it. Is a task being tracked? Which events lie in a span of
//! time, or belong to a task?
//!
//! The log lives in memory. Where it is kept between runs is named by the
//! ledger's connection string, and is the business of the program around the
//! library. The ledger is made for one writer: nothing here guards against a
//! second one.

use vstd::prelude::*;
use vstd::string::StringExecFns;
use crate::command::{Command, CommandType, CommandView};
use crate::identity::{fingerprint, identity_of, TaskIdentity};
use crate::query::{arranged, command_views, is_selected, place_in_order, selection, task_text};
use crate::timestamp::Timestamp;

verus! {

/// An event as the ledger keeps it: with its sequence number and the identity
/// of its task.
#[derive(Debug)]
pub struct StoredEvent {
    pub id: u64,
    pub hash: TaskIdentity,
    pub command: Command,
}

/// A stored event as a value of mathematics.
pub struct StoredEventView {
    pub id: u64,
    pub hash: TaskIdentity,
    pub command: CommandView,
}

impl View for StoredEvent {
    type V = StoredEventView;

    open spec fn view(&self) -> StoredEventView {
        StoredEventView { id: self.id, hash: self.hash, command: self.command@ }
    }
}

/// The form in which an event is stored at the given position of the log:
/// numbered by its position, from zero, and with the fingerprint of its task.
pub open spec fn stored_form(position: nat, event: CommandView) -> StoredEventView {
    StoredEventView {
        id: position as u64,
        hash: TaskIdentity { value: fingerprint(event.task) },
        command: event,
    }
}

/// A log as the ledger keeps it: each event in its stored form, so the
/// sequence numbers rise by one from zero, and each identity is that of the
/// event's task.
pub open spec fn is_ledger_log(log: Seq<StoredEventView>) -> bool {
    &&& log.len() <= usize::MAX
    &&& forall|i: int|
        0 <= i < log.len() ==> #[trigger] log[i] == stored_form(i as nat, log[i].command)
}

/// The number of events in `log` of the given kind and task identity.
pub open spec fn count_matching(
    log: Seq<StoredEventView>,
    kind: CommandType,
    hash: TaskIdentity,
) -> nat
    decreases log.len(),
{
    if log.len() == 0 {
        0
    } else {
        let rest = count_matching(log.drop_last(), kind, hash);
        if log.last().command.command == kind && log.last().hash == hash {
            rest + 1
        } else {
            rest
        }
    }
}

/// A task is tracked where more clock-ins than clock-outs were ever recorded
/// for its identity. This is a balance of two counts: the order of the events
/// does not count, and nothing asks that they alternate.
pub open spec fn is_tracked(log: Seq<StoredEventView>, hash: TaskIdentity) -> bool {
    count_matching(log, CommandType::ClockIn, hash) > count_matching(
        log,
        CommandType::ClockOut,
        hash,
    )
}

/// The number of events in `cmds` of the given kind whose task has the given
/// identity.
pub open spec fn occurrences(cmds: Seq<CommandView>, kind: CommandType, hash: TaskIdentity) -> nat
    decreases cmds.len(),
{
    if cmds.len() == 0 {
        0
    } else {
        let rest = occurrences(cmds.drop_last(), kind, hash);
        if cmds.last().command == kind && fingerprint(cmds.last().task) == hash.value {
            rest + 1
        } else {
            rest
        }
    }
}

/// The log after the events of `cmds` were recorded in `log`, one after the
/// other.
pub open spec fn appended(log: Seq<StoredEventView>, cmds: Seq<CommandView>) -> Seq<
    StoredEventView,
>
    decreases cmds.len(),
{
    if cmds.len() == 0 {
        log
    } else {
        let before = appended(log, cmds.drop_last());
        before.push(stored_form(before.len(), cmds.last()))
    }
}

/// Recording events adds to each count the number of recorded events of that
/// kind and identity.
pub proof fn lemma_appended_counts(
    log: Seq<StoredEventView>,
    cmds: Seq<CommandView>,
    kind: CommandType,
    hash: TaskIdentity,
)
    ensures
        count_matching(appended(log, cmds), kind, hash) == count_matching(log, kind, hash)
            + occurrences(cmds, kind, hash),
        appended(log, cmds).len() == log.len() + cmds.len(),
    decreases cmds.len(),
{
    if cmds.len() > 0 {
        lemma_appended_counts(log, cmds.drop_last(), kind, hash);
        let before = appended(log, cmds.drop_last());
        let stored = stored_form(before.len(), cmds.last());
        assert(before.push(stored).drop_last() == before);
    }
}

/// After recording, in an empty ledger, any events of which `n` are clock-ins
/// and `m` are clock-outs of one task identity, that task is tracked exactly
/// where `n > m`.
pub proof fn lemma_tracking_is_balance(cmds: Seq<CommandView>, hash: TaskIdentity)
    ensures
        is_tracked(appended(Seq::empty(), cmds), hash) <==> occurrences(
            cmds,
            CommandType::ClockIn,
            hash,
        ) > occurrences(cmds, CommandType::ClockOut, hash),
{
    lemma_appended_counts(Seq::empty(), cmds, CommandType::ClockIn, hash);
    lemma_appended_counts(Seq::empty(), cmds, CommandType::ClockOut, hash);
}

/// A task of which nothing was recorded is not tracked.
pub proof fn lemma_unknown_task_is_not_tracked(log: Seq<StoredEventView>, hash: TaskIdentity)
    requires
        forall|i: int| 0 <= i < log.len() ==> (#[trigger] log[i]).hash != hash,
    ensures
        count_matching(log, CommandType::ClockIn, hash) == 0,
        count_matching(log, CommandType::ClockOut, hash) == 0,
        !is_tracked(log, hash),
    decreases log.len(),
{
    if log.len() > 0 {
        lemma_unknown_task_is_not_tracked(log.drop_last(), hash);
    }
}

/// The ledger: where it is kept, and the events recorded so far.
pub struct ClockRuster {
    connection_string: String,
    events: Vec<StoredEvent>,
}

impl ClockRuster {
    #[verifier::type_invariant]
    spec fn well_formed(self) -> bool {
        is_ledger_log(self.log())
    }

    /// The events recorded so far, oldest first.
    pub closed spec fn log(self) -> Seq<StoredEventView> {
        self.events@.map_values(|e: StoredEvent| e@)
    }

    /// The name of the place where the ledger is kept.
    pub closed spec fn place(self) -> Seq<char> {
        self.connection_string@
    }

    /// An empty ledger that is kept in `./.clockrust`.
    pub fn new() -> (ledger: ClockRuster)
        ensures
            ledger.place() == "./.clockrust"@,
            ledger.log() == Seq::<StoredEventView>::empty(),
    {
        ClockRuster { connection_string: String::from_str("./.clockrust"), events: Vec::new() }
    }

    /// An empty ledger that is kept in the given place.
    pub fn init(conn_str: &str) -> (ledger: ClockRuster)
        ensures
            ledger.place() == conn_str@,
            ledger.log() == Seq::<StoredEventView>::empty(),
    {
        ClockRuster { connection_string: String::from_str(conn_str), events: Vec::new() }
    }

    /// The name of the place where the ledger is kept.
    pub fn connection_string(&self) -> (place: String)
        ensures
            place@ == self.place(),
    {
        self.connection_string.clone()
    }

    /// The number of events recorded so far.
    pub fn len(&self) -> (n: usize)
        ensures
            n == self.log().len(),
    {
        self.events.len()
    }

    /// The events recorded so far, oldest first, each with its sequence
    /// number and the identity of its task.
    pub fn stored_events(&self) -> (events: Vec<StoredEvent>)
        ensures
            events@.map_values(|e: StoredEvent| e@) == self.log(),
    {
        let mut events: Vec<StoredEvent> = Vec::new();
        let mut i: usize = 0;
        while i < self.events.len()
            invariant
                i <= self.events@.len(),
                events@.map_values(|e: StoredEvent| e@) == self.log().take(i as int),
            decreases self.events@.len() - i,
        {
            let event = &self.events[i];
            events.push(
                StoredEvent { id: event.id, hash: event.hash, command: event.command.clone() },
            );
            proof {
                assert(events@.map_values(|e: StoredEvent| e@) == self.log().take(i as int).push(
                    event@,
                ));
                assert(self.log().take(i as int).push(event@) == self.log().take(i + 1));
            }
            i = i + 1;
        }
        proof {
            assert(self.log().take(i as int) == self.log());
        }
        events
    }

    /// The log is a ledger's log at all times.
    pub fn check_log(&self)
        ensures
            is_ledger_log(self.log()),
    {
        proof {
            use_type_invariant(self);
        }
    }

    /// Records an event at the end of the log, under the next sequence number
    /// and with the identity of its task.
    pub fn run_clock_command(&mut self, cmd: &Command)
        ensures
            final(self).place() == old(self).place(),
            final(self).log() == old(self).log().push(stored_form(old(self).log().len(), cmd@)),
    {
        proof {
            use_type_invariant(&*self);
        }
        let stored = StoredEvent {
            id: self.events.len() as u64,
            hash: identity_of(cmd.task.as_str()),
            command: cmd.clone(),
        };
        let ghost before = self.log();
        let mut ledger = ClockRuster { connection_string: String::new(), events: Vec::new() };
        core::mem::swap(self, &mut ledger);
        let ClockRuster { connection_string, mut events } = ledger;
        events.push(stored);
        let recorded = events.len();
        proof {
            assert(events@.map_values(|e: StoredEvent| e@) == before.push(
                stored_form(before.len(), cmd@),
            ));
            assert(recorded == before.len() + 1);
        }
        *self = ClockRuster { connection_string, events };
    }

    /// Counts the recorded events of one kind and task identity.
    pub fn count_command(&self, cmd_type: CommandType, hash: TaskIdentity) -> (count: usize)
        ensures
            count == count_matching(self.log(), cmd_type, hash),
    {
        let mut count: usize = 0;
        let mut i: usize = 0;
        while i < self.events.len()
            invariant
                i <= self.events@.len(),
                count <= i,
                count == count_matching(self.log().take(i as int), cmd_type, hash),
            decreases self.events@.len() - i,
        {
            proof {
                assert(self.log().take(i + 1).drop_last() == self.log().take(i as int));
            }
            let event = &self.events[i];
            if event.command.command == cmd_type && event.hash == hash {
                count = count + 1;
            }
            i = i + 1;
        }
        proof {
            assert(self.log().take(i as int) == self.log());
        }
        count
    }

    /// Lists the recorded events that pass the filters, by task and then by
    /// time. A filter that is not given lets every event pass; the three
    /// filters are independent of each other, and an event must pass each
    /// that is given. The task filter goes by the task's identity.
    pub fn command_list(
        &self,
        opt_start: Option<Timestamp>,
        opt_end: Option<Timestamp>,
        opt_task: Option<&str>,
    ) -> (cmds: Vec<Command>)
        ensures
            command_views(cmds@) == arranged(
                selection(self.log(), opt_start, opt_end, task_text(opt_task)),
            ),
    {
        let wanted: Option<TaskIdentity> = match opt_task {
            Some(task) => Some(identity_of(task)),
            None => None,
        };
        let mut cmds: Vec<Command> = Vec::new();
        let mut i: usize = 0;
        while i < self.events.len()
            invariant
                i <= self.events@.len(),
                wanted == match opt_task {
                    Some(task) => Some(TaskIdentity { value: fingerprint(task@) }),
                    None => None,
                },
                command_views(cmds@) == arranged(
                    selection(self.log().take(i as int), opt_start, opt_end, task_text(opt_task)),
                ),
            decreases self.events@.len() - i,
        {
            proof {
                assert(self.log().take(i + 1).drop_last() == self.log().take(i as int));
            }
            let event = &self.events[i];
            let ghost earlier = selection(
                self.log().take(i as int),
                opt_start,
                opt_end,
                task_text(opt_task),
            );
            proof {
                assert(self.log().take(i + 1).last() == event@);
            }
            if passes(event, &opt_start, &opt_end, &wanted) {
                place_in_order(&mut cmds, event.command.clone());
                proof {
                    assert(is_selected(event@, opt_start, opt_end, task_text(opt_task)));
                    assert(earlier.push(event@.command).drop_last() == earlier);
                }
            } else {
                proof {
                    assert(!is_selected(event@, opt_start, opt_end, task_text(opt_task)));
                }
            }
            i = i + 1;
        }
        proof {
            assert(self.log().take(i as int) == self.log());
        }
        cmds
    }

    /// Tells whether a task is being tracked: whether more clock-ins than
    /// clock-outs were recorded for its identity.
    pub fn currently_tracking(&self, task: &str) -> (tracking: bool)
        ensures
            tracking == is_tracked(self.log(), TaskIdentity { value: fingerprint(task@) }),
    {
        let hash = identity_of(task);
        let cic = self.count_command(CommandType::ClockIn, hash);
        let coc = self.count_command(CommandType::ClockOut, hash);
        cic > coc
    }
}

/// Tells whether a stored event passes the filters, the task being given by
/// its identity.
fn passes(
    event: &StoredEvent,
    opt_start: &Option<Timestamp>,
    opt_end: &Option<Timestamp>,
    wanted: &Option<TaskIdentity>,
) -> (r: bool)
    ensures
        r == {
            &&& *opt_start matches Some(first) ==> first.at_or_before(event@.command.cmd_datetime)
            &&& *opt_end matches Some(last) ==> event@.command.cmd_datetime.at_or_before(last)
            &&& *wanted matches Some(identity) ==> event@.hash == identity
        },
{
    if let Some(first) = opt_start {
        if !first.is_at_or_before(&event.command.cmd_datetime) {
            return false;
        }
    }
    if let Some(last) = opt_end {
        if !event.command.cmd_datetime.is_at_or_before(last) {
            return false;
        }
    }
    if let Some(identity) = wanted {
        if event.hash != *identity {
            return false;
        }
    }
    true
}

} // verus!
