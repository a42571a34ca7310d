//! Clock commands: the two kinds of event, the event itself, and its reading
//! from a command text of three fields, `kind::time::task`.

use vstd::prelude::*;
use vstd::string::StringExecFns;
use crate::text::{
    delimiter_at, fields, is_plain_field, is_word, lemma_fields_join_back, lemma_fields_of_three,
    lemma_spelling_ignores_case, same_letter, same_text_apart_from_case, spells, split_fields,
};
use crate::timestamp::{rfc3339_reading, rfc3339_text, Timestamp};

verus! {

/// A command text that is well formed, shown to the user in every error.
pub open spec fn command_example() -> Seq<char> {
    "clock-in::2021-10-31T04:10:29.316132167Z::'task description'"@
}

/// The two kinds of clock event.
#[derive(Clone, Copy, Debug, PartialEq, Eq, Structural, Hash)]
pub enum CommandType {
    ClockIn,
    ClockOut,
}

impl CommandType {
    /// The kind's name as it is written and stored: small letters, hyphenated.
    pub open spec fn name(self) -> Seq<char> {
        match self {
            CommandType::ClockIn => "clock-in"@,
            CommandType::ClockOut => "clock-out"@,
        }
    }

    /// The kind that a token names. The case of its letters does not count,
    /// and the hyphen may be left out.
    pub open spec fn of_token(token: Seq<char>) -> Option<CommandType> {
        if spells(token, "clock-in"@) || spells(token, "clockin"@) {
            Some(CommandType::ClockIn)
        } else if spells(token, "clock-out"@) || spells(token, "clockout"@) {
            Some(CommandType::ClockOut)
        } else {
            None
        }
    }

    /// The kind's name.
    pub fn to_string(&self) -> (text: String)
        ensures
            text@ == self.name(),
    {
        match self {
            CommandType::ClockIn => String::from_str("clock-in"),
            CommandType::ClockOut => String::from_str("clock-out"),
        }
    }

    /// Reads a kind from a token, or gives `None` where the token names none.
    pub fn from_token(token: &str) -> (kind: Option<CommandType>)
        ensures
            kind == CommandType::of_token(token@),
    {
        if is_word(token, "clock-in") || is_word(token, "clockin") {
            Some(CommandType::ClockIn)
        } else if is_word(token, "clock-out") || is_word(token, "clockout") {
            Some(CommandType::ClockOut)
        } else {
            None
        }
    }

    /// The case of a token's letters does not change the kind that it names.
    pub proof fn lemma_kind_ignores_case(first: Seq<char>, second: Seq<char>)
        requires
            same_text_apart_from_case(first, second),
        ensures
            CommandType::of_token(first) == CommandType::of_token(second),
    {
        reveal_strlit("clock-in");
        reveal_strlit("clockin");
        reveal_strlit("clock-out");
        reveal_strlit("clockout");
        lemma_spelling_ignores_case(first, second, "clock-in"@);
        lemma_spelling_ignores_case(first, second, "clockin"@);
        lemma_spelling_ignores_case(first, second, "clock-out"@);
        lemma_spelling_ignores_case(first, second, "clockout"@);
    }

    /// Reading is the inverse of writing: a kind's name names that kind.
    pub proof fn lemma_name_round_trip(self)
        ensures
            CommandType::of_token(self.name()) == Some(self),
    {
        reveal_strlit("clock-in");
        reveal_strlit("clockin");
        reveal_strlit("clock-out");
        reveal_strlit("clockout");
        assert(spells("clock-in"@, "clock-in"@));
        assert(spells("clock-out"@, "clock-out"@));
        assert("clock-out"@.len() != "clock-in"@.len());
        assert("clock-out"@.len() != "clockin"@.len());
        assert("clock-out"@.len() != "clockout"@.len());
    }
}

/// A clock event: work on a task began or ended at an instant.
#[derive(Debug, Hash)]
pub struct Command {
    pub command: CommandType,
    pub cmd_datetime: Timestamp,
    pub task: String,
}

/// A clock event as a value of mathematics.
pub struct CommandView {
    pub command: CommandType,
    pub cmd_datetime: Timestamp,
    pub task: Seq<char>,
}

impl View for Command {
    type V = CommandView;

    open spec fn view(&self) -> CommandView {
        CommandView { command: self.command, cmd_datetime: self.cmd_datetime, task: self.task@ }
    }
}

impl Clone for Command {
    fn clone(&self) -> (copy: Command)
        ensures
            copy@ == self@,
    {
        Command {
            command: self.command,
            cmd_datetime: self.cmd_datetime,
            task: self.task.clone(),
        }
    }
}

/// The display form of an event: the task in quotes, the kind, and the time
/// in RFC 3339 in quotes.
pub open spec fn display_form(event: CommandView) -> Seq<char> {
    "'"@ + event.task + "' => "@ + event.command.name() + " at '"@ + rfc3339_text(
        event.cmd_datetime.spec_secs(),
        event.cmd_datetime.spec_nanos(),
    ) + "'"@
}

impl Command {
    /// An event of the given kind, time and task.
    pub fn new(cmd: CommandType, cmd_datetime: Timestamp, task: String) -> (event: Command)
        ensures
            event@ == (CommandView { command: cmd, cmd_datetime, task: task@ }),
    {
        Command { command: cmd, cmd_datetime, task }
    }

    /// The event in its display form, such as
    /// `'write report' => clock-in at '2022-01-31T17:00:28+00:00'`.
    pub fn to_string(&self) -> (text: String)
        ensures
            text@ == display_form(self@),
    {
        let mut text = String::from_str("'");
        text.append(self.task.as_str());
        text.append("' => ");
        text.append(self.command.to_string().as_str());
        text.append(" at '");
        text.append(self.cmd_datetime.to_rfc3339().as_str());
        text.append("'");
        text
    }
}

/// Why a command text is not taken. Each error holds the text that was
/// refused, as it was given.
#[derive(Debug)]
pub enum CommandError {
    /// The text does not have exactly three fields.
    MalformedInput { input: String },
    /// The first field names no kind of command.
    UnknownCommand { input: String },
    /// The second field is no timestamp; `reason` says why, in the words of
    /// the `chrono` crate.
    InvalidTimestamp { input: String, reason: String },
}

/// An error as a value of mathematics.
pub enum CommandErrorView {
    MalformedInput { input: Seq<char> },
    UnknownCommand { input: Seq<char> },
    InvalidTimestamp { input: Seq<char>, reason: Seq<char> },
}

impl View for CommandError {
    type V = CommandErrorView;

    open spec fn view(&self) -> CommandErrorView {
        match *self {
            CommandError::MalformedInput { input } => CommandErrorView::MalformedInput {
                input: input@,
            },
            CommandError::UnknownCommand { input } => CommandErrorView::UnknownCommand {
                input: input@,
            },
            CommandError::InvalidTimestamp { input, reason } => CommandErrorView::InvalidTimestamp {
                input: input@,
                reason: reason@,
            },
        }
    }
}

impl CommandErrorView {
    /// What the user is told: what went wrong, the expected format, and an
    /// example of it.
    pub open spec fn message(self) -> Seq<char> {
        match self {
            CommandErrorView::MalformedInput { .. } => "FAIL, usage command::time::title, eg "@
                + command_example(),
            CommandErrorView::UnknownCommand { .. } => {
                "Fail, available commands: clock-in | clock-out, eg "@ + command_example()
            },
            CommandErrorView::InvalidTimestamp { reason, .. } => "ParseError: "@ + reason
                + "\n FAIL: please supply datetime in rfc3339 format, eg: "@ + command_example(),
        }
    }

    /// The command text that was refused.
    pub open spec fn input(self) -> Seq<char> {
        match self {
            CommandErrorView::MalformedInput { input } => input,
            CommandErrorView::UnknownCommand { input } => input,
            CommandErrorView::InvalidTimestamp { input, .. } => input,
        }
    }
}

impl CommandError {
    /// The error's message.
    pub fn to_string(&self) -> (text: String)
        ensures
            text@ == self@.message(),
    {
        let example = "clock-in::2021-10-31T04:10:29.316132167Z::'task description'";
        match self {
            CommandError::MalformedInput { .. } => {
                String::from_str("FAIL, usage command::time::title, eg ").concat(example)
            },
            CommandError::UnknownCommand { .. } => {
                String::from_str("Fail, available commands: clock-in | clock-out, eg ").concat(
                    example,
                )
            },
            CommandError::InvalidTimestamp { reason, .. } => {
                let mut text = String::from_str("ParseError: ");
                text.append(reason.as_str());
                text.append("\n FAIL: please supply datetime in rfc3339 format, eg: ");
                text.append(example);
                text
            },
        }
    }

    /// The command text that was refused.
    pub fn input(&self) -> (text: String)
        ensures
            text@ == self@.input(),
    {
        match self {
            CommandError::MalformedInput { input } => input.clone(),
            CommandError::UnknownCommand { input } => input.clone(),
            CommandError::InvalidTimestamp { input, .. } => input.clone(),
        }
    }
}

/// What reading a command text gives: the event, or the reason why there is
/// none. The kind is looked at first, then the number of fields, then the
/// time. The task is the third field as it stands, white space included; a
/// task that holds the delimiter makes a fourth field, and the text malformed.
/// Every timestamp that `chrono` reads is taken.
pub open spec fn reads_as(raw: Seq<char>, outcome: Result<CommandView, CommandErrorView>) -> bool {
    let parts = fields(raw);
    match outcome {
        Ok(event) => {
            &&& CommandType::of_token(parts[0]) == Some(event.command)
            &&& parts.len() == 3
            &&& rfc3339_reading(parts[1]) == Ok::<(i64, u32), Seq<char>>(
                event.cmd_datetime.instant(),
            )
            &&& event.task == parts[2]
        },
        Err(CommandErrorView::UnknownCommand { input }) => {
            &&& CommandType::of_token(parts[0]) is None
            &&& input == raw
        },
        Err(CommandErrorView::MalformedInput { input }) => {
            &&& CommandType::of_token(parts[0]) is Some
            &&& parts.len() != 3
            &&& input == raw
        },
        Err(CommandErrorView::InvalidTimestamp { input, reason }) => {
            &&& CommandType::of_token(parts[0]) is Some
            &&& parts.len() == 3
            &&& rfc3339_reading(parts[1]) == Err::<(i64, u32), Seq<char>>(reason)
            &&& input == raw
        },
    }
}

/// The outcome of reading as a value of mathematics.
pub open spec fn outcome_view(r: Result<Command, CommandError>) -> Result<
    CommandView,
    CommandErrorView,
> {
    match r {
        Ok(event) => Ok(event@),
        Err(error) => Err(error@),
    }
}

/// A text of three fields, with a kind in the first and a timestamp in the
/// second, is read, and the event holds what the fields say.
pub proof fn lemma_well_formed_text_is_read(
    raw: Seq<char>,
    outcome: Result<CommandView, CommandErrorView>,
    kind: CommandType,
    instant: (i64, u32),
)
    requires
        reads_as(raw, outcome),
        fields(raw).len() == 3,
        CommandType::of_token(fields(raw)[0]) == Some(kind),
        rfc3339_reading(fields(raw)[1]) == Ok::<(i64, u32), Seq<char>>(instant),
    ensures
        outcome matches Ok(event) && event.command == kind && event.cmd_datetime.instant()
            == instant && event.task == fields(raw)[2],
{
}

/// A token that names a kind holds no colon, so it is a plain field.
pub proof fn lemma_kind_token_is_plain(token: Seq<char>)
    requires
        CommandType::of_token(token) is Some,
    ensures
        is_plain_field(token),
{
    reveal_strlit("clock-in");
    reveal_strlit("clockin");
    reveal_strlit("clock-out");
    reveal_strlit("clockout");
    let word = if spells(token, "clock-in"@) {
        "clock-in"@
    } else if spells(token, "clockin"@) {
        "clockin"@
    } else if spells(token, "clock-out"@) {
        "clock-out"@
    } else {
        "clockout"@
    };
    assert(spells(token, word));
    assert forall|i: int| 0 <= i < token.len() implies token[i] != ':' by {
        assert(same_letter(token[i], word[i]));
    }
    assert(token.len() > 0 ==> token[token.len() - 1] != ':');
}

/// A kind, a timestamp and a task, written with `::` between them, are read
/// as the event of that kind, time and task, whatever the case of the kind's
/// letters. The task is kept as it stands; it may be empty, but holds no
/// delimiter. That the timestamp is a plain field holds of every text that
/// `chrono` reads; it is asked for here because the name does not tell.
pub proof fn lemma_three_part_text_is_read(
    token: Seq<char>,
    time: Seq<char>,
    task: Seq<char>,
    outcome: Result<CommandView, CommandErrorView>,
    kind: CommandType,
    instant: (i64, u32),
)
    requires
        CommandType::of_token(token) == Some(kind),
        rfc3339_reading(time) == Ok::<(i64, u32), Seq<char>>(instant),
        is_plain_field(time),
        forall|i: int| !delimiter_at(task, i),
        reads_as(token + seq![':', ':'] + time + seq![':', ':'] + task, outcome),
    ensures
        outcome matches Ok(event) && event.command == kind && event.cmd_datetime.instant()
            == instant && event.task == task,
{
    lemma_kind_token_is_plain(token);
    lemma_fields_of_three(token, time, task);
}

/// Two well-formed texts that differ only in the case of the letters of their
/// kind are both read, and as the same event.
pub proof fn lemma_reading_ignores_case_of_kind(
    first: Seq<char>,
    second: Seq<char>,
    first_outcome: Result<CommandView, CommandErrorView>,
    second_outcome: Result<CommandView, CommandErrorView>,
)
    requires
        reads_as(first, first_outcome),
        reads_as(second, second_outcome),
        fields(first).len() == 3,
        fields(second).len() == 3,
        CommandType::of_token(fields(first)[0]) is Some,
        rfc3339_reading(fields(first)[1]) is Ok,
        same_text_apart_from_case(fields(first)[0], fields(second)[0]),
        fields(first)[1] == fields(second)[1],
        fields(first)[2] == fields(second)[2],
    ensures
        first_outcome matches Ok(one) && second_outcome matches Ok(other) && one.command
            == other.command && one.cmd_datetime.instant() == other.cmd_datetime.instant()
            && one.task == other.task,
{
    CommandType::lemma_kind_ignores_case(fields(first)[0], fields(second)[0]);
}

/// A text that is not well formed is rejected, with the error of the first
/// thing that is wrong with it: the kind, the number of fields, the time. The
/// error holds the text, and for the time the reason that `chrono` gives.
pub proof fn lemma_malformed_text_is_rejected(
    raw: Seq<char>,
    outcome: Result<CommandView, CommandErrorView>,
)
    requires
        reads_as(raw, outcome),
    ensures
        CommandType::of_token(fields(raw)[0]) is None ==> outcome == Err::<
            CommandView,
            CommandErrorView,
        >(CommandErrorView::UnknownCommand { input: raw }),
        CommandType::of_token(fields(raw)[0]) is Some && fields(raw).len() != 3 ==> outcome
            == Err::<CommandView, CommandErrorView>(CommandErrorView::MalformedInput { input: raw }),
        CommandType::of_token(fields(raw)[0]) is Some && fields(raw).len() == 3
            ==> forall|reason: Seq<char>|
            rfc3339_reading(fields(raw)[1]) == Err::<(i64, u32), Seq<char>>(reason) ==> outcome
                == Err::<CommandView, CommandErrorView>(
                CommandErrorView::InvalidTimestamp { input: raw, reason },
            ),
{
}

/// Reads an event from a command text of the form `kind::time::task`, where
/// `kind` is `clock-in` or `clock-out` and `time` is an RFC 3339 date and time
/// with offset. The time is kept in UTC.
pub fn create_command(check_str: &str) -> (r: Result<Command, CommandError>)
    ensures
        reads_as(check_str@, outcome_view(r)),
{
    let mut parts = split_fields(check_str);
    proof {
        lemma_fields_join_back(check_str@);
    }
    let cmd = match CommandType::from_token(parts[0].as_str()) {
        Some(cmd) => cmd,
        None => {
            return Err(CommandError::UnknownCommand { input: String::from_str(check_str) });
        },
    };
    if parts.len() != 3 {
        return Err(CommandError::MalformedInput { input: String::from_str(check_str) });
    }
    let cmd_datetime = match Timestamp::parse_from_rfc3339(parts[1].as_str()) {
        Ok(t) => t,
        Err(reason) => {
            return Err(
                CommandError::InvalidTimestamp { input: String::from_str(check_str), reason },
            );
        },
    };
    let task = parts.pop().unwrap();
    Ok(Command::new(cmd, cmd_datetime, task))
}

} // verus!
