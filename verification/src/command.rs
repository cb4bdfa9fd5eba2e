//! The commands of the session graph's control tool, and what their
//! outcomes mean. Running a command is left to the caller: this module
//! says which command to run, and reads what came back.

use crate::engine::MuteDecision;
use crate::text::{decimal_digits, decode_lossy, format_u32, lossy_text};
use vstd::prelude::*;
use vstd::utf8::{decode_utf8, valid_utf8};

verus! {

/// A command line: the program and its arguments.
#[derive(Debug, PartialEq, Eq)]
pub struct Command {
    pub program: String,
    pub args: Vec<String>,
}

/// The mathematical content of a `Command`.
pub struct CommandView {
    pub program: Seq<char>,
    pub args: Seq<Seq<char>>,
}

impl View for Command {
    type V = CommandView;

    open spec fn view(&self) -> CommandView {
        CommandView { program: self.program@, args: self.args@.map_values(|a: String| a@) }
    }
}

/// What came of running a command.
#[derive(Debug, PartialEq, Eq)]
pub enum CommandOutcome {
    /// The command could not be run, and why.
    Unavailable(String),
    /// The command ran to its end: whether with success, and what it wrote
    /// to its output and as its error.
    Exited { success: bool, stdout: Vec<u8>, stderr: Vec<u8> },
}

/// The mathematical content of a `CommandOutcome`.
pub enum CommandOutcomeView {
    Unavailable(Seq<char>),
    Exited { success: bool, stdout: Seq<u8>, stderr: Seq<u8> },
}

impl View for CommandOutcome {
    type V = CommandOutcomeView;

    open spec fn view(&self) -> CommandOutcomeView {
        match self {
            CommandOutcome::Unavailable(why) => CommandOutcomeView::Unavailable(why@),
            CommandOutcome::Exited { success, stdout, stderr } => CommandOutcomeView::Exited {
                success: *success,
                stdout: stdout@,
                stderr: stderr@,
            },
        }
    }
}

/// The command that shows whether the control tool is there at all.
pub open spec fn probe_request() -> CommandView {
    CommandView { program: "pw-cli"@, args: seq!["--version"@] }
}

/// The command that dumps the nodes of the session graph.
pub open spec fn enumerate_request() -> CommandView {
    CommandView { program: "pw-cli"@, args: seq!["list-objects"@, "Node"@] }
}

/// The value of the mute property, as the control tool reads it.
pub open spec fn mute_property(mute: bool) -> Seq<char> {
    if mute {
        "{ mute: true }"@
    } else {
        "{ mute: false }"@
    }
}

/// The command that carries out a decision.
pub open spec fn mute_request(decision: MuteDecision) -> CommandView {
    CommandView {
        program: "pw-cli"@,
        args: seq![
            "set-param"@,
            decimal_digits(decision.id as nat),
            "Props"@,
            mute_property(decision.mute),
        ],
    }
}

/// Builds the command that shows whether the control tool is there at all.
pub fn probe_command() -> (c: Command)
    ensures
        c@ == probe_request(),
{
    let mut args: Vec<String> = Vec::new();
    args.push("--version".to_owned());
    let c = Command { program: "pw-cli".to_owned(), args: args };
    assert(c@.args =~= probe_request().args);
    c
}

/// Builds the command that dumps the nodes of the session graph.
pub fn enumerate_command() -> (c: Command)
    ensures
        c@ == enumerate_request(),
{
    let mut args: Vec<String> = Vec::new();
    args.push("list-objects".to_owned());
    args.push("Node".to_owned());
    let c = Command { program: "pw-cli".to_owned(), args: args };
    assert(c@.args =~= enumerate_request().args);
    c
}

/// Builds the command that carries out a decision.
pub fn mute_command(decision: MuteDecision) -> (c: Command)
    ensures
        c@ == mute_request(decision),
{
    let property = if decision.mute {
        "{ mute: true }"
    } else {
        "{ mute: false }"
    };
    let mut args: Vec<String> = Vec::new();
    args.push("set-param".to_owned());
    args.push(format_u32(decision.id));
    args.push("Props".to_owned());
    args.push(property.to_owned());
    let c = Command { program: "pw-cli".to_owned(), args: args };
    assert(c@.args =~= mute_request(decision).args);
    c
}

/// A decision that could not be carried out.
#[derive(Debug, PartialEq, Eq)]
pub struct ApplyFailure {
    pub id: u32,
    pub message: String,
}

/// The mathematical content of an `ApplyFailure`.
pub struct ApplyFailureView {
    pub id: u32,
    pub message: Seq<char>,
}

impl View for ApplyFailure {
    type V = ApplyFailureView;

    open spec fn view(&self) -> ApplyFailureView {
        ApplyFailureView { id: self.id, message: self.message@ }
    }
}

/// What a command wrote as its error, as text: the text that the bytes
/// encode where they are well-formed UTF-8, and elsewhere that text with the
/// faulty parts replaced.
pub open spec fn error_text(stderr: Seq<u8>) -> Seq<char> {
    if valid_utf8(stderr) {
        decode_utf8(stderr)
    } else {
        lossy_text(stderr)
    }
}

/// The failure that an outcome means for a decision, if it means one: a
/// command that could not be run fails with the reason given, one that
/// ended without success with what it wrote as its error, read as text
/// whether or not it is well-formed.
pub open spec fn failure_of(decision: MuteDecision, outcome: CommandOutcomeView) -> Option<
    ApplyFailureView,
> {
    match outcome {
        CommandOutcomeView::Unavailable(why) => Some(
            ApplyFailureView { id: decision.id, message: why },
        ),
        CommandOutcomeView::Exited { success, stdout, stderr } => if success {
            None
        } else {
            Some(
                ApplyFailureView {
                    id: decision.id,
                    message: "pw-cli command failed: "@ + error_text(stderr),
                },
            )
        },
    }
}

/// Reads the outcome of the command that was run for `decision`.
pub fn mute_result(decision: MuteDecision, outcome: &CommandOutcome) -> (r: Result<
    (),
    ApplyFailure,
>)
    ensures
        match failure_of(decision, outcome@) {
            None => r is Ok,
            Some(f) => r matches Err(e) && e@ == f,
        },
{
    match outcome {
        CommandOutcome::Unavailable(why) => Err(
            ApplyFailure { id: decision.id, message: why.clone() },
        ),
        CommandOutcome::Exited { success, stdout, stderr } => {
            if *success {
                Ok(())
            } else {
                let mut message = "pw-cli command failed: ".to_owned();
                message.append(decode_lossy(stderr.as_slice()).as_str());
                Err(ApplyFailure { id: decision.id, message: message })
            }
        },
    }
}

/// A decision together with the outcome of the command that was run for it.
#[derive(Debug, PartialEq, Eq)]
pub struct MuteAttempt {
    pub decision: MuteDecision,
    pub outcome: CommandOutcome,
}

/// The failures among `attempts`, in their order.
pub open spec fn failures_of(attempts: Seq<MuteAttempt>) -> Seq<ApplyFailureView>
    decreases attempts.len(),
{
    if attempts.len() == 0 {
        Seq::empty()
    } else {
        let earlier = failures_of(attempts.drop_last());
        match failure_of(attempts.last().decision, attempts.last().outcome@) {
            Some(f) => earlier.push(f),
            None => earlier,
        }
    }
}

/// Whether the attempt at `i` failed with `f`.
pub open spec fn failed_with(attempts: Seq<MuteAttempt>, i: int, f: ApplyFailureView) -> bool {
    0 <= i < attempts.len() && failure_of(attempts[i].decision, attempts[i].outcome@) == Some(f)
}

/// Each attempt is judged by itself: a failure is reported exactly when
/// some attempt failed with it, whatever came of the others.
pub proof fn lemma_failures_reported(attempts: Seq<MuteAttempt>, f: ApplyFailureView)
    ensures
        failures_of(attempts).contains(f) <==> exists|i: int| failed_with(attempts, i, f),
        failures_of(attempts).len() <= attempts.len(),
    decreases attempts.len(),
{
    if attempts.len() > 0 {
        let earlier = attempts.drop_last();
        let last = attempts.len() - 1;
        lemma_failures_reported(earlier, f);
        if failures_of(attempts).contains(f) {
            if failures_of(earlier).contains(f) {
                let i = choose|i: int| failed_with(earlier, i, f);
                assert(failed_with(attempts, i, f));
            } else {
                assert(failed_with(attempts, last, f));
            }
        }
        if exists|i: int| failed_with(attempts, i, f) {
            let i = choose|i: int| failed_with(attempts, i, f);
            if i < last {
                assert(failed_with(earlier, i, f));
                let k = choose|k: int|
                    0 <= k < failures_of(earlier).len() && failures_of(earlier)[k] == f;
                assert(failures_of(attempts)[k] == f);
            } else {
                assert(failures_of(attempts)[failures_of(earlier).len() as int] == f);
            }
        }
    }
}

/// Collects the failures among `attempts`, in their order.
pub fn apply_failures(attempts: &[MuteAttempt]) -> (failures: Vec<ApplyFailure>)
    ensures
        failures@.map_values(|f: ApplyFailure| f@) == failures_of(attempts@),
{
    let mut failures: Vec<ApplyFailure> = Vec::new();
    let mut i: usize = 0;
    while i < attempts.len()
        invariant
            i <= attempts@.len(),
            failures@.map_values(|f: ApplyFailure| f@) =~= failures_of(attempts@.take(i as int)),
        decreases attempts@.len() - i,
    {
        assert(attempts@.take(i + 1).drop_last() =~= attempts@.take(i as int));
        match mute_result(attempts[i].decision, &attempts[i].outcome) {
            Ok(()) => {},
            Err(failure) => {
                failures.push(failure);
            },
        }
        i = i + 1;
    }
    assert(attempts@.take(attempts@.len() as int) =~= attempts@);
    failures
}

} // verus!
