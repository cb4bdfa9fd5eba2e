//! The driver of the polling loop. It owns the previous observation; the
//! caller runs the commands and the pauses, and hands each outcome in.

use crate::command::{CommandOutcome, CommandOutcomeView};
use crate::config::{capture_media_class, Config};
use crate::engine::{is_plan, reconcile, Reconciliation};
use crate::parser::{parse_dump, snapshot_of, Filter, FilterView};
use crate::snapshot::{ascending, Snapshot};
use crate::text::decode;
use vstd::prelude::*;
use vstd::utf8::{decode_utf8, valid_utf8};

verus! {

/// The control tool cannot be run at all: nothing can be observed or changed.
#[derive(Debug, PartialEq, Eq)]
pub struct StartupFailure {
    /// Why the tool could not be run.
    pub reason: String,
}

impl StartupFailure {
    /// The failure in words.
    pub fn message(&self) -> (m: String)
        ensures
            m@ == "pw-cli not available"@,
    {
        "pw-cli not available".to_owned()
    }
}

/// Decides from the outcome of the probe whether the loop can start: it
/// can as soon as the tool could be run, whatever the tool then reported.
pub fn check_tool(probe: &CommandOutcome) -> (r: Result<(), StartupFailure>)
    ensures
        match probe@ {
            CommandOutcomeView::Unavailable(why) => r matches Err(f) && f.reason@ == why,
            CommandOutcomeView::Exited { .. } => r is Ok,
        },
{
    match probe {
        CommandOutcome::Unavailable(why) => Err(StartupFailure { reason: why.clone() }),
        CommandOutcome::Exited { .. } => Ok(()),
    }
}

/// Why an observation could not be made.
#[derive(Debug, PartialEq, Eq)]
pub enum EnumerationFailure {
    /// The command could not be run, and why.
    Unavailable(String),
    /// The command ended without success.
    CommandFailed,
    /// What the command wrote is not text. The decoder's account of the
    /// fault is carried along unread.
    NotText(core::str::Utf8Error),
}

/// The mathematical content of an `EnumerationFailure`: which failure it
/// is, and the reason where the library can read it.
pub enum EnumerationFailureView {
    Unavailable(Seq<char>),
    CommandFailed,
    NotText,
}

impl View for EnumerationFailure {
    type V = EnumerationFailureView;

    open spec fn view(&self) -> EnumerationFailureView {
        match self {
            EnumerationFailure::Unavailable(why) => EnumerationFailureView::Unavailable(why@),
            EnumerationFailure::CommandFailed => EnumerationFailureView::CommandFailed,
            EnumerationFailure::NotText(_) => EnumerationFailureView::NotText,
        }
    }
}

impl EnumerationFailure {
    /// The failure in words.
    pub fn message(&self) -> (m: String)
        ensures
            m@ == match self@ {
                EnumerationFailureView::Unavailable(why) => why,
                EnumerationFailureView::CommandFailed => "pw-cli list-objects failed"@,
                EnumerationFailureView::NotText => "pw-cli list-objects wrote invalid UTF-8"@,
            },
    {
        match self {
            EnumerationFailure::Unavailable(why) => why.clone(),
            EnumerationFailure::CommandFailed => "pw-cli list-objects failed".to_owned(),
            EnumerationFailure::NotText(_) => "pw-cli list-objects wrote invalid UTF-8".to_owned(),
        }
    }
}

/// What the outcome of the enumeration shows under a filter: the snapshot
/// of the dump, if the command ran with success and wrote text.
pub open spec fn observed(outcome: CommandOutcomeView, f: FilterView) -> Result<
    Set<u32>,
    EnumerationFailureView,
> {
    match outcome {
        CommandOutcomeView::Unavailable(why) => Err(EnumerationFailureView::Unavailable(why)),
        CommandOutcomeView::Exited { success, stdout, stderr } => if !success {
            Err(EnumerationFailureView::CommandFailed)
        } else if !valid_utf8(stdout) {
            Err(EnumerationFailureView::NotText)
        } else {
            Ok(snapshot_of(decode_utf8(stdout), f))
        },
    }
}

/// Reads the outcome of the enumeration into a snapshot.
pub fn read_enumeration(outcome: &CommandOutcome, filter: &Filter) -> (r: Result<
    Snapshot,
    EnumerationFailure,
>)
    ensures
        match observed(outcome@, filter@) {
            Ok(streams) => r matches Ok(snapshot) && snapshot@ == streams,
            Err(failure) => r matches Err(f) && f@ == failure,
        },
{
    match outcome {
        CommandOutcome::Unavailable(why) => Err(EnumerationFailure::Unavailable(why.clone())),
        CommandOutcome::Exited { success, stdout, stderr } => {
            if !*success {
                return Err(EnumerationFailure::CommandFailed);
            }
            match decode(stdout.as_slice()) {
                Ok(text) => Ok(parse_dump(text, filter)),
                Err(fault) => Err(EnumerationFailure::NotText(fault)),
            }
        },
    }
}

/// What one turn of the loop calls for, before the pause.
#[derive(Debug, PartialEq, Eq)]
pub enum Cycle {
    /// No observation could be made: there is nothing to do but to report why.
    Skipped(EnumerationFailure),
    /// The observation was made: these decisions are to be carried out.
    Reconciled(Reconciliation),
}

/// Watches the streams of one name, and remembers which were there at the
/// previous observation.
#[derive(Debug)]
pub struct DiscordCaptureLimiter {
    config: Config,
    previous: Snapshot,
}

impl DiscordCaptureLimiter {
    /// The settings that the limiter was made with.
    pub closed spec fn settings(&self) -> Config {
        self.config
    }

    /// The streams of the previous observation.
    pub closed spec fn baseline(&self) -> Set<u32> {
        self.previous@
    }

    /// The filter that the settings ask for: nodes of the configured name
    /// that capture audio.
    pub open spec fn watched(&self) -> FilterView {
        FilterView { name: self.settings().target_node_name@, media_class: "Stream/Input/Audio"@ }
    }

    /// A limiter that has observed nothing yet.
    pub fn new(config: Config) -> (limiter: DiscordCaptureLimiter)
        ensures
            limiter.settings() == config,
            limiter.baseline() == Set::<u32>::empty(),
    {
        DiscordCaptureLimiter { config: config, previous: Snapshot::new() }
    }

    /// The settings.
    pub fn config(&self) -> (config: &Config)
        ensures
            *config == self.settings(),
    {
        &self.config
    }

    /// The previous observation.
    pub fn previous(&self) -> (snapshot: &Snapshot)
        ensures
            snapshot@ == self.baseline(),
    {
        &self.previous
    }

    /// The pause between two observations, in milliseconds.
    pub fn interval_ms(&self) -> (ms: u64)
        ensures
            ms == self.settings().check_interval_ms,
    {
        self.config.check_interval_ms
    }

    /// The filter that the settings ask for.
    pub fn filter(&self) -> (f: Filter)
        ensures
            f@ == self.watched(),
    {
        Filter::new(self.config.target_node_name.as_str(), capture_media_class())
    }

    /// Takes one turn of the loop, given the outcome of the enumeration.
    ///
    /// Where no observation could be made, the turn is skipped and the
    /// previous observation stays. Otherwise the observation is compared
    /// with the previous one and takes its place, whatever comes of
    /// carrying the decisions out.
    pub fn cycle(&mut self, outcome: &CommandOutcome) -> (turn: Cycle)
        ensures
            final(self).settings() == old(self).settings(),
            match observed(outcome@, old(self).watched()) {
                Err(failure) => {
                    &&& turn matches Cycle::Skipped(f)
                    &&& f@ == failure
                    &&& final(self).baseline() == old(self).baseline()
                },
                Ok(streams) => {
                    &&& turn matches Cycle::Reconciled(r)
                    &&& is_plan(streams, r.decisions@)
                    &&& ascending(r.arrivals@)
                    &&& r.arrivals@.to_set() == streams.difference(old(self).baseline())
                    &&& final(self).baseline() == streams
                },
            },
    {
        let filter = self.filter();
        match read_enumeration(outcome, &filter) {
            Err(failure) => Cycle::Skipped(failure),
            Ok(current) => {
                let r = reconcile(&current, &self.previous);
                self.previous = current;
                Cycle::Reconciled(r)
            },
        }
    }
}

} // verus!
