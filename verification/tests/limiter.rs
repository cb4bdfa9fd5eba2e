use discord_capture_limiter::command::CommandOutcome;
use discord_capture_limiter::config::Config;
use discord_capture_limiter::engine::{MuteDecision, Reconciliation};
use discord_capture_limiter::limiter::{
    check_tool, read_enumeration, Cycle, DiscordCaptureLimiter, EnumerationFailure,
    StartupFailure,
};
use discord_capture_limiter::parser::Filter;

fn dump_of(ids: &[u32]) -> Vec<u8> {
    let mut dump = String::new();
    for id in ids {
        dump.push_str(&format!(
            "\tid {}, type PipeWire:Interface:Node/3\n \t\tnode.name = \"discord_capture\"\n \t\tmedia.class = \"Stream/Input/Audio\"\n",
            id
        ));
    }
    dump.push_str("\tid 4, type PipeWire:Interface:Node/3\n \t\tnode.name = \"speaker\"\n \t\tmedia.class = \"Audio/Sink\"\n");
    dump.into_bytes()
}

fn enumerated(ids: &[u32]) -> CommandOutcome {
    CommandOutcome::Exited { success: true, stdout: dump_of(ids), stderr: Vec::new() }
}

#[test]
fn new_limiter_has_seen_nothing() {
    let limiter = DiscordCaptureLimiter::new(Config::default());
    assert!(limiter.previous().is_empty());
    assert_eq!(limiter.config(), &Config::default());
    assert_eq!(limiter.interval_ms(), 1000);
    assert_eq!(limiter.filter(), Filter::new("discord_capture", "Stream/Input/Audio"));
}

#[test]
fn limiter_watches_the_configured_name() {
    let config = Config {
        target_node_name: "speaker".to_string(),
        log_level: "debug".to_string(),
        check_interval_ms: 250,
    };
    let mut limiter = DiscordCaptureLimiter::new(config);
    assert_eq!(limiter.interval_ms(), 250);
    assert_eq!(limiter.filter(), Filter::new("speaker", "Stream/Input/Audio"));
    let turn = limiter.cycle(&enumerated(&[5]));
    assert_eq!(turn, Cycle::Reconciled(Reconciliation { arrivals: vec![], decisions: vec![] }));
}

#[test]
fn check_tool_needs_the_tool_to_run() {
    assert_eq!(check_tool(&enumerated(&[])), Ok(()));
    assert_eq!(
        check_tool(&CommandOutcome::Exited {
            success: false,
            stdout: Vec::new(),
            stderr: b"usage".to_vec(),
        }),
        Ok(())
    );
    let failure = check_tool(&CommandOutcome::Unavailable("not found".to_string()));
    assert_eq!(failure, Err(StartupFailure { reason: "not found".to_string() }));
    assert_eq!(failure.unwrap_err().message(), "pw-cli not available");
}

#[test]
fn read_enumeration_parses_successful_output() {
    let f = Filter::new("discord_capture", "Stream/Input/Audio");
    let snapshot = read_enumeration(&enumerated(&[9, 5]), &f).unwrap();
    assert_eq!(snapshot.ids(), vec![5, 9]);
}

#[test]
fn read_enumeration_reports_each_failure() {
    let f = Filter::new("discord_capture", "Stream/Input/Audio");
    let failed =
        CommandOutcome::Exited { success: false, stdout: dump_of(&[5]), stderr: Vec::new() };
    assert_eq!(read_enumeration(&failed, &f), Err(EnumerationFailure::CommandFailed));
    let mut bytes = dump_of(&[5]);
    bytes.push(0xff);
    let fault = std::str::from_utf8(&bytes).unwrap_err();
    let garbled = CommandOutcome::Exited { success: true, stdout: bytes, stderr: Vec::new() };
    assert_eq!(read_enumeration(&garbled, &f), Err(EnumerationFailure::NotText(fault)));
    assert_eq!(fault.valid_up_to(), dump_of(&[5]).len());
    let missing = CommandOutcome::Unavailable("not found".to_string());
    assert_eq!(
        read_enumeration(&missing, &f),
        Err(EnumerationFailure::Unavailable("not found".to_string()))
    );
}

#[test]
fn enumeration_failures_have_messages() {
    assert_eq!(EnumerationFailure::CommandFailed.message(), "pw-cli list-objects failed");
    let fault = std::str::from_utf8(&[0xff]).unwrap_err();
    assert_eq!(
        EnumerationFailure::NotText(fault).message(),
        "pw-cli list-objects wrote invalid UTF-8"
    );
    assert_eq!(EnumerationFailure::Unavailable("no".to_string()).message(), "no");
}

#[test]
fn failed_enumeration_skips_the_cycle() {
    let mut limiter = DiscordCaptureLimiter::new(Config::default());
    limiter.cycle(&enumerated(&[3, 7]));
    assert_eq!(limiter.previous().ids(), vec![3, 7]);
    let failed =
        CommandOutcome::Exited { success: false, stdout: dump_of(&[9]), stderr: Vec::new() };
    assert_eq!(limiter.cycle(&failed), Cycle::Skipped(EnumerationFailure::CommandFailed));
    assert_eq!(limiter.previous().ids(), vec![3, 7]);
    let turn = limiter.cycle(&enumerated(&[3, 7, 9]));
    assert_eq!(
        turn,
        Cycle::Reconciled(Reconciliation {
            arrivals: vec![9],
            decisions: vec![
                MuteDecision { id: 3, mute: false },
                MuteDecision { id: 7, mute: true },
                MuteDecision { id: 9, mute: true },
            ],
        })
    );
}

#[test]
fn cycle_replaces_the_previous_snapshot() {
    let mut limiter = DiscordCaptureLimiter::new(Config::default());
    let first = limiter.cycle(&enumerated(&[3]));
    assert_eq!(
        first,
        Cycle::Reconciled(Reconciliation {
            arrivals: vec![3],
            decisions: vec![MuteDecision { id: 3, mute: false }],
        })
    );
    let second = limiter.cycle(&enumerated(&[3, 7]));
    assert_eq!(
        second,
        Cycle::Reconciled(Reconciliation {
            arrivals: vec![7],
            decisions: vec![
                MuteDecision { id: 3, mute: false },
                MuteDecision { id: 7, mute: true },
            ],
        })
    );
    let third = limiter.cycle(&enumerated(&[7]));
    assert_eq!(
        third,
        Cycle::Reconciled(Reconciliation {
            arrivals: vec![],
            decisions: vec![MuteDecision { id: 7, mute: false }],
        })
    );
    assert_eq!(limiter.previous().ids(), vec![7]);
    let fourth = limiter.cycle(&enumerated(&[]));
    assert_eq!(
        fourth,
        Cycle::Reconciled(Reconciliation { arrivals: vec![], decisions: vec![] })
    );
    assert!(limiter.previous().is_empty());
}

#[test]
fn stream_seen_again_after_a_skipped_cycle_is_not_new() {
    let mut limiter = DiscordCaptureLimiter::new(Config::default());
    limiter.cycle(&enumerated(&[3]));
    limiter.cycle(&CommandOutcome::Unavailable("busy".to_string()));
    let turn = limiter.cycle(&enumerated(&[3]));
    assert_eq!(
        turn,
        Cycle::Reconciled(Reconciliation {
            arrivals: vec![],
            decisions: vec![MuteDecision { id: 3, mute: false }],
        })
    );
}

#[test]
fn garbled_output_skips_the_cycle() {
    let mut limiter = DiscordCaptureLimiter::new(Config::default());
    limiter.cycle(&enumerated(&[3]));
    let garbled =
        CommandOutcome::Exited { success: true, stdout: vec![0x69, 0x64, 0xc3], stderr: Vec::new() };
    let fault = std::str::from_utf8(&[0x69, 0x64, 0xc3]).unwrap_err();
    assert_eq!(limiter.cycle(&garbled), Cycle::Skipped(EnumerationFailure::NotText(fault)));
    assert_eq!(limiter.previous().ids(), vec![3]);
}

#[test]
fn configured_name_may_hold_an_equals_sign() {
    let config = Config {
        target_node_name: "a=b".to_string(),
        log_level: "info".to_string(),
        check_interval_ms: 1000,
    };
    let mut limiter = DiscordCaptureLimiter::new(config);
    let dump = "id 12, type PipeWire:Interface:Node/3\n node.name = \"a=b\"\n media.class = \"Stream/Input/Audio\"\n";
    let outcome = CommandOutcome::Exited {
        success: true,
        stdout: dump.as_bytes().to_vec(),
        stderr: Vec::new(),
    };
    let snapshot = read_enumeration(&outcome, &limiter.filter()).unwrap();
    assert_eq!(snapshot.len(), 1);
    assert!(snapshot.contains(12));
    assert_eq!(
        limiter.cycle(&outcome),
        Cycle::Reconciled(Reconciliation {
            arrivals: vec![12],
            decisions: vec![MuteDecision { id: 12, mute: false }],
        })
    );
}
