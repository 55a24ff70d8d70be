use vstd::prelude::*;
use crate::text::same_text;

verus! {

/// Settings of the tool, as stored in its configuration file.
pub struct Config {
    pub watched_path: String,
    pub server_ip: String,
    pub mode: String,
    pub interval_in_secs: u64,
}

impl Default for Config {
    fn default() -> (c: Self)
        ensures
            c.watched_path@ == "./watched"@,
            c.server_ip@ == "192.168.125"@,
            c.mode@ == "instant"@,
            c.interval_in_secs == 10,
    {
        Config {
            watched_path: String::from_str("./watched"),
            server_ip: String::from_str("192.168.125"),
            mode: String::from_str("instant"),
            interval_in_secs: 10,
        }
    }
}

/// How the tool looks for updates on the server.
#[derive(PartialEq, Eq, Structural, Clone, Copy, Debug)]
pub enum Mode {
    /// Poll every few seconds.
    Instant,
    /// Poll at the configured interval.
    Auto,
    /// Poll when the user types `fetch`.
    Manual,
}

/// The mode that the name stands for.
pub open spec fn mode_named(name: Seq<char>) -> Option<Mode> {
    if name == "instant"@ {
        Some(Mode::Instant)
    } else if name == "auto"@ {
        Some(Mode::Auto)
    } else if name == "manual"@ {
        Some(Mode::Manual)
    } else {
        None
    }
}

/// The mode named `name`, if it is one of `instant`, `auto` and `manual`.
pub fn mode_from_name(name: &str) -> (m: Option<Mode>)
    ensures
        m == mode_named(name@),
{
    if same_text(name, "instant") {
        Some(Mode::Instant)
    } else if same_text(name, "auto") {
        Some(Mode::Auto)
    } else if same_text(name, "manual") {
        Some(Mode::Manual)
    } else {
        None
    }
}

/// The seconds between two polls in instant mode.
pub const INSTANT_POLL_SECS: u64 = 5;

/// When the tool polls the server for updates.
#[derive(PartialEq, Eq, Structural, Clone, Copy, Debug)]
pub enum PollSchedule {
    /// In the background, every so many seconds.
    Every(u64),
    /// Whenever the user enters the `fetch` command.
    OnFetchCommand,
    /// Never: the configured mode is not known.
    UnknownMode,
}

/// The polling that `mode` calls for, with `interval_in_secs` as the interval of auto mode.
pub open spec fn schedule_for(mode: Option<Mode>, interval_in_secs: u64) -> PollSchedule {
    match mode {
        Some(Mode::Instant) => PollSchedule::Every(INSTANT_POLL_SECS),
        Some(Mode::Auto) => PollSchedule::Every(interval_in_secs),
        Some(Mode::Manual) => PollSchedule::OnFetchCommand,
        None => PollSchedule::UnknownMode,
    }
}

/// The mode alone decides the polling: `instant` polls every 5 seconds,
/// `auto` every `interval_in_secs` seconds whatever that interval is, `manual`
/// on the `fetch` command, and any other name never.
pub proof fn lemma_schedule_by_mode(mode: Seq<char>, interval_in_secs: u64)
    ensures
        mode == "instant"@ ==> schedule_for(mode_named(mode), interval_in_secs)
            == PollSchedule::Every(5),
        mode == "auto"@ ==> schedule_for(mode_named(mode), interval_in_secs) == PollSchedule::Every(
            interval_in_secs,
        ),
        mode == "manual"@ ==> schedule_for(mode_named(mode), interval_in_secs)
            == PollSchedule::OnFetchCommand,
        mode != "instant"@ && mode != "auto"@ && mode != "manual"@ ==> schedule_for(
            mode_named(mode),
            interval_in_secs,
        ) == PollSchedule::UnknownMode,
{
    reveal_strlit("instant");
    reveal_strlit("auto");
    reveal_strlit("manual");
    assert("instant"@ != "auto"@ && "instant"@ != "manual"@ && "auto"@ != "manual"@) by {
        assert("instant"@.len() == 7 && "auto"@.len() == 4 && "manual"@.len() == 6);
    }
}

/// The polling that the configuration calls for: every 5 seconds in instant
/// mode, every `interval_in_secs` seconds in auto mode, on the `fetch`
/// command in manual mode, and none for an unknown mode.
pub fn poll_schedule(config: &Config) -> (p: PollSchedule)
    ensures
        p == schedule_for(mode_named(config.mode@), config.interval_in_secs),
        config.mode@ == "instant"@ ==> p == PollSchedule::Every(5),
        config.mode@ == "auto"@ ==> p == PollSchedule::Every(config.interval_in_secs),
        config.mode@ == "manual"@ ==> p == PollSchedule::OnFetchCommand,
        config.mode@ != "instant"@ && config.mode@ != "auto"@ && config.mode@ != "manual"@ ==> p
            == PollSchedule::UnknownMode,
{
    proof {
        lemma_schedule_by_mode(config.mode@, config.interval_in_secs);
    }
    match mode_from_name(config.mode.as_str()) {
        Some(Mode::Instant) => PollSchedule::Every(INSTANT_POLL_SECS),
        Some(Mode::Auto) => PollSchedule::Every(config.interval_in_secs),
        Some(Mode::Manual) => PollSchedule::OnFetchCommand,
        None => PollSchedule::UnknownMode,
    }
}

} // verus!
