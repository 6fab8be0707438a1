//! Verified core of a LttP randomizer auto timer: it reads SNES RAM snapshots, decides which
//! transitions, location checks, item pickups and events have happened, and keeps the log of
//! them that the timer's statistics are computed from.
use vstd::prelude::*;

pub mod check;
pub mod clock;
pub mod condition;
pub mod evaluable;
pub mod event;
pub mod output;
pub mod parse_ram;
pub mod qusb;
pub mod request;
pub mod serde_lttp;
pub mod session;
pub mod snes;
pub mod sni;
pub mod tile;
pub mod time;

verus! {

/// The settings given on the command line.
#[derive(Clone)]
pub struct CliConfig {
    pub host: String,
    pub port: String,
    pub non_race_mode: bool,
    pub manual_update: bool,
    /// Milliseconds between reads.
    pub update_frequency: u64,
    pub _verbosity: u64,
    pub segment_run_mode: bool,
    pub round_times: bool,
}

impl Default for CliConfig {
    fn default() -> (c: Self)
        ensures
            c.host@ == Seq::<char>::empty(),
            c.port@ == Seq::<char>::empty(),
            !c.non_race_mode,
            !c.manual_update,
            c.update_frequency == 0,
            c._verbosity == 0,
            !c.segment_run_mode,
            !c.round_times,
    {
        CliConfig {
            host: String::new(),
            port: String::new(),
            non_race_mode: false,
            manual_update: false,
            update_frequency: 0,
            _verbosity: 0,
            segment_run_mode: false,
            round_times: false,
        }
    }
}

impl CliConfig {
    /// The websocket address of the server: `ws://<host>:<port>`.
    pub fn sni_url(&self) -> (url: String)
        ensures
            url@ == "ws://"@ + self.host@ + ":"@ + self.port@,
    {
        let mut url = String::from_str("ws://");
        url.append(self.host.as_str());
        url.append(":");
        url.append(self.port.as_str());
        url
    }
}

} // verus!
