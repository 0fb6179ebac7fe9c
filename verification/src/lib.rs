//! Guard-layer management and circuit monitoring for onion services.
//!
//! The library holds the rules: the guard layers and their replenishment,
//! the rendezvous-point counts, the bandwidth accounting with its verdicts,
//! the weighted choice of relays, and what is done with each event of the
//! daemon. It reads no file and opens no socket; a program around it does.

pub mod api;
pub mod bandguards;
pub mod cbtverify;
mod clock;
pub mod config;
pub mod consensus;
pub mod control;
pub mod error;
pub mod ipnet;
pub mod logguard;
pub mod node_selection;
pub mod pathverify;
mod random;
pub mod rendguard;
mod sorting;
pub mod strmap;
pub mod text;
pub mod vanguards;

pub use api::SecurePassword;
pub use bandguards::{
    BandwidthStats, BwCircuitStat, BwGuardStat, CircuitLimitResult, ConnectivityStatus,
    CELL_PAYLOAD_SIZE, MAX_CIRC_DESTROY_LAG_SECS, RELAY_HEADER_SIZE, RELAY_PAYLOAD_SIZE,
};
pub use cbtverify::{CircuitStat, TimeoutStats};
pub use config::{
    BandguardsConfig, CliArgs, Config, LogLevel, LogguardConfig, RendguardConfig, VanguardsConfig,
};
pub use control::AppState;
pub use error::Error;
pub use logguard::{LogEntry, LogGuard};
pub use node_selection::{
    is_valid_country_code, is_valid_fingerprint, is_valid_ip_or_network, BwWeightedGenerator,
    FlagsRestriction, NodeRestriction, NodeRestrictionList, Position, Router,
};
pub use pathverify::{Layer1Guards, Layer1Stats, PathVerify};
pub use rendguard::{RendCheckResult, NOT_IN_CONSENSUS_ID};
pub use vanguards::{ExcludeNodes, GuardNode, RendGuard, RendUseCount, VanguardState};
