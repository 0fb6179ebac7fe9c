//! Per-circuit byte accounting, guard-connection bookkeeping and the
//! verdicts drawn from them.
//!
//! Times are milliseconds since the Unix epoch.

use crate::clock::now_millis;
use crate::config::BandguardsConfig;
use crate::strmap::StrMap;
use crate::text::{opt_is, opt_owned, opt_str_view, opt_view, starts_with, string_views};
use vstd::prelude::*;

verus! {

/// Bytes of payload in a cell.
pub const CELL_PAYLOAD_SIZE: u64 = 509;

/// Bytes of relay header in a cell's payload.
pub const RELAY_HEADER_SIZE: u64 = 11;

/// Bytes of relayed data in a cell.
pub const RELAY_PAYLOAD_SIZE: u64 = CELL_PAYLOAD_SIZE - RELAY_HEADER_SIZE;

/// Seconds within which the end of a circuit is blamed on the end of its
/// guard connection.
pub const MAX_CIRC_DESTROY_LAG_SECS: u64 = 2;

/// What is known of one open circuit.
#[derive(Debug, Clone)]
pub struct BwCircuitStat {
    /// The circuit's id.
    pub circ_id: String,
    /// Whether the circuit serves an onion service, on either side.
    pub is_hs: bool,
    /// Whether the circuit is on the service side.
    pub is_service: bool,
    /// Whether the circuit fetches or posts a descriptor.
    pub is_hsdir: bool,
    /// Whether the circuit is a service-side introduction circuit.
    pub is_serv_intro: bool,
    /// Dropped cells tolerated on this circuit.
    pub dropped_cells_allowed: u64,
    /// Current purpose.
    pub purpose: Option<String>,
    /// Current onion-service state.
    pub hs_state: Option<String>,
    /// Purpose before the last change of purpose.
    pub old_purpose: Option<String>,
    /// Onion-service state before the last change of purpose.
    pub old_hs_state: Option<String>,
    /// Whether the circuit carries application traffic.
    pub in_use: bool,
    /// Whether the circuit has been built.
    pub built: bool,
    /// When the circuit was first seen.
    pub created_at: u64,
    /// Bytes read.
    pub read_bytes: u64,
    /// Bytes sent.
    pub sent_bytes: u64,
    /// Bytes of application data read.
    pub delivered_read_bytes: u64,
    /// Bytes of application data sent.
    pub delivered_sent_bytes: u64,
    /// Bytes of protocol overhead read.
    pub overhead_read_bytes: u64,
    /// Bytes of protocol overhead sent.
    pub overhead_sent_bytes: u64,
    /// Fingerprint of the first hop.
    pub guard_fp: Option<String>,
    /// When the guard connection under the circuit closed, if it did.
    pub possibly_destroyed_at: Option<u64>,
}

/// The mathematical content of a [`BwCircuitStat`].
pub ghost struct CircuitView {
    pub circ_id: Seq<char>,
    pub is_hs: bool,
    pub is_service: bool,
    pub is_hsdir: bool,
    pub is_serv_intro: bool,
    pub dropped_cells_allowed: u64,
    pub purpose: Option<Seq<char>>,
    pub hs_state: Option<Seq<char>>,
    pub old_purpose: Option<Seq<char>>,
    pub old_hs_state: Option<Seq<char>>,
    pub in_use: bool,
    pub built: bool,
    pub created_at: u64,
    pub read_bytes: u64,
    pub sent_bytes: u64,
    pub delivered_read_bytes: u64,
    pub delivered_sent_bytes: u64,
    pub overhead_read_bytes: u64,
    pub overhead_sent_bytes: u64,
    pub guard_fp: Option<Seq<char>>,
    pub possibly_destroyed_at: Option<u64>,
}

impl View for BwCircuitStat {
    type V = CircuitView;

    open spec fn view(&self) -> CircuitView {
        CircuitView {
            circ_id: self.circ_id@,
            is_hs: self.is_hs,
            is_service: self.is_service,
            is_hsdir: self.is_hsdir,
            is_serv_intro: self.is_serv_intro,
            dropped_cells_allowed: self.dropped_cells_allowed,
            purpose: opt_view(self.purpose),
            hs_state: opt_view(self.hs_state),
            old_purpose: opt_view(self.old_purpose),
            old_hs_state: opt_view(self.old_hs_state),
            in_use: self.in_use,
            built: self.built,
            created_at: self.created_at,
            read_bytes: self.read_bytes,
            sent_bytes: self.sent_bytes,
            delivered_read_bytes: self.delivered_read_bytes,
            delivered_sent_bytes: self.delivered_sent_bytes,
            overhead_read_bytes: self.overhead_read_bytes,
            overhead_sent_bytes: self.overhead_sent_bytes,
            guard_fp: opt_view(self.guard_fp),
            possibly_destroyed_at: self.possibly_destroyed_at,
        }
    }
}

impl CircuitView {
    /// A circuit first seen at `now`, with nothing counted yet.
    pub open spec fn fresh(circ_id: Seq<char>, is_hs: bool, now: u64) -> CircuitView {
        CircuitView {
            circ_id,
            is_hs,
            is_service: true,
            is_hsdir: false,
            is_serv_intro: false,
            dropped_cells_allowed: 0,
            purpose: None,
            hs_state: None,
            old_purpose: None,
            old_hs_state: None,
            in_use: false,
            built: false,
            created_at: now,
            read_bytes: 0,
            sent_bytes: 0,
            delivered_read_bytes: 0,
            delivered_sent_bytes: 0,
            overhead_read_bytes: 0,
            overhead_sent_bytes: 0,
            guard_fp: None,
            possibly_destroyed_at: None,
        }
    }

    /// Bytes read and sent together.
    pub open spec fn total_bytes(self) -> int {
        self.read_bytes + self.sent_bytes
    }

    /// Cells that were read but neither delivered nor accounted as overhead:
    /// whole cells received minus whole relay payloads accounted for. The
    /// number is negative while less has been read than accounted for.
    pub open spec fn dropped_read_cells(self) -> int {
        self.read_bytes as int / 509 - (self.delivered_read_bytes + self.overhead_read_bytes)
            / 498
    }

    /// Whole seconds from the circuit's creation to `now`; 0 where `now`
    /// lies before the creation.
    pub open spec fn age_secs(self, now: u64) -> int {
        if now >= self.created_at {
            (now - self.created_at) / 1000
        } else {
            0
        }
    }
}

impl BwCircuitStat {
    /// A circuit first seen at `now`, with nothing counted yet.
    pub fn new_at(circ_id: String, is_hs: bool, now: u64) -> (r: Self)
        ensures
            r@ == CircuitView::fresh(circ_id@, is_hs, now),
    {
        BwCircuitStat {
            circ_id,
            is_hs,
            is_service: true,
            is_hsdir: false,
            is_serv_intro: false,
            dropped_cells_allowed: 0,
            purpose: None,
            hs_state: None,
            old_purpose: None,
            old_hs_state: None,
            in_use: false,
            built: false,
            created_at: now,
            read_bytes: 0,
            sent_bytes: 0,
            delivered_read_bytes: 0,
            delivered_sent_bytes: 0,
            overhead_read_bytes: 0,
            overhead_sent_bytes: 0,
            guard_fp: None,
            possibly_destroyed_at: None,
        }
    }

    /// A circuit first seen now, by the system clock.
    pub fn new(circ_id: String, is_hs: bool) -> (r: Self)
        ensures
            r@ == CircuitView::fresh(circ_id@, is_hs, r.created_at),
    {
        let now = now_millis();
        BwCircuitStat::new_at(circ_id, is_hs, now)
    }

    /// Bytes read and sent together.
    pub fn total_bytes(&self) -> (r: u128)
        ensures
            r == self@.total_bytes(),
    {
        self.read_bytes as u128 + self.sent_bytes as u128
    }

    /// Cells that were read but neither delivered nor accounted as overhead.
    pub fn dropped_read_cells(&self) -> (r: i64)
        ensures
            r == self@.dropped_read_cells(),
    {
        let cells_received: u64 = self.read_bytes / CELL_PAYLOAD_SIZE;
        let accounted: u128 = self.delivered_read_bytes as u128 + self.overhead_read_bytes as u128;
        let cells_delivered: u128 = accounted / (RELAY_PAYLOAD_SIZE as u128);
        assert(RELAY_PAYLOAD_SIZE == 498 && CELL_PAYLOAD_SIZE == 509);
        assert(cells_received <= 0xffff_ffff_ffff_ffffu64 / 509);
        assert(cells_delivered <= 74083309532970086u128) by (nonlinear_arith)
            requires
                cells_delivered == accounted / 498,
                accounted <= 36893488147419103230u128,
        ;
        cells_received as i64 - cells_delivered as i64
    }

    /// Whole seconds from the circuit's creation to `now`.
    pub fn age_secs_at(&self, now: u64) -> (r: u64)
        ensures
            r == self@.age_secs(now),
    {
        if now >= self.created_at {
            (now - self.created_at) / 1000
        } else {
            0
        }
    }

    /// Whole seconds from the circuit's creation to now, by the system clock.
    pub fn age_secs(&self) -> (r: u64)
        ensures
            exists|now: u64| r == self@.age_secs(now),
    {
        let now = now_millis();
        self.age_secs_at(now)
    }

    /// Whole hours from the circuit's creation to `now`.
    pub fn age_hours_at(&self, now: u64) -> (r: u64)
        ensures
            r == self@.age_secs(now) / 3600,
    {
        self.age_secs_at(now) / 3600
    }

    /// Whole hours from the circuit's creation to now, by the system clock.
    pub fn age_hours(&self) -> (r: u64)
        ensures
            exists|now: u64| r == self@.age_secs(now) / 3600,
    {
        let now = now_millis();
        self.age_hours_at(now)
    }
}

/// What is known of one guard, or of one connection to it.
#[derive(Debug, Clone)]
pub struct BwGuardStat {
    /// Fingerprint of the guard.
    pub to_guard: String,
    /// Connections whose end took live circuits with it.
    pub killed_conns: u32,
    /// When a connection last ended under live circuits; 0 when none is
    /// pending.
    pub killed_conn_at: u64,
    /// Whether the end of a connection awaits its circuits' ends.
    pub killed_conn_pending: bool,
    /// Connections made.
    pub conns_made: u32,
    /// How often each reason for closing was given.
    pub close_reasons: StrMap<u32>,
}

/// The mathematical content of a [`BwGuardStat`].
pub ghost struct GuardView {
    pub to_guard: Seq<char>,
    pub killed_conns: u32,
    pub killed_conn_at: u64,
    pub killed_conn_pending: bool,
    pub conns_made: u32,
    pub close_reasons: Map<Seq<char>, u32>,
}

impl View for BwGuardStat {
    type V = GuardView;

    open spec fn view(&self) -> GuardView {
        GuardView {
            to_guard: self.to_guard@,
            killed_conns: self.killed_conns,
            killed_conn_at: self.killed_conn_at,
            killed_conn_pending: self.killed_conn_pending,
            conns_made: self.conns_made,
            close_reasons: self.close_reasons@,
        }
    }
}

impl GuardView {
    /// A guard of which nothing has been counted yet.
    pub open spec fn fresh(guard_fp: Seq<char>) -> GuardView {
        GuardView {
            to_guard: guard_fp,
            killed_conns: 0,
            killed_conn_at: 0,
            killed_conn_pending: false,
            conns_made: 0,
            close_reasons: Map::empty(),
        }
    }

    /// How often `reason` has been given.
    pub open spec fn reason_count(self, reason: Seq<char>) -> u32 {
        if self.close_reasons.contains_key(reason) {
            self.close_reasons[reason]
        } else {
            0
        }
    }

    /// The guard after `reason` was given once more.
    pub open spec fn with_reason(self, reason: Seq<char>) -> GuardView {
        GuardView {
            close_reasons: self.close_reasons.insert(
                reason,
                (self.reason_count(reason) + 1) as u32,
            ),
            ..self
        }
    }
}

impl BwGuardStat {
    /// A guard of which nothing has been counted yet.
    pub fn new(guard_fp: String) -> (r: Self)
        ensures
            r@ == GuardView::fresh(guard_fp@),
    {
        BwGuardStat {
            to_guard: guard_fp,
            killed_conns: 0,
            killed_conn_at: 0,
            killed_conn_pending: false,
            conns_made: 0,
            close_reasons: StrMap::new(),
        }
    }

    /// Counts one more connection closed for `reason`.
    pub fn record_close_reason(&mut self, reason: &str)
        requires
            old(self)@.reason_count(reason@) < u32::MAX,
        ensures
            final(self)@ == old(self)@.with_reason(reason@),
    {
        let count: u32 = match self.close_reasons.get(reason) {
            Some(c) => *c,
            None => 0,
        };
        self.close_reasons.insert(String::from_str(reason), count + 1);
    }
}

/// The six byte counts that one bandwidth event reports for a circuit.
#[derive(Debug, Clone, Copy, PartialEq, Eq)]
pub struct BwDeltas {
    pub read: u64,
    pub written: u64,
    pub delivered_read: u64,
    pub delivered_written: u64,
    pub overhead_read: u64,
    pub overhead_written: u64,
}

impl CircuitView {
    /// Whether each counter can take its part of `d` without leaving `u64`.
    pub open spec fn has_room(self, d: BwDeltas) -> bool {
        &&& self.read_bytes + d.read <= u64::MAX
        &&& self.sent_bytes + d.written <= u64::MAX
        &&& self.delivered_read_bytes + d.delivered_read <= u64::MAX
        &&& self.delivered_sent_bytes + d.delivered_written <= u64::MAX
        &&& self.overhead_read_bytes + d.overhead_read <= u64::MAX
        &&& self.overhead_sent_bytes + d.overhead_written <= u64::MAX
    }

    /// The circuit after each counter took its part of `d`.
    pub open spec fn plus(self, d: BwDeltas) -> CircuitView {
        CircuitView {
            read_bytes: (self.read_bytes + d.read) as u64,
            sent_bytes: (self.sent_bytes + d.written) as u64,
            delivered_read_bytes: (self.delivered_read_bytes + d.delivered_read) as u64,
            delivered_sent_bytes: (self.delivered_sent_bytes + d.delivered_written) as u64,
            overhead_read_bytes: (self.overhead_read_bytes + d.overhead_read) as u64,
            overhead_sent_bytes: (self.overhead_sent_bytes + d.overhead_written) as u64,
            ..self
        }
    }

    /// The daemon bug, if any, that is known to drop cells on a circuit in
    /// this state.
    pub open spec fn known_bug(self) -> Option<Seq<char>> {
        let purpose = match self.purpose {
            Some(p) => p,
            None => Seq::empty(),
        };
        let hs_state = match self.hs_state {
            Some(p) => p,
            None => Seq::empty(),
        };
        let old_purpose = match self.old_purpose {
            Some(p) => p,
            None => Seq::empty(),
        };
        let old_hs_state = match self.old_hs_state {
            Some(p) => p,
            None => Seq::empty(),
        };
        if purpose == "HS_SERVICE_INTRO"@ && hs_state == "HSSI_ESTABLISHED"@ {
            Some("#29699"@)
        } else if purpose == "CIRCUIT_PADDING"@ && old_purpose == "HS_CLIENT_INTRO"@ && old_hs_state
            == "HSCI_INTRO_SENT"@ {
            Some("#40359"@)
        } else if purpose == "HS_CLIENT_REND"@ || (purpose == "HS_CLIENT_INTRO"@ && hs_state
            == "HSCI_DONE"@) {
            Some("#29927"@)
        } else if purpose == "HS_SERVICE_REND"@ && hs_state == "HSSR_CONNECTING"@ {
            Some("#29700"@)
        } else if purpose == "PATH_BIAS_TESTING"@ {
            Some("#29786"@)
        } else {
            None
        }
    }

    /// The verdict on the circuit under the limits of `config`: the first of
    /// the checks that triggers, in the order dropped cells, total bytes,
    /// directory bytes, introduction bytes.
    pub open spec fn limit_verdict(self, config: BandguardsConfig) -> LimitView {
        let dropped = self.dropped_read_cells();
        let total = self.total_bytes();
        if dropped > self.dropped_cells_allowed && self.known_bug() is Some {
            LimitView::TorBug { bug_id: self.known_bug()->0, dropped_cells: dropped }
        } else if dropped > self.dropped_cells_allowed && self.built {
            LimitView::DroppedCells { dropped_cells: dropped }
        } else if config.circ_max_megabytes > 0 && total > config.circ_max_megabytes * 1048576 {
            LimitView::MaxBytesExceeded { bytes: total, limit: config.circ_max_megabytes * 1048576 }
        } else if config.circ_max_hsdesc_kilobytes > 0 && self.is_hsdir && total
            > config.circ_max_hsdesc_kilobytes * 1024 {
            LimitView::HsdirBytesExceeded {
                bytes: total,
                limit: config.circ_max_hsdesc_kilobytes * 1024,
            }
        } else if config.circ_max_serv_intro_kilobytes > 0 && self.is_serv_intro && total
            > config.circ_max_serv_intro_kilobytes * 1024 {
            LimitView::ServIntroBytesExceeded {
                bytes: total,
                limit: config.circ_max_serv_intro_kilobytes * 1024,
            }
        } else {
            LimitView::Okay
        }
    }
}

/// Verdict on one circuit.
#[derive(Debug, Clone, PartialEq)]
pub enum CircuitLimitResult {
    /// Within all limits.
    Okay,
    /// More cells were dropped than tolerated, on a built circuit.
    DroppedCells { dropped_cells: i64 },
    /// More cells were dropped than tolerated, in a state in which a known
    /// bug of the daemon drops cells.
    TorBug { bug_id: &'static str, dropped_cells: i64 },
    /// More bytes than any circuit may carry.
    MaxBytesExceeded { bytes: u128, limit: u128 },
    /// More bytes than a directory circuit may carry.
    HsdirBytesExceeded { bytes: u128, limit: u128 },
    /// More bytes than a service introduction circuit may carry.
    ServIntroBytesExceeded { bytes: u128, limit: u128 },
}

/// The mathematical content of a [`CircuitLimitResult`].
pub ghost enum LimitView {
    Okay,
    DroppedCells { dropped_cells: int },
    TorBug { bug_id: Seq<char>, dropped_cells: int },
    MaxBytesExceeded { bytes: int, limit: int },
    HsdirBytesExceeded { bytes: int, limit: int },
    ServIntroBytesExceeded { bytes: int, limit: int },
}

impl View for CircuitLimitResult {
    type V = LimitView;

    open spec fn view(&self) -> LimitView {
        match *self {
            CircuitLimitResult::Okay => LimitView::Okay,
            CircuitLimitResult::DroppedCells { dropped_cells } => LimitView::DroppedCells {
                dropped_cells: dropped_cells as int,
            },
            CircuitLimitResult::TorBug { bug_id, dropped_cells } => LimitView::TorBug {
                bug_id: bug_id@,
                dropped_cells: dropped_cells as int,
            },
            CircuitLimitResult::MaxBytesExceeded { bytes, limit } => LimitView::MaxBytesExceeded {
                bytes: bytes as int,
                limit: limit as int,
            },
            CircuitLimitResult::HsdirBytesExceeded {
                bytes,
                limit,
            } => LimitView::HsdirBytesExceeded { bytes: bytes as int, limit: limit as int },
            CircuitLimitResult::ServIntroBytesExceeded {
                bytes,
                limit,
            } => LimitView::ServIntroBytesExceeded { bytes: bytes as int, limit: limit as int },
        }
    }
}

impl LimitView {
    /// Whether the verdict calls for the circuit to be closed: a limit is
    /// broken, and not because of a known bug of the daemon.
    pub open spec fn calls_for_close(self) -> bool {
        !(self is Okay) && !(self is TorBug)
    }
}

impl CircuitLimitResult {
    /// Whether the verdict calls for the circuit to be closed.
    pub fn calls_for_close(&self) -> (r: bool)
        ensures
            r == self@.calls_for_close(),
    {
        match self {
            CircuitLimitResult::Okay => false,
            CircuitLimitResult::TorBug { .. } => false,
            _ => true,
        }
    }
}

/// Verdict on the connectivity of the daemon.
#[derive(Debug, Clone, PartialEq)]
pub enum ConnectivityStatus {
    /// Nothing to report.
    Connected,
    /// No guard connection for `secs` seconds.
    NoConnections { secs: u32 },
    /// No working circuit for `secs` seconds while circuits are pending;
    /// `network_down_secs` is the time since the daemon reported the network
    /// down, if it did.
    CircuitsFailing { secs: u32, network_down_secs: Option<u32> },
}

impl BwCircuitStat {
    /// The daemon bug, if any, that is known to drop cells on a circuit in
    /// this state.
    pub fn check_tor_bug_workaround(&self) -> (r: Option<&'static str>)
        ensures
            match r {
                Some(id) => self@.known_bug() == Some(id@),
                None => self@.known_bug() is None,
            },
    {
        proof {
            reveal_strlit("");
            assert(""@ =~= Seq::<char>::empty());
        }
        let purpose: &str = match &self.purpose {
            Some(p) => p.as_str(),
            None => "",
        };
        let hs_state: &str = match &self.hs_state {
            Some(p) => p.as_str(),
            None => "",
        };
        let old_purpose: &str = match &self.old_purpose {
            Some(p) => p.as_str(),
            None => "",
        };
        let old_hs_state: &str = match &self.old_hs_state {
            Some(p) => p.as_str(),
            None => "",
        };
        if purpose.eq("HS_SERVICE_INTRO") && hs_state.eq("HSSI_ESTABLISHED") {
            Some("#29699")
        } else if purpose.eq("CIRCUIT_PADDING") && old_purpose.eq("HS_CLIENT_INTRO")
            && old_hs_state.eq("HSCI_INTRO_SENT") {
            Some("#40359")
        } else if purpose.eq("HS_CLIENT_REND") || (purpose.eq("HS_CLIENT_INTRO") && hs_state.eq(
            "HSCI_DONE",
        )) {
            Some("#29927")
        } else if purpose.eq("HS_SERVICE_REND") && hs_state.eq("HSSR_CONNECTING") {
            Some("#29700")
        } else if purpose.eq("PATH_BIAS_TESTING") {
            Some("#29786")
        } else {
            None
        }
    }

    /// The verdict on the circuit under the limits of `config`.
    pub fn check_limits(&self, config: &BandguardsConfig) -> (r: CircuitLimitResult)
        ensures
            r@ == self@.limit_verdict(*config),
    {
        let dropped = self.dropped_read_cells();
        if dropped > 0 && dropped as u64 > self.dropped_cells_allowed {
            if let Some(bug_id) = self.check_tor_bug_workaround() {
                return CircuitLimitResult::TorBug { bug_id, dropped_cells: dropped };
            }
            if self.built {
                return CircuitLimitResult::DroppedCells { dropped_cells: dropped };
            }
        }
        let total = self.total_bytes();
        let max_bytes: u128 = config.circ_max_megabytes as u128 * 1048576;
        if config.circ_max_megabytes > 0 && total > max_bytes {
            return CircuitLimitResult::MaxBytesExceeded { bytes: total, limit: max_bytes };
        }
        let hsdir_bytes: u128 = config.circ_max_hsdesc_kilobytes as u128 * 1024;
        if config.circ_max_hsdesc_kilobytes > 0 && self.is_hsdir && total > hsdir_bytes {
            return CircuitLimitResult::HsdirBytesExceeded { bytes: total, limit: hsdir_bytes };
        }
        let intro_bytes: u128 = config.circ_max_serv_intro_kilobytes as u128 * 1024;
        if config.circ_max_serv_intro_kilobytes > 0 && self.is_serv_intro && total > intro_bytes {
            return CircuitLimitResult::ServIntroBytesExceeded { bytes: total, limit: intro_bytes };
        }
        CircuitLimitResult::Okay
    }
}

impl CircuitView {
    /// The circuit with its purpose and onion-service state set and its
    /// classification derived from them: it serves an onion service where
    /// it has a state or its purpose starts with `HS`, and is on the
    /// service side where its purpose starts with `HS_SERVICE`.
    pub open spec fn reclassified(
        self,
        purpose: Seq<char>,
        hs_state: Option<Seq<char>>,
    ) -> CircuitView {
        CircuitView {
            purpose: Some(purpose),
            hs_state,
            is_hs: hs_state is Some || "HS"@.is_prefix_of(purpose),
            is_service: "HS_SERVICE"@.is_prefix_of(purpose),
            is_hsdir: purpose == "HS_CLIENT_HSDIR"@ || purpose == "HS_SERVICE_HSDIR"@,
            is_serv_intro: purpose == "HS_SERVICE_INTRO"@,
            ..self
        }
    }

    /// Whether the end of the circuit at `at`, for `reason`, is blamed on the
    /// end of its guard connection: the circuit was in use, its guard
    /// connection closed at most two seconds before, and the daemon names
    /// the closed channel as the reason.
    pub open spec fn destroyed_by_guard(self, reason: Option<Seq<char>>, at: u64) -> bool {
        &&& self.in_use
        &&& self.possibly_destroyed_at is Some
        &&& at - self.possibly_destroyed_at->0 <= MAX_CIRC_DESTROY_LAG_SECS * 1000
        &&& reason == Some("CHANNEL_CLOSED"@)
    }

    /// The circuit after it was built for `purpose` over a path that starts
    /// at `first_hop`: built, and, for an onion-service purpose, in use,
    /// with the first hop as its guard.
    pub open spec fn built_for(self, purpose: Seq<char>, first_hop: Option<Seq<char>>) -> CircuitView {
        let hs_use = "HS_CLIENT"@.is_prefix_of(purpose) || "HS_SERVICE"@.is_prefix_of(purpose);
        CircuitView {
            built: true,
            in_use: self.in_use || hs_use,
            guard_fp: if hs_use && first_hop is Some {
                first_hop
            } else {
                self.guard_fp
            },
            ..self
        }
    }

    /// The circuit after a change of purpose was reported for it.
    pub open spec fn purpose_changed(
        self,
        event_type: Seq<char>,
        purpose: Seq<char>,
        hs_state: Option<Seq<char>>,
        old_purpose: Option<Seq<char>>,
        old_hs_state: Option<Seq<char>>,
        first_hop: Option<Seq<char>>,
    ) -> CircuitView {
        let c = CircuitView { old_purpose, old_hs_state, ..self.reclassified(purpose, hs_state) };
        if event_type == "PURPOSE_CHANGED"@ && old_purpose == Some("HS_VANGUARDS"@) {
            CircuitView {
                in_use: true,
                guard_fp: if first_hop is Some {
                    first_hop
                } else {
                    c.guard_fp
                },
                ..c
            }
        } else {
            c
        }
    }

    /// Whether the circuit is in use over the guard `guard_fp`.
    pub open spec fn uses_guard(self, guard_fp: Seq<char>) -> bool {
        self.in_use && self.guard_fp == Some(guard_fp)
    }

    /// The circuit after the connection to `guard_fp` closed at `at`: marked
    /// as possibly destroyed where it is in use over that guard.
    pub open spec fn guard_closed(self, guard_fp: Seq<char>, at: u64) -> CircuitView {
        if self.uses_guard(guard_fp) {
            CircuitView { possibly_destroyed_at: Some(at), ..self }
        } else {
            self
        }
    }
}

/// Whether the map is empty.
pub open spec fn no_entries(m: Map<Seq<char>, GuardView>) -> bool {
    forall|k: Seq<char>| !m.contains_key(k)
}

/// The first hop of a path, if it has one.
pub open spec fn first_hop(path: Seq<String>) -> Option<Seq<char>> {
    if path.len() > 0 {
        Some(path[0]@)
    } else {
        None
    }
}

/// Whether `status` reports the end of a circuit or connection.
pub open spec fn is_end(status: Seq<char>) -> bool {
    status == "FAILED"@ || status == "CLOSED"@
}

/// Everything the bandwidth monitor knows.
#[derive(Debug, Clone)]
pub struct BandwidthStats {
    /// The open circuits, by id.
    pub circs: StrMap<BwCircuitStat>,
    /// The live guard connections, by connection id.
    pub live_guard_conns: StrMap<BwGuardStat>,
    /// Totals per guard, by fingerprint.
    pub guards: StrMap<BwGuardStat>,
    /// Circuits whose end was blamed on the end of their guard connection.
    pub circs_destroyed_total: u64,
    /// Since when there is no guard connection, if there is none.
    pub no_conns_since: Option<u64>,
    /// Since when no circuit works, if none does.
    pub no_circs_since: Option<u64>,
    /// Since when the daemon reports the network down, if it does.
    pub network_down_since: Option<u64>,
    /// Greatest connection id that the initial batch of connection reports
    /// may have made up.
    pub max_fake_id: i32,
    /// Whether failing circuits have been reported.
    pub disconnected_circs: bool,
    /// Whether missing connections have been reported.
    pub disconnected_conns: bool,
}

/// The mathematical content of a [`BandwidthStats`].
pub ghost struct StatsView {
    pub circs: Map<Seq<char>, CircuitView>,
    pub live_guard_conns: Map<Seq<char>, GuardView>,
    pub guards: Map<Seq<char>, GuardView>,
    pub circs_destroyed_total: u64,
    pub no_conns_since: Option<u64>,
    pub no_circs_since: Option<u64>,
    pub network_down_since: Option<u64>,
    pub max_fake_id: i32,
    pub disconnected_circs: bool,
    pub disconnected_conns: bool,
}

impl View for BandwidthStats {
    type V = StatsView;

    open spec fn view(&self) -> StatsView {
        StatsView {
            circs: self.circs@.map_values(|c: BwCircuitStat| c@),
            live_guard_conns: self.live_guard_conns@.map_values(|g: BwGuardStat| g@),
            guards: self.guards@.map_values(|g: BwGuardStat| g@),
            circs_destroyed_total: self.circs_destroyed_total,
            no_conns_since: self.no_conns_since,
            no_circs_since: self.no_circs_since,
            network_down_since: self.network_down_since,
            max_fake_id: self.max_fake_id,
            disconnected_circs: self.disconnected_circs,
            disconnected_conns: self.disconnected_conns,
        }
    }
}

/// Whole seconds from `since` to `now`, at least 0 and at most `u32::MAX`.
pub open spec fn secs_between(since: u64, now: u64) -> u32 {
    if now <= since {
        0
    } else if (now - since) / 1000 > u32::MAX {
        u32::MAX
    } else {
        ((now - since) / 1000) as u32
    }
}

/// Whole seconds from `since` to `now`, at least 0 and at most `u32::MAX`.
pub fn elapsed_secs(since: u64, now: u64) -> (r: u32)
    ensures
        r == secs_between(since, now),
{
    if now <= since {
        0
    } else {
        let secs: u64 = (now - since) / 1000;
        if secs > 0xffff_ffff {
            0xffff_ffff
        } else {
            secs as u32
        }
    }
}

impl StatsView {
    /// The monitor at its start at `now`: nothing tracked, and no guard
    /// connection since `now`.
    pub open spec fn fresh(now: u64) -> StatsView {
        StatsView {
            circs: Map::empty(),
            live_guard_conns: Map::empty(),
            guards: Map::empty(),
            circs_destroyed_total: 0,
            no_conns_since: Some(now),
            no_circs_since: None,
            network_down_since: None,
            max_fake_id: -1i32,
            disconnected_circs: false,
            disconnected_conns: false,
        }
    }

    /// Whether a circuit other than `except` has not been built yet.
    pub open spec fn any_pending(self, except: Option<Seq<char>>) -> bool {
        exists|k: Seq<char>| #[trigger]
            self.circs.contains_key(k) && !self.circs[k].built && Some(k) != except
    }

    /// The monitor after a bandwidth event for circuit `id`: circuits count
    /// as working again, and the circuit, if it is tracked, has `d` added to
    /// its counters.
    pub open spec fn circbw(self, id: Seq<char>, d: BwDeltas) -> StatsView {
        StatsView {
            disconnected_circs: false,
            no_circs_since: None,
            circs: if self.circs.contains_key(id) {
                self.circs.insert(id, self.circs[id].plus(d))
            } else {
                self.circs
            },
            ..self
        }
    }

    /// Whether the counters of circuit `id` can take `d`.
    pub open spec fn circbw_fits(self, id: Seq<char>, d: BwDeltas) -> bool {
        self.circs.contains_key(id) ==> self.circs[id].has_room(d)
    }

    /// The monitor after the daemon reported the network `status` at `at`.
    pub open spec fn liveness(self, status: Seq<char>, at: u64) -> StatsView {
        if status == "UP"@ {
            StatsView { network_down_since: None, ..self }
        } else if status == "DOWN"@ {
            StatsView { network_down_since: Some(at), ..self }
        } else {
            self
        }
    }

    /// The verdict on connectivity at `now`, and the monitor after it was
    /// given. Missing connections are reported once the time without any
    /// reaches the limit, and then again at each multiple of the limit.
    /// While a connection is live, failing circuits are reported in the same
    /// way, provided that a circuit is still being built.
    pub open spec fn connectivity(self, now: u64, config: BandguardsConfig) -> (
        ConnectivityStatus,
        StatsView,
    ) {
        match self.no_conns_since {
            Some(since) => {
                let secs = secs_between(since, now);
                let limit = config.conn_max_disconnected_secs;
                if limit > 0 && secs >= limit && (!self.disconnected_conns || secs % limit == 0) {
                    (
                        ConnectivityStatus::NoConnections { secs },
                        StatsView { disconnected_conns: true, ..self },
                    )
                } else {
                    (ConnectivityStatus::Connected, self)
                }
            },
            None => match self.no_circs_since {
                Some(since) => {
                    let secs = secs_between(since, now);
                    let limit = config.circ_max_disconnected_secs;
                    if limit > 0 && secs >= limit && self.any_pending(None) && (
                    !self.disconnected_circs || secs % limit == 0) {
                        (
                            ConnectivityStatus::CircuitsFailing {
                                secs,
                                network_down_secs: match self.network_down_since {
                                    Some(t) => Some(secs_between(t, now)),
                                    None => None,
                                },
                            },
                            StatsView { disconnected_circs: true, ..self },
                        )
                    } else {
                        (ConnectivityStatus::Connected, self)
                    }
                },
                None => (ConnectivityStatus::Connected, self),
            },
        }
    }
}

impl StatsView {
    /// The monitor after a change of purpose was reported for circuit `id`;
    /// unchanged where the circuit is not tracked.
    pub open spec fn circ_minor(
        self,
        id: Seq<char>,
        event_type: Seq<char>,
        purpose: Seq<char>,
        hs_state: Option<Seq<char>>,
        old_purpose: Option<Seq<char>>,
        old_hs_state: Option<Seq<char>>,
        first_hop: Option<Seq<char>>,
    ) -> StatsView {
        if self.circs.contains_key(id) {
            StatsView {
                circs: self.circs.insert(
                    id,
                    self.circs[id].purpose_changed(
                        event_type,
                        purpose,
                        hs_state,
                        old_purpose,
                        old_hs_state,
                        first_hop,
                    ),
                ),
                ..self
            }
        } else {
            self
        }
    }

    /// The monitor after a failure of circuit `id` at `at` was noted: where
    /// no circuit was known to fail before and another circuit is still
    /// being built, circuits fail since `at`.
    pub open spec fn failure_noted(self, id: Seq<char>, status: Seq<char>, at: u64) -> StatsView {
        if status == "FAILED"@ && self.no_circs_since is None && self.any_pending(Some(id)) {
            StatsView { no_circs_since: Some(at), ..self }
        } else {
            self
        }
    }

    /// Whether the counters that the end of circuit `id` would raise have
    /// room for it.
    pub open spec fn circ_event_fits(
        self,
        id: Seq<char>,
        status: Seq<char>,
        reason: Option<Seq<char>>,
        at: u64,
    ) -> bool {
        is_end(status) && self.circs.contains_key(id) && self.circs[id].destroyed_by_guard(
            reason,
            at,
        ) ==> {
            &&& self.circs_destroyed_total < u64::MAX
            &&& (self.circs[id].guard_fp is Some && self.guards.contains_key(
                self.circs[id].guard_fp->0,
            ) ==> self.guards[self.circs[id].guard_fp->0].killed_conns < u32::MAX)
        }
    }

    /// The monitor after a circuit event, and what the event says of the
    /// circuit's end: `Some(true)` where a tracked circuit ended with its
    /// guard connection, `Some(false)` where it ended otherwise, `None`
    /// where nothing tracked ended.
    ///
    /// An ending circuit is forgotten. Any other event makes the circuit
    /// known, creating it as of `now` if need be, and updates its purpose,
    /// state and classification; `BUILT` and `GUARD_WAIT` mark it built, and
    /// they and `EXTENDED` show that circuits work.
    pub open spec fn circ_event(
        self,
        id: Seq<char>,
        status: Seq<char>,
        purpose: Seq<char>,
        hs_state: Option<Seq<char>>,
        first_hop: Option<Seq<char>>,
        reason: Option<Seq<char>>,
        at: u64,
        now: u64,
    ) -> (Option<bool>, StatsView) {
        let s1 = self.failure_noted(id, status, at);
        if is_end(status) {
            if !s1.circs.contains_key(id) {
                (None, s1)
            } else {
                let c = s1.circs[id];
                let s2 = StatsView { circs: s1.circs.remove(id), ..s1 };
                if c.destroyed_by_guard(reason, at) {
                    (
                        Some(true),
                        StatsView {
                            circs_destroyed_total: (s2.circs_destroyed_total + 1) as u64,
                            guards: if c.guard_fp is Some && s2.guards.contains_key(c.guard_fp->0) {
                                s2.guards.insert(
                                    c.guard_fp->0,
                                    GuardView {
                                        killed_conn_at: 0,
                                        killed_conns: (s2.guards[c.guard_fp->0].killed_conns
                                            + 1) as u32,
                                        ..s2.guards[c.guard_fp->0]
                                    },
                                )
                            } else {
                                s2.guards
                            },
                            ..s2
                        },
                    )
                } else {
                    (Some(false), s2)
                }
            }
        } else {
            let base = if s1.circs.contains_key(id) {
                s1.circs[id]
            } else {
                CircuitView::fresh(id, hs_state is Some || "HS"@.is_prefix_of(purpose), now)
            };
            let c1 = base.reclassified(purpose, hs_state);
            let built_now = status == "BUILT"@ || status == "GUARD_WAIT"@;
            let c2 = if built_now {
                c1.built_for(purpose, first_hop)
            } else {
                c1
            };
            let working = built_now || status == "EXTENDED"@;
            (
                None,
                StatsView {
                    circs: s1.circs.insert(id, c2),
                    disconnected_circs: s1.disconnected_circs && !working,
                    no_circs_since: if working {
                        None
                    } else {
                        s1.no_circs_since
                    },
                    ..s1
                },
            )
        }
    }

    /// The guard totals with an entry for `guard_fp`.
    pub open spec fn guards_with(self, guard_fp: Seq<char>) -> Map<Seq<char>, GuardView> {
        if self.guards.contains_key(guard_fp) {
            self.guards
        } else {
            self.guards.insert(guard_fp, GuardView::fresh(guard_fp))
        }
    }

    /// Whether a tracked circuit is in use over the guard `guard_fp`.
    pub open spec fn any_uses_guard(self, guard_fp: Seq<char>) -> bool {
        exists|k: Seq<char>| #[trigger]
            self.circs.contains_key(k) && self.circs[k].uses_guard(guard_fp)
    }

    /// Whether the counters that a connection event would raise have room
    /// for it.
    pub open spec fn orconn_fits(
        self,
        guard_fp: Seq<char>,
        status: Seq<char>,
        reason: Option<Seq<char>>,
    ) -> bool {
        &&& status == "CONNECTED"@ ==> self.guards_with(guard_fp)[guard_fp].conns_made
            < u32::MAX
        &&& status == "CLOSED"@ && reason is Some ==> self.guards_with(
            guard_fp,
        )[guard_fp].reason_count(reason->0) < u32::MAX
    }

    /// The monitor after a connection event for guard `guard_fp`.
    ///
    /// The guard gets an entry in the totals. `CONNECTED` makes `conn_id` a
    /// live connection, counts it for the guard and ends any time without
    /// connections. `CLOSED` and `FAILED` speak of the live connection
    /// `actual_id`: where it is live, every circuit in use over the guard is
    /// marked as possibly destroyed at `at`, the connection is forgotten,
    /// and where it was the last, the time without connections starts at
    /// `at`. `CLOSED` also counts its reason for the guard.
    pub open spec fn orconn(
        self,
        conn_id: Seq<char>,
        actual_id: Seq<char>,
        guard_fp: Seq<char>,
        status: Seq<char>,
        reason: Option<Seq<char>>,
        at: u64,
    ) -> StatsView {
        let g0 = self.guards_with(guard_fp);
        if status == "CONNECTED"@ {
            StatsView {
                disconnected_conns: false,
                live_guard_conns: self.live_guard_conns.insert(conn_id, GuardView::fresh(guard_fp)),
                guards: g0.insert(
                    guard_fp,
                    GuardView { conns_made: (g0[guard_fp].conns_made + 1) as u32, ..g0[guard_fp] },
                ),
                no_conns_since: None,
                ..self
            }
        } else if is_end(status) {
            let matched = self.live_guard_conns.contains_key(actual_id);
            let circs1 = if matched {
                self.circs.map_values(|c: CircuitView| c.guard_closed(guard_fp, at))
            } else {
                self.circs
            };
            let g1 = if matched && self.any_uses_guard(guard_fp) {
                g0.insert(guard_fp, GuardView { killed_conn_at: at, ..g0[guard_fp] })
            } else {
                g0
            };
            let live1 = if matched {
                self.live_guard_conns.remove(actual_id)
            } else {
                self.live_guard_conns
            };
            let none_left = no_entries(live1);
            let g2 = if status == "CLOSED"@ && reason is Some {
                g1.insert(guard_fp, g1[guard_fp].with_reason(reason->0))
            } else {
                g1
            };
            StatsView {
                circs: circs1,
                guards: g2,
                live_guard_conns: live1,
                no_conns_since: if matched && none_left && self.no_conns_since is None {
                    Some(at)
                } else {
                    self.no_conns_since
                },
                ..self
            }
        } else {
            StatsView { guards: g0, ..self }
        }
    }
}

/// Whether the live connection `key` to `guard` is one that the initial
/// batch of reports made up for the guard `guard_fp`.
pub open spec fn is_fake_conn(key: Seq<char>, guard: GuardView, guard_fp: Seq<char>, max: i32) -> bool {
    guard.to_guard == guard_fp && crate::text::spec_parse_i32(key) is Some
        && crate::text::spec_parse_i32(key)->0 <= max
}

/// The position of the first made-up connection to `guard_fp` among the
/// live connections, or their number where there is none.
pub open spec fn first_fake_conn(
    keys: Seq<Seq<char>>,
    vals: Seq<BwGuardStat>,
    guard_fp: Seq<char>,
    max: i32,
) -> int
    decreases keys.len(),
{
    if keys.len() == 0 || vals.len() != keys.len() {
        0
    } else if is_fake_conn(keys[0], vals[0]@, guard_fp, max) {
        0
    } else {
        1 + first_fake_conn(keys.drop_first(), vals.drop_first(), guard_fp, max)
    }
}

impl CircuitView {
    /// Whether the circuit is older at `now` than `hours` hours.
    pub open spec fn older_than(self, now: u64, hours: u32) -> bool {
        now - self.created_at > hours * 3_600_000
    }
}

/// The ids, in order, of the circuits among `vals` that are older at `now`
/// than `hours` hours; `ids[i]` names `vals[i]`.
pub open spec fn aged_ids(
    ids: Seq<Seq<char>>,
    vals: Seq<BwCircuitStat>,
    now: u64,
    hours: u32,
) -> Seq<Seq<char>>
    decreases ids.len(),
{
    if ids.len() == 0 || vals.len() != ids.len() {
        Seq::empty()
    } else if vals.last()@.older_than(now, hours) {
        aged_ids(ids.drop_last(), vals.drop_last(), now, hours).push(ids.last())
    } else {
        aged_ids(ids.drop_last(), vals.drop_last(), now, hours)
    }
}

impl BandwidthStats {
    /// The monitor at its start at `now`.
    pub fn new_at(now: u64) -> (r: Self)
        ensures
            r@ == StatsView::fresh(now),
    {
        let r = BandwidthStats {
            circs: StrMap::new(),
            live_guard_conns: StrMap::new(),
            guards: StrMap::new(),
            circs_destroyed_total: 0,
            no_conns_since: Some(now),
            no_circs_since: None,
            network_down_since: None,
            max_fake_id: -1,
            disconnected_circs: false,
            disconnected_conns: false,
        };
        proof {
            assert(r@.circs =~= Map::empty());
            assert(r@.live_guard_conns =~= Map::empty());
            assert(r@.guards =~= Map::empty());
        }
        r
    }

    /// The monitor at its start now, by the system clock.
    pub fn new() -> (r: Self)
        ensures
            exists|now: u64| r@ == StatsView::fresh(now),
    {
        let now = now_millis();
        BandwidthStats::new_at(now)
    }

    /// Number of tracked circuits.
    pub fn circuit_count(&self) -> (n: usize)
        ensures
            n == self.circs.spec_len(),
    {
        self.circs.len()
    }

    /// Number of live guard connections.
    pub fn live_connection_count(&self) -> (n: usize)
        ensures
            n == self.live_guard_conns.spec_len(),
    {
        self.live_guard_conns.len()
    }

    /// Whether the counters of circuit `circ_id` can take the given byte
    /// counts without leaving `u64`.
    pub fn circbw_event_fits(&self, circ_id: &str, d: BwDeltas) -> (r: bool)
        ensures
            r == self@.circbw_fits(circ_id@, d),
    {
        match self.circs.get(circ_id) {
            Some(c) => {
                c.read_bytes <= u64::MAX - d.read && c.sent_bytes <= u64::MAX - d.written
                    && c.delivered_read_bytes <= u64::MAX - d.delivered_read
                    && c.delivered_sent_bytes <= u64::MAX - d.delivered_written
                    && c.overhead_read_bytes <= u64::MAX - d.overhead_read
                    && c.overhead_sent_bytes <= u64::MAX - d.overhead_written
            },
            None => true,
        }
    }

    /// Takes in a bandwidth event: circuits count as working again, and the
    /// circuit, if it is tracked, has the six byte counts added to its
    /// counters.
    pub fn circbw_event(
        &mut self,
        circ_id: &str,
        read: u64,
        written: u64,
        delivered_read: u64,
        delivered_written: u64,
        overhead_read: u64,
        overhead_written: u64,
        _arrived_at: u64,
    )
        requires
            old(self)@.circbw_fits(
                circ_id@,
                BwDeltas {
                    read,
                    written,
                    delivered_read,
                    delivered_written,
                    overhead_read,
                    overhead_written,
                },
            ),
        ensures
            final(self)@ == old(self)@.circbw(
                circ_id@,
                BwDeltas {
                    read,
                    written,
                    delivered_read,
                    delivered_written,
                    overhead_read,
                    overhead_written,
                },
            ),
    {
        let ghost d = BwDeltas {
            read,
            written,
            delivered_read,
            delivered_written,
            overhead_read,
            overhead_written,
        };
        let ghost before = *self;
        self.disconnected_circs = false;
        self.no_circs_since = None;
        match self.circs.position(circ_id) {
            Some(i) => {
                proof {
                    before.circs.lemma_contains(circ_id@);
                }
                let circ = self.circs.value_at_mut(i);
                circ.read_bytes += read;
                circ.sent_bytes += written;
                circ.delivered_read_bytes += delivered_read;
                circ.delivered_sent_bytes += delivered_written;
                circ.overhead_read_bytes += overhead_read;
                circ.overhead_sent_bytes += overhead_written;
                proof {
                    let v = self.circs.spec_values()[i as int];
                    before.circs.lemma_update_at(self.circs, i as int, v);
                    assert(v@ == before@.circs[circ_id@].plus(d));
                    assert(self@.circs =~= before@.circs.insert(circ_id@, v@));
                }
            },
            None => {
                proof {
                    assert(self@.circs =~= before@.circs);
                }
            },
        }
    }

    /// Takes in the daemon's report of the network being `UP` or `DOWN`.
    pub fn network_liveness_event(&mut self, status: &str, arrived_at: u64)
        ensures
            final(self)@ == old(self)@.liveness(status@, arrived_at),
    {
        if status.eq("UP") {
            self.network_down_since = None;
        } else if status.eq("DOWN") {
            self.network_down_since = Some(arrived_at);
        }
    }

    /// Whether a circuit other than `except_id` has not been built yet.
    pub fn any_circuits_pending(&self, except_id: Option<&str>) -> (r: bool)
        ensures
            r == self@.any_pending(opt_str_view(except_id)),
    {
        let n = self.circs.len();
        let mut i: usize = 0;
        while i < n
            invariant
                0 <= i <= n,
                n == self.circs.spec_len(),
                self.circs.wf(),
                forall|j: int|
                    0 <= j < i ==> !(!self.circs.spec_values()[j].built && Some(
                        self.circs.spec_keys()[j],
                    ) != opt_str_view(except_id)),
            decreases n - i,
        {
            let c = self.circs.value_at(i);
            let k = self.circs.key_at(i);
            let excepted = match except_id {
                Some(e) => k.as_str().eq(e),
                None => false,
            };
            if !c.built && !excepted {
                proof {
                    self.circs.lemma_index_of(i as int);
                    assert(self@.circs.contains_key(k@));
                }
                return true;
            }
            i += 1;
        }
        proof {
            assert forall|k: Seq<char>| #[trigger]
                self@.circs.contains_key(k) implies !(!self@.circs[k].built && Some(k)
                != opt_str_view(except_id)) by {
                self.circs.lemma_contains(k);
            }
        }
        false
    }

    /// The verdict on circuit `circ_id` under the limits of `config`; a
    /// circuit that is not tracked is within all limits.
    pub fn check_circuit_limits(&self, circ_id: &str, config: &BandguardsConfig) -> (r:
        CircuitLimitResult)
        ensures
            r@ == if self@.circs.contains_key(circ_id@) {
                self@.circs[circ_id@].limit_verdict(*config)
            } else {
                LimitView::Okay
            },
    {
        match self.circs.get(circ_id) {
            Some(c) => c.check_limits(config),
            None => CircuitLimitResult::Okay,
        }
    }

    /// The ids of the circuits that are older at `now` than the configured
    /// greatest age, in the order in which they are tracked. None where the
    /// configured age is 0.
    pub open spec fn spec_aged(self, config: BandguardsConfig, now: u64) -> Seq<Seq<char>> {
        if config.circ_max_age_hours == 0 {
            Seq::<Seq<char>>::empty()
        } else {
            aged_ids(
                self.circs.spec_keys(),
                self.circs.spec_values(),
                now,
                config.circ_max_age_hours,
            )
        }
    }

    /// The ids of the circuits that are older at `now` than the configured
    /// greatest age, in the order in which they are tracked.
    pub fn get_aged_circuits_at(&self, config: &BandguardsConfig, now: u64) -> (r: Vec<String>)
        ensures
            string_views(r@) == self.spec_aged(*config, now),
    {
        let mut out: Vec<String> = Vec::new();
        if config.circ_max_age_hours == 0 {
            assert(string_views(out@) =~= Seq::<Seq<char>>::empty());
            return out;
        }
        let hours = config.circ_max_age_hours;
        let limit: u64 = hours as u64 * 3_600_000;
        let n = self.circs.len();
        let mut i: usize = 0;
        assert(string_views(out@) =~= Seq::<Seq<char>>::empty());
        assert(self.circs.spec_keys().take(0) =~= Seq::<Seq<char>>::empty());
        while i < n
            invariant
                0 <= i <= n,
                n == self.circs.spec_len(),
                self.circs.wf(),
                limit == hours * 3_600_000,
                string_views(out@) == aged_ids(
                    self.circs.spec_keys().take(i as int),
                    self.circs.spec_values().take(i as int),
                    now,
                    hours,
                ),
            decreases n - i,
        {
            let c = self.circs.value_at(i);
            let ghost prev = string_views(out@);
            proof {
                let ks = self.circs.spec_keys().take(i + 1);
                let vs = self.circs.spec_values().take(i + 1);
                assert(ks.drop_last() =~= self.circs.spec_keys().take(i as int));
                assert(vs.drop_last() =~= self.circs.spec_values().take(i as int));
                assert(vs.last() == self.circs.spec_values()[i as int]);
                assert(ks.last() == self.circs.spec_keys()[i as int]);
            }
            if now > c.created_at && now - c.created_at > limit {
                out.push(self.circs.key_at(i).clone());
                proof {
                    assert(string_views(out@) =~= prev.push(self.circs.spec_keys()[i as int]));
                }
            }
            i += 1;
        }
        proof {
            assert(self.circs.spec_keys().take(n as int) =~= self.circs.spec_keys());
            assert(self.circs.spec_values().take(n as int) =~= self.circs.spec_values());
        }
        out
    }

    /// The ids of the circuits that are older now, by the system clock, than
    /// the configured greatest age.
    pub fn get_aged_circuits(&self, config: &BandguardsConfig) -> (r: Vec<String>)
        ensures
            exists|now: u64| string_views(r@) == #[trigger] self.spec_aged(*config, now),
    {
        let now = now_millis();
        self.get_aged_circuits_at(config, now)
    }

    /// Gives the verdict on connectivity at `now` and remembers that it was
    /// given.
    pub fn check_connectivity(&mut self, now: u64, config: &BandguardsConfig) -> (r:
        ConnectivityStatus)
        ensures
            (r, final(self)@) == old(self)@.connectivity(now, *config),
    {
        if let Some(since) = self.no_conns_since {
            let secs = elapsed_secs(since, now);
            let limit = config.conn_max_disconnected_secs;
            if limit > 0 && secs >= limit && (!self.disconnected_conns || secs % limit == 0) {
                self.disconnected_conns = true;
                return ConnectivityStatus::NoConnections { secs };
            }
        } else if let Some(since) = self.no_circs_since {
            let secs = elapsed_secs(since, now);
            let limit = config.circ_max_disconnected_secs;
            if limit > 0 && secs >= limit && self.any_circuits_pending(None) && (
            !self.disconnected_circs || secs % limit == 0) {
                self.disconnected_circs = true;
                let network_down_secs = match self.network_down_since {
                    Some(t) => Some(elapsed_secs(t, now)),
                    None => None,
                };
                return ConnectivityStatus::CircuitsFailing { secs, network_down_secs };
            }
        }
        ConnectivityStatus::Connected
    }
}

impl BwCircuitStat {
    /// Sets purpose and onion-service state and derives the classification.
    pub fn reclassify(&mut self, purpose: &str, hs_state: Option<&str>)
        ensures
            final(self)@ == old(self)@.reclassified(purpose@, opt_str_view(hs_state)),
    {
        self.is_hs = hs_state.is_some() || starts_with(purpose, "HS");
        self.is_service = starts_with(purpose, "HS_SERVICE");
        self.is_hsdir = purpose.eq("HS_CLIENT_HSDIR") || purpose.eq("HS_SERVICE_HSDIR");
        self.is_serv_intro = purpose.eq("HS_SERVICE_INTRO");
        self.purpose = Some(String::from_str(purpose));
        self.hs_state = opt_owned(hs_state);
    }

    /// Marks the circuit built for `purpose` over `path`.
    pub fn mark_built(&mut self, purpose: &str, path: &[String])
        ensures
            final(self)@ == old(self)@.built_for(purpose@, first_hop(path@)),
    {
        self.built = true;
        if starts_with(purpose, "HS_CLIENT") || starts_with(purpose, "HS_SERVICE") {
            self.in_use = true;
            if path.len() > 0 {
                self.guard_fp = Some(path[0].clone());
            }
        }
    }

    /// Takes in a change of purpose.
    pub fn change_purpose(
        &mut self,
        event_type: &str,
        purpose: &str,
        hs_state: Option<&str>,
        old_purpose: Option<&str>,
        old_hs_state: Option<&str>,
        path: &[String],
    )
        ensures
            final(self)@ == old(self)@.purpose_changed(
                event_type@,
                purpose@,
                opt_str_view(hs_state),
                opt_str_view(old_purpose),
                opt_str_view(old_hs_state),
                first_hop(path@),
            ),
    {
        self.reclassify(purpose, hs_state);
        self.old_purpose = opt_owned(old_purpose);
        self.old_hs_state = opt_owned(old_hs_state);
        let from_vanguards = match old_purpose {
            Some(p) => p.eq("HS_VANGUARDS"),
            None => false,
        };
        if event_type.eq("PURPOSE_CHANGED") && from_vanguards {
            self.in_use = true;
            if path.len() > 0 {
                self.guard_fp = Some(path[0].clone());
            }
        }
    }

    /// Whether the end of the circuit at `at`, for `reason`, is blamed on the
    /// end of its guard connection.
    pub fn was_destroyed_by_guard(&self, reason: Option<&str>, at: u64) -> (r: bool)
        ensures
            r == self@.destroyed_by_guard(opt_str_view(reason), at),
    {
        let lag_ok = match self.possibly_destroyed_at {
            Some(d) => at <= d || at - d <= MAX_CIRC_DESTROY_LAG_SECS * 1000,
            None => false,
        };
        let channel_closed = match reason {
            Some(r) => r.eq("CHANNEL_CLOSED"),
            None => false,
        };
        self.in_use && lag_ok && channel_closed
    }
}

impl BandwidthStats {
    /// Takes in a change of purpose of circuit `circ_id`; nothing happens
    /// where the circuit is not tracked.
    pub fn circ_minor_event(
        &mut self,
        circ_id: &str,
        event_type: &str,
        purpose: &str,
        hs_state: Option<&str>,
        old_purpose: Option<&str>,
        old_hs_state: Option<&str>,
        path: &[String],
    )
        ensures
            final(self)@ == old(self)@.circ_minor(
                circ_id@,
                event_type@,
                purpose@,
                opt_str_view(hs_state),
                opt_str_view(old_purpose),
                opt_str_view(old_hs_state),
                first_hop(path@),
            ),
    {
        let ghost before = *self;
        match self.circs.position(circ_id) {
            Some(i) => {
                proof {
                    before.circs.lemma_contains(circ_id@);
                }
                let circ = self.circs.value_at_mut(i);
                circ.change_purpose(event_type, purpose, hs_state, old_purpose, old_hs_state, path);
                proof {
                    let v = self.circs.spec_values()[i as int];
                    before.circs.lemma_update_at(self.circs, i as int, v);
                    assert(self@.circs =~= before@.circs.insert(circ_id@, v@));
                }
            },
            None => {
                proof {
                    assert(self@.circs =~= before@.circs);
                }
            },
        }
    }

    /// Whether the counters that the end of circuit `circ_id` would raise
    /// have room for it.
    pub fn circ_event_fits(
        &self,
        circ_id: &str,
        status: &str,
        remote_reason: Option<&str>,
        arrived_at: u64,
    ) -> (r: bool)
        ensures
            r == self@.circ_event_fits(circ_id@, status@, opt_str_view(remote_reason), arrived_at),
    {
        if !(status.eq("FAILED") || status.eq("CLOSED")) {
            return true;
        }
        match self.circs.get(circ_id) {
            Some(c) => {
                if !c.was_destroyed_by_guard(remote_reason, arrived_at) {
                    return true;
                }
                if self.circs_destroyed_total == u64::MAX {
                    return false;
                }
                match &c.guard_fp {
                    Some(g) => match self.guards.get(g.as_str()) {
                        Some(guard) => guard.killed_conns < u32::MAX,
                        None => true,
                    },
                    None => true,
                }
            },
            None => true,
        }
    }

    /// Takes in a circuit event that arrived at `arrived_at`; a circuit that
    /// the event makes known is created as of `now`. The result tells of a
    /// tracked circuit's end whether it is blamed on its guard connection.
    pub fn circ_event_at(
        &mut self,
        circ_id: &str,
        status: &str,
        purpose: &str,
        hs_state: Option<&str>,
        path: &[String],
        remote_reason: Option<&str>,
        arrived_at: u64,
        now: u64,
    ) -> (r: Option<bool>)
        requires
            old(self)@.circ_event_fits(
                circ_id@,
                status@,
                opt_str_view(remote_reason),
                arrived_at,
            ),
        ensures
            (r, final(self)@) == old(self)@.circ_event(
                circ_id@,
                status@,
                purpose@,
                opt_str_view(hs_state),
                first_hop(path@),
                opt_str_view(remote_reason),
                arrived_at,
                now,
            ),
    {
        let ghost before = *self;
        if status.eq("FAILED") && self.no_circs_since.is_none() && self.any_circuits_pending(
            Some(circ_id),
        ) {
            self.no_circs_since = Some(arrived_at);
        }
        self.circs.check_wf();
        self.guards.check_wf();
        let ghost s1 = *self;
        assert(s1@ == before@.failure_noted(circ_id@, status@, arrived_at));
        if status.eq("FAILED") || status.eq("CLOSED") {
            match self.circs.remove(circ_id) {
                Some(circ) => {
                    proof {
                        s1.circs.lemma_contains(circ_id@);
                        assert(self@.circs =~= s1@.circs.remove(circ_id@));
                    }
                    if circ.was_destroyed_by_guard(remote_reason, arrived_at) {
                        let ghost s2 = *self;
                        if let Some(g) = &circ.guard_fp {
                            if let Some(j) = self.guards.position(g.as_str()) {
                                proof {
                                    s2.guards.lemma_contains(g@);
                                }
                                let guard = self.guards.value_at_mut(j);
                                guard.killed_conn_at = 0;
                                guard.killed_conns += 1;
                                proof {
                                    let v = self.guards.spec_values()[j as int];
                                    s2.guards.lemma_update_at(self.guards, j as int, v);
                                    assert(self@.guards =~= s2@.guards.insert(g@, v@));
                                }
                            } else {
                                proof {
                                    assert(self@.guards =~= s2@.guards);
                                }
                            }
                        }
                        self.circs_destroyed_total += 1;
                        return Some(true);
                    }
                    return Some(false);
                },
                None => {
                    proof {
                        assert(self@.circs =~= s1@.circs);
                    }
                    return None;
                },
            }
        }
        let is_hs = hs_state.is_some() || starts_with(purpose, "HS");
        if !self.circs.contains_key(circ_id) {
            let circ = BwCircuitStat::new_at(String::from_str(circ_id), is_hs, now);
            self.circs.insert(String::from_str(circ_id), circ);
        }
        let ghost s2 = *self;
        match self.circs.position(circ_id) {
            Some(i) => {
                proof {
                    s2.circs.lemma_contains(circ_id@);
                    if s1@.circs.contains_key(circ_id@) {
                        s1.circs.lemma_contains(circ_id@);
                    }
                }
                let built_now = status.eq("BUILT") || status.eq("GUARD_WAIT");
                let circ = self.circs.value_at_mut(i);
                circ.reclassify(purpose, hs_state);
                if built_now {
                    circ.mark_built(purpose, path);
                }
                proof {
                    let v = self.circs.spec_values()[i as int];
                    s2.circs.lemma_update_at(self.circs, i as int, v);
                    let base = if s1@.circs.contains_key(circ_id@) {
                        s1@.circs[circ_id@]
                    } else {
                        CircuitView::fresh(circ_id@, is_hs, now)
                    };
                    assert(s2.circs.spec_values()[i as int]@ == base);
                    let c1 = base.reclassified(purpose@, opt_str_view(hs_state));
                    assert(v@ == if built_now {
                        c1.built_for(purpose@, first_hop(path@))
                    } else {
                        c1
                    });
                    assert(s2@.circs =~= s1@.circs.insert(circ_id@, base));
                    assert(self@.circs =~= s2@.circs.insert(circ_id@, v@));
                    assert(self@.circs =~= s1@.circs.insert(circ_id@, v@));
                }
                if built_now || status.eq("EXTENDED") {
                    self.disconnected_circs = false;
                    self.no_circs_since = None;
                }
            },
            None => {
                proof {
                    assert(s2.circs@.contains_key(circ_id@));
                    assert(false);
                }
            },
        }
        proof {
            let want = before@.circ_event(
                circ_id@,
                status@,
                purpose@,
                opt_str_view(hs_state),
                first_hop(path@),
                opt_str_view(remote_reason),
                arrived_at,
                now,
            );
            assert(want.0 is None);
            assert(self@.circs == want.1.circs);
            assert(self@.guards == want.1.guards);
            assert(self@.live_guard_conns == want.1.live_guard_conns);
            assert(self@.no_circs_since == want.1.no_circs_since);
            assert(self@.disconnected_circs == want.1.disconnected_circs);
        }
        None
    }

    /// Takes in a circuit event that arrived at `arrived_at`; a circuit that
    /// the event makes known is created as of now, by the system clock.
    pub fn circ_event(
        &mut self,
        circ_id: &str,
        status: &str,
        purpose: &str,
        hs_state: Option<&str>,
        path: &[String],
        remote_reason: Option<&str>,
        arrived_at: u64,
    ) -> (r: Option<bool>)
        requires
            old(self)@.circ_event_fits(
                circ_id@,
                status@,
                opt_str_view(remote_reason),
                arrived_at,
            ),
        ensures
            exists|now: u64|
                (r, final(self)@) == #[trigger] old(self)@.circ_event(
                    circ_id@,
                    status@,
                    purpose@,
                    opt_str_view(hs_state),
                    first_hop(path@),
                    opt_str_view(remote_reason),
                    arrived_at,
                    now,
                ),
    {
        let now = now_millis();
        self.circ_event_at(circ_id, status, purpose, hs_state, path, remote_reason, arrived_at, now)
    }
}

impl BandwidthStats {
    /// The id under which the live connection that a closing report for
    /// `conn_id` speaks of is tracked. It is `conn_id` itself, unless
    /// `conn_id` is a number within the made-up range and a live connection
    /// to the same guard is tracked under such a number: then it is the
    /// first of those.
    pub open spec fn spec_fixup(self, conn_id: Seq<char>, guard_fp: Seq<char>) -> Seq<char> {
        let keys = self.live_guard_conns.spec_keys();
        let i = first_fake_conn(
            keys,
            self.live_guard_conns.spec_values(),
            guard_fp,
            self.max_fake_id,
        );
        if crate::text::spec_parse_i32(conn_id) is Some && crate::text::spec_parse_i32(conn_id)->0
            <= self.max_fake_id && 0 <= i < keys.len() {
            keys[i]
        } else {
            conn_id
        }
    }

    /// The id under which the live connection that a closing report for
    /// `conn_id` speaks of is tracked.
    pub fn fixup_orconn_id(&self, conn_id: &str, guard_fp: &str) -> (r: String)
        ensures
            r@ == self.spec_fixup(conn_id@, guard_fp@),
    {
        let n = self.live_guard_conns.len();
        let ghost keys = self.live_guard_conns.spec_keys();
        let ghost vals = self.live_guard_conns.spec_values();
        if let Some(id) = crate::text::parse_i32(conn_id) {
            if id <= self.max_fake_id {
                let mut i: usize = 0;
                proof {
                    assert(keys.skip(0) =~= keys);
                    assert(vals.skip(0) =~= vals);
                }
                while i < n
                    invariant
                        0 <= i <= n,
                        n == keys.len(),
                        n == vals.len(),
                        keys == self.live_guard_conns.spec_keys(),
                        vals == self.live_guard_conns.spec_values(),
                        crate::text::spec_parse_i32(conn_id@) == Some(id),
                        id <= self.max_fake_id,
                        first_fake_conn(keys, vals, guard_fp@, self.max_fake_id) == i
                            + first_fake_conn(
                            keys.skip(i as int),
                            vals.skip(i as int),
                            guard_fp@,
                            self.max_fake_id,
                        ),
                    decreases n - i,
                {
                    let k = self.live_guard_conns.key_at(i);
                    let g = self.live_guard_conns.value_at(i);
                    proof {
                        assert(keys.skip(i as int).drop_first() =~= keys.skip(i + 1));
                        assert(vals.skip(i as int).drop_first() =~= vals.skip(i + 1));
                    }
                    if g.to_guard.as_str().eq(guard_fp) {
                        if let Some(f) = crate::text::parse_i32(k.as_str()) {
                            if f <= self.max_fake_id {
                                proof {
                                    assert(keys.skip(i as int)[0] == keys[i as int]);
                                    assert(vals.skip(i as int)[0] == vals[i as int]);
                                    assert(is_fake_conn(
                                        keys[i as int],
                                        vals[i as int]@,
                                        guard_fp@,
                                        self.max_fake_id,
                                    ));
                                    assert(first_fake_conn(
                                        keys.skip(i as int),
                                        vals.skip(i as int),
                                        guard_fp@,
                                        self.max_fake_id,
                                    ) == 0);
                                }
                                return k.clone();
                            }
                        }
                    }
                    i += 1;
                }
                proof {
                    assert(keys.skip(n as int) =~= Seq::<Seq<char>>::empty());
                }
            }
        }
        proof {
            lemma_first_fake_conn(keys, vals, guard_fp@, self.max_fake_id);
        }
        String::from_str(conn_id)
    }

    /// Marks every circuit in use over the guard `guard_fp` as possibly
    /// destroyed at `at`, and tells whether there was one.
    fn mark_guard_closed(&mut self, guard_fp: &str, at: u64) -> (any: bool)
        ensures
            any == old(self)@.any_uses_guard(guard_fp@),
            final(self)@ == (StatsView {
                circs: old(self)@.circs.map_values(
                    |c: CircuitView| c.guard_closed(guard_fp@, at),
                ),
                ..old(self)@
            }),
            final(self).guards == old(self).guards,
            final(self).live_guard_conns == old(self).live_guard_conns,
    {
        let ghost before = *self;
        let n = self.circs.len();
        let mut any = false;
        let mut i: usize = 0;
        while i < n
            invariant
                0 <= i <= n,
                n == before.circs.spec_len(),
                before.circs.wf(),
                self.circs.spec_keys() == before.circs.spec_keys(),
                self.circs.spec_values().len() == n,
                forall|j: int|
                    0 <= j < i ==> (#[trigger] self.circs.spec_values()[j])@
                        == before.circs.spec_values()[j]@.guard_closed(guard_fp@, at),
                forall|j: int|
                    i <= j < n ==> #[trigger] self.circs.spec_values()[j]
                        == before.circs.spec_values()[j],
                any == exists|j: int|
                    0 <= j < i && (#[trigger] before.circs.spec_values()[j])@.uses_guard(guard_fp@),
                self.guards == before.guards,
                self.live_guard_conns == before.live_guard_conns,
                self.circs_destroyed_total == before.circs_destroyed_total,
                self.no_conns_since == before.no_conns_since,
                self.no_circs_since == before.no_circs_since,
                self.network_down_since == before.network_down_since,
                self.max_fake_id == before.max_fake_id,
                self.disconnected_circs == before.disconnected_circs,
                self.disconnected_conns == before.disconnected_conns,
            decreases n - i,
        {
            let c = self.circs.value_at(i);
            let hit = c.in_use && opt_is(&c.guard_fp, guard_fp);
            if hit {
                let c = self.circs.value_at_mut(i);
                c.possibly_destroyed_at = Some(at);
                any = true;
            }
            proof {
                assert(before.circs.spec_values()[i as int]@.uses_guard(guard_fp@) == hit);
            }
            i += 1;
        }
        proof {
            self.circs.lemma_inherit_wf(before.circs);
            let want = before@.circs.map_values(|c: CircuitView| c.guard_closed(guard_fp@, at));
            assert forall|k: Seq<char>| #[trigger] self@.circs.contains_key(k) implies self@.circs[k]
                == want[k] by {
                self.circs.lemma_contains(k);
                before.circs.lemma_contains(k);
            }
            assert(self@.circs =~= want);
            if any {
                let j = choose|j: int|
                    0 <= j < n && (#[trigger] before.circs.spec_values()[j])@.uses_guard(guard_fp@);
                before.circs.lemma_index_of(j);
                assert(before@.circs.contains_key(before.circs.spec_keys()[j]));
            }
            if before@.any_uses_guard(guard_fp@) {
                let k = choose|k: Seq<char>| #[trigger]
                    before@.circs.contains_key(k) && before@.circs[k].uses_guard(guard_fp@);
                before.circs.lemma_contains(k);
                assert(before.circs.spec_values()[before.circs.spec_index_of(k)]@.uses_guard(
                    guard_fp@,
                ));
            }
        }
        any
    }

    /// Whether the counters that a connection event would raise have room
    /// for it.
    pub fn orconn_event_fits(&self, guard_fp: &str, status: &str, reason: Option<&str>) -> (r:
        bool)
        ensures
            r == self@.orconn_fits(guard_fp@, status@, opt_str_view(reason)),
    {
        proof {
            lemma_status_names();
        }
        match self.guards.get(guard_fp) {
            Some(g) => {
                if status.eq("CONNECTED") {
                    g.conns_made < u32::MAX
                } else if status.eq("CLOSED") {
                    match reason {
                        Some(r) => match g.close_reasons.get(r) {
                            Some(count) => *count < u32::MAX,
                            None => true,
                        },
                        None => true,
                    }
                } else {
                    true
                }
            },
            None => true,
        }
    }

    /// Takes in a connection event for guard `guard_fp` that arrived at
    /// `arrived_at`.
    pub fn orconn_event(
        &mut self,
        conn_id: &str,
        guard_fp: &str,
        status: &str,
        reason: Option<&str>,
        arrived_at: u64,
    )
        requires
            old(self)@.orconn_fits(guard_fp@, status@, opt_str_view(reason)),
        ensures
            final(self)@ == old(self)@.orconn(
                conn_id@,
                old(self).spec_fixup(conn_id@, guard_fp@),
                guard_fp@,
                status@,
                opt_str_view(reason),
                arrived_at,
            ),
    {
        let ghost before = *self;
        proof {
            lemma_status_names();
        }
        if !self.guards.contains_key(guard_fp) {
            self.guards.insert(String::from_str(guard_fp), BwGuardStat::new(String::from_str(guard_fp)));
        }
        self.guards.check_wf();
        let ghost s0 = *self;
        proof {
            assert(s0@.guards =~= before@.guards_with(guard_fp@));
        }
        let gi: usize = match self.guards.position(guard_fp) {
            Some(i) => i,
            None => {
                proof {
                    assert(s0.guards@.contains_key(guard_fp@));
                    assert(false);
                }
                0
            },
        };
        proof {
            s0.guards.lemma_contains(guard_fp@);
        }
        if status.eq("CONNECTED") {
            self.disconnected_conns = false;
            self.live_guard_conns.insert(
                String::from_str(conn_id),
                BwGuardStat::new(String::from_str(guard_fp)),
            );
            let guard = self.guards.value_at_mut(gi);
            guard.conns_made += 1;
            self.no_conns_since = None;
            proof {
                let v = self.guards.spec_values()[gi as int];
                s0.guards.lemma_update_at(self.guards, gi as int, v);
                assert(self@.guards =~= s0@.guards.insert(guard_fp@, v@));
                assert(self@.live_guard_conns =~= before@.live_guard_conns.insert(
                    conn_id@,
                    GuardView::fresh(guard_fp@),
                ));
            }
        } else if status.eq("FAILED") || status.eq("CLOSED") {
            let actual = self.fixup_orconn_id(conn_id, guard_fp);
            let matched = self.live_guard_conns.contains_key(actual.as_str());
            if matched {
                let any = self.mark_guard_closed(guard_fp, arrived_at);
                if any {
                    let guard = self.guards.value_at_mut(gi);
                    guard.killed_conn_at = arrived_at;
                }
                let ghost s1 = *self;
                self.live_guard_conns.remove(actual.as_str());
                proof {
                    assert(self@.live_guard_conns =~= before@.live_guard_conns.remove(actual@));
                }
                let none_left = self.live_guard_conns.is_empty();
                proof {
                    assert forall|k: Seq<char>|
                        self@.live_guard_conns.contains_key(k)
                            == self.live_guard_conns@.contains_key(k) by {}
                    assert(none_left == no_entries(self@.live_guard_conns));
                }
                if none_left && self.no_conns_since.is_none() {
                    self.no_conns_since = Some(arrived_at);
                }
            }
            let ghost s2 = *self;
            proof {
                let v = s2.guards.spec_values()[gi as int];
                if matched && before@.any_uses_guard(guard_fp@) {
                    s0.guards.lemma_update_at(s2.guards, gi as int, v);
                    assert(s2@.guards =~= s0@.guards.insert(guard_fp@, v@));
                } else {
                    assert(s2@.guards =~= s0@.guards);
                }
                assert(v@.close_reasons == s0@.guards[guard_fp@].close_reasons);
            }
            self.guards.check_wf();
            if status.eq("CLOSED") {
                if let Some(r) = reason {
                    proof {
                        s2.guards.lemma_contains(guard_fp@);
                    }
                    let guard = self.guards.value_at_mut(gi);
                    guard.record_close_reason(r);
                    proof {
                        let v = self.guards.spec_values()[gi as int];
                        s2.guards.lemma_update_at(self.guards, gi as int, v);
                        assert(self@.guards =~= s2@.guards.insert(guard_fp@, v@));
                    }
                }
            }
        }
        proof {
            let want = before@.orconn(
                conn_id@,
                before.spec_fixup(conn_id@, guard_fp@),
                guard_fp@,
                status@,
                opt_str_view(reason),
                arrived_at,
            );
            assert(self@.circs == want.circs);
            assert(self@.live_guard_conns == want.live_guard_conns);
            assert(self@.no_conns_since == want.no_conns_since);
            assert(self@.disconnected_conns == want.disconnected_conns);
            assert(self@.guards == want.guards);
        }
    }
}

impl StatsView {
    /// The monitor after one bandwidth event for circuit `id` for each
    /// element of `ds`, in order.
    pub open spec fn circbw_all(self, id: Seq<char>, ds: Seq<BwDeltas>) -> StatsView
        decreases ds.len(),
    {
        if ds.len() == 0 {
            self
        } else {
            self.circbw_all(id, ds.drop_last()).circbw(id, ds.last())
        }
    }

    /// Whether the counters of circuit `id` have room for each event of
    /// `ds` when its turn comes.
    pub open spec fn circbw_all_fit(self, id: Seq<char>, ds: Seq<BwDeltas>) -> bool
        decreases ds.len(),
    {
        ds.len() == 0 || (self.circbw_all_fit(id, ds.drop_last()) && self.circbw_all(
            id,
            ds.drop_last(),
        ).circbw_fits(id, ds.last()))
    }
}

/// The six sums of the byte counts of `ds`.
pub open spec fn sum_deltas(ds: Seq<BwDeltas>) -> (int, int, int, int, int, int)
    decreases ds.len(),
{
    if ds.len() == 0 {
        (0, 0, 0, 0, 0, 0)
    } else {
        let s = sum_deltas(ds.drop_last());
        let d = ds.last();
        (
            s.0 + d.read,
            s.1 + d.written,
            s.2 + d.delivered_read,
            s.3 + d.delivered_written,
            s.4 + d.overhead_read,
            s.5 + d.overhead_written,
        )
    }
}

/// Over any sequence of bandwidth events for a tracked circuit, each of the
/// circuit's six counters ends at its start plus the sum of what the events
/// reported for it; the circuit stays tracked and nothing else of it
/// changes.
pub proof fn lemma_counters_accumulate(s: StatsView, id: Seq<char>, ds: Seq<BwDeltas>)
    requires
        s.circs.contains_key(id),
        s.circbw_all_fit(id, ds),
    ensures
        s.circbw_all(id, ds).circs.contains_key(id),
        s.circbw_all(id, ds).circs[id].read_bytes == s.circs[id].read_bytes + sum_deltas(ds).0,
        s.circbw_all(id, ds).circs[id].sent_bytes == s.circs[id].sent_bytes + sum_deltas(ds).1,
        s.circbw_all(id, ds).circs[id].delivered_read_bytes == s.circs[id].delivered_read_bytes
            + sum_deltas(ds).2,
        s.circbw_all(id, ds).circs[id].delivered_sent_bytes == s.circs[id].delivered_sent_bytes
            + sum_deltas(ds).3,
        s.circbw_all(id, ds).circs[id].overhead_read_bytes == s.circs[id].overhead_read_bytes
            + sum_deltas(ds).4,
        s.circbw_all(id, ds).circs[id].overhead_sent_bytes == s.circs[id].overhead_sent_bytes
            + sum_deltas(ds).5,
        s.circs[id] == (CircuitView {
            read_bytes: s.circs[id].read_bytes,
            sent_bytes: s.circs[id].sent_bytes,
            delivered_read_bytes: s.circs[id].delivered_read_bytes,
            delivered_sent_bytes: s.circs[id].delivered_sent_bytes,
            overhead_read_bytes: s.circs[id].overhead_read_bytes,
            overhead_sent_bytes: s.circs[id].overhead_sent_bytes,
            ..s.circbw_all(id, ds).circs[id]
        }),
    decreases ds.len(),
{
    if ds.len() > 0 {
        let prev = s.circbw_all(id, ds.drop_last());
        lemma_counters_accumulate(s, id, ds.drop_last());
        assert(s.circbw_all(id, ds) == prev.circbw(id, ds.last()));
        assert(prev.circbw(id, ds.last()).circs[id] == prev.circs[id].plus(ds.last()));
        assert(prev.circs[id].has_room(ds.last()));
    }
}

/// No bandwidth event lowers a counter: after one more event, each of the
/// circuit's six counters is at least what it was.
pub proof fn lemma_counters_never_decrease(s: StatsView, id: Seq<char>, d: BwDeltas)
    requires
        s.circs.contains_key(id),
        s.circbw_fits(id, d),
    ensures
        s.circbw(id, d).circs[id].read_bytes >= s.circs[id].read_bytes,
        s.circbw(id, d).circs[id].sent_bytes >= s.circs[id].sent_bytes,
        s.circbw(id, d).circs[id].delivered_read_bytes >= s.circs[id].delivered_read_bytes,
        s.circbw(id, d).circs[id].delivered_sent_bytes >= s.circs[id].delivered_sent_bytes,
        s.circbw(id, d).circs[id].overhead_read_bytes >= s.circs[id].overhead_read_bytes,
        s.circbw(id, d).circs[id].overhead_sent_bytes >= s.circs[id].overhead_sent_bytes,
{
}

/// The names of the connection states differ from each other.
pub proof fn lemma_status_names()
    ensures
        "CONNECTED"@ != "CLOSED"@,
        "CONNECTED"@ != "FAILED"@,
        "CLOSED"@ != "FAILED"@,
{
    reveal_strlit("CONNECTED");
    reveal_strlit("CLOSED");
    reveal_strlit("FAILED");
    assert("CONNECTED"@.len() == 9);
    assert("CLOSED"@.len() == 6);
    assert("FAILED"@.len() == 6);
    assert("CLOSED"@[0] == 'C');
    assert("FAILED"@[0] == 'F');
}

/// `first_fake_conn` lies within the connections or at their end.
pub proof fn lemma_first_fake_conn(
    keys: Seq<Seq<char>>,
    vals: Seq<BwGuardStat>,
    guard_fp: Seq<char>,
    max: i32,
)
    ensures
        0 <= first_fake_conn(keys, vals, guard_fp, max) <= keys.len(),
    decreases keys.len(),
{
    if keys.len() != 0 && vals.len() == keys.len() && !is_fake_conn(
        keys[0],
        vals[0]@,
        guard_fp,
        max,
    ) {
        lemma_first_fake_conn(keys.drop_first(), vals.drop_first(), guard_fp, max);
    }
}

} // verus!
