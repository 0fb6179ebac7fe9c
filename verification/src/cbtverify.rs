//! Counts of launched, built and timed-out circuits, to check the daemon's
//! circuit build timeout against what is observed.

use crate::config::FIXED_ONE;
use crate::strmap::StrMap;
use crate::text::starts_with;
use vstd::prelude::*;

verus! {

/// What is remembered of a circuit while it is being built.
#[derive(Debug, Clone)]
pub struct CircuitStat {
    /// The circuit's id.
    pub circ_id: String,
    /// Whether the circuit serves an onion service.
    pub is_hs: bool,
}

impl CircuitStat {
    /// A circuit with the given id.
    pub fn new(circ_id: &str, is_hs: bool) -> (r: Self)
        ensures
            r.circ_id@ == circ_id@,
            r.is_hs == is_hs,
    {
        CircuitStat { circ_id: String::from_str(circ_id), is_hs }
    }
}

/// The counts.
#[derive(Debug, Clone)]
pub struct TimeoutStats {
    /// The circuits that are being built, by id.
    pub circuits: StrMap<CircuitStat>,
    /// Circuits launched.
    pub all_launched: u64,
    /// Circuits built.
    pub all_built: u64,
    /// Circuits that timed out.
    pub all_timeout: u64,
    /// Onion-service circuits launched.
    pub hs_launched: u64,
    /// Onion-service circuits built.
    pub hs_built: u64,
    /// Onion-service circuits that timed out.
    pub hs_timeout: u64,
    /// Whether circuits are counted: not between a reset of the daemon's
    /// timeout and its next computation.
    pub record_timeouts: bool,
}

/// The mathematical content of a [`TimeoutStats`]: of each circuit that is
/// being built whether it serves an onion service, and the counts.
pub ghost struct TimeoutView {
    pub circuits: Map<Seq<char>, bool>,
    pub all_launched: u64,
    pub all_built: u64,
    pub all_timeout: u64,
    pub hs_launched: u64,
    pub hs_built: u64,
    pub hs_timeout: u64,
    pub record_timeouts: bool,
}

impl View for TimeoutStats {
    type V = TimeoutView;

    open spec fn view(&self) -> TimeoutView {
        TimeoutView {
            circuits: self.circuits@.map_values(|c: CircuitStat| c.is_hs),
            all_launched: self.all_launched,
            all_built: self.all_built,
            all_timeout: self.all_timeout,
            hs_launched: self.hs_launched,
            hs_built: self.hs_built,
            hs_timeout: self.hs_timeout,
            record_timeouts: self.record_timeouts,
        }
    }
}

/// What became of a circuit.
#[derive(Debug, Clone, Copy, PartialEq, Eq, Structural)]
pub enum Outcome {
    /// The circuit was built.
    Built,
    /// The circuit was closed before it was built.
    Closed,
    /// The circuit timed out.
    TimedOut,
}

/// The counts after a reset, and the rate that the daemon reported with it.
#[derive(Debug, Clone, Copy, PartialEq, Eq, Structural)]
pub struct CbtReport {
    /// The timeout rate that the daemon reports, in fixed point.
    pub reported_rate: u64,
    /// The measured timeout rate of all circuits, in fixed point.
    pub measured_rate: u64,
    /// The measured timeout rate of onion-service circuits, in fixed point.
    pub measured_hs_rate: u64,
}

/// The share `part / whole` in fixed point, rounded down and at most
/// `u64::MAX`; 0 where `whole` is 0.
pub open spec fn spec_rate(part: u64, whole: u64) -> u64 {
    if whole == 0 {
        0
    } else if part * FIXED_ONE / (whole as int) > u64::MAX {
        u64::MAX
    } else {
        (part * FIXED_ONE / (whole as int)) as u64
    }
}

/// The share `part / whole` in fixed point.
pub fn rate(part: u64, whole: u64) -> (r: u64)
    ensures
        r == spec_rate(part, whole),
{
    if whole == 0 {
        return 0;
    }
    assert(part * FIXED_ONE <= 0xffff_ffff_ffff_ffff * 1_000_000_000) by (nonlinear_arith)
        requires
            part <= 0xffff_ffff_ffff_ffff,
            FIXED_ONE == 1_000_000_000,
    ;
    let q: u128 = (part as u128 * (FIXED_ONE as u128)) / (whole as u128);
    if q > 0xffff_ffff_ffff_ffff {
        0xffff_ffff_ffff_ffff
    } else {
        q as u64
    }
}

impl TimeoutView {
    /// The counts at the start: nothing counted, and counting is on.
    pub open spec fn fresh() -> TimeoutView {
        TimeoutView {
            circuits: Map::empty(),
            all_launched: 0,
            all_built: 0,
            all_timeout: 0,
            hs_launched: 0,
            hs_built: 0,
            hs_timeout: 0,
            record_timeouts: true,
        }
    }

    /// The counts set back to 0; the circuits that are being built stay.
    pub open spec fn zeroed(self) -> TimeoutView {
        TimeoutView {
            all_launched: 0,
            all_built: 0,
            all_timeout: 0,
            hs_launched: 0,
            hs_built: 0,
            hs_timeout: 0,
            ..self
        }
    }

    /// Whether the launch of a circuit can be counted within `u64`.
    pub open spec fn launch_fits(self, is_hs: bool) -> bool {
        self.all_launched < u64::MAX && (is_hs ==> self.hs_launched < u64::MAX)
    }

    /// The counts after circuit `id` was launched.
    pub open spec fn launched(self, id: Seq<char>, is_hs: bool) -> TimeoutView {
        TimeoutView {
            circuits: self.circuits.insert(id, is_hs),
            all_launched: (self.all_launched + 1) as u64,
            hs_launched: if is_hs {
                (self.hs_launched + 1) as u64
            } else {
                self.hs_launched
            },
            ..self
        }
    }

    /// Whether the outcome of circuit `id` can be counted within `u64`.
    pub open spec fn outcome_fits(self, id: Seq<char>, outcome: Outcome) -> bool {
        self.circuits.contains_key(id) ==> match outcome {
            Outcome::Built => self.all_built < u64::MAX && (self.circuits[id] ==> self.hs_built
                < u64::MAX),
            Outcome::Closed => true,
            Outcome::TimedOut => self.all_timeout < u64::MAX && (self.circuits[id]
                ==> self.hs_timeout < u64::MAX),
        }
    }

    /// The counts after circuit `id` met `outcome`. A circuit that is not
    /// being built changes nothing. A built or timed-out circuit is counted
    /// as such; a closed one is no longer counted as launched. In each case
    /// the circuit is forgotten.
    pub open spec fn finished(self, id: Seq<char>, outcome: Outcome) -> TimeoutView {
        if !self.circuits.contains_key(id) {
            self
        } else {
            let hs = self.circuits[id];
            let rest = TimeoutView { circuits: self.circuits.remove(id), ..self };
            match outcome {
                Outcome::Built => TimeoutView {
                    all_built: (self.all_built + 1) as u64,
                    hs_built: if hs {
                        (self.hs_built + 1) as u64
                    } else {
                        self.hs_built
                    },
                    ..rest
                },
                Outcome::Closed => TimeoutView {
                    all_launched: if self.all_launched > 0 {
                        (self.all_launched - 1) as u64
                    } else {
                        0
                    },
                    hs_launched: if hs && self.hs_launched > 0 {
                        (self.hs_launched - 1) as u64
                    } else {
                        self.hs_launched
                    },
                    ..rest
                },
                Outcome::TimedOut => TimeoutView {
                    all_timeout: (self.all_timeout + 1) as u64,
                    hs_timeout: if hs {
                        (self.hs_timeout + 1) as u64
                    } else {
                        self.hs_timeout
                    },
                    ..rest
                },
            }
        }
    }

    /// Whether a circuit event can be counted within `u64`.
    pub open spec fn circ_event_fits(
        self,
        id: Seq<char>,
        status: Seq<char>,
        purpose: Seq<char>,
        hs_state: Option<Seq<char>>,
        reason: Option<Seq<char>>,
    ) -> bool {
        self.record_timeouts ==> {
            if status == "LAUNCHED"@ {
                self.launch_fits(hs_state is Some || "HS"@.is_prefix_of(purpose))
            } else if status == "BUILT"@ {
                self.outcome_fits(id, Outcome::Built)
            } else if (status == "FAILED"@ || status == "CLOSED"@) && reason == Some("TIMEOUT"@) {
                self.outcome_fits(id, Outcome::TimedOut)
            } else {
                true
            }
        }
    }

    /// The counts after a circuit event. While counting is off, nothing
    /// changes. `LAUNCHED` counts a launch and `BUILT` a built circuit. A
    /// circuit that failed or closed timed out where the reason is
    /// `TIMEOUT`; otherwise it was closed, unless its purpose is the
    /// measuring of timeouts, in which case nothing changes.
    pub open spec fn circ_event(
        self,
        id: Seq<char>,
        status: Seq<char>,
        purpose: Seq<char>,
        hs_state: Option<Seq<char>>,
        reason: Option<Seq<char>>,
    ) -> TimeoutView {
        if !self.record_timeouts {
            self
        } else if status == "LAUNCHED"@ {
            self.launched(id, hs_state is Some || "HS"@.is_prefix_of(purpose))
        } else if status == "BUILT"@ {
            self.finished(id, Outcome::Built)
        } else if status == "FAILED"@ || status == "CLOSED"@ {
            if reason == Some("TIMEOUT"@) {
                self.finished(id, Outcome::TimedOut)
            } else if purpose != "MEASURE_TIMEOUT"@ {
                self.finished(id, Outcome::Closed)
            } else {
                self
            }
        } else {
            self
        }
    }

    /// The counts after the daemon set its build timeout: `COMPUTED` turns
    /// counting on, `RESET` turns it off and sets the counts back to 0.
    pub open spec fn cbt_event(self, set_type: Seq<char>) -> TimeoutView {
        if set_type == "COMPUTED"@ {
            TimeoutView { record_timeouts: true, ..self }
        } else if set_type == "RESET"@ {
            TimeoutView { record_timeouts: false, ..self.zeroed() }
        } else {
            self
        }
    }
}

impl TimeoutStats {
    /// Whether each circuit that is being built is held under its own id.
    pub open spec fn keyed_by_id(self) -> bool {
        forall|id: Seq<char>| #[trigger]
            self.circuits@.contains_key(id) ==> self.circuits@[id].circ_id@ == id
    }

    /// The counts at the start.
    pub fn new() -> (r: Self)
        ensures
            r@ == TimeoutView::fresh(),
            r.keyed_by_id(),
    {
        let r = TimeoutStats {
            circuits: StrMap::new(),
            all_launched: 0,
            all_built: 0,
            all_timeout: 0,
            hs_launched: 0,
            hs_built: 0,
            hs_timeout: 0,
            record_timeouts: true,
        };
        assert(r@.circuits =~= Map::empty());
        r
    }

    /// Sets the counts back to 0.
    pub fn zero_fields(&mut self)
        ensures
            final(self)@ == old(self)@.zeroed(),
            final(self).circuits == old(self).circuits,
    {
        self.all_launched = 0;
        self.all_built = 0;
        self.all_timeout = 0;
        self.hs_launched = 0;
        self.hs_built = 0;
        self.hs_timeout = 0;
    }

    /// Counts the launch of circuit `circ_id`, and tells whether a circuit
    /// of that id was already being built.
    pub fn add_circuit(&mut self, circ_id: &str, is_hs: bool) -> (known: bool)
        requires
            old(self)@.launch_fits(is_hs),
        ensures
            final(self)@ == old(self)@.launched(circ_id@, is_hs),
            final(self).circuits@ == old(self).circuits@.insert(
                circ_id@,
                final(self).circuits@[circ_id@],
            ),
            final(self).circuits@[circ_id@].circ_id@ == circ_id@,
            final(self).circuits@[circ_id@].is_hs == is_hs,
            old(self).keyed_by_id() ==> final(self).keyed_by_id(),
            known == old(self)@.circuits.contains_key(circ_id@),
    {
        let ghost before = *self;
        let known = self.circuits.contains_key(circ_id);
        self.circuits.insert(String::from_str(circ_id), CircuitStat::new(circ_id, is_hs));
        self.all_launched += 1;
        if is_hs {
            self.hs_launched += 1;
        }
        proof {
            assert(self@.circuits =~= before@.circuits.insert(circ_id@, is_hs));
        }
        known
    }

    /// Whether the outcome of circuit `circ_id` can be counted within
    /// `u64`.
    pub fn outcome_fits(&self, circ_id: &str, outcome: Outcome) -> (r: bool)
        ensures
            r == self@.outcome_fits(circ_id@, outcome),
    {
        match self.circuits.get(circ_id) {
            Some(c) => match outcome {
                Outcome::Built => self.all_built < u64::MAX && (!c.is_hs || self.hs_built
                    < u64::MAX),
                Outcome::Closed => true,
                Outcome::TimedOut => self.all_timeout < u64::MAX && (!c.is_hs || self.hs_timeout
                    < u64::MAX),
            },
            None => true,
        }
    }

    /// Counts the outcome of circuit `circ_id` and forgets the circuit.
    pub fn finish_circuit(&mut self, circ_id: &str, outcome: Outcome)
        requires
            old(self)@.outcome_fits(circ_id@, outcome),
        ensures
            final(self)@ == old(self)@.finished(circ_id@, outcome),
            final(self).circuits@ == old(self).circuits@.remove(circ_id@),
            old(self).keyed_by_id() ==> final(self).keyed_by_id(),
    {
        let ghost before = *self;
        self.circuits.check_wf();
        match self.circuits.remove(circ_id) {
            Some(circ) => {
                proof {
                    before.circuits.lemma_contains(circ_id@);
                    assert(self@.circuits =~= before@.circuits.remove(circ_id@));
                }
                match outcome {
                    Outcome::Built => {
                        self.all_built += 1;
                        if circ.is_hs {
                            self.hs_built += 1;
                        }
                    },
                    Outcome::Closed => {
                        if self.all_launched > 0 {
                            self.all_launched -= 1;
                        }
                        if circ.is_hs && self.hs_launched > 0 {
                            self.hs_launched -= 1;
                        }
                    },
                    Outcome::TimedOut => {
                        self.all_timeout += 1;
                        if circ.is_hs {
                            self.hs_timeout += 1;
                        }
                    },
                }
            },
            None => {
                proof {
                    assert(self@.circuits =~= before@.circuits);
                }
            },
        }
    }

    /// Counts circuit `circ_id` as built.
    pub fn built_circuit(&mut self, circ_id: &str)
        requires
            old(self)@.outcome_fits(circ_id@, Outcome::Built),
        ensures
            final(self)@ == old(self)@.finished(circ_id@, Outcome::Built),
            old(self).keyed_by_id() ==> final(self).keyed_by_id(),
    {
        self.finish_circuit(circ_id, Outcome::Built);
    }

    /// Takes circuit `circ_id`, closed before it was built, out of the
    /// count of launched circuits.
    pub fn closed_circuit(&mut self, circ_id: &str)
        ensures
            final(self)@ == old(self)@.finished(circ_id@, Outcome::Closed),
            old(self).keyed_by_id() ==> final(self).keyed_by_id(),
    {
        self.finish_circuit(circ_id, Outcome::Closed);
    }

    /// Counts circuit `circ_id` as timed out.
    pub fn timeout_circuit(&mut self, circ_id: &str)
        requires
            old(self)@.outcome_fits(circ_id@, Outcome::TimedOut),
        ensures
            final(self)@ == old(self)@.finished(circ_id@, Outcome::TimedOut),
            old(self).keyed_by_id() ==> final(self).keyed_by_id(),
    {
        self.finish_circuit(circ_id, Outcome::TimedOut);
    }

    /// Whether a circuit event can be counted within `u64`.
    pub fn circ_event_fits(
        &self,
        circ_id: &str,
        status: &str,
        purpose: &str,
        hs_state: Option<&str>,
        reason: Option<&str>,
    ) -> (r: bool)
        ensures
            r == self@.circ_event_fits(
                circ_id@,
                status@,
                purpose@,
                crate::text::opt_str_view(hs_state),
                crate::text::opt_str_view(reason),
            ),
    {
        if !self.record_timeouts {
            return true;
        }
        if status.eq("LAUNCHED") {
            let is_hs = hs_state.is_some() || starts_with(purpose, "HS");
            self.all_launched < u64::MAX && (!is_hs || self.hs_launched < u64::MAX)
        } else if status.eq("BUILT") {
            self.outcome_fits(circ_id, Outcome::Built)
        } else if status.eq("FAILED") || status.eq("CLOSED") {
            let timed_out = match reason {
                Some(r) => r.eq("TIMEOUT"),
                None => false,
            };
            if timed_out {
                self.outcome_fits(circ_id, Outcome::TimedOut)
            } else {
                true
            }
        } else {
            true
        }
    }

    /// Takes in a circuit event, and tells whether the event shows a
    /// circuit that was launched for another use as serving an onion
    /// service.
    pub fn circ_event(
        &mut self,
        circ_id: &str,
        status: &str,
        purpose: &str,
        hs_state: Option<&str>,
        reason: Option<&str>,
    ) -> (turned_hs: bool)
        requires
            old(self)@.circ_event_fits(
                circ_id@,
                status@,
                purpose@,
                crate::text::opt_str_view(hs_state),
                crate::text::opt_str_view(reason),
            ),
        ensures
            final(self)@ == old(self)@.circ_event(
                circ_id@,
                status@,
                purpose@,
                crate::text::opt_str_view(hs_state),
                crate::text::opt_str_view(reason),
            ),
            turned_hs == ((hs_state is Some || "HS"@.is_prefix_of(purpose@))
                && old(self)@.circuits.contains_key(circ_id@) && !old(self)@.circuits[circ_id@]),
            old(self).keyed_by_id() ==> final(self).keyed_by_id(),
    {
        proof {
            lemma_circ_status_names();
        }
        let is_hs = hs_state.is_some() || starts_with(purpose, "HS");
        let turned_hs = is_hs && match self.circuits.get(circ_id) {
            Some(c) => !c.is_hs,
            None => false,
        };
        if !self.record_timeouts {
            return turned_hs;
        }
        if status.eq("LAUNCHED") {
            self.add_circuit(circ_id, is_hs);
        } else if status.eq("BUILT") {
            self.built_circuit(circ_id);
        } else if status.eq("FAILED") || status.eq("CLOSED") {
            let timed_out = match reason {
                Some(r) => r.eq("TIMEOUT"),
                None => false,
            };
            if timed_out {
                self.timeout_circuit(circ_id);
            } else if !purpose.eq("MEASURE_TIMEOUT") {
                self.closed_circuit(circ_id);
            }
        }
        turned_hs
    }

    /// Takes in the daemon's setting of its build timeout, with the timeout
    /// rate that the daemon reports, if it reports one. Where it does, the
    /// result holds that rate beside the rates measured up to the event.
    pub fn cbt_event(&mut self, set_type: &str, timeout_rate: Option<u64>) -> (r: Option<
        CbtReport,
    >)
        ensures
            final(self)@ == old(self)@.cbt_event(set_type@),
            final(self).circuits == old(self).circuits,
            r == match timeout_rate {
                Some(reported) => Some(
                    CbtReport {
                        reported_rate: reported,
                        measured_rate: spec_rate(old(self).all_timeout, old(self).all_launched),
                        measured_hs_rate: spec_rate(old(self).hs_timeout, old(self).hs_launched),
                    },
                ),
                None => None,
            },
    {
        let report = match timeout_rate {
            Some(reported) => Some(
                CbtReport {
                    reported_rate: reported,
                    measured_rate: self.timeout_rate_all(),
                    measured_hs_rate: self.timeout_rate_hs(),
                },
            ),
            None => None,
        };
        if set_type.eq("COMPUTED") {
            self.record_timeouts = true;
        } else if set_type.eq("RESET") {
            self.record_timeouts = false;
            self.zero_fields();
        }
        report
    }

    /// The share of launched circuits that timed out, in fixed point.
    pub fn timeout_rate_all(&self) -> (r: u64)
        ensures
            r == spec_rate(self.all_timeout, self.all_launched),
    {
        rate(self.all_timeout, self.all_launched)
    }

    /// The share of launched onion-service circuits that timed out, in
    /// fixed point.
    pub fn timeout_rate_hs(&self) -> (r: u64)
        ensures
            r == spec_rate(self.hs_timeout, self.hs_launched),
    {
        rate(self.hs_timeout, self.hs_launched)
    }

    /// Number of circuits that are being built.
    pub fn pending_count(&self) -> (n: usize)
        ensures
            n == self.circuits.spec_len(),
    {
        self.circuits.len()
    }
}

/// The names of the circuit states that are counted differ from each other.
pub proof fn lemma_circ_status_names()
    ensures
        "LAUNCHED"@ != "BUILT"@,
        "LAUNCHED"@ != "FAILED"@,
        "LAUNCHED"@ != "CLOSED"@,
        "BUILT"@ != "FAILED"@,
        "BUILT"@ != "CLOSED"@,
{
    reveal_strlit("LAUNCHED");
    reveal_strlit("BUILT");
    reveal_strlit("FAILED");
    reveal_strlit("CLOSED");
    assert("LAUNCHED"@.len() == 8);
    assert("BUILT"@.len() == 5);
    assert("FAILED"@.len() == 6);
    assert("CLOSED"@.len() == 6);
}

} // verus!
