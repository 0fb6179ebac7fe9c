//! Checks of the paths that the daemon builds against the guard layers.

use crate::text::opt_str_view;
use crate::strmap::{StrMap, StrSet};
use crate::text::{chars_of, spec_split, spec_trim, split, starts_with, string_of, trim, views};
use vstd::prelude::*;

verus! {

/// The number of hops that a circuit of `purpose` is to have, with full
/// guard layers or with the daemon's own lite ones; `None` for a purpose
/// that is not of an onion service.
pub open spec fn spec_routelen(full: bool, purpose: Seq<char>) -> Option<usize> {
    if purpose == "HS_VANGUARDS"@ {
        Some(if full { 4usize } else { 3usize })
    } else if purpose == "HS_CLIENT_HSDIR"@ {
        Some(if full { 5usize } else { 4usize })
    } else if purpose == "HS_CLIENT_INTRO"@ {
        Some(if full { 5usize } else { 4usize })
    } else if purpose == "HS_CLIENT_REND"@ {
        Some(if full { 4usize } else { 3usize })
    } else if purpose == "HS_SERVICE_HSDIR"@ {
        Some(4usize)
    } else if purpose == "HS_SERVICE_INTRO"@ {
        Some(4usize)
    } else if purpose == "HS_SERVICE_REND"@ {
        Some(if full { 5usize } else { 4usize })
    } else {
        None
    }
}

/// The number of hops that a circuit of `purpose` is to have.
pub fn routelen(full: bool, purpose: &str) -> (r: Option<usize>)
    ensures
        r == spec_routelen(full, purpose@),
{
    if purpose.eq("HS_VANGUARDS") {
        Some(if full { 4 } else { 3 })
    } else if purpose.eq("HS_CLIENT_HSDIR") {
        Some(if full { 5 } else { 4 })
    } else if purpose.eq("HS_CLIENT_INTRO") {
        Some(if full { 5 } else { 4 })
    } else if purpose.eq("HS_CLIENT_REND") {
        Some(if full { 4 } else { 3 })
    } else if purpose.eq("HS_SERVICE_HSDIR") {
        Some(4)
    } else if purpose.eq("HS_SERVICE_INTRO") {
        Some(4)
    } else if purpose.eq("HS_SERVICE_REND") {
        Some(if full { 5 } else { 4 })
    } else {
        None
    }
}

/// Uses of and connections to one first-hop guard.
#[derive(Debug, Clone, Copy, PartialEq, Eq, Structural)]
pub struct Layer1Stats {
    /// Circuits built over the guard.
    pub use_count: u32,
    /// Live connections to the guard.
    pub conn_count: u32,
}

impl Layer1Stats {
    /// The stats of a guard to which a first connection was made.
    pub fn new() -> (r: Self)
        ensures
            r == (Layer1Stats { use_count: 0, conn_count: 1 }),
    {
        Layer1Stats { use_count: 0, conn_count: 1 }
    }
}

/// The number of guards among `vals` over which a circuit was built.
pub open spec fn used_guards(vals: Seq<Layer1Stats>) -> nat
    decreases vals.len(),
{
    if vals.len() == 0 {
        0
    } else if vals.last().use_count > 0 {
        used_guards(vals.drop_last()) + 1
    } else {
        used_guards(vals.drop_last())
    }
}

/// The first-hop guards to which the daemon is connected.
#[derive(Debug, Clone)]
pub struct Layer1Guards {
    /// The stats of each guard, by fingerprint.
    pub guards: StrMap<Layer1Stats>,
    /// Number of first-hop guards that the daemon is to use.
    pub num_layer1: u8,
}

impl Layer1Guards {
    /// Whether a connection to guard `fp` can be counted within `u32`.
    pub open spec fn conn_fits(self, fp: Seq<char>) -> bool {
        self.guards@.contains_key(fp) ==> self.guards@[fp].conn_count < u32::MAX
    }

    /// Whether a use of guard `fp` can be counted within `u32`.
    pub open spec fn use_fits(self, fp: Seq<char>) -> bool {
        self.guards@.contains_key(fp) ==> self.guards@[fp].use_count < u32::MAX
    }

    /// The guards after a connection to `fp` was made.
    pub open spec fn with_conn(self, fp: Seq<char>) -> Map<Seq<char>, Layer1Stats> {
        if self.guards@.contains_key(fp) {
            self.guards@.insert(
                fp,
                Layer1Stats {
                    conn_count: (self.guards@[fp].conn_count + 1) as u32,
                    ..self.guards@[fp]
                },
            )
        } else {
            self.guards@.insert(fp, Layer1Stats { use_count: 0, conn_count: 1 })
        }
    }

    /// The guards after a connection to `fp` ended: the guard is forgotten
    /// with its last connection.
    pub open spec fn without_conn(self, fp: Seq<char>) -> Map<Seq<char>, Layer1Stats> {
        if !self.guards@.contains_key(fp) {
            self.guards@
        } else if self.guards@[fp].conn_count > 1 {
            self.guards@.insert(
                fp,
                Layer1Stats {
                    conn_count: (self.guards@[fp].conn_count - 1) as u32,
                    ..self.guards@[fp]
                },
            )
        } else {
            self.guards@.remove(fp)
        }
    }

    /// The guards after a circuit was built over `fp`.
    pub open spec fn with_use(self, fp: Seq<char>) -> Map<Seq<char>, Layer1Stats> {
        if self.guards@.contains_key(fp) {
            self.guards@.insert(
                fp,
                Layer1Stats {
                    use_count: (self.guards@[fp].use_count + 1) as u32,
                    ..self.guards@[fp]
                },
            )
        } else {
            self.guards@
        }
    }

    /// How the connections compare with the configuration: 1 where there
    /// are more guards than configured or more than one connection to a
    /// guard, else -1 where there are fewer guards than configured, else 0.
    pub open spec fn spec_conn_counts(self) -> i32 {
        if exists|i: int|
            0 <= i < self.guards.spec_values().len() && (#[trigger] self.guards.spec_values()[i]).conn_count
                > 1 {
            1
        } else if self.guards.spec_len() < self.num_layer1 {
            -1i32
        } else if self.guards.spec_len() > self.num_layer1 {
            1
        } else {
            0
        }
    }

    /// How the guards in use compare with the configuration: 1 where
    /// circuits were built over more guards than configured, -1 where over
    /// fewer, else 0.
    pub open spec fn spec_use_counts(self) -> i32 {
        let n = used_guards(self.guards.spec_values());
        if n > self.num_layer1 {
            1
        } else if n < self.num_layer1 {
            -1i32
        } else {
            0
        }
    }

    /// No guards, with `num_layer1` of them configured.
    pub fn new(num_layer1: u8) -> (r: Self)
        ensures
            r.guards@ == Map::<Seq<char>, Layer1Stats>::empty(),
            r.guards.spec_len() == 0,
            r.num_layer1 == num_layer1,
    {
        Layer1Guards { guards: StrMap::new(), num_layer1 }
    }

    /// Counts a connection to guard `guard_fp`.
    pub fn add_conn(&mut self, guard_fp: &str)
        requires
            old(self).conn_fits(guard_fp@),
        ensures
            final(self).guards@ == old(self).with_conn(guard_fp@),
            final(self).num_layer1 == old(self).num_layer1,
    {
        let ghost before = *self;
        match self.guards.position(guard_fp) {
            Some(i) => {
                proof {
                    before.guards.lemma_contains(guard_fp@);
                }
                let stats = self.guards.value_at_mut(i);
                stats.conn_count += 1;
                proof {
                    before.guards.lemma_update_at(
                        self.guards,
                        i as int,
                        self.guards.spec_values()[i as int],
                    );
                }
            },
            None => {
                self.guards.insert(String::from_str(guard_fp), Layer1Stats::new());
            },
        }
    }

    /// Takes a connection to guard `guard_fp` out of the count.
    pub fn del_conn(&mut self, guard_fp: &str)
        ensures
            final(self).guards@ == old(self).without_conn(guard_fp@),
            final(self).num_layer1 == old(self).num_layer1,
    {
        let ghost before = *self;
        match self.guards.position(guard_fp) {
            Some(i) => {
                proof {
                    before.guards.lemma_contains(guard_fp@);
                }
                if self.guards.value_at(i).conn_count > 1 {
                    let stats = self.guards.value_at_mut(i);
                    stats.conn_count -= 1;
                    proof {
                        before.guards.lemma_update_at(
                            self.guards,
                            i as int,
                            self.guards.spec_values()[i as int],
                        );
                    }
                } else {
                    self.guards.remove(guard_fp);
                }
            },
            None => {},
        }
    }

    /// How the connections compare with the configuration.
    pub fn check_conn_counts(&self) -> (r: i32)
        ensures
            r == self.spec_conn_counts(),
    {
        let n = self.guards.len();
        let mut i: usize = 0;
        while i < n
            invariant
                0 <= i <= n,
                n == self.guards.spec_len(),
                self.guards.wf(),
                forall|j: int| 0 <= j < i ==> (#[trigger] self.guards.spec_values()[j]).conn_count <= 1,
            decreases n - i,
        {
            if self.guards.value_at(i).conn_count > 1 {
                return 1;
            }
            i += 1;
        }
        if n < self.num_layer1 as usize {
            -1
        } else if n > self.num_layer1 as usize {
            1
        } else {
            0
        }
    }

    /// Counts a circuit built over guard `guard_fp`, and tells whether the
    /// daemon is connected to that guard.
    pub fn add_use_count(&mut self, guard_fp: &str) -> (known: bool)
        requires
            old(self).use_fits(guard_fp@),
        ensures
            final(self).guards@ == old(self).with_use(guard_fp@),
            final(self).guards.spec_keys() == old(self).guards.spec_keys(),
            final(self).num_layer1 == old(self).num_layer1,
            known == old(self).guards@.contains_key(guard_fp@),
    {
        let ghost before = *self;
        match self.guards.position(guard_fp) {
            Some(i) => {
                proof {
                    before.guards.lemma_contains(guard_fp@);
                }
                let stats = self.guards.value_at_mut(i);
                stats.use_count += 1;
                proof {
                    before.guards.lemma_update_at(
                        self.guards,
                        i as int,
                        self.guards.spec_values()[i as int],
                    );
                }
                true
            },
            None => false,
        }
    }

    /// How the guards in use compare with the configuration.
    pub fn check_use_counts(&self) -> (r: i32)
        ensures
            r == self.spec_use_counts(),
    {
        let n = self.guards.len();
        let mut in_use: usize = 0;
        let mut i: usize = 0;
        proof {
            assert(self.guards.spec_values().take(0) =~= Seq::<Layer1Stats>::empty());
        }
        while i < n
            invariant
                0 <= i <= n,
                n == self.guards.spec_len(),
                self.guards.wf(),
                in_use == used_guards(self.guards.spec_values().take(i as int)),
                in_use <= i,
            decreases n - i,
        {
            proof {
                assert(self.guards.spec_values().take(i + 1).drop_last()
                    =~= self.guards.spec_values().take(i as int));
            }
            if self.guards.value_at(i).use_count > 0 {
                in_use += 1;
            }
            i += 1;
        }
        proof {
            assert(self.guards.spec_values().take(n as int) =~= self.guards.spec_values());
        }
        if in_use > self.num_layer1 as usize {
            1
        } else if in_use < self.num_layer1 as usize {
            -1
        } else {
            0
        }
    }

    /// Whether the daemon is connected to guard `guard_fp`.
    pub fn contains(&self, guard_fp: &str) -> (r: bool)
        ensures
            r == self.guards@.contains_key(guard_fp@),
    {
        self.guards.contains_key(guard_fp)
    }
}

/// The entries of a comma-separated list, each without the white space
/// around it.
pub open spec fn listed(line: Seq<char>) -> Set<Seq<char>> {
    Set::new(
        |k: Seq<char>|
            exists|i: int|
                0 <= i < spec_split(line, ',').len() && spec_trim(
                    #[trigger] spec_split(line, ',')[i],
                ) == k,
    )
}

/// The set of the entries of the comma-separated list `line`.
pub fn parse_list(line: &str) -> (r: StrSet)
    ensures
        r@ == listed(line@),
        r.spec_len() > 0,
{
    let v = chars_of(line);
    let parts = split(&v, ',');
    let ghost all = spec_split(line@, ',');
    let mut out = StrSet::new();
    let mut i: usize = 0;
    proof {
        crate::text::lemma_split_nonempty(line@, ',');
    }
    while i < parts.len()
        invariant
            0 <= i <= parts@.len(),
            views(parts@) == all,
            all == spec_split(line@, ','),
            forall|k: Seq<char>|
                out@.contains(k) <==> exists|j: int| 0 <= j < i && spec_trim(#[trigger] all[j]) == k,
            i > 0 ==> out.spec_len() > 0,
        decreases parts@.len() - i,
    {
        let t = trim(&parts[i]);
        let ghost before = out@;
        let ghost n0 = out.spec_len();
        out.insert(string_of(&t));
        proof {
            assert(all[i as int] == parts@[i as int]@);
            assert forall|k: Seq<char>| out@.contains(k) <==> exists|j: int|
                0 <= j < i + 1 && spec_trim(#[trigger] all[j]) == k by {
                if out@.contains(k) {
                    if before.contains(k) {
                        let j = choose|j: int| 0 <= j < i && spec_trim(#[trigger] all[j]) == k;
                        assert(0 <= j < i + 1 && spec_trim(all[j]) == k);
                    } else {
                        assert(spec_trim(all[i as int]) == k);
                    }
                }
                if exists|j: int| 0 <= j < i + 1 && spec_trim(#[trigger] all[j]) == k {
                    let j = choose|j: int| 0 <= j < i + 1 && spec_trim(#[trigger] all[j]) == k;
                    if j < i {
                        assert(before.contains(k));
                    }
                }
            }
            assert(out.spec_elems().len() >= 1) by {
                if out.spec_elems().len() == 0 {
                    assert(out@.contains(t@));
                    assert(out.spec_elems().contains(t@));
                }
            }
        }
        i += 1;
    }
    proof {
        assert(out@ =~= listed(line@));
    }
    out
}

/// Something about a circuit's path that does not fit the guard layers.
#[derive(Debug, Clone, Copy, PartialEq, Eq, Structural)]
pub enum PathIssue {
    /// The path has `actual` hops where `expected` were expected. `benign`
    /// tells that the state of the circuit explains it.
    PathLength { actual: usize, expected: usize, benign: bool },
    /// The first hop is not a guard to which the daemon is connected.
    Layer1Unknown,
    /// Circuits are in use over more guards than configured.
    TooManyGuardsInUse,
    /// Circuits are in use over fewer guards than configured.
    TooFewGuardsInUse,
    /// The second hop is not in the second layer.
    Layer2Unknown,
    /// The third hop is not in the third layer.
    Layer3Unknown,
    /// The second layer does not hold as many guards as configured.
    Layer2Count,
    /// The third layer does not hold as many guards as configured.
    Layer3Count,
    /// A circuit of another use turned into one of an onion service.
    BecameHs,
    /// A circuit of an onion service turned into one of another use.
    LeftHs,
}

/// What the verifier knows of the daemon's guards.
#[derive(Debug, Clone)]
pub struct PathVerify {
    /// The first-hop guards.
    pub layer1: Layer1Guards,
    /// The second layer.
    pub layer2: StrSet,
    /// The third layer.
    pub layer3: StrSet,
    /// Whether full guard layers are in force, rather than the daemon's
    /// own lite ones.
    pub full_vanguards: bool,
    /// Number of first-hop guards configured.
    pub num_layer1: u8,
    /// Size of the second layer configured.
    pub num_layer2: u8,
    /// Size of the third layer configured.
    pub num_layer3: u8,
}

/// The fingerprint of hop `i` of a path.
pub open spec fn hop(path: Seq<(String, Option<String>)>, i: int) -> Seq<char> {
    path[i].0@
}

/// The fingerprints of the hops of a path.
pub open spec fn hop_fps(path: Seq<(String, Option<String>)>) -> Seq<Seq<char>> {
    Seq::new(path.len(), |i: int| path[i].0@)
}

impl PathVerify {
    /// Whether each layer that holds more than one guard holds as many as
    /// configured.
    pub open spec fn spec_layer_counts(self) -> bool {
        &&& !(self.layer2.spec_len() > 1 && self.layer2.spec_len() != self.num_layer2)
        &&& !(self.layer3.spec_len() > 1 && self.layer3.spec_len() != self.num_layer3)
    }

    /// What a built circuit of an onion service shows amiss, in the order
    /// of the checks: the length of the path, the first hop and the guards
    /// in use, the second hop, the third hop, the sizes of the layers.
    /// `after_use` is how the guards in use compare with the configuration
    /// once the circuit is counted.
    pub open spec fn spec_circ_issues(
        self,
        purpose: Seq<char>,
        hs_state: Option<Seq<char>>,
        path: Seq<Seq<char>>,
        after_use: i32,
    ) -> Seq<PathIssue> {
        let expected = spec_routelen(self.full_vanguards, purpose);
        let benign = (purpose == "HS_SERVICE_HSDIR"@ && hs_state == Some("HSSI_CONNECTING"@)) || (
        purpose == "HS_CLIENT_INTRO"@ && hs_state == Some("HSCI_CONNECTING"@));
        let s0 = Seq::<PathIssue>::empty();
        let s1 = if expected is Some && path.len() != expected->0 {
            s0.push(PathIssue::PathLength { actual: path.len() as usize, expected: expected->0, benign })
        } else {
            s0
        };
        let s2 = if path.len() > 0 && !self.layer1.guards@.contains_key(path[0]) {
            s1.push(PathIssue::Layer1Unknown)
        } else {
            s1
        };
        let s3 = if path.len() > 0 && after_use > 0 {
            s2.push(PathIssue::TooManyGuardsInUse)
        } else if path.len() > 0 && after_use < 0 {
            s2.push(PathIssue::TooFewGuardsInUse)
        } else {
            s2
        };
        let s4 = if path.len() > 1 && !self.layer2@.contains(path[1]) {
            s3.push(PathIssue::Layer2Unknown)
        } else {
            s3
        };
        let s5 = if self.num_layer3 > 0 && path.len() > 2 && !self.layer3@.contains(path[2]) {
            s4.push(PathIssue::Layer3Unknown)
        } else {
            s4
        };
        let s6 = if self.layer2.spec_len() != self.num_layer2 {
            s5.push(PathIssue::Layer2Count)
        } else {
            s5
        };
        if self.layer3.spec_len() != self.num_layer3 {
            s6.push(PathIssue::Layer3Count)
        } else {
            s6
        }
    }

    /// What a change of purpose shows amiss: a switch between a use for an
    /// onion service and another use, unless the new purpose is padding,
    /// the measuring of timeouts or the testing of path bias, and, where
    /// either purpose is of an onion service, hops outside the layers.
    pub open spec fn spec_minor_issues(
        self,
        purpose: Seq<char>,
        old_purpose: Option<Seq<char>>,
        path: Seq<Seq<char>>,
    ) -> Seq<PathIssue> {
        let is_hs = "HS_"@.is_prefix_of(purpose);
        let was_hs = old_purpose is Some && "HS_"@.is_prefix_of(old_purpose->0);
        let s0 = Seq::<PathIssue>::empty();
        let s1 = if is_hs && !was_hs {
            s0.push(PathIssue::BecameHs)
        } else if !is_hs && was_hs && purpose != "CIRCUIT_PADDING"@ && purpose
            != "MEASURE_TIMEOUT"@ && purpose != "PATH_BIAS_TESTING"@ {
            s0.push(PathIssue::LeftHs)
        } else {
            s0
        };
        let either = is_hs || was_hs;
        let s2 = if either && path.len() > 0 && !self.layer1.guards@.contains_key(path[0]) {
            s1.push(PathIssue::Layer1Unknown)
        } else {
            s1
        };
        let s3 = if either && path.len() > 1 && !self.layer2@.contains(path[1]) {
            s2.push(PathIssue::Layer2Unknown)
        } else {
            s2
        };
        if either && self.num_layer3 > 0 && path.len() > 2 && !self.layer3@.contains(path[2]) {
            s3.push(PathIssue::Layer3Unknown)
        } else {
            s3
        }
    }

    /// A verifier without guards.
    pub fn new(full_vanguards: bool, num_layer1: u8, num_layer2: u8, num_layer3: u8) -> (r: Self)
        ensures
            r.layer1.guards@ == Map::<Seq<char>, Layer1Stats>::empty(),
            r.layer1.num_layer1 == num_layer1,
            r.layer2@ == Set::<Seq<char>>::empty(),
            r.layer3@ == Set::<Seq<char>>::empty(),
            r.full_vanguards == full_vanguards,
            r.num_layer1 == num_layer1,
            r.num_layer2 == num_layer2,
            r.num_layer3 == num_layer3,
    {
        PathVerify {
            layer1: Layer1Guards::new(num_layer1),
            layer2: StrSet::new(),
            layer3: StrSet::new(),
            full_vanguards,
            num_layer1,
            num_layer2,
            num_layer3,
        }
    }

    /// Takes in the layers that the daemon is configured with, each a
    /// comma-separated list of fingerprints. A list that is present and not
    /// empty replaces the layer and shows that full guard layers are in
    /// force. Where no layer holds a guard and full layers are not in
    /// force, the sizes are set to those of the daemon's lite layers: one
    /// first-hop guard, four second-layer guards, no third layer. The
    /// result tells whether the layers hold as many guards as configured.
    pub fn init_layers(&mut self, layer2_nodes: Option<&str>, layer3_nodes: Option<&str>) -> (r:
        bool)
        ensures
            ({
                let set2 = layer2_nodes is Some && layer2_nodes->0@.len() > 0;
                let set3 = layer3_nodes is Some && layer3_nodes->0@.len() > 0;
                let lite = !set2 && !set3 && old(self).layer2.spec_len() == 0 && old(
                    self,
                ).layer3.spec_len() == 0 && !old(self).full_vanguards;
                &&& final(self).layer2@ == (if set2 {
                    listed(layer2_nodes->0@)
                } else {
                    old(self).layer2@
                })
                &&& final(self).layer3@ == (if set3 {
                    listed(layer3_nodes->0@)
                } else {
                    old(self).layer3@
                })
                &&& final(self).full_vanguards == (old(self).full_vanguards || set2 || set3)
                &&& final(self).num_layer1 == (if lite {
                    1
                } else {
                    old(self).num_layer1
                })
                &&& final(self).num_layer2 == (if lite {
                    4
                } else {
                    old(self).num_layer2
                })
                &&& final(self).num_layer3 == (if lite {
                    0
                } else {
                    old(self).num_layer3
                })
            }),
            final(self).layer1 == old(self).layer1,
            r == final(self).spec_layer_counts(),
    {
        if let Some(nodes) = layer2_nodes {
            if !nodes.is_empty() {
                self.layer2 = parse_list(nodes);
                self.full_vanguards = true;
            }
        }
        if let Some(nodes) = layer3_nodes {
            if !nodes.is_empty() {
                self.layer3 = parse_list(nodes);
                self.full_vanguards = true;
            }
        }
        if self.layer2.is_empty() && self.layer3.is_empty() && !self.full_vanguards {
            self.num_layer1 = 1;
            self.num_layer2 = 4;
            self.num_layer3 = 0;
        }
        self.check_layer_counts()
    }

    /// Whether each layer that holds more than one guard holds as many as
    /// configured.
    pub fn check_layer_counts(&self) -> (r: bool)
        ensures
            r == self.spec_layer_counts(),
    {
        let n2 = self.layer2.len();
        let n3 = self.layer3.len();
        !(n2 > 1 && n2 != self.num_layer2 as usize) && !(n3 > 1 && n3 != self.num_layer3 as usize)
    }

    /// Takes in a change of the daemon's configuration: the first value of
    /// `HSLayer2Nodes` or of `HSLayer3Nodes` replaces the layer and shows
    /// that full guard layers are in force. The result tells whether the
    /// layers hold as many guards as configured.
    pub fn conf_changed_event(&mut self, changed: &StrMap<Vec<String>>) -> (r: bool)
        ensures
            ({
                let set2 = changed@.contains_key("HSLayer2Nodes"@) && changed@["HSLayer2Nodes"@]@.len()
                    > 0;
                let set3 = changed@.contains_key("HSLayer3Nodes"@) && changed@["HSLayer3Nodes"@]@.len()
                    > 0;
                &&& final(self).layer2@ == (if set2 {
                    listed(changed@["HSLayer2Nodes"@]@[0]@)
                } else {
                    old(self).layer2@
                })
                &&& final(self).layer3@ == (if set3 {
                    listed(changed@["HSLayer3Nodes"@]@[0]@)
                } else {
                    old(self).layer3@
                })
                &&& final(self).full_vanguards == (old(self).full_vanguards || set2 || set3)
            }),
            final(self).layer1 == old(self).layer1,
            final(self).num_layer1 == old(self).num_layer1,
            final(self).num_layer2 == old(self).num_layer2,
            final(self).num_layer3 == old(self).num_layer3,
            r == final(self).spec_layer_counts(),
    {
        if let Some(values) = changed.get("HSLayer2Nodes") {
            if values.len() > 0 {
                self.layer2 = parse_list(values[0].as_str());
                self.full_vanguards = true;
            }
        }
        if let Some(values) = changed.get("HSLayer3Nodes") {
            if values.len() > 0 {
                self.layer3 = parse_list(values[0].as_str());
                self.full_vanguards = true;
            }
        }
        self.check_layer_counts()
    }

    /// Takes in a connection event for guard `guard_fp`: `CONNECTED` counts
    /// a connection, `CLOSED` and `FAILED` take one out of the count. The
    /// result tells how the connections then compare with the
    /// configuration.
    pub fn orconn_event(&mut self, guard_fp: &str, status: &str) -> (r: i32)
        requires
            status@ == "CONNECTED"@ ==> old(self).layer1.conn_fits(guard_fp@),
        ensures
            final(self).layer1.guards@ == (if status@ == "CONNECTED"@ {
                old(self).layer1.with_conn(guard_fp@)
            } else if status@ == "CLOSED"@ || status@ == "FAILED"@ {
                old(self).layer1.without_conn(guard_fp@)
            } else {
                old(self).layer1.guards@
            }),
            r == final(self).layer1.spec_conn_counts(),
            final(self).layer1.num_layer1 == old(self).layer1.num_layer1,
            final(self).layer2 == old(self).layer2,
            final(self).layer3 == old(self).layer3,
            final(self).full_vanguards == old(self).full_vanguards,
            final(self).num_layer1 == old(self).num_layer1,
            final(self).num_layer2 == old(self).num_layer2,
            final(self).num_layer3 == old(self).num_layer3,
    {
        if status.eq("CONNECTED") {
            self.layer1.add_conn(guard_fp);
        } else if status.eq("CLOSED") || status.eq("FAILED") {
            self.layer1.del_conn(guard_fp);
        }
        self.layer1.check_conn_counts()
    }

    /// Takes in the daemon's verdict on a second-layer guard: `GOOD_L2`
    /// adds it to the second layer, `BAD_L2` removes it.
    pub fn guard_event(&mut self, guard_fp: &str, status: &str)
        ensures
            final(self).layer2@ == (if status@ == "GOOD_L2"@ {
                old(self).layer2@.insert(guard_fp@)
            } else if status@ == "BAD_L2"@ {
                old(self).layer2@.remove(guard_fp@)
            } else {
                old(self).layer2@
            }),
            final(self).layer1 == old(self).layer1,
            final(self).layer3 == old(self).layer3,
            final(self).full_vanguards == old(self).full_vanguards,
            final(self).num_layer1 == old(self).num_layer1,
            final(self).num_layer2 == old(self).num_layer2,
            final(self).num_layer3 == old(self).num_layer3,
    {
        if status.eq("GOOD_L2") {
            self.layer2.insert(String::from_str(guard_fp));
        } else if status.eq("BAD_L2") {
            self.layer2.remove(guard_fp);
        }
    }

    /// The number of hops that a circuit of `purpose` is to have.
    pub fn routelen_for_purpose(&self, purpose: &str) -> (r: Option<usize>)
        ensures
            r == spec_routelen(self.full_vanguards, purpose@),
    {
        routelen(self.full_vanguards, purpose)
    }

    /// Whether `status` reports a built circuit of an onion service.
    pub open spec fn checks_circ(status: Seq<char>, purpose: Seq<char>) -> bool {
        "HS_"@.is_prefix_of(purpose) && (status == "BUILT"@ || status == "GUARD_WAIT"@)
    }

    /// Takes in a circuit event. A built circuit of an onion service is
    /// counted for its first hop and checked against the layers; the
    /// result lists what is amiss. Any other event changes nothing.
    pub fn circ_event(
        &mut self,
        _circ_id: &str,
        status: &str,
        purpose: &str,
        hs_state: Option<&str>,
        path: &[(String, Option<String>)],
    ) -> (r: Vec<PathIssue>)
        requires
            Self::checks_circ(status@, purpose@) && path@.len() > 0 ==> old(self).layer1.use_fits(
                hop(path@, 0),
            ),
        ensures
            final(self).layer1.guards@ == (if Self::checks_circ(status@, purpose@) && path@.len()
                > 0 {
                old(self).layer1.with_use(hop(path@, 0))
            } else {
                old(self).layer1.guards@
            }),
            r@ == (if Self::checks_circ(status@, purpose@) {
                old(self).spec_circ_issues(
                    purpose@,
                    opt_str_view(hs_state),
                    hop_fps(path@),
                    final(self).layer1.spec_use_counts(),
                )
            } else {
                Seq::<PathIssue>::empty()
            }),
            final(self).layer1.num_layer1 == old(self).layer1.num_layer1,
            final(self).layer2 == old(self).layer2,
            final(self).layer3 == old(self).layer3,
            final(self).full_vanguards == old(self).full_vanguards,
            final(self).num_layer1 == old(self).num_layer1,
            final(self).num_layer2 == old(self).num_layer2,
            final(self).num_layer3 == old(self).num_layer3,
    {
        let mut out: Vec<PathIssue> = Vec::new();
        if !starts_with(purpose, "HS_") {
            return out;
        }
        if !status.eq("BUILT") && !status.eq("GUARD_WAIT") {
            return out;
        }
        if let Some(expected) = self.routelen_for_purpose(purpose) {
            if path.len() != expected {
                let connecting_service = match hs_state {
                    Some(s) => s.eq("HSSI_CONNECTING"),
                    None => false,
                };
                let connecting_client = match hs_state {
                    Some(s) => s.eq("HSCI_CONNECTING"),
                    None => false,
                };
                let benign = (purpose.eq("HS_SERVICE_HSDIR") && connecting_service) || (purpose.eq(
                    "HS_CLIENT_INTRO",
                ) && connecting_client);
                out.push(PathIssue::PathLength { actual: path.len(), expected, benign });
            }
        }
        if path.len() > 0 {
            let known = self.layer1.add_use_count(path[0].0.as_str());
            if !known {
                out.push(PathIssue::Layer1Unknown);
            }
            let verdict = self.layer1.check_use_counts();
            if verdict > 0 {
                out.push(PathIssue::TooManyGuardsInUse);
            } else if verdict < 0 {
                out.push(PathIssue::TooFewGuardsInUse);
            }
        }
        if path.len() > 1 && !self.layer2.contains(path[1].0.as_str()) {
            out.push(PathIssue::Layer2Unknown);
        }
        if self.num_layer3 > 0 && path.len() > 2 && !self.layer3.contains(path[2].0.as_str()) {
            out.push(PathIssue::Layer3Unknown);
        }
        if self.layer2.len() != self.num_layer2 as usize {
            out.push(PathIssue::Layer2Count);
        }
        if self.layer3.len() != self.num_layer3 as usize {
            out.push(PathIssue::Layer3Count);
        }
        out
    }

    /// Takes in a change of purpose of a circuit and lists what it shows
    /// amiss.
    pub fn circ_minor_event(
        &self,
        _circ_id: &str,
        purpose: &str,
        old_purpose: Option<&str>,
        path: &[(String, Option<String>)],
    ) -> (r: Vec<PathIssue>)
        ensures
            r@ == self.spec_minor_issues(purpose@, opt_str_view(old_purpose), hop_fps(path@)),
    {
        let mut out: Vec<PathIssue> = Vec::new();
        let is_hs = starts_with(purpose, "HS_");
        let was_hs = match old_purpose {
            Some(p) => starts_with(p, "HS_"),
            None => false,
        };
        if is_hs && !was_hs {
            out.push(PathIssue::BecameHs);
        } else if !is_hs && was_hs {
            if !purpose.eq("CIRCUIT_PADDING") && !purpose.eq("MEASURE_TIMEOUT") && !purpose.eq(
                "PATH_BIAS_TESTING",
            ) {
                out.push(PathIssue::LeftHs);
            }
        }
        if is_hs || was_hs {
            if path.len() > 0 && !self.layer1.contains(path[0].0.as_str()) {
                out.push(PathIssue::Layer1Unknown);
            }
            if path.len() > 1 && !self.layer2.contains(path[1].0.as_str()) {
                out.push(PathIssue::Layer2Unknown);
            }
            if self.num_layer3 > 0 && path.len() > 2 && !self.layer3.contains(path[2].0.as_str()) {
                out.push(PathIssue::Layer3Unknown);
            }
        }
        out
    }
}

} // verus!
