//! The guard layers, the counts of rendezvous-point uses, and the relays
//! that the operator excludes.
//!
//! Times are milliseconds since the Unix epoch. Shares and ratios are in
//! fixed point, in units of one billionth.

use crate::clock::now_millis;
use crate::config::{RendguardConfig, VanguardsConfig, FIXED_ONE};
use crate::error::Error;
use crate::random::random_in;
use crate::ipnet::{network_of, parsed_network, IpAddress, IpNet};
use crate::node_selection::{
    is_valid_country_code, is_valid_fingerprint, lemma_pick_in_range, spec_pick,
    spec_valid_country_code, spec_valid_fingerprint, BwWeightedGenerator, Router, RouterView,
};
use crate::strmap::{StrMap, StrSet};
use crate::text::{
    ascii_lower, ascii_upper, chars_of, concat, find_char, first_index, has_char, slice_of,
    spec_split, spec_trim, split, string_of, string_of_range, to_lower, to_upper, trim, views,
};
use vstd::prelude::*;

verus! {

/// Milliseconds in an hour.
pub const MILLIS_PER_HOUR: u64 = 3_600_000;

/// A relay chosen for a guard layer.
#[derive(Debug, Clone, PartialEq)]
pub struct GuardNode {
    /// The relay's fingerprint.
    pub idhex: String,
    /// When the relay was chosen.
    pub chosen_at: u64,
    /// When the relay is to be replaced.
    pub expires_at: u64,
}

impl GuardNode {
    /// A guard with the given fingerprint and times.
    pub fn new(idhex: String, chosen_at: u64, expires_at: u64) -> (r: Self)
        ensures
            r.idhex == idhex,
            r.chosen_at == chosen_at,
            r.expires_at == expires_at,
    {
        GuardNode { idhex, chosen_at, expires_at }
    }

    /// Whether the guard is expired at `now`: its time of expiry is reached.
    pub open spec fn spec_is_expired(self, now: u64) -> bool {
        now >= self.expires_at
    }

    /// Whether the guard is expired at `now`.
    pub fn is_expired_at(&self, now: u64) -> (r: bool)
        ensures
            r == self.spec_is_expired(now),
    {
        now >= self.expires_at
    }

    /// Whether the guard is expired now, by the system clock.
    pub fn is_expired(&self) -> (r: bool)
        ensures
            exists|now: u64| r == #[trigger] self.spec_is_expired(now),
    {
        let now = now_millis();
        self.is_expired_at(now)
    }
}

/// How often a relay served as rendezvous point, and the share of uses that
/// its bandwidth predicts.
#[derive(Debug, Clone, PartialEq)]
pub struct RendUseCount {
    /// The relay's fingerprint.
    pub idhex: String,
    /// Number of uses, in fixed point, so that halving keeps the halves.
    pub used: u64,
    /// Expected share of all uses, in fixed point.
    pub weight: u64,
}

/// The mathematical content of a [`RendUseCount`].
pub ghost struct UseView {
    pub idhex: Seq<char>,
    pub used: u64,
    pub weight: u64,
}

impl View for RendUseCount {
    type V = UseView;

    open spec fn view(&self) -> UseView {
        UseView { idhex: self.idhex@, used: self.used, weight: self.weight }
    }
}

impl UseView {
    /// The count with its uses halved, rounding down.
    pub open spec fn halved(self) -> UseView {
        UseView { used: self.used / 2, ..self }
    }

    /// The count with one more use.
    pub open spec fn bumped(self) -> UseView {
        UseView { used: (self.used + FIXED_ONE) as u64, ..self }
    }

    /// Whether a relay with this count is overused among `total` uses: the
    /// total has reached the global start count, the relay's uses have
    /// reached the relay start count, and the relay's share of the uses
    /// exceeds its expected share times the tolerated ratio.
    pub open spec fn overused(self, total: u64, config: RendguardConfig) -> bool {
        &&& total >= config.use_global_start_count * FIXED_ONE
        &&& self.used >= config.use_relay_start_count * FIXED_ONE
        &&& self.used * FIXED_ONE * FIXED_ONE > self.weight * config.use_max_use_to_bw_ratio * total
    }
}

impl RendUseCount {
    /// A count of no uses for a relay with the expected share `weight`.
    pub fn new(idhex: String, weight: u64) -> (r: Self)
        ensures
            r@ == (UseView { idhex: idhex@, used: 0, weight }),
    {
        RendUseCount { idhex, used: 0, weight }
    }

    /// Whether the relay is overused among `total` uses.
    pub fn is_overused(&self, total: u64, config: &RendguardConfig) -> (r: bool)
        ensures
            r == self@.overused(total, *config),
    {
        if (total as u128) < config.use_global_start_count as u128 * (FIXED_ONE as u128) {
            return false;
        }
        if (self.used as u128) < config.use_relay_start_count as u128 * (FIXED_ONE as u128) {
            return false;
        }
        assert(self.used * FIXED_ONE <= 0xffff_ffff_ffff_ffff * 1_000_000_000) by (nonlinear_arith)
            requires
                self.used <= 0xffff_ffff_ffff_ffff,
                FIXED_ONE == 1_000_000_000,
        ;
        assert(self.used * FIXED_ONE * FIXED_ONE <= 0xffff_ffff_ffff_ffff * 1_000_000_000
            * 1_000_000_000) by (nonlinear_arith)
            requires
                self.used * FIXED_ONE <= 0xffff_ffff_ffff_ffff * 1_000_000_000,
                FIXED_ONE == 1_000_000_000,
        ;
        let share: u128 = self.used as u128 * (FIXED_ONE as u128) * (FIXED_ONE as u128);
        assert(self.weight * config.use_max_use_to_bw_ratio <= 0xffff_ffff_ffff_ffff
            * 0xffff_ffff_ffff_ffff) by (nonlinear_arith)
            requires
                self.weight <= 0xffff_ffff_ffff_ffff,
                config.use_max_use_to_bw_ratio <= 0xffff_ffff_ffff_ffff,
        ;
        let allowed: u128 = self.weight as u128 * (config.use_max_use_to_bw_ratio as u128);
        match allowed.checked_mul(total as u128) {
            Some(bound) => share > bound,
            None => false,
        }
    }
}

/// The sum of the uses of `vals`.
pub open spec fn sum_used(vals: Seq<RendUseCount>) -> int
    decreases vals.len(),
{
    if vals.len() == 0 {
        0
    } else {
        sum_used(vals.drop_last()) + vals.last().used
    }
}

/// Replacing one count changes the sum by the difference of the uses.
pub proof fn lemma_sum_update(vals: Seq<RendUseCount>, i: int, v: RendUseCount)
    requires
        0 <= i < vals.len(),
    ensures
        sum_used(vals.update(i, v)) == sum_used(vals) - vals[i].used + v.used,
    decreases vals.len(),
{
    if i == vals.len() - 1 {
        assert(vals.update(i, v).drop_last() =~= vals.drop_last());
    } else {
        lemma_sum_update(vals.drop_last(), i, v);
        assert(vals.update(i, v).drop_last() =~= vals.drop_last().update(i, v));
    }
}

/// The sum over a prefix is at most the sum over the whole, and at least 0.
pub proof fn lemma_sum_prefix(vals: Seq<RendUseCount>, k: int)
    requires
        0 <= k <= vals.len(),
    ensures
        0 <= sum_used(vals.take(k)) <= sum_used(vals),
    decreases vals.len() - k,
{
    if k < vals.len() {
        lemma_sum_prefix(vals, k + 1);
        lemma_sum_nonneg(vals.take(k));
        assert(vals.take(k + 1).drop_last() =~= vals.take(k));
    } else {
        assert(vals.take(k) =~= vals);
        lemma_sum_nonneg(vals);
    }
}

/// A sum of uses is at least 0.
pub proof fn lemma_sum_nonneg(vals: Seq<RendUseCount>)
    ensures
        0 <= sum_used(vals),
    decreases vals.len(),
{
    if vals.len() > 0 {
        lemma_sum_nonneg(vals.drop_last());
    }
}

/// The counts of rendezvous-point uses, per relay and in total.
#[derive(Debug, Clone)]
pub struct RendGuard {
    /// The count of each relay of the consensus, by fingerprint, and of the
    /// relays outside it together, under `NOT_IN_CONSENSUS`.
    pub use_counts: StrMap<RendUseCount>,
    /// The number of all uses, in fixed point.
    pub total_use_counts: u64,
    /// Revision of the persisted form.
    pub pickle_revision: u32,
}

impl RendGuard {
    /// The count of each relay.
    pub open spec fn counts(self) -> Map<Seq<char>, UseView> {
        self.use_counts@.map_values(|c: RendUseCount| c@)
    }

    /// The total is the sum of the relays' uses.
    pub open spec fn wf(self) -> bool {
        self.total_use_counts == sum_used(self.use_counts.spec_values())
    }

    /// The key under which a use of `fingerprint` is counted: the
    /// fingerprint where it has a count, `NOT_IN_CONSENSUS` otherwise.
    pub open spec fn target(self, fingerprint: Seq<char>) -> Seq<char> {
        if self.counts().contains_key(fingerprint) {
            fingerprint
        } else {
            "NOT_IN_CONSENSUS"@
        }
    }

    /// The counts in which a use of `fingerprint` is counted: the counts as
    /// they are where the relay has a count, and else the counts with an
    /// entry for the relays outside the consensus, made with no uses and
    /// no expected share if need be.
    pub open spec fn counts_for(self, fingerprint: Seq<char>) -> Map<Seq<char>, UseView> {
        if self.counts().contains_key(fingerprint) || self.counts().contains_key(
            "NOT_IN_CONSENSUS"@,
        ) {
            self.counts()
        } else {
            self.counts().insert(
                "NOT_IN_CONSENSUS"@,
                UseView { idhex: "NOT_IN_CONSENSUS"@, used: 0, weight: 0 },
            )
        }
    }

    /// Whether `fingerprint` is overused: it has a count, and the count is
    /// overused among the total.
    pub open spec fn spec_is_overused(self, fingerprint: Seq<char>, config: RendguardConfig) -> bool {
        self.counts().contains_key(fingerprint) && self.counts()[fingerprint].overused(
            self.total_use_counts,
            config,
        )
    }

    /// The relay's share of all uses in percent, in fixed point, rounded
    /// down; 0 where nothing was used or the relay has no count.
    pub open spec fn spec_usage_rate(self, fingerprint: Seq<char>) -> int {
        if self.total_use_counts == 0 || !self.counts().contains_key(fingerprint) {
            0
        } else {
            100 * self.counts()[fingerprint].used * FIXED_ONE / (self.total_use_counts as int)
        }
    }

    /// The relay's expected share of all uses in percent, in fixed point; 0
    /// where the relay has no count.
    pub open spec fn spec_expected_weight(self, fingerprint: Seq<char>) -> int {
        if !self.counts().contains_key(fingerprint) {
            0
        } else {
            100 * self.counts()[fingerprint].weight
        }
    }

    /// Counts of nothing.
    pub fn new() -> (r: Self)
        ensures
            r.counts() == Map::<Seq<char>, UseView>::empty(),
            r.total_use_counts == 0,
            r.pickle_revision == 1,
            r.wf(),
    {
        let r = RendGuard { use_counts: StrMap::new(), total_use_counts: 0, pickle_revision: 1 };
        assert(r.counts() =~= Map::<Seq<char>, UseView>::empty());
        r
    }

    /// Whether `fingerprint` is overused.
    pub fn is_overused(&self, fingerprint: &str, config: &RendguardConfig) -> (r: bool)
        ensures
            r == self.spec_is_overused(fingerprint@, *config),
    {
        match self.use_counts.get(fingerprint) {
            Some(count) => count.is_overused(self.total_use_counts, config),
            None => false,
        }
    }

    /// The relay's share of all uses in percent, in fixed point.
    pub fn usage_rate(&self, fingerprint: &str) -> (r: u128)
        ensures
            r == self.spec_usage_rate(fingerprint@),
    {
        if self.total_use_counts == 0 {
            return 0;
        }
        match self.use_counts.get(fingerprint) {
            Some(count) => {
                assert(100 * count.used * FIXED_ONE <= 100 * 0xffff_ffff_ffff_ffff * 1_000_000_000)
                    by (nonlinear_arith)
                    requires
                        count.used <= 0xffff_ffff_ffff_ffff,
                        FIXED_ONE == 1_000_000_000,
                ;
                100 * (count.used as u128) * (FIXED_ONE as u128) / (self.total_use_counts as u128)
            },
            None => 0,
        }
    }

    /// The relay's expected share of all uses in percent, in fixed point.
    pub fn expected_weight(&self, fingerprint: &str) -> (r: u128)
        ensures
            r == self.spec_expected_weight(fingerprint@),
    {
        match self.use_counts.get(fingerprint) {
            Some(count) => 100 * (count.weight as u128),
            None => 0,
        }
    }
}

impl RendGuard {
    /// Whether a use of `fingerprint` can be counted without a counter
    /// leaving `u64`.
    pub open spec fn use_fits(self, fingerprint: Seq<char>) -> bool {
        &&& self.total_use_counts + FIXED_ONE <= u64::MAX
        &&& self.counts_for(fingerprint)[self.target(fingerprint)].used + FIXED_ONE <= u64::MAX
    }

    /// Whether a use of `fingerprint` can be counted without a counter
    /// leaving `u64`.
    pub fn valid_rend_use_fits(&self, fingerprint: &str) -> (r: bool)
        ensures
            r == self.use_fits(fingerprint@),
    {
        if self.total_use_counts > u64::MAX - FIXED_ONE {
            return false;
        }
        match self.use_counts.get(fingerprint) {
            Some(count) => count.used <= u64::MAX - FIXED_ONE,
            None => match self.use_counts.get("NOT_IN_CONSENSUS") {
                Some(count) => count.used <= u64::MAX - FIXED_ONE,
                None => true,
            },
        }
    }

    /// Counts one use of `fingerprint` as rendezvous point, under
    /// `NOT_IN_CONSENSUS` where the relay has no count of its own, and tells
    /// whether the use is valid: whether the relay under which it was
    /// counted is not overused after it. A use is valid in any case while,
    /// counted in, the total of uses is below the global start count or the
    /// relay's own uses are below the relay start count.
    pub fn valid_rend_use(&mut self, fingerprint: &str, config: &RendguardConfig) -> (valid: bool)
        requires
            old(self).use_fits(fingerprint@),
        ensures
            final(self).counts() == old(self).counts_for(fingerprint@).insert(
                old(self).target(fingerprint@),
                old(self).counts_for(fingerprint@)[old(self).target(fingerprint@)].bumped(),
            ),
            final(self).total_use_counts == old(self).total_use_counts + FIXED_ONE,
            final(self).pickle_revision == old(self).pickle_revision,
            valid == !final(self).spec_is_overused(old(self).target(fingerprint@), *config),
            final(self).total_use_counts < config.use_global_start_count * FIXED_ONE ==> valid,
            final(self).counts()[old(self).target(fingerprint@)].used < config.use_relay_start_count
                * FIXED_ONE ==> valid,
            old(self).wf() ==> final(self).wf(),
    {
        self.use_counts.check_wf();
        let ghost before = *self;
        let in_consensus = self.use_counts.contains_key(fingerprint);
        if !in_consensus && !self.use_counts.contains_key("NOT_IN_CONSENSUS") {
            self.use_counts.insert(
                String::from_str("NOT_IN_CONSENSUS"),
                RendUseCount::new(String::from_str("NOT_IN_CONSENSUS"), 0),
            );
        }
        let relay_id: &str = if in_consensus {
            fingerprint
        } else {
            "NOT_IN_CONSENSUS"
        };
        let ghost mid = *self;
        proof {
            assert(relay_id@ == before.target(fingerprint@));
            if in_consensus {
                assert(mid.counts() =~= before.counts());
                before.use_counts.lemma_contains(fingerprint@);
            } else {
                assert(mid.counts() =~= before.counts_for(fingerprint@));
            }
            assert(sum_used(mid.use_counts.spec_values()) == sum_used(
                before.use_counts.spec_values(),
            )) by {
                if mid.use_counts.spec_values() != before.use_counts.spec_values() {
                    assert(mid.use_counts.spec_values().drop_last()
                        =~= before.use_counts.spec_values());
                }
            }
        }
        let overused = match self.use_counts.position(relay_id) {
            Some(i) => {
                proof {
                    mid.use_counts.lemma_contains(relay_id@);
                }
                let count = self.use_counts.value_at_mut(i);
                count.used += FIXED_ONE;
                self.total_use_counts += FIXED_ONE;
                proof {
                    let v = self.use_counts.spec_values()[i as int];
                    mid.use_counts.lemma_update_at(self.use_counts, i as int, v);
                    assert(self.counts() =~= mid.counts().insert(relay_id@, v@));
                    lemma_sum_update(mid.use_counts.spec_values(), i as int, v);
                }
                self.use_counts.value_at(i).is_overused(self.total_use_counts, config)
            },
            None => {
                proof {
                    assert(mid.use_counts@.contains_key(relay_id@));
                    assert(false);
                }
                false
            },
        };
        proof {
            self.use_counts.lemma_contains(relay_id@);
        }
        !overused
    }

    /// Whether `after` is `self` with one use of `fingerprint` counted.
    pub open spec fn used(self, after: RendGuard, fingerprint: Seq<char>) -> bool {
        &&& after.counts() == self.counts_for(fingerprint).insert(
            self.target(fingerprint),
            self.counts_for(fingerprint)[self.target(fingerprint)].bumped(),
        )
        &&& after.total_use_counts == self.total_use_counts + FIXED_ONE
        &&& after.pickle_revision == self.pickle_revision
        &&& self.wf() ==> after.wf()
    }

    /// Halves every count, rounding down to the billionth of a use, and sets
    /// the total to the sum of the halved counts.
    pub fn scale_counts(&mut self)
        requires
            old(self).wf(),
        ensures
            final(self).wf(),
            final(self).counts() == old(self).counts().map_values(|c: UseView| c.halved()),
            final(self).use_counts.spec_keys() == old(self).use_counts.spec_keys(),
            final(self).pickle_revision == old(self).pickle_revision,
    {
        let ghost before = *self;
        let n = self.use_counts.len();
        let mut total: u64 = 0;
        let mut i: usize = 0;
        proof {
            assert(self.use_counts.spec_values().take(0) =~= Seq::<RendUseCount>::empty());
        }
        while i < n
            invariant
                0 <= i <= n,
                n == before.use_counts.spec_len(),
                before.use_counts.wf(),
                before.wf(),
                self.use_counts.spec_keys() == before.use_counts.spec_keys(),
                self.use_counts.spec_values().len() == n,
                self.pickle_revision == before.pickle_revision,
                forall|j: int|
                    0 <= j < i ==> (#[trigger] self.use_counts.spec_values()[j])@
                        == before.use_counts.spec_values()[j]@.halved(),
                forall|j: int|
                    i <= j < n ==> #[trigger] self.use_counts.spec_values()[j]
                        == before.use_counts.spec_values()[j],
                total == sum_used(self.use_counts.spec_values().take(i as int)),
                total <= sum_used(before.use_counts.spec_values().take(i as int)),
            decreases n - i,
        {
            let ghost prev = self.use_counts.spec_values();
            let count = self.use_counts.value_at_mut(i);
            count.used = count.used / 2;
            let half = count.used;
            proof {
                let now = self.use_counts.spec_values();
                assert(now.take(i + 1).drop_last() =~= prev.take(i as int));
                assert(before.use_counts.spec_values().take(i + 1).drop_last()
                    =~= before.use_counts.spec_values().take(i as int));
                lemma_sum_prefix(before.use_counts.spec_values(), i + 1);
            }
            total += half;
            i += 1;
        }
        self.total_use_counts = total;
        proof {
            assert(self.use_counts.spec_values().take(n as int) =~= self.use_counts.spec_values());
            self.use_counts.lemma_inherit_wf(before.use_counts);
            let want = before.counts().map_values(|c: UseView| c.halved());
            assert forall|k: Seq<char>| #[trigger] self.counts().contains_key(k) implies self.counts()[k]
                == want[k] by {
                self.use_counts.lemma_contains(k);
                before.use_counts.lemma_contains(k);
            }
            assert(self.counts() =~= want);
        }
    }
}

/// The share of all uses that the generator's weights predict for its
/// relay `i`, in fixed point and rounded down: the relay's weight over the
/// exit total for a relay with the `Exit` flag, once that total is
/// positive, and over the weight total otherwise; 0 where the total is 0.
pub open spec fn spec_share(g: BwWeightedGenerator, i: int) -> int {
    let nw = g.spec_weights()[i];
    if g.spec_routers()[i]@.has_flag("Exit"@) && g.spec_exit_total() > 0 {
        nw * FIXED_ONE / (g.spec_exit_total() as int)
    } else if g.spec_weight_total() > 0 {
        nw * FIXED_ONE / (g.spec_weight_total() as int)
    } else {
        0
    }
}

/// Counts of no uses for the first `k` relays of the generator, each with
/// its predicted share; of relays with the same fingerprint the last
/// counts.
pub open spec fn fresh_counts(g: BwWeightedGenerator, k: int) -> Map<Seq<char>, UseView>
    decreases k,
{
    if k <= 0 {
        Map::empty()
    } else {
        fresh_counts(g, k - 1).insert(
            g.spec_routers()[k - 1]@.fingerprint,
            UseView {
                idhex: g.spec_routers()[k - 1]@.fingerprint,
                used: 0,
                weight: spec_share(g, k - 1) as u64,
            },
        )
    }
}

/// The counts after a new consensus: a count for each relay of the
/// generator, with its predicted share, and one for the relays outside
/// the consensus, with the share that the churn setting grants them. A
/// relay that had a count keeps its uses, halved where `scale` says so;
/// any other starts at 0.
pub open spec fn xfer_counts(
    old_counts: Map<Seq<char>, UseView>,
    scale: bool,
    g: BwWeightedGenerator,
    config: RendguardConfig,
) -> Map<Seq<char>, UseView> {
    fresh_counts(g, g.spec_routers().len() as int).insert(
        "NOT_IN_CONSENSUS"@,
        UseView {
            idhex: "NOT_IN_CONSENSUS"@,
            used: 0,
            weight: config.use_max_consensus_weight_churn / 100,
        },
    ).map_entries(
        |k: Seq<char>, c: UseView|
            UseView {
                used: if old_counts.contains_key(k) {
                    if scale {
                        old_counts[k].used / 2
                    } else {
                        old_counts[k].used
                    }
                } else {
                    0
                },
                ..c
            },
    )
}

/// The share of all uses that the generator's weights predict for its
/// relay `i`.
pub fn share_of(g: &BwWeightedGenerator, i: usize) -> (r: u64)
    requires
        i < g.spec_routers().len(),
    ensures
        r == spec_share(*g, i as int),
        r <= FIXED_ONE,
{
    let weights = g.node_weights();
    let routers = g.routers();
    let nw = weights[i];
    let total: u64 = if routers[i].has_flag("Exit") && g.exit_total() > 0 {
        g.exit_total()
    } else {
        g.weight_total()
    };
    if total == 0 {
        return 0;
    }
    assert(g.spec_weights()[i as int] <= total);
    assert(nw * FIXED_ONE / (total as int) <= FIXED_ONE && nw * FIXED_ONE <= 0xffff_ffff_ffff_ffff
        * 1_000_000_000) by (nonlinear_arith)
        requires
            0 <= nw <= total,
            total > 0,
            total <= 0xffff_ffff_ffff_ffff,
            FIXED_ONE == 1_000_000_000,
    ;
    ((nw as u128 * (FIXED_ONE as u128)) / (total as u128)) as u64
}

impl RendGuard {
    /// Takes in a new consensus: the counts are made anew for the relays of
    /// `generator`, as `xfer_counts` says, with the uses halved if the total
    /// has reached the scaling count, and the total becomes the sum of the
    /// new counts.
    pub fn xfer_use_counts(&mut self, generator: &BwWeightedGenerator, config: &RendguardConfig)
        requires
            old(self).wf(),
        ensures
            final(self).wf(),
            final(self).counts() == xfer_counts(
                old(self).counts(),
                old(self).total_use_counts >= config.use_scale_at_count * FIXED_ONE,
                *generator,
                *config,
            ),
            final(self).pickle_revision == old(self).pickle_revision,
    {
        let ghost before = *self;
        let mut old_counts: StrMap<RendUseCount> = StrMap::new();
        core::mem::swap(&mut old_counts, &mut self.use_counts);
        old_counts.check_wf();
        let should_scale = self.total_use_counts as u128 >= config.use_scale_at_count as u128 * (
        FIXED_ONE as u128);
        let routers = generator.routers();
        let n = routers.len();
        let mut i: usize = 0;
        proof {
            assert(self.counts() =~= fresh_counts(*generator, 0));
        }
        while i < n
            invariant
                0 <= i <= n,
                n == generator.spec_routers().len(),
                routers@ == generator.spec_routers(),
                self.counts() == fresh_counts(*generator, i as int),
                self.use_counts.wf(),
                forall|p: int|
                    0 <= p < self.use_counts.spec_len() ==> (#[trigger] self.use_counts.spec_values()[p]).used
                        == 0,
                self.total_use_counts == before.total_use_counts,
                self.pickle_revision == before.pickle_revision,
            decreases n - i,
        {
            let weight = share_of(generator, i);
            let ghost prev = self.use_counts;
            self.use_counts.insert(
                routers[i].fingerprint.clone(),
                RendUseCount::new(routers[i].fingerprint.clone(), weight),
            );
            proof {
                assert(self.counts() =~= fresh_counts(*generator, i + 1));
            }
            i += 1;
        }
        self.use_counts.insert(
            String::from_str("NOT_IN_CONSENSUS"),
            RendUseCount::new(
                String::from_str("NOT_IN_CONSENSUS"),
                config.use_max_consensus_weight_churn / 100,
            ),
        );
        let ghost fresh = self.use_counts;
        let ghost fresh_map = self.counts();
        proof {
            assert(fresh_map =~= fresh_counts(*generator, n as int).insert(
                "NOT_IN_CONSENSUS"@,
                UseView {
                    idhex: "NOT_IN_CONSENSUS"@,
                    used: 0,
                    weight: config.use_max_consensus_weight_churn / 100,
                },
            ));
            lemma_sum_zero(fresh.spec_values());
        }
        let ghost ok = old_counts.spec_keys();
        let ghost ov = old_counts.spec_values();
        let m = old_counts.len();
        let mut total: u64 = 0;
        let mut j: usize = 0;
        proof {
            assert(ov.take(0) =~= Seq::<RendUseCount>::empty());
        }
        while j < m
            invariant
                0 <= j <= m,
                m == ok.len(),
                m == ov.len(),
                ok == old_counts.spec_keys(),
                ov == old_counts.spec_values(),
                old_counts.wf(),
                fresh.wf(),
                sum_used(ov) == before.total_use_counts,
                self.use_counts.spec_keys() == fresh.spec_keys(),
                self.use_counts.spec_values().len() == fresh.spec_values().len(),
                self.pickle_revision == before.pickle_revision,
                forall|p: int|
                    0 <= p < fresh.spec_len() ==> {
                        let v = #[trigger] self.use_counts.spec_values()[p];
                        &&& v.idhex == fresh.spec_values()[p].idhex
                        &&& v.weight == fresh.spec_values()[p].weight
                        &&& v.used == (if ok.take(j as int).contains(fresh.spec_keys()[p]) {
                            let u = ov[ok.index_of(fresh.spec_keys()[p])].used;
                            if should_scale {
                                u / 2
                            } else {
                                u
                            }
                        } else {
                            0
                        })
                    },
                total == sum_used(self.use_counts.spec_values()),
                total <= sum_used(ov.take(j as int)),
            decreases m - j,
        {
            let key = old_counts.key_at(j);
            let old_used = old_counts.value_at(j).used;
            let ghost prev_vals = self.use_counts.spec_values();
            proof {
                assert(ov.take(j + 1).drop_last() =~= ov.take(j as int));
                lemma_sum_prefix(ov, j + 1);
                old_counts.lemma_index_of(j as int);
                assert(!ok.take(j as int).contains(ok[j as int])) by {
                    let shorter = ok.take(j as int);
                    if shorter.contains(ok[j as int]) {
                        let x = choose|x: int|
                            0 <= x < shorter.len() && shorter[x] == ok[j as int];
                        assert(ok[x] == ok[j as int]);
                    }
                }
                let shorter = ok.take(j as int);
                let longer = ok.take(j + 1);
                assert forall|k: Seq<char>| k != ok[j as int] implies longer.contains(k)
                    == shorter.contains(k) by {
                    if longer.contains(k) {
                        let x = choose|x: int| 0 <= x < longer.len() && longer[x] == k;
                        assert(shorter[x] == k);
                    }
                    if shorter.contains(k) {
                        let x = choose|x: int| 0 <= x < shorter.len() && shorter[x] == k;
                        assert(longer[x] == k);
                    }
                }
                assert(longer[j as int] == ok[j as int]);
            }
            match self.use_counts.position(key.as_str()) {
                Some(p) => {
                    let u: u64 = if should_scale {
                        old_used / 2
                    } else {
                        old_used
                    };
                    let count = self.use_counts.value_at_mut(p);
                    count.used = u;
                    proof {
                        let v = self.use_counts.spec_values()[p as int];
                        lemma_sum_update(prev_vals, p as int, v);
                        assert(prev_vals[p as int].used == 0);
                        fresh.lemma_index_of(p as int);
                        assert forall|q: int| 0 <= q < fresh.spec_len() && q != p implies fresh.spec_keys()[q]
                            != ok[j as int] by {
                            fresh.lemma_index_of(q);
                        }
                    }
                    total += u;
                },
                None => {
                    proof {
                        assert forall|q: int| 0 <= q < fresh.spec_len() implies fresh.spec_keys()[q]
                            != ok[j as int] by {
                            assert(self.use_counts.spec_keys().contains(fresh.spec_keys()[q]));
                        }
                    }
                },
            }
            j += 1;
        }
        self.total_use_counts = total;
        proof {
            assert(ok.take(m as int) =~= ok);
            self.use_counts.lemma_inherit_wf(fresh);
            let scale = before.total_use_counts >= config.use_scale_at_count * FIXED_ONE;
            let want = xfer_counts(before.counts(), scale, *generator, *config);
            assert forall|k: Seq<char>| #[trigger] self.counts().contains_key(k) implies self.counts()[k]
                == want[k] by {
                self.use_counts.lemma_contains(k);
                fresh.lemma_contains(k);
                if ok.contains(k) {
                    before.use_counts.lemma_contains(k);
                }
            }
            assert(self.counts() =~= want);
        }
    }
}

/// Counts without uses add up to 0.
pub proof fn lemma_sum_zero(vals: Seq<RendUseCount>)
    requires
        forall|p: int| 0 <= p < vals.len() ==> (#[trigger] vals[p]).used == 0,
    ensures
        sum_used(vals) == 0,
    decreases vals.len(),
{
    if vals.len() > 0 {
        lemma_sum_zero(vals.drop_last());
    }
}

/// Halving twice is quartering: after two scalings every count holds a
/// quarter of its uses, rounded down to the billionth of a use, and nothing
/// else of it has changed.
pub proof fn lemma_scale_twice(counts: Map<Seq<char>, UseView>)
    ensures
        counts.map_values(|c: UseView| c.halved()).map_values(|c: UseView| c.halved())
            == counts.map_values(|c: UseView| UseView { used: c.used / 4, ..c }),
{
    assert(counts.map_values(|c: UseView| c.halved()).map_values(|c: UseView| c.halved())
        =~= counts.map_values(|c: UseView| UseView { used: c.used / 4, ..c }));
}

/// No relay is overused while the total of uses is below the global start
/// count or the relay's own uses are below the relay start count, whatever
/// its share of the uses.
pub proof fn lemma_overuse_gated(rg: RendGuard, fingerprint: Seq<char>, config: RendguardConfig)
    requires
        rg.total_use_counts < config.use_global_start_count * FIXED_ONE || (rg.counts().contains_key(
            fingerprint,
        ) && rg.counts()[fingerprint].used < config.use_relay_start_count * FIXED_ONE),
    ensures
        !rg.spec_is_overused(fingerprint, config),
{
}

/// The relays that the operator excludes: by fingerprint, by nickname, by
/// country and by network.
#[derive(Debug, Clone)]
pub struct ExcludeNodes {
    /// Excluded networks.
    pub networks: Vec<IpNet>,
    /// Excluded fingerprints, in upper case.
    pub idhexes: StrSet,
    /// Excluded nicknames.
    pub nicks: StrSet,
    /// Excluded country codes, in lower case.
    pub countries: StrSet,
    /// The setting on relays of unknown country: `1`, `auto`, or anything
    /// else for no exclusion.
    pub exclude_unknowns: Option<String>,
}

/// The mathematical content of an [`ExcludeNodes`].
pub ghost struct ExcludeView {
    pub networks: Seq<IpNet>,
    pub idhexes: Set<Seq<char>>,
    pub nicks: Set<Seq<char>>,
    pub countries: Set<Seq<char>>,
    pub exclude_unknowns: Option<Seq<char>>,
}

impl View for ExcludeNodes {
    type V = ExcludeView;

    open spec fn view(&self) -> ExcludeView {
        ExcludeView {
            networks: self.networks@,
            idhexes: self.idhexes@,
            nicks: self.nicks@,
            countries: self.countries@,
            exclude_unknowns: match self.exclude_unknowns {
                Some(s) => Some(s@),
                None => None,
            },
        }
    }
}

/// What one entry of the operator's list excludes.
pub ghost enum Rule {
    /// Nothing: the entry is empty or malformed.
    Nothing,
    /// The relay with this fingerprint.
    Fingerprint(Seq<char>),
    /// The relays in this country.
    Country(Seq<char>),
    /// The relays with an address in this network.
    Network(IpAddress, u8),
    /// The relays with this nickname.
    Nick(Seq<char>),
}

/// `s` up to its first `c`; all of `s` where `c` does not occur.
pub open spec fn cut_at(s: Seq<char>, c: char) -> Seq<char> {
    s.take(first_index(s, c))
}

/// The entry without the white space around it, without a leading `$`, and
/// without what follows a `~` or `=`.
pub open spec fn entry_core(part: Seq<char>) -> Seq<char> {
    let t = spec_trim(part);
    let t1 = if t.len() > 0 && t[0] == '$' {
        t.drop_first()
    } else {
        t
    };
    cut_at(cut_at(t1, '~'), '=')
}

/// What the entry `part` excludes: a relay, where the entry is 40
/// hexadecimal digits; a country, where it is a country code in braces; a
/// network, where it holds a colon or a dot and writes an address or a
/// network; a nickname otherwise. An entry of white space excludes
/// nothing, and neither does a malformed country or network.
pub open spec fn rule_of(part: Seq<char>) -> Rule {
    let p = entry_core(part);
    if spec_trim(part).len() == 0 {
        Rule::Nothing
    } else if spec_valid_fingerprint(p) {
        Rule::Fingerprint(to_upper(p))
    } else if p.len() >= 3 && p[0] == '{' && p.last() == '}' {
        if spec_valid_country_code(p.subrange(1, p.len() - 1)) {
            Rule::Country(to_lower(p.subrange(1, p.len() - 1)))
        } else {
            Rule::Nothing
        }
    } else if has_char(p, ':') || has_char(p, '.') {
        match network_of(parsed_network(p)) {
            Some((addr, prefix)) => Rule::Network(addr, prefix),
            None => Rule::Nothing,
        }
    } else {
        Rule::Nick(p)
    }
}

impl ExcludeView {
    /// No exclusions, under the given setting on unknown countries.
    pub open spec fn empty(exclude_unknowns: Option<Seq<char>>) -> ExcludeView {
        ExcludeView {
            networks: Seq::empty(),
            idhexes: Set::empty(),
            nicks: Set::empty(),
            countries: Set::empty(),
            exclude_unknowns,
        }
    }

    /// The exclusions with the two codes for an unknown country added.
    pub open spec fn with_unknowns(self) -> ExcludeView {
        ExcludeView { countries: self.countries.insert("??"@).insert("a1"@), ..self }
    }

    /// Whether the exclusions are `self` with `rule` added.
    pub open spec fn extended_by(self, rule: Rule, after: ExcludeView) -> bool {
        match rule {
            Rule::Nothing => after == self,
            Rule::Fingerprint(fp) => after == (ExcludeView {
                idhexes: self.idhexes.insert(fp),
                ..self
            }),
            Rule::Country(cc) => after == (ExcludeView {
                countries: self.countries.insert(cc),
                ..self
            }),
            Rule::Nick(n) => after == (ExcludeView { nicks: self.nicks.insert(n), ..self }),
            Rule::Network(addr, prefix) => {
                &&& after.networks.len() == self.networks.len() + 1
                &&& after.networks.drop_last() == self.networks
                &&& after.networks.last().spec_addr() == addr
                &&& after.networks.last().spec_prefix() == prefix
                &&& after == (ExcludeView { networks: after.networks, ..self })
            },
        }
    }

    /// Whether `after` is `self` with the rules of `parts` added in order.
    pub open spec fn extended_by_all(self, parts: Seq<Seq<char>>, after: ExcludeView) -> bool
        decreases parts.len(),
    {
        if parts.len() == 0 {
            after == self
        } else {
            exists|mid: ExcludeView|
                self.extended_by_all(parts.drop_last(), mid) && #[trigger] mid.extended_by(
                    rule_of(parts.last()),
                    after,
                )
        }
    }

    /// The addresses of a relay: the primary one first.
    pub open spec fn addresses(r: RouterView) -> Seq<IpAddress> {
        seq![r.address] + r.or_addresses
    }

    /// Whether the relay is excluded: by its fingerprint, letter case
    /// aside, by its nickname, or by one of its addresses lying in an
    /// excluded network.
    pub open spec fn spec_excluded(self, r: RouterView) -> bool {
        ||| self.idhexes.contains(to_upper(r.fingerprint))
        ||| self.nicks.contains(r.nickname)
        ||| exists|i: int, j: int|
            0 <= i < Self::addresses(r).len() && 0 <= j < self.networks.len()
                && #[trigger] self.networks[j].spec_contains(#[trigger] Self::addresses(r)[i])
    }

    /// Whether anything is excluded.
    pub open spec fn any(self) -> bool {
        self.networks.len() > 0 || self.idhexes != Set::<Seq<char>>::empty() || self.nicks
            != Set::<Seq<char>>::empty() || self.countries != Set::<Seq<char>>::empty()
    }

    /// The exclusions before the operator's list is read: none, or the two
    /// codes for an unknown country where the setting is `1`.
    pub open spec fn start(exclude_unknowns: Option<Seq<char>>) -> ExcludeView {
        if exclude_unknowns == Some("1"@) {
            ExcludeView::empty(exclude_unknowns).with_unknowns()
        } else {
            ExcludeView::empty(exclude_unknowns)
        }
    }

    /// Whether `after` is what the operator's list `conf_line` excludes
    /// under the setting `exclude_unknowns`: the rules of the list's
    /// comma-separated entries, and the two codes for an unknown country
    /// where the setting is `1`, or is `auto` and the list excludes a
    /// country.
    pub open spec fn parsed(
        conf_line: Seq<char>,
        exclude_unknowns: Option<Seq<char>>,
        after: ExcludeView,
    ) -> bool {
        exists|mid: ExcludeView| #[trigger]
            ExcludeView::start(exclude_unknowns).extended_by_all(spec_split(conf_line, ','), mid)
                && after == (
            if exclude_unknowns == Some("auto"@) && mid.countries != Set::<Seq<char>>::empty() {
                mid.with_unknowns()
            } else {
                mid
            })
    }
}

impl ExcludeNodes {
    /// No exclusions.
    pub fn new() -> (r: Self)
        ensures
            r@ == ExcludeView::empty(None),
    {
        ExcludeNodes {
            networks: Vec::new(),
            idhexes: StrSet::new(),
            nicks: StrSet::new(),
            countries: StrSet::new(),
            exclude_unknowns: None,
        }
    }

    /// Adds what the entry `part` of the operator's list excludes.
    pub fn parse_entry(&mut self, part: &Vec<char>)
        ensures
            old(self)@.extended_by(rule_of(part@), final(self)@),
    {
        let t = trim(part);
        if t.len() == 0 {
            return ;
        }
        let t1 = if t[0] == '$' {
            let r = slice_of(&t, 1, t.len());
            proof {
                assert(t@.subrange(1, t@.len() as int) =~= t@.drop_first());
            }
            r
        } else {
            t
        };
        proof {
            assert(t1@.skip(0) =~= t1@);
        }
        let a = find_char(&t1, 0, '~');
        let t2 = slice_of(&t1, 0, a);
        proof {
            assert(t2@ =~= cut_at(t1@, '~'));
            assert(t2@.skip(0) =~= t2@);
        }
        let b = find_char(&t2, 0, '=');
        let p = slice_of(&t2, 0, b);
        proof {
            assert(p@ =~= cut_at(t2@, '='));
            assert(p@ == entry_core(part@));
            assert(p@.skip(0) =~= p@);
        }
        let text = string_of(&p);
        if is_valid_fingerprint(text.as_str()) {
            self.idhexes.insert(ascii_upper(text.as_str()));
        } else if p.len() >= 3 && p[0] == '{' && p[p.len() - 1] == '}' {
            let cc = string_of_range(&p, 1, p.len() - 1);
            if is_valid_country_code(cc.as_str()) {
                self.countries.insert(ascii_lower(cc.as_str()));
            }
        } else if find_char(&p, 0, ':') < p.len() || find_char(&p, 0, '.') < p.len() {
            if let Some(net) = IpNet::parse(text.as_str()) {
                let ghost before = self.networks@;
                self.networks.push(net);
                proof {
                    assert(self.networks@.drop_last() =~= before);
                }
            }
        } else {
            self.nicks.insert(text);
        }
    }

    /// Adds what the entries of the operator's list `conf_line` exclude,
    /// and then, under the setting `auto`, the two codes for an unknown
    /// country where a country is excluded.
    pub fn parse_line(&mut self, conf_line: &str)
        ensures
            exists|mid: ExcludeView| #[trigger]
                old(self)@.extended_by_all(spec_split(conf_line@, ','), mid) && final(self)@ == (
                if old(self)@.exclude_unknowns == Some("auto"@) && mid.countries != Set::<
                    Seq<char>,
                >::empty() {
                    mid.with_unknowns()
                } else {
                    mid
                }),
    {
        let ghost before = self@;
        let line = chars_of(conf_line);
        let parts = split(&line, ',');
        let ghost all = spec_split(conf_line@, ',');
        let mut i: usize = 0;
        proof {
            assert(all.take(0) =~= Seq::<Seq<char>>::empty());
        }
        while i < parts.len()
            invariant
                0 <= i <= parts@.len(),
                views(parts@) == all,
                before.extended_by_all(all.take(i as int), self@),
            decreases parts@.len() - i,
        {
            let ghost mid = self@;
            self.parse_entry(&parts[i]);
            proof {
                assert(all.take(i + 1).drop_last() =~= all.take(i as int));
                assert(all.take(i + 1).last() == parts@[i as int]@);
                assert(mid.extended_by(rule_of(all.take(i + 1).last()), self@));
            }
            i += 1;
        }
        proof {
            assert(all.take(parts@.len() as int) =~= all);
        }
        let ghost mid = self@;
        let auto = match &self.exclude_unknowns {
            Some(setting) => setting.as_str().eq("auto"),
            None => false,
        };
        if auto && !self.countries.is_empty() {
            self.countries.insert(String::from_str("??"));
            self.countries.insert(String::from_str("a1"));
        }
        proof {
            assert(before.exclude_unknowns == mid.exclude_unknowns) by {
                lemma_setting_kept(before, all, mid);
            }
        }
    }

    /// What the operator's list `conf_line` excludes under the setting
    /// `exclude_unknowns` on relays of unknown country.
    pub fn parse(conf_line: &str, exclude_unknowns: Option<&str>) -> (r: Self)
        ensures
            ExcludeView::parsed(
                conf_line@,
                match exclude_unknowns {
                    Some(s) => Some(s@),
                    None => None,
                },
                r@,
            ),
    {
        let mut result = ExcludeNodes::new();
        result.exclude_unknowns = match exclude_unknowns {
            Some(s) => Some(String::from_str(s)),
            None => None,
        };
        let always = match exclude_unknowns {
            Some(s) => s.eq("1"),
            None => false,
        };
        if always {
            result.countries.insert(String::from_str("??"));
            result.countries.insert(String::from_str("a1"));
        }
        proof {
            assert(result@ == ExcludeView::start(
                match exclude_unknowns {
                    Some(s) => Some(s@),
                    None => None,
                },
            ));
        }
        result.parse_line(conf_line);
        result
    }

    /// Whether anything is excluded.
    pub fn has_exclusions(&self) -> (r: bool)
        ensures
            r == self@.any(),
    {
        self.networks.len() > 0 || !self.idhexes.is_empty() || !self.nicks.is_empty()
            || !self.countries.is_empty()
    }

    /// Whether one of the excluded networks holds `ip`.
    pub fn network_holds(&self, ip: IpAddress) -> (r: bool)
        ensures
            r == exists|j: int|
                0 <= j < self@.networks.len() && #[trigger] self@.networks[j].spec_contains(ip),
    {
        let mut j: usize = 0;
        while j < self.networks.len()
            invariant
                0 <= j <= self.networks@.len(),
                forall|k: int| 0 <= k < j ==> !(#[trigger] self.networks@[k]).spec_contains(ip),
            decreases self.networks@.len() - j,
        {
            if self.networks[j].contains(ip) {
                assert(self@.networks[j as int].spec_contains(ip));
                return true;
            }
            j += 1;
        }
        false
    }

    /// Whether the relay is excluded.
    pub fn router_is_excluded(&self, router: &Router) -> (r: bool)
        ensures
            r == self@.spec_excluded(router@),
    {
        if self.idhexes.contains(ascii_upper(router.fingerprint.as_str()).as_str()) {
            return true;
        }
        if self.nicks.contains(router.nickname.as_str()) {
            return true;
        }
        let ghost addrs = ExcludeView::addresses(router@);
        if self.network_holds(router.address) {
            assert(addrs[0] == router.address);
            return true;
        }
        let mut i: usize = 0;
        while i < router.or_addresses.len()
            invariant
                0 <= i <= router.or_addresses@.len(),
                addrs == ExcludeView::addresses(router@),
                forall|a: int, j: int|
                    0 <= a < i + 1 && 0 <= j < self@.networks.len() ==> !(
                    #[trigger] self@.networks[j]).spec_contains(#[trigger] addrs[a]),
            decreases router.or_addresses@.len() - i,
        {
            if self.network_holds(router.or_addresses[i]) {
                assert(addrs[i + 1] == router.or_addresses@[i as int]);
                return true;
            }
            proof {
                assert(addrs[i + 1] == router.or_addresses@[i as int]);
            }
            i += 1;
        }
        false
    }
}

/// Milliseconds by which a guard's time of choice may lie ahead of the
/// clock: one hour.
pub const MAX_CLOCK_SKEW: u64 = 3_600_000;

/// Milliseconds by which a guard's time of expiry may lie ahead of the
/// clock: 365 days.
pub const MAX_EXPIRY_AHEAD: u64 = 31_536_000_000;

/// The guards of `layer` for which the flag at their position is set, in
/// order.
pub open spec fn retained(layer: Seq<GuardNode>, keep: Seq<bool>) -> Seq<GuardNode>
    decreases layer.len(),
{
    if layer.len() == 0 || keep.len() != layer.len() {
        Seq::empty()
    } else if keep.last() {
        retained(layer.drop_last(), keep.drop_last()).push(layer.last())
    } else {
        retained(layer.drop_last(), keep.drop_last())
    }
}

/// The guards of `layer` whose fingerprint is in `fps`, in order.
pub open spec fn in_consensus(layer: Seq<GuardNode>, fps: Set<Seq<char>>) -> Seq<GuardNode> {
    retained(layer, Seq::new(layer.len(), |i: int| fps.contains(layer[i].idhex@)))
}

/// The guards of `layer` that are not expired at `now`, in order.
pub open spec fn unexpired(layer: Seq<GuardNode>, now: u64) -> Seq<GuardNode> {
    retained(layer, Seq::new(layer.len(), |i: int| !layer[i].spec_is_expired(now)))
}

/// The fingerprints of the guards of `layer`, in order.
pub open spec fn layer_ids(layer: Seq<GuardNode>) -> Seq<Seq<char>> {
    Seq::new(layer.len(), |i: int| layer[i].idhex@)
}

/// Whether no fingerprint occurs twice in `layer`.
pub open spec fn no_duplicates(layer: Seq<GuardNode>) -> bool {
    forall|i: int, j: int|
        0 <= i < j < layer.len() ==> (#[trigger] layer[i]).idhex@ != (#[trigger] layer[j]).idhex@
}

/// Whether a guard of `layer` has the fingerprint `fp`.
pub open spec fn in_layer(layer: Seq<GuardNode>, fp: Seq<char>) -> bool {
    exists|i: int| 0 <= i < layer.len() && (#[trigger] layer[i]).idhex@ == fp
}

/// The texts `ids` in one line, with a comma between each two.
pub open spec fn joined(ids: Seq<Seq<char>>) -> Seq<char>
    decreases ids.len(),
{
    if ids.len() == 0 {
        Seq::empty()
    } else if ids.len() == 1 {
        ids[0]
    } else {
        joined(ids.drop_last()) + seq![','] + ids.last()
    }
}

/// Removing guards from a layer adds none: every guard that stays was in
/// the layer, and a layer without duplicates stays without them.
pub proof fn lemma_retained(layer: Seq<GuardNode>, keep: Seq<bool>)
    requires
        keep.len() == layer.len(),
    ensures
        retained(layer, keep).len() <= layer.len(),
        forall|i: int|
            0 <= i < retained(layer, keep).len() ==> in_layer(
                layer,
                (#[trigger] retained(layer, keep)[i]).idhex@,
            ),
        no_duplicates(layer) ==> no_duplicates(retained(layer, keep)),
    decreases layer.len(),
{
    if layer.len() > 0 {
        let front = retained(layer.drop_last(), keep.drop_last());
        lemma_retained(layer.drop_last(), keep.drop_last());
        let all = retained(layer, keep);
        assert forall|i: int| 0 <= i < all.len() implies in_layer(layer, (#[trigger] all[i]).idhex@) by {
            if i < front.len() {
                let x = choose|x: int|
                    0 <= x < layer.drop_last().len() && (#[trigger] layer.drop_last()[x]).idhex@
                        == front[i].idhex@;
                assert(layer[x].idhex@ == all[i].idhex@);
            } else {
                assert(layer[layer.len() - 1].idhex@ == all[i].idhex@);
            }
        }
        if no_duplicates(layer) {
            assert(no_duplicates(layer.drop_last())) by {
                assert forall|i: int, j: int| 0 <= i < j < layer.drop_last().len() implies (
                #[trigger] layer.drop_last()[i]).idhex@ != (#[trigger] layer.drop_last()[j]).idhex@ by {
                    assert(layer[i].idhex@ != layer[j].idhex@);
                }
            }
            assert forall|i: int, j: int| 0 <= i < j < all.len() implies (#[trigger] all[i]).idhex@ != (
            #[trigger] all[j]).idhex@ by {
                if j == front.len() {
                    let x = choose|x: int|
                        0 <= x < layer.drop_last().len() && (#[trigger] layer.drop_last()[x]).idhex@
                            == front[i].idhex@;
                    assert(layer[x].idhex@ != layer[layer.len() - 1].idhex@);
                }
            }
        }
    }
}

/// Keeps of `layer` the guards whose flag in `keep` is set.
pub fn retain_flagged(layer: &mut Vec<GuardNode>, keep: &Vec<bool>)
    requires
        keep@.len() == old(layer)@.len(),
    ensures
        final(layer)@ == retained(old(layer)@, keep@),
{
    let ghost before = layer@;
    let n = layer.len();
    let mut out: Vec<GuardNode> = Vec::new();
    let mut i: usize = 0;
    proof {
        assert(before.take(0) =~= Seq::<GuardNode>::empty());
        assert(keep@.take(0) =~= Seq::<bool>::empty());
    }
    while i < n
        invariant
            0 <= i <= n,
            n == before.len(),
            n == keep@.len(),
            layer@.len() == n,
            forall|j: int| i <= j < n ==> layer@[j] == before[j],
            out@ == retained(before.take(i as int), keep@.take(i as int)),
        decreases n - i,
    {
        proof {
            assert(before.take(i + 1).drop_last() =~= before.take(i as int));
            assert(keep@.take(i + 1).drop_last() =~= keep@.take(i as int));
        }
        if keep[i] {
            let mut taken = GuardNode::new(String::new(), 0, 0);
            core::mem::swap(&mut taken, &mut layer[i]);
            out.push(taken);
        }
        i += 1;
    }
    proof {
        assert(before.take(n as int) =~= before);
        assert(keep@.take(n as int) =~= keep@);
    }
    *layer = out;
}

/// The complaint about the guard, if it breaks a rule: its fingerprint is
/// 40 hexadecimal digits, it was chosen at most an hour after `now`, and it
/// expires at most 365 days after `now`.
pub open spec fn guard_violation(g: GuardNode, layer_name: Seq<char>, now: u64) -> Option<Seq<char>> {
    if !spec_valid_fingerprint(g.idhex@) {
        Some("invalid fingerprint in "@ + layer_name + ": "@ + g.idhex@)
    } else if g.chosen_at > now + MAX_CLOCK_SKEW {
        Some("future timestamp in "@ + layer_name + " guard "@ + g.idhex@)
    } else if g.expires_at > now + MAX_EXPIRY_AHEAD {
        Some("unreasonable future expiration in "@ + layer_name + " guard "@ + g.idhex@)
    } else {
        None
    }
}

/// The complaint about the first guard of `layer` that breaks a rule.
pub open spec fn layer_violation(layer: Seq<GuardNode>, layer_name: Seq<char>, now: u64) -> Option<
    Seq<char>,
>
    decreases layer.len(),
{
    if layer.len() == 0 {
        None
    } else if guard_violation(layer[0], layer_name, now) is Some {
        guard_violation(layer[0], layer_name, now)
    } else {
        layer_violation(layer.drop_first(), layer_name, now)
    }
}

/// The complaint about the first of `keys` that is neither a fingerprint
/// nor `NOT_IN_CONSENSUS`.
pub open spec fn keys_violation(keys: Seq<Seq<char>>) -> Option<Seq<char>>
    decreases keys.len(),
{
    if keys.len() == 0 {
        None
    } else if keys[0] != "NOT_IN_CONSENSUS"@ && !spec_valid_fingerprint(keys[0]) {
        Some("invalid fingerprint in rendguard: "@ + keys[0])
    } else {
        keys_violation(keys.drop_first())
    }
}

/// Whether every guard of `layer` keeps the rules of `guard_violation`.
pub open spec fn guards_valid(layer: Seq<GuardNode>, now: u64) -> bool {
    forall|i: int|
        0 <= i < layer.len() ==> {
            &&& spec_valid_fingerprint((#[trigger] layer[i]).idhex@)
            &&& layer[i].chosen_at <= now + MAX_CLOCK_SKEW
            &&& layer[i].expires_at <= now + MAX_EXPIRY_AHEAD
        }
}

/// A layer without a complaint holds valid guards only.
pub proof fn lemma_layer_valid(layer: Seq<GuardNode>, layer_name: Seq<char>, now: u64)
    requires
        layer_violation(layer, layer_name, now) is None,
    ensures
        guards_valid(layer, now),
    decreases layer.len(),
{
    if layer.len() > 0 {
        lemma_layer_valid(layer.drop_first(), layer_name, now);
        assert forall|i: int| 0 <= i < layer.len() implies {
            &&& spec_valid_fingerprint((#[trigger] layer[i]).idhex@)
            &&& layer[i].chosen_at <= now + MAX_CLOCK_SKEW
            &&& layer[i].expires_at <= now + MAX_EXPIRY_AHEAD
        } by {
            if i > 0 {
                assert(layer.drop_first()[i - 1] == layer[i]);
            }
        }
    }
}

/// The complaint about the first guard of `layer` that breaks a rule.
pub fn check_layer(layer: &Vec<GuardNode>, layer_name: &str, now: u64) -> (r: Option<String>)
    ensures
        match r {
            Some(m) => layer_violation(layer@, layer_name@, now) == Some(m@),
            None => layer_violation(layer@, layer_name@, now) is None,
        },
{
    let mut i: usize = 0;
    proof {
        assert(layer@.skip(0) =~= layer@);
    }
    while i < layer.len()
        invariant
            0 <= i <= layer@.len(),
            layer_violation(layer@, layer_name@, now) == layer_violation(
                layer@.skip(i as int),
                layer_name@,
                now,
            ),
        decreases layer@.len() - i,
    {
        let g = &layer[i];
        proof {
            assert(layer@.skip(i as int)[0] == layer@[i as int]);
            assert(layer@.skip(i as int).drop_first() =~= layer@.skip(i + 1));
        }
        let complaint: Option<&str> = if !is_valid_fingerprint(g.idhex.as_str()) {
            Some("invalid fingerprint in ")
        } else if g.chosen_at > now && g.chosen_at - now > MAX_CLOCK_SKEW {
            Some("future timestamp in ")
        } else if g.expires_at > now && g.expires_at - now > MAX_EXPIRY_AHEAD {
            Some("unreasonable future expiration in ")
        } else {
            None
        };
        if let Some(head) = complaint {
            let middle: &str = if !is_valid_fingerprint(g.idhex.as_str()) {
                ": "
            } else {
                " guard "
            };
            let m = concat(concat(concat(head, layer_name).as_str(), middle).as_str(), g.idhex.as_str());
            return Some(m);
        }
        i += 1;
    }
    None
}

/// The complaint about the first key of `counts` that is neither a
/// fingerprint nor `NOT_IN_CONSENSUS`.
pub fn check_keys(counts: &StrMap<RendUseCount>) -> (r: Option<String>)
    ensures
        match r {
            Some(m) => keys_violation(counts.spec_keys()) == Some(m@),
            None => keys_violation(counts.spec_keys()) is None,
        },
{
    let n = counts.len();
    let ghost keys = counts.spec_keys();
    let mut i: usize = 0;
    proof {
        assert(keys.skip(0) =~= keys);
    }
    while i < n
        invariant
            0 <= i <= n,
            n == keys.len(),
            keys == counts.spec_keys(),
            keys_violation(keys) == keys_violation(keys.skip(i as int)),
        decreases n - i,
    {
        let k = counts.key_at(i);
        proof {
            assert(keys.skip(i as int)[0] == keys[i as int]);
            assert(keys.skip(i as int).drop_first() =~= keys.skip(i + 1));
        }
        if !k.as_str().eq("NOT_IN_CONSENSUS") && !is_valid_fingerprint(k.as_str()) {
            return Some(concat("invalid fingerprint in rendguard: ", k.as_str()));
        }
        i += 1;
    }
    None
}

/// The guard layers and the rendezvous-point counts, as they are persisted.
#[derive(Debug, Clone)]
pub struct VanguardState {
    /// The second layer.
    pub layer2: Vec<GuardNode>,
    /// The third layer.
    pub layer3: Vec<GuardNode>,
    /// Path of the file that holds the state.
    pub state_file: String,
    /// The rendezvous-point counts.
    pub rendguard: RendGuard,
    /// Revision of the persisted form.
    pub pickle_revision: u32,
    /// Whether the guard layers are managed.
    pub enable_vanguards: bool,
}

impl VanguardState {
    /// The complaint about the first rule that the state breaks at `now`, if
    /// it breaks one: the guards of the second layer come first, then those
    /// of the third, then the keys of the rendezvous-point counts.
    pub open spec fn spec_violation(self, now: u64) -> Option<Seq<char>> {
        if layer_violation(self.layer2@, "layer2"@, now) is Some {
            layer_violation(self.layer2@, "layer2"@, now)
        } else if layer_violation(self.layer3@, "layer3"@, now) is Some {
            layer_violation(self.layer3@, "layer3"@, now)
        } else {
            keys_violation(self.rendguard.use_counts.spec_keys())
        }
    }

    /// A state without guards or counts, to be held in `state_file`.
    pub fn new(state_file: &str) -> (r: Self)
        ensures
            r.layer2@ == Seq::<GuardNode>::empty(),
            r.layer3@ == Seq::<GuardNode>::empty(),
            r.state_file@ == state_file@,
            r.rendguard.counts() == Map::<Seq<char>, UseView>::empty(),
            r.rendguard.total_use_counts == 0,
            r.rendguard.wf(),
            r.pickle_revision == 1,
            r.enable_vanguards,
    {
        VanguardState {
            layer2: Vec::new(),
            layer3: Vec::new(),
            state_file: String::from_str(state_file),
            rendguard: RendGuard::new(),
            pickle_revision: 1,
            enable_vanguards: true,
        }
    }

    /// Checks the state against the rules of `spec_violation` at `now` and
    /// reports the first broken one as a state error. A state that passes
    /// holds valid guards only.
    pub fn validate_at(&self, now: u64) -> (r: Result<(), Error>)
        ensures
            match r {
                Ok(_) => self.spec_violation(now) is None && guards_valid(self.layer2@, now)
                    && guards_valid(self.layer3@, now),
                Err(e) => (e matches Error::State(m) && self.spec_violation(now) == Some(m@)),
            },
    {
        if let Some(m) = check_layer(&self.layer2, "layer2", now) {
            return Err(Error::State(m));
        }
        if let Some(m) = check_layer(&self.layer3, "layer3", now) {
            return Err(Error::State(m));
        }
        if let Some(m) = check_keys(&self.rendguard.use_counts) {
            return Err(Error::State(m));
        }
        proof {
            lemma_layer_valid(self.layer2@, "layer2"@, now);
            lemma_layer_valid(self.layer3@, "layer3"@, now);
        }
        Ok(())
    }

    /// Checks the state against the rules of `spec_violation` now, by the
    /// system clock.
    pub fn validate(&self) -> (r: Result<(), Error>)
        ensures
            exists|now: u64|
                match r {
                    Ok(_) => #[trigger] self.spec_violation(now) is None && guards_valid(
                        self.layer2@,
                        now,
                    ) && guards_valid(self.layer3@, now),
                    Err(e) => (e matches Error::State(m) && self.spec_violation(now) == Some(m@)),
                },
    {
        let now = now_millis();
        self.validate_at(now)
    }

    /// The fingerprints of the second layer in one line, with commas
    /// between them.
    pub fn layer2_guardset(&self) -> (r: String)
        ensures
            r@ == joined(layer_ids(self.layer2@)),
    {
        join_ids(&self.layer2)
    }

    /// The fingerprints of the third layer in one line, with commas between
    /// them.
    pub fn layer3_guardset(&self) -> (r: String)
        ensures
            r@ == joined(layer_ids(self.layer3@)),
    {
        join_ids(&self.layer3)
    }

    /// Draws the lifetime of a guard, in milliseconds: the longer of two
    /// lifetimes drawn from `min_hours` to `max_hours`.
    pub fn calculate_guard_lifetime(min_hours: u32, max_hours: u32) -> (r: u64)
        requires
            min_hours <= max_hours,
        ensures
            min_hours * MILLIS_PER_HOUR <= r <= max_hours * MILLIS_PER_HOUR,
    {
        let lo: u64 = min_hours as u64 * MILLIS_PER_HOUR;
        let hi: u64 = max_hours as u64 * MILLIS_PER_HOUR;
        let sample1 = random_in(lo, hi);
        let sample2 = random_in(lo, hi);
        longer_lifetime(sample1, sample2)
    }

    /// Drops from `layer` the guards whose fingerprint is not in
    /// `consensus_fps`.
    pub fn remove_down_from_layer(layer: &mut Vec<GuardNode>, consensus_fps: &StrSet)
        ensures
            final(layer)@ == in_consensus(old(layer)@, consensus_fps@),
    {
        let mut keep: Vec<bool> = Vec::new();
        let mut i: usize = 0;
        while i < layer.len()
            invariant
                0 <= i <= layer@.len(),
                layer@ == old(layer)@,
                keep@.len() == i,
                forall|j: int|
                    0 <= j < i ==> #[trigger] keep@[j] == consensus_fps@.contains(layer@[j].idhex@),
            decreases layer@.len() - i,
        {
            keep.push(consensus_fps.contains(layer[i].idhex.as_str()));
            i += 1;
        }
        proof {
            assert(keep@ =~= Seq::new(
                layer@.len(),
                |i: int| consensus_fps@.contains(layer@[i].idhex@),
            ));
        }
        retain_flagged(layer, &keep);
    }

    /// Drops from `layer` the guards that are expired at `now`.
    pub fn remove_expired_from_layer_at(layer: &mut Vec<GuardNode>, now: u64)
        ensures
            final(layer)@ == unexpired(old(layer)@, now),
    {
        let mut keep: Vec<bool> = Vec::new();
        let mut i: usize = 0;
        while i < layer.len()
            invariant
                0 <= i <= layer@.len(),
                layer@ == old(layer)@,
                keep@.len() == i,
                forall|j: int| 0 <= j < i ==> #[trigger] keep@[j] == !layer@[j].spec_is_expired(now),
            decreases layer@.len() - i,
        {
            keep.push(!layer[i].is_expired_at(now));
            i += 1;
        }
        proof {
            assert(keep@ =~= Seq::new(layer@.len(), |i: int| !layer@[i].spec_is_expired(now)));
        }
        retain_flagged(layer, &keep);
    }

    /// Drops from `layer` the guards that are expired now, by the system
    /// clock.
    pub fn remove_expired_from_layer(layer: &mut Vec<GuardNode>)
        ensures
            exists|now: u64| final(layer)@ == #[trigger] unexpired(old(layer)@, now),
    {
        let now = now_millis();
        VanguardState::remove_expired_from_layer_at(layer, now);
    }
}

/// The fingerprints of `layer` in one line, with commas between them.
pub fn join_ids(layer: &Vec<GuardNode>) -> (r: String)
    ensures
        r@ == joined(layer_ids(layer@)),
{
    let mut out = String::new();
    let ghost ids = layer_ids(layer@);
    let mut i: usize = 0;
    proof {
        assert(ids.take(0) =~= Seq::<Seq<char>>::empty());
    }
    while i < layer.len()
        invariant
            0 <= i <= layer@.len(),
            ids == layer_ids(layer@),
            out@ == joined(ids.take(i as int)),
        decreases layer@.len() - i,
    {
        proof {
            assert(ids.take(i + 1).drop_last() =~= ids.take(i as int));
            assert(ids.take(i + 1).last() == layer@[i as int].idhex@);
        }
        if i > 0 {
            out.push(',');
        }
        let ghost prefix = out@;
        out.append(layer[i].idhex.as_str());
        proof {
            if i == 0 {
                assert(out@ =~= ids[0]);
                assert(ids.take(1)[0] == ids[0]);
            } else {
                assert(prefix =~= joined(ids.take(i as int)) + seq![',']);
            }
        }
        i += 1;
    }
    proof {
        assert(ids.take(layer@.len() as int) =~= ids);
    }
    out
}

/// The lifetime of a guard for which the two lifetimes `sample1` and
/// `sample2` were drawn: the longer one, so that long lifetimes are more
/// likely than short ones.
pub fn longer_lifetime(sample1: u64, sample2: u64) -> (r: u64)
    ensures
        r == (if sample1 >= sample2 {
            sample1
        } else {
            sample2
        }),
{
    if sample1 >= sample2 {
        sample1
    } else {
        sample2
    }
}

/// The position of the last relay of `routers` with the fingerprint `fp`.
pub open spec fn last_with(routers: Seq<Router>, fp: Seq<char>) -> Option<int>
    decreases routers.len(),
{
    if routers.len() == 0 {
        None
    } else if routers.last()@.fingerprint == fp {
        Some(routers.len() - 1)
    } else {
        last_with(routers.drop_last(), fp)
    }
}

/// Whether the guard may stay under the exclusions `ex`: the consensus
/// entry of its relay, the last of `routers` with its fingerprint, is not
/// excluded, or there is no such entry.
pub open spec fn allowed(g: GuardNode, routers: Seq<Router>, ex: ExcludeView) -> bool {
    match last_with(routers, g.idhex@) {
        Some(i) => !ex.spec_excluded(routers[i]@),
        None => true,
    }
}

/// The guards of `layer` that may stay under the exclusions `ex`, in order.
pub open spec fn still_allowed(
    layer: Seq<GuardNode>,
    routers: Seq<Router>,
    ex: ExcludeView,
) -> Seq<GuardNode> {
    retained(layer, Seq::new(layer.len(), |i: int| allowed(layer[i], routers, ex)))
}

/// Whether `g` is a guard that a draw may add to `layer` at `now`: its
/// fingerprint is not yet in the layer, it is the fingerprint of a relay of
/// the generator that is not excluded, the guard is chosen at `now`, and it
/// lives for `min_hours` to `max_hours` hours from then.
pub open spec fn drawn_guard(
    layer: Seq<GuardNode>,
    g: GuardNode,
    generator: BwWeightedGenerator,
    ex: ExcludeView,
    now: u64,
    min_hours: u32,
    max_hours: u32,
) -> bool {
    &&& !in_layer(layer, g.idhex@)
    &&& exists|i: int|
        0 <= i < generator.spec_routers().len() && (#[trigger] generator.spec_routers()[i])@.fingerprint
            == g.idhex@ && !ex.spec_excluded(generator.spec_routers()[i]@)
    &&& g.chosen_at == now
    &&& now + min_hours * MILLIS_PER_HOUR <= g.expires_at <= now + max_hours * MILLIS_PER_HOUR
}

/// Whether every guard of `layer` from position `from` on is one that a
/// draw may have added to the guards before it.
pub open spec fn drawn_from(
    layer: Seq<GuardNode>,
    from: int,
    generator: BwWeightedGenerator,
    ex: ExcludeView,
    now: u64,
    min_hours: u32,
    max_hours: u32,
) -> bool {
    forall|i: int|
        from <= i < layer.len() ==> drawn_guard(
            layer.take(i),
            #[trigger] layer[i],
            generator,
            ex,
            now,
            min_hours,
            max_hours,
        )
}

/// A layer without duplicates stays without them when a guard is added
/// whose fingerprint is not in it.
pub proof fn lemma_push_no_duplicates(layer: Seq<GuardNode>, g: GuardNode)
    requires
        no_duplicates(layer),
        !in_layer(layer, g.idhex@),
    ensures
        no_duplicates(layer.push(g)),
{
    assert forall|i: int, j: int| 0 <= i < j < layer.push(g).len() implies (#[trigger] layer.push(
        g,
    )[i]).idhex@ != (#[trigger] layer.push(g)[j]).idhex@ by {
        if j == layer.len() {
            assert(layer[i].idhex@ != g.idhex@);
        } else {
            assert(layer[i].idhex@ != layer[j].idhex@);
        }
    }
}

/// A prefix of a layer without duplicates has no duplicates.
pub proof fn lemma_take_no_duplicates(layer: Seq<GuardNode>, k: int)
    requires
        no_duplicates(layer),
        0 <= k <= layer.len(),
    ensures
        no_duplicates(layer.take(k)),
{
    assert forall|i: int, j: int| 0 <= i < j < layer.take(k).len() implies (#[trigger] layer.take(
        k,
    )[i]).idhex@ != (#[trigger] layer.take(k)[j]).idhex@ by {
        assert(layer[i].idhex@ != layer[j].idhex@);
    }
}

/// Whether a guard of `layer` has the fingerprint `fp`.
pub fn layer_has(layer: &Vec<GuardNode>, fp: &str) -> (r: bool)
    ensures
        r == in_layer(layer@, fp@),
{
    let mut i: usize = 0;
    while i < layer.len()
        invariant
            0 <= i <= layer@.len(),
            forall|j: int| 0 <= j < i ==> (#[trigger] layer@[j]).idhex@ != fp@,
        decreases layer@.len() - i,
    {
        if layer[i].idhex.as_str().eq(fp) {
            return true;
        }
        i += 1;
    }
    false
}

/// Whether the relay that a draw produced may join `layer`: its
/// fingerprint is not yet in the layer, and the relay is not excluded.
pub fn candidate_ok(layer: &Vec<GuardNode>, candidate: &Router, excluded: &ExcludeNodes) -> (r:
    bool)
    ensures
        r == (!in_layer(layer@, candidate@.fingerprint) && !excluded@.spec_excluded(candidate@)),
{
    !layer_has(layer, candidate.fingerprint.as_str()) && !excluded.router_is_excluded(candidate)
}

/// Whether a relay may join `layer`: its fingerprint is not yet in the
/// layer, and the relay is not excluded.
pub open spec fn can_join(layer: Seq<GuardNode>, r: RouterView, ex: ExcludeView) -> bool {
    !in_layer(layer, r.fingerprint) && !ex.spec_excluded(r)
}

/// Whether a relay of the generator may join `layer`.
pub open spec fn any_can_join(
    layer: Seq<GuardNode>,
    generator: BwWeightedGenerator,
    ex: ExcludeView,
) -> bool {
    exists|i: int|
        0 <= i < generator.spec_routers().len() && can_join(
            layer,
            (#[trigger] generator.spec_routers()[i])@,
            ex,
        )
}

/// Takes in a relay that was drawn for `layer`, with the lifetime that was
/// drawn for it. Where the relay may join, it becomes the layer's last
/// guard, chosen at `now` and expiring `lifetime` later; otherwise the
/// layer stays as it is. The result tells whether the relay joined.
pub fn try_add_guard(
    layer: &mut Vec<GuardNode>,
    candidate: &Router,
    excluded: &ExcludeNodes,
    now: u64,
    lifetime: u64,
) -> (joined: bool)
    requires
        now + lifetime <= u64::MAX,
    ensures
        joined == can_join(old(layer)@, candidate@, excluded@),
        if joined {
            &&& final(layer)@.len() == old(layer)@.len() + 1
            &&& final(layer)@.drop_last() == old(layer)@
            &&& final(layer)@.last().idhex@ == candidate@.fingerprint
            &&& final(layer)@.last().chosen_at == now
            &&& final(layer)@.last().expires_at == now + lifetime
        } else {
            final(layer)@ == old(layer)@
        },
{
    if !candidate_ok(layer, candidate, excluded) {
        return false;
    }
    let ghost before = layer@;
    layer.push(GuardNode::new(candidate.fingerprint.clone(), now, now + lifetime));
    proof {
        assert(layer@.drop_last() =~= before);
    }
    true
}

/// Adds to `layer` one guard drawn from `generator`: up to 1000 times a
/// relay and a lifetime from `min_hours` to `max_hours` are drawn and taken
/// in by `try_add_guard`, until a relay joins.
///
/// Fails with `NoNodesRemain`, and leaves the layer as it is, where the
/// generator cannot draw, as its weights add up to 0, or none of the draws
/// joins; the latter is certain where no relay of the generator may join.
pub fn add_guard(
    layer: &mut Vec<GuardNode>,
    generator: &BwWeightedGenerator,
    excluded: &ExcludeNodes,
    min_hours: u32,
    max_hours: u32,
    now: u64,
) -> (r: Result<(), Error>)
    requires
        min_hours <= max_hours,
        now + max_hours * MILLIS_PER_HOUR <= u64::MAX,
    ensures
        match r {
            Ok(_) => {
                &&& final(layer)@.len() == old(layer)@.len() + 1
                &&& final(layer)@.drop_last() == old(layer)@
                &&& drawn_guard(
                    old(layer)@,
                    final(layer)@.last(),
                    *generator,
                    excluded@,
                    now,
                    min_hours,
                    max_hours,
                )
            },
            Err(e) => e is NoNodesRemain && final(layer)@ == old(layer)@,
        },
        generator.spec_routers().len() == 0 || generator.spec_weight_total() == 0 ==> r is Err,
        !any_can_join(old(layer)@, *generator, excluded@) ==> r is Err,
{
    generator.check_wf();
    let mut attempt: u32 = 0;
    while attempt < 1000
        invariant
            0 <= attempt <= 1000,
            layer@ == old(layer)@,
            generator.wf(),
            min_hours <= max_hours,
            now + max_hours * MILLIS_PER_HOUR <= u64::MAX,
        decreases 1000 - attempt,
    {
        let candidate = match generator.generate() {
            Ok(c) => c,
            Err(_) => {
                return Err(Error::NoNodesRemain);
            },
        };
        let lifetime = VanguardState::calculate_guard_lifetime(min_hours, max_hours);
        if try_add_guard(layer, candidate, excluded, now, lifetime) {
            proof {
                let draw = choose|draw: u64|
                    draw < generator.spec_weight_total() && *candidate
                        == #[trigger] generator.spec_choice(draw);
                lemma_pick_in_range(generator.spec_weights(), draw as int);
                let i = spec_pick(generator.spec_weights(), draw as int);
                assert(generator.spec_routers()[i]@.fingerprint == layer@.last().idhex@);
                assert(can_join(old(layer)@, generator.spec_routers()[i]@, excluded@));
            }
            return Ok(());
        }
        attempt += 1;
    }
    Err(Error::NoNodesRemain)
}

/// Trims `layer` to `target` guards and then adds drawn guards until it
/// holds `target` of them.
///
/// Fails with `NoNodesRemain` as soon as no guard can be added; the guards
/// added until then stay.
pub fn fill_layer(
    layer: &mut Vec<GuardNode>,
    target: usize,
    generator: &BwWeightedGenerator,
    excluded: &ExcludeNodes,
    min_hours: u32,
    max_hours: u32,
    now: u64,
) -> (r: Result<(), Error>)
    requires
        min_hours <= max_hours,
        now + max_hours * MILLIS_PER_HOUR <= u64::MAX,
    ensures
        ({
            let k = if old(layer)@.len() < target {
                old(layer)@.len() as int
            } else {
                target as int
            };
            &&& k <= final(layer)@.len() <= target
            &&& final(layer)@.take(k) == old(layer)@.take(k)
            &&& drawn_from(final(layer)@, k, *generator, excluded@, now, min_hours, max_hours)
            &&& no_duplicates(old(layer)@) ==> no_duplicates(final(layer)@)
        }),
        match r {
            Ok(_) => final(layer)@.len() == target,
            Err(e) => e is NoNodesRemain && final(layer)@.len() < target,
        },
        old(layer)@.len() >= target ==> r is Ok,
        old(layer)@.len() < target && generator.spec_weight_total() == 0 ==> r is Err,
{
    let ghost given = layer@;
    layer.truncate(target);
    let ghost k: int = if given.len() < target {
        given.len() as int
    } else {
        target as int
    };
    proof {
        assert(layer@ =~= given.take(k));
        assert(layer@.take(k) =~= given.take(k));
        if no_duplicates(given) {
            lemma_take_no_duplicates(given, k);
        }
    }
    while layer.len() < target
        invariant
            given == old(layer)@,
            k == (if given.len() < target {
                given.len() as int
            } else {
                target as int
            }),
            0 <= k <= layer@.len() <= target,
            layer@.take(k) == given.take(k),
            drawn_from(layer@, k, *generator, excluded@, now, min_hours, max_hours),
            no_duplicates(given) ==> no_duplicates(layer@),
            generator.spec_weight_total() == 0 ==> layer@.len() == k,
            min_hours <= max_hours,
            now + max_hours * MILLIS_PER_HOUR <= u64::MAX,
        decreases target - layer@.len(),
    {
        let ghost before = layer@;
        match add_guard(layer, generator, excluded, min_hours, max_hours, now) {
            Ok(_) => {
                proof {
                    assert(layer@ =~= before.push(layer@.last()));
                    assert(layer@.take(k) =~= before.take(k));
                    assert forall|i: int| k <= i < layer@.len() implies drawn_guard(
                        layer@.take(i),
                        #[trigger] layer@[i],
                        *generator,
                        excluded@,
                        now,
                        min_hours,
                        max_hours,
                    ) by {
                        if i < before.len() {
                            assert(layer@.take(i) =~= before.take(i));
                            assert(layer@[i] == before[i]);
                        } else {
                            assert(layer@.take(i) =~= before);
                        }
                    }
                    if no_duplicates(given) {
                        lemma_push_no_duplicates(before, layer@.last());
                    }
                }
            },
            Err(e) => {
                return Err(e);
            },
        }
    }
    Ok(())
}

impl VanguardState {
    /// Drops from `layer` the guards whose relay is excluded according to
    /// its consensus entry, the last of `routers` with the guard's
    /// fingerprint. A guard without such an entry stays.
    pub fn remove_excluded_from_layer(
        layer: &mut Vec<GuardNode>,
        routers: &Vec<Router>,
        excluded: &ExcludeNodes,
    )
        ensures
            final(layer)@ == still_allowed(old(layer)@, routers@, excluded@),
    {
        let mut keep: Vec<bool> = Vec::new();
        let mut i: usize = 0;
        while i < layer.len()
            invariant
                0 <= i <= layer@.len(),
                layer@ == old(layer)@,
                keep@.len() == i,
                forall|j: int|
                    0 <= j < i ==> #[trigger] keep@[j] == allowed(layer@[j], routers@, excluded@),
            decreases layer@.len() - i,
        {
            let fp = layer[i].idhex.as_str();
            let mut n: usize = routers.len();
            let mut verdict = true;
            proof {
                assert(routers@.take(n as int) =~= routers@);
            }
            while n > 0
                invariant_except_break
                    verdict,
                    last_with(routers@, fp@) == last_with(routers@.take(n as int), fp@),
                invariant
                    0 <= n <= routers@.len(),
                    0 <= i < layer@.len(),
                    fp@ == layer@[i as int].idhex@,
                    allowed(layer@[i as int], routers@, excluded@) == match last_with(
                        routers@,
                        fp@,
                    ) {
                        Some(x) => !excluded@.spec_excluded(routers@[x]@),
                        None => true,
                    },
                ensures
                    verdict == allowed(layer@[i as int], routers@, excluded@),
                decreases n,
            {
                proof {
                    assert(routers@.take(n as int).drop_last() =~= routers@.take(n - 1));
                    assert(routers@.take(n as int).last() == routers@[n - 1]);
                }
                if routers[n - 1].fingerprint.as_str().eq(fp) {
                    verdict = !excluded.router_is_excluded(&routers[n - 1]);
                    break ;
                }
                n -= 1;
            }
            keep.push(verdict);
            i += 1;
        }
        proof {
            assert(keep@ =~= Seq::new(
                layer@.len(),
                |i: int| allowed(layer@[i], routers@, excluded@),
            ));
        }
        retain_flagged(layer, &keep);
    }

    /// Adds one drawn guard to the second layer, chosen at `now`.
    pub fn add_new_layer2_at(
        &mut self,
        generator: &BwWeightedGenerator,
        excluded: &ExcludeNodes,
        config: &VanguardsConfig,
        now: u64,
    ) -> (r: Result<(), Error>)
        requires
            config.min_layer2_lifetime_hours <= config.max_layer2_lifetime_hours,
            now + config.max_layer2_lifetime_hours * MILLIS_PER_HOUR <= u64::MAX,
        ensures
            match r {
                Ok(_) => {
                    &&& final(self).layer2@.len() == old(self).layer2@.len() + 1
                    &&& final(self).layer2@.drop_last() == old(self).layer2@
                    &&& drawn_guard(
                        old(self).layer2@,
                        final(self).layer2@.last(),
                        *generator,
                        excluded@,
                        now,
                        config.min_layer2_lifetime_hours,
                        config.max_layer2_lifetime_hours,
                    )
                },
                Err(e) => e is NoNodesRemain && final(self).layer2@ == old(self).layer2@,
            },
            final(self).layer3 == old(self).layer3,
            final(self).rendguard == old(self).rendguard,
            final(self).state_file == old(self).state_file,
            final(self).pickle_revision == old(self).pickle_revision,
            final(self).enable_vanguards == old(self).enable_vanguards,
            generator.spec_weight_total() == 0 ==> r is Err,
            !any_can_join(old(self).layer2@, *generator, excluded@) ==> r is Err,
    {
        add_guard(
            &mut self.layer2,
            generator,
            excluded,
            config.min_layer2_lifetime_hours,
            config.max_layer2_lifetime_hours,
            now,
        )
    }

    /// Adds one drawn guard to the third layer, chosen at `now`.
    pub fn add_new_layer3_at(
        &mut self,
        generator: &BwWeightedGenerator,
        excluded: &ExcludeNodes,
        config: &VanguardsConfig,
        now: u64,
    ) -> (r: Result<(), Error>)
        requires
            config.min_layer3_lifetime_hours <= config.max_layer3_lifetime_hours,
            now + config.max_layer3_lifetime_hours * MILLIS_PER_HOUR <= u64::MAX,
        ensures
            match r {
                Ok(_) => {
                    &&& final(self).layer3@.len() == old(self).layer3@.len() + 1
                    &&& final(self).layer3@.drop_last() == old(self).layer3@
                    &&& drawn_guard(
                        old(self).layer3@,
                        final(self).layer3@.last(),
                        *generator,
                        excluded@,
                        now,
                        config.min_layer3_lifetime_hours,
                        config.max_layer3_lifetime_hours,
                    )
                },
                Err(e) => e is NoNodesRemain && final(self).layer3@ == old(self).layer3@,
            },
            final(self).layer2 == old(self).layer2,
            final(self).rendguard == old(self).rendguard,
            final(self).state_file == old(self).state_file,
            final(self).pickle_revision == old(self).pickle_revision,
            final(self).enable_vanguards == old(self).enable_vanguards,
            generator.spec_weight_total() == 0 ==> r is Err,
            !any_can_join(old(self).layer3@, *generator, excluded@) ==> r is Err,
    {
        add_guard(
            &mut self.layer3,
            generator,
            excluded,
            config.min_layer3_lifetime_hours,
            config.max_layer3_lifetime_hours,
            now,
        )
    }

    /// Whether the guards of `final_layer` are those of `old_layer`,
    /// trimmed to `target`, followed by guards drawn at `now`.
    pub open spec fn replenished(
        old_layer: Seq<GuardNode>,
        final_layer: Seq<GuardNode>,
        target: int,
        generator: BwWeightedGenerator,
        ex: ExcludeView,
        now: u64,
        min_hours: u32,
        max_hours: u32,
    ) -> bool {
        let k = if old_layer.len() < target {
            old_layer.len() as int
        } else {
            target
        };
        &&& k <= final_layer.len() <= target
        &&& final_layer.take(k) == old_layer.take(k)
        &&& drawn_from(final_layer, k, generator, ex, now, min_hours, max_hours)
        &&& no_duplicates(old_layer) ==> no_duplicates(final_layer)
    }

    /// Whether a layer holds fewer guards than `config` asks for.
    pub open spec fn short_of(self, config: VanguardsConfig) -> bool {
        self.layer2@.len() < config.num_layer2_guards || self.layer3@.len()
            < config.num_layer3_guards
    }

    /// Brings both layers to their configured sizes at `now`: each layer is
    /// trimmed to its size, and then drawn guards are added, first to the
    /// second layer and then to the third, until each holds as many guards
    /// as configured.
    ///
    /// Fails with `NoNodesRemain` as soon as no guard can be added; what was
    /// done until then stays.
    pub fn replenish_layers_at(
        &mut self,
        generator: &BwWeightedGenerator,
        excluded: &ExcludeNodes,
        config: &VanguardsConfig,
        now: u64,
    ) -> (r: Result<(), Error>)
        requires
            config.min_layer2_lifetime_hours <= config.max_layer2_lifetime_hours,
            config.min_layer3_lifetime_hours <= config.max_layer3_lifetime_hours,
            now + config.max_layer2_lifetime_hours * MILLIS_PER_HOUR <= u64::MAX,
            now + config.max_layer3_lifetime_hours * MILLIS_PER_HOUR <= u64::MAX,
        ensures
            Self::replenished(
                old(self).layer2@,
                final(self).layer2@,
                config.num_layer2_guards as int,
                *generator,
                excluded@,
                now,
                config.min_layer2_lifetime_hours,
                config.max_layer2_lifetime_hours,
            ),
            Self::replenished(
                old(self).layer3@,
                final(self).layer3@,
                config.num_layer3_guards as int,
                *generator,
                excluded@,
                now,
                config.min_layer3_lifetime_hours,
                config.max_layer3_lifetime_hours,
            ),
            match r {
                Ok(_) => {
                    &&& final(self).layer2@.len() == config.num_layer2_guards
                    &&& final(self).layer3@.len() == config.num_layer3_guards
                },
                Err(e) => e is NoNodesRemain && old(self).short_of(*config) && final(self).short_of(
                    *config,
                ),
            },
            !old(self).short_of(*config) ==> r is Ok,
            old(self).short_of(*config) && generator.spec_weight_total() == 0 ==> r is Err,
            final(self).rendguard == old(self).rendguard,
            final(self).state_file == old(self).state_file,
            final(self).pickle_revision == old(self).pickle_revision,
            final(self).enable_vanguards == old(self).enable_vanguards,
    {
        let ghost l3 = self.layer3@;
        self.layer3.truncate(config.num_layer3_guards as usize);
        let ghost k3: int = if l3.len() < config.num_layer3_guards {
            l3.len() as int
        } else {
            config.num_layer3_guards as int
        };
        proof {
            assert(self.layer3@ =~= l3.take(k3));
            assert(self.layer3@.take(k3) =~= l3.take(k3));
            if no_duplicates(l3) {
                lemma_take_no_duplicates(l3, k3);
            }
        }
        match fill_layer(
            &mut self.layer2,
            config.num_layer2_guards as usize,
            generator,
            excluded,
            config.min_layer2_lifetime_hours,
            config.max_layer2_lifetime_hours,
            now,
        ) {
            Ok(_) => {},
            Err(e) => {
                return Err(e);
            },
        }
        let ghost trimmed = self.layer3@;
        let r = fill_layer(
            &mut self.layer3,
            config.num_layer3_guards as usize,
            generator,
            excluded,
            config.min_layer3_lifetime_hours,
            config.max_layer3_lifetime_hours,
            now,
        );
        proof {
            assert(trimmed.take(k3) =~= trimmed);
            assert(self.layer3@.take(k3) =~= l3.take(k3));
        }
        r
    }
}

impl VanguardState {
    /// Adds one drawn guard to the second layer, chosen now, by the system
    /// clock. Fails with `Validation`, and changes nothing, where the clock
    /// stands so late that the guard's expiry would leave `u64`.
    pub fn add_new_layer2(
        &mut self,
        generator: &BwWeightedGenerator,
        excluded: &ExcludeNodes,
        config: &VanguardsConfig,
    ) -> (r: Result<(), Error>)
        requires
            config.min_layer2_lifetime_hours <= config.max_layer2_lifetime_hours,
        ensures
            match r {
                Ok(_) => {
                    &&& final(self).layer2@.len() == old(self).layer2@.len() + 1
                    &&& final(self).layer2@.drop_last() == old(self).layer2@
                    &&& exists|now: u64| #[trigger]
                        drawn_guard(
                            old(self).layer2@,
                            final(self).layer2@.last(),
                            *generator,
                            excluded@,
                            now,
                            config.min_layer2_lifetime_hours,
                            config.max_layer2_lifetime_hours,
                        )
                },
                Err(e) => (e is NoNodesRemain || e is Validation) && final(self).layer2@ == old(self).layer2@,
            },
            final(self).layer3 == old(self).layer3,
            final(self).rendguard == old(self).rendguard,
            final(self).state_file == old(self).state_file,
            final(self).pickle_revision == old(self).pickle_revision,
            final(self).enable_vanguards == old(self).enable_vanguards,
            generator.spec_weight_total() == 0 ==> r is Err,
            !any_can_join(old(self).layer2@, *generator, excluded@) ==> r is Err,
    {
        let now = now_millis();
        if now > u64::MAX - config.max_layer2_lifetime_hours as u64 * MILLIS_PER_HOUR {
            return Err(Error::Validation(String::from_str("clock out of range")));
        }
        self.add_new_layer2_at(generator, excluded, config, now)
    }

    /// Adds one drawn guard to the third layer, chosen now, by the system
    /// clock. Fails with `Validation`, and changes nothing, where the clock
    /// stands so late that the guard's expiry would leave `u64`.
    pub fn add_new_layer3(
        &mut self,
        generator: &BwWeightedGenerator,
        excluded: &ExcludeNodes,
        config: &VanguardsConfig,
    ) -> (r: Result<(), Error>)
        requires
            config.min_layer3_lifetime_hours <= config.max_layer3_lifetime_hours,
        ensures
            match r {
                Ok(_) => {
                    &&& final(self).layer3@.len() == old(self).layer3@.len() + 1
                    &&& final(self).layer3@.drop_last() == old(self).layer3@
                    &&& exists|now: u64| #[trigger]
                        drawn_guard(
                            old(self).layer3@,
                            final(self).layer3@.last(),
                            *generator,
                            excluded@,
                            now,
                            config.min_layer3_lifetime_hours,
                            config.max_layer3_lifetime_hours,
                        )
                },
                Err(e) => (e is NoNodesRemain || e is Validation) && final(self).layer3@ == old(self).layer3@,
            },
            final(self).layer2 == old(self).layer2,
            final(self).rendguard == old(self).rendguard,
            final(self).state_file == old(self).state_file,
            final(self).pickle_revision == old(self).pickle_revision,
            final(self).enable_vanguards == old(self).enable_vanguards,
            generator.spec_weight_total() == 0 ==> r is Err,
            !any_can_join(old(self).layer3@, *generator, excluded@) ==> r is Err,
    {
        let now = now_millis();
        if now > u64::MAX - config.max_layer3_lifetime_hours as u64 * MILLIS_PER_HOUR {
            return Err(Error::Validation(String::from_str("clock out of range")));
        }
        self.add_new_layer3_at(generator, excluded, config, now)
    }

    /// Whether both layers of `after` are those of `self` replenished at
    /// `now` under `config`.
    pub open spec fn replenished_at(
        self,
        after: VanguardState,
        generator: BwWeightedGenerator,
        ex: ExcludeView,
        config: VanguardsConfig,
        now: u64,
    ) -> bool {
        &&& Self::replenished(
            self.layer2@,
            after.layer2@,
            config.num_layer2_guards as int,
            generator,
            ex,
            now,
            config.min_layer2_lifetime_hours,
            config.max_layer2_lifetime_hours,
        )
        &&& Self::replenished(
            self.layer3@,
            after.layer3@,
            config.num_layer3_guards as int,
            generator,
            ex,
            now,
            config.min_layer3_lifetime_hours,
            config.max_layer3_lifetime_hours,
        )
    }

    /// Brings both layers to their configured sizes now, by the system
    /// clock. Where no layer is short of guards there is only trimming to
    /// do, and the clock is not read. Otherwise it fails with `Validation`,
    /// and changes nothing, where the clock stands so late that a guard's
    /// expiry would leave `u64`.
    pub fn replenish_layers(
        &mut self,
        generator: &BwWeightedGenerator,
        excluded: &ExcludeNodes,
        config: &VanguardsConfig,
    ) -> (r: Result<(), Error>)
        requires
            config.min_layer2_lifetime_hours <= config.max_layer2_lifetime_hours,
            config.min_layer3_lifetime_hours <= config.max_layer3_lifetime_hours,
        ensures
            match r {
                Ok(_) => {
                    &&& final(self).layer2@.len() == config.num_layer2_guards
                    &&& final(self).layer3@.len() == config.num_layer3_guards
                    &&& exists|now: u64| #[trigger]
                        old(self).replenished_at(*final(self), *generator, excluded@, *config, now)
                },
                Err(e) => {
                    &&& old(self).short_of(*config)
                    &&& final(self).short_of(*config)
                    &&& {
                        ||| {
                            &&& e is Validation
                            &&& final(self).layer2@ == old(self).layer2@
                            &&& final(self).layer3@ == old(self).layer3@
                        }
                        ||| e is NoNodesRemain && exists|now: u64| #[trigger]
                            old(self).replenished_at(
                                *final(self),
                                *generator,
                                excluded@,
                                *config,
                                now,
                            )
                    }
                },
            },
            !old(self).short_of(*config) ==> r is Ok,
            old(self).short_of(*config) && generator.spec_weight_total() == 0 ==> r is Err,
            final(self).rendguard == old(self).rendguard,
            final(self).state_file == old(self).state_file,
            final(self).pickle_revision == old(self).pickle_revision,
            final(self).enable_vanguards == old(self).enable_vanguards,
    {
        let ghost before = *self;
        let full = self.layer2.len() >= config.num_layer2_guards as usize && self.layer3.len()
            >= config.num_layer3_guards as usize;
        let now = if full {
            0
        } else {
            now_millis()
        };
        if now > u64::MAX - config.max_layer2_lifetime_hours as u64 * MILLIS_PER_HOUR || now
            > u64::MAX - config.max_layer3_lifetime_hours as u64 * MILLIS_PER_HOUR {
            return Err(Error::Validation(String::from_str("clock out of range")));
        }
        let r = self.replenish_layers_at(generator, excluded, config, now);
        proof {
            assert(before.replenished_at(*self, *generator, excluded@, *config, now));
        }
        r
    }
}

/// Adding rules leaves the setting on unknown countries as it is.
pub proof fn lemma_setting_kept(start: ExcludeView, parts: Seq<Seq<char>>, after: ExcludeView)
    requires
        start.extended_by_all(parts, after),
    ensures
        after.exclude_unknowns == start.exclude_unknowns,
    decreases parts.len(),
{
    if parts.len() > 0 {
        let mid = choose|mid: ExcludeView|
            start.extended_by_all(parts.drop_last(), mid) && #[trigger] mid.extended_by(
                rule_of(parts.last()),
                after,
            );
        lemma_setting_kept(start, parts.drop_last(), mid);
    }
}

} // verus!
