//! What is done with the daemon's events: the update of the state on a new
//! consensus, the settings pushed to the daemon, and the handling of each
//! event by the monitors that are switched on.

use crate::bandguards::{
    BandwidthStats, BwDeltas, CircuitLimitResult, ConnectivityStatus, LimitView, StatsView,
};
use crate::cbtverify::{spec_rate, CbtReport, TimeoutStats, TimeoutView};
use crate::clock::now_millis;
use crate::config::{Config, LogLevel};
pub use crate::consensus::{
    base64_decode, decode_base64_fingerprint, get_consensus_weights, parse_network_statuses,
};
use crate::error::Error;
use crate::logguard::{dump_lines, entry_views, with_entry, EntryView, LogGuard};
use crate::node_selection::{
    exit_weight, lemma_passing, node_weight, passing, total_weight, BwWeightedGenerator,
    FlagsRestriction, NodeRestriction, NodeRestrictionList, Position, Router, RouterView,
};
use crate::pathverify::{hop, hop_fps, listed, PathIssue, PathVerify};
use crate::rendguard::RendCheckResult;
use crate::sorting::{by_falling_bandwidth, sort_by_bandwidth};
use crate::strmap::{StrMap, StrSet};
use crate::text::{
    chars_are, chars_of, concat, decimal, find_char, first_index, has_char, opt_str_view,
    opt_view, slice_of, spec_decimal, spec_split, spec_words, split, starts_with, string_of,
    string_views, views, words,
};
use crate::vanguards::{
    in_consensus, joined, layer_ids, lemma_retained, no_duplicates, still_allowed, unexpired,
    xfer_counts, ExcludeNodes, ExcludeView, GuardNode, VanguardState, MILLIS_PER_HOUR,
};
use vstd::prelude::*;

verus! {

/// Whether a relay may serve in a guard layer: it is fast, stable and
/// valid, and no directory authority.
pub open spec fn vanguard_eligible(r: RouterView) -> bool {
    r.has_flag("Fast"@) && r.has_flag("Stable"@) && r.has_flag("Valid"@) && !r.has_flag(
        "Authority"@,
    )
}

/// Whether a relay may serve as rendezvous point: it is fast and valid,
/// and no directory authority.
pub open spec fn rend_eligible(r: RouterView) -> bool {
    r.has_flag("Fast"@) && r.has_flag("Valid"@) && !r.has_flag("Authority"@)
}

/// What is added up over the relays of a consensus when the generators
/// are made: the weights in the middle position of the relays eligible for
/// a guard layer, those of the relays eligible as rendezvous points, or the
/// weights at the exit position of the latter that have the `Exit` flag.
pub ghost enum Pool {
    Vanguards,
    RendPoints,
    RendExits,
}

/// Whether the relay belongs to the pool.
pub open spec fn in_pool(r: RouterView, pool: Pool) -> bool {
    match pool {
        Pool::Vanguards => vanguard_eligible(r),
        Pool::RendPoints => rend_eligible(r),
        Pool::RendExits => rend_eligible(r) && r.has_flag("Exit"@),
    }
}

/// What the relay adds to the weight of the pool: its weight where it
/// belongs to the pool, else nothing.
pub open spec fn share(r: RouterView, weights: Map<Seq<char>, i64>, pool: Pool) -> nat {
    if !in_pool(r, pool) {
        0
    } else if pool is RendExits {
        node_weight(r, weights, Position::Exit)
    } else {
        node_weight(r, weights, Position::Middle)
    }
}

/// The weight of the pool among the relays of `rs`.
pub open spec fn pool_weight(rs: Seq<Router>, weights: Map<Seq<char>, i64>, pool: Pool) -> nat
    decreases rs.len(),
{
    if rs.len() == 0 {
        0
    } else {
        pool_weight(rs.drop_last(), weights, pool) + share(rs.last()@, weights, pool)
    }
}

/// Whether a relay of `rs` belongs to the pool.
pub open spec fn pool_filled(rs: Seq<Router>, pool: Pool) -> bool {
    exists|i: int| 0 <= i < rs.len() && in_pool((#[trigger] rs[i])@, pool)
}

/// Whether the generators can be made of the relays of `rs`: a relay is
/// eligible for the guard layers, and each pool's weight fits in 64 bits.
pub open spec fn pools_fit(rs: Seq<Router>, weights: Map<Seq<char>, i64>) -> bool {
    &&& pool_filled(rs, Pool::Vanguards)
    &&& pool_weight(rs, weights, Pool::Vanguards) <= u64::MAX
    &&& pool_weight(rs, weights, Pool::RendPoints) <= u64::MAX
    &&& pool_weight(rs, weights, Pool::RendExits) <= u64::MAX
}

/// Whether `a` and `b` hold relays of the same content, position by
/// position.
pub open spec fn same_relays(a: Seq<Router>, b: Seq<Router>) -> bool {
    &&& a.len() == b.len()
    &&& forall|i: int| 0 <= i < a.len() ==> (#[trigger] a[i])@ == b[i]@
}

/// Relays of the same content weigh the same.
pub proof fn lemma_same_relays(
    a: Seq<Router>,
    b: Seq<Router>,
    weights: Map<Seq<char>, i64>,
    pool: Pool,
)
    requires
        same_relays(a, b),
    ensures
        pool_weight(a, weights, pool) == pool_weight(b, weights, pool),
        pool_filled(a, pool) == pool_filled(b, pool),
    decreases a.len(),
{
    if a.len() > 0 {
        assert(same_relays(a.drop_last(), b.drop_last())) by {
            assert forall|i: int| 0 <= i < a.drop_last().len() implies (
            #[trigger] a.drop_last()[i])@ == b.drop_last()[i]@ by {
                assert(a[i]@ == b[i]@);
            }
        }
        assert(a.last()@ == b.last()@);
        lemma_same_relays(a.drop_last(), b.drop_last(), weights, pool);
    }
    if pool_filled(a, pool) {
        let i = choose|i: int| 0 <= i < a.len() && in_pool((#[trigger] a[i])@, pool);
        assert(in_pool(b[i]@, pool));
    }
    if pool_filled(b, pool) {
        let i = choose|i: int| 0 <= i < b.len() && in_pool((#[trigger] b[i])@, pool);
        assert(a[i]@ == b[i]@);
        assert(in_pool(a[i]@, pool));
    }
}

/// Without one of its relays a sequence weighs less by that relay's share.
pub proof fn lemma_weight_without(
    rs: Seq<Router>,
    j: int,
    weights: Map<Seq<char>, i64>,
    pool: Pool,
)
    requires
        0 <= j < rs.len(),
    ensures
        pool_weight(rs, weights, pool) == pool_weight(rs.remove(j), weights, pool) + share(
            rs[j]@,
            weights,
            pool,
        ),
    decreases rs.len(),
{
    if j == rs.len() - 1 {
        assert(rs.remove(j) =~= rs.drop_last());
    } else {
        lemma_weight_without(rs.drop_last(), j, weights, pool);
        assert(rs.remove(j).drop_last() =~= rs.drop_last().remove(j));
        assert(rs.remove(j).last() == rs.last());
    }
}

/// The weight of a pool does not depend on the order of the relays.
pub proof fn lemma_weight_rearranged(
    a: Seq<Router>,
    b: Seq<Router>,
    weights: Map<Seq<char>, i64>,
    pool: Pool,
)
    requires
        a.to_multiset() == b.to_multiset(),
    ensures
        pool_weight(a, weights, pool) == pool_weight(b, weights, pool),
    decreases a.len(),
{
    vstd::seq_lib::to_multiset_len(a);
    vstd::seq_lib::to_multiset_len(b);
    if a.len() > 0 {
        let x = a.last();
        assert(a[a.len() - 1] == x);
        assert(a.contains(x));
        vstd::seq_lib::to_multiset_contains(a, x);
        vstd::seq_lib::to_multiset_contains(b, x);
        let j = choose|j: int| 0 <= j < b.len() && b[j] == x;
        assert(a.drop_last() =~= a.remove(a.len() - 1));
        vstd::seq_lib::to_multiset_remove(a, a.len() - 1);
        vstd::seq_lib::to_multiset_remove(b, j);
        lemma_weight_rearranged(a.drop_last(), b.remove(j), weights, pool);
        lemma_weight_without(b, j, weights, pool);
    }
}

/// Among the relays that restrictions let pass which let pass exactly the
/// relays of a pool, the pool weighs what it weighs among all relays, and
/// a relay passes exactly where the pool holds one.
pub proof fn lemma_weight_passing<R: NodeRestriction>(
    rs: Seq<Router>,
    restrictions: NodeRestrictionList<R>,
    weights: Map<Seq<char>, i64>,
    pool: Pool,
)
    requires
        !(pool is RendExits),
        forall|rv: RouterView| #[trigger] restrictions.spec_ok(rv) <==> in_pool(rv, pool),
    ensures
        total_weight(passing(rs, restrictions), weights, Position::Middle) == pool_weight(
            rs,
            weights,
            pool,
        ),
        pool is RendPoints ==> exit_weight(passing(rs, restrictions), weights) == pool_weight(
            rs,
            weights,
            Pool::RendExits,
        ),
        passing(rs, restrictions).len() > 0 <==> pool_filled(rs, pool),
    decreases rs.len(),
{
    if rs.len() > 0 {
        let front = passing(rs.drop_last(), restrictions);
        lemma_weight_passing(rs.drop_last(), restrictions, weights, pool);
        if restrictions.spec_ok(rs.last()@) {
            assert(front.push(rs.last()).drop_last() =~= front);
            assert(in_pool(rs[rs.len() - 1]@, pool));
        }
        if pool_filled(rs.drop_last(), pool) {
            let i = choose|i: int|
                0 <= i < rs.drop_last().len() && in_pool((#[trigger] rs.drop_last()[i])@, pool);
            assert(in_pool(rs[i]@, pool));
        }
        if pool_filled(rs, pool) {
            let i = choose|i: int| 0 <= i < rs.len() && in_pool((#[trigger] rs[i])@, pool);
            if i < rs.len() - 1 {
                assert(in_pool(rs.drop_last()[i]@, pool));
            }
        }
    }
}

/// Each pool weighs among the sorted relays what it weighs among the
/// relays as given, and holds a relay in the one where it does in the other.
pub proof fn lemma_sorted_copy(
    sorted: Seq<Router>,
    routers: Seq<Router>,
    weights: Map<Seq<char>, i64>,
    pool: Pool,
)
    requires
        sorted_copy(sorted, routers),
    ensures
        pool_weight(sorted, weights, pool) == pool_weight(routers, weights, pool),
        pool_filled(sorted, pool) == pool_filled(routers, pool),
{
    let copy = choose|copy: Seq<Router>| #[trigger]
        same_relays(copy, routers) && copy.to_multiset() == sorted.to_multiset();
    lemma_same_relays(copy, routers, weights, pool);
    lemma_weight_rearranged(copy, sorted, weights, pool);
    if pool_filled(sorted, pool) {
        let i = choose|i: int| 0 <= i < sorted.len() && in_pool((#[trigger] sorted[i])@, pool);
        assert(has_view(routers, sorted[i]@));
        let j = choose|j: int| 0 <= j < routers.len() && (#[trigger] routers[j])@ == sorted[i]@;
        assert(in_pool(routers[j]@, pool));
    }
    if pool_filled(routers, pool) {
        let j = choose|j: int| 0 <= j < routers.len() && in_pool((#[trigger] routers[j])@, pool);
        assert(has_view(sorted, routers[j]@));
        let i = choose|i: int| 0 <= i < sorted.len() && (#[trigger] sorted[i])@ == routers[j]@;
        assert(in_pool(sorted[i]@, pool));
    }
}

/// The fingerprints of the relays of `routers`.
pub open spec fn fingerprints(routers: Seq<Router>) -> Set<Seq<char>> {
    Set::new(
        |fp: Seq<char>|
            exists|i: int| 0 <= i < routers.len() && (#[trigger] routers[i])@.fingerprint == fp,
    )
}

/// Whether `sorted` holds the relays of `routers`, each as often, in order
/// of falling bandwidth: it is a rearrangement of relays of the same
/// content.
pub open spec fn sorted_copy(sorted: Seq<Router>, routers: Seq<Router>) -> bool {
    &&& sorted.len() == routers.len()
    &&& by_falling_bandwidth(sorted)
    &&& exists|copy: Seq<Router>| #[trigger]
        same_relays(copy, routers) && copy.to_multiset() == sorted.to_multiset()
    &&& forall|i: int| 0 <= i < sorted.len() ==> has_view(routers, (#[trigger] sorted[i])@)
    &&& forall|j: int| 0 <= j < routers.len() ==> has_view(sorted, (#[trigger] routers[j])@)
}

/// Whether a relay of `rs` has the content `v`.
pub open spec fn has_view(rs: Seq<Router>, v: RouterView) -> bool {
    exists|j: int| 0 <= j < rs.len() && (#[trigger] rs[j])@ == v
}

/// The guards of `layer` that survive a new consensus: those whose relay
/// is in the consensus, that are not expired at `now`, and whose relay is
/// not excluded.
pub open spec fn reconciled(
    layer: Seq<GuardNode>,
    sorted: Seq<Router>,
    ex: ExcludeView,
    now: u64,
) -> Seq<GuardNode> {
    still_allowed(unexpired(in_consensus(layer, fingerprints(sorted)), now), sorted, ex)
}

/// What stands behind an update of the state: the relays in the order in
/// which they were considered, and the two generators made of them.
pub ghost struct UpdateWitness {
    pub sorted: Seq<Router>,
    pub vanguard_gen: BwWeightedGenerator,
    pub rend_gen: BwWeightedGenerator,
}

/// Whether `g` chooses for the middle position, under the weights
/// `weights`, among relays of `sorted` that are eligible for a guard layer.
pub open spec fn is_vanguard_gen(
    g: BwWeightedGenerator,
    sorted: Seq<Router>,
    weights: Map<Seq<char>, i64>,
) -> bool {
    &&& g.spec_position() == Position::Middle
    &&& g.spec_bw_weights() == weights
    &&& forall|i: int|
        0 <= i < g.spec_routers().len() ==> vanguard_eligible((#[trigger] g.spec_routers()[i])@)
            && has_view(sorted, g.spec_routers()[i]@)
}

/// Whether `g` chooses among the relays of `sorted` that are eligible as
/// rendezvous points, with the weights of the exits repaired: each relay
/// with the `Exit` flag weighs what it weighs as an exit, any other what it
/// weighs in the middle.
pub open spec fn is_rend_gen(
    g: BwWeightedGenerator,
    sorted: Seq<Router>,
    weights: Map<Seq<char>, i64>,
) -> bool {
    &&& g.spec_position() == Position::Middle
    &&& g.spec_bw_weights() == weights
    &&& g.spec_weights().len() == g.spec_routers().len()
    &&& g.spec_weight_total() == total_weight(g.spec_routers(), weights, Position::Middle)
    &&& g.spec_exit_total() == exit_weight(g.spec_routers(), weights)
    &&& forall|i: int|
        0 <= i < g.spec_routers().len() ==> rend_eligible((#[trigger] g.spec_routers()[i])@)
            && g.spec_weights()[i] == node_weight(
            g.spec_routers()[i]@,
            weights,
            if g.spec_routers()[i]@.has_flag("Exit"@) {
                Position::Exit
            } else {
                Position::Middle
            },
        ) && has_view(sorted, g.spec_routers()[i]@)
}

/// Whether the layers of `after` are those of `before` renewed for a new
/// consensus at `now`, with `w` standing behind the update: each layer
/// keeps the guards that survive the consensus, is trimmed to its size and
/// gets drawn guards, as far as guards could be drawn.
pub open spec fn layers_renewed(
    before: VanguardState,
    after: VanguardState,
    routers: Seq<Router>,
    weights: Map<Seq<char>, i64>,
    ex: ExcludeView,
    config: Config,
    now: u64,
    w: UpdateWitness,
) -> bool {
    &&& sorted_copy(w.sorted, routers)
    &&& is_vanguard_gen(w.vanguard_gen, w.sorted, weights)
    &&& VanguardState::replenished(
        reconciled(before.layer2@, w.sorted, ex, now),
        after.layer2@,
        config.vanguards.num_layer2_guards as int,
        w.vanguard_gen,
        ex,
        now,
        config.vanguards.min_layer2_lifetime_hours,
        config.vanguards.max_layer2_lifetime_hours,
    )
    &&& VanguardState::replenished(
        reconciled(before.layer3@, w.sorted, ex, now),
        after.layer3@,
        config.vanguards.num_layer3_guards as int,
        w.vanguard_gen,
        ex,
        now,
        config.vanguards.min_layer3_lifetime_hours,
        config.vanguards.max_layer3_lifetime_hours,
    )
}

/// Whether `after` is what a failed update of `before` for a new consensus
/// at `now` leaves, where it failed with `e`.
///
/// No generator for the guard layers can be made where no relay is
/// eligible for them (`NoNodesRemain`) or their weights leave 64 bits
/// (`Validation`): the state is then left as it was. After that the
/// update fails with `NoNodesRemain` where the layers are managed and one
/// of them could not be filled, and else with `Validation` where the
/// weights of the rendezvous points leave 64 bits; the layers, where they
/// are managed, are then renewed. The rendezvous-point counts are left as
/// they were in any case.
pub open spec fn update_failed(
    before: VanguardState,
    after: VanguardState,
    routers: Seq<Router>,
    weights: Map<Seq<char>, i64>,
    ex: ExcludeView,
    config: Config,
    now: u64,
    e: Error,
) -> bool {
    &&& after.rendguard == before.rendguard
    &&& if !pool_filled(routers, Pool::Vanguards) {
        &&& e is NoNodesRemain
        &&& after.layer2@ == before.layer2@
        &&& after.layer3@ == before.layer3@
    } else if pool_weight(routers, weights, Pool::Vanguards) > u64::MAX {
        &&& e is Validation
        &&& after.layer2@ == before.layer2@
        &&& after.layer3@ == before.layer3@
    } else {
        &&& if before.enable_vanguards {
            exists|w: UpdateWitness| #[trigger]
                layers_renewed(before, after, routers, weights, ex, config, now, w)
        } else {
            after.layer2@ == before.layer2@ && after.layer3@ == before.layer3@
        }
        &&& if before.enable_vanguards && after.short_of(config.vanguards) {
            e is NoNodesRemain
        } else {
            &&& e is Validation
            &&& pool_weight(routers, weights, Pool::RendPoints) > u64::MAX || pool_weight(
                routers,
                weights,
                Pool::RendExits,
            ) > u64::MAX
        }
    }
}

/// Whether `after` is the state `before` updated for a new consensus at
/// `now`, with `w` standing behind the update.
///
/// Where the guard layers are managed, each layer keeps the guards that
/// survive the consensus, is trimmed to its size and filled up with drawn
/// guards. The rendezvous-point counts are made anew for the relays
/// eligible as rendezvous points, keeping the uses of those that had a
/// count.
pub open spec fn updated(
    before: VanguardState,
    after: VanguardState,
    routers: Seq<Router>,
    weights: Map<Seq<char>, i64>,
    ex: ExcludeView,
    config: Config,
    now: u64,
    w: UpdateWitness,
) -> bool {
    &&& is_rend_gen(w.rend_gen, w.sorted, weights)
    &&& if before.enable_vanguards {
        &&& layers_renewed(before, after, routers, weights, ex, config, now, w)
        &&& after.layer2@.len() == config.vanguards.num_layer2_guards
        &&& after.layer3@.len() == config.vanguards.num_layer3_guards
    } else {
        &&& sorted_copy(w.sorted, routers)
        &&& is_vanguard_gen(w.vanguard_gen, w.sorted, weights)
        &&& after.layer2@ == before.layer2@
        &&& after.layer3@ == before.layer3@
    }
    &&& after.rendguard.wf()
    &&& after.rendguard.counts() == xfer_counts(
        before.rendguard.counts(),
        before.rendguard.total_use_counts >= config.rendguard.use_scale_at_count
            * crate::config::FIXED_ONE,
        w.rend_gen,
        config.rendguard,
    )
    &&& after.state_file == before.state_file
    &&& after.pickle_revision == before.pickle_revision
    &&& after.enable_vanguards == before.enable_vanguards
}

/// After an update for a new consensus, each managed layer holds as many
/// guards as configured, and holds none twice where it held none twice
/// before.
pub proof fn lemma_update_fills_layers(
    before: VanguardState,
    after: VanguardState,
    routers: Seq<Router>,
    weights: Map<Seq<char>, i64>,
    ex: ExcludeView,
    config: Config,
    now: u64,
    w: UpdateWitness,
)
    requires
        updated(before, after, routers, weights, ex, config, now, w),
        before.enable_vanguards,
    ensures
        after.layer2@.len() == config.vanguards.num_layer2_guards,
        after.layer3@.len() == config.vanguards.num_layer3_guards,
        no_duplicates(before.layer2@) ==> no_duplicates(after.layer2@),
        no_duplicates(before.layer3@) ==> no_duplicates(after.layer3@),
{
    lemma_reconciled(before.layer2@, w.sorted, ex, now);
    lemma_reconciled(before.layer3@, w.sorted, ex, now);
}

/// The guards that survive a new consensus are guards of the layer, none
/// twice where the layer held none twice.
pub proof fn lemma_reconciled(layer: Seq<GuardNode>, sorted: Seq<Router>, ex: ExcludeView, now: u64)
    ensures
        reconciled(layer, sorted, ex, now).len() <= layer.len(),
        no_duplicates(layer) ==> no_duplicates(reconciled(layer, sorted, ex, now)),
{
    let fps = fingerprints(sorted);
    let a = in_consensus(layer, fps);
    lemma_retained(layer, Seq::new(layer.len(), |i: int| fps.contains(layer[i].idhex@)));
    let b = unexpired(a, now);
    lemma_retained(a, Seq::new(a.len(), |i: int| !a[i].spec_is_expired(now)));
    lemma_retained(b, Seq::new(b.len(), |i: int| crate::vanguards::allowed(b[i], sorted, ex)));
}

/// Copies of the relays of `routers`, in order.
pub fn clone_routers(routers: &Vec<Router>) -> (r: Vec<Router>)
    ensures
        r@.len() == routers@.len(),
        forall|i: int| 0 <= i < r@.len() ==> (#[trigger] r@[i])@ == routers@[i]@,
{
    let mut out: Vec<Router> = Vec::new();
    let mut i: usize = 0;
    while i < routers.len()
        invariant
            0 <= i <= routers@.len(),
            out@.len() == i,
            forall|j: int| 0 <= j < i ==> (#[trigger] out@[j])@ == routers@[j]@,
        decreases routers@.len() - i,
    {
        out.push(routers[i].clone());
        i += 1;
    }
    out
}

/// The fingerprints of the relays of `routers`.
pub fn fingerprint_set(routers: &Vec<Router>) -> (r: StrSet)
    ensures
        r@ == fingerprints(routers@),
{
    let mut out = StrSet::new();
    let mut i: usize = 0;
    while i < routers.len()
        invariant
            0 <= i <= routers@.len(),
            forall|fp: Seq<char>|
                out@.contains(fp) <==> exists|j: int|
                    0 <= j < i && (#[trigger] routers@[j])@.fingerprint == fp,
        decreases routers@.len() - i,
    {
        let ghost before = out@;
        out.insert(routers[i].fingerprint.clone());
        proof {
            assert forall|fp: Seq<char>| out@.contains(fp) <==> exists|j: int|
                0 <= j < i + 1 && (#[trigger] routers@[j])@.fingerprint == fp by {
                if out@.contains(fp) {
                    if before.contains(fp) {
                        let j = choose|j: int|
                            0 <= j < i && (#[trigger] routers@[j])@.fingerprint == fp;
                        assert(0 <= j < i + 1 && routers@[j]@.fingerprint == fp);
                    } else {
                        assert(routers@[i as int]@.fingerprint == fp);
                    }
                }
                if exists|j: int| 0 <= j < i + 1 && (#[trigger] routers@[j])@.fingerprint == fp {
                    let j = choose|j: int|
                        0 <= j < i + 1 && (#[trigger] routers@[j])@.fingerprint == fp;
                    if j < i {
                        assert(before.contains(fp));
                    }
                }
            }
        }
        i += 1;
    }
    proof {
        assert(out@ =~= fingerprints(routers@));
    }
    out
}

/// The restrictions on the relays of a guard layer.
pub fn vanguard_restrictions() -> (r: NodeRestrictionList<FlagsRestriction>)
    ensures
        forall|rv: RouterView| #[trigger] r.spec_ok(rv) <==> in_pool(rv, Pool::Vanguards),
{
    let mut mandatory: Vec<String> = Vec::new();
    mandatory.push(String::from_str("Fast"));
    mandatory.push(String::from_str("Stable"));
    mandatory.push(String::from_str("Valid"));
    let mut forbidden: Vec<String> = Vec::new();
    forbidden.push(String::from_str("Authority"));
    let f = FlagsRestriction::new(mandatory, forbidden);
    let ghost fg = f;
    let mut list: Vec<FlagsRestriction> = Vec::new();
    list.push(f);
    let r = NodeRestrictionList::new(list);
    proof {
        assert(fg.mandatory@[0]@ == "Fast"@);
        assert(fg.mandatory@[1]@ == "Stable"@);
        assert(fg.mandatory@[2]@ == "Valid"@);
        assert(fg.forbidden@[0]@ == "Authority"@);
        assert forall|rv: RouterView| #[trigger] r.spec_ok(rv) <==> in_pool(
            rv,
            Pool::Vanguards,
        ) by {
            if r.spec_ok(rv) {
                assert(r.spec_restrictions()[0].spec_ok(rv));
            }
            if in_pool(rv, Pool::Vanguards) {
                assert(fg.spec_ok(rv));
            }
        }
    }
    r
}

/// The restrictions on rendezvous points.
pub fn rend_restrictions() -> (r: NodeRestrictionList<FlagsRestriction>)
    ensures
        forall|rv: RouterView| #[trigger] r.spec_ok(rv) <==> in_pool(rv, Pool::RendPoints),
{
    let mut mandatory: Vec<String> = Vec::new();
    mandatory.push(String::from_str("Fast"));
    mandatory.push(String::from_str("Valid"));
    let mut forbidden: Vec<String> = Vec::new();
    forbidden.push(String::from_str("Authority"));
    let f = FlagsRestriction::new(mandatory, forbidden);
    let ghost fg = f;
    let mut list: Vec<FlagsRestriction> = Vec::new();
    list.push(f);
    let r = NodeRestrictionList::new(list);
    proof {
        assert(fg.mandatory@[0]@ == "Fast"@);
        assert(fg.mandatory@[1]@ == "Valid"@);
        assert(fg.forbidden@[0]@ == "Authority"@);
        assert forall|rv: RouterView| #[trigger] r.spec_ok(rv) <==> in_pool(
            rv,
            Pool::RendPoints,
        ) by {
            if r.spec_ok(rv) {
                assert(r.spec_restrictions()[0].spec_ok(rv));
            }
            if in_pool(rv, Pool::RendPoints) {
                assert(fg.spec_ok(rv));
            }
        }
    }
    r
}

/// A copy of the relays of `routers` in order of falling bandwidth.
pub fn sorted_routers(routers: &Vec<Router>) -> (r: Vec<Router>)
    ensures
        sorted_copy(r@, routers@),
{
    let mut sorted = clone_routers(routers);
    let ghost copy = sorted@;
    sort_by_bandwidth(&mut sorted);
    proof {
        vstd::seq_lib::to_multiset_len(sorted@);
        vstd::seq_lib::to_multiset_len(copy);
        assert forall|i: int| 0 <= i < sorted@.len() implies has_view(
            routers@,
            (#[trigger] sorted@[i])@,
        ) by {
            let x = sorted@[i];
            assert(sorted@.contains(x));
            vstd::seq_lib::to_multiset_contains(sorted@, x);
            vstd::seq_lib::to_multiset_contains(copy, x);
            let j = choose|j: int| 0 <= j < copy.len() && copy[j] == x;
            assert(routers@[j]@ == sorted@[i]@);
        }
        assert forall|j: int| 0 <= j < routers@.len() implies has_view(
            sorted@,
            (#[trigger] routers@[j])@,
        ) by {
            let x = copy[j];
            assert(copy.contains(x));
            vstd::seq_lib::to_multiset_contains(sorted@, x);
            vstd::seq_lib::to_multiset_contains(copy, x);
            let i = choose|i: int| 0 <= i < sorted@.len() && sorted@[i] == x;
            assert(sorted@[i]@ == routers@[j]@);
        }
        assert(sorted@.len() == routers@.len());
        assert(by_falling_bandwidth(sorted@));
        assert(same_relays(copy, routers@));
    }
    sorted
}

/// A generator for the guard layers, over the relays of `sorted`.
///
/// Fails with `NoNodesRemain` where no relay is eligible for the guard
/// layers, and else with `Validation` where the weights of the eligible
/// relays do not add up within 64 bits.
pub fn vanguard_generator(sorted: &Vec<Router>, weights: &StrMap<i64>) -> (r: Result<
    BwWeightedGenerator,
    Error,
>)
    ensures
        match r {
            Ok(g) => {
                &&& is_vanguard_gen(g, sorted@, weights@)
                &&& g.spec_routers().len() > 0
                &&& g.spec_weight_total() == pool_weight(sorted@, weights@, Pool::Vanguards)
                &&& pool_filled(sorted@, Pool::Vanguards)
            },
            Err(e) => if !pool_filled(sorted@, Pool::Vanguards) {
                e is NoNodesRemain
            } else {
                e is Validation && pool_weight(sorted@, weights@, Pool::Vanguards) > u64::MAX
            },
        },
{
    let restrictions = vanguard_restrictions();
    let pool = clone_routers(sorted);
    let ghost pool_seq = pool@;
    proof {
        assert(same_relays(pool_seq, sorted@));
        lemma_same_relays(pool_seq, sorted@, weights@, Pool::Vanguards);
        lemma_weight_passing(pool_seq, restrictions, weights@, Pool::Vanguards);
    }
    let generator = match BwWeightedGenerator::new(
        pool,
        restrictions,
        weights.copied(),
        Position::Middle,
    ) {
        Ok(g) => g,
        Err(e) => {
            return Err(e);
        },
    };
    proof {
        lemma_passing(pool_seq, restrictions);
        assert forall|i: int| 0 <= i < generator.spec_routers().len() implies vanguard_eligible(
            (#[trigger] generator.spec_routers()[i])@,
        ) && has_view(sorted@, generator.spec_routers()[i]@) by {
            let x = generator.spec_routers()[i];
            assert(restrictions.spec_ok(x@));
            assert(pool_seq.contains(x));
            let j = choose|j: int| 0 <= j < pool_seq.len() && pool_seq[j] == x;
            assert(sorted@[j]@ == x@);
        }
    }
    Ok(generator)
}

/// A generator for rendezvous points, over the relays of `sorted`, with
/// the weights of the exits repaired.
///
/// Fails with `NoNodesRemain` where no relay is eligible as rendezvous
/// point, and else with `Validation` where the weights of the eligible
/// relays, or those as exits of the exits among them, do not add up within
/// 64 bits.
pub fn rend_generator(sorted: Vec<Router>, weights: &StrMap<i64>) -> (r: Result<
    BwWeightedGenerator,
    Error,
>)
    ensures
        match r {
            Ok(g) => {
                &&& is_rend_gen(g, sorted@, weights@)
                &&& pool_filled(sorted@, Pool::RendPoints)
                &&& g.spec_weight_total() == pool_weight(sorted@, weights@, Pool::RendPoints)
                &&& g.spec_exit_total() == pool_weight(sorted@, weights@, Pool::RendExits)
            },
            Err(e) => if !pool_filled(sorted@, Pool::RendPoints) {
                e is NoNodesRemain
            } else {
                &&& e is Validation
                &&& pool_weight(sorted@, weights@, Pool::RendPoints) > u64::MAX || pool_weight(
                    sorted@,
                    weights@,
                    Pool::RendExits,
                ) > u64::MAX
            },
        },
{
    let rend_list = rend_restrictions();
    let ghost sorted_seq = sorted@;
    proof {
        lemma_weight_passing(sorted_seq, rend_list, weights@, Pool::RendPoints);
    }
    let mut generator = match BwWeightedGenerator::new(
        sorted,
        rend_list,
        weights.copied(),
        Position::Middle,
    ) {
        Ok(g) => g,
        Err(e) => {
            return Err(e);
        },
    };
    let ghost unrepaired = generator;
    match generator.repair_exits() {
        Ok(_) => {},
        Err(e) => {
            return Err(e);
        },
    }
    proof {
        lemma_passing(sorted_seq, rend_list);
        assert forall|i: int| 0 <= i < generator.spec_routers().len() implies rend_eligible(
            (#[trigger] generator.spec_routers()[i])@,
        ) && generator.spec_weights()[i] == node_weight(
            generator.spec_routers()[i]@,
            weights@,
            if generator.spec_routers()[i]@.has_flag("Exit"@) {
                Position::Exit
            } else {
                Position::Middle
            },
        ) && has_view(sorted_seq, generator.spec_routers()[i]@) by {
            let x = generator.spec_routers()[i];
            assert(rend_list.spec_ok(x@));
            assert(sorted_seq.contains(x));
            let j = choose|j: int| 0 <= j < sorted_seq.len() && sorted_seq[j] == x;
            assert(sorted_seq[j]@ == x@);
            assert(unrepaired.spec_weights()[i] == node_weight(x@, weights@, Position::Middle));
            crate::node_selection::lemma_exit_weight(unrepaired.spec_routers(), weights@, i);
        }
    }
    Ok(generator)
}

/// Drops from both layers the guards that do not survive the consensus.
pub fn reconcile_layers(
    state: &mut VanguardState,
    sorted: &Vec<Router>,
    exclude: &ExcludeNodes,
    now: u64,
)
    ensures
        final(state).layer2@ == reconciled(old(state).layer2@, sorted@, exclude@, now),
        final(state).layer3@ == reconciled(old(state).layer3@, sorted@, exclude@, now),
        final(state).rendguard == old(state).rendguard,
        final(state).state_file == old(state).state_file,
        final(state).pickle_revision == old(state).pickle_revision,
        final(state).enable_vanguards == old(state).enable_vanguards,
{
    let consensus_fps = fingerprint_set(sorted);
    VanguardState::remove_down_from_layer(&mut state.layer2, &consensus_fps);
    VanguardState::remove_down_from_layer(&mut state.layer3, &consensus_fps);
    VanguardState::remove_expired_from_layer_at(&mut state.layer2, now);
    VanguardState::remove_expired_from_layer_at(&mut state.layer3, now);
    VanguardState::remove_excluded_from_layer(&mut state.layer2, sorted, exclude);
    VanguardState::remove_excluded_from_layer(&mut state.layer3, sorted, exclude);
}

/// A relay that is eligible for the guard layers is eligible as
/// rendezvous point.
pub proof fn lemma_pools_nested(rs: Seq<Router>)
    requires
        pool_filled(rs, Pool::Vanguards),
    ensures
        pool_filled(rs, Pool::RendPoints),
{
    let i = choose|i: int| 0 <= i < rs.len() && in_pool((#[trigger] rs[i])@, Pool::Vanguards);
    assert(in_pool(rs[i]@, Pool::RendPoints));
}

/// Updates the state for a new consensus at `now`: the guard layers, where
/// they are managed, lose the guards that left the consensus, expired or
/// are excluded, and are filled up with guards drawn among the eligible
/// relays; the rendezvous-point counts are made anew.
///
/// Fails with `NoNodesRemain` where no relay is eligible or a layer cannot
/// be filled, and with `Validation` where the relays' weights do not add up
/// within 64 bits. Where the layers are not managed, the update succeeds
/// whenever a relay is eligible and the weights add up.
#[verifier::rlimit(60)]
pub fn consensus_update_at(
    state: &mut VanguardState,
    routers: &Vec<Router>,
    weights: &StrMap<i64>,
    exclude: &ExcludeNodes,
    config: &Config,
    now: u64,
) -> (r: Result<(), Error>)
    requires
        old(state).rendguard.wf(),
        config.vanguards.min_layer2_lifetime_hours <= config.vanguards.max_layer2_lifetime_hours,
        config.vanguards.min_layer3_lifetime_hours <= config.vanguards.max_layer3_lifetime_hours,
        now + config.vanguards.max_layer2_lifetime_hours * MILLIS_PER_HOUR <= u64::MAX,
        now + config.vanguards.max_layer3_lifetime_hours * MILLIS_PER_HOUR <= u64::MAX,
    ensures
        match r {
            Ok(_) => {
                &&& pools_fit(routers@, weights@)
                &&& exists|w: UpdateWitness| #[trigger]
                    updated(
                        *old(state),
                        *final(state),
                        routers@,
                        weights@,
                        exclude@,
                        *config,
                        now,
                        w,
                    )
            },
            Err(e) => update_failed(
                *old(state),
                *final(state),
                routers@,
                weights@,
                exclude@,
                *config,
                now,
                e,
            ),
        },
        !old(state).enable_vanguards && pools_fit(routers@, weights@) ==> r is Ok,
        final(state).state_file == old(state).state_file,
        final(state).pickle_revision == old(state).pickle_revision,
        final(state).enable_vanguards == old(state).enable_vanguards,
{
    let ghost before = *state;
    let sorted = sorted_routers(routers);
    proof {
        lemma_sorted_copy(sorted@, routers@, weights@, Pool::Vanguards);
        lemma_sorted_copy(sorted@, routers@, weights@, Pool::RendPoints);
        lemma_sorted_copy(sorted@, routers@, weights@, Pool::RendExits);
    }
    let generator = match vanguard_generator(&sorted, weights) {
        Ok(g) => g,
        Err(e) => {
            return Err(e);
        },
    };
    proof {
        lemma_pools_nested(sorted@);
    }
    let ghost sorted_seq = sorted@;
    // what stands behind the layers alone; of its last part nothing is said
    let ghost partly = UpdateWitness {
        sorted: sorted_seq,
        vanguard_gen: generator,
        rend_gen: generator,
    };
    if state.enable_vanguards {
        reconcile_layers(state, &sorted, exclude, now);
        let filled = state.replenish_layers_at(&generator, exclude, &config.vanguards, now);
        proof {
            assert(layers_renewed(
                before,
                *state,
                routers@,
                weights@,
                exclude@,
                *config,
                now,
                partly,
            ));
        }
        match filled {
            Ok(_) => {},
            Err(e) => {
                return Err(e);
            },
        }
    }
    let rend = match rend_generator(sorted, weights) {
        Ok(g) => g,
        Err(e) => {
            return Err(e);
        },
    };
    state.rendguard.xfer_use_counts(&rend, &config.rendguard);
    proof {
        let w = UpdateWitness { sorted: sorted_seq, vanguard_gen: generator, rend_gen: rend };
        assert(updated(before, *state, routers@, weights@, exclude@, *config, now, w));
    }
    Ok(())
}

/// Updates the state for a new consensus now, by the system clock, which
/// is read only where the guard layers are managed. Fails with
/// `Validation`, and changes nothing, where the clock stands so late that a
/// guard's expiry would leave `u64`.
pub fn consensus_update(
    state: &mut VanguardState,
    routers: &Vec<Router>,
    weights: &StrMap<i64>,
    exclude: &ExcludeNodes,
    config: &Config,
) -> (r: Result<(), Error>)
    requires
        old(state).rendguard.wf(),
        config.vanguards.min_layer2_lifetime_hours <= config.vanguards.max_layer2_lifetime_hours,
        config.vanguards.min_layer3_lifetime_hours <= config.vanguards.max_layer3_lifetime_hours,
    ensures
        match r {
            Ok(_) => {
                &&& pools_fit(routers@, weights@)
                &&& exists|now: u64, w: UpdateWitness| #[trigger]
                    updated(
                        *old(state),
                        *final(state),
                        routers@,
                        weights@,
                        exclude@,
                        *config,
                        now,
                        w,
                    )
            },
            Err(e) => {
                ||| {
                    &&& old(state).enable_vanguards
                    &&& e is Validation
                    &&& final(state).layer2@ == old(state).layer2@
                    &&& final(state).layer3@ == old(state).layer3@
                    &&& final(state).rendguard == old(state).rendguard
                }
                ||| exists|now: u64| #[trigger]
                    update_failed(
                        *old(state),
                        *final(state),
                        routers@,
                        weights@,
                        exclude@,
                        *config,
                        now,
                        e,
                    )
            },
        },
        !old(state).enable_vanguards && pools_fit(routers@, weights@) ==> r is Ok,
        final(state).state_file == old(state).state_file,
        final(state).pickle_revision == old(state).pickle_revision,
        final(state).enable_vanguards == old(state).enable_vanguards,
{
    let now = if state.enable_vanguards {
        now_millis()
    } else {
        0
    };
    if now > u64::MAX - config.vanguards.max_layer2_lifetime_hours as u64 * MILLIS_PER_HOUR || now
        > u64::MAX - config.vanguards.max_layer3_lifetime_hours as u64 * MILLIS_PER_HOUR {
        return Err(Error::Validation(String::from_str("clock out of range")));
    }
    let r = consensus_update_at(state, routers, weights, exclude, config, now);
    proof {
        if r is Err {
            assert(update_failed(
                *old(state),
                *state,
                routers@,
                weights@,
                exclude@,
                *config,
                now,
                r->Err_0,
            ));
        }
    }
    r
}

/// Where the daemon's control channel may be reached.
#[derive(Debug, Clone, PartialEq, Eq)]
pub enum ControlTarget {
    /// A socket in the file system, by its path.
    Socket(String),
    /// A port, by address and port number with a colon between them.
    Port(String),
}

/// The content of a [`ControlTarget`]: whether it is a socket, and its
/// text.
pub open spec fn target_view(t: ControlTarget) -> (bool, Seq<char>) {
    match t {
        ControlTarget::Socket(p) => (true, p@),
        ControlTarget::Port(a) => (false, a@),
    }
}

/// The places at which the control channel is sought, in order: the
/// configured socket alone, where one is configured; else the configured
/// port alone, where one is configured; else the usual socket and then the
/// usual port.
pub open spec fn spec_connection_plan(config: Config) -> Seq<(bool, Seq<char>)> {
    if config.control_socket is Some {
        seq![(true, config.control_socket->0@)]
    } else if config.control_port is Some {
        seq![(false, config.control_ip@ + ":"@ + spec_decimal(config.control_port->0 as nat))]
    } else {
        seq![(true, "/run/tor/control"@), (false, config.control_ip@ + ":9051"@)]
    }
}

/// The places at which the control channel is sought, in order. A failure
/// at the last place is the failure to connect.
pub fn connection_plan(config: &Config) -> (r: Vec<ControlTarget>)
    ensures
        Seq::new(r@.len(), |i: int| target_view(r@[i])) == spec_connection_plan(*config),
{
    let mut plan: Vec<ControlTarget> = Vec::new();
    if let Some(path) = &config.control_socket {
        plan.push(ControlTarget::Socket(path.clone()));
    } else if let Some(port) = config.control_port {
        let host = concat(config.control_ip.as_str(), ":");
        plan.push(ControlTarget::Port(concat(host.as_str(), decimal(port as u64).as_str())));
    } else {
        plan.push(ControlTarget::Socket(String::from_str("/run/tor/control")));
        plan.push(ControlTarget::Port(concat(config.control_ip.as_str(), ":9051")));
    }
    proof {
        assert(Seq::new(plan@.len(), |i: int| target_view(plan@[i])) =~= spec_connection_plan(
            *config,
        ));
    }
    plan
}

/// How the attempts to hold a session with the daemon have gone.
#[derive(Debug, Clone, Copy, PartialEq, Eq, Structural)]
pub struct RetryState {
    /// Sessions that have ended.
    pub reconnects: u32,
    /// When the first session ended.
    pub last_connected_at: Option<u64>,
    /// Whether a session was ever held.
    pub connected: bool,
}

impl RetryState {
    /// Before the first attempt.
    pub fn new() -> (r: Self)
        ensures
            r == (RetryState { reconnects: 0, last_connected_at: None, connected: false }),
    {
        RetryState { reconnects: 0, last_connected_at: None, connected: false }
    }

    /// Whether another session may be tried: there is no limit, or fewer
    /// sessions have ended than the limit allows.
    pub fn may_retry(&self, retry_limit: Option<u32>) -> (r: bool)
        ensures
            r == (retry_limit is None || self.reconnects < retry_limit->0),
    {
        match retry_limit {
            Some(limit) => self.reconnects < limit,
            None => true,
        }
    }

    /// The level at which the end of a session at `now` is reported, if it
    /// is reported: the end of a session that was held is, and so is every
    /// tenth failure to hold one. It is a warning once more time has passed
    /// since the first end than the daemon may be disconnected, and a
    /// notice before.
    pub open spec fn report_level(
        self,
        held: bool,
        now: u64,
        conn_max_disconnected_secs: u32,
    ) -> Option<LogLevel> {
        let since = match self.last_connected_at {
            Some(t) => t,
            None => now,
        };
        if held || self.reconnects % 10 == 0 {
            if now - since > conn_max_disconnected_secs * 1000 {
                Some(LogLevel::Warn)
            } else {
                Some(LogLevel::Notice)
            }
        } else {
            None
        }
    }

    /// Takes in the end of a session at `now`; `held` tells whether the
    /// session was held before it ended. The result is the level at which
    /// the end is to be reported, if it is.
    pub fn session_ended(&mut self, held: bool, now: u64, conn_max_disconnected_secs: u32) -> (r:
        Option<LogLevel>)
        requires
            old(self).reconnects < u32::MAX,
        ensures
            r == old(self).report_level(held, now, conn_max_disconnected_secs),
            *final(self) == (RetryState {
                reconnects: (old(self).reconnects + 1) as u32,
                last_connected_at: if old(self).last_connected_at is Some {
                    old(self).last_connected_at
                } else {
                    Some(now)
                },
                connected: old(self).connected || held,
            }),
    {
        let since = match self.last_connected_at {
            Some(t) => t,
            None => now,
        };
        if self.last_connected_at.is_none() {
            self.last_connected_at = Some(now);
        }
        if held {
            self.connected = true;
        }
        let r = if held || self.reconnects % 10 == 0 {
            if now > since && now - since > conn_max_disconnected_secs as u64 * 1000 {
                Some(LogLevel::Warn)
            } else {
                Some(LogLevel::Notice)
            }
        } else {
            None
        };
        self.reconnects += 1;
        r
    }
}

/// Sets whether circuits that break a limit are closed.
pub fn set_close_circuits(config: &mut Config, value: bool)
    ensures
        *final(config) == (Config { close_circuits: value, ..*old(config) }),
{
    config.close_circuits = value;
}

/// Whether circuits that break a limit are closed.
pub fn get_close_circuits(config: &Config) -> (r: bool)
    ensures
        r == config.close_circuits,
{
    config.close_circuits
}

/// A class of events that the daemon can be asked to report.
#[derive(Debug, Clone, Copy, PartialEq, Eq, Structural)]
pub enum EventKind {
    BuildTimeoutSet,
    Bw,
    Circ,
    CircBw,
    CircMinor,
    ConfChanged,
    LogDebug,
    LogErr,
    Guard,
    LogInfo,
    NetworkLiveness,
    NewConsensus,
    LogNotice,
    OrConn,
    Signal,
    LogWarn,
}

/// Whether the monitors that `config` switches on need the events of
/// `kind`. `has_circ_bw` tells whether the daemon is recent enough to
/// report the bandwidth and the minor events of circuits.
pub open spec fn needs_event(config: Config, has_circ_bw: bool, kind: EventKind) -> bool {
    match kind {
        EventKind::NewConsensus | EventKind::Signal => config.enable_vanguards
            || config.enable_rendguard,
        EventKind::Circ => config.enable_rendguard || config.enable_bandguards
            || config.enable_cbtverify || config.enable_pathverify || config.enable_logguard,
        EventKind::Bw | EventKind::NetworkLiveness => config.enable_bandguards,
        EventKind::OrConn => config.enable_bandguards || config.enable_pathverify,
        EventKind::CircBw => config.enable_bandguards && has_circ_bw,
        EventKind::CircMinor => (config.enable_bandguards && has_circ_bw)
            || config.enable_pathverify,
        EventKind::BuildTimeoutSet => config.enable_cbtverify,
        EventKind::Guard | EventKind::ConfChanged => config.enable_pathverify,
        EventKind::LogDebug => config.enable_logguard && config.logguard.dump_level.spec_rank() <= 0,
        EventKind::LogInfo => config.enable_logguard && config.logguard.dump_level.spec_rank() <= 1,
        EventKind::LogNotice => config.enable_logguard && config.logguard.dump_level.spec_rank() <= 2,
        EventKind::LogWarn | EventKind::LogErr => config.enable_logguard,
    }
}

/// All classes of events, in the order in which they are asked for.
pub open spec fn all_event_kinds() -> Seq<EventKind> {
    seq![
        EventKind::BuildTimeoutSet,
        EventKind::Bw,
        EventKind::Circ,
        EventKind::CircBw,
        EventKind::CircMinor,
        EventKind::ConfChanged,
        EventKind::LogDebug,
        EventKind::LogErr,
        EventKind::Guard,
        EventKind::LogInfo,
        EventKind::NetworkLiveness,
        EventKind::NewConsensus,
        EventKind::LogNotice,
        EventKind::OrConn,
        EventKind::Signal,
        EventKind::LogWarn,
    ]
}

/// The classes among the first `n` of all classes that are needed, in
/// order.
pub open spec fn needed_events(config: Config, has_circ_bw: bool, n: int) -> Seq<EventKind>
    decreases n,
{
    if n <= 0 {
        Seq::empty()
    } else if needs_event(config, has_circ_bw, all_event_kinds()[n - 1]) {
        needed_events(config, has_circ_bw, n - 1).push(all_event_kinds()[n - 1])
    } else {
        needed_events(config, has_circ_bw, n - 1)
    }
}

/// Whether the monitors that `config` switches on need the events of
/// `kind`.
pub fn event_needed(config: &Config, has_circ_bw: bool, kind: EventKind) -> (r: bool)
    ensures
        r == needs_event(*config, has_circ_bw, kind),
{
    match kind {
        EventKind::NewConsensus | EventKind::Signal => config.enable_vanguards
            || config.enable_rendguard,
        EventKind::Circ => config.enable_rendguard || config.enable_bandguards
            || config.enable_cbtverify || config.enable_pathverify || config.enable_logguard,
        EventKind::Bw | EventKind::NetworkLiveness => config.enable_bandguards,
        EventKind::OrConn => config.enable_bandguards || config.enable_pathverify,
        EventKind::CircBw => config.enable_bandguards && has_circ_bw,
        EventKind::CircMinor => (config.enable_bandguards && has_circ_bw)
            || config.enable_pathverify,
        EventKind::BuildTimeoutSet => config.enable_cbtverify,
        EventKind::Guard | EventKind::ConfChanged => config.enable_pathverify,
        EventKind::LogDebug => config.enable_logguard && config.logguard.dump_level.rank() <= 0,
        EventKind::LogInfo => config.enable_logguard && config.logguard.dump_level.rank() <= 1,
        EventKind::LogNotice => config.enable_logguard && config.logguard.dump_level.rank() <= 2,
        EventKind::LogWarn | EventKind::LogErr => config.enable_logguard,
    }
}

/// The classes of events to ask the daemon for, each once, in the order of
/// `all_event_kinds`.
pub fn get_event_types(config: &Config, has_circ_bw: bool) -> (r: Vec<EventKind>)
    ensures
        r@ == needed_events(*config, has_circ_bw, 16),
{
    let mut all: Vec<EventKind> = Vec::new();
    all.push(EventKind::BuildTimeoutSet);
    all.push(EventKind::Bw);
    all.push(EventKind::Circ);
    all.push(EventKind::CircBw);
    all.push(EventKind::CircMinor);
    all.push(EventKind::ConfChanged);
    all.push(EventKind::LogDebug);
    all.push(EventKind::LogErr);
    all.push(EventKind::Guard);
    all.push(EventKind::LogInfo);
    all.push(EventKind::NetworkLiveness);
    all.push(EventKind::NewConsensus);
    all.push(EventKind::LogNotice);
    all.push(EventKind::OrConn);
    all.push(EventKind::Signal);
    all.push(EventKind::LogWarn);
    proof {
        assert(all@ =~= all_event_kinds());
    }
    let mut out: Vec<EventKind> = Vec::new();
    let mut i: usize = 0;
    while i < 16
        invariant
            0 <= i <= 16,
            all@ == all_event_kinds(),
            out@ == needed_events(*config, has_circ_bw, i as int),
        decreases 16 - i,
    {
        if event_needed(config, has_circ_bw, all[i]) {
            out.push(all[i]);
        }
        i += 1;
    }
    out
}

/// A setting to push to the daemon.
#[derive(Debug, Clone)]
pub struct TorSetting {
    /// The name of the setting.
    pub key: String,
    /// Its value.
    pub value: String,
}

/// The name and the value of each of `settings`.
pub open spec fn setting_views(settings: Seq<TorSetting>) -> Seq<(Seq<char>, Seq<char>)> {
    Seq::new(settings.len(), |i: int| (settings[i].key@, settings[i].value@))
}

/// The settings that bring the daemon in line with the state, in the order
/// in which they are pushed: the number of entry and of directory guards
/// where a number of first-hop guards is configured, the guards' lifetime
/// where one is configured, the second layer, and the third layer where
/// one is configured.
pub open spec fn spec_tor_settings(state: VanguardState, config: Config) -> Seq<
    (Seq<char>, Seq<char>),
> {
    let v = config.vanguards;
    let s0 = Seq::<(Seq<char>, Seq<char>)>::empty();
    let s1 = if v.num_layer1_guards > 0 {
        s0.push(("NumEntryGuards"@, spec_decimal(v.num_layer1_guards as nat))).push(
            ("NumDirectoryGuards"@, spec_decimal(v.num_layer1_guards as nat)),
        )
    } else {
        s0
    };
    let s2 = if v.layer1_lifetime_days > 0 {
        s1.push(("GuardLifetime"@, spec_decimal(v.layer1_lifetime_days as nat) + " days"@))
    } else {
        s1
    };
    let s3 = s2.push(("HSLayer2Nodes"@, joined(layer_ids(state.layer2@))));
    if v.num_layer3_guards > 0 {
        s3.push(("HSLayer3Nodes"@, joined(layer_ids(state.layer3@))))
    } else {
        s3
    }
}

/// The settings that bring the daemon in line with the state.
pub fn configure_tor(state: &VanguardState, config: &Config) -> (r: Vec<TorSetting>)
    ensures
        setting_views(r@) == spec_tor_settings(*state, *config),
{
    let v = &config.vanguards;
    let mut out: Vec<TorSetting> = Vec::new();
    if v.num_layer1_guards > 0 {
        out.push(
            TorSetting {
                key: String::from_str("NumEntryGuards"),
                value: decimal(v.num_layer1_guards as u64),
            },
        );
        out.push(
            TorSetting {
                key: String::from_str("NumDirectoryGuards"),
                value: decimal(v.num_layer1_guards as u64),
            },
        );
    }
    if v.layer1_lifetime_days > 0 {
        out.push(
            TorSetting {
                key: String::from_str("GuardLifetime"),
                value: concat(decimal(v.layer1_lifetime_days as u64).as_str(), " days"),
            },
        );
    }
    out.push(TorSetting { key: String::from_str("HSLayer2Nodes"), value: state.layer2_guardset() });
    if v.num_layer3_guards > 0 {
        out.push(
            TorSetting { key: String::from_str("HSLayer3Nodes"), value: state.layer3_guardset() },
        );
    }
    proof {
        assert(setting_views(out@) =~= spec_tor_settings(*state, *config));
    }
    out
}

/// The settings to push when the daemon reports the signal `signal`: those
/// of `configure_tor` on `RELOAD`, none otherwise.
pub fn signal_event(state: &VanguardState, config: &Config, signal: &str) -> (r: Vec<TorSetting>)
    ensures
        setting_views(r@) == (if signal@ == "RELOAD"@ {
            spec_tor_settings(*state, *config)
        } else {
            Seq::empty()
        }),
{
    if signal.eq("RELOAD") {
        configure_tor(state, config)
    } else {
        let out: Vec<TorSetting> = Vec::new();
        proof {
            assert(setting_views(out@) =~= Seq::<(Seq<char>, Seq<char>)>::empty());
        }
        out
    }
}

/// A hop of a path: a fingerprint and, where it is given, a nickname.
pub type Hop = (String, Option<String>);

/// The content of a hop.
pub open spec fn hop_view(h: Hop) -> (Seq<char>, Option<Seq<char>>) {
    (h.0@, opt_view(h.1))
}

/// The contents of the hops of `path`.
pub open spec fn path_view(path: Seq<Hop>) -> Seq<(Seq<char>, Option<Seq<char>>)> {
    Seq::new(path.len(), |i: int| hop_view(path[i]))
}

/// A minor event of a circuit, as the daemon writes it.
#[derive(Debug, Clone)]
pub struct CircMinor {
    pub circ_id: String,
    pub event_type: String,
    pub path: Vec<Hop>,
    pub purpose: Option<String>,
    pub hs_state: Option<String>,
    pub old_purpose: Option<String>,
    pub old_hs_state: Option<String>,
}

/// The mathematical content of a [`CircMinor`].
pub ghost struct CircMinorView {
    pub circ_id: Seq<char>,
    pub event_type: Seq<char>,
    pub path: Seq<(Seq<char>, Option<Seq<char>>)>,
    pub purpose: Option<Seq<char>>,
    pub hs_state: Option<Seq<char>>,
    pub old_purpose: Option<Seq<char>>,
    pub old_hs_state: Option<Seq<char>>,
}

impl View for CircMinor {
    type V = CircMinorView;

    open spec fn view(&self) -> CircMinorView {
        CircMinorView {
            circ_id: self.circ_id@,
            event_type: self.event_type@,
            path: path_view(self.path@),
            purpose: opt_view(self.purpose),
            hs_state: opt_view(self.hs_state),
            old_purpose: opt_view(self.old_purpose),
            old_hs_state: opt_view(self.old_hs_state),
        }
    }
}

/// `s` without the dollar signs at its start.
pub open spec fn without_dollars(s: Seq<char>) -> Seq<char>
    decreases s.len(),
{
    if s.len() > 0 && s[0] == '$' {
        without_dollars(s.drop_first())
    } else {
        s
    }
}

/// The hop that an entry of a path writes: a fingerprint, after dollar
/// signs that are passed over, and a nickname after a `~` or `=`. An entry
/// that is empty but for dollar signs writes no hop.
pub open spec fn hop_of(entry: Seq<char>) -> Option<(Seq<char>, Option<Seq<char>>)> {
    let h = without_dollars(entry);
    let i = first_index(h, '~');
    let j = first_index(h, '=');
    if 0 <= i < h.len() {
        Some((h.take(i), Some(h.skip(i + 1))))
    } else if 0 <= j < h.len() {
        Some((h.take(j), Some(h.skip(j + 1))))
    } else if h.len() > 0 {
        Some((h, None))
    } else {
        None
    }
}

/// The hops that the entries `entries` of a path write, in order.
pub open spec fn hops_of(entries: Seq<Seq<char>>) -> Seq<(Seq<char>, Option<Seq<char>>)>
    decreases entries.len(),
{
    if entries.len() == 0 {
        Seq::empty()
    } else {
        match hop_of(entries.last()) {
            Some(h) => hops_of(entries.drop_last()).push(h),
            None => hops_of(entries.drop_last()),
        }
    }
}

impl CircMinorView {
    /// The event after one more word of the daemon's line. A word with an
    /// equals sign sets the purpose, the state, the old purpose or the old
    /// state, where the text before the sign names one of them. Any other
    /// word that starts with a dollar sign or holds a `~` or a comma is a
    /// path, whose hops are added.
    pub open spec fn with_word(self, word: Seq<char>) -> CircMinorView {
        let i = first_index(word, '=');
        if 0 <= i < word.len() {
            let value = Some(word.skip(i + 1));
            if word.take(i) == "PURPOSE"@ {
                CircMinorView { purpose: value, ..self }
            } else if word.take(i) == "HS_STATE"@ {
                CircMinorView { hs_state: value, ..self }
            } else if word.take(i) == "OLD_PURPOSE"@ {
                CircMinorView { old_purpose: value, ..self }
            } else if word.take(i) == "OLD_HS_STATE"@ {
                CircMinorView { old_hs_state: value, ..self }
            } else {
                self
            }
        } else if (word.len() > 0 && word[0] == '$') || has_char(word, '~') || has_char(word, ',') {
            CircMinorView { path: self.path + hops_of(spec_split(word, ',')), ..self }
        } else {
            self
        }
    }

    /// The event after the words `ws`, taken in order.
    pub open spec fn with_words(self, ws: Seq<Seq<char>>) -> CircMinorView
        decreases ws.len(),
    {
        if ws.len() == 0 {
            self
        } else {
            self.with_words(ws.drop_last()).with_word(ws.last())
        }
    }
}

/// The minor event that the daemon's line `content` writes: the first word
/// is the circuit, the second the kind of event, and the others say the
/// rest. `None` where the line has fewer than two words.
pub open spec fn spec_circ_minor(content: Seq<char>) -> Option<CircMinorView> {
    let ws = spec_words(content);
    if ws.len() < 2 {
        None
    } else {
        Some(
            CircMinorView {
                circ_id: ws[0],
                event_type: ws[1],
                path: Seq::empty(),
                purpose: None,
                hs_state: None,
                old_purpose: None,
                old_hs_state: None,
            }.with_words(ws.skip(2)),
        )
    }
}

/// Adds to `path` the hops that the path `word` writes.
pub fn add_hops(path: &mut Vec<Hop>, word: &Vec<char>)
    ensures
        path_view(final(path)@) == path_view(old(path)@) + hops_of(spec_split(word@, ',')),
{
    let entries = split(word, ',');
    let ghost all = spec_split(word@, ',');
    let ghost start = path_view(path@);
    let mut i: usize = 0;
    proof {
        assert(all.take(0) =~= Seq::<Seq<char>>::empty());
        assert(start + hops_of(all.take(0)) =~= start);
    }
    while i < entries.len()
        invariant
            0 <= i <= entries@.len(),
            views(entries@) == all,
            path_view(path@) == start + hops_of(all.take(i as int)),
        decreases entries@.len() - i,
    {
        let entry = &entries[i];
        proof {
            assert(all.take(i + 1).drop_last() =~= all.take(i as int));
            assert(all.take(i + 1).last() == entry@);
        }
        let mut from: usize = 0;
        proof {
            assert(entry@.skip(0) =~= entry@);
        }
        while from < entry.len() && entry[from] == '$'
            invariant
                0 <= from <= entry@.len(),
                without_dollars(entry@) == without_dollars(entry@.skip(from as int)),
            decreases entry@.len() - from,
        {
            proof {
                assert(entry@.skip(from as int).drop_first() =~= entry@.skip(from + 1));
            }
            from += 1;
        }
        let h = slice_of(entry, from, entry.len());
        proof {
            assert(h@ =~= entry@.skip(from as int));
            assert(h@ == without_dollars(entry@));
            assert(h@.skip(0) =~= h@);
        }
        let tilde = find_char(&h, 0, '~');
        let equals = find_char(&h, 0, '=');
        let ghost before = path_view(path@);
        let cut: Option<usize> = if tilde < h.len() {
            Some(tilde)
        } else if equals < h.len() {
            Some(equals)
        } else {
            None
        };
        match cut {
            Some(c) => {
                let fp = string_of(&slice_of(&h, 0, c));
                let nick = string_of(&slice_of(&h, c + 1, h.len()));
                proof {
                    assert(fp@ =~= h@.take(c as int));
                    assert(nick@ =~= h@.skip(c + 1));
                }
                path.push((fp, Some(nick)));
                proof {
                    assert(path_view(path@) =~= before.push(hop_of(entry@)->0));
                }
            },
            None => {
                if h.len() > 0 {
                    path.push((string_of(&h), None));
                    proof {
                        assert(path_view(path@) =~= before.push(hop_of(entry@)->0));
                    }
                }
            },
        }
        proof {
            assert(path_view(path@) =~= start + hops_of(all.take(i + 1)));
        }
        i += 1;
    }
    proof {
        assert(all.take(entries@.len() as int) =~= all);
    }
}

/// The minor event that the daemon's line `content` writes.
pub fn parse_circ_minor(content: &str) -> (r: Option<CircMinor>)
    ensures
        match r {
            Some(e) => spec_circ_minor(content@) == Some(e@),
            None => spec_circ_minor(content@) is None,
        },
{
    let text = chars_of(content);
    let ws = words(&text);
    if ws.len() < 2 {
        return None;
    }
    let mut event = CircMinor {
        circ_id: string_of(&ws[0]),
        event_type: string_of(&ws[1]),
        path: Vec::new(),
        purpose: None,
        hs_state: None,
        old_purpose: None,
        old_hs_state: None,
    };
    let ghost all = spec_words(content@).skip(2);
    let ghost start = event@;
    let mut i: usize = 2;
    proof {
        assert(all.take(0) =~= Seq::<Seq<char>>::empty());
        assert(start.path =~= Seq::empty());
    }
    while i < ws.len()
        invariant
            2 <= i <= ws@.len(),
            views(ws@) == spec_words(content@),
            all == spec_words(content@).skip(2),
            event@ == start.with_words(all.take(i - 2)),
        decreases ws@.len() - i,
    {
        let word = &ws[i];
        proof {
            assert(all.take(i - 1).drop_last() =~= all.take(i - 2));
            assert(all.take(i - 1).last() == word@);
            assert(word@.skip(0) =~= word@);
        }
        let eq = find_char(word, 0, '=');
        if eq < word.len() {
            let key = slice_of(word, 0, eq);
            let value = string_of(&slice_of(word, eq + 1, word.len()));
            proof {
                assert(key@ =~= word@.take(eq as int));
                assert(value@ =~= word@.skip(eq + 1));
            }
            if chars_are(&key, "PURPOSE") {
                event.purpose = Some(value);
            } else if chars_are(&key, "HS_STATE") {
                event.hs_state = Some(value);
            } else if chars_are(&key, "OLD_PURPOSE") {
                event.old_purpose = Some(value);
            } else if chars_are(&key, "OLD_HS_STATE") {
                event.old_hs_state = Some(value);
            }
        } else if (word.len() > 0 && word[0] == '$') || find_char(word, 0, '~') < word.len()
            || find_char(word, 0, ',') < word.len() {
            add_hops(&mut event.path, word);
        }
        i += 1;
    }
    proof {
        assert(all.take(ws@.len() - 2) =~= all);
    }
    Some(event)
}

/// Everything the monitors know, and the settings they run under.
pub struct AppState {
    /// The guard layers and the rendezvous-point counts.
    pub vanguard_state: VanguardState,
    /// The bandwidth monitor.
    pub bandwidth_stats: BandwidthStats,
    /// The counts of built and timed-out circuits.
    pub timeout_stats: TimeoutStats,
    /// The buffer of log lines, once it is set up.
    pub logguard: Option<LogGuard>,
    /// The path verifier, once it is set up.
    pub pathverify: Option<PathVerify>,
    /// The settings.
    pub config: Config,
}

/// A circuit event, as the daemon reports it.
#[derive(Debug, Clone)]
pub struct CircEvent {
    pub id: String,
    pub status: String,
    pub purpose: Option<String>,
    pub hs_state: Option<String>,
    pub reason: Option<String>,
    pub path: Vec<Hop>,
}

/// What the monitors make of a circuit event.
#[derive(Debug, Clone)]
pub struct CircReport {
    /// The verdict on the rendezvous point, where the event shows one in
    /// use.
    pub rend_check: RendCheckResult,
    /// Whether a tracked circuit ended with its guard connection.
    pub destroyed: Option<bool>,
    /// Whether a circuit launched for another use turned out to serve an
    /// onion service.
    pub turned_hs: bool,
    /// The log lines dumped for the circuit.
    pub log_lines: Vec<String>,
    /// What the path shows amiss.
    pub path_issues: Vec<PathIssue>,
}

/// The purpose of a circuit, `GENERAL` where the daemon names none.
pub open spec fn purpose_or_general(p: Option<String>) -> Seq<char> {
    match p {
        Some(s) => s@,
        None => "GENERAL"@,
    }
}

/// The fingerprints of the hops of `path`.
pub open spec fn path_fps(path: Seq<Hop>) -> Seq<Seq<char>> {
    Seq::new(path.len(), |i: int| path[i].0@)
}

impl CircEvent {
    /// Whether the event shows a rendezvous point in use by a service.
    pub open spec fn shows_rend_use(self) -> bool {
        opt_view(self.purpose) == Some("HS_SERVICE_REND"@) && opt_view(self.hs_state) == Some(
            "HSSR_CONNECTING"@,
        ) && self.path@.len() > 0
    }

    /// The rendezvous point: the last hop.
    pub open spec fn rend_point(self) -> Seq<char> {
        self.path@.last().0@
    }

    /// The first hop of the path.
    pub open spec fn first_hop(self) -> Option<Seq<char>> {
        if self.path@.len() > 0 {
            Some(self.path@[0].0@)
        } else {
            None
        }
    }
}

impl AppState {
    /// The state at the start at `now`: monitors that have seen nothing,
    /// and neither log buffer nor path verifier.
    pub fn new_at(vanguard_state: VanguardState, config: Config, now: u64) -> (r: Self)
        ensures
            r.vanguard_state == vanguard_state,
            r.config == config,
            r.bandwidth_stats@ == StatsView::fresh(now),
            r.timeout_stats@ == TimeoutView::fresh(),
            r.timeout_stats.keyed_by_id(),
            r.logguard is None,
            r.pathverify is None,
    {
        AppState {
            vanguard_state,
            bandwidth_stats: BandwidthStats::new_at(now),
            timeout_stats: TimeoutStats::new(),
            logguard: None,
            pathverify: None,
            config,
        }
    }

    /// The state at the start now, by the system clock.
    pub fn new(vanguard_state: VanguardState, config: Config) -> (r: Self)
        ensures
            r.vanguard_state == vanguard_state,
            r.config == config,
            exists|now: u64| r.bandwidth_stats@ == #[trigger] StatsView::fresh(now),
            r.timeout_stats@ == TimeoutView::fresh(),
            r.timeout_stats.keyed_by_id(),
            r.logguard is None,
            r.pathverify is None,
    {
        let now = now_millis();
        AppState::new_at(vanguard_state, config, now)
    }

    /// Whether the monitors that are switched on have room in their
    /// counters for the circuit event.
    pub open spec fn circ_event_fits(self, event: CircEvent, at: u64) -> bool {
        &&& self.config.enable_rendguard && event.shows_rend_use()
            ==> self.vanguard_state.rendguard.use_fits(event.rend_point())
        &&& self.config.enable_bandguards ==> self.bandwidth_stats@.circ_event_fits(
            event.id@,
            event.status@,
            opt_view(event.reason),
            at,
        )
        &&& self.config.enable_cbtverify ==> self.timeout_stats@.circ_event_fits(
            event.id@,
            event.status@,
            purpose_or_general(event.purpose),
            opt_view(event.hs_state),
            opt_view(event.reason),
        )
        &&& self.config.enable_pathverify && self.pathverify is Some && PathVerify::checks_circ(
            event.status@,
            purpose_or_general(event.purpose),
        ) && event.path@.len() > 0 ==> self.pathverify->0.layer1.use_fits(hop(event.path@, 0))
    }
}

impl AppState {
    /// Whether `after` and `check` are what the rendezvous-point monitor
    /// makes of the circuit event: where the monitor is on and the event
    /// shows a rendezvous point in use, the use is counted, and the check
    /// tells whether the relay under which it was counted is overused, and
    /// if so with its shares of uses and of bandwidth; otherwise nothing is
    /// counted and the check is `Valid`.
    pub open spec fn rend_handled(
        self,
        after: AppState,
        event: CircEvent,
        check: RendCheckResult,
    ) -> bool {
        let before = self.vanguard_state.rendguard;
        let rg = after.vanguard_state.rendguard;
        if self.config.enable_rendguard && event.shows_rend_use() {
            &&& after.vanguard_state == (VanguardState { rendguard: rg, ..self.vanguard_state })
            &&& before.used(rg, event.rend_point())
            &&& match check {
                RendCheckResult::Valid => !rg.spec_is_overused(
                    before.target(event.rend_point()),
                    self.config.rendguard,
                ),
                RendCheckResult::Overused { fingerprint, usage_rate, expected_weight } => {
                    &&& rg.spec_is_overused(
                        before.target(event.rend_point()),
                        self.config.rendguard,
                    )
                    &&& fingerprint@ == event.rend_point()
                    &&& usage_rate == rg.spec_usage_rate(event.rend_point())
                    &&& expected_weight == rg.spec_expected_weight(event.rend_point())
                },
            }
        } else {
            after.vanguard_state == self.vanguard_state && check is Valid
        }
    }

    /// Whether `after` and `destroyed` are what the bandwidth monitor makes
    /// of the circuit event that arrived at `at`; the monitor does nothing
    /// where it is off.
    pub open spec fn band_handled(
        self,
        after: AppState,
        event: CircEvent,
        at: u64,
        destroyed: Option<bool>,
    ) -> bool {
        (destroyed, after.bandwidth_stats@) == (if self.config.enable_bandguards {
            self.bandwidth_stats@.circ_event(
                event.id@,
                event.status@,
                purpose_or_general(event.purpose),
                opt_view(event.hs_state),
                event.first_hop(),
                opt_view(event.reason),
                at,
                at,
            )
        } else {
            (None, self.bandwidth_stats@)
        })
    }

    /// Whether `after` and `turned_hs` are what the timeout counts make of
    /// the circuit event; they do nothing where they are off.
    pub open spec fn cbt_handled(self, after: AppState, event: CircEvent, turned_hs: bool) -> bool {
        let purpose = purpose_or_general(event.purpose);
        if self.config.enable_cbtverify {
            &&& after.timeout_stats@ == self.timeout_stats@.circ_event(
                event.id@,
                event.status@,
                purpose,
                opt_view(event.hs_state),
                opt_view(event.reason),
            )
            &&& turned_hs == ((opt_view(event.hs_state) is Some || "HS"@.is_prefix_of(purpose))
                && self.timeout_stats@.circuits.contains_key(event.id@)
                && !self.timeout_stats@.circuits[event.id@])
            &&& self.timeout_stats.keyed_by_id() ==> after.timeout_stats.keyed_by_id()
        } else {
            after.timeout_stats == self.timeout_stats && !turned_hs
        }
    }

    /// Whether `after` and `lines` are what the log buffer makes of the
    /// circuit event: where it is on and set up, and the circuit closed or
    /// failed at the monitor's request, the buffer is dumped for the
    /// circuit; otherwise the buffer stays and there are no lines.
    pub open spec fn log_handled(
        self,
        after: AppState,
        event: CircEvent,
        lines: Seq<Seq<char>>,
    ) -> bool {
        let dumps = (event.status@ == "CLOSED"@ || event.status@ == "FAILED"@) && opt_view(
            event.reason,
        ) == Some("REQUESTED"@);
        match self.logguard {
            Some(lg) => {
                &&& after.logguard is Some
                &&& after.logguard->0.log_level == lg.log_level
                &&& after.logguard->0.log_limit == lg.log_limit
                &&& if self.config.enable_logguard && dumps {
                    &&& lines == dump_lines(entry_views(lg.log_buffer@), event.id@, "Post"@)
                    &&& entry_views(after.logguard->0.log_buffer@) == Seq::<EntryView>::empty()
                } else {
                    &&& lines == Seq::<Seq<char>>::empty()
                    &&& entry_views(after.logguard->0.log_buffer@) == entry_views(lg.log_buffer@)
                }
            },
            None => after.logguard is None && lines == Seq::<Seq<char>>::empty(),
        }
    }

    /// Whether `after` and `issues` are what the path verifier makes of
    /// the circuit event: where it is on and set up, a built circuit of an
    /// onion service is counted for its first hop and checked; otherwise
    /// nothing is counted and there are no issues.
    pub open spec fn path_handled(
        self,
        after: AppState,
        event: CircEvent,
        issues: Seq<PathIssue>,
    ) -> bool {
        let purpose = purpose_or_general(event.purpose);
        let checked = self.config.enable_pathverify && PathVerify::checks_circ(
            event.status@,
            purpose,
        );
        match self.pathverify {
            Some(pv) => {
                &&& after.pathverify is Some
                &&& after.pathverify->0.layer2 == pv.layer2
                &&& after.pathverify->0.layer3 == pv.layer3
                &&& after.pathverify->0.full_vanguards == pv.full_vanguards
                &&& after.pathverify->0.num_layer1 == pv.num_layer1
                &&& after.pathverify->0.num_layer2 == pv.num_layer2
                &&& after.pathverify->0.num_layer3 == pv.num_layer3
                &&& after.pathverify->0.layer1.num_layer1 == pv.layer1.num_layer1
                &&& after.pathverify->0.layer1.guards@ == (if checked && event.path@.len() > 0 {
                    pv.layer1.with_use(hop(event.path@, 0))
                } else {
                    pv.layer1.guards@
                })
                &&& issues == (if checked {
                    pv.spec_circ_issues(
                        purpose,
                        opt_view(event.hs_state),
                        hop_fps(event.path@),
                        after.pathverify->0.layer1.spec_use_counts(),
                    )
                } else {
                    Seq::<PathIssue>::empty()
                })
            },
            None => after.pathverify is None && issues == Seq::<PathIssue>::empty(),
        }
    }
}

/// The fingerprints of the hops of `path`.
pub fn fingerprints_of(path: &Vec<Hop>) -> (r: Vec<String>)
    ensures
        string_views(r@) == path_fps(path@),
        r@.len() == path@.len(),
        crate::bandguards::first_hop(r@) == (if path@.len() > 0 {
            Some(path@[0].0@)
        } else {
            None
        }),
{
    let mut out: Vec<String> = Vec::new();
    let mut i: usize = 0;
    while i < path.len()
        invariant
            0 <= i <= path@.len(),
            out@.len() == i,
            forall|j: int| 0 <= j < i ==> (#[trigger] out@[j])@ == path@[j].0@,
        decreases path@.len() - i,
    {
        out.push(path[i].0.clone());
        i += 1;
    }
    proof {
        assert(string_views(out@) =~= path_fps(path@));
    }
    out
}

/// The text of an optional string.
pub fn opt_str(o: &Option<String>) -> (r: Option<&str>)
    ensures
        opt_str_view(r) == opt_view(*o),
{
    match o {
        Some(s) => Some(s.as_str()),
        None => None,
    }
}

/// Whether the monitors that are switched on have room in their counters
/// for the circuit event.
pub fn circ_event_fits(state: &AppState, event: &CircEvent, arrived_at: u64) -> (r: bool)
    ensures
        r == state.circ_event_fits(*event, arrived_at),
{
    let purpose: &str = match &event.purpose {
        Some(p) => p.as_str(),
        None => "GENERAL",
    };
    if state.config.enable_rendguard && crate::text::opt_is(
        &event.purpose,
        "HS_SERVICE_REND",
    ) && crate::text::opt_is(&event.hs_state, "HSSR_CONNECTING") && event.path.len() > 0 {
        let rp = &event.path[event.path.len() - 1].0;
        if !state.vanguard_state.rendguard.valid_rend_use_fits(rp.as_str()) {
            return false;
        }
    }
    if state.config.enable_bandguards && !state.bandwidth_stats.circ_event_fits(
        event.id.as_str(),
        event.status.as_str(),
        opt_str(&event.reason),
        arrived_at,
    ) {
        return false;
    }
    if state.config.enable_cbtverify && !state.timeout_stats.circ_event_fits(
        event.id.as_str(),
        event.status.as_str(),
        purpose,
        opt_str(&event.hs_state),
        opt_str(&event.reason),
    ) {
        return false;
    }
    if state.config.enable_pathverify {
        if let Some(pv) = &state.pathverify {
            if starts_with(purpose, "HS_") && (event.status.as_str().eq("BUILT")
                || event.status.as_str().eq("GUARD_WAIT")) && event.path.len() > 0 {
                if let Some(stats) = pv.layer1.guards.get(event.path[0].0.as_str()) {
                    if stats.use_count == u32::MAX {
                        return false;
                    }
                }
            }
        }
    }
    true
}

/// Checks the rendezvous point that the event shows in use, where the
/// rendezvous-point monitor is on and the event shows one.
pub fn rend_step(state: &mut AppState, event: &CircEvent) -> (r: RendCheckResult)
    requires
        old(state).config.enable_rendguard && event.shows_rend_use()
            ==> old(state).vanguard_state.rendguard.use_fits(event.rend_point()),
    ensures
        *final(state) == (AppState {
            vanguard_state: final(state).vanguard_state,
            ..*old(state)
        }),
        final(state).vanguard_state == (VanguardState {
            rendguard: final(state).vanguard_state.rendguard,
            ..old(state).vanguard_state
        }),
        if old(state).config.enable_rendguard && event.shows_rend_use() {
            let rg = final(state).vanguard_state.rendguard;
            let target = old(state).vanguard_state.rendguard.target(event.rend_point());
            &&& old(state).vanguard_state.rendguard.used(rg, event.rend_point())
            &&& match r {
                RendCheckResult::Valid => !rg.spec_is_overused(target, old(state).config.rendguard),
                RendCheckResult::Overused { fingerprint, usage_rate, expected_weight } => {
                    &&& rg.spec_is_overused(target, old(state).config.rendguard)
                    &&& fingerprint@ == event.rend_point()
                    &&& usage_rate == rg.spec_usage_rate(event.rend_point())
                    &&& expected_weight == rg.spec_expected_weight(event.rend_point())
                },
            }
        } else {
            final(state).vanguard_state.rendguard == old(state).vanguard_state.rendguard && r
                == RendCheckResult::Valid
        },
{
    if state.config.enable_rendguard && crate::text::opt_is(
        &event.purpose,
        "HS_SERVICE_REND",
    ) && crate::text::opt_is(&event.hs_state, "HSSR_CONNECTING") && event.path.len() > 0 {
        let rp = &event.path[event.path.len() - 1].0;
        let valid = state.vanguard_state.rendguard.valid_rend_use(
            rp.as_str(),
            &state.config.rendguard,
        );
        if !valid {
            return RendCheckResult::Overused {
                fingerprint: rp.clone(),
                usage_rate: state.vanguard_state.rendguard.usage_rate(rp.as_str()),
                expected_weight: state.vanguard_state.rendguard.expected_weight(rp.as_str()),
            };
        }
    }
    RendCheckResult::Valid
}

/// Takes a circuit event to every monitor that is switched on: the
/// rendezvous-point monitor, where the event shows a rendezvous point in
/// use, the bandwidth monitor, the timeout counts, the log buffer and the
/// path verifier. A circuit that the event makes known to the bandwidth
/// monitor counts as created at `arrived_at`.
///
/// Fails with `Validation`, and changes nothing, where a counter of one of
/// the monitors has no room for the event.
pub fn handle_circ_event(state: &mut AppState, event: &CircEvent, arrived_at: u64) -> (r: Result<
    CircReport,
    Error,
>)
    ensures
        final(state).config == old(state).config,
        match r {
            Err(e) => e is Validation && !old(state).circ_event_fits(*event, arrived_at)
                && *final(state) == *old(state),
            Ok(report) => {
                &&& old(state).circ_event_fits(*event, arrived_at)
                &&& old(state).rend_handled(*final(state), *event, report.rend_check)
                &&& old(state).band_handled(*final(state), *event, arrived_at, report.destroyed)
                &&& old(state).cbt_handled(*final(state), *event, report.turned_hs)
                &&& old(state).log_handled(*final(state), *event, string_views(report.log_lines@))
                &&& old(state).path_handled(*final(state), *event, report.path_issues@)
            },
        },
{
    if !circ_event_fits(state, event, arrived_at) {
        return Err(Error::Validation(String::from_str("a counter has no room for the event")));
    }
    let purpose: &str = match &event.purpose {
        Some(p) => p.as_str(),
        None => "GENERAL",
    };
    let rend_check = rend_step(state, event);
    let mut destroyed: Option<bool> = None;
    if state.config.enable_bandguards {
        let fps = fingerprints_of(&event.path);
        destroyed =
        state.bandwidth_stats.circ_event_at(
            event.id.as_str(),
            event.status.as_str(),
            purpose,
            opt_str(&event.hs_state),
            fps.as_slice(),
            opt_str(&event.reason),
            arrived_at,
            arrived_at,
        );
    }
    let mut turned_hs = false;
    if state.config.enable_cbtverify {
        turned_hs =
        state.timeout_stats.circ_event(
            event.id.as_str(),
            event.status.as_str(),
            purpose,
            opt_str(&event.hs_state),
            opt_str(&event.reason),
        );
    }
    let mut log_lines: Vec<String> = Vec::new();
    proof {
        assert(string_views(log_lines@) =~= Seq::<Seq<char>>::empty());
    }
    if state.config.enable_logguard {
        let mut slot: Option<LogGuard> = None;
        core::mem::swap(&mut slot, &mut state.logguard);
        if let Some(mut lg) = slot {
            log_lines = lg.circ_event(event.id.as_str(), event.status.as_str(), opt_str(&event.reason));
            state.logguard = Some(lg);
        }
    }
    let mut path_issues: Vec<PathIssue> = Vec::new();
    if state.config.enable_pathverify {
        let mut slot: Option<PathVerify> = None;
        core::mem::swap(&mut slot, &mut state.pathverify);
        if let Some(mut pv) = slot {
            path_issues =
            pv.circ_event(
                event.id.as_str(),
                event.status.as_str(),
                purpose,
                opt_str(&event.hs_state),
                event.path.as_slice(),
            );
            state.pathverify = Some(pv);
        }
    }
    proof {
        assert(old(state).rend_handled(*state, *event, rend_check));
        assert(old(state).band_handled(*state, *event, arrived_at, destroyed));
        assert(old(state).cbt_handled(*state, *event, turned_hs));
        assert(old(state).log_handled(*state, *event, string_views(log_lines@)));
        assert(old(state).path_handled(*state, *event, path_issues@));
    }
    Ok(CircReport { rend_check, destroyed, turned_hs, log_lines, path_issues })
}

/// The fingerprint of the guard that a connection event names: the text
/// between a leading dollar sign and the first `~` or `=`, or the whole
/// name where it has no leading dollar sign.
pub open spec fn guard_of(target: Seq<char>) -> Seq<char> {
    if target.len() > 0 && target[0] == '$' {
        let t = target.drop_first();
        let i = first_index(t, '~');
        let j = first_index(t, '=');
        t.take(if i < j { i } else { j })
    } else {
        target
    }
}

/// The fingerprint of the guard that a connection event names.
pub fn guard_fingerprint(target: &str) -> (r: String)
    ensures
        r@ == guard_of(target@),
{
    let v = chars_of(target);
    if v.len() > 0 && v[0] == '$' {
        let t = slice_of(&v, 1, v.len());
        proof {
            assert(t@ =~= target@.drop_first());
            assert(t@.skip(0) =~= t@);
        }
        let i = find_char(&t, 0, '~');
        let j = find_char(&t, 0, '=');
        let cut = if i < j { i } else { j };
        let r = string_of(&slice_of(&t, 0, cut));
        proof {
            assert(r@ =~= t@.take(cut as int));
        }
        r
    } else {
        String::from_str(target)
    }
}

/// Takes the bandwidth that the daemon reports for a circuit to the
/// bandwidth monitor, where it is on. Fails with `Validation`, and changes
/// nothing, where a counter of the circuit has no room for it.
pub fn handle_circbw_event(state: &mut AppState, circ_id: &str, d: BwDeltas, arrived_at: u64) -> (r:
    Result<(), Error>)
    ensures
        *final(state) == (AppState { bandwidth_stats: final(state).bandwidth_stats, ..*old(state) }),
        match r {
            Ok(_) => final(state).bandwidth_stats@ == (if old(state).config.enable_bandguards {
                old(state).bandwidth_stats@.circbw(circ_id@, d)
            } else {
                old(state).bandwidth_stats@
            }) && (old(state).config.enable_bandguards ==> old(state).bandwidth_stats@.circbw_fits(
                circ_id@,
                d,
            )),
            Err(e) => {
                &&& e is Validation
                &&& old(state).config.enable_bandguards
                &&& !old(state).bandwidth_stats@.circbw_fits(circ_id@, d)
                &&& final(state).bandwidth_stats == old(state).bandwidth_stats
            },
        },
{
    if state.config.enable_bandguards {
        if !state.bandwidth_stats.circbw_event_fits(circ_id, d) {
            return Err(Error::Validation(String::from_str("a counter has no room for the event")));
        }
        state.bandwidth_stats.circbw_event(
            circ_id,
            d.read,
            d.written,
            d.delivered_read,
            d.delivered_written,
            d.overhead_read,
            d.overhead_written,
            arrived_at,
        );
    }
    Ok(())
}

/// Takes a minor event of a circuit to the bandwidth monitor and to the
/// path verifier, where they are on, and hands back what the path
/// verifier finds amiss.
pub fn handle_circ_minor_event(state: &mut AppState, event: &CircMinor) -> (r: Vec<PathIssue>)
    ensures
        *final(state) == (AppState { bandwidth_stats: final(state).bandwidth_stats, ..*old(state) }),
        final(state).bandwidth_stats@ == (if old(state).config.enable_bandguards {
            old(state).bandwidth_stats@.circ_minor(
                event.circ_id@,
                event.event_type@,
                purpose_or_general(event.purpose),
                opt_view(event.hs_state),
                opt_view(event.old_purpose),
                opt_view(event.old_hs_state),
                if event.path@.len() > 0 {
                    Some(event.path@[0].0@)
                } else {
                    None
                },
            )
        } else {
            old(state).bandwidth_stats@
        }),
        r@ == (if old(state).config.enable_pathverify && old(state).pathverify is Some {
            old(state).pathverify->0.spec_minor_issues(
                purpose_or_general(event.purpose),
                opt_view(event.old_purpose),
                hop_fps(event.path@),
            )
        } else {
            Seq::<PathIssue>::empty()
        }),
{
    let purpose: &str = match &event.purpose {
        Some(p) => p.as_str(),
        None => "GENERAL",
    };
    if state.config.enable_bandguards {
        let fps = fingerprints_of(&event.path);
        state.bandwidth_stats.circ_minor_event(
            event.circ_id.as_str(),
            event.event_type.as_str(),
            purpose,
            opt_str(&event.hs_state),
            opt_str(&event.old_purpose),
            opt_str(&event.old_hs_state),
            fps.as_slice(),
        );
    }
    if state.config.enable_pathverify {
        if let Some(pv) = &state.pathverify {
            return pv.circ_minor_event(
                event.circ_id.as_str(),
                purpose,
                opt_str(&event.old_purpose),
                event.path.as_slice(),
            );
        }
    }
    Vec::new()
}

/// Reads a minor event of a circuit from the daemon's line `content` and
/// takes it to the monitors. A line that writes no event changes nothing.
pub fn handle_circ_minor_raw(state: &mut AppState, content: &str) -> (r: Vec<PathIssue>)
    ensures
        *final(state) == (AppState { bandwidth_stats: final(state).bandwidth_stats, ..*old(state) }),
        match spec_circ_minor(content@) {
            None => final(state).bandwidth_stats == old(state).bandwidth_stats && r@.len() == 0,
            Some(e) => {
                &&& final(state).bandwidth_stats@ == (if old(state).config.enable_bandguards {
                    old(state).bandwidth_stats@.circ_minor(
                        e.circ_id,
                        e.event_type,
                        match e.purpose {
                            Some(p) => p,
                            None => "GENERAL"@,
                        },
                        e.hs_state,
                        e.old_purpose,
                        e.old_hs_state,
                        if e.path.len() > 0 {
                            Some(e.path[0].0)
                        } else {
                            None
                        },
                    )
                } else {
                    old(state).bandwidth_stats@
                })
                &&& r@ == (if old(state).config.enable_pathverify && old(state).pathverify is Some {
                    old(state).pathverify->0.spec_minor_issues(
                        match e.purpose {
                            Some(p) => p,
                            None => "GENERAL"@,
                        },
                        e.old_purpose,
                        Seq::new(e.path.len(), |i: int| e.path[i].0),
                    )
                } else {
                    Seq::<PathIssue>::empty()
                })
            },
        },
{
    match parse_circ_minor(content) {
        Some(event) => {
            proof {
                if event.path@.len() > 0 {
                    assert(event@.path[0] == hop_view(event.path@[0]));
                }
                assert(hop_fps(event.path@) =~= Seq::new(
                    event@.path.len(),
                    |i: int| event@.path[i].0,
                ));
            }
            handle_circ_minor_event(state, &event)
        },
        None => Vec::new(),
    }
}

impl AppState {
    /// Whether the monitors that are switched on have room in their
    /// counters for the connection event.
    pub open spec fn orconn_event_fits(
        self,
        target: Seq<char>,
        status: Seq<char>,
        reason: Option<Seq<char>>,
    ) -> bool {
        &&& self.config.enable_bandguards ==> self.bandwidth_stats@.orconn_fits(
            target,
            status,
            reason,
        )
        &&& self.config.enable_pathverify && self.pathverify is Some && status == "CONNECTED"@
            ==> self.pathverify->0.layer1.conn_fits(guard_of(target))
    }
}

impl AppState {
    /// Whether `after` and `verdict` are what the path verifier makes of
    /// the connection event: where it is on and set up, the connection is
    /// counted for its guard, and the verdict tells how the connections
    /// then compare with the configuration; otherwise nothing is counted
    /// and there is no verdict.
    pub open spec fn conn_handled(
        self,
        after: AppState,
        target: Seq<char>,
        status: Seq<char>,
        verdict: Option<i32>,
    ) -> bool {
        match self.pathverify {
            Some(pv) => {
                &&& after.pathverify is Some
                &&& after.pathverify->0.layer2 == pv.layer2
                &&& after.pathverify->0.layer3 == pv.layer3
                &&& after.pathverify->0.full_vanguards == pv.full_vanguards
                &&& after.pathverify->0.num_layer1 == pv.num_layer1
                &&& after.pathverify->0.num_layer2 == pv.num_layer2
                &&& after.pathverify->0.num_layer3 == pv.num_layer3
                &&& after.pathverify->0.layer1.num_layer1 == pv.layer1.num_layer1
                &&& if self.config.enable_pathverify {
                    &&& after.pathverify->0.layer1.guards@ == (if status == "CONNECTED"@ {
                        pv.layer1.with_conn(guard_of(target))
                    } else if status == "CLOSED"@ || status == "FAILED"@ {
                        pv.layer1.without_conn(guard_of(target))
                    } else {
                        pv.layer1.guards@
                    })
                    &&& verdict == Some(after.pathverify->0.layer1.spec_conn_counts())
                } else {
                    after.pathverify == self.pathverify && verdict is None
                }
            },
            None => after.pathverify is None && verdict is None,
        }
    }
}

/// Takes a connection event to the bandwidth monitor and to the path
/// verifier, where they are on. `conn_id` is the id that the daemon gives
/// the connection, or the empty text where it gives none. The result tells
/// how the path verifier finds the connections to compare with the
/// configuration.
///
/// Fails with `Validation`, and changes nothing, where a counter has no
/// room for the event.
pub fn handle_orconn_event(
    state: &mut AppState,
    conn_id: &str,
    target: &str,
    status: &str,
    reason: Option<&str>,
    arrived_at: u64,
) -> (r: Result<Option<i32>, Error>)
    ensures
        final(state).config == old(state).config,
        final(state).vanguard_state == old(state).vanguard_state,
        final(state).timeout_stats == old(state).timeout_stats,
        final(state).logguard == old(state).logguard,
        match r {
            Err(e) => e is Validation && !old(state).orconn_event_fits(
                target@,
                status@,
                opt_str_view(reason),
            ) && *final(state) == *old(state),
            Ok(verdict) => {
                &&& old(state).orconn_event_fits(target@, status@, opt_str_view(reason))
                &&& final(state).bandwidth_stats@ == (if old(state).config.enable_bandguards {
                    old(state).bandwidth_stats@.orconn(
                        conn_id@,
                        old(state).bandwidth_stats.spec_fixup(conn_id@, target@),
                        target@,
                        status@,
                        opt_str_view(reason),
                        arrived_at,
                    )
                } else {
                    old(state).bandwidth_stats@
                })
                &&& old(state).conn_handled(*final(state), target@, status@, verdict)
            },
        },
{
    let guard_fp = guard_fingerprint(target);
    let band_fits = !state.config.enable_bandguards || state.bandwidth_stats.orconn_event_fits(
        target,
        status,
        reason,
    );
    let path_fits = match &state.pathverify {
        Some(pv) => !state.config.enable_pathverify || !status.eq("CONNECTED") || match pv.layer1.guards.get(
            guard_fp.as_str(),
        ) {
            Some(stats) => stats.conn_count < u32::MAX,
            None => true,
        },
        None => true,
    };
    if !band_fits || !path_fits {
        return Err(Error::Validation(String::from_str("a counter has no room for the event")));
    }
    if state.config.enable_bandguards {
        state.bandwidth_stats.orconn_event(conn_id, target, status, reason, arrived_at);
    }
    let mut verdict: Option<i32> = None;
    if state.config.enable_pathverify {
        let mut slot: Option<PathVerify> = None;
        core::mem::swap(&mut slot, &mut state.pathverify);
        if let Some(mut pv) = slot {
            verdict = Some(pv.orconn_event(guard_fp.as_str(), status));
            state.pathverify = Some(pv);
        }
    }
    Ok(verdict)
}

/// Takes the daemon's heartbeat to the bandwidth monitor, where it is on,
/// and hands back its verdict on connectivity.
pub fn handle_bw_event(state: &mut AppState, arrived_at: u64) -> (r: ConnectivityStatus)
    ensures
        *final(state) == (AppState { bandwidth_stats: final(state).bandwidth_stats, ..*old(state) }),
        (r, final(state).bandwidth_stats@) == (if old(state).config.enable_bandguards {
            old(state).bandwidth_stats@.connectivity(arrived_at, old(state).config.bandguards)
        } else {
            (ConnectivityStatus::Connected, old(state).bandwidth_stats@)
        }),
{
    if state.config.enable_bandguards {
        state.bandwidth_stats.check_connectivity(arrived_at, &state.config.bandguards)
    } else {
        ConnectivityStatus::Connected
    }
}

/// Takes the daemon's report of the network's liveness to the bandwidth
/// monitor, where it is on.
pub fn handle_network_liveness_event(state: &mut AppState, status: &str, arrived_at: u64)
    ensures
        *final(state) == (AppState { bandwidth_stats: final(state).bandwidth_stats, ..*old(state) }),
        final(state).bandwidth_stats@ == (if old(state).config.enable_bandguards {
            old(state).bandwidth_stats@.liveness(status@, arrived_at)
        } else {
            old(state).bandwidth_stats@
        }),
{
    if state.config.enable_bandguards {
        state.bandwidth_stats.network_liveness_event(status, arrived_at);
    }
}

/// Takes the daemon's setting of its build timeout to the timeout counts,
/// where they are on.
pub fn handle_buildtimeout_set_event(
    state: &mut AppState,
    set_type: &str,
    timeout_rate: Option<u64>,
) -> (r: Option<CbtReport>)
    ensures
        *final(state) == (AppState { timeout_stats: final(state).timeout_stats, ..*old(state) }),
        final(state).timeout_stats@ == (if old(state).config.enable_cbtverify {
            old(state).timeout_stats@.cbt_event(set_type@)
        } else {
            old(state).timeout_stats@
        }),
        r == (if old(state).config.enable_cbtverify && timeout_rate is Some {
            Some(
                CbtReport {
                    reported_rate: timeout_rate->0,
                    measured_rate: spec_rate(
                        old(state).timeout_stats.all_timeout,
                        old(state).timeout_stats.all_launched,
                    ),
                    measured_hs_rate: spec_rate(
                        old(state).timeout_stats.hs_timeout,
                        old(state).timeout_stats.hs_launched,
                    ),
                },
            )
        } else {
            None
        }),
{
    if state.config.enable_cbtverify {
        state.timeout_stats.cbt_event(set_type, timeout_rate)
    } else {
        None
    }
}

/// Takes the daemon's verdict on a guard to the path verifier, where it is
/// on and set up.
pub fn handle_guard_event(state: &mut AppState, guard_fp: &str, status: &str)
    ensures
        *final(state) == (AppState { pathverify: final(state).pathverify, ..*old(state) }),
        final(state).pathverify is Some == old(state).pathverify is Some,
        !old(state).config.enable_pathverify ==> final(state).pathverify == old(state).pathverify,
        old(state).config.enable_pathverify && old(state).pathverify is Some ==> {
            &&& final(state).pathverify->0.layer2@ == (if status@ == "GOOD_L2"@ {
                old(state).pathverify->0.layer2@.insert(guard_fp@)
            } else if status@ == "BAD_L2"@ {
                old(state).pathverify->0.layer2@.remove(guard_fp@)
            } else {
                old(state).pathverify->0.layer2@
            })
            &&& final(state).pathverify->0.layer1 == old(state).pathverify->0.layer1
            &&& final(state).pathverify->0.layer3 == old(state).pathverify->0.layer3
            &&& final(state).pathverify->0.full_vanguards == old(state).pathverify->0.full_vanguards
            &&& final(state).pathverify->0.num_layer1 == old(state).pathverify->0.num_layer1
            &&& final(state).pathverify->0.num_layer2 == old(state).pathverify->0.num_layer2
            &&& final(state).pathverify->0.num_layer3 == old(state).pathverify->0.num_layer3
        },
{
    if state.config.enable_pathverify {
        let mut slot: Option<PathVerify> = None;
        core::mem::swap(&mut slot, &mut state.pathverify);
        if let Some(mut pv) = slot {
            pv.guard_event(guard_fp, status);
            state.pathverify = Some(pv);
        }
    }
}

/// Takes a change of the daemon's configuration to the path verifier,
/// where it is on and set up: the first value of `HSLayer2Nodes` or of
/// `HSLayer3Nodes` replaces the layer and shows that full guard layers are
/// in force. The result tells whether the layers then hold as many guards
/// as configured.
pub fn handle_conf_changed_event(state: &mut AppState, changed: &StrMap<Vec<String>>) -> (r: Option<
    bool,
>)
    ensures
        *final(state) == (AppState { pathverify: final(state).pathverify, ..*old(state) }),
        final(state).pathverify is Some == old(state).pathverify is Some,
        !old(state).config.enable_pathverify ==> final(state).pathverify == old(state).pathverify,
        r is Some == (old(state).config.enable_pathverify && old(state).pathverify is Some),
        r is Some ==> r->0 == final(state).pathverify->0.spec_layer_counts(),
        old(state).config.enable_pathverify && old(state).pathverify is Some ==> {
            let before = old(state).pathverify->0;
            let after = final(state).pathverify->0;
            let set2 = changed@.contains_key("HSLayer2Nodes"@) && changed@["HSLayer2Nodes"@]@.len()
                > 0;
            let set3 = changed@.contains_key("HSLayer3Nodes"@) && changed@["HSLayer3Nodes"@]@.len()
                > 0;
            &&& after.layer2@ == (if set2 {
                listed(changed@["HSLayer2Nodes"@]@[0]@)
            } else {
                before.layer2@
            })
            &&& after.layer3@ == (if set3 {
                listed(changed@["HSLayer3Nodes"@]@[0]@)
            } else {
                before.layer3@
            })
            &&& after.full_vanguards == (before.full_vanguards || set2 || set3)
            &&& after.layer1 == before.layer1
            &&& after.num_layer1 == before.num_layer1
            &&& after.num_layer2 == before.num_layer2
            &&& after.num_layer3 == before.num_layer3
        },
{
    let mut r: Option<bool> = None;
    if state.config.enable_pathverify {
        let mut slot: Option<PathVerify> = None;
        core::mem::swap(&mut slot, &mut state.pathverify);
        if let Some(mut pv) = slot {
            r = Some(pv.conf_changed_event(changed));
            state.pathverify = Some(pv);
        }
    }
    r
}

/// Takes a log line of the daemon to the log buffer, where it is on and
/// set up. A line of severity `WARN` is also passed on as a notice, which
/// is handed back.
pub fn handle_log_event(state: &mut AppState, runlevel: &str, message: &str, arrived_at: u64) -> (r:
    Option<String>)
    ensures
        *final(state) == (AppState { logguard: final(state).logguard, ..*old(state) }),
        final(state).logguard is Some == old(state).logguard is Some,
        !old(state).config.enable_logguard ==> final(state).logguard == old(state).logguard,
        old(state).config.enable_logguard && old(state).logguard is Some ==> entry_views(
            final(state).logguard->0.log_buffer@,
        ) == with_entry(
            entry_views(old(state).logguard->0.log_buffer@),
            runlevel@,
            message@,
            arrived_at,
            old(state).logguard->0.log_limit,
        ),
        match r {
            Some(notice) => old(state).config.enable_logguard && old(state).logguard is Some
                && runlevel@ == "WARN"@ && notice@ == "Tor log warn: "@ + message@,
            None => !(old(state).config.enable_logguard && old(state).logguard is Some && runlevel@
                == "WARN"@),
        },
{
    let mut r: Option<String> = None;
    if state.config.enable_logguard {
        let mut slot: Option<LogGuard> = None;
        core::mem::swap(&mut slot, &mut state.logguard);
        if let Some(mut lg) = slot {
            lg.log_event_with_timestamp(runlevel, message, arrived_at);
            if runlevel.eq("WARN") {
                r = Some(lg.log_warn_event(message));
            }
            state.logguard = Some(lg);
        }
    }
    r
}

/// The verdict on a circuit, with the circuit's id.
#[derive(Debug, Clone)]
pub struct Verdict {
    /// The circuit's id.
    pub circ_id: String,
    /// The verdict.
    pub result: CircuitLimitResult,
}

/// The verdicts on the circuits `ids`, whose records are `vals`, that are
/// not within all limits, in order.
pub open spec fn verdicts_of(
    ids: Seq<Seq<char>>,
    vals: Seq<crate::bandguards::BwCircuitStat>,
    config: crate::config::BandguardsConfig,
) -> Seq<(Seq<char>, LimitView)>
    decreases ids.len(),
{
    if ids.len() == 0 || vals.len() != ids.len() {
        Seq::empty()
    } else if vals.last()@.limit_verdict(config) is Okay {
        verdicts_of(ids.drop_last(), vals.drop_last(), config)
    } else {
        verdicts_of(ids.drop_last(), vals.drop_last(), config).push(
            (ids.last(), vals.last()@.limit_verdict(config)),
        )
    }
}

/// The id and the verdict of each of `vs`.
pub open spec fn verdict_views(vs: Seq<Verdict>) -> Seq<(Seq<char>, LimitView)> {
    Seq::new(vs.len(), |i: int| (vs[i].circ_id@, vs[i].result@))
}

/// The verdicts on the tracked circuits that are not within all limits,
/// in the order in which the circuits are tracked; none where the
/// bandwidth monitor is off.
pub fn check_all_limits(state: &AppState) -> (r: Vec<Verdict>)
    ensures
        verdict_views(r@) == (if state.config.enable_bandguards {
            verdicts_of(
                state.bandwidth_stats.circs.spec_keys(),
                state.bandwidth_stats.circs.spec_values(),
                state.config.bandguards,
            )
        } else {
            Seq::empty()
        }),
{
    let mut out: Vec<Verdict> = Vec::new();
    if !state.config.enable_bandguards {
        proof {
            assert(verdict_views(out@) =~= Seq::<(Seq<char>, LimitView)>::empty());
        }
        return out;
    }
    let circs = &state.bandwidth_stats.circs;
    let n = circs.len();
    let mut i: usize = 0;
    proof {
        assert(circs.spec_keys().take(0) =~= Seq::<Seq<char>>::empty());
        assert(verdict_views(out@) =~= Seq::<(Seq<char>, LimitView)>::empty());
    }
    while i < n
        invariant
            0 <= i <= n,
            n == circs.spec_len(),
            circs.wf(),
            verdict_views(out@) == verdicts_of(
                circs.spec_keys().take(i as int),
                circs.spec_values().take(i as int),
                state.config.bandguards,
            ),
        decreases n - i,
    {
        let c = circs.value_at(i);
        let result = c.check_limits(&state.config.bandguards);
        proof {
            let ks = circs.spec_keys().take(i + 1);
            let vs = circs.spec_values().take(i + 1);
            assert(ks.drop_last() =~= circs.spec_keys().take(i as int));
            assert(vs.drop_last() =~= circs.spec_values().take(i as int));
            assert(vs.last() == circs.spec_values()[i as int]);
            assert(ks.last() == circs.spec_keys()[i as int]);
        }
        let within = match result {
            CircuitLimitResult::Okay => true,
            _ => false,
        };
        if !within {
            let ghost before = verdict_views(out@);
            out.push(Verdict { circ_id: circs.key_at(i).clone(), result });
            proof {
                assert(verdict_views(out@) =~= before.push(
                    (circs.spec_keys()[i as int], result@),
                ));
            }
        }
        i += 1;
    }
    proof {
        assert(circs.spec_keys().take(n as int) =~= circs.spec_keys());
        assert(circs.spec_values().take(n as int) =~= circs.spec_values());
    }
    out
}

/// What is to be done about a circuit that broke a limit.
#[derive(Debug, Clone)]
pub struct CloseDecision {
    /// The buffered log lines, dumped for the circuit.
    pub log_lines: Vec<String>,
    /// Whether the daemon is to be told to close the circuit.
    pub close: bool,
}

/// Decides what is to be done about circuit `circ_id`, which broke a
/// limit: the log buffer, where it is set up, is dumped for the circuit,
/// and the circuit is closed where the settings say so.
pub fn try_close_circuit(state: &mut AppState, circ_id: &str) -> (r: CloseDecision)
    ensures
        *final(state) == (AppState { logguard: final(state).logguard, ..*old(state) }),
        r.close == old(state).config.close_circuits,
        match old(state).logguard {
            Some(lg) => final(state).logguard is Some && final(state).logguard->0.log_buffer@
                == Seq::<crate::logguard::LogEntry>::empty() && string_views(r.log_lines@)
                == dump_lines(entry_views(lg.log_buffer@), circ_id@, "Pre"@),
            None => final(state).logguard is None && r.log_lines@.len() == 0,
        },
{
    let mut log_lines: Vec<String> = Vec::new();
    let mut slot: Option<LogGuard> = None;
    core::mem::swap(&mut slot, &mut state.logguard);
    if let Some(mut lg) = slot {
        log_lines = lg.dump_log_queue(circ_id, "Pre");
        state.logguard = Some(lg);
    }
    CloseDecision { log_lines, close: get_close_circuits(&state.config) }
}

} // verus!
