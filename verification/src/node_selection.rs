//! Relays, restrictions on them, and the bandwidth-weighted choice among
//! those that pass.
//!
//! Weights are integers: a relay's weight is its bandwidth times the
//! consensus weight of its flags for the position, in ten-thousandths of a
//! bandwidth unit.

use crate::error::Error;
pub use crate::ipnet::is_valid_ip_or_network;
use crate::ipnet::IpAddress;
use crate::random::random_in;
use crate::strmap::StrMap;
use crate::text::{char_is_ascii_letter, char_is_hex_digit, chars_of, is_ascii_letter, is_hex_digit};
use vstd::prelude::*;

verus! {

/// Whether `s` is a relay fingerprint: 40 hexadecimal digits.
pub open spec fn spec_valid_fingerprint(s: Seq<char>) -> bool {
    s.len() == 40 && forall|i: int| 0 <= i < s.len() ==> is_hex_digit(#[trigger] s[i])
}

/// Whether `s` is a country code: two ASCII letters.
pub open spec fn spec_valid_country_code(s: Seq<char>) -> bool {
    s.len() == 2 && forall|i: int| 0 <= i < s.len() ==> is_ascii_letter(#[trigger] s[i])
}

/// Whether every character of `v` is a hexadecimal digit.
pub fn all_hex(v: &Vec<char>) -> (r: bool)
    ensures
        r == forall|i: int| 0 <= i < v@.len() ==> is_hex_digit(#[trigger] v@[i]),
{
    let mut i: usize = 0;
    while i < v.len()
        invariant
            0 <= i <= v@.len(),
            forall|j: int| 0 <= j < i ==> is_hex_digit(#[trigger] v@[j]),
        decreases v@.len() - i,
    {
        if !char_is_hex_digit(v[i]) {
            return false;
        }
        i += 1;
    }
    true
}

/// Whether `s` is a relay fingerprint: 40 hexadecimal digits.
pub fn is_valid_fingerprint(s: &str) -> (r: bool)
    ensures
        r == spec_valid_fingerprint(s@),
{
    let v = chars_of(s);
    v.len() == 40 && all_hex(&v)
}

/// Whether `s` is a country code: two ASCII letters.
pub fn is_valid_country_code(s: &str) -> (r: bool)
    ensures
        r == spec_valid_country_code(s@),
{
    let v = chars_of(s);
    if v.len() != 2 {
        return false;
    }
    let r = char_is_ascii_letter(v[0]) && char_is_ascii_letter(v[1]);
    proof {
        if r {
            assert forall|i: int| 0 <= i < s@.len() implies is_ascii_letter(#[trigger] s@[i]) by {
                if i == 0 {
                } else {
                    assert(i == 1);
                }
            }
        }
    }
    r
}

/// What the library reads of a relay's entry in the consensus.
#[derive(Debug)]
pub struct Router {
    /// The relay's fingerprint, 40 hexadecimal digits.
    pub fingerprint: String,
    /// The relay's nickname.
    pub nickname: String,
    /// The relay's primary address.
    pub address: IpAddress,
    /// Further addresses at which the relay accepts connections.
    pub or_addresses: Vec<IpAddress>,
    /// The relay's flags.
    pub flags: Vec<String>,
    /// The bandwidth that the relay declares.
    pub bandwidth: Option<u64>,
    /// The bandwidth that the authorities measured.
    pub measured: Option<u64>,
}

/// The mathematical content of a [`Router`].
pub ghost struct RouterView {
    pub fingerprint: Seq<char>,
    pub nickname: Seq<char>,
    pub address: IpAddress,
    pub or_addresses: Seq<IpAddress>,
    pub flags: Seq<Seq<char>>,
    pub bandwidth: Option<u64>,
    pub measured: Option<u64>,
}

impl View for Router {
    type V = RouterView;

    open spec fn view(&self) -> RouterView {
        RouterView {
            fingerprint: self.fingerprint@,
            nickname: self.nickname@,
            address: self.address,
            or_addresses: self.or_addresses@,
            flags: Seq::new(self.flags@.len(), |i: int| self.flags@[i]@),
            bandwidth: self.bandwidth,
            measured: self.measured,
        }
    }
}

impl RouterView {
    /// Whether the relay has `flag`.
    pub open spec fn has_flag(self, flag: Seq<char>) -> bool {
        self.flags.contains(flag)
    }

    /// The relay's bandwidth: the measured one where there is one, else the
    /// declared one, else 0.
    pub open spec fn bw(self) -> u64 {
        match self.measured {
            Some(m) => m,
            None => match self.bandwidth {
                Some(b) => b,
                None => 0,
            },
        }
    }
}

impl Clone for Router {
    /// A relay with the same content.
    fn clone(&self) -> (r: Self)
        ensures
            r@ == self@,
    {
        let mut flags: Vec<String> = Vec::new();
        let mut i: usize = 0;
        while i < self.flags.len()
            invariant
                0 <= i <= self.flags@.len(),
                flags@.len() == i,
                forall|j: int| 0 <= j < i ==> (#[trigger] flags@[j])@ == self.flags@[j]@,
            decreases self.flags@.len() - i,
        {
            flags.push(self.flags[i].clone());
            i += 1;
        }
        let mut or_addresses: Vec<IpAddress> = Vec::new();
        let mut k: usize = 0;
        while k < self.or_addresses.len()
            invariant
                0 <= k <= self.or_addresses@.len(),
                or_addresses@ == self.or_addresses@.take(k as int),
            decreases self.or_addresses@.len() - k,
        {
            or_addresses.push(self.or_addresses[k]);
            proof {
                assert(or_addresses@ =~= self.or_addresses@.take(k + 1));
            }
            k += 1;
        }
        let r = Router {
            fingerprint: self.fingerprint.clone(),
            nickname: self.nickname.clone(),
            address: self.address,
            or_addresses,
            flags,
            bandwidth: self.bandwidth,
            measured: self.measured,
        };
        proof {
            assert(self.or_addresses@.take(self.or_addresses@.len() as int) =~= self.or_addresses@);
            assert(r@.flags =~= self@.flags);
        }
        r
    }
}

impl Router {
    /// A relay with the given identity and primary address, without flags or
    /// bandwidth.
    pub fn new(fingerprint: String, nickname: String, address: IpAddress) -> (r: Self)
        ensures
            r@ == (RouterView {
                fingerprint: fingerprint@,
                nickname: nickname@,
                address,
                or_addresses: Seq::empty(),
                flags: Seq::empty(),
                bandwidth: None,
                measured: None,
            }),
    {
        let r = Router {
            fingerprint,
            nickname,
            address,
            or_addresses: Vec::new(),
            flags: Vec::new(),
            bandwidth: None,
            measured: None,
        };
        assert(r@.flags =~= Seq::empty());
        r
    }

    /// Whether the relay has `flag`.
    pub fn has_flag(&self, flag: &str) -> (r: bool)
        ensures
            r == self@.has_flag(flag@),
    {
        let mut i: usize = 0;
        while i < self.flags.len()
            invariant
                0 <= i <= self.flags@.len(),
                forall|j: int| 0 <= j < i ==> self@.flags[j] != flag@,
            decreases self.flags@.len() - i,
        {
            if self.flags[i].as_str().eq(flag) {
                assert(self@.flags[i as int] == flag@);
                return true;
            }
            i += 1;
        }
        false
    }

    /// The relay's bandwidth: the measured one where there is one, else the
    /// declared one, else 0.
    pub fn bw(&self) -> (r: u64)
        ensures
            r == self@.bw(),
    {
        match self.measured {
            Some(m) => m,
            None => match self.bandwidth {
                Some(b) => b,
                None => 0,
            },
        }
    }
}

/// A predicate on relays.
pub trait NodeRestriction {
    /// Whether the restriction lets the relay pass.
    spec fn spec_ok(&self, router: RouterView) -> bool;

    /// Whether the restriction lets the relay pass.
    fn r_is_ok(&self, router: &Router) -> (r: bool)
        ensures
            r == self.spec_ok(router@),
    ;
}

/// Lets a relay pass that has every mandatory flag and no forbidden one.
#[derive(Debug, Clone)]
pub struct FlagsRestriction {
    /// Flags that a relay must have.
    pub mandatory: Vec<String>,
    /// Flags that a relay must not have.
    pub forbidden: Vec<String>,
}

impl FlagsRestriction {
    /// A restriction with the given mandatory and forbidden flags.
    pub fn new(mandatory: Vec<String>, forbidden: Vec<String>) -> (r: Self)
        ensures
            r.mandatory == mandatory,
            r.forbidden == forbidden,
    {
        FlagsRestriction { mandatory, forbidden }
    }
}

impl NodeRestriction for FlagsRestriction {
    open spec fn spec_ok(&self, router: RouterView) -> bool {
        &&& forall|i: int|
            0 <= i < self.mandatory@.len() ==> router.has_flag(#[trigger] self.mandatory@[i]@)
        &&& forall|i: int|
            0 <= i < self.forbidden@.len() ==> !router.has_flag(#[trigger] self.forbidden@[i]@)
    }

    fn r_is_ok(&self, router: &Router) -> (r: bool) {
        let mut i: usize = 0;
        while i < self.mandatory.len()
            invariant
                0 <= i <= self.mandatory@.len(),
                forall|j: int| 0 <= j < i ==> router@.has_flag(#[trigger] self.mandatory@[j]@),
            decreases self.mandatory@.len() - i,
        {
            if !router.has_flag(self.mandatory[i].as_str()) {
                return false;
            }
            i += 1;
        }
        let mut k: usize = 0;
        while k < self.forbidden.len()
            invariant
                0 <= k <= self.forbidden@.len(),
                forall|j: int| 0 <= j < k ==> !router@.has_flag(#[trigger] self.forbidden@[j]@),
            decreases self.forbidden@.len() - k,
        {
            if router.has_flag(self.forbidden[k].as_str()) {
                return false;
            }
            k += 1;
        }
        true
    }
}

/// Lets a relay pass that every one of its restrictions lets pass.
pub struct NodeRestrictionList<R: NodeRestriction> {
    restrictions: Vec<R>,
}

impl<R: NodeRestriction> NodeRestrictionList<R> {
    /// The restrictions of the list.
    pub closed spec fn spec_restrictions(self) -> Seq<R> {
        self.restrictions@
    }

    /// Whether every restriction of the list lets the relay pass.
    pub open spec fn spec_ok(self, router: RouterView) -> bool {
        forall|i: int|
            0 <= i < self.spec_restrictions().len() ==> (#[trigger] self.spec_restrictions()[i]).spec_ok(
                router,
            )
    }

    /// The list of the given restrictions.
    pub fn new(restrictions: Vec<R>) -> (r: Self)
        ensures
            r.spec_restrictions() == restrictions@,
    {
        NodeRestrictionList { restrictions }
    }

    /// Whether every restriction of the list lets the relay pass.
    pub fn r_is_ok(&self, router: &Router) -> (r: bool)
        ensures
            r == self.spec_ok(router@),
    {
        let mut i: usize = 0;
        while i < self.restrictions.len()
            invariant
                0 <= i <= self.restrictions@.len(),
                forall|j: int|
                    0 <= j < i ==> (#[trigger] self.spec_restrictions()[j]).spec_ok(router@),
            decreases self.restrictions@.len() - i,
        {
            if !self.restrictions[i].r_is_ok(router) {
                assert(!self.spec_restrictions()[i as int].spec_ok(router@));
                return false;
            }
            i += 1;
        }
        true
    }
}

/// Where in a circuit a relay is to serve.
#[derive(Debug, Clone, Copy, PartialEq, Eq, Structural)]
pub enum Position {
    /// First hop.
    Guard,
    /// A hop in the middle.
    Middle,
    /// Last hop.
    Exit,
}

impl Position {
    /// The letter that stands for the position in the keys of the
    /// consensus bandwidth weights.
    pub fn weight_key_suffix(&self) -> (c: char)
        ensures
            c == match *self {
                Position::Guard => 'g',
                Position::Middle => 'm',
                Position::Exit => 'e',
            },
    {
        match self {
            Position::Guard => 'g',
            Position::Middle => 'm',
            Position::Exit => 'e',
        }
    }
}

/// The key of the consensus bandwidth weight for a relay at `pos`: `W`, the
/// position's letter, and `d`, `e` or `g` for a relay that is both guard and
/// exit, exit only, or guard only. A relay that is neither has the key
/// `Wmm` at every position.
pub open spec fn weight_key(pos: Position, has_guard: bool, has_exit: bool) -> Seq<char> {
    if has_guard && has_exit {
        match pos {
            Position::Guard => "Wgd"@,
            Position::Middle => "Wmd"@,
            Position::Exit => "Wed"@,
        }
    } else if has_exit {
        match pos {
            Position::Guard => "Wge"@,
            Position::Middle => "Wme"@,
            Position::Exit => "Wee"@,
        }
    } else if has_guard {
        match pos {
            Position::Guard => "Wgg"@,
            Position::Middle => "Wmg"@,
            Position::Exit => "Weg"@,
        }
    } else {
        "Wmm"@
    }
}

/// The consensus weight of the relay's flags at `pos`, in ten-thousandths:
/// the table's value under the relay's key, 10000 where the table lacks
/// the key, and 0 where the value is negative.
pub open spec fn flag_weight(r: RouterView, weights: Map<Seq<char>, i64>, pos: Position) -> nat {
    let key = weight_key(pos, r.has_flag("Guard"@), r.has_flag("Exit"@));
    let v = if weights.contains_key(key) {
        weights[key]
    } else {
        10000
    };
    if v < 0 {
        0
    } else {
        v as nat
    }
}

/// The relay's weight at `pos`: bandwidth times flag weight.
pub open spec fn node_weight(r: RouterView, weights: Map<Seq<char>, i64>, pos: Position) -> nat {
    r.bw() as nat * flag_weight(r, weights, pos)
}

/// The relays of `rs` that `restrictions` lets pass, in order.
pub open spec fn passing<R: NodeRestriction>(
    rs: Seq<Router>,
    restrictions: NodeRestrictionList<R>,
) -> Seq<Router>
    decreases rs.len(),
{
    if rs.len() == 0 {
        Seq::empty()
    } else if restrictions.spec_ok(rs.last()@) {
        passing(rs.drop_last(), restrictions).push(rs.last())
    } else {
        passing(rs.drop_last(), restrictions)
    }
}

/// Every relay that passes is one of the relays offered, and the
/// restrictions let it pass.
pub proof fn lemma_passing<R: NodeRestriction>(
    rs: Seq<Router>,
    restrictions: NodeRestrictionList<R>,
)
    ensures
        forall|i: int|
            0 <= i < passing(rs, restrictions).len() ==> restrictions.spec_ok(
                (#[trigger] passing(rs, restrictions)[i])@,
            ) && rs.contains(passing(rs, restrictions)[i]),
        forall|j: int|
            0 <= j < rs.len() && restrictions.spec_ok((#[trigger] rs[j])@) ==> passing(
                rs,
                restrictions,
            ).contains(rs[j]),
    decreases rs.len(),
{
    if rs.len() > 0 {
        let front = passing(rs.drop_last(), restrictions);
        let all = passing(rs, restrictions);
        lemma_passing(rs.drop_last(), restrictions);
        assert forall|i: int| 0 <= i < all.len() implies restrictions.spec_ok((#[trigger] all[i])@)
            && rs.contains(all[i]) by {
            if i < front.len() {
                assert(all[i] == front[i]);
                let x = choose|x: int| 0 <= x < rs.drop_last().len() && rs.drop_last()[x] == front[i];
                assert(rs[x] == all[i]);
            } else {
                assert(rs[rs.len() - 1] == all[i]);
            }
        }
        assert forall|j: int| 0 <= j < rs.len() && restrictions.spec_ok((#[trigger] rs[j])@) implies all.contains(
            rs[j],
        ) by {
            if j < rs.len() - 1 {
                assert(rs.drop_last()[j] == rs[j]);
                let x = choose|x: int| 0 <= x < front.len() && front[x] == rs[j];
                assert(all[x] == rs[j]);
            } else {
                assert(all[all.len() - 1] == rs[j]);
            }
        }
    }
}

/// The sum of the weights at `pos` of the relays of `rs`.
pub open spec fn total_weight(rs: Seq<Router>, weights: Map<Seq<char>, i64>, pos: Position) -> nat
    decreases rs.len(),
{
    if rs.len() == 0 {
        0
    } else {
        total_weight(rs.drop_last(), weights, pos) + node_weight(rs.last()@, weights, pos)
    }
}

/// The sum of the weights at the exit position of the relays of `rs` that
/// have the `Exit` flag.
pub open spec fn exit_weight(rs: Seq<Router>, weights: Map<Seq<char>, i64>) -> nat
    decreases rs.len(),
{
    if rs.len() == 0 {
        0
    } else if rs.last()@.has_flag("Exit"@) {
        exit_weight(rs.drop_last(), weights) + node_weight(rs.last()@, weights, Position::Exit)
    } else {
        exit_weight(rs.drop_last(), weights)
    }
}

/// The total weight of a prefix is at most the total weight of the whole,
/// and so is the weight of each relay.
pub proof fn lemma_total_weight(
    rs: Seq<Router>,
    weights: Map<Seq<char>, i64>,
    pos: Position,
    k: int,
)
    requires
        0 <= k <= rs.len(),
    ensures
        total_weight(rs.take(k), weights, pos) <= total_weight(rs, weights, pos),
        k < rs.len() ==> node_weight(rs[k]@, weights, pos) <= total_weight(rs, weights, pos),
    decreases rs.len() - k,
{
    if k < rs.len() {
        lemma_total_weight(rs, weights, pos, k + 1);
        assert(rs.take(k + 1).drop_last() =~= rs.take(k));
        assert(rs.take(k + 1).last() == rs[k]);
    } else {
        assert(rs.take(k) =~= rs);
    }
}

/// The exit weight of a prefix is at most the exit weight of the whole, and
/// so is the exit weight of each relay with the `Exit` flag.
pub proof fn lemma_exit_weight(rs: Seq<Router>, weights: Map<Seq<char>, i64>, k: int)
    requires
        0 <= k <= rs.len(),
    ensures
        exit_weight(rs.take(k), weights) <= exit_weight(rs, weights),
        k < rs.len() && rs[k]@.has_flag("Exit"@) ==> node_weight(rs[k]@, weights, Position::Exit)
            <= exit_weight(rs, weights),
    decreases rs.len() - k,
{
    if k < rs.len() {
        lemma_exit_weight(rs, weights, k + 1);
        assert(rs.take(k + 1).drop_last() =~= rs.take(k));
        assert(rs.take(k + 1).last() == rs[k]);
    } else {
        assert(rs.take(k) =~= rs);
    }
}

/// The index that the draw `draw` picks among the weights `ws`: the first
/// whose cumulative weight exceeds the draw, and the last where none does.
pub open spec fn spec_pick(ws: Seq<u64>, draw: int) -> int
    decreases ws.len(),
{
    if ws.len() <= 1 {
        0
    } else if ws[0] > draw {
        0
    } else {
        1 + spec_pick(ws.drop_first(), draw - ws[0])
    }
}

/// A pick lies within the weights.
pub proof fn lemma_pick_in_range(ws: Seq<u64>, draw: int)
    requires
        ws.len() > 0,
    ensures
        0 <= spec_pick(ws, draw) < ws.len(),
    decreases ws.len(),
{
    if ws.len() > 1 && ws[0] <= draw {
        lemma_pick_in_range(ws.drop_first(), draw - ws[0]);
    }
}

/// The consensus weight of the relay's flags at `pos`.
pub fn flag_to_weight(router: &Router, weights: &StrMap<i64>, pos: Position) -> (w: u64)
    ensures
        w == flag_weight(router@, weights@, pos),
{
    let has_guard = router.has_flag("Guard");
    let has_exit = router.has_flag("Exit");
    let key: &str = if has_guard && has_exit {
        match pos {
            Position::Guard => "Wgd",
            Position::Middle => "Wmd",
            Position::Exit => "Wed",
        }
    } else if has_exit {
        match pos {
            Position::Guard => "Wge",
            Position::Middle => "Wme",
            Position::Exit => "Wee",
        }
    } else if has_guard {
        match pos {
            Position::Guard => "Wgg",
            Position::Middle => "Wmg",
            Position::Exit => "Weg",
        }
    } else {
        "Wmm"
    };
    let v: i64 = match weights.get(key) {
        Some(v) => *v,
        None => 10000,
    };
    if v < 0 {
        0
    } else {
        v as u64
    }
}

/// The weight of each relay and the sum of the exit weights, which change
/// together.
struct Weighting {
    node_weights: Vec<u64>,
    exit_total: u64,
}

/// Chooses among the relays that pass a list of restrictions, each with a
/// chance in proportion to its weight. There is always a relay to choose.
pub struct BwWeightedGenerator {
    rstr_routers: Vec<Router>,
    weighting: Weighting,
    weight_total: u64,
    position: Position,
    bw_weights: StrMap<i64>,
}

impl BwWeightedGenerator {
    #[verifier::type_invariant]
    spec fn inv(self) -> bool {
        &&& self.rstr_routers@.len() > 0
        &&& self.weighting.node_weights@.len() == self.rstr_routers@.len()
        &&& forall|i: int|
            0 <= i < self.weighting.node_weights@.len() ==> #[trigger] self.weighting.node_weights@[i] <= (if
                self.rstr_routers@[i]@.has_flag("Exit"@) && self.weighting.exit_total > 0 {
                self.weighting.exit_total
            } else {
                self.weight_total
            })
    }

    /// The relays to choose from.
    pub closed spec fn spec_routers(self) -> Seq<Router> {
        self.rstr_routers@
    }

    /// The weight of each relay, by position in `spec_routers`.
    pub closed spec fn spec_weights(self) -> Seq<u64> {
        self.weighting.node_weights@
    }

    /// The sum of the weights that the relays had when the generator was
    /// made.
    pub closed spec fn spec_weight_total(self) -> u64 {
        self.weight_total
    }

    /// The sum of the exit weights, once they have been repaired; 0 before.
    pub closed spec fn spec_exit_total(self) -> u64 {
        self.weighting.exit_total
    }

    /// The position for which the weights were computed.
    pub closed spec fn spec_position(self) -> Position {
        self.position
    }

    /// The consensus bandwidth weights.
    pub closed spec fn spec_bw_weights(self) -> Map<Seq<char>, i64> {
        self.bw_weights@
    }

    /// There is a relay to choose, there is a weight for each relay, and no
    /// weight exceeds the total it is a part of: the exit total for a relay with the `Exit` flag, where
    /// that total is positive, and the weight total otherwise.
    pub open spec fn wf(self) -> bool {
        &&& self.spec_routers().len() > 0
        &&& self.spec_weights().len() == self.spec_routers().len()
        &&& forall|i: int|
            0 <= i < self.spec_weights().len() ==> #[trigger] self.spec_weights()[i] <= (if
                self.spec_routers()[i]@.has_flag("Exit"@) && self.spec_exit_total() > 0 {
                self.spec_exit_total()
            } else {
                self.spec_weight_total()
            })
    }

    /// Every generator is well formed.
    pub fn check_wf(&self)
        ensures
            self.wf(),
    {
        proof {
            use_type_invariant(self);
        }
    }

    /// Makes a generator for the relays of `sorted_routers` that
    /// `restrictions` lets pass, weighted for `position` by `bw_weights`.
    ///
    /// Fails with `NoNodesRemain` where no relay passes, and with
    /// `Validation` where the weights of those that pass do not add up
    /// within 64 bits.
    pub fn new<R: NodeRestriction>(
        sorted_routers: Vec<Router>,
        restrictions: NodeRestrictionList<R>,
        bw_weights: StrMap<i64>,
        position: Position,
    ) -> (r: Result<Self, Error>)
        ensures
            match r {
                Ok(g) => {
                    &&& g.spec_routers() == passing(sorted_routers@, restrictions)
                    &&& g.spec_routers().len() > 0
                    &&& g.spec_weights().len() == g.spec_routers().len()
                    &&& forall|i: int|
                        0 <= i < g.spec_routers().len() ==> #[trigger] g.spec_weights()[i]
                            == node_weight(g.spec_routers()[i]@, bw_weights@, position)
                    &&& g.spec_weight_total() == total_weight(
                        g.spec_routers(),
                        bw_weights@,
                        position,
                    )
                    &&& g.spec_exit_total() == 0
                    &&& g.spec_position() == position
                    &&& g.spec_bw_weights() == bw_weights@
                },
                Err(e) => {
                    let rs = passing(sorted_routers@, restrictions);
                    if rs.len() == 0 {
                        e is NoNodesRemain
                    } else {
                        e is Validation && total_weight(rs, bw_weights@, position) > u64::MAX
                    }
                },
            },
    {
        let ghost given = sorted_routers@;
        let mut pool = sorted_routers;
        let mut routers: Vec<Router> = Vec::new();
        let n = pool.len();
        let mut i: usize = 0;
        proof {
            assert(given.take(0) =~= Seq::<Router>::empty());
        }
        while i < n
            invariant
                0 <= i <= n,
                n == given.len(),
                pool@.len() == n,
                forall|j: int| i <= j < n ==> pool@[j] == given[j],
                routers@ == passing(given.take(i as int), restrictions),
            decreases n - i,
        {
            proof {
                assert(given.take(i + 1).drop_last() =~= given.take(i as int));
                assert(given.take(i + 1).last() == given[i as int]);
            }
            if restrictions.r_is_ok(&pool[i]) {
                let mut taken = Router::new(String::new(), String::new(), IpAddress::V4(0));
                core::mem::swap(&mut taken, &mut pool[i]);
                routers.push(taken);
            }
            i += 1;
        }
        proof {
            assert(given.take(n as int) =~= given);
        }
        if routers.len() == 0 {
            return Err(Error::NoNodesRemain);
        }
        let mut node_weights: Vec<u64> = Vec::new();
        let mut total: u64 = 0;
        let m = routers.len();
        let mut k: usize = 0;
        proof {
            assert(routers@.take(0) =~= Seq::<Router>::empty());
        }
        while k < m
            invariant
                0 <= k <= m,
                m == routers@.len(),
                m > 0,
                given == sorted_routers@,
                routers@ == passing(given, restrictions),
                node_weights@.len() == k,
                forall|j: int|
                    0 <= j < k ==> #[trigger] node_weights@[j] == node_weight(
                        routers@[j]@,
                        bw_weights@,
                        position,
                    ),
                total == total_weight(routers@.take(k as int), bw_weights@, position),
            decreases m - k,
        {
            let bw = routers[k].bw();
            let fw = flag_to_weight(&routers[k], &bw_weights, position);
            proof {
                assert(routers@.take(k + 1).drop_last() =~= routers@.take(k as int));
                assert(routers@.take(k + 1).last() == routers@[k as int]);
                lemma_total_weight(routers@, bw_weights@, position, k + 1);
                lemma_total_weight(routers@, bw_weights@, position, k as int);
            }
            let w: u64 = match bw.checked_mul(fw) {
                Some(w) => w,
                None => {
                    return Err(
                        Error::Validation(String::from_str("relay weights exceed 64 bits")),
                    );
                },
            };
            total = match total.checked_add(w) {
                Some(t) => t,
                None => {
                    return Err(
                        Error::Validation(String::from_str("relay weights exceed 64 bits")),
                    );
                },
            };
            node_weights.push(w);
            k += 1;
        }
        proof {
            assert(routers@.take(m as int) =~= routers@);
            assert forall|j: int| 0 <= j < node_weights@.len() implies #[trigger] node_weights@[j]
                <= total by {
                lemma_total_weight(routers@, bw_weights@, position, j);
            }
        }
        Ok(
            BwWeightedGenerator {
                rstr_routers: routers,
                weighting: Weighting { node_weights, exit_total: 0 },
                weight_total: total,
                position,
                bw_weights,
            },
        )
    }

    /// The sum of the weights that the relays had when the generator was
    /// made.
    pub fn weight_total(&self) -> (r: u64)
        ensures
            r == self.spec_weight_total(),
    {
        self.weight_total
    }

    /// The sum of the exit weights, once they have been repaired; 0 before.
    pub fn exit_total(&self) -> (r: u64)
        ensures
            r == self.spec_exit_total(),
    {
        self.weighting.exit_total
    }

    /// Number of relays to choose from.
    pub fn router_count(&self) -> (r: usize)
        ensures
            r == self.spec_routers().len(),
    {
        self.rstr_routers.len()
    }

    /// The relays to choose from.
    pub fn routers(&self) -> (r: &[Router])
        ensures
            r@ == self.spec_routers(),
    {
        self.rstr_routers.as_slice()
    }

    /// The weight of each relay, by position in `routers`.
    pub fn node_weights(&self) -> (r: &[u64])
        ensures
            r@ == self.spec_weights(),
            self.wf(),
    {
        proof {
            use_type_invariant(self);
        }
        self.weighting.node_weights.as_slice()
    }

    /// The relay that the draw `draw` picks.
    pub open spec fn spec_choice(self, draw: u64) -> Router {
        self.spec_routers()[spec_pick(self.spec_weights(), draw as int)]
    }

    /// The relay that the draw `draw` picks: the first whose cumulative
    /// weight exceeds the draw, and the last where none does.
    pub fn pick(&self, draw: u64) -> (r: &Router)
        ensures
            *r == self.spec_choice(draw),
    {
        proof {
            use_type_invariant(self);
        }
        let n = self.weighting.node_weights.len();
        let mut cumulative: u64 = 0;
        let mut i: usize = 0;
        proof {
            assert(self.weighting.node_weights@.skip(0) =~= self.weighting.node_weights@);
        }
        while i + 1 < n
            invariant
                0 <= i < n,
                n == self.weighting.node_weights@.len(),
                n == self.rstr_routers@.len(),
                cumulative <= draw,
                spec_pick(self.weighting.node_weights@, draw as int) == i + spec_pick(
                    self.weighting.node_weights@.skip(i as int),
                    draw - cumulative,
                ),
            decreases n - i,
        {
            let w = self.weighting.node_weights[i];
            proof {
                assert(self.weighting.node_weights@.skip(i as int).drop_first() =~= self.weighting.node_weights@.skip(
                    i + 1,
                ));
                assert(self.weighting.node_weights@.skip(i as int)[0] == w);
            }
            if w > draw - cumulative {
                return &self.rstr_routers[i];
            }
            cumulative += w;
            i += 1;
        }
        &self.rstr_routers[i]
    }

    /// Draws a relay at random, each with a chance in proportion to its
    /// weight: a number is drawn below the weight total, and the relay is
    /// the one that `pick` gives for it. Fails with `NoNodesRemain` exactly
    /// where the weights add up to 0.
    pub fn generate(&self) -> (r: Result<&Router, Error>)
        ensures
            self.wf(),
            match r {
                Ok(router) => {
                    &&& self.spec_weight_total() > 0
                    &&& exists|draw: u64|
                        draw < self.spec_weight_total() && *router == #[trigger] self.spec_choice(
                            draw,
                        )
                },
                Err(e) => e is NoNodesRemain && self.spec_weight_total() == 0,
            },
    {
        proof {
            use_type_invariant(self);
        }
        if self.weight_total == 0 {
            return Err(Error::NoNodesRemain);
        }
        let draw = random_in(0, self.weight_total - 1);
        Ok(self.pick(draw))
    }

    /// Recomputes the weights of the relays with the `Exit` flag for the
    /// exit position and records their sum as the exit total. The weight
    /// total and the other relays' weights stay as they are.
    ///
    /// Fails with `Validation`, and changes nothing, where the exit weights
    /// do not add up within 64 bits.
    pub fn repair_exits(&mut self) -> (r: Result<(), Error>)
        ensures
            final(self).spec_routers() == old(self).spec_routers(),
            final(self).spec_position() == old(self).spec_position(),
            final(self).spec_bw_weights() == old(self).spec_bw_weights(),
            final(self).spec_weight_total() == old(self).spec_weight_total(),
            final(self).spec_weights().len() == old(self).spec_weights().len(),
            match r {
                Ok(_) => {
                    &&& final(self).spec_exit_total() == exit_weight(
                        old(self).spec_routers(),
                        old(self).spec_bw_weights(),
                    )
                    &&& forall|i: int|
                        0 <= i < old(self).spec_weights().len() ==> #[trigger] final(self).spec_weights()[i]
                            == (if old(self).spec_routers()[i]@.has_flag("Exit"@) {
                            node_weight(
                                old(self).spec_routers()[i]@,
                                old(self).spec_bw_weights(),
                                Position::Exit,
                            ) as u64
                        } else {
                            old(self).spec_weights()[i]
                        })
                },
                Err(e) => {
                    &&& e is Validation
                    &&& exit_weight(old(self).spec_routers(), old(self).spec_bw_weights())
                        > u64::MAX
                    &&& final(self).spec_weights() == old(self).spec_weights()
                    &&& final(self).spec_exit_total() == old(self).spec_exit_total()
                },
            },
    {
        proof {
            use_type_invariant(&*self);
        }
        let n = self.rstr_routers.len();
        let mut weights: Vec<u64> = Vec::new();
        let mut exit_total: u64 = 0;
        let mut i: usize = 0;
        proof {
            assert(self.rstr_routers@.take(0) =~= Seq::<Router>::empty());
        }
        while i < n
            invariant
                0 <= i <= n,
                n == self.rstr_routers@.len(),
                n == self.weighting.node_weights@.len(),
                weights@.len() == i,
                exit_total == exit_weight(self.rstr_routers@.take(i as int), self.bw_weights@),
                forall|j: int|
                    0 <= j < i ==> #[trigger] weights@[j] == (if self.rstr_routers@[j]@.has_flag(
                        "Exit"@,
                    ) {
                        node_weight(self.rstr_routers@[j]@, self.bw_weights@, Position::Exit) as u64
                    } else {
                        self.weighting.node_weights@[j]
                    }),
                forall|j: int|
                    0 <= j < i && self.rstr_routers@[j]@.has_flag("Exit"@) ==> node_weight(
                        #[trigger] self.rstr_routers@[j]@,
                        self.bw_weights@,
                        Position::Exit,
                    ) <= u64::MAX,
            decreases n - i,
        {
            proof {
                assert(self.rstr_routers@.take(i + 1).drop_last() =~= self.rstr_routers@.take(
                    i as int,
                ));
                assert(self.rstr_routers@.take(i + 1).last() == self.rstr_routers@[i as int]);
                lemma_exit_weight(self.rstr_routers@, self.bw_weights@, i + 1);
            }
            if self.rstr_routers[i].has_flag("Exit") {
                let bw = self.rstr_routers[i].bw();
                let fw = flag_to_weight(&self.rstr_routers[i], &self.bw_weights, Position::Exit);
                let w: u64 = match bw.checked_mul(fw) {
                    Some(w) => w,
                    None => {
                        return Err(
                            Error::Validation(String::from_str("exit weights exceed 64 bits")),
                        );
                    },
                };
                exit_total = match exit_total.checked_add(w) {
                    Some(t) => t,
                    None => {
                        return Err(
                            Error::Validation(String::from_str("exit weights exceed 64 bits")),
                        );
                    },
                };
                weights.push(w);
            } else {
                weights.push(self.weighting.node_weights[i]);
            }
            i += 1;
        }
        proof {
            assert(self.rstr_routers@.take(n as int) =~= self.rstr_routers@);
            assert forall|j: int| 0 <= j < weights@.len() implies #[trigger] weights@[j] <= (if
                self.rstr_routers@[j]@.has_flag("Exit"@) && exit_total > 0 {
                exit_total
            } else {
                self.weight_total
            }) by {
                lemma_exit_weight(self.rstr_routers@, self.bw_weights@, j);
                assert(self.weighting.node_weights@[j] <= self.weighting.node_weights@[j]);
            }
        }
        self.weighting = Weighting { node_weights: weights, exit_total };
        Ok(())
    }
}

} // verus!
