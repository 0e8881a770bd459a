//! The region manager: which regions are resident, and what each tick loads
//! and unloads as the player moves.

use vstd::prelude::*;
use crate::region::{RegionKey, dist_sq};

verus! {

/// Regions within this lattice radius of the player's region are loaded.
pub const LOAD_RADIUS: i64 = 8;

/// Regions beyond this lattice radius of the player's region are unloaded.
pub const UNLOAD_RADIUS: i64 = 12;

pub open spec fn in_load_range(k: RegionKey, p: RegionKey) -> bool {
    dist_sq(k, p) <= LOAD_RADIUS * LOAD_RADIUS
}

pub open spec fn past_unload_range(k: RegionKey, p: RegionKey) -> bool {
    dist_sq(k, p) > UNLOAD_RADIUS * UNLOAD_RADIUS
}

/// The lattice points within squared distance `r2` of `p`.
pub open spec fn lattice_disc(p: RegionKey, r2: int) -> Set<RegionKey> {
    Set::new(|k: RegionKey| dist_sq(k, p) <= r2)
}

/// A loaded region and the handle of the scene node that owns its content.
#[derive(Clone, Copy, Debug, PartialEq, Eq, Structural)]
pub struct RegionRecord {
    pub key: RegionKey,
    pub handle: u64,
}

pub open spec fn keys_of(s: Seq<RegionRecord>) -> Seq<RegionKey> {
    s.map_values(|r: RegionRecord| r.key)
}

pub open spec fn key_set(s: Seq<RegionRecord>) -> Set<RegionKey> {
    keys_of(s).to_set()
}

/// What one tick asks of the scene: nodes to destroy, regions to build.
pub struct TickPlan {
    pub unload: Vec<RegionRecord>,
    pub load: Vec<RegionKey>,
}

/// The manager seen as values: loaded records, regions planned for loading
/// but not yet committed, and the player's region at the last evaluation.
pub struct ManagerView {
    pub loaded: Seq<RegionRecord>,
    pub pending: Seq<RegionKey>,
    pub last_player: RegionKey,
}

impl ManagerView {
    pub open spec fn well_formed(self) -> bool {
        &&& keys_of(self.loaded).no_duplicates()
        &&& self.pending.no_duplicates()
        &&& forall|i: int|
            0 <= i < self.pending.len() ==> !key_set(self.loaded).contains(#[trigger] self.pending[i])
        &&& forall|i: int|
            0 <= i < self.loaded.len() ==> !past_unload_range(
                #[trigger] self.loaded[i].key,
                self.last_player,
            )
        &&& forall|i: int|
            0 <= i < self.pending.len() ==> in_load_range(
                #[trigger] self.pending[i],
                self.last_player,
            )
        &&& (self.loaded.len() > 0 || self.pending.len() > 0) ==> forall|k: RegionKey|
            #[trigger] in_load_range(k, self.last_player) ==> self.resident().contains(k)
    }

    /// Regions that are loaded or planned for loading.
    pub open spec fn resident(self) -> Set<RegionKey> {
        key_set(self.loaded).union(self.pending.to_set())
    }
}

/// Whether a loaded record survives an evaluation at player region `p`.
pub open spec fn stays(p: RegionKey) -> spec_fn(RegionRecord) -> bool {
    |rec: RegionRecord| !past_unload_range(rec.key, p)
}

/// Whether a loaded record is unloaded by an evaluation at player region `p`.
pub open spec fn leaves(p: RegionKey) -> spec_fn(RegionRecord) -> bool {
    |rec: RegionRecord| past_unload_range(rec.key, p)
}

/// The resident set after one evaluation at player region `p`: what stays
/// within the unload radius, and everything within the load radius.
pub open spec fn advance(s: Set<RegionKey>, p: RegionKey) -> Set<RegionKey> {
    Set::new(|k: RegionKey| (s.contains(k) && !past_unload_range(k, p)) || in_load_range(k, p))
}

pub struct RegionManager {
    loaded: Vec<RegionRecord>,
    pending: Vec<RegionKey>,
    last_player: RegionKey,
}

impl View for RegionManager {
    type V = ManagerView;

    closed spec fn view(&self) -> ManagerView {
        ManagerView { loaded: self.loaded@, pending: self.pending@, last_player: self.last_player }
    }
}

fn holds_key(recs: &Vec<RegionRecord>, key: &RegionKey) -> (r: bool)
    ensures
        r == key_set(recs@).contains(*key),
{
    let mut i: usize = 0;
    while i < recs.len()
        invariant
            0 <= i <= recs.len(),
            forall|j: int| 0 <= j < i ==> recs@[j].key != *key,
        decreases recs.len() - i,
    {
        if recs[i].key == *key {
            assert(keys_of(recs@)[i as int] == *key);
            return true;
        }
        i += 1;
    }
    assert(!keys_of(recs@).contains(*key)) by {
        if keys_of(recs@).contains(*key) {
            let j = choose|j: int| 0 <= j < keys_of(recs@).len() && keys_of(recs@)[j] == *key;
            assert(recs@[j].key == *key);
        }
    }
    false
}


proof fn lemma_push_contains<A>(s: Seq<A>, a: A)
    ensures
        forall|b: A| #[trigger] s.push(a).contains(b) <==> (s.contains(b) || b == a),
        s.no_duplicates() && !s.contains(a) ==> s.push(a).no_duplicates(),
{
    assert forall|b: A| #[trigger] s.push(a).contains(b) <==> (s.contains(b) || b == a) by {
        if s.push(a).contains(b) {
            let j = choose|j: int| 0 <= j < s.push(a).len() && s.push(a)[j] == b;
            if j < s.len() {
                assert(s[j] == b);
            }
        }
        if s.contains(b) {
            let j = choose|j: int| 0 <= j < s.len() && s[j] == b;
            assert(s.push(a)[j] == b);
        }
        if b == a {
            assert(s.push(a)[s.len() as int] == a);
        }
    }
    if s.no_duplicates() && !s.contains(a) {
        assert forall|i: int, j: int|
            0 <= i < s.push(a).len() && 0 <= j < s.push(a).len() && i != j implies s.push(a)[i]
            != s.push(a)[j] by {
            if i == s.len() {
                assert(s[j] == s.push(a)[j]);
            } else if j == s.len() {
                assert(s[i] == s.push(a)[i]);
            }
        }
    }
}

proof fn lemma_load_range_bounds(k: RegionKey, p: RegionKey)
    requires
        in_load_range(k, p),
    ensures
        -LOAD_RADIUS <= k.x - p.x <= LOAD_RADIUS,
        -LOAD_RADIUS <= k.z - p.z <= LOAD_RADIUS,
{
    let dx = k.x - p.x;
    let dz = k.z - p.z;
    assert(dx * dx <= 64 && dz * dz <= 64) by (nonlinear_arith)
        requires
            dx * dx + dz * dz <= 64,
    ;
    assert(-8 <= dx <= 8) by (nonlinear_arith)
        requires
            dx * dx <= 64,
    ;
    assert(-8 <= dz <= 8) by (nonlinear_arith)
        requires
            dz * dz <= 64,
    ;
}


/// Filtering records keeps every key that passes and drops no such key; keys
/// stay free of duplicates.
proof fn lemma_filter_keys(s: Seq<RegionRecord>, keep: spec_fn(RegionRecord) -> bool)
    ensures
        forall|k: RegionKey|
            key_set(s.filter(keep)).contains(k) <==> exists|i: int|
                0 <= i < s.len() && s[i].key == k && keep(s[i]),
        keys_of(s).no_duplicates() ==> keys_of(s.filter(keep)).no_duplicates(),
    decreases s.len(),
{
    reveal(Seq::filter);
    if s.len() == 0 {
        assert(keys_of(s.filter(keep)) =~= Seq::empty());
    } else {
        let init = s.drop_last();
        lemma_filter_keys(init, keep);
        let f = s.filter(keep);
        assert(keys_of(init) =~= keys_of(s).drop_last());
        assert forall|k: RegionKey|
            key_set(f).contains(k) <==> exists|i: int| 0 <= i < s.len() && s[i].key == k && keep(s[i]) by {
            if key_set(f).contains(k) {
                let j = choose|j: int| 0 <= j < keys_of(f).len() && keys_of(f)[j] == k;
                if keep(s.last()) && j == f.len() - 1 {
                    assert(s[s.len() - 1].key == k);
                } else {
                    assert(keys_of(init.filter(keep))[j] == k);
                    assert(key_set(init.filter(keep)).contains(k));
                    let i = choose|i: int| 0 <= i < init.len() && init[i].key == k && keep(init[i]);
                    assert(s[i] == init[i]);
                }
            }
            if exists|i: int| 0 <= i < s.len() && s[i].key == k && keep(s[i]) {
                let i = choose|i: int| 0 <= i < s.len() && s[i].key == k && keep(s[i]);
                if i == s.len() - 1 {
                    assert(keys_of(f)[f.len() - 1] == k);
                } else {
                    assert(init[i] == s[i]);
                    assert(key_set(init.filter(keep)).contains(k));
                    let j = choose|j: int| 0 <= j < keys_of(init.filter(keep)).len() && keys_of(init.filter(keep))[j] == k;
                    assert(keys_of(f)[j] == k);
                }
            }
        }
        if keys_of(s).no_duplicates() && keep(s.last()) {
            assert forall|a: int, b: int|
                0 <= a < keys_of(f).len() && 0 <= b < keys_of(f).len() && a != b implies keys_of(f)[a]
                != keys_of(f)[b] by {
                if a == f.len() - 1 || b == f.len() - 1 {
                    let o = if a == f.len() - 1 { b } else { a };
                    let k = keys_of(f)[o];
                    assert(keys_of(init.filter(keep))[o] == k);
                    assert(key_set(init.filter(keep)).contains(k));
                    let i = choose|i: int| 0 <= i < init.len() && init[i].key == k && keep(init[i]);
                    assert(keys_of(s)[i] == k);
                    assert(keys_of(s)[s.len() - 1] == s.last().key);
                } else {
                    assert(keys_of(init.filter(keep))[a] == keys_of(f)[a]);
                    assert(keys_of(init.filter(keep))[b] == keys_of(f)[b]);
                }
            }
        }
        if keys_of(s).no_duplicates() && !keep(s.last()) {
            assert(keys_of(f) =~= keys_of(init.filter(keep)));
        }
    }
}

/// Two regions that touch, by an edge or by a corner.
pub open spec fn neighbours(a: RegionKey, b: RegionKey) -> bool {
    -1 <= a.x - b.x <= 1 && -1 <= a.z - b.z <= 1
}

/// A region within the load radius of one region is within the unload radius
/// of each neighbour of it.
pub proof fn lemma_load_range_inside_neighbour_unload_range(k: RegionKey, a: RegionKey, b: RegionKey)
    requires
        neighbours(a, b),
        in_load_range(k, a),
    ensures
        !past_unload_range(k, b),
{
    lemma_load_range_bounds(k, a);
    let dx = k.x - a.x;
    let dz = k.z - a.z;
    let s = a.x - b.x;
    let t = a.z - b.z;
    assert((dx + s) * (dx + s) + (dz + t) * (dz + t) <= 144) by (nonlinear_arith)
        requires
            -8 <= dx <= 8,
            -8 <= dz <= 8,
            -1 <= s <= 1,
            -1 <= t <= 1,
            dx * dx + dz * dz <= 64,
    ;
    assert(k.x - b.x == dx + s && k.z - b.z == dz + t);
}

/// A player moving back and forth between two neighbouring regions causes no
/// thrashing: after one evaluation at each of them, further evaluations at
/// either one leave the resident set as it is.
pub proof fn lemma_no_thrashing(s: Set<RegionKey>, a: RegionKey, b: RegionKey)
    requires
        neighbours(a, b),
    ensures
        advance(advance(advance(s, a), b), a) == advance(advance(s, a), b),
        advance(advance(advance(s, a), b), b) == advance(advance(s, a), b),
{
    let t1 = advance(s, a);
    let t = advance(t1, b);
    assert(neighbours(b, a));
    assert forall|k: RegionKey| t.contains(k) implies !past_unload_range(k, a) && !past_unload_range(k, b) by {
        if in_load_range(k, b) {
            lemma_load_range_inside_neighbour_unload_range(k, b, a);
        } else if in_load_range(k, a) {
            lemma_load_range_inside_neighbour_unload_range(k, a, b);
        }
    }
    assert forall|k: RegionKey| in_load_range(k, a) implies t.contains(k) by {
        lemma_load_range_inside_neighbour_unload_range(k, a, b);
    }
    assert(advance(t, a) =~= t);
    assert(advance(t, b) =~= t);
}

/// The resident set after `n` evaluations from resident set `s`, alternating
/// between player regions `a` (first) and `b`. By the resident clauses of
/// `tick` and `commit`, this is the resident set of a manager ticked `n` times
/// at alternating regions when every plan is committed before the next tick.
pub open spec fn alternating_run(s: Set<RegionKey>, a: RegionKey, b: RegionKey, n: nat) -> Set<RegionKey>
    decreases n,
{
    if n == 0 {
        s
    } else {
        let prev = (n - 1) as nat;
        advance(alternating_run(s, a, b, prev), if prev % 2 == 0 { a } else { b })
    }
}

/// Over a run of evaluations alternating between two neighbouring regions,
/// the resident set is settled after the second evaluation: nothing is loaded
/// or unloaded from the third on.
pub proof fn lemma_alternating_run_settles(s: Set<RegionKey>, a: RegionKey, b: RegionKey, n: nat)
    requires
        neighbours(a, b),
        n >= 2,
    ensures
        alternating_run(s, a, b, n) == alternating_run(s, a, b, 2),
    decreases n,
{
    reveal_with_fuel(alternating_run, 3);
    assert(alternating_run(s, a, b, 1) == advance(s, a));
    assert(alternating_run(s, a, b, 2) == advance(advance(s, a), b));
    if n > 2 {
        let prev = (n - 1) as nat;
        lemma_alternating_run_settles(s, a, b, prev);
        lemma_no_thrashing(s, a, b);
    }
}

/// A region unloaded at some evaluation of an alternating run is never loaded
/// again later in the run.
pub proof fn lemma_alternating_run_no_reload(
    s: Set<RegionKey>,
    a: RegionKey,
    b: RegionKey,
    k: RegionKey,
    m: nat,
    n: nat,
)
    requires
        neighbours(a, b),
        m < n,
        alternating_run(s, a, b, m).contains(k),
        !alternating_run(s, a, b, m + 1).contains(k),
    ensures
        !alternating_run(s, a, b, n).contains(k),
{
    reveal_with_fuel(alternating_run, 3);
    let r1 = alternating_run(s, a, b, 1);
    let r2 = alternating_run(s, a, b, 2);
    assert(r1 == advance(s, a));
    assert(r2 == advance(r1, b));
    if m >= 2 {
        lemma_alternating_run_settles(s, a, b, m);
        lemma_alternating_run_settles(s, a, b, m + 1);
    } else if m == 1 {
        if n >= 2 {
            lemma_alternating_run_settles(s, a, b, n);
        }
    } else {
        // Unloaded at the first evaluation: beyond the unload radius of `a`,
        // hence outside the load radius of its neighbour `b`.
        assert(past_unload_range(k, a));
        if in_load_range(k, b) {
            lemma_load_range_inside_neighbour_unload_range(k, b, a);
        }
        assert(!r2.contains(k));
        if n >= 2 {
            lemma_alternating_run_settles(s, a, b, n);
        }
    }
}

/// Over an alternating run each region is loaded at most once.
pub proof fn lemma_alternating_run_loads_once(
    s: Set<RegionKey>,
    a: RegionKey,
    b: RegionKey,
    k: RegionKey,
    m1: nat,
    m2: nat,
)
    requires
        neighbours(a, b),
        m1 < m2,
        !alternating_run(s, a, b, m1).contains(k),
        alternating_run(s, a, b, m1 + 1).contains(k),
    ensures
        !(!alternating_run(s, a, b, m2).contains(k) && alternating_run(s, a, b, m2 + 1).contains(k)),
{
    if m2 >= 2 {
        lemma_alternating_run_settles(s, a, b, m2);
        lemma_alternating_run_settles(s, a, b, m2 + 1);
    }
}

/// Each resident region lies within the unload radius of the player's region
/// at the last evaluation, so the number of loaded and planned regions never
/// exceeds the number of lattice points within that radius.
pub proof fn lemma_working_set_bounded(m: ManagerView)
    requires
        m.well_formed(),
    ensures
        m.resident().subset_of(lattice_disc(m.last_player, UNLOAD_RADIUS * UNLOAD_RADIUS)),
        lattice_disc(m.last_player, UNLOAD_RADIUS * UNLOAD_RADIUS).finite(),
        m.resident().len() == m.loaded.len() + m.pending.len(),
        m.loaded.len() + m.pending.len() <= lattice_disc(
            m.last_player,
            UNLOAD_RADIUS * UNLOAD_RADIUS,
        ).len(),
{
    let p = m.last_player;
    let disc = lattice_disc(p, UNLOAD_RADIUS * UNLOAD_RADIUS);
    lemma_disc_finite(p);
    assert forall|k: RegionKey| m.resident().contains(k) implies disc.contains(k) by {
        if key_set(m.loaded).contains(k) {
            let j = choose|j: int| 0 <= j < keys_of(m.loaded).len() && keys_of(m.loaded)[j] == k;
            assert(!past_unload_range(m.loaded[j].key, p));
        } else {
            let j = choose|j: int| 0 <= j < m.pending.len() && m.pending[j] == k;
            assert(in_load_range(m.pending[j], p));
        }
    }
    keys_of(m.loaded).unique_seq_to_set();
    m.pending.unique_seq_to_set();
    assert(key_set(m.loaded).disjoint(m.pending.to_set())) by {
        assert forall|k: RegionKey| m.pending.to_set().contains(k) implies !key_set(m.loaded).contains(k) by {
            let j = choose|j: int| 0 <= j < m.pending.len() && m.pending[j] == k;
            assert(!key_set(m.loaded).contains(m.pending[j]));
        }
    }
    vstd::set_lib::lemma_set_disjoint_lens(key_set(m.loaded), m.pending.to_set());
    vstd::set_lib::lemma_len_subset(m.resident(), disc);
}

/// The lattice points within the unload radius of `p` form a finite set.
proof fn lemma_disc_finite(p: RegionKey)
    ensures
        lattice_disc(p, UNLOAD_RADIUS * UNLOAD_RADIUS).finite(),
{
    let side: int = 2 * UNLOAD_RADIUS + 1;
    let f = |n: int| RegionKey { x: (p.x - UNLOAD_RADIUS + n / side) as i32, z: (p.z - UNLOAD_RADIUS + n % side) as i32 };
    let square = vstd::set_lib::set_int_range(0, side * side);
    vstd::set_lib::lemma_int_range(0, side * side);
    square.lemma_map_finite(f);
    let disc = lattice_disc(p, UNLOAD_RADIUS * UNLOAD_RADIUS);
    assert forall|k: RegionKey| disc.contains(k) implies square.map(f).contains(k) by {
        let dx = k.x - p.x;
        let dz = k.z - p.z;
        assert(-12 <= dx <= 12 && -12 <= dz <= 12) by (nonlinear_arith)
            requires
                dx * dx + dz * dz <= 144,
        ;
        let n = (dx + 12) * side + (dz + 12);
        vstd::arithmetic::div_mod::lemma_fundamental_div_mod_converse(n, side, dx + 12, dz + 12);
        assert(0 <= n < side * side) by (nonlinear_arith)
            requires
                n == (dx + 12) * side + (dz + 12),
                side == 25,
                0 <= dx + 12 <= 24,
                0 <= dz + 12 <= 24,
        ;
        assert(f(n) == k);
        assert(square.contains(n));
    }
    vstd::set_lib::lemma_len_subset(disc, square.map(f));
}

/// No region has two records in a well-formed manager.
pub proof fn lemma_one_record_per_region(m: ManagerView, i: int, j: int)
    requires
        m.well_formed(),
        0 <= i < m.loaded.len(),
        0 <= j < m.loaded.len(),
        m.loaded[i].key == m.loaded[j].key,
    ensures
        i == j,
{
    assert(keys_of(m.loaded)[i] == keys_of(m.loaded)[j]);
}

impl RegionManager {
    pub fn new() -> (r: RegionManager)
        ensures
            r@.well_formed(),
            r@.loaded.len() == 0,
            r@.pending.len() == 0,
            r@.last_player == (RegionKey { x: 0, z: 0 }),
    {
        let r = RegionManager { loaded: Vec::new(), pending: Vec::new(), last_player: RegionKey { x: 0, z: 0 } };
        assert(keys_of(r.loaded@) =~= Seq::empty());
        r
    }

    /// One evaluation of the streaming rule at player region `player`.
    ///
    /// Nothing happens while the player stays in the region of the last
    /// evaluation and some region is loaded. Otherwise every loaded region
    /// past the unload radius leaves the loaded set (unload first), and every
    /// region within the load radius that is not loaded is planned for
    /// loading; the plan replaces any earlier plan that was not committed.
    pub fn tick(&mut self, player: RegionKey) -> (r: Option<TickPlan>)
        requires
            old(self)@.well_formed(),
        ensures
            final(self)@.well_formed(),
            final(self)@.last_player == player,
            old(self)@.pending.len() == 0 ==> final(self)@.resident() == advance(
                old(self)@.resident(),
                player,
            ),
            (old(self)@.last_player == player && old(self)@.loaded.len() > 0) ==> {
                &&& r is None
                &&& final(self)@ == old(self)@
            },
            !(old(self)@.last_player == player && old(self)@.loaded.len() > 0) ==> {
                &&& r is Some
                &&& final(self)@.loaded == old(self)@.loaded.filter(stays(player))
                &&& forall|k: RegionKey|
                    #[trigger] key_set(final(self)@.loaded).contains(k) <==> (key_set(
                        old(self)@.loaded,
                    ).contains(k) && !past_unload_range(k, player))
                &&& r.unwrap().unload@ == old(self)@.loaded.filter(leaves(player))
                &&& r.unwrap().load@ == final(self)@.pending
                &&& r.unwrap().load@.no_duplicates()
                &&& forall|k: RegionKey|
                    #[trigger] r.unwrap().load@.contains(k) <==> (in_load_range(k, player) && !key_set(
                        final(self)@.loaded,
                    ).contains(k))
                &&& final(self)@.resident() == advance(key_set(old(self)@.loaded), player)
            },
    {
        if self.last_player == player && self.loaded.len() > 0 {
            proof {
                let v = self@;
                if v.pending.len() == 0 {
                    assert forall|k: RegionKey| #[trigger] v.resident().contains(k) implies !past_unload_range(k, player) by {
                        assert(v.pending.to_set().contains(k) ==> v.pending.contains(k));
                        if key_set(v.loaded).contains(k) {
                            let j = choose|j: int| 0 <= j < keys_of(v.loaded).len() && keys_of(v.loaded)[j] == k;
                            assert(!past_unload_range(v.loaded[j].key, player));
                        }
                    }
                    assert forall|k: RegionKey| #[trigger] in_load_range(k, player) implies v.resident().contains(k) by {
                        assert(in_load_range(k, v.last_player));
                    }
                    assert(advance(v.resident(), player) =~= v.resident());
                }
            }
            return None;
        }
        let ghost old_loaded = self.loaded@;
        let ghost old_pending = self.pending@;

        // Unload first, so that the resident count peaks as low as it can.
        let mut kept: Vec<RegionRecord> = Vec::new();
        let mut unload: Vec<RegionRecord> = Vec::new();
        let mut i: usize = 0;
        while i < self.loaded.len()
            invariant
                0 <= i <= self.loaded.len(),
                self.loaded@ == old_loaded,
                kept@ == old_loaded.take(i as int).filter(stays(player)),
                unload@ == old_loaded.take(i as int).filter(leaves(player)),
            decreases self.loaded.len() - i,
        {
            let rec = self.loaded[i];
            assert(old_loaded.take(i + 1) =~= old_loaded.take(i as int).push(rec));
            proof {
                old_loaded.take(i as int).lemma_filter_push(rec, stays(player));
                old_loaded.take(i as int).lemma_filter_push(rec, leaves(player));
            }
            if rec.key.distance_sq(&player) > (UNLOAD_RADIUS * UNLOAD_RADIUS) as u128 {
                unload.push(rec);
            } else {
                kept.push(rec);
            }
            i += 1;
        }
        assert(old_loaded.take(old_loaded.len() as int) =~= old_loaded);
        proof {
            lemma_filter_keys(old_loaded, stays(player));
        }

        let mut load: Vec<RegionKey> = Vec::new();
        let mut ox: i64 = -LOAD_RADIUS;
        assert forall|k2: RegionKey| in_load_range(k2, player) implies -LOAD_RADIUS <= k2.x
            - player.x <= LOAD_RADIUS && -LOAD_RADIUS <= k2.z - player.z <= LOAD_RADIUS by {
            lemma_load_range_bounds(k2, player);
        }
        while ox <= LOAD_RADIUS
            invariant
                -LOAD_RADIUS <= ox <= LOAD_RADIUS + 1,
                load@.no_duplicates(),
                forall|k: RegionKey|
                    #[trigger] load@.contains(k) <==> (in_load_range(k, player) && !key_set(kept@).contains(k)
                        && k.x - player.x < ox),
            decreases LOAD_RADIUS + 1 - ox,
        {
            let mut oz: i64 = -LOAD_RADIUS;
            assert forall|k2: RegionKey| in_load_range(k2, player) implies -LOAD_RADIUS <= k2.z
                - player.z by {
                lemma_load_range_bounds(k2, player);
            }
            while oz <= LOAD_RADIUS
                invariant
                    -LOAD_RADIUS <= ox <= LOAD_RADIUS,
                    -LOAD_RADIUS <= oz <= LOAD_RADIUS + 1,
                    load@.no_duplicates(),
                    forall|k: RegionKey|
                        #[trigger] load@.contains(k) <==> (in_load_range(k, player) && !key_set(kept@).contains(k)
                            && (k.x - player.x < ox || (k.x - player.x == ox && k.z - player.z < oz))),
                decreases LOAD_RADIUS + 1 - oz,
            {
                assert(0 <= ox * ox <= 64 && 0 <= oz * oz <= 64) by (nonlinear_arith)
                    requires
                        -8 <= ox <= 8,
                        -8 <= oz <= 8,
                ;
                let d2: i64 = ox * ox + oz * oz;
                let kx: i64 = player.x as i64 + ox;
                let kz: i64 = player.z as i64 + oz;
                if i32::MIN as i64 <= kx && kx <= i32::MAX as i64 && i32::MIN as i64 <= kz && kz
                    <= i32::MAX as i64 && d2 <= LOAD_RADIUS * LOAD_RADIUS {
                    let k = RegionKey { x: kx as i32, z: kz as i32 };
                    assert(k.x - player.x == ox && k.z - player.z == oz);
                    assert(dist_sq(k, player) == ox * ox + oz * oz);
                    if !holds_key(&kept, &k) {
                        assert(!load@.contains(k));
                        let ghost prev = load@;
                        load.push(k);
                        proof {
                            lemma_push_contains(prev, k);
                        }
                        assert forall|k2: RegionKey|
                            load@.contains(k2) <==> (in_load_range(k2, player) && !key_set(
                                kept@,
                            ).contains(k2) && (k2.x - player.x < ox || (k2.x - player.x == ox
                                && k2.z - player.z < oz + 1))) by {
                            assert(load@.contains(k2) <==> (prev.contains(k2) || k2 == k));
                        }
                    }
                } else {
                    assert forall|k2: RegionKey|
                        k2.x - player.x == ox && k2.z - player.z == oz implies !in_load_range(k2, player) by {
                        assert(dist_sq(k2, player) == ox * ox + oz * oz);
                    }
                }
                oz += 1;
            }
            assert forall|k2: RegionKey| in_load_range(k2, player) implies k2.z - player.z
                < LOAD_RADIUS + 1 by {
                lemma_load_range_bounds(k2, player);
            }
            ox += 1;
        }
        assert forall|k2: RegionKey| in_load_range(k2, player) implies k2.x - player.x
            < LOAD_RADIUS + 1 by {
            lemma_load_range_bounds(k2, player);
        }

        self.loaded = kept;
        self.pending = load.clone();
        self.last_player = player;
        proof {
            let v = self@;
            assert forall|k: RegionKey| #[trigger] key_set(v.loaded).contains(k) <==> (key_set(
                old_loaded,
            ).contains(k) && !past_unload_range(k, player)) by {
                if key_set(old_loaded).contains(k) && !past_unload_range(k, player) {
                    let j = choose|j: int|
                        0 <= j < keys_of(old_loaded).len() && keys_of(old_loaded)[j] == k;
                    assert(old_loaded[j].key == k && stays(player)(old_loaded[j]));
                }
                if key_set(kept@).contains(k) {
                    let j = choose|j: int|
                        0 <= j < old_loaded.len() && old_loaded[j].key == k && stays(player)(
                            old_loaded[j],
                        );
                    assert(keys_of(old_loaded)[j] == k);
                }
            }
            assert(v.resident() =~= advance(key_set(old_loaded), player));
            assert forall|k: RegionKey| #[trigger] in_load_range(k, player) implies v.resident().contains(k) by {
                if !key_set(v.loaded).contains(k) {
                    assert(load@.contains(k));
                    assert(v.pending.contains(k));
                }
            }
            if old_pending.len() == 0 {
                assert(old_pending.to_set() =~= Set::empty());
                assert(key_set(old_loaded).union(old_pending.to_set()) =~= key_set(old_loaded));
            }
            assert forall|i: int| 0 <= i < v.loaded.len() implies !past_unload_range(
                #[trigger] v.loaded[i].key,
                player,
            ) by {
                assert(stays(player)(v.loaded[i]));
            }
            assert forall|i: int| 0 <= i < v.pending.len() implies in_load_range(
                #[trigger] v.pending[i],
                player,
            ) && !key_set(v.loaded).contains(v.pending[i]) by {
                assert(load@.contains(v.pending[i]));
            }
        }
        Some(TickPlan { unload, load })
    }

    /// Records that region `key`, planned by the last evaluation, is now built
    /// under scene node `handle`. A key that is not planned is refused and
    /// nothing changes, so a region never gets a second record.
    pub fn commit(&mut self, key: RegionKey, handle: u64) -> (r: bool)
        requires
            old(self)@.well_formed(),
        ensures
            final(self)@.well_formed(),
            r == old(self)@.pending.contains(key),
            r ==> final(self)@.loaded == old(self)@.loaded.push(RegionRecord { key, handle }),
            r ==> forall|k: RegionKey|
                #[trigger] final(self)@.pending.contains(k) <==> (old(self)@.pending.contains(k) && k
                    != key),
            r ==> final(self)@.last_player == old(self)@.last_player,
            r ==> final(self)@.resident() == old(self)@.resident(),
            !r ==> final(self)@ == old(self)@,
    {
        let ghost old_view = self@;
        let mut i: usize = 0;
        while i < self.pending.len()
            invariant
                0 <= i <= self.pending.len(),
                self@ == old_view,
                old_view == old(self)@,
                old_view.well_formed(),
                forall|j: int| 0 <= j < i ==> self.pending@[j] != key,
            decreases self.pending.len() - i,
        {
            if self.pending[i] == key {
                let rec = RegionRecord { key, handle };
                self.pending.remove(i);
                self.loaded.push(rec);
                proof {
                    let v = self@;
                    assert(keys_of(v.loaded) =~= keys_of(old_view.loaded).push(key));
                    assert forall|k: RegionKey| #[trigger] v.pending.contains(k) <==> (
                    old_view.pending.contains(k) && k != key) by {
                        if v.pending.contains(k) {
                            let j = choose|j: int| 0 <= j < v.pending.len() && v.pending[j] == k;
                            if j < i {
                                assert(old_view.pending[j] == k);
                            } else {
                                assert(old_view.pending[j + 1] == k);
                            }
                        }
                        if old_view.pending.contains(k) && k != key {
                            let j = choose|j: int| 0 <= j < old_view.pending.len() && old_view.pending[j] == k;
                            if j < i {
                                assert(v.pending[j] == k);
                            } else {
                                assert(v.pending[j - 1] == k);
                            }
                        }
                    }
                    assert forall|a: int, b: int|
                        0 <= a < keys_of(v.loaded).len() && 0 <= b < keys_of(v.loaded).len() && a
                            != b implies keys_of(v.loaded)[a] != keys_of(v.loaded)[b] by {
                        if a == v.loaded.len() - 1 || b == v.loaded.len() - 1 {
                            let o = if a == v.loaded.len() - 1 { b } else { a };
                            assert(keys_of(old_view.loaded)[o] == keys_of(v.loaded)[o]);
                            assert(key_set(old_view.loaded).contains(keys_of(v.loaded)[o]));
                            assert(old_view.pending[i as int] == key);
                        }
                    }
                    assert forall|j: int| 0 <= j < v.pending.len() implies !key_set(v.loaded).contains(
                        #[trigger] v.pending[j],
                    ) by {
                        let k = v.pending[j];
                        assert(v.pending.contains(k));
                        assert(old_view.pending.contains(k));
                        let jo = choose|jo: int| 0 <= jo < old_view.pending.len() && old_view.pending[jo] == k;
                        assert(!key_set(old_view.loaded).contains(old_view.pending[jo]));
                        if key_set(v.loaded).contains(k) {
                            let m = choose|m: int| 0 <= m < keys_of(v.loaded).len() && keys_of(v.loaded)[m] == k;
                            if m < old_view.loaded.len() {
                                assert(keys_of(old_view.loaded)[m] == k);
                            }
                        }
                    }
                    assert forall|j: int| 0 <= j < v.loaded.len() implies !past_unload_range(
                        #[trigger] v.loaded[j].key,
                        v.last_player,
                    ) by {
                        if j == v.loaded.len() - 1 {
                            assert(in_load_range(old_view.pending[i as int], v.last_player));
                        } else {
                            assert(v.loaded[j] == old_view.loaded[j]);
                        }
                    }
                    assert forall|j: int| 0 <= j < v.pending.len() implies in_load_range(
                        #[trigger] v.pending[j],
                        v.last_player,
                    ) by {
                        if j < i {
                            assert(v.pending[j] == old_view.pending[j]);
                        } else {
                            assert(v.pending[j] == old_view.pending[j + 1]);
                        }
                    }
                    lemma_push_contains(keys_of(old_view.loaded), key);
                    assert(old_view.pending.contains(old_view.pending[i as int]));
                    assert(v.resident() =~= old_view.resident()) by {
                        assert forall|k: RegionKey| v.resident().contains(k) == old_view.resident().contains(k) by {
                            assert(key_set(v.loaded).contains(k) == keys_of(old_view.loaded).push(key).contains(k));
                        }
                    }
                }
                return true;
            }
            i += 1;
        }
        false
    }

    /// The number of loaded regions.
    pub fn loaded_count(&self) -> (r: usize)
        ensures
            r == self@.loaded.len(),
    {
        self.loaded.len()
    }

    /// Whether region `key` is loaded.
    pub fn is_loaded(&self, key: &RegionKey) -> (r: bool)
        ensures
            r == key_set(self@.loaded).contains(*key),
    {
        holds_key(&self.loaded, key)
    }

    /// The scene node of region `key`, if it is loaded.
    pub fn handle_of(&self, key: &RegionKey) -> (r: Option<u64>)
        requires
            self@.well_formed(),
        ensures
            r is None <==> !key_set(self@.loaded).contains(*key),
            r matches Some(h) ==> self@.loaded.contains(RegionRecord { key: *key, handle: h }),
    {
        let mut i: usize = 0;
        while i < self.loaded.len()
            invariant
                0 <= i <= self.loaded.len(),
                forall|j: int| 0 <= j < i ==> self.loaded@[j].key != *key,
            decreases self.loaded.len() - i,
        {
            if self.loaded[i].key == *key {
                assert(self@.loaded[i as int] == (RegionRecord { key: *key, handle: self.loaded[i as int].handle }));
                assert(keys_of(self@.loaded)[i as int] == *key);
                return Some(self.loaded[i].handle);
            }
            i += 1;
        }
        proof {
            if key_set(self@.loaded).contains(*key) {
                let j = choose|j: int| 0 <= j < keys_of(self@.loaded).len() && keys_of(self@.loaded)[j] == *key;
                assert(self.loaded@[j].key == *key);
            }
        }
        None
    }

    /// The player's region at the last evaluation.
    pub fn last_player(&self) -> (r: RegionKey)
        ensures
            r == self@.last_player,
    {
        self.last_player
    }

    /// Regions planned by the last evaluation and not yet committed.
    pub fn pending(&self) -> (r: &Vec<RegionKey>)
        ensures
            r@ == self@.pending,
    {
        &self.pending
    }
}

} // verus!
