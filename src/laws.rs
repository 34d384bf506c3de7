//! Properties of the admission protocol, stated over the step functions and
//! over a model of the cache's primitives.
use vstd::prelude::*;
use vstd::set_lib::{lemma_int_range, lemma_len_subset, set_int_range};
use crate::decode::bucket_value;
use crate::limiter::{begin_spec, current_key, read_count, step_spec, ActionView, CheckView, EventView, LimiterView, PhaseView};
use crate::window::{count_sum, window_total, Decision};

verus! {

/// An entry of the cache: a bucket's count and the token of its last write.
pub struct CacheEntry {
    pub count: nat,
    pub token: nat,
}

/// Stores `value` under `key` unless the key is present.
pub open spec fn insert_if_absent(m: Map<Seq<char>, CacheEntry>, key: Seq<char>, value: nat) -> Map<Seq<char>, CacheEntry> {
    if m.contains_key(key) {
        m
    } else {
        m.insert(key, CacheEntry { count: value, token: 0 })
    }
}

/// Stores `value` under `key` only if `token` is the key's current token;
/// every write gives the key a new token.
pub open spec fn compare_and_swap(m: Map<Seq<char>, CacheEntry>, key: Seq<char>, value: nat, token: nat) -> Map<Seq<char>, CacheEntry> {
    if m.contains_key(key) && m[key].token == token {
        m.insert(key, CacheEntry { count: value, token: token + 1 })
    } else {
        m
    }
}

/// The effect of an action on the cache; reads and the end of a check
/// change nothing.
pub open spec fn apply(m: Map<Seq<char>, CacheEntry>, a: ActionView) -> Map<Seq<char>, CacheEntry> {
    match a {
        ActionView::Insert { key, value, ttl: _ } => insert_if_absent(m, key, value as nat),
        ActionView::CompareAndSwap { key, value, ttl: _, token } => compare_and_swap(m, key, value as nat, token as nat),
        _ => m,
    }
}

/// The read of `key` that an event reports agrees with the cache `m`
/// whenever its token is still the current one.
pub open spec fn read_is_current(m: Map<Seq<char>, CacheEntry>, key: Seq<char>, ev: EventView) -> bool {
    match ev {
        EventView::TokenRead(Ok(Some((b, Some(t))))) => m.contains_key(key) && m[key].token == t as nat
            ==> m[key].count == bucket_value(b),
        _ => true,
    }
}

/// A check decides from the window's total: it admits exactly when the
/// current bucket's count, the cost and the other buckets' counts stay
/// within `rate_max`, a rejection ends the check with no write, and the
/// count an admitted check writes keeps the window's total within
/// `rate_max`.
pub proof fn lemma_decision_bounds_window(l: LimiterView, ev: EventView)
    requires
        l.phase is Reading,
        ev matches EventView::TokenRead(Ok(_)),
    ensures
        ({
            let c = l.phase->Reading_0;
            let others = l.phase->Reading_1;
            let read = ev->TokenRead_0->Ok_0;
            let total = window_total(read_count(read), c.size as nat, others);
            let (next, a) = step_spec(l, ev);
            &&& (total > c.rate_max ==> a == ActionView::Done(Ok(Decision::Rejected)) && next.phase is Idle)
            &&& (total <= c.rate_max ==> !(a == ActionView::Done(Ok(Decision::Rejected))))
            &&& (a matches ActionView::CompareAndSwap { value, .. } ==> value + count_sum(others) <= c.rate_max
                && value == read_count(read) + c.size)
        }),
{
}

/// Within one second, a second check never resets the bucket that a first
/// one wrote: creating the bucket leaves a present key as it is, and the
/// update writes the count read plus the cost, which lands only while that
/// read is current.
pub proof fn lemma_bucket_never_reset(l: LimiterView, ev: EventView, m: Map<Seq<char>, CacheEntry>, key: Seq<char>)
    requires
        m.contains_key(key),
        read_is_current(m, key, ev),
    ensures
        apply(m, step_spec(l, ev).1).contains_key(key),
        apply(m, step_spec(l, ev).1)[key].count >= m[key].count,
{
}

/// Starting a check never resets a present bucket either.
pub proof fn lemma_begin_never_resets(l: LimiterView, c: CheckView, m: Map<Seq<char>, CacheEntry>, key: Seq<char>)
    requires
        m.contains_key(key),
    ensures
        apply(m, begin_spec(l, c).1).contains_key(key),
        apply(m, begin_spec(l, c).1)[key] == m[key],
{
}

/// A check that fails drops the connection, so the next check starts by
/// connecting anew to the limiter's endpoint.
pub proof fn lemma_failure_forces_reconnect(l: LimiterView, ev: EventView, c: CheckView)
    requires
        step_spec(l, ev).1 matches ActionView::Done(Err(_)),
    ensures
        !step_spec(l, ev).0.connected,
        step_spec(l, ev).0.last_error == Some(step_spec(l, ev).1->Done_0->Err_0),
        begin_spec(step_spec(l, ev).0, c).1 == ActionView::Connect(l.endpoint),
{
}

/// An update that loses the race to a concurrent one does not turn the
/// admission into an error: the check still ends admitted.
pub proof fn lemma_stale_token_still_admits(l: LimiterView)
    requires
        l.phase is Writing,
    ensures
        step_spec(l, EventView::Swapped(Ok(false))).1 == ActionView::Done(Ok(Decision::Admitted)),
        step_spec(l, EventView::Swapped(Ok(false))).0.connected == l.connected,
{
}

/// One move of a caller in a race of admitted checks on one bucket.
pub enum RaceMove {
    /// The caller reads the bucket's count and token.
    Read(int),
    /// The caller writes the count it read plus a cost of one, if its token
    /// is still current.
    Swap(int),
}

pub open spec fn mover(m: RaceMove) -> int {
    match m {
        RaceMove::Read(i) => i,
        RaceMove::Swap(i) => i,
    }
}

/// The state of a race: the cache, what each caller read, and the callers
/// whose write landed.
pub struct Race {
    pub cache: Map<Seq<char>, CacheEntry>,
    pub reads: Map<int, CacheEntry>,
    pub won: Set<int>,
}

/// A bucket just created at zero, which no caller has read yet.
pub open spec fn race_start(key: Seq<char>) -> Race {
    Race { cache: map![key => CacheEntry { count: 0, token: 0 }], reads: Map::empty(), won: Set::empty() }
}

/// A move of the race; each caller reads once, as each check does.
pub open spec fn race_move(r: Race, key: Seq<char>, m: RaceMove) -> Race {
    match m {
        RaceMove::Read(i) => if r.reads.contains_key(i) || !r.cache.contains_key(key) {
            r
        } else {
            Race { cache: r.cache, reads: r.reads.insert(i, r.cache[key]), won: r.won }
        },
        RaceMove::Swap(i) => if r.reads.contains_key(i) {
            let seen = r.reads[i];
            Race {
                cache: compare_and_swap(r.cache, key, seen.count + 1, seen.token),
                reads: r.reads,
                won: if r.cache.contains_key(key) && r.cache[key].token == seen.token {
                    r.won.insert(i)
                } else {
                    r.won
                },
            }
        } else {
            r
        },
    }
}

pub open spec fn race_run(r: Race, key: Seq<char>, moves: Seq<RaceMove>) -> Race
    decreases moves.len(),
{
    if moves.len() == 0 {
        r
    } else {
        race_move(race_run(r, key, moves.drop_last()), key, moves.last())
    }
}

spec fn race_inv(r: Race, key: Seq<char>, n: int) -> bool {
    &&& r.cache.contains_key(key)
    &&& r.cache[key].count == r.cache[key].token
    &&& r.won.finite()
    &&& r.cache[key].count == r.won.len()
    &&& forall|i: int| r.won.contains(i) ==> 0 <= i < n
    &&& forall|i: int| #[trigger] r.reads.contains_key(i) ==> r.reads[i].count == r.reads[i].token
        && r.reads[i].token <= r.cache[key].token
    &&& forall|i: int| #[trigger] r.won.contains(i) ==> r.reads.contains_key(i) && r.reads[i].token < r.cache[key].token
}

proof fn lemma_race_inv(key: Seq<char>, n: int, moves: Seq<RaceMove>)
    requires
        forall|k: int| 0 <= k < moves.len() ==> 0 <= #[trigger] mover(moves[k]) < n,
    ensures
        race_inv(race_run(race_start(key), key, moves), key, n),
    decreases moves.len(),
{
    if moves.len() > 0 {
        let pre = moves.drop_last();
        assert forall|k: int| 0 <= k < pre.len() implies 0 <= #[trigger] mover(pre[k]) < n by {
            assert(pre[k] == moves[k]);
        }
        lemma_race_inv(key, n, pre);
        let r = race_run(race_start(key), key, pre);
        assert(0 <= mover(moves[moves.len() - 1]) < n);
        match moves.last() {
            RaceMove::Read(i) => {},
            RaceMove::Swap(i) => {
                if r.reads.contains_key(i) && r.cache[key].token == r.reads[i].token {
                    assert(!r.won.contains(i));
                }
            },
        }
    } else {
        assert(race_start(key).won =~= Set::<int>::empty());
    }
}

proof fn lemma_read_persists(key: Seq<char>, n: int, moves: Seq<RaceMove>, j: int)
    requires
        0 <= j < moves.len(),
        moves[j] is Read,
        forall|k: int| 0 <= k < moves.len() ==> 0 <= #[trigger] mover(moves[k]) < n,
    ensures
        race_run(race_start(key), key, moves).reads.contains_key(mover(moves[j])),
    decreases moves.len(),
{
    let pre = moves.drop_last();
    assert forall|k: int| 0 <= k < pre.len() implies 0 <= #[trigger] mover(pre[k]) < n by {
        assert(pre[k] == moves[k]);
    }
    lemma_race_inv(key, n, pre);
    if j < moves.len() - 1 {
        assert(pre[j] == moves[j]);
        lemma_read_persists(key, n, pre, j);
    }
}

/// Callers racing to count a cost of one each in a bucket created at zero,
/// each reading once and then trying one compare-and-swap, leave a count no
/// greater than the number of callers, and at least one as soon as one of
/// them swapped after reading.
pub proof fn lemma_race_count_bounded(key: Seq<char>, n: int, moves: Seq<RaceMove>)
    requires
        0 <= n,
        forall|k: int| 0 <= k < moves.len() ==> 0 <= #[trigger] mover(moves[k]) < n,
    ensures
        race_run(race_start(key), key, moves).cache.contains_key(key),
        race_run(race_start(key), key, moves).cache[key].count <= n,
        (exists|j: int, k: int|
            0 <= j < k < moves.len() && #[trigger] moves[j] == RaceMove::Read(mover(moves[k]))
                && #[trigger] moves[k] == RaceMove::Swap(mover(moves[k])))
            ==> race_run(race_start(key), key, moves).cache[key].count >= 1,
    decreases moves.len(),
{
    lemma_race_inv(key, n, moves);
    let r = race_run(race_start(key), key, moves);
    lemma_int_range(0, n);
    assert(r.won.subset_of(set_int_range(0, n)));
    lemma_len_subset(r.won, set_int_range(0, n));
    if exists|j: int, k: int|
        0 <= j < k < moves.len() && #[trigger] moves[j] == RaceMove::Read(mover(moves[k]))
            && #[trigger] moves[k] == RaceMove::Swap(mover(moves[k])) {
        let (j, k) = choose|j: int, k: int|
            0 <= j < k < moves.len() && #[trigger] moves[j] == RaceMove::Read(mover(moves[k]))
                && #[trigger] moves[k] == RaceMove::Swap(mover(moves[k]));
        let pre = moves.drop_last();
        assert forall|q: int| 0 <= q < pre.len() implies 0 <= #[trigger] mover(pre[q]) < n by {
            assert(pre[q] == moves[q]);
        }
        lemma_race_inv(key, n, pre);
        if k < moves.len() - 1 {
            assert(pre[j] == moves[j] && pre[k] == moves[k]);
            lemma_race_count_bounded(key, n, pre);
        } else {
            assert(pre[j] == moves[j]);
            lemma_read_persists(key, n, pre, j);
        }
    }
}

} // verus!
