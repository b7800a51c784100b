//! The Bayesian agent: Q-learning over the action-value table, with the
//! value of rarely tried actions pulled towards the mean of their siblings.

use vstd::prelude::*;
use crate::actions::Actioner;
use crate::agents::Agenter;
use crate::errors::{incompatible_action_message, no_possible_actions_message, LearnerError};
use crate::math::{bellman, bellman_spec, safe_divide, safe_divide_spec};
use crate::order::{ids_sorted, ids_view, lemma_same_elements, sort_ids};
use crate::qmap::{
    lists_keys, bucket_or_empty, keeps_counts, reweigh_spec, reweighed, stats_at, weigh_fn, with_stats, QMap,
    TableView,
};
use crate::states::{possible_ids, Stater};
use crate::stats::ActionStats;
use crate::tiebreak::{TieBreaker, UniformTieBreaker};
use crate::value::QValue;

verus! {

/// The record with no call and zero values.
pub open spec fn zero_record<V: QValue>() -> ActionStats<V> {
    ActionStats { call_count: 0, q_raw: V::spec_zero(), q_weighted: V::spec_zero() }
}

/// The first half of a weight refresh of `state`, over the actions `ids` in
/// order: each action without a record gets a zero record, and the raw
/// values of the actions that had one are summed and counted. Gives the
/// table, the sum and the count.
pub open spec fn refresh_scan<V: QValue>(
    t: TableView<V>,
    state: Seq<char>,
    ids: Seq<Seq<char>>,
) -> (TableView<V>, V, nat)
    decreases ids.len(),
{
    if ids.len() == 0 {
        (t, V::spec_zero(), 0)
    } else {
        let prev = refresh_scan(t, state, ids.drop_last());
        match stats_at(prev.0, state, ids.last()) {
            Some(x) => (prev.0, V::spec_add(prev.1, x.q_raw), prev.2 + 1),
            None => (with_stats(prev.0, state, ids.last(), zero_record()), prev.1, prev.2),
        }
    }
}

/// The mean raw value that a weight refresh weighs against.
pub open spec fn refresh_mean<V: QValue>(t: TableView<V>, state: Seq<char>, ids: Seq<Seq<char>>) -> V {
    let scan = refresh_scan(t, state, ids);
    safe_divide_spec(scan.1, V::spec_from_usize(scan.2 as usize))
}

/// The table after a weight refresh of `state` whose possible actions are
/// `ids`: the scan, then every record of the state's bucket reweighed as the
/// Bayesian average of the mean and its raw value, with its calls against
/// the priming threshold.
pub open spec fn refresh_spec<V: QValue>(
    t: TableView<V>,
    state: Seq<char>,
    ids: Seq<Seq<char>>,
    priming_threshold: i64,
) -> TableView<V> {
    reweigh_spec(
        refresh_scan(t, state, ids).0,
        state,
        V::spec_from_i64(priming_threshold),
        refresh_mean(t, state, ids),
    )
}

/// The best weighted value among the records of `state` for `ids`, taken
/// left to right by `spec_greater`, starting from zero (so never below it).
pub open spec fn best_value_spec<V: QValue>(
    t: TableView<V>,
    state: Seq<char>,
    ids: Seq<Seq<char>>,
) -> V
    decreases ids.len(),
{
    if ids.len() == 0 {
        V::spec_zero()
    } else {
        let b = best_value_spec(t, state, ids.drop_last());
        match stats_at(t, state, ids.last()) {
            Some(x) => if V::spec_greater(x.q_weighted, b) {
                x.q_weighted
            } else {
                b
            },
            None => b,
        }
    }
}

/// `ks` lists the keys of `m`, each once.
pub open spec fn enumerates<Y>(ks: Seq<Seq<char>>, m: Map<Seq<char>, Y>) -> bool {
    &&& forall|i: int, j: int|
        0 <= i < ks.len() && 0 <= j < ks.len() && i != j ==> #[trigger] ks[i] != #[trigger] ks[j]
    &&& forall|i: int| 0 <= i < ks.len() ==> m.contains_key(#[trigger] ks[i])
    &&& forall|k: Seq<char>| #[trigger] m.contains_key(k) ==> ks.contains(k)
}

/// The best future value of `state` in `t`: the largest weighted value of
/// the records of its bucket, taken in some order of the bucket's keys, and
/// zero where none is larger.
pub open spec fn is_best_future<V: QValue>(t: TableView<V>, state: Seq<char>, best: V) -> bool {
    exists|ks: Seq<Seq<char>>|
        enumerates(ks, bucket_or_empty(t, state)) && best == #[trigger] best_value_spec(t, state, ks)
}

/// The weighted value of `(state, action)`, zero without a record.
pub open spec fn weight_at<V: QValue>(t: TableView<V>, state: Seq<char>, action: Seq<char>) -> V {
    match stats_at(t, state, action) {
        Some(x) => x.q_weighted,
        None => V::spec_zero(),
    }
}

/// The position in `ids` (not empty) of the first action with the largest
/// weighted value by `spec_greater`.
pub open spec fn best_index<V: QValue>(t: TableView<V>, state: Seq<char>, ids: Seq<Seq<char>>) -> int
    decreases ids.len(),
{
    if ids.len() <= 1 {
        0
    } else {
        let b = best_index(t, state, ids.drop_last());
        if V::spec_greater(weight_at(t, state, ids.last()), weight_at(t, state, ids[b])) {
            ids.len() - 1
        } else {
            b
        }
    }
}

/// The actions of `ids`, in order, whose weighted value is near `best`,
/// together with the action at position `at`.
pub open spec fn near_ids<V: QValue>(
    t: TableView<V>,
    state: Seq<char>,
    ids: Seq<Seq<char>>,
    best: V,
    at: int,
) -> Seq<Seq<char>>
    decreases ids.len(),
{
    if ids.len() == 0 {
        Seq::empty()
    } else {
        let prev = near_ids(t, state, ids.drop_last(), best, at);
        if V::spec_near(weight_at(t, state, ids.last()), best) || ids.len() - 1 == at {
            prev.push(ids.last())
        } else {
            prev
        }
    }
}

/// The actions of `ids` (not empty) tied for the best weighted value: the
/// largest value is found first, then every action near it is kept, so the
/// set does not depend on the order of `ids`.
pub open spec fn tie_set<V: QValue>(t: TableView<V>, state: Seq<char>, ids: Seq<Seq<char>>) -> Seq<Seq<char>> {
    let at = best_index(t, state, ids);
    near_ids(t, state, ids, weight_at(t, state, ids[at]), at)
}

/// The weighted value that a weight refresh gives an untouched action of a
/// state that has no record yet.
pub open spec fn untouched_weight<V: QValue>(priming_threshold: i64) -> V {
    weigh_fn(
        V::spec_from_i64(priming_threshold),
        safe_divide_spec(V::spec_zero(), V::spec_from_usize(0)),
    )(zero_record()).q_weighted
}

/// Two actions with equal weighted values tie, where the number type does
/// not find that value greater than itself and finds it near itself.
pub proof fn lemma_equal_pair_ties<V: QValue>(t: TableView<V>, state: Seq<char>, ids: Seq<Seq<char>>)
    requires
        ids.len() == 2,
        weight_at(t, state, ids[0]) == weight_at(t, state, ids[1]),
        !V::spec_greater(weight_at(t, state, ids[0]), weight_at(t, state, ids[0])),
        V::spec_near(weight_at(t, state, ids[0]), weight_at(t, state, ids[0])),
    ensures
        tie_set(t, state, ids) == ids,
{
    reveal_with_fuel(best_index, 2);
    reveal_with_fuel(near_ids, 3);
    assert(ids.drop_last().len() == 1);
    assert(best_index(t, state, ids) == 0);
    assert(ids.drop_last().drop_last() =~= Seq::<Seq<char>>::empty());
    assert(seq![ids[0]] =~= Seq::<Seq<char>>::empty().push(ids[0]));
    assert(tie_set(t, state, ids) =~= ids);
}

/// In a state with no record yet, a weight refresh over two distinct
/// actions gives both the same weighted value, so they tie where the number
/// type does not find that value greater than itself and finds it near
/// itself.
pub proof fn lemma_untouched_pair_ties<V: QValue>(
    t: TableView<V>,
    state: Seq<char>,
    a: Seq<char>,
    b: Seq<char>,
    priming_threshold: i64,
)
    requires
        !t.contains_key(state),
        a != b,
        !V::spec_greater(untouched_weight::<V>(priming_threshold), untouched_weight::<V>(priming_threshold)),
        V::spec_near(untouched_weight::<V>(priming_threshold), untouched_weight::<V>(priming_threshold)),
    ensures
        tie_set(refresh_spec(t, state, seq![a, b], priming_threshold), state, seq![a, b]) == seq![a, b],
{
    let ids = seq![a, b];
    reveal_with_fuel(refresh_scan, 3);
    assert(ids.drop_last() =~= seq![a]);
    assert(ids.drop_last().drop_last() =~= Seq::<Seq<char>>::empty());
    let s1 = refresh_scan(t, state, seq![a]);
    assert(stats_at(t, state, a) is None);
    assert(s1.0 == with_stats(t, state, a, zero_record()));
    assert(stats_at(s1.0, state, b) is None);
    let scan = refresh_scan(t, state, ids);
    assert(scan.1 == V::spec_zero() && scan.2 == 0);
    let r = refresh_spec(t, state, ids, priming_threshold);
    assert(scan.0[state][a] == zero_record::<V>() && scan.0[state][b] == zero_record::<V>());
    assert(weight_at(r, state, a) == untouched_weight::<V>(priming_threshold));
    assert(weight_at(r, state, b) == untouched_weight::<V>(priming_threshold));
    lemma_equal_pair_ties(r, state, ids);
}

/// The record of a learned action: one more call, and as raw value the
/// Bellman update of its previous weighted value (zero without a record).
pub open spec fn learned_record<V: QValue>(
    prev: Option<ActionStats<V>>,
    learning_rate: V,
    reward: V,
    discount_factor: V,
    best_future: V,
) -> ActionStats<V> {
    let old = match prev {
        Some(s) => s,
        None => zero_record(),
    };
    ActionStats {
        call_count: next_calls(prev),
        q_raw: bellman_spec(old.q_weighted, learning_rate, reward, discount_factor, best_future),
        q_weighted: old.q_weighted,
    }
}

/// `t1` is `t0` after a weight refresh of `state` whose actions are `ids`:
/// every action in `ids` without a record gets a record with no call, the
/// calls and raw values of the existing records stay, and other states are
/// untouched. Only weighted values may change otherwise.
pub open spec fn refreshed<V: QValue>(
    t0: TableView<V>,
    t1: TableView<V>,
    state: Seq<char>,
    ids: Seq<Seq<char>>,
) -> bool {
    &&& t1.remove(state) == t0.remove(state)
    &&& t1.contains_key(state) == (t0.contains_key(state) || ids.len() > 0)
    &&& t1.contains_key(state) ==> forall|a: Seq<char>| #[trigger]
        t1[state].contains_key(a) == (bucket_or_empty(t0, state).contains_key(a) || ids.contains(
            a,
        ))
    &&& forall|a: Seq<char>|
        t0.contains_key(state) && #[trigger] t0[state].contains_key(a) ==> keeps_counts(
            t1[state][a],
            t0[state][a],
        )
    &&& forall|a: Seq<char>|
        t1.contains_key(state) && #[trigger] t1[state].contains_key(a) && !bucket_or_empty(
            t0,
            state,
        ).contains_key(a) ==> t1[state][a].call_count == 0 && t1[state][a].q_raw == V::spec_zero()
}

/// A second weight refresh of a state right after a first one registers no
/// new record and keeps every record's calls and raw value: only weighted
/// values, recomputed from those, may be rewritten.
pub proof fn lemma_refresh_twice_keeps_records<V: QValue>(
    t0: TableView<V>,
    t1: TableView<V>,
    t2: TableView<V>,
    state: Seq<char>,
    ids: Seq<Seq<char>>,
)
    requires
        refreshed(t0, t1, state, ids),
        refreshed(t1, t2, state, ids),
    ensures
        t2.dom() == t1.dom(),
        t2.remove(state) == t1.remove(state),
        t1.contains_key(state) ==> t2[state].dom() == t1[state].dom(),
        forall|a: Seq<char>|
            t1.contains_key(state) && #[trigger] t1[state].contains_key(a) ==> keeps_counts(
                t2[state][a],
                t1[state][a],
            ),
{
    assert forall|k: Seq<char>| t2.contains_key(k) == t1.contains_key(k) by {
        if k != state {
            assert(t2.remove(state).contains_key(k) == t1.remove(state).contains_key(k));
        }
    }
    assert(t2.dom() =~= t1.dom());
    if t1.contains_key(state) {
        assert forall|a: Seq<char>| t2[state].contains_key(a) == t1[state].contains_key(a) by {
            if ids.contains(a) {
                assert(t1[state].contains_key(a));
            }
        }
        assert(t2[state].dom() =~= t1[state].dom());
    }
}

/// Every action of `ids` has a record for `state` in `t`.
pub open spec fn registered<V>(t: TableView<V>, state: Seq<char>, ids: Seq<Seq<char>>) -> bool {
    forall|j: int| 0 <= j < ids.len() ==> #[trigger] stats_at(t, state, ids[j]) is Some
}

/// Where every action already has a record, the scan of a refresh adds
/// nothing to the table.
pub proof fn lemma_scan_registered<V: QValue>(t: TableView<V>, state: Seq<char>, ids: Seq<Seq<char>>)
    requires
        registered(t, state, ids),
    ensures
        refresh_scan(t, state, ids).0 == t,
    decreases ids.len(),
{
    if ids.len() > 0 {
        let p = ids.drop_last();
        assert forall|j: int| 0 <= j < p.len() implies #[trigger] stats_at(t, state, p[j]) is Some by {
            assert(p[j] == ids[j]);
        }
        lemma_scan_registered(t, state, p);
        assert(stats_at(t, state, ids[ids.len() - 1]) is Some);
    }
}

/// Two tables where every action has a record, with the same raw values,
/// give a refresh scan the same sum and count.
pub proof fn lemma_scan_same_raws<V: QValue>(
    t: TableView<V>,
    u: TableView<V>,
    state: Seq<char>,
    ids: Seq<Seq<char>>,
)
    requires
        registered(t, state, ids),
        registered(u, state, ids),
        forall|j: int|
            0 <= j < ids.len() ==> (#[trigger] stats_at(t, state, ids[j]))->Some_0.q_raw == stats_at(
                u,
                state,
                ids[j],
            )->Some_0.q_raw,
    ensures
        refresh_scan(t, state, ids).1 == refresh_scan(u, state, ids).1,
        refresh_scan(t, state, ids).2 == refresh_scan(u, state, ids).2,
    decreases ids.len(),
{
    if ids.len() > 0 {
        let p = ids.drop_last();
        assert forall|j: int| 0 <= j < p.len() implies #[trigger] stats_at(t, state, p[j]) is Some
            && stats_at(u, state, p[j]) is Some && stats_at(t, state, p[j])->Some_0.q_raw
            == stats_at(u, state, p[j])->Some_0.q_raw by {
            assert(p[j] == ids[j]);
        }
        lemma_scan_same_raws(t, u, state, p);
        lemma_scan_registered(t, state, p);
        lemma_scan_registered(u, state, p);
        let k = ids.len() - 1;
        assert(stats_at(t, state, ids[k]) is Some && stats_at(u, state, ids[k]) is Some);
        assert(stats_at(t, state, ids[k])->Some_0.q_raw == stats_at(u, state, ids[k])->Some_0.q_raw);
    }
}

/// A weight refresh of a state whose possible actions all have a record
/// already gives the same table when it is run a second time: the weighted
/// values are recomputed from unchanged calls, raw values and mean.
/// (Where the first run registers new records, the second run counts them
/// in the mean, and the weights may differ.)
pub proof fn lemma_refresh_idempotent<V: QValue>(
    t: TableView<V>,
    state: Seq<char>,
    ids: Seq<Seq<char>>,
    priming_threshold: i64,
)
    requires
        registered(t, state, ids),
    ensures
        refresh_spec(refresh_spec(t, state, ids, priming_threshold), state, ids, priming_threshold)
            == refresh_spec(t, state, ids, priming_threshold),
{
    let c = V::spec_from_i64(priming_threshold);
    let m = refresh_mean(t, state, ids);
    let g = weigh_fn(c, m);
    lemma_scan_registered(t, state, ids);
    let r1 = refresh_spec(t, state, ids, priming_threshold);
    assert(r1 == reweigh_spec(t, state, c, m));
    assert forall|j: int| 0 <= j < ids.len() implies #[trigger] stats_at(r1, state, ids[j]) is Some
        && stats_at(t, state, ids[j])->Some_0.q_raw == stats_at(r1, state, ids[j])->Some_0.q_raw by {
        assert(stats_at(t, state, ids[j]) is Some);
    }
    lemma_scan_registered(r1, state, ids);
    lemma_scan_same_raws(t, r1, state, ids);
    assert(refresh_mean(r1, state, ids) == m);
    if t.contains_key(state) {
        assert(r1[state] == t[state].map_values(g));
        assert(r1[state].map_values(g) =~= t[state].map_values(g)) by {
            assert forall|a: Seq<char>| #[trigger] t[state].contains_key(a) implies g(g(t[state][a]))
                == g(t[state][a]) by {}
        }
        assert(reweigh_spec(r1, state, c, m) =~= r1);
    }
}

/// The scan of a refresh keeps every record and registers every action of
/// `ids`.
pub proof fn lemma_scan_registers<V: QValue>(t: TableView<V>, state: Seq<char>, ids: Seq<Seq<char>>)
    ensures
        registered(refresh_scan(t, state, ids).0, state, ids),
        forall|s: Seq<char>, a: Seq<char>|
            #[trigger] stats_at(t, s, a) is Some ==> stats_at(refresh_scan(t, state, ids).0, s, a) is Some,
    decreases ids.len(),
{
    if ids.len() > 0 {
        let p = ids.drop_last();
        lemma_scan_registers(t, state, p);
        let t0 = refresh_scan(t, state, p).0;
        let t1 = refresh_scan(t, state, ids).0;
        assert forall|s: Seq<char>, a: Seq<char>| #[trigger]
            stats_at(t0, s, a) is Some implies stats_at(t1, s, a) is Some by {}
        assert forall|j: int| 0 <= j < ids.len() implies #[trigger] stats_at(t1, state, ids[j]) is Some by {
            if j < p.len() {
                assert(p[j] == ids[j]);
                assert(stats_at(t0, state, p[j]) is Some);
            }
        }
    }
}

/// A first weight refresh registers every possible action of the state, so
/// from the second run on repeating it changes nothing, weighted values
/// included: the third run gives the table that the second gave.
pub proof fn lemma_refresh_after_refresh<V: QValue>(
    t: TableView<V>,
    state: Seq<char>,
    ids: Seq<Seq<char>>,
    priming_threshold: i64,
)
    ensures
        ({
            let once = refresh_spec(t, state, ids, priming_threshold);
            refresh_spec(refresh_spec(once, state, ids, priming_threshold), state, ids, priming_threshold)
                == refresh_spec(once, state, ids, priming_threshold)
        }),
{
    let once = refresh_spec(t, state, ids, priming_threshold);
    lemma_scan_registers(t, state, ids);
    let t1 = refresh_scan(t, state, ids).0;
    assert forall|j: int| 0 <= j < ids.len() implies #[trigger] stats_at(once, state, ids[j]) is Some by {
        assert(stats_at(t1, state, ids[j]) is Some);
    }
    lemma_refresh_idempotent(once, state, ids, priming_threshold);
}

/// After a weight refresh every record that was there is still there with
/// its calls and raw value, and every record that is new has no call.
pub proof fn lemma_refreshed_records<V: QValue>(
    t0: TableView<V>,
    t1: TableView<V>,
    state: Seq<char>,
    ids: Seq<Seq<char>>,
)
    requires
        refreshed(t0, t1, state, ids),
    ensures
        forall|s: Seq<char>, a: Seq<char>|
            #[trigger] stats_at(t1, s, a) is None ==> stats_at(t0, s, a) is None,
        forall|s: Seq<char>, a: Seq<char>|
            #[trigger] stats_at(t0, s, a) is Some ==> keeps_counts(
                stats_at(t1, s, a)->Some_0,
                stats_at(t0, s, a)->Some_0,
            ),
        forall|s: Seq<char>, a: Seq<char>|
            #[trigger] stats_at(t1, s, a) is Some && stats_at(t0, s, a) is None ==> stats_at(
                t1,
                s,
                a,
            )->Some_0.call_count == 0,
{
    assert forall|s: Seq<char>, a: Seq<char>| #[trigger]
        stats_at(t0, s, a) is Some implies stats_at(t1, s, a) is Some && keeps_counts(
        stats_at(t1, s, a)->Some_0,
        stats_at(t0, s, a)->Some_0,
    ) by {
        if s != state {
            assert(t0.remove(state).contains_key(s));
            assert(t1.remove(state)[s] == t0.remove(state)[s]);
        } else {
            assert(bucket_or_empty(t0, state).contains_key(a));
        }
    }
    assert forall|s: Seq<char>, a: Seq<char>| #[trigger]
        stats_at(t1, s, a) is Some && stats_at(t0, s, a) is None implies stats_at(
        t1,
        s,
        a,
    )->Some_0.call_count == 0 by {
        if s != state {
            assert(t1.remove(state).contains_key(s));
            assert(t1.remove(state)[s] == t0.remove(state)[s]);
        }
    }
}

/// `t1` is `t0` after learning, with the configuration `config` (learning
/// rate, discount factor, priming threshold), from the transition out of
/// the state `prev` (possible actions `prev_ids`) through `action` into the
/// state `cur` (possible actions `cur_ids`), which earned `reward`: a weight
/// refresh of `cur`; the learned record of `(prev, action)`, whose Bellman
/// update looks ahead to the best future value of `cur` after that refresh;
/// and a weight refresh of `prev`.
pub open spec fn learns<V: QValue>(
    t0: TableView<V>,
    t1: TableView<V>,
    config: (V, V, i64),
    prev: Seq<char>,
    prev_ids: Seq<Seq<char>>,
    action: Seq<char>,
    cur: Seq<char>,
    cur_ids: Seq<Seq<char>>,
    reward: V,
) -> bool {
    let refreshed_cur = refresh_spec(t0, cur, cur_ids, config.2);
    exists|best: V|
        is_best_future(refreshed_cur, cur, best) && t1 == refresh_spec(
            with_stats(
                refreshed_cur,
                prev,
                action,
                learned_record(stats_at(t0, prev, action), config.0, reward, config.1, best),
            ),
            prev,
            prev_ids,
            config.2,
        )
}

/// The number of calls a record has after one more learning update, from
/// the record it had, if any; it stops at the largest `i64`.
pub open spec fn next_calls<V>(prev: Option<ActionStats<V>>) -> i64 {
    match prev {
        Some(s) => if s.call_count < i64::MAX {
            (s.call_count + 1) as i64
        } else {
            s.call_count
        },
        None => 1,
    }
}

/// A read-only copy of an agent's configuration and table.
#[derive(Debug)]
pub struct AgentContext<V> {
    pub learning_rate: V,
    pub discount_factor: V,
    pub priming_threshold: i64,
    pub q_values: QMap<V>,
}

/// BayesianAgent maintains the learning state of an environment, recommends
/// actions from what it has learned, and executes the actions recommended.
///
/// When an action has been called few (or zero) times, its reward is assumed
/// to be close to that of the state's other actions: the agent weights its
/// value towards the mean of its siblings. As the action is called more
/// often, its own observed value counts for more than that mean.
pub struct BayesianAgent<V, T> {
    /// Picks among actions whose weighted values tie.
    pub tie_breaker: T,
    qmap: QMap<V>,
    learning_rate: V,
    discount_factor: V,
    priming_threshold: i64,
}

impl<V, T> View for BayesianAgent<V, T> {
    type V = TableView<V>;

    closed spec fn view(&self) -> TableView<V> {
        self.qmap@
    }
}

/// The identifiers of `state`'s possible actions, in order.
pub fn state_action_ids<'a, S: Stater<'a, A>, A: Actioner<'a> + 'a>(state: &S) -> (r: Vec<String>)
    ensures
        ids_view(r@) == possible_ids(state),
{
    let actions = state.possible_actions();
    let ghost all = possible_ids(state);
    let mut ids: Vec<String> = Vec::new();
    let mut i: usize = 0;
    while i < actions.len()
        invariant
            i <= actions@.len(),
            actions@ == state.spec_actions()@,
            all == possible_ids(state),
            ids_view(ids@) == all.take(i as int),
        decreases actions@.len() - i,
    {
        let ghost before = ids@;
        ids.push(String::from_str(actions[i].id()));
        assert(ids_view(ids@) =~= all.take(i + 1)) by {
            assert(ids_view(ids@) =~= ids_view(before).push(actions@[i as int].spec_id()@));
        }
        i += 1;
    }
    assert(all.take(actions@.len() as int) =~= all);
    ids
}

/// The candidate that a tie breaker's index `pick` designates; an index past
/// the end counts on from the start again.
pub fn tied_pick(candidates: &Vec<String>, pick: usize) -> (r: &str)
    requires
        candidates@.len() > 0,
    ensures
        r@ == candidates@[pick as int % candidates@.len() as int]@,
{
    candidates[pick % candidates.len()].as_str()
}

impl<V: QValue> BayesianAgent<V, UniformTieBreaker> {
    /// A new agent with an empty table that breaks ties uniformly at random.
    ///
    /// `priming_threshold` is the number of observations of an action after
    /// which its raw q-value counts as much as the mean of its siblings;
    /// `learning_rate` is how far newly acquired information overrides old
    /// information; `discount_factor` is the weight of future rewards.
    pub fn new(priming_threshold: i64, learning_rate: V, discount_factor: V) -> (r: Self)
        ensures
            r@ == TableView::<V>::empty(),
            r.config() == (learning_rate, discount_factor, priming_threshold),
    {
        Self::with_tie_breaker(priming_threshold, learning_rate, discount_factor, UniformTieBreaker)
    }
}

impl<V: QValue, T: TieBreaker> BayesianAgent<V, T> {
    /// The learning rate, discount factor and priming threshold.
    pub closed spec fn config(&self) -> (V, V, i64) {
        (self.learning_rate, self.discount_factor, self.priming_threshold)
    }

    /// A new agent with an empty table that breaks ties with `tie_breaker`.
    pub fn with_tie_breaker(
        priming_threshold: i64,
        learning_rate: V,
        discount_factor: V,
        tie_breaker: T,
    ) -> (r: Self)
        ensures
            r@ == TableView::<V>::empty(),
            r.config() == (learning_rate, discount_factor, priming_threshold),
    {
        BayesianAgent {
            tie_breaker,
            qmap: QMap::new(),
            learning_rate,
            discount_factor,
            priming_threshold,
        }
    }

    /// A copy of the configuration and of the whole table.
    pub fn get_agent_context(&self) -> (r: AgentContext<V>)
        ensures
            r.q_values@ == self@,
            (r.learning_rate, r.discount_factor, r.priming_threshold) == self.config(),
    {
        AgentContext {
            learning_rate: self.learning_rate,
            discount_factor: self.discount_factor,
            priming_threshold: self.priming_threshold,
            q_values: self.qmap.snapshot(),
        }
    }

    /// The weight-refresh pass for the state `state_id` whose possible
    /// actions have the identifiers `action_ids`: registers a record with no
    /// call for each action that has none, takes the mean raw value of the
    /// actions that had one, and recomputes every weighted value of the
    /// state's bucket against that mean.
    pub fn apply_action_weights(&mut self, state_id: &str, action_ids: &Vec<String>)
        ensures
            final(self)@ == refresh_spec(
                old(self)@,
                state_id@,
                ids_view(action_ids@),
                old(self).config().2,
            ),
            refreshed(old(self)@, final(self)@, state_id@, ids_view(action_ids@)),
            final(self).config() == old(self).config(),
    {
        let ghost t0 = self@;
        let ghost b0 = bucket_or_empty(t0, state_id@);
        let ghost ids = ids_view(action_ids@);
        let mut sum = V::zero();
        let mut count: usize = 0;
        let mut i: usize = 0;
        while i < action_ids.len()
            invariant
                i <= action_ids@.len(),
                count <= i,
                ids == ids_view(action_ids@),
                b0 == bucket_or_empty(t0, state_id@),
                self.config() == old(self).config(),
                self@.remove(state_id@) == t0.remove(state_id@),
                self@.contains_key(state_id@) == (t0.contains_key(state_id@) || i > 0),
                forall|a: Seq<char>|
                    self@.contains_key(state_id@) && #[trigger] self@[state_id@].contains_key(a)
                        ==> b0.contains_key(a) || exists|j: int| 0 <= j < i && ids[j] == a,
                forall|j: int| 0 <= j < i ==> #[trigger] self@[state_id@].contains_key(ids[j]),
                forall|a: Seq<char>| #[trigger]
                    b0.contains_key(a) ==> self@.contains_key(state_id@) && self@[state_id@].contains_key(a)
                        && self@[state_id@][a] == b0[a],
                forall|a: Seq<char>|
                    self@.contains_key(state_id@) && #[trigger] self@[state_id@].contains_key(a)
                        && !b0.contains_key(a) ==> self@[state_id@][a].call_count == 0
                        && self@[state_id@][a].q_raw == V::spec_zero(),
                self@ == refresh_scan(t0, state_id@, ids.take(i as int)).0,
                sum == refresh_scan(t0, state_id@, ids.take(i as int)).1,
                count as nat == refresh_scan(t0, state_id@, ids.take(i as int)).2,
            decreases action_ids@.len() - i,
        {
            let aid = action_ids[i].as_str();
            let ghost before = self@;
            proof {
                assert(ids.take(i + 1).drop_last() =~= ids.take(i as int));
                assert(ids.take(i + 1).last() == ids[i as int]);
                assert(ids[i as int] == action_ids@[i as int]@);
            }
            match self.qmap.get_stats(state_id, aid) {
                Some(s) => {
                    sum = V::add(sum, s.q_raw);
                    count += 1;
                },
                None => {
                    let z = V::zero();
                    self.qmap.update_stats(
                        state_id,
                        aid,
                        ActionStats { call_count: 0, q_raw: z, q_weighted: z },
                    );
                    assert(self@.remove(state_id@) =~= before.remove(state_id@));
                },
            }
            assert(ids[i as int] == action_ids@[i as int]@);
            proof {
                assert forall|a: Seq<char>|
                    self@.contains_key(state_id@) && #[trigger] self@[state_id@].contains_key(a)
                        implies b0.contains_key(a) || exists|j: int| 0 <= j < i + 1 && ids[j] == a by {
                    if a != ids[i as int] && !b0.contains_key(a) {
                        assert(before[state_id@].contains_key(a));
                        let j = choose|j: int| 0 <= j < i && ids[j] == a;
                        assert(0 <= j < i + 1 && ids[j] == a);
                    }
                }
            }
            i += 1;
        }
        let mean = safe_divide(sum, V::from_usize(count));
        assert(ids.take(action_ids@.len() as int) =~= ids);
        let ghost t1 = self@;
        self.qmap.apply_weights(state_id, self.priming_threshold, mean);
        proof {
            let t2 = self@;
            assert(t2.remove(state_id@) =~= t0.remove(state_id@)) by {
                assert(t2.remove(state_id@) == t1.remove(state_id@));
            }
            assert(t2.contains_key(state_id@) == t1.contains_key(state_id@)) by {
                assert(t2.dom() == t1.dom());
            }
            if t2.contains_key(state_id@) {
                assert forall|a: Seq<char>| #[trigger]
                    t2[state_id@].contains_key(a) == (b0.contains_key(a) || ids.contains(a)) by {
                    assert(t2[state_id@].dom() == t1[state_id@].dom());
                    assert(t2[state_id@].contains_key(a) == t1[state_id@].contains_key(a));
                    if ids.contains(a) {
                        let j = choose|j: int| 0 <= j < ids.len() && ids[j] == a;
                        assert(t1[state_id@].contains_key(ids[j]));
                    }
                    if t1[state_id@].contains_key(a) && !b0.contains_key(a) {
                        let j = choose|j: int| 0 <= j < action_ids@.len() && ids[j] == a;
                        assert(ids.contains(a));
                    }
                }
            }
            assert forall|a: Seq<char>|
                t0.contains_key(state_id@) && #[trigger] t0[state_id@].contains_key(a) implies keeps_counts(
                t2[state_id@][a],
                t0[state_id@][a],
            ) by {
                assert(b0.contains_key(a));
                assert(t1[state_id@].contains_key(a));
            }
            assert forall|a: Seq<char>|
                t2.contains_key(state_id@) && #[trigger] t2[state_id@].contains_key(a)
                    && !b0.contains_key(a) implies t2[state_id@][a].call_count == 0 by {
                assert(t2[state_id@].dom() == t1[state_id@].dom());
                assert(t1[state_id@].contains_key(a));
            }
        }
    }

    /// The identifiers, sorted lexicographically, of the actions of the
    /// state `state_id` (whose possible actions have the identifiers
    /// `action_ids`) that tie for the best weighted value after a weight
    /// refresh. A state without actions is an error, and leaves the table
    /// as it was.
    pub fn best_action_ids(&mut self, state_id: &str, action_ids: &Vec<String>) -> (r: Result<
        Vec<String>,
        LearnerError,
    >)
        ensures
            final(self).config() == old(self).config(),
            action_ids@.len() == 0 ==> {
                &&& final(self)@ == old(self)@
                &&& r is Err
                &&& r->Err_0@ == no_possible_actions_message(state_id@)
            },
            action_ids@.len() > 0 ==> {
                &&& final(self)@ == refresh_spec(
                    old(self)@,
                    state_id@,
                    ids_view(action_ids@),
                    old(self).config().2,
                )
                &&& refreshed(old(self)@, final(self)@, state_id@, ids_view(action_ids@))
                &&& r is Ok
                &&& ids_view(r->Ok_0@).to_multiset() == tie_set(
                    final(self)@,
                    state_id@,
                    ids_view(action_ids@),
                ).to_multiset()
                &&& 0 < r->Ok_0@.len() <= action_ids@.len()
                &&& ids_sorted(r->Ok_0@)
                &&& forall|i: int|
                    0 <= i < r->Ok_0@.len() ==> ids_view(action_ids@).contains(
                        #[trigger] r->Ok_0@[i]@,
                    )
                &&& action_ids@.len() == 1 ==> r->Ok_0@.len() == 1 && r->Ok_0@[0]@
                    == action_ids@[0]@
            },
    {
        if action_ids.len() == 0 {
            return Err(LearnerError::no_possible_actions(state_id));
        }
        self.apply_action_weights(state_id, action_ids);
        let ghost ids = ids_view(action_ids@);
        let ghost tf = self@;
        let n = action_ids.len();
        let mut weights: Vec<V> = Vec::new();
        let mut at: usize = 0;
        let mut i: usize = 0;
        while i < n
            invariant
                n == action_ids@.len(),
                i <= n,
                ids == ids_view(action_ids@),
                self@ == tf,
                weights@.len() == i,
                forall|k: int| 0 <= k < i ==> #[trigger] weights@[k] == weight_at(tf, state_id@, ids[k]),
                i == 0 ==> at == 0,
                i > 0 ==> at < i && at as int == best_index(tf, state_id@, ids.take(i as int)),
            decreases n - i,
        {
            let w = match self.qmap.get_stats(state_id, action_ids[i].as_str()) {
                Some(st) => st.q_weighted,
                None => V::zero(),
            };
            proof {
                assert(ids[i as int] == action_ids@[i as int]@);
                assert(ids.take(i + 1).drop_last() =~= ids.take(i as int));
                assert(ids.take(i + 1).last() == ids[i as int]);
                assert(w == weight_at(tf, state_id@, ids[i as int]));
                if i > 0 {
                    assert(ids.take(i + 1)[at as int] == ids[at as int]);
                    assert(weights@[at as int] == weight_at(tf, state_id@, ids[at as int]));
                }
            }
            let ghost at0 = at;
            if i > 0 && V::greater(w, weights[at]) {
                at = i;
            }
            proof {
                let t = ids.take(i + 1);
                reveal_with_fuel(best_index, 2);
                if i > 0 {
                    assert(best_index(tf, state_id@, t.drop_last()) == at0);
                    assert(t[at0 as int] == ids[at0 as int]);
                    assert(weight_at(tf, state_id@, t.last()) == w);
                    assert(best_index(tf, state_id@, t) == at as int);
                } else {
                    assert(t.len() == 1);
                }
            }
            weights.push(w);
            i += 1;
        }
        assert(ids.take(n as int) =~= ids);
        let best = weights[at];
        let mut tied: Vec<String> = Vec::new();
        let mut j: usize = 0;
        assert(ids_view(tied@) =~= Seq::<Seq<char>>::empty());
        while j < n
            invariant
                n == action_ids@.len(),
                j <= n,
                at < n,
                ids == ids_view(action_ids@),
                self@ == tf,
                weights@.len() == n,
                forall|k: int| 0 <= k < n ==> #[trigger] weights@[k] == weight_at(tf, state_id@, ids[k]),
                best == weight_at(tf, state_id@, ids[at as int]),
                at as int == best_index(tf, state_id@, ids),
                ids_view(tied@) == near_ids(tf, state_id@, ids.take(j as int), best, at as int),
                tied@.len() <= j,
                j > at ==> tied@.len() > 0,
                n == 1 && j == 1 ==> tied@.len() == 1 && tied@[0]@ == action_ids@[0]@,
                forall|k: int| 0 <= k < tied@.len() ==> ids.contains(#[trigger] tied@[k]@),
            decreases n - j,
        {
            let ghost tied0 = tied@;
            proof {
                assert(ids[j as int] == action_ids@[j as int]@);
                assert(ids.take(j + 1).drop_last() =~= ids.take(j as int));
                assert(ids.take(j + 1).last() == ids[j as int]);
            }
            if V::near(weights[j], best) || j == at {
                tied.push(action_ids[j].clone());
                assert(ids_view(tied@) =~= ids_view(tied0).push(ids[j as int]));
                if n == 1 {
                    assert(tied0.len() == 0);
                }
            }
            j += 1;
        }
        assert(ids.take(n as int) =~= ids);
        let ghost unsorted = tied@;
        let sorted = sort_ids(tied);
        proof {
            lemma_same_elements(sorted@, unsorted);
            assert forall|k: int| 0 <= k < sorted@.len() implies ids.contains(
                #[trigger] sorted@[k]@,
            ) by {
                assert(unsorted.contains(sorted@[k]));
                let j = choose|j: int| 0 <= j < unsorted.len() && unsorted[j] == sorted@[k];
                assert(ids.contains(unsorted[j]@));
            }
            if action_ids@.len() == 1 {
                assert(unsorted.contains(sorted@[0]));
            }
        }
        Ok(sorted)
    }

    /// The largest weighted value among the given actions of the state
    /// `state_id`, and zero where none is larger.
    fn best_value(&self, state_id: &str) -> (r: V)
        ensures
            is_best_future(self@, state_id@, r),
    {
        let action_ids = self.qmap.action_ids_of(state_id);
        let ghost ids = ids_view(action_ids@);
        let mut best = V::zero();
        let mut i: usize = 0;
        while i < action_ids.len()
            invariant
                i <= action_ids@.len(),
                ids == ids_view(action_ids@),
                best == best_value_spec(self@, state_id@, ids.take(i as int)),
            decreases action_ids@.len() - i,
        {
            proof {
                assert(ids.take(i + 1).drop_last() =~= ids.take(i as int));
                assert(ids.take(i + 1).last() == action_ids@[i as int]@);
            }
            if let Some(st) = self.qmap.get_stats(state_id, action_ids[i].as_str()) {
                if V::greater(st.q_weighted, best) {
                    best = st.q_weighted;
                }
            }
            i += 1;
        }
        assert(ids.take(action_ids@.len() as int) =~= ids);
        proof {
            let m = bucket_or_empty(self@, state_id@);
            assert forall|a: int, b: int|
                0 <= a < ids.len() && 0 <= b < ids.len() && a != b implies #[trigger] ids[a]
                != #[trigger] ids[b] by {
                assert(action_ids@[a]@ != action_ids@[b]@);
            }
            assert forall|a: int| 0 <= a < ids.len() implies m.contains_key(#[trigger] ids[a]) by {
                assert(m.contains_key(action_ids@[a]@));
            }
            assert forall|k: Seq<char>| #[trigger] m.contains_key(k) implies ids.contains(k) by {
                let a = choose|a: int| 0 <= a < action_ids@.len() && #[trigger] action_ids@[a]@ == k;
                assert(ids[a] == k);
            }
            assert(enumerates(ids, m));
        }
        best
    }

    /// Learns from the transition out of the state `previous` (its
    /// identifier and its possible actions' identifiers) through the action
    /// `action_id` into the state `current_id` (whose possible actions are
    /// `current_action_ids`), which earned `reward`.
    ///
    /// With no previous state nothing changes. Otherwise the weights of the
    /// current state are refreshed, the record of the previous state and
    /// action gets one more call and the Bellman update of its weighted
    /// value as raw value, and the weights of the previous state are
    /// refreshed.
    pub fn learn_from(
        &mut self,
        previous: Option<(&str, &Vec<String>)>,
        action_id: &str,
        current_id: &str,
        current_action_ids: &Vec<String>,
        reward: V,
    )
        ensures
            final(self).config() == old(self).config(),
            previous is None ==> final(self)@ == old(self)@,
            previous matches Some((pid, pids)) ==> learns(
                old(self)@,
                final(self)@,
                old(self).config(),
                pid@,
                ids_view(pids@),
                action_id@,
                current_id@,
                ids_view(current_action_ids@),
                reward,
            ),
            previous matches Some((pid, pids)) ==> {
                &&& stats_at(final(self)@, pid@, action_id@) is Some
                &&& stats_at(final(self)@, pid@, action_id@)->Some_0.call_count == next_calls(
                    stats_at(old(self)@, pid@, action_id@),
                )
                &&& forall|j: int|
                    0 <= j < pids@.len() ==> final(self)@.contains_key(pid@)
                        && #[trigger] final(self)@[pid@].contains_key(pids@[j]@)
                &&& forall|j: int|
                    0 <= j < current_action_ids@.len() ==> final(self)@.contains_key(current_id@)
                        && #[trigger] final(self)@[current_id@].contains_key(
                        current_action_ids@[j]@,
                    )
                &&& final(self)@.remove(pid@).remove(current_id@) == old(self)@.remove(
                    pid@,
                ).remove(current_id@)
                &&& forall|s: Seq<char>, a: Seq<char>|
                    #[trigger] stats_at(old(self)@, s, a) is Some && !(s == pid@ && a == action_id@)
                        ==> stats_at(final(self)@, s, a) is Some && keeps_counts(
                        stats_at(final(self)@, s, a)->Some_0,
                        stats_at(old(self)@, s, a)->Some_0,
                    )
                &&& forall|s: Seq<char>, a: Seq<char>|
                    #[trigger] stats_at(final(self)@, s, a) is Some && stats_at(old(self)@, s, a) is None
                        && !(s == pid@ && a == action_id@) ==> stats_at(final(self)@, s, a)->Some_0.call_count
                        == 0
            },
    {
        let (pid, pids) = match previous {
            None => return,
            Some(p) => p,
        };
        let ghost t0 = self@;
        let stats = match self.qmap.get_stats(pid, action_id) {
            Some(st) => st,
            None => {
                let z = V::zero();
                ActionStats { call_count: 0, q_raw: z, q_weighted: z }
            },
        };
        self.apply_action_weights(current_id, current_action_ids);
        let ghost t1 = self@;
        let best = self.best_value(current_id);
        let new_value = bellman(
            stats.q_weighted,
            self.learning_rate,
            reward,
            self.discount_factor,
            best,
        );
        let calls = if stats.call_count < i64::MAX {
            stats.call_count + 1
        } else {
            stats.call_count
        };
        let record = ActionStats { call_count: calls, q_raw: new_value, q_weighted: stats.q_weighted };
        self.qmap.update_stats(pid, action_id, record);
        let ghost t2 = self@;
        self.apply_action_weights(pid, pids);
        proof {
            let t3 = self@;
            let cids = ids_view(current_action_ids@);
            assert(t2 == with_stats(t1, pid@, action_id@, record));
            assert(t2[pid@].contains_key(action_id@));
            assert(t3[pid@].contains_key(action_id@));
            assert forall|j: int| 0 <= j < pids@.len() implies t3.contains_key(pid@)
                && #[trigger] t3[pid@].contains_key(pids@[j]@) by {
                assert(ids_view(pids@)[j] == pids@[j]@);
                assert(ids_view(pids@).contains(pids@[j]@));
            }
            assert forall|j: int| 0 <= j < current_action_ids@.len() implies t3.contains_key(
                current_id@,
            ) && #[trigger] t3[current_id@].contains_key(current_action_ids@[j]@) by {
                assert(cids[j] == current_action_ids@[j]@);
                assert(cids.contains(current_action_ids@[j]@));
                assert(t1[current_id@].contains_key(current_action_ids@[j]@));
                if current_id@ == pid@ {
                    assert(t2[pid@].contains_key(current_action_ids@[j]@));
                } else {
                    assert(t3.remove(pid@).contains_key(current_id@));
                    assert(t3[current_id@] == t3.remove(pid@)[current_id@]);
                    assert(t2[current_id@] == t2.remove(pid@)[current_id@]);
                }
            }
            lemma_refreshed_records(t0, t1, current_id@, cids);
            lemma_refreshed_records(t2, t3, pid@, ids_view(pids@));
            assert forall|s: Seq<char>, a: Seq<char>| !(s == pid@ && a == action_id@) implies #[trigger]
                stats_at(t2, s, a) == stats_at(t1, s, a) by {}
            assert(t3.remove(pid@).remove(current_id@) =~= t0.remove(pid@).remove(current_id@)) by {
                assert(t3.remove(pid@) == t2.remove(pid@));
                assert(t2.remove(pid@) =~= t1.remove(pid@));
                assert(t1.remove(current_id@) == t0.remove(current_id@));
                assert(t1.remove(pid@).remove(current_id@) =~= t1.remove(current_id@).remove(pid@));
                assert(t0.remove(pid@).remove(current_id@) =~= t0.remove(current_id@).remove(pid@));
            }
        }
    }
}

impl<'a, V: QValue, T: TieBreaker, S: Stater<'a, A>, A: Actioner<'a> + 'a> Agenter<'a, V, S, A> for BayesianAgent<
    V,
    T,
> {
    /// Recommends the action of `state` with the best weighted value after
    /// a weight refresh; among actions that tie, sorted by identifier, the
    /// tie breaker picks one. A state without actions is an error.
    fn recommend_action(&mut self, state: &'a S) -> (r: Result<&'a A, LearnerError>)
        ensures
            final(self).config() == old(self).config(),
            possible_ids(state).len() == 0 ==> {
                &&& final(self)@ == old(self)@
                &&& r is Err
                &&& r->Err_0@ == no_possible_actions_message(state.spec_id()@)
            },
            possible_ids(state).len() > 0 ==> final(self)@ == refresh_spec(
                old(self)@,
                state.spec_id()@,
                possible_ids(state),
                old(self).config().2,
            ),
            forall|s: Seq<char>, a: Seq<char>|
                #[trigger] stats_at(old(self)@, s, a) is Some ==> stats_at(final(self)@, s, a) is Some
                    && keeps_counts(
                    stats_at(final(self)@, s, a)->Some_0,
                    stats_at(old(self)@, s, a)->Some_0,
                ),
    {
        let action_ids = state_action_ids(state);
        let ghost t0 = self@;
        let sid = state.id();
        let best = match self.best_action_ids(sid, &action_ids) {
            Ok(ids) => ids,
            Err(e) => return Err(e),
        };
        proof {
            lemma_refreshed_records(t0, self@, sid@, ids_view(action_ids@));
        }
        let pick = self.tie_breaker.pick(best.len());
        state.get_action(tied_pick(&best, pick))
    }

    /// Applies `action` to `state` when the state accepts it, and returns
    /// what the state's `apply` returns; otherwise returns an error without
    /// applying anything.
    fn transition(&self, state: &'a S, action: &'a A) -> (r: Result<(), LearnerError>)
        ensures
            !state.spec_compatible(action) ==> r is Err && r->Err_0@ == incompatible_action_message(
                state.spec_id()@,
                action.spec_id()@,
            ),
    {
        if !state.action_is_compatible(action) {
            return Err(LearnerError::incompatible_action(state.id(), action.id()));
        }
        state.apply(action)
    }

    /// Updates the table from the transition out of `previous_state` through
    /// `action_taken` into `current_state`, which earned `reward`. With no
    /// previous state (the system is being bootstrapped) nothing changes.
    fn learn(
        &mut self,
        previous_state: Option<&'a S>,
        action_taken: &'a A,
        current_state: &'a S,
        reward: V,
    )
        ensures
            final(self).config() == old(self).config(),
            previous_state is None ==> final(self)@ == old(self)@,
            previous_state matches Some(p) ==> learns(
                old(self)@,
                final(self)@,
                old(self).config(),
                p.spec_id()@,
                possible_ids(p),
                action_taken.spec_id()@,
                current_state.spec_id()@,
                possible_ids(current_state),
                reward,
            ),
            forall|s: Seq<char>, a: Seq<char>|
                #[trigger] stats_at(old(self)@, s, a) is Some ==> stats_at(final(self)@, s, a) is Some,
    {
        let previous = match previous_state {
            None => return,
            Some(p) => p,
        };
        let previous_ids = state_action_ids(previous);
        let current_ids = state_action_ids(current_state);
        self.learn_from(
            Some((previous.id(), &previous_ids)),
            action_taken.id(),
            current_state.id(),
            &current_ids,
            reward,
        );
    }
}

} // verus!
