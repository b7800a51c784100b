//! The action-value table: for each state identifier, the statistics of
//! each action identifier seen in that state.

use vstd::prelude::*;
use crate::alist::{
    alist_view, find_key, keys_unique, lemma_view_absent, lemma_view_has, lemma_view_index,
    lemma_view_key, lemma_view_pointwise, lemma_view_push, lemma_view_update,
};
use crate::math::{bayesian_average, bayesian_average_spec};
use crate::stats::ActionStats;
use crate::value::QValue;

verus! {

/// What the table holds: state identifier to action identifier to record.
pub type TableView<V> = Map<Seq<char>, Map<Seq<char>, ActionStats<V>>>;

/// A bucket's pairs as a map from action identifiers.
pub type BucketView<V> = Map<Seq<char>, ActionStats<V>>;

/// Records are kept as they are in a bucket's map.
pub open spec fn record_fn<V>() -> spec_fn(ActionStats<V>) -> ActionStats<V> {
    |x: ActionStats<V>| x
}

/// A bucket seen as a map.
pub open spec fn bucket_fn<V>() -> spec_fn(Vec<(String, ActionStats<V>)>) -> BucketView<V> {
    |b: Vec<(String, ActionStats<V>)>| alist_view(b@, record_fn())
}

/// The record stored for `(state, action)`, if any.
pub open spec fn stats_at<V>(t: TableView<V>, state: Seq<char>, action: Seq<char>) -> Option<
    ActionStats<V>,
> {
    if t.contains_key(state) && t[state].contains_key(action) {
        Some(t[state][action])
    } else {
        None
    }
}

/// The bucket of `state`, empty where the state has never been seen.
pub open spec fn bucket_or_empty<V>(t: TableView<V>, state: Seq<char>) -> BucketView<V> {
    if t.contains_key(state) {
        t[state]
    } else {
        Map::empty()
    }
}

/// The table with `stats` stored for `(state, action)`.
pub open spec fn with_stats<V>(
    t: TableView<V>,
    state: Seq<char>,
    action: Seq<char>,
    stats: ActionStats<V>,
) -> TableView<V> {
    t.insert(state, bucket_or_empty(t, state).insert(action, stats))
}

/// The table with a bucket for `state`, an empty one where it had none.
pub open spec fn with_state<V>(t: TableView<V>, state: Seq<char>) -> TableView<V> {
    t.insert(state, bucket_or_empty(t, state))
}

/// `a` and `b` have the same calls and raw value.
pub open spec fn keeps_counts<V>(a: ActionStats<V>, b: ActionStats<V>) -> bool {
    a.call_count == b.call_count && a.q_raw == b.q_raw
}

/// `t1` is `t0` where only the weighted values of `state`'s records may
/// have changed.
pub open spec fn reweighed<V>(t0: TableView<V>, t1: TableView<V>, state: Seq<char>) -> bool {
    &&& t1.dom() == t0.dom()
    &&& t1.remove(state) == t0.remove(state)
    &&& t0.contains_key(state) ==> t1[state].dom() == t0[state].dom()
    &&& forall|a: Seq<char>|
        t0.contains_key(state) && #[trigger] t0[state].contains_key(a) ==> keeps_counts(
            t1[state][a],
            t0[state][a],
        )
}

/// A record whose weighted value is the Bayesian average of `mean` and its
/// raw value, with its calls against the prior weight `c`.
pub open spec fn weigh_fn<V: QValue>(c: V, mean: V) -> spec_fn(ActionStats<V>) -> ActionStats<V> {
    |x: ActionStats<V>|
        ActionStats {
            q_weighted: bayesian_average_spec(c, V::spec_from_i64(x.call_count), mean, x.q_raw),
            ..x
        }
}

/// The table with every record of `state`'s bucket reweighed against
/// `mean`; a state without a bucket is left as it is.
pub open spec fn reweigh_spec<V: QValue>(t: TableView<V>, state: Seq<char>, c: V, mean: V) -> TableView<V> {
    if t.contains_key(state) {
        t.insert(state, t[state].map_values(weigh_fn(c, mean)))
    } else {
        t
    }
}

/// `r` lists the keys of `m`, each once.
pub open spec fn lists_keys<Y>(r: Seq<String>, m: Map<Seq<char>, Y>) -> bool {
    &&& forall|i: int, j: int|
        0 <= i < r.len() && 0 <= j < r.len() && i != j ==> #[trigger] r[i]@ != #[trigger] r[j]@
    &&& forall|i: int| 0 <= i < r.len() ==> m.contains_key(#[trigger] r[i]@)
    &&& forall|k: Seq<char>| #[trigger] m.contains_key(k) ==> exists|i: int| 0 <= i < r.len() && #[trigger] r[i]@ == k
}

/// The keys of an association list, in order.
fn list_keys<X>(v: &Vec<(String, X)>) -> (r: Vec<String>)
    requires
        keys_unique(v@),
    ensures
        lists_keys(r@, alist_view(v@, |x: X| x)),
{
    let mut r: Vec<String> = Vec::new();
    let mut j: usize = 0;
    while j < v.len()
        invariant
            j <= v@.len(),
            r@.len() == j,
            forall|x: int| 0 <= x < j ==> #[trigger] r@[x] == v@[x].0,
        decreases v@.len() - j,
    {
        r.push(v[j].0.clone());
        j += 1;
    }
    proof {
        let f = |x: X| x;
        assert forall|x: int| 0 <= x < r@.len() implies alist_view(v@, f).contains_key(
            #[trigger] r@[x]@,
        ) by {
            lemma_view_has(v@, f, x);
        }
        assert forall|k: Seq<char>| #[trigger]
            alist_view(v@, f).contains_key(k) implies exists|x: int|
            0 <= x < r@.len() && #[trigger] r@[x]@ == k by {
            lemma_view_key(v@, f, k);
            let x = choose|x: int| 0 <= x < v@.len() && #[trigger] v@[x].0@ == k;
            assert(r@[x]@ == k);
        }
        assert forall|a: int, b: int|
            0 <= a < r@.len() && 0 <= b < r@.len() && a != b implies #[trigger] r@[a]@
            != #[trigger] r@[b]@ by {
            assert(v@[a].0@ != v@[b].0@);
        }
    }
    r
}

/// Maps a state identifier to a mapping of action identifier to the
/// statistics of that action. Buckets are created on first touch and never
/// removed.
#[derive(Debug)]
pub struct QMap<V> {
    data: Vec<(String, Vec<(String, ActionStats<V>)>)>,
}

impl<V> View for QMap<V> {
    type V = TableView<V>;

    closed spec fn view(&self) -> TableView<V> {
        alist_view(self.data@, bucket_fn())
    }
}

impl<V> QMap<V> {
    /// State identifiers are distinct, and so are the action identifiers of
    /// each bucket.
    #[verifier::type_invariant]
    spec fn wf(&self) -> bool {
        &&& keys_unique(self.data@)
        &&& forall|i: int| 0 <= i < self.data@.len() ==> keys_unique(#[trigger] self.data@[i].1@)
    }
}

impl<V: QValue> QMap<V> {
    /// An empty table.
    pub fn new() -> (r: Self)
        ensures
            r@ == TableView::<V>::empty(),
    {
        QMap { data: Vec::new() }
    }

    /// Appends a bucket for a state that has none.
    fn push_bucket(&mut self, key: String, b: Vec<(String, ActionStats<V>)>)
        requires
            forall|i: int| 0 <= i < old(self).data@.len() ==> #[trigger] old(self).data@[i].0@ != key@,
            keys_unique(b@),
        ensures
            final(self).data@ == old(self).data@.push((key, b)),
    {
        proof {
            use_type_invariant(&*self);
        }
        let mut d: Vec<(String, Vec<(String, ActionStats<V>)>)> = Vec::new();
        std::mem::swap(&mut self.data, &mut d);
        let ghost d0 = d@;
        d.push((key, b));
        proof {
            assert forall|x: int, y: int|
                0 <= x < d@.len() && 0 <= y < d@.len() && x != y implies #[trigger] d@[x].0@
                != #[trigger] d@[y].0@ by {
                if x < d0.len() {
                    assert(d@[x] == d0[x]);
                }
                if y < d0.len() {
                    assert(d@[y] == d0[y]);
                }
            }
            assert forall|x: int| 0 <= x < d@.len() implies keys_unique(#[trigger] d@[x].1@) by {
                if x < d0.len() {
                    assert(d@[x] == d0[x]);
                }
            }
        }
        std::mem::swap(&mut self.data, &mut d);
    }

    /// Moves the pairs of bucket `i` out, leaving it empty.
    fn take_bucket(&mut self, i: usize) -> (r: Vec<(String, ActionStats<V>)>)
        requires
            i < old(self).data@.len(),
        ensures
            r == old(self).data@[i as int].1,
            final(self).data@ == old(self).data@.update(
                i as int,
                (old(self).data@[i as int].0, final(self).data@[i as int].1),
            ),
            final(self).data@[i as int].1@.len() == 0,
    {
        proof {
            use_type_invariant(&*self);
        }
        let mut d: Vec<(String, Vec<(String, ActionStats<V>)>)> = Vec::new();
        std::mem::swap(&mut self.data, &mut d);
        let mut b: Vec<(String, ActionStats<V>)> = Vec::new();
        let ghost e = b@;
        std::mem::swap(&mut d[i].1, &mut b);
        proof {
            assert(d@[i as int].1@ == e && e.len() == 0);
            assert forall|x: int| 0 <= x < d@.len() implies keys_unique(#[trigger] d@[x].1@) by {
                if x != i {
                    assert(d@[x] == old(self).data@[x]);
                    assert(keys_unique(old(self).data@[x].1@));
                } else {
                    assert(d@[x].1@ == e);
                }
            }
        }
        std::mem::swap(&mut self.data, &mut d);
        b
    }

    /// Puts `b` back as the pairs of bucket `i`.
    fn put_bucket(&mut self, i: usize, b: Vec<(String, ActionStats<V>)>)
        requires
            i < old(self).data@.len(),
            keys_unique(b@),
        ensures
            final(self).data@ == old(self).data@.update(i as int, (old(self).data@[i as int].0, b)),
    {
        proof {
            use_type_invariant(&*self);
        }
        let mut d: Vec<(String, Vec<(String, ActionStats<V>)>)> = Vec::new();
        std::mem::swap(&mut self.data, &mut d);
        let mut b = b;
        let ghost e = b@;
        std::mem::swap(&mut d[i].1, &mut b);
        proof {
            assert(d@[i as int].1@ == e);
            assert forall|x: int| 0 <= x < d@.len() implies keys_unique(#[trigger] d@[x].1@) by {
                if x != i {
                    assert(d@[x] == old(self).data@[x]);
                    assert(keys_unique(old(self).data@[x].1@));
                } else {
                    assert(d@[x].1@ == e);
                }
            }
        }
        std::mem::swap(&mut self.data, &mut d);
    }

    /// Returns a copy of the record stored for `(state_id, action_id)`, or
    /// `None` if there is none.
    pub fn get_stats(&self, state_id: &str, action_id: &str) -> (r: Option<ActionStats<V>>)
        ensures
            r == stats_at(self@, state_id@, action_id@),
    {
        proof {
            use_type_invariant(self);
        }
        let sk = String::from_str(state_id);
        let ak = String::from_str(action_id);
        match find_key(&self.data, &sk) {
            None => {
                proof {
                    lemma_view_absent(self.data@, bucket_fn(), sk@);
                }
                None
            },
            Some(i) => {
                proof {
                    lemma_view_index(self.data@, bucket_fn(), i as int);
                }
                let b = &self.data[i].1;
                match find_key(b, &ak) {
                    None => {
                        proof {
                            lemma_view_absent(b@, record_fn(), ak@);
                        }
                        None
                    },
                    Some(j) => {
                        proof {
                            lemma_view_index(b@, record_fn(), j as int);
                        }
                        Some(b[j].1)
                    },
                }
            },
        }
    }

    /// Stores `stats` for `(state_id, action_id)`, replacing any record there.
    pub fn update_stats(&mut self, state_id: &str, action_id: &str, stats: ActionStats<V>)
        ensures
            final(self)@ == with_stats(old(self)@, state_id@, action_id@, stats),
    {
        proof {
            use_type_invariant(&*self);
        }
        let sk = String::from_str(state_id);
        let ak = String::from_str(action_id);
        match find_key(&self.data, &sk) {
            None => {
                let mut b: Vec<(String, ActionStats<V>)> = Vec::new();
                b.push((ak, stats));
                proof {
                    lemma_view_absent(self.data@, bucket_fn(), sk@);
                    lemma_view_push(Seq::<(String, ActionStats<V>)>::empty(), record_fn(), b@[0]);
                    assert(Seq::<(String, ActionStats<V>)>::empty().push(b@[0]) == b@);
                    lemma_view_push(self.data@, bucket_fn(), (sk, b));
                    assert(alist_view(b@, record_fn()) =~= Map::empty().insert(
                        action_id@,
                        stats,
                    ));
                }
                self.push_bucket(sk, b);
                assert(self@ =~= with_stats(old(self)@, state_id@, action_id@, stats));
            },
            Some(i) => {
                proof {
                    lemma_view_index(self.data@, bucket_fn(), i as int);
                }
                let mut b = self.take_bucket(i);
                let ghost b0 = b@;
                proof {
                    lemma_view_update(old(self).data@, bucket_fn(), i as int, self.data@[i as int]);
                    assert(self.data@ == old(self).data@.update(i as int, self.data@[i as int]));
                    assert(b0 == old(self).data@[i as int].1@);
                }
                assert(keys_unique(b0));
                match find_key(&b, &ak) {
                    None => {
                        proof {
                            lemma_view_absent(b0, record_fn(), ak@);
                            lemma_view_push(b0, record_fn(), (ak, stats));
                        }
                        b.push((ak, stats));
                        assert(keys_unique(b@)) by {
                            assert forall|x: int, y: int|
                                0 <= x < b@.len() && 0 <= y < b@.len() && x != y implies #[trigger] b@[x].0@
                                != #[trigger] b@[y].0@ by {
                                if x < b0.len() {
                                    assert(b@[x] == b0[x]);
                                }
                                if y < b0.len() {
                                    assert(b@[y] == b0[y]);
                                }
                            }
                        }
                    },
                    Some(j) => {
                        proof {
                            lemma_view_update(b0, record_fn(), j as int, (ak, stats));
                        }
                        b.set(j, (ak, stats));
                    },
                }
                assert(alist_view(b@, record_fn()) == alist_view(b0, record_fn()).insert(
                    action_id@,
                    stats,
                ));
                let ghost b1 = b@;
                let ghost d0 = self.data@;
                self.put_bucket(i, b);
                proof {
                    lemma_view_update(d0, bucket_fn(), i as int, self.data@[i as int]);
                    assert(self.data@ == d0.update(i as int, self.data@[i as int]));
                    assert(self.data@[i as int].1@ == b1);
                    assert forall|x: int| 0 <= x < self.data@.len() implies keys_unique(
                        #[trigger] self.data@[x].1@,
                    ) by {
                        if x != i {
                            assert(self.data@[x] == old(self).data@[x]);
                        }
                    }
                }
                assert(self@ =~= with_stats(old(self)@, state_id@, action_id@, stats));
            },
        }
    }

    /// The identifiers of the states in the table.
    pub fn state_ids(&self) -> (r: Vec<String>)
        ensures
            lists_keys(r@, self@),
    {
        proof {
            use_type_invariant(self);
        }
        let r = list_keys(&self.data);
        proof {
            let f = |x: Vec<(String, ActionStats<V>)>| x;
            assert forall|k: Seq<char>| #[trigger] self@.contains_key(k) == alist_view(self.data@, f).contains_key(k) by {
                if self@.contains_key(k) {
                    lemma_view_key(self.data@, bucket_fn(), k);
                    let x = choose|x: int| 0 <= x < self.data@.len() && #[trigger] self.data@[x].0@ == k;
                    lemma_view_has(self.data@, f, x);
                }
                if alist_view(self.data@, f).contains_key(k) {
                    lemma_view_key(self.data@, f, k);
                    let x = choose|x: int| 0 <= x < self.data@.len() && #[trigger] self.data@[x].0@ == k;
                    lemma_view_has(self.data@, bucket_fn(), x);
                }
            }
        }
        r
    }

    /// The identifiers of the actions recorded for `state_id`; none where
    /// the state has no bucket.
    pub fn action_ids_of(&self, state_id: &str) -> (r: Vec<String>)
        ensures
            lists_keys(r@, bucket_or_empty(self@, state_id@)),
    {
        proof {
            use_type_invariant(self);
        }
        let sk = String::from_str(state_id);
        match find_key(&self.data, &sk) {
            None => {
                proof {
                    lemma_view_absent(self.data@, bucket_fn(), sk@);
                }
                Vec::new()
            },
            Some(i) => {
                proof {
                    lemma_view_index(self.data@, bucket_fn(), i as int);
                    assert(keys_unique(self.data@[i as int].1@));
                }
                let r = list_keys(&self.data[i].1);
                proof {
                    let b = self.data@[i as int].1@;
                    let f = |x: ActionStats<V>| x;
                    assert(alist_view(b, f) =~= alist_view(b, record_fn())) by {
                        lemma_view_pointwise(b, f, b, record_fn());
                    }
                }
                r
            },
        }
    }

    /// Makes sure that `state_id` has a bucket, an empty one if the state
    /// has never been seen, and returns the action identifiers in it.
    pub fn get_actions_for_state(&mut self, state_id: &str) -> (r: Vec<String>)
        ensures
            final(self)@ == with_state(old(self)@, state_id@),
            forall|i: int, j: int|
                0 <= i < r@.len() && 0 <= j < r@.len() && i != j ==> #[trigger] r@[i]@
                    != #[trigger] r@[j]@,
            forall|i: int| 0 <= i < r@.len() ==> final(self)@[state_id@].contains_key(#[trigger] r@[i]@),
            forall|k: Seq<char>|
                #[trigger] final(self)@[state_id@].contains_key(k) ==> exists|i: int|
                    0 <= i < r@.len() && #[trigger] r@[i]@ == k,
    {
        proof {
            use_type_invariant(&*self);
        }
        let sk = String::from_str(state_id);
        let i = match find_key(&self.data, &sk) {
            Some(i) => {
                proof {
                    lemma_view_index(self.data@, bucket_fn(), i as int);
                }
                assert(self@ =~= with_state(old(self)@, state_id@));
                i
            },
            None => {
                let b: Vec<(String, ActionStats<V>)> = Vec::new();
                proof {
                    lemma_view_absent(self.data@, bucket_fn(), sk@);
                    lemma_view_push(self.data@, bucket_fn(), (sk, b));
                    assert(alist_view(b@, record_fn()) =~= Map::empty());
                }
                self.push_bucket(sk, b);
                assert(self@ =~= with_state(old(self)@, state_id@));
                self.data.len() - 1
            },
        };
        proof {
            lemma_view_index(self.data@, bucket_fn(), i as int);
        }
        let b = &self.data[i].1;
        assert(keys_unique(b@));
        let mut r: Vec<String> = Vec::new();
        let mut j: usize = 0;
        while j < b.len()
            invariant
                j <= b@.len(),
                r@.len() == j,
                forall|x: int| 0 <= x < j ==> #[trigger] r@[x] == b@[x].0,
            decreases b@.len() - j,
        {
            r.push(b[j].0.clone());
            j += 1;
        }
        proof {
            assert forall|x: int| 0 <= x < r@.len() implies self@[state_id@].contains_key(
                #[trigger] r@[x]@,
            ) by {
                lemma_view_has(b@, record_fn(), x);
            }
            assert forall|k: Seq<char>| #[trigger]
                self@[state_id@].contains_key(k) implies exists|x: int|
                0 <= x < r@.len() && #[trigger] r@[x]@ == k by {
                lemma_view_key(b@, record_fn(), k);
                let x = choose|x: int| 0 <= x < b@.len() && #[trigger] b@[x].0@ == k;
                assert(r@[x]@ == k);
            }
        }
        r
    }

    /// Recomputes the weighted value of every record of `state_id`'s bucket
    /// as the Bayesian average of `mean` and the record's raw value, with
    /// the record's calls against `priming_threshold`. A state without a
    /// bucket is left as it is.
    pub fn apply_weights(&mut self, state_id: &str, priming_threshold: i64, mean: V)
        ensures
            final(self)@ == reweigh_spec(old(self)@, state_id@, V::spec_from_i64(priming_threshold), mean),
            reweighed(old(self)@, final(self)@, state_id@),
    {
        proof {
            use_type_invariant(&*self);
        }
        let sk = String::from_str(state_id);
        let i = match find_key(&self.data, &sk) {
            Some(i) => i,
            None => {
                proof {
                    lemma_view_absent(self.data@, bucket_fn(), sk@);
                }
                assert(self@.remove(state_id@) =~= old(self)@.remove(state_id@));
                return;
            },
        };
        proof {
            lemma_view_index(self.data@, bucket_fn(), i as int);
        }
        let mut b = self.take_bucket(i);
        let ghost b0 = b@;
        proof {
            assert(b0 == old(self).data@[i as int].1@);
            assert(keys_unique(b0));
        }
        let c = V::from_i64(priming_threshold);
        let mut j: usize = 0;
        while j < b.len()
            invariant
                j <= b@.len(),
                b@.len() == b0.len(),
                forall|x: int| 0 <= x < b0.len() ==> #[trigger] b@[x].0@ == b0[x].0@,
                forall|x: int| 0 <= x < b0.len() ==> keeps_counts(#[trigger] b@[x].1, b0[x].1),
                forall|x: int| 0 <= x < j ==> #[trigger] b@[x].1 == weigh_fn(c, mean)(b0[x].1),
                forall|x: int| j <= x < b0.len() ==> #[trigger] b@[x].1 == b0[x].1,
                c == V::spec_from_i64(priming_threshold),
            decreases b@.len() - j,
        {
            let st = b[j].1;
            let w = bayesian_average(c, V::from_i64(st.call_count), mean, st.q_raw);
            let k = b[j].0.clone();
            b.set(j, (k, ActionStats { q_weighted: w, ..st }));
            j += 1;
        }
        let ghost m0 = alist_view(b0, record_fn());
        let ghost m1 = alist_view(b@, record_fn());
        proof {
            assert(keys_unique(b@)) by {
                assert forall|x: int, y: int|
                    0 <= x < b@.len() && 0 <= y < b@.len() && x != y implies #[trigger] b@[x].0@
                    != #[trigger] b@[y].0@ by {
                    assert(b0[x].0@ != b0[y].0@);
                }
            }
            assert forall|k: Seq<char>| m1.contains_key(k) implies m0.contains_key(k) by {
                lemma_view_key(b@, record_fn(), k);
                let x = choose|x: int| 0 <= x < b@.len() && #[trigger] b@[x].0@ == k;
                lemma_view_has(b0, record_fn(), x);
            }
            assert forall|k: Seq<char>| #[trigger] m0.contains_key(k) implies m1.contains_key(k)
                && keeps_counts(m1[k], m0[k]) && m1[k] == weigh_fn(c, mean)(m0[k]) by {
                lemma_view_key(b0, record_fn(), k);
                let x = choose|x: int| 0 <= x < b0.len() && #[trigger] b0[x].0@ == k;
                lemma_view_index(b0, record_fn(), x);
                lemma_view_index(b@, record_fn(), x);
            }
            assert(m1.dom() =~= m0.dom());
            assert(m1 =~= m0.map_values(weigh_fn(c, mean)));
        }
        let ghost b1 = b@;
        let ghost d0 = self.data@;
        self.put_bucket(i, b);
        proof {
            lemma_view_update(old(self).data@, bucket_fn(), i as int, self.data@[i as int]);
            assert(self.data@ == old(self).data@.update(i as int, self.data@[i as int]));
            assert(self.data@[i as int].1@ == b1);
        }
        assert(self@.remove(state_id@) =~= old(self)@.remove(state_id@));
        assert(self@.dom() =~= old(self)@.dom());
        assert(self@ =~= reweigh_spec(old(self)@, state_id@, c, mean));
    }

    /// A copy of the table.
    pub fn snapshot(&self) -> (r: Self)
        ensures
            r@ == self@,
    {
        proof {
            use_type_invariant(self);
        }
        let mut data: Vec<(String, Vec<(String, ActionStats<V>)>)> = Vec::new();
        let mut i: usize = 0;
        while i < self.data.len()
            invariant
                self.wf(),
                i <= self.data@.len(),
                data@.len() == i,
                forall|x: int| 0 <= x < i ==> #[trigger] data@[x].0 == self.data@[x].0,
                forall|x: int| 0 <= x < i ==> #[trigger] data@[x].1@ == self.data@[x].1@,
            decreases self.data@.len() - i,
        {
            let src = &self.data[i].1;
            let mut b: Vec<(String, ActionStats<V>)> = Vec::new();
            let mut j: usize = 0;
            while j < src.len()
                invariant
                    j <= src@.len(),
                    b@.len() == j,
                    forall|x: int| 0 <= x < j ==> #[trigger] b@[x] == src@[x],
                decreases src@.len() - j,
            {
                b.push((src[j].0.clone(), src[j].1));
                j += 1;
            }
            assert(b@ =~= src@);
            let ghost d0 = data@;
            data.push((self.data[i].0.clone(), b));
            assert(data@[i as int].1@ == self.data@[i as int].1@);
            assert forall|x: int| 0 <= x < i implies #[trigger] data@[x].1@ == self.data@[x].1@
                && data@[x].0 == self.data@[x].0 by {
                assert(data@[x] == d0[x]);
            }
            i += 1;
        }
        proof {
            lemma_view_pointwise(data@, bucket_fn(), self.data@, bucket_fn());
            assert forall|x: int, y: int|
                0 <= x < data@.len() && 0 <= y < data@.len() && x != y implies #[trigger] data@[x].0@
                != #[trigger] data@[y].0@ by {
                assert(self.data@[x].0@ != self.data@[y].0@);
            }
            assert forall|x: int| 0 <= x < data@.len() implies keys_unique(
                #[trigger] data@[x].1@,
            ) by {
                assert(keys_unique(self.data@[x].1@));
            }
        }
        let r = QMap { data };
        r
    }
}

} // verus!
