use std::cell::RefCell;

use qlearning::actions::Actioner;
use qlearning::agents::Agenter;
use qlearning::bayesianagent::{AgentContext, BayesianAgent};
use qlearning::errors::LearnerError;
use qlearning::qmap::QMap;
use qlearning::states::Stater;
use qlearning::stats::{ActionStats, ActionStatter, Stats};
use qlearning::tiebreak::{FixedTieBreaker, TieBreaker, UniformTieBreaker};
use qlearning::value::QValue;

#[derive(Clone, Copy, Debug, PartialEq)]
struct Q(f64);

impl QValue for Q {
    fn spec_zero() -> Self {
        Q(0.0)
    }
    fn spec_from_i64(n: i64) -> Self {
        Q(n as f64)
    }
    fn spec_from_usize(n: usize) -> Self {
        Q(n as f64)
    }
    fn spec_add(a: Self, b: Self) -> Self {
        Q(a.0 + b.0)
    }
    fn spec_sub(a: Self, b: Self) -> Self {
        Q(a.0 - b.0)
    }
    fn spec_mul(a: Self, b: Self) -> Self {
        Q(a.0 * b.0)
    }
    fn spec_mul_add(a: Self, b: Self, c: Self) -> Self {
        Q(a.0.mul_add(b.0, c.0))
    }
    fn spec_div(a: Self, b: Self) -> Self {
        Q(a.0 / b.0)
    }
    fn spec_is_zero(a: Self) -> bool {
        a.0 == 0.0
    }
    fn spec_greater(a: Self, b: Self) -> bool {
        a.0 > b.0
    }
    fn spec_near(a: Self, b: Self) -> bool {
        (a.0 - b.0).abs() < f64::EPSILON
    }
    fn zero() -> Self {
        Self::spec_zero()
    }
    fn from_i64(n: i64) -> Self {
        Self::spec_from_i64(n)
    }
    fn from_usize(n: usize) -> Self {
        Self::spec_from_usize(n)
    }
    fn add(a: Self, b: Self) -> Self {
        Self::spec_add(a, b)
    }
    fn sub(a: Self, b: Self) -> Self {
        Self::spec_sub(a, b)
    }
    fn mul(a: Self, b: Self) -> Self {
        Self::spec_mul(a, b)
    }
    fn mul_add(a: Self, b: Self, c: Self) -> Self {
        Self::spec_mul_add(a, b, c)
    }
    fn div(a: Self, b: Self) -> Self {
        Self::spec_div(a, b)
    }
    fn is_zero(a: Self) -> bool {
        Self::spec_is_zero(a)
    }
    fn greater(a: Self, b: Self) -> bool {
        Self::spec_greater(a, b)
    }
    fn near(a: Self, b: Self) -> bool {
        Self::spec_near(a, b)
    }
}

#[derive(Debug)]
struct MockActioner<'a> {
    return_id: &'a str,
}

impl<'a> Actioner<'a> for MockActioner<'a> {
    fn spec_id(&self) -> &'a str {
        self.return_id
    }

    fn id(&self) -> &'a str {
        self.return_id
    }
}

struct MockStater<'a> {
    return_id: &'a str,
    return_possible_actions: Vec<&'a MockActioner<'a>>,
    return_action_is_compatible: bool,
    applied: RefCell<Vec<String>>,
    get_action_calls: RefCell<i64>,
}

impl<'a> MockStater<'a> {
    fn new(id: &'a str, actions: Vec<&'a MockActioner<'a>>) -> Self {
        MockStater {
            return_id: id,
            return_possible_actions: actions,
            return_action_is_compatible: true,
            applied: RefCell::new(Vec::new()),
            get_action_calls: RefCell::new(0),
        }
    }
}

impl<'a> Stater<'a, MockActioner<'a>> for MockStater<'a> {
    fn spec_id(&self) -> &str {
        self.return_id
    }

    fn spec_actions(&self) -> Vec<&'a MockActioner<'a>> {
        self.return_possible_actions.clone()
    }

    fn spec_compatible(&self, _action: &'a MockActioner<'a>) -> bool {
        self.return_action_is_compatible
    }

    fn possible_actions(&self) -> Vec<&'a MockActioner<'a>> {
        self.spec_actions()
    }

    fn action_is_compatible(&self, action: &'a MockActioner<'a>) -> bool {
        self.spec_compatible(action)
    }

    fn get_action(&self, action_name: &str) -> Result<&'a MockActioner<'a>, LearnerError> {
        *self.get_action_calls.borrow_mut() += 1;
        for action in &self.return_possible_actions {
            if action.id() == action_name {
                return Ok(action);
            }
        }
        Err(LearnerError::new(format!(
            "Action '{}' not found in MockStater '{}'",
            action_name,
            self.id()
        )))
    }

    fn id(&self) -> &str {
        self.return_id
    }

    fn apply(&self, action: &'a MockActioner<'a>) -> Result<(), LearnerError> {
        self.applied.borrow_mut().push(action.id().to_string());
        Ok(())
    }
}

fn stats(calls: i64, raw: f64, weighted: f64) -> ActionStats<Q> {
    ActionStats { call_count: calls, q_raw: Q(raw), q_weighted: Q(weighted) }
}

fn ids(names: &[&str]) -> Vec<String> {
    names.iter().map(|n| n.to_string()).collect()
}

fn sorted(mut v: Vec<String>) -> Vec<String> {
    v.sort();
    v
}

/// Whether two tables hold the same records, whatever order they were
/// inserted in.
fn same_table(a: &QMap<Q>, b: &QMap<Q>) -> bool {
    let states = sorted(a.state_ids());
    if states != sorted(b.state_ids()) {
        return false;
    }
    for s in &states {
        let actions = sorted(a.action_ids_of(s));
        if actions != sorted(b.action_ids_of(s)) {
            return false;
        }
        for x in &actions {
            if a.get_stats(s, x) != b.get_stats(s, x) {
                return false;
            }
        }
    }
    true
}

fn same_context(a: &AgentContext<Q>, b: &AgentContext<Q>) -> bool {
    a.learning_rate == b.learning_rate
        && a.discount_factor == b.discount_factor
        && a.priming_threshold == b.priming_threshold
        && same_table(&a.q_values, &b.q_values)
}

#[test]
fn learn() {
    let action_x = MockActioner { return_id: "X" };
    let action_y = MockActioner { return_id: "Y" };
    let action_z = MockActioner { return_id: "Z" };
    let mock_actions = || -> Vec<&MockActioner> { vec![&action_x, &action_y, &action_z] };

    let previous_state = MockStater::new("A", mock_actions());
    let current_state = MockStater::new("B", mock_actions());

    let mut ba: BayesianAgent<Q, UniformTieBreaker> = BayesianAgent::new(10, Q(1.0), Q(0.0));
    let reward = Q(1.0);
    ba.learn(Some(&previous_state), &action_x, &current_state, reward);
    ba.learn(Some(&previous_state), &action_y, &current_state, reward);

    let actual: AgentContext<Q> = ba.get_agent_context();

    assert_eq!(actual.learning_rate, Q(1.0));
    assert_eq!(actual.discount_factor, Q(0.0));
    assert_eq!(actual.priming_threshold, 10);
    let q = &actual.q_values;
    assert_eq!(q.get_stats("A", "X"), Some(stats(1, 1.0, 0.696_969_696_969_696_9)));
    assert_eq!(q.get_stats("A", "Y"), Some(stats(1, 1.0, 0.696_969_696_969_696_9)));
    assert_eq!(q.get_stats("A", "Z"), Some(stats(0, 0.0, 0.666_666_666_666_666_6)));
    assert_eq!(q.get_stats("B", "X"), Some(stats(0, 0.0, 0.0)));
    assert_eq!(q.get_stats("B", "Y"), Some(stats(0, 0.0, 0.0)));
    assert_eq!(q.get_stats("B", "Z"), Some(stats(0, 0.0, 0.0)));
    assert_eq!(sorted(q.state_ids()), ids(&["A", "B"]));
    let mut snapshot = actual.q_values;
    let mut a_ids = snapshot.get_actions_for_state("A");
    a_ids.sort();
    assert_eq!(a_ids, ids(&["X", "Y", "Z"]));
    let mut b_ids = snapshot.get_actions_for_state("B");
    b_ids.sort();
    assert_eq!(b_ids, ids(&["X", "Y", "Z"]));
}

#[test]
fn learn_scenario_weights_follow_bayesian_average() {
    let mut ba = BayesianAgent::new(10, Q(1.0), Q(0.0));
    let a = ids(&["X", "Y", "Z"]);
    let b = ids(&["X", "Y", "Z"]);
    ba.learn_from(Some(("A", &a)), "X", "B", &b, Q(1.0));
    ba.learn_from(Some(("A", &a)), "Y", "B", &b, Q(1.0));
    let ctx = ba.get_agent_context();
    let mean = Q(2.0 / 3.0);
    let expected = qlearning::math::bayesian_average(Q(10.0), Q(1.0), mean, Q(1.0));
    for id in ["X", "Y"] {
        let s = ctx.q_values.get_stats("A", id).unwrap();
        assert_eq!(s.call_count, 1);
        assert_eq!(s.q_raw, Q(1.0));
        assert_eq!(s.q_weighted, expected);
    }
    let z = ctx.q_values.get_stats("A", "Z").unwrap();
    assert_eq!(z.call_count, 0);
    assert_eq!(z.q_raw, Q(0.0));
    assert!((z.q_weighted.0 - mean.0).abs() < 1e-12);
}

#[test]
fn learn_without_previous_state_changes_nothing() {
    let x = MockActioner { return_id: "X" };
    let y = MockActioner { return_id: "Y" };
    let a = MockStater::new("A", vec![&x, &y]);
    let b = MockStater::new("B", vec![&x]);
    let mut ba = BayesianAgent::new(3, Q(0.5), Q(0.9));
    ba.learn(Some(&a), &x, &b, Q(2.0));
    let before = ba.get_agent_context();
    ba.learn(None, &y, &a, Q(5.0));
    ba.learn(None, &x, &b, Q(-1.0));
    let after = ba.get_agent_context();
    assert!(same_context(&before, &after));
}

#[test]
fn learn_on_empty_table_without_previous_state_adds_nothing() {
    let x = MockActioner { return_id: "X" };
    let a = MockStater::new("A", vec![&x]);
    let mut ba = BayesianAgent::new(3, Q(0.5), Q(0.9));
    ba.learn(None, &x, &a, Q(5.0));
    let mut ctx = ba.get_agent_context();
    assert_eq!(ctx.q_values.get_stats("A", "X"), None);
    assert_eq!(ctx.q_values.get_actions_for_state("A").len(), 0);
}

#[test]
fn learn_counts_calls_and_uses_best_future_value() {
    // learning rate 0.5, discount 0.5, no priming: weighted equals raw
    let mut ba = BayesianAgent::new(0, Q(0.5), Q(0.5));
    let a = ids(&["go"]);
    let b = ids(&["stay"]);
    ba.learn_from(Some(("B", &b)), "stay", "A", &a, Q(4.0));
    // (B, stay): 0 + 0.5 * (4 + 0.5 * 0 - 0) = 2
    let s = ba.get_agent_context().q_values.get_stats("B", "stay").unwrap();
    assert_eq!(s, stats(1, 2.0, 2.0));
    ba.learn_from(Some(("A", &a)), "go", "B", &b, Q(0.0));
    // (A, go): 0 + 0.5 * (0 + 0.5 * 2 - 0) = 0.5
    let s = ba.get_agent_context().q_values.get_stats("A", "go").unwrap();
    assert_eq!(s, stats(1, 0.5, 0.5));
    ba.learn_from(Some(("A", &a)), "go", "B", &b, Q(0.0));
    let s = ba.get_agent_context().q_values.get_stats("A", "go").unwrap();
    assert_eq!(s.call_count, 2);
    // 0.5 + 0.5 * (0 + 0.5 * 2 - 0.5) = 0.75
    assert_eq!(s.q_raw, Q(0.75));
}

#[test]
fn best_future_value_never_below_zero() {
    let mut ba = BayesianAgent::new(0, Q(1.0), Q(1.0));
    let a = ids(&["go"]);
    let b = ids(&["stay"]);
    ba.learn_from(Some(("B", &b)), "stay", "A", &a, Q(-4.0));
    ba.learn_from(Some(("A", &a)), "go", "B", &b, Q(1.0));
    // B's only action is worth -4, below the floor of zero: 1 + 1 * 0
    let s = ba.get_agent_context().q_values.get_stats("A", "go").unwrap();
    assert_eq!(s.q_raw, Q(1.0));
}

#[test]
fn transition_happy_path() {
    let action_x = MockActioner { return_id: "X" };
    let current_state = MockStater::new("A", vec![&action_x]);

    let ba: BayesianAgent<Q, UniformTieBreaker> = BayesianAgent::new(0, Q(0.0), Q(0.0));
    let transition_result = ba.transition(&current_state, &action_x);

    assert!(transition_result.is_ok());
    assert_eq!(current_state.applied.borrow().len(), 1);
    assert_eq!(action_x.id(), current_state.applied.borrow()[0]);
}

struct FailingState;

impl<'a> Stater<'a, MockActioner<'a>> for FailingState {
    fn spec_id(&self) -> &str {
        "F"
    }
    fn spec_actions(&self) -> Vec<&'a MockActioner<'a>> {
        Vec::new()
    }
    fn spec_compatible(&self, _action: &'a MockActioner<'a>) -> bool {
        true
    }
    fn possible_actions(&self) -> Vec<&'a MockActioner<'a>> {
        Vec::new()
    }
    fn action_is_compatible(&self, _action: &'a MockActioner<'a>) -> bool {
        true
    }
    fn get_action(&self, action_name: &str) -> Result<&'a MockActioner<'a>, LearnerError> {
        Err(LearnerError::new(format!("no action {}", action_name)))
    }
    fn id(&self) -> &str {
        "F"
    }
    fn apply(&self, action: &'a MockActioner<'a>) -> Result<(), LearnerError> {
        Err(LearnerError::new(format!("could not apply {}", action.id())))
    }
}

#[test]
fn transition_passes_apply_error_through() {
    let x = MockActioner { return_id: "X" };
    let ba: BayesianAgent<Q, UniformTieBreaker> = BayesianAgent::new(0, Q(0.0), Q(0.0));
    let r = ba.transition(&FailingState, &x);
    assert_eq!(r, Err(LearnerError::new("could not apply X".to_string())));
}

#[test]
fn transition_action_not_compatible() {
    let unknown_action = MockActioner { return_id: "unknown" };
    let known_action = MockActioner { return_id: "known" };
    let mut current_state = MockStater::new("A", vec![&known_action]);
    current_state.return_action_is_compatible = false;

    let ba: BayesianAgent<Q, UniformTieBreaker> = BayesianAgent::new(0, Q(0.0), Q(0.0));
    let transition_result = ba.transition(&current_state, &unknown_action);

    assert!(transition_result.is_err());
    assert_eq!(
        format!("action {} is not compatible with state {}", "unknown", "A"),
        transition_result.unwrap_err().message()
    );
    assert!(current_state.applied.borrow().is_empty());
}

#[test]
fn recommend_action() {
    const TEST_STATE_ID: &str = "testStateID";
    const EXP_GET_ACTION_CALLS: i64 = 1;

    struct TestCase<'a> {
        name: &'a str,
        possible_actions: Vec<&'a MockActioner<'a>>,
        tie_break_index: usize,
        exp_result: Result<&'a str, LearnerError>,
    }

    let action_a = MockActioner { return_id: "A" };
    let action_b = MockActioner { return_id: "B" };

    let test_cases = vec![
        TestCase {
            name: "Error if no actions",
            possible_actions: vec![],
            tie_break_index: 0,
            exp_result: Err(LearnerError::new(format!(
                "state '{}' reports no possible actions",
                TEST_STATE_ID
            ))),
        },
        TestCase {
            name: "Action returned when bootstrapping",
            possible_actions: vec![&action_a],
            tie_break_index: 0,
            exp_result: Ok("A"),
        },
        TestCase {
            name: "Action choesn when tied",
            possible_actions: vec![&action_a, &action_b],
            tie_break_index: 1,
            exp_result: Ok("B"),
        },
    ];

    for test_case in test_cases {
        let state = MockStater::new(TEST_STATE_ID, test_case.possible_actions);
        let mut a = BayesianAgent::with_tie_breaker(
            0,
            Q(0.0),
            Q(0.0),
            FixedTieBreaker(test_case.tie_break_index),
        );
        let act_result = a.recommend_action(&state);
        let test_name = test_case.name;

        match test_case.exp_result {
            Ok(exp_action_id) => {
                assert!(act_result.is_ok(), "test case: {}", test_name);
                assert_eq!(
                    RefCell::new(EXP_GET_ACTION_CALLS),
                    state.get_action_calls,
                    "test case: {}",
                    test_name
                );
                assert_eq!(exp_action_id, act_result.unwrap().id(), "test case: {}", test_name);
            }
            Err(exp_error) => {
                assert!(act_result.is_err(), "test case: {}", test_name);
                assert_eq!(exp_error, act_result.unwrap_err(), "test case: j{}", test_name);
            }
        }
    }
}

#[test]
fn recommend_without_actions_leaves_table_unchanged() {
    let x = MockActioner { return_id: "X" };
    let a = MockStater::new("A", vec![&x]);
    let empty = MockStater::new("A", vec![]);
    let mut ba = BayesianAgent::new(2, Q(0.5), Q(0.5));
    ba.learn(Some(&a), &x, &a, Q(1.0));
    let before = ba.get_agent_context();
    let r = ba.recommend_action(&empty);
    assert_eq!(
        r.unwrap_err().message(),
        "state 'A' reports no possible actions".to_string()
    );
    assert!(same_context(&before, &ba.get_agent_context()));
}

#[test]
fn recommend_single_action_whatever_the_tie_breaker() {
    let x = MockActioner { return_id: "only" };
    for index in [0usize, 1, 2, 7, usize::MAX] {
        let state = MockStater::new("S", vec![&x]);
        let mut ba = BayesianAgent::with_tie_breaker(5, Q(0.1), Q(0.9), FixedTieBreaker(index));
        assert_eq!(ba.recommend_action(&state).unwrap().id(), "only");
    }
}

#[test]
fn recommend_ties_sorted_by_identifier() {
    let b = MockActioner { return_id: "B" };
    let a = MockActioner { return_id: "A" };
    let c = MockActioner { return_id: "C" };
    let state = MockStater::new("S", vec![&c, &b, &a]);
    for (index, expected) in [(0usize, "A"), (1, "B"), (2, "C"), (3, "A")] {
        let mut ba = BayesianAgent::with_tie_breaker(0, Q(0.0), Q(0.0), FixedTieBreaker(index));
        assert_eq!(ba.recommend_action(&state).unwrap().id(), expected);
    }
}

#[test]
fn recommend_prefers_learned_best_action() {
    let x = MockActioner { return_id: "X" };
    let y = MockActioner { return_id: "Y" };
    let s = MockStater::new("S", vec![&x, &y]);
    let t = MockStater::new("T", vec![]);
    let mut ba = BayesianAgent::with_tie_breaker(0, Q(1.0), Q(0.0), FixedTieBreaker(0));
    ba.learn(Some(&s), &y, &t, Q(3.0));
    assert_eq!(ba.recommend_action(&s).unwrap().id(), "Y");
    ba.learn(Some(&s), &x, &t, Q(5.0));
    assert_eq!(ba.recommend_action(&s).unwrap().id(), "X");
}

#[test]
fn best_action_ids_error_and_ties() {
    let mut ba = BayesianAgent::with_tie_breaker(1, Q(1.0), Q(0.0), FixedTieBreaker(0));
    let none: Vec<String> = Vec::new();
    let e = ba.best_action_ids("S", &none).unwrap_err();
    assert_eq!(e.message(), "state 'S' reports no possible actions");
    let r = ba.best_action_ids("S", &ids(&["b", "a", "c"])).unwrap();
    assert_eq!(r, ids(&["a", "b", "c"]));
}

#[test]
fn weight_refresh_twice_is_bit_identical() {
    let mut ba = BayesianAgent::new(3, Q(0.3), Q(0.7));
    let a = ids(&["X", "Y", "Z"]);
    let b = ids(&["P", "Q"]);
    ba.learn_from(Some(("A", &a)), "X", "B", &b, Q(0.37));
    ba.learn_from(Some(("A", &a)), "Y", "B", &b, Q(-1.3));
    ba.learn_from(Some(("B", &b)), "Q", "A", &a, Q(2.9));
    ba.apply_action_weights("A", &a);
    let once = ba.get_agent_context();
    ba.apply_action_weights("A", &a);
    let twice = ba.get_agent_context();
    assert!(same_context(&once, &twice));
    for id in ["X", "Y", "Z"] {
        let w1 = once.q_values.get_stats("A", id).unwrap().q_weighted.0;
        let w2 = twice.q_values.get_stats("A", id).unwrap().q_weighted.0;
        assert_eq!(w1.to_bits(), w2.to_bits());
    }
}

#[test]
fn weight_refresh_registers_missing_actions() {
    let mut ba = BayesianAgent::new(4, Q(0.3), Q(0.7));
    ba.apply_action_weights("S", &ids(&["m", "n"]));
    let ctx = ba.get_agent_context();
    assert_eq!(ctx.q_values.get_stats("S", "m"), Some(stats(0, 0.0, 0.0)));
    assert_eq!(ctx.q_values.get_stats("S", "n"), Some(stats(0, 0.0, 0.0)));
    assert_eq!(ctx.q_values.get_stats("T", "m"), None);
}

#[test]
fn get_actions_for_state() {
    let mut qmap: QMap<Q> = QMap::new();
    let result = qmap.get_actions_for_state("A");
    assert_eq!(result.len(), 0, "state map must be empty");
}

#[test]
fn get_stats_no_data() {
    let qmap: QMap<Q> = QMap::new();
    let result = qmap.get_stats("A", "X");
    assert!(result.is_none(), "result should be None");
}

#[test]
fn get_stats_state_has_data() {
    let stats: Stats<Q> = ActionStatter::new();
    let mut qmap: QMap<Q> = QMap::new();
    qmap.update_stats("A", "X", stats);
    let result = qmap.get_stats("A", "X");
    assert!(result.is_some(), "result should be Some");
}

#[test]
fn update_stats_replaces_record() {
    let mut qmap: QMap<Q> = QMap::new();
    qmap.update_stats("A", "X", stats(1, 2.0, 3.0));
    qmap.update_stats("A", "Y", stats(4, 5.0, 6.0));
    qmap.update_stats("A", "X", stats(7, 8.0, 9.0));
    qmap.update_stats("B", "X", stats(0, 0.5, 0.25));
    assert_eq!(qmap.get_stats("A", "X"), Some(stats(7, 8.0, 9.0)));
    assert_eq!(qmap.get_stats("A", "Y"), Some(stats(4, 5.0, 6.0)));
    assert_eq!(qmap.get_stats("B", "X"), Some(stats(0, 0.5, 0.25)));
    assert_eq!(qmap.get_stats("B", "Y"), None);
    assert_eq!(qmap.get_actions_for_state("A").len(), 2);
}

#[test]
fn action_stats_accessors() {
    let mut s: ActionStats<Q> = ActionStatter::new();
    assert_eq!(s, stats(0, 0.0, 0.0));
    s.set_calls(3);
    s.set_q_value_raw(Q(1.5));
    s.set_q_value_weighted(Q(-2.5));
    assert_eq!(s.calls(), 3);
    assert_eq!(s.q_value_raw(), Q(1.5));
    assert_eq!(s.q_value_weighted(), Q(-2.5));
}

#[test]
fn uniform_tie_breaker_stays_in_range() {
    let mut t = UniformTieBreaker;
    for _ in 0..200 {
        assert_eq!(t.pick(1), 0);
        assert!(t.pick(3) < 3);
    }
    assert_eq!(t.pick(0), 0);
}

#[test]
fn learner_error_messages() {
    let e = LearnerError::new("boom".to_string());
    assert_eq!(e.message(), "boom");
    assert_eq!(
        LearnerError::incompatible_action("S", "a").message(),
        "action a is not compatible with state S"
    );
    assert_eq!(
        LearnerError::no_possible_actions("S").message(),
        "state 'S' reports no possible actions"
    );
}

#[test]
fn weight_refresh_that_registers_counts_new_records_next_time() {
    let mut ba = BayesianAgent::new(1, Q(1.0), Q(0.0));
    let none: Vec<String> = Vec::new();
    ba.learn_from(Some(("S", &ids(&["X"]))), "X", "T", &none, Q(1.0));
    let both = ids(&["X", "Y"]);
    ba.apply_action_weights("S", &both);
    let first = ba.get_agent_context();
    assert_eq!(first.q_values.get_stats("S", "X"), Some(stats(1, 1.0, 1.0)));
    assert_eq!(first.q_values.get_stats("S", "Y"), Some(stats(0, 0.0, 1.0)));
    ba.apply_action_weights("S", &both);
    let second = ba.get_agent_context();
    assert_eq!(second.q_values.get_stats("S", "X"), Some(stats(1, 1.0, 0.75)));
    assert_eq!(second.q_values.get_stats("S", "Y"), Some(stats(0, 0.0, 0.5)));
    ba.apply_action_weights("S", &both);
    assert!(same_context(&second, &ba.get_agent_context()));
}
