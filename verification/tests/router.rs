//! Routing, members, meters and strategies.

use std::collections::{HashMap, HashSet};

use execution_policy::health::Health;
use execution_policy::router::sample::{pick_distinct, sample_distinct};
use execution_policy::router::{Load, RouteStep, RouterBuildError};
use execution_policy::runtime::{ManualClock, TestCore};
use execution_policy::{
    BreakerState, Candidate, CircuitBreaker, Core, Double, Duration, ErrorContext, ExecutionError, Instant, Member,
    MemberState, Meter, PeakEwmaState, Pick, RouterError, RouterPolicy, Sample, Served,
};

type VirtualCore = TestCore<u32>;

fn virtual_core() -> VirtualCore {
    TestCore::new(ManualClock::new())
}

fn double(v: f64) -> Double {
    Double::from_bits(v.to_bits())
}

fn value(d: Double) -> f64 {
    f64::from_bits(d.to_bits())
}

fn std_duration(d: Duration) -> std::time::Duration {
    std::time::Duration::from_nanos(d.nanos as u64)
}

fn own_duration(d: std::time::Duration) -> Duration {
    Duration { nanos: d.as_nanos() }
}

/// The built-in meter with real arithmetic behind it.
fn peak_meter(half_life: Duration) -> Meter {
    let half_life = std_duration(half_life).as_secs_f64().max(f64::MIN_POSITIVE);
    Meter::peak_ewma(
        |d: Duration| double(std_duration(d).as_secs_f64()),
        move |prev: Double, dt: Duration, observed: Double| {
            let w = (-(std_duration(dt).as_secs_f64() / half_life)).exp2();
            double(value(prev) * w + value(observed) * (1.0 - w))
        },
    )
}

fn weighted<Id>() -> Pick<Id> {
    Pick::weighted_least_in_flight(|n: usize, w: Double| double((n as f64 + 1.0) / value(w)))
}

fn peak_pick<Id>() -> Pick<Id> {
    Pick::peak_ewma(|l: Duration, n: usize| double(std_duration(l).as_secs_f64() * (n as f64 + 1.0)))
}

fn context() -> Box<ErrorContext> {
    Box::new(ErrorContext {
        attempts: 1,
        elapsed: Duration::zero(),
        last_delay: None,
        breaker_state: BreakerState::Disabled,
    })
}

fn operation(e: u16) -> ExecutionError<u16> {
    ExecutionError::Operation { source: e, context: context() }
}

const HEALTHY: Health = Health { state: None, cooling_until: None };

/// Members with their states, and how the router runs an operation over them.
struct Pool {
    router: RouterPolicy<String, usize, u16>,
    states: Vec<MemberState>,
    health: Vec<Health>,
    core: VirtualCore,
}

fn loads(router: &RouterPolicy<String, usize, u16>, states: &[MemberState], of: &[usize]) -> Vec<Load> {
    of.iter()
        .map(|&i| {
            let s = &states[router.targets()[i].handle];
            Load {
                in_flight: s.in_flight,
                pick_count: s.pick_count,
                reading: s.meter.map(|m| {
                    own_duration(std::time::Duration::from_secs_f64(value(m.value_secs)))
                }),
            }
        })
        .collect()
}

impl Pool {
    fn new(ids: &[&str], pick: Pick<String>, meter: Option<Meter>) -> Pool {
        Self::with_predicate(ids, pick, meter, |e: &u16| *e == 429 || *e >= 500)
    }

    fn with_predicate(
        ids: &[&str],
        pick: Pick<String>,
        meter: Option<Meter>,
        advance: impl Fn(&u16) -> bool + Send + Sync + 'static,
    ) -> Pool {
        let mut builder = RouterPolicy::builder().select(pick).advance_when(advance);
        for (i, id) in ids.iter().enumerate() {
            builder = builder.target(Member::new(id.to_string(), i));
        }
        if let Some(m) = meter {
            builder = builder.meter(m);
        }
        Pool {
            router: builder.try_build().expect("a valid router"),
            states: ids.iter().map(|_| MemberState::new()).collect(),
            health: ids.iter().map(|_| HEALTHY).collect(),
            core: virtual_core(),
        }
    }

    fn run(
        &mut self,
        mut op: impl FnMut(&String, &mut VirtualCore, &[MemberState]) -> Result<u32, ExecutionError<u16>>,
    ) -> Result<Served<String, u32>, RouterError<String, u16>> {
        let mut route = self.router.survey(&self.health)?;
        loop {
            let loads = loads(&self.router, &self.states, &route.healthy);
            let chosen = self.router.choose_member(&route.healthy, &loads, &mut self.core)?;
            let target = &self.router.targets()[chosen];
            let started = self.core.now();
            self.states[target.handle].enter();
            let outcome = op(&target.id, &mut self.core, &self.states);
            let now = self.core.now();
            self.states[target.handle].complete(
                self.router.meter(),
                started,
                now,
                outcome.is_ok(),
            );
            self.states[target.handle].leave();
            match self.router.settle(route, chosen, outcome) {
                RouteStep::Done(r) => return r,
                RouteStep::Next(next) => route = next,
            }
        }
    }
}

#[test]
fn first_healthy_serves_and_records_provenance() {
    let mut pool = Pool::new(&["deepseek", "glm"], Pick::first_healthy(), None);
    let served = pool
        .run(|id, _c, _s| {
            assert_eq!(id, "deepseek");
            Ok(7)
        })
        .expect("served");
    assert_eq!(served.value, 7);
    assert_eq!(served.target, "deepseek".to_string());
    assert_eq!(served.attempts, 1);
}

#[test]
fn ordered_failover_advances_on_transient() {
    let mut pool = Pool::new(&["primary", "secondary"], Pick::first_healthy(), None);
    let served = pool
        .run(|id, _c, _s| if id == "primary" { Err(operation(503)) } else { Ok(9) })
        .expect("secondary serves");
    assert_eq!(served.target, "secondary".to_string());
    assert_eq!(served.attempts, 2);
}

#[test]
fn permanent_error_does_not_advance() {
    let mut pool = Pool::new(&["a", "b"], Pick::first_healthy(), None); // 400 is permanent
    let mut b_called = false;
    let out = pool.run(|id, _c, _s| {
        b_called = b_called || id == "b";
        Err(operation(400))
    });
    assert!(matches!(out, Err(RouterError::Exhausted(400))));
    assert!(!b_called);
}

#[test]
fn all_open_returns_park_hint() {
    let mut pool = Pool::with_predicate(&["a", "b"], Pick::first_healthy(), None, |_e| true);
    let tripping = || {
        CircuitBreaker::<u16>::consecutive_failures(1)
            .open_for(Duration::from_secs(47))
            .compile()
            .0
    };
    let mut breakers = vec![tripping(), tripping()];
    // The first run trips both breakers.
    let out = pool.run(|id, core, _s| {
        let b = &mut breakers[if id == "a" { 0 } else { 1 }];
        b.gate(core.now()).expect("closed");
        b.record_failure(core.now());
        Err(operation(500))
    });
    assert!(matches!(out, Err(RouterError::Exhausted(500))));
    let now = pool.core.now();
    pool.health = breakers
        .iter()
        .map(|b| Health { state: Some(b.state_at(now)), cooling_until: b.cooling_until(now) })
        .collect();
    match pool.run(|_id, _c, _s| unreachable!("nothing is attempted")) {
        Err(RouterError::AllUnavailable { next_available_at }) => {
            assert_eq!(next_available_at, Some(now.saturating_add(Duration::from_secs(47))));
        }
        other => panic!("expected a park hint, got {other:?}"),
    }
}

#[test]
fn the_soonest_recovery_is_the_hint() {
    let mut pool = Pool::new(&["a", "b", "c"], Pick::first_healthy(), None);
    let open = |nanos: Option<u128>| Health {
        state: Some(BreakerState::Open),
        cooling_until: nanos.map(Instant::from_nanos),
    };
    pool.health = vec![open(Some(90)), open(None), open(Some(47))];
    match pool.run(|_id, _c, _s| unreachable!("nothing is attempted")) {
        Err(RouterError::AllUnavailable { next_available_at }) => {
            assert_eq!(next_available_at, Some(Instant::from_nanos(47)));
        }
        other => panic!("expected a park hint, got {other:?}"),
    }
}

#[test]
fn open_members_are_skipped_and_others_are_not() {
    let mut pool = Pool::new(&["a", "b", "c"], Pick::first_healthy(), None);
    pool.health[0] = Health {
        state: Some(BreakerState::Open),
        cooling_until: Some(Instant::from_nanos(5)),
    };
    pool.health[1] = Health { state: Some(BreakerState::HalfOpen), cooling_until: None };
    let mut tried = Vec::new();
    let out = pool.run(|id, _c, _s| {
        tried.push(id.clone());
        Err(ExecutionError::TotalTimeout { context: context() })
    });
    assert_eq!(tried, vec!["b", "c"]);
    // Members were attempted, and nobody returned an error of the operation.
    match out {
        Err(RouterError::Unserved { attempts, next_available_at }) => {
            assert_eq!(attempts, 2);
            assert_eq!(next_available_at, Some(Instant::from_nanos(5)));
        }
        other => panic!("expected Unserved, got {other:?}"),
    }
}

#[test]
fn the_last_error_of_the_operation_is_kept() {
    let mut pool = Pool::new(&["a", "b", "c"], Pick::first_healthy(), None);
    let out = pool.run(|id, _c, _s| {
        Err(match id.as_str() {
            "a" => operation(500),
            "b" => operation(503),
            _ => ExecutionError::CircuitOpen { context: context() },
        })
    });
    assert!(matches!(out, Err(RouterError::Exhausted(503))));
}

#[test]
fn generic_id_carries_typed_provenance() {
    #[derive(Clone, PartialEq, Eq, Hash, Debug)]
    struct Mid(u32);
    let router: RouterPolicy<Mid, (), u16> = RouterPolicy::builder()
        .target(Member::new(Mid(7), ()))
        .select(Pick::first_healthy())
        .advance_when(|e: &u16| *e == 429)
        .try_build()
        .unwrap();
    let route = router.survey(&vec![HEALTHY]).unwrap();
    match router.settle::<u32>(route, 0, Ok(1)) {
        RouteStep::Done(Ok(served)) => assert_eq!(served.target, Mid(7)),
        other => panic!("expected to be served, got {other:?}"),
    }
}

#[test]
fn nan_score_fails_fast() {
    for bad in [f64::NAN, f64::INFINITY, f64::NEG_INFINITY] {
        let mut pool = Pool::new(&["a"], Pick::by_score(move |_c| double(bad)), None);
        match pool.run(|_id, _c, _s| Ok(1)) {
            Err(RouterError::Score { id, value }) => {
                assert_eq!(id, "a");
                assert_eq!(value.to_bits(), bad.to_bits());
            }
            other => panic!("expected a score error, got {other:?}"),
        }
    }
}

#[test]
fn in_flight_returns_to_zero_before_failover() {
    let mut pool = Pool::new(&["a", "b"], Pick::first_healthy(), None);
    let served = pool
        .run(|id, _c, states| {
            if id == "a" {
                assert_eq!(states[0].in_flight, 1);
                Err(operation(429))
            } else {
                assert_eq!(states[0].in_flight, 0);
                Ok(1)
            }
        })
        .expect("b serves");
    assert_eq!(served.target, "b".to_string());
    assert_eq!(pool.states[0].in_flight, 0);
    assert_eq!(pool.states[0].pick_count, 1);
}

#[test]
fn round_robin_spreads_evenly() {
    let mut pool = Pool::new(&["a", "b", "c"], Pick::round_robin(), None);
    let mut counts: HashMap<String, u32> = HashMap::new();
    for _ in 0..30 {
        let s = pool.run(|_id, _c, _s| Ok(1)).unwrap();
        *counts.entry(s.target).or_default() += 1;
        let picks: Vec<u64> = pool.states.iter().map(|s| s.pick_count).collect();
        assert!(picks.iter().max().unwrap() - picks.iter().min().unwrap() <= 1);
    }
    let max = *counts.values().max().unwrap();
    let min = *counts.values().min().unwrap();
    assert_eq!(counts.len(), 3, "all three members used: {counts:?}");
    assert!(max - min <= 1, "round-robin spread too wide: {counts:?}");
}

#[test]
fn p2c_is_deterministic_distinct_and_non_degenerate() {
    let mut p1 = Pool::new(&["a", "b", "c", "d"], Pick::p2c(), None);
    let mut p2 = Pool::new(&["a", "b", "c", "d"], Pick::p2c(), None);
    let mut seen = HashSet::new();
    for _ in 0..20 {
        let a = p1.run(|_id, _c, _s| Ok(1)).unwrap().target;
        let b = p2.run(|_id, _c, _s| Ok(1)).unwrap().target;
        assert_eq!(a, b, "same seed must pick alike");
        seen.insert(a);
    }
    assert!(seen.len() > 1, "p2c must not collapse to one target: {seen:?}");
}

#[test]
fn peak_ewma_sheds_share_from_slow_member() {
    let meter = peak_meter(Duration::from_secs(10));
    let mut pool = Pool::new(&["fast", "slow"], peak_pick(), Some(meter));
    let mut counts: HashMap<String, u32> = HashMap::new();
    for _ in 0..12 {
        let s = pool
            .run(|id, core, _s| {
                core.clock.advance(if id == "slow" {
                    Duration::from_millis(500)
                } else {
                    Duration::from_millis(10)
                });
                Ok(1)
            })
            .unwrap();
        *counts.entry(s.target).or_default() += 1;
    }
    let fast = counts.get("fast").copied().unwrap_or(0);
    let slow = counts.get("slow").copied().unwrap_or(0);
    assert!(fast > slow, "peak_ewma should shed the slow member: {counts:?}");
}

#[test]
fn weighted_least_in_flight_favors_heavier_under_load() {
    let router: RouterPolicy<String, usize, u16> = RouterPolicy::builder()
        .target(Member::new("heavy".to_string(), 0).weight(double(2.0)))
        .target(Member::new("light".to_string(), 1))
        .select(weighted())
        .advance_when(|_e: &u16| true)
        .try_build()
        .unwrap();
    let mut states = vec![MemberState::new(), MemberState::new()];
    let mut order = Vec::new();
    for _ in 0..6 {
        let loads = loads(&router, &states, &[0, 1]);
        let chosen = router.choose_member(&vec![0, 1], &loads, &mut virtual_core()).unwrap();
        states[chosen].enter();
        order.push(chosen);
    }
    assert_eq!(order.iter().filter(|&&i| i == 0).count(), 4, "{order:?}");
    assert_eq!(order.iter().filter(|&&i| i == 1).count(), 2, "{order:?}");
}

#[test]
fn ties_go_to_the_member_registered_first() {
    let mut pool = Pool::new(&["a", "b", "c"], Pick::least_in_flight(), None);
    assert_eq!(pool.run(|_id, _c, _s| Ok(1)).unwrap().target, "a");
    pool.states[0].enter();
    pool.states[1].enter();
    assert_eq!(pool.run(|_id, _c, _s| Ok(1)).unwrap().target, "c");
    // Zeros of either sign have scores of their own: the negative one is less.
    let mut zeros = Pool::new(
        &["a", "b"],
        Pick::by_score(|c| double(if c.index() == 1 { -0.0 } else { 0.0 })),
        None,
    );
    assert_eq!(zeros.run(|_id, _c, _s| Ok(1)).unwrap().target, "b");
}

#[test]
fn the_order_of_a_sample_does_not_matter() {
    let pool = Pool::new(&["a", "b", "c", "d"], Pick::p2c(), None);
    let healthy = vec![0, 1, 2, 3];
    let loads = loads(&pool.router, &pool.states, &healthy);
    for positions in [vec![3, 1], vec![1, 3]] {
        assert_eq!(pool.router.choose_among(&healthy, &loads, &positions).unwrap(), 1);
    }
}

#[test]
fn samples_are_distinct_and_follow_the_draws() {
    assert_eq!(pick_distinct(4, &vec![3, 5]), vec![3, 0]);
    assert_eq!(pick_distinct(4, &vec![3, 0]), vec![3, 1]);
    assert_eq!(pick_distinct(4, &vec![0, 0, 0]), vec![0, 1, 2]);
    assert_eq!(pick_distinct(3, &vec![4, 1, 7]), vec![1, 2, 0]);
    assert_eq!(pick_distinct(3, &vec![]), Vec::<usize>::new());
    let mut core = virtual_core();
    for _ in 0..200 {
        let s = sample_distinct(5, 3, &mut core);
        let unique: HashSet<usize> = s.iter().copied().collect();
        assert_eq!(unique.len(), 3);
        assert!(s.iter().all(|&i| i < 5));
    }
}

fn cand<'a>(
    id: &'a &'a str,
    index: usize,
    in_flight: usize,
    weight: f64,
    pick_count: u64,
    latency: Option<Duration>,
) -> Candidate<'a, &'a str> {
    Candidate { id, index, in_flight, weight: double(weight), pick_count, latency }
}

#[test]
fn named_strategies_are_compositions_with_the_expected_scores() {
    let name = "a";
    let c = cand(&name, 3, 5, 2.0, 7, Some(Duration::from_millis(100)));

    assert_eq!(value(Pick::first_healthy().score(&c)), 3.0);
    assert_eq!(value(Pick::round_robin().score(&c)), 7.0);
    assert_eq!(value(Pick::least_in_flight().score(&c)), 5.0);
    assert_eq!(value(Pick::p2c().score(&c)), 5.0);
    assert!((value(weighted().score(&c)) - (6.0 / 2.0)).abs() < 1e-9);
    assert!((value(peak_pick().score(&c)) - (0.1 * 6.0)).abs() < 1e-9);
    assert_eq!(*c.id(), "a");
    assert_eq!((c.index(), c.in_flight(), c.pick_count()), (3, 5, 7));
    assert_eq!(value(c.weight()), 2.0);
}

#[test]
fn sampling_sizes_and_meter_flags_are_set_by_the_constructor() {
    assert_eq!(Pick::<&str>::first_healthy().sample(), None);
    assert_eq!(Pick::<&str>::p2c().sample(), Some(2));
    assert_eq!(peak_pick::<&str>().sample(), Some(2));
    assert!(!Pick::<&str>::least_in_flight().requires_meter());
    assert!(peak_pick::<&str>().requires_meter());
    assert!(peak_pick::<&str>().clone().requires_meter());
}

#[test]
fn zero_sample_is_flagged_invalid() {
    let score = |c: &Candidate<'_, &str>| Double::from_count(c.in_flight() as u64);
    assert!(!Pick::<&str>::by_sampled_score(0, score).sample_is_valid());
    assert!(Pick::<&str>::by_sampled_score(2, score).sample_is_valid());
    assert!(Pick::<&str>::by_score(score).sample_is_valid());
}

#[test]
fn no_meter_gives_none_latency_for_custom_scores() {
    let name = "a";
    let c = cand(&name, 0, 0, 1.0, 0, None);
    assert_eq!(c.latency(), None);
}

#[test]
fn a_meter_without_a_reading_reads_zero() {
    let by_latency = || {
        Pick::by_score(|c: &Candidate<'_, String>| match c.latency() {
            Some(l) if l.is_zero() => double(1.0),
            Some(_) => double(2.0),
            None => double(f64::NAN),
        })
    };
    let mut metered = Pool::new(&["a"], by_latency(), Some(peak_meter(Duration::from_secs(1))));
    assert!(metered.run(|_id, _c, _s| Ok(1)).is_ok());
    let mut plain = Pool::new(&["a"], by_latency(), None);
    assert!(matches!(plain.run(|_id, _c, _s| Ok(1)), Err(RouterError::Score { .. })));
}

fn sample_at(latency_ms: u64, at: Instant, last_update: Instant, ok: bool) -> Sample {
    Sample { latency: Duration::from_millis(latency_ms), at, last_update, in_flight: 1, ok }
}

#[test]
fn peak_ewma_ignores_failed_calls() {
    let m = peak_meter(Duration::from_secs(10));
    let t0 = Instant::from_nanos(0);
    // A slow success raises the value.
    let st = m.fold(None, &sample_at(800, t0, t0, true));
    let after_success = value(st.value_secs);
    assert!(after_success >= 0.8, "success should register ~0.8s");
    // A fast failure must not lower it.
    let st2 = m.fold(Some(st), &sample_at(5, t0, st.last_update, false));
    assert!(
        value(st2.value_secs) >= after_success,
        "a fast failure must not make the member look fast"
    );
}

#[test]
fn peak_ewma_rises_with_slow_success_and_takes_the_peak() {
    let m = peak_meter(Duration::from_secs(10));
    let t0 = Instant::from_nanos(0);
    let s1 = m.fold(None, &sample_at(100, t0, t0, true));
    // A much slower success right after: the peak term keeps value >= observed.
    let t1 = t0.saturating_add(Duration::from_millis(10));
    let s2 = m.fold(Some(s1), &sample_at(900, t1, s1.last_update, true));
    assert!(value(s2.value_secs) >= 0.9, "peak term keeps value at/above observed");
}

#[test]
fn a_reading_is_never_below_what_was_observed() {
    // A mixture of no use: the observation counts, and a mixture above it does.
    for (mixture, expected) in
        [(0.0, 0.9), (-4.0, 0.9), (f64::NAN, 0.9), (0.9, 0.9), (1.5, 1.5), (0.95, 0.95)]
    {
        let m = Meter::peak_ewma(
            |d: Duration| double(std_duration(d).as_secs_f64()),
            move |_prev: Double, _dt: Duration, _observed: Double| double(mixture),
        );
        let t0 = Instant::from_nanos(0);
        let first = m.fold(None, &sample_at(100, t0, t0, true));
        assert_eq!(value(first.value_secs), 0.1);
        let next = m.fold(Some(first), &sample_at(900, t0, t0, true));
        assert_eq!(value(next.value_secs), expected, "mixture {mixture}");
    }
}

#[test]
fn nothing_is_drawn_where_all_members_are_scored() {
    for pick in [Pick::first_healthy(), Pick::by_sampled_score(3, |_c| double(1.0))] {
        let mut pool = Pool::new(&["a", "b", "c"], pick, None);
        let before = pool.core.rng.state;
        pool.run(|_id, _c, _s| Ok(1)).unwrap();
        assert_eq!(pool.core.rng.state, before);
    }
    let mut sampled = Pool::new(&["a", "b", "c"], Pick::p2c(), None);
    let mut twin = virtual_core();
    sampled.run(|_id, _c, _s| Ok(1)).unwrap();
    twin.next_u64();
    twin.next_u64();
    assert_eq!(sampled.core.rng.state, twin.rng.state, "two numbers for a sample of two");
}

#[test]
fn first_failure_seeds_neutral_zero() {
    let m = peak_meter(Duration::from_secs(10));
    let t0 = Instant::from_nanos(0);
    let st = m.fold(None, &sample_at(5, t0, t0, false));
    assert_eq!(value(st.value_secs), 0.0, "a never-succeeded member reads neutral 0");
}

#[test]
fn a_reading_halves_over_its_half_life() {
    let m = peak_meter(Duration::from_secs(10));
    let t0 = Instant::from_nanos(0);
    let s1 = m.fold(None, &sample_at(1000, t0, t0, true));
    let t1 = t0.saturating_add(Duration::from_secs(10));
    let s2 = m.fold(Some(s1), &sample_at(0, t1, t0, true));
    assert!((value(s2.value_secs) - 0.5).abs() < 1e-12);
    assert_eq!(s2.last_update, t1);
}

#[test]
fn completed_calls_are_metered_counted_and_released() {
    let meter = Some(Meter::custom(|prev: Option<PeakEwmaState>, s: &Sample| PeakEwmaState {
        value_secs: Double::from_count(
            s.latency.nanos as u64 + 1000 * s.in_flight as u64 + prev.map_or(0, |_| 1_000_000),
        ),
        last_update: s.last_update,
    }));
    let mut s = MemberState::new();
    let t = |n: u128| Instant::from_nanos(n);
    s.enter();
    s.enter();
    s.complete(&meter, t(10), t(25), true);
    s.leave();
    let first = s.meter.unwrap();
    assert_eq!((value(first.value_secs), first.last_update), (2015.0, t(25)));
    s.complete(&meter, t(10), t(40), false);
    s.leave();
    let second = s.meter.unwrap();
    assert_eq!((value(second.value_secs), second.last_update), (1_001_030.0, t(25)));
    assert_eq!((s.in_flight, s.pick_count), (0, 2));
    let mut plain = MemberState::new();
    plain.enter();
    plain.complete(&None, t(0), t(1), true);
    assert!(plain.meter.is_none());
}

#[test]
fn fresh_member_state_starts_zeroed() {
    let s = MemberState::new();
    assert_eq!(s.in_flight, 0);
    assert_eq!(s.pick_count, 0);
    assert!(s.meter.is_none());
}

#[test]
fn new_members_weigh_one() {
    let (id, handle, weight) = Member::new("a", 5u8).into_parts();
    assert_eq!((id, handle, value(weight)), ("a", 5, 1.0));
}

#[test]
fn weight_rejects_zero_negative_and_non_finite() {
    for bad in [0.0, -0.0, -1.0, f64::NAN, f64::INFINITY, f64::NEG_INFINITY] {
        let err = Member::new("a", ()).try_weight(double(bad)).unwrap_err();
        assert_eq!(err.0.to_bits(), bad.to_bits());
    }
    for good in [2.5, 5e-324, f64::MAX] {
        let m = Member::new("a", ()).try_weight(double(good)).unwrap();
        assert_eq!(value(m.into_parts().2), good);
    }
}

#[test]
fn bad_configurations_are_refused() {
    let member = |id: &str| Member::new(id.to_string(), ());
    type Builder = execution_policy::RouterPolicyBuilder<String, (), u16>;
    let verdict = |b: Builder| b.validate();
    let fresh = || RouterPolicy::<String, (), u16>::builder();
    assert_eq!(verdict(fresh()), Err(RouterBuildError::NoTargets));
    assert_eq!(
        verdict(fresh().target(member("a")).target(member("b")).target(member("a"))),
        Err(RouterBuildError::DuplicateId { index: 2 })
    );
    let none = Pick::by_sampled_score(0, |_c| double(0.0));
    assert_eq!(
        verdict(fresh().target(member("a")).select(none)),
        Err(RouterBuildError::EmptySample)
    );
    assert_eq!(
        verdict(fresh().target(member("a")).select(peak_pick())),
        Err(RouterBuildError::MeterRequired)
    );
    assert_eq!(verdict(fresh().target(member("a"))), Err(RouterBuildError::AdvanceWhenRequired));
    let good = fresh()
        .target(member("a"))
        .select(peak_pick())
        .meter(peak_meter(Duration::from_secs(1)))
        .advance_when(|_e: &u16| true)
        .deadline(Duration::from_secs(9));
    assert_eq!(verdict(good), Ok(()));
}

#[test]
fn the_deadline_is_an_hour_unless_set() {
    let build = |b: execution_policy::RouterPolicyBuilder<u8, (), u16>| {
        b.target(Member::new(1, ())).advance_when(|_e: &u16| true).build()
    };
    assert_eq!(build(RouterPolicy::builder()).deadline(), Duration::from_secs(3600));
    let set = RouterPolicy::builder().deadline(Duration::from_secs(5));
    assert_eq!(build(set).deadline(), Duration::from_secs(5));
}
