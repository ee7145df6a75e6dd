//! The value router and the three-stage scheduler: producers, bindings,
//! the delta guard, and robustness against destroyed records.
use second_order_dynamics::component::DynamicsSource;
use second_order_dynamics::fx::FX_SCALE;
use second_order_dynamics::props::{IdProperty, ScaleProperty, TranslationProperty};
use second_order_dynamics::state::{DynamicsParams, TickMode};
use second_order_dynamics::value::AnimValue;
use second_order_dynamics::world::{non_zero_delta, DynamicsSet, World};
use second_order_dynamics::DynamicsPlugin;

fn fx(x: f64) -> i64 {
    (x * FX_SCALE as f64).round() as i64
}

fn params() -> DynamicsParams {
    DynamicsParams::new(fx(1.0), fx(1.0), 0)
}

#[test]
fn delta_guard() {
    assert!(non_zero_delta(1));
    assert!(non_zero_delta(fx(0.016)));
    assert!(!non_zero_delta(0));
    assert!(!non_zero_delta(-fx(1.0)));
}

#[test]
fn spawn_despawn_handles() {
    let mut w = World::new();
    let a = w.spawn();
    let b = w.spawn();
    assert!(w.valid(a) && w.valid(b));
    assert!(a != b);
    w.despawn(a);
    assert!(!w.valid(a) && w.valid(b));
    // the slot is reused under a new generation: the old handle stays stale
    let c = w.spawn();
    assert!(w.valid(c));
    assert!(!w.valid(a));
    assert!(a != c);
}

#[test]
fn properties_round_trip() {
    let mut w = World::new();
    let e = w.spawn();
    let v = AnimValue::vec3(fx(1.0), fx(2.0), fx(3.0));
    assert!(w.insert_prop(e, TranslationProperty::key(), v));
    assert_eq!(w.get_prop(e, TranslationProperty::key()), Some(v));
    assert_eq!(w.get_prop(e, ScaleProperty::key()), None);
    let v2 = AnimValue::vec3(fx(9.0), 0, 0);
    assert!(w.insert_prop(e, TranslationProperty::key(), v2));
    assert_eq!(w.get_prop(e, TranslationProperty::key()), Some(v2));
    w.despawn(e);
    assert_eq!(w.get_prop(e, TranslationProperty::key()), None);
    assert!(!w.insert_prop(e, TranslationProperty::key(), v));
}

#[test]
fn set_target_checks_handle_and_dimension() {
    let mut w = World::new();
    let h = w.new_filter(AnimValue::scalar(0), params());
    assert!(w.set_target(h, AnimValue::scalar(fx(1.0))));
    assert!(!w.set_target(h, AnimValue::vec2(fx(1.0), 0)));
    let st = w.filter_state(h).unwrap();
    assert_eq!(st.target.x, fx(1.0));
    assert_eq!(st.current.x, 0);
    w.despawn(h.entity);
    assert!(!w.set_target(h, AnimValue::scalar(fx(2.0))));
    assert!(w.filter_state(h).is_none());
}

#[test]
fn plugin_sets_default_mode() {
    let mut w = World::new();
    assert!(w.default_mode.0 == TickMode::Stable);
    let plugin = DynamicsPlugin { default_tick_mode: TickMode::PoleMatching };
    plugin.build(&mut w);
    assert!(w.default_mode.0 == TickMode::PoleMatching);
    let d: DynamicsPlugin = Default::default();
    assert!(d.default_tick_mode == TickMode::Stable);
}

/// A full Read -> Tick -> Write pipeline: the producer's property becomes
/// the filter's target, the filter advances, and the destination property
/// receives the filtered value.
#[test]
fn pipeline_reads_ticks_writes() {
    let mut w = World::new();

    let producer = w.spawn();
    let goal = AnimValue::vec3(fx(1.0), fx(2.0), fx(3.0));
    assert!(w.insert_prop(producer, IdProperty::key(), goal));

    let dest = w.spawn();
    assert!(w.insert_prop(dest, TranslationProperty::key(), AnimValue::vec3(0, 0, 0)));

    let h = w.animate_value(
        AnimValue::vec3(0, 0, 0),
        params(),
        DynamicsSource { producer, key: IdProperty::key() },
    );
    assert!(w.bind_destination(dest, TranslationProperty::key(), h));

    w.dynamics_pass(fx(0.1));
    let st = w.filter_state(h).unwrap();
    assert_eq!(st.target, goal);
    assert_eq!(w.get_prop(dest, TranslationProperty::key()), Some(st.current));

    w.dynamics_pass(fx(0.1));
    let st = w.filter_state(h).unwrap();
    assert!(st.current.x > 0);
    assert_eq!(w.get_prop(dest, TranslationProperty::key()), Some(st.current));
}

/// A pass with a non-positive delta leaves every filter and every
/// property bit-for-bit unchanged.
#[test]
fn zero_delta_skips_everything() {
    let mut w = World::new();
    let producer = w.spawn();
    assert!(w.insert_prop(producer, IdProperty::key(), AnimValue::scalar(fx(7.0))));
    let dest = w.spawn();
    assert!(w.insert_prop(dest, IdProperty::key(), AnimValue::scalar(0)));
    let h = w.animate_value(
        AnimValue::scalar(0),
        params(),
        DynamicsSource { producer, key: IdProperty::key() },
    );
    assert!(w.bind_destination(dest, IdProperty::key(), h));
    w.dynamics_pass(fx(0.25));

    let st_before = w.filter_state(h).unwrap();
    let prop_before = w.get_prop(dest, IdProperty::key());
    w.dynamics_pass(0);
    w.dynamics_pass(-fx(1.0));
    assert!(w.filter_state(h).unwrap() == st_before);
    assert_eq!(w.get_prop(dest, IdProperty::key()), prop_before);
}

/// Destroying one destination must not fail the Write stage and must
/// leave every other binding correctly updated.
#[test]
fn destroyed_destination_skips_write() {
    let mut w = World::new();
    let dest_a = w.spawn();
    let dest_b = w.spawn();
    assert!(w.insert_prop(dest_a, IdProperty::key(), AnimValue::scalar(0)));
    assert!(w.insert_prop(dest_b, IdProperty::key(), AnimValue::scalar(0)));

    let ha = w.new_filter(AnimValue::scalar(0), params());
    let hb = w.new_filter(AnimValue::scalar(0), params());
    assert!(w.set_target(ha, AnimValue::scalar(fx(1.0))));
    assert!(w.set_target(hb, AnimValue::scalar(fx(1.0))));
    assert!(w.bind_destination(dest_a, IdProperty::key(), ha));
    assert!(w.bind_destination(dest_b, IdProperty::key(), hb));

    w.dynamics_pass(fx(0.1));
    w.despawn(dest_a);
    w.dynamics_pass(fx(0.1));

    assert_eq!(w.get_prop(dest_a, IdProperty::key()), None);
    let st_b = w.filter_state(hb).unwrap();
    assert_eq!(w.get_prop(dest_b, IdProperty::key()), Some(st_b.current));
}

/// A producer that disappears leaves its filter's target unchanged, and
/// a destroyed filter makes its binding skip instead of writing.
#[test]
fn stale_producer_and_filter_are_tolerated() {
    let mut w = World::new();
    let producer = w.spawn();
    assert!(w.insert_prop(producer, IdProperty::key(), AnimValue::scalar(fx(4.0))));
    let dest = w.spawn();
    assert!(w.insert_prop(dest, IdProperty::key(), AnimValue::scalar(0)));
    let h = w.animate_value(
        AnimValue::scalar(0),
        params(),
        DynamicsSource { producer, key: IdProperty::key() },
    );
    assert!(w.bind_destination(dest, IdProperty::key(), h));
    w.dynamics_pass(fx(0.1));
    let target_before = w.filter_state(h).unwrap().target;
    assert_eq!(target_before.x, fx(4.0));

    // producer gone: the target keeps its last value
    w.despawn(producer);
    w.dynamics_pass(fx(0.1));
    assert!(w.filter_state(h).unwrap().target == target_before);

    // filter gone: the destination property keeps its last value
    let prop_before = w.get_prop(dest, IdProperty::key());
    w.despawn(h.entity);
    w.dynamics_pass(fx(0.1));
    assert_eq!(w.get_prop(dest, IdProperty::key()), prop_before);
}

/// Rebinding a (destination, kind) pair replaces the previous binding;
/// unbinding it stops the writes.
#[test]
fn rebinding_replaces_and_unbind_stops() {
    let mut w = World::new();
    let dest = w.spawn();
    assert!(w.insert_prop(dest, IdProperty::key(), AnimValue::scalar(0)));
    let h1 = w.new_filter(AnimValue::scalar(fx(1.0)), params());
    let h2 = w.new_filter(AnimValue::scalar(fx(2.0)), params());
    assert!(w.bind_destination(dest, IdProperty::key(), h1));
    assert!(w.bind_destination(dest, IdProperty::key(), h2));

    w.dynamics_pass(fx(0.05));
    let st2 = w.filter_state(h2).unwrap();
    assert_eq!(w.get_prop(dest, IdProperty::key()), Some(st2.current));

    assert!(w.unbind_destination(dest, IdProperty::key()));
    assert!(!w.unbind_destination(dest, IdProperty::key()));
    let prop_before = w.get_prop(dest, IdProperty::key());
    w.dynamics_pass(fx(0.05));
    assert_eq!(w.get_prop(dest, IdProperty::key()), prop_before);
}

/// The stages can be run one at a time, in the Read -> Tick -> Write
/// order, to the same effect as the whole pass.
#[test]
fn staged_run_matches_pass() {
    let dt = fx(0.125);
    let mut staged = World::new();
    let mut whole = World::new();
    for w in [&mut staged, &mut whole] {
        let producer = w.spawn();
        assert!(w.insert_prop(producer, IdProperty::key(), AnimValue::scalar(fx(3.0))));
        let dest = w.spawn();
        assert!(w.insert_prop(dest, IdProperty::key(), AnimValue::scalar(0)));
        let h = w.animate_value(
            AnimValue::scalar(0),
            params(),
            DynamicsSource { producer, key: IdProperty::key() },
        );
        assert!(w.bind_destination(dest, IdProperty::key(), h));
    }
    staged.run_set(DynamicsSet::Read, dt);
    staged.run_set(DynamicsSet::Tick, dt);
    staged.run_set(DynamicsSet::Write, dt);
    whole.run_set(DynamicsSet::All, dt);

    let dest = second_order_dynamics::world::Entity { index: 1, generation: 0 };
    assert_eq!(
        staged.get_prop(dest, IdProperty::key()),
        whole.get_prop(dest, IdProperty::key())
    );
    let h = second_order_dynamics::component::AnimHandle {
        entity: second_order_dynamics::world::Entity { index: 2, generation: 0 },
    };
    assert!(staged.filter_state(h).unwrap() == whole.filter_state(h).unwrap());
}

/// One filter can feed another's target: the first writes its value into
/// a record's property, and the second reads that property as its
/// producer between ticks.
#[test]
fn chained_filters() {
    let mut w = World::new();
    let relay = w.spawn();
    assert!(w.insert_prop(relay, IdProperty::key(), AnimValue::scalar(0)));

    let head = w.new_filter(AnimValue::scalar(0), params());
    assert!(w.set_target(head, AnimValue::scalar(fx(1.0))));
    assert!(w.bind_destination(relay, IdProperty::key(), head));

    let tail = w.animate_value(
        AnimValue::scalar(0),
        params(),
        DynamicsSource { producer: relay, key: IdProperty::key() },
    );

    for _ in 0..3 {
        w.dynamics_pass(fx(0.1));
    }
    let head_state = w.filter_state(head).unwrap();
    let tail_state = w.filter_state(tail).unwrap();
    // the relay holds the head's output, and the tail chases it
    assert_eq!(w.get_prop(relay, IdProperty::key()), Some(head_state.current));
    assert!(head_state.current.x > 0);
    assert!(tail_state.target.x > 0);
    assert!(tail_state.target.x <= head_state.current.x);
}

/// The diagnostic counter reports how many bound write-sites the next
/// Write stage would silently skip.
#[test]
fn skipped_writes_counter() {
    let mut w = World::new();
    let dest = w.spawn();
    assert!(w.insert_prop(dest, IdProperty::key(), AnimValue::scalar(0)));
    assert!(w.insert_prop(dest, ScaleProperty::key(), AnimValue::vec3(0, 0, 0)));
    let h = w.new_filter(AnimValue::scalar(0), params());
    assert!(w.bind_destination(dest, IdProperty::key(), h));
    assert_eq!(w.skipped_writes(), 0);

    // a dimension mismatch is a silent skip
    assert!(w.bind_destination(dest, ScaleProperty::key(), h));
    assert_eq!(w.skipped_writes(), 1);

    // a destroyed filter makes its binding skip too
    w.despawn(h.entity);
    assert_eq!(w.skipped_writes(), 2);

    // a destroyed destination is not counted: nothing is bound any more
    w.despawn(dest);
    assert_eq!(w.skipped_writes(), 0);
}
