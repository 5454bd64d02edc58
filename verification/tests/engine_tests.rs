use pimp_my_axis::config::{Axis, AxisConfig};
use pimp_my_axis::engine::{Action, AxisUpdate, Engine, EnginePhase};
use pimp_my_axis::eval::AxisKey;
use pimp_my_axis::graph::{real_axes, DeviceCaps, VirtAxis};
use pimp_my_axis::parser::parse_expr;

fn axis_config(expr: &str) -> AxisConfig {
    AxisConfig {
        min: -32768,
        max: 32767,
        expr: parse_expr(expr).unwrap(),
    }
}

fn virt_axis(id: usize, name: &str, axis: Axis, expr: &str) -> VirtAxis {
    VirtAxis::new(id, name.to_owned(), axis, axis_config(expr))
}

fn key(device: &str, axis: Axis) -> AxisKey {
    AxisKey {
        device: device.to_owned(),
        axis,
    }
}

fn update(device: &str, axis: Axis, new_value: i32) -> AxisUpdate {
    AxisUpdate {
        device: device.to_owned(),
        axis,
        new_value,
    }
}

/// One physical axis with two downstream virtual axes: both are
/// recomputed, and each downstream axis's additional dependency is read
/// at the moment of its own computation, not cached from the first.
#[test]
fn fanout_recomputes_both_downstream_axes_with_fresh_reads() {
    let devs = vec![DeviceCaps {
        name: "phys".to_owned(),
        supported: vec![Axis::X, Axis::Y],
    }];
    let vas = vec![
        virt_axis(0, "virt", Axis::X, "phys:X + phys:Y"),
        virt_axis(0, "virt", Axis::Y, "phys:X * phys:Y"),
    ];
    let graph = real_axes(&devs, &vas).unwrap();
    let mut engine = Engine::new(graph);
    assert_eq!(engine.phase(), EnginePhase::AwaitingUpdate);

    // First downstream axis needs phys:Y.
    let a1 = engine.on_update(update("phys", Axis::X, 10));
    assert_eq!(a1, Action::Read(key("phys", Axis::Y)));
    assert_eq!(engine.phase(), EnginePhase::AwaitingRead);

    let a2 = engine.on_read(Some(5));
    assert_eq!(
        a2,
        Action::Write {
            device_id: 0,
            axis: Axis::X,
            value: 15
        }
    );
    assert_eq!(engine.phase(), EnginePhase::AwaitingWrite);

    // Second downstream axis reads phys:Y again, freshly.
    let a3 = engine.on_write(true);
    assert_eq!(a3, Action::Read(key("phys", Axis::Y)));

    // A different value now: the first read is not reused.
    let a4 = engine.on_read(Some(7));
    assert_eq!(
        a4,
        Action::Write {
            device_id: 0,
            axis: Axis::Y,
            value: 70
        }
    );

    let a5 = engine.on_write(true);
    assert_eq!(a5, Action::AwaitUpdate);
    assert_eq!(engine.phase(), EnginePhase::AwaitingUpdate);
}

/// An update for a physical axis no virtual axis depends on is accepted
/// and produces no work: the engine stays idle.
#[test]
fn update_without_downstream_axes_is_ignored() {
    let devs = vec![DeviceCaps {
        name: "phys".to_owned(),
        supported: vec![Axis::X, Axis::Y],
    }];
    let vas = vec![virt_axis(0, "virt", Axis::X, "phys:X")];
    let graph = real_axes(&devs, &vas).unwrap();
    let mut engine = Engine::new(graph);

    let a = engine.on_update(update("phys", Axis::Y, 3));
    assert_eq!(a, Action::AwaitUpdate);
    assert_eq!(engine.phase(), EnginePhase::AwaitingUpdate);

    let a = engine.on_update(update("stranger", Axis::X, 3));
    assert_eq!(a, Action::AwaitUpdate);
}

/// The triggering value itself is used without a read: an expression
/// whose only dependency is the updated axis goes straight to a write.
#[test]
fn trigger_value_needs_no_read() {
    let devs = vec![DeviceCaps {
        name: "phys".to_owned(),
        supported: vec![Axis::X],
    }];
    let vas = vec![virt_axis(0, "virt", Axis::X, "phys:X * 2")];
    let graph = real_axes(&devs, &vas).unwrap();
    let mut engine = Engine::new(graph);

    let a = engine.on_update(update("phys", Axis::X, 21));
    assert_eq!(
        a,
        Action::Write {
            device_id: 0,
            axis: Axis::X,
            value: 42
        }
    );
    assert_eq!(engine.on_write(true), Action::AwaitUpdate);
}

/// A failed read skips only the affected virtual axis; the fan-out
/// continues with the next one.
#[test]
fn failed_read_skips_one_axis() {
    let devs = vec![DeviceCaps {
        name: "phys".to_owned(),
        supported: vec![Axis::X, Axis::Y],
    }];
    let vas = vec![
        virt_axis(0, "virt", Axis::X, "phys:X + phys:Y"),
        virt_axis(0, "virt", Axis::Y, "phys:X"),
    ];
    let graph = real_axes(&devs, &vas).unwrap();
    let mut engine = Engine::new(graph);

    let a1 = engine.on_update(update("phys", Axis::X, 1));
    assert_eq!(a1, Action::Read(key("phys", Axis::Y)));

    // The read fails: the first virtual axis is skipped, the second
    // still gets its write.
    let a2 = engine.on_read(None);
    assert_eq!(
        a2,
        Action::Write {
            device_id: 0,
            axis: Axis::Y,
            value: 1
        }
    );
    assert_eq!(engine.on_write(true), Action::AwaitUpdate);
}

/// A failed evaluation (division by zero here) skips only the affected
/// virtual axis.
#[test]
fn failed_evaluation_skips_one_axis() {
    let devs = vec![DeviceCaps {
        name: "phys".to_owned(),
        supported: vec![Axis::X],
    }];
    let vas = vec![
        virt_axis(0, "virt", Axis::X, "phys:X / 0"),
        virt_axis(0, "virt", Axis::Y, "phys:X + 1"),
    ];
    let graph = real_axes(&devs, &vas).unwrap();
    let mut engine = Engine::new(graph);

    let a = engine.on_update(update("phys", Axis::X, 9));
    assert_eq!(
        a,
        Action::Write {
            device_id: 0,
            axis: Axis::Y,
            value: 10
        }
    );
    assert_eq!(engine.on_write(true), Action::AwaitUpdate);
}

/// A failed write skips only the affected virtual axis; the engine
/// continues with the remaining downstream axes.
#[test]
fn failed_write_continues_the_fanout() {
    let devs = vec![DeviceCaps {
        name: "phys".to_owned(),
        supported: vec![Axis::X],
    }];
    let vas = vec![
        virt_axis(0, "virt", Axis::X, "phys:X"),
        virt_axis(0, "virt", Axis::Y, "phys:X - 1"),
    ];
    let graph = real_axes(&devs, &vas).unwrap();
    let mut engine = Engine::new(graph);

    let a1 = engine.on_update(update("phys", Axis::X, 5));
    assert_eq!(
        a1,
        Action::Write {
            device_id: 0,
            axis: Axis::X,
            value: 5
        }
    );

    let a2 = engine.on_write(false);
    assert_eq!(
        a2,
        Action::Write {
            device_id: 0,
            axis: Axis::Y,
            value: 4
        }
    );
    assert_eq!(engine.on_write(true), Action::AwaitUpdate);
}

/// Consecutive updates are processed one at a time, each to completion.
#[test]
fn consecutive_updates_run_to_completion() {
    let devs = vec![DeviceCaps {
        name: "phys".to_owned(),
        supported: vec![Axis::X],
    }];
    let vas = vec![virt_axis(0, "virt", Axis::X, "phys:X + 100")];
    let graph = real_axes(&devs, &vas).unwrap();
    let mut engine = Engine::new(graph);

    for v in [1, 2, 3] {
        let a = engine.on_update(update("phys", Axis::X, v));
        assert_eq!(
            a,
            Action::Write {
                device_id: 0,
                axis: Axis::X,
                value: v + 100
            }
        );
        assert_eq!(engine.on_write(true), Action::AwaitUpdate);
    }
}
