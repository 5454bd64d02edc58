use pimp_my_axis::config::{
    default_product_id, default_vendor_id, default_virt_name, Axis, AxisConfig, Config,
    VirtDeviceConfig,
};
use pimp_my_axis::eval::AxisKey;
use pimp_my_axis::graph::{real_axes, virt_axes, DeviceCaps, GraphBuildError, VirtAxis};
use pimp_my_axis::parser::parse_expr;

fn axis_config(expr: &str) -> AxisConfig {
    AxisConfig {
        min: -32768,
        max: 32767,
        expr: parse_expr(expr).unwrap(),
    }
}

fn caps(name: &str, axes: &[Axis]) -> DeviceCaps {
    DeviceCaps {
        name: name.to_owned(),
        supported: axes.to_vec(),
    }
}

fn virt_axis(id: usize, name: &str, axis: Axis, expr: &str) -> VirtAxis {
    VirtAxis::new(id, name.to_owned(), axis, axis_config(expr))
}

fn key(device: &str, axis: Axis) -> AxisKey {
    AxisKey {
        device: device.to_owned(),
        axis,
    }
}

#[test]
fn builds_the_fanout_per_physical_axis() {
    let devs = vec![caps("phys", &[Axis::X, Axis::Y])];
    let vas = vec![
        virt_axis(0, "virt", Axis::X, "phys:X + phys:Y"),
        virt_axis(0, "virt", Axis::Y, "phys:X * 2"),
    ];
    let graph = real_axes(&devs, &vas).unwrap();

    assert_eq!(graph.entries.len(), 2);
    let ex = &graph.entries[0];
    assert_eq!(ex.device, "phys");
    assert_eq!(ex.axis, Axis::X);
    assert_eq!(ex.downstream.len(), 2);
    assert_eq!(ex.downstream[0].axis, Axis::X);
    assert_eq!(ex.downstream[1].axis, Axis::Y);

    let ey = &graph.entries[1];
    assert_eq!(ey.device, "phys");
    assert_eq!(ey.axis, Axis::Y);
    assert_eq!(ey.downstream.len(), 1);
    assert_eq!(ey.downstream[0].axis, Axis::X);
}

#[test]
fn undefined_device_is_rejected() {
    let devs = vec![caps("phys", &[Axis::X])];
    let vas = vec![virt_axis(0, "virt", Axis::X, "ghost:X + 1")];
    let err = real_axes(&devs, &vas).unwrap_err();
    match err {
        GraphBuildError::UndefinedDevice { device } => assert_eq!(device, "ghost"),
        other => panic!("expected UndefinedDevice, got {:?}", other),
    }
}

#[test]
fn referencing_a_virtual_device_is_undefined_device() {
    // Virtual-to-virtual chaining is not supported: a reference to
    // another virtual device is treated as an undefined device.
    let devs = vec![caps("phys", &[Axis::X])];
    let vas = vec![
        virt_axis(0, "virt", Axis::X, "phys:X"),
        virt_axis(0, "virt", Axis::Y, "virt:X + 1"),
    ];
    assert!(matches!(
        real_axes(&devs, &vas),
        Err(GraphBuildError::UndefinedDevice { .. })
    ));
}

#[test]
fn unsupported_axis_is_rejected() {
    let devs = vec![caps("phys", &[Axis::X])];
    let vas = vec![virt_axis(0, "virt", Axis::X, "phys:Brake")];
    let err = real_axes(&devs, &vas).unwrap_err();
    match err {
        GraphBuildError::UnsupportedAxis { device, axis } => {
            assert_eq!(device, "phys");
            assert_eq!(axis, Axis::Brake);
        }
        other => panic!("expected UnsupportedAxis, got {:?}", other),
    }
}

#[test]
fn duplicate_downstream_entries_are_not_appended_twice() {
    let devs = vec![caps("phys", &[Axis::X])];
    // The same virtual axis handed in twice: its second registration
    // finds a matching downstream entry and leaves the list unchanged.
    let vas = vec![
        virt_axis(0, "virt", Axis::X, "phys:X"),
        virt_axis(0, "virt", Axis::X, "phys:X"),
    ];
    let graph = real_axes(&devs, &vas).unwrap();
    assert_eq!(graph.entries.len(), 1);
    assert_eq!(graph.entries[0].downstream.len(), 1);
}

#[test]
fn unreferenced_physical_axes_get_no_entry() {
    let devs = vec![caps("phys", &[Axis::X, Axis::Y, Axis::Z])];
    let vas = vec![virt_axis(0, "virt", Axis::X, "phys:Z")];
    let graph = real_axes(&devs, &vas).unwrap();
    assert_eq!(graph.entries.len(), 1);
    assert!(graph.lookup(&key("phys", Axis::Z)).is_some());
    assert!(graph.lookup(&key("phys", Axis::X)).is_none());
    assert!(graph.lookup(&key("other", Axis::Z)).is_none());
}

#[test]
fn virt_axes_assigns_device_indices_as_ids() {
    let config = Config {
        real_devices: Vec::new(),
        virt_devices: vec![
            (
                "a".to_owned(),
                VirtDeviceConfig {
                    name: default_virt_name(),
                    vendor_id: default_vendor_id(),
                    product_id: default_product_id(),
                    axes: vec![
                        (Axis::X, axis_config("phys:X")),
                        (Axis::Y, axis_config("phys:Y")),
                    ],
                },
            ),
            (
                "b".to_owned(),
                VirtDeviceConfig {
                    name: "Other".to_owned(),
                    vendor_id: 1,
                    product_id: 2,
                    axes: vec![(Axis::Wheel, axis_config("phys:Wheel"))],
                },
            ),
        ],
    };
    let vas = virt_axes(&config);
    assert_eq!(vas.len(), 3);
    assert_eq!(vas[0].device_id, 0);
    assert_eq!(vas[0].device_name, "a");
    assert_eq!(vas[0].axis, Axis::X);
    assert_eq!(vas[1].device_id, 0);
    assert_eq!(vas[1].axis, Axis::Y);
    assert_eq!(vas[2].device_id, 1);
    assert_eq!(vas[2].device_name, "b");
    assert_eq!(vas[2].axis, Axis::Wheel);
}

#[test]
fn defaults_match_the_documented_values() {
    assert_eq!(default_virt_name(), "Pimp-My-Axis Device");
    assert_eq!(default_vendor_id(), 0x1209);
    assert_eq!(default_product_id(), 0x0001);
}
