//! Configuration data model: the canonical axis enumeration and the
//! plain-value description of physical and virtual devices that the
//! dependency-graph builder consumes.

use vstd::prelude::*;

use crate::expr::{AxisExpression, ExprModel};

verus! {

/// The closed enumeration of the eleven canonical axis kinds.
#[derive(Clone, Copy, Debug, PartialEq, Eq, Structural, Hash)]
pub enum Axis {
    X,
    Y,
    Z,
    RX,
    RY,
    RZ,
    Throttle,
    Rudder,
    Wheel,
    Gas,
    Brake,
}

/// The canonical, case-sensitive name of each axis, as it appears in
/// expression strings.
pub open spec fn spec_axis_name(a: Axis) -> Seq<char> {
    match a {
        Axis::X => "X"@,
        Axis::Y => "Y"@,
        Axis::Z => "Z"@,
        Axis::RX => "RX"@,
        Axis::RY => "RY"@,
        Axis::RZ => "RZ"@,
        Axis::Throttle => "Throttle"@,
        Axis::Rudder => "Rudder"@,
        Axis::Wheel => "Wheel"@,
        Axis::Gas => "Gas"@,
        Axis::Brake => "Brake"@,
    }
}

/// The axis named by `s`, if `s` is one of the eleven canonical names
/// (exact, case-sensitive match).
pub open spec fn spec_axis_from_name(s: Seq<char>) -> Option<Axis> {
    if s == "X"@ {
        Some(Axis::X)
    } else if s == "Y"@ {
        Some(Axis::Y)
    } else if s == "Z"@ {
        Some(Axis::Z)
    } else if s == "RX"@ {
        Some(Axis::RX)
    } else if s == "RY"@ {
        Some(Axis::RY)
    } else if s == "RZ"@ {
        Some(Axis::RZ)
    } else if s == "Throttle"@ {
        Some(Axis::Throttle)
    } else if s == "Rudder"@ {
        Some(Axis::Rudder)
    } else if s == "Wheel"@ {
        Some(Axis::Wheel)
    } else if s == "Gas"@ {
        Some(Axis::Gas)
    } else if s == "Brake"@ {
        Some(Axis::Brake)
    } else {
        None
    }
}

/// Exact string equality, stated over the views.
pub(crate) fn str_eq(a: &str, b: &str) -> (r: bool)
    ensures
        r == (a@ == b@),
{
    let sa: String = a.to_owned();
    let sb: String = b.to_owned();
    sa == sb
}

impl Axis {
    /// Parses one of the eleven canonical axis names; any other string
    /// yields `None`.
    pub fn from_str(s: &str) -> (r: Option<Axis>)
        ensures
            r == spec_axis_from_name(s@),
    {
        if str_eq(s, "X") {
            Some(Axis::X)
        } else if str_eq(s, "Y") {
            Some(Axis::Y)
        } else if str_eq(s, "Z") {
            Some(Axis::Z)
        } else if str_eq(s, "RX") {
            Some(Axis::RX)
        } else if str_eq(s, "RY") {
            Some(Axis::RY)
        } else if str_eq(s, "RZ") {
            Some(Axis::RZ)
        } else if str_eq(s, "Throttle") {
            Some(Axis::Throttle)
        } else if str_eq(s, "Rudder") {
            Some(Axis::Rudder)
        } else if str_eq(s, "Wheel") {
            Some(Axis::Wheel)
        } else if str_eq(s, "Gas") {
            Some(Axis::Gas)
        } else if str_eq(s, "Brake") {
            Some(Axis::Brake)
        } else {
            None
        }
    }

    /// The canonical name of this axis, for diagnostics.
    pub fn name(&self) -> (r: String)
        ensures
            r@ == spec_axis_name(*self),
    {
        match self {
            Axis::X => "X".to_owned(),
            Axis::Y => "Y".to_owned(),
            Axis::Z => "Z".to_owned(),
            Axis::RX => "RX".to_owned(),
            Axis::RY => "RY".to_owned(),
            Axis::RZ => "RZ".to_owned(),
            Axis::Throttle => "Throttle".to_owned(),
            Axis::Rudder => "Rudder".to_owned(),
            Axis::Wheel => "Wheel".to_owned(),
            Axis::Gas => "Gas".to_owned(),
            Axis::Brake => "Brake".to_owned(),
        }
    }
}

/// Range metadata plus the governing expression of one virtual axis.
#[derive(Debug)]
pub struct AxisConfig {
    pub min: i32,
    pub max: i32,
    pub expr: AxisExpression,
}

/// Mathematical model of an `AxisConfig`.
pub struct AxisConfigModel {
    pub min: int,
    pub max: int,
    pub expr: ExprModel,
}

impl View for AxisConfig {
    type V = AxisConfigModel;

    open spec fn view(&self) -> AxisConfigModel {
        AxisConfigModel { min: self.min as int, max: self.max as int, expr: self.expr@ }
    }
}

impl Clone for AxisConfig {
    fn clone(&self) -> (r: Self)
        ensures
            r@ == self@,
    {
        AxisConfig { min: self.min, max: self.max, expr: self.expr.clone() }
    }
}

/// How a physical device entry in the configuration is matched to live
/// hardware. Opaque to the core: the device path is carried as a plain
/// string and resolved outside.
#[derive(Debug)]
pub enum RealDeviceMatcher {
    Path(String),
    VendorAndProduct { vendor_id: u16, product_id: u16 },
}

/// Mathematical model of a `RealDeviceMatcher`.
pub enum MatcherModel {
    Path(Seq<char>),
    VendorAndProduct { vendor_id: int, product_id: int },
}

impl View for RealDeviceMatcher {
    type V = MatcherModel;

    open spec fn view(&self) -> MatcherModel {
        match self {
            RealDeviceMatcher::Path(p) => MatcherModel::Path(p@),
            RealDeviceMatcher::VendorAndProduct { vendor_id, product_id } => {
                MatcherModel::VendorAndProduct {
                    vendor_id: *vendor_id as int,
                    product_id: *product_id as int,
                }
            },
        }
    }
}

impl Clone for RealDeviceMatcher {
    fn clone(&self) -> (r: Self)
        ensures
            r@ == self@,
    {
        match self {
            RealDeviceMatcher::Path(p) => RealDeviceMatcher::Path(p.clone()),
            RealDeviceMatcher::VendorAndProduct { vendor_id, product_id } => {
                RealDeviceMatcher::VendorAndProduct {
                    vendor_id: *vendor_id,
                    product_id: *product_id,
                }
            },
        }
    }
}

/// One virtual output device: its presentation metadata and the axes it
/// exposes, each governed by an expression. Axis kinds are unique within
/// one device.
#[derive(Debug)]
pub struct VirtDeviceConfig {
    pub name: String,
    pub vendor_id: u16,
    pub product_id: u16,
    pub axes: Vec<(Axis, AxisConfig)>,
}

/// Mathematical model of a `VirtDeviceConfig`.
pub struct VirtDeviceConfigModel {
    pub name: Seq<char>,
    pub vendor_id: int,
    pub product_id: int,
    pub axes: Seq<(Axis, AxisConfigModel)>,
}

impl View for VirtDeviceConfig {
    type V = VirtDeviceConfigModel;

    open spec fn view(&self) -> VirtDeviceConfigModel {
        VirtDeviceConfigModel {
            name: self.name@,
            vendor_id: self.vendor_id as int,
            product_id: self.product_id as int,
            axes: self.axes@.map_values(|ac: (Axis, AxisConfig)| (ac.0, ac.1@)),
        }
    }
}

/// The whole configuration: named physical devices with their matchers,
/// and named virtual devices with their axes.
#[derive(Debug)]
pub struct Config {
    pub real_devices: Vec<(String, RealDeviceMatcher)>,
    pub virt_devices: Vec<(String, VirtDeviceConfig)>,
}

/// Mathematical model of a `Config`.
pub struct ConfigModel {
    pub real_devices: Seq<(Seq<char>, MatcherModel)>,
    pub virt_devices: Seq<(Seq<char>, VirtDeviceConfigModel)>,
}

impl View for Config {
    type V = ConfigModel;

    open spec fn view(&self) -> ConfigModel {
        ConfigModel {
            real_devices: self.real_devices@.map_values(
                |rm: (String, RealDeviceMatcher)| (rm.0@, rm.1@),
            ),
            virt_devices: self.virt_devices@.map_values(
                |vc: (String, VirtDeviceConfig)| (vc.0@, vc.1@),
            ),
        }
    }
}

/// Well-formedness of a configuration: device names are unique within
/// their domain (physical and virtual separately), and axis kinds are
/// unique within one virtual device.
pub open spec fn config_wf(c: ConfigModel) -> bool {
    &&& forall|i: int, j: int|
        0 <= i < j < c.real_devices.len() ==> (#[trigger] c.real_devices[i]).0 != (
        #[trigger] c.real_devices[j]).0
    &&& forall|i: int, j: int|
        0 <= i < j < c.virt_devices.len() ==> (#[trigger] c.virt_devices[i]).0 != (
        #[trigger] c.virt_devices[j]).0
    &&& forall|d: int, i: int, j: int|
        0 <= d < c.virt_devices.len() && 0 <= i < j < c.virt_devices[d].1.axes.len() ==> (
        #[trigger] c.virt_devices[d].1.axes[i]).0 != (#[trigger] c.virt_devices[d].1.axes[j]).0
}

/// Display name given to a virtual device when the configuration names none.
pub fn default_virt_name() -> (r: String)
    ensures
        r@ == "Pimp-My-Axis Device"@,
{
    "Pimp-My-Axis Device".to_owned()
}

/// Vendor id given to a virtual device when the configuration names none.
pub fn default_vendor_id() -> (r: u16)
    ensures
        r == 0x1209,
{
    0x1209
}

/// Product id given to a virtual device when the configuration names none.
pub fn default_product_id() -> (r: u16)
    ensures
        r == 0x0001,
{
    0x0001
}

} // verus!
