//! The dependency graph: for every referenced physical axis, the
//! ordered collection of downstream virtual axes that must be recomputed
//! when that axis changes.
//!
//! Building the graph validates the whole configuration: every
//! referenced device must be a defined physical device and must support
//! the referenced axis; any failure rejects the configuration wholesale.

use vstd::prelude::*;

use crate::config::{
    config_wf, Axis, AxisConfig, AxisConfigModel, Config, ConfigModel, VirtDeviceConfigModel,
};
use crate::eval::{keys_model, spec_dependencies, AxisKey, KeyModel};

verus! {

/// A virtual axis: the arena id of its owning virtual device (one
/// virtual device may host several axes), the device's configured name,
/// the axis it represents, and its range/expression configuration.
#[derive(Debug)]
pub struct VirtAxis {
    pub device_id: usize,
    pub device_name: String,
    pub axis: Axis,
    pub config: AxisConfig,
}

/// Mathematical model of a `VirtAxis`.
pub struct VirtAxisModel {
    pub device_id: int,
    pub device_name: Seq<char>,
    pub axis: Axis,
    pub config: AxisConfigModel,
}

impl View for VirtAxis {
    type V = VirtAxisModel;

    open spec fn view(&self) -> VirtAxisModel {
        VirtAxisModel {
            device_id: self.device_id as int,
            device_name: self.device_name@,
            axis: self.axis,
            config: self.config@,
        }
    }
}

impl Clone for VirtAxis {
    fn clone(&self) -> (r: Self)
        ensures
            r@ == self@,
    {
        VirtAxis {
            device_id: self.device_id,
            device_name: self.device_name.clone(),
            axis: self.axis,
            config: self.config.clone(),
        }
    }
}

/// The identity by which downstream entries are deduplicated: same
/// virtual device, same axis, same governing expression.
pub open spec fn va_matches(a: VirtAxisModel, b: VirtAxisModel) -> bool {
    a.device_id == b.device_id && a.axis == b.axis && a.config.expr == b.config.expr
}

impl VirtAxis {
    /// Builds a virtual axis handle.
    pub fn new(device_id: usize, device_name: String, axis: Axis, config: AxisConfig) -> (r:
        VirtAxis)
        ensures
            r@ == (VirtAxisModel {
                device_id: device_id as int,
                device_name: device_name@,
                axis,
                config: config@,
            }),
    {
        VirtAxis { device_id, device_name, axis, config }
    }

    /// Whether `self` and `other` are the same downstream entry: same
    /// virtual device, same axis, same expression.
    pub fn matches(&self, other: &VirtAxis) -> (r: bool)
        ensures
            r == va_matches(self@, other@),
    {
        self.device_id == other.device_id && self.axis == other.axis && self.config.expr.matches(
            &other.config.expr,
        )
    }
}

/// The models of a sequence of virtual axes.
pub open spec fn vas_model(s: Seq<VirtAxis>) -> Seq<VirtAxisModel> {
    s.map_values(|v: VirtAxis| v@)
}

/// A physical axis under observation: its owning device's name, the
/// axis, and the ordered downstream virtual axes, each appearing at
/// most once.
#[derive(Debug)]
pub struct RealAxis {
    pub device: String,
    pub axis: Axis,
    pub downstream: Vec<VirtAxis>,
}

/// Mathematical model of a `RealAxis`.
pub struct RealAxisModel {
    pub device: Seq<char>,
    pub axis: Axis,
    pub downstream: Seq<VirtAxisModel>,
}

impl View for RealAxis {
    type V = RealAxisModel;

    open spec fn view(&self) -> RealAxisModel {
        RealAxisModel {
            device: self.device@,
            axis: self.axis,
            downstream: vas_model(self.downstream@),
        }
    }
}

impl RealAxis {
    /// A freshly observed physical axis with no downstream entries yet.
    pub fn new(device: String, axis: Axis) -> (r: RealAxis)
        ensures
            r@ == (RealAxisModel { device: device@, axis, downstream: Seq::empty() }),
    {
        let r = RealAxis { device, axis, downstream: Vec::new() };
        proof {
            assert(vas_model(r.downstream@) =~= Seq::<VirtAxisModel>::empty());
        }
        r
    }
}

/// The key of a graph entry.
pub open spec fn entry_key(e: RealAxisModel) -> KeyModel {
    (e.device, e.axis)
}

/// What the graph builder knows of one physical device: its name and
/// the axes it supports.
#[derive(Debug)]
pub struct DeviceCaps {
    pub name: String,
    pub supported: Vec<Axis>,
}

/// Mathematical model of a `DeviceCaps`.
pub struct DeviceCapsModel {
    pub name: Seq<char>,
    pub supported: Seq<Axis>,
}

impl View for DeviceCaps {
    type V = DeviceCapsModel;

    open spec fn view(&self) -> DeviceCapsModel {
        DeviceCapsModel { name: self.name@, supported: self.supported@ }
    }
}

/// The models of a sequence of device capabilities.
pub open spec fn caps_model(s: Seq<DeviceCaps>) -> Seq<DeviceCapsModel> {
    s.map_values(|c: DeviceCaps| c@)
}

/// Physical device names are unique within their domain.
pub open spec fn caps_wf(caps: Seq<DeviceCapsModel>) -> bool {
    forall|i: int, j: int| 0 <= i < j < caps.len() ==> caps[i].name != caps[j].name
}

/// Whether `dev` names a defined physical device.
pub open spec fn device_defined(caps: Seq<DeviceCapsModel>, dev: Seq<char>) -> bool {
    exists|i: int| 0 <= i < caps.len() && caps[i].name == dev
}

/// Whether the physical device `dev` supports `axis`.
pub open spec fn device_supports(caps: Seq<DeviceCapsModel>, dev: Seq<char>, axis: Axis) -> bool {
    exists|i: int| 0 <= i < caps.len() && caps[i].name == dev && caps[i].supported.contains(axis)
}

/// A configuration rejected at graph-build time.
#[derive(Debug, PartialEq, Eq)]
pub enum GraphBuildError {
    /// An expression references a device that is not a defined physical
    /// device (referencing a virtual device is this same error).
    UndefinedDevice { device: String },
    /// An expression references an axis the physical device does not
    /// support.
    UnsupportedAxis { device: String, axis: Axis },
}

/// Mathematical model of a `GraphBuildError`.
pub enum GraphBuildErrorModel {
    UndefinedDevice { device: Seq<char> },
    UnsupportedAxis { device: Seq<char>, axis: Axis },
}

impl View for GraphBuildError {
    type V = GraphBuildErrorModel;

    open spec fn view(&self) -> GraphBuildErrorModel {
        match self {
            GraphBuildError::UndefinedDevice { device } => GraphBuildErrorModel::UndefinedDevice {
                device: device@,
            },
            GraphBuildError::UnsupportedAxis { device, axis } => {
                GraphBuildErrorModel::UnsupportedAxis { device: device@, axis: *axis }
            },
        }
    }
}

/// The mapping from physical axis keys to their graph entries.
#[derive(Debug)]
pub struct DependencyGraph {
    pub entries: Vec<RealAxis>,
}

/// The models of a graph's entries.
pub open spec fn graph_model(g: Seq<RealAxis>) -> Seq<RealAxisModel> {
    g.map_values(|e: RealAxis| e@)
}

impl View for DependencyGraph {
    type V = Seq<RealAxisModel>;

    open spec fn view(&self) -> Seq<RealAxisModel> {
        graph_model(self.entries@)
    }
}

/// Index of the first entry with key `k`, or `-1` if there is none.
pub open spec fn entry_index(g: Seq<RealAxisModel>, k: KeyModel) -> int
    decreases g.len(),
{
    if g.len() == 0 {
        -1
    } else if entry_key(g[0]) == k {
        0
    } else {
        let r = entry_index(g.skip(1), k);
        if r < 0 {
            -1
        } else {
            1 + r
        }
    }
}

/// What `entry_index` returns: a valid first index, or `-1` exactly
/// when no entry has the key.
pub proof fn lemma_entry_index(g: Seq<RealAxisModel>, k: KeyModel)
    ensures
        entry_index(g, k) == -1 ==> forall|i: int|
            0 <= i < g.len() ==> entry_key(#[trigger] g[i]) != k,
        entry_index(g, k) != -1 ==> 0 <= entry_index(g, k) < g.len() && entry_key(
            g[entry_index(g, k)],
        ) == k && forall|i: int| 0 <= i < entry_index(g, k) ==> entry_key(#[trigger] g[i]) != k,
    decreases g.len(),
{
    if g.len() > 0 && entry_key(g[0]) != k {
        lemma_entry_index(g.skip(1), k);
        assert(forall|i: int| 1 <= i < g.len() ==> g.skip(1)[i - 1] == #[trigger] g[i]);
    }
}

/// Whether `ds` already holds an entry matching `va`.
pub open spec fn downstream_has(ds: Seq<VirtAxisModel>, va: VirtAxisModel) -> bool {
    exists|j: int| 0 <= j < ds.len() && va_matches(ds[j], va)
}

/// Registers the dependency of `va` on the physical axis `k`: validates
/// the reference, then gets or creates the graph entry for `k` and
/// appends `va` to its downstream list unless a matching entry already
/// stands there.
pub open spec fn add_dep(
    g: Seq<RealAxisModel>,
    caps: Seq<DeviceCapsModel>,
    va: VirtAxisModel,
    k: KeyModel,
) -> Result<Seq<RealAxisModel>, GraphBuildErrorModel> {
    if !device_defined(caps, k.0) {
        Err(GraphBuildErrorModel::UndefinedDevice { device: k.0 })
    } else if !device_supports(caps, k.0, k.1) {
        Err(GraphBuildErrorModel::UnsupportedAxis { device: k.0, axis: k.1 })
    } else {
        let i = entry_index(g, k);
        if i < 0 {
            Ok(g.push(RealAxisModel { device: k.0, axis: k.1, downstream: seq![va] }))
        } else if downstream_has(g[i].downstream, va) {
            Ok(g)
        } else {
            Ok(
                g.update(
                    i,
                    RealAxisModel {
                        device: g[i].device,
                        axis: g[i].axis,
                        downstream: g[i].downstream.push(va),
                    },
                ),
            )
        }
    }
}

/// Registers all dependencies of `va`, left to right, failing fast.
pub open spec fn add_deps(
    g: Seq<RealAxisModel>,
    caps: Seq<DeviceCapsModel>,
    va: VirtAxisModel,
    deps: Seq<KeyModel>,
) -> Result<Seq<RealAxisModel>, GraphBuildErrorModel>
    decreases deps.len(),
{
    if deps.len() == 0 {
        Ok(g)
    } else {
        match add_dep(g, caps, va, deps[0]) {
            Err(e) => Err(e),
            Ok(g2) => add_deps(g2, caps, va, deps.skip(1)),
        }
    }
}

/// Extends `g` with the dependencies of every virtual axis of `vas`, in
/// order, failing fast.
pub open spec fn build_graph(
    g: Seq<RealAxisModel>,
    caps: Seq<DeviceCapsModel>,
    vas: Seq<VirtAxisModel>,
) -> Result<Seq<RealAxisModel>, GraphBuildErrorModel>
    decreases vas.len(),
{
    if vas.len() == 0 {
        Ok(g)
    } else {
        match add_deps(g, caps, vas[0], spec_dependencies(vas[0].config.expr)) {
            Err(e) => Err(e),
            Ok(g2) => build_graph(g2, caps, vas.skip(1)),
        }
    }
}

/// The dependency graph of a validated configuration: built from
/// nothing by registering every virtual axis's dependencies.
pub open spec fn spec_real_axes(
    caps: Seq<DeviceCapsModel>,
    vas: Seq<VirtAxisModel>,
) -> Result<Seq<RealAxisModel>, GraphBuildErrorModel> {
    build_graph(Seq::empty(), caps, vas)
}

impl DependencyGraph {
    /// Index of the graph entry for `key`, if that physical axis has
    /// downstream virtual axes.
    pub fn lookup(&self, key: &AxisKey) -> (r: Option<usize>)
        ensures
            match r {
                Some(i) => entry_index(self@, key@) == i as int && i < self@.len(),
                None => entry_index(self@, key@) == -1,
            },
    {
        let mut i: usize = 0;
        while i < self.entries.len()
            invariant
                i <= self.entries@.len(),
                forall|j: int| 0 <= j < i ==> entry_key(#[trigger] self@[j]) != key@,
            decreases self.entries@.len() - i,
        {
            let e = &self.entries[i];
            let ek = AxisKey { device: e.device.clone(), axis: e.axis };
            if ek.key_eq(key) {
                proof {
                    lemma_entry_index(self@, key@);
                    assert(entry_key(self@[i as int]) == key@);
                    if entry_index(self@, key@) == -1 {
                        assert(false);
                    }
                    let fi = entry_index(self@, key@);
                    if fi < i {
                        assert(entry_key(self@[fi]) != key@);
                        assert(false);
                    }
                    if fi > i {
                        assert(entry_key(self@[i as int]) != key@);
                        assert(false);
                    }
                }
                return Some(i);
            }
            i = i + 1;
        }
        proof {
            lemma_entry_index(self@, key@);
            if entry_index(self@, key@) != -1 {
                assert(entry_key(self@[entry_index(self@, key@)]) == key@);
                assert(false);
            }
        }
        None
    }
}

/// Index of the physical device named `dev`, if it is defined.
fn find_device(real_devs: &Vec<DeviceCaps>, dev: &String) -> (r: Option<usize>)
    ensures
        match r {
            Some(i) => i < real_devs@.len() && caps_model(real_devs@)[i as int].name == dev@,
            None => !device_defined(caps_model(real_devs@), dev@),
        },
{
    let mut i: usize = 0;
    while i < real_devs.len()
        invariant
            i <= real_devs@.len(),
            forall|j: int| 0 <= j < i ==> caps_model(real_devs@)[j].name != dev@,
        decreases real_devs@.len() - i,
    {
        if real_devs[i].name == *dev {
            return Some(i);
        }
        i = i + 1;
    }
    None
}

/// Whether this device supports `axis`.
fn device_has_axis(d: &DeviceCaps, axis: Axis) -> (r: bool)
    ensures
        r == d@.supported.contains(axis),
{
    let mut i: usize = 0;
    while i < d.supported.len()
        invariant
            i <= d.supported@.len(),
            forall|j: int| 0 <= j < i ==> d.supported@[j] != axis,
        decreases d.supported@.len() - i,
    {
        if d.supported[i] == axis {
            return true;
        }
        i = i + 1;
    }
    false
}

/// Whether `ds` already holds an entry matching `va`.
fn downstream_contains(ds: &Vec<VirtAxis>, va: &VirtAxis) -> (r: bool)
    ensures
        r == downstream_has(vas_model(ds@), va@),
{
    let mut i: usize = 0;
    while i < ds.len()
        invariant
            i <= ds@.len(),
            forall|j: int| 0 <= j < i ==> !va_matches(vas_model(ds@)[j], va@),
        decreases ds@.len() - i,
    {
        if ds[i].matches(va) {
            proof {
                assert(va_matches(vas_model(ds@)[i as int], va@));
            }
            return true;
        }
        i = i + 1;
    }
    false
}

/// Builds the dependency graph for the given physical capabilities and
/// virtual axes: for each virtual axis, each of its dependencies is
/// validated (the device must be defined and must support the axis) and
/// the axis is appended to the dependency's downstream list unless a
/// matching entry already stands there. Any validation failure rejects
/// the whole configuration.
#[verifier::rlimit(60)]
pub fn real_axes(real_devs: &Vec<DeviceCaps>, virt: &Vec<VirtAxis>) -> (r: Result<
    DependencyGraph,
    GraphBuildError,
>)
    requires
        caps_wf(caps_model(real_devs@)),
    ensures
        match r {
            Ok(g) => spec_real_axes(caps_model(real_devs@), vas_model(virt@)) == Ok::<
                _,
                GraphBuildErrorModel,
            >(g@) && caps_wf(caps_model(real_devs@)),
            Err(e) => spec_real_axes(caps_model(real_devs@), vas_model(virt@)) == Err::<
                Seq<RealAxisModel>,
                _,
            >(e@),
        },
{
    let ghost capsm = caps_model(real_devs@);
    let ghost vasm = vas_model(virt@);
    let mut g = DependencyGraph { entries: Vec::new() };
    proof {
        assert(graph_model(g.entries@) =~= Seq::<RealAxisModel>::empty());
        assert(vasm.skip(0) =~= vasm);
    }
    let mut vi: usize = 0;
    while vi < virt.len()
        invariant
            vi <= virt@.len(),
            caps_wf(capsm),
            capsm == caps_model(real_devs@),
            vasm == vas_model(virt@),
            spec_real_axes(capsm, vasm) == build_graph(g@, capsm, vasm.skip(vi as int)),
        decreases virt@.len() - vi,
    {
        let deps: Vec<AxisKey> = virt[vi].config.expr.dependencies();
        let ghost depsm = keys_model(deps@);
        proof {
            assert(vasm.skip(vi as int)[0] == vasm[vi as int]);
            assert(vasm.skip(vi as int).skip(1) =~= vasm.skip(vi + 1));
            assert(depsm.skip(0) =~= depsm);
            assert(depsm == spec_dependencies(vasm[vi as int].config.expr));
        }
        let mut di: usize = 0;
        while di < deps.len()
            invariant
                di <= deps@.len(),
                vi < virt@.len(),
                caps_wf(capsm),
                capsm == caps_model(real_devs@),
                vasm == vas_model(virt@),
                depsm == keys_model(deps@),
                depsm == spec_dependencies(vasm[vi as int].config.expr),
                virt@[vi as int]@ == vasm[vi as int],
                spec_real_axes(capsm, vasm) == match add_deps(
                    g@,
                    capsm,
                    vasm[vi as int],
                    depsm.skip(di as int),
                ) {
                    Ok(g2) => build_graph(g2, capsm, vasm.skip(vi + 1)),
                    Err(e) => Err(e),
                },
            decreases deps@.len() - di,
        {
            let va = &virt[vi];
            let k = &deps[di];
            proof {
                assert(depsm.skip(di as int)[0] == depsm[di as int]);
                assert(depsm.skip(di as int).skip(1) =~= depsm.skip(di + 1));
                assert(k@ == depsm[di as int]);
            }
            match find_device(real_devs, &k.device) {
                None => {
                    return Err(GraphBuildError::UndefinedDevice { device: k.device.clone() });
                },
                Some(ci) => {
                    if !device_has_axis(&real_devs[ci], k.axis) {
                        proof {
                            if device_supports(capsm, k@.0, k@.1) {
                                let w = choose|w: int|
                                    0 <= w < capsm.len() && capsm[w].name == k@.0
                                        && capsm[w].supported.contains(k@.1);
                                if w != ci {
                                    assert(capsm[w].name == capsm[ci as int].name);
                                }
                            }
                        }
                        return Err(
                            GraphBuildError::UnsupportedAxis {
                                device: k.device.clone(),
                                axis: k.axis,
                            },
                        );
                    }
                    let ghost gold = g@;
                    match g.lookup(k) {
                        None => {
                            let ra = RealAxis {
                                device: k.device.clone(),
                                axis: k.axis,
                                downstream: vec![va.clone()],
                            };
                            proof {
                                assert(vas_model(ra.downstream@) =~= seq![vasm[vi as int]]);
                            }
                            g.entries.push(ra);
                            proof {
                                assert(g@ =~= gold.push(
                                    RealAxisModel {
                                        device: k@.0,
                                        axis: k@.1,
                                        downstream: seq![vasm[vi as int]],
                                    },
                                ));
                            }
                        },
                        Some(ei) => {
                            let present = downstream_contains(&g.entries[ei].downstream, va);
                            if !present {
                                g.entries[ei].downstream.push(va.clone());
                                proof {
                                    assert(vas_model(g.entries@[ei as int].downstream@)
                                        =~= gold[ei as int].downstream.push(vasm[vi as int]));
                                    assert(g@ =~= gold.update(
                                        ei as int,
                                        RealAxisModel {
                                            device: gold[ei as int].device,
                                            axis: gold[ei as int].axis,
                                            downstream: gold[ei as int].downstream.push(
                                                vasm[vi as int],
                                            ),
                                        },
                                    ));
                                }
                            }
                        },
                    }
                    di = di + 1;
                },
            }
        }
        proof {
            assert(depsm.skip(deps@.len() as int) =~= Seq::<KeyModel>::empty());
        }
        vi = vi + 1;
    }
    proof {
        assert(vasm.skip(virt@.len() as int) =~= Seq::<VirtAxisModel>::empty());
    }
    Ok(g)
}


/// The virtual axes exposed by one virtual device of the configuration.
pub open spec fn device_axes(
    id: int,
    name: Seq<char>,
    axes: Seq<(Axis, AxisConfigModel)>,
) -> Seq<VirtAxisModel> {
    axes.map_values(
        |p: (Axis, AxisConfigModel)|
            VirtAxisModel { device_id: id, device_name: name, axis: p.0, config: p.1 },
    )
}

/// The virtual axes of the devices from index `i` on; a device's arena
/// id is its index in the configuration.
pub open spec fn spec_virt_axes_from(
    devs: Seq<(Seq<char>, VirtDeviceConfigModel)>,
    i: int,
) -> Seq<VirtAxisModel>
    decreases devs.len() - i,
{
    if i < 0 || i >= devs.len() {
        Seq::empty()
    } else {
        device_axes(i, devs[i].0, devs[i].1.axes) + spec_virt_axes_from(devs, i + 1)
    }
}

/// Every virtual axis of the configuration, in configuration order,
/// each carrying its owning device's arena id and name.
pub open spec fn spec_virt_axes(c: ConfigModel) -> Seq<VirtAxisModel> {
    spec_virt_axes_from(c.virt_devices, 0)
}

/// Flattens the configuration's virtual devices into the list of
/// virtual axes, assigning each device its index as a stable arena id.
/// The configuration must be well-formed (unique device names, unique
/// axis kinds per device, as the data model states).
pub fn virt_axes(config: &Config) -> (r: Vec<VirtAxis>)
    requires
        config_wf(config@),
    ensures
        vas_model(r@) == spec_virt_axes(config@),
{
    let ghost devs = config@.virt_devices;
    let mut out: Vec<VirtAxis> = Vec::new();
    proof {
        assert(vas_model(out@) =~= Seq::<VirtAxisModel>::empty());
        assert(vas_model(out@) + spec_virt_axes_from(devs, 0) =~= spec_virt_axes_from(devs, 0));
    }
    let mut i: usize = 0;
    while i < config.virt_devices.len()
        invariant
            i <= config.virt_devices@.len(),
            devs == config@.virt_devices,
            spec_virt_axes(config@) == vas_model(out@) + spec_virt_axes_from(devs, i as int),
        decreases config.virt_devices@.len() - i,
    {
        let ghost axes_m = devs[i as int].1.axes;
        let ghost name_m = devs[i as int].0;
        proof {
            assert(device_axes(i as int, name_m, axes_m).skip(0) =~= device_axes(
                i as int,
                name_m,
                axes_m,
            ));
        }
        let mut j: usize = 0;
        while j < config.virt_devices[i].1.axes.len()
            invariant
                i < config.virt_devices@.len(),
                j <= config.virt_devices@[i as int].1.axes@.len(),
                devs == config@.virt_devices,
                axes_m == devs[i as int].1.axes,
                name_m == devs[i as int].0,
                axes_m.len() == config.virt_devices@[i as int].1.axes@.len(),
                spec_virt_axes(config@) == vas_model(out@) + device_axes(
                    i as int,
                    name_m,
                    axes_m,
                ).skip(j as int) + spec_virt_axes_from(devs, i + 1),
            decreases config.virt_devices@[i as int].1.axes@.len() - j,
        {
            let dev = &config.virt_devices[i];
            let pair = &dev.1.axes[j];
            let ghost vold = out@;
            out.push(
                VirtAxis {
                    device_id: i,
                    device_name: dev.0.clone(),
                    axis: pair.0,
                    config: pair.1.clone(),
                },
            );
            proof {
                let a = device_axes(i as int, name_m, axes_m);
                assert(axes_m[j as int] == (pair.0, pair.1@));
                assert(a[j as int] == out@.last()@);
                assert(a.skip(j as int) =~= seq![a[j as int]] + a.skip(j + 1));
                assert(vas_model(out@) =~= vas_model(vold).push(a[j as int]));
                assert(vas_model(vold) + a.skip(j as int) + spec_virt_axes_from(devs, i + 1)
                    =~= vas_model(out@) + a.skip(j + 1) + spec_virt_axes_from(devs, i + 1));
            }
            j = j + 1;
        }
        proof {
            let a = device_axes(i as int, name_m, axes_m);
            assert(a.skip(axes_m.len() as int) =~= Seq::<VirtAxisModel>::empty());
            assert(vas_model(out@) + a.skip(axes_m.len() as int) + spec_virt_axes_from(
                devs,
                i + 1,
            ) =~= vas_model(out@) + spec_virt_axes_from(devs, i + 1));
        }
        i = i + 1;
    }
    proof {
        assert(vas_model(out@) + spec_virt_axes_from(devs, config.virt_devices@.len() as int)
            =~= vas_model(out@));
    }
    out
}


/// Every axis reference of every virtual-axis expression names a
/// defined physical device that supports the referenced axis.
pub open spec fn config_references_valid(
    caps: Seq<DeviceCapsModel>,
    vas: Seq<VirtAxisModel>,
) -> bool {
    forall|vi: int, di: int|
        0 <= vi < vas.len() && 0 <= di < spec_dependencies(vas[vi].config.expr).len()
            ==> device_defined(
            caps,
            (#[trigger] spec_dependencies(vas[vi].config.expr)[di]).0,
        ) && device_supports(
            caps,
            spec_dependencies(vas[vi].config.expr)[di].0,
            spec_dependencies(vas[vi].config.expr)[di].1,
        )
}

proof fn lemma_add_deps_ok(
    g: Seq<RealAxisModel>,
    caps: Seq<DeviceCapsModel>,
    va: VirtAxisModel,
    deps: Seq<KeyModel>,
)
    ensures
        (add_deps(g, caps, va, deps) is Ok) <==> (forall|di: int|
            0 <= di < deps.len() ==> device_defined(caps, (#[trigger] deps[di]).0)
                && device_supports(caps, deps[di].0, deps[di].1)),
    decreases deps.len(),
{
    if deps.len() > 0 {
        match add_dep(g, caps, va, deps[0]) {
            Err(_) => {},
            Ok(g2) => {
                lemma_add_deps_ok(g2, caps, va, deps.skip(1));
                assert(forall|di: int|
                    1 <= di < deps.len() ==> deps.skip(1)[di - 1] == #[trigger] deps[di]);
            },
        }
    }
}

proof fn lemma_build_graph_ok(
    g: Seq<RealAxisModel>,
    caps: Seq<DeviceCapsModel>,
    vas: Seq<VirtAxisModel>,
)
    ensures
        (build_graph(g, caps, vas) is Ok) <==> config_references_valid(caps, vas),
    decreases vas.len(),
{
    if vas.len() > 0 {
        lemma_add_deps_ok(g, caps, vas[0], spec_dependencies(vas[0].config.expr));
        match add_deps(g, caps, vas[0], spec_dependencies(vas[0].config.expr)) {
            Err(_) => {},
            Ok(g2) => {
                lemma_build_graph_ok(g2, caps, vas.skip(1));
                assert(forall|vi: int|
                    1 <= vi < vas.len() ==> vas.skip(1)[vi - 1] == #[trigger] vas[vi]);
                if config_references_valid(caps, vas.skip(1)) {
                    assert forall|vi: int, di: int|
                        0 <= vi < vas.len() && 0 <= di < spec_dependencies(
                            vas[vi].config.expr,
                        ).len() implies device_defined(
                        caps,
                        (#[trigger] spec_dependencies(vas[vi].config.expr)[di]).0,
                    ) && device_supports(
                        caps,
                        spec_dependencies(vas[vi].config.expr)[di].0,
                        spec_dependencies(vas[vi].config.expr)[di].1,
                    ) by {
                        if vi >= 1 {
                            assert(vas.skip(1)[vi - 1] == vas[vi]);
                        }
                    }
                }
            },
        }
    }
}

/// Graph building succeeds exactly when every axis reference of every
/// virtual-axis expression names a defined physical device that
/// supports the referenced axis; referencing anything else (an unknown
/// name, a virtual device, an unsupported axis) rejects the whole
/// configuration.
pub proof fn lemma_real_axes_ok_iff(caps: Seq<DeviceCapsModel>, vas: Seq<VirtAxisModel>)
    ensures
        (spec_real_axes(caps, vas) is Ok) <==> config_references_valid(caps, vas),
{
    lemma_build_graph_ok(Seq::empty(), caps, vas);
}

/// No two graph entries share a key.
pub open spec fn graph_keys_unique(g: Seq<RealAxisModel>) -> bool {
    forall|i: int, j: int|
        0 <= i < j < g.len() ==> entry_key(#[trigger] g[i]) != entry_key(#[trigger] g[j])
}

/// No downstream list holds two matching entries.
pub open spec fn graph_no_duplicate_downstream(g: Seq<RealAxisModel>) -> bool {
    forall|ei: int, i: int, j: int|
        0 <= ei < g.len() && 0 <= i < j < g[ei].downstream.len() ==> !va_matches(
            #[trigger] g[ei].downstream[i],
            #[trigger] g[ei].downstream[j],
        )
}

/// Every downstream entry's expression really depends on the physical
/// axis it hangs under.
pub open spec fn graph_downstream_sound(g: Seq<RealAxisModel>) -> bool {
    forall|ei: int, di: int|
        0 <= ei < g.len() && 0 <= di < (#[trigger] g[ei]).downstream.len()
            ==> spec_dependencies((#[trigger] g[ei].downstream[di]).config.expr).contains(
            entry_key(g[ei]),
        )
}

/// The three invariants together.
pub open spec fn graph_invariants(g: Seq<RealAxisModel>) -> bool {
    graph_keys_unique(g) && graph_no_duplicate_downstream(g) && graph_downstream_sound(g)
}

proof fn lemma_add_dep_invariants(
    g: Seq<RealAxisModel>,
    caps: Seq<DeviceCapsModel>,
    va: VirtAxisModel,
    k: KeyModel,
    g2: Seq<RealAxisModel>,
)
    requires
        graph_invariants(g),
        spec_dependencies(va.config.expr).contains(k),
        add_dep(g, caps, va, k) == Ok::<_, GraphBuildErrorModel>(g2),
    ensures
        graph_invariants(g2),
{
    lemma_entry_index(g, k);
    let i = entry_index(g, k);
    if i < 0 {
        let e = RealAxisModel { device: k.0, axis: k.1, downstream: seq![va] };
        assert(g2 =~= g.push(e));
        assert(entry_key(e) == k);
        assert forall|x: int, y: int| 0 <= x < y < g2.len() implies entry_key(#[trigger] g2[x])
            != entry_key(#[trigger] g2[y]) by {
            if y == g.len() {
                assert(g2[x] == g[x]);
            }
        }
    } else if downstream_has(g[i].downstream, va) {
    } else {
        let e2 = RealAxisModel {
            device: g[i].device,
            axis: g[i].axis,
            downstream: g[i].downstream.push(va),
        };
        assert(g2 =~= g.update(i, e2));
        assert(entry_key(e2) == entry_key(g[i]));
        assert forall|ei: int, x: int, y: int|
            0 <= ei < g2.len() && 0 <= x < y < g2[ei].downstream.len() implies !va_matches(
            #[trigger] g2[ei].downstream[x],
            #[trigger] g2[ei].downstream[y],
        ) by {
            if ei == i && y == g[i].downstream.len() {
                assert(g2[ei].downstream[x] == g[i].downstream[x]);
                assert(!va_matches(g[i].downstream[x], va));
            }
        }
        assert forall|ei: int, di: int|
            0 <= ei < g2.len() && 0 <= di < (#[trigger] g2[ei]).downstream.len()
                implies spec_dependencies((#[trigger] g2[ei].downstream[di]).config.expr).contains(
            entry_key(g2[ei]),
        ) by {
            if ei == i && di == g[i].downstream.len() {
                assert(g2[ei].downstream[di] == va);
                assert(entry_key(g2[ei]) == k);
            }
        }
    }
}

proof fn lemma_add_deps_invariants(
    g: Seq<RealAxisModel>,
    caps: Seq<DeviceCapsModel>,
    va: VirtAxisModel,
    deps: Seq<KeyModel>,
    g2: Seq<RealAxisModel>,
)
    requires
        graph_invariants(g),
        forall|di: int|
            0 <= di < deps.len() ==> spec_dependencies(va.config.expr).contains(
                #[trigger] deps[di],
            ),
        add_deps(g, caps, va, deps) == Ok::<_, GraphBuildErrorModel>(g2),
    ensures
        graph_invariants(g2),
    decreases deps.len(),
{
    if deps.len() > 0 {
        match add_dep(g, caps, va, deps[0]) {
            Err(_) => {},
            Ok(gm) => {
                lemma_add_dep_invariants(g, caps, va, deps[0], gm);
                assert(forall|di: int|
                    1 <= di < deps.len() ==> deps.skip(1)[di - 1] == #[trigger] deps[di]);
                lemma_add_deps_invariants(gm, caps, va, deps.skip(1), g2);
            },
        }
    }
}

proof fn lemma_build_graph_invariants(
    g: Seq<RealAxisModel>,
    caps: Seq<DeviceCapsModel>,
    vas: Seq<VirtAxisModel>,
    g2: Seq<RealAxisModel>,
)
    requires
        graph_invariants(g),
        build_graph(g, caps, vas) == Ok::<_, GraphBuildErrorModel>(g2),
    ensures
        graph_invariants(g2),
    decreases vas.len(),
{
    if vas.len() > 0 {
        let deps = spec_dependencies(vas[0].config.expr);
        match add_deps(g, caps, vas[0], deps) {
            Err(_) => {},
            Ok(gm) => {
                assert forall|di: int| 0 <= di < deps.len() implies spec_dependencies(
                    vas[0].config.expr,
                ).contains(#[trigger] deps[di]) by {
                    assert(deps[di] == spec_dependencies(vas[0].config.expr)[di]);
                }
                lemma_add_deps_invariants(g, caps, vas[0], deps, gm);
                lemma_build_graph_invariants(gm, caps, vas.skip(1), g2);
            },
        }
    }
}

/// A graph that construction accepts satisfies the data-model
/// invariants: one entry per physical axis, no structurally-duplicate
/// downstream entries, and every downstream expression really reads the
/// axis it hangs under.
pub proof fn lemma_real_axes_invariants(
    caps: Seq<DeviceCapsModel>,
    vas: Seq<VirtAxisModel>,
    g: Seq<RealAxisModel>,
)
    requires
        spec_real_axes(caps, vas) == Ok::<_, GraphBuildErrorModel>(g),
    ensures
        graph_invariants(g),
{
    lemma_build_graph_invariants(Seq::empty(), caps, vas, g);
}


/// Axis kinds are unique within each virtual device of `devs`.
pub open spec fn virt_axes_unique(devs: Seq<(Seq<char>, VirtDeviceConfigModel)>) -> bool {
    forall|d: int, i: int, j: int|
        0 <= d < devs.len() && 0 <= i < j < devs[d].1.axes.len() ==> (
        #[trigger] devs[d].1.axes[i]).0 != (#[trigger] devs[d].1.axes[j]).0
}

proof fn lemma_virt_axes_from_distinct(devs: Seq<(Seq<char>, VirtDeviceConfigModel)>, i: int)
    requires
        0 <= i,
        virt_axes_unique(devs),
    ensures
        forall|p: int|
            0 <= p < spec_virt_axes_from(devs, i).len() ==> i <= (
            #[trigger] spec_virt_axes_from(devs, i)[p]).device_id < devs.len(),
        forall|p: int, q: int|
            0 <= p < q < spec_virt_axes_from(devs, i).len() ==> !((
            #[trigger] spec_virt_axes_from(devs, i)[p]).device_id == (
            #[trigger] spec_virt_axes_from(devs, i)[q]).device_id && spec_virt_axes_from(
                devs,
                i,
            )[p].axis == spec_virt_axes_from(devs, i)[q].axis),
    decreases devs.len() - i,
{
    if i < devs.len() {
        lemma_virt_axes_from_distinct(devs, i + 1);
        let head = device_axes(i, devs[i].0, devs[i].1.axes);
        let tail = spec_virt_axes_from(devs, i + 1);
        let vas = spec_virt_axes_from(devs, i);
        assert(vas =~= head + tail);
        assert forall|p: int| 0 <= p < vas.len() implies i <= (#[trigger] vas[p]).device_id
            < devs.len() by {
            if p < head.len() {
                assert(vas[p] == head[p]);
                assert(head[p].device_id == i);
            } else {
                assert(vas[p] == tail[p - head.len()]);
            }
        }
        assert forall|p: int, q: int| 0 <= p < q < vas.len() implies !((
        #[trigger] vas[p]).device_id == (#[trigger] vas[q]).device_id && vas[p].axis
            == vas[q].axis) by {
            if q < head.len() {
                assert(vas[p] == head[p] && vas[q] == head[q]);
                assert(head[p].axis == devs[i].1.axes[p].0);
                assert(head[q].axis == devs[i].1.axes[q].0);
            } else if p < head.len() {
                assert(vas[p] == head[p]);
                assert(vas[q] == tail[q - head.len()]);
                assert(head[p].device_id == i);
                assert(i + 1 <= vas[q].device_id);
            } else {
                assert(vas[p] == tail[p - head.len()]);
                assert(vas[q] == tail[q - head.len()]);
            }
        }
    }
}

/// In a well-formed configuration no two virtual axes share an owning
/// device and an axis kind: the flattened table addresses each virtual
/// output axis exactly once.
pub proof fn lemma_virt_axes_distinct(c: ConfigModel)
    requires
        config_wf(c),
    ensures
        forall|p: int, q: int|
            0 <= p < q < spec_virt_axes(c).len() ==> !((
            #[trigger] spec_virt_axes(c)[p]).device_id == (
            #[trigger] spec_virt_axes(c)[q]).device_id && spec_virt_axes(c)[p].axis
                == spec_virt_axes(c)[q].axis),
{
    lemma_virt_axes_from_distinct(c.virt_devices, 0);
}


proof fn lemma_add_deps_err_sound(
    g: Seq<RealAxisModel>,
    caps: Seq<DeviceCapsModel>,
    va: VirtAxisModel,
    deps: Seq<KeyModel>,
)
    ensures
        (match add_deps(g, caps, va, deps) {
            Err(GraphBuildErrorModel::UndefinedDevice { device }) => exists|di: int|
                0 <= di < deps.len() && (#[trigger] deps[di]).0 == device && !device_defined(
                    caps,
                    device,
                ),
            Err(GraphBuildErrorModel::UnsupportedAxis { device, axis }) => exists|di: int|
                0 <= di < deps.len() && (#[trigger] deps[di]) == (device, axis) && device_defined(
                    caps,
                    device,
                ) && !device_supports(caps, device, axis),
            Ok(_) => true,
        }),
    decreases deps.len(),
{
    if deps.len() > 0 {
        match add_dep(g, caps, va, deps[0]) {
            Err(_) => {
                assert(deps[0] == deps[0]);
            },
            Ok(g2) => {
                lemma_add_deps_err_sound(g2, caps, va, deps.skip(1));
                let rest = deps.skip(1);
                match add_deps(g2, caps, va, rest) {
                    Err(GraphBuildErrorModel::UndefinedDevice { device }) => {
                        let di = choose|di: int|
                            0 <= di < rest.len() && (#[trigger] rest[di]).0 == device
                                && !device_defined(caps, device);
                        assert(deps[di + 1] == rest[di]);
                    },
                    Err(GraphBuildErrorModel::UnsupportedAxis { device, axis }) => {
                        let di = choose|di: int|
                            0 <= di < rest.len() && (#[trigger] rest[di]) == (device, axis)
                                && device_defined(caps, device) && !device_supports(
                                caps,
                                device,
                                axis,
                            );
                        assert(deps[di + 1] == rest[di]);
                    },
                    Ok(_) => {},
                }
            },
        }
    }
}

proof fn lemma_build_graph_err_sound(
    g: Seq<RealAxisModel>,
    caps: Seq<DeviceCapsModel>,
    vas: Seq<VirtAxisModel>,
)
    ensures
        (match build_graph(g, caps, vas) {
            Err(GraphBuildErrorModel::UndefinedDevice { device }) => exists|vi: int, di: int|
                0 <= vi < vas.len() && 0 <= di < spec_dependencies(vas[vi].config.expr).len() && (
                #[trigger] spec_dependencies(vas[vi].config.expr)[di]).0 == device
                    && !device_defined(caps, device),
            Err(GraphBuildErrorModel::UnsupportedAxis { device, axis }) => exists|vi: int, di: int|
                0 <= vi < vas.len() && 0 <= di < spec_dependencies(vas[vi].config.expr).len() && (
                #[trigger] spec_dependencies(vas[vi].config.expr)[di]) == (device, axis)
                    && device_defined(caps, device) && !device_supports(caps, device, axis),
            Ok(_) => true,
        }),
    decreases vas.len(),
{
    if vas.len() > 0 {
        let deps = spec_dependencies(vas[0].config.expr);
        lemma_add_deps_err_sound(g, caps, vas[0], deps);
        match add_deps(g, caps, vas[0], deps) {
            Err(GraphBuildErrorModel::UndefinedDevice { device }) => {
                let di = choose|di: int|
                    0 <= di < deps.len() && (#[trigger] deps[di]).0 == device && !device_defined(
                        caps,
                        device,
                    );
                assert(spec_dependencies(vas[0].config.expr)[di].0 == device);
            },
            Err(GraphBuildErrorModel::UnsupportedAxis { device, axis }) => {
                let di = choose|di: int|
                    0 <= di < deps.len() && (#[trigger] deps[di]) == (device, axis)
                        && device_defined(caps, device) && !device_supports(caps, device, axis);
                assert(spec_dependencies(vas[0].config.expr)[di] == (device, axis));
            },
            Ok(g2) => {
                lemma_build_graph_err_sound(g2, caps, vas.skip(1));
                let rest = vas.skip(1);
                match build_graph(g2, caps, rest) {
                    Err(GraphBuildErrorModel::UndefinedDevice { device }) => {
                        let (vi, di) = choose|vi: int, di: int|
                            0 <= vi < rest.len() && 0 <= di < spec_dependencies(
                                rest[vi].config.expr,
                            ).len() && (#[trigger] spec_dependencies(rest[vi].config.expr)[di]).0
                                == device && !device_defined(caps, device);
                        assert(vas[vi + 1] == rest[vi]);
                        assert(spec_dependencies(vas[vi + 1].config.expr)[di].0 == device);
                    },
                    Err(GraphBuildErrorModel::UnsupportedAxis { device, axis }) => {
                        let (vi, di) = choose|vi: int, di: int|
                            0 <= vi < rest.len() && 0 <= di < spec_dependencies(
                                rest[vi].config.expr,
                            ).len() && (#[trigger] spec_dependencies(rest[vi].config.expr)[di])
                                == (device, axis) && device_defined(caps, device)
                                && !device_supports(caps, device, axis);
                        assert(vas[vi + 1] == rest[vi]);
                        assert(spec_dependencies(vas[vi + 1].config.expr)[di] == (device, axis));
                    },
                    Ok(_) => {},
                }
            },
        }
    }
}

/// Each graph-build error names a reference that really fails that way:
/// an `UndefinedDevice` error names a device some expression reads that
/// is not a defined physical device, and an `UnsupportedAxis` error
/// names a dependency whose device is defined but does not support the
/// referenced axis.
pub proof fn lemma_real_axes_err_sound(caps: Seq<DeviceCapsModel>, vas: Seq<VirtAxisModel>)
    ensures
        (match spec_real_axes(caps, vas) {
            Err(GraphBuildErrorModel::UndefinedDevice { device }) => exists|vi: int, di: int|
                0 <= vi < vas.len() && 0 <= di < spec_dependencies(vas[vi].config.expr).len() && (
                #[trigger] spec_dependencies(vas[vi].config.expr)[di]).0 == device
                    && !device_defined(caps, device),
            Err(GraphBuildErrorModel::UnsupportedAxis { device, axis }) => exists|vi: int, di: int|
                0 <= vi < vas.len() && 0 <= di < spec_dependencies(vas[vi].config.expr).len() && (
                #[trigger] spec_dependencies(vas[vi].config.expr)[di]) == (device, axis)
                    && device_defined(caps, device) && !device_supports(caps, device, axis),
            Ok(_) => true,
        }),
{
    lemma_build_graph_err_sound(Seq::empty(), caps, vas);
}

} // verus!
