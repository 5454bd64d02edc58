//! The propagation engine.
//!
//! The engine consumes a stream of physical-axis updates, one at a
//! time. For each update it finds the dependency-graph entry of the
//! updated axis — an update for an axis with no downstream virtual axes
//! is accepted and silently discarded — and processes the entry's
//! downstream virtual axes in order, to completion, one before the
//! next. For each downstream axis it seeds a fresh binding map with the
//! triggering value alone, asks its surroundings (through `Action`) for
//! a point-in-time read of every other dependency of that axis's
//! expression, evaluates, and asks for the result to be written to the
//! virtual axis's sink.
//!
//! Failures are isolated per virtual axis: a failed read, a failed
//! evaluation or a failed write skips that axis's update and the engine
//! continues with the remaining downstream axes and the next event.

use vstd::prelude::*;

use crate::config::Axis;
use crate::eval::{keys_model, spec_dependencies, spec_eval, AxisKey, Bindings, KeyModel};
use crate::graph::{entry_index, entry_key, DependencyGraph, RealAxisModel};

verus! {

/// An update event observed on a physical axis.
#[derive(Debug)]
pub struct AxisUpdate {
    pub device: String,
    pub axis: Axis,
    pub new_value: i32,
}

impl AxisUpdate {
    /// The identity pair of the updated axis.
    pub open spec fn spec_key(&self) -> KeyModel {
        (self.device@, self.axis)
    }
}

/// What the engine asks its surroundings to do next.
#[derive(Debug, PartialEq, Eq)]
pub enum Action {
    /// Nothing is pending: feed the next update through `on_update`.
    AwaitUpdate,
    /// Read the current value of this physical axis and feed the
    /// outcome through `on_read` (`None` for a failed read).
    Read(AxisKey),
    /// Write `value` to the given axis of the virtual device with this
    /// arena id, and report the outcome through `on_write`.
    Write { device_id: usize, axis: Axis, value: i32 },
}

/// Mathematical model of an `Action`.
pub enum ActionModel {
    AwaitUpdate,
    Read(KeyModel),
    Write { device_id: int, axis: Axis, value: int },
}

impl View for Action {
    type V = ActionModel;

    open spec fn view(&self) -> ActionModel {
        match self {
            Action::AwaitUpdate => ActionModel::AwaitUpdate,
            Action::Read(k) => ActionModel::Read(k@),
            Action::Write { device_id, axis, value } => ActionModel::Write {
                device_id: *device_id as int,
                axis: *axis,
                value: *value as int,
            },
        }
    }
}

/// The dependencies of `deps` other than the triggering key: those the
/// engine must read before it can evaluate.
pub open spec fn other_deps(deps: Seq<KeyModel>, trigger: KeyModel) -> Seq<KeyModel> {
    deps.filter(|k: KeyModel| k != trigger)
}

/// The binding map a downstream axis starts from: the triggering value
/// alone, never a value cached from an earlier computation.
pub open spec fn seed_bindings(trigger: KeyModel, value: int) -> Map<KeyModel, int> {
    Map::empty().insert(trigger, value)
}

/// The engine's progress inside one update's fan-out.
struct Work {
    entry: usize,
    trigger: AxisKey,
    value: i32,
    di: usize,
    deps: Vec<AxisKey>,
    k: usize,
    bindings: Bindings,
    writing: bool,
}

/// Mathematical model of the engine's progress inside one update.
pub struct WorkModel {
    /// Index of the graph entry being fanned out.
    pub entry: int,
    /// The updated physical axis.
    pub trigger: KeyModel,
    /// The updated value.
    pub value: int,
    /// Index of the downstream axis being processed.
    pub di: int,
    /// The other dependencies of that axis's expression.
    pub deps: Seq<KeyModel>,
    /// How many of them have been read so far.
    pub k: int,
    /// The bindings assembled so far.
    pub bindings: Map<KeyModel, int>,
    /// Whether the engine awaits a write outcome (else a read outcome).
    pub writing: bool,
}

impl View for Work {
    type V = WorkModel;

    closed spec fn view(&self) -> WorkModel {
        WorkModel {
            entry: self.entry as int,
            trigger: self.trigger@,
            value: self.value as int,
            di: self.di as int,
            deps: keys_model(self.deps@),
            k: self.k as int,
            bindings: self.bindings@,
            writing: self.writing,
        }
    }
}

/// Mathematical model of the engine.
pub struct EngineModel {
    pub graph: Seq<RealAxisModel>,
    pub work: Option<WorkModel>,
}

/// Starting from downstream index `di` of entry `e` with a fresh seed,
/// the state the engine comes to rest in and the action it asks for:
/// the first downstream axis that needs reads waits for the first read;
/// one that needs none is evaluated at once and waits for its write,
/// unless evaluation fails, in which case the axis is skipped and the
/// next one is tried; past the end, the engine is idle again.
pub open spec fn advance(e: RealAxisModel, entry: int, trigger: KeyModel, value: int, di: int) -> (
    Option<WorkModel>,
    ActionModel,
)
    decreases e.downstream.len() - di,
{
    if di < 0 || di >= e.downstream.len() {
        (None, ActionModel::AwaitUpdate)
    } else {
        let va = e.downstream[di];
        let deps = other_deps(spec_dependencies(va.config.expr), trigger);
        let seed = seed_bindings(trigger, value);
        if deps.len() > 0 {
            (
                Some(
                    WorkModel {
                        entry,
                        trigger,
                        value,
                        di,
                        deps,
                        k: 0,
                        bindings: seed,
                        writing: false,
                    },
                ),
                ActionModel::Read(deps[0]),
            )
        } else {
            match spec_eval(va.config.expr, seed) {
                Ok(v) => (
                    Some(
                        WorkModel {
                            entry,
                            trigger,
                            value,
                            di,
                            deps,
                            k: 0,
                            bindings: seed,
                            writing: true,
                        },
                    ),
                    ActionModel::Write { device_id: va.device_id, axis: va.axis, value: v },
                ),
                Err(_) => advance(e, entry, trigger, value, di + 1),
            }
        }
    }
}

/// Internal consistency of the engine's state.
pub open spec fn engine_wf(m: EngineModel) -> bool {
    match m.work {
        None => true,
        Some(w) => {
            &&& 0 <= w.entry < m.graph.len()
            &&& entry_key(m.graph[w.entry]) == w.trigger
            &&& 0 <= w.di < m.graph[w.entry].downstream.len()
            &&& (!w.writing ==> {
                &&& w.deps == other_deps(
                    spec_dependencies(m.graph[w.entry].downstream[w.di].config.expr),
                    w.trigger,
                )
                &&& 0 <= w.k < w.deps.len()
            })
        },
    }
}

/// Filters `trigger` out of a dependency list.
fn filter_other_deps(deps: &Vec<AxisKey>, trigger: &AxisKey) -> (r: Vec<AxisKey>)
    ensures
        keys_model(r@) == other_deps(keys_model(deps@), trigger@),
{
    let mut out: Vec<AxisKey> = Vec::new();
    let mut i: usize = 0;
    proof {
        reveal(Seq::filter);
        assert(keys_model(deps@).take(0) =~= Seq::<KeyModel>::empty());
        assert(keys_model(out@) =~= Seq::<KeyModel>::empty());
        assert(other_deps(keys_model(deps@).take(0), trigger@) =~= Seq::<KeyModel>::empty());
    }
    while i < deps.len()
        invariant
            i <= deps@.len(),
            keys_model(out@) == other_deps(keys_model(deps@).take(i as int), trigger@),
        decreases deps@.len() - i,
    {
        let ghost pre = keys_model(deps@).take(i as int);
        let ghost cur = keys_model(deps@).take(i + 1);
        proof {
            reveal(Seq::filter);
            assert(cur.drop_last() =~= pre);
            assert(cur.last() == keys_model(deps@)[i as int]);
        }
        if !deps[i].key_eq(trigger) {
            let ghost before = out@;
            out.push(deps[i].clone());
            proof {
                assert(keys_model(out@) =~= keys_model(before).push(keys_model(deps@)[i as int]));
            }
        }
        i = i + 1;
    }
    proof {
        assert(keys_model(deps@).take(deps@.len() as int) =~= keys_model(deps@));
    }
    out
}

/// The propagation engine: a state machine over the dependency graph,
/// driven by updates and by the outcomes of the reads and writes it
/// requests.
pub struct Engine {
    graph: DependencyGraph,
    work: Option<Work>,
}

impl View for Engine {
    type V = EngineModel;

    closed spec fn view(&self) -> EngineModel {
        EngineModel {
            graph: self.graph@,
            work: match self.work {
                None => None,
                Some(w) => Some(w@),
            },
        }
    }
}

/// Which input the engine expects next.
#[derive(Debug, PartialEq, Eq)]
pub enum EnginePhase {
    AwaitingUpdate,
    AwaitingRead,
    AwaitingWrite,
}

impl Engine {
    /// A fresh engine over a built dependency graph, awaiting the first
    /// update.
    pub fn new(graph: DependencyGraph) -> (r: Engine)
        ensures
            r@.graph == graph@,
            r@.work is None,
            engine_wf(r@),
    {
        Engine { graph, work: None }
    }

    /// Which input the engine expects next: an update, a read outcome,
    /// or a write outcome.
    pub fn phase(&self) -> (p: EnginePhase)
        ensures
            p == (match self@.work {
                None => EnginePhase::AwaitingUpdate,
                Some(w) => if w.writing {
                    EnginePhase::AwaitingWrite
                } else {
                    EnginePhase::AwaitingRead
                },
            }),
    {
        match &self.work {
            None => EnginePhase::AwaitingUpdate,
            Some(w) => {
                if w.writing {
                    EnginePhase::AwaitingWrite
                } else {
                    EnginePhase::AwaitingRead
                }
            },
        }
    }

    /// Walks the downstream list of entry `entry` from index `di_start`
    /// and comes to rest as `advance` describes.
    fn advance_from(&mut self, entry: usize, trigger: AxisKey, value: i32, di_start: usize) -> (a:
        Action)
        requires
            entry < old(self)@.graph.len(),
            entry_key(old(self)@.graph[entry as int]) == trigger@,
        ensures
            final(self)@.graph == old(self)@.graph,
            engine_wf(final(self)@),
            final(self)@.work == advance(
                old(self)@.graph[entry as int],
                entry as int,
                trigger@,
                value as int,
                di_start as int,
            ).0,
            a@ == advance(
                old(self)@.graph[entry as int],
                entry as int,
                trigger@,
                value as int,
                di_start as int,
            ).1,
    {
        let ghost e = self@.graph[entry as int];
        let mut di: usize = di_start;
        let n = self.graph.entries[entry].downstream.len();
        while di < n
            invariant
                di_start <= di,
                entry < self@.graph.len(),
                e == self@.graph[entry as int],
                entry_key(e) == trigger@,
                n == e.downstream.len(),
                self@.work == old(self)@.work,
                self@.graph == old(self)@.graph,
                advance(e, entry as int, trigger@, value as int, di_start as int) == advance(
                    e,
                    entry as int,
                    trigger@,
                    value as int,
                    di as int,
                ),
            decreases n - di,
        {
            let all_deps = self.graph.entries[entry].downstream[di].config.expr.dependencies();
            let others = filter_other_deps(&all_deps, &trigger);
            let mut bindings = Bindings::new();
            bindings.insert(trigger.clone(), value);
            proof {
                assert(bindings@ == seed_bindings(trigger@, value as int));
                assert(keys_model(others@) == other_deps(
                    spec_dependencies(e.downstream[di as int].config.expr),
                    trigger@,
                ));
            }
            if others.len() > 0 {
                let first = others[0].clone();
                self.work = Some(
                    Work {
                        entry,
                        trigger,
                        value,
                        di,
                        deps: others,
                        k: 0,
                        bindings,
                        writing: false,
                    },
                );
                return Action::Read(first);
            }
            let result = self.graph.entries[entry].downstream[di].config.expr.eval(&bindings);
            match result {
                Ok(v) => {
                    let device_id = self.graph.entries[entry].downstream[di].device_id;
                    let axis = self.graph.entries[entry].downstream[di].axis;
                    self.work = Some(
                        Work {
                            entry,
                            trigger,
                            value,
                            di,
                            deps: others,
                            k: 0,
                            bindings,
                            writing: true,
                        },
                    );
                    return Action::Write { device_id, axis, value: v };
                },
                Err(_) => {
                    di = di + 1;
                },
            }
        }
        self.work = None;
        Action::AwaitUpdate
    }

    /// Feeds the next update event. If no virtual axis depends on the
    /// updated physical axis, the update is silently discarded and the
    /// engine stays idle; otherwise the entry's downstream axes are
    /// processed in order, each from a fresh binding map seeded with the
    /// triggering value alone.
    pub fn on_update(&mut self, update: AxisUpdate) -> (a: Action)
        requires
            engine_wf(old(self)@),
            old(self)@.work is None,
        ensures
            final(self)@.graph == old(self)@.graph,
            engine_wf(final(self)@),
            ({
                let key = update.spec_key();
                let idx = entry_index(old(self)@.graph, key);
                if idx == -1 {
                    final(self)@.work is None && a@ == ActionModel::AwaitUpdate
                } else {
                    let st = advance(
                        old(self)@.graph[idx],
                        idx,
                        key,
                        update.new_value as int,
                        0,
                    );
                    final(self)@.work == st.0 && a@ == st.1
                }
            }),
    {
        let key = AxisKey { device: update.device, axis: update.axis };
        match self.graph.lookup(&key) {
            None => Action::AwaitUpdate,
            Some(i) => {
                proof {
                    crate::graph::lemma_entry_index(self@.graph, key@);
                }
                self.advance_from(i, key, update.new_value, 0)
            },
        }
    }

    /// Feeds the outcome of the read the engine last asked for. A
    /// successful read is bound and the next missing dependency is
    /// requested; once all are bound the expression is evaluated and
    /// its result requested to be written, a failed evaluation skipping
    /// the axis. A failed read also skips the axis; in both cases the
    /// engine moves on to the next downstream axis.
    pub fn on_read(&mut self, outcome: Option<i32>) -> (a: Action)
        requires
            engine_wf(old(self)@),
            old(self)@.work is Some,
            !old(self)@.work->Some_0.writing,
        ensures
            final(self)@.graph == old(self)@.graph,
            engine_wf(final(self)@),
            ({
                let w = old(self)@.work->Some_0;
                let e = old(self)@.graph[w.entry];
                match outcome {
                    None => final(self)@.work == advance(
                        e,
                        w.entry,
                        w.trigger,
                        w.value,
                        w.di + 1,
                    ).0 && a@ == advance(e, w.entry, w.trigger, w.value, w.di + 1).1,
                    Some(v) => {
                        let b2 = w.bindings.insert(w.deps[w.k], v as int);
                        if w.k + 1 < w.deps.len() {
                            final(self)@.work == Some(
                                WorkModel {
                                    entry: w.entry,
                                    trigger: w.trigger,
                                    value: w.value,
                                    di: w.di,
                                    deps: w.deps,
                                    k: w.k + 1,
                                    bindings: b2,
                                    writing: false,
                                },
                            ) && a@ == ActionModel::Read(w.deps[w.k + 1])
                        } else {
                            match spec_eval(e.downstream[w.di].config.expr, b2) {
                                Ok(val) => final(self)@.work == Some(
                                    WorkModel {
                                        entry: w.entry,
                                        trigger: w.trigger,
                                        value: w.value,
                                        di: w.di,
                                        deps: w.deps,
                                        k: w.k + 1,
                                        bindings: b2,
                                        writing: true,
                                    },
                                ) && a@ == (ActionModel::Write {
                                    device_id: e.downstream[w.di].device_id,
                                    axis: e.downstream[w.di].axis,
                                    value: val,
                                }),
                                Err(_) => final(self)@.work == advance(
                                    e,
                                    w.entry,
                                    w.trigger,
                                    w.value,
                                    w.di + 1,
                                ).0 && a@ == advance(e, w.entry, w.trigger, w.value, w.di + 1).1,
                            }
                        }
                    },
                }
            }),
    {
        let w_opt = self.work.take();
        match w_opt {
            None => {
                proof {
                    assert(false);
                }
                Action::AwaitUpdate
            },
            Some(mut w) => {
                proof {
                    assert(w@.di < old(self)@.graph[w@.entry].downstream.len());
                }
                let n = self.graph.entries[w.entry].downstream.len();
                match outcome {
                    None => self.advance_from(w.entry, w.trigger, w.value, w.di + 1),
                    Some(v) => {
                        let dn = w.deps.len();
                        proof {
                            assert(w@.k < w@.deps.len());
                            assert(w@.deps.len() == dn as int);
                        }
                        w.bindings.insert(w.deps[w.k].clone(), v);
                        w.k = w.k + 1;
                        if w.k < w.deps.len() {
                            let next = w.deps[w.k].clone();
                            self.work = Some(w);
                            Action::Read(next)
                        } else {
                            let result = self.graph.entries[w.entry].downstream[w.di].config.expr
                                .eval(&w.bindings);
                            match result {
                                Ok(val) => {
                                    let device_id =
                                        self.graph.entries[w.entry].downstream[w.di].device_id;
                                    let axis = self.graph.entries[w.entry].downstream[w.di].axis;
                                    w.writing = true;
                                    self.work = Some(w);
                                    Action::Write { device_id, axis, value: val }
                                },
                                Err(_) => self.advance_from(
                                    w.entry,
                                    w.trigger,
                                    w.value,
                                    w.di + 1,
                                ),
                            }
                        }
                    },
                }
            },
        }
    }

    /// Feeds the outcome of the write the engine last asked for. The
    /// engine continues with the next downstream axis either way: a
    /// failed write only skips the one affected virtual axis.
    pub fn on_write(&mut self, outcome: bool) -> (a: Action)
        requires
            engine_wf(old(self)@),
            old(self)@.work is Some,
            old(self)@.work->Some_0.writing,
        ensures
            final(self)@.graph == old(self)@.graph,
            engine_wf(final(self)@),
            ({
                let w = old(self)@.work->Some_0;
                let e = old(self)@.graph[w.entry];
                final(self)@.work == advance(e, w.entry, w.trigger, w.value, w.di + 1).0 && a@
                    == advance(e, w.entry, w.trigger, w.value, w.di + 1).1
            }),
    {
        let _ = outcome;
        let w_opt = self.work.take();
        match w_opt {
            None => {
                proof {
                    assert(false);
                }
                Action::AwaitUpdate
            },
            Some(w) => {
                proof {
                    assert(w@.di < old(self)@.graph[w@.entry].downstream.len());
                }
                let n = self.graph.entries[w.entry].downstream.len();
                self.advance_from(w.entry, w.trigger, w.value, w.di + 1)
            },
        }
    }
}


/// Wherever the engine starts gathering reads for a downstream axis,
/// its binding map holds the triggering value alone: dependencies are
/// read at the moment of that axis's own computation, never cached from
/// an earlier one.
pub proof fn lemma_fanout_fresh_bindings(
    e: RealAxisModel,
    entry: int,
    trigger: KeyModel,
    value: int,
    di: int,
)
    ensures
        (match advance(e, entry, trigger, value, di).0 {
            Some(w) => !w.writing ==> w.bindings == seed_bindings(trigger, value) && w.k == 0,
            None => true,
        }),
    decreases e.downstream.len() - di,
{
    if 0 <= di < e.downstream.len() {
        let va = e.downstream[di];
        let deps = other_deps(spec_dependencies(va.config.expr), trigger);
        if deps.len() == 0 && spec_eval(va.config.expr, seed_bindings(trigger, value)) is Err {
            lemma_fanout_fresh_bindings(e, entry, trigger, value, di + 1);
        }
    }
}

} // verus!
