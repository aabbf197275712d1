//! One simulation over both backends: the GPU when there is one, the CPU otherwise.

use crate::adapter::{AdapterInfo, Gpu, GpuError};
use crate::cpu;
use crate::cpu::CpuModel;
use crate::gpu::{GpuSimulation, GpuState, TickPlan};
use crate::model::{Config, NodeInit};
use crate::number;
use crate::number::{Scalar, F32};
use crate::plan;
use crate::plan::NODE_SLOTS;
use vstd::prelude::*;

verus! {

/// Where a simulation runs.
#[derive(Clone, Copy, Debug, PartialEq, Eq, Structural)]
pub enum Backend {
    Cpu,
    Gpu,
}

/// A simulation on one of the backends. The CPU engine keeps its own state; here
/// are what it is built from, and the positions last taken from it.
pub enum Simulation {
    Cpu { model: Box<CpuModel>, positions: Vec<Scalar> },
    Gpu(Box<GpuSimulation>),
}

/// What a [`Simulation`] stands for.
pub enum SimulationState {
    Cpu { model: CpuModel, positions: Seq<Scalar> },
    Gpu(GpuState),
}

impl View for Simulation {
    type V = SimulationState;

    open spec fn view(&self) -> SimulationState {
        match self {
            Simulation::Cpu { model, positions } => SimulationState::Cpu {
                model: **model,
                positions: positions@,
            },
            Simulation::Gpu(g) => SimulationState::Gpu(g@),
        }
    }
}

/// A request to the CPU engine.
#[derive(Clone, Copy, Debug, PartialEq)]
pub enum CpuCall {
    Tick(usize),
    Run(usize),
    SetAlpha(F32),
    SetAlphaTarget(F32),
    SetAlphaDecay(F32),
    SetFixed { i: usize, fx: F32, fy: F32 },
}

/// What is to be done for a run of ticks.
pub enum Work {
    Nothing,
    Cpu(CpuCall),
    Gpu(TickPlan),
}

/// A run of ticks: how many there are, unless the CPU engine counts them, and what
/// is to be done for them.
pub struct Run {
    pub ticks: Option<usize>,
    pub work: Work,
}

/// What must be read before the positions are current.
#[derive(Clone, Copy, Debug, PartialEq, Eq, Structural)]
pub enum Refresh {
    Nothing,
    /// The bodies of the CPU engine.
    Bodies,
    /// This many bytes of the device's positions.
    Device { bytes: u64 },
}

/// The adapter to build on, if the search found one that may be used.
pub open spec fn usable(
    acquired: Result<Gpu, GpuError>,
    allow_software: bool,
) -> Option<AdapterInfo> {
    match acquired {
        Ok(gpu) if allow_software || !gpu.info.software => Some(gpu.info),
        _ => None,
    }
}

/// Whether the GPU backend takes a configuration without a panic.
pub open spec fn gpu_ready(nodes: Seq<NodeInit>, config: Config) -> bool {
    &&& plan::plannable(config.forces@, nodes.len() as int)
    &&& nodes.len() <= u32::MAX
    &&& NODE_SLOTS * nodes.len() <= usize::MAX
}

/// Whether the CPU backend takes a configuration without a panic.
pub open spec fn cpu_ready(nodes: Seq<NodeInit>, config: Config) -> bool {
    &&& cpu::buildable(config.forces@, nodes.len() as int)
    &&& 2 * nodes.len() <= usize::MAX
}

impl SimulationState {
    /// A CPU simulation of a configuration, before anything was read from its
    /// engine.
    pub open spec fn starts_on_cpu(self, nodes: Seq<NodeInit>, config: Config) -> bool {
        self matches SimulationState::Cpu { model, positions } && {
            &&& model.describes(nodes, config)
            &&& positions == Seq::new(2 * nodes.len(), |k: int| Scalar::Value(F32::zero()))
        }
    }

    /// A GPU simulation of a configuration, before its first tick.
    pub open spec fn starts_on_gpu(
        self,
        info: AdapterInfo,
        nodes: Seq<NodeInit>,
        config: Config,
    ) -> bool {
        self matches SimulationState::Gpu(g) && g.starts(info, nodes, config)
    }

    /// The adapter in use, on the GPU.
    pub open spec fn adapter_info(self) -> Option<AdapterInfo> {
        match self {
            SimulationState::Cpu { .. } => None,
            SimulationState::Gpu(g) => Some(g.info),
        }
    }

    /// On the GPU, the sizes agree.
    pub open spec fn wf(self) -> bool {
        self matches SimulationState::Gpu(g) ==> g.wf()
    }
}

impl Simulation {
    /// On the GPU, the sizes agree.
    pub open spec fn wf(&self) -> bool {
        self@.wf()
    }

    /// The GPU if an adapter was found that is no software rasterizer, else the
    /// CPU.
    pub fn new(
        acquired: Result<Gpu, GpuError>,
        nodes: &[NodeInit],
        config: &Config,
    ) -> (r: Simulation)
        requires
            cpu_ready(nodes@, *config),
            usable(acquired, false) is Some ==> gpu_ready(nodes@, *config),
        ensures
            r.wf(),
            match usable(acquired, false) {
                Some(info) if plan::accepted(config.forces@, nodes@.len() as int) =>
                    r@.starts_on_gpu(info, nodes@, *config),
                _ => r@.starts_on_cpu(nodes@, *config),
            },
    {
        Simulation::select(acquired, nodes, config, false)
    }

    /// The GPU if an adapter was found that may be used, else the CPU.
    pub fn select(
        acquired: Result<Gpu, GpuError>,
        nodes: &[NodeInit],
        config: &Config,
        allow_software: bool,
    ) -> (r: Simulation)
        requires
            cpu_ready(nodes@, *config),
            usable(acquired, allow_software) is Some ==> gpu_ready(nodes@, *config),
        ensures
            r.wf(),
            match usable(acquired, allow_software) {
                Some(info) if plan::accepted(config.forces@, nodes@.len() as int) =>
                    r@.starts_on_gpu(info, nodes@, *config),
                _ => r@.starts_on_cpu(nodes@, *config),
            },
    {
        match acquired {
            Ok(gpu) => {
                if allow_software || !gpu.info.software {
                    match GpuSimulation::with_gpu(gpu, nodes, config) {
                        Ok(sim) => Simulation::Gpu(Box::new(sim)),
                        Err(_) => Simulation::cpu(nodes, config),
                    }
                } else {
                    Simulation::cpu(nodes, config)
                }
            },
            Err(_) => Simulation::cpu(nodes, config),
        }
    }

    /// A specific backend. The GPU takes any adapter, and fails without one. The
    /// search for an adapter matters for the GPU only.
    pub fn with_backend(
        backend: Backend,
        acquired: Result<Gpu, GpuError>,
        nodes: &[NodeInit],
        config: &Config,
    ) -> (r: Result<Simulation, GpuError>)
        requires
            backend == Backend::Cpu ==> cpu_ready(nodes@, *config),
            backend == Backend::Gpu && acquired is Ok ==> gpu_ready(nodes@, *config),
        ensures
            r matches Ok(sim) ==> sim.wf(),
            match (backend, acquired) {
                (Backend::Cpu, _) => r matches Ok(sim) && sim@.starts_on_cpu(nodes@, *config),
                (Backend::Gpu, Err(e)) => r == Err::<Simulation, GpuError>(e),
                (Backend::Gpu, Ok(gpu)) => match r {
                    Ok(sim) => {
                        &&& plan::accepted(config.forces@, nodes@.len() as int)
                        &&& sim@.starts_on_gpu(gpu.info, nodes@, *config)
                    },
                    Err(e) => plan::refused(config.forces@, nodes@.len() as int, e),
                },
            },
    {
        match backend {
            Backend::Cpu => Ok(Simulation::cpu(nodes, config)),
            Backend::Gpu => match GpuSimulation::new(acquired, nodes, config) {
                Ok(sim) => Ok(Simulation::Gpu(Box::new(sim))),
                Err(e) => Err(e),
            },
        }
    }

    fn cpu(nodes: &[NodeInit], config: &Config) -> (r: Simulation)
        requires
            cpu_ready(nodes@, *config),
        ensures
            r@.starts_on_cpu(nodes@, *config),
    {
        let positions: Vec<Scalar> = vec![Scalar::Value(F32::zero()); 2 * nodes.len()];
        assert(positions@ =~= Seq::new(2 * nodes@.len(), |k: int| Scalar::Value(F32::zero())));
        Simulation::Cpu { model: Box::new(cpu::build(nodes, config)), positions }
    }

    /// Where this simulation runs.
    pub fn backend(&self) -> (r: Backend)
        ensures
            r == match self {
                Simulation::Cpu { .. } => Backend::Cpu,
                Simulation::Gpu(_) => Backend::Gpu,
            },
            r == Backend::Gpu <==> self@.adapter_info() is Some,
    {
        match self {
            Simulation::Cpu { .. } => Backend::Cpu,
            Simulation::Gpu(_) => Backend::Gpu,
        }
    }

    /// The adapter in use, on the GPU.
    pub fn adapter(&self) -> (r: Option<&AdapterInfo>)
        ensures
            match self {
                Simulation::Cpu { .. } => r is None,
                Simulation::Gpu(g) => r == Some(&g.info),
            },
            r is Some <==> self@.adapter_info() is Some,
            r matches Some(info) ==> self@.adapter_info() == Some(*info),
    {
        match self {
            Simulation::Cpu { .. } => None,
            Simulation::Gpu(g) => Some(g.adapter()),
        }
    }

    /// Ticks a number of times.
    pub fn tick<E: Fn(Scalar) -> F32>(&mut self, iterations: usize, eval: &E) -> (r: Work)
        requires
            old(self).wf(),
            old(self)@ matches SimulationState::Gpu(g) ==> 8 * g.n <= u32::MAX,
            number::total(*eval),
        ensures
            final(self).wf(),
            final(self)@.adapter_info() == old(self)@.adapter_info(),
            match old(self)@ {
                SimulationState::Cpu { .. } => {
                    &&& r == Work::Cpu(CpuCall::Tick(iterations))
                    &&& final(self)@ == old(self)@
                },
                SimulationState::Gpu(g) => if g.n == 0 {
                    r is Nothing && final(self)@ == old(self)@
                } else {
                    r matches Work::Gpu(sent) && {
                        &&& sent.frames@.len() == iterations
                        &&& sent.answers(g, sent.alphas())
                        &&& g.follows(*eval, sent.alphas())
                        &&& final(self)@ == SimulationState::Gpu(g.after_ticks(sent.alphas()))
                    }
                },
            },
    {
        match self {
            Simulation::Cpu { .. } => Work::Cpu(CpuCall::Tick(iterations)),
            Simulation::Gpu(g) => match g.tick(iterations, eval) {
                Some(plan) => Work::Gpu(plan),
                None => Work::Nothing,
            },
        }
    }

    /// Ticks until alpha falls below its minimum, and at most `max_ticks` times.
    pub fn run<E: Fn(Scalar) -> F32>(&mut self, max_ticks: usize, eval: &E) -> (r: Run)
        requires
            old(self).wf(),
            old(self)@ matches SimulationState::Gpu(g) ==> g.tick_due(max_ticks as int) ==> 8 * g.n
                <= u32::MAX,
            number::total(*eval),
        ensures
            final(self).wf(),
            final(self)@.adapter_info() == old(self)@.adapter_info(),
            match old(self)@ {
                SimulationState::Cpu { .. } => {
                    &&& r.ticks is None
                    &&& r.work == Work::Cpu(CpuCall::Run(max_ticks))
                    &&& final(self)@ == old(self)@
                },
                SimulationState::Gpu(g) => {
                    &&& r.ticks matches Some(ticks) && final(self)@ matches SimulationState::Gpu(
                        after,
                    ) && {
                        let sent = match r.work {
                            Work::Gpu(plan) => Some(plan),
                            _ => None,
                        };
                        g.runs(*eval, max_ticks as int, ticks as int, sent, after)
                    }
                    &&& r.work !is Cpu
                },
            },
    {
        match self {
            Simulation::Cpu { .. } => Run {
                ticks: None,
                work: Work::Cpu(CpuCall::Run(max_ticks)),
            },
            Simulation::Gpu(g) => {
                let (ticks, sent) = g.run(max_ticks, eval);
                let work = match sent {
                    Some(plan) => Work::Gpu(plan),
                    None => Work::Nothing,
                };
                Run { ticks: Some(ticks), work }
            },
        }
    }

    /// What must be read before the positions are current.
    pub fn refresh(&self) -> (r: Refresh)
        ensures
            r == match self {
                Simulation::Cpu { .. } => Refresh::Bodies,
                Simulation::Gpu(g) => if g.positions_dirty {
                    Refresh::Device { bytes: (8 * g.n) as u64 }
                } else {
                    Refresh::Nothing
                },
            },
    {
        match self {
            Simulation::Cpu { .. } => Refresh::Bodies,
            Simulation::Gpu(g) => match g.stale_bytes() {
                Some(bytes) => Refresh::Device { bytes },
                None => Refresh::Nothing,
            },
        }
    }

    /// Takes over the coordinates of the bodies of the CPU engine, as far as there
    /// are places for them.
    pub fn store_bodies(&mut self, pos: &[F32])
        requires
            old(self).wf(),
        ensures
            final(self).wf(),
            final(self)@.adapter_info() == old(self)@.adapter_info(),
            match old(self)@ {
                SimulationState::Cpu { model, positions } => final(self)@ == (SimulationState::Cpu {
                    model,
                    positions: Seq::new(
                        positions.len(),
                        |k: int|
                            if k < pos@.len() {
                                Scalar::Value(pos@[k])
                            } else {
                                positions[k]
                            },
                    ),
                }),
                SimulationState::Gpu(_) => final(self)@ == old(self)@,
            },
    {
        match self {
            Simulation::Cpu { positions, .. } => {
                let ghost before = positions@;
                let mut k: usize = 0;
                while k < positions.len() && k < pos.len()
                    invariant
                        k <= positions@.len(),
                        k <= pos@.len(),
                        positions@ =~= Seq::new(
                            before.len(),
                            |j: int|
                                if j < k {
                                    Scalar::Value(pos@[j])
                                } else {
                                    before[j]
                                },
                        ),
                    decreases positions@.len() - k,
                {
                    positions[k] = Scalar::Value(pos[k]);
                    k += 1;
                }
                assert(positions@ =~= Seq::new(
                    before.len(),
                    |j: int|
                        if j < pos@.len() {
                            Scalar::Value(pos@[j])
                        } else {
                            before[j]
                        },
                ));
            },
            Simulation::Gpu(_) => {},
        }
    }

    /// Interleaved `[x0, y0, x1, y1, ...]`. On the GPU, the host must have the
    /// device's positions; on the CPU, they are those of the last time that the host
    /// handed in the bodies.
    pub fn positions(&self) -> (r: &Vec<Scalar>)
        requires
            self@ matches SimulationState::Gpu(g) ==> !g.positions_dirty,
        ensures
            r@ == match self@ {
                SimulationState::Cpu { positions, .. } => positions,
                SimulationState::Gpu(g) => g.positions,
            },
    {
        match self {
            Simulation::Cpu { positions, .. } => positions,
            Simulation::Gpu(g) => g.positions(),
        }
    }

    /// The current alpha, unless the CPU engine keeps it.
    pub fn alpha(&self) -> (r: Option<F32>)
        ensures
            r == match self@ {
                SimulationState::Cpu { .. } => None,
                SimulationState::Gpu(g) => Some(g.params.alpha),
            },
    {
        match self {
            Simulation::Cpu { .. } => None,
            Simulation::Gpu(g) => Some(g.alpha()),
        }
    }

    /// Sets the current alpha. On the CPU this is a request to the engine.
    pub fn set_alpha(&mut self, v: F32) -> (r: Option<CpuCall>)
        requires
            old(self).wf(),
        ensures
            final(self).wf(),
            final(self)@.adapter_info() == old(self)@.adapter_info(),
            match old(self)@ {
                SimulationState::Cpu { .. } => {
                    &&& r == Some(CpuCall::SetAlpha(v))
                    &&& final(self)@ == old(self)@
                },
                SimulationState::Gpu(g) => {
                    &&& r is None
                    &&& final(self)@ == SimulationState::Gpu(GpuState {
                        params: plan::Params { alpha: v, ..g.params },
                        ..g
                    })
                },
            },
    {
        match self {
            Simulation::Cpu { .. } => Some(CpuCall::SetAlpha(v)),
            Simulation::Gpu(g) => {
                g.set_alpha(v);
                None
            },
        }
    }

    /// The alpha below which a run stops, unless the CPU engine keeps it.
    pub fn alpha_min(&self) -> (r: Option<F32>)
        ensures
            r == match self@ {
                SimulationState::Cpu { .. } => None,
                SimulationState::Gpu(g) => Some(g.alpha_min),
            },
    {
        match self {
            Simulation::Cpu { .. } => None,
            Simulation::Gpu(g) => Some(g.alpha_min()),
        }
    }

    /// Sets what alpha tends to. On the CPU this is a request to the engine.
    pub fn set_alpha_target(&mut self, v: F32) -> (r: Option<CpuCall>)
        requires
            old(self).wf(),
        ensures
            final(self).wf(),
            final(self)@.adapter_info() == old(self)@.adapter_info(),
            match old(self)@ {
                SimulationState::Cpu { .. } => {
                    &&& r == Some(CpuCall::SetAlphaTarget(v))
                    &&& final(self)@ == old(self)@
                },
                SimulationState::Gpu(g) => {
                    &&& r is None
                    &&& final(self)@ == SimulationState::Gpu(GpuState { alpha_target: v, ..g })
                },
            },
    {
        match self {
            Simulation::Cpu { .. } => Some(CpuCall::SetAlphaTarget(v)),
            Simulation::Gpu(g) => {
                g.set_alpha_target(v);
                None
            },
        }
    }

    /// Sets the share of its way to the target that alpha goes per tick. On the CPU
    /// this is a request to the engine.
    pub fn set_alpha_decay(&mut self, v: F32) -> (r: Option<CpuCall>)
        requires
            old(self).wf(),
        ensures
            final(self).wf(),
            final(self)@.adapter_info() == old(self)@.adapter_info(),
            match old(self)@ {
                SimulationState::Cpu { .. } => {
                    &&& r == Some(CpuCall::SetAlphaDecay(v))
                    &&& final(self)@ == old(self)@
                },
                SimulationState::Gpu(g) => {
                    &&& r is None
                    &&& final(self)@ == SimulationState::Gpu(GpuState { alpha_decay: v, ..g })
                },
            },
    {
        match self {
            Simulation::Cpu { .. } => Some(CpuCall::SetAlphaDecay(v)),
            Simulation::Gpu(g) => {
                g.set_alpha_decay(v);
                None
            },
        }
    }

    /// Fixes node `i` at `(fx, fy)`, where a NaN frees an axis. On the CPU this is
    /// a request to the engine.
    pub fn set_fixed(&mut self, i: usize, fx: F32, fy: F32) -> (r: Option<CpuCall>)
        requires
            old(self).wf(),
            match old(self)@ {
                SimulationState::Cpu { positions, .. } => 2 * i + 1 < positions.len(),
                SimulationState::Gpu(g) => i < g.n,
            },
        ensures
            final(self).wf(),
            final(self)@.adapter_info() == old(self)@.adapter_info(),
            match old(self)@ {
                SimulationState::Cpu { .. } => {
                    &&& r == Some(CpuCall::SetFixed { i, fx, fy })
                    &&& final(self)@ == old(self)@
                },
                SimulationState::Gpu(g) => {
                    &&& r is None
                    &&& final(self)@ == SimulationState::Gpu(g.with_fixed(i as int, fx, fy))
                },
            },
    {
        match self {
            Simulation::Cpu { .. } => Some(CpuCall::SetFixed { i, fx, fy }),
            Simulation::Gpu(g) => {
                g.set_fixed(i, fx, fy);
                None
            },
        }
    }
}

} // verus!
