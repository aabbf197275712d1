//! The host side of a GPU simulation: what it keeps, and what it asks of the device.

use crate::adapter::{AdapterInfo, Gpu, GpuError};
use crate::bytes;
use crate::bytes::Word;
use crate::model::{Config, NodeInit};
use crate::number;
use crate::number::{Scalar, F32};
use crate::plan;
use crate::plan::{Params, Pass, NODE_SLOTS};
use vstd::prelude::*;

pub use crate::plan::COLLIDE_EXTRA_SWEEPS;

verus! {

impl Params {
    /// The words of the uniform block, in the order in which the device reads
    /// them, filled up to a whole number of four-word rows.
    pub open spec fn layout(self) -> Seq<Word> {
        seq![
            Word::Count(self.n),
            Word::Count(self.m),
            Word::Number(Scalar::Value(self.alpha)),
            Word::Number(self.velocity_decay),
            Word::Number(self.distance_min2),
            Word::Number(self.distance_max2),
            Word::Number(Scalar::Value(self.collide_strength)),
            Word::Number(Scalar::Value(self.center_strength)),
            Word::Number(Scalar::Value(self.center_x)),
            Word::Number(Scalar::Value(self.center_y)),
            Word::Number(Scalar::Value(self.radial_x)),
            Word::Number(Scalar::Value(self.radial_y)),
            Word::Count(self.tick),
            Word::Count(self.groups),
            Word::Count(self.ptr_off),
            Word::Count(self.idx_off),
            Word::Count(self.ends_off),
            Word::Count(0),
            Word::Count(0),
            Word::Count(0),
        ]
    }

    /// The words of the uniform block.
    pub fn words(&self) -> (r: Vec<Word>)
        ensures
            r@ == self.layout(),
    {
        let r = vec![
            Word::Count(self.n),
            Word::Count(self.m),
            Word::Number(Scalar::Value(self.alpha)),
            Word::Number(self.velocity_decay),
            Word::Number(self.distance_min2),
            Word::Number(self.distance_max2),
            Word::Number(Scalar::Value(self.collide_strength)),
            Word::Number(Scalar::Value(self.center_strength)),
            Word::Number(Scalar::Value(self.center_x)),
            Word::Number(Scalar::Value(self.center_y)),
            Word::Number(Scalar::Value(self.radial_x)),
            Word::Number(Scalar::Value(self.radial_y)),
            Word::Count(self.tick),
            Word::Count(self.groups),
            Word::Count(self.ptr_off),
            Word::Count(self.idx_off),
            Word::Count(self.ends_off),
            Word::Count(0),
            Word::Count(0),
            Word::Count(0),
        ];
        assert(r@ =~= self.layout());
        r
    }

    /// The bytes of the uniform block.
    pub fn bytes<E: Fn(Scalar) -> F32>(&self, eval: &E) -> (r: Vec<u8>)
        requires
            number::total(*eval),
        ensures
            bytes::sent_for(*eval, self.layout(), r@),
    {
        bytes::send(eval, &self.words())
    }
}

/// The device programs.
#[derive(Clone, Copy, Debug, PartialEq, Eq, Structural)]
pub enum Kernel {
    ManyBody,
    Link,
    Collide,
    ForceX,
    ForceY,
    Radial,
    CenterReduce1,
    CenterReduce2,
    CenterApply,
    Integrate,
}

impl Kernel {
    /// The name of the program in the shader.
    pub open spec fn spec_entry_point(self) -> Seq<char> {
        match self {
            Kernel::ManyBody => "many_body"@,
            Kernel::Link => "link"@,
            Kernel::Collide => "collide"@,
            Kernel::ForceX => "force_x"@,
            Kernel::ForceY => "force_y"@,
            Kernel::Radial => "radial"@,
            Kernel::CenterReduce1 => "center_reduce1"@,
            Kernel::CenterReduce2 => "center_reduce2"@,
            Kernel::CenterApply => "center_apply"@,
            Kernel::Integrate => "integrate"@,
        }
    }

    /// The name of the program in the shader.
    pub fn entry_point(self) -> (r: &'static str)
        ensures
            r@ == self.spec_entry_point(),
    {
        match self {
            Kernel::ManyBody => "many_body",
            Kernel::Link => "link",
            Kernel::Collide => "collide",
            Kernel::ForceX => "force_x",
            Kernel::ForceY => "force_y",
            Kernel::Radial => "radial",
            Kernel::CenterReduce1 => "center_reduce1",
            Kernel::CenterReduce2 => "center_reduce2",
            Kernel::CenterApply => "center_apply",
            Kernel::Integrate => "integrate",
        }
    }
}

/// How the device programs use a buffer.
#[derive(Clone, Copy, Debug, PartialEq, Eq, Structural)]
pub enum Access {
    Uniform,
    ReadOnly,
    ReadWrite,
}

/// The buffers that the device programs see, in the order of their bindings:
/// parameters, positions, velocities, snapshot of the velocities, node numbers,
/// link words, link numbers, and scratch space for sums.
pub const BINDINGS: u32 = 8;

/// How the device programs use the buffer of a binding.
pub fn binding_access(binding: u32) -> (r: Access)
    ensures
        r == if binding == 0 {
            Access::Uniform
        } else if 3 <= binding <= 6 {
            Access::ReadOnly
        } else {
            Access::ReadWrite
        },
{
    if binding == 0 {
        Access::Uniform
    } else if 3 <= binding && binding <= 6 {
        Access::ReadOnly
    } else {
        Access::ReadWrite
    }
}

/// One step of the work that the device does in a tick.
#[derive(Clone, Copy, Debug, PartialEq, Eq, Structural)]
pub enum Command {
    /// Copies the first `bytes` bytes of the velocities to their snapshot.
    Snapshot { bytes: u64 },
    /// Runs a program on a number of workgroups.
    Dispatch { kernel: Kernel, groups: u32 },
}

/// `count` rounds of a program that reads the velocities as they were before the
/// round.
pub open spec fn sweeps(kernel: Kernel, count: nat, groups: u32, bytes: u64) -> Seq<Command>
    decreases count,
{
    if count == 0 {
        Seq::empty()
    } else {
        sweeps(kernel, (count - 1) as nat, groups, bytes).push(Command::Snapshot { bytes }).push(
            Command::Dispatch { kernel, groups },
        )
    }
}

/// The work of one pass.
pub open spec fn pass_commands(pass: Pass, groups: u32, bytes: u64) -> Seq<Command> {
    match pass {
        Pass::ManyBody => seq![Command::Dispatch { kernel: Kernel::ManyBody, groups }],
        Pass::Link { iterations } => sweeps(Kernel::Link, iterations as nat, groups, bytes),
        Pass::Collide { iterations } => sweeps(Kernel::Collide, iterations as nat, groups, bytes),
        Pass::X => seq![Command::Dispatch { kernel: Kernel::ForceX, groups }],
        Pass::Y => seq![Command::Dispatch { kernel: Kernel::ForceY, groups }],
        Pass::Radial => seq![Command::Dispatch { kernel: Kernel::Radial, groups }],
        Pass::Center => seq![
            Command::Dispatch { kernel: Kernel::CenterReduce1, groups },
            Command::Dispatch { kernel: Kernel::CenterReduce2, groups: 1 },
            Command::Dispatch { kernel: Kernel::CenterApply, groups },
        ],
    }
}

/// The work of a run of passes.
pub open spec fn passes_commands(passes: Seq<Pass>, groups: u32, bytes: u64) -> Seq<Command>
    decreases passes.len(),
{
    if passes.len() == 0 {
        Seq::empty()
    } else {
        passes_commands(passes.drop_last(), groups, bytes) + pass_commands(
            passes.last(),
            groups,
            bytes,
        )
    }
}

/// The work of a tick: the passes in their order, then integration.
pub open spec fn tick_commands(passes: Seq<Pass>, groups: u32, bytes: u64) -> Seq<Command> {
    passes_commands(passes, groups, bytes).push(
        Command::Dispatch { kernel: Kernel::Integrate, groups },
    )
}

fn push_sweeps(commands: &mut Vec<Command>, kernel: Kernel, count: u32, groups: u32, bytes: u64)
    ensures
        final(commands)@ == old(commands)@ + sweeps(kernel, count as nat, groups, bytes),
{
    let ghost before = commands@;
    let mut i: u32 = 0;
    while i < count
        invariant
            i <= count,
            commands@ =~= before + sweeps(kernel, i as nat, groups, bytes),
        decreases count - i,
    {
        commands.push(Command::Snapshot { bytes });
        commands.push(Command::Dispatch { kernel, groups });
        i += 1;
    }
}

/// Lists the work of a tick.
pub fn list_commands(passes: &Vec<Pass>, groups: u32, bytes: u64) -> (r: Vec<Command>)
    ensures
        r@ == tick_commands(passes@, groups, bytes),
{
    let mut r: Vec<Command> = Vec::new();
    let mut k: usize = 0;
    while k < passes.len()
        invariant
            k <= passes@.len(),
            r@ =~= passes_commands(passes@.take(k as int), groups, bytes),
        decreases passes@.len() - k,
    {
        let ghost before = r@;
        match passes[k] {
            Pass::ManyBody => r.push(Command::Dispatch { kernel: Kernel::ManyBody, groups }),
            Pass::Link { iterations } => push_sweeps(
                &mut r,
                Kernel::Link,
                iterations,
                groups,
                bytes,
            ),
            Pass::Collide { iterations } => push_sweeps(
                &mut r,
                Kernel::Collide,
                iterations,
                groups,
                bytes,
            ),
            Pass::X => r.push(Command::Dispatch { kernel: Kernel::ForceX, groups }),
            Pass::Y => r.push(Command::Dispatch { kernel: Kernel::ForceY, groups }),
            Pass::Radial => r.push(Command::Dispatch { kernel: Kernel::Radial, groups }),
            Pass::Center => {
                r.push(Command::Dispatch { kernel: Kernel::CenterReduce1, groups });
                r.push(Command::Dispatch { kernel: Kernel::CenterReduce2, groups: 1 });
                r.push(Command::Dispatch { kernel: Kernel::CenterApply, groups });
            },
        }
        assert(r@ =~= before + pass_commands(passes@[k as int], groups, bytes));
        assert(passes@.take(k + 1).drop_last() =~= passes@.take(k as int));
        k += 1;
    }
    assert(passes@.take(k as int) =~= passes@);
    r.push(Command::Dispatch { kernel: Kernel::Integrate, groups });
    r
}

/// A GPU simulation as the host sees it.
pub struct GpuSimulation {
    pub info: AdapterInfo,
    pub n: u32,
    pub m: u32,
    pub params: Params,
    pub alpha_min: F32,
    pub alpha_decay: F32,
    pub alpha_target: F32,
    pub passes: Vec<Pass>,
    /// The word buffer of the links.
    pub links_u: Vec<u32>,
    /// The number buffer of the links.
    pub links_f: Vec<Scalar>,
    /// The node buffer.
    pub nodes_f: Vec<F32>,
    /// Whether the device has an older node buffer.
    pub nodes_dirty: bool,
    /// Interleaved `[x0, y0, x1, y1, ...]`.
    pub positions: Vec<Scalar>,
    /// Whether the device has newer positions.
    pub positions_dirty: bool,
    /// The nodes that were moved by hand since the last tick.
    pub moved: Vec<u32>,
}

/// What a [`GpuSimulation`] stands for.
#[verifier::ext_equal]
pub struct GpuState {
    pub info: AdapterInfo,
    pub n: u32,
    pub m: u32,
    pub params: Params,
    pub alpha_min: F32,
    pub alpha_decay: F32,
    pub alpha_target: F32,
    pub passes: Seq<Pass>,
    pub links_u: Seq<u32>,
    pub links_f: Seq<Scalar>,
    pub nodes_f: Seq<F32>,
    pub nodes_dirty: bool,
    pub positions: Seq<Scalar>,
    pub positions_dirty: bool,
    pub moved: Seq<u32>,
}

impl View for GpuSimulation {
    type V = GpuState;

    open spec fn view(&self) -> GpuState {
        GpuState {
            info: self.info,
            n: self.n,
            m: self.m,
            params: self.params,
            alpha_min: self.alpha_min,
            alpha_decay: self.alpha_decay,
            alpha_target: self.alpha_target,
            passes: self.passes@,
            links_u: self.links_u@,
            links_f: self.links_f@,
            nodes_f: self.nodes_f@,
            nodes_dirty: self.nodes_dirty,
            positions: self.positions@,
            positions_dirty: self.positions_dirty,
            moved: self.moved@,
        }
    }
}

impl GpuState {
    /// The sizes agree: there are rows and coordinates for exactly the nodes, and
    /// the parameters count the same nodes and links.
    pub open spec fn wf(self) -> bool {
        &&& self.nodes_f.len() == NODE_SLOTS * self.n
        &&& self.positions.len() == 2 * self.n
        &&& self.params.n == self.n
        &&& self.params.m == self.m
        &&& self.params.groups == plan::spec_groups(self.n)
        &&& self.params.velocity_decay is OneMinus
        &&& forall|k: int| 0 <= k < self.moved.len() ==> #[trigger] self.moved[k] < self.n
    }

    /// The state that an accepted configuration starts in.
    pub open spec fn starts(self, info: AdapterInfo, nodes: Seq<NodeInit>, config: Config) -> bool {
        let forces = config.forces@;
        &&& self.info == info
        &&& self.n == nodes.len()
        &&& self.m == plan::links_of(forces).len()
        &&& self.params == plan::params_of(config, nodes.len() as int)
        &&& self.alpha_min == config.alpha_min
        &&& self.alpha_decay == config.alpha_decay
        &&& self.alpha_target == config.alpha_target
        &&& self.passes == plan::passes_of(forces)
        &&& plan::is_link_words(self.links_u, plan::links_of(forces), nodes.len() as int)
        &&& plan::is_link_numbers(self.links_f, forces)
        &&& plan::is_node_buffer(self.nodes_f, forces, nodes)
        &&& !self.nodes_dirty
        &&& plan::is_start(self.positions, nodes)
        &&& !self.positions_dirty
        &&& self.moved.len() == 0
    }

    /// The state after node `i` was fixed at `(fx, fy)`.
    pub open spec fn with_fixed(self, i: int, fx: F32, fy: F32) -> GpuState {
        GpuState {
            nodes_f: Seq::new(
                self.nodes_f.len(),
                |k: int|
                    if NODE_SLOTS * i + 8 <= k < NODE_SLOTS * i + 12 {
                        plan::pin_slot(fx, fy, k - NODE_SLOTS * i)
                    } else {
                        self.nodes_f[k]
                    },
            ),
            nodes_dirty: true,
            ..self
        }
    }

    /// The state after node `i` was moved to `(x, y)`.
    pub open spec fn with_position(self, i: int, x: F32, y: F32) -> GpuState {
        GpuState {
            positions: self.positions.update(2 * i, Scalar::Value(x)).update(
                2 * i + 1,
                Scalar::Value(y),
            ),
            moved: self.moved.push(i as u32),
            ..self
        }
    }

    /// The state after the device handed back the positions as words.
    pub open spec fn with_read_back(self, words: Seq<u32>) -> GpuState {
        GpuState {
            positions: Seq::new(
                words.len(),
                |k: int| Scalar::Value(F32 { bits: words[k] }),
            ),
            positions_dirty: false,
            ..self
        }
    }

    /// The alpha before tick number `k`, counted from zero, of a run of ticks with
    /// the given alphas.
    pub open spec fn alpha_before(self, alphas: Seq<F32>, k: int) -> F32 {
        if k == 0 {
            self.params.alpha
        } else {
            alphas[k - 1]
        }
    }

    /// Whether each alpha of a run of ticks is what the host makes of the one before
    /// it: a step towards the target at the rate of the decay.
    pub open spec fn follows<E: Fn(Scalar) -> F32>(self, eval: E, alphas: Seq<F32>) -> bool {
        forall|k: int|
            0 <= k < alphas.len() ==> call_ensures(
                eval,
                (
                    Scalar::Approach {
                        from: #[trigger] self.alpha_before(alphas, k),
                        to: self.alpha_target,
                        rate: self.alpha_decay,
                    },
                ),
                alphas[k],
            )
    }

    /// Whether a run goes on with tick number `k`, counted from zero, of a run of
    /// ticks with the given alphas: alpha has not yet fallen below its minimum.
    pub open spec fn hot(self, alphas: Seq<F32>, k: int) -> bool {
        self.alpha_before(alphas, k).spec_at_least(self.alpha_min)
    }

    /// Whether a run of at most `max_ticks` ticks has a tick to make.
    pub open spec fn tick_due(self, max_ticks: int) -> bool {
        max_ticks > 0 && self.params.alpha.spec_at_least(self.alpha_min)
    }

    /// The parameters of tick number `k`, counted from zero, of a run of ticks with
    /// the given alphas.
    pub open spec fn frame(self, alphas: Seq<F32>, k: int) -> Params {
        Params {
            alpha: alphas[k],
            tick: ((self.params.tick + k + 1) % 0x1_0000_0000) as u32,
            ..self.params
        }
    }

    /// The state after a run of ticks with the given alphas.
    pub open spec fn after_ticks(self, alphas: Seq<F32>) -> GpuState {
        GpuState {
            params: if alphas.len() == 0 {
                self.params
            } else {
                self.frame(alphas, alphas.len() - 1)
            },
            nodes_dirty: false,
            positions_dirty: true,
            moved: Seq::empty(),
            ..self
        }
    }
}

/// What the host sends to the device for a run of ticks.
pub struct TickPlan {
    /// Whether the node buffer goes first.
    pub upload_nodes: bool,
    /// The nodes whose velocity is zeroed first.
    pub stopped: Vec<u32>,
    /// The parameters of each tick, sent before its commands.
    pub frames: Vec<Params>,
    /// The commands of each tick.
    pub commands: Vec<Command>,
}

impl TickPlan {
    /// The alphas of the ticks.
    pub open spec fn alphas(self) -> Seq<F32> {
        Seq::new(self.frames@.len(), |k: int| self.frames@[k].alpha)
    }

    /// Whether this is what a simulation in state `before` sends for a run of ticks
    /// with the given alphas.
    pub open spec fn answers(self, before: GpuState, alphas: Seq<F32>) -> bool {
        &&& self.upload_nodes == before.nodes_dirty
        &&& self.stopped@ == before.moved
        &&& self.frames@ == Seq::new(alphas.len(), |k: int| before.frame(alphas, k))
        &&& self.commands@ == tick_commands(
            before.passes,
            plan::spec_groups(before.n),
            (8 * before.n) as u64,
        )
    }
}

impl GpuState {
    /// Whether a run of at most `max_ticks` ticks does `ticks` of them, sends `sent`
    /// and leaves the state `after`. It goes on exactly as long as alpha is at least
    /// its minimum. Without nodes nothing changes, so that alpha stays where it is.
    pub open spec fn runs<E: Fn(Scalar) -> F32>(
        self,
        eval: E,
        max_ticks: int,
        ticks: int,
        sent: Option<TickPlan>,
        after: GpuState,
    ) -> bool {
        if !self.tick_due(max_ticks) {
            ticks == 0 && sent is None && after == self
        } else if self.n == 0 {
            ticks == max_ticks && sent is None && after == self
        } else {
            &&& 0 < ticks <= max_ticks
            &&& sent matches Some(plan) && {
                &&& plan.frames@.len() == ticks
                &&& plan.answers(self, plan.alphas())
                &&& self.follows(eval, plan.alphas())
                &&& forall|k: int| 0 <= k < ticks ==> #[trigger] self.hot(plan.alphas(), k)
                &&& ticks == max_ticks || !self.hot(plan.alphas(), ticks)
                &&& after == self.after_ticks(plan.alphas())
            }
        }
    }
}

/// Bytes for a place in a device buffer.
pub struct Upload {
    pub offset: u64,
    pub bytes: Vec<u8>,
}

/// The write to the velocities that stops node `i`.
pub fn stop(i: u32) -> (r: Upload)
    ensures
        r.offset == 8 * i,
        r.bytes@ == Seq::new(8, |k: int| 0u8),
        bytes::spells(r.bytes@, bytes::bits_of(seq![F32::zero(), F32::zero()])),
{
    let bytes: Vec<u8> = vec![0u8; 8];
    assert(bytes@ =~= Seq::new(8, |k: int| 0u8));
    assert(bytes::holds_words(
        bytes@,
        bytes::bits_of(seq![F32::zero(), F32::zero()]),
        true,
    ));
    Upload { offset: 8 * (i as u64), bytes }
}

impl GpuSimulation {
    /// The sizes agree.
    pub open spec fn wf(&self) -> bool {
        self@.wf()
    }

    /// Builds on a device, once the search for one has ended. What ended the
    /// search comes before what is wrong with the configuration.
    pub fn new(
        acquired: Result<Gpu, GpuError>,
        nodes: &[NodeInit],
        config: &Config,
    ) -> (r: Result<GpuSimulation, GpuError>)
        requires
            acquired is Ok ==> plan::plannable(config.forces@, nodes@.len() as int),
            acquired is Ok ==> nodes@.len() <= u32::MAX,
            acquired is Ok ==> NODE_SLOTS * nodes@.len() <= usize::MAX,
        ensures
            match acquired {
                Err(e) => r == Err::<GpuSimulation, GpuError>(e),
                Ok(gpu) => match r {
                    Ok(sim) => {
                        &&& plan::accepted(config.forces@, nodes@.len() as int)
                        &&& sim@.starts(gpu.info, nodes@, *config)
                        &&& sim.wf()
                    },
                    Err(e) => plan::refused(config.forces@, nodes@.len() as int, e),
                },
            },
    {
        match acquired {
            Err(e) => Err(e),
            Ok(gpu) => GpuSimulation::with_gpu(gpu, nodes, config),
        }
    }

    /// Builds on an open device.
    pub fn with_gpu(gpu: Gpu, nodes: &[NodeInit], config: &Config) -> (r: Result<
        GpuSimulation,
        GpuError,
    >)
        requires
            plan::plannable(config.forces@, nodes@.len() as int),
            nodes@.len() <= u32::MAX,
            NODE_SLOTS * nodes@.len() <= usize::MAX,
        ensures
            match r {
                Ok(sim) => {
                    &&& plan::accepted(config.forces@, nodes@.len() as int)
                    &&& sim@.starts(gpu.info, nodes@, *config)
                    &&& sim.wf()
                },
                Err(e) => plan::refused(config.forces@, nodes@.len() as int, e),
            },
    {
        let n: usize = nodes.len();
        match plan::check_forces(&config.forces, n) {
            Err(e) => {
                return Err(e);
            },
            Ok(_) => {},
        }
        let (links_u, links_f) = plan::pack_links(&config.forces, n);
        let words: usize = links_u.len();
        assert(words == n + 1 + 4 * plan::links_of(config.forces@).len());
        let params: Params = plan::start_params(config, n);
        Ok(
            GpuSimulation {
                info: gpu.info,
                n: n as u32,
                m: params.m,
                params,
                alpha_min: config.alpha_min,
                alpha_decay: config.alpha_decay,
                alpha_target: config.alpha_target,
                passes: plan::list_passes(&config.forces, n),
                links_u,
                links_f,
                nodes_f: plan::pack_nodes(&config.forces, nodes),
                nodes_dirty: false,
                positions: plan::start_positions(nodes),
                positions_dirty: false,
                moved: Vec::new(),
            },
        )
    }

    /// The adapter in use.
    pub fn adapter(&self) -> (r: &AdapterInfo)
        ensures
            *r == self.info,
    {
        &self.info
    }

    /// How many nodes there are.
    pub fn len(&self) -> (r: usize)
        ensures
            r == self.n,
    {
        self.n as usize
    }

    /// Whether there is no node.
    pub fn is_empty(&self) -> (r: bool)
        ensures
            r == (self.n == 0),
    {
        self.n == 0
    }

    /// How many links there are.
    pub fn link_count(&self) -> (r: usize)
        ensures
            r == self.m,
    {
        self.m as usize
    }

    /// The current alpha.
    pub fn alpha(&self) -> (r: F32)
        ensures
            r == self.params.alpha,
    {
        self.params.alpha
    }

    /// Sets the current alpha.
    pub fn set_alpha(&mut self, v: F32) -> (r: &mut Self)
        ensures
            r@ == (GpuState { params: Params { alpha: v, ..old(self).params }, ..old(self)@ }),
            *final(self) == *final(r),
    {
        self.params.alpha = v;
        self
    }

    /// The alpha below which a run stops.
    pub fn alpha_min(&self) -> (r: F32)
        ensures
            r == self.alpha_min,
    {
        self.alpha_min
    }

    /// Sets the alpha below which a run stops.
    pub fn set_alpha_min(&mut self, v: F32) -> (r: &mut Self)
        ensures
            r@ == (GpuState { alpha_min: v, ..old(self)@ }),
            *final(self) == *final(r),
    {
        self.alpha_min = v;
        self
    }

    /// The share of its way to the target that alpha goes per tick.
    pub fn alpha_decay(&self) -> (r: F32)
        ensures
            r == self.alpha_decay,
    {
        self.alpha_decay
    }

    /// Sets the share of its way to the target that alpha goes per tick.
    pub fn set_alpha_decay(&mut self, v: F32) -> (r: &mut Self)
        ensures
            r@ == (GpuState { alpha_decay: v, ..old(self)@ }),
            *final(self) == *final(r),
    {
        self.alpha_decay = v;
        self
    }

    /// What alpha tends to.
    pub fn alpha_target(&self) -> (r: F32)
        ensures
            r == self.alpha_target,
    {
        self.alpha_target
    }

    /// Sets what alpha tends to.
    pub fn set_alpha_target(&mut self, v: F32) -> (r: &mut Self)
        ensures
            r@ == (GpuState { alpha_target: v, ..old(self)@ }),
            *final(self) == *final(r),
    {
        self.alpha_target = v;
        self
    }

    /// One minus the share of its velocity that a node keeps per tick, as the host
    /// computes it.
    pub fn velocity_decay(&self) -> (r: Scalar)
        requires
            self.wf(),
        ensures
            r == Scalar::TwiceOneMinus(self.params.velocity_decay->OneMinus_0),
    {
        match self.params.velocity_decay {
            Scalar::OneMinus(v) => Scalar::TwiceOneMinus(v),
            other => other,
        }
    }

    /// Sets the share of its velocity that a node loses per tick.
    pub fn set_velocity_decay(&mut self, v: F32) -> (r: &mut Self)
        ensures
            r@ == (GpuState {
                params: Params { velocity_decay: Scalar::OneMinus(v), ..old(self).params },
                ..old(self)@
            }),
            *final(self) == *final(r),
    {
        self.params.velocity_decay = Scalar::OneMinus(v);
        self
    }

    /// Fixes node `i` at `(fx, fy)`. A NaN frees an axis.
    pub fn set_fixed(&mut self, i: usize, fx: F32, fy: F32)
        requires
            old(self).wf(),
            i < old(self).n,
        ensures
            final(self)@ == old(self)@.with_fixed(i as int, fx, fy),
            final(self).wf(),
    {
        let pins: [F32; 4] = plan::pin_slots(fx, fy);
        let rows: usize = self.nodes_f.len();
        assert(NODE_SLOTS * i + 12 <= rows) by (nonlinear_arith)
            requires
                rows == NODE_SLOTS * self.n,
                i < self.n,
                NODE_SLOTS == 12,
        ;
        let b: usize = NODE_SLOTS * i;
        self.nodes_f[b + 8] = pins[0];
        self.nodes_f[b + 9] = pins[1];
        self.nodes_f[b + 10] = pins[2];
        self.nodes_f[b + 11] = pins[3];
        self.nodes_dirty = true;
        proof {
            assert forall|k: int| 0 <= k < 4 implies #[trigger] pins@[k] == plan::pin_slot(
                fx,
                fy,
                k + 8,
            ) by {}
            assert(self.nodes_f@ =~= old(self)@.with_fixed(i as int, fx, fy).nodes_f);
        }
    }

    /// Moves node `i` to `(x, y)` and stops it: its velocity is zeroed with the
    /// next tick. The host must have the device's positions.
    pub fn set_position(&mut self, i: usize, x: F32, y: F32) -> (r: Upload)
        requires
            old(self).wf(),
            i < old(self).n,
            !old(self).positions_dirty,
        ensures
            final(self)@ == old(self)@.with_position(i as int, x, y),
            final(self).wf(),
            r.offset == 8 * i,
            bytes::spells(r.bytes@, seq![x.bits, y.bits]),
    {
        let coordinates: usize = self.positions.len();
        assert(coordinates == 2 * self.n);
        self.positions[2 * i] = Scalar::Value(x);
        self.positions[2 * i + 1] = Scalar::Value(y);
        self.moved.push(i as u32);
        let words: [u32; 2] = [x.bits, y.bits];
        assert(words@ =~= seq![x.bits, y.bits]);
        Upload { offset: 8 * (i as u64), bytes: bytes::word_bytes(&words) }
    }

    /// How many bytes of positions or velocities the device holds, at least one
    /// node's worth.
    pub fn position_bytes(&self) -> (r: u64)
        ensures
            r == 8 * (if self.n == 0 {
                1
            } else {
                self.n as int
            }),
    {
        if self.n == 0 {
            8
        } else {
            8 * (self.n as u64)
        }
    }

    /// How many bytes of scratch space the sums over all nodes need.
    pub fn reduce_bytes(&self) -> (r: u64)
        ensures
            r == 8 * (if plan::spec_groups(self.n) == 0 {
                1
            } else {
                plan::spec_groups(self.n) as int
            }),
    {
        let g: u32 = plan::groups(self.n);
        if g == 0 {
            8
        } else {
            8 * (g as u64)
        }
    }

    /// The bytes of the node buffer.
    pub fn node_bytes(&self) -> (r: Vec<u8>)
        ensures
            bytes::spells(r@, bytes::bits_of(self.nodes_f@)),
    {
        bytes::value_bytes(&self.nodes_f)
    }

    /// The bytes of the word buffer of the links.
    pub fn link_word_bytes(&self) -> (r: Vec<u8>)
        ensures
            bytes::spells(r@, self.links_u@),
    {
        bytes::word_bytes(&self.links_u)
    }

    /// The bytes of the number buffer of the links.
    pub fn link_number_bytes<E: Fn(Scalar) -> F32>(&self, eval: &E) -> (r: Vec<u8>)
        requires
            number::total(*eval),
        ensures
            bytes::sent_for(*eval, bytes::number_words(self.links_f@), r@),
    {
        bytes::send_numbers(eval, &self.links_f)
    }

    /// The bytes of the positions, to start the device with.
    pub fn start_bytes<E: Fn(Scalar) -> F32>(&self, eval: &E) -> (r: Vec<u8>)
        requires
            number::total(*eval),
            !self.positions_dirty,
        ensures
            bytes::sent_for(*eval, bytes::number_words(self.positions@), r@),
    {
        bytes::send_numbers(eval, &self.positions)
    }

    /// What goes to the device ahead of a run of ticks, and their commands.
    fn begin(&mut self) -> (r: TickPlan)
        requires
            old(self).wf(),
        ensures
            final(self)@ == old(self)@.after_ticks(Seq::empty()),
            r.answers(old(self)@, Seq::empty()),
    {
        let upload_nodes: bool = self.nodes_dirty;
        self.nodes_dirty = false;
        let mut stopped: Vec<u32> = Vec::new();
        stopped.append(&mut self.moved);
        assert(stopped@ =~= old(self).moved@);
        let vel_bytes: u64 = 8 * (self.n as u64);
        let commands: Vec<Command> = list_commands(&self.passes, plan::groups(self.n), vel_bytes);
        self.positions_dirty = true;
        let frames: Vec<Params> = Vec::new();
        assert(frames@ =~= Seq::new(0, |k: int| old(self)@.frame(Seq::empty(), k)));
        TickPlan { upload_nodes, stopped, frames, commands }
    }

    /// Adds a tick to a run that began in state `before`.
    fn add_tick<E: Fn(Scalar) -> F32>(
        &mut self,
        sent: &mut TickPlan,
        eval: &E,
        Ghost(before): Ghost<GpuState>,
    )
        requires
            number::total(*eval),
            old(sent).answers(before, old(sent).alphas()),
            before.follows(*eval, old(sent).alphas()),
            old(self)@ == before.after_ticks(old(sent).alphas()),
        ensures
            final(sent).frames@.len() == old(sent).frames@.len() + 1,
            final(sent).alphas().drop_last() == old(sent).alphas(),
            final(sent).answers(before, final(sent).alphas()),
            before.follows(*eval, final(sent).alphas()),
            final(self)@ == before.after_ticks(final(sent).alphas()),
    {
        let ghost k = sent.frames@.len() as int;
        let ghost old_alphas = sent.alphas();
        let step = Scalar::Approach {
            from: self.params.alpha,
            to: self.alpha_target,
            rate: self.alpha_decay,
        };
        self.params.alpha = eval(step);
        self.params.tick = self.params.tick.wrapping_add(1);
        sent.frames.push(self.params);
        proof {
            let alphas = sent.alphas();
            assert(alphas.drop_last() =~= old_alphas);
            assert(self.params == before.frame(alphas, k));
            assert forall|j: int| 0 <= j < alphas.len() implies sent.frames@[j]
                == #[trigger] before.frame(alphas, j) by {
                if j < k {
                    assert(alphas[j] == old_alphas[j]);
                    assert(old(sent).frames@[j] == before.frame(old_alphas, j));
                }
            }
            assert(sent.frames@ =~= Seq::new(alphas.len(), |j: int| before.frame(alphas, j)));
            assert forall|j: int| 0 <= j < alphas.len() implies call_ensures(
                *eval,
                (
                    Scalar::Approach {
                        from: #[trigger] before.alpha_before(alphas, j),
                        to: before.alpha_target,
                        rate: before.alpha_decay,
                    },
                ),
                alphas[j],
            ) by {
                assert(before.alpha_before(alphas, j) == before.alpha_before(old_alphas, j));
                if j < k {
                    assert(alphas[j] == old_alphas[j]);
                }
            }
            assert(self@ =~= before.after_ticks(alphas));
        }
    }

    /// Ticks a number of times. Without nodes nothing happens.
    pub fn tick<E: Fn(Scalar) -> F32>(&mut self, iterations: usize, eval: &E) -> (r: Option<
        TickPlan,
    >)
        requires
            old(self).wf(),
            8 * old(self).n <= u32::MAX,
            number::total(*eval),
        ensures
            final(self).wf(),
            old(self).n == 0 ==> r is None && final(self)@ == old(self)@,
            old(self).n > 0 ==> (r matches Some(sent) && {
                &&& sent.frames@.len() == iterations
                &&& sent.answers(old(self)@, sent.alphas())
                &&& old(self)@.follows(*eval, sent.alphas())
                &&& final(self)@ == old(self)@.after_ticks(sent.alphas())
            }),
    {
        if self.n == 0 {
            return None;
        }
        let ghost before = self@;
        let mut sent: TickPlan = self.begin();
        assert(sent.alphas() =~= Seq::<F32>::empty());
        let mut k: usize = 0;
        while k < iterations
            invariant
                k <= iterations,
                number::total(*eval),
                sent.frames@.len() == k,
                sent.answers(before, sent.alphas()),
                before.follows(*eval, sent.alphas()),
                self@ == before.after_ticks(sent.alphas()),
            decreases iterations - k,
        {
            self.add_tick(&mut sent, eval, Ghost(before));
            k += 1;
        }
        Some(sent)
    }

    /// Whether a run of at most `max_ticks` ticks goes on after `done` of them:
    /// until alpha falls below its minimum.
    fn wants_tick(&self, done: usize, max_ticks: usize) -> (r: bool)
        ensures
            r == (self.params.alpha.spec_at_least(self.alpha_min) && done < max_ticks),
    {
        self.params.alpha.at_least(self.alpha_min) && done < max_ticks
    }

    /// Ticks until alpha falls below its minimum, and at most `max_ticks` times.
    /// Returns the number of ticks run, and what the device does for them. Without
    /// nodes alpha stays as it is.
    pub fn run<E: Fn(Scalar) -> F32>(&mut self, max_ticks: usize, eval: &E) -> (r: (
        usize,
        Option<TickPlan>,
    ))
        requires
            old(self).wf(),
            old(self)@.tick_due(max_ticks as int) ==> 8 * old(self).n <= u32::MAX,
            number::total(*eval),
        ensures
            final(self).wf(),
            old(self)@.runs(*eval, max_ticks as int, r.0 as int, r.1, final(self)@),
    {
        if !self.wants_tick(0, max_ticks) {
            return (0, None);
        }
        if self.n == 0 {
            return (max_ticks, None);
        }
        let ghost before = self@;
        let mut sent: TickPlan = self.begin();
        assert(sent.alphas() =~= Seq::<F32>::empty());
        let mut k: usize = 0;
        while self.wants_tick(k, max_ticks)
            invariant
                k <= max_ticks,
                max_ticks > 0,
                number::total(*eval),
                before.hot(sent.alphas(), 0),
                sent.frames@.len() == k,
                sent.answers(before, sent.alphas()),
                before.follows(*eval, sent.alphas()),
                self@ == before.after_ticks(sent.alphas()),
                forall|j: int| 0 <= j < k ==> #[trigger] before.hot(sent.alphas(), j),
            decreases max_ticks - k,
        {
            let ghost old_alphas = sent.alphas();
            assert(before.hot(old_alphas, k as int));
            self.add_tick(&mut sent, eval, Ghost(before));
            k += 1;
            assert forall|j: int| 0 <= j < k implies #[trigger] before.hot(sent.alphas(), j) by {
                assert(before.hot(old_alphas, j));
                if j > 0 {
                    assert(sent.alphas().drop_last()[j - 1] == sent.alphas()[j - 1]);
                }
            }
        }
        (k, Some(sent))
    }

    /// How many bytes of positions must be read back before the positions are
    /// current, if any.
    pub fn stale_bytes(&self) -> (r: Option<u64>)
        ensures
            r == if self.positions_dirty {
                Some((8 * self.n) as u64)
            } else {
                None
            },
    {
        if self.positions_dirty {
            Some(8 * (self.n as u64))
        } else {
            None
        }
    }

    /// Takes over positions that were read back as words.
    pub fn store_positions(&mut self, words: &Vec<u32>)
        requires
            old(self).wf(),
            words@.len() == 2 * old(self).n,
        ensures
            final(self)@ == old(self)@.with_read_back(words@),
            final(self).wf(),
    {
        let mut positions: Vec<Scalar> = Vec::with_capacity(words.len());
        let mut k: usize = 0;
        while k < words.len()
            invariant
                k <= words@.len(),
                positions@.len() == k,
                forall|j: int|
                    0 <= j < k ==> #[trigger] positions@[j] == Scalar::Value(
                        F32 { bits: words@[j] },
                    ),
            decreases words@.len() - k,
        {
            positions.push(Scalar::Value(F32 { bits: words[k] }));
            k += 1;
        }
        self.positions = positions;
        self.positions_dirty = false;
        assert(self.positions@ =~= old(self)@.with_read_back(words@).positions);
    }

    /// Takes over the bytes of positions that were read back.
    pub fn read_back(&mut self, read: &[u8])
        requires
            old(self).wf(),
            read@.len() == 8 * old(self).n,
        ensures
            exists|words: Seq<u32>|
                #![trigger old(self)@.with_read_back(words)]
                {
                    &&& bytes::spells(read@, words)
                    &&& final(self)@ == old(self)@.with_read_back(words)
                },
            final(self).wf(),
    {
        if let Some(words) = bytes::byte_words(read) {
            self.store_positions(&words);
        }
    }

    /// Interleaved `[x0, y0, x1, y1, ...]`. The host must have the device's
    /// positions.
    pub fn positions(&self) -> (r: &Vec<Scalar>)
        requires
            !self.positions_dirty,
        ensures
            r@ == self.positions@,
    {
        &self.positions
    }
}

} // verus!
