//! What simulations are for: what a device is sent, what is kept, and what the CPU
//! engine is given. Each law says of a result what it is, in terms of what went in.

use crate::adapter::{AdapterInfo, Gpu, GpuError};
use crate::auto::{Backend, Refresh, Simulation};
use crate::bytes::Word;
use crate::cpu;
use crate::cpu::{CpuForce, CpuModel};
use crate::gpu;
use crate::gpu::{Access, Command, GpuSimulation, GpuState, Kernel, TickPlan, Upload};
use crate::laws;
use crate::meaning;
use crate::meaning_plan;
use crate::model::{Config, ForceSpec, NodeInit};
use crate::number::{Scalar, F32};
use crate::plan;
use crate::plan::{Params, Pass};
use vstd::prelude::*;

verus! {

// ---- the uniform block --------------------------------------------------

/// Each parameter stands at the word at which the device programs read it, and the block
/// is filled up with zeros to twenty words.
pub proof fn law_uniform_words(p: &Params, r: Vec<Word>)
    requires
        call_ensures(Params::words, (p,), r),
    ensures
        r@ == p.layout(),
        r@.len() == 20,
        r@[0] == Word::Count(p.n),
        r@[1] == Word::Count(p.m),
        r@[2] == Word::Number(Scalar::Value(p.alpha)),
        r@[3] == Word::Number(p.velocity_decay),
        r@[4] == Word::Number(p.distance_min2),
        r@[5] == Word::Number(p.distance_max2),
        r@[6] == Word::Number(Scalar::Value(p.collide_strength)),
        r@[7] == Word::Number(Scalar::Value(p.center_strength)),
        r@[8] == Word::Number(Scalar::Value(p.center_x)),
        r@[9] == Word::Number(Scalar::Value(p.center_y)),
        r@[10] == Word::Number(Scalar::Value(p.radial_x)),
        r@[11] == Word::Number(Scalar::Value(p.radial_y)),
        r@[12] == Word::Count(p.tick),
        r@[13] == Word::Count(p.groups),
        r@[14] == Word::Count(p.ptr_off),
        r@[15] == Word::Count(p.idx_off),
        r@[16] == Word::Count(p.ends_off),
        r@[17] == Word::Count(0),
        r@[18] == Word::Count(0),
        r@[19] == Word::Count(0),
{
}

/// What a force says about itself stands in the uniform block of its configuration: the
/// squares of its distances in words 4 and 5, the strength of collisions in 6, strength
/// and place of the centre in 7, 8 and 9, the centre of the circle in 10 and 11.
pub proof fn law_force_in_uniform_block(config: &Config, n: usize, p: Params, r: Vec<Word>, k: int)
    requires
        call_ensures(plan::start_params, (config, n), p),
        call_ensures(Params::words, (&p,), r),
        plan::accepted(config.forces@, n as int),
        0 <= k < config.forces@.len(),
    ensures
        r@[2] == Word::Number(Scalar::Value(config.alpha)),
        r@[3] == Word::Number(Scalar::OneMinus(config.velocity_decay)),
        match config.forces@[k].1 {
            ForceSpec::ManyBody { distance_min, distance_max, .. } => {
                &&& r@[4] == Word::Number(Scalar::Square(distance_min))
                &&& distance_max.spec_is_finite() ==> r@[5] == Word::Number(
                    Scalar::Square(distance_max),
                )
            },
            ForceSpec::Collide { strength, .. } => r@[6] == Word::Number(Scalar::Value(strength)),
            ForceSpec::Center { x, y, strength } => {
                &&& r@[7] == Word::Number(Scalar::Value(strength))
                &&& r@[8] == Word::Number(Scalar::Value(x))
                &&& r@[9] == Word::Number(Scalar::Value(y))
            },
            ForceSpec::Radial { x, y, .. } => {
                &&& r@[10] == Word::Number(Scalar::Value(x))
                &&& r@[11] == Word::Number(Scalar::Value(y))
            },
            _ => true,
        },
{
    law_uniform_words(&p, r);
    meaning_plan::law_shared_parameters(p, *config, n as int, k);
}

/// The bytes of the uniform block are sent for its words.
pub proof fn law_uniform_bytes<E: Fn(Scalar) -> F32>(
    p: &Params,
    eval: &E,
    sent: Vec<u8>,
    words: Vec<Word>,
)
    requires
        call_ensures(Params::bytes::<E>, (p, eval), sent),
        call_ensures(Params::words, (p,), words),
    ensures
        crate::bytes::sent_for(*eval, words@, sent@),
        sent@.len() == 80,
{
    meaning::law_sent_words(*eval, words@, sent@);
}

// ---- commands -----------------------------------------------------------

/// How many commands a pass has: two for each round, three for centering, else one.
pub open spec fn commands_in(pass: Pass) -> int {
    match pass {
        Pass::Link { iterations } => 2 * iterations,
        Pass::Collide { iterations } => 2 * iterations,
        Pass::Center => 3,
        _ => 1,
    }
}

/// How many commands come before pass `k`.
pub open spec fn commands_before(passes: Seq<Pass>, k: int) -> int
    decreases k,
{
    if k <= 0 {
        0
    } else {
        commands_before(passes, k - 1) + commands_in(passes[k - 1])
    }
}

/// Whether `c` is command `j` of a pass: rounds of links and collisions copy the
/// velocities and then run their program, centering sums up in two steps and then moves
/// the nodes, and any other pass runs its own program.
pub open spec fn says_command(pass: Pass, j: int, groups: u32, bytes: u64, c: Command) -> bool {
    match pass {
        Pass::ManyBody => c == (Command::Dispatch { kernel: Kernel::ManyBody, groups }),
        Pass::X => c == (Command::Dispatch { kernel: Kernel::ForceX, groups }),
        Pass::Y => c == (Command::Dispatch { kernel: Kernel::ForceY, groups }),
        Pass::Radial => c == (Command::Dispatch { kernel: Kernel::Radial, groups }),
        Pass::Link { .. } => {
            &&& j % 2 == 0 ==> c == (Command::Snapshot { bytes })
            &&& j % 2 == 1 ==> c == (Command::Dispatch { kernel: Kernel::Link, groups })
        },
        Pass::Collide { .. } => {
            &&& j % 2 == 0 ==> c == (Command::Snapshot { bytes })
            &&& j % 2 == 1 ==> c == (Command::Dispatch { kernel: Kernel::Collide, groups })
        },
        Pass::Center => {
            &&& j == 0 ==> c == (Command::Dispatch { kernel: Kernel::CenterReduce1, groups })
            &&& j == 1 ==> c == (Command::Dispatch { kernel: Kernel::CenterReduce2, groups: 1 })
            &&& j == 2 ==> c == (Command::Dispatch { kernel: Kernel::CenterApply, groups })
        },
    }
}

/// A pass has its own commands, and no more.
pub proof fn law_pass_commands(pass: Pass, groups: u32, bytes: u64, j: int)
    ensures
        gpu::pass_commands(pass, groups, bytes).len() == commands_in(pass),
        0 <= j < commands_in(pass) ==> says_command(
            pass,
            j,
            groups,
            bytes,
            gpu::pass_commands(pass, groups, bytes)[j],
        ),
{
    match pass {
        Pass::Link { iterations } => {
            laws::lemma_sweeps_shape(Kernel::Link, iterations as nat, groups, bytes);
        },
        Pass::Collide { iterations } => {
            laws::lemma_sweeps_shape(Kernel::Collide, iterations as nat, groups, bytes);
        },
        _ => {},
    }
}

proof fn lemma_passes_commands(passes: Seq<Pass>, groups: u32, bytes: u64, k: int, j: int)
    ensures
        gpu::passes_commands(passes, groups, bytes).len() == commands_before(
            passes,
            passes.len() as int,
        ),
        0 <= k < passes.len() && 0 <= j < commands_in(passes[k]) ==> {
            &&& 0 <= commands_before(passes, k)
            &&& commands_before(passes, k) + j < gpu::passes_commands(passes, groups, bytes).len()
            &&& says_command(
                passes[k],
                j,
                groups,
                bytes,
                gpu::passes_commands(passes, groups, bytes)[commands_before(passes, k) + j],
            )
        },
    decreases passes.len(),
{
    if passes.len() > 0 {
        let before = passes.drop_last();
        let last = passes.len() - 1;
        lemma_passes_commands(before, groups, bytes, k, j);
        lemma_before_prefix(passes, last);
        if 0 <= k < last {
            lemma_before_prefix(passes, k);
        }
        law_pass_commands(passes[last], groups, bytes, j);
        let head = gpu::passes_commands(before, groups, bytes);
        let all = gpu::passes_commands(passes, groups, bytes);
        assert(commands_before(passes, last + 1) == commands_before(passes, last) + commands_in(
            passes[last],
        ));
        if 0 <= k < passes.len() && 0 <= j < commands_in(passes[k]) {
            if k < last {
                assert(before[k] == passes[k]);
                assert(all[commands_before(passes, k) + j] == head[commands_before(passes, k) + j]);
            } else {
                assert(all[head.len() + j] == gpu::pass_commands(passes[last], groups, bytes)[j]);
            }
        }
    }
}

proof fn lemma_before_prefix(passes: Seq<Pass>, k: int)
    requires
        0 <= k < passes.len(),
    ensures
        commands_before(passes.drop_last(), k) == commands_before(passes, k),
    decreases k,
{
    if k > 0 {
        lemma_before_prefix(passes, k - 1);
        assert(passes.drop_last()[k - 1] == passes[k - 1]);
    }
}

/// The commands of a tick are those of its passes, one pass after the other, and then the
/// integration; there are no others.
pub proof fn law_tick_commands(passes: Seq<Pass>, groups: u32, bytes: u64, k: int, j: int)
    ensures
        ({
            let cs = gpu::tick_commands(passes, groups, bytes);
            let end = commands_before(passes, passes.len() as int);
            &&& cs.len() == end + 1
            &&& cs[end] == (Command::Dispatch { kernel: Kernel::Integrate, groups })
            &&& 0 <= k < passes.len() && 0 <= j < commands_in(passes[k]) ==> {
                &&& commands_before(passes, k) + j < end
                &&& says_command(passes[k], j, groups, bytes, cs[commands_before(passes, k) + j])
            }
        }),
{
    lemma_passes_commands(passes, groups, bytes, k, j);
}

/// What is listed for passes are the commands of a tick.
pub proof fn law_listed_commands(passes: &Vec<Pass>, groups: u32, bytes: u64, r: Vec<Command>)
    requires
        call_ensures(gpu::list_commands, (passes, groups, bytes), r),
    ensures
        r@ == gpu::tick_commands(passes@, groups, bytes),
{
}

/// A link force has as many rounds as configured, and at least one; a round is a copy of
/// the velocities and then one run of the link program.
pub proof fn law_link_rounds(force: ForceSpec, groups: u32, bytes: u64, round: int)
    requires
        force is Link,
    ensures
        ({
            let cs = gpu::pass_commands(plan::pass_of(force), groups, bytes);
            let rounds = force->Link_iterations;
            &&& rounds >= 1 ==> cs.len() == 2 * rounds
            &&& rounds == 0 ==> cs.len() == 2
            &&& 0 <= 2 * round < cs.len() ==> {
                &&& cs[2 * round] == (Command::Snapshot { bytes })
                &&& cs[2 * round + 1] == (Command::Dispatch { kernel: Kernel::Link, groups })
            }
        }),
{
    let pass = plan::pass_of(force);
    law_pass_commands(pass, groups, bytes, 2 * round);
    law_pass_commands(pass, groups, bytes, 2 * round + 1);
}

/// A collision force has one round more than configured, and at least two.
pub proof fn law_collision_rounds(force: ForceSpec, groups: u32, bytes: u64, round: int)
    requires
        force is Collide,
        force->Collide_iterations < u32::MAX,
    ensures
        ({
            let cs = gpu::pass_commands(plan::pass_of(force), groups, bytes);
            let rounds = force->Collide_iterations;
            &&& rounds >= 1 ==> cs.len() == 2 * rounds + 2
            &&& rounds == 0 ==> cs.len() == 4
            &&& 0 <= 2 * round < cs.len() ==> {
                &&& cs[2 * round] == (Command::Snapshot { bytes })
                &&& cs[2 * round + 1] == (Command::Dispatch { kernel: Kernel::Collide, groups })
            }
        }),
{
    let pass = plan::pass_of(force);
    law_pass_commands(pass, groups, bytes, 2 * round);
    law_pass_commands(pass, groups, bytes, 2 * round + 1);
}

/// Device programs write positions, velocities and sums, read the parameters as a uniform
/// block, and only read everything else.
pub proof fn law_bindings(binding: u32, r: Access)
    requires
        call_ensures(gpu::binding_access, (binding,), r),
        binding < gpu::BINDINGS,
    ensures
        r is Uniform <==> binding == 0,
        r is ReadWrite <==> binding == 1 || binding == 2 || binding == 7,
{
}

// ---- what is kept -------------------------------------------------------

/// What a simulation starts with: everything from the configuration and the nodes,
/// nothing to send and nothing to read.
pub proof fn law_start_state(
    state: GpuState,
    info: AdapterInfo,
    nodes: Seq<NodeInit>,
    config: Config,
)
    requires
        state.starts(info, nodes, config),
    ensures
        state.info == info,
        state.n == nodes.len(),
        state.m == plan::links_of(config.forces@).len(),
        state.params == plan::params_of(config, nodes.len() as int),
        state.alpha_min == config.alpha_min,
        state.alpha_decay == config.alpha_decay,
        state.alpha_target == config.alpha_target,
        state.passes == plan::passes_of(config.forces@),
        plan::is_link_words(state.links_u, plan::links_of(config.forces@), nodes.len() as int),
        plan::is_link_numbers(state.links_f, config.forces@),
        plan::is_node_buffer(state.nodes_f, config.forces@, nodes),
        plan::is_start(state.positions, nodes),
        !state.nodes_dirty,
        !state.positions_dirty,
        state.moved.len() == 0,
{
}

/// A simulation is built exactly if the GPU takes the configuration, and then as it
/// starts.
pub proof fn law_built(
    gpu: Gpu,
    nodes: &[NodeInit],
    config: &Config,
    r: Result<GpuSimulation, GpuError>,
)
    requires
        call_ensures(GpuSimulation::with_gpu, (gpu, nodes, config), r),
    ensures
        r is Ok <==> meaning_plan::unlike(config.forces@) && meaning_plan::all_links_stay(
            config.forces@,
            nodes@.len() as int,
        ),
        r matches Ok(sim) ==> sim@.starts(gpu.info, nodes@, *config),
        r matches Err(e) ==> plan::refused(config.forces@, nodes@.len() as int, e),
{
    meaning_plan::law_taken_configurations(config.forces@, nodes@.len() as int);
    if let Err(e) = r {
        let k = choose|k: int| #[trigger]
            plan::first_fault(config.forces@, nodes@.len() as int, k);
        assert(plan::faulty(config.forces@, nodes@.len() as int, k));
    }
}

/// Fixing a node changes the four numbers that say where it is fixed, makes the node
/// buffer one to be sent, and changes nothing else.
pub proof fn law_fixed_state(state: GpuState, i: int, fx: F32, fy: F32, k: int)
    requires
        0 <= i,
        12 * i + 12 <= state.nodes_f.len(),
    ensures
        ({
            let after = state.with_fixed(i, fx, fy);
            &&& meaning_plan::says_fixed(
                fx,
                fy,
                after.nodes_f[12 * i + 8],
                after.nodes_f[12 * i + 9],
                after.nodes_f[12 * i + 10],
                after.nodes_f[12 * i + 11],
            )
            &&& after.nodes_f.len() == state.nodes_f.len()
            &&& 0 <= k < state.nodes_f.len() && (k < 12 * i + 8 || k >= 12 * i + 12)
                ==> after.nodes_f[k] == state.nodes_f[k]
            &&& after.nodes_dirty
            &&& after == (GpuState { nodes_f: after.nodes_f, nodes_dirty: true, ..state })
        }),
{
}

/// Moving a node changes its two coordinates, marks it as one to be stopped, and changes
/// nothing else.
pub proof fn law_placed_state(state: GpuState, i: int, x: F32, y: F32, k: int)
    requires
        0 <= i <= u32::MAX,
        2 * i + 2 <= state.positions.len(),
    ensures
        ({
            let after = state.with_position(i, x, y);
            &&& after.positions[2 * i] == Scalar::Value(x)
            &&& after.positions[2 * i + 1] == Scalar::Value(y)
            &&& after.positions.len() == state.positions.len()
            &&& 0 <= k < state.positions.len() && k / 2 != i ==> after.positions[k]
                == state.positions[k]
            &&& after.moved.len() == state.moved.len() + 1
            &&& after.moved.last() == i
            &&& after.moved.drop_last() == state.moved
            &&& after == (GpuState {
                positions: after.positions,
                moved: after.moved,
                ..state
            })
        }),
{
    assert(state.with_position(i, x, y).moved.drop_last() =~= state.moved);
}

/// Reading back replaces all positions by the numbers that were read, and changes nothing
/// else but that they are current.
pub proof fn law_read_state(state: GpuState, words: Seq<u32>, k: int)
    ensures
        ({
            let after = state.with_read_back(words);
            &&& after.positions.len() == words.len()
            &&& 0 <= k < words.len() ==> after.positions[k] == Scalar::Value(
                F32 { bits: words[k] },
            )
            &&& !after.positions_dirty
            &&& after == (GpuState {
                positions: after.positions,
                positions_dirty: false,
                ..state
            })
        }),
{
}

/// Every tick of a run has its own alpha, a count one higher than the one before, which
/// starts over at zero, and otherwise the parameters of the simulation.
pub proof fn law_frames(state: GpuState, alphas: Seq<F32>, k: int)
    requires
        0 <= k,
    ensures
        state.frame(alphas, k).alpha == alphas[k],
        state.frame(alphas, k) == (Params {
            alpha: alphas[k],
            tick: state.frame(alphas, k).tick,
            ..state.params
        }),
        k == 0 ==> state.frame(alphas, k).tick == (if state.params.tick == u32::MAX {
            0
        } else {
            state.params.tick + 1
        }),
        k > 0 ==> state.frame(alphas, k).tick == (if state.frame(alphas, k - 1).tick == u32::MAX {
            0
        } else {
            state.frame(alphas, k - 1).tick + 1
        }),
{
}

/// After a run of ticks the parameters are those of its last tick, there is nothing left
/// to send, the positions are to be read, and nothing else has changed.
pub proof fn law_ticked_state(state: GpuState, alphas: Seq<F32>)
    ensures
        ({
            let after = state.after_ticks(alphas);
            &&& alphas.len() > 0 ==> after.params == state.frame(alphas, alphas.len() - 1)
            &&& alphas.len() == 0 ==> after.params == state.params
            &&& !after.nodes_dirty
            &&& after.positions_dirty
            &&& after.moved.len() == 0
            &&& after == (GpuState {
                params: after.params,
                nodes_dirty: false,
                positions_dirty: true,
                moved: after.moved,
                ..state
            })
        }),
{
}

/// What is sent for a run of ticks: the node buffer if it has changed, the nodes that were
/// moved to be stopped, one set of parameters for each tick, and the commands of the
/// passes, for workgroups that just cover the nodes, with copies of eight bytes for each
/// node.
pub proof fn law_sent_plan(before: GpuState, alphas: Seq<F32>, sent: TickPlan, k: int)
    requires
        sent.answers(before, alphas),
    ensures
        sent.upload_nodes <==> before.nodes_dirty,
        sent.stopped@ == before.moved,
        sent.frames@.len() == alphas.len(),
        0 <= k < alphas.len() ==> sent.frames@[k] == before.frame(alphas, k),
        exists|groups: u32, bytes: u64|
            {
                &&& sent.commands@ == #[trigger] gpu::tick_commands(before.passes, groups, bytes)
                &&& 256 * groups >= before.n
                &&& groups > 0 ==> 256 * (groups - 1) < before.n
                &&& bytes == 8 * before.n
            },
{
    assert(sent.commands@ == gpu::tick_commands(
        before.passes,
        plan::spec_groups(before.n),
        (8 * before.n) as u64,
    ));
}

/// The alphas of a plan are those of its sets of parameters.
pub proof fn law_alphas_of_plan(sent: TickPlan, k: int)
    ensures
        sent.alphas().len() == sent.frames@.len(),
        0 <= k < sent.frames@.len() ==> sent.alphas()[k] == sent.frames@[k].alpha,
{
}

/// Each alpha is what the host makes of a step from the one before, or at first from the
/// current one, towards the target at the rate of the decay.
pub proof fn law_alpha_steps<E: Fn(Scalar) -> F32>(
    state: GpuState,
    eval: E,
    alphas: Seq<F32>,
    k: int,
)
    requires
        state.follows(eval, alphas),
        0 <= k < alphas.len(),
    ensures
        k == 0 ==> call_ensures(
            eval,
            (
                Scalar::Approach {
                    from: state.params.alpha,
                    to: state.alpha_target,
                    rate: state.alpha_decay,
                },
            ),
            alphas[k],
        ),
        k > 0 ==> call_ensures(
            eval,
            (
                Scalar::Approach {
                    from: alphas[k - 1],
                    to: state.alpha_target,
                    rate: state.alpha_decay,
                },
            ),
            alphas[k],
        ),
{
    let from = state.alpha_before(alphas, k);
}

/// A run makes ticks as long as alpha is at least its minimum and the limit is not
/// reached: before every tick alpha was, and after the last it is not or the limit is
/// reached. Without nodes alpha stays, so that the limit decides.
pub proof fn law_run_length<E: Fn(Scalar) -> F32>(
    state: GpuState,
    eval: E,
    max_ticks: int,
    ticks: int,
    sent: Option<TickPlan>,
    after: GpuState,
    k: int,
)
    requires
        state.runs(eval, max_ticks, ticks, sent, after),
        max_ticks >= 0,
    ensures
        0 <= ticks <= max_ticks,
        max_ticks == 0 || !state.params.alpha.spec_at_least(state.alpha_min) <==> ticks == 0,
        ticks == 0 || state.n == 0 ==> sent is None && after == state,
        state.n == 0 && ticks > 0 ==> ticks == max_ticks,
        state.n > 0 && ticks > 0 ==> {
            &&& sent is Some
            &&& sent->0.frames@.len() == ticks
            &&& sent->0.answers(state, sent->0.alphas())
            &&& state.follows(eval, sent->0.alphas())
            &&& after == state.after_ticks(sent->0.alphas())
            &&& 0 <= k < ticks - 1 ==> sent->0.frames@[k].alpha.spec_at_least(state.alpha_min)
            &&& ticks < max_ticks ==> !sent->0.frames@[ticks - 1].alpha.spec_at_least(
                state.alpha_min,
            )
        },
{
    if state.n > 0 && ticks > 0 {
        let alphas = sent->0.alphas();
        if 0 <= k < ticks - 1 {
            assert(state.hot(alphas, k + 1));
        }
    }
}

/// The device has eight bytes for each node and for each workgroup, and room for one
/// where there is none; what is to be read are all positions, and only if they are stale.
pub proof fn law_buffer_sizes(
    sim: &GpuSimulation,
    positions: u64,
    sums: u64,
    stale: Option<u64>,
)
    requires
        call_ensures(GpuSimulation::position_bytes, (sim,), positions),
        call_ensures(GpuSimulation::reduce_bytes, (sim,), sums),
        call_ensures(GpuSimulation::stale_bytes, (sim,), stale),
    ensures
        sim.n > 0 ==> positions == 8 * sim.n,
        sim.n == 0 ==> positions == 8 && sums == 8,
        sim.n > 0 ==> sums % 8 == 0 && 32 * sums >= sim.n && 32 * (sums - 8) < sim.n,
        stale is Some <==> sim.positions_dirty,
        stale matches Some(bytes) ==> bytes == 8 * sim.n,
{
}

/// The velocity decay that is asked for is the complement of the complement of what was
/// set.
pub proof fn law_velocity_decay_asked(sim: &GpuSimulation, v: F32, r: Scalar)
    requires
        call_ensures(GpuSimulation::velocity_decay, (sim,), r),
        sim.params.velocity_decay == Scalar::OneMinus(v),
    ensures
        r == Scalar::TwiceOneMinus(v),
{
}

/// A node is stopped by zeros in its own place among the velocities, eight bytes for
/// each node.
pub proof fn law_stop(i: u32, r: Upload, k: int)
    requires
        call_ensures(gpu::stop, (i,), r),
    ensures
        r.offset == 8 * i,
        r.bytes@.len() == 8,
        0 <= k < 8 ==> r.bytes@[k] == 0,
{
}

// ---- the CPU engine -----------------------------------------------------

/// The engine is given the nodes as they are, at rest, the parameters as they are, and
/// the forces in their order under their names.
pub proof fn law_engine_is_given(nodes: &[NodeInit], config: &Config, r: CpuModel, i: int, k: int)
    requires
        call_ensures(cpu::build, (nodes, config), r),
    ensures
        r.describes(nodes@, *config),
        r.nodes@.len() == nodes@.len(),
        0 <= i < nodes@.len() ==> {
            &&& r.nodes@[i].x == nodes@[i].x
            &&& r.nodes@[i].y == nodes@[i].y
            &&& r.nodes@[i].fx == nodes@[i].fx
            &&& r.nodes@[i].fy == nodes@[i].fy
            &&& r.nodes@[i].vx == (F32 { bits: 0 })
            &&& r.nodes@[i].vy == (F32 { bits: 0 })
        },
        r.alpha == config.alpha,
        r.alpha_min == config.alpha_min,
        r.alpha_decay == config.alpha_decay,
        r.alpha_target == config.alpha_target,
        r.velocity_decay == config.velocity_decay,
        r.forces@.len() == config.forces@.len(),
        0 <= k < config.forces@.len() ==> {
            &&& r.forces@[k].0@ == config.forces@[k].0@
            &&& r.forces@[k].1.renders(config.forces@[k].1)
        },
{
    law_described_nodes(nodes@, *config, r, i);
    if 0 <= k < config.forces@.len() {
        assert(r.forces@[k].0@ == config.forces@[k].0@);
    }
}

/// A description of a CPU simulation has the nodes as they are, at rest.
pub proof fn law_described_nodes(nodes: Seq<NodeInit>, config: Config, r: CpuModel, i: int)
    requires
        r.describes(nodes, config),
    ensures
        r.nodes@.len() == nodes.len(),
        0 <= i < nodes.len() ==> {
            &&& r.nodes@[i].x == nodes[i].x
            &&& r.nodes@[i].y == nodes[i].y
            &&& r.nodes@[i].fx == nodes[i].fx
            &&& r.nodes@[i].fy == nodes[i].fy
            &&& r.nodes@[i].vx == (F32 { bits: 0 })
            &&& r.nodes@[i].vy == (F32 { bits: 0 })
        },
{
}

/// Both backends start from the same nodes: the engine has an axis of a node fixed exactly
/// where the node buffer of the device marks it as fixed, at the same coordinate; and
/// where the device starts a node at a number rather than on the spiral, that is what the
/// engine has as the fixed coordinate of the node, or else as its position.
pub proof fn law_same_nodes(
    model: CpuModel,
    state: GpuState,
    info: AdapterInfo,
    nodes: Seq<NodeInit>,
    config: Config,
    i: int,
)
    requires
        model.describes(nodes, config),
        state.starts(info, nodes, config),
        0 <= i < nodes.len(),
    ensures
        ({
            let node = model.nodes@[i];
            &&& state.nodes_f[12 * i + 10] == (F32 { bits: 0x3f80_0000 }) <==> !node.fx.spec_is_nan()
            &&& state.nodes_f[12 * i + 11] == (F32 { bits: 0x3f80_0000 }) <==> !node.fy.spec_is_nan()
            &&& !node.fx.spec_is_nan() ==> state.nodes_f[12 * i + 8] == node.fx
            &&& !node.fy.spec_is_nan() ==> state.nodes_f[12 * i + 9] == node.fy
            &&& state.positions[2 * i] matches Scalar::Value(x) ==> x == if node.fx.spec_is_nan() {
                node.x
            } else {
                node.fx
            }
            &&& state.positions[2 * i + 1] matches Scalar::Value(y) ==> y
                == if node.fy.spec_is_nan() {
                node.y
            } else {
                node.fy
            }
        }),
{
    law_described_nodes(nodes, config, model, i);
    meaning_plan::law_packed_pins(state.nodes_f, config.forces@, nodes, i);
    meaning_plan::law_starts(state.positions, nodes, i);
}

/// The engine is given each force as it is, with every parameter in its place. Links keep
/// their order and their direction, and without a strength the engine keeps its own.
pub proof fn law_engine_force(force: &ForceSpec, r: CpuForce, e: int)
    requires
        call_ensures(cpu::render, (force,), r),
    ensures
        r.renders(*force),
        given_as(r, *force, e),
{
}

/// Whether `r` is `force` as the engine takes it, as far as link `e` is concerned.
pub open spec fn given_as(r: CpuForce, force: ForceSpec, e: int) -> bool {
    match force {
        ForceSpec::ManyBody { strength, theta, distance_min, distance_max } => {
            &&& r is ManyBody
            &&& strength.same(r->ManyBody_strength)
            &&& r->theta == theta
            &&& r->distance_min == distance_min
            &&& r->distance_max == distance_max
        },
        ForceSpec::Link { links, distance, strength, iterations } => {
            &&& r is Link
            &&& r->links@.len() == links@.len()
            &&& 0 <= e < links@.len() ==> r->links@[e].0 == links@[e].0 && r->links@[e].1
                == links@[e].1
            &&& distance.same(r->distance)
            &&& strength is Some <==> r->Link_strength is Some
            &&& strength is Some ==> (strength->0).same(r->Link_strength->0)
            &&& r->Link_iterations == iterations
        },
        ForceSpec::Collide { radius, strength, iterations } => {
            &&& r is Collide
            &&& radius.same(r->Collide_radius)
            &&& r->Collide_strength == strength
            &&& r->Collide_iterations == iterations
        },
        ForceSpec::X { x, strength } => {
            &&& r is X
            &&& x.same(r->X_x)
            &&& strength.same(r->X_strength)
        },
        ForceSpec::Y { y, strength } => {
            &&& r is Y
            &&& y.same(r->Y_y)
            &&& strength.same(r->Y_strength)
        },
        ForceSpec::Center { x, y, strength } => {
            &&& r is Center
            &&& r->Center_x == x
            &&& r->Center_y == y
            &&& r->Center_strength == strength
        },
        ForceSpec::Radial { radius, x, y, strength } => {
            &&& r is Radial
            &&& radius.same(r->Radial_radius)
            &&& r->Radial_x == x
            &&& r->Radial_y == y
            &&& strength.same(r->Radial_strength)
        },
    }
}

/// A force that the engine is given is the one of the configuration.
pub proof fn law_rendered_forces(force: ForceSpec, r: CpuForce, e: int)
    requires
        r.renders(force),
    ensures
        given_as(r, force, e),
{
}

/// The engine can be built exactly if all links join nodes that exist.
pub proof fn law_buildable(forces: &Vec<(String, ForceSpec)>, n: usize, r: bool)
    requires
        call_ensures(cpu::is_buildable, (forces, n), r),
    ensures
        r == cpu::buildable(forces@, n as int),
        r <==> meaning_plan::all_links_stay(forces@, n as int),
{
    assert forall|k: int| 0 <= k < forces@.len() implies (meaning_plan::links_stay(
        (#[trigger] forces@[k]).1,
        n as int,
    ) <==> (forces@[k].1 matches ForceSpec::Link { links, .. } ==> crate::graph::in_range(
        links@,
        n as int,
    ))) by {
        if let ForceSpec::Link { links, .. } = forces@[k].1 {
            meaning::law_links_in_range(links@, n as int);
        }
    }
    if r {
        assert forall|k: int| 0 <= k < forces@.len() implies meaning_plan::links_stay(
            (#[trigger] forces@[k]).1,
            n as int,
        ) by {}
    }
}

// ---- choosing a backend -------------------------------------------------

/// A simulation is on the GPU exactly if a device was found that is no software one or may
/// be, and the GPU takes the configuration; it is then on that device. Otherwise it is on
/// the CPU with the same configuration, its positions not yet read.
pub proof fn law_chosen_backend(
    acquired: Result<Gpu, GpuError>,
    nodes: &[NodeInit],
    config: &Config,
    allow_software: bool,
    r: Simulation,
    k: int,
)
    requires
        call_ensures(Simulation::select, (acquired, nodes, config, allow_software), r),
    ensures
        r is Gpu <==> acquired is Ok && (allow_software || !acquired->Ok_0.info.software)
            && meaning_plan::unlike(config.forces@) && meaning_plan::all_links_stay(
            config.forces@,
            nodes@.len() as int,
        ),
        r matches Simulation::Gpu(g) ==> g@.starts(acquired->Ok_0.info, nodes@, *config),
        r matches Simulation::Cpu { model, positions } ==> {
            &&& model.describes(nodes@, *config)
            &&& positions@.len() == 2 * nodes@.len()
            &&& 0 <= k < 2 * nodes@.len() ==> positions@[k] == Scalar::Value(F32 { bits: 0 })
        },
{
    meaning_plan::law_taken_configurations(config.forces@, nodes@.len() as int);
}

/// A new simulation is a chosen one that may not be on a software device.
pub proof fn law_new_simulation(
    acquired: Result<Gpu, GpuError>,
    nodes: &[NodeInit],
    config: &Config,
    r: Simulation,
)
    requires
        call_ensures(Simulation::new, (acquired, nodes, config), r),
    ensures
        r is Gpu <==> acquired is Ok && !acquired->Ok_0.info.software && meaning_plan::unlike(
            config.forces@,
        ) && meaning_plan::all_links_stay(config.forces@, nodes@.len() as int),
        r matches Simulation::Gpu(g) ==> g@.starts(acquired->Ok_0.info, nodes@, *config),
        r matches Simulation::Cpu { model, positions } ==> model.describes(nodes@, *config)
            && positions@.len() == 2 * nodes@.len(),
{
    meaning_plan::law_taken_configurations(config.forces@, nodes@.len() as int);
}

/// A backend that is asked for is the one that is had, if any: the CPU always, the GPU
/// exactly if a device was found and takes the configuration. Without a device the error
/// is that of the search.
pub proof fn law_forced_backend(
    backend: Backend,
    acquired: Result<Gpu, GpuError>,
    nodes: &[NodeInit],
    config: &Config,
    r: Result<Simulation, GpuError>,
)
    requires
        call_ensures(Simulation::with_backend, (backend, acquired, nodes, config), r),
    ensures
        backend is Cpu ==> r is Ok && r->Ok_0 is Cpu,
        backend is Gpu ==> (r is Ok <==> acquired is Ok && meaning_plan::unlike(config.forces@)
            && meaning_plan::all_links_stay(config.forces@, nodes@.len() as int)),
        backend is Gpu && r is Ok ==> r->Ok_0 is Gpu && ((r->Ok_0)->Gpu_0)@.starts(
            acquired->Ok_0.info,
            nodes@,
            *config,
        ),
        backend is Gpu && acquired is Err ==> r is Err && r->Err_0 == acquired->Err_0,
{
    let n = nodes@.len() as int;
    meaning_plan::law_taken_configurations(config.forces@, n);
    if backend is Gpu && acquired is Ok && r is Err {
        let k = choose|k: int| #[trigger] plan::first_fault(config.forces@, n, k);
        assert(plan::faulty(config.forces@, n, k));
    }
}

/// What must be read before the positions are current: on the CPU always the bodies, on
/// the GPU all positions, and only if they are stale.
pub proof fn law_what_to_read(sim: &Simulation, r: Refresh)
    requires
        call_ensures(Simulation::refresh, (sim,), r),
    ensures
        r is Bodies <==> *sim is Cpu,
        *sim matches Simulation::Gpu(g) ==> (r is Device <==> g.positions_dirty),
        *sim matches Simulation::Gpu(g) ==> (r matches Refresh::Device { bytes } ==> bytes == 8
            * g.n),
{
}

} // verus!
