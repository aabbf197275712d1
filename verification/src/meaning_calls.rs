//! What the calls of a simulation are for: what each changes, what it hands out, and what
//! is read of what was set.

use crate::adapter::AdapterInfo;
use crate::auto::{Backend, CpuCall, Run, Simulation, SimulationState, Work};
use crate::bytes;
use crate::gpu::{GpuSimulation, GpuState, TickPlan, Upload};
use crate::meaning;
use crate::number::{Scalar, F32};
use crate::plan::Params;
use vstd::prelude::*;

verus! {

// ---- on the GPU ---------------------------------------------------------

/// What is asked of a simulation is what it holds.
pub proof fn law_getters(
    sim: &GpuSimulation,
    info: &AdapterInfo,
    len: usize,
    empty: bool,
    links: usize,
    positions: &Vec<Scalar>,
)
    requires
        call_ensures(GpuSimulation::adapter, (sim,), info),
        call_ensures(GpuSimulation::len, (sim,), len),
        call_ensures(GpuSimulation::is_empty, (sim,), empty),
        call_ensures(GpuSimulation::link_count, (sim,), links),
        call_ensures(GpuSimulation::positions, (sim,), positions),
    ensures
        *info == sim.info,
        len == sim.n,
        empty <==> len == 0,
        links == sim.m,
        positions@ == sim.positions@,
{
}

/// The alpha that is set is the alpha that is read, and nothing else changes.
pub proof fn law_set_alpha(
    sim: &mut GpuSimulation,
    v: F32,
    r: &mut GpuSimulation,
    after: GpuSimulation,
    read: F32,
)
    requires
        call_ensures(GpuSimulation::set_alpha, (sim, v), r),
        after == *old(r),
        call_ensures(GpuSimulation::alpha, (&after,), read),
    ensures
        read == v,
        after@ == (GpuState {
            params: Params { alpha: after.params.alpha, ..old(sim).params },
            ..old(sim)@
        }),
        *final(sim) == *final(r),
{
}

/// The minimum of alpha that is set is the one that is read, and nothing else changes.
pub proof fn law_set_alpha_min(
    sim: &mut GpuSimulation,
    v: F32,
    r: &mut GpuSimulation,
    after: GpuSimulation,
    read: F32,
)
    requires
        call_ensures(GpuSimulation::set_alpha_min, (sim, v), r),
        after == *old(r),
        call_ensures(GpuSimulation::alpha_min, (&after,), read),
    ensures
        read == v,
        after@ == (GpuState { alpha_min: after.alpha_min, ..old(sim)@ }),
        *final(sim) == *final(r),
{
}

/// The decay of alpha that is set is the one that is read, and nothing else changes.
pub proof fn law_set_alpha_decay(
    sim: &mut GpuSimulation,
    v: F32,
    r: &mut GpuSimulation,
    after: GpuSimulation,
    read: F32,
)
    requires
        call_ensures(GpuSimulation::set_alpha_decay, (sim, v), r),
        after == *old(r),
        call_ensures(GpuSimulation::alpha_decay, (&after,), read),
    ensures
        read == v,
        after@ == (GpuState { alpha_decay: after.alpha_decay, ..old(sim)@ }),
        *final(sim) == *final(r),
{
}

/// The target of alpha that is set is the one that is read, and nothing else changes.
pub proof fn law_set_alpha_target(
    sim: &mut GpuSimulation,
    v: F32,
    r: &mut GpuSimulation,
    after: GpuSimulation,
    read: F32,
)
    requires
        call_ensures(GpuSimulation::set_alpha_target, (sim, v), r),
        after == *old(r),
        call_ensures(GpuSimulation::alpha_target, (&after,), read),
    ensures
        read == v,
        after@ == (GpuState { alpha_target: after.alpha_target, ..old(sim)@ }),
        *final(sim) == *final(r),
{
}

/// The velocity decay that is set is sent as its complement and read as the complement of
/// that, and nothing else changes.
pub proof fn law_set_velocity_decay(
    sim: &mut GpuSimulation,
    v: F32,
    r: &mut GpuSimulation,
    after: GpuSimulation,
    read: Scalar,
)
    requires
        call_ensures(GpuSimulation::set_velocity_decay, (sim, v), r),
        after == *old(r),
        call_ensures(GpuSimulation::velocity_decay, (&after,), read),
    ensures
        after.params.velocity_decay == Scalar::OneMinus(v),
        read == Scalar::TwiceOneMinus(v),
        after@ == (GpuState {
            params: Params {
                velocity_decay: after.params.velocity_decay,
                ..old(sim).params
            },
            ..old(sim)@
        }),
        *final(sim) == *final(r),
{
}

/// Fixing a node leaves the state with the node fixed.
pub proof fn law_set_fixed(sim: &mut GpuSimulation, i: usize, fx: F32, fy: F32)
    requires
        call_ensures(GpuSimulation::set_fixed, (sim, i, fx, fy), ()),
    ensures
        final(sim)@ == old(sim)@.with_fixed(i as int, fx, fy),
{
}

/// Moving a node leaves the state with the node moved, and sends its two coordinates to
/// its place among the positions, eight bytes for each node.
pub proof fn law_set_position(sim: &mut GpuSimulation, i: usize, x: F32, y: F32, r: Upload)
    requires
        call_ensures(GpuSimulation::set_position, (sim, i, x, y), r),
    ensures
        final(sim)@ == old(sim)@.with_position(i as int, x, y),
        r.offset == 8 * i,
        r.bytes@.len() == 8,
        (meaning::lowest_first(r.bytes@, 0, x.bits) && meaning::lowest_first(
            r.bytes@,
            4,
            y.bits,
        )) || (meaning::highest_first(r.bytes@, 0, x.bits) && meaning::highest_first(
            r.bytes@,
            4,
            y.bits,
        )),
{
    let words = seq![x.bits, y.bits];
    meaning::law_spelled_words(r.bytes@, words);
    assert(words[0] == x.bits && words[1] == y.bits);
}

/// Ticking makes as many ticks as asked for, each with the alpha that follows, and sends
/// what is to be sent for them; without nodes it does nothing.
pub proof fn law_tick<E: Fn(Scalar) -> F32>(
    sim: &mut GpuSimulation,
    iterations: usize,
    eval: &E,
    r: Option<TickPlan>,
)
    requires
        call_ensures(GpuSimulation::tick::<E>, (sim, iterations, eval), r),
    ensures
        old(sim).n == 0 ==> r is None && final(sim)@ == old(sim)@,
        old(sim).n > 0 ==> {
            &&& r is Some
            &&& r->0.frames@.len() == iterations
            &&& r->0.answers(old(sim)@, r->0.alphas())
            &&& old(sim)@.follows(*eval, r->0.alphas())
            &&& final(sim)@ == old(sim)@.after_ticks(r->0.alphas())
        },
{
}

/// Running makes a run.
pub proof fn law_run<E: Fn(Scalar) -> F32>(
    sim: &mut GpuSimulation,
    max_ticks: usize,
    eval: &E,
    r: (usize, Option<TickPlan>),
)
    requires
        call_ensures(GpuSimulation::run::<E>, (sim, max_ticks, eval), r),
    ensures
        old(sim)@.runs(*eval, max_ticks as int, r.0 as int, r.1, final(sim)@),
{
}

/// Positions that are taken over are those that were read, as words or as the bytes that
/// spell them.
pub proof fn law_taken_over(
    sim: &mut GpuSimulation,
    words: &Vec<u32>,
    other: &mut GpuSimulation,
    read: &[u8],
)
    requires
        call_ensures(GpuSimulation::store_positions, (sim, words), ()),
        call_ensures(GpuSimulation::read_back, (other, read), ()),
    ensures
        final(sim)@ == old(sim)@.with_read_back(words@),
        exists|w: Seq<u32>| #[trigger]
            bytes::spells(read@, w) && final(other)@ == old(other)@.with_read_back(w),
{
    let w = choose|w: Seq<u32>|
        #![trigger old(other)@.with_read_back(w)]
        bytes::spells(read@, w) && final(other)@ == old(other)@.with_read_back(w);
    assert(bytes::spells(read@, w));
}

/// The buffers are sent as they are: node numbers as their bits, link words as they are,
/// formulas as what the host makes of them.
pub proof fn law_sent_buffers<E: Fn(Scalar) -> F32>(
    sim: &GpuSimulation,
    eval: &E,
    nodes: Vec<u8>,
    words: Vec<u8>,
    numbers: Vec<u8>,
    start: Vec<u8>,
)
    requires
        call_ensures(GpuSimulation::node_bytes, (sim,), nodes),
        call_ensures(GpuSimulation::link_word_bytes, (sim,), words),
        call_ensures(GpuSimulation::link_number_bytes::<E>, (sim, eval), numbers),
        call_ensures(GpuSimulation::start_bytes::<E>, (sim, eval), start),
    ensures
        bytes::spells(words@, sim.links_u@),
        exists|bits: Seq<u32>|
            {
                &&& #[trigger] bytes::spells(nodes@, bits)
                &&& bits.len() == sim.nodes_f@.len()
                &&& forall|i: int| 0 <= i < bits.len() ==> #[trigger] bits[i] == sim.nodes_f@[i].bits
            },
        exists|ws: Seq<bytes::Word>|
            {
                &&& #[trigger] bytes::sent_for(*eval, ws, numbers@)
                &&& ws.len() == sim.links_f@.len()
                &&& forall|i: int|
                    0 <= i < ws.len() ==> #[trigger] ws[i] == bytes::Word::Number(sim.links_f@[i])
            },
        exists|ws: Seq<bytes::Word>|
            {
                &&& #[trigger] bytes::sent_for(*eval, ws, start@)
                &&& ws.len() == sim.positions@.len()
                &&& forall|i: int|
                    0 <= i < ws.len() ==> #[trigger] ws[i] == bytes::Word::Number(
                        sim.positions@[i],
                    )
            },
{
    assert(bytes::spells(nodes@, bytes::bits_of(sim.nodes_f@)));
    assert(bytes::sent_for(*eval, bytes::number_words(sim.links_f@), numbers@));
    assert(bytes::sent_for(*eval, bytes::number_words(sim.positions@), start@));
}

// ---- on either backend --------------------------------------------------

/// A simulation is on the GPU exactly if it has an adapter, which is that of the
/// simulation on the GPU.
pub proof fn law_backend_and_adapter(sim: &Simulation, b: Backend, info: Option<&AdapterInfo>)
    requires
        call_ensures(Simulation::backend, (sim,), b),
        call_ensures(Simulation::adapter, (sim,), info),
    ensures
        b is Gpu <==> *sim is Gpu,
        info is Some <==> b is Gpu,
        *sim matches Simulation::Gpu(g) ==> info == Some(&g.info),
{
}

/// On the GPU alpha and its minimum are those of the simulation there; the CPU engine
/// keeps its own. The positions are those last known.
pub proof fn law_asked_of_either(
    sim: &Simulation,
    alpha: Option<F32>,
    alpha_min: Option<F32>,
    positions: &Vec<Scalar>,
)
    requires
        call_ensures(Simulation::alpha, (sim,), alpha),
        call_ensures(Simulation::alpha_min, (sim,), alpha_min),
        call_ensures(Simulation::positions, (sim,), positions),
    ensures
        *sim is Cpu ==> alpha is None && alpha_min is None,
        *sim matches Simulation::Gpu(g) ==> {
            &&& alpha == Some(g.params.alpha)
            &&& alpha_min == Some(g.alpha_min)
            &&& positions@ == g.positions@
        },
        *sim matches Simulation::Cpu { positions: known, .. } ==> positions@ == known@,
{
}

/// Setting alpha asks the CPU engine for it and changes nothing here, or sets it on the
/// GPU and nothing else.
pub proof fn law_set_alpha_on_either(sim: &mut Simulation, v: F32, r: Option<CpuCall>)
    requires
        call_ensures(Simulation::set_alpha, (sim, v), r),
    ensures
        old(sim)@ is Cpu ==> r == Some(CpuCall::SetAlpha(v)) && final(sim)@ == old(sim)@,
        old(sim)@ matches SimulationState::Gpu(g) ==> r is None && final(sim)@
            == SimulationState::Gpu(GpuState { params: Params { alpha: v, ..g.params }, ..g }),
{
}

/// Setting the target of alpha asks the CPU engine for it and changes nothing here, or
/// sets it on the GPU and nothing else.
pub proof fn law_set_alpha_target_on_either(sim: &mut Simulation, v: F32, r: Option<CpuCall>)
    requires
        call_ensures(Simulation::set_alpha_target, (sim, v), r),
    ensures
        old(sim)@ is Cpu ==> r == Some(CpuCall::SetAlphaTarget(v)) && final(sim)@ == old(sim)@,
        old(sim)@ matches SimulationState::Gpu(g) ==> r is None && final(sim)@
            == SimulationState::Gpu(GpuState { alpha_target: v, ..g }),
{
}

/// Setting the decay of alpha asks the CPU engine for it and changes nothing here, or sets
/// it on the GPU and nothing else.
pub proof fn law_set_alpha_decay_on_either(sim: &mut Simulation, v: F32, r: Option<CpuCall>)
    requires
        call_ensures(Simulation::set_alpha_decay, (sim, v), r),
    ensures
        old(sim)@ is Cpu ==> r == Some(CpuCall::SetAlphaDecay(v)) && final(sim)@ == old(sim)@,
        old(sim)@ matches SimulationState::Gpu(g) ==> r is None && final(sim)@
            == SimulationState::Gpu(GpuState { alpha_decay: v, ..g }),
{
}

/// Fixing a node asks the CPU engine for just that and changes nothing here, or fixes the
/// node on the GPU.
pub proof fn law_set_fixed_on_either(
    sim: &mut Simulation,
    i: usize,
    fx: F32,
    fy: F32,
    r: Option<CpuCall>,
)
    requires
        call_ensures(Simulation::set_fixed, (sim, i, fx, fy), r),
    ensures
        old(sim)@ is Cpu ==> r == Some(CpuCall::SetFixed { i, fx, fy }) && final(sim)@ == old(sim)@,
        old(sim)@ matches SimulationState::Gpu(g) ==> r is None && final(sim)@
            == SimulationState::Gpu(g.with_fixed(i as int, fx, fy)),
{
}

/// Ticking asks the CPU engine for as many ticks and changes nothing here, or ticks on the
/// GPU.
pub proof fn law_tick_on_either<E: Fn(Scalar) -> F32>(
    sim: &mut Simulation,
    iterations: usize,
    eval: &E,
    r: Work,
)
    requires
        call_ensures(Simulation::tick::<E>, (sim, iterations, eval), r),
    ensures
        old(sim)@ is Cpu ==> r == Work::Cpu(CpuCall::Tick(iterations)) && final(sim)@ == old(sim)@,
        old(sim)@ matches SimulationState::Gpu(g) ==> {
            &&& g.n == 0 ==> r is Nothing && final(sim)@ == old(sim)@
            &&& g.n > 0 ==> {
                &&& r is Gpu
                &&& r->Gpu_0.frames@.len() == iterations
                &&& r->Gpu_0.answers(g, r->Gpu_0.alphas())
                &&& g.follows(*eval, r->Gpu_0.alphas())
                &&& final(sim)@ == SimulationState::Gpu(g.after_ticks(r->Gpu_0.alphas()))
            }
        },
{
}

/// Running asks the CPU engine for a run with the same limit and changes nothing here, or
/// runs on the GPU, where the number of ticks is known at once.
pub proof fn law_run_on_either<E: Fn(Scalar) -> F32>(
    sim: &mut Simulation,
    max_ticks: usize,
    eval: &E,
    r: Run,
)
    requires
        call_ensures(Simulation::run::<E>, (sim, max_ticks, eval), r),
    ensures
        old(sim)@ is Cpu ==> {
            &&& r.ticks is None
            &&& r.work == Work::Cpu(CpuCall::Run(max_ticks))
            &&& final(sim)@ == old(sim)@
        },
        old(sim)@ matches SimulationState::Gpu(g) ==> {
            &&& r.ticks is Some
            &&& final(sim)@ is Gpu
            &&& r.work is Gpu ==> g.runs(
                *eval,
                max_ticks as int,
                r.ticks->0 as int,
                Some(r.work->Gpu_0),
                final(sim)@->Gpu_0,
            )
            &&& !(r.work is Gpu) ==> r.work is Nothing && g.runs(
                *eval,
                max_ticks as int,
                r.ticks->0 as int,
                None,
                final(sim)@->Gpu_0,
            )
        },
{
}

/// Bodies are taken over place by place, as far as both reach; the GPU takes none.
pub proof fn law_store_bodies(sim: &mut Simulation, pos: &[F32], k: int)
    requires
        call_ensures(Simulation::store_bodies, (sim, pos), ()),
    ensures
        old(sim)@ is Gpu ==> final(sim)@ == old(sim)@,
        old(sim)@ matches SimulationState::Cpu { model, positions } ==> {
            &&& final(sim)@ is Cpu
            &&& final(sim)@->model == model
            &&& final(sim)@->positions.len() == positions.len()
            &&& 0 <= k < positions.len() && k < pos@.len() ==> final(sim)@->positions[k]
                == Scalar::Value(pos@[k])
            &&& pos@.len() <= k < positions.len() ==> final(sim)@->positions[k] == positions[k]
        },
{
}

} // verus!
