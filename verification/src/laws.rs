//! What holds of the library as a whole.

use crate::adapter::AdapterInfo;
use crate::cpu;
use crate::cpu::{CpuForce, CpuModel};
use crate::gpu;
use crate::gpu::{Command, GpuState, Kernel, TickPlan};
use crate::graph;
use crate::model::{Config, ForceSpec, Kind, NodeInit};
use crate::number;
use crate::number::{Scalar, F32};
use crate::plan;
use crate::plan::{Pass, COLLIDE_EXTRA_SWEEPS, NODE_SLOTS};
use vstd::prelude::*;

verus! {

// ---- commands -----------------------------------------------------------

/// Whether a command runs a program that gathers from the snapshot.
pub open spec fn gathers(c: Command) -> bool {
    c matches Command::Dispatch { kernel, .. } && (kernel == Kernel::Link || kernel
        == Kernel::Collide)
}

/// Whether every gathering command directly follows a snapshot.
pub open spec fn snapshots_first(cs: Seq<Command>, bytes: u64) -> bool {
    forall|k: int|
        0 <= k < cs.len() && gathers(#[trigger] cs[k]) ==> k > 0 && cs[k - 1]
            == (Command::Snapshot { bytes })
}

pub(crate) proof fn lemma_sweeps_shape(kernel: Kernel, count: nat, groups: u32, bytes: u64)
    ensures
        gpu::sweeps(kernel, count, groups, bytes).len() == 2 * count,
        forall|k: int|
            0 <= k < 2 * count ==> #[trigger] gpu::sweeps(kernel, count, groups, bytes)[k] == if k
                % 2 == 0 {
                Command::Snapshot { bytes }
            } else {
                Command::Dispatch { kernel, groups }
            },
    decreases count,
{
    if count > 0 {
        lemma_sweeps_shape(kernel, (count - 1) as nat, groups, bytes);
        let before = gpu::sweeps(kernel, (count - 1) as nat, groups, bytes);
        let after = gpu::sweeps(kernel, count, groups, bytes);
        assert forall|k: int| 0 <= k < 2 * count implies #[trigger] after[k] == if k % 2 == 0 {
            Command::Snapshot { bytes }
        } else {
            Command::Dispatch { kernel, groups }
        } by {
            if k < 2 * (count - 1) {
                assert(after[k] == before[k]);
            }
        }
    }
}

proof fn lemma_pass_snapshots(pass: Pass, groups: u32, bytes: u64)
    ensures
        snapshots_first(gpu::pass_commands(pass, groups, bytes), bytes),
{
    let cs = gpu::pass_commands(pass, groups, bytes);
    match pass {
        Pass::Link { iterations } => {
            lemma_sweeps_shape(Kernel::Link, iterations as nat, groups, bytes);
        },
        Pass::Collide { iterations } => {
            lemma_sweeps_shape(Kernel::Collide, iterations as nat, groups, bytes);
        },
        _ => {},
    }
    assert forall|k: int| 0 <= k < cs.len() && gathers(#[trigger] cs[k]) implies k > 0 && cs[k - 1]
        == (Command::Snapshot { bytes }) by {
        if k > 0 {
            assert(cs[k - 1] == cs[k - 1]);
        }
    }
}

proof fn lemma_passes_snapshots(passes: Seq<Pass>, groups: u32, bytes: u64)
    ensures
        snapshots_first(gpu::passes_commands(passes, groups, bytes), bytes),
    decreases passes.len(),
{
    if passes.len() > 0 {
        let head = gpu::passes_commands(passes.drop_last(), groups, bytes);
        let tail = gpu::pass_commands(passes.last(), groups, bytes);
        lemma_passes_snapshots(passes.drop_last(), groups, bytes);
        lemma_pass_snapshots(passes.last(), groups, bytes);
        let all = gpu::passes_commands(passes, groups, bytes);
        assert forall|k: int| 0 <= k < all.len() && gathers(#[trigger] all[k]) implies k > 0
            && all[k - 1] == (Command::Snapshot { bytes }) by {
            if k < head.len() {
                assert(gathers(head[k]));
                assert(all[k - 1] == head[k - 1]);
            } else {
                assert(gathers(tail[k - head.len()]));
                assert(all[k - 1] == tail[k - head.len() - 1]);
            }
        }
    }
}

/// Links and collisions are gathered from a snapshot: in every tick, each round of
/// them comes directly after a copy of all velocities.
pub proof fn law_gather_from_snapshot(passes: Seq<Pass>, groups: u32, bytes: u64)
    ensures
        snapshots_first(gpu::tick_commands(passes, groups, bytes), bytes),
{
    lemma_passes_snapshots(passes, groups, bytes);
    let head = gpu::passes_commands(passes, groups, bytes);
    let all = gpu::tick_commands(passes, groups, bytes);
    assert forall|k: int| 0 <= k < all.len() && gathers(#[trigger] all[k]) implies k > 0 && all[k
        - 1] == (Command::Snapshot { bytes }) by {
        assert(k < head.len());
        assert(gathers(head[k]));
        assert(all[k - 1] == head[k - 1]);
    }
}

/// Forces run in the configured order: the commands of a run of passes are those of
/// its first part, then those of the rest.
pub proof fn law_passes_in_order(first: Seq<Pass>, rest: Seq<Pass>, groups: u32, bytes: u64)
    ensures
        gpu::passes_commands(first + rest, groups, bytes) == gpu::passes_commands(
            first,
            groups,
            bytes,
        ) + gpu::passes_commands(rest, groups, bytes),
    decreases rest.len(),
{
    if rest.len() == 0 {
        assert(first + rest =~= first);
        assert(gpu::passes_commands(first, groups, bytes) + gpu::passes_commands(
            rest,
            groups,
            bytes,
        ) =~= gpu::passes_commands(first, groups, bytes));
    } else {
        law_passes_in_order(first, rest.drop_last(), groups, bytes);
        assert((first + rest).drop_last() =~= first + rest.drop_last());
        assert((first + rest).last() == rest.last());
        assert(gpu::passes_commands(first, groups, bytes) + gpu::passes_commands(
            rest.drop_last(),
            groups,
            bytes,
        ) + gpu::pass_commands(rest.last(), groups, bytes) =~= gpu::passes_commands(
            first,
            groups,
            bytes,
        ) + gpu::passes_commands(rest, groups, bytes));
    }
}

proof fn lemma_no_integration(passes: Seq<Pass>, groups: u32, bytes: u64)
    ensures
        forall|k: int|
            0 <= k < gpu::passes_commands(passes, groups, bytes).len() ==> !integrates(
                #[trigger] gpu::passes_commands(passes, groups, bytes)[k],
            ),
    decreases passes.len(),
{
    if passes.len() > 0 {
        let head = gpu::passes_commands(passes.drop_last(), groups, bytes);
        let tail = gpu::pass_commands(passes.last(), groups, bytes);
        let all = gpu::passes_commands(passes, groups, bytes);
        lemma_no_integration(passes.drop_last(), groups, bytes);
        match passes.last() {
            Pass::Link { iterations } => {
                lemma_sweeps_shape(Kernel::Link, iterations as nat, groups, bytes);
            },
            Pass::Collide { iterations } => {
                lemma_sweeps_shape(Kernel::Collide, iterations as nat, groups, bytes);
            },
            _ => {},
        }
        assert forall|k: int| 0 <= k < all.len() implies !integrates(#[trigger] all[k]) by {
            if k < head.len() {
                assert(all[k] == head[k]);
            } else {
                assert(all[k] == tail[k - head.len()]);
            }
        }
    }
}

/// Whether a command runs the integration.
pub open spec fn integrates(c: Command) -> bool {
    c matches Command::Dispatch { kernel, .. } && kernel == Kernel::Integrate
}

/// A tick integrates exactly once, after all forces.
pub proof fn law_integration_last(passes: Seq<Pass>, groups: u32, bytes: u64, k: int)
    requires
        0 <= k < gpu::tick_commands(passes, groups, bytes).len(),
    ensures
        integrates(gpu::tick_commands(passes, groups, bytes)[k]) <==> k == gpu::tick_commands(
            passes,
            groups,
            bytes,
        ).len() - 1,
{
    lemma_no_integration(passes, groups, bytes);
    let head = gpu::passes_commands(passes, groups, bytes);
    let all = gpu::tick_commands(passes, groups, bytes);
    if k < head.len() {
        assert(all[k] == head[k]);
    }
}

/// A collision force gets one round more than configured, and at least two; each
/// round is a snapshot and a run of the program.
pub proof fn law_collide_rounds(force: ForceSpec, n: int, groups: u32, bytes: u64)
    requires
        force is Collide,
        plan::sized(force, n),
    ensures
        gpu::pass_commands(plan::pass_of(force), groups, bytes) == gpu::sweeps(
            Kernel::Collide,
            (plan::at_least_one(force->Collide_iterations) + COLLIDE_EXTRA_SWEEPS) as nat,
            groups,
            bytes,
        ),
        gpu::pass_commands(plan::pass_of(force), groups, bytes).len() == 2 * (plan::at_least_one(
            force->Collide_iterations,
        ) + COLLIDE_EXTRA_SWEEPS),
{
    lemma_sweeps_shape(
        Kernel::Collide,
        (plan::at_least_one(force->Collide_iterations) + COLLIDE_EXTRA_SWEEPS) as nat,
        groups,
        bytes,
    );
}

// ---- state --------------------------------------------------------------

/// Ticks add up: a run of ticks leaves the state that its two parts leave when run
/// one after the other.
pub proof fn law_ticks_add_up(state: GpuState, first: Seq<F32>, rest: Seq<F32>)
    ensures
        state.after_ticks(first).after_ticks(rest) == state.after_ticks(first + rest),
{
    let middle = state.after_ticks(first);
    let a = middle.after_ticks(rest);
    let b = state.after_ticks(first + rest);
    if rest.len() > 0 {
        let last = rest.len() - 1;
        assert((first + rest)[first.len() + last] == rest[last]);
        assert(a.params == b.params);
    } else {
        assert(first + rest =~= first);
    }
    assert(a =~= b);
}

/// The ticks of a run have the parameters that they would have one by one.
pub proof fn law_frames_add_up(state: GpuState, first: Seq<F32>, rest: Seq<F32>, k: int)
    requires
        0 <= k < rest.len(),
    ensures
        state.after_ticks(first).frame(rest, k) == state.frame(first + rest, first.len() + k),
{
}

/// Whether a host always makes the same of a formula.
pub open spec fn deterministic<E: Fn(Scalar) -> F32>(eval: E) -> bool {
    forall|s: Scalar, v: F32, w: F32|
        #[trigger] call_ensures(eval, (s,), v) && #[trigger] call_ensures(eval, (s,), w) ==> v == w
}

/// On a deterministic host, alpha has one schedule: of two runs of ticks from the
/// same state, the shorter one has the first alphas of the longer one.
pub proof fn law_schedule_determined<E: Fn(Scalar) -> F32>(
    state: GpuState,
    eval: E,
    a: Seq<F32>,
    b: Seq<F32>,
)
    requires
        deterministic(eval),
        state.follows(eval, a),
        state.follows(eval, b),
        a.len() <= b.len(),
    ensures
        a == b.take(a.len() as int),
{
    assert forall|k: int| 0 <= k < a.len() implies a[k] == b[k] by {
        lemma_same_alpha(state, eval, a, b, k);
    }
    assert(a =~= b.take(a.len() as int));
}

proof fn lemma_same_alpha<E: Fn(Scalar) -> F32>(
    state: GpuState,
    eval: E,
    a: Seq<F32>,
    b: Seq<F32>,
    k: int,
)
    requires
        deterministic(eval),
        state.follows(eval, a),
        state.follows(eval, b),
        0 <= k < a.len(),
        k < b.len(),
    ensures
        a[k] == b[k],
    decreases k,
{
    if k > 0 {
        lemma_same_alpha(state, eval, a, b, k - 1);
    }
    assert(state.alpha_before(a, k) == state.alpha_before(b, k));
}

/// The state and the alphas of a run of ticks decide everything that is sent to the
/// device.
pub proof fn law_plan_determined(state: GpuState, alphas: Seq<F32>, a: TickPlan, b: TickPlan)
    requires
        a.answers(state, alphas),
        b.answers(state, alphas),
    ensures
        a.upload_nodes == b.upload_nodes,
        a.stopped@ == b.stopped@,
        a.frames@ == b.frames@,
        a.commands@ == b.commands@,
{
}

/// On a deterministic host, runs are deterministic: from the same state and with
/// the same limit, two runs do the same number of ticks, send the same and end in
/// the same state.
pub proof fn law_run_determined<E: Fn(Scalar) -> F32>(
    state: GpuState,
    eval: E,
    max_ticks: int,
    ticks: int,
    sent: Option<TickPlan>,
    after: GpuState,
    other_ticks: int,
    other_sent: Option<TickPlan>,
    other_after: GpuState,
)
    requires
        deterministic(eval),
        state.runs(eval, max_ticks, ticks, sent, after),
        state.runs(eval, max_ticks, other_ticks, other_sent, other_after),
    ensures
        ticks == other_ticks,
        after == other_after,
        sent is Some <==> other_sent is Some,
        sent is Some ==> {
            &&& sent->0.upload_nodes == other_sent->0.upload_nodes
            &&& sent->0.stopped@ == other_sent->0.stopped@
            &&& sent->0.frames@ == other_sent->0.frames@
            &&& sent->0.commands@ == other_sent->0.commands@
        },
{
    if sent is Some && other_sent is Some {
        let a = sent->0.alphas();
        let b = other_sent->0.alphas();
        if ticks <= other_ticks {
            law_schedule_determined(state, eval, a, b);
            if ticks < other_ticks {
                assert(state.hot(b, ticks));
                assert(a[ticks - 1] == b.take(ticks)[ticks - 1]);
                assert(!state.hot(a, ticks));
            }
        } else {
            law_schedule_determined(state, eval, b, a);
            assert(state.hot(a, other_ticks));
            assert(b[other_ticks - 1] == a.take(other_ticks)[other_ticks - 1]);
            assert(!state.hot(b, other_ticks));
        }
        assert(a =~= b);
        law_plan_determined(state, a, sent->0, other_sent->0);
    }
}

/// Whether a host cools: each step from a finite number that is at least zero
/// towards zero, at a rate between zero and one, gives a number that is at least
/// zero and at most the one before.
pub open spec fn cools<E: Fn(Scalar) -> F32>(eval: E) -> bool {
    forall|from: F32, to: F32, rate: F32, v: F32|
        {
            &&& from.spec_is_finite()
            &&& from.spec_at_least(F32::zero())
            &&& to.same_number(F32::zero())
            &&& rate.spec_at_least(F32::zero())
            &&& F32::one().spec_at_least(rate)
            &&& #[trigger] call_ensures(eval, (Scalar::Approach { from, to, rate },), v)
        } ==> v.spec_at_least(F32::zero()) && from.spec_at_least(v)
}

/// Whether a state is one that cools down: alpha is a finite number that is at least
/// zero, and goes to zero at a rate between zero and one.
pub open spec fn cooling(state: GpuState) -> bool {
    &&& state.alpha_target.same_number(F32::zero())
    &&& state.alpha_decay.spec_at_least(F32::zero())
    &&& F32::one().spec_at_least(state.alpha_decay)
    &&& state.params.alpha.spec_is_finite()
    &&& state.params.alpha.spec_at_least(F32::zero())
}

/// Cooling never reverses and never undershoots: over a run of ticks towards zero,
/// alpha never rises, never falls below zero, and stays finite.
pub proof fn law_alpha_cools<E: Fn(Scalar) -> F32>(
    state: GpuState,
    eval: E,
    alphas: Seq<F32>,
    j: int,
    k: int,
)
    requires
        cools(eval),
        cooling(state),
        state.follows(eval, alphas),
        0 <= j <= k <= alphas.len(),
    ensures
        state.alpha_before(alphas, k).spec_at_least(F32::zero()),
        state.alpha_before(alphas, k).spec_is_finite(),
        state.alpha_before(alphas, j).spec_at_least(state.alpha_before(alphas, k)),
    decreases k,
{
    if j < k {
        law_alpha_cools(state, eval, alphas, j, k - 1);
        let from = state.alpha_before(alphas, k - 1);
        let v = alphas[k - 1];
        assert(call_ensures(
            eval,
            (Scalar::Approach { from, to: state.alpha_target, rate: state.alpha_decay },),
            v,
        ));
        number::law_finite_between(from, v);
        number::law_order_transitive(state.alpha_before(alphas, j), from, v);
    } else if k > 0 {
        law_alpha_cools(state, eval, alphas, 0, k - 1);
        let from = state.alpha_before(alphas, k - 1);
        let v = alphas[k - 1];
        assert(call_ensures(
            eval,
            (Scalar::Approach { from, to: state.alpha_target, rate: state.alpha_decay },),
            v,
        ));
        number::law_finite_between(from, v);
    }
}

/// After a run of ticks towards zero, alpha is at least zero and at most what it was
/// before, and the state cools on.
pub proof fn law_ticks_cool<E: Fn(Scalar) -> F32>(state: GpuState, eval: E, alphas: Seq<F32>)
    requires
        cools(eval),
        cooling(state),
        state.follows(eval, alphas),
    ensures
        state.after_ticks(alphas).params.alpha.spec_at_least(F32::zero()),
        state.params.alpha.spec_at_least(state.after_ticks(alphas).params.alpha),
        cooling(state.after_ticks(alphas)),
{
    law_alpha_cools(state, eval, alphas, 0, alphas.len() as int);
    assert(state.alpha_before(alphas, alphas.len() as int) == state.after_ticks(
        alphas,
    ).params.alpha);
}

/// A run that ends before its limit has cooled down: another run does nothing,
/// whatever its limit.
pub proof fn law_cooled_run_stays<E: Fn(Scalar) -> F32>(
    state: GpuState,
    eval: E,
    max_ticks: int,
    ticks: int,
    sent: Option<TickPlan>,
    after: GpuState,
    next_max: int,
    next_ticks: int,
    next_sent: Option<TickPlan>,
    next_after: GpuState,
)
    requires
        state.runs(eval, max_ticks, ticks, sent, after),
        ticks < max_ticks,
        after.runs(eval, next_max, next_ticks, next_sent, next_after),
    ensures
        next_ticks == 0,
        next_sent is None,
        next_after == after,
{
    if ticks > 0 {
        assert(!state.hot(sent->0.alphas(), ticks));
    }
}

/// Pinning a free node and freeing it again restores its row, whatever it was
/// pinned at in between.
pub proof fn law_free_undoes_pin(
    state: GpuState,
    info: AdapterInfo,
    nodes: Seq<NodeInit>,
    config: Config,
    i: int,
    fx: F32,
    fy: F32,
    free: F32,
)
    requires
        state.starts(info, nodes, config),
        0 <= i < nodes.len(),
        nodes[i].fx.spec_is_nan(),
        nodes[i].fy.spec_is_nan(),
        free.spec_is_nan(),
    ensures
        state.with_fixed(i, fx, fy).with_fixed(i, free, free).nodes_f == state.nodes_f,
{
    let after = state.with_fixed(i, fx, fy).with_fixed(i, free, free).nodes_f;
    assert forall|k: int| 0 <= k < after.len() implies after[k] == state.nodes_f[k] by {
        if NODE_SLOTS * i + 8 <= k < NODE_SLOTS * i + 12 {
            let slot = k - NODE_SLOTS * i;
            assert(state.nodes_f[NODE_SLOTS * i + slot] == plan::node_slot(
                config.forces@,
                nodes[i],
                i,
                slot,
            ));
        }
    }
    assert(after =~= state.nodes_f);
}

/// Pinning a node later leaves the node buffer that building with the pin packs.
pub proof fn law_pin_like_built(
    state: GpuState,
    forces: Seq<(String, ForceSpec)>,
    nodes: Seq<NodeInit>,
    i: int,
    fx: F32,
    fy: F32,
)
    requires
        plan::is_node_buffer(state.nodes_f, forces, nodes),
        0 <= i < nodes.len(),
    ensures
        plan::is_node_buffer(
            state.with_fixed(i, fx, fy).nodes_f,
            forces,
            nodes.update(i, NodeInit { fx, fy, ..nodes[i] }),
        ),
{
    let pinned = nodes.update(i, NodeInit { fx, fy, ..nodes[i] });
    let after = state.with_fixed(i, fx, fy).nodes_f;
    assert forall|h: int, slot: int| 0 <= h < pinned.len() && 0 <= slot < NODE_SLOTS implies after[
    NODE_SLOTS * h + slot] == #[trigger] plan::node_slot(forces, pinned[h], h, slot) by {
        assert(state.nodes_f[NODE_SLOTS * h + slot] == plan::node_slot(
            forces,
            nodes[h],
            h,
            slot,
        ));
    }
}

/// The last pin of a node is the one that counts.
pub proof fn law_last_pin_counts(state: GpuState, i: int, fx: F32, fy: F32, gx: F32, gy: F32)
    ensures
        state.with_fixed(i, fx, fy).with_fixed(i, gx, gy) == state.with_fixed(i, gx, gy),
{
    assert(state.with_fixed(i, fx, fy).with_fixed(i, gx, gy) =~= state.with_fixed(i, gx, gy));
}

/// Pins of different nodes do not touch each other.
pub proof fn law_pins_independent(
    state: GpuState,
    i: int,
    fx: F32,
    fy: F32,
    j: int,
    gx: F32,
    gy: F32,
)
    requires
        i != j,
    ensures
        state.with_fixed(i, fx, fy).with_fixed(j, gx, gy) == state.with_fixed(
            j,
            gx,
            gy,
        ).with_fixed(i, fx, fy),
{
    assert(state.with_fixed(i, fx, fy).with_fixed(j, gx, gy) =~= state.with_fixed(
        j,
        gx,
        gy,
    ).with_fixed(i, fx, fy));
}

/// A pin is sent to the device before the next tick, and only once.
pub proof fn law_pin_reaches_device(
    state: GpuState,
    i: int,
    fx: F32,
    fy: F32,
    sent: TickPlan,
    alphas: Seq<F32>,
    next: TickPlan,
    later: Seq<F32>,
)
    requires
        sent.answers(state.with_fixed(i, fx, fy), alphas),
        next.answers(state.with_fixed(i, fx, fy).after_ticks(alphas), later),
    ensures
        sent.upload_nodes,
        !next.upload_nodes,
{
}

/// A node that is moved by hand is where it was put, every other node stays, and
/// the next tick stops the node before anything else, once.
pub proof fn law_moved_node_stops(
    state: GpuState,
    i: int,
    x: F32,
    y: F32,
    sent: TickPlan,
    alphas: Seq<F32>,
    next: TickPlan,
    later: Seq<F32>,
)
    requires
        state.wf(),
        0 <= i < state.n,
        sent.answers(state.with_position(i, x, y), alphas),
        next.answers(state.with_position(i, x, y).after_ticks(alphas), later),
    ensures
        state.with_position(i, x, y).positions[2 * i] == Scalar::Value(x),
        state.with_position(i, x, y).positions[2 * i + 1] == Scalar::Value(y),
        forall|k: int|
            0 <= k < state.positions.len() && k != 2 * i && k != 2 * i + 1
                ==> #[trigger] state.with_position(i, x, y).positions[k] == state.positions[k],
        sent.stopped@.contains(i as u32),
        next.stopped@.len() == 0,
{
    assert(sent.stopped@.last() == i as u32);
}

/// Ticking makes the positions stale, reading back makes them current and is what
/// is then seen.
pub proof fn law_read_back_is_seen(state: GpuState, alphas: Seq<F32>, words: Seq<u32>, k: int)
    requires
        0 <= k < words.len(),
    ensures
        state.after_ticks(alphas).positions_dirty,
        !state.after_ticks(alphas).with_read_back(words).positions_dirty,
        state.after_ticks(alphas).with_read_back(words).positions[k] == Scalar::Value(
            F32 { bits: words[k] },
        ),
{
}

// ---- configurations -----------------------------------------------------

proof fn lemma_links_in_range(forces: Seq<(String, ForceSpec)>, n: int)
    requires
        plan::accepted(forces, n),
    ensures
        graph::in_range(plan::links_of(forces), n),
    decreases forces.len(),
{
    if forces.len() > 0 {
        let before = forces.drop_last();
        assert forall|k: int| 0 <= k < before.len() implies !#[trigger] plan::faulty(
            before,
            n,
            k,
        ) by {
            assert(!plan::faulty(forces, n, k));
            if plan::repeated(before, k) {
                let j = choose|j: int|
                    0 <= j < k && (#[trigger] before[j]).1.spec_kind()
                        == before[k].1.spec_kind();
                assert(forces[j].1.spec_kind() == forces[k].1.spec_kind());
                assert(plan::repeated(forces, k));
            }
        }
        lemma_links_in_range(before, n);
        assert(!plan::faulty(forces, n, forces.len() - 1));
    }
}

proof fn lemma_link_words_unique(
    a: Seq<u32>,
    b: Seq<u32>,
    links: Seq<(u32, u32)>,
    n: int,
    v: int,
)
    requires
        graph::in_range(links, n),
        plan::is_link_words(a, links, n),
        plan::is_link_words(b, links, n),
        0 <= v <= n,
    ensures
        graph::offset(links, v) <= 2 * links.len(),
        forall|q: int|
            0 <= q < graph::offset(links, v) ==> #[trigger] a[n + 1 + q] == b[n + 1 + q],
    decreases v,
{
    graph::law_degree_sum(links, n);
    if v > 0 {
        let w = v - 1;
        lemma_link_words_unique(a, b, links, n, w);
        graph::law_rows_partition(links, n, w);
        assert(a[w] == graph::offset(links, w));
        assert(b[w] == graph::offset(links, w));
        assert(a[v] == graph::offset(links, v));
        assert(b[v] == graph::offset(links, v));
        assert(plan::link_row(a, n, w) == graph::incident(links, w));
        assert(plan::link_row(b, n, w) == graph::incident(links, w));
        assert forall|q: int| 0 <= q < graph::offset(links, v) implies #[trigger] a[n + 1 + q]
            == b[n + 1 + q] by {
            if q >= graph::offset(links, w) {
                let k = q - graph::offset(links, w);
                assert(a[n + 1 + q] == plan::link_row(a, n, w)[k]);
                assert(b[n + 1 + q] == plan::link_row(b, n, w)[k]);
            }
        }
    } else {
        assert(graph::offset(links, 0) == 0);
    }
}

/// Building is deterministic: the same adapter, nodes and configuration lead to the
/// same state, bit for bit.
pub proof fn law_start_determined(
    a: GpuState,
    b: GpuState,
    info: AdapterInfo,
    nodes: Seq<NodeInit>,
    config: Config,
)
    requires
        plan::accepted(config.forces@, nodes.len() as int),
        a.starts(info, nodes, config),
        b.starts(info, nodes, config),
    ensures
        a == b,
{
    let n = nodes.len() as int;
    let forces = config.forces@;
    let links = plan::links_of(forces);
    lemma_links_in_range(forces, n);
    lemma_link_words_unique(a.links_u, b.links_u, links, n, n);
    graph::law_degree_sum(links, n);
    assert forall|p: int| 0 <= p < a.links_u.len() implies a.links_u[p] == b.links_u[p] by {
        if p <= n {
            assert(a.links_u[p] == graph::offset(links, p));
            assert(b.links_u[p] == graph::offset(links, p));
        } else if p < n + 1 + 2 * links.len() {
            assert(a.links_u[n + 1 + (p - n - 1)] == b.links_u[n + 1 + (p - n - 1)]);
        } else {
            let j = p - (n + 1 + 2 * links.len());
            assert(a.links_u[n + 1 + 2 * links.len() + j] == graph::endpoint(links, j));
            assert(b.links_u[n + 1 + 2 * links.len() + j] == graph::endpoint(links, j));
        }
    }
    assert(a.links_u =~= b.links_u);
    match plan::of_kind(forces, Kind::Link) {
        Some(ForceSpec::Link { links: ls, distance, strength, .. }) => {
            if ls@.len() > 0 {
                assert forall|p: int| 0 <= p < a.links_f.len() implies a.links_f[p]
                    == b.links_f[p] by {
                    let e = p / 3;
                    let slot = p % 3;
                    let want = plan::link_slot(ls@, distance, strength, e, slot);
                    assert(a.links_f[3 * e + slot] == want);
                    assert(b.links_f[3 * e + slot] == want);
                }
                assert(a.links_f =~= b.links_f);
            }
        },
        _ => {},
    }
    assert forall|p: int| 0 <= p < a.nodes_f.len() implies a.nodes_f[p] == b.nodes_f[p] by {
        let i = p / 12;
        let slot = p % 12;
        let want = plan::node_slot(forces, nodes[i], i, slot);
        assert(a.nodes_f[NODE_SLOTS * i + slot] == want);
        assert(b.nodes_f[NODE_SLOTS * i + slot] == want);
    }
    assert(a.nodes_f =~= b.nodes_f);
    assert forall|p: int| 0 <= p < a.positions.len() implies a.positions[p] == b.positions[p] by {
        let i = p / 2;
        let want = plan::start(nodes[i], i);
        assert((a.positions[2 * i], a.positions[2 * i + 1]) == want);
        assert((b.positions[2 * i], b.positions[2 * i + 1]) == want);
    }
    assert(a.positions =~= b.positions);
    assert(a.moved =~= b.moved);
    assert(a =~= b);
}

/// The offsets among the parameters lead a device program to the links of a node
/// and to the ends of a link, as long as the word buffer can be addressed with
/// 32 bits.
pub proof fn law_device_finds_links(
    state: GpuState,
    info: AdapterInfo,
    nodes: Seq<NodeInit>,
    config: Config,
    v: int,
    e: int,
)
    requires
        state.starts(info, nodes, config),
        state.links_u.len() <= u32::MAX,
        0 <= v < state.n,
        0 <= e < state.m,
    ensures
        ({
            let words = state.links_u;
            let p = state.params;
            let links = plan::links_of(config.forces@);
            &&& words.subrange(
                p.idx_off + words[p.ptr_off + v],
                p.idx_off + words[p.ptr_off + v + 1],
            ) == graph::incident(links, v)
            &&& words[p.ends_off + 2 * e] == links[e].0
            &&& words[p.ends_off + 2 * e + 1] == links[e].1
        }),
{
    let n = nodes.len() as int;
    let links = plan::links_of(config.forces@);
    assert(plan::link_row(state.links_u, n, v) == graph::incident(links, v));
    assert(state.links_u[n + 1 + 2 * links.len() + 2 * e] == graph::endpoint(links, 2 * e));
    assert(state.links_u[n + 1 + 2 * links.len() + (2 * e + 1)] == graph::endpoint(
        links,
        2 * e + 1,
    ));
}

/// Whether a pass runs the force that the CPU engine is given as `force`.
pub open spec fn pass_runs(pass: Pass, force: CpuForce) -> bool {
    match force {
        CpuForce::ManyBody { .. } => pass is ManyBody,
        CpuForce::Link { .. } => pass is Link,
        CpuForce::Collide { .. } => pass is Collide,
        CpuForce::X { .. } => pass is X,
        CpuForce::Y { .. } => pass is Y,
        CpuForce::Center { .. } => pass is Center,
        CpuForce::Radial { .. } => pass is Radial,
    }
}

/// Both backends run the same model: the same forces in the same order, and the
/// same alpha and velocity parameters. The forces have different names, because on
/// the CPU a force takes the place of an earlier one of its name.
pub proof fn law_backends_agree(
    model: CpuModel,
    state: GpuState,
    info: AdapterInfo,
    nodes: Seq<NodeInit>,
    config: Config,
)
    requires
        state.starts(info, nodes, config),
        model.describes(nodes, config),
        forall|i: int, j: int|
            0 <= i < j < config.forces@.len() ==> (#[trigger] config.forces@[i]).0@ != (
            #[trigger] config.forces@[j]).0@,
    ensures
        model.alpha == state.params.alpha,
        model.alpha_min == state.alpha_min,
        model.alpha_decay == state.alpha_decay,
        model.alpha_target == state.alpha_target,
        state.params.velocity_decay == Scalar::OneMinus(model.velocity_decay),
        model.nodes@.len() == state.n,
        model.applied().len() == state.passes.len(),
        forall|k: int|
            0 <= k < state.passes.len() ==> pass_runs(
                #[trigger] state.passes[k],
                model.applied()[k],
            ),
{
    let names = model.names();
    assert forall|i: int, j: int| 0 <= i < j < names.len() implies names[i] != names[j] by {
        assert(model.forces@[i].0@ == config.forces@[i].0@);
        assert(model.forces@[j].0@ == config.forces@[j].0@);
        assert(config.forces@[i].0@ != config.forces@[j].0@);
    }
    cpu::law_names_keep_order(names);
    assert forall|k: int| 0 <= k < state.passes.len() implies pass_runs(
        #[trigger] state.passes[k],
        model.applied()[k],
    ) by {
        assert(model.forces@[k].1.renders(config.forces@[k].1));
    }
}

/// Whether the device has, for node `i`, the parameters that the CPU engine is given
/// with `force`. An unset target of a pull makes the pull zero on the device.
pub open spec fn device_has(state: GpuState, force: CpuForce, i: int) -> bool {
    let row = NODE_SLOTS * i;
    match force {
        CpuForce::ManyBody { strength, distance_min, distance_max, .. } => {
            &&& state.nodes_f[row] == strength.at(i)
            &&& state.params.distance_min2 == Scalar::Square(distance_min)
            &&& state.params.distance_max2 == if distance_max.spec_is_finite() {
                Scalar::Square(distance_max)
            } else {
                Scalar::Value(F32::infinity())
            }
        },
        CpuForce::Link { .. } => true,
        CpuForce::Collide { radius, strength, .. } => {
            &&& state.nodes_f[row + 1] == radius.at(i)
            &&& state.params.collide_strength == strength
        },
        CpuForce::X { x, strength } => {
            &&& state.nodes_f[row + 2] == plan::or_zero(x.at(i), x.at(i))
            &&& state.nodes_f[row + 3] == plan::or_zero(x.at(i), strength.at(i))
        },
        CpuForce::Y { y, strength } => {
            &&& state.nodes_f[row + 4] == plan::or_zero(y.at(i), y.at(i))
            &&& state.nodes_f[row + 5] == plan::or_zero(y.at(i), strength.at(i))
        },
        CpuForce::Center { x, y, strength } => {
            &&& state.params.center_x == x
            &&& state.params.center_y == y
            &&& state.params.center_strength == strength
        },
        CpuForce::Radial { radius, x, y, strength } => {
            &&& state.nodes_f[row + 6] == radius.at(i)
            &&& state.nodes_f[row + 7] == plan::or_zero(radius.at(i), strength.at(i))
            &&& state.params.radial_x == x
            &&& state.params.radial_y == y
        },
    }
}

/// Whether the device has, for link `e`, the parameters that the CPU engine is given
/// with a link force. What the engine takes from the degrees by default, the device
/// has from the same degrees.
pub open spec fn device_has_link(
    state: GpuState,
    config: Config,
    force: CpuForce,
    e: int,
) -> bool {
    let all = plan::links_of(config.forces@);
    let s = graph::degree(all, all[e].0 as int);
    let t = graph::degree(all, all[e].1 as int);
    force matches CpuForce::Link { links, distance, strength, .. } ==> {
        &&& state.m == links@.len()
        &&& 0 <= e < links@.len() ==> {
            &&& state.links_u[state.n + 1 + 2 * state.m + 2 * e] == links@[e].0
            &&& state.links_u[state.n + 1 + 2 * state.m + 2 * e + 1] == links@[e].1
            &&& state.links_f[3 * e] == Scalar::Value(distance.at(e))
            &&& state.links_f[3 * e + 1] == match strength {
                Some(v) => Scalar::Value(v.at(e)),
                None => Scalar::Quotient { num: 1, den: plan::smaller(s, t) as u32 },
            }
            &&& state.links_f[3 * e + 2] == (Scalar::Quotient { num: s as u32, den: (s + t) as u32 })
        }
    }
}

/// Both backends get the same parameters: what the CPU engine is given with a force,
/// the device has for every node and link.
pub proof fn law_parameters_agree(
    model: CpuModel,
    state: GpuState,
    info: AdapterInfo,
    nodes: Seq<NodeInit>,
    config: Config,
    k: int,
)
    requires
        plan::accepted(config.forces@, nodes.len() as int),
        state.starts(info, nodes, config),
        model.describes(nodes, config),
        0 <= k < config.forces@.len(),
    ensures
        forall|i: int|
            0 <= i < nodes.len() ==> #[trigger] device_has(state, model.forces@[k].1, i),
        forall|e: int| #[trigger] device_has_link(state, config, model.forces@[k].1, e),
{
    let forces = config.forces@;
    let force = forces[k].1;
    let kind = force.spec_kind();
    let given = model.forces@[k].1;
    assert(given.renders(force));
    assert forall|i: int, j: int| 0 <= i < j < forces.len() implies (
    #[trigger] forces[i]).1.spec_kind() != (#[trigger] forces[j]).1.spec_kind() by {
        law_one_force_per_kind(forces, nodes.len() as int, i, j);
    }
    lemma_of_kind_at(forces, kind, k);
    assert forall|i: int| 0 <= i < nodes.len() implies #[trigger] device_has(state, given, i) by {
        let row = NODE_SLOTS * i;
        assert(state.nodes_f[row + 0] == plan::node_slot(forces, nodes[i], i, 0));
        assert(state.nodes_f[row + 1] == plan::node_slot(forces, nodes[i], i, 1));
        assert(state.nodes_f[row + 2] == plan::node_slot(forces, nodes[i], i, 2));
        assert(state.nodes_f[row + 3] == plan::node_slot(forces, nodes[i], i, 3));
        assert(state.nodes_f[row + 4] == plan::node_slot(forces, nodes[i], i, 4));
        assert(state.nodes_f[row + 5] == plan::node_slot(forces, nodes[i], i, 5));
        assert(state.nodes_f[row + 6] == plan::node_slot(forces, nodes[i], i, 6));
        assert(state.nodes_f[row + 7] == plan::node_slot(forces, nodes[i], i, 7));
    }
    assert forall|e: int| #[trigger] device_has_link(state, config, given, e) by {
        if let ForceSpec::Link { links, distance, strength, .. } = force {
            if 0 <= e < links@.len() {
                let n = nodes.len() as int;
                let m = links@.len();
                assert(state.links_u[n + 1 + 2 * m + 2 * e] == graph::endpoint(links@, 2 * e));
                assert(state.links_u[n + 1 + 2 * m + (2 * e + 1)] == graph::endpoint(
                    links@,
                    2 * e + 1,
                ));
                assert(state.links_f[3 * e + 0] == plan::link_slot(
                    links@,
                    distance,
                    strength,
                    e,
                    0,
                ));
                assert(state.links_f[3 * e + 1] == plan::link_slot(
                    links@,
                    distance,
                    strength,
                    e,
                    1,
                ));
                assert(state.links_f[3 * e + 2] == plan::link_slot(
                    links@,
                    distance,
                    strength,
                    e,
                    2,
                ));
            }
        }
    }
}

pub(crate) proof fn lemma_of_kind_at(forces: Seq<(String, ForceSpec)>, kind: Kind, k: int)
    requires
        0 <= k < forces.len(),
        forces[k].1.spec_kind() == kind,
        forall|i: int, j: int|
            0 <= i < j < forces.len() ==> (#[trigger] forces[i]).1.spec_kind() != (
            #[trigger] forces[j]).1.spec_kind(),
    ensures
        plan::of_kind(forces, kind) == Some(forces[k].1),
    decreases forces.len(),
{
    if k < forces.len() - 1 {
        let before = forces.drop_last();
        assert(forces[k].1.spec_kind() != forces[forces.len() - 1].1.spec_kind());
        assert forall|i: int, j: int| 0 <= i < j < before.len() implies (
        #[trigger] before[i]).1.spec_kind() != (#[trigger] before[j]).1.spec_kind() by {
            assert(forces[i].1.spec_kind() != forces[j].1.spec_kind());
        }
        lemma_of_kind_at(before, kind, k);
    }
}

/// Whether two forces are the same but for `theta`.
pub open spec fn same_but_theta(f: ForceSpec, g: ForceSpec) -> bool {
    match (f, g) {
        (
            ForceSpec::ManyBody { strength, distance_min, distance_max, .. },
            ForceSpec::ManyBody { strength: s, distance_min: d, distance_max: e, .. },
        ) => strength.same(s) && distance_min == d && distance_max == e,
        (
            ForceSpec::Link { links, distance, strength, iterations },
            ForceSpec::Link { links: l, distance: d, strength: s, iterations: i },
        ) => {
            &&& links@ == l@
            &&& distance.same(d)
            &&& match (strength, s) {
                (Some(v), Some(w)) => v.same(w),
                (None, None) => true,
                _ => false,
            }
            &&& iterations == i
        },
        (
            ForceSpec::Collide { radius, strength, iterations },
            ForceSpec::Collide { radius: r, strength: s, iterations: i },
        ) => radius.same(r) && strength == s && iterations == i,
        (ForceSpec::X { x, strength }, ForceSpec::X { x: v, strength: s }) => x.same(v)
            && strength.same(s),
        (ForceSpec::Y { y, strength }, ForceSpec::Y { y: v, strength: s }) => y.same(v)
            && strength.same(s),
        (ForceSpec::Center { x, y, strength }, ForceSpec::Center { x: v, y: w, strength: s }) => x
            == v && y == w && strength == s,
        (
            ForceSpec::Radial { radius, x, y, strength },
            ForceSpec::Radial { radius: r, x: v, y: w, strength: s },
        ) => radius.same(r) && x == v && y == w && strength.same(s),
        _ => false,
    }
}

/// Whether two configurations are the same but for `theta` and the names of forces.
pub open spec fn alike(config: Config, other: Config) -> bool {
    &&& config.alpha == other.alpha
    &&& config.alpha_min == other.alpha_min
    &&& config.alpha_decay == other.alpha_decay
    &&& config.alpha_target == other.alpha_target
    &&& config.velocity_decay == other.velocity_decay
    &&& config.forces@.len() == other.forces@.len()
    &&& forall|k: int|
        0 <= k < config.forces@.len() ==> same_but_theta(
            (#[trigger] config.forces@[k]).1,
            other.forces@[k].1,
        )
}

proof fn lemma_alike_kind(
    f: Seq<(String, ForceSpec)>,
    g: Seq<(String, ForceSpec)>,
    kind: Kind,
)
    requires
        f.len() == g.len(),
        forall|k: int| 0 <= k < f.len() ==> same_but_theta((#[trigger] f[k]).1, g[k].1),
    ensures
        match (plan::of_kind(f, kind), plan::of_kind(g, kind)) {
            (Some(a), Some(b)) => same_but_theta(a, b),
            (None, None) => true,
            _ => false,
        },
    decreases f.len(),
{
    if f.len() > 0 {
        let last = f.len() - 1;
        assert(same_but_theta(f[last].1, g[last].1));
        assert forall|k: int| 0 <= k < f.drop_last().len() implies same_but_theta(
            (#[trigger] f.drop_last()[k]).1,
            g.drop_last()[k].1,
        ) by {
            assert(same_but_theta(f[k].1, g[k].1));
        }
        lemma_alike_kind(f.drop_last(), g.drop_last(), kind);
    }
}

/// The GPU ignores `theta`, and the names of forces: configurations that differ in
/// nothing else start in the same state, bit for bit.
pub proof fn law_theta_ignored(
    a: GpuState,
    b: GpuState,
    info: AdapterInfo,
    nodes: Seq<NodeInit>,
    config: Config,
    other: Config,
)
    requires
        plan::accepted(config.forces@, nodes.len() as int),
        alike(config, other),
        a.starts(info, nodes, config),
        b.starts(info, nodes, other),
    ensures
        a == b,
{
    let f = config.forces@;
    let g = other.forces@;
    lemma_alike_kind(f, g, Kind::ManyBody);
    lemma_alike_kind(f, g, Kind::Link);
    lemma_alike_kind(f, g, Kind::Collide);
    lemma_alike_kind(f, g, Kind::X);
    lemma_alike_kind(f, g, Kind::Y);
    lemma_alike_kind(f, g, Kind::Center);
    lemma_alike_kind(f, g, Kind::Radial);
    assert(plan::links_of(f) == plan::links_of(g));
    assert(plan::params_of(config, nodes.len() as int) == plan::params_of(
        other,
        nodes.len() as int,
    ));
    assert(plan::passes_of(f) =~= plan::passes_of(g)) by {
        assert forall|k: int| 0 <= k < f.len() implies plan::pass_of(f[k].1) == plan::pass_of(
            g[k].1,
        ) by {
            assert(same_but_theta(f[k].1, g[k].1));
        }
    }
    assert(plan::is_node_buffer(b.nodes_f, f, nodes)) by {
        assert forall|i: int, slot: int|
            0 <= i < nodes.len() && 0 <= slot < NODE_SLOTS implies b.nodes_f[NODE_SLOTS * i + slot]
            == #[trigger] plan::node_slot(f, nodes[i], i, slot) by {
            assert(b.nodes_f[NODE_SLOTS * i + slot] == plan::node_slot(g, nodes[i], i, slot));
        }
    }
    assert(plan::is_link_numbers(b.links_f, f)) by {
        if let Some(ForceSpec::Link { links, distance, strength, .. }) = plan::of_kind(
            f,
            Kind::Link,
        ) {
            if let Some(ForceSpec::Link { links: l, distance: d, strength: s, .. }) = plan::of_kind(
                g,
                Kind::Link,
            ) {
                assert forall|e: int, slot: int|
                    links@.len() > 0 && 0 <= e < links@.len() && 0 <= slot < 3 implies b.links_f[3
                    * e + slot] == #[trigger] plan::link_slot(
                    links@,
                    distance,
                    strength,
                    e,
                    slot,
                ) by {
                    assert(b.links_f[3 * e + slot] == plan::link_slot(l@, d, s, e, slot));
                }
            }
        }
    }
    law_start_determined(a, b, info, nodes, config);
}

proof fn lemma_of_kind_none(forces: Seq<(String, ForceSpec)>, kind: Kind)
    requires
        forall|k: int| 0 <= k < forces.len() ==> (#[trigger] forces[k]).1.spec_kind() != kind,
    ensures
        plan::of_kind(forces, kind) is None,
    decreases forces.len(),
{
    if forces.len() > 0 {
        let before = forces.drop_last();
        assert forall|k: int| 0 <= k < before.len() implies (#[trigger] before[k]).1.spec_kind()
            != kind by {
            assert(forces[k].1.spec_kind() != kind);
        }
        lemma_of_kind_none(before, kind);
    }
}

/// An accepted configuration has at most one force of each kind.
pub proof fn law_one_force_per_kind(forces: Seq<(String, ForceSpec)>, n: int, i: int, j: int)
    requires
        plan::accepted(forces, n),
        0 <= i < j < forces.len(),
    ensures
        forces[i].1.spec_kind() != forces[j].1.spec_kind(),
{
    assert(!plan::faulty(forces, n, j));
}

/// Where a force stands among the others decides when it runs, and nothing else:
/// reordering an accepted configuration leaves every buffer and every parameter.
pub proof fn law_order_only_schedules(
    config: Config,
    other: Config,
    n: int,
    place: spec_fn(int) -> int,
    back: spec_fn(int) -> int,
)
    requires
        plan::accepted(config.forces@, n),
        plan::accepted(other.forces@, n),
        other.alpha == config.alpha,
        other.velocity_decay == config.velocity_decay,
        forall|k: int|
            0 <= k < config.forces@.len() ==> 0 <= #[trigger] place(k) < other.forces@.len()
                && other.forces@[place(k)].1 == config.forces@[k].1,
        forall|k: int|
            0 <= k < other.forces@.len() ==> 0 <= #[trigger] back(k) < config.forces@.len()
                && config.forces@[back(k)].1 == other.forces@[k].1,
    ensures
        forall|kind: Kind|
            plan::of_kind(config.forces@, kind) == #[trigger] plan::of_kind(other.forces@, kind),
        plan::links_of(config.forces@) == plan::links_of(other.forces@),
        plan::params_of(config, n) == plan::params_of(other, n),
        forall|r: Seq<Scalar>|
            plan::is_link_numbers(r, config.forces@) == #[trigger] plan::is_link_numbers(
                r,
                other.forces@,
            ),
        forall|node: NodeInit, i: int, slot: int|
            plan::node_slot(config.forces@, node, i, slot) == #[trigger] plan::node_slot(
                other.forces@,
                node,
                i,
                slot,
            ),
{
    let f = config.forces@;
    let g = other.forces@;
    assert forall|kind: Kind| plan::of_kind(f, kind) == #[trigger] plan::of_kind(g, kind) by {
        assert forall|i: int, j: int| 0 <= i < j < f.len() implies (#[trigger] f[i]).1.spec_kind()
            != (#[trigger] f[j]).1.spec_kind() by {
            law_one_force_per_kind(f, n, i, j);
        }
        assert forall|i: int, j: int| 0 <= i < j < g.len() implies (#[trigger] g[i]).1.spec_kind()
            != (#[trigger] g[j]).1.spec_kind() by {
            law_one_force_per_kind(g, n, i, j);
        }
        if exists|k: int| 0 <= k < f.len() && (#[trigger] f[k]).1.spec_kind() == kind {
            let k = choose|k: int| 0 <= k < f.len() && (#[trigger] f[k]).1.spec_kind() == kind;
            lemma_of_kind_at(f, kind, k);
            let p = place(k);
            lemma_of_kind_at(g, kind, p);
        } else {
            assert forall|k: int| 0 <= k < g.len() implies (#[trigger] g[k]).1.spec_kind()
                != kind by {
                let b = back(k);
                assert(f[b].1 == g[k].1);
            }
            lemma_of_kind_none(f, kind);
            lemma_of_kind_none(g, kind);
        }
    }
}

} // verus!
