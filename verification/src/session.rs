//! GPU simulations together with their device: whole sequences of calls, several
//! simulations on one device, and pins.
//!
//! Of a device nothing is known but that it is deterministic: `step` says what it
//! makes of each thing that it is sent, and `read` which words it hands back as
//! positions. Both may be any functions. What a law asks beyond that, it says.

use crate::adapter::AdapterInfo;
use crate::gpu::{Command, GpuState, Kernel, TickPlan};
use crate::laws;
use crate::model::{Config, NodeInit};
use crate::number::{Scalar, F32};
use crate::plan;
use crate::plan::{Params, NODE_SLOTS};
use vstd::prelude::*;

verus! {

/// One thing that a device is sent.
pub enum DeviceOp {
    /// The node buffer.
    Nodes(Seq<F32>),
    /// The write that stops a node.
    Stop(u32),
    /// The position of a node.
    Place { i: int, x: F32, y: F32 },
    /// The parameters of a tick.
    Frame(Params),
    /// A command of a tick.
    Run(Command),
}

/// A simulation and its device.
pub struct Session<D> {
    pub core: GpuState,
    pub device: D,
}

/// The device after a run of operations.
pub open spec fn after_ops<D>(step: spec_fn(D, DeviceOp) -> D, device: D, ops: Seq<DeviceOp>) -> D
    decreases ops.len(),
{
    if ops.len() == 0 {
        device
    } else {
        step(after_ops(step, device, ops.drop_last()), ops.last())
    }
}

/// What a device is sent for a run of frames with the same commands.
pub open spec fn frame_ops(frames: Seq<Params>, commands: Seq<Command>) -> Seq<DeviceOp>
    decreases frames.len(),
{
    if frames.len() == 0 {
        Seq::empty()
    } else {
        frame_ops(frames.drop_last(), commands).push(DeviceOp::Frame(frames.last())) + Seq::new(
            commands.len(),
            |k: int| DeviceOp::Run(commands[k]),
        )
    }
}

/// What a device is sent ahead of the ticks of a plan.
pub open spec fn head_ops(upload_nodes: bool, stopped: Seq<u32>, nodes_f: Seq<F32>) -> Seq<
    DeviceOp,
> {
    let nodes = if upload_nodes {
        seq![DeviceOp::Nodes(nodes_f)]
    } else {
        Seq::empty()
    };
    nodes + Seq::new(stopped.len(), |k: int| DeviceOp::Stop(stopped[k]))
}

/// What a device is sent for a plan.
pub open spec fn plan_ops(sent: TickPlan, nodes_f: Seq<F32>) -> Seq<DeviceOp> {
    head_ops(sent.upload_nodes, sent.stopped@, nodes_f) + frame_ops(sent.frames@, sent.commands@)
}

/// What a device is sent for a plan, if there is one.
pub open spec fn sent_ops(sent: Option<TickPlan>, nodes_f: Seq<F32>) -> Seq<DeviceOp> {
    match sent {
        Some(plan) => plan_ops(plan, nodes_f),
        None => Seq::empty(),
    }
}

/// Whether `sent` is a plan that [`crate::GpuSimulation::tick`] returns for `k`
/// ticks.
pub open spec fn ticked<E: Fn(Scalar) -> F32>(
    eval: E,
    state: GpuState,
    k: int,
    sent: TickPlan,
) -> bool {
    &&& sent.frames@.len() == k
    &&& sent.answers(state, sent.alphas())
    &&& state.follows(eval, sent.alphas())
}

/// Whether `k` ticks can send `plan` as `ops` and leave `after`.
pub open spec fn ticks_with<E: Fn(Scalar) -> F32>(
    eval: E,
    state: GpuState,
    k: int,
    plan: TickPlan,
    ops: Seq<DeviceOp>,
    after: GpuState,
) -> bool {
    &&& ticked(eval, state, k, plan)
    &&& ops == plan_ops(plan, state.nodes_f)
    &&& after == state.after_ticks(plan.alphas())
}

/// Whether a run can make `ticks` ticks, send `sent` as `ops` and leave `after`.
pub open spec fn runs_with<E: Fn(Scalar) -> F32>(
    eval: E,
    state: GpuState,
    max_ticks: int,
    ticks: int,
    sent: Option<TickPlan>,
    ops: Seq<DeviceOp>,
    after: GpuState,
) -> bool {
    &&& state.runs(eval, max_ticks, ticks, sent, after)
    &&& ops == sent_ops(sent, state.nodes_f)
}

/// Whether `k` ticks can send `ops` and leave `after`.
pub open spec fn can_tick<E: Fn(Scalar) -> F32>(
    eval: E,
    state: GpuState,
    k: int,
    ops: Seq<DeviceOp>,
    after: GpuState,
) -> bool {
    exists|plan: TickPlan| #[trigger] ticks_with(eval, state, k, plan, ops, after)
}

/// Whether a run of at most `max_ticks` ticks can send `ops` and leave `after`.
pub open spec fn can_run<E: Fn(Scalar) -> F32>(
    eval: E,
    state: GpuState,
    max_ticks: int,
    ops: Seq<DeviceOp>,
    after: GpuState,
) -> bool {
    exists|ticks: int, sent: Option<TickPlan>| #[trigger]
        runs_with(eval, state, max_ticks, ticks, sent, ops, after)
}

/// A call of a simulation.
pub enum Call {
    SetAlpha(F32),
    SetAlphaMin(F32),
    SetAlphaDecay(F32),
    SetAlphaTarget(F32),
    SetVelocityDecay(F32),
    SetFixed { i: int, fx: F32, fy: F32 },
    SetPosition { i: int, x: F32, y: F32 },
    Tick(int),
    Run(int),
    Positions,
}

impl GpuState {
    /// The state after the positions were read back, if they were stale. `words` is
    /// what the device would hand back.
    pub open spec fn refreshed(self, words: Seq<u32>) -> GpuState {
        if self.positions_dirty {
            self.with_read_back(words)
        } else {
            self
        }
    }

    /// Whether a call can lead from this state to `after` and send `ops`, by the
    /// contracts of [`crate::GpuSimulation`]. `words` is what the device would hand
    /// back as positions.
    pub open spec fn acts<E: Fn(Scalar) -> F32>(
        self,
        eval: E,
        words: Seq<u32>,
        call: Call,
        ops: Seq<DeviceOp>,
        after: GpuState,
    ) -> bool {
        match call {
            Call::SetAlpha(v) => {
                &&& ops == Seq::<DeviceOp>::empty()
                &&& after == (GpuState { params: Params { alpha: v, ..self.params }, ..self })
            },
            Call::SetAlphaMin(v) => {
                &&& ops == Seq::<DeviceOp>::empty()
                &&& after == (GpuState { alpha_min: v, ..self })
            },
            Call::SetAlphaDecay(v) => {
                &&& ops == Seq::<DeviceOp>::empty()
                &&& after == (GpuState { alpha_decay: v, ..self })
            },
            Call::SetAlphaTarget(v) => {
                &&& ops == Seq::<DeviceOp>::empty()
                &&& after == (GpuState { alpha_target: v, ..self })
            },
            Call::SetVelocityDecay(v) => {
                &&& ops == Seq::<DeviceOp>::empty()
                &&& after == (GpuState {
                    params: Params { velocity_decay: Scalar::OneMinus(v), ..self.params },
                    ..self
                })
            },
            Call::SetFixed { i, fx, fy } => {
                &&& ops == Seq::<DeviceOp>::empty()
                &&& after == self.with_fixed(i, fx, fy)
            },
            Call::SetPosition { i, x, y } => {
                &&& ops == seq![DeviceOp::Place { i, x, y }]
                &&& after == self.refreshed(words).with_position(i, x, y)
            },
            Call::Tick(k) => if self.n == 0 {
                ops == Seq::<DeviceOp>::empty() && after == self
            } else {
                can_tick(eval, self, k, ops, after)
            },
            Call::Run(max_ticks) => can_run(eval, self, max_ticks, ops, after),
            Call::Positions => {
                &&& ops == Seq::<DeviceOp>::empty()
                &&& after == self.refreshed(words)
            },
        }
    }
}

impl<D> Session<D> {
    /// The session after the positions were read back, if they were stale.
    pub open spec fn refreshed(self, read: spec_fn(D) -> Seq<u32>) -> Session<D> {
        Session { core: self.core.refreshed(read(self.device)), ..self }
    }

    /// The session after a plan was sent that leaves the simulation in state `core`.
    pub open spec fn sent(
        self,
        step: spec_fn(D, DeviceOp) -> D,
        plan: TickPlan,
        core: GpuState,
    ) -> Session<D> {
        Session {
            core,
            device: after_ops(step, self.device, plan_ops(plan, self.core.nodes_f)),
        }
    }

    /// Whether a call can lead from this session to `after`.
    pub open spec fn leads<E: Fn(Scalar) -> F32>(
        self,
        eval: E,
        step: spec_fn(D, DeviceOp) -> D,
        read: spec_fn(D) -> Seq<u32>,
        call: Call,
        after: Session<D>,
    ) -> bool {
        exists|ops: Seq<DeviceOp>| #[trigger]
            self.core.acts(eval, read(self.device), call, ops, after.core) && after.device
                == after_ops(step, self.device, ops)
    }
}

/// What [`crate::GpuSimulation::tick`] ensures is what a call of it is here: a plan
/// that it may return leads to the session after that plan was sent.
pub proof fn law_tick_leads<E: Fn(Scalar) -> F32, D>(
    eval: E,
    step: spec_fn(D, DeviceOp) -> D,
    read: spec_fn(D) -> Seq<u32>,
    before: Session<D>,
    k: int,
    plan: TickPlan,
)
    requires
        before.core.n != 0,
        ticked(eval, before.core, k, plan),
    ensures
        before.leads(
            eval,
            step,
            read,
            Call::Tick(k),
            before.sent(step, plan, before.core.after_ticks(plan.alphas())),
        ),
{
    let after = before.core.after_ticks(plan.alphas());
    let ops = plan_ops(plan, before.core.nodes_f);
    assert(ticks_with(eval, before.core, k, plan, ops, after));
    assert(can_tick(eval, before.core, k, ops, after));
    assert(before.core.acts(eval, read(before.device), Call::Tick(k), ops, after));
}

/// What [`crate::GpuSimulation::run`] ensures is what a call of it is here: what it
/// may return leads to the session after that was sent.
pub proof fn law_run_leads<E: Fn(Scalar) -> F32, D>(
    eval: E,
    step: spec_fn(D, DeviceOp) -> D,
    read: spec_fn(D) -> Seq<u32>,
    before: Session<D>,
    max_ticks: int,
    ticks: int,
    sent: Option<TickPlan>,
    after: GpuState,
)
    requires
        before.core.runs(eval, max_ticks, ticks, sent, after),
    ensures
        before.leads(
            eval,
            step,
            read,
            Call::Run(max_ticks),
            match sent {
                Some(plan) => before.sent(step, plan, after),
                None => before,
            },
        ),
{
    let ops = sent_ops(sent, before.core.nodes_f);
    assert(runs_with(eval, before.core, max_ticks, ticks, sent, ops, after));
    assert(can_run(eval, before.core, max_ticks, ops, after));
    assert(before.core.acts(eval, read(before.device), Call::Run(max_ticks), ops, after));
    if sent is None {
        assert(after == before.core);
    }
}

/// What the other calls ensure is what they are here. Without nodes a tick does
/// nothing; a setter sends nothing; a node that is moved goes to the device.
pub proof fn law_setters_lead<E: Fn(Scalar) -> F32, D>(
    eval: E,
    step: spec_fn(D, DeviceOp) -> D,
    read: spec_fn(D) -> Seq<u32>,
    before: Session<D>,
    v: F32,
    i: int,
    x: F32,
    y: F32,
    k: int,
)
    ensures
        before.core.n == 0 ==> before.leads(eval, step, read, Call::Tick(k), before),
        before.leads(
            eval,
            step,
            read,
            Call::SetAlpha(v),
            Session {
                core: GpuState {
                    params: Params { alpha: v, ..before.core.params },
                    ..before.core
                },
                ..before
            },
        ),
        before.leads(
            eval,
            step,
            read,
            Call::SetAlphaMin(v),
            Session { core: GpuState { alpha_min: v, ..before.core }, ..before },
        ),
        before.leads(
            eval,
            step,
            read,
            Call::SetAlphaDecay(v),
            Session { core: GpuState { alpha_decay: v, ..before.core }, ..before },
        ),
        before.leads(
            eval,
            step,
            read,
            Call::SetAlphaTarget(v),
            Session { core: GpuState { alpha_target: v, ..before.core }, ..before },
        ),
        before.leads(
            eval,
            step,
            read,
            Call::SetVelocityDecay(v),
            Session {
                core: GpuState {
                    params: Params {
                        velocity_decay: Scalar::OneMinus(v),
                        ..before.core.params
                    },
                    ..before.core
                },
                ..before
            },
        ),
        before.leads(
            eval,
            step,
            read,
            Call::SetFixed { i, fx: x, fy: y },
            Session { core: before.core.with_fixed(i, x, y), ..before },
        ),
        before.leads(
            eval,
            step,
            read,
            Call::SetPosition { i, x, y },
            Session {
                core: before.refreshed(read).core.with_position(i, x, y),
                device: step(before.device, DeviceOp::Place { i, x, y }),
            },
        ),
        before.leads(eval, step, read, Call::Positions, before.refreshed(read)),
{
    let core = before.core;
    let words = read(before.device);
    let none = Seq::<DeviceOp>::empty();
    assert(core.n == 0 ==> core.acts(eval, words, Call::Tick(k), none, core));
    assert(core.acts(
        eval,
        words,
        Call::SetAlpha(v),
        none,
        GpuState { params: Params { alpha: v, ..core.params }, ..core },
    ));
    assert(core.acts(
        eval,
        words,
        Call::SetAlphaMin(v),
        none,
        GpuState { alpha_min: v, ..core },
    ));
    assert(core.acts(
        eval,
        words,
        Call::SetAlphaDecay(v),
        none,
        GpuState { alpha_decay: v, ..core },
    ));
    assert(core.acts(
        eval,
        words,
        Call::SetAlphaTarget(v),
        none,
        GpuState { alpha_target: v, ..core },
    ));
    assert(core.acts(
        eval,
        words,
        Call::SetVelocityDecay(v),
        none,
        GpuState {
            params: Params { velocity_decay: Scalar::OneMinus(v), ..core.params },
            ..core
        },
    ));
    assert(core.acts(
        eval,
        words,
        Call::SetFixed { i, fx: x, fy: y },
        none,
        core.with_fixed(i, x, y),
    ));
    let place = seq![DeviceOp::Place { i, x, y }];
    assert(core.acts(
        eval,
        words,
        Call::SetPosition { i, x, y },
        place,
        core.refreshed(words).with_position(i, x, y),
    ));
    assert(place.drop_last() =~= none);
    assert(after_ops(step, before.device, place) == step(
        after_ops(step, before.device, none),
        place.last(),
    ));
    assert(core.acts(eval, words, Call::Positions, none, core.refreshed(words)));
}

/// A run is its ticks: where a run makes ticks, ticking that many times can send the
/// same and leave the same.
pub proof fn law_run_is_ticks<E: Fn(Scalar) -> F32>(
    eval: E,
    words: Seq<u32>,
    state: GpuState,
    max_ticks: int,
    ticks: int,
    sent: Option<TickPlan>,
    after: GpuState,
)
    requires
        state.runs(eval, max_ticks, ticks, sent, after),
        sent is Some,
    ensures
        state.acts(eval, words, Call::Tick(ticks), plan_ops(sent->0, state.nodes_f), after),
{
    let ops = plan_ops(sent->0, state.nodes_f);
    assert(ticks_with(eval, state, ticks, sent->0, ops, after));
    assert(can_tick(eval, state, ticks, ops, after));
}

/// Whether a run of calls can lead through the given sessions, one for each call and
/// the one to begin with.
pub open spec fn history<E: Fn(Scalar) -> F32, D>(
    eval: E,
    step: spec_fn(D, DeviceOp) -> D,
    read: spec_fn(D) -> Seq<u32>,
    calls: Seq<Call>,
    sessions: Seq<Session<D>>,
) -> bool {
    &&& sessions.len() == calls.len() + 1
    &&& forall|k: int|
        0 <= k < calls.len() ==> (#[trigger] sessions[k]).leads(
            eval,
            step,
            read,
            calls[k],
            sessions[k + 1],
        )
}

proof fn lemma_ops_concat<D>(
    step: spec_fn(D, DeviceOp) -> D,
    device: D,
    first: Seq<DeviceOp>,
    rest: Seq<DeviceOp>,
)
    ensures
        after_ops(step, device, first + rest) == after_ops(
            step,
            after_ops(step, device, first),
            rest,
        ),
    decreases rest.len(),
{
    if rest.len() == 0 {
        assert(first + rest =~= first);
    } else {
        lemma_ops_concat(step, device, first, rest.drop_last());
        assert((first + rest).drop_last() =~= first + rest.drop_last());
        assert((first + rest).last() == rest.last());
    }
}

proof fn lemma_frames_concat(first: Seq<Params>, rest: Seq<Params>, commands: Seq<Command>)
    ensures
        frame_ops(first + rest, commands) == frame_ops(first, commands) + frame_ops(rest, commands),
    decreases rest.len(),
{
    if rest.len() == 0 {
        assert(first + rest =~= first);
        assert(frame_ops(first, commands) + frame_ops(rest, commands) =~= frame_ops(
            first,
            commands,
        ));
    } else {
        lemma_frames_concat(first, rest.drop_last(), commands);
        assert((first + rest).drop_last() =~= first + rest.drop_last());
        assert((first + rest).last() == rest.last());
        assert(frame_ops(first + rest, commands) =~= frame_ops(first, commands) + frame_ops(
            rest,
            commands,
        ));
    }
}

proof fn lemma_ticked_determined<E: Fn(Scalar) -> F32>(
    eval: E,
    state: GpuState,
    k: int,
    a: TickPlan,
    b: TickPlan,
)
    requires
        laws::deterministic(eval),
        ticked(eval, state, k, a),
        ticked(eval, state, k, b),
    ensures
        a.alphas() == b.alphas(),
        forall|nodes_f: Seq<F32>| #[trigger] plan_ops(a, nodes_f) == plan_ops(b, nodes_f),
{
    laws::law_schedule_determined(state, eval, a.alphas(), b.alphas());
    assert(a.alphas() =~= b.alphas());
    laws::law_plan_determined(state, a.alphas(), a, b);
}

/// What a call sent that led from one session to another.
proof fn lemma_ops_of<E: Fn(Scalar) -> F32, D>(
    eval: E,
    step: spec_fn(D, DeviceOp) -> D,
    read: spec_fn(D) -> Seq<u32>,
    call: Call,
    before: Session<D>,
    after: Session<D>,
) -> (ops: Seq<DeviceOp>)
    requires
        before.leads(eval, step, read, call, after),
    ensures
        before.core.acts(eval, read(before.device), call, ops, after.core),
        after.device == after_ops(step, before.device, ops),
{
    choose|ops: Seq<DeviceOp>| #[trigger]
        before.core.acts(eval, read(before.device), call, ops, after.core) && after.device
            == after_ops(step, before.device, ops)
}

/// On a deterministic host, a call sends one thing and leaves one state.
pub proof fn law_acts_determined<E: Fn(Scalar) -> F32>(
    eval: E,
    words: Seq<u32>,
    call: Call,
    state: GpuState,
    ops: Seq<DeviceOp>,
    after: GpuState,
    other_ops: Seq<DeviceOp>,
    other_after: GpuState,
)
    requires
        laws::deterministic(eval),
        state.acts(eval, words, call, ops, after),
        state.acts(eval, words, call, other_ops, other_after),
    ensures
        ops == other_ops,
        after == other_after,
{
    match call {
        Call::Tick(k) => {
            if state.n != 0 {
                let p = choose|plan: TickPlan| #[trigger]
                    ticks_with(eval, state, k, plan, ops, after);
                let q = choose|plan: TickPlan| #[trigger]
                    ticks_with(eval, state, k, plan, other_ops, other_after);
                lemma_ticked_determined(eval, state, k, p, q);
                assert(plan_ops(p, state.nodes_f) == plan_ops(q, state.nodes_f));
            }
        },
        Call::Run(max_ticks) => {
            let (t, p) = choose|ticks: int, sent: Option<TickPlan>| #[trigger]
                runs_with(eval, state, max_ticks, ticks, sent, ops, after);
            let (u, q) = choose|ticks: int, sent: Option<TickPlan>| #[trigger]
                runs_with(eval, state, max_ticks, ticks, sent, other_ops, other_after);
            laws::law_run_determined(state, eval, max_ticks, t, p, after, u, q, other_after);
        },
        _ => {},
    }
}

/// On a deterministic host and device, a call has one outcome.
pub proof fn law_call_determined<E: Fn(Scalar) -> F32, D>(
    eval: E,
    step: spec_fn(D, DeviceOp) -> D,
    read: spec_fn(D) -> Seq<u32>,
    call: Call,
    before: Session<D>,
    a: Session<D>,
    b: Session<D>,
)
    requires
        laws::deterministic(eval),
        before.leads(eval, step, read, call, a),
        before.leads(eval, step, read, call, b),
    ensures
        a == b,
{
    let words = read(before.device);
    let p = lemma_ops_of(eval, step, read, call, before, a);
    let q = lemma_ops_of(eval, step, read, call, before, b);
    law_acts_determined(eval, words, call, before.core, p, a.core, q, b.core);
}

/// The same calls in the same order, from the same start, lead to the same: on a
/// deterministic host and device, two histories agree throughout, positions
/// included.
pub proof fn law_same_calls_same_outcome<E: Fn(Scalar) -> F32, D>(
    eval: E,
    step: spec_fn(D, DeviceOp) -> D,
    read: spec_fn(D) -> Seq<u32>,
    calls: Seq<Call>,
    a: Seq<Session<D>>,
    b: Seq<Session<D>>,
    k: int,
)
    requires
        laws::deterministic(eval),
        history(eval, step, read, calls, a),
        history(eval, step, read, calls, b),
        a[0] == b[0],
        0 <= k <= calls.len(),
    ensures
        a[k] == b[k],
    decreases k,
{
    if k > 0 {
        law_same_calls_same_outcome(eval, step, read, calls, a, b, k - 1);
        assert(a[k - 1].leads(eval, step, read, calls[k - 1], a[k - 1 + 1]));
        assert(b[k - 1].leads(eval, step, read, calls[k - 1], b[k - 1 + 1]));
        law_call_determined(eval, step, read, calls[k - 1], a[k - 1], a[k], b[k]);
    }
}

/// Two simulations that are built alike on one GPU and get the same calls have the
/// same positions, bit for bit. Alike are configurations that differ at most in
/// `theta` and in the names of forces: the GPU looks at neither. `fresh` is the
/// device that a simulation starts with.
pub proof fn law_built_alike_runs_alike<E: Fn(Scalar) -> F32, D>(
    eval: E,
    step: spec_fn(D, DeviceOp) -> D,
    read: spec_fn(D) -> Seq<u32>,
    fresh: spec_fn(GpuState) -> D,
    info: AdapterInfo,
    nodes: Seq<NodeInit>,
    config: Config,
    other: Config,
    calls: Seq<Call>,
    a: Seq<Session<D>>,
    b: Seq<Session<D>>,
    k: int,
)
    requires
        laws::deterministic(eval),
        plan::accepted(config.forces@, nodes.len() as int),
        laws::alike(config, other),
        a[0].core.starts(info, nodes, config),
        b[0].core.starts(info, nodes, other),
        a[0].device == fresh(a[0].core),
        b[0].device == fresh(b[0].core),
        history(eval, step, read, calls, a),
        history(eval, step, read, calls, b),
        0 <= k <= calls.len(),
    ensures
        a[k] == b[k],
        a[k].refreshed(read).core.positions == b[k].refreshed(read).core.positions,
{
    laws::law_theta_ignored(a[0].core, b[0].core, info, nodes, config, other);
    law_same_calls_same_outcome(eval, step, read, calls, a, b, k);
}

proof fn lemma_follows_concat<E: Fn(Scalar) -> F32>(
    eval: E,
    state: GpuState,
    first: Seq<F32>,
    rest: Seq<F32>,
)
    requires
        state.follows(eval, first),
        state.after_ticks(first).follows(eval, rest),
    ensures
        state.follows(eval, first + rest),
{
    let all = first + rest;
    let middle = state.after_ticks(first);
    assert forall|k: int| 0 <= k < all.len() implies call_ensures(
        eval,
        (
            Scalar::Approach {
                from: #[trigger] state.alpha_before(all, k),
                to: state.alpha_target,
                rate: state.alpha_decay,
            },
        ),
        all[k],
    ) by {
        if k < first.len() {
            assert(state.alpha_before(all, k) == state.alpha_before(first, k));
        } else {
            let j = k - first.len();
            assert(state.alpha_before(all, k) == middle.alpha_before(rest, j));
        }
    }
}

/// Ticking twice is ticking once for both: on a deterministic host and device, `k`
/// ticks and then `l` more lead to the same as `k + l` ticks at once, alpha and
/// positions included.
pub proof fn law_ticks_join<E: Fn(Scalar) -> F32, D>(
    eval: E,
    step: spec_fn(D, DeviceOp) -> D,
    read: spec_fn(D) -> Seq<u32>,
    k: int,
    l: int,
    before: Session<D>,
    middle: Session<D>,
    parts: Session<D>,
    whole: Session<D>,
)
    requires
        laws::deterministic(eval),
        before.leads(eval, step, read, Call::Tick(k), middle),
        middle.leads(eval, step, read, Call::Tick(l), parts),
        before.leads(eval, step, read, Call::Tick(k + l), whole),
    ensures
        parts == whole,
        parts.core.params.alpha == whole.core.params.alpha,
        parts.refreshed(read).core.positions == whole.refreshed(read).core.positions,
{
    let core = before.core;
    let first_ops = lemma_ops_of(eval, step, read, Call::Tick(k), before, middle);
    let rest_ops = lemma_ops_of(eval, step, read, Call::Tick(l), middle, parts);
    let whole_ops = lemma_ops_of(eval, step, read, Call::Tick(k + l), before, whole);
    if core.n != 0 {
        let p = choose|plan: TickPlan| #[trigger]
            ticks_with(eval, core, k, plan, first_ops, middle.core);
        let q = choose|plan: TickPlan| #[trigger]
            ticks_with(eval, middle.core, l, plan, rest_ops, parts.core);
        let w = choose|plan: TickPlan| #[trigger]
            ticks_with(eval, core, k + l, plan, whole_ops, whole.core);
        let first = p.alphas();
        let rest = q.alphas();
        let all = first + rest;
        lemma_follows_concat(eval, core, first, rest);
        laws::law_schedule_determined(core, eval, all, w.alphas());
        assert(all =~= w.alphas());
        laws::law_ticks_add_up(core, first, rest);
        assert(p.frames@ + q.frames@ =~= w.frames@) by {
            assert forall|j: int| 0 <= j < w.frames@.len() implies (p.frames@ + q.frames@)[j]
                == w.frames@[j] by {
                if j < first.len() {
                    assert(p.frames@[j] == core.frame(first, j));
                    assert(w.frames@[j] == core.frame(w.alphas(), j));
                    assert(first[j] == w.alphas()[j]);
                } else {
                    laws::law_frames_add_up(core, first, rest, j - first.len());
                }
            }
        }
        let cs = p.commands@;
        lemma_frames_concat(p.frames@, q.frames@, cs);
        assert(plan_ops(q, middle.core.nodes_f) =~= frame_ops(q.frames@, cs));
        assert(plan_ops(w, core.nodes_f) =~= plan_ops(p, core.nodes_f) + plan_ops(
            q,
            middle.core.nodes_f,
        ));
        lemma_ops_concat(
            step,
            before.device,
            plan_ops(p, core.nodes_f),
            plan_ops(q, middle.core.nodes_f),
        );
    }
}

// ---- several simulations on one device ----------------------------------

/// Several simulations, by number, and the device that they share.
pub struct Shared<S> {
    pub cores: Map<int, GpuState>,
    pub device: S,
}

/// Whether a device keeps the buffers of each simulation apart: `buffers` are those
/// of one simulation, and what is sent for a simulation goes to its own buffers.
pub open spec fn separate<S, D>(
    shared_step: spec_fn(S, int, DeviceOp) -> S,
    buffers: spec_fn(S, int) -> D,
    step: spec_fn(D, DeviceOp) -> D,
) -> bool {
    forall|device: S, id: int, op: DeviceOp, j: int| #[trigger]
        buffers(shared_step(device, id, op), j) == if j == id {
            step(buffers(device, id), op)
        } else {
            buffers(device, j)
        }
}

/// The device after a run of operations for simulation `id`.
pub open spec fn after_shared_ops<S>(
    shared_step: spec_fn(S, int, DeviceOp) -> S,
    device: S,
    id: int,
    ops: Seq<DeviceOp>,
) -> S
    decreases ops.len(),
{
    if ops.len() == 0 {
        device
    } else {
        shared_step(
            after_shared_ops(shared_step, device, id, ops.drop_last()),
            id,
            ops.last(),
        )
    }
}

impl<S> Shared<S> {
    /// A simulation with its own buffers.
    pub open spec fn session<D>(self, buffers: spec_fn(S, int) -> D, id: int) -> Session<D> {
        Session { core: self.cores[id], device: buffers(self.device, id) }
    }

    /// Whether a call of simulation `id` can lead to `after`.
    pub open spec fn leads<E: Fn(Scalar) -> F32, D>(
        self,
        eval: E,
        shared_step: spec_fn(S, int, DeviceOp) -> S,
        buffers: spec_fn(S, int) -> D,
        read: spec_fn(D) -> Seq<u32>,
        id: int,
        call: Call,
        after: Shared<S>,
    ) -> bool {
        exists|ops: Seq<DeviceOp>|
            {
                &&& #[trigger] self.cores[id].acts(
                    eval,
                    read(buffers(self.device, id)),
                    call,
                    ops,
                    after.cores[id],
                )
                &&& after.cores == self.cores.insert(id, after.cores[id])
                &&& after.device == after_shared_ops(shared_step, self.device, id, ops)
            }
    }
}

proof fn lemma_shared_ops<S, D>(
    shared_step: spec_fn(S, int, DeviceOp) -> S,
    buffers: spec_fn(S, int) -> D,
    step: spec_fn(D, DeviceOp) -> D,
    device: S,
    id: int,
    ops: Seq<DeviceOp>,
    j: int,
)
    requires
        separate(shared_step, buffers, step),
    ensures
        buffers(after_shared_ops(shared_step, device, id, ops), j) == if j == id {
            after_ops(step, buffers(device, id), ops)
        } else {
            buffers(device, j)
        },
    decreases ops.len(),
{
    if ops.len() > 0 {
        lemma_shared_ops(shared_step, buffers, step, device, id, ops.drop_last(), j);
        let before = after_shared_ops(shared_step, device, id, ops.drop_last());
        assert(buffers(shared_step(before, id, ops.last()), j) == if j == id {
            step(buffers(before, id), ops.last())
        } else {
            buffers(before, j)
        });
    }
}

/// A call of one simulation is a call of that simulation alone, and leaves every other
/// simulation on the device as it was: its state, and what the device holds for it.
pub proof fn law_call_leaves_others<E: Fn(Scalar) -> F32, S, D>(
    eval: E,
    shared_step: spec_fn(S, int, DeviceOp) -> S,
    buffers: spec_fn(S, int) -> D,
    step: spec_fn(D, DeviceOp) -> D,
    read: spec_fn(D) -> Seq<u32>,
    id: int,
    call: Call,
    before: Shared<S>,
    after: Shared<S>,
    other: int,
)
    requires
        separate(shared_step, buffers, step),
        before.leads(eval, shared_step, buffers, read, id, call, after),
        other != id,
    ensures
        before.session(buffers, id).leads(eval, step, read, call, after.session(buffers, id)),
        after.session(buffers, other) == before.session(buffers, other),
        after.session(buffers, other).refreshed(read).core.positions == before.session(
            buffers,
            other,
        ).refreshed(read).core.positions,
        after.cores[other].params.alpha == before.cores[other].params.alpha,
{
    let ops = choose|ops: Seq<DeviceOp>|
        {
            &&& #[trigger] before.cores[id].acts(
                eval,
                read(buffers(before.device, id)),
                call,
                ops,
                after.cores[id],
            )
            &&& after.cores == before.cores.insert(id, after.cores[id])
            &&& after.device == after_shared_ops(shared_step, before.device, id, ops)
        };
    lemma_shared_ops(shared_step, buffers, step, before.device, id, ops, id);
    lemma_shared_ops(shared_step, buffers, step, before.device, id, ops, other);
    let own = before.session(buffers, id);
    assert(own.core.acts(eval, read(own.device), call, ops, after.session(buffers, id).core));
}

/// Whether a run of calls, each with the number of its simulation, can lead through
/// the given states of a shared device.
pub open spec fn shared_history<E: Fn(Scalar) -> F32, S, D>(
    eval: E,
    shared_step: spec_fn(S, int, DeviceOp) -> S,
    buffers: spec_fn(S, int) -> D,
    read: spec_fn(D) -> Seq<u32>,
    calls: Seq<(int, Call)>,
    states: Seq<Shared<S>>,
) -> bool {
    &&& states.len() == calls.len() + 1
    &&& forall|k: int|
        0 <= k < calls.len() ==> (#[trigger] states[k]).leads(
            eval,
            shared_step,
            buffers,
            read,
            calls[k].0,
            calls[k].1,
            states[k + 1],
        )
}

/// The calls of one simulation among those of several.
pub open spec fn own_calls(calls: Seq<(int, Call)>, id: int) -> Seq<Call>
    decreases calls.len(),
{
    if calls.len() == 0 {
        Seq::empty()
    } else if calls.last().0 == id {
        own_calls(calls.drop_last(), id).push(calls.last().1)
    } else {
        own_calls(calls.drop_last(), id)
    }
}

proof fn lemma_history_prefix<E: Fn(Scalar) -> F32, D>(
    eval: E,
    step: spec_fn(D, DeviceOp) -> D,
    read: spec_fn(D) -> Seq<u32>,
    calls: Seq<Call>,
    call: Call,
    sessions: Seq<Session<D>>,
)
    requires
        history(eval, step, read, calls.push(call), sessions),
    ensures
        history(eval, step, read, calls, sessions.drop_last()),
        sessions.drop_last().last().leads(eval, step, read, call, sessions.last()),
{
    let all = calls.push(call);
    let prefix = sessions.drop_last();
    assert forall|k: int| 0 <= k < calls.len() implies (#[trigger] prefix[k]).leads(
        eval,
        step,
        read,
        calls[k],
        prefix[k + 1],
    ) by {
        assert(sessions[k].leads(eval, step, read, all[k], sessions[k + 1]));
    }
    let last = calls.len() as int;
    assert(sessions[last].leads(eval, step, read, all[last], sessions[last + 1]));
}

/// Simulations that share a device do not disturb each other: on a deterministic host,
/// a simulation ends up exactly as if it had been alone on the device with its own
/// calls, positions and alpha included, whatever is called on the others in between.
pub proof fn law_shared_device<E: Fn(Scalar) -> F32, S, D>(
    eval: E,
    shared_step: spec_fn(S, int, DeviceOp) -> S,
    buffers: spec_fn(S, int) -> D,
    step: spec_fn(D, DeviceOp) -> D,
    read: spec_fn(D) -> Seq<u32>,
    calls: Seq<(int, Call)>,
    states: Seq<Shared<S>>,
    id: int,
    alone: Seq<Session<D>>,
)
    requires
        laws::deterministic(eval),
        separate(shared_step, buffers, step),
        shared_history(eval, shared_step, buffers, read, calls, states),
        history(eval, step, read, own_calls(calls, id), alone),
        alone[0] == states[0].session(buffers, id),
    ensures
        states.last().session(buffers, id) == alone.last(),
    decreases calls.len(),
{
    if calls.len() > 0 {
        let before = calls.drop_last();
        let prefix = states.drop_last();
        let last = calls.len() - 1;
        assert forall|k: int| 0 <= k < before.len() implies (#[trigger] prefix[k]).leads(
            eval,
            shared_step,
            buffers,
            read,
            before[k].0,
            before[k].1,
            prefix[k + 1],
        ) by {
            assert(states[k].leads(
                eval,
                shared_step,
                buffers,
                read,
                calls[k].0,
                calls[k].1,
                states[k + 1],
            ));
        }
        let (caller, call) = calls[last];
        assert(states[last].leads(eval, shared_step, buffers, read, caller, call, states[last + 1]));
        assert(prefix.last() == states[last]);
        if caller == id {
            lemma_history_prefix(eval, step, read, own_calls(before, id), call, alone);
            law_shared_device(
                eval,
                shared_step,
                buffers,
                step,
                read,
                before,
                prefix,
                id,
                alone.drop_last(),
            );
            law_call_leaves_others(
                eval,
                shared_step,
                buffers,
                step,
                read,
                id,
                call,
                states[last],
                states[last + 1],
                id + 1,
            );
            law_call_determined(
                eval,
                step,
                read,
                call,
                states[last].session(buffers, id),
                states[last + 1].session(buffers, id),
                alone.last(),
            );
        } else {
            law_shared_device(
                eval,
                shared_step,
                buffers,
                step,
                read,
                before,
                prefix,
                id,
                alone,
            );
            law_call_leaves_others(
                eval,
                shared_step,
                buffers,
                step,
                read,
                caller,
                call,
                states[last],
                states[last + 1],
                id,
            );
        }
    }
}

// ---- pins ---------------------------------------------------------------

/// Whether a device honours pins. `nodes` is the node buffer that it holds: it keeps
/// the last one that it was sent. After an integration, each coordinate of a node
/// that the buffer marks as fixed is where the buffer says.
pub open spec fn honours_pins<D>(
    step: spec_fn(D, DeviceOp) -> D,
    read: spec_fn(D) -> Seq<u32>,
    nodes: spec_fn(D) -> Seq<F32>,
) -> bool {
    &&& forall|device: D, op: DeviceOp| #[trigger]
        nodes(step(device, op)) == match op {
            DeviceOp::Nodes(nodes_f) => nodes_f,
            _ => nodes(device),
        }
    &&& forall|device: D, groups: u32, i: int|
        0 <= i && NODE_SLOTS * i + 12 <= nodes(device).len() ==> #[trigger] holds_pins(
            read(
                step(
                    device,
                    DeviceOp::Run(Command::Dispatch { kernel: Kernel::Integrate, groups }),
                ),
            ),
            nodes(device),
            i,
        )
}

/// Whether each coordinate of node `i` that the node buffer marks as fixed is, among
/// positions given as words, where the buffer says.
pub open spec fn holds_pins(words: Seq<u32>, nodes_f: Seq<F32>, i: int) -> bool {
    &&& nodes_f[NODE_SLOTS * i + 10] == F32::one() ==> words[2 * i] == nodes_f[NODE_SLOTS * i
        + 8].bits
    &&& nodes_f[NODE_SLOTS * i + 11] == F32::one() ==> words[2 * i + 1] == nodes_f[NODE_SLOTS * i
        + 9].bits
}

impl<D> Session<D> {
    /// Whether the device has the node buffer of the simulation, or will be sent it
    /// before the next tick.
    pub open spec fn in_sync(self, nodes: spec_fn(D) -> Seq<F32>) -> bool {
        self.core.nodes_dirty || nodes(self.device) == self.core.nodes_f
    }

    /// Whether the simulation has node `i` fixed at `(fx, fy)`, where a NaN leaves an
    /// axis free.
    pub open spec fn pinned(self, i: int, fx: F32, fy: F32) -> bool {
        forall|slot: int|
            8 <= slot < 12 ==> self.core.nodes_f[NODE_SLOTS * i + slot]
                == #[trigger] plan::pin_slot(fx, fy, slot)
    }
}

/// Whether none of the operations sends a node buffer.
pub open spec fn no_nodes(ops: Seq<DeviceOp>) -> bool {
    forall|k: int| 0 <= k < ops.len() ==> (#[trigger] ops[k]) !is Nodes
}

proof fn lemma_nodes_kept<D>(
    step: spec_fn(D, DeviceOp) -> D,
    read: spec_fn(D) -> Seq<u32>,
    nodes: spec_fn(D) -> Seq<F32>,
    device: D,
    ops: Seq<DeviceOp>,
)
    requires
        honours_pins(step, read, nodes),
        no_nodes(ops),
    ensures
        nodes(after_ops(step, device, ops)) == nodes(device),
    decreases ops.len(),
{
    if ops.len() > 0 {
        let before = ops.drop_last();
        assert forall|k: int| 0 <= k < before.len() implies (#[trigger] before[k]) !is Nodes by {
            assert(ops[k] !is Nodes);
        }
        lemma_nodes_kept(step, read, nodes, device, before);
        let last = ops[ops.len() - 1];
        assert(last !is Nodes);
        let d = after_ops(step, device, before);
        assert(nodes(step(d, last)) == nodes(d));
    }
}

proof fn lemma_frames_send_no_nodes(frames: Seq<Params>, commands: Seq<Command>)
    ensures
        no_nodes(frame_ops(frames, commands)),
    decreases frames.len(),
{
    if frames.len() > 0 {
        lemma_frames_send_no_nodes(frames.drop_last(), commands);
        let head = frame_ops(frames.drop_last(), commands);
        let all = frame_ops(frames, commands);
        assert forall|k: int| 0 <= k < all.len() implies (#[trigger] all[k]) !is Nodes by {
            if k < head.len() {
                assert(all[k] == head[k]);
            }
        }
    }
}

/// The node buffer of the device once a plan has been sent, or all of it but its last
/// operations.
proof fn lemma_nodes_after_plan<D>(
    step: spec_fn(D, DeviceOp) -> D,
    read: spec_fn(D) -> Seq<u32>,
    nodes: spec_fn(D) -> Seq<F32>,
    device: D,
    upload_nodes: bool,
    stopped: Seq<u32>,
    nodes_f: Seq<F32>,
    rest: Seq<DeviceOp>,
)
    requires
        honours_pins(step, read, nodes),
        no_nodes(rest),
        upload_nodes || nodes(device) == nodes_f,
    ensures
        nodes(after_ops(step, device, head_ops(upload_nodes, stopped, nodes_f) + rest)) == nodes_f,
{
    let stops = Seq::new(stopped.len(), |k: int| DeviceOp::Stop(stopped[k]));
    let tail = stops + rest;
    assert forall|k: int| 0 <= k < tail.len() implies (#[trigger] tail[k]) !is Nodes by {
        if k >= stops.len() {
            assert(tail[k] == rest[k - stops.len()]);
        }
    }
    if upload_nodes {
        let first = seq![DeviceOp::Nodes(nodes_f)];
        let none = Seq::<DeviceOp>::empty();
        assert(head_ops(upload_nodes, stopped, nodes_f) + rest =~= first + tail);
        lemma_ops_concat(step, device, first, tail);
        assert(first.drop_last() =~= none);
        assert(after_ops(step, device, none) == device);
        let d = after_ops(step, device, first);
        assert(d == step(device, first.last()));
        assert(nodes(step(device, first.last())) == nodes_f);
        lemma_nodes_kept(step, read, nodes, d, tail);
    } else {
        assert(head_ops(upload_nodes, stopped, nodes_f) + rest =~= tail);
        lemma_nodes_kept(step, read, nodes, device, tail);
    }
}

/// A pin holds: on a device that honours pins, after a run of one tick or more a node
/// is, on every axis on which it is fixed, exactly where it is fixed.
pub proof fn law_pin_holds<D>(
    step: spec_fn(D, DeviceOp) -> D,
    read: spec_fn(D) -> Seq<u32>,
    nodes: spec_fn(D) -> Seq<F32>,
    before: Session<D>,
    plan: TickPlan,
    i: int,
    fx: F32,
    fy: F32,
)
    requires
        honours_pins(step, read, nodes),
        before.core.wf(),
        before.in_sync(nodes),
        before.pinned(i, fx, fy),
        0 <= i < before.core.n,
        plan.answers(before.core, plan.alphas()),
        plan.frames@.len() > 0,
        ({
            let after = before.sent(step, plan, before.core.after_ticks(plan.alphas()));
            read(after.device).len() == 2 * before.core.n
        }),
    ensures
        ({
            let after = before.sent(step, plan, before.core.after_ticks(plan.alphas()));
            &&& !fx.spec_is_nan() ==> after.refreshed(read).core.positions[2 * i] == Scalar::Value(
                fx,
            )
            &&& !fy.spec_is_nan() ==> after.refreshed(read).core.positions[2 * i + 1]
                == Scalar::Value(fy)
            &&& after.in_sync(nodes)
            &&& after.pinned(i, fx, fy)
        }),
{
    let core = before.core;
    let after = before.sent(step, plan, core.after_ticks(plan.alphas()));
    let frames = plan.frames@;
    let commands = plan.commands@;
    let ops = plan_ops(plan, core.nodes_f);
    let body = frame_ops(frames, commands);
    let runs = Seq::new(commands.len(), |k: int| DeviceOp::Run(commands[k]));
    let groups = plan::spec_groups(core.n);
    let integrate = DeviceOp::Run(Command::Dispatch { kernel: Kernel::Integrate, groups });
    assert(commands.last() == (Command::Dispatch { kernel: Kernel::Integrate, groups }));
    assert(body.last() == runs.last());
    assert(ops.last() == integrate);
    lemma_frames_send_no_nodes(frames, commands);
    let rest = body.drop_last();
    assert forall|k: int| 0 <= k < rest.len() implies (#[trigger] rest[k]) !is Nodes by {
        assert(body[k] !is Nodes);
    }
    let head = head_ops(plan.upload_nodes, plan.stopped@, core.nodes_f);
    assert(ops.drop_last() =~= head + rest);
    lemma_nodes_after_plan(
        step,
        read,
        nodes,
        before.device,
        plan.upload_nodes,
        plan.stopped@,
        core.nodes_f,
        rest,
    );
    lemma_nodes_after_plan(
        step,
        read,
        nodes,
        before.device,
        plan.upload_nodes,
        plan.stopped@,
        core.nodes_f,
        body,
    );
    let d = after_ops(step, before.device, ops.drop_last());
    assert(after.device == step(d, integrate));
    assert(nodes(d) == core.nodes_f);
    assert(core.nodes_f[NODE_SLOTS * i + 8] == plan::pin_slot(fx, fy, 8));
    assert(core.nodes_f[NODE_SLOTS * i + 9] == plan::pin_slot(fx, fy, 9));
    assert(core.nodes_f[NODE_SLOTS * i + 10] == plan::pin_slot(fx, fy, 10));
    assert(core.nodes_f[NODE_SLOTS * i + 11] == plan::pin_slot(fx, fy, 11));
    assert(NODE_SLOTS * i + 12 <= core.nodes_f.len()) by (nonlinear_arith)
        requires
            core.nodes_f.len() == NODE_SLOTS * core.n,
            i < core.n,
            NODE_SLOTS == 12,
    ;
    assert(holds_pins(read(step(d, integrate)), nodes(d), i));
}

/// Setting a pin makes it so: the node is fixed at what was set, whatever it was before,
/// a NaN frees just its axis, and the pin is on its way to the device. Until the next
/// tick neither positions nor alpha change, and no other node is touched.
pub proof fn law_set_fixed_pins<D>(
    read: spec_fn(D) -> Seq<u32>,
    nodes: spec_fn(D) -> Seq<F32>,
    before: Session<D>,
    i: int,
    fx: F32,
    fy: F32,
)
    requires
        before.core.wf(),
        0 <= i < before.core.n,
    ensures
        ({
            let after = Session { core: before.core.with_fixed(i, fx, fy), ..before };
            &&& after.pinned(i, fx, fy)
            &&& after.in_sync(nodes)
            &&& after.core.wf()
            &&& after.core.params.alpha == before.core.params.alpha
            &&& after.refreshed(read).core.positions == before.refreshed(read).core.positions
            &&& fx.spec_is_nan() ==> after.core.nodes_f[NODE_SLOTS * i + 10] == F32::zero()
            &&& fy.spec_is_nan() ==> after.core.nodes_f[NODE_SLOTS * i + 11] == F32::zero()
            &&& forall|k: int|
                0 <= k < before.core.nodes_f.len() && !(NODE_SLOTS * i + 8 <= k < NODE_SLOTS * i
                    + 12) ==> #[trigger] after.core.nodes_f[k] == before.core.nodes_f[k]
        }),
{
    let after = Session { core: before.core.with_fixed(i, fx, fy), ..before };
    assert(NODE_SLOTS * i + 12 <= before.core.nodes_f.len()) by (nonlinear_arith)
        requires
            before.core.nodes_f.len() == NODE_SLOTS * before.core.n,
            i < before.core.n,
            NODE_SLOTS == 12,
    ;
    assert(after.pinned(i, fx, fy));
    assert(after.core.nodes_f[NODE_SLOTS * i + 10] == plan::pin_slot(fx, fy, 10));
    assert(after.core.nodes_f[NODE_SLOTS * i + 11] == plan::pin_slot(fx, fy, 11));
}

/// The device never falls behind for good: every call keeps the node buffers in sync.
pub proof fn law_calls_keep_sync<E: Fn(Scalar) -> F32, D>(
    eval: E,
    step: spec_fn(D, DeviceOp) -> D,
    read: spec_fn(D) -> Seq<u32>,
    nodes: spec_fn(D) -> Seq<F32>,
    call: Call,
    before: Session<D>,
    after: Session<D>,
)
    requires
        honours_pins(step, read, nodes),
        before.in_sync(nodes),
        before.leads(eval, step, read, call, after),
    ensures
        after.in_sync(nodes),
{
    let core = before.core;
    let ops = lemma_ops_of(eval, step, read, call, before, after);
    match call {
        Call::Tick(k) => {
            if core.n != 0 {
                let plan = choose|plan: TickPlan| #[trigger]
                    ticks_with(eval, core, k, plan, ops, after.core);
                lemma_frames_send_no_nodes(plan.frames@, plan.commands@);
                lemma_nodes_after_plan(
                    step,
                    read,
                    nodes,
                    before.device,
                    plan.upload_nodes,
                    plan.stopped@,
                    core.nodes_f,
                    frame_ops(plan.frames@, plan.commands@),
                );
            }
        },
        Call::Run(max_ticks) => {
            let (t, sent) = choose|ticks: int, sent: Option<TickPlan>| #[trigger]
                runs_with(eval, core, max_ticks, ticks, sent, ops, after.core);
            if let Some(plan) = sent {
                lemma_frames_send_no_nodes(plan.frames@, plan.commands@);
                lemma_nodes_after_plan(
                    step,
                    read,
                    nodes,
                    before.device,
                    plan.upload_nodes,
                    plan.stopped@,
                    core.nodes_f,
                    frame_ops(plan.frames@, plan.commands@),
                );
            }
        },
        _ => {
            assert(no_nodes(ops));
            lemma_nodes_kept(step, read, nodes, before.device, ops);
        },
    }
}

} // verus!
