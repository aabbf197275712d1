//! From a configuration to what a GPU simulation starts with: which
//! configurations are accepted, and the numbers that each accepted one packs.

use crate::adapter;
use crate::adapter::GpuError;
use crate::graph;
use crate::graph::Adjacency;
use crate::model::{Config, ForceSpec, Kind, NodeInit, Values};
use crate::number::{Scalar, F32};
use vstd::prelude::*;

verus! {

/// Numbers per node in the node buffer.
pub const NODE_SLOTS: usize = 12;

/// Numbers per link in the link buffer.
pub const LINK_SLOTS: usize = 3;

/// Threads per workgroup.
pub const WORKGROUP: u32 = 256;

/// Extra collide sweeps run on the GPU to match d3's sequential collision pass.
pub const COLLIDE_EXTRA_SWEEPS: u32 = 1;

/// The last force of a kind, if there is one.
pub open spec fn of_kind(forces: Seq<(String, ForceSpec)>, kind: Kind) -> Option<ForceSpec>
    decreases forces.len(),
{
    if forces.len() == 0 {
        None
    } else if forces.last().1.spec_kind() == kind {
        Some(forces.last().1)
    } else {
        of_kind(forces.drop_last(), kind)
    }
}

/// Whether force `k` is of the kind of a force before it.
pub open spec fn repeated(forces: Seq<(String, ForceSpec)>, k: int) -> bool {
    exists|j: int|
        0 <= j < k && (#[trigger] forces[j]).1.spec_kind() == forces[k].1.spec_kind()
}

/// Whether force `k` links nodes that are not among the nodes `0..n`.
pub open spec fn links_outside(forces: Seq<(String, ForceSpec)>, n: int, k: int) -> bool {
    forces[k].1 matches ForceSpec::Link { links, .. } && !graph::in_range(links@, n)
}

/// Whether force `k` is refused on the GPU.
pub open spec fn faulty(forces: Seq<(String, ForceSpec)>, n: int, k: int) -> bool {
    repeated(forces, k) || links_outside(forces, n, k)
}

/// Whether none of the forces is refused on the GPU.
pub open spec fn accepted(forces: Seq<(String, ForceSpec)>, n: int) -> bool {
    forall|k: int| 0 <= k < forces.len() ==> !#[trigger] faulty(forces, n, k)
}

/// Whether force `k` is the first that is refused.
pub open spec fn first_fault(forces: Seq<(String, ForceSpec)>, n: int, k: int) -> bool {
    &&& 0 <= k < forces.len()
    &&& faulty(forces, n, k)
    &&& forall|j: int| 0 <= j < k ==> !#[trigger] faulty(forces, n, j)
}

/// Whether `e` is the error for force `k`, given that it is refused.
pub open spec fn fault_error(
    forces: Seq<(String, ForceSpec)>,
    n: int,
    k: int,
    e: GpuError,
) -> bool {
    e matches GpuError::Unsupported(text) && if repeated(forces, k) {
        text@ == "more than one force of the same kind"@
    } else {
        forces[k].1 matches ForceSpec::Link { links, .. } && exists|l: int|
            {
                &&& 0 <= l < links@.len()
                &&& !#[trigger] graph::link_in_range(links@, n, l)
                &&& forall|d: int| 0 <= d < l ==> #[trigger] graph::link_in_range(links@, n, d)
                &&& text@ == adapter::endpoint_text(links@[l])
            }
    }
}

/// Whether `e` is the answer to a configuration that is refused.
pub open spec fn refused(forces: Seq<(String, ForceSpec)>, n: int, e: GpuError) -> bool {
    exists|k: int| #[trigger] first_fault(forces, n, k) && fault_error(forces, n, k, e)
}

/// Whether the counts of a link force fit the 32-bit words they are kept in.
pub open spec fn counts_fit(links: Seq<(u32, u32)>) -> bool {
    &&& 2 * links.len() <= u32::MAX
    &&& forall|e: int|
        0 <= e < links.len() ==> #[trigger] graph::degree(links, links[e].0 as int)
            + graph::degree(links, links[e].1 as int) <= u32::MAX
}

/// Whether the parameters of a force are there for `n` nodes.
pub open spec fn sized(force: ForceSpec, n: int) -> bool {
    match force {
        ForceSpec::ManyBody { strength, .. } => strength.fits(n),
        ForceSpec::Link { links, distance, strength, .. } => {
            &&& distance.fits(links@.len() as int)
            &&& strength matches Some(s) ==> s.fits(links@.len() as int)
            &&& counts_fit(links@)
        },
        ForceSpec::Collide { radius, iterations, .. } => radius.fits(n) && iterations < u32::MAX,
        ForceSpec::X { x, strength } => x.fits(n) && strength.fits(n),
        ForceSpec::Y { y, strength } => y.fits(n) && strength.fits(n),
        ForceSpec::Center { .. } => true,
        ForceSpec::Radial { radius, strength, .. } => radius.fits(n) && strength.fits(n),
    }
}

/// Whether the parameters of every force that comes before the first refused one
/// are there for `n` nodes.
pub open spec fn plannable(forces: Seq<(String, ForceSpec)>, n: int) -> bool {
    forall|k: int|
        0 <= k < forces.len() && (forall|j: int| 0 <= j <= k ==> !#[trigger] faulty(forces, n, j))
            ==> sized((#[trigger] forces[k]).1, n)
}

/// Whether a force is of the kind of a force before it.
fn is_repeated(forces: &Vec<(String, ForceSpec)>, k: usize) -> (r: bool)
    requires
        k < forces@.len(),
    ensures
        r == repeated(forces@, k as int),
{
    let kind: Kind = forces[k].1.kind();
    let mut j: usize = 0;
    while j < k
        invariant
            j <= k < forces@.len(),
            kind == forces@[k as int].1.spec_kind(),
            forall|i: int| 0 <= i < j ==> (#[trigger] forces@[i]).1.spec_kind() != kind,
        decreases k - j,
    {
        if forces[j].1.kind() == kind {
            assert(forces@[j as int].1.spec_kind() == kind);
            return true;
        }
        j += 1;
    }
    false
}

/// Finds the first force that the GPU refuses.
pub fn check_forces(forces: &Vec<(String, ForceSpec)>, n: usize) -> (r: Result<(), GpuError>)
    ensures
        match r {
            Ok(_) => accepted(forces@, n as int),
            Err(e) => refused(forces@, n as int, e),
        },
{
    let mut k: usize = 0;
    while k < forces.len()
        invariant
            k <= forces@.len(),
            forall|j: int| 0 <= j < k ==> !#[trigger] faulty(forces@, n as int, j),
        decreases forces@.len() - k,
    {
        if is_repeated(forces, k) {
            let e = GpuError::Unsupported("more than one force of the same kind".to_owned());
            assert(first_fault(forces@, n as int, k as int));
            return Err(e);
        }
        if let ForceSpec::Link { links, .. } = &forces[k].1 {
            if let Some(l) = graph::first_out_of_range(links, n) {
                let e = adapter::endpoint_error(links[l]);
                assert(links_outside(forces@, n as int, k as int));
                assert(first_fault(forces@, n as int, k as int));
                assert(fault_error(forces@, n as int, k as int, e));
                return Err(e);
            }
        }
        assert(!faulty(forces@, n as int, k as int));
        k += 1;
    }
    Ok(())
}

/// Whether the counts of a link force fit the 32-bit words they are kept in.
fn do_counts_fit(links: &Vec<(u32, u32)>, n: usize) -> (r: bool)
    requires
        graph::in_range(links@, n as int),
    ensures
        r == counts_fit(links@),
{
    if links.len() > (u32::MAX / 2) as usize {
        return false;
    }
    let count: Vec<u32> = graph::degrees(links, n);
    let mut e: usize = 0;
    while e < links.len()
        invariant
            e <= links@.len(),
            graph::in_range(links@, n as int),
            count@.len() == n,
            forall|v: int| 0 <= v < n ==> #[trigger] count@[v] == graph::degree(links@, v),
            forall|d: int|
                0 <= d < e ==> #[trigger] graph::degree(links@, links@[d].0 as int)
                    + graph::degree(links@, links@[d].1 as int) <= u32::MAX,
        decreases links@.len() - e,
    {
        assert(graph::link_in_range(links@, n as int, e as int));
        let source: u32 = count[links[e].0 as usize];
        let target: u32 = count[links[e].1 as usize];
        if source > u32::MAX - target {
            assert(graph::degree(links@, links@[e as int].0 as int) == source);
            return false;
        }
        e += 1;
    }
    true
}

/// Whether the parameters of a force are there for `n` nodes.
fn is_sized(force: &ForceSpec, n: usize) -> (r: bool)
    requires
        force matches ForceSpec::Link { links, .. } ==> graph::in_range(links@, n as int),
    ensures
        r == sized(*force, n as int),
{
    match force {
        ForceSpec::ManyBody { strength, .. } => strength.has(n),
        ForceSpec::Link { links, distance, strength, .. } => {
            let given: bool = match strength {
                Some(s) => s.has(links.len()),
                None => true,
            };
            distance.has(links.len()) && given && do_counts_fit(links, n)
        },
        ForceSpec::Collide { radius, iterations, .. } => radius.has(n) && *iterations < u32::MAX,
        ForceSpec::X { x, strength } => x.has(n) && strength.has(n),
        ForceSpec::Y { y, strength } => y.has(n) && strength.has(n),
        ForceSpec::Center { .. } => true,
        ForceSpec::Radial { radius, strength, .. } => radius.has(n) && strength.has(n),
    }
}

/// Whether the parameters of every force that comes before the first refused one
/// are there for `n` nodes.
pub fn is_plannable(forces: &Vec<(String, ForceSpec)>, n: usize) -> (r: bool)
    ensures
        r == plannable(forces@, n as int),
{
    let mut k: usize = 0;
    while k < forces.len()
        invariant
            k <= forces@.len(),
            forall|j: int| 0 <= j < k ==> !#[trigger] faulty(forces@, n as int, j),
            forall|j: int| 0 <= j < k ==> sized((#[trigger] forces@[j]).1, n as int),
        decreases forces@.len() - k,
    {
        let mut refused_here: bool = is_repeated(forces, k);
        if let ForceSpec::Link { links, .. } = &forces[k].1 {
            if graph::first_out_of_range(links, n).is_some() {
                refused_here = true;
            }
        }
        assert(refused_here == faulty(forces@, n as int, k as int));
        if refused_here {
            return true;
        }
        if !is_sized(&forces[k].1, n) {
            assert(forall|j: int| 0 <= j <= k ==> !#[trigger] faulty(forces@, n as int, j));
            return false;
        }
        k += 1;
    }
    true
}

/// Finds the last force of a kind.
pub fn find_kind(forces: &Vec<(String, ForceSpec)>, kind: Kind) -> (r: Option<&ForceSpec>)
    ensures
        match r {
            Some(f) => of_kind(forces@, kind) == Some(*f),
            None => of_kind(forces@, kind) is None,
        },
{
    let mut k: usize = forces.len();
    assert(forces@.take(k as int) =~= forces@);
    while k > 0
        invariant
            k <= forces@.len(),
            of_kind(forces@, kind) == of_kind(forces@.take(k as int), kind),
        decreases k,
    {
        assert(forces@.take(k as int).drop_last() =~= forces@.take(k - 1));
        if forces[k - 1].1.kind() == kind {
            return Some(&forces[k - 1].1);
        }
        k -= 1;
    }
    None
}

/// What is known of the force of a kind in an accepted configuration.
proof fn lemma_of_kind(forces: Seq<(String, ForceSpec)>, n: int, kind: Kind)
    requires
        accepted(forces, n),
        plannable(forces, n),
    ensures
        of_kind(forces, kind) matches Some(f) ==> {
            &&& f.spec_kind() == kind
            &&& sized(f, n)
            &&& f matches ForceSpec::Link { links, .. } ==> graph::in_range(links@, n)
        },
{
    lemma_of_kind_prefix(forces, n, kind, forces.len() as int);
    assert(forces.take(forces.len() as int) =~= forces);
}

proof fn lemma_of_kind_prefix(forces: Seq<(String, ForceSpec)>, n: int, kind: Kind, k: int)
    requires
        accepted(forces, n),
        plannable(forces, n),
        0 <= k <= forces.len(),
    ensures
        of_kind(forces.take(k), kind) matches Some(f) ==> {
            &&& f.spec_kind() == kind
            &&& sized(f, n)
            &&& f matches ForceSpec::Link { links, .. } ==> graph::in_range(links@, n)
        },
    decreases k,
{
    if k > 0 {
        lemma_of_kind_prefix(forces, n, kind, k - 1);
        assert(forces.take(k).drop_last() =~= forces.take(k - 1));
        assert(forces.take(k).last() == forces[k - 1]);
        assert(!faulty(forces, n, k - 1));
        assert(sized(forces[k - 1].1, n));
    }
}

/// The number in `slot` of the row of node `i` in the node buffer. Each force has
/// slots of its own; those of a force that is not there hold zero, and the last
/// four say where the node is fixed and on which axes.
pub open spec fn node_slot(
    forces: Seq<(String, ForceSpec)>,
    node: NodeInit,
    i: int,
    slot: int,
) -> F32 {
    if slot == 0 {
        match of_kind(forces, Kind::ManyBody) {
            Some(ForceSpec::ManyBody { strength, .. }) => strength.at(i),
            _ => F32::zero(),
        }
    } else if slot == 1 {
        match of_kind(forces, Kind::Collide) {
            Some(ForceSpec::Collide { radius, .. }) => radius.at(i),
            _ => F32::zero(),
        }
    } else if slot == 2 {
        match of_kind(forces, Kind::X) {
            Some(ForceSpec::X { x, .. }) => or_zero(x.at(i), x.at(i)),
            _ => F32::zero(),
        }
    } else if slot == 3 {
        match of_kind(forces, Kind::X) {
            Some(ForceSpec::X { x, strength }) => or_zero(x.at(i), strength.at(i)),
            _ => F32::zero(),
        }
    } else if slot == 4 {
        match of_kind(forces, Kind::Y) {
            Some(ForceSpec::Y { y, .. }) => or_zero(y.at(i), y.at(i)),
            _ => F32::zero(),
        }
    } else if slot == 5 {
        match of_kind(forces, Kind::Y) {
            Some(ForceSpec::Y { y, strength }) => or_zero(y.at(i), strength.at(i)),
            _ => F32::zero(),
        }
    } else if slot == 6 {
        match of_kind(forces, Kind::Radial) {
            Some(ForceSpec::Radial { radius, .. }) => radius.at(i),
            _ => F32::zero(),
        }
    } else if slot == 7 {
        match of_kind(forces, Kind::Radial) {
            Some(ForceSpec::Radial { radius, strength, .. }) => or_zero(
                radius.at(i),
                strength.at(i),
            ),
            _ => F32::zero(),
        }
    } else {
        pin_slot(node.fx, node.fy, slot)
    }
}

/// `value`, unless `target` is unset.
pub open spec fn or_zero(target: F32, value: F32) -> F32 {
    if target.spec_is_nan() {
        F32::zero()
    } else {
        value
    }
}

/// The number in one of the last four slots of the row of a node that is fixed at
/// `(fx, fy)`: the two coordinates, then a one for each axis that is fixed.
pub open spec fn pin_slot(fx: F32, fy: F32, slot: int) -> F32 {
    if slot == 8 {
        or_zero(fx, fx)
    } else if slot == 9 {
        or_zero(fy, fy)
    } else if slot == 10 {
        or_zero(fx, F32::one())
    } else {
        or_zero(fy, F32::one())
    }
}

fn or_zero_of(target: F32, value: F32) -> (r: F32)
    ensures
        r == or_zero(target, value),
{
    if target.is_nan() {
        F32::zero()
    } else {
        value
    }
}

/// The last four slots of the row of a node that is fixed at `(fx, fy)`.
pub fn pin_slots(fx: F32, fy: F32) -> (r: [F32; 4])
    ensures
        forall|k: int| 0 <= k < 4 ==> #[trigger] r@[k] == pin_slot(fx, fy, k + 8),
{
    [
        or_zero_of(fx, fx),
        or_zero_of(fy, fy),
        or_zero_of(fx, F32::one()),
        or_zero_of(fy, F32::one()),
    ]
}

/// Whether `r` is the node buffer of a configuration.
pub open spec fn is_node_buffer(
    r: Seq<F32>,
    forces: Seq<(String, ForceSpec)>,
    nodes: Seq<NodeInit>,
) -> bool {
    &&& r.len() == NODE_SLOTS * nodes.len()
    &&& forall|i: int, slot: int|
        0 <= i < nodes.len() && 0 <= slot < NODE_SLOTS ==> r[NODE_SLOTS * i + slot]
            == #[trigger] node_slot(forces, nodes[i], i, slot)
}

/// Packs the per-node numbers of all forces, and where each node is fixed.
pub fn pack_nodes(forces: &Vec<(String, ForceSpec)>, nodes: &[NodeInit]) -> (r: Vec<F32>)
    requires
        accepted(forces@, nodes@.len() as int),
        plannable(forces@, nodes@.len() as int),
        NODE_SLOTS * nodes@.len() <= usize::MAX,
    ensures
        is_node_buffer(r@, forces@, nodes@),
{
    let many_body = find_kind(forces, Kind::ManyBody);
    let collide = find_kind(forces, Kind::Collide);
    let force_x = find_kind(forces, Kind::X);
    let force_y = find_kind(forces, Kind::Y);
    let radial = find_kind(forces, Kind::Radial);
    proof {
        lemma_of_kind(forces@, nodes@.len() as int, Kind::ManyBody);
        lemma_of_kind(forces@, nodes@.len() as int, Kind::Collide);
        lemma_of_kind(forces@, nodes@.len() as int, Kind::X);
        lemma_of_kind(forces@, nodes@.len() as int, Kind::Y);
        lemma_of_kind(forces@, nodes@.len() as int, Kind::Radial);
    }
    let zero: F32 = F32::zero();
    let mut r: Vec<F32> = Vec::with_capacity(NODE_SLOTS * nodes.len());
    let mut i: usize = 0;
    #[verifier::loop_isolation(false)]
    while i < nodes.len()
        invariant
            i <= nodes@.len(),
            r@.len() == NODE_SLOTS * i,
            forall|h: int, slot: int|
                0 <= h < i && 0 <= slot < NODE_SLOTS ==> r@[NODE_SLOTS * h + slot]
                    == #[trigger] node_slot(forces@, nodes@[h], h, slot),
        decreases nodes@.len() - i,
    {
        let ghost before = r@;
        let charge: F32 = match many_body {
            Some(ForceSpec::ManyBody { strength, .. }) => strength.get(i),
            _ => zero,
        };
        let size: F32 = match collide {
            Some(ForceSpec::Collide { radius, .. }) => radius.get(i),
            _ => zero,
        };
        let (x, x_pull): (F32, F32) = match force_x {
            Some(ForceSpec::X { x, strength }) => (
                or_zero_of(x.get(i), x.get(i)),
                or_zero_of(x.get(i), strength.get(i)),
            ),
            _ => (zero, zero),
        };
        let (y, y_pull): (F32, F32) = match force_y {
            Some(ForceSpec::Y { y, strength }) => (
                or_zero_of(y.get(i), y.get(i)),
                or_zero_of(y.get(i), strength.get(i)),
            ),
            _ => (zero, zero),
        };
        let (circle, circle_pull): (F32, F32) = match radial {
            Some(ForceSpec::Radial { radius, strength, .. }) => (
                radius.get(i),
                or_zero_of(radius.get(i), strength.get(i)),
            ),
            _ => (zero, zero),
        };
        let pins: [F32; 4] = pin_slots(nodes[i].fx, nodes[i].fy);
        r.push(charge);
        r.push(size);
        r.push(x);
        r.push(x_pull);
        r.push(y);
        r.push(y_pull);
        r.push(circle);
        r.push(circle_pull);
        r.push(pins[0]);
        r.push(pins[1]);
        r.push(pins[2]);
        r.push(pins[3]);
        assert forall|h: int, slot: int| 0 <= h <= i && 0 <= slot < NODE_SLOTS implies r@[
        NODE_SLOTS * h + slot] == #[trigger] node_slot(forces@, nodes@[h], h, slot) by {
            if h < i {
                assert(r@[NODE_SLOTS * h + slot] == before[NODE_SLOTS * h + slot]);
            } else if slot >= 8 {
                assert(pins@[slot - 8] == pin_slot(nodes@[i as int].fx, nodes@[i as int].fy, slot));
            }
        }
        i += 1;
    }
    r
}

/// Where node `i` starts. A fixed coordinate comes before the given one, and a
/// node that then lacks a coordinate starts on the spiral.
pub open spec fn start(node: NodeInit, i: int) -> (Scalar, Scalar) {
    let x = if node.fx.spec_is_nan() {
        node.x
    } else {
        node.fx
    };
    let y = if node.fy.spec_is_nan() {
        node.y
    } else {
        node.fy
    };
    if x.spec_is_nan() || y.spec_is_nan() {
        (Scalar::SpiralX(i as usize), Scalar::SpiralY(i as usize))
    } else {
        (Scalar::Value(x), Scalar::Value(y))
    }
}

/// Whether `r` holds the start of every node, interleaved.
pub open spec fn is_start(r: Seq<Scalar>, nodes: Seq<NodeInit>) -> bool {
    &&& r.len() == 2 * nodes.len()
    &&& forall|i: int|
        0 <= i < nodes.len() ==> (r[2 * i], r[2 * i + 1]) == #[trigger] start(nodes[i], i)
}

/// Where the nodes start, interleaved.
pub fn start_positions(nodes: &[NodeInit]) -> (r: Vec<Scalar>)
    requires
        2 * nodes@.len() <= usize::MAX,
    ensures
        is_start(r@, nodes@),
{
    let mut r: Vec<Scalar> = Vec::with_capacity(2 * nodes.len());
    let mut i: usize = 0;
    while i < nodes.len()
        invariant
            i <= nodes@.len(),
            r@.len() == 2 * i,
            forall|h: int|
                0 <= h < i ==> (r@[2 * h], r@[2 * h + 1]) == #[trigger] start(nodes@[h], h),
        decreases nodes@.len() - i,
    {
        let ghost before = r@;
        let node: NodeInit = nodes[i];
        let x: F32 = if node.fx.is_nan() {
            node.x
        } else {
            node.fx
        };
        let y: F32 = if node.fy.is_nan() {
            node.y
        } else {
            node.fy
        };
        if x.is_nan() || y.is_nan() {
            r.push(Scalar::SpiralX(i));
            r.push(Scalar::SpiralY(i));
        } else {
            r.push(Scalar::Value(x));
            r.push(Scalar::Value(y));
        }
        assert forall|h: int| 0 <= h <= i implies (r@[2 * h], r@[2 * h + 1]) == #[trigger] start(
            nodes@[h],
            h,
        ) by {
            if h < i {
                assert(r@[2 * h] == before[2 * h]);
                assert(r@[2 * h + 1] == before[2 * h + 1]);
            }
        }
        i += 1;
    }
    r
}

/// One pass over the nodes in a tick.
#[derive(Clone, Copy, Debug, PartialEq, Eq, Structural)]
pub enum Pass {
    ManyBody,
    Link { iterations: u32 },
    Collide { iterations: u32 },
    X,
    Y,
    Radial,
    Center,
}

/// The larger of a count and one.
pub open spec fn at_least_one(n: u32) -> u32 {
    if n < 1 {
        1
    } else {
        n
    }
}

/// The pass of a force. Sweeps are repeated at least once, and collisions once
/// more than configured.
pub open spec fn pass_of(force: ForceSpec) -> Pass {
    match force {
        ForceSpec::ManyBody { .. } => Pass::ManyBody,
        ForceSpec::Link { iterations, .. } => Pass::Link { iterations: at_least_one(iterations) },
        ForceSpec::Collide { iterations, .. } => Pass::Collide {
            iterations: (at_least_one(iterations) + COLLIDE_EXTRA_SWEEPS) as u32,
        },
        ForceSpec::X { .. } => Pass::X,
        ForceSpec::Y { .. } => Pass::Y,
        ForceSpec::Center { .. } => Pass::Center,
        ForceSpec::Radial { .. } => Pass::Radial,
    }
}

/// The passes of the forces, in their order.
pub open spec fn passes_of(forces: Seq<(String, ForceSpec)>) -> Seq<Pass> {
    Seq::new(forces.len(), |k: int| pass_of(forces[k].1))
}

/// The passes of the forces, in their order.
pub fn list_passes(forces: &Vec<(String, ForceSpec)>, n: usize) -> (r: Vec<Pass>)
    requires
        accepted(forces@, n as int),
        plannable(forces@, n as int),
    ensures
        r@ == passes_of(forces@),
{
    let mut r: Vec<Pass> = Vec::new();
    let mut k: usize = 0;
    while k < forces.len()
        invariant
            k <= forces@.len(),
            accepted(forces@, n as int),
            plannable(forces@, n as int),
            r@.len() == k,
            forall|j: int| 0 <= j < k ==> #[trigger] r@[j] == pass_of(forces@[j].1),
        decreases forces@.len() - k,
    {
        assert(sized(forces@[k as int].1, n as int));
        let pass = match &forces[k].1 {
            ForceSpec::ManyBody { .. } => Pass::ManyBody,
            ForceSpec::Link { iterations, .. } => {
                let sweeps: u32 = if *iterations < 1 {
                    1
                } else {
                    *iterations
                };
                Pass::Link { iterations: sweeps }
            },
            ForceSpec::Collide { iterations, .. } => {
                let sweeps: u32 = if *iterations < 1 {
                    1
                } else {
                    *iterations
                };
                Pass::Collide { iterations: sweeps + COLLIDE_EXTRA_SWEEPS }
            },
            ForceSpec::X { .. } => Pass::X,
            ForceSpec::Y { .. } => Pass::Y,
            ForceSpec::Center { .. } => Pass::Center,
            ForceSpec::Radial { .. } => Pass::Radial,
        };
        r.push(pass);
        k += 1;
    }
    assert(r@ =~= passes_of(forces@));
    r
}

/// How many workgroups cover `n` nodes.
pub open spec fn spec_groups(n: u32) -> u32 {
    ((n + WORKGROUP - 1) / WORKGROUP as int) as u32
}

/// How many workgroups cover `n` nodes.
#[verifier::when_used_as_spec(spec_groups)]
pub fn groups(n: u32) -> (r: u32)
    ensures
        r == spec_groups(n),
{
    if n % WORKGROUP == 0 {
        n / WORKGROUP
    } else {
        n / WORKGROUP + 1
    }
}

/// The workgroups for `n` nodes have a thread for every node, and no workgroup is
/// without a node.
pub proof fn law_groups_cover(n: u32)
    ensures
        spec_groups(n) * WORKGROUP >= n,
        (spec_groups(n) - 1) * WORKGROUP < n,
{
}

/// The uniform block that every pass reads.
#[derive(Clone, Copy, Debug, PartialEq)]
pub struct Params {
    pub n: u32,
    pub m: u32,
    pub alpha: F32,
    pub velocity_decay: Scalar,
    pub distance_min2: Scalar,
    pub distance_max2: Scalar,
    pub collide_strength: F32,
    pub center_strength: F32,
    pub center_x: F32,
    pub center_y: F32,
    pub radial_x: F32,
    pub radial_y: F32,
    pub tick: u32,
    pub groups: u32,
    pub ptr_off: u32,
    pub idx_off: u32,
    pub ends_off: u32,
}

/// The links of a configuration.
pub open spec fn links_of(forces: Seq<(String, ForceSpec)>) -> Seq<(u32, u32)> {
    match of_kind(forces, Kind::Link) {
        Some(ForceSpec::Link { links, .. }) => links@,
        _ => Seq::empty(),
    }
}

/// The uniform block that a configuration of `n` nodes starts with. A force that
/// is not there leaves its defaults.
pub open spec fn params_of(config: Config, n: int) -> Params {
    let forces = config.forces@;
    let m = links_of(forces).len();
    let many_body = of_kind(forces, Kind::ManyBody);
    let collide = of_kind(forces, Kind::Collide);
    let center = of_kind(forces, Kind::Center);
    let radial = of_kind(forces, Kind::Radial);
    Params {
        n: n as u32,
        m: m as u32,
        alpha: config.alpha,
        velocity_decay: Scalar::OneMinus(config.velocity_decay),
        distance_min2: match many_body {
            Some(ForceSpec::ManyBody { distance_min, .. }) => Scalar::Square(distance_min),
            _ => Scalar::Value(F32::one()),
        },
        distance_max2: match many_body {
            Some(ForceSpec::ManyBody { distance_max, .. }) if distance_max.spec_is_finite() =>
                Scalar::Square(distance_max),
            _ => Scalar::Value(F32::infinity()),
        },
        collide_strength: match collide {
            Some(ForceSpec::Collide { strength, .. }) => strength,
            _ => F32::one(),
        },
        center_strength: match center {
            Some(ForceSpec::Center { strength, .. }) => strength,
            _ => F32::one(),
        },
        center_x: match center {
            Some(ForceSpec::Center { x, .. }) => x,
            _ => F32::zero(),
        },
        center_y: match center {
            Some(ForceSpec::Center { y, .. }) => y,
            _ => F32::zero(),
        },
        radial_x: match radial {
            Some(ForceSpec::Radial { x, .. }) => x,
            _ => F32::zero(),
        },
        radial_y: match radial {
            Some(ForceSpec::Radial { y, .. }) => y,
            _ => F32::zero(),
        },
        tick: 0,
        groups: spec_groups(n as u32),
        ptr_off: 0,
        idx_off: (n + 1) as u32,
        ends_off: (n + 1 + 2 * m) as u32,
    }
}

/// The uniform block that a configuration starts with.
pub fn start_params(config: &Config, n: usize) -> (r: Params)
    requires
        accepted(config.forces@, n as int),
        plannable(config.forces@, n as int),
        n + 1 + 2 * links_of(config.forces@).len() <= usize::MAX,
    ensures
        r == params_of(*config, n as int),
        r.m == links_of(config.forces@).len(),
{
    proof {
        lemma_of_kind(config.forces@, n as int, Kind::ManyBody);
        lemma_of_kind(config.forces@, n as int, Kind::Link);
        lemma_of_kind(config.forces@, n as int, Kind::Collide);
        lemma_of_kind(config.forces@, n as int, Kind::Center);
        lemma_of_kind(config.forces@, n as int, Kind::Radial);
    }
    let m: usize = match find_kind(&config.forces, Kind::Link) {
        Some(ForceSpec::Link { links, .. }) => links.len(),
        _ => 0,
    };
    let mut params = Params {
        n: n as u32,
        m: m as u32,
        alpha: config.alpha,
        velocity_decay: Scalar::OneMinus(config.velocity_decay),
        distance_min2: Scalar::Value(F32::one()),
        distance_max2: Scalar::Value(F32::infinity()),
        collide_strength: F32::one(),
        center_strength: F32::one(),
        center_x: F32::zero(),
        center_y: F32::zero(),
        radial_x: F32::zero(),
        radial_y: F32::zero(),
        tick: 0,
        groups: groups(n as u32),
        ptr_off: 0,
        idx_off: (n + 1) as u32,
        ends_off: (n + 1 + 2 * m) as u32,
    };
    if let Some(ForceSpec::ManyBody { distance_min, distance_max, .. }) = find_kind(
        &config.forces,
        Kind::ManyBody,
    ) {
        params.distance_min2 = Scalar::Square(*distance_min);
        if distance_max.is_finite() {
            params.distance_max2 = Scalar::Square(*distance_max);
        }
    }
    if let Some(ForceSpec::Collide { strength, .. }) = find_kind(&config.forces, Kind::Collide) {
        params.collide_strength = *strength;
    }
    if let Some(ForceSpec::Center { x, y, strength }) = find_kind(&config.forces, Kind::Center) {
        params.center_x = *x;
        params.center_y = *y;
        params.center_strength = *strength;
    }
    if let Some(ForceSpec::Radial { x, y, .. }) = find_kind(&config.forces, Kind::Radial) {
        params.radial_x = *x;
        params.radial_y = *y;
    }
    params
}

/// Whether `r` is the word buffer of a set of links over the nodes `0..n`: where
/// the row of each node begins, the links of each node, and the two ends of each
/// link.
pub open spec fn is_link_words(r: Seq<u32>, links: Seq<(u32, u32)>, n: int) -> bool {
    &&& r.len() == n + 1 + 4 * links.len()
    &&& forall|v: int| 0 <= v <= n ==> #[trigger] r[v] == graph::offset(links, v)
    &&& forall|v: int| 0 <= v < n ==> #[trigger] link_row(r, n, v) == graph::incident(links, v)
    &&& forall|j: int|
        0 <= j < 2 * links.len() ==> r[n + 1 + 2 * links.len() + j]
            == #[trigger] graph::endpoint(links, j)
}

/// The links of node `v` in a word buffer, found as a pass finds them.
pub open spec fn link_row(r: Seq<u32>, n: int, v: int) -> Seq<u32> {
    r.subrange(n + 1 + r[v], n + 1 + r[v + 1])
}

/// Packs the adjacency of a set of links, and their ends.
pub fn pack_link_words(links: &Vec<(u32, u32)>, n: usize) -> (r: Vec<u32>)
    requires
        graph::in_range(links@, n as int),
        2 * links@.len() <= u32::MAX,
        n < usize::MAX,
    ensures
        is_link_words(r@, links@, n as int),
{
    let adjacency: Adjacency = graph::adjacency(links, n);
    let Adjacency { ptr, idx } = adjacency;
    let mut r: Vec<u32> = ptr;
    let mut rest: Vec<u32> = idx;
    r.append(&mut rest);
    let ghost table = r@;
    assert(table =~= adjacency.ptr@ + adjacency.idx@);
    let mut e: usize = 0;
    while e < links.len()
        invariant
            e <= links@.len(),
            table.len() == n + 1 + 2 * links@.len(),
            r@.len() == table.len() + 2 * e,
            r@.take(table.len() as int) =~= table,
            forall|j: int|
                0 <= j < 2 * e ==> r@[table.len() + j] == #[trigger] graph::endpoint(links@, j),
        decreases links@.len() - e,
    {
        let ghost before = r@;
        let (s, t) = links[e];
        r.push(s);
        r.push(t);
        assert(r@.take(table.len() as int) =~= before.take(table.len() as int));
        assert forall|j: int| 0 <= j < 2 * e + 2 implies r@[table.len() + j]
            == #[trigger] graph::endpoint(links@, j) by {
            if j < 2 * e {
                assert(r@[table.len() + j] == before[table.len() + j]);
            }
        }
        e += 1;
    }
    proof {
        assert(r@.take(table.len() as int) =~= table);
        assert forall|v: int| 0 <= v <= n implies #[trigger] r@[v] == graph::offset(links@, v) by {
            assert(r@[v] == r@.take(table.len() as int)[v]);
            assert(adjacency.ptr@[v] == graph::offset(links@, v));
        }
        assert forall|v: int| 0 <= v < n implies #[trigger] link_row(r@, n as int, v)
            == graph::incident(links@, v) by {
            graph::law_rows_partition(links@, n as int, v);
            assert(r@[v] == graph::offset(links@, v));
            assert(r@[v + 1] == graph::offset(links@, v + 1));
            assert(adjacency.row(v) == graph::incident(links@, v));
            assert(adjacency.ptr@[v] == graph::offset(links@, v));
            assert(adjacency.ptr@[v + 1] == graph::offset(links@, v + 1));
            assert forall|k: int| 0 <= k < graph::degree(links@, v) implies #[trigger] link_row(
                r@,
                n as int,
                v,
            )[k] == adjacency.row(v)[k] by {
                let at = n + 1 + graph::offset(links@, v) + k;
                assert(r@[at] == r@.take(table.len() as int)[at]);
                assert(table[at] == adjacency.idx@[graph::offset(links@, v) + k]);
            }
            assert(link_row(r@, n as int, v) =~= adjacency.row(v));
        }
    }
    r
}

/// The smaller of two counts.
pub open spec fn smaller(a: nat, b: nat) -> nat {
    if a <= b {
        a
    } else {
        b
    }
}

/// The number in `slot` of the row of link `e`: its distance, its strength, and
/// the share of the correction that its target takes.
pub open spec fn link_slot(
    links: Seq<(u32, u32)>,
    distance: Values,
    strength: Option<Values>,
    e: int,
    slot: int,
) -> Scalar {
    let s = graph::degree(links, links[e].0 as int);
    let t = graph::degree(links, links[e].1 as int);
    if slot == 0 {
        Scalar::Value(distance.at(e))
    } else if slot == 1 {
        match strength {
            Some(v) => Scalar::Value(v.at(e)),
            None => Scalar::Quotient { num: 1, den: smaller(s, t) as u32 },
        }
    } else {
        Scalar::Quotient { num: s as u32, den: (s + t) as u32 }
    }
}

/// Whether `r` is the number buffer of the links of a configuration. Without links
/// it holds a single zero.
pub open spec fn is_link_numbers(r: Seq<Scalar>, forces: Seq<(String, ForceSpec)>) -> bool {
    match of_kind(forces, Kind::Link) {
        Some(ForceSpec::Link { links, distance, strength, .. }) if links@.len() > 0 => {
            &&& r.len() == LINK_SLOTS * links@.len()
            &&& forall|e: int, slot: int|
                0 <= e < links@.len() && 0 <= slot < LINK_SLOTS ==> r[LINK_SLOTS * e + slot]
                    == #[trigger] link_slot(links@, distance, strength, e, slot)
        },
        _ => r == seq![Scalar::Value(F32::zero())],
    }
}

/// Packs the distance, strength and bias of every link.
pub fn pack_link_numbers(
    links: &Vec<(u32, u32)>,
    distance: &Values,
    strength: &Option<Values>,
    n: usize,
) -> (r: Vec<Scalar>)
    requires
        graph::in_range(links@, n as int),
        counts_fit(links@),
        distance.fits(links@.len() as int),
        strength matches Some(s) ==> s.fits(links@.len() as int),
    ensures
        r@.len() == LINK_SLOTS * links@.len(),
        forall|e: int, slot: int|
            0 <= e < links@.len() && 0 <= slot < LINK_SLOTS ==> r@[LINK_SLOTS * e + slot]
                == #[trigger] link_slot(links@, *distance, *strength, e, slot),
{
    let count: Vec<u32> = graph::degrees(links, n);
    let mut r: Vec<Scalar> = Vec::new();
    let mut e: usize = 0;
    while e < links.len()
        invariant
            e <= links@.len(),
            graph::in_range(links@, n as int),
            counts_fit(links@),
            distance.fits(links@.len() as int),
            strength matches Some(s) ==> s.fits(links@.len() as int),
            count@.len() == n,
            forall|v: int| 0 <= v < n ==> #[trigger] count@[v] == graph::degree(links@, v),
            r@.len() == LINK_SLOTS * e,
            forall|d: int, slot: int|
                0 <= d < e && 0 <= slot < LINK_SLOTS ==> r@[LINK_SLOTS * d + slot]
                    == #[trigger] link_slot(links@, *distance, *strength, d, slot),
        decreases links@.len() - e,
    {
        let ghost before = r@;
        let (s, t) = links[e];
        assert(graph::link_in_range(links@, n as int, e as int));
        assert(graph::degree(links@, links@[e as int].0 as int) + graph::degree(
            links@,
            links@[e as int].1 as int,
        ) <= u32::MAX);
        let source: u32 = count[s as usize];
        let target: u32 = count[t as usize];
        r.push(Scalar::Value(distance.get(e)));
        let pull: Scalar = match strength {
            Some(v) => Scalar::Value(v.get(e)),
            None => Scalar::Quotient {
                num: 1,
                den: if source <= target {
                    source
                } else {
                    target
                },
            },
        };
        r.push(pull);
        r.push(Scalar::Quotient { num: source, den: source + target });
        assert forall|d: int, slot: int| 0 <= d <= e && 0 <= slot < LINK_SLOTS implies r@[LINK_SLOTS
            * d + slot] == #[trigger] link_slot(links@, *distance, *strength, d, slot) by {
            if d < e {
                assert(r@[LINK_SLOTS * d + slot] == before[LINK_SLOTS * d + slot]);
            }
        }
        e += 1;
    }
    r
}

/// The two link buffers of a configuration.
pub fn pack_links(forces: &Vec<(String, ForceSpec)>, n: usize) -> (r: (Vec<u32>, Vec<Scalar>))
    requires
        accepted(forces@, n as int),
        plannable(forces@, n as int),
        n < usize::MAX,
    ensures
        is_link_words(r.0@, links_of(forces@), n as int),
        is_link_numbers(r.1@, forces@),
{
    proof {
        lemma_of_kind(forces@, n as int, Kind::Link);
    }
    match find_kind(forces, Kind::Link) {
        Some(ForceSpec::Link { links, distance, strength, .. }) => {
            let words: Vec<u32> = pack_link_words(links, n);
            let mut numbers: Vec<Scalar> = pack_link_numbers(links, distance, strength, n);
            if numbers.len() == 0 {
                numbers.push(Scalar::Value(F32::zero()));
                assert(numbers@ =~= seq![Scalar::Value(F32::zero())]);
            }
            (words, numbers)
        },
        _ => {
            let none: Vec<(u32, u32)> = Vec::new();
            let words: Vec<u32> = pack_link_words(&none, n);
            let numbers: Vec<Scalar> = vec![Scalar::Value(F32::zero())];
            assert(numbers@ =~= seq![Scalar::Value(F32::zero())]);
            assert(none@ =~= links_of(forces@));
            (words, numbers)
        },
    }
}

} // verus!
