//! What planning is for: which configurations the GPU takes, and where it puts what
//! they say. Each law says of a result what it is, in terms of the configuration.

use crate::adapter::GpuError;
use crate::graph;
use crate::laws;
use crate::meaning;
use crate::model::{Config, ForceSpec, Kind, NodeInit, Values};
use crate::number::{Scalar, F32};
use crate::plan;
use crate::plan::{Params, Pass};
use vstd::prelude::*;

verus! {

// ---- which configurations are taken -------------------------------------

/// Whether the forces are of different sorts.
pub open spec fn unlike(forces: Seq<(String, ForceSpec)>) -> bool {
    forall|i: int, j: int|
        0 <= i < j < forces.len() ==> (#[trigger] forces[i]).1.spec_kind() != (
        #[trigger] forces[j]).1.spec_kind()
}

/// Whether a force, if it links nodes, links nodes among `0..n`.
pub open spec fn links_stay(force: ForceSpec, n: int) -> bool {
    force matches ForceSpec::Link { links, .. } ==> forall|e: int|
        0 <= e < links@.len() ==> (#[trigger] links@[e]).0 < n && links@[e].1 < n
}

/// Whether all forces link nodes among `0..n` only.
pub open spec fn all_links_stay(forces: Seq<(String, ForceSpec)>, n: int) -> bool {
    forall|k: int| 0 <= k < forces.len() ==> links_stay((#[trigger] forces[k]).1, n)
}

proof fn lemma_links_outside(forces: Seq<(String, ForceSpec)>, n: int, k: int)
    ensures
        plan::links_outside(forces, n, k) <==> !links_stay(forces[k].1, n),
{
    if let ForceSpec::Link { links, .. } = forces[k].1 {
        meaning::law_links_in_range(links@, n);
    }
}

/// The GPU takes a configuration exactly if its forces are of different sorts and link
/// nodes that exist.
pub proof fn law_taken_configurations(forces: Seq<(String, ForceSpec)>, n: int)
    ensures
        plan::accepted(forces, n) <==> unlike(forces) && all_links_stay(forces, n),
{
    if plan::accepted(forces, n) {
        assert forall|i: int, j: int| 0 <= i < j < forces.len() implies (
        #[trigger] forces[i]).1.spec_kind() != (#[trigger] forces[j]).1.spec_kind() by {
            assert(!plan::faulty(forces, n, j));
        }
        assert forall|k: int| 0 <= k < forces.len() implies links_stay(
            (#[trigger] forces[k]).1,
            n,
        ) by {
            assert(!plan::faulty(forces, n, k));
            lemma_links_outside(forces, n, k);
        }
    }
    if unlike(forces) && all_links_stay(forces, n) {
        assert forall|k: int| 0 <= k < forces.len() implies !#[trigger] plan::faulty(
            forces,
            n,
            k,
        ) by {
            lemma_links_outside(forces, n, k);
            assert(links_stay(forces[k].1, n));
            if plan::repeated(forces, k) {
                let j = choose|j: int|
                    0 <= j < k && (#[trigger] forces[j]).1.spec_kind() == forces[k].1.spec_kind();
                assert(forces[j].1.spec_kind() != forces[k].1.spec_kind());
            }
        }
    }
}

/// Whether `text` is what is wrong with a configuration, and force `k` the first that is
/// wrong: it is of the sort of an earlier force, or else its first stray link is named.
pub open spec fn blames(
    forces: Seq<(String, ForceSpec)>,
    n: int,
    k: int,
    text: Seq<char>,
) -> bool {
    &&& 0 <= k < forces.len()
    &&& unlike(forces.take(k))
    &&& all_links_stay(forces.take(k), n)
    &&& if unlike(forces.take(k + 1)) {
        forces[k].1 matches ForceSpec::Link { links, .. } && exists|l: int|
            {
                &&& 0 <= l < links@.len()
                &&& (#[trigger] links@[l]).0 >= n || links@[l].1 >= n
                &&& forall|d: int| 0 <= d < l ==> (#[trigger] links@[d]).0 < n && links@[d].1 < n
                &&& meaning::names_link(text, links@[l])
            }
    } else {
        text == "more than one force of the same kind"@
    }
}

/// A check succeeds exactly on the configurations that the GPU takes, and otherwise
/// blames the first force that is wrong.
pub proof fn law_check_blames_the_first(
    forces: &Vec<(String, ForceSpec)>,
    n: usize,
    r: Result<(), GpuError>,
)
    requires
        call_ensures(plan::check_forces, (forces, n), r),
    ensures
        r is Ok <==> unlike(forces@) && all_links_stay(forces@, n as int),
        r matches Err(e) ==> plan::refused(forces@, n as int, e) && (e matches GpuError::Unsupported(
            text,
        ) && exists|k: int| #[trigger] blames(forces@, n as int, k, text@)),
{
    law_taken_configurations(forces@, n as int);
    if let Err(e) = r {
        law_refusals(forces@, n as int, e);
        let k = choose|k: int| #[trigger] plan::first_fault(forces@, n as int, k);
        assert(plan::faulty(forces@, n as int, k));
    }
}

/// A refusal blames the first force that is wrong.
pub proof fn law_refusals(forces: Seq<(String, ForceSpec)>, n: int, e: GpuError)
    requires
        plan::refused(forces, n, e),
    ensures
        e matches GpuError::Unsupported(text) && exists|k: int| #[trigger]
            blames(forces, n, k, text@),
{
    let k = choose|k: int| #[trigger]
        plan::first_fault(forces, n, k) && plan::fault_error(forces, n, k, e);
    let text = e->Unsupported_0;
    let before = forces.take(k);
    let upto = forces.take(k + 1);
    assert forall|i: int, j: int| 0 <= i < j < before.len() implies (
    #[trigger] before[i]).1.spec_kind() != (#[trigger] before[j]).1.spec_kind() by {
        assert(!plan::faulty(forces, n, j));
        assert(forces[i].1.spec_kind() != forces[j].1.spec_kind());
    }
    assert forall|j: int| 0 <= j < before.len() implies links_stay(
        (#[trigger] before[j]).1,
        n,
    ) by {
        assert(!plan::faulty(forces, n, j));
        lemma_links_outside(forces, n, j);
    }
    if plan::repeated(forces, k) {
        let i = choose|i: int|
            0 <= i < k && (#[trigger] forces[i]).1.spec_kind() == forces[k].1.spec_kind();
        assert(upto[i].1.spec_kind() == upto[k].1.spec_kind());
        assert(!unlike(upto));
    } else {
        assert(unlike(upto)) by {
            assert forall|i: int, j: int| 0 <= i < j < upto.len() implies (
            #[trigger] upto[i]).1.spec_kind() != (#[trigger] upto[j]).1.spec_kind() by {
                if j == k {
                    assert(forces[i].1.spec_kind() != forces[k].1.spec_kind());
                } else {
                    assert(before[i].1.spec_kind() != before[j].1.spec_kind());
                }
            }
        }
        if let ForceSpec::Link { links, .. } = forces[k].1 {
            let l = choose|l: int|
                {
                    &&& 0 <= l < links@.len()
                    &&& !#[trigger] graph::link_in_range(links@, n, l)
                    &&& forall|d: int| 0 <= d < l ==> #[trigger] graph::link_in_range(links@, n, d)
                    &&& text@ == crate::adapter::endpoint_text(links@[l])
                };
            meaning::lemma_names_link(links@[l]);
            assert forall|d: int| 0 <= d < l implies (#[trigger] links@[d]).0 < n && links@[d].1
                < n by {
                assert(graph::link_in_range(links@, n, d));
            }
            assert(links@[l].0 >= n || links@[l].1 >= n);
        }
    }
    assert(blames(forces, n, k, text@));
}

/// The counts of links fit if their ends can be counted in 32 bits, and so can the ends
/// at the two nodes of each link.
pub proof fn law_counts_fit(links: Seq<(u32, u32)>)
    ensures
        plan::counts_fit(links) <==> 2 * links.len() <= u32::MAX && forall|e: int|
            0 <= e < links.len() ==> graph::degree(links, (#[trigger] links[e]).0 as int)
                + graph::degree(links, links[e].1 as int) <= u32::MAX,
{
    if plan::counts_fit(links) {
        assert forall|e: int| 0 <= e < links.len() implies graph::degree(
            links,
            (#[trigger] links[e]).0 as int,
        ) + graph::degree(links, links[e].1 as int) <= u32::MAX by {
            assert(graph::degree(links, links[e].0 as int) + graph::degree(
                links,
                links[e].1 as int,
            ) <= u32::MAX);
        }
    }
}

/// The parameters of a force are there if every list among them has an entry for each
/// node, or for each link, and the counts fit.
pub proof fn law_sized_forces(force: ForceSpec, n: int)
    ensures
        plan::sized(force, n) <==> match force {
            ForceSpec::ManyBody { strength: a, .. } => a is Each ==> a->Each_0@.len() == n,
            ForceSpec::Link { links, distance: a, strength: b, .. } => {
                &&& a is Each ==> a->Each_0@.len() == links@.len()
                &&& b is Some && b->0 is Each ==> (b->0)->Each_0@.len() == links@.len()
                &&& plan::counts_fit(links@)
            },
            ForceSpec::Collide { radius: a, iterations, .. } => (a is Each ==> a->Each_0@.len()
                == n) && iterations < u32::MAX,
            ForceSpec::X { x: a, strength: b } => (a is Each ==> a->Each_0@.len() == n) && (b is Each
                ==> b->Each_0@.len() == n),
            ForceSpec::Y { y: a, strength: b } => (a is Each ==> a->Each_0@.len() == n) && (b is Each
                ==> b->Each_0@.len() == n),
            ForceSpec::Center { .. } => true,
            ForceSpec::Radial { radius: a, strength: b, .. } => (a is Each ==> a->Each_0@.len()
                == n) && (b is Each ==> b->Each_0@.len() == n),
        },
{
}

/// A configuration that the GPU takes can be planned exactly if the parameters of all its
/// forces are there.
pub proof fn law_planned_configurations(
    forces: &Vec<(String, ForceSpec)>,
    n: usize,
    r: bool,
)
    requires
        call_ensures(plan::is_plannable, (forces, n), r),
        unlike(forces@),
        all_links_stay(forces@, n as int),
    ensures
        r == plan::plannable(forces@, n as int),
        r <==> forall|k: int|
            0 <= k < forces@.len() ==> plan::sized((#[trigger] forces@[k]).1, n as int),
{
    law_taken_configurations(forces@, n as int);
    if r {
        assert forall|k: int| 0 <= k < forces@.len() implies plan::sized(
            (#[trigger] forces@[k]).1,
            n as int,
        ) by {
            assert(forall|j: int| 0 <= j <= k ==> !#[trigger] plan::faulty(forces@, n as int, j));
        }
    }
}

proof fn lemma_kind_at(forces: Seq<(String, ForceSpec)>, n: int, k: int)
    requires
        plan::accepted(forces, n),
        0 <= k < forces.len(),
    ensures
        plan::of_kind(forces, forces[k].1.spec_kind()) == Some(forces[k].1),
{
    law_taken_configurations(forces, n);
    laws::lemma_of_kind_at(forces, forces[k].1.spec_kind(), k);
}

/// The force of a sort is found if there is one, and is the last of its sort.
pub proof fn law_found_force(forces: &Vec<(String, ForceSpec)>, kind: Kind, r: Option<&ForceSpec>)
    requires
        call_ensures(plan::find_kind, (forces, kind), r),
    ensures
        r matches Some(f) ==> exists|k: int|
            {
                &&& 0 <= k < forces@.len()
                &&& (#[trigger] forces@[k]).1 == *f
                &&& f.spec_kind() == kind
                &&& forall|j: int|
                    k < j < forces@.len() ==> (#[trigger] forces@[j]).1.spec_kind() != kind
            },
        r is None ==> forall|k: int|
            0 <= k < forces@.len() ==> (#[trigger] forces@[k]).1.spec_kind() != kind,
{
    let k = lemma_last_of_kind(forces@, kind);
    if let Some(f) = r {
        assert(forces@[k].1 == *f);
    }
}

proof fn lemma_last_of_kind(forces: Seq<(String, ForceSpec)>, kind: Kind) -> (k: int)
    ensures
        plan::of_kind(forces, kind) matches Some(f) ==> {
            &&& 0 <= k < forces.len()
            &&& forces[k].1 == f
            &&& f.spec_kind() == kind
            &&& forall|j: int| k < j < forces.len() ==> (#[trigger] forces[j]).1.spec_kind() != kind
        },
        plan::of_kind(forces, kind) is None ==> forall|j: int|
            0 <= j < forces.len() ==> (#[trigger] forces[j]).1.spec_kind() != kind,
    decreases forces.len(),
{
    if forces.len() == 0 {
        0
    } else {
        let last = forces.len() - 1;
        let before = forces.drop_last();
        let k = lemma_last_of_kind(before, kind);
        if forces[last].1.spec_kind() == kind {
            last
        } else {
            assert forall|j: int|
                (plan::of_kind(forces, kind) is Some && k < j < forces.len()) || (plan::of_kind(
                    forces,
                    kind,
                ) is None && 0 <= j < forces.len()) implies (#[trigger] forces[j]).1.spec_kind()
                != kind by {
                if j < last {
                    assert(before[j].1.spec_kind() != kind);
                }
            }
            k
        }
    }
}

// ---- node buffers -------------------------------------------------------

/// A number, unless what it is for is unset: then zero.
pub open spec fn unless_unset(target: F32, value: F32, r: F32) -> bool {
    &&& target.spec_is_nan() ==> r == (F32 { bits: 0 })
    &&& !target.spec_is_nan() ==> r == value
}

/// Every force has its parameters in its own slots of a node's row: charge in 0, radius
/// of collision in 1, target and pull of x in 2 and 3, of y in 4 and 5, circle and pull
/// of radial in 6 and 7. A pull whose target is unset is zero.
pub proof fn law_node_rows(
    r: Seq<F32>,
    forces: Seq<(String, ForceSpec)>,
    nodes: Seq<NodeInit>,
    k: int,
    i: int,
)
    requires
        plan::is_node_buffer(r, forces, nodes),
        plan::accepted(forces, nodes.len() as int),
        0 <= k < forces.len(),
        0 <= i < nodes.len(),
    ensures
        r.len() == 12 * nodes.len(),
        match forces[k].1 {
            ForceSpec::ManyBody { strength, .. } => r[12 * i] == strength.at(i),
            ForceSpec::Collide { radius, .. } => r[12 * i + 1] == radius.at(i),
            ForceSpec::X { x, strength } => {
                &&& unless_unset(x.at(i), x.at(i), r[12 * i + 2])
                &&& unless_unset(x.at(i), strength.at(i), r[12 * i + 3])
            },
            ForceSpec::Y { y, strength } => {
                &&& unless_unset(y.at(i), y.at(i), r[12 * i + 4])
                &&& unless_unset(y.at(i), strength.at(i), r[12 * i + 5])
            },
            ForceSpec::Radial { radius, strength, .. } => {
                &&& r[12 * i + 6] == radius.at(i)
                &&& unless_unset(radius.at(i), strength.at(i), r[12 * i + 7])
            },
            _ => true,
        },
{
    lemma_kind_at(forces, nodes.len() as int, k);
    lemma_row(r, forces, nodes, i);
}

proof fn lemma_row(r: Seq<F32>, forces: Seq<(String, ForceSpec)>, nodes: Seq<NodeInit>, i: int)
    requires
        plan::is_node_buffer(r, forces, nodes),
        0 <= i < nodes.len(),
    ensures
        forall|slot: int|
            0 <= slot < 12 ==> r[12 * i + slot] == #[trigger] plan::node_slot(
                forces,
                nodes[i],
                i,
                slot,
            ),
        r[12 * i] == plan::node_slot(forces, nodes[i], i, 0),
        r[12 * i + 1] == plan::node_slot(forces, nodes[i], i, 1),
        r[12 * i + 2] == plan::node_slot(forces, nodes[i], i, 2),
        r[12 * i + 3] == plan::node_slot(forces, nodes[i], i, 3),
        r[12 * i + 4] == plan::node_slot(forces, nodes[i], i, 4),
        r[12 * i + 5] == plan::node_slot(forces, nodes[i], i, 5),
        r[12 * i + 6] == plan::node_slot(forces, nodes[i], i, 6),
        r[12 * i + 7] == plan::node_slot(forces, nodes[i], i, 7),
        r[12 * i + 8] == plan::node_slot(forces, nodes[i], i, 8),
        r[12 * i + 9] == plan::node_slot(forces, nodes[i], i, 9),
        r[12 * i + 10] == plan::node_slot(forces, nodes[i], i, 10),
        r[12 * i + 11] == plan::node_slot(forces, nodes[i], i, 11),
{
    assert(r[12 * i + 0] == plan::node_slot(forces, nodes[i], i, 0));
}

/// The slots of a sort of force that is not there hold zero.
pub proof fn law_absent_forces(
    r: Seq<F32>,
    forces: Seq<(String, ForceSpec)>,
    nodes: Seq<NodeInit>,
    i: int,
)
    requires
        plan::is_node_buffer(r, forces, nodes),
        0 <= i < nodes.len(),
    ensures
        (forall|k: int| 0 <= k < forces.len() ==> !((#[trigger] forces[k]).1 is ManyBody))
            ==> r[12 * i] == (F32 { bits: 0 }),
        (forall|k: int| 0 <= k < forces.len() ==> !((#[trigger] forces[k]).1 is Collide)) ==> r[12
            * i + 1] == (F32 { bits: 0 }),
        (forall|k: int| 0 <= k < forces.len() ==> !((#[trigger] forces[k]).1 is X)) ==> r[12 * i
            + 2] == (F32 { bits: 0 }) && r[12 * i + 3] == (F32 { bits: 0 }),
        (forall|k: int| 0 <= k < forces.len() ==> !((#[trigger] forces[k]).1 is Y)) ==> r[12 * i
            + 4] == (F32 { bits: 0 }) && r[12 * i + 5] == (F32 { bits: 0 }),
        (forall|k: int| 0 <= k < forces.len() ==> !((#[trigger] forces[k]).1 is Radial)) ==> r[12
            * i + 6] == (F32 { bits: 0 }) && r[12 * i + 7] == (F32 { bits: 0 }),
{
    lemma_row(r, forces, nodes, i);
    let a = lemma_last_of_kind(forces, Kind::ManyBody);
    let b = lemma_last_of_kind(forces, Kind::Collide);
    let c = lemma_last_of_kind(forces, Kind::X);
    let d = lemma_last_of_kind(forces, Kind::Y);
    let e = lemma_last_of_kind(forces, Kind::Radial);
    assert(plan::of_kind(forces, Kind::ManyBody) is Some ==> forces[a].1 is ManyBody);
    assert(plan::of_kind(forces, Kind::Collide) is Some ==> forces[b].1 is Collide);
    assert(plan::of_kind(forces, Kind::X) is Some ==> forces[c].1 is X);
    assert(plan::of_kind(forces, Kind::Y) is Some ==> forces[d].1 is Y);
    assert(plan::of_kind(forces, Kind::Radial) is Some ==> forces[e].1 is Radial);
}

/// Whether four numbers say that a node is fixed at `(fx, fy)`: on each axis, where it is
/// fixed and a one, or two zeros if it is free.
pub open spec fn says_fixed(fx: F32, fy: F32, a: F32, b: F32, c: F32, d: F32) -> bool {
    &&& fx.spec_is_nan() ==> a == (F32 { bits: 0 }) && c == (F32 { bits: 0 })
    &&& !fx.spec_is_nan() ==> a == fx && c == (F32 { bits: 0x3f80_0000 })
    &&& fy.spec_is_nan() ==> b == (F32 { bits: 0 }) && d == (F32 { bits: 0 })
    &&& !fy.spec_is_nan() ==> b == fy && d == (F32 { bits: 0x3f80_0000 })
}

/// The last four slots of a node's row say where the node is fixed.
pub proof fn law_packed_pins(
    r: Seq<F32>,
    forces: Seq<(String, ForceSpec)>,
    nodes: Seq<NodeInit>,
    i: int,
)
    requires
        plan::is_node_buffer(r, forces, nodes),
        0 <= i < nodes.len(),
    ensures
        says_fixed(
            nodes[i].fx,
            nodes[i].fy,
            r[12 * i + 8],
            r[12 * i + 9],
            r[12 * i + 10],
            r[12 * i + 11],
        ),
{
    lemma_row(r, forces, nodes, i);
}

/// The slots of a pin say where it is.
pub proof fn law_pin_slots(fx: F32, fy: F32, r: [F32; 4])
    requires
        call_ensures(plan::pin_slots, (fx, fy), r),
    ensures
        says_fixed(fx, fy, r@[0], r@[1], r@[2], r@[3]),
        says_fixed(
            fx,
            fy,
            plan::pin_slot(fx, fy, 8),
            plan::pin_slot(fx, fy, 9),
            plan::pin_slot(fx, fy, 10),
            plan::pin_slot(fx, fy, 11),
        ),
{
    assert(r@[0] == plan::pin_slot(fx, fy, 0int + 8));
    assert(r@[1] == plan::pin_slot(fx, fy, 1int + 8));
    assert(r@[2] == plan::pin_slot(fx, fy, 2int + 8));
    assert(r@[3] == plan::pin_slot(fx, fy, 3int + 8));
}

/// What is packed for nodes is their node buffer.
pub proof fn law_packed_nodes(forces: &Vec<(String, ForceSpec)>, nodes: &[NodeInit], r: Vec<F32>)
    requires
        call_ensures(plan::pack_nodes, (forces, nodes), r),
    ensures
        plan::is_node_buffer(r@, forces@, nodes@),
{
}

// ---- where nodes start --------------------------------------------------

/// A node starts where it is fixed, on other axes where it is put, and if that leaves a
/// coordinate open, at the point of the spiral with the node's own number.
pub proof fn law_starts(r: Seq<Scalar>, nodes: Seq<NodeInit>, i: int)
    requires
        plan::is_start(r, nodes),
        0 <= i < nodes.len() <= usize::MAX,
    ensures
        r.len() == 2 * nodes.len(),
        ({
            let node = nodes[i];
            let open_x = node.fx.spec_is_nan() && node.x.spec_is_nan();
            let open_y = node.fy.spec_is_nan() && node.y.spec_is_nan();
            &&& open_x || open_y ==> r[2 * i] == Scalar::SpiralX(i as usize) && r[2 * i + 1]
                == Scalar::SpiralY(i as usize)
            &&& !open_x && !open_y && !node.fx.spec_is_nan() ==> r[2 * i] == Scalar::Value(node.fx)
            &&& !open_x && !open_y && node.fx.spec_is_nan() ==> r[2 * i] == Scalar::Value(node.x)
            &&& !open_x && !open_y && !node.fy.spec_is_nan() ==> r[2 * i + 1] == Scalar::Value(
                node.fy,
            )
            &&& !open_x && !open_y && node.fy.spec_is_nan() ==> r[2 * i + 1] == Scalar::Value(
                node.y,
            )
        }),
{
    assert((r[2 * i], r[2 * i + 1]) == plan::start(nodes[i], i));
}

/// Two nodes that start on the spiral never start at the same point of it.
pub proof fn law_spiral_points_differ(r: Seq<Scalar>, nodes: Seq<NodeInit>, i: int, j: int)
    requires
        plan::is_start(r, nodes),
        0 <= i < nodes.len() <= usize::MAX,
        0 <= j < nodes.len(),
        i != j,
        r[2 * i] is SpiralX,
        r[2 * j] is SpiralX,
    ensures
        r[2 * i]->SpiralX_0 != r[2 * j]->SpiralX_0,
        r[2 * i + 1] is SpiralY,
        r[2 * i + 1]->SpiralY_0 == r[2 * i]->SpiralX_0,
{
    law_starts(r, nodes, i);
    law_starts(r, nodes, j);
}

/// What is planned as the start of nodes is their start.
pub proof fn law_planned_starts(nodes: &[NodeInit], r: Vec<Scalar>)
    requires
        call_ensures(plan::start_positions, (nodes,), r),
    ensures
        plan::is_start(r@, nodes@),
{
}

// ---- passes -------------------------------------------------------------

/// Every force has one pass, of its sort, in its place. Links are swept as often as
/// configured and at least once; collisions once more than that.
pub proof fn law_passes(r: Seq<Pass>, forces: Seq<(String, ForceSpec)>, k: int)
    requires
        r == plan::passes_of(forces),
        0 <= k < forces.len(),
    ensures
        r.len() == forces.len(),
        match forces[k].1 {
            ForceSpec::ManyBody { .. } => r[k] is ManyBody,
            ForceSpec::Link { iterations, .. } => {
                &&& r[k] is Link
                &&& iterations >= 1 ==> r[k]->Link_iterations == iterations
                &&& iterations == 0 ==> r[k]->Link_iterations == 1
            },
            ForceSpec::Collide { iterations, .. } => {
                &&& r[k] is Collide
                &&& 1 <= iterations < u32::MAX ==> r[k]->Collide_iterations == iterations + 1
                &&& iterations == 0 ==> r[k]->Collide_iterations == 2
            },
            ForceSpec::X { .. } => r[k] is X,
            ForceSpec::Y { .. } => r[k] is Y,
            ForceSpec::Center { .. } => r[k] is Center,
            ForceSpec::Radial { .. } => r[k] is Radial,
        },
{
}

/// What is listed as the passes of forces are their passes.
pub proof fn law_listed_passes(forces: &Vec<(String, ForceSpec)>, n: usize, r: Vec<Pass>)
    requires
        call_ensures(plan::list_passes, (forces, n), r),
    ensures
        r@ == plan::passes_of(forces@),
{
}

/// There are just as many workgroups of 256 threads as it takes to have one thread for
/// each node.
pub proof fn law_workgroups(n: u32, r: u32)
    requires
        call_ensures(plan::groups, (n,), r),
    ensures
        r == plan::spec_groups(n),
        256 * r >= n,
        r > 0 ==> 256 * (r - 1) < n,
{
}

// ---- parameters ---------------------------------------------------------

/// The parameters begin with the nodes and links counted, the alpha of the configuration,
/// the part of its velocity that a node keeps, no tick made, and the offsets of the
/// tables of the word buffer, which follow one another.
pub proof fn law_starting_parameters(p: Params, config: Config, n: int)
    requires
        p == plan::params_of(config, n),
        0 <= n <= u32::MAX,
        plan::links_of(config.forces@).len() <= u32::MAX,
    ensures
        p.n == n,
        p.m == plan::links_of(config.forces@).len(),
        p.alpha == config.alpha,
        p.velocity_decay == Scalar::OneMinus(config.velocity_decay),
        p.tick == 0,
        256 * p.groups >= n,
        p.groups > 0 ==> 256 * (p.groups - 1) < n,
        p.ptr_off == 0,
        n < u32::MAX ==> p.idx_off == p.ptr_off + n + 1,
        n + 1 + 2 * p.m <= u32::MAX ==> p.ends_off == p.idx_off + 2 * p.m,
{
}

/// Every force has its parameters among those that all nodes share: the squares of its
/// distances, an infinite or unset one as infinity, its strength, its centre.
pub proof fn law_shared_parameters(p: Params, config: Config, n: int, k: int)
    requires
        p == plan::params_of(config, n),
        plan::accepted(config.forces@, n),
        0 <= k < config.forces@.len(),
    ensures
        match config.forces@[k].1 {
            ForceSpec::ManyBody { distance_min, distance_max, .. } => {
                &&& p.distance_min2 == Scalar::Square(distance_min)
                &&& distance_max.spec_is_finite() ==> p.distance_max2 == Scalar::Square(
                    distance_max,
                )
                &&& !distance_max.spec_is_finite() ==> p.distance_max2 == Scalar::Value(
                    F32 { bits: 0x7f80_0000 },
                )
            },
            ForceSpec::Collide { strength, .. } => p.collide_strength == strength,
            ForceSpec::Center { x, y, strength } => {
                &&& p.center_x == x
                &&& p.center_y == y
                &&& p.center_strength == strength
            },
            ForceSpec::Radial { x, y, .. } => p.radial_x == x && p.radial_y == y,
            _ => true,
        },
{
    lemma_kind_at(config.forces@, n, k);
}

/// A sort of force that is not there leaves its defaults: distances from one without
/// limit, full strength, centre at the origin.
pub proof fn law_default_parameters(p: Params, config: Config, n: int)
    requires
        p == plan::params_of(config, n),
    ensures
        (forall|k: int|
            0 <= k < config.forces@.len() ==> !((#[trigger] config.forces@[k]).1 is ManyBody))
            ==> p.distance_min2 == Scalar::Value(F32 { bits: 0x3f80_0000 }) && p.distance_max2
            == Scalar::Value(F32 { bits: 0x7f80_0000 }),
        (forall|k: int|
            0 <= k < config.forces@.len() ==> !((#[trigger] config.forces@[k]).1 is Collide))
            ==> p.collide_strength == (F32 { bits: 0x3f80_0000 }),
        (forall|k: int|
            0 <= k < config.forces@.len() ==> !((#[trigger] config.forces@[k]).1 is Center))
            ==> p.center_strength == (F32 { bits: 0x3f80_0000 }) && p.center_x == (F32 { bits: 0 })
            && p.center_y == (F32 { bits: 0 }),
        (forall|k: int|
            0 <= k < config.forces@.len() ==> !((#[trigger] config.forces@[k]).1 is Radial))
            ==> p.radial_x == (F32 { bits: 0 }) && p.radial_y == (F32 { bits: 0 }),
{
    let forces = config.forces@;
    let a = lemma_last_of_kind(forces, Kind::ManyBody);
    let b = lemma_last_of_kind(forces, Kind::Collide);
    let c = lemma_last_of_kind(forces, Kind::Center);
    let d = lemma_last_of_kind(forces, Kind::Radial);
    assert(plan::of_kind(forces, Kind::ManyBody) is Some ==> forces[a].1 is ManyBody);
    assert(plan::of_kind(forces, Kind::Collide) is Some ==> forces[b].1 is Collide);
    assert(plan::of_kind(forces, Kind::Center) is Some ==> forces[c].1 is Center);
    assert(plan::of_kind(forces, Kind::Radial) is Some ==> forces[d].1 is Radial);
}

/// What parameters are started with are those of the configuration.
pub proof fn law_started_parameters(config: &Config, n: usize, r: Params)
    requires
        call_ensures(plan::start_params, (config, n), r),
    ensures
        r == plan::params_of(*config, n as int),
        r.m == plan::links_of(config.forces@).len(),
{
}

// ---- links --------------------------------------------------------------

/// The links of a configuration are those of its link force, if it has one.
pub proof fn law_links_of_configuration(forces: Seq<(String, ForceSpec)>, n: int, k: int)
    requires
        plan::accepted(forces, n),
    ensures
        0 <= k < forces.len() ==> (forces[k].1 matches ForceSpec::Link { links, .. }
            ==> plan::links_of(forces) == links@),
        (forall|j: int| 0 <= j < forces.len() ==> !((#[trigger] forces[j]).1 is Link))
            ==> plan::links_of(forces).len() == 0,
{
    if 0 <= k < forces.len() {
        lemma_kind_at(forces, n, k);
    }
    let j = lemma_last_of_kind(forces, Kind::Link);
    assert(plan::of_kind(forces, Kind::Link) is Some ==> forces[j].1 is Link);
}

/// Whether three numbers are those of link `e`: its distance; its strength, or else one
/// over the smaller of the degrees of its ends, which is at most either and is one of
/// them; and the share of all ends at its two nodes that sit at its source.
pub open spec fn says_link(
    links: Seq<(u32, u32)>,
    distance: Values,
    strength: Option<Values>,
    e: int,
    a: Scalar,
    b: Scalar,
    c: Scalar,
) -> bool {
    let s = graph::degree(links, links[e].0 as int);
    let t = graph::degree(links, links[e].1 as int);
    &&& a == Scalar::Value(distance.at(e))
    &&& strength matches Some(v) ==> b == Scalar::Value(v.at(e))
    &&& strength is None ==> {
        &&& b is Quotient
        &&& b->num == 1
        &&& b->den <= s
        &&& b->den <= t
        &&& b->den == s || b->den == t
    }
    &&& c is Quotient
    &&& c->num == s
    &&& c->den == s + t
}

/// The numbers that are packed for a link are its own.
pub proof fn law_packed_link(
    links: &Vec<(u32, u32)>,
    distance: &Values,
    strength: &Option<Values>,
    n: usize,
    r: Vec<Scalar>,
    e: int,
)
    requires
        call_ensures(plan::pack_link_numbers, (links, distance, strength, n), r),
        plan::counts_fit(links@),
        0 <= e < links@.len(),
    ensures
        r@.len() == 3 * links@.len(),
        says_link(
            links@,
            *distance,
            *strength,
            e,
            r@[3 * e],
            r@[3 * e + 1],
            r@[3 * e + 2],
        ),
{
    assert(r@[3 * e + 0] == plan::link_slot(links@, *distance, *strength, e, 0));
    assert(r@[3 * e + 1] == plan::link_slot(links@, *distance, *strength, e, 1));
    assert(r@[3 * e + 2] == plan::link_slot(links@, *distance, *strength, e, 2));
    lemma_degrees_fit(links@, e);
}

proof fn lemma_degrees_fit(links: Seq<(u32, u32)>, e: int)
    requires
        plan::counts_fit(links),
        0 <= e < links.len(),
    ensures
        graph::degree(links, links[e].0 as int) + graph::degree(links, links[e].1 as int)
            <= u32::MAX,
{
    law_counts_fit(links);
}

/// The number buffer of a configuration has, for each of its links, the link's own
/// numbers, and a single zero if it has none.
pub proof fn law_link_buffer(
    r: Seq<Scalar>,
    forces: Seq<(String, ForceSpec)>,
    n: int,
    k: int,
    e: int,
)
    requires
        plan::is_link_numbers(r, forces),
        plan::accepted(forces, n),
    ensures
        0 <= k < forces.len() ==> (forces[k].1 matches ForceSpec::Link {
            links,
            distance,
            strength,
            ..
        } ==> plan::counts_fit(links@) && 0 <= e < links@.len() ==> r.len() == 3 * links@.len()
            && says_link(
            links@,
            distance,
            strength,
            e,
            r[3 * e],
            r[3 * e + 1],
            r[3 * e + 2],
        )),
        plan::links_of(forces).len() == 0 ==> r.len() == 1 && r[0] == Scalar::Value(
            F32 { bits: 0 },
        ),
{
    if 0 <= k < forces.len() {
        lemma_kind_at(forces, n, k);
        if let ForceSpec::Link { links, distance, strength, .. } = forces[k].1 {
            if plan::counts_fit(links@) && 0 <= e < links@.len() {
                assert(r[3 * e + 0] == plan::link_slot(links@, distance, strength, e, 0));
                assert(r[3 * e + 1] == plan::link_slot(links@, distance, strength, e, 1));
                assert(r[3 * e + 2] == plan::link_slot(links@, distance, strength, e, 2));
                lemma_degrees_fit(links@, e);
            }
        }
    }
    let j = lemma_last_of_kind(forces, Kind::Link);
}

/// Without a given strength, the strength of a link does not depend on which of its ends
/// is the source; nor does that of any other link.
pub proof fn law_strength_undirected(
    links: &Vec<(u32, u32)>,
    turned: &Vec<(u32, u32)>,
    distance: &Values,
    n: usize,
    r: Vec<Scalar>,
    s: Vec<Scalar>,
    e: int,
)
    requires
        call_ensures(plan::pack_link_numbers, (links, distance, &None::<Values>, n), r),
        call_ensures(plan::pack_link_numbers, (turned, distance, &None::<Values>, n), s),
        plan::counts_fit(links@),
        plan::counts_fit(turned@),
        links@.len() == turned@.len(),
        forall|d: int|
            0 <= d < links@.len() ==> #[trigger] turned@[d] == links@[d] || turned@[d] == (
                links@[d].1,
                links@[d].0,
            ),
        0 <= e < links@.len(),
    ensures
        r@[3 * e + 1] == s@[3 * e + 1],
{
    law_packed_link(links, distance, &None::<Values>, n, r, e);
    law_packed_link(turned, distance, &None::<Values>, n, s, e);
    let (a, b) = links@[e];
    assert(turned@[e] == links@[e] || turned@[e] == (b, a));
    meaning::law_degree_undirected(links@, turned@, a as int);
    meaning::law_degree_undirected(links@, turned@, b as int);
}

/// The word buffer of links has three tables: where the row of each node begins, rows as
/// long as the degrees that list the links of each node, and the two ends of each link.
pub proof fn law_link_tables(r: Seq<u32>, links: Seq<(u32, u32)>, n: int, v: int, p: int, e: int)
    requires
        plan::is_link_words(r, links, n),
        graph::in_range(links, n),
        0 <= v < n,
    ensures
        r.len() == n + 1 + 4 * links.len(),
        r[0] == 0,
        r[v + 1] - r[v] == graph::degree(links, v),
        r[n] == 2 * links.len(),
        r[v] <= p < r[v + 1] ==> r[n + 1 + p] == graph::incident(links, v)[p - r[v]],
        0 <= e < links.len() ==> {
            &&& r[n + 1 + 2 * links.len() + 2 * e] == links[e].0
            &&& r[n + 1 + 2 * links.len() + 2 * e + 1] == links[e].1
        },
{
    graph::law_rows_partition(links, n, v);
    assert(r[0] == graph::offset(links, 0));
    assert(r[v] == graph::offset(links, v));
    assert(r[v + 1] == graph::offset(links, v + 1));
    assert(r[n] == graph::offset(links, n));
    if r[v] <= p < r[v + 1] {
        assert(plan::link_row(r, n, v) == graph::incident(links, v));
        assert(plan::link_row(r, n, v)[p - r[v]] == r[n + 1 + p]);
    }
    if 0 <= e < links.len() {
        assert(r[n + 1 + 2 * links.len() + 2 * e] == graph::endpoint(links, 2 * e));
        assert(r[n + 1 + 2 * links.len() + (2 * e + 1)] == graph::endpoint(links, 2 * e + 1));
    }
}

/// What is packed for links are their two buffers.
pub proof fn law_packed_links(
    forces: &Vec<(String, ForceSpec)>,
    n: usize,
    r: (Vec<u32>, Vec<Scalar>),
    links: &Vec<(u32, u32)>,
    words: Vec<u32>,
)
    requires
        call_ensures(plan::pack_links, (forces, n), r),
        call_ensures(plan::pack_link_words, (links, n), words),
    ensures
        plan::is_link_words(r.0@, plan::links_of(forces@), n as int),
        plan::is_link_numbers(r.1@, forces@),
        plan::is_link_words(words@, links@, n as int),
{
}

} // verus!
