//! The CPU simulation of a configuration, as a list of what the engine is given.

use crate::graph;
use crate::model::{Config, ForceSpec, NodeInit, Values};
use crate::number::F32;
use vstd::prelude::*;

verus! {

/// A node as the engine takes it.
#[derive(Clone, Copy, Debug, PartialEq)]
pub struct CpuNode {
    pub x: F32,
    pub y: F32,
    pub vx: F32,
    pub vy: F32,
    pub fx: F32,
    pub fy: F32,
}

/// A force as the engine takes it.
#[derive(Debug, PartialEq)]
pub enum CpuForce {
    ManyBody { strength: Values, theta: F32, distance_min: F32, distance_max: F32 },
    /// Without a `strength` the engine keeps its default.
    Link {
        links: Vec<(usize, usize)>,
        distance: Values,
        strength: Option<Values>,
        iterations: usize,
    },
    Collide { radius: Values, strength: F32, iterations: usize },
    X { x: Values, strength: Values },
    Y { y: Values, strength: Values },
    Center { x: F32, y: F32, strength: F32 },
    Radial { radius: Values, x: F32, y: F32, strength: Values },
}

/// A CPU simulation, described by everything that the engine is given: nodes,
/// parameters, and forces in the order in which they are installed.
#[derive(Debug, PartialEq)]
pub struct CpuModel {
    pub nodes: Vec<CpuNode>,
    pub alpha: F32,
    pub alpha_min: F32,
    pub alpha_decay: F32,
    pub alpha_target: F32,
    pub velocity_decay: F32,
    pub forces: Vec<(String, CpuForce)>,
}

/// The node that the engine is given for `node`: at rest.
pub open spec fn node_of(node: NodeInit) -> CpuNode {
    CpuNode {
        x: node.x,
        y: node.y,
        vx: F32::zero(),
        vy: F32::zero(),
        fx: node.fx,
        fy: node.fy,
    }
}

impl CpuForce {
    /// Whether this is `force` with the same parameters.
    pub open spec fn renders(self, force: ForceSpec) -> bool {
        match (self, force) {
            (
                CpuForce::ManyBody { strength, theta, distance_min, distance_max },
                ForceSpec::ManyBody { strength: s, theta: t, distance_min: d, distance_max: e },
            ) => strength.same(s) && theta == t && distance_min == d && distance_max == e,
            (
                CpuForce::Link { links, distance, strength, iterations },
                ForceSpec::Link { links: l, distance: d, strength: s, iterations: i },
            ) => {
                &&& links@ == Seq::new(l@.len(), |e: int| (l@[e].0 as usize, l@[e].1 as usize))
                &&& distance.same(d)
                &&& match (strength, s) {
                    (Some(v), Some(w)) => v.same(w),
                    (None, None) => true,
                    _ => false,
                }
                &&& iterations == i
            },
            (
                CpuForce::Collide { radius, strength, iterations },
                ForceSpec::Collide { radius: r, strength: s, iterations: i },
            ) => radius.same(r) && strength == s && iterations == i,
            (CpuForce::X { x, strength }, ForceSpec::X { x: v, strength: s }) => x.same(v)
                && strength.same(s),
            (CpuForce::Y { y, strength }, ForceSpec::Y { y: v, strength: s }) => y.same(v)
                && strength.same(s),
            (
                CpuForce::Center { x, y, strength },
                ForceSpec::Center { x: v, y: w, strength: s },
            ) => x == v && y == w && strength == s,
            (
                CpuForce::Radial { radius, x, y, strength },
                ForceSpec::Radial { radius: r, x: v, y: w, strength: s },
            ) => radius.same(r) && x == v && y == w && strength.same(s),
            _ => false,
        }
    }
}

/// Which of the forces of the given names are in effect, in their order, once the
/// engine has been given all of them: a force takes the place of an earlier one of
/// its name.
pub open spec fn in_effect(names: Seq<Seq<char>>) -> Seq<int>
    decreases names.len(),
{
    if names.len() == 0 {
        Seq::empty()
    } else {
        let before = in_effect(names.drop_last());
        let last = names.len() - 1;
        if exists|slot: int| 0 <= slot < before.len() && names[#[trigger] before[slot]] == names[last] {
            let slot = choose|slot: int|
                0 <= slot < before.len() && names[#[trigger] before[slot]] == names[last];
            before.update(slot, last)
        } else {
            before.push(last)
        }
    }
}

impl CpuModel {
    /// The names of the forces.
    pub open spec fn names(self) -> Seq<Seq<char>> {
        Seq::new(self.forces@.len(), |k: int| self.forces@[k].0@)
    }

    /// The forces that every tick applies, in their order.
    pub open spec fn applied(self) -> Seq<CpuForce> {
        let slots = in_effect(self.names());
        Seq::new(slots.len(), |k: int| self.forces@[slots[k]].1)
    }

    /// Whether this is the CPU simulation of a configuration.
    pub open spec fn describes(self, nodes: Seq<NodeInit>, config: Config) -> bool {
        &&& self.nodes@ == Seq::new(nodes.len(), |i: int| node_of(nodes[i]))
        &&& self.alpha == config.alpha
        &&& self.alpha_min == config.alpha_min
        &&& self.alpha_decay == config.alpha_decay
        &&& self.alpha_target == config.alpha_target
        &&& self.velocity_decay == config.velocity_decay
        &&& self.forces@.len() == config.forces@.len()
        &&& forall|k: int|
            0 <= k < config.forces@.len() ==> {
                &&& (#[trigger] self.forces@[k]).0@ == config.forces@[k].0@
                &&& self.forces@[k].1.renders(config.forces@[k].1)
            }
    }
}

/// Forces of different names are all in effect, in the order in which they were
/// given.
pub proof fn law_names_keep_order(names: Seq<Seq<char>>)
    requires
        forall|i: int, j: int| 0 <= i < j < names.len() ==> names[i] != names[j],
    ensures
        in_effect(names) == Seq::new(names.len(), |k: int| k),
    decreases names.len(),
{
    if names.len() > 0 {
        let before = names.drop_last();
        assert forall|i: int, j: int| 0 <= i < j < before.len() implies before[i] != before[j] by {
            assert(names[i] != names[j]);
        }
        law_names_keep_order(before);
        let slots = in_effect(before);
        assert forall|slot: int| 0 <= slot < slots.len() implies names[#[trigger] slots[slot]]
            != names[names.len() - 1] by {
            assert(slots[slot] == slot);
        }
        assert(in_effect(names) =~= Seq::new(names.len(), |k: int| k));
    } else {
        assert(in_effect(names) =~= Seq::new(names.len(), |k: int| k));
    }
}

/// Whether every link force stays among the nodes `0..n`.
pub open spec fn buildable(forces: Seq<(String, ForceSpec)>, n: int) -> bool {
    forall|k: int|
        0 <= k < forces.len() ==> ((#[trigger] forces[k]).1 matches ForceSpec::Link { links, .. }
            ==> graph::in_range(links@, n))
}

/// Whether every link force stays among the nodes `0..n`.
pub fn is_buildable(forces: &Vec<(String, ForceSpec)>, n: usize) -> (r: bool)
    ensures
        r == buildable(forces@, n as int),
{
    let mut k: usize = 0;
    while k < forces.len()
        invariant
            k <= forces@.len(),
            forall|j: int|
                0 <= j < k ==> ((#[trigger] forces@[j]).1 matches ForceSpec::Link { links, .. }
                    ==> graph::in_range(links@, n as int)),
        decreases forces@.len() - k,
    {
        if let ForceSpec::Link { links, .. } = &forces[k].1 {
            if graph::first_out_of_range(links, n).is_some() {
                assert(!graph::in_range(links@, n as int));
                assert(forces@[k as int].1 is Link);
                return false;
            }
        }
        k += 1;
    }
    true
}

fn wide_links(links: &Vec<(u32, u32)>) -> (r: Vec<(usize, usize)>)
    ensures
        r@ == Seq::new(links@.len(), |e: int| (links@[e].0 as usize, links@[e].1 as usize)),
{
    let mut r: Vec<(usize, usize)> = Vec::with_capacity(links.len());
    let mut e: usize = 0;
    while e < links.len()
        invariant
            e <= links@.len(),
            r@ =~= Seq::new(e as nat, |d: int| (links@[d].0 as usize, links@[d].1 as usize)),
        decreases links@.len() - e,
    {
        let (s, t) = links[e];
        r.push((s as usize, t as usize));
        e += 1;
    }
    r
}

/// The force that the engine is given for `force`.
pub fn render(force: &ForceSpec) -> (r: CpuForce)
    ensures
        r.renders(*force),
{
    match force {
        ForceSpec::ManyBody { strength, theta, distance_min, distance_max } => CpuForce::ManyBody {
            strength: strength.duplicate(),
            theta: *theta,
            distance_min: *distance_min,
            distance_max: *distance_max,
        },
        ForceSpec::Link { links, distance, strength, iterations } => CpuForce::Link {
            links: wide_links(links),
            distance: distance.duplicate(),
            strength: match strength {
                Some(s) => Some(s.duplicate()),
                None => None,
            },
            iterations: *iterations as usize,
        },
        ForceSpec::Collide { radius, strength, iterations } => CpuForce::Collide {
            radius: radius.duplicate(),
            strength: *strength,
            iterations: *iterations as usize,
        },
        ForceSpec::X { x, strength } => CpuForce::X {
            x: x.duplicate(),
            strength: strength.duplicate(),
        },
        ForceSpec::Y { y, strength } => CpuForce::Y {
            y: y.duplicate(),
            strength: strength.duplicate(),
        },
        ForceSpec::Center { x, y, strength } => CpuForce::Center {
            x: *x,
            y: *y,
            strength: *strength,
        },
        ForceSpec::Radial { radius, x, y, strength } => CpuForce::Radial {
            radius: radius.duplicate(),
            x: *x,
            y: *y,
            strength: strength.duplicate(),
        },
    }
}

/// Describes the CPU simulation of a configuration.
pub fn build(nodes: &[NodeInit], config: &Config) -> (r: CpuModel)
    requires
        buildable(config.forces@, nodes@.len() as int),
    ensures
        r.describes(nodes@, *config),
{
    let mut ns: Vec<CpuNode> = Vec::with_capacity(nodes.len());
    let mut i: usize = 0;
    while i < nodes.len()
        invariant
            i <= nodes@.len(),
            ns@ =~= Seq::new(i as nat, |h: int| node_of(nodes@[h])),
        decreases nodes@.len() - i,
    {
        let node: NodeInit = nodes[i];
        ns.push(
            CpuNode {
                x: node.x,
                y: node.y,
                vx: F32::zero(),
                vy: F32::zero(),
                fx: node.fx,
                fy: node.fy,
            },
        );
        i += 1;
    }
    let mut forces: Vec<(String, CpuForce)> = Vec::with_capacity(config.forces.len());
    let mut k: usize = 0;
    while k < config.forces.len()
        invariant
            k <= config.forces@.len(),
            forces@.len() == k,
            forall|j: int|
                0 <= j < k ==> {
                    &&& (#[trigger] forces@[j]).0@ == config.forces@[j].0@
                    &&& forces@[j].1.renders(config.forces@[j].1)
                },
        decreases config.forces@.len() - k,
    {
        forces.push((config.forces[k].0.as_str().to_owned(), render(&config.forces[k].1)));
        k += 1;
    }
    CpuModel {
        nodes: ns,
        alpha: config.alpha,
        alpha_min: config.alpha_min,
        alpha_decay: config.alpha_decay,
        alpha_target: config.alpha_target,
        velocity_decay: config.velocity_decay,
        forces,
    }
}

} // verus!
