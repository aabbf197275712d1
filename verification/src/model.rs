//! A declarative description of a simulation: forces and parameters as data, from
//! which either backend can be built.

use crate::number::F32;
use vstd::prelude::*;

verus! {

/// A per-node or per-link parameter: one value for all, or one per item.
#[derive(Clone, Debug, PartialEq)]
pub enum Values {
    Constant(F32),
    Each(Vec<F32>),
}

impl Values {
    /// The value for item `i`.
    pub open spec fn at(self, i: int) -> F32 {
        match self {
            Values::Constant(v) => v,
            Values::Each(v) => v@[i],
        }
    }

    /// Whether this holds a value for each of exactly `n` items.
    pub open spec fn fits(self, n: int) -> bool {
        self matches Values::Each(v) ==> v@.len() == n
    }

    /// Whether this holds a value for each of exactly `n` items.
    pub fn has(&self, n: usize) -> (r: bool)
        ensures
            r == self.fits(n as int),
    {
        match self {
            Values::Constant(_) => true,
            Values::Each(v) => v.len() == n,
        }
    }

    /// Whether both hold the same, bit for bit.
    pub open spec fn same(self, other: Values) -> bool {
        match (self, other) {
            (Values::Constant(v), Values::Constant(w)) => v == w,
            (Values::Each(v), Values::Each(w)) => v@ == w@,
            _ => false,
        }
    }

    /// A copy of the values.
    pub fn duplicate(&self) -> (r: Values)
        ensures
            r.same(*self),
    {
        match self {
            Values::Constant(v) => Values::Constant(*v),
            Values::Each(v) => {
                let copy: Vec<F32> = self.to_vec(v.len());
                assert(copy@ =~= v@);
                Values::Each(copy)
            },
        }
    }

    /// The value for item `i`.
    pub fn get(&self, i: usize) -> (r: F32)
        requires
            self matches Values::Each(v) ==> i < v@.len(),
        ensures
            r == self.at(i as int),
    {
        match self {
            Values::Constant(v) => *v,
            Values::Each(v) => v[i],
        }
    }

    /// The values of `n` items.
    pub fn to_vec(&self, n: usize) -> (r: Vec<F32>)
        requires
            self.fits(n as int),
        ensures
            r@ == Seq::new(n as nat, |i: int| self.at(i)),
    {
        let mut r: Vec<F32> = Vec::with_capacity(n);
        let mut i: usize = 0;
        while i < n
            invariant
                i <= n,
                self.fits(n as int),
                r@ =~= Seq::new(i as nat, |k: int| self.at(k)),
            decreases n - i,
        {
            r.push(self.get(i));
            i += 1;
        }
        r
    }
}

impl From<F32> for Values {
    fn from(v: F32) -> (r: Values) {
        Values::Constant(v)
    }
}

impl vstd::std_specs::convert::FromSpecImpl<F32> for Values {
    open spec fn obeys_from_spec() -> bool {
        true
    }

    open spec fn from_spec(v: F32) -> Values {
        Values::Constant(v)
    }
}

impl From<Vec<F32>> for Values {
    fn from(v: Vec<F32>) -> (r: Values) {
        Values::Each(v)
    }
}

impl vstd::std_specs::convert::FromSpecImpl<Vec<F32>> for Values {
    open spec fn obeys_from_spec() -> bool {
        true
    }

    open spec fn from_spec(v: Vec<F32>) -> Values {
        Values::Each(v)
    }
}

/// The kinds of force.
#[derive(Clone, Copy, Debug, PartialEq, Eq, Structural)]
pub enum Kind {
    ManyBody,
    Link,
    Collide,
    X,
    Y,
    Center,
    Radial,
}

/// One force of a simulation, with the formulas of d3-force.
#[derive(Clone, Debug, PartialEq)]
pub enum ForceSpec {
    /// Charge between all pairs of nodes. `theta` is honoured by the CPU backend
    /// only; the GPU backend computes every pair.
    ManyBody { strength: Values, theta: F32, distance_min: F32, distance_max: F32 },
    /// Springs. Without a `strength`, a link has the inverse of the smaller degree
    /// of its two ends.
    Link {
        links: Vec<(u32, u32)>,
        distance: Values,
        strength: Option<Values>,
        iterations: u32,
    },
    /// Circle collision.
    Collide { radius: Values, strength: F32, iterations: u32 },
    /// A pull towards a first coordinate.
    X { x: Values, strength: Values },
    /// A pull towards a second coordinate.
    Y { y: Values, strength: Values },
    /// Shifts the positions so that their mean sits at `(x, y)`.
    Center { x: F32, y: F32, strength: F32 },
    /// A pull towards a circle around `(x, y)`.
    Radial { radius: Values, x: F32, y: F32, strength: Values },
}

impl ForceSpec {
    /// The kind of this force.
    pub open spec fn spec_kind(&self) -> Kind {
        match self {
            ForceSpec::ManyBody { .. } => Kind::ManyBody,
            ForceSpec::Link { .. } => Kind::Link,
            ForceSpec::Collide { .. } => Kind::Collide,
            ForceSpec::X { .. } => Kind::X,
            ForceSpec::Y { .. } => Kind::Y,
            ForceSpec::Center { .. } => Kind::Center,
            ForceSpec::Radial { .. } => Kind::Radial,
        }
    }

    /// The kind of this force.
    #[verifier::when_used_as_spec(spec_kind)]
    pub fn kind(&self) -> (r: Kind)
        ensures
            r == self.spec_kind(),
    {
        match self {
            ForceSpec::ManyBody { .. } => Kind::ManyBody,
            ForceSpec::Link { .. } => Kind::Link,
            ForceSpec::Collide { .. } => Kind::Collide,
            ForceSpec::X { .. } => Kind::X,
            ForceSpec::Y { .. } => Kind::Y,
            ForceSpec::Center { .. } => Kind::Center,
            ForceSpec::Radial { .. } => Kind::Radial,
        }
    }

    /// Charge with d3's defaults: `theta` 0.9, distances from 1 without limit.
    pub fn many_body(strength: impl Into<Values>) -> (r: ForceSpec)
        ensures
            r matches ForceSpec::ManyBody { strength: s, theta, distance_min, distance_max } && {
                &&& call_ensures(Into::<Values>::into, (strength,), s)
                &&& theta == (F32 { bits: NINE_TENTHS })
                &&& distance_min == F32::one()
                &&& distance_max == F32::infinity()
            },
    {
        ForceSpec::ManyBody {
            strength: strength.into(),
            theta: F32 { bits: NINE_TENTHS },
            distance_min: F32::one(),
            distance_max: F32::infinity(),
        }
    }

    /// Springs of length 30 with the default strength and one iteration.
    pub fn link(links: Vec<(u32, u32)>) -> (r: ForceSpec)
        ensures
            r == (ForceSpec::Link {
                links,
                distance: Values::Constant(F32 { bits: THIRTY }),
                strength: None,
                iterations: 1,
            }),
    {
        ForceSpec::Link {
            links,
            distance: Values::Constant(F32 { bits: THIRTY }),
            strength: None,
            iterations: 1,
        }
    }

    /// Collision at full strength with one iteration.
    pub fn collide(radius: impl Into<Values>) -> (r: ForceSpec)
        ensures
            r matches ForceSpec::Collide { radius: v, strength, iterations } && {
                &&& call_ensures(Into::<Values>::into, (radius,), v)
                &&& strength == F32::one()
                &&& iterations == 1
            },
    {
        ForceSpec::Collide { radius: radius.into(), strength: F32::one(), iterations: 1 }
    }

    /// A pull towards `x` with strength 0.1.
    pub fn x(x: impl Into<Values>) -> (r: ForceSpec)
        ensures
            r matches ForceSpec::X { x: v, strength } && {
                &&& call_ensures(Into::<Values>::into, (x,), v)
                &&& strength == Values::Constant(F32 { bits: ONE_TENTH })
            },
    {
        ForceSpec::X { x: x.into(), strength: Values::Constant(F32 { bits: ONE_TENTH }) }
    }

    /// A pull towards `y` with strength 0.1.
    pub fn y(y: impl Into<Values>) -> (r: ForceSpec)
        ensures
            r matches ForceSpec::Y { y: v, strength } && {
                &&& call_ensures(Into::<Values>::into, (y,), v)
                &&& strength == Values::Constant(F32 { bits: ONE_TENTH })
            },
    {
        ForceSpec::Y { y: y.into(), strength: Values::Constant(F32 { bits: ONE_TENTH }) }
    }

    /// Centering on `(x, y)` at full strength.
    pub fn center(x: F32, y: F32) -> (r: ForceSpec)
        ensures
            r == (ForceSpec::Center { x, y, strength: F32::one() }),
    {
        ForceSpec::Center { x, y, strength: F32::one() }
    }
}

/// The bits of 0.9.
pub const NINE_TENTHS: u32 = 0x3f66_6666;

/// The bits of 30.
pub const THIRTY: u32 = 0x41f0_0000;

/// The bits of 0.1.
pub const ONE_TENTH: u32 = 0x3dcc_cccd;

/// The bits of 0.001.
pub const ONE_THOUSANDTH: u32 = 0x3a83_126f;

/// The bits of `1 - 0.001.powf(1 / 300)`: from 1, alpha falls to 0.001 in 300
/// ticks.
pub const DECAY_IN_300_TICKS: u32 = 0x3cba_7900;

/// The bits of 0.4.
pub const FOUR_TENTHS: u32 = 0x3ecc_cccd;

/// Simulation parameters.
#[derive(Clone, Debug, PartialEq)]
pub struct Config {
    pub alpha: F32,
    pub alpha_min: F32,
    pub alpha_decay: F32,
    pub alpha_target: F32,
    /// The share of its velocity that a node loses per tick.
    pub velocity_decay: F32,
    /// The forces, by name, in the order in which every tick applies them.
    pub forces: Vec<(String, ForceSpec)>,
}

impl Default for Config {
    /// d3's defaults, without any force.
    fn default() -> (r: Config)
        ensures
            r.alpha == F32::one(),
            r.alpha_min == (F32 { bits: ONE_THOUSANDTH }),
            r.alpha_decay == (F32 { bits: DECAY_IN_300_TICKS }),
            r.alpha_target == F32::zero(),
            r.velocity_decay == (F32 { bits: FOUR_TENTHS }),
            r.forces@.len() == 0,
    {
        Config {
            alpha: F32::one(),
            alpha_min: F32 { bits: ONE_THOUSANDTH },
            alpha_decay: F32 { bits: DECAY_IN_300_TICKS },
            alpha_target: F32::zero(),
            velocity_decay: F32 { bits: FOUR_TENTHS },
            forces: Vec::new(),
        }
    }
}

impl Config {
    /// Adds a force behind those that are there.
    pub fn force(self, name: impl Into<String>, spec: ForceSpec) -> (r: Config)
        ensures
            r.alpha == self.alpha,
            r.alpha_min == self.alpha_min,
            r.alpha_decay == self.alpha_decay,
            r.alpha_target == self.alpha_target,
            r.velocity_decay == self.velocity_decay,
            r.forces@.len() == self.forces@.len() + 1,
            r.forces@.drop_last() == self.forces@,
            call_ensures(Into::<String>::into, (name,), r.forces@.last().0),
            r.forces@.last().1 == spec,
    {
        let mut config = self;
        config.forces.push((name.into(), spec));
        assert(config.forces@.drop_last() =~= self.forces@);
        config
    }
}

/// The initial state of a node. A NaN stands for an unset number: an unset
/// position is taken from the spiral, an unset fixed coordinate leaves its axis
/// free.
#[derive(Clone, Copy, Debug, PartialEq)]
pub struct NodeInit {
    pub x: F32,
    pub y: F32,
    pub fx: F32,
    pub fy: F32,
}

impl NodeInit {
    /// A node with everything unset.
    #[verifier::allow_in_spec]
    pub fn unset() -> NodeInit
        returns
            (NodeInit { x: F32::nan(), y: F32::nan(), fx: F32::nan(), fy: F32::nan() }),
    {
        NodeInit { x: F32::nan(), y: F32::nan(), fx: F32::nan(), fy: F32::nan() }
    }

    /// A free node at a given position.
    pub fn at(x: F32, y: F32) -> (r: NodeInit)
        ensures
            r == (NodeInit { x, y, fx: F32::nan(), fy: F32::nan() }),
    {
        NodeInit { x, y, ..NodeInit::unset() }
    }
}

impl Default for NodeInit {
    fn default() -> (r: NodeInit)
        ensures
            r == NodeInit::unset(),
    {
        NodeInit::unset()
    }
}

} // verus!
