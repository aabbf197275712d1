//! From configurations to buffers: what is accepted, and what is packed where.

use forcefield_gpu::cpu::{build, is_buildable, render, CpuForce};
use forcefield_gpu::graph::{adjacency, degrees, first_out_of_range};
use forcefield_gpu::model::Kind;
use forcefield_gpu::plan::{
    check_forces, find_kind, groups, is_plannable, list_passes, pack_link_numbers, pack_links,
    pack_nodes, pin_slots, start_params, start_positions, Pass,
};
use forcefield_gpu::{Config, ForceSpec, GpuError, NodeInit, Scalar, Values, F32};

fn num(v: f32) -> F32 {
    F32 { bits: v.to_bits() }
}

fn val(v: F32) -> f32 {
    f32::from_bits(v.bits)
}

fn each(v: &[f32]) -> Values {
    Values::from(v.iter().map(|x| num(*x)).collect::<Vec<F32>>())
}

fn unset(n: usize) -> Vec<NodeInit> {
    vec![NodeInit::unset(); n]
}

#[test]
fn a_constant_serves_every_item() {
    let v = Values::from(num(2.5));
    assert_eq!(val(v.get(0)), 2.5);
    assert_eq!(val(v.get(1_000_000)), 2.5);
    assert_eq!(v.to_vec(3).iter().map(|x| val(*x)).collect::<Vec<f32>>(), vec![2.5; 3]);
    assert_eq!(v.to_vec(0).len(), 0);
    assert!(v.has(0) && v.has(17));
    assert_eq!(v.duplicate(), v);
}

#[test]
fn a_list_serves_its_own_items() {
    let v = each(&[1.0, 2.0, 3.0]);
    assert_eq!(val(v.get(2)), 3.0);
    assert_eq!(v.to_vec(3).iter().map(|x| val(*x)).collect::<Vec<f32>>(), vec![1.0, 2.0, 3.0]);
    assert!(v.has(3) && !v.has(2) && !v.has(4));
    assert_eq!(v.duplicate(), v);
}

#[test]
fn forces_have_the_usual_defaults() {
    assert_eq!(
        ForceSpec::many_body(num(-30.0)),
        ForceSpec::ManyBody {
            strength: Values::Constant(num(-30.0)),
            theta: num(0.9),
            distance_min: num(1.0),
            distance_max: num(f32::INFINITY),
        }
    );
    assert_eq!(
        ForceSpec::link(vec![(0, 1)]),
        ForceSpec::Link {
            links: vec![(0, 1)],
            distance: Values::Constant(num(30.0)),
            strength: None,
            iterations: 1,
        }
    );
    assert_eq!(
        ForceSpec::collide(vec![num(3.0)]),
        ForceSpec::Collide { radius: each(&[3.0]), strength: num(1.0), iterations: 1 }
    );
    assert_eq!(
        ForceSpec::x(num(4.0)),
        ForceSpec::X { x: Values::Constant(num(4.0)), strength: Values::Constant(num(0.1)) }
    );
    assert_eq!(
        ForceSpec::y(num(5.0)),
        ForceSpec::Y { y: Values::Constant(num(5.0)), strength: Values::Constant(num(0.1)) }
    );
    assert_eq!(
        ForceSpec::center(num(1.0), num(2.0)),
        ForceSpec::Center { x: num(1.0), y: num(2.0), strength: num(1.0) }
    );
}

#[test]
fn a_configuration_has_the_usual_defaults() {
    let c = Config::default();
    assert_eq!(val(c.alpha), 1.0);
    assert_eq!(val(c.alpha_min), 0.001);
    assert_eq!(val(c.alpha_decay), 1.0 - 0.001f32.powf(1.0 / 300.0));
    assert_eq!(val(c.alpha_target), 0.0);
    assert_eq!(val(c.velocity_decay), 0.4);
    assert!(c.forces.is_empty());
}

#[test]
fn forces_are_kept_in_order() {
    let c = Config { alpha: num(0.5), ..Config::default() }
        .force("b", ForceSpec::x(num(0.0)))
        .force("a", ForceSpec::y(num(0.0)));
    assert_eq!(c.forces[0].0, "b");
    assert_eq!(c.forces[1].0, "a");
    assert_eq!(c.forces[1].1.kind(), Kind::Y);
    assert_eq!(val(c.alpha), 0.5);
}

#[test]
fn nodes_start_unset_or_free() {
    let u = NodeInit::default();
    assert!(u.x.is_nan() && u.y.is_nan() && u.fx.is_nan() && u.fy.is_nan());
    let at = NodeInit::at(num(1.0), num(2.0));
    assert_eq!((val(at.x), val(at.y)), (1.0, 2.0));
    assert!(at.fx.is_nan() && at.fy.is_nan());
}

#[test]
fn degrees_add_up_to_twice_the_links() {
    let links = vec![(0, 1), (1, 2), (2, 2), (0, 1)];
    let count = degrees(&links, 4);
    assert_eq!(count, vec![2, 3, 3, 0]);
    assert_eq!(count.iter().sum::<u32>(), 2 * links.len() as u32);
}

#[test]
fn rows_list_the_links_of_a_node_in_order() {
    let links = vec![(0, 1), (1, 2), (2, 2), (0, 1)];
    let a = adjacency(&links, 4);
    assert_eq!(a.ptr, vec![0, 2, 5, 8, 8]);
    assert_eq!(a.idx, vec![0, 3, 0, 1, 3, 1, 2, 2]);
    let none = adjacency(&Vec::new(), 2);
    assert_eq!(none.ptr, vec![0, 0, 0]);
    assert!(none.idx.is_empty());
    assert_eq!(adjacency(&Vec::new(), 0).ptr, vec![0]);
}

#[test]
fn the_first_stray_link_is_found() {
    let links = vec![(0, 1), (1, 5), (7, 0)];
    assert_eq!(first_out_of_range(&links, 3), Some(1));
    assert_eq!(first_out_of_range(&links, 6), Some(2));
    assert_eq!(first_out_of_range(&links, 8), None);
    assert_eq!(first_out_of_range(&vec![(0, 0)], 0), Some(0));
}

fn refusal(config: &Config, n: usize) -> String {
    match check_forces(&config.forces, n) {
        Err(GpuError::Unsupported(e)) => e,
        other => panic!("{other:?}"),
    }
}

#[test]
fn two_forces_of_a_kind_are_refused() {
    let c = Config::default()
        .force("a", ForceSpec::x(num(0.0)))
        .force("b", ForceSpec::y(num(0.0)))
        .force("c", ForceSpec::x(num(1.0)));
    assert_eq!(refusal(&c, 5), "more than one force of the same kind");
    let ok = Config::default()
        .force("a", ForceSpec::x(num(0.0)))
        .force("a", ForceSpec::y(num(0.0)));
    assert!(check_forces(&ok.forces, 5).is_ok());
}

#[test]
fn stray_links_are_refused() {
    let c = Config::default().force("l", ForceSpec::link(vec![(0, 1), (2, 1), (9, 9)]));
    assert_eq!(refusal(&c, 2), "link endpoint out of range (2, 1)");
    assert_eq!(refusal(&c, 3), "link endpoint out of range (9, 9)");
    assert!(check_forces(&c.forces, 10).is_ok());
}

#[test]
fn the_first_refusal_counts() {
    let stray = || ForceSpec::link(vec![(0, 8)]);
    let link_first = Config::default()
        .force("l", stray())
        .force("x", ForceSpec::x(num(0.0)))
        .force("x2", ForceSpec::x(num(0.0)));
    assert_eq!(refusal(&link_first, 2), "link endpoint out of range (0, 8)");
    let twice_first = Config::default()
        .force("x", ForceSpec::x(num(0.0)))
        .force("x2", ForceSpec::x(num(0.0)))
        .force("l", stray());
    assert_eq!(refusal(&twice_first, 2), "more than one force of the same kind");
    let both = Config::default().force("l", ForceSpec::link(vec![])).force("l2", stray());
    assert_eq!(refusal(&both, 2), "more than one force of the same kind");
}

#[test]
fn parameters_must_be_there_up_to_the_first_refusal() {
    let short = || ForceSpec::many_body(each(&[1.0, 2.0]).to_vec(2));
    let c = Config::default().force("m", short());
    assert!(is_plannable(&c.forces, 2));
    assert!(!is_plannable(&c.forces, 3));
    let refused = Config::default()
        .force("x", ForceSpec::x(num(0.0)))
        .force("x2", ForceSpec::x(num(0.0)))
        .force("m", short());
    assert!(is_plannable(&refused.forces, 3));
    let sweeps = |iterations| {
        Config::default().force(
            "c",
            ForceSpec::Collide { radius: Values::from(num(1.0)), strength: num(1.0), iterations },
        )
    };
    assert!(is_plannable(&sweeps(u32::MAX - 1).forces, 3));
    assert!(!is_plannable(&sweeps(u32::MAX).forces, 3));
    let link = |distance, strength| {
        Config::default().force(
            "l",
            ForceSpec::Link { links: vec![(0, 1), (1, 2)], distance, strength, iterations: 1 },
        )
    };
    assert!(is_plannable(&link(each(&[1.0, 2.0]), Some(each(&[1.0, 2.0]))).forces, 3));
    assert!(!is_plannable(&link(each(&[1.0]), None).forces, 3));
    assert!(!is_plannable(&link(each(&[1.0, 2.0]), Some(each(&[]))).forces, 3));
}

#[test]
fn the_last_force_of_a_kind_is_found() {
    let c = Config::default()
        .force("a", ForceSpec::x(num(1.0)))
        .force("b", ForceSpec::y(num(2.0)))
        .force("c", ForceSpec::x(num(3.0)));
    assert_eq!(find_kind(&c.forces, Kind::X), Some(&ForceSpec::x(num(3.0))));
    assert_eq!(find_kind(&c.forces, Kind::Radial), None);
}

#[test]
fn every_force_has_its_slots() {
    let mut nodes = unset(2);
    nodes[1].fx = num(7.0);
    let c = Config::default()
        .force("m", ForceSpec::many_body(each(&[-1.0, -2.0]).to_vec(2)))
        .force("c", ForceSpec::collide(each(&[3.0, 4.0]).to_vec(2)))
        .force("x", ForceSpec::X { x: each(&[5.0, f32::NAN]), strength: each(&[0.1, 0.2]) })
        .force("y", ForceSpec::Y { y: each(&[f32::NAN, 6.0]), strength: each(&[0.3, 0.4]) })
        .force(
            "r",
            ForceSpec::Radial {
                radius: each(&[8.0, f32::NAN]),
                x: num(0.0),
                y: num(0.0),
                strength: each(&[0.5, 0.6]),
            },
        );
    let r: Vec<f32> = pack_nodes(&c.forces, &nodes).iter().map(|v| val(*v)).collect();
    assert_eq!(
        &r[..12],
        &[-1.0, 3.0, 5.0, 0.1, 0.0, 0.0, 8.0, 0.5, 0.0, 0.0, 0.0, 0.0]
    );
    assert_eq!(&r[12..18], &[-2.0, 4.0, 0.0, 0.0, 6.0, 0.4]);
    assert!(r[18].is_nan());
    assert_eq!(&r[19..], &[0.0, 7.0, 0.0, 1.0, 0.0]);
}

#[test]
fn slots_of_absent_forces_hold_zero() {
    let r = pack_nodes(&Vec::new(), &unset(3));
    assert_eq!(r.len(), 36);
    assert!(r.iter().all(|v| v.bits == 0));
    assert!(pack_nodes(&Vec::new(), &[]).is_empty());
}

#[test]
fn pins_mark_their_axes() {
    let bits = |p: [F32; 4]| p.map(|v| val(v));
    assert_eq!(bits(pin_slots(num(2.0), num(-3.0))), [2.0, -3.0, 1.0, 1.0]);
    assert_eq!(bits(pin_slots(F32::nan(), num(0.0))), [0.0, 0.0, 0.0, 1.0]);
    assert_eq!(bits(pin_slots(num(0.0), F32::nan())), [0.0, 0.0, 1.0, 0.0]);
}

#[test]
fn nodes_start_where_they_are_put_or_on_the_spiral() {
    let free = NodeInit::at(num(1.0), num(2.0));
    let half = NodeInit { x: num(1.0), ..NodeInit::unset() };
    let pinned = NodeInit { fx: num(5.0), ..NodeInit::at(num(1.0), num(2.0)) };
    let saved = NodeInit { fy: num(6.0), ..half };
    let r = start_positions(&[free, NodeInit::unset(), half, pinned, saved]);
    assert_eq!(
        r,
        vec![
            Scalar::Value(num(1.0)),
            Scalar::Value(num(2.0)),
            Scalar::SpiralX(1),
            Scalar::SpiralY(1),
            Scalar::SpiralX(2),
            Scalar::SpiralY(2),
            Scalar::Value(num(5.0)),
            Scalar::Value(num(2.0)),
            Scalar::Value(num(1.0)),
            Scalar::Value(num(6.0)),
        ]
    );
}

#[test]
fn workgroups_cover_all_nodes() {
    let want = [(0, 0), (1, 1), (255, 1), (256, 1), (257, 2), (512, 2), (u32::MAX, 1 << 24)];
    for (n, g) in want {
        assert_eq!(groups(n), g);
        assert_eq!(n.div_ceil(256), g);
    }
}

#[test]
fn sweeps_are_repeated_as_configured() {
    let c = |link, collide| {
        Config::default()
            .force(
                "c",
                ForceSpec::Collide {
                    radius: Values::from(num(1.0)),
                    strength: num(1.0),
                    iterations: collide,
                },
            )
            .force("m", ForceSpec::many_body(num(1.0)))
            .force(
                "l",
                ForceSpec::Link {
                    links: vec![],
                    distance: Values::from(num(1.0)),
                    strength: None,
                    iterations: link,
                },
            )
            .force("t", ForceSpec::center(num(0.0), num(0.0)))
    };
    assert_eq!(
        list_passes(&c(3, 2).forces, 4),
        vec![
            Pass::Collide { iterations: 3 },
            Pass::ManyBody,
            Pass::Link { iterations: 3 },
            Pass::Center,
        ]
    );
    let least = list_passes(&c(0, 0).forces, 4);
    assert_eq!(least[0], Pass::Collide { iterations: 2 });
    assert_eq!(least[2], Pass::Link { iterations: 1 });
}

#[test]
fn parameters_start_with_defaults() {
    let p = start_params(&Config::default(), 300);
    assert_eq!((p.n, p.m, p.tick, p.groups), (300, 0, 0, 2));
    assert_eq!((p.ptr_off, p.idx_off, p.ends_off), (0, 301, 301));
    assert_eq!(val(p.alpha), 1.0);
    assert_eq!(p.velocity_decay, Scalar::OneMinus(num(0.4)));
    assert_eq!(p.distance_min2, Scalar::Value(num(1.0)));
    assert_eq!(p.distance_max2, Scalar::Value(num(f32::INFINITY)));
    assert_eq!((val(p.collide_strength), val(p.center_strength)), (1.0, 1.0));
    assert_eq!((val(p.center_x), val(p.radial_y)), (0.0, 0.0));
}

#[test]
fn parameters_come_from_the_forces() {
    let many = |distance_max| ForceSpec::ManyBody {
        strength: Values::from(num(1.0)),
        theta: num(0.9),
        distance_min: num(5.0),
        distance_max,
    };
    let c = Config { alpha: num(0.3), ..Config::default() }
        .force("m", many(num(250.0)))
        .force("l", ForceSpec::link(vec![(0, 1), (1, 2)]))
        .force(
            "c",
            ForceSpec::Collide {
                radius: Values::from(num(1.0)),
                strength: num(0.7),
                iterations: 1,
            },
        )
        .force("t", ForceSpec::Center { x: num(1.0), y: num(2.0), strength: num(0.5) })
        .force(
            "r",
            ForceSpec::Radial {
                radius: Values::from(num(1.0)),
                x: num(3.0),
                y: num(4.0),
                strength: Values::from(num(1.0)),
            },
        );
    let p = start_params(&c, 3);
    assert_eq!((p.n, p.m, p.groups), (3, 2, 1));
    assert_eq!((p.ptr_off, p.idx_off, p.ends_off), (0, 4, 8));
    assert_eq!(val(p.alpha), 0.3);
    assert_eq!(p.distance_min2, Scalar::Square(num(5.0)));
    assert_eq!(p.distance_max2, Scalar::Square(num(250.0)));
    assert_eq!(val(p.collide_strength), 0.7);
    assert_eq!((val(p.center_x), val(p.center_y), val(p.center_strength)), (1.0, 2.0, 0.5));
    assert_eq!((val(p.radial_x), val(p.radial_y)), (3.0, 4.0));
    for no_limit in [f32::INFINITY, f32::NEG_INFINITY, f32::NAN] {
        let c = Config::default().force("m", many(num(no_limit)));
        assert_eq!(start_params(&c, 3).distance_max2, Scalar::Value(num(f32::INFINITY)));
    }
}

#[test]
fn link_buffers_hold_rows_and_ends() {
    let c = Config::default().force("l", ForceSpec::link(vec![(0, 1), (1, 2)]));
    let (words, numbers) = pack_links(&c.forces, 3);
    assert_eq!(words, vec![0, 1, 3, 4, 0, 0, 1, 1, 0, 1, 1, 2]);
    assert_eq!(
        numbers,
        vec![
            Scalar::Value(num(30.0)),
            Scalar::Quotient { num: 1, den: 1 },
            Scalar::Quotient { num: 1, den: 3 },
            Scalar::Value(num(30.0)),
            Scalar::Quotient { num: 1, den: 1 },
            Scalar::Quotient { num: 2, den: 3 },
        ]
    );
}

#[test]
fn a_given_strength_replaces_the_degrees() {
    let links = vec![(0, 0), (0, 1)];
    let r = pack_link_numbers(&links, &each(&[1.0, 2.0]), &Some(each(&[0.5, 0.25])), 2);
    assert_eq!(
        r,
        vec![
            Scalar::Value(num(1.0)),
            Scalar::Value(num(0.5)),
            Scalar::Quotient { num: 3, den: 6 },
            Scalar::Value(num(2.0)),
            Scalar::Value(num(0.25)),
            Scalar::Quotient { num: 3, den: 4 },
        ]
    );
    let by_degree = pack_link_numbers(&links, &each(&[1.0, 2.0]), &None, 2);
    assert_eq!(by_degree[1], Scalar::Quotient { num: 1, den: 3 });
    assert_eq!(by_degree[4], Scalar::Quotient { num: 1, den: 1 });
}

#[test]
fn link_buffers_are_never_empty() {
    let zero = vec![Scalar::Value(num(0.0))];
    assert_eq!(pack_links(&Vec::new(), 2), (vec![0, 0, 0], zero.clone()));
    let c = Config::default().force("l", ForceSpec::link(vec![]));
    assert_eq!(pack_links(&c.forces, 0), (vec![0], zero));
}

#[test]
fn order_only_schedules() {
    let make = |swap: bool| {
        let x = ForceSpec::x(num(1.0));
        let l = ForceSpec::link(vec![(0, 1)]);
        if swap {
            Config::default().force("l", l).force("x", x)
        } else {
            Config::default().force("x", x).force("l", l)
        }
    };
    let (a, b) = (make(false), make(true));
    assert_eq!(start_params(&a, 2), start_params(&b, 2));
    assert_eq!(pack_links(&a.forces, 2), pack_links(&b.forces, 2));
    assert_eq!(pack_nodes(&a.forces, &unset(2)), pack_nodes(&b.forces, &unset(2)));
    assert_eq!(list_passes(&a.forces, 2), vec![Pass::X, Pass::Link { iterations: 1 }]);
    assert_eq!(list_passes(&b.forces, 2), vec![Pass::Link { iterations: 1 }, Pass::X]);
}

#[test]
fn the_engine_is_given_the_same_model() {
    let node = NodeInit { fx: num(9.0), ..NodeInit::at(num(1.0), num(2.0)) };
    let c = Config { alpha_target: num(0.2), ..Config::default() }
        .force("x", ForceSpec::X { x: each(&[4.0]), strength: Values::from(num(0.5)) })
        .force(
            "link",
            ForceSpec::Link {
                links: vec![(0, 0)],
                distance: Values::from(num(3.0)),
                strength: Some(each(&[0.25])),
                iterations: 0,
            },
        );
    let m = build(&[node], &c);
    assert_eq!(m.nodes.len(), 1);
    assert_eq!((val(m.nodes[0].x), val(m.nodes[0].y), val(m.nodes[0].fx)), (1.0, 2.0, 9.0));
    assert_eq!((val(m.nodes[0].vx), val(m.nodes[0].vy)), (0.0, 0.0));
    assert!(m.nodes[0].fy.is_nan());
    assert_eq!((val(m.alpha_target), val(m.velocity_decay)), (0.2, 0.4));
    assert_eq!(m.forces[0].0, "x");
    assert_eq!(
        m.forces[0].1,
        CpuForce::X { x: each(&[4.0]), strength: Values::from(num(0.5)) }
    );
    assert_eq!(m.forces[1].0, "link");
    assert_eq!(
        m.forces[1].1,
        CpuForce::Link {
            links: vec![(0, 0)],
            distance: Values::from(num(3.0)),
            strength: Some(each(&[0.25])),
            iterations: 0,
        }
    );
}

#[test]
fn the_engine_gets_every_kind_of_force() {
    let v = || Values::from(num(1.0));
    assert_eq!(
        render(&ForceSpec::many_body(num(1.0))),
        CpuForce::ManyBody {
            strength: v(),
            theta: num(0.9),
            distance_min: num(1.0),
            distance_max: num(f32::INFINITY),
        }
    );
    assert_eq!(
        render(&ForceSpec::collide(num(1.0))),
        CpuForce::Collide { radius: v(), strength: num(1.0), iterations: 1 }
    );
    assert_eq!(
        render(&ForceSpec::y(num(1.0))),
        CpuForce::Y { y: v(), strength: Values::from(num(0.1)) }
    );
    assert_eq!(
        render(&ForceSpec::center(num(1.0), num(2.0))),
        CpuForce::Center { x: num(1.0), y: num(2.0), strength: num(1.0) }
    );
    assert_eq!(
        render(&ForceSpec::Radial { radius: v(), x: num(1.0), y: num(2.0), strength: v() }),
        CpuForce::Radial { radius: v(), x: num(1.0), y: num(2.0), strength: v() }
    );
}

#[test]
fn the_engine_needs_links_between_nodes() {
    let c = Config::default().force("l", ForceSpec::link(vec![(0, 2)]));
    assert!(!is_buildable(&c.forces, 2));
    assert!(is_buildable(&c.forces, 3));
}

#[test]
fn a_name_is_in_effect_once_on_the_engine() {
    // A second force of a name takes the place of the first.
    let nodes = [forcefield::Node { x: 0.0, y: 0.0, ..forcefield::Node::UNSET }];
    let mut sim = forcefield::Simulation::new(&nodes);
    sim.add_force("a", Box::new(forcefield::forces::X::new(forcefield::forces::Accessor::Constant(100.0))));
    sim.add_force("a", Box::new(forcefield::forces::Y::new(forcefield::forces::Accessor::Constant(100.0))));
    sim.tick(1);
    assert_eq!(sim.bodies().pos[0], 0.0);
    assert!(sim.bodies().pos[1] > 0.0);
}
