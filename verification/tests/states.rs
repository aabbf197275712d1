//! Simulations on a device that only keeps a record: what is asked of it, and what
//! the host keeps.

use forcefield_gpu::auto::{CpuCall, Refresh, Work};
use forcefield_gpu::bytes::{byte_words, word_bytes, Word};
use forcefield_gpu::gpu::{
    binding_access, list_commands, stop, Access, Command, Kernel, BINDINGS, COLLIDE_EXTRA_SWEEPS,
};
use forcefield_gpu::plan::Pass;
use forcefield_gpu::{
    AdapterInfo, Backend, Config, ForceSpec, Gpu, GpuError, GpuSimulation, NodeInit, Scalar,
    Simulation, Values, F32,
};

fn num(v: f32) -> F32 {
    F32 { bits: v.to_bits() }
}

fn val(v: F32) -> f32 {
    f32::from_bits(v.bits)
}

/// A host that knows how alpha moves, and squares and differences.
fn host(s: Scalar) -> F32 {
    match s {
        Scalar::Value(v) => v,
        Scalar::OneMinus(v) => num(1.0 - val(v)),
        Scalar::TwiceOneMinus(v) => num(1.0 - (1.0 - val(v))),
        Scalar::Square(v) => num(val(v) * val(v)),
        Scalar::Quotient { num: a, den: b } => num(a as f32 / b as f32),
        Scalar::Approach { from, to, rate } => num(val(from) + (val(to) - val(from)) * val(rate)),
        Scalar::SpiralX(_) | Scalar::SpiralY(_) => F32::zero(),
    }
}

fn card(software: bool) -> Gpu {
    Gpu {
        info: AdapterInfo {
            name: "card".to_string(),
            backend: "Vulkan".to_string(),
            device_type: "DiscreteGpu".to_string(),
            software,
        },
    }
}

fn nodes(n: usize) -> Vec<NodeInit> {
    (0..n).map(|i| NodeInit::at(num(i as f32), num(-(i as f32)))).collect()
}

fn config() -> Config {
    Config::default()
        .force("charge", ForceSpec::many_body(num(-30.0)))
        .force("link", ForceSpec::link(vec![(0, 1), (1, 2)]))
}

fn sim(n: usize) -> GpuSimulation {
    GpuSimulation::with_gpu(card(false), &nodes(n), &config()).unwrap()
}

fn dispatch(kernel: Kernel, groups: u32) -> Command {
    Command::Dispatch { kernel, groups }
}

#[test]
fn a_simulation_starts_as_configured() {
    let s = sim(3);
    assert_eq!(s.adapter().name, "card");
    assert_eq!((s.len(), s.is_empty(), s.link_count()), (3, false, 2));
    assert_eq!((val(s.alpha()), val(s.alpha_min()), val(s.alpha_target())), (1.0, 0.001, 0.0));
    assert_eq!(val(s.alpha_decay()), 1.0 - 0.001f32.powf(1.0 / 300.0));
    assert_eq!(s.velocity_decay(), Scalar::TwiceOneMinus(num(0.4)));
    assert_eq!((s.position_bytes(), s.reduce_bytes()), (24, 8));
    assert_eq!(s.stale_bytes(), None);
    assert_eq!(s.positions().len(), 6);
    assert_eq!(s.positions()[3], Scalar::Value(num(-1.0)));
}

#[test]
fn building_is_deterministic() {
    let (a, b) = (sim(5), sim(5));
    assert_eq!(a.params, b.params);
    assert_eq!(a.nodes_f, b.nodes_f);
    assert_eq!(a.links_u, b.links_u);
    assert_eq!(a.links_f, b.links_f);
    assert_eq!(a.positions(), b.positions());
    assert_eq!(a.passes, b.passes);
}

#[test]
fn errors_come_from_the_search_first() {
    let twice = Config::default()
        .force("a", ForceSpec::x(num(0.0)))
        .force("b", ForceSpec::x(num(0.0)));
    let none = GpuSimulation::new(Err(GpuError::NoAdapter), &nodes(2), &twice);
    assert!(matches!(none, Err(GpuError::NoAdapter)));
    let lost = GpuSimulation::new(Err(GpuError::Device("lost".to_string())), &nodes(2), &twice);
    assert_eq!(lost.err().unwrap().message(), "device request failed: lost");
    let refused = GpuSimulation::new(Ok(card(false)), &nodes(2), &twice);
    assert_eq!(
        refused.err().unwrap().message(),
        "unsupported configuration: more than one force of the same kind"
    );
    let stray = GpuSimulation::new(Ok(card(false)), &nodes(2), &config());
    assert_eq!(
        stray.err().unwrap().message(),
        "unsupported configuration: link endpoint out of range (1, 2)"
    );
}

#[test]
fn setters_can_be_chained() {
    let mut s = sim(3);
    s.set_alpha(num(0.5))
        .set_alpha_min(num(0.1))
        .set_alpha_decay(num(0.2))
        .set_alpha_target(num(0.3))
        .set_velocity_decay(num(0.6));
    assert_eq!((val(s.alpha()), val(s.alpha_min())), (0.5, 0.1));
    assert_eq!((val(s.alpha_decay()), val(s.alpha_target())), (0.2, 0.3));
    assert_eq!(s.params.velocity_decay, Scalar::OneMinus(num(0.6)));
    assert_eq!(val(host(s.velocity_decay())), 1.0 - (1.0 - 0.6f32));
}

#[test]
fn the_uniform_block_has_its_layout() {
    let s = sim(3);
    let words = s.params.words();
    assert_eq!(words.len(), 20);
    assert_eq!(words[0], Word::Count(3));
    assert_eq!(words[1], Word::Count(2));
    assert_eq!(words[2], Word::Number(Scalar::Value(num(1.0))));
    assert_eq!(words[3], Word::Number(Scalar::OneMinus(num(0.4))));
    assert_eq!(words[4], Word::Number(Scalar::Square(num(1.0))));
    assert_eq!(words[5], Word::Number(Scalar::Value(num(f32::INFINITY))));
    assert_eq!(&words[12..17], &[0, 1, 0, 4, 8].map(Word::Count));
    assert_eq!(&words[17..], &[Word::Count(0); 3]);
    let bits = byte_words(&s.params.bytes(&host)).unwrap();
    assert_eq!(bits[3], (1.0 - 0.4f32).to_bits());
    assert_eq!(&bits[12..17], &[0, 1, 0, 4, 8]);
    assert_eq!(bits.len(), 20);
}

#[test]
fn buffers_are_sent_as_bytes() {
    let s = sim(3);
    let bits: Vec<u32> = s.nodes_f.iter().map(|v| v.bits).collect();
    assert_eq!(byte_words(&s.node_bytes()), Some(bits));
    assert_eq!(byte_words(&s.link_word_bytes()), Some(s.links_u.clone()));
    let numbers: Vec<u32> = s.links_f.iter().map(|v| host(*v).bits).collect();
    assert_eq!(byte_words(&s.link_number_bytes(&host)), Some(numbers));
    let start: Vec<u32> = s.positions().iter().map(|v| host(*v).bits).collect();
    assert_eq!(byte_words(&s.start_bytes(&host)), Some(start));
}

#[test]
fn programs_and_bindings_are_fixed() {
    let names = [
        (Kernel::ManyBody, "many_body"),
        (Kernel::Link, "link"),
        (Kernel::Collide, "collide"),
        (Kernel::ForceX, "force_x"),
        (Kernel::ForceY, "force_y"),
        (Kernel::Radial, "radial"),
        (Kernel::CenterReduce1, "center_reduce1"),
        (Kernel::CenterReduce2, "center_reduce2"),
        (Kernel::CenterApply, "center_apply"),
        (Kernel::Integrate, "integrate"),
    ];
    for (kernel, name) in names {
        assert_eq!(kernel.entry_point(), name);
    }
    let access: Vec<Access> = (0..BINDINGS).map(binding_access).collect();
    assert_eq!(
        access,
        vec![
            Access::Uniform,
            Access::ReadWrite,
            Access::ReadWrite,
            Access::ReadOnly,
            Access::ReadOnly,
            Access::ReadOnly,
            Access::ReadOnly,
            Access::ReadWrite,
        ]
    );
}

#[test]
fn passes_run_in_order_and_integration_last() {
    let passes = vec![
        Pass::ManyBody,
        Pass::Link { iterations: 2 },
        Pass::X,
        Pass::Y,
        Pass::Radial,
        Pass::Collide { iterations: 1 + COLLIDE_EXTRA_SWEEPS },
        Pass::Center,
    ];
    let snapshot = Command::Snapshot { bytes: 64 };
    assert_eq!(
        list_commands(&passes, 5, 64),
        vec![
            dispatch(Kernel::ManyBody, 5),
            snapshot,
            dispatch(Kernel::Link, 5),
            snapshot,
            dispatch(Kernel::Link, 5),
            dispatch(Kernel::ForceX, 5),
            dispatch(Kernel::ForceY, 5),
            dispatch(Kernel::Radial, 5),
            snapshot,
            dispatch(Kernel::Collide, 5),
            snapshot,
            dispatch(Kernel::Collide, 5),
            dispatch(Kernel::CenterReduce1, 5),
            dispatch(Kernel::CenterReduce2, 1),
            dispatch(Kernel::CenterApply, 5),
            dispatch(Kernel::Integrate, 5),
        ]
    );
    assert_eq!(list_commands(&Vec::new(), 1, 8), vec![dispatch(Kernel::Integrate, 1)]);
}

#[test]
fn ticks_follow_the_alpha_schedule() {
    let mut s = sim(3);
    s.set_alpha_decay(num(0.5)).set_alpha_target(num(0.25));
    let plan = s.tick(3, &host).unwrap();
    let alphas: Vec<f32> = plan.frames.iter().map(|p| val(p.alpha)).collect();
    assert_eq!(alphas, vec![0.625, 0.4375, 0.34375]);
    assert_eq!(plan.frames.iter().map(|p| p.tick).collect::<Vec<u32>>(), vec![1, 2, 3]);
    assert_eq!(val(s.alpha()), 0.34375);
    assert!(!plan.upload_nodes);
    assert!(plan.stopped.is_empty());
    assert_eq!(
        plan.commands,
        vec![
            dispatch(Kernel::ManyBody, 1),
            Command::Snapshot { bytes: 24 },
            dispatch(Kernel::Link, 1),
            dispatch(Kernel::Integrate, 1),
        ]
    );
    assert_eq!(s.stale_bytes(), Some(24));
}

#[test]
fn ticks_add_up() {
    let (mut a, mut b) = (sim(3), sim(3));
    let whole = a.tick(5, &host).unwrap();
    let mut parts = b.tick(2, &host).unwrap().frames;
    parts.extend(b.tick(3, &host).unwrap().frames);
    assert_eq!(whole.frames, parts);
    assert_eq!(a.params, b.params);
}

#[test]
fn the_tick_count_wraps() {
    let mut s = sim(3);
    s.params.tick = u32::MAX;
    let plan = s.tick(2, &host).unwrap();
    assert_eq!(plan.frames.iter().map(|p| p.tick).collect::<Vec<u32>>(), vec![0, 1]);
}

#[test]
fn no_ticks_still_make_positions_stale() {
    let mut s = sim(3);
    let plan = s.tick(0, &host).unwrap();
    assert!(plan.frames.is_empty());
    assert_eq!(s.stale_bytes(), Some(24));
    assert_eq!(val(s.alpha()), 1.0);
}

#[test]
fn without_nodes_nothing_happens() {
    let empty = Config::default();
    let mut s = GpuSimulation::with_gpu(card(false), &[], &empty).unwrap();
    assert!(s.is_empty());
    assert_eq!((s.position_bytes(), s.reduce_bytes()), (8, 8));
    assert!(s.tick(5, &host).is_none());
    assert_eq!(s.stale_bytes(), None);
    assert_eq!(val(s.alpha()), 1.0);
    let (ticks, sent) = s.run(7, &host);
    assert_eq!(ticks, 7);
    assert!(sent.is_none());
    s.set_alpha(num(0.0));
    assert_eq!(s.run(7, &host).0, 0);
}

#[test]
fn a_run_stops_below_the_minimum() {
    let mut s = sim(3);
    s.set_alpha_decay(num(0.5)).set_alpha_min(num(0.1));
    let (ticks, sent) = s.run(100, &host);
    assert_eq!(ticks, 4);
    let alphas: Vec<f32> = sent.unwrap().frames.iter().map(|p| val(p.alpha)).collect();
    assert_eq!(alphas, vec![0.5, 0.25, 0.125, 0.0625]);
    assert_eq!(val(s.alpha()), 0.0625);
    let (more, none) = s.run(100, &host);
    assert_eq!(more, 0);
    assert!(none.is_none());
}

#[test]
fn a_run_stops_at_its_limit() {
    let mut s = sim(3);
    s.set_alpha_decay(num(0.5)).set_alpha_min(num(0.1));
    assert_eq!(s.run(3, &host).0, 3);
    assert_eq!(val(s.alpha()), 0.125);
    assert_eq!(s.run(0, &host).0, 0);
    assert_eq!(s.run(3, &host).0, 1);
}

#[test]
fn a_run_of_no_ticks_leaves_everything() {
    let mut s = sim(3);
    s.set_alpha(num(0.0));
    s.set_fixed(0, num(1.0), num(1.0));
    let (ticks, sent) = s.run(10, &host);
    assert_eq!(ticks, 0);
    assert!(sent.is_none());
    assert_eq!(s.stale_bytes(), None);
    assert!(s.nodes_dirty);
}

#[test]
fn a_run_at_the_minimum_goes_on() {
    let mut s = sim(3);
    s.set_alpha(num(0.001));
    assert_eq!(s.run(1, &host).0, 1);
    let mut nan = sim(3);
    nan.set_alpha(F32::nan());
    assert_eq!(nan.run(5, &host).0, 0);
}

#[test]
fn pins_go_to_the_device_once() {
    let mut s = sim(3);
    let before = s.nodes_f.clone();
    s.set_fixed(1, num(123.0), F32::nan());
    let row: Vec<f32> = s.nodes_f[20..24].iter().map(|v| val(*v)).collect();
    assert_eq!(row, vec![123.0, 0.0, 1.0, 0.0]);
    assert_eq!(s.nodes_f[..20], before[..20]);
    assert_eq!(s.nodes_f[24..], before[24..]);
    assert!(s.tick(1, &host).unwrap().upload_nodes);
    assert!(!s.tick(1, &host).unwrap().upload_nodes);
    s.set_fixed(1, F32::nan(), F32::nan());
    assert_eq!(s.nodes_f, before);
    assert!(s.tick(1, &host).unwrap().upload_nodes);
}

#[test]
fn the_last_pin_counts() {
    let (mut a, mut b) = (sim(3), sim(3));
    a.set_fixed(2, num(1.0), num(1.0));
    a.set_fixed(2, num(5.0), F32::nan());
    b.set_fixed(2, num(5.0), F32::nan());
    assert_eq!(a.nodes_f, b.nodes_f);
}

#[test]
fn pins_of_different_nodes_are_independent() {
    let (mut a, mut b) = (sim(3), sim(3));
    a.set_fixed(0, num(1.0), num(2.0));
    a.set_fixed(2, num(3.0), num(4.0));
    b.set_fixed(2, num(3.0), num(4.0));
    b.set_fixed(0, num(1.0), num(2.0));
    assert_eq!(a.nodes_f, b.nodes_f);
}

#[test]
fn pinning_later_is_like_building_pinned() {
    let mut ns = nodes(3);
    ns[1].fx = num(8.0);
    let built = GpuSimulation::with_gpu(card(false), &ns, &config()).unwrap();
    let mut later = sim(3);
    later.set_fixed(1, num(8.0), F32::nan());
    assert_eq!(built.nodes_f, later.nodes_f);
}

#[test]
fn a_moved_node_is_stopped_once() {
    let mut s = sim(3);
    let up = s.set_position(2, num(7.0), num(8.0));
    assert_eq!(up.offset, 16);
    assert_eq!(byte_words(&up.bytes), Some(vec![7f32.to_bits(), 8f32.to_bits()]));
    assert_eq!(s.positions()[4], Scalar::Value(num(7.0)));
    assert_eq!(s.positions()[5], Scalar::Value(num(8.0)));
    assert_eq!(s.positions()[3], Scalar::Value(num(-1.0)));
    assert_eq!(s.tick(1, &host).unwrap().stopped, vec![2]);
    let write = stop(2);
    assert_eq!(write.offset, 16);
    assert_eq!(write.bytes, vec![0; 8]);
    assert_eq!(stop(u32::MAX).offset, 8 * u32::MAX as u64);
    assert!(s.tick(1, &host).unwrap().stopped.is_empty());
}

#[test]
fn what_is_read_back_is_seen() {
    let mut s = sim(3);
    s.tick(1, &host);
    let words: Vec<u32> = [1.0f32, 2.0, 3.0, 4.0, 5.0, 6.0].iter().map(|v| v.to_bits()).collect();
    s.read_back(&word_bytes(&words));
    assert_eq!(s.stale_bytes(), None);
    let seen: Vec<f32> = s.positions().iter().map(|v| val(host(*v))).collect();
    assert_eq!(seen, vec![1.0, 2.0, 3.0, 4.0, 5.0, 6.0]);
    s.tick(1, &host);
    s.store_positions(&vec![0; 6]);
    assert_eq!(s.positions()[5], Scalar::Value(num(0.0)));
}

#[test]
fn a_hardware_adapter_is_used() {
    let s = Simulation::new(Ok(card(false)), &nodes(3), &config());
    assert_eq!(s.backend(), Backend::Gpu);
    assert_eq!(s.adapter().unwrap().name, "card");
}

#[test]
fn a_software_adapter_is_used_only_if_allowed() {
    let select = |allow| Simulation::select(Ok(card(true)), &nodes(3), &config(), allow).backend();
    assert_eq!(Simulation::new(Ok(card(true)), &nodes(3), &config()).backend(), Backend::Cpu);
    assert_eq!(select(false), Backend::Cpu);
    assert_eq!(select(true), Backend::Gpu);
    let forced = Simulation::with_backend(Backend::Gpu, Ok(card(true)), &nodes(3), &config());
    assert_eq!(forced.unwrap().backend(), Backend::Gpu);
}

#[test]
fn the_cpu_takes_what_the_gpu_refuses() {
    let twice = Config::default()
        .force("a", ForceSpec::x(num(0.0)))
        .force("b", ForceSpec::x(num(1.0)));
    let s = Simulation::new(Ok(card(false)), &nodes(3), &twice);
    assert_eq!(s.backend(), Backend::Cpu);
    assert!(s.adapter().is_none());
    match &s {
        Simulation::Cpu { model, .. } => assert_eq!(model.forces.len(), 2),
        Simulation::Gpu(_) => unreachable!(),
    }
    let forced = Simulation::with_backend(Backend::Gpu, Ok(card(false)), &nodes(3), &twice);
    assert!(matches!(forced, Err(GpuError::Unsupported(_))));
    let none = Simulation::with_backend(Backend::Gpu, Err(GpuError::NoAdapter), &nodes(3), &twice);
    assert!(matches!(none, Err(GpuError::NoAdapter)));
}

#[test]
fn the_cpu_is_asked_to_do_the_work() {
    let no_card = || Err(GpuError::NoAdapter);
    let mut s = Simulation::with_backend(Backend::Cpu, no_card(), &nodes(2), &Config::default())
        .unwrap();
    assert!(matches!(s.tick(4, &host), Work::Cpu(CpuCall::Tick(4))));
    let run = s.run(9, &host);
    assert_eq!(run.ticks, None);
    assert!(matches!(run.work, Work::Cpu(CpuCall::Run(9))));
    assert_eq!(s.alpha(), None);
    assert_eq!(s.alpha_min(), None);
    assert_eq!(s.set_alpha(num(0.5)), Some(CpuCall::SetAlpha(num(0.5))));
    assert_eq!(s.set_alpha_target(num(0.1)), Some(CpuCall::SetAlphaTarget(num(0.1))));
    assert_eq!(s.set_alpha_decay(num(0.2)), Some(CpuCall::SetAlphaDecay(num(0.2))));
    assert_eq!(
        s.set_fixed(1, num(1.0), num(2.0)),
        Some(CpuCall::SetFixed { i: 1, fx: num(1.0), fy: num(2.0) })
    );
    assert_eq!(s.refresh(), Refresh::Bodies);
}

#[test]
fn bodies_are_taken_over_as_far_as_there_are_places() {
    let mut s = Simulation::new(Err(GpuError::NoAdapter), &nodes(2), &Config::default());
    assert_eq!(s.positions(), &vec![Scalar::Value(num(0.0)); 4]);
    s.store_bodies(&[num(1.0), num(2.0)]);
    let seen = |s: &Simulation| s.positions().iter().map(|v| val(host(*v))).collect::<Vec<f32>>();
    assert_eq!(seen(&s), vec![1.0, 2.0, 0.0, 0.0]);
    s.store_bodies(&[num(5.0); 9]);
    assert_eq!(seen(&s), vec![5.0; 4]);
}

#[test]
fn the_gpu_keeps_its_own_state() {
    let mut s = Simulation::new(Ok(card(false)), &nodes(3), &config());
    assert_eq!(s.set_alpha(num(0.5)), None);
    assert_eq!(s.set_alpha_target(num(0.5)), None);
    assert_eq!(s.set_alpha_decay(num(0.5)), None);
    assert_eq!(s.set_fixed(0, num(1.0), num(1.0)), None);
    assert_eq!(s.alpha(), Some(num(0.5)));
    assert_eq!(s.alpha_min(), Some(num(0.001)));
    assert_eq!(s.refresh(), Refresh::Nothing);
    let plan = match s.tick(1, &host) {
        Work::Gpu(plan) => plan,
        _ => panic!("the device ticks"),
    };
    assert!(plan.upload_nodes);
    assert_eq!(val(plan.frames[0].alpha), 0.5);
    assert_eq!(s.refresh(), Refresh::Device { bytes: 24 });
    let run = s.run(3, &host);
    assert_eq!(run.ticks, Some(3));
    assert!(matches!(run.work, Work::Gpu(_)));
    s.store_bodies(&[num(1.0)]);
    assert_eq!(s.refresh(), Refresh::Device { bytes: 24 });
}

#[test]
fn an_empty_gpu_simulation_has_no_work() {
    let mut s = Simulation::new(Ok(card(false)), &[], &Config::default());
    assert!(matches!(s.tick(3, &host), Work::Nothing));
    let run = s.run(3, &host);
    assert_eq!(run.ticks, Some(3));
    assert!(matches!(run.work, Work::Nothing));
}

#[test]
fn both_backends_get_the_same_parameters() {
    let c = Config { velocity_decay: num(0.35), ..Config::default() }
        .force(
            "collide",
            ForceSpec::Collide { radius: Values::from(num(25.0)), strength: num(1.0), iterations: 2 },
        )
        .force("x", ForceSpec::x(num(3.0)));
    let g = GpuSimulation::with_gpu(card(false), &nodes(2), &c).unwrap();
    let m = forcefield_gpu::cpu::build(&nodes(2), &c);
    assert_eq!(m.alpha_decay, g.alpha_decay());
    assert_eq!(Scalar::OneMinus(m.velocity_decay), g.params.velocity_decay);
    assert_eq!(m.forces.len(), g.passes.len());
    assert_eq!(g.passes, vec![Pass::Collide { iterations: 3 }, Pass::X]);
    assert_eq!((val(g.nodes_f[13]), val(g.nodes_f[14])), (25.0, 3.0));
}

#[test]
fn runs_and_schedules_are_deterministic() {
    let (mut a, mut b) = (sim(3), sim(3));
    let (ticks, sent) = a.run(400, &host);
    let (again, other) = b.run(400, &host);
    assert_eq!(ticks, again);
    let (sent, other) = (sent.unwrap(), other.unwrap());
    assert_eq!(sent.frames, other.frames);
    assert_eq!(sent.commands, other.commands);
    assert_eq!(a.params, b.params);
    let mut c = sim(3);
    let first = c.tick(10, &host).unwrap().frames;
    assert_eq!(first, sent.frames[..10]);
}

#[test]
fn alpha_cools_and_never_undershoots() {
    for decay in [0.0f32, 1e-30, 0.0228, 0.5, 0.999_999_9, 1.0] {
        for start in [0.0f32, f32::from_bits(1), 1e-38, 0.3, 1.0, f32::MAX] {
            let mut s = sim(3);
            s.set_alpha(num(start)).set_alpha_decay(num(decay)).set_alpha_target(num(0.0));
            let mut before = start;
            for frame in s.tick(50, &host).unwrap().frames {
                let alpha = val(frame.alpha);
                assert!((0.0..=before).contains(&alpha), "{start} {decay}: {before} to {alpha}");
                before = alpha;
            }
        }
    }
}

#[test]
fn theta_and_names_make_no_difference_on_the_gpu() {
    let build = |name: &str, theta: f32| {
        let charge = ForceSpec::ManyBody {
            strength: Values::from(num(-30.0)),
            theta: num(theta),
            distance_min: num(1.0),
            distance_max: num(100.0),
        };
        let c = Config::default().force(name, charge);
        GpuSimulation::with_gpu(card(false), &nodes(3), &c).unwrap()
    };
    let (mut a, mut b) = (build("charge", 0.9), build("other", 0.0));
    assert_eq!(a.params, b.params);
    assert_eq!(a.nodes_f, b.nodes_f);
    assert_eq!(a.passes, b.passes);
    let (p, q) = (a.tick(4, &host).unwrap(), b.tick(4, &host).unwrap());
    assert_eq!(p.frames, q.frames);
    assert_eq!(p.commands, q.commands);
}

#[test]
fn the_same_calls_send_the_same() {
    let play = || {
        let mut s = sim(3);
        let mut record = Vec::new();
        s.set_fixed(1, num(2.0), F32::nan());
        record.push(s.tick(2, &host).unwrap());
        s.read_back(&word_bytes(&[7; 6]));
        s.set_position(0, num(1.0), num(2.0));
        s.set_alpha(num(0.7)).set_velocity_decay(num(0.1));
        record.push(s.tick(3, &host).unwrap());
        record.extend(s.run(5, &host).1);
        (s, record)
    };
    let ((a, first), (b, second)) = (play(), play());
    assert_eq!(a.params, b.params);
    assert_eq!(a.nodes_f, b.nodes_f);
    assert_eq!(first.len(), second.len());
    for (p, q) in first.iter().zip(&second) {
        assert_eq!(p.upload_nodes, q.upload_nodes);
        assert_eq!(p.stopped, q.stopped);
        assert_eq!(p.frames, q.frames);
        assert_eq!(p.commands, q.commands);
    }
}

#[test]
fn names_can_be_owned_or_borrowed() {
    let c = Config::default()
        .force("x", ForceSpec::x(num(0.0)))
        .force(String::from("y"), ForceSpec::y(num(0.0)));
    assert_eq!((c.forces[0].0.as_str(), c.forces[1].0.as_str()), ("x", "y"));
}

#[test]
fn the_velocity_decay_comes_back() {
    let mut s = sim(3);
    let step = 2f64.powi(-24);
    let mut tried = vec![0.0f32, 1.0, 0.4, 0.35, 0.1, 1e-10, f32::from_bits(1), 0.49999997, 0.5];
    tried.extend((0..1000).map(|k| k as f32 / 999.0));
    tried.extend((0..1000).map(|k| (k as f64 * 7.0 * step) as f32));
    for v in tried {
        s.set_velocity_decay(num(v));
        let r = val(host(s.velocity_decay()));
        assert!((r as f64 - v as f64).abs() <= 2f64.powi(-25), "{v} to {r}");
        if v >= 0.5 || (v as f64 / step).fract() == 0.0 {
            assert_eq!(r, v);
        }
    }
}

#[test]
fn simulations_on_one_device_do_not_disturb_each_other() {
    let gpu = card(false);
    let build = |n| GpuSimulation::with_gpu(gpu.clone(), &nodes(n), &config()).unwrap();
    let (mut a, mut b, mut alone) = (build(5), build(3), build(3));
    a.tick(4, &host);
    b.set_fixed(1, num(1.0), num(2.0));
    a.set_fixed(1, num(9.0), num(9.0));
    a.run(10, &host);
    let shared = b.tick(2, &host).unwrap();
    alone.set_fixed(1, num(1.0), num(2.0));
    let own = alone.tick(2, &host).unwrap();
    assert_eq!(shared.frames, own.frames);
    assert_eq!(shared.commands, own.commands);
    assert_eq!(shared.upload_nodes, own.upload_nodes);
    assert_eq!(b.node_bytes(), alone.node_bytes());
    assert_eq!(b.alpha(), alone.alpha());
}

#[test]
fn the_adapter_stays() {
    for (acquired, backend) in
        [(Ok(card(false)), Backend::Gpu), (Err(GpuError::NoAdapter), Backend::Cpu)]
    {
        let mut s = Simulation::new(acquired, &nodes(3), &config());
        s.tick(1, &host);
        s.run(2, &host);
        s.set_alpha(num(0.1));
        s.set_alpha_target(num(0.1));
        s.set_alpha_decay(num(0.1));
        s.set_fixed(0, num(0.0), num(0.0));
        assert_eq!(s.backend(), backend);
        assert_eq!(s.adapter().is_some(), backend == Backend::Gpu);
    }
}

#[test]
fn a_run_is_its_ticks() {
    let (mut a, mut b) = (sim(3), sim(3));
    let (ticks, sent) = a.run(12, &host);
    let ticked = b.tick(ticks, &host).unwrap();
    assert_eq!(sent.unwrap().frames, ticked.frames);
    assert_eq!(a.params, b.params);
    assert_eq!(a.stale_bytes(), b.stale_bytes());
}
