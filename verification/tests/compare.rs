//! Whole simulations: the CPU engine and a device in software, both driven through
//! the library. Exact agreement is impossible (single precision, gathers from a
//! snapshot, another order of summation), so the tests check agreement pass for
//! pass where the models coincide, layout statistics at convergence, pins and
//! determinism.

use forcefield::forces::{Accessor, Center, Collide, Link, LinkRef, ManyBody, Radial, X, Y};
use forcefield_gpu::auto::{CpuCall, Refresh, Work};
use forcefield_gpu::cpu::{CpuForce, CpuModel};
use forcefield_gpu::gpu::{stop, Command, Kernel};
use forcefield_gpu::{
    AdapterInfo, Backend, Config, ForceSpec, Gpu, GpuError, GpuSimulation, NodeInit, Scalar,
    Simulation, Values, F32,
};

fn num(v: f32) -> F32 {
    F32 { bits: v.to_bits() }
}

fn val(v: F32) -> f32 {
    f32::from_bits(v.bits)
}

fn wide(v: F32) -> f64 {
    val(v) as f64
}

fn same(v: f32) -> Values {
    Values::from(num(v))
}

fn spiral(i: usize) -> (f32, f32) {
    let radius = 10.0 * (0.5 + i as f64).sqrt();
    let angle = i as f64 * std::f64::consts::PI * (3.0 - 5f64.sqrt());
    ((radius * angle.cos()) as f32, (radius * angle.sin()) as f32)
}

fn eval(s: Scalar) -> f32 {
    match s {
        Scalar::Value(v) => val(v),
        Scalar::SpiralX(i) => spiral(i).0,
        Scalar::SpiralY(i) => spiral(i).1,
        Scalar::OneMinus(v) => 1.0 - val(v),
        Scalar::TwiceOneMinus(v) => 1.0 - (1.0 - val(v)),
        Scalar::Square(v) => val(v) * val(v),
        Scalar::Quotient { num, den } => num as f32 / den as f32,
        Scalar::Approach { from, to, rate } => val(from) + (val(to) - val(from)) * val(rate),
    }
}

fn host(s: Scalar) -> F32 {
    num(eval(s))
}

/// What a device keeps of an upload.
fn words(bytes: Vec<u8>) -> Vec<u32> {
    bytemuck::pod_collect_to_vec::<u8, u32>(&bytes)
}

fn numbers(bytes: Vec<u8>) -> Vec<f32> {
    bytemuck::pod_collect_to_vec::<u8, f32>(&bytes)
}

struct Device {
    params: Vec<u32>,
    pos: Vec<f32>,
    vel: Vec<f32>,
    vel_in: Vec<f32>,
    nodes: Vec<f32>,
    links_u: Vec<u32>,
    links_f: Vec<f32>,
}

/// Nodes by square cell.
struct Grid {
    cell: f32,
    cells: std::collections::HashMap<(i64, i64), Vec<usize>>,
}

impl Grid {
    fn new(points: &[(f32, f32)], cell: f32) -> Grid {
        let mut cells: std::collections::HashMap<(i64, i64), Vec<usize>> =
            std::collections::HashMap::new();
        for (i, p) in points.iter().enumerate() {
            let key = ((p.0 / cell).floor() as i64, (p.1 / cell).floor() as i64);
            cells.entry(key).or_default().push(i);
        }
        Grid { cell, cells }
    }

    fn near(&self, p: (f32, f32)) -> Vec<usize> {
        let (cx, cy) = ((p.0 / self.cell).floor() as i64, (p.1 / self.cell).floor() as i64);
        let mut out = Vec::new();
        for dx in -1..=1 {
            for dy in -1..=1 {
                if let Some(v) = self.cells.get(&(cx + dx, cy + dy)) {
                    out.extend_from_slice(v);
                }
            }
        }
        out.sort();
        out
    }
}

impl Device {
    fn new(sim: &GpuSimulation) -> Device {
        let len = sim.position_bytes() as usize / 4;
        Device {
            params: words(sim.params.bytes(&host)),
            pos: numbers(sim.start_bytes(&host)),
            vel: vec![0.0; len],
            vel_in: vec![0.0; len],
            nodes: numbers(sim.node_bytes()),
            links_u: words(sim.link_word_bytes()),
            links_f: numbers(sim.link_number_bytes(&host)),
        }
    }

    fn p(&self, k: usize) -> f32 {
        f32::from_bits(self.params[k])
    }

    fn execute(&mut self, c: Command) {
        let n = self.params[0] as usize;
        match c {
            Command::Snapshot { bytes } => {
                let k = bytes as usize / 4;
                self.vel_in[..k].copy_from_slice(&self.vel[..k]);
            }
            Command::Dispatch { kernel, groups } => {
                if kernel != Kernel::CenterReduce2 {
                    assert!(groups as usize * 256 >= n);
                    assert_eq!(groups, self.params[13]);
                }
                self.dispatch(kernel, n);
            }
        }
    }

    fn dispatch(&mut self, kernel: Kernel, n: usize) {
        let alpha = self.p(2);
        match kernel {
            Kernel::ManyBody => {
                let (dmin2, dmax2) = (self.p(4), self.p(5));
                let points: Vec<(f32, f32)> =
                    (0..n).map(|i| (self.pos[2 * i], self.pos[2 * i + 1])).collect();
                let grid = if dmax2.is_finite() {
                    Some(Grid::new(&points, dmax2.sqrt()))
                } else {
                    None
                };
                let everyone: Vec<usize> = (0..n).collect();
                for i in 0..n {
                    let near = match &grid {
                        Some(g) => g.near(points[i]),
                        None => everyone.clone(),
                    };
                    let (mut ax, mut ay) = (0f32, 0f32);
                    for j in near {
                        if j == i {
                            continue;
                        }
                        let (mut x, mut y) = (points[j].0 - points[i].0, points[j].1 - points[i].1);
                        let mut l = x * x + y * y;
                        if l >= dmax2 {
                            continue;
                        }
                        if x == 0.0 {
                            x = if i < j { 1e-7 } else { -1e-7 };
                            l += x * x;
                        }
                        if y == 0.0 {
                            y = if i < j { 1e-7 } else { -1e-7 };
                            l += y * y;
                        }
                        if l < dmin2 {
                            l = (dmin2 * l).sqrt();
                        }
                        let w = self.nodes[12 * j] * alpha / l;
                        ax += x * w;
                        ay += y * w;
                    }
                    self.vel[2 * i] += ax;
                    self.vel[2 * i + 1] += ay;
                }
            }
            Kernel::Link => {
                let (ptr, idx, ends) = (
                    self.params[14] as usize,
                    self.params[15] as usize,
                    self.params[16] as usize,
                );
                for v in 0..n {
                    let (from, to) = (self.links_u[ptr + v], self.links_u[ptr + v + 1]);
                    for k in from..to {
                        let e = self.links_u[idx + k as usize] as usize;
                        let s = self.links_u[ends + 2 * e] as usize;
                        let t = self.links_u[ends + 2 * e + 1] as usize;
                        let at = |i: usize, a: usize| self.pos[2 * i + a] + self.vel_in[2 * i + a];
                        let (x, y) = (at(t, 0) - at(s, 0), at(t, 1) - at(s, 1));
                        let l = (x * x + y * y).sqrt();
                        let f = (l - self.links_f[3 * e]) / l * alpha * self.links_f[3 * e + 1];
                        let b = self.links_f[3 * e + 2];
                        let share = if v == t { -b } else { 1.0 - b };
                        self.vel[2 * v] += x * f * share;
                        self.vel[2 * v + 1] += y * f * share;
                    }
                }
            }
            Kernel::Collide => {
                let strength = self.p(6);
                let points: Vec<(f32, f32)> = (0..n)
                    .map(|i| {
                        (
                            self.pos[2 * i] + self.vel_in[2 * i],
                            self.pos[2 * i + 1] + self.vel_in[2 * i + 1],
                        )
                    })
                    .collect();
                let widest = (0..n).map(|i| self.nodes[12 * i + 1]).fold(0f32, f32::max);
                let grid = Grid::new(&points, 2.0 * widest + 1e-3);
                for i in 0..n {
                    let ri = self.nodes[12 * i + 1];
                    for j in grid.near(points[i]) {
                        if j == i {
                            continue;
                        }
                        let rj = self.nodes[12 * j + 1];
                        let (x, y) = (points[i].0 - points[j].0, points[i].1 - points[j].1);
                        let l = x * x + y * y;
                        let r = ri + rj;
                        if l < r * r && l > 0.0 {
                            let l = l.sqrt();
                            let f = (r - l) / l * strength * (rj * rj / (ri * ri + rj * rj));
                            self.vel[2 * i] += x * f;
                            self.vel[2 * i + 1] += y * f;
                        }
                    }
                }
            }
            Kernel::ForceX => {
                for i in 0..n {
                    let (x, s) = (self.nodes[12 * i + 2], self.nodes[12 * i + 3]);
                    self.vel[2 * i] += (x - self.pos[2 * i]) * s * alpha;
                }
            }
            Kernel::ForceY => {
                for i in 0..n {
                    let (y, s) = (self.nodes[12 * i + 4], self.nodes[12 * i + 5]);
                    self.vel[2 * i + 1] += (y - self.pos[2 * i + 1]) * s * alpha;
                }
            }
            Kernel::Radial => {
                for i in 0..n {
                    let (radius, s) = (self.nodes[12 * i + 6], self.nodes[12 * i + 7]);
                    if s == 0.0 {
                        continue;
                    }
                    let dx = self.pos[2 * i] - self.p(10);
                    let dy = self.pos[2 * i + 1] - self.p(11);
                    let dx = if dx == 0.0 { 1e-6 } else { dx };
                    let dy = if dy == 0.0 { 1e-6 } else { dy };
                    let r = (dx * dx + dy * dy).sqrt();
                    let k = (radius - r) * s * alpha / r;
                    self.vel[2 * i] += dx * k;
                    self.vel[2 * i + 1] += dy * k;
                }
            }
            Kernel::CenterReduce1 | Kernel::CenterReduce2 => {}
            Kernel::CenterApply => {
                let (mut sx, mut sy) = (0f64, 0f64);
                for i in 0..n {
                    sx += self.pos[2 * i] as f64;
                    sy += self.pos[2 * i + 1] as f64;
                }
                let sx = ((sx / n as f64) as f32 - self.p(8)) * self.p(7);
                let sy = ((sy / n as f64) as f32 - self.p(9)) * self.p(7);
                for i in 0..n {
                    self.pos[2 * i] -= sx;
                    self.pos[2 * i + 1] -= sy;
                }
            }
            Kernel::Integrate => {
                let keep = self.p(3);
                for i in 0..n {
                    for a in 0..2 {
                        let k = 2 * i + a;
                        if self.nodes[12 * i + 10 + a] != 0.0 {
                            self.pos[k] = self.nodes[12 * i + 8 + a];
                            self.vel[k] = 0.0;
                        } else {
                            self.vel[k] *= keep;
                            self.pos[k] += self.vel[k];
                        }
                    }
                }
            }
        }
    }
}

fn node_acc(v: &Values) -> Accessor<usize> {
    match v {
        Values::Constant(c) => Accessor::Constant(wide(*c)),
        Values::Each(e) => Accessor::Values(e.iter().map(|x| wide(*x)).collect()),
    }
}

fn link_acc(v: &Values) -> Accessor<LinkRef> {
    match v {
        Values::Constant(c) => Accessor::Constant(wide(*c)),
        Values::Each(e) => Accessor::Values(e.iter().map(|x| wide(*x)).collect()),
    }
}

fn engine(model: &CpuModel) -> forcefield::Simulation {
    let ns: Vec<forcefield::Node> = model
        .nodes
        .iter()
        .map(|n| forcefield::Node {
            x: wide(n.x),
            y: wide(n.y),
            vx: wide(n.vx),
            vy: wide(n.vy),
            fx: wide(n.fx),
            fy: wide(n.fy),
        })
        .collect();
    let mut sim = forcefield::Simulation::new(&ns);
    sim.set_alpha(wide(model.alpha))
        .set_alpha_min(wide(model.alpha_min))
        .set_alpha_decay(wide(model.alpha_decay))
        .set_alpha_target(wide(model.alpha_target))
        .set_velocity_decay(wide(model.velocity_decay));
    for (name, force) in &model.forces {
        let force: Box<dyn forcefield::Force> = match force {
            CpuForce::ManyBody { strength, theta, distance_min, distance_max } => Box::new(
                ManyBody::new()
                    .strength(node_acc(strength))
                    .theta(wide(*theta))
                    .distance_min(wide(*distance_min))
                    .distance_max(wide(*distance_max)),
            ),
            CpuForce::Link { links, distance, strength, iterations } => {
                let mut f =
                    Link::new(links.clone()).distance(link_acc(distance)).iterations(*iterations);
                if let Some(s) = strength {
                    f = f.strength(link_acc(s));
                }
                Box::new(f)
            }
            CpuForce::Collide { radius, strength, iterations } => Box::new(
                Collide::new(node_acc(radius)).strength(wide(*strength)).iterations(*iterations),
            ),
            CpuForce::X { x, strength } => {
                Box::new(X::new(node_acc(x)).strength(node_acc(strength)))
            }
            CpuForce::Y { y, strength } => {
                Box::new(Y::new(node_acc(y)).strength(node_acc(strength)))
            }
            CpuForce::Center { x, y, strength } => {
                Box::new(Center::new(wide(*x), wide(*y)).strength(wide(*strength)))
            }
            CpuForce::Radial { radius, x, y, strength } => Box::new(
                Radial::new(node_acc(radius), wide(*x), wide(*y)).strength(node_acc(strength)),
            ),
        };
        sim.add_force(name.clone(), force);
    }
    sim
}

/// A simulation with what it runs on.
struct Host {
    core: Simulation,
    cpu: Option<forcefield::Simulation>,
    gpu: Option<Device>,
}

fn soft_gpu() -> Result<Gpu, GpuError> {
    Ok(Gpu {
        info: AdapterInfo {
            name: "soft".to_string(),
            backend: "Noop".to_string(),
            device_type: "Cpu".to_string(),
            software: true,
        },
    })
}

impl Host {
    fn with(core: Simulation) -> Host {
        let (cpu, gpu) = match &core {
            Simulation::Cpu { model, .. } => (Some(engine(model)), None),
            Simulation::Gpu(g) => (None, Some(Device::new(g))),
        };
        Host { core, cpu, gpu }
    }

    fn new(backend: Backend, nodes: &[NodeInit], config: &Config) -> Host {
        Host::with(Simulation::with_backend(backend, soft_gpu(), nodes, config).unwrap())
    }

    fn call(&mut self, call: CpuCall) -> usize {
        let sim = self.cpu.as_mut().unwrap();
        match call {
            CpuCall::Tick(k) => {
                sim.tick(k);
                k
            }
            CpuCall::Run(k) => sim.run(k),
            CpuCall::SetAlpha(v) => {
                sim.set_alpha(wide(v));
                0
            }
            CpuCall::SetAlphaTarget(v) => {
                sim.set_alpha_target(wide(v));
                0
            }
            CpuCall::SetAlphaDecay(v) => {
                sim.set_alpha_decay(wide(v));
                0
            }
            CpuCall::SetFixed { i, fx, fy } => {
                sim.bodies_mut().set_fixed(i, wide(fx), wide(fy));
                0
            }
        }
    }

    /// Does the work of a run of ticks. Returns their number if the engine counts.
    fn work(&mut self, work: Work) -> usize {
        match work {
            Work::Nothing => 0,
            Work::Cpu(call) => self.call(call),
            Work::Gpu(plan) => {
                let device = self.gpu.as_mut().unwrap();
                if let (true, Simulation::Gpu(g)) = (plan.upload_nodes, &self.core) {
                    device.nodes = numbers(g.node_bytes());
                }
                for i in &plan.stopped {
                    let upload = stop(*i);
                    let at = upload.offset as usize / 4;
                    device.vel[at..at + 2].copy_from_slice(&numbers(upload.bytes));
                }
                for frame in &plan.frames {
                    device.params = words(frame.bytes(&host));
                    for c in &plan.commands {
                        device.execute(*c);
                    }
                }
                plan.frames.len()
            }
        }
    }

    fn tick(&mut self, iterations: usize) {
        let work = self.core.tick(iterations, &host);
        self.work(work);
    }

    fn run(&mut self, max_ticks: usize) -> usize {
        let run = self.core.run(max_ticks, &host);
        let counted = self.work(run.work);
        run.ticks.unwrap_or(counted)
    }

    fn positions(&mut self) -> Vec<f32> {
        match self.core.refresh() {
            Refresh::Nothing => {}
            Refresh::Bodies => {
                let pos: Vec<F32> = self
                    .cpu
                    .as_ref()
                    .unwrap()
                    .bodies()
                    .pos
                    .iter()
                    .map(|p| num(*p as f32))
                    .collect();
                self.core.store_bodies(&pos);
            }
            Refresh::Device { bytes } => {
                let device = self.gpu.as_ref().unwrap();
                let all: Vec<u8> = bytemuck::cast_slice::<f32, u8>(&device.pos).to_vec();
                if let Simulation::Gpu(g) = &mut self.core {
                    g.read_back(&all[..bytes as usize]);
                }
            }
        }
        self.core.positions().iter().map(|s| eval(*s)).collect()
    }

    fn set_fixed(&mut self, i: usize, fx: f32, fy: f32) {
        if let Some(call) = self.core.set_fixed(i, num(fx), num(fy)) {
            self.call(call);
        }
    }

    fn alpha(&self) -> f32 {
        match self.core.alpha() {
            Some(v) => val(v),
            None => self.cpu.as_ref().unwrap().alpha() as f32,
        }
    }
}

fn lcg(seed: u32) -> impl FnMut() -> f32 {
    let mut s = seed as u64;
    move || {
        s = (1664525 * s + 1013904223) % 4294967296;
        s as f32 / 4294967296.0
    }
}

fn graph(n: usize, extra: usize, seed: u32) -> (Vec<NodeInit>, Vec<(u32, u32)>) {
    let mut rnd = lcg(seed);
    let nodes = (0..n)
        .map(|_| NodeInit::at(num((rnd() * 800.0).round()), num((rnd() * 600.0).round())))
        .collect();
    let mut links: Vec<(u32, u32)> =
        (1..n).map(|i| ((rnd() * i as f32) as u32, i as u32)).collect();
    for _ in 0..extra {
        let a = (rnd() * n as f32) as u32;
        let b = (rnd() * n as f32) as u32;
        if a != b {
            links.push((a, b));
        }
    }
    (nodes, links)
}

fn consumer_config(links: Vec<(u32, u32)>, n: usize) -> Config {
    let mut degree = vec![0u32; n];
    for &(a, b) in &links {
        degree[a as usize] += 1;
        degree[b as usize] += 1;
    }
    let strength: Vec<F32> = links
        .iter()
        .map(|&(a, b)| num(0.3 / degree[a as usize].min(degree[b as usize]).max(1) as f32))
        .collect();
    Config { alpha_decay: num(0.015), velocity_decay: num(0.35), ..Config::default() }
        .force(
            "collide",
            ForceSpec::Collide { radius: same(25.0), strength: num(1.0), iterations: 2 },
        )
        .force(
            "link",
            ForceSpec::Link {
                links,
                distance: same(80.0),
                strength: Some(Values::Each(strength)),
                iterations: 1,
            },
        )
        .force(
            "many-body",
            ForceSpec::ManyBody {
                strength: same(-150.0),
                theta: num(0.9),
                distance_min: num(5.0),
                distance_max: num(250.0),
            },
        )
        .force("x", ForceSpec::X { x: same(0.0), strength: same(0.05) })
        .force("y", ForceSpec::Y { y: same(0.0), strength: same(0.05) })
        .force("center", ForceSpec::center(num(400.0), num(300.0)))
}

fn stats(pos: &[f32], links: &[(u32, u32)], radius: f32) -> (f32, f32, f32, f32) {
    let n = pos.len() / 2;
    let mean_edge = links
        .iter()
        .map(|&(a, b)| {
            ((pos[2 * a as usize] - pos[2 * b as usize]).powi(2)
                + (pos[2 * a as usize + 1] - pos[2 * b as usize + 1]).powi(2))
            .sqrt()
        })
        .sum::<f32>()
        / links.len() as f32;
    let (mut x0, mut y0, mut x1, mut y1) = (f32::MAX, f32::MAX, f32::MIN, f32::MIN);
    for i in 0..n {
        x0 = x0.min(pos[2 * i]);
        x1 = x1.max(pos[2 * i]);
        y0 = y0.min(pos[2 * i + 1]);
        y1 = y1.max(pos[2 * i + 1]);
    }
    let extent = ((x1 - x0) * (y1 - y0)).sqrt();
    let mut overlaps = 0usize;
    let mut nn = 0f32;
    for i in 0..n {
        let mut best = f32::MAX;
        for j in 0..n {
            if i == j {
                continue;
            }
            let d = ((pos[2 * i] - pos[2 * j]).powi(2) + (pos[2 * i + 1] - pos[2 * j + 1]).powi(2))
                .sqrt();
            if d < best {
                best = d;
            }
            if j > i && d < 2.0 * radius * 0.9 {
                overlaps += 1;
            }
        }
        nn += best;
    }
    (mean_edge, extent, overlaps as f32 / n as f32, nn / n as f32)
}

#[test]
fn many_body_and_positional_forces_agree_pass_for_pass() {
    // theta 0 makes the CPU many-body exact pairwise, like brute force.
    let (nodes, _) = graph(400, 0, 3);
    let config = Config::default()
        .force(
            "charge",
            ForceSpec::ManyBody {
                strength: same(-30.0),
                theta: num(0.0),
                distance_min: num(1.0),
                distance_max: num(f32::INFINITY),
            },
        )
        .force("x", ForceSpec::X { x: same(100.0), strength: same(0.1) })
        .force("y", ForceSpec::Y { y: same(-50.0), strength: same(0.1) })
        .force(
            "radial",
            ForceSpec::Radial {
                radius: same(200.0),
                x: num(0.0),
                y: num(0.0),
                strength: same(0.05),
            },
        )
        .force("center", ForceSpec::center(num(10.0), num(20.0)));
    let mut cpu = Host::new(Backend::Cpu, &nodes, &config);
    let mut gpu = Host::new(Backend::Gpu, &nodes, &config);
    for t in 1..=5 {
        cpu.tick(1);
        gpu.tick(1);
        let a = cpu.positions();
        let b = gpu.positions();
        let mut worst = 0f32;
        for i in 0..a.len() {
            let scale = a[i].abs().max(100.0);
            worst = worst.max((a[i] - b[i]).abs() / scale);
        }
        println!("tick {t}: worst relative deviation {worst:e}");
        assert!(worst < 1e-3, "tick {t}: GPU deviates from CPU by {worst:e}");
    }
    assert!((cpu.alpha() - gpu.alpha()).abs() < 1e-6);
}

#[test]
fn consumer_configuration_converges_to_an_equivalent_layout() {
    let n = 1500;
    let (nodes, links) = graph(n, n / 3, 11);
    let config = consumer_config(links.clone(), n);
    let mut cpu = Host::new(Backend::Cpu, &nodes, &config);
    let mut gpu = Host::new(Backend::Gpu, &nodes, &config);
    let tc = cpu.run(400);
    let tg = gpu.run(400);
    assert_eq!(tc, tg, "same alpha schedule → same tick count");
    let sc = stats(&cpu.positions(), &links, 25.0);
    let sg = stats(&gpu.positions(), &links, 25.0);
    println!(
        "cpu: mean edge {:.1}, extent {:.0}, overlaps/node {:.3}, nn {:.1}",
        sc.0, sc.1, sc.2, sc.3
    );
    println!(
        "gpu: mean edge {:.1}, extent {:.0}, overlaps/node {:.3}, nn {:.1}",
        sg.0, sg.1, sg.2, sg.3
    );
    let rel = |a: f32, b: f32| (a - b).abs() / a.abs().max(1e-6);
    assert!(
        rel(sc.0, sg.0) < 0.10,
        "mean edge length differs by {:.1}%",
        100.0 * rel(sc.0, sg.0)
    );
    assert!(
        rel(sc.1, sg.1) < 0.15,
        "layout extent differs by {:.1}%",
        100.0 * rel(sc.1, sg.1)
    );
    assert!(
        rel(sc.3, sg.3) < 0.10,
        "nearest-neighbour distance differs by {:.1}%",
        100.0 * rel(sc.3, sg.3)
    );
    assert!(
        sg.2 < sc.2 + 0.05,
        "GPU leaves more overlapping pairs ({:.3}/node vs {:.3})",
        sg.2,
        sc.2
    );
}

#[test]
fn pins_hold_and_runs_are_deterministic() {
    let (nodes, links) = graph(300, 50, 5);
    let config = consumer_config(links, 300);
    let mut a = Host::new(Backend::Gpu, &nodes, &config);
    let mut b = Host::new(Backend::Gpu, &nodes, &config);
    a.set_fixed(7, 123.0, -45.0);
    b.set_fixed(7, 123.0, -45.0);
    a.tick(50);
    b.tick(50);
    let pa = a.positions();
    let pb = b.positions();
    assert_eq!(pa[14], 123.0);
    assert_eq!(pa[15], -45.0);
    assert_eq!(pa, pb, "two GPU runs with the same input must be bit-identical");
    a.set_fixed(7, f32::NAN, f32::NAN);
    a.tick(5);
    assert_ne!(a.positions()[14], 123.0, "unpinned node moves again");
}

#[test]
fn auto_selects_and_cpu_backend_always_works() {
    let (nodes, links) = graph(50, 10, 1);
    let config = consumer_config(links, 50);
    let core = Simulation::new(Err(GpuError::NoAdapter), &nodes, &config);
    let mut sim = Host::with(core);
    println!(
        "auto backend: {:?} {:?}",
        sim.core.backend(),
        sim.core.adapter().map(|a| a.name.clone())
    );
    sim.tick(3);
    assert!(sim.positions().iter().all(|v| v.is_finite()));
    let mut cpu = Host::new(Backend::Cpu, &nodes, &config);
    cpu.tick(3);
    assert_eq!(cpu.core.backend(), Backend::Cpu);
}
