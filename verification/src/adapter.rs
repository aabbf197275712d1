//! GPU adapters: what they are, and how looking for one can end.

use vstd::prelude::*;

verus! {

/// Why a GPU simulation cannot be had.
#[derive(Debug)]
pub enum GpuError {
    NoAdapter,
    Device(String),
    Unsupported(String),
}

impl GpuError {
    /// The text of the error.
    pub open spec fn text(self) -> Seq<char> {
        match self {
            GpuError::NoAdapter => "no compatible GPU adapter found"@,
            GpuError::Device(e) => "device request failed: "@ + e@,
            GpuError::Unsupported(e) => "unsupported configuration: "@ + e@,
        }
    }

    /// The text of the error.
    pub fn message(&self) -> (r: String)
        ensures
            r@ == self.text(),
    {
        match self {
            GpuError::NoAdapter => "no compatible GPU adapter found".to_owned(),
            GpuError::Device(e) => {
                let mut r = "device request failed: ".to_owned();
                r.append(e.as_str());
                r
            },
            GpuError::Unsupported(e) => {
                let mut r = "unsupported configuration: ".to_owned();
                r.append(e.as_str());
                r
            },
        }
    }
}

/// The character of a decimal digit.
pub open spec fn digit(d: int) -> char {
    (0x30 + d) as char
}

/// A count in decimal, without leading zeros.
pub open spec fn decimal(n: nat) -> Seq<char>
    decreases n,
{
    if n < 10 {
        seq![digit(n as int)]
    } else {
        decimal(n / 10).push(digit((n % 10) as int))
    }
}

fn digit_text(d: u32) -> (r: &'static str)
    requires
        d < 10,
    ensures
        r@ == seq![digit(d as int)],
{
    proof {
        reveal_strlit("0");
        reveal_strlit("1");
        reveal_strlit("2");
        reveal_strlit("3");
        reveal_strlit("4");
        reveal_strlit("5");
        reveal_strlit("6");
        reveal_strlit("7");
        reveal_strlit("8");
        reveal_strlit("9");
    }
    match d {
        0 => "0",
        1 => "1",
        2 => "2",
        3 => "3",
        4 => "4",
        5 => "5",
        6 => "6",
        7 => "7",
        8 => "8",
        _ => "9",
    }
}

/// A count in decimal, without leading zeros.
pub fn decimal_text(n: u32) -> (r: String)
    ensures
        r@ == decimal(n as nat),
    decreases n,
{
    let last: &str = digit_text(n % 10);
    if n < 10 {
        last.to_owned()
    } else {
        let mut r = decimal_text(n / 10);
        r.append(last);
        r
    }
}

/// The error text for a link that joins nodes that do not exist.
pub open spec fn endpoint_text(link: (u32, u32)) -> Seq<char> {
    "link endpoint out of range ("@ + decimal(link.0 as nat) + ", "@ + decimal(link.1 as nat)
        + ")"@
}

/// The error for a link that joins nodes that do not exist.
pub fn endpoint_error(link: (u32, u32)) -> (r: GpuError)
    ensures
        r matches GpuError::Unsupported(e) && e@ == endpoint_text(link),
{
    let mut e = "link endpoint out of range (".to_owned();
    e.append(decimal_text(link.0).as_str());
    e.append(", ");
    e.append(decimal_text(link.1).as_str());
    e.append(")");
    GpuError::Unsupported(e)
}

/// The graphics interface through which an adapter is reached.
#[derive(Clone, Copy, Debug, PartialEq, Eq, Structural)]
pub enum Interface {
    Noop,
    Vulkan,
    Metal,
    Dx12,
    Gl,
    BrowserWebGpu,
}

/// What an adapter is made of.
#[derive(Clone, Copy, Debug, PartialEq, Eq, Structural)]
pub enum DeviceType {
    Other,
    IntegratedGpu,
    DiscreteGpu,
    VirtualGpu,
    Cpu,
}

impl Interface {
    /// The name of the interface.
    pub open spec fn spec_name(self) -> Seq<char> {
        match self {
            Interface::Noop => "Noop"@,
            Interface::Vulkan => "Vulkan"@,
            Interface::Metal => "Metal"@,
            Interface::Dx12 => "Dx12"@,
            Interface::Gl => "Gl"@,
            Interface::BrowserWebGpu => "BrowserWebGpu"@,
        }
    }

    /// The name of the interface.
    pub fn name(self) -> (r: &'static str)
        ensures
            r@ == self.spec_name(),
    {
        match self {
            Interface::Noop => "Noop",
            Interface::Vulkan => "Vulkan",
            Interface::Metal => "Metal",
            Interface::Dx12 => "Dx12",
            Interface::Gl => "Gl",
            Interface::BrowserWebGpu => "BrowserWebGpu",
        }
    }
}

impl DeviceType {
    /// The name of the type.
    pub open spec fn spec_name(self) -> Seq<char> {
        match self {
            DeviceType::Other => "Other"@,
            DeviceType::IntegratedGpu => "IntegratedGpu"@,
            DeviceType::DiscreteGpu => "DiscreteGpu"@,
            DeviceType::VirtualGpu => "VirtualGpu"@,
            DeviceType::Cpu => "Cpu"@,
        }
    }

    /// The name of the type.
    pub fn name(self) -> (r: &'static str)
        ensures
            r@ == self.spec_name(),
    {
        match self {
            DeviceType::Other => "Other",
            DeviceType::IntegratedGpu => "IntegratedGpu",
            DeviceType::DiscreteGpu => "DiscreteGpu",
            DeviceType::VirtualGpu => "VirtualGpu",
            DeviceType::Cpu => "Cpu",
        }
    }
}

/// A GPU adapter description.
#[derive(Clone, Debug)]
pub struct AdapterInfo {
    pub name: String,
    pub backend: String,
    pub device_type: String,
    /// True for software rasterizers (llvmpipe, SwiftShader, WARP): valid adapters
    /// that run on the CPU, usually slower than the CPU backend.
    pub software: bool,
}

impl AdapterInfo {
    /// Describes an adapter by its name, its interface and what it is made of.
    pub fn describe(name: String, interface: Interface, device_type: DeviceType) -> (r: AdapterInfo)
        ensures
            r.name == name,
            r.backend@ == interface.spec_name(),
            r.device_type@ == device_type.spec_name(),
            r.software == (device_type == DeviceType::Cpu),
    {
        AdapterInfo {
            name,
            backend: interface.name().to_owned(),
            device_type: device_type.name().to_owned(),
            software: device_type == DeviceType::Cpu,
        }
    }
}

/// An open device, as far as the host program describes it. Several simulations
/// can share one.
#[derive(Clone, Debug)]
pub struct Gpu {
    pub info: AdapterInfo,
}

impl Gpu {
    /// How the search for a device ends: without an adapter there is none, and an
    /// adapter that does not open its device leaves its reason.
    pub fn acquire(adapter: Option<AdapterInfo>, device: Result<(), String>) -> (r: Result<
        Gpu,
        GpuError,
    >)
        ensures
            r == match (adapter, device) {
                (None, _) => Err::<Gpu, GpuError>(GpuError::NoAdapter),
                (Some(_), Err(e)) => Err(GpuError::Device(e)),
                (Some(info), Ok(_)) => Ok(Gpu { info }),
            },
    {
        match adapter {
            None => Err(GpuError::NoAdapter),
            Some(info) => match device {
                Ok(_) => Ok(Gpu { info }),
                Err(e) => Err(GpuError::Device(e)),
            },
        }
    }
}

/// The adapter that would be used, given how the search for a device ended.
pub fn probe(acquired: Result<Gpu, GpuError>) -> (r: Option<AdapterInfo>)
    ensures
        r == match acquired {
            Ok(gpu) => Some(gpu.info),
            Err(_) => None,
        },
{
    match acquired {
        Ok(gpu) => Some(gpu.info),
        Err(_) => None,
    }
}

} // verus!
