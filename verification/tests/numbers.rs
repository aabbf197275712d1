//! Numbers as bit patterns, words as bytes, and the texts that are made of them.

use forcefield_gpu::adapter::{decimal_text, endpoint_error, DeviceType, Interface};
use forcefield_gpu::bytes::{byte_words, send, send_numbers, value_bytes, word_bytes, Word};
use forcefield_gpu::model::{
    DECAY_IN_300_TICKS, FOUR_TENTHS, NINE_TENTHS, ONE_TENTH, ONE_THOUSANDTH, THIRTY,
};
use forcefield_gpu::number::resolve;
use forcefield_gpu::{probe, AdapterInfo, Gpu, GpuError, Scalar, F32};

fn num(v: f32) -> F32 {
    F32 { bits: v.to_bits() }
}

fn samples() -> Vec<f32> {
    vec![
        0.0,
        -0.0,
        1.0,
        -1.0,
        1.5,
        f32::MIN_POSITIVE,
        -f32::MIN_POSITIVE,
        f32::from_bits(1),
        f32::from_bits(0x8000_0001),
        f32::from_bits(0x007f_ffff),
        f32::MAX,
        f32::MIN,
        f32::INFINITY,
        f32::NEG_INFINITY,
        f32::NAN,
        f32::from_bits(0xffc0_0000),
        f32::from_bits(0x7f80_0001),
        0.001,
        0.1,
        300.0,
        16_777_216.0,
        16_777_218.0,
    ]
}

#[test]
fn classes_are_those_of_the_machine() {
    for v in samples() {
        assert_eq!(num(v).is_nan(), v.is_nan(), "{v}");
        assert_eq!(num(v).is_finite(), v.is_finite(), "{v}");
    }
}

#[test]
fn order_is_that_of_the_machine() {
    for a in samples() {
        for b in samples() {
            assert_eq!(num(a).at_least(num(b)), a >= b, "{a} {b}");
            assert_eq!(num(a) == num(b), a == b, "{a} {b}");
        }
    }
}

#[test]
fn order_is_total_and_transitive_on_numbers() {
    let all: Vec<F32> = samples().into_iter().map(num).filter(|v| !v.is_nan()).collect();
    for a in &all {
        for b in &all {
            assert!(a.at_least(*b) || b.at_least(*a));
            for c in &all {
                if a.at_least(*b) && b.at_least(*c) {
                    assert!(a.at_least(*c));
                }
            }
        }
        assert!(F32::infinity().at_least(*a));
    }
}

#[test]
fn nan_is_neither_above_nor_below() {
    let nan = F32::nan();
    assert!(nan.is_nan());
    for v in samples() {
        assert!(!nan.at_least(num(v)));
        assert!(!num(v).at_least(nan));
        assert!(nan != num(v));
    }
}

#[test]
fn constants_are_the_decimals_they_are_named_after() {
    assert_eq!(F32::zero().bits, 0f32.to_bits());
    assert_eq!(F32::one().bits, 1f32.to_bits());
    assert_eq!(F32::infinity().bits, f32::INFINITY.to_bits());
    assert_eq!(NINE_TENTHS, 0.9f32.to_bits());
    assert_eq!(THIRTY, 30f32.to_bits());
    assert_eq!(ONE_TENTH, 0.1f32.to_bits());
    assert_eq!(ONE_THOUSANDTH, 0.001f32.to_bits());
    assert_eq!(FOUR_TENTHS, 0.4f32.to_bits());
    assert_eq!(DECAY_IN_300_TICKS, (1.0 - 0.001f32.powf(1.0 / 300.0)).to_bits());
}

#[test]
fn the_default_decay_takes_300_ticks() {
    let decay = f32::from_bits(DECAY_IN_300_TICKS);
    let mut alpha = 1f32;
    let mut ticks = 0;
    while alpha >= 0.001 {
        alpha += (0.0 - alpha) * decay;
        ticks += 1;
    }
    assert!((299..=301).contains(&ticks), "{ticks}");
}

#[test]
fn a_number_stands_for_itself() {
    let host = |_: Scalar| num(7.0);
    assert_eq!(resolve(&host, Scalar::Value(num(3.0))).bits, 3f32.to_bits());
    assert_eq!(resolve(&host, Scalar::Square(num(3.0))).bits, 7f32.to_bits());
    let nan = F32 { bits: 0xffc0_1234 };
    assert_eq!(resolve(&host, Scalar::Value(nan)).bits, 0xffc0_1234);
}

#[test]
fn words_are_sent_in_machine_order() {
    let words = [0x0102_0304u32, 5, u32::MAX];
    let mut want = Vec::new();
    for w in words {
        want.extend_from_slice(&w.to_ne_bytes());
    }
    assert_eq!(word_bytes(&words), want);
    assert_eq!(word_bytes(&[]), Vec::<u8>::new());
}

#[test]
fn words_are_read_back() {
    let words = vec![0x0102_0304u32, 5, u32::MAX];
    assert_eq!(byte_words(&word_bytes(&words)), Some(words));
    assert_eq!(byte_words(&[]), Some(Vec::new()));
    assert_eq!(byte_words(&[0, 0, 0, 0, 7]), None);
    assert_eq!(byte_words(&[1]), None);
}

#[test]
fn bytes_need_no_alignment() {
    let bytes = [9u8, 1, 0, 0, 0, 2, 0, 0, 0];
    let want = vec![
        u32::from_ne_bytes([1, 0, 0, 0]),
        u32::from_ne_bytes([2, 0, 0, 0]),
    ];
    assert_eq!(byte_words(&bytes[1..]), Some(want));
}

#[test]
fn numbers_are_sent_as_their_bits() {
    let values = vec![num(1.5), num(-2.0)];
    assert_eq!(byte_words(&value_bytes(&values)), Some(vec![1.5f32.to_bits(), (-2f32).to_bits()]));
    let host = |s: Scalar| match s {
        Scalar::Quotient { num: a, den: b } => num(a as f32 / b as f32),
        _ => F32::zero(),
    };
    let formulas = vec![Scalar::Value(num(4.0)), Scalar::Quotient { num: 1, den: 4 }];
    assert_eq!(
        byte_words(&send_numbers(&host, &formulas)),
        Some(vec![4f32.to_bits(), 0.25f32.to_bits()])
    );
    let words = vec![Word::Count(9), Word::Number(Scalar::Quotient { num: 1, den: 2 })];
    assert_eq!(byte_words(&send(&host, &words)), Some(vec![9, 0.5f32.to_bits()]));
}

#[test]
fn counts_are_written_in_decimal() {
    for n in [0, 7, 9, 10, 99, 100, 1_000_000, u32::MAX] {
        assert_eq!(decimal_text(n), n.to_string());
    }
}

#[test]
fn every_error_says_what_is_wrong() {
    assert_eq!(GpuError::NoAdapter.message(), "no compatible GPU adapter found");
    assert_eq!(
        GpuError::Device("out of memory".to_string()).message(),
        "device request failed: out of memory"
    );
    assert_eq!(
        endpoint_error((3, 4_294_967_295)).message(),
        "unsupported configuration: link endpoint out of range (3, 4294967295)"
    );
}

#[test]
fn adapters_are_described_by_their_names() {
    let info =
        AdapterInfo::describe("llvmpipe".to_string(), Interface::Vulkan, DeviceType::Cpu);
    assert_eq!(info.name, "llvmpipe");
    assert_eq!(info.backend, "Vulkan");
    assert_eq!(info.device_type, "Cpu");
    assert!(info.software);
    for interface in [
        Interface::Noop,
        Interface::Vulkan,
        Interface::Metal,
        Interface::Dx12,
        Interface::Gl,
        Interface::BrowserWebGpu,
    ] {
        assert_eq!(interface.name(), format!("{interface:?}"));
    }
    for kind in [
        DeviceType::Other,
        DeviceType::IntegratedGpu,
        DeviceType::DiscreteGpu,
        DeviceType::VirtualGpu,
        DeviceType::Cpu,
    ] {
        assert_eq!(kind.name(), format!("{kind:?}"));
        let info = AdapterInfo::describe(String::new(), Interface::Gl, kind);
        assert_eq!(info.software, kind == DeviceType::Cpu);
    }
}

#[test]
fn the_names_are_those_of_the_graphics_library() {
    let interfaces = [
        (wgpu::Backend::Noop, Interface::Noop),
        (wgpu::Backend::Vulkan, Interface::Vulkan),
        (wgpu::Backend::Metal, Interface::Metal),
        (wgpu::Backend::Dx12, Interface::Dx12),
        (wgpu::Backend::Gl, Interface::Gl),
        (wgpu::Backend::BrowserWebGpu, Interface::BrowserWebGpu),
    ];
    for (theirs, ours) in interfaces {
        assert_eq!(format!("{theirs:?}"), ours.name());
    }
    let kinds = [
        (wgpu::DeviceType::Other, DeviceType::Other),
        (wgpu::DeviceType::IntegratedGpu, DeviceType::IntegratedGpu),
        (wgpu::DeviceType::DiscreteGpu, DeviceType::DiscreteGpu),
        (wgpu::DeviceType::VirtualGpu, DeviceType::VirtualGpu),
        (wgpu::DeviceType::Cpu, DeviceType::Cpu),
    ];
    for (theirs, ours) in kinds {
        assert_eq!(format!("{theirs:?}"), ours.name());
    }
}

#[test]
fn a_search_ends_with_a_device_or_a_reason() {
    let info =
        || AdapterInfo::describe("card".to_string(), Interface::Metal, DeviceType::DiscreteGpu);
    assert!(matches!(Gpu::acquire(None, Ok(())), Err(GpuError::NoAdapter)));
    assert!(matches!(
        Gpu::acquire(None, Err("lost".to_string())),
        Err(GpuError::NoAdapter)
    ));
    let failed = Gpu::acquire(Some(info()), Err("lost".to_string()));
    assert_eq!(failed.unwrap_err().message(), "device request failed: lost");
    let found = Gpu::acquire(Some(info()), Ok(()));
    assert_eq!(found.as_ref().unwrap().info.name, "card");
    assert_eq!(probe(found).unwrap().device_type, "DiscreteGpu");
    assert!(probe(Err(GpuError::NoAdapter)).is_none());
}
