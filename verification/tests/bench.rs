use mfro::bench::{Benchmark, Elapsed, apple_payload, debug_addr};

#[test]
fn default_gives_default_values() {
    assert_eq!(mfro::bench::default::<u32>(), 0);
    assert_eq!(mfro::bench::default::<String>(), "");
    assert_eq!(mfro::bench::default::<Option<u8>>(), None);
}

#[test]
fn elapsed_addition_carries_seconds() {
    let a = Elapsed::new(1, 700_000_000);
    let b = Elapsed::new(2, 400_000_000);
    let sum = a.checked_add(b).unwrap();
    assert_eq!(sum.secs(), 4);
    assert_eq!(sum.subsec_nanos(), 100_000_000);
    let exact = Elapsed::new(0, 500_000_000).checked_add(Elapsed::new(0, 500_000_000)).unwrap();
    assert_eq!((exact.secs(), exact.subsec_nanos()), (1, 0));
}

#[test]
fn elapsed_addition_overflow() {
    let max = Elapsed::new(u64::MAX, 999_999_999);
    assert_eq!(max.checked_add(Elapsed::new(0, 1)), None);
    assert_eq!(max.checked_add(Elapsed::zero()), Some(max));
    assert_eq!(Elapsed::new(u64::MAX, 1).checked_add(Elapsed::new(0, 999_999_999)), None);
}

#[test]
fn benchmark_accumulates_samples() {
    let mut b = Benchmark::new("src/main.rs:42");
    assert_eq!(b.name(), "src/main.rs:42");
    assert_eq!(b.sample_count(), 0);
    assert_eq!(b.total(), Elapsed::zero());
    b.add(Elapsed::new(1, 500_000_000));
    b.add(Elapsed::new(0, 600_000_000));
    assert_eq!(b.sample_count(), 2);
    assert_eq!(b.total(), Elapsed::new(2, 100_000_000));
    assert_eq!(b.name(), "src/main.rs:42");
}

#[test]
fn debug_addr_formats_hex_pairs() {
    assert_eq!(debug_addr([0x01, 0xab, 0xff, 0x00, 0x10, 0x9c]), "01:ab:ff:00:10:9c");
    assert_eq!(debug_addr([0xff, 0x8f, 0x1b, 0x05, 0xe4, 0xff]), "ff:8f:1b:05:e4:ff");
    assert_eq!(debug_addr([0; 6]).len(), 17);
}

#[test]
fn apple_payload_filters_reports() {
    let report = [0x1b, 0xff, 0x4c, 0x00, 0x12, 0x19, 0x00];
    assert_eq!(apple_payload(&report), Some(vec![0x12, 0x19, 0x00]));
    assert_eq!(apple_payload(&[0x02, 0xff, 0x4c, 0x00]), Some(vec![]));
    assert_eq!(apple_payload(&[0x1b, 0xff, 0x4d, 0x00, 0x12]), None);
    assert_eq!(apple_payload(&[0xff, 0x4c, 0x00, 0x00]), None);
}

#[test]
fn benchmark_total_ignores_sample_order() {
    let samples = [Elapsed::new(1, 900_000_000), Elapsed::new(0, 200_000_000), Elapsed::new(3, 0)];
    let mut forward = Benchmark::new("section");
    let mut backward = Benchmark::new("section");
    for s in samples.iter() {
        forward.add(*s);
    }
    for s in samples.iter().rev() {
        backward.add(*s);
    }
    assert_eq!((forward.total().secs(), forward.total().subsec_nanos()), (5, 100_000_000));
    assert_eq!((backward.total().secs(), backward.total().subsec_nanos()), (5, 100_000_000));
    assert_eq!(forward.sample_count(), 3);
    assert_eq!(forward.name(), "section");
}
