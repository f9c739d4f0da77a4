use lcg_rand::LCG;
use lcg_rand::lcg::{DEFAULT_SEED, INCREMENT, MULTIPLIER};

#[test]
fn test_range() {
    let mut r = LCG::from_time(None);
    let mut outside: bool = false;

    for _ in 0..100 {
        let v: u8 = r.range(1, 3) as u8;

        if v < 1 || v > 3 {
            outside = true;
            break;
        }
    }

    assert_eq!(outside, false);
}

#[test]
fn test_choose() {
    let v: Vec<u8> = Vec::from("Hello world!");
    let mut r = LCG::from_time(None);

    let mut random = LCG::from_time(None);
    let arr: [&str; 2] = ["Hello World!", "hello world"];

    println!("{}", random.pick(&arr));

    assert_eq!(v.contains(r.pick(&v)), true);
}

#[test]
fn test_first_outputs_from_seed_one() {
    let mut g = LCG::new(1);
    let first: u64 = g.next();
    assert_eq!(first, 7806831264735756412u64);

    let expected_second: u64 = ((MULTIPLIER as u128 * first as u128 + INCREMENT as u128)
        % (1u128 << 64)) as u64;
    assert_eq!(g.next(), expected_second);
}

#[test]
fn test_range_never_leaves_bounds() {
    let seeds: [u64; 4] = [0, 1, 12345, u64::MAX];
    for seed in seeds {
        let mut g = LCG::new(seed);
        for _ in 0..100 {
            let v: u64 = g.range(1, 3);
            assert!(v >= 1 && v <= 3);
        }
    }
}

#[test]
fn test_pick_single_element() {
    let seeds: [u64; 4] = [0, 7, 524764, u64::MAX];
    for seed in seeds {
        let mut g = LCG::new(seed);
        let v: [u32; 1] = [42];
        assert_eq!(*g.pick(&v), 42);
    }
}

#[test]
fn test_determinism_default_parameters() {
    let mut a = LCG::new(777);
    let mut b = LCG::new(777);
    for _ in 0..50 {
        assert_eq!(a.next(), b.next());
    }
}

#[test]
fn test_determinism_custom_parameters() {
    let mut a = LCG::new_specific(12, 1000, 7, 31);
    let mut b = LCG::new_specific(12, 1000, 7, 31);
    for _ in 0..50 {
        assert_eq!(a.next(), b.next());
    }
}

#[test]
fn test_set_seed_leaves_running_state() {
    let mut a = LCG::new(5);
    let mut b = LCG::new(5);
    let _ = a.next();
    let _ = b.next();

    a.set_seed(999);
    assert_eq!(a.seed(), 999);

    for _ in 0..20 {
        assert_eq!(a.next(), b.next());
    }
}

#[test]
fn test_round_trip_through_parts() {
    let mut g = LCG::new(31);
    let _ = g.next();
    let _ = g.next();
    let _ = g.next();

    let mut h = LCG::from_parts(g.seed(), g.state(), g.modulus(), g.increment(), g.multiplier());
    assert_eq!(h.seed(), g.seed());
    assert_eq!(h.state(), g.state());
    assert_eq!(h.modulus(), g.modulus());
    assert_eq!(h.increment(), g.increment());
    assert_eq!(h.multiplier(), g.multiplier());

    for _ in 0..10 {
        assert_eq!(h.next(), g.next());
    }
}

#[test]
fn test_from_seed_little_endian() {
    let mut a = LCG::from_seed([1, 0, 0, 0, 0, 0, 0, 0]);
    let mut b = LCG::new(1);
    assert_eq!(a.seed(), 1);
    for _ in 0..10 {
        assert_eq!(a.next(), b.next());
    }

    let c = LCG::from_seed([0x39, 0x30, 0, 0, 0, 0, 0, 0]);
    assert_eq!(c.seed(), 12345);

    let d = LCG::from_seed([0, 0, 0, 0, 0, 0, 0, 1]);
    assert_eq!(d.seed(), 1u64 << 56);
}

#[test]
fn test_from_time_seed_and_fallback() {
    let mut a = LCG::from_time(Some(99));
    let mut b = LCG::new(99);
    assert_eq!(a.seed(), 99);
    for _ in 0..10 {
        assert_eq!(a.next(), b.next());
    }

    let c = LCG::from_time(None);
    assert_eq!(c.seed(), DEFAULT_SEED);
    assert_eq!(c.state(), DEFAULT_SEED);
}

#[test]
fn test_next_u32_is_low_half() {
    let mut a = LCG::new(3);
    let mut b = LCG::new(3);
    for _ in 0..10 {
        let low: u32 = a.next_u32();
        let full: u64 = b.next_u64();
        assert_eq!(low, (full & 0xffff_ffff) as u32);
    }
}

#[test]
fn test_fill_bytes_little_endian_stream() {
    let mut g = LCG::new(1);
    let mut buf: Vec<u8> = vec![0; 12];
    g.fill_bytes(&mut buf);

    let mut h = LCG::new(1);
    let w1: u64 = h.next();
    let w2: u64 = h.next();
    let mut expected: Vec<u8> = Vec::new();
    expected.extend_from_slice(&w1.to_le_bytes());
    expected.extend_from_slice(&w2.to_le_bytes()[..4]);
    assert_eq!(buf, expected);

    assert_eq!(g.state(), h.state());
}

#[test]
fn test_fill_bytes_empty_buffer() {
    let mut g = LCG::new(8);
    let mut buf: Vec<u8> = Vec::new();
    g.fill_bytes(&mut buf);
    assert_eq!(buf.len(), 0);
    assert_eq!(g.state(), 8);
}

#[test]
fn test_small_modulus_recurrence() {
    let mut g = LCG::new_specific(10, 7, 3, 5);
    assert_eq!(g.next(), 4);
    assert_eq!(g.next(), 2);
    assert!(g.state() < 7);

    let v: u64 = g.range(0, 1);
    assert!(v <= 1);
}

#[test]
fn test_field_accessors() {
    let g = LCG::new_specific(9, 100, 3, 5);
    assert_eq!(g.seed(), 9);
    assert_eq!(g.state(), 9);
    assert_eq!(g.modulus(), 100);
    assert_eq!(g.increment(), 3);
    assert_eq!(g.multiplier(), 5);
}
