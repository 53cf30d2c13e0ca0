use marketdata_service::feed::rng::Rng;
use marketdata_service::feed::single::whole_to_single_bits;

#[test]
fn deterministic() {
    let mut a = Rng::new(42);
    let mut b = Rng::new(42);
    for _ in 0..32 {
        assert_eq!(a.next_u64(), b.next_u64());
    }
}

#[test]
fn different_seeds_differ() {
    let mut a = Rng::new(1);
    let mut b = Rng::new(2);
    // Probability of collision in first 4 draws is astronomically small.
    let mut equal = true;
    for _ in 0..4 {
        if a.next_u64() != b.next_u64() {
            equal = false;
            break;
        }
    }
    assert!(!equal);
}

#[test]
fn next_in_range_bounded() {
    let mut r = Rng::new(7);
    for _ in 0..10_000 {
        assert!(r.next_in_range(100) < 100);
    }
    assert_eq!(r.next_in_range(0), 0);
}

#[test]
fn known_outputs() {
    let mut r = Rng::new(42);
    assert_eq!(r.next_u64(), 0x1578_0b2e_0c2e_c716);
    assert_eq!(r.next_u64(), 0x6104_d986_6d11_3a7e);
    assert_eq!(r.next_u64(), 0xae17_5332_39e4_99a1);
    assert_eq!(r.next_u64(), 0xecb8_ad47_03b3_60a1);
    let mut z = Rng::new(0);
    assert_eq!(z.next_u64(), 0x99ec_5f36_cb75_f2b4);
    assert_eq!(z.next_u64(), 0xbf6e_1f78_4956_452a);
}

#[test]
fn known_ranges() {
    let mut r = Rng::new(7);
    let drawn: Vec<u32> = (0..6).map(|_| r.next_in_range(100)).collect();
    assert_eq!(drawn, vec![79, 14, 89, 43, 92, 23]);
}

#[test]
fn an_empty_range_takes_no_step() {
    let mut a = Rng::new(42);
    let mut b = Rng::new(42);
    assert_eq!(a.next_in_range(0), 0);
    assert_eq!(a.next_u64(), b.next_u64());
}

#[test]
fn whole_numbers_as_floats() {
    for n in 1..=4096u32 {
        assert_eq!(whole_to_single_bits(n), (n as f32).to_bits(), "{n}");
    }
    for n in [65_535u32, 65_536, 8_388_607, 8_388_608, 8_388_609, 16_777_215] {
        assert_eq!(whole_to_single_bits(n), (n as f32).to_bits(), "{n}");
    }
}

#[test]
fn the_generator_does_not_run_dry() {
    for seed in [0u64, 1, u64::MAX] {
        let mut r = Rng::new(seed);
        let mut zeros = 0;
        for _ in 0..1_000 {
            zeros = if r.next_u64() == 0 { zeros + 1 } else { 0 };
            assert!(zeros < 4);
        }
    }
}
