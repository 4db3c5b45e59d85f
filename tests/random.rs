use si_level_gen::fixed_point::FixedPoint;
use si_level_gen::random::Random;

fn cycle(s: (u32, u32)) -> (u32, u32) {
    let swapped = (s.0 << 16) | (s.0 >> 16);
    let high = swapped.wrapping_add(s.1);
    (high, high.wrapping_add(s.1))
}

#[test]
fn zero_seed_uses_fixed_state() {
    assert_eq!(Random::new(0).state(), (0xd67c_e1e8, 0x42cf_adf8));
}

#[test]
fn nonzero_seed_cycles_thirty_two_times() {
    for seed in [1u32, 7, 12345, 0xdead_beef, u32::MAX] {
        let mut s = (seed ^ 0xbead_29ba, seed);
        for _ in 0..32 {
            s = cycle(s);
        }
        assert_eq!(Random::new(seed).state(), s);
    }
}

#[test]
fn one_cycle_exact_value() {
    // high 0x00010002 swaps to 0x00020001; plus low 3 gives 0x00020004; plus 3 again
    let mut r = Random::new(1);
    let s = r.state();
    let v = r.next();
    let c = cycle(s);
    assert_eq!(r.state(), c);
    assert_eq!(v.to_bits(), (c.0 % 65536) as i32);
    assert_eq!(cycle((0x0001_0002, 3)), (0x0002_0004, 0x0002_0007));
}

#[test]
fn next_max_zero_keeps_state() {
    let mut a = Random::new(99);
    let mut b = Random::new(99);
    let z = a.next_max(FixedPoint::from_bits(0));
    assert_eq!(z.to_bits(), 0);
    assert_eq!(a.state(), b.state());
    assert_eq!(a.next(), b.next());
}

#[test]
fn next_max_reduces_raw_bits() {
    let mut r = Random::new(5);
    let c = cycle(r.state());
    let v = r.next_max(FixedPoint::from_bits(100 * 65536));
    assert_eq!(v.to_bits() as u32, c.0 % (100 * 65536));
    let mut r = Random::new(5);
    let v = r.next_max(FixedPoint::from_bits(i32::MIN));
    assert_eq!(v.to_bits() as u32, c.0 % 0x8000_0000);
}

#[test]
fn next_uint_max_is_integer_part() {
    let mut r = Random::new(77);
    for _ in 0..100 {
        let c = cycle(r.state());
        let v = r.next_uint_max(48);
        assert!(v < 48);
        assert_eq!(v as u32, (c.0 % (48 * 65536)) / 65536);
    }
    let mut r = Random::new(77);
    let s = r.state();
    assert_eq!(r.next_uint_max(0), 0);
    assert_eq!(r.state(), s);
}
