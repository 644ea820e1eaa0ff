use qc::arbitrary::{arbiter, arbitrary, small_n, Arbitrary, Gen, Random, SmallN};

#[test]
fn generator_matches_splitmix_reference_value() {
    let mut g = Gen::new(0);
    assert_eq!(g.next_u64(), 0xe220_a839_7b1d_cdaf);
    assert_eq!(g.next_u64(), 0x6e78_9e6a_a1b9_65f4);
}

#[test]
fn same_seed_gives_same_values() {
    let mut a = Gen::new(42);
    let mut b = Gen::new(42);
    for _ in 0..100 {
        assert_eq!(a.next_u64(), b.next_u64());
    }
    let mut c = Gen::new(43);
    let mut d = Gen::new(42);
    assert_ne!(c.next_u64(), d.next_u64());
}

#[test]
fn small_n_is_capped_at_sixteen_times_size() {
    let mut g = Gen::new(7);
    for size in [1u64, 2, 5, 10] {
        for _ in 0..200 {
            assert!(small_n(size, &mut g) <= 16 * size);
        }
    }
}

#[test]
fn small_n_of_size_zero_is_zero() {
    let mut g = Gen::new(9);
    for _ in 0..10 {
        assert_eq!(small_n(0, &mut g), 0);
    }
}

#[test]
fn small_n_varies_with_the_draws() {
    let mut g = Gen::new(3);
    let mut seen = Vec::new();
    for _ in 0..50 {
        let n = small_n(8, &mut g);
        if !seen.contains(&n) {
            seen.push(n);
        }
    }
    assert!(seen.len() > 3);
}

#[test]
fn arbitrary_vectors_have_bounded_length() {
    let mut g = Gen::new(11);
    for _ in 0..100 {
        let v: Vec<u8> = arbitrary(3, &mut g);
        assert!(v.len() <= 48);
    }
    let v: Vec<u64> = Vec::arbitrary(0, &mut g);
    assert!(v.is_empty());
}

#[test]
fn arbitrary_small_n_respects_size() {
    let mut g = Gen::new(5);
    for _ in 0..100 {
        let SmallN(n) = arbitrary(4, &mut g);
        assert!(n <= 64);
    }
}

#[test]
fn arbitrary_chars_are_in_first_block() {
    let mut g = Gen::new(1);
    for _ in 0..100 {
        let c: char = arbitrary(1, &mut g);
        assert!((c as u32) < 256);
    }
}

#[test]
fn arbitrary_u8_is_low_byte_of_draw() {
    let mut g = Gen::new(0);
    let b: u8 = arbitrary(1, &mut g);
    assert_eq!(b, 0xaf);
    let mut h = Gen::new(0);
    let Random(w) = arbitrary::<Random<u64>>(1, &mut h);
    assert_eq!(w, 0xe220_a839_7b1d_cdaf);
}

#[test]
fn arbitrary_options_and_results_take_both_shapes() {
    let mut g = Gen::new(21);
    let mut some = 0;
    let mut ok = 0;
    for _ in 0..200 {
        let o: Option<bool> = arbitrary(1, &mut g);
        if o.is_some() {
            some += 1;
        }
        let r: Result<i8, u8> = arbitrary(1, &mut g);
        if r.is_ok() {
            ok += 1;
        }
    }
    assert!(some > 0 && some < 200);
    assert!(ok > 0 && ok < 200);
}

#[test]
fn arbitrary_nested_structures_respect_size() {
    let mut g = Gen::new(8);
    for _ in 0..20 {
        let (a, b, c): (Vec<Vec<u8>>, Box<SmallN>, i64) = arbitrary(2, &mut g);
        assert!(a.len() <= 32);
        for v in &a {
            assert!(v.len() <= 32);
        }
        assert!(b.0 <= 32);
        let _ = c;
    }
}

#[test]
fn arbiter_yields_its_count() {
    let mut g = Gen::new(4);
    let mut it = arbiter(5, &mut g);
    let (lo, hi) = it.size_hint();
    assert_eq!(Some(lo), hi);
    assert!(lo <= 80);
    let mut n = 0u64;
    while let Some(x) = it.next::<u8>(&mut g) {
        let _ = x;
        n += 1;
    }
    assert_eq!(n, lo);
    assert_eq!(it.size_hint(), (0, Some(0)));
}

#[test]
fn arbitrary_strings_are_short_and_alphanumeric() {
    let mut g = Gen::new(17);
    let mut longest = 0;
    for _ in 0..100 {
        let s: String = arbitrary(3, &mut g);
        assert!(s.chars().count() <= 48);
        assert!(s.chars().all(|c| c.is_ascii_alphanumeric()));
        longest = longest.max(s.len());
    }
    assert!(longest > 0);
}

#[test]
fn option_and_result_follow_the_first_coin() {
    for seed in 0..50u64 {
        let coin = Gen::new(seed).next_bool();
        let o: Option<u8> = arbitrary(2, &mut Gen::new(seed));
        assert_eq!(o.is_some(), coin);
        let r: Result<u8, bool> = arbitrary(2, &mut Gen::new(seed));
        assert_eq!(r.is_ok(), coin);
    }
}

#[test]
fn lengths_equal_the_small_count_drawn() {
    for seed in 0..30u64 {
        let n = small_n(4, &mut Gen::new(seed));
        let v: Vec<u8> = arbitrary(4, &mut Gen::new(seed));
        assert_eq!(v.len() as u64, n);
        let s: String = arbitrary(4, &mut Gen::new(seed));
        assert_eq!(s.len() as u64, n);
        let SmallN(m) = arbitrary(4, &mut Gen::new(seed));
        assert_eq!(m, n);
        let (lo, _) = arbiter(4, &mut Gen::new(seed)).size_hint();
        assert_eq!(lo, n);
    }
}

#[test]
fn scalars_are_taken_from_the_draw() {
    let w = Gen::new(5).next_u64();
    let b: u8 = arbitrary(1, &mut Gen::new(5));
    assert_eq!(b as u64, w % 256);
    let i: i8 = arbitrary(1, &mut Gen::new(5));
    assert_eq!(i as i64, (w % 256) as i64 - 128);
    let c: char = arbitrary(1, &mut Gen::new(5));
    assert_eq!(c as u64, w % 256);
    let x: i64 = arbitrary(1, &mut Gen::new(5));
    assert_eq!(x as i128, w as i128 - (1i128 << 63));
    let t: bool = arbitrary(1, &mut Gen::new(5));
    assert_eq!(t, w >> 63 == 1);
}

#[test]
fn wide_tuples_are_generated() {
    let mut g = Gen::new(12);
    let t: (u8, bool, SmallN, u64, i8, Vec<u8>, char, Option<u8>) = arbitrary(2, &mut g);
    assert!((t.2).0 <= 32);
    assert!(t.5.len() <= 32);
    let _q: (u8, u8, u8, u8) = arbitrary(1, &mut g);
    let _r: (u8, u8, u8, u8, u8) = arbitrary(1, &mut g);
    let _s: (u8, u8, u8, u8, u8, u8) = arbitrary(1, &mut g);
    let _u: (u8, u8, u8, u8, u8, u8, u8) = arbitrary(1, &mut g);
}

#[test]
fn arbitrary_hash_collections_are_bounded() {
    let mut g = Gen::new(31);
    let mut any = false;
    for _ in 0..50 {
        let s: std::collections::HashSet<u8> = arbitrary(3, &mut g);
        assert!(s.len() <= 48);
        let m: std::collections::HashMap<u8, bool> = arbitrary(3, &mut g);
        assert!(m.len() <= 48);
        any = any || !s.is_empty() || !m.is_empty();
    }
    assert!(any);
}

#[test]
fn hash_set_holds_the_distinct_keys_drawn() {
    for seed in 0..20u64 {
        let v: Vec<u8> = arbitrary(3, &mut Gen::new(seed));
        let s: std::collections::HashSet<u8> = arbitrary(3, &mut Gen::new(seed));
        let expected: std::collections::HashSet<u8> = v.into_iter().collect();
        assert_eq!(s, expected);
    }
}

#[test]
fn pair_components_come_from_successive_draws() {
    let mut g = Gen::new(77);
    let a = g.next_u64();
    let b = g.next_u64();
    let (x, y): (u64, u64) = arbitrary(1, &mut Gen::new(77));
    assert_eq!((x, y), (a, b));
}
