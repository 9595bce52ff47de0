use codeball::random::{
    gen, gen_iter, is_zero_seed, sample, seeded_from_rules, seed_from_unix_time, weak_seed, IndependentSample, Rand,
    Range, Rng, Sample, SeedableRng, XorShiftRng,
};
use codeball::examples::example_rng;

#[test]
fn test_unseeded_sequence() {
    let mut rng = XorShiftRng::new_unseeded();
    let words: Vec<u32> = (0..4).map(|_| rng.next_u32()).collect();
    assert_eq!(words, vec![3690029583, 1298391428, 3256827147, 248863884]);
}

#[test]
fn test_next_u64_joins_two_words() {
    let mut rng = XorShiftRng::new_unseeded();
    assert_eq!(rng.next_u64(), 15848556381555908996);
    assert_eq!(rng.next_u64(), 13987966085338848396);
    let mut words = XorShiftRng::new_unseeded();
    let hi = words.next_u32() as u64;
    let lo = words.next_u32() as u64;
    assert_eq!((hi << 32) | lo, 15848556381555908996);
}

#[test]
fn test_example_rng() {
    let mut rng = example_rng();
    assert_eq!(rng.next_u32(), 1904403428);
    assert_eq!(rng.next_u32(), 1904405972);
    assert_eq!(rng.next_u32(), 1316148395);
    assert_eq!(example_rng(), XorShiftRng::from_seed([42, 0, 1841971383, 1904458926]));
}

#[test]
fn test_from_seed_and_reseed_agree() {
    let seed = [0x193a6754, 0xa8a7d469, 0x97830e05, 0x113ba7bb];
    assert_eq!(XorShiftRng::from_seed(seed), XorShiftRng::new_unseeded());
    let mut rng = example_rng();
    rng.next_u32();
    rng.reseed(seed);
    assert_eq!(rng, XorShiftRng::new_unseeded());
}

#[test]
fn test_zero_seed_is_refused() {
    assert!(is_zero_seed([0, 0, 0, 0]));
    assert!(!is_zero_seed([0, 0, 0, 1]));
    assert!(!is_zero_seed([42, 0, 1841971383, 1904458926]));
}

#[test]
fn test_gen_range_values() {
    let mut rng = XorShiftRng::new_unseeded();
    let values: Vec<usize> = (0..5).map(|_| rng.gen_range(10, 20)).collect();
    assert_eq!(values, vec![16, 16, 18, 11, 14]);
    let mut rng = XorShiftRng::new_unseeded();
    let values: Vec<u32> = (0..5).map(|_| rng.gen_range_u32(0, 6)).collect();
    assert_eq!(values, vec![3, 2, 3, 0, 1]);
}

#[test]
fn test_gen_range_stays_in_bounds() {
    let mut rng = example_rng();
    for high in 1..200usize {
        let v = rng.gen_range(0, high);
        assert!(v < high);
        let w = rng.gen_range(high, high + 3);
        assert!(high <= w && w < high + 3);
    }
}

#[test]
fn test_range_sampling_matches_gen_range() {
    let range = Range::<usize>::new(10, 20);
    let mut a = XorShiftRng::new_unseeded();
    let mut b = XorShiftRng::new_unseeded();
    for _ in 0..10 {
        assert_eq!(range.ind_sample(&mut a), b.gen_range(10, 20));
    }
    let range = Range::<u32>::new(0, 6);
    let mut c = XorShiftRng::new_unseeded();
    assert_eq!(range.ind_sample(&mut c), 3);
    let mut range = Range::<usize>::new(10, 20);
    let mut d = XorShiftRng::new_unseeded();
    assert_eq!(range.sample(&mut d), 16);
    let mut range = Range::<u32>::new(0, 6);
    let mut e = XorShiftRng::new_unseeded();
    assert_eq!(range.sample(&mut e), 3);
}

#[test]
fn test_gen_weighted_bool() {
    let mut rng = XorShiftRng::new_unseeded();
    assert!(rng.gen_weighted_bool(0));
    assert!(rng.gen_weighted_bool(1));
    assert_eq!(rng, XorShiftRng::new_unseeded());
    assert!(rng.gen_weighted_bool(3));
    assert_ne!(rng, XorShiftRng::new_unseeded());
}

#[test]
fn test_choose_from() {
    let mut rng = XorShiftRng::new_unseeded();
    let empty: [i32; 0] = [];
    assert_eq!(rng.choose_from(&empty), None);
    assert_eq!(rng, XorShiftRng::new_unseeded());
    let values = [10, 20, 30, 40, 50];
    assert_eq!(rng.choose_from(&values), Some(&20));
}

#[test]
fn test_shuffle() {
    let mut rng = XorShiftRng::new_unseeded();
    let mut values: Vec<i32> = (0..10).collect();
    rng.shuffle(&mut values[..]);
    assert_eq!(values, vec![3, 5, 4, 1, 7, 0, 8, 2, 9, 6]);
    let mut sorted = values.clone();
    sorted.sort();
    assert_eq!(sorted, (0..10).collect::<Vec<i32>>());
    let mut one = vec![7];
    rng.shuffle(&mut one[..]);
    assert_eq!(one, vec![7]);
}

#[test]
fn test_fill_bytes() {
    let mut rng = XorShiftRng::new_unseeded();
    let mut bytes = [0u8; 11];
    rng.fill_bytes(&mut bytes);
    assert_eq!(bytes, [132, 225, 99, 77, 15, 98, 241, 219, 140, 92, 213]);
    let mut words = XorShiftRng::new_unseeded();
    assert_eq!(words.next_u64().to_le_bytes(), [132, 225, 99, 77, 15, 98, 241, 219]);
}

#[test]
fn test_sample() {
    let mut rng = XorShiftRng::new_unseeded();
    assert_eq!(sample(&mut rng, (0..20).collect::<Vec<i32>>(), 5), vec![14, 11, 8, 19, 9]);
    let mut rng = XorShiftRng::new_unseeded();
    assert_eq!(sample(&mut rng, vec![1, 2, 3], 5), vec![1, 2, 3]);
    assert_eq!(rng, XorShiftRng::new_unseeded());
    let picked = sample(&mut rng, (0..50).collect::<Vec<i32>>(), 7);
    assert_eq!(picked.len(), 7);
    assert!(picked.iter().all(|v| (0..50).contains(v)));
}

#[test]
fn test_rand_values() {
    let mut rng = XorShiftRng::new_unseeded();
    assert_eq!(u8::rand(&mut rng), 15);
    let mut rng = XorShiftRng::new_unseeded();
    assert!(bool::rand(&mut rng));
    let mut rng = XorShiftRng::new_unseeded();
    assert_eq!(i32::rand(&mut rng), -604937713);
    let mut rng = XorShiftRng::new_unseeded();
    assert_eq!(u64::rand(&mut rng), 15848556381555908996);
    let mut rng = XorShiftRng::new_unseeded();
    assert_eq!(char::rand(&mut rng), char::from_u32(0x3e184).unwrap());
    let mut rng = XorShiftRng::new_unseeded();
    let v: u32 = gen(&mut rng);
    assert_eq!(v, 3690029583);
}

#[test]
fn test_rand_tuples_and_options() {
    let mut rng = XorShiftRng::new_unseeded();
    let pair: (u32, u32) = gen(&mut rng);
    assert_eq!(pair, (3690029583, 1298391428));
    let triple: (u32, u32, u32) = gen(&mut rng);
    assert_eq!(triple, (3256827147, 248863884, 1583654467));
    let single: (u32,) = gen(&mut rng);
    assert_eq!(single, (207160266,));
    let mut rng = XorShiftRng::new_unseeded();
    let quad: (u32, u32, u32, u32) = gen(&mut rng);
    assert_eq!(quad, (3690029583, 1298391428, 3256827147, 248863884));
    let mut rng = XorShiftRng::new_unseeded();
    let some: Option<u32> = gen(&mut rng);
    assert_eq!(some, Some(1298391428));
    let mut rng = XorShiftRng::new_unseeded();
    let _: u32 = gen(&mut rng);
    let none: Option<u32> = gen(&mut rng);
    assert_eq!(none, None);
    assert_eq!(rng.next_u32(), 3256827147);
}

#[test]
fn test_rand_generator_from_generator() {
    let mut rng = XorShiftRng::new_unseeded();
    let mut child = XorShiftRng::rand(&mut rng);
    assert_eq!(child, XorShiftRng::from_seed([3690029583, 1298391428, 3256827147, 248863884]));
    assert_eq!(child.next_u32(), XorShiftRng::from_seed([3690029583, 1298391428, 3256827147, 248863884]).next_u32());
}

#[test]
fn test_gen_iter_and_ascii() {
    let mut rng = XorShiftRng::new_unseeded();
    let mut it = gen_iter::<u32, _>(&mut rng);
    assert_eq!(it.next(), Some(3690029583));
    assert_eq!(it.next(), Some(1298391428));
    let mut rng = XorShiftRng::new_unseeded();
    let mut chars = rng.gen_ascii_chars();
    let text: String = (0..8).map(|_| chars.next().unwrap()).collect();
    assert_eq!(text, "6EiD8c3v");
    assert!(text.chars().all(|c| c.is_ascii_alphanumeric()));
}

#[test]
fn test_seeds_from_time() {
    assert_eq!(seed_from_unix_time(1_549_829_457, 123), [1_549_829_457, 123]);
    let seed = weak_seed().unwrap();
    assert!(seed[1] < 1_000_000_000);
}

#[test]
fn test_choose_mut() {
    let mut rng = XorShiftRng::new_unseeded();
    let mut values = [10, 20, 30, 40, 50];
    if let Some(v) = rng.choose_mut(&mut values) {
        *v = 99;
    }
    assert_eq!(values, [10, 99, 30, 40, 50]);
    let mut empty: [i32; 0] = [];
    assert!(rng.choose_mut(&mut empty).is_none());
}

#[test]
fn test_seeded_from_rules() {
    assert_eq!(seeded_from_rules(42), example_rng());
    assert_eq!(seeded_from_rules(0x1_0000_0002), XorShiftRng::from_seed([2, 1, 1841971383, 1904458926]));
    assert_eq!(seeded_from_rules(-1), XorShiftRng::from_seed([u32::MAX, u32::MAX, 1841971383, 1904458926]));
}

#[test]
fn test_boxed_generator_draws_like_its_content() {
    let mut boxed = Box::new(XorShiftRng::new_unseeded());
    let mut plain = XorShiftRng::new_unseeded();
    assert_eq!(Rng::next_u32(&mut boxed), 3690029583);
    plain.next_u32();
    assert_eq!(Rng::next_u64(&mut boxed), plain.next_u64());
    assert_eq!(Rng::gen_range(&mut boxed, 10, 20), plain.gen_range(10, 20));
    let mut a = [0u8; 5];
    let mut b = [0u8; 5];
    Rng::fill_bytes(&mut boxed, &mut a);
    plain.fill_bytes(&mut b);
    assert_eq!(a, b);
    assert_eq!(*boxed, plain);
}

#[test]
fn test_rand_long_tuples() {
    let mut rng = XorShiftRng::new_unseeded();
    let five: (u32, u32, u32, u32, u32) = gen(&mut rng);
    assert_eq!(five, (3690029583, 1298391428, 3256827147, 248863884, 1583654467));
    let mut rng = XorShiftRng::new_unseeded();
    let twelve: (u8, u8, u8, u8, u8, u8, u8, u8, u8, u8, u8, u8) = gen(&mut rng);
    assert_eq!(twelve, (15, 132, 11, 140, 67, 202, 47, 109, 240, 108, 62, 68));
}
