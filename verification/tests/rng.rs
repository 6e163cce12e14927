use streams_solver::SimpleRng;

#[test]
fn first_outputs_for_seed_one() {
    let mut rng = SimpleRng::new(1);
    assert_eq!(rng.next_u64(), 5180492295206395165);
    assert_eq!(rng.next_u64(), 12380297144915551517);
    assert_eq!(rng.next_u64(), 13389498078930870103);
}

#[test]
fn zero_seed_behaves_as_one() {
    let mut zero = SimpleRng::new(0);
    let mut one = SimpleRng::new(1);
    for _ in 0..10 {
        assert_eq!(zero.next_u64(), one.next_u64());
    }
}

#[test]
fn outputs_for_large_seed() {
    let mut rng = SimpleRng::new(0x9E3779B97F4A7C15);
    assert_eq!(rng.next_u64(), 973819730272012410);
    assert_eq!(rng.next_u64(), 6108091081255984487);
}

#[test]
fn gen_range_known_sequences() {
    let mut rng = SimpleRng::new(12345);
    let drawn: Vec<u8> = (0..5).map(|_| rng.gen_range(40)).collect();
    assert_eq!(drawn, vec![28, 28, 36, 5, 39]);
    let mut rng = SimpleRng::new(1);
    let drawn: Vec<u8> = (0..6).map(|_| rng.gen_range(7)).collect();
    assert_eq!(drawn, vec![1, 1, 3, 3, 0, 0]);
}

#[test]
fn gen_range_stays_below_upper() {
    let mut rng = SimpleRng::new(2024);
    for upper in 1..=255u8 {
        for _ in 0..20 {
            assert!(rng.gen_range(upper) < upper);
        }
    }
}

#[test]
fn gen_range_advances_like_next() {
    let mut a = SimpleRng::new(99);
    let mut b = SimpleRng::new(99);
    a.gen_range(13);
    b.next_u64();
    assert_eq!(a.next_u64(), b.next_u64());
}

#[test]
fn copies_run_the_same_stream() {
    let mut a = SimpleRng::new(31337);
    let mut b = a;
    assert_eq!(a.next_u64(), b.next_u64());
    assert_eq!(a.next_u64(), b.next_u64());
}

#[test]
fn default_generator_runs() {
    let mut rng = SimpleRng::default();
    let first = rng.next_u64();
    let second = rng.next_u64();
    assert_ne!(first, second);
}
