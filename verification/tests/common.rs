use codeball::common::IdGenerator;

#[test]
fn test_id_generator_counts_from_one() {
    let mut ids = IdGenerator::new();
    assert_eq!(ids.next(), 1);
    assert_eq!(ids.next(), 2);
    assert_eq!(ids.next(), 3);
}

#[test]
fn test_ids_never_repeat() {
    let mut ids = IdGenerator::new();
    let issued: Vec<i32> = (0..100).map(|_| ids.next()).collect();
    for w in issued.windows(2) {
        assert!(w[0] < w[1]);
    }
}
