use codeball::targets::Target;

#[test]
fn test_generate_targets() {
    let nitro_packs = vec![5, 6];
    let robots = vec![(1, true), (2, true), (3, false), (4, false)];
    let targets = Target::generate(&nitro_packs, &robots);
    assert_eq!(targets.len(), 1 + 2 + 2 + 1 + 4);
    assert!(matches!(targets[0], Target::Ball));
    assert!(matches!(targets[1], Target::NitroPack(5)));
    assert!(matches!(targets[2], Target::NitroPack(6)));
    assert!(matches!(targets[3], Target::Robot(3)));
    assert!(matches!(targets[4], Target::Robot(4)));
    assert!(matches!(targets[5], Target::GoalkeeperPosition));
    assert!(targets[6..].iter().all(|t| matches!(t, Target::NoTarget)));
    let none = Target::generate(&Vec::new(), &Vec::new());
    assert_eq!(none.len(), 2);
}
