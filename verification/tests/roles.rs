use codeball::roles::{Forward, Goalkeeper, Role};

#[test]
fn test_roles() {
    let forward = Role::forward(3);
    let goalkeeper = Role::goalkeeper(4);
    assert_eq!(forward, Role::Forward(Forward { robot_id: 3 }));
    assert_eq!(goalkeeper, Role::Goalkeeper(Goalkeeper { robot_id: 4 }));
    assert_eq!(forward.robot_id(), 3);
    assert_eq!(goalkeeper.robot_id(), 4);
    assert_eq!(forward.name(), "forward");
    assert_eq!(goalkeeper.name(), "goalkeeper");
    assert!(Forward::can_quit());
    assert_ne!(forward, Role::goalkeeper(3));
}
