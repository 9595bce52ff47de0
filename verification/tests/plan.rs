use codeball::common::IdGenerator;
use codeball::orders::OrderContext;
use codeball::plan::{ForkRobot, VisitorImpl};
use codeball::random::{Rng, XorShiftRng};

#[test]
fn test_visitor_bookkeeping() {
    let mut rng = XorShiftRng::new_unseeded();
    {
        let mut visitor = VisitorImpl::new(&mut rng);
        assert_eq!(visitor.next_state_id(), 1);
        assert_eq!(visitor.next_state_id(), 2);
        assert_eq!(visitor.used_micro_ticks(), 0);
        visitor.add_used_micro_ticks(25);
        visitor.add_used_micro_ticks(3);
        assert_eq!(visitor.used_micro_ticks(), 28);
        assert_eq!(visitor.rng().next_u32(), 3690029583);
    }
    assert_eq!(rng.next_u32(), 1298391428);
    assert_eq!(ForkRobot { robot_id: 3 }.robot_id, 3);
}

#[test]
fn test_order_context_shares_counters() {
    let mut rng = XorShiftRng::new_unseeded();
    let mut ids = IdGenerator::new();
    let mut micro_ticks = 0usize;
    {
        let ctx = OrderContext { rng: &mut rng, order_id_generator: &mut ids, micro_ticks: &mut micro_ticks };
        assert_eq!(ctx.order_id_generator.next(), 1);
        *ctx.micro_ticks += 100;
        ctx.rng.next_u32();
    }
    assert_eq!(ids.next(), 2);
    assert_eq!(micro_ticks, 100);
    assert_eq!(rng.next_u32(), 1298391428);
}
