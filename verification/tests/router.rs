use freya::router::AnimatedRouterContext;

#[test]
fn a_new_target_starts_a_transition_from_the_old_one() {
    let mut ctx = AnimatedRouterContext::In(1u32);
    assert_eq!(*ctx.target_route(), 1);
    ctx.set_target_route(2);
    assert_eq!(ctx, AnimatedRouterContext::FromTo(1, 2));
    assert_eq!(*ctx.target_route(), 2);
    ctx.set_target_route(3);
    assert_eq!(ctx, AnimatedRouterContext::FromTo(2, 3));
}

#[test]
fn settling_stays_in_the_target() {
    let mut ctx = AnimatedRouterContext::FromTo(4u32, 5);
    ctx.settle();
    assert_eq!(ctx, AnimatedRouterContext::In(5));
    ctx.settle();
    assert_eq!(ctx, AnimatedRouterContext::In(5));
}
