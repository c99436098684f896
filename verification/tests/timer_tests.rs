use tower_defense::timer::Cooldown;

#[test]
fn new_cooldown_has_not_run() {
    assert_eq!(Cooldown::new(2_000_000_000), Cooldown { period: 2_000_000_000, elapsed: 0 });
}

#[test]
fn tick_below_the_period_accumulates() {
    let mut c = Cooldown::new(2_000_000_000);
    assert_eq!(c.tick(500_000_000), 0);
    assert_eq!(c.elapsed, 500_000_000);
    assert_eq!(c.tick(1_499_999_999), 0);
    assert_eq!(c.elapsed, 1_999_999_999);
    assert_eq!(c.period, 2_000_000_000);
}

#[test]
fn tick_that_reaches_the_period_completes_and_wraps() {
    let mut c = Cooldown::new(2_000_000_000);
    assert_eq!(c.tick(2_000_000_000), 1);
    assert_eq!(c.elapsed, 0);
    assert_eq!(c.tick(500_000_000), 0);
    assert_eq!(c.tick(1_700_000_000), 1);
    assert_eq!(c.elapsed, 200_000_000);
}

#[test]
fn long_tick_completes_several_times() {
    let mut c = Cooldown { period: 2_000_000_000, elapsed: 200_000_000 };
    assert_eq!(c.tick(6_100_000_000), 3);
    assert_eq!(c.elapsed, 300_000_000);
    let mut burst = Cooldown::new(16_666_667);
    assert_eq!(burst.tick(50_000_000), 2);
    assert_eq!(burst.elapsed, 16_666_666);
}

#[test]
fn tick_of_no_time_changes_nothing() {
    let mut c = Cooldown { period: 1_500_000_000, elapsed: 700_000_000 };
    assert_eq!(c.tick(0), 0);
    assert_eq!(c.elapsed, 700_000_000);
}

#[test]
fn timer_without_period_always_completes() {
    let mut c = Cooldown::new(0);
    assert_eq!(c.tick(0), u32::MAX);
    assert_eq!(c.elapsed, 0);
    assert_eq!(c.tick(123), u32::MAX);
    assert_eq!(c.elapsed, 0);
}

#[test]
fn completions_wrap_at_thirty_two_bits() {
    let mut c = Cooldown::new(1);
    assert_eq!(c.tick(4_294_967_296), 0);
    assert_eq!(c.elapsed, 0);
    assert_eq!(c.tick(4_294_967_297), 1);
    assert_eq!(c.tick(u64::MAX), u32::MAX);
}

#[test]
fn largest_times_do_not_overflow() {
    let mut c = Cooldown { period: u64::MAX, elapsed: u64::MAX - 1 };
    assert_eq!(c.tick(u64::MAX), 1);
    assert_eq!(c.elapsed, u64::MAX - 1);
}
