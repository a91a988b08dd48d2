use toy_cpu::device::{Device, TimerDevice};

#[test]
fn timer_runs() {
    let mut t = TimerDevice::new(2);
    t.tick(1);
    t.tick(2);
    t.tick(3);
    t.tick(4);
}

#[test]
fn timer_fires_every_period() {
    let mut t = TimerDevice::new(2);
    assert_eq!((t.period(), t.next(), t.fired()), (2, 2, 0));
    t.tick(1);
    assert_eq!(t.fired(), 0);
    t.tick(2);
    assert_eq!((t.next(), t.fired()), (4, 1));
    t.tick(3);
    assert_eq!(t.fired(), 1);
    t.tick(4);
    assert_eq!((t.next(), t.fired()), (6, 2));
}

#[test]
fn timer_of_five_fires_once_between_five_and_nine() {
    for total in 5u64..=9 {
        let mut t = TimerDevice::new(5);
        for cycle in 1..=total {
            t.tick(cycle);
        }
        assert_eq!(t.fired(), 1);
    }
    let mut t = TimerDevice::new(5);
    for cycle in 1..=4 {
        t.tick(cycle);
    }
    assert_eq!(t.fired(), 0);
}

#[test]
fn timer_deadline_stops_at_the_largest_cycle() {
    let mut t = TimerDevice::new(u64::MAX - 1);
    t.tick(u64::MAX - 1);
    assert_eq!((t.next(), t.fired()), (u64::MAX, 1));
    t.tick(u64::MAX);
    assert_eq!((t.next(), t.fired()), (u64::MAX, 2));
}
