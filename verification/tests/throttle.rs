use rx_rs::event::Event;
use rx_rs::observable;
use rx_rs::observable::Observable;
use rx_rs::observer::SubscribeAll;
use rx_rs::ops::throttle_time::ThrottleEdge;
use rx_rs::ops::throttle_time::ThrottleTime;
use rx_rs::ops::throttle_time::ThrottleTimeObserver;
use rx_rs::subscriber::Subscriber;
use rx_rs::subscription::SharedSubscription;

#[test]
fn throttle_time_smoke() {
    // a producer that pushes a value every 5 units and is cut off at 520,
    // throttled by 48-unit windows
    let evs: Vec<Event<i32, ()>> = (0..103).map(Event::Next).collect();
    let times: Vec<u64> = (0..103u64).map(|i| 5 * (i + 1)).collect();

    // tailing throttle
    let r = Observable::new(evs.clone())
        .throttle_time(48, ThrottleEdge::Tailing)
        .actual_subscribe(&times, Subscriber::shared(SubscribeAll::new()));
    assert_eq!(
        r.observer.observer.values(),
        vec![9, 19, 29, 39, 49, 59, 69, 79, 89, 99]
    );

    // leading throttle
    let r = Observable::new(evs)
        .throttle_time(48, ThrottleEdge::Leading)
        .actual_subscribe(&times, Subscriber::shared(SubscribeAll::new()));
    assert_eq!(
        r.observer.observer.values(),
        vec![0, 10, 20, 30, 40, 50, 60, 70, 80, 90, 100]
    );
}

#[test]
fn fork_and_shared() {
    let times = vec![0u64];
    let _r = observable::of::<i32, ()>(10)
        .throttle_time(1, ThrottleEdge::Leading)
        .actual_subscribe(&times, Subscriber::shared(SubscribeAll::new()));
}

#[test]
fn throttle_leading_absorbs_within_window() {
    // three arrivals inside one window: only the first is emitted
    let evs: Vec<Event<i32, ()>> = vec![Event::Next(1), Event::Next(2), Event::Next(3)];
    let times = vec![0u64, 3, 6];
    let r = Observable::new(evs)
        .throttle_time(10, ThrottleEdge::Leading)
        .actual_subscribe(&times, Subscriber::shared(SubscribeAll::new()));
    assert_eq!(r.observer.observer.values(), vec![1]);
}

#[test]
fn throttle_tailing_flushes_on_complete() {
    // the source completes mid-window: the buffered last item is flushed
    // ahead of the completion
    let items: Vec<i32> = vec![1, 2, 3];
    let times = vec![0u64, 3, 6];
    let r = observable::from_iter::<i32, ()>(items)
        .throttle_time(10, ThrottleEdge::Tailing)
        .actual_subscribe(&times, Subscriber::shared(SubscribeAll::new()));
    assert_eq!(r.observer.observer.values(), vec![3]);
    assert_eq!(r.observer.observer.done_count(), 1);
}

#[test]
fn throttle_tailing_emits_at_expiry() {
    // the fourth arrival finds the window expired: the window releases
    // the last item it absorbed, then a new window opens
    let evs: Vec<Event<i32, ()>> = vec![
        Event::Next(1),
        Event::Next(2),
        Event::Next(3),
        Event::Next(4),
    ];
    let times = vec![0u64, 3, 6, 12];
    let r = Observable::new(evs)
        .throttle_time(10, ThrottleEdge::Tailing)
        .actual_subscribe(&times, Subscriber::shared(SubscribeAll::new()));
    assert_eq!(r.observer.observer.values(), vec![3]);
}

#[test]
fn throttle_forwards_error_at_once() {
    let evs: Vec<Event<i32, &'static str>> = vec![Event::Next(1), Event::Fail("boom")];
    let times = vec![0u64];
    let r = Observable::new(evs)
        .throttle_time(10, ThrottleEdge::Tailing)
        .actual_subscribe(&times, Subscriber::shared(SubscribeAll::new()));
    assert_eq!(r.observer.observer.fail_count(), 1);
    assert_eq!(r.observer.observer.done_count(), 0);
}

#[test]
fn cancel_halts_delivery_and_timer() {
    // cancelling the stage shuts the downstream gate and cancels the
    // pending window timer, so the expiry body never emits
    let mut th: ThrottleTimeObserver<Subscriber<SubscribeAll<i32, ()>, SharedSubscription>, i32> =
        ThrottleTimeObserver {
            observer: Subscriber::shared(SubscribeAll::new()),
            edge: ThrottleEdge::Tailing,
            delay: 10,
            trailing_value: None,
            throttled: None,
            subscription: SharedSubscription::default(),
        };
    th.next(0, 7);
    assert!(th.throttled.is_some());
    th.unsubscribe();
    th.fire();
    assert!(th.throttled.is_none());
    assert_eq!(th.observer.observer.values(), Vec::<i32>::new());
}

#[test]
fn cancel_timer_handle_alone() {
    // cancelling just the pending timer through its own handle is enough:
    // the expiry body never emits, though the stage itself stays live
    let mut th: ThrottleTimeObserver<Subscriber<SubscribeAll<i32, ()>, SharedSubscription>, i32> =
        ThrottleTimeObserver {
            observer: Subscriber::shared(SubscribeAll::new()),
            edge: ThrottleEdge::Tailing,
            delay: 10,
            trailing_value: None,
            throttled: None,
            subscription: SharedSubscription::default(),
        };
    th.next(0, 7);
    let handle = th.throttled.unwrap();
    th.subscription.cancel_child(handle.id);
    th.fire();
    assert_eq!(th.observer.observer.values(), Vec::<i32>::new());
    assert_eq!(th.trailing_value, Some(7));
}
