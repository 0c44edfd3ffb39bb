use rx_rs::event::Event;
use rx_rs::observable;
use rx_rs::observable::Observable;
use rx_rs::observer::SubscribeAll;
use rx_rs::ops::first::First;
use rx_rs::ops::first::FirstOr;
use rx_rs::ops::fork::Fork;
use rx_rs::ops::fork::Multicast;
use rx_rs::ops::publish::Publish;
use rx_rs::ops::take::Take;
use rx_rs::subscribable::Subscribable;

#[test]
fn base_function() {
    let items: Vec<i32> = (0..100).collect();
    let sub = observable::from_iter::<i32, ()>(items).take(5).subscribe_complete(
        SubscribeAll::new(),
    );
    assert_eq!(sub.observer.done_count(), 1);
    assert_eq!(sub.observer.next_count(), 5);
}

#[test]
fn take_support_fork() {
    let items: Vec<i32> = (0..100).collect();
    let take5 = observable::from_iter::<i32, ()>(items).take(5);
    let f1 = take5.fork();
    let f2 = take5.fork();
    let s1 = f1.take(5).fork().subscribe(SubscribeAll::new());
    let s2 = f2.take(5).fork().subscribe(SubscribeAll::new());
    assert_eq!(s1.observer.next_count(), 5);
    assert_eq!(s2.observer.next_count(), 5);
}

#[test]
fn take_zero_completes_at_once() {
    let items: Vec<i32> = (0..3).collect();
    let sub = observable::from_iter::<i32, ()>(items).take(0).subscribe(SubscribeAll::new());
    assert_eq!(sub.observer.next_count(), 0);
    assert_eq!(sub.observer.done_count(), 1);
}

#[test]
fn take_forwards_error() {
    let sub = observable::throw::<i32, &'static str>("boom").take(5).subscribe_err(
        SubscribeAll::new(),
    );
    assert_eq!(sub.observer.next_count(), 0);
    assert_eq!(sub.observer.fail_count(), 1);
    assert_eq!(sub.observer.done_count(), 0);
}

#[test]
fn first() {
    let items: Vec<i32> = (0..2).collect();
    let sub = observable::from_iter::<i32, ()>(items).first().subscribe_complete(
        SubscribeAll::new(),
    );
    assert_eq!(sub.observer.done_count(), 1);
    assert_eq!(sub.observer.next_count(), 1);
}

#[test]
fn first_or() {
    let items: Vec<i32> = (0..2).collect();
    let sub = observable::from_iter::<i32, ()>(items)
        .multicast()
        .fork()
        .first_or(100)
        .subscribe_complete(SubscribeAll::new());
    assert_eq!(sub.observer.next_count(), 1);
    assert_eq!(sub.observer.done_count(), 1);

    let sub = observable::empty::<i32, ()>()
        .multicast()
        .fork()
        .first_or(100)
        .subscribe_complete(SubscribeAll::new());
    assert_eq!(sub.observer.done_count(), 1);
    assert_eq!(sub.observer.values(), vec![100]);
}

#[test]
fn first_support_fork() {
    let items: Vec<i32> = (1..100).collect();
    let o = observable::from_iter::<i32, ()>(items).first().multicast();
    let o1 = o.fork().first();
    let o2 = o.fork().first();
    let s1 = o1.subscribe(SubscribeAll::new());
    assert_eq!(s1.observer.values(), vec![1]);

    let s2 = o2.subscribe(SubscribeAll::new());
    assert_eq!(s2.observer.values(), vec![1]);
}

#[test]
fn first_or_support_fork() {
    // a source that completes and then still tries to error: delivery
    // lets only the completion through
    let o = Observable::new(vec![Event::<i32, &'static str>::Done, Event::Fail("")])
        .first_or(100)
        .multicast();
    let o1 = o.fork().first_or(0);
    let o2 = o.fork().first_or(0);
    let s1 = o1.subscribe(SubscribeAll::new());
    assert_eq!(s1.observer.values(), vec![100]);

    let s2 = o2.subscribe(SubscribeAll::new());
    assert_eq!(s2.observer.values(), vec![100]);
}

#[test]
fn first_or_passes_error_without_default() {
    let sub = observable::throw::<i32, &'static str>("oops").first_or(7).subscribe_err(
        SubscribeAll::new(),
    );
    assert_eq!(sub.observer.next_count(), 0);
    assert_eq!(sub.observer.fail_count(), 1);
}

#[test]
fn publish_smoke() {
    let mut p = observable::of::<i32, ()>(100).publish();
    let f1 = p.fork();
    let f2 = p.fork();
    p.connect();
    assert_eq!(p.sink_values(f1), vec![100]);
    assert_eq!(p.sink_values(f2), vec![100]);
}

#[test]
fn publish_connects_only_once() {
    let mut p = observable::of::<i32, ()>(4).publish();
    let f1 = p.fork();
    p.connect();
    p.connect();
    assert_eq!(p.sink_values(f1), vec![4]);
}

#[test]
fn publish_unsubscribed_fork_stays_silent() {
    let mut p = observable::of::<i32, ()>(9).publish();
    let f1 = p.fork();
    p.connect();
    p.unsubscribe_fork(f1);
    assert_eq!(p.sink_values(f1), vec![9]);
}
