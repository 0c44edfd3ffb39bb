use rx_rs::observer::Observer;
use rx_rs::observer::SubscribeAll;
use rx_rs::subscribable::subscribable_err::SubscribeErr;
use rx_rs::subscriber::Subscriber;
use rx_rs::subscription::SubscriptionLike;

#[test]
fn shared_next_complete() {
    let mut subscriber = Subscriber::shared(SubscribeAll::<i32, ()>::new());
    subscriber.next(1);
    subscriber.next(2);
    subscriber.complete();
    subscriber.next(3);
    subscriber.next(4);
    assert_eq!(subscriber.observer.next_count(), 2);
    assert_eq!(subscriber.observer.done_count(), 1);
}

#[test]
fn shared_err_complete() {
    let mut subscriber = Subscriber::shared(SubscribeAll::<i32, ()>::new());
    subscriber.next(1);
    subscriber.next(2);
    subscriber.error(());
    subscriber.next(3);
    subscriber.next(4);
    assert_eq!(subscriber.observer.next_count(), 2);
    assert_eq!(subscriber.observer.fail_count(), 1);
}

#[test]
fn next_and_complete() {
    let mut subscriber = Subscriber::local(SubscribeAll::<i32, i32>::new());
    subscriber.next(1);
    subscriber.next(2);
    subscriber.complete();
    subscriber.next(3);
    subscriber.next(4);
    assert_eq!(subscriber.observer.next_count(), 2);
    assert_eq!(subscriber.observer.done_count(), 1);
}

#[test]
fn next_and_error() {
    let mut subscriber = Subscriber::local(SubscribeErr::<i32, ()>::new());
    subscriber.next(1);
    subscriber.next(2);
    subscriber.error(());
    subscriber.next(3);
    subscriber.next(4);
    assert_eq!(subscriber.observer.next_count(), 2);
    assert_eq!(subscriber.observer.fail_count(), 1);
}

#[test]
fn terminal_is_exclusive() {
    // a terminal event ends delivery: the competing terminal after it
    // is absorbed as a no-op
    let mut subscriber = Subscriber::local(SubscribeAll::<i32, ()>::new());
    subscriber.next(1);
    subscriber.complete();
    subscriber.error(());
    subscriber.complete();
    assert_eq!(subscriber.observer.next_count(), 1);
    assert_eq!(subscriber.observer.done_count(), 1);
    assert_eq!(subscriber.observer.fail_count(), 0);
}

#[test]
fn unsubscribe_halts_delivery() {
    let mut subscriber = Subscriber::local(SubscribeAll::<i32, ()>::new());
    subscriber.next(1);
    subscriber.unsubscribe();
    subscriber.unsubscribe();
    subscriber.next(2);
    subscriber.complete();
    assert_eq!(subscriber.observer.values(), vec![1]);
    assert_eq!(subscriber.observer.done_count(), 0);
    assert!(subscriber.is_closed());
}

#[test]
fn to_shared_keeps_state() {
    let mut subscriber = Subscriber::local(SubscribeAll::<i32, ()>::new());
    subscriber.next(5);
    let mut shared = subscriber.to_shared();
    shared.next(6);
    assert_eq!(shared.observer.values(), vec![5, 6]);
}
