//! The debounced change signal's timing decisions, replayed over a
//! simulated clock.

use ouinet_metrics::backoff_watch::ConstantBackoffWatch;

#[test]
fn sanity() {
    let delay: u64 = 500;
    let mut watch = ConstantBackoffWatch::new(delay);

    let start: u64 = 100_000;

    // The first send is delivered almost immediately.
    let wait = watch.on_raw_signal(start);
    assert_eq!(wait, 0);
    watch.on_deliver(start + wait);

    // A send straight after is delivered only once the window passed.
    let wait = watch.on_raw_signal(start);
    assert!(start + wait >= start + delay);
    assert_eq!(start + wait, start + delay);
    watch.on_deliver(start + wait);
}

#[test]
fn dont_accumulate_sends_during_timeout() {
    let delay: u64 = 200;
    let mut watch = ConstantBackoffWatch::new(delay);

    let start: u64 = 50_000;

    // The first send is received immediately.
    let wait = watch.on_raw_signal(start);
    assert_eq!(wait, 0);
    watch.on_deliver(start);

    // This send triggers the delay timeout inside the forwarder.
    let t1 = start + 100;
    let wait = watch.on_raw_signal(t1);
    // A send arriving while the forwarder is still waiting does not
    // extend the cooldown: the delivery lands exactly one window after
    // the previous one.
    assert_eq!(t1 + wait, start + delay);

    // Send again while the forwarder is still waiting; it is collapsed
    // into the same delivery, not accumulated: after the delivery at
    // `start + delay` the forwarder goes idle, so a later lone signal
    // observed after a long quiet period is delivered at once.
    let deliver_at = start + delay;
    watch.on_deliver(deliver_at);
    let much_later = deliver_at + 300;
    let wait = watch.on_raw_signal(much_later);
    assert_eq!(wait, 0);
}

#[test]
fn delivery_always_lands_within_one_window() {
    let delay: u64 = 5000;
    let mut watch = ConstantBackoffWatch::new(delay);
    watch.on_deliver(1_000);
    let raws: [u64; 4] = [1_000, 2_500, 5_999, 6_000];
    for now in raws {
        let wait = watch.on_raw_signal(now);
        assert!(wait <= delay);
    }
}
