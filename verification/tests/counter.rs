use skelly::num::Fx;
use skelly::SlidingWindowCounter;

#[test]
fn mean_over_one_bucket() {
    let mut c = SlidingWindowCounter::new(500);
    c.add(3);
    c.add(2);
    assert_eq!(c.mean(), Fx::from_int(5));
}

#[test]
fn next_opens_a_new_bucket() {
    let mut c = SlidingWindowCounter::new(500);
    c.add(4);
    c.next();
    c.add(2);
    // Two buckets holding 4 and 2: mean 3.
    assert_eq!(c.mean(), Fx::from_int(3));
}

#[test]
fn window_evicts_oldest_buckets() {
    let mut c = SlidingWindowCounter::new(2);
    c.add(5);
    c.next();  // [5, 0]
    c.add(3);  // [5, 3]
    c.next();  // [3, 0]
    c.add(1);  // [3, 1]
    assert_eq!(c.mean(), Fx::from_int(2));
}

#[test]
fn add_opens_the_first_bucket() {
    let mut c = SlidingWindowCounter::new(3);
    c.next();
    c.next();
    c.add(6);
    // `next` opened buckets [0, 0]; `add` lands in the last: mean 3.
    assert_eq!(c.mean(), Fx::from_int(3));
    let mut d = SlidingWindowCounter::new(3);
    d.add(6);
    // `add` on a fresh counter opens its first bucket itself.
    assert_eq!(d.mean(), Fx::from_int(6));
}

#[test]
fn mean_truncates_toward_zero() {
    let mut c = SlidingWindowCounter::new(10);
    c.add(1);
    c.next();
    c.add(0);
    // 1 event over 2 buckets: one half.
    assert_eq!(c.mean(), Fx { raw: 32768 });
    c.next();
    // 1 event over 3 buckets: 0.333... truncated at 16 fractional bits.
    assert_eq!(c.mean(), Fx { raw: 21845 });
}
