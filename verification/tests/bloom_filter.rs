use bloomset::bloom_filter::{BloomFilter, Probability};
use bloomset::set_ops::SetOps;
use bloomset::Error;

/// The bit-array length for `capacity` expected elements at target
/// false-positive probability `p`: `ceil(-n * ln(p) / (ln 2)^2)`.
fn bits_for(capacity: usize, p: f64) -> usize {
    ((p.ln() * -1.0 * (capacity as f64)) / 2_f64.ln().powi(2)).ceil() as usize
}

fn filter(capacity: usize, num: u64, den: u64, p: f64) -> BloomFilter {
    BloomFilter::new(capacity, Probability::new(num, den), bits_for(capacity, p)).unwrap()
}

#[test]
fn test_init_bloom_filter() {
    let capacity = 32;
    let p_of_false_positive = 0.5;
    let bf: BloomFilter = filter(capacity, 1, 2, p_of_false_positive);
    println!("BF:\n{}", bf.describe());
}

#[test]
fn test_bloom_filter_insert_contains() {
    let capacity = 128;
    let p_of_false_positive = 0.01;
    let mut bf: BloomFilter = filter(capacity, 1, 100, p_of_false_positive);
    println!("BF:\n{}", bf.describe());
    let s = String::from("Blah blah blah");

    bf.insert(s.clone());
    let contains_s = bf.contains(s.clone());
    println!("BF contains {s}? {contains_s}");
    assert!(contains_s);
    println!("BF:\n{}", bf.describe());
}

#[test]
fn test_bloom_filter_does_not_contain() {
    let capacity = 64;
    let p_of_false_positive = 0.01;
    let mut bf: BloomFilter = filter(capacity, 1, 100, p_of_false_positive);
    println!("BF:\n{}", bf.describe());
    let s = String::from("Blah blah blah");
    let contains_s = bf.contains(s.clone());
    assert!(!contains_s);

    bf.insert(String::from("A different string"));

    assert!(!contains_s);
    println!("BF contains {s}? {contains_s}");

    println!("BF:\n{}", bf.describe());
}

#[test]
fn test_two_empty_filters_are_equal_true() {
    let capacity = 128;
    let p_of_false_positive = 0.01;
    let bf1: BloomFilter = filter(capacity, 1, 100, p_of_false_positive);
    let bf2: BloomFilter = filter(capacity, 1, 100, p_of_false_positive);
    assert!(bf1.equals(bf2));
}

#[test]
fn test_equals_not_comparable() {
    let mut bf1: BloomFilter = filter(32, 1, 50, 0.02);
    let mut bf2: BloomFilter = filter(64, 1, 100, 0.01);
    bf1.insert(String::from("ABCDE"));
    bf2.insert(String::from("ABCDE"));

    assert!(!bf1.equals(bf2));
}

#[test]
fn test_equals_negative() {
    let capacity = 128;
    let p_of_false_positive = 0.01;

    let mut bf1: BloomFilter = filter(capacity, 1, 100, p_of_false_positive);
    let mut bf2: BloomFilter = filter(capacity, 1, 100, p_of_false_positive);
    bf1.insert(String::from("ABCDE"));
    bf2.insert(String::from("WXYZ"));

    assert!(!bf1.equals(bf2));
}

#[test]
fn test_bloom_filters_are_equal_positive() {
    let capacity = 128;
    let p_of_false_positive = 0.01;

    let mut bf1: BloomFilter = filter(capacity, 1, 100, p_of_false_positive);
    let mut bf2: BloomFilter = filter(capacity, 1, 100, p_of_false_positive);
    let s = "Test String OK";
    bf1.insert(String::from(s));
    bf2.insert(String::from(s));

    assert!(bf1.equals(bf2));
}

#[test]
fn test_union() {
    let capacity = 128;
    let p_of_false_positive = 0.01;

    let mut bf1: BloomFilter = filter(capacity, 1, 100, p_of_false_positive);
    let mut bf2: BloomFilter = filter(capacity, 1, 100, p_of_false_positive);

    bf1.insert(String::from("A"));
    bf1.insert(String::from("B"));

    bf2.insert(String::from("B"));
    bf2.insert(String::from("C"));

    let union = bf1.union(bf2).unwrap();

    assert!(union.contains(String::from("A")));
    assert!(union.contains(String::from("B")));
    assert!(union.contains(String::from("C")));
}

#[test]
fn test_intersection() {
    let capacity = 128;
    let p_of_false_positive = 0.01;

    let mut bf1: BloomFilter = filter(capacity, 1, 100, p_of_false_positive);
    let mut bf2: BloomFilter = filter(capacity, 1, 100, p_of_false_positive);

    bf1.insert(String::from("A"));
    bf1.insert(String::from("B"));

    bf2.insert(String::from("B"));
    bf2.insert(String::from("C"));

    let intersection = bf1.intersection(bf2).unwrap();

    assert!(!intersection.contains(String::from("A")));
    assert!(intersection.contains(String::from("B")));
    assert!(!intersection.contains(String::from("C")));
}

#[test]
fn test_difference() {
    let capacity = 128;
    let p_of_false_positive = 0.01;

    let mut bf1: BloomFilter = filter(capacity, 1, 100, p_of_false_positive);
    let mut bf2: BloomFilter = filter(capacity, 1, 100, p_of_false_positive);

    bf1.insert(String::from("A"));
    bf1.insert(String::from("B"));

    bf2.insert(String::from("B"));
    bf2.insert(String::from("C"));

    let difference = bf1.difference(bf2).unwrap();
    // ( A B ) - ( B C ) = ( A )
    assert!(difference.contains(String::from("A")));
    assert!(!difference.contains(String::from("B")));
    assert!(!difference.contains(String::from("C")));
}

#[test]
fn test_rejects_invalid_configuration() {
    // Zero capacity.
    let r1 = BloomFilter::new(0, Probability::new(1, 2), bits_for(1, 0.5));
    assert_eq!(r1.unwrap_err(), Error::InvalidConfiguration);
    // Probability above one.
    let r2 = BloomFilter::new(100, Probability::new(15, 10), 1000);
    assert_eq!(r2.unwrap_err(), Error::InvalidConfiguration);
    // Probability of zero.
    let r3 = BloomFilter::new(100, Probability::new(0, 10), 1000);
    assert_eq!(r3.unwrap_err(), Error::InvalidConfiguration);
    // A derived hash count of zero: fewer bits than capacity.
    let r4 = BloomFilter::new(100, Probability::new(1, 2), 50);
    assert_eq!(r4.unwrap_err(), Error::InvalidConfiguration);
}

#[test]
fn test_binary_ops_mismatch() {
    let mut bf1 = filter(128, 1, 100, 0.01);
    bf1.insert(String::from("kept"));

    let other1 = filter(64, 1, 100, 0.01);
    assert_eq!(bf1.union(other1).unwrap_err(), Error::ParameterMismatch);

    let other2 = filter(64, 1, 100, 0.01);
    assert_eq!(bf1.intersection(other2).unwrap_err(), Error::ParameterMismatch);

    let other3 = filter(64, 1, 100, 0.01);
    assert_eq!(bf1.difference(other3).unwrap_err(), Error::ParameterMismatch);

    // The failed operations left the receiving operand untouched.
    assert!(bf1.contains(String::from("kept")));
    let same = filter(128, 1, 100, 0.01);
    assert!(!bf1.equals(same));
}

#[test]
fn test_false_positive_probability_returns_configuration() {
    let bf = filter(128, 1, 100, 0.01);
    let p = bf.false_positive_probability();
    assert_eq!(p.num, 1);
    assert_eq!(p.den, 100);
}

#[test]
fn test_probability_ratio_equality() {
    let a = Probability::new(1, 2);
    let b = Probability::new(2, 4);
    let c = Probability::new(2, 3);
    assert!(a.eq_ratio(&b));
    assert!(!a.eq_ratio(&c));
    // Filters agreeing on every derived parameter compare compatible
    // even when the probability is written as a different ratio.
    let bf1 = BloomFilter::new(32, a, bits_for(32, 0.5)).unwrap();
    let bf2 = BloomFilter::new(32, b, bits_for(32, 0.5)).unwrap();
    assert!(bf1.can_compare(&bf2));
    assert!(bf1.equals(bf2));
}

#[test]
fn test_describe_renders_descriptor() {
    let bf = filter(32, 1, 2, 0.5);
    // capacity 32, p to five places, 47 bits, one hash slot.
    assert_eq!(bf.describe(), "n:\t32\np:\t0.50000\nm:\t47\nk:\t1\n\n");
}

#[test]
fn test_set_ops_trait_surface() {
    let mut bf = filter(128, 1, 100, 0.01);
    SetOps::insert(&mut bf, String::from("via trait"));
    assert!(SetOps::contains(&bf, String::from("via trait")));
    assert!(!SetOps::contains(&bf, String::from("never inserted")));

    let mut bf2 = filter(128, 1, 100, 0.01);
    SetOps::insert(&mut bf2, String::from("via trait"));
    assert!(SetOps::equals(&bf, bf2));
}

#[test]
fn test_reinsert_leaves_state_unchanged() {
    let mut bf1 = filter(128, 1, 100, 0.01);
    let mut bf2 = filter(128, 1, 100, 0.01);
    bf1.insert(String::from("twice"));
    bf1.insert(String::from("twice"));
    bf2.insert(String::from("twice"));
    assert!(bf1.equals(bf2));
}

#[test]
fn test_contains_is_deterministic() {
    let mut bf = filter(128, 1, 100, 0.01);
    bf.insert(String::from("stable"));
    let first = bf.contains(String::from("stable"));
    let second = bf.contains(String::from("stable"));
    assert_eq!(first, second);
    assert!(first);
    let absent_first = bf.contains(String::from("missing"));
    let absent_second = bf.contains(String::from("missing"));
    assert_eq!(absent_first, absent_second);
}

#[test]
fn test_presence_survives_further_insertions() {
    let mut bf = filter(128, 1, 100, 0.01);
    bf.insert(String::from("first"));
    assert!(bf.contains(String::from("first")));
    for i in 0..50 {
        bf.insert(format!("more-{i}"));
        assert!(bf.contains(String::from("first")));
    }
}

#[test]
fn test_statistical_false_positive_rate() {
    // Sized for ten thousand keys at one percent false positives; after
    // inserting ten thousand distinct keys, querying ten thousand
    // disjoint keys should stay within a three-fold multiple of the
    // target rate.
    let capacity = 10000;
    let p = 0.01;
    let mut bf = filter(capacity, 1, 100, p);
    for i in 0..capacity {
        bf.insert(format!("member-{i}"));
    }
    let mut false_positives = 0u32;
    for i in 0..capacity {
        if bf.contains(format!("absent-{i}")) {
            false_positives += 1;
        }
    }
    let rate = false_positives as f64 / capacity as f64;
    println!("empirical false-positive rate: {rate}");
    assert!(rate <= 3.0 * p);
}
