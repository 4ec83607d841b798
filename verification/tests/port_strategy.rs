use rustscan::input::{PortRange, ScanOrder};
use rustscan::port_strategy::range_iterator::RangeIterator;
use rustscan::port_strategy::PortStrategy;
use std::collections::HashSet;

// Helper: collect, sort and return ports produced by randomized RangeIterator
fn generate_sorted_from_ranges_random(input: &[(u16, u16)]) -> Vec<u16> {
    let mut it = RangeIterator::new_random(input);
    let mut v: Vec<u16> = it.collect();
    v.sort_unstable();
    v
}

// Helper: collect, sort and return ports produced by serial RangeIterator
fn generate_sorted_from_ranges_serial(input: &[(u16, u16)]) -> Vec<u16> {
    let mut it = RangeIterator::new_serial(input);
    let mut v: Vec<u16> = it.collect();
    v.sort_unstable();
    v
}

// Build expected sorted unique ports from input ranges (inclusive)
fn expected_ports_from_ranges(input: &[(u16, u16)]) -> Vec<u16> {
    let mut s = HashSet::new();
    for &(start, end) in input {
        for p in start..=end {
            s.insert(p);
        }
    }
    let mut v: Vec<u16> = s.into_iter().collect();
    v.sort_unstable();
    v
}

#[test]
fn random_range_iterator_test() {
    // small disjoint ranges
    let input = &[(1u16, 10u16), (20u16, 30u16), (100u16, 110u16)];
    let result = generate_sorted_from_ranges_random(input);
    let expected = expected_ports_from_ranges(input);
    assert_eq!(expected, result);

    // larger disjoint ranges
    let input = &[(1u16, 100u16), (200u16, 500u16)];
    let result = generate_sorted_from_ranges_random(input);
    let expected = expected_ports_from_ranges(input);
    assert_eq!(expected, result);

    // overlapping and adjacent
    let input = &[(10u16, 20u16), (15u16, 25u16), (26u16, 30u16)];
    let result = generate_sorted_from_ranges_random(input);
    let expected = expected_ports_from_ranges(input);
    assert_eq!(expected, result);

    // near-full domain (heavy): we only assert lengths & equality
    let input = &[(1u16, 65_535u16)];
    let result = generate_sorted_from_ranges_random(input);
    let expected = expected_ports_from_ranges(input);
    assert_eq!(expected.len(), result.len());
    assert_eq!(expected, result);

    // multiple disjoint ranges - check dedupe & coverage
    let input = &[(50u16, 100u16), (1000u16, 2000u16), (30000u16, 30010u16)];
    let result = generate_sorted_from_ranges_random(input);
    let set_len = result.iter().copied().collect::<HashSet<u16>>().len();
    assert_eq!(set_len, result.len());
    let expected = expected_ports_from_ranges(input);
    assert_eq!(expected, result);
}

#[test]
fn serial_range_iterator_test() {
    // serial should preserve input-order semantics but here we only assert
    // coverage (no duplicates) by sorting results and comparing expected set.

    // small disjoint ranges
    let input = &[(1u16, 10u16), (20u16, 30u16), (100u16, 110u16)];
    let result = generate_sorted_from_ranges_serial(input);
    let expected = expected_ports_from_ranges(input);
    assert_eq!(expected, result);

    // overlapping and adjacent
    let input = &[(10u16, 20u16), (15u16, 25u16), (26u16, 30u16)];
    let result = generate_sorted_from_ranges_serial(input);
    let expected = expected_ports_from_ranges(input);
    assert_eq!(expected, result);

    // multiple disjoint ranges
    let input = &[(50u16, 100u16), (1000u16, 2000u16), (30000u16, 30010u16)];
    let result = generate_sorted_from_ranges_serial(input);
    let set_len = result.iter().copied().collect::<HashSet<u16>>().len();
    assert_eq!(set_len, result.len());
    let expected = expected_ports_from_ranges(input);
    assert_eq!(expected, result);

    // all possible inputs
    let input = &[(u16::MIN, u16::MAX)];
    let result = generate_sorted_from_ranges_serial(input);
    let set_len = result.iter().copied().collect::<HashSet<u16>>().len();
    assert_eq!(set_len, result.len());
    let expected = expected_ports_from_ranges(input);
    assert_eq!(expected, result);
}

#[test]
fn port_strategy_serial_strategy_with_range() {
    let range = PortRange { start: 1, end: 100 };
    let strategy = PortStrategy::pick(&Some(vec![range]), None, ScanOrder::Serial);
    let result = strategy.ordered_iter();
    let expected_range = (1..=100).collect::<Vec<u16>>();
    assert_eq!(expected_range, result);
}

#[test]
fn port_strategy_random_strategy_with_range() {
    let range = PortRange { start: 1, end: 100 };
    let strategy = PortStrategy::pick(&Some(vec![range]), None, ScanOrder::Random);
    let mut result = strategy.ordered_iter();
    let expected_range = (1..=100).collect::<Vec<u16>>();
    assert_ne!(expected_range, result);

    result.sort_unstable();
    assert_eq!(expected_range, result);
}

#[test]
fn port_strategy_serial_strategy_with_ports() {
    let strategy = PortStrategy::pick(&None, Some(vec![80, 443]), ScanOrder::Serial);
    let result = strategy.ordered_iter();
    assert_eq!(vec![80, 443], result);
}

#[test]
fn port_strategy_random_strategy_with_ports() {
    let strategy = PortStrategy::pick(&None, Some((1..10).collect()), ScanOrder::Random);
    let mut result = strategy.ordered_iter();
    let expected_range = (1..10).collect::<Vec<u16>>();
    assert_ne!(expected_range, result);

    result.sort_unstable();
    assert_eq!(expected_range, result);
}

#[test]
fn mod_serial_strategy_with_range() {
    let range = PortRange { start: 1, end: 100 };
    let strategy = PortStrategy::pick(&Some(vec![range.clone()]), None, ScanOrder::Serial);
    let result = strategy.order();
    let expected_range = (1..=100).collect::<Vec<u16>>();
    assert_eq!(expected_range, result);
}

#[test]
fn mod_random_strategy_with_range() {
    let range = PortRange { start: 1, end: 100 };
    let strategy = PortStrategy::pick(&Some(vec![range.clone()]), None, ScanOrder::Random);
    let mut result = strategy.order();
    let expected_range = (1..=100).collect::<Vec<u16>>();
    assert_ne!(expected_range, result);

    result.sort_unstable();
    assert_eq!(expected_range, result);
}

#[test]
fn mod_serial_strategy_with_ports() {
    let strategy = PortStrategy::pick(&None, Some(vec![80, 443]), ScanOrder::Serial);
    let result = strategy.order();
    assert_eq!(vec![80, 443], result);
}

#[test]
fn mod_random_strategy_with_ports() {
    let strategy = PortStrategy::pick(&None, Some((1..10).collect()), ScanOrder::Random);
    let mut result = strategy.order();
    let expected_range = (1..10).collect::<Vec<u16>>();
    assert_ne!(expected_range, result);

    result.sort_unstable();
    assert_eq!(expected_range, result);
}

#[test]
fn serial_iterator_keeps_the_order_of_the_ranges() {
    let mut it = RangeIterator::new_serial(&[(5, 7), (1, 3), (6, 9), (9, 8), (2, 2)]);
    assert_eq!(it.collect(), vec![5, 6, 7, 1, 2, 3, 8, 9]);
    assert_eq!(it.next(), None);
    let mut empty = RangeIterator::new_serial(&[]);
    assert_eq!(empty.next(), None);
    assert_eq!(empty.next(), None);
}

#[test]
fn serial_iterator_yields_port_by_port() {
    let mut it = RangeIterator::new_serial(&[(65534, 65535), (0, 1), (1, 1)]);
    assert_eq!(it.next(), Some(65534));
    assert_eq!(it.next(), Some(65535));
    assert_eq!(it.next(), Some(0));
    assert_eq!(it.next(), Some(1));
    assert_eq!(it.next(), None);
    assert_eq!(it.next(), None);
}

#[test]
fn random_iterator_walks_with_a_fixed_stride() {
    for _ in 0..20 {
        let mut it = RangeIterator::new_random(&[(1, 50), (40, 60), (100, 139)]);
        let order = it.collect();
        assert_eq!(it.next(), None);
        // the places of the ports yielded, in the ascending list of all ports
        let all: Vec<u16> = (1..=60).chain(100..=139).collect();
        let n = all.len();
        assert_eq!(order.len(), n);
        let places: Vec<usize> = order
            .iter()
            .map(|p| all.iter().position(|q| q == p).unwrap())
            .collect();
        let stride = (places[1] + n - places[0]) % n;
        assert!((n / 4 <= stride && stride < n - n / 4) || stride == n - 1);
        for i in 1..n {
            assert_eq!((places[i - 1] + stride) % n, places[i]);
        }
    }
}

#[test]
fn random_iterator_of_one_port() {
    let mut it = RangeIterator::new_random(&[(443, 443)]);
    assert_eq!(it.next(), Some(443));
    assert_eq!(it.next(), None);
    assert_eq!(it.next(), None);
    let mut it = RangeIterator::new_random(&[(0, 1)]);
    let mut both = it.collect();
    both.sort_unstable();
    assert_eq!(both, vec![0, 1]);
}

#[test]
fn single_range_in_either_order() {
    let ranges = Some(vec![PortRange { start: 1, end: 5 }]);
    let serial = PortStrategy::pick(&ranges, None, ScanOrder::Serial);
    assert_eq!(serial.order(), vec![1, 2, 3, 4, 5]);
    for _ in 0..50 {
        let random = PortStrategy::pick(&ranges, None, ScanOrder::Random);
        let mut walked = random.order();
        walked.sort_unstable();
        assert_eq!(walked, vec![1, 2, 3, 4, 5]);
        let mut again = random.ordered_iter();
        again.sort_unstable();
        assert_eq!(again, vec![1, 2, 3, 4, 5]);
    }
}

#[test]
fn several_ranges_give_each_port_once() {
    let ranges = Some(vec![
        PortRange { start: 1, end: 10 },
        PortRange { start: 5, end: 15 },
        PortRange { start: 100, end: 102 },
    ]);
    let serial = PortStrategy::pick(&ranges, None, ScanOrder::Serial);
    let mut expected: Vec<u16> = (1..=15).collect();
    expected.extend(100..=102);
    assert_eq!(serial.order(), expected);
    assert_eq!(serial.ordered_iter(), expected);
    let random = PortStrategy::pick(&ranges, None, ScanOrder::Random);
    let mut order = random.order();
    assert_eq!(order.len(), 18);
    order.sort_unstable();
    assert_eq!(order, expected);
}

#[test]
fn ranges_that_run_backwards_hold_nothing() {
    let backwards = Some(vec![PortRange { start: 9, end: 3 }]);
    assert!(PortStrategy::pick(&backwards, None, ScanOrder::Serial).order().is_empty());
    assert!(PortStrategy::pick(&backwards, None, ScanOrder::Random).order().is_empty());
    assert!(PortStrategy::pick(&backwards, None, ScanOrder::Random).ordered_iter().is_empty());
    let mixed = Some(vec![PortRange { start: 9, end: 3 }, PortRange { start: 4, end: 5 }]);
    let mut order = PortStrategy::pick(&mixed, None, ScanOrder::Random).order();
    order.sort_unstable();
    assert_eq!(order, vec![4, 5]);
    let none = Some(vec![]);
    assert!(PortStrategy::pick(&none, None, ScanOrder::Random).order().is_empty());
    assert!(PortStrategy::pick(&none, None, ScanOrder::Serial).order().is_empty());
}

#[test]
fn ports_take_precedence_over_ranges() {
    let ranges = Some(vec![PortRange { start: 1, end: 5 }]);
    let strategy = PortStrategy::pick(&ranges, Some(vec![443, 80, 443]), ScanOrder::Serial);
    assert_eq!(strategy.order(), vec![443, 80, 443]);
    let strategy = PortStrategy::pick(&ranges, Some(vec![443, 80, 443]), ScanOrder::Random);
    let mut order = strategy.order();
    order.sort_unstable();
    assert_eq!(order, vec![80, 443, 443]);
}

#[test]
fn without_ports_and_ranges_every_port_is_visited() {
    let every: Vec<u16> = (1..=65535).collect();
    let serial = PortStrategy::pick(&None, None, ScanOrder::Serial);
    assert!(matches!(serial, PortStrategy::Serial(_)));
    assert_eq!(serial.order(), every);
    assert_eq!(serial.ordered_iter(), every);
    let random = PortStrategy::pick(&None, None, ScanOrder::Random);
    assert!(matches!(random, PortStrategy::Random(_)));
    for mut order in [random.order(), random.ordered_iter()] {
        assert_eq!(order.len(), 65535);
        assert_ne!(order, every);
        order.sort_unstable();
        assert_eq!(order, every);
    }
}

#[test]
fn full_range_is_scattered_completely() {
    let ranges = Some(vec![PortRange { start: 1, end: 65535 }]);
    let random = PortStrategy::pick(&ranges, None, ScanOrder::Random);
    let mut walked = random.ordered_iter();
    assert_ne!(walked, (1..=65535).collect::<Vec<u16>>());
    walked.sort_unstable();
    assert_eq!(walked, (1..=65535).collect::<Vec<u16>>());
}
