use objective::resolve_index;

#[test]
fn last_reference_equals_minus_one() {
    for n in [1usize, 2, 7, 65536] {
        assert_eq!(resolve_index(n as i64, n), resolve_index(-1, n));
        assert_eq!(resolve_index(-1, n), Some((n - 1) as u16));
    }
}

#[test]
fn first_reference_is_offset_zero() {
    for n in [1usize, 3, 1000] {
        assert_eq!(resolve_index(1, n), Some(0));
    }
    assert_eq!(resolve_index(1, 0), None);
}

#[test]
fn zero_reference_never_resolves() {
    for n in [0usize, 1, 5, 100] {
        assert_eq!(resolve_index(0, n), None);
    }
}

#[test]
fn out_of_range_references() {
    assert_eq!(resolve_index(4, 3), None);
    assert_eq!(resolve_index(-4, 3), None);
    assert_eq!(resolve_index(-3, 3), Some(0));
    assert_eq!(resolve_index(i64::MIN, 3), None);
    assert_eq!(resolve_index(i64::MAX, 3), None);
    assert_eq!(resolve_index(65537, 70000), None);
    assert_eq!(resolve_index(65536, 70000), Some(65535));
}
