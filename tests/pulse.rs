use bosing::pulse::{coalesce_times, Envelope};

#[test]
fn envelope_without_shape_becomes_plateau() {
    let e = Envelope::new(None, 3, 4);
    assert_eq!(e, Envelope { shape: None, width: 0, plateau: 7 });
}

#[test]
fn envelope_with_zero_width_drops_shape() {
    let e = Envelope::new(Some(5), 0, 4);
    assert_eq!(e, Envelope { shape: None, width: 0, plateau: 4 });
}

#[test]
fn envelope_with_shape_and_width_is_kept() {
    let e = Envelope::new(Some(5), 2, 4);
    assert_eq!(e, Envelope { shape: Some(5), width: 2, plateau: 4 });
}

#[test]
fn envelope_plateau_saturates() {
    let e = Envelope::new(None, i64::MAX - 1, 10);
    assert_eq!(e.plateau, i64::MAX);
}

#[test]
fn coincident_entries_coalesce() {
    assert_eq!(coalesce_times(&vec![7, 7], 0), vec![0]);
}

#[test]
fn coalesce_empty() {
    assert_eq!(coalesce_times(&vec![], 5), Vec::<usize>::new());
}

#[test]
fn coalesce_groups_by_first_entry() {
    // 0, 1, 2 are within 2 of 0; 3 is not; 4, 5 are within 2 of 3; 10 alone.
    assert_eq!(coalesce_times(&vec![0, 1, 2, 3, 4, 5, 10], 2), vec![0, 3, 6]);
}

#[test]
fn coalesced_heads_are_apart() {
    let times = vec![0, 1, 1, 4, 5, 9, 9, 12];
    let tol = 2;
    let starts = coalesce_times(&times, tol);
    for a in 0..starts.len() {
        for b in a + 1..starts.len() {
            assert!((times[starts[b]] - times[starts[a]]).abs() > tol);
        }
    }
}
