use mzdata::summary::{CountTable, MSDataFileSummary, ScanFacts, SignalContinuity};

fn peak_charge(s: &MSDataFileSummary, level: u8, charge: i64) -> usize {
    for (l, t) in s.peak_charge_table.iter() {
        if *l == level {
            return t.count(charge);
        }
    }
    0
}

#[test]
fn count_table_increments() {
    let mut t = CountTable::new();
    t.increment(3, 2);
    t.increment(-1, 1);
    t.increment(3, 5);
    assert_eq!(t.count(3), 7);
    assert_eq!(t.count(-1), 1);
    assert_eq!(t.count(8), 0);
    t.increment(3, usize::MAX);
    assert_eq!(t.count(3), usize::MAX);
    t.increment_each(&vec![2, 2, -1]);
    assert_eq!(t.count(2), 2);
    assert_eq!(t.count(-1), 2);
}

#[test]
fn handle_scans_tallies() {
    let mut s = MSDataFileSummary::new();
    s.handle_scan(&ScanFacts {
        ms_level: 1,
        precursor_charge: None,
        continuity: SignalContinuity::Profile,
        n_points: 1000,
        peak_charges: None,
    });
    s.handle_scan(&ScanFacts {
        ms_level: 2,
        precursor_charge: Some(2),
        continuity: SignalContinuity::Centroid,
        n_points: 3,
        peak_charges: Some(vec![1, 2, 2]),
    });
    s.handle_scan(&ScanFacts {
        ms_level: 2,
        precursor_charge: None,
        continuity: SignalContinuity::Centroid,
        n_points: 4,
        peak_charges: Some(vec![2]),
    });
    assert_eq!(s.level_table.count(1), 1);
    assert_eq!(s.level_table.count(2), 2);
    assert_eq!(s.charge_table.count(2), 1);
    assert_eq!(s.charge_table.count(0), 1);
    assert_eq!(s.peak_mode_table.count(SignalContinuity::Profile.code()), 1000);
    assert_eq!(s.peak_mode_table.count(SignalContinuity::Centroid.code()), 7);
    assert_eq!(peak_charge(&s, 2, 2), 3);
    assert_eq!(peak_charge(&s, 2, 1), 1);
    assert_eq!(peak_charge(&s, 1, 2), 0);
}
