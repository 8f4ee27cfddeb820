use mzdata::collator::{collate, Collator, CollatorError};
use mzdata::file_description::{FileDescription, Param, ParamDescribed, SourceFile};

#[test]
fn collate_reorders_scenario() {
    let out = collate(vec![(2, "c"), (0, "a"), (1, "b")]).unwrap();
    assert_eq!(out, vec![(0, "a"), (1, "b"), (2, "c")]);
}

#[test]
fn collate_reports_incomplete_stream() {
    assert_eq!(collate(vec![(1, "b")]), Err(CollatorError::Incomplete(0)));
}

#[test]
fn collate_reports_duplicate() {
    assert_eq!(collate(vec![(0, "a"), (2, "c"), (2, "x"), (0, "y")]), Err(CollatorError::Duplicate(2)));
    assert_eq!(collate(vec![(1, "b"), (0, "a"), (0, "z")]), Err(CollatorError::Duplicate(0)));
}

#[test]
fn collate_any_permutation() {
    let order = [5usize, 3, 0, 7, 1, 2, 6, 4];
    let input: Vec<(usize, usize)> = order.iter().map(|&i| (i, i * 10)).collect();
    let out = collate(input).unwrap();
    let expected: Vec<(usize, usize)> = (0..8).map(|i| (i, i * 10)).collect();
    assert_eq!(out, expected);
}

#[test]
fn collate_empty_stream() {
    let out: Vec<(usize, u8)> = collate(Vec::new()).unwrap();
    assert!(out.is_empty());
}

#[test]
fn receive_step_by_step() {
    let mut c: Collator<&str> = Collator::new();
    assert_eq!(c.receive(2, "c"), Ok(vec![]));
    assert_eq!(c.receive(1, "b"), Ok(vec![]));
    assert!(c.has_pending());
    assert_eq!(c.finish(), Err(CollatorError::Incomplete(0)));
    assert_eq!(c.receive(0, "a"), Ok(vec![(0, "a"), (1, "b"), (2, "c")]));
    assert_eq!(c.next_expected, 3);
    assert_eq!(c.receive(1, "again"), Err(CollatorError::Duplicate(1)));
    assert_eq!(c.receive(5, "f"), Ok(vec![]));
    assert_eq!(c.receive(5, "f2"), Err(CollatorError::Duplicate(5)));
    assert_eq!(c.receive(3, "d"), Ok(vec![(3, "d")]));
    assert_eq!(c.pending.len(), 1);
    assert_eq!(c.receive(4, "e"), Ok(vec![(4, "e"), (5, "f")]));
    assert_eq!(c.finish(), Ok(()));
}

#[test]
fn pending_stays_within_window() {
    let mut c: Collator<u32> = Collator::new();
    for i in (1..5usize).rev() {
        assert_eq!(c.receive(i, i as u32), Ok(vec![]));
        assert!(c.pending.len() <= 4);
    }
    assert_eq!(c.receive(0, 0).unwrap().len(), 5);
    assert_eq!(c.pending.len(), 0);
}

#[test]
fn params_of_records() {
    let mut f = FileDescription::default();
    f.params_mut().push(Param { name: "MS1 spectrum".to_string(), value: String::new(), accession: Some(1000579) });
    assert_eq!(f.params().len(), 1);
    assert_eq!(f.contents[0].name, "MS1 spectrum");
    let mut s = SourceFile::default();
    s.name = "run.raw".to_string();
    s.params_mut().push(Param { name: "SHA-1".to_string(), value: "abc".to_string(), accession: None });
    assert_eq!(s.params()[0].value, "abc");
    f.source_files.push(s);
    assert_eq!(f.source_files[0].name, "run.raw");
}
