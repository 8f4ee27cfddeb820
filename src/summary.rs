//! Tallies over the spectra of a data file.
use vstd::prelude::*;

verus! {

/// The count stored for `k`: that of its first entry, or zero.
pub open spec fn count_in(s: Seq<(i64, usize)>, k: i64) -> nat
    decreases s.len(),
{
    if s.len() == 0 {
        0
    } else if s[0].0 == k {
        s[0].1 as nat
    } else {
        count_in(s.drop_first(), k)
    }
}

/// `a + b`, held at `usize::MAX`.
pub open spec fn capped_sum(a: int, b: int) -> nat {
    if a + b > usize::MAX {
        usize::MAX as nat
    } else {
        (a + b) as nat
    }
}

/// How often `k` occurs in `s`.
pub open spec fn occurrences(s: Seq<i32>, k: i32) -> nat
    decreases s.len(),
{
    if s.len() == 0 {
        0
    } else {
        occurrences(s.drop_last(), k) + if s.last() == k { 1nat } else { 0nat }
    }
}

proof fn lemma_count_push(s: Seq<(i64, usize)>, e: (i64, usize), k: i64)
    requires
        count_in(s, e.0) == 0,
        forall|i: int| 0 <= i < s.len() ==> s[i].0 != e.0,
    ensures
        count_in(s.push(e), k) == (if k == e.0 { e.1 as nat } else { count_in(s, k) }),
    decreases s.len(),
{
    if s.len() > 0 {
        assert(s.push(e).drop_first() =~= s.drop_first().push(e));
        assert(s.push(e)[0] == s[0]);
        if s[0].0 != k {
            lemma_count_push(s.drop_first(), e, k);
        }
    } else {
        assert(s.push(e).drop_first() =~= Seq::<(i64, usize)>::empty());
        assert(count_in(Seq::<(i64, usize)>::empty(), k) == 0);
        assert(s.push(e)[0] == e);
    }
}

proof fn lemma_count_update(s: Seq<(i64, usize)>, j: int, e: (i64, usize), k: i64)
    requires
        0 <= j < s.len(),
        s[j].0 == e.0,
        forall|i: int| 0 <= i < j ==> s[i].0 != e.0,
    ensures
        count_in(s.update(j, e), k) == (if k == e.0 { e.1 as nat } else { count_in(s, k) }),
    decreases s.len(),
{
    if j > 0 {
        assert(s.update(j, e).drop_first() =~= s.drop_first().update(j - 1, e));
        assert(s.update(j, e)[0] == s[0]);
        if s[0].0 != k {
            lemma_count_update(s.drop_first(), j - 1, e, k);
        }
    } else {
        assert(s.update(j, e).drop_first() =~= s.drop_first());
        assert(s.update(j, e)[0] == e);
    }
}

proof fn lemma_count_bounded(s: Seq<(i64, usize)>, k: i64)
    ensures
        count_in(s, k) <= usize::MAX,
    decreases s.len(),
{
    if s.len() > 0 && s[0].0 != k {
        lemma_count_bounded(s.drop_first(), k);
    }
}

/// Counts keyed by an integer, in order of first appearance.
#[derive(Debug, Clone)]
pub struct CountTable {
    pub entries: Vec<(i64, usize)>,
}

impl CountTable {
    /// The count of `k`.
    pub open spec fn spec_count(&self, k: i64) -> nat {
        count_in(self.entries@, k)
    }

    pub fn new() -> (r: CountTable)
        ensures
            forall|k: i64| r.spec_count(k) == 0,
    {
        CountTable { entries: Vec::new() }
    }

    fn position(&self, k: i64) -> (r: Option<usize>)
        ensures
            match r {
                Some(j) => j < self.entries@.len() && self.entries@[j as int].0 == k
                    && forall|i: int| 0 <= i < j ==> self.entries@[i].0 != k,
                None => forall|i: int| 0 <= i < self.entries@.len() ==> self.entries@[i].0 != k,
            },
            match r {
                Some(j) => self.spec_count(k) == self.entries@[j as int].1,
                None => self.spec_count(k) == 0,
            },
    {
        let mut i: usize = 0;
        assert(self.entries@.subrange(0, self.entries@.len() as int) =~= self.entries@);
        while i < self.entries.len()
            invariant
                i <= self.entries@.len(),
                forall|j: int| 0 <= j < i ==> self.entries@[j].0 != k,
                count_in(self.entries@, k) == count_in(self.entries@.subrange(i as int, self.entries@.len() as int), k),
            decreases self.entries@.len() - i,
        {
            let ghost s = self.entries@.subrange(i as int, self.entries@.len() as int);
            assert(s.drop_first() =~= self.entries@.subrange(i + 1, self.entries@.len() as int));
            if self.entries[i].0 == k {
                return Some(i);
            }
            i = i + 1;
        }
        None
    }

    /// The count of `k`.
    pub fn count(&self, k: i64) -> (r: usize)
        ensures
            r == self.spec_count(k),
    {
        match self.position(k) {
            Some(j) => self.entries[j].1,
            None => 0,
        }
    }

    /// Adds `by` to the count of `k`, holding it at `usize::MAX`.
    pub fn increment(&mut self, k: i64, by: usize)
        ensures
            final(self).spec_count(k) == capped_sum(old(self).spec_count(k) as int, by as int),
            forall|o: i64| o != k ==> final(self).spec_count(o) == old(self).spec_count(o),
    {
        match self.position(k) {
            Some(j) => {
                let e = (k, self.entries[j].1.saturating_add(by));
                proof {
                    assert forall|o: i64| true implies count_in(self.entries@.update(j as int, e), o)
                        == (if o == k { e.1 as nat } else { count_in(self.entries@, o) }) by {
                        lemma_count_update(self.entries@, j as int, e, o);
                    }
                }
                self.entries.set(j, e);
            },
            None => {
                let e = (k, by);
                proof {
                    assert forall|o: i64| true implies count_in(self.entries@.push(e), o)
                        == (if o == k { e.1 as nat } else { count_in(self.entries@, o) }) by {
                        lemma_count_push(self.entries@, e, o);
                    }
                }
                self.entries.push(e);
            },
        }
    }

    /// Adds one to the count of each element of `keys`.
    pub fn increment_each(&mut self, keys: &Vec<i32>)
        ensures
            forall|k: i32| #[trigger] final(self).spec_count(k as i64)
                == capped_sum(old(self).spec_count(k as i64) as int, occurrences(keys@, k) as int),
            forall|o: i64| (o < i32::MIN || o > i32::MAX) ==> final(self).spec_count(o) == old(self).spec_count(o),
    {
        let ghost t0 = *self;
        let mut i: usize = 0;
        proof {
            assert forall|k: i32| #[trigger] self.spec_count(k as i64)
                == capped_sum(t0.spec_count(k as i64) as int, occurrences(keys@.take(0), k) as int) by {
                lemma_count_bounded(t0.entries@, k as i64);
                assert(keys@.take(0) =~= Seq::<i32>::empty());
            }
        }
        while i < keys.len()
            invariant
                i <= keys@.len(),
                forall|k: i32| #[trigger] self.spec_count(k as i64)
                    == capped_sum(t0.spec_count(k as i64) as int, occurrences(keys@.take(i as int), k) as int),
                forall|o: i64| (o < i32::MIN || o > i32::MAX) ==> self.spec_count(o) == t0.spec_count(o),
            decreases keys@.len() - i,
        {
            let c = keys[i];
            proof {
                assert(keys@.take(i + 1).drop_last() =~= keys@.take(i as int));
            }
            self.increment(c as i64, 1);
            proof {
                assert forall|k: i32| #[trigger] self.spec_count(k as i64)
                    == capped_sum(t0.spec_count(k as i64) as int, occurrences(keys@.take(i + 1), k) as int) by {
                    assert(occurrences(keys@.take(i + 1), k) == occurrences(keys@.take(i as int), k)
                        + if c == k { 1nat } else { 0nat });
                    if k != c {
                        assert(k as i64 != c as i64);
                    }
                }
            }
            i = i + 1;
        }
        assert(keys@.take(keys@.len() as int) =~= keys@);
    }
}

/// Whether a spectrum's signal is profile data or picked peaks.
#[derive(Debug, Clone, Copy, PartialEq, Eq, Structural)]
pub enum SignalContinuity {
    Unknown,
    Centroid,
    Profile,
}

impl SignalContinuity {
    pub open spec fn spec_code(&self) -> i64 {
        match self {
            SignalContinuity::Unknown => 0,
            SignalContinuity::Centroid => 1,
            SignalContinuity::Profile => 2,
        }
    }

    /// The key under which this continuity is tallied.
    pub fn code(&self) -> (r: i64)
        ensures
            r == self.spec_code(),
    {
        match self {
            SignalContinuity::Unknown => 0,
            SignalContinuity::Centroid => 1,
            SignalContinuity::Profile => 2,
        }
    }
}

/// What `handle_scan` reads of one spectrum.
#[derive(Debug, Clone)]
pub struct ScanFacts {
    pub ms_level: u8,
    /// The precursor's charge, for a spectrum above MS1 (`None` when not reported).
    pub precursor_charge: Option<i32>,
    pub continuity: SignalContinuity,
    /// The number of peaks or points.
    pub n_points: usize,
    /// The charge of each peak, when the spectrum carries charges.
    pub peak_charges: Option<Vec<i32>>,
}

/// Tallies of MS levels, precursor charges, peak charges per level, and
/// peaks or points per signal continuity.
#[derive(Debug, Clone)]
pub struct MSDataFileSummary {
    pub level_table: CountTable,
    /// Precursor charges; zero stands for "not reported".
    pub charge_table: CountTable,
    /// Peak charges, one table per MS level in order of first appearance.
    pub peak_charge_table: Vec<(u8, CountTable)>,
    pub peak_mode_table: CountTable,
}

/// The peak-charge table of `level`: that of its first entry, if any.
pub open spec fn level_table_of(s: Seq<(u8, CountTable)>, level: u8) -> Option<CountTable>
    decreases s.len(),
{
    if s.len() == 0 {
        None
    } else if s[0].0 == level {
        Some(s[0].1)
    } else {
        level_table_of(s.drop_first(), level)
    }
}

/// The count of peaks of charge `k` at `level`.
pub open spec fn peak_charge_count(s: Seq<(u8, CountTable)>, level: u8, k: i64) -> nat {
    match level_table_of(s, level) {
        Some(t) => t.spec_count(k),
        None => 0,
    }
}

proof fn lemma_level_update(s: Seq<(u8, CountTable)>, j: int, e: (u8, CountTable), l: u8)
    requires
        0 <= j < s.len(),
        s[j].0 == e.0,
        forall|i: int| 0 <= i < j ==> s[i].0 != e.0,
    ensures
        level_table_of(s.update(j, e), l) == (if l == e.0 { Some(e.1) } else { level_table_of(s, l) }),
    decreases s.len(),
{
    if j > 0 {
        assert(s.update(j, e).drop_first() =~= s.drop_first().update(j - 1, e));
        assert(s.update(j, e)[0] == s[0]);
        if s[0].0 != l {
            lemma_level_update(s.drop_first(), j - 1, e, l);
        }
    } else {
        assert(s.update(j, e).drop_first() =~= s.drop_first());
        assert(s.update(j, e)[0] == e);
    }
}

proof fn lemma_level_push(s: Seq<(u8, CountTable)>, e: (u8, CountTable), l: u8)
    requires
        forall|i: int| 0 <= i < s.len() ==> s[i].0 != e.0,
    ensures
        level_table_of(s.push(e), l) == (if l == e.0 { Some(e.1) } else { level_table_of(s, l) }),
    decreases s.len(),
{
    if s.len() > 0 {
        assert(s.push(e).drop_first() =~= s.drop_first().push(e));
        assert(s.push(e)[0] == s[0]);
        if s[0].0 != l {
            lemma_level_push(s.drop_first(), e, l);
        }
    } else {
        assert(s.push(e).drop_first() =~= Seq::<(u8, CountTable)>::empty());
        assert(level_table_of(Seq::<(u8, CountTable)>::empty(), l) is None);
        assert(s.push(e)[0] == e);
    }
}

impl MSDataFileSummary {
    pub fn new() -> (r: MSDataFileSummary)
        ensures
            forall|k: i64| r.level_table.spec_count(k) == 0,
            forall|k: i64| r.charge_table.spec_count(k) == 0,
            forall|k: i64| r.peak_mode_table.spec_count(k) == 0,
            r.peak_charge_table@.len() == 0,
    {
        MSDataFileSummary {
            level_table: CountTable::new(),
            charge_table: CountTable::new(),
            peak_charge_table: Vec::new(),
            peak_mode_table: CountTable::new(),
        }
    }

    fn level_position(&self, level: u8) -> (r: Option<usize>)
        ensures
            match r {
                Some(j) => j < self.peak_charge_table@.len() && self.peak_charge_table@[j as int].0 == level
                    && forall|i: int| 0 <= i < j ==> self.peak_charge_table@[i].0 != level,
                None => forall|i: int| 0 <= i < self.peak_charge_table@.len() ==> self.peak_charge_table@[i].0 != level,
            },
            match r {
                Some(j) => level_table_of(self.peak_charge_table@, level) == Some(self.peak_charge_table@[j as int].1),
                None => level_table_of(self.peak_charge_table@, level) is None,
            },
    {
        let mut i: usize = 0;
        assert(self.peak_charge_table@.subrange(0, self.peak_charge_table@.len() as int) =~= self.peak_charge_table@);
        while i < self.peak_charge_table.len()
            invariant
                i <= self.peak_charge_table@.len(),
                forall|j: int| 0 <= j < i ==> self.peak_charge_table@[j].0 != level,
                level_table_of(self.peak_charge_table@, level) == level_table_of(
                    self.peak_charge_table@.subrange(i as int, self.peak_charge_table@.len() as int),
                    level,
                ),
            decreases self.peak_charge_table@.len() - i,
        {
            let ghost s = self.peak_charge_table@.subrange(i as int, self.peak_charge_table@.len() as int);
            assert(s.drop_first() =~= self.peak_charge_table@.subrange(i + 1, self.peak_charge_table@.len() as int));
            if self.peak_charge_table[i].0 == level {
                return Some(i);
            }
            i = i + 1;
        }
        None
    }

    /// Adds one to the count of each peak charge in `charges` at `level`.
    pub fn add_peak_charges(&mut self, level: u8, charges: &Vec<i32>)
        ensures
            forall|k: i32| #[trigger] peak_charge_count(final(self).peak_charge_table@, level, k as i64)
                == capped_sum(
                    peak_charge_count(old(self).peak_charge_table@, level, k as i64) as int,
                    occurrences(charges@, k) as int,
                ),
            forall|l: u8, k: i64| l != level ==> peak_charge_count(final(self).peak_charge_table@, l, k)
                == peak_charge_count(old(self).peak_charge_table@, l, k),
            final(self).level_table == old(self).level_table,
            final(self).charge_table == old(self).charge_table,
            final(self).peak_mode_table == old(self).peak_mode_table,
    {
        let found = self.level_position(level);
        let ghost s0 = self.peak_charge_table@;
        match found {
            Some(j) => {
                let (l, mut t) = self.peak_charge_table.remove(j);
                assert(t == s0[j as int].1);
                t.increment_each(charges);
                let e = (l, t);
                proof {
                    assert forall|o: u8| true implies level_table_of(s0.update(j as int, e), o)
                        == (if o == level { Some(e.1) } else { level_table_of(s0, o) }) by {
                        lemma_level_update(s0, j as int, e, o);
                    }
                }
                self.peak_charge_table.insert(j, e);
                assert(self.peak_charge_table@ =~= s0.update(j as int, e));
            },
            None => {
                let mut t = CountTable::new();
                t.increment_each(charges);
                let e = (level, t);
                proof {
                    assert forall|o: u8| true implies level_table_of(s0.push(e), o)
                        == (if o == level { Some(e.1) } else { level_table_of(s0, o) }) by {
                        lemma_level_push(s0, e, o);
                    }
                }
                self.peak_charge_table.push(e);
            },
        }
    }

    /// Tallies one spectrum: its MS level; above MS1, its precursor charge
    /// (zero when not reported); its peaks or points under its continuity;
    /// and, when it carries them, its peak charges under its MS level.
    pub fn handle_scan(&mut self, scan: &ScanFacts)
        ensures
            final(self).level_table.spec_count(scan.ms_level as i64)
                == capped_sum(old(self).level_table.spec_count(scan.ms_level as i64) as int, 1),
            forall|k: i64| k != scan.ms_level as i64 ==> final(self).level_table.spec_count(k)
                == old(self).level_table.spec_count(k),
            scan.ms_level > 1 ==> {
                let c = match scan.precursor_charge {
                    Some(z) => z as i64,
                    None => 0i64,
                };
                &&& final(self).charge_table.spec_count(c) == capped_sum(old(self).charge_table.spec_count(c) as int, 1)
                &&& forall|k: i64| k != c ==> final(self).charge_table.spec_count(k) == old(self).charge_table.spec_count(k)
            },
            scan.ms_level <= 1 ==> final(self).charge_table == old(self).charge_table,
            final(self).peak_mode_table.spec_count(scan.continuity.spec_code())
                == capped_sum(old(self).peak_mode_table.spec_count(scan.continuity.spec_code()) as int, scan.n_points as int),
            forall|k: i64| k != scan.continuity.spec_code() ==> final(self).peak_mode_table.spec_count(k)
                == old(self).peak_mode_table.spec_count(k),
            match scan.peak_charges {
                Some(zs) => forall|k: i32| #[trigger] peak_charge_count(final(self).peak_charge_table@, scan.ms_level, k as i64)
                    == capped_sum(
                        peak_charge_count(old(self).peak_charge_table@, scan.ms_level, k as i64) as int,
                        occurrences(zs@, k) as int,
                    ),
                None => final(self).peak_charge_table == old(self).peak_charge_table,
            },
            forall|l: u8, k: i64| l != scan.ms_level ==> peak_charge_count(final(self).peak_charge_table@, l, k)
                == peak_charge_count(old(self).peak_charge_table@, l, k),
    {
        let level = scan.ms_level;
        self.level_table.increment(level as i64, 1);
        if level > 1 {
            let c: i64 = match scan.precursor_charge {
                Some(z) => z as i64,
                None => 0,
            };
            self.charge_table.increment(c, 1);
        }
        self.peak_mode_table.increment(scan.continuity.code(), scan.n_points);
        match &scan.peak_charges {
            Some(zs) => self.add_peak_charges(level, zs),
            None => {},
        }
    }
}

} // verus!
