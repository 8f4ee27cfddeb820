//! The arrays of one spectrum, keyed by their role.
use vstd::prelude::*;
use crate::array::DataArray;
use crate::encodings::{
    charge_key, intensity_key, mz_key, ArrayKey, ArrayRetrievalError, ArrayType,
};

verus! {

/// The first array of `s` whose role is `k`.
pub open spec fn lookup(s: Seq<DataArray>, k: ArrayKey) -> Option<DataArray>
    decreases s.len(),
{
    if s.len() == 0 {
        None
    } else if s[0].name@ == k {
        Some(s[0])
    } else {
        lookup(s.drop_first(), k)
    }
}

proof fn lemma_lookup_push(s: Seq<DataArray>, a: DataArray, k: ArrayKey)
    requires
        lookup(s, a.name@) is None,
    ensures
        lookup(s.push(a), k) == (if k == a.name@ { Some(a) } else { lookup(s, k) }),
    decreases s.len(),
{
    if s.len() > 0 {
        assert(s.push(a).drop_first() =~= s.drop_first().push(a));
        assert(s.push(a)[0] == s[0]);
        if s[0].name@ != k && s[0].name@ != a.name@ {
            lemma_lookup_push(s.drop_first(), a, k);
        }
    } else {
        assert(s.push(a).drop_first() =~= Seq::<DataArray>::empty());
        assert(lookup(Seq::<DataArray>::empty(), k) is None);
        assert(s.push(a)[0] == a);
    }
}

proof fn lemma_lookup_update(s: Seq<DataArray>, j: int, a: DataArray, k: ArrayKey)
    requires
        0 <= j < s.len(),
        s[j].name@ == a.name@,
        forall|i: int| 0 <= i < j ==> s[i].name@ != a.name@,
    ensures
        lookup(s.update(j, a), k) == (if k == a.name@ { Some(a) } else { lookup(s, k) }),
    decreases s.len(),
{
    if j > 0 {
        assert(s.update(j, a).drop_first() =~= s.drop_first().update(j - 1, a));
        assert(s.update(j, a)[0] == s[0]);
        if s[0].name@ != k {
            lemma_lookup_update(s.drop_first(), j - 1, a, k);
        }
    } else {
        assert(s.update(j, a).drop_first() =~= s.drop_first());
        assert(s.update(j, a)[0] == a);
    }
}

/// The arrays of one spectrum. Each role is looked up at its first array;
/// `add` keeps the roles distinct.
#[derive(Debug, Clone)]
pub struct BinaryArrayMap {
    pub arrays: Vec<DataArray>,
}

impl BinaryArrayMap {
    /// The array stored for role `k`, if any.
    pub open spec fn get_spec(&self, k: ArrayKey) -> Option<DataArray> {
        lookup(self.arrays@, k)
    }

    /// The m/z values as 64-bit float bit patterns.
    pub open spec fn spec_mzs(&self) -> Result<Seq<u64>, ArrayRetrievalError> {
        match self.get_spec(mz_key()) {
            None => Err(ArrayRetrievalError::NotFound(ArrayType::MZArray)),
            Some(a) => a.spec_f64_bits(),
        }
    }

    /// The intensities as 32-bit float bit patterns.
    pub open spec fn spec_intensities(&self) -> Result<Seq<u32>, ArrayRetrievalError> {
        match self.get_spec(intensity_key()) {
            None => Err(ArrayRetrievalError::NotFound(ArrayType::IntensityArray)),
            Some(a) => a.spec_f32_bits(),
        }
    }

    /// The charge states.
    pub open spec fn spec_charges(&self) -> Result<Seq<i32>, ArrayRetrievalError> {
        match self.get_spec(charge_key()) {
            None => Err(ArrayRetrievalError::NotFound(ArrayType::ChargeArray)),
            Some(a) => a.spec_i32s(),
        }
    }

    pub fn new() -> (r: BinaryArrayMap)
        ensures
            r.arrays@.len() == 0,
            forall|k: ArrayKey| r.get_spec(k) is None,
    {
        BinaryArrayMap { arrays: Vec::new() }
    }

    fn position(&self, t: &ArrayType) -> (r: Option<usize>)
        ensures
            match r {
                Some(j) => j < self.arrays@.len() && self.arrays@[j as int].name@ == t@
                    && forall|i: int| 0 <= i < j ==> self.arrays@[i].name@ != t@,
                None => forall|i: int| 0 <= i < self.arrays@.len() ==> self.arrays@[i].name@ != t@,
            },
            match r {
                Some(j) => self.get_spec(t@) == Some(self.arrays@[j as int]),
                None => self.get_spec(t@) is None,
            },
    {
        let mut i: usize = 0;
        assert(self.arrays@.subrange(0, self.arrays@.len() as int) =~= self.arrays@);
        while i < self.arrays.len()
            invariant
                i <= self.arrays@.len(),
                forall|j: int| 0 <= j < i ==> self.arrays@[j].name@ != t@,
                lookup(self.arrays@, t@) == lookup(self.arrays@.subrange(i as int, self.arrays@.len() as int), t@),
            decreases self.arrays@.len() - i,
        {
            let ghost s = self.arrays@.subrange(i as int, self.arrays@.len() as int);
            assert(s.drop_first() =~= self.arrays@.subrange(i + 1, self.arrays@.len() as int));
            if self.arrays[i].name.same_as(t) {
                return Some(i);
            }
            i = i + 1;
        }
        assert(self.arrays@.subrange(i as int, self.arrays@.len() as int).len() == 0);
        None
    }

    /// Whether an array of role `t` is present.
    pub fn has_array(&self, t: &ArrayType) -> (r: bool)
        ensures
            r == self.get_spec(t@) is Some,
    {
        self.position(t).is_some()
    }

    /// The array of role `t`, if present.
    pub fn get(&self, t: &ArrayType) -> (r: Option<&DataArray>)
        ensures
            match r {
                Some(a) => self.get_spec(t@) == Some(*a),
                None => self.get_spec(t@) is None,
            },
    {
        match self.position(t) {
            Some(j) => Some(&self.arrays[j]),
            None => None,
        }
    }

    /// Stores `array` under its role, replacing any array of that role.
    pub fn add(&mut self, array: DataArray)
        ensures
            final(self).get_spec(array.name@) == Some(array),
            forall|k: ArrayKey| k != array.name@ ==> final(self).get_spec(k) == old(self).get_spec(k),
            final(self).arrays@.len() == old(self).arrays@.len() + (if old(self).get_spec(array.name@) is None {
                1int
            } else {
                0int
            }),
    {
        let ghost a = array;
        match self.position(&array.name) {
            Some(j) => {
                proof {
                    assert forall|k: ArrayKey| true implies lookup(self.arrays@.update(j as int, a), k)
                        == (if k == a.name@ { Some(a) } else { lookup(self.arrays@, k) }) by {
                        lemma_lookup_update(self.arrays@, j as int, a, k);
                    }
                }
                self.arrays.set(j, array);
            },
            None => {
                proof {
                    assert forall|k: ArrayKey| true implies lookup(self.arrays@.push(a), k)
                        == (if k == a.name@ { Some(a) } else { lookup(self.arrays@, k) }) by {
                        lemma_lookup_push(self.arrays@, a, k);
                    }
                }
                self.arrays.push(array);
            },
        }
    }

    /// The m/z values, as 64-bit float bit patterns.
    pub fn mzs(&self) -> (r: Result<Vec<u64>, ArrayRetrievalError>)
        ensures
            match r {
                Ok(v) => self.spec_mzs() == Ok::<Seq<u64>, ArrayRetrievalError>(v@),
                Err(e) => self.spec_mzs() == Err::<Seq<u64>, ArrayRetrievalError>(e),
            },
    {
        match self.get(&ArrayType::MZArray) {
            Some(a) => a.to_f64_bits(),
            None => Err(ArrayRetrievalError::NotFound(ArrayType::MZArray)),
        }
    }

    /// The intensities, as 32-bit float bit patterns.
    pub fn intensities(&self) -> (r: Result<Vec<u32>, ArrayRetrievalError>)
        ensures
            match r {
                Ok(v) => self.spec_intensities() == Ok::<Seq<u32>, ArrayRetrievalError>(v@),
                Err(e) => self.spec_intensities() == Err::<Seq<u32>, ArrayRetrievalError>(e),
            },
    {
        match self.get(&ArrayType::IntensityArray) {
            Some(a) => a.to_f32_bits(),
            None => Err(ArrayRetrievalError::NotFound(ArrayType::IntensityArray)),
        }
    }

    /// The charge states.
    pub fn charges(&self) -> (r: Result<Vec<i32>, ArrayRetrievalError>)
        ensures
            match r {
                Ok(v) => self.spec_charges() == Ok::<Seq<i32>, ArrayRetrievalError>(v@),
                Err(e) => self.spec_charges() == Err::<Seq<i32>, ArrayRetrievalError>(e),
            },
    {
        match self.get(&ArrayType::ChargeArray) {
            Some(a) => a.to_i32s(),
            None => Err(ArrayRetrievalError::NotFound(ArrayType::ChargeArray)),
        }
    }
}

} // verus!
