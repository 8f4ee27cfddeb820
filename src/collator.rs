//! Re-serialises indexed items that arrive out of order.
use vstd::prelude::*;
use vstd::set_lib::{lemma_int_range, lemma_len_subset, lemma_map_size_bound, set_int_range};
use std::collections::HashMap;

verus! {

broadcast use vstd::std_specs::hash::group_hash_axioms;

/// Why a stream of indexed items could not be put in order.
#[derive(Debug, Clone, Copy, PartialEq, Eq, Structural)]
pub enum CollatorError {
    /// This index arrived although it had already been emitted or was waiting.
    Duplicate(usize),
    /// The stream ended while this index, the next one due, had never arrived.
    Incomplete(usize),
}

/// Holds items that arrived ahead of their turn and hands them out in
/// strictly increasing index order.
pub struct Collator<T> {
    /// The index that is due next.
    pub next_expected: usize,
    /// Items that arrived ahead of `next_expected`, by index.
    pub pending: HashMap<usize, T>,
}

impl<T> Collator<T> {
    /// Every waiting item is ahead of the index that is due.
    pub open spec fn wf(&self) -> bool {
        forall|k: usize| #[trigger] self.pending@.contains_key(k) ==> self.next_expected < k < usize::MAX
    }

    pub fn new() -> (r: Collator<T>)
        ensures
            r.wf(),
            r.next_expected == 0,
            r.pending@ == Map::<usize, T>::empty(),
    {
        Collator { next_expected: 0, pending: HashMap::new() }
    }

    /// Whether any item is still waiting for its turn.
    pub fn has_pending(&self) -> (r: bool)
        ensures
            r == (self.pending@.dom().len() > 0),
    {
        self.pending.len() > 0
    }

    /// Accepts the item of `index` and returns what can now be emitted, in order:
    /// nothing if it is ahead of its turn; otherwise it and every waiting item
    /// that follows it without a gap. An index already emitted or waiting is
    /// refused and changes nothing.
    pub fn receive(&mut self, index: usize, item: T) -> (r: Result<Vec<(usize, T)>, CollatorError>)
        requires
            old(self).wf(),
            index < usize::MAX,
        ensures
            final(self).wf(),
            final(self).next_expected >= old(self).next_expected,
            (index < old(self).next_expected || old(self).pending@.contains_key(index)) ==> {
                &&& r == Err::<Vec<(usize, T)>, CollatorError>(CollatorError::Duplicate(index))
                &&& final(self).next_expected == old(self).next_expected
                &&& final(self).pending@ == old(self).pending@
            },
            index > old(self).next_expected && !old(self).pending@.contains_key(index) ==> {
                &&& r is Ok
                &&& r->Ok_0@.len() == 0
                &&& final(self).next_expected == old(self).next_expected
                &&& final(self).pending@ == old(self).pending@.insert(index, item)
            },
            index == old(self).next_expected ==> {
                let out = r->Ok_0@;
                let n = out.len();
                let start = old(self).next_expected as int;
                &&& r is Ok
                &&& n >= 1
                &&& out[0] == (index, item)
                &&& forall|j: int| 1 <= j < n ==> (#[trigger] out[j]).0 == start + j
                    && old(self).pending@.contains_key(out[j].0) && out[j].1 == old(self).pending@[out[j].0]
                &&& start + n <= usize::MAX
                &&& !old(self).pending@.contains_key((start + n) as usize) || start + n == usize::MAX
                &&& final(self).next_expected == start + n
                &&& final(self).pending@ == old(self).pending@.remove_keys(
                    Set::new(|k: usize| start < k < start + n),
                )
            },
            r is Ok ==> final(self).pending@.dom().len() + r->Ok_0@.len() == old(self).pending@.dom().len() + 1,
    {
        if index < self.next_expected || self.pending.contains_key(&index) {
            return Err(CollatorError::Duplicate(index));
        }
        if index > self.next_expected {
            self.pending.insert(index, item);
            return Ok(Vec::new());
        }
        let ghost p0 = self.pending@;
        let ghost start = index as int;
        let mut out: Vec<(usize, T)> = Vec::new();
        out.push((index, item));
        self.next_expected = index + 1;
        while self.next_expected < usize::MAX && self.pending.contains_key(&self.next_expected)
            invariant
                start + out@.len() == self.next_expected,
                out@.len() >= 1,
                out@[0] == (index, item),
                forall|j: int| 1 <= j < out@.len() ==> (#[trigger] out@[j]).0 == start + j
                    && p0.contains_key(out@[j].0) && out@[j].1 == p0[out@[j].0],
                self.pending@ == p0.remove_keys(Set::new(|k: usize| start < k < self.next_expected)),
                forall|k: usize| #[trigger] p0.contains_key(k) ==> start < k < usize::MAX,
                forall|k: usize| #[trigger] self.pending@.contains_key(k) ==> self.next_expected <= k < usize::MAX,
                p0.dom().finite(),
                self.pending@.dom().len() + out@.len() == p0.dom().len() + 1,
            decreases usize::MAX - self.next_expected,
        {
            let k = self.next_expected;
            let ghost before = self.pending@;
            let ghost out0 = out@;
            let x = self.pending.remove(&k);
            match x {
                Some(v) => {
                    proof {
                        assert(before[k] == v);
                        assert(p0.contains_key(k));
                        assert(p0[k] == v);
                    }
                    out.push((k, v));
                    proof {
                        assert forall|j: int| 1 <= j < out@.len() implies (#[trigger] out@[j]).0 == start + j
                            && p0.contains_key(out@[j].0) && out@[j].1 == p0[out@[j].0] by {
                            if j < out0.len() {
                                assert(out@[j] == out0[j]);
                            }
                        }
                    }
                },
                None => {
                    proof {
                        assert(false);
                    }
                },
            }
            proof {
                assert(before.contains_key(k));
                assert(self.pending@ =~= p0.remove_keys(Set::new(|j: usize| start < j < k + 1)));
            }
            self.next_expected = k + 1;
        }
        proof {
            assert(self.pending@ =~= p0.remove_keys(Set::new(|j: usize| start < j < start + out@.len())));
        }
        Ok(out)
    }

    /// Ends the stream: it is complete exactly when nothing is still waiting.
    pub fn finish(&self) -> (r: Result<(), CollatorError>)
        ensures
            r is Ok <==> self.pending@.dom().len() == 0,
            r is Err ==> r == Err::<(), CollatorError>(CollatorError::Incomplete(self.next_expected)),
    {
        if self.has_pending() {
            Err(CollatorError::Incomplete(self.next_expected))
        } else {
            Ok(())
        }
    }
}

/// Buffering is bounded by how far ahead items arrive: when every waiting
/// index is at most `d` past the index that is due, at most `d` items wait.
/// (`next_expected` never decreases, so an item's distance now is at most
/// its distance when it arrived.)
pub proof fn lemma_pending_bounded<T>(c: Collator<T>, d: nat)
    requires
        c.wf(),
        forall|k: usize| #[trigger] c.pending@.contains_key(k) ==> k - c.next_expected <= d,
    ensures
        c.pending@.dom().len() <= d,
{
    let lo = c.next_expected + 1;
    let r = set_int_range(lo, lo + d);
    lemma_int_range(lo, lo + d);
    let f = |i: int| i as usize;
    let rs = r.map(f);
    lemma_map_size_bound(r, rs, f);
    assert forall|k: usize| c.pending@.dom().contains(k) implies rs.contains(k) by {
        assert(c.pending@.contains_key(k));
        assert(r.contains(k as int));
        assert(f(k as int) == k);
    }
    lemma_len_subset(c.pending@.dom(), rs);
}

/// Index `k` occurs in `s`.
pub open spec fn index_seen<T>(s: Seq<(usize, T)>, k: usize) -> bool {
    exists|j: int| 0 <= j < s.len() && (#[trigger] s[j]).0 == k
}

/// No index occurs twice in `s`.
pub open spec fn distinct_indices<T>(s: Seq<(usize, T)>) -> bool {
    forall|a: int, b: int| 0 <= a < b < s.len() ==> (#[trigger] s[a]).0 != (#[trigger] s[b]).0
}

/// The indices of `s` are `0, 1, ..., s.len() - 1`, each once, in any order.
pub open spec fn is_index_permutation<T>(s: Seq<(usize, T)>) -> bool {
    &&& distinct_indices(s)
    &&& forall|j: int| 0 <= j < s.len() ==> (#[trigger] s[j]).0 < s.len()
    &&& forall|k: usize| k < s.len() ==> #[trigger] index_seen(s, k)
}

/// `i` is the first index of `s` to occur a second time.
pub open spec fn first_repeat<T>(s: Seq<(usize, T)>, i: usize) -> bool {
    exists|j: int|
        0 <= j < s.len() && (#[trigger] s[j]).0 == i && index_seen(s.take(j), i) && distinct_indices(
            s.take(j),
        )
}

/// Puts a whole stream of indexed items, in arrival order, into index order.
/// It succeeds exactly when the indices are a permutation of `0..n`; then the
/// item of index `k` stands at position `k`. Otherwise the error names the
/// first index to arrive twice, or, when none does, the smallest index that
/// never arrived.
pub fn collate<T>(inputs: Vec<(usize, T)>) -> (r: Result<Vec<(usize, T)>, CollatorError>)
    requires
        forall|j: int| 0 <= j < inputs@.len() ==> (#[trigger] inputs@[j]).0 < usize::MAX,
    ensures
        r is Ok <==> is_index_permutation(inputs@),
        r matches Ok(out) ==> {
            &&& out@.len() == inputs@.len()
            &&& forall|k: int| 0 <= k < out@.len() ==> (#[trigger] out@[k]).0 == k
            &&& forall|j: int| 0 <= j < inputs@.len() ==> out@[(#[trigger] inputs@[j]).0 as int] == inputs@[j]
        },
        (r is Err && r->Err_0 is Duplicate) <==> !distinct_indices(inputs@),
        r matches Err(CollatorError::Duplicate(i)) ==> first_repeat(inputs@, i),
        r matches Err(CollatorError::Incomplete(m)) ==> {
            &&& distinct_indices(inputs@)
            &&& !index_seen(inputs@, m)
            &&& forall|k: usize| k < m ==> index_seen(inputs@, k)
        },
{
    let ghost s = inputs@;
    let n: usize = inputs.len();
    let mut rest = inputs;
    let mut rev: Vec<(usize, T)> = Vec::new();
    while rest.len() > 0
        invariant
            s == inputs@,
            n == s.len(),
            rest@ == s.take(n - rev@.len()),
            rev@.len() <= n,
            forall|t: int| 0 <= t < rev@.len() ==> #[trigger] rev@[t] == s[n - 1 - t],
        decreases rest@.len(),
    {
        let x = rest.pop().unwrap();
        rev.push(x);
        assert(rest@ =~= s.take(n - rev@.len()));
    }
    let mut c: Collator<T> = Collator::new();
    let mut out: Vec<(usize, T)> = Vec::new();
    let mut j: usize = 0;
    while j < n
        invariant
            s == inputs@,
            n == s.len(),
            j <= n,
            rev@.len() == n - j,
            forall|t: int| 0 <= t < rev@.len() ==> #[trigger] rev@[t] == s[n - 1 - t],
            forall|jj: int| 0 <= jj < s.len() ==> (#[trigger] s[jj]).0 < usize::MAX,
            c.wf(),
            distinct_indices(s.take(j as int)),
            out@.len() == c.next_expected,
            forall|k: int| 0 <= k < out@.len() ==> (#[trigger] out@[k]).0 == k,
            forall|jj: int| 0 <= jj < j && (#[trigger] s[jj]).0 < c.next_expected ==> out@[s[jj].0 as int] == s[jj],
            forall|jj: int| 0 <= jj < j && (#[trigger] s[jj]).0 >= c.next_expected ==> c.pending@.contains_key(s[jj].0)
                && c.pending@[s[jj].0] == s[jj].1,
            forall|k: usize| #[trigger] c.pending@.contains_key(k) ==> index_seen(s.take(j as int), k),
            forall|k: usize| k < c.next_expected ==> #[trigger] index_seen(s.take(j as int), k),
            !index_seen(s.take(j as int), c.next_expected),
            c.pending@.dom().len() + out@.len() == j,
        decreases n - j,
    {
        let (i, x) = rev.pop().unwrap();
        assert(s[j as int] == (i, x));
        let ghost c0 = c;
        let ghost out0 = out@;
        let ghost seen0 = s.take(j as int);
        let ghost seen1 = s.take(j + 1);
        assert(seen1 =~= seen0.push((i, x)));
        match c.receive(i, x) {
            Err(e) => {
                proof {
                    assert(index_seen(seen0, i));
                    assert(first_repeat(s, i));
                    assert(!distinct_indices(s)) by {
                        let jj = choose|jj: int| 0 <= jj < seen0.len() && (#[trigger] seen0[jj]).0 == i;
                        assert(s[jj].0 == s[j as int].0);
                    }
                    assert(!is_index_permutation(s));
                    assert(e == CollatorError::Duplicate(i));
                }
                return Err(e);
            },
            Ok(emitted) => {
                let mut e = emitted;
                let ghost em = e@;
                proof {
                    if i == c0.next_expected {
                        lemma_run_step(s, j as int, c0, c, out0, em);
                    } else {
                        lemma_wait_step(s, j as int, c0, c, out0);
                    }
                }
                out.append(&mut e);
                proof {
                    assert(out@ =~= out0 + em);
                }
            },
        }
        j = j + 1;
    }
    assert(s.take(n as int) =~= s);
    if c.has_pending() {
        proof {
            let p = c.pending@.dom().choose();
            assert(c.pending@.contains_key(p));
            assert(index_seen(s, p));
            if is_index_permutation(s) {
                let jj = choose|jj: int| 0 <= jj < s.len() && (#[trigger] s[jj]).0 == p;
                assert(s[jj].0 < n);
                assert(index_seen(s, c.next_expected));
            }
        }
        return Err(CollatorError::Incomplete(c.next_expected));
    }
    proof {
        assert forall|jj: int| 0 <= jj < s.len() implies (#[trigger] s[jj]).0 < s.len() by {
            if s[jj].0 >= c.next_expected {
                assert(c.pending@.contains_key(s[jj].0));
            }
        }
    }
    Ok(out)
}

/// The bookkeeping of `collate` after `s[j]` arrives ahead of its turn.
proof fn lemma_wait_step<T>(s: Seq<(usize, T)>, j: int, c0: Collator<T>, c: Collator<T>, out: Seq<(usize, T)>)
    requires
        0 <= j < s.len(),
        c0.wf(),
        c.wf(),
        distinct_indices(s.take(j)),
        out.len() == c0.next_expected,
        forall|jj: int| 0 <= jj < j && (#[trigger] s[jj]).0 < c0.next_expected ==> out[s[jj].0 as int] == s[jj],
        forall|jj: int| 0 <= jj < j && (#[trigger] s[jj]).0 >= c0.next_expected ==> c0.pending@.contains_key(s[jj].0)
            && c0.pending@[s[jj].0] == s[jj].1,
        forall|k: usize| #[trigger] c0.pending@.contains_key(k) ==> index_seen(s.take(j), k),
        forall|k: usize| k < c0.next_expected ==> #[trigger] index_seen(s.take(j), k),
        !index_seen(s.take(j), c0.next_expected),
        s[j].0 > c0.next_expected,
        !c0.pending@.contains_key(s[j].0),
        c.next_expected == c0.next_expected,
        c.pending@ == c0.pending@.insert(s[j].0, s[j].1),
    ensures
        distinct_indices(s.take(j + 1)),
        forall|jj: int| 0 <= jj < j + 1 && (#[trigger] s[jj]).0 < c.next_expected ==> out[s[jj].0 as int] == s[jj],
        forall|jj: int| 0 <= jj < j + 1 && (#[trigger] s[jj]).0 >= c.next_expected ==> c.pending@.contains_key(s[jj].0)
            && c.pending@[s[jj].0] == s[jj].1,
        forall|k: usize| #[trigger] c.pending@.contains_key(k) ==> index_seen(s.take(j + 1), k),
        forall|k: usize| k < c.next_expected ==> #[trigger] index_seen(s.take(j + 1), k),
        !index_seen(s.take(j + 1), c.next_expected),
{
    let seen0 = s.take(j);
    let seen1 = s.take(j + 1);
    let i = s[j].0;
    assert(seen1 =~= seen0.push(s[j]));
    assert forall|jj: int| 0 <= jj < j implies (#[trigger] s[jj]).0 != i by {
        assert(seen0[jj] == s[jj]);
    }
    assert forall|a: int, b: int| 0 <= a < b < seen1.len() implies (#[trigger] seen1[a]).0 != (#[trigger] seen1[b]).0 by {
        if b < j {
            assert(seen0[a] == seen1[a] && seen0[b] == seen1[b]);
        }
    }
    assert forall|k: usize| #[trigger] c.pending@.contains_key(k) implies index_seen(seen1, k) by {
        if k == i {
            assert(seen1[j].0 == k);
        } else {
            assert(index_seen(seen0, k));
            let jj = choose|jj: int| 0 <= jj < seen0.len() && (#[trigger] seen0[jj]).0 == k;
            assert(seen1[jj] == seen0[jj]);
        }
    }
    assert forall|k: usize| k < c.next_expected implies #[trigger] index_seen(seen1, k) by {
        assert(index_seen(seen0, k));
        let jj = choose|jj: int| 0 <= jj < seen0.len() && (#[trigger] seen0[jj]).0 == k;
        assert(seen1[jj] == seen0[jj]);
    }
    if index_seen(seen1, c.next_expected) {
        let jj = choose|jj: int| 0 <= jj < seen1.len() && (#[trigger] seen1[jj]).0 == c.next_expected;
        assert(seen0[jj] == seen1[jj]);
    }
}

/// The bookkeeping of `collate` after `s[j]` arrives on its turn and releases
/// the run `em`.
proof fn lemma_run_step<T>(
    s: Seq<(usize, T)>,
    j: int,
    c0: Collator<T>,
    c: Collator<T>,
    out: Seq<(usize, T)>,
    em: Seq<(usize, T)>,
)
    requires
        0 <= j < s.len(),
        forall|jj: int| 0 <= jj < s.len() ==> (#[trigger] s[jj]).0 < usize::MAX,
        c0.wf(),
        c.wf(),
        distinct_indices(s.take(j)),
        out.len() == c0.next_expected,
        forall|k: int| 0 <= k < out.len() ==> (#[trigger] out[k]).0 == k,
        forall|jj: int| 0 <= jj < j && (#[trigger] s[jj]).0 < c0.next_expected ==> out[s[jj].0 as int] == s[jj],
        forall|jj: int| 0 <= jj < j && (#[trigger] s[jj]).0 >= c0.next_expected ==> c0.pending@.contains_key(s[jj].0)
            && c0.pending@[s[jj].0] == s[jj].1,
        forall|k: usize| #[trigger] c0.pending@.contains_key(k) ==> index_seen(s.take(j), k),
        forall|k: usize| k < c0.next_expected ==> #[trigger] index_seen(s.take(j), k),
        !index_seen(s.take(j), c0.next_expected),
        s[j].0 == c0.next_expected,
        ({
            let n = em.len();
            let start = c0.next_expected as int;
            &&& n >= 1
            &&& em[0] == s[j]
            &&& forall|t: int| 1 <= t < n ==> (#[trigger] em[t]).0 == start + t
                && c0.pending@.contains_key(em[t].0) && em[t].1 == c0.pending@[em[t].0]
            &&& start + n <= usize::MAX
            &&& !c0.pending@.contains_key((start + n) as usize) || start + n == usize::MAX
            &&& c.next_expected == start + n
            &&& c.pending@ == c0.pending@.remove_keys(Set::new(|k: usize| start < k < start + n))
        }),
    ensures
        distinct_indices(s.take(j + 1)),
        forall|k: int| 0 <= k < (out + em).len() ==> (#[trigger] (out + em)[k]).0 == k,
        forall|jj: int| 0 <= jj < j + 1 && (#[trigger] s[jj]).0 < c.next_expected ==> (out + em)[s[jj].0 as int] == s[jj],
        forall|jj: int| 0 <= jj < j + 1 && (#[trigger] s[jj]).0 >= c.next_expected ==> c.pending@.contains_key(s[jj].0)
            && c.pending@[s[jj].0] == s[jj].1,
        forall|k: usize| #[trigger] c.pending@.contains_key(k) ==> index_seen(s.take(j + 1), k),
        forall|k: usize| k < c.next_expected ==> #[trigger] index_seen(s.take(j + 1), k),
        !index_seen(s.take(j + 1), c.next_expected),
{
    let seen0 = s.take(j);
    let seen1 = s.take(j + 1);
    let i = s[j].0;
    let start = c0.next_expected as int;
    let all = out + em;
    assert(seen1 =~= seen0.push(s[j]));
    assert forall|jj: int| 0 <= jj < j implies (#[trigger] s[jj]).0 != i by {
        assert(seen0[jj] == s[jj]);
    }
    assert forall|a: int, b: int| 0 <= a < b < seen1.len() implies (#[trigger] seen1[a]).0 != (#[trigger] seen1[b]).0 by {
        if b < j {
            assert(seen0[a] == seen1[a] && seen0[b] == seen1[b]);
        }
    }
    assert forall|k: int| 0 <= k < all.len() implies (#[trigger] all[k]).0 == k by {
        if k >= out.len() {
            assert(all[k] == em[k - out.len()]);
        }
    }
    assert forall|jj: int| 0 <= jj < j + 1 && (#[trigger] s[jj]).0 < c.next_expected implies all[s[jj].0 as int] == s[jj] by {
        let k = s[jj].0 as int;
        if k >= start {
            assert(all[k] == em[k - start]);
            if jj < j {
                assert(k != start);
                assert(em[k - start].0 == k);
            }
        }
    }
    assert forall|k: usize| #[trigger] c.pending@.contains_key(k) implies index_seen(seen1, k) by {
        assert(index_seen(seen0, k));
        let jj = choose|jj: int| 0 <= jj < seen0.len() && (#[trigger] seen0[jj]).0 == k;
        assert(seen1[jj] == seen0[jj]);
    }
    assert forall|k: usize| k < c.next_expected implies #[trigger] index_seen(seen1, k) by {
        if k < start {
            assert(index_seen(seen0, k));
            let jj = choose|jj: int| 0 <= jj < seen0.len() && (#[trigger] seen0[jj]).0 == k;
            assert(seen1[jj] == seen0[jj]);
        } else if k == start {
            assert(seen1[j].0 == k);
        } else {
            assert(em[k - start].0 == k);
            assert(c0.pending@.contains_key(k));
            assert(index_seen(seen0, k));
            let jj = choose|jj: int| 0 <= jj < seen0.len() && (#[trigger] seen0[jj]).0 == k;
            assert(seen1[jj] == seen0[jj]);
        }
    }
    if index_seen(seen1, c.next_expected) {
        let jj = choose|jj: int| 0 <= jj < seen1.len() && (#[trigger] seen1[jj]).0 == c.next_expected;
        assert(seen0[jj] == seen1[jj]);
        assert(s[jj].0 < usize::MAX);
        assert(c0.pending@.contains_key(s[jj].0));
    }
}

} // verus!
