//! Per-day commit counts.
//!
//! A `CommitCounts` is a list of `(day, count)` entries, days strictly
//! increasing and counts positive, so that two values that count the same
//! commits on every day are the same list. Days are numbered from
//! 1970-01-01 (day 0) in UTC.
use vstd::prelude::*;
use vstd::seq_lib::{commutative_foldl, lemma_fold_left_permutation};

verus! {

/// Addition of two counts that stops at `u64::MAX` instead of wrapping.
pub open spec fn sat_add(x: nat, y: nat) -> nat {
    if x + y > u64::MAX as nat {
        u64::MAX as nat
    } else {
        x + y
    }
}

/// The count that a list of entries gives to `day`: the sum of the counts
/// of the entries for that day.
pub open spec fn count_in(s: Seq<(i32, u64)>, day: i32) -> nat
    decreases s.len(),
{
    if s.len() == 0 {
        0
    } else {
        count_in(s.drop_last(), day) + (if s.last().0 == day {
            s.last().1 as nat
        } else {
            0
        })
    }
}

/// Days strictly increasing, counts positive.
pub open spec fn canonical(s: Seq<(i32, u64)>) -> bool {
    &&& forall|i: int, j: int| 0 <= i < j < s.len() ==> s[i].0 < s[j].0
    &&& forall|i: int| 0 <= i < s.len() ==> s[i].1 > 0
}

/// The saturated total, per day, of a sequence of entry lists.
pub open spec fn total_in(parts: Seq<Seq<(i32, u64)>>, day: i32) -> nat
    decreases parts.len(),
{
    if parts.len() == 0 {
        0
    } else {
        sat_add(total_in(parts.drop_last(), day), count_in(parts.last(), day))
    }
}

/// The saturated sum of a sequence of counts.
pub open spec fn sat_sum(xs: Seq<nat>) -> nat
    decreases xs.len(),
{
    if xs.len() == 0 {
        0
    } else {
        sat_add(sat_sum(xs.drop_last()), xs.last())
    }
}

/// Concatenation of a sequence of sequences.
pub open spec fn flatten<T>(xss: Seq<Seq<T>>) -> Seq<T>
    decreases xss.len(),
{
    if xss.len() == 0 {
        Seq::empty()
    } else {
        flatten(xss.drop_last()) + xss.last()
    }
}

proof fn lemma_count_bounded_by_max(s: Seq<(i32, u64)>, day: i32)
    requires
        canonical(s),
    ensures
        count_in(s, day) <= u64::MAX,
        forall|i: int| 0 <= i < s.len() && s[i].0 == day ==> count_in(s, day) == s[i].1,
        (forall|i: int| 0 <= i < s.len() ==> s[i].0 != day) ==> count_in(s, day) == 0,
    decreases s.len(),
{
    if s.len() > 0 {
        let t = s.drop_last();
        assert(canonical(t));
        lemma_count_bounded_by_max(t, day);
        if s.last().0 == day {
            assert forall|i: int| 0 <= i < t.len() implies t[i].0 != day by {
                assert(s[i].0 < s[s.len() - 1].0);
            }
        }
        assert forall|i: int| 0 <= i < s.len() && s[i].0 == day implies count_in(s, day)
            == s[i].1 by {
            if i < s.len() - 1 {
                assert(t[i] == s[i]);
                assert(s[i].0 < s[s.len() - 1].0);
            }
        }
        assert((forall|i: int| 0 <= i < s.len() ==> s[i].0 != day) ==> count_in(s, day) == 0) by {
            if forall|i: int| 0 <= i < s.len() ==> s[i].0 != day {
                assert forall|i: int| 0 <= i < t.len() implies t[i].0 != day by {
                    assert(t[i] == s[i]);
                }
                assert(s[s.len() - 1].0 != day);
            }
        }
    }
}

/// Two canonical lists that count every day alike are the same list.
pub proof fn lemma_canonical_unique(a: Seq<(i32, u64)>, b: Seq<(i32, u64)>)
    requires
        canonical(a),
        canonical(b),
        forall|d: i32| count_in(a, d) == count_in(b, d),
    ensures
        a == b,
    decreases a.len() + b.len(),
{
    if a.len() == 0 && b.len() == 0 {
        assert(a =~= b);
    } else if a.len() == 0 {
        let d = b.last().0;
        lemma_count_bounded_by_max(a, d);
        lemma_count_bounded_by_max(b, d);
        assert(count_in(b, d) == b[b.len() - 1].1);
    } else if b.len() == 0 {
        let d = a.last().0;
        lemma_count_bounded_by_max(a, d);
        lemma_count_bounded_by_max(b, d);
        assert(count_in(a, d) == a[a.len() - 1].1);
    } else {
        let ka = a.last().0;
        let kb = b.last().0;
        lemma_count_bounded_by_max(a, ka);
        lemma_count_bounded_by_max(b, ka);
        lemma_count_bounded_by_max(a, kb);
        lemma_count_bounded_by_max(b, kb);
        assert(count_in(a, ka) == a[a.len() - 1].1);
        assert(count_in(b, kb) == b[b.len() - 1].1);
        if ka < kb {
            assert forall|i: int| 0 <= i < a.len() implies a[i].0 != kb by {
                if i < a.len() - 1 {
                    assert(a[i].0 < a[a.len() - 1].0);
                }
            }
        } else if kb < ka {
            assert forall|i: int| 0 <= i < b.len() implies b[i].0 != ka by {
                if i < b.len() - 1 {
                    assert(b[i].0 < b[b.len() - 1].0);
                }
            }
        } else {
            let ta = a.drop_last();
            let tb = b.drop_last();
            assert(canonical(ta));
            assert(canonical(tb));
            assert forall|d: i32| count_in(ta, d) == count_in(tb, d) by {
                lemma_count_bounded_by_max(a, d);
                lemma_count_bounded_by_max(b, d);
            }
            lemma_canonical_unique(ta, tb);
            assert(a =~= ta.push(a.last()));
            assert(b =~= tb.push(b.last()));
        }
    }
}

proof fn lemma_count_push(s: Seq<(i32, u64)>, e: (i32, u64), day: i32)
    ensures
        count_in(s.push(e), day) == count_in(s, day) + (if e.0 == day {
            e.1 as nat
        } else {
            0
        }),
{
    assert(s.push(e).drop_last() =~= s);
}

proof fn lemma_take_next(s: Seq<(i32, u64)>, i: int)
    requires
        0 <= i < s.len(),
    ensures
        s.take(i + 1) =~= s.take(i).push(s[i]),
{
}

/// Commit counts per day, with no entry for a day without commits.
pub struct CommitCounts {
    entries: Vec<(i32, u64)>,
}

impl View for CommitCounts {
    type V = Seq<(i32, u64)>;

    closed spec fn view(&self) -> Seq<(i32, u64)> {
        self.entries@
    }
}

impl CommitCounts {
    /// The value is well formed: days strictly increasing, counts positive.
    pub open spec fn wf(&self) -> bool {
        canonical(self@)
    }

    /// The count of `day`.
    pub open spec fn spec_count(&self, day: i32) -> nat {
        count_in(self@, day)
    }

    /// Counts with no commits at all.
    pub fn new() -> (r: CommitCounts)
        ensures
            r.wf(),
            r@.len() == 0,
            forall|d: i32| #[trigger] r.spec_count(d) == 0,
    {
        CommitCounts { entries: Vec::new() }
    }

    /// The number of days with at least one commit.
    pub fn len(&self) -> (r: usize)
        ensures
            r == self@.len(),
    {
        self.entries.len()
    }

    /// Whether no day has a commit.
    pub fn is_empty(&self) -> (r: bool)
        ensures
            r == (self@.len() == 0),
    {
        self.entries.len() == 0
    }

    /// The entries, days in increasing order.
    pub fn entries(&self) -> (r: Vec<(i32, u64)>)
        ensures
            r@ == self@,
    {
        let mut out: Vec<(i32, u64)> = Vec::new();
        let mut i: usize = 0;
        while i < self.entries.len()
            invariant
                i <= self.entries.len(),
                out@ == self.entries@.take(i as int),
            decreases self.entries.len() - i,
        {
            out.push(self.entries[i]);
            proof {
                lemma_take_next(self.entries@, i as int);
            }
            i = i + 1;
        }
        proof {
            assert(self.entries@.take(i as int) =~= self.entries@);
        }
        out
    }

    /// The number of commits counted on `day` (zero where there is no entry).
    pub fn get(&self, day: i32) -> (r: u64)
        requires
            self.wf(),
        ensures
            r == self.spec_count(day),
    {
        proof {
            lemma_count_bounded_by_max(self@, day);
        }
        let mut i: usize = 0;
        while i < self.entries.len()
            invariant
                self.wf(),
                i <= self.entries.len(),
                forall|k: int| 0 <= k < i ==> self.entries@[k].0 != day,
            decreases self.entries.len() - i,
        {
            if self.entries[i].0 == day {
                proof {
                    lemma_count_bounded_by_max(self@, day);
                    assert(self@[i as int] == self.entries@[i as int]);
                }
                return self.entries[i].1;
            }
            i = i + 1;
        }
        0
    }

    /// The pointwise sum of two counts, saturating at `u64::MAX`.
    pub fn merge(&self, other: &CommitCounts) -> (r: CommitCounts)
        requires
            self.wf(),
            other.wf(),
        ensures
            r.wf(),
            forall|d: i32| #[trigger]
                r.spec_count(d) == sat_add(self.spec_count(d), other.spec_count(d)),
    {
        let a = &self.entries;
        let b = &other.entries;
        let mut out: Vec<(i32, u64)> = Vec::new();
        let mut i: usize = 0;
        let mut j: usize = 0;
        while i < a.len() || j < b.len()
            invariant
                canonical(a@),
                canonical(b@),
                canonical(out@),
                i <= a.len(),
                j <= b.len(),
                forall|k: int|
                    0 <= k < out.len() ==> (i < a.len() ==> out@[k].0 < a@[i as int].0) && (j
                        < b.len() ==> out@[k].0 < b@[j as int].0),
                forall|k: int| 0 <= k < i && j < b.len() ==> a@[k].0 < b@[j as int].0,
                forall|k: int| 0 <= k < j && i < a.len() ==> b@[k].0 < a@[i as int].0,
                forall|d: i32| #[trigger]
                    count_in(out@, d) == sat_add(
                        count_in(a@.take(i as int), d),
                        count_in(b@.take(j as int), d),
                    ),
            decreases a.len() + b.len() - i - j,
        {
            let ghost out0 = out@;
            let ghost i0 = i as int;
            let ghost j0 = j as int;
            proof {
                assert(canonical(a@.take(i0)));
                assert(canonical(b@.take(j0)));
            }
            if j >= b.len() || (i < a.len() && a[i].0 < b[j].0) {
                let e = a[i];
                out.push(e);
                i = i + 1;
                proof {
                    lemma_take_next(a@, i0);
                    assert forall|d: i32| #[trigger]
                        count_in(out@, d) == sat_add(
                            count_in(a@.take(i as int), d),
                            count_in(b@.take(j as int), d),
                        ) by {
                        lemma_count_push(out0, e, d);
                        lemma_count_push(a@.take(i0), e, d);
                        if d == e.0 {
                            lemma_count_bounded_by_max(a@.take(i0), d);
                            lemma_count_bounded_by_max(b@.take(j0), d);
                            assert forall|k: int| 0 <= k < i0 implies a@.take(i0)[k].0 != d by {
                                assert(a@[k].0 < a@[i0].0);
                            }
                        }
                    }
                    assert forall|k: int| 0 <= k < i && j < b.len() implies a@[k].0 < b@[
                        j as int
                    ].0 by {
                        if k < i0 {
                        }
                    }
                    assert forall|k: int| 0 <= k < j && i < a.len() implies b@[k].0 < a@[
                        i as int
                    ].0 by {
                        assert(a@[i0].0 < a@[i0 + 1].0);
                    }
                    assert forall|k: int| 0 <= k < out.len() && i < a.len() implies out@[k].0
                        < a@[i as int].0 by {
                        assert(a@[i0].0 < a@[i0 + 1].0);
                    }
                }
            } else if i >= a.len() || b[j].0 < a[i].0 {
                let e = b[j];
                out.push(e);
                j = j + 1;
                proof {
                    lemma_take_next(b@, j0);
                    assert forall|d: i32| #[trigger]
                        count_in(out@, d) == sat_add(
                            count_in(a@.take(i as int), d),
                            count_in(b@.take(j as int), d),
                        ) by {
                        lemma_count_push(out0, e, d);
                        lemma_count_push(b@.take(j0), e, d);
                        if d == e.0 {
                            lemma_count_bounded_by_max(a@.take(i0), d);
                            lemma_count_bounded_by_max(b@.take(j0), d);
                            assert forall|k: int| 0 <= k < j0 implies b@.take(j0)[k].0 != d by {
                                assert(b@[k].0 < b@[j0].0);
                            }
                        }
                    }
                    assert forall|k: int| 0 <= k < j && i < a.len() implies b@[k].0 < a@[
                        i as int
                    ].0 by {
                        if k < j0 {
                        }
                    }
                    assert forall|k: int| 0 <= k < i && j < b.len() implies a@[k].0 < b@[
                        j as int
                    ].0 by {
                        assert(b@[j0].0 < b@[j0 + 1].0);
                    }
                    assert forall|k: int| 0 <= k < out.len() && j < b.len() implies out@[k].0
                        < b@[j as int].0 by {
                        assert(b@[j0].0 < b@[j0 + 1].0);
                    }
                }
            } else {
                let e = (a[i].0, a[i].1.saturating_add(b[j].1));
                out.push(e);
                i = i + 1;
                j = j + 1;
                proof {
                    lemma_take_next(a@, i0);
                    lemma_take_next(b@, j0);
                    assert forall|d: i32| #[trigger]
                        count_in(out@, d) == sat_add(
                            count_in(a@.take(i as int), d),
                            count_in(b@.take(j as int), d),
                        ) by {
                        lemma_count_push(out0, e, d);
                        lemma_count_push(a@.take(i0), a@[i0], d);
                        lemma_count_push(b@.take(j0), b@[j0], d);
                        if d == e.0 {
                            lemma_count_bounded_by_max(a@.take(i0), d);
                            lemma_count_bounded_by_max(b@.take(j0), d);
                            assert forall|k: int| 0 <= k < i0 implies a@.take(i0)[k].0 != d by {
                                assert(a@[k].0 < a@[i0].0);
                            }
                            assert forall|k: int| 0 <= k < j0 implies b@.take(j0)[k].0 != d by {
                                assert(b@[k].0 < b@[j0].0);
                            }
                        }
                    }
                    assert forall|k: int| 0 <= k < i && j < b.len() implies a@[k].0 < b@[
                        j as int
                    ].0 by {
                        assert(b@[j0].0 < b@[j0 + 1].0);
                        if k < i0 {
                            assert(a@[k].0 < a@[i0].0);
                        }
                    }
                    assert forall|k: int| 0 <= k < j && i < a.len() implies b@[k].0 < a@[
                        i as int
                    ].0 by {
                        assert(a@[i0].0 < a@[i0 + 1].0);
                        if k < j0 {
                            assert(b@[k].0 < b@[j0].0);
                        }
                    }
                    assert forall|k: int| 0 <= k < out.len() && i < a.len() implies out@[k].0
                        < a@[i as int].0 by {
                        assert(a@[i0].0 < a@[i0 + 1].0);
                    }
                    assert forall|k: int| 0 <= k < out.len() && j < b.len() implies out@[k].0
                        < b@[j as int].0 by {
                        assert(b@[j0].0 < b@[j0 + 1].0);
                    }
                }
            }
        }
        proof {
            assert(a@.take(i as int) =~= a@);
            assert(b@.take(j as int) =~= b@);
        }
        CommitCounts { entries: out }
    }

    /// Counts one more commit on `day` (saturating at `u64::MAX`).
    pub fn add_commit(&mut self, day: i32)
        requires
            old(self).wf(),
        ensures
            final(self).wf(),
            final(self).spec_count(day) == sat_add(old(self).spec_count(day), 1),
            forall|d: i32| d != day ==> #[trigger] final(self).spec_count(d) == old(self).spec_count(d),
    {
        let mut one: Vec<(i32, u64)> = Vec::new();
        one.push((day, 1u64));
        let single = CommitCounts { entries: one };
        proof {
            assert forall|d: i32| #[trigger] single.spec_count(d) == (if d == day {
                1nat
            } else {
                0nat
            }) by {
                lemma_count_push(Seq::empty(), (day, 1u64), d);
                assert(Seq::<(i32, u64)>::empty().push((day, 1u64)) =~= single@);
            }
        }
        let ghost before = self@;
        let merged = self.merge(&single);
        *self = merged;
        proof {
            assert forall|d: i32| d != day implies #[trigger] count_in(self@, d) == count_in(
                before,
                d,
            ) by {
                lemma_count_bounded_by_max(before, d);
                assert(single.spec_count(d) == 0);
                assert(self.spec_count(d) == sat_add(count_in(before, d), single.spec_count(d)));
            }
        }
    }

    /// Combines many partial counts into one: the saturated sum, per day,
    /// of all of them.
    pub fn merge_all(parts: &Vec<CommitCounts>) -> (r: CommitCounts)
        requires
            forall|k: int| 0 <= k < parts@.len() ==> #[trigger] parts@[k].wf(),
        ensures
            r.wf(),
            forall|d: i32| #[trigger]
                r.spec_count(d) == total_in(parts@.map_values(|c: CommitCounts| c@), d),
    {
        let ghost views = parts@.map_values(|c: CommitCounts| c@);
        let mut acc = CommitCounts::new();
        let mut i: usize = 0;
        while i < parts.len()
            invariant
                i <= parts@.len(),
                views == parts@.map_values(|c: CommitCounts| c@),
                forall|k: int| 0 <= k < parts@.len() ==> #[trigger] parts@[k].wf(),
                acc.wf(),
                forall|d: i32| #[trigger] acc.spec_count(d) == total_in(views.take(i as int), d),
            decreases parts@.len() - i,
        {
            let next = acc.merge(&parts[i]);
            proof {
                assert(views.take(i as int + 1).drop_last() =~= views.take(i as int));
                assert forall|d: i32| #[trigger] next.spec_count(d) == total_in(
                    views.take(i as int + 1),
                    d,
                ) by {
                    assert(acc.spec_count(d) == total_in(views.take(i as int), d));
                }
            }
            acc = next;
            i = i + 1;
        }
        proof {
            assert(views.take(i as int) =~= views);
        }
        acc
    }
}

/// Combining partial counts is associative: the total of two groups of
/// parts, one after the other, is the combination of the two group totals.
pub proof fn lemma_total_concat(p1: Seq<Seq<(i32, u64)>>, p2: Seq<Seq<(i32, u64)>>, day: i32)
    ensures
        total_in(p1 + p2, day) == sat_add(total_in(p1, day), total_in(p2, day)),
    decreases p2.len(),
{
    if p2.len() == 0 {
        assert(p1 + p2 =~= p1);
    } else {
        assert((p1 + p2).drop_last() =~= p1 + p2.drop_last());
        lemma_total_concat(p1, p2.drop_last(), day);
    }
}

/// Combining partial counts is commutative: swapping two groups of parts
/// leaves the total unchanged.
pub proof fn lemma_total_commutes(p1: Seq<Seq<(i32, u64)>>, p2: Seq<Seq<(i32, u64)>>, day: i32)
    ensures
        total_in(p1 + p2, day) == total_in(p2 + p1, day),
{
    lemma_total_concat(p1, p2, day);
    lemma_total_concat(p2, p1, day);
}

/// However the parts are split into batches, combining each batch and then
/// the batch totals gives the total of all parts.
pub proof fn lemma_total_batches(batches: Seq<Seq<Seq<(i32, u64)>>>, day: i32)
    ensures
        total_in(flatten(batches), day) == sat_sum(
            batches.map_values(|b: Seq<Seq<(i32, u64)>>| total_in(b, day)),
        ),
    decreases batches.len(),
{
    let sums = batches.map_values(|b: Seq<Seq<(i32, u64)>>| total_in(b, day));
    if batches.len() > 0 {
        let rest = batches.drop_last();
        lemma_total_batches(rest, day);
        lemma_total_concat(flatten(rest), batches.last(), day);
        assert(sums.drop_last() =~= rest.map_values(
            |b: Seq<Seq<(i32, u64)>>| total_in(b, day),
        ));
    }
}

/// Combining the parts whole, or batch by batch and then the batch totals,
/// gives the very same counts, entry for entry.
pub proof fn lemma_batching_gives_same_counts(
    batches: Seq<Seq<Seq<(i32, u64)>>>,
    whole: Seq<(i32, u64)>,
    batched: Seq<(i32, u64)>,
)
    requires
        canonical(whole),
        canonical(batched),
        forall|d: i32| #[trigger] count_in(whole, d) == total_in(flatten(batches), d),
        forall|d: i32| #[trigger]
            count_in(batched, d) == sat_sum(
                batches.map_values(|b: Seq<Seq<(i32, u64)>>| total_in(b, d)),
            ),
    ensures
        whole == batched,
{
    assert forall|d: i32| count_in(whole, d) == count_in(batched, d) by {
        lemma_total_batches(batches, d);
    }
    lemma_canonical_unique(whole, batched);
}

proof fn lemma_total_is_fold(parts: Seq<Seq<(i32, u64)>>, day: i32)
    ensures
        total_in(parts, day) == parts.fold_left(
            0nat,
            |acc: nat, p: Seq<(i32, u64)>| sat_add(acc, count_in(p, day)),
        ),
    decreases parts.len(),
{
    if parts.len() > 0 {
        lemma_total_is_fold(parts.drop_last(), day);
    }
}

/// Combining partial counts does not depend on their order: any
/// rearrangement of the parts has the same total.
pub proof fn lemma_total_permutation(p1: Seq<Seq<(i32, u64)>>, p2: Seq<Seq<(i32, u64)>>, day: i32)
    requires
        p1.to_multiset() == p2.to_multiset(),
    ensures
        total_in(p1, day) == total_in(p2, day),
{
    let f = |acc: nat, p: Seq<(i32, u64)>| sat_add(acc, count_in(p, day));
    assert(commutative_foldl(f));
    lemma_total_is_fold(p1, day);
    lemma_total_is_fold(p2, day);
    lemma_fold_left_permutation(p1, p2, f, 0nat);
}

/// Combining a rearrangement of the parts gives the very same counts,
/// entry for entry.
pub proof fn lemma_reordering_gives_same_counts(
    p1: Seq<Seq<(i32, u64)>>,
    p2: Seq<Seq<(i32, u64)>>,
    r1: Seq<(i32, u64)>,
    r2: Seq<(i32, u64)>,
)
    requires
        p1.to_multiset() == p2.to_multiset(),
        canonical(r1),
        canonical(r2),
        forall|d: i32| #[trigger] count_in(r1, d) == total_in(p1, d),
        forall|d: i32| #[trigger] count_in(r2, d) == total_in(p2, d),
    ensures
        r1 == r2,
{
    assert forall|d: i32| count_in(r1, d) == count_in(r2, d) by {
        lemma_total_permutation(p1, p2, d);
    }
    lemma_canonical_unique(r1, r2);
}

} // verus!
