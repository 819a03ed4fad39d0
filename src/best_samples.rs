use vstd::prelude::*;

use crate::eval::{better, is_better, no_worse, SampleEval};
use crate::geom::Transform;

verus! {

pub type Sample = (Transform, SampleEval);

/// Samples are ordered best first.
pub open spec fn sorted_samples(s: Seq<Sample>) -> bool {
    forall|i: int, j: int| 0 <= i < j < s.len() ==> no_worse(#[trigger] s[i].1, #[trigger] s[j].1)
}

/// Two translations lie within `thr` of each other (Euclidean).
pub open spec fn near(a: Transform, b: Transform, thr: u32) -> bool {
    (a.x - b.x) * (a.x - b.x) + (a.y - b.y) * (a.y - b.y) < thr * thr
}

/// The first index at or after `i` whose evaluation `e` beats, or the length.
pub open spec fn first_beaten_from(s: Seq<Sample>, e: SampleEval, i: int) -> int
    decreases s.len() - i,
{
    if i >= s.len() {
        s.len() as int
    } else if better(e, s[i].1) {
        i
    } else {
        first_beaten_from(s, e, i + 1)
    }
}

/// The first index at or after `i` whose translation is near `t`, or the length.
pub open spec fn first_near_from(s: Seq<Sample>, t: Transform, thr: u32, i: int) -> int
    decreases s.len() - i,
{
    if i >= s.len() {
        s.len() as int
    } else if near(s[i].0, t, thr) {
        i
    } else {
        first_near_from(s, t, thr, i + 1)
    }
}

/// `x` inserted before the first sample it beats.
pub open spec fn insert_sorted(s: Seq<Sample>, x: Sample) -> Seq<Sample> {
    s.insert(first_beaten_from(s, x.1, 0), x)
}

/// The evaluation a new sample must beat to be kept: the worst retained one when
/// the buffer is full, else `Invalid`.
pub open spec fn upper_of(s: Seq<Sample>, cap: nat) -> SampleEval {
    if s.len() >= cap && s.len() > 0 {
        s.last().1
    } else {
        SampleEval::Invalid
    }
}

/// The retained samples after reporting `(t, e)`.
pub open spec fn reported(s: Seq<Sample>, cap: nat, thr: u32, t: Transform, e: SampleEval) -> Seq<Sample> {
    if !better(e, upper_of(s, cap)) {
        s
    } else {
        let j = first_near_from(s, t, thr, 0);
        if j < s.len() {
            if better(e, s[j].1) {
                insert_sorted(s.remove(j), (t, e))
            } else {
                s
            }
        } else {
            let r = insert_sorted(s, (t, e));
            if r.len() > cap {
                r.drop_last()
            } else {
                r
            }
        }
    }
}

proof fn lemma_first_beaten(s: Seq<Sample>, e: SampleEval, i: int)
    requires
        0 <= i <= s.len(),
        forall|k: int| 0 <= k < i ==> !better(e, #[trigger] s[k].1),
    ensures
        i <= first_beaten_from(s, e, i) <= s.len(),
        forall|k: int| 0 <= k < first_beaten_from(s, e, i) ==> !better(e, #[trigger] s[k].1),
        first_beaten_from(s, e, i) < s.len() ==> better(e, s[first_beaten_from(s, e, i)].1),
    decreases s.len() - i,
{
    if i < s.len() && !better(e, s[i].1) {
        lemma_first_beaten(s, e, i + 1);
    }
}

proof fn lemma_insert_sorted(s: Seq<Sample>, x: Sample)
    requires
        sorted_samples(s),
    ensures
        sorted_samples(insert_sorted(s, x)),
        insert_sorted(s, x).len() == s.len() + 1,
        (s.len() == 0 || better(x.1, s[0].1)) ==> insert_sorted(s, x)[0] == x,
{
    lemma_first_beaten(s, x.1, 0);
    let p = first_beaten_from(s, x.1, 0);
    let r = insert_sorted(s, x);
    assert forall|i: int, j: int| 0 <= i < j < r.len() implies no_worse(#[trigger] r[i].1, #[trigger] r[j].1) by {
        if j < p {
            assert(r[i] == s[i] && r[j] == s[j]);
        } else if j == p {
            assert(r[i] == s[i]);
        } else if i < p {
            assert(r[i] == s[i] && r[j] == s[j - 1]);
            assert(no_worse(s[i].1, s[p].1));
        } else if i == p {
            assert(r[j] == s[j - 1]);
            assert(no_worse(s[p].1, s[j - 1].1));
        } else {
            assert(r[i] == s[i - 1] && r[j] == s[j - 1]);
        }
    }
}

/// A buffer of the best distinct samples seen so far, best first.
pub struct BestSamples {
    pub capacity: usize,
    pub unique_threshold: u32,
    pub samples: Vec<Sample>,
}

impl BestSamples {
    pub open spec fn wf(&self) -> bool {
        &&& self.capacity > 0
        &&& self.samples@.len() <= self.capacity
        &&& sorted_samples(self.samples@)
    }

    pub fn new(capacity: usize, unique_threshold: u32) -> (r: Self)
        requires
            capacity > 0,
        ensures
            r.wf(),
            r.capacity == capacity,
            r.unique_threshold == unique_threshold,
            r.samples@.len() == 0,
    {
        BestSamples { capacity, unique_threshold, samples: Vec::new() }
    }

    /// The evaluation a new sample must beat to be retained.
    pub fn upper_bound(&self) -> (r: SampleEval)
        ensures
            r == upper_of(self.samples@, self.capacity as nat),
    {
        let n = self.samples.len();
        if n >= self.capacity && n > 0 {
            self.samples[n - 1].1
        } else {
            SampleEval::Invalid
        }
    }

    /// The best retained sample, if any.
    pub fn best(&self) -> (r: Option<Transform>)
        ensures
            self.samples@.len() == 0 ==> r.is_none(),
            self.samples@.len() > 0 ==> r == Some(self.samples@[0].0),
    {
        if self.samples.len() == 0 {
            None
        } else {
            Some(self.samples[0].0)
        }
    }

    fn find_near(&self, t: Transform) -> (r: usize)
        ensures
            r == first_near_from(self.samples@, t, self.unique_threshold, 0),
    {
        let mut i: usize = 0;
        let thr = self.unique_threshold as i128;
        while i < self.samples.len()
            invariant
                0 <= i <= self.samples@.len(),
                thr == self.unique_threshold,
                first_near_from(self.samples@, t, self.unique_threshold, 0)
                    == first_near_from(self.samples@, t, self.unique_threshold, i as int),
            decreases self.samples@.len() - i,
        {
            let s = self.samples[i].0;
            let dx = s.x as i128 - t.x as i128;
            let dy = s.y as i128 - t.y as i128;
            assert(-0x1_0000_0000 < dx < 0x1_0000_0000 && -0x1_0000_0000 < dy < 0x1_0000_0000);
            assert(0 <= dx * dx < 0x1_0000_0000_0000_0000) by (nonlinear_arith)
                requires -0x1_0000_0000 < dx < 0x1_0000_0000;
            assert(0 <= dy * dy < 0x1_0000_0000_0000_0000) by (nonlinear_arith)
                requires -0x1_0000_0000 < dy < 0x1_0000_0000;
            assert(0 <= thr * thr < 0x1_0000_0000_0000_0000) by (nonlinear_arith)
                requires 0 <= thr < 0x1_0000_0000;
            if dx * dx + dy * dy < thr * thr {
                return i;
            }
            i = i + 1;
        }
        i
    }

    fn insert_sorted_exec(&mut self, x: Sample)
        requires
            sorted_samples(old(self).samples@),
        ensures
            final(self).samples@ == insert_sorted(old(self).samples@, x),
            final(self).capacity == old(self).capacity,
            final(self).unique_threshold == old(self).unique_threshold,
    {
        let mut i: usize = 0;
        while i < self.samples.len() && !is_better(x.1, self.samples[i].1)
            invariant
                0 <= i <= self.samples@.len(),
                first_beaten_from(self.samples@, x.1, 0) == first_beaten_from(self.samples@, x.1, i as int),
            decreases self.samples@.len() - i,
        {
            i = i + 1;
        }
        self.samples.insert(i, x);
    }

    /// Offers a sample to the buffer. It is kept only if it beats the upper bound;
    /// a retained sample near it in translation is replaced if the new one is
    /// strictly better and otherwise keeps its place; when no retained sample is
    /// near, the new one is inserted and the worst is evicted past capacity.
    pub fn report(&mut self, t: Transform, e: SampleEval)
        requires
            old(self).wf(),
        ensures
            final(self).wf(),
            final(self).capacity == old(self).capacity,
            final(self).unique_threshold == old(self).unique_threshold,
            final(self).samples@ == reported(
                old(self).samples@,
                old(self).capacity as nat,
                old(self).unique_threshold,
                t,
                e,
            ),
    {
        let ub = self.upper_bound();
        if !is_better(e, ub) {
            return;
        }
        let j = self.find_near(t);
        let ghost s0 = self.samples@;
        if j < self.samples.len() {
            if is_better(e, self.samples[j].1) {
                self.samples.remove(j);
                assert(sorted_samples(self.samples@)) by {
                    assert forall|a: int, b: int| 0 <= a < b < self.samples@.len() implies no_worse(
                        #[trigger] self.samples@[a].1,
                        #[trigger] self.samples@[b].1,
                    ) by {
                        let a0 = if a < j { a } else { a + 1 };
                        let b0 = if b < j { b } else { b + 1 };
                        assert(self.samples@[a] == s0[a0] && self.samples@[b] == s0[b0]);
                    }
                }
                proof { lemma_insert_sorted(self.samples@, (t, e)); }
                self.insert_sorted_exec((t, e));
            }
        } else {
            proof { lemma_insert_sorted(self.samples@, (t, e)); }
            self.insert_sorted_exec((t, e));
            if self.samples.len() > self.capacity {
                self.samples.pop();
            }
        }
    }
}

/// The retained samples after reporting each of `ps` in turn.
pub open spec fn reported_all(s: Seq<Sample>, cap: nat, thr: u32, ps: Seq<Sample>) -> Seq<Sample>
    decreases ps.len(),
{
    if ps.len() == 0 {
        s
    } else {
        let prev = reported_all(s, cap, thr, ps.drop_last());
        reported(prev, cap, thr, ps.last().0, ps.last().1)
    }
}

impl BestSamples {
    /// Reports samples evaluated elsewhere (on worker threads, without upper
    /// bounds), in the given order.
    pub fn report_evaluations(&mut self, evaluated: &Vec<Sample>)
        requires
            old(self).wf(),
        ensures
            final(self).wf(),
            final(self).capacity == old(self).capacity,
            final(self).unique_threshold == old(self).unique_threshold,
            final(self).samples@ == reported_all(old(self).samples@, old(self).capacity as nat, old(self).unique_threshold, evaluated@),
    {
        let mut i: usize = 0;
        while i < evaluated.len()
            invariant
                self.wf(),
                i <= evaluated@.len(),
                self.capacity == old(self).capacity,
                self.unique_threshold == old(self).unique_threshold,
                self.samples@ == reported_all(old(self).samples@, old(self).capacity as nat, old(self).unique_threshold, evaluated@.take(i as int)),
            decreases evaluated@.len() - i,
        {
            assert(evaluated@.take(i as int + 1).drop_last() =~= evaluated@.take(i as int));
            assert(evaluated@.take(i as int + 1).last() == evaluated@[i as int]);
            let (t, e) = evaluated[i];
            self.report(t, e);
            i = i + 1;
        }
        assert(evaluated@.take(evaluated@.len() as int) =~= evaluated@);
    }
}

/// A sample strictly better than every retained one becomes the best retained.
pub proof fn lemma_report_new_best(b: BestSamples, t: Transform, e: SampleEval)
    requires
        b.wf(),
        e != SampleEval::Invalid,
        b.samples@.len() == 0 || better(e, b.samples@[0].1),
    ensures
        reported(b.samples@, b.capacity as nat, b.unique_threshold, t, e)[0] == (t, e),
{
    let s = b.samples@;
    let cap = b.capacity as nat;
    if s.len() > 0 {
        assert(no_worse(s[0].1, s.last().1)) by {
            if s.len() > 1 {
                assert(s.last() == s[s.len() - 1]);
            }
        }
    }
    assert(better(e, upper_of(s, cap)));
    let j = first_near_from(s, t, b.unique_threshold, 0);
    lemma_first_near(s, t, b.unique_threshold, 0);
    if j < s.len() {
        assert(no_worse(s[0].1, s[j].1));
        let r = s.remove(j);
        assert(sorted_samples(r)) by {
            assert forall|a: int, c: int| 0 <= a < c < r.len() implies no_worse(#[trigger] r[a].1, #[trigger] r[c].1) by {
                let a0 = if a < j { a } else { a + 1 };
                let c0 = if c < j { c } else { c + 1 };
                assert(r[a] == s[a0] && r[c] == s[c0]);
            }
        }
        if r.len() > 0 {
            let k = if j == 0 { 1int } else { 0int };
            assert(r[0] == s[k]);
            assert(no_worse(s[0].1, s[k].1));
        }
        lemma_insert_sorted(r, (t, e));
    } else {
        lemma_insert_sorted(s, (t, e));
    }
}

/// Each sample retained after a report was retained before or is the reported
/// one, which is never `Invalid`; the best retained sample never gets worse.
pub proof fn lemma_reported_members(b: BestSamples, t: Transform, e: SampleEval)
    requires
        b.wf(),
    ensures
        ({
            let s = reported(b.samples@, b.capacity as nat, b.unique_threshold, t, e);
            &&& forall|i: int| 0 <= i < s.len() ==> (#[trigger] s[i] == (t, e) && e != SampleEval::Invalid)
                || b.samples@.contains(s[i])
            &&& b.samples@.len() > 0 ==> s.len() > 0 && no_worse(s[0].1, b.samples@[0].1)
            &&& s.len() > 0 ==> no_worse(s[0].1, e)
            &&& s.len() >= b.samples@.len()
        }),
{
    let s0 = b.samples@;
    let cap = b.capacity as nat;
    let s = reported(s0, cap, b.unique_threshold, t, e);
    if s0.len() > 0 {
        assert(no_worse(s0[0].1, s0.last().1)) by {
            assert(s0.last() == s0[s0.len() - 1]);
        }
    }
    if !better(e, upper_of(s0, cap)) {
        assert forall|i: int| 0 <= i < s.len() implies (#[trigger] s[i] == (t, e) && e != SampleEval::Invalid)
            || s0.contains(s[i]) by {
            assert(s0[i] == s[i]);
        }
        return;
    }
    assert(e != SampleEval::Invalid);
    let j = first_near_from(s0, t, b.unique_threshold, 0);
    lemma_first_near(s0, t, b.unique_threshold, 0);
    if j < s0.len() {
        if better(e, s0[j].1) {
            let r = s0.remove(j);
            assert(sorted_samples(r)) by {
                assert forall|a: int, c: int| 0 <= a < c < r.len() implies no_worse(#[trigger] r[a].1, #[trigger] r[c].1) by {
                    let a0 = if a < j { a } else { a + 1 };
                    let c0 = if c < j { c } else { c + 1 };
                    assert(r[a] == s0[a0] && r[c] == s0[c0]);
                }
            }
            lemma_insert_sorted(r, (t, e));
            lemma_first_beaten(r, e, 0);
            let p = first_beaten_from(r, e, 0);
            assert(s[p] == (t, e));
            assert forall|i: int| 0 <= i < s.len() implies (#[trigger] s[i] == (t, e) && e != SampleEval::Invalid)
                || s0.contains(s[i]) by {
                if i != p {
                    let ri = if i < p { i } else { i - 1 };
                    assert(s[i] == r[ri]);
                    let i0 = if ri < j { ri } else { ri + 1 };
                    assert(r[ri] == s0[i0]);
                }
            }
            if j == 0 {
                if r.len() > 0 {
                    assert(r[0] == s0[1]);
                    assert(no_worse(s0[0].1, s0[1].1));
                }
            } else {
                assert(r[0] == s0[0]);
                if p == 0 {
                    assert(no_worse(s0[0].1, s0[j].1));
                } else {
                    assert(s[0] == r[0]);
                }
            }
        } else {
            assert forall|i: int| 0 <= i < s.len() implies (#[trigger] s[i] == (t, e) && e != SampleEval::Invalid)
                || s0.contains(s[i]) by {
                assert(s0[i] == s[i]);
            }
        }
    } else {
        lemma_insert_sorted(s0, (t, e));
        lemma_first_beaten(s0, e, 0);
        let p = first_beaten_from(s0, e, 0);
        let r = insert_sorted(s0, (t, e));
        assert(r[p] == (t, e));
        if r.len() > cap {
            assert(p < r.len() - 1);
            assert(s[0] == r[0]);
        }
        assert forall|i: int| 0 <= i < s.len() implies (#[trigger] s[i] == (t, e) && e != SampleEval::Invalid)
            || s0.contains(s[i]) by {
            assert(s[i] == r[i]);
            if i != p {
                let i0 = if i < p { i } else { i - 1 };
                assert(r[i] == s0[i0]);
            }
        }
        if s0.len() > 0 {
            if p == 0 {
                assert(s[0] == r[0]);
            } else {
                assert(s[0] == r[0] && r[0] == s0[0]);
            }
        }
    }
}

proof fn lemma_first_near(s: Seq<Sample>, t: Transform, thr: u32, i: int)
    requires
        0 <= i <= s.len(),
    ensures
        i <= first_near_from(s, t, thr, i) <= s.len(),
    decreases s.len() - i,
{
    if i < s.len() && !near(s[i].0, t, thr) {
        lemma_first_near(s, t, thr, i + 1);
    }
}

} // verus!
