//! The extremes of the absolute values of a stream of observations, each
//! computed in one forward pass with constant state.
//!
//! A not-a-number observation is sticky: it replaces the running extreme, and
//! no later number displaces it, since every comparison with it is false.
//! An empty stream has the canonical not-a-number as its result.

use vstd::prelude::*;
use crate::binary64::Observation;

verus! {

/// The smallest magnitude of `s`, as the streaming fold computes it: seeded
/// with the first magnitude, each later magnitude `x` replaces the running
/// value `acc` when `x < acc` or `x` is not-a-number.
pub open spec fn abs_min_of(s: Seq<Observation>) -> Observation
    decreases s.len(),
{
    if s.len() == 0 {
        Observation::nan_spec()
    } else if s.len() == 1 {
        s[0].abs_spec()
    } else {
        let acc = abs_min_of(s.drop_last());
        let x = s.last().abs_spec();
        if x.magnitude_lt(acc) || x.is_nan_spec() {
            x
        } else {
            acc
        }
    }
}

/// The largest magnitude of `s`, as the streaming fold computes it: seeded
/// with the first magnitude, each later magnitude `x` replaces the running
/// value `acc` when `x > acc` or `x` is not-a-number.
pub open spec fn abs_max_of(s: Seq<Observation>) -> Observation
    decreases s.len(),
{
    if s.len() == 0 {
        Observation::nan_spec()
    } else if s.len() == 1 {
        s[0].abs_spec()
    } else {
        let acc = abs_max_of(s.drop_last());
        let x = s.last().abs_spec();
        if acc.magnitude_lt(x) || x.is_nan_spec() {
            x
        } else {
            acc
        }
    }
}

pub open spec fn has_nan(s: Seq<Observation>) -> bool {
    exists|i: int| 0 <= i < s.len() && #[trigger] s[i].is_nan_spec()
}

/// `s[i]` is the last not-a-number of `s`.
pub open spec fn is_last_nan(s: Seq<Observation>, i: int) -> bool {
    &&& 0 <= i < s.len()
    &&& s[i].is_nan_spec()
    &&& forall|j: int| i < j < s.len() ==> !(#[trigger] s[j].is_nan_spec())
}

/// What the result of either extreme is, said directly: the canonical
/// not-a-number for an empty stream; the magnitude of the last not-a-number
/// where there is one; else a magnitude of the stream that lies on the
/// right side of every other (`smallest` picks the side).
pub open spec fn is_abs_extreme(s: Seq<Observation>, r: Observation, smallest: bool) -> bool {
    &&& s.len() == 0 ==> r == Observation::nan_spec()
    &&& has_nan(s) ==> exists|i: int| is_last_nan(s, i) && r == s[i].abs_spec()
    &&& (s.len() > 0 && !has_nan(s)) ==> {
        &&& !r.is_nan_spec()
        &&& exists|i: int| 0 <= i < s.len() && r == #[trigger] s[i].abs_spec()
        &&& forall|j: int|
            0 <= j < s.len() ==> if smallest {
                r.bits <= (#[trigger] s[j].abs_spec()).bits
            } else {
                (#[trigger] s[j].abs_spec()).bits <= r.bits
            }
    }
}

/// The streaming fold for the smallest magnitude meets the direct statement.
pub proof fn lemma_abs_min_of_is_extreme(s: Seq<Observation>)
    ensures
        is_abs_extreme(s, abs_min_of(s), true),
    decreases s.len(),
{
    if s.len() == 1 {
        crate::binary64::lemma_abs_keeps_nan(s[0]);
        if s[0].is_nan_spec() {
            assert(is_last_nan(s, 0));
        } else {
            assert(s[0].abs_spec() == s[0].abs_spec());
        }
    } else if s.len() > 1 {
        let p = s.drop_last();
        let n = s.len() - 1;
        lemma_abs_min_of_is_extreme(p);
        let acc = abs_min_of(p);
        let x = s.last().abs_spec();
        crate::binary64::lemma_abs_keeps_nan(s[n]);
        assert(forall|j: int| 0 <= j < n ==> s[j] == p[j]);
        if s[n].is_nan_spec() {
            assert(is_last_nan(s, n));
        } else if has_nan(s) {
            let k = choose|k: int| 0 <= k < s.len() && #[trigger] s[k].is_nan_spec();
            assert(p[k].is_nan_spec());
            let i = choose|i: int| is_last_nan(p, i) && acc == p[i].abs_spec();
            crate::binary64::lemma_abs_keeps_nan(p[i]);
            assert(is_last_nan(s, i));
        } else {
            assert forall|j: int| 0 <= j < p.len() implies !(#[trigger] p[j].is_nan_spec()) by {
                assert(s[j] == p[j]);
            }
            assert(!has_nan(p));
            let i = choose|i: int| 0 <= i < p.len() && acc == #[trigger] p[i].abs_spec();
            assert(acc == s[i].abs_spec());
            assert forall|j: int| 0 <= j < s.len() implies abs_min_of(s).bits <= (
            #[trigger] s[j].abs_spec()).bits by {
                if j < n {
                    assert(s[j] == p[j]);
                }
            }
            if x.magnitude_lt(acc) {
                assert(abs_min_of(s) == s[n].abs_spec());
            } else {
                assert(abs_min_of(s) == s[i].abs_spec());
            }
        }
    }
}

/// The streaming fold for the largest magnitude meets the direct statement.
pub proof fn lemma_abs_max_of_is_extreme(s: Seq<Observation>)
    ensures
        is_abs_extreme(s, abs_max_of(s), false),
    decreases s.len(),
{
    if s.len() == 1 {
        crate::binary64::lemma_abs_keeps_nan(s[0]);
        if s[0].is_nan_spec() {
            assert(is_last_nan(s, 0));
        } else {
            assert(s[0].abs_spec() == s[0].abs_spec());
        }
    } else if s.len() > 1 {
        let p = s.drop_last();
        let n = s.len() - 1;
        lemma_abs_max_of_is_extreme(p);
        let acc = abs_max_of(p);
        let x = s.last().abs_spec();
        crate::binary64::lemma_abs_keeps_nan(s[n]);
        assert(forall|j: int| 0 <= j < n ==> s[j] == p[j]);
        if s[n].is_nan_spec() {
            assert(is_last_nan(s, n));
        } else if has_nan(s) {
            let k = choose|k: int| 0 <= k < s.len() && #[trigger] s[k].is_nan_spec();
            assert(p[k].is_nan_spec());
            let i = choose|i: int| is_last_nan(p, i) && acc == p[i].abs_spec();
            crate::binary64::lemma_abs_keeps_nan(p[i]);
            assert(is_last_nan(s, i));
        } else {
            assert forall|j: int| 0 <= j < p.len() implies !(#[trigger] p[j].is_nan_spec()) by {
                assert(s[j] == p[j]);
            }
            assert(!has_nan(p));
            let i = choose|i: int| 0 <= i < p.len() && acc == #[trigger] p[i].abs_spec();
            assert(acc == s[i].abs_spec());
            assert forall|j: int| 0 <= j < s.len() implies (
            #[trigger] s[j].abs_spec()).bits <= abs_max_of(s).bits by {
                if j < n {
                    assert(s[j] == p[j]);
                }
            }
            if acc.magnitude_lt(x) {
                assert(abs_max_of(s) == s[n].abs_spec());
            } else {
                assert(abs_max_of(s) == s[i].abs_spec());
            }
        }
    }
}

/// The running state of `abs_min`: nothing before the first observation, then
/// the smallest magnitude so far.
pub struct AbsMinAccumulator {
    running: Option<Observation>,
    seen: Ghost<Seq<Observation>>,
}

impl View for AbsMinAccumulator {
    /// The observations pushed so far, in order.
    type V = Seq<Observation>;

    closed spec fn view(&self) -> Seq<Observation> {
        self.seen@
    }
}

impl AbsMinAccumulator {
    pub closed spec fn wf(&self) -> bool {
        self.running == if self.seen@.len() == 0 {
            None
        } else {
            Some(abs_min_of(self.seen@))
        }
    }

    pub fn new() -> (r: AbsMinAccumulator)
        ensures
            r.wf(),
            r@ == Seq::<Observation>::empty(),
    {
        AbsMinAccumulator { running: None, seen: Ghost(Seq::empty()) }
    }

    pub fn push(&mut self, x: Observation)
        requires
            old(self).wf(),
        ensures
            final(self).wf(),
            final(self)@ == old(self)@.push(x),
    {
        let m = x.abs();
        let next = match self.running {
            None => m,
            Some(acc) => if m.lt_magnitude(&acc) || m.is_nan() {
                m
            } else {
                acc
            },
        };
        self.running = Some(next);
        self.seen = Ghost(self.seen@.push(x));
        assert(self.seen@.drop_last() =~= old(self).seen@);
    }

    pub fn result(&self) -> (r: Observation)
        requires
            self.wf(),
        ensures
            r == abs_min_of(self@),
            is_abs_extreme(self@, r, true),
    {
        proof {
            lemma_abs_min_of_is_extreme(self@);
        }
        match self.running {
            None => Observation::nan(),
            Some(acc) => acc,
        }
    }
}

/// The running state of `abs_max`: nothing before the first observation, then
/// the largest magnitude so far.
pub struct AbsMaxAccumulator {
    running: Option<Observation>,
    seen: Ghost<Seq<Observation>>,
}

impl View for AbsMaxAccumulator {
    /// The observations pushed so far, in order.
    type V = Seq<Observation>;

    closed spec fn view(&self) -> Seq<Observation> {
        self.seen@
    }
}

impl AbsMaxAccumulator {
    pub closed spec fn wf(&self) -> bool {
        self.running == if self.seen@.len() == 0 {
            None
        } else {
            Some(abs_max_of(self.seen@))
        }
    }

    pub fn new() -> (r: AbsMaxAccumulator)
        ensures
            r.wf(),
            r@ == Seq::<Observation>::empty(),
    {
        AbsMaxAccumulator { running: None, seen: Ghost(Seq::empty()) }
    }

    pub fn push(&mut self, x: Observation)
        requires
            old(self).wf(),
        ensures
            final(self).wf(),
            final(self)@ == old(self)@.push(x),
    {
        let m = x.abs();
        let next = match self.running {
            None => m,
            Some(acc) => if acc.lt_magnitude(&m) || m.is_nan() {
                m
            } else {
                acc
            },
        };
        self.running = Some(next);
        self.seen = Ghost(self.seen@.push(x));
        assert(self.seen@.drop_last() =~= old(self).seen@);
    }

    pub fn result(&self) -> (r: Observation)
        requires
            self.wf(),
        ensures
            r == abs_max_of(self@),
            is_abs_extreme(self@, r, false),
    {
        proof {
            lemma_abs_max_of_is_extreme(self@);
        }
        match self.running {
            None => Observation::nan(),
            Some(acc) => acc,
        }
    }
}

/// Statistics of a stream of observations that consume it in one pass.
pub trait IterStatistics<T>: Sized {
    spec fn abs_min_spec(&self) -> T;

    spec fn abs_max_spec(&self) -> T;

    /// The smallest absolute value; not-a-number for an empty stream or one
    /// that holds a not-a-number.
    fn abs_min(self) -> (r: T)
        ensures
            r == self.abs_min_spec(),
    ;

    /// The largest absolute value; not-a-number for an empty stream or one
    /// that holds a not-a-number.
    fn abs_max(self) -> (r: T)
        ensures
            r == self.abs_max_spec(),
    ;
}

impl<'a> IterStatistics<Observation> for &'a [Observation] {
    open spec fn abs_min_spec(&self) -> Observation {
        abs_min_of(self@)
    }

    open spec fn abs_max_spec(&self) -> Observation {
        abs_max_of(self@)
    }

    fn abs_min(self) -> (r: Observation) {
        let mut acc = AbsMinAccumulator::new();
        let mut i: usize = 0;
        while i < self.len()
            invariant
                i <= self.len(),
                acc.wf(),
                acc@ == self@.subrange(0, i as int),
            decreases self.len() - i,
        {
            acc.push(self[i]);
            i = i + 1;
            assert(acc@ =~= self@.subrange(0, i as int));
        }
        assert(self@.subrange(0, self.len() as int) =~= self@);
        acc.result()
    }

    fn abs_max(self) -> (r: Observation) {
        let mut acc = AbsMaxAccumulator::new();
        let mut i: usize = 0;
        while i < self.len()
            invariant
                i <= self.len(),
                acc.wf(),
                acc@ == self@.subrange(0, i as int),
            decreases self.len() - i,
        {
            acc.push(self[i]);
            i = i + 1;
            assert(acc@ =~= self@.subrange(0, i as int));
        }
        assert(self@.subrange(0, self.len() as int) =~= self@);
        acc.result()
    }
}

/// Over a non-empty stream without a not-a-number, the smallest magnitude is
/// at most the largest, and neither is not-a-number.
pub proof fn lemma_abs_min_le_abs_max(s: Seq<Observation>)
    requires
        s.len() > 0,
        !has_nan(s),
    ensures
        !abs_min_of(s).is_nan_spec(),
        !abs_max_of(s).is_nan_spec(),
        abs_min_of(s).bits <= abs_max_of(s).bits,
        !abs_max_of(s).magnitude_lt(abs_min_of(s)),
{
    lemma_abs_min_of_is_extreme(s);
    lemma_abs_max_of_is_extreme(s);
    assert(abs_min_of(s).bits <= s[0].abs_spec().bits);
    assert(s[0].abs_spec().bits <= abs_max_of(s).bits);
}

/// A stream that holds a not-a-number has a not-a-number as its smallest and
/// as its largest magnitude.
pub proof fn lemma_nan_propagates(s: Seq<Observation>)
    requires
        has_nan(s),
    ensures
        abs_min_of(s).is_nan_spec(),
        abs_max_of(s).is_nan_spec(),
{
    lemma_abs_min_of_is_extreme(s);
    lemma_abs_max_of_is_extreme(s);
    let i = choose|i: int| is_last_nan(s, i) && abs_min_of(s) == s[i].abs_spec();
    crate::binary64::lemma_abs_keeps_nan(s[i]);
    let k = choose|k: int| is_last_nan(s, k) && abs_max_of(s) == s[k].abs_spec();
    crate::binary64::lemma_abs_keeps_nan(s[k]);
}

/// Two streams of the same observations in the same order have bit-identical
/// extremes: the result depends on the observations alone.
pub proof fn lemma_extremes_deterministic(s: Seq<Observation>, t: Seq<Observation>)
    requires
        s.len() == t.len(),
        forall|i: int| 0 <= i < s.len() ==> #[trigger] s[i].bits == t[i].bits,
    ensures
        abs_min_of(s).bits == abs_min_of(t).bits,
        abs_max_of(s).bits == abs_max_of(t).bits,
{
    assert forall|i: int| 0 <= i < s.len() implies s[i] == t[i] by {
        assert(s[i].bits == t[i].bits);
    }
    assert(s =~= t);
}

} // verus!
