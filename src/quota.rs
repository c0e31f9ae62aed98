use vstd::prelude::*;

verus! {

/// Sum of a sequence of quota samples, as a mathematical integer.
pub open spec fn seq_sum(s: Seq<i32>) -> int
    decreases s.len(),
{
    if s.len() == 0 {
        0
    } else {
        s[0] as int + seq_sum(s.drop_first())
    }
}

/// The sum of non-negative samples is at most zero exactly when every sample is zero.
proof fn lemma_sum_nonpositive_iff_all_zero(s: Seq<i32>)
    requires
        forall|i: int| 0 <= i < s.len() ==> s[i] >= 0,
    ensures
        seq_sum(s) >= 0,
        (seq_sum(s) <= 0) == (forall|i: int| 0 <= i < s.len() ==> s[i] == 0),
    decreases s.len(),
{
    if s.len() > 0 {
        let t = s.drop_first();
        assert forall|i: int| 0 <= i < t.len() implies t[i] >= 0 by {
            assert(t[i] == s[i + 1]);
        }
        lemma_sum_nonpositive_iff_all_zero(t);
        if seq_sum(s) <= 0 {
            assert forall|i: int| 0 <= i < s.len() implies s[i] == 0 by {
                if i > 0 {
                    assert(s[i] == t[i - 1]);
                }
            }
        }
        if forall|i: int| 0 <= i < s.len() ==> s[i] == 0 {
            assert forall|i: int| 0 <= i < t.len() implies t[i] == 0 by {
                assert(t[i] == s[i + 1]);
            }
            assert(s[0] == 0);
        }
    }
}

/// The parameters of a quota as announced to a client.
#[derive(Clone, Copy, Debug, PartialEq, Eq)]
pub struct QuotaParams {
    pub allowance: i32,
    pub max: i32,
    pub max_hist_len: usize,
}

/// A token bucket with a sliding history of recent point levels.
#[derive(Clone, Debug)]
pub struct NoteQuota {
    pub points: i32,
    pub allowance: i32,
    pub max: i32,
    pub max_hist_len: usize,
    pub history: Vec<i32>,
}

pub const DEFAULT_MAX_POINTS: i32 = 24000;

pub const DEFAULT_ALLOWANCE: i32 = 8000;

pub const DEFAULT_HISTORY_LEN: usize = 3;

impl NoteQuota {
    /// Points in `[0, max]`, a non-negative allowance, and a history of exactly
    /// `max_hist_len` non-negative samples.
    pub open spec fn wf(&self) -> bool {
        &&& 0 <= self.points <= self.max
        &&& 0 <= self.allowance
        &&& self.history@.len() == self.max_hist_len
        &&& forall|i: int| 0 <= i < self.history@.len() ==> self.history@[i] >= 0
    }

    /// The state of a quota as `new` makes it.
    pub open spec fn is_initial(&self) -> bool {
        &&& self.points == DEFAULT_MAX_POINTS
        &&& self.allowance == DEFAULT_ALLOWANCE
        &&& self.max == DEFAULT_MAX_POINTS
        &&& self.max_hist_len == DEFAULT_HISTORY_LEN
        &&& self.history@ == Seq::new(DEFAULT_HISTORY_LEN as nat, |j: int| DEFAULT_MAX_POINTS)
    }

    /// What spending `needed` points costs: each note costs `allowance` once the
    /// whole history has been drained to zero.
    pub open spec fn cost(&self, needed: int) -> int {
        if seq_sum(self.history@) <= 0 {
            needed * self.allowance
        } else {
            needed
        }
    }

    /// The point level after one refill step.
    pub open spec fn refilled(&self) -> int {
        if self.points + self.allowance > self.max {
            self.max as int
        } else {
            self.points + self.allowance
        }
    }

    pub fn new() -> (r: NoteQuota)
        ensures
            r.wf(),
            r.points == DEFAULT_MAX_POINTS,
            r.allowance == DEFAULT_ALLOWANCE,
            r.max == DEFAULT_MAX_POINTS,
            r.max_hist_len == DEFAULT_HISTORY_LEN,
            r.history@ == Seq::new(DEFAULT_HISTORY_LEN as nat, |j: int| DEFAULT_MAX_POINTS),
    {
        let max: i32 = DEFAULT_MAX_POINTS;
        let max_hist_len: usize = DEFAULT_HISTORY_LEN;
        let mut history: Vec<i32> = Vec::new();
        let mut i: usize = 0;
        while i < max_hist_len
            invariant
                i <= max_hist_len,
                max_hist_len == DEFAULT_HISTORY_LEN,
                history@ == Seq::new(i as nat, |j: int| max),
            decreases max_hist_len - i,
        {
            history.push(max);
            i = i + 1;
            assert(history@ =~= Seq::new(i as nat, |j: int| max));
        }
        NoteQuota { points: max, allowance: DEFAULT_ALLOWANCE, max, max_hist_len, history }
    }

    /// Records the current level at the front of the history, keeps the newest
    /// `max_hist_len` samples, and refills by `allowance` up to `max`.
    pub fn tick(&mut self)
        requires
            old(self).wf(),
        ensures
            final(self).wf(),
            final(self).history@ == (seq![old(self).points] + old(self).history@).take(
                old(self).max_hist_len as int,
            ),
            final(self).points == old(self).refilled(),
            final(self).allowance == old(self).allowance,
            final(self).max == old(self).max,
            final(self).max_hist_len == old(self).max_hist_len,
    {
        let ghost h0 = self.history@;
        self.history.insert(0, self.points);
        self.history.truncate(self.max_hist_len);
        assert(self.history@ =~= (seq![old(self).points] + h0).take(self.max_hist_len as int));
        if self.points < self.max {
            if self.points > self.max - self.allowance {
                self.points = self.max;
            } else {
                self.points = self.points + self.allowance;
            }
        }
    }

    /// Takes `cost(needed)` points if that many are available.
    pub fn spend(&mut self, needed: i32) -> (r: bool)
        requires
            old(self).wf(),
            needed >= 0,
        ensures
            final(self).wf(),
            r == (old(self).points >= old(self).cost(needed as int)),
            r ==> final(self).points == old(self).points - old(self).cost(needed as int),
            !r ==> final(self).points == old(self).points,
            final(self).history@ == old(self).history@,
            final(self).allowance == old(self).allowance,
            final(self).max == old(self).max,
            final(self).max_hist_len == old(self).max_hist_len,
    {
        proof {
            lemma_sum_nonpositive_iff_all_zero(self.history@);
        }
        let mut drained = true;
        let mut i: usize = 0;
        while i < self.history.len()
            invariant
                i <= self.history@.len(),
                drained == (forall|j: int| 0 <= j < i ==> self.history@[j] == 0),
            decreases self.history@.len() - i,
        {
            if self.history[i] != 0 {
                drained = false;
            }
            i = i + 1;
        }
        let num_needed: i64 = if drained {
            assert((needed as int) * (self.allowance as int) <= 2147483647 * 2147483647)
                by (nonlinear_arith)
                requires
                    0 <= needed <= 2147483647,
                    0 <= self.allowance <= 2147483647,
            ;
            (needed as i64) * (self.allowance as i64)
        } else {
            needed as i64
        };
        if (self.points as i64) < num_needed {
            return false;
        }
        self.points = (self.points as i64 - num_needed) as i32;
        true
    }

    /// Equal fields, with the same history.
    pub open spec fn same_as(&self, o: NoteQuota) -> bool {
        &&& self.points == o.points
        &&& self.allowance == o.allowance
        &&& self.max == o.max
        &&& self.max_hist_len == o.max_hist_len
        &&& self.history@ == o.history@
    }

    pub fn duplicate(&self) -> (r: NoteQuota)
        ensures
            r.same_as(*self),
    {
        let mut history: Vec<i32> = Vec::new();
        let mut i: usize = 0;
        while i < self.history.len()
            invariant
                i <= self.history@.len(),
                history@ == self.history@.take(i as int),
            decreases self.history@.len() - i,
        {
            history.push(self.history[i]);
            i = i + 1;
            assert(history@ =~= self.history@.take(i as int));
        }
        assert(self.history@.take(self.history@.len() as int) =~= self.history@);
        let r = NoteQuota {
            points: self.points,
            allowance: self.allowance,
            max: self.max,
            max_hist_len: self.max_hist_len,
            history,
        };
        assert(r.history@ == self.history@);
        r
    }

    pub fn get_params(&self) -> (r: QuotaParams)
        ensures
            r.allowance == self.allowance,
            r.max == self.max,
            r.max_hist_len == self.max_hist_len,
    {
        QuotaParams { allowance: self.allowance, max: self.max, max_hist_len: self.max_hist_len }
    }
}

} // verus!
