//! The user profile model: identity fields, two fixed-size weight vectors
//! (an emotional-state distribution and a developmental-stage distribution),
//! the derived "hybrid" score of each vector, and append-only histories of
//! superseded vectors.
//!
//! Weights are fixed-point values: a weight is an `i64` holding the real
//! weight scaled by any fixed factor the caller chooses.  The hybrid score
//! `sum(i * v[i]) / sum(v[i])` is invariant under uniform scaling, so it is
//! kept exactly, as a rational number (a numerator/denominator pair), rather
//! than approximately as a float.

use vstd::prelude::*;

verus! {

/// Number of components of an emotional-state vector.
pub const EMOTION_DIM: usize = 21;

/// Number of components of a developmental-stage (spiral) vector.
pub const SPIRAL_DIM: usize = 8;

/// `sum(i * s[i])` over all indices of `s`: the index-weighted sum.
pub open spec fn weighted_sum(s: Seq<i64>) -> int
    decreases s.len(),
{
    if s.len() == 0 {
        0
    } else {
        weighted_sum(s.drop_last()) + (s.len() - 1) * s.last()
    }
}

/// `sum(s[i])` over all indices of `s`.
pub open spec fn total(s: Seq<i64>) -> int
    decreases s.len(),
{
    if s.len() == 0 {
        0
    } else {
        total(s.drop_last()) + s.last()
    }
}

/// The hybrid score of a weight vector, as an exact rational:
/// numerator `sum(i * v[i])` and denominator `sum(v[i])`.  The all-zero
/// denominator case is by policy the value zero, stored as `0 / 0`.
#[derive(Clone, Copy, PartialEq, Eq, Structural, Debug)]
pub struct Hybrid {
    pub num: i128,
    pub den: i128,
}

/// What it means for `h` to be the hybrid score of the vector `s`.
pub open spec fn hybrid_ok(h: Hybrid, s: Seq<i64>) -> bool {
    if total(s) == 0 {
        h.num == 0 && h.den == 0
    } else {
        h.num == weighted_sum(s) && h.den == total(s)
    }
}

/// The total of `n` weights lies within `n * 2^63`, since the magnitude
/// of a single weight does.
pub proof fn lemma_total_bound(s: Seq<i64>)
    ensures
        -(s.len() * 0x8000_0000_0000_0000) <= total(s) <= s.len() * 0x8000_0000_0000_0000,
    decreases s.len(),
{
    if s.len() > 0 {
        lemma_total_bound(s.drop_last());
    }
}

/// The index-weighted sum of `n` weights lies within `n * n * 2^63`.
pub proof fn lemma_weighted_sum_bound(s: Seq<i64>)
    ensures
        -(s.len() * s.len() * 0x8000_0000_0000_0000) <= weighted_sum(s)
            <= s.len() * s.len() * 0x8000_0000_0000_0000,
    decreases s.len(),
{
    if s.len() > 0 {
        lemma_weighted_sum_bound(s.drop_last());
        let n = s.len() as int;
        let b: int = 0x8000_0000_0000_0000;
        assert(-((n - 1) * (n - 1) * b) <= weighted_sum(s.drop_last()) <= (n - 1) * (n - 1) * b);
        assert(-b <= s.last() <= b);
        assert((n - 1) * (n - 1) * b + (n - 1) * b <= n * n * b) by (nonlinear_arith)
            requires n >= 1 && b >= 0;
        assert(-(n * n * b) <= -((n - 1) * (n - 1) * b) - (n - 1) * b) by (nonlinear_arith)
            requires n >= 1 && b >= 0;
        assert(-((n - 1) * b) <= (n - 1) * s.last() <= (n - 1) * b) by (nonlinear_arith)
            requires n >= 1 && -b <= s.last() <= b;
    }
}

/// Computes the hybrid score of a weight vector: the index-weighted average
/// `sum(i * v[i]) / sum(v[i])`, kept as an exact rational, with the
/// zero-denominator case defined to be zero.
pub fn calculate_hybrid(values: &Vec<i64>) -> (h: Hybrid)
    requires
        values@.len() <= 0x7fff_ffff,
    ensures
        hybrid_ok(h, values@),
{
    let mut weighted: i128 = 0;
    let mut tot: i128 = 0;
    let n = values.len();
    let mut i: usize = 0;
    while i < n
        invariant
            n == values@.len() <= 0x7fff_ffff,
            0 <= i <= n,
            weighted == weighted_sum(values@.take(i as int)),
            tot == total(values@.take(i as int)),
        decreases n - i,
    {
        proof {
            lemma_weighted_sum_bound(values@.take(i as int));
            lemma_total_bound(values@.take(i as int));
            assert(values@.take(i + 1).drop_last() =~= values@.take(i as int));
            assert(values@.take(i + 1).last() == values@[i as int]);
            let ii = i as int;
            let v = values@[ii] as int;
            let b: int = 0x8000_0000_0000_0000;
            assert(-(ii * b) <= ii * v <= ii * b) by (nonlinear_arith)
                requires 0 <= ii && -b <= v <= b;
            assert(ii * ii * b + ii * b <= 0x7fff_ffff_ffff_ffff_ffff_ffff_ffff_ffff)
                by (nonlinear_arith)
                requires 0 <= ii <= 0x7fff_ffff && b == 0x8000_0000_0000_0000;
        }
        weighted = weighted + (i as i128) * (values[i] as i128);
        tot = tot + (values[i] as i128);
        i = i + 1;
    }
    proof {
        assert(values@.take(n as int) =~= values@);
    }
    if tot == 0 {
        Hybrid { num: 0, den: 0 }
    } else {
        Hybrid { num: weighted, den: tot }
    }
}

pub proof fn lemma_total_nonneg(s: Seq<i64>)
    requires
        forall|i: int| 0 <= i < s.len() ==> s[i] >= 0,
    ensures
        total(s) >= 0,
    decreases s.len(),
{
    if s.len() > 0 {
        lemma_total_nonneg(s.drop_last());
    }
}

pub proof fn lemma_total_positive(s: Seq<i64>, j: int)
    requires
        forall|i: int| 0 <= i < s.len() ==> s[i] >= 0,
        0 <= j < s.len(),
        s[j] > 0,
    ensures
        total(s) > 0,
    decreases s.len(),
{
    if j == s.len() - 1 {
        lemma_total_nonneg(s.drop_last());
    } else {
        lemma_total_positive(s.drop_last(), j);
    }
}

pub proof fn lemma_total_zero(s: Seq<i64>)
    requires
        forall|i: int| 0 <= i < s.len() ==> s[i] == 0,
    ensures
        total(s) == 0,
    decreases s.len(),
{
    if s.len() > 0 {
        lemma_total_zero(s.drop_last());
    }
}

/// For every non-negative weight vector with at least one positive
/// component, the hybrid score is exactly the index-weighted average
/// `sum(i * v[i]) / sum(v[i])`: its denominator is the (positive) total
/// of the weights and its numerator the index-weighted sum.
pub proof fn lemma_hybrid_exact(h: Hybrid, s: Seq<i64>)
    requires
        hybrid_ok(h, s),
        forall|i: int| 0 <= i < s.len() ==> s[i] >= 0,
        exists|i: int| 0 <= i < s.len() && s[i] > 0,
    ensures
        h.den == total(s),
        h.den > 0,
        h.num == weighted_sum(s),
{
    let j = choose|i: int| 0 <= i < s.len() && s[i] > 0;
    lemma_total_positive(s, j);
}

/// The hybrid score of an all-zero vector is zero.
pub proof fn lemma_hybrid_zero(h: Hybrid, s: Seq<i64>)
    requires
        hybrid_ok(h, s),
        forall|i: int| 0 <= i < s.len() ==> s[i] == 0,
    ensures
        h.num == 0,
        h.den == 0,
{
    lemma_total_zero(s);
}

/// What the update operations promise of a history: it grows by exactly
/// one entry per call, and the entry appended last is the vector that
/// was current immediately before that call.  So after `k` updates the
/// history holds `k` snapshots in chronological order.
pub proof fn lemma_history_append(before: Seq<Seq<i64>>, after: Seq<Seq<i64>>, prev: Seq<i64>)
    requires
        after == before.push(prev),
    ensures
        after.len() == before.len() + 1,
        after.last() == prev,
        forall|i: int| 0 <= i < before.len() ==> after[i] == before[i],
{
}

/// Every snapshot in a history has the given dimension.
pub open spec fn hist_wf(h: Seq<Seq<i64>>, dim: int) -> bool {
    forall|i: int| 0 <= i < h.len() ==> (#[trigger] h[i]).len() == dim
}

fn copy_weights(v: &Vec<i64>) -> (r: Vec<i64>)
    ensures
        r@ == v@,
{
    let mut r: Vec<i64> = Vec::new();
    let mut i: usize = 0;
    while i < v.len()
        invariant
            0 <= i <= v@.len(),
            r@ == v@.take(i as int),
        decreases v@.len() - i,
    {
        r.push(v[i]);
        proof {
            assert(v@.take(i + 1) =~= v@.take(i as int).push(v@[i as int]));
        }
        i = i + 1;
    }
    proof {
        assert(v@.take(v@.len() as int) =~= v@);
    }
    r
}

/// One user's profile: immutable identity fields, the two current weight
/// vectors with their derived hybrid scores, and the append-only histories
/// of superseded vectors (insertion order is chronological order).
#[derive(Clone, Debug)]
pub struct User {
    pub id: String,
    pub email: String,
    pub name: String,
    pub telegram: String,
    pub instegram: String,
    pub x_account: String,
    pub current_emotion_hybrid: Hybrid,
    pub current_spiral_hybrid: Hybrid,
    pub current_emotion: Vec<i64>,
    pub current_spiral: Vec<i64>,
    pub emotion_history: Vec<Vec<i64>>,
    pub spiral_history: Vec<Vec<i64>>,
}

impl User {
    /// The profile invariant: the vectors have their fixed dimensions, so
    /// does every history snapshot, and each stored hybrid score is the
    /// hybrid score of the corresponding current vector.
    pub open spec fn wf(self) -> bool {
        &&& self.current_emotion@.len() == EMOTION_DIM
        &&& self.current_spiral@.len() == SPIRAL_DIM
        &&& hist_wf(self.emotion_history.deep_view(), EMOTION_DIM as int)
        &&& hist_wf(self.spiral_history.deep_view(), SPIRAL_DIM as int)
        &&& hybrid_ok(self.current_emotion_hybrid, self.current_emotion@)
        &&& hybrid_ok(self.current_spiral_hybrid, self.current_spiral@)
    }

    /// Constructs a profile with empty histories; both hybrid scores are
    /// computed from the initial vectors at once, so the profile is never
    /// seen with a score that does not match its vector.
    pub fn new(
        id: String,
        email: String,
        name: String,
        telegram: String,
        instegram: String,
        x_account: String,
        current_emotion: Vec<i64>,
        current_spiral: Vec<i64>,
    ) -> (u: User)
        requires
            current_emotion@.len() == EMOTION_DIM,
            current_spiral@.len() == SPIRAL_DIM,
        ensures
            u.wf(),
            u.id == id,
            u.email == email,
            u.name == name,
            u.telegram == telegram,
            u.instegram == instegram,
            u.x_account == x_account,
            u.current_emotion == current_emotion,
            u.current_spiral == current_spiral,
            hybrid_ok(u.current_emotion_hybrid, current_emotion@),
            hybrid_ok(u.current_spiral_hybrid, current_spiral@),
            u.emotion_history@.len() == 0,
            u.spiral_history@.len() == 0,
    {
        let current_emotion_hybrid = calculate_hybrid(&current_emotion);
        let current_spiral_hybrid = calculate_hybrid(&current_spiral);
        User {
            id,
            email,
            name,
            telegram,
            instegram,
            x_account,
            current_emotion_hybrid,
            current_spiral_hybrid,
            current_emotion,
            current_spiral,
            emotion_history: Vec::new(),
            spiral_history: Vec::new(),
        }
    }

    /// Appends the superseded emotion vector to the history, installs the
    /// new vector and recomputes the emotion hybrid score from it.  The
    /// history grows by exactly one entry per call, so after `k` calls it
    /// holds `k` snapshots, the last being the vector that was current
    /// just before the latest call.
    pub fn update_emotion(&mut self, new_emotion: Vec<i64>)
        requires
            old(self).wf(),
            new_emotion@.len() == EMOTION_DIM,
        ensures
            final(self).wf(),
            final(self).emotion_history.deep_view() == old(self).emotion_history.deep_view().push(
                old(self).current_emotion@,
            ),
            final(self).current_emotion == new_emotion,
            hybrid_ok(final(self).current_emotion_hybrid, new_emotion@),
            final(self).id == old(self).id,
            final(self).email == old(self).email,
            final(self).name == old(self).name,
            final(self).telegram == old(self).telegram,
            final(self).instegram == old(self).instegram,
            final(self).x_account == old(self).x_account,
            final(self).current_spiral == old(self).current_spiral,
            final(self).current_spiral_hybrid == old(self).current_spiral_hybrid,
            final(self).spiral_history == old(self).spiral_history,
    {
        let prev = copy_weights(&self.current_emotion);
        self.emotion_history.push(prev);
        self.current_emotion = new_emotion;
        self.current_emotion_hybrid = calculate_hybrid(&self.current_emotion);
        proof {
            assert(self.emotion_history.deep_view() =~~= old(
                self,
            ).emotion_history.deep_view().push(old(self).current_emotion@));
        }
    }

    /// The symmetric operation on the spiral vector, history and score.
    pub fn update_spiral(&mut self, new_spiral: Vec<i64>)
        requires
            old(self).wf(),
            new_spiral@.len() == SPIRAL_DIM,
        ensures
            final(self).wf(),
            final(self).spiral_history.deep_view() == old(self).spiral_history.deep_view().push(
                old(self).current_spiral@,
            ),
            final(self).current_spiral == new_spiral,
            hybrid_ok(final(self).current_spiral_hybrid, new_spiral@),
            final(self).id == old(self).id,
            final(self).email == old(self).email,
            final(self).name == old(self).name,
            final(self).telegram == old(self).telegram,
            final(self).instegram == old(self).instegram,
            final(self).x_account == old(self).x_account,
            final(self).current_emotion == old(self).current_emotion,
            final(self).current_emotion_hybrid == old(self).current_emotion_hybrid,
            final(self).emotion_history == old(self).emotion_history,
    {
        let prev = copy_weights(&self.current_spiral);
        self.spiral_history.push(prev);
        self.current_spiral = new_spiral;
        self.current_spiral_hybrid = calculate_hybrid(&self.current_spiral);
        proof {
            assert(self.spiral_history.deep_view() =~~= old(
                self,
            ).spiral_history.deep_view().push(old(self).current_spiral@));
        }
    }
}

} // verus!
