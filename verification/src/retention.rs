//! The retention decision engine.
//!
//! Given candidate snapshots, a policy and the current time, the engine
//! orders the candidates newest-first (stable in input order on ties),
//! computes a single cutoff index protecting the newest snapshots, and
//! returns everything past the cutoff as the ordered deletion set.  The
//! whole computation is modelled by [`spec_select`], and
//! [`select_for_deletion`] is proved to return exactly what it says.

use vstd::prelude::*;

use crate::report::Subvolume;
use crate::report::SubvolumeView;

verus! {

/// Mathematical image of a [`RetentionCandidate`].
#[verifier::ext_equal]
pub struct CandidateView {
    pub location: Seq<char>,
    pub subvolume: SubvolumeView,
}

/// A concrete filesystem location paired with the subvolume metadata that
/// was resolved at that location; the unit the engine selects for deletion.
#[derive(Debug, PartialEq)]
pub struct RetentionCandidate {
    pub location: String,
    pub subvolume: Subvolume,
}

impl View for RetentionCandidate {
    type V = CandidateView;

    open spec fn view(&self) -> CandidateView {
        CandidateView { location: self.location@, subvolume: self.subvolume@ }
    }
}

impl DeepView for RetentionCandidate {
    type V = CandidateView;

    open spec fn deep_view(&self) -> CandidateView {
        self.view()
    }
}

/// Both retention knobs of a policy, each optional; at least one must be
/// present, absence of both is a configuration error.
#[derive(Clone, Copy, Debug)]
pub struct RetentionPolicy {
    /// Minimum number of most-recent snapshots to always retain.
    pub keep_count: Option<usize>,
    /// Snapshots younger than this many seconds are always retained,
    /// regardless of count.
    pub keep_since_secs: Option<u64>,
}

/// Why a retention run could not produce a deletion set.
#[derive(Clone, Copy, Debug, PartialEq, Eq, Structural)]
pub enum RetentionError {
    /// Neither `keep_count` nor `keep_since_secs` was present.
    NoRetentionPolicy,
    /// The age window cannot be subtracted from the current time.
    TimeOutOfRange,
}

/// The sort key: seconds since the Unix epoch of the snapshot's creation.
pub open spec fn creation_of(c: CandidateView) -> int {
    c.subvolume.creation_time as int
}

/// Newest first; on equal keys earlier (input-order) elements come first.
pub open spec fn sorted_newest_first(s: Seq<CandidateView>) -> bool {
    forall|i: int, j: int| 0 <= i <= j < s.len() ==> creation_of(s[i]) >= creation_of(s[j])
}

/// Inserts `x` into the newest-first sequence `s`, after every element at
/// least as new as `x` — the stable insertion position.
pub open spec fn insert_newest_first(x: CandidateView, s: Seq<CandidateView>) -> Seq<CandidateView>
    decreases s.len(),
{
    if s.len() == 0 {
        seq![x]
    } else if creation_of(x) > creation_of(s[0]) {
        seq![x] + s
    } else {
        seq![s[0]] + insert_newest_first(x, s.drop_first())
    }
}

/// Stable newest-first insertion sort: later input elements are inserted
/// after earlier ones with the same key.
pub open spec fn sort_newest_first(s: Seq<CandidateView>) -> Seq<CandidateView>
    decreases s.len(),
{
    if s.len() == 0 {
        Seq::empty()
    } else {
        insert_newest_first(s.last(), sort_newest_first(s.drop_last()))
    }
}

/// How many elements of `s` were created at or after `threshold`.
pub open spec fn count_recent(s: Seq<CandidateView>, threshold: int) -> int
    decreases s.len(),
{
    if s.len() == 0 {
        0
    } else {
        (if creation_of(s[0]) >= threshold {
            1int
        } else {
            0int
        }) + count_recent(s.drop_first(), threshold)
    }
}

/// The complete mathematical model of [`select_for_deletion`]: the ordered
/// deletion set, or the error the policy or the time arithmetic produces.
pub open spec fn spec_select(
    candidates: Seq<CandidateView>,
    policy: RetentionPolicy,
    now: i64,
) -> Result<Seq<CandidateView>, RetentionError> {
    let sorted = sort_newest_first(candidates);
    match (policy.keep_count, policy.keep_since_secs) {
        (None, None) => Err(RetentionError::NoRetentionPolicy),
        (Some(c), None) => Ok(
            if sorted.len() < c {
                Seq::empty()
            } else {
                sorted.skip(c as int)
            },
        ),
        (kc, Some(d)) => {
            let c: int = if kc is Some {
                kc.unwrap() as int
            } else {
                0
            };
            if kc is Some && candidates.len() <= c {
                Ok(Seq::empty())
            } else if now - d < i64::MIN {
                Err(RetentionError::TimeOutOfRange)
            } else {
                let p = count_recent(sorted, now - d);
                let k = if p > c {
                    p
                } else {
                    c
                };
                Ok(
                    if sorted.len() < k {
                        Seq::empty()
                    } else {
                        sorted.skip(k)
                    },
                )
            }
        },
    }
}

pub proof fn lemma_insert_newest_first_len(x: CandidateView, s: Seq<CandidateView>)
    ensures
        insert_newest_first(x, s).len() == s.len() + 1,
    decreases s.len(),
{
    if s.len() != 0 && !(creation_of(x) > creation_of(s[0])) {
        lemma_insert_newest_first_len(x, s.drop_first());
    }
}

pub proof fn lemma_sort_newest_first_len(s: Seq<CandidateView>)
    ensures
        sort_newest_first(s).len() == s.len(),
    decreases s.len(),
{
    if s.len() != 0 {
        lemma_sort_newest_first_len(s.drop_last());
        lemma_insert_newest_first_len(s.last(), sort_newest_first(s.drop_last()));
    }
}

/// In a sorted sequence the stable insertion position is the partition
/// point: insertion there is what [`insert_newest_first`] does, and the
/// result stays sorted.
pub proof fn lemma_insert_at_point(x: CandidateView, s: Seq<CandidateView>, j: int)
    requires
        sorted_newest_first(s),
        0 <= j <= s.len(),
        forall|k: int| 0 <= k < j ==> creation_of(s[k]) >= creation_of(x),
        j < s.len() ==> creation_of(s[j]) < creation_of(x),
    ensures
        insert_newest_first(x, s) == s.insert(j, x),
        sorted_newest_first(s.insert(j, x)),
    decreases j,
{
    if j == 0 {
        if s.len() == 0 {
            assert(insert_newest_first(x, s) =~= s.insert(0, x));
        } else {
            assert(creation_of(x) > creation_of(s[0]));
            assert(insert_newest_first(x, s) == seq![x] + s);
            assert(seq![x] + s =~= s.insert(0, x));
        }
    } else {
        assert(creation_of(s[0]) >= creation_of(x));
        let t = s.drop_first();
        assert(sorted_newest_first(t)) by {
            assert forall|a: int, b: int| 0 <= a <= b < t.len() implies creation_of(t[a])
                >= creation_of(t[b]) by {
                assert(t[a] == s[a + 1]);
                assert(t[b] == s[b + 1]);
            }
        }
        assert forall|k: int| 0 <= k < j - 1 implies creation_of(t[k]) >= creation_of(x) by {
            assert(t[k] == s[k + 1]);
        }
        if j - 1 < t.len() {
            assert(t[j - 1] == s[j]);
        }
        lemma_insert_at_point(x, t, j - 1);
        assert(insert_newest_first(x, s) == seq![s[0]] + t.insert(j - 1, x));
        assert(seq![s[0]] + t.insert(j - 1, x) =~= s.insert(j, x));
    }
    assert(sorted_newest_first(s.insert(j, x))) by {
        let s2 = s.insert(j, x);
        assert forall|a: int, b: int| 0 <= a <= b < s2.len() implies creation_of(s2[a])
            >= creation_of(s2[b]) by {
            if a < j {
                assert(s2[a] == s[a]);
            } else if a == j {
                assert(s2[a] == x);
            } else {
                assert(s2[a] == s[a - 1]);
            }
            if b < j {
                assert(s2[b] == s[b]);
            } else if b == j {
                assert(s2[b] == x);
            } else {
                assert(s2[b] == s[b - 1]);
            }
        }
    }
}

/// Appending an element adds its own contribution to the count.
pub proof fn lemma_count_recent_push(s: Seq<CandidateView>, x: CandidateView, threshold: int)
    ensures
        count_recent(s.push(x), threshold) == count_recent(s, threshold) + (
        if creation_of(x) >= threshold {
            1int
        } else {
            0int
        }),
    decreases s.len(),
{
    let contribution: int = if creation_of(x) >= threshold {
        1
    } else {
        0
    };
    if s.len() == 0 {
        assert(s.push(x)[0] == x);
        assert(s.push(x).len() == 1);
        assert(s.push(x).drop_first() =~= Seq::<CandidateView>::empty());
        assert(count_recent(s.push(x).drop_first(), threshold) == 0);
        assert(count_recent(s.push(x), threshold) == contribution);
    } else {
        assert(s.push(x)[0] == s[0]);
        assert(s.push(x).drop_first() =~= s.drop_first().push(x));
        lemma_count_recent_push(s.drop_first(), x, threshold);
        assert(count_recent(s.push(x), threshold) == (if creation_of(s[0]) >= threshold {
            1int
        } else {
            0int
        }) + count_recent(s.drop_first(), threshold) + contribution);
    }
}

/// Moves the elements at positions `at` and beyond out of `v`, in order;
/// empty if `v` is shorter than `at`.
fn split_tail(v: Vec<RetentionCandidate>, at: usize) -> (r: Vec<RetentionCandidate>)
    ensures
        r.deep_view() == if v.deep_view().len() < at {
            Seq::<CandidateView>::empty()
        } else {
            v.deep_view().skip(at as int)
        },
{
    let mut rest = v;
    let ghost orig = rest.deep_view();
    let mut out: Vec<RetentionCandidate> = Vec::new();
    if rest.len() < at {
        proof {
            assert(out.deep_view() =~= Seq::<CandidateView>::empty());
        }
        return out;
    }
    while rest.len() > at
        invariant
            at <= rest.len(),
            orig.len() >= at,
            out.deep_view() + rest.deep_view().skip(at as int) =~= orig.skip(at as int),
        decreases rest.len(),
    {
        let ghost rest_pre = rest.deep_view();
        let ghost out_pre = out.deep_view();
        let x = rest.remove(at);
        out.push(x);
        proof {
            assert(rest.deep_view() =~= rest_pre.remove(at as int));
            assert(out.deep_view() =~= out_pre.push(rest_pre[at as int]));
            assert(out.deep_view() + rest.deep_view().skip(at as int) =~= orig.skip(at as int));
        }
    }
    proof {
        assert(rest.deep_view().skip(at as int) =~= Seq::<CandidateView>::empty());
        assert(out.deep_view() =~= orig.skip(at as int));
    }
    out
}

/// Orders the candidates newest-first, stably, by repeated insertion at the
/// partition point.
fn sort_candidates(candidates: Vec<RetentionCandidate>) -> (r: Vec<RetentionCandidate>)
    ensures
        r.deep_view() == sort_newest_first(candidates.deep_view()),
        sorted_newest_first(r.deep_view()),
{
    let mut pending = candidates;
    let ghost orig = pending.deep_view();
    let mut done: Vec<RetentionCandidate> = Vec::new();
    proof {
        assert(orig.take(0) =~= Seq::<CandidateView>::empty());
        assert(done.deep_view() =~= sort_newest_first(orig.take(0)));
    }
    while pending.len() > 0
        invariant
            pending.deep_view() =~= orig.skip(orig.len() - pending.len()),
            done.deep_view() == sort_newest_first(orig.take(orig.len() - pending.len())),
            sorted_newest_first(done.deep_view()),
            pending.len() <= orig.len(),
        decreases pending.len(),
    {
        let ghost m = orig.len() - pending.len();
        let ghost pending_pre = pending.deep_view();
        let ghost done_pre = done.deep_view();
        let x = pending.remove(0);
        proof {
            assert(x.deep_view() == pending_pre[0]);
            assert(pending_pre[0] == orig[m]);
            assert(pending.deep_view() =~= pending_pre.remove(0));
            assert(pending.deep_view() =~= orig.skip(orig.len() - pending.len()));
        }
        let mut j: usize = 0;
        while j < done.len() && done[j].subvolume.creation_time >= x.subvolume.creation_time
            invariant
                0 <= j <= done.len(),
                done.deep_view() == done_pre,
                forall|k: int|
                    0 <= k < j ==> creation_of(done.deep_view()[k]) >= creation_of(x.deep_view()),
            decreases done.len() - j,
        {
            j = j + 1;
        }
        proof {
            lemma_insert_at_point(x.deep_view(), done_pre, j as int);
        }
        done.insert(j, x);
        proof {
            assert(done.deep_view() =~= done_pre.insert(j as int, x.deep_view()));
            assert(orig.take(m + 1).drop_last() =~= orig.take(m));
            assert(orig.take(m + 1).last() == orig[m]);
            assert(done.deep_view() == insert_newest_first(orig[m], sort_newest_first(orig.take(m))));
            assert(done.deep_view() == sort_newest_first(orig.take(m + 1)));
        }
    }
    proof {
        assert(orig.take(orig.len() as int) =~= orig);
    }
    done
}

/// Computes the deletion set: the candidates, ordered newest-first, past
/// the cutoff index the policy asks for — exactly [`spec_select`] of the
/// inputs.
pub fn select_for_deletion(
    candidates: Vec<RetentionCandidate>,
    policy: &RetentionPolicy,
    now: i64,
) -> (r: Result<Vec<RetentionCandidate>, RetentionError>)
    ensures
        match spec_select(candidates.deep_view(), *policy, now) {
            Ok(del) => r matches Ok(v) && v.deep_view() == del,
            Err(e) => r matches Err(e2) && e2 == e,
        },
{
    let ghost cands = candidates.deep_view();
    let total = candidates.len();
    let sorted = sort_candidates(candidates);
    proof {
        lemma_sort_newest_first_len(cands);
    }
    match (policy.keep_count, policy.keep_since_secs) {
        (None, None) => Err(RetentionError::NoRetentionPolicy),
        (Some(c), None) => Ok(split_tail(sorted, c)),
        (kc, Some(d)) => {
            let climit: usize = match kc {
                Some(c) => c,
                None => 0,
            };
            if kc.is_some() && total <= climit {
                let empty: Vec<RetentionCandidate> = Vec::new();
                proof {
                    assert(empty.deep_view() =~= Seq::<CandidateView>::empty());
                }
                return Ok(empty);
            }
            let wide: i128 = now as i128 - d as i128;
            if wide < i64::MIN as i128 {
                return Err(RetentionError::TimeOutOfRange);
            }
            let delete_before: i64 = wide as i64;
            let mut p: usize = 0;
            let mut idx: usize = 0;
            while idx < sorted.len()
                invariant
                    0 <= idx <= sorted.deep_view().len(),
                    p == count_recent(sorted.deep_view().take(idx as int), delete_before as int),
                    p <= idx,
                decreases sorted.len() - idx,
            {
                let ghost seen = sorted.deep_view().take(idx as int);
                if sorted[idx].subvolume.creation_time >= delete_before {
                    p = p + 1;
                }
                proof {
                    lemma_count_recent_push(seen, sorted.deep_view()[idx as int], delete_before as int);
                    assert(sorted.deep_view().take(idx + 1) =~= seen.push(
                        sorted.deep_view()[idx as int],
                    ));
                }
                idx = idx + 1;
            }
            proof {
                assert(sorted.deep_view().take(sorted.deep_view().len() as int) =~= sorted.deep_view());
            }
            let k = if p > climit {
                p
            } else {
                climit
            };
            Ok(split_tail(sorted, k))
        },
    }
}

/// Law: with neither knob present the engine fails with the configuration
/// error, for every candidate list — empty or not — and every time.
pub proof fn lemma_no_policy_is_error(candidates: Seq<CandidateView>, now: i64)
    ensures
        spec_select(candidates, RetentionPolicy { keep_count: None, keep_since_secs: None }, now)
            == Err::<Seq<CandidateView>, RetentionError>(RetentionError::NoRetentionPolicy),
{
}

/// Law: the selection is idempotent.  [`select_for_deletion`]'s contract
/// pins its result to [`spec_select`], a pure function of the inputs, so two
/// runs on the same unchanged input yield the same deletion set.
pub proof fn lemma_selection_deterministic(
    c1: Seq<CandidateView>,
    c2: Seq<CandidateView>,
    policy: RetentionPolicy,
    now: i64,
)
    requires
        c1 == c2,
    ensures
        spec_select(c1, policy, now) == spec_select(c2, policy, now),
{
}

/// Law: a candidate count exactly equal to `keep_count` yields an empty
/// deletion set, whatever the age knob and the time.
pub proof fn lemma_count_exactly_met_is_empty(
    candidates: Seq<CandidateView>,
    policy: RetentionPolicy,
    now: i64,
)
    requires
        policy.keep_count matches Some(c) && candidates.len() == c,
    ensures
        spec_select(candidates, policy, now) == Ok::<Seq<CandidateView>, RetentionError>(
            Seq::empty(),
        ),
{
    let sorted = sort_newest_first(candidates);
    lemma_sort_newest_first_len(candidates);
    if policy.keep_since_secs is None {
        let c = policy.keep_count.unwrap();
        assert(sorted.skip(c as int) =~= Seq::<CandidateView>::empty());
    }
}

} // verus!
