//! Write-ahead-log replay: ordering the log chunks of a snapshot before
//! they are applied, and the truncation policy when a corrupt chunk is met.
//!
//! Replay first plans: every listed chunk name must carry a sequence
//! number (a name that does not is a hard error), and the chunks are
//! sorted ascending by that number.  Replay then applies chunks in plan
//! order; the first chunk whose content fails to decode stops the replay
//! at that point — the chunks already applied stand, later chunks are
//! never applied, and the replay as a whole still counts as successful,
//! under the assumption that corruption only occurs at the tail of an
//! in-progress append.

use vstd::prelude::*;

verus! {

use vstd::multiset::Multiset;
use crate::naming::spec_log_seq;
use crate::naming::log_seq_of_name;

/// A chunk name that carries no sequence number aborts replay entirely:
/// unlike corrupt content, a misnamed chunk means the namespace itself is
/// not what this protocol writes.
#[derive(Debug)]
pub enum ReplayError {
    NamingViolation { path: String },
}

/// One planned chunk: its remote name and its sequence number.
pub open spec fn chunk_pair(n: String) -> (String, u64) {
    (n, spec_log_seq(n@)->Some_0)
}

/// The planned chunks of a listing, in listing order.
pub open spec fn chunk_pairs(names: Seq<String>) -> Seq<(String, u64)> {
    names.map_values(|n: String| chunk_pair(n))
}

/// Every listed name carries a sequence number.
pub open spec fn all_names_parse(names: Seq<String>) -> bool {
    forall|i: int| 0 <= i < names.len() ==> spec_log_seq((#[trigger] names[i])@) is Some
}

/// Non-decreasing by sequence number.
pub open spec fn sorted_by_seq(v: Seq<(String, u64)>) -> bool {
    forall|i: int, j: int| 0 <= i <= j < v.len() ==> (#[trigger] v[i]).1 <= (#[trigger] v[j]).1
}

/// No two chunks share a sequence number.
pub open spec fn distinct_seqs(v: Seq<(String, u64)>) -> bool {
    forall|i: int, j: int| 0 <= i < j < v.len() ==> (#[trigger] v[i]).1 != (#[trigger] v[j]).1
}

/// Plan a replay: parse the sequence number out of every chunk name and
/// sort ascending by it.  Returns the chunks in application order — the
/// same chunks the listing held, each with its sequence number — or the
/// first listed name that carries no sequence number, as a hard error.
pub fn plan_replay(names: &Vec<String>) -> (r: Result<Vec<(String, u64)>, ReplayError>)
    ensures
        match r {
            Ok(plan) => {
                &&& all_names_parse(names@)
                &&& sorted_by_seq(plan@)
                &&& plan@.to_multiset() == chunk_pairs(names@).to_multiset()
            },
            Err(e) => {
                &&& !all_names_parse(names@)
                &&& match e {
                    ReplayError::NamingViolation { path } => exists|i: int|
                        0 <= i < names@.len() && names@[i] == path && spec_log_seq(path@) is None
                            && (forall|j: int|
                            0 <= j < i ==> spec_log_seq((#[trigger] names@[j])@) is Some),
                }
            },
        },
{
    let mut pairs: Vec<(String, u64)> = Vec::new();
    let mut i: usize = 0;
    proof {
        assert(chunk_pairs(names@.take(0)) =~= Seq::<(String, u64)>::empty());
    }
    while i < names.len()
        invariant
            i <= names@.len(),
            pairs@ == chunk_pairs(names@.take(i as int)),
            forall|j: int| 0 <= j < i ==> spec_log_seq((#[trigger] names@[j])@) is Some,
        decreases names@.len() - i,
    {
        let name = &names[i];
        match log_seq_of_name(name.as_str()) {
            Some(seq_number) => {
                pairs.push((name.clone(), seq_number));
                proof {
                    assert(chunk_pairs(names@.take(i + 1)) =~= chunk_pairs(
                        names@.take(i as int),
                    ).push(chunk_pair(names@[i as int])));
                }
            },
            None => {
                return Err(ReplayError::NamingViolation { path: name.clone() });
            },
        }
        i = i + 1;
    }
    proof {
        assert(names@.take(names@.len() as int) =~= names@);
    }
    let plan = sort_by_seq_number(pairs);
    Ok(plan)
}

/// Sort chunks ascending by sequence number: the result holds exactly the
/// input chunks (as a multiset) in non-decreasing sequence order.
fn sort_by_seq_number(input: Vec<(String, u64)>) -> (r: Vec<(String, u64)>)
    ensures
        sorted_by_seq(r@),
        r@.to_multiset() == input@.to_multiset(),
{
    broadcast use vstd::seq_lib::group_to_multiset_ensures;
    broadcast use vstd::multiset::group_multiset_axioms;

    let ghost orig = input@;
    let mut rest = input;
    let mut out: Vec<(String, u64)> = Vec::new();
    proof {
        assert(out@.to_multiset().add(rest@.to_multiset()) =~= orig.to_multiset());
    }
    while rest.len() > 0
        invariant
            sorted_by_seq(out@),
            out@.to_multiset().add(rest@.to_multiset()) == orig.to_multiset(),
            forall|i: int, j: int|
                0 <= i < out@.len() && 0 <= j < rest@.len() ==> (#[trigger] out@[i]).1
                    <= (#[trigger] rest@[j]).1,
        decreases rest@.len(),
    {
        let mut m: usize = 0;
        let mut k: usize = 1;
        while k < rest.len()
            invariant
                m < k <= rest@.len(),
                rest@.len() > 0,
                forall|j: int| 0 <= j < k ==> (#[trigger] rest@[j]).1 >= rest@[m as int].1,
            decreases rest@.len() - k,
        {
            if rest[k].1 < rest[m].1 {
                m = k;
            }
            k = k + 1;
        }
        let ghost prev_out = out@;
        let ghost prev_rest = rest@;
        let x = rest.remove(m);
        out.push(x);
        proof {
            assert(prev_rest.contains(prev_rest[m as int]));
            assert(rest@ == prev_rest.remove(m as int));
            vstd::seq_lib::to_multiset_remove(prev_rest, m as int);
            assert(out@ == prev_out.push(x));
            vstd::seq_lib::to_multiset_build(prev_out, x);
            vstd::seq_lib::to_multiset_contains(prev_rest, x);
            assert(prev_rest.to_multiset().count(x) > 0);
            assert(out@.to_multiset().add(rest@.to_multiset()) =~= prev_out.to_multiset().add(
                prev_rest.to_multiset(),
            ));
            assert forall|i: int, j: int|
                0 <= i < out@.len() && 0 <= j < rest@.len() implies (#[trigger] out@[i]).1
                <= (#[trigger] rest@[j]).1 by {
                if j < m {
                    assert(rest@[j] == prev_rest[j]);
                } else {
                    assert(rest@[j] == prev_rest[j + 1]);
                }
                if i < prev_out.len() {
                    assert(out@[i] == prev_out[i]);
                } else {
                    assert(out@[i] == prev_rest[m as int]);
                }
            }
            assert forall|i: int, j: int|
                0 <= i <= j < out@.len() implies (#[trigger] out@[i]).1
                <= (#[trigger] out@[j]).1 by {
                if j == out@.len() - 1 && i < j {
                    assert(prev_out[i].1 <= prev_rest[m as int].1);
                }
            }
        }
    }
    proof {
        assert(rest@ =~= Seq::<(String, u64)>::empty());
        assert(rest@.to_multiset() =~= Multiset::<(String, u64)>::empty());
        assert(out@.to_multiset() =~= out@.to_multiset().add(rest@.to_multiset()));
    }
    out
}

/// The replay loop's state: a sorted plan, how far it has been applied,
/// and whether a corrupt chunk has stopped it.
pub struct ReplayRun {
    plan: Vec<(String, u64)>,
    next: usize,
    stopped: bool,
}

impl ReplayRun {
    /// The full plan, in application order.
    pub closed spec fn plan_view(self) -> Seq<(String, u64)> {
        self.plan@
    }

    /// The chunks applied so far, in the order they were applied.
    pub closed spec fn applied(self) -> Seq<(String, u64)> {
        self.plan@.take(self.next as int)
    }

    /// Whether a corrupt chunk has stopped this replay.
    pub closed spec fn stopped(self) -> bool {
        self.stopped
    }

    pub closed spec fn inv(self) -> bool {
        self.next <= self.plan@.len() && sorted_by_seq(self.plan@)
    }

    /// Start applying a sorted plan.
    pub fn start(plan: Vec<(String, u64)>) -> (r: Self)
        requires
            sorted_by_seq(plan@),
        ensures
            r.inv(),
            r.plan_view() == plan@,
            r.applied() == Seq::<(String, u64)>::empty(),
            !r.stopped(),
    {
        let r = ReplayRun { plan, next: 0, stopped: false };
        proof {
            assert(r.plan@.take(0) =~= Seq::<(String, u64)>::empty());
        }
        r
    }

    /// The next chunk to fetch and apply: `None` once the plan is
    /// exhausted or a corrupt chunk has stopped the replay — replay never
    /// looks past a corrupt chunk.
    pub fn next_chunk(&self) -> (r: Option<(String, u64)>)
        requires
            self.inv(),
        ensures
            match r {
                Some(p) => !self.stopped() && self.applied().len() < self.plan_view().len() && p
                    == self.plan_view()[self.applied().len() as int],
                None => self.stopped() || self.applied().len() == self.plan_view().len(),
            },
    {
        if self.stopped || self.next >= self.plan.len() {
            None
        } else {
            let p = &self.plan[self.next];
            Some((p.0.clone(), p.1))
        }
    }

    /// The current chunk's content decoded and its write-batch was applied
    /// to the engine: move to the next chunk.
    pub fn chunk_applied(&mut self)
        requires
            old(self).inv(),
            !old(self).stopped(),
            old(self).applied().len() < old(self).plan_view().len(),
        ensures
            final(self).inv(),
            final(self).plan_view() == old(self).plan_view(),
            !final(self).stopped(),
            final(self).applied() == old(self).applied().push(
                old(self).plan_view()[old(self).applied().len() as int],
            ),
    {
        let plan_len = self.plan.len();
        proof {
            assert(self.plan@.take(self.next as int).len() == self.next as int);
            assert(self.next < plan_len);
        }
        self.next = self.next + 1;
        proof {
            assert(self.plan@.take(self.next as int) =~= self.plan@.take(
                self.next - 1,
            ).push(self.plan@[self.next - 1]));
        }
    }

    /// The current chunk's content failed to decode: stop here.  What was
    /// already applied stands; the replay reports success for that prefix.
    pub fn chunk_corrupt(&mut self)
        requires
            old(self).inv(),
        ensures
            final(self).inv(),
            final(self).plan_view() == old(self).plan_view(),
            final(self).applied() == old(self).applied(),
            final(self).stopped(),
    {
        self.stopped = true;
    }

    /// How many chunks have been applied.
    pub fn applied_count(&self) -> (n: usize)
        requires
            self.inv(),
        ensures
            n == self.applied().len(),
    {
        self.next
    }

    /// Whether a corrupt chunk has stopped this replay.
    pub fn is_stopped(&self) -> (b: bool)
        ensures
            b == self.stopped(),
    {
        self.stopped
    }
}

/// Replay ordering: whatever order the listing produced the chunk names
/// in, the chunks actually applied to the engine are in strictly
/// ascending sequence-number order (sequence numbers are assigned without
/// reuse, so a plan holds no duplicates).
pub proof fn lemma_replay_ordering(r: ReplayRun)
    requires
        r.inv(),
        distinct_seqs(r.plan_view()),
    ensures
        forall|i: int, j: int|
            0 <= i < j < r.applied().len() ==> (#[trigger] r.applied()[i]).1
                < (#[trigger] r.applied()[j]).1,
        r.applied() == r.plan_view().take(r.applied().len() as int),
{
    assert forall|i: int, j: int|
        0 <= i < j < r.applied().len() implies (#[trigger] r.applied()[i]).1
        < (#[trigger] r.applied()[j]).1 by {
        assert(r.applied()[i] == r.plan_view()[i]);
        assert(r.applied()[j] == r.plan_view()[j]);
    }
}

} // verus!
