//! The retention sweeper's first pass: a bounded-memory streaming selection
//! of the most recent snapshot ids.
//!
//! The remote namespace may hold far more file names than fit in memory, so
//! the sweeper never materializes the listing.  It keeps only the `capacity`
//! largest distinct ids seen so far (the ids that must be retained for
//! recency) together with one flag recording whether any id older than the
//! lifetime cutoff has already fallen outside that window.  After the pass,
//! `deletion_cutoff` decides whether a deletion pass runs and which ids it
//! removes.

use vstd::prelude::*;

verus! {

use vstd::set_lib::lemma_len_subset;
use crate::naming::spec_snapshot_id_of_path;
use crate::naming::snapshot_id_of_path;

/// Strictly increasing: sorted with no duplicates.
pub open spec fn strictly_sorted(s: Seq<u128>) -> bool {
    forall|i: int, j: int| 0 <= i < j < s.len() ==> s[i] < s[j]
}

/// State of the sweeper's selection pass over one remote listing.
pub struct RetentionSweep {
    /// The largest distinct ids seen so far, strictly increasing, at most
    /// `cap` of them.
    retained: Vec<u128>,
    /// How many ids retention must keep; at least 1.
    cap: u64,
    /// Ids strictly below this time (milliseconds) are outside the
    /// configured snapshot lifetime.
    cutoff_ms: u128,
    /// Whether some id was seen that is both outside the retained window
    /// and older than `cutoff_ms` — only then is a deletion pass worthwhile.
    deletable_present: bool,
    /// All distinct ids observed so far.
    seen: Ghost<Set<u128>>,
}

impl RetentionSweep {
    /// The distinct snapshot ids this sweeper has observed.
    pub closed spec fn seen(self) -> Set<u128> {
        self.seen@
    }

    /// The ids currently retained for recency, strictly increasing.
    pub closed spec fn retained_ids(self) -> Seq<u128> {
        self.retained@
    }

    /// The number of ids retention keeps regardless of age.
    pub closed spec fn capacity(self) -> nat {
        self.cap as nat
    }

    /// The lifetime cutoff in milliseconds since the epoch.
    pub closed spec fn cutoff(self) -> u128 {
        self.cutoff_ms
    }

    /// Whether an id older than the cutoff has fallen outside the window.
    pub closed spec fn deletable(self) -> bool {
        self.deletable_present
    }

    /// The sweeper's invariant: the retained ids are exactly the
    /// `min(capacity, |seen|)` largest distinct ids observed, and
    /// `deletable` holds exactly when some observed id is outside the
    /// retained window and older than the cutoff.
    pub closed spec fn inv(self) -> bool {
        &&& self.cap >= 1
        &&& strictly_sorted(self.retained@)
        &&& self.retained@.len() <= self.cap
        &&& self.seen@.finite()
        &&& forall|i: int|
            0 <= i < self.retained@.len() ==> self.seen@.contains(#[trigger] self.retained@[i])
        &&& self.retained@.len() < self.cap ==> forall|s: u128|
            self.seen@.contains(s) ==> self.retained@.contains(s)
        &&& forall|s: u128|
            self.seen@.contains(s) && !self.retained@.contains(s) ==> self.retained@.len()
                == self.cap && s < self.retained@[0]
        &&& self.deletable_present <==> exists|s: u128|
            self.seen@.contains(s) && !self.retained@.contains(s) && s < self.cutoff_ms
    }

    /// Start a selection pass.  The capacity is the configured minimum
    /// snapshot count, floored at 1; `cutoff_ms` is the lifetime cutoff.
    pub fn begin(minimum_snapshots_count: u64, cutoff_ms: u128) -> (r: Self)
        ensures
            r.inv(),
            r.seen() == Set::<u128>::empty(),
            r.retained_ids() == Seq::<u128>::empty(),
            r.capacity() == if minimum_snapshots_count >= 1 {
                minimum_snapshots_count as nat
            } else {
                1nat
            },
            r.cutoff() == cutoff_ms,
            !r.deletable(),
    {
        let cap = if minimum_snapshots_count >= 1 {
            minimum_snapshots_count
        } else {
            1
        };
        let r = RetentionSweep {
            retained: Vec::new(),
            cap,
            cutoff_ms,
            deletable_present: false,
            seen: Ghost(Set::empty()),
        };
        proof {
            assert(r.retained@ =~= Seq::<u128>::empty());
        }
        r
    }

    /// Record one observed snapshot id, keeping the invariant: the id
    /// joins `seen`, the retained window keeps the largest ids, and the
    /// deletable flag rises exactly when an id older than the cutoff is
    /// (or falls) outside the window.
    pub fn observe(&mut self, id: u128)
        requires
            old(self).inv(),
        ensures
            final(self).inv(),
            final(self).seen() == old(self).seen().insert(id),
            final(self).capacity() == old(self).capacity(),
            final(self).cutoff() == old(self).cutoff(),
    {
        let ghost prev = *self;
        if contains_id(&self.retained, id) {
            proof {
                self.seen@ = self.seen@.insert(id);
                assert forall|s: u128|
                    self.seen@.contains(s) && !self.retained@.contains(s) implies self.retained@.len()
                    == self.cap && s < self.retained@[0] by {
                    assert(prev.seen@.contains(s));
                }
                assert(self.deletable_present <==> exists|s: u128|
                    self.seen@.contains(s) && !self.retained@.contains(s) && s
                        < self.cutoff_ms) by {
                    if self.deletable_present {
                        let w = choose|s: u128|
                            prev.seen@.contains(s) && !prev.retained@.contains(s) && s
                                < prev.cutoff_ms;
                        assert(self.seen@.contains(w));
                    }
                }
            }
            return ;
        }
        if (self.retained.len() as u64) < self.cap {
            insert_sorted(&mut self.retained, id);
            proof {
                self.seen@ = self.seen@.insert(id);
                assert forall|s: u128| self.seen@.contains(s) implies self.retained@.contains(
                    s,
                ) by {
                    if s != id {
                        assert(prev.seen@.contains(s));
                    }
                }
                assert forall|i: int|
                    0 <= i < self.retained@.len() implies self.seen@.contains(
                    #[trigger] self.retained@[i],
                ) by {
                    assert(self.retained@.contains(self.retained@[i]));
                    if self.retained@[i] != id {
                        let k = choose|k: int|
                            0 <= k < prev.retained@.len() && prev.retained@[k] == self.retained@[
                            i];
                        assert(prev.seen@.contains(prev.retained@[k]));
                    }
                }
                assert(!self.deletable_present) by {
                    if prev.deletable_present {
                        let w = choose|s: u128|
                            prev.seen@.contains(s) && !prev.retained@.contains(s) && s
                                < prev.cutoff_ms;
                        assert(self.retained@.contains(w));
                        assert(prev.retained@.len() == prev.cap);
                    }
                }
            }
            return ;
        }
        let min_val = self.retained[0];
        if id > min_val {
            self.retained.remove(0);
            let ghost mid = self.retained@;
            proof {
                assert(forall|i: int| 0 <= i < mid.len() ==> #[trigger] mid[i] == prev.retained@[
                    i + 1
                ]);
                assert(!mid.contains(id)) by {
                    if mid.contains(id) {
                        let k = choose|k: int| 0 <= k < mid.len() && mid[k] == id;
                        assert(prev.retained@[k + 1] == id);
                    }
                }
            }
            insert_sorted(&mut self.retained, id);
            if min_val < self.cutoff_ms {
                self.deletable_present = true;
            }
            proof {
                self.seen@ = self.seen@.insert(id);
                // Everything kept from the old window is above the evicted
                // minimum, and so is the new id.
                assert forall|i: int|
                    0 <= i < self.retained@.len() implies #[trigger] self.retained@[i]
                    > min_val by {
                    if self.retained@[i] != id {
                        assert(mid.contains(self.retained@[i]));
                        let k = choose|k: int| 0 <= k < mid.len() && mid[k] == self.retained@[i];
                        assert(prev.retained@[k + 1] > prev.retained@[0]);
                    }
                }
                assert forall|i: int|
                    0 <= i < self.retained@.len() implies self.seen@.contains(
                    #[trigger] self.retained@[i],
                ) by {
                    if self.retained@[i] != id {
                        assert(mid.contains(self.retained@[i]));
                        let k = choose|k: int| 0 <= k < mid.len() && mid[k] == self.retained@[i];
                        assert(prev.seen@.contains(prev.retained@[k + 1]));
                    }
                }
                // The ids outside the window are the old outside ids plus
                // the evicted minimum.
                assert forall|s: u128|
                    self.seen@.contains(s) && !self.retained@.contains(s) implies self.retained@.len()
                    == self.cap && s < self.retained@[0] by {
                    assert(self.retained@.contains(self.retained@[0]));
                    if s == min_val {
                        assert(min_val < self.retained@[0]);
                    } else {
                        assert(prev.seen@.contains(s));
                        if prev.retained@.contains(s) {
                            let k = choose|k: int|
                                0 <= k < prev.retained@.len() && prev.retained@[k] == s;
                            if k == 0 {
                                assert(s == min_val);
                            } else {
                                assert(mid[k - 1] == s);
                                assert(self.retained@.contains(s));
                            }
                        }
                        assert(s < prev.retained@[0]);
                        assert(prev.retained@[0] < self.retained@[0]);
                    }
                }
                assert(self.retained@.contains(id));
                assert forall|y: u128| mid.contains(y) implies self.retained@.contains(y) by {}
                assert(self.deletable_present <==> exists|s: u128|
                    self.seen@.contains(s) && !self.retained@.contains(s) && s
                        < self.cutoff_ms) by {
                    if self.deletable_present {
                        if prev.deletable_present {
                            let w = choose|s: u128|
                                prev.seen@.contains(s) && !prev.retained@.contains(s) && s
                                    < prev.cutoff_ms;
                            assert(w < prev.retained@[0]);
                            assert(!self.retained@.contains(w));
                            assert(self.seen@.contains(w) && !self.retained@.contains(w) && w
                                < self.cutoff_ms);
                        } else {
                            assert(min_val < self.cutoff_ms);
                            assert(prev.retained@.contains(min_val));
                            assert(prev.seen@.contains(min_val));
                            assert(self.seen@.contains(min_val) && !self.retained@.contains(
                                min_val,
                            ) && min_val < self.cutoff_ms);
                        }
                    } else {
                        if exists|s: u128|
                            self.seen@.contains(s) && !self.retained@.contains(s) && s
                                < self.cutoff_ms {
                            let w = choose|s: u128|
                                self.seen@.contains(s) && !self.retained@.contains(s) && s
                                    < self.cutoff_ms;
                            assert(w != id);
                            assert(prev.seen@.contains(w));
                            if prev.retained@.contains(w) {
                                let k = choose|k: int|
                                    0 <= k < prev.retained@.len() && prev.retained@[k] == w;
                                if k == 0 {
                                    assert(w == min_val);
                                    assert(min_val < self.cutoff_ms);
                                } else {
                                    assert(mid[k - 1] == w);
                                    assert(mid.contains(w));
                                    assert(self.retained@.contains(w));
                                }
                            } else {
                                assert(prev.seen@.contains(w) && !prev.retained@.contains(w) && w
                                    < prev.cutoff_ms);
                                assert(prev.deletable_present);
                            }
                            assert(false);
                        }
                    }
                }
            }
        } else {
            proof {
                assert(self.retained@.contains(min_val));
                assert(id < min_val);
            }
            if id < self.cutoff_ms {
                self.deletable_present = true;
            }
            proof {
                self.seen@ = self.seen@.insert(id);
                assert forall|s: u128|
                    self.seen@.contains(s) && !self.retained@.contains(s) implies self.retained@.len()
                    == self.cap && s < self.retained@[0] by {
                    if s != id {
                        assert(prev.seen@.contains(s));
                    }
                }
                assert(self.deletable_present <==> exists|s: u128|
                    self.seen@.contains(s) && !self.retained@.contains(s) && s
                        < self.cutoff_ms) by {
                    if self.deletable_present {
                        if id < self.cutoff_ms {
                            assert(self.seen@.contains(id) && !self.retained@.contains(id) && id
                                < self.cutoff_ms);
                        } else {
                            let w = choose|s: u128|
                                prev.seen@.contains(s) && !prev.retained@.contains(s) && s
                                    < prev.cutoff_ms;
                            assert(self.seen@.contains(w));
                        }
                    } else {
                        if exists|s: u128|
                            self.seen@.contains(s) && !self.retained@.contains(s) && s
                                < self.cutoff_ms {
                            let w = choose|s: u128|
                                self.seen@.contains(s) && !self.retained@.contains(s) && s
                                    < self.cutoff_ms;
                            assert(w != id);
                            assert(prev.seen@.contains(w));
                        }
                    }
                }
            }
        }
    }

    /// Observe every id that the names on one listing page carry, in order.
    /// Names that do not match the snapshot naming pattern are ignored.
    pub fn observe_page(&mut self, prefix: &str, names: &Vec<String>)
        requires
            old(self).inv(),
        ensures
            final(self).inv(),
            final(self).seen() == old(self).seen() + page_ids(prefix@, names@),
            final(self).capacity() == old(self).capacity(),
            final(self).cutoff() == old(self).cutoff(),
    {
        let ghost prev_seen = self.seen@;
        let mut i: usize = 0;
        while i < names.len()
            invariant
                i <= names@.len(),
                self.inv(),
                self.seen() == prev_seen + page_ids_upto(prefix@, names@, i as int),
                self.capacity() == old(self).capacity(),
                self.cutoff() == old(self).cutoff(),
            decreases names@.len() - i,
        {
            let name = &names[i];
            let parsed = snapshot_id_of_path(prefix, name.as_str());
            match parsed {
                Some(id) => {
                    self.observe(id);
                },
                None => {
                },
            }
            proof {
                assert(page_ids_upto(prefix@, names@, i + 1) =~= if spec_snapshot_id_of_path(
                    prefix@,
                    names@[i as int]@,
                ) is Some {
                    page_ids_upto(prefix@, names@, i as int).insert(
                        spec_snapshot_id_of_path(prefix@, names@[i as int]@)->Some_0,
                    )
                } else {
                    page_ids_upto(prefix@, names@, i as int)
                });
                assert(self.seen@ =~= prev_seen + page_ids_upto(prefix@, names@, i + 1));
            }
            i = i + 1;
        }
        proof {
            assert(page_ids_upto(prefix@, names@, names@.len() as int) =~= page_ids(
                prefix@,
                names@,
            ));
        }
    }
}

/// The threshold the deletion pass uses, if one runs at all: the deletion
/// pass runs only when the listing was non-empty and a deletable id was
/// observed, and then removes every id strictly below the lesser of the
/// lifetime cutoff and the smallest id retained for recency.
pub open spec fn spec_deletion_cutoff(s: RetentionSweep) -> Option<u128> {
    if s.retained_ids().len() == 0 || !s.deletable() {
        None
    } else if s.cutoff() <= s.retained_ids()[0] {
        Some(s.cutoff())
    } else {
        Some(s.retained_ids()[0])
    }
}

/// Whether an observed id outlives the sweep that `s` describes.
pub open spec fn spec_survives(s: RetentionSweep, id: u128) -> bool {
    match spec_deletion_cutoff(s) {
        Some(d) => id >= d,
        None => true,
    }
}

/// The observed ids that outlive the sweep that `s` describes.
pub open spec fn surviving_ids(s: RetentionSweep) -> Set<u128> {
    s.seen().filter(|id: u128| spec_survives(s, id))
}

impl RetentionSweep {
    /// Decide the deletion pass: `None` means nothing is deleted (an empty
    /// listing, or no deletable snapshot was observed); `Some(d)` runs a
    /// second pass deleting every file whose id is strictly below `d`.
    pub fn deletion_cutoff(&self) -> (r: Option<u128>)
        requires
            self.inv(),
        ensures
            r == spec_deletion_cutoff(*self),
    {
        if self.retained.len() == 0 {
            return None;
        }
        if !self.deletable_present {
            return None;
        }
        let earliest = self.retained[0];
        if self.cutoff_ms <= earliest {
            Some(self.cutoff_ms)
        } else {
            Some(earliest)
        }
    }

    /// The ids currently retained, smallest first, for inspection.
    pub fn retained_snapshot_ids(&self) -> (r: Vec<u128>)
        ensures
            r@ == self.retained_ids(),
    {
        let mut out: Vec<u128> = Vec::new();
        let mut i: usize = 0;
        while i < self.retained.len()
            invariant
                i <= self.retained@.len(),
                out@ == self.retained@.take(i as int),
            decreases self.retained@.len() - i,
        {
            out.push(self.retained[i]);
            proof {
                assert(self.retained@.take(i + 1) =~= self.retained@.take(i as int).push(
                    self.retained@[i as int],
                ));
            }
            i = i + 1;
        }
        proof {
            assert(self.retained@.take(self.retained@.len() as int) =~= self.retained@);
        }
        out
    }
}

/// Retention correctness: after the selection pass, the retained ids are
/// exactly the `min(capacity, distinct ids seen)` numerically largest ids,
/// every retained id survives the deletion pass, and an id older than the
/// lifetime cutoff that is not among the retained ids does not survive.
pub proof fn lemma_retention_correctness(s: RetentionSweep)
    requires
        s.inv(),
    ensures
        s.retained_ids().len() == vstd::math::min(s.capacity() as int, s.seen().len() as int),
        surviving_ids(s).len() >= vstd::math::min(s.capacity() as int, s.seen().len() as int),
        forall|a: u128, b: u128|
            #![trigger s.retained_ids().contains(a), s.seen().contains(b)]
            s.retained_ids().contains(a) && s.seen().contains(b) && !s.retained_ids().contains(b)
                ==> b < a,
        forall|a: u128| #[trigger] s.retained_ids().contains(a) ==> spec_survives(s, a),
        forall|b: u128|
            s.seen().contains(b) && !s.retained_ids().contains(b) && b < s.cutoff()
                ==> !spec_survives(s, b),
{
    broadcast use vstd::seq_lib::seq_to_set_is_finite;

    let r = s.retained_ids();
    assert(r.no_duplicates()) by {
        assert forall|i: int, j: int| 0 <= i < r.len() && 0 <= j < r.len() && i != j implies r[i]
            != r[j] by {
            if i < j {
            } else {
                assert(r[j] < r[i]);
            }
        }
    }
    r.unique_seq_to_set();
    assert(r.to_set().len() == r.len());
    assert forall|a: u128| r.to_set().contains(a) implies s.seen().contains(a) by {
        let i = choose|i: int| 0 <= i < r.len() && r[i] == a;
        assert(s.seen().contains(r[i]));
    }
    lemma_len_subset(r.to_set(), s.seen());
    if r.len() < s.capacity() {
        assert forall|a: u128| s.seen().contains(a) implies r.to_set().contains(a) by {
            assert(r.contains(a));
        }
        lemma_len_subset(s.seen(), r.to_set());
    }
    assert forall|a: u128, b: u128|
        #![trigger r.contains(a), s.seen().contains(b)]
        r.contains(a) && s.seen().contains(b) && !r.contains(b) implies b < a by {
        let i = choose|i: int| 0 <= i < r.len() && r[i] == a;
        assert(b < r[0]);
        assert(r.contains(r[0]));
        if i > 0 {
            assert(r[0] < r[i]);
        }
    }
    assert forall|a: u128| #[trigger] r.contains(a) implies spec_survives(s, a) by {
        let i = choose|i: int| 0 <= i < r.len() && r[i] == a;
        if i > 0 {
            assert(r[0] < r[i]);
        }
    }
    assert forall|b: u128|
        s.seen().contains(b) && !r.contains(b) && b < s.cutoff() implies !spec_survives(s, b) by {
        assert(s.deletable());
        assert(b < r[0]);
    }
    lemma_len_subset(surviving_ids(s), s.seen());
    assert forall|a: u128| r.to_set().contains(a) implies surviving_ids(s).contains(a) by {
        assert(r.contains(a));
        assert(s.seen().contains(a) && spec_survives(s, a));
    }
    lemma_len_subset(r.to_set(), surviving_ids(s));
}

/// No-op sweep: if every observed id is within the lifetime window, or the
/// distinct ids observed number no more than the retention capacity, the
/// decision is to delete nothing.
pub proof fn lemma_no_op_sweep(s: RetentionSweep)
    requires
        s.inv(),
        (forall|id: u128| s.seen().contains(id) ==> id >= s.cutoff()) || s.seen().len()
            <= s.capacity(),
    ensures
        spec_deletion_cutoff(s) == None::<u128>,
{
    broadcast use vstd::seq_lib::seq_to_set_is_finite;

    let r = s.retained_ids();
    if r.len() == 0 {
    } else if forall|id: u128| s.seen().contains(id) ==> id >= s.cutoff() {
        assert(!s.deletable()) by {
            if s.deletable() {
                let w = choose|w: u128|
                    s.seen().contains(w) && !s.retained_ids().contains(w) && w < s.cutoff();
                assert(w >= s.cutoff());
            }
        }
    } else {
        assert(!s.deletable()) by {
            if s.deletable() {
                let w = choose|w: u128|
                    s.seen().contains(w) && !s.retained_ids().contains(w) && w < s.cutoff();
                assert(r.len() == s.capacity());
                assert(r.no_duplicates()) by {
                    assert forall|i: int, j: int|
                        0 <= i < r.len() && 0 <= j < r.len() && i != j implies r[i] != r[j] by {
                        if i < j {
                        } else {
                            assert(r[j] < r[i]);
                        }
                    }
                }
                r.unique_seq_to_set();
                assert(!r.to_set().contains(w));
                assert(r.to_set().insert(w).len() == r.len() + 1);
                assert forall|a: u128| r.to_set().insert(w).contains(a) implies s.seen().contains(
                    a,
                ) by {
                    if a != w {
                        let i = choose|i: int| 0 <= i < r.len() && r[i] == a;
                        assert(s.seen().contains(r[i]));
                    }
                }
                lemma_len_subset(r.to_set().insert(w), s.seen());
            }
        }
    }
}

/// Whether the deletion pass removes `name`: it embeds a snapshot id, and
/// that id is strictly below the deletion threshold.
pub open spec fn should_delete_name(prefix: Seq<char>, name: Seq<char>, threshold: u128) -> bool {
    match spec_snapshot_id_of_path(prefix, name) {
        Some(id) => id < threshold,
        None => false,
    }
}

/// The deletion pass removes exactly what does not survive: a listed file
/// whose name carries a snapshot id is selected for deletion under the
/// decided threshold precisely when that id does not outlive the sweep.
pub proof fn lemma_deletion_matches_survival(
    s: RetentionSweep,
    prefix: Seq<char>,
    name: Seq<char>,
)
    requires
        spec_deletion_cutoff(s) is Some,
        spec_snapshot_id_of_path(prefix, name) is Some,
    ensures
        should_delete_name(prefix, name, spec_deletion_cutoff(s)->Some_0) == !spec_survives(
            s,
            spec_snapshot_id_of_path(prefix, name)->Some_0,
        ),
{
}

/// The deletion predicate over listed names, as a single value so callers
/// and contracts speak of the same function.
pub open spec fn deletion_filter(prefix: Seq<char>, threshold: u128) -> spec_fn(String) -> bool {
    |n: String| should_delete_name(prefix, n@, threshold)
}

/// Select, from one listing page, the file names the deletion pass removes:
/// exactly those whose embedded snapshot id is strictly below `threshold`,
/// in listing order.  Names that embed no id are never deleted.
pub fn select_deletions(prefix: &str, names: &Vec<String>, threshold: u128) -> (r: Vec<String>)
    ensures
        r@ == names@.filter(deletion_filter(prefix@, threshold)),
{
    let ghost pred = deletion_filter(prefix@, threshold);
    let mut out: Vec<String> = Vec::new();
    let mut i: usize = 0;
    proof {
        assert(names@.take(0).filter(pred) =~= Seq::<String>::empty());
    }
    while i < names.len()
        invariant
            i <= names@.len(),
            pred == deletion_filter(prefix@, threshold),
            out@ == names@.take(i as int).filter(pred),
        decreases names@.len() - i,
    {
        let ghost done = names@.take(i as int);
        let name = &names[i];
        let keep = match snapshot_id_of_path(prefix, name.as_str()) {
            Some(id) => id < threshold,
            None => false,
        };
        if keep {
            out.push(name.clone());
        }
        proof {
            done.lemma_filter_push(names@[i as int], pred);
            assert(pred(names@[i as int]) == keep);
            assert(names@.take(i + 1) =~= done.push(names@[i as int]));
        }
        i = i + 1;
    }
    proof {
        assert(names@.take(names@.len() as int) =~= names@);
    }
    out
}

/// Split the files selected for deletion into batches of at most
/// `batch_size`, preserving order: the concatenation of the batches is the
/// input, and no batch is empty.
pub fn split_batches(items: &Vec<String>, batch_size: u64) -> (r: Vec<Vec<String>>)
    requires
        batch_size >= 1,
    ensures
        r@.map_values(|v: Vec<String>| v@).flatten() == items@,
        forall|i: int| 0 <= i < r@.len() ==> 1 <= (#[trigger] r@[i])@.len() <= batch_size,
        forall|i: int| 0 <= i < r@.len() - 1 ==> (#[trigger] r@[i])@.len() == batch_size,
{
    let ghost to_view = |v: Vec<String>| v@;
    let mut out: Vec<Vec<String>> = Vec::new();
    let mut cur: Vec<String> = Vec::new();
    let mut i: usize = 0;
    proof {
        assert(out@.map_values(to_view) =~= Seq::<Seq<String>>::empty());
        assert(Seq::<Seq<String>>::empty().flatten() =~= Seq::<String>::empty());
        assert(out@.map_values(to_view).flatten() + cur@ =~= items@.take(0));
    }
    while i < items.len()
        invariant
            i <= items@.len(),
            batch_size >= 1,
            to_view == (|v: Vec<String>| v@),
            out@.map_values(to_view).flatten() + cur@ == items@.take(i as int),
            cur@.len() < batch_size,
            forall|j: int| 0 <= j < out@.len() ==> (#[trigger] out@[j])@.len() == batch_size,
        decreases items@.len() - i,
    {
        let ghost prev_cur = cur@;
        cur.push(items[i].clone());
        proof {
            assert(items@.take(i + 1) =~= items@.take(i as int).push(items@[i as int]));
            assert(out@.map_values(to_view).flatten() + cur@ =~= (out@.map_values(
                to_view,
            ).flatten() + prev_cur).push(items@[i as int]));
        }
        if (cur.len() as u64) == batch_size {
            let full = cur;
            cur = Vec::new();
            let ghost prev_out = out@;
            let ghost full_view = full@;
            out.push(full);
            proof {
                assert(out@.map_values(to_view) =~= prev_out.map_values(to_view).push(full_view));
                prev_out.map_values(to_view).lemma_flatten_push(full_view);
                assert(out@.map_values(to_view).flatten() + cur@ =~= prev_out.map_values(
                    to_view,
                ).flatten() + full_view);
            }
        }
        i = i + 1;
    }
    if cur.len() > 0 {
        let ghost prev_out = out@;
        let ghost last = cur@;
        out.push(cur);
        proof {
            assert(out@.map_values(to_view) =~= prev_out.map_values(to_view).push(last));
            prev_out.map_values(to_view).lemma_flatten_push(last);
            assert(out@.map_values(to_view).flatten() =~= items@.take(items@.len() as int));
            assert(out@.map_values(to_view) =~= out@.map_values(|v: Vec<String>| v@));
        }
    } else {
        proof {
            assert(out@.map_values(to_view).flatten() + cur@ =~= out@.map_values(
                to_view,
            ).flatten());
            assert(out@.map_values(to_view) =~= out@.map_values(|v: Vec<String>| v@));
        }
    }
    proof {
        assert(items@.take(items@.len() as int) =~= items@);
    }
    out
}

/// The snapshot ids carried by the first `k` names of a listing page.
pub open spec fn page_ids_upto(prefix: Seq<char>, names: Seq<String>, k: int) -> Set<u128> {
    Set::new(
        |id: u128|
            exists|i: int|
                0 <= i < k <= names.len() && spec_snapshot_id_of_path(prefix, (#[trigger] names[i])@)
                    == Some(id),
    )
}

/// The snapshot ids carried by the names of a listing page.
pub open spec fn page_ids(prefix: Seq<char>, names: Seq<String>) -> Set<u128> {
    page_ids_upto(prefix, names, names.len() as int)
}

/// Whether `v` holds `x`; `v` is small (bounded by the retention capacity).
fn contains_id(v: &Vec<u128>, x: u128) -> (b: bool)
    ensures
        b == v@.contains(x),
{
    let mut i: usize = 0;
    while i < v.len()
        invariant
            i <= v@.len(),
            forall|j: int| 0 <= j < i ==> #[trigger] v@[j] != x,
        decreases v@.len() - i,
    {
        if v[i] == x {
            return true;
        }
        i = i + 1;
    }
    false
}

/// Insert `x` into the strictly sorted `v`, keeping it strictly sorted.
fn insert_sorted(v: &mut Vec<u128>, x: u128)
    requires
        strictly_sorted(old(v)@),
        !old(v)@.contains(x),
    ensures
        strictly_sorted(final(v)@),
        final(v)@.len() == old(v)@.len() + 1,
        forall|y: u128| final(v)@.contains(y) <==> (old(v)@.contains(y) || y == x),
        final(v)@[0] == if old(v)@.len() > 0 && old(v)@[0] < x {
            old(v)@[0]
        } else {
            x
        },
{
    let ghost prev = v@;
    let mut k: usize = 0;
    while k < v.len() && v[k] < x
        invariant
            k <= v@.len(),
            v@ == prev,
            forall|i: int| 0 <= i < k ==> #[trigger] v@[i] < x,
        decreases v@.len() - k,
    {
        k = k + 1;
    }
    proof {
        if k < prev.len() {
            assert(prev[k as int] != x);
            assert(prev[k as int] > x);
        }
    }
    v.insert(k, x);
    proof {
        prev.insert_ensures(k as int, x);
        assert forall|i: int, j: int| 0 <= i < j < v@.len() implies v@[i] < v@[j] by {
            if j < k {
            } else if i < k && j == k {
            } else if i == k {
                assert(v@[j] == prev[j - 1]);
                assert(prev[j - 1] >= prev[k as int]);
            } else if i > k {
                assert(v@[i] == prev[i - 1]);
                assert(v@[j] == prev[j - 1]);
            } else {
                assert(v@[i] == prev[i]);
                assert(v@[j] == prev[j - 1]);
                assert(prev[j - 1] >= prev[k as int]);
            }
        }
        assert forall|y: u128| v@.contains(y) implies (prev.contains(y) || y == x) by {
            let i = choose|i: int| 0 <= i < v@.len() && v@[i] == y;
            if i < k {
                assert(prev[i] == y);
            } else if i > k {
                assert(prev[i - 1] == y);
            }
        }
        assert forall|y: u128| (prev.contains(y) || y == x) implies v@.contains(y) by {
            if y == x {
                assert(v@[k as int] == y);
            } else {
                let i = choose|i: int| 0 <= i < prev.len() && prev[i] == y;
                if i < k {
                    assert(v@[i] == y);
                } else {
                    assert(v@[i + 1] == y);
                }
            }
        }
    }
}

} // verus!
