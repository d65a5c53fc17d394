//! Experiment annotations and the bounds that every stored one obeys.

use vstd::prelude::*;
use vstd::string::*;
use crate::assoc::{distinct_keys, has_key, lemma_found, lemma_upsert, position, upsert};
use crate::text::{truncate, truncated};

verus! {

/// The most characters that an experiment's id, its branch, or a key of its
/// extra data may have.
pub const MAX_EXPERIMENTS_IDS_LEN: usize = 30;

/// The most characters that a value of an experiment's extra data may have.
pub const MAX_EXPERIMENT_VALUE_LEN: usize = 50;

/// The most entries that an experiment's extra data may have.
pub const MAX_EXPERIMENTS_EXTRAS_SIZE: usize = 20;

/// Extra data as a list of key-value pairs, in the order of their keys'
/// first appearance.
pub type ExtraView = Seq<(Seq<char>, Seq<char>)>;

/// What an experiment record holds.
pub struct ExperimentView {
    pub branch: Seq<char>,
    pub extra: Option<ExtraView>,
}

/// The pairs of `entries` as character sequences.
pub open spec fn pairs_view(entries: Seq<(String, String)>) -> ExtraView {
    Seq::new(entries.len(), |i: int| (entries[i].0@, entries[i].1@))
}

/// The optional pairs of `extra` as character sequences.
pub open spec fn extra_view(extra: Option<Vec<(String, String)>>) -> Option<ExtraView> {
    match extra {
        Some(entries) => Some(pairs_view(entries@)),
        None => None,
    }
}

/// `extra` is within the bounds: distinct keys, at most 20 entries, keys of
/// at most 30 characters and values of at most 50.
pub open spec fn extra_bounded(extra: ExtraView) -> bool {
    &&& distinct_keys(extra)
    &&& extra.len() <= MAX_EXPERIMENTS_EXTRAS_SIZE
    &&& forall|i: int|
        0 <= i < extra.len() ==> (#[trigger] extra[i]).0.len() <= MAX_EXPERIMENTS_IDS_LEN
            && extra[i].1.len() <= MAX_EXPERIMENT_VALUE_LEN
}

/// `record` is within the bounds: a branch of at most 30 characters, and
/// extra data, if any, within its own bounds.
pub open spec fn record_bounded(record: ExperimentView) -> bool {
    &&& record.branch.len() <= MAX_EXPERIMENTS_IDS_LEN
    &&& match record.extra {
        Some(extra) => extra_bounded(extra),
        None => true,
    }
}

/// The entries of `raw`, read in order, each with its key cut to 30
/// characters and its value to 50; where a cut key stands again, its value is
/// replaced in place.
pub open spec fn collected_extra(raw: ExtraView) -> ExtraView
    decreases raw.len(),
{
    if raw.len() == 0 {
        Seq::empty()
    } else {
        upsert(
            collected_extra(raw.drop_last()),
            truncated(raw.last().0, MAX_EXPERIMENTS_IDS_LEN as nat),
            truncated(raw.last().1, MAX_EXPERIMENT_VALUE_LEN as nat),
        )
    }
}

/// The first 20 entries of `raw`, or all of them where there are no more.
pub open spec fn capped_extra(raw: ExtraView) -> ExtraView {
    if raw.len() > MAX_EXPERIMENTS_EXTRAS_SIZE {
        raw.subrange(0, MAX_EXPERIMENTS_EXTRAS_SIZE as int)
    } else {
        raw
    }
}

/// What is kept of the extra data `raw`: its first 20 entries, cut to their
/// bounds.
pub open spec fn normalized_extra(raw: ExtraView) -> ExtraView {
    collected_extra(capped_extra(raw))
}

/// What is kept of an experiment's branch and extra data.
pub open spec fn normalized_record(branch: Seq<char>, extra: Option<ExtraView>) -> ExperimentView {
    ExperimentView {
        branch: truncated(branch, MAX_EXPERIMENTS_IDS_LEN as nat),
        extra: match extra {
            Some(raw) => Some(normalized_extra(raw)),
            None => None,
        },
    }
}

/// The keys of `raw`, each cut to 30 characters, are pairwise distinct.
pub open spec fn cut_keys_distinct(raw: ExtraView) -> bool {
    forall|i: int, j: int|
        0 <= i < j < raw.len() ==> truncated((#[trigger] raw[i]).0, MAX_EXPERIMENTS_IDS_LEN as nat)
            != truncated((#[trigger] raw[j]).0, MAX_EXPERIMENTS_IDS_LEN as nat)
}

/// Collected entries keep within the bounds on keys and values, have distinct
/// keys, are no more than were read, and hold a key exactly where an entry
/// read has it once cut.
pub proof fn lemma_collected_extra(raw: ExtraView)
    ensures
        distinct_keys(collected_extra(raw)),
        collected_extra(raw).len() <= raw.len(),
        forall|i: int|
            0 <= i < collected_extra(raw).len() ==> (#[trigger] collected_extra(raw)[i]).0.len()
                <= MAX_EXPERIMENTS_IDS_LEN && collected_extra(raw)[i].1.len()
                <= MAX_EXPERIMENT_VALUE_LEN,
        forall|k: Seq<char>|
            has_key(collected_extra(raw), k) <==> exists|j: int|
                0 <= j < raw.len() && truncated(
                    (#[trigger] raw[j]).0,
                    MAX_EXPERIMENTS_IDS_LEN as nat,
                ) == k,
        cut_keys_distinct(raw) ==> collected_extra(raw).len() == raw.len(),
    decreases raw.len(),
{
    let out = collected_extra(raw);
    if raw.len() == 0 {
        assert forall|k: Seq<char>| has_key(out, k) <==> exists|j: int|
            0 <= j < raw.len() && truncated((#[trigger] raw[j]).0, MAX_EXPERIMENTS_IDS_LEN as nat)
                == k by {}
    } else {
        let rest = raw.drop_last();
        let prev = collected_extra(rest);
        let key = truncated(raw.last().0, MAX_EXPERIMENTS_IDS_LEN as nat);
        let value = truncated(raw.last().1, MAX_EXPERIMENT_VALUE_LEN as nat);
        lemma_collected_extra(rest);
        lemma_upsert(prev, key, value);
        assert forall|i: int| 0 <= i < out.len() implies (#[trigger] out[i]).0.len()
            <= MAX_EXPERIMENTS_IDS_LEN && out[i].1.len() <= MAX_EXPERIMENT_VALUE_LEN by {
            if has_key(prev, key) {
                if i != position(prev, key) {
                    assert(out[i] == prev[i]);
                }
            } else {
                if i < prev.len() {
                    assert(out[i] == prev[i]);
                }
            }
        }
        assert forall|k: Seq<char>| has_key(out, k) <==> exists|j: int|
            0 <= j < raw.len() && truncated((#[trigger] raw[j]).0, MAX_EXPERIMENTS_IDS_LEN as nat)
                == k by {
            if has_key(out, k) {
                if k == key {
                    assert(truncated(raw[raw.len() - 1].0, MAX_EXPERIMENTS_IDS_LEN as nat) == k);
                } else {
                    let i = position(out, k);
                    if has_key(prev, key) {
                        assert(out[i] == prev[i]);
                    } else {
                        assert(i < prev.len());
                        assert(out[i] == prev[i]);
                    }
                    assert(has_key(prev, k));
                    let j = choose|j: int|
                        0 <= j < rest.len() && truncated(
                            (#[trigger] rest[j]).0,
                            MAX_EXPERIMENTS_IDS_LEN as nat,
                        ) == k;
                    assert(raw[j] == rest[j]);
                }
            }
            if exists|j: int|
                0 <= j < raw.len() && truncated(
                    (#[trigger] raw[j]).0,
                    MAX_EXPERIMENTS_IDS_LEN as nat,
                ) == k {
                let j = choose|j: int|
                    0 <= j < raw.len() && truncated(
                        (#[trigger] raw[j]).0,
                        MAX_EXPERIMENTS_IDS_LEN as nat,
                    ) == k;
                if j == raw.len() - 1 {
                    if has_key(prev, key) {
                        assert(out[position(prev, key)].0 == key);
                    } else {
                        assert(out[prev.len() as int].0 == key);
                    }
                } else {
                    assert(rest[j] == raw[j]);
                    assert(has_key(prev, k));
                    let i = position(prev, k);
                    if has_key(prev, key) {
                        assert(out[i].0 == k);
                    } else {
                        assert(out[i] == prev[i]);
                    }
                }
            }
        }
        if cut_keys_distinct(raw) {
            assert forall|i: int, j: int| 0 <= i < j < rest.len() implies truncated(
                (#[trigger] rest[i]).0,
                MAX_EXPERIMENTS_IDS_LEN as nat,
            ) != truncated((#[trigger] rest[j]).0, MAX_EXPERIMENTS_IDS_LEN as nat) by {
                assert(rest[i] == raw[i]);
                assert(rest[j] == raw[j]);
            }
            if has_key(prev, key) {
                let j = choose|j: int|
                    0 <= j < rest.len() && truncated(
                        (#[trigger] rest[j]).0,
                        MAX_EXPERIMENTS_IDS_LEN as nat,
                    ) == key;
                assert(rest[j] == raw[j]);
                assert(truncated(raw[j].0, MAX_EXPERIMENTS_IDS_LEN as nat) != truncated(
                    raw[raw.len() - 1].0,
                    MAX_EXPERIMENTS_IDS_LEN as nat,
                ));
            }
        }
    }
}

/// What is kept of extra data is within the bounds, and has exactly 20
/// entries where more than 20 were given and the first 20 keys stay distinct
/// once cut.
pub proof fn lemma_normalized_extra(raw: ExtraView)
    ensures
        extra_bounded(normalized_extra(raw)),
        normalized_extra(raw).len() <= raw.len(),
        raw.len() > MAX_EXPERIMENTS_EXTRAS_SIZE && cut_keys_distinct(capped_extra(raw))
            ==> normalized_extra(raw).len() == MAX_EXPERIMENTS_EXTRAS_SIZE,
        raw.len() <= MAX_EXPERIMENTS_EXTRAS_SIZE && cut_keys_distinct(raw) ==> normalized_extra(
            raw,
        ).len() == raw.len(),
{
    lemma_collected_extra(capped_extra(raw));
}

/// What is kept of a branch and extra data is within the bounds.
pub proof fn lemma_normalized_record(branch: Seq<char>, extra: Option<ExtraView>)
    ensures
        record_bounded(normalized_record(branch, extra)),
        branch.len() > MAX_EXPERIMENTS_IDS_LEN ==> normalized_record(branch, extra).branch
            == branch.subrange(0, MAX_EXPERIMENTS_IDS_LEN as int),
        branch.len() <= MAX_EXPERIMENTS_IDS_LEN ==> normalized_record(branch, extra).branch
            == branch,
{
    match extra {
        Some(raw) => lemma_normalized_extra(raw),
        None => {},
    }
}

/// Extra data within the bounds is kept as it is.
pub proof fn lemma_bounded_extra_kept(extra: ExtraView)
    requires
        extra_bounded(extra),
    ensures
        normalized_extra(extra) == extra,
{
    assert(capped_extra(extra) == extra);
    lemma_bounded_extra_collected(extra);
}

/// Entries with distinct keys, each within its bounds, are collected as
/// they are.
pub proof fn lemma_bounded_extra_collected(extra: ExtraView)
    requires
        distinct_keys(extra),
        forall|i: int|
            0 <= i < extra.len() ==> (#[trigger] extra[i]).0.len() <= MAX_EXPERIMENTS_IDS_LEN
                && extra[i].1.len() <= MAX_EXPERIMENT_VALUE_LEN,
    ensures
        collected_extra(extra) == extra,
    decreases extra.len(),
{
    if extra.len() == 0 {
        assert(extra =~= Seq::empty());
    } else {
        let front = extra.drop_last();
        let last = extra.last();
        assert forall|i: int, j: int| 0 <= i < j < front.len() implies (#[trigger] front[i]).0 != (
        #[trigger] front[j]).0 by {
            assert(front[i] == extra[i]);
            assert(front[j] == extra[j]);
        }
        assert forall|i: int| 0 <= i < front.len() implies (#[trigger] front[i]).0.len()
            <= MAX_EXPERIMENTS_IDS_LEN && front[i].1.len() <= MAX_EXPERIMENT_VALUE_LEN by {
            assert(front[i] == extra[i]);
        }
        lemma_bounded_extra_collected(front);
        assert(extra[extra.len() - 1] == last);
        if has_key(front, last.0) {
            let i = position(front, last.0);
            assert(front[i] == extra[i]);
            assert(extra[i].0 != extra[extra.len() - 1].0);
        }
        assert(front.push(last) =~= extra);
    }
}

/// A record within the bounds is kept as it is.
pub proof fn lemma_bounded_record_kept(record: ExperimentView)
    requires
        record_bounded(record),
    ensures
        normalized_record(record.branch, record.extra) == record,
{
    match record.extra {
        Some(extra) => lemma_bounded_extra_kept(extra),
        None => {},
    }
}

/// The index at which `entries` holds the key `key`, if it holds it.
fn find_key(entries: &Vec<(String, String)>, key: &String) -> (found: Option<usize>)
    ensures
        match found {
            Some(i) => i < entries.len() && entries[i as int].0@ == key@,
            None => !has_key(pairs_view(entries@), key@),
        },
{
    let mut i: usize = 0;
    while i < entries.len()
        invariant
            i <= entries.len(),
            forall|j: int| 0 <= j < i ==> (#[trigger] pairs_view(entries@)[j]).0 != key@,
        decreases entries.len() - i,
    {
        if entries[i].0 == *key {
            return Some(i);
        }
        i = i + 1;
    }
    None
}

/// Cuts extra data down to its bounds: the first 20 entries of `raw`, each
/// key cut to 30 characters and each value to 50. Where a cut key stands
/// again, the later value replaces the earlier in place.
pub fn normalize_extra(raw: &Vec<(String, String)>) -> (out: Vec<(String, String)>)
    ensures
        pairs_view(out@) == normalized_extra(pairs_view(raw@)),
        extra_bounded(pairs_view(out@)),
{
    let count = if raw.len() > MAX_EXPERIMENTS_EXTRAS_SIZE {
        MAX_EXPERIMENTS_EXTRAS_SIZE
    } else {
        raw.len()
    };
    let ghost capped = capped_extra(pairs_view(raw@));
    let mut out: Vec<(String, String)> = Vec::new();
    let mut i: usize = 0;
    assert(pairs_view(out@) =~= collected_extra(capped.subrange(0, 0)));
    while i < count
        invariant
            i <= count,
            count <= raw.len(),
            count == capped.len(),
            capped == capped_extra(pairs_view(raw@)),
            pairs_view(out@) == collected_extra(capped.subrange(0, i as int)),
        decreases count - i,
    {
        let key = truncate(raw[i].0.as_str(), MAX_EXPERIMENTS_IDS_LEN);
        let value = truncate(raw[i].1.as_str(), MAX_EXPERIMENT_VALUE_LEN);
        let ghost before = pairs_view(out@);
        proof {
            let read = capped.subrange(0, i + 1);
            assert(read.drop_last() =~= capped.subrange(0, i as int));
            assert(read.last() == pairs_view(raw@)[i as int]);
            lemma_collected_extra(capped.subrange(0, i as int));
        }
        match find_key(&out, &key) {
            Some(at) => {
                proof {
                    assert(before[at as int].0 == key@);
                    lemma_found(before, at as int);
                }
                out[at] = (key, value);
                assert(pairs_view(out@) =~= before.update(at as int, (key@, value@)));
            },
            None => {
                out.push((key, value));
                assert(pairs_view(out@) =~= before.push((key@, value@)));
            },
        }
        i = i + 1;
    }
    proof {
        assert(capped.subrange(0, count as int) =~= capped);
        lemma_normalized_extra(pairs_view(raw@));
    }
    out
}

/// The annotation stored for an active experiment: its branch, and extra
/// data if any was given. Every value of this type is within the bounds.
pub struct RecordedExperimentData {
    branch: String,
    extra: Option<Vec<(String, String)>>,
}

impl View for RecordedExperimentData {
    type V = ExperimentView;

    closed spec fn view(&self) -> ExperimentView {
        ExperimentView { branch: self.branch@, extra: extra_view(self.extra) }
    }
}

impl RecordedExperimentData {
    #[verifier::type_invariant]
    spec fn within_bounds(&self) -> bool {
        record_bounded(self@)
    }

    /// The record for `branch` and `extra`, both cut down to the bounds.
    pub fn new(branch: String, extra: Option<Vec<(String, String)>>) -> (record: Self)
        ensures
            record@ == normalized_record(branch@, extra_view(extra)),
            record_bounded(record@),
    {
        let kept = match &extra {
            Some(raw) => Some(normalize_extra(raw)),
            None => None,
        };
        proof {
            lemma_normalized_record(branch@, extra_view(extra));
        }
        RecordedExperimentData { branch: truncate(branch.as_str(), MAX_EXPERIMENTS_IDS_LEN), extra: kept }
    }

    /// The experiment's branch.
    pub fn branch(&self) -> (branch: &str)
        ensures
            branch@ == self@.branch,
            branch@.len() <= MAX_EXPERIMENTS_IDS_LEN,
    {
        proof {
            use_type_invariant(self);
        }
        self.branch.as_str()
    }

    /// The experiment's extra data, in the order of its keys' first
    /// appearance.
    pub fn extra(&self) -> (extra: Option<&Vec<(String, String)>>)
        ensures
            match extra {
                Some(entries) => self@.extra == Some(pairs_view(entries@)),
                None => self@.extra is None,
            },
            record_bounded(self@),
    {
        proof {
            use_type_invariant(self);
        }
        match &self.extra {
            Some(entries) => Some(entries),
            None => None,
        }
    }
}

} // verus!
