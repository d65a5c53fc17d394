//! The key-value store: metric values partitioned by lifetime, and the
//! experiment records beside them.

use vstd::prelude::*;
use vstd::string::*;
use crate::assoc::{
    as_map, distinct_keys, has_key, inserted_all, lemma_empty, lemma_found, lemma_inserted_all,
    lemma_remove_at, lemma_upsert, position, upsert,
};
use crate::error::Error;
use crate::experiments::{
    extra_view, lemma_bounded_record_kept, lemma_normalized_record, normalized_record,
    record_bounded, ExperimentView, ExtraView, RecordedExperimentData, MAX_EXPERIMENTS_IDS_LEN,
};
use crate::persist::{
    experiment_item_fits, experiment_reader, experiment_writer, header, holds_at, image_at,
    image_bytes, image_fits, lemma_image_at, lemma_list_bytes_push, list_at, list_bytes,
    metric_item_fits, metric_reader, metric_writer, put_experiment_item, put_metric_item, put_u64,
    take_experiment_item, take_metric_item, take_u64, ExperimentItem, MetricItem,
};
use crate::text::{truncate, truncated};

verus! {

/// How long a stored value is kept.
#[derive(Clone, Copy, Debug, PartialEq, Eq, Structural)]
pub enum Lifetime {
    /// Until the ping it belongs to is sent.
    Ping,
    /// Until the application ends.
    Application,
    /// For as long as the installation lives.
    User,
}

/// A stored metric value.
pub enum Metric {
    String(String),
    Boolean(bool),
    Counter(u64),
}

/// What a stored metric value holds.
pub enum MetricValue {
    String(Seq<char>),
    Boolean(bool),
    Counter(u64),
}

impl View for Metric {
    type V = MetricValue;

    open spec fn view(&self) -> MetricValue {
        match *self {
            Metric::String(s) => MetricValue::String(s@),
            Metric::Boolean(b) => MetricValue::Boolean(b),
            Metric::Counter(n) => MetricValue::Counter(n),
        }
    }
}

impl Clone for Metric {
    fn clone(&self) -> (copy: Self)
        ensures
            copy@ == self@,
    {
        match self {
            Metric::String(s) => Metric::String(s.clone()),
            Metric::Boolean(b) => Metric::Boolean(*b),
            Metric::Counter(n) => Metric::Counter(*n),
        }
    }
}

/// The place of a metric within a lifetime: its category, its name, and the
/// ping it is sent in.
pub struct StorageKey {
    pub category: String,
    pub name: String,
    pub ping: String,
}

/// What a storage key holds.
pub struct KeyView {
    pub category: Seq<char>,
    pub name: Seq<char>,
    pub ping: Seq<char>,
}

impl View for StorageKey {
    type V = KeyView;

    open spec fn view(&self) -> KeyView {
        KeyView { category: self.category@, name: self.name@, ping: self.ping@ }
    }
}

impl StorageKey {
    /// The key of the metric `category`.`name` in the ping `ping`.
    pub fn new(category: &str, name: &str, ping: &str) -> (key: Self)
        ensures
            key@ == (KeyView { category: category@, name: name@, ping: ping@ }),
    {
        StorageKey {
            category: String::from_str(category),
            name: String::from_str(name),
            ping: String::from_str(ping),
        }
    }

    /// Whether `self` and `other` name the same place.
    pub fn same(&self, other: &StorageKey) -> (equal: bool)
        ensures
            equal == (self@ == other@),
    {
        self.category == other.category && self.name == other.name && self.ping == other.ping
    }
}

/// A lifetime and a key within it: one place of the store.
pub type Slot = (Lifetime, KeyView);

/// What a store holds: the metric value at each occupied place, and the
/// record of each active experiment by its id.
pub struct StoreView {
    pub metrics: Map<Slot, MetricValue>,
    pub experiments: Map<Seq<char>, ExperimentView>,
}

impl StoreView {
    /// The store that holds nothing.
    pub open spec fn empty() -> StoreView {
        StoreView { metrics: Map::empty(), experiments: Map::empty() }
    }

    /// The value at the place of `key` under `lifetime`, if there is one.
    pub open spec fn read(self, lifetime: Lifetime, key: KeyView) -> Option<MetricValue> {
        if self.metrics.contains_key((lifetime, key)) {
            Some(self.metrics[(lifetime, key)])
        } else {
            None
        }
    }

    /// The store after `value` is written at the place of `key` under
    /// `lifetime`.
    pub open spec fn write(self, lifetime: Lifetime, key: KeyView, value: MetricValue) -> StoreView {
        StoreView { metrics: self.metrics.insert((lifetime, key), value), ..self }
    }

    /// The store after everything under `lifetime` is removed.
    pub open spec fn clear(self, lifetime: Lifetime) -> StoreView {
        StoreView {
            metrics: Map::new(
                |slot: Slot| self.metrics.contains_key(slot) && slot.0 != lifetime,
                |slot: Slot| self.metrics[slot],
            ),
            ..self
        }
    }

    /// The store after the experiment `id` is marked active on `branch` with
    /// `extra`; id, branch and extra data are cut to their bounds.
    pub open spec fn set_experiment_active(
        self,
        id: Seq<char>,
        branch: Seq<char>,
        extra: Option<ExtraView>,
    ) -> StoreView {
        StoreView {
            experiments: self.experiments.insert(
                truncated(id, MAX_EXPERIMENTS_IDS_LEN as nat),
                normalized_record(branch, extra),
            ),
            ..self
        }
    }

    /// The store after the experiment `id` is marked inactive.
    pub open spec fn set_experiment_inactive(self, id: Seq<char>) -> StoreView {
        StoreView {
            experiments: self.experiments.remove(truncated(id, MAX_EXPERIMENTS_IDS_LEN as nat)),
            ..self
        }
    }

    /// Whether the experiment `id` is active.
    pub open spec fn is_experiment_active(self, id: Seq<char>) -> bool {
        self.experiments.contains_key(truncated(id, MAX_EXPERIMENTS_IDS_LEN as nat))
    }

    /// The record of the experiment `id`, if it is active.
    pub open spec fn experiment(self, id: Seq<char>) -> Option<ExperimentView> {
        if self.is_experiment_active(id) {
            Some(self.experiments[truncated(id, MAX_EXPERIMENTS_IDS_LEN as nat)])
        } else {
            None
        }
    }

    /// The store after each metric of `items` is written, in order.
    pub open spec fn with_metrics(self, items: Seq<MetricItem>) -> StoreView {
        StoreView { metrics: inserted_all(self.metrics, items), ..self }
    }

    /// The store after each experiment of `items` is marked active, in
    /// order.
    pub open spec fn with_experiments(self, items: Seq<ExperimentItem>) -> StoreView
        decreases items.len(),
    {
        if items.len() == 0 {
            self
        } else {
            self.with_experiments(items.drop_last()).set_experiment_active(
                items.last().0,
                items.last().1,
                items.last().2,
            )
        }
    }

    /// The store that the image `bytes` describes, where `bytes` is an
    /// image: the empty store with the listed metrics written and the listed
    /// experiments marked active.
    pub open spec fn of_image(bytes: Seq<u8>) -> Option<StoreView> {
        match image_at(bytes) {
            Some((metrics, experiments)) => Some(
                StoreView::empty().with_metrics(metrics).with_experiments(experiments),
            ),
            None => None,
        }
    }

    /// Every experiment's id and record are within the bounds.
    pub open spec fn experiments_bounded(self) -> bool {
        forall|id: Seq<char>| #[trigger]
            self.experiments.contains_key(id) ==> id.len() <= MAX_EXPERIMENTS_IDS_LEN
                && record_bounded(self.experiments[id])
    }
}

/// What is written at a place is read back from it, and no other place and
/// no experiment changes.
pub proof fn lemma_write_then_read(
    store: StoreView,
    lifetime: Lifetime,
    key: KeyView,
    value: MetricValue,
    other_lifetime: Lifetime,
    other_key: KeyView,
)
    ensures
        store.write(lifetime, key, value).read(lifetime, key) == Some(value),
        (other_lifetime, other_key) != (lifetime, key) ==> store.write(lifetime, key, value).read(
            other_lifetime,
            other_key,
        ) == store.read(other_lifetime, other_key),
        store.write(lifetime, key, value).experiments == store.experiments,
{
}

/// Clearing a lifetime removes every value under it and nothing else, and
/// clearing it again changes nothing.
pub proof fn lemma_clear(store: StoreView, lifetime: Lifetime, other: Lifetime, key: KeyView)
    ensures
        store.clear(lifetime).read(lifetime, key) is None,
        other != lifetime ==> store.clear(lifetime).read(other, key) == store.read(other, key),
        store.clear(lifetime).experiments == store.experiments,
        store.clear(lifetime).clear(lifetime) == store.clear(lifetime),
{
    assert(store.clear(lifetime).clear(lifetime).metrics =~= store.clear(lifetime).metrics);
}

/// The empty store has no value at any place and no active experiment.
pub proof fn lemma_empty_store(lifetime: Lifetime, key: KeyView, id: Seq<char>)
    ensures
        StoreView::empty().read(lifetime, key) is None,
        !StoreView::empty().is_experiment_active(id),
        StoreView::empty().experiment(id) is None,
{
}

/// An experiment marked active is found under the first 30 characters of
/// its id, with the first 30 characters of its branch; where either has no
/// more than 30 characters, it is kept whole. Ids that agree in their first
/// 30 characters name one experiment.
pub proof fn lemma_active_experiment(
    store: StoreView,
    id: Seq<char>,
    branch: Seq<char>,
    extra: Option<ExtraView>,
    other: Seq<char>,
)
    ensures
        store.set_experiment_active(id, branch, extra).experiment(id) == Some(
            normalized_record(branch, extra),
        ),
        record_bounded(normalized_record(branch, extra)),
        id.len() > MAX_EXPERIMENTS_IDS_LEN ==> store.set_experiment_active(
            id,
            branch,
            extra,
        ).experiments.contains_key(id.subrange(0, MAX_EXPERIMENTS_IDS_LEN as int)),
        branch.len() > MAX_EXPERIMENTS_IDS_LEN ==> store.set_experiment_active(
            id,
            branch,
            extra,
        ).experiment(id)->Some_0.branch == branch.subrange(0, MAX_EXPERIMENTS_IDS_LEN as int),
        id.len() <= MAX_EXPERIMENTS_IDS_LEN ==> store.set_experiment_active(
            id,
            branch,
            extra,
        ).experiments.contains_key(id),
        truncated(other, MAX_EXPERIMENTS_IDS_LEN as nat) == truncated(
            id,
            MAX_EXPERIMENTS_IDS_LEN as nat,
        ) ==> store.set_experiment_active(id, branch, extra).experiment(other)
            == store.set_experiment_active(id, branch, extra).experiment(id),
        store.set_experiment_active(id, branch, extra).metrics == store.metrics,
        store.experiments_bounded() ==> store.set_experiment_active(
            id,
            branch,
            extra,
        ).experiments_bounded(),
{
    lemma_normalized_record(branch, extra);
}

/// An experiment marked inactive is no longer found, other experiments stay
/// as they are, and marking an experiment inactive that is not active
/// changes nothing.
pub proof fn lemma_inactive_experiment(store: StoreView, id: Seq<char>, other: Seq<char>)
    ensures
        !store.set_experiment_inactive(id).is_experiment_active(id),
        truncated(other, MAX_EXPERIMENTS_IDS_LEN as nat) != truncated(
            id,
            MAX_EXPERIMENTS_IDS_LEN as nat,
        ) ==> store.set_experiment_inactive(id).experiment(other) == store.experiment(other),
        !store.is_experiment_active(id) ==> store.set_experiment_inactive(id) == store,
        store.set_experiment_inactive(id).metrics == store.metrics,
{
    if !store.is_experiment_active(id) {
        assert(store.set_experiment_inactive(id).experiments =~= store.experiments);
    }
}

struct MetricEntry {
    lifetime: Lifetime,
    key: StorageKey,
    value: Metric,
}

struct ExperimentEntry {
    id: String,
    record: RecordedExperimentData,
}

spec fn metric_pairs(entries: Seq<MetricEntry>) -> Seq<(Slot, MetricValue)> {
    Seq::new(entries.len(), |i: int| ((entries[i].lifetime, entries[i].key@), entries[i].value@))
}

spec fn experiment_pairs(entries: Seq<ExperimentEntry>) -> Seq<(Seq<char>, ExperimentView)> {
    Seq::new(entries.len(), |i: int| (entries[i].id@, entries[i].record@))
}

/// The store of one installation.
pub struct Store {
    metrics: Vec<MetricEntry>,
    experiments: Vec<ExperimentEntry>,
}

impl View for Store {
    type V = StoreView;

    closed spec fn view(&self) -> StoreView {
        StoreView {
            metrics: as_map(metric_pairs(self.metrics@)),
            experiments: as_map(experiment_pairs(self.experiments@)),
        }
    }
}

impl Store {
    /// The store is well formed: no place and no experiment id is held
    /// twice, and every experiment is within the bounds.
    pub closed spec fn wf(&self) -> bool {
        &&& distinct_keys(metric_pairs(self.metrics@))
        &&& distinct_keys(experiment_pairs(self.experiments@))
        &&& forall|i: int|
            0 <= i < self.experiments@.len() ==> (#[trigger] experiment_pairs(
                self.experiments@,
            )[i]).0.len() <= MAX_EXPERIMENTS_IDS_LEN && record_bounded(
                experiment_pairs(self.experiments@)[i].1,
            )
    }

    /// In a well-formed store every experiment's id and record are within
    /// the bounds.
    pub proof fn lemma_experiments_bounded(&self)
        requires
            self.wf(),
        ensures
            self@.experiments_bounded(),
    {
        let pairs = experiment_pairs(self.experiments@);
        assert forall|id: Seq<char>| #[trigger]
            self@.experiments.contains_key(id) implies id.len() <= MAX_EXPERIMENTS_IDS_LEN
            && record_bounded(self@.experiments[id]) by {
            let i = position(pairs, id);
            assert(pairs[i].0 == id);
        }
    }

    /// A store that holds nothing.
    pub fn new() -> (store: Store)
        ensures
            store.wf(),
            store@ == StoreView::empty(),
    {
        let store = Store { metrics: Vec::new(), experiments: Vec::new() };
        proof {
            lemma_empty::<Slot, MetricValue>();
            lemma_empty::<Seq<char>, ExperimentView>();
            assert(metric_pairs(store.metrics@) =~= Seq::empty());
            assert(experiment_pairs(store.experiments@) =~= Seq::empty());
        }
        store
    }

    fn find_metric(&self, lifetime: Lifetime, key: &StorageKey) -> (found: Option<usize>)
        ensures
            match found {
                Some(i) => i < self.metrics.len() && metric_pairs(self.metrics@)[i as int].0 == (
                    lifetime,
                    key@,
                ),
                None => !has_key(metric_pairs(self.metrics@), (lifetime, key@)),
            },
    {
        let mut i: usize = 0;
        while i < self.metrics.len()
            invariant
                i <= self.metrics.len(),
                forall|j: int|
                    0 <= j < i ==> (#[trigger] metric_pairs(self.metrics@)[j]).0 != (lifetime, key@),
            decreases self.metrics.len() - i,
        {
            if self.metrics[i].lifetime == lifetime && self.metrics[i].key.same(key) {
                return Some(i);
            }
            i = i + 1;
        }
        None
    }

    /// Writes `value` at the place of `key` under `lifetime`, over whatever
    /// stood there.
    pub fn write(&mut self, lifetime: Lifetime, key: StorageKey, value: Metric)
        requires
            old(self).wf(),
        ensures
            final(self).wf(),
            final(self)@ == old(self)@.write(lifetime, key@, value@),
    {
        let ghost before = metric_pairs(self.metrics@);
        proof {
            lemma_upsert(before, (lifetime, key@), value@);
        }
        match self.find_metric(lifetime, &key) {
            Some(at) => {
                proof {
                    lemma_found(before, at as int);
                }
                self.metrics[at] = MetricEntry { lifetime, key, value };
                assert(metric_pairs(self.metrics@) =~= upsert(before, (lifetime, key@), value@));
            },
            None => {
                self.metrics.push(MetricEntry { lifetime, key, value });
                assert(metric_pairs(self.metrics@) =~= upsert(before, (lifetime, key@), value@));
            },
        }
    }

    /// The value at the place of `key` under `lifetime`, or `None` where
    /// nothing was written there.
    pub fn read(&self, lifetime: Lifetime, key: &StorageKey) -> (value: Option<&Metric>)
        requires
            self.wf(),
        ensures
            match value {
                Some(v) => self@.read(lifetime, key@) == Some(v@),
                None => self@.read(lifetime, key@) is None,
            },
    {
        match self.find_metric(lifetime, key) {
            Some(at) => {
                proof {
                    lemma_found(metric_pairs(self.metrics@), at as int);
                }
                Some(&self.metrics[at].value)
            },
            None => None,
        }
    }

    /// Removes every value under `lifetime`.
    pub fn clear(&mut self, lifetime: Lifetime)
        requires
            old(self).wf(),
        ensures
            final(self).wf(),
            final(self)@ == old(self)@.clear(lifetime),
    {
        let ghost start = self@;
        let mut i: usize = 0;
        while i < self.metrics.len()
            invariant
                i <= self.metrics.len(),
                self.wf(),
                self@.experiments == start.experiments,
                forall|slot: Slot| #[trigger]
                    self@.metrics.contains_key(slot) ==> start.metrics.contains_key(slot)
                        && self@.metrics[slot] == start.metrics[slot],
                forall|slot: Slot| #[trigger]
                    start.metrics.contains_key(slot) && slot.0 != lifetime
                        ==> self@.metrics.contains_key(slot),
                forall|j: int|
                    0 <= j < i ==> (#[trigger] metric_pairs(self.metrics@)[j]).0.0 != lifetime,
            decreases self.metrics.len() - i,
        {
            let ghost pairs = metric_pairs(self.metrics@);
            if self.metrics[i].lifetime == lifetime {
                proof {
                    lemma_remove_at(pairs, i as int);
                }
                let ghost current = self@;
                self.metrics.remove(i);
                assert(metric_pairs(self.metrics@) =~= pairs.remove(i as int));
                assert(self@.metrics == current.metrics.remove(pairs[i as int].0));
                assert forall|slot: Slot| #[trigger]
                    self@.metrics.contains_key(slot) implies start.metrics.contains_key(slot)
                    && self@.metrics[slot] == start.metrics[slot] by {
                    assert(current.metrics.contains_key(slot));
                }
            } else {
                i = i + 1;
            }
        }
        proof {
            let pairs = metric_pairs(self.metrics@);
            assert forall|slot: Slot| #[trigger]
                self@.metrics.contains_key(slot) implies slot.0 != lifetime by {
                let j = position(pairs, slot);
                assert(pairs[j].0 == slot);
            }
            assert(self@.metrics =~= start.clear(lifetime).metrics);
        }
    }

    /// Removes everything: every value under every lifetime, and every
    /// experiment.
    pub fn clear_all(&mut self)
        requires
            old(self).wf(),
        ensures
            final(self).wf(),
            final(self)@ == StoreView::empty(),
    {
        self.metrics.clear();
        self.experiments.clear();
        proof {
            lemma_empty::<Slot, MetricValue>();
            lemma_empty::<Seq<char>, ExperimentView>();
            assert(metric_pairs(self.metrics@) =~= Seq::empty());
            assert(experiment_pairs(self.experiments@) =~= Seq::empty());
        }
    }

    fn find_experiment(&self, id: &String) -> (found: Option<usize>)
        ensures
            match found {
                Some(i) => i < self.experiments.len() && experiment_pairs(
                    self.experiments@,
                )[i as int].0 == id@,
                None => !has_key(experiment_pairs(self.experiments@), id@),
            },
    {
        let mut i: usize = 0;
        while i < self.experiments.len()
            invariant
                i <= self.experiments.len(),
                forall|j: int|
                    0 <= j < i ==> (#[trigger] experiment_pairs(self.experiments@)[j]).0 != id@,
            decreases self.experiments.len() - i,
        {
            if self.experiments[i].id == *id {
                return Some(i);
            }
            i = i + 1;
        }
        None
    }

    /// Marks the experiment `id` active on `branch`, with `extra` if given.
    /// The id and the branch are cut to 30 characters and the extra data to
    /// its bounds; a record already held under the cut id is replaced.
    pub fn set_experiment_active(
        &mut self,
        id: String,
        branch: String,
        extra: Option<Vec<(String, String)>>,
    )
        requires
            old(self).wf(),
        ensures
            final(self).wf(),
            final(self)@ == old(self)@.set_experiment_active(id@, branch@, extra_view(extra)),
    {
        let ghost before = experiment_pairs(self.experiments@);
        let ghost cut_id = truncated(id@, MAX_EXPERIMENTS_IDS_LEN as nat);
        let ghost kept = normalized_record(branch@, extra_view(extra));
        let id = truncate(id.as_str(), MAX_EXPERIMENTS_IDS_LEN);
        let record = RecordedExperimentData::new(branch, extra);
        proof {
            lemma_upsert(before, cut_id, kept);
        }
        match self.find_experiment(&id) {
            Some(at) => {
                proof {
                    lemma_found(before, at as int);
                }
                self.experiments[at] = ExperimentEntry { id, record };
                assert(experiment_pairs(self.experiments@) =~= upsert(before, cut_id, kept));
            },
            None => {
                self.experiments.push(ExperimentEntry { id, record });
                assert(experiment_pairs(self.experiments@) =~= upsert(before, cut_id, kept));
            },
        }
        proof {
            let after = experiment_pairs(self.experiments@);
            assert forall|i: int| 0 <= i < after.len() implies (#[trigger] after[i]).0.len()
                <= MAX_EXPERIMENTS_IDS_LEN && record_bounded(after[i].1) by {
                if after[i] != (cut_id, kept) {
                    assert(after[i] == before[i]);
                }
            }
        }
    }

    /// Marks the experiment `id` inactive: the record under the id, cut to
    /// 30 characters, is removed if there is one.
    pub fn set_experiment_inactive(&mut self, id: String)
        requires
            old(self).wf(),
        ensures
            final(self).wf(),
            final(self)@ == old(self)@.set_experiment_inactive(id@),
    {
        let ghost before = experiment_pairs(self.experiments@);
        let id = truncate(id.as_str(), MAX_EXPERIMENTS_IDS_LEN);
        match self.find_experiment(&id) {
            Some(at) => {
                proof {
                    lemma_remove_at(before, at as int);
                }
                self.experiments.remove(at);
                let ghost after = experiment_pairs(self.experiments@);
                assert(after =~= before.remove(at as int));
                assert forall|i: int| 0 <= i < after.len() implies (#[trigger] after[i]).0.len()
                    <= MAX_EXPERIMENTS_IDS_LEN && record_bounded(after[i].1) by {
                    if i < at {
                        assert(after[i] == before[i]);
                    } else {
                        assert(after[i] == before[i + 1]);
                    }
                }
            },
            None => {
                assert(self@.experiments =~= self@.experiments.remove(id@));
            },
        }
    }

    /// Whether the experiment `id`, cut to 30 characters, is active.
    pub fn is_experiment_active(&self, id: String) -> (active: bool)
        requires
            self.wf(),
        ensures
            active == self@.is_experiment_active(id@),
    {
        let id = truncate(id.as_str(), MAX_EXPERIMENTS_IDS_LEN);
        match self.find_experiment(&id) {
            Some(at) => {
                proof {
                    lemma_found(experiment_pairs(self.experiments@), at as int);
                }
                true
            },
            None => false,
        }
    }

    /// The record of the experiment `id`, cut to 30 characters, or `None`
    /// where it is not active.
    pub fn experiment(&self, id: String) -> (record: Option<&RecordedExperimentData>)
        requires
            self.wf(),
        ensures
            match record {
                Some(r) => self@.experiment(id@) == Some(r@) && record_bounded(r@),
                None => self@.experiment(id@) is None,
            },
    {
        let id = truncate(id.as_str(), MAX_EXPERIMENTS_IDS_LEN);
        match self.find_experiment(&id) {
            Some(at) => {
                proof {
                    lemma_found(experiment_pairs(self.experiments@), at as int);
                    assert(record_bounded(experiment_pairs(self.experiments@)[at as int].1));
                }
                Some(&self.experiments[at].record)
            },
            None => None,
        }
    }
}

spec fn experiment_items(entries: Seq<ExperimentEntry>) -> Seq<ExperimentItem> {
    Seq::new(
        entries.len(),
        |i: int| (entries[i].id@, entries[i].record@.branch, entries[i].record@.extra),
    )
}

/// Marking bounded experiments with distinct ids active, one after the
/// other, lists exactly them.
proof fn lemma_with_experiments(entries: Seq<ExperimentEntry>)
    requires
        distinct_keys(experiment_pairs(entries)),
        forall|i: int|
            0 <= i < entries.len() ==> (#[trigger] experiment_pairs(entries)[i]).0.len()
                <= MAX_EXPERIMENTS_IDS_LEN && record_bounded(experiment_pairs(entries)[i].1),
    ensures
        StoreView::empty().with_experiments(experiment_items(entries)) == (StoreView {
            metrics: Map::empty(),
            experiments: inserted_all(Map::empty(), experiment_pairs(entries)),
        }),
    decreases entries.len(),
{
    let items = experiment_items(entries);
    let pairs = experiment_pairs(entries);
    if entries.len() > 0 {
        let front = entries.drop_last();
        assert(experiment_items(front) =~= items.drop_last());
        assert(experiment_pairs(front) =~= pairs.drop_last());
        assert forall|i: int, j: int| 0 <= i < j < front.len() implies (
        #[trigger] experiment_pairs(front)[i]).0 != (#[trigger] experiment_pairs(front)[j]).0 by {
            assert(experiment_pairs(front)[i] == pairs[i]);
            assert(experiment_pairs(front)[j] == pairs[j]);
        }
        assert forall|i: int| 0 <= i < front.len() implies (#[trigger] experiment_pairs(
            front,
        )[i]).0.len() <= MAX_EXPERIMENTS_IDS_LEN && record_bounded(
            experiment_pairs(front)[i].1,
        ) by {
            assert(experiment_pairs(front)[i] == pairs[i]);
        }
        lemma_with_experiments(front);
        let last = pairs[pairs.len() - 1];
        assert(last.0.len() <= MAX_EXPERIMENTS_IDS_LEN && record_bounded(last.1));
        lemma_bounded_record_kept(last.1);
        assert(items.last() == (last.0, last.1.branch, last.1.extra));
        assert(pairs.last() == last);
    }
}

impl Store {
    fn put_metrics(&self, out: &mut Vec<u8>)
        ensures
            final(out)@ == old(out)@ + list_bytes(metric_writer(), metric_pairs(self.metrics@)),
            forall|j: int|
                0 <= j < self.metrics@.len() ==> metric_item_fits(
                    #[trigger] metric_pairs(self.metrics@)[j],
                ),
    {
        let ghost metrics = metric_pairs(self.metrics@);
        let ghost head = out@;
        let mut i: usize = 0;
        assert(metrics.subrange(0, 0) =~= Seq::empty());
        assert(out@ =~= head + list_bytes(metric_writer(), metrics.subrange(0, 0)));
        while i < self.metrics.len()
            invariant
                i <= self.metrics.len(),
                metrics == metric_pairs(self.metrics@),
                out@ == head + list_bytes(metric_writer(), metrics.subrange(0, i as int)),
                forall|j: int| 0 <= j < i ==> metric_item_fits(#[trigger] metrics[j]),
            decreases self.metrics.len() - i,
        {
            let entry = &self.metrics[i];
            put_metric_item(out, entry.lifetime, &entry.key, &entry.value);
            proof {
                let done = metrics.subrange(0, i as int);
                lemma_list_bytes_push(metric_writer(), done, metrics[i as int]);
                assert(done.push(metrics[i as int]) =~= metrics.subrange(0, i + 1));
                assert(out@ =~= head + list_bytes(metric_writer(), metrics.subrange(0, i + 1)));
            }
            i = i + 1;
        }
        assert(metrics.subrange(0, metrics.len() as int) =~= metrics);
    }

    fn put_experiments(&self, out: &mut Vec<u8>)
        ensures
            final(out)@ == old(out)@ + list_bytes(
                experiment_writer(),
                experiment_items(self.experiments@),
            ),
            forall|j: int|
                0 <= j < self.experiments@.len() ==> experiment_item_fits(
                    #[trigger] experiment_items(self.experiments@)[j],
                ),
    {
        let ghost experiments = experiment_items(self.experiments@);
        let ghost head = out@;
        let mut k: usize = 0;
        assert(experiments.subrange(0, 0) =~= Seq::empty());
        assert(out@ =~= head + list_bytes(experiment_writer(), experiments.subrange(0, 0)));
        while k < self.experiments.len()
            invariant
                k <= self.experiments.len(),
                experiments == experiment_items(self.experiments@),
                out@ == head + list_bytes(experiment_writer(), experiments.subrange(0, k as int)),
                forall|j: int| 0 <= j < k ==> experiment_item_fits(#[trigger] experiments[j]),
            decreases self.experiments.len() - k,
        {
            let entry = &self.experiments[k];
            put_experiment_item(
                out,
                entry.id.as_str(),
                entry.record.branch(),
                entry.record.extra(),
            );
            proof {
                let done = experiments.subrange(0, k as int);
                lemma_list_bytes_push(experiment_writer(), done, experiments[k as int]);
                assert(done.push(experiments[k as int]) =~= experiments.subrange(0, k + 1));
                assert(out@ =~= head + list_bytes(
                    experiment_writer(),
                    experiments.subrange(0, k + 1),
                ));
            }
            k = k + 1;
        }
        assert(experiments.subrange(0, experiments.len() as int) =~= experiments);
    }

    /// The image written from the entries of a well-formed store describes
    /// that store.
    proof fn lemma_image_of_store(&self)
        requires
            self.wf(),
            image_fits(metric_pairs(self.metrics@), experiment_items(self.experiments@)),
        ensures
            StoreView::of_image(
                image_bytes(metric_pairs(self.metrics@), experiment_items(self.experiments@)),
            ) == Some(self@),
    {
        let metrics = metric_pairs(self.metrics@);
        let experiments = experiment_items(self.experiments@);
        lemma_image_at(metrics, experiments);
        lemma_inserted_all(metrics);
        lemma_with_experiments(self.experiments@);
        lemma_inserted_all(experiment_pairs(self.experiments@));
        let filled = StoreView::empty().with_metrics(metrics);
        lemma_with_experiments_from(filled, experiments);
        assert(filled.with_experiments(experiments).metrics == self@.metrics);
        assert(filled.with_experiments(experiments).experiments == self@.experiments);
    }

    /// Writes the store as an image, from which [`Store::from_bytes`] makes
    /// the same store again.
    pub fn to_bytes(&self) -> (image: Vec<u8>)
        requires
            self.wf(),
        ensures
            StoreView::of_image(image@) == Some(self@),
    {
        let mut out: Vec<u8> = Vec::new();
        out.push(71);
        out.push(76);
        out.push(69);
        out.push(65);
        out.push(78);
        out.push(1);
        assert(out@ =~= header());
        put_u64(&mut out, self.metrics.len() as u64);
        self.put_metrics(&mut out);
        put_u64(&mut out, self.experiments.len() as u64);
        self.put_experiments(&mut out);
        proof {
            self.lemma_image_of_store();
        }
        out
    }

    fn load_metrics(&mut self, bytes: &[u8], pos: usize, count: u64) -> (end: Option<usize>)
        requires
            old(self).wf(),
            pos <= bytes@.len(),
        ensures
            final(self).wf(),
            match end {
                Some(stop) => stop <= bytes@.len() && exists|items: Seq<MetricItem>|
                    #![auto]
                    list_at(metric_reader(), bytes@, pos as int, count as nat) == Some(
                        (items, stop as int),
                    ) && final(self)@ == old(self)@.with_metrics(items),
                None => list_at(metric_reader(), bytes@, pos as int, count as nat) is None,
            },
    {
        let ghost start = self@;
        let ghost mut done: Seq<MetricItem> = Seq::empty();
        let mut at: usize = pos;
        let mut i: u64 = 0;
        while i < count
            invariant
                i <= count,
                at <= bytes@.len(),
                self.wf(),
                self@ == start.with_metrics(done),
                list_at(metric_reader(), bytes@, pos as int, count as nat) == match list_at(
                    metric_reader(),
                    bytes@,
                    at as int,
                    (count - i) as nat,
                ) {
                    Some((rest, stop)) => Some((done + rest, stop)),
                    None => None,
                },
            decreases count - i,
        {
            match take_metric_item(bytes, at) {
                Some((lifetime, key, value, next)) => {
                    proof {
                        let item = ((lifetime, key@), value@);
                        match list_at(metric_reader(), bytes@, next as int, (count - i - 1) as nat) {
                            Some((rest, stop)) => {
                                assert(done + (seq![item] + rest) =~= done.push(item) + rest);
                            },
                            None => {},
                        }
                        assert(done.push(item).drop_last() =~= done);
                        done = done.push(item);
                    }
                    self.write(lifetime, key, value);
                    at = next;
                    i = i + 1;
                },
                None => {
                    return None;
                },
            }
        }
        assert(done + Seq::empty() =~= done);
        Some(at)
    }

    fn load_experiments(&mut self, bytes: &[u8], pos: usize, count: u64) -> (end: Option<usize>)
        requires
            old(self).wf(),
            pos <= bytes@.len(),
        ensures
            final(self).wf(),
            match end {
                Some(stop) => stop <= bytes@.len() && exists|items: Seq<ExperimentItem>|
                    #![auto]
                    list_at(experiment_reader(), bytes@, pos as int, count as nat) == Some(
                        (items, stop as int),
                    ) && final(self)@ == old(self)@.with_experiments(items),
                None => list_at(experiment_reader(), bytes@, pos as int, count as nat) is None,
            },
    {
        let ghost start = self@;
        let ghost mut done: Seq<ExperimentItem> = Seq::empty();
        let mut at: usize = pos;
        let mut i: u64 = 0;
        while i < count
            invariant
                i <= count,
                at <= bytes@.len(),
                self.wf(),
                self@ == start.with_experiments(done),
                list_at(experiment_reader(), bytes@, pos as int, count as nat) == match list_at(
                    experiment_reader(),
                    bytes@,
                    at as int,
                    (count - i) as nat,
                ) {
                    Some((rest, stop)) => Some((done + rest, stop)),
                    None => None,
                },
            decreases count - i,
        {
            match take_experiment_item(bytes, at) {
                Some((id, branch, extra, next)) => {
                    proof {
                        let item = (id@, branch@, extra_view(extra));
                        match list_at(
                            experiment_reader(),
                            bytes@,
                            next as int,
                            (count - i - 1) as nat,
                        ) {
                            Some((rest, stop)) => {
                                assert(done + (seq![item] + rest) =~= done.push(item) + rest);
                            },
                            None => {},
                        }
                        assert(done.push(item).drop_last() =~= done);
                        done = done.push(item);
                    }
                    self.set_experiment_active(id, branch, extra);
                    at = next;
                    i = i + 1;
                },
                None => {
                    return None;
                },
            }
        }
        assert(done + Seq::empty() =~= done);
        Some(at)
    }

    /// Opens the store that the image `bytes` describes. Bytes that are no
    /// image are refused: the store they were to describe cannot be
    /// initialized.
    pub fn from_bytes(bytes: &[u8]) -> (opened: Result<Store, Error>)
        ensures
            match opened {
                Ok(store) => store.wf() && StoreView::of_image(bytes@) == Some(store@),
                Err(e) => e == Error::Initialization && StoreView::of_image(bytes@) is None,
            },
    {
        if !starts_with_header(bytes) {
            return Err(Error::Initialization);
        }
        let mut store = Store::new();
        let (metric_count, i1) = match take_u64(bytes, 6) {
            Some(read) => read,
            None => {
                return Err(Error::Initialization);
            },
        };
        let i2 = match store.load_metrics(bytes, i1, metric_count) {
            Some(end) => end,
            None => {
                return Err(Error::Initialization);
            },
        };
        let (experiment_count, i3) = match take_u64(bytes, i2) {
            Some(read) => read,
            None => {
                return Err(Error::Initialization);
            },
        };
        let end = match store.load_experiments(bytes, i3, experiment_count) {
            Some(end) => end,
            None => {
                return Err(Error::Initialization);
            },
        };
        if end != bytes.len() {
            return Err(Error::Initialization);
        }
        Ok(store)
    }
}

/// Marking experiments active leaves the metrics as they are, and the
/// experiments do not depend on the metrics.
proof fn lemma_with_experiments_from(store: StoreView, items: Seq<ExperimentItem>)
    ensures
        store.with_experiments(items).metrics == store.metrics,
        store.experiments == Map::<Seq<char>, ExperimentView>::empty() ==> store.with_experiments(
            items,
        ).experiments == StoreView::empty().with_experiments(items).experiments,
    decreases items.len(),
{
    if items.len() > 0 {
        lemma_with_experiments_from(store, items.drop_last());
    }
}

/// Whether `bytes` begins with the header of an image.
fn starts_with_header(bytes: &[u8]) -> (found: bool)
    ensures
        found == holds_at(bytes@, 0, header()),
        found ==> bytes@.len() >= 6,
{
    if bytes.len() < 6 {
        return false;
    }
    let found = bytes[0] == 71 && bytes[1] == 76 && bytes[2] == 69 && bytes[3] == 65 && bytes[4]
        == 78 && bytes[5] == 1;
    proof {
        let window = bytes@.subrange(0, 6);
        if found {
            assert(window =~= header());
        } else {
            assert(window[0] == bytes@[0]);
            assert(window[1] == bytes@[1]);
            assert(window[2] == bytes@[2]);
            assert(window[3] == bytes@[3]);
            assert(window[4] == bytes@[4]);
            assert(window[5] == bytes@[5]);
        }
    }
    found
}

} // verus!
