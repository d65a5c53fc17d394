//! Metrics as the instrumentation sees them: what every metric has in common,
//! and the string metric.

use vstd::prelude::*;
use vstd::string::*;
use crate::glean::{Glean, GleanView};
use crate::identity::{is_identity_slot, string_at};
use crate::storage::{KeyView, Lifetime, Metric, MetricValue, StorageKey};

verus! {

/// What every metric has: a category and a name, the pings it is sent in,
/// and a lifetime.
pub struct CommonMetricData {
    pub category: String,
    pub name: String,
    pub send_in_pings: Vec<String>,
    pub lifetime: Lifetime,
}

/// The names in `pings` as character sequences.
pub open spec fn ping_names(pings: Seq<String>) -> Seq<Seq<char>> {
    Seq::new(pings.len(), |i: int| pings[i]@)
}

/// The controller after `value` went through the write gate once for each
/// ping of `pings`, in order, for the metric `category`.`name` under
/// `lifetime`.
pub open spec fn recorded(
    glean: GleanView,
    lifetime: Lifetime,
    category: Seq<char>,
    name: Seq<char>,
    pings: Seq<Seq<char>>,
    value: MetricValue,
) -> GleanView
    decreases pings.len(),
{
    if pings.len() == 0 {
        glean
    } else {
        recorded(glean, lifetime, category, name, pings.drop_last(), value).record(
            lifetime,
            KeyView { category, name, ping: pings.last() },
            value,
        )
    }
}

/// Setting a metric in its pings changes neither the upload setting, nor
/// the application id, nor the experiments, nor any place but those of the
/// metric in its pings. While the upload is disabled it changes nothing; while
/// it is enabled, each of those places that is not one of the identity's
/// holds the value afterwards.
pub proof fn lemma_recorded(
    glean: GleanView,
    lifetime: Lifetime,
    category: Seq<char>,
    name: Seq<char>,
    pings: Seq<Seq<char>>,
    value: MetricValue,
)
    ensures
        recorded(glean, lifetime, category, name, pings, value).upload_enabled
            == glean.upload_enabled,
        recorded(glean, lifetime, category, name, pings, value).application_id
            == glean.application_id,
        recorded(glean, lifetime, category, name, pings, value).store.experiments
            == glean.store.experiments,
        !glean.upload_enabled ==> recorded(glean, lifetime, category, name, pings, value) == glean,
        forall|other: Lifetime, key: KeyView|
            !(other == lifetime && key.category == category && key.name == name && pings.contains(
                key.ping,
            )) ==> #[trigger] recorded(glean, lifetime, category, name, pings, value).store.read(
                other,
                key,
            ) == glean.store.read(other, key),
        forall|ping: Seq<char>|
            glean.upload_enabled && #[trigger] pings.contains(ping) && !is_identity_slot(
                (lifetime, KeyView { category, name, ping }),
            ) ==> recorded(glean, lifetime, category, name, pings, value).store.read(
                lifetime,
                KeyView { category, name, ping },
            ) == Some(value),
        recorded(glean, lifetime, category, name, pings, value).client_id() == glean.client_id(),
        recorded(glean, lifetime, category, name, pings, value).first_run_date()
            == glean.first_run_date(),
        glean.initialized() ==> recorded(
            glean,
            lifetime,
            category,
            name,
            pings,
            value,
        ).initialized(),
    decreases pings.len(),
{
    if pings.len() > 0 {
        let front = pings.drop_last();
        let before = recorded(glean, lifetime, category, name, front, value);
        let after = recorded(glean, lifetime, category, name, pings, value);
        lemma_recorded(glean, lifetime, category, name, front, value);
        assert forall|other: Lifetime, key: KeyView|
            !(other == lifetime && key.category == category && key.name == name && pings.contains(
                key.ping,
            )) implies #[trigger] after.store.read(other, key) == glean.store.read(other, key) by {
            if other == lifetime && key.category == category && key.name == name {
                if front.contains(key.ping) {
                    let i = choose|i: int| 0 <= i < front.len() && front[i] == key.ping;
                    assert(pings[i] == key.ping);
                }
                assert(pings[pings.len() - 1] == pings.last());
            }
            assert(before.store.read(other, key) == glean.store.read(other, key));
        }
        assert forall|ping: Seq<char>|
            glean.upload_enabled && #[trigger] pings.contains(ping) && !is_identity_slot(
                (lifetime, KeyView { category, name, ping }),
            ) implies after.store.read(lifetime, KeyView { category, name, ping }) == Some(
            value,
        ) by {
            if ping != pings.last() {
                let i = choose|i: int| 0 <= i < pings.len() && pings[i] == ping;
                assert(front[i] == ping);
                assert(front.contains(ping));
            }
        }
    }
}

impl CommonMetricData {
    /// The data of the metric `category`.`name`, sent in the ping
    /// `ping_name` and kept for the lifetime of a ping.
    pub fn new(category: &str, name: &str, ping_name: &str) -> (meta: Self)
        ensures
            meta.category@ == category@,
            meta.name@ == name@,
            ping_names(meta.send_in_pings@) == seq![ping_name@],
            meta.lifetime == Lifetime::Ping,
    {
        let mut send_in_pings: Vec<String> = Vec::new();
        send_in_pings.push(String::from_str(ping_name));
        let meta = CommonMetricData {
            category: String::from_str(category),
            name: String::from_str(name),
            send_in_pings,
            lifetime: Lifetime::Ping,
        };
        assert(ping_names(meta.send_in_pings@) =~= seq![ping_name@]);
        meta
    }

    /// The storage key of the metric in the ping `ping_name`.
    pub fn storage_key(&self, ping_name: &str) -> (key: StorageKey)
        ensures
            key@ == (KeyView { category: self.category@, name: self.name@, ping: ping_name@ }),
    {
        StorageKey::new(self.category.as_str(), self.name.as_str(), ping_name)
    }
}

/// A metric that holds a string.
pub struct StringMetric {
    pub meta: CommonMetricData,
}

impl StringMetric {
    /// The string metric described by `meta`.
    pub fn new(meta: CommonMetricData) -> (metric: Self)
        ensures
            metric.meta == meta,
    {
        StringMetric { meta }
    }

    /// Sets the metric to `value` in each of its pings, through the write
    /// gate of `glean`: nothing is written while the upload is disabled.
    pub fn set(&self, glean: &mut Glean, value: &str)
        requires
            old(glean).wf(),
        ensures
            final(glean).wf(),
            final(glean)@ == recorded(
                old(glean)@,
                self.meta.lifetime,
                self.meta.category@,
                self.meta.name@,
                ping_names(self.meta.send_in_pings@),
                MetricValue::String(value@),
            ),
            final(glean)@.upload_enabled == old(glean)@.upload_enabled,
            !old(glean)@.upload_enabled ==> final(glean)@ == old(glean)@,
            old(glean)@.initialized() ==> final(glean)@.initialized(),
    {
        proof {
            lemma_recorded(
                glean@,
                self.meta.lifetime,
                self.meta.category@,
                self.meta.name@,
                ping_names(self.meta.send_in_pings@),
                MetricValue::String(value@),
            );
        }
        let ghost start = glean@;
        let ghost pings = ping_names(self.meta.send_in_pings@);
        let mut i: usize = 0;
        assert(pings.subrange(0, 0) =~= Seq::empty());
        while i < self.meta.send_in_pings.len()
            invariant
                i <= self.meta.send_in_pings.len(),
                glean.wf(),
                pings == ping_names(self.meta.send_in_pings@),
                glean@ == recorded(
                    start,
                    self.meta.lifetime,
                    self.meta.category@,
                    self.meta.name@,
                    pings.subrange(0, i as int),
                    MetricValue::String(value@),
                ),
            decreases self.meta.send_in_pings.len() - i,
        {
            proof {
                let next = pings.subrange(0, i + 1);
                assert(next.drop_last() =~= pings.subrange(0, i as int));
                assert(next.last() == pings[i as int]);
            }
            let key = self.meta.storage_key(self.meta.send_in_pings[i].as_str());
            glean.record(self.meta.lifetime, key, Metric::String(String::from_str(value)));
            i = i + 1;
        }
        assert(pings.subrange(0, pings.len() as int) =~= pings);
    }

    /// The string stored for the metric in the ping `storage_name`, if one
    /// is stored.
    pub fn test_get_value(&self, glean: &Glean, storage_name: &str) -> (value: Option<String>)
        requires
            glean.wf(),
        ensures
            match value {
                Some(s) => Some(s@),
                None => None,
            } == string_at(
                glean@.store,
                self.meta.lifetime,
                KeyView { category: self.meta.category@, name: self.meta.name@, ping: storage_name@ },
            ),
    {
        let key = self.meta.storage_key(storage_name);
        match glean.read(self.meta.lifetime, &key) {
            Some(Metric::String(s)) => Some(s.clone()),
            _ => None,
        }
    }
}

} // verus!
