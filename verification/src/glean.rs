//! The lifecycle controller: it owns the store, initializes the identity,
//! governs the upload setting and gates every metric write by it.

use vstd::prelude::*;
use vstd::string::*;
use crate::date::Date;
use crate::error::Error;
use crate::experiments::{extra_view, ExtraView};
use crate::identity::{
    client_id_key, client_id_storage_key, disabled_store, first_run_date_storage_key, identity_fits,
    initialized_store, is_identity, is_identity_slot, known_client_id, lemma_identity_keys_differ,
    stored_client_id, stored_first_run_date, string_at, with_client_id,
    FreshId, KNOWN_CLIENT_ID,
};
use crate::path::{make_path, submission_path};
use crate::serialize::{serialize_record, serialized_record};
use crate::storage::{KeyView, Lifetime, Metric, MetricValue, StorageKey, Store, StoreView};

verus! {

/// What a controller holds: the upload setting, the application id and the
/// store.
pub struct GleanView {
    pub upload_enabled: bool,
    pub application_id: Seq<char>,
    pub store: StoreView,
}

impl GleanView {
    /// The controller that initialization makes of `store`.
    pub open spec fn initialize(
        store: StoreView,
        application_id: Seq<char>,
        upload_enabled: bool,
        fresh: Seq<char>,
        today: Seq<char>,
    ) -> GleanView {
        GleanView {
            upload_enabled,
            application_id,
            store: initialized_store(store, upload_enabled, fresh, today),
        }
    }

    /// The identity is there and fits the upload setting.
    pub open spec fn initialized(self) -> bool {
        identity_fits(self.store, self.upload_enabled)
    }

    /// The client id, if the store holds one.
    pub open spec fn client_id(self) -> Option<Seq<char>> {
        stored_client_id(self.store)
    }

    /// The first-run date, if the store holds one.
    pub open spec fn first_run_date(self) -> Option<Seq<char>> {
        stored_first_run_date(self.store)
    }

    /// The controller after the upload setting is set to `flag`. Setting it
    /// to what it is changes nothing. Disabling clears the ping and
    /// application lifetimes and writes the known client id; enabling writes
    /// the client id `fresh`.
    pub open spec fn set_upload_enabled(self, flag: bool, fresh: Seq<char>) -> GleanView {
        if flag == self.upload_enabled {
            self
        } else if flag {
            GleanView { upload_enabled: true, store: with_client_id(self.store, fresh), ..self }
        } else {
            GleanView { upload_enabled: false, store: disabled_store(self.store), ..self }
        }
    }

    /// Whether a metric write at `key` under `lifetime` is accepted: the
    /// upload is enabled, and the place is not one of the identity's.
    pub open spec fn accepts(self, lifetime: Lifetime, key: KeyView) -> bool {
        self.upload_enabled && !is_identity_slot((lifetime, key))
    }

    /// The controller after a metric write of `value` at `key` under
    /// `lifetime`: the write takes place where it is accepted, and nothing
    /// changes where it is not.
    pub open spec fn record(self, lifetime: Lifetime, key: KeyView, value: MetricValue) -> GleanView {
        if self.accepts(lifetime, key) {
            GleanView { store: self.store.write(lifetime, key, value), ..self }
        } else {
            self
        }
    }

    /// The controller after the experiment `id` is marked active.
    pub open spec fn set_experiment_active(
        self,
        id: Seq<char>,
        branch: Seq<char>,
        extra: Option<ExtraView>,
    ) -> GleanView {
        GleanView { store: self.store.set_experiment_active(id, branch, extra), ..self }
    }

    /// The controller after the experiment `id` is marked inactive.
    pub open spec fn set_experiment_inactive(self, id: Seq<char>) -> GleanView {
        GleanView { store: self.store.set_experiment_inactive(id), ..self }
    }

    /// The controller after everything in its store is removed.
    pub open spec fn clear_all(self) -> GleanView {
        GleanView { store: StoreView::empty(), ..self }
    }
}

/// The controller of one installation.
pub struct Glean {
    upload_enabled: bool,
    application_id: String,
    data_store: Store,
}

impl View for Glean {
    type V = GleanView;

    closed spec fn view(&self) -> GleanView {
        GleanView {
            upload_enabled: self.upload_enabled,
            application_id: self.application_id@,
            store: self.data_store@,
        }
    }
}

impl Glean {
    /// The controller is well formed: its store is.
    pub closed spec fn wf(&self) -> bool {
        self.data_store.wf()
    }

    /// In a well-formed controller every experiment's id and record are
    /// within the bounds.
    pub proof fn lemma_experiments_bounded(&self)
        requires
            self.wf(),
        ensures
            self@.store.experiments_bounded(),
    {
        self.data_store.lemma_experiments_bounded();
    }

    /// Opens the controller of the application `application_id` on what was
    /// persisted of its store: `image` is the image last written, or `None`
    /// where nothing was written yet, which gives an empty store. The
    /// identity is then initialized as by [`Glean::with_store`].
    ///
    /// Fails where `image` is no image of a store.
    pub fn with_options(
        image: Option<&[u8]>,
        application_id: &str,
        upload_enabled: bool,
        fresh_id: FreshId,
        today: Date,
    ) -> (opened: Result<Glean, Error>)
        ensures
            match opened {
                Ok(glean) => glean.wf() && glean@.initialized() && Some(glean@) == (match image {
                    Some(bytes) => match StoreView::of_image(bytes@) {
                        Some(store) => Some(
                            GleanView::initialize(
                                store,
                                application_id@,
                                upload_enabled,
                                fresh_id@,
                                today@.text(),
                            ),
                        ),
                        None => None,
                    },
                    None => Some(
                        GleanView::initialize(
                            StoreView::empty(),
                            application_id@,
                            upload_enabled,
                            fresh_id@,
                            today@.text(),
                        ),
                    ),
                }),
                Err(e) => e == Error::Initialization && image is Some && StoreView::of_image(
                    image->Some_0@,
                ) is None,
            },
    {
        let data_store = match image {
            Some(bytes) => match Store::from_bytes(bytes) {
                Ok(store) => store,
                Err(e) => {
                    return Err(e);
                },
            },
            None => Store::new(),
        };
        Ok(Glean::with_store(data_store, application_id, upload_enabled, fresh_id, today))
    }

    /// Takes over `data_store` for the application `application_id` and
    /// initializes the identity: a client id that fits `upload_enabled`
    /// (`fresh_id` where a new one is due), and the text of `today` as the
    /// first-run date where the store holds none.
    pub fn with_store(
        data_store: Store,
        application_id: &str,
        upload_enabled: bool,
        fresh_id: FreshId,
        today: Date,
    ) -> (glean: Glean)
        requires
            data_store.wf(),
        ensures
            glean.wf(),
            glean@ == GleanView::initialize(
                data_store@,
                application_id@,
                upload_enabled,
                fresh_id@,
                today@.text(),
            ),
            glean@.initialized(),
    {
        let mut glean = Glean {
            upload_enabled,
            application_id: String::from_str(application_id),
            data_store,
        };
        let known = String::from_str(KNOWN_CLIENT_ID);
        proof {
            lemma_identity_keys_differ();
        }
        let fresh_text = fresh_id.into_string();
        let stored = glean.client_id();
        let fits = match &stored {
            Some(id) => upload_enabled != (*id == known),
            None => false,
        };
        if !fits {
            if upload_enabled {
                glean.set_client_id(fresh_text);
            } else if stored.is_some() {
                glean.disable_store();
            } else {
                glean.set_client_id(known);
            }
        }
        if glean.first_run_date().is_none() {
            glean.data_store.write(
                Lifetime::User,
                first_run_date_storage_key(),
                Metric::String(today.render()),
            );
        }
        glean
    }

    fn set_client_id(&mut self, id: String)
        requires
            old(self).wf(),
        ensures
            final(self).wf(),
            final(self)@ == (GleanView { store: with_client_id(old(self)@.store, id@), ..old(self)@ }),
    {
        self.data_store.write(Lifetime::User, client_id_storage_key(), Metric::String(id));
    }

    fn disable_store(&mut self)
        requires
            old(self).wf(),
        ensures
            final(self).wf(),
            final(self)@ == (GleanView { store: disabled_store(old(self)@.store), ..old(self)@ }),
    {
        self.data_store.clear(Lifetime::Ping);
        self.data_store.clear(Lifetime::Application);
        self.set_client_id(String::from_str(KNOWN_CLIENT_ID));
    }

    /// Whether the upload is enabled.
    pub fn is_upload_enabled(&self) -> (enabled: bool)
        ensures
            enabled == self@.upload_enabled,
    {
        self.upload_enabled
    }

    /// The application id.
    pub fn application_id(&self) -> (id: &str)
        ensures
            id@ == self@.application_id,
    {
        self.application_id.as_str()
    }

    /// The store.
    pub fn storage(&self) -> (store: &Store)
        ensures
            store@ == self@.store,
            self.wf() ==> store.wf(),
    {
        &self.data_store
    }

    /// The image of the store, to be persisted and handed to
    /// [`Glean::with_options`] at the next start.
    pub fn to_bytes(&self) -> (image: Vec<u8>)
        requires
            self.wf(),
        ensures
            StoreView::of_image(image@) == Some(self@.store),
    {
        self.data_store.to_bytes()
    }

    /// Sets the upload setting to `flag` and reports whether that changed
    /// it. Disabling clears the ping and application lifetimes and writes the
    /// known client id; enabling writes the client id `fresh_id`. The
    /// first-run date and the experiments stay as they are.
    pub fn set_upload_enabled(&mut self, flag: bool, fresh_id: FreshId) -> (changed: bool)
        requires
            old(self).wf(),
        ensures
            final(self).wf(),
            changed == (flag != old(self)@.upload_enabled),
            final(self)@ == old(self)@.set_upload_enabled(flag, fresh_id@),
            final(self)@.upload_enabled == flag,
            !changed ==> final(self)@ == old(self)@,
            old(self)@.initialized() ==> final(self)@.initialized(),
    {
        let fresh_text = fresh_id.into_string();
        proof {
            lemma_toggle_keeps(self@, flag, fresh_text@);
        }
        if self.upload_enabled == flag {
            return false;
        }
        self.upload_enabled = flag;
        if flag {
            self.set_client_id(fresh_text);
        } else {
            self.disable_store();
        }
        true
    }

    /// The write gate: writes `value` at `key` under `lifetime` where the
    /// upload is enabled and the place is not one of the identity's, and
    /// reports whether it did.
    pub fn record(&mut self, lifetime: Lifetime, key: StorageKey, value: Metric) -> (accepted: bool)
        requires
            old(self).wf(),
        ensures
            final(self).wf(),
            accepted == old(self)@.accepts(lifetime, key@),
            final(self)@ == old(self)@.record(lifetime, key@, value@),
            old(self)@.initialized() ==> final(self)@.initialized(),
    {
        if !self.upload_enabled || is_identity(lifetime, &key) {
            return false;
        }
        self.data_store.write(lifetime, key, value);
        true
    }

    /// The value at `key` under `lifetime`, if there is one.
    pub fn read(&self, lifetime: Lifetime, key: &StorageKey) -> (value: Option<&Metric>)
        requires
            self.wf(),
        ensures
            match value {
                Some(v) => self@.store.read(lifetime, key@) == Some(v@),
                None => self@.store.read(lifetime, key@) is None,
            },
    {
        self.data_store.read(lifetime, key)
    }

    fn read_string(&self, lifetime: Lifetime, key: &StorageKey) -> (text: Option<String>)
        requires
            self.wf(),
        ensures
            match text {
                Some(s) => string_at(self@.store, lifetime, key@) == Some(s@),
                None => string_at(self@.store, lifetime, key@) is None,
            },
    {
        match self.data_store.read(lifetime, key) {
            Some(Metric::String(s)) => Some(s.clone()),
            _ => None,
        }
    }

    /// The client id, if the store holds one.
    pub fn client_id(&self) -> (id: Option<String>)
        requires
            self.wf(),
        ensures
            match id {
                Some(s) => self@.client_id() == Some(s@),
                None => self@.client_id() is None,
            },
    {
        self.read_string(Lifetime::User, &client_id_storage_key())
    }

    /// The first-run date, if the store holds one.
    pub fn first_run_date(&self) -> (date: Option<String>)
        requires
            self.wf(),
        ensures
            match date {
                Some(s) => self@.first_run_date() == Some(s@),
                None => self@.first_run_date() is None,
            },
    {
        self.read_string(Lifetime::User, &first_run_date_storage_key())
    }

    /// The path under which the ping `ping_name` with the document id
    /// `doc_id` is submitted. An empty ping name or document id is rejected.
    pub fn make_path(&self, ping_name: &str, doc_id: &str) -> (out: Result<String, Error>)
        ensures
            ping_name@.len() == 0 || doc_id@.len() == 0 ==> out == Err::<String, Error>(
                Error::InvalidArgument,
            ),
            ping_name@.len() > 0 && doc_id@.len() > 0 ==> out is Ok && out->Ok_0@
                == submission_path(self@.application_id, ping_name@, doc_id@),
    {
        make_path(self.application_id.as_str(), ping_name, doc_id)
    }

    /// Marks the experiment `experiment_id` active on `branch`, with `extra`
    /// if given; see [`Store::set_experiment_active`]. The upload setting
    /// plays no part.
    pub fn set_experiment_active(
        &mut self,
        experiment_id: String,
        branch: String,
        extra: Option<Vec<(String, String)>>,
    )
        requires
            old(self).wf(),
        ensures
            final(self).wf(),
            final(self)@ == old(self)@.set_experiment_active(
                experiment_id@,
                branch@,
                extra_view(extra),
            ),
            old(self)@.initialized() ==> final(self)@.initialized(),
    {
        self.data_store.set_experiment_active(experiment_id, branch, extra);
    }

    /// Marks the experiment `experiment_id` inactive.
    pub fn set_experiment_inactive(&mut self, experiment_id: String)
        requires
            old(self).wf(),
        ensures
            final(self).wf(),
            final(self)@ == old(self)@.set_experiment_inactive(experiment_id@),
            old(self)@.initialized() ==> final(self)@.initialized(),
    {
        self.data_store.set_experiment_inactive(experiment_id);
    }

    /// Whether the experiment `experiment_id` is active.
    pub fn test_is_experiment_active(&self, experiment_id: String) -> (active: bool)
        requires
            self.wf(),
        ensures
            active == self@.store.is_experiment_active(experiment_id@),
    {
        self.data_store.is_experiment_active(experiment_id)
    }

    /// The serialized record of the experiment `experiment_id`, or `None`
    /// where it is not active.
    pub fn test_get_experiment_data_as_json(&self, experiment_id: String) -> (json: Option<String>)
        requires
            self.wf(),
        ensures
            match json {
                Some(text) => self@.store.experiment(experiment_id@) is Some && text@
                    == serialized_record(self@.store.experiment(experiment_id@)->Some_0),
                None => self@.store.experiment(experiment_id@) is None,
            },
    {
        match self.data_store.experiment(experiment_id) {
            Some(record) => Some(serialize_record(record)),
            None => None,
        }
    }

    /// Removes everything from the store: every metric under every
    /// lifetime, the identity with them, and every experiment.
    pub fn test_clear_all(&mut self)
        requires
            old(self).wf(),
        ensures
            final(self).wf(),
            final(self)@ == old(self)@.clear_all(),
    {
        self.data_store.clear_all();
    }
}

/// Initialization leaves an identity that fits the upload setting, whatever
/// the store held before.
pub proof fn lemma_initialize_fits(
    store: StoreView,
    application_id: Seq<char>,
    upload_enabled: bool,
    fresh: Seq<char>,
    today: Seq<char>,
)
    requires
        fresh != known_client_id(),
    ensures
        GleanView::initialize(store, application_id, upload_enabled, fresh, today).initialized(),
        stored_client_id(store) is None ==> GleanView::initialize(
            store,
            application_id,
            upload_enabled,
            fresh,
            today,
        ).client_id() == Some(
            if upload_enabled {
                fresh
            } else {
                known_client_id()
            },
        ),
        GleanView::initialize(
            store,
            application_id,
            upload_enabled,
            fresh,
            today,
        ).first_run_date() == Some(
            match stored_first_run_date(store) {
                Some(date) => date,
                None => today,
            },
        ),
        GleanView::initialize(store, application_id, upload_enabled, fresh, today).store.experiments
            == store.experiments,
{
    lemma_identity_keys_differ();
}

/// A full clear removes the identity, and initialization after it writes
/// both parts anew: the client id given, or the known one where the upload is
/// disabled, and the date given.
pub proof fn lemma_clear_all_then_initialize(
    glean: GleanView,
    application_id: Seq<char>,
    upload_enabled: bool,
    fresh: Seq<char>,
    today: Seq<char>,
)
    requires
        fresh != known_client_id(),
    ensures
        glean.clear_all().client_id() is None,
        glean.clear_all().first_run_date() is None,
        GleanView::initialize(
            glean.clear_all().store,
            application_id,
            upload_enabled,
            fresh,
            today,
        ).client_id() == Some(
            if upload_enabled {
                fresh
            } else {
                known_client_id()
            },
        ),
        GleanView::initialize(
            glean.clear_all().store,
            application_id,
            upload_enabled,
            fresh,
            today,
        ).first_run_date() == Some(today),
{
    lemma_identity_keys_differ();
}

/// Setting the upload setting to what it is changes nothing.
pub proof fn lemma_same_setting_changes_nothing(glean: GleanView, fresh: Seq<char>)
    ensures
        glean.set_upload_enabled(glean.upload_enabled, fresh) == glean,
{
}

/// A change of the upload setting, in either direction, keeps the first-run
/// date and the experiments, and keeps the identity fitting.
pub proof fn lemma_toggle_keeps(glean: GleanView, flag: bool, fresh: Seq<char>)
    requires
        fresh != known_client_id(),
    ensures
        glean.set_upload_enabled(flag, fresh).first_run_date() == glean.first_run_date(),
        glean.set_upload_enabled(flag, fresh).store.experiments == glean.store.experiments,
        glean.set_upload_enabled(flag, fresh).application_id == glean.application_id,
        glean.initialized() ==> glean.set_upload_enabled(flag, fresh).initialized(),
{
    lemma_identity_keys_differ();
}

/// Disabling removes every value under the ping and application lifetimes
/// and keeps every value under the user lifetime but the client id.
pub proof fn lemma_disabling_clears(
    glean: GleanView,
    fresh: Seq<char>,
    lifetime: Lifetime,
    key: KeyView,
)
    requires
        glean.upload_enabled,
    ensures
        lifetime != Lifetime::User ==> glean.set_upload_enabled(false, fresh).store.read(
            lifetime,
            key,
        ) is None,
        lifetime == Lifetime::User && key != client_id_key() ==> glean.set_upload_enabled(
            false,
            fresh,
        ).store.read(lifetime, key) == glean.store.read(lifetime, key),
{
}

/// On an enabled controller with a fitting identity, disabling and enabling
/// again gives the known client id in between and the new id after; neither
/// the id before nor the id after is the known one, and the three differ
/// where the new id is not the one before.
pub proof fn lemma_toggle_client_ids(glean: GleanView, unused: Seq<char>, fresh: Seq<char>)
    requires
        glean.initialized(),
        glean.upload_enabled,
        unused != known_client_id(),
        fresh != known_client_id(),
    ensures
        glean.set_upload_enabled(true, unused).client_id() == glean.client_id(),
        glean.client_id() is Some,
        glean.client_id() != Some(known_client_id()),
        glean.set_upload_enabled(false, unused).client_id() == Some(known_client_id()),
        glean.set_upload_enabled(false, unused).set_upload_enabled(true, fresh).client_id()
            == Some(fresh),
        glean.set_upload_enabled(false, unused).set_upload_enabled(true, fresh).initialized(),
        glean.client_id() != Some(fresh) ==> glean.client_id() != glean.set_upload_enabled(
            false,
            unused,
        ).client_id() && glean.client_id() != glean.set_upload_enabled(
            false,
            unused,
        ).set_upload_enabled(true, fresh).client_id() && glean.set_upload_enabled(
            false,
            unused,
        ).client_id() != glean.set_upload_enabled(false, unused).set_upload_enabled(
            true,
            fresh,
        ).client_id(),
{
    lemma_identity_keys_differ();
}

/// A metric write on a disabled controller leaves no trace: the controller
/// is as before, and after enabling it is as if the write had never been
/// attempted.
pub proof fn lemma_write_while_disabled(
    glean: GleanView,
    lifetime: Lifetime,
    key: KeyView,
    value: MetricValue,
    fresh: Seq<char>,
)
    requires
        !glean.upload_enabled,
    ensures
        glean.record(lifetime, key, value) == glean,
        glean.record(lifetime, key, value).set_upload_enabled(true, fresh)
            == glean.set_upload_enabled(true, fresh),
        !is_identity_slot((lifetime, key)) ==> glean.record(
            lifetime,
            key,
            value,
        ).set_upload_enabled(true, fresh).store.read(lifetime, key) == glean.store.read(
            lifetime,
            key,
        ),
{
}

/// A value written on an enabled controller under the ping or application
/// lifetime is read back until the upload is disabled; once it is, the value
/// is gone, a write of it is refused, and enabling again does not bring it
/// back.
pub proof fn lemma_metric_through_toggle(
    glean: GleanView,
    lifetime: Lifetime,
    key: KeyView,
    value: MetricValue,
    unused: Seq<char>,
    fresh: Seq<char>,
)
    requires
        glean.upload_enabled,
        lifetime != Lifetime::User,
    ensures
        glean.record(lifetime, key, value).store.read(lifetime, key) == Some(value),
        glean.record(lifetime, key, value).set_upload_enabled(false, unused).store.read(
            lifetime,
            key,
        ) is None,
        glean.record(lifetime, key, value).set_upload_enabled(false, unused).record(
            lifetime,
            key,
            value,
        ).set_upload_enabled(true, fresh).store.read(lifetime, key) is None,
        glean.record(lifetime, key, value).set_upload_enabled(false, unused).set_upload_enabled(
            true,
            fresh,
        ).record(lifetime, key, value).store.read(lifetime, key) == Some(value),
{
}

/// A metric write never touches the identity or the experiments, and keeps
/// the identity fitting.
pub proof fn lemma_record_keeps_identity(
    glean: GleanView,
    lifetime: Lifetime,
    key: KeyView,
    value: MetricValue,
)
    ensures
        glean.record(lifetime, key, value).client_id() == glean.client_id(),
        glean.record(lifetime, key, value).first_run_date() == glean.first_run_date(),
        glean.record(lifetime, key, value).store.experiments == glean.store.experiments,
        glean.record(lifetime, key, value).upload_enabled == glean.upload_enabled,
        glean.initialized() ==> glean.record(lifetime, key, value).initialized(),
{
}

/// Marking an experiment active or inactive touches neither the metrics nor
/// the upload setting, whatever that setting is.
pub proof fn lemma_experiments_apart(
    glean: GleanView,
    id: Seq<char>,
    branch: Seq<char>,
    extra: Option<ExtraView>,
)
    ensures
        glean.set_experiment_active(id, branch, extra).store.metrics == glean.store.metrics,
        glean.set_experiment_active(id, branch, extra).upload_enabled == glean.upload_enabled,
        glean.set_experiment_active(id, branch, extra).store.is_experiment_active(id),
        glean.set_experiment_inactive(id).store.metrics == glean.store.metrics,
        glean.set_experiment_inactive(id).upload_enabled == glean.upload_enabled,
        !glean.set_experiment_inactive(id).store.is_experiment_active(id),
        glean.initialized() ==> glean.set_experiment_active(id, branch, extra).initialized()
            && glean.set_experiment_inactive(id).initialized(),
{
}

/// Initializing again on the store of a controller whose identity fits is
/// the same as setting the upload setting on that controller: a restart with
/// the setting unchanged changes nothing, and a restart with the other
/// setting is that transition.
pub proof fn lemma_restart(glean: GleanView, flag: bool, fresh: Seq<char>, today: Seq<char>)
    requires
        glean.initialized(),
        fresh != known_client_id(),
    ensures
        GleanView::initialize(glean.store, glean.application_id, flag, fresh, today)
            == glean.set_upload_enabled(flag, fresh),
        GleanView::initialize(
            glean.store,
            glean.application_id,
            glean.upload_enabled,
            fresh,
            today,
        ) == glean,
{
    lemma_identity_keys_differ();
}

} // verus!
