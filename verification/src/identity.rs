//! The identity of an installation: its client id and the date of its first
//! run, both kept under the user lifetime.

use vstd::prelude::*;
use vstd::string::*;
use crate::storage::{KeyView, Lifetime, MetricValue, Slot, StorageKey, StoreView};
use crate::text::{append_hex, hex, lemma_hex_len};

verus! {

/// The client id that stands for every installation whose upload is
/// disabled.
pub const KNOWN_CLIENT_ID: &'static str = "c0ffeec0-ffee-c0ff-eec0-ffeec0ffeec0";

/// The ping that carries the identity.
pub const CLIENT_INFO_STORAGE: &'static str = "glean_client_info";

/// The characters of the known client id.
pub open spec fn known_client_id() -> Seq<char> {
    "c0ffeec0-ffee-c0ff-eec0-ffeec0ffeec0"@
}

/// The key of the client id.
pub open spec fn client_id_key() -> KeyView {
    KeyView { category: ""@, name: "client_id"@, ping: "glean_client_info"@ }
}

/// The key of the first-run date.
pub open spec fn first_run_date_key() -> KeyView {
    KeyView { category: ""@, name: "first_run_date"@, ping: "glean_client_info"@ }
}

/// `slot` is one of the two places that hold the identity.
pub open spec fn is_identity_slot(slot: Slot) -> bool {
    slot.0 == Lifetime::User && (slot.1 == client_id_key() || slot.1 == first_run_date_key())
}

/// The two places of the identity differ.
pub proof fn lemma_identity_keys_differ()
    ensures
        client_id_key() != first_run_date_key(),
{
    reveal_strlit("client_id");
    reveal_strlit("first_run_date");
    assert("client_id"@.len() != "first_run_date"@.len());
}

/// The string stored at `(lifetime, key)`, if a string is stored there.
pub open spec fn string_at(store: StoreView, lifetime: Lifetime, key: KeyView) -> Option<
    Seq<char>,
> {
    match store.read(lifetime, key) {
        Some(MetricValue::String(s)) => Some(s),
        _ => None,
    }
}

/// The client id that `store` holds, if any.
pub open spec fn stored_client_id(store: StoreView) -> Option<Seq<char>> {
    string_at(store, Lifetime::User, client_id_key())
}

/// The first-run date that `store` holds, if any.
pub open spec fn stored_first_run_date(store: StoreView) -> Option<Seq<char>> {
    string_at(store, Lifetime::User, first_run_date_key())
}

/// `store` with the client id `id`.
pub open spec fn with_client_id(store: StoreView, id: Seq<char>) -> StoreView {
    store.write(Lifetime::User, client_id_key(), MetricValue::String(id))
}

/// `store` with the first-run date `date`.
pub open spec fn with_first_run_date(store: StoreView, date: Seq<char>) -> StoreView {
    store.write(Lifetime::User, first_run_date_key(), MetricValue::String(date))
}

/// `store` as disabling the upload leaves it: nothing under the ping and
/// application lifetimes, and the known client id.
pub open spec fn disabled_store(store: StoreView) -> StoreView {
    with_client_id(store.clear(Lifetime::Ping).clear(Lifetime::Application), known_client_id())
}

/// `store` with a client id that fits the upload setting: a stored id is
/// kept where it fits; otherwise `fresh` is written where the upload is
/// enabled, and the known id where it is not. Where a stored id other than
/// the known one meets a disabled upload, the store is left as disabling
/// leaves it.
pub open spec fn with_fitting_client_id(
    store: StoreView,
    upload_enabled: bool,
    fresh: Seq<char>,
) -> StoreView {
    match stored_client_id(store) {
        Some(id) => if upload_enabled == (id != known_client_id()) {
            store
        } else if upload_enabled {
            with_client_id(store, fresh)
        } else {
            disabled_store(store)
        },
        None => if upload_enabled {
            with_client_id(store, fresh)
        } else {
            with_client_id(store, known_client_id())
        },
    }
}

/// `store` with a first-run date: the stored one where there is one, `today`
/// otherwise.
pub open spec fn with_some_first_run_date(store: StoreView, today: Seq<char>) -> StoreView {
    match stored_first_run_date(store) {
        Some(_) => store,
        None => with_first_run_date(store, today),
    }
}

/// `store` after the identity is initialized.
pub open spec fn initialized_store(
    store: StoreView,
    upload_enabled: bool,
    fresh: Seq<char>,
    today: Seq<char>,
) -> StoreView {
    with_some_first_run_date(with_fitting_client_id(store, upload_enabled, fresh), today)
}

/// `store` holds an identity that fits the upload setting: a client id and a
/// first-run date, the client id being the known one exactly where the
/// upload is disabled.
pub open spec fn identity_fits(store: StoreView, upload_enabled: bool) -> bool {
    &&& stored_client_id(store) is Some
    &&& stored_first_run_date(store) is Some
    &&& (stored_client_id(store) == Some(known_client_id())) <==> !upload_enabled
}

/// The client id made of the 16 random bytes `bytes`: their hexadecimal
/// digits in groups of 8, 4, 4, 4 and 12, with the first digit of the third
/// group set to 4 and the first digit of the fourth to one of 8, 9, a and b.
pub open spec fn uuid_text(bytes: Seq<u8>) -> Seq<char> {
    hex(bytes.subrange(0, 4)) + "-"@ + hex(bytes.subrange(4, 6)) + "-"@ + hex(
        seq![(64 + bytes[6] % 16) as u8, bytes[7]],
    ) + "-"@ + hex(seq![(128 + bytes[8] % 64) as u8, bytes[9]]) + "-"@ + hex(
        bytes.subrange(10, 16),
    )
}

/// A client id made of random bytes has 36 characters and is never the
/// known client id: its fifteenth character is a 4.
pub proof fn lemma_uuid_text_not_known(bytes: Seq<u8>)
    requires
        bytes.len() == 16,
    ensures
        uuid_text(bytes).len() == 36,
        uuid_text(bytes)[14] == '4',
        uuid_text(bytes) != known_client_id(),
{
    reveal_strlit("-");
    reveal_strlit("c0ffeec0-ffee-c0ff-eec0-ffeec0ffeec0");
    let third = seq![(64 + bytes[6] % 16) as u8, bytes[7]];
    let fourth = seq![(128 + bytes[8] % 64) as u8, bytes[9]];
    lemma_hex_len(bytes.subrange(0, 4));
    lemma_hex_len(bytes.subrange(4, 6));
    lemma_hex_len(third);
    lemma_hex_len(fourth);
    lemma_hex_len(bytes.subrange(10, 16));
    assert(third.drop_last() =~= seq![third[0]]);
    assert(third.drop_last().drop_last() =~= Seq::<u8>::empty());
    assert(hex(third.drop_last().drop_last()) =~= Seq::<char>::empty());
    assert(hex(third.drop_last())[0] == '4');
    assert(hex(third)[0] == '4');
    assert(known_client_id()[14] == 'c');
}

/// A newly generated client id. It is never the known client id.
pub struct FreshId {
    value: String,
}

impl View for FreshId {
    type V = Seq<char>;

    closed spec fn view(&self) -> Seq<char> {
        self.value@
    }
}

impl FreshId {
    #[verifier::type_invariant]
    spec fn not_known(&self) -> bool {
        self.value@ != known_client_id()
    }

    /// Accepts `value` as a new client id, unless it is the known client id.
    pub fn new(value: String) -> (id: Option<FreshId>)
        ensures
            match id {
                Some(fresh) => fresh@ == value@ && value@ != known_client_id(),
                None => value@ == known_client_id(),
            },
    {
        let known = String::from_str(KNOWN_CLIENT_ID);
        if value == known {
            None
        } else {
            Some(FreshId { value })
        }
    }

    /// Makes a client id of 16 random bytes, in the layout of a random
    /// UUID. Whatever the bytes, it is not the known client id.
    pub fn from_entropy(bytes: &[u8; 16]) -> (id: FreshId)
        ensures
            id@ == uuid_text(bytes@),
            id@ != known_client_id(),
    {
        let first = vec![bytes[0], bytes[1], bytes[2], bytes[3]];
        let second = vec![bytes[4], bytes[5]];
        let third = vec![64 + bytes[6] % 16, bytes[7]];
        let fourth = vec![128 + bytes[8] % 64, bytes[9]];
        let fifth = vec![bytes[10], bytes[11], bytes[12], bytes[13], bytes[14], bytes[15]];
        proof {
            assert(first@ =~= bytes@.subrange(0, 4));
            assert(second@ =~= bytes@.subrange(4, 6));
            assert(third@ =~= seq![(64 + bytes@[6] % 16) as u8, bytes@[7]]);
            assert(fourth@ =~= seq![(128 + bytes@[8] % 64) as u8, bytes@[9]]);
            assert(fifth@ =~= bytes@.subrange(10, 16));
        }
        let mut value = String::new();
        append_hex(&mut value, first.as_slice());
        value.append("-");
        append_hex(&mut value, second.as_slice());
        value.append("-");
        append_hex(&mut value, third.as_slice());
        value.append("-");
        append_hex(&mut value, fourth.as_slice());
        value.append("-");
        append_hex(&mut value, fifth.as_slice());
        proof {
            assert(value@ =~= uuid_text(bytes@));
            lemma_uuid_text_not_known(bytes@);
        }
        FreshId { value }
    }

    /// The characters of the id.
    pub fn as_str(&self) -> (text: &str)
        ensures
            text@ == self@,
            text@ != known_client_id(),
    {
        proof {
            use_type_invariant(self);
        }
        self.value.as_str()
    }

    /// The id as a string.
    pub fn into_string(self) -> (text: String)
        ensures
            text@ == self@,
            text@ != known_client_id(),
    {
        proof {
            use_type_invariant(&self);
        }
        self.value
    }
}

/// The storage key of the client id.
pub fn client_id_storage_key() -> (key: StorageKey)
    ensures
        key@ == client_id_key(),
{
    StorageKey::new("", "client_id", CLIENT_INFO_STORAGE)
}

/// The storage key of the first-run date.
pub fn first_run_date_storage_key() -> (key: StorageKey)
    ensures
        key@ == first_run_date_key(),
{
    StorageKey::new("", "first_run_date", CLIENT_INFO_STORAGE)
}

/// Whether `key` under `lifetime` is one of the two places of the identity.
pub fn is_identity(lifetime: Lifetime, key: &StorageKey) -> (reserved: bool)
    ensures
        reserved == is_identity_slot((lifetime, key@)),
{
    match lifetime {
        Lifetime::User => key.same(&client_id_storage_key()) || key.same(
            &first_run_date_storage_key(),
        ),
        _ => false,
    }
}

} // verus!
