use vstd::prelude::*;

use crate::codec::{decode_entries, decode_envelope, encode_entries, encode_entries_spec, encode_envelope, encode_envelope_spec};
use crate::crypto::CryptoPort;
use crate::entry::{find_slot, has_service, key_of, bytes_lt, sorted_by_service, views, Entry, EntryView};
use crate::errors::{CryptoError, VaultError};
use crate::storage::StoragePort;
use crate::vault_state::{VaultState, VaultStateView};

verus! {

/// `x` is an envelope whose encoding is `b`.
pub open spec fn is_envelope(b: Seq<u8>, x: VaultStateView) -> bool {
    x.salt.len() == 16 && x.nonce.len() == 12 && encode_envelope_spec(x) == b
}

/// `bytes` is an envelope that opens, with `password`, to the entry
/// collection `s`: the key-derivation function accepts the password, and the
/// ciphertext is the sealing of the encoding of `s` under the key derived from
/// the password and the envelope's salt.
pub open spec fn opens_to<C: CryptoPort>(bytes: Seq<u8>, password: Seq<char>, s: Seq<EntryView>) -> bool {
    &&& C::kdf_accepts(password)
    &&& sorted_by_service(s)
    &&& C::sealable(encode_entries_spec(s))
    &&& exists|x: VaultStateView| #[trigger] is_envelope(bytes, x) && x.cipher == C::sealed(C::derived(password, x.salt), x.nonce, encode_entries_spec(s))
}

/// What a successful `commit` saves opens to the committed entries with the
/// password the vault was created or unlocked with: the saved envelope's
/// ciphertext seals the encoded entries under the key derived from that
/// password and the envelope's salt. So a later `unlock` of the vault with that
/// password gives back exactly those entries, unless the store fails to load.
pub proof fn law_committed_envelope_opens<C: CryptoPort>(env: VaultStateView, password: Seq<char>, s: Seq<EntryView>)
    requires
        env.salt.len() == 16,
        env.nonce.len() == 12,
        C::kdf_accepts(password),
        sorted_by_service(s),
        C::sealable(encode_entries_spec(s)),
        env.cipher == C::sealed(C::derived(password, env.salt), env.nonce, encode_entries_spec(s)),
    ensures
        opens_to::<C>(encode_envelope_spec(env), password, s),
{
    assert(is_envelope(encode_envelope_spec(env), env));
}

/// Opens an encoded envelope with a password: decodes it, derives the key
/// from the password and the envelope's salt, decrypts the entries and
/// decodes them.
///
/// Every failure after the key is derived, whether the ciphertext does not
/// authenticate or what it holds is not an entry collection, is reported as
/// `InvalidPassword` alone, and the derived key is wiped.
pub fn open_vault<C: CryptoPort>(crypto: &mut C, password: &str, bytes: &[u8]) -> (r: Result<(VaultState, Vec<Entry>), VaultError>)
    ensures
        r matches Ok((st, es)) ==> {
            &&& is_envelope(bytes@, st@)
            &&& C::kdf_accepts(password@)
            &&& final(crypto).key() == Some(C::derived(password@, st@.salt))
            &&& sorted_by_service(views(es@))
            &&& st@.cipher == C::sealed(C::derived(password@, st@.salt), st@.nonce, encode_entries_spec(views(es@)))
        },
        (r == Err::<(VaultState, Vec<Entry>), VaultError>(VaultError::Serialization)) == (forall|x: VaultStateView| !#[trigger] is_envelope(bytes@, x)),
        r matches Err(e) ==> e is Serialization || e is Crypto || e is InvalidPassword,
        r matches Err(VaultError::Crypto(_)) ==> final(crypto).key() == old(crypto).key(),
        r matches Err(VaultError::Crypto(e)) ==> e == CryptoError::KeyDerivationError && !C::kdf_accepts(password@),
        forall|s: Seq<EntryView>| #[trigger] opens_to::<C>(bytes@, password@, s) ==> (r matches Ok((st, es)) && views(es@) == s),
        r matches Err(VaultError::InvalidPassword) ==> final(crypto).key() is None,
        r matches Err(VaultError::InvalidPassword) ==> exists|x: VaultStateView| #[trigger] is_envelope(bytes@, x) && forall|s: Seq<EntryView>| #![trigger encode_entries_spec(s)] sorted_by_service(s) && C::sealable(encode_entries_spec(s)) ==> x.cipher != C::sealed(C::derived(password@, x.salt), x.nonce, encode_entries_spec(s)),
{
    let state = match decode_envelope(bytes) {
        Ok(s) => s,
        Err(e) => {
            return Err(e);
        },
    };
    assert(is_envelope(bytes@, state@));
    assert forall|x: VaultStateView| #[trigger] is_envelope(bytes@, x) implies x == state@ by {}
    let ghost key = C::derived(password@, state@.salt);
    assert forall|s: Seq<EntryView>| #[trigger] opens_to::<C>(bytes@, password@, s) implies C::kdf_accepts(password@) && state@.cipher == C::sealed(key, state@.nonce, encode_entries_spec(s)) by {
        let x = choose|x: VaultStateView| #[trigger] is_envelope(bytes@, x) && x.cipher == C::sealed(C::derived(password@, x.salt), x.nonce, encode_entries_spec(s));
        assert(x == state@);
    }
    match crypto.init(password, state.salt.as_slice()) {
        Ok(()) => {},
        Err(e) => {
            return Err(VaultError::Crypto(e));
        },
    }
    let plain = match crypto.decrypt(state.cipher.as_slice(), state.nonce.as_slice()) {
        Ok(p) => p,
        Err(_) => {
            crypto.forget_key();
            return Err(VaultError::InvalidPassword);
        },
    };
    assert forall|s: Seq<EntryView>| #[trigger] opens_to::<C>(bytes@, password@, s) implies plain@ == encode_entries_spec(s) by {
        assert(C::sealable(encode_entries_spec(s)));
    }
    match decode_entries(plain.as_slice()) {
        Ok(es) => Ok((state, es)),
        Err(_) => {
            crypto.forget_key();
            Err(VaultError::InvalidPassword)
        },
    }
}

/// The vault engine: a locked/unlocked state machine over a store of vault
/// files and a key-derivation and cipher adapter.
pub struct VaultEngine<S: StoragePort, C: CryptoPort> {
    storage: S,
    crypto: C,
    vault_state: Option<VaultState>,
    entries: Vec<Entry>,
    dirty: bool,
    name: String,
}

impl<S: StoragePort, C: CryptoPort> VaultEngine<S, C> {
    /// No vault is unlocked.
    pub closed spec fn locked(&self) -> bool {
        self.vault_state is None
    }

    /// The entries of the unlocked vault, in ascending order of service.
    pub closed spec fn entries_view(&self) -> Seq<EntryView> {
        views(self.entries@)
    }

    /// The in-memory entries differ from the last committed envelope.
    pub closed spec fn dirty_view(&self) -> bool {
        self.dirty
    }

    /// The envelope of the unlocked vault.
    pub closed spec fn envelope(&self) -> Option<VaultStateView> {
        match self.vault_state {
            Some(v) => Some(v@),
            None => None,
        }
    }

    /// The name of the unlocked vault.
    pub closed spec fn vault_name(&self) -> Seq<char> {
        self.name@
    }

    /// The key the adapter holds.
    pub closed spec fn key(&self) -> Option<Seq<u8>> {
        self.crypto.key()
    }

    /// The key-derivation and cipher adapter.
    pub closed spec fn adapter(&self) -> C {
        self.crypto
    }

    /// The store the engine reads and writes.
    pub closed spec fn store(&self) -> S {
        self.storage
    }

    /// The vault the store targets.
    pub open spec fn target(&self) -> Seq<char> {
        self.store().target()
    }

    /// The bytes of the store's file of vault `name`, if there is one.
    pub open spec fn file(&self, name: Seq<char>) -> Option<Seq<u8>> {
        self.store().file(name)
    }

    /// The engine's invariant: entries ordered by service and unique, none
    /// and nothing unsaved while locked; while unlocked a key, and the store
    /// bound to the unlocked vault.
    pub closed spec fn wf(&self) -> bool {
        &&& sorted_by_service(views(self.entries@))
        &&& self.vault_state is None ==> self.entries@.len() == 0 && !self.dirty
        &&& self.vault_state is Some ==> self.crypto.key() is Some && self.storage.target() == self.name@
    }

    /// An engine holds at most one entry per service: a second `add` for a
    /// service is refused with `EntryExists` and changes nothing, so after it
    /// exactly one entry for the service remains.
    pub proof fn law_one_entry_per_service(&self, i: int, j: int)
        requires
            self.wf(),
            0 <= i < self.entries_view().len(),
            0 <= j < self.entries_view().len(),
            self.entries_view()[i].service == self.entries_view()[j].service,
        ensures
            i == j,
    {
        crate::entry::lemma_sorted_unique(self.entries_view(), i, j);
    }

    /// A locked engine over a store and an adapter.
    pub fn new(storage: S, crypto: C) -> (r: Self)
        ensures
            r.wf(),
            r.locked(),
            r.entries_view().len() == 0,
            !r.dirty_view(),
    {
        VaultEngine {
            storage,
            crypto,
            vault_state: None,
            entries: Vec::new(),
            dirty: false,
            name: String::new(),
        }
    }

    /// Whether no vault is unlocked.
    pub fn is_locked(&self) -> (r: bool)
        ensures
            r == self.locked(),
    {
        self.vault_state.is_none()
    }

    /// Whether there are changes not yet committed.
    pub fn is_dirty(&self) -> (r: bool)
        ensures
            r == self.dirty_view(),
    {
        self.dirty
    }

    /// The name of the unlocked vault; `None` while locked.
    pub fn current_vault(&self) -> (r: Option<String>)
        ensures
            self.locked() ==> r is None,
            !self.locked() ==> (r matches Some(n) && n@ == self.vault_name()),
    {
        if self.vault_state.is_none() {
            None
        } else {
            Some(self.name.clone())
        }
    }

    /// The number of entries of the unlocked vault.
    pub fn entry_count(&self) -> (r: usize)
        ensures
            r == self.entries_view().len(),
    {
        self.entries.len()
    }

    /// Creates a vault: a fresh salt, the key derived from `password` and the
    /// salt, no entries, and the store bound to `name`. Nothing is written.
    pub fn create_vault(&mut self, name: &str, password: &str) -> (r: Result<(), VaultError>)
        requires
            old(self).wf(),
        ensures
            final(self).wf(),
            !old(self).locked() ==> r == Err::<(), VaultError>(VaultError::Unlocked) && *final(self) == *old(self),
            old(self).locked() ==> !(r matches Err(VaultError::Unlocked)),
            old(self).locked() && C::kdf_accepts(password@) ==> (r is Ok || r == Err::<(), VaultError>(VaultError::Crypto(CryptoError::RandomUnavailable))),
            r matches Err(e) ==> e is Unlocked || e is Crypto,
            r is Err ==> final(self).locked() == old(self).locked() && final(self).entries_view()
                == old(self).entries_view() && final(self).dirty_view() == old(self).dirty_view(),
            forall|n: Seq<char>| #[trigger] final(self).file(n) == old(self).file(n),
            r is Ok ==> {
                &&& !final(self).locked()
                &&& final(self).entries_view().len() == 0
                &&& !final(self).dirty_view()
                &&& final(self).vault_name() == name@
                &&& final(self).target() == name@
                &&& C::kdf_accepts(password@)
                &&& final(self).envelope() matches Some(env) && env.cipher.len() == 0
                    && env.nonce == Seq::new(12, |i: int| 0u8)
                    && final(self).key() == Some(C::derived(password@, env.salt))
            },
    {
        if self.vault_state.is_some() {
            return Err(VaultError::Unlocked);
        }
        let salt = match self.crypto.salt_gen() {
            Ok(s) => s,
            Err(e) => {
                return Err(VaultError::Crypto(e));
            },
        };
        match self.crypto.init(password, salt.as_slice()) {
            Ok(()) => {},
            Err(e) => {
                return Err(VaultError::Crypto(e));
            },
        }
        self.storage.set_path(name.to_owned());
        self.vault_state = Some(VaultState::new(&salt));
        self.entries = Vec::new();
        self.dirty = false;
        self.name = name.to_owned();
        proof {
            assert(views(self.entries@) =~= Seq::<EntryView>::empty());
        }
        Ok(())
    }

    /// Unlocks the vault `vault` with `password`: loads its envelope, derives
    /// the key from the password and the stored salt, and decrypts and decodes
    /// the entries. On any failure the engine stays locked and holds nothing.
    pub fn unlock(&mut self, vault: &str, password: &str) -> (r: Result<(), VaultError>)
        requires
            old(self).wf(),
        ensures
            final(self).wf(),
            !old(self).locked() ==> r == Err::<(), VaultError>(VaultError::Unlocked) && *final(self) == *old(self),
            old(self).locked() ==> !(r matches Err(VaultError::Unlocked)),
            old(self).locked() ==> final(self).target() == vault@,
            forall|n: Seq<char>| #[trigger] final(self).file(n) == old(self).file(n),
            old(self).locked() && old(self).file(vault@) is None ==> r == Err::<(), VaultError>(VaultError::VaultNotFound),
            forall|b: Seq<u8>, s: Seq<EntryView>| old(self).locked() && old(self).file(vault@) == Some(b) && #[trigger] opens_to::<C>(b, password@, s) ==> (r is Ok && final(self).entries_view() == s) || r matches Err(VaultError::Storage(_)),
            old(self).locked() && r is Err ==> final(self).locked() && final(self).entries_view().len() == 0 && !final(self).dirty_view(),
            r == Err::<(), VaultError>(VaultError::InvalidPassword) ==> final(self).key() is None,
            r matches Err(e) ==> e is Unlocked || e is VaultNotFound || e is Storage || e is Serialization || e is Crypto || e is InvalidPassword,
            r == Err::<(), VaultError>(VaultError::VaultNotFound) ==> old(self).locked() && old(self).file(vault@) is None,
            r == Err::<(), VaultError>(VaultError::Serialization) ==> old(self).file(vault@) is Some && forall|x: VaultStateView| !#[trigger] is_envelope(old(self).file(vault@).unwrap(), x),
            r matches Err(VaultError::Crypto(e)) ==> e == CryptoError::KeyDerivationError && !C::kdf_accepts(password@),
            r == Err::<(), VaultError>(VaultError::InvalidPassword) ==> old(self).file(vault@) is Some && exists|x: VaultStateView| #[trigger] is_envelope(old(self).file(vault@).unwrap(), x) && forall|s: Seq<EntryView>| #![trigger encode_entries_spec(s)] sorted_by_service(s) && C::sealable(encode_entries_spec(s)) ==> x.cipher != C::sealed(C::derived(password@, x.salt), x.nonce, encode_entries_spec(s)),
            r is Ok ==> {
                &&& !final(self).locked()
                &&& !final(self).dirty_view()
                &&& final(self).vault_name() == vault@
                &&& C::kdf_accepts(password@)
                &&& final(self).envelope() matches Some(env) && old(self).file(vault@) == Some(encode_envelope_spec(env)) && final(self).key() == Some(C::derived(password@, env.salt)) && env.cipher == C::sealed(C::derived(password@, env.salt), env.nonce, encode_entries_spec(final(self).entries_view()))
            },
    {
        if self.vault_state.is_some() {
            return Err(VaultError::Unlocked);
        }
        self.storage.set_path(vault.to_owned());
        assert(self.storage.file(vault@) == old(self).storage.file(vault@));
        if !self.storage.vault_exists() {
            return Err(VaultError::VaultNotFound);
        }
        let bytes = match self.storage.load() {
            Ok(b) => b,
            Err(e) => {
                return Err(VaultError::Storage(e));
            },
        };
        assert(old(self).file(vault@).unwrap() == bytes@);
        let (state, entries) = match open_vault(&mut self.crypto, password, bytes.as_slice()) {
            Ok(x) => x,
            Err(e) => {
                return Err(e);
            },
        };
        self.vault_state = Some(state);
        self.entries = entries;
        self.dirty = false;
        self.name = vault.to_owned();
        Ok(())
    }

    /// Locks the vault: wipes every entry's texts, drops the entries, wipes
    /// the key and forgets the envelope. Uncommitted changes are lost.
    pub fn lock(&mut self) -> (r: Result<(), VaultError>)
        requires
            old(self).wf(),
        ensures
            final(self).wf(),
            old(self).locked() ==> r == Err::<(), VaultError>(VaultError::Locked) && *final(self)
                == *old(self),
            !old(self).locked() ==> r is Ok,
            r is Ok ==> final(self).locked() && final(self).entries_view().len() == 0 && !final(self).dirty_view() && final(self).key() is None,
            final(self).store() == old(self).store(),
    {
        if self.vault_state.is_none() {
            return Err(VaultError::Locked);
        }
        loop
            invariant
                self.vault_state is Some,
                self.storage == old(self).storage,
            ensures
                self.entries@.len() == 0,
            decreases self.entries@.len(),
        {
            match self.entries.pop() {
                Some(mut e) => {
                    e.wipe();
                },
                None => {
                    break;
                },
            }
        }
        self.vault_state = None;
        self.crypto.forget_key();
        self.dirty = false;
        self.name = String::new();
        proof {
            assert(views(self.entries@) =~= Seq::<EntryView>::empty());
        }
        Ok(())
    }

    /// Adds an entry for `service` with the current time as its creation and
    /// update time, in its place in the order of services. Where the clock
    /// cannot be read, nothing changes and the error is `Clock`.
    pub fn add(&mut self, service: &str, username: &str, password: &str) -> (r: Result<(), VaultError>)
        requires
            old(self).wf(),
        ensures
            final(self).wf(),
            old(self).locked() ==> r == Err::<(), VaultError>(VaultError::Locked),
            !old(self).locked() && has_service(old(self).entries_view(), service@) ==> r == Err::<(), VaultError>(VaultError::EntryExists),
            !old(self).locked() && !has_service(old(self).entries_view(), service@) ==> r is Ok || r == Err::<(), VaultError>(VaultError::Clock),
            r is Err ==> *final(self) == *old(self),
            r is Ok ==> {
                &&& final(self).dirty_view()
                &&& final(self).locked() == old(self).locked()
                &&& final(self).envelope() == old(self).envelope()
                &&& final(self).key() == old(self).key()
                &&& final(self).store() == old(self).store()
                &&& has_service(final(self).entries_view(), service@)
                &&& exists|p: int, e: EntryView|
                    0 <= p <= old(self).entries_view().len() && final(self).entries_view()
                        == old(self).entries_view().insert(p, e) && e.service == service@
                        && e.username == username@ && e.passwd == password@ && e.created_at
                        == e.updated_at
            },
    {
        if self.vault_state.is_none() {
            return Err(VaultError::Locked);
        }
        let (_, found) = find_slot(&self.entries, service);
        if found {
            return Err(VaultError::EntryExists);
        }
        match crate::entry::unix_now() {
            Some(now) => self.add_at(service, username, password, now),
            None => Err(VaultError::Clock),
        }
    }

    /// Adds an entry for `service` created and updated at `now`, in its place
    /// in the order of services.
    pub fn add_at(&mut self, service: &str, username: &str, password: &str, now: i64) -> (r: Result<(), VaultError>)
        requires
            old(self).wf(),
        ensures
            final(self).wf(),
            old(self).locked() ==> r == Err::<(), VaultError>(VaultError::Locked) && *final(self)
                == *old(self),
            !old(self).locked() && has_service(old(self).entries_view(), service@) ==> r == Err::<(), VaultError>(VaultError::EntryExists) && *final(self) == *old(self),
            !old(self).locked() && !has_service(old(self).entries_view(), service@) ==> r is Ok,
            r is Ok ==> {
                &&& final(self).dirty_view()
                &&& final(self).locked() == old(self).locked()
                &&& final(self).envelope() == old(self).envelope()
                &&& has_service(final(self).entries_view(), service@)
                &&& exists|p: int, e: EntryView|
                    0 <= p <= old(self).entries_view().len() && final(self).entries_view()
                        == old(self).entries_view().insert(p, e) && e.service == service@
                        && e.username == username@ && e.passwd == password@ && e.created_at
                        == now && e.updated_at == now
                &&& final(self).key() == old(self).key()
                &&& final(self).store() == old(self).store()
            },
    {
        if self.vault_state.is_none() {
            return Err(VaultError::Locked);
        }
        let (pos, found) = find_slot(&self.entries, service);
        if found {
            return Err(VaultError::EntryExists);
        }
        let entry = Entry::with_time(service.to_owned(), username.to_owned(), password.to_owned(), now);
        let ghost old_view = views(self.entries@);
        let ghost ev = entry@;
        self.entries.insert(pos, entry);
        self.dirty = true;
        proof {
            let s = views(self.entries@);
            assert(s =~= old_view.insert(pos as int, ev));
            assert(0 <= pos <= old_view.len() && s == old_view.insert(pos as int, ev) && ev.service == service@ && ev.username == username@ && ev.passwd == password@ && ev.created_at == now && ev.updated_at == now);
            assert(self.entries_view() == old(self).entries_view().insert(pos as int, ev));
            assert(self.entries_view()[pos as int] == ev);
            assert forall|i: int, j: int| 0 <= i < j < s.len() implies bytes_lt(key_of(s[i]), key_of(s[j])) by {
                if j < pos {
                    assert(old_view[i] == s[i] && old_view[j] == s[j]);
                } else if j == pos {
                    assert(s[i] == old_view[i]);
                    assert(old_view[i] == self.entries@[i]@);
                } else if i == pos {
                    assert(s[j] == old_view[j - 1]);
                } else if i < pos {
                    assert(s[i] == old_view[i] && s[j] == old_view[j - 1]);
                } else {
                    assert(s[i] == old_view[i - 1] && s[j] == old_view[j - 1]);
                }
            }
        }
        Ok(())
    }

    /// Removes the entry for `service` and gives it back.
    pub fn delete(&mut self, service: &str) -> (r: Result<Entry, VaultError>)
        requires
            old(self).wf(),
        ensures
            final(self).wf(),
            old(self).locked() ==> r == Err::<Entry, VaultError>(VaultError::Locked) && *final(self)
                == *old(self),
            !old(self).locked() && !has_service(old(self).entries_view(), service@) ==> r == Err::<Entry, VaultError>(VaultError::EntryNotFound) && *final(self) == *old(self),
            !old(self).locked() && has_service(old(self).entries_view(), service@) ==> r is Ok,
            r matches Ok(e) ==> {
                &&& e.service@ == service@
                &&& final(self).dirty_view()
                &&& final(self).locked() == old(self).locked()
                &&& final(self).envelope() == old(self).envelope()
                &&& final(self).key() == old(self).key()
                &&& final(self).store() == old(self).store()
                &&& exists|p: int|
                    0 <= p < old(self).entries_view().len() && old(self).entries_view()[p] == e@
                        && final(self).entries_view() == old(self).entries_view().remove(p)
            },
    {
        if self.vault_state.is_none() {
            return Err(VaultError::Locked);
        }
        let (pos, found) = find_slot(&self.entries, service);
        if !found {
            return Err(VaultError::EntryNotFound);
        }
        let ghost old_view = views(self.entries@);
        let e = self.entries.remove(pos);
        self.dirty = true;
        proof {
            let s = views(self.entries@);
            assert(s =~= old_view.remove(pos as int));
            assert(old_view[pos as int] == e@);
            assert(e.service@ == service@);
            assert(0 <= pos < old_view.len() && old_view[pos as int] == e@ && s == old_view.remove(pos as int));
            assert(old(self).entries_view()[pos as int] == e@ && self.entries_view() == old(self).entries_view().remove(pos as int));
            assert forall|i: int, j: int| 0 <= i < j < s.len() implies bytes_lt(key_of(s[i]), key_of(s[j])) by {
                if j < pos {
                    assert(old_view[i] == s[i] && old_view[j] == s[j]);
                } else if i < pos {
                    assert(s[i] == old_view[i] && s[j] == old_view[j + 1]);
                } else {
                    assert(s[i] == old_view[i + 1] && s[j] == old_view[j + 1]);
                }
            }
        }
        Ok(e)
    }

    /// The entry for `service`.
    pub fn get(&self, service: &str) -> (r: Result<&Entry, VaultError>)
        requires
            self.wf(),
        ensures
            self.locked() ==> r == Err::<&Entry, VaultError>(VaultError::Locked),
            !self.locked() && !has_service(self.entries_view(), service@) ==> r == Err::<&Entry, VaultError>(VaultError::EntryNotFound),
            !self.locked() && has_service(self.entries_view(), service@) ==> r is Ok,
            r matches Ok(e) ==> e.service@ == service@ && exists|p: int|
                0 <= p < self.entries_view().len() && self.entries_view()[p] == e@,
    {
        if self.vault_state.is_none() {
            return Err(VaultError::Locked);
        }
        let (pos, found) = find_slot(&self.entries, service);
        if !found {
            return Err(VaultError::EntryNotFound);
        }
        let e = &self.entries[pos];
        assert(*e == self.entries@[pos as int]);
        assert(views(self.entries@)[pos as int] == e@);
        assert(self.entries_view()[pos as int] == e@);
        Ok(e)
    }

    /// The services of the unlocked vault, in ascending order.
    pub fn get_entries(&self) -> (r: Result<Vec<String>, VaultError>)
        requires
            self.wf(),
        ensures
            self.locked() ==> r == Err::<Vec<String>, VaultError>(VaultError::Locked),
            !self.locked() ==> sorted_by_service(self.entries_view()),
            !self.locked() ==> (r matches Ok(names) && names@.len() == self.entries_view().len() && forall|i: int| 0 <= i < names@.len() ==> #[trigger] names@[i]@ == self.entries_view()[i].service),
    {
        if self.vault_state.is_none() {
            return Err(VaultError::Locked);
        }
        let mut names: Vec<String> = Vec::new();
        let mut i: usize = 0;
        while i < self.entries.len()
            invariant
                i <= self.entries@.len(),
                names@.len() == i,
                forall|j: int| 0 <= j < i ==> #[trigger] names@[j]@ == self.entries@[j].service@,
            decreases self.entries@.len() - i,
        {
            names.push(self.entries[i].service.clone());
            i += 1;
        }
        Ok(names)
    }

    /// The names of the vaults in the store; only while locked.
    pub fn get_vaults(&self) -> (r: Result<Vec<String>, VaultError>)
        ensures
            !self.locked() ==> r == Err::<Vec<String>, VaultError>(VaultError::Unlocked),
            self.locked() ==> !(r matches Err(VaultError::Unlocked)),
            r matches Err(e) ==> e is Unlocked || e is Storage,
            r matches Ok(v) ==> forall|i: int| 0 <= i < v@.len() ==> (#[trigger] self.file(v@[i]@)) is Some,
            r matches Ok(v) ==> forall|n: Seq<char>| (#[trigger] self.file(n)) is Some ==> exists|i: int| 0 <= i < v@.len() && v@[i]@ == n,
            self.locked() && (r matches Ok(v)) ==> call_ensures(S::list_vaults, (&self.store(),), Ok::<Vec<String>, crate::errors::StorageError>(r->Ok_0)),
            r matches Err(VaultError::Storage(e)) ==> call_ensures(S::list_vaults, (&self.store(),), Err::<Vec<String>, crate::errors::StorageError>(e)),
    {
        if self.vault_state.is_some() {
            return Err(VaultError::Unlocked);
        }
        match self.storage.list_vaults() {
            Ok(v) => Ok(v),
            Err(e) => Err(VaultError::Storage(e)),
        }
    }

    /// Commits the entries: encodes them, encrypts them under the held key
    /// with a fresh nonce, and saves the encoded envelope to the store. The
    /// engine's envelope changes only when the save succeeds.
    pub fn commit(&mut self) -> (r: Result<(), VaultError>)
        requires
            old(self).wf(),
        ensures
            final(self).wf(),
            old(self).locked() ==> r == Err::<(), VaultError>(VaultError::Locked) && *final(self) == *old(self),
            !old(self).locked() ==> !(r matches Err(VaultError::Locked)),
            r matches Err(e) ==> e is Locked || e is Crypto || e is Storage,
            r matches Err(VaultError::Crypto(e)) ==> e == CryptoError::RandomUnavailable || !C::sealable(encode_entries_spec(old(self).entries_view())),
            r matches Err(VaultError::Crypto(e)) ==> exists|p: &[u8]| p@ == encode_entries_spec(old(self).entries_view()) && #[trigger] call_ensures(C::encrypt, (&old(self).adapter(), p), Err::<(Vec<u8>, [u8; 12]), CryptoError>(e)),
            final(self).entries_view() == old(self).entries_view(),
            final(self).locked() == old(self).locked(),
            final(self).vault_name() == old(self).vault_name(),
            final(self).key() == old(self).key(),
            final(self).target() == old(self).target(),
            r is Err ==> final(self).dirty_view() == old(self).dirty_view() && final(self).envelope() == old(self).envelope(),
            r is Err ==> forall|n: Seq<char>| #[trigger] final(self).file(n) == old(self).file(n),
            r is Ok ==> {
                &&& !final(self).dirty_view()
                &&& C::sealable(encode_entries_spec(final(self).entries_view()))
                &&& old(self).envelope() matches Some(before)
                &&& final(self).envelope() matches Some(env)
                &&& env.salt == before.salt
                &&& env.salt.len() == 16
                &&& env.nonce.len() == 12
                &&& sorted_by_service(final(self).entries_view())
                &&& env.cipher == C::sealed(final(self).key().unwrap(), env.nonce, encode_entries_spec(final(self).entries_view()))
                &&& forall|n: Seq<char>| #[trigger] final(self).file(n) == if n == old(self).target() { Some(encode_envelope_spec(env)) } else { old(self).file(n) }
            },
    {
        let salt = match &self.vault_state {
            Some(v) => v.salt,
            None => {
                return Err(VaultError::Locked);
            },
        };
        let plain = encode_entries(&self.entries);
        let ps = plain.as_slice();
        let (cipher, nonce) = match self.crypto.encrypt(ps) {
            Ok(x) => x,
            Err(e) => {
                assert(call_ensures(C::encrypt, (&self.crypto, ps), Err::<(Vec<u8>, [u8; 12]), CryptoError>(e)));
                assert(ps@ == encode_entries_spec(old(self).entries_view()));
                assert(old(self).adapter() == self.crypto);
                assert(call_ensures(C::encrypt, (&old(self).adapter(), ps), Err::<(Vec<u8>, [u8; 12]), CryptoError>(e)));
                return Err(VaultError::Crypto(e));
            },
        };
        let state = VaultState { salt, nonce, cipher };
        let bytes = encode_envelope(&state);
        match self.storage.save(bytes.as_slice()) {
            Ok(()) => {},
            Err(e) => {
                return Err(VaultError::Storage(e));
            },
        }
        self.vault_state = Some(state);
        self.dirty = false;
        Ok(())
    }
}

} // verus!
