//! The vault typestate: [`LockedVault`] and [`UnlockedVault`].
//!
//! A [`LockedVault`] is a parsed header plus the sealed body and holds no key
//! material. An [`UnlockedVault`] owns the session (the derived key) and the
//! decrypted body; entries can be read and changed only through it.
//!
//! Every operation that needs fresh randomness (a salt, a nonce, an entry id)
//! comes in two forms: one that takes the random bytes as an argument and
//! has an exact contract, and one that draws them from the OS and reports a
//! failing random source as [`VaultError::Crypto`].

use vstd::prelude::*;

use crate::vault_core::body_codec::{body_json, decode_body, encode_body};
use crate::vault_core::crypto::{
    argon2_inputs_accepted, argon2_params_accepted, argon2id_v13_32, derive_key, open, seal,
    xchacha20poly1305_open, xchacha20poly1305_seal, KdfParams,
};
use crate::vault_core::entry::{
    entries_view, Entry, EntryModel, EntryPatch, NewEntry, VaultBody, VaultBodyModel,
    VAULT_BODY_VERSION,
};
use crate::vault_core::error::VaultError;
use crate::vault_core::format::{
    build_header_bytes, copy_16, copy_24, decode, decode_error, encode, file_bytes_of,
    header_bytes_of, header_describes, header_read_from, HeaderFields, ParsedHeader,
};
use crate::vault_core::generator::string_from_chars;
use crate::vault_core::random::os_random_bytes;
use crate::vault_core::session::Session;

verus! {

/// A vault at rest: a parsed header plus the sealed body, holding no key
/// material.
#[derive(Debug, Clone)]
pub struct LockedVault {
    header: ParsedHeader,
    ciphertext: Vec<u8>,
}

/// The contents of a [`LockedVault`].
pub struct LockedVaultModel {
    pub header: ParsedHeader,
    pub ciphertext: Seq<u8>,
}

impl View for LockedVault {
    type V = LockedVaultModel;

    closed spec fn view(&self) -> LockedVaultModel {
        LockedVaultModel { header: self.header, ciphertext: self.ciphertext@ }
    }
}

/// An unlocked, in-memory vault: the session key and the decrypted body.
pub struct UnlockedVault {
    session: Session,
    body: VaultBody,
}

/// The contents of an [`UnlockedVault`].
pub struct UnlockedVaultModel {
    pub key: Seq<u8>,
    pub salt: [u8; 16],
    pub params: KdfParams,
    pub body: VaultBodyModel,
}

impl View for UnlockedVault {
    type V = UnlockedVaultModel;

    closed spec fn view(&self) -> UnlockedVaultModel {
        UnlockedVaultModel {
            key: self.session@.key,
            salt: self.session@.salt,
            params: self.session@.params,
            body: self.body@,
        }
    }
}

// ---- Specifications ------------------------------------------------------------

/// The key derived from `password` with `salt` and `params`.
pub open spec fn key_for(password: Seq<char>, salt: [u8; 16], params: KdfParams) -> Seq<u8> {
    argon2id_v13_32(
        vstd::utf8::encode_utf8(password),
        salt@,
        params.m_cost_kib,
        params.t_cost,
        params.p_cost,
    )
}

/// Argon2 accepts `params`, and `password` with a 16-byte salt.
pub open spec fn derivation_accepted(password: Seq<char>, salt: [u8; 16], params: KdfParams) -> bool {
    &&& argon2_params_accepted(params.m_cost_kib, params.t_cost, params.p_cost)
    &&& argon2_inputs_accepted(vstd::utf8::encode_utf8(password), salt@)
}

/// The Argon2 costs recorded in a header.
pub open spec fn params_of(h: ParsedHeader) -> KdfParams {
    KdfParams { m_cost_kib: h.m_cost_kib, t_cost: h.t_cost, p_cost: h.p_cost }
}

/// An empty body at the current schema version.
pub open spec fn empty_body() -> VaultBodyModel {
    VaultBodyModel { version: VAULT_BODY_VERSION, entries: Seq::empty() }
}

/// The plaintext the sealed body of `l` opens to under the key derived from
/// `password`, if it authenticates.
pub open spec fn unlocked_plaintext(l: LockedVaultModel, password: Seq<char>) -> Option<Seq<u8>> {
    xchacha20poly1305_open(
        key_for(password, l.header.salt, params_of(l.header)),
        l.header.nonce@,
        l.ciphertext,
        l.header.header_bytes@,
    )
}

/// With `password`, the locked vault `l` opens to the body `m`.
pub open spec fn unlocks_to(l: LockedVaultModel, password: Seq<char>, m: VaultBodyModel) -> bool {
    &&& derivation_accepted(password, l.header.salt, params_of(l.header))
    &&& unlocked_plaintext(l, password) == Some(body_json(m))
}

/// The header fields of a seal of `u` with `nonce`.
pub open spec fn fields_for(u: UnlockedVaultModel, nonce: [u8; 24]) -> HeaderFields {
    HeaderFields {
        m_cost_kib: u.params.m_cost_kib,
        t_cost: u.params.t_cost,
        p_cost: u.params.p_cost,
        salt: u.salt,
        nonce,
    }
}

/// The ciphertext of the body `m` sealed with the key of `u` and `nonce`,
/// bound to the header.
pub open spec fn sealed_body(u: UnlockedVaultModel, nonce: [u8; 24], m: VaultBodyModel) -> Seq<u8> {
    xchacha20poly1305_seal(
        u.key,
        nonce@,
        body_json(m),
        header_bytes_of(fields_for(u, nonce)),
    )
}

/// The sealed body `m` opens back to its encoding and carries the tag.
pub open spec fn seal_opens(u: UnlockedVaultModel, nonce: [u8; 24], m: VaultBodyModel) -> bool {
    &&& xchacha20poly1305_open(
        u.key,
        nonce@,
        sealed_body(u, nonce, m),
        header_bytes_of(fields_for(u, nonce)),
    ) == Some(body_json(m))
    &&& sealed_body(u, nonce, m).len() == body_json(m).len() + 16
}

/// The vault file of `u` sealed with `nonce`.
pub open spec fn sealed_file(u: UnlockedVaultModel, nonce: [u8; 24]) -> Seq<u8> {
    file_bytes_of(fields_for(u, nonce), sealed_body(u, nonce, u.body))
}

/// The body of `u` fits the sealing limits: its encoding and the file around
/// it stay within `usize`, and the cipher accepts its length.
pub open spec fn body_sealable(m: VaultBodyModel) -> bool {
    &&& body_json(m).len() + 92 <= usize::MAX
    &&& body_json(m).len() / 64 < u32::MAX
}

// ---- Hex identifiers -------------------------------------------------------------

/// The lowercase hex digit of `n` (below 16).
pub open spec fn hex_char(n: u8) -> char {
    if n < 10 {
        (48 + n) as char
    } else {
        (87 + n) as char
    }
}

/// The lowercase hex encoding of `bytes`, two digits per byte.
pub open spec fn hex_lower(bytes: Seq<u8>) -> Seq<char>
    decreases bytes.len(),
{
    if bytes.len() == 0 {
        seq![]
    } else {
        hex_lower(bytes.drop_last()) + seq![
            hex_char(bytes.last() / 16),
            hex_char(bytes.last() % 16),
        ]
    }
}

fn hex_char_exec(n: u8) -> (c: char)
    requires
        n < 16,
    ensures
        c == hex_char(n),
{
    if n < 10 {
        (48 + n) as char
    } else {
        (87 + n) as char
    }
}

/// Lowercase-hex encode `bytes`.
fn hex_encode_lower(bytes: &[u8]) -> (s: String)
    ensures
        s@ == hex_lower(bytes@),
{
    let mut chars: Vec<char> = Vec::new();
    let mut i: usize = 0;
    while i < bytes.len()
        invariant
            0 <= i <= bytes@.len(),
            chars@ == hex_lower(bytes@.take(i as int)),
        decreases bytes@.len() - i,
    {
        let b = bytes[i];
        chars.push(hex_char_exec(b / 16));
        chars.push(hex_char_exec(b % 16));
        proof {
            assert(bytes@.take(i + 1).drop_last() =~= bytes@.take(i as int));
            assert(bytes@.take(i + 1).last() == b);
        }
        i = i + 1;
        assert(chars@ =~= hex_lower(bytes@.take(i as int)));
    }
    assert(bytes@.take(bytes@.len() as int) =~= bytes@);
    string_from_chars(&chars)
}

// ---- Creating, opening and unlocking ---------------------------------------------

impl LockedVault {
    /// Create a new, empty vault with the given salt and return it unlocked.
    ///
    /// Fails with `InvalidKdfParams` on cost parameters Argon2 rejects and
    /// with `KeyDerivation` on a password Argon2 rejects.
    pub fn create_with_salt(master_password: &str, params: KdfParams, salt: [u8; 16]) -> (r: Result<UnlockedVault, VaultError>)
        ensures
            r is Ok <==> derivation_accepted(master_password@, salt, params),
            !argon2_params_accepted(params.m_cost_kib, params.t_cost, params.p_cost) ==> r matches Err(
                VaultError::InvalidKdfParams,
            ),
            argon2_params_accepted(params.m_cost_kib, params.t_cost, params.p_cost) && r is Err ==> r matches Err(
                VaultError::KeyDerivation,
            ),
            r matches Ok(v) ==> {
                &&& v@.key == key_for(master_password@, salt, params)
                &&& v@.salt == salt
                &&& v@.params == params
                &&& v@.body == empty_body()
            },
    {
        let key = match derive_key(master_password, &salt, &params) {
            Ok(k) => k,
            Err(e) => return Err(e),
        };
        let session = Session::new(key, salt, params);
        let body = VaultBody::default();
        assert(entries_view(body.entries@) =~= Seq::<EntryModel>::empty());
        Ok(UnlockedVault { session, body })
    }

    /// Create a new, empty vault with a fresh random salt and return it
    /// unlocked. A failing OS random source gives `Crypto`.
    pub fn create(master_password: &str, params: KdfParams) -> (r: Result<UnlockedVault, VaultError>)
        ensures
            r matches Ok(v) ==> {
                &&& v@.key == key_for(master_password@, v@.salt, params)
                &&& derivation_accepted(master_password@, v@.salt, params)
                &&& v@.params == params
                &&& v@.body == empty_body()
            },
            r matches Err(e) ==> {
                ||| e == VaultError::Crypto
                ||| e == VaultError::InvalidKdfParams && !argon2_params_accepted(
                    params.m_cost_kib,
                    params.t_cost,
                    params.p_cost,
                )
                ||| e == VaultError::KeyDerivation && argon2_params_accepted(
                    params.m_cost_kib,
                    params.t_cost,
                    params.p_cost,
                )
            },
            !argon2_params_accepted(params.m_cost_kib, params.t_cost, params.p_cost) ==> r is Err,
    {
        let raw = match os_random_bytes(16) {
            Some(v) => v,
            None => return Err(VaultError::Crypto),
        };
        let salt = copy_16(raw.as_slice(), 0);
        LockedVault::create_with_salt(master_password, params, salt)
    }

    /// Parse and validate a vault file's header and framing, without
    /// decrypting anything.
    pub fn open_from_bytes(bytes: &[u8]) -> (r: Result<LockedVault, VaultError>)
        ensures
            match r {
                Err(e) => decode_error(bytes@) == Some(e),
                Ok(l) => {
                    &&& decode_error(bytes@) is None
                    &&& header_read_from(l@.header, bytes@)
                    &&& l@.ciphertext == bytes@.skip(76)
                },
            },
    {
        match decode(bytes) {
            Err(e) => Err(e),
            Ok((header, ct)) => Ok(LockedVault { header, ciphertext: vstd::slice::slice_to_vec(ct) }),
        }
    }

    /// The parsed header of this vault.
    pub fn header(&self) -> (h: &ParsedHeader)
        ensures
            *h == self@.header,
    {
        &self.header
    }
}

impl UnlockedVault {
    /// Unlock `locked` with `master_password`.
    ///
    /// Re-derives the key from the header's salt and costs and opens the body,
    /// binding the full header as associated data. Every authentication
    /// failure gives `WrongPassword`; a body that authenticates but is not the
    /// encoding of a vault body gives `Serialization`.
    pub fn unlock(locked: &LockedVault, master_password: &str) -> (r: Result<UnlockedVault, VaultError>)
        ensures
            !argon2_params_accepted(
                locked@.header.m_cost_kib,
                locked@.header.t_cost,
                locked@.header.p_cost,
            ) ==> (r matches Err(VaultError::InvalidKdfParams)),
            argon2_params_accepted(
                locked@.header.m_cost_kib,
                locked@.header.t_cost,
                locked@.header.p_cost,
            ) && !derivation_accepted(
                master_password@,
                locked@.header.salt,
                params_of(locked@.header),
            ) ==> (r matches Err(VaultError::KeyDerivation)),
            derivation_accepted(master_password@, locked@.header.salt, params_of(locked@.header))
                && unlocked_plaintext(locked@, master_password@) is None ==> (r matches Err(
                VaultError::WrongPassword,
            )),
            derivation_accepted(master_password@, locked@.header.salt, params_of(locked@.header))
                && unlocked_plaintext(locked@, master_password@) is Some && (forall|
                m: VaultBodyModel,
            |
                body_json(m) != unlocked_plaintext(locked@, master_password@)->0) ==> (r matches Err(
                VaultError::Serialization,
            )),
            r matches Ok(v) ==> unlocks_to(locked@, master_password@, v@.body) && v@.key == key_for(
                master_password@,
                locked@.header.salt,
                params_of(locked@.header),
            ) && v@.salt == locked@.header.salt && v@.params == params_of(locked@.header),
            forall|m: VaultBodyModel|
                #![trigger body_json(m)]
                unlocks_to(locked@, master_password@, m) ==> (r matches Ok(v) && v@.body == m),
    {
        let header = &locked.header;
        let params = KdfParams {
            m_cost_kib: header.m_cost_kib,
            t_cost: header.t_cost,
            p_cost: header.p_cost,
        };
        let key = match derive_key(master_password, &header.salt, &params) {
            Ok(k) => k,
            Err(e) => return Err(e),
        };
        let plaintext = match open(&key, &header.nonce, locked.ciphertext.as_slice(), &header.header_bytes) {
            Ok(p) => p,
            Err(e) => return Err(e),
        };
        let mut plaintext = plaintext;
        let decoded = decode_body(plaintext.as_slice());
        crate::vault_core::wipe::wipe_bytes(&mut plaintext);
        let body = match decoded {
            Some(b) => b,
            None => return Err(VaultError::Serialization),
        };
        let session = Session::new(key, header.salt, params);
        Ok(UnlockedVault { session, body })
    }
}


// ---- Entries ---------------------------------------------------------------------

/// The entry `add_entry` stores for `new` under `id`.
pub open spec fn new_entry_model(new: NewEntry, id: Seq<char>) -> EntryModel {
    EntryModel {
        id,
        title: new.title@,
        username: new.username@,
        password: new.password@,
        urls: crate::vault_core::entry::strings_view(new.urls@),
        notes: new.notes@,
        created: new.now@,
        updated: new.now@,
    }
}

/// `e` after applying `p`: each `Some` field replaces the old value,
/// `updated` becomes `p.now`, `id` and `created` stay.
pub open spec fn patched(e: EntryModel, p: EntryPatch) -> EntryModel {
    EntryModel {
        id: e.id,
        title: match p.title {
            Some(t) => t@,
            None => e.title,
        },
        username: match p.username {
            Some(u) => u@,
            None => e.username,
        },
        password: match p.password {
            Some(w) => w@,
            None => e.password,
        },
        urls: match p.urls {
            Some(u) => crate::vault_core::entry::strings_view(u@),
            None => e.urls,
        },
        notes: match p.notes {
            Some(n) => n@,
            None => e.notes,
        },
        created: e.created,
        updated: p.now@,
    }
}

/// Some entry has the id `id`.
pub open spec fn has_id(entries: Seq<EntryModel>, id: Seq<char>) -> bool {
    exists|i: int| 0 <= i < entries.len() && #[trigger] entries[i].id == id
}

/// `i` is the position of the first entry with the id `id`.
pub open spec fn is_first_with_id(entries: Seq<EntryModel>, id: Seq<char>, i: int) -> bool {
    &&& 0 <= i < entries.len()
    &&& entries[i].id == id
    &&& forall|j: int| 0 <= j < i ==> #[trigger] entries[j].id != id
}

/// The entries whose id is not `id`, in order.
pub open spec fn without_id(entries: Seq<EntryModel>, id: Seq<char>) -> Seq<EntryModel> {
    entries.filter(|e: EntryModel| e.id != id)
}

/// `after` is `before` with its entries replaced by `entries`.
pub open spec fn same_but_entries(
    before: UnlockedVaultModel,
    after: UnlockedVaultModel,
    entries: Seq<EntryModel>,
) -> bool {
    &&& after.key == before.key
    &&& after.salt == before.salt
    &&& after.params == before.params
    &&& after.body.version == before.body.version
    &&& after.body.entries == entries
}

impl UnlockedVault {
    /// The position of the first entry with the id `id`.
    fn find_index(&self, id: &String) -> (r: Option<usize>)
        ensures
            match r {
                Some(i) => is_first_with_id(self@.body.entries, id@, i as int),
                None => !has_id(self@.body.entries, id@),
            },
    {
        let mut i: usize = 0;
        while i < self.body.entries.len()
            invariant
                0 <= i <= self.body.entries@.len(),
                self@.body.entries == entries_view(self.body.entries@),
                forall|j: int| 0 <= j < i ==> #[trigger] self@.body.entries[j].id != id@,
            decreases self.body.entries@.len() - i,
        {
            if self.body.entries[i].id == *id {
                return Some(i);
            }
            i = i + 1;
        }
        None
    }

    /// Store `new` as an entry with the id written as the lowercase hex of
    /// `raw_id`; `created` and `updated` are both `new.now`. Returns the
    /// stored entry.
    pub fn insert_entry(&mut self, new: NewEntry, raw_id: &[u8; 16]) -> (e: &Entry)
        ensures
            same_but_entries(
                old(self)@,
                final(self)@,
                old(self)@.body.entries.push(new_entry_model(new, hex_lower(raw_id@))),
            ),
            e@ == new_entry_model(new, hex_lower(raw_id@)),
    {
        let ghost model = new_entry_model(new, hex_lower(raw_id@));
        let id = hex_encode_lower(raw_id);
        let created = new.now.clone();
        let entry = Entry {
            id,
            title: new.title,
            username: new.username,
            password: new.password,
            urls: new.urls,
            notes: new.notes,
            created,
            updated: new.now,
        };
        assert(entry@ == model);
        self.body.entries.push(entry);
        assert(entries_view(self.body.entries@) =~= old(self)@.body.entries.push(model));
        let n = self.body.entries.len();
        &self.body.entries[n - 1]
    }

    /// Add a new entry with a fresh random id (32 lowercase hex characters).
    /// A failing OS random source gives `Crypto` and changes nothing.
    pub fn add_entry(&mut self, new: NewEntry) -> (r: Result<&Entry, VaultError>)
        ensures
            match r {
                Err(e) => e == VaultError::Crypto && final(self)@ == old(self)@,
                Ok(e) => exists|raw: [u8; 16]|
                    {
                        &&& same_but_entries(
                            old(self)@,
                            final(self)@,
                            old(self)@.body.entries.push(new_entry_model(new, hex_lower(raw@))),
                        )
                        &&& e@ == new_entry_model(new, hex_lower(raw@))
                    },
            },
    {
        let raw = match os_random_bytes(16) {
            Some(v) => v,
            None => return Err(VaultError::Crypto),
        };
        let raw_id = copy_16(raw.as_slice(), 0);
        Ok(self.insert_entry(new, &raw_id))
    }

    /// The first entry with the id `id`, if any.
    pub fn get_entry(&self, id: &str) -> (r: Option<&Entry>)
        ensures
            match r {
                Some(e) => exists|i: int|
                    is_first_with_id(self@.body.entries, id@, i) && e@ == self@.body.entries[i],
                None => !has_id(self@.body.entries, id@),
            },
    {
        let key = id.to_owned();
        match self.find_index(&key) {
            Some(i) => Some(&self.body.entries[i]),
            None => None,
        }
    }

    /// Apply `patch` to the first entry with the id `id` and return it;
    /// `EntryNotFound(id)` when there is none, changing nothing.
    pub fn update_entry(&mut self, id: &str, patch: EntryPatch) -> (r: Result<&Entry, VaultError>)
        ensures
            has_id(old(self)@.body.entries, id@) <==> r is Ok,
            match r {
                Err(e) => final(self)@ == old(self)@ && (e matches VaultError::EntryNotFound(s)
                    && s@ == id@),
                Ok(e) => exists|i: int|
                    {
                        &&& is_first_with_id(old(self)@.body.entries, id@, i)
                        &&& same_but_entries(
                            old(self)@,
                            final(self)@,
                            old(self)@.body.entries.update(
                                i,
                                patched(old(self)@.body.entries[i], patch),
                            ),
                        )
                        &&& e@ == patched(old(self)@.body.entries[i], patch)
                    },
            },
    {
        let key = id.to_owned();
        let i = match self.find_index(&key) {
            Some(i) => i,
            None => return Err(VaultError::EntryNotFound(key)),
        };
        let ghost before = entries_view(self.body.entries@);
        let ghost target = patched(before[i as int], patch);
        let mut entry = self.body.entries.remove(i);
        if let Some(title) = patch.title {
            entry.title = title;
        }
        if let Some(username) = patch.username {
            entry.username = username;
        }
        if let Some(password) = patch.password {
            entry.password = password;
        }
        if let Some(urls) = patch.urls {
            entry.urls = urls;
        }
        if let Some(notes) = patch.notes {
            entry.notes = notes;
        }
        entry.updated = patch.now;
        assert(entry@ == target);
        self.body.entries.insert(i, entry);
        assert(entries_view(self.body.entries@) =~= before.update(i as int, target));
        Ok(&self.body.entries[i])
    }

    /// Delete every entry with the id `id`; `EntryNotFound(id)` when there
    /// is none, changing nothing.
    pub fn delete_entry(&mut self, id: &str) -> (r: Result<(), VaultError>)
        ensures
            has_id(old(self)@.body.entries, id@) <==> r is Ok,
            match r {
                Err(e) => final(self)@ == old(self)@ && (e matches VaultError::EntryNotFound(s)
                    && s@ == id@),
                Ok(_) => same_but_entries(
                    old(self)@,
                    final(self)@,
                    without_id(old(self)@.body.entries, id@),
                ),
            },
    {
        let key = id.to_owned();
        if self.find_index(&key).is_none() {
            return Err(VaultError::EntryNotFound(key));
        }
        let ghost before = entries_view(self.body.entries@);
        let ghost keep = |e: EntryModel| e.id != id@;
        let mut i: usize = 0;
        let ghost mut k: int = 0;
        while i < self.body.entries.len()
            invariant
                0 <= i <= k <= before.len(),
                i <= self.body.entries@.len(),
                key@ == id@,
                keep == (|e: EntryModel| e.id != id@),
                entries_view(self.body.entries@).take(i as int) == before.take(k).filter(keep),
                entries_view(self.body.entries@).skip(i as int) == before.skip(k),
                self.session@ == old(self).session@,
                self.body.version == old(self).body.version,
                before == old(self)@.body.entries,
            decreases self.body.entries@.len() - i,
        {
            let ghost cur = entries_view(self.body.entries@);
            proof {
                assert(cur.skip(i as int).len() == cur.len() - i);
                assert(k < before.len());
                assert(before[k] == cur.skip(i as int)[0]);
                assert(before.take(k + 1).drop_last() =~= before.take(k));
                assert(before.take(k + 1).last() == before[k]);
                reveal(Seq::filter);
            }
            if self.body.entries[i].id == key {
                self.body.entries.remove(i);
                proof {
                    let now = entries_view(self.body.entries@);
                    assert(now.take(i as int) =~= cur.take(i as int));
                    assert(now =~= cur.remove(i as int));
                    assert forall|j: int| 0 <= j < now.skip(i as int).len() implies #[trigger] now.skip(
                        i as int,
                    )[j] == before.skip(k + 1)[j] by {
                        assert(now.skip(i as int)[j] == cur.skip(i as int)[j + 1]);
                        assert(before.skip(k + 1)[j] == before.skip(k)[j + 1]);
                    }
                    assert(now.skip(i as int) =~= before.skip(k + 1));
                    assert(before.take(k + 1).filter(keep) == before.take(k).filter(keep));
                    k = k + 1;
                }
            } else {
                proof {
                    let ghost_i = i as int;
                    assert(cur.take(ghost_i + 1) =~= cur.take(ghost_i).push(cur[ghost_i]));
                    assert(before.take(k + 1).filter(keep) == before.take(k).filter(keep).push(before[k]));
                    assert forall|j: int| 0 <= j < cur.skip(ghost_i + 1).len() implies #[trigger] cur.skip(
                        ghost_i + 1,
                    )[j] == before.skip(k + 1)[j] by {
                        assert(cur.skip(ghost_i + 1)[j] == cur.skip(ghost_i)[j + 1]);
                        assert(before.skip(k + 1)[j] == before.skip(k)[j + 1]);
                    }
                    assert(cur.skip(ghost_i + 1) =~= before.skip(k + 1));
                    k = k + 1;
                }
                i = i + 1;
            }
        }
        proof {
            let now = entries_view(self.body.entries@);
            assert(now.take(i as int) =~= now);
            assert(now.skip(i as int).len() == 0);
            assert(before.skip(k).len() == 0);
            assert(before.take(k) =~= before);
        }
        Ok(())
    }

    /// All entries, in insertion order.
    pub fn list_entries(&self) -> (s: &[Entry])
        ensures
            entries_view(s@) == self@.body.entries,
    {
        self.body.entries.as_slice()
    }
}


// ---- Sealing -----------------------------------------------------------------------

/// The header `lock` records for a seal with `f`.
fn parsed_header_for(f: &HeaderFields) -> (h: ParsedHeader)
    ensures
        header_describes(h, *f),
{
    ParsedHeader {
        format_version: crate::vault_core::format::FORMAT_VERSION,
        kdf_id: crate::vault_core::format::KDF_ID_ARGON2ID,
        cipher_id: crate::vault_core::format::CIPHER_ID_XCHACHA20POLY1305,
        m_cost_kib: f.m_cost_kib,
        t_cost: f.t_cost,
        p_cost: f.p_cost,
        argon2_version: crate::vault_core::format::ARGON2_VERSION,
        salt: f.salt,
        nonce: f.nonce,
        header_bytes: build_header_bytes(f),
    }
}

proof fn lemma_empty_body_sealable()
    ensures
        body_sealable(empty_body()),
{
    let m = empty_body();
    assert(crate::vault_core::body_codec::entry_jsons(m.entries) =~= Seq::<Seq<u8>>::empty());
    assert(crate::vault_core::body_codec::decimal(1) == seq![49u8]);
    assert(body_json(m).len() == 26);
}

impl UnlockedVault {
    /// The header fields of a seal of this vault with `nonce`.
    fn fields_with(&self, nonce: [u8; 24]) -> (f: HeaderFields)
        ensures
            f == fields_for(self@, nonce),
    {
        let params = self.session.params();
        HeaderFields {
            m_cost_kib: params.m_cost_kib,
            t_cost: params.t_cost,
            p_cost: params.p_cost,
            salt: *self.session.salt(),
            nonce,
        }
    }

    /// Encode `body` and seal it with this vault's key and `nonce`, bound to
    /// the header of that seal.
    ///
    /// An encoding too long to frame gives `Serialization`; one the cipher
    /// rejects gives `Crypto`.
    fn seal_body_with_fields(&self, body: &VaultBody, nonce: [u8; 24]) -> (r: Result<
        Vec<u8>,
        VaultError,
    >)
        ensures
            r is Ok <==> body_sealable(body@),
            body_json(body@).len() + 92 > usize::MAX ==> r matches Err(VaultError::Serialization),
            body_json(body@).len() + 92 <= usize::MAX && r is Err ==> r matches Err(
                VaultError::Crypto,
            ),
            r matches Ok(ct) ==> ct@ == sealed_body(self@, nonce, body@) && seal_opens(
                self@,
                nonce,
                body@,
            ),
    {
        let mut json = encode_body(body);
        if json.len() > usize::MAX - 92 {
            crate::vault_core::wipe::wipe_bytes(&mut json);
            return Err(VaultError::Serialization);
        }
        let fields = self.fields_with(nonce);
        let header_bytes = build_header_bytes(&fields);
        let sealed = seal(self.session.key(), &nonce, json.as_slice(), &header_bytes);
        crate::vault_core::wipe::wipe_bytes(&mut json);
        sealed
    }

    /// Encode and seal the current body with `nonce` into the on-disk byte
    /// format.
    ///
    /// Succeeds exactly when the body's encoding fits the sealing limits; the
    /// file holds the header of the seal and the sealed body, which opens
    /// back to the body's encoding.
    pub fn to_bytes_with_nonce(&self, nonce: [u8; 24]) -> (r: Result<Vec<u8>, VaultError>)
        ensures
            r is Ok <==> body_sealable(self@.body),
            body_json(self@.body).len() + 92 > usize::MAX ==> r matches Err(
                VaultError::Serialization,
            ),
            body_json(self@.body).len() + 92 <= usize::MAX && r is Err ==> r matches Err(
                VaultError::Crypto,
            ),
            r matches Ok(b) ==> b@ == sealed_file(self@, nonce) && seal_opens(
                self@,
                nonce,
                self@.body,
            ),
    {
        let ct = match self.seal_body_with_fields(&self.body, nonce) {
            Ok(ct) => ct,
            Err(e) => return Err(e),
        };
        let fields = self.fields_with(nonce);
        Ok(encode(&fields, ct.as_slice()))
    }

    /// Encode and seal the current body into the on-disk byte format, with a
    /// fresh random nonce on every call. A failing OS random source gives
    /// `Crypto`.
    pub fn to_bytes(&self) -> (r: Result<Vec<u8>, VaultError>)
        ensures
            r matches Ok(b) ==> exists|nonce: [u8; 24]|
                b@ == sealed_file(self@, nonce) && seal_opens(self@, nonce, self@.body),
            r matches Ok(_) ==> body_sealable(self@.body),
            r matches Err(e) ==> e == VaultError::Crypto || (e == VaultError::Serialization
                && body_json(self@.body).len() + 92 > usize::MAX),
    {
        let raw = match os_random_bytes(24) {
            Some(v) => v,
            None => return Err(VaultError::Crypto),
        };
        let nonce = copy_24(raw.as_slice(), 0);
        self.to_bytes_with_nonce(nonce)
    }

    /// Lock the vault, sealing the current body with `nonce`, and return the
    /// locked vault; the key is overwritten with zeros and goes with `self`.
    ///
    /// A body that does not fit the sealing limits is replaced by an empty
    /// body in the seal.
    pub fn lock_with_nonce(self, nonce: [u8; 24]) -> (r: LockedVault)
        ensures
            locked_with(self@, nonce, r@),
    {
        let fields = self.fields_with(nonce);
        let header = parsed_header_for(&fields);
        let ciphertext = match self.seal_body_with_fields(&self.body, nonce) {
            Ok(ct) => ct,
            Err(_) => {
                let empty = VaultBody::default();
                proof {
                    assert(entries_view(empty.entries@) =~= Seq::<EntryModel>::empty());
                    assert(empty@ == empty_body());
                    lemma_empty_body_sealable();
                }
                match self.seal_body_with_fields(&empty, nonce) {
                    Ok(ct) => ct,
                    Err(_) => Vec::new(),
                }
            },
        };
        let UnlockedVault { mut session, body: _ } = self;
        session.wipe_key();
        LockedVault { header, ciphertext }
    }

    /// Lock the vault with a fresh random nonce and return the locked vault;
    /// the key is overwritten with zeros and goes with `self`. `Crypto` when
    /// the OS random source fails; the key is overwritten then too.
    pub fn lock(self) -> (r: Result<LockedVault, VaultError>)
        ensures
            r matches Ok(l) ==> locked_from(self@, l@),
            r matches Err(e) ==> e == VaultError::Crypto,
    {
        match os_random_bytes(24) {
            Some(raw) => {
                let nonce = copy_24(raw.as_slice(), 0);
                let ghost before = self@;
                let r = self.lock_with_nonce(nonce);
                assert(locked_with(before, nonce, r@));
                Ok(r)
            },
            None => {
                let UnlockedVault { mut session, body: _ } = self;
                session.wipe_key();
                Err(VaultError::Crypto)
            },
        }
    }
}

// ---- Laws --------------------------------------------------------------------------

/// Updating an entry as [`UnlockedVault::update_entry`] does (the first
/// entry with the id `id`, patched by `p`) changes exactly what the patch
/// asks: that entry keeps its id and creation time, takes every field the
/// patch sets, keeps every field the patch leaves out, and records the
/// patch's time as its last change; the other entries, their number and
/// order, and the key, salt, parameters and version stay.
pub proof fn lemma_update_entry_applies_patch(
    before: UnlockedVaultModel,
    after: UnlockedVaultModel,
    id: Seq<char>,
    p: EntryPatch,
    i: int,
)
    requires
        is_first_with_id(before.body.entries, id, i),
        same_but_entries(
            before,
            after,
            before.body.entries.update(i, patched(before.body.entries[i], p)),
        ),
    ensures
        after.key == before.key && after.salt == before.salt && after.params == before.params,
        after.body.version == before.body.version,
        after.body.entries.len() == before.body.entries.len(),
        forall|j: int|
            0 <= j < before.body.entries.len() && j != i ==> #[trigger] after.body.entries[j]
                == before.body.entries[j],
        ({
            let old_e = before.body.entries[i];
            let new_e = after.body.entries[i];
            &&& new_e.id == id
            &&& new_e.created == old_e.created
            &&& new_e.updated == p.now@
            &&& (p.title matches Some(t) ==> new_e.title == t@)
            &&& (p.title is None ==> new_e.title == old_e.title)
            &&& (p.username matches Some(u) ==> new_e.username == u@)
            &&& (p.username is None ==> new_e.username == old_e.username)
            &&& (p.password matches Some(w) ==> new_e.password == w@)
            &&& (p.password is None ==> new_e.password == old_e.password)
            &&& (p.urls matches Some(u) ==> new_e.urls.len() == u@.len() && forall|k: int|
                0 <= k < u@.len() ==> #[trigger] new_e.urls[k] == u@[k]@)
            &&& (p.urls is None ==> new_e.urls == old_e.urls)
            &&& (p.notes matches Some(n) ==> new_e.notes == n@)
            &&& (p.notes is None ==> new_e.notes == old_e.notes)
        }),
{
}


/// `l` is `u` locked with `nonce`: the header for `u` with that nonce, and
/// the body sealed under it (the empty body when `u`'s body cannot be
/// sealed).
pub open spec fn locked_with(u: UnlockedVaultModel, nonce: [u8; 24], l: LockedVaultModel) -> bool {
    &&& header_describes(l.header, fields_for(u, nonce))
    &&& body_sealable(u.body) ==> l.ciphertext == sealed_body(u, nonce, u.body) && seal_opens(
        u,
        nonce,
        u.body,
    )
    &&& !body_sealable(u.body) ==> l.ciphertext == sealed_body(u, nonce, empty_body())
        && seal_opens(u, nonce, empty_body())
}

/// `l` is `u` locked with some nonce.
pub open spec fn locked_from(u: UnlockedVaultModel, l: LockedVaultModel) -> bool {
    exists|nonce: [u8; 24]| #[trigger] locked_with(u, nonce, l)
}

/// Locking a vault whose key was derived from `password`, with any nonce,
/// gives a locked vault that unlocks with that password to the body it
/// held, whenever the body fits the machine's limits.
pub proof fn lemma_lock_unlocks(u: UnlockedVaultModel, l: LockedVaultModel, password: Seq<char>)
    requires
        u.key == key_for(password, u.salt, u.params),
        derivation_accepted(password, u.salt, u.params),
        body_sealable(u.body),
        locked_from(u, l),
    ensures
        unlocks_to(l, password, u.body),
{
    let nonce = choose|nonce: [u8; 24]| #[trigger] locked_with(u, nonce, l);
    lemma_locked_vault_unlocks(u, nonce, u.body, password, l.header);
    assert(l == LockedVaultModel { header: l.header, ciphertext: sealed_body(u, nonce, u.body) });
}

/// A vault locked with the key derived from `password` unlocks, with that
/// password, to the body that was sealed.
pub proof fn lemma_locked_vault_unlocks(
    u: UnlockedVaultModel,
    nonce: [u8; 24],
    m: VaultBodyModel,
    password: Seq<char>,
    h: ParsedHeader,
)
    requires
        u.key == key_for(password, u.salt, u.params),
        derivation_accepted(password, u.salt, u.params),
        seal_opens(u, nonce, m),
        header_describes(h, fields_for(u, nonce)),
    ensures
        unlocks_to(LockedVaultModel { header: h, ciphertext: sealed_body(u, nonce, m) }, password, m),
{
    assert(params_of(h) == u.params);
}

/// The file written for a vault whose key was derived from `password`
/// decodes, and the vault it opens to unlocks with that password to the
/// body that was saved.
pub proof fn lemma_saved_vault_unlocks(u: UnlockedVaultModel, nonce: [u8; 24], password: Seq<char>)
    requires
        u.key == key_for(password, u.salt, u.params),
        derivation_accepted(password, u.salt, u.params),
        seal_opens(u, nonce, u.body),
        sealed_file(u, nonce).len() <= u64::MAX,
    ensures
        decode_error(sealed_file(u, nonce)) is None,
        forall|h: ParsedHeader|
            #![trigger header_read_from(h, sealed_file(u, nonce))]
            header_read_from(h, sealed_file(u, nonce)) ==> unlocks_to(
                LockedVaultModel { header: h, ciphertext: sealed_file(u, nonce).skip(76) },
                password,
                u.body,
            ),
{
    let f = fields_for(u, nonce);
    let ct = sealed_body(u, nonce, u.body);
    assert forall|h: ParsedHeader|
        #![trigger header_read_from(h, sealed_file(u, nonce))]
        header_read_from(h, sealed_file(u, nonce)) implies unlocks_to(
            LockedVaultModel { header: h, ciphertext: sealed_file(u, nonce).skip(76) },
            password,
            u.body,
        ) by {
        crate::vault_core::format::lemma_decode_encode(f, ct, h);
        lemma_locked_vault_unlocks(u, nonce, u.body, password, h);
    }
    let h0 = arbitrary::<ParsedHeader>();
    crate::vault_core::format::lemma_decode_encode(f, ct, h0);
}

/// The lowercase hex encoding of `n` bytes has `2 n` characters, each a
/// digit or one of `a` to `f`.
pub proof fn lemma_hex_lower_shape(bytes: Seq<u8>)
    ensures
        hex_lower(bytes).len() == 2 * bytes.len(),
        forall|i: int|
            0 <= i < hex_lower(bytes).len() ==> {
                let c = #[trigger] hex_lower(bytes)[i];
                ('0' <= c && c <= '9') || ('a' <= c && c <= 'f')
            },
    decreases bytes.len(),
{
    if bytes.len() > 0 {
        lemma_hex_lower_shape(bytes.drop_last());
        let h = hex_lower(bytes);
        let p = hex_lower(bytes.drop_last());
        assert forall|i: int| 0 <= i < h.len() implies {
            let c = #[trigger] h[i];
            ('0' <= c && c <= '9') || ('a' <= c && c <= 'f')
        } by {
            if i < p.len() {
                assert(h[i] == p[i]);
            }
        }
    }
}

} // verus!
