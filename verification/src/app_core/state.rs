//! The application session and its service operations.
//!
//! [`AppState`] is either locked (no key material in memory) or unlocked,
//! holding the live [`UnlockedVault`] and the monotonic time of the last
//! activity, which decides idle auto-lock. It performs no I/O and reads no
//! clock: an operation takes what the caller read (whether the vault file
//! exists and its bytes, the current time) and returns the bytes the caller
//! is to write back to the vault file. Reads and successful writes count as
//! activity and defer auto-lock; the caller reports a successful write with
//! [`AppState::touch`].

use vstd::prelude::*;

use crate::app_core::dto::{
    string_views, summarizes, views, EntryInput, EntryPatchInput, EntrySummary, EntryView,
    GeneratorOptionsDto, StatusDto, options_of,
};
use crate::app_core::error::{maps_vault_error, AppError};
use crate::vault_core::crypto::KdfParams;
use crate::vault_core::entry::{Entry, EntryModel, EntryPatch, NewEntry};
use crate::vault_core::error::VaultError;
use crate::vault_core::format::{decode_error, header_read_from, ParsedHeader};
use crate::vault_core::generator::{
    charset_of, generate_password, options_valid, password_of, PasswordOptions,
};
use crate::vault_core::vault::{
    derivation_accepted, empty_body, has_id, hex_lower, is_first_with_id, key_for,
    new_entry_model, params_of, patched, same_but_entries, seal_opens, sealed_file, unlocks_to,
    without_id, LockedVault, LockedVaultModel, UnlockedVault, UnlockedVaultModel,
};

verus! {

/// Whether a vault is open, and if so the live session data.
pub enum SessionState {
    /// No vault is open; no key material is in memory.
    Locked,
    /// A vault is open.
    Unlocked {
        /// The unlocked vault, holding the derived key.
        vault: UnlockedVault,
        /// Monotonic time of the last activity, in milliseconds.
        last_activity_ms: u64,
    },
}

/// The contents of a [`SessionState`].
pub enum SessionModel {
    Locked,
    Unlocked { vault: UnlockedVaultModel, last_activity_ms: u64 },
}

impl View for SessionState {
    type V = SessionModel;

    open spec fn view(&self) -> SessionModel {
        match self {
            SessionState::Locked => SessionModel::Locked,
            SessionState::Unlocked { vault, last_activity_ms } => SessionModel::Unlocked {
                vault: vault@,
                last_activity_ms: *last_activity_ms,
            },
        }
    }
}

/// The mutable session: the state plus the idle window it is judged by.
pub struct Session {
    state: SessionState,
    idle_timeout_secs: u64,
}

/// The contents of a [`Session`] or an [`AppState`].
pub struct AppStateModel {
    pub session: SessionModel,
    pub idle_timeout_secs: u64,
}

impl View for Session {
    type V = AppStateModel;

    closed spec fn view(&self) -> AppStateModel {
        AppStateModel { session: self.state@, idle_timeout_secs: self.idle_timeout_secs }
    }
}

impl Session {
    /// Lock in place, dropping the key. Returns whether a vault was open.
    pub fn do_lock(&mut self) -> (was_unlocked: bool)
        ensures
            was_unlocked == (old(self)@.session is Unlocked),
            final(self)@.session is Locked,
            final(self)@.idle_timeout_secs == old(self)@.idle_timeout_secs,
    {
        let mut st = SessionState::Locked;
        std::mem::swap(&mut st, &mut self.state);
        match st {
            SessionState::Unlocked { vault, .. } => {
                let _ = vault.lock();
                true
            },
            SessionState::Locked => false,
        }
    }
}

/// The vault file as the caller found it.
pub enum VaultFile {
    /// No vault file exists.
    Missing,
    /// A vault file exists but could not be read.
    Unreadable,
    /// The vault file's bytes.
    Bytes(Vec<u8>),
}

/// The application state: the session, owned by one caller at a time.
pub struct AppState {
    session: Session,
}

impl View for AppState {
    type V = AppStateModel;

    closed spec fn view(&self) -> AppStateModel {
        self.session@
    }
}

// ---- Specifications ------------------------------------------------------------

/// The Argon2 costs new vaults are created with.
pub open spec fn default_params() -> KdfParams {
    KdfParams { m_cost_kib: 65536, t_cost: 3, p_cost: 1 }
}

/// `b` is the file written for `u` with some nonce.
pub open spec fn saved(u: UnlockedVaultModel, b: Seq<u8>) -> bool {
    exists|nonce: [u8; 24]| b == sealed_file(u, nonce) && seal_opens(u, nonce, u.body)
}

/// The status reported for `m` when the vault file exists or not.
pub open spec fn status_of(m: AppStateModel, has_vault: bool) -> StatusDto {
    StatusDto {
        has_vault,
        unlocked: m.session is Unlocked,
        idle_timeout_secs: m.idle_timeout_secs,
    }
}

/// `after` is `before` with the unlocked vault replaced by `v` and the
/// last activity by `t`.
pub open spec fn with_vault(before: AppStateModel, after: AppStateModel, v: UnlockedVaultModel, t: u64) -> bool {
    &&& after.idle_timeout_secs == before.idle_timeout_secs
    &&& after.session == SessionModel::Unlocked { vault: v, last_activity_ms: t }
}

/// `m` with the last activity moved to `now` when a vault is open.
pub open spec fn touched(m: AppStateModel, now_ms: u64) -> AppStateModel {
    match m.session {
        SessionModel::Unlocked { vault, .. } => AppStateModel {
            session: SessionModel::Unlocked { vault, last_activity_ms: now_ms },
            idle_timeout_secs: m.idle_timeout_secs,
        },
        SessionModel::Locked => m,
    }
}

/// Milliseconds idle at `now_ms` since `last_ms` (zero if the clock reads
/// earlier).
pub open spec fn idle_ms(now_ms: u64, last_ms: u64) -> int {
    if now_ms >= last_ms {
        now_ms - last_ms
    } else {
        0
    }
}

/// At `now_ms` the open vault of `m` has been idle for its whole window; a
/// zero window never elapses.
pub open spec fn idle_elapsed(m: AppStateModel, now_ms: u64) -> bool {
    &&& m.session is Unlocked
    &&& m.idle_timeout_secs != 0
    &&& idle_ms(now_ms, m.session->last_activity_ms) >= m.idle_timeout_secs * 1000
}

/// The entry `add_entry` stores for `input` at wall time `now`.
pub open spec fn new_entry_of(input: EntryInput, now: String) -> NewEntry {
    NewEntry {
        title: input.title,
        username: input.username,
        password: input.password,
        urls: input.urls,
        notes: input.notes,
        now,
    }
}

/// The vault patch for `patch` at wall time `now`.
pub open spec fn entry_patch_of(patch: EntryPatchInput, now: String) -> EntryPatch {
    EntryPatch {
        title: patch.title,
        username: patch.username,
        password: patch.password,
        urls: patch.urls,
        notes: patch.notes,
        now,
    }
}

/// The vault file `b` decodes, and with `password` it unlocks to the body
/// `m`, whichever header is read from it.
pub open spec fn opens_to(b: Seq<u8>, password: Seq<char>, m: crate::vault_core::entry::VaultBodyModel) -> bool {
    &&& decode_error(b) is None
    &&& forall|h: ParsedHeader|
        #![trigger header_read_from(h, b)]
        header_read_from(h, b) ==> unlocks_to(
            LockedVaultModel { header: h, ciphertext: b.skip(76) },
            password,
            m,
        )
}

/// Listing the entries after [`AppState::update_entry`] changed the entry
/// with the id `id` at the time `now` shows that change: the entry's summary
/// carries `now` as its last change, keeps its id, and shows the new title,
/// username and first URL where the patch set them and the old ones where it
/// did not; the other entries are listed as before.
pub proof fn lemma_listing_after_update(
    before: UnlockedVaultModel,
    after: UnlockedVaultModel,
    id: Seq<char>,
    patch: EntryPatchInput,
    now: String,
    i: int,
    l: Seq<EntrySummary>,
)
    requires
        is_first_with_id(before.body.entries, id, i),
        same_but_entries(
            before,
            after,
            before.body.entries.update(
                i,
                patched(before.body.entries[i], entry_patch_of(patch, now)),
            ),
        ),
        l.len() == after.body.entries.len(),
        forall|j: int| 0 <= j < l.len() ==> #[trigger] summarizes(l[j], after.body.entries[j]),
    ensures
        l.len() == before.body.entries.len(),
        l[i].updated@ == now@,
        l[i].id@ == id,
        patch.title matches Some(t) ==> l[i].title@ == t@,
        patch.title is None ==> l[i].title@ == before.body.entries[i].title,
        patch.username matches Some(u) ==> l[i].username@ == u@,
        patch.username is None ==> l[i].username@ == before.body.entries[i].username,
        patch.urls matches Some(u) ==> (u@.len() == 0 ==> l[i].primary_url is None),
        patch.urls matches Some(u) ==> (u@.len() > 0 ==> (l[i].primary_url matches Some(f) && f@
            == u@[0]@)),
        forall|j: int|
            0 <= j < l.len() && j != i ==> #[trigger] l[j].updated@ == before.body.entries[j].updated
                && l[j].id@ == before.body.entries[j].id,
{
    crate::vault_core::vault::lemma_update_entry_applies_patch(
        before,
        after,
        id,
        entry_patch_of(patch, now),
        i,
    );
    assert(summarizes(l[i], after.body.entries[i]));
    assert forall|j: int| 0 <= j < l.len() && j != i implies #[trigger] l[j].updated@
        == before.body.entries[j].updated && l[j].id@ == before.body.entries[j].id by {
        assert(summarizes(l[j], after.body.entries[j]));
    }
}

/// A vault file written for a vault whose key was derived from `password`
/// opens, with that password, to the body that was written.
pub proof fn lemma_saved_file_opens(v: UnlockedVaultModel, b: Seq<u8>, password: Seq<char>)
    requires
        v.key == key_for(password, v.salt, v.params),
        derivation_accepted(password, v.salt, v.params),
        saved(v, b),
        b.len() <= u64::MAX,
    ensures
        opens_to(b, password, v.body),
{
    let nonce = choose|nonce: [u8; 24]| b == sealed_file(v, nonce) && seal_opens(v, nonce, v.body);
    crate::vault_core::vault::lemma_saved_vault_unlocks(v, nonce, password);
}

/// Two headers read from the same file are the same header.
proof fn lemma_header_unique(h1: ParsedHeader, h2: ParsedHeader, b: Seq<u8>)
    requires
        header_read_from(h1, b),
        header_read_from(h2, b),
    ensures
        h1 == h2,
{
    assert(h1.salt@ =~= h2.salt@);
    assert(h1.nonce@ =~= h2.nonce@);
    assert(h1.header_bytes@ =~= h2.header_bytes@);
    assert(h1.salt == h2.salt);
    assert(h1.nonce == h2.nonce);
    assert(h1.header_bytes == h2.header_bytes);
}

// ---- Projections -------------------------------------------------------------------

/// A copy of a list of strings.
fn clone_strings(v: &Vec<String>) -> (r: Vec<String>)
    ensures
        string_views(r@) == string_views(v@),
{
    let mut r: Vec<String> = Vec::new();
    let mut i: usize = 0;
    while i < v.len()
        invariant
            0 <= i <= v@.len(),
            r@.len() == i,
            forall|j: int| 0 <= j < i ==> #[trigger] r@[j]@ == v@[j]@,
        decreases v@.len() - i,
    {
        let s = v[i].clone();
        r.push(s);
        i = i + 1;
    }
    assert(string_views(r@) =~= string_views(v@));
    r
}

/// The first of a list of URLs, if any.
fn first_url(urls: &Vec<String>) -> (r: Option<String>)
    ensures
        match r {
            Some(u) => urls@.len() > 0 && u@ == urls@[0]@,
            None => urls@.len() == 0,
        },
{
    if urls.len() > 0 {
        Some(urls[0].clone())
    } else {
        None
    }
}

/// The list-view summary of `entry`.
pub fn entry_summary(entry: &Entry) -> (s: EntrySummary)
    ensures
        summarizes(s, entry@),
{
    EntrySummary {
        id: entry.id.clone(),
        title: entry.title.clone(),
        username: entry.username.clone(),
        primary_url: first_url(&entry.urls),
        updated: entry.updated.clone(),
    }
}

/// The detail view of `entry`.
pub fn entry_view(entry: &Entry) -> (v: EntryView)
    ensures
        views(v, entry@),
{
    EntryView {
        id: entry.id.clone(),
        title: entry.title.clone(),
        username: entry.username.clone(),
        password: entry.password.clone(),
        urls: clone_strings(&entry.urls),
        notes: entry.notes.clone(),
        created: entry.created.clone(),
        updated: entry.updated.clone(),
    }
}

// ---- The service -------------------------------------------------------------------

impl AppState {
    /// A locked application state with the given idle window (`0`: never).
    pub fn new(idle_timeout_secs: u64) -> (s: AppState)
        ensures
            s@.session is Locked,
            s@.idle_timeout_secs == idle_timeout_secs,
    {
        AppState { session: Session { state: SessionState::Locked, idle_timeout_secs } }
    }

    /// The open vault, if any.
    pub(crate) fn session_state_ref(&self) -> (r: Option<&UnlockedVault>)
        ensures
            match r {
                Some(v) => self@.session is Unlocked && v@ == self@.session->vault,
                None => self@.session is Locked,
            },
    {
        match &self.session.state {
            SessionState::Unlocked { vault, .. } => Some(vault),
            SessionState::Locked => None,
        }
    }

    /// Take the session state out, leaving it locked.
    fn take_state(&mut self) -> (st: SessionState)
        ensures
            st@ == old(self)@.session,
            final(self)@.session is Locked,
            final(self)@.idle_timeout_secs == old(self)@.idle_timeout_secs,
    {
        let mut st = SessionState::Locked;
        std::mem::swap(&mut st, &mut self.session.state);
        st
    }

    /// The current status, given whether the vault file exists.
    pub fn status(&self, has_vault: bool) -> (s: StatusDto)
        ensures
            s == status_of(self@, has_vault),
    {
        StatusDto {
            has_vault,
            unlocked: match &self.session.state {
                SessionState::Unlocked { .. } => true,
                SessionState::Locked => false,
            },
            idle_timeout_secs: self.session.idle_timeout_secs,
        }
    }

    /// Create a new vault from `master_password` with the default Argon2
    /// costs, refusing when a vault file already exists. Returns the
    /// unlocked vault and the bytes of its file; once they are written,
    /// [`AppState::finish_create`] opens the session on it.
    pub fn create_vault(&self, has_vault: bool, master_password: &str) -> (r: Result<
        (UnlockedVault, Vec<u8>),
        AppError,
    >)
        ensures
            has_vault ==> (r matches Err(AppError::VaultAlreadyExists)),
            !has_vault && r is Err ==> (r matches Err(AppError::Internal(_))),
            r matches Ok((v, b)) ==> {
                &&& v@.key == key_for(master_password@, v@.salt, default_params())
                &&& derivation_accepted(master_password@, v@.salt, default_params())
                &&& v@.params == default_params()
                &&& v@.body == empty_body()
                &&& saved(v@, b@)
            },
    {
        if has_vault {
            return Err(AppError::VaultAlreadyExists);
        }
        let params = KdfParams::default();
        let vault = match LockedVault::create(master_password, params) {
            Ok(v) => v,
            Err(e) => return Err(AppError::from_vault_error(e)),
        };
        let bytes = match vault.to_bytes() {
            Ok(b) => b,
            Err(e) => return Err(AppError::from_vault_error(e)),
        };
        Ok((vault, bytes))
    }

    /// Open the session on a vault whose file was just written.
    pub fn finish_create(&mut self, vault: UnlockedVault, now_ms: u64) -> (s: StatusDto)
        ensures
            with_vault(old(self)@, final(self)@, vault@, now_ms),
            s == status_of(final(self)@, true),
    {
        self.session.state = SessionState::Unlocked { vault, last_activity_ms: now_ms };
        self.status(true)
    }

    /// Unlock the vault file with `master_password`.
    ///
    /// A missing file gives `NoVault`; every other failure (an unreadable
    /// or malformed file, a failed authentication, a body that does not
    /// decode) gives `WrongPassword`, so tampering cannot be told from a
    /// wrong password. Failures change nothing.
    pub fn unlock(&mut self, file: VaultFile, master_password: &str, now_ms: u64) -> (r: Result<
        StatusDto,
        AppError,
    >)
        ensures
            file is Missing ==> (r matches Err(AppError::NoVault)),
            !(file is Missing) && r is Err ==> (r matches Err(AppError::WrongPassword)),
            r is Err ==> final(self)@ == old(self)@,
            r matches Ok(s) ==> s == status_of(final(self)@, true) && final(self)@.session is Unlocked
                && final(self)@.idle_timeout_secs == old(self)@.idle_timeout_secs,
            r is Ok ==> (file matches VaultFile::Bytes(b) && decode_error(b@) is None && exists|
                h: ParsedHeader,
            |
                #![trigger header_read_from(h, b@)]
                {
                    let v = final(self)@.session->vault;
                    &&& header_read_from(h, b@)
                    &&& unlocks_to(
                        LockedVaultModel { header: h, ciphertext: b@.skip(76) },
                        master_password@,
                        v.body,
                    )
                    &&& v.key == key_for(master_password@, h.salt, params_of(h))
                    &&& v.salt == h.salt
                    &&& v.params == params_of(h)
                    &&& final(self)@.session->last_activity_ms == now_ms
                }),
            forall|m: crate::vault_core::entry::VaultBodyModel|
                #![trigger crate::vault_core::body_codec::body_json(m)]
                file is Bytes && opens_to(file->Bytes_0@, master_password@, m) ==> (r is Ok
                    && final(self)@.session->vault.body == m),
    {
        let bytes = match file {
            VaultFile::Missing => return Err(AppError::NoVault),
            VaultFile::Unreadable => return Err(AppError::WrongPassword),
            VaultFile::Bytes(b) => b,
        };
        let locked = match LockedVault::open_from_bytes(bytes.as_slice()) {
            Ok(l) => l,
            Err(_) => return Err(AppError::WrongPassword),
        };
        proof {
            assert forall|h: ParsedHeader| #![trigger header_read_from(h, bytes@)] header_read_from(
                h,
                bytes@,
            ) implies h == locked@.header by {
                lemma_header_unique(h, locked@.header, bytes@);
            }
            assert(header_read_from(locked@.header, bytes@));
        }
        let vault = match UnlockedVault::unlock(&locked, master_password) {
            Ok(v) => v,
            Err(_) => return Err(AppError::WrongPassword),
        };
        self.session.state = SessionState::Unlocked { vault, last_activity_ms: now_ms };
        Ok(self.status(true))
    }

    /// Lock the session, dropping the key. Locking a locked session only
    /// reports the status.
    pub fn lock(&mut self, has_vault: bool) -> (r: Result<StatusDto, AppError>)
        ensures
            final(self)@.session is Locked,
            final(self)@.idle_timeout_secs == old(self)@.idle_timeout_secs,
            r == Ok::<StatusDto, AppError>(status_of(final(self)@, has_vault)),
    {
        self.session.do_lock();
        Ok(self.status(has_vault))
    }

    /// Move the last activity to `now_ms` when a vault is open; the idle
    /// countdown starts again.
    pub fn touch(&mut self, now_ms: u64)
        ensures
            final(self)@ == touched(old(self)@, now_ms),
    {
        match &mut self.session.state {
            SessionState::Unlocked { last_activity_ms, .. } => {
                *last_activity_ms = now_ms;
            },
            SessionState::Locked => {},
        }
    }

    /// Lock the vault when it has been idle at `now_ms` for its whole idle
    /// window. Returns whether this call locked it; a locked session and a
    /// zero window are left alone.
    pub fn tick_autolock(&mut self, now_ms: u64) -> (locked: bool)
        ensures
            locked == idle_elapsed(old(self)@, now_ms),
            locked ==> final(self)@.session is Locked && final(self)@.idle_timeout_secs == old(
                self,
            )@.idle_timeout_secs,
            !locked ==> final(self)@ == old(self)@,
    {
        let last = match &self.session.state {
            SessionState::Unlocked { last_activity_ms, .. } => *last_activity_ms,
            SessionState::Locked => return false,
        };
        let timeout = self.session.idle_timeout_secs;
        if timeout == 0 {
            return false;
        }
        let idle = now_ms.saturating_sub(last);
        if idle / 1000 >= timeout {
            self.session.do_lock()
        } else {
            false
        }
    }

    /// Change the idle window (`0`: never auto-lock) and report the status.
    pub fn set_idle_timeout(&mut self, idle_timeout_secs: u64, has_vault: bool) -> (s: StatusDto)
        ensures
            final(self)@.session == old(self)@.session,
            final(self)@.idle_timeout_secs == idle_timeout_secs,
            s == status_of(final(self)@, has_vault),
    {
        self.session.idle_timeout_secs = idle_timeout_secs;
        self.status(has_vault)
    }

    /// All entries as password-free summaries, in order. Counts as
    /// activity.
    pub fn list_entries(&mut self, now_ms: u64) -> (r: Result<Vec<EntrySummary>, AppError>)
        ensures
            old(self)@.session is Locked ==> (r matches Err(AppError::Locked) && final(self)@ == old(
                self,
            )@),
            old(self)@.session is Unlocked ==> r is Ok && final(self)@ == touched(old(self)@, now_ms),
            r matches Ok(l) ==> {
                let es = old(self)@.session->vault.body.entries;
                &&& l@.len() == es.len()
                &&& forall|i: int| 0 <= i < es.len() ==> #[trigger] summarizes(l@[i], es[i])
            },
    {
        let out = match &self.session.state {
            SessionState::Locked => return Err(AppError::Locked),
            SessionState::Unlocked { vault, .. } => {
                let entries = vault.list_entries();
                let mut out: Vec<EntrySummary> = Vec::new();
                let mut i: usize = 0;
                while i < entries.len()
                    invariant
                        0 <= i <= entries@.len(),
                        crate::vault_core::entry::entries_view(entries@) == vault@.body.entries,
                        out@.len() == i,
                        forall|j: int| 0 <= j < i ==> #[trigger] summarizes(out@[j], vault@.body.entries[j]),
                    decreases entries@.len() - i,
                {
                    out.push(entry_summary(&entries[i]));
                    i = i + 1;
                }
                out
            },
        };
        self.touch(now_ms);
        Ok(out)
    }

    /// The entry with the id `id` as a detail view. Counts as activity when
    /// it succeeds.
    pub fn get_entry(&mut self, id: &str, now_ms: u64) -> (r: Result<EntryView, AppError>)
        ensures
            old(self)@.session is Locked ==> (r matches Err(AppError::Locked)),
            old(self)@.session is Unlocked && !has_id(old(self)@.session->vault.body.entries, id@)
                ==> (r matches Err(AppError::EntryNotFound(s)) && s@ == id@),
            r is Err ==> final(self)@ == old(self)@,
            r matches Ok(v) ==> {
                let es = old(self)@.session->vault.body.entries;
                &&& old(self)@.session is Unlocked
                &&& exists|i: int| is_first_with_id(es, id@, i) && views(v, es[i])
                &&& final(self)@ == touched(old(self)@, now_ms)
            },
            old(self)@.session is Unlocked && has_id(old(self)@.session->vault.body.entries, id@)
                ==> r is Ok,
    {
        let view = match &self.session.state {
            SessionState::Locked => return Err(AppError::Locked),
            SessionState::Unlocked { vault, .. } => match vault.get_entry(id) {
                Some(e) => entry_view(e),
                None => return Err(AppError::EntryNotFound(id.to_owned())),
            },
        };
        self.touch(now_ms);
        Ok(view)
    }

    /// Add an entry stamped with the wall time `now` and return its view and
    /// the bytes of the updated vault file. The entry stays in memory even
    /// when the file cannot be produced.
    pub fn add_entry(&mut self, input: EntryInput, now: String) -> (r: Result<
        (EntryView, Vec<u8>),
        AppError,
    >)
        ensures
            old(self)@.session is Locked ==> (r matches Err(AppError::Locked) && final(self)@ == old(
                self,
            )@),
            old(self)@.session is Unlocked && r is Err ==> (r matches Err(AppError::Internal(_))),
            old(self)@.session is Unlocked ==> final(self)@.idle_timeout_secs == old(
                self,
            )@.idle_timeout_secs && final(self)@.session is Unlocked && final(self)@.session->last_activity_ms
                == old(self)@.session->last_activity_ms,
            r matches Ok((v, b)) ==> exists|raw: [u8; 16]|
                #![trigger hex_lower(raw@)]
                {
                    let e = new_entry_model(new_entry_of(input, now), hex_lower(raw@));
                    &&& same_but_entries(
                        old(self)@.session->vault,
                        final(self)@.session->vault,
                        old(self)@.session->vault.body.entries.push(e),
                    )
                    &&& views(v, e)
                    &&& saved(final(self)@.session->vault, b@)
                },
            old(self)@.session is Unlocked && r is Err ==> final(self)@ == old(self)@ || exists|
                raw: [u8; 16],
            |
                #![trigger hex_lower(raw@)]
                same_but_entries(
                    old(self)@.session->vault,
                    final(self)@.session->vault,
                    old(self)@.session->vault.body.entries.push(
                        new_entry_model(new_entry_of(input, now), hex_lower(raw@)),
                    ),
                ),
    {
        let st = self.take_state();
        let (mut vault, last) = match st {
            SessionState::Locked => return Err(AppError::Locked),
            SessionState::Unlocked { vault, last_activity_ms } => (vault, last_activity_ms),
        };
        let new = NewEntry {
            title: input.title,
            username: input.username,
            password: input.password,
            urls: input.urls,
            notes: input.notes,
            now,
        };
        let view = match vault.add_entry(new) {
            Ok(e) => entry_view(e),
            Err(e) => {
                self.session.state = SessionState::Unlocked { vault, last_activity_ms: last };
                return Err(AppError::from_vault_error(e));
            },
        };
        let bytes = vault.to_bytes();
        self.session.state = SessionState::Unlocked { vault, last_activity_ms: last };
        match bytes {
            Ok(b) => Ok((view, b)),
            Err(e) => Err(AppError::from_vault_error(e)),
        }
    }

    /// Apply `patch` to the entry with the id `id`, stamping `updated` with
    /// the wall time `now`, and return its view and the bytes of the updated
    /// vault file.
    pub fn update_entry(&mut self, id: &str, patch: EntryPatchInput, now: String) -> (r: Result<
        (EntryView, Vec<u8>),
        AppError,
    >)
        ensures
            old(self)@.session is Locked ==> (r matches Err(AppError::Locked) && final(self)@ == old(
                self,
            )@),
            old(self)@.session is Unlocked && !has_id(old(self)@.session->vault.body.entries, id@)
                ==> (r matches Err(AppError::EntryNotFound(s)) && s@ == id@ && final(self)@ == old(
                self,
            )@),
            old(self)@.session is Unlocked && has_id(old(self)@.session->vault.body.entries, id@)
                && r is Err ==> (r matches Err(AppError::Internal(_))),
            old(self)@.session is Unlocked ==> final(self)@.idle_timeout_secs == old(
                self,
            )@.idle_timeout_secs && final(self)@.session is Unlocked && final(self)@.session->last_activity_ms
                == old(self)@.session->last_activity_ms,
            old(self)@.session is Unlocked && has_id(old(self)@.session->vault.body.entries, id@)
                ==> exists|i: int|
                #![trigger is_first_with_id(old(self)@.session->vault.body.entries, id@, i)]
                {
                    let es = old(self)@.session->vault.body.entries;
                    let e = patched(es[i], entry_patch_of(patch, now));
                    &&& is_first_with_id(es, id@, i)
                    &&& same_but_entries(
                        old(self)@.session->vault,
                        final(self)@.session->vault,
                        es.update(i, e),
                    )
                    &&& (r matches Ok((v, b)) ==> views(v, e) && saved(
                        final(self)@.session->vault,
                        b@,
                    ))
                },
    {
        let st = self.take_state();
        let (mut vault, last) = match st {
            SessionState::Locked => return Err(AppError::Locked),
            SessionState::Unlocked { vault, last_activity_ms } => (vault, last_activity_ms),
        };
        let p = EntryPatch {
            title: patch.title,
            username: patch.username,
            password: patch.password,
            urls: patch.urls,
            notes: patch.notes,
            now,
        };
        let ghost before = vault@;
        let ghost pp = p;
        let view = match vault.update_entry(id, p) {
            Ok(e) => entry_view(e),
            Err(e) => {
                self.session.state = SessionState::Unlocked { vault, last_activity_ms: last };
                return Err(AppError::from_vault_error(e));
            },
        };
        let ghost w: int = choose|i: int|
            {
                &&& is_first_with_id(before.body.entries, id@, i)
                &&& same_but_entries(
                    before,
                    vault@,
                    before.body.entries.update(i, patched(before.body.entries[i], pp)),
                )
                &&& views(view, patched(before.body.entries[i], pp))
            };
        proof {
            assert(pp == entry_patch_of(patch, now));
        }
        let bytes = vault.to_bytes();
        self.session.state = SessionState::Unlocked { vault, last_activity_ms: last };
        match bytes {
            Ok(b) => {
                proof {
                    assert(is_first_with_id(old(self)@.session->vault.body.entries, id@, w));
                }
                Ok((view, b))
            },
            Err(e) => Err(AppError::from_vault_error(e)),
        }
    }

    /// Delete the entries with the id `id` and return the bytes of the
    /// updated vault file.
    pub fn delete_entry(&mut self, id: &str) -> (r: Result<Vec<u8>, AppError>)
        ensures
            old(self)@.session is Locked ==> (r matches Err(AppError::Locked) && final(self)@ == old(
                self,
            )@),
            old(self)@.session is Unlocked && !has_id(old(self)@.session->vault.body.entries, id@)
                ==> (r matches Err(AppError::EntryNotFound(s)) && s@ == id@ && final(self)@ == old(
                self,
            )@),
            old(self)@.session is Unlocked && has_id(old(self)@.session->vault.body.entries, id@)
                ==> {
                &&& same_but_entries(
                    old(self)@.session->vault,
                    final(self)@.session->vault,
                    without_id(old(self)@.session->vault.body.entries, id@),
                )
                &&& final(self)@.session is Unlocked
                &&& final(self)@.session->last_activity_ms == old(self)@.session->last_activity_ms
                &&& final(self)@.idle_timeout_secs == old(self)@.idle_timeout_secs
                &&& (r is Err ==> (r matches Err(AppError::Internal(_))))
            },
            r matches Ok(b) ==> saved(final(self)@.session->vault, b@),
    {
        let st = self.take_state();
        let (mut vault, last) = match st {
            SessionState::Locked => return Err(AppError::Locked),
            SessionState::Unlocked { vault, last_activity_ms } => (vault, last_activity_ms),
        };
        match vault.delete_entry(id) {
            Ok(()) => {},
            Err(e) => {
                self.session.state = SessionState::Unlocked { vault, last_activity_ms: last };
                return Err(AppError::from_vault_error(e));
            },
        }
        let bytes = vault.to_bytes();
        self.session.state = SessionState::Unlocked { vault, last_activity_ms: last };
        match bytes {
            Ok(b) => Ok(b),
            Err(e) => Err(AppError::from_vault_error(e)),
        }
    }

    /// The bytes of the vault file for the open vault.
    pub fn save(&self) -> (r: Result<Vec<u8>, AppError>)
        ensures
            self@.session is Locked ==> (r matches Err(AppError::Locked)),
            self@.session is Unlocked && r is Err ==> (r matches Err(AppError::Internal(_))),
            r matches Ok(b) ==> self@.session is Unlocked && saved(self@.session->vault, b@),
    {
        match &self.session.state {
            SessionState::Locked => Err(AppError::Locked),
            SessionState::Unlocked { vault, .. } => match vault.to_bytes() {
                Ok(b) => Ok(b),
                Err(e) => Err(AppError::from_vault_error(e)),
            },
        }
    }

    /// Generate a password from `opts`; no vault is needed. Counts as
    /// activity when it succeeds.
    pub fn generate_password(&mut self, opts: GeneratorOptionsDto, now_ms: u64) -> (r: Result<
        String,
        AppError,
    >)
        ensures
            !options_valid(options_of(opts)) ==> (r matches Err(
                AppError::InvalidPasswordOptions,
            )),
            options_valid(options_of(opts)) && r is Err ==> (r matches Err(
                AppError::Internal(_),
            )),
            r is Err ==> final(self)@ == old(self)@,
            r is Ok ==> final(self)@ == touched(old(self)@, now_ms),
            r matches Ok(pw) ==> exists|d: Seq<u64>|
                password_of(charset_of(options_of(opts)), opts.length as nat, d) == Some(pw@),
            r matches Ok(pw) ==> pw@.len() == opts.length && forall|i: int|
                0 <= i < pw@.len() ==> charset_of(options_of(opts)).contains(
                    #[trigger] pw@[i],
                ),
    {
        let options: PasswordOptions = PasswordOptions::from(opts);
        let pw = match generate_password(&options) {
            Ok(pw) => pw,
            Err(e) => return Err(AppError::from_vault_error(e)),
        };
        self.touch(now_ms);
        Ok(pw)
    }
}

} // verus!
