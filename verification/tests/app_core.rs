//! Tests of the application session: state transitions, the service
//! operations, idle auto-lock, error mapping, configuration, and autofill
//! matching. A small harness plays the caller's part: it keeps the vault
//! file in memory, reads the fake clock, and writes back the bytes each
//! operation hands it.

use spooky_pass::app_core::autofill::contract::{
    AutofillStatusDto, CredentialDto, IpcRequest, IpcResponse, MatchCandidate,
};
use spooky_pass::app_core::autofill::requests::error_response;
use spooky_pass::app_core::autofill::matching::{domain_from_lookup, registrable_domain};
use spooky_pass::app_core::clock::{Clock, FakeClock, SystemClock, DEFAULT_WALL};
use spooky_pass::app_core::config::{config_path_for_vault, AppConfig, DEFAULT_IDLE_TIMEOUT_SECS};
use spooky_pass::app_core::dto::{
    EntryInput, EntryPatchInput, EntrySummary, EntryView, GeneratorOptionsDto, StatusDto,
};
use spooky_pass::app_core::error::AppError;
use spooky_pass::app_core::paths::VAULT_FILE_NAME;
use spooky_pass::app_core::state::{AppState, VaultFile};
use spooky_pass::vault_core::crypto::KdfParams;
use spooky_pass::vault_core::error::VaultError;
use spooky_pass::vault_core::generator::PasswordOptions;
use spooky_pass::vault_core::vault::{LockedVault, UnlockedVault};

const PW: &str = "correct horse battery staple";
const TIMEOUT_SECS: u64 = 15 * 60;
const VAULT_PATH: &str = "/data/SpookyPass/vault.spk";

struct Harness {
    state: AppState,
    clock: FakeClock,
    disk: Option<Vec<u8>>,
    config: Option<(String, AppConfig)>,
}

fn harness() -> Harness {
    harness_with_timeout(TIMEOUT_SECS)
}

fn harness_with_timeout(timeout_secs: u64) -> Harness {
    Harness {
        state: AppState::new(timeout_secs),
        clock: FakeClock::new(),
        disk: None,
        config: None,
    }
}

impl Harness {
    fn has_vault(&self) -> bool {
        self.disk.is_some()
    }

    fn file(&self) -> VaultFile {
        match &self.disk {
            None => VaultFile::Missing,
            Some(b) => VaultFile::Bytes(b.clone()),
        }
    }

    fn create_vault(&mut self, pw: &str) -> Result<StatusDto, AppError> {
        let (vault, bytes) = self.state.create_vault(self.has_vault(), pw)?;
        self.disk = Some(bytes);
        Ok(self.state.finish_create(vault, self.clock.now()))
    }

    fn unlock(&mut self, pw: &str) -> Result<StatusDto, AppError> {
        let file = self.file();
        self.state.unlock(file, pw, self.clock.now())
    }

    fn lock(&mut self) -> Result<StatusDto, AppError> {
        let has = self.has_vault();
        self.state.lock(has)
    }

    fn status(&self) -> StatusDto {
        self.state.status(self.has_vault())
    }

    fn list_entries(&mut self) -> Result<Vec<EntrySummary>, AppError> {
        let now = self.clock.now();
        self.state.list_entries(now)
    }

    fn get_entry(&mut self, id: &str) -> Result<EntryView, AppError> {
        let now = self.clock.now();
        self.state.get_entry(id, now)
    }

    fn add_entry(&mut self, input: EntryInput) -> Result<EntryView, AppError> {
        let (view, bytes) = self.state.add_entry(input, self.clock.now_rfc3339())?;
        self.disk = Some(bytes);
        self.state.touch(self.clock.now());
        Ok(view)
    }

    fn update_entry(&mut self, id: &str, patch: EntryPatchInput) -> Result<EntryView, AppError> {
        let (view, bytes) = self.state.update_entry(id, patch, self.clock.now_rfc3339())?;
        self.disk = Some(bytes);
        self.state.touch(self.clock.now());
        Ok(view)
    }

    fn delete_entry(&mut self, id: &str) -> Result<(), AppError> {
        let bytes = self.state.delete_entry(id)?;
        self.disk = Some(bytes);
        self.state.touch(self.clock.now());
        Ok(())
    }

    fn save(&mut self) -> Result<(), AppError> {
        let bytes = self.state.save()?;
        self.disk = Some(bytes);
        Ok(())
    }

    fn generate_password(&mut self, opts: GeneratorOptionsDto) -> Result<String, AppError> {
        let now = self.clock.now();
        self.state.generate_password(opts, now)
    }

    fn tick_autolock(&mut self) -> bool {
        let now = self.clock.now();
        self.state.tick_autolock(now)
    }

    fn set_idle_timeout(&mut self, secs: u64) -> Result<StatusDto, AppError> {
        let has = self.has_vault();
        let status = self.state.set_idle_timeout(secs, has);
        self.config = Some((config_path_for_vault(VAULT_PATH), AppConfig { idle_timeout_secs: secs }));
        Ok(status)
    }

    fn find_matches(&self, page_url: &str) -> Result<Vec<MatchCandidate>, AppError> {
        self.state.find_matches(page_url)
    }

    fn get_credential(&mut self, id: &str) -> Result<CredentialDto, AppError> {
        let now = self.clock.now();
        self.state.get_credential(id, now)
    }

    fn autofill_status(&self) -> AutofillStatusDto {
        self.state.autofill_status(self.has_vault())
    }

    fn answer(&mut self, request: IpcRequest) -> IpcResponse {
        let now = self.clock.now();
        let has = self.has_vault();
        self.state.answer_request(request, has, now)
    }
}

fn sample_input(title: &str) -> EntryInput {
    EntryInput {
        title: title.into(),
        username: format!("{title}-user"),
        password: format!("{title}-pass"),
        urls: vec![format!("https://{title}.example")],
        notes: format!("notes for {title}"),
    }
}

fn reopen(bytes: &[u8]) -> UnlockedVault {
    let locked = LockedVault::open_from_bytes(bytes).expect("reopen vault file");
    UnlockedVault::unlock(&locked, PW).expect("unlock reopened vault")
}

// ---- State transitions -------------------------------------------------------

#[test]
fn create_leaves_session_unlocked() {
    let mut h = harness();
    let status = h.create_vault(PW).expect("create vault");
    assert!(status.has_vault);
    assert!(status.unlocked);
    assert_eq!(status.idle_timeout_secs, TIMEOUT_SECS);
    assert!(h.disk.is_some(), "vault file written on create");
}

#[test]
fn create_when_file_exists_is_rejected() {
    let mut h = harness();
    h.create_vault(PW).expect("first create");
    let err = h.create_vault(PW).expect_err("second create must fail");
    assert!(matches!(err, AppError::VaultAlreadyExists));
}

#[test]
fn lock_then_status_reports_locked() {
    let mut h = harness();
    h.create_vault(PW).unwrap();
    let status = h.lock().expect("lock");
    assert!(status.has_vault);
    assert!(!status.unlocked);
}

#[test]
fn lock_is_idempotent() {
    let mut h = harness();
    h.create_vault(PW).unwrap();
    h.lock().unwrap();
    let status = h.lock().expect("second lock");
    assert!(!status.unlocked);
}

#[test]
fn service_unlock_with_correct_password_succeeds() {
    let mut h = harness();
    h.create_vault(PW).unwrap();
    h.lock().unwrap();
    let status = h.unlock(PW).expect("unlock");
    assert!(status.unlocked);
}

#[test]
fn unlock_with_wrong_password_maps_to_wrong_password() {
    let mut h = harness();
    h.create_vault(PW).unwrap();
    h.lock().unwrap();
    let err = h.unlock("not the password").expect_err("must fail");
    assert!(matches!(err, AppError::WrongPassword));
}

#[test]
fn unlock_with_no_file_maps_to_no_vault() {
    let mut h = harness();
    let err = h.unlock(PW).expect_err("no vault to unlock");
    assert!(matches!(err, AppError::NoVault));
}

#[test]
fn unlock_of_an_unreadable_file_maps_to_wrong_password() {
    let mut h = harness();
    let err = h.state.unlock(VaultFile::Unreadable, PW, 0).expect_err("unreadable");
    assert!(matches!(err, AppError::WrongPassword));
}

#[test]
fn status_before_any_vault_reports_no_vault_locked() {
    let h = harness();
    let status = h.status();
    assert!(!status.has_vault);
    assert!(!status.unlocked);
    assert_eq!(status.idle_timeout_secs, TIMEOUT_SECS);
}

#[test]
fn operations_while_locked_return_locked() {
    let mut h = harness();
    h.create_vault(PW).unwrap();
    h.lock().unwrap();

    assert!(matches!(h.list_entries(), Err(AppError::Locked)));
    assert!(matches!(h.get_entry("whatever"), Err(AppError::Locked)));
    assert!(matches!(h.add_entry(sample_input("x")), Err(AppError::Locked)));
    assert!(matches!(
        h.update_entry("id", EntryPatchInput::default()),
        Err(AppError::Locked)
    ));
    assert!(matches!(h.delete_entry("id"), Err(AppError::Locked)));
    assert!(matches!(h.save(), Err(AppError::Locked)));
}

#[test]
fn lock_then_unlock_preserves_entries() {
    let mut h = harness();
    h.create_vault(PW).unwrap();
    let id = h.add_entry(sample_input("github")).unwrap().id;

    h.lock().unwrap();
    h.unlock(PW).unwrap();

    let view = h.get_entry(&id).expect("entry survives lock cycle");
    assert_eq!(view.title, "github");
    assert_eq!(view.password, "github-pass");
}

// ---- Service CRUD ------------------------------------------------------------

#[test]
fn add_entry_returns_view_with_matching_timestamps_and_persists() {
    let mut h = harness();
    h.create_vault(PW).unwrap();

    let view = h.add_entry(sample_input("github")).expect("add");
    assert_eq!(view.title, "github");
    assert_eq!(view.username, "github-user");
    assert_eq!(view.password, "github-pass");
    assert_eq!(view.urls, vec!["https://github.example".to_string()]);
    assert_eq!(view.notes, "notes for github");
    assert_eq!(view.created, DEFAULT_WALL);
    assert_eq!(view.updated, DEFAULT_WALL);
    assert!(!view.id.is_empty());

    let reopened = reopen(h.disk.as_ref().unwrap());
    let stored = reopened.get_entry(&view.id).expect("persisted on add");
    assert_eq!(stored.title, "github");
    assert_eq!(stored.password, "github-pass");
}

#[test]
fn list_entries_summary_omits_password_and_uses_first_url() {
    let mut h = harness();
    h.create_vault(PW).unwrap();
    h.add_entry(EntryInput {
        title: "multi".into(),
        username: "u".into(),
        password: "secret".into(),
        urls: vec!["https://a.example".into(), "https://b.example".into()],
        notes: String::new(),
    })
    .unwrap();

    let list = h.list_entries().expect("list");
    assert_eq!(list.len(), 1);
    let s = &list[0];
    assert_eq!(s.title, "multi");
    assert_eq!(s.primary_url.as_deref(), Some("https://a.example"));
}

#[test]
fn summary_primary_url_is_none_when_no_urls() {
    let mut h = harness();
    h.create_vault(PW).unwrap();
    h.add_entry(EntryInput {
        title: "no-url".into(),
        username: "u".into(),
        password: "p".into(),
        urls: vec![],
        notes: String::new(),
    })
    .unwrap();

    let list = h.list_entries().unwrap();
    assert_eq!(list[0].primary_url, None);
}

#[test]
fn get_unknown_entry_errors() {
    let mut h = harness();
    h.create_vault(PW).unwrap();
    let err = h.get_entry("does-not-exist").expect_err("unknown id");
    assert!(matches!(err, AppError::EntryNotFound(id) if id == "does-not-exist"));
}

#[test]
fn update_bumps_only_updated_and_persists() {
    let mut h = harness();
    h.create_vault(PW).unwrap();
    let added = h.add_entry(sample_input("github")).unwrap();
    let id = added.id.clone();
    assert_eq!(added.created, DEFAULT_WALL);

    let later = "2026-06-14T12:00:00Z";
    h.clock.set_wall(later);
    let patch = EntryPatchInput {
        password: Some("new-pass".into()),
        ..Default::default()
    };
    let updated = h.update_entry(&id, patch).expect("update");

    assert_eq!(updated.password, "new-pass");
    assert_eq!(updated.title, "github", "untouched field preserved");
    assert_eq!(updated.created, DEFAULT_WALL, "created not bumped");
    assert_eq!(updated.updated, later, "updated bumped to new now");

    let reopened = reopen(h.disk.as_ref().unwrap());
    let stored = reopened.get_entry(&id).unwrap();
    assert_eq!(stored.password, "new-pass");
    assert_eq!(stored.updated, later);
    assert_eq!(stored.created, DEFAULT_WALL);
}

#[test]
fn update_unknown_entry_errors() {
    let mut h = harness();
    h.create_vault(PW).unwrap();
    let err = h
        .update_entry("nope", EntryPatchInput::default())
        .expect_err("unknown id");
    assert!(matches!(err, AppError::EntryNotFound(id) if id == "nope"));
}

#[test]
fn delete_removes_and_persists() {
    let mut h = harness();
    h.create_vault(PW).unwrap();
    let id = h.add_entry(sample_input("github")).unwrap().id;
    h.add_entry(sample_input("gitlab")).unwrap();

    h.delete_entry(&id).expect("delete");
    assert_eq!(h.list_entries().unwrap().len(), 1);
    assert!(matches!(h.get_entry(&id), Err(AppError::EntryNotFound(_))));

    let reopened = reopen(h.disk.as_ref().unwrap());
    assert!(reopened.get_entry(&id).is_none());
    assert_eq!(reopened.list_entries().len(), 1);
}

#[test]
fn delete_unknown_entry_errors() {
    let mut h = harness();
    h.create_vault(PW).unwrap();
    let err = h.delete_entry("ghost").expect_err("unknown id");
    assert!(matches!(err, AppError::EntryNotFound(id) if id == "ghost"));
}

// ---- Generator ---------------------------------------------------------------

#[test]
fn generate_honors_length_and_classes() {
    let mut h = harness();
    let opts = GeneratorOptionsDto {
        length: 40,
        lowercase: true,
        uppercase: false,
        digits: false,
        symbols: false,
        exclude_ambiguous: true,
    };
    let pw = h.generate_password(opts).expect("generate");
    assert_eq!(pw.chars().count(), 40);
    assert!(pw.chars().all(|c| c.is_ascii_lowercase()), "got {pw}");
}

#[test]
fn generate_with_empty_charset_errors() {
    let mut h = harness();
    let opts = GeneratorOptionsDto {
        length: 16,
        lowercase: false,
        uppercase: false,
        digits: false,
        symbols: false,
        exclude_ambiguous: false,
    };
    let err = h.generate_password(opts).expect_err("empty charset");
    assert!(matches!(err, AppError::InvalidPasswordOptions));
}

#[test]
fn generate_with_zero_length_errors() {
    let mut h = harness();
    let opts = GeneratorOptionsDto {
        length: 0,
        ..GeneratorOptionsDto::default()
    };
    let err = h.generate_password(opts).expect_err("zero length");
    assert!(matches!(err, AppError::InvalidPasswordOptions));
}

#[test]
fn generator_dto_default_matches_vault_core_default() {
    let dto = GeneratorOptionsDto::default();
    let core = PasswordOptions::default();
    assert_eq!(dto.length, core.length);
    assert_eq!(dto.lowercase, core.lowercase);
    assert_eq!(dto.uppercase, core.uppercase);
    assert_eq!(dto.digits, core.digits);
    assert_eq!(dto.symbols, core.symbols);
    assert_eq!(dto.exclude_ambiguous, core.exclude_ambiguous);
}

#[test]
fn generator_dto_converts_field_for_field() {
    let dto = GeneratorOptionsDto {
        length: 9,
        lowercase: false,
        uppercase: true,
        digits: false,
        symbols: true,
        exclude_ambiguous: false,
    };
    let o: PasswordOptions = dto.into();
    assert_eq!(o.length, 9);
    assert!(!o.lowercase && o.uppercase && !o.digits && o.symbols && !o.exclude_ambiguous);
}

// ---- Auto-lock ---------------------------------------------------------------

#[test]
fn idle_lock_fires_after_timeout() {
    let mut h = harness_with_timeout(60);
    h.create_vault(PW).unwrap();

    h.clock.advance(60_000);
    assert!(h.tick_autolock(), "should lock at the boundary");
    assert!(!h.status().unlocked);
}

#[test]
fn idle_lock_does_not_fire_before_timeout() {
    let mut h = harness_with_timeout(60);
    h.create_vault(PW).unwrap();

    h.clock.advance(59_000);
    assert!(!h.tick_autolock(), "must not lock before timeout");
    assert!(h.status().unlocked);
}

#[test]
fn activity_resets_the_idle_countdown() {
    let mut h = harness_with_timeout(60);
    h.create_vault(PW).unwrap();

    h.clock.advance(59_000);
    assert!(!h.tick_autolock());
    h.list_entries().unwrap();
    h.clock.advance(59_000);
    assert!(!h.tick_autolock(), "activity should have reset timer");
    assert!(h.status().unlocked);

    h.clock.advance(1_000);
    assert!(h.tick_autolock(), "locks once idle window truly elapses");
}

#[test]
fn repeated_activity_never_locks() {
    let mut h = harness_with_timeout(60);
    h.create_vault(PW).unwrap();

    for _ in 0..10 {
        h.clock.advance(59_000);
        h.list_entries().unwrap();
        assert!(!h.tick_autolock(), "should never lock under activity");
    }
    assert!(h.status().unlocked);
}

#[test]
fn tick_on_locked_session_is_a_noop() {
    let mut h = harness_with_timeout(60);
    assert!(!h.tick_autolock());

    h.create_vault(PW).unwrap();
    h.lock().unwrap();
    h.clock.advance(600_000);
    assert!(!h.tick_autolock(), "no-op once already locked");
}

#[test]
fn operations_after_autolock_return_locked() {
    let mut h = harness_with_timeout(60);
    h.create_vault(PW).unwrap();
    h.add_entry(sample_input("github")).unwrap();

    h.clock.advance(60_000);
    assert!(h.tick_autolock());

    assert!(matches!(h.list_entries(), Err(AppError::Locked)));
    assert!(matches!(h.add_entry(sample_input("x")), Err(AppError::Locked)));

    h.unlock(PW).unwrap();
    assert_eq!(h.list_entries().unwrap().len(), 1);
}

#[test]
fn a_clock_reading_earlier_than_the_last_activity_counts_as_no_idle_time() {
    let mut state = AppState::new(60);
    let vault = LockedVault::create_with_salt(PW, KdfParams::default(), [1u8; 16]).unwrap();
    state.finish_create(vault, 100_000);
    assert!(!state.tick_autolock(10));
    assert!(!state.tick_autolock(159_999));
    assert!(state.tick_autolock(160_000));
}

// ---- Error mapping -----------------------------------------------------------

#[test]
fn malformed_vault_variants_collapse_to_invalid_vault_file() {
    for e in [
        VaultError::BadMagic,
        VaultError::UnsupportedVersion(99),
        VaultError::UnsupportedKdf(7),
        VaultError::UnsupportedCipher(7),
        VaultError::MalformedFile,
        VaultError::InvalidKdfParams,
    ] {
        let mapped: AppError = e.into();
        assert!(matches!(mapped, AppError::InvalidVaultFile));
    }
}

#[test]
fn other_vault_errors_map_to_their_buckets() {
    assert_eq!(AppError::from(VaultError::WrongPassword), AppError::WrongPassword);
    assert_eq!(
        AppError::from(VaultError::EntryNotFound("x".into())),
        AppError::EntryNotFound("x".into())
    );
    assert_eq!(
        AppError::from(VaultError::InvalidPasswordOptions),
        AppError::InvalidPasswordOptions
    );
    assert_eq!(
        AppError::from(VaultError::Io("disk full".into())),
        AppError::Internal("I/O error: disk full".into())
    );
    assert_eq!(
        AppError::from(VaultError::Crypto),
        AppError::Internal("cryptographic operation failed".into())
    );
}

#[test]
fn app_error_kinds_and_messages() {
    assert_eq!(AppError::EntryNotFound("x".into()).kind(), "EntryNotFound");
    assert_eq!(AppError::EntryNotFound("x".into()).message(), "entry not found: x");
    assert_eq!(AppError::Locked.kind(), "Locked");
    assert_eq!(AppError::WrongPassword.kind(), "WrongPassword");
    assert_eq!(AppError::Internal("boom".into()).message(), "internal error: boom");
}

#[test]
fn unlocking_a_truncated_file_is_indistinguishable_from_wrong_password() {
    let mut h = harness();
    h.create_vault(PW).unwrap();
    h.lock().unwrap();

    let bytes = h.disk.as_mut().unwrap();
    let last = bytes.len() - 1;
    bytes[last] ^= 0xff;

    let err = h.unlock(PW).expect_err("tampered vault");
    assert!(matches!(err, AppError::WrongPassword));

    h.disk.as_mut().unwrap().truncate(50);
    let err = h.unlock(PW).expect_err("truncated vault");
    assert!(matches!(err, AppError::WrongPassword));
}

// ---- Paths and configuration ---------------------------------------------------

#[test]
fn vault_path_ends_with_vault_spk() {
    assert_eq!(VAULT_FILE_NAME, "vault.spk");
}

#[test]
fn has_vault_detection_tracks_the_file() {
    let mut h = harness();
    assert!(!h.status().has_vault, "no file yet");
    h.create_vault(PW).unwrap();
    assert!(h.status().has_vault, "file present after create");
}

#[test]
fn set_idle_timeout_updates_status() {
    let mut h = harness_with_timeout(900);
    let status = h.set_idle_timeout(60).unwrap();
    assert_eq!(status.idle_timeout_secs, 60);
}

#[test]
fn set_idle_timeout_persists_to_config_beside_vault() {
    let mut h = harness_with_timeout(900);
    h.set_idle_timeout(120).unwrap();
    let (path, cfg) = h.config.clone().unwrap();
    assert_eq!(path, "/data/SpookyPass/config.json");
    assert_eq!(cfg.idle_timeout_secs, 120);
}

#[test]
fn config_defaults() {
    assert_eq!(AppConfig::default().idle_timeout_secs, DEFAULT_IDLE_TIMEOUT_SECS);
    assert_eq!(DEFAULT_IDLE_TIMEOUT_SECS, 900);
}

#[test]
fn config_path_sits_next_to_the_vault() {
    assert_eq!(config_path_for_vault("/a/b/vault.spk"), "/a/b/config.json");
    assert_eq!(config_path_for_vault("vault.spk"), "config.json");
}

#[test]
fn config_path_uses_the_parent_directory() {
    assert_eq!(config_path_for_vault("/"), "config.json");
    assert_eq!(config_path_for_vault(""), "config.json");
    assert_eq!(config_path_for_vault("/vault.spk"), "/config.json");
    assert_eq!(config_path_for_vault("/data/dir/"), "/data/config.json");
    assert_eq!(config_path_for_vault("/data//dir//"), "/data/config.json");
    assert_eq!(config_path_for_vault("a/./b/."), "a/config.json");
    assert_eq!(config_path_for_vault("./vault.spk"), "./config.json");
    assert_eq!(config_path_for_vault("."), "config.json");
    assert_eq!(config_path_for_vault("../vault.spk"), "../config.json");
    assert_eq!(config_path_for_vault("//vault.spk"), "/config.json");
}

#[test]
fn zero_timeout_never_auto_locks() {
    let mut h = harness_with_timeout(900);
    h.create_vault(PW).unwrap();
    h.set_idle_timeout(0).unwrap();

    h.clock.advance(10 * 24 * 60 * 60 * 1000);
    assert!(!h.tick_autolock(), "zero timeout should never auto-lock");
    assert!(h.status().unlocked);
}

// ---- Registrable domains ---------------------------------------------------------

#[test]
fn registrable_domain_strips_case_and_trailing_dot() {
    assert_eq!(registrable_domain("Mail.Google.COM."), Some("google.com".to_string()));
}

#[test]
fn registrable_domain_fails_closed_on_ip_and_localhost() {
    assert_eq!(registrable_domain("127.0.0.1"), None);
    assert_eq!(registrable_domain("localhost"), None);
    assert_eq!(registrable_domain("example"), None);
    assert_eq!(registrable_domain("example.invalidtldxyz"), None);
    assert_eq!(registrable_domain("..."), None);
    assert_eq!(registrable_domain(""), None);
}

#[test]
fn a_lookup_counts_only_under_a_listed_suffix() {
    assert_eq!(domain_from_lookup(Some((b"google.com".to_vec(), true))), Some("google.com".to_string()));
    assert_eq!(domain_from_lookup(Some((b"example.invalidtldxyz".to_vec(), false))), None);
    assert_eq!(domain_from_lookup(Some((vec![0xff, 0x2e, 0x63, 0x6f], true))), None);
    assert_eq!(domain_from_lookup(None), None);
}

#[test]
fn phishing_hosts_do_not_collapse_to_the_target() {
    let target = registrable_domain("google.com").unwrap();
    for evil in ["google.com.evil.ru", "googlecom.evil.ru", "google.com@evil.ru"] {
        assert_ne!(registrable_domain(evil).as_deref(), Some(target.as_str()));
    }
}

// ---- Autofill matching -------------------------------------------------------------

fn add(h: &mut Harness, title: &str, urls: &[&str]) -> String {
    h.add_entry(EntryInput {
        title: title.into(),
        username: format!("{title}-user"),
        password: format!("{title}-pass"),
        urls: urls.iter().map(|u| (*u).to_string()).collect(),
        notes: String::new(),
    })
    .expect("add entry")
    .id
}

fn match_titles(h: &Harness, page_url: &str) -> Vec<String> {
    let mut titles: Vec<String> = h
        .find_matches(page_url)
        .expect("find_matches never errors")
        .into_iter()
        .map(|c| c.title)
        .collect();
    titles.sort();
    titles
}

#[test]
fn phishing_lookalikes_never_match() {
    let mut h = harness();
    h.create_vault(PW).unwrap();
    add(&mut h, "google", &["https://accounts.google.com/login"]);

    for evil in [
        "https://google.com.evil.ru/login",
        "https://evil.com/google.com",
        "https://google.com@evil.ru/login",
        "https://googlecom.evil.ru/login",
    ] {
        assert!(match_titles(&h, evil).is_empty(), "phishing url must not match: {evil}");
    }
}

#[test]
fn subdomains_match_a_bare_registrable_domain() {
    let mut h = harness();
    h.create_vault(PW).unwrap();
    add(&mut h, "google", &["https://google.com"]);

    for page in [
        "https://accounts.google.com/signin",
        "https://mail.google.com/mail/u/0",
        "https://www.google.com/",
        "https://google.com/",
    ] {
        assert_eq!(match_titles(&h, page), vec!["google".to_string()], "subdomain should match bare domain: {page}");
    }
}

#[test]
fn bare_page_matches_a_subdomain_entry() {
    let mut h = harness();
    h.create_vault(PW).unwrap();
    add(&mut h, "google", &["https://accounts.google.com"]);

    assert_eq!(match_titles(&h, "https://google.com/"), vec!["google".to_string()]);
    assert_eq!(match_titles(&h, "https://mail.google.com/"), vec!["google".to_string()]);
}

#[test]
fn entry_with_multiple_urls_matches_any_of_them() {
    let mut h = harness();
    h.create_vault(PW).unwrap();
    add(&mut h, "multi", &["https://example.com", "https://github.com"]);

    assert_eq!(match_titles(&h, "https://www.example.com/"), vec!["multi".to_string()]);
    assert_eq!(match_titles(&h, "https://gist.github.com/"), vec!["multi".to_string()]);
    assert!(match_titles(&h, "https://gitlab.com/").is_empty());
}

#[test]
fn multiple_entries_on_the_same_domain_all_match() {
    let mut h = harness();
    h.create_vault(PW).unwrap();
    add(&mut h, "work", &["https://mail.google.com"]);
    add(&mut h, "personal", &["https://accounts.google.com"]);
    add(&mut h, "other", &["https://example.com"]);

    assert_eq!(
        match_titles(&h, "https://google.com/"),
        vec!["personal".to_string(), "work".to_string()]
    );
}

#[test]
fn multi_level_psl_suffix_matches_within_but_not_across() {
    let mut h = harness();
    h.create_vault(PW).unwrap();
    add(&mut h, "ukco", &["https://example.co.uk"]);

    assert_eq!(match_titles(&h, "https://www.example.co.uk/"), vec!["ukco".to_string()]);
    assert!(match_titles(&h, "https://foo.co.uk/").is_empty());

    add(&mut h, "foo", &["https://foo.co.uk"]);
    assert!(match_titles(&h, "https://bar.co.uk/").is_empty());
    assert_eq!(match_titles(&h, "https://sub.foo.co.uk/"), vec!["foo".to_string()]);
}

#[test]
fn ip_localhost_and_bare_suffix_hosts_fail_closed() {
    let mut h = harness();
    h.create_vault(PW).unwrap();
    add(&mut h, "ip", &["https://127.0.0.1:8443"]);
    add(&mut h, "local", &["http://localhost:3000"]);
    add(&mut h, "bare", &["http://intranet"]);

    for page in [
        "https://127.0.0.1:8443/login",
        "http://[::1]/login",
        "http://localhost:3000/",
        "http://intranet/",
        "https://example.invalidtldxyz/",
    ] {
        assert!(match_titles(&h, page).is_empty(), "fail-closed host must match nothing: {page}");
    }
}

#[test]
fn unparseable_url_yields_no_matches() {
    let mut h = harness();
    h.create_vault(PW).unwrap();
    add(&mut h, "google", &["https://google.com"]);

    for bad in ["not a url", "", "://missing-scheme", "javascript:alert(1)"] {
        assert!(match_titles(&h, bad).is_empty(), "unparseable url must yield no matches: {bad:?}");
    }
}

#[test]
fn matching_is_case_and_trailing_dot_insensitive() {
    let mut h = harness();
    h.create_vault(PW).unwrap();
    add(&mut h, "google", &["https://Google.COM"]);

    for page in [
        "https://MAIL.GOOGLE.COM/",
        "https://google.com./",
        "https://Accounts.Google.Com./",
    ] {
        assert_eq!(match_titles(&h, page), vec!["google".to_string()], "case/dot insensitive: {page}");
    }
}

#[test]
fn matching_is_scheme_agnostic() {
    let mut h = harness();
    h.create_vault(PW).unwrap();
    add(&mut h, "google", &["http://google.com"]);

    assert_eq!(match_titles(&h, "https://google.com/"), vec!["google".to_string()]);
    assert_eq!(match_titles(&h, "ftp://files.google.com/"), vec!["google".to_string()]);
}

#[test]
fn find_matches_while_locked_returns_empty_not_error() {
    let mut h = harness();
    h.create_vault(PW).unwrap();
    add(&mut h, "google", &["https://google.com"]);
    h.lock().unwrap();

    assert!(h
        .find_matches("https://google.com/")
        .expect("locked find_matches is Ok([])")
        .is_empty());
}

#[test]
fn get_credential_while_locked_errors() {
    let mut h = harness();
    h.create_vault(PW).unwrap();
    let id = add(&mut h, "google", &["https://google.com"]);
    h.lock().unwrap();

    assert!(matches!(h.get_credential(&id), Err(AppError::Locked)));
}

#[test]
fn get_credential_unknown_id_errors() {
    let mut h = harness();
    h.create_vault(PW).unwrap();
    let err = h.get_credential("does-not-exist").expect_err("unknown id");
    assert!(matches!(err, AppError::EntryNotFound(id) if id == "does-not-exist"));
}

#[test]
fn get_credential_returns_full_credential() {
    let mut h = harness();
    h.create_vault(PW).unwrap();
    let id = add(&mut h, "github", &["https://github.com"]);

    let cred = h.get_credential(&id).expect("credential");
    assert_eq!(cred.id, id);
    assert_eq!(cred.username, "github-user");
    assert_eq!(cred.password, "github-pass");
}

#[test]
fn match_candidates_carry_no_password() {
    let mut h = harness();
    h.create_vault(PW).unwrap();
    add(&mut h, "github", &["https://github.com", "https://gh.io"]);

    let matches = h.find_matches("https://github.com/").unwrap();
    assert_eq!(matches.len(), 1);
    let c: &MatchCandidate = &matches[0];
    assert_eq!(c.title, "github");
    assert_eq!(c.username, "github-user");
    assert_eq!(c.primary_url.as_deref(), Some("https://github.com"));
}

#[test]
fn match_candidate_primary_url_is_none_when_entry_has_no_urls() {
    let mut h = harness();
    h.create_vault(PW).unwrap();
    add(&mut h, "no-url", &[]);
    assert!(h.find_matches("https://google.com/").unwrap().is_empty());
}

#[test]
fn find_matches_does_not_bump_activity_but_get_credential_does() {
    let mut h = harness_with_timeout(60);
    h.create_vault(PW).unwrap();
    let id = add(&mut h, "google", &["https://google.com"]);

    h.clock.advance(59_000);
    let _ = h.find_matches("https://google.com/").unwrap();
    h.clock.advance(1_000);
    assert!(h.tick_autolock(), "find_matches must not reset the idle timer");

    h.unlock(PW).unwrap();
    h.clock.advance(59_000);
    let _ = h.get_credential(&id).expect("credential");
    h.clock.advance(59_000);
    assert!(!h.tick_autolock(), "get_credential should have reset the idle timer");
    assert!(h.status().unlocked);
}

#[test]
fn autofill_status_reports_unlocked_and_has_vault() {
    let mut h = harness();

    let s = h.autofill_status();
    assert!(!s.unlocked);
    assert!(!s.has_vault);

    h.create_vault(PW).unwrap();
    let s = h.autofill_status();
    assert!(s.unlocked);
    assert!(s.has_vault);

    h.lock().unwrap();
    let s = h.autofill_status();
    assert!(!s.unlocked);
    assert!(s.has_vault);
}

#[test]
fn autofill_status_does_not_bump_activity() {
    let mut h = harness_with_timeout(60);
    h.create_vault(PW).unwrap();

    h.clock.advance(59_000);
    let _ = h.autofill_status();
    h.clock.advance(1_000);
    assert!(h.tick_autolock(), "autofill_status must not reset the idle timer");
}

// ---- Clocks ------------------------------------------------------------------------

#[test]
fn fake_clock_moves_only_when_told() {
    let mut c = FakeClock::default();
    assert_eq!(c.now(), 0);
    assert_eq!(c.now_rfc3339(), DEFAULT_WALL);
    c.advance(1_500);
    c.set_wall("2030-01-01T00:00:00Z");
    assert_eq!(c.now(), 1_500);
    assert_eq!(c.now_rfc3339(), "2030-01-01T00:00:00Z");
    c.advance(u64::MAX);
    assert_eq!(c.now(), u64::MAX);
}

#[test]
fn system_clock_is_monotonic_and_formats_rfc3339() {
    let c = spooky_pass::app_core::clock::SystemClock::new();
    let a = c.now();
    let b = c.now();
    assert!(b >= a);
    let wall = c.now_rfc3339();
    assert!(wall.len() >= 20 && wall.contains('T'), "got {wall}");
}

#[test]
fn answers_status_requests() {
    let mut h = harness();
    assert_eq!(
        h.answer(IpcRequest::GetStatus),
        IpcResponse::Status(AutofillStatusDto { unlocked: false, has_vault: false })
    );
    h.create_vault(PW).unwrap();
    assert_eq!(
        h.answer(IpcRequest::GetStatus),
        IpcResponse::Status(AutofillStatusDto { unlocked: true, has_vault: true })
    );
}

#[test]
fn answers_match_and_credential_requests() {
    let mut h = harness();
    h.create_vault(PW).unwrap();
    let id = add(&mut h, "github", &["https://github.com"]);

    match h.answer(IpcRequest::GetMatches { url: "https://github.com/login".into() }) {
        IpcResponse::Matches { matches } => {
            assert_eq!(matches.len(), 1);
            assert_eq!(matches[0].id, id);
        }
        other => panic!("unexpected reply {other:?}"),
    }
    match h.answer(IpcRequest::GetCredential { id: id.clone() }) {
        IpcResponse::Credential(c) => {
            assert_eq!(c.id, id);
            assert_eq!(c.password, "github-pass");
        }
        other => panic!("unexpected reply {other:?}"),
    }
    assert_eq!(
        h.answer(IpcRequest::GetCredential { id: "nope".into() }),
        IpcResponse::Error {
            kind: "EntryNotFound".into(),
            message: Some("entry not found: nope".into()),
        }
    );
}

#[test]
fn answers_with_errors_when_locked_or_unsupported() {
    let mut h = harness();
    assert_eq!(
        h.answer(IpcRequest::GetCredential { id: "x".into() }),
        IpcResponse::Error { kind: "Locked".into(), message: Some("the vault is locked".into()) }
    );
    assert_eq!(
        h.answer(IpcRequest::GetMatches { url: "https://github.com/".into() }),
        IpcResponse::Matches { matches: vec![] }
    );
    let save = IpcRequest::SaveLogin {
        url: "https://github.com/".into(),
        username: "u".into(),
        password: "p".into(),
        title: None,
    };
    assert_eq!(
        h.answer(save),
        IpcResponse::Error {
            kind: "protocol".into(),
            message: Some("saveLogin is not implemented yet".into()),
        }
    );
    assert_eq!(
        error_response(AppError::NoVault),
        IpcResponse::Error { kind: "NoVault".into(), message: Some("no vault found".into()) }
    );
}

#[test]
fn system_clock_reports_an_rfc3339_utc_timestamp() {
    let s = SystemClock::new().now_rfc3339();
    let b = s.as_bytes();
    assert!((20..=30).contains(&b.len()), "{s}");
    for (i, c) in b.iter().enumerate().take(19) {
        match i {
            4 | 7 => assert_eq!(*c, b'-'),
            10 => assert_eq!(*c, b'T'),
            13 | 16 => assert_eq!(*c, b':'),
            _ => assert!(c.is_ascii_digit(), "{s}"),
        }
    }
    assert_eq!(*b.last().unwrap(), b'Z');
    assert!(s.as_str() > "2020");
}
