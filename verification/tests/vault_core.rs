//! Tests of the vault core: file format, key derivation and sealing, the
//! password generator, and the full create / save / open / unlock flows.

use spooky_pass::vault_core::crypto::{derive_key, open, seal, KdfParams};
use spooky_pass::vault_core::entry::{Entry, EntryPatch, NewEntry};
use spooky_pass::vault_core::error::VaultError;
use spooky_pass::vault_core::format::{
    decode, encode, HeaderFields, ARGON2_VERSION, CIPHER_ID_XCHACHA20POLY1305, FORMAT_VERSION,
    HEADER_LEN, KDF_ID_ARGON2ID, NONCE_LEN, SALT_LEN,
};
use spooky_pass::vault_core::generator::{
    generate_password, password_from_draws, sample_index, u64_from_le_bytes, PasswordOptions, MAX_DRAWS,
    SYMBOLS,
};
use spooky_pass::vault_core::vault::{LockedVault, UnlockedVault};

const PW: &str = "correct horse battery staple";
const NOW: &str = "2026-06-14T00:00:00Z";
const LATER: &str = "2026-06-14T12:00:00Z";

// ---- Format ------------------------------------------------------------------

fn sample_fields() -> HeaderFields {
    HeaderFields {
        m_cost_kib: 65_536,
        t_cost: 3,
        p_cost: 1,
        salt: [0xAB; SALT_LEN],
        nonce: [0xCD; NONCE_LEN],
    }
}

fn sample_ciphertext() -> Vec<u8> {
    (0u8..40).collect()
}

#[test]
fn encode_decode_header_roundtrip() {
    let fields = sample_fields();
    let ct = sample_ciphertext();
    let bytes = encode(&fields, &ct);
    let (header, ct_out) = decode(&bytes).unwrap();
    assert_eq!(header.format_version, FORMAT_VERSION);
    assert_eq!(header.m_cost_kib, fields.m_cost_kib);
    assert_eq!(header.t_cost, fields.t_cost);
    assert_eq!(header.p_cost, fields.p_cost);
    assert_eq!(header.argon2_version, ARGON2_VERSION);
    assert_eq!(header.salt, fields.salt);
    assert_eq!(header.nonce, fields.nonce);
    assert_eq!(ct_out, &ct[..]);
}

#[test]
fn header_has_correct_magic_and_version() {
    let bytes = encode(&sample_fields(), &sample_ciphertext());
    assert_eq!(&bytes[0..4], b"SPK1");
    assert_eq!(u16::from_le_bytes([bytes[4], bytes[5]]), 1);
    assert_eq!(bytes[6], KDF_ID_ARGON2ID);
    assert_eq!(bytes[7], CIPHER_ID_XCHACHA20POLY1305);
}

#[test]
fn decode_rejects_bad_magic() {
    let mut bytes = encode(&sample_fields(), &sample_ciphertext());
    bytes[0] = b'X';
    assert!(matches!(decode(&bytes), Err(VaultError::BadMagic)));
}

#[test]
fn decode_rejects_unknown_version() {
    let mut bytes = encode(&sample_fields(), &sample_ciphertext());
    bytes[4..6].copy_from_slice(&999u16.to_le_bytes());
    assert!(matches!(decode(&bytes), Err(VaultError::UnsupportedVersion(999))));
}

#[test]
fn decode_rejects_unknown_kdf_id() {
    let mut bytes = encode(&sample_fields(), &sample_ciphertext());
    bytes[6] = 9;
    assert!(matches!(decode(&bytes), Err(VaultError::UnsupportedKdf(9))));
}

#[test]
fn decode_rejects_unknown_cipher_id() {
    let mut bytes = encode(&sample_fields(), &sample_ciphertext());
    bytes[7] = 9;
    assert!(matches!(decode(&bytes), Err(VaultError::UnsupportedCipher(9))));
}

#[test]
fn decode_rejects_truncated_header() {
    let bytes = encode(&sample_fields(), &sample_ciphertext());
    assert!(matches!(decode(&bytes[..40]), Err(VaultError::MalformedFile)));
}

#[test]
fn decode_rejects_truncated_body() {
    let bytes = encode(&sample_fields(), &sample_ciphertext());
    let short = &bytes[..bytes.len() - 5];
    assert!(matches!(decode(short), Err(VaultError::MalformedFile)));
}

#[test]
fn decode_rejects_trailing_garbage() {
    let mut bytes = encode(&sample_fields(), &sample_ciphertext());
    bytes.extend_from_slice(&[0xFF, 0xFF, 0xFF]);
    assert!(matches!(decode(&bytes), Err(VaultError::MalformedFile)));
}

#[test]
fn decode_rejects_empty_input() {
    assert!(matches!(decode(&[]), Err(VaultError::MalformedFile)));
}

#[test]
fn decode_rejects_wrong_salt_or_nonce_len() {
    let mut bytes = encode(&sample_fields(), &sample_ciphertext());
    bytes[24..26].copy_from_slice(&8u16.to_le_bytes());
    assert!(matches!(decode(&bytes), Err(VaultError::MalformedFile)));

    let mut bytes = encode(&sample_fields(), &sample_ciphertext());
    bytes[42..44].copy_from_slice(&12u16.to_le_bytes());
    assert!(matches!(decode(&bytes), Err(VaultError::MalformedFile)));
}

#[test]
fn integers_are_little_endian() {
    let fields = HeaderFields {
        m_cost_kib: 0x0102_0304,
        t_cost: 3,
        p_cost: 1,
        salt: [0; SALT_LEN],
        nonce: [0; NONCE_LEN],
    };
    let bytes = encode(&fields, &sample_ciphertext());
    assert_eq!(&bytes[8..12], &[0x04, 0x03, 0x02, 0x01]);
}

#[test]
fn decode_rejects_a_ciphertext_shorter_than_the_tag() {
    let bytes = encode(&sample_fields(), &[1, 2, 3]);
    assert!(matches!(decode(&bytes), Err(VaultError::MalformedFile)));
}

#[test]
fn encoded_file_length_prefixes_the_ciphertext() {
    let bytes = encode(&sample_fields(), &sample_ciphertext());
    assert_eq!(bytes.len(), 76 + 40);
    assert_eq!(&bytes[68..76], &40u64.to_le_bytes());
}

// ---- Crypto ------------------------------------------------------------------

fn test_nonce() -> [u8; 24] {
    [7u8; 24]
}

#[test]
fn derive_key_is_deterministic() {
    let salt = [1u8; 16];
    let params = KdfParams::default();
    let k1 = derive_key("hunter2", &salt, &params).unwrap();
    let k2 = derive_key("hunter2", &salt, &params).unwrap();
    assert_eq!(k1.as_bytes(), k2.as_bytes());
}

#[test]
fn derive_key_differs_on_salt() {
    let params = KdfParams::default();
    let k1 = derive_key("hunter2", &[1u8; 16], &params).unwrap();
    let k2 = derive_key("hunter2", &[2u8; 16], &params).unwrap();
    assert_ne!(k1.as_bytes(), k2.as_bytes());
}

#[test]
fn derive_key_differs_on_password() {
    let salt = [1u8; 16];
    let params = KdfParams::default();
    let k1 = derive_key("hunter2", &salt, &params).unwrap();
    let k2 = derive_key("hunter3", &salt, &params).unwrap();
    assert_ne!(k1.as_bytes(), k2.as_bytes());
}

#[test]
fn seal_then_open_roundtrips() {
    let key = derive_key("pw", &[3u8; 16], &KdfParams::default()).unwrap();
    let nonce = test_nonce();
    let aad = b"header";
    let ct = seal(&key, &nonce, b"secret message", aad).unwrap();
    let pt = open(&key, &nonce, &ct, aad).unwrap();
    assert_eq!(pt, b"secret message");
}

#[test]
fn open_with_wrong_key_fails() {
    let key = derive_key("pw", &[3u8; 16], &KdfParams::default()).unwrap();
    let wrong = derive_key("other", &[3u8; 16], &KdfParams::default()).unwrap();
    let nonce = test_nonce();
    let ct = seal(&key, &nonce, b"secret", b"aad").unwrap();
    assert!(matches!(open(&wrong, &nonce, &ct, b"aad"), Err(VaultError::WrongPassword)));
}

#[test]
fn open_with_tampered_ciphertext_fails() {
    let key = derive_key("pw", &[3u8; 16], &KdfParams::default()).unwrap();
    let nonce = test_nonce();
    let mut ct = seal(&key, &nonce, b"secret", b"aad").unwrap();
    ct[0] ^= 0xff;
    assert!(matches!(open(&key, &nonce, &ct, b"aad"), Err(VaultError::WrongPassword)));
}

#[test]
fn open_with_tampered_aad_fails() {
    let key = derive_key("pw", &[3u8; 16], &KdfParams::default()).unwrap();
    let nonce = test_nonce();
    let ct = seal(&key, &nonce, b"secret", b"aad").unwrap();
    assert!(matches!(
        open(&key, &nonce, &ct, b"different-aad"),
        Err(VaultError::WrongPassword)
    ));
}

#[test]
fn default_kdf_params_match_design() {
    let p = KdfParams::default();
    assert_eq!(p.m_cost_kib, 65_536);
    assert_eq!(p.t_cost, 3);
    assert_eq!(p.p_cost, 1);
}

#[test]
fn seal_appends_a_sixteen_byte_tag() {
    let key = derive_key("pw", &[3u8; 16], &KdfParams::default()).unwrap();
    let ct = seal(&key, &test_nonce(), b"0123456789", b"aad").unwrap();
    assert_eq!(ct.len(), 10 + 16);
}

#[test]
fn derive_key_rejects_invalid_params() {
    let params = KdfParams { m_cost_kib: 4, t_cost: 3, p_cost: 1 };
    assert!(matches!(
        derive_key("pw", &[1u8; 16], &params),
        Err(VaultError::InvalidKdfParams)
    ));
    let params = KdfParams { m_cost_kib: 65_536, t_cost: 0, p_cost: 1 };
    assert!(matches!(
        derive_key("pw", &[1u8; 16], &params),
        Err(VaultError::InvalidKdfParams)
    ));
    let params = KdfParams { m_cost_kib: 65_536, t_cost: 1, p_cost: 0x0100_0000 };
    assert!(matches!(
        derive_key("pw", &[1u8; 16], &params),
        Err(VaultError::InvalidKdfParams)
    ));
}

#[test]
fn derive_key_rejects_a_short_salt() {
    let params = KdfParams { m_cost_kib: 64, t_cost: 1, p_cost: 1 };
    assert!(matches!(
        derive_key("pw", &[1u8; 4], &params),
        Err(VaultError::KeyDerivation)
    ));
}

// ---- Generator ---------------------------------------------------------------

fn only(class: fn(&mut PasswordOptions)) -> PasswordOptions {
    let mut opts = PasswordOptions {
        length: 64,
        lowercase: false,
        uppercase: false,
        digits: false,
        symbols: false,
        exclude_ambiguous: false,
    };
    class(&mut opts);
    opts
}

#[test]
fn generated_password_honors_length() {
    let opts = PasswordOptions {
        length: 37,
        ..PasswordOptions::default()
    };
    let pw = generate_password(&opts).unwrap();
    assert_eq!(pw.chars().count(), 37);
}

#[test]
fn generated_password_lowercase_only() {
    let opts = only(|o| o.lowercase = true);
    let pw = generate_password(&opts).unwrap();
    assert!(pw.chars().all(|c| c.is_ascii_lowercase()), "got: {pw}");
}

#[test]
fn generated_password_uppercase_only() {
    let opts = only(|o| o.uppercase = true);
    let pw = generate_password(&opts).unwrap();
    assert!(pw.chars().all(|c| c.is_ascii_uppercase()), "got: {pw}");
}

#[test]
fn generated_password_digits_only() {
    let opts = only(|o| o.digits = true);
    let pw = generate_password(&opts).unwrap();
    assert!(pw.chars().all(|c| c.is_ascii_digit()), "got: {pw}");
}

#[test]
fn generated_password_symbols_only() {
    let opts = only(|o| o.symbols = true);
    let pw = generate_password(&opts).unwrap();
    assert!(pw.chars().all(|c| SYMBOLS.contains(&c)), "got: {pw}");
}

#[test]
fn generated_password_uses_all_selected_classes() {
    let opts = PasswordOptions {
        length: 400,
        lowercase: true,
        uppercase: true,
        digits: true,
        symbols: true,
        exclude_ambiguous: true,
    };
    let pw = generate_password(&opts).unwrap();
    assert!(pw.chars().any(|c| c.is_ascii_lowercase()), "no lowercase");
    assert!(pw.chars().any(|c| c.is_ascii_uppercase()), "no uppercase");
    assert!(pw.chars().any(|c| c.is_ascii_digit()), "no digit");
    assert!(pw.chars().any(|c| SYMBOLS.contains(&c)), "no symbol");
}

#[test]
fn generator_excludes_ambiguous_when_requested() {
    let opts = PasswordOptions {
        length: 500,
        lowercase: true,
        uppercase: true,
        digits: true,
        symbols: false,
        exclude_ambiguous: true,
    };
    let pw = generate_password(&opts).unwrap();
    for ambiguous in ['l', 'I', 'O', '0', '1'] {
        assert!(!pw.contains(ambiguous), "ambiguous char {ambiguous:?} present in {pw}");
    }
}

#[test]
fn generator_rejects_zero_length() {
    let opts = PasswordOptions {
        length: 0,
        ..PasswordOptions::default()
    };
    assert!(matches!(generate_password(&opts), Err(VaultError::InvalidPasswordOptions)));
}

#[test]
fn generator_rejects_no_charset() {
    let opts = PasswordOptions {
        length: 16,
        lowercase: false,
        uppercase: false,
        digits: false,
        symbols: false,
        exclude_ambiguous: false,
    };
    assert!(matches!(generate_password(&opts), Err(VaultError::InvalidPasswordOptions)));
}

#[test]
fn generated_passwords_are_not_constant() {
    let opts = PasswordOptions::default();
    let a = generate_password(&opts).unwrap();
    let b = generate_password(&opts).unwrap();
    assert_ne!(a, b);
}

// ---- Vault lifecycle ---------------------------------------------------------

fn sample_new(title: &str) -> NewEntry {
    NewEntry {
        title: title.into(),
        username: format!("{title}-user"),
        password: format!("{title}-pass"),
        urls: vec![format!("https://{title}.example")],
        notes: format!("notes for {title}"),
        now: NOW.into(),
    }
}

#[test]
fn create_produces_empty_unlocked_vault() {
    let vault = LockedVault::create(PW, KdfParams::default()).unwrap();
    assert!(vault.list_entries().is_empty());
}

#[test]
fn create_save_open_unlock_roundtrip() {
    let mut vault = LockedVault::create(PW, KdfParams::default()).unwrap();
    vault.add_entry(sample_new("github")).unwrap();
    let bytes = vault.to_bytes().unwrap();

    let locked = LockedVault::open_from_bytes(&bytes).unwrap();
    let reopened = UnlockedVault::unlock(&locked, PW).unwrap();
    assert_eq!(reopened.list_entries().len(), 1);
    assert_eq!(reopened.list_entries()[0].title, "github");
}

#[test]
fn integration_unlock_with_correct_password_succeeds() {
    let vault = LockedVault::create(PW, KdfParams::default()).unwrap();
    let bytes = vault.to_bytes().unwrap();
    let locked = LockedVault::open_from_bytes(&bytes).unwrap();
    assert!(UnlockedVault::unlock(&locked, PW).is_ok());
}

#[test]
fn unlock_with_wrong_password_fails_cleanly() {
    let vault = LockedVault::create(PW, KdfParams::default()).unwrap();
    let bytes = vault.to_bytes().unwrap();
    let locked = LockedVault::open_from_bytes(&bytes).unwrap();
    assert!(matches!(
        UnlockedVault::unlock(&locked, "wrong password"),
        Err(VaultError::WrongPassword)
    ));
}

#[test]
fn unlock_with_tampered_body_returns_wrong_password() {
    let vault = LockedVault::create(PW, KdfParams::default()).unwrap();
    let mut bytes = vault.to_bytes().unwrap();
    let last = bytes.len() - 1;
    bytes[last] ^= 0xff;
    let locked = LockedVault::open_from_bytes(&bytes).unwrap();
    assert!(matches!(UnlockedVault::unlock(&locked, PW), Err(VaultError::WrongPassword)));
}

#[test]
fn unlock_with_tampered_header_returns_wrong_password() {
    let vault = LockedVault::create(PW, KdfParams::default()).unwrap();
    let mut bytes = vault.to_bytes().unwrap();
    // A salt byte: the header is authenticated as associated data.
    bytes[30] ^= 0x01;
    let locked = LockedVault::open_from_bytes(&bytes).unwrap();
    assert!(matches!(UnlockedVault::unlock(&locked, PW), Err(VaultError::WrongPassword)));
}

// ---- Entry CRUD --------------------------------------------------------------

#[test]
fn add_entry_assigns_id_and_timestamps() {
    let mut vault = LockedVault::create(PW, KdfParams::default()).unwrap();
    let entry = vault.add_entry(sample_new("github")).unwrap();
    assert_eq!(entry.id.len(), 32);
    assert!(entry
        .id
        .chars()
        .all(|c| c.is_ascii_hexdigit() && !c.is_uppercase()));
    assert_eq!(entry.created, NOW);
    assert_eq!(entry.updated, NOW);
}

#[test]
fn insert_entry_names_the_entry_by_the_hex_of_its_id_bytes() {
    let mut vault = LockedVault::create_with_salt(PW, KdfParams::default(), [9u8; 16]).unwrap();
    let raw: [u8; 16] = [0x00, 0x01, 0x0a, 0xff, 0x10, 0x20, 0x30, 0x40, 0x50, 0x60, 0x70, 0x80, 0x90, 0xa0, 0xb0, 0xc0];
    let entry = vault.insert_entry(sample_new("github"), &raw);
    assert_eq!(entry.id, "00010aff102030405060708090a0b0c0");
}

#[test]
fn add_entry_assigns_unique_ids() {
    let mut vault = LockedVault::create(PW, KdfParams::default()).unwrap();
    let a = vault.add_entry(sample_new("a")).unwrap().id.clone();
    let b = vault.add_entry(sample_new("b")).unwrap().id.clone();
    assert_ne!(a, b);
}

#[test]
fn get_entry_found_and_not_found() {
    let mut vault = LockedVault::create(PW, KdfParams::default()).unwrap();
    let id = vault.add_entry(sample_new("github")).unwrap().id.clone();
    assert!(vault.get_entry(&id).is_some());
    assert!(vault.get_entry("does-not-exist").is_none());
}

#[test]
fn update_entry_changes_fields_and_bumps_updated() {
    let mut vault = LockedVault::create(PW, KdfParams::default()).unwrap();
    let id = vault.add_entry(sample_new("github")).unwrap().id.clone();
    let patch = EntryPatch {
        password: Some("new-pass".into()),
        notes: Some("rotated".into()),
        now: LATER.into(),
        ..Default::default()
    };
    let updated = vault.update_entry(&id, patch).unwrap();
    assert_eq!(updated.password, "new-pass");
    assert_eq!(updated.notes, "rotated");
    assert_eq!(updated.title, "github");
    assert_eq!(updated.created, NOW);
    assert_eq!(updated.updated, LATER);
}

#[test]
fn update_missing_entry_errors() {
    let mut vault = LockedVault::create(PW, KdfParams::default()).unwrap();
    let patch = EntryPatch {
        title: Some("x".into()),
        now: LATER.into(),
        ..Default::default()
    };
    assert!(matches!(vault.update_entry("nope", patch), Err(VaultError::EntryNotFound(_))));
}

#[test]
fn delete_entry_removes_it() {
    let mut vault = LockedVault::create(PW, KdfParams::default()).unwrap();
    let id = vault.add_entry(sample_new("github")).unwrap().id.clone();
    vault.delete_entry(&id).unwrap();
    assert!(vault.get_entry(&id).is_none());
    assert!(vault.list_entries().is_empty());
}

#[test]
fn delete_missing_entry_errors() {
    let mut vault = LockedVault::create(PW, KdfParams::default()).unwrap();
    assert!(matches!(vault.delete_entry("nope"), Err(VaultError::EntryNotFound(_))));
}

#[test]
fn delete_keeps_the_other_entries_in_order() {
    let mut vault = LockedVault::create_with_salt(PW, KdfParams::default(), [5u8; 16]).unwrap();
    vault.insert_entry(sample_new("a"), &[1u8; 16]);
    vault.insert_entry(sample_new("b"), &[2u8; 16]);
    vault.insert_entry(sample_new("c"), &[1u8; 16]);
    vault.insert_entry(sample_new("d"), &[3u8; 16]);
    vault.delete_entry("01010101010101010101010101010101").unwrap();
    let titles: Vec<&str> = vault.list_entries().iter().map(|e| e.title.as_str()).collect();
    assert_eq!(titles, ["b", "d"]);
}

#[test]
fn list_entries_returns_all_in_order() {
    let mut vault = LockedVault::create(PW, KdfParams::default()).unwrap();
    for name in ["a", "b", "c"] {
        vault.add_entry(sample_new(name)).unwrap();
    }
    let titles: Vec<&str> = vault
        .list_entries()
        .iter()
        .map(|e| e.title.as_str())
        .collect();
    assert_eq!(titles, ["a", "b", "c"]);
}

// ---- Serialization & persistence --------------------------------------------

#[test]
fn two_saves_use_different_nonces() {
    let vault = LockedVault::create(PW, KdfParams::default()).unwrap();
    let a = vault.to_bytes().unwrap();
    let b = vault.to_bytes().unwrap();
    assert_ne!(&a[44..68], &b[44..68], "nonce was reused across saves");
    assert_ne!(a, b);
}

#[test]
fn to_bytes_with_nonce_records_the_nonce() {
    let vault = LockedVault::create_with_salt(PW, KdfParams::default(), [4u8; 16]).unwrap();
    let bytes = vault.to_bytes_with_nonce([0x5a; 24]).unwrap();
    assert_eq!(&bytes[44..68], &[0x5a; 24]);
    assert_eq!(&bytes[26..42], &[4u8; 16]);
    let locked = LockedVault::open_from_bytes(&bytes).unwrap();
    assert_eq!(locked.header().nonce, [0x5a; 24]);
    assert!(UnlockedVault::unlock(&locked, PW).is_ok());
}

#[test]
fn save_then_reload_preserves_all_fields() {
    let mut vault = LockedVault::create(PW, KdfParams::default()).unwrap();
    let original: Entry = vault
        .add_entry(NewEntry {
            title: "Bank".into(),
            username: "alice@example.com".into(),
            password: "s3cr3t!".into(),
            urls: vec![
                "https://bank.example".into(),
                "https://m.bank.example".into(),
            ],
            notes: "PIN reminder".into(),
            now: NOW.into(),
        })
        .unwrap()
        .clone();

    let bytes = vault.to_bytes().unwrap();
    let locked = LockedVault::open_from_bytes(&bytes).unwrap();
    let reopened = UnlockedVault::unlock(&locked, PW).unwrap();

    let got = &reopened.list_entries()[0];
    assert_eq!(got, &original);
}

#[test]
fn save_then_reload_preserves_strings_that_need_escaping() {
    let mut vault = LockedVault::create(PW, KdfParams::default()).unwrap();
    let original: Entry = vault
        .add_entry(NewEntry {
            title: "quote \" backslash \\ tab \t newline \n nul \u{0} bell \u{7}".into(),
            username: "ünïcödé 🔑".into(),
            password: "\u{1f}\u{7f}/".into(),
            urls: vec![],
            notes: String::new(),
            now: NOW.into(),
        })
        .unwrap()
        .clone();
    let bytes = vault.to_bytes().unwrap();
    let locked = LockedVault::open_from_bytes(&bytes).unwrap();
    let reopened = UnlockedVault::unlock(&locked, PW).unwrap();
    assert_eq!(&reopened.list_entries()[0], &original);
}

#[test]
fn lock_then_unlock_roundtrips() {
    let mut vault = LockedVault::create(PW, KdfParams::default()).unwrap();
    vault.add_entry(sample_new("github")).unwrap();
    let locked = vault.lock().unwrap();
    let reopened = UnlockedVault::unlock(&locked, PW).unwrap();
    assert_eq!(reopened.list_entries()[0].title, "github");
}

#[test]
fn unsupported_format_version_is_handled() {
    let vault = LockedVault::create(PW, KdfParams::default()).unwrap();
    let mut bytes = vault.to_bytes().unwrap();
    bytes[4..6].copy_from_slice(&2u16.to_le_bytes());
    assert!(matches!(
        LockedVault::open_from_bytes(&bytes),
        Err(VaultError::UnsupportedVersion(2))
    ));
}

#[test]
fn dropping_unlocked_vault_compiles_zeroize() {
    let mut vault = LockedVault::create(PW, KdfParams::default()).unwrap();
    vault.add_entry(sample_new("github")).unwrap();
    drop(vault);
}

#[test]
fn generator_produces_requested_length() {
    let opts = PasswordOptions {
        length: 24,
        ..PasswordOptions::default()
    };
    assert_eq!(generate_password(&opts).unwrap().chars().count(), 24);
}

fn digits_only(length: usize) -> PasswordOptions {
    PasswordOptions {
        length,
        lowercase: false,
        uppercase: false,
        digits: true,
        symbols: false,
        exclude_ambiguous: true,
    }
}

#[test]
fn password_from_draws_reduces_accepted_draws_in_order() {
    // Pool "23456789": the draw 0 gives '2', 9 gives '3', u64::MAX is
    // rejected, and 3 gives '5'.
    let draws = vec![0u64, 9, u64::MAX, 3];
    assert_eq!(password_from_draws(&digits_only(3), &draws).as_deref(), Some("235"));
    // Draws beyond those needed are unused.
    assert_eq!(password_from_draws(&digits_only(2), &draws).as_deref(), Some("23"));
}

#[test]
fn password_from_draws_needs_enough_draws() {
    assert_eq!(password_from_draws(&digits_only(3), &vec![0u64, 9]), None);
    assert_eq!(password_from_draws(&digits_only(1), &vec![]), None);
    let rejected = vec![u64::MAX; MAX_DRAWS + 1];
    assert_eq!(password_from_draws(&digits_only(1), &rejected), None);
}

#[test]
fn password_from_draws_gives_up_after_a_run_of_rejections() {
    let mut draws = vec![u64::MAX; MAX_DRAWS - 1];
    draws.push(4);
    assert_eq!(password_from_draws(&digits_only(1), &draws).as_deref(), Some("6"));
    let mut draws = vec![u64::MAX; MAX_DRAWS];
    draws.push(4);
    assert_eq!(password_from_draws(&digits_only(1), &draws), None);
}

#[test]
fn password_from_draws_edge_options() {
    assert_eq!(password_from_draws(&digits_only(0), &vec![]).as_deref(), Some(""));
    let none = PasswordOptions { digits: false, ..digits_only(4) };
    assert_eq!(password_from_draws(&none, &vec![1, 2, 3, 4]), None);
}

#[test]
fn sample_index_rejects_the_top_of_the_range() {
    assert_eq!(sample_index(17, 8), Some(1));
    assert_eq!(sample_index(u64::MAX - 7, 8), None);
    assert_eq!(sample_index(u64::MAX - 8, 8), Some(7));
}

#[test]
fn accepted_samples_spread_evenly_over_indices() {
    let mut counts = [0usize; 6];
    for x in 0u64..600 {
        counts[sample_index(x, 6).unwrap()] += 1;
    }
    assert_eq!(counts, [100; 6]);
    // The rejected tail is what is left over after whole multiples of 6.
    let zone = u64::MAX - u64::MAX % 6;
    assert_eq!(zone % 6, 0);
    assert_eq!(sample_index(zone - 1, 6), Some(5));
    assert_eq!(sample_index(zone, 6), None);
}

#[test]
fn le_bytes_decode_little_endian() {
    assert_eq!(u64_from_le_bytes(&[1, 0, 0, 0, 0, 0, 0, 0]), 1);
    assert_eq!(u64_from_le_bytes(&[0, 1, 0, 0, 0, 0, 0, 0]), 256);
    assert_eq!(u64_from_le_bytes(&[0, 0, 0, 0, 0, 0, 0, 0x80]), 1u64 << 63);
    assert_eq!(u64_from_le_bytes(&[0xff; 8]), u64::MAX);
}

#[test]
fn saved_file_header_is_well_formed() {
    let vault = LockedVault::create(PW, KdfParams::default()).unwrap();
    let bytes = vault.to_bytes().unwrap();
    assert!(bytes.len() > HEADER_LEN);
    assert_eq!(&bytes[0..4], b"SPK1");
}

#[test]
fn error_messages_read_as_before() {
    assert_eq!(VaultError::UnsupportedVersion(99).message(), "unsupported vault format version: 99");
    assert_eq!(VaultError::Io("disk full".into()).message(), "I/O error: disk full");
    assert_eq!(VaultError::EntryNotFound("x".into()).message(), "entry not found: x");
    assert_eq!(VaultError::Crypto.message(), "cryptographic operation failed");
}

#[test]
fn zeroize_primitive_wipes_buffer() {
    let mut key = derive_key("pw", &[3u8; 16], &KdfParams::default()).unwrap();
    assert_ne!(key.as_bytes(), &[0u8; 32]);
    key.wipe();
    assert_eq!(key.as_bytes(), &[0u8; 32]);
}
