# Spooky-Pass

A local-first password manager: an encrypted vault file, an application
session with idle auto-lock, registrable-domain autofill matching, and the
framing used by the browser's native-messaging host.

The library (`src/`) is written in Verus and its logic is proved against its
contracts. The calls into outside crates and the operating system (key
derivation, the cipher, the URL parser and suffix list, the random source,
the clocks, zeroing memory) sit behind small trusted wrappers whose
contracts Verus takes as given; each says in its doc comment what it claims.

* `vault_core` — the vault file format (68-byte header, length-prefixed
  ciphertext), Argon2id key derivation and XChaCha20-Poly1305 sealing (through
  the `argon2` and `chacha20poly1305` crates), the JSON encoding of the vault
  body with a decoder proved to be its exact inverse, the locked/unlocked
  vault with entry operations, and the password generator.
* `app_core` — the session: create, unlock, lock, entry operations,
  idle auto-lock decided on caller-supplied time, autofill matching on the
  registrable domain (through the `url` and `psl` crates), and the error
  mapping for the interface.
* `native_host` — the 4-byte little-endian length-prefixed frames and the
  relay's decisions.

The library performs no file or network I/O: operations take what the
caller read and return the bytes to write. Session logic takes the time as
an argument; the `SystemClock` it offers reads the system clocks through
trusted wrappers, and tests use a `FakeClock` instead. `app/` is the program around it:
the vault and configuration files, the autofill socket server, the
native-messaging relay over stdin/stdout, the auto-lock timer thread, a
console in place of a window, and the serde wire forms of the messages.

Proved laws include: a saved vault file decodes and unlocks with the same
password to the same body (`lemma_saved_vault_unlocks`,
`lemma_saved_file_opens`); a locked vault unlocks to the body it sealed
(`lemma_locked_vault_unlocks`, and for `lock` itself `lemma_lock_unlocks`);
decoding a written file gives back its header fields and ciphertext, and a
well-formed file has one encoding (`lemma_decode_encode`,
`lemma_encode_decode`); a generated password is what rejection sampling over
the pool makes from a sequence of random draws (`password_of`, with
`password_from_draws` computing it), and rejection sampling reaches every
index equally often (`lemma_sampling_unbiased`); a written frame reads back
to its body (`lemma_frame_roundtrip`); entry ids are 32 lowercase hex digits
(`lemma_hex_lower_shape`).
