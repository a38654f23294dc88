//! Persisted, non-secret application configuration: user preferences only,
//! never vault data or key material. It sits as `config.json` next to the
//! vault file.

use vstd::prelude::*;
use vstd::string::StringExecFns;


verus! {

/// Config file name (next to the vault).
pub const CONFIG_FILE_NAME: &'static str = "config.json";

/// Default idle auto-lock window, in seconds (15 minutes).
pub const DEFAULT_IDLE_TIMEOUT_SECS: u64 = 900;

/// Non-secret, persisted user preferences.
#[derive(Debug, Clone, PartialEq, Eq)]
pub struct AppConfig {
    /// Idle window before the vault auto-locks, in seconds; `0` means never.
    pub idle_timeout_secs: u64,
}

impl Default for AppConfig {
    fn default() -> (c: Self)
        ensures
            c.idle_timeout_secs == DEFAULT_IDLE_TIMEOUT_SECS,
    {
        AppConfig { idle_timeout_secs: DEFAULT_IDLE_TIMEOUT_SECS }
    }
}

/// The path separators of `std::path`: `/` on every platform, and `\` as
/// well on Windows.
pub open spec fn is_separator(c: char) -> bool {
    c == '/' || c == '\\'
}

/// `s` starts with the Windows verbatim prefix `\\?\`.
pub open spec fn starts_verbatim(s: Seq<char>) -> bool {
    s.len() >= 4 && s[0] == '\\' && s[1] == '\\' && s[2] == '?' && s[3] == '\\'
}

/// `s` is a relative path of one plain component on every platform: not
/// empty, with no separator and no `:` in it.
pub open spec fn is_plain_name(s: Seq<char>) -> bool {
    s.len() > 0 && forall|i: int| 0 <= i < s.len() ==> !is_separator(#[trigger] s[i]) && s[i] != ':'
}

/// The position of the last `/` in `s`, or -1 when there is none.
pub open spec fn last_slash(s: Seq<char>) -> int
    decreases s.len(),
{
    if s.len() == 0 {
        -1
    } else if s.last() == '/' {
        s.len() - 1
    } else {
        last_slash(s.drop_last())
    }
}

/// A directory part that every platform's `std::path` reads the same way:
/// not empty, with no `\` or `:` in it, not starting with two `/` (Windows
/// reads that as a network share), and not ending in `/` or `/.` (those
/// would be trimmed from a parent).
pub open spec fn is_plain_dir(d: Seq<char>) -> bool {
    &&& d.len() > 0
    &&& forall|i: int| 0 <= i < d.len() ==> #[trigger] d[i] != '\\' && d[i] != ':'
    &&& !(d.len() >= 2 && d[0] == '/' && d[1] == '/')
    &&& d.last() != '/'
    &&& !(d.len() >= 2 && d[d.len() - 1] == '.' && d[d.len() - 2] == '/')
}

/// `s` is a file path of the simple form `d/n` or `/n`: after its last `/`
/// comes a plain file name other than `.` and `..`, and before it either
/// nothing or a plain directory part.
pub open spec fn is_simple_file_path(s: Seq<char>) -> bool {
    let k = last_slash(s);
    let n = s.skip(k + 1);
    &&& k >= 0
    &&& k == 0 || is_plain_dir(s.take(k))
    &&& is_plain_name(n)
    &&& n != seq!['.']
    &&& n != seq!['.', '.']
}

/// The directory of a simple file path: the part before its last `/`, or
/// the root `/` when that part is empty.
pub open spec fn file_dir(s: Seq<char>) -> Seq<char> {
    if last_slash(s) == 0 {
        seq!['/']
    } else {
        s.take(last_slash(s))
    }
}

/// `p` is the file name `name` joined onto the directory `dir`: `name`
/// alone when `dir` is empty, else `dir` and `name` with at most one
/// separator between them.
pub open spec fn joined_onto(dir: Seq<char>, name: Seq<char>, p: Seq<char>) -> bool {
    if dir.len() == 0 {
        p == name
    } else {
        ||| p == dir + name
        ||| p == dir + seq!['/'] + name
        ||| p == dir + seq!['\\'] + name
    }
}

/// Calls `std::path::Path::parent` on `path` and gives the parent back as a
/// string.
///
/// Claims what holds on every platform: the empty path and the root `/`
/// have no parent; a relative path of one plain component has the empty
/// parent; and a parent is `path` without its final component, so a proper
/// prefix of it. Which prefix it is follows the platform's path rules and is
/// left unsaid, except for a simple file path `d/n` or `/n` (see
/// [`is_simple_file_path`]), whose parent is `d`, or `/`, on every
/// platform (the documentation's `/foo/bar` gives `/foo`).
#[verifier::external_body]
fn path_parent(path: &str) -> (r: Option<String>)
    ensures
        path@.len() == 0 ==> r is None,
        path@ == seq!['/'] ==> r is None,
        is_plain_name(path@) ==> r is Some && r->0@.len() == 0,
        is_simple_file_path(path@) ==> r is Some && r->0@ == file_dir(path@),
        r matches Some(d) ==> d@.len() < path@.len() && d@ == path@.take(d@.len() as int),
{
    match std::path::Path::new(path).parent() {
        Some(d) => Some(d.to_string_lossy().into_owned()),
        None => None,
    }
}

/// Calls `std::path::Path::join` to put the file name `name` in the
/// directory `dir`, and gives the path back as a string.
///
/// Claims, for a plain `name` and a `dir` without the Windows verbatim
/// prefix: `name` alone when `dir` is empty, else `dir` and `name` with at
/// most one separator between them; none after a trailing `/`, and exactly
/// one (the platform's: `/`, or `\` on Windows) after a last character
/// that is no separator when `dir` holds no `:` (so is no bare drive such
/// as `C:`). A verbatim `dir` is rebuilt from its components on Windows, so
/// nothing is claimed for one.
#[verifier::external_body]
fn path_join(dir: &str, name: &str) -> (r: String)
    ensures
        is_plain_name(name@) && !starts_verbatim(dir@) ==> joined_onto(dir@, name@, r@),
        is_plain_name(name@) && !starts_verbatim(dir@) && dir@.len() > 0 && dir@.last() == '/'
            ==> r@ == dir@ + name@,
        is_plain_name(name@) && !starts_verbatim(dir@) && dir@.len() > 0 && !is_separator(
            dir@.last(),
        ) && (forall|i: int| 0 <= i < dir@.len() ==> #[trigger] dir@[i] != ':') ==> (r@ == dir@
            + seq!['/'] + name@ || r@ == dir@ + seq!['\\'] + name@),
{
    std::path::Path::new(dir).join(name).to_string_lossy().into_owned()
}

/// The config-file path that sits next to `vault_path`: `config.json`
/// joined onto the vault path's parent directory as `std::path` finds it on
/// this platform, or `config.json` alone when the path has no parent.
///
/// An empty path, the root and a bare file name give `config.json`; a
/// simple file path `d/n` gives `d/config.json` (with `\` in place of the
/// last `/` on Windows) and `/n` gives `/config.json`; any other path gives
/// `config.json` joined onto a proper prefix of it.
pub fn config_path_for_vault(vault_path: &str) -> (p: String)
    ensures
        is_simple_file_path(vault_path@) && last_slash(vault_path@) == 0 ==> p@ == seq!['/']
            + CONFIG_FILE_NAME@,
        is_simple_file_path(vault_path@) && last_slash(vault_path@) > 0 ==> (p@ == file_dir(
            vault_path@,
        ) + seq!['/'] + CONFIG_FILE_NAME@ || p@ == file_dir(vault_path@) + seq!['\\']
            + CONFIG_FILE_NAME@),
        vault_path@.len() == 0 || vault_path@ == seq!['/'] || is_plain_name(vault_path@) ==> p@
            == CONFIG_FILE_NAME@,
        !starts_verbatim(vault_path@) ==> p@ == CONFIG_FILE_NAME@ || exists|k: int|
            0 <= k < vault_path@.len() && #[trigger] joined_onto(
                vault_path@.take(k),
                CONFIG_FILE_NAME@,
                p@,
            ),
{
    proof {
        reveal_strlit("config.json");
        assert(is_plain_name(CONFIG_FILE_NAME@));
    }
    match path_parent(vault_path) {
        None => String::from_str(CONFIG_FILE_NAME),
        Some(dir) => {
            proof {
                if starts_verbatim(dir@) {
                    assert(dir@ == vault_path@.take(dir@.len() as int));
                    assert(vault_path@[0] == dir@[0] && vault_path@[1] == dir@[1]);
                    assert(vault_path@[2] == dir@[2] && vault_path@[3] == dir@[3]);
                }
            }
            proof {
                if is_simple_file_path(vault_path@) && last_slash(vault_path@) > 0 {
                    let d = dir@;
                    assert(d[d.len() - 1] != '\\' && d[d.len() - 1] != ':');
                    assert(d[0] != '\\');
                    assert(!is_separator(d.last()));
                    assert(forall|i: int| 0 <= i < d.len() ==> #[trigger] d[i] != ':');
                }
            }
            let p = path_join(dir.as_str(), CONFIG_FILE_NAME);
            proof {
                if !starts_verbatim(vault_path@) {
                    assert(joined_onto(vault_path@.take(dir@.len() as int), CONFIG_FILE_NAME@, p@));
                }
            }
            p
        },
    }
}

} // verus!
