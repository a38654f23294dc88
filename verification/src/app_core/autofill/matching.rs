//! Registrable-domain (eTLD+1) autofill matching.
//!
//! A page matches a stored entry when one of the entry's URLs has the same
//! registrable domain as the page, as the Public Suffix List decides it: a
//! login saved on `accounts.google.com` fills on `mail.google.com`, while
//! `google.com.evil.ru` (registrable domain `evil.ru`) matches nothing of
//! `google.com`. No substring matching is ever done.
//!
//! Matching fails closed: a missing host, an IP literal, `localhost`, a bare
//! host name or a suffix the list does not name has no registrable domain,
//! and such a page matches nothing.
//!
//! [`AppState::find_matches`] is a probe the extension may run on every page
//! load, so it does not count as activity; [`AppState::get_credential`] is
//! issued on a user's click and does.

use vstd::prelude::*;
use vstd::string::StrSliceExecFns;

use crate::app_core::autofill::contract::{AutofillStatusDto, CredentialDto, MatchCandidate};
use crate::app_core::error::AppError;
use crate::app_core::state::{touched, AppState};
use crate::text::chars_of;
use crate::vault_core::body_codec::string_from_utf8;
use crate::vault_core::entry::{entries_view, Entry, EntryModel};
use crate::vault_core::generator::string_from_chars;
use crate::vault_core::vault::{has_id, is_first_with_id};

verus! {

/// The host of the URL `raw` as `url::Url` parses and reports it, or `None`
/// when `raw` does not parse or has no host.
pub uninterp spec fn url_host_of(raw: Seq<char>) -> Option<Seq<char>>;

/// What `psl::domain` finds for the host bytes `host`: the registrable
/// domain's bytes and whether its suffix is named by the list, or `None`.
pub uninterp spec fn psl_domain_of(host: Seq<u8>) -> Option<(Seq<u8>, bool)>;

/// Calls `url::Url::parse(raw)`, then `Url::host_str` on the parsed URL.
///
/// Claims: the host returned is the named result of `raw`.
#[verifier::external_body]
fn url_host(raw: &str) -> (r: Option<String>)
    ensures
        match r {
            Some(h) => url_host_of(raw@) == Some(h@),
            None => url_host_of(raw@) is None,
        },
{
    match url::Url::parse(raw) {
        Ok(u) => u.host_str().map(|h| h.to_owned()),
        Err(_) => None,
    }
}

/// Calls `psl::domain(host)`, then `Domain::as_bytes` and
/// `Domain::suffix().is_known()` on the domain found.
///
/// Claims: the bytes and the flag returned are the named result of `host`.
#[verifier::external_body]
fn psl_domain(host: &[u8]) -> (r: Option<(Vec<u8>, bool)>)
    ensures
        match r {
            Some((d, known)) => psl_domain_of(host@) == Some((d@, known)),
            None => psl_domain_of(host@) is None,
        },
{
    match psl::domain(host) {
        Some(d) => Some((d.as_bytes().to_vec(), d.suffix().is_known())),
        None => None,
    }
}

/// `s` without its trailing dots.
pub open spec fn trim_dots(s: Seq<char>) -> Seq<char>
    decreases s.len(),
{
    if s.len() > 0 && s.last() == '.' {
        trim_dots(s.drop_last())
    } else {
        s
    }
}

/// `c` with an ASCII capital letter made lowercase.
pub open spec fn ascii_lower_char(c: char) -> char {
    if 65 <= c as u32 <= 90 {
        ((c as u32) + 32) as char
    } else {
        c
    }
}

/// `s` with its ASCII capital letters made lowercase.
pub open spec fn ascii_lower(s: Seq<char>) -> Seq<char> {
    s.map_values(|c: char| ascii_lower_char(c))
}

/// The registrable domain of `host`: the host lowercased and without
/// trailing dots is looked up in the Public Suffix List, and the domain
/// found counts only when the list names its suffix.
pub open spec fn registrable_domain_of(host: Seq<char>) -> Option<Seq<char>> {
    let h = ascii_lower(trim_dots(host));
    if h.len() == 0 {
        None
    } else {
        domain_from_lookup_of(psl_domain_of(vstd::utf8::encode_utf8(h)))
    }
}

/// The registrable domain of the host of the URL `raw`.
pub open spec fn url_domain_of(raw: Seq<char>) -> Option<Seq<char>> {
    match url_host_of(raw) {
        Some(h) => registrable_domain_of(h),
        None => None,
    }
}

/// One of the URLs of `e` has the registrable domain `d`.
pub open spec fn entry_matches_domain(e: EntryModel, d: Seq<char>) -> bool {
    exists|i: int| 0 <= i < e.urls.len() && #[trigger] url_domain_of(e.urls[i]) == Some(d)
}

/// `c` is the match candidate of the entry `e`.
pub open spec fn candidate_of(c: MatchCandidate, e: EntryModel) -> bool {
    &&& c.id@ == e.id
    &&& c.title@ == e.title
    &&& c.username@ == e.username
    &&& match c.primary_url {
        Some(u) => e.urls.len() > 0 && u@ == e.urls[0],
        None => e.urls.len() == 0,
    }
}

/// The entries of `es` matching the registrable domain `d`, in order.
pub open spec fn matching_entries(es: Seq<EntryModel>, d: Seq<char>) -> Seq<EntryModel> {
    es.filter(|e: EntryModel| entry_matches_domain(e, d))
}

/// `s` with trailing dots removed and ASCII letters lowercased.
fn normalize_host(host: &str) -> (r: String)
    ensures
        r@ == ascii_lower(trim_dots(host@)),
{
    let chars = chars_of(host);
    let mut end: usize = chars.len();
    assert(chars@.take(chars@.len() as int) =~= chars@);
    while end > 0 && chars[end - 1] == '.'
        invariant
            0 <= end <= chars@.len(),
            chars@ == host@,
            trim_dots(chars@.take(end as int)) == trim_dots(host@),
        decreases end,
    {
        proof {
            assert(chars@.take(end as int).drop_last() =~= chars@.take(end - 1));
        }
        end = end - 1;
    }
    let ghost trimmed = chars@.take(end as int);
    proof {
        if end > 0 {
            assert(trimmed.last() != '.');
        } else {
            assert(trimmed =~= Seq::<char>::empty());
        }
        assert(trim_dots(trimmed) == trimmed);
    }
    let mut out: Vec<char> = Vec::new();
    let mut i: usize = 0;
    while i < end
        invariant
            0 <= i <= end <= chars@.len(),
            trimmed == chars@.take(end as int),
            out@ == ascii_lower(trimmed.take(i as int)),
        decreases end - i,
    {
        let c = chars[i];
        let n = c as u32;
        let l = if 65 <= n && n <= 90 {
            ((n + 32) as u8) as char
        } else {
            c
        };
        assert(l == ascii_lower_char(c));
        out.push(l);
        i = i + 1;
        assert(out@ =~= ascii_lower(trimmed.take(i as int)));
    }
    assert(trimmed.take(end as int) =~= trimmed);
    string_from_chars(&out)
}

/// What a Public Suffix List lookup `found` gives as a registrable domain:
/// the domain when the list names its suffix and its bytes are UTF-8.
pub open spec fn domain_from_lookup_of(found: Option<(Seq<u8>, bool)>) -> Option<Seq<char>> {
    match found {
        Some((d, known)) => if known && vstd::utf8::valid_utf8(d) {
            Some(vstd::utf8::decode_utf8(d))
        } else {
            None
        },
        None => None,
    }
}

/// The registrable domain a Public Suffix List lookup found: `None` when
/// nothing was found or the suffix is not named by the list (the implicit
/// `*` rule), so unlisted suffixes fail closed.
pub fn domain_from_lookup(found: Option<(Vec<u8>, bool)>) -> (r: Option<String>)
    ensures
        match r {
            Some(d) => domain_from_lookup_of(
                match found {
                    Some((b, k)) => Some((b@, k)),
                    None => None,
                },
            ) == Some(d@),
            None => domain_from_lookup_of(
                match found {
                    Some((b, k)) => Some((b@, k)),
                    None => None,
                },
            ) is None,
        },
{
    let (bytes, known) = match found {
        Some(x) => x,
        None => return None,
    };
    if !known {
        return None;
    }
    match string_from_utf8(bytes) {
        Some(s) => {
            proof {
                vstd::utf8::encode_utf8_decode_utf8(s@);
            }
            Some(s)
        },
        None => None,
    }
}

/// The registrable domain of a host, or `None` when there is no
/// unambiguous, publicly listed one.
pub fn registrable_domain(host: &str) -> (r: Option<String>)
    ensures
        match r {
            Some(d) => registrable_domain_of(host@) == Some(d@),
            None => registrable_domain_of(host@) is None,
        },
{
    let h = normalize_host(host);
    if h.as_str().unicode_len() == 0 {
        return None;
    }
    domain_from_lookup(psl_domain(h.as_str().as_bytes()))
}

/// The registrable domain of the host of a URL (scheme-agnostic), or `None`
/// when the URL does not parse, has no host, or the host has none.
pub fn url_registrable_domain(raw: &str) -> (r: Option<String>)
    ensures
        match r {
            Some(d) => url_domain_of(raw@) == Some(d@),
            None => url_domain_of(raw@) is None,
        },
{
    match url_host(raw) {
        Some(h) => registrable_domain(h.as_str()),
        None => None,
    }
}

/// Whether one of the URLs of `entry` has the registrable domain
/// `page_domain`.
pub fn entry_matches(entry: &Entry, page_domain: &str) -> (r: bool)
    ensures
        r == entry_matches_domain(entry@, page_domain@),
{
    let target = page_domain.to_owned();
    let mut i: usize = 0;
    while i < entry.urls.len()
        invariant
            0 <= i <= entry.urls@.len(),
            target@ == page_domain@,
            forall|j: int| 0 <= j < i ==> #[trigger] url_domain_of(entry@.urls[j]) != Some(page_domain@),
        decreases entry.urls@.len() - i,
    {
        match url_registrable_domain(entry.urls[i].as_str()) {
            Some(d) => {
                if d == target {
                    assert(url_domain_of(entry@.urls[i as int]) == Some(page_domain@));
                    return true;
                }
            },
            None => {},
        }
        i = i + 1;
    }
    false
}

/// The password-free match candidate of `entry`.
pub fn match_candidate(entry: &Entry) -> (c: MatchCandidate)
    ensures
        candidate_of(c, entry@),
{
    MatchCandidate {
        id: entry.id.clone(),
        title: entry.title.clone(),
        username: entry.username.clone(),
        primary_url: if entry.urls.len() > 0 {
            Some(entry.urls[0].clone())
        } else {
            None
        },
    }
}

impl AppState {
    /// The password-free candidates whose registrable domain is that of
    /// `page_url`, in entry order. A locked vault, an unparseable URL or a
    /// host without a listed registrable domain give no candidates, never an
    /// error. Does not count as activity.
    pub fn find_matches(&self, page_url: &str) -> (r: Result<Vec<MatchCandidate>, AppError>)
        ensures
            r is Ok,
            self@.session is Locked ==> r->Ok_0@.len() == 0,
            url_domain_of(page_url@) is None ==> r->Ok_0@.len() == 0,
            self@.session is Unlocked && url_domain_of(page_url@) is Some ==> {
                let ms = matching_entries(
                    self@.session->vault.body.entries,
                    url_domain_of(page_url@)->0,
                );
                &&& r->Ok_0@.len() == ms.len()
                &&& forall|i: int| 0 <= i < ms.len() ==> #[trigger] candidate_of(r->Ok_0@[i], ms[i])
            },
    {
        let vault = match self.session_state_ref() {
            Some(v) => v,
            None => return Ok(Vec::new()),
        };
        let page_domain = match url_registrable_domain(page_url) {
            Some(d) => d,
            None => return Ok(Vec::new()),
        };
        let entries = vault.list_entries();
        let ghost es = entries_view(entries@);
        let ghost d = page_domain@;
        let ghost pred = |e: EntryModel| entry_matches_domain(e, d);
        let mut out: Vec<MatchCandidate> = Vec::new();
        let mut i: usize = 0;
        while i < entries.len()
            invariant
                0 <= i <= entries@.len(),
                es == entries_view(entries@),
                d == page_domain@,
                pred == (|e: EntryModel| entry_matches_domain(e, d)),
                out@.len() == es.take(i as int).filter(pred).len(),
                forall|j: int|
                    0 <= j < out@.len() ==> #[trigger] candidate_of(
                        out@[j],
                        es.take(i as int).filter(pred)[j],
                    ),
            decreases entries@.len() - i,
        {
            proof {
                assert(es.take(i + 1).drop_last() =~= es.take(i as int));
                assert(es.take(i + 1).last() == es[i as int]);
                reveal(Seq::filter);
                assert(es[i as int] == entries@[i as int]@);
            }
            let hit = entry_matches(&entries[i], page_domain.as_str());
            if hit {
                out.push(match_candidate(&entries[i]));
                proof {
                    assert(pred(es[i as int]));
                    let f = es.take(i + 1).filter(pred);
                    assert(f == es.take(i as int).filter(pred).push(es[i as int]));
                    assert forall|j: int| 0 <= j < out@.len() implies #[trigger] candidate_of(
                        out@[j],
                        f[j],
                    ) by {
                        if j < out@.len() - 1 {
                            assert(f[j] == es.take(i as int).filter(pred)[j]);
                        }
                    }
                }
            } else {
                proof {
                    assert(!pred(es[i as int]));
                    assert(es.take(i + 1).filter(pred) == es.take(i as int).filter(pred));
                }
            }
            i = i + 1;
        }
        assert(es.take(es.len() as int) =~= es);
        Ok(out)
    }

    /// The full credential of the entry with the id `id`; `Locked` when no
    /// vault is open and `EntryNotFound` for an unknown id. Counts as
    /// activity when it succeeds.
    pub fn get_credential(&mut self, id: &str, now_ms: u64) -> (r: Result<CredentialDto, AppError>)
        ensures
            old(self)@.session is Locked ==> (r matches Err(AppError::Locked)),
            old(self)@.session is Unlocked && !has_id(old(self)@.session->vault.body.entries, id@)
                ==> (r matches Err(AppError::EntryNotFound(s)) && s@ == id@),
            old(self)@.session is Unlocked && has_id(old(self)@.session->vault.body.entries, id@)
                ==> r is Ok,
            r is Err ==> final(self)@ == old(self)@,
            r matches Ok(c) ==> {
                let es = old(self)@.session->vault.body.entries;
                &&& exists|i: int|
                    is_first_with_id(es, id@, i) && c.id@ == es[i].id && c.username@
                        == es[i].username && c.password@ == es[i].password
                &&& final(self)@ == touched(old(self)@, now_ms)
            },
    {
        let dto = match self.session_state_ref() {
            None => return Err(AppError::Locked),
            Some(vault) => match vault.get_entry(id) {
                Some(e) => CredentialDto {
                    id: e.id.clone(),
                    username: e.username.clone(),
                    password: e.password.clone(),
                },
                None => return Err(AppError::EntryNotFound(id.to_owned())),
            },
        };
        self.touch(now_ms);
        Ok(dto)
    }

    /// Whether a vault is unlocked and whether its file exists. Does not
    /// count as activity.
    pub fn autofill_status(&self, has_vault: bool) -> (s: AutofillStatusDto)
        ensures
            s.unlocked == (self@.session is Unlocked),
            s.has_vault == has_vault,
    {
        AutofillStatusDto { unlocked: self.session_state_ref().is_some(), has_vault }
    }
}

} // verus!
