//! Stateless password generator over the selected character classes, drawing
//! from the operating system's random source with rejection sampling.

use vstd::prelude::*;

use crate::vault_core::error::VaultError;
use crate::vault_core::random::os_random_bytes;

verus! {

/// Lowercase letters, without the ambiguous `l`.
pub const LOWERCASE: [char; 25] = [
    'a', 'b', 'c', 'd', 'e', 'f', 'g', 'h', 'i', 'j', 'k', 'm', 'n', 'o', 'p', 'q', 'r', 's',
    't', 'u', 'v', 'w', 'x', 'y', 'z',
];

/// The ambiguous lowercase letter, added back when ambiguity is allowed.
pub const LOWERCASE_AMBIGUOUS: [char; 1] = ['l'];

/// Uppercase letters, without the ambiguous `I` and `O`.
pub const UPPERCASE: [char; 24] = [
    'A', 'B', 'C', 'D', 'E', 'F', 'G', 'H', 'J', 'K', 'L', 'M', 'N', 'P', 'Q', 'R', 'S', 'T',
    'U', 'V', 'W', 'X', 'Y', 'Z',
];

/// The ambiguous uppercase letters.
pub const UPPERCASE_AMBIGUOUS: [char; 2] = ['I', 'O'];

/// Digits, without the ambiguous `0` and `1`.
pub const DIGITS: [char; 8] = ['2', '3', '4', '5', '6', '7', '8', '9'];

/// The ambiguous digits.
pub const DIGITS_AMBIGUOUS: [char; 2] = ['0', '1'];

/// Symbols; none of them counts as ambiguous.
pub const SYMBOLS: [char; 25] = [
    '!', '@', '#', '$', '%', '^', '&', '*', '(', ')', '-', '_', '=', '+', '[', ']', '{', '}',
    ';', ':', ',', '.', '<', '>', '?',
];

/// Draws of the random source per character before the last draw is used
/// without rejection.
pub const MAX_DRAWS: usize = 64;

/// Options controlling password generation.
#[derive(Debug, Clone, PartialEq, Eq)]
pub struct PasswordOptions {
    /// Number of characters to generate.
    pub length: usize,
    /// Include lowercase letters.
    pub lowercase: bool,
    /// Include uppercase letters.
    pub uppercase: bool,
    /// Include digits.
    pub digits: bool,
    /// Include symbols.
    pub symbols: bool,
    /// Exclude visually ambiguous characters (`l`, `I`, `O`, `0`, `1`).
    pub exclude_ambiguous: bool,
}

impl Default for PasswordOptions {
    /// Twenty characters from all four classes, ambiguous ones excluded.
    fn default() -> (o: Self)
        ensures
            o.length == 20,
            o.lowercase && o.uppercase && o.digits && o.symbols && o.exclude_ambiguous,
    {
        PasswordOptions {
            length: 20,
            lowercase: true,
            uppercase: true,
            digits: true,
            symbols: true,
            exclude_ambiguous: true,
        }
    }
}

/// The characters contributed by one class: its base set, plus its ambiguous
/// characters when those are allowed.
pub open spec fn class_chars(on: bool, base: Seq<char>, ambiguous: Seq<char>, exclude_ambiguous: bool) -> Seq<char> {
    if !on {
        seq![]
    } else if exclude_ambiguous {
        base
    } else {
        base + ambiguous
    }
}

/// The full character pool for `o`, in class order.
pub open spec fn charset_of(o: PasswordOptions) -> Seq<char> {
    class_chars(o.lowercase, LOWERCASE@, LOWERCASE_AMBIGUOUS@, o.exclude_ambiguous) + class_chars(
        o.uppercase,
        UPPERCASE@,
        UPPERCASE_AMBIGUOUS@,
        o.exclude_ambiguous,
    ) + class_chars(o.digits, DIGITS@, DIGITS_AMBIGUOUS@, o.exclude_ambiguous) + class_chars(
        o.symbols,
        SYMBOLS@,
        seq![],
        true,
    )
}

/// A character is in `a + b` exactly when it is in `a` or in `b`.
proof fn lemma_contains_concat(a: Seq<char>, b: Seq<char>, c: char)
    ensures
        (a + b).contains(c) <==> a.contains(c) || b.contains(c),
{
    if a.contains(c) {
        let i = choose|i: int| 0 <= i < a.len() && a[i] == c;
        assert((a + b)[i] == c);
    }
    if b.contains(c) {
        let j = choose|j: int| 0 <= j < b.len() && b[j] == c;
        assert((a + b)[a.len() + j] == c);
    }
    if (a + b).contains(c) {
        let k = choose|k: int| 0 <= k < (a + b).len() && (a + b)[k] == c;
        if k < a.len() {
            assert(a[k] == c);
        } else {
            assert(b[k - a.len()] == c);
        }
    }
}

/// The pool for `o` is the union of the enabled classes: every character of
/// each enabled class's base set, the ambiguous characters of an enabled
/// class exactly when ambiguity is allowed, and nothing else.
pub proof fn lemma_charset_is_union_of_classes(o: PasswordOptions, c: char)
    ensures
        charset_of(o).contains(c) <==> {
            ||| o.lowercase && (LOWERCASE@.contains(c) || !o.exclude_ambiguous
                && LOWERCASE_AMBIGUOUS@.contains(c))
            ||| o.uppercase && (UPPERCASE@.contains(c) || !o.exclude_ambiguous
                && UPPERCASE_AMBIGUOUS@.contains(c))
            ||| o.digits && (DIGITS@.contains(c) || !o.exclude_ambiguous
                && DIGITS_AMBIGUOUS@.contains(c))
            ||| o.symbols && SYMBOLS@.contains(c)
        },
{
    let l = class_chars(o.lowercase, LOWERCASE@, LOWERCASE_AMBIGUOUS@, o.exclude_ambiguous);
    let u = class_chars(o.uppercase, UPPERCASE@, UPPERCASE_AMBIGUOUS@, o.exclude_ambiguous);
    let d = class_chars(o.digits, DIGITS@, DIGITS_AMBIGUOUS@, o.exclude_ambiguous);
    let y = class_chars(o.symbols, SYMBOLS@, seq![], true);
    lemma_contains_concat(l + u + d, y, c);
    lemma_contains_concat(l + u, d, c);
    lemma_contains_concat(l, u, c);
    lemma_contains_concat(LOWERCASE@, LOWERCASE_AMBIGUOUS@, c);
    lemma_contains_concat(UPPERCASE@, UPPERCASE_AMBIGUOUS@, c);
    lemma_contains_concat(DIGITS@, DIGITS_AMBIGUOUS@, c);
    assert(!Seq::<char>::empty().contains(c));
}

/// The options are usable: a positive length and at least one class.
pub open spec fn options_valid(o: PasswordOptions) -> bool {
    o.length > 0 && charset_of(o).len() > 0
}

fn extend_chars(out: &mut Vec<char>, chars: &[char])
    ensures
        final(out)@ == old(out)@ + chars@,
{
    let mut i: usize = 0;
    while i < chars.len()
        invariant
            0 <= i <= chars@.len(),
            out@ == old(out)@ + chars@.subrange(0, i as int),
        decreases chars@.len() - i,
    {
        out.push(chars[i]);
        i = i + 1;
        assert(out@ =~= old(out)@ + chars@.subrange(0, i as int));
    }
    assert(chars@.subrange(0, chars@.len() as int) =~= chars@);
}

/// Build the full character pool for the given options.
fn build_charset(opts: &PasswordOptions) -> (charset: Vec<char>)
    ensures
        charset@ == charset_of(*opts),
{
    let mut charset: Vec<char> = Vec::new();
    if opts.lowercase {
        extend_chars(&mut charset, &LOWERCASE);
        if !opts.exclude_ambiguous {
            extend_chars(&mut charset, &LOWERCASE_AMBIGUOUS);
        }
    }
    let ghost lower = charset@;
    if opts.uppercase {
        extend_chars(&mut charset, &UPPERCASE);
        if !opts.exclude_ambiguous {
            extend_chars(&mut charset, &UPPERCASE_AMBIGUOUS);
        }
    }
    let ghost upper = charset@;
    if opts.digits {
        extend_chars(&mut charset, &DIGITS);
        if !opts.exclude_ambiguous {
            extend_chars(&mut charset, &DIGITS_AMBIGUOUS);
        }
    }
    if opts.symbols {
        extend_chars(&mut charset, &SYMBOLS);
    }
    assert(charset@ =~= charset_of(*opts));
    charset
}

/// The rejection threshold for drawing an index below `bound` from a
/// 64-bit sample: the largest multiple of `bound` not above `u64::MAX`.
/// Samples at or above it are rejected, so the remaining ones reduce to
/// every index equally often.
pub open spec fn rejection_zone(bound: u64) -> u64
    recommends
        bound > 0,
{
    (u64::MAX - (u64::MAX % bound)) as u64
}

/// The samples below the rejection zone for `bound` that reduce to the
/// index `i`.
pub open spec fn accepted_for(bound: u64, i: int) -> Set<int> {
    Set::new(|x: int| 0 <= x < rejection_zone(bound) && x % (bound as int) == i)
}

/// Rejection sampling is unbiased: the rejection zone is a whole number of
/// `bound`s, and of the samples below it exactly `zone / bound` reduce to
/// each index below `bound`.
pub proof fn lemma_sampling_unbiased(bound: u64, i: int)
    requires
        bound > 0,
        0 <= i < bound,
    ensures
        rejection_zone(bound) as int % (bound as int) == 0,
        accepted_for(bound, i).finite(),
        accepted_for(bound, i).len() == rejection_zone(bound) as int / (bound as int),
{
    let b = bound as int;
    let m = u64::MAX as int;
    let q = m / b;
    let z = rejection_zone(bound) as int;
    vstd::arithmetic::div_mod::lemma_fundamental_div_mod(m, b);
    assert(z == q * b) by (nonlinear_arith)
        requires
            z == m - m % b,
            m == b * q + m % b,
    ;
    vstd::arithmetic::div_mod::lemma_fundamental_div_mod_converse(z, b, q, 0);
    let f = |k: int| i + k * b;
    let dom = vstd::set_lib::set_int_range(0, q);
    vstd::set_lib::lemma_int_range(0, q);
    assert forall|k1: int, k2: int|
        dom.contains(k1) && dom.contains(k2) && #[trigger] f(k1) == #[trigger] f(k2) implies k1
        == k2 by {
        assert(k1 * b == k2 * b);
        assert(k1 == k2) by (nonlinear_arith)
            requires
                k1 * b == k2 * b,
                b > 0,
        ;
    }
    let acc = accepted_for(bound, i);
    assert forall|x: int| #[trigger] dom.map(f).contains(x) <==> acc.contains(x) by {
        if dom.map(f).contains(x) {
            let k = choose|k: int| dom.contains(k) && f(k) == x;
            assert(0 <= x < z) by (nonlinear_arith)
                requires
                    x == i + k * b,
                    0 <= k < q,
                    0 <= i < b,
                    z == q * b,
            ;
            vstd::arithmetic::div_mod::lemma_fundamental_div_mod_converse(x, b, k, i);
        }
        if acc.contains(x) {
            let k = x / b;
            vstd::arithmetic::div_mod::lemma_fundamental_div_mod(x, b);
            assert(x == k * b + i) by (nonlinear_arith)
                requires
                    x == b * k + x % b,
                    x % b == i,
            ;
            assert(0 <= k < q) by (nonlinear_arith)
                requires
                    x == k * b + i,
                    0 <= x < z,
                    z == q * b,
                    0 <= i < b,
            ;
            assert(dom.contains(k) && f(k) == x);
        }
    }
    assert(dom.map(f) =~= acc);
    vstd::set_lib::lemma_map_size(dom, acc, f);
}

/// Reduce one 64-bit sample to an index below `bound`, or reject it.
pub fn sample_index(x: u64, bound: usize) -> (r: Option<usize>)
    requires
        bound > 0,
    ensures
        r == (if x < rejection_zone(bound as u64) {
            Some((x % bound as u64) as usize)
        } else {
            None
        }),
{
    let bound = bound as u64;
    let zone = u64::MAX - (u64::MAX % bound);
    if x < zone {
        Some((x % bound) as usize)
    } else {
        None
    }
}

/// The little-endian value of the eight bytes `b`.
pub open spec fn le_u64(b: Seq<u8>) -> int {
    b[0] + 0x100 * b[1] + 0x10000 * b[2] + 0x1000000 * b[3] + 0x100000000 * b[4]
        + 0x10000000000 * b[5] + 0x1000000000000 * b[6] + 0x100000000000000 * b[7]
}

/// Read eight bytes as a little-endian `u64`.
pub fn u64_from_le_bytes(b: &[u8]) -> (v: u64)
    requires
        b@.len() == 8,
    ensures
        v == le_u64(b@),
{
    b[0] as u64 + 0x100 * (b[1] as u64) + 0x10000 * (b[2] as u64) + 0x1000000 * (b[3] as u64)
        + 0x100000000 * (b[4] as u64) + 0x10000000000 * (b[5] as u64) + 0x1000000000000 * (
    b[6] as u64) + 0x100000000000000 * (b[7] as u64)
}

/// One 64-bit draw from the OS random source: eight random bytes read
/// little-endian; `None` when the source fails.
fn random_u64() -> (r: Option<u64>) {
    match os_random_bytes(8) {
        Some(b) => Some(u64_from_le_bytes(b.as_slice())),
        None => None,
    }
}

/// Rejection sampling of one index below `n` from the draws `d`, looking
/// at draw `j` onwards: the first draw below the rejection zone, reduced
/// modulo `n`, with the number of draws used up to it. `None` when the draws
/// run out, or when [`MAX_DRAWS`] draws in a row are rejected.
pub open spec fn pick_from(n: nat, d: Seq<u64>, j: int) -> Option<(nat, nat)>
    decreases MAX_DRAWS - j,
{
    if j < 0 || j >= MAX_DRAWS || j >= d.len() {
        None
    } else if d[j] < rejection_zone(n as u64) {
        Some(((d[j] % (n as u64)) as nat, (j + 1) as nat))
    } else {
        pick_from(n, d, j + 1)
    }
}

/// The index picked below `n` from the start of the draws `d`, with the
/// number of draws it used.
pub open spec fn pick(n: nat, d: Seq<u64>) -> Option<(nat, nat)> {
    pick_from(n, d, 0)
}

/// The first `k` characters generated from the pool `pool` out of the draws
/// `d`, each picked from the draws the previous ones left, with the number
/// of draws used; `None` when the draws do not suffice.
pub open spec fn password_prefix(pool: Seq<char>, k: nat, d: Seq<u64>) -> Option<(Seq<char>, nat)>
    decreases k,
{
    if k == 0 {
        Some((seq![], 0))
    } else {
        match password_prefix(pool, (k - 1) as nat, d) {
            None => None,
            Some((s, used)) => match pick(pool.len(), d.skip(used as int)) {
                None => None,
                Some((i, u)) => Some((s.push(pool[i as int]), used + u)),
            },
        }
    }
}

/// The password of `length` characters that rejection sampling over the
/// pool `pool` makes from the 64-bit draws `d`, taken in order; draws left
/// over are unused. `None` when the pool is empty or the draws do not
/// suffice.
pub open spec fn password_of(pool: Seq<char>, length: nat, d: Seq<u64>) -> Option<Seq<char>> {
    if pool.len() == 0 {
        None
    } else {
        match password_prefix(pool, length, d) {
            Some((s, _)) => Some(s),
            None => None,
        }
    }
}

/// A pick that succeeds on `d` succeeds the same way on `d` with more draws
/// after it.
pub proof fn lemma_pick_from_extend(n: nat, d: Seq<u64>, e: Seq<u64>, j: int)
    requires
        pick_from(n, d, j) is Some,
    ensures
        pick_from(n, d + e, j) == pick_from(n, d, j),
        pick_from(n, d, j).unwrap().1 <= d.len(),
    decreases MAX_DRAWS - j,
{
    if j >= 0 && j < MAX_DRAWS && j < d.len() {
        assert((d + e)[j] == d[j]);
        if d[j] >= rejection_zone(n as u64) {
            lemma_pick_from_extend(n, d, e, j + 1);
        }
    }
}

/// Generated characters depend only on the draws they used: more draws
/// after them change nothing.
pub proof fn lemma_password_prefix_extend(pool: Seq<char>, k: nat, d: Seq<u64>, e: Seq<u64>)
    requires
        password_prefix(pool, k, d) is Some,
    ensures
        password_prefix(pool, k, d + e) == password_prefix(pool, k, d),
        password_prefix(pool, k, d).unwrap().1 <= d.len(),
    decreases k,
{
    if k > 0 {
        lemma_password_prefix_extend(pool, (k - 1) as nat, d, e);
        let used = password_prefix(pool, (k - 1) as nat, d).unwrap().1;
        assert((d + e).skip(used as int) =~= d.skip(used as int) + e);
        lemma_pick_from_extend(pool.len(), d.skip(used as int), e, 0);
    }
}

/// Once the draws run short for `k` characters, they are short for more.
proof fn lemma_password_prefix_none(pool: Seq<char>, k: nat, m: nat, d: Seq<u64>)
    requires
        password_prefix(pool, k, d) is None,
        k <= m,
    ensures
        password_prefix(pool, m, d) is None,
    decreases m,
{
    if m > k {
        lemma_password_prefix_none(pool, k, (m - 1) as nat, d);
    }
}

/// A generated prefix has exactly `k` characters, each from the pool.
pub proof fn lemma_password_prefix_chars(pool: Seq<char>, k: nat, d: Seq<u64>)
    requires
        0 < pool.len() <= u64::MAX,
        password_prefix(pool, k, d) is Some,
    ensures
        password_prefix(pool, k, d).unwrap().0.len() == k,
        forall|i: int|
            0 <= i < k ==> pool.contains(#[trigger] password_prefix(pool, k, d).unwrap().0[i]),
    decreases k,
{
    if k > 0 {
        lemma_password_prefix_chars(pool, (k - 1) as nat, d);
        let used = password_prefix(pool, (k - 1) as nat, d).unwrap().1;
        lemma_pick_bound(pool.len(), d.skip(used as int), 0);
        let s = password_prefix(pool, k, d).unwrap().0;
        let prev = password_prefix(pool, (k - 1) as nat, d).unwrap().0;
        assert forall|i: int| 0 <= i < k implies pool.contains(#[trigger] s[i]) by {
            if i < k - 1 {
                assert(s[i] == prev[i]);
            } else {
                let idx = pick(pool.len(), d.skip(used as int)).unwrap().0;
                assert(s[i] == pool[idx as int]);
            }
        }
    }
}

/// A picked index lies below the pool size.
pub proof fn lemma_pick_bound(n: nat, d: Seq<u64>, j: int)
    requires
        n > 0,
        n <= u64::MAX,
    ensures
        pick_from(n, d, j) matches Some((i, _)) ==> i < n,
    decreases MAX_DRAWS - j,
{
    if j >= 0 && j < MAX_DRAWS && j < d.len() && d[j] >= rejection_zone(n as u64) {
        lemma_pick_bound(n, d, j + 1);
    }
}

/// Draw an index below `bound` from the OS random source by rejection
/// sampling, returning it with the draws it used. `Crypto` when the source
/// fails, or when [`MAX_DRAWS`] draws in a row are rejected (each is
/// rejected with probability below `bound / 2^64`).
fn uniform_index(bound: usize) -> (r: Result<(usize, Ghost<Seq<u64>>), VaultError>)
    requires
        bound > 0,
    ensures
        r matches Ok((i, d)) ==> pick(bound as nat, d@) == Some((i as nat, d@.len())),
        r matches Err(e) ==> e == VaultError::Crypto,
{
    let ghost mut d: Seq<u64> = seq![];
    let mut draws: usize = 0;
    while draws < MAX_DRAWS
        invariant
            bound > 0,
            draws <= MAX_DRAWS,
            d.len() == draws,
            forall|j: int| 0 <= j < draws ==> d[j] >= rejection_zone(bound as u64),
        decreases MAX_DRAWS - draws,
    {
        let x = match random_u64() {
            Some(x) => x,
            None => return Err(VaultError::Crypto),
        };
        let ghost before = d;
        proof {
            d = d.push(x);
        }
        match sample_index(x, bound) {
            Some(i) => {
                proof {
                    lemma_pick_from_rejected_prefix(bound as nat, d, 0);
                }
                return Ok((i, Ghost(d)));
            },
            None => {},
        }
        draws = draws + 1;
        assert(forall|j: int| 0 <= j < draws - 1 ==> d[j] == before[j]);
    }
    Err(VaultError::Crypto)
}

/// Past a run of rejected draws, the pick is the first accepted one.
proof fn lemma_pick_from_rejected_prefix(n: nat, d: Seq<u64>, j: int)
    requires
        0 <= j < d.len() <= MAX_DRAWS,
        forall|k: int| j <= k < d.len() - 1 ==> d[k] >= rejection_zone(n as u64),
        d.last() < rejection_zone(n as u64),
    ensures
        pick_from(n, d, j) == Some(((d.last() % (n as u64)) as nat, d.len())),
    decreases d.len() - j,
{
    if j < d.len() - 1 {
        lemma_pick_from_rejected_prefix(n, d, j + 1);
    }
}

/// The password that rejection sampling over the pool for `opts` makes from
/// the draws `draws`, taken in order; `None` when the pool is empty or the
/// draws do not suffice.
pub fn password_from_draws(opts: &PasswordOptions, draws: &Vec<u64>) -> (r: Option<String>)
    ensures
        match r {
            Some(pw) => password_of(charset_of(*opts), opts.length as nat, draws@) == Some(pw@),
            None => password_of(charset_of(*opts), opts.length as nat, draws@) is None,
        },
{
    let charset = build_charset(opts);
    if charset.len() == 0 {
        return None;
    }
    let ghost pool = charset@;
    let n = charset.len();
    let mut out: Vec<char> = Vec::new();
    let mut used: usize = 0;
    let mut k: usize = 0;
    while k < opts.length
        invariant
            pool == charset_of(*opts),
            charset@ == pool,
            n == pool.len(),
            n > 0,
            k <= opts.length,
            used <= draws@.len(),
            password_prefix(pool, k as nat, draws@) == Some((out@, used as nat)),
        decreases opts.length - k,
    {
        let ghost rest = draws@.skip(used as int);
        let mut j: usize = 0;
        let mut picked: Option<usize> = None;
        while j < MAX_DRAWS && j < draws.len() - used && picked.is_none()
            invariant
                used <= draws@.len(),
                rest == draws@.skip(used as int),
                n > 0,
                j <= MAX_DRAWS,
                j <= draws@.len() - used,
                picked is None ==> pick_from(n as nat, rest, j as int) == pick_from(n as nat, rest, 0),
                picked matches Some(i) ==> pick_from(n as nat, rest, 0) == Some((i as nat, j as nat)),
            decreases MAX_DRAWS - j,
        {
            let x = draws[used + j];
            assert(rest[j as int] == x);
            picked = sample_index(x, n);
            j = j + 1;
        }
        match picked {
            None => {
                assert(pick_from(n as nat, rest, 0) is None);
                proof {
                    lemma_password_prefix_none(pool, (k + 1) as nat, opts.length as nat, draws@);
                }
                return None;
            },
            Some(i) => {
                proof {
                    lemma_pick_bound(n as nat, rest, 0);
                }
                out.push(charset[i]);
                let total = draws.len();
                assert(used + j <= total);
                used = used + j;
                k = k + 1;
            },
        }
    }
    Some(string_from_chars(&out))
}

/// Calls `String::from_iter` over the characters.
///
/// Claims: the string holds exactly these characters, in order.
#[verifier::external_body]
pub(crate) fn string_from_chars(chars: &Vec<char>) -> (s: String)
    ensures
        s@ == chars@,
{
    chars.iter().collect::<String>()
}

/// Generate a random password according to `opts`.
///
/// A zero length or an empty character pool gives `InvalidPasswordOptions`;
/// a failing OS random source gives `Crypto`. A generated password is what
/// rejection sampling over the pool makes from some sequence of 64-bit draws
/// ([`password_of`]), so it has exactly `opts.length` characters, each from
/// the pool; rejection sampling keeps each pick unbiased
/// ([`lemma_sampling_unbiased`]).
pub fn generate_password(opts: &PasswordOptions) -> (r: Result<String, VaultError>)
    ensures
        !options_valid(*opts) ==> r == Err::<String, VaultError>(VaultError::InvalidPasswordOptions),
        options_valid(*opts) ==> (r is Ok || r == Err::<String, VaultError>(VaultError::Crypto)),
        r matches Ok(pw) ==> exists|d: Seq<u64>|
            password_of(charset_of(*opts), opts.length as nat, d) == Some(pw@),
        r matches Ok(pw) ==> pw@.len() == opts.length,
        r matches Ok(pw) ==> forall|i: int| 0 <= i < pw@.len() ==> charset_of(*opts).contains(pw@[i]),
{
    if opts.length == 0 {
        return Err(VaultError::InvalidPasswordOptions);
    }
    let charset = build_charset(opts);
    if charset.len() == 0 {
        return Err(VaultError::InvalidPasswordOptions);
    }
    let ghost pool = charset@;
    let ghost mut d: Seq<u64> = seq![];
    let mut out: Vec<char> = Vec::new();
    let mut n: usize = 0;
    while n < opts.length
        invariant
            0 <= n <= opts.length,
            pool == charset_of(*opts),
            charset@ == pool,
            pool.len() > 0,
            password_prefix(pool, n as nat, d) == Some((out@, d.len())),
        decreases opts.length - n,
    {
        let (idx, Ghost(ds)) = uniform_index(charset.len())?;
        proof {
            lemma_password_prefix_extend(pool, n as nat, d, ds);
            assert((d + ds).skip(d.len() as int) =~= ds);
            lemma_pick_bound(pool.len(), ds, 0);
            d = d + ds;
        }
        out.push(charset[idx]);
        n = n + 1;
    }
    proof {
        lemma_password_prefix_chars(pool, opts.length as nat, d);
    }
    let pw = string_from_chars(&out);
    assert(password_of(charset_of(*opts), opts.length as nat, d) == Some(pw@));
    Ok(pw)
}

} // verus!
