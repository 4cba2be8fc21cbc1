//! Start-up decisions: which origins CORS allows, which port to listen on,
//! which bucket and credentials the object store uses, and how health
//! probes are reported.

use vstd::prelude::*;
use crate::text::{
    chars_of, decimal, digit_char, trim, trim_is_idempotent, trimmed, trimmed_is_infix,
};

verus! {

/// Whether a character may stand in an HTTP header value: a visible ASCII
/// character, a space, a tab, or any non-ASCII character (whose UTF-8 bytes
/// are all at or above 128).
pub open spec fn header_char_ok(c: char) -> bool {
    (c as u32 >= 32 && c as u32 != 127) || c == '\t'
}

/// Whether a text is a valid HTTP header value.
pub open spec fn header_value_ok(s: Seq<char>) -> bool {
    forall|i: int| 0 <= i < s.len() ==> header_char_ok(#[trigger] s[i])
}

/// Calls `axum::http::HeaderValue::from_str` (through `str::parse`) and
/// tells whether it accepts the text: it accepts exactly the texts whose
/// bytes are all tabs or at least 32 and not 127.
#[verifier::external_body]
fn is_header_value(s: &str) -> (r: bool)
    ensures
        r == header_value_ok(s@),
{
    s.parse::<axum::http::HeaderValue>().is_ok()
}

/// The pieces of `s` between commas, in order (one more than there are
/// commas).
pub open spec fn split_commas(s: Seq<char>) -> Seq<Seq<char>>
    decreases s.len(),
{
    if s.len() == 0 {
        seq![seq![]]
    } else {
        let rest = split_commas(s.drop_last());
        if s.last() == ',' {
            rest.push(seq![])
        } else {
            rest.update(rest.len() - 1, rest.last().push(s.last()))
        }
    }
}

/// The origins listed in a comma-separated text: each piece trimmed, the
/// empty ones and those that are not valid header values left out.
pub open spec fn listed_origins(s: Seq<char>) -> Seq<Seq<char>> {
    split_commas(s).map_values(|o: Seq<char>| trimmed(o)).filter(
        |t: Seq<char>| t.len() > 0 && header_value_ok(t),
    )
}

/// Every listed origin is non-empty, already trimmed, and a valid header
/// value.
pub proof fn listed_origins_are_clean(s: Seq<char>)
    ensures
        forall|i: int|
            0 <= i < listed_origins(s).len() ==> {
                &&& (#[trigger] listed_origins(s)[i]).len() > 0
                &&& header_value_ok(listed_origins(s)[i])
                &&& trimmed(listed_origins(s)[i]) == listed_origins(s)[i]
            },
{
    let pieces = split_commas(s).map_values(|o: Seq<char>| trimmed(o));
    let pred = |t: Seq<char>| t.len() > 0 && header_value_ok(t);
    assert forall|i: int| 0 <= i < listed_origins(s).len() implies {
        &&& (#[trigger] listed_origins(s)[i]).len() > 0
        &&& header_value_ok(listed_origins(s)[i])
        &&& trimmed(listed_origins(s)[i]) == listed_origins(s)[i]
    } by {
        pieces.lemma_filter_pred(pred, i);
        let x = listed_origins(s)[i];
        assert(pieces.filter(pred).contains(x));
        pieces.lemma_filter_contains_rev(pred, x);
        let j = choose|j: int| 0 <= j < pieces.len() && pieces[j] == x;
        trim_is_idempotent(split_commas(s)[j]);
    }
}

/// Which origins cross-origin requests may come from.
#[derive(Clone, Debug)]
pub enum CorsPolicy {
    /// Any origin.
    Permissive,
    /// Only these origins (never an empty list).
    Origins(Vec<String>),
}

/// The policy for the `ALLOWED_ORIGINS` setting: the listed origins of the
/// trimmed setting, or any origin when it is absent, blank, or lists none.
pub open spec fn cors_spec(setting: Option<Seq<char>>) -> Option<Seq<Seq<char>>> {
    match setting {
        None => None,
        Some(s) => if trimmed(s).len() == 0 || listed_origins(trimmed(s)).len() == 0 {
            None
        } else {
            Some(listed_origins(trimmed(s)))
        },
    }
}

/// The characters of each string.
pub open spec fn strings_view(v: Seq<String>) -> Seq<Seq<char>> {
    v.map_values(|t: String| t@)
}

fn split_on_commas(s: &str) -> (r: Vec<String>)
    ensures
        strings_view(r@) == split_commas(s@),
{
    let cs = chars_of(s);
    let n = cs.len();
    let mut out: Vec<String> = Vec::new();
    let mut start: usize = 0;
    let mut k: usize = 0;
    assert(s@.take(0) =~= Seq::<char>::empty());
    assert(strings_view(out@).push(s@.subrange(0, 0)) =~= split_commas(s@.take(0)));
    while k < n
        invariant
            cs@ == s@,
            n == cs@.len(),
            start <= k <= n,
            strings_view(out@).push(s@.subrange(start as int, k as int)) == split_commas(
                s@.take(k as int),
            ),
        decreases n - k,
    {
        let ghost pre = s@.take(k as int);
        assert(s@.take(k + 1).drop_last() =~= pre);
        assert(s@.take(k + 1).last() == s@[k as int]);
        if cs[k] == ',' {
            let piece = s.substring_char(start, k);
            let ghost before = out@;
            out.push(String::from_str(piece));
            assert(strings_view(out@) =~= strings_view(before).push(s@.subrange(start as int, k as int)));
            start = k + 1;
            assert(s@.subrange(start as int, k + 1) =~= Seq::<char>::empty());
            assert(strings_view(out@).push(s@.subrange(start as int, k + 1)) =~= split_commas(
                s@.take(k + 1),
            ));
        } else {
            assert(s@.subrange(start as int, k + 1) =~= s@.subrange(start as int, k as int).push(
                s@[k as int],
            ));
            assert(strings_view(out@).push(s@.subrange(start as int, k + 1)) =~= split_commas(
                s@.take(k + 1),
            ));
        }
        k = k + 1;
    }
    let piece = s.substring_char(start, n);
    out.push(String::from_str(piece));
    assert(s@.take(n as int) =~= s@);
    assert(strings_view(out@) =~= split_commas(s@));
    out
}

/// The origins listed in a comma-separated text (see `listed_origins`).
#[verifier::loop_isolation(false)]
pub fn allowed_origins(s: &str) -> (r: Vec<String>)
    ensures
        strings_view(r@) == listed_origins(s@),
{
    let pieces = split_on_commas(s);
    let ghost trimmed_all = split_commas(s@).map_values(|o: Seq<char>| trimmed(o));
    let ghost pred = |t: Seq<char>| t.len() > 0 && header_value_ok(t);
    let mut out: Vec<String> = Vec::new();
    let mut i: usize = 0;
    assert(trimmed_all.take(0).filter(pred) =~= Seq::<Seq<char>>::empty());
    assert(strings_view(out@) =~= Seq::<Seq<char>>::empty());
    while i < pieces.len()
        invariant
            strings_view(pieces@) == split_commas(s@),
            trimmed_all.len() == pieces@.len(),
            i <= pieces@.len(),
            strings_view(out@) == trimmed_all.take(i as int).filter(pred),
        decreases pieces@.len() - i,
    {
        reveal_with_fuel(Seq::<Seq<char>>::filter, 1);
        assert(trimmed_all.take(i + 1).drop_last() =~= trimmed_all.take(i as int));
        assert(trimmed_all.take(i + 1).last() == trimmed(pieces@[i as int]@));
        let t = trim(pieces[i].as_str());
        if t.unicode_len() > 0 && is_header_value(t) {
            let ghost before = out@;
            out.push(String::from_str(t));
            assert(strings_view(out@) =~= strings_view(before).push(t@));
        }
        i = i + 1;
    }
    assert(trimmed_all.take(trimmed_all.len() as int) =~= trimmed_all);
    out
}

proof fn lemma_split_without_comma(s: Seq<char>)
    requires
        forall|i: int| 0 <= i < s.len() ==> s[i] != ',',
    ensures
        split_commas(s) == seq![s],
    decreases s.len(),
{
    if s.len() > 0 {
        lemma_split_without_comma(s.drop_last());
        assert(s.drop_last().push(s.last()) =~= s);
        assert(split_commas(s) =~= seq![s]);
    } else {
        assert(s =~= Seq::<char>::empty());
        assert(split_commas(s) =~= seq![s]);
    }
}

/// An absent setting, or one that lists no origin once trimmed, allows any
/// origin; a setting that lists origins allows exactly those.
pub proof fn cors_allows_exactly_the_listed_origins(s: Seq<char>)
    ensures
        cors_spec(None) is None,
        cors_spec(Some(s)) == if listed_origins(trimmed(s)).len() > 0 {
            Some(listed_origins(trimmed(s)))
        } else {
            None::<Seq<Seq<char>>>
        },
{
    if trimmed(s).len() == 0 {
        let e = trimmed(s);
        lemma_split_without_comma(e);
        let pieces = split_commas(e).map_values(|o: Seq<char>| trimmed(o));
        assert(pieces =~= seq![trimmed(e)]);
        assert(trimmed(e) =~= e) by {
            trim_is_idempotent(s);
        }
        reveal_with_fuel(Seq::<Seq<char>>::filter, 2);
        assert(pieces.drop_last() =~= Seq::<Seq<char>>::empty());
        assert(listed_origins(e).len() == 0);
    }
}

/// A setting naming a single origin (no comma) that is a valid, non-blank
/// header value once trimmed allows exactly that trimmed origin.
pub proof fn single_origin_is_allowed(s: Seq<char>)
    requires
        forall|i: int| 0 <= i < s.len() ==> s[i] != ',',
        trimmed(s).len() > 0,
        header_value_ok(trimmed(s)),
    ensures
        cors_spec(Some(s)) == Some(seq![trimmed(s)]),
{
    let t = trimmed(s);
    trimmed_is_infix(s);
    let j = choose|j: int| 0 <= j && j + t.len() <= s.len() && #[trigger] s.subrange(j, j + t.len()) == t;
    assert forall|i: int| 0 <= i < t.len() implies t[i] != ',' by {
        assert(t[i] == s[j + i]);
    }
    lemma_split_without_comma(t);
    trim_is_idempotent(s);
    let pieces = split_commas(t).map_values(|o: Seq<char>| trimmed(o));
    assert(pieces =~= seq![t]);
    reveal_with_fuel(Seq::<Seq<char>>::filter, 2);
    assert(pieces.drop_last() =~= Seq::<Seq<char>>::empty());
    assert(listed_origins(t) =~= seq![t]);
}

impl CorsPolicy {
    /// The policy for the `ALLOWED_ORIGINS` setting (see `cors_spec`).
    pub fn from_setting(setting: Option<&str>) -> (r: Self)
        ensures
            match cors_spec(
                match setting {
                    Some(s) => Some(s@),
                    None => None,
                },
            ) {
                None => r is Permissive,
                Some(o) => r is Origins && strings_view(r->Origins_0@) == o,
            },
    {
        match setting {
            None => CorsPolicy::Permissive,
            Some(s) => {
                let t = trim(s);
                if t.unicode_len() == 0 {
                    return CorsPolicy::Permissive;
                }
                let origins = allowed_origins(t);
                if origins.len() == 0 {
                    CorsPolicy::Permissive
                } else {
                    CorsPolicy::Origins(origins)
                }
            },
        }
    }
}


/// Whether `c` is an ASCII decimal digit.
pub open spec fn is_digit(c: char) -> bool {
    '0' <= c && c <= '9'
}

/// The number written by a run of decimal digits.
pub open spec fn digits_value(s: Seq<char>) -> nat
    decreases s.len(),
{
    if s.len() == 0 {
        0
    } else {
        digits_value(s.drop_last()) * 10 + (s.last() as nat - 48) as nat
    }
}

/// The text without a leading `+`, if it has one.
pub open spec fn sign_stripped(s: Seq<char>) -> Seq<char> {
    if s.len() > 0 && s[0] == '+' {
        s.drop_first()
    } else {
        s
    }
}

/// Whether every character is a decimal digit.
pub open spec fn all_digits(d: Seq<char>) -> bool {
    forall|i: int| 0 <= i < d.len() ==> is_digit(#[trigger] d[i])
}

/// What `str::parse::<u16>` gives: an optional `+` followed by at least one
/// decimal digit, of value at most 65535.
pub open spec fn parse_u16_spec(s: Seq<char>) -> Option<u16> {
    if sign_stripped(s).len() > 0 && all_digits(sign_stripped(s)) && digits_value(
        sign_stripped(s),
    ) <= 65535 {
        Some(digits_value(sign_stripped(s)) as u16)
    } else {
        None
    }
}

proof fn lemma_digits_value_grows(s: Seq<char>, k: int)
    requires
        0 <= k <= s.len(),
        all_digits(s),
    ensures
        digits_value(s.take(k)) <= digits_value(s),
    decreases s.len() - k,
{
    if k < s.len() {
        lemma_digits_value_grows(s, k + 1);
        assert(s.take(k + 1).drop_last() =~= s.take(k));
    } else {
        assert(s.take(k) =~= s);
    }
}

/// `str::parse::<u16>` (see `parse_u16_spec`).
pub fn parse_u16(s: &str) -> (r: Option<u16>)
    ensures
        r == parse_u16_spec(s@),
{
    let cs = chars_of(s);
    let n = cs.len();
    let mut i: usize = 0;
    if n > 0 && cs[0] == '+' {
        i = 1;
    }
    let ghost digits = s@.subrange(i as int, n as int);
    assert(digits =~= sign_stripped(s@));
    if i == n {
        return None;
    }
    let start = i;
    let mut acc: u32 = 0;
    while i < n
        invariant
            cs@ == s@,
            n == cs@.len(),
            start <= i <= n,
            digits == s@.subrange(start as int, n as int),
            digits == sign_stripped(s@),
            acc <= 65535,
            forall|j: int| 0 <= j < i - start ==> is_digit(#[trigger] digits[j]),
            acc == digits_value(digits.take(i - start)),
        decreases n - i,
    {
        let c = cs[i];
        assert(digits[i - start] == c);
        if !('0' <= c && c <= '9') {
            assert(!is_digit(digits[i - start]));
            return None;
        }
        assert(digits.take(i - start + 1).drop_last() =~= digits.take(i - start));
        let d = (c as u32) - 48;
        let next = acc * 10 + d;
        if next > 65535 {
            proof {
                let k = i - start + 1;
                assert(digits.take(k).last() == c);
                assert(digits_value(digits.take(k)) == acc * 10 + d);
                if all_digits(digits) {
                    lemma_digits_value_grows(digits, k);
                }
            }
            return None;
        }
        acc = next;
        i = i + 1;
    }
    assert(digits.take(n - start) =~= digits);
    Some(acc as u16)
}

proof fn lemma_decimal_digits(n: nat)
    ensures
        decimal(n).len() > 0,
        all_digits(decimal(n)),
        digits_value(decimal(n)) == n,
    decreases n,
{
    assert(digit_char(n % 10) as nat == n % 10 + 48);
    if n < 10 {
        assert(decimal(n).drop_last() =~= Seq::<char>::empty());
        assert(digits_value(decimal(n)) == digits_value(decimal(n).drop_last()) * 10 + (decimal(
            n,
        ).last() as nat - 48) as nat);
    } else {
        lemma_decimal_digits(n / 10);
        let d = decimal(n / 10);
        assert(decimal(n).drop_last() =~= d);
        assert(decimal(n).last() == digit_char(n % 10));
        assert(digits_value(decimal(n)) == digits_value(d) * 10 + (n % 10));
        assert forall|i: int| 0 <= i < decimal(n).len() implies is_digit(#[trigger] decimal(n)[i]) by {
            if i < d.len() {
                assert(decimal(n)[i] == d[i]);
            }
        }
    }
}

/// Reading a number's decimal text as a `u16` gives the number back.
pub proof fn decimal_parses_back(n: u16)
    ensures
        parse_u16_spec(decimal(n as nat)) == Some(n),
{
    lemma_decimal_digits(n as nat);
    let t = decimal(n as nat);
    assert(is_digit(t[0]));
    assert(sign_stripped(t) == t);
}

/// The port to listen on for the `PORT` setting: the setting read as a
/// `u16`, or 8080 when it is absent or not one.
pub fn port_from_setting(setting: Option<&str>) -> (r: u16)
    ensures
        r == match setting {
            Some(p) => match parse_u16_spec(p@) {
                Some(v) => v,
                None => 8080,
            },
            None => 8080,
        },
{
    match setting {
        Some(p) => match parse_u16(p) {
            Some(v) => v,
            None => 8080,
        },
        None => 8080,
    }
}

/// The bucket for the `S3_BUCKET` setting: the setting, or `hack-bucket`.
pub fn bucket_from_setting(setting: Option<String>) -> (r: String)
    ensures
        r@ == match setting {
            Some(b) => b@,
            None => "hack-bucket"@,
        },
{
    match setting {
        Some(b) => b,
        None => String::from_str("hack-bucket"),
    }
}

/// Where the object store is and how to sign in to it.
#[derive(Clone, Debug)]
pub struct S3Credentials {
    pub endpoint: String,
    pub access_key: String,
    pub secret_key: String,
}

impl S3Credentials {
    /// The object store is used only when its endpoint and both keys are
    /// set; otherwise uploads go to local disk.
    pub fn from_settings(endpoint: Option<String>, access_key: Option<String>, secret_key: Option<
        String,
    >) -> (r: Option<Self>)
        ensures
            r is Some == (endpoint is Some && access_key is Some && secret_key is Some),
            r is Some ==> {
                &&& r->0.endpoint == endpoint->0
                &&& r->0.access_key == access_key->0
                &&& r->0.secret_key == secret_key->0
            },
    {
        match (endpoint, access_key, secret_key) {
            (Some(endpoint), Some(access_key), Some(secret_key)) => Some(
                S3Credentials { endpoint, access_key, secret_key },
            ),
            _ => None,
        }
    }
}

/// How a backing service's probe is reported: `unconfigured` when the
/// service is not set up, otherwise `ok` or `error` as the probe went.
pub open spec fn probe_label_spec(probe: Option<bool>) -> Seq<char> {
    match probe {
        None => "unconfigured"@,
        Some(true) => "ok"@,
        Some(false) => "error"@,
    }
}

/// How a backing service's probe is reported (see `probe_label_spec`).
pub fn probe_label(probe: Option<bool>) -> (r: &'static str)
    ensures
        r@ == probe_label_spec(probe),
{
    match probe {
        None => "unconfigured",
        Some(true) => "ok",
        Some(false) => "error",
    }
}

/// The body of the health answer.
#[derive(Clone, Debug)]
pub struct HealthReport {
    pub status: String,
    pub postgres: String,
    pub s3_minio: String,
}

impl HealthReport {
    /// The health answer for the database and object store probes: the
    /// service itself is always `ok`.
    pub fn from_probes(db: Option<bool>, s3: Option<bool>) -> (r: Self)
        ensures
            r.status@ == "ok"@,
            r.postgres@ == probe_label_spec(db),
            r.s3_minio@ == probe_label_spec(s3),
    {
        HealthReport {
            status: String::from_str("ok"),
            postgres: String::from_str(probe_label(db)),
            s3_minio: String::from_str(probe_label(s3)),
        }
    }
}

} // verus!
