//! TLS configuration: where certificates come from, the HTTPS bind address,
//! certificate validity, HTTPS redirects and ACME HTTP-01 challenge answers.
//!
//! Reading and writing certificate files, generating keys and serving HTTP
//! are the caller's; the decisions are here.

use vstd::prelude::*;
use vstd::string::*;
use std::path::PathBuf;
use base64::Engine;
use crate::text::{chars_of, occurs_at, seq_contains, str_contains, seq_starts_with, matches_at};
use crate::name_mapping::string_views;

verus! {

broadcast use vstd::string::group_string_axioms;

#[verifier::external_type_specification]
#[verifier::external_body]
pub struct ExPathBuf(PathBuf);

/// Trusted: `PathBuf`'s `Clone`, which copies the path.  Nothing is stated
/// of the copy, since a path is opaque here.
pub assume_specification[ <PathBuf as Clone>::clone ](p: &PathBuf) -> (r: PathBuf);

/// Trusted: `PathBuf::from` on a string.  What path results is left unsaid.
#[verifier::external_body]
fn path_from(s: &str) -> (r: PathBuf) {
    PathBuf::from(s)
}

/// Certificate source configuration.
#[derive(Clone, Debug)]
pub enum CertificateSource {
    /// Use existing certificate files
    Existing { cert_path: PathBuf, key_path: PathBuf },
    /// Generate a self-signed certificate
    SelfSigned {
        /// Common name (usually the host name)
        common_name: String,
        /// Subject alternative names
        san_list: Vec<String>,
        /// Certificate storage directory
        cert_dir: PathBuf,
    },
    /// ACME certificate (Let's Encrypt and others)
    Acme {
        directory_url: String,
        domains: Vec<String>,
        contact_email: String,
        cert_dir: PathBuf,
        cache_dir: PathBuf,
    },
}

/// TLS configuration options.
#[derive(Clone, Debug)]
pub struct TlsConfig {
    /// Enable TLS (if false, the server runs HTTP only)
    pub enabled: bool,
    /// Where the certificate comes from
    pub cert_source: CertificateSource,
    /// Bind address for HTTPS, where it differs from the derived one
    pub https_bind_address: Option<String>,
    /// Redirect HTTP to HTTPS
    pub force_https: bool,
}

impl Default for TlsConfig {
    /// Disabled, self-signed for `localhost` with the loopback addresses as
    /// alternative names, stored under `./certs`.
    fn default() -> (r: Self)
        ensures
            !r.enabled,
            !r.force_https,
            r.https_bind_address is None,
            r.cert_source matches CertificateSource::SelfSigned { common_name, san_list, .. }
                && common_name@ == "localhost"@ && string_views(san_list@) == seq![
                "127.0.0.1"@,
                "::1"@,
            ],
    {
        let mut san_list: Vec<String> = Vec::new();
        san_list.push(String::from_str("127.0.0.1"));
        san_list.push(String::from_str("::1"));
        assert(string_views(san_list@) =~= seq!["127.0.0.1"@, "::1"@]);
        TlsConfig {
            enabled: false,
            cert_source: CertificateSource::SelfSigned {
                common_name: String::from_str("localhost"),
                san_list,
                cert_dir: path_from("./certs"),
            },
            https_bind_address: None,
            force_https: false,
        }
    }
}

// ---------------------------------------------------------------------------
// The HTTPS bind address
// ---------------------------------------------------------------------------

/// `s` from position `i` on, with every occurrence of `pat` (left to right,
/// not overlapping) replaced by `rep`.
pub open spec fn replace_from(s: Seq<char>, pat: Seq<char>, rep: Seq<char>, i: int) -> Seq<char>
    decreases s.len() - i,
{
    if i < 0 || i >= s.len() {
        Seq::empty()
    } else if pat.len() > 0 && occurs_at(s, pat, i) {
        rep + replace_from(s, pat, rep, i + pat.len())
    } else {
        seq![s[i]] + replace_from(s, pat, rep, i + 1)
    }
}

/// `s` with every occurrence of `pat` replaced by `rep`.
pub open spec fn replace_all(s: Seq<char>, pat: Seq<char>, rep: Seq<char>) -> Seq<char> {
    replace_from(s, pat, rep, 0)
}

/// The part of `s` before its first `:` (all of it where there is none).
pub open spec fn host_part(s: Seq<char>) -> Seq<char> {
    if exists|i: int| 0 <= i < s.len() && s[i] == ':' {
        s.take(choose|i: int| 0 <= i < s.len() && s[i] == ':' && forall|j: int| 0 <= j < i ==> s[j] != ':')
    } else {
        s
    }
}

/// The HTTPS bind address for an HTTP one, where none is configured: port
/// 8080 becomes 8443, else port 80 becomes 443, else the host with port 8443.
pub open spec fn derived_https_address(http: Seq<char>) -> Seq<char> {
    if seq_contains(http, ":8080"@) {
        replace_all(http, ":8080"@, ":8443"@)
    } else if seq_contains(http, ":80"@) {
        replace_all(http, ":80"@, ":443"@)
    } else {
        host_part(http) + ":8443"@
    }
}

/// `s` with every occurrence of `pat` (non-empty) replaced by `rep`.
fn replace(s: &str, pat: &str, rep: &str) -> (r: String)
    requires
        pat@.len() > 0,
    ensures
        r@ == replace_all(s@, pat@, rep@),
{
    let sv = chars_of(s);
    let pv = chars_of(pat);
    let n = sv.len();
    let mut out = String::new();
    let mut i: usize = 0;
    while i < n
        invariant
            n == s@.len(),
            sv@ == s@,
            pv@ == pat@,
            pat@.len() > 0,
            i <= n,
            out@ + replace_from(s@, pat@, rep@, i as int) == replace_all(s@, pat@, rep@),
        decreases n - i,
    {
        if matches_at(&sv, &pv, i) {
            out.append(rep);
            assert(out@ + replace_from(s@, pat@, rep@, (i + pv@.len()) as int) =~= replace_all(
                s@,
                pat@,
                rep@,
            ));
            i = i + pv.len();
        } else {
            let one = s.substring_char(i, i + 1);
            out.append(one);
            assert(one@ =~= seq![s@[i as int]]);
            assert(out@ + replace_from(s@, pat@, rep@, i + 1) =~= replace_all(s@, pat@, rep@));
            i = i + 1;
        }
    }
    assert(replace_from(s@, pat@, rep@, i as int) =~= Seq::<char>::empty());
    assert(out@ =~= out@ + Seq::<char>::empty());
    out
}

/// Certificate manager: the decisions over one TLS configuration.
pub struct CertificateManager {
    config: TlsConfig,
}

/// Errors of the certificate validity check.
pub enum CertError {
    /// The PEM text is not UTF-8.
    InvalidUtf8,
    /// The body of the PEM is not standard base64.
    BadBase64,
    /// The DER bytes are no X.509 certificate; the parser's message.
    BadCertificate(String),
}

impl CertificateManager {
    pub closed spec fn spec_config(&self) -> TlsConfig {
        self.config
    }

    pub fn new(config: TlsConfig) -> (r: Self)
        ensures
            r.spec_config() == config,
    {
        CertificateManager { config }
    }

    /// The HTTPS bind address: the configured one, else one derived from the
    /// HTTP bind address.
    pub fn https_bind_address(&self, http_bind_address: &str) -> (r: String)
        ensures
            match self.spec_config().https_bind_address {
                Some(a) => r@ == a@,
                None => r@ == derived_https_address(http_bind_address@),
            },
    {
        match &self.config.https_bind_address {
            Some(a) => a.clone(),
            None => {
                proof {
                    reveal_strlit(":8080");
                    reveal_strlit(":80");
                }
                if str_contains(http_bind_address, ":8080") {
                    replace(http_bind_address, ":8080", ":8443")
                } else if str_contains(http_bind_address, ":80") {
                    replace(http_bind_address, ":80", ":443")
                } else {
                    let sv = chars_of(http_bind_address);
                    let mut k: usize = 0;
                    while k < sv.len() && sv[k] != ':'
                        invariant
                            k <= sv@.len(),
                            forall|j: int| 0 <= j < k ==> sv@[j] != ':',
                        decreases sv@.len() - k,
                    {
                        k = k + 1;
                    }
                    proof {
                        let s = http_bind_address@;
                        assert(sv@ == s);
                        if k < sv@.len() {
                            let c = choose|i: int|
                                0 <= i < s.len() && s[i] == ':' && forall|j: int|
                                    0 <= j < i ==> s[j] != ':';
                            assert(c == k) by {
                                if c < k {
                                    assert(s[c] != ':');
                                }
                                if c > k {
                                    assert(s[k as int] == ':');
                                }
                            }
                        } else {
                            assert(!(exists|i: int| 0 <= i < s.len() && s[i] == ':'));
                            assert(s.take(k as int) =~= s);
                        }
                    }
                    let host = http_bind_address.substring_char(0, k);
                    let mut r = String::from_str(host);
                    r.append(":8443");
                    r
                }
            },
        }
    }

    /// HTTPS is enforced when TLS is on and redirects are asked for.
    pub fn should_force_https(&self) -> (r: bool)
        ensures
            r == (self.spec_config().enabled && self.spec_config().force_https),
    {
        self.config.enabled && self.config.force_https
    }

    /// The certificate source to serve from, or `None` for HTTP only.
    pub fn server_source(&self) -> (r: Option<&CertificateSource>)
        ensures
            self.spec_config().enabled ==> r == Some(&self.spec_config().cert_source),
            !self.spec_config().enabled ==> r is None,
    {
        if !self.config.enabled {
            return None;
        }
        Some(&self.config.cert_source)
    }
}

/// The common name an ACME certificate falls back to: the first domain, or
/// `localhost` where there is none.
pub fn acme_common_name(domains: &[String]) -> (r: String)
    ensures
        domains@.len() > 0 ==> r@ == domains@[0]@,
        domains@.len() == 0 ==> r@ == "localhost"@,
{
    if domains.len() > 0 {
        domains[0].clone()
    } else {
        String::from_str("localhost")
    }
}

// ---------------------------------------------------------------------------
// Certificate validity
// ---------------------------------------------------------------------------

/// What `std::str::from_utf8` gives for `b`: its characters where `b` is
/// valid UTF-8, else `None`.
pub uninterp spec fn utf8_decode(b: Seq<u8>) -> Option<Seq<char>>;

/// Trusted: `std::str::from_utf8`, named by `utf8_decode`.
#[verifier::external_body]
fn utf8_text(b: &[u8]) -> (r: Option<&str>)
    ensures
        match utf8_decode(b@) {
            Some(t) => r is Some && r->0@ == t,
            None => r is None,
        },
{
    match std::str::from_utf8(b) {
        Ok(s) => Some(s),
        Err(_) => None,
    }
}

/// What the standard base64 engine (standard alphabet, padded) decodes `s`
/// to, or `None` where it refuses it.
pub uninterp spec fn base64_standard_decode(s: Seq<char>) -> Option<Seq<u8>>;

/// Trusted: `base64::engine::general_purpose::STANDARD.decode`, named by
/// `base64_standard_decode`; its error becomes `None`.
#[verifier::external_body]
fn base64_decode(s: &str) -> (r: Option<Vec<u8>>)
    ensures
        match base64_standard_decode(s@) {
            Some(b) => r is Some && r->0@ == b,
            None => r is None,
        },
{
    match base64::engine::general_purpose::STANDARD.decode(s) {
        Ok(v) => Some(v),
        Err(_) => None,
    }
}

/// The `notAfter` time, as a Unix timestamp, of the X.509 certificate that
/// `der` begins with, or `None` where `x509_parser::parse_x509_certificate`
/// refuses the bytes.
pub uninterp spec fn x509_not_after(der: Seq<u8>) -> Option<i64>;

/// Trusted: `x509_parser::parse_x509_certificate` followed by reading
/// `validity.not_after.timestamp()`, named by `x509_not_after`; a refusal
/// carries the parser's message, which is left unsaid.
#[verifier::external_body]
fn parse_not_after(der: &[u8]) -> (r: Result<i64, String>)
    ensures
        match x509_not_after(der@) {
            Some(t) => r == Ok::<i64, String>(t),
            None => r is Err,
        },
{
    match x509_parser::parse_x509_certificate(der) {
        Ok((_, cert)) => Ok(cert.validity.not_after.timestamp()),
        Err(e) => Err(e.to_string()),
    }
}

/// The first `\n` at or after `i`, or the end.
pub open spec fn newline_from(s: Seq<char>, i: int) -> int
    decreases s.len() - i,
{
    if i < 0 || i >= s.len() {
        s.len() as int
    } else if s[i] == '\n' {
        i
    } else {
        newline_from(s, i + 1)
    }
}

/// The base64 body of a PEM text, from position `i`: its lines (split at
/// `\n`, a `\r` before the `\n` dropped) that do not start with `-----`,
/// joined.
pub open spec fn pem_body_from(s: Seq<char>, i: int) -> Seq<char>
    decreases s.len() - i,
{
    let e = newline_from(s, i);
    if i < 0 || i >= s.len() || e < i {
        Seq::empty()
    } else {
        let raw = s.subrange(i, e);
        let line = if e < s.len() && raw.len() > 0 && raw.last() == '\r' {
            raw.drop_last()
        } else {
            raw
        };
        (if seq_starts_with(line, "-----"@) {
            Seq::empty()
        } else {
            line
        }) + if e < s.len() {
            pem_body_from(s, e + 1)
        } else {
            Seq::empty()
        }
    }
}

proof fn lemma_newline_from(s: Seq<char>, i: int)
    requires
        0 <= i,
    ensures
        i <= newline_from(s, i) <= s.len() || (i > s.len() && newline_from(s, i) == s.len()),
        newline_from(s, i) < s.len() ==> s[newline_from(s, i)] == '\n',
        forall|j: int| i <= j < newline_from(s, i) ==> s[j] != '\n',
    decreases s.len() - i,
{
    if i < s.len() && s[i] != '\n' {
        lemma_newline_from(s, i + 1);
    }
}

/// The base64 body of a PEM text.
fn pem_body(text: &str) -> (r: String)
    ensures
        r@ == pem_body_from(text@, 0),
{
    let sv = chars_of(text);
    let n = sv.len();
    let dashes = chars_of("-----");
    let mut out = String::new();
    let mut i: usize = 0;
    while i < n
        invariant
            n == text@.len(),
            sv@ == text@,
            dashes@ == "-----"@,
            i <= n,
            out@ + pem_body_from(text@, i as int) == pem_body_from(text@, 0),
        decreases n - i,
    {
        let mut e: usize = i;
        while e < n && sv[e] != '\n'
            invariant
                i <= e <= n,
                n == sv@.len(),
                forall|j: int| i <= j < e ==> sv@[j] != '\n',
            decreases n - e,
        {
            e = e + 1;
        }
        proof {
            lemma_newline_from(text@, i as int);
            let ne = newline_from(text@, i as int);
            if ne < e {
                assert(sv@[ne] == '\n');
            }
            if e < ne {
                assert(sv@[e as int] == '\n');
            }
            assert(ne == e);
        }
        let mut end = e;
        if e < n && e > i && sv[e - 1] == '\r' {
            end = e - 1;
        }
        let ghost raw = text@.subrange(i as int, e as int);
        let ghost line = text@.subrange(i as int, end as int);
        proof {
            if e < n && raw.len() > 0 && raw.last() == '\r' {
                assert(line =~= raw.drop_last());
            } else {
                assert(line =~= raw);
            }
        }
        let starts = end - i >= dashes.len() && matches_at(&sv, &dashes, i);
        proof {
            reveal_strlit("-----");
            if seq_starts_with(line, "-----"@) {
                assert(line.subrange(0, 5) =~= text@.subrange(i as int, i + 5));
            }
            if starts {
                assert(line.subrange(0, 5) =~= text@.subrange(i as int, i + 5));
            }
        }
        let ghost before = out@;
        if !starts {
            let piece = text.substring_char(i, end);
            out.append(piece);
        }
        proof {
            if e < n {
                assert(out@ + pem_body_from(text@, e + 1) =~= pem_body_from(text@, 0));
            } else {
                assert(pem_body_from(text@, e + 1) =~= Seq::<char>::empty());
                assert(out@ =~= out@ + pem_body_from(text@, e + 1));
            }
        }
        i = if e < n {
            e + 1
        } else {
            n
        };
        proof {
            if e >= n {
                assert(pem_body_from(text@, i as int) =~= Seq::<char>::empty());
                assert(out@ + pem_body_from(text@, i as int) =~= out@);
            }
        }
    }
    assert(pem_body_from(text@, i as int) =~= Seq::<char>::empty());
    assert(out@ + pem_body_from(text@, i as int) =~= out@);
    out
}

/// Seconds in thirty days: a certificate with less left is due for renewal.
pub const RENEWAL_MARGIN_SECS: u64 = 2592000;

/// What the validity check says of a PEM certificate at time `now`.
pub open spec fn validity_spec(pem: Seq<u8>, now: u64) -> Option<Option<bool>> {
    match utf8_decode(pem) {
        None => None,
        Some(t) => match base64_standard_decode(pem_body_from(t, 0)) {
            None => Some(None),
            Some(der) => match x509_not_after(der) {
                None => Some(None),
                Some(na) => Some(Some((na as u64) > now + RENEWAL_MARGIN_SECS)),
            },
        },
    }
}

impl CertificateManager {
    /// Whether a PEM certificate is still valid at `now_secs` (seconds since
    /// the Unix epoch): more than thirty days before its `notAfter`.
    pub fn is_certificate_valid(&self, cert_pem: &[u8], now_secs: u64) -> (r: Result<bool, CertError>)
        requires
            now_secs + RENEWAL_MARGIN_SECS <= u64::MAX,
        ensures
            match utf8_decode(cert_pem@) {
                None => r matches Err(CertError::InvalidUtf8),
                Some(t) => match base64_standard_decode(pem_body_from(t, 0)) {
                    None => r matches Err(CertError::BadBase64),
                    Some(der) => match x509_not_after(der) {
                        None => r matches Err(CertError::BadCertificate(_)),
                        Some(na) => r matches Ok(v) && v == ((na as u64) > now_secs
                            + RENEWAL_MARGIN_SECS),
                    },
                },
            },
    {
        let text = match utf8_text(cert_pem) {
            Some(t) => t,
            None => {
                return Err(CertError::InvalidUtf8);
            },
        };
        let body = pem_body(text);
        let der = match base64_decode(body.as_str()) {
            Some(d) => d,
            None => {
                return Err(CertError::BadBase64);
            },
        };
        let not_after = match parse_not_after(der.as_slice()) {
            Ok(t) => t,
            Err(e) => {
                return Err(CertError::BadCertificate(e));
            },
        };
        Ok((not_after as u64) > now_secs + RENEWAL_MARGIN_SECS)
    }
}

// ---------------------------------------------------------------------------
// HTTPS redirects
// ---------------------------------------------------------------------------

/// Where a request should be redirected: nowhere when it came over HTTPS or
/// a proxy says it did, else to `https://` with its authority (`localhost`
/// where it has none) and its path and query (`/` where it has none).
pub fn redirect_target(
    scheme_is_https: bool,
    forwarded_proto_is_https: bool,
    authority: Option<&str>,
    path_and_query: Option<&str>,
) -> (r: Option<String>)
    ensures
        scheme_is_https || forwarded_proto_is_https ==> r is None,
        !(scheme_is_https || forwarded_proto_is_https) ==> r is Some && r->0@ == "https://"@ + (
        match authority {
            Some(a) => a@,
            None => "localhost"@,
        }) + (match path_and_query {
            Some(p) => p@,
            None => "/"@,
        }),
{
    if scheme_is_https || forwarded_proto_is_https {
        return None;
    }
    let mut s = String::from_str("https://");
    match authority {
        Some(a) => s.append(a),
        None => s.append("localhost"),
    }
    match path_and_query {
        Some(p) => s.append(p),
        None => s.append("/"),
    }
    Some(s)
}

// ---------------------------------------------------------------------------
// ACME HTTP-01 challenges
// ---------------------------------------------------------------------------

/// Keys unique by their text.
pub open spec fn tokens_unique(es: Seq<(String, String)>) -> bool {
    forall|i: int, j: int| 0 <= i < j < es.len() ==> (#[trigger] es[i]).0@ != (#[trigger] es[j]).0@
}

/// Some entry's token is `k`.
pub open spec fn has_token(es: Seq<(String, String)>, k: Seq<char>) -> bool {
    exists|j: int| 0 <= j < es.len() && (#[trigger] es[j]).0@ == k
}

/// The answer stored for token `k`.
pub open spec fn answer_of(es: Seq<(String, String)>, k: Seq<char>) -> Seq<char> {
    es[choose|j: int| 0 <= j < es.len() && (#[trigger] es[j]).0@ == k].1@
}

proof fn lemma_answer_of(es: Seq<(String, String)>, j: int)
    requires
        tokens_unique(es),
        0 <= j < es.len(),
    ensures
        has_token(es, es[j].0@),
        answer_of(es, es[j].0@) == es[j].1@,
{
    let k = es[j].0@;
    assert(has_token(es, k));
    let c = choose|i: int| 0 <= i < es.len() && (#[trigger] es[i]).0@ == k;
    if c < j {
        assert(es[c].0@ != es[j].0@);
    } else if c > j {
        assert(es[j].0@ != es[c].0@);
    }
}

/// Stored ACME HTTP-01 challenge answers: token to key authorization.
#[derive(Clone)]
pub struct AcmeChallengeHandler {
    challenges: Vec<(String, String)>,
}

impl View for AcmeChallengeHandler {
    type V = Map<Seq<char>, Seq<char>>;

    closed spec fn view(&self) -> Map<Seq<char>, Seq<char>> {
        Map::new(
            |k: Seq<char>| has_token(self.challenges@, k),
            |k: Seq<char>| answer_of(self.challenges@, k),
        )
    }
}

/// How a request path is answered.
pub enum ChallengeReply {
    /// The path is no ACME challenge path.
    NotAChallenge,
    /// The key authorization for the path's token.
    Found(String),
    /// A challenge path whose token is not stored.
    NotFound,
}

impl AcmeChallengeHandler {
    pub closed spec fn wf(&self) -> bool {
        tokens_unique(self.challenges@)
    }

    pub fn new() -> (r: Self)
        ensures
            r.wf(),
            r@ == Map::<Seq<char>, Seq<char>>::empty(),
    {
        let r = AcmeChallengeHandler { challenges: Vec::new() };
        assert(r@ =~= Map::<Seq<char>, Seq<char>>::empty());
        r
    }

    fn position(&self, token: &str) -> (r: Option<usize>)
        requires
            self.wf(),
        ensures
            match r {
                Some(j) => j < self.challenges@.len() && self.challenges@[j as int].0@ == token@
                    && self@.contains_key(token@) && self@[token@] == self.challenges@[j as int].1@,
                None => !self@.contains_key(token@),
            },
    {
        let want = chars_of(token);
        let mut j: usize = 0;
        while j < self.challenges.len()
            invariant
                j <= self.challenges@.len(),
                self.wf(),
                want@ == token@,
                forall|i: int| 0 <= i < j ==> (#[trigger] self.challenges@[i]).0@ != token@,
            decreases self.challenges@.len() - j,
        {
            let k = chars_of(self.challenges[j].0.as_str());
            if k.len() == want.len() && matches_at(&k, &want, 0) {
                assert(k@ =~= want@);
                proof {
                    lemma_answer_of(self.challenges@, j as int);
                }
                return Some(j);
            }
            proof {
                if k@ == want@ {
                    assert(k@.subrange(0, want@.len() as int) =~= k@);
                }
            }
            j = j + 1;
        }
        None
    }

    /// Store the key authorization for `token`, replacing an earlier one.
    pub fn add_challenge(&mut self, token: String, key_authorization: String)
        requires
            old(self).wf(),
        ensures
            final(self).wf(),
            final(self)@ == old(self)@.insert(token@, key_authorization@),
    {
        let ghost before = self.challenges@;
        let ghost t = token@;
        let ghost v = key_authorization@;
        match self.position(token.as_str()) {
            Some(j) => {
                self.challenges.set(j, (token, key_authorization));
                proof {
                    let es = self.challenges@;
                    assert forall|a: int, b: int| 0 <= a < b < es.len() implies (#[trigger] es[a]).0@
                        != (#[trigger] es[b]).0@ by {
                        assert(before[a].0@ != before[b].0@);
                    }
                    assert forall|k: Seq<char>| #[trigger] self@.contains_key(k) == old(self)@.insert(
                        t,
                        v,
                    ).contains_key(k) by {
                        if has_token(before, k) {
                            let c = choose|i: int| 0 <= i < before.len() && (#[trigger] before[i]).0@ == k;
                            assert(es[c].0@ == k);
                        }
                        if has_token(es, k) {
                            let c = choose|i: int| 0 <= i < es.len() && (#[trigger] es[i]).0@ == k;
                            assert(before[c].0@ == k);
                        }
                        if k == t {
                            assert(es[j as int].0@ == k);
                        }
                    }
                    assert forall|k: Seq<char>| #[trigger] self@.contains_key(k) implies self@[k]
                        == old(self)@.insert(t, v)[k] by {
                        let c = choose|i: int| 0 <= i < es.len() && (#[trigger] es[i]).0@ == k;
                        lemma_answer_of(es, c);
                        if c != j {
                            lemma_answer_of(before, c);
                            assert(es[c] == before[c]);
                            assert(k != t);
                        }
                    }
                    assert(self@ =~= old(self)@.insert(t, v));
                }
            },
            None => {
                self.challenges.push((token, key_authorization));
                proof {
                    let es = self.challenges@;
                    assert(es == before.push((es[before.len() as int].0, es[before.len() as int].1)));
                    assert forall|a: int, b: int| 0 <= a < b < es.len() implies (#[trigger] es[a]).0@
                        != (#[trigger] es[b]).0@ by {
                        if b < before.len() {
                            assert(before[a].0@ != before[b].0@);
                        } else {
                            assert(!has_token(before, t));
                            assert(es[a] == before[a]);
                        }
                    }
                    assert forall|k: Seq<char>| #[trigger] self@.contains_key(k) == old(self)@.insert(
                        t,
                        v,
                    ).contains_key(k) by {
                        if has_token(before, k) {
                            let c = choose|i: int| 0 <= i < before.len() && (#[trigger] before[i]).0@ == k;
                            assert(es[c] == before[c]);
                        }
                        if has_token(es, k) {
                            let c = choose|i: int| 0 <= i < es.len() && (#[trigger] es[i]).0@ == k;
                            if c < before.len() {
                                assert(es[c] == before[c]);
                            }
                        }
                        if k == t {
                            assert(es[before.len() as int].0@ == k);
                        }
                    }
                    assert forall|k: Seq<char>| #[trigger] self@.contains_key(k) implies self@[k]
                        == old(self)@.insert(t, v)[k] by {
                        let c = choose|i: int| 0 <= i < es.len() && (#[trigger] es[i]).0@ == k;
                        lemma_answer_of(es, c);
                        if c < before.len() {
                            assert(es[c] == before[c]);
                            lemma_answer_of(before, c);
                            assert(k != t);
                        }
                    }
                    assert(self@ =~= old(self)@.insert(t, v));
                }
            },
        }
    }

    /// Forget the answer for `token`.
    pub fn remove_challenge(&mut self, token: &str)
        requires
            old(self).wf(),
        ensures
            final(self).wf(),
            final(self)@ == old(self)@.remove(token@),
    {
        let ghost before = self.challenges@;
        match self.position(token) {
            Some(j) => {
                self.challenges.remove(j);
                proof {
                    let es = self.challenges@;
                    assert(es == before.remove(j as int));
                    assert forall|a: int, b: int| 0 <= a < b < es.len() implies (#[trigger] es[a]).0@
                        != (#[trigger] es[b]).0@ by {
                        let a2 = if a < j { a } else { a + 1 };
                        let b2 = if b < j { b } else { b + 1 };
                        assert(es[a] == before[a2]);
                        assert(es[b] == before[b2]);
                        assert(before[a2].0@ != before[b2].0@);
                    }
                    assert forall|k: Seq<char>| #[trigger] self@.contains_key(k) == old(self)@.remove(
                        token@,
                    ).contains_key(k) by {
                        if has_token(before, k) && k != token@ {
                            let c = choose|i: int| 0 <= i < before.len() && (#[trigger] before[i]).0@ == k;
                            assert(c != j);
                            if c < j {
                                assert(es[c] == before[c]);
                            } else {
                                assert(es[c - 1] == before[c]);
                            }
                        }
                        if has_token(es, k) {
                            let c = choose|i: int| 0 <= i < es.len() && (#[trigger] es[i]).0@ == k;
                            let c2 = if c < j { c } else { c + 1 };
                            assert(es[c] == before[c2]);
                            assert(before[c2].0@ != before[j as int].0@);
                        }
                    }
                    assert forall|k: Seq<char>| #[trigger] self@.contains_key(k) implies self@[k]
                        == old(self)@.remove(token@)[k] by {
                        let c = choose|i: int| 0 <= i < es.len() && (#[trigger] es[i]).0@ == k;
                        lemma_answer_of(es, c);
                        let c2 = if c < j { c } else { c + 1 };
                        assert(es[c] == before[c2]);
                        lemma_answer_of(before, c2);
                    }
                    assert(self@ =~= old(self)@.remove(token@));
                }
            },
            None => {
                assert(self@ =~= old(self)@.remove(token@));
            },
        }
    }

    /// The key authorization stored for `token`.
    pub fn get_challenge(&self, token: &str) -> (r: Option<String>)
        requires
            self.wf(),
        ensures
            self@.contains_key(token@) ==> r is Some && r->0@ == self@[token@],
            !self@.contains_key(token@) ==> r is None,
    {
        match self.position(token) {
            Some(j) => Some(self.challenges[j].1.clone()),
            None => None,
        }
    }

    /// How a request for `path` is answered: paths under
    /// `/.well-known/acme-challenge/` are challenges for the token after it.
    pub fn challenge_reply(&self, path: &str) -> (r: ChallengeReply)
        requires
            self.wf(),
        ensures
            ({
                let pre = "/.well-known/acme-challenge/"@;
                if seq_starts_with(path@, pre) {
                    let tok = path@.skip(pre.len() as int);
                    if self@.contains_key(tok) {
                        r matches ChallengeReply::Found(a) && a@ == self@[tok]
                    } else {
                        r matches ChallengeReply::NotFound
                    }
                } else {
                    r matches ChallengeReply::NotAChallenge
                }
            }),
    {
        let sv = chars_of(path);
        let pre = chars_of("/.well-known/acme-challenge/");
        if !(pre.len() <= sv.len() && matches_at(&sv, &pre, 0)) {
            proof {
                if seq_starts_with(path@, pre@) {
                    assert(sv@.subrange(0, pre@.len() as int) == pre@);
                }
            }
            return ChallengeReply::NotAChallenge;
        }
        let token = path.substring_char(pre.len(), sv.len());
        assert(token@ =~= path@.skip(pre@.len() as int));
        match self.get_challenge(token) {
            Some(a) => ChallengeReply::Found(a),
            None => ChallengeReply::NotFound,
        }
    }
}

/// An answer stored for a token is what a lookup of that token gives, until
/// it is removed; other tokens are not disturbed.
pub proof fn law_challenge_store(
    m: Map<Seq<char>, Seq<char>>,
    token: Seq<char>,
    answer: Seq<char>,
    other: Seq<char>,
)
    requires
        other != token,
    ensures
        m.insert(token, answer).contains_key(token),
        m.insert(token, answer)[token] == answer,
        !m.insert(token, answer).remove(token).contains_key(token),
        m.insert(token, answer).contains_key(other) == m.contains_key(other),
        m.contains_key(other) ==> m.insert(token, answer)[other] == m[other],
        m.remove(token).contains_key(other) == m.contains_key(other),
{
}

} // verus!
