//! Node-wide configuration rules: whether authentication is switched off,
//! which channel backends are configured well enough to be created, and how
//! a discovery request is bounded.

use vstd::prelude::*;

use crate::text::{contains_seq, occurs_at, owned};

verus! {

/// `c` lower-cased if it is an ASCII capital.
pub open spec fn ascii_lower(c: char) -> char {
    if 'A' <= c <= 'Z' { ((c as u32) + 32) as char } else { c }
}

/// `a` and `b` are equal ignoring ASCII case.
pub open spec fn eq_ignore_ascii_case(a: Seq<char>, b: Seq<char>) -> bool {
    a.len() == b.len() && forall|i: int| 0 <= i < a.len() ==> ascii_lower(a[i]) == ascii_lower(b[i])
}

/// `c` lower-cased if it is an ASCII capital.
pub(crate) fn lower_ascii_char(c: char) -> (r: char)
    ensures
        r == ascii_lower(c),
{
    if 'A' <= c && c <= 'Z' {
        let code: u32 = (c as u32) + 32;
        proof {
            assert(code <= 0x7a);
        }
        char_of_ascii(code)
    } else {
        c
    }
}

/// The character with ASCII code `code`.
fn char_of_ascii(code: u32) -> (c: char)
    requires
        code < 128,
    ensures
        c == code as char,
{
    let b: u8 = code as u8;
    let c = b as char;
    assert(c == code as char);
    c
}

/// `a` and `b` are equal ignoring ASCII case (`str::eq_ignore_ascii_case`).
pub fn str_eq_ignore_ascii_case(a: &str, b: &str) -> (r: bool)
    ensures
        r == eq_ignore_ascii_case(a@, b@),
{
    let n = a.unicode_len();
    if n != b.unicode_len() {
        return false;
    }
    let mut i: usize = 0;
    while i < n
        invariant
            n == a@.len(),
            n == b@.len(),
            i <= n,
            forall|k: int| 0 <= k < i ==> ascii_lower(a@[k]) == ascii_lower(b@[k]),
        decreases n - i,
    {
        if lower_ascii_char(a.get_char(i)) != lower_ascii_char(b.get_char(i)) {
            return false;
        }
        i = i + 1;
    }
    true
}

/// `s` with its ASCII capitals lower-cased.
pub open spec fn lower_text(s: Seq<char>) -> Seq<char> {
    s.map_values(|c: char| ascii_lower(c))
}

/// `pat` occurs at position `i` of `s` lower-cased.
fn lowered_matches_at(s: &str, pat: &str, i: usize) -> (r: bool)
    requires
        i + pat@.len() <= s@.len(),
    ensures
        r == occurs_at(lower_text(s@), pat@, i as int),
{
    let n = s.unicode_len();
    let p = pat.unicode_len();
    let ghost l = lower_text(s@);
    let mut j: usize = 0;
    while j < p
        invariant
            n == s@.len(),
            p == pat@.len(),
            l == lower_text(s@),
            i + p <= s@.len(),
            j <= p,
            forall|k: int| 0 <= k < j ==> l[i + k] == pat@[k],
        decreases p - j,
    {
        if lower_ascii_char(s.get_char(i + j)) != pat.get_char(j) {
            assert(l.subrange(i as int, i + p)[j as int] != pat@[j as int]);
            return false;
        }
        j = j + 1;
    }
    assert(l.subrange(i as int, i + p) =~= pat@);
    true
}

/// `pat` occurs in `s` once its ASCII capitals are lower-cased.
pub fn contains_lowered(s: &str, pat: &str) -> (r: bool)
    ensures
        r == contains_seq(lower_text(s@), pat@),
{
    let n = s.unicode_len();
    let p = pat.unicode_len();
    let ghost l = lower_text(s@);
    assert(l.len() == n);
    if p > n {
        assert forall|i: int| !occurs_at(l, pat@, i) by {}
        return false;
    }
    if p == 0 {
        assert(l.subrange(0, 0) =~= pat@);
        assert(occurs_at(l, pat@, 0));
        return true;
    }
    let mut i: usize = 0;
    while i <= n - p
        invariant
            n == s@.len(),
            p == pat@.len(),
            l == lower_text(s@),
            l.len() == n,
            1 <= p <= n,
            i <= n - p + 1,
            forall|k: int| 0 <= k < i ==> !occurs_at(l, pat@, k),
        decreases n - p + 1 - i,
    {
        if lowered_matches_at(s, pat, i) {
            return true;
        }
        i = i + 1;
    }
    assert forall|k: int| !occurs_at(l, pat@, k) by {
        if 0 <= k && k < i {
        }
    }
    false
}

/// An environment value that switches authentication off: `1`, or `true` or
/// `yes` in any ASCII case.
pub open spec fn disables_auth(v: Seq<char>) -> bool {
    v == "1"@ || eq_ignore_ascii_case(v, "true"@) || eq_ignore_ascii_case(v, "yes"@)
}

/// Whether authentication is off: by the environment value when it says so,
/// else by the security configuration; on when nothing is configured.
pub fn is_auth_disabled(env_value: Option<&str>, config_disable_auth: Option<bool>) -> (b: bool)
    ensures
        b == ((env_value matches Some(v) && disables_auth(v@)) || config_disable_auth == Some(true)),
{
    if let Some(v) = env_value {
        if crate::text::str_eq(v, "1") || str_eq_ignore_ascii_case(v, "true") || str_eq_ignore_ascii_case(v, "yes") {
            return true;
        }
    }
    match config_disable_auth {
        Some(d) => d,
        None => false,
    }
}

/// Channel backends.
#[derive(Debug, Clone, Copy, PartialEq, Eq, Structural)]
pub enum ChannelProvider {
    InMemory,
    Kafka,
    Nats,
    Sqs,
    Redis,
    ProcessGroup,
    Sqlite,
    Udp,
    Postgres,
}

/// The backend settings a channel configuration carries.
#[derive(Debug)]
pub enum BackendConfig {
    Kafka { brokers: Vec<String> },
    Nats { servers: Vec<String> },
    Sqs { region: String },
    Redis { url: String },
    /// Settings of a backend that needs none of the above.
    Other,
}

/// Why a channel configuration is refused, if it is.
pub open spec fn channel_config_error(provider: ChannelProvider, backend: Option<BackendConfig>) -> Option<Seq<char>> {
    match provider {
        ChannelProvider::Kafka => match backend {
            Some(BackendConfig::Kafka { brokers }) =>
                if brokers@.len() == 0 { Some("Kafka provider requires brokers configuration"@) } else { None },
            _ => Some("Kafka provider requires kafka config"@),
        },
        ChannelProvider::Nats => match backend {
            Some(BackendConfig::Nats { servers }) =>
                if servers@.len() == 0 { Some("NATS provider requires servers configuration"@) } else { None },
            _ => Some("NATS provider requires nats config"@),
        },
        ChannelProvider::Sqs => match backend {
            Some(BackendConfig::Sqs { region }) =>
                if region@.len() == 0 { Some("SQS provider requires region configuration"@) } else { None },
            _ => Some("SQS provider requires sqs config"@),
        },
        ChannelProvider::Redis => match backend {
            Some(BackendConfig::Redis { url }) =>
                if url@.len() == 0 { Some("Redis provider requires url configuration"@) } else { None },
            _ => Some("Redis provider requires redis config"@),
        },
        _ => None,
    }
}

/// Checks that a channel configuration names what its backend needs.
pub fn validate_channel_config(provider: ChannelProvider, backend: &Option<BackendConfig>) -> (r: Result<(), String>)
    ensures
        match channel_config_error(provider, *backend) {
            Some(m) => r matches Err(e) && e@ == m,
            None => r is Ok,
        },
{
    match provider {
        ChannelProvider::Kafka => match backend {
            Some(BackendConfig::Kafka { brokers }) => if brokers.len() == 0 {
                Err(owned("Kafka provider requires brokers configuration"))
            } else {
                Ok(())
            },
            _ => Err(owned("Kafka provider requires kafka config")),
        },
        ChannelProvider::Nats => match backend {
            Some(BackendConfig::Nats { servers }) => if servers.len() == 0 {
                Err(owned("NATS provider requires servers configuration"))
            } else {
                Ok(())
            },
            _ => Err(owned("NATS provider requires nats config")),
        },
        ChannelProvider::Sqs => match backend {
            Some(BackendConfig::Sqs { region }) => if region.unicode_len() == 0 {
                Err(owned("SQS provider requires region configuration"))
            } else {
                Ok(())
            },
            _ => Err(owned("SQS provider requires sqs config")),
        },
        ChannelProvider::Redis => match backend {
            Some(BackendConfig::Redis { url }) => if url.unicode_len() == 0 {
                Err(owned("Redis provider requires url configuration"))
            } else {
                Ok(())
            },
            _ => Err(owned("Redis provider requires redis config")),
        },
        _ => Ok(()),
    }
}

/// Default number of registrations a discovery returns.
pub const DEFAULT_DISCOVER_PAGE_SIZE: usize = 100;

/// Most registrations a discovery returns.
pub const MAX_DISCOVER_PAGE_SIZE: usize = 1000;

/// The page size of a discovery: the requested one up to the maximum, or
/// the default when none is requested.
pub fn discover_page_size(page_size: i32) -> (n: usize)
    ensures
        n == if page_size <= 0 {
            DEFAULT_DISCOVER_PAGE_SIZE as int
        } else if page_size > MAX_DISCOVER_PAGE_SIZE {
            MAX_DISCOVER_PAGE_SIZE as int
        } else {
            page_size as int
        },
{
    if page_size <= 0 {
        DEFAULT_DISCOVER_PAGE_SIZE
    } else if page_size as usize > MAX_DISCOVER_PAGE_SIZE {
        MAX_DISCOVER_PAGE_SIZE
    } else {
        page_size as usize
    }
}

/// A discovery answer may have more results when it filled its page.
pub fn discover_has_more(returned: usize, page_size: usize) -> (b: bool)
    ensures
        b == (returned >= page_size),
{
    returned >= page_size
}

/// An optional filter: none when the request leaves it empty.
pub fn optional_filter(value: String) -> (r: Option<String>)
    ensures
        value@.len() == 0 ==> r.is_none(),
        value@.len() > 0 ==> (r matches Some(v) && v@ == value@),
{
    if value.unicode_len() == 0 { None } else { Some(value) }
}

/// An optional enum-code filter: none for the unset code 0 and for a code
/// that the filter's enum does not define (`defined` tells whether the enum's
/// decoding of `code` succeeded); else the code.
pub fn optional_code(code: i32, defined: bool) -> (r: Option<i32>)
    ensures
        r == if code == 0 || !defined { None } else { Some(code) },
{
    if code == 0 || !defined { None } else { Some(code) }
}

/// A node ID made safe for a file name: `@`, `/`, `\` and `:` become `-`.
pub open spec fn file_safe(s: Seq<char>) -> Seq<char> {
    s.map_values(|c: char| if c == '@' || c == '/' || c == '\\' || c == ':' { '-' } else { c })
}

/// `s` made safe for a file name.
pub(crate) fn file_safe_name(s: &str) -> (r: String)
    ensures
        r@ == file_safe(s@),
{
    let n = s.unicode_len();
    let mut out = String::new();
    let mut i: usize = 0;
    while i < n
        invariant
            n == s@.len(),
            i <= n,
            out@ == file_safe(s@.take(i as int)),
        decreases n - i,
    {
        let c = s.get_char(i);
        proof {
            assert(file_safe(s@.take(i + 1)) =~= file_safe(s@.take(i as int)).push(file_safe(s@)[i as int]));
        }
        if c == '@' || c == '/' || c == '\\' || c == ':' {
            out.append("-");
            proof {
                reveal_strlit("-");
                assert("-"@ =~= seq!['-']);
            }
        } else {
            out.append(s.substring_char(i, i + 1));
            proof {
                assert(s@.subrange(i as int, i + 1) =~= seq![c]);
            }
        }
        proof {
            assert(out@ =~= file_safe(s@.take(i + 1)));
        }
        i = i + 1;
    }
    assert(s@.take(n as int) =~= s@);
    out
}

/// The database of the lock manager: the node's shared database when one
/// is configured, else a SQLite file of its own named after the node.
pub fn lock_db_url(db_url: Option<&str>, node_id: &str) -> (r: String)
    ensures
        r@ == match db_url {
            Some(u) => u@,
            None => "sqlite:///tmp/plexspaces-"@ + file_safe(node_id@) + ".db?mode=rwc"@,
        },
{
    match db_url {
        Some(u) => owned(u),
        None => {
            let mut r = owned("sqlite:///tmp/plexspaces-");
            r.append(file_safe_name(node_id).as_str());
            r.append(".db?mode=rwc");
            r
        },
    }
}

} // verus!
