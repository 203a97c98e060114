//! Reading the SSH target of a remote host that the Codex app manages.
use vstd::prelude::*;

use crate::json::{json_get, json_get_exec, members_get, JsonMember, JsonValue};
use crate::text::{char_is_control, char_is_ws, first_where, has_char, is_control, is_ws, slice_chars, str_chars, string_from, trim, trim_chars};

verus! {

/// Where to connect over SSH.
#[derive(Debug, Clone)]
pub struct SshTarget {
    pub user: String,
    pub host: String,
    pub port: Option<u16>,
}

/// Why no SSH target could be determined.
#[derive(Debug, Clone, Copy, PartialEq, Eq, Structural)]
pub enum SshValidation {
    HostIdRequired,
    CannotResolveHost,
    InvalidPort,
    CannotDetermineHost,
    InvalidHost,
}

impl SshValidation {
    /// The message shown for this error.
    pub fn message(&self) -> (r: &'static str)
        ensures
            r@ == ssh_message(*self),
    {
        match self {
            SshValidation::HostIdRequired => "Remote host id is required",
            SshValidation::CannotResolveHost => "Cannot resolve remote SSH host for this file",
            SshValidation::InvalidPort => "Invalid SSH port",
            SshValidation::CannotDetermineHost => "Cannot determine remote SSH host for this file",
            SshValidation::InvalidHost => "Invalid SSH host",
        }
    }
}

/// The message of an SSH error.
pub open spec fn ssh_message(e: SshValidation) -> Seq<char> {
    match e {
        SshValidation::HostIdRequired => "Remote host id is required"@,
        SshValidation::CannotResolveHost => "Cannot resolve remote SSH host for this file"@,
        SshValidation::InvalidPort => "Invalid SSH port"@,
        SshValidation::CannotDetermineHost => "Cannot determine remote SSH host for this file"@,
        SshValidation::InvalidHost => "Invalid SSH host"@,
    }
}

/// The number written by the decimal digits `s`.
pub open spec fn digits_value(s: Seq<char>) -> nat
    decreases s.len(),
{
    if s.len() == 0 {
        0
    } else {
        digits_value(s.drop_last()) * 10 + ((s.last() as u32) - ('0' as u32)) as nat
    }
}

/// Only ASCII digits.
pub open spec fn all_digits(s: Seq<char>) -> bool {
    forall|i: int| 0 <= i < s.len() ==> '0' <= #[trigger] s[i] && s[i] <= '9'
}

/// A port written in decimal: none for empty text, an error unless it is
/// digits naming a number from 1 to 65535.
pub open spec fn port_str_spec(s: Seq<char>) -> Result<Option<u16>, SshValidation> {
    if s.len() == 0 {
        Ok(None)
    } else if !all_digits(s) || digits_value(s) == 0 || digits_value(s) > 65535 {
        Err(SshValidation::InvalidPort)
    } else {
        Ok(Some(digits_value(s) as u16))
    }
}

pub proof fn lemma_digits_value_mono(s: Seq<char>, i: int)
    requires
        0 <= i <= s.len(),
        all_digits(s),
    ensures
        digits_value(s.take(i)) <= digits_value(s),
    decreases s.len() - i,
{
    if i < s.len() {
        lemma_digits_value_mono(s, i + 1);
        assert(s.take(i + 1).drop_last() =~= s.take(i));
        assert('0' <= s[i] && s[i] <= '9');
        assert(digits_value(s.take(i + 1)) == digits_value(s.take(i)) * 10 + ((s[i] as u32) - ('0' as u32)) as nat);
    } else {
        assert(s.take(i) =~= s);
    }
}

/// Reads a decimal port.
pub fn parse_port_str(value: &[char]) -> (r: Result<Option<u16>, SshValidation>)
    ensures
        r == port_str_spec(value@),
{
    if value.len() == 0 {
        return Ok(None);
    }
    let mut i: usize = 0;
    while i < value.len()
        invariant
            i <= value@.len(),
            forall|j: int| 0 <= j < i ==> '0' <= #[trigger] value@[j] && value@[j] <= '9',
        decreases value@.len() - i,
    {
        if !('0' <= value[i] && value[i] <= '9') {
            return Err(SshValidation::InvalidPort);
        }
        i = i + 1;
    }
    let mut n: u32 = 0;
    let mut i: usize = 0;
    while i < value.len()
        invariant
            i <= value@.len(),
            all_digits(value@),
            n as nat == digits_value(value@.take(i as int)),
            n <= 65535,
        decreases value@.len() - i,
    {
        assert(value@.take(i as int + 1).drop_last() =~= value@.take(i as int));
        let d = (value[i] as u32) - ('0' as u32);
        let next = n * 10 + d;
        if next > 65535 {
            proof {
                lemma_digits_value_mono(value@, i as int + 1);
            }
            return Err(SshValidation::InvalidPort);
        }
        n = next;
        i = i + 1;
    }
    assert(value@.take(value@.len() as int) =~= value@);
    if n == 0 {
        return Err(SshValidation::InvalidPort);
    }
    Ok(Some(n as u16))
}

/// The text of a string or number value, trimmed for strings; empty for anything else.
pub open spec fn string_value_spec(v: Option<JsonValue>) -> Seq<char> {
    match v {
        Some(JsonValue::Str(s)) => trim(s@),
        Some(JsonValue::Number(text, _)) => text@,
        _ => Seq::empty(),
    }
}

/// The text of a string or number value.
pub fn string_value(v: Option<&JsonValue>) -> (r: String)
    ensures
        r@ == string_value_spec(match v {
            Some(x) => Some(*x),
            None => None,
        }),
{
    match v {
        Some(JsonValue::Str(s)) => crate::text::trim_str(s.as_str()),
        Some(JsonValue::Number(text, _)) => text.clone(),
        _ => String::new(),
    }
}

/// A host made only of characters allowed in a host name; brackets must
/// enclose the whole host, and their content must be an IPv6 address (which
/// `inner_is_ipv6` tells).
pub open spec fn host_spec(host: Seq<char>, inner_is_ipv6: bool) -> Result<Seq<char>, SshValidation> {
    let h = trim(host);
    if h.len() == 0 {
        Err(SshValidation::CannotDetermineHost)
    } else if exists|i: int|
        0 <= i < h.len() && (is_control(#[trigger] h[i]) || is_ws(h[i]) || h[i] == '/' || h[i] == '?' || h[i]
            == '#' || h[i] == '@') {
        Err(SshValidation::InvalidHost)
    } else if h[0] == '[' || h.last() == ']' {
        if !(h[0] == '[' && h.last() == ']') || !inner_is_ipv6 {
            Err(SshValidation::InvalidHost)
        } else {
            Ok(h)
        }
    } else if has_char(h, '[') || has_char(h, ']') {
        Err(SshValidation::InvalidHost)
    } else {
        Ok(h)
    }
}

/// Checks a host. `inner_is_ipv6` tells whether the text between the
/// brackets of a bracketed host is an IPv6 address.
pub fn validate_ssh_host(host: &str, inner_is_ipv6: bool) -> (r: Result<String, SshValidation>)
    ensures
        match r {
            Ok(h) => host_spec(host@, inner_is_ipv6) == Ok::<Seq<char>, SshValidation>(h@),
            Err(e) => host_spec(host@, inner_is_ipv6) == Err::<Seq<char>, SshValidation>(e),
        },
{
    let h = trim_chars(str_chars(host).as_slice());
    if h.len() == 0 {
        return Err(SshValidation::CannotDetermineHost);
    }
    let mut i: usize = 0;
    while i < h.len()
        invariant
            i <= h@.len(),
            h@ == trim(host@),
            h@.len() > 0,
            forall|j: int|
                0 <= j < i ==> !(is_control(#[trigger] h@[j]) || is_ws(h@[j]) || h@[j] == '/' || h@[j] == '?'
                    || h@[j] == '#' || h@[j] == '@'),
        decreases h@.len() - i,
    {
        let c = h[i];
        if char_is_control(c) || char_is_ws(c) || c == '/' || c == '?' || c == '#' || c == '@' {
            assert(is_control(h@[i as int]) || is_ws(h@[i as int]) || h@[i as int] == '/' || h@[i as int] == '?'
                || h@[i as int] == '#' || h@[i as int] == '@');
            return Err(SshValidation::InvalidHost);
        }
        i = i + 1;
    }
    let n = h.len();
    if h[0] == '[' || h[n - 1] == ']' {
        if !(h[0] == '[' && h[n - 1] == ']') || !inner_is_ipv6 {
            return Err(SshValidation::InvalidHost);
        }
        return Ok(string_from(h.as_slice()));
    }
    if crate::text::has_char_exec(h.as_slice(), '[') || crate::text::has_char_exec(h.as_slice(), ']') {
        return Err(SshValidation::InvalidHost);
    }
    Ok(string_from(h.as_slice()))
}

} // verus!

verus! {

/// Position of the last `c` in `s`.
pub open spec fn last_index_of(s: Seq<char>, c: char) -> Option<int>
    decreases s.len(),
{
    if s.len() == 0 {
        None
    } else if s.last() == c {
        Some(s.len() - 1)
    } else {
        last_index_of(s.drop_last(), c)
    }
}

/// How many times `c` occurs in `s`.
pub open spec fn count_char(s: Seq<char>, c: char) -> nat
    decreases s.len(),
{
    if s.len() == 0 {
        0
    } else {
        count_char(s.drop_last(), c) + if s.last() == c { 1nat } else { 0nat }
    }
}

/// A result with its user and host trimmed.
pub open spec fn trimmed_parts(user: Seq<char>, host: Seq<char>, port: Result<Option<u16>, SshValidation>) -> Result<
    (Seq<char>, Seq<char>, Option<u16>),
    SshValidation,
> {
    match port {
        Ok(p) => Ok((trim(user), trim(host), p)),
        Err(e) => Err(e),
    }
}

/// An SSH authority `user@host:port` split into user, host and port: the
/// user is what comes before the last `@`; a bracketed host ends at its
/// first `]` and may be followed by `:port`; an unbracketed host with one
/// `:` followed by digits has a port. Empty parts stay empty.
pub open spec fn authority_spec(value: Seq<char>) -> Result<(Seq<char>, Seq<char>, Option<u16>), SshValidation> {
    let a0 = trim(value);
    if a0.len() == 0 {
        Ok((Seq::empty(), Seq::empty(), None))
    } else {
        let user = match last_index_of(a0, '@') {
            Some(i) => a0.take(i),
            None => Seq::empty(),
        };
        let a = match last_index_of(a0, '@') {
            Some(i) => a0.skip(i + 1),
            None => a0,
        };
        if a.len() > 0 && a[0] == '[' {
            match first_where(a, |c: char| c == ']') {
                Some(c) => {
                    let suffix = a.skip(c + 1);
                    if suffix.len() > 0 && suffix[0] == ':' {
                        trimmed_parts(user, a.take(c + 1), port_str_spec(suffix.skip(1)))
                    } else {
                        Ok((trim(user), trim(a.take(c + 1)), None))
                    }
                },
                None => Ok((trim(user), trim(a), None)),
            }
        } else if count_char(a, ':') == 1 {
            match last_index_of(a, ':') {
                Some(i) => if a.skip(i + 1).len() > 0 && all_digits(a.skip(i + 1)) {
                    trimmed_parts(user, a.take(i), port_str_spec(a.skip(i + 1)))
                } else {
                    Ok((trim(user), trim(a), None))
                },
                None => Ok((trim(user), trim(a), None)),
            }
        } else {
            Ok((trim(user), trim(a), None))
        }
    }
}

/// Position of the last `c` in `v`.
fn last_index_exec(v: &[char], c: char) -> (r: Option<usize>)
    ensures
        match r {
            Some(i) => last_index_of(v@, c) == Some(i as int) && i < v@.len(),
            None => last_index_of(v@, c) is None,
        },
{
    let mut k: usize = v.len();
    assert(v@.take(k as int) =~= v@);
    while k > 0 && v[k - 1] != c
        invariant
            k <= v@.len(),
            last_index_of(v@.take(k as int), c) == last_index_of(v@, c),
        decreases k,
    {
        assert(v@.take(k as int).drop_last() =~= v@.take(k - 1));
        k = k - 1;
    }
    if k == 0 {
        None
    } else {
        Some(k - 1)
    }
}

/// How many times `c` occurs in `v`.
fn count_char_exec(v: &[char], c: char) -> (r: usize)
    ensures
        r == count_char(v@, c),
{
    let mut n: usize = 0;
    let mut i: usize = 0;
    while i < v.len()
        invariant
            i <= v@.len(),
            n == count_char(v@.take(i as int), c),
            n <= i,
        decreases v@.len() - i,
    {
        assert(v@.take(i + 1).drop_last() =~= v@.take(i as int));
        if v[i] == c {
            n = n + 1;
        }
        i = i + 1;
    }
    assert(v@.take(v@.len() as int) =~= v@);
    n
}

/// Splits an SSH authority `user@host:port` into user, host and port.
pub fn split_ssh_authority(value: &str) -> (r: Result<(String, String, Option<u16>), SshValidation>)
    ensures
        match r {
            Ok((u, h, p)) => authority_spec(value@) == Ok::<(Seq<char>, Seq<char>, Option<u16>), SshValidation>(
                (u@, h@, p),
            ),
            Err(e) => authority_spec(value@) == Err::<(Seq<char>, Seq<char>, Option<u16>), SshValidation>(e),
        },
{
    let a0 = trim_chars(str_chars(value).as_slice());
    if a0.len() == 0 {
        return Ok((String::new(), String::new(), None));
    }
    let at = last_index_exec(a0.as_slice(), '@');
    let (user, a) = match at {
        Some(i) => (slice_chars(a0.as_slice(), 0, i), slice_chars(a0.as_slice(), i + 1, a0.len())),
        None => (Vec::new(), slice_chars(a0.as_slice(), 0, a0.len())),
    };
    assert(user@ == match last_index_of(a0@, '@') {
        Some(i) => a0@.take(i),
        None => Seq::<char>::empty(),
    });
    assert(a@ == match last_index_of(a0@, '@') {
        Some(i) => a0@.skip(i + 1),
        None => a0@,
    });
    let user_t = string_from(trim_chars(user.as_slice()).as_slice());
    if a.len() > 0 && a[0] == '[' {
        let c = crate::text::find_char_from(a.as_slice(), ']', 0);
        proof {
            crate::text::lemma_first_where_exact(a@, |c: char| c == ']', c as int);
        }
        if c < a.len() {
            let host = string_from(trim_chars(slice_chars(a.as_slice(), 0, c + 1).as_slice()).as_slice());
            let suffix = slice_chars(a.as_slice(), c + 1, a.len());
            assert(suffix@ =~= a@.skip(c + 1));
            if suffix.len() > 0 && suffix[0] == ':' {
                let raw = slice_chars(suffix.as_slice(), 1, suffix.len());
                assert(raw@ =~= suffix@.skip(1));
                return match parse_port_str(raw.as_slice()) {
                    Ok(p) => Ok((user_t, host, p)),
                    Err(e) => Err(e),
                };
            }
            return Ok((user_t, host, None));
        }
        return Ok((user_t, string_from(trim_chars(a.as_slice()).as_slice()), None));
    }
    if count_char_exec(a.as_slice(), ':') == 1 {
        match last_index_exec(a.as_slice(), ':') {
            Some(i) => {
                let raw = slice_chars(a.as_slice(), i + 1, a.len());
                assert(raw@ =~= a@.skip(i + 1));
                let mut all = true;
                let mut j: usize = 0;
                while j < raw.len()
                    invariant
                        j <= raw@.len(),
                        all == forall|k: int| 0 <= k < j ==> '0' <= #[trigger] raw@[k] && raw@[k] <= '9',
                    decreases raw@.len() - j,
                {
                    if !('0' <= raw[j] && raw[j] <= '9') {
                        all = false;
                    }
                    j = j + 1;
                }
                if raw.len() > 0 && all {
                    let host = string_from(trim_chars(slice_chars(a.as_slice(), 0, i).as_slice()).as_slice());
                    return match parse_port_str(raw.as_slice()) {
                        Ok(p) => Ok((user_t, host, p)),
                        Err(e) => Err(e),
                    };
                }
            },
            None => {},
        }
    }
    Ok((user_t, string_from(trim_chars(a.as_slice()).as_slice()), None))
}

} // verus!

verus! {

/// A port given as a JSON value: none when absent, null or blank text;
/// decimal text or a whole number from 1 to 65535; an error otherwise.
pub open spec fn port_value_spec(v: Option<JsonValue>) -> Result<Option<u16>, SshValidation> {
    match v {
        None => Ok(None),
        Some(JsonValue::Null) => Ok(None),
        Some(JsonValue::Str(s)) => if trim(s@).len() == 0 {
            Ok(None)
        } else {
            port_str_spec(trim(s@))
        },
        Some(JsonValue::Number(_, n)) => match n {
            Some(x) => if 1 <= x <= 65535 {
                Ok(Some(x as u16))
            } else {
                Err(SshValidation::InvalidPort)
            },
            None => Err(SshValidation::InvalidPort),
        },
        _ => Err(SshValidation::InvalidPort),
    }
}

/// Reads a port given as a JSON value.
pub fn parse_port_value(value: Option<&JsonValue>) -> (r: Result<Option<u16>, SshValidation>)
    ensures
        r == port_value_spec(match value {
            Some(x) => Some(*x),
            None => None,
        }),
{
    match value {
        None => Ok(None),
        Some(JsonValue::Null) => Ok(None),
        Some(JsonValue::Str(s)) => {
            let t = trim_chars(str_chars(s.as_str()).as_slice());
            if t.len() == 0 {
                Ok(None)
            } else {
                parse_port_str(t.as_slice())
            }
        },
        Some(JsonValue::Number(_, n)) => match n {
            Some(x) => if 1 <= *x && *x <= 65535 {
                Ok(Some(*x as u16))
            } else {
                Err(SshValidation::InvalidPort)
            },
            None => Err(SshValidation::InvalidPort),
        },
        _ => Err(SshValidation::InvalidPort),
    }
}

/// `a`, or `b` when `a` is empty.
pub open spec fn or_nonempty(a: Seq<char>, b: Seq<char>) -> Seq<char> {
    if a.len() == 0 {
        b
    } else {
        a
    }
}

/// The text of member `key` of a connection.
pub open spec fn member_text(ms: Seq<JsonMember>, key: Seq<char>) -> Seq<char> {
    string_value_spec(members_get(ms, key))
}

/// The user, host (not yet checked) and port of a remote connection that
/// Codex manages: the host from `sshHost` (or `hostname`), else the alias;
/// the user from `sshUser` (or `user`), else the one in the host; the port
/// from `sshPort`, else the one in the host.
pub open spec fn connection_parts_spec(ms: Seq<JsonMember>) -> Result<(Seq<char>, Seq<char>, Option<u16>), SshValidation> {
    let ssh_host = or_nonempty(member_text(ms, "sshHost"@), member_text(ms, "hostname"@));
    let alias = or_nonempty(member_text(ms, "sshAlias"@), member_text(ms, "alias"@));
    match authority_spec(ssh_host) {
        Err(e) => Err(e),
        Ok((au, ah, ap)) => {
            let host = or_nonempty(ah, alias);
            let user = or_nonempty(or_nonempty(member_text(ms, "sshUser"@), member_text(ms, "user"@)), au);
            let port = match members_get(ms, "sshPort"@) {
                None => Ok(ap),
                Some(JsonValue::Null) => Ok(ap),
                Some(JsonValue::Str(s)) => if trim(s@).len() == 0 {
                    Ok(ap)
                } else {
                    port_value_spec(Some(JsonValue::Str(s)))
                },
                Some(v) => port_value_spec(Some(v)),
            };
            match port {
                Ok(p) => Ok((user, host, p)),
                Err(e) => Err(e),
            }
        },
    }
}

/// `a`, or `b` when `a` is empty.
fn or_nonempty_exec(a: String, b: String) -> (r: String)
    ensures
        r@ == or_nonempty(a@, b@),
{
    if str_chars(a.as_str()).len() == 0 {
        b
    } else {
        a
    }
}

/// The user, host (not yet checked) and port of a remote connection.
pub fn managed_connection_parts(connection: &Vec<JsonMember>) -> (r: Result<(String, String, Option<u16>), SshValidation>)
    ensures
        match r {
            Ok((u, h, p)) => connection_parts_spec(connection@) == Ok::<(Seq<char>, Seq<char>, Option<u16>), SshValidation>(
                (u@, h@, p),
            ),
            Err(e) => connection_parts_spec(connection@) == Err::<(Seq<char>, Seq<char>, Option<u16>), SshValidation>(e),
        },
{
    let ssh_host = or_nonempty_exec(
        string_value(crate::json::members_get_exec(connection, "sshHost")),
        string_value(crate::json::members_get_exec(connection, "hostname")),
    );
    let alias = or_nonempty_exec(
        string_value(crate::json::members_get_exec(connection, "sshAlias")),
        string_value(crate::json::members_get_exec(connection, "alias")),
    );
    let (au, ah, ap) = match split_ssh_authority(ssh_host.as_str()) {
        Ok(parts) => parts,
        Err(e) => return Err(e),
    };
    let host = or_nonempty_exec(ah, alias);
    let user = or_nonempty_exec(
        or_nonempty_exec(
            string_value(crate::json::members_get_exec(connection, "sshUser")),
            string_value(crate::json::members_get_exec(connection, "user")),
        ),
        au,
    );
    let port_value = crate::json::members_get_exec(connection, "sshPort");
    let port = match port_value {
        None => Ok(ap),
        Some(JsonValue::Null) => Ok(ap),
        Some(JsonValue::Str(s)) => if crate::text::is_blank(s.as_str()) {
            Ok(ap)
        } else {
            parse_port_value(port_value)
        },
        Some(_) => parse_port_value(port_value),
    };
    match port {
        Ok(p) => Ok((user, host, p)),
        Err(e) => Err(e),
    }
}

/// The SSH target of a remote connection that Codex manages.
/// `inner_is_ipv6` tells whether the text between the brackets of the
/// connection's host (as `managed_connection_parts` gives it) is an IPv6 address.
pub fn target_from_managed_remote_connection(connection: &Vec<JsonMember>, inner_is_ipv6: bool) -> (r: Result<
    SshTarget,
    SshValidation,
>)
    ensures
        match connection_parts_spec(connection@) {
            Err(e) => r == Err::<SshTarget, SshValidation>(e),
            Ok((u, h, p)) => match host_spec(h, inner_is_ipv6) {
                Err(e) => r == Err::<SshTarget, SshValidation>(e),
                Ok(hv) => r matches Ok(t) && t.user@ == u && t.host@ == hv && t.port == p,
            },
        },
{
    let (user, host, port) = match managed_connection_parts(connection) {
        Ok(parts) => parts,
        Err(e) => return Err(e),
    };
    match validate_ssh_host(host.as_str(), inner_is_ipv6) {
        Ok(h) => Ok(SshTarget { user, host: h, port }),
        Err(e) => Err(e),
    }
}

/// The position, in the state's managed remote connections, of the first
/// connection object whose `hostId` is `host_id`.
pub open spec fn connection_index(conns: Seq<JsonValue>, host_id: Seq<char>) -> Option<int>
    decreases conns.len(),
{
    if conns.len() == 0 {
        None
    } else {
        match connection_index(conns.drop_last(), host_id) {
            Some(i) => Some(i),
            None => match conns.last() {
                JsonValue::Object(ms) => if member_text(ms@, "hostId"@) == host_id {
                    Some(conns.len() - 1)
                } else {
                    None
                },
                _ => None,
            },
        }
    }
}

/// The managed remote connections of Codex's global state.
pub open spec fn managed_connections(state: JsonValue) -> Seq<JsonValue> {
    match json_get(state, "codex-managed-remote-connections"@) {
        Some(JsonValue::Array(a)) => a@,
        _ => Seq::empty(),
    }
}

/// The members of the managed remote connection with id `host_id`, if the
/// state has one.
pub fn find_managed_connection<'a>(state: &'a JsonValue, host_id: &str) -> (r: Option<&'a Vec<JsonMember>>)
    ensures
        match r {
            Some(ms) => connection_index(managed_connections(*state), host_id@) matches Some(i)
                && managed_connections(*state)[i] == JsonValue::Object(*ms),
            None => connection_index(managed_connections(*state), host_id@) is None,
        },
{
    let conns = match json_get_exec(state, "codex-managed-remote-connections") {
        Some(JsonValue::Array(a)) => a,
        _ => return None,
    };
    let ghost cs = conns@;
    assert(cs == managed_connections(*state));
    let mut i: usize = 0;
    while i < conns.len()
        invariant
            i <= cs.len(),
            cs == conns@,
            cs == managed_connections(*state),
            connection_index(cs.take(i as int), host_id@) is None,
        decreases cs.len() - i,
    {
        assert(cs.take(i + 1).drop_last() =~= cs.take(i as int));
        match &conns[i] {
            JsonValue::Object(ms) => {
                let id = string_value(crate::json::members_get_exec(ms, "hostId"));
                if crate::text::str_eq(id.as_str(), host_id) {
                    proof {
                        lemma_connection_index_prefix(cs, i as int + 1, host_id@);
                    }
                    return Some(ms);
                }
            },
            _ => {},
        }
        i = i + 1;
    }
    assert(cs.take(cs.len() as int) =~= cs);
    None
}

/// A connection found in a prefix is the one found in the whole list.
proof fn lemma_connection_index_prefix(cs: Seq<JsonValue>, k: int, host_id: Seq<char>)
    requires
        0 <= k <= cs.len(),
        connection_index(cs.take(k), host_id) is Some,
    ensures
        connection_index(cs, host_id) == connection_index(cs.take(k), host_id),
    decreases cs.len() - k,
{
    if k < cs.len() {
        assert(cs.take(k + 1).drop_last() =~= cs.take(k));
        lemma_connection_index_prefix(cs, k + 1, host_id);
    } else {
        assert(cs.take(k) =~= cs);
    }
}

/// The SSH target of remote host `host_id` in Codex's global state.
/// `inner_is_ipv6` tells whether the text between the brackets of that
/// connection's host is an IPv6 address.
pub fn resolve_ssh_target_in_state(host_id: &str, state: &JsonValue, inner_is_ipv6: bool) -> (r: Result<
    SshTarget,
    SshValidation,
>)
    ensures
        host_id@.len() == 0 ==> r == Err::<SshTarget, SshValidation>(SshValidation::HostIdRequired),
        host_id@.len() > 0 ==> match connection_index(managed_connections(*state), host_id@) {
            None => r == Err::<SshTarget, SshValidation>(SshValidation::CannotResolveHost),
            Some(i) => managed_connections(*state)[i] matches JsonValue::Object(ms) && match connection_parts_spec(ms@) {
                Err(e) => r == Err::<SshTarget, SshValidation>(e),
                Ok((u, h, p)) => match host_spec(h, inner_is_ipv6) {
                    Err(e) => r == Err::<SshTarget, SshValidation>(e),
                    Ok(hv) => r matches Ok(t) && t.user@ == u && t.host@ == hv && t.port == p,
                },
            },
        },
{
    if str_chars(host_id).len() == 0 {
        return Err(SshValidation::HostIdRequired);
    }
    match find_managed_connection(state, host_id) {
        Some(ms) => target_from_managed_remote_connection(ms, inner_is_ipv6),
        None => Err(SshValidation::CannotResolveHost),
    }
}

} // verus!
