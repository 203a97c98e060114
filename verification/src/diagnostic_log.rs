//! What the diagnostic log keeps out of its records: secrets in text and in
//! values, over-long strings, odd event names, and bursts of one event.
use vstd::prelude::*;

use crate::relay_rotation::{
    lemma_filter_take_step, lemma_pairs_index, pair_position, pairs_get, pairs_index, pairs_insert,
};
use crate::diagnostic_value::{sanitize_diagnostic_value, sanitized_value};
use crate::json::{is_count, JsonMember, JsonValue};
use crate::text::{decimal, decimal_string};
use crate::text::{
    append_str, ascii_lower, char_ascii_lower, char_is_ascii_alnum, char_is_ws, ends_with,
    ends_with_chars, find_from, is_ascii_alnum, is_ws, occurs_at, owned, slice_chars, str_chars,
    str_eq, string_from, trim, trim_chars,
};

verus! {

/// What a secret is replaced with.
pub const REDACTED: &'static str = "[redacted]";

/// A character that ends a secret token.
pub open spec fn is_token_delimiter(c: char) -> bool {
    is_ws(c) || c == '"' || c == '\'' || c == ',' || c == ';' || c == ')' || c == ']' || c == '}'
}

/// The first position at or after `from` where `m` occurs in `s`.
pub open spec fn next_occurrence(s: Seq<char>, m: Seq<char>, from: int) -> Option<int>
    decreases s.len() + 1 - from,
{
    if from < 0 || from > s.len() {
        None
    } else if occurs_at(s, m, from) {
        Some(from)
    } else {
        next_occurrence(s, m, from + 1)
    }
}

/// Where the token starting at `from` ends: the first delimiter at or after
/// `from`, or the end of `s`.
pub open spec fn token_end(s: Seq<char>, from: int) -> int
    decreases s.len() - from,
{
    if from < 0 || from >= s.len() {
        s.len() as int
    } else if is_token_delimiter(s[from]) {
        from
    } else {
        token_end(s, from + 1)
    }
}

pub proof fn lemma_token_end(s: Seq<char>, from: int)
    requires
        0 <= from,
    ensures
        from <= s.len() ==> from <= token_end(s, from) <= s.len(),
        forall|j: int| from <= j < token_end(s, from) ==> !is_token_delimiter(#[trigger] s[j]),
        token_end(s, from) < s.len() ==> is_token_delimiter(s[token_end(s, from)]),
    decreases s.len() - from,
{
    if from < s.len() && !is_token_delimiter(s[from]) {
        lemma_token_end(s, from + 1);
    }
}

pub proof fn lemma_next_occurrence(s: Seq<char>, m: Seq<char>, from: int)
    requires
        0 <= from,
    ensures
        match next_occurrence(s, m, from) {
            Some(i) => from <= i && occurs_at(s, m, i) && forall|k: int| from <= k < i ==> !occurs_at(s, m, k),
            None => forall|k: int| from <= k ==> !occurs_at(s, m, k),
        },
    decreases s.len() + 1 - from,
{
    if from <= s.len() && !occurs_at(s, m, from) {
        lemma_next_occurrence(s, m, from + 1);
    }
}

/// `s` from position `pos` on, with the token after each occurrence of `m`
/// replaced by the redaction mark.
pub open spec fn redact_from(s: Seq<char>, m: Seq<char>, pos: int) -> Seq<char>
    decreases s.len() - pos,
{
    if m.len() == 0 || pos < 0 || pos > s.len() {
        s.subrange(pos, s.len() as int)
    } else {
        match next_occurrence(s, m, pos) {
            None => s.subrange(pos, s.len() as int),
            Some(i) => {
                proof {
                    lemma_next_occurrence(s, m, pos);
                    lemma_token_end(s, i + m.len());
                }
                s.subrange(pos, i) + m + REDACTED@ + redact_from(s, m, token_end(s, i + m.len()))
            },
        }
    }
}

/// `s` with the token after each occurrence of `m` replaced by the redaction mark.
pub open spec fn redact_marker(s: Seq<char>, m: Seq<char>) -> Seq<char> {
    redact_from(s, m, 0)
}

/// Redacts the token that follows each occurrence of `marker` in `input`.
pub fn redact_after_marker(input: &[char], marker: &[char]) -> (out: Vec<char>)
    requires
        marker@.len() > 0,
    ensures
        out@ == redact_marker(input@, marker@),
{
    let ghost s = input@;
    let ghost m = marker@;
    let mut out: Vec<char> = Vec::new();
    let mut pos: usize = 0;
    loop
        invariant
            s == input@,
            m == marker@,
            m.len() > 0,
            pos <= s.len(),
            out@ + redact_from(s, m, pos as int) == redact_from(s, m, 0),
        decreases s.len() - pos,
    {
        proof {
            lemma_next_occurrence(s, m, pos as int);
        }
        match find_from(input, marker, pos) {
            None => {
                assert(next_occurrence(s, m, pos as int) is None) by {
                    if next_occurrence(s, m, pos as int) is Some {
                        let i = next_occurrence(s, m, pos as int)->0;
                        assert(occurs_at(s, m, i));
                    }
                }
                let rest = slice_chars(input, pos, input.len());
                let ghost before = out@;
                let mut k: usize = 0;
                while k < rest.len()
                    invariant
                        k <= rest@.len(),
                        out@ == before + rest@.take(k as int),
                    decreases rest@.len() - k,
                {
                    out.push(rest[k]);
                    assert(rest@.take(k as int + 1) =~= rest@.take(k as int).push(rest@[k as int]));
                    k = k + 1;
                }
                assert(rest@.take(rest@.len() as int) =~= rest@);
                return out;
            },
            Some(i) => {
                assert(next_occurrence(s, m, pos as int) == Some(i as int)) by {
                    match next_occurrence(s, m, pos as int) {
                        Some(j) => {
                            if j < i {
                                assert(!occurs_at(s, m, j));
                            }
                            if i < j {
                                assert(!occurs_at(s, m, i as int));
                            }
                        },
                        None => {
                            assert(!occurs_at(s, m, i as int));
                        },
                    }
                }
                let n = input.len();
                assert(i + m.len() <= n);
                let start = i + marker.len();
                proof {
                    lemma_token_end(s, start as int);
                }
                let mut e: usize = start;
                while e < input.len() && !is_delimiter_exec(input[e])
                    invariant
                        start <= e <= s.len(),
                        s == input@,
                        forall|j: int| start <= j < e ==> !is_token_delimiter(#[trigger] s[j]),
                        token_end(s, start as int) == token_end(s, e as int),
                    decreases s.len() - e,
                {
                    e = e + 1;
                }
                let ghost before = out@;
                let prefix = slice_chars(input, pos, i);
                let mut k: usize = 0;
                while k < prefix.len()
                    invariant
                        k <= prefix@.len(),
                        out@ == before + prefix@.take(k as int),
                    decreases prefix@.len() - k,
                {
                    out.push(prefix[k]);
                    assert(prefix@.take(k as int + 1) =~= prefix@.take(k as int).push(prefix@[k as int]));
                    k = k + 1;
                }
                assert(prefix@.take(prefix@.len() as int) =~= prefix@);
                let mut k: usize = 0;
                let ghost mid = out@;
                while k < marker.len()
                    invariant
                        k <= m.len(),
                        m == marker@,
                        out@ == mid + m.take(k as int),
                    decreases m.len() - k,
                {
                    out.push(marker[k]);
                    assert(m.take(k as int + 1) =~= m.take(k as int).push(m[k as int]));
                    k = k + 1;
                }
                assert(m.take(m.len() as int) =~= m);
                append_str(&mut out, REDACTED);
                assert(token_end(s, start as int) == e);
                assert(out@ + redact_from(s, m, e as int) == redact_from(s, m, 0)) by {
                    assert(redact_from(s, m, pos as int) == s.subrange(pos as int, i as int) + m + REDACTED@
                        + redact_from(s, m, e as int));
                    assert(out@ == before + s.subrange(pos as int, i as int) + m + REDACTED@);
                }
                pos = e;
            },
        }
    }
}

/// A token delimiter test on one character.
fn is_delimiter_exec(c: char) -> (r: bool)
    ensures
        r == is_token_delimiter(c),
{
    char_is_ws(c) || c == '"' || c == '\'' || c == ',' || c == ';' || c == ')' || c == ']' || c == '}'
}

/// The markers after which a secret token follows, in the order they are applied.
pub open spec fn secret_markers() -> Seq<Seq<char>> {
    seq![
        "sk-"@,
        "sess-"@,
        "Bearer "@,
        "bearer "@,
        "OPENAI_API_KEY="@,
        "OPENAI_API_KEY\":\""@,
        "OPENAI_API_KEY=\\\""@,
        "OPENAI_API_KEY = \""@,
        "OPENAI_API_KEY = \\\""@,
        "experimental_bearer_token = \""@,
        "experimental_bearer_token = \\\""@,
        "access_token\":\""@,
        "access_token\\\":\\\""@,
        "refresh_token\":\""@,
        "refresh_token\\\":\\\""@,
        "id_token\":\""@,
        "id_token\\\":\\\""@,
    ]
}

/// `s` redacted after each marker of `ms` in turn.
pub open spec fn redact_all(s: Seq<char>, ms: Seq<Seq<char>>) -> Seq<char>
    decreases ms.len(),
{
    if ms.len() == 0 {
        s
    } else {
        redact_marker(redact_all(s, ms.drop_last()), ms.last())
    }
}

/// `text` with the secrets that follow the known markers replaced by the redaction mark.
pub open spec fn sanitized_text(text: Seq<char>) -> Seq<char> {
    redact_all(text, secret_markers())
}

/// Redacts the secrets in a piece of text, such as log lines already on disk.
pub fn sanitize_diagnostic_text(text: &str) -> (r: String)
    ensures
        r@ == sanitized_text(text@),
{
    let markers: [&str; 17] = [
        "sk-",
        "sess-",
        "Bearer ",
        "bearer ",
        "OPENAI_API_KEY=",
        "OPENAI_API_KEY\":\"",
        "OPENAI_API_KEY=\\\"",
        "OPENAI_API_KEY = \"",
        "OPENAI_API_KEY = \\\"",
        "experimental_bearer_token = \"",
        "experimental_bearer_token = \\\"",
        "access_token\":\"",
        "access_token\\\":\\\"",
        "refresh_token\":\"",
        "refresh_token\\\":\\\"",
        "id_token\":\"",
        "id_token\\\":\\\"",
    ];
    proof {
        reveal_strlit("sk-");
        reveal_strlit("sess-");
        reveal_strlit("Bearer ");
        reveal_strlit("bearer ");
        reveal_strlit("OPENAI_API_KEY=");
        reveal_strlit("OPENAI_API_KEY\":\"");
        reveal_strlit("OPENAI_API_KEY=\\\"");
        reveal_strlit("OPENAI_API_KEY = \"");
        reveal_strlit("OPENAI_API_KEY = \\\"");
        reveal_strlit("experimental_bearer_token = \"");
        reveal_strlit("experimental_bearer_token = \\\"");
        reveal_strlit("access_token\":\"");
        reveal_strlit("access_token\\\":\\\"");
        reveal_strlit("refresh_token\":\"");
        reveal_strlit("refresh_token\\\":\\\"");
        reveal_strlit("id_token\":\"");
        reveal_strlit("id_token\\\":\\\"");
    }
    let ghost ms = secret_markers();
    assert(markers@.map_values(|x: &str| x@) =~= ms);
    let mut cur = str_chars(text);
    let mut i: usize = 0;
    while i < 17
        invariant
            i <= 17,
            ms == secret_markers(),
            ms.len() == 17,
            markers@.map_values(|x: &str| x@) == ms,
            forall|j: int| 0 <= j < 17 ==> (#[trigger] ms[j]).len() > 0,
            cur@ == redact_all(text@, ms.take(i as int)),
        decreases 17 - i,
    {
        let m = str_chars(markers[i]);
        assert(m@ == ms[i as int]);
        assert(ms.take(i as int + 1).drop_last() =~= ms.take(i as int));
        cur = redact_after_marker(cur.as_slice(), m.as_slice());
        i = i + 1;
    }
    assert(ms.take(17) =~= ms);
    string_from(cur.as_slice())
}

/// Text in which no marker occurs is kept as it is.
pub proof fn law_text_without_markers_is_kept(text: Seq<char>)
    requires
        forall|j: int, k: int| 0 <= j < secret_markers().len() ==> !#[trigger] occurs_at(text, secret_markers()[j], k),
    ensures
        sanitized_text(text) == text,
{
    lemma_redact_all_unchanged(text, secret_markers());
}

proof fn lemma_redact_all_unchanged(text: Seq<char>, ms: Seq<Seq<char>>)
    requires
        forall|j: int, k: int| 0 <= j < ms.len() ==> !#[trigger] occurs_at(text, ms[j], k),
    ensures
        redact_all(text, ms) == text,
    decreases ms.len(),
{
    if ms.len() > 0 {
        assert forall|j: int, k: int| 0 <= j < ms.drop_last().len() implies !#[trigger] occurs_at(text, ms.drop_last()[j], k) by {
            assert(ms.drop_last()[j] == ms[j]);
        }
        lemma_redact_all_unchanged(text, ms.drop_last());
        let m = ms.last();
        assert forall|k: int| 0 <= k implies !occurs_at(text, m, k) by {
            assert(ms[ms.len() - 1] == m);
        }
        lemma_next_occurrence(text, m, 0);
        assert(text.subrange(0, text.len() as int) =~= text);
    }
}

} // verus!

verus! {

/// How many characters a logged string keeps.
pub const MAX_STRING_CHARS: usize = 4096;

/// `s` cut to its first 4096 characters, with a mark when something was cut.
pub open spec fn truncated(s: Seq<char>) -> Seq<char> {
    if s.len() <= MAX_STRING_CHARS {
        s
    } else {
        s.take(MAX_STRING_CHARS as int) + "...[truncated]"@
    }
}

/// Cuts an over-long string.
pub fn truncate_string(value: &str) -> (r: String)
    ensures
        r@ == truncated(value@),
{
    let v = str_chars(value);
    if v.len() <= MAX_STRING_CHARS {
        return string_from(v.as_slice());
    }
    let mut head = slice_chars(v.as_slice(), 0, MAX_STRING_CHARS);
    append_str(&mut head, "...[truncated]");
    assert(v@.subrange(0, MAX_STRING_CHARS as int) =~= v@.take(MAX_STRING_CHARS as int));
    string_from(head.as_slice())
}

/// A key reduced to its ASCII letters and digits, in lowercase.
pub open spec fn key_letters(key: Seq<char>) -> Seq<char> {
    key.filter(|c: char| is_ascii_alnum(c)).map_values(|c: char| ascii_lower(c))
}

/// The key names whose values are secret.
pub open spec fn secret_key_names() -> Seq<Seq<char>> {
    seq![
        "apikey"@,
        "relayapikey"@,
        "openaikey"@,
        "openaiapikey"@,
        "authorization"@,
        "authtoken"@,
        "bearertoken"@,
        "accesstoken"@,
        "refreshtoken"@,
        "idtoken"@,
        "password"@,
        "secret"@,
        "clientsecret"@,
        "credential"@,
        "credentials"@,
        "authcontents"@,
        "tokens"@,
    ]
}

/// The endings of key names whose values are secret.
pub open spec fn secret_key_endings() -> Seq<Seq<char>> {
    seq![
        "apikey"@,
        "secret"@,
        "password"@,
        "credential"@,
        "credentials"@,
        "authtoken"@,
        "accesstoken"@,
        "refreshtoken"@,
        "idtoken"@,
    ]
}

/// A key whose value is secret: its letters name a secret, or end like one.
pub open spec fn is_sensitive_key(key: Seq<char>) -> bool {
    secret_key_names().contains(key_letters(key)) || exists|j: int|
        0 <= j < secret_key_endings().len() && ends_with(key_letters(key), #[trigger] secret_key_endings()[j])
}

/// The ASCII letters and digits of `key`, in lowercase.
pub fn key_letters_exec(key: &str) -> (r: Vec<char>)
    ensures
        r@ == key_letters(key@),
{
    let v = str_chars(key);
    let ghost pred = |c: char| is_ascii_alnum(c);
    let ghost lw = |c: char| ascii_lower(c);
    let mut out: Vec<char> = Vec::new();
    let mut i: usize = 0;
    while i < v.len()
        invariant
            i <= v@.len(),
            v@ == key@,
            pred == (|c: char| is_ascii_alnum(c)),
            lw == (|c: char| ascii_lower(c)),
            out@ == v@.take(i as int).filter(pred).map_values(lw),
        decreases v@.len() - i,
    {
        proof {
            lemma_filter_take_step(v@, pred, i as int);
        }
        if char_is_ascii_alnum(v[i]) {
            let ghost before = out@;
            out.push(char_ascii_lower(v[i]));
            assert(out@ =~= v@.take(i as int + 1).filter(pred).map_values(lw));
        } else {
            assert(out@ =~= v@.take(i as int + 1).filter(pred).map_values(lw));
        }
        i = i + 1;
    }
    assert(v@.take(v@.len() as int) =~= v@);
    out
}

/// Whether the value under `key` is secret.
pub fn sensitive_key(key: &str) -> (r: bool)
    ensures
        r == is_sensitive_key(key@),
{
    let k = key_letters_exec(key);
    let ks = string_from(k.as_slice());
    let names: [&str; 17] = [
        "apikey",
        "relayapikey",
        "openaikey",
        "openaiapikey",
        "authorization",
        "authtoken",
        "bearertoken",
        "accesstoken",
        "refreshtoken",
        "idtoken",
        "password",
        "secret",
        "clientsecret",
        "credential",
        "credentials",
        "authcontents",
        "tokens",
    ];
    let endings: [&str; 9] = [
        "apikey",
        "secret",
        "password",
        "credential",
        "credentials",
        "authtoken",
        "accesstoken",
        "refreshtoken",
        "idtoken",
    ];
    assert(names@.map_values(|x: &str| x@) =~= secret_key_names());
    assert(endings@.map_values(|x: &str| x@) =~= secret_key_endings());
    let mut i: usize = 0;
    while i < 17
        invariant
            i <= 17,
            names@.map_values(|x: &str| x@) == secret_key_names(),
            ks@ == key_letters(key@),
            forall|j: int| 0 <= j < i ==> secret_key_names()[j] != ks@,
        decreases 17 - i,
    {
        if str_eq(ks.as_str(), names[i]) {
            assert(secret_key_names()[i as int] == ks@);
            assert(secret_key_names().contains(ks@));
            return true;
        }
        i = i + 1;
    }
    let mut i: usize = 0;
    while i < 9
        invariant
            i <= 9,
            endings@.map_values(|x: &str| x@) == secret_key_endings(),
            k@ == key_letters(key@),
            !secret_key_names().contains(k@),
            forall|j: int| 0 <= j < i ==> !ends_with(k@, #[trigger] secret_key_endings()[j]),
        decreases 9 - i,
    {
        let e = str_chars(endings[i]);
        if ends_with_chars(k.as_slice(), e.as_slice()) {
            assert(ends_with(k@, secret_key_endings()[i as int]));
            return true;
        }
        i = i + 1;
    }
    false
}

/// A character kept in an event name.
pub open spec fn event_char_ok(c: char) -> bool {
    is_ascii_alnum(c) || c == '_' || c == '-' || c == '.' || c == ':'
}

/// The character an event name keeps for `c`.
pub open spec fn event_char(c: char) -> char {
    if event_char_ok(c) {
        c
    } else {
        '_'
    }
}

/// A character stripped from both ends of an event name.
pub open spec fn is_event_punct(c: char) -> bool {
    c == '.' || c == '_' || c == '-' || c == ':'
}

/// Number of leading characters of `s` that are punctuation.
pub open spec fn lead_punct(s: Seq<char>) -> nat
    decreases s.len(),
{
    if s.len() == 0 {
        0
    } else if is_event_punct(s[0]) {
        1 + lead_punct(s.drop_first())
    } else {
        0
    }
}

/// Number of trailing characters of `s` that are punctuation.
pub open spec fn trail_punct(s: Seq<char>) -> nat
    decreases s.len(),
{
    if s.len() == 0 {
        0
    } else if is_event_punct(s.last()) {
        1 + trail_punct(s.drop_last())
    } else {
        0
    }
}

/// `s` without punctuation at either end.
pub open spec fn strip_punct(s: Seq<char>) -> Seq<char> {
    if lead_punct(s) >= s.len() {
        Seq::empty()
    } else {
        s.subrange(lead_punct(s) as int, s.len() - trail_punct(s))
    }
}

proof fn lemma_lead_punct_exact(s: Seq<char>, k: int)
    requires
        0 <= k <= s.len(),
        forall|i: int| 0 <= i < k ==> is_event_punct(#[trigger] s[i]),
        k < s.len() ==> !is_event_punct(s[k]),
    ensures
        lead_punct(s) == k,
    decreases s.len(),
{
    if k > 0 {
        assert(is_event_punct(s[0]));
        assert forall|i: int| 0 <= i < k - 1 implies is_event_punct(#[trigger] s.drop_first()[i]) by {
            assert(s.drop_first()[i] == s[i + 1]);
        }
        if k - 1 < s.drop_first().len() {
            assert(s.drop_first()[k - 1] == s[k]);
        }
        lemma_lead_punct_exact(s.drop_first(), k - 1);
    }
}

proof fn lemma_trail_punct_exact(s: Seq<char>, k: int)
    requires
        0 <= k <= s.len(),
        forall|i: int| s.len() - k <= i < s.len() ==> is_event_punct(#[trigger] s[i]),
        k < s.len() ==> !is_event_punct(s[s.len() - k - 1]),
    ensures
        trail_punct(s) == k,
    decreases s.len(),
{
    if k > 0 {
        assert(is_event_punct(s.last()));
        let t = s.drop_last();
        assert forall|i: int| t.len() - (k - 1) <= i < t.len() implies is_event_punct(#[trigger] t[i]) by {
            assert(t[i] == s[i]);
        }
        if k - 1 < t.len() {
            assert(t[t.len() - (k - 1) - 1] == s[s.len() - k - 1]);
        }
        lemma_trail_punct_exact(t, k - 1);
    }
}

/// The name an event is logged under: trimmed, odd characters replaced by
/// `_`, punctuation stripped from both ends, at most 128 characters, and a
/// fixed name when nothing is left.
pub open spec fn sanitized_event(event: Seq<char>) -> Seq<char> {
    let cleaned = trim(strip_punct(trim(event).map_values(|c: char| event_char(c))));
    if cleaned.len() == 0 {
        "diagnostic.event"@
    } else if cleaned.len() <= 128 {
        cleaned
    } else {
        cleaned.take(128)
    }
}

fn is_event_punct_exec(c: char) -> (r: bool)
    ensures
        r == is_event_punct(c),
{
    c == '.' || c == '_' || c == '-' || c == ':'
}

/// The name an event is logged under.
pub fn sanitize_event(event: &str) -> (r: String)
    ensures
        r@ == sanitized_event(event@),
{
    let t = trim_chars(str_chars(event).as_slice());
    let ghost f = |c: char| event_char(c);
    let mut mapped: Vec<char> = Vec::new();
    let mut i: usize = 0;
    while i < t.len()
        invariant
            i <= t@.len(),
            f == (|c: char| event_char(c)),
            mapped@ == t@.take(i as int).map_values(f),
        decreases t@.len() - i,
    {
        let c = t[i];
        let ok = char_is_ascii_alnum(c) || c == '_' || c == '-' || c == '.' || c == ':';
        mapped.push(if ok { c } else { '_' });
        assert(mapped@ =~= t@.take(i as int + 1).map_values(f));
        i = i + 1;
    }
    assert(t@.take(t@.len() as int) =~= t@);
    let ghost m = mapped@;
    let mut a: usize = 0;
    while a < mapped.len() && is_event_punct_exec(mapped[a])
        invariant
            a <= m.len(),
            m == mapped@,
            forall|j: int| 0 <= j < a ==> is_event_punct(#[trigger] m[j]),
        decreases m.len() - a,
    {
        a = a + 1;
    }
    proof {
        lemma_lead_punct_exact(m, a as int);
    }
    let stripped = if a >= mapped.len() {
        Vec::new()
    } else {
        let mut b: usize = mapped.len();
        while b > a && is_event_punct_exec(mapped[b - 1])
            invariant
                a < m.len(),
                !is_event_punct(m[a as int]),
                a <= b <= m.len(),
                m == mapped@,
                forall|j: int| b <= j < m.len() ==> is_event_punct(#[trigger] m[j]),
            decreases b,
        {
            b = b - 1;
        }
        proof {
            lemma_trail_punct_exact(m, m.len() - b);
        }
        slice_chars(mapped.as_slice(), a, b)
    };
    assert(stripped@ == strip_punct(m));
    let cleaned = trim_chars(stripped.as_slice());
    if cleaned.len() == 0 {
        return owned("diagnostic.event");
    }
    if cleaned.len() <= 128 {
        string_from(cleaned.as_slice())
    } else {
        let head = slice_chars(cleaned.as_slice(), 0, 128);
        assert(cleaned@.subrange(0, 128) =~= cleaned@.take(128));
        string_from(head.as_slice())
    }
}

/// How often one event may be logged: at most `max_per_window` times per
/// window of `window_ms` milliseconds.
#[derive(Debug, Clone, Copy)]
pub struct RateLimitConfig {
    pub window_ms: u64,
    pub max_per_window: u32,
}

/// The events of one name logged in the current window.
#[derive(Debug, Clone, Copy)]
pub struct RateLimitBucket {
    pub window_start_ms: u64,
    pub count: u32,
}

/// The events that fire many times a second.
pub open spec fn is_high_frequency_event(event: Seq<char>) -> bool {
    event == "bridge.request"@ || event == "bridge.response"@ || event == "bridge.resolve_start"@
        || event == "bridge.resolve_ok"@ || event == "bridge.reject_start"@ || event
        == "bridge.reject_ok"@
}

/// The limit for an event: 60 per minute for the high-frequency bridge
/// events, 240 per minute for the others.
pub fn rate_limit_config(event: &str) -> (r: RateLimitConfig)
    ensures
        r.window_ms == 60000,
        r.max_per_window == (if is_high_frequency_event(event@) { 60u32 } else { 240u32 }),
{
    let high = str_eq(event, "bridge.request") || str_eq(event, "bridge.response") || str_eq(
        event,
        "bridge.resolve_start",
    ) || str_eq(event, "bridge.resolve_ok") || str_eq(event, "bridge.reject_start") || str_eq(
        event,
        "bridge.reject_ok",
    );
    RateLimitConfig { window_ms: 60000, max_per_window: if high { 60 } else { 240 } }
}

/// One event against its bucket at time `now`: the bucket afterwards and
/// whether the event is dropped. A limit of zero drops everything; a bucket
/// whose window has passed starts a new one; a full bucket drops the event.
pub open spec fn rate_step_spec(bucket: Option<(int, int)>, now: int, window: int, max: int) -> (Option<(int, int)>, bool) {
    if max == 0 {
        (bucket, true)
    } else {
        let (start, count) = match bucket {
            Some(b) => b,
            None => (now, 0),
        };
        let (start, count) = if (if now - start < 0 { 0 } else { now - start }) >= window {
            (now, 0)
        } else {
            (start, count)
        };
        if count >= max {
            (Some((start, count)), true)
        } else {
            (Some((start, count + 1)), false)
        }
    }
}

/// The per-event buckets of the diagnostic log.
pub struct RateLimiter {
    pub buckets: Vec<(String, RateLimitBucket)>,
}

/// The buckets as plain values.
pub open spec fn buckets_view(v: Seq<(String, RateLimitBucket)>) -> Seq<(Seq<char>, (int, int))> {
    v.map_values(|p: (String, RateLimitBucket)| (p.0@, (p.1.window_start_ms as int, p.1.count as int)))
}

impl RateLimiter {
    /// A limiter that has seen no event.
    pub fn new() -> (r: RateLimiter)
        ensures
            r.buckets@.len() == 0,
    {
        RateLimiter { buckets: Vec::new() }
    }

    /// Counts event `event` at time `now` (milliseconds) and tells whether it must be dropped.
    pub fn limited(&mut self, event: &str, now: u64, config: RateLimitConfig) -> (r: bool)
        ensures
            ({
                let old_b = pairs_get(buckets_view(old(self).buckets@), event@);
                let step = rate_step_spec(old_b, now as int, config.window_ms as int, config.max_per_window as int);
                &&& r == step.1
                &&& buckets_view(final(self).buckets@) == match step.0 {
                    Some(b) => if config.max_per_window == 0 {
                        buckets_view(old(self).buckets@)
                    } else {
                        pairs_insert(buckets_view(old(self).buckets@), event@, b)
                    },
                    None => buckets_view(old(self).buckets@),
                }
            }),
    {
        if config.max_per_window == 0 {
            return true;
        }
        let ghost s = buckets_view(self.buckets@);
        let found = pair_position(&self.buckets, event);
        proof {
            lemma_pairs_index(s, event@);
        }
        let (mut start, mut count) = match found {
            Some(k) => {
                proof {
                    assert(s[k as int].0 == event@);
                    match pairs_index(s, event@) {
                        Some(p) => {
                            if p < k {
                                assert(self.buckets@[p].0@ == event@);
                            }
                            if k < p {
                                assert(s[k as int].0 == event@);
                            }
                        },
                        None => {
                            assert(s[k as int].0 == event@);
                        },
                    }
                }
                (self.buckets[k].1.window_start_ms, self.buckets[k].1.count)
            },
            None => {
                proof {
                    if pairs_index(s, event@) is Some {
                        let p = pairs_index(s, event@)->0;
                        assert(self.buckets@[p].0@ == event@);
                    }
                }
                (now, 0u32)
            },
        };
        if now.saturating_sub(start) >= config.window_ms {
            start = now;
            count = 0;
        }
        let limited = count >= config.max_per_window;
        if !limited {
            count = count + 1;
        }
        let bucket = RateLimitBucket { window_start_ms: start, count };
        match found {
            Some(k) => {
                let ghost name = self.buckets@[k as int].0@;
                self.buckets.set(k, (owned(event), bucket));
                assert(buckets_view(self.buckets@) =~= s.update(k as int, (event@, (start as int, count as int))));
            },
            None => {
                self.buckets.push((owned(event), bucket));
                assert(buckets_view(self.buckets@) =~= s.push((event@, (start as int, count as int))));
            },
        }
        limited
    }
}

/// A bucket never counts past its limit, and an event passes only while the
/// current window has room.
pub proof fn law_rate_limit_caps_window(bucket: Option<(int, int)>, now: int, window: int, max: int)
    requires
        max > 0,
        match bucket {
            Some(b) => 0 <= b.1 <= max,
            None => true,
        },
    ensures
        rate_step_spec(bucket, now, window, max).0 matches Some(b) && 0 <= b.1 <= max,
        !rate_step_spec(bucket, now, window, max).1 ==> (rate_step_spec(bucket, now, window, max).0->0).1 >= 1,
        match bucket {
            Some(b) => (if now - b.0 < 0 { 0 } else { now - b.0 }) < window && b.1 == max ==> rate_step_spec(
                bucket,
                now,
                window,
                max,
            ).1,
            None => !rate_step_spec(bucket, now, window, max).1,
        },
{
}


/// How large the log may grow before it is rotated, and how many rotated
/// files are kept.
#[derive(Debug, Clone, Copy)]
pub struct LogLimits {
    pub max_bytes: u64,
    pub rotated_files: usize,
}

/// The limits in force: 2 MiB, four rotated files.
pub fn default_log_limits() -> (r: LogLimits)
    ensures
        r.max_bytes == 2 * 1024 * 1024,
        r.rotated_files == 4,
{
    LogLimits { max_bytes: 2 * 1024 * 1024, rotated_files: 4 }
}

/// Whether writing a line of `next_line_bytes` to a log of `current_len`
/// bytes first rotates it: rotation is on (some files kept, a positive size)
/// and the line would take the log past its size.
pub fn log_rotation_needed(limits: LogLimits, current_len: u64, next_line_bytes: u64) -> (r: bool)
    ensures
        r == (limits.rotated_files != 0 && limits.max_bytes != 0 && (if current_len + next_line_bytes
            > u64::MAX {
            u64::MAX as int
        } else {
            current_len + next_line_bytes
        }) > limits.max_bytes),
{
    if limits.rotated_files == 0 || limits.max_bytes == 0 {
        return false;
    }
    current_len.saturating_add(next_line_bytes) > limits.max_bytes
}

/// The path of the `index`-th rotated copy of the log at `path`: its name
/// with `.index` appended.
pub fn rotated_log_path(path: &str, index: usize) -> (r: String)
    requires
        index <= u64::MAX,
    ensures
        r@ == path@ + seq!['.'] + crate::text::decimal(index as nat),
{
    let digits = crate::text::decimal_string(index as u64);
    let r = crate::text::concat3(path, ".", digits.as_str());
    proof {
        reveal_strlit(".");
    }
    r
}

/// The renames that rotate the log at `path`, in the order they are made:
/// for each kept index from the last down to 1, the copy before it (the log
/// itself for index 1) moves to that index.
pub fn log_rotation_moves(path: &str, rotated_files: usize) -> (r: Vec<(String, String)>)
    requires
        rotated_files <= u64::MAX,
    ensures
        r@.len() == rotated_files,
        forall|k: int|
            0 <= k < rotated_files ==> {
                let index = rotated_files - k;
                &&& (#[trigger] r@[k]).1@ == path@ + seq!['.'] + crate::text::decimal(index as nat)
                &&& r@[k].0@ == if index == 1 {
                    path@
                } else {
                    path@ + seq!['.'] + crate::text::decimal((index - 1) as nat)
                }
            },
{
    let mut moves: Vec<(String, String)> = Vec::new();
    let mut index = rotated_files;
    while index >= 1
        invariant
            index <= rotated_files <= u64::MAX,
            moves@.len() == rotated_files - index,
            forall|k: int|
                0 <= k < moves@.len() ==> {
                    let i = rotated_files - k;
                    &&& (#[trigger] moves@[k]).1@ == path@ + seq!['.'] + crate::text::decimal(i as nat)
                    &&& moves@[k].0@ == if i == 1 {
                        path@
                    } else {
                        path@ + seq!['.'] + crate::text::decimal((i - 1) as nat)
                    }
                },
        decreases index,
    {
        let source = if index == 1 {
            path.to_string()
        } else {
            rotated_log_path(path, index - 1)
        };
        let target = rotated_log_path(path, index);
        moves.push((source, target));
        index = index - 1;
    }
    moves
}

/// The record the diagnostic log keeps for `event`: one JSON object with the
/// members `detail` (the detail made safe, `null` when there is none),
/// `event`, `pid` and `timestamp_ms`, in that (key) order.
pub fn diagnostic_log_record(timestamp_ms: u64, pid: u32, event: &str, detail: Option<&JsonValue>) -> (r: JsonValue)
    ensures
        r matches JsonValue::Object(ms) && {
            &&& ms@.len() == 4
            &&& ms@[0].key@ == "detail"@
            &&& match detail {
                Some(d) => sanitized_value(*d, ms@[0].value),
                None => ms@[0].value is Null,
            }
            &&& ms@[1].key@ == "event"@
            &&& ms@[1].value matches JsonValue::Str(e) && e@ == event@
            &&& ms@[2].key@ == "pid"@
            &&& is_count(ms@[2].value, pid as nat)
            &&& ms@[3].key@ == "timestamp_ms"@
            &&& is_count(ms@[3].value, timestamp_ms as nat)
        },
{
    let clean = match detail {
        Some(d) => sanitize_diagnostic_value(d),
        None => JsonValue::Null,
    };
    let members = vec![
        JsonMember { key: owned("detail"), value: clean },
        JsonMember { key: owned("event"), value: JsonValue::Str(owned(event)) },
        JsonMember { key: owned("pid"), value: JsonValue::Number(decimal_string(pid as u64), Some(pid as u64)) },
        JsonMember {
            key: owned("timestamp_ms"),
            value: JsonValue::Number(decimal_string(timestamp_ms), Some(timestamp_ms)),
        },
    ];
    JsonValue::Object(members)
}

/// How many of successive events of one name, at the times `nows`, are
/// logged, starting from the bucket `bucket`.
pub open spec fn rate_run(bucket: Option<(int, int)>, nows: Seq<int>, window: int, max: int) -> nat
    decreases nows.len(),
{
    if nows.len() == 0 {
        0
    } else {
        let step = rate_step_spec(bucket, nows[0], window, max);
        (if step.1 { 0nat } else { 1nat }) + rate_run(step.0, nows.drop_first(), window, max)
    }
}

proof fn lemma_rate_run_in_window(t0: int, c: int, nows: Seq<int>, window: int, max: int)
    requires
        window > 0,
        0 <= c <= max,
        forall|k: int| 0 <= k < nows.len() ==> t0 <= #[trigger] nows[k] < t0 + window,
    ensures
        rate_run(Some((t0, c)), nows, window, max) == (if nows.len() < max - c { nows.len() as int } else { max - c }),
    decreases nows.len(),
{
    if nows.len() > 0 {
        let rest = nows.drop_first();
        assert forall|k: int| 0 <= k < rest.len() implies t0 <= #[trigger] rest[k] < t0 + window by {
            assert(rest[k] == nows[k + 1]);
        }
        assert(t0 <= nows[0] < t0 + window);
        if max == 0 {
            lemma_rate_run_in_window(t0, c, rest, window, max);
        } else if c >= max {
            lemma_rate_run_in_window(t0, c, rest, window, max);
        } else {
            lemma_rate_run_in_window(t0, c + 1, rest, window, max);
        }
    }
}

/// The rate cap: of successive events of one name that all fall within one
/// window after the first of them, at most the window's maximum are logged
/// (exactly that many when there are more), starting from a limiter that has
/// not seen the name.
pub proof fn law_rate_cap_within_a_window(nows: Seq<int>, window: int, max: int)
    requires
        window > 0,
        max >= 0,
        nows.len() > 0,
        forall|k: int| 0 <= k < nows.len() ==> nows[0] <= #[trigger] nows[k] < nows[0] + window,
    ensures
        rate_run(None, nows, window, max) == (if nows.len() < max { nows.len() as int } else { max }),
{
    let t0 = nows[0];
    if max == 0 {
        lemma_rate_run_none_allowed(None, nows, window);
    } else {
        lemma_rate_run_in_window(t0, 0, nows, window, max);
        assert(rate_step_spec(None, t0, window, max) == rate_step_spec(Some((t0, 0)), t0, window, max));
        assert(rate_run(None, nows, window, max) == rate_run(Some((t0, 0)), nows, window, max));
    }
}

proof fn lemma_rate_run_none_allowed(bucket: Option<(int, int)>, nows: Seq<int>, window: int)
    ensures
        rate_run(bucket, nows, window, 0) == 0,
    decreases nows.len(),
{
    if nows.len() > 0 {
        lemma_rate_run_none_allowed(bucket, nows.drop_first(), window);
    }
}

/// Starting `o` characters into `w`, the text does not spell the marker `m`:
/// some character of `m` differs from the one of `w` at its place.
pub open spec fn spells_no_marker_at(w: Seq<char>, m: Seq<char>, o: int) -> bool {
    exists|j: int| 0 <= j < m.len() && o + j < w.len() && #[trigger] w[o + j] != m[j]
}

/// A marker that can only be read where it was written: inside the marker
/// followed by the redaction mark, it starts nowhere but at the beginning.
pub open spec fn marker_stands_alone(m: Seq<char>) -> bool {
    forall|o: int| 0 < o < m.len() + REDACTED@.len() ==> #[trigger] spells_no_marker_at(m + REDACTED@, m, o)
}

/// The redaction of `s` from `pos` on leaves no marker unredacted.
proof fn lemma_redact_from_marks_every_marker(s: Seq<char>, m: Seq<char>, pos: int)
    requires
        m.len() > 0,
        marker_stands_alone(m),
        0 <= pos <= s.len(),
    ensures
        forall|k: int|
            #[trigger] occurs_at(redact_from(s, m, pos), m, k) ==> occurs_at(
                redact_from(s, m, pos),
                REDACTED@,
                k + m.len(),
            ),
    decreases s.len() - pos,
{
    let out = redact_from(s, m, pos);
    lemma_next_occurrence(s, m, pos);
    match next_occurrence(s, m, pos) {
        None => {
            assert(out == s.subrange(pos, s.len() as int));
            assert forall|k: int| #[trigger] occurs_at(out, m, k) implies occurs_at(out, REDACTED@, k + m.len()) by {
                assert(s.subrange(pos + k, pos + k + m.len()) =~= out.subrange(k, k + m.len()));
                assert(occurs_at(s, m, pos + k));
            }
        },
        Some(i) => {
            lemma_token_end(s, i + m.len());
            let e = token_end(s, i + m.len());
            let a = s.subrange(pos, i);
            let w = m + REDACTED@;
            let t = redact_from(s, m, e);
            lemma_redact_from_marks_every_marker(s, m, e);
            assert(out == a + m + REDACTED@ + t);
            assert(out =~= a + w + t);
            assert forall|k: int| #[trigger] occurs_at(out, m, k) implies occurs_at(out, REDACTED@, k + m.len()) by {
                let al = a.len() as int;
                let wl = w.len() as int;
                if k < al {
                    assert forall|j: int| 0 <= j < m.len() implies #[trigger] out[k + j] == s[pos + k + j] by {
                        if k + j < al {
                            assert(out[k + j] == a[k + j]);
                        } else {
                            assert(out[k + j] == w[k + j - al]);
                            assert(w[k + j - al] == m[k + j - al]);
                            assert(s.subrange(i, i + m.len())[k + j - al] == s[pos + k + j]);
                        }
                    }
                    assert(s.subrange(pos + k, pos + k + m.len()) =~= out.subrange(k, k + m.len()));
                    assert(occurs_at(s, m, pos + k));
                } else if k == al {
                    assert(out.subrange(k + m.len(), k + m.len() + REDACTED@.len()) =~= REDACTED@) by {
                        assert forall|j: int| 0 <= j < REDACTED@.len() implies #[trigger] out[k + m.len() + j] == REDACTED@[j] by {
                            assert(out[k + m.len() + j] == w[m.len() + j]);
                        }
                    }
                } else if k < al + wl {
                    let o = k - al;
                    assert(spells_no_marker_at(w, m, o));
                    let j = choose|j: int| 0 <= j < m.len() && o + j < w.len() && #[trigger] w[o + j] != m[j];
                    assert(out[k + j] == w[o + j]);
                    assert(out.subrange(k, k + m.len())[j] == out[k + j]);
                } else {
                    let k2 = k - al - wl;
                    assert(t.subrange(k2, k2 + m.len()) =~= out.subrange(k, k + m.len()));
                    assert(occurs_at(t, m, k2));
                    assert(occurs_at(t, REDACTED@, k2 + m.len()));
                    assert(out.subrange(k + m.len(), k + m.len() + REDACTED@.len()) =~= t.subrange(
                        k2 + m.len(),
                        k2 + m.len() + REDACTED@.len(),
                    ));
                }
            }
        },
    }
}

/// Redaction reaches every occurrence of the marker, not just the first:
/// wherever the marker stands in the redacted text, the redaction mark
/// follows it, so no token after any occurrence survives. (This holds for a
/// marker that cannot start again inside itself or the mark, as every known
/// marker is.)
pub proof fn law_every_marker_is_redacted(s: Seq<char>, m: Seq<char>)
    requires
        m.len() > 0,
        marker_stands_alone(m),
    ensures
        forall|k: int|
            #[trigger] occurs_at(redact_marker(s, m), m, k) ==> occurs_at(redact_marker(s, m), REDACTED@, k + m.len()),
{
    lemma_redact_from_marks_every_marker(s, m, 0);
}

/// A marker whose first character appears nowhere else in it or in the
/// redaction mark stands alone.
pub proof fn lemma_unique_first_char_stands_alone(m: Seq<char>)
    requires
        m.len() > 0,
        forall|o: int| 0 < o < m.len() + REDACTED@.len() ==> (#[trigger] (m + REDACTED@)[o]) != m[0],
    ensures
        marker_stands_alone(m),
{
    assert forall|o: int| 0 < o < m.len() + REDACTED@.len() implies #[trigger] spells_no_marker_at(m + REDACTED@, m, o) by {
        assert((m + REDACTED@)[o + 0] != m[0]);
    }
}

/// Every `Bearer ` token in a text, not only the first, is redacted.
pub proof fn law_every_bearer_token_is_redacted(s: Seq<char>)
    ensures
        forall|k: int|
            #[trigger] occurs_at(redact_marker(s, "Bearer "@), "Bearer "@, k) ==> occurs_at(
                redact_marker(s, "Bearer "@),
                REDACTED@,
                k + 7,
            ),
{
    reveal_strlit("Bearer ");
    reveal_strlit("[redacted]");
    let m = "Bearer "@;
    let w = m + REDACTED@;
    assert forall|o: int| 0 < o < m.len() + REDACTED@.len() implies (#[trigger] w[o]) != m[0] by {
        if o < 7 {
            assert(w[o] == m[o]);
        } else {
            assert(w[o] == REDACTED@[o - 7]);
        }
    }
    lemma_unique_first_char_stands_alone(m);
    law_every_marker_is_redacted(s, m);
}

} // verus!
