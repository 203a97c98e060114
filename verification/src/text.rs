//! Character-level text handling shared by the rest of the library.
//!
//! Every function here works on the characters of a string (its view, a
//! `Seq<char>`) and states its result over the spec functions below.
use vstd::prelude::*;

verus! {

/// Unicode `White_Space`, the set that `char::is_whitespace` tests.
pub open spec fn is_ws(c: char) -> bool {
    ||| c == '\t' || c == '\n' || c == '\u{b}' || c == '\u{c}' || c == '\r' || c == ' '
    ||| c == '\u{85}' || c == '\u{a0}' || c == '\u{1680}'
    ||| ('\u{2000}' <= c && c <= '\u{200a}')
    ||| c == '\u{2028}' || c == '\u{2029}' || c == '\u{202f}' || c == '\u{205f}' || c == '\u{3000}'
}

/// Number of whitespace characters at the start of `s`.
pub open spec fn lead_ws(s: Seq<char>) -> nat
    decreases s.len(),
{
    if s.len() == 0 {
        0
    } else if is_ws(s[0]) {
        1 + lead_ws(s.drop_first())
    } else {
        0
    }
}

/// Number of whitespace characters at the end of `s`.
pub open spec fn trail_ws(s: Seq<char>) -> nat
    decreases s.len(),
{
    if s.len() == 0 {
        0
    } else if is_ws(s.last()) {
        1 + trail_ws(s.drop_last())
    } else {
        0
    }
}

/// `s` without leading whitespace (`str::trim_start`).
pub open spec fn trim_start(s: Seq<char>) -> Seq<char> {
    s.subrange(lead_ws(s) as int, s.len() as int)
}

/// `s` without trailing whitespace (`str::trim_end`).
pub open spec fn trim_end(s: Seq<char>) -> Seq<char> {
    s.subrange(0, s.len() - trail_ws(s))
}

/// `s` without leading or trailing whitespace (`str::trim`).
pub open spec fn trim(s: Seq<char>) -> Seq<char> {
    trim_end(trim_start(s))
}

/// `s` begins with `p`.
pub open spec fn starts_with(s: Seq<char>, p: Seq<char>) -> bool {
    p.len() <= s.len() && s.subrange(0, p.len() as int) == p
}

/// `s` ends with `p`.
pub open spec fn ends_with(s: Seq<char>, p: Seq<char>) -> bool {
    p.len() <= s.len() && s.subrange(s.len() - p.len(), s.len() as int) == p
}

/// `needle` occurs in `s` at position `i`.
pub open spec fn occurs_at(s: Seq<char>, needle: Seq<char>, i: int) -> bool {
    0 <= i && i + needle.len() <= s.len() && s.subrange(i, i + needle.len()) == needle
}

/// `needle` occurs somewhere in `s` (`str::contains`).
pub open spec fn contains(s: Seq<char>, needle: Seq<char>) -> bool {
    exists|i: int| occurs_at(s, needle, i)
}

/// `c` occurs in `s`.
pub open spec fn has_char(s: Seq<char>, c: char) -> bool {
    exists|i: int| 0 <= i < s.len() && s[i] == c
}

/// ASCII upper-case letters map to lower case, every other character is kept.
pub open spec fn ascii_lower(c: char) -> char {
    if 'A' <= c && c <= 'Z' {
        ((c as u32) + 32) as char
    } else {
        c
    }
}

/// `str::to_ascii_lowercase`.
pub open spec fn lower(s: Seq<char>) -> Seq<char> {
    s.map_values(|c: char| ascii_lower(c))
}

pub open spec fn is_ascii_digit(c: char) -> bool {
    '0' <= c && c <= '9'
}

pub open spec fn is_ascii_alpha(c: char) -> bool {
    ('a' <= c && c <= 'z') || ('A' <= c && c <= 'Z')
}

pub open spec fn is_ascii_alnum(c: char) -> bool {
    is_ascii_digit(c) || is_ascii_alpha(c)
}

/// Unicode general category `Cc`, the set that `char::is_control` tests.
pub open spec fn is_control(c: char) -> bool {
    (c as u32) <= 0x1f || (0x7f <= (c as u32) && (c as u32) <= 0x9f)
}

/// Some character of `s` is a control character.
pub open spec fn has_control(s: Seq<char>) -> bool {
    exists|i: int| 0 <= i < s.len() && is_control(s[i])
}

/// The characters of `s`, in order.
pub fn str_chars(s: &str) -> (out: Vec<char>)
    ensures
        out@ == s@,
{
    let mut out: Vec<char> = Vec::new();
    for c in it: s.chars()
        invariant
            out@ == it.seq().take(it.index() as int),
            it.seq() == s@,
    {
        out.push(c);
    }
    out
}

/// Appends one character to a string (`String::push`).
#[verifier::external_body]
fn string_push(s: &mut String, c: char)
    ensures
        final(s)@ == old(s)@.push(c),
{
    s.push(c);
}

/// A string made of the characters `v`.
pub fn string_from(v: &[char]) -> (out: String)
    ensures
        out@ == v@,
{
    let mut out = String::new();
    let mut i: usize = 0;
    while i < v.len()
        invariant
            i <= v@.len(),
            out@ == v@.subrange(0, i as int),
        decreases v@.len() - i,
    {
        string_push(&mut out, v[i]);
        i = i + 1;
        assert(out@ =~= v@.subrange(0, i as int));
    }
    assert(v@.subrange(0, v@.len() as int) =~= v@);
    out
}

/// A copy of `s` (`str::to_string`).
pub fn owned(s: &str) -> (out: String)
    ensures
        out@ == s@,
{
    let v = str_chars(s);
    string_from(v.as_slice())
}

/// Whitespace test on one character (`char::is_whitespace`).
pub fn char_is_ws(c: char) -> (b: bool)
    ensures
        b == is_ws(c),
{
    c == '\t' || c == '\n' || c == '\u{b}' || c == '\u{c}' || c == '\r' || c == ' ' || c == '\u{85}'
        || c == '\u{a0}' || c == '\u{1680}' || ('\u{2000}' <= c && c <= '\u{200a}') || c == '\u{2028}'
        || c == '\u{2029}' || c == '\u{202f}' || c == '\u{205f}' || c == '\u{3000}'
}

/// Control-character test on one character (`char::is_control`).
pub fn char_is_control(c: char) -> (b: bool)
    ensures
        b == is_control(c),
{
    c <= '\u{1f}' || ('\u{7f}' <= c && c <= '\u{9f}')
}

pub fn char_is_ascii_alnum(c: char) -> (b: bool)
    ensures
        b == is_ascii_alnum(c),
{
    ('0' <= c && c <= '9') || ('a' <= c && c <= 'z') || ('A' <= c && c <= 'Z')
}

pub fn char_is_ascii_digit(c: char) -> (b: bool)
    ensures
        b == is_ascii_digit(c),
{
    '0' <= c && c <= '9'
}


/// Lower-cases one ASCII letter (`char::to_ascii_lowercase`).
pub fn char_ascii_lower(c: char) -> (r: char)
    ensures
        r == ascii_lower(c),
{
    if 'A' <= c && c <= 'Z' {
        let b: u8 = c as u8;
        assert(b as u32 == c as u32);
        let lower: u8 = b + 32;
        lower as char
    } else {
        c
    }
}

/// `lead_ws(s)` counts the leading whitespace; everything before it is whitespace.
pub proof fn lemma_lead_ws(s: Seq<char>)
    ensures
        lead_ws(s) <= s.len(),
        forall|i: int| 0 <= i < lead_ws(s) ==> is_ws(#[trigger] s[i]),
        lead_ws(s) < s.len() ==> !is_ws(s[lead_ws(s) as int]),
    decreases s.len(),
{
    if s.len() > 0 && is_ws(s[0]) {
        lemma_lead_ws(s.drop_first());
        assert forall|i: int| 0 <= i < lead_ws(s) implies is_ws(#[trigger] s[i]) by {
            if i > 0 {
                assert(s[i] == s.drop_first()[i - 1]);
            }
        }
    }
}

/// `trail_ws(s)` counts the trailing whitespace.
pub proof fn lemma_trail_ws(s: Seq<char>)
    ensures
        trail_ws(s) <= s.len(),
        forall|i: int| s.len() - trail_ws(s) <= i < s.len() ==> is_ws(#[trigger] s[i]),
        trail_ws(s) < s.len() ==> !is_ws(s[s.len() - trail_ws(s) - 1]),
    decreases s.len(),
{
    if s.len() > 0 && is_ws(s.last()) {
        lemma_trail_ws(s.drop_last());
        assert forall|i: int| s.len() - trail_ws(s) <= i < s.len() implies is_ws(#[trigger] s[i]) by {
            if i < s.len() - 1 {
                assert(s[i] == s.drop_last()[i]);
            }
        }
    }
}

/// A whitespace prefix of length `k` followed by a non-blank (or the end) fixes `lead_ws`.
proof fn lemma_lead_ws_exact(s: Seq<char>, k: int)
    requires
        0 <= k <= s.len(),
        forall|i: int| 0 <= i < k ==> is_ws(#[trigger] s[i]),
        k < s.len() ==> !is_ws(s[k]),
    ensures
        lead_ws(s) == k,
    decreases s.len(),
{
    if k > 0 {
        assert(is_ws(s[0]));
        assert forall|i: int| 0 <= i < k - 1 implies is_ws(#[trigger] s.drop_first()[i]) by {
            assert(s.drop_first()[i] == s[i + 1]);
        }
        if k - 1 < s.drop_first().len() {
            assert(s.drop_first()[k - 1] == s[k]);
        }
        lemma_lead_ws_exact(s.drop_first(), k - 1);
    }
}

/// A whitespace suffix of length `k` preceded by a non-blank (or the start) fixes `trail_ws`.
proof fn lemma_trail_ws_exact(s: Seq<char>, k: int)
    requires
        0 <= k <= s.len(),
        forall|i: int| s.len() - k <= i < s.len() ==> is_ws(#[trigger] s[i]),
        k < s.len() ==> !is_ws(s[s.len() - k - 1]),
    ensures
        trail_ws(s) == k,
    decreases s.len(),
{
    if k > 0 {
        assert(is_ws(s.last()));
        let t = s.drop_last();
        assert forall|i: int| t.len() - (k - 1) <= i < t.len() implies is_ws(#[trigger] t[i]) by {
            assert(t[i] == s[i]);
        }
        if k - 1 < t.len() {
            assert(t[t.len() - (k - 1) - 1] == s[s.len() - k - 1]);
        }
        lemma_trail_ws_exact(t, k - 1);
    }
}

/// Trimming twice is trimming once.
pub proof fn lemma_trim_idem(s: Seq<char>)
    ensures
        trim(trim(s)) == trim(s),
        trim(s).len() > 0 ==> !is_ws(trim(s)[0]) && !is_ws(trim(s).last()),
{
    let a = trim_start(s);
    let t = trim(s);
    lemma_lead_ws(s);
    lemma_trail_ws(a);
    if t.len() > 0 {
        assert(t[0] == a[0]);
        assert(a[0] == s[lead_ws(s) as int]);
        assert(t.last() == a[a.len() - trail_ws(a) - 1]);
        lemma_lead_ws_exact(t, 0);
        lemma_trail_ws_exact(t, 0);
        assert(trim_start(t) =~= t);
        assert(trim_end(t) =~= t);
    } else {
        assert(trim_start(t) =~= t);
        assert(trim_end(t) =~= t);
    }
}

/// The characters of `v` without leading whitespace.
pub fn trim_start_chars(v: &[char]) -> (out: Vec<char>)
    ensures
        out@ == trim_start(v@),
{
    let n = v.len();
    let mut start: usize = 0;
    while start < n && char_is_ws(v[start])
        invariant
            start <= n,
            n == v@.len(),
            forall|i: int| 0 <= i < start ==> is_ws(#[trigger] v@[i]),
        decreases n - start,
    {
        start = start + 1;
    }
    proof {
        lemma_lead_ws_exact(v@, start as int);
    }
    slice_chars(v, start, n)
}

/// The characters of `v` without trailing whitespace.
pub fn trim_end_chars(v: &[char]) -> (out: Vec<char>)
    ensures
        out@ == trim_end(v@),
{
    let n = v.len();
    let mut end: usize = n;
    while end > 0 && char_is_ws(v[end - 1])
        invariant
            end <= n,
            n == v@.len(),
            forall|i: int| end <= i < n ==> is_ws(#[trigger] v@[i]),
        decreases end,
    {
        end = end - 1;
    }
    proof {
        lemma_trail_ws_exact(v@, (n - end) as int);
    }
    slice_chars(v, 0, end)
}

/// The characters of `v` without surrounding whitespace.
pub fn trim_chars(v: &[char]) -> (out: Vec<char>)
    ensures
        out@ == trim(v@),
{
    let n = v.len();
    let mut start: usize = 0;
    while start < n && char_is_ws(v[start])
        invariant
            start <= n,
            n == v@.len(),
            forall|i: int| 0 <= i < start ==> is_ws(#[trigger] v@[i]),
        decreases n - start,
    {
        start = start + 1;
    }
    proof {
        lemma_lead_ws_exact(v@, start as int);
    }
    let mut end: usize = n;
    while end > start && char_is_ws(v[end - 1])
        invariant
            start <= end <= n,
            n == v@.len(),
            forall|i: int| end <= i < n ==> is_ws(#[trigger] v@[i]),
        decreases end,
    {
        end = end - 1;
    }
    let ghost t = v@.subrange(start as int, n as int);
    proof {
        assert forall|i: int| t.len() - (n - end) <= i < t.len() implies is_ws(#[trigger] t[i]) by {
            assert(t[i] == v@[start + i]);
        }
        if n - end < t.len() {
            assert(t[t.len() - (n - end) - 1] == v@[end - 1]);
        }
        lemma_trail_ws_exact(t, (n - end) as int);
    }
    let mut out: Vec<char> = Vec::new();
    let mut i: usize = start;
    while i < end
        invariant
            start <= i <= end <= n,
            n == v@.len(),
            out@ == v@.subrange(start as int, i as int),
        decreases end - i,
    {
        out.push(v[i]);
        i = i + 1;
        assert(out@ =~= v@.subrange(start as int, i as int));
    }
    assert(out@ =~= trim(v@));
    out
}

/// `s` without surrounding whitespace, as a new string (`str::trim`).
pub fn trim_str(s: &str) -> (out: String)
    ensures
        out@ == trim(s@),
{
    let v = str_chars(s);
    let t = trim_chars(v.as_slice());
    string_from(t.as_slice())
}

/// The trimmed text of `s` is empty.
pub fn is_blank(s: &str) -> (b: bool)
    ensures
        b == (trim(s@).len() == 0),
{
    let t = trim_str(s);
    t.as_str().is_empty()
}

/// Character-wise equality of two character slices.
pub fn chars_eq(a: &[char], b: &[char]) -> (r: bool)
    ensures
        r == (a@ == b@),
{
    if a.len() != b.len() {
        return false;
    }
    let mut i: usize = 0;
    while i < a.len()
        invariant
            i <= a@.len(),
            a@.len() == b@.len(),
            forall|j: int| 0 <= j < i ==> a@[j] == b@[j],
        decreases a@.len() - i,
    {
        if a[i] != b[i] {
            return false;
        }
        i = i + 1;
    }
    assert(a@ =~= b@);
    true
}

/// Equality of two strings by their characters.
pub fn str_eq(a: &str, b: &str) -> (r: bool)
    ensures
        r == (a@ == b@),
{
    let x = str_chars(a);
    let y = str_chars(b);
    chars_eq(x.as_slice(), y.as_slice())
}

/// `needle` occurs in `v` at position `i`.
pub fn occurs_at_exec(v: &[char], needle: &[char], i: usize) -> (r: bool)
    ensures
        r == occurs_at(v@, needle@, i as int),
{
    if i > v.len() || needle.len() > v.len() - i {
        return false;
    }
    let mut j: usize = 0;
    while j < needle.len()
        invariant
            j <= needle@.len(),
            i + needle@.len() <= v@.len(),
            v@.len() == v.len(),
            needle@.len() == needle.len(),
            forall|k: int| 0 <= k < j ==> v@[i + k] == needle@[k],
        decreases needle@.len() - j,
    {
        if v[i + j] != needle[j] {
            assert(v@.subrange(i as int, i + needle@.len())[j as int] != needle@[j as int]);
            return false;
        }
        j = j + 1;
    }
    assert(v@.subrange(i as int, i + needle@.len()) =~= needle@);
    true
}

/// First position at or after `from` where `needle` occurs in `v`.
pub fn find_from(v: &[char], needle: &[char], from: usize) -> (r: Option<usize>)
    ensures
        match r {
            Some(i) => from <= i && occurs_at(v@, needle@, i as int) && forall|k: int|
                from <= k < i ==> !occurs_at(v@, needle@, k),
            None => forall|k: int| from <= k ==> !occurs_at(v@, needle@, k),
        },
{
    if from > v.len() {
        return None;
    }
    let mut i: usize = from;
    while i < v.len()
        invariant
            from <= i <= v@.len(),
            forall|k: int| from <= k < i ==> !occurs_at(v@, needle@, k),
        decreases v@.len() - i,
    {
        if occurs_at_exec(v, needle, i) {
            return Some(i);
        }
        i = i + 1;
    }
    if occurs_at_exec(v, needle, i) {
        return Some(i);
    }
    None
}

/// `needle` occurs in `v`.
pub fn contains_chars(v: &[char], needle: &[char]) -> (r: bool)
    ensures
        r == contains(v@, needle@),
{
    match find_from(v, needle, 0) {
        Some(_) => true,
        None => false,
    }
}

/// `needle` occurs in `s` (`str::contains`).
pub fn str_contains(s: &str, needle: &str) -> (r: bool)
    ensures
        r == contains(s@, needle@),
{
    let v = str_chars(s);
    let n = str_chars(needle);
    contains_chars(v.as_slice(), n.as_slice())
}

/// `v` begins with `p`.
pub fn starts_with_chars(v: &[char], p: &[char]) -> (r: bool)
    ensures
        r == starts_with(v@, p@),
{
    let r = occurs_at_exec(v, p, 0);
    assert(r == starts_with(v@, p@));
    r
}

/// `v` ends with `p`.
pub fn ends_with_chars(v: &[char], p: &[char]) -> (r: bool)
    ensures
        r == ends_with(v@, p@),
{
    if p.len() > v.len() {
        return false;
    }
    occurs_at_exec(v, p, v.len() - p.len())
}

/// `s` begins with `p` (`str::starts_with`).
pub fn str_starts_with(s: &str, p: &str) -> (r: bool)
    ensures
        r == starts_with(s@, p@),
{
    let v = str_chars(s);
    let q = str_chars(p);
    starts_with_chars(v.as_slice(), q.as_slice())
}

/// `s` ends with `p` (`str::ends_with`).
pub fn str_ends_with(s: &str, p: &str) -> (r: bool)
    ensures
        r == ends_with(s@, p@),
{
    let v = str_chars(s);
    let q = str_chars(p);
    ends_with_chars(v.as_slice(), q.as_slice())
}

/// The ASCII lower-case form of `v`.
pub fn lower_chars(v: &[char]) -> (out: Vec<char>)
    ensures
        out@ == lower(v@),
{
    let mut out: Vec<char> = Vec::new();
    let mut i: usize = 0;
    while i < v.len()
        invariant
            i <= v@.len(),
            out@ == lower(v@.subrange(0, i as int)),
        decreases v@.len() - i,
    {
        out.push(char_ascii_lower(v[i]));
        i = i + 1;
        assert(out@ =~= lower(v@.subrange(0, i as int)));
    }
    assert(v@.subrange(0, v@.len() as int) =~= v@);
    out
}

/// The ASCII lower-case form of `s` (`str::to_ascii_lowercase`).
pub fn lower_str(s: &str) -> (out: String)
    ensures
        out@ == lower(s@),
{
    let v = str_chars(s);
    let l = lower_chars(v.as_slice());
    string_from(l.as_slice())
}

/// `c` occurs in `v`.
pub fn has_char_exec(v: &[char], c: char) -> (r: bool)
    ensures
        r == has_char(v@, c),
{
    let mut i: usize = 0;
    while i < v.len()
        invariant
            i <= v@.len(),
            forall|j: int| 0 <= j < i ==> v@[j] != c,
        decreases v@.len() - i,
    {
        if v[i] == c {
            return true;
        }
        i = i + 1;
    }
    false
}

/// Some character of `v` is a control character.
pub fn has_control_exec(v: &[char]) -> (r: bool)
    ensures
        r == has_control(v@),
{
    let mut i: usize = 0;
    while i < v.len()
        invariant
            i <= v@.len(),
            forall|j: int| 0 <= j < i ==> !is_control(v@[j]),
        decreases v@.len() - i,
    {
        if char_is_control(v[i]) {
            return true;
        }
        i = i + 1;
    }
    false
}


/// Position of the first character of `s` that satisfies `p`.
pub open spec fn first_where(s: Seq<char>, p: spec_fn(char) -> bool) -> Option<int>
    decreases s.len(),
{
    if s.len() == 0 {
        None
    } else if p(s[0]) {
        Some(0)
    } else {
        match first_where(s.drop_first(), p) {
            Some(i) => Some(i + 1),
            None => None,
        }
    }
}

/// The pieces of `s` between characters that satisfy `sep` (`str::split`).
pub open spec fn split_by(s: Seq<char>, sep: spec_fn(char) -> bool) -> Seq<Seq<char>>
    decreases s.len(),
{
    match first_where(s, sep) {
        None => seq![s],
        Some(k) => if 0 <= k < s.len() {
            seq![s.subrange(0, k)] + split_by(s.subrange(k + 1, s.len() as int), sep)
        } else {
            seq![s]
        },
    }
}

/// `line` without one trailing carriage return.
pub open spec fn strip_cr(line: Seq<char>) -> Seq<char> {
    if line.len() > 0 && line.last() == '\r' {
        line.drop_last()
    } else {
        line
    }
}

/// The lines of `s` (`str::lines`): split at `\n`, a `\r` before the `\n` dropped,
/// and no empty line after a final line ending.
pub open spec fn lines(s: Seq<char>) -> Seq<Seq<char>>
    decreases s.len(),
{
    if s.len() == 0 {
        seq![]
    } else {
        match first_where(s, |c: char| c == '\n') {
            None => seq![s],
            Some(k) => if 0 <= k < s.len() {
                seq![strip_cr(s.subrange(0, k))] + lines(s.subrange(k + 1, s.len() as int))
            } else {
                seq![s]
            },
        }
    }
}

/// `first_where` finds the first match, and nothing before it matches.
pub proof fn lemma_first_where(s: Seq<char>, p: spec_fn(char) -> bool)
    ensures
        match first_where(s, p) {
            Some(k) => 0 <= k < s.len() && p(s[k]) && forall|j: int| 0 <= j < k ==> !p(#[trigger] s[j]),
            None => forall|j: int| 0 <= j < s.len() ==> !p(#[trigger] s[j]),
        },
    decreases s.len(),
{
    if s.len() > 0 && !p(s[0]) {
        lemma_first_where(s.drop_first(), p);
        match first_where(s.drop_first(), p) {
            Some(k) => {
                assert forall|j: int| 0 <= j < k + 1 implies !p(#[trigger] s[j]) by {
                    if j > 0 {
                        assert(s[j] == s.drop_first()[j - 1]);
                    }
                }
            },
            None => {
                assert forall|j: int| 0 <= j < s.len() implies !p(#[trigger] s[j]) by {
                    if j > 0 {
                        assert(s[j] == s.drop_first()[j - 1]);
                    }
                }
            },
        }
    }
}

/// A match at `k` with none before it is what `first_where` returns.
pub proof fn lemma_first_where_exact(s: Seq<char>, p: spec_fn(char) -> bool, k: int)
    requires
        0 <= k <= s.len(),
        forall|j: int| 0 <= j < k ==> !p(#[trigger] s[j]),
        k < s.len() ==> p(s[k]),
    ensures
        first_where(s, p) == (if k < s.len() { Some(k) } else { None::<int> }),
{
    lemma_first_where(s, p);
    match first_where(s, p) {
        Some(i) => {
            if i < k {
                assert(!p(s[i]));
            }
            if k < i {
                assert(!p(s[k]));
            }
        },
        None => {
            if k < s.len() {
                assert(!p(s[k]));
            }
        },
    }
}

/// The character sequences of a list of character vectors.
pub open spec fn rows(v: Seq<Vec<char>>) -> Seq<Seq<char>> {
    v.map_values(|x: Vec<char>| x@)
}

/// First position at or after `from` that holds a character of `seps`.
pub fn find_any_from(v: &[char], seps: &[char], from: usize) -> (r: usize)
    requires
        from <= v@.len(),
    ensures
        from <= r <= v@.len(),
        forall|j: int| from <= j < r ==> !seps@.contains(#[trigger] v@[j]),
        r < v@.len() ==> seps@.contains(v@[r as int]),
{
    let mut i: usize = from;
    while i < v.len()
        invariant
            from <= i <= v@.len(),
            forall|j: int| from <= j < i ==> !seps@.contains(#[trigger] v@[j]),
        decreases v@.len() - i,
    {
        if has_char_exec(seps, v[i]) {
            return i;
        }
        i = i + 1;
    }
    i
}

/// The pieces of `v` between characters of `seps`, each as characters.
pub fn split_any(v: &[char], seps: &[char]) -> (out: Vec<Vec<char>>)
    ensures
        rows(out@) == split_by(v@, |c: char| seps@.contains(c)),
{
    let ghost p = |c: char| seps@.contains(c);
    let mut out: Vec<Vec<char>> = Vec::new();
    let mut pos: usize = 0;
    assert(v@.subrange(0, v@.len() as int) =~= v@);
    loop
        invariant_except_break
            pos <= v@.len(),
            p == (|c: char| seps@.contains(c)),
            split_by(v@, p) == rows(out@) + split_by(v@.subrange(pos as int, v@.len() as int), p),
        ensures
            split_by(v@, p) == rows(out@),
        decreases v@.len() - pos,
    {
        let ghost rest = v@.subrange(pos as int, v@.len() as int);
        let k = find_any_from(v, seps, pos);
        let mut piece: Vec<char> = Vec::new();
        let mut i: usize = pos;
        while i < k
            invariant
                pos <= i <= k <= v@.len(),
                piece@ == v@.subrange(pos as int, i as int),
            decreases k - i,
        {
            piece.push(v[i]);
            i = i + 1;
            assert(piece@ =~= v@.subrange(pos as int, i as int));
        }
        proof {
            assert forall|j: int| 0 <= j < k - pos implies !p(#[trigger] rest[j]) by {
                assert(rest[j] == v@[pos + j]);
                assert(!seps@.contains(v@[pos + j]));
                assert(p(rest[j]) == seps@.contains(rest[j]));
            }
            if k < v@.len() {
                assert(rest[k - pos] == v@[k as int]);
                assert(p(rest[k - pos]) == seps@.contains(rest[k - pos]));
            }
            lemma_first_where_exact(rest, p, k - pos);
        }
        if k == v.len() {
            proof {
                assert(piece@ =~= rest);
                assert(split_by(rest, p) == seq![rest]);
            }
            let ghost before = rows(out@);
            out.push(piece);
            assert(rows(out@) =~= before.push(rest));
            assert(split_by(v@, p) == before + seq![rest]);
            break;
        }
        proof {
            assert(piece@ =~= rest.subrange(0, k - pos));
            assert(rest.subrange(k - pos + 1, rest.len() as int) =~= v@.subrange(k + 1, v@.len() as int));
        }
        let ghost before = rows(out@);
        out.push(piece);
        assert(rows(out@) =~= before.push(rest.subrange(0, k - pos)));
        pos = k + 1;
        assert(split_by(v@, p) == rows(out@) + split_by(v@.subrange(pos as int, v@.len() as int), p));
    }
    out
}


/// The characters `v[from..to]`.
pub fn slice_chars(v: &[char], from: usize, to: usize) -> (out: Vec<char>)
    requires
        from <= to <= v@.len(),
    ensures
        out@ == v@.subrange(from as int, to as int),
{
    let mut out: Vec<char> = Vec::new();
    let mut i: usize = from;
    while i < to
        invariant
            from <= i <= to <= v@.len(),
            out@ == v@.subrange(from as int, i as int),
        decreases to - i,
    {
        out.push(v[i]);
        i = i + 1;
        assert(out@ =~= v@.subrange(from as int, i as int));
    }
    out
}

/// First position at or after `from` that holds `c`, or the length of `v`.
pub fn find_char_from(v: &[char], c: char, from: usize) -> (r: usize)
    requires
        from <= v@.len(),
    ensures
        from <= r <= v@.len(),
        forall|j: int| from <= j < r ==> #[trigger] v@[j] != c,
        r < v@.len() ==> v@[r as int] == c,
{
    let mut i: usize = from;
    while i < v.len()
        invariant
            from <= i <= v@.len(),
            forall|j: int| from <= j < i ==> #[trigger] v@[j] != c,
        decreases v@.len() - i,
    {
        if v[i] == c {
            return i;
        }
        i = i + 1;
    }
    i
}

/// The lines of `v` (`str::lines`), each as characters.
pub fn lines_chars(v: &[char]) -> (out: Vec<Vec<char>>)
    ensures
        rows(out@) == lines(v@),
{
    let mut out: Vec<Vec<char>> = Vec::new();
    let mut pos: usize = 0;
    assert(v@.subrange(0, v@.len() as int) =~= v@);
    while pos < v.len()
        invariant
            pos <= v@.len(),
            lines(v@) == rows(out@) + lines(v@.subrange(pos as int, v@.len() as int)),
        decreases v@.len() - pos,
    {
        let ghost rest = v@.subrange(pos as int, v@.len() as int);
        let ghost p = |c: char| c == '\n';
        let k = find_char_from(v, '\n', pos);
        proof {
            assert forall|j: int| 0 <= j < k - pos implies !p(#[trigger] rest[j]) by {
                assert(rest[j] == v@[pos + j]);
            }
            if k < v@.len() {
                assert(rest[k - pos] == v@[k as int]);
            }
            lemma_first_where_exact(rest, p, k - pos);
        }
        let mut end = k;
        if end > pos && v[end - 1] == '\r' && k < v.len() {
            end = end - 1;
        }
        let line = slice_chars(v, pos, end);
        let ghost before = rows(out@);
        out.push(line);
        assert(rows(out@) =~= before.push(line@));
        if k == v.len() {
            assert(line@ =~= rest);
            assert(lines(rest) == seq![rest]);
            pos = k;
            assert(v@.subrange(pos as int, v@.len() as int) =~= Seq::<char>::empty());
            assert(lines(v@) == rows(out@) + lines(v@.subrange(pos as int, v@.len() as int)));
        } else {
            assert(line@ =~= strip_cr(rest.subrange(0, k - pos)));
            assert(rest.subrange(k - pos + 1, rest.len() as int) =~= v@.subrange(k + 1, v@.len() as int));
            pos = k + 1;
        }
    }
    assert(v@.subrange(pos as int, v@.len() as int) =~= Seq::<char>::empty());
    assert(rows(out@) + Seq::<Seq<char>>::empty() =~= rows(out@));
    out
}

/// The lines of `s` (`str::lines`), each as characters.
pub fn str_lines(s: &str) -> (out: Vec<Vec<char>>)
    ensures
        rows(out@) == lines(s@),
{
    let v = str_chars(s);
    lines_chars(v.as_slice())
}

} // verus!

verus! {

/// The decimal digit for `d < 10`.
pub open spec fn digit_char(d: int) -> char {
    if d == 0 {
        '0'
    } else if d == 1 {
        '1'
    } else if d == 2 {
        '2'
    } else if d == 3 {
        '3'
    } else if d == 4 {
        '4'
    } else if d == 5 {
        '5'
    } else if d == 6 {
        '6'
    } else if d == 7 {
        '7'
    } else if d == 8 {
        '8'
    } else {
        '9'
    }
}

/// The decimal form of `n`, without leading zeros.
pub open spec fn decimal(n: nat) -> Seq<char>
    decreases n,
{
    if n < 10 {
        seq![digit_char(n as int)]
    } else {
        decimal(n / 10).push(digit_char((n % 10) as int))
    }
}

fn digit_exec(d: u64) -> (c: char)
    requires
        d < 10,
    ensures
        c == digit_char(d as int),
{
    if d == 0 {
        '0'
    } else if d == 1 {
        '1'
    } else if d == 2 {
        '2'
    } else if d == 3 {
        '3'
    } else if d == 4 {
        '4'
    } else if d == 5 {
        '5'
    } else if d == 6 {
        '6'
    } else if d == 7 {
        '7'
    } else if d == 8 {
        '8'
    } else {
        '9'
    }
}

/// The decimal digits of `n`.
pub fn decimal_chars(n: u64) -> (v: Vec<char>)
    ensures
        v@ == decimal(n as nat),
    decreases n,
{
    if n < 10 {
        let mut v: Vec<char> = Vec::new();
        v.push(digit_exec(n));
        v
    } else {
        let mut v = decimal_chars(n / 10);
        v.push(digit_exec(n % 10));
        v
    }
}

/// `n` in decimal (what `n.to_string()` prints).
pub fn decimal_string(n: u64) -> (s: String)
    ensures
        s@ == decimal(n as nat),
{
    let v = decimal_chars(n);
    string_from(v.as_slice())
}

/// Appends the characters of `s` to `v`.
pub fn append_str(v: &mut Vec<char>, s: &str)
    ensures
        final(v)@ == old(v)@ + s@,
{
    let c = str_chars(s);
    let mut i: usize = 0;
    let ghost start = v@;
    while i < c.len()
        invariant
            i <= c@.len(),
            c@ == s@,
            v@ == start + c@.take(i as int),
        decreases c@.len() - i,
    {
        v.push(c[i]);
        assert(c@.take(i as int + 1) =~= c@.take(i as int).push(c@[i as int]));
        i = i + 1;
    }
    assert(c@.take(c@.len() as int) =~= c@);
}

/// The concatenation of `a` and `b`.
pub fn concat2(a: &str, b: &str) -> (r: String)
    ensures
        r@ == a@ + b@,
{
    let mut v = str_chars(a);
    append_str(&mut v, b);
    string_from(v.as_slice())
}

/// The concatenation of `a`, `b` and `c`.
pub fn concat3(a: &str, b: &str, c: &str) -> (r: String)
    ensures
        r@ == a@ + b@ + c@,
{
    let mut v = str_chars(a);
    append_str(&mut v, b);
    append_str(&mut v, c);
    string_from(v.as_slice())
}

} // verus!

verus! {

/// The pieces of `s` that `str::split_inclusive('\n')` gives: each line with
/// its `\n`, then the rest when the text does not end in a line break.
pub open spec fn split_inclusive_nl(s: Seq<char>) -> Seq<Seq<char>>
    decreases s.len(),
{
    if s.len() == 0 {
        seq![]
    } else {
        match first_where(s, |c: char| c == '\n') {
            None => seq![s],
            Some(k) => if 0 <= k < s.len() {
                seq![s.subrange(0, k + 1)] + split_inclusive_nl(s.subrange(k + 1, s.len() as int))
            } else {
                seq![s]
            },
        }
    }
}

/// The pieces of `v` that `str::split_inclusive('\n')` gives.
pub fn split_inclusive_nl_chars(v: &[char]) -> (out: Vec<Vec<char>>)
    ensures
        rows(out@) == split_inclusive_nl(v@),
{
    let mut out: Vec<Vec<char>> = Vec::new();
    let mut pos: usize = 0;
    assert(v@.subrange(0, v@.len() as int) =~= v@);
    while pos < v.len()
        invariant
            pos <= v@.len(),
            split_inclusive_nl(v@) == rows(out@) + split_inclusive_nl(v@.subrange(pos as int, v@.len() as int)),
        decreases v@.len() - pos,
    {
        let ghost rest = v@.subrange(pos as int, v@.len() as int);
        let ghost p = |c: char| c == '\n';
        let k = find_char_from(v, '\n', pos);
        proof {
            assert forall|j: int| 0 <= j < k - pos implies !p(#[trigger] rest[j]) by {
                assert(rest[j] == v@[pos + j]);
            }
            if k < v@.len() {
                assert(rest[k - pos] == v@[k as int]);
            }
            lemma_first_where_exact(rest, p, k - pos);
        }
        let end = if k < v.len() { k + 1 } else { k };
        let piece = slice_chars(v, pos, end);
        let ghost before = rows(out@);
        out.push(piece);
        assert(rows(out@) =~= before.push(piece@));
        if k == v.len() {
            assert(piece@ =~= rest);
            pos = k;
            assert(v@.subrange(pos as int, v@.len() as int) =~= Seq::<char>::empty());
        } else {
            assert(piece@ =~= rest.subrange(0, k - pos + 1));
            assert(rest.subrange(k - pos + 1, rest.len() as int) =~= v@.subrange(k + 1, v@.len() as int));
            pos = k + 1;
        }
    }
    assert(v@.subrange(pos as int, v@.len() as int) =~= Seq::<char>::empty());
    assert(rows(out@) + Seq::<Seq<char>>::empty() =~= rows(out@));
    out
}

} // verus!

verus! {

/// Splitting always gives at least one piece.
pub proof fn lemma_split_nonempty(s: Seq<char>, p: spec_fn(char) -> bool)
    ensures
        split_by(s, p).len() >= 1,
    decreases s.len(),
{
    match first_where(s, p) {
        None => {},
        Some(k) => {
            if 0 <= k < s.len() {
                lemma_split_nonempty(s.subrange(k + 1, s.len() as int), p);
            }
        },
    }
}

/// The base64 digit for the six-bit value `v` (RFC 4648): `A`-`Z`, `a`-`z`,
/// `0`-`9`, then `+` and `/`, or `-` and `_` in the URL-safe alphabet.
pub open spec fn base64_digit(v: int, url_safe: bool) -> char {
    if v < 26 {
        (('A' as int) + v) as char
    } else if v < 52 {
        (('a' as int) + v - 26) as char
    } else if v < 62 {
        (('0' as int) + v - 52) as char
    } else if v == 62 {
        if url_safe { '-' } else { '+' }
    } else {
        if url_safe { '_' } else { '/' }
    }
}

/// The base64 text of `b` (RFC 4648): each three bytes become four digits;
/// a last one or two bytes become two or three digits, followed by `=`
/// padding to four when `padded`.
pub open spec fn base64_spec(b: Seq<u8>, url_safe: bool, padded: bool) -> Seq<char>
    decreases b.len(),
{
    if b.len() >= 3 {
        let x = b[0] as int;
        let y = b[1] as int;
        let z = b[2] as int;
        seq![
            base64_digit(x / 4, url_safe),
            base64_digit((x % 4) * 16 + y / 16, url_safe),
            base64_digit((y % 16) * 4 + z / 64, url_safe),
            base64_digit(z % 64, url_safe),
        ] + base64_spec(b.skip(3), url_safe, padded)
    } else if b.len() == 2 {
        let x = b[0] as int;
        let y = b[1] as int;
        seq![
            base64_digit(x / 4, url_safe),
            base64_digit((x % 4) * 16 + y / 16, url_safe),
            base64_digit((y % 16) * 4, url_safe),
        ] + (if padded { seq!['='] } else { Seq::empty() })
    } else if b.len() == 1 {
        let x = b[0] as int;
        seq![base64_digit(x / 4, url_safe), base64_digit((x % 4) * 16, url_safe)] + (if padded {
            seq!['=', '=']
        } else {
            Seq::empty()
        })
    } else {
        Seq::empty()
    }
}

} // verus!
