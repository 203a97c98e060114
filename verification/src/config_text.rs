//! Plain-text handling of the TOML configuration that providers share: the
//! keys and table headers of a common configuration, and a provider's own
//! configuration with what it repeats of the common one taken out.
use vstd::prelude::*;

use crate::text::{
    first_where, lemma_first_where_exact, lines, rows, slice_chars, str_chars, str_lines, string_from, trim,
    trim_chars, trim_end, trim_end_chars,
};

verus! {

/// A trimmed line that opens a table: `[` ... `]`.
pub open spec fn is_header(t: Seq<char>) -> bool {
    t.len() > 0 && t[0] == '[' && t.last() == ']'
}

/// The test for `=`.
pub open spec fn eq_sign() -> spec_fn(char) -> bool {
    |c: char| c == '='
}

/// The key that a `key = value` line sets: the trimmed text before the first
/// `=`, when the line is not blank, not a comment and that text is not empty.
pub open spec fn toml_key(line: Seq<char>) -> Option<Seq<char>> {
    let t = trim(line);
    if t.len() == 0 || t[0] == '#' {
        None
    } else {
        match first_where(t, eq_sign()) {
            None => None,
            Some(i) => if trim(t.take(i)).len() == 0 {
                None
            } else {
                Some(trim(t.take(i)))
            },
        }
    }
}

/// Text ending in one line break, or nothing when it is blank.
pub open spec fn ensure_newline(v: Seq<char>) -> Seq<char> {
    if trim(v).len() == 0 {
        Seq::empty()
    } else {
        trim_end(v) + seq!['\n']
    }
}

/// Lines joined with line breaks.
pub open spec fn join_lines(ls: Seq<Seq<char>>) -> Seq<char>
    decreases ls.len(),
{
    if ls.len() == 0 {
        Seq::empty()
    } else if ls.len() == 1 {
        ls[0]
    } else {
        join_lines(ls.drop_last()) + seq!['\n'] + ls.last()
    }
}

/// The keys set by lines `i..` before the first table header.
pub open spec fn root_keys_from(ls: Seq<Seq<char>>, i: int) -> Seq<Seq<char>>
    decreases ls.len() - i,
{
    if i < 0 || i >= ls.len() {
        Seq::empty()
    } else if is_header(trim(ls[i])) {
        Seq::empty()
    } else {
        match toml_key(trim(ls[i])) {
            Some(k) => seq![k] + root_keys_from(ls, i + 1),
            None => root_keys_from(ls, i + 1),
        }
    }
}

/// The table headers among lines `i..`, trimmed.
pub open spec fn headers_from(ls: Seq<Seq<char>>, i: int) -> Seq<Seq<char>>
    decreases ls.len() - i,
{
    if i < 0 || i >= ls.len() {
        Seq::empty()
    } else if is_header(trim(ls[i])) {
        seq![trim(ls[i])] + headers_from(ls, i + 1)
    } else {
        headers_from(ls, i + 1)
    }
}

/// The lines `i..` of a provider's configuration that are kept: tables whose
/// header the common configuration has are dropped with their lines, and so
/// are lines before the first table that set a key the common configuration
/// sets before its first table.
pub open spec fn kept_lines(
    ls: Seq<Seq<char>>,
    i: int,
    skipping: bool,
    in_root: bool,
    keys: Seq<Seq<char>>,
    headers: Seq<Seq<char>>,
) -> Seq<Seq<char>>
    decreases ls.len() - i,
{
    if i < 0 || i >= ls.len() {
        Seq::empty()
    } else {
        let t = trim(ls[i]);
        if is_header(t) {
            if headers.contains(t) {
                kept_lines(ls, i + 1, true, false, keys, headers)
            } else {
                seq![ls[i]] + kept_lines(ls, i + 1, false, false, keys, headers)
            }
        } else if skipping {
            kept_lines(ls, i + 1, true, in_root, keys, headers)
        } else if in_root && (toml_key(t) matches Some(k) && keys.contains(k)) {
            kept_lines(ls, i + 1, false, true, keys, headers)
        } else {
            seq![ls[i]] + kept_lines(ls, i + 1, skipping, in_root, keys, headers)
        }
    }
}

/// A provider's configuration without what it repeats of the common one.
pub open spec fn strip_common_spec(config: Seq<char>, common: Seq<char>) -> Seq<char> {
    let keys = root_keys_from(lines(common), 0);
    let headers = headers_from(lines(common), 0);
    if keys.len() == 0 && headers.len() == 0 {
        ensure_newline(trim_end(config))
    } else {
        ensure_newline(trim_end(join_lines(kept_lines(lines(config), 0, false, true, keys, headers))))
    }
}

/// Whether a trimmed line opens a table.
fn is_header_exec(t: &[char]) -> (r: bool)
    ensures
        r == is_header(t@),
{
    t.len() > 0 && t[0] == '[' && t[t.len() - 1] == ']'
}

/// The key that a line sets, as characters.
fn toml_key_chars(line: &[char]) -> (r: Option<Vec<char>>)
    ensures
        match r {
            Some(k) => toml_key(line@) == Some(k@),
            None => toml_key(line@) is None,
        },
{
    let t = trim_chars(line);
    if t.len() == 0 || t[0] == '#' {
        return None;
    }
    let i = crate::text::find_char_from(t.as_slice(), '=', 0);
    proof {
        lemma_first_where_exact(t@, eq_sign(), i as int);
    }
    if i >= t.len() {
        return None;
    }
    let before = slice_chars(t.as_slice(), 0, i);
    assert(before@ == t@.take(i as int));
    let k = trim_chars(before.as_slice());
    if k.len() == 0 {
        None
    } else {
        Some(k)
    }
}

/// The key that a `key = value` line sets, if it sets one.
pub fn toml_key_from_line(line: &str) -> (r: Option<String>)
    ensures
        match r {
            Some(k) => toml_key(line@) == Some(k@),
            None => toml_key(line@) is None,
        },
{
    let v = str_chars(line);
    match toml_key_chars(v.as_slice()) {
        Some(k) => Some(string_from(k.as_slice())),
        None => None,
    }
}

/// Text ending in one line break, or empty text when it is blank.
pub fn ensure_text_newline(value: &str) -> (r: String)
    ensures
        r@ == ensure_newline(value@),
{
    let v = str_chars(value);
    let t = trim_chars(v.as_slice());
    if t.len() == 0 {
        String::new()
    } else {
        let mut e = trim_end_chars(v.as_slice());
        e.push('\n');
        string_from(e.as_slice())
    }
}

/// Whether `x` is one of `v`.
fn contains_row(v: &Vec<Vec<char>>, x: &[char]) -> (r: bool)
    ensures
        r == rows(v@).contains(x@),
{
    let mut i: usize = 0;
    while i < v.len()
        invariant
            i <= v@.len(),
            forall|j: int| 0 <= j < i ==> rows(v@)[j] != x@,
        decreases v@.len() - i,
    {
        if crate::text::chars_eq(v[i].as_slice(), x) {
            assert(rows(v@)[i as int] == x@);
            return true;
        }
        i = i + 1;
    }
    false
}

/// The keys set before the first table header of the lines `ls`.
fn root_keys_of(ls: &Vec<Vec<char>>) -> (r: Vec<Vec<char>>)
    ensures
        rows(r@) == root_keys_from(rows(ls@), 0),
{
    let ghost l = rows(ls@);
    let mut out: Vec<Vec<char>> = Vec::new();
    let mut i: usize = 0;
    while i < ls.len()
        invariant
            i <= ls@.len(),
            l == rows(ls@),
            rows(out@) + root_keys_from(l, i as int) == root_keys_from(l, 0),
        decreases ls@.len() - i,
    {
        let t = trim_chars(ls[i].as_slice());
        assert(l[i as int] == ls@[i as int]@);
        if is_header_exec(t.as_slice()) {
            assert(rows(out@) + root_keys_from(l, i as int) =~= rows(out@));
            return out;
        }
        match toml_key_chars(t.as_slice()) {
            Some(k) => {
                let ghost before = rows(out@);
                out.push(k);
                assert(rows(out@) =~= before.push(k@));
                assert(rows(out@) + root_keys_from(l, i + 1) =~= before + root_keys_from(l, i as int));
            },
            None => {},
        }
        i = i + 1;
    }
    assert(rows(out@) + root_keys_from(l, i as int) =~= rows(out@));
    out
}

/// The table headers among the lines `ls`, trimmed.
fn headers_of(ls: &Vec<Vec<char>>) -> (r: Vec<Vec<char>>)
    ensures
        rows(r@) == headers_from(rows(ls@), 0),
{
    let ghost l = rows(ls@);
    let mut out: Vec<Vec<char>> = Vec::new();
    let mut i: usize = 0;
    while i < ls.len()
        invariant
            i <= ls@.len(),
            l == rows(ls@),
            rows(out@) + headers_from(l, i as int) == headers_from(l, 0),
        decreases ls@.len() - i,
    {
        let t = trim_chars(ls[i].as_slice());
        assert(l[i as int] == ls@[i as int]@);
        if is_header_exec(t.as_slice()) {
            let ghost before = rows(out@);
            out.push(t);
            assert(rows(out@) =~= before.push(trim(l[i as int])));
            assert(rows(out@) + headers_from(l, i + 1) =~= before + headers_from(l, i as int));
        }
        i = i + 1;
    }
    assert(rows(out@) + headers_from(l, i as int) =~= rows(out@));
    out
}

/// The keys that a configuration sets before its first table.
pub fn toml_root_keys_before_first_table(config_contents: &str) -> (r: Vec<String>)
    ensures
        r@.map_values(|k: String| k@) == root_keys_from(lines(config_contents@), 0),
{
    let ls = str_lines(config_contents);
    let keys = root_keys_of(&ls);
    let mut out: Vec<String> = Vec::new();
    let mut i: usize = 0;
    while i < keys.len()
        invariant
            i <= keys@.len(),
            out@.map_values(|k: String| k@) == rows(keys@).take(i as int),
        decreases keys@.len() - i,
    {
        let ghost before = out@.map_values(|k: String| k@);
        out.push(string_from(keys[i].as_slice()));
        assert(out@.map_values(|k: String| k@) =~= before.push(keys@[i as int]@));
        assert(rows(keys@).take(i + 1) =~= rows(keys@).take(i as int).push(keys@[i as int]@));
        i = i + 1;
    }
    assert(rows(keys@).take(keys@.len() as int) =~= rows(keys@));
    out
}

/// Lines joined with line breaks.
fn join_rows(ls: &Vec<Vec<char>>) -> (r: Vec<char>)
    ensures
        r@ == join_lines(rows(ls@)),
{
    let ghost l = rows(ls@);
    let mut out: Vec<char> = Vec::new();
    let mut i: usize = 0;
    while i < ls.len()
        invariant
            i <= ls@.len(),
            l == rows(ls@),
            out@ == join_lines(l.take(i as int)),
        decreases ls@.len() - i,
    {
        let ghost before = out@;
        assert(l.take(i + 1).drop_last() =~= l.take(i as int));
        assert(l.take(i + 1).last() == ls@[i as int]@);
        if i > 0 {
            out.push('\n');
        }
        let mut j: usize = 0;
        let ghost mid = out@;
        while j < ls[i].len()
            invariant
                i < ls@.len(),
                j <= ls@[i as int]@.len(),
                out@ == mid + ls@[i as int]@.take(j as int),
            decreases ls@[i as int]@.len() - j,
        {
            out.push(ls[i][j]);
            assert(ls@[i as int]@.take(j + 1) =~= ls@[i as int]@.take(j as int).push(ls@[i as int]@[j as int]));
            j = j + 1;
        }
        assert(ls@[i as int]@.take(j as int) =~= ls@[i as int]@);
        if i == 0 {
            assert(out@ =~= join_lines(l.take(1)));
        }
        i = i + 1;
    }
    assert(l.take(ls@.len() as int) =~= l);
    out
}

/// A provider's configuration without what it repeats of the common
/// configuration: the tables the common configuration has, and the keys it
/// sets before its first table when they are set before the provider's first
/// table. A key before the first table is always one of the keys set there,
/// so each such repeated key is dropped.
pub fn strip_common_config_text_fallback(config_contents: &str, common_config: &str) -> (r: String)
    ensures
        r@ == strip_common_spec(config_contents@, common_config@),
{
    let common = str_lines(common_config);
    let keys = root_keys_of(&common);
    let headers = headers_of(&common);
    if keys.len() == 0 && headers.len() == 0 {
        let v = str_chars(config_contents);
        let e = string_from(trim_end_chars(v.as_slice()).as_slice());
        return ensure_text_newline(e.as_str());
    }
    let ls = str_lines(config_contents);
    let ghost l = rows(ls@);
    let ghost kv = rows(keys@);
    let ghost hv = rows(headers@);
    let mut kept: Vec<Vec<char>> = Vec::new();
    let mut skipping = false;
    let mut in_root = true;
    let mut i: usize = 0;
    while i < ls.len()
        invariant
            i <= ls@.len(),
            l == rows(ls@),
            kv == rows(keys@),
            hv == rows(headers@),
            rows(kept@) + kept_lines(l, i as int, skipping, in_root, kv, hv) == kept_lines(l, 0, false, true, kv, hv),
        decreases ls@.len() - i,
    {
        let line = &ls[i];
        assert(l[i as int] == line@);
        let t = trim_chars(line.as_slice());
        let ghost before = rows(kept@);
        let ghost s0 = skipping;
        let ghost r0 = in_root;
        let mut keep = false;
        if is_header_exec(t.as_slice()) {
            in_root = false;
            skipping = contains_row(&headers, t.as_slice());
            keep = !skipping;
        } else if !skipping {
            let drop = in_root && match toml_key_chars(t.as_slice()) {
                Some(k) => contains_row(&keys, k.as_slice()),
                None => false,
            };
            keep = !drop;
        }
        if keep {
            kept.push(slice_chars(line.as_slice(), 0, line.len()));
            assert(line@.subrange(0, line@.len() as int) =~= line@);
            assert(rows(kept@) =~= before.push(l[i as int]));
            assert(rows(kept@) + kept_lines(l, i + 1, skipping, in_root, kv, hv) =~= before + kept_lines(
                l,
                i as int,
                s0,
                r0,
                kv,
                hv,
            ));
        } else {
            assert(rows(kept@) + kept_lines(l, i + 1, skipping, in_root, kv, hv) =~= before + kept_lines(
                l,
                i as int,
                s0,
                r0,
                kv,
                hv,
            ));
        }
        i = i + 1;
    }
    assert(rows(kept@) + kept_lines(l, i as int, skipping, in_root, kv, hv) =~= rows(kept@));
    let joined = join_rows(&kept);
    let e = string_from(trim_end_chars(joined.as_slice()).as_slice());
    ensure_text_newline(e.as_str())
}

} // verus!
