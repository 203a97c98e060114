//! Provider sync: moving Codex's past sessions over to the model provider in
//! use. This module holds the decisions and the reports; the reading and
//! writing of session files and databases happens around it.
use vstd::prelude::*;

use crate::json::{count_value, is_count, is_text, member, members_get, members_get_exec, JsonValue};
use crate::order::{insert_sorted, lemma_lt_irreflexive, seq_lt, strictly_sorted};
use crate::relay_rotation::{contains_str, ids_view};
use crate::text::{char_is_ascii_alnum, concat2, ends_with, has_control, is_ascii_alnum, is_blank, lines, owned, rows, slice_chars, starts_with, starts_with_chars, str_chars, str_lines, string_from, trim, trim_chars, trim_start, trim_start_chars, trim_str};

verus! {

/// The provider Codex uses when its configuration names none.
pub const DEFAULT_PROVIDER: &'static str = "openai";

/// Who the backups of a sync say made them.
pub const BACKUP_MANAGER: &'static str = "Codex++ provider sync";

/// How a provider sync ended.
#[derive(Debug, Clone, Copy, PartialEq, Eq, Structural)]
pub enum ProviderSyncStatus {
    Disabled,
    Partial,
    Skipped,
    Synced,
}

/// The report of a provider sync.
#[derive(Debug, Clone)]
pub struct ProviderSyncResult {
    pub status: ProviderSyncStatus,
    pub message: String,
    pub target_provider: String,
    pub backup_dir: Option<String>,
    pub changed_session_files: usize,
    pub skipped_locked_rollout_files: Vec<String>,
    pub sqlite_rows_updated: usize,
    pub sqlite_provider_rows_updated: usize,
    pub sqlite_catalog_provider_rows_updated: usize,
    pub sqlite_catalog_rows_inserted: usize,
    pub sqlite_catalog_state_rows_updated: usize,
    pub sqlite_user_event_rows_updated: usize,
    pub sqlite_cwd_rows_updated: usize,
    pub duplicate_thread_rows_merged: usize,
    pub updated_workspace_roots: usize,
    pub encrypted_content_warning: Option<String>,
}

/// A session index entry whose session no longer exists.
#[derive(Debug, Clone)]
pub struct SessionIndexCleanupCandidate {
    pub id: String,
    pub thread_name: String,
    pub updated_at: String,
}

/// The entries a session index cleanup would remove, and the index it looked at.
#[derive(Debug, Clone)]
pub struct SessionIndexCleanupPreview {
    pub snapshot_sha256: String,
    pub candidates: Vec<SessionIndexCleanupCandidate>,
}

/// The report of a session index cleanup.
#[derive(Debug, Clone)]
pub struct SessionIndexCleanupResult {
    pub pruned_entries: usize,
    pub backup_dir: Option<String>,
    pub app_state_pruned: bool,
    pub app_state_backup_dir: Option<String>,
}

/// The report of removing references to deleted threads.
#[derive(Debug, Clone)]
pub struct DeletedThreadReferencePruneResult {
    pub pruned_session_index_entries: usize,
    pub session_index_backup_dir: Option<String>,
    pub app_state_pruned: bool,
    pub app_state_backup_dir: Option<String>,
}

/// A cleanup that failed, with the backup it made.
#[derive(Debug, Clone)]
pub struct SessionIndexCleanupApplyError {
    pub message: String,
    pub backup_dir: Option<String>,
}

/// Where a provider id was seen.
#[derive(Debug, Clone, Copy, PartialEq, Eq, Structural)]
pub enum ProviderSyncTargetSource {
    Config,
    Rollout,
    Sqlite,
    Manual,
}

/// A provider that sessions can be synced to.
#[derive(Debug, Clone)]
pub struct ProviderSyncTargetOption {
    pub id: String,
    pub sources: Vec<ProviderSyncTargetSource>,
    pub is_current_provider: bool,
    pub is_manual: bool,
    pub is_saved: bool,
}

/// The providers that sessions can be synced to, the current one first.
#[derive(Debug, Clone)]
pub struct ProviderSyncTargetList {
    pub current_provider: String,
    pub targets: Vec<ProviderSyncTargetOption>,
}

/// A report with the given status, message, target, backup and counts, and nothing else.
pub open spec fn is_plain_result(
    r: ProviderSyncResult,
    status: ProviderSyncStatus,
    message: Seq<char>,
    target: Seq<char>,
    changed: usize,
    sqlite_rows: usize,
) -> bool {
    &&& r.status == status
    &&& r.message@ == message
    &&& r.target_provider@ == target
    &&& r.changed_session_files == changed
    &&& r.skipped_locked_rollout_files@.len() == 0
    &&& r.sqlite_rows_updated == sqlite_rows
    &&& r.sqlite_provider_rows_updated == 0
    &&& r.sqlite_catalog_provider_rows_updated == 0
    &&& r.sqlite_catalog_rows_inserted == 0
    &&& r.sqlite_catalog_state_rows_updated == 0
    &&& r.sqlite_user_event_rows_updated == 0
    &&& r.sqlite_cwd_rows_updated == 0
    &&& r.duplicate_thread_rows_merged == 0
    &&& r.updated_workspace_roots == 0
    &&& r.encrypted_content_warning is None
}

/// A report with only the main fields set.
pub fn result(
    status: ProviderSyncStatus,
    message: String,
    target_provider: &str,
    backup_dir: Option<String>,
    changed_session_files: usize,
    sqlite_rows_updated: usize,
) -> (r: ProviderSyncResult)
    ensures
        is_plain_result(r, status, message@, target_provider@, changed_session_files, sqlite_rows_updated),
        r.backup_dir == backup_dir,
{
    ProviderSyncResult {
        status,
        message,
        target_provider: owned(target_provider),
        backup_dir,
        changed_session_files,
        skipped_locked_rollout_files: Vec::new(),
        sqlite_rows_updated,
        sqlite_provider_rows_updated: 0,
        sqlite_catalog_provider_rows_updated: 0,
        sqlite_catalog_rows_inserted: 0,
        sqlite_catalog_state_rows_updated: 0,
        sqlite_user_event_rows_updated: 0,
        sqlite_cwd_rows_updated: 0,
        duplicate_thread_rows_merged: 0,
        updated_workspace_roots: 0,
        encrypted_content_warning: None,
    }
}

/// A provider id that may be named as a sync target: ASCII letters, digits, `_`, `-` and `.`.
pub open spec fn valid_explicit_id(v: Seq<char>) -> bool {
    v.len() > 0 && forall|i: int| 0 <= i < v.len() ==> (is_ascii_alnum(#[trigger] v[i]) || v[i] == '_' || v[i] == '-' || v[i] == '.')
}

/// Whether a provider id may be named as a sync target.
pub fn is_valid_explicit_provider_id(value: &str) -> (r: bool)
    ensures
        r == valid_explicit_id(value@),
{
    let v = str_chars(value);
    if v.len() == 0 {
        return false;
    }
    let mut i: usize = 0;
    while i < v.len()
        invariant
            i <= v@.len(),
            v@ == value@,
            forall|j: int| 0 <= j < i ==> (is_ascii_alnum(#[trigger] v@[j]) || v@[j] == '_' || v@[j] == '-' || v@[j] == '.'),
        decreases v@.len() - i,
    {
        let c = v[i];
        if !(char_is_ascii_alnum(c) || c == '_' || c == '-' || c == '.') {
            return false;
        }
        i = i + 1;
    }
    true
}

/// A provider id worth listing: not blank, no control characters.
pub open spec fn valid_discovered_id(v: Seq<char>) -> bool {
    trim(v).len() > 0 && !has_control(v)
}

/// Whether a provider id found somewhere is worth listing.
pub fn is_valid_provider_id_for_discovery(value: &str) -> (r: bool)
    ensures
        r == valid_discovered_id(value@),
{
    let v = str_chars(value);
    !is_blank(value) && !crate::text::has_control_exec(v.as_slice())
}

/// The content of a TOML string after its opening quote `quote`, up to the
/// closing quote; in double-quoted strings a backslash keeps the next character.
pub open spec fn toml_string_body(s: Seq<char>, quote: char, escaping: bool, acc: Seq<char>) -> Option<Seq<char>>
    decreases s.len(),
{
    if s.len() == 0 {
        None
    } else if quote == '"' && escaping {
        toml_string_body(s.drop_first(), quote, false, acc.push(s[0]))
    } else if quote == '"' && s[0] == '\\' {
        toml_string_body(s.drop_first(), quote, true, acc)
    } else if s[0] == quote {
        Some(acc)
    } else {
        toml_string_body(s.drop_first(), quote, false, acc.push(s[0]))
    }
}

/// The string a TOML value starts with, when it starts with a quote.
pub open spec fn toml_string_spec(raw: Seq<char>) -> Option<Seq<char>> {
    if raw.len() == 0 || (raw[0] != '"' && raw[0] != '\'') {
        None
    } else {
        toml_string_body(raw.drop_first(), raw[0], false, Seq::empty())
    }
}

/// Reads the quoted string at the start of a TOML value.
pub fn toml_string_value(raw: &[char]) -> (r: Option<String>)
    ensures
        match r {
            Some(s) => toml_string_spec(raw@) == Some(s@),
            None => toml_string_spec(raw@) is None,
        },
{
    if raw.len() == 0 {
        return None;
    }
    let quote = raw[0];
    if quote != '"' && quote != '\'' {
        return None;
    }
    let mut value: Vec<char> = Vec::new();
    let mut escaping = false;
    let mut i: usize = 1;
    assert(raw@.drop_first() =~= raw@.skip(1));
    while i < raw.len()
        invariant
            1 <= i <= raw@.len(),
            quote == raw@[0],
            toml_string_spec(raw@) == toml_string_body(raw@.skip(i as int), quote, escaping, value@),
        decreases raw@.len() - i,
    {
        let ch = raw[i];
        let ghost si = raw@.skip(i as int);
        assert(si[0] == ch);
        assert(si.drop_first() =~= raw@.skip(i as int + 1));
        assert(toml_string_body(si, quote, escaping, value@) == (if quote == '"' && escaping {
            toml_string_body(si.drop_first(), quote, false, value@.push(ch))
        } else if quote == '"' && ch == '\\' {
            toml_string_body(si.drop_first(), quote, true, value@)
        } else if ch == quote {
            Some(value@)
        } else {
            toml_string_body(si.drop_first(), quote, false, value@.push(ch))
        }));
        if quote == '"' && escaping {
            value.push(ch);
            escaping = false;
        } else if quote == '"' && ch == '\\' {
            escaping = true;
        } else if ch == quote {
            return Some(string_from(value.as_slice()));
        } else {
            value.push(ch);
        }
        i = i + 1;
    }
    None
}

/// The raw value of `key = value` in a line, after the `=`.
pub open spec fn toml_key_raw_spec(line: Seq<char>, key: Seq<char>) -> Option<Seq<char>> {
    if !starts_with(line, key) {
        None
    } else {
        let rest = trim_start(line.skip(key.len() as int));
        if rest.len() > 0 && rest[0] == '=' {
            Some(trim_start(rest.drop_first()))
        } else {
            None
        }
    }
}

/// The raw value of `key = value` in a line.
pub fn toml_key_raw_value(line: &[char], key: &[char]) -> (r: Option<Vec<char>>)
    ensures
        match r {
            Some(v) => toml_key_raw_spec(line@, key@) == Some(v@),
            None => toml_key_raw_spec(line@, key@) is None,
        },
{
    if !starts_with_chars(line, key) {
        return None;
    }
    let after = slice_chars(line, key.len(), line.len());
    assert(after@ =~= line@.skip(key@.len() as int));
    let rest = trim_start_chars(after.as_slice());
    if rest.len() > 0 && rest[0] == '=' {
        let tail = slice_chars(rest.as_slice(), 1, rest.len());
        assert(tail@ =~= rest@.drop_first());
        Some(trim_start_chars(tail.as_slice()))
    } else {
        None
    }
}

/// The string value of root key `key` in TOML text: the first line of the
/// root table that sets the key decides; a table header ends the root table.
pub open spec fn root_toml_string_spec(ls: Seq<Seq<char>>, key: Seq<char>) -> Option<Seq<char>>
    decreases ls.len(),
{
    if ls.len() == 0 {
        None
    } else if starts_with(trim(ls[0]), seq!['[']) {
        None
    } else {
        match toml_key_raw_spec(trim(ls[0]), key) {
            Some(raw) => toml_string_spec(raw),
            None => root_toml_string_spec(ls.drop_first(), key),
        }
    }
}

/// The string value of root key `key` in TOML text.
pub fn root_toml_string_value(text: &str, key: &str) -> (r: Option<String>)
    ensures
        match r {
            Some(s) => root_toml_string_spec(lines(text@), key@) == Some(s@),
            None => root_toml_string_spec(lines(text@), key@) is None,
        },
{
    let ls = str_lines(text);
    let k = str_chars(key);
    let ghost all = rows(ls@);
    let mut i: usize = 0;
    assert(all.skip(0) =~= all);
    let bracket: Vec<char> = vec!['['];
    assert(bracket@ =~= seq!['[']);
    while i < ls.len()
        invariant
            i <= ls@.len(),
            all == rows(ls@),
            all == lines(text@),
            k@ == key@,
            bracket@ == seq!['['],
            root_toml_string_spec(all, key@) == root_toml_string_spec(all.skip(i as int), key@),
        decreases ls@.len() - i,
    {
        let ghost rest = all.skip(i as int);
        assert(rest[0] == ls@[i as int]@);
        assert(rest.drop_first() =~= all.skip(i as int + 1));
        let stripped = trim_chars(ls[i].as_slice());
        if starts_with_chars(stripped.as_slice(), bracket.as_slice()) {
            return None;
        }
        match toml_key_raw_value(stripped.as_slice(), k.as_slice()) {
            Some(raw) => return toml_string_value(raw.as_slice()),
            None => {},
        }
        i = i + 1;
    }
    None
}

/// The provider Codex's configuration selects: `model_provider` when set and
/// not blank, else the default provider (also when there is no configuration).
pub open spec fn current_provider_spec(config: Option<Seq<char>>) -> Seq<char> {
    match config {
        None => DEFAULT_PROVIDER@,
        Some(text) => match root_toml_string_spec(lines(text), "model_provider"@) {
            Some(p) => if trim(p).len() == 0 {
                DEFAULT_PROVIDER@
            } else {
                p
            },
            None => DEFAULT_PROVIDER@,
        },
    }
}

/// The provider Codex's configuration selects (`config`: the text of
/// `config.toml`, when it could be read).
pub fn read_current_provider(config: Option<&str>) -> (r: String)
    ensures
        r@ == current_provider_spec(match config {
            Some(t) => Some(t@),
            None => None,
        }),
{
    let text = match config {
        Some(t) => t,
        None => return owned(DEFAULT_PROVIDER),
    };
    match root_toml_string_value(text, "model_provider") {
        Some(p) => if is_blank(p.as_str()) {
            owned(DEFAULT_PROVIDER)
        } else {
            p
        },
        None => owned(DEFAULT_PROVIDER),
    }
}

/// How `{:?}` prints a string: quoted, with escapes.
pub uninterp spec fn str_debug(s: Seq<char>) -> Seq<char>;

/// `format!("{:?}", s)`: the string quoted with std's `Debug` escapes. The
/// result depends on the text alone.
#[verifier::external_body]
fn debug_quoted(s: &str) -> (r: String)
    ensures
        r@ == str_debug(s@),
{
    format!("{:?}", s)
}

/// The provider a sync moves sessions to: the explicitly requested one
/// (trimmed) when given and not blank, which must be a valid id; else the
/// current provider of the configuration.
pub open spec fn target_provider_spec(config: Option<Seq<char>>, explicit: Option<Seq<char>>) -> Result<Seq<char>, Seq<char>> {
    match explicit {
        Some(raw) => if trim(raw).len() == 0 {
            Ok(current_provider_spec(config))
        } else if !valid_explicit_id(trim(raw)) {
            Err("Invalid provider sync target: "@ + str_debug(trim(raw)))
        } else {
            Ok(trim(raw))
        },
        None => Ok(current_provider_spec(config)),
    }
}

/// Decides the provider a sync moves sessions to.
pub fn resolve_target_provider(config: Option<&str>, explicit_target_provider: Option<&str>) -> (r: Result<String, String>)
    ensures
        ({
            let c = match config {
                Some(t) => Some(t@),
                None => None,
            };
            let e = match explicit_target_provider {
                Some(t) => Some(t@),
                None => None,
            };
            match r {
                Ok(p) => target_provider_spec(c, e) == Ok::<Seq<char>, Seq<char>>(p@),
                Err(m) => target_provider_spec(c, e) == Err::<Seq<char>, Seq<char>>(m@),
            }
        }),
{
    match explicit_target_provider {
        Some(raw) => {
            let trimmed = crate::text::trim_str(raw);
            if is_blank(raw) {
                return Ok(read_current_provider(config));
            }
            if !is_valid_explicit_provider_id(trimmed.as_str()) {
                let quoted = debug_quoted(trimmed.as_str());
                return Err(concat2("Invalid provider sync target: ", quoted.as_str()));
            }
            Ok(trimmed)
        },
        None => Ok(read_current_provider(config)),
    }
}

/// Row counts of the database updates of a sync.
#[derive(Debug, Clone, Copy)]
pub struct SqliteUpdateCounts {
    pub provider_rows: usize,
    pub catalog_provider_rows: usize,
    pub catalog_inserted_rows: usize,
    pub catalog_state_rows: usize,
    pub duplicate_thread_rows_merged: usize,
    pub user_event_rows: usize,
    pub cwd_rows: usize,
}

/// The rows a sync updates, as counted in its report.
pub open spec fn counts_total(c: SqliteUpdateCounts) -> int {
    c.provider_rows + c.catalog_inserted_rows + c.catalog_state_rows + c.user_event_rows + c.cwd_rows
}

impl SqliteUpdateCounts {
    /// No rows.
    pub fn zero() -> (r: SqliteUpdateCounts)
        ensures
            counts_total(r) == 0,
            r.catalog_provider_rows == 0,
            r.duplicate_thread_rows_merged == 0,
    {
        SqliteUpdateCounts {
            provider_rows: 0,
            catalog_provider_rows: 0,
            catalog_inserted_rows: 0,
            catalog_state_rows: 0,
            duplicate_thread_rows_merged: 0,
            user_event_rows: 0,
            cwd_rows: 0,
        }
    }

    /// The rows a sync updates (catalog provider rows and merged duplicates are counted apart).
    pub fn total(&self) -> (r: usize)
        requires
            counts_total(*self) <= usize::MAX,
        ensures
            r == counts_total(*self),
    {
        self.provider_rows + self.catalog_inserted_rows + self.catalog_state_rows + self.user_event_rows
            + self.cwd_rows
    }

    /// Adds the counts of another database.
    pub fn add(&mut self, other: SqliteUpdateCounts)
        requires
            old(self).provider_rows + other.provider_rows <= usize::MAX,
            old(self).catalog_provider_rows + other.catalog_provider_rows <= usize::MAX,
            old(self).catalog_inserted_rows + other.catalog_inserted_rows <= usize::MAX,
            old(self).catalog_state_rows + other.catalog_state_rows <= usize::MAX,
            old(self).duplicate_thread_rows_merged + other.duplicate_thread_rows_merged <= usize::MAX,
            old(self).user_event_rows + other.user_event_rows <= usize::MAX,
            old(self).cwd_rows + other.cwd_rows <= usize::MAX,
        ensures
            final(self).provider_rows == old(self).provider_rows + other.provider_rows,
            final(self).catalog_provider_rows == old(self).catalog_provider_rows + other.catalog_provider_rows,
            final(self).catalog_inserted_rows == old(self).catalog_inserted_rows + other.catalog_inserted_rows,
            final(self).catalog_state_rows == old(self).catalog_state_rows + other.catalog_state_rows,
            final(self).duplicate_thread_rows_merged == old(self).duplicate_thread_rows_merged
                + other.duplicate_thread_rows_merged,
            final(self).user_event_rows == old(self).user_event_rows + other.user_event_rows,
            final(self).cwd_rows == old(self).cwd_rows + other.cwd_rows,
    {
        self.provider_rows = self.provider_rows + other.provider_rows;
        self.catalog_provider_rows = self.catalog_provider_rows + other.catalog_provider_rows;
        self.catalog_inserted_rows = self.catalog_inserted_rows + other.catalog_inserted_rows;
        self.catalog_state_rows = self.catalog_state_rows + other.catalog_state_rows;
        self.duplicate_thread_rows_merged = self.duplicate_thread_rows_merged + other.duplicate_thread_rows_merged;
        self.user_event_rows = self.user_event_rows + other.user_event_rows;
        self.cwd_rows = self.cwd_rows + other.cwd_rows;
    }
}

/// Adding counts adds their totals.
pub proof fn law_counts_total_adds(a: SqliteUpdateCounts, b: SqliteUpdateCounts, c: SqliteUpdateCounts)
    requires
        c.provider_rows == a.provider_rows + b.provider_rows,
        c.catalog_inserted_rows == a.catalog_inserted_rows + b.catalog_inserted_rows,
        c.catalog_state_rows == a.catalog_state_rows + b.catalog_state_rows,
        c.user_event_rows == a.user_event_rows + b.user_event_rows,
        c.cwd_rows == a.cwd_rows + b.cwd_rows,
    ensures
        counts_total(c) == counts_total(a) + counts_total(b),
{
}


/// The provider id that a `[model_providers.<id>]` table header names.
pub open spec fn section_id(line: Seq<char>) -> Option<Seq<char>> {
    let t = trim(line);
    let p = "[model_providers."@;
    if starts_with(t, p) && t.len() >= p.len() + 1 && t.last() == ']' {
        Some(trim(t.subrange(p.len() as int, t.len() - 1)))
    } else {
        None
    }
}

/// The valid provider ids named by table headers among the first `n` lines.
pub open spec fn section_ids_upto(ls: Seq<Seq<char>>, n: int) -> Set<Seq<char>> {
    Set::new(
        |id: Seq<char>|
            exists|i: int| 0 <= i < n && #[trigger] section_id(ls[i]) == Some(id) && valid_discovered_id(id),
    )
}

/// The providers a configuration declares: the default provider and the
/// valid ids of its `[model_providers.<id>]` tables.
pub open spec fn configured_ids(config: Option<Seq<char>>) -> Set<Seq<char>> {
    match config {
        None => set![DEFAULT_PROVIDER@],
        Some(text) => section_ids_upto(lines(text), lines(text).len() as int).insert(DEFAULT_PROVIDER@),
    }
}

/// The provider id a table header line names, trimmed.
fn section_id_exec(line: &[char], prefix: &[char]) -> (r: Option<Vec<char>>)
    requires
        prefix@ == "[model_providers."@,
    ensures
        match r {
            Some(v) => section_id(line@) == Some(v@),
            None => section_id(line@) is None,
        },
{
    let t = trim_chars(line);
    if starts_with_chars(t.as_slice(), prefix) && t.len() > prefix.len() && t[t.len() - 1] == ']' {
        let inner = slice_chars(t.as_slice(), prefix.len(), t.len() - 1);
        Some(trim_chars(inner.as_slice()))
    } else {
        None
    }
}

/// The providers a configuration declares, sorted (`config`: the text of
/// `config.toml`, when it could be read).
pub fn list_configured_provider_ids(config: Option<&str>) -> (r: Vec<String>)
    ensures
        strictly_sorted(ids_view(r@)),
        ids_view(r@).to_set() == configured_ids(match config {
            Some(t) => Some(t@),
            None => None,
        }),
{
    let mut ids: Vec<String> = Vec::new();
    insert_sorted(&mut ids, owned(DEFAULT_PROVIDER));
    let text = match config {
        Some(t) => t,
        None => {
            assert(ids_view(ids@).to_set() =~= set![DEFAULT_PROVIDER@]);
            return ids;
        },
    };
    let ls = str_lines(text);
    let ghost all = rows(ls@);
    let prefix = str_chars("[model_providers.");
    let mut i: usize = 0;
    assert(ids_view(ids@).to_set() =~= section_ids_upto(all, 0).insert(DEFAULT_PROVIDER@));
    while i < ls.len()
        invariant
            i <= ls@.len(),
            all == rows(ls@),
            all == lines(text@),
            prefix@ == "[model_providers."@,
            strictly_sorted(ids_view(ids@)),
            ids_view(ids@).to_set() == section_ids_upto(all, i as int).insert(DEFAULT_PROVIDER@),
        decreases ls@.len() - i,
    {
        assert(all[i as int] == ls@[i as int]@);
        let ghost before = ids_view(ids@).to_set();
        match section_id_exec(ls[i].as_slice(), prefix.as_slice()) {
            Some(v) => {
                let id = string_from(v.as_slice());
                if is_valid_provider_id_for_discovery(id.as_str()) {
                    let ghost idv = id@;
                    insert_sorted(&mut ids, id);
                    assert(section_ids_upto(all, i as int + 1) =~= section_ids_upto(all, i as int).insert(idv)) by {
                        assert(section_id(all[i as int]) == Some(idv));
                    }
                } else {
                    assert(section_ids_upto(all, i as int + 1) =~= section_ids_upto(all, i as int));
                }
            },
            None => {
                assert(section_ids_upto(all, i as int + 1) =~= section_ids_upto(all, i as int));
            },
        }
        i = i + 1;
    }
    ids
}

/// Where a provider id was seen, in the order the report lists the sources.
pub open spec fn target_sources(in_config: bool, in_rollout: bool, in_sqlite: bool) -> Seq<ProviderSyncTargetSource> {
    (if in_config { seq![ProviderSyncTargetSource::Config] } else { Seq::empty() }) + (if in_rollout {
        seq![ProviderSyncTargetSource::Rollout]
    } else {
        Seq::empty()
    }) + (if in_sqlite { seq![ProviderSyncTargetSource::Sqlite] } else { Seq::empty() })
}

/// The ids of a list of sync targets.
pub open spec fn target_ids(ts: Seq<ProviderSyncTargetOption>) -> Seq<Seq<char>> {
    ts.map_values(|t: ProviderSyncTargetOption| t.id@)
}

/// The ids of a combined list of discovered ids that are worth listing.
pub open spec fn discovered_set(ids: Seq<Seq<char>>) -> Set<Seq<char>> {
    Set::new(|id: Seq<char>| ids.contains(id) && valid_discovered_id(id))
}

/// The sync targets from the ids found in the configuration (with the
/// current provider), in rollout files (when they could be read) and in the
/// session databases: each valid id once, with where it was seen; the
/// current provider first, the others sorted.
pub open spec fn targets_match(
    current: Seq<char>,
    config_ids: Seq<Seq<char>>,
    rollout_ids: Option<Seq<Seq<char>>>,
    sqlite_ids: Seq<Seq<char>>,
    r: ProviderSyncTargetList,
) -> bool {
    let all = config_ids.push(current) + (match rollout_ids {
        Some(x) => x,
        None => Seq::empty(),
    }) + sqlite_ids;
    let t = target_ids(r.targets@);
    let rest = if valid_discovered_id(current) { t.drop_first() } else { t };
    &&& r.current_provider@ == current
    &&& t.to_set() == discovered_set(all)
    &&& (valid_discovered_id(current) ==> t.len() > 0 && t[0] == current)
    &&& strictly_sorted(rest)
    &&& forall|i: int, j: int| 0 <= i < j < t.len() ==> #[trigger] t[i] != #[trigger] t[j]
    &&& forall|i: int| 0 <= i < t.len() ==> #[trigger] r.targets@[i].sources@ == target_sources(
        config_ids.contains(t[i]) || t[i] == current,
        match rollout_ids {
            Some(x) => x.contains(t[i]),
            None => false,
        },
        sqlite_ids.contains(t[i]),
    ) && r.targets@[i].is_current_provider == (t[i] == current) && !r.targets@[i].is_manual
        && !r.targets@[i].is_saved
}

/// A target option for `id` that matches where it was seen.
pub open spec fn option_matches(
    o: ProviderSyncTargetOption,
    current: Seq<char>,
    cfg: Seq<Seq<char>>,
    rol: Option<Seq<Seq<char>>>,
    sql: Seq<Seq<char>>,
) -> bool {
    &&& o.sources@ == target_sources(
        cfg.contains(o.id@) || o.id@ == current,
        match rol {
            Some(x) => x.contains(o.id@),
            None => false,
        },
        sql.contains(o.id@),
    )
    &&& o.is_current_provider == (o.id@ == current)
    &&& !o.is_manual
    &&& !o.is_saved
}

/// The target option for provider `id`.
fn target_option(
    id: &str,
    current_provider: &str,
    config_ids: &Vec<String>,
    rollout_ids: Option<&Vec<String>>,
    sqlite_ids: &Vec<String>,
) -> (r: ProviderSyncTargetOption)
    ensures
        r.id@ == id@,
        option_matches(
            r,
            current_provider@,
            ids_view(config_ids@),
            match rollout_ids {
                Some(x) => Some(ids_view(x@)),
                None => None,
            },
            ids_view(sqlite_ids@),
        ),
{
    let is_current = crate::text::str_eq(id, current_provider);
    let in_config = contains_str(config_ids, id) || is_current;
    let in_rollout = match rollout_ids {
        Some(x) => contains_str(x, id),
        None => false,
    };
    let in_sqlite = contains_str(sqlite_ids, id);
    let mut sources: Vec<ProviderSyncTargetSource> = Vec::new();
    if in_config {
        sources.push(ProviderSyncTargetSource::Config);
    }
    if in_rollout {
        sources.push(ProviderSyncTargetSource::Rollout);
    }
    if in_sqlite {
        sources.push(ProviderSyncTargetSource::Sqlite);
    }
    assert(sources@ =~= target_sources(in_config, in_rollout, in_sqlite));
    ProviderSyncTargetOption { id: owned(id), sources, is_current_provider: is_current, is_manual: false, is_saved: false }
}

impl ProviderSyncTargetOption {
    /// A field-by-field copy.
    pub fn clone_option(&self) -> (r: ProviderSyncTargetOption)
        ensures
            r.id == self.id,
            r.sources@ == self.sources@,
            r.is_current_provider == self.is_current_provider,
            r.is_manual == self.is_manual,
            r.is_saved == self.is_saved,
    {
        let mut sources: Vec<ProviderSyncTargetSource> = Vec::new();
        let mut i: usize = 0;
        while i < self.sources.len()
            invariant
                i <= self.sources@.len(),
                sources@ == self.sources@.take(i as int),
            decreases self.sources@.len() - i,
        {
            sources.push(self.sources[i]);
            assert(self.sources@.take(i as int + 1) =~= self.sources@.take(i as int).push(self.sources@[i as int]));
            i = i + 1;
        }
        assert(self.sources@.take(self.sources@.len() as int) =~= self.sources@);
        ProviderSyncTargetOption {
            id: self.id.clone(),
            sources,
            is_current_provider: self.is_current_provider,
            is_manual: self.is_manual,
            is_saved: self.is_saved,
        }
    }
}

/// Appends copies of the strings of `src` to `dst`.
fn append_all(dst: &mut Vec<String>, src: &Vec<String>)
    ensures
        ids_view(final(dst)@) == ids_view(old(dst)@) + ids_view(src@),
{
    let ghost start = ids_view(dst@);
    let mut i: usize = 0;
    while i < src.len()
        invariant
            i <= src@.len(),
            ids_view(dst@) == start + ids_view(src@).take(i as int),
        decreases src@.len() - i,
    {
        let ghost before = ids_view(dst@);
        dst.push(src[i].clone());
        assert(ids_view(dst@) =~= before.push(src@[i as int]@));
        assert(ids_view(src@).take(i as int + 1) =~= ids_view(src@).take(i as int).push(src@[i as int]@));
        assert(ids_view(dst@) =~= start + ids_view(src@).take(i as int + 1));
        i = i + 1;
    }
    assert(ids_view(src@).take(src@.len() as int) =~= ids_view(src@));
}

/// `x` is one of the first `k` elements of `s`.
pub open spec fn in_prefix(s: Seq<Seq<char>>, k: int, x: Seq<char>) -> bool {
    exists|j: int| 0 <= j < k && #[trigger] s[j] == x
}

proof fn lemma_discovered_step(allv: Seq<Seq<char>>, i: int)
    requires
        0 <= i < allv.len(),
    ensures
        discovered_set(allv.take(i + 1)) == (if valid_discovered_id(allv[i]) {
            discovered_set(allv.take(i)).insert(allv[i])
        } else {
            discovered_set(allv.take(i))
        }),
{
    let t0 = allv.take(i);
    let t1 = allv.take(i + 1);
    assert(t1 =~= t0.push(allv[i]));
    let rhs = if valid_discovered_id(allv[i]) {
        discovered_set(t0).insert(allv[i])
    } else {
        discovered_set(t0)
    };
    assert forall|y: Seq<char>| discovered_set(t1).contains(y) <==> rhs.contains(y) by {
        if t1.contains(y) {
            let w = choose|w: int| 0 <= w < t1.len() && t1[w] == y;
            if w < i {
                assert(t0[w] == y);
            }
        }
        if t0.contains(y) {
            let w = choose|w: int| 0 <= w < t0.len() && t0[w] == y;
            assert(t1[w] == y);
        }
        if y == allv[i] {
            assert(t1[i] == y);
        }
    }
    assert(discovered_set(t1) =~= rhs);
}

/// The sync targets from the provider ids found in the configuration, the
/// rollout files and the session databases.
pub fn provider_sync_targets(
    current_provider: &str,
    config_ids: &Vec<String>,
    rollout_ids: Option<&Vec<String>>,
    sqlite_ids: &Vec<String>,
) -> (r: ProviderSyncTargetList)
    ensures
        targets_match(
            current_provider@,
            ids_view(config_ids@),
            match rollout_ids {
                Some(x) => Some(ids_view(x@)),
                None => None,
            },
            ids_view(sqlite_ids@),
            r,
        ),
{
    let mut all: Vec<String> = Vec::new();
    append_all(&mut all, config_ids);
    all.push(owned(current_provider));
    let ghost with_current = ids_view(all@);
    assert(with_current =~= ids_view(config_ids@).push(current_provider@));
    let empty: Vec<String> = Vec::new();
    let rollout = match rollout_ids {
        Some(x) => x,
        None => &empty,
    };
    append_all(&mut all, rollout);
    append_all(&mut all, sqlite_ids);
    let ghost allv = ids_view(all@);
    let mut sorted: Vec<String> = Vec::new();
    let mut i: usize = 0;
    while i < all.len()
        invariant
            i <= all@.len(),
            allv == ids_view(all@),
            strictly_sorted(ids_view(sorted@)),
            ids_view(sorted@).to_set() == discovered_set(allv.take(i as int)),
        decreases all@.len() - i,
    {
        let ghost before = ids_view(sorted@).to_set();
        assert(allv.take(i as int + 1) =~= allv.take(i as int).push(allv[i as int]));
        if is_valid_provider_id_for_discovery(all[i].as_str()) {
            let ghost x = all@[i as int]@;
            insert_sorted(&mut sorted, all[i].clone());
            proof {
                lemma_discovered_step(allv, i as int);
            }
        } else {
            proof {
                lemma_discovered_step(allv, i as int);
            }
        }
        i = i + 1;
    }
    assert(allv.take(allv.len() as int) =~= allv);
    let ghost sv = ids_view(sorted@);
    let ghost cfg = ids_view(config_ids@);
    let ghost rol = match rollout_ids {
        Some(x) => Some(ids_view(x@)),
        None => None::<Seq<Seq<char>>>,
    };
    let ghost sql = ids_view(sqlite_ids@);
    let mut rest: Vec<ProviderSyncTargetOption> = Vec::new();
    let mut k: usize = 0;
    while k < sorted.len()
        invariant
            k <= sv.len(),
            sv == ids_view(sorted@),
            strictly_sorted(sv),
            strictly_sorted(target_ids(rest@)),
            forall|m: int| 0 <= m < rest@.len() ==> in_prefix(sv, k as int, #[trigger] target_ids(rest@)[m]),
            forall|m: int| 0 <= m < rest@.len() ==> #[trigger] target_ids(rest@)[m] != current_provider@,
            forall|j: int| 0 <= j < k && sv[j] != current_provider@ ==> target_ids(rest@).contains(#[trigger] sv[j]),
            forall|m: int| 0 <= m < rest@.len() ==> option_matches(#[trigger] rest@[m], current_provider@, cfg, rol, sql),
            cfg == ids_view(config_ids@),
            sql == ids_view(sqlite_ids@),
            rol == match rollout_ids {
                Some(x) => Some(ids_view(x@)),
                None => None::<Seq<Seq<char>>>,
            },
        decreases sv.len() - k,
    {
        if !crate::text::str_eq(sorted[k].as_str(), current_provider) {
            let ghost before = target_ids(rest@);
            let opt = target_option(sorted[k].as_str(), current_provider, config_ids, rollout_ids, sqlite_ids);
            rest.push(opt);
            let ghost after = target_ids(rest@);
            assert(after =~= before.push(sv[k as int]));
            assert forall|a: int, b: int| 0 <= a < b < after.len() implies seq_lt(#[trigger] after[a], #[trigger] after[b]) by {
                if b == after.len() - 1 {
                    assert(in_prefix(sv, k as int, before[a]));
                    let j = choose|j: int| 0 <= j < k && sv[j] == before[a];
                    assert(seq_lt(sv[j], sv[k as int]));
                } else {
                    assert(after[a] == before[a] && after[b] == before[b]);
                }
            }
            assert forall|m: int| 0 <= m < rest@.len() implies in_prefix(sv, k + 1, #[trigger] target_ids(rest@)[m]) by {
                if m < before.len() {
                    assert(in_prefix(sv, k as int, before[m]));
                    let j = choose|j: int| 0 <= j < k && sv[j] == before[m];
                    assert(target_ids(rest@)[m] == sv[j]);
                } else {
                    assert(target_ids(rest@)[m] == sv[k as int]);
                }
            }
            assert forall|j: int| 0 <= j < k + 1 && sv[j] != current_provider@ implies target_ids(rest@).contains(#[trigger] sv[j]) by {
                if j < k {
                    let m = choose|m: int| 0 <= m < before.len() && before[m] == sv[j];
                    assert(after[m] == sv[j]);
                } else {
                    assert(after[before.len() as int] == sv[j]);
                }
            }
        } else {
            assert forall|m: int| 0 <= m < rest@.len() implies in_prefix(sv, k + 1, #[trigger] target_ids(rest@)[m]) by {
                assert(in_prefix(sv, k as int, target_ids(rest@)[m]));
                let j = choose|j: int| 0 <= j < k && sv[j] == target_ids(rest@)[m];
                assert(sv[j] == target_ids(rest@)[m]);
            }
        }
        k = k + 1;
    }
    let cur_valid = is_valid_provider_id_for_discovery(current_provider);
    let mut targets: Vec<ProviderSyncTargetOption> = Vec::new();
    if cur_valid {
        targets.push(target_option(current_provider, current_provider, config_ids, rollout_ids, sqlite_ids));
    }
    let ghost head = target_ids(targets@);
    let mut m: usize = 0;
    while m < rest.len()
        invariant
            m <= rest@.len(),
            target_ids(targets@) == head + target_ids(rest@).take(m as int),
            forall|q: int| 0 <= q < targets@.len() ==> option_matches(#[trigger] targets@[q], current_provider@, cfg, rol, sql),
            forall|q: int| 0 <= q < rest@.len() ==> option_matches(#[trigger] rest@[q], current_provider@, cfg, rol, sql),
        decreases rest@.len() - m,
    {
        let ghost before = targets@;
        let item = rest[m].clone_option();
        targets.push(item);
        assert(option_matches(rest@[m as int], current_provider@, cfg, rol, sql));
        assert forall|q: int| 0 <= q < targets@.len() implies option_matches(#[trigger] targets@[q], current_provider@, cfg, rol, sql) by {
            if q < before.len() {
                assert(targets@[q] == before[q]);
            }
        }
        assert(target_ids(targets@) =~= target_ids(before).push(rest@[m as int].id@));
        assert(target_ids(rest@).take(m as int + 1) =~= target_ids(rest@).take(m as int).push(rest@[m as int].id@));
        m = m + 1;
    }
    assert(target_ids(rest@).take(rest@.len() as int) =~= target_ids(rest@));
    proof {
        let t = target_ids(targets@);
        let rt = target_ids(rest@);
        if cur_valid {
            assert(t =~= seq![current_provider@] + rt);
            assert(t.drop_first() =~= rt);
        } else {
            assert(t =~= rt);
        }
        assert(allv.contains(current_provider@)) by {
            assert(allv[cfg.len() as int] == current_provider@);
        }
        assert(t.to_set() =~= discovered_set(allv)) by {
            assert forall|x: Seq<char>| t.to_set().contains(x) implies discovered_set(allv).contains(x) by {
                let q = choose|q: int| 0 <= q < t.len() && t[q] == x;
                if cur_valid && q == 0 {
                } else {
                    let mm = if cur_valid { q - 1 } else { q };
                    assert(rt[mm] == x);
                    assert(in_prefix(sv, sv.len() as int, rt[mm]));
                    let j = choose|j: int| 0 <= j < sv.len() && sv[j] == rt[mm];
                    assert(sv.to_set().contains(sv[j]));
                }
            }
            assert forall|x: Seq<char>| discovered_set(allv).contains(x) implies t.to_set().contains(x) by {
                assert(sv.to_set().contains(x));
                let j = choose|j: int| 0 <= j < sv.len() && sv[j] == x;
                if x == current_provider@ {
                    assert(t[0] == x);
                } else {
                    let mm = choose|mm: int| 0 <= mm < rt.len() && rt[mm] == x;
                    if cur_valid {
                        assert(t[mm + 1] == x);
                    } else {
                        assert(t[mm] == x);
                    }
                }
            }
        }
        assert forall|a: int, b: int| 0 <= a < b < t.len() implies #[trigger] t[a] != #[trigger] t[b] by {
            if cur_valid {
                assert(t[b] == rt[b - 1]);
                assert(target_ids(rest@)[b - 1] != current_provider@);
                if a > 0 {
                    assert(t[a] == rt[a - 1]);
                    assert(seq_lt(rt[a - 1], rt[b - 1]));
                    lemma_lt_irreflexive(rt[a - 1]);
                }
            } else {
                assert(seq_lt(rt[a], rt[b]));
                lemma_lt_irreflexive(rt[a]);
            }
        }
        assert forall|q: int| 0 <= q < t.len() implies #[trigger] targets@[q].sources@ == target_sources(
            cfg.contains(t[q]) || t[q] == current_provider@,
            match rol {
                Some(x) => x.contains(t[q]),
                None => false,
            },
            sql.contains(t[q]),
        ) && targets@[q].is_current_provider == (t[q] == current_provider@) && !targets@[q].is_manual
            && !targets@[q].is_saved by {
            assert(option_matches(targets@[q], current_provider@, cfg, rol, sql));
        }
    }
    ProviderSyncTargetList { current_provider: owned(current_provider), targets }
}


/// The sync targets of a Codex home: `config` is the text of its
/// `config.toml` when it could be read, `rollout_ids` the provider ids of its
/// rollout files when they could be read, `sqlite_ids` those of its session
/// databases. The current provider is never blank, and the default provider
/// is always listed as coming from the configuration.
pub fn load_provider_sync_targets(
    config: Option<&str>,
    rollout_ids: Option<&Vec<String>>,
    sqlite_ids: &Vec<String>,
) -> (r: ProviderSyncTargetList)
    ensures
        r.current_provider@ == current_provider_spec(
            match config {
                Some(t) => Some(t@),
                None => None,
            },
        ),
        exists|cfg: Seq<Seq<char>>|
            #![trigger cfg.to_set()]
            cfg.to_set() == configured_ids(
                match config {
                    Some(t) => Some(t@),
                    None => None,
                },
            ) && targets_match(
                r.current_provider@,
                cfg,
                match rollout_ids {
                    Some(x) => Some(ids_view(x@)),
                    None => None,
                },
                ids_view(sqlite_ids@),
                r,
            ),
        trim(r.current_provider@).len() > 0,
        exists|i: int|
            0 <= i < r.targets@.len() && #[trigger] r.targets@[i].id@ == DEFAULT_PROVIDER@
                && r.targets@[i].sources@.len() > 0 && r.targets@[i].sources@[0] == ProviderSyncTargetSource::Config,
{
    let current = read_current_provider(config);
    let config_ids = list_configured_provider_ids(config);
    let r = provider_sync_targets(current.as_str(), &config_ids, rollout_ids, sqlite_ids);
    proof {
        let cfgv = match config {
            Some(t) => Some(t@),
            None => None::<Seq<char>>,
        };
        let cfg = ids_view(config_ids@);
        let d = DEFAULT_PROVIDER@;
        reveal_strlit("openai");
        assert(d.len() == 6);
        assert(trim(d) =~= d) by {
            assert(!crate::text::is_ws(d[0]));
            assert(!crate::text::is_ws(d.last()));
        }
        assert(!has_control(d)) by {
            assert forall|i: int| 0 <= i < d.len() implies !crate::text::is_control(#[trigger] d[i]) by {
                assert(d[i] == 'o' || d[i] == 'p' || d[i] == 'e' || d[i] == 'n' || d[i] == 'a' || d[i] == 'i');
            }
        }
        assert(trim(r.current_provider@).len() > 0) by {
            assert(trim(d) =~= d);
        }
        assert(cfg.to_set().contains(d));
        assert(cfg.contains(d));
        let all = cfg.push(r.current_provider@) + (match rollout_ids {
            Some(x) => ids_view(x@),
            None => Seq::empty(),
        }) + ids_view(sqlite_ids@);
        let w = choose|w: int| 0 <= w < cfg.len() && cfg[w] == d;
        assert(all[w] == d);
        assert(discovered_set(all).contains(d));
        let t = target_ids(r.targets@);
        assert(t.to_set().contains(d));
        let i = choose|i: int| 0 <= i < t.len() && t[i] == d;
        assert(r.targets@[i].id@ == d);
        assert(r.targets@[i].sources@[0] == ProviderSyncTargetSource::Config);
    }
    r
}

/// The report when the Codex home directory does not exist.
pub fn home_missing_result(home: &str) -> (r: ProviderSyncResult)
    ensures
        is_plain_result(r, ProviderSyncStatus::Skipped, "Codex home not found: "@ + home@, DEFAULT_PROVIDER@, 0, 0),
        r.backup_dir is None,
{
    result(ProviderSyncStatus::Skipped, concat2("Codex home not found: ", home), DEFAULT_PROVIDER, None, 0, 0)
}

/// The report of a sync that could not run, with its reason.
pub fn skipped_result(message: String, target_provider: &str) -> (r: ProviderSyncResult)
    ensures
        is_plain_result(r, ProviderSyncStatus::Skipped, message@, target_provider@, 0, 0),
        r.backup_dir is None,
{
    result(ProviderSyncStatus::Skipped, message, target_provider, None, 0, 0)
}

/// Why the sync lock could not be taken: another sync holds it, or the error.
pub fn lock_failure_message(would_block: bool, error_text: &str) -> (r: String)
    ensures
        r@ == (if would_block {
            "另一个历史会话同步任务正在运行，请稍后重试。"@
        } else {
            "无法启动历史会话同步："@ + error_text@
        }),
{
    if would_block {
        owned("另一个历史会话同步任务正在运行，请稍后重试。")
    } else {
        concat2("无法启动历史会话同步：", error_text)
    }
}

/// The report of a sync that failed part-way, with the error.
pub fn sync_failed_result(error_text: &str, target_provider: &str) -> (r: ProviderSyncResult)
    ensures
        is_plain_result(r, ProviderSyncStatus::Skipped, "Provider sync skipped: "@ + error_text@, target_provider@, 0, 0),
        r.backup_dir is None,
{
    result(ProviderSyncStatus::Skipped, concat2("Provider sync skipped: ", error_text), target_provider, None, 0, 0)
}

/// Nothing to change: no session file to rewrite, no database row and no
/// workspace root to update.
pub fn nothing_to_sync(rewrite_count: usize, counts: &SqliteUpdateCounts, global_updates: usize) -> (r: bool)
    requires
        counts_total(*counts) <= usize::MAX,
    ensures
        r == (rewrite_count == 0 && counts_total(*counts) == 0 && global_updates == 0),
{
    rewrite_count == 0 && counts.total() == 0 && global_updates == 0
}

/// The message of a sync that could not rewrite some session files in use.
pub open spec fn partial_message() -> Seq<char> {
    "Session recovery incomplete because some rollout files are in use"@
}

/// The report when everything was already up to date: partial when some
/// session files were in use.
pub fn up_to_date_result(target_provider: &str, skipped_files: Vec<String>, warning: Option<String>) -> (r:
    ProviderSyncResult)
    ensures
        r.status == (if skipped_files@.len() == 0 { ProviderSyncStatus::Synced } else { ProviderSyncStatus::Partial }),
        r.message@ == (if skipped_files@.len() == 0 { "Session recovery already up to date"@ } else { partial_message() }),
        r.target_provider@ == target_provider@,
        r.backup_dir is None,
        r.changed_session_files == 0,
        r.sqlite_rows_updated == 0,
        r.skipped_locked_rollout_files@ == skipped_files@,
        r.encrypted_content_warning == warning,
        r.updated_workspace_roots == 0,
{
    let partial = skipped_files.len() > 0;
    let mut r = result(
        if partial { ProviderSyncStatus::Partial } else { ProviderSyncStatus::Synced },
        if partial {
            owned("Session recovery incomplete because some rollout files are in use")
        } else {
            owned("Session recovery already up to date")
        },
        target_provider,
        None,
        0,
        0,
    );
    r.skipped_locked_rollout_files = skipped_files;
    r.encrypted_content_warning = warning;
    r
}

/// The report of a completed sync: synced, or partial when some session
/// files were in use (`skipped_files`, already sorted and without repeats).
pub fn completed_result(
    target_provider: &str,
    backup_dir: String,
    changed_session_files: usize,
    counts: SqliteUpdateCounts,
    skipped_files: Vec<String>,
    updated_workspace_roots: usize,
    warning: Option<String>,
) -> (r: ProviderSyncResult)
    requires
        counts_total(counts) <= usize::MAX,
    ensures
        r.status == (if skipped_files@.len() == 0 { ProviderSyncStatus::Synced } else { ProviderSyncStatus::Partial }),
        r.message@ == (if skipped_files@.len() == 0 { "Session recovery complete"@ } else { partial_message() }),
        r.target_provider@ == target_provider@,
        r.backup_dir == Some(backup_dir),
        r.changed_session_files == changed_session_files,
        r.skipped_locked_rollout_files@ == skipped_files@,
        r.sqlite_rows_updated == counts_total(counts),
        r.sqlite_provider_rows_updated == counts.provider_rows,
        r.sqlite_catalog_provider_rows_updated == counts.catalog_provider_rows,
        r.sqlite_catalog_rows_inserted == counts.catalog_inserted_rows,
        r.sqlite_catalog_state_rows_updated == counts.catalog_state_rows,
        r.sqlite_user_event_rows_updated == counts.user_event_rows,
        r.sqlite_cwd_rows_updated == counts.cwd_rows,
        r.duplicate_thread_rows_merged == counts.duplicate_thread_rows_merged,
        r.updated_workspace_roots == updated_workspace_roots,
        r.encrypted_content_warning == warning,
{
    let partial = skipped_files.len() > 0;
    let mut r = result(
        if partial { ProviderSyncStatus::Partial } else { ProviderSyncStatus::Synced },
        if partial {
            owned("Session recovery incomplete because some rollout files are in use")
        } else {
            owned("Session recovery complete")
        },
        target_provider,
        Some(backup_dir),
        changed_session_files,
        counts.total(),
    );
    r.skipped_locked_rollout_files = skipped_files;
    r.sqlite_provider_rows_updated = counts.provider_rows;
    r.sqlite_catalog_provider_rows_updated = counts.catalog_provider_rows;
    r.sqlite_catalog_rows_inserted = counts.catalog_inserted_rows;
    r.sqlite_catalog_state_rows_updated = counts.catalog_state_rows;
    r.sqlite_user_event_rows_updated = counts.user_event_rows;
    r.sqlite_cwd_rows_updated = counts.cwd_rows;
    r.duplicate_thread_rows_merged = counts.duplicate_thread_rows_merged;
    r.updated_workspace_roots = updated_workspace_roots;
    r.encrypted_content_warning = warning;
    r
}

/// A hexadecimal digit, in either case.
pub open spec fn is_hex(c: char) -> bool {
    ('0' <= c && c <= '9') || ('a' <= c && c <= 'f') || ('A' <= c && c <= 'F')
}

/// A thread id as written in rollout file names: 36 characters, `-` at
/// positions 8, 13, 18 and 23, hexadecimal digits elsewhere.
pub open spec fn uuid_like(c: Seq<char>) -> bool {
    &&& c.len() == 36
    &&& forall|i: int|
        0 <= i < 36 ==> if i == 8 || i == 13 || i == 18 || i == 23 {
            #[trigger] c[i] == '-'
        } else {
            is_hex(c[i])
        }
}

/// The thread id in a rollout file name `rollout-<...><thread id>.jsonl`.
pub open spec fn rollout_thread_id_spec(name: Seq<char>) -> Option<Seq<char>> {
    if starts_with(name, "rollout-"@) && name.len() >= 14 && ends_with(name, ".jsonl"@) {
        let stem = name.subrange(8, name.len() - 6);
        if stem.len() >= 36 && uuid_like(stem.skip(stem.len() - 36)) {
            Some(stem.skip(stem.len() - 36))
        } else {
            None
        }
    } else {
        None
    }
}

/// The thread id in a rollout file name.
pub fn rollout_thread_id_from_filename(name: &str) -> (r: Option<String>)
    ensures
        match r {
            Some(id) => rollout_thread_id_spec(name@) == Some(id@),
            None => rollout_thread_id_spec(name@) is None,
        },
{
    proof {
        reveal_strlit("rollout-");
        reveal_strlit(".jsonl");
    }
    let v = str_chars(name);
    let pre = str_chars("rollout-");
    let suf = str_chars(".jsonl");
    if !starts_with_chars(v.as_slice(), pre.as_slice()) || v.len() < 14 || !crate::text::ends_with_chars(
        v.as_slice(),
        suf.as_slice(),
    ) {
        return None;
    }
    let stem = slice_chars(v.as_slice(), 8, v.len() - 6);
    assert(pre@ == "rollout-"@ && suf@ == ".jsonl"@);
    if stem.len() < 36 {
        return None;
    }
    let cand = slice_chars(stem.as_slice(), stem.len() - 36, stem.len());
    assert(cand@ =~= stem@.skip(stem@.len() - 36));
    let mut i: usize = 0;
    while i < 36
        invariant
            i <= 36,
            cand@.len() == 36,
            cand@ == stem@.skip(stem@.len() - 36),
            stem@ == name@.subrange(8, name@.len() - 6),
            stem@.len() >= 36,
            starts_with(name@, "rollout-"@) && name@.len() >= 14 && ends_with(name@, ".jsonl"@),
            forall|j: int|
                0 <= j < i ==> if j == 8 || j == 13 || j == 18 || j == 23 {
                    #[trigger] cand@[j] == '-'
                } else {
                    is_hex(cand@[j])
                },
        decreases 36 - i,
    {
        let c = cand[i];
        let ok = if i == 8 || i == 13 || i == 18 || i == 23 {
            c == '-'
        } else {
            ('0' <= c && c <= '9') || ('a' <= c && c <= 'f') || ('A' <= c && c <= 'F')
        };
        if !ok {
            assert(!(if i == 8 || i == 13 || i == 18 || i == 23 {
                cand@[i as int] == '-'
            } else {
                is_hex(cand@[i as int])
            }));
            return None;
        }
        i = i + 1;
    }
    Some(string_from(cand.as_slice()))
}

/// A piece of text split into its line and its line ending (`\r\n`, `\n` or none).
pub open spec fn split_line_ending_spec(seg: Seq<char>) -> (Seq<char>, Seq<char>) {
    if ends_with(seg, seq!['\r', '\n']) {
        (seg.subrange(0, seg.len() - 2), seq!['\r', '\n'])
    } else if ends_with(seg, seq!['\n']) {
        (seg.subrange(0, seg.len() - 1), seq!['\n'])
    } else {
        (seg, Seq::empty())
    }
}

/// Splits a piece of text into its line and its line ending.
pub fn split_line_ending(segment: &[char]) -> (r: (Vec<char>, Vec<char>))
    ensures
        (r.0@, r.1@) == split_line_ending_spec(segment@),
{
    let n = segment.len();
    if n >= 2 && segment[n - 2] == '\r' && segment[n - 1] == '\n' {
        assert(segment@.subrange(n - 2, n as int) =~= seq!['\r', '\n']);
        (slice_chars(segment, 0, n - 2), vec!['\r', '\n'])
    } else if n >= 1 && segment[n - 1] == '\n' {
        assert(segment@.subrange(n - 1, n as int) =~= seq!['\n']);
        proof {
            if n >= 2 {
                assert(!(segment@.subrange(n - 2, n as int) =~= seq!['\r', '\n']) ==> !ends_with(segment@, seq!['\r', '\n']));
                if ends_with(segment@, seq!['\r', '\n']) {
                    assert(segment@.subrange(n - 2, n as int)[0] == '\r');
                }
            }
        }
        (slice_chars(segment, 0, n - 1), vec!['\n'])
    } else {
        proof {
            if ends_with(segment@, seq!['\r', '\n']) {
                assert(segment@.subrange(n - 2, n as int)[1] == '\n');
            }
            if ends_with(segment@, seq!['\n']) {
                assert(segment@.subrange(n - 1, n as int)[0] == '\n');
            }
        }
        (slice_chars(segment, 0, n), Vec::new())
    }
}

} // verus!

verus! {

/// The entry a session index line describes, as (id, thread name, update
/// time): a JSON object with exactly the members `id`, `thread_name` and
/// `updated_at`, all strings, whose id (trimmed) and update time are not blank.
pub open spec fn index_candidate_spec(line: Seq<char>) -> Option<(Seq<char>, Seq<char>, Seq<char>)> {
    match crate::json::json_parse(line) {
        Some(JsonValue::Object(ms)) => if ms@.len() == 3 {
            match (
                members_get(ms@, "id"@),
                members_get(ms@, "thread_name"@),
                members_get(ms@, "updated_at"@),
            ) {
                (Some(JsonValue::Str(i)), Some(JsonValue::Str(n)), Some(JsonValue::Str(u))) => if trim(i@).len() == 0
                    || trim(u@).len() == 0 {
                    None
                } else {
                    Some((trim(i@), n@, u@))
                },
                _ => None,
            }
        } else {
            None
        },
        _ => None,
    }
}

/// A cleanup candidate as plain values.
pub open spec fn candidate_view(c: SessionIndexCleanupCandidate) -> (Seq<char>, Seq<char>, Seq<char>) {
    (c.id@, c.thread_name@, c.updated_at@)
}

/// The entry a session index line describes, if it is one.
pub fn known_session_index_candidate(line: &str) -> (r: Option<SessionIndexCleanupCandidate>)
    ensures
        match r {
            Some(c) => index_candidate_spec(line@) == Some(candidate_view(c)),
            None => index_candidate_spec(line@) is None,
        },
{
    let record = match crate::json::parse_json(line) {
        Some(v) => v,
        None => return None,
    };
    let ms = match &record {
        JsonValue::Object(ms) => ms,
        _ => return None,
    };
    if ms.len() != 3 {
        return None;
    }
    let id = match members_get_exec(ms, "id") {
        Some(JsonValue::Str(s)) => s,
        _ => return None,
    };
    let thread_name = match members_get_exec(ms, "thread_name") {
        Some(JsonValue::Str(s)) => s,
        _ => return None,
    };
    let updated_at = match members_get_exec(ms, "updated_at") {
        Some(JsonValue::Str(s)) => s,
        _ => return None,
    };
    let id_t = trim_str(id.as_str());
    if is_blank(id.as_str()) || is_blank(updated_at.as_str()) {
        return None;
    }
    Some(
        SessionIndexCleanupCandidate {
            id: id_t,
            thread_name: owned(thread_name.as_str()),
            updated_at: owned(updated_at.as_str()),
        },
    )
}

/// The candidates among pieces `i..` of a session index: entries whose
/// session is not among the live ones.
pub open spec fn cleanup_candidates(segs: Seq<Seq<char>>, live: Seq<Seq<char>>, i: int) -> Seq<
    (Seq<char>, Seq<char>, Seq<char>),
>
    decreases segs.len() - i,
{
    if i < 0 || i >= segs.len() {
        Seq::empty()
    } else {
        match index_candidate_spec(split_line_ending_spec(segs[i]).0) {
            Some(c) => if live.contains(c.0) {
                cleanup_candidates(segs, live, i + 1)
            } else {
                seq![c] + cleanup_candidates(segs, live, i + 1)
            },
            None => cleanup_candidates(segs, live, i + 1),
        }
    }
}

/// The entries of a session index (its text) whose sessions are not among `live_thread_ids`.
pub fn session_index_candidates(index_text: &str, live_thread_ids: &Vec<String>) -> (r: Vec<SessionIndexCleanupCandidate>)
    ensures
        r@.map_values(|c: SessionIndexCleanupCandidate| candidate_view(c)) == cleanup_candidates(
            crate::text::split_inclusive_nl(index_text@),
            ids_view(live_thread_ids@),
            0,
        ),
{
    let segs = crate::text::split_inclusive_nl_chars(str_chars(index_text).as_slice());
    let ghost sv = rows(segs@);
    let ghost live = ids_view(live_thread_ids@);
    let ghost goal = cleanup_candidates(sv, live, 0);
    let mut out: Vec<SessionIndexCleanupCandidate> = Vec::new();
    let mut i: usize = 0;
    while i < segs.len()
        invariant
            i <= segs@.len(),
            sv == rows(segs@),
            live == ids_view(live_thread_ids@),
            goal == cleanup_candidates(sv, live, 0),
            out@.map_values(|c: SessionIndexCleanupCandidate| candidate_view(c)) + cleanup_candidates(sv, live, i as int)
                == goal,
        decreases segs@.len() - i,
    {
        let (line, _ending) = split_line_ending(segs[i].as_slice());
        assert(sv[i as int] == segs@[i as int]@);
        let text = string_from(line.as_slice());
        let ghost before = out@.map_values(|c: SessionIndexCleanupCandidate| candidate_view(c));
        match known_session_index_candidate(text.as_str()) {
            Some(c) => {
                if !contains_str(live_thread_ids, c.id.as_str()) {
                    let ghost cv = candidate_view(c);
                    out.push(c);
                    assert(out@.map_values(|c: SessionIndexCleanupCandidate| candidate_view(c)) =~= before.push(cv));
                    assert(before.push(cv) + cleanup_candidates(sv, live, i + 1) =~= before + cleanup_candidates(
                        sv,
                        live,
                        i as int,
                    ));
                }
            },
            None => {},
        }
        i = i + 1;
    }
    assert(out@.map_values(|c: SessionIndexCleanupCandidate| candidate_view(c)) + cleanup_candidates(sv, live, i as int)
        =~= out@.map_values(|c: SessionIndexCleanupCandidate| candidate_view(c)));
    out
}

/// What a session index cleanup would remove: the entries of the index
/// (`None` when there is no index) whose sessions are not among
/// `live_thread_ids`, with the digest of the index as it was read.
pub fn preview_session_index_cleanup(index_text: Option<&str>, live_thread_ids: &Vec<String>) -> (r:
    SessionIndexCleanupPreview)
    ensures
        match index_text {
            Some(t) => {
                &&& r.snapshot_sha256@ == crate::legacy_import::hex_lower(
                    crate::legacy_import::sha256_of(vstd::utf8::encode_utf8(t@)),
                )
                &&& r.candidates@.map_values(|c: SessionIndexCleanupCandidate| candidate_view(c)) == cleanup_candidates(
                    crate::text::split_inclusive_nl(t@),
                    ids_view(live_thread_ids@),
                    0,
                )
            },
            None => {
                &&& r.snapshot_sha256@ == crate::legacy_import::hex_lower(crate::legacy_import::sha256_of(Seq::empty()))
                &&& r.candidates@.len() == 0
            },
        },
{
    match index_text {
        Some(t) => SessionIndexCleanupPreview {
            snapshot_sha256: crate::legacy_import::sha256_hex(t.as_bytes()),
            candidates: session_index_candidates(t, live_thread_ids),
        },
        None => {
            let empty: Vec<u8> = Vec::new();
            SessionIndexCleanupPreview {
                snapshot_sha256: crate::legacy_import::sha256_hex(empty.as_slice()),
                candidates: Vec::new(),
            }
        },
    }
}

/// The session index after removing pieces `i..` whose entries are selected:
/// the text kept and the number of entries removed.
pub open spec fn filtered_index(segs: Seq<Seq<char>>, selected: Seq<Seq<char>>, i: int) -> (Seq<char>, nat)
    decreases segs.len() - i,
{
    if i < 0 || i >= segs.len() {
        (Seq::empty(), 0)
    } else {
        let rest = filtered_index(segs, selected, i + 1);
        let remove = match index_candidate_spec(split_line_ending_spec(segs[i]).0) {
            Some(c) => selected.contains(c.0),
            None => false,
        };
        if remove {
            (rest.0, rest.1 + 1)
        } else {
            (segs[i] + rest.0, rest.1)
        }
    }
}

/// The session index text without the entries whose ids are selected, and
/// how many entries were removed.
pub fn filtered_session_index_text(index_text: &str, selected_ids: &Vec<String>) -> (r: (String, usize))
    ensures
        (r.0@, r.1 as nat) == filtered_index(crate::text::split_inclusive_nl(index_text@), ids_view(selected_ids@), 0),
{
    let segs = crate::text::split_inclusive_nl_chars(str_chars(index_text).as_slice());
    let ghost sv = rows(segs@);
    let ghost sel = ids_view(selected_ids@);
    let ghost goal = filtered_index(sv, sel, 0);
    let mut next: Vec<char> = Vec::new();
    let mut removed: usize = 0;
    let mut i: usize = 0;
    while i < segs.len()
        invariant
            i <= segs@.len(),
            sv == rows(segs@),
            sel == ids_view(selected_ids@),
            goal == filtered_index(sv, sel, 0),
            removed <= i,
            next@ + filtered_index(sv, sel, i as int).0 == goal.0,
            removed + filtered_index(sv, sel, i as int).1 == goal.1,
        decreases segs@.len() - i,
    {
        let (line, ending) = split_line_ending(segs[i].as_slice());
        assert(sv[i as int] == segs@[i as int]@);
        let text = string_from(line.as_slice());
        let remove = match known_session_index_candidate(text.as_str()) {
            Some(c) => contains_str(selected_ids, c.id.as_str()),
            None => false,
        };
        if remove {
            removed = removed + 1;
        } else {
            let ghost before = next@;
            let mut j: usize = 0;
            while j < segs[i].len()
                invariant
                    i < segs@.len(),
                    j <= segs@[i as int]@.len(),
                    next@ == before + segs@[i as int]@.take(j as int),
                decreases segs@[i as int]@.len() - j,
            {
                next.push(segs[i][j]);
                assert(segs@[i as int]@.take(j + 1) =~= segs@[i as int]@.take(j as int).push(segs@[i as int]@[j as int]));
                j = j + 1;
            }
            assert(segs@[i as int]@.take(j as int) =~= segs@[i as int]@);
            assert(before + sv[i as int] + filtered_index(sv, sel, i + 1).0 =~= before + (sv[i as int] + filtered_index(
                sv,
                sel,
                i + 1,
            ).0));
        }
        i = i + 1;
    }
    assert(next@ + filtered_index(sv, sel, i as int).0 =~= next@);
    (string_from(next.as_slice()), removed)
}

} // verus!

verus! {

/// `s` with every `a` replaced by `b`.
pub open spec fn replace_char(s: Seq<char>, a: char, b: char) -> Seq<char> {
    s.map_values(|c: char| if c == a { b } else { c })
}

/// `s` with every `a` replaced by `b`.
fn replace_char_exec(v: &[char], a: char, b: char) -> (r: Vec<char>)
    ensures
        r@ == replace_char(v@, a, b),
{
    let mut out: Vec<char> = Vec::new();
    let mut i: usize = 0;
    while i < v.len()
        invariant
            i <= v@.len(),
            out@ == replace_char(v@.take(i as int), a, b),
        decreases v@.len() - i,
    {
        out.push(if v[i] == a { b } else { v[i] });
        assert(replace_char(v@.take(i + 1), a, b) =~= replace_char(v@.take(i as int), a, b).push(
            if v@[i as int] == a { b } else { v@[i as int] },
        ));
        i = i + 1;
    }
    assert(v@.take(v@.len() as int) =~= v@);
    out
}

/// A workspace path as the desktop app writes it: a `\\?\UNC\` path becomes
/// a `\\` share path with backslashes, another `\\?\` path loses the prefix
/// and uses forward slashes; blank text names no path.
pub open spec fn desktop_path_spec(value: Seq<char>) -> Option<Seq<char>> {
    let s = trim(value);
    if s.len() == 0 {
        None
    } else if starts_with(crate::text::lower(s), seq!['\\', '\\', '?', '\\', 'u', 'n', 'c', '\\']) {
        Some(seq!['\\', '\\'] + replace_char(s.skip(8), '/', '\\'))
    } else if starts_with(s, seq!['\\', '\\', '?', '\\']) {
        Some(replace_char(s.skip(4), '\\', '/'))
    } else {
        Some(s)
    }
}

/// A workspace path as the desktop app writes it.
pub fn to_desktop_workspace_path(value: &str) -> (r: Option<String>)
    ensures
        match r {
            Some(p) => desktop_path_spec(value@) == Some(p@),
            None => desktop_path_spec(value@) is None,
        },
{
    let s = trim_chars(str_chars(value).as_slice());
    if s.len() == 0 {
        return None;
    }
    let l = crate::text::lower_chars(s.as_slice());
    let unc = vec!['\\', '\\', '?', '\\', 'u', 'n', 'c', '\\'];
    let verbatim = vec!['\\', '\\', '?', '\\'];
    if starts_with_chars(l.as_slice(), unc.as_slice()) {
        assert(crate::text::lower(s@).len() == s@.len());
        let rest = slice_chars(s.as_slice(), 8, s.len());
        assert(rest@ =~= s@.skip(8));
        let mut out = vec!['\\', '\\'];
        let tail = replace_char_exec(rest.as_slice(), '/', '\\');
        let mut i: usize = 0;
        while i < tail.len()
            invariant
                i <= tail@.len(),
                out@ == seq!['\\', '\\'] + tail@.take(i as int),
            decreases tail@.len() - i,
        {
            out.push(tail[i]);
            assert(tail@.take(i + 1) =~= tail@.take(i as int).push(tail@[i as int]));
            i = i + 1;
        }
        assert(tail@.take(tail@.len() as int) =~= tail@);
        return Some(string_from(out.as_slice()));
    }
    if starts_with_chars(s.as_slice(), verbatim.as_slice()) {
        let rest = slice_chars(s.as_slice(), 4, s.len());
        assert(rest@ =~= s@.skip(4));
        return Some(string_from(replace_char_exec(rest.as_slice(), '\\', '/').as_slice()));
    }
    Some(string_from(s.as_slice()))
}

/// Whether a working directory lies inside WSL: a Unix path, or a
/// `\\wsl$\` or `\\wsl.localhost\` share.
pub open spec fn wsl_cwd_spec(cwd: Seq<char>) -> bool {
    let n = crate::text::lower(replace_char(trim(cwd), '\\', '/'));
    starts_with(n, seq!['/']) || starts_with(n, "//wsl$/"@) || starts_with(n, "//wsl.localhost/"@)
}

/// Whether a working directory lies inside WSL.
pub fn cwd_looks_like_wsl(cwd: &str) -> (r: bool)
    ensures
        r == wsl_cwd_spec(cwd@),
{
    let t = trim_chars(str_chars(cwd).as_slice());
    let n = crate::text::lower_chars(replace_char_exec(t.as_slice(), '\\', '/').as_slice());
    let slash = vec!['/'];
    assert(slash@ =~= seq!['/']);
    starts_with_chars(n.as_slice(), slash.as_slice()) || starts_with_chars(n.as_slice(), str_chars("//wsl$/").as_slice())
        || starts_with_chars(n.as_slice(), str_chars("//wsl.localhost/").as_slice())
}

/// `s` without the leading characters `c`.
pub open spec fn strip_leading(s: Seq<char>, c: char) -> Seq<char>
    decreases s.len(),
{
    if s.len() > 0 && s[0] == c {
        strip_leading(s.drop_first(), c)
    } else {
        s
    }
}

/// `s` without the trailing characters `c`.
pub open spec fn strip_trailing(s: Seq<char>, c: char) -> Seq<char>
    decreases s.len(),
{
    if s.len() > 0 && s.last() == c {
        strip_trailing(s.drop_last(), c)
    } else {
        s
    }
}

/// `v` without the leading characters `c`.
fn strip_leading_exec(v: &[char], c: char) -> (r: Vec<char>)
    ensures
        r@ == strip_leading(v@, c),
{
    let mut a: usize = 0;
    assert(v@.skip(0) =~= v@);
    while a < v.len() && v[a] == c
        invariant
            a <= v@.len(),
            strip_leading(v@.skip(a as int), c) == strip_leading(v@, c),
        decreases v@.len() - a,
    {
        assert(v@.skip(a as int).drop_first() =~= v@.skip(a + 1));
        a = a + 1;
    }
    let r = slice_chars(v, a, v.len());
    assert(r@ =~= v@.skip(a as int));
    r
}

/// `v` without the trailing characters `c`.
fn strip_trailing_exec(v: &[char], c: char) -> (r: Vec<char>)
    ensures
        r@ == strip_trailing(v@, c),
{
    let mut b: usize = v.len();
    assert(v@.take(b as int) =~= v@);
    while b > 0 && v[b - 1] == c
        invariant
            b <= v@.len(),
            strip_trailing(v@.take(b as int), c) == strip_trailing(v@, c),
        decreases b,
    {
        assert(v@.take(b as int).drop_last() =~= v@.take(b - 1));
        b = b - 1;
    }
    let r = slice_chars(v, 0, b);
    assert(r@ =~= v@.take(b as int));
    r
}

/// The WSL distribution a `\\wsl$\name\...` or `\\wsl.localhost\name\...`
/// working directory lies in, lowercased.
pub open spec fn wsl_distribution_spec(cwd: Seq<char>) -> Option<Seq<char>> {
    let parts = crate::text::split_by(strip_leading(replace_char(trim(cwd), '\\', '/'), '/'), |c: char| seq!['/'].contains(c));
    if parts.len() < 2 || !(crate::text::lower(parts[0]) == "wsl$"@ || crate::text::lower(parts[0]) == "wsl.localhost"@) {
        None
    } else {
        Some(crate::text::lower(parts[1]))
    }
}

/// The WSL distribution a working directory lies in.
pub fn wsl_distribution_from_cwd(cwd: &str) -> (r: Option<String>)
    ensures
        match r {
            Some(d) => wsl_distribution_spec(cwd@) == Some(d@),
            None => wsl_distribution_spec(cwd@) is None,
        },
{
    let t = trim_chars(str_chars(cwd).as_slice());
    let n = strip_leading_exec(replace_char_exec(t.as_slice(), '\\', '/').as_slice(), '/');
    let seps = vec!['/'];
    assert(seps@ =~= seq!['/']);
    let parts = crate::text::split_any(n.as_slice(), seps.as_slice());
    if parts.len() < 2 {
        return None;
    }
    assert(rows(parts@)[0] == parts@[0]@);
    assert(rows(parts@)[1] == parts@[1]@);
    let first = string_from(crate::text::lower_chars(parts[0].as_slice()).as_slice());
    if !(crate::text::str_eq(first.as_str(), "wsl$") || crate::text::str_eq(first.as_str(), "wsl.localhost")) {
        return None;
    }
    Some(string_from(crate::text::lower_chars(parts[1].as_slice()).as_slice()))
}

/// Text that is present and not blank.
pub fn non_empty_string(value: Option<String>) -> (r: Option<String>)
    ensures
        match value {
            Some(s) => if trim(s@).len() > 0 { r == Some(s) } else { r is None },
            None => r is None,
        },
{
    match value {
        Some(s) => if is_blank(s.as_str()) {
            None
        } else {
            Some(s)
        },
        None => None,
    }
}

/// The form under which two workspace paths are the same: backslashes,
/// no trailing separator, lowercase.
pub open spec fn comparable_path(p: Seq<char>) -> Seq<char> {
    crate::text::lower(strip_trailing(replace_char(p, '/', '\\'), '\\'))
}

/// The paths `ps` as the desktop app writes them, each once (compared
/// without case or trailing separator), with the comparable forms seen.
pub open spec fn dedupe_spec(ps: Seq<Seq<char>>) -> (Seq<Seq<char>>, Seq<Seq<char>>)
    decreases ps.len(),
{
    if ps.len() == 0 {
        (Seq::empty(), Seq::empty())
    } else {
        let prev = dedupe_spec(ps.drop_last());
        match desktop_path_spec(ps.last()) {
            None => prev,
            Some(d) => if prev.1.contains(comparable_path(d)) {
                prev
            } else {
                (prev.0.push(d), prev.1.push(comparable_path(d)))
            },
        }
    }
}

/// The workspace paths as the desktop app writes them, each once.
pub fn dedupe_paths(paths: Vec<String>) -> (r: Vec<String>)
    ensures
        ids_view(r@) == dedupe_spec(ids_view(paths@)).0,
{
    let ghost ps = ids_view(paths@);
    let mut out: Vec<String> = Vec::new();
    let mut seen: Vec<String> = Vec::new();
    let mut i: usize = 0;
    while i < paths.len()
        invariant
            i <= paths@.len(),
            ps == ids_view(paths@),
            (ids_view(out@), ids_view(seen@)) == dedupe_spec(ps.take(i as int)),
        decreases paths@.len() - i,
    {
        assert(ps.take(i + 1).drop_last() =~= ps.take(i as int));
        assert(ps.take(i + 1).last() == paths@[i as int]@);
        match to_desktop_workspace_path(paths[i].as_str()) {
            Some(d) => {
                let dc = str_chars(d.as_str());
                let swapped = replace_char_exec(dc.as_slice(), '/', '\\');
                let key = string_from(
                    crate::text::lower_chars(strip_trailing_exec(swapped.as_slice(), '\\').as_slice()).as_slice(),
                );
                if !contains_str(&seen, key.as_str()) {
                    let ghost o = ids_view(out@);
                    let ghost sn = ids_view(seen@);
                    out.push(d);
                    seen.push(key);
                    assert(ids_view(out@) =~= o.push(dc@));
                    assert(ids_view(seen@) =~= sn.push(comparable_path(dc@)));
                }
            },
            None => {},
        }
        i = i + 1;
    }
    assert(ps.take(ps.len() as int) =~= ps);
    out
}

} // verus!

verus! {

/// A thread id without its `local:` prefix (plain or URL-encoded).
pub open spec fn bare_thread_id(id: Seq<char>) -> Seq<char> {
    let t = trim(id);
    if starts_with(t, "local:"@) {
        t.skip(6)
    } else if starts_with(t, "local%3A"@) {
        t.skip(8)
    } else if starts_with(t, "local%3a"@) {
        t.skip(8)
    } else {
        t
    }
}

/// The forms under which thread `id` may be written: bare and with each
/// form of the `local:` prefix.
pub open spec fn thread_id_forms(id: Seq<char>) -> Seq<Seq<char>> {
    let b = bare_thread_id(id);
    seq![b, "local:"@ + b, "local%3A"@ + b, "local%3a"@ + b]
}

/// Every form under which the non-blank thread ids `ids` may be written.
pub open spec fn thread_match_set(ids: Seq<Seq<char>>) -> Set<Seq<char>> {
    Set::new(
        |x: Seq<char>|
            exists|i: int| 0 <= i < ids.len() && trim(ids[i]).len() > 0 && #[trigger] thread_id_forms(ids[i]).contains(x),
    )
}

/// Appending to a sequence adds the element to its set.
pub proof fn lemma_push_to_set<A>(s: Seq<A>, x: A)
    ensures
        s.push(x).to_set() == s.to_set().insert(x),
{
    assert forall|y: A| s.push(x).to_set().contains(y) <==> s.to_set().insert(x).contains(y) by {
        if s.push(x).contains(y) {
            let j = choose|j: int| 0 <= j < s.push(x).len() && s.push(x)[j] == y;
            if j < s.len() {
                assert(s[j] == y);
            }
        }
        if s.contains(y) {
            let j = choose|j: int| 0 <= j < s.len() && s[j] == y;
            assert(s.push(x)[j] == y);
        }
        if y == x {
            assert(s.push(x)[s.len() as int] == y);
        }
    }
    assert(s.push(x).to_set() =~= s.to_set().insert(x));
}

/// The forms of one thread id.
fn thread_forms_exec(id: &str) -> (r: Vec<String>)
    ensures
        ids_view(r@) == thread_id_forms(id@),
{
    let t = trim_str(id);
    let tc = str_chars(t.as_str());
    let n = tc.len();
    proof {
        reveal_strlit("local:");
        reveal_strlit("local%3A");
        reveal_strlit("local%3a");
    }
    let bare: Vec<char> = if crate::text::str_starts_with(t.as_str(), "local:") {
        slice_chars(tc.as_slice(), 6, n)
    } else if crate::text::str_starts_with(t.as_str(), "local%3A") || crate::text::str_starts_with(t.as_str(), "local%3a") {
        slice_chars(tc.as_slice(), 8, n)
    } else {
        slice_chars(tc.as_slice(), 0, n)
    };
    assert(bare@ =~= bare_thread_id(id@));
    let b = string_from(bare.as_slice());
    let r = vec![
        owned(b.as_str()),
        concat2("local:", b.as_str()),
        concat2("local%3A", b.as_str()),
        concat2("local%3a", b.as_str()),
    ];
    assert(ids_view(r@) =~= thread_id_forms(id@));
    r
}

/// What forgetting the deleted threads `thread_ids` does to the session
/// index `index_text` (`None` when there is none): the new index text and
/// how many entries leave it, each entry naming one of the threads under any
/// of its forms; `None` when nothing would change.
pub fn prune_deleted_thread_references(index_text: Option<&str>, thread_ids: &[String]) -> (r: Option<
    (String, usize),
>)
    ensures
        match index_text {
            None => r is None,
            Some(t) => exists|forms: Seq<Seq<char>>|
                #![trigger forms.to_set()]
                forms.to_set() == thread_match_set(ids_view(thread_ids@)) && ({
                    let (text, n) = filtered_index(crate::text::split_inclusive_nl(t@), forms, 0);
                    match r {
                        None => n == 0,
                        Some((next, removed)) => n > 0 && next@ == text && removed as nat == n,
                    }
                }),
        },
{
    let text = match index_text {
        None => return None,
        Some(t) => t,
    };
    let forms = thread_id_match_set(thread_ids);
    let (next, removed) = filtered_session_index_text(text, &forms);
    if removed == 0 {
        None
    } else {
        Some((next, removed))
    }
}

/// Every form under which the given thread ids may be written, each once.
pub fn thread_id_match_set(thread_ids: &[String]) -> (r: Vec<String>)
    ensures
        ids_view(r@).to_set() == thread_match_set(ids_view(thread_ids@)),
        ids_view(r@).no_duplicates(),
{
    let ghost ids = ids_view(thread_ids@);
    let mut out: Vec<String> = Vec::new();
    assert(ids_view(out@).to_set() =~= thread_match_set(ids.take(0)));
    let mut i: usize = 0;
    while i < thread_ids.len()
        invariant
            i <= thread_ids@.len(),
            ids == ids_view(thread_ids@),
            ids_view(out@).to_set() == thread_match_set(ids.take(i as int)),
            ids_view(out@).no_duplicates(),
        decreases thread_ids@.len() - i,
    {
        assert(ids[i as int] == thread_ids@[i as int]@);
        let ghost before = ids_view(out@).to_set();
        if !is_blank(thread_ids[i].as_str()) {
            let forms = thread_forms_exec(thread_ids[i].as_str());
            assert(ids_view(forms@).len() == 4);
            assert(ids_view(out@).to_set() =~= before + ids_view(forms@).take(0).to_set());
            let mut k: usize = 0;
            while k < 4
                invariant
                    k <= 4,
                    ids_view(forms@) == thread_id_forms(ids[i as int]),
                    forms@.len() == 4,
                    ids_view(out@).to_set() == before + ids_view(forms@).take(k as int).to_set(),
                    ids_view(out@).no_duplicates(),
                decreases 4 - k,
            {
                let ghost o = ids_view(out@);
                assert(ids_view(forms@).take(k + 1) =~= ids_view(forms@).take(k as int).push(forms@[k as int]@));
                if !contains_str(&out, forms[k].as_str()) {
                    out.push(forms[k].clone());
                    assert(ids_view(out@) =~= o.push(forms@[k as int]@));
                    proof {
                        lemma_push_to_set(o, forms@[k as int]@);
                    }
                    assert forall|a: int, b: int| 0 <= a < b < ids_view(out@).len() implies ids_view(out@)[a]
                        != ids_view(out@)[b] by {
                        if b == o.len() {
                            assert(o.contains(o[a]));
                        }
                    }
                } else {
                    assert(o.contains(forms@[k as int]@));
                }
                proof {
                    lemma_push_to_set(ids_view(forms@).take(k as int), forms@[k as int]@);
                }
                k = k + 1;
            }
            assert(ids_view(forms@).take(4) =~= thread_id_forms(ids[i as int]));
            assert(thread_match_set(ids.take(i + 1)) =~= before + thread_id_forms(ids[i as int]).to_set()) by {
                assert forall|x: Seq<char>| thread_match_set(ids.take(i + 1)).contains(x) implies (before
                    + thread_id_forms(ids[i as int]).to_set()).contains(x) by {
                    let j = choose|j: int|
                        0 <= j < ids.take(i + 1).len() && trim(ids.take(i + 1)[j]).len() > 0
                            && #[trigger] thread_id_forms(ids.take(i + 1)[j]).contains(x);
                    if j < i {
                        assert(ids.take(i as int)[j] == ids.take(i + 1)[j]);
                        assert(thread_match_set(ids.take(i as int)).contains(x));
                    } else {
                        assert(ids.take(i + 1)[j] == ids[i as int]);
                    }
                }
                assert forall|x: Seq<char>| (before + thread_id_forms(ids[i as int]).to_set()).contains(x) implies thread_match_set(
                    ids.take(i + 1),
                ).contains(x) by {
                    if before.contains(x) {
                        let j = choose|j: int|
                            0 <= j < ids.take(i as int).len() && trim(ids.take(i as int)[j]).len() > 0
                                && #[trigger] thread_id_forms(ids.take(i as int)[j]).contains(x);
                        assert(ids.take(i + 1)[j] == ids.take(i as int)[j]);
                    } else {
                        assert(ids.take(i + 1)[i as int] == ids[i as int]);
                        assert(thread_id_forms(ids.take(i + 1)[i as int]).contains(x));
                    }
                }
            }
        } else {
            assert(thread_match_set(ids.take(i + 1)) =~= before) by {
                assert forall|x: Seq<char>| thread_match_set(ids.take(i + 1)).contains(x) implies before.contains(x) by {
                    let j = choose|j: int|
                        0 <= j < ids.take(i + 1).len() && trim(ids.take(i + 1)[j]).len() > 0
                            && #[trigger] thread_id_forms(ids.take(i + 1)[j]).contains(x);
                    if j < i {
                        assert(ids.take(i as int)[j] == ids.take(i + 1)[j]);
                    } else {
                        assert(ids.take(i + 1)[j] == ids[i as int]);
                    }
                }
                assert forall|x: Seq<char>| before.contains(x) implies thread_match_set(ids.take(i + 1)).contains(x) by {
                    let j = choose|j: int|
                        0 <= j < ids.take(i as int).len() && trim(ids.take(i as int)[j]).len() > 0
                            && #[trigger] thread_id_forms(ids.take(i as int)[j]).contains(x);
                    assert(ids.take(i + 1)[j] == ids.take(i as int)[j]);
                }
            }
        }
        i = i + 1;
    }
    assert(ids.take(ids.len() as int) =~= ids);
    out
}

} // verus!

verus! {

/// The sum of the counts in a list.
pub open spec fn count_sum(cs: Seq<(String, usize)>) -> nat
    decreases cs.len(),
{
    if cs.len() == 0 {
        0
    } else {
        count_sum(cs.drop_last()) + (cs.last().1 as nat)
    }
}

/// The providers other than `target` that have encrypted content, in list order.
pub open spec fn risky_providers(cs: Seq<(String, usize)>, target: Seq<char>) -> Seq<Seq<char>>
    decreases cs.len(),
{
    if cs.len() == 0 {
        Seq::empty()
    } else {
        let prev = risky_providers(cs.drop_last(), target);
        if cs.last().0@ != target && cs.last().1 > 0 {
            prev.push(cs.last().0@)
        } else {
            prev
        }
    }
}

/// Texts joined with `sep`.
pub open spec fn join_with(ts: Seq<Seq<char>>, sep: Seq<char>) -> Seq<char>
    decreases ts.len(),
{
    if ts.len() == 0 {
        Seq::empty()
    } else if ts.len() == 1 {
        ts[0]
    } else {
        join_with(ts.drop_last(), sep) + sep + ts.last()
    }
}

/// The warning about session files whose encrypted content came from other
/// providers, given how many files hold content from each provider.
pub open spec fn encrypted_warning_spec(cs: Seq<(String, usize)>, target: Seq<char>) -> Option<Seq<char>> {
    let risky = risky_providers(cs, target);
    if risky.len() == 0 {
        None
    } else {
        Some(
            "检测到 "@ + crate::text::decimal(count_sum(cs)) + " 个会话文件包含来自 "@ + join_with(risky, ", "@)
                + " 的 encrypted_content。可见会话元数据已同步到 "@ + target
                + "，但继续或压缩这些历史可能出现 invalid_encrypted_content；需要可靠续聊时请切回原供应商/账号或开启新会话。"@,
        )
    }
}

/// The warning shown when synced sessions hold encrypted content from other
/// providers: `counts` gives, per provider, the files that hold some.
pub fn build_encrypted_content_warning(counts: &Vec<(String, usize)>, target_provider: &str) -> (r: Option<String>)
    requires
        count_sum(counts@) <= usize::MAX,
    ensures
        match r {
            Some(w) => encrypted_warning_spec(counts@, target_provider@) == Some(w@),
            None => encrypted_warning_spec(counts@, target_provider@) is None,
        },
{
    let ghost cs = counts@;
    let mut risky: Vec<char> = Vec::new();
    let mut n_risky: usize = 0;
    let mut total: usize = 0;
    let mut i: usize = 0;
    proof {
        reveal_strlit(", ");
    }
    while i < counts.len()
        invariant
            i <= cs.len(),
            cs == counts@,
            count_sum(cs) <= usize::MAX,
            total == count_sum(cs.take(i as int)),
            n_risky == risky_providers(cs.take(i as int), target_provider@).len(),
            risky@ == join_with(risky_providers(cs.take(i as int), target_provider@), ", "@),
            n_risky <= i,
        decreases cs.len() - i,
    {
        assert(cs.take(i + 1).drop_last() =~= cs.take(i as int));
        assert(cs.take(i + 1).last() == cs[i as int]);
        proof {
            lemma_count_sum_prefix(cs, i + 1);
        }
        let (provider, count) = (&counts[i].0, counts[i].1);
        let ghost prev = risky_providers(cs.take(i as int), target_provider@);
        proof {
            reveal_strlit(", ");
        }
        total = total + count;
        if !crate::text::str_eq(provider.as_str(), target_provider) && count > 0 {
            assert(risky_providers(cs.take(i + 1), target_provider@) == prev.push(provider@));
            assert(prev.push(provider@).drop_last() =~= prev);
            if n_risky > 0 {
                risky.push(',');
                risky.push(' ');
            }
            let ghost before = risky@;
            crate::text::append_str(&mut risky, provider.as_str());
            if n_risky == 0 {
                assert(risky@ =~= provider@);
            } else {
                assert(risky@ =~= before + provider@);
                assert(before =~= join_with(prev, ", "@) + ", "@);
            }
            assert(risky@ == join_with(prev.push(provider@), ", "@));
            n_risky = n_risky + 1;
        } else {
            assert(risky_providers(cs.take(i + 1), target_provider@) == prev);
        }
        i = i + 1;
    }
    assert(cs.take(cs.len() as int) =~= cs);
    if n_risky == 0 {
        return None;
    }
    let mut out = str_chars("检测到 ");
    crate::text::append_str(&mut out, crate::text::decimal_string(total as u64).as_str());
    crate::text::append_str(&mut out, " 个会话文件包含来自 ");
    let joined = string_from(risky.as_slice());
    crate::text::append_str(&mut out, joined.as_str());
    crate::text::append_str(&mut out, " 的 encrypted_content。可见会话元数据已同步到 ");
    crate::text::append_str(&mut out, target_provider);
    crate::text::append_str(
        &mut out,
        "，但继续或压缩这些历史可能出现 invalid_encrypted_content；需要可靠续聊时请切回原供应商/账号或开启新会话。",
    );
    Some(string_from(out.as_slice()))
}

/// The sum over a prefix is at most the sum over the whole list.
proof fn lemma_count_sum_prefix(cs: Seq<(String, usize)>, k: int)
    requires
        0 <= k <= cs.len(),
    ensures
        count_sum(cs.take(k)) <= count_sum(cs),
    decreases cs.len() - k,
{
    if k < cs.len() {
        lemma_count_sum_prefix(cs, k + 1);
        assert(cs.take(k + 1).drop_last() =~= cs.take(k));
    } else {
        assert(cs.take(k) =~= cs);
    }
}

/// The columns a catalog table needs before threads can be recovered into it.
pub open spec fn catalog_columns() -> Seq<Seq<char>> {
    seq![
        "host_id"@,
        "thread_id"@,
        "display_title"@,
        "source_created_at"@,
        "source_updated_at"@,
        "cwd"@,
        "source_kind"@,
        "model_provider"@,
        "observation_sequence"@,
    ]
}

/// Whether a catalog table with these columns can take recovered threads.
pub fn catalog_recovery_schema_supported(columns: &Vec<String>) -> (r: bool)
    ensures
        r == forall|k: int| 0 <= k < 9 ==> ids_view(columns@).contains(#[trigger] catalog_columns()[k]),
{
    let needed: Vec<&'static str> = vec![
        "host_id",
        "thread_id",
        "display_title",
        "source_created_at",
        "source_updated_at",
        "cwd",
        "source_kind",
        "model_provider",
        "observation_sequence",
    ];
    assert(needed@.map_values(|k: &str| k@) =~= catalog_columns());
    assert(needed@.len() == 9);
    let mut k: usize = 0;
    while k < 9
        invariant
            k <= 9,
            needed@.len() == 9,
            needed@.map_values(|k: &str| k@) == catalog_columns(),
            forall|j: int| 0 <= j < k ==> ids_view(columns@).contains(#[trigger] catalog_columns()[j]),
        decreases 9 - k,
    {
        assert(catalog_columns()[k as int] == needed@[k as int]@);
        if !contains_str(columns, needed[k]) {
            return false;
        }
        k = k + 1;
    }
    true
}

/// The non-blank provider ids of a set, sorted.
pub fn sorted_provider_ids(ids: &Vec<String>) -> (r: Vec<String>)
    ensures
        strictly_sorted(ids_view(r@)),
        ids_view(r@).to_set() == ids_view(ids@).to_set().filter(|x: Seq<char>| trim(x).len() > 0),
{
    let ghost v = ids_view(ids@);
    let mut out: Vec<String> = Vec::new();
    assert(ids_view(out@).to_set() =~= v.take(0).to_set().filter(|x: Seq<char>| trim(x).len() > 0));
    let mut i: usize = 0;
    while i < ids.len()
        invariant
            i <= v.len(),
            v == ids_view(ids@),
            strictly_sorted(ids_view(out@)),
            ids_view(out@).to_set() == v.take(i as int).to_set().filter(|x: Seq<char>| trim(x).len() > 0),
        decreases v.len() - i,
    {
        assert(v.take(i + 1) =~= v.take(i as int).push(v[i as int]));
        proof {
            lemma_push_to_set(v.take(i as int), v[i as int]);
        }
        assert(v[i as int] == ids@[i as int]@);
        let ghost before = ids_view(out@).to_set();
        if !is_blank(ids[i].as_str()) {
            insert_sorted(&mut out, ids[i].clone());
            assert(v.take(i + 1).to_set().filter(|x: Seq<char>| trim(x).len() > 0) =~= before.insert(v[i as int]));
        } else {
            assert(v.take(i + 1).to_set().filter(|x: Seq<char>| trim(x).len() > 0) =~= before);
        }
        i = i + 1;
    }
    assert(v.take(v.len() as int) =~= v);
    out
}

} // verus!

verus! {

/// Why a cleanup stops when the index is missing.
pub open spec fn no_index_message() -> Seq<char> {
    "session_index.jsonl 不存在，无法清理"@
}

/// Why a cleanup stops when the index changed after the preview.
pub open spec fn changed_index_message() -> Seq<char> {
    "session_index.jsonl 已在预览后发生变化；为避免覆盖 Codex 新内容，本次清理已中止，请重新预览"@
}

/// Why a cleanup stops when the confirmation names something not offered.
pub open spec fn stale_selection_message() -> Seq<char> {
    "确认列表已过期或包含非候选任务；本次清理未执行，请重新预览"@
}

/// The confirmed thread ids, trimmed, without blanks, each once.
pub open spec fn confirmed_selection(ids: Seq<Seq<char>>) -> Seq<Seq<char>>
    decreases ids.len(),
{
    if ids.len() == 0 {
        Seq::empty()
    } else {
        let prev = confirmed_selection(ids.drop_last());
        let t = trim(ids.last());
        if t.len() == 0 || prev.contains(t) {
            prev
        } else {
            prev.push(t)
        }
    }
}

/// What a confirmed cleanup writes: the index without the selected entries,
/// how many were removed and which ids were selected; or why it stops: no
/// index, an index that changed since the preview (its digest differs), or
/// a selection that names an entry the preview did not offer.
pub open spec fn cleanup_apply_spec(
    text: Option<Seq<char>>,
    live: Seq<Seq<char>>,
    expected: Seq<char>,
    confirmed: Seq<Seq<char>>,
) -> Result<(Seq<char>, nat, Seq<Seq<char>>), Seq<char>> {
    match text {
        None => Err(no_index_message()),
        Some(t) => if crate::legacy_import::hex_lower(crate::legacy_import::sha256_of(vstd::utf8::encode_utf8(t)))
            != expected {
            Err(changed_index_message())
        } else {
            let cands = cleanup_candidates(crate::text::split_inclusive_nl(t), live, 0).map_values(
                |c: (Seq<char>, Seq<char>, Seq<char>)| c.0,
            );
            let sel = confirmed_selection(confirmed);
            if exists|i: int| 0 <= i < sel.len() && !cands.contains(#[trigger] sel[i]) {
                Err(stale_selection_message())
            } else {
                let f = filtered_index(crate::text::split_inclusive_nl(t), sel, 0);
                Ok((f.0, f.1, sel))
            }
        },
    }
}

/// Decides a confirmed session index cleanup. `index_text` is the index as
/// read now (`None` when there is none), `live_thread_ids` the sessions that
/// still exist, `expected_snapshot_sha256` the digest the preview showed.
pub fn plan_session_index_cleanup_apply(
    index_text: Option<&str>,
    live_thread_ids: &Vec<String>,
    expected_snapshot_sha256: &str,
    confirmed_thread_ids: &[String],
) -> (r: Result<(String, usize, Vec<String>), String>)
    ensures
        match (r, cleanup_apply_spec(
            match index_text {
                Some(t) => Some(t@),
                None => None,
            },
            ids_view(live_thread_ids@),
            expected_snapshot_sha256@,
            confirmed_thread_ids@.map_values(|s: String| s@),
        )) {
            (Ok((text, n, sel)), Ok((t2, n2, s2))) => text@ == t2 && n as nat == n2 && ids_view(sel@) == s2,
            (Err(m), Err(m2)) => m@ == m2,
            _ => false,
        },
{
    let t = match index_text {
        Some(t) => t,
        None => return Err(owned("session_index.jsonl 不存在，无法清理")),
    };
    let digest = crate::legacy_import::sha256_hex(t.as_bytes());
    if !crate::text::str_eq(digest.as_str(), expected_snapshot_sha256) {
        return Err(owned("session_index.jsonl 已在预览后发生变化；为避免覆盖 Codex 新内容，本次清理已中止，请重新预览"));
    }
    let cands = session_index_candidates(t, live_thread_ids);
    let ghost cv = cands@.map_values(|c: SessionIndexCleanupCandidate| candidate_view(c)).map_values(
        |c: (Seq<char>, Seq<char>, Seq<char>)| c.0,
    );
    let mut cand_ids: Vec<String> = Vec::new();
    let mut k: usize = 0;
    while k < cands.len()
        invariant
            k <= cands@.len(),
            cv == cands@.map_values(|c: SessionIndexCleanupCandidate| candidate_view(c)).map_values(
                |c: (Seq<char>, Seq<char>, Seq<char>)| c.0,
            ),
            ids_view(cand_ids@) == cv.take(k as int),
        decreases cands@.len() - k,
    {
        let ghost before = ids_view(cand_ids@);
        cand_ids.push(cands[k].id.clone());
        assert(ids_view(cand_ids@) =~= before.push(cv[k as int]));
        assert(cv.take(k + 1) =~= cv.take(k as int).push(cv[k as int]));
        k = k + 1;
    }
    assert(cv.take(cv.len() as int) =~= cv);
    let ghost conf = confirmed_thread_ids@.map_values(|s: String| s@);
    let mut selected: Vec<String> = Vec::new();
    let mut i: usize = 0;
    while i < confirmed_thread_ids.len()
        invariant
            i <= confirmed_thread_ids@.len(),
            conf == confirmed_thread_ids@.map_values(|s: String| s@),
            ids_view(selected@) == confirmed_selection(conf.take(i as int)),
        decreases confirmed_thread_ids@.len() - i,
    {
        assert(conf.take(i + 1).drop_last() =~= conf.take(i as int));
        assert(conf.take(i + 1).last() == confirmed_thread_ids@[i as int]@);
        let tid = trim_str(confirmed_thread_ids[i].as_str());
        if !(str_chars(tid.as_str()).len() == 0) && !contains_str(&selected, tid.as_str()) {
            let ghost before = ids_view(selected@);
            selected.push(tid);
            assert(ids_view(selected@) =~= before.push(trim(conf[i as int])));
        }
        i = i + 1;
    }
    assert(conf.take(conf.len() as int) =~= conf);
    let ghost sel = ids_view(selected@);
    let mut j: usize = 0;
    while j < selected.len()
        invariant
            j <= selected@.len(),
            sel == ids_view(selected@),
            ids_view(cand_ids@) == cv,
            sel == confirmed_selection(confirmed_thread_ids@.map_values(|s: String| s@)),
            cv == cleanup_candidates(crate::text::split_inclusive_nl(t@), ids_view(live_thread_ids@), 0).map_values(
                |c: (Seq<char>, Seq<char>, Seq<char>)| c.0,
            ),
            crate::legacy_import::hex_lower(crate::legacy_import::sha256_of(vstd::utf8::encode_utf8(t@)))
                == expected_snapshot_sha256@,
            index_text == Some(t),
            forall|x: int| 0 <= x < j ==> cv.contains(#[trigger] sel[x]),
        decreases selected@.len() - j,
    {
        if !contains_str(&cand_ids, selected[j].as_str()) {
            assert(0 <= j < sel.len() && !cv.contains(sel[j as int]));
            return Err(owned("确认列表已过期或包含非候选任务；本次清理未执行，请重新预览"));
        }
        j = j + 1;
    }
    let (next, removed) = filtered_session_index_text(t, &selected);
    Ok((next, removed, selected))
}

/// The refusal when Codex or ChatGPT still runs: the running process ids,
/// and the backup a cleanup already made.
pub fn ensure_codex_app_stopped(running_processes: &[u32], backup_dir: Option<String>) -> (r: Result<
    (),
    SessionIndexCleanupApplyError,
>)
    ensures
        running_processes@.len() == 0 <==> r is Ok,
        r matches Err(e) ==> e.backup_dir == backup_dir && e.message@ == "Codex App / ChatGPT 仍在运行（进程："@
            + join_with(running_processes@.map_values(|p: u32| crate::text::decimal(p as nat)), ", "@)
            + "）；请完全退出 App 后重新预览并确认清理"@,
{
    if running_processes.len() == 0 {
        return Ok(());
    }
    let ghost ps = running_processes@.map_values(|p: u32| crate::text::decimal(p as nat));
    let mut list: Vec<char> = Vec::new();
    let mut i: usize = 0;
    proof {
        reveal_strlit(", ");
    }
    while i < running_processes.len()
        invariant
            i <= running_processes@.len(),
            ps == running_processes@.map_values(|p: u32| crate::text::decimal(p as nat)),
            list@ == join_with(ps.take(i as int), ", "@),
        decreases running_processes@.len() - i,
    {
        proof {
            reveal_strlit(", ");
        }
        assert(ps.take(i + 1).drop_last() =~= ps.take(i as int));
        let d = crate::text::decimal_string(running_processes[i] as u64);
        let ghost before = list@;
        if i > 0 {
            list.push(',');
            list.push(' ');
        }
        crate::text::append_str(&mut list, d.as_str());
        if i == 0 {
            assert(list@ =~= join_with(ps.take(1), ", "@));
        } else {
            assert(list@ =~= before + ", "@ + ps[i as int]);
        }
        i = i + 1;
    }
    assert(ps.take(ps.len() as int) =~= ps);
    let mut msg = str_chars("Codex App / ChatGPT 仍在运行（进程：");
    let joined = string_from(list.as_slice());
    crate::text::append_str(&mut msg, joined.as_str());
    crate::text::append_str(&mut msg, "）；请完全退出 App 后重新预览并确认清理");
    Err(SessionIndexCleanupApplyError { message: string_from(msg.as_slice()), backup_dir })
}

} // verus!

verus! {

/// A sync target as plain values: id, sources, current, manual, saved.
pub type TargetV = (Seq<char>, Seq<ProviderSyncTargetSource>, bool, bool, bool);

/// A sync target as plain values.
pub open spec fn target_view(t: ProviderSyncTargetOption) -> TargetV {
    (t.id@, t.sources@, t.is_current_provider, t.is_manual, t.is_saved)
}

/// The sync targets of a list as plain values.
pub open spec fn targets_view(ts: Seq<ProviderSyncTargetOption>) -> Seq<TargetV> {
    ts.map_values(|t: ProviderSyncTargetOption| target_view(t))
}

/// `n` copies of `s`.
pub open spec fn repeat_source(s: ProviderSyncTargetSource, n: nat) -> Seq<ProviderSyncTargetSource> {
    Seq::new(n, |i: int| s)
}

/// The test that keeps source `s`.
pub open spec fn is_source(s: ProviderSyncTargetSource) -> spec_fn(ProviderSyncTargetSource) -> bool {
    |x: ProviderSyncTargetSource| x == s
}

/// How many times `s` occurs in `v`.
pub open spec fn source_count(v: Seq<ProviderSyncTargetSource>, s: ProviderSyncTargetSource) -> nat {
    v.filter(is_source(s)).len()
}

/// The sources in order (configuration, rollout files, databases, manual),
/// each as often as it occurs.
pub open spec fn sorted_sources(v: Seq<ProviderSyncTargetSource>) -> Seq<ProviderSyncTargetSource> {
    repeat_source(ProviderSyncTargetSource::Config, source_count(v, ProviderSyncTargetSource::Config))
        + repeat_source(ProviderSyncTargetSource::Rollout, source_count(v, ProviderSyncTargetSource::Rollout))
        + repeat_source(ProviderSyncTargetSource::Sqlite, source_count(v, ProviderSyncTargetSource::Sqlite))
        + repeat_source(ProviderSyncTargetSource::Manual, source_count(v, ProviderSyncTargetSource::Manual))
}

/// The sources in order.
fn sort_sources(v: &Vec<ProviderSyncTargetSource>) -> (r: Vec<ProviderSyncTargetSource>)
    ensures
        r@ == sorted_sources(v@),
{
    let mut r: Vec<ProviderSyncTargetSource> = Vec::new();
    let mut rank: u8 = 0;
    while rank < 4
        invariant
            rank <= 4,
            r@ == (if rank >= 1 { repeat_source(ProviderSyncTargetSource::Config, source_count(v@, ProviderSyncTargetSource::Config)) } else { Seq::empty() })
                + (if rank >= 2 { repeat_source(ProviderSyncTargetSource::Rollout, source_count(v@, ProviderSyncTargetSource::Rollout)) } else { Seq::empty() })
                + (if rank >= 3 { repeat_source(ProviderSyncTargetSource::Sqlite, source_count(v@, ProviderSyncTargetSource::Sqlite)) } else { Seq::empty() })
                + (if rank >= 4 { repeat_source(ProviderSyncTargetSource::Manual, source_count(v@, ProviderSyncTargetSource::Manual)) } else { Seq::empty() }),
        decreases 4 - rank,
    {
        let s = if rank == 0 {
            ProviderSyncTargetSource::Config
        } else if rank == 1 {
            ProviderSyncTargetSource::Rollout
        } else if rank == 2 {
            ProviderSyncTargetSource::Sqlite
        } else {
            ProviderSyncTargetSource::Manual
        };
        let ghost pred = is_source(s);
        let ghost start = r@;
        let mut n: usize = 0;
        let mut i: usize = 0;
        while i < v.len()
            invariant
                i <= v@.len(),
                pred == is_source(s),
                n == v@.take(i as int).filter(pred).len(),
                n <= i,
                r@ == start + repeat_source(s, n as nat),
            decreases v@.len() - i,
        {
            proof {
                crate::relay_rotation::lemma_filter_take_step(v@, pred, i as int);
            }
            if v[i] == s {
                r.push(s);
                assert(r@ =~= start + repeat_source(s, (n + 1) as nat));
                n = n + 1;
            }
            i = i + 1;
        }
        assert(v@.take(v@.len() as int) =~= v@);
        assert(n == source_count(v@, s));
        rank = rank + 1;
        assert(Seq::<ProviderSyncTargetSource>::empty() + repeat_source(s, n as nat) =~= repeat_source(s, n as nat));
    }
    assert(r@ =~= sorted_sources(v@));
    r
}

} // verus!

verus! {

/// Target `a` is listed before `b`: the current provider first, then by id.
pub open spec fn target_before(a: TargetV, b: TargetV) -> bool {
    (a.2 && !b.2) || (a.2 == b.2 && seq_lt(a.0, b.0))
}

/// No target is listed after one it should come before.
pub open spec fn targets_sorted(ts: Seq<TargetV>) -> bool {
    forall|i: int, j: int| 0 <= i < j < ts.len() ==> !target_before(#[trigger] ts[j], #[trigger] ts[i])
}

proof fn lemma_before_order(a: TargetV, b: TargetV, c: TargetV)
    ensures
        !(target_before(a, b) && target_before(b, a)),
        target_before(a, b) && target_before(b, c) ==> target_before(a, c),
{
    crate::order::lemma_lt_trichotomy(a.0, b.0);
    if target_before(a, b) && target_before(b, c) && a.2 == b.2 && b.2 == c.2 {
        crate::order::lemma_lt_transitive(a.0, b.0, c.0);
    }
}

/// Position of the first target with id `id`.
pub open spec fn target_index(ts: Seq<TargetV>, id: Seq<char>) -> Option<int>
    decreases ts.len(),
{
    if ts.len() == 0 {
        None
    } else {
        match target_index(ts.drop_last(), id) {
            Some(j) => Some(j),
            None => if ts.last().0 == id {
                Some(ts.len() - 1)
            } else {
                None
            },
        }
    }
}

/// The targets after adding manual provider `id`: an existing target gains
/// the manual source (sources kept in order) and its manual and saved marks;
/// otherwise a manual target is added.
pub open spec fn merge_one(
    ts: Seq<TargetV>,
    id: Seq<char>,
    current: Seq<char>,
    man: Seq<Seq<char>>,
    saved: Seq<Seq<char>>,
) -> Seq<TargetV> {
    match target_index(ts, id) {
        Some(j) => ts.update(
            j,
            (
                id,
                if ts[j].1.contains(ProviderSyncTargetSource::Manual) {
                    ts[j].1
                } else {
                    sorted_sources(ts[j].1.push(ProviderSyncTargetSource::Manual))
                },
                ts[j].2,
                man.contains(id),
                saved.contains(id),
            ),
        ),
        None => ts.push((id, seq![ProviderSyncTargetSource::Manual], id == current, man.contains(id), saved.contains(id))),
    }
}

/// The targets after adding each of the manual providers `ids`.
pub open spec fn merge_all(
    ts: Seq<TargetV>,
    ids: Seq<Seq<char>>,
    current: Seq<char>,
    man: Seq<Seq<char>>,
    saved: Seq<Seq<char>>,
) -> Seq<TargetV>
    decreases ids.len(),
{
    if ids.len() == 0 {
        ts
    } else {
        merge_one(merge_all(ts, ids.drop_last(), current, man, saved), ids.last(), current, man, saved)
    }
}

/// Whether target `a` comes before `b`.
fn before_exec(a: &ProviderSyncTargetOption, b: &ProviderSyncTargetOption) -> (r: bool)
    ensures
        r == target_before(target_view(*a), target_view(*b)),
{
    (a.is_current_provider && !b.is_current_provider) || (a.is_current_provider == b.is_current_provider
        && crate::order::str_lt(a.id.as_str(), b.id.as_str()))
}

/// Whether a list of sources holds the manual one.
fn has_manual(v: &Vec<ProviderSyncTargetSource>) -> (r: bool)
    ensures
        r == v@.contains(ProviderSyncTargetSource::Manual),
{
    let mut i: usize = 0;
    while i < v.len()
        invariant
            i <= v@.len(),
            forall|j: int| 0 <= j < i ==> v@[j] != ProviderSyncTargetSource::Manual,
        decreases v@.len() - i,
    {
        if v[i] == ProviderSyncTargetSource::Manual {
            assert(v@[i as int] == ProviderSyncTargetSource::Manual);
            return true;
        }
        i = i + 1;
    }
    false
}

/// Adds manual provider `id` to the targets.
fn merge_one_exec(
    targets: &mut Vec<ProviderSyncTargetOption>,
    id: &str,
    current: &str,
    settings: &crate::settings::BackendSettings,
)
    ensures
        targets_view(final(targets)@) == merge_one(
            targets_view(old(targets)@),
            id@,
            current@,
            ids_view(settings.provider_sync_manual_providers@),
            ids_view(settings.provider_sync_saved_providers@),
        ),
{
    let ghost tv = targets_view(targets@);
    let is_manual = contains_str(&settings.provider_sync_manual_providers, id);
    let is_saved = contains_str(&settings.provider_sync_saved_providers, id);
    let mut j: usize = 0;
    while j < targets.len()
        invariant
            j <= targets@.len(),
            tv == targets_view(targets@),
            targets@ == old(targets)@,
            target_index(tv.take(j as int), id@) is None,
            is_manual == ids_view(settings.provider_sync_manual_providers@).contains(id@),
            is_saved == ids_view(settings.provider_sync_saved_providers@).contains(id@),
        decreases targets@.len() - j,
    {
        assert(tv.take(j + 1).drop_last() =~= tv.take(j as int));
        if crate::text::str_eq(targets[j].id.as_str(), id) {
            assert(target_index(tv.take(j + 1), id@) == Some(j as int));
            proof {
                lemma_target_index_prefix(tv, j + 1, id@);
            }
            let old_t = targets[j].clone_option();
            let sources = if has_manual(&old_t.sources) {
                old_t.sources
            } else {
                let mut s = old_t.sources;
                s.push(ProviderSyncTargetSource::Manual);
                sort_sources(&s)
            };
            let updated = ProviderSyncTargetOption {
                id: owned(id),
                sources,
                is_current_provider: old_t.is_current_provider,
                is_manual,
                is_saved,
            };
            targets.set(j, updated);
            assert(targets_view(targets@) =~= merge_one(
                tv,
                id@,
                current@,
                ids_view(settings.provider_sync_manual_providers@),
                ids_view(settings.provider_sync_saved_providers@),
            ));
            return;
        }
        j = j + 1;
    }
    assert(tv.take(tv.len() as int) =~= tv);
    assert(target_index(tv, id@) is None);
    let is_current = crate::text::str_eq(id, current);
    let manual_only = vec![ProviderSyncTargetSource::Manual];
    assert(manual_only@ =~= seq![ProviderSyncTargetSource::Manual]);
    targets.push(
        ProviderSyncTargetOption {
            id: owned(id),
            sources: manual_only,
            is_current_provider: is_current,
            is_manual,
            is_saved,
        },
    );
    assert(targets_view(targets@) =~= merge_one(
        tv,
        id@,
        current@,
        ids_view(settings.provider_sync_manual_providers@),
        ids_view(settings.provider_sync_saved_providers@),
    ));
}

/// A target found in a prefix is the one found in the whole list.
proof fn lemma_target_index_prefix(ts: Seq<TargetV>, k: int, id: Seq<char>)
    requires
        0 <= k <= ts.len(),
        target_index(ts.take(k), id) is Some,
    ensures
        target_index(ts, id) == target_index(ts.take(k), id),
    decreases ts.len() - k,
{
    if k < ts.len() {
        assert(ts.take(k + 1).drop_last() =~= ts.take(k));
        lemma_target_index_prefix(ts, k + 1, id);
    } else {
        assert(ts.take(k) =~= ts);
    }
}

/// Adds the providers the user entered by hand to the sync targets, then
/// lists the current provider first and the others by id (ties keep their
/// order).
pub fn merge_manual_provider_sync_targets(
    targets: &mut ProviderSyncTargetList,
    manual: &[String],
    settings: &crate::settings::BackendSettings,
)
    ensures
        final(targets).current_provider == old(targets).current_provider,
        targets_sorted(targets_view(final(targets).targets@)),
        targets_view(final(targets).targets@).to_multiset() == merge_all(
            targets_view(old(targets).targets@),
            manual@.map_values(|s: String| s@),
            old(targets).current_provider@,
            ids_view(settings.provider_sync_manual_providers@),
            ids_view(settings.provider_sync_saved_providers@),
        ).to_multiset(),
{
    let ghost ids = manual@.map_values(|s: String| s@);
    let ghost start = targets_view(targets.targets@);
    let ghost man = ids_view(settings.provider_sync_manual_providers@);
    let ghost sav = ids_view(settings.provider_sync_saved_providers@);
    let mut i: usize = 0;
    while i < manual.len()
        invariant
            i <= manual@.len(),
            ids == manual@.map_values(|s: String| s@),
            man == ids_view(settings.provider_sync_manual_providers@),
            sav == ids_view(settings.provider_sync_saved_providers@),
            targets.current_provider == old(targets).current_provider,
            start == targets_view(old(targets).targets@),
            targets_view(targets.targets@) == merge_all(start, ids.take(i as int), targets.current_provider@, man, sav),
        decreases manual@.len() - i,
    {
        assert(ids.take(i + 1).drop_last() =~= ids.take(i as int));
        assert(ids.take(i + 1).last() == manual@[i as int]@);
        let current = owned(targets.current_provider.as_str());
        merge_one_exec(&mut targets.targets, manual[i].as_str(), current.as_str(), settings);
        i = i + 1;
    }
    assert(ids.take(ids.len() as int) =~= ids);
    let ghost merged = targets_view(targets.targets@);
    let mut sorted: Vec<ProviderSyncTargetOption> = Vec::new();
    assert(targets_view(sorted@) =~= merged.take(0));
    let mut k: usize = 0;
    while k < targets.targets.len()
        invariant
            k <= targets.targets@.len(),
            merged == targets_view(targets.targets@),
            targets_sorted(targets_view(sorted@)),
            targets_view(sorted@).to_multiset() == merged.take(k as int).to_multiset(),
        decreases targets.targets@.len() - k,
    {
        let x = targets.targets[k].clone_option();
        let ghost xv = target_view(x);
        assert(xv == merged[k as int]);
        let ghost sv = targets_view(sorted@);
        let mut p: usize = 0;
        while p < sorted.len() && !before_exec(&x, &sorted[p])
            invariant
                p <= sorted@.len(),
                sv == targets_view(sorted@),
                xv == target_view(x),
                forall|q: int| 0 <= q < p ==> !target_before(xv, #[trigger] sv[q]),
            decreases sorted@.len() - p,
        {
            p = p + 1;
        }
        sorted.insert(p, x);
        proof {
            let nv = targets_view(sorted@);
            assert(nv =~= sv.insert(p as int, xv));
            vstd::seq_lib::to_multiset_insert(sv, p as int, xv);
            assert(merged.take(k + 1) =~= merged.take(k as int).push(merged[k as int]));
            vstd::seq_lib::to_multiset_build(merged.take(k as int), merged[k as int]);
            assert forall|a: int, b: int| 0 <= a < b < nv.len() implies !target_before(#[trigger] nv[b], #[trigger] nv[a]) by {
                if b < p {
                    assert(nv[a] == sv[a] && nv[b] == sv[b]);
                } else if b == p {
                    assert(nv[b] == xv && nv[a] == sv[a]);
                    lemma_before_order(xv, sv[a], sv[a]);
                } else if a == p {
                    assert(nv[a] == xv && nv[b] == sv[b - 1]);
                    if target_before(sv[b - 1], xv) {
                        assert(p < sv.len());
                        assert(target_before(xv, sv[p as int]));
                        lemma_before_order(sv[b - 1], xv, sv[p as int]);
                        if b - 1 > p {
                            assert(!target_before(sv[b - 1], sv[p as int]));
                        } else {
                            lemma_before_order(xv, sv[p as int], xv);
                        }
                    }
                } else if a < p {
                    assert(nv[a] == sv[a] && nv[b] == sv[b - 1]);
                } else {
                    assert(nv[a] == sv[a - 1] && nv[b] == sv[b - 1]);
                }
            }
        }
        k = k + 1;
    }
    assert(merged.take(merged.len() as int) =~= merged);
    targets.targets = sorted;
}

/// The `metadata.json` of a backup made before a sync: the Codex home,
/// the provider the sessions move to, when the backup was made (milliseconds
/// since the epoch), how many session files change, and who made it, as one
/// JSON object with its members in key order (no session database is copied
/// into it, so its list of database files is empty).
pub fn sync_backup_metadata(codex_home: &str, target_provider: &str, created_at_ms: u64, changed_session_files: usize) -> (r:
    JsonValue)
    ensures
        r matches JsonValue::Object(ms) && {
            &&& ms@.len() == 8
            &&& ms@[0].key@ == "changedSessionFiles"@ && is_count(ms@[0].value, changed_session_files as nat)
            &&& ms@[1].key@ == "codexHome"@ && is_text(ms@[1].value, codex_home@)
            &&& ms@[2].key@ == "createdAtMs"@ && is_count(ms@[2].value, created_at_ms as nat)
            &&& ms@[3].key@ == "dbFiles"@
            &&& ms@[3].value matches JsonValue::Array(a) && a@.len() == 0
            &&& ms@[4].key@ == "managedBy"@ && is_text(ms@[4].value, BACKUP_MANAGER@)
            &&& ms@[5].key@ == "namespace"@ && is_text(ms@[5].value, "provider-sync"@)
            &&& ms@[6].key@ == "targetProvider"@ && is_text(ms@[6].value, target_provider@)
            &&& ms@[7].key@ == "version"@ && is_count(ms@[7].value, 1)
        },
{
    JsonValue::Object(
        vec![
            member("changedSessionFiles", count_value(changed_session_files as u64)),
            member("codexHome", JsonValue::Str(owned(codex_home))),
            member("createdAtMs", count_value(created_at_ms)),
            member("dbFiles", JsonValue::Array(Vec::new())),
            member("managedBy", JsonValue::Str(owned(BACKUP_MANAGER))),
            member("namespace", JsonValue::Str(owned("provider-sync"))),
            member("targetProvider", JsonValue::Str(owned(target_provider))),
            member("version", count_value(1)),
        ],
    )
}

/// The `metadata.json` of a backup made before a session index cleanup: the
/// Codex home, when it was made (milliseconds since the epoch), the digest
/// of the index it keeps, how many entries the cleanup removes, and who made
/// it, as one JSON object with its members in key order.
pub fn session_index_backup_metadata(
    codex_home: &str,
    created_at_ms: u64,
    snapshot_sha256: &str,
    pruned_entries: usize,
) -> (r: JsonValue)
    ensures
        r matches JsonValue::Object(ms) && {
            &&& ms@.len() == 7
            &&& ms@[0].key@ == "codexHome"@ && is_text(ms@[0].value, codex_home@)
            &&& ms@[1].key@ == "createdAtMs"@ && is_count(ms@[1].value, created_at_ms as nat)
            &&& ms@[2].key@ == "managedBy"@ && is_text(ms@[2].value, BACKUP_MANAGER@)
            &&& ms@[3].key@ == "namespace"@ && is_text(ms@[3].value, "provider-sync-session-index-cleanup"@)
            &&& ms@[4].key@ == "prunedSessionIndexEntries"@ && is_count(ms@[4].value, pruned_entries as nat)
            &&& ms@[5].key@ == "snapshotSha256"@ && is_text(ms@[5].value, snapshot_sha256@)
            &&& ms@[6].key@ == "version"@ && is_count(ms@[6].value, 1)
        },
{
    JsonValue::Object(
        vec![
            member("codexHome", JsonValue::Str(owned(codex_home))),
            member("createdAtMs", count_value(created_at_ms)),
            member("managedBy", JsonValue::Str(owned(BACKUP_MANAGER))),
            member("namespace", JsonValue::Str(owned("provider-sync-session-index-cleanup"))),
            member("prunedSessionIndexEntries", count_value(pruned_entries as u64)),
            member("snapshotSha256", JsonValue::Str(owned(snapshot_sha256))),
            member("version", count_value(1)),
        ],
    )
}

/// How many sync backups are kept.
pub const BACKUP_KEEP_COUNT: usize = 5;

/// A backup directory whose `metadata.json` holds `meta` (`None` when it
/// could not be read as JSON) was made by a sync.
pub open spec fn is_managed_backup(meta: Option<JsonValue>) -> bool {
    meta matches Some(v) && (crate::json::json_get(v, "managedBy"@) matches Some(JsonValue::Str(s)) && s@ == BACKUP_MANAGER@)
}

/// The names of the backup directories made by a sync, in the order given.
pub open spec fn managed_names(dirs: Seq<(String, Option<JsonValue>)>) -> Seq<Seq<char>>
    decreases dirs.len(),
{
    if dirs.len() == 0 {
        Seq::empty()
    } else {
        let prev = managed_names(dirs.drop_last());
        if is_managed_backup(dirs.last().1) {
            prev.push(dirs.last().0@)
        } else {
            prev
        }
    }
}

/// Newest (greatest) name first.
pub open spec fn sorted_desc(s: Seq<Seq<char>>) -> bool {
    forall|i: int, j: int| 0 <= i < j < s.len() ==> !seq_lt(#[trigger] s[i], #[trigger] s[j])
}

/// `s` without its first `n` items (nothing when it has no more).
pub open spec fn after_first(s: Seq<Seq<char>>, n: int) -> Seq<Seq<char>> {
    if n >= s.len() {
        Seq::empty()
    } else {
        s.skip(n)
    }
}

/// Inserts `x` into a list sorted newest first.
fn insert_desc(v: &mut Vec<String>, x: String)
    requires
        sorted_desc(ids_view(old(v)@)),
    ensures
        sorted_desc(ids_view(final(v)@)),
        ids_view(final(v)@).to_multiset() == ids_view(old(v)@).to_multiset().insert(x@),
{
    let ghost s = ids_view(v@);
    let mut j: usize = 0;
    while j < v.len() && !crate::order::str_lt(v[j].as_str(), x.as_str())
        invariant
            j <= v@.len(),
            s == ids_view(v@),
            forall|k: int| 0 <= k < j ==> !seq_lt(#[trigger] s[k], x@),
        decreases v@.len() - j,
    {
        j = j + 1;
    }
    let ghost xv = x@;
    v.insert(j, x);
    proof {
        let t = ids_view(v@);
        assert(t =~= s.insert(j as int, xv));
        vstd::seq_lib::to_multiset_insert(s, j as int, xv);
        assert forall|a: int, b: int| 0 <= a < b < t.len() implies !seq_lt(#[trigger] t[a], #[trigger] t[b]) by {
            if b < j {
                assert(t[a] == s[a] && t[b] == s[b]);
            } else if a > j {
                assert(t[a] == s[a - 1] && t[b] == s[b - 1]);
            } else if b == j {
                assert(t[a] == s[a]);
            } else if a == j {
                let y = s[b - 1];
                assert(t[b] == y);
                assert(seq_lt(s[j as int], xv));
                crate::order::lemma_lt_trichotomy(s[j as int], y);
                if y != s[j as int] {
                    if j as int == b - 1 {
                    } else {
                        assert(!seq_lt(s[j as int], y));
                        crate::order::lemma_lt_transitive(y, s[j as int], xv);
                    }
                }
                crate::order::lemma_lt_trichotomy(xv, y);
            } else {
                assert(t[a] == s[a] && t[b] == s[b - 1]);
            }
        }
    }
}

/// The sync backups to delete, keeping the newest `keep`: the directories
/// of `dirs` (each with what its `metadata.json` holds, when it is JSON)
/// that a sync made, newest (greatest name) first, after the first `keep`.
pub fn backups_to_prune(dirs: &Vec<(String, Option<JsonValue>)>, keep: usize) -> (r: Vec<String>)
    ensures
        exists|s: Seq<Seq<char>>|
            #![trigger sorted_desc(s)]
            sorted_desc(s) && s.to_multiset() == managed_names(dirs@).to_multiset() && ids_view(r@) == after_first(
                s,
                keep as int,
            ),
{
    let mut sorted: Vec<String> = Vec::new();
    let mut i: usize = 0;
    assert(ids_view(sorted@) =~= Seq::<Seq<char>>::empty());
    while i < dirs.len()
        invariant
            i <= dirs@.len(),
            sorted_desc(ids_view(sorted@)),
            ids_view(sorted@).to_multiset() == managed_names(dirs@.take(i as int)).to_multiset(),
        decreases dirs@.len() - i,
    {
        assert(dirs@.take(i + 1).drop_last() =~= dirs@.take(i as int));
        assert(dirs@.take(i + 1).last() == dirs@[i as int]);
        let managed = match &dirs[i].1 {
            Some(v) => match crate::json::json_get_exec(v, "managedBy") {
                Some(JsonValue::Str(m)) => crate::text::str_eq(m.as_str(), BACKUP_MANAGER),
                _ => false,
            },
            None => false,
        };
        if managed {
            let ghost before = managed_names(dirs@.take(i as int));
            insert_desc(&mut sorted, dirs[i].0.clone());
            proof {
                vstd::seq_lib::to_multiset_build(before, dirs@[i as int].0@);
            }
        }
        i = i + 1;
    }
    assert(dirs@.take(dirs@.len() as int) =~= dirs@);
    let ghost s = ids_view(sorted@);
    let mut out: Vec<String> = Vec::new();
    let mut k: usize = keep;
    while k < sorted.len()
        invariant
            keep <= k,
            s == ids_view(sorted@),
            k <= s.len() ==> ids_view(out@) == s.subrange(keep as int, k as int),
            k > s.len() ==> out@.len() == 0 && keep > s.len(),
        decreases sorted@.len() - k,
    {
        let ghost before = ids_view(out@);
        out.push(sorted[k].clone());
        assert(ids_view(out@) =~= s.subrange(keep as int, k + 1));
        k = k + 1;
    }
    proof {
        if keep as int >= s.len() {
            assert(ids_view(out@) =~= after_first(s, keep as int));
        } else {
            assert(ids_view(out@) =~= s.skip(keep as int));
        }
    }
    out
}

} // verus!
