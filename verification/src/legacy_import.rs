//! Importing the state of the app's former version: what a preview finds
//! (settings to convert, secrets, external paths, files left out) and the
//! ledger of a prepared import.
use sha2::Digest;
use vstd::prelude::*;

use crate::diagnostic_log::{key_letters, key_letters_exec};
use crate::json::{json_parse, members_get, members_get_exec, JsonMember, JsonValue};
use crate::paths::join_path;
use crate::relay_rotation::lemma_filter_take_step;
use crate::text::{decimal, decimal_string};
use crate::text::{
    char_ascii_lower, char_is_ascii_alnum, concat2, concat3, contains, ends_with, ends_with_chars, is_ascii_alnum,
    lower, lower_chars, owned, slice_chars, starts_with, starts_with_chars, str_chars, str_contains,
    str_ends_with, str_eq, string_from, trim, ascii_lower,
};

verus! {

/// What the preview found about the former settings file.
#[derive(Debug, Clone, Copy)]
pub struct LegacyImportSchema {
    pub settings_json_found: bool,
    pub settings_json_valid: bool,
    pub settings_key_count: usize,
}

/// The counts of a preview.
#[derive(Debug, Clone, Copy)]
pub struct LegacyImportSummary {
    pub automatic_items: usize,
    pub confirmation_items: usize,
    pub secret_items: usize,
    pub executable_or_external_items: usize,
    pub excluded_items: usize,
    pub conflicts: usize,
    pub codex_native_session_sources: usize,
}

/// Something the import can bring over.
#[derive(Debug, Clone)]
pub struct LegacyImportItem {
    pub id: String,
    pub group: String,
    pub source_path: String,
    pub source_key: String,
    pub target: String,
    pub action: String,
    pub requires_confirmation: bool,
    pub risk: String,
}

/// A problem the preview found.
#[derive(Debug, Clone)]
pub struct LegacyImportConflict {
    pub id: String,
    pub severity: String,
    pub source_path: String,
    pub message: String,
}

/// Something the import leaves out, and why.
#[derive(Debug, Clone)]
pub struct LegacyImportExcluded {
    pub id: String,
    pub category: String,
    pub source_path: String,
    pub reason: String,
    pub size_bytes: Option<u64>,
}

/// What an import of the former state would do.
#[derive(Debug, Clone)]
pub struct LegacyImportPreview {
    pub source_root: String,
    pub found: bool,
    pub schema: LegacyImportSchema,
    pub summary: LegacyImportSummary,
    pub items: Vec<LegacyImportItem>,
    pub conflicts: Vec<LegacyImportConflict>,
    pub excluded: Vec<LegacyImportExcluded>,
}

/// One line of an import ledger.
#[derive(Debug, Clone)]
pub struct LegacyImportLedgerEntry {
    pub item_id: String,
    pub group: String,
    pub source_path: String,
    pub source_key: String,
    pub target: String,
    pub selected: bool,
    pub status: String,
    pub requires_confirmation: bool,
    pub risk: String,
}

/// The ledger of a prepared import.
#[derive(Debug, Clone)]
pub struct LegacyImportLedger {
    pub source_root: String,
    pub created_at_ms: u64,
    pub entries: Vec<LegacyImportLedgerEntry>,
}

/// A prepared import and the files it wrote.
#[derive(Debug, Clone)]
pub struct LegacyImportTransaction {
    pub transaction_root: String,
    pub preview_path: String,
    pub ledger_path: String,
    pub rollback_manifest_path: String,
    pub ledger: LegacyImportLedger,
}

/// The report of an applied import.
#[derive(Debug, Clone)]
pub struct LegacyImportApplyResult {
    pub settings_path: String,
    pub ledger_path: String,
    pub imported: usize,
    pub skipped: usize,
    pub pending_confirmation: usize,
    pub failed: usize,
}

/// The report of a rolled-back import.
#[derive(Debug, Clone)]
pub struct LegacyImportRollbackResult {
    pub settings_path: String,
    pub ledger_path: String,
    pub rollback_manifest_path: String,
    pub backup_path: String,
    pub restored: bool,
    pub entries_marked_rolled_back: usize,
    pub backup_sha256_verified: bool,
}

/// An item as plain values.
pub struct ItemView {
    pub id: Seq<char>,
    pub group: Seq<char>,
    pub source_path: Seq<char>,
    pub source_key: Seq<char>,
    pub target: Seq<char>,
    pub action: Seq<char>,
    pub requires_confirmation: bool,
    pub risk: Seq<char>,
}

impl View for LegacyImportItem {
    type V = ItemView;

    open spec fn view(&self) -> ItemView {
        ItemView {
            id: self.id@,
            group: self.group@,
            source_path: self.source_path@,
            source_key: self.source_key@,
            target: self.target@,
            action: self.action@,
            requires_confirmation: self.requires_confirmation,
            risk: self.risk@,
        }
    }
}

/// The items of a list, as plain values.
pub open spec fn items_view(v: Seq<LegacyImportItem>) -> Seq<ItemView> {
    v.map_values(|i: LegacyImportItem| i@)
}

/// The raw form of an id: ASCII letters and digits in lowercase, each run of
/// other characters as one `-`.
pub open spec fn id_raw(s: Seq<char>) -> Seq<char>
    decreases s.len(),
{
    if s.len() == 0 {
        Seq::empty()
    } else {
        let p = id_raw(s.drop_last());
        if is_ascii_alnum(s.last()) {
            p.push(ascii_lower(s.last()))
        } else if p.len() > 0 && p.last() == '-' {
            p
        } else {
            p.push('-')
        }
    }
}

/// The raw form without a `-` at either end (the raw form never holds two in
/// a row), or `item` when nothing is left.
pub open spec fn sanitized_id(s: Seq<char>) -> Seq<char> {
    let p = id_raw(s);
    let a: int = if p.len() > 0 && p[0] == '-' { 1 } else { 0 };
    let b: int = if p.len() > a && p.last() == '-' { p.len() - 1 } else { p.len() as int };
    if b - a <= 0 {
        "item"@
    } else {
        p.subrange(a, b)
    }
}

/// An id part made from arbitrary text.
pub fn sanitize_id(value: &str) -> (r: String)
    ensures
        r@ == sanitized_id(value@),
{
    let v = str_chars(value);
    let mut out: Vec<char> = Vec::new();
    let mut i: usize = 0;
    while i < v.len()
        invariant
            i <= v@.len(),
            v@ == value@,
            out@ == id_raw(v@.take(i as int)),
        decreases v@.len() - i,
    {
        assert(v@.take(i as int + 1).drop_last() =~= v@.take(i as int));
        let c = v[i];
        if char_is_ascii_alnum(c) {
            out.push(char_ascii_lower(c));
        } else if !(out.len() > 0 && out[out.len() - 1] == '-') {
            out.push('-');
        }
        i = i + 1;
    }
    assert(v@.take(v@.len() as int) =~= v@);
    let a: usize = if out.len() > 0 && out[0] == '-' { 1 } else { 0 };
    let b: usize = if out.len() > a && out[out.len() - 1] == '-' { out.len() - 1 } else { out.len() };
    if b <= a {
        owned("item")
    } else {
        string_from(slice_chars(out.as_slice(), a, b).as_slice())
    }
}

/// Key names whose values are secret in the former settings.
pub open spec fn secret_setting_names() -> Seq<Seq<char>> {
    seq![
        "apikey"@,
        "relayapikey"@,
        "codexappstepwiseapikey"@,
        "authcontents"@,
        "authorization"@,
        "bearertoken"@,
        "accesstoken"@,
        "refreshtoken"@,
        "idtoken"@,
        "tokens"@,
        "secret"@,
        "password"@,
        "credential"@,
        "credentials"@,
    ]
}

/// Endings of key names whose values are secret in the former settings.
pub open spec fn secret_setting_endings() -> Seq<Seq<char>> {
    seq!["apikey"@, "secret"@, "password"@, "token"@, "tokens"@]
}

/// A settings key whose value is secret.
pub open spec fn setting_key_secret(key: Seq<char>) -> bool {
    secret_setting_names().contains(key_letters(key)) || exists|j: int|
        0 <= j < secret_setting_endings().len() && ends_with(key_letters(key), #[trigger] secret_setting_endings()[j])
}

/// Whether a settings key holds a secret.
pub fn setting_key_is_secret(key: &str) -> (r: bool)
    ensures
        r == setting_key_secret(key@),
{
    let k = key_letters_exec(key);
    let ks = string_from(k.as_slice());
    let names: [&str; 14] = [
        "apikey",
        "relayapikey",
        "codexappstepwiseapikey",
        "authcontents",
        "authorization",
        "bearertoken",
        "accesstoken",
        "refreshtoken",
        "idtoken",
        "tokens",
        "secret",
        "password",
        "credential",
        "credentials",
    ];
    let endings: [&str; 5] = ["apikey", "secret", "password", "token", "tokens"];
    assert(names@.map_values(|x: &str| x@) =~= secret_setting_names());
    assert(endings@.map_values(|x: &str| x@) =~= secret_setting_endings());
    let mut i: usize = 0;
    while i < 14
        invariant
            i <= 14,
            names@.map_values(|x: &str| x@) == secret_setting_names(),
            ks@ == key_letters(key@),
            forall|j: int| 0 <= j < i ==> secret_setting_names()[j] != ks@,
        decreases 14 - i,
    {
        if str_eq(ks.as_str(), names[i]) {
            assert(secret_setting_names()[i as int] == ks@);
            return true;
        }
        i = i + 1;
    }
    let mut i: usize = 0;
    while i < 5
        invariant
            i <= 5,
            endings@.map_values(|x: &str| x@) == secret_setting_endings(),
            k@ == key_letters(key@),
            !secret_setting_names().contains(k@),
            forall|j: int| 0 <= j < i ==> !ends_with(k@, #[trigger] secret_setting_endings()[j]),
        decreases 5 - i,
    {
        let e = str_chars(endings[i]);
        if ends_with_chars(k.as_slice(), e.as_slice()) {
            assert(ends_with(k@, secret_setting_endings()[i as int]));
            return true;
        }
        i = i + 1;
    }
    false
}

/// Where the secrets under a key go.
pub open spec fn secret_target_spec(key: Seq<char>) -> Seq<char> {
    if contains(key, "relayProfiles"@) || contains(key, "relayApiKey"@) {
        "secretStore.relayProviders"@
    } else if contains(key, "visionRelay"@) {
        "secretStore.visionRelay"@
    } else if contains(key, "Stepwise"@) || contains(key, "stepwise"@) {
        "secretStore.stepwise"@
    } else {
        "secretStore"@
    }
}

/// Where the secrets under a key go.
pub fn secret_target_for_key(key: &str) -> (r: &'static str)
    ensures
        r@ == secret_target_spec(key@),
{
    if str_contains(key, "relayProfiles") || str_contains(key, "relayApiKey") {
        "secretStore.relayProviders"
    } else if str_contains(key, "visionRelay") {
        "secretStore.visionRelay"
    } else if str_contains(key, "Stepwise") || str_contains(key, "stepwise") {
        "secretStore.stepwise"
    } else {
        "secretStore"
    }
}

/// Where a setting goes in the new settings.
pub open spec fn deck_target_spec(key: Seq<char>) -> Seq<char> {
    if key == "relayProfiles"@ {
        "settings.relayProfiles"@
    } else if key == "aggregateRelayProfiles"@ {
        "settings.aggregateRelayProfiles"@
    } else if key == "relayCommonConfigContents"@ {
        "settings.relayCommonConfigContents"@
    } else if key == "relayContextConfigContents"@ {
        "settings.relayContextConfigContents"@
    } else if key == "codexAppPath"@ {
        "settings.codexAppPath"@
    } else if key == "codexAppImageOverlayPath"@ {
        "settings.codexAppImageOverlayPath"@
    } else {
        "settings"@
    }
}

/// Where a setting goes in the new settings.
pub fn deck_setting_target(key: &str) -> (r: &'static str)
    ensures
        r@ == deck_target_spec(key@),
{
    if str_eq(key, "relayProfiles") {
        "settings.relayProfiles"
    } else if str_eq(key, "aggregateRelayProfiles") {
        "settings.aggregateRelayProfiles"
    } else if str_eq(key, "relayCommonConfigContents") {
        "settings.relayCommonConfigContents"
    } else if str_eq(key, "relayContextConfigContents") {
        "settings.relayContextConfigContents"
    } else if str_eq(key, "codexAppPath") {
        "settings.codexAppPath"
    } else if str_eq(key, "codexAppImageOverlayPath") {
        "settings.codexAppImageOverlayPath"
    } else {
        "settings"
    }
}

/// A text value under this key path may hold a secret.
pub fn string_path_may_hold_secret(key_path: &str) -> (r: bool)
    ensures
        r == (ends_with(key_path@, "configContents"@) || ends_with(key_path@, "authContents"@)),
{
    str_ends_with(key_path, "configContents") || str_ends_with(key_path, "authContents")
}

/// Text that carries a secret token or key, in any ASCII case.
pub open spec fn secret_text(text: Seq<char>) -> bool {
    let l = lower(text);
    contains(l, "sk-"@) || contains(l, "bearer "@) || contains(l, "openai_api_key"@) || contains(
        l,
        "experimental_bearer_token"@,
    ) || contains(l, "access_token"@) || contains(l, "refresh_token"@) || contains(l, "id_token"@)
}

/// Whether text carries a secret.
pub fn contains_secret_text(text: &str) -> (r: bool)
    ensures
        r == secret_text(text@),
{
    let l = string_from(lower_chars(str_chars(text).as_slice()).as_slice());
    str_contains(l.as_str(), "sk-") || str_contains(l.as_str(), "bearer ") || str_contains(
        l.as_str(),
        "openai_api_key",
    ) || str_contains(l.as_str(), "experimental_bearer_token") || str_contains(l.as_str(), "access_token")
        || str_contains(l.as_str(), "refresh_token") || str_contains(l.as_str(), "id_token")
}

/// Configuration that can run commands or load external packages.
pub open spec fn external_config_text(text: Seq<char>) -> bool {
    let l = lower(text);
    contains(l, "[mcp_servers"@) || contains(l, "[plugins"@) || contains(l, "command ="@) || contains(
        l,
        "args ="@,
    ) || contains(l, "script"@) || contains(l, "path ="@)
}

/// Whether configuration text can run commands or load external packages.
pub fn contains_executable_or_external_config(text: &str) -> (r: bool)
    ensures
        r == external_config_text(text@),
{
    let l = string_from(lower_chars(str_chars(text).as_slice()).as_slice());
    str_contains(l.as_str(), "[mcp_servers") || str_contains(l.as_str(), "[plugins") || str_contains(
        l.as_str(),
        "command =",
    ) || str_contains(l.as_str(), "args =") || str_contains(l.as_str(), "script") || str_contains(
        l.as_str(),
        "path =",
    )
}

/// A file or directory that holds Codex's own sessions.
pub open spec fn native_session_source(name: Seq<char>) -> bool {
    let l = lower(name);
    l == "sessions"@ || l == "state.sqlite"@ || (starts_with(l, "state_"@) && ends_with(l, ".sqlite"@))
        || l == "session_index.jsonl"@
}

/// Whether an entry holds Codex's own sessions.
pub fn is_codex_native_session_source(name: &str) -> (r: bool)
    ensures
        r == native_session_source(name@),
{
    let l = string_from(lower_chars(str_chars(name).as_slice()).as_slice());
    str_eq(l.as_str(), "sessions") || str_eq(l.as_str(), "state.sqlite") || (crate::text::str_starts_with(
        l.as_str(),
        "state_",
    ) && str_ends_with(l.as_str(), ".sqlite")) || str_eq(l.as_str(), "session_index.jsonl")
}

/// Runtime files, caches, locks and temporary files, which are never imported.
pub open spec fn default_excluded(name: Seq<char>, is_dir: bool) -> bool {
    let l = lower(name);
    ||| l == "codex-plus.log"@ || l == "latest-status.json"@ || l == "pending-provider-import.json"@
    ||| l == "watcher.disabled"@ || l == "launcher.pid"@ || l == "helper.pid"@ || l == "helper.port"@
    ||| l == "debug.port"@
    ||| l == ".tmp"@ || l == "tmp"@ || l == "temp"@ || l == "cache"@ || l == "logs"@ || l == "backups"@
    ||| l == "downloads"@ || l == "updates"@
    ||| ends_with(l, ".log"@) || ends_with(l, ".lock"@) || ends_with(l, ".pid"@) || ends_with(l, ".port"@)
    ||| ends_with(l, ".tmp"@)
    ||| (is_dir && contains(l, "cache"@))
}

/// Whether an entry is a runtime file, cache, lock or temporary file.
pub fn is_default_excluded_entry(name: &str, is_dir: bool) -> (r: bool)
    ensures
        r == default_excluded(name@, is_dir),
{
    let l = string_from(lower_chars(str_chars(name).as_slice()).as_slice());
    let s = l.as_str();
    str_eq(s, "codex-plus.log") || str_eq(s, "latest-status.json") || str_eq(s, "pending-provider-import.json")
        || str_eq(s, "watcher.disabled") || str_eq(s, "launcher.pid") || str_eq(s, "helper.pid") || str_eq(
        s,
        "helper.port",
    ) || str_eq(s, "debug.port") || str_eq(s, ".tmp") || str_eq(s, "tmp") || str_eq(s, "temp") || str_eq(
        s,
        "cache",
    ) || str_eq(s, "logs") || str_eq(s, "backups") || str_eq(s, "downloads") || str_eq(s, "updates")
        || str_ends_with(s, ".log") || str_ends_with(s, ".lock") || str_ends_with(s, ".pid") || str_ends_with(
        s,
        ".port",
    ) || str_ends_with(s, ".tmp") || (is_dir && str_contains(s, "cache"))
}


} // verus!

verus! {

/// The item a scan adds: its id is the group and the sanitised key (or
/// file name when there is no key).
pub open spec fn make_item(
    group: Seq<char>,
    source_path: Seq<char>,
    file_name: Seq<char>,
    key: Seq<char>,
    target: Seq<char>,
    action: Seq<char>,
    requires_confirmation: bool,
    risk: Seq<char>,
) -> ItemView {
    ItemView {
        id: group + seq!['-'] + sanitized_id(if key.len() == 0 { file_name } else { key }),
        group,
        source_path,
        source_key: key,
        target,
        action,
        requires_confirmation,
        risk,
    }
}

/// Adds an item unless one with the same id and source path is there.
pub open spec fn add_item_spec(items: Seq<ItemView>, it: ItemView) -> Seq<ItemView> {
    if exists|i: int| 0 <= i < items.len() && #[trigger] items[i].id == it.id && items[i].source_path == it.source_path {
        items
    } else {
        items.push(it)
    }
}

/// Adds an item unless one with the same id and source path is there.
pub fn add_item(
    items: &mut Vec<LegacyImportItem>,
    group: &str,
    source_path: &str,
    file_name: &str,
    key: &str,
    target: &str,
    action: &str,
    requires_confirmation: bool,
    risk: &str,
)
    ensures
        items_view(final(items)@) == add_item_spec(
            items_view(old(items)@),
            make_item(group@, source_path@, file_name@, key@, target@, action@, requires_confirmation, risk@),
        ),
{
    let key_empty = str_chars(key).len() == 0;
    let base = if key_empty { sanitize_id(file_name) } else { sanitize_id(key) };
    let mut idv = str_chars(group);
    idv.push('-');
    let ghost with_dash = idv@;
    assert(with_dash =~= group@ + seq!['-']);
    crate::text::append_str(&mut idv, base.as_str());
    let id = string_from(idv.as_slice());
    let ghost it = make_item(group@, source_path@, file_name@, key@, target@, action@, requires_confirmation, risk@);
    assert(id@ == it.id);
    let ghost iv = items_view(items@);
    let mut i: usize = 0;
    while i < items.len()
        invariant
            i <= items@.len(),
            iv == items_view(items@),
            items@ == old(items)@,
            it == make_item(group@, source_path@, file_name@, key@, target@, action@, requires_confirmation, risk@),
            id@ == it.id,
            source_path@ == it.source_path,
            forall|j: int| 0 <= j < i ==> !(#[trigger] iv[j].id == it.id && iv[j].source_path == it.source_path),
        decreases items@.len() - i,
    {
        if str_eq(items[i].id.as_str(), id.as_str()) && str_eq(items[i].source_path.as_str(), source_path) {
            assert(iv[i as int].id == it.id && iv[i as int].source_path == it.source_path);
            return;
        }
        i = i + 1;
    }
    items.push(
        LegacyImportItem {
            id,
            group: owned(group),
            source_path: owned(source_path),
            source_key: owned(key),
            target: owned(target),
            action: owned(action),
            requires_confirmation,
            risk: owned(risk),
        },
    );
    assert(items_view(items@) =~= iv.push(it));
}

/// An excluded entry as plain values.
pub struct ExcludedView {
    pub id: Seq<char>,
    pub category: Seq<char>,
    pub source_path: Seq<char>,
    pub reason: Seq<char>,
    pub size_bytes: Option<u64>,
}

impl View for LegacyImportExcluded {
    type V = ExcludedView;

    open spec fn view(&self) -> ExcludedView {
        ExcludedView {
            id: self.id@,
            category: self.category@,
            source_path: self.source_path@,
            reason: self.reason@,
            size_bytes: self.size_bytes,
        }
    }
}

/// The excluded entries of a list, as plain values.
pub open spec fn excluded_view(v: Seq<LegacyImportExcluded>) -> Seq<ExcludedView> {
    v.map_values(|e: LegacyImportExcluded| e@)
}

/// The exclusion record of an entry named `name`.
pub open spec fn make_excluded(
    category: Seq<char>,
    source_path: Seq<char>,
    name: Seq<char>,
    reason: Seq<char>,
    size_bytes: Option<u64>,
) -> ExcludedView {
    ExcludedView { id: category + seq!['-'] + sanitized_id(name), category, source_path, reason, size_bytes }
}

/// Records an entry the import leaves out.
pub fn add_excluded(
    excluded: &mut Vec<LegacyImportExcluded>,
    category: &str,
    source_path: &str,
    name: &str,
    reason: &str,
    size_bytes: Option<u64>,
)
    ensures
        excluded_view(final(excluded)@) == excluded_view(old(excluded)@).push(
            make_excluded(category@, source_path@, name@, reason@, size_bytes),
        ),
{
    let base = sanitize_id(name);
    let mut idv = str_chars(category);
    idv.push('-');
    let ghost with_dash = idv@;
    assert(with_dash =~= category@ + seq!['-']);
    crate::text::append_str(&mut idv, base.as_str());
    assert(idv@ == category@ + seq!['-'] + sanitized_id(name@));
    let ghost before = excluded_view(excluded@);
    excluded.push(
        LegacyImportExcluded {
            id: string_from(idv.as_slice()),
            category: owned(category),
            source_path: owned(source_path),
            reason: owned(reason),
            size_bytes,
        },
    );
    assert(excluded_view(excluded@) =~= before.push(make_excluded(category@, source_path@, name@, reason@, size_bytes)));
}

/// The test that keeps automatic items.
pub open spec fn automatic_pred() -> spec_fn(ItemView) -> bool {
    |i: ItemView| !i.requires_confirmation
}

/// The test that keeps items that need confirmation.
pub open spec fn confirmation_pred() -> spec_fn(ItemView) -> bool {
    |i: ItemView| i.requires_confirmation
}

/// The test that keeps the items of group `g`.
pub open spec fn group_pred(g: Seq<char>) -> spec_fn(ItemView) -> bool {
    |i: ItemView| i.group == g
}

/// The test that keeps the exclusions of category `c`.
pub open spec fn category_pred(c: Seq<char>) -> spec_fn(ExcludedView) -> bool {
    |e: ExcludedView| e.category == c
}

/// The counts of a preview's items, conflicts and exclusions.
pub open spec fn summary_of(p: LegacyImportPreview, s: LegacyImportSummary) -> bool {
    let items = items_view(p.items@);
    let ex = excluded_view(p.excluded@);
    &&& s.automatic_items == items.filter(automatic_pred()).len()
    &&& s.confirmation_items == items.filter(confirmation_pred()).len()
    &&& s.secret_items == items.filter(group_pred("secret"@)).len()
    &&& s.executable_or_external_items == items.filter(group_pred("executableOrExternal"@)).len()
    &&& s.excluded_items == ex.len()
    &&& s.conflicts == p.conflicts@.len()
    &&& s.codex_native_session_sources == ex.filter(category_pred("codexNativeSession"@)).len()
}

/// Counts the items that pass a test: automatic (0), needing confirmation
/// (1), in group `group` (2).
fn count_items(items: &Vec<LegacyImportItem>, which: u8, group: &str) -> (r: usize)
    requires
        which <= 2,
    ensures
        r == items_view(items@).filter(
            if which == 0 {
                automatic_pred()
            } else if which == 1 {
                confirmation_pred()
            } else {
                group_pred(group@)
            },
        ).len(),
{
    let ghost pred = if which == 0 {
        automatic_pred()
    } else if which == 1 {
        confirmation_pred()
    } else {
        group_pred(group@)
    };
    let ghost iv = items_view(items@);
    let mut n: usize = 0;
    let mut i: usize = 0;
    while i < items.len()
        invariant
            i <= iv.len(),
            iv == items_view(items@),
            which <= 2,
            pred == (if which == 0 {
                automatic_pred()
            } else if which == 1 {
                confirmation_pred()
            } else {
                group_pred(group@)
            }),
            n == iv.take(i as int).filter(pred).len(),
            n <= i,
        decreases iv.len() - i,
    {
        proof {
            lemma_filter_take_step(iv, pred, i as int);
        }
        let it = &items[i];
        let pass = if which == 0 {
            !it.requires_confirmation
        } else if which == 1 {
            it.requires_confirmation
        } else {
            str_eq(it.group.as_str(), group)
        };
        assert(pass == pred(iv[i as int]));
        if pass {
            n = n + 1;
        }
        i = i + 1;
    }
    assert(iv.take(iv.len() as int) =~= iv);
    n
}

/// Counts the exclusions of category `category`.
fn count_excluded(excluded: &Vec<LegacyImportExcluded>, category: &str) -> (r: usize)
    ensures
        r == excluded_view(excluded@).filter(category_pred(category@)).len(),
{
    let ghost ev = excluded_view(excluded@);
    let ghost pred = category_pred(category@);
    let mut n: usize = 0;
    let mut i: usize = 0;
    while i < excluded.len()
        invariant
            i <= ev.len(),
            ev == excluded_view(excluded@),
            pred == category_pred(category@),
            n == ev.take(i as int).filter(pred).len(),
            n <= i,
        decreases ev.len() - i,
    {
        proof {
            lemma_filter_take_step(ev, pred, i as int);
        }
        if str_eq(excluded[i].category.as_str(), category) {
            n = n + 1;
        }
        i = i + 1;
    }
    assert(ev.take(ev.len() as int) =~= ev);
    n
}

/// Recounts a preview.
pub fn refresh_summary(preview: &mut LegacyImportPreview)
    ensures
        summary_of(*final(preview), final(preview).summary),
        final(preview).items@ == old(preview).items@,
        final(preview).excluded@ == old(preview).excluded@,
        final(preview).conflicts@ == old(preview).conflicts@,
        final(preview).source_root == old(preview).source_root,
        final(preview).found == old(preview).found,
        final(preview).schema == old(preview).schema,
{
    let summary = LegacyImportSummary {
        automatic_items: count_items(&preview.items, 0, ""),
        confirmation_items: count_items(&preview.items, 1, ""),
        secret_items: count_items(&preview.items, 2, "secret"),
        executable_or_external_items: count_items(&preview.items, 2, "executableOrExternal"),
        excluded_items: preview.excluded.len(),
        conflicts: preview.conflicts.len(),
        codex_native_session_sources: count_excluded(&preview.excluded, "codexNativeSession"),
    };
    preview.summary = summary;
}

} // verus!

verus! {

/// The secret item for a key path.
pub open spec fn secret_item(path: Seq<char>, file_name: Seq<char>, key_path: Seq<char>) -> ItemView {
    make_item("secret"@, path, file_name, key_path, secret_target_spec(key_path), "requiresSecretConfirmation"@, true, "secret"@)
}

/// The key path of member `key` under `key_path`.
pub open spec fn member_path(key_path: Seq<char>, key: Seq<char>) -> Seq<char> {
    if key_path.len() == 0 {
        key
    } else {
        key_path + seq!['.'] + key
    }
}

/// The key path of element `index` under `key_path`.
pub open spec fn element_path(key_path: Seq<char>, index: nat) -> Seq<char> {
    key_path + seq!['['] + decimal(index) + seq![']']
}

/// The items after scanning a value for secrets: secret keys are recorded
/// (without looking inside), strings that hold secrets or sit under a
/// `configContents` or `authContents` key are recorded, objects and arrays are searched.
pub open spec fn secret_scan(items: Seq<ItemView>, path: Seq<char>, fname: Seq<char>, kp: Seq<char>, v: JsonValue) -> Seq<ItemView>
    decreases v, 0nat,
{
    match v {
        JsonValue::Object(ms) => {
            proof {
                assert(decreases_to!(v => ms));
                assert(decreases_to!(ms => ms@));
            }
            secret_scan_members(items, path, fname, kp, ms@, 0)
        },
        JsonValue::Array(vs) => {
            proof {
                assert(decreases_to!(v => vs));
                assert(decreases_to!(vs => vs@));
            }
            secret_scan_array(items, path, fname, kp, vs@, 0)
        },
        JsonValue::Str(t) => if ends_with(kp, "configContents"@) || ends_with(kp, "authContents"@) || secret_text(t@) {
            add_item_spec(items, secret_item(path, fname, kp))
        } else {
            items
        },
        _ => items,
    }
}

/// The items after scanning members `i..` of an object for secrets.
pub open spec fn secret_scan_members(
    items: Seq<ItemView>,
    path: Seq<char>,
    fname: Seq<char>,
    kp: Seq<char>,
    ms: Seq<JsonMember>,
    i: int,
) -> Seq<ItemView>
    decreases ms, ms.len() - i,
{
    if i < 0 || i >= ms.len() {
        items
    } else {
        let next = member_path(kp, ms[i].key@);
        let items2 = if setting_key_secret(ms[i].key@) {
            add_item_spec(items, secret_item(path, fname, next))
        } else {
            proof {
                assert(decreases_to!(ms => ms[i]));
                assert(decreases_to!(ms[i] => ms[i].value));
            }
            secret_scan(items, path, fname, next, ms[i].value)
        };
        secret_scan_members(items2, path, fname, kp, ms, i + 1)
    }
}

/// The items after scanning elements `i..` of an array for secrets.
pub open spec fn secret_scan_array(
    items: Seq<ItemView>,
    path: Seq<char>,
    fname: Seq<char>,
    kp: Seq<char>,
    vs: Seq<JsonValue>,
    i: int,
) -> Seq<ItemView>
    decreases vs, vs.len() - i,
{
    if i < 0 || i >= vs.len() {
        items
    } else {
        proof {
            assert(decreases_to!(vs => vs[i]));
        }
        let items2 = secret_scan(items, path, fname, element_path(kp, i as nat), vs[i]);
        secret_scan_array(items2, path, fname, kp, vs, i + 1)
    }
}

} // verus!

verus! {

/// The key path of member `key` under `key_path`.
fn member_path_exec(key_path: &str, key: &str) -> (r: String)
    ensures
        r@ == member_path(key_path@, key@),
{
    if str_chars(key_path).len() == 0 {
        owned(key)
    } else {
        let r = concat3(key_path, ".", key);
        proof {
            reveal_strlit(".");
        }
        r
    }
}

/// The key path of element `index` under `key_path`.
fn element_path_exec(key_path: &str, index: usize) -> (r: String)
    ensures
        r@ == element_path(key_path@, index as nat),
{
    let d = decimal_string(index as u64);
    let mut v = str_chars(key_path);
    v.push('[');
    crate::text::append_str(&mut v, d.as_str());
    v.push(']');
    string_from(v.as_slice())
}

/// Records the secrets held in the members `ms` of an object that sits under
/// key path `kp` of the settings file `path` (named `fname`): a secret key is
/// recorded without looking inside, other members are searched.
pub fn scan_secret_members(
    items: &mut Vec<LegacyImportItem>,
    path: &str,
    fname: &str,
    kp: &str,
    ms: &Vec<JsonMember>,
)
    ensures
        items_view(final(items)@) == secret_scan_members(items_view(old(items)@), path@, fname@, kp@, ms@, 0),
    decreases ms,
{
    let mut i: usize = 0;
    while i < ms.len()
        invariant
            i <= ms@.len(),
            secret_scan_members(items_view(items@), path@, fname@, kp@, ms@, i as int) == secret_scan_members(
                items_view(old(items)@),
                path@,
                fname@,
                kp@,
                ms@,
                0,
            ),
        decreases ms@.len() - i,
    {
        let next = member_path_exec(kp, ms[i].key.as_str());
        if setting_key_is_secret(ms[i].key.as_str()) {
            add_item(
                items,
                "secret",
                path,
                fname,
                next.as_str(),
                secret_target_for_key(next.as_str()),
                "requiresSecretConfirmation",
                true,
                "secret",
            );
        } else {
            proof {
                assert(decreases_to!(*ms => ms@));
                assert(decreases_to!(ms@ => ms@[i as int]));
                assert(decreases_to!(ms@[i as int] => ms@[i as int].value));
            }
            scan_secret_fields(items, path, fname, next.as_str(), &ms[i].value);
        }
        i = i + 1;
    }
}

/// Records the secrets held in `v`, which sits under key path `kp` of the
/// settings file `path` (named `fname`).
pub fn scan_secret_fields(
    items: &mut Vec<LegacyImportItem>,
    path: &str,
    fname: &str,
    kp: &str,
    v: &JsonValue,
)
    ensures
        items_view(final(items)@) == secret_scan(items_view(old(items)@), path@, fname@, kp@, *v),
    decreases v,
{
    match v {
        JsonValue::Object(ms) => {
            proof {
                assert(decreases_to!(*v => *ms));
            }
            scan_secret_members(items, path, fname, kp, ms);
        },
        JsonValue::Array(vs) => {
            let mut i: usize = 0;
            while i < vs.len()
                invariant
                    i <= vs@.len(),
                    *v == JsonValue::Array(*vs),
                    secret_scan_array(items_view(items@), path@, fname@, kp@, vs@, i as int) == secret_scan(
                        items_view(old(items)@),
                        path@,
                        fname@,
                        kp@,
                        *v,
                    ),
                decreases vs@.len() - i,
            {
                let next = element_path_exec(kp, i);
                proof {
                    assert(decreases_to!(*v => *vs));
                    assert(decreases_to!(*vs => vs@));
                    assert(decreases_to!(vs@ => vs@[i as int]));
                }
                scan_secret_fields(items, path, fname, next.as_str(), &vs[i]);
                i = i + 1;
            }
        },
        JsonValue::Str(t) => {
            if string_path_may_hold_secret(kp) || contains_secret_text(t.as_str()) {
                add_item(
                    items,
                    "secret",
                    path,
                    fname,
                    kp,
                    secret_target_for_key(kp),
                    "requiresSecretConfirmation",
                    true,
                    "secret",
                );
            }
        },
        _ => {},
    }
}

} // verus!

verus! {

/// The settings that convert as they are.
pub open spec fn non_sensitive_keys() -> Seq<Seq<char>> {
    seq![
        "providerSyncEnabled"@,
        "providerSyncSavedProviders"@,
        "providerSyncManualProviders"@,
        "providerSyncLastSelectedProvider"@,
        "relayProfilesEnabled"@,
        "enhancementsEnabled"@,
        "computerUseGuardEnabled"@,
        "codexAppUserScriptHotReload"@,
        "codexAppPluginMarketplaceUnlock"@,
        "codexAppPluginAutoExpand"@,
        "codexAppModelWhitelistUnlock"@,
        "codexAppSessionDelete"@,
        "codexAppMarkdownExport"@,
        "codexAppPasteFix"@,
        "codexAppForceChineseLocale"@,
        "codexAppFastStartup"@,
        "codexAppProjectMove"@,
        "codexAppThreadIdBadge"@,
        "codexAppConversationView"@,
        "codexAppThreadScrollRestore"@,
        "codexAppUpstreamWorktreeCreate"@,
        "codexAppNativeMenuPlacement"@,
        "codexAppNativeMenuLocalization"@,
        "codexAppServiceTierControls"@,
        "codexAppPetRealMouseLook"@,
        "codexAppStepwiseEnabled"@,
        "codexAppStepwiseDirectSend"@,
        "codexAppStepwiseApiKeyEnv"@,
        "codexAppStepwiseModel"@,
        "codexAppStepwiseMaxItems"@,
        "codexAppStepwiseMaxInputChars"@,
        "codexAppStepwiseMaxOutputTokens"@,
        "codexAppStepwiseTimeoutMs"@,
        "codexAppImageOverlayEnabled"@,
        "codexAppImageOverlayOpacity"@,
        "codexAppImageOverlayFitMode"@,
        "codexGoalsEnabled"@,
        "codexAppGoalResumeGuard"@,
        "launchMode"@,
        "relayBaseUrl"@,
        "activeRelayId"@,
        "activeAggregateRelayId"@,
        "relayTestModel"@,
        "visionRelay"@,
    ]
}

/// The settings that name an outside program, file or address.
pub open spec fn external_keys() -> Seq<Seq<char>> {
    seq!["codexAppPath"@, "codexAppImageOverlayPath"@, "codexAppStepwiseBaseUrl"@]
}

/// The settings that hold configuration text.
pub open spec fn context_keys() -> Seq<Seq<char>> {
    seq!["relayCommonConfigContents"@, "relayContextConfigContents"@]
}

/// The items after recording each of `keys[i..]` that the settings hold.
pub open spec fn key_items(
    items: Seq<ItemView>,
    path: Seq<char>,
    fname: Seq<char>,
    ms: Seq<JsonMember>,
    keys: Seq<Seq<char>>,
    i: int,
    group: Seq<char>,
    action: Seq<char>,
    conf: bool,
    risk: Seq<char>,
) -> Seq<ItemView>
    decreases keys.len() - i,
{
    if i < 0 || i >= keys.len() {
        items
    } else {
        let items2 = if members_get(ms, keys[i]) is Some {
            add_item_spec(items, make_item(group, path, fname, keys[i], deck_target_spec(keys[i]), action, conf, risk))
        } else {
            items
        };
        key_items(items2, path, fname, ms, keys, i + 1, group, action, conf, risk)
    }
}

/// The number of elements of an array value, 0 for anything else.
pub open spec fn array_len(v: Option<JsonValue>) -> nat {
    match v {
        Some(JsonValue::Array(a)) => a@.len(),
        _ => 0,
    }
}

/// The items after recording elements `i..n` of the array setting `key`.
pub open spec fn index_items(
    items: Seq<ItemView>,
    path: Seq<char>,
    fname: Seq<char>,
    key: Seq<char>,
    n: nat,
    i: int,
    target: Seq<char>,
    action: Seq<char>,
) -> Seq<ItemView>
    decreases n - i,
{
    if i < 0 || i >= n {
        items
    } else {
        let it = make_item("nonSensitiveConfig"@, path, fname, element_path(key, i as nat), target, action, false, "low"@);
        index_items(add_item_spec(items, it), path, fname, key, n, i + 1, target, action)
    }
}

/// The items after looking at the configuration texts `context_keys()[i..]`:
/// text that can run commands or load packages needs confirmation, other
/// non-blank text converts as it is.
pub open spec fn context_items(
    items: Seq<ItemView>,
    path: Seq<char>,
    fname: Seq<char>,
    ms: Seq<JsonMember>,
    i: int,
) -> Seq<ItemView>
    decreases context_keys().len() - i,
{
    if i < 0 || i >= context_keys().len() {
        items
    } else {
        let k = context_keys()[i];
        let items2 = match members_get(ms, k) {
            Some(JsonValue::Str(t)) => if external_config_text(t@) {
                add_item_spec(
                    items,
                    make_item(
                        "executableOrExternal"@,
                        path,
                        fname,
                        k,
                        deck_target_spec(k),
                        "requiresUserConfirmation"@,
                        true,
                        "canRunCommandsOrLoadExternalPackages"@,
                    ),
                )
            } else if trim(t@).len() > 0 {
                add_item_spec(
                    items,
                    make_item("nonSensitiveConfig"@, path, fname, k, deck_target_spec(k), "convertAutomatically"@, false, "low"@),
                )
            } else {
                items
            },
            _ => items,
        };
        context_items(items2, path, fname, ms, i + 1)
    }
}

/// The items after scanning the members of the settings object: plain
/// settings, one item per relay profile and per aggregate profile, outside
/// paths, configuration texts, then every secret.
pub open spec fn setting_scan(items: Seq<ItemView>, path: Seq<char>, fname: Seq<char>, ms: Seq<JsonMember>) -> Seq<ItemView> {
    let a = key_items(items, path, fname, ms, non_sensitive_keys(), 0, "nonSensitiveConfig"@, "convertAutomatically"@, false, "low"@);
    let b = index_items(
        a,
        path,
        fname,
        "relayProfiles"@,
        array_len(members_get(ms, "relayProfiles"@)),
        0,
        "settings.relayProfiles"@,
        "convertProviderWithoutSecrets"@,
    );
    let c = index_items(
        b,
        path,
        fname,
        "aggregateRelayProfiles"@,
        array_len(members_get(ms, "aggregateRelayProfiles"@)),
        0,
        "settings.aggregateRelayProfiles"@,
        "convertAggregateProviderWithoutSecrets"@,
    );
    let d = key_items(c, path, fname, ms, external_keys(), 0, "executableOrExternal"@, "requiresUserConfirmation"@, true, "externalPath"@);
    let e = context_items(d, path, fname, ms, 0);
    secret_scan_members(e, path, fname, Seq::empty(), ms, 0)
}

} // verus!

verus! {

/// The settings that convert as they are.
fn non_sensitive_list() -> (r: Vec<&'static str>)
    ensures
        r@.map_values(|k: &str| k@) == non_sensitive_keys(),
{
    let r = vec![
        "providerSyncEnabled",
        "providerSyncSavedProviders",
        "providerSyncManualProviders",
        "providerSyncLastSelectedProvider",
        "relayProfilesEnabled",
        "enhancementsEnabled",
        "computerUseGuardEnabled",
        "codexAppUserScriptHotReload",
        "codexAppPluginMarketplaceUnlock",
        "codexAppPluginAutoExpand",
        "codexAppModelWhitelistUnlock",
        "codexAppSessionDelete",
        "codexAppMarkdownExport",
        "codexAppPasteFix",
        "codexAppForceChineseLocale",
        "codexAppFastStartup",
        "codexAppProjectMove",
        "codexAppThreadIdBadge",
        "codexAppConversationView",
        "codexAppThreadScrollRestore",
        "codexAppUpstreamWorktreeCreate",
        "codexAppNativeMenuPlacement",
        "codexAppNativeMenuLocalization",
        "codexAppServiceTierControls",
        "codexAppPetRealMouseLook",
        "codexAppStepwiseEnabled",
        "codexAppStepwiseDirectSend",
        "codexAppStepwiseApiKeyEnv",
        "codexAppStepwiseModel",
        "codexAppStepwiseMaxItems",
        "codexAppStepwiseMaxInputChars",
        "codexAppStepwiseMaxOutputTokens",
        "codexAppStepwiseTimeoutMs",
        "codexAppImageOverlayEnabled",
        "codexAppImageOverlayOpacity",
        "codexAppImageOverlayFitMode",
        "codexGoalsEnabled",
        "codexAppGoalResumeGuard",
        "launchMode",
        "relayBaseUrl",
        "activeRelayId",
        "activeAggregateRelayId",
        "relayTestModel",
        "visionRelay",
    ];
    assert(r@.map_values(|k: &str| k@) =~= non_sensitive_keys());
    r
}

/// Records each of `keys` that the settings `ms` hold.
fn record_keys(
    items: &mut Vec<LegacyImportItem>,
    path: &str,
    fname: &str,
    ms: &Vec<JsonMember>,
    keys: &Vec<&'static str>,
    group: &str,
    action: &str,
    conf: bool,
    risk: &str,
)
    ensures
        items_view(final(items)@) == key_items(
            items_view(old(items)@),
            path@,
            fname@,
            ms@,
            keys@.map_values(|k: &str| k@),
            0,
            group@,
            action@,
            conf,
            risk@,
        ),
{
    let ghost ks = keys@.map_values(|k: &str| k@);
    let ghost target = key_items(items_view(items@), path@, fname@, ms@, ks, 0, group@, action@, conf, risk@);
    let mut i: usize = 0;
    while i < keys.len()
        invariant
            i <= keys@.len(),
            ks == keys@.map_values(|k: &str| k@),
            key_items(items_view(items@), path@, fname@, ms@, ks, i as int, group@, action@, conf, risk@) == target,
        decreases keys@.len() - i,
    {
        let k = keys[i];
        assert(ks[i as int] == k@);
        if members_get_exec(ms, k).is_some() {
            add_item(items, group, path, fname, k, deck_setting_target(k), action, conf, risk);
        }
        i = i + 1;
    }
}

/// Records elements `0..n` of the array setting `key`.
fn record_index(
    items: &mut Vec<LegacyImportItem>,
    path: &str,
    fname: &str,
    key: &str,
    n: usize,
    target: &str,
    action: &str,
)
    ensures
        items_view(final(items)@) == index_items(items_view(old(items)@), path@, fname@, key@, n as nat, 0, target@, action@),
{
    let ghost goal = index_items(items_view(items@), path@, fname@, key@, n as nat, 0, target@, action@);
    let mut i: usize = 0;
    while i < n
        invariant
            i <= n,
            index_items(items_view(items@), path@, fname@, key@, n as nat, i as int, target@, action@) == goal,
        decreases n - i,
    {
        let k = element_path_exec(key, i);
        add_item(items, "nonSensitiveConfig", path, fname, k.as_str(), target, action, false, "low");
        i = i + 1;
    }
}

/// The number of elements of an array value, 0 for anything else.
fn array_len_exec(v: Option<&JsonValue>) -> (r: usize)
    ensures
        r == array_len(match v { Some(x) => Some(*x), None => None }),
{
    match v {
        Some(JsonValue::Array(a)) => a.len(),
        _ => 0,
    }
}

/// Looks at the configuration texts of the settings `ms`.
fn record_context(items: &mut Vec<LegacyImportItem>, path: &str, fname: &str, ms: &Vec<JsonMember>)
    ensures
        items_view(final(items)@) == context_items(items_view(old(items)@), path@, fname@, ms@, 0),
{
    let keys: Vec<&'static str> = vec!["relayCommonConfigContents", "relayContextConfigContents"];
    assert(keys@.map_values(|k: &str| k@) =~= context_keys());
    let ghost goal = context_items(items_view(items@), path@, fname@, ms@, 0);
    let mut i: usize = 0;
    while i < 2
        invariant
            i <= 2,
            keys@.map_values(|k: &str| k@) == context_keys(),
            context_items(items_view(items@), path@, fname@, ms@, i as int) == goal,
        decreases 2 - i,
    {
        let k = keys[i];
        assert(context_keys()[i as int] == k@);
        match members_get_exec(ms, k) {
            Some(JsonValue::Str(t)) => {
                if contains_executable_or_external_config(t.as_str()) {
                    add_item(
                        items,
                        "executableOrExternal",
                        path,
                        fname,
                        k,
                        deck_setting_target(k),
                        "requiresUserConfirmation",
                        true,
                        "canRunCommandsOrLoadExternalPackages",
                    );
                } else if !crate::text::is_blank(t.as_str()) {
                    add_item(items, "nonSensitiveConfig", path, fname, k, deck_setting_target(k), "convertAutomatically", false, "low");
                }
            },
            _ => {},
        }
        i = i + 1;
    }
}

/// Records what an import can bring over from the members `settings` of the
/// former settings file `path` (named `fname`).
pub fn scan_setting_object(items: &mut Vec<LegacyImportItem>, path: &str, fname: &str, settings: &Vec<JsonMember>)
    ensures
        items_view(final(items)@) == setting_scan(items_view(old(items)@), path@, fname@, settings@),
{
    let plain = non_sensitive_list();
    record_keys(items, path, fname, settings, &plain, "nonSensitiveConfig", "convertAutomatically", false, "low");
    let n = array_len_exec(members_get_exec(settings, "relayProfiles"));
    record_index(items, path, fname, "relayProfiles", n, "settings.relayProfiles", "convertProviderWithoutSecrets");
    let n = array_len_exec(members_get_exec(settings, "aggregateRelayProfiles"));
    record_index(
        items,
        path,
        fname,
        "aggregateRelayProfiles",
        n,
        "settings.aggregateRelayProfiles",
        "convertAggregateProviderWithoutSecrets",
    );
    let outside: Vec<&'static str> = vec!["codexAppPath", "codexAppImageOverlayPath", "codexAppStepwiseBaseUrl"];
    assert(outside@.map_values(|k: &str| k@) =~= external_keys());
    record_keys(items, path, fname, settings, &outside, "executableOrExternal", "requiresUserConfirmation", true, "externalPath");
    record_context(items, path, fname, settings);
    let root = String::new();
    assert(root@ =~= Seq::<char>::empty());
    scan_secret_members(items, path, fname, root.as_str(), settings);
}

} // verus!

verus! {

/// One entry of the former state directory: its file name, its path, whether
/// it is a directory, and the size of a plain file.
#[derive(Debug, Clone)]
pub struct RootEntry {
    pub name: String,
    pub path: String,
    pub is_dir: bool,
    pub size_bytes: Option<u64>,
}

/// Why Codex's own sessions are left out.
pub open spec fn native_session_reason() -> Seq<char> {
    "Codex native sessions remain the source of truth and are not copied"@
}

/// Why runtime files are left out.
pub open spec fn runtime_reason() -> Seq<char> {
    "runtime logs, caches, locks, ports, pid files and temporary files are not imported"@
}

/// Why unknown files are left out.
pub open spec fn unrecognized_reason() -> Seq<char> {
    "unrecognized legacy file is skipped until a schema adapter exists"@
}

/// The items and exclusions after classifying entries `i..` of the former
/// state directory: the settings file is skipped (it is scanned on its own),
/// Codex sessions and runtime files are left out, user scripts need
/// confirmation, anything else is left out as unknown.
pub open spec fn root_scan(items: Seq<ItemView>, ex: Seq<ExcludedView>, es: Seq<RootEntry>, i: int) -> (
    Seq<ItemView>,
    Seq<ExcludedView>,
)
    decreases es.len() - i,
{
    if i < 0 || i >= es.len() {
        (items, ex)
    } else {
        let e = es[i];
        let n = e.name@;
        let next = if lower(n) == "settings.json"@ {
            (items, ex)
        } else if native_session_source(n) {
            (items, ex.push(make_excluded("codexNativeSession"@, e.path@, n, native_session_reason(), e.size_bytes)))
        } else if default_excluded(n, e.is_dir) {
            (items, ex.push(make_excluded("runtimeOrCache"@, e.path@, n, runtime_reason(), e.size_bytes)))
        } else if lower(n) == "user_scripts"@ || lower(n) == "user_scripts.json"@ {
            (
                add_item_spec(
                    items,
                    make_item(
                        "executableOrExternal"@,
                        e.path@,
                        n,
                        Seq::empty(),
                        "contextPackages.userScripts"@,
                        "requiresUserConfirmation"@,
                        true,
                        "canExecuteUserCode"@,
                    ),
                ),
                ex,
            )
        } else {
            (
                items,
                ex.push(
                    make_excluded(
                        "unrecognized"@,
                        e.path@,
                        n,
                        unrecognized_reason(),
                        if e.is_dir { None } else { e.size_bytes },
                    ),
                ),
            )
        };
        root_scan(next.0, next.1, es, i + 1)
    }
}

/// Classifies the entries of the former state directory.
pub fn scan_root_entries(
    items: &mut Vec<LegacyImportItem>,
    excluded: &mut Vec<LegacyImportExcluded>,
    entries: &Vec<RootEntry>,
)
    ensures
        (items_view(final(items)@), excluded_view(final(excluded)@)) == root_scan(
            items_view(old(items)@),
            excluded_view(old(excluded)@),
            entries@,
            0,
        ),
{
    let ghost goal = root_scan(items_view(items@), excluded_view(excluded@), entries@, 0);
    let mut i: usize = 0;
    while i < entries.len()
        invariant
            i <= entries@.len(),
            root_scan(items_view(items@), excluded_view(excluded@), entries@, i as int) == goal,
        decreases entries@.len() - i,
    {
        let e = &entries[i];
        let l = crate::text::lower_str(e.name.as_str());
        let name = e.name.as_str();
        let path = e.path.as_str();
        if str_eq(l.as_str(), "settings.json") {
        } else if is_codex_native_session_source(name) {
            let reason = "Codex native sessions remain the source of truth and are not copied";
            add_excluded(excluded, "codexNativeSession", path, name, reason, e.size_bytes);
        } else if is_default_excluded_entry(name, e.is_dir) {
            let reason = "runtime logs, caches, locks, ports, pid files and temporary files are not imported";
            add_excluded(excluded, "runtimeOrCache", path, name, reason, e.size_bytes);
        } else if str_eq(l.as_str(), "user_scripts") || str_eq(l.as_str(), "user_scripts.json") {
            let nothing = String::new();
            assert(nothing@ =~= Seq::<char>::empty());
            add_item(
                items,
                "executableOrExternal",
                path,
                name,
                nothing.as_str(),
                "contextPackages.userScripts",
                "requiresUserConfirmation",
                true,
                "canExecuteUserCode",
            );
        } else {
            let reason = "unrecognized legacy file is skipped until a schema adapter exists";
            let size = if e.is_dir { None } else { e.size_bytes };
            add_excluded(excluded, "unrecognized", path, name, reason, size);
        }
        i = i + 1;
    }
}

} // verus!

verus! {

/// A conflict as plain values.
pub open spec fn conflict_view(c: LegacyImportConflict) -> (Seq<char>, Seq<char>, Seq<char>, Seq<char>) {
    (c.id@, c.severity@, c.source_path@, c.message@)
}

/// The conflicts of a list, as plain values.
pub open spec fn conflicts_view(v: Seq<LegacyImportConflict>) -> Seq<(Seq<char>, Seq<char>, Seq<char>, Seq<char>)> {
    v.map_values(|c: LegacyImportConflict| conflict_view(c))
}

/// The conflict recorded when there is no settings file.
pub open spec fn missing_settings_conflict(path: Seq<char>) -> (Seq<char>, Seq<char>, Seq<char>, Seq<char>) {
    (
        "missing-settings-json"@,
        "warning"@,
        path,
        "settings.json not found; only file-level exclusions can be previewed"@,
    )
}

/// The conflict recorded when the settings file is not a JSON object.
pub open spec fn invalid_settings_conflict(path: Seq<char>) -> (Seq<char>, Seq<char>, Seq<char>, Seq<char>) {
    ("invalid-settings-json"@, "error"@, path, "settings.json is not a valid object and will not be imported"@)
}

/// The settings file of the former state directory.
pub open spec fn settings_path_of(source_root: Seq<char>) -> Seq<char> {
    join_path(source_root, "settings.json"@)
}

/// The members of the settings file when it is a JSON object.
pub open spec fn settings_members(contents: Option<Seq<char>>) -> Option<Seq<JsonMember>> {
    match contents {
        Some(t) => match json_parse(t) {
            Some(JsonValue::Object(ms)) => Some(ms@),
            _ => None,
        },
        None => None,
    }
}

/// Looks at the former settings file, whose text is `contents` (`None` when
/// there is no such file): records a conflict when it is missing or not a
/// JSON object, else what it holds.
pub fn scan_settings(preview: &mut LegacyImportPreview, source_root: &str, contents: Option<&str>)
    ensures
        ({
            let path = settings_path_of(source_root@);
            let text = match contents { Some(t) => Some(t@), None => None };
            &&& final(preview).schema.settings_json_found == (contents is Some || old(preview).schema.settings_json_found)
            &&& match settings_members(text) {
                Some(ms) => {
                    &&& final(preview).schema.settings_json_valid
                    &&& final(preview).schema.settings_key_count == ms.len()
                    &&& items_view(final(preview).items@) == setting_scan(items_view(old(preview).items@), path, "settings.json"@, ms)
                    &&& final(preview).conflicts@ == old(preview).conflicts@
                },
                None => {
                    &&& final(preview).schema.settings_json_valid == old(preview).schema.settings_json_valid
                    &&& final(preview).schema.settings_key_count == old(preview).schema.settings_key_count
                    &&& final(preview).items@ == old(preview).items@
                    &&& conflicts_view(final(preview).conflicts@) == conflicts_view(old(preview).conflicts@).push(
                        if contents is None { missing_settings_conflict(path) } else { invalid_settings_conflict(path) },
                    )
                },
            }
        }),
        final(preview).excluded@ == old(preview).excluded@,
        final(preview).source_root == old(preview).source_root,
        final(preview).found == old(preview).found,
{
    let path = crate::paths::join_path_exec(source_root, "settings.json");
    match contents {
        None => {
            let ghost before = conflicts_view(preview.conflicts@);
            preview.conflicts.push(
                LegacyImportConflict {
                    id: owned("missing-settings-json"),
                    severity: owned("warning"),
                    source_path: path,
                    message: owned("settings.json not found; only file-level exclusions can be previewed"),
                },
            );
            assert(conflicts_view(preview.conflicts@) =~= before.push(missing_settings_conflict(settings_path_of(source_root@))));
        },
        Some(text) => {
            preview.schema.settings_json_found = true;
            match crate::json::parse_json(text) {
                Some(JsonValue::Object(ms)) => {
                    preview.schema.settings_json_valid = true;
                    preview.schema.settings_key_count = ms.len();
                    scan_setting_object(&mut preview.items, path.as_str(), "settings.json", &ms);
                },
                _ => {
                    let ghost before = conflicts_view(preview.conflicts@);
                    preview.conflicts.push(
                        LegacyImportConflict {
                            id: owned("invalid-settings-json"),
                            severity: owned("error"),
                            source_path: path,
                            message: owned("settings.json is not a valid object and will not be imported"),
                        },
                    );
                    assert(conflicts_view(preview.conflicts@) =~= before.push(invalid_settings_conflict(settings_path_of(source_root@))));
                },
            }
        },
    }
}

/// An empty summary.
fn empty_summary() -> (s: LegacyImportSummary)
    ensures
        s.automatic_items == 0 && s.confirmation_items == 0 && s.secret_items == 0,
        s.executable_or_external_items == 0 && s.excluded_items == 0 && s.conflicts == 0,
        s.codex_native_session_sources == 0,
{
    LegacyImportSummary {
        automatic_items: 0,
        confirmation_items: 0,
        secret_items: 0,
        executable_or_external_items: 0,
        excluded_items: 0,
        conflicts: 0,
        codex_native_session_sources: 0,
    }
}

/// What an import of the former state directory `source_root` would do.
/// `found` says whether that directory exists, `settings_contents` is the
/// text of its settings file (`None` when there is none), `entries` its
/// listing. Nothing is changed on disk.
pub fn preview_legacy_import(
    source_root: &str,
    found: bool,
    settings_contents: Option<&str>,
    entries: &Vec<RootEntry>,
) -> (r: LegacyImportPreview)
    ensures
        r.source_root@ == source_root@,
        r.found == found,
        summary_of(r, r.summary),
        !found ==> r.items@.len() == 0 && r.conflicts@.len() == 0 && r.excluded@.len() == 0,
        !found ==> !r.schema.settings_json_found && !r.schema.settings_json_valid && r.schema.settings_key_count == 0,
        found ==> ({
            let path = settings_path_of(source_root@);
            let text = match settings_contents { Some(t) => Some(t@), None => None };
            let scanned = match settings_members(text) {
                Some(ms) => setting_scan(Seq::empty(), path, "settings.json"@, ms),
                None => Seq::empty(),
            };
            let after = root_scan(scanned, Seq::empty(), entries@, 0);
            &&& r.schema.settings_json_found == settings_contents is Some
            &&& r.schema.settings_json_valid == settings_members(text) is Some
            &&& r.schema.settings_key_count == match settings_members(text) {
                Some(ms) => ms.len(),
                None => 0,
            }
            &&& items_view(r.items@) == after.0
            &&& excluded_view(r.excluded@) == after.1
            &&& conflicts_view(r.conflicts@) == match settings_members(text) {
                Some(_) => Seq::empty(),
                None => seq![
                    if settings_contents is None {
                        missing_settings_conflict(path)
                    } else {
                        invalid_settings_conflict(path)
                    },
                ],
            }
        }),
{
    let mut preview = LegacyImportPreview {
        source_root: owned(source_root),
        found,
        schema: LegacyImportSchema { settings_json_found: false, settings_json_valid: false, settings_key_count: 0 },
        summary: empty_summary(),
        items: Vec::new(),
        conflicts: Vec::new(),
        excluded: Vec::new(),
    };
    assert(items_view(preview.items@) =~= Seq::<ItemView>::empty());
    assert(excluded_view(preview.excluded@) =~= Seq::<ExcludedView>::empty());
    assert(conflicts_view(preview.conflicts@) =~= Seq::empty());
    if !found {
        refresh_summary(&mut preview);
        return preview;
    }
    scan_settings(&mut preview, source_root, settings_contents);
    scan_root_entries(&mut preview.items, &mut preview.excluded, entries);
    refresh_summary(&mut preview);
    preview
}

} // verus!

verus! {

/// A ledger entry as plain values.
pub struct LedgerEntryView {
    pub item_id: Seq<char>,
    pub group: Seq<char>,
    pub source_path: Seq<char>,
    pub source_key: Seq<char>,
    pub target: Seq<char>,
    pub selected: bool,
    pub status: Seq<char>,
    pub requires_confirmation: bool,
    pub risk: Seq<char>,
}

impl View for LegacyImportLedgerEntry {
    type V = LedgerEntryView;

    open spec fn view(&self) -> LedgerEntryView {
        LedgerEntryView {
            item_id: self.item_id@,
            group: self.group@,
            source_path: self.source_path@,
            source_key: self.source_key@,
            target: self.target@,
            selected: self.selected,
            status: self.status@,
            requires_confirmation: self.requires_confirmation,
            risk: self.risk@,
        }
    }
}

/// The entries of a ledger, as plain values.
pub open spec fn ledger_view(v: Seq<LegacyImportLedgerEntry>) -> Seq<LedgerEntryView> {
    v.map_values(|e: LegacyImportLedgerEntry| e@)
}

/// The ledger entry of an item: pending when selected, else skipped.
pub open spec fn item_entry(it: ItemView, selected: bool) -> LedgerEntryView {
    LedgerEntryView {
        item_id: it.id,
        group: it.group,
        source_path: it.source_path,
        source_key: it.source_key,
        target: it.target,
        selected,
        status: if selected { "pending"@ } else { "skipped"@ },
        requires_confirmation: it.requires_confirmation,
        risk: it.risk,
    }
}

/// The ledger entry of something left out.
pub open spec fn excluded_entry(e: ExcludedView) -> LedgerEntryView {
    LedgerEntryView {
        item_id: e.id,
        group: e.category,
        source_path: e.source_path,
        source_key: Seq::empty(),
        target: "notImported"@,
        selected: false,
        status: "excluded"@,
        requires_confirmation: false,
        risk: e.category,
    }
}

/// The ledger entry of a conflict.
pub open spec fn conflict_entry(c: (Seq<char>, Seq<char>, Seq<char>, Seq<char>)) -> LedgerEntryView {
    LedgerEntryView {
        item_id: c.0,
        group: "conflict"@,
        source_path: c.2,
        source_key: Seq::empty(),
        target: "notImported"@,
        selected: false,
        status: "failed"@,
        requires_confirmation: false,
        risk: c.1,
    }
}

/// The ledger of a preview, given the ids the user selected: one entry per
/// item, then per exclusion, then per conflict.
pub open spec fn ledger_entries(p: LegacyImportPreview, selected: Seq<Seq<char>>) -> Seq<LedgerEntryView> {
    items_view(p.items@).map_values(|it: ItemView| item_entry(it, selected.contains(it.id)))
        + excluded_view(p.excluded@).map_values(|e: ExcludedView| excluded_entry(e))
        + conflicts_view(p.conflicts@).map_values(|c: (Seq<char>, Seq<char>, Seq<char>, Seq<char>)| conflict_entry(c))
}

/// Whether `id` is among `selected`.
fn is_selected(selected: &Vec<String>, id: &str) -> (r: bool)
    ensures
        r == selected@.map_values(|s: String| s@).contains(id@),
{
    let ghost sv = selected@.map_values(|s: String| s@);
    let mut i: usize = 0;
    while i < selected.len()
        invariant
            i <= selected@.len(),
            sv == selected@.map_values(|s: String| s@),
            forall|j: int| 0 <= j < i ==> sv[j] != id@,
        decreases selected@.len() - i,
    {
        if str_eq(selected[i].as_str(), id) {
            assert(sv[i as int] == id@);
            return true;
        }
        i = i + 1;
    }
    false
}

/// The ledger of a preview, made at `created_at_ms`, with the items whose ids
/// are in `selected` marked pending.
pub fn build_ledger(preview: &LegacyImportPreview, selected: &Vec<String>, created_at_ms: u64) -> (r: LegacyImportLedger)
    ensures
        r.source_root@ == preview.source_root@,
        r.created_at_ms == created_at_ms,
        ledger_view(r.entries@) == ledger_entries(*preview, selected@.map_values(|s: String| s@)),
{
    let ghost sel = selected@.map_values(|s: String| s@);
    let ghost iv = items_view(preview.items@);
    let ghost ev = excluded_view(preview.excluded@);
    let ghost cv = conflicts_view(preview.conflicts@);
    let ghost part1 = iv.map_values(|it: ItemView| item_entry(it, sel.contains(it.id)));
    let ghost part2 = ev.map_values(|e: ExcludedView| excluded_entry(e));
    let ghost part3 = cv.map_values(|c: (Seq<char>, Seq<char>, Seq<char>, Seq<char>)| conflict_entry(c));
    let mut entries: Vec<LegacyImportLedgerEntry> = Vec::new();
    let mut i: usize = 0;
    while i < preview.items.len()
        invariant
            i <= iv.len(),
            iv == items_view(preview.items@),
            sel == selected@.map_values(|s: String| s@),
            part1 == iv.map_values(|it: ItemView| item_entry(it, sel.contains(it.id))),
            ledger_view(entries@) == part1.take(i as int),
        decreases iv.len() - i,
    {
        let it = &preview.items[i];
        let chosen = is_selected(selected, it.id.as_str());
        let ghost before = ledger_view(entries@);
        entries.push(
            LegacyImportLedgerEntry {
                item_id: owned(it.id.as_str()),
                group: owned(it.group.as_str()),
                source_path: owned(it.source_path.as_str()),
                source_key: owned(it.source_key.as_str()),
                target: owned(it.target.as_str()),
                selected: chosen,
                status: if chosen { owned("pending") } else { owned("skipped") },
                requires_confirmation: it.requires_confirmation,
                risk: owned(it.risk.as_str()),
            },
        );
        assert(ledger_view(entries@) =~= before.push(part1[i as int]));
        assert(part1.take(i as int + 1) =~= part1.take(i as int).push(part1[i as int]));
        i = i + 1;
    }
    assert(part1.take(iv.len() as int) =~= part1);
    let mut i: usize = 0;
    while i < preview.excluded.len()
        invariant
            i <= ev.len(),
            ev == excluded_view(preview.excluded@),
            part2 == ev.map_values(|e: ExcludedView| excluded_entry(e)),
            ledger_view(entries@) == part1 + part2.take(i as int),
        decreases ev.len() - i,
    {
        let e = &preview.excluded[i];
        let ghost before = ledger_view(entries@);
        entries.push(
            LegacyImportLedgerEntry {
                item_id: owned(e.id.as_str()),
                group: owned(e.category.as_str()),
                source_path: owned(e.source_path.as_str()),
                source_key: String::new(),
                target: owned("notImported"),
                selected: false,
                status: owned("excluded"),
                requires_confirmation: false,
                risk: owned(e.category.as_str()),
            },
        );
        assert(ledger_view(entries@) =~= before.push(part2[i as int]));
        assert(part1 + part2.take(i as int + 1) =~= (part1 + part2.take(i as int)).push(part2[i as int]));
        i = i + 1;
    }
    assert(part2.take(ev.len() as int) =~= part2);
    let mut i: usize = 0;
    while i < preview.conflicts.len()
        invariant
            i <= cv.len(),
            cv == conflicts_view(preview.conflicts@),
            part3 == cv.map_values(|c: (Seq<char>, Seq<char>, Seq<char>, Seq<char>)| conflict_entry(c)),
            ledger_view(entries@) == part1 + part2 + part3.take(i as int),
        decreases cv.len() - i,
    {
        let c = &preview.conflicts[i];
        let ghost before = ledger_view(entries@);
        entries.push(
            LegacyImportLedgerEntry {
                item_id: owned(c.id.as_str()),
                group: owned("conflict"),
                source_path: owned(c.source_path.as_str()),
                source_key: String::new(),
                target: owned("notImported"),
                selected: false,
                status: owned("failed"),
                requires_confirmation: false,
                risk: owned(c.severity.as_str()),
            },
        );
        assert(ledger_view(entries@) =~= before.push(part3[i as int]));
        assert(part1 + part2 + part3.take(i as int + 1) =~= (part1 + part2 + part3.take(i as int)).push(part3[i as int]));
        i = i + 1;
    }
    assert(part3.take(cv.len() as int) =~= part3);
    LegacyImportLedger { source_root: owned(preview.source_root.as_str()), created_at_ms, entries }
}

} // verus!

verus! {

/// The status of a ledger entry once the import is applied: selected plain
/// settings succeed, selected items that need confirmation wait for it, other
/// pending items are skipped, the rest keep their status.
pub open spec fn applied_status(e: LedgerEntryView) -> Seq<char> {
    if e.status == "pending"@ && e.group == "nonSensitiveConfig"@ {
        "success"@
    } else if e.status == "pending"@ && e.requires_confirmation {
        "pendingConfirmation"@
    } else if e.status == "pending"@ {
        "skipped"@
    } else {
        e.status
    }
}

/// How an entry is counted when the import is applied: imported (0),
/// skipped (1), waiting for confirmation (2) or failed (3).
pub open spec fn applied_class(e: LedgerEntryView) -> int {
    let s = applied_status(e);
    if s == "success"@ {
        0
    } else if s == "pendingConfirmation"@ {
        2
    } else if s == "failed"@ {
        3
    } else {
        1
    }
}

/// The test that keeps the entries counted as class `k`.
pub open spec fn class_pred(k: int) -> spec_fn(LedgerEntryView) -> bool {
    |e: LedgerEntryView| applied_class(e) == k
}

/// The entry with its status after the import is applied.
pub open spec fn applied_entry(e: LedgerEntryView) -> LedgerEntryView {
    LedgerEntryView { status: applied_status(e), ..e }
}

/// The counts of an applied import: imported, skipped, waiting for
/// confirmation, failed.
pub open spec fn applied_counts(v: Seq<LedgerEntryView>) -> (nat, nat, nat, nat) {
    (
        v.filter(class_pred(0)).len(),
        v.filter(class_pred(1)).len(),
        v.filter(class_pred(2)).len(),
        v.filter(class_pred(3)).len(),
    )
}

/// Moves the entries of a ledger to their status after the import is
/// applied, and counts them: imported, skipped, waiting for confirmation,
/// failed.
pub fn apply_ledger_statuses(entries: &mut Vec<LegacyImportLedgerEntry>) -> (r: (usize, usize, usize, usize))
    ensures
        ledger_view(final(entries)@) == ledger_view(old(entries)@).map_values(|e: LedgerEntryView| applied_entry(e)),
        (r.0 as nat, r.1 as nat, r.2 as nat, r.3 as nat) == applied_counts(ledger_view(old(entries)@)),
{
    let ghost v = ledger_view(entries@);
    let mut imported: usize = 0;
    let mut skipped: usize = 0;
    let mut pending: usize = 0;
    let mut failed: usize = 0;
    let mut i: usize = 0;
    while i < entries.len()
        invariant
            i <= v.len(),
            entries@.len() == v.len(),
            forall|j: int| 0 <= j < i ==> #[trigger] ledger_view(entries@)[j] == applied_entry(v[j]),
            forall|j: int| i <= j < v.len() ==> #[trigger] ledger_view(entries@)[j] == v[j],
            v == ledger_view(old(entries)@),
            imported == v.take(i as int).filter(class_pred(0)).len(),
            skipped == v.take(i as int).filter(class_pred(1)).len(),
            pending == v.take(i as int).filter(class_pred(2)).len(),
            failed == v.take(i as int).filter(class_pred(3)).len(),
            imported + skipped + pending + failed <= i,
        decreases v.len() - i,
    {
        proof {
            lemma_filter_take_step(v, class_pred(0), i as int);
            lemma_filter_take_step(v, class_pred(1), i as int);
            lemma_filter_take_step(v, class_pred(2), i as int);
            lemma_filter_take_step(v, class_pred(3), i as int);
        }
        assert(ledger_view(entries@)[i as int] == v[i as int]);
        let st = owned(entries[i].status.as_str());
        let is_pending = str_eq(st.as_str(), "pending");
        let new_status: String = if is_pending && str_eq(entries[i].group.as_str(), "nonSensitiveConfig") {
            owned("success")
        } else if is_pending && entries[i].requires_confirmation {
            owned("pendingConfirmation")
        } else if is_pending {
            owned("skipped")
        } else {
            st
        };
        if str_eq(new_status.as_str(), "success") {
            imported = imported + 1;
        } else if str_eq(new_status.as_str(), "pendingConfirmation") {
            pending = pending + 1;
        } else if str_eq(new_status.as_str(), "failed") {
            failed = failed + 1;
        } else {
            skipped = skipped + 1;
        }
        let ghost before = entries@;
        let mut e = entries[i].clone_entry();
        e.status = new_status;
        entries.set(i, e);
        assert forall|j: int| 0 <= j < v.len() && j != i implies #[trigger] ledger_view(entries@)[j] == ledger_view(before)[j] by {
            assert(entries@[j] == before[j]);
        }
        i = i + 1;
    }
    assert(v.take(v.len() as int) =~= v);
    assert(ledger_view(entries@) =~= v.map_values(|e: LedgerEntryView| applied_entry(e)));
    (imported, skipped, pending, failed)
}

impl LegacyImportLedgerEntry {
    /// A copy of this entry.
    pub fn clone_entry(&self) -> (r: LegacyImportLedgerEntry)
        ensures
            r@ == self@,
    {
        LegacyImportLedgerEntry {
            item_id: owned(self.item_id.as_str()),
            group: owned(self.group.as_str()),
            source_path: owned(self.source_path.as_str()),
            source_key: owned(self.source_key.as_str()),
            target: owned(self.target.as_str()),
            selected: self.selected,
            status: owned(self.status.as_str()),
            requires_confirmation: self.requires_confirmation,
            risk: owned(self.risk.as_str()),
        }
    }
}

/// The entry after a rollback: what had been imported is marked rolled back.
pub open spec fn rolled_back_entry(e: LedgerEntryView) -> LedgerEntryView {
    if e.status == "success"@ {
        LedgerEntryView { status: "rolledBack"@, ..e }
    } else {
        e
    }
}

/// The test that keeps the entries that were imported.
pub open spec fn success_pred() -> spec_fn(LedgerEntryView) -> bool {
    |e: LedgerEntryView| e.status == "success"@
}

/// Marks what an import brought in as rolled back, and counts those entries.
pub fn mark_rolled_back(entries: &mut Vec<LegacyImportLedgerEntry>) -> (r: usize)
    ensures
        ledger_view(final(entries)@) == ledger_view(old(entries)@).map_values(|e: LedgerEntryView| rolled_back_entry(e)),
        r == ledger_view(old(entries)@).filter(success_pred()).len(),
{
    let ghost v = ledger_view(entries@);
    let mut n: usize = 0;
    let mut i: usize = 0;
    while i < entries.len()
        invariant
            i <= v.len(),
            entries@.len() == v.len(),
            forall|j: int| 0 <= j < i ==> #[trigger] ledger_view(entries@)[j] == rolled_back_entry(v[j]),
            forall|j: int| i <= j < v.len() ==> #[trigger] ledger_view(entries@)[j] == v[j],
            v == ledger_view(old(entries)@),
            n == v.take(i as int).filter(success_pred()).len(),
            n <= i,
        decreases v.len() - i,
    {
        proof {
            lemma_filter_take_step(v, success_pred(), i as int);
        }
        assert(ledger_view(entries@)[i as int] == v[i as int]);
        if str_eq(entries[i].status.as_str(), "success") {
            let ghost before = entries@;
            let mut e = entries[i].clone_entry();
            e.status = owned("rolledBack");
            entries.set(i, e);
            assert forall|j: int| 0 <= j < v.len() && j != i implies #[trigger] ledger_view(entries@)[j] == ledger_view(before)[j] by {
                assert(entries@[j] == before[j]);
            }
            n = n + 1;
        }
        i = i + 1;
    }
    assert(v.take(v.len() as int) =~= v);
    assert(ledger_view(entries@) =~= v.map_values(|e: LedgerEntryView| rolled_back_entry(e)));
    n
}

/// Where a transaction made at `now_ms` keeps its files.
pub fn default_legacy_import_transaction_root(app_state_root: &str, now_ms: u64) -> (r: String)
    ensures
        r@ == join_path(join_path(app_state_root@, "legacy-import-transactions"@), "tx-"@ + decimal(now_ms as nat)),
{
    let dir = crate::paths::join_path_exec(app_state_root, "legacy-import-transactions");
    let name = concat2("tx-", decimal_string(now_ms).as_str());
    crate::paths::join_path_exec(dir.as_str(), name.as_str())
}

} // verus!

verus! {

/// The SHA-256 digest of `bytes`, as `sha2` computes it.
pub uninterp spec fn sha256_of(bytes: Seq<u8>) -> Seq<u8>;

/// `sha2::Sha256::digest`: the digest of `bytes`, which is 32 bytes long
/// (the output size of `Sha256`), and the same for the same bytes. Nothing
/// more is stated of the hash function.
#[verifier::external_body]
pub(crate) fn sha256_digest(bytes: &[u8]) -> (r: Vec<u8>)
    ensures
        r@ == sha256_of(bytes@),
        r@.len() == 32,
{
    sha2::Sha256::digest(bytes).to_vec()
}

/// The lowercase hexadecimal digit for `d`.
pub open spec fn hex_digit(d: int) -> char {
    if d < 10 {
        (('0' as int) + d) as char
    } else {
        (('a' as int) + d - 10) as char
    }
}

/// Bytes written as two lowercase hexadecimal digits each.
pub open spec fn hex_lower(bytes: Seq<u8>) -> Seq<char>
    decreases bytes.len(),
{
    if bytes.len() == 0 {
        Seq::empty()
    } else {
        hex_lower(bytes.drop_last()) + seq![
            hex_digit(bytes.last() as int / 16),
            hex_digit(bytes.last() as int % 16),
        ]
    }
}

/// The hexadecimal digit for `d`.
fn hex_digit_exec(d: u8) -> (c: char)
    requires
        d < 16,
    ensures
        c == hex_digit(d as int),
{
    if d < 10 {
        ((48 + d) as char)
    } else {
        ((87 + d) as char)
    }
}

/// The SHA-256 digest of `bytes` in lowercase hexadecimal.
pub fn sha256_hex(bytes: &[u8]) -> (r: String)
    ensures
        r@ == hex_lower(sha256_of(bytes@)),
        r@.len() == 64,
{
    let digest = sha256_digest(bytes);
    let mut out: Vec<char> = Vec::new();
    let mut i: usize = 0;
    while i < digest.len()
        invariant
            i <= digest@.len(),
            out@ == hex_lower(digest@.take(i as int)),
            out@.len() == 2 * i,
        decreases digest@.len() - i,
    {
        assert(digest@.take(i as int + 1).drop_last() =~= digest@.take(i as int));
        let b = digest[i];
        out.push(hex_digit_exec(b / 16));
        out.push(hex_digit_exec(b % 16));
        i = i + 1;
    }
    assert(digest@.take(digest@.len() as int) =~= digest@);
    string_from(out.as_slice())
}

/// Whether a backup still has the checksum recorded when it was taken.
pub fn backup_checksum_matches(backup: &[u8], recorded: &str) -> (r: bool)
    ensures
        r == (hex_lower(sha256_of(backup@)) == recorded@),
{
    let actual = sha256_hex(backup);
    str_eq(actual.as_str(), recorded)
}

} // verus!

verus! {

/// The number `usize::from_str` reads from `s`: an optional `+`, then
/// decimal digits, at most `usize::MAX`.
pub open spec fn usize_text(s: Seq<char>) -> Option<nat> {
    let d = if s.len() > 0 && s[0] == '+' { s.skip(1) } else { s };
    if d.len() == 0 || !crate::ssh::all_digits(d) || crate::ssh::digits_value(d) > usize::MAX {
        None
    } else {
        Some(crate::ssh::digits_value(d))
    }
}

/// The index in a key such as `relayProfiles[3]` for the array `array_key`.
pub open spec fn indexed_key_spec(source_key: Seq<char>, array_key: Seq<char>) -> Option<nat> {
    let p = array_key + seq!['['];
    if starts_with(source_key, p) && source_key.len() >= p.len() + 1 && source_key.last() == ']' {
        usize_text(source_key.subrange(p.len() as int, source_key.len() - 1))
    } else {
        None
    }
}

/// Reads a decimal `usize`.
fn parse_usize(v: &[char]) -> (r: Option<usize>)
    ensures
        match r {
            Some(n) => usize_text(v@) == Some(n as nat),
            None => usize_text(v@) is None,
        },
{
    let start: usize = if v.len() > 0 && v[0] == '+' { 1 } else { 0 };
    let d = slice_chars(v, start, v.len());
    assert(d@ =~= (if v@.len() > 0 && v@[0] == '+' { v@.skip(1) } else { v@ }));
    if d.len() == 0 {
        return None;
    }
    let mut i: usize = 0;
    while i < d.len()
        invariant
            i <= d@.len(),
            d@ == (if v@.len() > 0 && v@[0] == '+' { v@.skip(1) } else { v@ }),
            forall|j: int| 0 <= j < i ==> '0' <= #[trigger] d@[j] && d@[j] <= '9',
        decreases d@.len() - i,
    {
        if !('0' <= d[i] && d[i] <= '9') {
            assert(!crate::ssh::all_digits(d@));
            return None;
        }
        i = i + 1;
    }
    let mut n: u128 = 0;
    let mut i: usize = 0;
    while i < d.len()
        invariant
            i <= d@.len(),
            crate::ssh::all_digits(d@),
            d@ == (if v@.len() > 0 && v@[0] == '+' { v@.skip(1) } else { v@ }),
            d@.len() > 0,
            n as nat == crate::ssh::digits_value(d@.take(i as int)),
            n <= usize::MAX,
        decreases d@.len() - i,
    {
        assert(d@.take(i as int + 1).drop_last() =~= d@.take(i as int));
        let c = (d[i] as u32) - ('0' as u32);
        let next = n * 10 + c as u128;
        if next > usize::MAX as u128 {
            proof {
                crate::ssh::lemma_digits_value_mono(d@, i as int + 1);
            }
            return None;
        }
        n = next;
        i = i + 1;
    }
    assert(d@.take(d@.len() as int) =~= d@);
    Some(n as usize)
}

/// The index in a key such as `relayProfiles[3]` for the array `array_key`.
pub fn indexed_source_key(source_key: &str, array_key: &str) -> (r: Option<usize>)
    ensures
        match r {
            Some(n) => indexed_key_spec(source_key@, array_key@) == Some(n as nat),
            None => indexed_key_spec(source_key@, array_key@) is None,
        },
{
    let k = str_chars(source_key);
    let mut p = str_chars(array_key);
    p.push('[');
    let ghost pv = array_key@ + seq!['['];
    assert(p@ =~= pv);
    if !starts_with_chars(k.as_slice(), p.as_slice()) || k.len() <= p.len() || k[k.len() - 1] != ']' {
        return None;
    }
    let mid = slice_chars(k.as_slice(), p.len(), k.len() - 1);
    parse_usize(mid.as_slice())
}

} // verus!

verus! {

/// A value that cleaning drops: text that carries a secret.
pub open spec fn dropped_value(v: JsonValue) -> bool {
    v matches JsonValue::Str(t) && secret_text(t@)
}

/// A member that cleaning keeps: not under a secret key, not a
/// `configContents` text with a secret, and not a dropped value.
pub open spec fn kept_member(m: JsonMember) -> bool {
    &&& !setting_key_secret(m.key@)
    &&& !(m.key@ == "configContents"@ && dropped_value(m.value))
    &&& !dropped_value(m.value)
}

/// `r` is `v` cleaned of secrets, for a value that is not dropped: objects
/// keep their kept members (cleaned, in order), arrays their elements that
/// are not dropped (cleaned, in order), other values stay.
pub open spec fn cleaned_value(v: JsonValue, r: JsonValue) -> bool
    decreases v, 0nat,
{
    match v {
        JsonValue::Object(ms) => r matches JsonValue::Object(rs) && {
            proof {
                assert(decreases_to!(v => ms));
                assert(decreases_to!(ms => ms@));
            }
            cleaned_members(ms@, rs@)
        },
        JsonValue::Array(vs) => r matches JsonValue::Array(rs) && {
            proof {
                assert(decreases_to!(v => vs));
                assert(decreases_to!(vs => vs@));
            }
            cleaned_elements(vs@, rs@)
        },
        JsonValue::Str(t) => r matches JsonValue::Str(u) && u@ == t@,
        JsonValue::Null => r == JsonValue::Null,
        JsonValue::Bool(b) => r == JsonValue::Bool(b),
        JsonValue::Number(text, n) => r matches JsonValue::Number(t2, n2) && t2@ == text@ && n2 == n,
    }
}

/// `rs` holds the kept members of `ms`, cleaned, in order.
pub open spec fn cleaned_members(ms: Seq<JsonMember>, rs: Seq<JsonMember>) -> bool
    decreases ms, ms.len(),
{
    if ms.len() == 0 {
        rs.len() == 0
    } else if !kept_member(ms.last()) {
        proof {
            assert(decreases_to!(ms => ms.drop_last()));
        }
        cleaned_members(ms.drop_last(), rs)
    } else {
        proof {
            assert(decreases_to!(ms => ms.drop_last()));
            assert(decreases_to!(ms => ms[ms.len() - 1]));
            assert(decreases_to!(ms[ms.len() - 1] => ms[ms.len() - 1].value));
        }
        &&& rs.len() > 0
        &&& rs.last().key@ == ms.last().key@
        &&& cleaned_value(ms.last().value, rs.last().value)
        &&& cleaned_members(ms.drop_last(), rs.drop_last())
    }
}

/// `rs` holds the elements of `vs` that are not dropped, cleaned, in order.
pub open spec fn cleaned_elements(vs: Seq<JsonValue>, rs: Seq<JsonValue>) -> bool
    decreases vs, vs.len(),
{
    if vs.len() == 0 {
        rs.len() == 0
    } else if dropped_value(vs.last()) {
        proof {
            assert(decreases_to!(vs => vs.drop_last()));
        }
        cleaned_elements(vs.drop_last(), rs)
    } else {
        proof {
            assert(decreases_to!(vs => vs.drop_last()));
            assert(decreases_to!(vs => vs[vs.len() - 1]));
        }
        &&& rs.len() > 0
        &&& cleaned_value(vs.last(), rs.last())
        &&& cleaned_elements(vs.drop_last(), rs.drop_last())
    }
}

} // verus!

verus! {

/// A setting cleaned of secrets before it is imported: `None` for text that
/// carries a secret; objects lose their secret members, arrays their
/// elements that carry secrets.
pub fn sanitize_non_sensitive_value(value: &JsonValue) -> (r: Option<JsonValue>)
    ensures
        dropped_value(*value) ==> r is None,
        !dropped_value(*value) ==> (r matches Some(x) && cleaned_value(*value, x)),
    decreases value,
{
    match value {
        JsonValue::Object(ms) => {
            let mut out: Vec<JsonMember> = Vec::new();
            let mut i: usize = 0;
            assert(decreases_to!(*value => *ms));
            assert(ms@.take(0) =~= Seq::<JsonMember>::empty());
            while i < ms.len()
                invariant
                    i <= ms@.len(),
                    *value == JsonValue::Object(*ms),
                    decreases_to!(*value => *ms),
                    cleaned_members(ms@.take(i as int), out@),
                decreases ms@.len() - i,
            {
                assert(ms@.take(i + 1).drop_last() =~= ms@.take(i as int));
                assert(ms@.take(i + 1).last() == ms@[i as int]);
                let m = &ms[i];
                let config_secret = crate::text::str_eq(m.key.as_str(), "configContents") && match &m.value {
                    JsonValue::Str(t) => contains_secret_text(t.as_str()),
                    _ => false,
                };
                if !setting_key_is_secret(m.key.as_str()) && !config_secret {
                    proof {
                        assert(decreases_to!(*ms => ms@));
                        assert(decreases_to!(ms@ => ms@[i as int]));
                        assert(decreases_to!(ms@[i as int] => ms@[i as int].value));
                    }
                    match sanitize_non_sensitive_value(&m.value) {
                        Some(v) => {
                            let ghost before = out@;
                            out.push(JsonMember { key: m.key.clone(), value: v });
                            assert(out@.drop_last() =~= before);
                        },
                        None => {},
                    }
                }
                i = i + 1;
            }
            assert(ms@.take(ms@.len() as int) =~= ms@);
            Some(JsonValue::Object(out))
        },
        JsonValue::Array(vs) => {
            let mut out: Vec<JsonValue> = Vec::new();
            let mut i: usize = 0;
            assert(decreases_to!(*value => *vs));
            assert(vs@.take(0) =~= Seq::<JsonValue>::empty());
            while i < vs.len()
                invariant
                    i <= vs@.len(),
                    *value == JsonValue::Array(*vs),
                    decreases_to!(*value => *vs),
                    cleaned_elements(vs@.take(i as int), out@),
                decreases vs@.len() - i,
            {
                assert(vs@.take(i + 1).drop_last() =~= vs@.take(i as int));
                assert(vs@.take(i + 1).last() == vs@[i as int]);
                proof {
                    assert(decreases_to!(*vs => vs@));
                    assert(decreases_to!(vs@ => vs@[i as int]));
                }
                match sanitize_non_sensitive_value(&vs[i]) {
                    Some(v) => {
                        let ghost before = out@;
                        out.push(v);
                        assert(out@.drop_last() =~= before);
                    },
                    None => {},
                }
                i = i + 1;
            }
            assert(vs@.take(vs@.len() as int) =~= vs@);
            Some(JsonValue::Array(out))
        },
        JsonValue::Str(t) => {
            if contains_secret_text(t.as_str()) {
                None
            } else {
                Some(JsonValue::Str(t.clone()))
            }
        },
        JsonValue::Null => Some(JsonValue::Null),
        JsonValue::Bool(b) => Some(JsonValue::Bool(*b)),
        JsonValue::Number(text, n) => Some(JsonValue::Number(text.clone(), *n)),
    }
}

} // verus!

verus! {

/// A ledger entry that the import applies: a selected plain setting still pending.
pub open spec fn applies(e: LedgerEntryView) -> bool {
    e.selected && e.status == "pending"@ && e.group == "nonSensitiveConfig"@
}

/// The elements of the former array setting `array_key` that the applied
/// entries `es` name by index, when present and free of secrets, in entry order.
pub open spec fn indexed_sources(legacy: Seq<JsonMember>, es: Seq<LedgerEntryView>, array_key: Seq<char>) -> Seq<JsonValue>
    decreases es.len(),
{
    if es.len() == 0 {
        Seq::empty()
    } else {
        let prev = indexed_sources(legacy, es.drop_last(), array_key);
        let e = es.last();
        if applies(e) && (array_key == "relayProfiles"@ || indexed_key_spec(e.source_key, "relayProfiles"@) is None) {
            match indexed_key_spec(e.source_key, array_key) {
                Some(i) => match members_get(legacy, array_key) {
                    Some(JsonValue::Array(a)) => if i < a@.len() && !dropped_value(a@[i as int]) {
                        prev.push(a@[i as int])
                    } else {
                        prev
                    },
                    _ => prev,
                },
                None => prev,
            }
        } else {
            prev
        }
    }
}

/// An applied entry for a plain setting (not an indexed provider).
pub open spec fn plain_entry(e: LedgerEntryView) -> bool {
    applies(e) && indexed_key_spec(e.source_key, "relayProfiles"@) is None && indexed_key_spec(
        e.source_key,
        "aggregateRelayProfiles"@,
    ) is None
}

/// The former value of plain setting `k`, when an applied entry names it
/// and it is present and free of secrets.
pub open spec fn plain_source(legacy: Seq<JsonMember>, es: Seq<LedgerEntryView>, k: Seq<char>) -> Option<JsonValue> {
    if exists|j: int| 0 <= j < es.len() && plain_entry(#[trigger] es[j]) && es[j].source_key == k {
        match members_get(legacy, k) {
            Some(v) => if dropped_value(v) {
                None
            } else {
                Some(v)
            },
            None => None,
        }
    } else {
        None
    }
}

/// `rs` are the values `vs`, each cleaned of secrets.
pub open spec fn cleaned_all(vs: Seq<JsonValue>, rs: Seq<JsonValue>) -> bool {
    rs.len() == vs.len() && forall|k: int| 0 <= k < vs.len() ==> cleaned_value(vs[k], #[trigger] rs[k])
}

/// The settings that applying an import writes: each applied plain setting
/// (cleaned of secrets), and the applied relay and aggregate providers
/// (cleaned) under `relayProfiles` and `aggregateRelayProfiles` when there are any.
pub open spec fn payload_ok(legacy: Seq<JsonMember>, es: Seq<LedgerEntryView>, payload: Seq<JsonMember>) -> bool {
    let relays = indexed_sources(legacy, es, "relayProfiles"@);
    let aggs = indexed_sources(legacy, es, "aggregateRelayProfiles"@);
    forall|k: Seq<char>|
        #![trigger members_get(payload, k)]
        if k == "relayProfiles"@ && relays.len() > 0 {
            members_get(payload, k) matches Some(JsonValue::Array(rs)) && cleaned_all(relays, rs@)
        } else if k == "aggregateRelayProfiles"@ && aggs.len() > 0 {
            members_get(payload, k) matches Some(JsonValue::Array(rs)) && cleaned_all(aggs, rs@)
        } else {
            match plain_source(legacy, es, k) {
                Some(v) => members_get(payload, k) matches Some(x) && cleaned_value(v, x),
                None => members_get(payload, k) is None,
            }
        }
}

} // verus!

verus! {

/// The former value of a present setting, unless it carries a secret.
pub open spec fn clean_source(legacy: Seq<JsonMember>, k: Seq<char>) -> Option<JsonValue> {
    match members_get(legacy, k) {
        Some(v) => if dropped_value(v) {
            None
        } else {
            Some(v)
        },
        None => None,
    }
}

proof fn lemma_plain_source_step(legacy: Seq<JsonMember>, es: Seq<LedgerEntryView>, i: int, k: Seq<char>)
    requires
        0 <= i < es.len(),
    ensures
        plain_source(legacy, es.take(i + 1), k) == (if plain_entry(es[i]) && es[i].source_key == k {
            clean_source(legacy, k)
        } else {
            plain_source(legacy, es.take(i), k)
        }),
{
    let a = es.take(i);
    let b = es.take(i + 1);
    let ea = exists|j: int| 0 <= j < a.len() && plain_entry(#[trigger] a[j]) && a[j].source_key == k;
    let eb = exists|j: int| 0 <= j < b.len() && plain_entry(#[trigger] b[j]) && b[j].source_key == k;
    if ea {
        let j = choose|j: int| 0 <= j < a.len() && plain_entry(#[trigger] a[j]) && a[j].source_key == k;
        assert(b[j] == a[j]);
        assert(eb);
    }
    if plain_entry(es[i]) && es[i].source_key == k {
        assert(b[i] == es[i]);
        assert(eb);
    }
    if eb && !(plain_entry(es[i]) && es[i].source_key == k) {
        let j = choose|j: int| 0 <= j < b.len() && plain_entry(#[trigger] b[j]) && b[j].source_key == k;
        if j == i {
            assert(b[j] == es[i]);
        } else {
            assert(a[j] == b[j]);
            assert(ea);
        }
    }
}

/// The settings to write when applying an import: the applied plain
/// settings and providers of the ledger `entries`, taken from the former
/// settings `legacy` and cleaned of secrets.
pub fn build_non_sensitive_apply_payload(legacy: &Vec<JsonMember>, entries: &Vec<LegacyImportLedgerEntry>) -> (r: Vec<
    JsonMember,
>)
    ensures
        payload_ok(legacy@, ledger_view(entries@), r@),
{
    let ghost es = ledger_view(entries@);
    let mut payload: Vec<JsonMember> = Vec::new();
    let mut relays: Vec<JsonValue> = Vec::new();
    let mut aggs: Vec<JsonValue> = Vec::new();
    proof {
        assert(es.take(0) =~= Seq::<LedgerEntryView>::empty());
        assert forall|k: Seq<char>| #[trigger] members_get(payload@, k) is None && plain_source(legacy@, es.take(0), k) is None by {
        }
    }
    let mut i: usize = 0;
    while i < entries.len()
        invariant
            i <= entries@.len(),
            es == ledger_view(entries@),
            cleaned_all(indexed_sources(legacy@, es.take(i as int), "relayProfiles"@), relays@),
            cleaned_all(indexed_sources(legacy@, es.take(i as int), "aggregateRelayProfiles"@), aggs@),
            forall|k: Seq<char>|
                #![trigger members_get(payload@, k)]
                match plain_source(legacy@, es.take(i as int), k) {
                    Some(v) => members_get(payload@, k) matches Some(x) && cleaned_value(v, x),
                    None => members_get(payload@, k) is None,
                },
        decreases entries@.len() - i,
    {
        let e = &entries[i];
        assert(es[i as int] == e@);
        assert(es.take(i + 1).drop_last() =~= es.take(i as int));
        assert(es.take(i + 1).last() == e@);
        let ghost old_payload = payload@;
        let ghost old_relays = relays@;
        let ghost old_aggs = aggs@;
        let applied = e.selected && crate::text::str_eq(e.status.as_str(), "pending") && crate::text::str_eq(
            e.group.as_str(),
            "nonSensitiveConfig",
        );
        if applied {
            match indexed_source_key(e.source_key.as_str(), "relayProfiles") {
                Some(idx) => {
                    match members_get_exec(legacy, "relayProfiles") {
                        Some(JsonValue::Array(a)) => {
                            if idx < a.len() {
                                match sanitize_non_sensitive_value(&a[idx]) {
                                    Some(v) => {
                                        relays.push(v);
                                    },
                                    None => {},
                                }
                            }
                        },
                        _ => {},
                    }
                },
                None => {
                    match indexed_source_key(e.source_key.as_str(), "aggregateRelayProfiles") {
                        Some(idx) => {
                            match members_get_exec(legacy, "aggregateRelayProfiles") {
                                Some(JsonValue::Array(a)) => {
                                    if idx < a.len() {
                                        match sanitize_non_sensitive_value(&a[idx]) {
                                            Some(v) => {
                                                aggs.push(v);
                                            },
                                            None => {},
                                        }
                                    }
                                },
                                _ => {},
                            }
                        },
                        None => {
                            match members_get_exec(legacy, e.source_key.as_str()) {
                                Some(v) => match sanitize_non_sensitive_value(v) {
                                    Some(x) => {
                                        crate::json::members_set(&mut payload, e.source_key.as_str(), x);
                                    },
                                    None => {},
                                },
                                None => {},
                            }
                        },
                    }
                },
            }
        }
        proof {
            reveal_strlit("relayProfiles");
            reveal_strlit("aggregateRelayProfiles");
            assert("relayProfiles"@.len() != "aggregateRelayProfiles"@.len());
            let ik = indexed_sources(legacy@, es.take(i + 1), "relayProfiles"@);
            let ia = indexed_sources(legacy@, es.take(i + 1), "aggregateRelayProfiles"@);
            assert(forall|x: int| 0 <= x < old_relays.len() ==> relays@[x] == old_relays[x]);
            assert(forall|x: int| 0 <= x < old_aggs.len() ==> aggs@[x] == old_aggs[x]);
            assert forall|k: Seq<char>|
                #![trigger members_get(payload@, k)]
                match plain_source(legacy@, es.take(i + 1), k) {
                    Some(v) => members_get(payload@, k) matches Some(x) && cleaned_value(v, x),
                    None => members_get(payload@, k) is None,
                } by {
                lemma_plain_source_step(legacy@, es, i as int, k);
                assert(members_get(old_payload, k) == members_get(old_payload, k));
            }
        }
        i = i + 1;
    }
    assert(es.take(es.len() as int) =~= es);
    let ghost before_arrays = payload@;
    if relays.len() > 0 {
        crate::json::members_set(&mut payload, "relayProfiles", JsonValue::Array(relays));
    }
    let ghost mid = payload@;
    if aggs.len() > 0 {
        crate::json::members_set(&mut payload, "aggregateRelayProfiles", JsonValue::Array(aggs));
    }
    proof {
        reveal_strlit("relayProfiles");
        reveal_strlit("aggregateRelayProfiles");
        assert("relayProfiles"@.len() != "aggregateRelayProfiles"@.len());
        assert forall|k: Seq<char>|
            #![trigger members_get(payload@, k)]
            k != "relayProfiles"@ && k != "aggregateRelayProfiles"@ implies members_get(payload@, k) == members_get(
                before_arrays,
                k,
            ) by {
            assert(members_get(payload@, k) == members_get(mid, k));
            assert(members_get(mid, k) == members_get(before_arrays, k));
        }
        assert(members_get(payload@, "relayProfiles"@) == members_get(mid, "relayProfiles"@));
    }
    payload
}

} // verus!

verus! {

/// Applying an import again changes nothing more: each entry keeps the
/// status the first application gave it, and is counted the same way.
pub proof fn law_apply_is_idempotent(v: Seq<LedgerEntryView>)
    ensures
        v.map_values(|e: LedgerEntryView| applied_entry(e)).map_values(|e: LedgerEntryView| applied_entry(e))
            == v.map_values(|e: LedgerEntryView| applied_entry(e)),
        applied_counts(v.map_values(|e: LedgerEntryView| applied_entry(e))) == applied_counts(v),
{
    let w = v.map_values(|e: LedgerEntryView| applied_entry(e));
    assert(w.map_values(|e: LedgerEntryView| applied_entry(e)) =~= w);
    assert forall|k: int| 0 <= k < 4 implies w.filter(class_pred(k)).len() == v.filter(class_pred(k)).len() by {
        lemma_filter_map_class(v, k);
    }
    assert(w.filter(class_pred(0)).len() == v.filter(class_pred(0)).len());
    assert(w.filter(class_pred(1)).len() == v.filter(class_pred(1)).len());
    assert(w.filter(class_pred(2)).len() == v.filter(class_pred(2)).len());
    assert(w.filter(class_pred(3)).len() == v.filter(class_pred(3)).len());
}

/// Entries keep their class when the import is applied.
proof fn lemma_filter_map_class(v: Seq<LedgerEntryView>, k: int)
    ensures
        v.map_values(|e: LedgerEntryView| applied_entry(e)).filter(class_pred(k)).len() == v.filter(class_pred(k)).len(),
    decreases v.len(),
{
    let w = v.map_values(|e: LedgerEntryView| applied_entry(e));
    if v.len() > 0 {
        lemma_filter_map_class(v.drop_last(), k);
        assert(w.drop_last() =~= v.drop_last().map_values(|e: LedgerEntryView| applied_entry(e)));
        assert(applied_class(applied_entry(v.last())) == applied_class(v.last()));
        assert(w.last() == applied_entry(v.last()));
        assert(w.filter(class_pred(k)) == if class_pred(k)(w.last()) {
            w.drop_last().filter(class_pred(k)).push(w.last())
        } else {
            w.drop_last().filter(class_pred(k))
        }) by {
            reveal(Seq::filter);
        }
        assert(v.filter(class_pred(k)) == if class_pred(k)(v.last()) {
            v.drop_last().filter(class_pred(k)).push(v.last())
        } else {
            v.drop_last().filter(class_pred(k))
        }) by {
            reveal(Seq::filter);
        }
    } else {
        assert(w =~= Seq::<LedgerEntryView>::empty());
        assert(w.filter(class_pred(k)) =~= Seq::<LedgerEntryView>::empty());
        assert(v.filter(class_pred(k)) =~= Seq::<LedgerEntryView>::empty());
    }
}

/// A rollback after an import marks exactly the entries the import
/// counted as imported.
pub proof fn law_rollback_marks_the_imported(v: Seq<LedgerEntryView>)
    ensures
        v.map_values(|e: LedgerEntryView| applied_entry(e)).filter(success_pred()).len() == applied_counts(v).0,
{
    let w = v.map_values(|e: LedgerEntryView| applied_entry(e));
    lemma_filter_map_class(v, 0);
    assert(w.filter(success_pred()) =~= w.filter(class_pred(0))) by {
        lemma_filter_same(w, success_pred(), class_pred(0));
    }
}

/// Filters by two tests that agree on the applied entries are the same.
proof fn lemma_filter_same(w: Seq<LedgerEntryView>, p: spec_fn(LedgerEntryView) -> bool, q: spec_fn(LedgerEntryView) -> bool)
    requires
        forall|i: int| 0 <= i < w.len() ==> p(#[trigger] w[i]) == q(w[i]),
    ensures
        w.filter(p) == w.filter(q),
    decreases w.len(),
{
    reveal(Seq::filter);
    if w.len() > 0 {
        assert forall|i: int| 0 <= i < w.drop_last().len() implies p(#[trigger] w.drop_last()[i]) == q(w.drop_last()[i]) by {
            assert(w.drop_last()[i] == w[i]);
        }
        lemma_filter_same(w.drop_last(), p, q);
        assert(p(w.last()) == q(w.last()));
    }
}

} // verus!
