//! Protecting the packaged (AppX) Codex app's GPU shader cache: where the
//! cache lives, whether the package is healthy, and what to do with the path.
use vstd::prelude::*;

use crate::text::{
    concat2, concat3, first_where, lemma_first_where, lower, lower_chars, owned, rows, slice_chars,
    split_any, split_by, str_chars, str_lines, string_from, trim, trim_chars,
};

verus! {

/// What the guard did.
#[derive(Debug, Clone, Copy, PartialEq, Eq, Structural)]
pub enum GpuCacheGuardAction {
    NotPackagedApp,
    SkippedAppRunning,
    AlreadyProtected,
    Created,
    ReplacedDirectory,
    NormalizedFile,
}

impl GpuCacheGuardAction {
    /// The name the action is logged under.
    pub fn as_str(self) -> (r: &'static str)
        ensures
            r@ == action_name(self),
    {
        match self {
            GpuCacheGuardAction::NotPackagedApp => "not_packaged_app",
            GpuCacheGuardAction::SkippedAppRunning => "skipped_app_running",
            GpuCacheGuardAction::AlreadyProtected => "already_protected",
            GpuCacheGuardAction::Created => "created",
            GpuCacheGuardAction::ReplacedDirectory => "replaced_directory",
            GpuCacheGuardAction::NormalizedFile => "normalized_file",
        }
    }
}

/// The name an action is logged under.
pub open spec fn action_name(a: GpuCacheGuardAction) -> Seq<char> {
    match a {
        GpuCacheGuardAction::NotPackagedApp => "not_packaged_app"@,
        GpuCacheGuardAction::SkippedAppRunning => "skipped_app_running"@,
        GpuCacheGuardAction::AlreadyProtected => "already_protected"@,
        GpuCacheGuardAction::Created => "created"@,
        GpuCacheGuardAction::ReplacedDirectory => "replaced_directory"@,
        GpuCacheGuardAction::NormalizedFile => "normalized_file"@,
    }
}

/// What the guard did, with the sentinel and backup paths it used.
#[derive(Debug, Clone)]
pub struct GpuCacheGuardResult {
    pub action: GpuCacheGuardAction,
    pub sentinel_path: Option<String>,
    pub backup_path: Option<String>,
}

impl GpuCacheGuardResult {
    /// A result with no paths.
    pub fn without_paths(action: GpuCacheGuardAction) -> (r: GpuCacheGuardResult)
        ensures
            r.action == action,
            r.sentinel_path is None,
            r.backup_path is None,
    {
        GpuCacheGuardResult { action, sentinel_path: None, backup_path: None }
    }
}

/// A character allowed in a path component taken from a package name.
pub open spec fn is_safe_char(c: char) -> bool {
    ('0' <= c && c <= '9') || ('a' <= c && c <= 'z') || ('A' <= c && c <= 'Z') || c == '.' || c == '-'
        || c == '_'
}

/// A path component that cannot leave its directory: not empty, not `.` or
/// `..`, and made of ASCII letters, digits, `.`, `-` and `_` only.
pub open spec fn is_safe_component(v: Seq<char>) -> bool {
    &&& v.len() > 0
    &&& v != seq!['.']
    &&& v != seq!['.', '.']
    &&& forall|i: int| 0 <= i < v.len() ==> is_safe_char(#[trigger] v[i])
}

/// Whether `value` is a safe path component.
pub fn is_safe_path_component(value: &[char]) -> (r: bool)
    ensures
        r == is_safe_component(value@),
{
    if value.len() == 0 {
        return false;
    }
    if value.len() == 1 && value[0] == '.' {
        assert(value@ =~= seq!['.']);
        return false;
    }
    if value.len() == 2 && value[0] == '.' && value[1] == '.' {
        assert(value@ =~= seq!['.', '.']);
        return false;
    }
    let mut i: usize = 0;
    while i < value.len()
        invariant
            i <= value@.len(),
            forall|j: int| 0 <= j < i ==> is_safe_char(#[trigger] value@[j]),
        decreases value@.len() - i,
    {
        let c = value[i];
        let ok = ('0' <= c && c <= '9') || ('a' <= c && c <= 'z') || ('A' <= c && c <= 'Z') || c == '.'
            || c == '-' || c == '_';
        if !ok {
            return false;
        }
        i = i + 1;
    }
    true
}

/// The components of a path written with `/` or `\` separators.
pub open spec fn path_parts(path: Seq<char>) -> Seq<Seq<char>> {
    split_by(path, |c: char| seq!['/', '\\'].contains(c))
}

/// The pieces of a package directory name between its `_` separators.
pub open spec fn name_parts(name: Seq<char>) -> Seq<Seq<char>> {
    split_by(name, |c: char| seq!['_'].contains(c))
}

/// The application user model id of a packaged app installed in `app_dir`:
/// the app lives in the `app` directory of its package directory, named
/// `Name_Version_Architecture__PublisherId`; the id is `Name_PublisherId!App`.
pub open spec fn app_user_model_id_spec(app_dir: Seq<char>) -> Option<Seq<char>> {
    let parts = path_parts(app_dir);
    if parts.len() < 2 || lower(parts.last()) != "app"@ {
        None
    } else {
        let pieces = name_parts(parts[parts.len() - 2]);
        if pieces.len() != 5 || pieces[0].len() == 0 || pieces[4].len() == 0 || pieces[3].len() != 0 {
            None
        } else {
            Some(pieces[0] + seq!['_'] + pieces[4] + "!App"@)
        }
    }
}

/// The application user model id of a packaged app installed in `app_dir`.
pub fn packaged_app_user_model_id(app_dir: &str) -> (r: Option<String>)
    ensures
        match r {
            Some(s) => app_user_model_id_spec(app_dir@) == Some(s@),
            None => app_user_model_id_spec(app_dir@) is None,
        },
{
    let v = str_chars(app_dir);
    let seps: Vec<char> = vec!['/', '\\'];
    assert(seps@ =~= seq!['/', '\\']);
    let parts = split_any(v.as_slice(), seps.as_slice());
    assert(rows(parts@) == path_parts(app_dir@));
    let n = parts.len();
    if n < 2 {
        return None;
    }
    let last = lower_chars(parts[n - 1].as_slice());
    let app = str_chars("app");
    if !crate::text::chars_eq(last.as_slice(), app.as_slice()) {
        return None;
    }
    assert(rows(parts@)[n - 1] == parts@[n - 1]@);
    let under: Vec<char> = vec!['_'];
    assert(under@ =~= seq!['_']);
    let pieces = split_any(parts[n - 2].as_slice(), under.as_slice());
    assert(rows(parts@)[n - 2] == parts@[n - 2]@);
    assert(rows(pieces@) == name_parts(path_parts(app_dir@)[n - 2]));
    if pieces.len() != 5 || pieces[0].len() == 0 || pieces[4].len() == 0 || pieces[3].len() != 0 {
        if pieces.len() == 5 {
            assert(rows(pieces@)[0] == pieces@[0]@);
            assert(rows(pieces@)[3] == pieces@[3]@);
            assert(rows(pieces@)[4] == pieces@[4]@);
        }
        return None;
    }
    assert(rows(pieces@)[0] == pieces@[0]@);
    assert(rows(pieces@)[4] == pieces@[4]@);
    let mut out = slice_chars(pieces[0].as_slice(), 0, pieces[0].len());
    out.push('_');
    let ghost head = out@;
    let mut i: usize = 0;
    while i < pieces[4].len()
        invariant
            pieces@.len() == 5,
            i <= pieces@[4]@.len(),
            out@ == head + pieces@[4]@.take(i as int),
        decreases pieces@[4]@.len() - i,
    {
        out.push(pieces[4][i]);
        assert(pieces@[4]@.take(i as int + 1) =~= pieces@[4]@.take(i as int).push(pieces@[4]@[i as int]));
        i = i + 1;
    }
    assert(pieces@[4]@.take(pieces@[4]@.len() as int) =~= pieces@[4]@);
    assert(pieces@[0]@.subrange(0, pieces@[0]@.len() as int) =~= pieces@[0]@);
    crate::text::append_str(&mut out, "!App");
    Some(string_from(out.as_slice()))
}

/// The package family of a packaged app: the part of its user model id
/// before `!`, when an app name follows and the family is a safe path component.
pub open spec fn family_name_spec(app_dir: Seq<char>) -> Option<Seq<char>> {
    match app_user_model_id_spec(app_dir) {
        None => None,
        Some(id) => match first_where(id, |c: char| c == '!') {
            None => None,
            Some(k) => if k + 1 < id.len() && is_safe_component(id.take(k)) {
                Some(id.take(k))
            } else {
                None
            },
        },
    }
}

/// The package family name of the packaged app installed in `app_dir`.
pub fn packaged_app_family_name(app_dir: &str) -> (r: Option<String>)
    ensures
        match r {
            Some(s) => family_name_spec(app_dir@) == Some(s@),
            None => family_name_spec(app_dir@) is None,
        },
{
    let id = match packaged_app_user_model_id(app_dir) {
        Some(id) => id,
        None => return None,
    };
    let v = str_chars(id.as_str());
    let bang: Vec<char> = vec!['!'];
    let k = crate::text::find_any_from(v.as_slice(), bang.as_slice(), 0);
    proof {
        lemma_first_where(v@, |c: char| c == '!');
        assert(bang@ =~= seq!['!']);
        match first_where(v@, |c: char| c == '!') {
            Some(j) => {
                if j < k {
                    assert(bang@.contains(v@[j]));
                }
                if k < j {
                    assert(bang@.contains(v@[k as int]));
                }
            },
            None => {
                if k < v@.len() {
                    assert(bang@.contains(v@[k as int]));
                    let w = choose|w: int| 0 <= w < bang@.len() && bang@[w] == v@[k as int];
                }
            },
        }
    }
    if k >= v.len() || k + 1 >= v.len() {
        return None;
    }
    let family = slice_chars(v.as_slice(), 0, k);
    assert(v@.subrange(0, k as int) =~= v@.take(k as int));
    if !is_safe_path_component(family.as_slice()) {
        return None;
    }
    Some(string_from(family.as_slice()))
}

/// Where the GPU cache sits under a package's data directory.
pub open spec fn gpu_cache_relative() -> Seq<char> {
    "/LocalCache/Roaming/Codex/web/Codex/GPUPersistentCache"@
}

/// The path of the GPU cache sentinel of the packaged app in `app_dir`,
/// under the local application data directory `local_appdata`.
pub fn gpu_cache_sentinel_path(app_dir: &str, local_appdata: &str) -> (r: Option<String>)
    ensures
        match family_name_spec(app_dir@) {
            Some(f) => r is Some && r->0@ == local_appdata@ + "/Packages/"@ + f + gpu_cache_relative(),
            None => r is None,
        },
{
    let family = match packaged_app_family_name(app_dir) {
        Some(f) => f,
        None => return None,
    };
    let root = concat3(local_appdata, "/Packages/", family.as_str());
    Some(concat2(root.as_str(), "/LocalCache/Roaming/Codex/web/Codex/GPUPersistentCache"))
}

/// The package name of a package family `Name_PublisherId`: the part before
/// the last `_`, when both parts are safe path components.
pub fn package_name_from_family(family: &str) -> (r: Option<String>)
    ensures
        match r {
            Some(n) => exists|k: int|
                0 <= k < family@.len() && family@[k] == '_' && (forall|j: int| k < j < family@.len() ==> family@[j] != '_')
                    && n@ == family@.take(k) && is_safe_component(family@.take(k)) && is_safe_component(
                    family@.skip(k + 1),
                ),
            None => forall|k: int|
                0 <= k < family@.len() && family@[k] == '_' && (forall|j: int| k < j < family@.len() ==> family@[j] != '_')
                    ==> !(is_safe_component(family@.take(k)) && is_safe_component(family@.skip(k + 1))),
        },
{
    let v = str_chars(family);
    let mut k: usize = v.len();
    while k > 0 && v[k - 1] != '_'
        invariant
            k <= v@.len(),
            forall|j: int| k <= j < v@.len() ==> v@[j] != '_',
        decreases k,
    {
        k = k - 1;
    }
    if k == 0 {
        return None;
    }
    let pos = k - 1;
    let name = slice_chars(v.as_slice(), 0, pos);
    let publisher = slice_chars(v.as_slice(), pos + 1, v.len());
    assert(v@.subrange(0, pos as int) =~= v@.take(pos as int));
    assert(v@.subrange(pos + 1, v@.len() as int) =~= v@.skip(pos + 1));
    if !is_safe_path_component(name.as_slice()) || !is_safe_path_component(publisher.as_slice()) {
        assert forall|k2: int|
            0 <= k2 < family@.len() && family@[k2] == '_' && (forall|j: int| k2 < j < family@.len() ==> family@[j] != '_')
            implies !(is_safe_component(family@.take(k2)) && is_safe_component(family@.skip(k2 + 1))) by {
            if k2 < pos {
                assert(family@[pos as int] == '_');
            }
        }
        return None;
    }
    Some(string_from(name.as_slice()))
}

/// The first non-blank line of the output, trimmed.
pub open spec fn first_status_line(ls: Seq<Seq<char>>) -> Option<Seq<char>>
    decreases ls.len(),
{
    if ls.len() == 0 {
        None
    } else if trim(ls[0]).len() > 0 {
        Some(trim(ls[0]))
    } else {
        first_status_line(ls.drop_first())
    }
}

/// The package status printed by the status query: its first non-blank line.
pub fn parse_appx_package_status_output(output: &str) -> (r: Option<String>)
    ensures
        match r {
            Some(s) => first_status_line(crate::text::lines(output@)) == Some(s@),
            None => first_status_line(crate::text::lines(output@)) is None,
        },
{
    let ls = str_lines(output);
    let ghost all = rows(ls@);
    let mut i: usize = 0;
    assert(all.subrange(0, all.len() as int) =~= all);
    while i < ls.len()
        invariant
            i <= ls@.len(),
            all == rows(ls@),
            all == crate::text::lines(output@),
            first_status_line(all) == first_status_line(all.subrange(i as int, all.len() as int)),
        decreases ls@.len() - i,
    {
        let ghost rest = all.subrange(i as int, all.len() as int);
        assert(rest[0] == ls@[i as int]@);
        assert(rest.drop_first() =~= all.subrange(i + 1, all.len() as int));
        let t = trim_chars(ls[i].as_slice());
        if t.len() > 0 {
            return Some(string_from(t.as_slice()));
        }
        i = i + 1;
    }
    None
}

/// Why the guard refuses to go on.
#[derive(Debug, Clone)]
pub enum GpuCacheError {
    /// The AppX package is not in the `Ok` state.
    UnhealthyPackage { status: String },
}

impl GpuCacheError {
    /// The message shown for this error.
    pub fn message(&self) -> (r: String)
        ensures
            match self {
                GpuCacheError::UnhealthyPackage { status } => r@ == "ChatGPT AppX package status is "@ + status@
                    + "; GPU cache protection cannot repair a damaged AppX package"@,
            },
    {
        match self {
            GpuCacheError::UnhealthyPackage { status } => concat3(
                "ChatGPT AppX package status is ",
                status.as_str(),
                "; GPU cache protection cannot repair a damaged AppX package",
            ),
        }
    }
}

/// Accepts only a healthy package: status `Ok`, in any ASCII case.
pub fn validate_appx_package_status(package_status: &str) -> (r: Result<(), GpuCacheError>)
    ensures
        match r {
            Ok(()) => lower(package_status@) == "ok"@,
            Err(GpuCacheError::UnhealthyPackage { status }) => lower(package_status@) != "ok"@ && status@
                == package_status@,
        },
{
    let l = lower_chars(str_chars(package_status).as_slice());
    let ok = str_chars("ok");
    if crate::text::chars_eq(l.as_slice(), ok.as_slice()) {
        Ok(())
    } else {
        Err(GpuCacheError::UnhealthyPackage { status: owned(package_status) })
    }
}

/// The guard on systems without packaged apps: there is nothing to protect.
pub fn protect_packaged_gpu_cache_before_launch(app_dir: &str) -> (r: Result<GpuCacheGuardResult, GpuCacheError>)
    ensures
        r matches Ok(res) && res.action == GpuCacheGuardAction::NotPackagedApp && res.sentinel_path is None
            && res.backup_path is None,
{
    Ok(GpuCacheGuardResult::without_paths(GpuCacheGuardAction::NotPackagedApp))
}

/// What is found at the sentinel path.
#[derive(Debug, Clone, Copy, PartialEq, Eq, Structural)]
pub enum SentinelEntry {
    Missing,
    SymbolicLink,
    Directory,
    /// An empty file that already has the read-only and hidden attributes.
    ProtectedFile,
    /// Any other regular file.
    OtherFile,
    /// Neither a file nor a directory.
    Other,
}

/// The next step of the guard.
#[derive(Debug, Clone, Copy, PartialEq, Eq, Structural)]
pub enum GpuCacheStep {
    /// Stop with this action and no paths.
    Skip(GpuCacheGuardAction),
    /// Create the sentinel file.
    CreateSentinel,
    /// Move the cache directory to a backup, then create the sentinel.
    BackupThenCreate,
    /// The sentinel is already in place.
    KeepSentinel,
    /// Empty the file and give it the sentinel's attributes.
    NormalizeFile,
    /// Refuse: a symbolic link.
    RefuseSymlink,
    /// Refuse: neither file nor directory.
    RefuseOther,
}

/// The guard's decision: leave unpackaged apps and running apps alone;
/// otherwise create, replace or repair the sentinel, refusing links and
/// special files.
pub open spec fn gpu_step_spec(packaged: bool, app_running: bool, entry: SentinelEntry) -> GpuCacheStep {
    if !packaged {
        GpuCacheStep::Skip(GpuCacheGuardAction::NotPackagedApp)
    } else if app_running {
        GpuCacheStep::Skip(GpuCacheGuardAction::SkippedAppRunning)
    } else {
        match entry {
            SentinelEntry::Missing => GpuCacheStep::CreateSentinel,
            SentinelEntry::SymbolicLink => GpuCacheStep::RefuseSymlink,
            SentinelEntry::Directory => GpuCacheStep::BackupThenCreate,
            SentinelEntry::ProtectedFile => GpuCacheStep::KeepSentinel,
            SentinelEntry::OtherFile => GpuCacheStep::NormalizeFile,
            SentinelEntry::Other => GpuCacheStep::RefuseOther,
        }
    }
}

/// The guard's decision for one run.
pub fn gpu_cache_step(packaged: bool, app_running: bool, entry: SentinelEntry) -> (r: GpuCacheStep)
    ensures
        r == gpu_step_spec(packaged, app_running, entry),
{
    if !packaged {
        return GpuCacheStep::Skip(GpuCacheGuardAction::NotPackagedApp);
    }
    if app_running {
        return GpuCacheStep::Skip(GpuCacheGuardAction::SkippedAppRunning);
    }
    match entry {
        SentinelEntry::Missing => GpuCacheStep::CreateSentinel,
        SentinelEntry::SymbolicLink => GpuCacheStep::RefuseSymlink,
        SentinelEntry::Directory => GpuCacheStep::BackupThenCreate,
        SentinelEntry::ProtectedFile => GpuCacheStep::KeepSentinel,
        SentinelEntry::OtherFile => GpuCacheStep::NormalizeFile,
        SentinelEntry::Other => GpuCacheStep::RefuseOther,
    }
}

/// The name of the `suffix`-th candidate backup of a cache directory.
pub fn backup_name(family: &str, timestamp_ms: u64, suffix: u16) -> (r: String)
    ensures
        r@ == (if suffix == 0 {
            family@ + "-"@ + crate::text::decimal(timestamp_ms as nat)
        } else {
            family@ + "-"@ + crate::text::decimal(timestamp_ms as nat) + "-"@ + crate::text::decimal(suffix as nat)
        }),
{
    let ts = crate::text::decimal_string(timestamp_ms);
    let base = concat3(family, "-", ts.as_str());
    if suffix == 0 {
        base
    } else {
        let s = crate::text::decimal_string(suffix as u64);
        concat3(base.as_str(), "-", s.as_str())
    }
}


/// The guard is idempotent: once the sentinel is in place (an empty
/// protected file), a later run of a stopped packaged app keeps it and
/// changes nothing.
pub proof fn law_protected_sentinel_is_kept()
    ensures
        gpu_step_spec(true, false, SentinelEntry::ProtectedFile) == GpuCacheStep::KeepSentinel,
{
}

/// A running app is never touched: whatever is found, the guard skips.
pub proof fn law_running_app_is_left_alone(entry: SentinelEntry)
    ensures
        gpu_step_spec(true, true, entry) == GpuCacheStep::Skip(GpuCacheGuardAction::SkippedAppRunning),
{
}

/// What is found at the sentinel path once `step` has been carried out on
/// `entry`: the steps that create, replace or repair the sentinel leave a
/// protected empty file; skipping and refusing leave the entry as it was.
pub open spec fn entry_after(step: GpuCacheStep, entry: SentinelEntry) -> SentinelEntry {
    match step {
        GpuCacheStep::CreateSentinel => SentinelEntry::ProtectedFile,
        GpuCacheStep::BackupThenCreate => SentinelEntry::ProtectedFile,
        GpuCacheStep::KeepSentinel => SentinelEntry::ProtectedFile,
        GpuCacheStep::NormalizeFile => SentinelEntry::ProtectedFile,
        _ => entry,
    }
}

/// Two runs of the guard on a stopped packaged app: whatever the first run
/// found, unless it refused (a link or a special file), the second run finds
/// the sentinel in place and keeps it.
pub proof fn law_second_run_keeps_sentinel(entry: SentinelEntry)
    requires
        entry != SentinelEntry::SymbolicLink,
        entry != SentinelEntry::Other,
    ensures
        gpu_step_spec(true, false, entry_after(gpu_step_spec(true, false, entry), entry)) == GpuCacheStep::KeepSentinel,
{
}

} // verus!
