//! Where the app keeps its state, and when the state of the app's former
//! name is carried over.
use vstd::prelude::*;

use crate::text::{concat2, concat3, owned};

verus! {

/// The directory, under the home directory, that holds the app's state.
pub const APP_STATE_DIR: &'static str = ".codex-deck";

/// The state directory of the app under its former name.
pub const LEGACY_APP_STATE_DIR: &'static str = ".codex-session-delete";

pub const SETTINGS_FILE: &'static str = "settings.json";

pub const LATEST_STATUS_FILE: &'static str = "latest-status.json";

pub const DIAGNOSTIC_LOG_FILE: &'static str = "codex-plus.log";

pub const PENDING_PROVIDER_IMPORT_FILE: &'static str = "pending-provider-import.json";

/// `dir` joined with the relative path `name`, with `/` between them.
pub open spec fn join_path(dir: Seq<char>, name: Seq<char>) -> Seq<char> {
    if dir.len() == 0 || dir.last() == '/' || dir.last() == '\\' {
        dir + name
    } else {
        dir + seq!['/'] + name
    }
}

/// Joins a relative path to a directory.
pub fn join_path_exec(dir: &str, name: &str) -> (r: String)
    ensures
        r@ == join_path(dir@, name@),
{
    let d = crate::text::str_chars(dir);
    if d.len() == 0 || d[d.len() - 1] == '/' || d[d.len() - 1] == '\\' {
        concat2(dir, name)
    } else {
        proof {
            reveal_strlit("/");
        }
        concat3(dir, "/", name)
    }
}

/// The user's home directory from `directories::BaseDirs`, as text. It comes
/// from the environment: nothing is stated of it, and it is missing when the
/// crate finds no home directory or the path is not Unicode.
#[verifier::external_body]
fn home_dir_text() -> Option<String> {
    directories::BaseDirs::new().and_then(|dirs| dirs.home_dir().to_str().map(|s| s.to_string()))
}

/// The app's state directory given the home directory, if there is one.
pub open spec fn state_dir_in(home: Option<Seq<char>>, name: Seq<char>) -> Seq<char> {
    match home {
        Some(h) => join_path(h, name),
        None => name,
    }
}

/// The directory that holds the app's state: `.codex-deck` in the home directory.
pub fn default_app_state_dir() -> (r: String)
    ensures
        exists|home: Option<Seq<char>>| r@ == state_dir_in(home, APP_STATE_DIR@),
{
    let home = home_dir_text();
    let r = match &home {
        Some(h) => join_path_exec(h.as_str(), APP_STATE_DIR),
        None => owned(APP_STATE_DIR),
    };
    let ghost hv = match home {
        Some(h) => Some(h@),
        None => None::<Seq<char>>,
    };
    assert(r@ == state_dir_in(hv, APP_STATE_DIR@));
    r
}

/// The state directory of the app under its former name.
pub fn default_legacy_app_state_dir() -> (r: String)
    ensures
        exists|home: Option<Seq<char>>| r@ == state_dir_in(home, LEGACY_APP_STATE_DIR@),
{
    let home = home_dir_text();
    let r = match &home {
        Some(h) => join_path_exec(h.as_str(), LEGACY_APP_STATE_DIR),
        None => owned(LEGACY_APP_STATE_DIR),
    };
    let ghost hv = match home {
        Some(h) => Some(h@),
        None => None::<Seq<char>>,
    };
    assert(r@ == state_dir_in(hv, LEGACY_APP_STATE_DIR@));
    r
}

/// The settings file.
pub fn default_settings_path() -> (r: String)
    ensures
        exists|home: Option<Seq<char>>| r@ == join_path(state_dir_in(home, APP_STATE_DIR@), SETTINGS_FILE@),
{
    let dir = default_app_state_dir();
    join_path_exec(dir.as_str(), SETTINGS_FILE)
}

/// The file holding the latest launch status.
pub fn default_latest_status_path() -> (r: String)
    ensures
        exists|home: Option<Seq<char>>| r@ == join_path(state_dir_in(home, APP_STATE_DIR@), LATEST_STATUS_FILE@),
{
    let dir = default_app_state_dir();
    join_path_exec(dir.as_str(), LATEST_STATUS_FILE)
}

/// The diagnostic log.
pub fn default_diagnostic_log_path() -> (r: String)
    ensures
        exists|home: Option<Seq<char>>| r@ == join_path(state_dir_in(home, APP_STATE_DIR@), DIAGNOSTIC_LOG_FILE@),
{
    let dir = default_app_state_dir();
    join_path_exec(dir.as_str(), DIAGNOSTIC_LOG_FILE)
}

/// The file holding a provider import that waits for confirmation.
pub fn default_pending_provider_import_path() -> (r: String)
    ensures
        exists|home: Option<Seq<char>>| r@ == join_path(
            state_dir_in(home, APP_STATE_DIR@),
            PENDING_PROVIDER_IMPORT_FILE@,
        ),
{
    let dir = default_app_state_dir();
    join_path_exec(dir.as_str(), PENDING_PROVIDER_IMPORT_FILE)
}

/// The files a migration copied from the former state directory.
#[derive(Debug, Clone)]
pub struct LegacyAppStateMigration {
    pub copied_files: Vec<String>,
}

impl LegacyAppStateMigration {
    /// A migration that copied nothing.
    pub fn none() -> (r: LegacyAppStateMigration)
        ensures
            r.copied_files@.len() == 0,
    {
        LegacyAppStateMigration { copied_files: Vec::new() }
    }

    /// Whether anything was copied.
    pub fn migrated(&self) -> (r: bool)
        ensures
            r == (self.copied_files@.len() > 0),
    {
        self.copied_files.len() > 0
    }
}

/// What is found at a path.
#[derive(Debug, Clone, Copy, PartialEq, Eq, Structural)]
pub enum EntryKind {
    Missing,
    SymbolicLink,
    Directory,
    RegularFile,
    Other,
}

/// What the new state directory holds.
#[derive(Debug, Clone, Copy, PartialEq, Eq, Structural)]
pub enum TargetContents {
    /// Nothing, or only the diagnostic log as a regular file.
    OnlyRuntimeLog,
    /// The diagnostic log is there but is not a regular file.
    IrregularRuntimeLog,
    /// Something besides the diagnostic log.
    OtherEntries,
}

/// Why the state cannot be migrated.
#[derive(Debug, Clone, Copy, PartialEq, Eq, Structural)]
pub enum MigrationError {
    TargetIsSymlink,
    TargetNotDirectory,
    RuntimeLogNotRegular,
    LegacyIsSymlink,
    LegacyNotDirectory,
    /// The settings file (`0`) or the pending import file (`1`) is a link.
    FileIsSymlink(u8),
    /// The settings file (`0`) or the pending import file (`1`) is not a regular file.
    FileNotRegular(u8),
}

/// The outcome of looking at both state directories.
#[derive(Debug, Clone, Copy, PartialEq, Eq, Structural)]
pub enum MigrationPlan {
    /// Nothing to copy.
    Nothing,
    /// Copy the settings file and/or the pending import file.
    Copy { settings: bool, pending_import: bool },
    /// Refuse.
    Refuse(MigrationError),
}

/// The decision of the migration: state is copied only into a new state
/// directory that is missing or holds nothing but the diagnostic log, only
/// from a real former directory, and only regular files; links are refused.
pub open spec fn migration_plan_spec(
    same_root: bool,
    target: EntryKind,
    target_contents: TargetContents,
    legacy: EntryKind,
    settings_file: EntryKind,
    pending_file: EntryKind,
) -> MigrationPlan {
    if same_root {
        MigrationPlan::Nothing
    } else if target == EntryKind::SymbolicLink {
        MigrationPlan::Refuse(MigrationError::TargetIsSymlink)
    } else if target != EntryKind::Missing && target != EntryKind::Directory {
        MigrationPlan::Refuse(MigrationError::TargetNotDirectory)
    } else if target == EntryKind::Directory && target_contents == TargetContents::OtherEntries {
        MigrationPlan::Nothing
    } else if target == EntryKind::Directory && target_contents == TargetContents::IrregularRuntimeLog {
        MigrationPlan::Refuse(MigrationError::RuntimeLogNotRegular)
    } else if legacy == EntryKind::SymbolicLink {
        MigrationPlan::Refuse(MigrationError::LegacyIsSymlink)
    } else if legacy == EntryKind::Missing {
        MigrationPlan::Nothing
    } else if legacy != EntryKind::Directory {
        MigrationPlan::Refuse(MigrationError::LegacyNotDirectory)
    } else if settings_file == EntryKind::SymbolicLink {
        MigrationPlan::Refuse(MigrationError::FileIsSymlink(0))
    } else if settings_file != EntryKind::Missing && settings_file != EntryKind::RegularFile {
        MigrationPlan::Refuse(MigrationError::FileNotRegular(0))
    } else if pending_file == EntryKind::SymbolicLink {
        MigrationPlan::Refuse(MigrationError::FileIsSymlink(1))
    } else if pending_file != EntryKind::Missing && pending_file != EntryKind::RegularFile {
        MigrationPlan::Refuse(MigrationError::FileNotRegular(1))
    } else if settings_file == EntryKind::Missing && pending_file == EntryKind::Missing {
        MigrationPlan::Nothing
    } else {
        MigrationPlan::Copy {
            settings: settings_file == EntryKind::RegularFile,
            pending_import: pending_file == EntryKind::RegularFile,
        }
    }
}

/// Decides what the migration of the former state directory does.
pub fn migration_plan(
    same_root: bool,
    target: EntryKind,
    target_contents: TargetContents,
    legacy: EntryKind,
    settings_file: EntryKind,
    pending_file: EntryKind,
) -> (r: MigrationPlan)
    ensures
        r == migration_plan_spec(same_root, target, target_contents, legacy, settings_file, pending_file),
{
    if same_root {
        MigrationPlan::Nothing
    } else if target == EntryKind::SymbolicLink {
        MigrationPlan::Refuse(MigrationError::TargetIsSymlink)
    } else if target != EntryKind::Missing && target != EntryKind::Directory {
        MigrationPlan::Refuse(MigrationError::TargetNotDirectory)
    } else if target == EntryKind::Directory && target_contents == TargetContents::OtherEntries {
        MigrationPlan::Nothing
    } else if target == EntryKind::Directory && target_contents == TargetContents::IrregularRuntimeLog {
        MigrationPlan::Refuse(MigrationError::RuntimeLogNotRegular)
    } else if legacy == EntryKind::SymbolicLink {
        MigrationPlan::Refuse(MigrationError::LegacyIsSymlink)
    } else if legacy == EntryKind::Missing {
        MigrationPlan::Nothing
    } else if legacy != EntryKind::Directory {
        MigrationPlan::Refuse(MigrationError::LegacyNotDirectory)
    } else if settings_file == EntryKind::SymbolicLink {
        MigrationPlan::Refuse(MigrationError::FileIsSymlink(0))
    } else if settings_file != EntryKind::Missing && settings_file != EntryKind::RegularFile {
        MigrationPlan::Refuse(MigrationError::FileNotRegular(0))
    } else if pending_file == EntryKind::SymbolicLink {
        MigrationPlan::Refuse(MigrationError::FileIsSymlink(1))
    } else if pending_file != EntryKind::Missing && pending_file != EntryKind::RegularFile {
        MigrationPlan::Refuse(MigrationError::FileNotRegular(1))
    } else if settings_file == EntryKind::Missing && pending_file == EntryKind::Missing {
        MigrationPlan::Nothing
    } else {
        MigrationPlan::Copy {
            settings: settings_file == EntryKind::RegularFile,
            pending_import: pending_file == EntryKind::RegularFile,
        }
    }
}

/// Migration never overwrites a state directory in use: when the new
/// directory holds anything besides the diagnostic log, nothing is copied.
pub proof fn law_migration_keeps_existing_state(
    legacy: EntryKind,
    settings_file: EntryKind,
    pending_file: EntryKind,
)
    ensures
        !(migration_plan_spec(false, EntryKind::Directory, TargetContents::OtherEntries, legacy, settings_file, pending_file) is Copy),
{
}

/// The message of a migration error.
pub fn migration_error_message(e: MigrationError) -> (r: String)
    ensures
        r@ == match e {
            MigrationError::TargetIsSymlink => "Codex Deck state directory cannot be a symbolic link"@,
            MigrationError::TargetNotDirectory => "Codex Deck state path is not a directory"@,
            MigrationError::RuntimeLogNotRegular => "Codex Deck runtime log is not a regular file"@,
            MigrationError::LegacyIsSymlink => "legacy Codex++ state directory cannot be a symbolic link"@,
            MigrationError::LegacyNotDirectory => "legacy Codex++ state path is not a directory"@,
            MigrationError::FileIsSymlink(k) => "legacy state file "@ + (if k == 0 { SETTINGS_FILE@ } else { PENDING_PROVIDER_IMPORT_FILE@ }) + " cannot be a symbolic link"@,
            MigrationError::FileNotRegular(k) => "legacy state file "@ + (if k == 0 { SETTINGS_FILE@ } else { PENDING_PROVIDER_IMPORT_FILE@ }) + " is not a regular file"@,
        },
{
    match e {
        MigrationError::TargetIsSymlink => owned("Codex Deck state directory cannot be a symbolic link"),
        MigrationError::TargetNotDirectory => owned("Codex Deck state path is not a directory"),
        MigrationError::RuntimeLogNotRegular => owned("Codex Deck runtime log is not a regular file"),
        MigrationError::LegacyIsSymlink => owned("legacy Codex++ state directory cannot be a symbolic link"),
        MigrationError::LegacyNotDirectory => owned("legacy Codex++ state path is not a directory"),
        MigrationError::FileIsSymlink(k) => {
            let name = if k == 0 { SETTINGS_FILE } else { PENDING_PROVIDER_IMPORT_FILE };
            concat3("legacy state file ", name, " cannot be a symbolic link")
        },
        MigrationError::FileNotRegular(k) => {
            let name = if k == 0 { SETTINGS_FILE } else { PENDING_PROVIDER_IMPORT_FILE };
            concat3("legacy state file ", name, " is not a regular file")
        },
    }
}


/// The non-empty pieces among `pieces`, in order.
pub open spec fn nonempty_pieces(pieces: Seq<Seq<char>>) -> Seq<Seq<char>>
    decreases pieces.len(),
{
    if pieces.len() == 0 {
        Seq::empty()
    } else if pieces.last().len() == 0 {
        nonempty_pieces(pieces.drop_last())
    } else {
        nonempty_pieces(pieces.drop_last()).push(pieces.last())
    }
}

/// The components of a `/`-separated path without `.` or `..`: its
/// non-empty pieces.
pub open spec fn path_components(p: Seq<char>) -> Seq<Seq<char>> {
    nonempty_pieces(crate::text::split_by(p, |c: char| seq!['/'].contains(c)))
}

/// Whether `path` lies at or under `root` (`Path::starts_with` on canonical
/// paths): both absolute or both relative, and the components of `root` begin
/// those of `path`.
pub open spec fn within_root(path: Seq<char>, root: Seq<char>) -> bool {
    let a = path_components(path);
    let b = path_components(root);
    &&& crate::text::starts_with(path, seq!['/']) == crate::text::starts_with(root, seq!['/'])
    &&& b.len() <= a.len()
    &&& a.take(b.len() as int) == b
}

fn components_exec(p: &str) -> (r: Vec<Vec<char>>)
    ensures
        crate::text::rows(r@) == path_components(p@),
{
    let chars = crate::text::str_chars(p);
    let seps = vec!['/'];
    let pieces = crate::text::split_any(chars.as_slice(), seps.as_slice());
    assert(seps@ =~= seq!['/']);
    let ghost pv = crate::text::rows(pieces@);
    let mut out: Vec<Vec<char>> = Vec::new();
    let mut i: usize = 0;
    assert(crate::text::rows(out@) =~= nonempty_pieces(pv.take(0)));
    while i < pieces.len()
        invariant
            i <= pieces@.len(),
            pv == crate::text::rows(pieces@),
            crate::text::rows(out@) == nonempty_pieces(pv.take(i as int)),
        decreases pieces@.len() - i,
    {
        assert(pv.take(i + 1).drop_last() =~= pv.take(i as int));
        assert(pv.take(i + 1).last() == pieces@[i as int]@);
        if pieces[i].len() > 0 {
            let piece = crate::text::slice_chars(pieces[i].as_slice(), 0, pieces[i].len());
            assert(piece@ =~= pieces@[i as int]@);
            out.push(piece);
            assert(crate::text::rows(out@) =~= nonempty_pieces(pv.take(i as int)).push(pieces@[i as int]@));
        }
        i = i + 1;
    }
    assert(pv.take(pieces@.len() as int) =~= pv);
    out
}

/// Whether the canonical path `path` lies at or under the canonical path
/// `root`.
pub fn is_within_root(path: &str, root: &str) -> (r: bool)
    ensures
        r == within_root(path@, root@),
{
    let a = components_exec(path);
    let b = components_exec(root);
    let abs_a = crate::text::str_starts_with(path, "/");
    let abs_b = crate::text::str_starts_with(root, "/");
    proof {
        reveal_strlit("/");
        assert("/"@ =~= seq!['/']);
    }
    if abs_a != abs_b || b.len() > a.len() {
        return false;
    }
    let ghost av = crate::text::rows(a@);
    let ghost bv = crate::text::rows(b@);
    let mut i: usize = 0;
    while i < b.len()
        invariant
            i <= b@.len() <= a@.len(),
            av == crate::text::rows(a@),
            bv == crate::text::rows(b@),
            av == path_components(path@),
            bv == path_components(root@),
            forall|j: int| 0 <= j < i ==> av[j] == bv[j],
        decreases b@.len() - i,
    {
        if !crate::text::chars_eq(a[i].as_slice(), b[i].as_slice()) {
            assert(av[i as int] == a@[i as int]@);
            assert(bv[i as int] == b@[i as int]@);
            assert(av.take(bv.len() as int)[i as int] != bv[i as int]);
            assert(av.take(bv.len() as int) != bv);
            return false;
        }
        i = i + 1;
    }
    assert(av.take(bv.len() as int) =~= bv);
    true
}

} // verus!
