//! The history repair: choosing the buckets to merge, rewriting the history
//! files, migrating the state database and rebuilding the session index.
//! The caller reads what the repair needs, and carries out the returned
//! actions in order.

use vstd::prelude::*;
use crate::cc_switch::{
    cc_switch_model_provider, providers_view, resolve_target_provider_id, target_provider,
    CcSwitchSnapshot,
};
use crate::error::{ErrorData, RepairError};
use crate::import::opt_view;
use crate::index::{
    distinct_ids, entries_map, entry_of_text, entry_views, existing_map, index_order, merge_entries, opt_entry_views,
    scan_segments, sorted_entries,
    rebuild_session_index, index_entry_and_cwd_name, index_file_text, EntryData,
    SessionIndexEntry,
};
use crate::provider::{is_sync_source, is_sync_source_provider_id};
use crate::session::{
    add_text_provider_ids, lemma_rewrite_count_bound, providers_in_text, rewrite_count,
    rewrite_jsonl_text, rewrite_text,
};
use crate::text::{
    contains_string, insert_sorted, segments, seq_lt, str_eq, strictly_sorted, trim, trim_str, views,
};
use vstd::string::StringExecFns;

verus! {

/// A session history file, as read.
pub struct JsonlFile {
    pub path: String,
    /// The text that reading the file line by line yields, up to the first
    /// line that is not UTF-8: the whole file where it is all UTF-8.
    pub text: String,
    /// Why the file could not be opened.
    pub open_error: Option<String>,
    /// Why reading the whole file as UTF-8 text failed; set whenever
    /// `open_error` is.
    pub read_error: Option<String>,
}

/// The model of a [`JsonlFile`].
pub struct FileData {
    pub path: Seq<char>,
    pub text: Seq<char>,
    pub open_error: Option<Seq<char>>,
    pub read_error: Option<Seq<char>>,
}

impl View for JsonlFile {
    type V = FileData;

    open spec fn view(&self) -> FileData {
        FileData {
            path: self.path@,
            text: self.text@,
            open_error: opt_view(self.open_error),
            read_error: opt_view(self.read_error),
        }
    }
}

pub open spec fn files_view(s: Seq<JsonlFile>) -> Seq<FileData> {
    s.map_values(|f: JsonlFile| f@)
}

pub open spec fn counts_view(s: Seq<(String, usize)>) -> Seq<(Seq<char>, nat)> {
    s.map_values(|c: (String, usize)| (c.0@, c.1 as nat))
}

/// The buckets other than `target` that the history files record; a file
/// that cannot be opened is skipped.
pub open spec fn jsonl_ids(files: Seq<FileData>, target: Seq<char>) -> Set<Seq<char>>
    decreases files.len(),
{
    if files.len() == 0 {
        Set::empty()
    } else {
        let rest = jsonl_ids(files.drop_last(), target);
        if files.last().open_error is None {
            rest.union(providers_in_text(files.last().text, target))
        } else {
            rest
        }
    }
}

/// The buckets other than `target` that the state database records:
/// each distinct `model_provider`, trimmed, where not blank.
pub open spec fn state_ids(counts: Seq<(Seq<char>, nat)>, target: Seq<char>) -> Set<Seq<char>>
    decreases counts.len(),
{
    if counts.len() == 0 {
        Set::empty()
    } else {
        let rest = state_ids(counts.drop_last(), target);
        let id = trim(counts.last().0);
        if id.len() > 0 && id != target {
            rest.insert(id)
        } else {
            rest
        }
    }
}

/// The buckets whose sessions are moved into `target`: those recorded in
/// the history files or the state database that are sync sources.
pub open spec fn source_ids(
    files: Seq<FileData>,
    counts: Option<Seq<(Seq<char>, nat)>>,
    target: Seq<char>,
) -> Set<Seq<char>> {
    jsonl_ids(files, target).union(
        match counts {
            Some(c) => state_ids(c, target),
            None => Set::empty(),
        },
    ).filter(|id: Seq<char>| is_sync_source(id, target))
}

/// Keeps the buckets that are sync sources, in order.
fn retain_sync_sources(ids: &Vec<String>, target: &str) -> (r: Vec<String>)
    requires
        strictly_sorted(views(ids@)),
    ensures
        strictly_sorted(views(r@)),
        views(r@).to_set() == views(ids@).to_set().filter(|id: Seq<char>| is_sync_source(id, target@)),
{
    let ghost old_v = views(ids@);
    let mut r: Vec<String> = Vec::new();
    let mut i: usize = 0;
    while i < ids.len()
        invariant
            i <= ids.len(),
            old_v == views(ids@),
            old_v.len() == ids.len(),
            strictly_sorted(old_v),
            strictly_sorted(views(r@)),
            forall|k: int, j: int|
                0 <= k < r.len() && i <= j < old_v.len() ==> seq_lt(#[trigger] views(r@)[k], #[trigger] old_v[j]),
            views(r@).to_set() == old_v.take(i as int).to_set().filter(|id: Seq<char>| is_sync_source(id, target@)),
        decreases ids.len() - i,
    {
        let ghost before = views(r@);
        let ghost x = old_v[i as int];
        assert(x == ids@[i as int]@);
        if is_sync_source_provider_id(ids[i].as_str(), target) {
            r.push(ids[i].clone());
            proof {
                let nv = views(r@);
                assert(nv =~= before.push(x));
                assert forall|a: int, b: int| 0 <= a < b < nv.len() implies seq_lt(#[trigger] nv[a], #[trigger] nv[b]) by {
                    if b == nv.len() - 1 {
                        assert(nv[a] == before[a]);
                        assert(seq_lt(before[a], old_v[i as int]));
                    } else {
                        assert(nv[a] == before[a] && nv[b] == before[b]);
                    }
                }
                assert forall|k: int, j: int| 0 <= k < nv.len() && i + 1 <= j < old_v.len() implies seq_lt(#[trigger] nv[k], #[trigger] old_v[j]) by {
                    if k == nv.len() - 1 {
                        assert(seq_lt(old_v[i as int], old_v[j]));
                    } else {
                        assert(nv[k] == before[k]);
                    }
                }
            }
        }
        proof {
            let nv = views(r@);
            let f = |id: Seq<char>| is_sync_source(id, target@);
            assert(old_v.take(i + 1) =~= old_v.take(i as int).push(x));
            old_v.take(i as int).lemma_push_to_set_commute(x);
            assert(old_v.take(i + 1).to_set() =~= old_v.take(i as int).to_set().insert(x));
            if is_sync_source(x, target@) {
                before.lemma_push_to_set_commute(x);
                assert(nv.to_set() =~= before.to_set().insert(x));
                assert(old_v.take(i as int).to_set().insert(x).filter(f) =~= old_v.take(i as int).to_set().filter(f).insert(x));
            } else {
                assert(old_v.take(i as int).to_set().insert(x).filter(f) =~= old_v.take(i as int).to_set().filter(f));
            }
        }
        i = i + 1;
    }
    assert(old_v.take(ids.len() as int) =~= old_v);
    r
}

/// The buckets other than the target that the state database records (see
/// [`state_ids`]), in order.
pub fn collect_state_model_provider_ids(counts: &Vec<(String, usize)>, target_provider_id: &str) -> (r: Vec<
    String,
>)
    ensures
        strictly_sorted(views(r@)),
        views(r@).to_set() == state_ids(counts_view(counts@), target_provider_id@),
{
    let ghost cv = counts_view(counts@);
    let ghost tg = target_provider_id@;
    let mut ids: Vec<String> = Vec::new();
    let mut k: usize = 0;
    assert(cv.take(0) =~= Seq::<(Seq<char>, nat)>::empty());
    assert(views(ids@).to_set() =~= Set::<Seq<char>>::empty());
    while k < counts.len()
        invariant
            k <= counts.len(),
            cv == counts_view(counts@),
            cv.len() == counts.len(),
            tg == target_provider_id@,
            strictly_sorted(views(ids@)),
            views(ids@).to_set() == state_ids(cv.take(k as int), tg),
        decreases counts.len() - k,
    {
        assert(cv.take(k + 1).drop_last() =~= cv.take(k as int));
        assert(cv.take(k + 1).last().0 == counts@[k as int].0@);
        let id = trim_str(counts[k].0.as_str());
        if !id.as_str().is_empty() && !str_eq(id.as_str(), target_provider_id) {
            insert_sorted(&mut ids, id);
        }
        k = k + 1;
        assert(views(ids@).to_set() =~= state_ids(cv.take(k as int), tg));
    }
    assert(cv.take(counts.len() as int) =~= cv);
    ids
}

/// The buckets whose sessions are moved into the target bucket (see
/// [`source_ids`]), in order.
pub fn collect_source_provider_ids(
    files: &Vec<JsonlFile>,
    state_counts: &Option<Vec<(String, usize)>>,
    target_provider_id: &str,
) -> (r: Vec<String>)
    ensures
        strictly_sorted(views(r@)),
        views(r@).to_set() == source_ids(
            files_view(files@),
            match state_counts {
                Some(c) => Some(counts_view(c@)),
                None => None,
            },
            target_provider_id@,
        ),
        forall|i: int| 0 <= i < r.len() ==> is_sync_source(#[trigger] views(r@)[i], target_provider_id@),
{
    let ghost fv = files_view(files@);
    let ghost tg = target_provider_id@;
    let mut ids: Vec<String> = Vec::new();
    let mut i: usize = 0;
    assert(views(ids@).to_set() =~= Set::<Seq<char>>::empty());
    assert(fv.take(0) =~= Seq::<FileData>::empty());
    while i < files.len()
        invariant
            i <= files.len(),
            fv == files_view(files@),
            fv.len() == files.len(),
            tg == target_provider_id@,
            strictly_sorted(views(ids@)),
            views(ids@).to_set() == jsonl_ids(fv.take(i as int), tg),
        decreases files.len() - i,
    {
        assert(fv.take(i + 1).drop_last() =~= fv.take(i as int));
        assert(fv.take(i + 1).last() == files@[i as int]@);
        if files[i].open_error.is_none() {
            add_text_provider_ids(&mut ids, files[i].text.as_str(), target_provider_id);
        }
        i = i + 1;
    }
    assert(fv.take(files.len() as int) =~= fv);
    let ghost from_files = views(ids@).to_set();
    match state_counts {
        Some(counts) => {
            let state = collect_state_model_provider_ids(counts, target_provider_id);
            let ghost sv = views(state@);
            let mut k: usize = 0;
            assert(sv.take(0).to_set() =~= Set::<Seq<char>>::empty());
            assert(from_files.union(Set::empty()) =~= from_files);
            while k < state.len()
                invariant
                    k <= state.len(),
                    sv == views(state@),
                    sv.len() == state.len(),
                    strictly_sorted(views(ids@)),
                    views(ids@).to_set() == from_files.union(sv.take(k as int).to_set()),
                decreases state.len() - k,
            {
                assert(sv[k as int] == state@[k as int]@);
                assert(sv.take(k + 1) =~= sv.take(k as int).push(sv[k as int]));
                proof {
                    sv.take(k as int).lemma_push_to_set_commute(sv[k as int]);
                }
                insert_sorted(&mut ids, state[k].clone());
                k = k + 1;
                assert(views(ids@).to_set() =~= from_files.union(sv.take(k as int).to_set()));
            }
            assert(sv.take(state.len() as int) =~= sv);
        },
        None => {
            assert(from_files.union(Set::empty()) =~= from_files);
        },
    }
    let r = retain_sync_sources(&ids, target_provider_id);
    assert forall|i: int| 0 <= i < r.len() implies is_sync_source(#[trigger] views(r@)[i], target_provider_id@) by {
        assert(views(r@).to_set().contains(views(r@)[i]));
    }
    r
}


/// How a repair runs: on which Codex directory, into which bucket where
/// one is chosen, and whether it only reports what it would change.
pub struct RepairOptions {
    pub codex_dir: String,
    pub target_provider_id: Option<String>,
    pub dry_run: bool,
}

/// What a repair found and did.
pub struct RepairOutcome {
    pub codex_dir: String,
    pub target_provider_id: String,
    pub target_provider_source: String,
    pub source_provider_ids: Vec<String>,
    pub scanned_jsonl_files: usize,
    pub migrated_jsonl_files: usize,
    pub migrated_jsonl_lines: usize,
    pub migrated_state_rows: usize,
    pub rebuilt_session_index_entries: usize,
    pub backup_root: Option<String>,
    pub dry_run: bool,
    pub skipped_reason: Option<String>,
}

/// The model of a [`RepairOutcome`].
pub struct OutcomeData {
    pub codex_dir: Seq<char>,
    pub target_provider_id: Seq<char>,
    pub target_provider_source: Seq<char>,
    pub source_provider_ids: Seq<Seq<char>>,
    pub scanned_jsonl_files: nat,
    pub migrated_jsonl_files: nat,
    pub migrated_jsonl_lines: nat,
    pub migrated_state_rows: nat,
    pub rebuilt_session_index_entries: nat,
    pub backup_root: Option<Seq<char>>,
    pub dry_run: bool,
    pub skipped_reason: Option<Seq<char>>,
}

impl View for RepairOutcome {
    type V = OutcomeData;

    open spec fn view(&self) -> OutcomeData {
        OutcomeData {
            codex_dir: self.codex_dir@,
            target_provider_id: self.target_provider_id@,
            target_provider_source: self.target_provider_source@,
            source_provider_ids: views(self.source_provider_ids@),
            scanned_jsonl_files: self.scanned_jsonl_files as nat,
            migrated_jsonl_files: self.migrated_jsonl_files as nat,
            migrated_jsonl_lines: self.migrated_jsonl_lines as nat,
            migrated_state_rows: self.migrated_state_rows as nat,
            rebuilt_session_index_entries: self.rebuilt_session_index_entries as nat,
            backup_root: opt_view(self.backup_root),
            dry_run: self.dry_run,
            skipped_reason: opt_view(self.skipped_reason),
        }
    }
}

/// One step of a repair, for the caller to carry out in order. File
/// indexes refer to [`RepairInput::jsonl_files`].
pub enum RepairAction {
    /// Create the backup directory (with its parents).
    CreateBackupRoot(String),
    /// Copy the history file to `jsonl/<its path below the Codex
    /// directory>` under the backup directory.
    BackupJsonl(usize),
    /// Replace the history file's content by the text, through a temporary
    /// file and a rename.
    WriteJsonl(usize, String),
    /// Copy the state database to `state/state_5.sqlite` under the backup
    /// directory with SQLite's online backup.
    BackupStateDb,
    /// In one transaction, set `model_provider` to the target bucket (the
    /// text) on the threads of each source bucket (the list).
    UpdateStateDb(String, Vec<String>),
    /// Copy the session index to `session_index/session_index.jsonl` under
    /// the backup directory.
    BackupSessionIndex,
    /// Create the directory that is to hold the session index.
    CreateSessionIndexDir,
    /// Replace the session index's content by the text, through a
    /// temporary file and a rename.
    WriteSessionIndex(String),
}

/// The model of a [`RepairAction`].
pub enum ActionData {
    CreateBackupRoot(Seq<char>),
    BackupJsonl(nat),
    WriteJsonl(nat, Seq<char>),
    BackupStateDb,
    UpdateStateDb(Seq<char>, Seq<Seq<char>>),
    BackupSessionIndex,
    CreateSessionIndexDir,
    WriteSessionIndex(Seq<char>),
}

impl View for RepairAction {
    type V = ActionData;

    open spec fn view(&self) -> ActionData {
        match self {
            RepairAction::CreateBackupRoot(p) => ActionData::CreateBackupRoot(p@),
            RepairAction::BackupJsonl(i) => ActionData::BackupJsonl(*i as nat),
            RepairAction::WriteJsonl(i, t) => ActionData::WriteJsonl(*i as nat, t@),
            RepairAction::BackupStateDb => ActionData::BackupStateDb,
            RepairAction::UpdateStateDb(t, s) => ActionData::UpdateStateDb(t@, views(s@)),
            RepairAction::BackupSessionIndex => ActionData::BackupSessionIndex,
            RepairAction::CreateSessionIndexDir => ActionData::CreateSessionIndexDir,
            RepairAction::WriteSessionIndex(t) => ActionData::WriteSessionIndex(t@),
        }
    }
}

pub open spec fn actions_view(s: Seq<RepairAction>) -> Seq<ActionData> {
    s.map_values(|a: RepairAction| a@)
}

/// What a repair reads before it decides anything.
pub struct RepairInput {
    /// Whether the Codex directory exists.
    pub codex_dir_exists: bool,
    /// cc-switch as found on disk.
    pub cc_switch: CcSwitchSnapshot,
    /// The text of `config.toml` in the Codex directory, where it exists
    /// and could be read.
    pub codex_config_text: Option<String>,
    /// The history files below `sessions` and `archived_sessions`, sorted
    /// by path.
    pub jsonl_files: Vec<JsonlFile>,
    /// Each distinct non-null `model_provider` of the state database's
    /// `threads` table with its number of threads; `None` where the
    /// database or the table does not exist; the error's message where the
    /// database could not be read.
    pub state_counts: Result<Option<Vec<(String, usize)>>, String>,
    /// Whether the session index exists.
    pub session_index_exists: bool,
    /// The lines of the session index that parse as entries, in order
    /// (none where it does not exist), or why it could not be opened.
    pub session_index: Result<Vec<SessionIndexEntry>, String>,
    /// The state database, `state_5.sqlite` in the Codex directory, as the
    /// platform joins the path.
    pub state_db_path: String,
    /// The session index, `session_index.jsonl` in the Codex directory.
    pub session_index_path: String,
    /// The backup directory that a repair creates before its first
    /// backup: `history_repair_backups/codex-history-repair-<local time>`
    /// in the Codex directory.
    pub backup_root: String,
    /// The current UTC time in RFC 3339, the date of sessions that carry
    /// none.
    pub now: String,
}

/// What a repair does and what it reports.
pub struct RepairPlan {
    pub actions: Vec<RepairAction>,
    pub result: Result<RepairOutcome, RepairError>,
}

/// The progress of the pass over the history files.
pub struct PassData {
    pub actions: Seq<ActionData>,
    pub root_made: bool,
    pub files: nat,
    pub lines: nat,
    pub error: Option<ErrorData>,
}

/// The actions, after creating the backup directory unless it exists.
pub open spec fn with_root(actions: Seq<ActionData>, root_made: bool, root: Seq<char>) -> Seq<ActionData> {
    if root_made {
        actions
    } else {
        actions.push(ActionData::CreateBackupRoot(root))
    }
}

/// Whether the pass rewrites the file on disk.
pub open spec fn rewrites_file(f: FileData, target: Seq<char>, src: Seq<Seq<char>>, dry_run: bool) -> bool {
    &&& src.len() > 0
    &&& f.read_error is None
    &&& rewrite_count(f.text, target, src) > 0
    &&& !dry_run
}

/// The pass over the history files: where there are source buckets, each
/// file is read whole (a failure stops the repair with an I/O error), its
/// lines are rewritten, and a changed file is backed up and replaced.
pub open spec fn jsonl_pass(
    files: Seq<FileData>,
    target: Seq<char>,
    src: Seq<Seq<char>>,
    dry_run: bool,
    root: Seq<char>,
) -> PassData
    decreases files.len(),
{
    if files.len() == 0 {
        PassData { actions: Seq::empty(), root_made: false, files: 0, lines: 0, error: None }
    } else {
        let st = jsonl_pass(files.drop_last(), target, src, dry_run, root);
        let f = files.last();
        let idx = (files.len() - 1) as nat;
        if st.error is Some || src.len() == 0 {
            st
        } else {
            match f.read_error {
                Some(m) => PassData { error: Some(ErrorData::Io { path: f.path, message: m }), ..st },
                None => {
                    let n = rewrite_count(f.text, target, src);
                    if n == 0 {
                        st
                    } else if dry_run {
                        PassData { files: st.files + 1, lines: st.lines + n, ..st }
                    } else {
                        PassData {
                            actions: with_root(st.actions, st.root_made, root).push(
                                ActionData::BackupJsonl(idx),
                            ).push(ActionData::WriteJsonl(idx, rewrite_text(f.text, target, src))),
                            root_made: true,
                            files: st.files + 1,
                            lines: st.lines + n,
                            error: None,
                        }
                    }
                },
            }
        }
    }
}

/// The threads of the state database in the source buckets.
pub open spec fn count_rows(counts: Seq<(Seq<char>, nat)>, src: Seq<Seq<char>>) -> nat
    decreases counts.len(),
{
    if counts.len() == 0 {
        0
    } else {
        count_rows(counts.drop_last(), src) + if src.contains(counts.last().0) {
            counts.last().1
        } else {
            0
        }
    }
}

/// All threads of the state database.
pub open spec fn count_all(counts: Seq<(Seq<char>, nat)>) -> nat
    decreases counts.len(),
{
    if counts.len() == 0 {
        0
    } else {
        count_all(counts.drop_last()) + counts.last().1
    }
}

/// The threads that the state migration moves.
pub open spec fn state_rows(counts: Option<Seq<(Seq<char>, nat)>>, src: Seq<Seq<char>>) -> nat {
    if src.len() == 0 {
        0
    } else {
        match counts {
            Some(c) => count_rows(c, src),
            None => 0,
        }
    }
}

/// The text of a history file when the session index is rebuilt: the
/// rewritten text where the pass replaced the file.
pub open spec fn index_source_text(f: FileData, target: Seq<char>, src: Seq<Seq<char>>, dry_run: bool) -> Seq<char> {
    if rewrites_file(f, target, src, dry_run) {
        rewrite_text(f.text, target, src)
    } else {
        f.text
    }
}

/// The index entries of the history files, in order; a file that cannot
/// be opened stops the repair with an I/O error. `names[i]` is the name
/// that the platform gives of the working directory of file `i`.
pub open spec fn derived_entries(
    files: Seq<FileData>,
    target: Seq<char>,
    src: Seq<Seq<char>>,
    dry_run: bool,
    names: Seq<Option<Seq<char>>>,
    now: Seq<char>,
) -> Result<Seq<Option<EntryData>>, ErrorData>
    decreases files.len(),
{
    if files.len() == 0 {
        Ok(Seq::empty())
    } else {
        match derived_entries(files.drop_last(), target, src, dry_run, names, now) {
            Err(e) => Err(e),
            Ok(d) => match files.last().open_error {
                Some(m) => Err(ErrorData::Io { path: files.last().path, message: m }),
                None => Ok(
                    d.push(
                        entry_of_text(
                            index_source_text(files.last(), target, src, dry_run),
                            names[files.len() - 1],
                            now,
                        ),
                    ),
                ),
            },
        }
    }
}

/// Each history file that a real repair rewrites reads, for the session
/// index, as it did before.
pub open spec fn rewrites_keep_entries(files: Seq<FileData>, target: Seq<char>, src: Seq<Seq<char>>) -> bool {
    forall|j: int|
        0 <= j < files.len() && #[trigger] rewrites_file(files[j], target, src, false) ==> scan_segments(
            segments(rewrite_text(files[j].text, target, src)),
        ) == scan_segments(segments(files[j].text))
}

/// The same repair in the other mode: a real run for a dry one, and the
/// other way round.
pub open spec fn other_mode(o: RepairOptions) -> RepairOptions {
    RepairOptions { dry_run: !o.dry_run, ..o }
}

/// The text lengths of all history files.
pub open spec fn total_text_len(files: Seq<FileData>) -> nat
    decreases files.len(),
{
    if files.len() == 0 {
        0
    } else {
        total_text_len(files.drop_last()) + files.last().text.len()
    }
}

/// The one strictly sorted list of a set of buckets.
pub open spec fn sorted_ids(s: Set<Seq<char>>) -> Seq<Seq<char>> {
    choose|q: Seq<Seq<char>>| strictly_sorted(q) && q.to_set() == s
}

pub open spec fn state_view(r: Result<Option<Vec<(String, usize)>>, String>) -> Result<
    Option<Seq<(Seq<char>, nat)>>,
    Seq<char>,
> {
    match r {
        Ok(Some(c)) => Ok(Some(counts_view(c@))),
        Ok(None) => Ok(None),
        Err(m) => Err(m@),
    }
}

pub open spec fn result_view(r: Result<RepairOutcome, RepairError>) -> Result<OutcomeData, ErrorData> {
    match r {
        Ok(o) => Ok(o@),
        Err(e) => Err(e@),
    }
}

/// The target bucket and where it came from (see [`target_provider`]).
pub open spec fn repair_target(o: RepairOptions, inp: RepairInput) -> (Seq<char>, Seq<char>) {
    target_provider(
        opt_view(o.target_provider_id),
        cc_switch_model_provider(
            inp.cc_switch.db_exists,
            opt_view(inp.cc_switch.settings_text),
            providers_view(inp.cc_switch.providers),
        ),
        opt_view(inp.codex_config_text),
    )
}

/// A repair, from what it read to what it does and reports; `names` are
/// the names that the platform gives of the history files' working
/// directories (see [`derived_entries`]).
///
/// It fails where the Codex directory does not exist, or the state
/// database cannot be read. Otherwise it chooses the target bucket, and
/// the source buckets (see [`source_ids`]); rewrites the history files
/// ([`jsonl_pass`]); moves the state database's threads of the source
/// buckets, backing the database up first; and merges the entries derived
/// from the history files into the session index, backing it up first
/// where it exists. Nothing is written in a dry run, and the backup
/// directory is created before the first backup.
pub open spec fn repair_plan(o: RepairOptions, inp: RepairInput, names: Seq<Option<Seq<char>>>) -> (
    Seq<ActionData>,
    Result<OutcomeData, ErrorData>,
) {
    let dir = o.codex_dir@;
    if !inp.codex_dir_exists {
        (Seq::empty(), Err(ErrorData::CodexDirMissing(dir)))
    } else {
        match state_view(inp.state_counts) {
            Err(m) => (Seq::empty(), Err(ErrorData::Sqlite { path: inp.state_db_path@, message: m })),
            Ok(counts) => {
                let (target, how) = repair_target(o, inp);
                let files = files_view(inp.jsonl_files@);
                let src = sorted_ids(source_ids(files, counts, target));
                let root = inp.backup_root@;
                let p = jsonl_pass(files, target, src, o.dry_run, root);
                match p.error {
                    Some(e) => (p.actions, Err(e)),
                    None => {
                        let rows = state_rows(counts, src);
                        let migrate = rows > 0 && !o.dry_run;
                        let a2 = if migrate {
                            with_root(p.actions, p.root_made, root).push(ActionData::BackupStateDb).push(
                                ActionData::UpdateStateDb(target, src),
                            )
                        } else {
                            p.actions
                        };
                        let made2 = p.root_made || migrate;
                        match inp.session_index {
                            Err(m) => (
                                a2,
                                Err(ErrorData::Io { path: inp.session_index_path@, message: m@ }),
                            ),
                            Ok(lines) => match derived_entries(files, target, src, o.dry_run, names, inp.now@) {
                                Err(e) => (a2, Err(e)),
                                Ok(d) => {
                                    let (m, c) = merge_entries(existing_map(entry_views(lines@)), d);
                                    let write = c > 0 && !o.dry_run;
                                    let text = index_file_text(index_order(m));
                                    let a3 = if !write {
                                        a2
                                    } else if inp.session_index_exists {
                                        with_root(a2, made2, root).push(ActionData::BackupSessionIndex).push(
                                            ActionData::WriteSessionIndex(text),
                                        )
                                    } else {
                                        a2.push(ActionData::CreateSessionIndexDir).push(
                                            ActionData::WriteSessionIndex(text),
                                        )
                                    };
                                    let made3 = made2 || (write && inp.session_index_exists);
                                    (
                                        a3,
                                        Ok(
                                            OutcomeData {
                                                codex_dir: dir,
                                                target_provider_id: target,
                                                target_provider_source: how,
                                                source_provider_ids: src,
                                                scanned_jsonl_files: files.len(),
                                                migrated_jsonl_files: p.files,
                                                migrated_jsonl_lines: p.lines,
                                                migrated_state_rows: rows,
                                                rebuilt_session_index_entries: c,
                                                backup_root: if made3 {
                                                    Some(root)
                                                } else {
                                                    None
                                                },
                                                dry_run: o.dry_run,
                                                skipped_reason: if p.files == 0 && rows == 0 && c == 0 {
                                                    Some("no_changes_needed"@)
                                                } else {
                                                    None
                                                },
                                            },
                                        ),
                                    )
                                },
                            },
                        }
                    },
                }
            },
        }
    }
}


proof fn lemma_pass_error_sticks(
    files: Seq<FileData>,
    k: int,
    target: Seq<char>,
    src: Seq<Seq<char>>,
    dry_run: bool,
    root: Seq<char>,
)
    requires
        0 <= k <= files.len(),
        jsonl_pass(files.take(k), target, src, dry_run, root).error is Some,
    ensures
        jsonl_pass(files, target, src, dry_run, root) == jsonl_pass(files.take(k), target, src, dry_run, root),
    decreases files.len(),
{
    if files.len() > k {
        assert(files.drop_last().take(k) =~= files.take(k));
        lemma_pass_error_sticks(files.drop_last(), k, target, src, dry_run, root);
    } else {
        assert(files.take(k) =~= files);
    }
}

proof fn lemma_derived_error_sticks(
    files: Seq<FileData>,
    k: int,
    target: Seq<char>,
    src: Seq<Seq<char>>,
    dry_run: bool,
    names: Seq<Option<Seq<char>>>,
    now: Seq<char>,
)
    requires
        0 <= k <= files.len(),
        derived_entries(files.take(k), target, src, dry_run, names, now) is Err,
    ensures
        derived_entries(files, target, src, dry_run, names, now) == derived_entries(
            files.take(k),
            target,
            src,
            dry_run,
            names,
            now,
        ),
    decreases files.len(),
{
    if files.len() > k {
        assert(files.drop_last().take(k) =~= files.take(k));
        lemma_derived_error_sticks(files.drop_last(), k, target, src, dry_run, names, now);
    } else {
        assert(files.take(k) =~= files);
    }
}

proof fn lemma_derived_names_prefix(
    files: Seq<FileData>,
    target: Seq<char>,
    src: Seq<Seq<char>>,
    dry_run: bool,
    names: Seq<Option<Seq<char>>>,
    x: Option<Seq<char>>,
    now: Seq<char>,
)
    requires
        names.len() >= files.len(),
    ensures
        derived_entries(files, target, src, dry_run, names.push(x), now) == derived_entries(
            files,
            target,
            src,
            dry_run,
            names,
            now,
        ),
    decreases files.len(),
{
    if files.len() > 0 {
        lemma_derived_names_prefix(files.drop_last(), target, src, dry_run, names, x, now);
        assert(names.push(x)[files.len() - 1] == names[files.len() - 1]);
    }
}

proof fn lemma_total_text_len_prefix(files: Seq<FileData>, k: int)
    requires
        0 <= k <= files.len(),
    ensures
        total_text_len(files.take(k)) <= total_text_len(files),
    decreases files.len(),
{
    if files.len() > k {
        assert(files.drop_last().take(k) =~= files.take(k));
        lemma_total_text_len_prefix(files.drop_last(), k);
    } else {
        assert(files.take(k) =~= files);
    }
}

proof fn lemma_count_all_prefix(counts: Seq<(Seq<char>, nat)>, k: int)
    requires
        0 <= k <= counts.len(),
    ensures
        count_all(counts.take(k)) <= count_all(counts),
    decreases counts.len(),
{
    if counts.len() > k {
        assert(counts.drop_last().take(k) =~= counts.take(k));
        lemma_count_all_prefix(counts.drop_last(), k);
    } else {
        assert(counts.take(k) =~= counts);
    }
}

fn push_action(actions: &mut Vec<RepairAction>, a: RepairAction)
    ensures
        actions_view(final(actions)@) == actions_view(old(actions)@).push(a@),
{
    let ghost before = actions@;
    actions.push(a);
    assert(actions_view(actions@) =~= actions_view(before).push(a@));
}

/// Creates the backup directory unless it has been created.
pub fn ensure_backup_root(actions: &mut Vec<RepairAction>, root_made: &mut bool, root: &String)
    ensures
        actions_view(final(actions)@) == with_root(actions_view(old(actions)@), *old(root_made), root@),
        *final(root_made),
{
    if !*root_made {
        push_action(actions, RepairAction::CreateBackupRoot(root.clone()));
        *root_made = true;
    }
}

/// The threads that the state migration moves into the target bucket (see
/// [`state_rows`]).
pub fn migrate_state_db(counts: &Option<Vec<(String, usize)>>, source_provider_ids: &Vec<String>) -> (r: usize)
    requires
        counts matches Some(c) ==> count_all(counts_view(c@)) <= usize::MAX,
    ensures
        r == state_rows(
            match counts {
                Some(c) => Some(counts_view(c@)),
                None => None,
            },
            views(source_provider_ids@),
        ),
{
    let ghost src = views(source_provider_ids@);
    let mut rows: usize = 0;
    if source_provider_ids.len() == 0 {
        return 0;
    }
    match counts {
        Some(c) => {
            let ghost cs = counts_view(c@);
            let mut k: usize = 0;
            assert(cs.take(0) =~= Seq::<(Seq<char>, nat)>::empty());
            while k < c.len()
                invariant
                    k <= c.len(),
                    cs == counts_view(c@),
                    cs.len() == c.len(),
                    src == views(source_provider_ids@),
                    count_all(cs) <= usize::MAX,
                    rows == count_rows(cs.take(k as int), src),
                    rows <= count_all(cs.take(k as int)),
                decreases c.len() - k,
            {
                assert(cs.take(k + 1).drop_last() =~= cs.take(k as int));
                assert(cs.take(k + 1).last() == cs[k as int]);
                proof {
                    lemma_count_all_prefix(cs, k + 1);
                }
                if contains_string(source_provider_ids, c[k].0.as_str()) {
                    rows = rows + c[k].1;
                }
                k = k + 1;
            }
            assert(cs.take(c.len() as int) =~= cs);
        },
        None => {},
    }
    rows
}

fn clone_ids(ids: &Vec<String>) -> (r: Vec<String>)
    ensures
        views(r@) == views(ids@),
{
    let mut r: Vec<String> = Vec::new();
    let mut i: usize = 0;
    while i < ids.len()
        invariant
            i <= ids.len(),
            views(r@) == views(ids@).take(i as int),
        decreases ids.len() - i,
    {
        let c = ids[i].clone();
        let ghost before = r@;
        r.push(c);
        assert(views(r@) =~= views(before).push(ids@[i as int]@));
        assert(views(ids@).take(i + 1) =~= views(ids@).take(i as int).push(ids@[i as int]@));
        i = i + 1;
    }
    assert(views(ids@).take(ids.len() as int) =~= views(ids@));
    r
}

/// Plans a repair of Codex's history (see [`repair_plan`]): the actions to
/// carry out in order, and the outcome or the error to report once they
/// are done. Where it succeeds, the same repair in the other mode (a dry
/// run for a real one, and the other way round) would also succeed and
/// report as many rebuilt index entries, for the same names of working
/// directories: a rewritten history line reads, for the index, as before.
/// And where a real repair succeeds, running it again on what it leaves
/// (see [`crate::rerun::left_by`]) plans nothing, where every session is
/// dated (see [`crate::rerun::rerun_idle`]).
pub fn repair_codex_history(options: RepairOptions, input: &RepairInput) -> (r: RepairPlan)
    requires
        total_text_len(files_view(input.jsonl_files@)) <= usize::MAX,
        input.state_counts matches Ok(Some(c)) ==> count_all(counts_view(c@)) <= usize::MAX,
    ensures
        exists|names: Seq<Option<Seq<char>>>|
            (actions_view(r.actions@), result_view(r.result)) == #[trigger] repair_plan(options, *input, names) && (
            forall|i: int| 0 <= i < names.len() ==> crate::index::file_name_like(#[trigger] names[i])) && (
            !options.dry_run && r.result is Ok ==> crate::rerun::rerun_idle(options, *input, names)),
        r.result matches Ok(o) ==> forall|i: int|
            0 <= i < o.source_provider_ids.len() ==> is_sync_source(
                #[trigger] o.source_provider_ids@[i]@,
                o.target_provider_id@,
            ),
        r.result is Ok ==> forall|names: Seq<Option<Seq<char>>>|
            #[trigger] repair_plan(options, *input, names).1 is Ok ==> {
                &&& repair_plan(other_mode(options), *input, names).1 is Ok
                &&& repair_plan(other_mode(options), *input, names).1->Ok_0.rebuilt_session_index_entries
                    == repair_plan(options, *input, names).1->Ok_0.rebuilt_session_index_entries
            },
{
    let mut actions: Vec<RepairAction> = Vec::new();
    assert(actions_view(actions@) =~= Seq::<ActionData>::empty());
    let ghost none: Seq<Option<Seq<char>>> = Seq::empty();
    if !input.codex_dir_exists {
        let r = RepairPlan { actions, result: Err(RepairError::CodexDirMissing(options.codex_dir)) };
        assert((actions_view(r.actions@), result_view(r.result)) == repair_plan(options, *input, none));
        return r;
    }
    let counts: &Option<Vec<(String, usize)>> = match &input.state_counts {
        Ok(c) => c,
        Err(m) => {
            let path = input.state_db_path.clone();
            let r = RepairPlan { actions, result: Err(RepairError::Sqlite { path, message: m.clone() }) };
            assert((actions_view(r.actions@), result_view(r.result)) == repair_plan(options, *input, none));
            return r;
        },
    };
    let explicit: Option<&str> = match &options.target_provider_id {
        Some(t) => Some(t.as_str()),
        None => None,
    };
    let config: Option<&str> = match &input.codex_config_text {
        Some(t) => Some(t.as_str()),
        None => None,
    };
    let (target, how) = resolve_target_provider_id(explicit, &input.cc_switch, config);
    let sources = collect_source_provider_ids(&input.jsonl_files, counts, target.as_str());
    let ghost fv = files_view(input.jsonl_files@);
    let ghost cv: Option<Seq<(Seq<char>, nat)>> = match counts {
        Some(c) => Some(counts_view(c@)),
        None => None,
    };
    let ghost src = views(sources@);
    proof {
        let s = source_ids(fv, cv, target@);
        let q = sorted_ids(s);
        assert(strictly_sorted(src) && src.to_set() == s);
        crate::text::lemma_strictly_sorted_unique(q, src);
        assert((target@, how@) == repair_target(options, *input));
        assert(state_view(input.state_counts) == Ok::<Option<Seq<(Seq<char>, nat)>>, Seq<char>>(cv));
    }
    let root = input.backup_root.clone();
    let files = &input.jsonl_files;
    let mut root_made = false;
    let mut files_changed: usize = 0;
    let mut lines_changed: usize = 0;
    let mut new_texts: Vec<Option<String>> = Vec::new();
    let mut i: usize = 0;
    assert(fv.take(0) =~= Seq::<FileData>::empty());
    assert forall|e: ErrorData| jsonl_pass(fv, target@, src, options.dry_run, root@).error == Some(e) implies
        repair_plan(options, *input, none) == (jsonl_pass(fv, target@, src, options.dry_run, root@).actions, Err::<
            OutcomeData,
            ErrorData,
        >(e)) by {}
    while i < files.len()
        invariant
            forall|e: ErrorData| jsonl_pass(fv, target@, src, options.dry_run, root@).error == Some(e) ==>
                repair_plan(options, *input, none) == (jsonl_pass(fv, target@, src, options.dry_run, root@).actions, Err::<
                    OutcomeData,
                    ErrorData,
                >(e)),
            i <= files.len(),
            fv == files_view(files@),
            fv.len() == files.len(),
            src == views(sources@),
            total_text_len(fv) <= usize::MAX,
            ({
                let p = jsonl_pass(fv.take(i as int), target@, src, options.dry_run, root@);
                &&& p.error is None
                &&& p.actions == actions_view(actions@)
                &&& p.root_made == root_made
                &&& p.files == files_changed
                &&& p.lines == lines_changed
            }),
            files_changed <= i,
            lines_changed <= total_text_len(fv.take(i as int)),
            new_texts.len() == i,
            forall|j: int|
                0 <= j < i ==> (#[trigger] new_texts@[j] is Some <==> rewrites_file(
                    fv[j],
                    target@,
                    src,
                    options.dry_run,
                )),
            forall|j: int|
                0 <= j < i && #[trigger] new_texts@[j] is Some ==> new_texts@[j]->0@ == rewrite_text(
                    fv[j].text,
                    target@,
                    src,
                ),
            rewrites_keep_entries(fv.take(i as int), target@, src),
            crate::rerun::rewrites_hold(fv.take(i as int), target@, src),
            none == Seq::<Option<Seq<char>>>::empty(),
        decreases files.len() - i,
    {
        assert(fv.take(i + 1).drop_last() =~= fv.take(i as int));
        assert(fv.take(i + 1).last() == fv[i as int]);
        assert(fv[i as int] == files@[i as int]@);
        proof {
            lemma_total_text_len_prefix(fv, i + 1);
        }
        if sources.len() == 0 {
            new_texts.push(None);
        } else {
            match &files[i].read_error {
                Some(m) => {
                    let e = RepairError::Io { path: files[i].path.clone(), message: m.clone() };
                    proof {
                        lemma_pass_error_sticks(fv, i + 1, target@, src, options.dry_run, root@);
                    }
                    let r = RepairPlan { actions, result: Err(e) };
                    assert((actions_view(r.actions@), result_view(r.result)) == repair_plan(options, *input, none));
                    return r;
                },
                None => {
                    let (t, n) = rewrite_jsonl_text(files[i].text.as_str(), target.as_str(), &sources);
                    if n == 0 {
                        new_texts.push(None);
                    } else {
                        proof {
                            lemma_rewrite_count_bound(files@[i as int].text@, target@, src);
                        }
                        files_changed = files_changed + 1;
                        lines_changed = lines_changed + n;
                        if options.dry_run {
                            new_texts.push(None);
                        } else {
                            ensure_backup_root(&mut actions, &mut root_made, &root);
                            push_action(&mut actions, RepairAction::BackupJsonl(i));
                            push_action(&mut actions, RepairAction::WriteJsonl(i, t.clone()));
                            new_texts.push(Some(t));
                        }
                    }
                },
            }
        }
        assert forall|j: int|
            0 <= j < i + 1 && #[trigger] rewrites_file(fv.take(i + 1)[j], target@, src, false) implies scan_segments(
                segments(rewrite_text(fv.take(i + 1)[j].text, target@, src)),
            ) == scan_segments(segments(fv.take(i + 1)[j].text)) by {
            if j < i {
                assert(fv.take(i + 1)[j] == fv.take(i as int)[j]);
            }
        }
        assert forall|j: int|
            0 <= j < i + 1 && #[trigger] rewrites_file(fv.take(i + 1)[j], target@, src, false) implies crate::session::rewrites_read_alike(
            segments(fv.take(i + 1)[j].text),
            target@,
            src,
        ) && crate::session::rewrites_settle(segments(fv.take(i + 1)[j].text), target@, src) by {
            if j < i {
                assert(fv.take(i + 1)[j] == fv.take(i as int)[j]);
            }
        }
        i = i + 1;
    }
    assert(fv.take(files.len() as int) =~= fv);
    let rows = migrate_state_db(counts, &sources);
    let migrate = rows > 0 && !options.dry_run;
    if migrate {
        ensure_backup_root(&mut actions, &mut root_made, &root);
        push_action(&mut actions, RepairAction::BackupStateDb);
        push_action(&mut actions, RepairAction::UpdateStateDb(target.clone(), clone_ids(&sources)));
    }
    let lines: &Vec<SessionIndexEntry> = match &input.session_index {
        Ok(l) => l,
        Err(m) => {
            let path = input.session_index_path.clone();
            let r = RepairPlan { actions, result: Err(RepairError::Io { path, message: m.clone() }) };
            assert((actions_view(r.actions@), result_view(r.result)) == repair_plan(options, *input, none));
            return r;
        },
    };
    let mut derived: Vec<Option<SessionIndexEntry>> = Vec::new();
    let mut j: usize = 0;
    assert(opt_entry_views(derived@) =~= Seq::<Option<EntryData>>::empty());
    assert(rows == state_rows(cv, src));
    let ghost mut names: Seq<Option<Seq<char>>> = Seq::empty();
    assert forall|ns: Seq<Option<Seq<char>>>|
        derived_entries(fv, target@, src, options.dry_run, ns, input.now@) is Err implies #[trigger] repair_plan(
        options,
        *input,
        ns,
    ) == (
        actions_view(actions@),
        Err::<OutcomeData, ErrorData>(derived_entries(fv, target@, src, options.dry_run, ns, input.now@)->Err_0),
    ) by {}
    while j < files.len()
        invariant
            forall|ns: Seq<Option<Seq<char>>>|
                derived_entries(fv, target@, src, options.dry_run, ns, input.now@) is Err ==> #[trigger] repair_plan(
                    options,
                    *input,
                    ns,
                ) == (
                    actions_view(actions@),
                    Err::<OutcomeData, ErrorData>(
                        derived_entries(fv, target@, src, options.dry_run, ns, input.now@)->Err_0,
                    ),
                ),
            j <= files.len(),
            names.len() == j,
            forall|x: int| 0 <= x < names.len() ==> crate::index::file_name_like(#[trigger] names[x]),
            fv == files_view(files@),
            fv.len() == files.len(),
            src == views(sources@),
            new_texts.len() == files.len(),
            forall|x: int|
                0 <= x < files.len() ==> (#[trigger] new_texts@[x] is Some <==> rewrites_file(
                    fv[x],
                    target@,
                    src,
                    options.dry_run,
                )),
            forall|x: int|
                0 <= x < files.len() && #[trigger] new_texts@[x] is Some ==> new_texts@[x]->0@ == rewrite_text(
                    fv[x].text,
                    target@,
                    src,
                ),
            derived_entries(fv.take(j as int), target@, src, options.dry_run, names, input.now@) == Ok::<
                Seq<Option<EntryData>>,
                ErrorData,
            >(opt_entry_views(derived@)),
        decreases files.len() - j,
    {
        assert(fv.take(j + 1).drop_last() =~= fv.take(j as int));
        assert(fv.take(j + 1).last() == fv[j as int]);
        assert(fv[j as int] == files@[j as int]@);
        match &files[j].open_error {
            Some(m) => {
                let e = RepairError::Io { path: files[j].path.clone(), message: m.clone() };
                let ghost ns = names.push(None);
                proof {
                    lemma_derived_names_prefix(fv.take(j as int), target@, src, options.dry_run, names, None, input.now@);
                    lemma_derived_error_sticks(fv, j + 1, target@, src, options.dry_run, ns, input.now@);
                }
                let r = RepairPlan { actions, result: Err(e) };
                assert((actions_view(r.actions@), result_view(r.result)) == repair_plan(options, *input, ns));
                return r;
            },
            None => {
                let (entry, cwd_name) = match &new_texts[j] {
                    Some(t) => index_entry_and_cwd_name(t.as_str(), input.now.as_str()),
                    None => index_entry_and_cwd_name(files[j].text.as_str(), input.now.as_str()),
                };
                let ghost before = derived@;
                let ghost n = opt_view(cwd_name);
                derived.push(entry);
                proof {
                    lemma_derived_names_prefix(fv.take(j as int), target@, src, options.dry_run, names, n, input.now@);
                    names = names.push(n);
                }
                assert(opt_entry_views(derived@) =~= opt_entry_views(before).push(
                    entry_of_text(index_source_text(fv[j as int], target@, src, options.dry_run), n, input.now@),
                ));
            },
        }
        j = j + 1;
    }
    assert(fv.take(files.len() as int) =~= fv);
    let rebuilt = rebuild_session_index(lines, &derived);
    let changed = rebuilt.changed_entries;
    if changed > 0 && !options.dry_run {
        if input.session_index_exists {
            ensure_backup_root(&mut actions, &mut root_made, &root);
            push_action(&mut actions, RepairAction::BackupSessionIndex);
        } else {
            push_action(&mut actions, RepairAction::CreateSessionIndexDir);
        }
        push_action(&mut actions, RepairAction::WriteSessionIndex(rebuilt.text));
    }
    let skipped_reason = if files_changed == 0 && rows == 0 && changed == 0 {
        Some(String::from_str("no_changes_needed"))
    } else {
        None
    };
    let backup_root = if root_made {
        Some(root)
    } else {
        None
    };
    assert forall|i: int| 0 <= i < sources.len() implies is_sync_source(#[trigger] sources@[i]@, target@) by {
        assert(views(sources@)[i] == sources@[i]@);
    }
    let outcome = RepairOutcome {
        codex_dir: options.codex_dir,
        target_provider_id: target,
        target_provider_source: how,
        source_provider_ids: sources,
        scanned_jsonl_files: files.len(),
        migrated_jsonl_files: files_changed,
        migrated_jsonl_lines: lines_changed,
        migrated_state_rows: rows,
        rebuilt_session_index_entries: changed,
        backup_root,
        dry_run: options.dry_run,
        skipped_reason,
    };
    let r = RepairPlan { actions, result: Ok(outcome) };
    assert((actions_view(r.actions@), result_view(r.result)) == repair_plan(options, *input, names));
    proof {
        let s = source_ids(fv, cv, target@);
        crate::text::lemma_strictly_sorted_unique(sorted_ids(s), src);
        crate::rerun::lemma_target_trimmed(options, *input);
        let es = entry_views(rebuilt.entries@);
        assert(distinct_ids(es) && sorted_entries(es) && entries_map(es) == merge_entries(
            existing_map(entry_views(lines@)),
            opt_entry_views(derived@),
        ).0);
        if !options.dry_run {
            assert forall|next: RepairInput|
                crate::rerun::left_by(options, *input, names, next) && crate::rerun::all_dated(next) implies #[trigger] crate::rerun::idle_plan(
                repair_plan(options, next, names),
            ) by {
                crate::rerun::lemma_rerun_idle(options, *input, names, next);
            }
        }
    }
    assert forall|ns: Seq<Option<Seq<char>>>| #[trigger] repair_plan(options, *input, ns).1 is Ok implies {
        &&& repair_plan(other_mode(options), *input, ns).1 is Ok
        &&& repair_plan(other_mode(options), *input, ns).1->Ok_0.rebuilt_session_index_entries == repair_plan(
            options,
            *input,
            ns,
        ).1->Ok_0.rebuilt_session_index_entries
    } by {
        crate::laws::lemma_other_mode_rebuilds_alike(options, *input, ns);
    }
    r
}

} // verus!
