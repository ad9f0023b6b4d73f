//! What holds of the library as a whole: of every repair, of the index
//! merge, of provider ids and of the buckets that are merged.

use vstd::prelude::*;
use crate::repair::{
    jsonl_pass, derived_entries, other_mode, repair_plan, repair_target, rewrites_file, rewrites_keep_entries,
    source_ids, sorted_ids, state_view, files_view, with_root, ActionData, FileData, OutcomeData, RepairInput,
    RepairOptions,
};
use crate::paths::{app_bundle, extension, lemma_parent_path, parent_path};
use crate::error::ErrorData;
use crate::cc_switch::{
    has_row, import_creates, import_target, parse_or_null, row_for_account, row_holds_account, ProviderRowWrite, RowData,
};
use crate::import::{
    import_draft_result, oauth_account_id, path1, path2, tokens_of, unsupported_import_message, DraftData,
};
use crate::json::{find_member, get, get_str, hex_digit, json_parse, same_but_numbers, JsonData};
use crate::session::{
    changed_segments, lemma_rewritten_concat, meta_provider_of, replace_member, segment_output, rewrite_count, rewrite_text,
    rewritten_segments, set_member,
    with_provider,
};
use crate::text::{first_newline, segments};
use crate::provider::{
    collapse, hex_lower, ascii_lower, is_ascii_alnum, is_ascii_alpha, oauth_provider_id, secret_hash_of, sha256, is_ascii_digit, is_ascii_lower, is_legacy, is_sync_source, lemma_ascii_lower,
    legacy_ids, provider_prefix, sanitize, strip_underscores, strip_underscores_end, strip_underscores_start,
};
use crate::index::{merge_entries, merge_entry, scan_segments, EntryData};
use crate::text::{
    is_ws, lemma_seq_lt_irreflexive, lemma_seq_lt_total, lemma_seq_lt_transitive, normalize, seq_lt, trim, trim_end,
    trim_start,
};

verus! {

proof fn lemma_pass_dry_run(files: Seq<FileData>, target: Seq<char>, src: Seq<Seq<char>>, root: Seq<char>)
    ensures
        jsonl_pass(files, target, src, true, root).actions.len() == 0,
        !jsonl_pass(files, target, src, true, root).root_made,
    decreases files.len(),
{
    if files.len() > 0 {
        lemma_pass_dry_run(files.drop_last(), target, src, root);
    }
}

/// A dry run writes nothing: it plans no action and reports no backup
/// directory.
pub proof fn lemma_dry_run_writes_nothing(o: RepairOptions, inp: RepairInput, names: Seq<Option<Seq<char>>>)
    requires
        o.dry_run,
    ensures
        repair_plan(o, inp, names).0.len() == 0,
        repair_plan(o, inp, names).1 matches Ok(x) ==> x.backup_root is None && x.dry_run,
{
    if inp.codex_dir_exists {
        if let Ok(counts) = state_view(inp.state_counts) {
            let target = repair_target(o, inp).0;
            let files = files_view(inp.jsonl_files@);
            let src = sorted_ids(source_ids(files, counts, target));
            let root = inp.backup_root@;
            lemma_pass_dry_run(files, target, src, root);
        }
    }
}

/// The order of a repair's actions: each history file is backed up right
/// before it is replaced, the state database right before it is updated,
/// and the session index right before it is replaced where it exists (its
/// directory is created first where it does not); and every backup comes
/// after the backup directory is created.
pub open spec fn backups_first(a: Seq<ActionData>, index_exists: bool) -> bool {
    &&& forall|k: int|
        0 <= k < a.len() ==> (#[trigger] a[k] matches ActionData::WriteJsonl(i, _) ==> k > 0 && a[k - 1]
            == ActionData::BackupJsonl(i))
    &&& forall|k: int| 0 <= k < a.len() && #[trigger] a[k] is UpdateStateDb ==> k > 0 && a[k - 1] is BackupStateDb
    &&& forall|k: int|
        0 <= k < a.len() && #[trigger] a[k] is WriteSessionIndex ==> k > 0 && (if index_exists {
            a[k - 1] is BackupSessionIndex
        } else {
            a[k - 1] is CreateSessionIndexDir
        })
    &&& forall|k: int|
        0 <= k < a.len() && is_backup(#[trigger] a[k]) ==> exists|j: int| 0 <= j < k && a[j] is CreateBackupRoot
}

pub open spec fn is_backup(x: ActionData) -> bool {
    x is BackupJsonl || x is BackupStateDb || x is BackupSessionIndex
}

pub open spec fn has_root_before(a: Seq<ActionData>, n: int) -> bool {
    exists|j: int| 0 <= j < n && a[j] is CreateBackupRoot
}

proof fn lemma_with_root(a: Seq<ActionData>, made: bool, root: Seq<char>, e: bool)
    requires
        backups_first(a, e),
        made ==> has_root_before(a, a.len() as int),
    ensures
        backups_first(with_root(a, made, root), e),
        has_root_before(with_root(a, made, root), with_root(a, made, root).len() as int),
{
    let a2 = with_root(a, made, root);
    if !made {
        assert(a2[a.len() as int] is CreateBackupRoot);
        assert forall|k: int| 0 <= k < a2.len() && is_backup(#[trigger] a2[k]) implies has_root_before(a2, k) by {
            assert(a2[k] == a[k]);
            let j = choose|j: int| 0 <= j < k && a[j] is CreateBackupRoot;
            assert(a2[j] == a[j]);
        }
        assert forall|k: int| 0 <= k < a2.len() && #[trigger] a2[k] is WriteSessionIndex implies k > 0 && (if e {
            a2[k - 1] is BackupSessionIndex
        } else {
            a2[k - 1] is CreateSessionIndexDir
        }) by {
            assert(a2[k] == a[k]);
            assert(a2[k - 1] == a[k - 1]);
        }
        assert forall|k: int| 0 <= k < a2.len() && #[trigger] a2[k] is UpdateStateDb implies k > 0 && a2[k - 1] is BackupStateDb by {
            assert(a2[k] == a[k]);
            assert(a2[k - 1] == a[k - 1]);
        }
        assert forall|k: int| 0 <= k < a2.len() implies (#[trigger] a2[k] matches ActionData::WriteJsonl(i, _) ==> k > 0 && a2[k - 1]
            == ActionData::BackupJsonl(i)) by {
            if k < a.len() {
                assert(a2[k] == a[k]);
                if k > 0 {
                    assert(a2[k - 1] == a[k - 1]);
                }
            }
        }
    } else {
        let j = choose|j: int| 0 <= j < a.len() && a[j] is CreateBackupRoot;
    }
}

/// Appends a backup and the write that it guards.
proof fn lemma_push_pair(a: Seq<ActionData>, b: ActionData, w: ActionData, e: bool)
    requires
        backups_first(a, e),
        has_root_before(a, a.len() as int) || !is_backup(b),
        !(b is WriteJsonl) && !(b is UpdateStateDb) && !(b is WriteSessionIndex),
        w matches ActionData::WriteJsonl(i, _) ==> b == ActionData::BackupJsonl(i),
        w is UpdateStateDb ==> b is BackupStateDb,
        w is WriteSessionIndex ==> (if e {
            b is BackupSessionIndex
        } else {
            b is CreateSessionIndexDir
        }),
        !is_backup(w),
    ensures
        backups_first(a.push(b).push(w), e),
        has_root_before(a, a.len() as int) ==> has_root_before(a.push(b).push(w), a.len() as int + 2),
{
    let a2 = a.push(b).push(w);
    let n = a.len() as int;
    assert(a2[n] == b && a2[n + 1] == w);
    assert forall|k: int| 0 <= k < n implies a2[k] == a[k] by {}
    assert forall|k: int| 0 <= k < a2.len() && is_backup(#[trigger] a2[k]) implies has_root_before(a2, k) by {
        if k < n {
            let j = choose|j: int| 0 <= j < k && a[j] is CreateBackupRoot;
            assert(a2[j] == a[j]);
        } else {
            let j = choose|j: int| 0 <= j < n && a[j] is CreateBackupRoot;
            assert(a2[j] == a[j]);
        }
    }
    assert forall|k: int| 0 <= k < a2.len() && #[trigger] a2[k] is WriteSessionIndex implies k > 0 && (if e {
        a2[k - 1] is BackupSessionIndex
    } else {
        a2[k - 1] is CreateSessionIndexDir
    }) by {
        if k < n {
            assert(a2[k - 1] == a[k - 1]);
        }
    }
    assert forall|k: int| 0 <= k < a2.len() && #[trigger] a2[k] is UpdateStateDb implies k > 0 && a2[k - 1] is BackupStateDb by {
        if k < n {
            assert(a2[k - 1] == a[k - 1]);
        }
    }
    assert forall|k: int| 0 <= k < a2.len() implies (#[trigger] a2[k] matches ActionData::WriteJsonl(i, _) ==> k > 0 && a2[k - 1]
        == ActionData::BackupJsonl(i)) by {
        if k < n && k > 0 {
            assert(a2[k - 1] == a[k - 1]);
        }
    }
    if has_root_before(a, n) {
        let j = choose|j: int| 0 <= j < n && a[j] is CreateBackupRoot;
        assert(a2[j] == a[j]);
    }
}

proof fn lemma_pass_order(files: Seq<FileData>, target: Seq<char>, src: Seq<Seq<char>>, dry_run: bool, root: Seq<char>, e: bool)
    ensures
        backups_first(jsonl_pass(files, target, src, dry_run, root).actions, e),
        jsonl_pass(files, target, src, dry_run, root).root_made ==> has_root_before(
            jsonl_pass(files, target, src, dry_run, root).actions,
            jsonl_pass(files, target, src, dry_run, root).actions.len() as int,
        ),
    decreases files.len(),
{
    if files.len() > 0 {
        let st = jsonl_pass(files.drop_last(), target, src, dry_run, root);
        lemma_pass_order(files.drop_last(), target, src, dry_run, root, e);
        let p = jsonl_pass(files, target, src, dry_run, root);
        if p.actions != st.actions {
            let idx = (files.len() - 1) as nat;
            let a1 = with_root(st.actions, st.root_made, root);
            lemma_with_root(st.actions, st.root_made, root, e);
            lemma_push_pair(a1, ActionData::BackupJsonl(idx), p.actions.last(), e);
            assert(p.actions =~= a1.push(ActionData::BackupJsonl(idx)).push(p.actions.last()));
        }
    }
}

/// A repair backs up what it changes before it changes it (see
/// [`backups_first`]).
pub proof fn lemma_backups_before_writes(o: RepairOptions, inp: RepairInput, names: Seq<Option<Seq<char>>>)
    ensures
        backups_first(repair_plan(o, inp, names).0, inp.session_index_exists),
{
    let e = inp.session_index_exists;
    if inp.codex_dir_exists {
        if let Ok(counts) = state_view(inp.state_counts) {
            let target = repair_target(o, inp).0;
            let files = files_view(inp.jsonl_files@);
            let src = sorted_ids(source_ids(files, counts, target));
            let root = inp.backup_root@;
            let p = jsonl_pass(files, target, src, o.dry_run, root);
            lemma_pass_order(files, target, src, o.dry_run, root, e);
            if p.error is None {
                let rows = crate::repair::state_rows(counts, src);
                let migrate = rows > 0 && !o.dry_run;
                let a2 = if migrate {
                    with_root(p.actions, p.root_made, root).push(ActionData::BackupStateDb).push(
                        ActionData::UpdateStateDb(target, src),
                    )
                } else {
                    p.actions
                };
                let made2 = p.root_made || migrate;
                if migrate {
                    let a1 = with_root(p.actions, p.root_made, root);
                    lemma_with_root(p.actions, p.root_made, root, e);
                    lemma_push_pair(a1, ActionData::BackupStateDb, ActionData::UpdateStateDb(target, src), e);
                }
                assert(backups_first(a2, e));
                assert(made2 ==> has_root_before(a2, a2.len() as int));
                if let Ok(lines) = inp.session_index {
                    if let Ok(d) = derived_entries(files, target, src, o.dry_run, names, inp.now@) {
                        let (m, c) = crate::index::merge_entries(
                            crate::index::existing_map(crate::index::entry_views(lines@)),
                            d,
                        );
                        let text = crate::index::index_file_text(crate::index::index_order(m));
                        if c > 0 && !o.dry_run {
                            if e {
                                let a1 = with_root(a2, made2, root);
                                lemma_with_root(a2, made2, root, e);
                                lemma_push_pair(a1, ActionData::BackupSessionIndex, ActionData::WriteSessionIndex(text), e);
                            } else {
                                lemma_push_pair(a2, ActionData::CreateSessionIndexDir, ActionData::WriteSessionIndex(text), e);
                            }
                        }
                    }
                }
            }
        }
    }
}

proof fn lemma_pass_dry_agrees(files: Seq<FileData>, target: Seq<char>, src: Seq<Seq<char>>, root: Seq<char>)
    ensures
        jsonl_pass(files, target, src, true, root).error == jsonl_pass(files, target, src, false, root).error,
        jsonl_pass(files, target, src, true, root).files == jsonl_pass(files, target, src, false, root).files,
        jsonl_pass(files, target, src, true, root).lines == jsonl_pass(files, target, src, false, root).lines,
    decreases files.len(),
{
    if files.len() > 0 {
        lemma_pass_dry_agrees(files.drop_last(), target, src, root);
    }
}

proof fn lemma_derived_dry_agrees(
    files: Seq<FileData>,
    target: Seq<char>,
    src: Seq<Seq<char>>,
    names1: Seq<Option<Seq<char>>>,
    names2: Seq<Option<Seq<char>>>,
    now: Seq<char>,
)
    ensures
        derived_entries(files, target, src, true, names1, now) is Err <==> derived_entries(
            files,
            target,
            src,
            false,
            names2,
            now,
        ) is Err,
        derived_entries(files, target, src, true, names1, now) matches Err(e) ==> derived_entries(
            files,
            target,
            src,
            false,
            names2,
            now,
        ) == Err::<Seq<Option<crate::index::EntryData>>, ErrorData>(e),
    decreases files.len(),
{
    if files.len() > 0 {
        lemma_derived_dry_agrees(files.drop_last(), target, src, names1, names2, now);
    }
}

proof fn lemma_derived_modes_agree(
    files: Seq<FileData>,
    target: Seq<char>,
    src: Seq<Seq<char>>,
    names: Seq<Option<Seq<char>>>,
    now: Seq<char>,
)
    requires
        rewrites_keep_entries(files, target, src),
    ensures
        derived_entries(files, target, src, true, names, now) == derived_entries(files, target, src, false, names, now),
    decreases files.len(),
{
    if files.len() > 0 {
        assert forall|j: int|
            0 <= j < files.drop_last().len() && #[trigger] rewrites_file(files.drop_last()[j], target, src, false) implies scan_segments(
                segments(rewrite_text(files.drop_last()[j].text, target, src)),
            ) == scan_segments(segments(files.drop_last()[j].text)) by {
            assert(files.drop_last()[j] == files[j]);
        }
        lemma_derived_modes_agree(files.drop_last(), target, src, names, now);
        let f = files.last();
        assert(files[files.len() - 1] == f);
        if rewrites_file(f, target, src, false) {
            assert(scan_segments(segments(rewrite_text(f.text, target, src))) == scan_segments(segments(f.text)));
        }
    }
}

/// Where every file that a real repair rewrites reads, for the session
/// index, as before, the other mode of a successful repair also succeeds
/// and rebuilds as many index entries.
pub(crate) proof fn lemma_other_mode_rebuilds_alike(o: RepairOptions, inp: RepairInput, names: Seq<Option<Seq<char>>>)
    requires
        inp.codex_dir_exists,
        state_view(inp.state_counts) is Ok,
        rewrites_keep_entries(
            files_view(inp.jsonl_files@),
            repair_target(o, inp).0,
            sorted_ids(
                source_ids(files_view(inp.jsonl_files@), state_view(inp.state_counts)->Ok_0, repair_target(o, inp).0),
            ),
        ),
    ensures
        repair_plan(o, inp, names).1 is Ok ==> {
            &&& repair_plan(other_mode(o), inp, names).1 is Ok
            &&& repair_plan(other_mode(o), inp, names).1->Ok_0.rebuilt_session_index_entries == repair_plan(
                o,
                inp,
                names,
            ).1->Ok_0.rebuilt_session_index_entries
        },
{
    let o2 = other_mode(o);
    let counts = state_view(inp.state_counts)->Ok_0;
    assert(repair_target(o, inp) == repair_target(o2, inp));
    let target = repair_target(o, inp).0;
    let files = files_view(inp.jsonl_files@);
    let src = sorted_ids(source_ids(files, counts, target));
    let root = inp.backup_root@;
    lemma_pass_dry_agrees(files, target, src, root);
    lemma_derived_modes_agree(files, target, src, names, inp.now@);
}

/// A dry run reports what the repair would do: it fails where the repair
/// fails, with the same error, and otherwise reports the same target
/// bucket, source buckets and counts of history files, changed lines and
/// state rows, whatever names the platform gives of working directories.
/// That it also reports as many rebuilt index entries, for the same names,
/// rests on reading back the lines that serde_json writes, so
/// `repair_codex_history` states it of each plan it makes.
pub proof fn lemma_preview_matches_repair(
    preview: RepairOptions,
    actual: RepairOptions,
    inp: RepairInput,
    names1: Seq<Option<Seq<char>>>,
    names2: Seq<Option<Seq<char>>>,
)
    requires
        preview.codex_dir@ == actual.codex_dir@,
        preview.target_provider_id == actual.target_provider_id,
        preview.dry_run,
        !actual.dry_run,
    ensures
        repair_plan(preview, inp, names1).1 is Ok <==> repair_plan(actual, inp, names2).1 is Ok,
        repair_plan(preview, inp, names1).1 matches Err(e) ==> repair_plan(actual, inp, names2).1 == Err::<
            OutcomeData,
            ErrorData,
        >(e),
        repair_plan(preview, inp, names1).1 matches Ok(x) ==> repair_plan(actual, inp, names2).1 matches Ok(y) && {
            &&& x.codex_dir == y.codex_dir
            &&& x.target_provider_id == y.target_provider_id
            &&& x.target_provider_source == y.target_provider_source
            &&& x.source_provider_ids == y.source_provider_ids
            &&& x.scanned_jsonl_files == y.scanned_jsonl_files
            &&& x.migrated_jsonl_files == y.migrated_jsonl_files
            &&& x.migrated_jsonl_lines == y.migrated_jsonl_lines
            &&& x.migrated_state_rows == y.migrated_state_rows
        },
{
    if inp.codex_dir_exists {
        if let Ok(counts) = state_view(inp.state_counts) {
            assert(repair_target(preview, inp) == repair_target(actual, inp));
            let target = repair_target(preview, inp).0;
            let files = files_view(inp.jsonl_files@);
            let src = sorted_ids(source_ids(files, counts, target));
            let root = inp.backup_root@;
            lemma_pass_dry_agrees(files, target, src, root);
            lemma_derived_dry_agrees(files, target, src, names1, names2, inp.now@);
        }
    }
}

/// `openai` and `custom` are current buckets, never legacy ones: a repair
/// into one of them moves the sessions of the other, and a legacy bucket
/// is moved into any target but itself; the target is never a source.
pub proof fn lemma_sync_buckets(id: Seq<char>, target: Seq<char>)
    ensures
        !is_legacy("openai"@),
        !is_legacy("custom"@),
        is_sync_source("openai"@, "custom"@),
        is_sync_source("custom"@, "openai"@),
        is_legacy(id) && id != target ==> is_sync_source(id, target),
        !is_sync_source(target, target),
{
    reveal_strlit("openai");
    reveal_strlit("custom");
    reveal_strlit("ccswitch");
    reveal_strlit("aicodemirror");
    reveal_strlit("aicoding");
    reveal_strlit("aigocode");
    reveal_strlit("aihubmix");
    reveal_strlit("ark_agentplan");
    reveal_strlit("bailian");
    reveal_strlit("bailing");
    reveal_strlit("byteplus");
    reveal_strlit("claudecn");
    reveal_strlit("compshare");
    reveal_strlit("compshare_coding");
    reveal_strlit("crazyrouter");
    reveal_strlit("ctok");
    reveal_strlit("cubence");
    reveal_strlit("deepseek");
    reveal_strlit("dmxapi");
    reveal_strlit("doubaoseed");
    reveal_strlit("eflowcode");
    reveal_strlit("kimi");
    reveal_strlit("lemondata");
    reveal_strlit("longcat");
    reveal_strlit("micu");
    reveal_strlit("minimax");
    reveal_strlit("minimax_en");
    reveal_strlit("modelscope");
    reveal_strlit("novita");
    reveal_strlit("nvidia");
    reveal_strlit("openrouter");
    reveal_strlit("packycode");
    reveal_strlit("patewayai");
    reveal_strlit("pipellm");
    reveal_strlit("qianfan_coding");
    reveal_strlit("relaxycode");
    reveal_strlit("rightcode");
    reveal_strlit("runapi");
    reveal_strlit("shengsuanyun");
    reveal_strlit("siliconflow");
    reveal_strlit("siliconflow_en");
    reveal_strlit("sssaicode");
    reveal_strlit("stepfun");
    reveal_strlit("stepfun_en");
    reveal_strlit("therouter");
    reveal_strlit("xiaomi_mimo");
    reveal_strlit("xiaomi_mimo_token_plan");
    reveal_strlit("zhipu_glm");
    reveal_strlit("zhipu_glm_en");
    assert("openai"@[0] != "custom"@[0]);
    let ids = legacy_ids();
    assert forall|i: int| 0 <= i < ids.len() implies ids[i] != "openai"@ && ids[i] != "custom"@ by {
        if ids[i] == "openai"@ {
            assert(ids[i].len() == 6 && ids[i][0] == 'o' && ids[i][5] == 'i');
        }
        if ids[i] == "custom"@ {
            assert(ids[i].len() == 6 && ids[i][0] == 'c' && ids[i][5] == 'm');
        }
    }
}

/// `a` is the same time as `b` or later, in the order of the text.
pub open spec fn not_earlier(a: Seq<char>, b: Seq<char>) -> bool {
    a == b || seq_lt(b, a)
}

proof fn lemma_not_earlier_trans(a: Seq<char>, b: Seq<char>, c: Seq<char>)
    requires
        not_earlier(a, b),
        not_earlier(b, c),
    ensures
        not_earlier(a, c),
{
    if seq_lt(c, b) && seq_lt(b, a) {
        lemma_seq_lt_transitive(c, b, a);
    }
}

/// What the merge keeps of the existing entries, and what it ensures of
/// the derived ones.
pub open spec fn merge_keeps(m: Map<Seq<char>, EntryData>, d: Seq<Option<EntryData>>, m1: Map<Seq<char>, EntryData>) -> bool {
    &&& forall|k: Seq<char>|
        #[trigger] m.contains_key(k) ==> m1.contains_key(k) && m1[k].id == m[k].id && m1[k].thread_name
            == m[k].thread_name && not_earlier(m1[k].updated_at, m[k].updated_at)
    &&& forall|j: int|
        0 <= j < d.len() && #[trigger] d[j] is Some ==> m1.contains_key(d[j]->0.id) && not_earlier(
            m1[d[j]->0.id].updated_at,
            d[j]->0.updated_at,
        )
}

proof fn lemma_merge_keeps(m: Map<Seq<char>, EntryData>, d: Seq<Option<EntryData>>)
    ensures
        merge_keeps(m, d, merge_entries(m, d).0),
    decreases d.len(),
{
    if d.len() > 0 {
        let p = d.drop_last();
        lemma_merge_keeps(m, p);
        let (m1, c1) = merge_entries(m, p);
        let m2 = merge_entries(m, d).0;
        match d.last() {
            None => {
                assert forall|j: int| 0 <= j < d.len() && #[trigger] d[j] is Some implies m2.contains_key(d[j]->0.id)
                    && not_earlier(m2[d[j]->0.id].updated_at, d[j]->0.updated_at) by {
                    assert(d[j] == p[j]);
                }
            },
            Some(e) => {
                assert(m2 == merge_entry(m1, c1, e).0);
                assert forall|k: Seq<char>| #[trigger] m1.contains_key(k) implies m2.contains_key(k) && m2[k].id
                    == m1[k].id && m2[k].thread_name == m1[k].thread_name && not_earlier(m2[k].updated_at, m1[k].updated_at) by {
                    if k == e.id && seq_lt(m1[k].updated_at, e.updated_at) {
                        assert(m2[k].updated_at == e.updated_at);
                    }
                }
                assert forall|k: Seq<char>| #[trigger] m.contains_key(k) implies m2.contains_key(k) && m2[k].id == m[k].id
                    && m2[k].thread_name == m[k].thread_name && not_earlier(m2[k].updated_at, m[k].updated_at) by {
                    assert(m1.contains_key(k));
                    lemma_not_earlier_trans(m2[k].updated_at, m1[k].updated_at, m[k].updated_at);
                }
                assert(m2.contains_key(e.id) && not_earlier(m2[e.id].updated_at, e.updated_at)) by {
                    if m1.contains_key(e.id) && !seq_lt(m1[e.id].updated_at, e.updated_at) {
                        lemma_seq_lt_total(m1[e.id].updated_at, e.updated_at);
                    }
                }
                assert forall|j: int| 0 <= j < d.len() && #[trigger] d[j] is Some implies m2.contains_key(d[j]->0.id)
                    && not_earlier(m2[d[j]->0.id].updated_at, d[j]->0.updated_at) by {
                    if j < d.len() - 1 {
                        assert(d[j] == p[j]);
                        let x = d[j]->0;
                        assert(m1.contains_key(x.id));
                        lemma_not_earlier_trans(m2[x.id].updated_at, m1[x.id].updated_at, x.updated_at);
                    }
                }
            },
        }
    }
}

/// The index merge keeps every existing entry under its id, with its
/// thread name (a name the user gave stays), and never moves its date
/// back; each derived entry ends up in the index, dated no earlier than
/// it.
pub proof fn lemma_merge_keeps_existing(m: Map<Seq<char>, EntryData>, d: Seq<Option<EntryData>>)
    ensures
        merge_keeps(m, d, merge_entries(m, d).0),
{
    lemma_merge_keeps(m, d);
}

proof fn lemma_merge_settled(m1: Map<Seq<char>, EntryData>, d: Seq<Option<EntryData>>)
    requires
        forall|j: int|
            0 <= j < d.len() && #[trigger] d[j] is Some ==> m1.contains_key(d[j]->0.id) && not_earlier(
                m1[d[j]->0.id].updated_at,
                d[j]->0.updated_at,
            ),
    ensures
        merge_entries(m1, d) == (m1, 0nat),
    decreases d.len(),
{
    if d.len() > 0 {
        let p = d.drop_last();
        assert forall|j: int| 0 <= j < p.len() && #[trigger] p[j] is Some implies m1.contains_key(p[j]->0.id)
            && not_earlier(m1[p[j]->0.id].updated_at, p[j]->0.updated_at) by {
            assert(p[j] == d[j]);
        }
        lemma_merge_settled(m1, p);
        if let Some(e) = d.last() {
            assert(d[d.len() - 1] is Some);
            lemma_seq_lt_total(m1[e.id].updated_at, e.updated_at);
            lemma_seq_lt_irreflexive(e.updated_at);
        }
    }
}

/// Merging the same derived entries a second time changes nothing and
/// counts nothing.
pub proof fn lemma_merge_idempotent(m: Map<Seq<char>, EntryData>, d: Seq<Option<EntryData>>)
    ensures
        merge_entries(merge_entries(m, d).0, d) == (merge_entries(m, d).0, 0nat),
{
    lemma_merge_keeps(m, d);
    lemma_merge_settled(merge_entries(m, d).0, d);
}

/// A character that may stand in a sanitized provider id.
pub open spec fn id_char(c: char) -> bool {
    is_ascii_lower(c) || is_ascii_digit(c) || c == '_'
}

/// The shape of a sanitized provider id: lower-case letters, digits and
/// single `_` separators, starting with a letter and not ending with `_`.
pub open spec fn clean_id(s: Seq<char>) -> bool {
    &&& s.len() > 0
    &&& is_ascii_lower(s[0])
    &&& s.last() != '_'
    &&& forall|i: int| 0 <= i < s.len() ==> id_char(#[trigger] s[i])
    &&& forall|i: int| 0 < i < s.len() && #[trigger] s[i] == '_' ==> s[i - 1] != '_'
}

/// No two `_` in a row.
pub open spec fn single_separators(s: Seq<char>) -> bool {
    &&& forall|i: int| 0 <= i < s.len() ==> id_char(#[trigger] s[i])
    &&& forall|i: int| 0 < i < s.len() && #[trigger] s[i] == '_' ==> s[i - 1] != '_'
}

proof fn lemma_collapse_shape(t: Seq<char>)
    ensures
        single_separators(collapse(t).0),
        collapse(t).1 == (collapse(t).0.len() > 0 && collapse(t).0.last() == '_'),
    decreases t.len(),
{
    if t.len() > 0 {
        lemma_collapse_shape(t.drop_last());
        let (o, p) = collapse(t.drop_last());
        let c = t.last();
        lemma_ascii_lower(c);
        let o2 = collapse(t).0;
        assert forall|i: int| 0 <= i < o2.len() implies id_char(#[trigger] o2[i]) by {
            if i < o.len() {
                assert(o2[i] == o[i]);
            }
        }
        assert forall|i: int| 0 < i < o2.len() && #[trigger] o2[i] == '_' implies o2[i - 1] != '_' by {
            if i < o.len() {
                assert(o2[i] == o[i] && o2[i - 1] == o[i - 1]);
            } else {
                assert(o2[i - 1] == o[i - 1]);
            }
        }
    }
}

proof fn lemma_strip_start(s: Seq<char>) -> (k: int)
    ensures
        0 <= k <= s.len(),
        strip_underscores_start(s) == s.skip(k),
        s.skip(k).len() > 0 ==> s.skip(k)[0] != '_',
        forall|i: int| 0 <= i < k ==> s[i] == '_',
    decreases s.len(),
{
    if s.len() > 0 && s[0] == '_' {
        let k = lemma_strip_start(s.drop_first());
        assert(s.drop_first().skip(k) =~= s.skip(k + 1));
        assert forall|i: int| 0 <= i < k + 1 implies s[i] == '_' by {
            if i > 0 {
                assert(s[i] == s.drop_first()[i - 1]);
            }
        }
        k + 1
    } else {
        assert(s.skip(0) =~= s);
        0
    }
}

proof fn lemma_strip_end(s: Seq<char>) -> (k: int)
    ensures
        0 <= k <= s.len(),
        strip_underscores_end(s) == s.take(k),
        k > 0 ==> s[k - 1] != '_',
        forall|i: int| k <= i < s.len() ==> s[i] == '_',
    decreases s.len(),
{
    if s.len() > 0 && s.last() == '_' {
        let k = lemma_strip_end(s.drop_last());
        assert(s.drop_last().take(k) =~= s.take(k));
        assert forall|i: int| k <= i < s.len() implies s[i] == '_' by {
            if i < s.len() - 1 {
                assert(s[i] == s.drop_last()[i]);
            }
        }
        k
    } else {
        assert(s.take(s.len() as int) =~= s);
        s.len() as int
    }
}

/// A sanitized provider id has the shape of [`clean_id`].
pub proof fn lemma_sanitize_shape(raw: Seq<char>)
    ensures
        sanitize(raw) matches Some(s) ==> clean_id(s),
{
    let o = collapse(trim(raw)).0;
    lemma_collapse_shape(trim(raw));
    let k1 = lemma_strip_start(o);
    let x = o.skip(k1);
    let k2 = lemma_strip_end(x);
    let core = x.take(k2);
    assert(strip_underscores(o) == core);
    assert forall|i: int| 0 <= i < core.len() implies #[trigger] core[i] == o[k1 + i] by {}
    if core.len() > 0 {
        assert(core[0] == x[0]);
        assert(core.last() == x[k2 - 1]);
        assert(id_char(o[k1]));
        if is_ascii_alpha(core[0]) {
            assert forall|i: int| 0 < i < core.len() && #[trigger] core[i] == '_' implies core[i - 1] != '_' by {
                assert(core[i] == o[k1 + i] && core[i - 1] == o[k1 + i - 1]);
            }
            assert forall|i: int| 0 <= i < core.len() implies id_char(#[trigger] core[i]) by {
                assert(core[i] == o[k1 + i]);
            }
        } else {
            let s = provider_prefix() + core;
            assert(is_ascii_digit(core[0]));
            assert forall|i: int| 0 <= i < s.len() implies id_char(#[trigger] s[i]) by {
                if i >= 9 {
                    assert(s[i] == core[i - 9] && core[i - 9] == o[k1 + i - 9]);
                }
            }
            assert forall|i: int| 0 < i < s.len() && #[trigger] s[i] == '_' implies s[i - 1] != '_' by {
                if i > 9 {
                    assert(s[i] == core[i - 9] && s[i - 1] == core[i - 10]);
                    assert(core[i - 9] == o[k1 + i - 9] && core[i - 10] == o[k1 + i - 10]);
                } else if i == 9 {
                    assert(s[9] == core[0]);
                }
            }
            assert(s.last() == core.last());
        }
    }
}

proof fn lemma_collapse_clean(t: Seq<char>)
    requires
        single_separators(t),
        t.len() > 0 ==> t[0] != '_',
    ensures
        collapse(t) == (t, t.len() > 0 && t.last() == '_'),
    decreases t.len(),
{
    if t.len() > 0 {
        let u = t.drop_last();
        assert forall|i: int| 0 <= i < u.len() implies id_char(#[trigger] u[i]) by {
            assert(u[i] == t[i]);
        }
        assert forall|i: int| 0 < i < u.len() && #[trigger] u[i] == '_' implies u[i - 1] != '_' by {
            assert(u[i] == t[i] && u[i - 1] == t[i - 1]);
        }
        if u.len() > 0 {
            assert(u[0] == t[0]);
        }
        lemma_collapse_clean(u);
        let c = t.last();
        assert(id_char(t[t.len() - 1]));
        lemma_ascii_lower(c);
        if c == '_' {
            assert(t.len() > 1);
            assert(u.last() == t[t.len() - 2]);
        }
        assert(u.push(c) =~= t);
    }
}

/// A sanitized provider id sanitizes to itself.
pub proof fn lemma_sanitize_idempotent(raw: Seq<char>)
    ensures
        sanitize(raw) matches Some(s) ==> sanitize(s) == Some(s),
{
    lemma_sanitize_shape(raw);
    if let Some(s) = sanitize(raw) {
        lemma_clean_id_sanitizes_to_itself(s);
    }
}

/// An id of the shape of [`clean_id`] is left as it is by sanitizing.
pub proof fn lemma_clean_id_sanitizes_to_itself(s: Seq<char>)
    requires
        clean_id(s),
    ensures
        sanitize(s) == Some(s),
{
    assert(id_char(s[s.len() - 1]));
    assert(!is_ws(s[0]));
    assert(!is_ws(s.last()));
    assert(trim_start(s) == s);
    assert(trim_end(s) == s);
    lemma_collapse_clean(s);
    assert(strip_underscores_start(s) == s);
    assert(strip_underscores_end(s) == s);
}

proof fn lemma_trim_start_ends(s: Seq<char>)
    ensures
        trim_start(s).len() > 0 ==> !is_ws(trim_start(s)[0]),
        trim_start(s).len() > 0 ==> trim_start(s).last() == s.last(),
    decreases s.len(),
{
    if s.len() > 0 && is_ws(s[0]) {
        lemma_trim_start_ends(s.drop_first());
    }
}

proof fn lemma_trim_end_ends(s: Seq<char>)
    ensures
        trim_end(s).len() > 0 ==> !is_ws(trim_end(s).last()),
        trim_end(s).len() > 0 ==> trim_end(s)[0] == s[0],
    decreases s.len(),
{
    if s.len() > 0 && is_ws(s.last()) {
        lemma_trim_end_ends(s.drop_last());
    }
}

/// Trimming twice is trimming once, so normalizing is idempotent.
pub proof fn lemma_normalize_idempotent(s: Seq<char>)
    ensures
        trim(trim(s)) == trim(s),
        normalize(s) matches Some(t) ==> normalize(t) == Some(t),
{
    let t = trim(s);
    lemma_trim_start_ends(s);
    lemma_trim_end_ends(trim_start(s));
    if t.len() > 0 {
        assert(!is_ws(t[0]) && !is_ws(t.last()));
    }
    assert(trim_start(t) == t);
    assert(trim_end(t) == t);
}

proof fn lemma_find_replaced(ms: Seq<(Seq<char>, JsonData)>, key: Seq<char>, val: JsonData, k: Seq<char>)
    ensures
        find_member(replace_member(ms, key, val), k) == if k == key {
            if find_member(ms, key) is Some {
                Some(val)
            } else {
                None
            }
        } else {
            find_member(ms, k)
        },
    decreases ms.len(),
{
    if ms.len() > 0 {
        if ms[0].0 == key {
            let r = ms.update(0, (key, val));
            assert(r.drop_first() =~= ms.drop_first());
        } else {
            lemma_find_replaced(ms.drop_first(), key, val, k);
            let r = seq![ms[0]] + replace_member(ms.drop_first(), key, val);
            assert(r[0] == ms[0]);
            assert(r.drop_first() =~= replace_member(ms.drop_first(), key, val));
        }
    }
}

/// The record that a history line is rewritten to is a `session_meta`
/// record of the target bucket (trimmed, as every bucket is read): its
/// `payload.model_provider` is set to the target, and every other member of
/// the record and of its payload is kept.
pub proof fn lemma_rewritten_record(v: JsonData, target: Seq<char>)
    requires
        meta_provider_of(v) is Some,
    ensures
        meta_provider_of(with_provider(v, target)) == normalize(target),
        get_str(with_provider(v, target), "model_provider"@) == get_str(v, "model_provider"@),
        forall|k: Seq<char>| k != "payload"@ ==> #[trigger] get(with_provider(v, target), k) == get(v, k),
        forall|k: Seq<char>|
            k != "model_provider"@ ==> #[trigger] get(get(with_provider(v, target), "payload"@)->0, k) == get(
                get(v, "payload"@)->0,
                k,
            ),
{
    reveal_strlit("payload");
    reveal_strlit("type");
    reveal_strlit("model_provider");
    let p = get(v, "payload"@)->0;
    let p2 = set_member(p, "model_provider"@, JsonData::Str(target));
    let ms = v->Object_0;
    let pms = p->Object_0;
    lemma_find_replaced(ms, "payload"@, p2, "payload"@);
    lemma_find_replaced(ms, "payload"@, p2, "type"@);
    lemma_find_replaced(ms, "payload"@, p2, "model_provider"@);
    lemma_find_replaced(pms, "model_provider"@, JsonData::Str(target), "model_provider"@);
    assert("type"@ != "payload"@) by {
        assert("type"@.len() != "payload"@.len());
    }
    assert("model_provider"@ != "payload"@) by {
        assert("model_provider"@.len() != "payload"@.len());
    }
    assert forall|k: Seq<char>| k != "payload"@ implies #[trigger] get(with_provider(v, target), k) == get(v, k) by {
        lemma_find_replaced(ms, "payload"@, p2, k);
    }
    assert forall|k: Seq<char>| k != "model_provider"@ implies #[trigger] get(
        get(with_provider(v, target), "payload"@)->0,
        k,
    ) == get(get(v, "payload"@)->0, k) by {
        lemma_find_replaced(pms, "model_provider"@, JsonData::Str(target), k);
    }
}

/// A history file with no line to move into the target bucket is given
/// back unchanged by the rewrite, line endings included.
pub proof fn lemma_rewrite_keeps_text(t: Seq<char>, target: Seq<char>, src: Seq<Seq<char>>)
    requires
        rewrite_count(t, target, src) == 0,
    ensures
        rewrite_text(t, target, src) == t,
    decreases t.len(),
{
    if t.len() > 0 {
        let k = first_newline(t);
        lemma_first_newline_bound(t);
        if k < t.len() {
            let first = seq![(t.take(k as int), true)];
            let rest = t.skip(k + 1 as int);
            lemma_rewritten_concat(first, segments(rest), target, src);
            assert(segments(t) == first + segments(rest));
            assert(first.drop_last() =~= Seq::<(Seq<char>, bool)>::empty());
            assert(first.last() == (t.take(k as int), true));
            assert(changed_segments(first, target, src) == 0);
            assert(rewritten_segments(first.drop_last(), target, src) =~= Seq::<char>::empty());
            assert(segment_output(first.last(), target, src) == t.take(k as int).push('\n'));
            assert(rewritten_segments(first, target, src) =~= t.take(k as int).push('\n'));
            assert(rewrite_count(rest, target, src) == 0);
            lemma_rewrite_keeps_text(rest, target, src);
            assert(rewrite_text(t, target, src) == rewritten_segments(first, target, src) + rewrite_text(rest, target, src));
            assert(t.take(k as int).push('\n') + rest =~= t);
        } else {
            let only = seq![(t, false)];
            assert(segments(t) == only);
            assert(only.drop_last() =~= Seq::<(Seq<char>, bool)>::empty());
            assert(only.last() == (t, false));
            assert(changed_segments(only, target, src) == 0);
            assert(rewritten_segments(only.drop_last(), target, src) =~= Seq::<char>::empty());
            assert(segment_output(only.last(), target, src) == t);
            assert(rewritten_segments(only, target, src) =~= t);
        }
    }
}

proof fn lemma_first_newline_bound(t: Seq<char>)
    ensures
        first_newline(t) <= t.len(),
        first_newline(t) < t.len() ==> t[first_newline(t) as int] == '\n',
    decreases t.len(),
{
    if t.len() > 0 && t[0] != '\n' {
        lemma_first_newline_bound(t.drop_first());
    }
}

/// Only OpenAI account exports are imported: an accepted draft is an
/// account draft with no base URL and no API key, under the sanitized id
/// that was asked for where one was; without JSON the import is refused.
pub proof fn lemma_only_account_imports(
    json_text: Option<Seq<char>>,
    provider_id: Option<Seq<char>>,
    provider_name: Option<Seq<char>>,
    model: Option<Seq<char>>,
)
    ensures
        import_draft_result(None, provider_id, provider_name, model) == Err::<DraftData, ErrorData>(
            ErrorData::ProviderImport(unsupported_import_message()),
        ),
        import_draft_result(json_text, provider_id, provider_name, model) matches Ok(d) ==> {
            &&& d.import_kind == "openai_account"@
            &&& d.base_url is None
            &&& d.api_key is None
            &&& d.oauth_account_id is Some
            &&& forall|p: Seq<char>|
                provider_id == Some(p) && #[trigger] sanitize(p) is Some ==> d.provider_id == sanitize(p)->0
                    && clean_id(d.provider_id)
        },
{
    if let Some(p) = provider_id {
        lemma_sanitize_shape(p);
    }
}

/// The application bundle found for an executable is one of its ancestors:
/// a prefix of its path, with the extension `app`.
pub proof fn lemma_app_bundle_is_ancestor(s: Seq<char>)
    ensures
        app_bundle(s) matches Some(b) ==> b.len() <= s.len() && b == s.take(b.len() as int) && extension(b)
            == Some("app"@),
    decreases s.len(),
{
    if extension(s) != Some("app"@) {
        lemma_parent_path(s);
        if let Some(q) = parent_path(s) {
            lemma_app_bundle_is_ancestor(q);
            if let Some(b) = app_bundle(q) {
                assert(q.take(b.len() as int) =~= s.take(b.len() as int));
            }
        }
    } else {
        assert(s.take(s.len() as int) =~= s);
    }
}

proof fn lemma_hex_digit(d: int)
    requires
        0 <= d < 16,
    ensures
        id_char(hex_digit(d)),
        hex_digit(d) != '_',
{
    reveal_strlit("0123456789abcdef");
    let digits = "0123456789abcdef"@;
    if d < 10 {
        assert(is_ascii_digit(digits[d]));
    } else {
        assert(is_ascii_lower(digits[d]));
    }
}

proof fn lemma_hex_lower_chars(bytes: Seq<u8>)
    ensures
        forall|i: int| 0 <= i < hex_lower(bytes).len() ==> id_char(#[trigger] hex_lower(bytes)[i]) && hex_lower(bytes)[i] != '_',
    decreases bytes.len(),
{
    if bytes.len() > 0 {
        lemma_hex_lower_chars(bytes.drop_last());
        let b = bytes.last();
        lemma_hex_digit((b / 16) as int);
        lemma_hex_digit((b % 16) as int);
        let h = hex_lower(bytes);
        let p = hex_lower(bytes.drop_last());
        assert forall|i: int| 0 <= i < h.len() implies id_char(#[trigger] h[i]) && h[i] != '_' by {
            if i < p.len() {
                assert(h[i] == p[i]);
            }
        }
    }
}

/// The id derived for an imported account, with a digest of at least 8
/// characters, has the shape of [`clean_id`].
pub(crate) proof fn lemma_oauth_id_shape(provider_name: Seq<char>, account_id: Seq<char>)
    requires
        secret_hash_of(account_id).len() >= 8,
    ensures
        clean_id(oauth_provider_id(provider_name, account_id)),
{
    reveal_strlit("chr_openai_");
    reveal_strlit("chatgpt");
    let name = match sanitize(provider_name) {
        Some(n) => n,
        None => "chatgpt"@,
    };
    lemma_sanitize_shape(provider_name);
    assert(clean_id(name)) by {
        if sanitize(provider_name) is None {
            assert forall|i: int| 0 <= i < name.len() implies id_char(#[trigger] name[i]) by {}
        }
    }
    lemma_hex_lower_chars(sha256(vstd::utf8::encode_utf8(account_id)));
    let hash = secret_hash_of(account_id).take(8);
    let pre = "chr_openai_"@;
    let s = oauth_provider_id(provider_name, account_id);
    assert(s == pre + name + seq!['_'] + hash);
    let a = pre.len() as int;
    let b = a + name.len();
    assert(pre.len() == 11);
    assert forall|i: int| 0 <= i < s.len() implies id_char(#[trigger] s[i]) by {
        if i < a {
            assert(s[i] == pre[i]);
        } else if i < b {
            assert(s[i] == name[i - a]);
        } else if i > b {
            assert(s[i] == hash[i - b - 1]);
            assert(hash[i - b - 1] == secret_hash_of(account_id)[i - b - 1]);
        }
    }
    assert forall|i: int| 0 < i < s.len() && #[trigger] s[i] == '_' implies s[i - 1] != '_' by {
        if i < a {
            assert(s[i] == pre[i] && s[i - 1] == pre[i - 1]);
        } else if i == a {
            assert(s[i] == name[0]);
        } else if i < b {
            assert(s[i] == name[i - a] && s[i - 1] == name[i - a - 1]);
        } else if i == b {
            assert(s[i - 1] == name[name.len() - 1]);
        } else {
            assert(s[i] == hash[i - b - 1]);
            assert(hash[i - b - 1] == secret_hash_of(account_id)[i - b - 1]);
        }
    }
    assert(s.last() == hash[7]);
    assert(hash[7] == secret_hash_of(account_id)[7]);
    assert(s[0] == pre[0]);
}

proof fn lemma_trim_start_at(s: Seq<char>) -> (k: int)
    ensures
        0 <= k <= s.len(),
        trim_start(s) == s.skip(k),
        forall|i: int| 0 <= i < k ==> is_ws(s[i]),
    decreases s.len(),
{
    if s.len() > 0 && is_ws(s[0]) {
        let k = lemma_trim_start_at(s.drop_first());
        assert(s.drop_first().skip(k) =~= s.skip(k + 1));
        assert forall|i: int| 0 <= i < k + 1 implies is_ws(s[i]) by {
            if i > 0 {
                assert(s[i] == s.drop_first()[i - 1]);
            }
        }
        k + 1
    } else {
        assert(s.skip(0) =~= s);
        0
    }
}

proof fn lemma_trim_end_at(s: Seq<char>) -> (k: int)
    ensures
        0 <= k <= s.len(),
        trim_end(s) == s.take(k),
        forall|i: int| k <= i < s.len() ==> is_ws(s[i]),
    decreases s.len(),
{
    if s.len() > 0 && is_ws(s.last()) {
        let k = lemma_trim_end_at(s.drop_last());
        assert(s.drop_last().take(k) =~= s.take(k));
        assert forall|i: int| k <= i < s.len() implies is_ws(s[i]) by {
            if i < s.len() - 1 {
                assert(s[i] == s.drop_last()[i]);
            }
        }
        k
    } else {
        assert(s.take(s.len() as int) =~= s);
        s.len() as int
    }
}

/// Whether some character is an ASCII letter or digit.
pub open spec fn has_ascii_alnum(s: Seq<char>) -> bool {
    exists|i: int| 0 <= i < s.len() && is_ascii_alnum(#[trigger] s[i])
}

/// Whether some character is not `_`.
pub open spec fn has_non_underscore(s: Seq<char>) -> bool {
    exists|i: int| 0 <= i < s.len() && #[trigger] s[i] != '_'
}

proof fn lemma_trim_keeps_alnum(s: Seq<char>)
    ensures
        has_ascii_alnum(trim(s)) == has_ascii_alnum(s),
{
    let a = lemma_trim_start_at(s);
    let t = s.skip(a);
    let b = lemma_trim_end_at(t);
    let u = t.take(b);
    assert(trim(s) == u);
    if has_ascii_alnum(s) {
        let i = choose|i: int| 0 <= i < s.len() && is_ascii_alnum(#[trigger] s[i]);
        assert(!is_ws(s[i]));
        assert(i >= a);
        assert(t[i - a] == s[i]);
        assert(i - a < b);
        assert(u[i - a] == s[i]);
    }
    if has_ascii_alnum(u) {
        let i = choose|i: int| 0 <= i < u.len() && is_ascii_alnum(#[trigger] u[i]);
        assert(u[i] == s[i + a]);
    }
}

proof fn lemma_collapse_alnum(t: Seq<char>)
    ensures
        has_non_underscore(collapse(t).0) == has_ascii_alnum(t),
    decreases t.len(),
{
    if t.len() > 0 {
        let u = t.drop_last();
        lemma_collapse_alnum(u);
        let (o, p) = collapse(u);
        let o2 = collapse(t).0;
        let c = t.last();
        lemma_ascii_lower(c);
        assert(has_ascii_alnum(t) == (has_ascii_alnum(u) || is_ascii_alnum(c))) by {
            if has_ascii_alnum(u) {
                let i = choose|i: int| 0 <= i < u.len() && is_ascii_alnum(#[trigger] u[i]);
                assert(t[i] == u[i]);
            }
            if has_ascii_alnum(t) {
                let i = choose|i: int| 0 <= i < t.len() && is_ascii_alnum(#[trigger] t[i]);
                if i < u.len() {
                    assert(u[i] == t[i]);
                }
            }
            if is_ascii_alnum(c) {
                assert(t[t.len() - 1] == c);
            }
        }
        assert(has_non_underscore(o2) == (has_non_underscore(o) || is_ascii_alnum(c))) by {
            if has_non_underscore(o) {
                let i = choose|i: int| 0 <= i < o.len() && #[trigger] o[i] != '_';
                assert(o2[i] == o[i]);
            }
            if has_non_underscore(o2) {
                let i = choose|i: int| 0 <= i < o2.len() && #[trigger] o2[i] != '_';
                if i < o.len() {
                    assert(o2[i] == o[i]);
                }
            }
            if is_ascii_alnum(c) {
                assert(o2[o2.len() - 1] == ascii_lower(c));
            }
        }
    }
}

/// The sanitizer gives nothing exactly when the text has no ASCII letter
/// or digit.
pub proof fn lemma_sanitize_none(raw: Seq<char>)
    ensures
        sanitize(raw) is None <==> !has_ascii_alnum(raw),
{
    let t = trim(raw);
    lemma_trim_keeps_alnum(raw);
    lemma_collapse_alnum(t);
    let o = collapse(t).0;
    let k1 = lemma_strip_start(o);
    let x = o.skip(k1);
    let k2 = lemma_strip_end(x);
    let core = x.take(k2);
    assert(strip_underscores(o) == core);
    if has_non_underscore(o) {
        let j = choose|j: int| 0 <= j < o.len() && #[trigger] o[j] != '_';
        assert(j >= k1);
        assert(x.len() > 0);
        assert(x[0] != '_');
        if k2 == 0 {
            assert(x[0] == '_');
        }
        assert(core.len() > 0);
    } else {
        if k1 < o.len() {
            assert(x[0] == o[k1]);
        }
        assert(x.len() == 0);
    }
}

proof fn lemma_has_row(rows: Seq<RowData>, id: Seq<char>)
    ensures
        has_row(rows, id) <==> exists|i: int| 0 <= i < rows.len() && #[trigger] rows[i].id == id,
    decreases rows.len(),
{
    if rows.len() > 0 {
        lemma_has_row(rows.drop_first(), id);
        if exists|i: int| 0 <= i < rows.len() && #[trigger] rows[i].id == id {
            let i = choose|i: int| 0 <= i < rows.len() && #[trigger] rows[i].id == id;
            if i > 0 {
                assert(rows.drop_first()[i - 1].id == id);
            }
        }
        if has_row(rows.drop_first(), id) {
            let i = choose|i: int| 0 <= i < rows.drop_first().len() && #[trigger] rows.drop_first()[i].id == id;
            assert(rows[i + 1].id == id);
        }
    }
}

/// The row that an import writes, as it is read back.
pub open spec fn written_row(w: ProviderRowWrite) -> RowData {
    RowData {
        id: w.id@,
        name: Some(w.name@),
        settings_config: Some(w.settings_config@),
        meta: Some(w.meta@),
        is_current: w.is_current,
        sort_index: Some(w.sort_index),
    }
}

/// A row updated by a written row: its name, settings and meta data are
/// replaced; whether it is current and its sort index are kept.
pub open spec fn updated_row(r: RowData, w: RowData) -> RowData {
    if r.id == w.id {
        RowData { name: w.name, settings_config: w.settings_config, meta: w.meta, ..r }
    } else {
        r
    }
}

/// The Codex rows after the upsert of a written row: a row with its id
/// is updated; without one, the row is added.
pub open spec fn upsert_rows(rows: Seq<RowData>, w: RowData) -> Seq<RowData> {
    if has_row(rows, w.id) {
        rows.map_values(|r: RowData| updated_row(r, w))
    } else {
        rows.push(w)
    }
}

proof fn lemma_upsert_has_row(rows: Seq<RowData>, w: RowData)
    ensures
        has_row(upsert_rows(rows, w), w.id),
        has_row(rows, w.id) ==> upsert_rows(rows, w).len() == rows.len(),
{
    let u = upsert_rows(rows, w);
    lemma_has_row(rows, w.id);
    lemma_has_row(u, w.id);
    if has_row(rows, w.id) {
        let i = choose|i: int| 0 <= i < rows.len() && #[trigger] rows[i].id == w.id;
        assert(u[i].id == w.id);
    } else {
        assert(u[rows.len() as int].id == w.id);
    }
}

proof fn lemma_updated_ids(rows: Seq<RowData>, w: RowData, id: Seq<char>)
    ensures
        has_row(rows.map_values(|r: RowData| updated_row(r, w)), id) == has_row(rows, id),
{
    let u = rows.map_values(|r: RowData| updated_row(r, w));
    lemma_has_row(rows, id);
    lemma_has_row(u, id);
    if has_row(rows, id) {
        let i = choose|i: int| 0 <= i < rows.len() && #[trigger] rows[i].id == id;
        assert(u[i].id == id);
    }
    if has_row(u, id) {
        let i = choose|i: int| 0 <= i < u.len() && #[trigger] u[i].id == id;
        assert(rows[i].id == id);
    }
}

proof fn lemma_account_row_exists(rows: Seq<RowData>, account: Seq<char>)
    requires
        row_for_account(rows, account) is Some,
    ensures
        has_row(rows, row_for_account(rows, account)->0),
    decreases rows.len(),
{
    let e = row_for_account(rows, account)->0;
    lemma_has_row(rows, e);
    if !row_holds_account(rows[0], account) {
        lemma_account_row_exists(rows.drop_first(), account);
        lemma_has_row(rows.drop_first(), e);
        let i = choose|i: int| 0 <= i < rows.drop_first().len() && #[trigger] rows.drop_first()[i].id == e;
        assert(rows[i + 1].id == e);
    } else {
        assert(rows[0].id == e);
    }
}

/// Updating the row found by an account with settings that hold the
/// account finds it again.
proof fn lemma_updated_account_row(rows: Seq<RowData>, account: Seq<char>, w: RowData)
    requires
        row_for_account(rows, account) == Some(w.id),
        row_holds_account(w, account),
    ensures
        row_for_account(rows.map_values(|r: RowData| updated_row(r, w)), account) == Some(w.id),
    decreases rows.len(),
{
    let u = rows.map_values(|r: RowData| updated_row(r, w));
    assert(u[0] == updated_row(rows[0], w));
    if rows[0].id == w.id {
        assert(row_holds_account(u[0], account));
    } else if !row_holds_account(rows[0], account) {
        assert(u.drop_first() =~= rows.drop_first().map_values(|r: RowData| updated_row(r, w)));
        lemma_updated_account_row(rows.drop_first(), account, w);
    }
}

/// The written settings of an account import read back with the draft's
/// `auth`, and that `auth` carries the draft's account.
pub open spec fn carries_account(d: DraftData, write: ProviderRowWrite) -> bool {
    &&& d.import_kind == "openai_account"@
    &&& d.oauth_account_id is Some
    &&& json_parse(write.settings_config@) is Ok
    &&& same_but_numbers(d.settings_config, json_parse(write.settings_config@)->Ok_0)
    &&& get(d.settings_config, "auth"@) matches Some(a) && oauth_account_id(a, a) == d.oauth_account_id
}

/// Importing the same draft again, after the row that the first import
/// planned (`write`, see `import_cc_switch_provider`) was written, updates
/// that row: the second import writes the same id, creates nothing, and
/// leaves the number of rows as it was. This holds where the first import
/// wrote the draft's own id, and where it updated another row, found by the
/// account, with settings that read back carrying that account.
pub proof fn lemma_reimport_updates(d: DraftData, rows: Seq<RowData>, write: ProviderRowWrite)
    requires
        write.id@ == import_target(rows, d),
        import_target(rows, d) == d.provider_id || carries_account(d, write),
    ensures
        import_target(upsert_rows(rows, written_row(write)), d) == write.id@,
        !import_creates(upsert_rows(rows, written_row(write)), d),
        upsert_rows(upsert_rows(rows, written_row(write)), written_row(write)).len() == upsert_rows(
            rows,
            written_row(write),
        ).len(),
{
    let w = written_row(write);
    lemma_upsert_has_row(rows, w);
    lemma_upsert_has_row(upsert_rows(rows, w), w);
    if import_target(rows, d) != d.provider_id {
        let a = d.oauth_account_id->0;
        assert(!has_row(rows, d.provider_id));
        assert(row_for_account(rows, a) == Some(write.id@));
        lemma_account_row_exists(rows, a);
        assert(has_row(rows, w.id));
        let u = rows.map_values(|r: RowData| updated_row(r, w));
        assert(upsert_rows(rows, w) == u);
        lemma_updated_ids(rows, w, d.provider_id);
        let x = json_parse(write.settings_config@)->Ok_0;
        let auth = get(d.settings_config, "auth"@)->0;
        crate::json::lemma_same_get(d.settings_config, x, "auth"@);
        let auth2 = get(x, "auth"@)->0;
        crate::json::lemma_same_get(auth, auth2, "tokens"@);
        assert(same_but_numbers(tokens_of(auth), tokens_of(auth2)));
        assert(parse_or_null(write.settings_config@) == x);
        crate::pick::lemma_same_pick_first(
            seq![auth, tokens_of(auth), auth],
            seq![auth2, tokens_of(auth2), auth2],
            seq![
                path1("chatgpt_account_id"@),
                path1("account_id"@),
                path2("tokens"@, "chatgpt_account_id"@),
                path2("tokens"@, "account_id"@),
                path2("credentials"@, "chatgpt_account_id"@),
                path2("credentials"@, "account_id"@),
            ],
        );
        assert(row_holds_account(w, a));
        lemma_updated_account_row(rows, a, w);
    }
}

} // verus!
