//! A second repair, run on what a first real repair left behind.

use vstd::prelude::*;
use crate::index::{
    distinct_ids, entries_map, entry_of_text, entry_views, existing_map, index_order, lemma_entries_map,
    merge_entries, merge_entry, scan_segments, sorted_entries, EntryData,
};
use crate::repair::{
    count_rows, derived_entries, files_view, index_source_text, jsonl_ids, jsonl_pass, repair_plan,
    repair_target, rewrites_file, source_ids, sorted_ids, state_ids, state_rows, state_view, ActionData,
    FileData, OutcomeData, PassData, RepairInput, RepairOptions,
};
use crate::error::ErrorData;
use crate::session::{
    changed_segments, line_of, lemma_rewrite_pieces, providers_in_segments, providers_in_text, rewrite_count,
    rewrite_line, rewrite_text, rewrites_read_alike, rewrites_settle, rewritten_pieces, session_meta_provider,
};
use crate::text::{normalize, segments, seq_lt, strictly_sorted, trim};

verus! {

/// The state database's buckets after the threads of `src` were moved into
/// `target`: none of `src` is left, and each bucket is the target or one
/// that was there before.
pub open spec fn counts_after_move(
    before: Seq<(Seq<char>, nat)>,
    after: Seq<(Seq<char>, nat)>,
    target: Seq<char>,
    src: Seq<Seq<char>>,
) -> bool {
    forall|k: int|
        #![trigger after[k]]
        0 <= k < after.len() ==> !src.contains(after[k].0) && (after[k].0 == target || exists|j: int|
            0 <= j < before.len() && #[trigger] before[j].0 == after[k].0)
}

/// A history text whose session, where it has one, has a non-blank id and
/// a timestamp, so that its index entry does not depend on the clock.
pub open spec fn dated(t: Seq<char>) -> bool {
    let st = scan_segments(segments(t));
    st.id matches Some(id) ==> trim(id).len() > 0 && (st.updated_at is Some || st.first_timestamp is Some)
}

/// Every history file of `inp` is dated.
pub open spec fn all_dated(inp: RepairInput) -> bool {
    forall|i: int| 0 <= i < inp.jsonl_files.len() ==> dated(#[trigger] files_view(inp.jsonl_files@)[i].text)
}

/// `next` is what the real repair planned by `repair_plan(o, inp, names)`
/// leaves, once its actions are carried out and nothing else changed: the
/// same directory, cc-switch state and configuration; each history file
/// with the text the repair wrote; the state database with the threads of
/// the source buckets moved into the target; and the session index as the
/// repair wrote it, read back.
pub open spec fn left_by(o: RepairOptions, inp: RepairInput, names: Seq<Option<Seq<char>>>, next: RepairInput) -> bool {
    let target = repair_target(o, inp).0;
    let files = files_view(inp.jsonl_files@);
    let counts = state_view(inp.state_counts)->Ok_0;
    let src = sorted_ids(source_ids(files, counts, target));
    let rows = state_rows(counts, src);
    let d = derived_entries(files, target, src, false, names, inp.now@)->Ok_0;
    let (m, c) = merge_entries(existing_map(entry_views(inp.session_index->Ok_0@)), d);
    let files2 = files_view(next.jsonl_files@);
    &&& next.codex_dir_exists
    &&& next.cc_switch == inp.cc_switch
    &&& next.codex_config_text == inp.codex_config_text
    &&& files2.len() == files.len()
    &&& forall|i: int|
        0 <= i < files.len() ==> #[trigger] files2[i] == FileData {
            text: index_source_text(files[i], target, src, false),
            ..files[i]
        }
    &&& if rows > 0 {
        state_view(next.state_counts) matches Ok(Some(c2)) && counts_after_move(counts->0, c2, target, src)
    } else {
        state_view(next.state_counts) == state_view(inp.state_counts)
    }
    &&& next.session_index is Ok
    &&& if c > 0 {
        entry_views(next.session_index->Ok_0@) == index_order(m)
    } else {
        entry_views(next.session_index->Ok_0@) == entry_views(inp.session_index->Ok_0@)
    }
}

/// A plan with nothing to do: no action, and an outcome that moves and
/// rebuilds nothing, makes no backup, and says so.
pub open spec fn idle_plan(plan: (Seq<ActionData>, Result<OutcomeData, ErrorData>)) -> bool {
    &&& plan.0 == Seq::<ActionData>::empty()
    &&& plan.1 matches Ok(x) && {
        &&& x.migrated_jsonl_files == 0
        &&& x.migrated_jsonl_lines == 0
        &&& x.migrated_state_rows == 0
        &&& x.rebuilt_session_index_entries == 0
        &&& x.backup_root is None
        &&& x.skipped_reason == Some("no_changes_needed"@)
    }
}

/// A real repair run again, with the same options and names of working
/// directories, on any state that the first one leaves, plans nothing,
/// where every history file is dated.
pub open spec fn rerun_idle(o: RepairOptions, inp: RepairInput, names: Seq<Option<Seq<char>>>) -> bool {
    forall|next: RepairInput|
        left_by(o, inp, names, next) && all_dated(next) ==> #[trigger] idle_plan(repair_plan(o, next, names))
}

/// Each history file that a real repair rewrites is rewritten line for
/// line, into lines that read as before and record the target.
pub open spec fn rewrites_hold(files: Seq<FileData>, target: Seq<char>, src: Seq<Seq<char>>) -> bool {
    forall|j: int|
        0 <= j < files.len() && #[trigger] rewrites_file(files[j], target, src, false) ==> rewrites_read_alike(
            segments(files[j].text),
            target,
            src,
        ) && rewrites_settle(segments(files[j].text), target, src)
}

proof fn lemma_pieces_providers(segs: Seq<(Seq<char>, bool)>, target: Seq<char>, src: Seq<Seq<char>>)
    requires
        rewrites_read_alike(segs, target, src),
        rewrites_settle(segs, target, src),
        normalize(target) == Some(target),
    ensures
        providers_in_segments(rewritten_pieces(segs, target, src), target).subset_of(
            providers_in_segments(segs, target),
        ),
    decreases segs.len(),
{
    if segs.len() > 0 {
        let n = segs.len() - 1;
        let p = rewritten_pieces(segs, target, src);
        assert(p.drop_last() =~= rewritten_pieces(segs.drop_last(), target, src));
        assert forall|i: int| #![trigger segs.drop_last()[i]] 0 <= i < segs.drop_last().len() implies (rewrite_line(
            segs.drop_last()[i].0,
            target,
            src,
        ) matches Some(r) ==> crate::session::reads_alike(segs.drop_last()[i].0, r)) && (rewrite_line(
            segs.drop_last()[i].0,
            target,
            src,
        ) matches Some(r) ==> crate::session::settled_line(r, target)) by {
            assert(segs.drop_last()[i] == segs[i]);
        }
        lemma_pieces_providers(segs.drop_last(), target, src);
        let x = segs[n];
        assert(segs.last() == x);
        assert(p.last() == p[n]);
        if let Some(r) = rewrite_line(x.0, target, src) {
            assert(crate::session::reads_alike(x.0, r));
            assert(crate::session::settled_line(r, target));
            assert(r[r.len() - 1] == r.last());
            assert(line_of(p.last()) == r);
        } else {
            assert(p.last() == x);
        }
    }
}

proof fn lemma_jsonl_ids_after(files: Seq<FileData>, files2: Seq<FileData>, target: Seq<char>, src: Seq<Seq<char>>)
    requires
        files2.len() == files.len(),
        forall|i: int|
            0 <= i < files.len() ==> #[trigger] files2[i] == (FileData {
                text: index_source_text(files[i], target, src, false),
                ..files[i]
            }),
        rewrites_hold(files, target, src),
        normalize(target) == Some(target),
    ensures
        jsonl_ids(files2, target).subset_of(jsonl_ids(files, target)),
    decreases files.len(),
{
    if files.len() > 0 {
        let n = files.len() - 1;
        assert forall|i: int| 0 <= i < files.drop_last().len() implies #[trigger] files2.drop_last()[i] == (FileData {
            text: index_source_text(files.drop_last()[i], target, src, false),
            ..files.drop_last()[i]
        }) by {
            assert(files2.drop_last()[i] == files2[i] && files.drop_last()[i] == files[i]);
        }
        assert forall|j: int|
            0 <= j < files.drop_last().len() && #[trigger] rewrites_file(files.drop_last()[j], target, src, false) implies rewrites_read_alike(
            segments(files.drop_last()[j].text),
            target,
            src,
        ) && rewrites_settle(segments(files.drop_last()[j].text), target, src) by {
            assert(files.drop_last()[j] == files[j]);
        }
        lemma_jsonl_ids_after(files.drop_last(), files2.drop_last(), target, src);
        let f = files[n];
        assert(files.last() == f && files2.last() == files2[n]);
        if rewrites_file(f, target, src, false) {
            lemma_rewrite_pieces(f.text, target, src);
            lemma_pieces_providers(segments(f.text), target, src);
        }
    }
}

proof fn lemma_state_ids_has(c: Seq<(Seq<char>, nat)>, target: Seq<char>, x: Seq<char>)
    ensures
        state_ids(c, target).contains(x) <==> (x.len() > 0 && x != target && exists|k: int|
            0 <= k < c.len() && #[trigger] trim(c[k].0) == x),
    decreases c.len(),
{
    if c.len() > 0 {
        lemma_state_ids_has(c.drop_last(), target, x);
        if exists|k: int| 0 <= k < c.len() && #[trigger] trim(c[k].0) == x {
            let k = choose|k: int| 0 <= k < c.len() && #[trigger] trim(c[k].0) == x;
            if k < c.len() - 1 {
                assert(c.drop_last()[k] == c[k]);
            }
        }
        if exists|k: int| 0 <= k < c.drop_last().len() && #[trigger] trim(c.drop_last()[k].0) == x {
            let k = choose|k: int| 0 <= k < c.drop_last().len() && #[trigger] trim(c.drop_last()[k].0) == x;
            assert(c[k] == c.drop_last()[k]);
        }
        assert(c.last() == c[c.len() - 1]);
    }
}

proof fn lemma_state_ids_after(c1: Seq<(Seq<char>, nat)>, c2: Seq<(Seq<char>, nat)>, target: Seq<char>, src: Seq<Seq<char>>)
    requires
        counts_after_move(c1, c2, target, src),
        trim(target) == target,
    ensures
        state_ids(c2, target).subset_of(state_ids(c1, target)),
{
    assert forall|x: Seq<char>| state_ids(c2, target).contains(x) implies state_ids(c1, target).contains(x) by {
        lemma_state_ids_has(c2, target, x);
        lemma_state_ids_has(c1, target, x);
        let k = choose|k: int| 0 <= k < c2.len() && #[trigger] trim(c2[k].0) == x;
        assert(c2[k].0 != target);
        let j = choose|j: int| 0 <= j < c1.len() && #[trigger] c1[j].0 == c2[k].0;
        assert(trim(c1[j].0) == x);
    }
}

/// The strings of `q` that `s` holds, in order.
pub open spec fn keep_in(q: Seq<Seq<char>>, s: Set<Seq<char>>) -> Seq<Seq<char>>
    decreases q.len(),
{
    if q.len() == 0 {
        Seq::empty()
    } else if s.contains(q.last()) {
        keep_in(q.drop_last(), s).push(q.last())
    } else {
        keep_in(q.drop_last(), s)
    }
}

proof fn lemma_keep_in(q: Seq<Seq<char>>, s: Set<Seq<char>>)
    requires
        strictly_sorted(q),
    ensures
        strictly_sorted(keep_in(q, s)),
        keep_in(q, s).to_set() == q.to_set().intersect(s),
        forall|i: int|
            0 <= i < keep_in(q, s).len() ==> exists|j: int| 0 <= j < q.len() && q[j] == #[trigger] keep_in(q, s)[i],
    decreases q.len(),
{
    if q.len() > 0 {
        let p = q.drop_last();
        assert forall|i: int, j: int| 0 <= i < j < p.len() implies seq_lt(#[trigger] p[i], #[trigger] p[j]) by {
            assert(p[i] == q[i] && p[j] == q[j]);
        }
        lemma_keep_in(p, s);
        let r = keep_in(p, s);
        let x = q.last();
        assert forall|i: int| 0 <= i < r.len() implies seq_lt(#[trigger] r[i], x) by {
            let j = choose|j: int| 0 <= j < p.len() && p[j] == r[i];
            assert(q[j] == r[i]);
            assert(q[q.len() - 1] == x);
        }
        if s.contains(x) {
            let t = r.push(x);
            assert forall|i: int, j: int| 0 <= i < j < t.len() implies seq_lt(#[trigger] t[i], #[trigger] t[j]) by {
                if j == r.len() {
                    assert(t[i] == r[i]);
                } else {
                    assert(t[i] == r[i] && t[j] == r[j]);
                }
            }
            assert forall|i: int| 0 <= i < t.len() implies exists|j: int| 0 <= j < q.len() && q[j] == #[trigger] t[i] by {
                if i < r.len() {
                    let j = choose|j: int| 0 <= j < p.len() && p[j] == r[i];
                    assert(q[j] == t[i]);
                } else {
                    assert(q[q.len() - 1] == t[i]);
                }
            }
            assert(t.to_set() =~= q.to_set().intersect(s)) by {
                assert(q =~= p.push(x));
                p.lemma_push_to_set_commute(x);
                r.lemma_push_to_set_commute(x);
            }
        } else {
            assert forall|i: int| 0 <= i < r.len() implies exists|j: int| 0 <= j < q.len() && q[j] == #[trigger] r[i] by {
                let j = choose|j: int| 0 <= j < p.len() && p[j] == r[i];
                assert(q[j] == r[i]);
            }
            assert(r.to_set() =~= q.to_set().intersect(s)) by {
                assert(q =~= p.push(x));
                p.lemma_push_to_set_commute(x);
            }
        }
    } else {
        assert(keep_in(q, s).to_set() =~= q.to_set().intersect(s));
    }
}

/// A set of the sources' strings is listed, sorted, by `sorted_ids`.
proof fn lemma_sorted_subset(q: Seq<Seq<char>>, s: Set<Seq<char>>)
    requires
        strictly_sorted(q),
        s.subset_of(q.to_set()),
    ensures
        strictly_sorted(sorted_ids(s)),
        sorted_ids(s).to_set() == s,
{
    lemma_keep_in(q, s);
    assert(keep_in(q, s).to_set() =~= s);
}

proof fn lemma_quiet_line(x: Seq<char>, target: Seq<char>, src1: Seq<Seq<char>>, src2: Seq<Seq<char>>)
    requires
        rewrite_line(x, target, src1) is None,
        forall|b: Seq<char>| src2.contains(b) ==> src1.contains(b),
    ensures
        rewrite_line(x, target, src2) is None,
{
}

proof fn lemma_changed_zero_lines(segs: Seq<(Seq<char>, bool)>, target: Seq<char>, src: Seq<Seq<char>>)
    requires
        changed_segments(segs, target, src) == 0,
    ensures
        forall|i: int| 0 <= i < segs.len() ==> rewrite_line(#[trigger] segs[i].0, target, src) is None,
    decreases segs.len(),
{
    if segs.len() > 0 {
        lemma_changed_zero_lines(segs.drop_last(), target, src);
        assert forall|i: int| 0 <= i < segs.len() implies rewrite_line(#[trigger] segs[i].0, target, src) is None by {
            if i < segs.len() - 1 {
                assert(segs[i] == segs.drop_last()[i]);
            }
        }
    }
}

proof fn lemma_lines_quiet(segs: Seq<(Seq<char>, bool)>, target: Seq<char>, src: Seq<Seq<char>>)
    requires
        forall|i: int| 0 <= i < segs.len() ==> rewrite_line(#[trigger] segs[i].0, target, src) is None,
    ensures
        changed_segments(segs, target, src) == 0,
    decreases segs.len(),
{
    if segs.len() > 0 {
        assert forall|i: int| 0 <= i < segs.drop_last().len() implies rewrite_line(
            #[trigger] segs.drop_last()[i].0,
            target,
            src,
        ) is None by {
            assert(segs.drop_last()[i] == segs[i]);
        }
        lemma_lines_quiet(segs.drop_last(), target, src);
        assert(segs.last() == segs[segs.len() - 1]);
    }
}

/// What the first repair left of a history file has no line to move in a
/// repair whose sources are among the first one's.
proof fn lemma_file_quiet(f: FileData, target: Seq<char>, src1: Seq<Seq<char>>, src2: Seq<Seq<char>>)
    requires
        rewrites_file(f, target, src1, false) ==> rewrites_read_alike(segments(f.text), target, src1)
            && rewrites_settle(segments(f.text), target, src1),
        normalize(target) == Some(target),
        forall|b: Seq<char>| src2.contains(b) ==> src1.contains(b),
        src1.len() > 0 ==> f.read_error is None,
    ensures
        rewrite_count(index_source_text(f, target, src1, false), target, src2) == 0,
{
    let segs = segments(f.text);
    if rewrites_file(f, target, src1, false) {
        lemma_rewrite_pieces(f.text, target, src1);
        let p = rewritten_pieces(segs, target, src1);
        assert forall|i: int| 0 <= i < p.len() implies rewrite_line(#[trigger] p[i].0, target, src2) is None by {
            if let Some(r) = rewrite_line(segs[i].0, target, src1) {
                assert(crate::session::settled_line(r, target));
                assert(p[i].0 == r);
            } else {
                assert(p[i].0 == segs[i].0);
                lemma_quiet_line(segs[i].0, target, src1, src2);
            }
        }
        lemma_lines_quiet(p, target, src2);
    } else {
        if src1.len() > 0 {
            assert(rewrite_count(f.text, target, src1) == 0);
            lemma_changed_zero_lines(segs, target, src1);
            assert forall|i: int| 0 <= i < segs.len() implies rewrite_line(#[trigger] segs[i].0, target, src2) is None by {
                lemma_quiet_line(segs[i].0, target, src1, src2);
            }
            lemma_lines_quiet(segs, target, src2);
        } else {
            assert forall|i: int| 0 <= i < segs.len() implies rewrite_line(#[trigger] segs[i].0, target, src2) is None by {
                if src2.len() > 0 {
                    assert(src2.contains(src2[0]));
                }
            }
            lemma_lines_quiet(segs, target, src2);
        }
    }
}

proof fn lemma_pass_error_none(files: Seq<FileData>, target: Seq<char>, src: Seq<Seq<char>>, root: Seq<char>)
    requires
        jsonl_pass(files, target, src, false, root).error is None,
        src.len() > 0,
    ensures
        forall|i: int| 0 <= i < files.len() ==> (#[trigger] files[i]).read_error is None,
    decreases files.len(),
{
    if files.len() > 0 {
        lemma_pass_error_none(files.drop_last(), target, src, root);
        assert forall|i: int| 0 <= i < files.len() implies (#[trigger] files[i]).read_error is None by {
            if i < files.len() - 1 {
                assert(files[i] == files.drop_last()[i]);
            }
        }
    }
}

proof fn lemma_pass_idle(files: Seq<FileData>, target: Seq<char>, src: Seq<Seq<char>>, root: Seq<char>)
    requires
        forall|i: int|
            0 <= i < files.len() ==> src.len() == 0 || ((#[trigger] files[i]).read_error is None && rewrite_count(
                files[i].text,
                target,
                src,
            ) == 0),
    ensures
        jsonl_pass(files, target, src, false, root) == (PassData {
            actions: Seq::empty(),
            root_made: false,
            files: 0,
            lines: 0,
            error: None,
        }),
    decreases files.len(),
{
    if files.len() > 0 {
        assert forall|i: int| 0 <= i < files.drop_last().len() implies src.len() == 0 || ((
        #[trigger] files.drop_last()[i]).read_error is None && rewrite_count(files.drop_last()[i].text, target, src)
            == 0) by {
            assert(files.drop_last()[i] == files[i]);
        }
        lemma_pass_idle(files.drop_last(), target, src, root);
        assert(files.last() == files[files.len() - 1]);
    }
}

proof fn lemma_count_rows_none(c: Seq<(Seq<char>, nat)>, src: Seq<Seq<char>>)
    requires
        forall|k: int| 0 <= k < c.len() ==> !src.contains(#[trigger] c[k].0),
    ensures
        count_rows(c, src) == 0,
    decreases c.len(),
{
    if c.len() > 0 {
        assert forall|k: int| 0 <= k < c.drop_last().len() implies !src.contains(#[trigger] c.drop_last()[k].0) by {
            assert(c.drop_last()[k] == c[k]);
        }
        lemma_count_rows_none(c.drop_last(), src);
        assert(c.last() == c[c.len() - 1]);
    }
}

proof fn lemma_count_rows_fewer(c: Seq<(Seq<char>, nat)>, src1: Seq<Seq<char>>, src2: Seq<Seq<char>>)
    requires
        forall|b: Seq<char>| src2.contains(b) ==> src1.contains(b),
    ensures
        count_rows(c, src2) <= count_rows(c, src1),
    decreases c.len(),
{
    if c.len() > 0 {
        lemma_count_rows_fewer(c.drop_last(), src1, src2);
    }
}

proof fn lemma_derived_again(
    files: Seq<FileData>,
    files2: Seq<FileData>,
    target: Seq<char>,
    src1: Seq<Seq<char>>,
    src2: Seq<Seq<char>>,
    names: Seq<Option<Seq<char>>>,
    now1: Seq<char>,
    now2: Seq<char>,
)
    requires
        files2.len() == files.len(),
        forall|i: int|
            0 <= i < files.len() ==> #[trigger] files2[i] == (FileData {
                text: index_source_text(files[i], target, src1, false),
                ..files[i]
            }),
        forall|i: int|
            0 <= i < files.len() ==> rewrite_count(#[trigger] files2[i].text, target, src2) == 0 && dated(
                files2[i].text,
            ),
    ensures
        derived_entries(files2, target, src2, false, names, now2) == derived_entries(
            files,
            target,
            src1,
            false,
            names,
            now1,
        ),
    decreases files.len(),
{
    if files.len() > 0 {
        let n = files.len() - 1;
        assert forall|i: int| 0 <= i < files.drop_last().len() implies #[trigger] files2.drop_last()[i] == (FileData {
            text: index_source_text(files.drop_last()[i], target, src1, false),
            ..files.drop_last()[i]
        }) by {
            assert(files2.drop_last()[i] == files2[i] && files.drop_last()[i] == files[i]);
        }
        assert forall|i: int| 0 <= i < files.drop_last().len() implies rewrite_count(
            #[trigger] files2.drop_last()[i].text,
            target,
            src2,
        ) == 0 && dated(files2.drop_last()[i].text) by {
            assert(files2.drop_last()[i] == files2[i]);
        }
        lemma_derived_again(files.drop_last(), files2.drop_last(), target, src1, src2, names, now1, now2);
        let f2 = files2[n];
        assert(files2.last() == f2 && files.last() == files[n]);
        assert(index_source_text(f2, target, src2, false) == f2.text);
        assert(rewrite_count(f2.text, target, src2) == 0 && dated(f2.text));
        assert(entry_of_text(f2.text, names[n], now2) == entry_of_text(f2.text, names[n], now1));
    }
}

proof fn lemma_derived_shape(
    files: Seq<FileData>,
    target: Seq<char>,
    src: Seq<Seq<char>>,
    names: Seq<Option<Seq<char>>>,
    now: Seq<char>,
)
    requires
        derived_entries(files, target, src, false, names, now) is Ok,
    ensures
        derived_entries(files, target, src, false, names, now)->Ok_0.len() == files.len(),
        forall|i: int|
            0 <= i < files.len() ==> #[trigger] derived_entries(files, target, src, false, names, now)->Ok_0[i]
                == entry_of_text(index_source_text(files[i], target, src, false), names[i], now),
        forall|i: int| 0 <= i < files.len() ==> (#[trigger] files[i]).open_error is None,
    decreases files.len(),
{
    if files.len() > 0 {
        lemma_derived_shape(files.drop_last(), target, src, names, now);
        assert forall|i: int| 0 <= i < files.len() implies (#[trigger] files[i]).open_error is None by {
            if i < files.len() - 1 {
                assert(files[i] == files.drop_last()[i]);
            }
        }
    }
}

/// Every entry of the map has a non-blank id.
pub open spec fn ids_not_blank(m: Map<Seq<char>, EntryData>) -> bool {
    forall|k: Seq<char>| #[trigger] m.contains_key(k) ==> trim(m[k].id).len() > 0
}

proof fn lemma_existing_not_blank(lines: Seq<EntryData>)
    ensures
        ids_not_blank(existing_map(lines)),
    decreases lines.len(),
{
    if lines.len() > 0 {
        lemma_existing_not_blank(lines.drop_last());
    }
}

proof fn lemma_merge_not_blank(m: Map<Seq<char>, EntryData>, d: Seq<Option<EntryData>>)
    requires
        ids_not_blank(m),
        forall|j: int| 0 <= j < d.len() && #[trigger] d[j] is Some ==> trim(d[j]->0.id).len() > 0,
    ensures
        ids_not_blank(merge_entries(m, d).0),
    decreases d.len(),
{
    if d.len() > 0 {
        assert forall|j: int| 0 <= j < d.drop_last().len() && #[trigger] d.drop_last()[j] is Some implies trim(
            d.drop_last()[j]->0.id,
        ).len() > 0 by {
            assert(d.drop_last()[j] == d[j]);
        }
        lemma_merge_not_blank(m, d.drop_last());
        assert(d.last() == d[d.len() - 1]);
    }
}

proof fn lemma_existing_is_entries(es: Seq<EntryData>)
    requires
        forall|i: int| 0 <= i < es.len() ==> trim((#[trigger] es[i]).id).len() > 0,
    ensures
        existing_map(es) == entries_map(es),
    decreases es.len(),
{
    if es.len() > 0 {
        assert forall|i: int| 0 <= i < es.drop_last().len() implies trim((#[trigger] es.drop_last()[i]).id).len() > 0 by {
            assert(es.drop_last()[i] == es[i]);
        }
        lemma_existing_is_entries(es.drop_last());
        assert(es.last() == es[es.len() - 1]);
    }
}

/// The session index written of a merged map, read back, is that map.
proof fn lemma_index_read_back(m: Map<Seq<char>, EntryData>)
    requires
        ids_not_blank(m),
        exists|es: Seq<EntryData>| distinct_ids(es) && sorted_entries(es) && entries_map(es) == m,
    ensures
        existing_map(index_order(m)) == m,
{
    let es = index_order(m);
    lemma_entries_map(es);
    assert forall|i: int| 0 <= i < es.len() implies trim((#[trigger] es[i]).id).len() > 0 by {
        assert(entries_map(es)[es[i].id] == es[i]);
        assert(m.contains_key(es[i].id));
    }
    lemma_existing_is_entries(es);
}

/// The target bucket of a repair is trimmed and not blank.
pub(crate) proof fn lemma_target_trimmed(o: RepairOptions, inp: RepairInput)
    ensures
        normalize(repair_target(o, inp).0) == Some(repair_target(o, inp).0),
{
    let explicit = match o.target_provider_id {
        Some(t) => Some(t@),
        None => None::<Seq<char>>,
    };
    if let Some(e) = explicit {
        crate::laws::lemma_normalize_idempotent(e);
    }
    let cc = crate::cc_switch::cc_switch_model_provider(
        inp.cc_switch.db_exists,
        crate::import::opt_view(inp.cc_switch.settings_text),
        crate::cc_switch::providers_view(inp.cc_switch.providers),
    );
    if let Some(v) = cc {
        assert(exists|t: Seq<char>| normalize(t) == Some(v));
        let t = choose|t: Seq<char>| normalize(t) == Some(v);
        crate::laws::lemma_normalize_idempotent(t);
    }
    if let Some(t) = crate::import::opt_view(inp.codex_config_text) {
        if let Some(s) = crate::cc_switch::toml_string_item(t, "model_provider"@) {
            crate::laws::lemma_normalize_idempotent(s);
        }
    }
    reveal_strlit("openai");
    assert(!crate::text::is_ws('o') && !crate::text::is_ws('i'));
    assert(crate::text::trim_start("openai"@) == "openai"@);
    assert(crate::text::trim_end("openai"@) == "openai"@);
}

/// A real repair that succeeded, run again on what it left, plans nothing,
/// where every history file is dated. Besides that, it needs what the
/// planning of the first run shows: its source buckets are sorted, its
/// rewritten lines read as before and record the target, the target is
/// trimmed, and the merged index can be listed in index order.
pub(crate) proof fn lemma_rerun_idle(
    o: RepairOptions,
    inp: RepairInput,
    names: Seq<Option<Seq<char>>>,
    next: RepairInput,
)
    requires
        !o.dry_run,
        repair_plan(o, inp, names).1 is Ok,
        left_by(o, inp, names, next),
        all_dated(next),
        ({
            let target = repair_target(o, inp).0;
            let files = files_view(inp.jsonl_files@);
            let counts = state_view(inp.state_counts)->Ok_0;
            let s = source_ids(files, counts, target);
            let src = sorted_ids(s);
            let d = derived_entries(files, target, src, false, names, inp.now@)->Ok_0;
            let m = merge_entries(existing_map(entry_views(inp.session_index->Ok_0@)), d).0;
            &&& strictly_sorted(src) && src.to_set() == s
            &&& rewrites_hold(files, target, src)
            &&& normalize(target) == Some(target)
            &&& exists|es: Seq<EntryData>| distinct_ids(es) && sorted_entries(es) && entries_map(es) == m
        }),
    ensures
        idle_plan(repair_plan(o, next, names)),
{
    let target = repair_target(o, inp).0;
    assert(repair_target(o, next) == repair_target(o, inp));
    let files = files_view(inp.jsonl_files@);
    let files2 = files_view(next.jsonl_files@);
    let counts = state_view(inp.state_counts)->Ok_0;
    let counts2 = state_view(next.state_counts)->Ok_0;
    let s = source_ids(files, counts, target);
    let src = sorted_ids(s);
    let root = inp.backup_root@;
    let p1 = jsonl_pass(files, target, src, false, root);
    let rows = state_rows(counts, src);
    let lines = entry_views(inp.session_index->Ok_0@);
    let d = derived_entries(files, target, src, false, names, inp.now@)->Ok_0;
    let m0 = existing_map(lines);
    let (m, c) = merge_entries(m0, d);
    assert(p1.error is None);
    assert(trim(target) == target);
    // The second run's buckets are among the first run's.
    lemma_jsonl_ids_after(files, files2, target, src);
    let s2 = source_ids(files2, counts2, target);
    if rows > 0 {
        lemma_state_ids_after(counts->0, counts2->0, target, src);
    }
    assert(s2.subset_of(s));
    lemma_sorted_subset(src, s2);
    let src2 = sorted_ids(s2);
    assert forall|b: Seq<char>| src2.contains(b) implies src.contains(b) by {
        assert(src2.to_set().contains(b));
    }
    // The history files.
    if src.len() > 0 {
        lemma_pass_error_none(files, target, src, root);
    }
    assert forall|i: int| 0 <= i < files.len() implies rewrite_count(#[trigger] files2[i].text, target, src2) == 0
        && dated(files2[i].text) by {
        assert(files2[i].text == index_source_text(files[i], target, src, false));
        lemma_file_quiet(files[i], target, src, src2);
        assert(dated(files_view(next.jsonl_files@)[i].text));
    }
    assert forall|i: int| 0 <= i < files2.len() implies src2.len() == 0 || ((#[trigger] files2[i]).read_error is None
        && rewrite_count(files2[i].text, target, src2) == 0) by {
        if src2.len() > 0 {
            assert(src.contains(src2[0]));
            assert(files2[i].read_error == files[i].read_error);
        }
    }
    lemma_pass_idle(files2, target, src2, next.backup_root@);
    // The state database.
    let rows2 = state_rows(counts2, src2);
    if src2.len() > 0 {
        assert(src.contains(src2[0]));
        if rows > 0 {
            let c2 = counts2->0;
            assert forall|k: int| 0 <= k < c2.len() implies !src2.contains(#[trigger] c2[k].0) by {}
            lemma_count_rows_none(c2, src2);
        } else if let Some(c1) = counts {
            lemma_count_rows_fewer(c1, src, src2);
        }
    }
    assert(rows2 == 0);
    // The session index.
    lemma_derived_shape(files, target, src, names, inp.now@);
    lemma_derived_again(files, files2, target, src, src2, names, inp.now@, next.now@);
    assert forall|j: int| 0 <= j < d.len() && #[trigger] d[j] is Some implies trim(d[j]->0.id).len() > 0 by {
        assert(d[j] == entry_of_text(files2[j].text, names[j], inp.now@));
        assert(dated(files2[j].text));
    }
    lemma_existing_not_blank(lines);
    lemma_merge_not_blank(m0, d);
    if c > 0 {
        lemma_index_read_back(m);
        crate::laws::lemma_merge_idempotent(m0, d);
    }
    assert(merge_entries(existing_map(entry_views(next.session_index->Ok_0@)), d).1 == 0);
}

} // verus!
