//! The text that reports a repair to a person.

use vstd::prelude::*;
use crate::provider::push_all;
use crate::repair::{OutcomeData, RepairOutcome};
use crate::text::{chars_of, views};

verus! {

/// The decimal digit `d`, for `d < 10`.
pub open spec fn digit_char(d: nat) -> char {
    "0123456789"@[d as int]
}

/// The decimal writing of `n`, without leading zeros.
pub open spec fn decimal(n: nat) -> Seq<char>
    decreases n,
{
    if n < 10 {
        seq![digit_char(n)]
    } else {
        decimal(n / 10).push(digit_char(n % 10))
    }
}

/// The texts, with `sep` between each two.
pub open spec fn joined(s: Seq<Seq<char>>, sep: Seq<char>) -> Seq<char>
    decreases s.len(),
{
    if s.len() == 0 {
        Seq::empty()
    } else if s.len() == 1 {
        s[0]
    } else {
        joined(s.drop_last(), sep) + sep + s.last()
    }
}

/// The lines that report a repair: its directory, target, the counts of
/// what changed, the source buckets (or `none`), and, where they apply,
/// the backup directory, the dry-run notice and the reason nothing was
/// done.
pub open spec fn summary_lines(o: OutcomeData) -> Seq<Seq<char>> {
    let fixed = seq![
        "Codex directory: "@ + o.codex_dir,
        "Target provider: "@ + o.target_provider_id,
        "Target source: "@ + o.target_provider_source,
        "Changed: "@ + decimal(o.migrated_jsonl_files) + " JSONL files ("@ + decimal(o.migrated_jsonl_lines)
            + " session_meta lines), "@ + decimal(o.migrated_state_rows) + " SQLite rows, "@ + decimal(
            o.rebuilt_session_index_entries,
        ) + " index entries"@,
        "Scanned JSONL files: "@ + decimal(o.scanned_jsonl_files),
        if o.source_provider_ids.len() == 0 {
            "Source providers: none"@
        } else {
            "Source providers: "@ + joined(o.source_provider_ids, ", "@)
        },
    ];
    let with_backup = match o.backup_root {
        Some(b) => fixed.push("Backup: "@ + b),
        None => fixed,
    };
    let with_dry = if o.dry_run {
        with_backup.push("Dry run only. No files were changed."@)
    } else {
        with_backup
    };
    match o.skipped_reason {
        Some(r) => with_dry.push("Result: "@ + r),
        None => with_dry,
    }
}

/// Appends the decimal writing of `n` (see [`decimal`]).
pub fn push_decimal(out: &mut String, n: usize)
    ensures
        final(out)@ == old(out)@ + decimal(n as nat),
    decreases n,
{
    proof {
        reveal_strlit("0123456789");
    }
    let ghost start = out@;
    if n >= 10 {
        push_decimal(out, n / 10);
    }
    let digits = chars_of("0123456789");
    out.push(digits[n % 10]);
    assert(out@ =~= start + decimal(n as nat));
}

fn push_joined(out: &mut String, items: &Vec<String>, sep: &str)
    ensures
        final(out)@ == old(out)@ + joined(views(items@), sep@),
{
    let ghost start = out@;
    let ghost v = views(items@);
    let mut i: usize = 0;
    assert(v.take(0) =~= Seq::<Seq<char>>::empty());
    while i < items.len()
        invariant
            i <= items.len(),
            v == views(items@),
            v.len() == items.len(),
            out@ == start + joined(v.take(i as int), sep@),
        decreases items.len() - i,
    {
        assert(v.take(i + 1).drop_last() =~= v.take(i as int));
        assert(v.take(i + 1).last() == items@[i as int]@);
        if i > 0 {
            push_all(out, sep);
        }
        push_all(out, items[i].as_str());
        i = i + 1;
        assert(out@ =~= start + joined(v.take(i as int), sep@));
    }
    assert(v.take(items.len() as int) =~= v);
}

fn line_with(prefix: &str, rest: &str) -> (r: String)
    ensures
        r@ == prefix@ + rest@,
{
    let mut r = String::new();
    push_all(&mut r, prefix);
    push_all(&mut r, rest);
    assert(r@ =~= prefix@ + rest@);
    r
}

fn push_line(lines: &mut Vec<String>, l: String)
    ensures
        views(final(lines)@) == views(old(lines)@).push(l@),
{
    let ghost before = lines@;
    lines.push(l);
    assert(views(lines@) =~= views(before).push(l@));
}

/// The lines that report a repair (see [`summary_lines`]).
pub fn human_summary(outcome: &RepairOutcome) -> (r: Vec<String>)
    ensures
        views(r@) == summary_lines(outcome@),
{
    let mut lines: Vec<String> = Vec::new();
    push_line(&mut lines, line_with("Codex directory: ", outcome.codex_dir.as_str()));
    push_line(&mut lines, line_with("Target provider: ", outcome.target_provider_id.as_str()));
    push_line(&mut lines, line_with("Target source: ", outcome.target_provider_source.as_str()));
    let mut changed = String::new();
    push_all(&mut changed, "Changed: ");
    push_decimal(&mut changed, outcome.migrated_jsonl_files);
    push_all(&mut changed, " JSONL files (");
    push_decimal(&mut changed, outcome.migrated_jsonl_lines);
    push_all(&mut changed, " session_meta lines), ");
    push_decimal(&mut changed, outcome.migrated_state_rows);
    push_all(&mut changed, " SQLite rows, ");
    push_decimal(&mut changed, outcome.rebuilt_session_index_entries);
    push_all(&mut changed, " index entries");
    push_line(&mut lines, changed);
    let mut scanned = String::new();
    push_all(&mut scanned, "Scanned JSONL files: ");
    push_decimal(&mut scanned, outcome.scanned_jsonl_files);
    push_line(&mut lines, scanned);
    if outcome.source_provider_ids.len() == 0 {
        push_line(&mut lines, String::from_str("Source providers: none"));
    } else {
        let mut s = String::new();
        push_all(&mut s, "Source providers: ");
        push_joined(&mut s, &outcome.source_provider_ids, ", ");
        push_line(&mut lines, s);
    }
    match &outcome.backup_root {
        Some(b) => push_line(&mut lines, line_with("Backup: ", b.as_str())),
        None => {},
    }
    if outcome.dry_run {
        push_line(&mut lines, String::from_str("Dry run only. No files were changed."));
    }
    match &outcome.skipped_reason {
        Some(reason) => push_line(&mut lines, line_with("Result: ", reason.as_str())),
        None => {},
    }
    assert(views(lines@) =~= summary_lines(outcome@));
    lines
}

} // verus!
