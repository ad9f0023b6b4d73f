//! Session history files: reading the provider bucket of a session, and
//! moving sessions into the target bucket.

use vstd::prelude::*;
use crate::json::{
    as_str, find_member, get, get_str, json_parse, json_write, lemma_find_member_at, lemma_members_data,
    lemma_same_get, member_position, members_data, parse_json, same_but_numbers, sorted_doc,
    to_json_string, within_depth, writable_doc, JsonData, JsonValue,
};
use crate::index::{scan_line, scan_segments, scan_value, ScanState};
use crate::text::{
    contains_str, contains_string, contains_sub, normalize, normalize_non_empty, segment_views,
    segments, split_segments, str_eq, views,
};
use vstd::string::StringExecFns;

verus! {

/// The provider bucket recorded in a parsed `session_meta` record.
pub open spec fn meta_provider_of(v: JsonData) -> Option<Seq<char>> {
    if get_str(v, "type"@) != Some("session_meta"@) {
        None
    } else {
        match get(v, "payload"@) {
            Some(p) => match get_str(p, "model_provider"@) {
                Some(m) => normalize(m),
                None => None,
            },
            None => None,
        }
    }
}

/// The provider bucket of a history line: a line that mentions
/// `"session_meta"` and `"model_provider"`, parses as JSON, has type
/// `session_meta` and a non-blank `payload.model_provider` string.
pub open spec fn session_meta_provider(line: Seq<char>) -> Option<Seq<char>> {
    if !contains_sub(line, "\"session_meta\""@) || !contains_sub(line, "\"model_provider\""@) {
        None
    } else {
        match json_parse(line) {
            Ok(v) => meta_provider_of(v),
            Err(_) => None,
        }
    }
}

fn meta_provider_of_value(v: &JsonValue) -> (r: Option<String>)
    ensures
        r matches Some(s) ==> meta_provider_of(v@) == Some(s@),
        r is None <==> meta_provider_of(v@) is None,
{
    match v.get_str("type") {
        Some(t) => {
            if !str_eq(t.as_str(), "session_meta") {
                return None;
            }
        },
        None => {
            return None;
        },
    }
    match v.get("payload") {
        Some(p) => match p.get_str("model_provider") {
            Some(m) => normalize_non_empty(m.as_str()),
            None => None,
        },
        None => None,
    }
}

/// The provider bucket that a history line records (see
/// [`session_meta_provider`]).
pub fn session_meta_model_provider(line: &str) -> (r: Option<String>)
    ensures
        r matches Some(s) ==> session_meta_provider(line@) == Some(s@),
        r is None <==> session_meta_provider(line@) is None,
{
    if !contains_str(line, "\"session_meta\"") || !contains_str(line, "\"model_provider\"") {
        return None;
    }
    match parse_json(line) {
        Ok(v) => meta_provider_of_value(&v),
        Err(_) => None,
    }
}

/// Replaces the value of the first member named `key`.
pub open spec fn replace_member(ms: Seq<(Seq<char>, JsonData)>, key: Seq<char>, val: JsonData) -> Seq<
    (Seq<char>, JsonData),
>
    decreases ms.len(),
{
    if ms.len() == 0 {
        ms
    } else if ms[0].0 == key {
        ms.update(0, (key, val))
    } else {
        seq![ms[0]] + replace_member(ms.drop_first(), key, val)
    }
}

/// What `Map::insert` does to an object whose member `key` exists.
pub open spec fn set_member(v: JsonData, key: Seq<char>, val: JsonData) -> JsonData {
    match v {
        JsonData::Object(ms) => JsonData::Object(replace_member(ms, key, val)),
        _ => v,
    }
}

/// The record with `payload.model_provider` set to `target`.
pub open spec fn with_provider(v: JsonData, target: Seq<char>) -> JsonData {
    match get(v, "payload"@) {
        Some(p) => set_member(v, "payload"@, set_member(p, "model_provider"@, JsonData::Str(target))),
        None => v,
    }
}

/// The rewritten line, where the line's bucket is one of `sources` and not
/// `target`: the same record with `payload.model_provider` set to `target`,
/// written as compact JSON.
pub open spec fn rewrite_line(line: Seq<char>, target: Seq<char>, sources: Seq<Seq<char>>) -> Option<
    Seq<char>,
> {
    match session_meta_provider(line) {
        None => None,
        Some(cur) => if cur == target || !sources.contains(cur) {
            None
        } else {
            match json_parse(line) {
                Ok(v) => Some(json_write(with_provider(v, target))),
                Err(_) => None,
            }
        },
    }
}

proof fn lemma_replace_member_at(ms: Seq<(Seq<char>, JsonData)>, key: Seq<char>, val: JsonData, i: int)
    requires
        0 <= i < ms.len(),
        ms[i].0 == key,
        forall|j: int| 0 <= j < i ==> #[trigger] ms[j].0 != key,
    ensures
        replace_member(ms, key, val) == ms.update(i, (key, val)),
    decreases i,
{
    if i > 0 {
        assert(ms[0].0 != key);
        assert forall|j: int| 0 <= j < i - 1 implies #[trigger] ms.drop_first()[j].0 != key by {
            assert(ms.drop_first()[j] == ms[j + 1]);
        }
        lemma_replace_member_at(ms.drop_first(), key, val, i - 1);
        assert(seq![ms[0]] + ms.drop_first().update(i - 1, (key, val)) =~= ms.update(i, (key, val)));
    }
}

proof fn lemma_find_replaced_member(ms: Seq<(Seq<char>, JsonData)>, key: Seq<char>, val: JsonData, k: Seq<char>)
    ensures
        find_member(replace_member(ms, key, val), k) == (if k == key && find_member(ms, key) is Some {
            Some(val)
        } else {
            find_member(ms, k)
        }),
    decreases ms.len(),
{
    if ms.len() > 0 {
        if ms[0].0 == key {
            assert(ms.update(0, (key, val)).drop_first() =~= ms.drop_first());
        } else {
            lemma_find_replaced_member(ms.drop_first(), key, val, k);
            let u = seq![ms[0]] + replace_member(ms.drop_first(), key, val);
            assert(u[0] == ms[0]);
            assert(u.drop_first() =~= replace_member(ms.drop_first(), key, val));
        }
    }
}

proof fn lemma_replace_member_shape(ms: Seq<(Seq<char>, JsonData)>, key: Seq<char>, val: JsonData)
    ensures
        replace_member(ms, key, val).len() == ms.len(),
        forall|i: int|
            #![trigger replace_member(ms, key, val)[i]]
            0 <= i < ms.len() ==> replace_member(ms, key, val)[i].0 == ms[i].0 && (replace_member(
                ms,
                key,
                val,
            )[i].1 == ms[i].1 || replace_member(ms, key, val)[i].1 == val),
    decreases ms.len(),
{
    if ms.len() > 0 && ms[0].0 != key {
        lemma_replace_member_shape(ms.drop_first(), key, val);
        let u = seq![ms[0]] + replace_member(ms.drop_first(), key, val);
        assert forall|i: int| #![trigger u[i]] 0 < i < ms.len() implies u[i] == replace_member(
            ms.drop_first(),
            key,
            val,
        )[i - 1] && ms[i] == ms.drop_first()[i - 1] by {}
    }
}

proof fn lemma_find_member_of(ms: Seq<(Seq<char>, JsonData)>, k: Seq<char>)
    requires
        find_member(ms, k) is Some,
    ensures
        exists|i: int| 0 <= i < ms.len() && #[trigger] ms[i].1 == find_member(ms, k)->0,
    decreases ms.len(),
{
    if ms[0].0 != k {
        lemma_find_member_of(ms.drop_first(), k);
        let i = choose|i: int| 0 <= i < ms.len() - 1 && #[trigger] ms.drop_first()[i].1 == find_member(ms, k)->0;
        assert(ms[i + 1].1 == find_member(ms, k)->0);
    } else {
        assert(ms[0].1 == find_member(ms, k)->0);
    }
}

/// Setting a member to a writable value keeps a document writable.
proof fn lemma_set_member_writable(v: JsonData, key: Seq<char>, val: JsonData, n: nat)
    requires
        sorted_doc(v),
        within_depth(v, n),
        v is Object ==> sorted_doc(val) && within_depth(val, (n - 1) as nat),
    ensures
        sorted_doc(set_member(v, key, val)),
        within_depth(set_member(v, key, val), n),
{
    if let JsonData::Object(ms) = v {
        lemma_replace_member_shape(ms, key, val);
        let u = replace_member(ms, key, val);
        assert forall|i: int, j: int| 0 <= i < j < u.len() implies crate::text::seq_lt(#[trigger] u[i].0, #[trigger] u[j].0) by {
            assert(u[i].0 == ms[i].0);
            assert(u[j].0 == ms[j].0);
            assert(crate::text::seq_lt(ms[i].0, ms[j].0));
        }
        assert forall|i: int| #![trigger u[i]] 0 <= i < u.len() implies sorted_doc(u[i].1) && within_depth(u[i].1, (n - 1) as nat) by {
            assert(sorted_doc(ms[i].1) && within_depth(ms[i].1, (n - 1) as nat));
        }
    }
}

/// The record with its bucket set stays writable.
proof fn lemma_with_provider_writable(v: JsonData, target: Seq<char>)
    requires
        writable_doc(v),
    ensures
        writable_doc(with_provider(v, target)),
{
    if let Some(p) = get(v, "payload"@) {
        let ms = v->Object_0;
        lemma_find_member_of(ms, "payload"@);
        let i = choose|i: int| 0 <= i < ms.len() && #[trigger] ms[i].1 == p;
        assert(sorted_doc(ms[i].1) && within_depth(ms[i].1, 126));
        lemma_set_member_writable(p, "model_provider"@, JsonData::Str(target), 126);
        lemma_set_member_writable(v, "payload"@, set_member(p, "model_provider"@, JsonData::Str(target)), 127);
    }
}

/// A rewritten `session_meta` record, read back, gives the session index
/// what the original record gives.
proof fn lemma_scan_rewritten(st: ScanState, v: JsonData, w: JsonData, target: Seq<char>)
    requires
        meta_provider_of(v) is Some,
        same_but_numbers(with_provider(v, target), w),
    ensures
        scan_value(st, w) == scan_value(st, v),
{
    reveal_strlit("id");
    reveal_strlit("cwd");
    reveal_strlit("timestamp");
    reveal_strlit("type");
    reveal_strlit("payload");
    reveal_strlit("model_provider");
    let p = get(v, "payload"@)->0;
    let pw = set_member(p, "model_provider"@, JsonData::Str(target));
    let wv = with_provider(v, target);
    let ms = v->Object_0;
    let pms = p->Object_0;
    assert(p is Object);
    assert("id"@.len() == 2 && "cwd"@.len() == 3 && "timestamp"@.len() == 9 && "model_provider"@.len() == 14);
    lemma_find_replaced_member(ms, "payload"@, pw, "payload"@);
    lemma_find_replaced_member(ms, "payload"@, pw, "timestamp"@);
    lemma_find_replaced_member(ms, "payload"@, pw, "type"@);
    lemma_find_replaced_member(pms, "model_provider"@, JsonData::Str(target), "id"@);
    lemma_find_replaced_member(pms, "model_provider"@, JsonData::Str(target), "cwd"@);
    lemma_find_replaced_member(pms, "model_provider"@, JsonData::Str(target), "timestamp"@);
    assert(get(wv, "payload"@) == Some(pw));
    assert(get_str(wv, "timestamp"@) == get_str(v, "timestamp"@));
    assert(get_str(wv, "type"@) == get_str(v, "type"@));
    assert(get_str(pw, "id"@) == get_str(p, "id"@));
    assert(get_str(pw, "cwd"@) == get_str(p, "cwd"@));
    assert(get_str(pw, "timestamp"@) == get_str(p, "timestamp"@));
    lemma_same_get(wv, w, "payload"@);
    lemma_same_get(wv, w, "timestamp"@);
    lemma_same_get(wv, w, "type"@);
    let p2 = get(w, "payload"@)->0;
    lemma_same_get(pw, p2, "id"@);
    lemma_same_get(pw, p2, "cwd"@);
    lemma_same_get(pw, p2, "timestamp"@);
}

/// A rewritten `session_meta` record, read back, records the target.
proof fn lemma_provider_rewritten(v: JsonData, w: JsonData, target: Seq<char>)
    requires
        meta_provider_of(v) is Some,
        same_but_numbers(with_provider(v, target), w),
    ensures
        meta_provider_of(w) == normalize(target),
{
    reveal_strlit("type");
    reveal_strlit("payload");
    reveal_strlit("model_provider");
    let p = get(v, "payload"@)->0;
    let pw = set_member(p, "model_provider"@, JsonData::Str(target));
    let wv = with_provider(v, target);
    let ms = v->Object_0;
    let pms = p->Object_0;
    assert(p is Object);
    assert("type"@.len() == 4 && "payload"@.len() == 7);
    lemma_find_replaced_member(ms, "payload"@, pw, "payload"@);
    lemma_find_replaced_member(ms, "payload"@, pw, "type"@);
    lemma_find_replaced_member(pms, "model_provider"@, JsonData::Str(target), "model_provider"@);
    assert(get(wv, "payload"@) == Some(pw));
    assert(get_str(wv, "type"@) == get_str(v, "type"@));
    assert(get_str(pw, "model_provider"@) == Some(target));
    lemma_same_get(wv, w, "payload"@);
    lemma_same_get(wv, w, "type"@);
    let p2 = get(w, "payload"@)->0;
    lemma_same_get(pw, p2, "model_provider"@);
}

/// Sets member `i`, the first one named `key`, to `x`.
fn replace_at(ms: &mut Vec<(String, JsonValue)>, i: usize, x: JsonValue, Ghost(key): Ghost<Seq<char>>)
    requires
        i < old(ms).len(),
        old(ms)@[i as int].0@ == key,
        forall|j: int| 0 <= j < i ==> #[trigger] old(ms)@[j].0@ != key,
    ensures
        members_data(final(ms)@) == replace_member(members_data(old(ms)@), key, x@),
{
    let ghost d = members_data(old(ms)@);
    proof {
        lemma_members_data(old(ms)@);
        assert forall|j: int| 0 <= j < i implies #[trigger] d[j].0 != key by {
            assert(d[j].0 == old(ms)@[j].0@);
        }
        lemma_replace_member_at(d, key, x@, i as int);
    }
    let (k, _previous) = ms.remove(i);
    ms.insert(i, (k, x));
    proof {
        lemma_members_data(ms@);
        assert(members_data(ms@) =~= d.update(i as int, (key, x@)));
    }
}

/// The payload with `model_provider` set to `target`, where it holds that
/// member.
fn set_payload_provider(p: JsonValue, target: &str) -> (r: JsonValue)
    requires
        get_str(p@, "model_provider"@) is Some,
    ensures
        r@ == set_member(p@, "model_provider"@, JsonData::Str(target@)),
{
    match p {
        JsonValue::Object(mut pms) => {
            proof {
                lemma_members_data(pms@);
            }
            match member_position(&pms, "model_provider") {
                Some(j) => {
                    replace_at(
                        &mut pms,
                        j,
                        JsonValue::Str(String::from_str(target)),
                        Ghost("model_provider"@),
                    );
                    JsonValue::Object(pms)
                },
                None => {
                    proof {
                        let pd = members_data(pms@);
                        assert forall|k: int| 0 <= k < pd.len() implies #[trigger] pd[k].0
                            != "model_provider"@ by {
                            assert(pd[k].0 == pms@[k].0@);
                        }
                        crate::json::lemma_find_member_none(pd, "model_provider"@);
                    }
                    JsonValue::Object(pms)
                },
            }
        },
        other => other,
    }
}

/// The record with `payload.model_provider` set to `target`, where the
/// payload holds that member.
fn set_provider(v: JsonValue, target: &str) -> (r: JsonValue)
    requires
        get(v@, "payload"@) matches Some(p) && get_str(p, "model_provider"@) is Some,
    ensures
        r@ == with_provider(v@, target@),
{
    match v {
        JsonValue::Object(mut ms) => {
            proof {
                lemma_members_data(ms@);
            }
            match member_position(&ms, "payload") {
                Some(i) => {
                    let ghost d = members_data(ms@);
                    proof {
                        assert forall|j: int| 0 <= j < i implies #[trigger] d[j].0 != "payload"@ by {
                            assert(d[j].0 == ms@[j].0@);
                        }
                        lemma_find_member_at(d, "payload"@, i as int);
                    }
                    let ghost before = ms@;
                    let (k, p) = ms.remove(i);
                    let p2 = set_payload_provider(p, target);
                    ms.insert(i, (k, p2));
                    proof {
                        assert(ms@ =~= before.update(i as int, (k, p2)));
                        lemma_members_data(ms@);
                        lemma_replace_member_at(d, "payload"@, p2@, i as int);
                        assert(members_data(ms@) =~= d.update(i as int, ("payload"@, p2@)));
                    }
                    JsonValue::Object(ms)
                },
                None => {
                    proof {
                        let d = members_data(ms@);
                        assert forall|k: int| 0 <= k < d.len() implies #[trigger] d[k].0 != "payload"@ by {
                            assert(d[k].0 == ms@[k].0@);
                        }
                        crate::json::lemma_find_member_none(d, "payload"@);
                    }
                    JsonValue::Object(ms)
                },
            }
        },
        _ => v,
    }
}


/// The rewritten line `r` stands in for the history line `x` wherever the
/// session index reads it: it is one non-empty line, and it reads as `x`
/// does (and as `x` without a final `'\r'` does).
pub open spec fn reads_alike(x: Seq<char>, r: Seq<char>) -> bool {
    &&& r.len() > 0
    &&& !r.contains('\n')
    &&& !r.contains('\r')
    &&& forall|st: ScanState| #[trigger] scan_line(st, r) == scan_line(st, x)
    &&& x.len() > 0 && x.last() == '\r' ==> forall|st: ScanState|
        #[trigger] scan_line(st, x.drop_last()) == scan_line(st, x)
}

/// A rewritten line records no bucket, or the target as it reads.
pub open spec fn settled_line(r: Seq<char>, target: Seq<char>) -> bool {
    session_meta_provider(r) is None || session_meta_provider(r) == normalize(target)
}

/// Rewrites one history line into the target bucket (see [`rewrite_line`]);
/// the rewritten line reads, for the session index, as the original.
pub fn rewrite_session_meta_line(line: &str, target_provider_id: &str, source_provider_ids: &Vec<String>) -> (r:
    Option<String>)
    ensures
        r matches Some(s) ==> rewrite_line(line@, target_provider_id@, views(source_provider_ids@))
            == Some(s@),
        r is None <==> rewrite_line(line@, target_provider_id@, views(source_provider_ids@)) is None,
        r matches Some(s) ==> reads_alike(line@, s@),
        r matches Some(s) ==> settled_line(s@, target_provider_id@),
{
    let current = match session_meta_model_provider(line) {
        Some(c) => c,
        None => {
            return None;
        },
    };
    if str_eq(current.as_str(), target_provider_id) || !contains_string(
        source_provider_ids,
        current.as_str(),
    ) {
        return None;
    }
    match parse_json(line) {
        Ok(v) => {
            let ghost vd = v@;
            let v2 = set_provider(v, target_provider_id);
            let out = to_json_string(&v2);
            proof {
                lemma_with_provider_writable(vd, target_provider_id@);
                let w = json_parse(out@)->Ok_0;
                assert forall|st: ScanState| #[trigger] scan_line(st, out@) == scan_line(st, line@) by {
                    lemma_scan_rewritten(st, vd, w, target_provider_id@);
                }
                lemma_provider_rewritten(vd, w, target_provider_id@);
            }
            Some(out)
        },
        Err(_) => None,
    }
}

/// One piece of a history file after the rewrite.
pub open spec fn segment_output(seg: (Seq<char>, bool), target: Seq<char>, sources: Seq<Seq<char>>) -> Seq<
    char,
> {
    let body = match rewrite_line(seg.0, target, sources) {
        Some(r) => r,
        None => seg.0,
    };
    if seg.1 {
        body.push('\n')
    } else {
        body
    }
}

pub open spec fn rewritten_segments(
    segs: Seq<(Seq<char>, bool)>,
    target: Seq<char>,
    sources: Seq<Seq<char>>,
) -> Seq<char>
    decreases segs.len(),
{
    if segs.len() == 0 {
        Seq::empty()
    } else {
        rewritten_segments(segs.drop_last(), target, sources) + segment_output(
            segs.last(),
            target,
            sources,
        )
    }
}

/// The number of pieces that the rewrite changes.
pub open spec fn changed_segments(
    segs: Seq<(Seq<char>, bool)>,
    target: Seq<char>,
    sources: Seq<Seq<char>>,
) -> nat
    decreases segs.len(),
{
    if segs.len() == 0 {
        0
    } else {
        changed_segments(segs.drop_last(), target, sources) + if rewrite_line(
            segs.last().0,
            target,
            sources,
        ) is Some {
            1nat
        } else {
            0nat
        }
    }
}

/// A history file's text after moving its sessions into `target`: every
/// line is rewritten (see [`rewrite_line`]) or kept, line endings kept.
pub open spec fn rewrite_text(t: Seq<char>, target: Seq<char>, sources: Seq<Seq<char>>) -> Seq<char> {
    rewritten_segments(segments(t), target, sources)
}

/// The number of lines of `t` that the rewrite changes.
pub open spec fn rewrite_count(t: Seq<char>, target: Seq<char>, sources: Seq<Seq<char>>) -> nat {
    changed_segments(segments(t), target, sources)
}

/// Rewrites a whole history file's text; returns the new text and the
/// number of lines changed. The session index reads the new text as the
/// old one, and rewriting it again into the same (trimmed) bucket leaves
/// it as it is.
pub fn rewrite_jsonl_text(text: &str, target_provider_id: &str, source_provider_ids: &Vec<String>) -> (r: (
    String,
    usize,
))
    ensures
        r.0@ == rewrite_text(text@, target_provider_id@, views(source_provider_ids@)),
        r.1 == rewrite_count(text@, target_provider_id@, views(source_provider_ids@)),
        scan_segments(segments(r.0@)) == scan_segments(segments(text@)),
        rewrites_read_alike(segments(text@), target_provider_id@, views(source_provider_ids@)),
        rewrites_settle(segments(text@), target_provider_id@, views(source_provider_ids@)),
        normalize(target_provider_id@) == Some(target_provider_id@) ==> rewrite_count(
            r.0@,
            target_provider_id@,
            views(source_provider_ids@),
        ) == 0 && rewrite_text(r.0@, target_provider_id@, views(source_provider_ids@)) == r.0@,
{
    let segs = split_segments(text);
    let ghost sv = segment_views(segs@);
    let ghost tg = target_provider_id@;
    let ghost src = views(source_provider_ids@);
    let mut out = String::new();
    let mut changed: usize = 0;
    let mut i: usize = 0;
    while i < segs.len()
        invariant
            i <= segs.len(),
            sv == segment_views(segs@),
            sv.len() == segs.len(),
            tg == target_provider_id@,
            src == views(source_provider_ids@),
            out@ == rewritten_segments(sv.take(i as int), tg, src),
            changed == changed_segments(sv.take(i as int), tg, src),
            changed <= i,
            rewrites_read_alike(sv.take(i as int), tg, src),
            rewrites_settle(sv.take(i as int), tg, src),
        decreases segs.len() - i,
    {
        let ghost seg = sv[i as int];
        assert(seg == (segs@[i as int].0@, segs@[i as int].1));
        match rewrite_session_meta_line(segs[i].0.as_str(), target_provider_id, source_provider_ids) {
            Some(r) => {
                out.append(r.as_str());
                changed = changed + 1;
            },
            None => {
                out.append(segs[i].0.as_str());
            },
        }
        if segs[i].1 {
            out.push('\n');
        }
        assert(sv.take(i + 1).drop_last() =~= sv.take(i as int));
        assert(sv.take(i + 1).last() == seg);
        assert forall|j: int| #![trigger sv.take(i + 1)[j]] 0 <= j < i + 1 implies (rewrite_line(
            sv.take(i + 1)[j].0,
            tg,
            src,
        ) matches Some(r) ==> reads_alike(sv.take(i + 1)[j].0, r)) by {
            if j < i {
                assert(sv.take(i + 1)[j] == sv.take(i as int)[j]);
            }
        }
        assert forall|j: int| #![trigger sv.take(i + 1)[j]] 0 <= j < i + 1 implies (rewrite_line(
            sv.take(i + 1)[j].0,
            tg,
            src,
        ) matches Some(r) ==> settled_line(r, tg)) by {
            if j < i {
                assert(sv.take(i + 1)[j] == sv.take(i as int)[j]);
            }
        }
        i = i + 1;
        assert(out@ =~= rewritten_segments(sv.take(i as int), tg, src));
    }
    assert(sv.take(segs.len() as int) =~= sv);
    proof {
        lemma_rewrite_scans_alike(text@, tg, src);
        if normalize(tg) == Some(tg) {
            lemma_rewrite_pieces(text@, tg, src);
            lemma_pieces_settled(segments(text@), tg, src);
            crate::laws::lemma_rewrite_keeps_text(out@, tg, src);
        }
    }
    (out, changed)
}

/// A line as `BufRead::lines` yields it: without its `"\n"` or `"\r\n"`.
pub open spec fn line_of(seg: (Seq<char>, bool)) -> Seq<char> {
    if seg.1 && seg.0.len() > 0 && seg.0.last() == '\r' {
        seg.0.drop_last()
    } else {
        seg.0
    }
}

/// The provider buckets other than `target` that the lines record.
pub open spec fn providers_in_segments(segs: Seq<(Seq<char>, bool)>, target: Seq<char>) -> Set<
    Seq<char>,
>
    decreases segs.len(),
{
    if segs.len() == 0 {
        Set::empty()
    } else {
        let rest = providers_in_segments(segs.drop_last(), target);
        match session_meta_provider(line_of(segs.last())) {
            Some(p) => if p != target {
                rest.insert(p)
            } else {
                rest
            },
            None => rest,
        }
    }
}

/// The provider buckets other than `target` that a history text records.
pub open spec fn providers_in_text(t: Seq<char>, target: Seq<char>) -> Set<Seq<char>> {
    providers_in_segments(segments(t), target)
}

/// A line as `BufRead::lines` yields it (see [`line_of`]).
pub fn line_text_of(seg: &(String, bool)) -> (r: String)
    ensures
        r@ == line_of((seg.0@, seg.1)),
{
    let cs = crate::text::chars_of(seg.0.as_str());
    if seg.1 && cs.len() > 0 && cs[cs.len() - 1] == '\r' {
        let r = crate::text::string_of_range(&cs, 0, cs.len() - 1);
        assert(cs@.subrange(0, cs.len() - 1) =~= cs@.drop_last());
        r
    } else {
        crate::text::string_of_range(&cs, 0, cs.len())
    }
}

/// Adds to `ids` the provider buckets other than `target_provider_id` that
/// the lines of `text` record.
pub fn add_text_provider_ids(ids: &mut Vec<String>, text: &str, target_provider_id: &str)
    requires
        crate::text::strictly_sorted(views(old(ids)@)),
    ensures
        crate::text::strictly_sorted(views(final(ids)@)),
        views(final(ids)@).to_set() == views(old(ids)@).to_set().union(
            providers_in_text(text@, target_provider_id@),
        ),
{
    let segs = split_segments(text);
    let ghost sv = segment_views(segs@);
    let ghost start = views(ids@).to_set();
    let mut i: usize = 0;
    assert(providers_in_segments(sv.take(0), target_provider_id@) =~= Set::<Seq<char>>::empty());
    assert(start.union(Set::empty()) =~= start);
    while i < segs.len()
        invariant
            i <= segs.len(),
            sv == segment_views(segs@),
            sv.len() == segs.len(),
            crate::text::strictly_sorted(views(ids@)),
            views(ids@).to_set() == start.union(
                providers_in_segments(sv.take(i as int), target_provider_id@),
            ),
        decreases segs.len() - i,
    {
        let ghost seg = sv[i as int];
        assert(seg == (segs@[i as int].0@, segs@[i as int].1));
        let line = line_text_of(&segs[i]);
        let ghost before = views(ids@).to_set();
        match session_meta_model_provider(line.as_str()) {
            Some(p) => {
                if !str_eq(p.as_str(), target_provider_id) {
                    crate::text::insert_sorted(ids, p);
                }
            },
            None => {},
        }
        assert(sv.take(i + 1).drop_last() =~= sv.take(i as int));
        assert(sv.take(i + 1).last() == seg);
        i = i + 1;
        assert(views(ids@).to_set() =~= start.union(
            providers_in_segments(sv.take(i as int), target_provider_id@),
        ));
    }
    assert(sv.take(segs.len() as int) =~= sv);
}


/// The rewrite of two runs of pieces, one after the other.
pub proof fn lemma_rewritten_concat(
    a: Seq<(Seq<char>, bool)>,
    b: Seq<(Seq<char>, bool)>,
    target: Seq<char>,
    src: Seq<Seq<char>>,
)
    ensures
        rewritten_segments(a + b, target, src) == rewritten_segments(a, target, src) + rewritten_segments(b, target, src),
        changed_segments(a + b, target, src) == changed_segments(a, target, src) + changed_segments(b, target, src),
    decreases b.len(),
{
    if b.len() == 0 {
        assert(a + b =~= a);
    } else {
        lemma_rewritten_concat(a, b.drop_last(), target, src);
        assert((a + b).drop_last() =~= a + b.drop_last());
        assert((a + b).last() == b.last());
    }
}

/// The pieces of a history file after the rewrite: each line replaced by
/// its rewrite, where it has one.
pub open spec fn rewritten_pieces(segs: Seq<(Seq<char>, bool)>, target: Seq<char>, sources: Seq<Seq<char>>) -> Seq<
    (Seq<char>, bool),
> {
    Seq::new(
        segs.len(),
        |i: int|
            (
                match rewrite_line(segs[i].0, target, sources) {
                    Some(r) => r,
                    None => segs[i].0,
                },
                segs[i].1,
            ),
    )
}

/// Every rewritten line among `segs` reads as the line it replaces.
pub open spec fn rewrites_read_alike(segs: Seq<(Seq<char>, bool)>, target: Seq<char>, sources: Seq<Seq<char>>) -> bool {
    forall|i: int|
        #![trigger segs[i]]
        0 <= i < segs.len() ==> (rewrite_line(segs[i].0, target, sources) matches Some(r) ==> reads_alike(
            segs[i].0,
            r,
        ))
}

/// Every rewritten line among `segs` records no bucket, or the target.
pub open spec fn rewrites_settle(segs: Seq<(Seq<char>, bool)>, target: Seq<char>, sources: Seq<Seq<char>>) -> bool {
    forall|i: int|
        #![trigger segs[i]]
        0 <= i < segs.len() ==> (rewrite_line(segs[i].0, target, sources) matches Some(r) ==> settled_line(
            r,
            target,
        ))
}

proof fn lemma_pieces_settled(segs: Seq<(Seq<char>, bool)>, target: Seq<char>, sources: Seq<Seq<char>>)
    requires
        rewrites_settle(segs, target, sources),
        normalize(target) == Some(target),
    ensures
        changed_segments(rewritten_pieces(segs, target, sources), target, sources) == 0,
    decreases segs.len(),
{
    if segs.len() > 0 {
        let n = segs.len() - 1;
        assert(rewritten_pieces(segs, target, sources).drop_last() =~= rewritten_pieces(
            segs.drop_last(),
            target,
            sources,
        ));
        assert forall|i: int| #![trigger segs.drop_last()[i]] 0 <= i < segs.drop_last().len() implies (rewrite_line(
            segs.drop_last()[i].0,
            target,
            sources,
        ) matches Some(r) ==> settled_line(r, target)) by {
            assert(segs.drop_last()[i] == segs[i]);
        }
        lemma_pieces_settled(segs.drop_last(), target, sources);
        let x = segs[n];
        if let Some(r) = rewrite_line(x.0, target, sources) {
            assert(settled_line(r, target));
            assert(rewrite_line(r, target, sources) is None);
        }
    }
}

proof fn lemma_newline_facts(t: Seq<char>)
    ensures
        crate::text::first_newline(t) <= t.len(),
        crate::text::first_newline(t) < t.len() ==> t[crate::text::first_newline(t) as int] == '\n',
        forall|j: int| 0 <= j < crate::text::first_newline(t) ==> t[j] != '\n',
    decreases t.len(),
{
    if t.len() > 0 && t[0] != '\n' {
        lemma_newline_facts(t.drop_first());
        assert forall|j: int| 0 <= j < crate::text::first_newline(t) implies t[j] != '\n' by {
            if j > 0 {
                assert(t[j] == t.drop_first()[j - 1]);
            }
        }
    }
}

/// The pieces of a line without `'\n'`, followed or not by one.
proof fn lemma_segments_of_line(body: Seq<char>, rest: Seq<char>)
    requires
        !body.contains('\n'),
    ensures
        segments(body.push('\n') + rest) == seq![(body, true)] + segments(rest),
        body.len() > 0 ==> segments(body) == seq![(body, false)],
{
    let t = body.push('\n') + rest;
    assert forall|j: int| 0 <= j < body.len() implies t[j] != '\n' by {
        assert(t[j] == body[j]);
    }
    crate::text::lemma_first_newline(t, body.len() as int);
    assert(t.take(body.len() as int) =~= body);
    assert(t.skip(body.len() + 1 as int) =~= rest);
    if body.len() > 0 {
        crate::text::lemma_first_newline(body, body.len() as int);
    }
}

/// The rewrite replaces each line by its rewrite, where the rewrites are
/// single lines.
pub proof fn lemma_rewrite_pieces(t: Seq<char>, target: Seq<char>, sources: Seq<Seq<char>>)
    requires
        rewrites_read_alike(segments(t), target, sources),
    ensures
        segments(rewrite_text(t, target, sources)) == rewritten_pieces(segments(t), target, sources),
    decreases t.len(),
{
    if t.len() > 0 {
        let k = crate::text::first_newline(t);
        lemma_newline_facts(t);
        if k < t.len() {
            let x = t.take(k as int);
            let rest = t.skip(k + 1 as int);
            let first = seq![(x, true)];
            assert(segments(t) == first + segments(rest));
            assert forall|i: int| #![trigger segments(rest)[i]] 0 <= i < segments(rest).len() implies (rewrite_line(
                segments(rest)[i].0,
                target,
                sources,
            ) matches Some(r) ==> reads_alike(segments(rest)[i].0, r)) by {
                assert(segments(t)[i + 1] == segments(rest)[i]);
            }
            lemma_rewrite_pieces(rest, target, sources);
            lemma_rewritten_concat(first, segments(rest), target, sources);
            assert(first.drop_last() =~= Seq::<(Seq<char>, bool)>::empty());
            assert(first.last() == (x, true));
            assert(segments(t)[0] == (x, true));
            let body = match rewrite_line(x, target, sources) {
                Some(r) => r,
                None => x,
            };
            assert(!body.contains('\n')) by {
                if rewrite_line(x, target, sources) is None {
                    if body.contains('\n') {
                        let j = choose|j: int| 0 <= j < body.len() && body[j] == '\n';
                        assert(t[j] == x[j]);
                    }
                }
            }
            assert(rewritten_segments(first.drop_last(), target, sources) =~= Seq::<char>::empty());
            assert(rewritten_segments(first, target, sources) =~= body.push('\n'));
            lemma_segments_of_line(body, rewrite_text(rest, target, sources));
            assert(rewrite_text(t, target, sources) == body.push('\n') + rewrite_text(rest, target, sources));
            assert(rewritten_pieces(segments(t), target, sources) =~= seq![(body, true)] + rewritten_pieces(
                segments(rest),
                target,
                sources,
            ));
        } else {
            let only = seq![(t, false)];
            assert(segments(t) == only);
            assert(only.drop_last() =~= Seq::<(Seq<char>, bool)>::empty());
            assert(only.last() == (t, false));
            assert(segments(t)[0] == (t, false));
            let body = match rewrite_line(t, target, sources) {
                Some(r) => r,
                None => t,
            };
            assert(!body.contains('\n')) by {
                if rewrite_line(t, target, sources) is None {
                    if body.contains('\n') {
                        let j = choose|j: int| 0 <= j < body.len() && body[j] == '\n';
                        assert(j < k);
                    }
                }
            }
            assert(rewritten_segments(only.drop_last(), target, sources) =~= Seq::<char>::empty());
            assert(rewritten_segments(only, target, sources) =~= body);
            lemma_segments_of_line(body, Seq::empty());
            assert(rewritten_pieces(segments(t), target, sources) =~= seq![(body, false)]);
        }
    } else {
        assert(rewritten_pieces(segments(t), target, sources) =~= Seq::<(Seq<char>, bool)>::empty());
    }
}

/// The session index reads the rewritten pieces as the original ones.
proof fn lemma_scan_pieces(segs: Seq<(Seq<char>, bool)>, target: Seq<char>, sources: Seq<Seq<char>>)
    requires
        rewrites_read_alike(segs, target, sources),
    ensures
        scan_segments(rewritten_pieces(segs, target, sources)) == scan_segments(segs),
    decreases segs.len(),
{
    if segs.len() > 0 {
        let n = segs.len() - 1;
        assert(rewritten_pieces(segs, target, sources).drop_last() =~= rewritten_pieces(
            segs.drop_last(),
            target,
            sources,
        ));
        assert forall|i: int| #![trigger segs.drop_last()[i]] 0 <= i < segs.drop_last().len() implies (rewrite_line(
            segs.drop_last()[i].0,
            target,
            sources,
        ) matches Some(r) ==> reads_alike(segs.drop_last()[i].0, r)) by {
            assert(segs.drop_last()[i] == segs[i]);
        }
        lemma_scan_pieces(segs.drop_last(), target, sources);
        let x = segs[n];
        let st = scan_segments(segs.drop_last());
        assert(segs.last() == x);
        if let Some(r) = rewrite_line(x.0, target, sources) {
            assert(reads_alike(x.0, r));
            assert(r[r.len() - 1] == r.last());
            assert(line_of((r, x.1)) == r);
            assert(scan_line(st, r) == scan_line(st, x.0));
            if x.1 && x.0.len() > 0 && x.0.last() == '\r' {
                assert(scan_line(st, x.0.drop_last()) == scan_line(st, x.0));
            }
        }
    }
}

/// The session index reads a rewritten history text as the original.
pub proof fn lemma_rewrite_scans_alike(t: Seq<char>, target: Seq<char>, sources: Seq<Seq<char>>)
    requires
        rewrites_read_alike(segments(t), target, sources),
    ensures
        scan_segments(segments(rewrite_text(t, target, sources))) == scan_segments(segments(t)),
{
    lemma_rewrite_pieces(t, target, sources);
    lemma_scan_pieces(segments(t), target, sources);
}

proof fn lemma_first_newline_bound(t: Seq<char>)
    ensures
        crate::text::first_newline(t) <= t.len(),
    decreases t.len(),
{
    if t.len() > 0 && t[0] != '\n' {
        lemma_first_newline_bound(t.drop_first());
    }
}

proof fn lemma_segments_len(t: Seq<char>)
    ensures
        segments(t).len() <= t.len(),
    decreases t.len(),
{
    if t.len() > 0 {
        lemma_first_newline_bound(t);
        let k = crate::text::first_newline(t);
        if k < t.len() {
            lemma_segments_len(t.skip(k + 1 as int));
        }
    }
}

proof fn lemma_changed_segments_len(segs: Seq<(Seq<char>, bool)>, target: Seq<char>, sources: Seq<Seq<char>>)
    ensures
        changed_segments(segs, target, sources) <= segs.len(),
    decreases segs.len(),
{
    if segs.len() > 0 {
        lemma_changed_segments_len(segs.drop_last(), target, sources);
    }
}

/// A file's text has no more changed lines than characters.
pub proof fn lemma_rewrite_count_bound(t: Seq<char>, target: Seq<char>, sources: Seq<Seq<char>>)
    ensures
        rewrite_count(t, target, sources) <= t.len(),
{
    lemma_segments_len(t);
    lemma_changed_segments_len(segments(t), target, sources);
}

} // verus!
