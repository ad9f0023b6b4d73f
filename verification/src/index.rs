//! The session index: deriving an index entry from a history file, and
//! rebuilding `session_index.jsonl`.

use vstd::prelude::*;
use crate::json::{get, get_str, json_parse, items_data, lemma_items_data, parse_json, JsonData, JsonValue};
use crate::session::line_of;
use crate::import::opt_view;
use crate::text::{
    seq_lt, segment_views, segments, split_segments, starts_with, starts_with_str, str_eq, str_lt, trim,
    trim_str,
};
use vstd::string::StringExecFns;

verus! {

/// The first present member among `text`, `content` and `input_text`, where
/// it is a string.
pub open spec fn item_text(item: JsonData) -> Option<Seq<char>> {
    match get(item, "text"@) {
        Some(x) => as_str_of(x),
        None => match get(item, "content"@) {
            Some(x) => as_str_of(x),
            None => match get(item, "input_text"@) {
                Some(x) => as_str_of(x),
                None => None,
            },
        },
    }
}

pub open spec fn as_str_of(v: JsonData) -> Option<Seq<char>> {
    crate::json::as_str(v)
}

/// The texts of the items that have one.
pub open spec fn item_texts(items: Seq<JsonData>) -> Seq<Seq<char>>
    decreases items.len(),
{
    if items.len() == 0 {
        Seq::empty()
    } else {
        let rest = item_texts(items.drop_last());
        match item_text(items.last()) {
            Some(t) => rest.push(t),
            None => rest,
        }
    }
}

/// The parts joined with `'\n'`.
pub open spec fn join_lines(parts: Seq<Seq<char>>) -> Seq<char>
    decreases parts.len(),
{
    if parts.len() == 0 {
        Seq::empty()
    } else if parts.len() == 1 {
        parts[0]
    } else {
        join_lines(parts.drop_last()) + seq!['\n'] + parts.last()
    }
}

/// The text of a message's `content`: a string as it is, the texts of an
/// array's items joined by lines, an object's `text` or `content`.
pub open spec fn index_text(content: Option<JsonData>) -> Seq<char> {
    match content {
        Some(JsonData::Str(t)) => t,
        Some(JsonData::Array(items)) => join_lines(item_texts(items)),
        Some(JsonData::Object(ms)) => {
            let v = JsonData::Object(ms);
            let found = match get(v, "text"@) {
                Some(x) => Some(x),
                None => get(v, "content"@),
            };
            match found {
                Some(x) => match as_str_of(x) {
                    Some(t) => t,
                    None => Seq::empty(),
                },
                None => Seq::empty(),
            }
        },
        _ => Seq::empty(),
    }
}

fn item_text_of(item: &JsonValue) -> (r: Option<&String>)
    ensures
        r matches Some(s) ==> item_text(item@) == Some(s@),
        r is None <==> item_text(item@) is None,
{
    match item.get("text") {
        Some(x) => x.as_str(),
        None => match item.get("content") {
            Some(x) => x.as_str(),
            None => match item.get("input_text") {
                Some(x) => x.as_str(),
                None => None,
            },
        },
    }
}

/// The text of a message's content (see [`index_text`]).
pub fn extract_index_text(value: Option<&JsonValue>) -> (r: String)
    ensures
        r@ == index_text(match value {
            Some(v) => Some(v@),
            None => None,
        }),
{
    match value {
        Some(JsonValue::Str(t)) => t.clone(),
        Some(JsonValue::Array(items)) => {
            let ghost d = items_data(items@);
            proof {
                lemma_items_data(items@);
            }
            let mut out = String::new();
            let mut any = false;
            let mut i: usize = 0;
            while i < items.len()
                invariant
                    i <= items.len(),
                    d == items_data(items@),
                    d.len() == items.len(),
                    forall|j: int| 0 <= j < items.len() ==> #[trigger] d[j] == items@[j]@,
                    out@ == join_lines(item_texts(d.take(i as int))),
                    any == (item_texts(d.take(i as int)).len() > 0),
                decreases items.len() - i,
            {
                assert(d.take(i + 1).drop_last() =~= d.take(i as int));
                assert(d.take(i + 1).last() == items@[i as int]@);
                let ghost parts = item_texts(d.take(i as int));
                match item_text_of(&items[i]) {
                    Some(t) => {
                        assert(item_texts(d.take(i + 1)) == parts.push(t@));
                        assert(parts.push(t@).drop_last() =~= parts);
                        if any {
                            out.push('\n');
                        }
                        out.append(t.as_str());
                        any = true;
                    },
                    None => {},
                }
                i = i + 1;
                assert(out@ =~= join_lines(item_texts(d.take(i as int))));
            }
            assert(d.take(items.len() as int) =~= d);
            out
        },
        Some(JsonValue::Object(_)) => {
            let v = value.unwrap();
            let found = match v.get("text") {
                Some(x) => Some(x),
                None => v.get("content"),
            };
            match found {
                Some(x) => match x.as_str() {
                    Some(t) => t.clone(),
                    None => String::new(),
                },
                None => String::new(),
            }
        },
        _ => String::new(),
    }
}


/// One entry of `session_index.jsonl`.
pub struct SessionIndexEntry {
    pub id: String,
    pub thread_name: String,
    pub updated_at: String,
}

/// The model of a [`SessionIndexEntry`].
pub struct EntryData {
    pub id: Seq<char>,
    pub thread_name: Seq<char>,
    pub updated_at: Seq<char>,
}

impl View for SessionIndexEntry {
    type V = EntryData;

    open spec fn view(&self) -> EntryData {
        EntryData { id: self.id@, thread_name: self.thread_name@, updated_at: self.updated_at@ }
    }
}

/// What has been learnt of a session while reading its lines.
pub struct ScanState {
    pub id: Option<Seq<char>>,
    pub cwd: Option<Seq<char>>,
    pub thread_name: Option<Seq<char>>,
    pub first_timestamp: Option<Seq<char>>,
    pub updated_at: Option<Seq<char>>,
}

pub open spec fn or_else(a: Option<Seq<char>>, b: Option<Seq<char>>) -> Option<Seq<char>> {
    if a is Some {
        a
    } else {
        b
    }
}

/// A user message that can name a thread: not blank, not the injected
/// `AGENTS.md` or environment context.
pub open spec fn is_thread_name(text: Seq<char>) -> bool {
    text.len() > 0 && !starts_with(text, "# AGENTS.md"@) && !starts_with(
        text,
        "<environment_context>"@,
    )
}

/// Reads one parsed record of a session: its timestamp, its `session_meta`
/// payload (id, working directory, timestamp), or its first user message.
pub open spec fn scan_value(st: ScanState, v: JsonData) -> ScanState {
    let st1 = match get_str(v, "timestamp"@) {
        Some(ts) => ScanState {
            first_timestamp: or_else(st.first_timestamp, Some(ts)),
            updated_at: Some(ts),
            ..st
        },
        None => st,
    };
    if get_str(v, "type"@) == Some("session_meta"@) {
        match get(v, "payload"@) {
            Some(p) => {
                let st2 = ScanState {
                    id: or_else(st1.id, get_str(p, "id"@)),
                    cwd: or_else(st1.cwd, get_str(p, "cwd"@)),
                    ..st1
                };
                match get_str(p, "timestamp"@) {
                    Some(ts) => ScanState {
                        first_timestamp: or_else(st2.first_timestamp, Some(ts)),
                        updated_at: or_else(st2.updated_at, Some(ts)),
                        ..st2
                    },
                    None => st2,
                }
            },
            None => st1,
        }
    } else if st1.thread_name is None && get_str(v, "type"@) == Some("response_item"@) {
        match get(v, "payload"@) {
            Some(p) => if get_str(p, "type"@) == Some("message"@) && get_str(p, "role"@) == Some(
                "user"@,
            ) {
                let text = trim(index_text(get(p, "content"@)));
                if is_thread_name(text) {
                    ScanState { thread_name: Some(text), ..st1 }
                } else {
                    st1
                }
            } else {
                st1
            },
            None => st1,
        }
    } else {
        st1
    }
}

/// Reads one line; a line that is not JSON is skipped.
pub open spec fn scan_line(st: ScanState, line: Seq<char>) -> ScanState {
    match json_parse(line) {
        Ok(v) => scan_value(st, v),
        Err(_) => st,
    }
}

pub open spec fn empty_scan() -> ScanState {
    ScanState { id: None, cwd: None, thread_name: None, first_timestamp: None, updated_at: None }
}

/// Reads the lines in order.
pub open spec fn scan_segments(segs: Seq<(Seq<char>, bool)>) -> ScanState
    decreases segs.len(),
{
    if segs.len() == 0 {
        empty_scan()
    } else {
        scan_line(scan_segments(segs.drop_last()), line_of(segs.last()))
    }
}

/// The index entry of a session history text: none without a session id;
/// its last timestamp (else `now`); its first user message, else the name
/// that `cwd_name` gives of its working directory, else its id, as thread
/// name.
pub open spec fn entry_of_text(t: Seq<char>, cwd_name: Option<Seq<char>>, now: Seq<char>) -> Option<EntryData> {
    let st = scan_segments(segments(t));
    match st.id {
        None => None,
        Some(id) => Some(
            EntryData {
                id,
                updated_at: match or_else(st.updated_at, st.first_timestamp) {
                    Some(u) => u,
                    None => now,
                },
                thread_name: match st.thread_name {
                    Some(n) => n,
                    None => match st.cwd {
                        Some(c) => match cwd_name {
                            Some(n) => n,
                            None => id,
                        },
                        None => id,
                    },
                },
            },
        ),
    }
}

/// A name that `Path::file_name` can give: the final component of a
/// path, so not empty and without a `'/'` (a separator on every platform).
pub open spec fn file_name_like(n: Option<Seq<char>>) -> bool {
    n matches Some(x) ==> x.len() > 0 && !x.contains('/')
}

/// Calls `std::path::Path::file_name` on `path`. Which name it gives
/// follows the path rules of the platform the program is built for
/// (separators, prefixes), so only this is stated: a name it gives is a
/// final component of the path, not empty and without a `'/'`.
#[verifier::external_body]
fn std_file_name(path: &str) -> (r: Option<String>)
    ensures
        file_name_like(crate::import::opt_view(r)),
{
    std::path::Path::new(path).file_name().map(|n| n.to_string_lossy().into_owned())
}

struct Scan {
    id: Option<String>,
    cwd: Option<String>,
    thread_name: Option<String>,
    first_timestamp: Option<String>,
    updated_at: Option<String>,
}


spec fn scan_view(s: Scan) -> ScanState {
    ScanState {
        id: opt_view(s.id),
        cwd: opt_view(s.cwd),
        thread_name: opt_view(s.thread_name),
        first_timestamp: opt_view(s.first_timestamp),
        updated_at: opt_view(s.updated_at),
    }
}

fn opt_clone(o: Option<&String>) -> (r: Option<String>)
    ensures
        opt_view(r) == match o {
            Some(s) => Some(s@),
            None => None,
        },
{
    match o {
        Some(s) => Some(s.clone()),
        None => None,
    }
}

fn scan_value_exec(st: &mut Scan, v: &JsonValue)
    ensures
        scan_view(*final(st)) == scan_value(scan_view(*old(st)), v@),
{
    if let Some(ts) = v.get_str("timestamp") {
        if st.first_timestamp.is_none() {
            st.first_timestamp = Some(ts.clone());
        }
        st.updated_at = Some(ts.clone());
    }
    let ghost st1 = scan_view(*st);
    let is_meta = match v.get_str("type") {
        Some(t) => str_eq(t.as_str(), "session_meta"),
        None => false,
    };
    if is_meta {
        if let Some(p) = v.get("payload") {
            if st.id.is_none() {
                st.id = opt_clone(p.get_str("id"));
            }
            if st.cwd.is_none() {
                st.cwd = opt_clone(p.get_str("cwd"));
            }
            if let Some(ts) = p.get_str("timestamp") {
                if st.first_timestamp.is_none() {
                    st.first_timestamp = Some(ts.clone());
                }
                if st.updated_at.is_none() {
                    st.updated_at = Some(ts.clone());
                }
            }
        }
        return;
    }
    let is_response = match v.get_str("type") {
        Some(t) => str_eq(t.as_str(), "response_item"),
        None => false,
    };
    if st.thread_name.is_none() && is_response {
        if let Some(p) = v.get("payload") {
            let is_message = match p.get_str("type") {
                Some(t) => str_eq(t.as_str(), "message"),
                None => false,
            };
            let is_user = match p.get_str("role") {
                Some(t) => str_eq(t.as_str(), "user"),
                None => false,
            };
            if is_message && is_user {
                let raw = extract_index_text(p.get("content"));
                let text = trim_str(raw.as_str());
                if !text.as_str().is_empty() && !starts_with_str(text.as_str(), "# AGENTS.md")
                    && !starts_with_str(text.as_str(), "<environment_context>") {
                    st.thread_name = Some(text);
                }
            }
        }
    }
}

/// The index entry of a session history text (see [`entry_of_text`]),
/// with the name that `Path::file_name` gave of its working directory
/// where it needed one; `now` stands in for a session without any
/// timestamp.
pub fn index_entry_and_cwd_name(text: &str, now: &str) -> (r: (Option<SessionIndexEntry>, Option<String>))
    ensures
        r.0 matches Some(e) ==> entry_of_text(text@, opt_view(r.1), now@) == Some(e@),
        r.0 is None <==> entry_of_text(text@, opt_view(r.1), now@) is None,
        file_name_like(opt_view(r.1)),
{
    let segs = split_segments(text);
    let ghost sv = segment_views(segs@);
    let mut st = Scan { id: None, cwd: None, thread_name: None, first_timestamp: None, updated_at: None };
    let mut i: usize = 0;
    assert(sv.take(0) =~= Seq::<(Seq<char>, bool)>::empty());
    while i < segs.len()
        invariant
            i <= segs.len(),
            sv == segment_views(segs@),
            sv.len() == segs.len(),
            scan_view(st) == scan_segments(sv.take(i as int)),
        decreases segs.len() - i,
    {
        assert(sv[i as int] == (segs@[i as int].0@, segs@[i as int].1));
        let line = crate::session::line_text_of(&segs[i]);
        match parse_json(line.as_str()) {
            Ok(v) => scan_value_exec(&mut st, &v),
            Err(_) => {},
        }
        assert(sv.take(i + 1).drop_last() =~= sv.take(i as int));
        assert(sv.take(i + 1).last() == sv[i as int]);
        i = i + 1;
    }
    assert(sv.take(segs.len() as int) =~= sv);
    let id = match st.id {
        Some(id) => id,
        None => {
            return (None, None);
        },
    };
    let updated_at = match st.updated_at {
        Some(u) => u,
        None => match st.first_timestamp {
            Some(f) => f,
            None => String::from_str(now),
        },
    };
    let (thread_name, cwd_name) = match st.thread_name {
        Some(n) => (n, None),
        None => match st.cwd {
            Some(c) => {
                let name = std_file_name(c.as_str());
                match &name {
                    Some(n) => (n.clone(), name),
                    None => (id.clone(), name),
                }
            },
            None => (id.clone(), None),
        },
    };
    (Some(SessionIndexEntry { id, thread_name, updated_at }), cwd_name)
}

/// The index entry of a session history text (see [`entry_of_text`]): the
/// thread name taken from the working directory is whatever
/// `Path::file_name` gives of it on this platform.
pub fn session_index_entry_from_text(text: &str, now: &str) -> (r: Option<SessionIndexEntry>)
    ensures
        r matches Some(e) ==> exists|n: Option<Seq<char>>|
            file_name_like(n) && entry_of_text(text@, n, now@) == Some(e@),
        r is None <==> entry_of_text(text@, None, now@) is None,
{
    let (e, name) = index_entry_and_cwd_name(text, now);
    assert(entry_of_text(text@, None, now@) is None <==> entry_of_text(text@, opt_view(name), now@) is None);
    e
}




/// The entries keyed by id; a later entry replaces an earlier one.
pub open spec fn entries_map(s: Seq<EntryData>) -> Map<Seq<char>, EntryData>
    decreases s.len(),
{
    if s.len() == 0 {
        Map::empty()
    } else {
        entries_map(s.drop_last()).insert(s.last().id, s.last())
    }
}

/// The existing index as read back: a later line replaces an earlier one
/// with the same id; entries with a blank id are dropped.
pub open spec fn existing_map(lines: Seq<EntryData>) -> Map<Seq<char>, EntryData>
    decreases lines.len(),
{
    if lines.len() == 0 {
        Map::empty()
    } else {
        let m = existing_map(lines.drop_last());
        let e = lines.last();
        if trim(e.id).len() > 0 {
            m.insert(e.id, e)
        } else {
            m
        }
    }
}

/// Merges one derived entry: a new id is added; a known id only takes a
/// later `updated_at`, keeping its thread name. The count grows by one for
/// each entry added or advanced.
pub open spec fn merge_entry(m: Map<Seq<char>, EntryData>, c: nat, e: EntryData) -> (
    Map<Seq<char>, EntryData>,
    nat,
) {
    if m.contains_key(e.id) {
        if seq_lt(m[e.id].updated_at, e.updated_at) {
            (m.insert(e.id, EntryData { updated_at: e.updated_at, ..m[e.id] }), c + 1)
        } else {
            (m, c)
        }
    } else {
        (m.insert(e.id, e), c + 1)
    }
}

/// Merges the derived entries in order; files without a session id add
/// nothing.
pub open spec fn merge_entries(m: Map<Seq<char>, EntryData>, derived: Seq<Option<EntryData>>) -> (
    Map<Seq<char>, EntryData>,
    nat,
)
    decreases derived.len(),
{
    if derived.len() == 0 {
        (m, 0)
    } else {
        let (m1, c1) = merge_entries(m, derived.drop_last());
        match derived.last() {
            Some(e) => merge_entry(m1, c1, e),
            None => (m1, c1),
        }
    }
}

/// The ids are pairwise distinct.
pub open spec fn distinct_ids(s: Seq<EntryData>) -> bool {
    forall|i: int, j: int| 0 <= i < j < s.len() ==> #[trigger] s[i].id != #[trigger] s[j].id
}

pub open spec fn entry_views(s: Seq<SessionIndexEntry>) -> Seq<EntryData> {
    s.map_values(|e: SessionIndexEntry| e@)
}

pub proof fn lemma_entries_map(s: Seq<EntryData>)
    requires
        distinct_ids(s),
    ensures
        forall|k: Seq<char>| #[trigger]
            entries_map(s).contains_key(k) <==> exists|i: int| 0 <= i < s.len() && s[i].id == k,
        forall|i: int| 0 <= i < s.len() ==> #[trigger] entries_map(s)[s[i].id] == s[i],
    decreases s.len(),
{
    if s.len() > 0 {
        let t = s.drop_last();
        assert forall|i: int, j: int| 0 <= i < j < t.len() implies #[trigger] t[i].id != #[trigger] t[j].id by {
            assert(t[i] == s[i] && t[j] == s[j]);
        }
        lemma_entries_map(t);
        assert forall|k: Seq<char>| #[trigger]
            entries_map(s).contains_key(k) implies exists|i: int| 0 <= i < s.len() && s[i].id == k by {
            if k != s.last().id {
                assert(entries_map(t).contains_key(k));
                let i = choose|i: int| 0 <= i < t.len() && t[i].id == k;
                assert(s[i] == t[i]);
            } else {
                assert(s[s.len() - 1].id == k);
            }
        }
        assert forall|k: Seq<char>| (exists|i: int| 0 <= i < s.len() && s[i].id == k) implies #[trigger]
            entries_map(s).contains_key(k) by {
            let i = choose|i: int| 0 <= i < s.len() && s[i].id == k;
            if i < s.len() - 1 {
                assert(t[i] == s[i]);
                assert(entries_map(t).contains_key(k));
            }
        }
        assert forall|i: int| 0 <= i < s.len() implies #[trigger] entries_map(s)[s[i].id] == s[i] by {
            if i < s.len() - 1 {
                assert(t[i] == s[i]);
                assert(s[i].id != s.last().id);
            }
        }
    }
}

pub proof fn lemma_entries_map_update(s: Seq<EntryData>, i: int, e: EntryData)
    requires
        distinct_ids(s),
        0 <= i < s.len(),
        e.id == s[i].id,
    ensures
        entries_map(s.update(i, e)) == entries_map(s).insert(e.id, e),
        distinct_ids(s.update(i, e)),
{
    let u = s.update(i, e);
    assert forall|a: int, b: int| 0 <= a < b < u.len() implies #[trigger] u[a].id != #[trigger] u[b].id by {
        assert(u[a].id == s[a].id && u[b].id == s[b].id);
    }
    lemma_entries_map(s);
    lemma_entries_map(u);
    assert forall|k: Seq<char>| #[trigger] entries_map(u).contains_key(k) <==> entries_map(s).insert(e.id, e).contains_key(k) by {
        if entries_map(u).contains_key(k) {
            let j = choose|j: int| 0 <= j < u.len() && u[j].id == k;
            assert(s[j].id == k);
        }
        if entries_map(s).contains_key(k) {
            let j = choose|j: int| 0 <= j < s.len() && s[j].id == k;
            assert(u[j].id == k);
        }
    }
    assert forall|k: Seq<char>| #[trigger] entries_map(u).contains_key(k) implies entries_map(u)[k] == entries_map(s).insert(e.id, e)[k] by {
        let j = choose|j: int| 0 <= j < u.len() && u[j].id == k;
        assert(entries_map(u)[u[j].id] == u[j]);
        if j != i {
            assert(entries_map(s)[s[j].id] == s[j]);
        }
    }
    assert(entries_map(u) =~= entries_map(s).insert(e.id, e));
}

fn find_entry(es: &Vec<SessionIndexEntry>, id: &str) -> (r: Option<usize>)
    ensures
        r matches Some(i) ==> i < es.len() && es@[i as int].id@ == id@,
        r is None ==> forall|j: int| 0 <= j < es.len() ==> #[trigger] es@[j].id@ != id@,
{
    let mut i: usize = 0;
    while i < es.len()
        invariant
            i <= es.len(),
            forall|j: int| 0 <= j < i ==> #[trigger] es@[j].id@ != id@,
        decreases es.len() - i,
    {
        if str_eq(es[i].id.as_str(), id) {
            return Some(i);
        }
        i = i + 1;
    }
    None
}

fn copy_entry(e: &SessionIndexEntry) -> (r: SessionIndexEntry)
    ensures
        r@ == e@,
{
    SessionIndexEntry {
        id: e.id.clone(),
        thread_name: e.thread_name.clone(),
        updated_at: e.updated_at.clone(),
    }
}

/// Puts `e` under its id: replaces the entry with that id, or adds it.
fn put_entry(es: &mut Vec<SessionIndexEntry>, e: SessionIndexEntry)
    requires
        distinct_ids(entry_views(old(es)@)),
    ensures
        distinct_ids(entry_views(final(es)@)),
        entries_map(entry_views(final(es)@)) == entries_map(entry_views(old(es)@)).insert(e@.id, e@),
{
    let ghost s = entry_views(es@);
    match find_entry(es, e.id.as_str()) {
        Some(i) => {
            proof {
                assert(s[i as int] == es@[i as int]@);
                lemma_entries_map_update(s, i as int, e@);
            }
            es.set(i, e);
            assert(entry_views(es@) =~= s.update(i as int, e@));
        },
        None => {
            let ghost ev = e@;
            es.push(e);
            proof {
                let u = entry_views(es@);
                assert(u =~= s.push(ev));
                assert(u.drop_last() =~= s);
                assert forall|a: int, b: int| 0 <= a < b < u.len() implies #[trigger] u[a].id != #[trigger] u[b].id by {
                    if b == u.len() - 1 {
                        assert(u[a] == es@[a]@);
                    } else {
                        assert(u[a] == s[a] && u[b] == s[b]);
                    }
                }
            }
        },
    }
}

/// Reads back the existing index entries (see [`existing_map`]), as a list
/// with distinct ids.
pub fn read_existing_session_index_entries(lines: &Vec<SessionIndexEntry>) -> (r: Vec<SessionIndexEntry>)
    ensures
        distinct_ids(entry_views(r@)),
        entries_map(entry_views(r@)) == existing_map(entry_views(lines@)),
{
    let mut es: Vec<SessionIndexEntry> = Vec::new();
    let ghost lv = entry_views(lines@);
    let mut i: usize = 0;
    assert(entry_views(es@) =~= Seq::<EntryData>::empty());
    assert(lv.take(0) =~= Seq::<EntryData>::empty());
    while i < lines.len()
        invariant
            i <= lines.len(),
            lv == entry_views(lines@),
            distinct_ids(entry_views(es@)),
            entries_map(entry_views(es@)) == existing_map(lv.take(i as int)),
        decreases lines.len() - i,
    {
        assert(lv.take(i + 1).drop_last() =~= lv.take(i as int));
        assert(lv.take(i + 1).last() == lines@[i as int]@);
        let trimmed = trim_str(lines[i].id.as_str());
        if !trimmed.as_str().is_empty() {
            put_entry(&mut es, copy_entry(&lines[i]));
        }
        i = i + 1;
    }
    assert(lv.take(lines.len() as int) =~= lv);
    es
}


pub open spec fn opt_entry_views(s: Seq<Option<SessionIndexEntry>>) -> Seq<Option<EntryData>> {
    s.map_values(
        |o: Option<SessionIndexEntry>|
            match o {
                Some(e) => Some(e@),
                None => None,
            },
    )
}

/// Merges the entries derived from the history files into the index (see
/// [`merge_entries`]); returns how many entries were added or advanced.
pub fn merge_session_index_entries(es: &mut Vec<SessionIndexEntry>, derived: &Vec<Option<SessionIndexEntry>>) -> (r:
    usize)
    requires
        distinct_ids(entry_views(old(es)@)),
    ensures
        distinct_ids(entry_views(final(es)@)),
        (entries_map(entry_views(final(es)@)), r as nat) == merge_entries(
            entries_map(entry_views(old(es)@)),
            opt_entry_views(derived@),
        ),
{
    let ghost m0 = entries_map(entry_views(es@));
    let ghost dv = opt_entry_views(derived@);
    let mut count: usize = 0;
    let mut i: usize = 0;
    assert(dv.take(0) =~= Seq::<Option<EntryData>>::empty());
    while i < derived.len()
        invariant
            i <= derived.len(),
            dv == opt_entry_views(derived@),
            dv.len() == derived.len(),
            distinct_ids(entry_views(es@)),
            (entries_map(entry_views(es@)), count as nat) == merge_entries(m0, dv.take(i as int)),
            count <= i,
        decreases derived.len() - i,
    {
        assert(dv.take(i + 1).drop_last() =~= dv.take(i as int));
        assert(dv.take(i + 1).last() == dv[i as int]);
        match &derived[i] {
            Some(e) => {
                assert(dv[i as int] == Some(e@));
                let ghost sv = entry_views(es@);
                proof {
                    lemma_entries_map(sv);
                }
                match find_entry(es, e.id.as_str()) {
                    Some(k) => {
                        assert(sv[k as int] == es@[k as int]@);
                        assert(entries_map(sv).contains_key(e.id@));
                        assert(sv[k as int].id == e.id@);
                        assert(entries_map(sv)[sv[k as int].id] == sv[k as int]);
                        if str_lt(es[k].updated_at.as_str(), e.updated_at.as_str()) {
                            let updated = SessionIndexEntry {
                                id: es[k].id.clone(),
                                thread_name: es[k].thread_name.clone(),
                                updated_at: e.updated_at.clone(),
                            };
                            proof {
                                lemma_entries_map_update(sv, k as int, updated@);
                            }
                            es.set(k, updated);
                            assert(entry_views(es@) =~= sv.update(k as int, updated@));
                            count = count + 1;
                        }
                    },
                    None => {
                        proof {
                            if entries_map(sv).contains_key(e.id@) {
                                let j = choose|j: int| 0 <= j < sv.len() && sv[j].id == e.id@;
                                assert(sv[j] == es@[j]@);
                            }
                        }
                        put_entry(es, copy_entry(e));
                        count = count + 1;
                    },
                }
            },
            None => {
                assert(dv[i as int] is None);
            },
        }
        i = i + 1;
    }
    assert(dv.take(derived.len() as int) =~= dv);
    count
}

/// Index order: by `updated_at`, then by id.
pub open spec fn entry_lt(a: EntryData, b: EntryData) -> bool {
    seq_lt(a.updated_at, b.updated_at) || (a.updated_at == b.updated_at && seq_lt(a.id, b.id))
}

pub open spec fn sorted_entries(s: Seq<EntryData>) -> bool {
    forall|i: int, j: int| 0 <= i < j < s.len() ==> entry_lt(#[trigger] s[i], #[trigger] s[j])
}

proof fn lemma_entry_lt_total(a: EntryData, b: EntryData)
    requires
        a.id != b.id,
    ensures
        entry_lt(a, b) || entry_lt(b, a),
        !(entry_lt(a, b) && entry_lt(b, a)),
{
    crate::text::lemma_seq_lt_total(a.updated_at, b.updated_at);
    crate::text::lemma_seq_lt_total(a.id, b.id);
    crate::text::lemma_seq_lt_irreflexive(a.updated_at);
}

proof fn lemma_entry_lt_transitive(a: EntryData, b: EntryData, c: EntryData)
    requires
        entry_lt(a, b),
        entry_lt(b, c),
    ensures
        entry_lt(a, c),
{
    if seq_lt(a.updated_at, b.updated_at) && seq_lt(b.updated_at, c.updated_at) {
        crate::text::lemma_seq_lt_transitive(a.updated_at, b.updated_at, c.updated_at);
    } else if a.updated_at == b.updated_at && b.updated_at == c.updated_at {
        crate::text::lemma_seq_lt_transitive(a.id, b.id, c.id);
    }
}

fn entry_lt_exec(a: &SessionIndexEntry, b: &SessionIndexEntry) -> (r: bool)
    ensures
        r == entry_lt(a@, b@),
{
    str_lt(a.updated_at.as_str(), b.updated_at.as_str()) || (str_eq(
        a.updated_at.as_str(),
        b.updated_at.as_str(),
    ) && str_lt(a.id.as_str(), b.id.as_str()))
}

/// Two lists with distinct ids and the same entries give the same map.
proof fn lemma_entries_map_same_set(s1: Seq<EntryData>, s2: Seq<EntryData>)
    requires
        distinct_ids(s1),
        distinct_ids(s2),
        s1.to_set() == s2.to_set(),
    ensures
        entries_map(s1) == entries_map(s2),
{
    lemma_entries_map(s1);
    lemma_entries_map(s2);
    assert forall|k: Seq<char>| #[trigger] entries_map(s1).contains_key(k) <==> entries_map(s2).contains_key(k) by {
        if entries_map(s1).contains_key(k) {
            let i = choose|i: int| 0 <= i < s1.len() && s1[i].id == k;
            assert(s1.to_set().contains(s1[i]));
            let j = choose|j: int| 0 <= j < s2.len() && s2[j] == s1[i];
        }
        if entries_map(s2).contains_key(k) {
            let i = choose|i: int| 0 <= i < s2.len() && s2[i].id == k;
            assert(s2.to_set().contains(s2[i]));
            let j = choose|j: int| 0 <= j < s1.len() && s1[j] == s2[i];
        }
    }
    assert forall|k: Seq<char>| #[trigger] entries_map(s1).contains_key(k) implies entries_map(s1)[k] == entries_map(s2)[k] by {
        let i = choose|i: int| 0 <= i < s1.len() && s1[i].id == k;
        assert(s1.to_set().contains(s1[i]));
        let j = choose|j: int| 0 <= j < s2.len() && s2[j] == s1[i];
        assert(entries_map(s1)[s1[i].id] == s1[i]);
        assert(entries_map(s2)[s2[j].id] == s2[j]);
    }
    assert(entries_map(s1) =~= entries_map(s2));
}

proof fn lemma_sorted_entries_unique(a: Seq<EntryData>, b: Seq<EntryData>)
    requires
        sorted_entries(a),
        sorted_entries(b),
        a.to_set() == b.to_set(),
    ensures
        a == b,
    decreases a.len(),
{
    if a.len() == 0 {
        if b.len() > 0 {
            assert(b.to_set().contains(b[0]));
        }
        assert(a =~= b);
    } else {
        assert(a.to_set().contains(a[0]));
        let j = choose|j: int| 0 <= j < b.len() && b[j] == a[0];
        assert(b.to_set().contains(b[0]));
        let k = choose|k: int| 0 <= k < a.len() && a[k] == b[0];
        if a[0] != b[0] {
            assert(entry_lt(b[0], b[j]));
            assert(entry_lt(a[0], a[k]));
            lemma_entry_lt_transitive(a[0], b[0], a[0]);
            lemma_entry_lt_irreflexive(a[0]);
        }
        let a1 = a.drop_first();
        let b1 = b.drop_first();
        assert forall|x: EntryData| a1.to_set().contains(x) <==> b1.to_set().contains(x) by {
            if a1.to_set().contains(x) {
                let i = choose|i: int| 0 <= i < a1.len() && a1[i] == x;
                assert(a[i + 1] == x);
                assert(entry_lt(a[0], a[i + 1]));
                lemma_entry_lt_irreflexive(x);
                assert(b.to_set().contains(x));
                let m = choose|m: int| 0 <= m < b.len() && b[m] == x;
                assert(m != 0);
                assert(b1[m - 1] == x);
            }
            if b1.to_set().contains(x) {
                let i = choose|i: int| 0 <= i < b1.len() && b1[i] == x;
                assert(b[i + 1] == x);
                assert(entry_lt(b[0], b[i + 1]));
                lemma_entry_lt_irreflexive(x);
                assert(a.to_set().contains(x));
                let m = choose|m: int| 0 <= m < a.len() && a[m] == x;
                assert(m != 0);
                assert(a1[m - 1] == x);
            }
        }
        assert(a1.to_set() =~= b1.to_set());
        assert forall|x: int, y: int| 0 <= x < y < a1.len() implies entry_lt(#[trigger] a1[x], #[trigger] a1[y]) by {
            assert(a1[x] == a[x + 1] && a1[y] == a[y + 1]);
        }
        assert forall|x: int, y: int| 0 <= x < y < b1.len() implies entry_lt(#[trigger] b1[x], #[trigger] b1[y]) by {
            assert(b1[x] == b[x + 1] && b1[y] == b[y + 1]);
        }
        lemma_sorted_entries_unique(a1, b1);
        assert(a.len() == b.len());
        assert forall|i: int| 0 <= i < a.len() implies a[i] == b[i] by {
            if i > 0 {
                assert(a[i] == a1[i - 1] && b[i] == b1[i - 1]);
            }
        }
        assert(a =~= b);
    }
}

proof fn lemma_entry_lt_irreflexive(a: EntryData)
    ensures
        !entry_lt(a, a),
{
    crate::text::lemma_seq_lt_irreflexive(a.updated_at);
    crate::text::lemma_seq_lt_irreflexive(a.id);
}

/// The index order is fixed by the entries: two lists in index order, with
/// distinct ids and the same entries by id, are the same list.
pub proof fn lemma_index_order_unique(a: Seq<EntryData>, b: Seq<EntryData>)
    requires
        distinct_ids(a),
        distinct_ids(b),
        sorted_entries(a),
        sorted_entries(b),
        entries_map(a) == entries_map(b),
    ensures
        a == b,
{
    lemma_entries_map(a);
    lemma_entries_map(b);
    assert forall|x: EntryData| a.to_set().contains(x) <==> b.to_set().contains(x) by {
        if a.to_set().contains(x) {
            let i = choose|i: int| 0 <= i < a.len() && a[i] == x;
            assert(entries_map(a)[a[i].id] == a[i]);
            assert(entries_map(b).contains_key(x.id));
            let j = choose|j: int| 0 <= j < b.len() && b[j].id == x.id;
            assert(entries_map(b)[b[j].id] == b[j]);
            assert(b[j] == x);
        }
        if b.to_set().contains(x) {
            let i = choose|i: int| 0 <= i < b.len() && b[i] == x;
            assert(entries_map(b)[b[i].id] == b[i]);
            assert(entries_map(a).contains_key(x.id));
            let j = choose|j: int| 0 <= j < a.len() && a[j].id == x.id;
            assert(entries_map(a)[a[j].id] == a[j]);
            assert(a[j] == x);
        }
    }
    assert(a.to_set() =~= b.to_set());
    lemma_sorted_entries_unique(a, b);
}

/// The entries in index order (see [`entry_lt`]).
pub fn sort_entries(es: &Vec<SessionIndexEntry>) -> (r: Vec<SessionIndexEntry>)
    requires
        distinct_ids(entry_views(es@)),
    ensures
        sorted_entries(entry_views(r@)),
        distinct_ids(entry_views(r@)),
        entries_map(entry_views(r@)) == entries_map(entry_views(es@)),
{
    let ghost ev = entry_views(es@);
    let mut r: Vec<SessionIndexEntry> = Vec::new();
    let mut i: usize = 0;
    assert(entry_views(r@).to_set() =~= ev.take(0).to_set());
    while i < es.len()
        invariant
            i <= es.len(),
            ev == entry_views(es@),
            ev.len() == es.len(),
            distinct_ids(ev),
            sorted_entries(entry_views(r@)),
            distinct_ids(entry_views(r@)),
            entry_views(r@).to_set() == ev.take(i as int).to_set(),
        decreases es.len() - i,
    {
        let ghost rv = entry_views(r@);
        let ghost e = ev[i as int];
        assert(e == es@[i as int]@);
        assert forall|j: int| 0 <= j < rv.len() implies rv[j].id != e.id by {
            assert(rv.to_set().contains(rv[j]));
            let k = choose|k: int| 0 <= k < i && ev.take(i as int)[k] == rv[j];
            assert(ev[k] == rv[j]);
        }
        let mut p: usize = 0;
        while p < r.len() && entry_lt_exec(&r[p], &es[i])
            invariant
                p <= r.len(),
                i < es.len(),
                rv == entry_views(r@),
                e == es@[i as int]@,
                forall|j: int| 0 <= j < p ==> entry_lt(#[trigger] rv[j], e),
            decreases r.len() - p,
        {
            assert(rv[p as int] == r@[p as int]@);
            p = p + 1;
        }
        proof {
            if p < r.len() {
                assert(rv[p as int] == r@[p as int]@);
                lemma_entry_lt_total(rv[p as int], e);
            }
        }
        r.insert(p, copy_entry(&es[i]));
        proof {
            let nv = entry_views(r@);
            assert(nv =~= rv.insert(p as int, e));
            assert forall|a: int, b: int| 0 <= a < b < nv.len() implies entry_lt(#[trigger] nv[a], #[trigger] nv[b]) by {
                if b < p {
                    assert(nv[a] == rv[a] && nv[b] == rv[b]);
                } else if b == p {
                    assert(nv[a] == rv[a]);
                } else if a == p {
                    assert(nv[b] == rv[b - 1]);
                    if b - 1 > p {
                        lemma_entry_lt_transitive(e, rv[p as int], rv[b - 1]);
                    }
                } else if a < p {
                    assert(nv[a] == rv[a] && nv[b] == rv[b - 1]);
                } else {
                    assert(nv[a] == rv[a - 1] && nv[b] == rv[b - 1]);
                }
            }
            assert forall|a: int, b: int| 0 <= a < b < nv.len() implies #[trigger] nv[a].id != #[trigger] nv[b].id by {
                if a == p {
                    assert(nv[b] == rv[b - 1]);
                } else if b == p {
                    assert(nv[a] == rv[a]);
                } else {
                    let a2 = if a < p { a } else { a - 1 };
                    let b2 = if b < p { b } else { b - 1 };
                    assert(nv[a] == rv[a2] && nv[b] == rv[b2]);
                }
            }
            assert(ev.take(i + 1) =~= ev.take(i as int).push(e));
            assert(nv.to_set() =~= ev.take(i + 1).to_set()) by {
                assert forall|x: EntryData| nv.to_set().contains(x) implies ev.take(i + 1).to_set().contains(x) by {
                    let k = choose|k: int| 0 <= k < nv.len() && nv[k] == x;
                    if k == p {
                        assert(ev.take(i + 1)[i as int] == x);
                    } else {
                        let k2 = if k < p { k } else { k - 1 };
                        assert(rv[k2] == x);
                        assert(rv.to_set().contains(x));
                        let m = choose|m: int| 0 <= m < i && ev.take(i as int)[m] == x;
                        assert(ev.take(i + 1)[m] == x);
                    }
                }
                assert forall|x: EntryData| ev.take(i + 1).to_set().contains(x) implies nv.to_set().contains(x) by {
                    let t = ev.take(i + 1);
                    let k = choose|k: int| 0 <= k < t.len() && t[k] == x;
                    if k == i {
                        assert(nv[p as int] == x);
                    } else {
                        assert(ev.take(i as int)[k] == x);
                        assert(ev.take(i as int).to_set().contains(x));
                        assert(rv.to_set().contains(x));
                        let m = choose|m: int| 0 <= m < rv.len() && rv[m] == x;
                        if m < p {
                            assert(nv[m] == x);
                        } else {
                            assert(nv[m + 1] == x);
                        }
                    }
                }
            }
        }
        i = i + 1;
    }
    proof {
        assert(ev.take(es.len() as int) =~= ev);
        lemma_entries_map_same_set(entry_views(r@), ev);
    }
    r
}

/// The JSON record of an index entry, members in declaration order.
pub open spec fn entry_json(e: EntryData) -> JsonData {
    JsonData::Object(
        seq![
            ("id"@, JsonData::Str(e.id)),
            ("thread_name"@, JsonData::Str(e.thread_name)),
            ("updated_at"@, JsonData::Str(e.updated_at)),
        ],
    )
}

/// The text of `session_index.jsonl`: one compact JSON record per line.
pub open spec fn index_file_text(s: Seq<EntryData>) -> Seq<char>
    decreases s.len(),
{
    if s.len() == 0 {
        Seq::empty()
    } else {
        index_file_text(s.drop_last()) + crate::json::json_write(entry_json(s.last())) + seq!['\n']
    }
}

fn entry_json_value(e: &SessionIndexEntry) -> (r: JsonValue)
    ensures
        r@ == entry_json(e@),
{
    let mut ms: Vec<(String, JsonValue)> = Vec::new();
    ms.push((String::from_str("id"), JsonValue::Str(e.id.clone())));
    ms.push((String::from_str("thread_name"), JsonValue::Str(e.thread_name.clone())));
    ms.push((String::from_str("updated_at"), JsonValue::Str(e.updated_at.clone())));
    proof {
        crate::json::lemma_members_data(ms@);
        assert(crate::json::members_data(ms@) =~= seq![
            ("id"@, JsonData::Str(e.id@)),
            ("thread_name"@, JsonData::Str(e.thread_name@)),
            ("updated_at"@, JsonData::Str(e.updated_at@)),
        ]);
    }
    JsonValue::Object(ms)
}

/// Writes the entries, one JSON record per line.
pub fn index_text_of(es: &Vec<SessionIndexEntry>) -> (r: String)
    ensures
        r@ == index_file_text(entry_views(es@)),
{
    let ghost ev = entry_views(es@);
    let mut out = String::new();
    let mut i: usize = 0;
    assert(ev.take(0) =~= Seq::<EntryData>::empty());
    while i < es.len()
        invariant
            i <= es.len(),
            ev == entry_views(es@),
            ev.len() == es.len(),
            out@ == index_file_text(ev.take(i as int)),
        decreases es.len() - i,
    {
        assert(ev.take(i + 1).drop_last() =~= ev.take(i as int));
        assert(ev.take(i + 1).last() == es@[i as int]@);
        let v = entry_json_value(&es[i]);
        let line = crate::json::to_json_string(&v);
        crate::provider::push_all(&mut out, line.as_str());
        out.push('\n');
        i = i + 1;
        assert(out@ =~= index_file_text(ev.take(i as int)));
    }
    assert(ev.take(es.len() as int) =~= ev);
    out
}

/// The entries of an index map in index order: the one list with distinct
/// ids, in index order, that holds them (see [`lemma_index_order_unique`]).
pub open spec fn index_order(m: Map<Seq<char>, EntryData>) -> Seq<EntryData> {
    choose|es: Seq<EntryData>| distinct_ids(es) && sorted_entries(es) && entries_map(es) == m
}

/// The rebuilt session index.
pub struct IndexRebuild {
    /// Entries added or advanced.
    pub changed_entries: usize,
    /// All entries, in index order.
    pub entries: Vec<SessionIndexEntry>,
    /// The new text of `session_index.jsonl`.
    pub text: String,
}

/// Rebuilds the session index from the entries read back from the existing
/// file and the entries derived from the history files, in file order.
pub fn rebuild_session_index(existing_lines: &Vec<SessionIndexEntry>, derived: &Vec<Option<SessionIndexEntry>>) -> (r:
    IndexRebuild)
    ensures
        ({
            let (m, c) = merge_entries(existing_map(entry_views(existing_lines@)), opt_entry_views(derived@));
            &&& r.changed_entries == c
            &&& entries_map(entry_views(r.entries@)) == m
        }),
        distinct_ids(entry_views(r.entries@)),
        sorted_entries(entry_views(r.entries@)),
        entry_views(r.entries@) == index_order(
            merge_entries(existing_map(entry_views(existing_lines@)), opt_entry_views(derived@)).0,
        ),
        r.text@ == index_file_text(entry_views(r.entries@)),
{
    let mut es = read_existing_session_index_entries(existing_lines);
    let changed = merge_session_index_entries(&mut es, derived);
    let sorted = sort_entries(&es);
    proof {
        let sv = entry_views(sorted@);
        let m = entries_map(sv);
        assert(distinct_ids(sv) && sorted_entries(sv) && entries_map(sv) == m);
        let o = index_order(m);
        lemma_index_order_unique(o, sv);
    }
    let text = index_text_of(&sorted);
    IndexRebuild { changed_entries: changed, entries: sorted, text }
}

} // verus!
