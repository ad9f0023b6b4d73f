//! Finding a string anywhere in a JSON document by a list of key paths.

use vstd::prelude::*;
use crate::json::{
    as_str, get, items_data, lemma_items_data, lemma_members_data, lemma_same_get, members_data,
    same_but_numbers, JsonData, JsonValue,
};
use crate::text::{normalize, normalize_non_empty, views};
use vstd::string::StringExecFns;

verus! {

/// The value at the end of a key path.
pub open spec fn follow(v: JsonData, path: Seq<Seq<char>>) -> Option<JsonData>
    decreases path.len(),
{
    if path.len() == 0 {
        Some(v)
    } else {
        match get(v, path[0]) {
            Some(x) => follow(x, path.drop_first()),
            None => None,
        }
    }
}

/// The first path, in order, that leads from `v` to a non-blank string;
/// that string, trimmed.
pub open spec fn direct_pick(v: JsonData, paths: Seq<Seq<Seq<char>>>) -> Option<Seq<char>>
    decreases paths.len(),
{
    if paths.len() == 0 {
        None
    } else {
        let here = match follow(v, paths[0]) {
            Some(x) => match as_str(x) {
                Some(s) => normalize(s),
                None => None,
            },
            None => None,
        };
        match here {
            Some(t) => Some(t),
            None => direct_pick(v, paths.drop_first()),
        }
    }
}

/// Depth-first search for a string: the paths from `v` itself first, then
/// each member value or element in order.
pub open spec fn pick_string(v: JsonData, paths: Seq<Seq<Seq<char>>>) -> Option<Seq<char>>
    decreases v,
{
    match direct_pick(v, paths) {
        Some(t) => Some(t),
        None => match v {
            JsonData::Object(ms) => pick_in_members(ms, paths),
            JsonData::Array(items) => pick_in_items(items, paths),
            _ => None,
        },
    }
}

pub open spec fn pick_in_members(ms: Seq<(Seq<char>, JsonData)>, paths: Seq<Seq<Seq<char>>>) -> Option<
    Seq<char>,
>
    decreases ms,
{
    if ms.len() == 0 {
        None
    } else {
        match pick_string(ms[0].1, paths) {
            Some(t) => Some(t),
            None => pick_in_members(ms.subrange(1, ms.len() as int), paths),
        }
    }
}

pub open spec fn pick_in_items(items: Seq<JsonData>, paths: Seq<Seq<Seq<char>>>) -> Option<Seq<char>>
    decreases items,
{
    if items.len() == 0 {
        None
    } else {
        match pick_string(items[0], paths) {
            Some(t) => Some(t),
            None => pick_in_items(items.subrange(1, items.len() as int), paths),
        }
    }
}

/// The first of `values` in which [`pick_string`] finds something.
pub open spec fn pick_first(values: Seq<JsonData>, paths: Seq<Seq<Seq<char>>>) -> Option<Seq<char>>
    decreases values.len(),
{
    if values.len() == 0 {
        None
    } else {
        match pick_string(values[0], paths) {
            Some(t) => Some(t),
            None => pick_first(values.drop_first(), paths),
        }
    }
}

proof fn lemma_same_follow(a: JsonData, b: JsonData, path: Seq<Seq<char>>)
    requires
        same_but_numbers(a, b),
    ensures
        follow(a, path) is None <==> follow(b, path) is None,
        follow(a, path) matches Some(x) ==> follow(b, path) matches Some(y) && same_but_numbers(x, y),
    decreases path.len(),
{
    if path.len() > 0 {
        lemma_same_get(a, b, path[0]);
        if let Some(x) = get(a, path[0]) {
            lemma_same_follow(x, get(b, path[0])->0, path.drop_first());
        }
    }
}

proof fn lemma_same_as_str(a: JsonData, b: JsonData)
    requires
        same_but_numbers(a, b),
    ensures
        as_str(a) == as_str(b),
{
}

proof fn lemma_same_direct(a: JsonData, b: JsonData, paths: Seq<Seq<Seq<char>>>)
    requires
        same_but_numbers(a, b),
    ensures
        direct_pick(a, paths) == direct_pick(b, paths),
    decreases paths.len(),
{
    if paths.len() > 0 {
        lemma_same_follow(a, b, paths[0]);
        if let Some(x) = follow(a, paths[0]) {
            lemma_same_as_str(x, follow(b, paths[0])->0);
        }
        lemma_same_direct(a, b, paths.drop_first());
    }
}

/// A document read back gives the same strings by key paths.
pub proof fn lemma_same_pick(a: JsonData, b: JsonData, paths: Seq<Seq<Seq<char>>>)
    requires
        same_but_numbers(a, b),
    ensures
        pick_string(a, paths) == pick_string(b, paths),
    decreases a, 1nat,
{
    lemma_same_direct(a, b, paths);
    match a {
        JsonData::Object(ms) => {
            lemma_same_members(ms, b->Object_0, paths);
        },
        JsonData::Array(xs) => {
            lemma_same_items(xs, b->Array_0, paths);
        },
        _ => {},
    }
}

proof fn lemma_same_members(ms: Seq<(Seq<char>, JsonData)>, ns: Seq<(Seq<char>, JsonData)>, paths: Seq<Seq<Seq<char>>>)
    requires
        ns.len() == ms.len(),
        forall|i: int| #![trigger ms[i]] 0 <= i < ms.len() ==> ns[i].0 == ms[i].0 && same_but_numbers(ms[i].1, ns[i].1),
    ensures
        pick_in_members(ms, paths) == pick_in_members(ns, paths),
    decreases ms, 0nat,
{
    if ms.len() > 0 {
        assert(same_but_numbers(ms[0].1, ns[0].1));
        lemma_same_pick(ms[0].1, ns[0].1, paths);
        let ms1 = ms.subrange(1, ms.len() as int);
        let ns1 = ns.subrange(1, ns.len() as int);
        assert forall|i: int| #![trigger ms1[i]] 0 <= i < ms1.len() implies ns1[i].0 == ms1[i].0 && same_but_numbers(ms1[i].1, ns1[i].1) by {
            assert(ms1[i] == ms[i + 1]);
            assert(ns1[i] == ns[i + 1]);
        }
        lemma_same_members(ms1, ns1, paths);
    }
}

proof fn lemma_same_items(xs: Seq<JsonData>, ys: Seq<JsonData>, paths: Seq<Seq<Seq<char>>>)
    requires
        ys.len() == xs.len(),
        forall|i: int| #![trigger xs[i]] 0 <= i < xs.len() ==> same_but_numbers(xs[i], ys[i]),
    ensures
        pick_in_items(xs, paths) == pick_in_items(ys, paths),
    decreases xs, 0nat,
{
    if xs.len() > 0 {
        assert(same_but_numbers(xs[0], ys[0]));
        lemma_same_pick(xs[0], ys[0], paths);
        let xs1 = xs.subrange(1, xs.len() as int);
        let ys1 = ys.subrange(1, ys.len() as int);
        assert forall|i: int| #![trigger xs1[i]] 0 <= i < xs1.len() implies same_but_numbers(xs1[i], ys1[i]) by {
            assert(xs1[i] == xs[i + 1]);
            assert(ys1[i] == ys[i + 1]);
        }
        lemma_same_items(xs1, ys1, paths);
    }
}

/// Documents read back, one for one, give the same first string.
pub proof fn lemma_same_pick_first(xs: Seq<JsonData>, ys: Seq<JsonData>, paths: Seq<Seq<Seq<char>>>)
    requires
        ys.len() == xs.len(),
        forall|i: int| #![trigger xs[i]] 0 <= i < xs.len() ==> same_but_numbers(xs[i], ys[i]),
    ensures
        pick_first(xs, paths) == pick_first(ys, paths),
    decreases xs.len(),
{
    if xs.len() > 0 {
        assert(same_but_numbers(xs[0], ys[0]));
        lemma_same_pick(xs[0], ys[0], paths);
        assert forall|i: int| #![trigger xs.drop_first()[i]] 0 <= i < xs.drop_first().len() implies same_but_numbers(
            xs.drop_first()[i],
            ys.drop_first()[i],
        ) by {
            assert(xs.drop_first()[i] == xs[i + 1]);
        }
        lemma_same_pick_first(xs.drop_first(), ys.drop_first(), paths);
    }
}

/// The key paths, as texts.
pub open spec fn paths_view(paths: Seq<Vec<String>>) -> Seq<Seq<Seq<char>>> {
    paths.map_values(|p: Vec<String>| views(p@))
}

fn follow_exec<'a>(v: &'a JsonValue, path: &Vec<String>) -> (r: Option<&'a JsonValue>)
    ensures
        r matches Some(x) ==> follow(v@, views(path@)) == Some(x@),
        r is None <==> follow(v@, views(path@)) is None,
{
    let ghost p = views(path@);
    let mut cur: &JsonValue = v;
    let mut k: usize = 0;
    assert(p.skip(0) =~= p);
    while k < path.len()
        invariant
            k <= path.len(),
            p == views(path@),
            p.len() == path.len(),
            follow(v@, p) == follow(cur@, p.skip(k as int)),
        decreases path.len() - k,
    {
        assert(p.skip(k as int)[0] == path@[k as int]@);
        assert(p.skip(k as int).drop_first() =~= p.skip(k + 1));
        match cur.get(path[k].as_str()) {
            Some(x) => {
                cur = x;
            },
            None => {
                return None;
            },
        }
        k = k + 1;
    }
    assert(p.skip(path.len() as int) =~= Seq::<Seq<char>>::empty());
    Some(cur)
}

fn direct_pick_exec(v: &JsonValue, paths: &Vec<Vec<String>>) -> (r: Option<String>)
    ensures
        r matches Some(t) ==> direct_pick(v@, paths_view(paths@)) == Some(t@),
        r is None <==> direct_pick(v@, paths_view(paths@)) is None,
{
    let ghost ps = paths_view(paths@);
    let mut i: usize = 0;
    assert(ps.skip(0) =~= ps);
    while i < paths.len()
        invariant
            i <= paths.len(),
            ps == paths_view(paths@),
            ps.len() == paths.len(),
            direct_pick(v@, ps) == direct_pick(v@, ps.skip(i as int)),
        decreases paths.len() - i,
    {
        assert(ps.skip(i as int)[0] == views(paths@[i as int]@));
        assert(ps.skip(i as int).drop_first() =~= ps.skip(i + 1));
        match follow_exec(v, &paths[i]) {
            Some(x) => match x.as_str() {
                Some(s) => match normalize_non_empty(s.as_str()) {
                    Some(t) => {
                        return Some(t);
                    },
                    None => {},
                },
                None => {},
            },
            None => {},
        }
        i = i + 1;
    }
    assert(ps.skip(paths.len() as int) =~= Seq::<Seq<Seq<char>>>::empty());
    None
}

/// Searches `value` for a string (see [`pick_string`]).
pub fn pick_string_exec(value: &JsonValue, paths: &Vec<Vec<String>>) -> (r: Option<String>)
    ensures
        r matches Some(t) ==> pick_string(value@, paths_view(paths@)) == Some(t@),
        r is None <==> pick_string(value@, paths_view(paths@)) is None,
    decreases value,
{
    let ghost ps = paths_view(paths@);
    match direct_pick_exec(value, paths) {
        Some(t) => {
            return Some(t);
        },
        None => {},
    }
    match value {
        JsonValue::Object(ms) => {
            let ghost d = members_data(ms@);
            proof {
                lemma_members_data(ms@);
                assert(d.skip(0) =~= d);
            }
            let mut i: usize = 0;
            while i < ms.len()
                invariant
                    i <= ms.len(),
                    d == members_data(ms@),
                    d.len() == ms.len(),
                    forall|j: int| 0 <= j < ms.len() ==> #[trigger] d[j] == (ms@[j].0@, ms@[j].1@),
                    ps == paths_view(paths@),
                    pick_in_members(d, ps) == pick_in_members(d.skip(i as int), ps),
                    pick_string(value@, ps) == pick_in_members(d, ps),
                    decreases_to!(*value => *ms),
                decreases ms.len() - i,
            {
                assert(d.skip(i as int)[0] == d[i as int]);
                assert(d.skip(i as int).subrange(1, d.skip(i as int).len() as int) =~= d.skip(i + 1));
                assert(decreases_to!(*value => ms@[i as int].1));
                match pick_string_exec(&ms[i].1, paths) {
                    Some(t) => {
                        return Some(t);
                    },
                    None => {},
                }
                i = i + 1;
            }
            assert(d.skip(ms.len() as int) =~= Seq::<(Seq<char>, JsonData)>::empty());
            None
        },
        JsonValue::Array(items) => {
            let ghost d = items_data(items@);
            proof {
                lemma_items_data(items@);
                assert(d.skip(0) =~= d);
            }
            let mut i: usize = 0;
            while i < items.len()
                invariant
                    i <= items.len(),
                    d == items_data(items@),
                    d.len() == items.len(),
                    forall|j: int| 0 <= j < items.len() ==> #[trigger] d[j] == items@[j]@,
                    ps == paths_view(paths@),
                    pick_in_items(d, ps) == pick_in_items(d.skip(i as int), ps),
                    pick_string(value@, ps) == pick_in_items(d, ps),
                    decreases_to!(*value => *items),
                decreases items.len() - i,
            {
                assert(d.skip(i as int)[0] == d[i as int]);
                assert(d.skip(i as int).subrange(1, d.skip(i as int).len() as int) =~= d.skip(i + 1));
                assert(decreases_to!(*value => items@[i as int]));
                match pick_string_exec(&items[i], paths) {
                    Some(t) => {
                        return Some(t);
                    },
                    None => {},
                }
                i = i + 1;
            }
            assert(d.skip(items.len() as int) =~= Seq::<JsonData>::empty());
            None
        },
        _ => None,
    }
}

/// The first of `values` in which something is found (see [`pick_first`]).
pub fn pick_first_string(values: &Vec<&JsonValue>, paths: &Vec<Vec<String>>) -> (r: Option<String>)
    ensures
        r matches Some(t) ==> pick_first(values@.map_values(|v: &JsonValue| v@), paths_view(paths@))
            == Some(t@),
        r is None <==> pick_first(values@.map_values(|v: &JsonValue| v@), paths_view(paths@)) is None,
{
    let ghost vs = values@.map_values(|v: &JsonValue| v@);
    let ghost ps = paths_view(paths@);
    let mut i: usize = 0;
    assert(vs.skip(0) =~= vs);
    while i < values.len()
        invariant
            i <= values.len(),
            vs == values@.map_values(|v: &JsonValue| v@),
            vs.len() == values.len(),
            ps == paths_view(paths@),
            pick_first(vs, ps) == pick_first(vs.skip(i as int), ps),
        decreases values.len() - i,
    {
        assert(vs.skip(i as int)[0] == values@[i as int]@);
        assert(vs.skip(i as int).drop_first() =~= vs.skip(i + 1));
        match pick_string_exec(values[i], paths) {
            Some(t) => {
                return Some(t);
            },
            None => {},
        }
        i = i + 1;
    }
    assert(vs.skip(values.len() as int) =~= Seq::<JsonData>::empty());
    None
}

/// A key path of one key.
pub fn key_path(a: &str) -> (r: Vec<String>)
    ensures
        views(r@) == seq![a@],
{
    let mut r: Vec<String> = Vec::new();
    r.push(String::from_str(a));
    assert(views(r@) =~= seq![a@]);
    r
}

/// A key path of two keys.
pub fn key_path2(a: &str, b: &str) -> (r: Vec<String>)
    ensures
        views(r@) == seq![a@, b@],
{
    let mut r: Vec<String> = Vec::new();
    r.push(String::from_str(a));
    r.push(String::from_str(b));
    assert(views(r@) =~= seq![a@, b@]);
    r
}

} // verus!
