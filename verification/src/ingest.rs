//! Ingestion of metric batches: which dimension rows a batch still needs,
//! which ids its points carry, and which junction rows tie points to tags.
//!
//! The store keeps one table per dimension (metric names, tag keys, tag
//! values); a table is seen here as the rows `(id, name)` that a lookup
//! returned, followed by the rows that an insert created.

use crate::agent::{samples, Metric, MetricView};
use crate::text::views;
use vstd::prelude::*;

verus! {

/// Mathematical content of dimension rows.
pub open spec fn rows(table: Seq<(i64, String)>) -> Seq<(i64, Seq<char>)> {
    Seq::new(table.len(), |i: int| (table[i].0, table[i].1@))
}

/// Whether `table` holds a row for `name`.
pub open spec fn known(table: Seq<(i64, Seq<char>)>, name: Seq<char>) -> bool {
    exists|i: int| 0 <= i < table.len() && (#[trigger] table[i]).1 == name
}

/// The id of the first row for `name`.
pub open spec fn lookup(table: Seq<(i64, Seq<char>)>, name: Seq<char>) -> Option<i64>
    decreases table.len(),
{
    if table.len() == 0 {
        None
    } else if table[0].1 == name {
        Some(table[0].0)
    } else {
        lookup(table.drop_first(), name)
    }
}

/// No two rows of `table` are for the same name.
pub open spec fn names_unique(table: Seq<(i64, Seq<char>)>) -> bool {
    forall|i: int, j: int|
        0 <= i < j < table.len() ==> (#[trigger] table[i]).1 != (#[trigger] table[j]).1
}

/// The names among `wanted` that `table` has no row for, each once, in the
/// order in which they first occur.
pub open spec fn missing(wanted: Seq<Seq<char>>, table: Seq<(i64, Seq<char>)>) -> Seq<Seq<char>>
    decreases wanted.len(),
{
    if wanted.len() == 0 {
        Seq::empty()
    } else {
        let earlier = missing(wanted.drop_last(), table);
        let name = wanted.last();
        if known(table, name) || earlier.contains(name) {
            earlier
        } else {
            earlier.push(name)
        }
    }
}

/// The distinct members of `names`, in the order in which they first occur.
pub open spec fn distinct(names: Seq<Seq<char>>) -> Seq<Seq<char>> {
    missing(names, Seq::empty())
}

/// The id of each of `names`, in order; `None` when one has no row.
pub open spec fn resolved(names: Seq<Seq<char>>, table: Seq<(i64, Seq<char>)>) -> Option<Seq<i64>>
    decreases names.len(),
{
    if names.len() == 0 {
        Some(Seq::empty())
    } else {
        match (resolved(names.drop_last(), table), lookup(table, names.last())) {
            (Some(ids), Some(id)) => Some(ids.push(id)),
            _ => None,
        }
    }
}

/// The names of `metrics`, in order.
pub open spec fn names_of(metrics: Seq<MetricView>) -> Seq<Seq<char>> {
    Seq::new(metrics.len(), |i: int| metrics[i].name)
}

/// The keys of `tags`, in order.
pub open spec fn keys_of(tags: Seq<(Seq<char>, Seq<char>)>) -> Seq<Seq<char>> {
    Seq::new(tags.len(), |i: int| tags[i].0)
}

/// The values of `tags`, in order.
pub open spec fn values_of(tags: Seq<(Seq<char>, Seq<char>)>) -> Seq<Seq<char>> {
    Seq::new(tags.len(), |i: int| tags[i].1)
}

/// The tags of all of `metrics`, in order.
pub open spec fn all_tags(metrics: Seq<MetricView>) -> Seq<(Seq<char>, Seq<char>)>
    decreases metrics.len(),
{
    if metrics.len() == 0 {
        Seq::empty()
    } else {
        all_tags(metrics.drop_last()) + metrics.last().tags
    }
}

/// The junction rows `(point, tag key id, tag value id)` of one point;
/// `None` when a key or a value has no row.
pub open spec fn tag_rows(
    point: i64,
    tags: Seq<(Seq<char>, Seq<char>)>,
    keys: Seq<(i64, Seq<char>)>,
    values: Seq<(i64, Seq<char>)>,
) -> Option<Seq<(i64, i64, i64)>>
    decreases tags.len(),
{
    if tags.len() == 0 {
        Some(Seq::empty())
    } else {
        match (
            tag_rows(point, tags.drop_last(), keys, values),
            lookup(keys, tags.last().0),
            lookup(values, tags.last().1),
        ) {
            (Some(earlier), Some(key), Some(value)) => Some(earlier.push((point, key, value))),
            _ => None,
        }
    }
}

/// The junction rows of a batch whose points were stored under `points`, in
/// input order: one row per metric and tag. `None` when the points do not
/// match the metrics one for one, or when a key or a value has no row.
pub open spec fn junctions(
    metrics: Seq<MetricView>,
    points: Seq<i64>,
    keys: Seq<(i64, Seq<char>)>,
    values: Seq<(i64, Seq<char>)>,
) -> Option<Seq<(i64, i64, i64)>>
    decreases metrics.len(),
{
    if metrics.len() != points.len() {
        None
    } else if metrics.len() == 0 {
        Some(Seq::empty())
    } else {
        match (
            junctions(metrics.drop_last(), points.drop_last(), keys, values),
            tag_rows(points.last(), metrics.last().tags, keys, values),
        ) {
            (Some(earlier), Some(last)) => Some(earlier + last),
            _ => None,
        }
    }
}

/// A lookup finds an id exactly for the names that have a row.
pub proof fn lemma_lookup_known(table: Seq<(i64, Seq<char>)>, name: Seq<char>)
    ensures
        lookup(table, name) is Some <==> known(table, name),
    decreases table.len(),
{
    if table.len() == 0 {
    } else if table[0].1 == name {
    } else {
        let rest = table.drop_first();
        lemma_lookup_known(rest, name);
        if known(rest, name) {
            let i = choose|i: int| 0 <= i < rest.len() && (#[trigger] rest[i]).1 == name;
            assert(table[i + 1].1 == name);
        }
        if known(table, name) {
            let i = choose|i: int| 0 <= i < table.len() && (#[trigger] table[i]).1 == name;
            assert(rest[i - 1].1 == name);
        }
    }
}

/// The names that a batch still needs are exactly the names it asks for
/// that have no row, and none of them is planned twice.
pub proof fn lemma_missing_members(wanted: Seq<Seq<char>>, table: Seq<(i64, Seq<char>)>)
    ensures
        missing(wanted, table).no_duplicates(),
        forall|x: Seq<char>| #[trigger]
            missing(wanted, table).contains(x) <==> wanted.contains(x) && !known(table, x),
    decreases wanted.len(),
{
    if wanted.len() == 0 {
    } else {
        let earlier_names = wanted.drop_last();
        let name = wanted.last();
        let earlier = missing(earlier_names, table);
        let now = missing(wanted, table);
        lemma_missing_members(earlier_names, table);
        assert forall|x: Seq<char>| #[trigger] now.contains(x) <==> wanted.contains(x) && !known(
            table,
            x,
        ) by {
            if wanted.contains(x) {
                let i = choose|i: int| 0 <= i < wanted.len() && wanted[i] == x;
                if i < wanted.len() - 1 {
                    assert(earlier_names[i] == x);
                    assert(earlier_names.contains(x));
                } else {
                    assert(x == name);
                }
            }
            if earlier_names.contains(x) {
                let i = choose|i: int| 0 <= i < earlier_names.len() && earlier_names[i] == x;
                assert(wanted[i] == x);
            }
            assert(wanted[wanted.len() - 1] == name);
            assert(earlier.contains(x) <==> earlier_names.contains(x) && !known(table, x));
            if known(table, name) || earlier.contains(name) {
                assert(now == earlier);
            } else {
                assert(now == earlier.push(name));
                assert(now[now.len() - 1] == name);
                if now.contains(x) {
                    let i = choose|i: int| 0 <= i < now.len() && now[i] == x;
                    if i < now.len() - 1 {
                        assert(earlier[i] == x);
                    }
                }
                if earlier.contains(x) {
                    let i = choose|i: int| 0 <= i < earlier.len() && earlier[i] == x;
                    assert(now[i] == x);
                }
            }
        }
        if !(known(table, name) || earlier.contains(name)) {
            assert forall|i: int, j: int| 0 <= i < now.len() && 0 <= j < now.len() && i != j implies now[i]
                != now[j] by {
                if i < earlier.len() && j < earlier.len() {
                    assert(earlier[i] != earlier[j]);
                } else if i < earlier.len() {
                    assert(earlier[i] == now[i]);
                    assert(earlier.contains(now[i]));
                } else {
                    assert(earlier[j] == now[j]);
                    assert(earlier.contains(now[j]));
                }
            }
        }
    }
}

/// A batch whose names all have a row needs none.
pub proof fn lemma_nothing_missing(wanted: Seq<Seq<char>>, table: Seq<(i64, Seq<char>)>)
    requires
        forall|i: int| 0 <= i < wanted.len() ==> known(table, #[trigger] wanted[i]),
    ensures
        missing(wanted, table).len() == 0,
    decreases wanted.len(),
{
    if wanted.len() > 0 {
        let earlier_names = wanted.drop_last();
        assert forall|i: int| 0 <= i < earlier_names.len() implies known(
            table,
            #[trigger] earlier_names[i],
        ) by {
            assert(earlier_names[i] == wanted[i]);
        }
        lemma_nothing_missing(earlier_names, table);
        assert(known(table, wanted[wanted.len() - 1]));
    }
}

/// Dimension resolution creates exactly one row per distinct name that was
/// not seen before, and is idempotent. With `created` the rows that the store
/// made for the names that a batch still needed, in any order of ids: no
/// name is planned twice, the names planned are exactly the names of the
/// batch without a row, a table without duplicates stays without
/// duplicates, every name of the batch then has a row, and the same batch
/// ingested again needs no row at all.
pub proof fn lemma_one_row_per_name(
    wanted: Seq<Seq<char>>,
    table: Seq<(i64, Seq<char>)>,
    created: Seq<(i64, Seq<char>)>,
)
    requires
        names_unique(table),
        created.len() == missing(wanted, table).len(),
        forall|i: int| 0 <= i < created.len() ==> (#[trigger] created[i]).1 == missing(wanted, table)[i],
    ensures
        missing(wanted, table).no_duplicates(),
        forall|x: Seq<char>| #[trigger]
            missing(wanted, table).contains(x) <==> wanted.contains(x) && !known(table, x),
        names_unique(table + created),
        forall|i: int| 0 <= i < wanted.len() ==> known(table + created, #[trigger] wanted[i]),
        missing(wanted, table + created).len() == 0,
{
    let plan = missing(wanted, table);
    let after = table + created;
    lemma_missing_members(wanted, table);
    assert forall|i: int, j: int| 0 <= i < j < after.len() implies (#[trigger] after[i]).1 != (
    #[trigger] after[j]).1 by {
        if j < table.len() {
            assert(after[i] == table[i] && after[j] == table[j]);
        } else if i < table.len() {
            let c = j - table.len();
            assert(after[j] == created[c]);
            assert(plan.contains(plan[c]));
            assert(after[i] == table[i]);
            if table[i].1 == plan[c] {
                assert(known(table, plan[c]));
            }
        } else {
            let a = i - table.len();
            let b = j - table.len();
            assert(after[i] == created[a] && after[j] == created[b]);
            assert(plan[a] != plan[b]);
        }
    }
    assert forall|i: int| 0 <= i < wanted.len() implies known(after, #[trigger] wanted[i]) by {
        let x = wanted[i];
        assert(wanted.contains(x));
        if known(table, x) {
            let k = choose|k: int| 0 <= k < table.len() && (#[trigger] table[k]).1 == x;
            assert(after[k].1 == x);
        } else {
            assert(plan.contains(x));
            let c = choose|c: int| 0 <= c < plan.len() && plan[c] == x;
            assert(created[c].1 == x);
            assert(after[table.len() + c].1 == x);
        }
    }
    lemma_nothing_missing(wanted, after);
}

/// A point with `N` tags gets `N` junction rows: the junction rows of a
/// batch are as many as its tags.
pub proof fn lemma_one_junction_per_tag(
    metrics: Seq<MetricView>,
    points: Seq<i64>,
    keys: Seq<(i64, Seq<char>)>,
    values: Seq<(i64, Seq<char>)>,
)
    ensures
        junctions(metrics, points, keys, values) matches Some(r) ==> r.len() == all_tags(
            metrics,
        ).len(),
    decreases metrics.len(),
{
    if metrics.len() == points.len() && metrics.len() > 0 {
        lemma_one_junction_per_tag(metrics.drop_last(), points.drop_last(), keys, values);
        lemma_tag_rows_len(points.last(), metrics.last().tags, keys, values);
    }
}

/// The junction rows of one point are as many as its tags.
pub proof fn lemma_tag_rows_len(
    point: i64,
    tags: Seq<(Seq<char>, Seq<char>)>,
    keys: Seq<(i64, Seq<char>)>,
    values: Seq<(i64, Seq<char>)>,
)
    ensures
        tag_rows(point, tags, keys, values) matches Some(r) ==> r.len() == tags.len(),
    decreases tags.len(),
{
    if tags.len() > 0 {
        lemma_tag_rows_len(point, tags.drop_last(), keys, values);
    }
}

/// The id of the first row of `table` for `name`.
pub fn find_id(table: &Vec<(i64, String)>, name: &String) -> (id: Option<i64>)
    ensures
        id == lookup(rows(table@), name@),
        id is Some <==> known(rows(table@), name@),
{
    let mut i: usize = 0;
    proof {
        assert(rows(table@).skip(0) == rows(table@));
        lemma_lookup_known(rows(table@), name@);
    }
    while i < table.len()
        invariant
            i <= table.len(),
            lookup(rows(table@), name@) == lookup(rows(table@).skip(i as int), name@),
        decreases table.len() - i,
    {
        proof {
            let rest = rows(table@).skip(i as int);
            assert(rest[0] == rows(table@)[i as int]);
            assert(rest.drop_first() == rows(table@).skip(i + 1));
        }
        if table[i].1 == *name {
            return Some(table[i].0);
        }
        i = i + 1;
    }
    None
}

/// Whether `list` holds `name`.
pub fn contains_name(list: &Vec<String>, name: &String) -> (b: bool)
    ensures
        b == views(list@).contains(name@),
{
    let mut i: usize = 0;
    while i < list.len()
        invariant
            i <= list.len(),
            forall|j: int| 0 <= j < i ==> views(list@)[j] != name@,
        decreases list.len() - i,
    {
        if list[i] == *name {
            assert(views(list@)[i as int] == name@);
            return true;
        }
        i = i + 1;
    }
    false
}

/// The names among `wanted` that still need a row: each name without a row
/// in `table` once, in the order in which the names first occur.
pub fn missing_names(wanted: &Vec<String>, table: &Vec<(i64, String)>) -> (out: Vec<String>)
    ensures
        views(out@) == missing(views(wanted@), rows(table@)),
        views(out@).no_duplicates(),
        forall|x: Seq<char>| #[trigger]
            views(out@).contains(x) <==> views(wanted@).contains(x) && !known(rows(table@), x),
{
    let mut out: Vec<String> = Vec::new();
    let mut i: usize = 0;
    assert(views(out@) =~= missing(views(wanted@).take(0), rows(table@)));
    while i < wanted.len()
        invariant
            i <= wanted.len(),
            views(out@) == missing(views(wanted@).take(i as int), rows(table@)),
        decreases wanted.len() - i,
    {
        proof {
            let next = views(wanted@).take(i + 1);
            assert(next.drop_last() == views(wanted@).take(i as int));
            assert(next.last() == wanted@[i as int]@);
        }
        let seen = find_id(table, &wanted[i]).is_some() || contains_name(&out, &wanted[i]);
        if !seen {
            let name = wanted[i].clone();
            assert(views(out@.push(name)) =~= views(out@).push(name@));
            out.push(name);
        }
        i = i + 1;
    }
    assert(views(wanted@).take(wanted.len() as int) == views(wanted@));
    proof {
        lemma_missing_members(views(wanted@), rows(table@));
    }
    out
}

/// The distinct members of `names`, in the order in which they first occur.
pub fn distinct_names(names: &Vec<String>) -> (out: Vec<String>)
    ensures
        views(out@) == distinct(views(names@)),
        views(out@).no_duplicates(),
        forall|x: Seq<char>| #[trigger] views(out@).contains(x) <==> views(names@).contains(x),
{
    let none: Vec<(i64, String)> = Vec::new();
    assert(rows(none@) =~= Seq::<(i64, Seq<char>)>::empty());
    missing_names(names, &none)
}

/// The names of `metrics`, in order.
pub fn metric_names(metrics: &Vec<Metric>) -> (out: Vec<String>)
    ensures
        views(out@) == names_of(samples(metrics@)),
{
    let mut out: Vec<String> = Vec::new();
    let mut i: usize = 0;
    while i < metrics.len()
        invariant
            i <= metrics.len(),
            out.len() == i,
            forall|j: int| 0 <= j < i ==> (#[trigger] out@[j])@ == metrics@[j].name@,
        decreases metrics.len() - i,
    {
        out.push(metrics[i].name.clone());
        i = i + 1;
    }
    assert(views(out@) =~= names_of(samples(metrics@)));
    out
}

/// The id of each of `names`, in order; `None` when one has no row.
pub fn resolve_ids(names: &Vec<String>, table: &Vec<(i64, String)>) -> (out: Option<Vec<i64>>)
    ensures
        match out {
            Some(ids) => Some(ids@),
            None => None,
        } == resolved(views(names@), rows(table@)),
{
    let mut ids: Vec<i64> = Vec::new();
    let mut i: usize = 0;
    assert(views(names@).take(0) =~= Seq::<Seq<char>>::empty());
    while i < names.len()
        invariant
            i <= names.len(),
            resolved(views(names@).take(i as int), rows(table@)) == Some(ids@),
        decreases names.len() - i,
    {
        proof {
            let next = views(names@).take(i + 1);
            assert(next.drop_last() == views(names@).take(i as int));
            assert(next.last() == names@[i as int]@);
            lemma_resolved_prefix(views(names@), rows(table@), i + 1);
        }
        match find_id(table, &names[i]) {
            Some(id) => {
                ids.push(id);
            },
            None => {
                return None;
            },
        }
        i = i + 1;
    }
    assert(views(names@).take(names.len() as int) == views(names@));
    Some(ids)
}

/// If a prefix of `names` cannot be resolved, `names` cannot.
pub proof fn lemma_resolved_prefix(names: Seq<Seq<char>>, table: Seq<(i64, Seq<char>)>, n: int)
    requires
        0 <= n <= names.len(),
    ensures
        resolved(names.take(n), table) is None ==> resolved(names, table) is None,
    decreases names.len() - n,
{
    if n < names.len() {
        assert(names.take(n + 1).drop_last() == names.take(n));
        lemma_resolved_prefix(names, table, n + 1);
    } else {
        assert(names.take(n) == names);
    }
}

/// The tags of all of `metrics`, in order.
pub fn collect_tags(metrics: &Vec<Metric>) -> (out: (Vec<String>, Vec<String>))
    ensures
        views(out.0@) == keys_of(all_tags(samples(metrics@))),
        views(out.1@) == values_of(all_tags(samples(metrics@))),
{
    let mut keys: Vec<String> = Vec::new();
    let mut values: Vec<String> = Vec::new();
    let mut i: usize = 0;
    assert(samples(metrics@).take(0) =~= Seq::<MetricView>::empty());
    assert(views(keys@) =~= keys_of(all_tags(samples(metrics@).take(0))));
    assert(views(values@) =~= values_of(all_tags(samples(metrics@).take(0))));
    while i < metrics.len()
        invariant
            i <= metrics.len(),
            views(keys@) == keys_of(all_tags(samples(metrics@).take(i as int))),
            views(values@) == values_of(all_tags(samples(metrics@).take(i as int))),
        decreases metrics.len() - i,
    {
        let ghost before = all_tags(samples(metrics@).take(i as int));
        let ghost tags = metrics@[i as int]@.tags;
        proof {
            let next = samples(metrics@).take(i + 1);
            assert(next.drop_last() == samples(metrics@).take(i as int));
            assert(next.last() == metrics@[i as int]@);
            assert(all_tags(next) == before + tags);
        }
        let mut j: usize = 0;
        assert(before + tags.take(0) == before);
        while j < metrics[i].tags.len()
            invariant
                i < metrics.len(),
                j <= metrics[i as int].tags.len(),
                tags == metrics@[i as int]@.tags,
                tags.len() == metrics[i as int].tags.len(),
                views(keys@) == keys_of(before + tags.take(j as int)),
                views(values@) == values_of(before + tags.take(j as int)),
            decreases metrics[i as int].tags.len() - j,
        {
            let key = metrics[i].tags[j].0.clone();
            let value = metrics[i].tags[j].1.clone();
            proof {
                assert(tags[j as int] == (key@, value@));
                assert(before + tags.take(j + 1) == (before + tags.take(j as int)).push(
                    tags[j as int],
                ));
                let sofar = before + tags.take(j as int);
                assert(views(keys@.push(key)) =~= views(keys@).push(key@));
                assert(views(values@.push(value)) =~= views(values@).push(value@));
                assert(keys_of(sofar.push(tags[j as int])) =~= keys_of(sofar).push(key@));
                assert(values_of(sofar.push(tags[j as int])) =~= values_of(sofar).push(value@));
            }
            keys.push(key);
            values.push(value);
            j = j + 1;
        }
        assert(tags.take(tags.len() as int) == tags);
        i = i + 1;
    }
    assert(samples(metrics@).take(metrics.len() as int) == samples(metrics@));
    (keys, values)
}

/// The junction rows of a batch: for every metric, in input order, and every
/// tag of it, the id of the stored point with the ids of the tag's key and
/// value. `None` when `points` does not match `metrics` one for one, or when
/// a key or a value has no row.
pub fn junction_rows(
    metrics: &Vec<Metric>,
    points: &Vec<i64>,
    keys: &Vec<(i64, String)>,
    values: &Vec<(i64, String)>,
) -> (out: Option<Vec<(i64, i64, i64)>>)
    ensures
        match out {
            Some(r) => Some(r@),
            None => None,
        } == junctions(samples(metrics@), points@, rows(keys@), rows(values@)),
{
    if metrics.len() != points.len() {
        return None;
    }
    let ghost ms = samples(metrics@);
    let ghost ks = rows(keys@);
    let ghost vs = rows(values@);
    let mut out: Vec<(i64, i64, i64)> = Vec::new();
    let mut i: usize = 0;
    assert(ms.take(0) =~= Seq::<MetricView>::empty());
    assert(points@.take(0) =~= Seq::<i64>::empty());
    while i < metrics.len()
        invariant
            i <= metrics.len(),
            metrics.len() == points.len(),
            ms == samples(metrics@),
            ks == rows(keys@),
            vs == rows(values@),
            junctions(ms.take(i as int), points@.take(i as int), ks, vs) == Some(out@),
        decreases metrics.len() - i,
    {
        let ghost before = out@;
        let ghost tags = metrics@[i as int]@.tags;
        let point = points[i];
        proof {
            assert(ms.take(i + 1).drop_last() == ms.take(i as int));
            assert(points@.take(i + 1).drop_last() == points@.take(i as int));
            assert(ms.take(i + 1).last() == metrics@[i as int]@);
            lemma_junctions_prefix(ms, points@, ks, vs, i + 1);
        }
        let mut j: usize = 0;
        assert(tags.take(0) =~= Seq::<(Seq<char>, Seq<char>)>::empty());
        assert(before + Seq::<(i64, i64, i64)>::empty() == before);
        while j < metrics[i].tags.len()
            invariant
                i < metrics.len(),
                j <= metrics[i as int].tags.len(),
                tags == metrics@[i as int]@.tags,
                tags.len() == metrics[i as int].tags.len(),
                ks == rows(keys@),
                vs == rows(values@),
                tag_rows(point, tags.take(j as int), ks, vs) is Some,
                out@ == before + tag_rows(point, tags.take(j as int), ks, vs).unwrap(),
                tag_rows(point, tags, ks, vs) is None ==> junctions(
                    samples(metrics@),
                    points@,
                    ks,
                    vs,
                ) is None,
            decreases metrics[i as int].tags.len() - j,
        {
            proof {
                assert(tags.take(j + 1).drop_last() == tags.take(j as int));
                assert(tags.take(j + 1).last() == tags[j as int]);
                assert(tags[j as int] == (metrics[i as int].tags[j as int].0@, metrics[i as int].tags[j as int].1@));
                lemma_tag_rows_prefix(point, tags, ks, vs, j + 1);
            }
            let key = find_id(keys, &metrics[i].tags[j].0);
            let value = find_id(values, &metrics[i].tags[j].1);
            match (key, value) {
                (Some(k), Some(v)) => {
                    out.push((point, k, v));
                },
                _ => {
                    return None;
                },
            }
            j = j + 1;
        }
        assert(tags.take(tags.len() as int) == tags);
        i = i + 1;
    }
    assert(ms.take(metrics.len() as int) == ms);
    assert(points@.take(points.len() as int) == points@);
    Some(out)
}

/// If a prefix of the tags of a point cannot be resolved, the tags cannot.
pub proof fn lemma_tag_rows_prefix(
    point: i64,
    tags: Seq<(Seq<char>, Seq<char>)>,
    keys: Seq<(i64, Seq<char>)>,
    values: Seq<(i64, Seq<char>)>,
    n: int,
)
    requires
        0 <= n <= tags.len(),
    ensures
        tag_rows(point, tags.take(n), keys, values) is None ==> tag_rows(point, tags, keys, values)
            is None,
    decreases tags.len() - n,
{
    if n < tags.len() {
        assert(tags.take(n + 1).drop_last() == tags.take(n));
        lemma_tag_rows_prefix(point, tags, keys, values, n + 1);
    } else {
        assert(tags.take(n) == tags);
    }
}

/// If the junction rows of the first `n` metrics cannot be made, those of
/// the batch cannot.
pub proof fn lemma_junctions_prefix(
    metrics: Seq<MetricView>,
    points: Seq<i64>,
    keys: Seq<(i64, Seq<char>)>,
    values: Seq<(i64, Seq<char>)>,
    n: int,
)
    requires
        metrics.len() == points.len(),
        0 <= n <= metrics.len(),
    ensures
        junctions(metrics.take(n), points.take(n), keys, values) is None ==> junctions(
            metrics,
            points,
            keys,
            values,
        ) is None,
    decreases metrics.len() - n,
{
    if n < metrics.len() {
        assert(metrics.take(n + 1).drop_last() == metrics.take(n));
        assert(points.take(n + 1).drop_last() == points.take(n));
        lemma_junctions_prefix(metrics, points, keys, values, n + 1);
    } else {
        assert(metrics.take(n) == metrics);
        assert(points.take(n) == points);
    }
}

} // verus!
