//! The computations around the database: which tag rows a work stores, how
//! upload-queue entries are kinded, and sorting queued entries back out.

use vstd::prelude::*;

use crate::domain::tag::{TagType, tag_type_name};
use crate::domain::work::{LinkView, SeriesLink, Work, link_view, links_view};
use std::collections::HashMap;
use crate::strset::views;
use crate::text;
use vstd::std_specs::iter::IteratorSpec;

verus! {

/// `(kind, tag)` rows for `tags` of kind `t`.
pub open spec fn kinded(t: TagType, tags: Seq<Seq<char>>) -> Seq<(Seq<char>, Seq<char>)> {
    tags.map_values(|g: Seq<char>| (tag_type_name(t), g))
}

pub open spec fn rows_view(rows: Seq<(String, String)>) -> Seq<(Seq<char>, Seq<char>)> {
    rows.map_values(|r: (String, String)| (r.0@, r.1@))
}

fn push_kinded(rows: &mut Vec<(String, String)>, t: TagType, tags: &Vec<String>)
    ensures
        rows_view(final(rows)@) == rows_view(old(rows)@) + kinded(t, views(tags@)),
{
    let mut i: usize = 0;
    assert(kinded(t, views(tags@)).take(0) =~= Seq::<(Seq<char>, Seq<char>)>::empty());
    assert(rows_view(rows@) =~= rows_view(old(rows)@) + kinded(t, views(tags@)).take(0));
    while i < tags.len()
        invariant
            0 <= i <= tags.len(),
            rows_view(rows@) == rows_view(old(rows)@) + kinded(t, views(tags@)).take(i as int),
        decreases tags.len() - i,
    {
        let ghost before = rows_view(rows@);
        let row = (t.name(), tags[i].clone());
        rows.push(row);
        assert(rows_view(rows@) =~= before.push((row.0@, row.1@)));
        assert(kinded(t, views(tags@))[i as int] == (tag_type_name(t), tags@[i as int]@));
        assert(kinded(t, views(tags@)).take(i + 1) =~= kinded(t, views(tags@)).take(i as int).push((tag_type_name(t), tags@[i as int]@)));
        assert(rows_view(rows@) =~= rows_view(old(rows)@) + kinded(t, views(tags@)).take(i + 1));
        i = i + 1;
    }
    assert(kinded(t, views(tags@)).take(i as int) =~= kinded(t, views(tags@)));
}

/// The `(kind, name)` rows stored for a work's tags: its fandoms, then its
/// characters, relationships and additional tags, each in order.
pub fn tag_rows(
    fandoms: &Vec<String>,
    characters: &Vec<String>,
    relationships: &Vec<String>,
    additional: &Vec<String>,
) -> (rows: Vec<(String, String)>)
    ensures
        rows_view(rows@) == kinded(TagType::Fandom, views(fandoms@)) + kinded(TagType::Characters, views(characters@))
            + kinded(TagType::Relationships, views(relationships@)) + kinded(TagType::Additional, views(additional@)),
{
    let mut rows: Vec<(String, String)> = Vec::new();
    assert(rows_view(rows@) =~= Seq::<(Seq<char>, Seq<char>)>::empty());
    push_kinded(&mut rows, TagType::Fandom, fandoms);
    push_kinded(&mut rows, TagType::Characters, characters);
    push_kinded(&mut rows, TagType::Relationships, relationships);
    push_kinded(&mut rows, TagType::Additional, additional);
    assert(rows_view(rows@) =~= kinded(TagType::Fandom, views(fandoms@)) + kinded(TagType::Characters, views(characters@))
            + kinded(TagType::Relationships, views(relationships@)) + kinded(TagType::Additional, views(additional@)));
    rows
}

/// How the upload queue writes the kind of an entry.
pub open spec fn queue_kind_text(is_work: bool) -> Seq<char> {
    if is_work {
        "work"@
    } else {
        "series"@
    }
}

pub fn queue_kind(is_work: bool) -> (s: String)
    ensures
        s@ == queue_kind_text(is_work),
{
    if is_work {
        text::owned("work")
    } else {
        text::owned("series")
    }
}

/// The ids of the queued entries whose kind `is_work` says: `"work"` rows
/// for works, all others for series.
pub open spec fn queued_ids(rows: Seq<(String, i64)>, works: bool) -> Seq<i64>
    decreases rows.len(),
{
    if rows.len() == 0 {
        Seq::empty()
    } else if (rows.last().0@ == "work"@) == works {
        queued_ids(rows.drop_last(), works).push(rows.last().1)
    } else {
        queued_ids(rows.drop_last(), works)
    }
}

/// Sorts the queued `(kind, id)` rows of a device into work ids and series ids.
pub fn split_queue(rows: &Vec<(String, i64)>) -> (r: (Vec<i64>, Vec<i64>))
    ensures
        r.0@ == queued_ids(rows@, true),
        r.1@ == queued_ids(rows@, false),
{
    let mut works: Vec<i64> = Vec::new();
    let mut series: Vec<i64> = Vec::new();
    let mut i: usize = 0;
    assert(rows@.take(0) =~= Seq::<(String, i64)>::empty());
    while i < rows.len()
        invariant
            0 <= i <= rows.len(),
            works@ == queued_ids(rows@.take(i as int), true),
            series@ == queued_ids(rows@.take(i as int), false),
        decreases rows.len() - i,
    {
        assert(rows@.take(i + 1).drop_last() =~= rows@.take(i as int));
        assert(rows@.take(i + 1).last() == rows@[i as int]);
        if crate::strset::str_is(rows[i].0.as_str(), "work") {
            works.push(rows[i].1);
        } else {
            series.push(rows[i].1);
        }
        i = i + 1;
    }
    assert(rows@.take(i as int) =~= rows@);
    (works, series)
}

/// `r` is a `(work, series, part)` row for one of the series links of one of `works`.
pub open spec fn is_link_row(works: Seq<Work>, r: (i64, i64, u8)) -> bool {
    exists|k: int, l: SeriesLink|
        0 <= k < works.len() && #[trigger] works[k].series@.values().contains(l) && r == (
            works[k].id,
            l.series_id,
            l.part_in_series,
        )
}

/// How many series links `works` hold in all.
pub open spec fn link_count(works: Seq<Work>) -> int
    decreases works.len(),
{
    if works.len() == 0 {
        0
    } else {
        link_count(works.drop_last()) + works.last().series@.len()
    }
}

/// The `(work, series, part)` rows that link `works` to their series: one
/// row for each link of each work.
pub fn series_link_rows(works: &Vec<Work>) -> (rows: Vec<(i64, i64, u8)>)
    ensures
        forall|r: (i64, i64, u8)| rows@.contains(r) <==> is_link_row(works@, r),
        rows.len() == link_count(works@),
{
    broadcast use vstd::std_specs::hash::group_hash_axioms;
    let mut rows: Vec<(i64, i64, u8)> = Vec::new();
    let mut k: usize = 0;
    while k < works.len()
        invariant
            0 <= k <= works.len(),
            forall|r: (i64, i64, u8)| rows@.contains(r) <==> is_link_row(works@.take(k as int), r),
            rows.len() == link_count(works@.take(k as int)),
        decreases works.len() - k,
    {
        let w = &works[k];
        let ghost before = rows@;
        let ghost vals: Seq<SeriesLink> = vstd::std_specs::hash::spec_values_iter(&w.series).remaining().unref();
        let ghost mut count: int = 0;
        for l in it: w.series.values()
            invariant
                count == it.index(),
                rows.len() == before.len() + count,
                vals == vstd::std_specs::hash::spec_values_iter(&w.series).remaining().unref(),
                it.seq().unref() == vals,
                forall|r: (i64, i64, u8)| rows@.contains(r) <==> (before.contains(r) || exists|i: int|
                    0 <= i < count && r == (w.id, vals[i].series_id, vals[i].part_in_series)),
        {
            let ghost prev = rows@;
            assert(*l == vals[it.index()]);

            rows.push((w.id, l.series_id, l.part_in_series));
            proof {
                assert forall|r: (i64, i64, u8)| rows@.contains(r) <==> (before.contains(r) || exists|i: int|
                    0 <= i < count + 1 && r == (w.id, vals[i].series_id, vals[i].part_in_series)) by {
                    if rows@.contains(r) {
                        let j = choose|j: int| 0 <= j < rows@.len() && rows@[j] == r;
                        if j < prev.len() {
                            assert(prev[j] == r);
                        }
                    }
                    if prev.contains(r) {
                        let j = choose|j: int| 0 <= j < prev.len() && prev[j] == r;
                        assert(rows@[j] == r);
                    }
                    if r == (w.id, l.series_id, l.part_in_series) {
                        assert(rows@[prev.len() as int] == r);
                    }
                }
                count = count + 1;
            }
        }
        proof {
            assert(count == vals.len());
            assert(vals.len() == w.series@.dom().len());
            assert(works@.take(k + 1).drop_last() =~= works@.take(k as int));
            assert(works@.take(k + 1).last() == *w);
            assert(vals.to_set() == w.series@.values());
            assert forall|r: (i64, i64, u8)| rows@.contains(r) <==> is_link_row(works@.take(k + 1), r) by {
                let ws = works@.take(k + 1);
                if is_link_row(ws, r) {
                    let (j, l) = choose|j: int, l: SeriesLink|
                        0 <= j < ws.len() && #[trigger] ws[j].series@.values().contains(l) && r == (ws[j].id, l.series_id, l.part_in_series);
                    if j < k {
                        assert(works@.take(k as int)[j] == ws[j]);
                        assert(is_link_row(works@.take(k as int), r));
                    } else {
                        assert(ws[j] == *w);
                        assert(vals.to_set().contains(l));
                        let i = choose|i: int| 0 <= i < vals.len() && vals[i] == l;
                    }
                }
                if before.contains(r) {
                    let (j, l) = choose|j: int, l: SeriesLink|
                        0 <= j < k && #[trigger] works@.take(k as int)[j].series@.values().contains(l) && r == (works@.take(k as int)[j].id, l.series_id, l.part_in_series);
                    assert(ws[j] == works@.take(k as int)[j]);
                }
                if exists|i: int| 0 <= i < vals.len() && r == (w.id, vals[i].series_id, vals[i].part_in_series) {
                    let i = choose|i: int| 0 <= i < vals.len() && r == (w.id, vals[i].series_id, vals[i].part_in_series);
                    assert(vals.to_set().contains(vals[i]));
                    assert(ws[k as int] == *w);
                    assert(ws[k as int].series@.values().contains(vals[i]));
                }
            }
        }
        k = k + 1;
    }
    assert(works@.take(k as int) =~= works@);
    rows
}

/// Stored series links keyed by their series, a later link for a series
/// replacing an earlier one.
pub open spec fn links_by_series_view(links: Seq<SeriesLink>) -> Map<i64, LinkView>
    decreases links.len(),
{
    if links.len() == 0 {
        Map::empty()
    } else {
        links_by_series_view(links.drop_last()).insert(links.last().series_id, link_view(links.last()))
    }
}

/// A work's stored series links, keyed by series.
pub fn links_by_series(links: Vec<SeriesLink>) -> (m: HashMap<i64, SeriesLink>)
    ensures
        links_view(m@) == links_by_series_view(links@),
{
    broadcast use vstd::std_specs::hash::group_hash_axioms;
    let mut m: HashMap<i64, SeriesLink> = HashMap::new();
    let mut i: usize = 0;
    assert(links_view(m@) =~= Map::<i64, LinkView>::empty());
    assert(links@.take(0) =~= Seq::<SeriesLink>::empty());
    while i < links.len()
        invariant
            0 <= i <= links.len(),
            links_view(m@) == links_by_series_view(links@.take(i as int)),
        decreases links.len() - i,
    {
        let l = &links[i];
        let ghost before = m@;
        let copy = SeriesLink { series_id: l.series_id, series_title: l.series_title.clone(), part_in_series: l.part_in_series };
        m.insert(l.series_id, copy);
        assert(links@.take(i + 1).drop_last() =~= links@.take(i as int));
        assert(links@.take(i + 1).last() == links@[i as int]);
        assert(links_view(m@) =~= links_view(before).insert(l.series_id, link_view(links@[i as int])));
        i = i + 1;
    }
    assert(links@.take(i as int) =~= links@);
    m
}

} // verus!
