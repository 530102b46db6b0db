//! Properties of the library as a whole: facts that relate several of its
//! functions, or that hold of every input.

use vstd::prelude::*;

use crate::common::{
    PageType, UrlInfo, apply_filters, apply_removals, fandom_label, filtered_fandoms, info_from_groups, map_fandoms,
    mapped_fandoms,
};
use crate::common::{DownloadFormat, is_unsafe_char, sanitised};
use crate::config::FandomMap;
use crate::db::{kinded, queue_kind_text, queued_ids};
use crate::domain::series::{add_unseen, blurb_counts, blurb_places, gathered_fandoms, total_blurbs};
use crate::routes::download::{DownloadStep, step_after};
use crate::clients::client::remote_parts;
use crate::domain::series::Series;
use crate::domain::work::{Work, WorkPage, DownloadLinks, LinkView, download_outcome, work_filename, work_from_page, work_page_selected};
use crate::routes::metadata::{EpubPages, last_tags, row_count, tag_label, work_from_epub};
use crate::clients::client::{path_push, push_all};
use crate::domain::tag::{TagType, tag_type_name, tag_type_named, tags_of_type};
use crate::text::{decimal, digit_char, digit_value, parse_int, scan_digits, signed_decimal};

verus! {

// ---------------------------------------------------------------------------
// Numbers written and read back
proof fn lemma_digit_reads_back(d: nat)
    requires
        d < 10,
    ensures
        digit_value(digit_char(d)) == Some(d),
{
}

proof fn lemma_scan_push(s: Seq<char>, c: char, acc: int, negative: bool, lo: int, hi: int)
    ensures
        scan_digits(s.push(c), acc, negative, lo, hi) == match scan_digits(s, acc, negative, lo, hi) {
            Ok(v) => scan_digits(seq![c], v, negative, lo, hi),
            Err(e) => Err(e),
        },
    decreases s.len(),
{
    if s.len() == 0 {
        assert(s.push(c) =~= seq![c]);
    } else {
        assert(s.push(c)[0] == s[0]);
        assert(s.push(c).drop_first() =~= s.drop_first().push(c));
        if let Some(d) = digit_value(s[0]) {
            let next = if negative {
                acc * 10 - d
            } else {
                acc * 10 + d
            };
            lemma_scan_push(s.drop_first(), c, next, negative, lo, hi);
        }
    }
}

proof fn lemma_decimal_starts_with_digit(n: nat)
    ensures
        decimal(n).len() > 0,
        digit_value(decimal(n)[0]) is Some,
    decreases n,
{
    if n < 10 {
        lemma_digit_reads_back(n);
    } else {
        lemma_decimal_starts_with_digit(n / 10);
    }
}

proof fn lemma_scan_decimal(n: nat, negative: bool, lo: int, hi: int)
    requires
        lo <= 0 <= hi,
        negative ==> lo <= -n,
        !negative ==> n <= hi,
    ensures
        scan_digits(decimal(n), 0, negative, lo, hi) == Ok::<int, crate::text::IntErrorKind>(
            if negative {
                -n
            } else {
                n as int
            },
        ),
    decreases n,
{
    if n < 10 {
        lemma_digit_reads_back(n);
        assert(decimal(n) == seq![digit_char(n)]);
        assert(decimal(n)[0] == digit_char(n));
        assert(decimal(n).drop_first() =~= Seq::<char>::empty());
        let next: int = if negative { 0 - n } else { n as int };
        assert(scan_digits(decimal(n), 0, negative, lo, hi) == scan_digits(Seq::<char>::empty(), next, negative, lo, hi));
    } else {
        let q = n / 10;
        let r = n % 10;
        assert(q * 10 + r == n);
        lemma_scan_decimal(q, negative, lo, hi);
        lemma_scan_push(decimal(q), digit_char(r), 0, negative, lo, hi);
        lemma_digit_reads_back(r);
        assert(seq![digit_char(r)].drop_first() =~= Seq::<char>::empty());
        assert(decimal(n) == decimal(q).push(digit_char(r)));
        let v: int = if negative { -q } else { q as int };
        assert(scan_digits(decimal(q), 0, negative, lo, hi) == Ok::<int, crate::text::IntErrorKind>(v));
        assert(seq![digit_char(r)][0] == digit_char(r));
        let next = if negative { v * 10 - r } else { v * 10 + r };
        assert(next == if negative { -n } else { n as int });
        assert(scan_digits(seq![digit_char(r)], v, negative, lo, hi) == scan_digits(Seq::<char>::empty(), next, negative, lo, hi));
    }
}

/// Reading back the decimal digits of a number gives the number, for any
/// integer type whose range holds it.
pub proof fn law_decimal_reads_back(n: nat, lo: int, hi: int, signed: bool)
    requires
        lo <= 0,
        n <= hi,
    ensures
        parse_int(decimal(n), lo, hi, signed) == Ok::<int, crate::text::IntErrorKind>(n as int),
{
    lemma_decimal_starts_with_digit(n);
    lemma_scan_decimal(n, false, lo, hi);
}

/// Reading back the decimal text of an integer, with its minus sign, gives
/// the integer, for any signed integer type whose range holds it.
pub proof fn law_signed_decimal_reads_back(i: int, lo: int, hi: int)
    requires
        lo <= 0 <= hi,
        lo <= i <= hi,
    ensures
        parse_int(signed_decimal(i), lo, hi, true) == Ok::<int, crate::text::IntErrorKind>(i),
{
    if i < 0 {
        let m = (-i) as nat;
        lemma_decimal_starts_with_digit(m);
        lemma_scan_decimal(m, true, lo, hi);
        assert((seq!['-'] + decimal(m)).drop_first() =~= decimal(m));
    } else {
        law_decimal_reads_back(i as nat, lo, hi, true);
    }
}

/// The id written into an AO3 address is the id read from it: where the
/// address pattern captures the page word and the id's decimal text, the
/// page read is the page written.
pub proof fn law_page_address_reads_back(whole: Seq<char>, page_type: PageType, id: i64)
    ensures
        info_from_groups(
            seq![
                Some(whole),
                Some(
                    match page_type {
                        PageType::Work => "works"@,
                        PageType::Series => "series"@,
                    },
                ),
                Some(signed_decimal(id as int)),
            ],
        ) == Ok::<UrlInfo, crate::common::UrlError>(UrlInfo { page_type, id }),
{
    law_signed_decimal_reads_back(id as int, i64::MIN as int, i64::MAX as int);
    reveal_strlit("works");
    reveal_strlit("series");
    assert("works"@.len() != "series"@.len());
}

// ---------------------------------------------------------------------------
// Filing a work under one fandom
/// The name a fandom is filed under after the fandom map: its mapped name
/// where the map has one, else the fandom itself.
pub open spec fn renamed(map: Map<Seq<char>, Seq<char>>, f: Seq<char>) -> Seq<char> {
    if map.contains_key(f) {
        map[f]
    } else {
        f
    }
}

/// No mapped name is itself a key of the map.
pub open spec fn map_settles(map: Map<Seq<char>, Seq<char>>) -> bool {
    forall|k: Seq<char>| #[trigger] map.contains_key(k) ==> !map.contains_key(map[k])
}

proof fn lemma_map_prefix(fandoms: Seq<Seq<char>>, map: Map<Seq<char>, Seq<char>>, n: nat)
    requires
        map_settles(map),
        n <= fandoms.len(),
    ensures
        forall|x: Seq<char>| #[trigger] map_fandoms(fandoms, map, n).contains(x) <==> (
            (exists|i: int| 0 <= i < n && renamed(map, #[trigger] fandoms[i]) == x)
            || (fandoms.contains(x) && !(map.contains_key(x) && fandoms.take(n as int).contains(x)))),
    decreases n,
{
    if n > 0 {
        let m = (n - 1) as nat;
        lemma_map_prefix(fandoms, map, m);
        let f = fandoms[m as int];
        assert forall|x: Seq<char>| fandoms.take(n as int).contains(x) <==> (fandoms.take(m as int).contains(x) || x == f) by {
            if fandoms.take(n as int).contains(x) {
                let j = choose|j: int| 0 <= j < n && fandoms.take(n as int)[j] == x;
                if j < m {
                    assert(fandoms.take(m as int)[j] == x);
                }
            }
            if fandoms.take(m as int).contains(x) {
                let j = choose|j: int| 0 <= j < m && fandoms.take(m as int)[j] == x;
                assert(fandoms.take(n as int)[j] == x);
            }
            if x == f {
                assert(fandoms.take(n as int)[m as int] == x);
            }
        }
        assert forall|x: Seq<char>| #[trigger] map_fandoms(fandoms, map, n).contains(x) <==> (
            (exists|i: int| 0 <= i < n && renamed(map, #[trigger] fandoms[i]) == x)
            || (fandoms.contains(x) && !(map.contains_key(x) && fandoms.take(n as int).contains(x)))) by {
            let prev = map_fandoms(fandoms, map, m);
            let before = prev.contains(x);
            let seen_before = fandoms.take(m as int).contains(x);
            let seen_now = fandoms.take(n as int).contains(x);
            assert(seen_now <==> (seen_before || x == f));
            let renamed_before = exists|i: int| 0 <= i < m && renamed(map, #[trigger] fandoms[i]) == x;
            let renamed_now = exists|i: int| 0 <= i < n && renamed(map, #[trigger] fandoms[i]) == x;
            if renamed_before {
                let i = choose|i: int| 0 <= i < m && renamed(map, #[trigger] fandoms[i]) == x;
                assert(0 <= i < n && renamed(map, fandoms[i]) == x);
            }
            if x == renamed(map, f) {
                assert(renamed(map, fandoms[m as int]) == x);
            }
            if renamed_now {
                let i = choose|i: int| 0 <= i < n && renamed(map, #[trigger] fandoms[i]) == x;
                if i < m {
                    assert(renamed_before);
                } else {
                    assert(x == renamed(map, f));
                }
            }
            assert(renamed_now <==> (renamed_before || x == renamed(map, f)));
            if map.contains_key(f) && x == f {
                if renamed_now {
                    let i = choose|i: int| 0 <= i < n && renamed(map, #[trigger] fandoms[i]) == x;
                    assert(map.contains_key(fandoms[i]) || !map.contains_key(x));
                }
                assert(!renamed_now);
            }
            if map.contains_key(f) {
                assert(map_fandoms(fandoms, map, n) == prev.remove(f).insert(map[f]));
            } else {
                assert(map_fandoms(fandoms, map, n) == prev);
            }
        }
    }
}

/// Where no mapped name is itself a key of the map, the fandom map files
/// each fandom under its mapped name, and lets through every fandom it has
/// no entry for.
pub proof fn law_fandom_map_renames(fandoms: Seq<Seq<char>>, map: Map<Seq<char>, Seq<char>>)
    requires
        map_settles(map),
    ensures
        mapped_fandoms(fandoms, map) == fandoms.map_values(|f: Seq<char>| renamed(map, f)).to_set(),
{
    let n = fandoms.len();
    lemma_map_prefix(fandoms, map, n);
    assert(fandoms.take(n as int) =~= fandoms);
    let r = fandoms.map_values(|f: Seq<char>| renamed(map, f));
    assert forall|x: Seq<char>| mapped_fandoms(fandoms, map).contains(x) <==> r.to_set().contains(x) by {
        if mapped_fandoms(fandoms, map).contains(x) {
            if (exists|i: int| 0 <= i < n && renamed(map, #[trigger] fandoms[i]) == x) {
                let i = choose|i: int| 0 <= i < n && renamed(map, #[trigger] fandoms[i]) == x;
                assert(r[i] == x);
            } else {
                let i = choose|i: int| 0 <= i < n && fandoms[i] == x;
                assert(r[i] == x);
            }
        }
        if r.to_set().contains(x) {
            let i = choose|i: int| 0 <= i < r.len() && r[i] == x;
            assert(renamed(map, fandoms[i]) == x);
        }
    }
    assert(mapped_fandoms(fandoms, map) =~= r.to_set());
}

proof fn lemma_map_finite(fandoms: Seq<Seq<char>>, map: Map<Seq<char>, Seq<char>>, n: nat)
    requires
        n <= fandoms.len(),
    ensures
        map_fandoms(fandoms, map, n).finite(),
    decreases n,
{
    if n > 0 {
        lemma_map_finite(fandoms, map, (n - 1) as nat);
    }
}

proof fn lemma_removals_within(
    current: Set<Seq<char>>,
    mapped: Set<Seq<char>>,
    key: Seq<char>,
    removals: Seq<Seq<char>>,
    n: nat,
)
    requires
        n <= removals.len(),
        current.subset_of(mapped),
        current.finite(),
        mapped.contains(key),
    ensures
        apply_removals(current, mapped, key, removals, n).subset_of(mapped),
        apply_removals(current, mapped, key, removals, n).finite(),
    decreases n,
{
    if n > 0 {
        lemma_removals_within(current, mapped, key, removals, (n - 1) as nat);
    }
}

proof fn lemma_filters_within(mapped: Set<Seq<char>>, filters: Seq<(Seq<char>, Seq<Seq<char>>)>, n: nat)
    requires
        n <= filters.len(),
        mapped.finite(),
    ensures
        apply_filters(mapped, filters, n).subset_of(mapped),
        apply_filters(mapped, filters, n).finite(),
    decreases n,
{
    if n > 0 {
        let m = (n - 1) as nat;
        lemma_filters_within(mapped, filters, m);
        let s = apply_filters(mapped, filters, m);
        let key = filters[m as int].0;
        if mapped.contains(key) && s.contains(key) {
            lemma_removals_within(s, mapped, key, filters[m as int].1, filters[m as int].1.len());
        }
    }
}

/// Filtering only takes fandoms away, or narrows down to one of them: what
/// is left is always among the fandoms the map gave.
pub proof fn law_filters_keep_within_mapped(
    fandoms: Seq<Seq<char>>,
    map: Map<Seq<char>, Seq<char>>,
    filters: Seq<(Seq<char>, Seq<Seq<char>>)>,
)
    ensures
        filtered_fandoms(fandoms, map, filters).subset_of(mapped_fandoms(fandoms, map)),
        filtered_fandoms(fandoms, map, filters).finite(),
{
    lemma_map_finite(fandoms, map, fandoms.len());
    lemma_filters_within(mapped_fandoms(fandoms, map), filters, filters.len());
}

/// Without filters, the fandoms left are those the map gave.
pub proof fn law_no_filters(fandoms: Seq<Seq<char>>, map: Map<Seq<char>, Seq<char>>)
    ensures
        filtered_fandoms(fandoms, map, Seq::empty()) == mapped_fandoms(fandoms, map),
{
}

/// A filter whose list holds `"*"` keeps its own fandom alone, where that
/// fandom is among those the map gave.
pub proof fn law_wildcard_filter_keeps_key(fandoms: Seq<Seq<char>>, map: Map<Seq<char>, Seq<char>>, key: Seq<char>)
    requires
        mapped_fandoms(fandoms, map).contains(key),
    ensures
        filtered_fandoms(fandoms, map, seq![(key, seq!["*"@])]) == set![key],
        fandom_label(filtered_fandoms(fandoms, map, seq![(key, seq!["*"@])])) == key,
{
    let filters = seq![(key, seq!["*"@])];
    let mapped = mapped_fandoms(fandoms, map);
    assert(apply_filters(mapped, filters, 0) == mapped);
    assert(apply_removals(mapped, mapped, key, seq!["*"@], 1) == set![key]);
    assert(set![key].len() == 1) by {
        assert(set![key] =~= Set::<Seq<char>>::empty().insert(key));
    }
    assert(set![key].choose() == key) by {
        assert(set![key].contains(set![key].choose()));
    }
}

/// The fandom a work is filed under: the one fandom left, or `"Multiple"`
/// where more than one is left; either way a fandom the map gave, or `"Multiple"`.
pub proof fn law_fandom_label(
    fandoms: Seq<Seq<char>>,
    map: Map<Seq<char>, Seq<char>>,
    filters: Seq<(Seq<char>, Seq<Seq<char>>)>,
)
    requires
        filtered_fandoms(fandoms, map, filters).len() > 0,
    ensures
        ({
            let left = filtered_fandoms(fandoms, map, filters);
            &&& left.len() == 1 ==> left == set![fandom_label(left)]
            &&& left.len() > 1 ==> fandom_label(left) == "Multiple"@
            &&& fandom_label(left) == "Multiple"@ || mapped_fandoms(fandoms, map).contains(fandom_label(left))
        }),
{
    let left = filtered_fandoms(fandoms, map, filters);
    law_filters_keep_within_mapped(fandoms, map, filters);
    if left.len() == 1 {
        let c = left.choose();
        assert(left.contains(c));
        assert forall|x: Seq<char>| left.contains(x) implies x == c by {
            if x != c {
                assert(left.remove(c).contains(x));
                assert(left.remove(c).len() == 0);
            }
        }
        assert(left =~= set![c]);
    } else {
        assert(left.contains(left.choose()));
    }
}

// ---------------------------------------------------------------------------
// Tags stored and read back
/// The tags among stored `(kind, name)` rows whose kind is written as `t`'s.
pub open spec fn stored_tags_of(stored: Seq<(Seq<char>, Seq<char>)>, t: TagType) -> Seq<Seq<char>>
    decreases stored.len(),
{
    if stored.len() == 0 {
        Seq::empty()
    } else if tag_type_named(stored.last().0) == Some(t) {
        stored_tags_of(stored.drop_last(), t).push(stored.last().1)
    } else {
        stored_tags_of(stored.drop_last(), t)
    }
}

/// `rows` are the stored rows `stored` read back: each kind read from its
/// written name, each tag as stored.
pub open spec fn read_back(stored: Seq<(Seq<char>, Seq<char>)>, rows: Seq<(TagType, String)>) -> bool {
    &&& rows.len() == stored.len()
    &&& forall|i: int|
        #![trigger rows[i]]
        0 <= i < rows.len() ==> tag_type_named(stored[i].0) == Some(rows[i].0) && rows[i].1@ == stored[i].1
}

proof fn lemma_kind_names(t: TagType)
    ensures
        tag_type_named(tag_type_name(t)) == Some(t),
{
    reveal_strlit("fandom");
    reveal_strlit("characters");
    reveal_strlit("relationships");
    reveal_strlit("additional");
    assert("fandom"@.len() == 6);
    assert("characters"@.len() == 10);
    assert("relationships"@.len() == 13);
    assert("additional"@.len() == 10);
    assert("characters"@[0] != "additional"@[0]);
}

proof fn lemma_read_back_tags(stored: Seq<(Seq<char>, Seq<char>)>, rows: Seq<(TagType, String)>, t: TagType)
    requires
        read_back(stored, rows),
    ensures
        tags_of_type(rows, t) == stored_tags_of(stored, t),
    decreases rows.len(),
{
    if rows.len() > 0 {
        let n = rows.len() - 1;
        assert(read_back(stored.drop_last(), rows.drop_last())) by {
            assert forall|i: int| 0 <= i < rows.drop_last().len() implies #[trigger] rows.drop_last()[i] == rows[i] by {}
        }
        lemma_read_back_tags(stored.drop_last(), rows.drop_last(), t);
        assert(rows[n] == rows.last());
    }
}

proof fn lemma_stored_tags_concat(x: Seq<(Seq<char>, Seq<char>)>, y: Seq<(Seq<char>, Seq<char>)>, t: TagType)
    ensures
        stored_tags_of(x + y, t) == stored_tags_of(x, t) + stored_tags_of(y, t),
    decreases y.len(),
{
    if y.len() == 0 {
        assert(x + y =~= x);
        assert(stored_tags_of(x, t) + stored_tags_of(y, t) =~= stored_tags_of(x, t));
    } else {
        assert((x + y).drop_last() =~= x + y.drop_last());
        assert((x + y).last() == y.last());
        lemma_stored_tags_concat(x, y.drop_last(), t);
        if tag_type_named(y.last().0) == Some(t) {
            assert(stored_tags_of(x, t) + stored_tags_of(y, t) =~= (stored_tags_of(x, t) + stored_tags_of(y.drop_last(), t)).push(y.last().1));
        }
    }
}

proof fn lemma_stored_tags_kinded(k: TagType, tags: Seq<Seq<char>>, t: TagType)
    ensures
        stored_tags_of(kinded(k, tags), t) == if k == t {
            tags
        } else {
            Seq::empty()
        },
    decreases tags.len(),
{
    lemma_kind_names(k);
    if tags.len() > 0 {
        assert(kinded(k, tags).drop_last() =~= kinded(k, tags.drop_last()));
        lemma_stored_tags_kinded(k, tags.drop_last(), t);
        if k == t {
            assert(tags.drop_last().push(tags.last()) =~= tags);
        }
    } else {
        assert(kinded(k, tags).len() == 0);
    }
}

/// The tags a work stores are the tags read back: rows written with
/// `tag_rows` and read back kind by kind give each kind's tags, in order.
pub proof fn law_stored_tags_read_back(
    fandoms: Seq<Seq<char>>,
    characters: Seq<Seq<char>>,
    relationships: Seq<Seq<char>>,
    additional: Seq<Seq<char>>,
    rows: Seq<(TagType, String)>,
)
    requires
        read_back(
            kinded(TagType::Fandom, fandoms) + kinded(TagType::Characters, characters) + kinded(
                TagType::Relationships,
                relationships,
            ) + kinded(TagType::Additional, additional),
            rows,
        ),
    ensures
        tags_of_type(rows, TagType::Fandom) == fandoms,
        tags_of_type(rows, TagType::Characters) == characters,
        tags_of_type(rows, TagType::Relationships) == relationships,
        tags_of_type(rows, TagType::Additional) == additional,
{
    let a = kinded(TagType::Fandom, fandoms);
    let b = kinded(TagType::Characters, characters);
    let c = kinded(TagType::Relationships, relationships);
    let d = kinded(TagType::Additional, additional);
    let stored = a + b + c + d;
    assert forall|t: TagType| #[trigger] tags_of_type(rows, t) == stored_tags_of(a, t) + stored_tags_of(b, t) + stored_tags_of(c, t) + stored_tags_of(d, t) by {
        lemma_read_back_tags(stored, rows, t);
        lemma_stored_tags_concat(a + b + c, d, t);
        lemma_stored_tags_concat(a + b, c, t);
        lemma_stored_tags_concat(a, b, t);
    }
    assert forall|t: TagType, k: TagType, g: Seq<Seq<char>>| #[trigger] stored_tags_of(kinded(k, g), t) == if k == t {
        g
    } else {
        Seq::empty()
    } by {
        lemma_stored_tags_kinded(k, g, t);
    }
    assert(tags_of_type(rows, TagType::Fandom) =~= fandoms);
    assert(tags_of_type(rows, TagType::Characters) =~= characters);
    assert(tags_of_type(rows, TagType::Relationships) =~= relationships);
    assert(tags_of_type(rows, TagType::Additional) =~= additional);
}

// ---------------------------------------------------------------------------
// The upload queue
/// The ids of `entries` (`(is_work, id)`) of the kind `works` says, in order.
pub open spec fn entries_of_kind(entries: Seq<(bool, i64)>, works: bool) -> Seq<i64>
    decreases entries.len(),
{
    if entries.len() == 0 {
        Seq::empty()
    } else if entries.last().0 == works {
        entries_of_kind(entries.drop_last(), works).push(entries.last().1)
    } else {
        entries_of_kind(entries.drop_last(), works)
    }
}

/// Queue rows written for `entries`: each kind as `queue_kind` writes it.
pub open spec fn written_queue(entries: Seq<(bool, i64)>, rows: Seq<(String, i64)>) -> bool {
    &&& rows.len() == entries.len()
    &&& forall|i: int|
        #![trigger rows[i]]
        0 <= i < rows.len() ==> rows[i].0@ == queue_kind_text(entries[i].0) && rows[i].1 == entries[i].1
}

/// What is queued is read back by kind: sorting the queue rows written for
/// works and series gives back the ids of each kind, in the order queued.
pub proof fn law_queue_reads_back(entries: Seq<(bool, i64)>, rows: Seq<(String, i64)>, works: bool)
    requires
        written_queue(entries, rows),
    ensures
        queued_ids(rows, works) == entries_of_kind(entries, works),
    decreases rows.len(),
{
    reveal_strlit("work");
    reveal_strlit("series");
    assert("work"@.len() != "series"@.len());
    if rows.len() > 0 {
        assert(written_queue(entries.drop_last(), rows.drop_last())) by {
            assert forall|i: int| 0 <= i < rows.drop_last().len() implies #[trigger] rows.drop_last()[i] == rows[i] by {}
        }
        law_queue_reads_back(entries.drop_last(), rows.drop_last(), works);
        assert(rows.last() == rows[rows.len() - 1]);
    }
}

/// Every queued entry is sorted to exactly one side.
pub proof fn law_queue_split_partitions(rows: Seq<(String, i64)>)
    ensures
        queued_ids(rows, true).len() + queued_ids(rows, false).len() == rows.len(),
    decreases rows.len(),
{
    if rows.len() > 0 {
        law_queue_split_partitions(rows.drop_last());
    }
}

// ---------------------------------------------------------------------------
// File names
/// Cleaned titles hold none of `! ? : "`.
pub proof fn law_sanitised_is_safe(s: Seq<char>)
    ensures
        forall|i: int| 0 <= i < sanitised(s).len() ==> !is_unsafe_char(#[trigger] sanitised(s)[i]),
{
    lemma_drop_unsafe_safe(crate::text::trim(s));
}

proof fn lemma_drop_unsafe_safe(s: Seq<char>)
    ensures
        forall|i: int|
            0 <= i < crate::common::drop_unsafe(s).len() ==> !is_unsafe_char(#[trigger] crate::common::drop_unsafe(s)[i]),
    decreases s.len(),
{
    if s.len() > 0 {
        lemma_drop_unsafe_safe(s.drop_last());
        let prev = crate::common::drop_unsafe(s.drop_last());
        if !is_unsafe_char(s.last()) {
            assert forall|i: int| 0 <= i < prev.push(s.last()).len() implies !is_unsafe_char(#[trigger] prev.push(s.last())[i]) by {
                if i < prev.len() {
                    assert(prev.push(s.last())[i] == prev[i]);
                }
            }
        }
    }
}

/// A title with no unsafe character and no surrounding white space is
/// left as it is.
pub proof fn law_clean_title_unchanged(s: Seq<char>)
    requires
        crate::text::trim(s) == s,
        forall|i: int| 0 <= i < s.len() ==> !is_unsafe_char(#[trigger] s[i]),
    ensures
        sanitised(s) == s,
{
    lemma_drop_unsafe_keeps_safe(s);
}

proof fn lemma_drop_unsafe_keeps_safe(s: Seq<char>)
    requires
        forall|i: int| 0 <= i < s.len() ==> !is_unsafe_char(#[trigger] s[i]),
    ensures
        crate::common::drop_unsafe(s) == s,
    decreases s.len(),
{
    if s.len() > 0 {
        assert(!is_unsafe_char(s[s.len() - 1]));
        lemma_drop_unsafe_keeps_safe(s.drop_last());
        assert(s.drop_last().push(s.last()) =~= s);
    }
}

/// A work saved as part of a series is saved under its plain file name,
/// prefixed with its part number and `" - "`.
pub proof fn law_series_filename(title: Seq<char>, link: LinkView, format: DownloadFormat)
    ensures
        work_filename(title, Some(link), format) == decimal(link.2 as nat) + " - "@ + work_filename(title, None, format),
{
    assert(work_filename(title, Some(link), format) =~= decimal(link.2 as nat) + " - "@ + work_filename(title, None, format));
}

// ---------------------------------------------------------------------------
// Maps read back what was written
/// A download link set for a format is the link read for it; the links of
/// other formats stay as they were.
pub proof fn law_download_link_read_back(links: DownloadLinks, format: DownloadFormat, link: Seq<char>, other: DownloadFormat)
    ensures
        links@.insert(format, link).contains_key(format),
        links@.insert(format, link)[format] == link,
        other != format ==> links@.insert(format, link).contains_key(other) == links@.contains_key(other),
        other != format && links@.contains_key(other) ==> links@.insert(format, link)[other] == links@[other],
{
}

/// A fandom filed under a name is read back under that name; other
/// fandoms keep what they were filed under.
pub proof fn law_fandom_map_read_back(map: FandomMap, key: Seq<char>, value: Seq<char>, other: Seq<char>)
    ensures
        map@.insert(key, value)[key] == value,
        other != key ==> map@.insert(key, value).contains_key(other) == map@.contains_key(other),
        other != key && map@.contains_key(other) ==> map@.insert(key, value)[other] == map@[other],
{
}

// ---------------------------------------------------------------------------
// A series' fandoms
proof fn lemma_add_unseen(acc: Seq<Seq<char>>, fs: Seq<Seq<char>>)
    requires
        acc.no_duplicates(),
    ensures
        add_unseen(acc, fs).no_duplicates(),
        forall|x: Seq<char>| #[trigger] add_unseen(acc, fs).contains(x) <==> (acc.contains(x) || fs.contains(x)),
    decreases fs.len(),
{
    if fs.len() > 0 {
        let init = fs.drop_last();
        lemma_add_unseen(acc, init);
        let a = add_unseen(acc, init);
        assert forall|x: Seq<char>| fs.contains(x) <==> (init.contains(x) || x == fs.last()) by {
            if fs.contains(x) {
                let i = choose|i: int| 0 <= i < fs.len() && fs[i] == x;
                if i < fs.len() - 1 {
                    assert(init[i] == x);
                }
            }
            if init.contains(x) {
                let i = choose|i: int| 0 <= i < init.len() && init[i] == x;
                assert(fs[i] == x);
            }
            if x == fs.last() {
                assert(fs[fs.len() - 1] == x);
            }
        }
        if !a.contains(fs.last()) {
            assert forall|i: int, j: int| 0 <= i < j < a.push(fs.last()).len() implies a.push(fs.last())[i] != a.push(fs.last())[j] by {
                if j == a.len() {
                    assert(a.push(fs.last())[i] == a[i]);
                }
            }
            assert forall|x: Seq<char>| a.push(fs.last()).contains(x) <==> (a.contains(x) || x == fs.last()) by {
                if a.push(fs.last()).contains(x) {
                    let i = choose|i: int| 0 <= i < a.push(fs.last()).len() && a.push(fs.last())[i] == x;
                    if i < a.len() {
                        assert(a[i] == x);
                    }
                }
                if a.contains(x) {
                    let i = choose|i: int| 0 <= i < a.len() && a[i] == x;
                    assert(a.push(fs.last())[i] == x);
                }
                if x == fs.last() {
                    assert(a.push(fs.last())[a.len() as int] == x);
                }
            }
        }
        assert forall|x: Seq<char>| #[trigger] add_unseen(acc, fs).contains(x) <==> (acc.contains(x) || fs.contains(x)) by {
            assert(a.contains(x) <==> (acc.contains(x) || init.contains(x)));
            assert(fs.contains(x) <==> (init.contains(x) || x == fs.last()));
        }
    }
}

/// A series carries each fandom of its works once: no fandom twice, and
/// every fandom of every work.
pub proof fn law_series_fandoms_gathered(works: Seq<Work>)
    ensures
        gathered_fandoms(works).no_duplicates(),
        forall|x: Seq<char>| #[trigger] gathered_fandoms(works).contains(x) <==> exists|k: int|
            0 <= k < works.len() && crate::strset::views(#[trigger] works[k].fandoms@).contains(x),
    decreases works.len(),
{
    if works.len() > 0 {
        let init = works.drop_last();
        law_series_fandoms_gathered(init);
        lemma_add_unseen(gathered_fandoms(init), crate::strset::views(works.last().fandoms@));
        assert forall|x: Seq<char>| #[trigger] gathered_fandoms(works).contains(x) <==> exists|k: int|
            0 <= k < works.len() && crate::strset::views(#[trigger] works[k].fandoms@).contains(x) by {
            if exists|k: int| 0 <= k < works.len() && crate::strset::views(#[trigger] works[k].fandoms@).contains(x) {
                let k = choose|k: int| 0 <= k < works.len() && crate::strset::views(#[trigger] works[k].fandoms@).contains(x);
                if k < works.len() - 1 {
                    assert(init[k] == works[k]);
                }
            }
            if exists|k: int| 0 <= k < init.len() && crate::strset::views(#[trigger] init[k].fandoms@).contains(x) {
                let k = choose|k: int| 0 <= k < init.len() && crate::strset::views(#[trigger] init[k].fandoms@).contains(x);
                assert(works[k] == init[k]);
            }
            assert(works[works.len() - 1] == works.last());
        }
    }
}

// ---------------------------------------------------------------------------
// A download's steps
/// The steps of a download in which every step goes through: the fixed
/// steps, then the upload where devices were named for it, then the queue
/// where devices were named for it.
pub open spec fn steps_of_download(uploads: bool, queues: bool) -> Seq<DownloadStep> {
    seq![DownloadStep::WriteCookies, DownloadStep::Parse, DownloadStep::Save, DownloadStep::Record]
        + (if uploads { seq![DownloadStep::Upload] } else { Seq::empty() })
        + (if queues { seq![DownloadStep::Queue] } else { Seq::empty() })
}

/// A download in which every step goes through runs each of its steps once,
/// in order, and then answers: uploads come after the download is stored,
/// and queueing comes last.
pub proof fn law_download_steps(uploads: bool, queues: bool)
    ensures
        ({
            let steps = steps_of_download(uploads, queues);
            &&& forall|i: int| 0 <= i < steps.len() - 1 ==> step_after(#[trigger] steps[i], uploads, queues) == Some(steps[i + 1])
            &&& step_after(steps.last(), uploads, queues) is None
        }),
{
    let steps = steps_of_download(uploads, queues);
    assert forall|i: int| 0 <= i < steps.len() - 1 implies step_after(#[trigger] steps[i], uploads, queues) == Some(steps[i + 1]) by {
        if i < 3 {
            assert(steps[i] == seq![DownloadStep::WriteCookies, DownloadStep::Parse, DownloadStep::Save, DownloadStep::Record][i]);
        }
    }
}

// ---------------------------------------------------------------------------
// Where files go on a device
/// The works of a series go into the series' folder on a device, whatever
/// work it is.
pub proof fn law_series_works_share_folder(work: Work, series: Series, filename: Option<Seq<char>>)
    ensures
        remote_parts(Some(work), Some(series), filename) == remote_parts(None, Some(series), filename),
{
}

// ---------------------------------------------------------------------------
// String sets
/// Removing a string undoes adding it: a set that did not hold `s`, with `s`
/// added and then removed, is the set it was.
pub proof fn law_remove_undoes_insert(v: Seq<String>, s: Seq<char>)
    requires
        !crate::strset::set_of(v).contains(s),
    ensures
        crate::strset::set_of(v).insert(s).remove(s) == crate::strset::set_of(v),
{
    assert(crate::strset::set_of(v).insert(s).remove(s) =~= crate::strset::set_of(v));
}

// ---------------------------------------------------------------------------
// Filing does not depend on how the fandoms are listed
/// Where no mapped name is itself a key of the map, the order in which a
/// work lists its fandoms, and any repeats, do not change where it is filed.
pub proof fn law_fandom_order_irrelevant(
    first: Seq<Seq<char>>,
    second: Seq<Seq<char>>,
    map: Map<Seq<char>, Seq<char>>,
    filters: Seq<(Seq<char>, Seq<Seq<char>>)>,
)
    requires
        map_settles(map),
        first.to_set() == second.to_set(),
    ensures
        mapped_fandoms(first, map) == mapped_fandoms(second, map),
        filtered_fandoms(first, map, filters) == filtered_fandoms(second, map, filters),
{
    law_fandom_map_renames(first, map);
    law_fandom_map_renames(second, map);
    let a = first.map_values(|f: Seq<char>| renamed(map, f));
    let b = second.map_values(|f: Seq<char>| renamed(map, f));
    assert forall|x: Seq<char>| a.to_set().contains(x) implies b.to_set().contains(x) by {
        let i = choose|i: int| 0 <= i < a.len() && a[i] == x;
        assert(first.to_set().contains(first[i]));
        assert(second.to_set().contains(first[i]));
        let j = choose|j: int| 0 <= j < second.len() && second[j] == first[i];
        assert(b[j] == x);
    }
    assert forall|x: Seq<char>| b.to_set().contains(x) implies a.to_set().contains(x) by {
        let j = choose|j: int| 0 <= j < b.len() && b[j] == x;
        assert(second.to_set().contains(second[j]));
        assert(first.to_set().contains(second[j]));
        let i = choose|i: int| 0 <= i < first.len() && first[i] == second[j];
        assert(a[i] == x);
    }
    assert(a.to_set() =~= b.to_set());
}

proof fn lemma_unused_filters(mapped: Set<Seq<char>>, filters: Seq<(Seq<char>, Seq<Seq<char>>)>, n: nat)
    requires
        n <= filters.len(),
        forall|k: int| 0 <= k < filters.len() ==> !mapped.contains(#[trigger] filters[k].0),
    ensures
        apply_filters(mapped, filters, n) == mapped,
    decreases n,
{
    if n > 0 {
        lemma_unused_filters(mapped, filters, (n - 1) as nat);
        assert(!mapped.contains(filters[n - 1].0));
    }
}

/// Filters for fandoms that the map did not give change nothing.
pub proof fn law_unused_filters(
    fandoms: Seq<Seq<char>>,
    map: Map<Seq<char>, Seq<char>>,
    filters: Seq<(Seq<char>, Seq<Seq<char>>)>,
)
    requires
        forall|k: int| 0 <= k < filters.len() ==> !mapped_fandoms(fandoms, map).contains(#[trigger] filters[k].0),
    ensures
        filtered_fandoms(fandoms, map, filters) == mapped_fandoms(fandoms, map),
{
    lemma_unused_filters(mapped_fandoms(fandoms, map), filters, filters.len());
}

proof fn lemma_map_of_nothing(fandoms: Seq<Seq<char>>, map: Map<Seq<char>, Seq<char>>, n: nat)
    requires
        fandoms.len() == 0,
        n == 0,
    ensures
        map_fandoms(fandoms, map, n) == Set::<Seq<char>>::empty(),
{
    assert(fandoms.to_set() =~= Set::<Seq<char>>::empty());
}

/// A work without fandoms has none left to be filed under, whatever the
/// rules: filing is owed only where some fandom is listed.
pub proof fn law_no_fandoms_nothing_left(
    fandoms: Seq<Seq<char>>,
    map: Map<Seq<char>, Seq<char>>,
    filters: Seq<(Seq<char>, Seq<Seq<char>>)>,
)
    requires
        fandoms.len() == 0,
    ensures
        filtered_fandoms(fandoms, map, filters).len() == 0,
{
    lemma_map_of_nothing(fandoms, map, 0);
    law_filters_keep_within_mapped(fandoms, map, filters);
    let left = filtered_fandoms(fandoms, map, filters);
    assert(left =~= Set::<Seq<char>>::empty());
}

// ---------------------------------------------------------------------------
// A series is read from every page
/// Where blurb `b` of page `d` stands among the blurbs of all pages `docs`:
/// after every blurb of the pages before it.
pub open spec fn blurb_index(docs: Seq<Seq<char>>, d: int, b: int) -> int {
    total_blurbs(docs.take(d)) + b
}

/// The works of a series come from every fetched page, in page order and
/// then in the order of the blurbs on the page: there is one place per blurb
/// of every page, and blurb `b` of page `d` comes after all blurbs of the
/// pages before `d`.
pub proof fn law_series_reads_every_page(docs: Seq<Seq<char>>)
    ensures
        blurb_places(blurb_counts(docs)).len() == total_blurbs(docs),
        forall|d: int, b: int|
            0 <= d < docs.len() && 0 <= b < crate::html::selected(docs[d], "li.work.blurb"@).len() ==> blurb_places(
                blurb_counts(docs),
            )[#[trigger] blurb_index(docs, d, b)] == (d, b),
    decreases docs.len(),
{
    if docs.len() > 0 {
        let init = docs.drop_last();
        law_series_reads_every_page(init);
        let c = blurb_counts(docs);
        assert(c.drop_last() =~= blurb_counts(init));
        assert(c.last() == crate::html::selected(docs.last(), "li.work.blurb"@).len());
        let prev = blurb_places(blurb_counts(init));
        let tail = Seq::new(c.last(), |b: int| ((c.len() - 1) as int, b));
        assert(blurb_places(c) == prev + tail);
        assert forall|d: int, b: int|
            0 <= d < docs.len() && 0 <= b < crate::html::selected(docs[d], "li.work.blurb"@).len() implies blurb_places(
                c,
            )[#[trigger] blurb_index(docs, d, b)] == (d, b) by {
            if d < docs.len() - 1 {
                assert(docs.take(d) =~= init.take(d));
                assert(init[d] == docs[d]);
                lemma_total_prefix(init, d);
                assert(blurb_index(init, d, b) == blurb_index(docs, d, b));
                assert(prev[blurb_index(init, d, b)] == (d, b));
                assert((prev + tail)[total_blurbs(init.take(d)) + b] == prev[total_blurbs(init.take(d)) + b]);
            } else {
                assert(docs.take(d) =~= init);
                assert((prev + tail)[total_blurbs(init) + b] == tail[b]);
            }
        }
    }
}

proof fn lemma_total_prefix(docs: Seq<Seq<char>>, d: int)
    requires
        0 <= d < docs.len(),
    ensures
        total_blurbs(docs.take(d)) + crate::html::selected(docs[d], "li.work.blurb"@).len() <= total_blurbs(docs),
    decreases docs.len() - d,
{
    if d == docs.len() - 1 {
        assert(docs.drop_last() =~= docs.take(d));
    } else {
        lemma_total_prefix(docs.drop_last(), d);
        assert(docs.drop_last().take(d) =~= docs.take(d));
        assert(docs.drop_last()[d] == docs[d]);
    }
}

// ---------------------------------------------------------------------------
// A work's authors
/// A work read from its page has all the authors its byline links to, in
/// page order; a byline without links gives the byline's text as the one author.
pub proof fn law_work_page_authors(w: Work, id: i64, p: WorkPage, fandom: Seq<char>, doc: Seq<char>)
    requires
        work_from_page(w, id, p, fandom),
        work_page_selected(p, doc),
    ensures
        crate::html::texts(crate::html::selected(doc, "h3.byline.heading>a"@)).len() > 0 ==> crate::strset::views(w.authors@)
            == crate::html::texts(crate::html::selected(doc, "h3.byline.heading>a"@)),
        crate::html::texts(crate::html::selected(doc, "h3.byline.heading>a"@)).len() == 0 ==> crate::strset::views(w.authors@)
            == seq![crate::html::texts(crate::html::selected(doc, "h3.byline.heading"@))[0]],
{
}

// ---------------------------------------------------------------------------
// The fandoms read back from an EPUB
proof fn lemma_last_row(e: EpubPages, labels: Set<Seq<char>>, n: nat, k: int)
    requires
        0 <= k < n <= e.tag_types.len(),
        n <= e.tag_lists.len(),
        labels.contains(tag_label(crate::strset::views(e.tag_types@)[k])),
        forall|j: int| k < j < n ==> !labels.contains(tag_label(#[trigger] crate::strset::views(e.tag_types@)[j])),
    ensures
        last_tags(e, labels, n) == crate::strset::views(e.tag_lists@[k]@),
    decreases n,
{
    if n > k + 1 {
        lemma_last_row(e, labels, (n - 1) as nat, k);
        assert(!labels.contains(tag_label(crate::strset::views(e.tag_types@)[n - 1])));
    }
}

/// The fandoms of a work read from an EPUB are the tags of its last tag row
/// labelled `Fandom:` or `Fandoms:`; both labels are read the same way.
pub proof fn law_epub_fandom_row(w: Work, e: EpubPages, fandom: Seq<char>, k: int)
    requires
        work_from_epub(w, e, fandom),
        0 <= k < row_count(e),
        tag_label(crate::strset::views(e.tag_types@)[k]) == "Fandom"@ || tag_label(crate::strset::views(e.tag_types@)[k])
            == "Fandoms"@,
        forall|j: int|
            k < j < row_count(e) ==> tag_label(#[trigger] crate::strset::views(e.tag_types@)[j]) != "Fandom"@ && tag_label(
                crate::strset::views(e.tag_types@)[j],
            ) != "Fandoms"@,
    ensures
        crate::strset::views(w.fandoms@) == crate::strset::views(e.tag_lists@[k]@),
{
    let labels = crate::routes::metadata::fandom_labels();
    assert forall|j: int| k < j < row_count(e) implies !labels.contains(tag_label(#[trigger] crate::strset::views(e.tag_types@)[j])) by {}
    lemma_last_row(e, labels, row_count(e) as nat, k);
}

// ---------------------------------------------------------------------------
// Downloads
/// A download goes through exactly when AO3 answers with a 2xx status; any
/// other answer (404, 429, 503, ...) is an error.
pub proof fn law_download_succeeds_only_on_2xx(title: Seq<char>, status: u16, response: Seq<char>)
    ensures
        download_outcome(title, status, response) is Ok <==> 200 <= status <= 299,
{
}

// ---------------------------------------------------------------------------
// Folders on a device
/// A work is filed on a device in its fandom's folder, and a work filed under
/// "Original Work" in its first author's folder inside that.
pub proof fn law_work_folder(w: Work, base: Seq<char>, filename: Seq<char>)
    requires
        w.filtered_fandom@ == "Original Work"@ ==> w.authors.len() > 0,
    ensures
        w.filtered_fandom@ == "Original Work"@ ==> push_all(base, remote_parts(Some(w), None, Some(filename))) == path_push(
            path_push(path_push(base, "Original Work"@), w.authors@[0]@),
            filename,
        ),
        w.filtered_fandom@ != "Original Work"@ ==> push_all(base, remote_parts(Some(w), None, Some(filename))) == path_push(
            path_push(base, w.filtered_fandom@),
            filename,
        ),
{
    let parts = remote_parts(Some(w), None, Some(filename));
    if w.filtered_fandom@ == "Original Work"@ {
        assert(crate::strset::views(w.authors@)[0] == w.authors@[0]@);
        assert(parts =~= seq!["Original Work"@, w.authors@[0]@, filename]);
        assert(parts.drop_last() =~= seq!["Original Work"@, w.authors@[0]@]);
        assert(parts.drop_last().drop_last() =~= seq!["Original Work"@]);
        assert(parts.drop_last().drop_last().drop_last() =~= Seq::<Seq<char>>::empty());
        reveal_with_fuel(push_all, 4);
    } else {
        assert(parts =~= seq![w.filtered_fandom@, filename]);
        assert(parts.drop_last() =~= seq![w.filtered_fandom@]);
        assert(parts.drop_last().drop_last() =~= Seq::<Seq<char>>::empty());
        reveal_with_fuel(push_all, 3);
    }
}

/// A series is filed on a device in its fandom's folder (inside it, for
/// "Original Work", its first creator's folder), then in its own folder.
pub proof fn law_series_folder(s: Series, base: Seq<char>, filename: Seq<char>)
    requires
        s.filtered_fandom@ == "Original Work"@ ==> s.creators.len() > 0,
    ensures
        s.filtered_fandom@ == "Original Work"@ ==> push_all(base, remote_parts(None, Some(s), Some(filename))) == path_push(
            path_push(path_push(path_push(base, "Original Work"@), s.creators@[0]@), s.title@),
            filename,
        ),
        s.filtered_fandom@ != "Original Work"@ ==> push_all(base, remote_parts(None, Some(s), Some(filename))) == path_push(
            path_push(path_push(base, s.filtered_fandom@), s.title@),
            filename,
        ),
{
    let parts = remote_parts(None, Some(s), Some(filename));
    if s.filtered_fandom@ == "Original Work"@ {
        assert(crate::strset::views(s.creators@)[0] == s.creators@[0]@);
        assert(parts =~= seq!["Original Work"@, s.creators@[0]@, s.title@, filename]);
        assert(parts.drop_last() =~= seq!["Original Work"@, s.creators@[0]@, s.title@]);
        assert(parts.drop_last().drop_last() =~= seq!["Original Work"@, s.creators@[0]@]);
        assert(parts.drop_last().drop_last().drop_last() =~= seq!["Original Work"@]);
        assert(parts.drop_last().drop_last().drop_last().drop_last() =~= Seq::<Seq<char>>::empty());
        reveal_with_fuel(push_all, 5);
    } else {
        assert(parts =~= seq![s.filtered_fandom@, s.title@, filename]);
        assert(parts.drop_last() =~= seq![s.filtered_fandom@, s.title@]);
        assert(parts.drop_last().drop_last() =~= seq![s.filtered_fandom@]);
        assert(parts.drop_last().drop_last().drop_last() =~= Seq::<Seq<char>>::empty());
        reveal_with_fuel(push_all, 4);
    }
}

} // verus!
