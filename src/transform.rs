//! The transform engine: keep the records of the chosen wells from a start
//! year on, order them by well and time, and list the wells that remain.
use vstd::prelude::*;

use crate::ingest::has_well;
use crate::record::{records_view, Record, RecordView, Timestamp};
use crate::sets::insert_name;
use crate::text::{
    compare_text, holds_text, lemma_text_lt_total, lemma_text_lt_transitive,
    strictly_ascending_text, text_equals, text_lt, views_of,
};

verus! {

/// Whether a record is kept for the given start year and well selection.
pub open spec fn keep(r: RecordView, start_year: i32, selected: Seq<String>) -> bool {
    r.sheet_year >= start_year && holds_text(selected, r.well_name)
}

/// The kept records, in their input order.
pub open spec fn filtered(s: Seq<RecordView>, start_year: i32, selected: Seq<String>) -> Seq<
    RecordView,
>
    decreases s.len(),
{
    if s.len() == 0 {
        Seq::empty()
    } else {
        let prev = filtered(s.drop_last(), start_year, selected);
        if keep(s.last(), start_year, selected) {
            prev.push(s.last())
        } else {
            prev
        }
    }
}

/// Time order on optional timestamps; an absent time comes first.
pub open spec fn stamp_le(a: Option<Timestamp>, b: Option<Timestamp>) -> bool {
    match (a, b) {
        (None, _) => true,
        (Some(_), None) => false,
        (Some(x), Some(y)) => x.secs < y.secs || (x.secs == y.secs && x.nanos <= y.nanos),
    }
}

/// Order of records by well name, then by time.
pub open spec fn key_le(a: RecordView, b: RecordView) -> bool {
    text_lt(a.well_name, b.well_name) || (a.well_name == b.well_name && stamp_le(
        a.timestamp,
        b.timestamp,
    ))
}

/// Inserts `x` into `s` after every element that does not sort after it.
pub open spec fn insert_by_key(s: Seq<RecordView>, x: RecordView) -> Seq<RecordView>
    decreases s.len(),
{
    if s.len() == 0 {
        seq![x]
    } else if key_le(s.last(), x) {
        s.push(x)
    } else {
        insert_by_key(s.drop_last(), x).push(s.last())
    }
}

/// Stable sort by well name and time: records with the same key keep their
/// relative order.
pub open spec fn sorted_by_key(s: Seq<RecordView>) -> Seq<RecordView>
    decreases s.len(),
{
    if s.len() == 0 {
        Seq::empty()
    } else {
        insert_by_key(sorted_by_key(s.drop_last()), s.last())
    }
}

/// Every record is in order with every later one.
pub open spec fn in_key_order(s: Seq<RecordView>) -> bool {
    forall|i: int, j: int| 0 <= i < j < s.len() ==> key_le(#[trigger] s[i], #[trigger] s[j])
}

/// Whether a name is among the given names.
pub fn contains_name(v: &Vec<String>, w: &str) -> (r: bool)
    ensures
        r == holds_text(v@, w@),
{
    let mut i: usize = 0;
    while i < v.len()
        invariant
            i <= v@.len(),
            forall|j: int| 0 <= j < i ==> #[trigger] v@[j]@ != w@,
        decreases v@.len() - i,
    {
        if text_equals(v[i].as_str(), w) {
            return true;
        }
        i = i + 1;
    }
    false
}

fn stamp_le_exec(a: Option<Timestamp>, b: Option<Timestamp>) -> (r: bool)
    ensures
        r == stamp_le(a, b),
{
    match (a, b) {
        (None, _) => true,
        (Some(_), None) => false,
        (Some(x), Some(y)) => x.secs < y.secs || (x.secs == y.secs && x.nanos <= y.nanos),
    }
}

fn key_le_exec(a: &Record, b: &Record) -> (r: bool)
    ensures
        r == key_le(a@, b@),
{
    let c: i8 = compare_text(a.well_name.as_str(), b.well_name.as_str());
    c < 0 || (c == 0 && stamp_le_exec(a.timestamp, b.timestamp))
}

/// Places a record into a vector already built by `sorted_by_key`.
fn insert_sorted(res: &mut Vec<Record>, x: Record)
    ensures
        records_view(final(res)@) == insert_by_key(records_view(old(res)@), x@),
{
    let ghost s = records_view(res@);
    let mut p: usize = res.len();
    assert(s.take(p as int) =~= s);
    assert(s.skip(p as int) =~= Seq::<RecordView>::empty());
    while p > 0 && !key_le_exec(&res[p - 1], &x)
        invariant
            res@ == old(res)@,
            s == records_view(res@),
            p <= res@.len(),
            insert_by_key(s, x@) == insert_by_key(s.take(p as int), x@) + s.skip(p as int),
        decreases p,
    {
        let ghost t = s.take(p as int);
        assert(t.drop_last() =~= s.take(p - 1));
        assert(t.last() == s[p - 1]);
        assert(insert_by_key(s.take(p - 1), x@).push(s[p - 1]) + s.skip(p as int)
            =~= insert_by_key(s.take(p - 1), x@) + s.skip(p - 1));
        p = p - 1;
    }
    let ghost xv = x@;
    res.insert(p, x);
    assert(records_view(res@) =~= insert_by_key(s, xv));
}

/// The records kept for a start year and a well selection, in their
/// input order.
pub fn filter_records(records: &Vec<Record>, start_year: i32, selected: &Vec<String>) -> (r: Vec<
    Record,
>)
    ensures
        records_view(r@) == filtered(records_view(records@), start_year, selected@),
{
    let ghost s = records_view(records@);
    let mut out: Vec<Record> = Vec::new();
    let mut i: usize = 0;
    while i < records.len()
        invariant
            i <= records@.len(),
            s == records_view(records@),
            records_view(out@) == filtered(s.take(i as int), start_year, selected@),
        decreases records@.len() - i,
    {
        let ghost t = s.take(i + 1);
        assert(t.drop_last() =~= s.take(i as int));
        let rec = &records[i];
        if rec.sheet_year >= start_year && contains_name(selected, rec.well_name.as_str()) {
            let ghost before = records_view(out@);
            out.push(rec.copy());
            assert(records_view(out@) =~= before.push(rec@));
        }
        i = i + 1;
    }
    assert(s.take(i as int) =~= s);
    out
}

/// Stable sort of records by well name, then time, an absent time first.
pub fn sort_records(records: &Vec<Record>) -> (r: Vec<Record>)
    ensures
        records_view(r@) == sorted_by_key(records_view(records@)),
{
    let ghost s = records_view(records@);
    let mut out: Vec<Record> = Vec::new();
    let mut i: usize = 0;
    while i < records.len()
        invariant
            i <= records@.len(),
            s == records_view(records@),
            records_view(out@) == sorted_by_key(s.take(i as int)),
        decreases records@.len() - i,
    {
        let ghost t = s.take(i + 1);
        assert(t.drop_last() =~= s.take(i as int));
        insert_sorted(&mut out, records[i].copy());
        i = i + 1;
    }
    assert(s.take(i as int) =~= s);
    out
}

/// The distinct well names of the records, in ascending order.
pub fn wells_of(records: &Vec<Record>) -> (r: Vec<String>)
    ensures
        strictly_ascending_text(views_of(r@)),
        forall|w: Seq<char>| #[trigger] holds_text(r@, w) == has_well(records_view(records@), w),
{
    let ghost s = records_view(records@);
    let mut out: Vec<String> = Vec::new();
    let mut i: usize = 0;
    while i < records.len()
        invariant
            i <= records@.len(),
            s == records_view(records@),
            strictly_ascending_text(views_of(out@)),
            forall|w: Seq<char>| #[trigger] holds_text(out@, w) == has_well(s.take(i as int), w),
        decreases records@.len() - i,
    {
        let ghost t = s.take(i + 1);
        assert(t =~= s.take(i as int).push(s[i as int]));
        proof {
            crate::ingest::lemma_has_well_push(s.take(i as int), s[i as int]);
        }
        insert_name(&mut out, records[i].well_name.clone());
        i = i + 1;
    }
    assert(s.take(i as int) =~= s);
    out
}

/// A record is among the kept ones exactly when it is among the input and
/// passes the year and well tests.
pub proof fn lemma_filtered_contains(s: Seq<RecordView>, start_year: i32, selected: Seq<String>)
    ensures
        forall|r: RecordView| #[trigger]
            filtered(s, start_year, selected).contains(r) <==> (s.contains(r) && keep(
                r,
                start_year,
                selected,
            )),
    decreases s.len(),
{
    if s.len() > 0 {
        let d = s.drop_last();
        lemma_filtered_contains(d, start_year, selected);
        let prev = filtered(d, start_year, selected);
        assert forall|r: RecordView| #[trigger]
            filtered(s, start_year, selected).contains(r) <==> (s.contains(r) && keep(
                r,
                start_year,
                selected,
            )) by {
            if s.contains(r) {
                let k = choose|k: int| 0 <= k < s.len() && s[k] == r;
                if k < s.len() - 1 {
                    assert(d[k] == r);
                }
            }
            if d.contains(r) {
                let k = choose|k: int| 0 <= k < d.len() && d[k] == r;
                assert(s[k] == r);
            }
            if keep(s.last(), start_year, selected) {
                let n = prev.push(s.last());
                if n.contains(r) {
                    let k = choose|k: int| 0 <= k < n.len() && n[k] == r;
                    if k < prev.len() {
                        assert(prev[k] == r);
                    }
                }
                if prev.contains(r) {
                    let k = choose|k: int| 0 <= k < prev.len() && prev[k] == r;
                    assert(n[k] == r);
                }
                if r == s.last() {
                    assert(n[prev.len() as int] == r);
                }
            }
        }
    }
}

/// Filtering is monotone in the start year: with the same well selection, a
/// later start year keeps no record that an earlier one drops.
pub proof fn lemma_filter_monotone(
    s: Seq<RecordView>,
    start_a: i32,
    start_b: i32,
    selected: Seq<String>,
)
    requires
        start_a <= start_b,
    ensures
        forall|r: RecordView| #[trigger]
            filtered(s, start_b, selected).contains(r) ==> filtered(s, start_a, selected).contains(
                r,
            ),
{
    lemma_filtered_contains(s, start_a, selected);
    lemma_filtered_contains(s, start_b, selected);
}

pub proof fn lemma_key_total(a: RecordView, b: RecordView)
    ensures
        key_le(a, b) || key_le(b, a),
{
    lemma_text_lt_total(a.well_name, b.well_name);
}

pub proof fn lemma_key_transitive(a: RecordView, b: RecordView, c: RecordView)
    requires
        key_le(a, b),
        key_le(b, c),
    ensures
        key_le(a, c),
{
    if text_lt(a.well_name, b.well_name) && text_lt(b.well_name, c.well_name) {
        lemma_text_lt_transitive(a.well_name, b.well_name, c.well_name);
    }
}

proof fn lemma_insert_below(s: Seq<RecordView>, x: RecordView, m: RecordView)
    requires
        forall|i: int| 0 <= i < s.len() ==> key_le(#[trigger] s[i], m),
        key_le(x, m),
    ensures
        forall|i: int|
            0 <= i < insert_by_key(s, x).len() ==> key_le(#[trigger] insert_by_key(s, x)[i], m),
    decreases s.len(),
{
    if s.len() > 0 && !key_le(s.last(), x) {
        let d = s.drop_last();
        assert forall|i: int| 0 <= i < d.len() implies key_le(#[trigger] d[i], m) by {
            assert(d[i] == s[i]);
        }
        lemma_insert_below(d, x, m);
        let inner = insert_by_key(d, x);
        let n = inner.push(s.last());
        assert forall|i: int| 0 <= i < n.len() implies key_le(#[trigger] n[i], m) by {
            if i < inner.len() {
                assert(n[i] == inner[i]);
            } else {
                assert(n[i] == s[s.len() - 1]);
            }
        }
    } else if s.len() > 0 {
        let n = s.push(x);
        assert forall|i: int| 0 <= i < n.len() implies key_le(#[trigger] n[i], m) by {
            if i < s.len() {
                assert(n[i] == s[i]);
            }
        }
    }
}

proof fn lemma_insert_keeps_order(s: Seq<RecordView>, x: RecordView)
    requires
        in_key_order(s),
    ensures
        in_key_order(insert_by_key(s, x)),
    decreases s.len(),
{
    if s.len() == 0 {
    } else if key_le(s.last(), x) {
        let n = s.push(x);
        assert forall|i: int, j: int| 0 <= i < j < n.len() implies key_le(
            #[trigger] n[i],
            #[trigger] n[j],
        ) by {
            if j == s.len() && i < s.len() - 1 {
                lemma_key_transitive(s[i], s.last(), x);
            }
        }
    } else {
        let d = s.drop_last();
        assert(in_key_order(d)) by {
            assert forall|i: int, j: int| 0 <= i < j < d.len() implies key_le(
                #[trigger] d[i],
                #[trigger] d[j],
            ) by {
                assert(d[i] == s[i] && d[j] == s[j]);
            }
        }
        lemma_insert_keeps_order(d, x);
        lemma_key_total(s.last(), x);
        assert forall|i: int| 0 <= i < d.len() implies key_le(#[trigger] d[i], s.last()) by {
            assert(d[i] == s[i]);
        }
        lemma_insert_below(d, x, s.last());
        let inner = insert_by_key(d, x);
        let n = inner.push(s.last());
        assert forall|i: int, j: int| 0 <= i < j < n.len() implies key_le(
            #[trigger] n[i],
            #[trigger] n[j],
        ) by {
            if j < inner.len() {
                assert(n[i] == inner[i] && n[j] == inner[j]);
            } else {
                assert(n[i] == inner[i]);
            }
        }
    }
}

/// What `sorted_by_key` returns is in key order.
pub proof fn lemma_sorted_in_order(s: Seq<RecordView>)
    ensures
        in_key_order(sorted_by_key(s)),
    decreases s.len(),
{
    if s.len() > 0 {
        lemma_sorted_in_order(s.drop_last());
        lemma_insert_keeps_order(sorted_by_key(s.drop_last()), s.last());
    }
}

/// Sorting records that are already in key order leaves them as they are.
pub proof fn lemma_sort_of_ordered(s: Seq<RecordView>)
    requires
        in_key_order(s),
    ensures
        sorted_by_key(s) == s,
    decreases s.len(),
{
    if s.len() > 0 {
        let d = s.drop_last();
        assert(in_key_order(d)) by {
            assert forall|i: int, j: int| 0 <= i < j < d.len() implies key_le(
                #[trigger] d[i],
                #[trigger] d[j],
            ) by {
                assert(d[i] == s[i] && d[j] == s[j]);
            }
        }
        lemma_sort_of_ordered(d);
        if d.len() == 0 {
            assert(seq![s.last()] =~= s);
        } else {
            assert(key_le(d.last(), s.last()));
            assert(d.push(s.last()) =~= s);
        }
    }
}

/// Sorting is idempotent: sorting sorted records gives them back unchanged.
pub proof fn lemma_sort_idempotent(s: Seq<RecordView>)
    ensures
        sorted_by_key(sorted_by_key(s)) == sorted_by_key(s),
{
    lemma_sorted_in_order(s);
    lemma_sort_of_ordered(sorted_by_key(s));
}

/// Two records have the same sort key: the same well name and time.
pub open spec fn same_key(a: RecordView, b: RecordView) -> bool {
    a.well_name == b.well_name && a.timestamp == b.timestamp
}

/// The records that share the key of `k`, in their order.
pub open spec fn with_key(s: Seq<RecordView>, k: RecordView) -> Seq<RecordView>
    decreases s.len(),
{
    if s.len() == 0 {
        Seq::empty()
    } else {
        let prev = with_key(s.drop_last(), k);
        if same_key(s.last(), k) {
            prev.push(s.last())
        } else {
            prev
        }
    }
}

proof fn lemma_insert_multiset(s: Seq<RecordView>, x: RecordView)
    ensures
        insert_by_key(s, x).to_multiset() =~= s.to_multiset().insert(x),
    decreases s.len(),
{
    broadcast use vstd::seq_lib::group_to_multiset_ensures;

    if s.len() == 0 {
        assert(seq![x] =~= Seq::<RecordView>::empty().push(x));
    } else {
        let d = s.drop_last();
        assert(s =~= d.push(s.last()));
        if !key_le(s.last(), x) {
            lemma_insert_multiset(d, x);
        }
    }
}

/// Sorting keeps every record: the output holds the same records, each
/// as many times, as the input.
pub proof fn lemma_sort_keeps_records(s: Seq<RecordView>)
    ensures
        sorted_by_key(s).to_multiset() =~= s.to_multiset(),
    decreases s.len(),
{
    broadcast use vstd::seq_lib::group_to_multiset_ensures;

    if s.len() > 0 {
        let d = s.drop_last();
        lemma_sort_keeps_records(d);
        lemma_insert_multiset(sorted_by_key(d), s.last());
        assert(s =~= d.push(s.last()));
    }
}

proof fn lemma_insert_with_key(s: Seq<RecordView>, x: RecordView, k: RecordView)
    ensures
        same_key(x, k) ==> with_key(insert_by_key(s, x), k) == with_key(s, k).push(x),
        !same_key(x, k) ==> with_key(insert_by_key(s, x), k) == with_key(s, k),
    decreases s.len(),
{
    if s.len() == 0 {
        let one = seq![x];
        assert(one.drop_last() =~= Seq::<RecordView>::empty());
        assert(with_key(s, k) =~= Seq::<RecordView>::empty());
        assert(with_key(Seq::<RecordView>::empty(), k) =~= Seq::<RecordView>::empty());
        assert(with_key(one, k) == if same_key(x, k) {
            with_key(one.drop_last(), k).push(x)
        } else {
            with_key(one.drop_last(), k)
        });
        assert(insert_by_key(s, x) == one);
        assert(one.last() == x);
    } else if key_le(s.last(), x) {
        assert(s.push(x).drop_last() =~= s);
        assert(s.push(x).last() == x);
    } else {
        let d = s.drop_last();
        lemma_insert_with_key(d, x, k);
        let inner = insert_by_key(d, x);
        assert(inner.push(s.last()).drop_last() =~= inner);
        if same_key(x, k) && same_key(s.last(), k) {
            assert(stamp_le(s.last().timestamp, x.timestamp));
            assert(key_le(s.last(), x));
        }
        assert(insert_by_key(s, x) == inner.push(s.last()));
        assert(with_key(inner.push(s.last()), k) == if same_key(s.last(), k) {
            with_key(inner, k).push(s.last())
        } else {
            with_key(inner, k)
        });
        assert(with_key(s, k) == if same_key(s.last(), k) {
            with_key(d, k).push(s.last())
        } else {
            with_key(d, k)
        });
    }
}

/// Sorting is stable: records that share a key come out in the order they
/// came in.
pub proof fn lemma_sort_stable(s: Seq<RecordView>, k: RecordView)
    ensures
        with_key(sorted_by_key(s), k) == with_key(s, k),
    decreases s.len(),
{
    if s.len() > 0 {
        lemma_sort_stable(s.drop_last(), k);
        lemma_insert_with_key(sorted_by_key(s.drop_last()), s.last(), k);
    }
}

/// Filtering is monotone in the start year counted with repeats: a later
/// start year keeps each record at most as often as an earlier one.
pub proof fn lemma_filter_sub_multiset(
    s: Seq<RecordView>,
    start_a: i32,
    start_b: i32,
    selected: Seq<String>,
)
    requires
        start_a <= start_b,
    ensures
        filtered(s, start_b, selected).to_multiset().subset_of(
            filtered(s, start_a, selected).to_multiset(),
        ),
    decreases s.len(),
{
    broadcast use vstd::seq_lib::group_to_multiset_ensures;
    broadcast use vstd::multiset::group_multiset_axioms;

    if s.len() > 0 {
        lemma_filter_sub_multiset(s.drop_last(), start_a, start_b, selected);
    }
}

/// Records already in key order stay in key order when filtered.
pub proof fn lemma_filtered_in_order(s: Seq<RecordView>, start_year: i32, selected: Seq<String>)
    requires
        in_key_order(s),
    ensures
        in_key_order(filtered(s, start_year, selected)),
    decreases s.len(),
{
    if s.len() > 0 {
        let d = s.drop_last();
        assert(in_key_order(d)) by {
            assert forall|i: int, j: int| 0 <= i < j < d.len() implies key_le(
                #[trigger] d[i],
                #[trigger] d[j],
            ) by {
                assert(d[i] == s[i] && d[j] == s[j]);
            }
        }
        lemma_filtered_in_order(d, start_year, selected);
        lemma_filtered_contains(d, start_year, selected);
        let prev = filtered(d, start_year, selected);
        if keep(s.last(), start_year, selected) {
            let n = prev.push(s.last());
            assert forall|i: int, j: int| 0 <= i < j < n.len() implies key_le(
                #[trigger] n[i],
                #[trigger] n[j],
            ) by {
                if j < prev.len() {
                    assert(n[i] == prev[i] && n[j] == prev[j]);
                } else {
                    assert(n[i] == prev[i]);
                    assert(prev.contains(prev[i]));
                    let k = choose|k: int| 0 <= k < d.len() && d[k] == prev[i];
                    assert(s[k] == d[k]);
                    assert(key_le(s[k], s[s.len() - 1]));
                }
            }
        }
    }
}

} // verus!
