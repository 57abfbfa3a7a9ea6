//! Properties of the comparison that hold for all reports.

use vstd::prelude::*;
use crate::align::{entry_key, has_key, last_with_key, method_key_text, report_entries, slot};
use crate::cells::{absolute_cell, cell_text, delta_cell, present, ratio_text, trend, Trend};
use crate::entry::{average, Entry, Info, RawMethod};
use crate::table::{is_table_body, row_columns};
use crate::text::{decimal, digit_text, pad_left, signed_int_text, tenths_text};

verus! {

proof fn lemma_last_with_key(es: Seq<Entry>, key: Seq<char>)
    ensures
        last_with_key(es, key) is Some ==> {
            let e = last_with_key(es, key)->0;
            &&& es.contains(e)
            &&& e.gas().len() > 0
            &&& entry_key(e) == key
        },
        (exists|e: Entry| es.contains(e) && e.gas().len() > 0 && entry_key(e) == key)
            ==> last_with_key(es, key) is Some,
    decreases es.len(),
{
    if es.len() > 0 {
        lemma_last_with_key(es.drop_last(), key);
        if last_with_key(es, key) is Some && !(es.last().gas().len() > 0 && entry_key(es.last())
            == key) {
            let e = last_with_key(es, key)->0;
            let i = choose|i: int| 0 <= i < es.drop_last().len() && es.drop_last()[i] == e;
            assert(es[i] == e);
        }
        if exists|e: Entry| es.contains(e) && e.gas().len() > 0 && entry_key(e) == key {
            let e = choose|e: Entry| es.contains(e) && e.gas().len() > 0 && entry_key(e) == key;
            let i = choose|i: int| 0 <= i < es.len() && es[i] == e;
            if i < es.len() - 1 {
                assert(es.drop_last()[i] == e);
            }
        }
    }
}

/// An entry without samples is never shown: every filled slot of a table row
/// is an entry of its report with samples and with the row's key, and a row
/// exists only for a key that some report has an entry with samples for.
pub proof fn empty_entries_never_shown(body: Seq<Seq<Seq<char>>>, reports: Seq<Info>, k: int)
    requires
        is_table_body(body, reports),
        0 <= k < body.len(),
    ensures
        forall|i: int|
            0 <= i < reports.len() && (#[trigger] row_columns(reports, body[k][0])[i]) is Some
                ==> {
                let e = row_columns(reports, body[k][0])[i]->0;
                &&& report_entries(reports[i]).contains(e)
                &&& e.gas().len() > 0
                &&& entry_key(e) == body[k][0]
            },
        exists|i: int, e: Entry|
            0 <= i < reports.len() && (#[trigger] report_entries(reports[i]).contains(e))
                && e.gas().len() > 0 && entry_key(e) == body[k][0],
{
    let key = body[k][0];
    assert forall|i: int|
        0 <= i < reports.len() && (#[trigger] row_columns(reports, key)[i]) is Some implies {
        let e = row_columns(reports, key)[i]->0;
        &&& report_entries(reports[i]).contains(e)
        &&& e.gas().len() > 0
        &&& entry_key(e) == key
    } by {
        lemma_last_with_key(report_entries(reports[i]), key);
    }
    assert(has_key(reports, key));
    let i = choose|i: int| 0 <= i < reports.len() && (#[trigger] slot(reports[i], key)) is Some;
    lemma_last_with_key(report_entries(reports[i]), key);
    let e = slot(reports[i], key)->0;
    assert(report_entries(reports[i]).contains(e) && e.gas().len() > 0 && entry_key(e) == key);
}

/// A report that has an entry with samples under some key gives that key a
/// row of the table.
pub proof fn entries_with_samples_are_shown(
    body: Seq<Seq<Seq<char>>>,
    reports: Seq<Info>,
    i: int,
    e: Entry,
)
    requires
        is_table_body(body, reports),
        0 <= i < reports.len(),
        report_entries(reports[i]).contains(e),
        e.gas().len() > 0,
    ensures
        exists|k: int| 0 <= k < body.len() && (#[trigger] body[k])[0] == entry_key(e),
{
    lemma_last_with_key(report_entries(reports[i]), entry_key(e));
    assert(slot(reports[i], entry_key(e)) is Some);
    assert(has_key(reports, entry_key(e)));
}

/// Without data in the first column, a row has no baseline: each filled
/// column shows its average in absolute form.
pub proof fn no_baseline_means_absolute(cols: Seq<Option<Entry>>, i: int)
    requires
        0 <= i < cols.len(),
        !present(cols[0]),
        present(cols[i]),
    ensures
        cell_text(cols, i) == absolute_cell(average(cols[i]->0.gas())),
{
}

/// The text of an unchanged, positive average against itself.
pub open spec fn unchanged_cell() -> Seq<char> {
    "\x1b[0m+0 ( +0.0%)\x1b[0m"@
}

/// Comparing a report with itself: in every row the second column shows the
/// first column's average against itself, with no trend, which for a positive
/// average reads `+0 ( +0.0%)`.
pub proof fn same_report_twice_shows_no_change(body: Seq<Seq<Seq<char>>>, r: Info, k: int)
    requires
        is_table_body(body, seq![r, r]),
        0 <= k < body.len(),
    ensures
        ({
            let cols = row_columns(seq![r, r], body[k][0]);
            let a = average(cols[0]->0.gas());
            &&& present(cols[0]) && present(cols[1])
            &&& body[k][2] == delta_cell(a, a)
            &&& trend(a, a) == Trend::Neutral
            &&& a > 0 ==> body[k][2] == unchanged_cell()
        }),
{
    let reports = seq![r, r];
    let key = body[k][0];
    let cols = row_columns(reports, key);
    empty_entries_never_shown(body, reports, k);
    assert(has_key(reports, key));
    let i = choose|i: int| 0 <= i < reports.len() && (#[trigger] slot(reports[i], key)) is Some;
    assert(reports[i] == r);
    assert(cols[0] == slot(r, key));
    assert(cols[1] == slot(r, key));
    lemma_last_with_key(report_entries(r), key);
    assert(body[k][2] == cell_text(cols, 1));
    let a = average(cols[0]->0.gas());
    if a > 0 {
        reveal_strlit("\x1b[");
        reveal_strlit("m");
        reveal_strlit(" (");
        reveal_strlit("%)\x1b[0m");
        reveal_strlit("\x1b[0m+0 ( +0.0%)\x1b[0m");
        reveal_strlit("0");
        reveal_strlit("+");
        reveal_strlit(".");
        assert(decimal(0) == digit_text(0));
        assert((2 * 0 + a) / (2 * a) == 0) by (nonlinear_arith)
            requires
                a > 0,
        ;
        let t = ratio_text(false, true, 0);
        assert(tenths_text(0) =~= "0.0"@) by {
            reveal_strlit("0.0");
        }
        assert(t =~= "+0.0"@) by {
            reveal_strlit("+0.0");
        }
        assert(pad_left(t, 5) =~= " +0.0"@) by {
            reveal_strlit(" +0.0");
        }
        assert(signed_int_text(0) =~= "+0"@) by {
            reveal_strlit("+0");
        }
        assert(delta_cell(a, a) =~= unchanged_cell());
    }
}

/// The key of a method is determined by its contract and method names alone:
/// the same pair in any two reports falls in the same row.
pub proof fn method_key_is_stable(a: RawMethod, b: RawMethod)
    requires
        a.method.contract@ == b.method.contract@,
        a.method.method@ == b.method.method@,
    ensures
        entry_key(Entry::Method(a)) == entry_key(Entry::Method(b)),
        entry_key(Entry::Method(a)) == method_key_text(a.method.contract@, a.method.method@),
{
}

} // verus!
