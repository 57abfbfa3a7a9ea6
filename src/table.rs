//! The comparison table: rows sorted by key, a header naming the reports, and
//! the rendering of the whole.

use vstd::prelude::*;
use itertools::Itertools;
use tabled::settings::object::Columns;
use tabled::settings::{Alignment, Modify, Style};
use crate::align::{align_reports, has_key, is_alignment, slot, AlignedRow};
use crate::cells::{cell_text, render_row};
use crate::entry::{Entry, Info};
use crate::text::lex_le;

verus! {

broadcast use vstd::seq_lib::group_to_multiset_ensures;

/// The views of a sequence of strings.
pub open spec fn texts(v: Seq<String>) -> Seq<Seq<char>> {
    v.map_values(|s: String| s@)
}

/// The views of a sequence of rows of strings.
pub open spec fn text_rows(v: Seq<Vec<String>>) -> Seq<Seq<Seq<char>>> {
    v.map_values(|row: Vec<String>| texts(row@))
}

/// The header of the table: a title, then one name per report.
pub open spec fn header_text(filenames: Seq<Seq<char>>) -> Seq<Seq<char>> {
    seq!["Deployments"@] + filenames
}

/// The slots of the row of `key`, one per report.
pub open spec fn row_columns(reports: Seq<Info>, key: Seq<char>) -> Seq<Option<Entry>> {
    Seq::new(reports.len(), |i: int| slot(reports[i], key))
}

/// `body` is the body of the table of `reports`: one row per key that some
/// report has samples for, in ascending order of key, each row holding its
/// key and then one cell per report.
pub open spec fn is_table_body(body: Seq<Seq<Seq<char>>>, reports: Seq<Info>) -> bool {
    &&& forall|k: int| 0 <= k < body.len() ==> (#[trigger] body[k]).len() == reports.len() + 1
    &&& forall|k: int| 0 <= k < body.len() ==> has_key(reports, (#[trigger] body[k])[0])
    &&& forall|key: Seq<char>|
        has_key(reports, key) ==> exists|k: int| 0 <= k < body.len() && (#[trigger] body[k])[0] == key
    &&& forall|k1: int, k2: int|
        0 <= k1 < k2 < body.len() ==> lex_le((#[trigger] body[k1])[0], (#[trigger] body[k2])[0])
            && body[k1][0] != body[k2][0]
    &&& forall|k: int, i: int|
        0 <= k < body.len() && 1 <= i <= reports.len() ==> #[trigger] body[k][i] == cell_text(
            row_columns(reports, body[k][0]),
            i - 1,
        )
}

/// What tabled renders for a header and rows of cells.
pub uninterp spec fn table_text(header: Seq<Seq<char>>, rows: Seq<Seq<Seq<char>>>) -> Seq<char>;

/// Relies on itertools' `Itertools::sorted`, which sorts with `slice::sort`
/// under `str`'s order: the same strings, in ascending order of their bytes,
/// which for UTF-8 text is the order of their characters.
#[verifier::external_body]
fn sorted_keys(keys: Vec<String>) -> (r: Vec<String>)
    ensures
        texts(r@).to_multiset() == texts(keys@).to_multiset(),
        forall|i: int, j: int| 0 <= i < j < r@.len() ==> lex_le(r@[i]@, r@[j]@),
{
    keys.into_iter().sorted().collect()
}

/// Relies on tabled's `Builder` and `Table`: a table with the given header and
/// rows in rounded borders, every column after the first aligned right.
#[verifier::external_body]
fn render_table(header: Vec<String>, rows: Vec<Vec<String>>) -> (r: String)
    ensures
        r@ == table_text(texts(header@), text_rows(rows@)),
{
    let mut builder = tabled::builder::Builder::from(rows);
    builder.set_header(header);
    builder
        .build()
        .with(Style::rounded())
        .with(Modify::new(Columns::new(1..)).with(Alignment::right()))
        .to_string()
}

/// The header of the table for reports named `filenames`.
pub fn table_header(filenames: Vec<String>) -> (r: Vec<String>)
    ensures
        texts(r@) == header_text(texts(filenames@)),
{
    let mut header: Vec<String> = Vec::new();
    header.push(String::from_str("Deployments"));
    let mut rest = filenames;
    header.append(&mut rest);
    assert(texts(header@) =~= header_text(texts(filenames@)));
    header
}

/// The rows of the table of `reports`, key first, sorted by key.
pub fn table_body(reports: Vec<Info>) -> (r: Vec<Vec<String>>)
    ensures
        is_table_body(text_rows(r@), reports@),
{
    let ghost reps = reports@;
    let n = reports.len();
    let rows = align_reports(reports);
    let ghost rs = rows@;
    let nr = rows.len();
    let mut keys: Vec<String> = Vec::new();
    let mut k: usize = 0;
    while k < nr
        invariant
            nr == rs.len(),
            rows@ == rs,
            k <= nr,
            keys@.len() == k,
            forall|j: int| 0 <= j < k ==> (#[trigger] keys@[j])@ == rs[j].key@,
        decreases nr - k,
    {
        keys.push(rows[k].key.clone());
        k = k + 1;
    }
    let ghost key_texts = texts(keys@);
    assert forall|j: int| 0 <= j < nr implies key_texts.contains(#[trigger] rs[j].key@) by {
        assert(key_texts[j] == rs[j].key@);
    }
    let sorted = sorted_keys(keys);
    let ghost st = texts(sorted@);
    let ns = sorted.len();
    assert(ns == st.len());
    let mut used: Vec<bool> = Vec::new();
    let mut k: usize = 0;
    while k < nr
        invariant
            k <= nr,
            used@.len() == k,
            forall|j: int| 0 <= j < k ==> !(#[trigger] used@[j]),
        decreases nr - k,
    {
        used.push(false);
        k = k + 1;
    }
    let mut body: Vec<Vec<String>> = Vec::new();
    let ghost mut picked: Seq<int> = Seq::empty();
    let ghost mut pos: Seq<int> = Seq::empty();
    let mut t: usize = 0;
    while t < ns
        invariant
            n == reps.len(),
            is_alignment(rs, reps),
            rows@ == rs,
            nr == rs.len(),
            ns == st.len(),
            st == texts(sorted@),
            st.to_multiset() == key_texts.to_multiset(),
            forall|j: int| 0 <= j < nr ==> key_texts.contains(#[trigger] rs[j].key@),
            key_texts.len() == nr,
            forall|j: int| 0 <= j < nr ==> #[trigger] key_texts[j] == rs[j].key@,
            forall|i: int, j: int| 0 <= i < j < ns ==> lex_le(sorted@[i]@, sorted@[j]@),
            t <= ns,
            used@.len() == nr,
            picked.len() == body@.len(),
            pos.len() == body@.len(),
            forall|b: int|
                0 <= b < body@.len() ==> {
                    &&& 0 <= #[trigger] picked[b] < nr
                    &&& 0 <= pos[b] < t
                    &&& used@[picked[b]]
                    &&& rs[picked[b]].key@ == st[pos[b]]
                    &&& texts(body@[b]@) == seq![rs[picked[b]].key@] + Seq::new(
                        n as nat,
                        |i: int| cell_text(rs[picked[b]].columns@, i),
                    )
                },
            forall|b1: int, b2: int|
                #![trigger pos[b1], pos[b2]]
                0 <= b1 < b2 < body@.len() ==> pos[b1] < pos[b2] && picked[b1] != picked[b2],
            forall|j: int|
                0 <= j < nr && #[trigger] used@[j] ==> exists|b: int|
                    0 <= b < body@.len() && picked[b] == j,
            forall|j: int, s: int|
                #![trigger used@[j], st[s]]
                0 <= j < nr && 0 <= s < t && rs[j].key@ == st[s] ==> used@[j],
        decreases ns - t,
    {
        assert(st[t as int] == sorted@[t as int]@);
        assert(st.contains(st[t as int]));
        proof {
            st.to_multiset_ensures();
            key_texts.to_multiset_ensures();
        }
        assert(st.to_multiset().count(st[t as int]) > 0);
        assert(key_texts.to_multiset().count(st[t as int]) > 0);
        assert(key_texts.contains(st[t as int]));
        let mut j: usize = 0;
        while j < nr
            invariant
                nr == rs.len(),
                rows@ == rs,
                j <= nr,
                t < ns,
                ns == sorted@.len(),
                forall|i: int| 0 <= i < j ==> (#[trigger] rs[i]).key@ != sorted@[t as int]@,
            ensures
                j <= nr,
                forall|i: int| 0 <= i < j ==> (#[trigger] rs[i]).key@ != sorted@[t as int]@,
                j < nr ==> rs[j as int].key@ == sorted@[t as int]@,
            decreases nr - j,
        {
            if rows[j].key == sorted[t] {
                break;
            }
            j = j + 1;
        }
        proof {
            if j == nr {
                let i = choose|i: int| 0 <= i < key_texts.len() && key_texts[i] == st[t as int];
                assert(key_texts[i] == rs[i].key@);
            }
        }
        if !used[j] {
            let row = render_row(&rows[j]);
            let ghost cols = rs[j as int].columns@;
            assert(texts(row@) =~= seq![rs[j as int].key@] + Seq::new(
                n as nat,
                |i: int| cell_text(cols, i),
            )) by {
                assert forall|i: int| 0 <= i < n implies texts(row@)[i + 1] == cell_text(cols, i) by {
                    assert(row@[i + 1]@ == cell_text(cols, i));
                }
            }
            let ghost old_used = used@;
            let ghost old_picked = picked;
            let ghost old_len = body@.len();
            used.set(j, true);
            proof {
                assert forall|b: int| 0 <= b < body@.len() implies picked[b] != j by {
                    assert(old_used[picked[b]]);
                }
                picked = picked.push(j as int);
                pos = pos.push(t as int);
            }
            body.push(row);
            proof {
                let bl = body@.len() - 1;
                assert(picked[bl] == j);
                assert forall|b: int| 0 <= b < body@.len() implies {
                    &&& 0 <= #[trigger] picked[b] < nr
                    &&& 0 <= pos[b] < t + 1
                    &&& used@[picked[b]]
                    &&& rs[picked[b]].key@ == st[pos[b]]
                    &&& texts(body@[b]@) == seq![rs[picked[b]].key@] + Seq::new(
                        n as nat,
                        |i: int| cell_text(rs[picked[b]].columns@, i),
                    )
                } by {
                    if b < bl {
                        assert(old_picked[b] == picked[b]);
                        assert(old_used[picked[b]]);
                    }
                }
                assert forall|b1: int, b2: int|
                    #![trigger pos[b1], pos[b2]]
                    0 <= b1 < b2 < body@.len() implies pos[b1] < pos[b2] && picked[b1] != picked[b2] by {
                    if b2 == bl {
                        assert(old_picked[b1] != j);
                        assert(0 <= pos[b1] < t);
                    } else {
                        assert(old_picked[b1] != old_picked[b2]);
                    }
                }
                assert forall|jj: int| 0 <= jj < nr && #[trigger] used@[jj] implies exists|b: int|
                    0 <= b < body@.len() && picked[b] == jj by {
                    if jj != j {
                        assert(old_used[jj]);
                        let b = choose|b: int| 0 <= b < old_len && old_picked[b] == jj;
                        assert(picked[b] == jj);
                    }
                }
            }
        }
        proof {
            assert forall|jj: int, s: int|
                #![trigger used@[jj], st[s]]
                0 <= jj < nr && 0 <= s < t + 1 && rs[jj].key@ == st[s] implies used@[jj] by {
                if s == t {
                    if jj != j {
                        assert(rs[jj].key@ != rs[j as int].key@);
                    }
                }
            }
        }
        t = t + 1;
    }
    proof {
        let tb = text_rows(body@);
        assert forall|k: int| 0 <= k < tb.len() implies #[trigger] tb[k] == seq![rs[picked[k]].key@]
            + Seq::new(n as nat, |i: int| cell_text(rs[picked[k]].columns@, i)) by {}
        assert forall|k: int| 0 <= k < tb.len() implies rs[picked[k]].columns@ =~= row_columns(
            reps,
            (#[trigger] tb[k])[0],
        ) by {
            assert(tb[k][0] == rs[picked[k]].key@);
        }
        assert forall|key: Seq<char>| has_key(reps, key) implies exists|k: int|
            0 <= k < tb.len() && (#[trigger] tb[k])[0] == key by {
            let jj = choose|jj: int| 0 <= jj < nr && (#[trigger] rs[jj]).key@ == key;
            assert(key_texts.contains(rs[jj].key@));
            st.to_multiset_ensures();
            key_texts.to_multiset_ensures();
            assert(key_texts.to_multiset().count(rs[jj].key@) > 0);
            assert(st.to_multiset().count(rs[jj].key@) > 0);
            assert(st.contains(rs[jj].key@));
            let s = choose|s: int| 0 <= s < st.len() && st[s] == rs[jj].key@;
            assert(used@[jj]);
            let b = choose|b: int| 0 <= b < body@.len() && picked[b] == jj;
            assert(tb[b][0] == key);
        }
        assert forall|k1: int, k2: int| 0 <= k1 < k2 < tb.len() implies lex_le(
            (#[trigger] tb[k1])[0],
            (#[trigger] tb[k2])[0],
        ) && tb[k1][0] != tb[k2][0] by {
            assert(pos[k1] < pos[k2]);
            assert(lex_le(sorted@[pos[k1]]@, sorted@[pos[k2]]@));
            assert(picked[k1] != picked[k2]);
        }
    }
    body
}

/// The header and body of the table comparing `reports`, named by
/// `filenames`.
pub fn table_cells(filenames: Vec<String>, reports: Vec<Info>) -> (r: (
    Vec<String>,
    Vec<Vec<String>>,
))
    ensures
        texts(r.0@) == header_text(texts(filenames@)),
        is_table_body(text_rows(r.1@), reports@),
{
    (table_header(filenames), table_body(reports))
}

/// The rendered table comparing `reports`, named by `filenames`.
pub fn render_report(filenames: Vec<String>, reports: Vec<Info>) -> (r: String)
    ensures
        exists|body: Seq<Seq<Seq<char>>>|
            is_table_body(body, reports@) && r@ == table_text(
                header_text(texts(filenames@)),
                body,
            ),
{
    let (header, body) = table_cells(filenames, reports);
    let ghost tb = text_rows(body@);
    let r = render_table(header, body);
    assert(is_table_body(tb, reports@) && r@ == table_text(header_text(texts(filenames@)), tb));
    r
}

} // verus!
