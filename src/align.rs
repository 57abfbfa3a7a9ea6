//! Alignment of the entries of several reports into rows keyed by display
//! name, one column per report.

use vstd::prelude::*;
use crate::entry::{Entry, Info, RawDeployment, RawMethod};

verus! {

/// The entries of all reports that share one display key, one slot per
/// report.
#[derive(Debug)]
pub struct AlignedRow {
    pub key: String,
    pub columns: Vec<Option<Entry>>,
}

/// The display key of a method: the contract name in a dim style, a dot, and
/// the method name.
pub open spec fn method_key_text(contract: Seq<char>, method: Seq<char>) -> Seq<char> {
    "\x1b[90m"@ + contract + ".\x1b[0m"@ + method
}

/// The display key of an entry: a deployment's name, or a method's key.
pub open spec fn entry_key(e: Entry) -> Seq<char> {
    match e {
        Entry::Deployment(d) => d.name@,
        Entry::Method(m) => method_key_text(m.method.contract@, m.method.method@),
    }
}

/// The entries of a report in the order they are taken in: its deployments,
/// then its methods.
pub open spec fn report_entries(r: Info) -> Seq<Entry> {
    r.deployments@.map_values(|d: RawDeployment| Entry::Deployment(d)) + r.methods@.map_values(
        |m: RawMethod| Entry::Method(m),
    )
}

/// The last entry of `es` with samples whose display key is `key`.
pub open spec fn last_with_key(es: Seq<Entry>, key: Seq<char>) -> Option<Entry>
    decreases es.len(),
{
    if es.len() == 0 {
        None
    } else if es.last().gas().len() > 0 && entry_key(es.last()) == key {
        Some(es.last())
    } else {
        last_with_key(es.drop_last(), key)
    }
}

/// What a report contributes to the row of `key`: its last entry with that
/// key and with samples, if any.
pub open spec fn slot(r: Info, key: Seq<char>) -> Option<Entry> {
    last_with_key(report_entries(r), key)
}

/// Some report has an entry with samples under `key`.
pub open spec fn has_key(reports: Seq<Info>, key: Seq<char>) -> bool {
    exists|i: int| 0 <= i < reports.len() && (#[trigger] slot(reports[i], key)) is Some
}

/// `rows` is the alignment of `reports`: one row for each key that some
/// report has data for, keys distinct, and column `i` of each row holding
/// report `i`'s slot for the row's key.
pub open spec fn is_alignment(rows: Seq<AlignedRow>, reports: Seq<Info>) -> bool {
    &&& forall|k: int| 0 <= k < rows.len() ==> (#[trigger] rows[k]).columns@.len() == reports.len()
    &&& forall|k: int, i: int|
        0 <= k < rows.len() && 0 <= i < reports.len() ==> #[trigger] rows[k].columns@[i] == slot(
            reports[i],
            rows[k].key@,
        )
    &&& forall|k: int| 0 <= k < rows.len() ==> has_key(reports, (#[trigger] rows[k]).key@)
    &&& forall|key: Seq<char>|
        has_key(reports, key) ==> exists|k: int| 0 <= k < rows.len() && (#[trigger] rows[k]).key@ == key
    &&& forall|k1: int, k2: int|
        0 <= k1 < rows.len() && 0 <= k2 < rows.len() && k1 != k2 ==> (#[trigger] rows[k1]).key@
            != (#[trigger] rows[k2]).key@
}

/// Column `i` while report `done.len()` is being read and `cur` holds the
/// entries of it read so far.
pub open spec fn partial_slot(done: Seq<Info>, cur: Seq<Entry>, i: int, key: Seq<char>) -> Option<
    Entry,
> {
    if i < done.len() {
        slot(done[i], key)
    } else if i == done.len() {
        last_with_key(cur, key)
    } else {
        None
    }
}

/// `rows` aligns the reports in `done` and the entries `cur` of the next one:
/// the state of the alignment while that report is being read.
pub open spec fn partial_alignment(
    rows: Seq<AlignedRow>,
    done: Seq<Info>,
    cur: Seq<Entry>,
    n: nat,
) -> bool {
    &&& forall|k: int| 0 <= k < rows.len() ==> (#[trigger] rows[k]).columns@.len() == n
    &&& forall|k: int, i: int|
        0 <= k < rows.len() && 0 <= i < n ==> #[trigger] rows[k].columns@[i] == partial_slot(
            done,
            cur,
            i,
            rows[k].key@,
        )
    &&& forall|k: int|
        0 <= k < rows.len() ==> #[trigger] rows[k].columns@.len() == n && exists|i: int|
            0 <= i < n && (#[trigger] rows[k].columns@[i]) is Some
    &&& forall|key: Seq<char>, i: int|
        0 <= i < n && (#[trigger] partial_slot(done, cur, i, key)) is Some ==> exists|k: int|
            0 <= k < rows.len() && (#[trigger] rows[k]).key@ == key
    &&& forall|k1: int, k2: int|
        0 <= k1 < rows.len() && 0 <= k2 < rows.len() && k1 != k2 ==> (#[trigger] rows[k1]).key@
            != (#[trigger] rows[k2]).key@
}

/// The display key of a method, built from its contract and method names.
pub fn method_key(m: &RawMethod) -> (r: String)
    ensures
        r@ == method_key_text(m.method.contract@, m.method.method@),
{
    let mut key = String::new();
    key.append("\x1b[90m");
    key.append(m.method.contract.as_str());
    key.append(".\x1b[0m");
    key.append(m.method.method.as_str());
    assert(key@ =~= method_key_text(m.method.contract@, m.method.method@));
    key
}

/// The display key of an entry.
pub fn key_of(e: &Entry) -> (r: String)
    ensures
        r@ == entry_key(*e),
{
    match e {
        Entry::Deployment(d) => d.name.clone(),
        Entry::Method(m) => method_key(m),
    }
}

/// Files `e`, an entry of report `index`, in the row of its key.
fn place_entry(
    rows: &mut Vec<AlignedRow>,
    index: usize,
    n: usize,
    e: Entry,
    Ghost(done): Ghost<Seq<Info>>,
    Ghost(cur): Ghost<Seq<Entry>>,
)
    requires
        done.len() == index,
        index < n,
        partial_alignment(old(rows)@, done, cur, n as nat),
    ensures
        partial_alignment(final(rows)@, done, cur.push(e), n as nat),
{
    let ghost new_cur = cur.push(e);
    assert(new_cur.drop_last() =~= cur);
    assert(new_cur.last() == e);
    assert forall|i: int, key: Seq<char>|
        0 <= i < n && !(i == index && e.gas().len() > 0 && entry_key(e) == key) implies
            #[trigger] partial_slot(done, new_cur, i, key) == partial_slot(done, cur, i, key) by {}
    if !e.has_gas_data() {
        proof {
            let r = rows@;
            assert forall|key: Seq<char>, i: int|
                0 <= i < n && (#[trigger] partial_slot(done, new_cur, i, key)) is Some implies exists|
                k: int,
            | 0 <= k < r.len() && (#[trigger] r[k]).key@ == key by {
                assert(partial_slot(done, new_cur, i, key) == partial_slot(done, cur, i, key));
            }
        }
        return;
    }
    let key = key_of(&e);
    assert(partial_slot(done, new_cur, index as int, key@) == Some(e));
    let mut k: usize = 0;
    while k < rows.len()
        invariant
            k <= rows@.len(),
            forall|j: int| 0 <= j < k ==> (#[trigger] rows@[j]).key@ != key@,
        ensures
            k <= rows@.len(),
            forall|j: int| 0 <= j < k ==> (#[trigger] rows@[j]).key@ != key@,
            k < rows@.len() ==> rows@[k as int].key@ == key@,
        decreases rows@.len() - k,
    {
        if rows[k].key == key {
            break;
        }
        k = k + 1;
    }
    if k == rows.len() {
        let mut columns: Vec<Option<Entry>> = Vec::new();
        let mut i: usize = 0;
        while i < n
            invariant
                i <= n,
                columns@.len() == i,
                forall|j: int| 0 <= j < i ==> columns@[j] == None::<Entry>,
            decreases n - i,
        {
            columns.push(None);
            i = i + 1;
        }
        columns[index] = Some(e);
        rows.push(AlignedRow { key, columns });
        let ghost r = rows@;
        let ghost old_rows = old(rows)@;
        assert(r.last().key@ == key@);
        assert forall|k: int| 0 <= k < old_rows.len() implies r[k] == old_rows[k] by {}
        assert forall|i: int| 0 <= i < n implies r.last().columns@[i] == partial_slot(
            done,
            new_cur,
            i,
            r.last().key@,
        ) by {
            if i != index {
                assert(partial_slot(done, new_cur, i, key@) == partial_slot(done, cur, i, key@));
                if partial_slot(done, cur, i, key@) is Some {
                    let kk = choose|kk: int|
                        0 <= kk < old(rows)@.len() && (#[trigger] old(rows)@[kk]).key@ == key@;
                    assert(r[kk].key@ == key@);
                }
            }
        }
        assert forall|k: int, i: int| 0 <= k < r.len() && 0 <= i < n implies #[trigger] r[k].columns@[i]
            == partial_slot(done, new_cur, i, r[k].key@) by {
            if k < old_rows.len() {
                assert(old_rows[k].key@ != key@);
                assert(partial_slot(done, new_cur, i, r[k].key@) == partial_slot(
                    done,
                    cur,
                    i,
                    r[k].key@,
                ));
            }
        }
        assert forall|k: int| 0 <= k < r.len() implies #[trigger] r[k].columns@.len() == n
            && exists|i: int| 0 <= i < n && (#[trigger] r[k].columns@[i]) is Some by {
            if k < old_rows.len() {
                let i = choose|i: int| 0 <= i < n && (#[trigger] old_rows[k].columns@[i]) is Some;
                assert(r[k].columns@[i] is Some);
            } else {
                assert(r[k].columns@[index as int] is Some);
            }
        }
        assert forall|kk: Seq<char>, i: int|
            0 <= i < n && (#[trigger] partial_slot(done, new_cur, i, kk)) is Some implies exists|
            k: int,
        | 0 <= k < r.len() && (#[trigger] r[k]).key@ == kk by {
            if i == index && kk == key@ {
                assert(r[r.len() - 1].key@ == kk);
            } else {
                assert(partial_slot(done, new_cur, i, kk) == partial_slot(done, cur, i, kk));
                let k = choose|k: int| 0 <= k < old_rows.len() && (#[trigger] old_rows[k]).key@ == kk;
                assert(r[k].key@ == kk);
            }
        }
        assert(partial_alignment(rows@, done, new_cur, n as nat));
    } else {
        let ghost before = rows@;
        assert(rows@[k as int].key@ == key@);
        rows[k].columns[index] = Some(e);
        let ghost r = rows@;
        assert forall|j: int| 0 <= j < r.len() && j != k implies r[j] == before[j] by {}
        assert(r[k as int].key@ == key@);
        assert(r.len() == before.len());
        assert forall|j: int, i: int| 0 <= j < r.len() && 0 <= i < n implies #[trigger] r[j].columns@[i]
            == partial_slot(done, new_cur, i, r[j].key@) by {
            if j != k {
                assert(before[j].key@ != before[k as int].key@);
                assert(partial_slot(done, new_cur, i, r[j].key@) == partial_slot(
                    done,
                    cur,
                    i,
                    r[j].key@,
                ));
            } else if i != index {
                assert(partial_slot(done, new_cur, i, r[j].key@) == partial_slot(
                    done,
                    cur,
                    i,
                    r[j].key@,
                ));
                assert(r[j].columns@[i] == before[j].columns@[i]);
            }
        }
        assert forall|j: int| 0 <= j < r.len() implies #[trigger] r[j].columns@.len() == n
            && exists|i: int| 0 <= i < n && (#[trigger] r[j].columns@[i]) is Some by {
            if j != k {
                let i = choose|i: int| 0 <= i < n && (#[trigger] before[j].columns@[i]) is Some;
                assert(r[j].columns@[i] is Some);
            } else {
                assert(r[j].columns@[index as int] is Some);
            }
        }
        assert forall|kk: Seq<char>, i: int|
            0 <= i < n && (#[trigger] partial_slot(done, new_cur, i, kk)) is Some implies exists|
            j: int,
        | 0 <= j < r.len() && (#[trigger] r[j]).key@ == kk by {
            if i == index && kk == key@ {
                assert(r[k as int].key@ == kk);
            } else {
                assert(partial_slot(done, new_cur, i, kk) == partial_slot(done, cur, i, kk));
                let j = choose|j: int| 0 <= j < before.len() && (#[trigger] before[j]).key@ == kk;
                assert(r[j].key@ == kk);
            }
        }
        assert forall|k1: int, k2: int|
            0 <= k1 < r.len() && 0 <= k2 < r.len() && k1 != k2 implies (#[trigger] r[k1]).key@
                != (#[trigger] r[k2]).key@ by {
            assert(r[k1].key@ == before[k1].key@);
            assert(r[k2].key@ == before[k2].key@);
        }
        assert(partial_alignment(rows@, done, new_cur, n as nat));
    }
}

proof fn lemma_same_slots(
    rows: Seq<AlignedRow>,
    done1: Seq<Info>,
    cur1: Seq<Entry>,
    done2: Seq<Info>,
    cur2: Seq<Entry>,
    n: nat,
)
    requires
        partial_alignment(rows, done1, cur1, n),
        forall|i: int, key: Seq<char>|
            0 <= i < n ==> #[trigger] partial_slot(done1, cur1, i, key) == partial_slot(
                done2,
                cur2,
                i,
                key,
            ),
    ensures
        partial_alignment(rows, done2, cur2, n),
{
    assert forall|key: Seq<char>, i: int|
        0 <= i < n && (#[trigger] partial_slot(done2, cur2, i, key)) is Some implies exists|k: int|
        0 <= k < rows.len() && (#[trigger] rows[k]).key@ == key by {
        assert(partial_slot(done1, cur1, i, key) is Some);
    }
}

/// Aligns the entries of `reports`: report `i` fills column `i` of the row of
/// each key it has an entry with samples for.
pub fn align_reports(reports: Vec<Info>) -> (rows: Vec<AlignedRow>)
    ensures
        is_alignment(rows@, reports@),
{
    let n = reports.len();
    let ghost all = reports@;
    let mut rest = reports;
    let mut rows: Vec<AlignedRow> = Vec::new();
    let mut index: usize = 0;
    assert(rest@.skip(0) =~= rest@);
    while index < n
        invariant
            n == all.len(),
            index <= n,
            rest@ == all.skip(index as int),
            partial_alignment(rows@, all.take(index as int), Seq::empty(), n as nat),
        decreases n - index,
    {
        assert(rest@.drop_first() =~= all.skip(index as int + 1));
        let info = rest.remove(0);
        let ghost done = all.take(index as int);
        let ghost whole = info;
        let Info { methods, deployments } = info;
        let ghost deps = deployments@;
        let ghost meths = methods@;
        let ghost mut cur: Seq<Entry> = Seq::empty();
        let mut deployments = deployments;
        let mut methods = methods;
        let nd = deployments.len();
        let mut j: usize = 0;
        assert(deps.skip(0) =~= deps);
        while j < nd
            invariant
                n == all.len(),
                index < n,
                done == all.take(index as int),
                nd == deps.len(),
                j <= nd,
                deployments@ == deps.skip(j as int),
                cur == deps.take(j as int).map_values(|d: RawDeployment| Entry::Deployment(d)),
                partial_alignment(rows@, done, cur, n as nat),
            decreases nd - j,
        {
            assert(deployments@.drop_first() =~= deps.skip(j as int + 1));
            let d = deployments.remove(0);
            let ghost prev = cur;
            proof {
                cur = cur.push(Entry::Deployment(d));
                assert(cur =~= deps.take(j as int + 1).map_values(
                    |d: RawDeployment| Entry::Deployment(d),
                ));
            }
            place_entry(&mut rows, index, n, Entry::Deployment(d), Ghost(done), Ghost(prev));
            j = j + 1;
        }
        let ghost dep_entries = cur;
        assert(deps.take(nd as int) =~= deps);
        let nm = methods.len();
        let mut j: usize = 0;
        assert(meths.skip(0) =~= meths);
        assert(cur =~= dep_entries + meths.take(0).map_values(|m: RawMethod| Entry::Method(m)));
        while j < nm
            invariant
                n == all.len(),
                index < n,
                done == all.take(index as int),
                nm == meths.len(),
                j <= nm,
                methods@ == meths.skip(j as int),
                cur == dep_entries + meths.take(j as int).map_values(|m: RawMethod| Entry::Method(m)),
                partial_alignment(rows@, done, cur, n as nat),
            decreases nm - j,
        {
            assert(methods@.drop_first() =~= meths.skip(j as int + 1));
            let m = methods.remove(0);
            let ghost prev = cur;
            proof {
                cur = cur.push(Entry::Method(m));
                assert(cur =~= dep_entries + meths.take(j as int + 1).map_values(
                    |m: RawMethod| Entry::Method(m),
                ));
            }
            place_entry(&mut rows, index, n, Entry::Method(m), Ghost(done), Ghost(prev));
            j = j + 1;
        }
        proof {
            assert(meths.take(nm as int) =~= meths);
            assert(whole == all[index as int]);
            assert(cur =~= report_entries(whole));
            let next = all.take(index as int + 1);
            assert(next =~= done.push(whole));
            assert forall|i: int, key: Seq<char>| 0 <= i < n implies #[trigger] partial_slot(
                done,
                cur,
                i,
                key,
            ) == partial_slot(next, Seq::empty(), i, key) by {
                if i < index {
                    assert(next[i] == done[i]);
                }
            }
            lemma_same_slots(rows@, done, cur, next, Seq::empty(), n as nat);
        }
        index = index + 1;
    }
    proof {
        assert(all.take(n as int) =~= all);
        let r = rows@;
        assert forall|k: int| 0 <= k < r.len() implies has_key(all, (#[trigger] r[k]).key@) by {
            assert(r[k].columns@.len() == n);
            let i = choose|i: int| 0 <= i < n && (#[trigger] r[k].columns@[i]) is Some;
            assert(partial_slot(all, Seq::empty(), i, r[k].key@) is Some);
            assert(slot(all[i], r[k].key@) is Some);
        }
        assert forall|key: Seq<char>| has_key(all, key) implies exists|k: int|
            0 <= k < r.len() && (#[trigger] r[k]).key@ == key by {
            let i = choose|i: int| 0 <= i < all.len() && (#[trigger] slot(all[i], key)) is Some;
            assert(partial_slot(all, Seq::empty(), i, key) is Some);
        }
    }
    rows
}

} // verus!
