//! The text of each cell: an average with its share of the block limit, or
//! its change against the row's baseline, colored by direction.

use vstd::prelude::*;
use crate::entry::{average, Entry};
use crate::align::AlignedRow;
use crate::text::{
    abs, decimal, int_text, pad_left, push_decimal, push_int, signed_int_text, tenths_text,
};

verus! {

/// The gas limit of one block, against which absolute averages are shown.
pub const BLOCK_LIMIT: u128 = 30_000_000;

/// The direction of a change against the baseline.
#[derive(Debug, Clone, Copy, PartialEq, Eq, Structural)]
pub enum Trend {
    /// More than a tenth of a percent more gas: shown in red.
    Regression,
    /// More than a tenth of a percent less gas: shown in green.
    Improvement,
    /// Within a tenth of a percent: shown plain.
    Neutral,
}

/// `p / q` rounded to the nearest integer, ties away from zero, for `p >= 0`.
pub open spec fn round_nearest(p: int, q: int) -> int
    recommends
        p >= 0,
        q > 0,
{
    (2 * p + q) / (2 * q)
}

/// A signed or unsigned count of tenths, as `{:.1}` prints it.
pub open spec fn ratio_text(neg: bool, plus: bool, tenths: nat) -> Seq<char> {
    if neg {
        "-"@ + tenths_text(tenths)
    } else if plus {
        "+"@ + tenths_text(tenths)
    } else {
        tenths_text(tenths)
    }
}

/// `100 * avg / BLOCK_LIMIT` in percent, to one decimal.
pub open spec fn block_share_text(avg: int) -> Seq<char> {
    ratio_text(avg < 0, false, round_nearest(1000 * abs(avg) as int, BLOCK_LIMIT as int) as nat)
}

/// `100 * (avg - base) / base` in percent, signed, to one decimal; infinite
/// or undefined when the baseline is zero.
pub open spec fn change_text(avg: int, base: int) -> Seq<char> {
    let d = avg - base;
    if base == 0 {
        if d > 0 {
            "+inf"@
        } else if d < 0 {
            "-inf"@
        } else {
            "NaN"@
        }
    } else {
        let p = if base < 0 {
            -d
        } else {
            d
        };
        ratio_text(p < 0 || (p == 0 && base < 0), true, round_nearest(1000 * abs(p) as int, abs(base) as int) as nat)
    }
}

/// How `avg` compares with `base`: a regression above `+0.1%`, an
/// improvement below `-0.1%`.
pub open spec fn trend(avg: int, base: int) -> Trend {
    let d = avg - base;
    if base == 0 {
        if d > 0 {
            Trend::Regression
        } else if d < 0 {
            Trend::Improvement
        } else {
            Trend::Neutral
        }
    } else {
        let p = if base < 0 {
            -d
        } else {
            d
        };
        if 1000 * p > abs(base) {
            Trend::Regression
        } else if 1000 * p < -abs(base) {
            Trend::Improvement
        } else {
            Trend::Neutral
        }
    }
}

/// The terminal color code of a trend.
pub open spec fn color_code(t: Trend) -> nat {
    match t {
        Trend::Regression => 91,
        Trend::Improvement => 92,
        Trend::Neutral => 0,
    }
}

/// A cell with no baseline: `<avg> (<share of the block limit>%)`.
pub open spec fn absolute_cell(avg: int) -> Seq<char> {
    int_text(avg) + " ("@ + pad_left(block_share_text(avg), 4) + "%)"@
}

/// A cell against a baseline: `<+/-change> (<+/-percent>%)`, colored.
pub open spec fn delta_cell(avg: int, base: int) -> Seq<char> {
    "\x1b["@ + decimal(color_code(trend(avg, base))) + "m"@ + signed_int_text(avg - base) + " ("@
        + pad_left(change_text(avg, base), 5) + "%)\x1b[0m"@
}

/// A slot holds an entry with samples.
pub open spec fn present(c: Option<Entry>) -> bool {
    c is Some && c->0.gas().len() > 0
}

/// The text of column `i` of a row: empty where the slot is absent, against
/// the row's first column where that one is present and `i` is not it, and
/// absolute otherwise.
pub open spec fn cell_text(cols: Seq<Option<Entry>>, i: int) -> Seq<char> {
    if present(cols[i]) {
        let avg = average(cols[i]->0.gas());
        if i > 0 && present(cols[0]) {
            delta_cell(avg, average(cols[0]->0.gas()))
        } else {
            absolute_cell(avg)
        }
    } else {
        Seq::empty()
    }
}

/// `p / q` rounded to the nearest integer, ties away from zero.
pub fn round_nearest_exec(p: u128, q: u128) -> (r: u128)
    requires
        q > 0,
        p < u128::MAX / 4,
        q < u128::MAX / 4,
    ensures
        r == round_nearest(p as int, q as int),
{
    (2 * p + q) / (2 * q)
}

/// Appends `s` to `out`, preceded by spaces up to `width` characters.
fn push_padded(out: &mut String, s: &String, width: usize)
    ensures
        final(out)@ == old(out)@ + pad_left(s@, width as nat),
{
    let len = s.as_str().unicode_len();
    let mut k: usize = len;
    let ghost start = out@;
    while k < width
        invariant
            len == s@.len(),
            len <= k,
            k <= width || len >= width,
            len >= width ==> k == len,
            out@ == start + Seq::new((k - len) as nat, |i: int| ' '),
        decreases width - k,
    {
        out.append(" ");
        proof {
            reveal_strlit(" ");
        }
        assert(out@ =~= start + Seq::new((k + 1 - len) as nat, |i: int| ' '));
        k = k + 1;
    }
    out.append(s.as_str());
    if len >= width {
        assert(out@ =~= start + s@);
    } else {
        assert(out@ =~= start + pad_left(s@, width as nat));
    }
}

fn push_tenths(out: &mut String, neg: bool, plus: bool, tenths: u128)
    ensures
        final(out)@ == old(out)@ + ratio_text(neg, plus, tenths as nat),
{
    let ghost start = out@;
    if neg {
        out.append("-");
    } else if plus {
        out.append("+");
    }
    push_decimal(out, tenths / 10);
    out.append(".");
    push_decimal(out, tenths % 10);
    assert(out@ =~= start + ratio_text(neg, plus, tenths as nat));
}

fn unsigned_abs(n: i128) -> (r: u128)
    requires
        n > i128::MIN,
    ensures
        r == abs(n as int),
{
    if n < 0 {
        (-n) as u128
    } else {
        n as u128
    }
}

/// The cell of an average with no baseline.
pub fn absolute_cell_exec(avg: isize) -> (r: String)
    ensures
        r@ == absolute_cell(avg as int),
{
    let mut out = String::new();
    push_int(&mut out, avg as i128, false);
    out.append(" (");
    let mut share = String::new();
    let m = unsigned_abs(avg as i128);
    let tenths = round_nearest_exec(1000 * m, BLOCK_LIMIT);
    push_tenths(&mut share, avg < 0, false, tenths);
    push_padded(&mut out, &share, 4);
    out.append("%)");
    assert(out@ =~= absolute_cell(avg as int));
    out
}

/// The trend of `avg` against `base`.
pub fn trend_exec(avg: isize, base: isize) -> (r: Trend)
    ensures
        r == trend(avg as int, base as int),
{
    let d: i128 = avg as i128 - base as i128;
    if base == 0 {
        if d > 0 {
            Trend::Regression
        } else if d < 0 {
            Trend::Improvement
        } else {
            Trend::Neutral
        }
    } else {
        let p: i128 = if base < 0 {
            -d
        } else {
            d
        };
        let q: i128 = unsigned_abs(base as i128) as i128;
        if 1000 * p > q {
            Trend::Regression
        } else if 1000 * p < -q {
            Trend::Improvement
        } else {
            Trend::Neutral
        }
    }
}

/// The change of `avg` against `base`, in percent.
fn change_text_exec(avg: isize, base: isize) -> (r: String)
    ensures
        r@ == change_text(avg as int, base as int),
{
    let d: i128 = avg as i128 - base as i128;
    let mut out = String::new();
    if base == 0 {
        if d > 0 {
            out.append("+inf");
        } else if d < 0 {
            out.append("-inf");
        } else {
            out.append("NaN");
        }
    } else {
        let p: i128 = if base < 0 {
            -d
        } else {
            d
        };
        let tenths = round_nearest_exec(1000 * unsigned_abs(p), unsigned_abs(base as i128));
        push_tenths(&mut out, p < 0 || (p == 0 && base < 0), true, tenths);
    }
    out
}

/// The cell of an average against a baseline.
pub fn delta_cell_exec(avg: isize, base: isize) -> (r: String)
    ensures
        r@ == delta_cell(avg as int, base as int),
{
    let t = trend_exec(avg, base);
    let code: u128 = match t {
        Trend::Regression => 91,
        Trend::Improvement => 92,
        Trend::Neutral => 0,
    };
    let mut out = String::new();
    out.append("\x1b[");
    push_decimal(&mut out, code);
    out.append("m");
    push_int(&mut out, avg as i128 - base as i128, true);
    out.append(" (");
    let change = change_text_exec(avg, base);
    push_padded(&mut out, &change, 5);
    out.append("%)\x1b[0m");
    assert(out@ =~= delta_cell(avg as int, base as int));
    out
}

/// The text of column `i` of a row.
pub fn cell_text_exec(cols: &Vec<Option<Entry>>, i: usize) -> (r: String)
    requires
        i < cols@.len(),
    ensures
        r@ == cell_text(cols@, i as int),
{
    match &cols[i] {
        Some(e) if e.has_gas_data() => {
            let avg = e.avg_gas();
            match &cols[0] {
                Some(first) if i > 0 && first.has_gas_data() => {
                    let base = first.avg_gas();
                    delta_cell_exec(avg, base)
                },
                _ => absolute_cell_exec(avg),
            }
        },
        _ => String::new(),
    }
}

/// The cells of a row: its key, then one cell per column.
pub fn render_row(row: &AlignedRow) -> (r: Vec<String>)
    ensures
        r@.len() == row.columns@.len() + 1,
        r@[0]@ == row.key@,
        forall|i: int|
            0 <= i < row.columns@.len() ==> (#[trigger] r@[i + 1])@ == cell_text(row.columns@, i),
{
    let mut out: Vec<String> = Vec::new();
    out.push(row.key.clone());
    let n = row.columns.len();
    let mut i: usize = 0;
    while i < n
        invariant
            n == row.columns@.len(),
            i <= n,
            out@.len() == i + 1,
            out@[0]@ == row.key@,
            forall|j: int| 0 <= j < i ==> (#[trigger] out@[j + 1])@ == cell_text(row.columns@, j),
        decreases n - i,
    {
        let cell = cell_text_exec(&row.columns, i);
        out.push(cell);
        i = i + 1;
    }
    out
}

} // verus!
