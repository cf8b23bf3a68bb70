//! The dashboard layout engine: a pure function from the interface count
//! and the drawing area to a partition into per-interface cells, plus the
//! chart axis scale and its tick labels.

use vstd::prelude::*;
use vstd::arithmetic::div_mod::{lemma_div_is_ordered, lemma_div_multiples_vanish};
use crate::text::{append_fixed1, fixed1};

verus! {

/// A rectangular region of the terminal, in cells.
#[derive(Debug, Clone, Copy, PartialEq, Eq, Structural)]
pub struct Rect {
    pub x: u16,
    pub y: u16,
    pub width: u16,
    pub height: u16,
}

/// The region stays within the addressable coordinate space.
pub open spec fn rect_wf(r: Rect) -> bool {
    r.x + r.width <= 65535 && r.y + r.height <= 65535
}

/// Number of rows the grid uses for `n` interfaces: one per interface up
/// to two, then two columns of `ceil(n / 2)` rows.
pub open spec fn rows_for(n: int) -> int {
    if n <= 2 {
        n
    } else {
        (n + 1) / 2
    }
}

/// The row interface `k` is placed in (row-major fill).
pub open spec fn row_of(n: int, k: int) -> int {
    if n <= 2 {
        k
    } else {
        k / 2
    }
}

/// Everything the layout promises of the cell for interface `k` out of
/// `n` in `area`: the vertical band is the `row_of(n, k)`-th of
/// `rows_for(n)` equal shares, and the cell spans the full width for up
/// to two interfaces, otherwise the left or right half by column.
pub open spec fn cell_matches(c: Rect, area: Rect, n: int, k: int) -> bool {
    let rows = rows_for(n);
    let row = row_of(n, k);
    let h = area.height as int;
    &&& c.y == area.y + row * h / rows
    &&& c.height == (row + 1) * h / rows - row * h / rows
    &&& if n <= 2 {
        c.x == area.x && c.width == area.width
    } else if k % 2 == 0 {
        c.x == area.x && c.width == area.width as int / 2
    } else {
        c.x == area.x + area.width as int / 2 && c.width == area.width - area.width as int / 2
    }
}

/// Partition `area` into one cell per interface: a single full-width
/// stack for up to two interfaces, a two-column grid of `ceil(n / 2)`
/// rows filled row-major after that (with an odd count, the last row's
/// right half stays unused and gets no cell).
pub fn interface_cells(n: usize, area: Rect) -> (r: Vec<Rect>)
    requires
        n <= 65535,
        rect_wf(area),
    ensures
        r@.len() == n,
        forall|k: int| 0 <= k < n ==> cell_matches(#[trigger] r@[k], area, n as int, k),
        forall|k: int| 0 <= k < n ==> rect_wf(#[trigger] r@[k]),
{
    let mut cells: Vec<Rect> = Vec::new();
    if n == 0 {
        return cells;
    }
    let rows: usize = if n <= 2 {
        n
    } else {
        (n + 1) / 2
    };
    let mut k: usize = 0;
    while k < n
        invariant
            0 < n <= 65535,
            rect_wf(area),
            rows == rows_for(n as int),
            1 <= rows <= 32768,
            k <= n,
            cells@.len() == k,
            forall|k2: int| 0 <= k2 < k ==> cell_matches(#[trigger] cells@[k2], area, n as int, k2),
            forall|k2: int| 0 <= k2 < k ==> rect_wf(#[trigger] cells@[k2]),
        decreases n - k,
    {
        let row: usize = if n <= 2 {
            k
        } else {
            k / 2
        };
        proof {
            assert(row + 1 <= rows);
            let h = area.height as int;
            let rowi = row as int;
            assert(0 <= rowi * h && rowi * h <= 32768 * 65535 && (rowi + 1) * h <= 32768
                * 65535) by (nonlinear_arith)
                requires
                    0 <= rowi,
                    rowi + 1 <= 32768,
                    0 <= h <= 65535,
            ;
        }
        let h32 = area.height as u32;
        let row32 = row as u32;
        let rows32 = rows as u32;
        let y_off = (row32 * h32) / rows32;
        let y_next = ((row32 + 1) * h32) / rows32;
        proof {
            let h = area.height as int;
            let rowi = row as int;
            let rowsi = rows as int;
            assert(rowi * h <= (rowi + 1) * h && (rowi + 1) * h <= rowsi * h) by (nonlinear_arith)
                requires
                    0 <= rowi,
                    rowi + 1 <= rowsi,
                    h >= 0,
            ;
            lemma_div_is_ordered(rowi * h, (rowi + 1) * h, rowsi);
            lemma_div_is_ordered((rowi + 1) * h, rowsi * h, rowsi);
            lemma_div_multiples_vanish(h, rowsi);
            assert(y_off <= y_next && y_next <= area.height);
        }
        let cy = area.y + (y_off as u16);
        let ch = (y_next - y_off) as u16;
        let cell = if n <= 2 {
            Rect { x: area.x, y: cy, width: area.width, height: ch }
        } else if k % 2 == 0 {
            Rect { x: area.x, y: cy, width: area.width / 2, height: ch }
        } else {
            Rect {
                x: area.x + area.width / 2,
                y: cy,
                width: area.width - area.width / 2,
                height: ch,
            }
        };
        proof {
            assert(cell_matches(cell, area, n as int, k as int));
            assert(rect_wf(cell));
        }
        cells.push(cell);
        k = k + 1;
    }
    cells
}

/// Split one interface cell into the information area and the fixed
/// bottom chart strip (up to seven rows).
pub fn split_cell(cell: Rect) -> (r: (Rect, Rect))
    requires
        rect_wf(cell),
    ensures
        r.0.x == cell.x && r.0.width == cell.width,
        r.1.x == cell.x && r.1.width == cell.width,
        r.1.height == if cell.height >= 7 {
            7int
        } else {
            cell.height as int
        },
        r.0.height == cell.height - r.1.height,
        r.0.y == cell.y,
        r.1.y == cell.y + r.0.height,
{
    let strip: u16 = if cell.height >= 7 {
        7
    } else {
        cell.height
    };
    let info_h = cell.height - strip;
    (
        Rect { x: cell.x, y: cell.y, width: cell.width, height: info_h },
        Rect { x: cell.x, y: cell.y + info_h, width: cell.width, height: strip },
    )
}

/// Largest of the two directional peaks.
pub open spec fn peak_max(a: u64, b: u64) -> u64 {
    if a >= b {
        a
    } else {
        b
    }
}

/// Y-axis upper bound: the larger peak plus 20% headroom rounded up,
/// saturating at the largest representable value.
pub open spec fn spec_axis_upper(m: nat) -> nat {
    let u = m + (m + 4) / 5;
    if u > u64::MAX {
        u64::MAX as nat
    } else {
        u
    }
}

/// The chart's Y-axis upper bound for the two peaks: 20% headroom above
/// the larger peak, so the highest sample never touches the border.
pub fn axis_upper(peak_rx: u64, peak_tx: u64) -> (r: u64)
    ensures
        r == spec_axis_upper(peak_max(peak_rx, peak_tx) as nat),
        peak_max(peak_rx, peak_tx) >= 1 && r < u64::MAX ==> r > peak_max(peak_rx, peak_tx),
{
    let m = if peak_rx >= peak_tx {
        peak_rx
    } else {
        peak_tx
    };
    let wide = (m as u128) + ((m as u128) + 4) / 5;
    if wide > u64::MAX as u128 {
        u64::MAX
    } else {
        wide as u64
    }
}

/// Divisor of the axis unit chosen for `upper` by the same binary
/// thresholds as byte formatting.
pub open spec fn spec_axis_divisor(upper: nat) -> nat {
    if upper < 1024 {
        1
    } else if upper < 1048576 {
        1024
    } else {
        1048576
    }
}

/// Label of the axis unit chosen for `upper`.
pub open spec fn spec_axis_unit(upper: nat) -> Seq<char> {
    if upper < 1024 {
        "B/s"@
    } else if upper < 1048576 {
        "KB/s"@
    } else {
        "MB/s"@
    }
}

/// `b` in tenths of the unit with divisor `div`, rounded to the nearest
/// tenth (half away from zero).
pub open spec fn spec_tenths(b: nat, div: nat) -> nat {
    (b * 10 + div / 2) / div
}

/// The axis maximum scaled into the unit its own size selects (in tenths
/// of that unit), with the unit label. Consecutive renders may change
/// unit when the peak crosses a threshold.
pub fn format_rate_for_axis(bytes_per_sec: u64) -> (r: (u64, String))
    ensures
        r.0 == spec_tenths(bytes_per_sec as nat, spec_axis_divisor(bytes_per_sec as nat)),
        r.1@ == spec_axis_unit(bytes_per_sec as nat),
{
    if bytes_per_sec < 1024 {
        proof {
            lemma_div_multiples_vanish((bytes_per_sec * 10) as int, 1);
        }
        (bytes_per_sec * 10, String::from_str("B/s"))
    } else if bytes_per_sec < 1048576 {
        ((bytes_per_sec * 10 + 512) / 1024, String::from_str("KB/s"))
    } else {
        let wide = (bytes_per_sec as u128) * 10 + 524288;
        let t128 = wide / 1048576;
        proof {
            lemma_div_is_ordered(wide as int, 0xfffffffffffffffff, 1048576);
        }
        (t128 as u64, String::from_str("MB/s"))
    }
}

fn quarter_label(upper: u64, q: u64) -> (r: String)
    requires
        1 <= q <= 4,
    ensures
        r@ == fixed1(
            spec_tenths(
                upper as nat * q as nat / 4,
                spec_axis_divisor(upper as nat),
            ),
        ),
{
    let up = upper as u128;
    let bq128 = if q == 1 {
        up / 4
    } else if q == 2 {
        up * 2 / 4
    } else if q == 3 {
        up * 3 / 4
    } else {
        up * 4 / 4
    };
    proof {
        let u = upper as int;
        lemma_div_multiples_vanish(u, 4);
        assert(4 * u == u * 4);
        if q == 1 {
            lemma_div_is_ordered(u, u * 4, 4);
        } else if q == 2 {
            lemma_div_is_ordered(u * 2, u * 4, 4);
        } else if q == 3 {
            lemma_div_is_ordered(u * 3, u * 4, 4);
        }
        assert(bq128 <= upper);
        assert(bq128 == upper as nat * q as nat / 4);
    }
    let bq = bq128 as u64;
    let t: u64 = if upper < 1024 {
        proof {
            lemma_div_multiples_vanish((bq * 10) as int, 1);
        }
        bq * 10
    } else if upper < 1048576 {
        (bq * 10 + 512) / 1024
    } else {
        let wide = (bq as u128) * 10 + 524288;
        proof {
            lemma_div_is_ordered(wide as int, 0xfffffffffffffffff, 1048576);
        }
        (wide / 1048576) as u64
    };
    let mut s = String::new();
    append_fixed1(&mut s, t);
    proof {
        assert(Seq::<char>::empty() + fixed1(t as nat) =~= fixed1(t as nat));
    }
    s
}

/// The five tick labels of the Y axis: the axis maximum scaled at 0%,
/// 25%, 50%, 75% and 100% into the axis unit, one decimal place each,
/// the zero label plain.
pub fn axis_labels(upper: u64) -> (r: Vec<String>)
    ensures
        r@.len() == 5,
        r@[0]@ == "0"@,
        forall|q: int|
            1 <= q <= 4 ==> (#[trigger] r@[q])@ == fixed1(
                spec_tenths(upper as nat * q as nat / 4, spec_axis_divisor(upper as nat)),
            ),
{
    let mut v: Vec<String> = Vec::new();
    v.push(String::from_str("0"));
    v.push(quarter_label(upper, 1));
    v.push(quarter_label(upper, 2));
    v.push(quarter_label(upper, 3));
    v.push(quarter_label(upper, 4));
    proof {
        assert(v@[1]@ == fixed1(
            spec_tenths(upper as nat * 1 as nat / 4, spec_axis_divisor(upper as nat)),
        ));
        assert(v@[2]@ == fixed1(
            spec_tenths(upper as nat * 2 as nat / 4, spec_axis_divisor(upper as nat)),
        ));
        assert(v@[3]@ == fixed1(
            spec_tenths(upper as nat * 3 as nat / 4, spec_axis_divisor(upper as nat)),
        ));
        assert(v@[4]@ == fixed1(
            spec_tenths(upper as nat * 4 as nat / 4, spec_axis_divisor(upper as nat)),
        ));
    }
    v
}

} // verus!
