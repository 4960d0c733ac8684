//! The statistics behind the debug rendering of a slice: which elements are
//! selected by an index and a value range, how many of them are nonzero,
//! their sum, extremes, and which indices are shown.
use vstd::prelude::*;

verus! {

/// Whether index `i` lies in the half-open index range, if one is given.
pub open spec fn in_idx(i: int, idx_range: Option<(usize, usize)>) -> bool {
    match idx_range {
        Some(ir) => ir.0 <= i < ir.1,
        None => true,
    }
}

/// Whether `x` lies in the closed value range, if one is given.
pub open spec fn in_val(x: i64, val_range: Option<(i64, i64)>) -> bool {
    match val_range {
        Some(vr) => vr.0 <= x <= vr.1,
        None => true,
    }
}

/// Element `i` is selected when it lies in both ranges.
pub open spec fn selected(
    s: Seq<i64>,
    i: int,
    val_range: Option<(i64, i64)>,
    idx_range: Option<(usize, usize)>,
) -> bool {
    in_idx(i, idx_range) && in_val(s[i], val_range)
}

/// Element `i` is shown when it falls on the sampling stride, is selected,
/// and is nonzero unless zeros are shown too.
pub open spec fn shown(
    s: Seq<i64>,
    i: int,
    every: usize,
    val_range: Option<(i64, i64)>,
    idx_range: Option<(usize, usize)>,
    show_zeros: bool,
) -> bool {
    every != 0 && i % (every as int) == 0 && selected(s, i, val_range, idx_range) && (s[i] != 0
        || show_zeros)
}

/// Number of selected nonzero elements among the first `n`.
pub open spec fn count_nonzero(
    s: Seq<i64>,
    n: int,
    val_range: Option<(i64, i64)>,
    idx_range: Option<(usize, usize)>,
) -> nat
    decreases n,
{
    if n <= 0 {
        0
    } else {
        count_nonzero(s, n - 1, val_range, idx_range) + if selected(s, n - 1, val_range, idx_range)
            && s[n - 1] != 0 {
            1nat
        } else {
            0nat
        }
    }
}

/// Number of selected elements among the first `n`; counted only when a value
/// range is given.
pub open spec fn count_in_range(
    s: Seq<i64>,
    n: int,
    val_range: Option<(i64, i64)>,
    idx_range: Option<(usize, usize)>,
) -> nat
    decreases n,
{
    if n <= 0 {
        0
    } else {
        count_in_range(s, n - 1, val_range, idx_range) + if val_range is Some && selected(
            s,
            n - 1,
            val_range,
            idx_range,
        ) {
            1nat
        } else {
            0nat
        }
    }
}

/// Sum of the selected elements among the first `n`.
pub open spec fn sum_selected(
    s: Seq<i64>,
    n: int,
    val_range: Option<(i64, i64)>,
    idx_range: Option<(usize, usize)>,
) -> int
    decreases n,
{
    if n <= 0 {
        0
    } else {
        sum_selected(s, n - 1, val_range, idx_range) + if selected(s, n - 1, val_range, idx_range) {
            s[n - 1] as int
        } else {
            0
        }
    }
}

/// The lower end of the value range, or zero.
pub open spec fn range_start(val_range: Option<(i64, i64)>) -> i64 {
    match val_range {
        Some(vr) => vr.0,
        None => 0,
    }
}

/// The upper end of the value range, or zero.
pub open spec fn range_end(val_range: Option<(i64, i64)>) -> i64 {
    match val_range {
        Some(vr) => vr.1,
        None => 0,
    }
}

/// The largest of the range's lower end and the selected elements among the first `n`.
pub open spec fn hi_selected(
    s: Seq<i64>,
    n: int,
    val_range: Option<(i64, i64)>,
    idx_range: Option<(usize, usize)>,
) -> i64
    decreases n,
{
    if n <= 0 {
        range_start(val_range)
    } else {
        let m = hi_selected(s, n - 1, val_range, idx_range);
        if selected(s, n - 1, val_range, idx_range) && s[n - 1] > m {
            s[n - 1]
        } else {
            m
        }
    }
}

/// The smallest of the range's upper end and the selected elements among the first `n`.
pub open spec fn lo_selected(
    s: Seq<i64>,
    n: int,
    val_range: Option<(i64, i64)>,
    idx_range: Option<(usize, usize)>,
) -> i64
    decreases n,
{
    if n <= 0 {
        range_end(val_range)
    } else {
        let m = lo_selected(s, n - 1, val_range, idx_range);
        if selected(s, n - 1, val_range, idx_range) && s[n - 1] < m {
            s[n - 1]
        } else {
            m
        }
    }
}

/// The indices among the first `n` that are shown, in increasing order.
pub open spec fn shown_upto(
    s: Seq<i64>,
    n: int,
    every: usize,
    val_range: Option<(i64, i64)>,
    idx_range: Option<(usize, usize)>,
    show_zeros: bool,
) -> Seq<usize>
    decreases n,
{
    if n <= 0 {
        Seq::empty()
    } else {
        let prev = shown_upto(s, n - 1, every, val_range, idx_range, show_zeros);
        if shown(s, n - 1, every, val_range, idx_range, show_zeros) {
            prev.push((n - 1) as usize)
        } else {
            prev
        }
    }
}

/// What the rendering of a slice reports.
pub struct SliceSummary {
    /// Selected elements that are nonzero.
    pub nonzero: usize,
    /// Selected elements, counted only when a value range is given.
    pub in_range: usize,
    /// Largest selected element, starting from the range's lower end.
    pub hi: i64,
    /// Smallest selected element, starting from the range's upper end.
    pub lo: i64,
    /// Sum of the selected elements.
    pub sum: i128,
    /// Indices of the elements shown, in increasing order.
    pub shown: Vec<usize>,
}

/// Computes what the rendering of `vec` reports: elements are selected by the
/// optional value range (inclusive) and index range (half-open); every
/// `every`-th index is shown when selected and, unless `show_zeros`, nonzero.
pub fn summarize_slice(
    vec: &[i64],
    every: usize,
    val_range: Option<(i64, i64)>,
    idx_range: Option<(usize, usize)>,
    show_zeros: bool,
) -> (r: SliceSummary)
    requires
        vec@.len() <= i64::MAX,
    ensures
        r.nonzero == count_nonzero(vec@, vec@.len() as int, val_range, idx_range),
        r.in_range == count_in_range(vec@, vec@.len() as int, val_range, idx_range),
        r.hi == hi_selected(vec@, vec@.len() as int, val_range, idx_range),
        r.lo == lo_selected(vec@, vec@.len() as int, val_range, idx_range),
        r.sum == sum_selected(vec@, vec@.len() as int, val_range, idx_range),
        r.shown@ == shown_upto(vec@, vec@.len() as int, every, val_range, idx_range, show_zeros),
{
    let (vr_start, vr_end) = match val_range {
        Some(vr) => vr,
        None => (0i64, 0i64),
    };
    let mut nonzero: usize = 0;
    let mut in_range: usize = 0;
    let mut hi: i64 = vr_start;
    let mut lo: i64 = vr_end;
    let mut sum: i128 = 0;
    let mut shown: Vec<usize> = Vec::new();
    let len = vec.len();
    let mut i: usize = 0;
    while i < len
        invariant
            len == vec@.len(),
            len <= i64::MAX,
            i <= len,
            vr_start == range_start(val_range),
            vr_end == range_end(val_range),
            nonzero == count_nonzero(vec@, i as int, val_range, idx_range),
            in_range == count_in_range(vec@, i as int, val_range, idx_range),
            hi == hi_selected(vec@, i as int, val_range, idx_range),
            lo == lo_selected(vec@, i as int, val_range, idx_range),
            sum == sum_selected(vec@, i as int, val_range, idx_range),
            shown@ == shown_upto(vec@, i as int, every, val_range, idx_range, show_zeros),
            nonzero <= i,
            in_range <= i,
            -(i as int) * 0x8000_0000_0000_0000 <= sum <= (i as int) * 0x8000_0000_0000_0000,
        decreases len - i,
    {
        let x = vec[i];
        let within_idx = match idx_range {
            Some(ir) => ir.0 <= i && i < ir.1,
            None => true,
        };
        let within_val = match val_range {
            Some(vr) => vr.0 <= x && x <= vr.1,
            None => true,
        };
        if within_idx && within_val {
            if val_range.is_some() {
                in_range = in_range + 1;
            }
            assert(-(i as int) * 0x8000_0000_0000_0000 - 0x8000_0000_0000_0000 == -((i + 1) as int)
                * 0x8000_0000_0000_0000) by (nonlinear_arith);
            assert((i as int) * 0x8000_0000_0000_0000 + 0x8000_0000_0000_0000 == ((i + 1) as int)
                * 0x8000_0000_0000_0000) by (nonlinear_arith);
            sum = sum + x as i128;
            if x > hi {
                hi = x;
            }
            if x < lo {
                lo = x;
            }
            if x != 0 {
                nonzero = nonzero + 1;
            }
            if every != 0 && i % every == 0 && (x != 0 || show_zeros) {
                shown.push(i);
            }
        } else {
            assert(-(i as int) * 0x8000_0000_0000_0000 >= -((i + 1) as int) * 0x8000_0000_0000_0000)
                by (nonlinear_arith);
            assert((i as int) * 0x8000_0000_0000_0000 <= ((i + 1) as int) * 0x8000_0000_0000_0000)
                by (nonlinear_arith);
        }
        i = i + 1;
    }
    SliceSummary { nonzero, in_range, hi, lo, sum, shown }
}

} // verus!
