//! The counters that the two profilers report, and their column labels.
use vstd::prelude::*;
use crate::text::{chars_of, span_equals};

verus! {

/// A counter of the profiling tools. The instruction count is `Ir`; the
/// others are cache misses (`I1mr`, `D1mw`, ...) and branch counts (`Bc`,
/// `Bcm`, `Bi`, `Bim`).
#[derive(Clone, Copy, Debug, PartialEq, Eq, Structural)]
pub enum Metric {
    Ir,
    I1mr,
    ILmr,
    Dr,
    D1mr,
    DLmr,
    Dw,
    D1mw,
    DLmw,
    Bc,
    Bcm,
    Bi,
    Bim,
}

/// The column label of a metric, as the tools print it.
pub open spec fn metric_name(m: Metric) -> Seq<char> {
    match m {
        Metric::Ir => seq!['I', 'r'],
        Metric::I1mr => seq!['I', '1', 'm', 'r'],
        Metric::ILmr => seq!['I', 'L', 'm', 'r'],
        Metric::Dr => seq!['D', 'r'],
        Metric::D1mr => seq!['D', '1', 'm', 'r'],
        Metric::DLmr => seq!['D', 'L', 'm', 'r'],
        Metric::Dw => seq!['D', 'w'],
        Metric::D1mw => seq!['D', '1', 'm', 'w'],
        Metric::DLmw => seq!['D', 'L', 'm', 'w'],
        Metric::Bc => seq!['B', 'c'],
        Metric::Bcm => seq!['B', 'c', 'm'],
        Metric::Bi => seq!['B', 'i'],
        Metric::Bim => seq!['B', 'i', 'm'],
    }
}

/// The metric whose label is exactly the span `[a, b)`, if there is one.
pub open spec fn metric_at(s: Seq<char>, a: int, b: int) -> Option<Metric> {
    let t = s.subrange(a, b);
    if t == metric_name(Metric::Ir) {
        Some(Metric::Ir)
    } else if t == metric_name(Metric::I1mr) {
        Some(Metric::I1mr)
    } else if t == metric_name(Metric::ILmr) {
        Some(Metric::ILmr)
    } else if t == metric_name(Metric::Dr) {
        Some(Metric::Dr)
    } else if t == metric_name(Metric::D1mr) {
        Some(Metric::D1mr)
    } else if t == metric_name(Metric::DLmr) {
        Some(Metric::DLmr)
    } else if t == metric_name(Metric::Dw) {
        Some(Metric::Dw)
    } else if t == metric_name(Metric::D1mw) {
        Some(Metric::D1mw)
    } else if t == metric_name(Metric::DLmw) {
        Some(Metric::DLmw)
    } else if t == metric_name(Metric::Bc) {
        Some(Metric::Bc)
    } else if t == metric_name(Metric::Bcm) {
        Some(Metric::Bcm)
    } else if t == metric_name(Metric::Bi) {
        Some(Metric::Bi)
    } else if t == metric_name(Metric::Bim) {
        Some(Metric::Bim)
    } else {
        None
    }
}

pub fn metric_in_span(s: &Vec<char>, a: usize, b: usize) -> (r: Option<Metric>)
    requires
        a <= b <= s@.len(),
    ensures
        r == metric_at(s@, a as int, b as int),
{
    if span_equals(s, a, b, &['I', 'r']) {
        return Some(Metric::Ir);
    }
    if span_equals(s, a, b, &['I', '1', 'm', 'r']) {
        return Some(Metric::I1mr);
    }
    if span_equals(s, a, b, &['I', 'L', 'm', 'r']) {
        return Some(Metric::ILmr);
    }
    if span_equals(s, a, b, &['D', 'r']) {
        return Some(Metric::Dr);
    }
    if span_equals(s, a, b, &['D', '1', 'm', 'r']) {
        return Some(Metric::D1mr);
    }
    if span_equals(s, a, b, &['D', 'L', 'm', 'r']) {
        return Some(Metric::DLmr);
    }
    if span_equals(s, a, b, &['D', 'w']) {
        return Some(Metric::Dw);
    }
    if span_equals(s, a, b, &['D', '1', 'm', 'w']) {
        return Some(Metric::D1mw);
    }
    if span_equals(s, a, b, &['D', 'L', 'm', 'w']) {
        return Some(Metric::DLmw);
    }
    if span_equals(s, a, b, &['B', 'c']) {
        return Some(Metric::Bc);
    }
    if span_equals(s, a, b, &['B', 'c', 'm']) {
        return Some(Metric::Bcm);
    }
    if span_equals(s, a, b, &['B', 'i']) {
        return Some(Metric::Bi);
    }
    if span_equals(s, a, b, &['B', 'i', 'm']) {
        return Some(Metric::Bim);
    }
    None
}

impl Metric {
    /// The metric that a label names; `None` for a label that is no metric.
    pub fn from_name(name: &str) -> (r: Option<Metric>)
        ensures
            r == metric_at(name@, 0, name@.len() as int),
    {
        let v = chars_of(name);
        proof {
            assert(v@.subrange(0, v@.len() as int) =~= name@.subrange(0, name@.len() as int));
        }
        metric_in_span(&v, 0, v.len())
    }

    /// The label of the metric.
    pub fn label(&self) -> (r: Vec<char>)
        ensures
            r@ == metric_name(*self),
    {
        match self {
            Metric::Ir => vec!['I', 'r'],
            Metric::I1mr => vec!['I', '1', 'm', 'r'],
            Metric::ILmr => vec!['I', 'L', 'm', 'r'],
            Metric::Dr => vec!['D', 'r'],
            Metric::D1mr => vec!['D', '1', 'm', 'r'],
            Metric::DLmr => vec!['D', 'L', 'm', 'r'],
            Metric::Dw => vec!['D', 'w'],
            Metric::D1mw => vec!['D', '1', 'm', 'w'],
            Metric::DLmw => vec!['D', 'L', 'm', 'w'],
            Metric::Bc => vec!['B', 'c'],
            Metric::Bcm => vec!['B', 'c', 'm'],
            Metric::Bi => vec!['B', 'i'],
            Metric::Bim => vec!['B', 'i', 'm'],
        }
    }
}

} // verus!
