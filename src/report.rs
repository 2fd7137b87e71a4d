//! The report: a summary of counts and totals over all rows, then one line
//! per selected row, and the entry points that read, rank and render.
use vstd::prelude::*;
use crate::format::{grouped, push_grouped};
use crate::metric::{metric_at, metric_name, Metric};
use crate::parse::{
    find_metric, lemma_find_metric, lemma_parse_from_rows_fit, metric_index, parse_chars, parse_text, rows_view, ErrorView, ParseError,
    ParsedReport, ProfilerMode, Row, RowView,
};
use crate::select::{
    has_column, law_select_all, lemma_selected_rows_fit, select_rows, sort_rows, Selection,
};
use crate::text::{chars_of, string_of};

verus! {

/// The order of the rows in the report.
#[derive(Clone, Copy, Debug, PartialEq, Eq, Structural)]
pub enum SortSpec {
    /// Instruction-count reports by cost, largest first; cache reports in
    /// the order of the tool's output.
    Default,
    /// By the count of one metric, largest first.
    By(Metric),
}

/// The sum of column `k` over the rows.
pub open spec fn col_sum(rows: Seq<RowView>, k: int) -> nat
    decreases rows.len(),
{
    if rows.len() == 0 {
        0
    } else {
        col_sum(rows.drop_last(), k) + rows.last().values[k] as nat
    }
}

pub open spec fn pad_left(x: Seq<char>, w: nat) -> Seq<char> {
    if x.len() >= w {
        x
    } else {
        Seq::new((w - x.len()) as nat, |i: int| ' ') + x
    }
}

pub open spec fn functions_label() -> Seq<char> {
    seq!['F', 'u', 'n', 'c', 't', 'i', 'o', 'n', 's', ':', ' ']
}

pub open spec fn total_label() -> Seq<char> {
    seq!['T', 'o', 't', 'a', 'l', ' ']
}

/// One line per column: its label and its sum over all rows.
pub open spec fn totals_text(cols: Seq<Metric>, rows: Seq<RowView>, n: int) -> Seq<char>
    decreases n,
{
    if n <= 0 {
        seq![]
    } else {
        totals_text(cols, rows, n - 1) + total_label() + metric_name(cols[n - 1]) + seq![':', ' ']
            + grouped(col_sum(rows, n - 1)) + seq!['\n']
    }
}

/// The summary block: the number of rows, then the total of each column.
pub open spec fn summary_text(cols: Seq<Metric>, rows: Seq<RowView>) -> Seq<char> {
    functions_label() + grouped(rows.len()) + seq!['\n'] + totals_text(cols, rows, cols.len() as int)
}

/// The width of column `k` in the listing: that of its widest count.
pub open spec fn col_width(rows: Seq<RowView>, k: int) -> nat
    decreases rows.len(),
{
    if rows.len() == 0 {
        0
    } else {
        let w = col_width(rows.drop_last(), k);
        let g = grouped(rows.last().values[k] as nat).len();
        if g > w {
            g
        } else {
            w
        }
    }
}

/// The widths of the first `n` columns of the listing of `rows`.
pub open spec fn widths_of(rows: Seq<RowView>, n: nat) -> Seq<nat> {
    Seq::new(n, |k: int| col_width(rows, k))
}

pub open spec fn nat_seq(ws: Seq<usize>) -> Seq<nat> {
    ws.map_values(|w: usize| w as nat)
}

/// The counts of a row, each padded on the left to the width of its
/// column and followed by two spaces.
pub open spec fn values_text(vs: Seq<u64>, ws: Seq<nat>) -> Seq<char>
    decreases vs.len(),
{
    if vs.len() == 0 {
        seq![]
    } else {
        values_text(vs.drop_last(), ws) + pad_left(grouped(vs.last() as nat), ws[vs.len() - 1])
            + seq![' ', ' ']
    }
}

pub open spec fn calls_text(calls: Option<u64>) -> Seq<char> {
    match calls {
        Some(c) => seq!['('] + grouped(c as nat) + seq!['x', ')', ' '],
        None => seq![],
    }
}

pub open spec fn row_line(r: RowView, ws: Seq<nat>) -> Seq<char> {
    values_text(r.values, ws) + calls_text(r.calls) + r.name + seq!['\n']
}

pub open spec fn rows_text(rows: Seq<RowView>, ws: Seq<nat>) -> Seq<char>
    decreases rows.len(),
{
    if rows.len() == 0 {
        seq![]
    } else {
        rows_text(rows.drop_last(), ws) + row_line(rows.last(), ws)
    }
}

/// The whole report: the summary over all rows, a blank line, then the
/// selected rows in their order.
pub open spec fn render(cols: Seq<Metric>, rows: Seq<RowView>, shown: Seq<RowView>) -> Seq<char> {
    summary_text(cols, rows) + seq!['\n'] + rows_text(shown, widths_of(shown, cols.len()))
}

/// The column to sort by, if any, or the error for a metric that the
/// report has no column for.
pub open spec fn sort_key(mode: ProfilerMode, cols: Seq<Metric>, sort: SortSpec) -> Result<
    Option<int>,
    ErrorView,
> {
    match sort {
        SortSpec::By(m) => if find_metric(cols, m, 0) < cols.len() {
            Ok(Some(find_metric(cols, m, 0)))
        } else {
            Err(ErrorView::UnknownMetric { name: metric_name(m) })
        },
        SortSpec::Default => if mode == ProfilerMode::InstructionCount && find_metric(
            cols,
            Metric::Ir,
            0,
        ) < cols.len() {
            Ok(Some(find_metric(cols, Metric::Ir, 0)))
        } else {
            Ok(None)
        },
    }
}

/// The report text for parsed columns and rows.
pub open spec fn report_of(
    mode: ProfilerMode,
    cols: Seq<Metric>,
    rows: Seq<RowView>,
    count: Selection,
    sort: SortSpec,
) -> Result<Seq<char>, ErrorView> {
    match sort_key(mode, cols, sort) {
        Err(e) => Err(e),
        Ok(key) => Ok(render(cols, rows, select_rows(rows, key, count))),
    }
}

/// The report text for the raw output of a profiling tool.
pub open spec fn profile_text(mode: ProfilerMode, s: Seq<char>, count: Selection, sort: SortSpec) -> Result<
    Seq<char>,
    ErrorView,
> {
    match parse_text(mode, s) {
        Err(e) => Err(e),
        Ok((cols, rows)) => report_of(mode, cols, rows, count, sort),
    }
}

pub fn push_all(out: &mut Vec<char>, lit: &[char])
    ensures
        final(out)@ == old(out)@ + lit@,
{
    let ghost start = out@;
    let mut k: usize = 0;
    while k < lit.len()
        invariant
            k <= lit@.len(),
            out@ == start + lit@.take(k as int),
        decreases lit@.len() - k,
    {
        out.push(lit[k]);
        k += 1;
        proof {
            assert(out@ =~= start + lit@.take(k as int));
        }
    }
    proof {
        assert(lit@.take(k as int) =~= lit@);
    }
}

} // verus!

verus! {

pub proof fn lemma_col_sum_bound(rows: Seq<RowView>, k: int)
    ensures
        col_sum(rows, k) <= rows.len() * (u64::MAX as nat),
    decreases rows.len(),
{
    if rows.len() > 0 {
        lemma_col_sum_bound(rows.drop_last(), k);
        assert(col_sum(rows, k) <= rows.len() * (u64::MAX as nat)) by (nonlinear_arith)
            requires
                col_sum(rows, k) == col_sum(rows.drop_last(), k) + rows.last().values[k] as nat,
                col_sum(rows.drop_last(), k) <= (rows.len() - 1) * (u64::MAX as nat),
                rows.last().values[k] <= u64::MAX,
        ;
    }
}

/// The sum of column `k` over all rows.
pub fn column_sum(rows: &Vec<Row>, k: usize) -> (r: u128)
    requires
        has_column(rows_view(rows@), k as int),
    ensures
        r as nat == col_sum(rows_view(rows@), k as int),
{
    let ghost all = rows_view(rows@);
    let mut acc: u128 = 0;
    let mut i: usize = 0;
    while i < rows.len()
        invariant
            all == rows_view(rows@),
            has_column(all, k as int),
            i <= rows@.len(),
            acc as nat == col_sum(all.take(i as int), k as int),
        decreases rows@.len() - i,
    {
        proof {
            assert(all.take(i + 1).drop_last() =~= all.take(i as int));
            assert(all[i as int] == rows@[i as int]@);
            assert(0 <= k < all[i as int].values.len());
            lemma_col_sum_bound(all.take(i + 1), k as int);
            assert((i + 1) * (u64::MAX as nat) <= u128::MAX) by (nonlinear_arith)
                requires
                    i < usize::MAX,
            ;
        }
        acc = acc + rows[i].values[k] as u128;
        i += 1;
    }
    proof {
        assert(all.take(i as int) =~= all);
    }
    acc
}

fn push_totals(out: &mut Vec<char>, cols: &Vec<Metric>, rows: &Vec<Row>)
    requires
        forall|k: int| 0 <= k < cols@.len() ==> has_column(rows_view(rows@), k),
    ensures
        final(out)@ == old(out)@ + totals_text(cols@, rows_view(rows@), cols@.len() as int),
{
    let ghost start = out@;
    let mut k: usize = 0;
    while k < cols.len()
        invariant
            k <= cols@.len(),
            forall|j: int| 0 <= j < cols@.len() ==> has_column(rows_view(rows@), j),
            out@ == start + totals_text(cols@, rows_view(rows@), k as int),
        decreases cols@.len() - k,
    {
        push_all(out, &['T', 'o', 't', 'a', 'l', ' ']);
        let label = cols[k].label();
        push_all(out, label.as_slice());
        push_all(out, &[':', ' ']);
        let sum = column_sum(rows, k);
        push_grouped(out, sum);
        out.push('\n');
        k += 1;
        proof {
            assert(out@ =~= start + totals_text(cols@, rows_view(rows@), k as int));
        }
    }
}

/// The width of column `k` over the rows.
fn column_width(rows: &Vec<Row>, k: usize) -> (r: usize)
    requires
        has_column(rows_view(rows@), k as int),
    ensures
        r as nat == col_width(rows_view(rows@), k as int),
{
    let ghost all = rows_view(rows@);
    let mut w: usize = 0;
    let mut i: usize = 0;
    while i < rows.len()
        invariant
            all == rows_view(rows@),
            has_column(all, k as int),
            i <= rows@.len(),
            w as nat == col_width(all.take(i as int), k as int),
        decreases rows@.len() - i,
    {
        proof {
            assert(all.take(i + 1).drop_last() =~= all.take(i as int));
            assert(all[i as int] == rows@[i as int]@);
            assert(0 <= k < all[i as int].values.len());
        }
        let mut num: Vec<char> = Vec::new();
        push_grouped(&mut num, rows[i].values[k] as u128);
        assert(num@ =~= grouped(all[i as int].values[k as int] as nat));
        if num.len() > w {
            w = num.len();
        }
        i += 1;
    }
    proof {
        assert(all.take(i as int) =~= all);
    }
    w
}

fn push_values(out: &mut Vec<char>, vs: &Vec<u64>, ws: &Vec<usize>)
    requires
        vs@.len() <= ws@.len(),
    ensures
        final(out)@ == old(out)@ + values_text(vs@, nat_seq(ws@)),
{
    let ghost start = out@;
    let ghost wn = nat_seq(ws@);
    let mut k: usize = 0;
    while k < vs.len()
        invariant
            vs@.len() <= ws@.len(),
            wn == nat_seq(ws@),
            k <= vs@.len(),
            out@ == start + values_text(vs@.take(k as int), wn),
        decreases vs@.len() - k,
    {
        let ghost before = out@;
        let mut num: Vec<char> = Vec::new();
        push_grouped(&mut num, vs[k] as u128);
        assert(num@ =~= grouped(vs@[k as int] as nat));
        let width = ws[k];
        if num.len() < width {
            let mut pad: usize = width - num.len();
            while pad > 0
                invariant
                    pad <= width - num@.len(),
                    out@ == before + Seq::new((width - num@.len() - pad) as nat, |i: int| ' '),
                decreases pad,
            {
                out.push(' ');
                pad -= 1;
                proof {
                    assert(out@ =~= before + Seq::new((width - num@.len() - pad) as nat, |i: int| ' '));
                }
            }
        }
        push_all(out, num.as_slice());
        push_all(out, &[' ', ' ']);
        proof {
            assert(wn[k as int] == width as nat);
            assert(vs@.take(k + 1).drop_last() =~= vs@.take(k as int));
            assert(out@ =~= before + pad_left(num@, width as nat) + seq![' ', ' ']);
        }
        k += 1;
        proof {
            assert(out@ =~= start + values_text(vs@.take(k as int), wn));
        }
    }
    proof {
        assert(vs@.take(k as int) =~= vs@);
    }
}

fn push_row(out: &mut Vec<char>, r: &Row, ws: &Vec<usize>)
    requires
        r.values@.len() <= ws@.len(),
    ensures
        final(out)@ == old(out)@ + row_line(r@, nat_seq(ws@)),
{
    let ghost start = out@;
    push_values(out, &r.values, ws);
    match r.calls {
        Some(c) => {
            out.push('(');
            push_grouped(out, c as u128);
            push_all(out, &['x', ')', ' ']);
        },
        None => {},
    }
    let name = r.name.as_str();
    let name_chars = chars_of(name);
    push_all(out, name_chars.as_slice());
    out.push('\n');
    proof {
        assert(out@ =~= start + row_line(r@, nat_seq(ws@)));
    }
}

fn push_rows(out: &mut Vec<char>, rows: &Vec<Row>, ws: &Vec<usize>)
    requires
        forall|i: int| 0 <= i < rows@.len() ==> (#[trigger] rows@[i]).values@.len() <= ws@.len(),
    ensures
        final(out)@ == old(out)@ + rows_text(rows_view(rows@), nat_seq(ws@)),
{
    let ghost start = out@;
    let ghost all = rows_view(rows@);
    let mut i: usize = 0;
    while i < rows.len()
        invariant
            all == rows_view(rows@),
            forall|i: int| 0 <= i < rows@.len() ==> (#[trigger] rows@[i]).values@.len() <= ws@.len(),
            i <= rows@.len(),
            out@ == start + rows_text(all.take(i as int), nat_seq(ws@)),
        decreases rows@.len() - i,
    {
        push_row(out, &rows[i], ws);
        proof {
            assert(all.take(i + 1).drop_last() =~= all.take(i as int));
            assert(all[i as int] == rows@[i as int]@);
        }
        i += 1;
        proof {
            assert(out@ =~= start + rows_text(all.take(i as int), nat_seq(ws@)));
        }
    }
    proof {
        assert(all.take(i as int) =~= all);
    }
}

pub open spec fn key_int(key: Option<usize>) -> Option<int> {
    match key {
        Some(k) => Some(k as int),
        None => None,
    }
}

/// Sorts the rows by column `key`, where one is given, and keeps `count` of them.
pub fn select(rows: Vec<Row>, key: Option<usize>, count: Selection) -> (r: Vec<Row>)
    requires
        key matches Some(k) ==> has_column(rows_view(rows@), k as int),
    ensures
        rows_view(r@) == select_rows(rows_view(rows@), key_int(key), count),
{
    let ghost all = rows_view(rows@);
    let mut sorted = match key {
        Some(k) => sort_rows(rows, k),
        None => rows,
    };
    let ghost before = sorted@;
    match count {
        Selection::All => {},
        Selection::Top(n) => {
            sorted.truncate(n);
            proof {
                if n < before.len() {
                    assert(rows_view(sorted@) =~= rows_view(before).take(n as int));
                }
            }
        },
    }
    sorted
}

} // verus!

verus! {

/// Renders parsed rows: the summary over all of them, then the rows that
/// `sort` and `count` select. Fails with `UnknownMetric` where `sort` names
/// a metric that the report has no column for.
pub fn report(parsed: ParsedReport, count: Selection, sort: SortSpec) -> (r: Result<String, ParseError>)
    requires
        parsed.wf(),
    ensures
        match r {
            Ok(text) => report_of(parsed.mode, parsed.columns@, parsed.rows_spec(), count, sort)
                == Ok::<_, ErrorView>(text@),
            Err(e) => report_of(parsed.mode, parsed.columns@, parsed.rows_spec(), count, sort)
                == Err::<Seq<char>, _>(e@),
        },
{
    let ParsedReport { mode, columns, rows } = parsed;
    let ghost all = rows_view(rows@);
    proof {
        assert forall|k: int| 0 <= k < columns@.len() implies has_column(all, k) by {
            assert forall|i: int| 0 <= i < all.len() implies 0 <= k < (#[trigger] all[i]).values.len() by {
                assert(all[i] == rows@[i]@);
            }
        }
    }
    let key: Option<usize> = match sort {
        SortSpec::By(m) => {
            let k = metric_index(&columns, m);
            if k >= columns.len() {
                let label = m.label();
                return Err(ParseError::UnknownMetric { name: string_of(&label) });
            }
            Some(k)
        },
        SortSpec::Default => {
            let k = metric_index(&columns, Metric::Ir);
            if mode == ProfilerMode::InstructionCount && k < columns.len() {
                Some(k)
            } else {
                None
            }
        },
    };
    let mut out: Vec<char> = Vec::new();
    push_all(&mut out, &['F', 'u', 'n', 'c', 't', 'i', 'o', 'n', 's', ':', ' ']);
    push_grouped(&mut out, rows.len() as u128);
    out.push('\n');
    push_totals(&mut out, &columns, &rows);
    out.push('\n');
    let shown = select(rows, key, count);
    let ghost sv = rows_view(shown@);
    proof {
        lemma_selected_rows_fit(all, key_int(key), count, columns@.len());
        assert forall|k: int| 0 <= k < columns@.len() implies has_column(sv, k) by {
            assert forall|i: int| 0 <= i < sv.len() implies 0 <= k < (#[trigger] sv[i]).values.len() by {}
        }
        assert forall|i: int| 0 <= i < shown@.len() implies (#[trigger] shown@[i]).values@.len()
            <= columns@.len() by {
            assert(sv[i] == shown@[i]@);
        }
    }
    let mut ws: Vec<usize> = Vec::new();
    let mut k: usize = 0;
    while k < columns.len()
        invariant
            k <= columns@.len(),
            sv == rows_view(shown@),
            forall|k: int| 0 <= k < columns@.len() ==> has_column(sv, k),
            ws@.len() == k,
            forall|j: int| 0 <= j < k ==> (#[trigger] ws@[j]) as nat == col_width(sv, j),
        decreases columns@.len() - k,
    {
        let w = column_width(&shown, k);
        ws.push(w);
        k += 1;
    }
    proof {
        assert(nat_seq(ws@) =~= widths_of(sv, columns@.len()));
    }
    push_rows(&mut out, &shown, &ws);
    proof {
        assert(out@ =~= render(columns@, all, sv));
    }
    Ok(string_of(&out))
}

/// Reads the raw output of the profiling tool of `mode` and renders the
/// ranked report; see [`parse_chars`] and [`report`].
pub fn profile(mode: ProfilerMode, text: &str, count: Selection, sort: SortSpec) -> (r: Result<String, ParseError>)
    requires
        text@.len() < usize::MAX,
    ensures
        match r {
            Ok(out) => profile_text(mode, text@, count, sort) == Ok::<_, ErrorView>(out@),
            Err(e) => profile_text(mode, text@, count, sort) == Err::<Seq<char>, _>(e@),
        },
{
    let s = chars_of(text);
    match parse_chars(mode, &s) {
        Err(e) => Err(e),
        Ok(parsed) => report(parsed, count, sort),
    }
}

/// The sort order that a metric label asks for; a label that names no
/// metric fails with `UnknownMetric`.
pub fn sort_spec_from_name(name: &str) -> (r: Result<SortSpec, ParseError>)
    ensures
        match metric_at(name@, 0, name@.len() as int) {
            Some(m) => r == Ok::<_, ParseError>(SortSpec::By(m)),
            None => r matches Err(e) && e@ == ErrorView::UnknownMetric { name: name@ },
        },
{
    match Metric::from_name(name) {
        Some(m) => Ok(SortSpec::By(m)),
        None => Err(ParseError::UnknownMetric { name: name.to_owned() }),
    }
}

} // verus!

verus! {

/// With every row selected and the default order, the report lists every
/// parsed row once (the same rows, as a multiset) after a summary whose
/// totals are the sums of each column over all rows.
pub proof fn law_report_lists_every_row(mode: ProfilerMode, cols: Seq<Metric>, rows: Seq<RowView>)
    requires
        forall|k: int| 0 <= k < cols.len() ==> has_column(rows, k),
    ensures
        ({
            let key = sort_key(mode, cols, SortSpec::Default)->Ok_0;
            let shown = select_rows(rows, key, Selection::All);
            &&& sort_key(mode, cols, SortSpec::Default) is Ok
            &&& report_of(mode, cols, rows, Selection::All, SortSpec::Default) == Ok::<
                _,
                ErrorView,
            >(render(cols, rows, shown))
            &&& shown.len() == rows.len()
            &&& shown.to_multiset() == rows.to_multiset()
            &&& render(cols, rows, shown) == functions_label() + grouped(rows.len()) + seq!['\n']
                + totals_text(cols, rows, cols.len() as int) + seq!['\n'] + rows_text(shown, widths_of(shown, cols.len()))
        }),
{
    let key = sort_key(mode, cols, SortSpec::Default)->Ok_0;
    lemma_find_metric(cols, Metric::Ir, 0);
    if let Some(k) = key {
        assert(has_column(rows, k));
    }
    law_select_all(rows, key);
}

/// For raw text that parses, into rows that stand for its data lines: with
/// every row selected and the default order, the report is rendered from
/// all of them, lists each once, and its totals are the column sums over
/// all of them.
pub proof fn law_full_report_from_text(mode: ProfilerMode, s: Seq<char>)
    requires
        parse_text(mode, s) is Ok,
    ensures
        ({
            let (cols, rows) = parse_text(mode, s)->Ok_0;
            let key = sort_key(mode, cols, SortSpec::Default)->Ok_0;
            let shown = select_rows(rows, key, Selection::All);
            &&& profile_text(mode, s, Selection::All, SortSpec::Default) == Ok::<_, ErrorView>(
                render(cols, rows, shown),
            )
            &&& shown.len() == rows.len()
            &&& shown.to_multiset() == rows.to_multiset()
        }),
{
    let (cols, rows) = parse_text(mode, s)->Ok_0;
    lemma_parse_from_rows_fit(mode, s, 0, 1, None, seq![]);
    assert forall|k: int| 0 <= k < cols.len() implies has_column(rows, k) by {
        assert forall|i: int| 0 <= i < rows.len() implies 0 <= k < (
        #[trigger] rows[i]).values.len() by {
            assert(rows[i].values.len() == cols.len());
        }
    }
    law_report_lists_every_row(mode, cols, rows);
}

/// Sorting by a metric that the report has no column for fails with
/// `UnknownMetric`, whatever the rows and the count: no report is produced.
pub proof fn law_unknown_metric(
    mode: ProfilerMode,
    cols: Seq<Metric>,
    rows: Seq<RowView>,
    count: Selection,
    m: Metric,
)
    requires
        find_metric(cols, m, 0) >= cols.len(),
    ensures
        report_of(mode, cols, rows, count, SortSpec::By(m)) == Err::<Seq<char>, _>(
            ErrorView::UnknownMetric { name: metric_name(m) },
        ),
{
}

/// The same raw text, count and order always give the same report, or the
/// same error.
pub proof fn law_same_input_same_report(
    mode: ProfilerMode,
    s1: Seq<char>,
    s2: Seq<char>,
    count: Selection,
    sort: SortSpec,
)
    requires
        s1 == s2,
    ensures
        profile_text(mode, s1, count, sort) == profile_text(mode, s2, count, sort),
{
}

} // verus!
