//! The two mode parsers: they walk the lines of a tool's report, find the
//! header that names the metric columns, and read one row per data line.
use vstd::prelude::*;
use crate::metric::{metric_at, metric_in_span, Metric};
use crate::text::{
    check_call_count, check_number, check_percent, check_rule, digits_value, field_end,
    find_field_end, find_line_end, is_call_count, is_number, is_percent, is_rule, line_end,
    chars_of, number_value, skip_spaces, skip_ws, span_equals, string_of, trim_end,
    trim_span_end,
};

verus! {

/// Which of the two profiling tools wrote the report.
#[derive(Clone, Copy, Debug, PartialEq, Eq, Structural)]
pub enum ProfilerMode {
    InstructionCount,
    CacheBehavior,
}

/// Why a report could not be read or ranked. Line numbers count from 1.
#[derive(Clone, Debug, PartialEq, Eq)]
pub enum ParseError {
    /// No data line was found.
    EmptyOutput,
    /// A data line came before any header that names the cost column.
    MalformedHeader { line: usize },
    /// A data line holds another number of counts than the header has columns.
    ColumnMismatch { line: usize, expected: usize, found: usize },
    /// The requested sort metric is not among this report's columns.
    UnknownMetric { name: String },
    /// A count does not fit in 64 bits.
    UnparseableNumber { line: usize, text: String },
}

pub ghost enum ErrorView {
    EmptyOutput,
    MalformedHeader { line: nat },
    ColumnMismatch { line: nat, expected: nat, found: nat },
    UnknownMetric { name: Seq<char> },
    UnparseableNumber { line: nat, text: Seq<char> },
}

impl View for ParseError {
    type V = ErrorView;

    open spec fn view(&self) -> ErrorView {
        match self {
            ParseError::EmptyOutput => ErrorView::EmptyOutput,
            ParseError::MalformedHeader { line } => ErrorView::MalformedHeader { line: *line as nat },
            ParseError::ColumnMismatch { line, expected, found } => ErrorView::ColumnMismatch {
                line: *line as nat,
                expected: *expected as nat,
                found: *found as nat,
            },
            ParseError::UnknownMetric { name } => ErrorView::UnknownMetric { name: name@ },
            ParseError::UnparseableNumber { line, text } => ErrorView::UnparseableNumber {
                line: *line as nat,
                text: text@,
            },
        }
    }
}

/// One function of the report: its counts, in the order of the header's
/// columns, the number of calls where the tool gives it, and its name.
#[derive(Clone, Debug)]
pub struct Row {
    pub name: String,
    pub values: Vec<u64>,
    pub calls: Option<u64>,
}

pub ghost struct RowView {
    pub name: Seq<char>,
    pub values: Seq<u64>,
    pub calls: Option<u64>,
}

impl View for Row {
    type V = RowView;

    open spec fn view(&self) -> RowView {
        RowView { name: self.name@, values: self.values@, calls: self.calls }
    }
}

pub open spec fn rows_view(rows: Seq<Row>) -> Seq<RowView> {
    rows.map_values(|r: Row| r@)
}

/// The counts at the start of a data line, as far as they reach.
pub ghost enum Scan {
    /// The counts, and where the rest of the line starts.
    Fields(Seq<u64>, int),
    /// The count at `[a, b)` does not fit in 64 bits.
    Overflow(int, int),
}

/// Reads counts from `p` on: numeric fields give a count each, percentage
/// fields are passed over, and the first other field ends the counts.
pub open spec fn scan(s: Seq<char>, p: int, e: int) -> Scan
    decreases e - p,
{
    let q = skip_ws(s, p, e);
    let r = field_end(s, q, e);
    if q < p || q >= e || r <= q || r > e {
        Scan::Fields(seq![], q)
    } else if is_number(s, q, r) {
        if digits_value(s, q, r) > u64::MAX {
            Scan::Overflow(q, r)
        } else {
            match scan(s, r, e) {
                Scan::Fields(vs, stop) => Scan::Fields(seq![digits_value(s, q, r) as u64] + vs, stop),
                Scan::Overflow(a, b) => Scan::Overflow(a, b),
            }
        }
    } else if is_percent(s, q, r) {
        scan(s, r, e)
    } else {
        Scan::Fields(seq![], q)
    }
}

pub open spec fn prepend(vs: Seq<u64>, sc: Scan) -> Scan {
    match sc {
        Scan::Fields(rest, stop) => Scan::Fields(vs + rest, stop),
        Scan::Overflow(a, b) => Scan::Overflow(a, b),
    }
}

/// The metric columns of a header: the run of metric labels from `p` on.
pub open spec fn header_cols(s: Seq<char>, p: int, e: int) -> Seq<Metric>
    decreases e - p,
{
    let q = skip_ws(s, p, e);
    let r = field_end(s, q, e);
    if q < p || q >= e || r <= q || r > e {
        seq![]
    } else {
        match metric_at(s, q, r) {
            Some(m) => seq![m] + header_cols(s, r, e),
            None => seq![],
        }
    }
}

/// The first index of `m` in `cols` from `k` on, or the length where it is absent.
pub open spec fn find_metric(cols: Seq<Metric>, m: Metric, k: int) -> int
    decreases cols.len() - k,
{
    if k >= cols.len() || k < 0 {
        cols.len() as int
    } else if cols[k] == m {
        k
    } else {
        find_metric(cols, m, k + 1)
    }
}

pub open spec fn totals_label() -> Seq<char> {
    seq!['P', 'R', 'O', 'G', 'R', 'A', 'M', ' ', 'T', 'O', 'T', 'A', 'L', 'S']
}

/// What one line contributes.
pub ghost enum LineView {
    Skip,
    Header(Seq<Metric>),
    Data(RowView),
    Fail(ErrorView),
}

/// The part of a data line after its counts: an optional call count in
/// parentheses (instruction-count mode only), then the name.
pub open spec fn tail_of(mode: ProfilerMode, s: Seq<char>, q: int, e: int) -> Result<(Option<u64>, Seq<char>), (int, int)> {
    let r = field_end(s, q, e);
    if mode == ProfilerMode::InstructionCount && q < r && is_call_count(s, q, r) {
        if digits_value(s, q + 1, r - 1) > u64::MAX {
            Err((q + 1, r - 1))
        } else {
            let n = skip_ws(s, r, e);
            Ok((Some(digits_value(s, q + 1, r - 1) as u64), s.subrange(n, trim_end(s, n, e))))
        }
    } else {
        Ok((None, s.subrange(q, trim_end(s, q, e))))
    }
}

/// The meaning of the line `[a, e)`, numbered `line`, under the header found so far.
pub open spec fn line_view(
    mode: ProfilerMode,
    s: Seq<char>,
    a: int,
    e: int,
    line: nat,
    header: Option<Seq<Metric>>,
) -> LineView {
    let t0 = skip_ws(s, a, e);
    let t1 = field_end(s, t0, e);
    if t0 >= e || is_rule(s, t0, trim_end(s, t0, e)) {
        LineView::Skip
    } else if is_number(s, t0, t1) {
        match scan(s, t0, e) {
            Scan::Overflow(x, y) => LineView::Fail(
                ErrorView::UnparseableNumber { line, text: s.subrange(x, y) },
            ),
            Scan::Fields(vs, q) => match tail_of(mode, s, q, e) {
                Err((x, y)) => LineView::Fail(
                    ErrorView::UnparseableNumber { line, text: s.subrange(x, y) },
                ),
                Ok((calls, name)) => if name == totals_label() {
                    LineView::Skip
                } else {
                    match header {
                        None => LineView::Fail(ErrorView::MalformedHeader { line }),
                        Some(cols) => if vs.len() != cols.len() {
                            LineView::Fail(
                                ErrorView::ColumnMismatch {
                                    line,
                                    expected: cols.len(),
                                    found: vs.len(),
                                },
                            )
                        } else {
                            LineView::Data(RowView { name, values: vs, calls })
                        },
                    }
                },
            },
        }
    } else if metric_at(s, t0, t1) is Some {
        let cols = header_cols(s, t0, e);
        if mode == ProfilerMode::InstructionCount && find_metric(cols, Metric::Ir, 0)
            >= cols.len() {
            LineView::Skip
        } else {
            LineView::Header(cols)
        }
    } else {
        LineView::Skip
    }
}

} // verus!

verus! {

pub open spec fn finish(header: Option<Seq<Metric>>, rows: Seq<RowView>) -> Result<
    (Seq<Metric>, Seq<RowView>),
    ErrorView,
> {
    match header {
        Some(cols) => if rows.len() == 0 {
            Err(ErrorView::EmptyOutput)
        } else {
            Ok((cols, rows))
        },
        None => Err(ErrorView::EmptyOutput),
    }
}

/// Parses the lines from position `i` on (the first header found stands for
/// the whole report), the first of them numbered `line`,
/// with the header and the rows found so far.
pub open spec fn parse_from(
    mode: ProfilerMode,
    s: Seq<char>,
    i: int,
    line: nat,
    header: Option<Seq<Metric>>,
    rows: Seq<RowView>,
) -> Result<(Seq<Metric>, Seq<RowView>), ErrorView>
    decreases s.len() + 1 - i,
{
    let e = line_end(s, i);
    if i < 0 || i > s.len() || e < i || e > s.len() {
        finish(header, rows)
    } else {
        match line_view(mode, s, i, e, line, header) {
            LineView::Skip => parse_from(mode, s, e + 1, line + 1, header, rows),
            LineView::Header(cols) => if header is None {
                parse_from(mode, s, e + 1, line + 1, Some(cols), rows)
            } else {
                parse_from(mode, s, e + 1, line + 1, header, rows)
            },
            LineView::Data(r) => parse_from(mode, s, e + 1, line + 1, header, rows.push(r)),
            LineView::Fail(err) => Err(err),
        }
    }
}

/// The metric columns and the rows of a whole report, or why it cannot be read.
pub open spec fn parse_text(mode: ProfilerMode, s: Seq<char>) -> Result<
    (Seq<Metric>, Seq<RowView>),
    ErrorView,
> {
    parse_from(mode, s, 0, 1, None, seq![])
}

/// A report read into rows: the metric columns of its header, and one row
/// per data line in the order of the text.
#[derive(Clone, Debug)]
pub struct ParsedReport {
    pub mode: ProfilerMode,
    pub columns: Vec<Metric>,
    pub rows: Vec<Row>,
}

pub enum LineOutcome {
    Skip,
    Header(Vec<Metric>),
    Data(Row),
    Fail(ParseError),
}

impl View for LineOutcome {
    type V = LineView;

    open spec fn view(&self) -> LineView {
        match self {
            LineOutcome::Skip => LineView::Skip,
            LineOutcome::Header(c) => LineView::Header(c@),
            LineOutcome::Data(r) => LineView::Data(r@),
            LineOutcome::Fail(e) => LineView::Fail(e@),
        }
    }
}

pub open spec fn cols_view(h: Option<Vec<Metric>>) -> Option<Seq<Metric>> {
    match h {
        Some(v) => Some(v@),
        None => None,
    }
}

/// The characters of the span `[a, b)` as a string.
pub fn span_string(s: &Vec<char>, a: usize, b: usize) -> (r: String)
    requires
        a <= b <= s@.len(),
    ensures
        r@ == s@.subrange(a as int, b as int),
{
    let mut v: Vec<char> = Vec::new();
    let mut k: usize = a;
    while k < b
        invariant
            a <= k <= b <= s@.len(),
            v@ == s@.subrange(a as int, k as int),
        decreases b - k,
    {
        v.push(s[k]);
        k += 1;
        proof {
            assert(v@ =~= s@.subrange(a as int, k as int));
        }
    }
    string_of(&v)
}

pub fn scan_counts(s: &Vec<char>, p0: usize, e: usize) -> (r: Result<(Vec<u64>, usize), (usize, usize)>)
    requires
        p0 <= e <= s@.len(),
    ensures
        match r {
            Ok((vs, q)) => scan(s@, p0 as int, e as int) == Scan::Fields(vs@, q as int),
            Err((x, y)) => scan(s@, p0 as int, e as int) == Scan::Overflow(x as int, y as int),
        },
        match r {
            Ok((vs, q)) => p0 <= q <= e,
            Err((x, y)) => p0 <= x <= y <= e,
        },
{
    let mut vals: Vec<u64> = Vec::new();
    let mut p: usize = p0;
    loop
        invariant
            p0 <= p <= e <= s@.len(),
            scan(s@, p0 as int, e as int) == prepend(vals@, scan(s@, p as int, e as int)),
        decreases e - p,
    {
        let q = skip_spaces(s, p, e);
        let r = find_field_end(s, q, e);
        if q >= e || r <= q {
            proof {
                assert(vals@ + seq![] =~= vals@);
            }
            return Ok((vals, q));
        }
        if check_number(s, q, r) {
            match number_value(s, q, r) {
                None => {
                    return Err((q, r));
                },
                Some(v) => {
                    proof {
                        let old_vals = vals@;
                        match scan(s@, r as int, e as int) {
                            Scan::Fields(vs, stop) => {
                                assert(old_vals + (seq![v] + vs) =~= old_vals.push(v) + vs);
                            },
                            Scan::Overflow(x, y) => {},
                        }
                    }
                    vals.push(v);
                    p = r;
                },
            }
        } else if check_percent(s, q, r) {
            p = r;
        } else {
            proof {
                assert(vals@ + seq![] =~= vals@);
            }
            return Ok((vals, q));
        }
    }
}

pub fn header_columns(s: &Vec<char>, p0: usize, e: usize) -> (r: Vec<Metric>)
    requires
        p0 <= e <= s@.len(),
    ensures
        r@ == header_cols(s@, p0 as int, e as int),
{
    let mut cols: Vec<Metric> = Vec::new();
    let mut p: usize = p0;
    loop
        invariant
            p0 <= p <= e <= s@.len(),
            header_cols(s@, p0 as int, e as int) == cols@ + header_cols(s@, p as int, e as int),
        decreases e - p,
    {
        let q = skip_spaces(s, p, e);
        let r = find_field_end(s, q, e);
        if q >= e || r <= q {
            proof {
                assert(cols@ + seq![] =~= cols@);
            }
            return cols;
        }
        match metric_in_span(s, q, r) {
            Some(m) => {
                proof {
                    assert(cols@ + (seq![m] + header_cols(s@, r as int, e as int)) =~= cols@.push(
                        m,
                    ) + header_cols(s@, r as int, e as int));
                }
                cols.push(m);
                p = r;
            },
            None => {
                proof {
                    assert(cols@ + seq![] =~= cols@);
                }
                return cols;
            },
        }
    }
}

pub proof fn lemma_find_metric(cols: Seq<Metric>, m: Metric, k: int)
    requires
        0 <= k,
    ensures
        k <= find_metric(cols, m, k) <= cols.len() || find_metric(cols, m, k) == cols.len(),
        find_metric(cols, m, k) < cols.len() ==> cols[find_metric(cols, m, k)] == m,
    decreases cols.len() - k,
{
    if k < cols.len() && cols[k] != m {
        lemma_find_metric(cols, m, k + 1);
    }
}

/// The index of the first column that holds `m`, or the number of columns.
pub fn metric_index(cols: &Vec<Metric>, m: Metric) -> (r: usize)
    ensures
        r == find_metric(cols@, m, 0),
        r <= cols@.len(),
{
    let mut k: usize = 0;
    while k < cols.len()
        invariant
            k <= cols@.len(),
            find_metric(cols@, m, k as int) == find_metric(cols@, m, 0),
        decreases cols@.len() - k,
    {
        if cols[k] == m {
            return k;
        }
        k += 1;
    }
    k
}

} // verus!

verus! {

/// Reads the part of a data line after its counts.
fn line_tail(mode: ProfilerMode, s: &Vec<char>, q: usize, e: usize) -> (r: Result<(Option<u64>, String), (usize, usize)>)
    requires
        q <= e <= s@.len(),
    ensures
        match r {
            Ok((calls, name)) => tail_of(mode, s@, q as int, e as int) == Ok::<_, (int, int)>((calls, name@)),
            Err((x, y)) => tail_of(mode, s@, q as int, e as int) == Err::<(Option<u64>, Seq<char>), _>((x as int, y as int)),
        },
        match r {
            Ok(_) => true,
            Err((x, y)) => x <= y <= e,
        },
{
    let r = find_field_end(s, q, e);
    if mode == ProfilerMode::InstructionCount && q < r && check_call_count(s, q, r) {
        match number_value(s, q + 1, r - 1) {
            None => Err((q + 1, r - 1)),
            Some(n) => {
                let start = skip_spaces(s, r, e);
                let end = trim_span_end(s, start, e);
                Ok((Some(n), span_string(s, start, end)))
            },
        }
    } else {
        let end = trim_span_end(s, q, e);
        Ok((None, span_string(s, q, end)))
    }
}

/// What the line `[a, e)`, numbered `line`, contributes under the header found so far.
pub fn parse_line(
    mode: ProfilerMode,
    s: &Vec<char>,
    a: usize,
    e: usize,
    line: usize,
    header: &Option<Vec<Metric>>,
) -> (r: LineOutcome)
    requires
        a <= e <= s@.len(),
    ensures
        r@ == line_view(mode, s@, a as int, e as int, line as nat, cols_view(*header)),
{
    let t0 = skip_spaces(s, a, e);
    let t1 = find_field_end(s, t0, e);
    if t0 >= e {
        return LineOutcome::Skip;
    }
    let te = trim_span_end(s, t0, e);
    if check_rule(s, t0, te) {
        return LineOutcome::Skip;
    }
    if check_number(s, t0, t1) {
        match scan_counts(s, t0, e) {
            Err((x, y)) => LineOutcome::Fail(
                ParseError::UnparseableNumber { line, text: span_string(s, x, y) },
            ),
            Ok((vs, q)) => match line_tail(mode, s, q, e) {
                Err((x, y)) => LineOutcome::Fail(
                    ParseError::UnparseableNumber { line, text: span_string(s, x, y) },
                ),
                Ok((calls, name)) => {
                    let name_start = if calls.is_some() {
                        skip_spaces(s, find_field_end(s, q, e), e)
                    } else {
                        q
                    };
                    let name_end = trim_span_end(s, name_start, e);
                    let is_totals = span_equals(
                        s,
                        name_start,
                        name_end,
                        &['P', 'R', 'O', 'G', 'R', 'A', 'M', ' ', 'T', 'O', 'T', 'A', 'L', 'S'],
                    );
                    if is_totals {
                        return LineOutcome::Skip;
                    }
                    match header {
                        None => LineOutcome::Fail(ParseError::MalformedHeader { line }),
                        Some(cols) => if vs.len() != cols.len() {
                            LineOutcome::Fail(
                                ParseError::ColumnMismatch {
                                    line,
                                    expected: cols.len(),
                                    found: vs.len(),
                                },
                            )
                        } else {
                            LineOutcome::Data(Row { name, values: vs, calls })
                        },
                    }
                },
            },
        }
    } else if metric_in_span(s, t0, t1).is_some() {
        let cols = header_columns(s, t0, e);
        if mode == ProfilerMode::InstructionCount && metric_index(&cols, Metric::Ir) >= cols.len() {
            LineOutcome::Skip
        } else {
            LineOutcome::Header(cols)
        }
    } else {
        LineOutcome::Skip
    }
}

} // verus!

verus! {

impl ParsedReport {
    pub open spec fn rows_spec(&self) -> Seq<RowView> {
        rows_view(self.rows@)
    }

    /// Every row has one count per column.
    pub open spec fn wf(&self) -> bool {
        forall|i: int| 0 <= i < self.rows@.len() ==> (#[trigger] self.rows@[i]).values@.len()
            == self.columns@.len()
    }
}

/// Reads the text of a report, as the tool of `mode` writes it, into rows.
///
/// Blank lines, rule lines and the `PROGRAM TOTALS` line are passed over;
/// a line that starts with a metric label is a header (in instruction-count
/// mode only one that has an `Ir` column); a line that starts with a number
/// is a data line and needs a header before it with as many columns as it
/// has counts; other lines are passed over.
pub fn parse_chars(mode: ProfilerMode, s: &Vec<char>) -> (r: Result<ParsedReport, ParseError>)
    requires
        s@.len() < usize::MAX,
    ensures
        match r {
            Ok(p) => parse_text(mode, s@) == Ok::<_, ErrorView>((p.columns@, p.rows_spec()))
                && p.mode == mode && p.wf(),
            Err(err) => parse_text(mode, s@) == Err::<(Seq<Metric>, Seq<RowView>), _>(err@),
        },
{
    let mut header: Option<Vec<Metric>> = None;
    let mut rows: Vec<Row> = Vec::new();
    let mut i: usize = 0;
    let mut line: usize = 1;
    proof {
        assert(rows_view(rows@) =~= seq![]);
    }
    loop
        invariant
            s@.len() < usize::MAX,
            i <= s@.len(),
            1 <= line <= i + 1,
            parse_text(mode, s@) == parse_from(mode, s@, i as int, line as nat, cols_view(header), rows_view(rows@)),
            header is None ==> rows@.len() == 0,
            forall|j: int| #![auto] header is Some && 0 <= j < rows@.len() ==> rows@[j].values@.len()
                == header->Some_0@.len(),
        decreases s@.len() - i,
    {
        let e = find_line_end(s, i);
        let outcome = parse_line(mode, s, i, e, line, &header);
        let ghost old_rows = rows@;
        match outcome {
            LineOutcome::Skip => {},
            LineOutcome::Header(cols) => {
                if header.is_none() {
                    header = Some(cols);
                }
            },
            LineOutcome::Data(row) => {
                rows.push(row);
                proof {
                    assert(rows_view(rows@) =~= rows_view(old_rows).push(row@));
                }
            },
            LineOutcome::Fail(err) => {
                return Err(err);
            },
        }
        if e >= s.len() {
            proof {
                assert(parse_from(mode, s@, e + 1, (line + 1) as nat, cols_view(header), rows_view(rows@))
                    == finish(cols_view(header), rows_view(rows@)));
            }
            match header {
                None => {
                    return Err(ParseError::EmptyOutput);
                },
                Some(cols) => {
                    if rows.len() == 0 {
                        return Err(ParseError::EmptyOutput);
                    }
                    return Ok(ParsedReport { mode, columns: cols, rows });
                },
            }
        }
        i = e + 1;
        line = line + 1;
    }
}

/// Reads the text of a report into rows; see [`parse_chars`].
pub fn parse_report(mode: ProfilerMode, text: &str) -> (r: Result<ParsedReport, ParseError>)
    requires
        text@.len() < usize::MAX,
    ensures
        match r {
            Ok(p) => parse_text(mode, text@) == Ok::<_, ErrorView>((p.columns@, p.rows_spec()))
                && p.mode == mode && p.wf(),
            Err(err) => parse_text(mode, text@) == Err::<(Seq<Metric>, Seq<RowView>), _>(err@),
        },
{
    let s = chars_of(text);
    parse_chars(mode, &s)
}

} // verus!

verus! {

/// Every row of a successful parse has one count per column of the header.
pub proof fn lemma_parse_from_rows_fit(
    mode: ProfilerMode,
    s: Seq<char>,
    i: int,
    line: nat,
    header: Option<Seq<Metric>>,
    rows: Seq<RowView>,
)
    requires
        header is None ==> rows.len() == 0,
        forall|j: int| #![auto] header is Some && 0 <= j < rows.len() ==> rows[j].values.len()
            == header->Some_0.len(),
    ensures
        parse_from(mode, s, i, line, header, rows) matches Ok((cols, rs)) ==> forall|j: int|
            #![auto] 0 <= j < rs.len() ==> rs[j].values.len() == cols.len(),
    decreases s.len() + 1 - i,
{
    let e = line_end(s, i);
    if !(i < 0 || i > s.len() || e < i || e > s.len()) {
        match line_view(mode, s, i, e, line, header) {
            LineView::Skip => lemma_parse_from_rows_fit(mode, s, e + 1, line + 1, header, rows),
            LineView::Header(cols) => if header is None {
                lemma_parse_from_rows_fit(mode, s, e + 1, line + 1, Some(cols), rows)
            } else {
                lemma_parse_from_rows_fit(mode, s, e + 1, line + 1, header, rows)
            },
            LineView::Data(r) => {
                assert(r.values.len() == header->Some_0.len());
                lemma_parse_from_rows_fit(mode, s, e + 1, line + 1, header, rows.push(r))
            },
            LineView::Fail(err) => {},
        }
    }
}

} // verus!
