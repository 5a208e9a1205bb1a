//! The tabular sink: a report is a header line followed by one comma-joined
//! row per combined record, in the fixed column order identity, period
//! start, cost, invocations, average duration, cost per 100M requests. A
//! bucket without invocations writes "NaN" in the last column. Parsing reads
//! such lines back; writing then re-parsing yields the same column values.

use vstd::prelude::*;

use crate::decimal::{decimal_micro, fixed_chars, frac_chars, is_decimal_chars,
    lemma_fixed_chars_round_trip, lemma_frac_chars, parse_micro, render_micro};
use crate::fixed::{Fixed, PctChange, Ratio, MAX_MICRO, RATIO_MAX};
use crate::record::{AccountReportRecord, CombinedRecord};
use crate::text::{dec_str, find_char_from, is_digit_char, lemma_dec_str_digits, pow10, str_eq};

verus! {

/// Whether a text may stand as one field of a row: it holds no separator and
/// no line break.
pub open spec fn csv_safe(s: Seq<char>) -> bool {
    forall|i: int| 0 <= i < s.len() ==> s[i] != ',' && s[i] != '\n'
}

/// First position of `sep` in `s`; -1 when there is none.
pub open spec fn first_idx(s: Seq<char>, sep: char) -> int
    decreases s.len(),
{
    if s.len() == 0 {
        -1
    } else if s[0] == sep {
        0
    } else {
        let r = first_idx(s.drop_first(), sep);
        if r < 0 {
            -1
        } else {
            r + 1
        }
    }
}

proof fn lemma_first_idx_at(s: Seq<char>, sep: char, i: int)
    requires
        0 <= i < s.len(),
        s[i] == sep,
        forall|j: int| 0 <= j < i ==> s[j] != sep,
    ensures
        first_idx(s, sep) == i,
    decreases i,
{
    if i > 0 {
        lemma_first_idx_at(s.drop_first(), sep, i - 1);
    }
}

proof fn lemma_first_idx_none(s: Seq<char>, sep: char)
    requires
        forall|j: int| 0 <= j < s.len() ==> s[j] != sep,
    ensures
        first_idx(s, sep) == -1,
    decreases s.len(),
{
    if s.len() > 0 {
        lemma_first_idx_none(s.drop_first(), sep);
    }
}

/// The parts of `s` between occurrences of `sep`: always one part more than
/// there are separators.
pub open spec fn split_at_seps(s: Seq<char>, sep: char) -> Seq<Seq<char>>
    decreases s.len(),
{
    let i = first_idx(s, sep);
    if i < 0 || i >= s.len() {
        seq![s]
    } else {
        seq![s.subrange(0, i)] + split_at_seps(s.subrange(i + 1, s.len() as int), sep)
    }
}

/// The parts joined by `sep`.
pub open spec fn join_with(parts: Seq<Seq<char>>, sep: char) -> Seq<char>
    decreases parts.len(),
{
    if parts.len() == 0 {
        Seq::empty()
    } else if parts.len() == 1 {
        parts[0]
    } else {
        parts[0] + seq![sep] + join_with(parts.drop_first(), sep)
    }
}

/// Splitting a joined text recovers the parts, provided no part holds the
/// separator.
pub proof fn lemma_split_join(parts: Seq<Seq<char>>, sep: char)
    requires
        parts.len() >= 1,
        forall|k: int|
            0 <= k < parts.len() ==> (forall|i: int|
                0 <= i < (#[trigger] parts[k]).len() ==> parts[k][i] != sep),
    ensures
        split_at_seps(join_with(parts, sep), sep) == parts,
    decreases parts.len(),
{
    let s = join_with(parts, sep);
    if parts.len() == 1 {
        assert(s == parts[0]);
        lemma_first_idx_none(s, sep);
        assert(split_at_seps(s, sep) =~= parts);
    } else {
        let head = parts[0];
        let rest = join_with(parts.drop_first(), sep);
        assert(s == head + seq![sep] + rest);
        let i = head.len() as int;
        assert(s[i] == sep);
        assert(forall|j: int| 0 <= j < i ==> s[j] == head[j] && s[j] != sep);
        lemma_first_idx_at(s, sep, i);
        assert(s.subrange(0, i) =~= head);
        assert(s.subrange(i + 1, s.len() as int) =~= rest);
        lemma_split_join(parts.drop_first(), sep);
        assert(split_at_seps(s, sep) =~= seq![head] + split_at_seps(rest, sep));
        assert(seq![head] + parts.drop_first() =~= parts);
    }
}

/// The decimal text of a quantity holds only digits and points, so it stands
/// as a field unescaped.
pub proof fn lemma_fixed_chars_csv_safe(m: nat)
    ensures
        csv_safe(fixed_chars(m)),
{
    let ip = m / 1000000;
    let fp = m % 1000000;
    lemma_dec_str_digits(ip);
    if fp == 0 {
        assert(fixed_chars(m) == dec_str(ip));
    } else {
        assert(pow10(6) == 1000000) by {
            assert(pow10(0) == 1);
            assert(pow10(1) == 10);
            assert(pow10(2) == 100);
            assert(pow10(3) == 1000);
            assert(pow10(4) == 10000);
            assert(pow10(5) == 100000);
        }
        lemma_frac_chars(fp, 6);
        let s = fixed_chars(m);
        let head = dec_str(ip);
        let f = frac_chars(fp, 1000000);
        assert(s == head + seq!['.'] + f);
        assert(forall|i: int| 0 <= i < head.len() ==> s[i] == head[i]);
        assert(s[head.len() as int] == '.');
        assert(forall|i: int|
            head.len() + 1 <= i < s.len() ==> s[i] == f[i - head.len() - 1]);
        assert(forall|i: int|
            0 <= i < s.len() ==> s[i] != ',' && s[i] != '\n') by {
            assert(forall|c: char| is_digit_char(c) ==> c != ',' && c != '\n');
        }
    }
}

/// The last column's text: the ratio, or "NaN" for a bucket whose ratio is
/// undefined.
pub open spec fn ratio_chars(r: Option<Ratio>) -> Seq<char> {
    match r {
        None => seq!['N', 'a', 'N'],
        Some(q) => fixed_chars(q.micro as nat),
    }
}

/// The six fields of one row, in the fixed column order.
pub open spec fn row_fields(identity: Seq<char>, r: CombinedRecord) -> Seq<Seq<char>> {
    seq![
        identity,
        r.period_start@,
        fixed_chars(r.cost.micro as nat),
        fixed_chars(r.invocations.micro as nat),
        fixed_chars(r.average_duration.micro as nat),
        ratio_chars(r.cost_per_100m),
    ]
}

/// The header line.
pub open spec fn header_chars() -> Seq<char> {
    "function-name,timestamp,monthly-cost,invocations,average-duration,cost-per-100m-requests"@
}

/// The lines of a whole report: the header, then one row per record in
/// record order.
pub open spec fn report_lines(identity: Seq<char>, records: Seq<CombinedRecord>) -> Seq<
    Seq<char>,
> {
    Seq::new(
        records.len() + 1,
        |k: int|
            if k == 0 {
                header_chars()
            } else {
                join_with(row_fields(identity, records[k - 1]), ',')
            },
    )
}

/// The percentage-change column: a sign and the magnitude, or "NaN" when the
/// change is undefined (a zero prior cost).
pub open spec fn pct_chars(c: Option<PctChange>) -> Seq<char> {
    match c {
        None => seq!['N', 'a', 'N'],
        Some(p) => if p.negative {
            seq!['-'] + fixed_chars(p.micro as nat)
        } else {
            fixed_chars(p.micro as nat)
        },
    }
}

/// The three fields of one account-level row.
pub open spec fn account_row_fields(r: AccountReportRecord) -> Seq<Seq<char>> {
    seq![r.period_start@, fixed_chars(r.cost.micro as nat), pct_chars(r.change)]
}

/// Renders one account-level row: period start, account cost and percentage
/// change from the prior bucket, joined by commas.
pub fn render_account_row(r: &AccountReportRecord) -> (line: String)
    ensures
        line@ == join_with(account_row_fields(*r), ','),
{
    let ghost fs = account_row_fields(*r);
    let ghost p1 = seq![fs[1], fs[2]];
    let ghost p2 = seq![fs[2]];
    proof {
        reveal_strlit(",");
        assert(","@ =~= seq![',']);
        assert(fs.drop_first() =~= p1);
        assert(p1.drop_first() =~= p2);
    }
    let t2: String = match &r.change {
        None => {
            let nan = "NaN".to_owned();
            proof {
                reveal_strlit("NaN");
                assert(nan@ =~= seq!['N', 'a', 'N']);
            }
            nan
        },
        Some(p) => {
            if p.negative {
                let minus = "-".to_owned();
                proof {
                    reveal_strlit("-");
                    assert(minus@ =~= seq!['-']);
                }
                let magnitude = render_micro(p.micro);
                minus.concat(magnitude.as_str())
            } else {
                render_micro(p.micro)
            }
        },
    };
    proof {
        assert(t2@ == join_with(p2, ','));
    }
    let mut t1 = render_micro(r.cost.micro);
    t1.append(",");
    t1.append(t2.as_str());
    proof {
        assert(t1@ == join_with(p1, ','));
    }
    let mut s = r.period_start.clone();
    s.append(",");
    s.append(t1.as_str());
    proof {
        assert(s@ == join_with(fs, ','));
    }
    s
}

/// The column values a row carries.
pub ghost struct RecordModel {
    pub period: Seq<char>,
    pub cost_micro: nat,
    pub invocations_micro: nat,
    pub duration_micro: nat,
    pub ratio_micro: Option<nat>,
}

/// The column values of a combined record.
pub open spec fn record_model(r: CombinedRecord) -> RecordModel {
    RecordModel {
        period: r.period_start@,
        cost_micro: r.cost.micro as nat,
        invocations_micro: r.invocations.micro as nat,
        duration_micro: r.average_duration.micro as nat,
        ratio_micro: match r.cost_per_100m {
            None => None,
            Some(q) => Some(q.micro as nat),
        },
    }
}

/// What one row's text means: its identity column and its column values, or
/// nothing when the row does not have six well-formed columns.
pub open spec fn parse_row_model(line: Seq<char>) -> Option<(Seq<char>, RecordModel)> {
    let fs = split_at_seps(line, ',');
    if fs.len() == 6 && is_decimal_chars(fs[2]) && decimal_micro(fs[2]) <= MAX_MICRO as nat
        && is_decimal_chars(fs[3]) && decimal_micro(fs[3]) <= MAX_MICRO as nat
        && is_decimal_chars(fs[4]) && decimal_micro(fs[4]) <= MAX_MICRO as nat && (fs[5]
        == "NaN"@ || (is_decimal_chars(fs[5]) && decimal_micro(fs[5]) <= RATIO_MAX as nat)) {
        Some(
            (
                fs[0],
                RecordModel {
                    period: fs[1],
                    cost_micro: decimal_micro(fs[2]),
                    invocations_micro: decimal_micro(fs[3]),
                    duration_micro: decimal_micro(fs[4]),
                    ratio_micro: if fs[5] == "NaN"@ {
                        None
                    } else {
                        Some(decimal_micro(fs[5]))
                    },
                },
            ),
        )
    } else {
        None
    }
}

/// Splits one line at its commas.
fn split_line(line: &str) -> (fields: Vec<String>)
    ensures
        fields.deep_view() == split_at_seps(line@, ','),
{
    let len = line.unicode_len();
    let mut out: Vec<String> = Vec::new();
    let mut start: usize = 0;
    let mut done = false;
    let ghost full = split_at_seps(line@, ',');
    proof {
        assert(line@.subrange(0, len as int) =~= line@);
        assert(out.deep_view() =~= Seq::<Seq<char>>::empty());
        assert(out.deep_view() + split_at_seps(line@, ',') =~= split_at_seps(line@, ','));
    }
    while !done
        invariant
            start <= len,
            len == line@.len(),
            done ==> out.deep_view() == full,
            !done ==> full == out.deep_view() + split_at_seps(
                line@.subrange(start as int, len as int),
                ',',
            ),
        decreases len - start + (if done { 0int } else { 1int }),
    {
        let ghost rest = line@.subrange(start as int, len as int);
        match find_char_from(line, start, ',') {
            Some(i) => {
                let field = line.substring_char(start, i).to_owned();
                proof {
                    assert(rest[i - start] == ',');
                    assert(forall|j: int| 0 <= j < i - start ==> rest[j] != ',');
                    lemma_first_idx_at(rest, ',', i - start);
                    assert(rest.subrange(0, i - start) =~= line@.subrange(start as int, i as int));
                    assert(rest.subrange(i - start + 1, rest.len() as int) =~= line@.subrange(
                        i + 1,
                        len as int,
                    ));
                    assert(split_at_seps(rest, ',') == seq![line@.subrange(start as int, i as int)]
                        + split_at_seps(line@.subrange(i + 1, len as int), ','));
                    assert(out.deep_view().push(field@) + split_at_seps(
                        line@.subrange(i + 1, len as int),
                        ',',
                    ) =~= out.deep_view() + split_at_seps(rest, ','));
                }
                let ghost prev = out.deep_view();
                out.push(field);
                proof {
                    assert(out.deep_view() =~= prev.push(field@));
                }
                start = i + 1;
            },
            None => {
                let field = line.substring_char(start, len).to_owned();
                proof {
                    lemma_first_idx_none(rest, ',');
                    assert(split_at_seps(rest, ',') == seq![rest]);
                    assert(out.deep_view().push(field@) =~= out.deep_view() + split_at_seps(
                        rest,
                        ',',
                    ));
                }
                let ghost prev = out.deep_view();
                out.push(field);
                proof {
                    assert(out.deep_view() =~= prev.push(field@));
                }
                done = true;
            },
        }
    }
    out
}

/// Renders the six fields of one row, in column order, each as its own
/// string (for a writer that joins and escapes fields itself).
pub fn render_row_fields(identity: &str, r: &CombinedRecord) -> (fields: Vec<String>)
    ensures
        fields.deep_view() == row_fields(identity@, *r),
{
    let ratio_text: String = match &r.cost_per_100m {
        None => {
            let nan = "NaN".to_owned();
            proof {
                reveal_strlit("NaN");
                assert(nan@ =~= seq!['N', 'a', 'N']);
            }
            nan
        },
        Some(q) => render_micro(q.micro),
    };
    let mut fields: Vec<String> = Vec::new();
    fields.push(identity.to_owned());
    fields.push(r.period_start.clone());
    fields.push(render_micro(r.cost.micro));
    fields.push(render_micro(r.invocations.micro));
    fields.push(render_micro(r.average_duration.micro));
    fields.push(ratio_text);
    proof {
        assert(fields.deep_view() =~= row_fields(identity@, *r));
    }
    fields
}

/// Renders one row: the six fields joined by commas.
pub fn render_row(identity: &str, r: &CombinedRecord) -> (line: String)
    ensures
        line@ == join_with(row_fields(identity@, *r), ','),
{
    let ghost fs = row_fields(identity@, *r);
    let ghost p1 = seq![fs[1], fs[2], fs[3], fs[4], fs[5]];
    let ghost p2 = seq![fs[2], fs[3], fs[4], fs[5]];
    let ghost p3 = seq![fs[3], fs[4], fs[5]];
    let ghost p4 = seq![fs[4], fs[5]];
    let ghost p5 = seq![fs[5]];
    proof {
        reveal_strlit(",");
        assert(","@ =~= seq![',']);
        assert(fs.drop_first() =~= p1);
        assert(p1.drop_first() =~= p2);
        assert(p2.drop_first() =~= p3);
        assert(p3.drop_first() =~= p4);
        assert(p4.drop_first() =~= p5);
    }
    let t5: String = match &r.cost_per_100m {
        None => {
            let nan = "NaN".to_owned();
            proof {
                reveal_strlit("NaN");
                assert(nan@ =~= seq!['N', 'a', 'N']);
            }
            nan
        },
        Some(q) => render_micro(q.micro),
    };
    proof {
        assert(t5@ == join_with(p5, ','));
    }
    let mut t4 = render_micro(r.average_duration.micro);
    t4.append(",");
    t4.append(t5.as_str());
    proof {
        assert(t4@ == join_with(p4, ','));
    }
    let mut t3 = render_micro(r.invocations.micro);
    t3.append(",");
    t3.append(t4.as_str());
    proof {
        assert(t3@ == join_with(p3, ','));
    }
    let mut t2 = render_micro(r.cost.micro);
    t2.append(",");
    t2.append(t3.as_str());
    proof {
        assert(t2@ == join_with(p2, ','));
    }
    let mut t1 = r.period_start.clone();
    t1.append(",");
    t1.append(t2.as_str());
    proof {
        assert(t1@ == join_with(p1, ','));
    }
    let mut s = identity.to_owned();
    s.append(",");
    s.append(t1.as_str());
    proof {
        assert(s@ == join_with(fs, ','));
    }
    s
}

/// Renders a whole report: the header line, then one row per record.
pub fn render_report(identity: &str, records: &Vec<CombinedRecord>) -> (lines: Vec<String>)
    ensures
        lines.deep_view() == report_lines(identity@, records@),
{
    let mut out: Vec<String> = Vec::new();
    out.push(
        "function-name,timestamp,monthly-cost,invocations,average-duration,cost-per-100m-requests".to_owned(),
    );
    let mut k: usize = 0;
    while k < records.len()
        invariant
            0 <= k <= records@.len(),
            out.deep_view().len() == k + 1,
            forall|j: int|
                0 <= j <= k ==> out.deep_view()[j] == report_lines(identity@, records@)[j],
        decreases records@.len() - k,
    {
        let line = render_row(identity, &records[k]);
        let ghost prev = out.deep_view();
        out.push(line);
        proof {
            assert(out.deep_view() =~= prev.push(line@));
        }
        k = k + 1;
    }
    proof {
        assert(out.deep_view() =~= report_lines(identity@, records@));
    }
    out
}

/// Reads one row back: its identity column and its record. Fails exactly on
/// a line without six well-formed columns.
pub fn parse_row(line: &str) -> (r: Option<(String, CombinedRecord)>)
    ensures
        r is Some <==> parse_row_model(line@) is Some,
        r matches Some(p) ==> parse_row_model(line@) matches Some(q) && p.0@ == q.0
            && record_model(p.1) == q.1,
{
    let fields = split_line(line);
    proof {
        assert(fields.deep_view().len() == fields@.len());
    }
    if fields.len() != 6 {
        return None;
    }
    proof {
        assert(forall|j: int|
            0 <= j < 6 ==> fields.deep_view()[j] == (#[trigger] fields@[j])@);
    }
    let cost = match parse_micro(fields[2].as_str(), MAX_MICRO) {
        None => {
            return None;
        },
        Some(v) => Fixed { micro: v },
    };
    let invocations = match parse_micro(fields[3].as_str(), MAX_MICRO) {
        None => {
            return None;
        },
        Some(v) => Fixed { micro: v },
    };
    let duration = match parse_micro(fields[4].as_str(), MAX_MICRO) {
        None => {
            return None;
        },
        Some(v) => Fixed { micro: v },
    };
    let ratio: Option<Ratio> = if str_eq(fields[5].as_str(), "NaN") {
        None
    } else {
        match parse_micro(fields[5].as_str(), RATIO_MAX) {
            None => {
                return None;
            },
            Some(v) => Some(Ratio { micro: v }),
        }
    };
    let identity = fields[0].clone();
    let record = CombinedRecord {
        period_start: fields[1].clone(),
        cost,
        invocations,
        average_duration: duration,
        cost_per_100m: ratio,
    };
    Some((identity, record))
}

/// Reads a whole report back: fails exactly when the header is missing or a
/// row is malformed; otherwise yields one identity/record pair per row, in
/// row order, with the written column values.
pub fn parse_report(lines: &Vec<String>) -> (r: Option<Vec<(String, CombinedRecord)>>)
    ensures
        r is Some <==> lines@.len() >= 1 && lines.deep_view()[0] == header_chars() && (forall|
            k: int,
        |
            1 <= k < lines@.len() ==> parse_row_model(#[trigger] lines.deep_view()[k]) is Some),
        r matches Some(v) ==> v@.len() + 1 == lines@.len() && (forall|k: int|
            0 <= k < v@.len() ==> (parse_row_model(lines.deep_view()[k + 1]) matches Some(q) && (
            #[trigger] v@[k]).0@ == q.0 && record_model(v@[k].1) == q.1)),
{
    if lines.len() == 0 {
        return None;
    }
    proof {
        assert(lines.deep_view()[0] == lines@[0]@);
    }
    if !str_eq(
        lines[0].as_str(),
        "function-name,timestamp,monthly-cost,invocations,average-duration,cost-per-100m-requests",
    ) {
        return None;
    }
    let mut out: Vec<(String, CombinedRecord)> = Vec::new();
    let mut k: usize = 1;
    while k < lines.len()
        invariant
            1 <= k <= lines@.len(),
            out@.len() + 1 == k,
            lines.deep_view().len() == lines@.len(),
            forall|j: int|
                1 <= j < k ==> parse_row_model(#[trigger] lines.deep_view()[j]) is Some,
            forall|j: int|
                0 <= j < out@.len() ==> (parse_row_model(lines.deep_view()[j + 1]) matches Some(q)
                    && (#[trigger] out@[j]).0@ == q.0 && record_model(out@[j].1) == q.1),
        decreases lines@.len() - k,
    {
        proof {
            assert(lines.deep_view()[k as int] == lines@[k as int]@);
        }
        match parse_row(lines[k].as_str()) {
            None => {
                return None;
            },
            Some(p) => {
                out.push(p);
            },
        }
        k = k + 1;
    }
    Some(out)
}

/// Writing records to the tabular sink and re-parsing them yields the same
/// rows: below the header stands one line per record, and each line means
/// exactly its record's identity and column values.
pub proof fn lemma_tabular_round_trip(identity: Seq<char>, records: Seq<CombinedRecord>)
    requires
        csv_safe(identity),
        forall|k: int| 0 <= k < records.len() ==> csv_safe((#[trigger] records[k]).period_start@),
        forall|k: int| 0 <= k < records.len() ==> (#[trigger] records[k]).cost.wf(),
        forall|k: int| 0 <= k < records.len() ==> (#[trigger] records[k]).invocations.wf(),
        forall|k: int| 0 <= k < records.len() ==> (#[trigger] records[k]).average_duration.wf(),
        forall|k: int|
            0 <= k < records.len() ==> ((#[trigger] records[k]).cost_per_100m matches Some(q)
                ==> q.wf()),
    ensures
        report_lines(identity, records).len() == records.len() + 1,
        report_lines(identity, records)[0] == header_chars(),
        forall|k: int|
            0 <= k < records.len() ==> parse_row_model(
                #[trigger] report_lines(identity, records)[k + 1],
            ) == Some((identity, record_model(records[k]))),
{
    assert forall|k: int| 0 <= k < records.len() implies parse_row_model(
        #[trigger] report_lines(identity, records)[k + 1],
    ) == Some((identity, record_model(records[k]))) by {
        lemma_row_round_trip(identity, records[k]);
    }
}

proof fn lemma_row_round_trip(identity: Seq<char>, r: CombinedRecord)
    requires
        csv_safe(identity),
        csv_safe(r.period_start@),
        r.cost.wf(),
        r.invocations.wf(),
        r.average_duration.wf(),
        r.cost_per_100m matches Some(q) ==> q.wf(),
    ensures
        parse_row_model(join_with(row_fields(identity, r), ',')) == Some(
            (identity, record_model(r)),
        ),
{
    let fs = row_fields(identity, r);
    lemma_fixed_chars_csv_safe(r.cost.micro as nat);
    lemma_fixed_chars_csv_safe(r.invocations.micro as nat);
    lemma_fixed_chars_csv_safe(r.average_duration.micro as nat);
    assert(csv_safe(ratio_chars(r.cost_per_100m))) by {
        match r.cost_per_100m {
            None => {
                assert(forall|i: int|
                    0 <= i < 3 ==> seq!['N', 'a', 'N'][i] != ',' && seq!['N', 'a', 'N'][i]
                        != '\n');
            },
            Some(q) => {
                lemma_fixed_chars_csv_safe(q.micro as nat);
            },
        }
    }
    assert(forall|k: int|
        0 <= k < fs.len() ==> (forall|i: int|
            0 <= i < (#[trigger] fs[k]).len() ==> fs[k][i] != ','));
    lemma_split_join(fs, ',');
    lemma_fixed_chars_round_trip(r.cost.micro as nat);
    lemma_fixed_chars_round_trip(r.invocations.micro as nat);
    lemma_fixed_chars_round_trip(r.average_duration.micro as nat);
    reveal_strlit("NaN");
    assert("NaN"@ =~= seq!['N', 'a', 'N']);
    match r.cost_per_100m {
        None => {
            assert(fs[5] == "NaN"@);
        },
        Some(q) => {
            lemma_fixed_chars_round_trip(q.micro as nat);
            assert(fs[5] != "NaN"@) by {
                let t = fixed_chars(q.micro as nat);
                lemma_fixed_chars_csv_safe(q.micro as nat);
                lemma_dec_str_digits((q.micro as nat) / 1000000);
                assert(t[0] == dec_str((q.micro as nat) / 1000000)[0]);
                assert(is_digit_char(t[0]));
                if t == "NaN"@ {
                    assert(t[0] == 'N');
                }
            }
        },
    }
}

} // verus!
