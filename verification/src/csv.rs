//! Reading OHLCV bar files in CSV form.
//!
//! Files start with the header line `timestamp,open,high,low,close,volume`
//! followed by one row per bar. Timestamps are Unix seconds; the other
//! columns are decimal numbers, which the caller turns into binary64
//! values. Errors carry the 1-based line number of the bad row.

use std::time::SystemTime;

use vstd::prelude::*;

use crate::config::{parse_u64, parse_unsigned};
use crate::double::{finite_bits, Double};
use crate::error::Error;
use crate::market::{val, Bar};
use crate::text::{
    decimal, is_blank, is_blank_str, lemma_split_nonempty, push_decimal, split_on, split_text,
    str_equal, texts, trim_text, trimmed,
};
use crate::timestamp::{clamped_secs, epoch_offset, epoch_secs, instant_after_epoch};

verus! {

/// The expected CSV header line. A different header is an error rather than
/// a silent schema mismatch.
pub const HEADER: &'static str = "timestamp,open,high,low,close,volume";

/// `s` without one trailing carriage return.
pub open spec fn strip_cr(s: Seq<char>) -> Seq<char> {
    if s.len() > 0 && s.last() == '\r' {
        s.drop_last()
    } else {
        s
    }
}

/// The lines of a text, as `str::lines` gives them: split at `\n`, a `\r`
/// before a `\n` dropped, and no empty line after a final `\n`.
pub open spec fn text_lines(s: Seq<char>) -> Seq<Seq<char>> {
    let p = split_text(s, '\n');
    let body = if p.last().len() == 0 {
        p.drop_last()
    } else {
        p
    };
    Seq::new(
        body.len(),
        |i: int|
            if i < p.len() - 1 {
                strip_cr(body[i])
            } else {
                body[i]
            },
    )
}

/// The 1-based line number of line `idx`, saturating at `i32::MAX`.
pub open spec fn line_number(idx: int) -> int {
    if idx + 1 > i32::MAX {
        i32::MAX as int
    } else {
        idx + 1
    }
}

/// What reading on from line `pos` meets first.
pub enum ScanEvent {
    /// No more lines.
    End,
    /// A data row at this line index.
    Row(int),
    /// The first line is not the header.
    BadHeader,
    /// A data line at this index with this many fields instead of six.
    BadFieldCount(int, nat),
    /// A data line at this index whose timestamp is no unsigned integer.
    BadTimestamp(int),
}

/// The next event reading `lines` from `pos` on: line 0 must be the
/// header (a blank first line is no header), later blank lines are
/// skipped, every other later line is a data row of six comma-separated
/// fields whose first field is the Unix timestamp.
pub open spec fn scan(lines: Seq<Seq<char>>, pos: int) -> ScanEvent
    decreases lines.len() - pos,
{
    if pos < 0 || pos >= lines.len() {
        ScanEvent::End
    } else if pos == 0 {
        if trimmed(lines[0]) == HEADER@ {
            scan(lines, 1)
        } else {
            ScanEvent::BadHeader
        }
    } else if is_blank(lines[pos]) {
        scan(lines, pos + 1)
    } else {
        let f = split_text(lines[pos], ',');
        if f.len() != 6 {
            ScanEvent::BadFieldCount(pos, f.len())
        } else if parse_unsigned(trimmed(f[0]), u64::MAX as nat) is None {
            ScanEvent::BadTimestamp(pos)
        } else {
            ScanEvent::Row(pos)
        }
    }
}

/// The text of an invalid-field error.
pub open spec fn bad_message(line_no: int, name: Seq<char>, value: Seq<char>) -> Seq<char> {
    "line "@ + decimal(line_no as nat) + ": invalid "@ + name + " value `"@ + value
        + "` (expected a finite number)"@
}

/// The text of a wrong-header error.
pub open spec fn header_message(found: Seq<char>) -> Seq<char> {
    "line 1: unexpected CSV header `"@ + found + "` (expected `"@ + HEADER@ + "`)"@
}

/// The text of a wrong-field-count error.
pub open spec fn field_count_message(line_no: int, found: nat) -> Seq<char> {
    "line "@ + decimal(line_no as nat) + ": expected 6 comma-separated fields, found "@
        + decimal(found)
}

/// `e` is a market-data error with message `m`.
pub open spec fn market_data_with(e: Error, m: Seq<char>) -> bool {
    e matches Error::MarketData(t) && t@ == m
}

/// The invalid-field error for line `idx`: which field, and its raw text.
pub fn bad(idx: i32, name: &str, value: &str) -> (e: Error)
    requires
        idx >= 0,
    ensures
        market_data_with(e, bad_message(idx as int, name@, value@)),
{
    let mut m = String::from_str("line ");
    push_decimal(&mut m, idx as u64);
    m.append(": invalid ");
    m.append(name);
    m.append(" value `");
    m.append(value);
    m.append("` (expected a finite number)");
    Error::MarketData(m)
}

/// A decimal field of a data row, once parsed: a finite value, or the
/// invalid-field error naming the raw text.
pub fn number_field(line_no: i32, name: &str, raw: &str, parsed: Option<Double>) -> (r: Result<
    Double,
    Error,
>)
    requires
        line_no >= 0,
    ensures
        r is Ok <==> (parsed matches Some(d) && finite_bits(d@)),
        r matches Ok(d) ==> parsed == Some(d),
        r matches Err(e) ==> market_data_with(e, bad_message(line_no as int, name@, raw@)),
{
    match parsed {
        Some(d) => if d.is_finite() {
            Ok(d)
        } else {
            Err(bad(line_no, name, raw))
        },
        None => Err(bad(line_no, name, raw)),
    }
}

/// `str::lines`: the lines of a text.
pub fn lines_of(s: &str) -> (lines: Vec<String>)
    ensures
        texts(lines@) == text_lines(s@),
{
    let mut parts = split_on(s, '\n');
    let ghost p = texts(parts@);
    proof {
        lemma_split_nonempty(s@, '\n');
    }
    let count = parts.len();
    if parts[count - 1].as_str().unicode_len() == 0 {
        parts.pop();
    }
    let ghost body = texts(parts@);
    assert(body =~= if p.last().len() == 0 { p.drop_last() } else { p });
    let mut lines: Vec<String> = Vec::new();
    let mut i: usize = 0;
    let m = parts.len();
    while i < m
        invariant
            m == parts@.len(),
            body == texts(parts@),
            count == p.len(),
            m <= count,
            i <= m,
            lines@.len() == i,
            forall|j: int|
                0 <= j < i ==> #[trigger] lines@[j]@ == if j < count - 1 {
                    strip_cr(body[j])
                } else {
                    body[j]
                },
        decreases m - i,
    {
        let piece = &parts[i];
        let n = piece.as_str().unicode_len();
        if i + 1 < count && n > 0 && piece.as_str().get_char(n - 1) == '\r' {
            let cut = piece.as_str().substring_char(0, n - 1);
            lines.push(String::from_str(cut));
        } else {
            lines.push(piece.clone());
        }
        i = i + 1;
    }
    assert(texts(lines@) =~= text_lines(s@));
    lines
}

/// One data row of a bar file: its line number, its timestamp, and the raw
/// texts of its open, high, low, close and volume fields.
pub struct RawRow {
    /// 1-based line number.
    pub line_no: i32,
    /// The bar's start, Unix seconds after the epoch.
    pub timestamp: SystemTime,
    /// Raw `open`, `high`, `low`, `close`, `volume` fields, untrimmed.
    pub fields: Vec<String>,
}

/// Reads a bar file's text row by row, in file order.
pub struct BarFileReader {
    lines: Vec<String>,
    pos: usize,
    rows: usize,
}

impl BarFileReader {
    /// No more rows are counted than lines were read.
    #[verifier::type_invariant]
    closed spec fn inv(&self) -> bool {
        self.rows <= self.pos
    }

    /// The file's lines, for specifications.
    pub closed spec fn all_lines(&self) -> Seq<Seq<char>> {
        texts(self.lines@)
    }

    /// Index of the next line to read, for specifications.
    pub closed spec fn position(&self) -> int {
        self.pos as int
    }

    /// Number of data rows returned so far, for specifications.
    pub closed spec fn rows_read(&self) -> nat {
        self.rows as nat
    }

    /// A reader at the start of `text`.
    pub fn new(text: &str) -> (r: Self)
        ensures
            r.all_lines() == text_lines(text@),
            r.position() == 0,
            r.rows_read() == 0,
    {
        BarFileReader { lines: lines_of(text), pos: 0, rows: 0 }
    }

    /// Reads on to the next data row. Blank lines are skipped; the first
    /// line must be the header; a data line needs six comma-separated
    /// fields and an unsigned integer timestamp that the platform can
    /// represent. `Ok(None)` at the end of the file.
    pub fn next_row(&mut self) -> (r: Result<Option<RawRow>, Error>)
        ensures
            final(self).all_lines() == old(self).all_lines(),
            old(self).position() <= final(self).position(),
            match scan(old(self).all_lines(), old(self).position()) {
                ScanEvent::End => r matches Ok(None) && final(self).rows_read() == old(
                    self,
                ).rows_read() && final(self).position() >= old(self).position(),
                ScanEvent::Row(k) => {
                    let f = split_text(old(self).all_lines()[k], ',');
                    ||| r matches Ok(Some(row)) && {
                        &&& row.line_no == line_number(k)
                        &&& epoch_offset(row.timestamp) == Some(
                            parse_unsigned(trimmed(f[0]), u64::MAX as nat)->0 as u64,
                        )
                        &&& texts(row.fields@) == f.subrange(1, 6)
                        &&& final(self).position() == k + 1
                        &&& final(self).rows_read() == old(self).rows_read() + 1
                    }
                    ||| r matches Err(e) && market_data_with(
                        e,
                        bad_message(line_number(k), "timestamp"@, f[0]),
                    )
                },
                ScanEvent::BadHeader => r matches Err(e) && market_data_with(
                    e,
                    header_message(trimmed(old(self).all_lines()[0])),
                ),
                ScanEvent::BadFieldCount(k, c) => r matches Err(e) && market_data_with(
                    e,
                    field_count_message(line_number(k), c),
                ),
                ScanEvent::BadTimestamp(k) => r matches Err(e) && market_data_with(
                    e,
                    bad_message(
                        line_number(k),
                        "timestamp"@,
                        split_text(old(self).all_lines()[k], ',')[0],
                    ),
                ),
            },
    {
        proof {
            use_type_invariant(&*self);
        }
        let n = self.lines.len();
        let ghost start = self.pos as int;
        let ghost lines = texts(self.lines@);
        while self.pos < n
            invariant
                n == self.lines@.len(),
                lines == texts(self.lines@),
                0 <= start <= self.pos,
                start == old(self).position(),
                self.rows == old(self).rows,
                self.rows <= start,
                lines == old(self).all_lines(),
                scan(lines, start) == scan(lines, self.pos as int),
            decreases n - self.pos,
        {
            let k = self.pos;
            let line = &self.lines[k];
            assert(lines[k as int] == line@);
            if k == 0 {
                let found = trim_text(line.as_str());
                if str_equal(found.as_str(), HEADER) {
                    self.pos = 1;
                    continue;
                }
                let mut m = String::from_str("line 1: unexpected CSV header `");
                m.append(found.as_str());
                m.append("` (expected `");
                m.append(HEADER);
                m.append("`)");
                assert(scan(lines, k as int) == ScanEvent::BadHeader);

                return Err(Error::MarketData(m));
            }
            if is_blank_str(line.as_str()) {
                self.pos = k + 1;
                continue;
            }
            let line_no: i32 = if k >= 0x7fff_ffff {
                i32::MAX
            } else {
                (k + 1) as i32
            };
            let fields = split_on(line.as_str(), ',');
            assert(line_no as int == line_number(k as int));
            assert(texts(fields@).len() == fields@.len());
            if fields.len() != 6 {
                let mut m = String::from_str("line ");
                push_decimal(&mut m, line_no as u64);
                m.append(": expected 6 comma-separated fields, found ");
                push_decimal(&mut m, fields.len() as u64);
                assert(scan(lines, k as int) == ScanEvent::BadFieldCount(k as int, fields@.len()));
                return Err(Error::MarketData(m));
            }
            assert(texts(fields@)[0] == fields@[0]@);
            let ts_text = trim_text(fields[0].as_str());
            let secs = match parse_u64(ts_text.as_str()) {
                Ok(v) => v,
                Err(_) => return Err(bad(line_no, "timestamp", fields[0].as_str())),
            };
            let timestamp = match instant_after_epoch(secs) {
                Some(t) => t,
                None => return Err(bad(line_no, "timestamp", fields[0].as_str())),
            };
            let mut rest: Vec<String> = Vec::new();
            let mut i: usize = 1;
            while i < 6
                invariant
                    fields@.len() == 6,
                    1 <= i <= 6,
                    texts(rest@) == texts(fields@).subrange(1, i as int),
                decreases 6 - i,
            {
                let ghost before = rest@;
                rest.push(fields[i].clone());
                proof {
                    assert(rest@ == before.push(fields@[i as int]));
                    assert(texts(rest@) =~= texts(before).push(fields@[i as int]@));
                    assert(texts(fields@)[i as int] == fields@[i as int]@);
                    assert(texts(rest@) =~= texts(fields@).subrange(1, i + 1));
                }
                i = i + 1;
            }
            self.pos = k + 1;
            self.rows = self.rows + 1;
            return Ok(Some(RawRow { line_no, timestamp, fields: rest }));
        }
        Ok(None)
    }

    /// At the end of the file: a file without any data row is an error.
    pub fn finish(&self) -> (r: Result<(), Error>)
        ensures
            r is Ok <==> self.rows_read() > 0,
            r matches Err(e) ==> market_data_with(e, "bar file contains no data lines"@),
    {
        if self.rows == 0 {
            return Err(Error::MarketData(String::from_str("bar file contains no data lines")));
        }
        Ok(())
    }
}


/// `scan` meets a data row no earlier than `pos`, within the lines, after
/// the header, with six fields.
proof fn lemma_scan_row_bounds(lines: Seq<Seq<char>>, pos: int)
    ensures
        scan(lines, pos) matches ScanEvent::Row(k) ==> pos <= k < lines.len() && 1 <= k
            && split_text(lines[k], ',').len() == 6,
    decreases lines.len() - pos,
{
    if 0 <= pos < lines.len() {
        if pos == 0 {
            if trimmed(lines[0]) == HEADER@ {
                lemma_scan_row_bounds(lines, 1);
            }
        } else if is_blank(lines[pos]) {
            lemma_scan_row_bounds(lines, pos + 1);
        }
    }
}

/// The line indices of the data rows met reading `lines` from `pos` on, up
/// to the first event that is no data row.
pub open spec fn rows_from(lines: Seq<Seq<char>>, pos: int) -> Seq<int>
    decreases lines.len() - pos,
{
    if pos < 0 || pos >= lines.len() {
        Seq::empty()
    } else {
        match scan(lines, pos) {
            ScanEvent::Row(k) => if pos <= k < lines.len() {
                seq![k] + rows_from(lines, k + 1)
            } else {
                Seq::empty()
            },
            _ => Seq::empty(),
        }
    }
}

/// The event that ends the data rows read from `pos` on: the end of the
/// text or the first structural error.
pub open spec fn end_of_rows(lines: Seq<Seq<char>>, pos: int) -> ScanEvent
    decreases lines.len() - pos,
{
    if pos < 0 || pos >= lines.len() {
        ScanEvent::End
    } else {
        match scan(lines, pos) {
            ScanEvent::Row(k) => if pos <= k < lines.len() {
                end_of_rows(lines, k + 1)
            } else {
                ScanEvent::End
            },
            ev => ev,
        }
    }
}

/// The message of a structural error event.
pub open spec fn event_message(lines: Seq<Seq<char>>, ev: ScanEvent) -> Seq<char> {
    match ev {
        ScanEvent::BadHeader => header_message(trimmed(lines[0])),
        ScanEvent::BadFieldCount(k, c) => field_count_message(line_number(k), c),
        ScanEvent::BadTimestamp(k) => bad_message(
            line_number(k),
            "timestamp"@,
            split_text(lines[k], ',')[0],
        ),
        _ => Seq::empty(),
    }
}

/// The name of value field `j` (1 to 5) of a data row.
pub open spec fn field_name(j: int) -> Seq<char> {
    if j == 1 {
        "open"@
    } else if j == 2 {
        "high"@
    } else if j == 3 {
        "low"@
    } else if j == 4 {
        "close"@
    } else {
        "volume"@
    }
}

/// `parse_number`, handed a field's trimmed text, can give `d`.
pub open spec fn parses_to<P: Fn(&str) -> Option<Double>>(
    parse_number: P,
    field: Seq<char>,
    d: Option<Double>,
) -> bool {
    exists|t: &str| t@ == trimmed(field) && #[trigger] parse_number.ensures((t,), d)
}

/// The five value fields `vals` (open, high, low, close, volume) can give
/// the values of `bar`: each one a value its field can parse to, high and
/// low swapped when inverted.
pub open spec fn values_give<P: Fn(&str) -> Option<Double>>(
    parse_number: P,
    vals: Seq<Seq<char>>,
    bar: Bar,
) -> bool {
    &&& parses_to(parse_number, vals[0], Some(bar.open_price()))
    &&& parses_to(parse_number, vals[3], Some(bar.close_price()))
    &&& parses_to(parse_number, vals[4], Some(bar.traded_volume()))
    &&& exists|h: Double, l: Double|
        #![trigger parses_to(parse_number, vals[1], Some(h)), parses_to(parse_number, vals[2], Some(l))]
        parses_to(parse_number, vals[1], Some(h)) && parses_to(parse_number, vals[2], Some(l)) && if val(
            h,
        ) < val(l) {
            bar.high_price() == l && bar.low_price() == h
        } else {
            bar.high_price() == h && bar.low_price() == l
        }
}

/// `parse_number`, handed a field's trimmed text, can give a finite number.
pub open spec fn parses_finite<P: Fn(&str) -> Option<Double>>(
    parse_number: P,
    field: Seq<char>,
) -> bool {
    exists|x: Double| finite_bits(x@) && #[trigger] parses_to(parse_number, field, Some(x))
}

/// Value field `j` of `vals` (line `line_no`) can parse to something other
/// than a finite number, and `e` names it.
pub open spec fn field_fails<P: Fn(&str) -> Option<Double>>(
    parse_number: P,
    line_no: int,
    vals: Seq<Seq<char>>,
    j: int,
    e: Error,
) -> bool {
    &&& exists|d: Option<Double>|
        #[trigger] parses_to(parse_number, vals[j], d) && !(d matches Some(x) && finite_bits(x@))
    &&& market_data_with(e, bad_message(line_no, field_name(j + 1), vals[j]))
}

/// The five value fields `vals` (open, high, low, close, volume) of line
/// `line_no` fail with `e`: `e` names the first of them, in that order,
/// that does not parse to a finite number, the ones before it having
/// parsed to finite numbers.
pub open spec fn values_fail<P: Fn(&str) -> Option<Double>>(
    parse_number: P,
    line_no: int,
    vals: Seq<Seq<char>>,
    e: Error,
) -> bool {
    exists|j: int|
        0 <= j < 5 && (forall|i: int| 0 <= i < j ==> #[trigger] parses_finite(parse_number, vals[i]))
            && #[trigger] field_fails(parse_number, line_no, vals, j, e)
}

/// Every value `parse_number` can give for the field's trimmed text is a
/// finite number.
pub open spec fn value_loads<P: Fn(&str) -> Option<Double>>(
    parse_number: P,
    field: Seq<char>,
) -> bool {
    forall|d: Option<Double>|
        #[trigger] parses_to(parse_number, field, d) ==> (d matches Some(x) && finite_bits(x@))
}

/// The values of a data line load: each of its five values can only parse
/// to a finite number.
pub open spec fn row_loads<P: Fn(&str) -> Option<Double>>(
    parse_number: P,
    line: Seq<char>,
) -> bool {
    let f = split_text(line, ',');
    forall|j: int| 1 <= j < 6 ==> #[trigger] value_loads(parse_number, f[j])
}

/// The data line `line` can give `bar`: the timestamp's seconds, and the
/// values of its five value fields.
pub open spec fn row_gives<P: Fn(&str) -> Option<Double>>(
    parse_number: P,
    line: Seq<char>,
    bar: Bar,
) -> bool {
    let f = split_text(line, ',');
    &&& epoch_offset(bar.start()) == Some(
        parse_unsigned(trimmed(f[0]), u64::MAX as nat)->0 as u64,
    )
    &&& values_give(parse_number, f.subrange(1, 6), bar)
}

/// `e` is the invalid-timestamp error of data line `k`: what a line gets
/// whose instant the platform cannot represent.
pub open spec fn timestamp_fails(lines: Seq<Seq<char>>, k: int, e: Error) -> bool {
    market_data_with(e, bad_message(line_number(k), "timestamp"@, split_text(lines[k], ',')[0]))
}

/// Data line `k` fails with `e`: the platform cannot represent its instant,
/// or one of its values does not parse to a finite number.
pub open spec fn row_fails<P: Fn(&str) -> Option<Double>>(
    parse_number: P,
    lines: Seq<Seq<char>>,
    k: int,
    e: Error,
) -> bool {
    ||| timestamp_fails(lines, k, e)
    ||| values_fail(parse_number, line_number(k), split_text(lines[k], ',').subrange(1, 6), e)
}

/// The data line `line` can give a bar.
pub open spec fn row_reads_well<P: Fn(&str) -> Option<Double>>(
    parse_number: P,
    line: Seq<char>,
) -> bool {
    exists|b: Bar| #[trigger] row_gives(parse_number, line, b)
}

/// The first `i` data rows `ks` of `lines` each can give a bar.
pub open spec fn rows_read_well<P: Fn(&str) -> Option<Double>>(
    parse_number: P,
    lines: Seq<Seq<char>>,
    ks: Seq<int>,
    i: int,
) -> bool {
    forall|j: int| 0 <= j < i ==> #[trigger] row_reads_well(parse_number, lines[ks[j]])
}

/// A data line whose values all load cannot fail on a value.
proof fn lemma_loading_values_do_not_fail<P: Fn(&str) -> Option<Double>>(
    parse_number: P,
    line: Seq<char>,
    line_no: int,
    e: Error,
)
    requires
        split_text(line, ',').len() == 6,
        values_fail(parse_number, line_no, split_text(line, ',').subrange(1, 6), e),
    ensures
        !row_loads(parse_number, line),
{
    let f = split_text(line, ',');
    let vals = f.subrange(1, 6);
    let j = choose|j: int|
        0 <= j < 5 && (forall|i: int| 0 <= i < j ==> #[trigger] parses_finite(parse_number, vals[i]))
            && #[trigger] field_fails(parse_number, line_no, vals, j, e);
    let d = choose|d: Option<Double>|
        #[trigger] parses_to(parse_number, vals[j], d) && !(d matches Some(x) && finite_bits(x@));
    assert(vals[j] == f[j + 1]);
    if row_loads(parse_number, line) {
        assert(value_loads(parse_number, f[j + 1]));
    }
}

/// Bars given by the first data rows witness that those rows read well.
proof fn lemma_rows_read_well<P: Fn(&str) -> Option<Double>>(
    parse_number: P,
    lines: Seq<Seq<char>>,
    ks: Seq<int>,
    bars: Seq<Bar>,
)
    requires
        bars.len() <= ks.len(),
        forall|i: int|
            0 <= i < bars.len() ==> #[trigger] row_gives(parse_number, lines[ks[i]], bars[i]),
    ensures
        rows_read_well(parse_number, lines, ks, bars.len() as int),
{
    assert forall|j: int| 0 <= j < bars.len() implies #[trigger] row_reads_well(
        parse_number,
        lines[ks[j]],
    ) by {
        assert(row_gives(parse_number, lines[ks[j]], bars[j]));
    }
}

/// Value field `j` (0 for open to 4 for volume) of a data row: its
/// trimmed text parsed by `parse_number`, which must give a finite number.
fn field_value<P: Fn(&str) -> Option<Double>>(
    row: &RawRow,
    j: usize,
    name: &str,
    parse_number: &P,
) -> (r: Result<Double, Error>)
    requires
        j < 5,
        row.fields@.len() == 5,
        row.line_no >= 0,
        name@ == field_name(j + 1),
        forall|t: &str| parse_number.requires((t,)),
    ensures
        r matches Ok(d) ==> finite_bits(d@) && parses_to(*parse_number, row.fields@[j as int]@, Some(d)),
        r matches Err(e) ==> field_fails(
            *parse_number,
            row.line_no as int,
            texts(row.fields@),
            j as int,
            e,
        ),
{
    let raw = row.fields[j].as_str();
    let t = trim_text(raw);
    let parsed = parse_number(t.as_str());
    assert(parses_to(*parse_number, raw@, parsed));
    let r = number_field(row.line_no, name, raw, parsed);
    proof {
        if r is Err {
            assert(texts(row.fields@)[j as int] == raw@);
        }
    }
    r
}

/// The bar of a data row: its five values must parse to finite numbers.
pub fn bar_of_row<P: Fn(&str) -> Option<Double>>(row: &RawRow, parse_number: &P) -> (r: Result<
    Bar,
    Error,
>)
    requires
        row.fields@.len() == 5,
        row.line_no >= 0,
        forall|t: &str| parse_number.requires((t,)),
    ensures
        r matches Ok(bar) ==> bar.start() == row.timestamp && values_give(
            *parse_number,
            texts(row.fields@),
            bar,
        ),
        r matches Err(e) ==> values_fail(*parse_number, row.line_no as int, texts(row.fields@), e),
{
    let ghost vals = texts(row.fields@);
    proof {
        reveal_strlit("open");
        reveal_strlit("high");
        reveal_strlit("low");
        reveal_strlit("close");
        reveal_strlit("volume");
    }
    let open = match field_value(row, 0, "open", parse_number) {
        Ok(v) => v,
        Err(e) => {
            assert(field_fails(*parse_number, row.line_no as int, vals, 0, e));
            return Err(e);
        },
    };
    assert(parses_finite(*parse_number, vals[0]));
    let high = match field_value(row, 1, "high", parse_number) {
        Ok(v) => v,
        Err(e) => {
            assert(field_fails(*parse_number, row.line_no as int, vals, 1, e));
            return Err(e);
        },
    };
    assert(parses_finite(*parse_number, vals[1]));
    let low = match field_value(row, 2, "low", parse_number) {
        Ok(v) => v,
        Err(e) => {
            assert(field_fails(*parse_number, row.line_no as int, vals, 2, e));
            return Err(e);
        },
    };
    assert(parses_finite(*parse_number, vals[2]));
    let close = match field_value(row, 3, "close", parse_number) {
        Ok(v) => v,
        Err(e) => {
            assert(field_fails(*parse_number, row.line_no as int, vals, 3, e));
            return Err(e);
        },
    };
    assert(parses_finite(*parse_number, vals[3]));
    let volume = match field_value(row, 4, "volume", parse_number) {
        Ok(v) => v,
        Err(e) => {
            assert(field_fails(*parse_number, row.line_no as int, vals, 4, e));
            return Err(e);
        },
    };
    proof {
        assert(vals[1] == row.fields@[1]@);
        assert(vals[2] == row.fields@[2]@);
    }
    match Bar::new(row.timestamp, open, high, low, close, volume) {
        Ok(bar) => {
            assert(parses_to(*parse_number, vals[1], Some(high)));
            assert(parses_to(*parse_number, vals[2], Some(low)));
            Ok(bar)
        },
        Err(e) => {
            assert(false);
            Err(e)
        },
    }
}

/// Reads a bar file's text into bars, in file order: the header must come
/// first, every data line needs six fields, an unsigned timestamp the
/// platform can represent and five values that `parse_number` (handed each
/// field's trimmed text) turns into finite numbers; at least one data line
/// is needed. The first error met is returned.
pub fn bars_from_text<P: Fn(&str) -> Option<Double>>(text: &str, parse_number: &P) -> (r: Result<
    Vec<Bar>,
    Error,
>)
    requires
        forall|t: &str| parse_number.requires((t,)),
    ensures
        ({
            let lines = text_lines(text@);
            let ks = rows_from(lines, 0);
            let end = end_of_rows(lines, 0);
            &&& r matches Ok(bars) ==> {
                &&& end is End
                &&& 0 < ks.len() == bars@.len()
                &&& forall|i: int|
                    0 <= i < ks.len() ==> #[trigger] row_gives(
                        *parse_number,
                        lines[ks[i]],
                        bars@[i],
                    )
            }
            &&& r matches Err(e) ==> {
                ||| exists|i: int|
                    0 <= i < ks.len() && rows_read_well(*parse_number, lines, ks, i)
                        && #[trigger] row_fails(*parse_number, lines, ks[i], e)
                ||| !(end is End) && rows_read_well(*parse_number, lines, ks, ks.len() as int)
                    && market_data_with(e, event_message(lines, end))
                ||| end is End && ks.len() == 0 && market_data_with(
                    e,
                    "bar file contains no data lines"@,
                )
            }
            &&& !(end is End) ==> r is Err
            &&& ks.len() == 0 ==> r is Err
            &&& (end is End && ks.len() > 0 && forall|i: int|
                0 <= i < ks.len() ==> #[trigger] row_loads(*parse_number, lines[ks[i]])) ==> (
            r is Ok || (r matches Err(e) && exists|i: int|
                0 <= i < ks.len() && rows_read_well(*parse_number, lines, ks, i)
                    && #[trigger] timestamp_fails(lines, ks[i], e)))
        }),
{
    let mut reader = BarFileReader::new(text);
    let ghost lines = reader.all_lines();
    let ghost ks = rows_from(lines, 0);
    let mut bars: Vec<Bar> = Vec::new();
    assert(ks.take(0) + rows_from(lines, 0) =~= ks);
    loop
        invariant
            lines == text_lines(text@),
            lines == reader.all_lines(),
            ks == rows_from(lines, 0),
            0 <= reader.position() <= lines.len(),
            bars@.len() <= ks.len(),
            ks == ks.take(bars@.len() as int) + rows_from(lines, reader.position()),
            end_of_rows(lines, 0) == end_of_rows(lines, reader.position()),
            reader.rows_read() == bars@.len(),
            forall|i: int|
                0 <= i < bars@.len() ==> #[trigger] row_gives(
                    *parse_number,
                    lines[ks[i]],
                    bars@[i],
                ),
            forall|t: &str| parse_number.requires((t,)),
        decreases lines.len() - reader.position(),
    {
        let ghost pos = reader.position();
        let ghost n = bars@.len() as int;
        proof {
            lemma_scan_row_bounds(lines, pos);
        }
        match reader.next_row() {
            Ok(Some(row)) => {
                let ghost k = scan(lines, pos)->Row_0;
                let ghost f = split_text(lines[k], ',');
                proof {
                    assert(scan(lines, pos) is Row);
                    assert(texts(row.fields@) == f.subrange(1, 6));
                    assert(texts(row.fields@).len() == row.fields@.len());
                    assert(rows_from(lines, pos) == seq![k] + rows_from(lines, k + 1));
                    assert(ks[n] == k);
                }
                let bar = match bar_of_row(&row, parse_number) {
                    Ok(b) => b,
                    Err(e) => {
                        proof {
                            lemma_rows_read_well(*parse_number, lines, ks, bars@);
                            assert(row_fails(*parse_number, lines, ks[n], e));
                            lemma_loading_values_do_not_fail(
                                *parse_number,
                                lines[k],
                                row.line_no as int,
                                e,
                            );
                        }
                        return Err(e);
                    },
                };
                let ghost before = bars@;
                bars.push(bar);
                proof {
                    assert(row_gives(*parse_number, lines[ks[n]], bar));
                    assert(ks.take(n + 1) =~= ks.take(n).push(k));
                    assert(ks == ks.take(n + 1) + rows_from(lines, k + 1));
                    assert forall|i: int| 0 <= i < bars@.len() implies #[trigger] row_gives(
                        *parse_number,
                        lines[ks[i]],
                        bars@[i],
                    ) by {
                        if i < n {
                            assert(bars@[i] == before[i]);
                        }
                    }
                }
            },
            Ok(None) => {
                proof {
                    assert(rows_from(lines, pos) =~= Seq::<int>::empty());
                    assert(ks =~= ks.take(n));
                }
                match reader.finish() {
                    Ok(()) => {},
                    Err(e) => return Err(e),
                }
                return Ok(bars);
            },
            Err(e) => {
                proof {
                    lemma_rows_read_well(*parse_number, lines, ks, bars@);
                    if scan(lines, pos) is Row {
                        let k = scan(lines, pos)->Row_0;
                        assert(rows_from(lines, pos) == seq![k] + rows_from(lines, k + 1));
                        assert(ks[n] == k);
                        assert(row_fails(*parse_number, lines, ks[n], e));
                        assert(timestamp_fails(lines, ks[n], e));
                    } else {
                        assert(rows_from(lines, pos) =~= Seq::<int>::empty());
                        assert(ks =~= ks.take(n));
                        assert(ks.len() == n);
                    }
                }
                return Err(e);
            },
        }
    }
}

/// Unix seconds of a bar timestamp; pre-epoch instants clamp to 0.
pub fn unix_secs(ts: SystemTime) -> (r: i64)
    ensures
        r == clamped_secs(epoch_offset(ts)),
        r >= 0,
{
    epoch_secs(&ts)
}

} // verus!
