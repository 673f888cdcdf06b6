use vstd::prelude::*;
use crate::errors::EngineError;
use crate::model::ParsedRow;
use crate::text::{all_digits, chars_to_string, contains_chars, contains_sub, dec_spec,
    extend_chars, find_char, find_in, is_digit, is_digit_char, lower_seq, split_char, split_spec,
    split_ws, split_ws_spec, sub_chars, to_chars, to_lower, trim_chars, trim_spec, u64_to_dec};
use crate::ts::{looks_date_spec, looks_like_date, looks_like_time, looks_time_spec,
    normalize_core, normalize_err_detail, normalize_spec};

verus! {

/// The ghost image of a parsed row: the 1-based line number, the normalized
/// timestamp, and the raw numeric field texts.
pub ghost struct RowModel {
    pub line: int,
    pub ts: Seq<char>,
    pub open: Seq<char>,
    pub high: Seq<char>,
    pub low: Seq<char>,
    pub close: Seq<char>,
    pub volume: Option<Seq<char>>,
}

impl View for ParsedRow {
    type V = RowModel;

    open spec fn view(&self) -> RowModel {
        RowModel {
            line: self.line as int,
            ts: self.ts_utc@,
            open: self.open_text@,
            high: self.high_text@,
            low: self.low_text@,
            close: self.close_text@,
            volume: (match self.volume_text {
                Some(v) => Some(v@),
                None => None,
            }),
        }
    }
}

/// A line without its final carriage return, if it carries one.
pub open spec fn strip_cr(l: Seq<char>) -> Seq<char> {
    if l.len() > 0 && l[l.len() - 1] == '\r' {
        l.drop_last()
    } else {
        l
    }
}

/// What `str::lines` yields: the pieces between newlines, a final carriage
/// return stripped from each, with no empty last piece after a final newline.
pub open spec fn lines_spec(s: Seq<char>) -> Seq<Seq<char>> {
    if s.len() == 0 {
        Seq::empty()
    } else {
        let raw = split_spec(s, '\n');
        let kept = if s[s.len() - 1] == '\n' {
            raw.drop_last()
        } else {
            raw
        };
        kept.map_values(|l: Seq<char>| strip_cr(l))
    }
}

fn split_into_lines(v: &Vec<char>) -> (r: Vec<Vec<char>>)
    ensures
        r@.map_values(|l: Vec<char>| l@) == lines_spec(v@),
{
    if v.len() == 0 {
        let r: Vec<Vec<char>> = Vec::new();
        proof {
            assert(r@.map_values(|l: Vec<char>| l@) =~= lines_spec(v@));
        }
        return r;
    }
    let mut raw = split_char(v, '\n');
    let ghost raw0 = raw@.map_values(|l: Vec<char>| l@);
    if v[v.len() - 1] == '\n' {
        proof {
            crate::text::lemma_split_len(v@, '\n');
        }
        raw.pop();
        proof {
            assert(raw@.map_values(|l: Vec<char>| l@) =~= raw0.drop_last());
        }
    }
    let ghost kept = raw@.map_values(|l: Vec<char>| l@);
    let mut out: Vec<Vec<char>> = Vec::new();
    let mut i: usize = 0;
    while i < raw.len()
        invariant
            i <= raw@.len(),
            kept == raw@.map_values(|l: Vec<char>| l@),
            out@.len() == i,
            forall|k: int| 0 <= k < i ==> (#[trigger] out@[k])@ == strip_cr(kept[k]),
        decreases raw@.len() - i,
    {
        let piece: &Vec<char> = &raw[i];
        let n = piece.len();
        let stripped: Vec<char> = if n > 0 && piece[n - 1] == '\r' {
            sub_chars(piece, 0, n - 1)
        } else {
            sub_chars(piece, 0, n)
        };
        proof {
            assert(raw@[i as int]@ == kept[i as int]);
            if n > 0 && piece@[n - 1] == '\r' {
                assert(stripped@ =~= strip_cr(piece@));
            } else {
                assert(stripped@ =~= piece@);
            }
            assert(stripped@ == strip_cr(kept[i as int]));
        }
        out.push(stripped);
        i = i + 1;
    }
    proof {
        let got = out@.map_values(|l: Vec<char>| l@);
        let target = kept.map_values(|l: Seq<char>| strip_cr(l));
        assert forall|k: int| 0 <= k < got.len() implies got[k] == target[k] by {
            assert(got[k] == out@[k]@);
            assert(target[k] == strip_cr(kept[k]));
        }
        assert(got =~= target);
    }
    out
}

/// The per-line field splitter: a tab anywhere makes it a tab split, else a
/// comma anywhere makes it a comma split, else whitespace runs split it.
pub open spec fn line_fields(line: Seq<char>) -> Seq<Seq<char>> {
    if find_char(line, '\t') < line.len() {
        split_spec(line, '\t')
    } else if find_char(line, ',') < line.len() {
        split_spec(line, ',')
    } else {
        split_ws_spec(line)
    }
}

/// Splits one data line into fields, choosing the delimiter per line.
pub fn split_line(line: &Vec<char>) -> (r: Vec<Vec<char>>)
    ensures
        r@.map_values(|p: Vec<char>| p@) == line_fields(line@),
{
    proof {
        crate::text::lemma_find_char(line@, '\t');
        crate::text::lemma_find_char(line@, ',');
    }
    let n = line.len();
    if find_in(line, '\t') < n {
        split_char(line, '\t')
    } else if find_in(line, ',') < n {
        split_char(line, ',')
    } else {
        split_ws(line)
    }
}

/// Commas dropped from the text, every one of them.
pub open spec fn drop_commas(s: Seq<char>) -> Seq<char>
    decreases s.len(),
{
    if s.len() == 0 {
        s
    } else if s.last() == ',' {
        drop_commas(s.drop_last())
    } else {
        drop_commas(s.drop_last()).push(s.last())
    }
}

/// A numeric field made parseable: trimmed, with thousands-separator commas
/// removed.
pub open spec fn clean_num_spec(s: Seq<char>) -> Seq<char> {
    drop_commas(trim_spec(s))
}

/// Cleans a numeric field text: trims it and strips every comma.
pub fn clean_number(s: &str) -> (r: String)
    ensures
        r@ == clean_num_spec(s@),
{
    let v = to_chars(s);
    let t = trim_chars(&v);
    let mut out: Vec<char> = Vec::new();
    let mut i: usize = 0;
    while i < t.len()
        invariant
            i <= t@.len(),
            out@ == drop_commas(t@.subrange(0, i as int)),
        decreases t@.len() - i,
    {
        let c = t[i];
        proof {
            let a = t@.subrange(0, i as int);
            let b = t@.subrange(0, i as int + 1);
            assert(b.drop_last() =~= a);
            assert(b.last() == t@[i as int]);
        }
        if c != ',' {
            out.push(c);
        }
        i = i + 1;
    }
    proof {
        assert(t@.subrange(0, t@.len() as int) =~= t@);
    }
    chars_to_string(&out)
}

/// Whether a (trimmed) first line is a header: its lowercase form mentions
/// `timestamp`, or both `date` and `time`.
pub open spec fn is_header(line: Seq<char>) -> bool {
    let low = lower_seq(line);
    contains_sub(low, "timestamp"@) || (contains_sub(low, "date"@) && contains_sub(low, "time"@))
}

fn header_check(line: &Vec<char>) -> (r: bool)
    ensures
        r == is_header(line@),
{
    let s = chars_to_string(line);
    let lowered = to_lower(s.as_str());
    let low = to_chars(lowered.as_str());
    let pat_ts = to_chars("timestamp");
    let pat_date = to_chars("date");
    let pat_time = to_chars("time");
    contains_chars(&low, &pat_ts) || (contains_chars(&low, &pat_date) && contains_chars(
        &low,
        &pat_time,
    ))
}

/// Whether a line carries its timestamp in two leading columns.
pub open spec fn two_col(fields: Seq<Seq<char>>) -> bool {
    fields.len() >= 6 && looks_date_spec(fields[0]) && looks_time_spec(fields[1])
}

/// The raw timestamp text of a line: the trimmed first field, or the trimmed
/// first two fields joined by a space for a two-column layout.
pub open spec fn ts_raw_of(fields: Seq<Seq<char>>) -> Seq<char> {
    if two_col(fields) {
        trim_spec(fields[0]) + seq![' '] + trim_spec(fields[1])
    } else {
        trim_spec(fields[0])
    }
}

/// One data line turned into a row, or the base diagnostic text it fails
/// with: too few fields, or a timestamp the normalizer rejects.
pub open spec fn row_spec(lineno: int, fields: Seq<Seq<char>>) -> Result<RowModel, Seq<char>> {
    if fields.len() < 5 {
        Err("invalid column count"@)
    } else {
        let start: int = if two_col(fields) {
            2
        } else {
            1
        };
        match normalize_spec(ts_raw_of(fields)) {
            None => Err(normalize_err_detail(ts_raw_of(fields))),
            Some(ts) => {
                if fields.len() < start + 4 {
                    Err("invalid column count"@)
                } else {
                    Ok(
                        RowModel {
                            line: lineno,
                            ts: ts,
                            open: fields[start],
                            high: fields[start + 1],
                            low: fields[start + 2],
                            close: fields[start + 3],
                            volume: (if fields.len() > start + 4 {
                                Some(fields[start + 4])
                            } else {
                                None
                            }),
                        },
                    )
                }
            },
        }
    }
}

/// The diagnostic text of a failed line: the base message with the 1-based
/// line number attached.
pub open spec fn line_err_text(base: Seq<char>, lineno: int) -> Seq<char> {
    base + " at line "@ + dec_spec(lineno)
}

/// The whole parse from line `i` on: blank lines are skipped; the first
/// non-blank line, when it reads as a header, is skipped too; every other
/// line must be a data row, and the first failing line aborts the parse.
pub open spec fn parse_from(lines: Seq<Seq<char>>, i: int, seen: bool) -> Result<
    Seq<RowModel>,
    (int, Seq<char>),
>
    decreases lines.len() - i,
{
    if i < 0 || i >= lines.len() {
        Ok(Seq::empty())
    } else {
        let t = trim_spec(lines[i]);
        if t.len() == 0 {
            parse_from(lines, i + 1, seen)
        } else if !seen && is_header(t) {
            parse_from(lines, i + 1, true)
        } else {
            match row_spec(i + 1, line_fields(t)) {
                Err(base) => Err(((i + 1), line_err_text(base, i + 1))),
                Ok(row) => (match parse_from(lines, i + 1, true) {
                    Ok(rest) => Ok(seq![row] + rest),
                    Err(e) => Err(e),
                }),
            }
        }
    }
}

/// What parsing a whole file yields: its rows in order, or the first failing
/// line's number and diagnostic.
pub open spec fn parse_spec(content: Seq<char>) -> Result<Seq<RowModel>, (int, Seq<char>)> {
    parse_from(lines_spec(content), 0, false)
}

spec fn wrap_rows(acc: Seq<RowModel>, r: Result<Seq<RowModel>, (int, Seq<char>)>) -> Result<
    Seq<RowModel>,
    (int, Seq<char>),
> {
    match r {
        Ok(rest) => Ok(acc + rest),
        Err(e) => Err(e),
    }
}

fn line_err(lineno: u64, base: &Vec<char>) -> (e: EngineError)
    ensures
        (e matches EngineError::ParseError { line, detail } && line == lineno && detail@
            == line_err_text(base@, lineno as int)),
{
    let mut d = sub_chars(base, 0, base.len());
    let mid = to_chars(" at line ");
    extend_chars(&mut d, &mid);
    let num = u64_to_dec(lineno);
    extend_chars(&mut d, &num);
    proof {
        assert(d@ =~= line_err_text(base@, lineno as int));
    }
    EngineError::ParseError { line: lineno, detail: chars_to_string(&d) }
}

/// Parses delimited candle text into rows: blank lines skipped, a leading
/// header skipped, the delimiter chosen per line, the timestamp normalized
/// (two-column date and time layouts recognised), and the raw numeric fields
/// handed on untouched. The first bad line aborts the parse with its 1-based
/// number in the diagnostic.
pub fn parse_csv_like(content: &str) -> (r: Result<Vec<ParsedRow>, EngineError>)
    ensures
        (match r {
            Ok(rows) => parse_spec(content@) == Ok::<Seq<RowModel>, (int, Seq<char>)>(
                rows@.map_values(|p: ParsedRow| p@),
            ),
            Err(e) => (e matches EngineError::ParseError { line, detail }
                && parse_spec(content@) matches Err(err) && err.0 == line as int && err.1
                == detail@),
        }),
{
    let v = to_chars(content);
    let lines = split_into_lines(&v);
    let ghost lns = lines_spec(content@);
    let mut rows: Vec<ParsedRow> = Vec::new();
    let mut seen = false;
    let mut i: usize = 0;
    while i < lines.len()
        invariant
            lns == lines_spec(content@),
            lines@.map_values(|l: Vec<char>| l@) == lns,
            i <= lines@.len(),
            parse_spec(content@) == wrap_rows(
                rows@.map_values(|p: ParsedRow| p@),
                parse_from(lns, i as int, seen),
            ),
        decreases lines@.len() - i,
    {
        let ghost old_rows = rows@;
        proof {
            assert(lines@.map_values(|l: Vec<char>| l@)[i as int] == lns[i as int]);
        }
        let t = trim_chars(&lines[i]);
        if t.len() == 0 {
            i = i + 1;
        } else if !seen && header_check(&t) {
            seen = true;
            i = i + 1;
        } else {
            let fields = split_line(&t);
            let ghost sfields = line_fields(t@);
            proof {
                assert(fields@.map_values(|p: Vec<char>| p@) == sfields);
            }
            if fields.len() < 5 {
                let base = to_chars("invalid column count");
                return Err(line_err((i + 1) as u64, &base));
            }
            proof {
                assert(fields@.map_values(|p: Vec<char>| p@)[0] == sfields[0]);
                assert(fields@.map_values(|p: Vec<char>| p@)[1] == sfields[1]);
            }
            let twocol = looks_like_date(&fields[0]) && looks_like_time(&fields[1])
                && fields.len() >= 6;
            let mut ts_raw = trim_chars(&fields[0]);
            if twocol {
                ts_raw.push(' ');
                let second = trim_chars(&fields[1]);
                extend_chars(&mut ts_raw, &second);
                proof {
                    assert(ts_raw@ =~= ts_raw_of(sfields));
                }
            } else {
                proof {
                    assert(ts_raw@ =~= ts_raw_of(sfields));
                }
            }
            let ts = match normalize_core(&ts_raw) {
                Ok(ts) => ts,
                Err(d) => {
                    return Err(line_err((i + 1) as u64, &d));
                },
            };
            let start: usize = if twocol {
                2
            } else {
                1
            };
            if fields.len() < start + 4 {
                let base = to_chars("invalid column count");
                return Err(line_err((i + 1) as u64, &base));
            }
            proof {
                assert(fields@.map_values(|p: Vec<char>| p@)[start as int] == sfields[start as int]);
                assert(fields@.map_values(|p: Vec<char>| p@)[start as int + 1] == sfields[start as int + 1]);
                assert(fields@.map_values(|p: Vec<char>| p@)[start as int + 2] == sfields[start as int + 2]);
                assert(fields@.map_values(|p: Vec<char>| p@)[start as int + 3] == sfields[start as int + 3]);
                if sfields.len() > start as int + 4 {
                    assert(fields@.map_values(|p: Vec<char>| p@)[start as int + 4] == sfields[start as int + 4]);
                }
            }
            let volume_text: Option<String> = if fields.len() > start + 4 {
                Some(chars_to_string(&fields[start + 4]))
            } else {
                None
            };
            let row = ParsedRow {
                line: (i + 1) as u64,
                ts_utc: chars_to_string(&ts),
                open_text: chars_to_string(&fields[start]),
                high_text: chars_to_string(&fields[start + 1]),
                low_text: chars_to_string(&fields[start + 2]),
                close_text: chars_to_string(&fields[start + 3]),
                volume_text,
            };
            proof {
                assert(row_spec(i as int + 1, sfields) == Ok::<RowModel, Seq<char>>(row@));
            }
            rows.push(row);
            seen = true;
            i = i + 1;
            proof {
                assert(rows@.map_values(|p: ParsedRow| p@) =~= old_rows.map_values(
                    |p: ParsedRow| p@,
                ).push(row@));
                let rest = parse_from(lns, i as int, true);
                if rest is Ok {
                    assert(old_rows.map_values(|p: ParsedRow| p@) + (seq![row@] + rest->Ok_0)
                        =~= rows@.map_values(|p: ParsedRow| p@) + rest->Ok_0);
                }
            }
        }
    }
    proof {
        assert(rows@.map_values(|p: ParsedRow| p@) + Seq::<RowModel>::empty() =~= rows@.map_values(
            |p: ParsedRow| p@,
        ));
    }
    Ok(rows)
}

} // verus!
