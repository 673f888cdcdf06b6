use vstd::prelude::*;
use crate::errors::EngineError;
use crate::text::{
    all_digits, dec_spec, digit_char, digits_val, extend_chars, find_char, find_in, is_digit,
    is_digit_char, chars_to_string, parse_bounded, split_char, split_spec, sub_chars, to_chars,
    trim_chars, trim_spec,
};

verus! {

/// A value below one hundred written as exactly two decimal digits.
pub open spec fn pad2_spec(v: int) -> Seq<char> {
    seq![digit_char(v / 10), digit_char(v % 10)]
}

fn push_pad2(v: u32, out: &mut Vec<char>)
    requires
        v < 100,
    ensures
        final(out)@ == old(out)@ + pad2_spec(v as int),
{
    let t: u8 = 0x30 + ((v / 10) as u8);
    let o: u8 = 0x30 + ((v % 10) as u8);
    out.push(t as char);
    out.push(o as char);
    proof {
        assert(out@ =~= old(out)@ + pad2_spec(v as int));
    }
}

/// Whether the text is a dot-separated all-digit triple: at least three
/// dot-separated pieces, the first three non-empty and all digits.
pub open spec fn looks_date_spec(s: Seq<char>) -> bool {
    let parts = split_spec(s, '.');
    &&& parts.len() >= 3
    &&& parts[0].len() > 0 && all_digits(parts[0])
    &&& parts[1].len() > 0 && all_digits(parts[1])
    &&& parts[2].len() > 0 && all_digits(parts[2])
}

/// Whether the text is a colon-separated all-digit triple.
pub open spec fn looks_time_spec(s: Seq<char>) -> bool {
    let parts = split_spec(s, ':');
    &&& parts.len() >= 3
    &&& parts[0].len() > 0 && all_digits(parts[0])
    &&& parts[1].len() > 0 && all_digits(parts[1])
    &&& parts[2].len() > 0 && all_digits(parts[2])
}

fn nonempty_digits(v: &Vec<char>) -> (r: bool)
    ensures
        r == (v@.len() > 0 && all_digits(v@)),
{
    if v.len() == 0 {
        return false;
    }
    let mut i: usize = 0;
    while i < v.len()
        invariant
            i <= v@.len(),
            forall|k: int| 0 <= k < i ==> is_digit_char(v@[k]),
        decreases v@.len() - i,
    {
        if !is_digit(v[i]) {
            return false;
        }
        i = i + 1;
    }
    true
}

fn looks_like(v: &Vec<char>, sep: char) -> (r: bool)
    ensures
        r == ({
            let parts = split_spec(v@, sep);
            &&& parts.len() >= 3
            &&& parts[0].len() > 0 && all_digits(parts[0])
            &&& parts[1].len() > 0 && all_digits(parts[1])
            &&& parts[2].len() > 0 && all_digits(parts[2])
        }),
{
    let parts = split_char(v, sep);
    proof {
        assert(parts@.map_values(|p: Vec<char>| p@).len() == split_spec(v@, sep).len());
    }
    if parts.len() < 3 {
        return false;
    }
    proof {
        assert(parts@.map_values(|p: Vec<char>| p@)[0] == split_spec(v@, sep)[0]);
        assert(parts@.map_values(|p: Vec<char>| p@)[1] == split_spec(v@, sep)[1]);
        assert(parts@.map_values(|p: Vec<char>| p@)[2] == split_spec(v@, sep)[2]);
    }
    nonempty_digits(&parts[0]) && nonempty_digits(&parts[1]) && nonempty_digits(&parts[2])
}

/// Whether the first field reads as a date and the second as a time of day.
pub fn looks_like_date(v: &Vec<char>) -> (r: bool)
    ensures
        r == looks_date_spec(v@),
{
    looks_like(v, '.')
}

pub fn looks_like_time(v: &Vec<char>) -> (r: bool)
    ensures
        r == looks_time_spec(v@),
{
    looks_like(v, ':')
}

/// The normal form of the time part: the text is trimmed and split on `:`;
/// it must yield at least hour, minute and second, each a non-empty run of
/// digits with hour at most 23 and minute and second at most 59; the result
/// writes each as two digits. Pieces beyond the third are ignored.
pub open spec fn norm_time_spec(t: Seq<char>) -> Option<Seq<char>> {
    let parts = split_spec(trim_spec(t), ':');
    if parts.len() < 3 {
        None
    } else {
        let h = parts[0];
        let m = parts[1];
        let s = parts[2];
        if h.len() > 0 && m.len() > 0 && s.len() > 0 && all_digits(h) && all_digits(m)
            && all_digits(s) && digits_val(h) <= 23 && digits_val(m) <= 59 && digits_val(s)
            <= 59 {
            Some(
                pad2_spec(digits_val(h)) + seq![':'] + pad2_spec(digits_val(m)) + seq![':']
                    + pad2_spec(digits_val(s)),
            )
        } else {
            None
        }
    }
}

/// Every `.` in the date part becomes `-`; nothing else is checked or changed.
pub open spec fn map_dots(d: Seq<char>) -> Seq<char> {
    d.map_values(|c: char| if c == '.' { '-' } else { c })
}

/// The canonical timestamp built around the first occurrence of `sep`: the
/// date part, which must be a dot-separated all-digit triple, with its dots
/// turned to dashes, then `T`, the normalized time, `Z`.
pub open spec fn norm_with_spec(s: Seq<char>, sep: char) -> Option<Seq<char>> {
    let i = find_char(s, sep);
    let date = s.subrange(0, i);
    let time = s.subrange(i + 1, s.len() as int);
    if !looks_date_spec(date) {
        None
    } else {
        match norm_time_spec(time) {
            Some(t) => Some(map_dots(date) + seq!['T'] + t + seq!['Z']),
            None => None,
        }
    }
}

/// What `normalize_timestamp` returns: the input is split at the first space
/// if it has one, else at the first tab; with neither, it is rejected.
pub open spec fn normalize_spec(s: Seq<char>) -> Option<Seq<char>> {
    if find_char(s, ' ') < s.len() {
        norm_with_spec(s, ' ')
    } else if find_char(s, '\t') < s.len() {
        norm_with_spec(s, '\t')
    } else {
        None
    }
}

/// The diagnostic of a failed split: the part at fault, with the offending
/// text attached.
pub open spec fn norm_err_with(s: Seq<char>, sep: char) -> Seq<char> {
    let date = s.subrange(0, find_char(s, sep));
    if !looks_date_spec(date) {
        "invalid date format: "@ + s
    } else {
        "invalid time format: "@ + s
    }
}

/// The diagnostic carried when normalization fails, offending text included.
pub open spec fn normalize_err_detail(s: Seq<char>) -> Seq<char> {
    if find_char(s, ' ') < s.len() {
        norm_err_with(s, ' ')
    } else if find_char(s, '\t') < s.len() {
        norm_err_with(s, '\t')
    } else {
        "invalid timestamp format: "@ + s
    }
}

pub fn normalize_time(time: &Vec<char>) -> (r: Option<Vec<char>>)
    ensures
        (match r {
            Some(t) => norm_time_spec(time@) == Some(t@),
            None => norm_time_spec(time@) is None,
        }),
{
    let tt = trim_chars(time);
    let parts = split_char(&tt, ':');
    let ghost sparts = split_spec(trim_spec(time@), ':');
    proof {
        assert(parts@.map_values(|p: Vec<char>| p@).len() == sparts.len());
    }
    if parts.len() < 3 {
        return None;
    }
    proof {
        assert(parts@.map_values(|p: Vec<char>| p@)[0] == sparts[0]);
        assert(parts@.map_values(|p: Vec<char>| p@)[1] == sparts[1]);
        assert(parts@.map_values(|p: Vec<char>| p@)[2] == sparts[2]);
    }
    let h = match parse_bounded(&parts[0], 23) {
        Some(v) => v as u32,
        None => {
            return None;
        },
    };
    let m = match parse_bounded(&parts[1], 59) {
        Some(v) => v as u32,
        None => {
            return None;
        },
    };
    let s = match parse_bounded(&parts[2], 59) {
        Some(v) => v as u32,
        None => {
            return None;
        },
    };
    let mut out: Vec<char> = Vec::new();
    push_pad2(h, &mut out);
    out.push(':');
    push_pad2(m, &mut out);
    out.push(':');
    push_pad2(s, &mut out);
    proof {
        assert(out@ =~= pad2_spec(digits_val(sparts[0])) + seq![':'] + pad2_spec(
            digits_val(sparts[1]),
        ) + seq![':'] + pad2_spec(digits_val(sparts[2])));
    }
    Some(out)
}

fn norm_with(v: &Vec<char>, sep: char) -> (r: Option<Vec<char>>)
    requires
        find_char(v@, sep) < v@.len(),
    ensures
        (match r {
            Some(t) => norm_with_spec(v@, sep) == Some(t@),
            None => norm_with_spec(v@, sep) is None,
        }),
{
    proof {
        crate::text::lemma_find_char(v@, sep);
    }
    let i = find_in(v, sep);
    assert(i < v.len());
    let date = sub_chars(v, 0, i);
    if !looks_like_date(&date) {
        return None;
    }
    let time = sub_chars(v, i + 1, v.len());
    let t = match normalize_time(&time) {
        Some(t) => t,
        None => {
            return None;
        },
    };
    let mut out: Vec<char> = Vec::new();
    let mut k: usize = 0;
    while k < date.len()
        invariant
            k <= date@.len(),
            out@ == map_dots(date@.subrange(0, k as int)),
        decreases date@.len() - k,
    {
        let c = date[k];
        if c == '.' {
            out.push('-');
        } else {
            out.push(c);
        }
        k = k + 1;
        proof {
            assert(out@ =~= map_dots(date@.subrange(0, k as int)));
        }
    }
    proof {
        assert(date@.subrange(0, date@.len() as int) =~= date@);
    }
    out.push('T');
    extend_chars(&mut out, &t);
    out.push('Z');
    proof {
        assert(out@ =~= map_dots(date@) + seq!['T'] + t@ + seq!['Z']);
    }
    Some(out)
}

fn norm_err(v: &Vec<char>, sep: char) -> (r: Vec<char>)
    requires
        find_char(v@, sep) < v@.len(),
    ensures
        r@ == norm_err_with(v@, sep),
{
    proof {
        crate::text::lemma_find_char(v@, sep);
    }
    let i = find_in(v, sep);
    let date = sub_chars(v, 0, i);
    let mut out = if !looks_like_date(&date) {
        to_chars("invalid date format: ")
    } else {
        to_chars("invalid time format: ")
    };
    extend_chars(&mut out, v);
    out
}

/// The character-level normalizer: the canonical form on success, the
/// diagnostic text on failure.
pub fn normalize_core(v: &Vec<char>) -> (r: Result<Vec<char>, Vec<char>>)
    ensures
        (match r {
            Ok(t) => normalize_spec(v@) == Some(t@),
            Err(d) => normalize_spec(v@) is None && d@ == normalize_err_detail(v@),
        }),
{
    let n = v.len();
    let i_sp = find_in(v, ' ');
    if i_sp < n {
        match norm_with(v, ' ') {
            Some(t) => {
                return Ok(t);
            },
            None => {
                return Err(norm_err(v, ' '));
            },
        }
    }
    let i_tab = find_in(v, '\t');
    if i_tab < n {
        match norm_with(v, '\t') {
            Some(t) => {
                return Ok(t);
            },
            None => {
                return Err(norm_err(v, '\t'));
            },
        }
    }
    let mut out = to_chars("invalid timestamp format: ");
    extend_chars(&mut out, v);
    Err(out)
}

/// Turns `YYYY.MM.DD H:MM:SS` (space- or tab-separated, UTC) into the
/// canonical `YYYY-MM-DDTHH:MM:SSZ` form, zero-padding the time components;
/// rejects text without a separator, a date part that is not a dot-separated
/// all-digit triple, or a malformed or out-of-range time, the diagnostic
/// carrying the offending text.
pub fn normalize_timestamp(s: &str) -> (r: Result<String, EngineError>)
    ensures
        (match r {
            Ok(t) => normalize_spec(s@) == Some(t@),
            Err(e) => normalize_spec(s@) is None && (e matches EngineError::InvalidTimestamp {
                detail,
            } && detail@ == normalize_err_detail(s@)),
        }),
{
    let v = to_chars(s);
    match normalize_core(&v) {
        Ok(t) => Ok(chars_to_string(&t)),
        Err(d) => Err(EngineError::InvalidTimestamp { detail: chars_to_string(&d) }),
    }
}

} // verus!
