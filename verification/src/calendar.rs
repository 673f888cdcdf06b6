use vstd::prelude::*;
use vstd::arithmetic::div_mod::{lemma_fundamental_div_mod, lemma_mod_division_less_than_divisor};
use crate::errors::EngineError;
use crate::text::{all_digits, digits_val, is_digit_char, lemma_digits_avoid, lemma_pad_digits,
    lemma_split_concat, lemma_split_no_sep, pad_num_spec, parse_bounded, push_pad_num, split_char,
    split_spec, sub_chars, to_chars, chars_to_string};

verus! {

broadcast use {vstd::arithmetic::div_mod::lemma_fundamental_div_mod,
    vstd::arithmetic::div_mod::lemma_mod_division_less_than_divisor,
    vstd::arithmetic::div_mod::group_div_basics};

/// Division as Rust's `/` computes it on signed integers: the quotient is
/// rounded toward zero. Meaningful for a positive divisor.
pub open spec fn div_tr(a: int, b: int) -> int {
    if a >= 0 {
        a / b
    } else {
        -((-a) / b)
    }
}

pub proof fn lemma_div_tr(a: int, b: int)
    requires
        b > 0,
    ensures
        a >= 0 ==> a - b * div_tr(a, b) == a % b,
        a < 0 ==> a - b * div_tr(a, b) == -((-a) % b),
        -b < a - b * div_tr(a, b) < b,
        a >= 0 ==> 0 <= div_tr(a, b) <= a,
        a < 0 ==> a <= div_tr(a, b) <= 0,
{
    if a >= 0 {
        lemma_fundamental_div_mod(a, b);
        lemma_mod_division_less_than_divisor(a, b);
    } else {
        lemma_fundamental_div_mod(-a, b);
        lemma_mod_division_less_than_divisor(-a, b);
        assert((-a) / b <= -a);
        assert(b * div_tr(a, b) == -(b * ((-a) / b))) by (nonlinear_arith)
            requires
                b > 0,
                a < 0,
                div_tr(a, b) == -((-a) / b),
        ;
    }
}

pub fn div_tr_exec(a: i64, b: i64) -> (q: i64)
    requires
        1 <= b,
        a > i64::MIN,
    ensures
        q == div_tr(a as int, b as int),
{
    if a >= 0 {
        let q = (a as u64) / (b as u64);
        q as i64
    } else {
        let m = (-a) as u64;
        let q = m / (b as u64);
        proof {
            assert(m as int / b as int <= m as int);
        }
        -(q as i64)
    }
}

fn udiv(a: i64, b: i64) -> (q: i64)
    requires
        0 <= a,
        1 <= b,
    ensures
        q == a as int / b as int,
{
    let q = (a as u64) / (b as u64);
    q as i64
}

fn div_eu(a: i64, b: i64) -> (q: i64)
    requires
        1 <= b <= 1_000_000_000,
    ensures
        q == a as int / b as int,
{
    proof {
        lemma_fundamental_div_mod(a as int, b as int);
        lemma_mod_division_less_than_divisor(a as int, b as int);
        let q = a as int / b as int;
        let r = a as int % b as int;
        assert(i64::MIN <= q <= i64::MAX) by (nonlinear_arith)
            requires
                a as int == b as int * q + r,
                0 <= r < b as int,
                1 <= b as int,
                i64::MIN <= a as int <= i64::MAX,
        ;
    }
    match a.checked_div_euclid(b) {
        Some(q) => q,
        None => {
            proof {
                assert(false);
            }
            0
        },
    }
}

fn rem_eu(a: i64, b: i64) -> (r: i64)
    requires
        1 <= b <= 1_000_000_000,
    ensures
        r == a as int % b as int,
        0 <= r < b,
{
    proof {
        lemma_fundamental_div_mod(a as int, b as int);
        lemma_mod_division_less_than_divisor(a as int, b as int);
    }
    match a.checked_rem_euclid(b) {
        Some(r) => r,
        None => {
            proof {
                assert(false);
            }
            0
        },
    }
}

/// Seconds since 1970-01-01T00:00:00Z of the given civil components, by the
/// proleptic-Gregorian day count; no range checks, no leap seconds.
pub open spec fn to_epoch_spec(year: int, month: int, day: int, hour: int, min: int, sec: int) -> int {
    let y = if month <= 2 { year - 1 } else { year };
    let m = if month <= 2 { month + 12 } else { month };
    let era = div_tr(y, 400);
    let yoe = y - era * 400;
    let doy = div_tr(153 * (m - 3) + 2, 5) + day - 1;
    let doe = yoe * 365 + div_tr(yoe, 4) - div_tr(yoe, 100) + doy;
    let days = era * 146097 + doe - 719468;
    days * 86400 + hour * 3600 + min * 60 + sec
}

/// The largest magnitude a civil component may have here; it keeps every
/// intermediate of the day arithmetic within the machine word.
pub const COMPONENT_BOUND: i64 = 1_000_000_000;

/// The epoch values that `to_epoch` can produce under `COMPONENT_BOUND`.
pub const EPOCH_BOUND: i64 = 100_000_000_000_000_000;

pub fn to_epoch(year: i64, month: i64, day: i64, hour: i64, min: i64, sec: i64) -> (r: i64)
    requires
        -COMPONENT_BOUND <= year <= COMPONENT_BOUND,
        -COMPONENT_BOUND <= month <= COMPONENT_BOUND,
        -COMPONENT_BOUND <= day <= COMPONENT_BOUND,
        -COMPONENT_BOUND <= hour <= COMPONENT_BOUND,
        -COMPONENT_BOUND <= min <= COMPONENT_BOUND,
        -COMPONENT_BOUND <= sec <= COMPONENT_BOUND,
    ensures
        r == to_epoch_spec(year as int, month as int, day as int, hour as int, min as int, sec as int),
        -EPOCH_BOUND <= r <= EPOCH_BOUND,
{
    let (y, m): (i64, i64) = if month <= 2 {
        (year - 1, month + 12)
    } else {
        (year, month)
    };
    let era = div_tr_exec(y, 400);
    proof {
        lemma_div_tr(y as int, 400);
    }
    let yoe = y - era * 400;
    let doy = div_tr_exec(153 * (m - 3) + 2, 5) + day - 1;
    proof {
        lemma_div_tr(153 * (m as int - 3) + 2, 5);
        lemma_div_tr(yoe as int, 4);
        lemma_div_tr(yoe as int, 100);
    }
    let doe = yoe * 365 + div_tr_exec(yoe, 4) - div_tr_exec(yoe, 100) + doy;
    let days = era * 146097 + doe - 719468;
    days * 86400 + hour * 3600 + min * 60 + sec
}

pub open spec fn fe_days(e: int) -> int {
    e / 86400
}

pub open spec fn fe_secs(e: int) -> int {
    e % 86400
}

pub open spec fn fe_era(e: int) -> int {
    (fe_days(e) + 719468) / 146097
}

pub open spec fn fe_doe(e: int) -> int {
    (fe_days(e) + 719468) - fe_era(e) * 146097
}

pub open spec fn fe_yoe(e: int) -> int {
    let doe = fe_doe(e);
    (doe - div_tr(doe, 1460) + div_tr(doe, 36524) - div_tr(doe, 146096)) / 365
}

pub open spec fn fe_doy(e: int) -> int {
    let yoe = fe_yoe(e);
    fe_doe(e) - (365 * yoe + div_tr(yoe, 4) - div_tr(yoe, 100))
}

pub open spec fn fe_mp(e: int) -> int {
    (5 * fe_doy(e) + 2) / 153
}

pub open spec fn fe_day(e: int) -> int {
    fe_doy(e) - (153 * fe_mp(e) + 2) / 5 + 1
}

pub open spec fn fe_month(e: int) -> int {
    fe_mp(e) + if fe_mp(e) < 10 {
        3int
    } else {
        -9int
    }
}

pub open spec fn fe_year(e: int) -> int {
    fe_yoe(e) + fe_era(e) * 400 + if fe_month(e) <= 2 {
        1int
    } else {
        0int
    }
}

/// The civil components of an epoch value: year, month, day, hour, minute,
/// second, by the inverse proleptic-Gregorian day count.
pub open spec fn from_epoch_spec(e: int) -> (int, int, int, int, int, int) {
    (
        fe_year(e),
        fe_month(e),
        fe_day(e),
        fe_secs(e) / 3600,
        (fe_secs(e) % 3600) / 60,
        fe_secs(e) % 60,
    )
}

/// Epochs this far from zero stay clear of overflow in `from_epoch`; every
/// value `to_epoch` can produce under `COMPONENT_BOUND` lies well inside.
pub const FE_BOUND: i64 = 400_000_000_000_000_000;

pub fn from_epoch(e: i64) -> (r: (i64, i64, i64, i64, i64, i64))
    requires
        -FE_BOUND <= e <= FE_BOUND,
    ensures
        (r.0 as int, r.1 as int, r.2 as int, r.3 as int, r.4 as int, r.5 as int)
            == from_epoch_spec(e as int),
        -100_000_000_000 <= r.0 <= 100_000_000_000,
        -100_000_000_000 <= r.1 <= 100_000_000_000,
        -100_000_000_000 <= r.2 <= 100_000_000_000,
        -100_000_000_000 <= r.3 <= 100_000_000_000,
        -100_000_000_000 <= r.4 <= 100_000_000_000,
        -100_000_000_000 <= r.5 <= 100_000_000_000,
{
    let days = div_eu(e, 86400);
    let secs = rem_eu(e, 86400);
    proof {
        lemma_fundamental_div_mod(e as int, 86400);
        lemma_mod_division_less_than_divisor(e as int, 86400);
    }
    let z = days + 719468;
    let era = div_eu(z, 146097);
    proof {
        lemma_fundamental_div_mod(z as int, 146097);
        lemma_mod_division_less_than_divisor(z as int, 146097);
    }
    let doe = z - era * 146097;
    let yoe_num = doe - udiv(doe, 1460) + udiv(doe, 36524) - udiv(doe, 146096);
    let yoe = udiv(yoe_num, 365);
    proof {
        assert(div_tr(doe as int, 1460) == doe as int / 1460);
        assert(div_tr(doe as int, 36524) == doe as int / 36524);
        assert(div_tr(doe as int, 146096) == doe as int / 146096);
        assert(div_tr(yoe as int, 4) == yoe as int / 4);
        assert(div_tr(yoe as int, 100) == yoe as int / 100);
    }
    let doy = doe - (365 * yoe + udiv(yoe, 4) - udiv(yoe, 100));
    let mp = div_eu(5 * doy + 2, 153);
    proof {
        lemma_fundamental_div_mod(5 * doy as int + 2, 153);
        lemma_mod_division_less_than_divisor(5 * doy as int + 2, 153);
    }
    let d = doy - div_eu(153 * mp + 2, 5) + 1;
    proof {
        lemma_fundamental_div_mod(153 * mp as int + 2, 5);
        lemma_mod_division_less_than_divisor(153 * mp as int + 2, 5);
    }
    let m = mp + if mp < 10 {
        3
    } else {
        -9
    };
    let year = yoe + era * 400 + if m <= 2 {
        1
    } else {
        0
    };
    let hour = udiv(secs, 3600);
    let min = udiv(rem_eu(secs, 3600), 60);
    let sec = rem_eu(secs, 60);
    (year, m, d, hour, min, sec)
}

/// A whole number as `str::parse::<i64>` reads it, except that magnitudes
/// above `COMPONENT_BOUND` are rejected here so the day arithmetic cannot
/// overflow: an optional sign followed by at least one digit.
pub open spec fn parse_i64_spec(s: Seq<char>) -> Option<int> {
    let signed = s.len() > 0 && (s[0] == '-' || s[0] == '+');
    let digits = if signed {
        s.drop_first()
    } else {
        s
    };
    if digits.len() > 0 && all_digits(digits) && digits_val(digits) <= COMPONENT_BOUND as int {
        Some(
            if s.len() > 0 && s[0] == '-' {
                -digits_val(digits)
            } else {
                digits_val(digits)
            },
        )
    } else {
        None
    }
}

fn parse_i64(v: &Vec<char>) -> (r: Option<i64>)
    ensures
        (match r {
            Some(x) => parse_i64_spec(v@) == Some(x as int) && -COMPONENT_BOUND <= x
                <= COMPONENT_BOUND,
            None => parse_i64_spec(v@) is None,
        }),
{
    let n = v.len();
    let neg: bool;
    let digits: Vec<char>;
    if n > 0 && (v[0] == '-' || v[0] == '+') {
        neg = v[0] == '-';
        digits = sub_chars(v, 1, n);
        proof {
            assert(digits@ =~= v@.drop_first());
        }
    } else {
        neg = false;
        digits = sub_chars(v, 0, n);
        proof {
            assert(digits@ =~= v@);
        }
    }
    match parse_bounded(&digits, 1_000_000_000) {
        Some(x) => {
            if neg {
                Some(-(x as i64))
            } else {
                Some(x as i64)
            }
        },
        None => None,
    }
}

/// The text without its trailing `Z` characters, however many there are.
pub open spec fn drop_z_spec(s: Seq<char>) -> Seq<char>
    decreases s.len(),
{
    if s.len() > 0 && s[s.len() - 1] == 'Z' {
        drop_z_spec(s.drop_last())
    } else {
        s
    }
}

proof fn lemma_drop_z_skip(s: Seq<char>, j: int)
    requires
        0 <= j <= s.len(),
        forall|k: int| j <= k < s.len() ==> s[k] == 'Z',
    ensures
        drop_z_spec(s) == drop_z_spec(s.subrange(0, j)),
    decreases s.len() - j,
{
    if j < s.len() {
        assert(s[s.len() - 1] == 'Z');
        assert(s.drop_last() =~= s.subrange(0, s.len() - 1));
        assert(forall|k: int| j <= k < s.len() - 1 ==> #[trigger] s.subrange(0, s.len() - 1)[k]
            == 'Z');
        lemma_drop_z_skip(s.subrange(0, s.len() - 1), j);
        assert(s.subrange(0, s.len() - 1).subrange(0, j) =~= s.subrange(0, j));
    } else {
        assert(s.subrange(0, j) =~= s);
    }
}

fn drop_trailing_z(v: &Vec<char>) -> (r: Vec<char>)
    ensures
        r@ == drop_z_spec(v@),
{
    let n = v.len();
    let mut j: usize = n;
    while j > 0 && v[j - 1] == 'Z'
        invariant
            n == v@.len(),
            j <= n,
            forall|k: int| j <= k < n ==> v@[k] == 'Z',
        decreases j,
    {
        j = j - 1;
    }
    let r = sub_chars(v, 0, j);
    proof {
        lemma_drop_z_skip(v@, j as int);
        let u = v@.subrange(0, j as int);
        if j > 0 {
            assert(u[u.len() - 1] != 'Z');
        }
        assert(drop_z_spec(u) == u);
    }
    r
}

pub open spec fn pt_tparts(s: Seq<char>) -> Seq<Seq<char>> {
    split_spec(drop_z_spec(s), 'T')
}

pub open spec fn pt_dparts(s: Seq<char>) -> Seq<Seq<char>> {
    split_spec(pt_tparts(s)[0], '-')
}

pub open spec fn pt_hparts(s: Seq<char>) -> Seq<Seq<char>> {
    split_spec(pt_tparts(s)[1], ':')
}

pub open spec fn all_parse(ps: Seq<Seq<char>>) -> bool {
    forall|i: int| 0 <= i < ps.len() ==> parse_i64_spec(#[trigger] ps[i]) is Some
}

pub open spec fn pval(p: Seq<char>) -> int {
    match parse_i64_spec(p) {
        Some(v) => v,
        None => 0,
    }
}

/// What `parse_ts` accepts: trailing `Z`s dropped, exactly one `T`, the date
/// part three dash-separated numbers, the time part at least two
/// colon-separated numbers (a missing third means zero seconds; every piece
/// present must be a number); the value is the proleptic-Gregorian epoch.
pub open spec fn parse_ts_spec(s: Seq<char>) -> Option<int> {
    if pt_tparts(s).len() != 2 {
        None
    } else if !all_parse(pt_dparts(s)) {
        None
    } else if !all_parse(pt_hparts(s)) {
        None
    } else if pt_dparts(s).len() != 3 || pt_hparts(s).len() < 2 {
        None
    } else {
        let d = pt_dparts(s);
        let t = pt_hparts(s);
        let sec = if t.len() >= 3 {
            pval(t[2])
        } else {
            0
        };
        Some(to_epoch_spec(pval(d[0]), pval(d[1]), pval(d[2]), pval(t[0]), pval(t[1]), sec))
    }
}

/// The diagnostic carried when `parse_ts` rejects its input.
pub open spec fn parse_ts_err(s: Seq<char>) -> Seq<char> {
    if pt_tparts(s).len() != 2 {
        "invalid timestamp"@
    } else if !all_parse(pt_dparts(s)) {
        "invalid date"@
    } else if !all_parse(pt_hparts(s)) {
        "invalid time"@
    } else {
        "invalid timestamp"@
    }
}

fn parse_all(parts: &Vec<Vec<char>>) -> (r: Option<Vec<i64>>)
    ensures
        (match r {
            Some(vals) => all_parse(parts@.map_values(|p: Vec<char>| p@)) && vals@.len()
                == parts@.len() && (forall|i: int|
                0 <= i < vals@.len() ==> vals@[i] as int == pval(
                    parts@.map_values(|p: Vec<char>| p@)[i],
                ) && -COMPONENT_BOUND <= vals@[i] <= COMPONENT_BOUND),
            None => !all_parse(parts@.map_values(|p: Vec<char>| p@)),
        }),
{
    let ghost sparts = parts@.map_values(|p: Vec<char>| p@);
    let mut vals: Vec<i64> = Vec::new();
    let mut i: usize = 0;
    while i < parts.len()
        invariant
            i <= parts@.len(),
            sparts == parts@.map_values(|p: Vec<char>| p@),
            vals@.len() == i,
            forall|k: int|
                0 <= k < i ==> parse_i64_spec(#[trigger] sparts[k]) is Some,
            forall|k: int|
                0 <= k < i ==> vals@[k] as int == pval(#[trigger] sparts[k]) && -COMPONENT_BOUND
                    <= vals@[k] <= COMPONENT_BOUND,
        decreases parts@.len() - i,
    {
        match parse_i64(&parts[i]) {
            Some(x) => {
                vals.push(x);
            },
            None => {
                proof {
                    assert(parse_i64_spec(sparts[i as int]) is None);
                }
                return None;
            },
        }
        i = i + 1;
    }
    Some(vals)
}

/// Reads a canonical `YYYY-MM-DDTHH:MM:SSZ` timestamp back into epoch
/// seconds; rejects malformed text, naming the part at fault.
pub fn parse_ts(ts: &str) -> (r: Result<i64, EngineError>)
    ensures
        (match r {
            Ok(e) => parse_ts_spec(ts@) == Some(e as int) && -EPOCH_BOUND <= e <= EPOCH_BOUND,
            Err(err) => parse_ts_spec(ts@) is None && (err matches EngineError::InvalidTimestamp {
                detail,
            } && detail@ == parse_ts_err(ts@)),
        }),
{
    let v = to_chars(ts);
    let body = drop_trailing_z(&v);
    let tparts = split_char(&body, 'T');
    proof {
        assert(tparts@.map_values(|p: Vec<char>| p@) =~= pt_tparts(ts@));
    }
    if tparts.len() != 2 {
        return Err(
            EngineError::InvalidTimestamp { detail: String::from_str("invalid timestamp") },
        );
    }
    proof {
        assert(tparts@.map_values(|p: Vec<char>| p@)[0] == pt_tparts(ts@)[0]);
        assert(tparts@.map_values(|p: Vec<char>| p@)[1] == pt_tparts(ts@)[1]);
    }
    let dparts = split_char(&tparts[0], '-');
    proof {
        assert(dparts@.map_values(|p: Vec<char>| p@) =~= pt_dparts(ts@));
    }
    let dvals = match parse_all(&dparts) {
        Some(vals) => vals,
        None => {
            return Err(
                EngineError::InvalidTimestamp { detail: String::from_str("invalid date") },
            );
        },
    };
    let hparts = split_char(&tparts[1], ':');
    proof {
        assert(hparts@.map_values(|p: Vec<char>| p@) =~= pt_hparts(ts@));
    }
    let hvals = match parse_all(&hparts) {
        Some(vals) => vals,
        None => {
            return Err(
                EngineError::InvalidTimestamp { detail: String::from_str("invalid time") },
            );
        },
    };
    if dvals.len() != 3 || hvals.len() < 2 {
        return Err(
            EngineError::InvalidTimestamp { detail: String::from_str("invalid timestamp") },
        );
    }
    let sec: i64 = if hvals.len() >= 3 {
        hvals[2]
    } else {
        0
    };
    Ok(to_epoch(dvals[0], dvals[1], dvals[2], hvals[0], hvals[1], sec))
}

/// The canonical text of an epoch value: the civil components of
/// `from_epoch_spec`, the year zero-padded to four digits, the rest to two.
pub open spec fn format_ts_spec(e: int) -> Seq<char> {
    pad_num_spec(fe_year(e), 4) + seq!['-'] + pad_num_spec(fe_month(e), 2) + seq!['-']
        + pad_num_spec(fe_day(e), 2) + seq!['T'] + pad_num_spec(fe_secs(e) / 3600, 2) + seq![':']
        + pad_num_spec((fe_secs(e) % 3600) / 60, 2) + seq![':'] + pad_num_spec(fe_secs(e) % 60, 2)
        + seq!['Z']
}

/// Writes an epoch value back as canonical `YYYY-MM-DDTHH:MM:SSZ` text.
pub fn format_ts(epoch: i64) -> (r: String)
    requires
        -FE_BOUND <= epoch <= FE_BOUND,
    ensures
        r@ == format_ts_spec(epoch as int),
{
    let (y, m, d, h, mi, s) = from_epoch(epoch);
    let mut out: Vec<char> = Vec::new();
    push_pad_num(y, 4, &mut out);
    out.push('-');
    push_pad_num(m, 2, &mut out);
    out.push('-');
    push_pad_num(d, 2, &mut out);
    out.push('T');
    push_pad_num(h, 2, &mut out);
    out.push(':');
    push_pad_num(mi, 2, &mut out);
    out.push(':');
    push_pad_num(s, 2, &mut out);
    out.push('Z');
    proof {
        assert(out@ =~= format_ts_spec(epoch as int));
    }
    chars_to_string(&out)
}

#[verifier::rlimit(100)]
#[verifier::spinoff_prover]
proof fn lemma_civil_core(doe: int)
    requires
        0 <= doe < 146097,
    ensures
        ({
            let n = doe - doe / 1460 + doe / 36524 - doe / 146096;
            let yoe = n / 365;
            let doy = doe - (365 * yoe + yoe / 4 - yoe / 100);
            0 <= yoe <= 399 && 0 <= doy <= 365
        }),
{
    let q1 = doe / 1460;
    let r1 = doe % 1460;
    let q2 = doe / 36524;
    let r2 = doe % 36524;
    let q3 = doe / 146096;
    let r3 = doe % 146096;
    lemma_fundamental_div_mod(doe, 1460);
    lemma_mod_division_less_than_divisor(doe, 1460);
    lemma_fundamental_div_mod(doe, 36524);
    lemma_mod_division_less_than_divisor(doe, 36524);
    lemma_fundamental_div_mod(doe, 146096);
    lemma_mod_division_less_than_divisor(doe, 146096);
    let n = doe - q1 + q2 - q3;
    let yoe = n / 365;
    let rn = n % 365;
    lemma_fundamental_div_mod(n, 365);
    lemma_mod_division_less_than_divisor(n, 365);
    let q4 = yoe / 4;
    let r4 = yoe % 4;
    let q5 = yoe / 100;
    let r5 = yoe % 100;
    lemma_fundamental_div_mod(yoe, 4);
    lemma_mod_division_less_than_divisor(yoe, 4);
    lemma_fundamental_div_mod(yoe, 100);
    lemma_mod_division_less_than_divisor(yoe, 100);
    assert(0 <= yoe <= 399);
    assert(0 <= doe - (365 * yoe + q4 - q5) <= 365);
}

/// Law: for epochs at or after the epoch origin, converting to civil
/// components and back through the day arithmetic returns the epoch
/// unchanged.
pub proof fn lemma_epoch_round_trip(e: int)
    requires
        0 <= e,
    ensures
        to_epoch_spec(
            fe_year(e),
            fe_month(e),
            fe_day(e),
            fe_secs(e) / 3600,
            (fe_secs(e) % 3600) / 60,
            fe_secs(e) % 60,
        ) == e,
{
    let days = e / 86400;
    let secs = e % 86400;
    lemma_fundamental_div_mod(e, 86400);
    lemma_mod_division_less_than_divisor(e, 86400);
    let z = days + 719468;
    let era = z / 146097;
    let doe = z - era * 146097;
    lemma_fundamental_div_mod(z, 146097);
    lemma_mod_division_less_than_divisor(z, 146097);
    assert(0 <= doe < 146097);
    lemma_civil_core(doe);
    let n = doe - doe / 1460 + doe / 36524 - doe / 146096;
    let yoe = n / 365;
    let doy = doe - (365 * yoe + yoe / 4 - yoe / 100);
    let mp = (5 * doy + 2) / 153;
    lemma_fundamental_div_mod(5 * doy + 2, 153);
    lemma_mod_division_less_than_divisor(5 * doy + 2, 153);
    assert(0 <= mp <= 11);
    let d = doy - (153 * mp + 2) / 5 + 1;
    let m = mp + if mp < 10 { 3int } else { -9int };
    assert(fe_era(e) == era);
    assert(fe_doe(e) == doe);
    assert(fe_yoe(e) == yoe);
    assert(fe_doy(e) == doy);
    assert(fe_mp(e) == mp);
    assert(fe_day(e) == d);
    assert(fe_month(e) == m);
    assert(fe_year(e) == yoe + era * 400 + if m <= 2 { 1int } else { 0int });
    // the month written back is always mp + 3, whichever side of the new
    // year the month sits on
    let m2 = if m <= 2 { m + 12 } else { m };
    assert(m2 == mp + 3);
    let y2 = if m <= 2 { fe_year(e) - 1 } else { fe_year(e) };
    assert(y2 == yoe + era * 400);
    // divisions on this side see non-negative operands, so truncation is
    // plain division
    assert(div_tr(y2, 400) == y2 / 400);
    vstd::arithmetic::div_mod::lemma_fundamental_div_mod_converse(y2, 400, era, yoe);
    assert(y2 / 400 == era);
    let yoe2 = y2 - era * 400;
    assert(yoe2 == yoe);
    assert(153 * (m2 - 3) + 2 == 153 * mp + 2);
    assert(div_tr(153 * mp + 2, 5) == (153 * mp + 2) / 5);
    let doy2 = (153 * mp + 2) / 5 + d - 1;
    assert(doy2 == doy);
    assert(div_tr(yoe, 4) == yoe / 4);
    assert(div_tr(yoe, 100) == yoe / 100);
    let doe2 = yoe * 365 + yoe / 4 - yoe / 100 + doy;
    assert(doe2 == doe);
    let days2 = era * 146097 + doe - 719468;
    assert(days2 == days);
    // the time of day reassembles exactly
    let h = secs / 3600;
    let mi = (secs % 3600) / 60;
    let s = secs % 60;
    lemma_fundamental_div_mod(secs, 3600);
    lemma_mod_division_less_than_divisor(secs, 3600);
    lemma_fundamental_div_mod(secs % 3600, 60);
    lemma_mod_division_less_than_divisor(secs % 3600, 60);
    vstd::arithmetic::div_mod::lemma_mod_mod(secs, 60, 60);
    assert(60 * 60 == 3600);
    assert((secs % 3600) % 60 == secs % 60);
    assert(3600 * h + 60 * mi + s == secs);
    assert(to_epoch_spec(fe_year(e), m, d, h, mi, s) == days2 * 86400 + h * 3600 + mi * 60 + s);
}

proof fn lemma_month_day(doy: int)
    requires
        0 <= doy <= 365,
    ensures
        ({
            let mp = (5 * doy + 2) / 153;
            let d = doy - (153 * mp + 2) / 5 + 1;
            0 <= mp <= 11 && 1 <= d <= 31
        }),
{
    let mp = (5 * doy + 2) / 153;
    lemma_fundamental_div_mod(5 * doy + 2, 153);
    lemma_mod_division_less_than_divisor(5 * doy + 2, 153);
    lemma_fundamental_div_mod(153 * mp + 2, 5);
    lemma_mod_division_less_than_divisor(153 * mp + 2, 5);
}

proof fn lemma_drop_one_z(t: Seq<char>)
    requires
        t.len() > 0,
        t[t.len() - 1] != 'Z',
    ensures
        drop_z_spec(t + seq!['Z']) == t,
{
    let s = t + seq!['Z'];
    assert(s[s.len() - 1] == 'Z');
    assert(s.drop_last() =~= t);
    assert(drop_z_spec(s) == drop_z_spec(t));
    assert(drop_z_spec(t) == t);
}

/// Law: writing any epoch in this range as canonical text and parsing the
/// text back returns the epoch unchanged.
#[verifier::rlimit(100)]
#[verifier::spinoff_prover]
pub proof fn lemma_format_parse_round_trip(e: int)
    requires
        0 <= e <= 30_000_000_000_000_000,
    ensures
        parse_ts_spec(format_ts_spec(e)) == Some(e),
{
    // component values and their ranges
    let days = e / 86400;
    let secs = e % 86400;
    lemma_fundamental_div_mod(e, 86400);
    lemma_mod_division_less_than_divisor(e, 86400);
    let z = days + 719468;
    let era = z / 146097;
    let doe = z - era * 146097;
    lemma_fundamental_div_mod(z, 146097);
    lemma_mod_division_less_than_divisor(z, 146097);
    lemma_civil_core(doe);
    let n = doe - doe / 1460 + doe / 36524 - doe / 146096;
    let yoe = n / 365;
    let doy = doe - (365 * yoe + yoe / 4 - yoe / 100);
    lemma_month_day(doy);
    let y = fe_year(e);
    let m = fe_month(e);
    let d = fe_day(e);
    let h = secs / 3600;
    let mi = (secs % 3600) / 60;
    let sc = secs % 60;
    assert(fe_doe(e) == doe);
    assert(fe_yoe(e) == yoe);
    assert(fe_doy(e) == doy);
    assert(0 <= y <= 1_000_000_000);
    assert(1 <= m <= 12);
    assert(1 <= d <= 31);
    lemma_fundamental_div_mod(secs, 3600);
    lemma_mod_division_less_than_divisor(secs, 3600);
    lemma_fundamental_div_mod(secs % 3600, 60);
    lemma_mod_division_less_than_divisor(secs % 3600, 60);
    assert(0 <= h <= 23 && 0 <= mi <= 59 && 0 <= sc <= 59);

    // the pieces of the canonical text are digit runs
    let py = pad_num_spec(y, 4);
    let pm = pad_num_spec(m, 2);
    let pd = pad_num_spec(d, 2);
    let ph = pad_num_spec(h, 2);
    let pmi = pad_num_spec(mi, 2);
    let ps = pad_num_spec(sc, 2);
    lemma_pad_digits(y, 4);
    lemma_pad_digits(m, 2);
    lemma_pad_digits(d, 2);
    lemma_pad_digits(h, 2);
    lemma_pad_digits(mi, 2);
    lemma_pad_digits(sc, 2);
    let date = py + seq!['-'] + pm + seq!['-'] + pd;
    let time = ph + seq![':'] + pmi + seq![':'] + ps;
    let full = format_ts_spec(e);
    assert(full =~= date + seq!['T'] + time + seq!['Z']);

    // the trailing Z comes off, nothing else
    assert(time[time.len() - 1] == ps[ps.len() - 1]);
    assert(is_digit_char(ps[ps.len() - 1]));
    let body = date + seq!['T'] + time;
    assert(body[body.len() - 1] == time[time.len() - 1]);
    lemma_drop_one_z(body);
    assert(body + seq!['Z'] =~= full);
    assert(drop_z_spec(full) == body);

    // exactly one T, splitting date from time
    assert(forall|i: int| 0 <= i < date.len() ==> date[i] != 'T') by {
        lemma_digits_avoid(py, 'T');
        lemma_digits_avoid(pm, 'T');
        lemma_digits_avoid(pd, 'T');
    }
    assert(forall|i: int| 0 <= i < time.len() ==> time[i] != 'T') by {
        lemma_digits_avoid(ph, 'T');
        lemma_digits_avoid(pmi, 'T');
        lemma_digits_avoid(ps, 'T');
    }
    lemma_split_concat(date, time, 'T');
    lemma_split_no_sep(time, 'T');
    assert(pt_tparts(full) =~~= seq![date, time]);
    assert(pt_tparts(full).len() == 2);
    assert(pt_tparts(full)[0] == date);
    assert(pt_tparts(full)[1] == time);

    // the date part splits into the three padded numbers
    let date_tail = pm + seq!['-'] + pd;
    assert(date =~= py + seq!['-'] + date_tail);
    lemma_digits_avoid(py, '-');
    lemma_digits_avoid(pm, '-');
    lemma_digits_avoid(pd, '-');
    lemma_split_concat(py, date_tail, '-');
    lemma_split_concat(pm, pd, '-');
    lemma_split_no_sep(pd, '-');
    assert(split_spec(date, '-') =~~= seq![py, pm, pd]);
    assert(pt_dparts(full) =~~= seq![py, pm, pd]);

    // the time part splits into the three padded numbers
    let time_tail = pmi + seq![':'] + ps;
    assert(time =~= ph + seq![':'] + time_tail);
    lemma_digits_avoid(ph, ':');
    lemma_digits_avoid(pmi, ':');
    lemma_digits_avoid(ps, ':');
    lemma_split_concat(ph, time_tail, ':');
    lemma_split_concat(pmi, ps, ':');
    lemma_split_no_sep(ps, ':');
    assert(split_spec(time, ':') =~~= seq![ph, pmi, ps]);
    assert(pt_hparts(full) =~~= seq![ph, pmi, ps]);

    // each padded number reads back as its value
    assert(parse_i64_spec(py) == Some(y)) by {
        assert(is_digit_char(py[0]));
        assert(py[0] != '-' && py[0] != '+');
    }
    assert(parse_i64_spec(pm) == Some(m)) by {
        assert(is_digit_char(pm[0]));
        assert(pm[0] != '-' && pm[0] != '+');
    }
    assert(parse_i64_spec(pd) == Some(d)) by {
        assert(is_digit_char(pd[0]));
        assert(pd[0] != '-' && pd[0] != '+');
    }
    assert(parse_i64_spec(ph) == Some(h)) by {
        assert(is_digit_char(ph[0]));
        assert(ph[0] != '-' && ph[0] != '+');
    }
    assert(parse_i64_spec(pmi) == Some(mi)) by {
        assert(is_digit_char(pmi[0]));
        assert(pmi[0] != '-' && pmi[0] != '+');
    }
    assert(parse_i64_spec(ps) == Some(sc)) by {
        assert(is_digit_char(ps[0]));
        assert(ps[0] != '-' && ps[0] != '+');
    }
    assert(all_parse(pt_dparts(full))) by {
        assert(forall|i: int|
            0 <= i < 3 ==> parse_i64_spec(#[trigger] pt_dparts(full)[i]) is Some);
    }
    assert(all_parse(pt_hparts(full))) by {
        assert(forall|i: int|
            0 <= i < 3 ==> parse_i64_spec(#[trigger] pt_hparts(full)[i]) is Some);
    }
    assert(pval(pt_dparts(full)[0]) == y);
    assert(pval(pt_dparts(full)[1]) == m);
    assert(pval(pt_dparts(full)[2]) == d);
    assert(pval(pt_hparts(full)[0]) == h);
    assert(pval(pt_hparts(full)[1]) == mi);
    assert(pval(pt_hparts(full)[2]) == sc);
    assert(parse_ts_spec(full) == Some(to_epoch_spec(y, m, d, h, mi, sc)));
    lemma_epoch_round_trip(e);
}

} // verus!
