use vstd::prelude::*;
use crate::errors::EngineError;
use crate::calendar::{parse_ts, parse_ts_spec};
use crate::model::{Candle, CandleModel};
use crate::text::to_chars;

verus! {

/// A resampling target granularity.
#[derive(Debug, Clone, Copy, PartialEq, Eq, Structural)]
pub enum Interval {
    M1,
    M5,
    M15,
    M30,
    H1,
    H4,
    D1,
}

impl Interval {
    pub open spec fn spec_seconds(self) -> i64 {
        match self {
            Interval::M1 => 60,
            Interval::M5 => 300,
            Interval::M15 => 900,
            Interval::M30 => 1800,
            Interval::H1 => 3600,
            Interval::H4 => 14400,
            Interval::D1 => 86400,
        }
    }

    /// The width of one bucket of this granularity, in seconds.
    pub fn seconds(self) -> (r: i64)
        ensures
            r == self.spec_seconds(),
            60 <= r <= 86400,
    {
        match self {
            Interval::M1 => 60,
            Interval::M5 => 300,
            Interval::M15 => 900,
            Interval::M30 => 1800,
            Interval::H1 => 3600,
            Interval::H4 => 14400,
            Interval::D1 => 86400,
        }
    }
}

/// The granularity a target name denotes, or nothing for an unknown name.
pub open spec fn interval_of_name(s: Seq<char>) -> Option<Interval> {
    if s == "M1"@ {
        Some(Interval::M1)
    } else if s == "M5"@ {
        Some(Interval::M5)
    } else if s == "M15"@ {
        Some(Interval::M15)
    } else if s == "M30"@ {
        Some(Interval::M30)
    } else if s == "H1"@ {
        Some(Interval::H1)
    } else if s == "H4"@ {
        Some(Interval::H4)
    } else if s == "D1"@ {
        Some(Interval::D1)
    } else {
        None
    }
}

fn eq2(v: &Vec<char>, a: char, b: char) -> (r: bool)
    ensures
        r == (v@ =~= seq![a, b]),
{
    v.len() == 2 && v[0] == a && v[1] == b
}

fn eq3(v: &Vec<char>, a: char, b: char, c: char) -> (r: bool)
    ensures
        r == (v@ =~= seq![a, b, c]),
{
    v.len() == 3 && v[0] == a && v[1] == b && v[2] == c
}

/// Resolves a resampling target name; any name outside the supported set is
/// an `InvalidInterval` error.
pub fn interval_from_name(name: &str) -> (r: Result<Interval, EngineError>)
    ensures
        (match r {
            Ok(iv) => interval_of_name(name@) == Some(iv),
            Err(e) => interval_of_name(name@) is None && (e
                matches EngineError::InvalidInterval {
                detail,
            } && detail@ == "invalid interval"@),
        }),
{
    let v = to_chars(name);
    proof {
        reveal_strlit("M1");
        reveal_strlit("M5");
        reveal_strlit("M15");
        reveal_strlit("M30");
        reveal_strlit("H1");
        reveal_strlit("H4");
        reveal_strlit("D1");
    }
    if eq2(&v, 'M', '1') {
        proof {
            assert(name@ =~= "M1"@);
        }
        return Ok(Interval::M1);
    }
    if eq2(&v, 'M', '5') {
        proof {
            assert(name@ =~= "M5"@);
        }
        return Ok(Interval::M5);
    }
    if eq3(&v, 'M', '1', '5') {
        proof {
            assert(name@ =~= "M15"@);
        }
        return Ok(Interval::M15);
    }
    if eq3(&v, 'M', '3', '0') {
        proof {
            assert(name@ =~= "M30"@);
        }
        return Ok(Interval::M30);
    }
    if eq2(&v, 'H', '1') {
        proof {
            assert(name@ =~= "H1"@);
        }
        return Ok(Interval::H1);
    }
    if eq2(&v, 'H', '4') {
        proof {
            assert(name@ =~= "H4"@);
        }
        return Ok(Interval::H4);
    }
    if eq2(&v, 'D', '1') {
        proof {
            assert(name@ =~= "D1"@);
        }
        return Ok(Interval::D1);
    }
    proof {
        assert(name@ != "M1"@ && name@ != "M5"@ && name@ != "M15"@ && name@ != "M30"@ && name@
            != "H1"@ && name@ != "H4"@ && name@ != "D1"@);
    }
    Err(EngineError::InvalidInterval { detail: String::from_str("invalid interval") })
}

/// The value a parseable timestamp denotes; zero stands in for unparseable
/// text, which callers rule out separately.
pub open spec fn ts_eval(ts: Seq<char>) -> int {
    match parse_ts_spec(ts) {
        Some(v) => v,
        None => 0,
    }
}

/// The granularity suggested by the gap between the first two candles, when
/// both timestamps parse and the gap matches a supported width exactly.
pub open spec fn infer_spec(c: Seq<CandleModel>) -> Option<Interval> {
    if c.len() < 2 {
        None
    } else if parse_ts_spec(c[0].ts) is None || parse_ts_spec(c[1].ts) is None {
        None
    } else {
        let d = ts_eval(c[1].ts) - ts_eval(c[0].ts);
        let a = if d < 0 {
            -d
        } else {
            d
        };
        if a == 60 {
            Some(Interval::M1)
        } else if a == 300 {
            Some(Interval::M5)
        } else if a == 900 {
            Some(Interval::M15)
        } else if a == 1800 {
            Some(Interval::M30)
        } else if a == 3600 {
            Some(Interval::H1)
        } else if a == 14400 {
            Some(Interval::H4)
        } else if a == 86400 {
            Some(Interval::D1)
        } else {
            None
        }
    }
}

/// Guesses the candles' own granularity from the first two timestamps.
pub fn infer_interval(candles: &Vec<Candle>) -> (r: Option<Interval>)
    ensures
        r == infer_spec(candles@.map_values(|c: Candle| c@)),
{
    let ghost cm = candles@.map_values(|c: Candle| c@);
    if candles.len() < 2 {
        return None;
    }
    let t0 = match parse_ts(candles[0].ts_utc.as_str()) {
        Ok(t) => t,
        Err(_) => {
            return None;
        },
    };
    let t1 = match parse_ts(candles[1].ts_utc.as_str()) {
        Ok(t) => t,
        Err(_) => {
            return None;
        },
    };
    let d = t1 - t0;
    let a = if d < 0 {
        -d
    } else {
        d
    };
    if a == 60 {
        Some(Interval::M1)
    } else if a == 300 {
        Some(Interval::M5)
    } else if a == 900 {
        Some(Interval::M15)
    } else if a == 1800 {
        Some(Interval::M30)
    } else if a == 3600 {
        Some(Interval::H1)
    } else if a == 14400 {
        Some(Interval::H4)
    } else if a == 86400 {
        Some(Interval::D1)
    } else {
        None
    }
}

} // verus!
