use vstd::prelude::*;

use vstd::string::StringSliceAdditionalSpecFns;

verus! {

/// A span of time: whole seconds and the nanoseconds beyond them.
#[derive(Debug, Clone, Copy, PartialEq, Eq, Structural)]
pub struct Period {
    pub secs: u64,
    pub nanos: u32,
}

/// Why a period could not be read.
#[derive(Debug, Clone, Copy, PartialEq, Eq, Structural)]
pub enum DurationErr {
    /// The part before the unit is not an unsigned 64-bit number.
    InvalidNumber,
    /// The text does not end in `ms`, `s` or `m`.
    UnknownUnit,
    /// The number of minutes is too large to count in seconds.
    Overflow,
}

pub open spec fn is_digit(b: u8) -> bool {
    0x30 <= b <= 0x39
}

/// The value of a run of decimal digits.
pub open spec fn digits_value(s: Seq<u8>) -> nat
    decreases s.len(),
{
    if s.len() == 0 {
        0
    } else {
        digits_value(s.drop_last()) * 10 + (s.last() - 0x30) as nat
    }
}

/// The digits of a number written with an optional leading `+`.
pub open spec fn unsigned_digits(s: Seq<u8>) -> Seq<u8> {
    if s.len() > 0 && s[0] == 0x2b {
        s.drop_first()
    } else {
        s
    }
}

/// The `u64` that `s` spells in decimal, with an optional leading `+`, if it
/// spells one.
pub open spec fn decimal_u64(s: Seq<u8>) -> Option<u64> {
    let d = unsigned_digits(s);
    if d.len() > 0 && (forall|i: int| 0 <= i < d.len() ==> is_digit(#[trigger] d[i]))
        && digits_value(d) <= u64::MAX {
        Some(digits_value(d) as u64)
    } else {
        None
    }
}

proof fn lemma_digits_value_grows(s: Seq<u8>, i: int)
    requires
        0 <= i <= s.len(),
        forall|j: int| 0 <= j < s.len() ==> is_digit(#[trigger] s[j]),
    ensures
        digits_value(s.subrange(0, i)) <= digits_value(s),
    decreases s.len() - i,
{
    if i < s.len() {
        lemma_digits_value_grows(s, i + 1);
        assert(s.subrange(0, i + 1).drop_last() =~= s.subrange(0, i));
    } else {
        assert(s.subrange(0, i) =~= s);
    }
}

/// Reads `buf[start..end]` as a decimal `u64`.
pub fn parse_u64(buf: &[u8], start: usize, end: usize) -> (r: Option<u64>)
    requires
        start <= end <= buf@.len(),
    ensures
        r == decimal_u64(buf@.subrange(start as int, end as int)),
{
    let ghost s = buf@.subrange(start as int, end as int);
    let mut i = start;
    if i < end && buf[i] == 0x2b {
        i = i + 1;
    }
    let ghost d = unsigned_digits(s);
    assert(d =~= buf@.subrange(i as int, end as int));
    if i == end {
        return None;
    }
    let first = i;
    let mut v: u64 = 0;
    let mut overflow = false;
    while i < end
        invariant
            start <= first <= i <= end <= buf@.len(),
            s == buf@.subrange(start as int, end as int),
            d == unsigned_digits(s),
            d == buf@.subrange(first as int, end as int),
            forall|j: int| first <= j < i ==> is_digit(#[trigger] buf@[j]),
            !overflow ==> v == digits_value(buf@.subrange(first as int, i as int)),
            overflow ==> digits_value(buf@.subrange(first as int, i as int)) > u64::MAX,
        decreases end - i,
    {
        let b = buf[i];
        if b < 0x30 || b > 0x39 {
            assert(d[i - first] == b);
            assert(!is_digit(d[i - first]));
            assert(decimal_u64(s) is None);
            return None;
        }
        let ghost prev = buf@.subrange(first as int, i as int);
        assert(buf@.subrange(first as int, i + 1).drop_last() =~= prev);
        if !overflow {
            match v.checked_mul(10) {
                Some(t) => match t.checked_add((b - 0x30) as u64) {
                    Some(n) => {
                        v = n;
                    },
                    None => {
                        overflow = true;
                    },
                },
                None => {
                    overflow = true;
                },
            }
        } else {
            assert(digits_value(buf@.subrange(first as int, i + 1)) >= digits_value(prev));
        }
        i = i + 1;
    }
    assert forall|j: int| 0 <= j < d.len() implies is_digit(#[trigger] d[j]) by {
        assert(d[j] == buf@[first + j]);
    }
    assert(buf@.subrange(first as int, i as int) =~= d);
    if overflow {
        None
    } else {
        Some(v)
    }
}

/// What `parse_duration` gives for the text with bytes `b`.
pub open spec fn duration_of(b: Seq<u8>) -> Result<Period, DurationErr> {
    let n = b.len() as int;
    if n >= 2 && b[n - 2] == 0x6d && b[n - 1] == 0x73 {
        match decimal_u64(b.subrange(0, n - 2)) {
            Some(ms) => Ok(Period { secs: ms / 1000, nanos: ((ms % 1000) * 1_000_000) as u32 }),
            None => Err(DurationErr::InvalidNumber),
        }
    } else if n >= 1 && b[n - 1] == 0x73 {
        match decimal_u64(b.subrange(0, n - 1)) {
            Some(s) => Ok(Period { secs: s, nanos: 0 }),
            None => Err(DurationErr::InvalidNumber),
        }
    } else if n >= 1 && b[n - 1] == 0x6d {
        match decimal_u64(b.subrange(0, n - 1)) {
            Some(m) => if m * 60 <= u64::MAX {
                Ok(Period { secs: (m * 60) as u64, nanos: 0 })
            } else {
                Err(DurationErr::Overflow)
            },
            None => Err(DurationErr::InvalidNumber),
        }
    } else {
        Err(DurationErr::UnknownUnit)
    }
}

/// Reads a period such as `100ms`, `1s` or `5m`.
pub fn parse_duration(src: &str) -> (r: Result<Period, DurationErr>)
    ensures
        r == duration_of(src.spec_bytes()),
{
    let b = src.as_bytes();
    let n = b.len();
    if n >= 2 && b[n - 2] == 0x6d && b[n - 1] == 0x73 {
        match parse_u64(b, 0, n - 2) {
            Some(ms) => Ok(Period { secs: ms / 1000, nanos: ((ms % 1000) * 1_000_000) as u32 }),
            None => Err(DurationErr::InvalidNumber),
        }
    } else if n >= 1 && b[n - 1] == 0x73 {
        match parse_u64(b, 0, n - 1) {
            Some(s) => Ok(Period { secs: s, nanos: 0 }),
            None => Err(DurationErr::InvalidNumber),
        }
    } else if n >= 1 && b[n - 1] == 0x6d {
        match parse_u64(b, 0, n - 1) {
            Some(m) => match m.checked_mul(60) {
                Some(s) => Ok(Period { secs: s, nanos: 0 }),
                None => Err(DurationErr::Overflow),
            },
            None => Err(DurationErr::InvalidNumber),
        }
    } else {
        Err(DurationErr::UnknownUnit)
    }
}

} // verus!
