//! Calendar arithmetic on `YYYY-MM-DD` dates through Julian day numbers,
//! computed with Rust's truncating integer division, and the zero-padded
//! decimal notation in which dates are written back.
use vstd::prelude::*;

verus! {

/// Integer division rounding toward zero, as Rust's `/` on signed integers.
pub open spec fn tdiv(a: int, b: int) -> int {
    if a >= 0 {
        a / b
    } else {
        -((-a) / b)
    }
}

/// The Julian day number of a year, month and day (Fliegel and Van Flandern).
pub open spec fn julian_day(y: int, m: int, d: int) -> int {
    let a = tdiv(14 - m, 12);
    let yy = y + 4800 - a;
    let mm = m + 12 * a - 3;
    d + tdiv(153 * mm + 2, 5) + 365 * yy + tdiv(yy, 4) - tdiv(yy, 100) + tdiv(yy, 400) - 32045
}

/// The year, month and day of a Julian day number, before the month and the
/// day are taken as unsigned 32-bit numbers.
pub open spec fn civil_from_julian(j: int) -> (int, int, int) {
    let a = j + 32044;
    let b = tdiv(4 * a + 3, 146097);
    let c = a - tdiv(146097 * b, 4);
    let d = tdiv(4 * c + 3, 1461);
    let e = c - tdiv(1461 * d, 4);
    let m = tdiv(5 * e + 2, 153);
    (100 * b + d - 4800 + tdiv(m, 10), m + 3 - 12 * tdiv(m, 10), e - tdiv(153 * m + 2, 5) + 1)
}

/// The range of Julian day numbers whose conversion stays within 32-bit
/// arithmetic.
pub open spec fn julian_in_range(j: int) -> bool {
    -536870912 <= j + 32044 <= 536870911
}

/// An integer taken as an unsigned 32-bit number (wrapping, as `as u32`).
pub open spec fn as_u32(v: int) -> int {
    if v >= 0 {
        v % 0x1_0000_0000
    } else {
        (0x1_0000_0000 - ((-v) % 0x1_0000_0000)) % 0x1_0000_0000
    }
}

pub open spec fn digit_char(d: int) -> char {
    if d == 0 {
        '0'
    } else if d == 1 {
        '1'
    } else if d == 2 {
        '2'
    } else if d == 3 {
        '3'
    } else if d == 4 {
        '4'
    } else if d == 5 {
        '5'
    } else if d == 6 {
        '6'
    } else if d == 7 {
        '7'
    } else if d == 8 {
        '8'
    } else {
        '9'
    }
}

/// The decimal digits of `n`, without leading zeros.
pub open spec fn decimal(n: nat) -> Seq<char>
    decreases n,
{
    if n < 10 {
        seq![digit_char(n as int)]
    } else {
        decimal(n / 10).push(digit_char(n as int % 10))
    }
}

/// `n` in decimal, padded with leading zeros to at least `width` characters.
pub open spec fn zero_padded(n: nat, width: nat) -> Seq<char> {
    let d = decimal(n);
    if d.len() >= width {
        d
    } else {
        Seq::new((width - d.len()) as nat, |i: int| '0') + d
    }
}

/// `v` as `format!("{:0w$}", v)` writes it: the sign counts toward the width.
pub open spec fn signed_padded(v: int, width: nat) -> Seq<char> {
    if v < 0 {
        seq!['-'] + zero_padded((-v) as nat, if width >= 1 {
            (width - 1) as nat
        } else {
            0
        })
    } else {
        zero_padded(v as nat, width)
    }
}

fn digit_of(d: u64) -> (r: char)
    requires
        d < 10,
    ensures
        r == digit_char(d as int),
{
    if d == 0 {
        '0'
    } else if d == 1 {
        '1'
    } else if d == 2 {
        '2'
    } else if d == 3 {
        '3'
    } else if d == 4 {
        '4'
    } else if d == 5 {
        '5'
    } else if d == 6 {
        '6'
    } else if d == 7 {
        '7'
    } else if d == 8 {
        '8'
    } else {
        '9'
    }
}

/// The decimal digits of `n`.
pub fn decimal_chars(n: u64) -> (r: Vec<char>)
    ensures
        r@ == decimal(n as nat),
    decreases n,
{
    if n < 10 {
        let mut r: Vec<char> = Vec::new();
        r.push(digit_of(n));
        assert(r@ =~= decimal(n as nat));
        r
    } else {
        let mut r = decimal_chars(n / 10);
        r.push(digit_of(n % 10));
        r
    }
}

/// Appends `n` in decimal, padded with zeros to `width` characters.
pub fn push_zero_padded(out: &mut Vec<char>, n: u64, width: usize)
    ensures
        final(out)@ == old(out)@ + zero_padded(n as nat, width as nat),
{
    let d = decimal_chars(n);
    let ghost start = out@;
    let mut k: usize = d.len();
    while k < width
        invariant
            d.len() <= k,
            k <= width || k == d.len(),
            out@ == start + Seq::new((k - d.len()) as nat, |i: int| '0'),
        decreases width - k,
    {
        out.push('0');
        k = k + 1;
        assert(out@ =~= start + Seq::new((k - d.len()) as nat, |i: int| '0'));
    }
    let ghost zeros = out@;
    let mut i: usize = 0;
    while i < d.len()
        invariant
            i <= d.len(),
            out@ == zeros + d@.subrange(0, i as int),
        decreases d.len() - i,
    {
        out.push(d[i]);
        i = i + 1;
        assert(out@ =~= zeros + d@.subrange(0, i as int));
    }
    assert(d@.subrange(0, d.len() as int) =~= d@);
    if d.len() >= width {
        assert(Seq::new((k - d.len()) as nat, |i: int| '0') =~= Seq::<char>::empty());
        assert(out@ =~= start + zero_padded(n as nat, width as nat));
    } else {
        assert(out@ =~= start + zero_padded(n as nat, width as nat));
    }
}

/// Appends `v` as `format!("{:0w$}", v)` writes it.
pub fn push_signed_padded(out: &mut Vec<char>, v: i64, width: usize)
    requires
        v > i64::MIN,
    ensures
        final(out)@ == old(out)@ + signed_padded(v as int, width as nat),
{
    if v < 0 {
        let ghost start = out@;
        out.push('-');
        let w = if width >= 1 {
            width - 1
        } else {
            0
        };
        push_zero_padded(out, (0 - v) as u64, w);
        assert(out@ =~= start + signed_padded(v as int, width as nat));
    } else {
        push_zero_padded(out, v as u64, width);
    }
}

/// The Julian day number of a date whose fields are at most four characters
/// long (`y` in `-999..=9999`, `m` and `d` below 100).
pub fn julian_day_of(y: i32, m: u32, d: u32) -> (r: i64)
    requires
        -999 <= y <= 9999,
        m < 100,
        d < 100,
    ensures
        r == julian_day(y as int, m as int, d as int),
        -1000000 <= r <= 10000000,
{
    let y = y as i64;
    let m = m as i64;
    let d = d as i64;
    let a = (14 - m) / 12;
    let yy = y + 4800 - a;
    let mm = m + 12 * a - 3;
    d + (153 * mm + 2) / 5 + 365 * yy + yy / 4 - yy / 100 + yy / 400 - 32045
}

/// The year, month and day of a Julian day number, the month and the day
/// taken as unsigned 32-bit numbers.
pub fn civil_of(j: i64) -> (r: (i64, u32, u32))
    requires
        julian_in_range(j as int),
    ensures
        r.0 == civil_from_julian(j as int).0,
        r.1 == as_u32(civil_from_julian(j as int).1),
        r.2 == as_u32(civil_from_julian(j as int).2),
        -2000000 <= r.0 <= 2000000,
{
    let a = j + 32044;
    let b = (4 * a + 3) / 146097;
    assert(b == tdiv(4 * a + 3, 146097));
    assert(-14700 <= b <= 14700);
    let c = a - (146097 * b) / 4;
    assert(-146097 <= c <= 146097);
    let d = (4 * c + 3) / 1461;
    assert(-500 <= d <= 500);
    let e = c - (1461 * d) / 4;
    assert(-2000 <= e <= 2000);
    let m = (5 * e + 2) / 153;
    assert(-100 <= m <= 100);
    let day = e - (153 * m + 2) / 5 + 1;
    let month = m + 3 - 12 * (m / 10);
    let year = 100 * b + d - 4800 + m / 10;
    (year, wrap_u32(month), wrap_u32(day))
}

fn wrap_u32(v: i64) -> (r: u32)
    requires
        -0x1_0000_0000 < v < 0x1_0000_0000,
    ensures
        r == as_u32(v as int),
{
    if v >= 0 {
        v as u32
    } else {
        (v + 0x1_0000_0000) as u32
    }
}

} // verus!
