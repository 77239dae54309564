//! Decimal number reading and writing for the tile collider text format.
//!
//! Coordinates in that format are kept to three decimal digits, so the
//! library stores them as exact fixed-point values: an `i64` counting
//! thousandths of a tile unit.

use vstd::prelude::*;

verus! {

/// Errors a number token can produce.
#[derive(Clone, Copy, Debug, PartialEq, Eq, Structural, Hash)]
pub enum NumberError {
    /// The token was empty.
    Empty,
    /// A character that cannot appear in a number at that place.
    InvalidDigit,
    /// The value does not fit the target range.
    Overflow,
}

/// Largest integer part (in whole units) a coordinate may carry; keeps the
/// thousandths representation inside `i64`.
pub const MAX_COORD_INT: u64 = 9_000_000_000_000_000;

pub open spec fn is_digit_char(c: char) -> bool {
    48 <= c as u32 <= 57
}

pub open spec fn digit_val(c: char) -> int {
    c as u32 - 48
}

pub open spec fn all_digits(s: Seq<char>) -> bool {
    forall|i: int| 0 <= i < s.len() ==> is_digit_char(#[trigger] s[i])
}

/// The value of a digit string, most significant digit first.
pub open spec fn digits_val(s: Seq<char>) -> int
    decreases s.len(),
{
    if s.len() == 0 {
        0
    } else {
        digits_val(s.drop_last()) * 10 + digit_val(s.last())
    }
}

pub open spec fn pow10(n: nat) -> int
    decreases n,
{
    if n == 0 {
        1
    } else {
        10 * pow10((n - 1) as nat)
    }
}

pub proof fn lemma_pow10_small()
    ensures
        pow10(0) == 1,
        pow10(1) == 10,
        pow10(2) == 100,
        pow10(3) == 1000,
        pow10(4) == 10000,
{
    assert(pow10(0) == 1);
    assert(pow10(1) == 10);
    assert(pow10(2) == 100);
    assert(pow10(3) == 1000);
    assert(pow10(4) == 10000);
}

pub proof fn lemma_digits_val_bound(s: Seq<char>)
    requires
        all_digits(s),
    ensures
        0 <= digits_val(s) < pow10(s.len()),
    decreases s.len(),
{
    if s.len() > 0 {
        assert(all_digits(s.drop_last()));
        lemma_digits_val_bound(s.drop_last());
    }
}

/// Extending a digit string to the right never shrinks its value.
pub proof fn lemma_digits_val_take_monotone(s: Seq<char>, i: int, j: int)
    requires
        0 <= i <= j <= s.len(),
        all_digits(s.take(j)),
    ensures
        digits_val(s.take(i)) <= digits_val(s.take(j)),
    decreases j - i,
{
    if i < j {
        assert(all_digits(s.take(j - 1))) by {
            assert(forall|k: int| 0 <= k < j - 1 ==> s.take(j - 1)[k] == s.take(j)[k]);
        }
        lemma_digits_val_take_monotone(s, i, j - 1);
        let p = s.take(j);
        assert(p.drop_last() =~= s.take(j - 1));
        lemma_digits_val_bound(s.take(j - 1));
        assert(digits_val(p) == digits_val(s.take(j - 1)) * 10 + digit_val(p.last()));
        assert(is_digit_char(p.last()));
    }
}

/// Reads an unsigned decimal index, as the collider format uses for
/// triangle corners.
pub open spec fn spec_parse_u32(s: Seq<char>) -> Result<u32, NumberError> {
    if s.len() == 0 {
        Err(NumberError::Empty)
    } else if !all_digits(s) {
        Err(NumberError::InvalidDigit)
    } else if digits_val(s) > u32::MAX as int {
        Err(NumberError::Overflow)
    } else {
        Ok(digits_val(s) as u32)
    }
}

#[verifier::loop_isolation(false)]
pub fn parse_u32(s: &str) -> (r: Result<u32, NumberError>)
    ensures
        r == spec_parse_u32(s@),
{
    let n: usize = s.unicode_len();
    if n == 0 {
        return Err(NumberError::Empty);
    }
    let mut i: usize = 0;
    let mut acc: u64 = 0;
    let mut over: bool = false;
    while i < n
        invariant
            0 <= i <= n,
            n == s@.len(),
            all_digits(s@.take(i as int)),
            !over ==> acc == digits_val(s@.take(i as int)) && acc <= u32::MAX as u64,
            over ==> digits_val(s@.take(i as int)) > u32::MAX as int,
        decreases n - i,
    {
        let c = s.get_char(i);
        let u = c as u32;
        if u < 48 || u > 57 {
            assert(!is_digit_char(s@[i as int]));
            return Err(NumberError::InvalidDigit);
        }
        let d: u64 = (u - 48) as u64;
        proof {
            assert(s@.take(i + 1 as int).drop_last() =~= s@.take(i as int));
            assert(all_digits(s@.take(i + 1 as int)));
            lemma_digits_val_bound(s@.take(i as int));
        }
        if over {
            proof {
                lemma_digits_val_take_monotone(s@, i as int, i + 1 as int);
            }
        } else {
            acc = acc * 10 + d;
            if acc > u32::MAX as u64 {
                over = true;
            }
        }
        i = i + 1;
    }
    assert(s@.take(n as int) =~= s@);
    if over {
        Err(NumberError::Overflow)
    } else {
        Ok(acc as u32)
    }
}

/// Position of the first `.` in a token, or the token's length if none.
pub open spec fn first_dot(s: Seq<char>) -> int
    decreases s.len(),
{
    if s.len() == 0 {
        0
    } else if s[0] == '.' {
        0
    } else {
        1 + first_dot(s.drop_first())
    }
}

pub proof fn lemma_first_dot_props(s: Seq<char>)
    ensures
        0 <= first_dot(s) <= s.len(),
        forall|i: int| 0 <= i < first_dot(s) ==> s[i] != '.',
        first_dot(s) < s.len() ==> s[first_dot(s)] == '.',
    decreases s.len(),
{
    if s.len() > 0 && s[0] != '.' {
        lemma_first_dot_props(s.drop_first());
        assert forall|i: int| 0 <= i < first_dot(s) implies s[i] != '.' by {
            if i > 0 {
                assert(s.drop_first()[i - 1] == s[i]);
            }
        }
        if first_dot(s) < s.len() {
            assert(s.drop_first()[first_dot(s.drop_first())] == s[first_dot(s)]);
        }
    }
}

/// The fractional digits of a coordinate, reduced to thousandths: the first
/// three digits are kept and the fourth, if present and five or more, rounds
/// the magnitude up.
pub open spec fn frac_millis(f: Seq<char>) -> int {
    let head = if f.len() >= 3 {
        f.take(3)
    } else {
        f
    };
    let scale: int = if head.len() == 0 {
        1000
    } else if head.len() == 1 {
        100
    } else if head.len() == 2 {
        10
    } else {
        1
    };
    digits_val(head) * scale + if f.len() > 3 && digit_val(f[3]) >= 5 {
        1int
    } else {
        0int
    }
}

/// Scans the fractional digits that follow the dot, reducing them to
/// thousandths.
#[verifier::loop_isolation(false)]
fn scan_frac(s: &str, frac_start: usize) -> (r: Result<u64, NumberError>)
    requires
        frac_start <= s@.len(),
    ensures
        ({
            let f = s@.skip(frac_start as int);
            match r {
                Ok(v) => all_digits(f) && v == frac_millis(f) && v <= 1000,
                Err(e) => e == NumberError::InvalidDigit && !all_digits(f),
            }
        }),
{
    let n: usize = s.unicode_len();
    let ghost f = s@.skip(frac_start as int);
    assert(f.len() == n - frac_start);
    assert(forall|k: int| 0 <= k < f.len() ==> f[k] == s@[k + frac_start]);
    let mut j: usize = frac_start;
    let mut fmil: u64 = 0;
    while j < n
        invariant
            frac_start <= j <= n,
            n == s@.len(),
            f == s@.skip(frac_start as int),
            f.len() == n - frac_start,
            forall|k: int| 0 <= k < f.len() ==> f[k] == s@[k + frac_start],
            all_digits(f.take(j - frac_start)),
            j - frac_start <= 3 ==> fmil == frac_millis(f.take(j - frac_start)),
            j - frac_start >= 4 ==> fmil == frac_millis(f),
            fmil <= 1000,
        decreases n - j,
    {
        let c = s.get_char(j);
        let u = c as u32;
        if u < 48 || u > 57 {
            assert(!is_digit_char(f[j - frac_start]));
            return Err(NumberError::InvalidDigit);
        }
        let d: u64 = (u - 48) as u64;
        let k: usize = j - frac_start;
        proof {
            lemma_pow10_small();
            assert(f.take(k + 1 as int).drop_last() =~= f.take(k as int));
            assert(all_digits(f.take(k + 1 as int)));
            if k + 1 >= 3 {
                assert(f.take(k + 1 as int).take(3) =~= f.take(3));
            }
            if k >= 3 {
                assert(f.take(3).take(3) =~= f.take(3));
                assert(all_digits(f.take(3)));
            }
            lemma_digits_val_bound(f.take(k as int));
            lemma_digits_val_bound(f.take(k + 1 as int));
        }
        if k == 0 {
            fmil = d * 100;
        } else if k == 1 {
            fmil = fmil + d * 10;
        } else if k == 2 {
            fmil = fmil + d;
        } else if k == 3 {
            proof {
                lemma_digits_val_bound(f.take(3));
                assert(f[3] == s@[3 + frac_start]);
            }
            if d >= 5 {
                fmil = fmil + 1;
            }
        }
        j = j + 1;
    }
    assert(f.take(j - frac_start) =~= f);
    proof {
        if f.len() == 3 {
            assert(f.take(3) =~= f);
        }
    }
    Ok(fmil)
}

/// Scans a run of decimal digits starting at `start`, accumulating their
/// value up to the cap `MAX_COORD_INT`.
#[verifier::loop_isolation(false)]
fn scan_int(s: &str, start: usize) -> (r: (usize, u64, bool))
    requires
        start <= s@.len(),
    ensures
        ({
            let (end, acc, over) = r;
            &&& start <= end <= s@.len()
            &&& all_digits(s@.subrange(start as int, end as int))
            &&& (end < s@.len() ==> !is_digit_char(s@[end as int]))
            &&& (!over ==> acc == digits_val(s@.subrange(start as int, end as int)) && acc
                <= MAX_COORD_INT)
            &&& (over ==> digits_val(s@.subrange(start as int, end as int)) > MAX_COORD_INT as int)
        }),
{
    let n: usize = s.unicode_len();
    let mut i: usize = start;
    let mut acc: u64 = 0;
    let mut over: bool = false;
    let mut scanning: bool = true;
    while i < n && scanning
        invariant
            start <= i <= n,
            n == s@.len(),
            all_digits(s@.subrange(start as int, i as int)),
            !scanning ==> i < n && !is_digit_char(s@[i as int]),
            !over ==> acc == digits_val(s@.subrange(start as int, i as int)) && acc
                <= MAX_COORD_INT,
            over ==> digits_val(s@.subrange(start as int, i as int)) > MAX_COORD_INT as int,
        decreases n - i + if scanning {
            1int
        } else {
            0int
        },
    {
        let c = s.get_char(i);
        let u = c as u32;
        if u < 48 || u > 57 {
            scanning = false;
        } else {
            let d: u64 = (u - 48) as u64;
            let ghost body = s@.skip(start as int);
            proof {
                assert(s@.subrange(start as int, i + 1 as int).drop_last() =~= s@.subrange(
                    start as int,
                    i as int,
                ));
                assert(all_digits(s@.subrange(start as int, i + 1 as int)));
                lemma_digits_val_bound(s@.subrange(start as int, i as int));
            }
            if over {
                proof {
                    assert(s@.subrange(start as int, i as int) =~= body.take(i - start));
                    assert(s@.subrange(start as int, i + 1 as int) =~= body.take(i - start + 1));
                    lemma_digits_val_take_monotone(body, i - start, i - start + 1);
                }
            } else {
                acc = acc * 10 + d;
                if acc > MAX_COORD_INT {
                    over = true;
                }
            }
            i = i + 1;
        }
    }
    (i, acc, over)
}

/// Reads a signed decimal coordinate into thousandths of a unit.
/// The accepted shape is an optional minus sign, then digits with at most
/// one dot among them, with at least one digit overall.
pub open spec fn spec_parse_milli(s: Seq<char>) -> Result<i64, NumberError> {
    if s.len() == 0 {
        Err(NumberError::Empty)
    } else {
        let neg = s[0] == '-';
        let body = if neg {
            s.drop_first()
        } else {
            s
        };
        let dot = first_dot(body);
        let int_part = body.take(dot);
        let frac_part = if dot < body.len() {
            body.skip(dot + 1)
        } else {
            Seq::<char>::empty()
        };
        if !(all_digits(int_part) && all_digits(frac_part) && int_part.len() + frac_part.len()
            > 0) {
            Err(NumberError::InvalidDigit)
        } else if digits_val(int_part) > MAX_COORD_INT as int {
            Err(NumberError::Overflow)
        } else {
            let mag = digits_val(int_part) * 1000 + frac_millis(frac_part);
            if neg {
                Ok((-mag) as i64)
            } else {
                Ok(mag as i64)
            }
        }
    }
}

pub fn parse_milli(s: &str) -> (r: Result<i64, NumberError>)
    ensures
        r == spec_parse_milli(s@),
{
    let n: usize = s.unicode_len();
    if n == 0 {
        return Err(NumberError::Empty);
    }
    let neg: bool = s.get_char(0) == '-';
    let start: usize = if neg {
        1
    } else {
        0
    };
    let ghost body = if neg {
        s@.drop_first()
    } else {
        s@
    };
    assert(body.len() == n - start);
    assert(forall|k: int| 0 <= k < body.len() ==> body[k] == s@[k + start]);

    let (i, acc, over) = scan_int(s, start);
    let int_len: usize = i - start;
    proof {
        lemma_first_dot_props(body);
        assert(body.take(int_len as int) =~= s@.subrange(start as int, i as int));
    }
    let ghost dot = first_dot(body);
    let ghost int_part = body.take(dot);
    let ghost frac_part = if dot < body.len() {
        body.skip(dot + 1)
    } else {
        Seq::<char>::empty()
    };

    let mut fmil: u64 = 0;
    if i < n {
        let c = s.get_char(i);
        if c != '.' {
            // The scan stopped on a character that is neither digit nor dot.
            assert(body[int_len as int] == s@[i as int]);
            assert(dot > int_len) by {
                if dot < int_len {
                    assert(is_digit_char(body.take(int_len as int)[dot]));
                }
                if dot == int_len {
                    assert(body[dot] == '.');
                }
            }
            assert(!all_digits(int_part)) by {
                assert(int_part[int_len as int] == body[int_len as int]);
            }
            return Err(NumberError::InvalidDigit);
        }
        // A dot: the integer digits are exactly what precedes the first dot.
        assert(body[int_len as int] == '.');
        assert(dot == int_len) by {
            if dot < int_len {
                assert(is_digit_char(body.take(int_len as int)[dot]));
            }
        }
        assert(int_part =~= body.take(int_len as int));
        let frac_start: usize = i + 1;
        assert(frac_part =~= s@.skip(frac_start as int));
        match scan_frac(s, frac_start) {
            Ok(v) => {
                fmil = v;
            },
            Err(e) => {
                return Err(NumberError::InvalidDigit);
            },
        }
        if int_len == 0 && n == frac_start {
            // "." or "-." with nothing around the dot.
            assert(int_part.len() + frac_part.len() == 0);
            return Err(NumberError::InvalidDigit);
        }
    } else {
        // No dot at all: the whole body is digits.
        assert(dot == int_len) by {
            if dot < int_len {
                assert(is_digit_char(body.take(int_len as int)[dot]));
            }
        }
        assert(int_part =~= body);
        assert(frac_part =~= Seq::<char>::empty());
        if int_len == 0 {
            // Just a minus sign.
            return Err(NumberError::InvalidDigit);
        }
    }
    if over {
        return Err(NumberError::Overflow);
    }
    let mag: u64 = acc * 1000 + fmil;
    proof {
        lemma_digits_val_bound(int_part);
    }
    if neg {
        Ok(-(mag as i64))
    } else {
        Ok(mag as i64)
    }
}

/// The character for one decimal digit value.
pub open spec fn digit_char(d: int) -> char {
    if d == 0 {
        '0'
    } else if d == 1 {
        '1'
    } else if d == 2 {
        '2'
    } else if d == 3 {
        '3'
    } else if d == 4 {
        '4'
    } else if d == 5 {
        '5'
    } else if d == 6 {
        '6'
    } else if d == 7 {
        '7'
    } else if d == 8 {
        '8'
    } else {
        '9'
    }
}

/// The decimal digit string of a non-negative number, no leading zeros
/// (a single zero for zero).
pub open spec fn dec_digits(n: int) -> Seq<char>
    decreases n,
{
    if n < 10 {
        seq![digit_char(n)]
    } else {
        dec_digits(n / 10).push(digit_char(n % 10))
    }
}

fn digit_str(d: u64) -> (r: &'static str)
    requires
        d < 10,
    ensures
        r@ =~= seq![digit_char(d as int)],
{
    proof {
        reveal_strlit("0");
        reveal_strlit("1");
        reveal_strlit("2");
        reveal_strlit("3");
        reveal_strlit("4");
        reveal_strlit("5");
        reveal_strlit("6");
        reveal_strlit("7");
        reveal_strlit("8");
        reveal_strlit("9");
    }
    if d == 0 {
        "0"
    } else if d == 1 {
        "1"
    } else if d == 2 {
        "2"
    } else if d == 3 {
        "3"
    } else if d == 4 {
        "4"
    } else if d == 5 {
        "5"
    } else if d == 6 {
        "6"
    } else if d == 7 {
        "7"
    } else if d == 8 {
        "8"
    } else {
        "9"
    }
}

/// Writes a number in decimal.
pub fn dec_string(n: u64) -> (r: String)
    ensures
        r@ == dec_digits(n as int),
    decreases n,
{
    if n < 10 {
        let mut s = String::new();
        s.append(digit_str(n));
        assert(s@ =~= dec_digits(n as int));
        s
    } else {
        let mut s = dec_string(n / 10);
        s.append(digit_str(n % 10));
        assert(s@ =~= dec_digits(n as int));
        s
    }
}

/// The fractional suffix of a thousandths value: up to three digits with
/// trailing zeros dropped, empty when the value is whole.
pub open spec fn frac_suffix(fr: int) -> Seq<char> {
    if fr == 0 {
        Seq::<char>::empty()
    } else {
        let d1 = digit_char(fr / 100);
        let d2 = digit_char((fr / 10) % 10);
        let d3 = digit_char(fr % 10);
        if fr % 10 != 0 {
            seq!['.', d1, d2, d3]
        } else if (fr / 10) % 10 != 0 {
            seq!['.', d1, d2]
        } else {
            seq!['.', d1]
        }
    }
}

/// How a thousandths value reads in the collider text format: minus sign for
/// negative values, integer part, then the trimmed fractional part.
pub open spec fn spec_milli_string(m: int) -> Seq<char> {
    let mag = if m < 0 {
        -m
    } else {
        m
    };
    let sign: Seq<char> = if m < 0 {
        seq!['-']
    } else {
        Seq::<char>::empty()
    };
    sign + dec_digits(mag / 1000) + frac_suffix(mag % 1000)
}

/// Writes a thousandths value in the collider text format.
pub fn milli_string(m: i64) -> (r: String)
    requires
        m > i64::MIN,
    ensures
        r@ == spec_milli_string(m as int),
{
    let mut s = String::new();
    let mag: u64 = if m < 0 {
        (-m) as u64
    } else {
        m as u64
    };
    if m < 0 {
        proof {
            reveal_strlit("-");
        }
        s.append("-");
    }
    let ip = dec_string(mag / 1000);
    s.append(ip.as_str());
    let fr: u64 = mag % 1000;
    if fr != 0 {
        proof {
            reveal_strlit(".");
        }
        s.append(".");
        let d1: u64 = fr / 100;
        let d2: u64 = (fr / 10) % 10;
        let d3: u64 = fr % 10;
        if d3 != 0 {
            s.append(digit_str(d1));
            s.append(digit_str(d2));
            s.append(digit_str(d3));
        } else if d2 != 0 {
            s.append(digit_str(d1));
            s.append(digit_str(d2));
        } else {
            s.append(digit_str(d1));
        }
    }
    assert(s@ =~= spec_milli_string(m as int));
    s
}

} // verus!
