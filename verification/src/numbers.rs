use vstd::prelude::*;

verus! {

// ---------------------------------------------------------------------
// Parsing decimal integers, as `str::parse` does for `u32` and `i32`
// ---------------------------------------------------------------------

/// Why a string is not a decimal integer of the wanted type.
#[derive(Debug, Clone, Copy, PartialEq, Eq, Structural)]
pub enum IntParseError {
    /// The string is empty.
    Empty,
    /// A character is not a digit (or a sign stands alone or out of place).
    InvalidDigit,
    /// The value is above the type's maximum.
    PosOverflow,
    /// The value is below the type's minimum.
    NegOverflow,
}

pub open spec fn is_ascii_digit(c: char) -> bool {
    48 <= (c as u32) <= 57
}

pub open spec fn digit_value(c: char) -> int {
    (c as u32) - 48
}

/// Reads the digits `d` from the left onto the value `acc`, failing at the
/// first character that is not a digit or that takes the value above `max`.
pub open spec fn accumulate_up(d: Seq<char>, acc: int, max: int) -> Result<int, IntParseError>
    decreases d.len(),
{
    if d.len() == 0 {
        Ok(acc)
    } else if !is_ascii_digit(d[0]) {
        Err(IntParseError::InvalidDigit)
    } else if acc * 10 + digit_value(d[0]) > max {
        Err(IntParseError::PosOverflow)
    } else {
        accumulate_up(d.drop_first(), acc * 10 + digit_value(d[0]), max)
    }
}

/// Reads the digits `d` of a negative number from the left onto the value
/// `acc`, failing at the first character that is not a digit or that takes
/// the value below `min`.
pub open spec fn accumulate_down(d: Seq<char>, acc: int, min: int) -> Result<int, IntParseError>
    decreases d.len(),
{
    if d.len() == 0 {
        Ok(acc)
    } else if !is_ascii_digit(d[0]) {
        Err(IntParseError::InvalidDigit)
    } else if acc * 10 - digit_value(d[0]) < min {
        Err(IntParseError::NegOverflow)
    } else {
        accumulate_down(d.drop_first(), acc * 10 - digit_value(d[0]), min)
    }
}

/// Whether `s` is a sign character standing alone.
pub open spec fn is_lone_sign(s: Seq<char>) -> bool {
    s.len() == 1 && (s[0] == '+' || s[0] == '-')
}

/// What `s.parse::<u32>()` gives: an optional `+` followed by decimal
/// digits, with the value in range.
pub open spec fn parse_u32_spec(s: Seq<char>) -> Result<u32, IntParseError> {
    if s.len() == 0 {
        Err(IntParseError::Empty)
    } else if is_lone_sign(s) {
        Err(IntParseError::InvalidDigit)
    } else {
        let digits = if s[0] == '+' {
            s.drop_first()
        } else {
            s
        };
        match accumulate_up(digits, 0, u32::MAX as int) {
            Ok(v) => Ok(v as u32),
            Err(e) => Err(e),
        }
    }
}

/// What `s.parse::<i32>()` gives: an optional `+` or `-` followed by decimal
/// digits, with the value in range.
pub open spec fn parse_i32_spec(s: Seq<char>) -> Result<i32, IntParseError> {
    if s.len() == 0 {
        Err(IntParseError::Empty)
    } else if is_lone_sign(s) {
        Err(IntParseError::InvalidDigit)
    } else if s[0] == '-' {
        match accumulate_down(s.drop_first(), 0, i32::MIN as int) {
            Ok(v) => Ok(v as i32),
            Err(e) => Err(e),
        }
    } else {
        let digits = if s[0] == '+' {
            s.drop_first()
        } else {
            s
        };
        match accumulate_up(digits, 0, i32::MAX as int) {
            Ok(v) => Ok(v as i32),
            Err(e) => Err(e),
        }
    }
}

/// The text that `ParseIntError` displays for each kind of failure.
pub open spec fn int_parse_error_text(e: IntParseError) -> Seq<char> {
    match e {
        IntParseError::Empty => "cannot parse integer from empty string"@,
        IntParseError::InvalidDigit => "invalid digit found in string"@,
        IntParseError::PosOverflow => "number too large to fit in target type"@,
        IntParseError::NegOverflow => "number too small to fit in target type"@,
    }
}

impl IntParseError {
    /// The description of the failure, as `ParseIntError` displays it.
    pub fn message(&self) -> (m: &'static str)
        ensures
            m@ == int_parse_error_text(*self),
    {
        match self {
            IntParseError::Empty => "cannot parse integer from empty string",
            IntParseError::InvalidDigit => "invalid digit found in string",
            IntParseError::PosOverflow => "number too large to fit in target type",
            IntParseError::NegOverflow => "number too small to fit in target type",
        }
    }
}

proof fn lemma_accumulate_up_bounds(d: Seq<char>, acc: int, max: int)
    requires
        0 <= acc <= max,
    ensures
        accumulate_up(d, acc, max) matches Ok(v) ==> 0 <= v <= max,
    decreases d.len(),
{
    if d.len() > 0 && is_ascii_digit(d[0]) && acc * 10 + digit_value(d[0]) <= max {
        lemma_accumulate_up_bounds(d.drop_first(), acc * 10 + digit_value(d[0]), max);
    }
}

proof fn lemma_accumulate_down_bounds(d: Seq<char>, acc: int, min: int)
    requires
        min <= acc <= 0,
    ensures
        accumulate_down(d, acc, min) matches Ok(v) ==> min <= v <= 0,
    decreases d.len(),
{
    if d.len() > 0 && is_ascii_digit(d[0]) && acc * 10 - digit_value(d[0]) >= min {
        lemma_accumulate_down_bounds(d.drop_first(), acc * 10 - digit_value(d[0]), min);
    }
}

/// Reads the digits `v[from..]` onto zero, as `accumulate_up` says, for a
/// maximum that fits in 32 bits.
fn read_digits_up(v: &Vec<char>, from: usize, max: u64) -> (r: Result<u64, IntParseError>)
    requires
        from <= v.len(),
        max <= u32::MAX,
    ensures
        r == (match accumulate_up(v@.skip(from as int), 0, max as int) {
            Ok(x) => Ok(x as u64),
            Err(e) => Err(e),
        }),
{
    let ghost whole = accumulate_up(v@.skip(from as int), 0, max as int);
    let mut acc: u64 = 0;
    let mut i: usize = from;
    while i < v.len()
        invariant
            from <= i <= v.len(),
            acc <= max <= u32::MAX,
            whole == accumulate_up(v@.skip(from as int), 0, max as int),
            whole == accumulate_up(v@.skip(i as int), acc as int, max as int),
        decreases v.len() - i,
    {
        let c: char = v[i];
        assert(v@.skip(i as int)[0] == c);
        assert(v@.skip(i as int).drop_first() =~= v@.skip(i + 1));
        let u: u32 = c as u32;
        if u < 48 || u > 57 {
            return Err(IntParseError::InvalidDigit);
        }
        let next: u64 = acc * 10 + (u - 48) as u64;
        if next > max {
            return Err(IntParseError::PosOverflow);
        }
        acc = next;
        i = i + 1;
    }
    assert(v@.skip(i as int).len() == 0);
    Ok(acc)
}

/// Reads the digits `v[from..]` of a negative number onto zero, as
/// `accumulate_down` says, for a minimum that fits in 32 bits.
fn read_digits_down(v: &Vec<char>, from: usize, min: i64) -> (r: Result<i64, IntParseError>)
    requires
        from <= v.len(),
        i32::MIN <= min <= 0,
    ensures
        r == (match accumulate_down(v@.skip(from as int), 0, min as int) {
            Ok(x) => Ok(x as i64),
            Err(e) => Err(e),
        }),
{
    let ghost whole = accumulate_down(v@.skip(from as int), 0, min as int);
    let mut acc: i64 = 0;
    let mut i: usize = from;
    while i < v.len()
        invariant
            from <= i <= v.len(),
            i32::MIN <= min <= acc <= 0,
            whole == accumulate_down(v@.skip(from as int), 0, min as int),
            whole == accumulate_down(v@.skip(i as int), acc as int, min as int),
        decreases v.len() - i,
    {
        let c: char = v[i];
        assert(v@.skip(i as int)[0] == c);
        assert(v@.skip(i as int).drop_first() =~= v@.skip(i + 1));
        let u: u32 = c as u32;
        if u < 48 || u > 57 {
            return Err(IntParseError::InvalidDigit);
        }
        let next: i64 = acc * 10 - (u - 48) as i64;
        if next < min {
            return Err(IntParseError::NegOverflow);
        }
        acc = next;
        i = i + 1;
    }
    assert(v@.skip(i as int).len() == 0);
    Ok(acc)
}

/// Parses `s` as a `u32` the way `str::parse::<u32>` does.
pub fn parse_u32(s: &str) -> (r: Result<u32, IntParseError>)
    ensures
        r == parse_u32_spec(s@),
{
    let v = crate::text::chars_of(s);
    if v.len() == 0 {
        return Err(IntParseError::Empty);
    }
    if v.len() == 1 && (v[0] == '+' || v[0] == '-') {
        return Err(IntParseError::InvalidDigit);
    }
    let from: usize = if v[0] == '+' {
        1
    } else {
        0
    };
    assert(v@.skip(0) =~= v@);
    assert(v@.skip(1) =~= v@.drop_first());
    proof {
        lemma_accumulate_up_bounds(v@.skip(from as int), 0, u32::MAX as int);
    }
    match read_digits_up(&v, from, 0xffff_ffff) {
        Ok(x) => Ok(x as u32),
        Err(e) => Err(e),
    }
}

/// Parses `s` as an `i32` the way `str::parse::<i32>` does.
pub fn parse_i32(s: &str) -> (r: Result<i32, IntParseError>)
    ensures
        r == parse_i32_spec(s@),
{
    let v = crate::text::chars_of(s);
    if v.len() == 0 {
        return Err(IntParseError::Empty);
    }
    if v.len() == 1 && (v[0] == '+' || v[0] == '-') {
        return Err(IntParseError::InvalidDigit);
    }
    assert(v@.skip(0) =~= v@);
    assert(v@.skip(1) =~= v@.drop_first());
    if v[0] == '-' {
        proof {
            lemma_accumulate_down_bounds(v@.skip(1), 0, i32::MIN as int);
        }
        match read_digits_down(&v, 1, -2147483648) {
            Ok(x) => Ok(x as i32),
            Err(e) => Err(e),
        }
    } else {
        let from: usize = if v[0] == '+' {
            1
        } else {
            0
        };
        proof {
            lemma_accumulate_up_bounds(v@.skip(from as int), 0, i32::MAX as int);
        }
        match read_digits_up(&v, from, 0x7fff_ffff) {
            Ok(x) => Ok(x as i32),
            Err(e) => Err(e),
        }
    }
}


// ---------------------------------------------------------------------
// Writing decimal integers, as `Display` does for the integer types
// ---------------------------------------------------------------------

/// The character of the decimal digit `d`.
pub open spec fn digit_char(d: int) -> char {
    if d == 0 {
        '0'
    } else if d == 1 {
        '1'
    } else if d == 2 {
        '2'
    } else if d == 3 {
        '3'
    } else if d == 4 {
        '4'
    } else if d == 5 {
        '5'
    } else if d == 6 {
        '6'
    } else if d == 7 {
        '7'
    } else if d == 8 {
        '8'
    } else {
        '9'
    }
}

/// The decimal digits of `n`, most significant first, without leading zeros.
pub open spec fn decimal(n: nat) -> Seq<char>
    decreases n,
{
    if n < 10 {
        seq![digit_char(n as int)]
    } else {
        decimal(n / 10).push(digit_char((n % 10) as int))
    }
}

/// The decimal text of the signed value `v`: a minus sign before the digits
/// of its magnitude when it is negative.
pub open spec fn signed_decimal(v: int) -> Seq<char> {
    if v < 0 {
        seq!['-'] + decimal((-v) as nat)
    } else {
        decimal(v as nat)
    }
}

fn digit_str(d: u64) -> (r: &'static str)
    requires
        d < 10,
    ensures
        r@ == seq![digit_char(d as int)],
{
    match d {
        0 => {
            proof {
                reveal_strlit("0");
            }
            "0"
        },
        1 => {
            proof {
                reveal_strlit("1");
            }
            "1"
        },
        2 => {
            proof {
                reveal_strlit("2");
            }
            "2"
        },
        3 => {
            proof {
                reveal_strlit("3");
            }
            "3"
        },
        4 => {
            proof {
                reveal_strlit("4");
            }
            "4"
        },
        5 => {
            proof {
                reveal_strlit("5");
            }
            "5"
        },
        6 => {
            proof {
                reveal_strlit("6");
            }
            "6"
        },
        7 => {
            proof {
                reveal_strlit("7");
            }
            "7"
        },
        8 => {
            proof {
                reveal_strlit("8");
            }
            "8"
        },
        _ => {
            proof {
                reveal_strlit("9");
            }
            "9"
        },
    }
}

/// Appends the decimal digits of `n` to `out`.
pub fn push_decimal(out: &mut String, n: u64)
    ensures
        final(out)@ == old(out)@ + decimal(n as nat),
    decreases n,
{
    if n >= 10 {
        push_decimal(out, n / 10);
    }
    out.append(digit_str(n % 10));
    assert(old(out)@ + decimal(n as nat) =~= (if n >= 10 {
        old(out)@ + decimal((n / 10) as nat)
    } else {
        old(out)@
    }) + seq![digit_char((n % 10) as int)]);
}

/// Appends the decimal text of the signed value `v` to `out`.
pub fn push_signed_decimal(out: &mut String, v: i32)
    ensures
        final(out)@ == old(out)@ + signed_decimal(v as int),
{
    if v < 0 {
        proof {
            reveal_strlit("-");
        }
        out.append("-");
        let magnitude: u64 = (0i64 - v as i64) as u64;
        push_decimal(out, magnitude);
        assert(old(out)@ + signed_decimal(v as int) =~= old(out)@ + seq!['-'] + decimal(
            magnitude as nat,
        ));
    } else {
        push_decimal(out, v as u64);
    }
}

// ---------------------------------------------------------------------
// Reading back what is written
// ---------------------------------------------------------------------

/// The value of the digits `d` read from the left onto `acc`.
pub open spec fn digits_value(acc: int, d: Seq<char>) -> int
    decreases d.len(),
{
    if d.len() == 0 {
        acc
    } else {
        digits_value(acc * 10 + digit_value(d[0]), d.drop_first())
    }
}

proof fn lemma_digit_char(d: int)
    requires
        0 <= d < 10,
    ensures
        is_ascii_digit(digit_char(d)),
        digit_value(digit_char(d)) == d,
{
}

proof fn lemma_digits_value_push(acc: int, d: Seq<char>, c: char)
    ensures
        digits_value(acc, d.push(c)) == digits_value(acc, d) * 10 + digit_value(c),
    decreases d.len(),
{
    if d.len() > 0 {
        assert(d.push(c).drop_first() =~= d.drop_first().push(c));
        assert(d.push(c)[0] == d[0]);
        lemma_digits_value_push(acc * 10 + digit_value(d[0]), d.drop_first(), c);
    } else {
        let one = d.push(c);
        assert(one.drop_first() =~= Seq::<char>::empty());
        assert(one[0] == c);
        assert(digits_value(acc * 10 + digit_value(c), one.drop_first()) == acc * 10 + digit_value(
            c,
        ));
    }
}

pub proof fn lemma_decimal_digits(n: nat)
    ensures
        decimal(n).len() >= 1,
        forall|i: int| 0 <= i < decimal(n).len() ==> is_ascii_digit(#[trigger] decimal(n)[i]),
        digits_value(0, decimal(n)) == n,
    decreases n,
{
    lemma_digit_char((n % 10) as int);
    if n < 10 {
        let d = decimal(n);
        assert(d.drop_first() =~= Seq::<char>::empty());
        assert(digits_value(digit_value(d[0]), d.drop_first()) == digit_value(d[0]));
    } else {
        lemma_decimal_digits(n / 10);
        lemma_digits_value_push(0, decimal(n / 10), digit_char((n % 10) as int));
    }
}

proof fn lemma_accumulate_up_reaches(d: Seq<char>, acc: int, max: int)
    requires
        0 <= acc,
        forall|i: int| 0 <= i < d.len() ==> is_ascii_digit(#[trigger] d[i]),
        digits_value(acc, d) <= max,
    ensures
        accumulate_up(d, acc, max) == Ok::<int, IntParseError>(digits_value(acc, d)),
        acc <= digits_value(acc, d),
    decreases d.len(),
{
    if d.len() > 0 {
        let next = acc * 10 + digit_value(d[0]);
        assert(is_ascii_digit(d[0]));
        assert forall|i: int| 0 <= i < d.drop_first().len() implies is_ascii_digit(
            #[trigger] d.drop_first()[i],
        ) by {
            assert(d.drop_first()[i] == d[i + 1]);
        }
        lemma_accumulate_up_reaches(d.drop_first(), next, max);
    }
}

/// What `push_decimal` writes of a `u32` is read back as the same number.
pub proof fn lemma_parse_u32_reads_decimal(n: u32)
    ensures
        parse_u32_spec(decimal(n as nat)) == Ok::<u32, IntParseError>(n),
{
    lemma_decimal_digits(n as nat);
    let d = decimal(n as nat);
    assert(is_ascii_digit(d[0]));
    lemma_accumulate_up_reaches(d, 0, u32::MAX as int);
}

/// What `push_decimal` writes of a non-negative `i32` is read back as the
/// same number.
pub proof fn lemma_parse_i32_reads_decimal(n: i32)
    requires
        n >= 0,
    ensures
        parse_i32_spec(decimal(n as nat)) == Ok::<i32, IntParseError>(n),
{
    lemma_decimal_digits(n as nat);
    let d = decimal(n as nat);
    assert(is_ascii_digit(d[0]));
    lemma_accumulate_up_reaches(d, 0, i32::MAX as int);
}

} // verus!
