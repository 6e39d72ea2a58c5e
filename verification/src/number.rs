//! Numbers in decimal notation: written, and read.
use vstd::prelude::*;

verus! {

/// The decimal digit of a number below ten.
pub open spec fn digit(d: nat) -> char {
    (48 + d) as char
}

/// A number in decimal notation.
pub open spec fn decimal(n: nat) -> Seq<char>
    decreases n,
{
    if n < 10 {
        seq![digit(n)]
    } else {
        decimal(n / 10).push(digit(n % 10))
    }
}

/// A number in decimal notation, with a sign in front where it is negative.
pub open spec fn signed_decimal(n: int) -> Seq<char> {
    if n < 0 {
        "-"@ + decimal((-n) as nat)
    } else {
        decimal(n as nat)
    }
}

/// Whether a character is a decimal digit.
pub open spec fn is_digit(c: char) -> bool {
    '0' <= c <= '9'
}

/// Whether a text is one decimal digit or more, and nothing else.
pub open spec fn is_digits(s: Seq<char>) -> bool {
    s.len() > 0 && forall|i: int| 0 <= i < s.len() ==> is_digit(#[trigger] s[i])
}

/// The number that decimal digits stand for.
pub open spec fn value(s: Seq<char>) -> nat
    decreases s.len(),
{
    if s.len() == 0 {
        0
    } else {
        value(s.drop_last()) * 10 + (s.last() as int - 48) as nat
    }
}

/// The number that a text stands for: decimal digits, with `+` in front of them or not, or,
/// where a sign is allowed, with `-`. None where the text is anything else.
pub open spec fn read(s: Seq<char>, negative: bool) -> Option<int> {
    if is_digits(s) {
        Some(value(s) as int)
    } else if s.len() > 0 && s.first() == '+' && is_digits(s.drop_first()) {
        Some(value(s.drop_first()) as int)
    } else if negative && s.len() > 0 && s.first() == '-' && is_digits(s.drop_first()) {
        Some(-value(s.drop_first()))
    } else {
        None
    }
}

/// The `i32` that a text stands for; none where it stands for no number or for one out of
/// range.
pub open spec fn read_i32(s: Seq<char>) -> Option<i32> {
    match read(s, true) {
        Some(n) => if i32::MIN <= n <= i32::MAX {
            Some(n as i32)
        } else {
            None
        },
        None => None,
    }
}

/// The `usize` that a text stands for; none where it stands for no number or for one out of
/// range.
pub open spec fn read_usize(s: Seq<char>) -> Option<usize> {
    match read(s, false) {
        Some(n) => if n <= usize::MAX {
            Some(n as usize)
        } else {
            None
        },
        None => None,
    }
}

/// A number written in decimal notation is nothing but digits, and reads as the number.
pub proof fn law_decimal(n: nat)
    ensures
        is_digits(decimal(n)),
        value(decimal(n)) == n,
    decreases n,
{
    if n >= 10 {
        let head = decimal(n / 10);
        let last = digit(n % 10);
        law_decimal(n / 10);
        assert(decimal(n).drop_last() =~= head);
        assert forall|i: int| 0 <= i < decimal(n).len() implies is_digit(
            #[trigger] decimal(n)[i],
        ) by {
            if i < head.len() {
                assert(decimal(n)[i] == head[i]);
            }
        }
    } else {
        assert(decimal(n).drop_last() =~= Seq::empty());
        assert(value(Seq::<char>::empty()) == 0);
    }
}

/// Decimal notation has no zero in front, but for zero itself.
pub proof fn law_no_leading_zero(n: nat)
    ensures
        n > 0 ==> decimal(n)[0] != '0',
        n == 0 ==> decimal(n) == seq!['0'],
    decreases n,
{
    if n >= 10 {
        law_no_leading_zero(n / 10);
        law_decimal(n / 10);
        assert(decimal(n)[0] == decimal(n / 10)[0]);
    } else {
        assert(decimal(n)[0] == digit(n));
    }
}

/// Digits are read from the left, each worth ten times the next.
pub proof fn law_value(s: Seq<char>, c: char)
    requires
        '0' <= c <= '9',
    ensures
        value(Seq::empty()) == 0,
        value(s.push(c)) == value(s) * 10 + (c as int - '0' as int),
{
    assert(s.push(c).drop_last() =~= s);
}

/// A text is read as a number exactly where it is decimal digits, or such digits with a sign in
/// front: `+`, or `-` where the number may be negative.
pub proof fn law_read(digits: Seq<char>)
    requires
        digits.len() > 0,
        forall|i: int| 0 <= i < digits.len() ==> '0' <= #[trigger] digits[i] <= '9',
    ensures
        read(digits, true) == Some(value(digits) as int),
        read(digits, false) == Some(value(digits) as int),
        read(seq!['+'] + digits, true) == Some(value(digits) as int),
        read(seq!['+'] + digits, false) == Some(value(digits) as int),
        read(seq!['-'] + digits, true) == Some(-value(digits)),
        read(seq!['-'] + digits, false) is None,
{
    assert(is_digits(digits));
    assert((seq!['+'] + digits).drop_first() =~= digits);
    assert((seq!['-'] + digits).drop_first() =~= digits);
    assert(!is_digit((seq!['+'] + digits)[0]));
    assert(!is_digit((seq!['-'] + digits)[0]));
}

/// A text that is read as a number holds digits, and nothing else but for a sign in front.
pub proof fn law_only_digits_read(s: Seq<char>, negative: bool)
    requires
        read(s, negative) is Some,
    ensures
        s.len() > 0,
        '0' <= s[0] <= '9' || s[0] == '+' || (negative && s[0] == '-'),
        forall|i: int| 1 <= i < s.len() ==> '0' <= #[trigger] s[i] <= '9',
        '0' <= s[s.len() - 1] <= '9',
{
    if !is_digits(s) {
        let rest = s.drop_first();
        assert forall|i: int| 1 <= i < s.len() implies '0' <= #[trigger] s[i] <= '9' by {
            assert(s[i] == rest[i - 1]);
            assert(is_digit(rest[i - 1]));
        }
    } else {
        assert(is_digit(s[0]));
        assert forall|i: int| 1 <= i < s.len() implies '0' <= #[trigger] s[i] <= '9' by {
            assert(is_digit(s[i]));
        }
    }
}

/// A number in range is read as itself, and one out of range is not read.
pub proof fn law_range(s: Seq<char>)
    ensures
        match read_i32(s) {
            Some(n) => read(s, true) == Some(n as int),
            None => read(s, true) matches Some(n) ==> n < -0x8000_0000 || n > 0x7fff_ffff,
        },
        match read_usize(s) {
            Some(n) => read(s, false) == Some(n as int),
            None => read(s, false) matches Some(n) ==> n < 0 || n > usize::MAX,
        },
{
}

/// What is written for a `usize` reads as that `usize`.
pub proof fn law_usize_read_back(n: usize)
    ensures
        read_usize(decimal(n as nat)) == Some(n),
{
    law_decimal(n as nat);
}

/// What is written for an `i32` reads as that `i32`.
pub proof fn law_i32_read_back(n: i32)
    ensures
        read_i32(signed_decimal(n as int)) == Some(n),
{
    if n < 0 {
        let digits = decimal((-n) as nat);
        law_decimal((-n) as nat);
        reveal_strlit("-");
        let s = signed_decimal(n as int);
        assert(s.drop_first() =~= digits);
        assert(s.first() == '-');
        assert(!is_digit(s[0]));
    } else {
        law_decimal(n as nat);
    }
}

/// `str::parse::<i32>` from the standard library: it reads an optional sign and decimal
/// digits, and fails on any other text and on a number that is no `i32`.
#[verifier::external_body]
pub(crate) fn parse_i32(s: &str) -> (r: Option<i32>)
    ensures
        r == read_i32(s@),
{
    s.parse::<i32>().ok()
}

/// `str::parse::<usize>` from the standard library: it reads an optional `+` and decimal
/// digits, and fails on any other text and on a number that is no `usize`.
#[verifier::external_body]
pub(crate) fn parse_usize(s: &str) -> (r: Option<usize>)
    ensures
        r == read_usize(s@),
{
    s.parse::<usize>().ok()
}

/// The decimal digit of a number below ten.
fn write_digit(d: u64) -> (r: &'static str)
    requires
        d < 10,
    ensures
        r@ == seq![digit(d as nat)],
{
    proof {
        reveal_strlit("0");
        reveal_strlit("1");
        reveal_strlit("2");
        reveal_strlit("3");
        reveal_strlit("4");
        reveal_strlit("5");
        reveal_strlit("6");
        reveal_strlit("7");
        reveal_strlit("8");
        reveal_strlit("9");
    }
    if d == 0 {
        "0"
    } else if d == 1 {
        "1"
    } else if d == 2 {
        "2"
    } else if d == 3 {
        "3"
    } else if d == 4 {
        "4"
    } else if d == 5 {
        "5"
    } else if d == 6 {
        "6"
    } else if d == 7 {
        "7"
    } else if d == 8 {
        "8"
    } else {
        "9"
    }
}

/// The number in decimal notation.
pub fn write_decimal(n: u64) -> (r: String)
    ensures
        r@ == decimal(n as nat),
    decreases n,
{
    if n < 10 {
        write_digit(n).to_owned()
    } else {
        let mut r = write_decimal(n / 10);
        r.append(write_digit(n % 10));
        r
    }
}

/// The number in decimal notation, with a sign in front where it is negative.
pub fn write_signed_decimal(n: i32) -> (r: String)
    ensures
        r@ == signed_decimal(n as int),
{
    let n: i64 = n as i64;
    if n < 0 {
        let mut r = "-".to_owned();
        r.append(write_decimal((-n) as u64).as_str());
        r
    } else {
        write_decimal(n as u64)
    }
}

} // verus!
