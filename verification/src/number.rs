//! Numbers as text: decimal and hexadecimal, written and read.

use vstd::prelude::*;
use vstd::string::*;

use crate::text::chars_of;
use crate::text::out_push;

verus! {

// -- decimal ----------------------------------------------------------------

/// The decimal digit for `d`, which is below ten.
pub open spec fn digit(d: int) -> char {
    (('0' as int) + d) as char
}

/// `n` in decimal.
pub open spec fn decimal_nat(n: nat) -> Seq<char>
    decreases n,
{
    if n < 10 {
        seq![digit(n as int)]
    } else {
        decimal_nat(n / 10).push(digit((n % 10) as int))
    }
}

/// `n` in decimal, with a leading minus sign when it is negative.
pub open spec fn decimal(n: int) -> Seq<char> {
    if n < 0 {
        seq!['-'] + decimal_nat((-n) as nat)
    } else {
        decimal_nat(n as nat)
    }
}

/// `n` zeros.
pub open spec fn zeros(n: int) -> Seq<char> {
    Seq::new(
        if n > 0 {
            n as nat
        } else {
            0
        },
        |i: int| '0',
    )
}

/// `n` in decimal, filled up with zeros behind the sign to `width` characters.
pub open spec fn padded(n: int, width: int) -> Seq<char> {
    if n < 0 {
        seq!['-'] + (zeros(width - 1 - decimal_nat((-n) as nat).len()) + decimal_nat((-n) as nat))
    } else {
        zeros(width - decimal_nat(n as nat).len()) + decimal_nat(n as nat)
    }
}

fn digit_char(d: u8) -> (r: char)
    requires
        d < 10,
    ensures
        r == digit(d as int),
{
    (48 + d) as char
}

/// `n` in decimal.
pub fn unsigned_text(n: u128) -> (r: String)
    ensures
        r@ == decimal(n as int),
    decreases n,
{
    let mut out = if n < 10 {
        String::new()
    } else {
        unsigned_text(n / 10)
    };
    out.push(digit_char((n % 10) as u8));
    assert(n < 10 ==> out@ =~= seq![digit(n as int)]);
    out
}

/// `n` in decimal.
pub fn count_text(n: usize) -> (r: String)
    ensures
        r@ == decimal(n as int),
{
    unsigned_text(n as u128)
}

/// `n` in decimal.
pub fn signed_text(n: i64) -> (r: String)
    ensures
        r@ == decimal(n as int),
{
    if n < 0 {
        let mut out = String::new();
        out.push('-');
        assert(out@ =~= seq!['-']);
        let magnitude: u128 = (-(n as i128)) as u128;
        let digits = unsigned_text(magnitude);
        out_push(&mut out, digits.as_str());
        out
    } else {
        unsigned_text(n as u128)
    }
}

/// `n` in decimal, filled up with zeros behind the sign to `width` characters.
pub fn padded_text(n: i64, width: usize) -> (r: String)
    ensures
        r@ == padded(n as int, width as int),
{
    let mut out = String::new();
    let negative = n < 0;
    let magnitude: u128 = if negative {
        (-(n as i128)) as u128
    } else {
        n as u128
    };
    let digits = unsigned_text(magnitude);
    let len: usize = chars_of(digits.as_str()).len();
    let mut fill: usize = len;
    if negative {
        out.push('-');
        fill = if len < usize::MAX {
            len + 1
        } else {
            len
        };
    }
    let ghost sign = out@;
    let ghost start = fill;
    while fill < width
        invariant
            start <= fill,
            fill <= width || fill == start,
            out@ == sign + zeros(fill - start),
        decreases width - fill,
    {
        out.push('0');
        assert(zeros(fill + 1 - start) =~= zeros(fill - start).push('0'));
        assert(out@ =~= sign + zeros(fill + 1 - start));
        fill = fill + 1;
    }
    out_push(&mut out, digits.as_str());
    proof {
        let d = decimal_nat(magnitude as nat);
        assert(d.len() == len);
        if negative {
            assert(zeros(fill - start) =~= zeros(width - 1 - len));
            assert(sign =~= seq!['-']);
        } else {
            assert(zeros(fill - start) =~= zeros(width - len));
            assert(sign + zeros(fill - start) =~= zeros(fill - start));
        }
        assert(out@ =~= padded(n as int, width as int));
    }
    out
}

/// Whether `c` is a decimal digit.
pub open spec fn is_digit(c: char) -> bool {
    '0' <= c <= '9'
}

/// The number that the digits `s` write down.
pub open spec fn digits_value(s: Seq<char>) -> nat
    decreases s.len(),
{
    if s.len() == 0 {
        0
    } else {
        digits_value(s.drop_last()) * 10 + ((s.last() as int - '0' as int) as nat)
    }
}

/// The number that `s` writes down in decimal digits alone.
pub open spec fn unsigned_value(s: Seq<char>) -> Option<nat> {
    if s.len() > 0 && forall|i: int| 0 <= i < s.len() ==> is_digit(#[trigger] s[i]) {
        Some(digits_value(s))
    } else {
        None
    }
}

/// What `s` reads as a count: digits behind an optional plus sign, not above `usize::MAX`.
pub open spec fn count_value(s: Seq<char>) -> Option<int> {
    let digits = if s.len() > 0 && s[0] == '+' {
        s.skip(1)
    } else {
        s
    };
    match unsigned_value(digits) {
        Some(n) if n <= usize::MAX => Some(n as int),
        _ => None,
    }
}

/// What `s` reads as a signed number: digits behind an optional sign, within `i64`.
pub open spec fn signed_value(s: Seq<char>) -> Option<int> {
    let digits = if s.len() > 0 && (s[0] == '+' || s[0] == '-') {
        s.skip(1)
    } else {
        s
    };
    match unsigned_value(digits) {
        Some(n) => {
            let value = if s[0] == '-' {
                -(n as int)
            } else {
                n as int
            };
            if i64::MIN <= value <= i64::MAX {
                Some(value)
            } else {
                None
            }
        },
        None => None,
    }
}

pub(crate) proof fn lemma_digits(n: nat)
    ensures
        decimal_nat(n).len() > 0,
        forall|i: int| 0 <= i < decimal_nat(n).len() ==> is_digit(#[trigger] decimal_nat(n)[i]),
        digits_value(decimal_nat(n)) == n,
    decreases n,
{
    let s = decimal_nat(n);
    if n < 10 {
        assert(s.drop_last() =~= Seq::<char>::empty());
        assert(digits_value(s.drop_last()) == 0);
    } else {
        let front = decimal_nat(n / 10);
        lemma_digits(n / 10);
        assert(s.drop_last() =~= front);
        assert forall|i: int| 0 <= i < s.len() implies is_digit(#[trigger] s[i]) by {
            if i < front.len() {
                assert(s[i] == front[i]);
            }
        }
    }
}

/// A number reads back as itself.
pub proof fn numbers_read_back(n: i64)
    ensures
        signed_value(decimal(n as int)) == Some(n as int),
{
    let s = decimal(n as int);
    if n < 0 {
        lemma_digits((-n) as nat);
        assert(s.skip(1) =~= decimal_nat((-n) as nat));
    } else {
        lemma_digits(n as nat);
        assert(is_digit(s[0]));
    }
}

/// Above every number that `parse_count` or `parse_signed` returns.
pub const MAGNITUDE_CAP: u128 = 18446744073709551616;

/// The number that `chars` writes down in digits from `from` on, capped.
fn magnitude(chars: &Vec<char>, from: usize) -> (r: Option<u128>)
    requires
        from <= chars@.len(),
    ensures
        match unsigned_value(chars@.skip(from as int)) {
            Some(n) => r == Some(
                if n < MAGNITUDE_CAP {
                    n as u128
                } else {
                    MAGNITUDE_CAP
                },
            ),
            None => r is None,
        },
{
    let ghost rest = chars@.skip(from as int);
    if from == chars.len() {
        return None;
    }
    let mut value: u128 = 0;
    let mut i: usize = from;
    while i < chars.len()
        invariant
            from <= i <= chars@.len(),
            rest == chars@.skip(from as int),
            forall|j: int| 0 <= j < i - from ==> is_digit(#[trigger] rest[j]),
            value <= MAGNITUDE_CAP,
            value < MAGNITUDE_CAP ==> value == digits_value(rest.take(i - from)),
            value == MAGNITUDE_CAP ==> digits_value(rest.take(i - from)) >= MAGNITUDE_CAP,
        decreases chars@.len() - i,
    {
        let c = chars[i];
        assert(c == rest[i - from]);
        if c < '0' || c > '9' {
            assert(!is_digit(rest[i - from]));
            return None;
        }
        assert(rest.take(i + 1 - from).drop_last() =~= rest.take(i - from));
        let next: u128 = value * 10 + (c as u128 - 48);
        value = if next < MAGNITUDE_CAP {
            next
        } else {
            MAGNITUDE_CAP
        };
        i = i + 1;
    }
    assert(rest.take(i - from) =~= rest);
    Some(value)
}

/// Reads `s` as a count.
pub fn parse_count(s: &str) -> (r: Option<usize>)
    ensures
        match r {
            Some(n) => count_value(s@) == Some(n as int),
            None => count_value(s@) is None,
        },
{
    let chars = chars_of(s);
    let from: usize = if chars.len() > 0 && chars[0] == '+' {
        1
    } else {
        0
    };
    assert(chars@.skip(0) =~= chars@);
    match magnitude(&chars, from) {
        Some(n) if n <= usize::MAX as u128 => Some(n as usize),
        _ => None,
    }
}

/// Reads `s` as a signed number.
pub fn parse_signed(s: &str) -> (r: Option<i64>)
    ensures
        match r {
            Some(n) => signed_value(s@) == Some(n as int),
            None => signed_value(s@) is None,
        },
{
    let chars = chars_of(s);
    let signed = chars.len() > 0 && (chars[0] == '+' || chars[0] == '-');
    let from: usize = if signed {
        1
    } else {
        0
    };
    assert(chars@.skip(0) =~= chars@);
    match magnitude(&chars, from) {
        Some(n) => {
            if chars[0] == '-' {
                if n <= 9223372036854775808u128 {
                    Some((-(n as i128)) as i64)
                } else {
                    None
                }
            } else if n <= 9223372036854775807u128 {
                Some(n as i64)
            } else {
                None
            }
        },
        None => None,
    }
}

// -- hexadecimal ------------------------------------------------------------

/// The lower-case hexadecimal digit for `d`, which is below sixteen.
pub open spec fn hex_digit(d: int) -> char {
    if d < 10 {
        (('0' as int) + d) as char
    } else {
        (('a' as int) + d - 10) as char
    }
}

/// The last `width` hexadecimal digits of `n`, in lower case.
pub open spec fn hex(n: nat, width: nat) -> Seq<char>
    decreases width,
{
    if width == 0 {
        Seq::empty()
    } else {
        hex(n / 16, (width - 1) as nat).push(hex_digit((n % 16) as int))
    }
}

pub(crate) proof fn lemma_hex(n: nat, width: nat)
    ensures
        hex(n, width).len() == width,
        forall|i: int|
            0 <= i < width ==> '0' <= #[trigger] hex(n, width)[i] <= '9' || 'a' <= hex(n, width)[i]
                <= 'f',
    decreases width,
{
    if width > 0 {
        let front = hex(n / 16, (width - 1) as nat);
        lemma_hex(n / 16, (width - 1) as nat);
        assert forall|i: int| 0 <= i < width implies '0' <= #[trigger] hex(n, width)[i] <= '9'
            || 'a' <= hex(n, width)[i] <= 'f' by {
            if i < width - 1 {
                assert(hex(n, width)[i] == front[i]);
            }
        }
    }
}

/// The last `width` hexadecimal digits of `n`, in lower case.
pub fn hex_text(n: u128, width: usize) -> (r: String)
    ensures
        r@ == hex(n as nat, width as nat),
    decreases width,
{
    if width == 0 {
        return String::new();
    }
    let mut out = hex_text(n / 16, width - 1);
    let d: u8 = (n % 16) as u8;
    if d < 10 {
        out.push((48 + d) as char);
    } else {
        out.push((97 + d - 10) as char);
    }
    out
}

proof fn lemma_hex_injective(a: nat, b: nat, width: nat)
    requires
        hex(a, width) == hex(b, width),
        a < vstd::arithmetic::power::pow(16, width),
        b < vstd::arithmetic::power::pow(16, width),
    ensures
        a == b,
    decreases width,
{
    if width == 0 {
        vstd::arithmetic::power::lemma_pow0(16);
    } else {
        let w = (width - 1) as nat;
        let x = hex(a / 16, w);
        let y = hex(b / 16, w);
        lemma_hex(a / 16, w);
        lemma_hex(b / 16, w);
        assert(hex(a, width).drop_last() =~= x);
        assert(hex(b, width).drop_last() =~= y);
        assert(hex(a, width).last() == hex_digit((a % 16) as int));
        assert(hex(b, width).last() == hex_digit((b % 16) as int));
        assert(a % 16 == b % 16);
        reveal(vstd::arithmetic::power::pow);
        assert(vstd::arithmetic::power::pow(16, width) == 16 * vstd::arithmetic::power::pow(16, w));
        lemma_hex_injective(a / 16, b / 16, w);
    }
}

/// Different numbers have different hexadecimal digits.
pub proof fn hex_is_injective(a: u128, b: u128)
    requires
        hex(a as nat, 32) == hex(b as nat, 32),
    ensures
        a == b,
{
    assert(vstd::arithmetic::power::pow(16, 32) == 0x1_0000_0000_0000_0000_0000_0000_0000_0000) by {
        reveal_with_fuel(vstd::arithmetic::power::pow, 33);
    }
    lemma_hex_injective(a as nat, b as nat, 32);
}

/// A number that is written down reads as that number again, and is written without needless zeros.
pub proof fn written_numbers_read_back(
    n: i64,
    text: String,
    s: &str,
    read: Option<i64>,
    count: usize,
    count_digits: String,
    t: &str,
    counted: Option<usize>,
)
    requires
        call_ensures(signed_text, (n,), text),
        s@ == text@,
        call_ensures(parse_signed, (s,), read),
        call_ensures(count_text, (count,), count_digits),
        t@ == count_digits@,
        call_ensures(parse_count, (t,), counted),
    ensures
        read == Some(n),
        counted == Some(count),
        count_digits@[0] != '0' || count_digits@.len() == 1,
{
    numbers_read_back(n);
    lemma_digits(count as nat);
    lemma_no_needless_zero(count as nat);
    assert(is_digit(decimal_nat(count as nat)[0]));
}

proof fn lemma_no_needless_zero(n: nat)
    ensures
        decimal_nat(n).len() > 0,
        decimal_nat(n)[0] != '0' || n == 0,
        n == 0 ==> decimal_nat(n).len() == 1,
    decreases n,
{
    if n >= 10 {
        lemma_no_needless_zero(n / 10);
    }
}

/// A number that is filled up has at least so many characters, and but for zeros in front it is the
/// number as it is written.
pub proof fn padding_adds_zeros_alone(n: i64, width: usize, r: String) -> (fill: Seq<char>)
    requires
        call_ensures(padded_text, (n, width), r),
        n >= 0,
    ensures
        r@ == fill + decimal(n as int),
        forall|i: int| 0 <= i < fill.len() ==> #[trigger] fill[i] == '0',
        r@.len() == if decimal(n as int).len() >= width {
            decimal(n as int).len()
        } else {
            width as nat
        },
{
    zeros(width - decimal_nat(n as nat).len())
}

} // verus!
