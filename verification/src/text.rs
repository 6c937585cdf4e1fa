//! Decimal text: writing numbers into messages and addresses, and reading a port back.

use vstd::prelude::*;

verus! {

/// The character for a decimal digit.
pub open spec fn digit_char(d: nat) -> char {
    (('0' as u32) + d) as char
}

/// `n` in decimal, without leading zeros.
pub open spec fn decimal(n: nat) -> Seq<char>
    decreases n,
{
    if n < 10 {
        seq![digit_char(n)]
    } else {
        decimal(n / 10).push(digit_char(n % 10))
    }
}

/// Whether `c` is one of the ten ASCII digits.
pub open spec fn is_digit(c: char) -> bool {
    '0' <= c && c <= '9'
}

/// The number a run of ASCII digits stands for; the empty run is zero.
pub open spec fn digits_value(s: Seq<char>) -> nat
    decreases s.len(),
{
    if s.len() == 0 {
        0
    } else {
        digits_value(s.drop_last()) * 10 + ((s.last() as nat) - ('0' as nat)) as nat
    }
}

/// What is left of a number once its optional leading `+` is gone.
pub open spec fn unsigned_digits(s: Seq<char>) -> Seq<char> {
    if s.len() > 0 && s[0] == '+' {
        s.skip(1)
    } else {
        s
    }
}

/// The port a text spells: an optional `+`, then one or more ASCII digits, at most 65535.
pub open spec fn port_number(s: Seq<char>) -> Option<u16> {
    let digits = unsigned_digits(s);
    if digits.len() > 0 && (forall|i: int| 0 <= i < digits.len() ==> is_digit(#[trigger] digits[i]))
        && digits_value(digits) <= u16::MAX {
        Some(digits_value(digits) as u16)
    } else {
        None
    }
}

/// The text of a single digit.
fn digit_text(d: u64) -> (r: &'static str)
    requires
        d < 10,
    ensures
        r@ == seq![digit_char(d as nat)],
{
    proof {
        reveal_strlit("0");
        reveal_strlit("1");
        reveal_strlit("2");
        reveal_strlit("3");
        reveal_strlit("4");
        reveal_strlit("5");
        reveal_strlit("6");
        reveal_strlit("7");
        reveal_strlit("8");
        reveal_strlit("9");
    }
    let r: &'static str = match d {
        0 => "0",
        1 => "1",
        2 => "2",
        3 => "3",
        4 => "4",
        5 => "5",
        6 => "6",
        7 => "7",
        8 => "8",
        _ => "9",
    };
    assert(r@ =~= seq![digit_char(d as nat)]);
    r
}

/// Writes `n` in decimal.
pub fn decimal_text(n: u64) -> (r: String)
    ensures
        r@ == decimal(n as nat),
    decreases n,
{
    if n < 10 {
        digit_text(n).to_string()
    } else {
        let mut text = decimal_text(n / 10);
        text.append(digit_text(n % 10));
        assert(text@ =~= decimal(n as nat));
        text
    }
}

/// Joins two texts.
pub fn joined(a: &str, b: &str) -> (r: String)
    ensures
        r@ == a@ + b@,
{
    let mut text = a.to_string();
    text.append(b);
    text
}

/// Whether two texts are the same.
pub fn same_text(a: &str, b: &str) -> (r: bool)
    ensures
        r == (a@ == b@),
{
    a.to_string() == b.to_string()
}

/// Reads a port, as [`port_number`] says.
pub fn parse_port(s: &str) -> (r: Option<u16>)
    ensures
        r == port_number(s@),
{
    let n: usize = s.unicode_len();
    let start: usize = if n > 0 && s.get_char(0) == '+' {
        1
    } else {
        0
    };
    let ghost digits = unsigned_digits(s@);
    assert(digits =~= s@.skip(start as int));
    if start == n {
        return None;
    }
    let mut i: usize = start;
    let mut value: u32 = 0;
    let mut too_large: bool = false;
    while i < n
        invariant
            start <= i <= n,
            n == s@.len(),
            digits == unsigned_digits(s@),
            digits == s@.skip(start as int),
            digits.len() == n - start,
            forall|k: int| 0 <= k < i - start ==> is_digit(#[trigger] digits[k]),
            !too_large ==> value == digits_value(digits.take(i - start)) && value <= u16::MAX,
            too_large ==> digits_value(digits.take(i - start)) > u16::MAX,
        decreases n - i,
    {
        let c: char = s.get_char(i);
        assert(digits[i - start] == c);
        if !(c >= '0' && c <= '9') {
            assert(!is_digit(digits[i - start]));
            return None;
        }
        let ghost longer = digits.take(i - start + 1);
        assert(longer.drop_last() =~= digits.take(i - start));
        assert(longer.last() == c);
        if !too_large {
            let next: u32 = value * 10 + (c as u32 - '0' as u32);
            if next > 65535 {
                too_large = true;
            } else {
                value = next;
            }
        }
        i = i + 1;
    }
    assert(digits.take(n - start) =~= digits);
    if too_large {
        None
    } else {
        Some(value as u16)
    }
}

proof fn lemma_decimal(n: nat)
    ensures
        decimal(n).len() > 0,
        forall|i: int| 0 <= i < decimal(n).len() ==> is_digit(#[trigger] decimal(n)[i]),
        digits_value(decimal(n)) == n,
    decreases n,
{
    if n < 10 {
        assert(decimal(n).drop_last() =~= Seq::<char>::empty());
        assert(digits_value(Seq::<char>::empty()) == 0);
    } else {
        lemma_decimal(n / 10);
        assert(decimal(n).drop_last() =~= decimal(n / 10));
        assert(n == (n / 10) * 10 + n % 10);
    }
}

/// Reading a written port gives it back.
pub proof fn port_round_trip(port: u16)
    ensures
        port_number(decimal(port as nat)) == Some(port),
{
    lemma_decimal(port as nat);
    let text = decimal(port as nat);
    assert(is_digit(text[0]));
}

/// Two numbers with the same decimal text are the same.
pub proof fn decimal_is_injective(a: nat, b: nat)
    requires
        decimal(a) == decimal(b),
    ensures
        a == b,
{
    lemma_decimal(a);
    lemma_decimal(b);
}

/// Decimal text is made of digits only, stands for its number, and has no zero in front of another
/// digit.
pub proof fn decimal_text_stands_for_its_number(n: nat)
    ensures
        decimal(n).len() > 0,
        forall|i: int|
            0 <= i < decimal(n).len() ==> '0' <= #[trigger] decimal(n)[i] && decimal(n)[i] <= '9',
        digits_value(decimal(n)) == n,
        n < 10 ==> decimal(n) == seq![(('0' as u32) + n) as char],
        n >= 10 ==> decimal(n) == decimal(n / 10) + decimal(n % 10),
        decimal(n)[0] == '0' ==> n == 0,
        n == 0 ==> decimal(n) == seq!['0'],
    decreases n,
{
    lemma_decimal(n);
    assert forall|i: int| 0 <= i < decimal(n).len() implies '0' <= #[trigger] decimal(n)[i]
        && decimal(n)[i] <= '9' by {
        assert(is_digit(decimal(n)[i]));
    }
    if n >= 10 {
        decimal_text_stands_for_its_number(n / 10);
        assert(decimal(n) =~= decimal(n / 10) + decimal(n % 10));
        assert(decimal(n)[0] == decimal(n / 10)[0]);
    }
}

/// Digits are read from the left: one more of them makes a number ten times as large and adds its
/// own value.
pub proof fn digits_are_read_from_the_left(digits: Seq<char>, c: char)
    requires
        '0' <= c && c <= '9',
    ensures
        digits_value(Seq::empty()) == 0,
        digits_value(digits.push(c)) == 10 * digits_value(digits) + (c as int - '0' as int),
{
    assert(digits.push(c).drop_last() =~= digits);
}

/// A text spells a port if and only if it is one or more digits, after a `+` or not, that stand for
/// a number of at most 65535; the port is that number.
pub proof fn which_texts_spell_a_port(digits: Seq<char>)
    ensures
        port_number(seq!['+'] + digits) is Some <==> {
            &&& digits.len() > 0
            &&& forall|i: int|
                0 <= i < digits.len() ==> '0' <= #[trigger] digits[i] && digits[i] <= '9'
            &&& digits_value(digits) <= 65535
        },
        port_number(seq!['+'] + digits) matches Some(port) ==> port == digits_value(digits),
        digits.len() == 0 || digits[0] != '+' ==> port_number(digits) == port_number(
            seq!['+'] + digits,
        ),
{
    let text = seq!['+'] + digits;
    assert(unsigned_digits(text) =~= digits);
    if digits.len() == 0 || digits[0] != '+' {
        assert(unsigned_digits(digits) == digits);
    }
    if port_number(text) is Some {
        assert forall|i: int| 0 <= i < digits.len() implies '0' <= #[trigger] digits[i] && digits[i]
            <= '9' by {
            assert(is_digit(unsigned_digits(text)[i]));
        }
    }
    if digits.len() > 0 && digits_value(digits) <= 65535 && (forall|i: int|
        0 <= i < digits.len() ==> '0' <= #[trigger] digits[i] && digits[i] <= '9') {
        assert forall|i: int| 0 <= i < digits.len() implies is_digit(#[trigger] digits[i]) by {}
    }
}

/// Zeros in front of a port, and a `+`, do not change it.
pub proof fn leading_zeros_do_not_count(zeros: nat, port: u16)
    ensures
        port_number(Seq::new(zeros, |i: int| '0') + decimal(port as nat)) == Some(port),
        port_number(seq!['+'] + (Seq::new(zeros, |i: int| '0') + decimal(port as nat))) == Some(
            port,
        ),
{
    let text = Seq::new(zeros, |i: int| '0') + decimal(port as nat);
    lemma_decimal(port as nat);
    lemma_zeros(zeros, decimal(port as nat));
    assert forall|i: int| 0 <= i < text.len() implies is_digit(#[trigger] text[i]) by {
        if i >= zeros {
            assert(is_digit(decimal(port as nat)[i - zeros]));
        }
    }
    assert(is_digit(text[0]));
    assert((seq!['+'] + text).skip(1) =~= text);
}

proof fn lemma_zeros(zeros: nat, digits: Seq<char>)
    ensures
        digits_value(Seq::new(zeros, |i: int| '0') + digits) == digits_value(digits),
    decreases zeros + digits.len(),
{
    let text = Seq::new(zeros, |i: int| '0') + digits;
    if digits.len() > 0 {
        lemma_zeros(zeros, digits.drop_last());
        assert(text.drop_last() =~= Seq::new(zeros, |i: int| '0') + digits.drop_last());
    } else if zeros > 0 {
        lemma_zeros((zeros - 1) as nat, digits);
        assert(text.drop_last() =~= Seq::new((zeros - 1) as nat, |i: int| '0') + digits);
        assert(text.last() == '0');
    }
}

} // verus!
