use vstd::prelude::*;

verus! {

/// The character of the decimal digit `d`.
pub open spec fn digit_char(d: nat) -> char {
    if d == 0 { '0' }
    else if d == 1 { '1' }
    else if d == 2 { '2' }
    else if d == 3 { '3' }
    else if d == 4 { '4' }
    else if d == 5 { '5' }
    else if d == 6 { '6' }
    else if d == 7 { '7' }
    else if d == 8 { '8' }
    else { '9' }
}

/// The decimal digits of `n`, most significant first, without leading zeros.
pub open spec fn decimal_digits(n: nat) -> Seq<char>
    decreases n,
{
    if n < 10 {
        seq![digit_char(n)]
    } else {
        decimal_digits(n / 10).push(digit_char(n % 10))
    }
}

/// How `{}` formats the integer `n`: a `-` before the digits of a negative number.
pub open spec fn decimal(n: int) -> Seq<char> {
    if n < 0 {
        seq!['-'] + decimal_digits((-n) as nat)
    } else {
        decimal_digits(n as nat)
    }
}

/// The number that a string of decimal digits, most significant first, stands for.
pub open spec fn digits_value(s: Seq<char>) -> int
    decreases s.len(),
{
    if s.len() == 0 {
        0
    } else {
        digits_value(s.drop_last()) * 10 + (s.last() as int - '0' as int)
    }
}

proof fn lemma_digit_char(d: nat)
    requires
        d < 10,
    ensures
        digit_char(d) as int - '0' as int == d,
        '0' <= digit_char(d) <= '9',
        d != 0 ==> digit_char(d) != '0',
{
    assert('0' as int == 48);
    if d == 0 {} else if d == 1 { assert('1' as int == 49); } else if d == 2 { assert('2' as int == 50); }
    else if d == 3 { assert('3' as int == 51); } else if d == 4 { assert('4' as int == 52); }
    else if d == 5 { assert('5' as int == 53); } else if d == 6 { assert('6' as int == 54); }
    else if d == 7 { assert('7' as int == 55); } else if d == 8 { assert('8' as int == 56); }
    else { assert('9' as int == 57); }
}

/// The decimal digits of `n` are digits, start with a nonzero digit unless `n` is 0,
/// and read back as `n`.
pub proof fn lemma_decimal_digits(n: nat)
    ensures
        decimal_digits(n).len() >= 1,
        forall|i: int| 0 <= i < decimal_digits(n).len() ==> '0' <= #[trigger] decimal_digits(n)[i] <= '9',
        n != 0 ==> decimal_digits(n)[0] != '0',
        digits_value(decimal_digits(n)) == n,
    decreases n,
{
    lemma_digit_char(n % 10);
    if n < 10 {
        assert(decimal_digits(n) == seq![digit_char(n)]);
        assert(seq![digit_char(n)].drop_last() =~= Seq::<char>::empty());
        assert(n % 10 == n);
        assert(digits_value(Seq::<char>::empty()) == 0);
        assert(digits_value(decimal_digits(n)) == digits_value(Seq::<char>::empty()) * 10 + (digit_char(n) as int - '0' as int));
    } else {
        lemma_decimal_digits(n / 10);
        let d = decimal_digits(n);
        let p = decimal_digits(n / 10);
        assert(d.drop_last() =~= p);
        assert(d.last() == digit_char(n % 10));
        assert(digits_value(d) == digits_value(p) * 10 + (digit_char(n % 10) as int - '0' as int));
        assert((n / 10) * 10 + n % 10 == n);
        assert forall|i: int| 0 <= i < d.len() implies '0' <= #[trigger] d[i] <= '9' by {
            if i < p.len() {
                assert(d[i] == p[i]);
            }
        }
        assert(d[0] == p[0]);
    }
}

/// How an integer is written: a `-` before the digits of its magnitude when it is
/// negative, and the digits read back as the magnitude.
pub proof fn lemma_decimal(n: int)
    ensures
        n < 0 ==> decimal(n)[0] == '-' && decimal(n).drop_first() == decimal_digits((-n) as nat)
            && digits_value(decimal(n).drop_first()) == -n,
        n >= 0 ==> digits_value(decimal(n)) == n && decimal(n)[0] != '-',
{
    if n < 0 {
        lemma_decimal_digits((-n) as nat);
        assert(decimal(n).drop_first() =~= decimal_digits((-n) as nat));
    } else {
        lemma_decimal_digits(n as nat);
    }
}

fn digit_str(d: u64) -> (s: &'static str)
    requires
        d < 10,
    ensures
        s@ == seq![digit_char(d as nat)],
{
    proof {
        reveal_strlit("0");
        reveal_strlit("1");
        reveal_strlit("2");
        reveal_strlit("3");
        reveal_strlit("4");
        reveal_strlit("5");
        reveal_strlit("6");
        reveal_strlit("7");
        reveal_strlit("8");
        reveal_strlit("9");
    }
    if d == 0 { "0" }
    else if d == 1 { "1" }
    else if d == 2 { "2" }
    else if d == 3 { "3" }
    else if d == 4 { "4" }
    else if d == 5 { "5" }
    else if d == 6 { "6" }
    else if d == 7 { "7" }
    else if d == 8 { "8" }
    else { "9" }
}

fn append_digits(s: &mut String, n: u64)
    ensures
        final(s)@ == old(s)@ + decimal_digits(n as nat),
    decreases n,
{
    if n >= 10 {
        append_digits(s, n / 10);
    }
    s.append(digit_str(n % 10));
}

/// Appends `n` in decimal to `s`.
pub fn append_decimal(s: &mut String, n: i64)
    ensures
        final(s)@ == old(s)@ + decimal(n as int),
{
    if n < 0 {
        s.append("-");
        proof {
            reveal_strlit("-");
        }
        // -(i64::MIN) does not fit an i64, but it fits a u64
        let magnitude: u64 = if n == i64::MIN { 9223372036854775808u64 } else { (-n) as u64 };
        append_digits(s, magnitude);
    } else {
        append_digits(s, n as u64);
    }
}

/// `prefix` followed by `n` in decimal.
pub fn with_decimal(prefix: &str, n: i64) -> (res: String)
    ensures
        res@ == prefix@ + decimal(n as int),
{
    let mut res = prefix.to_owned();
    append_decimal(&mut res, n);
    res
}

} // verus!
