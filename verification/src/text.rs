//! Message texts: decimal numbers and concatenation, with the exact text stated.
use vstd::prelude::*;

verus! {

/// The character of a decimal digit.
pub open spec fn digit_char(d: nat) -> char {
    (('0' as int) + d) as char
}

/// The decimal notation of `n`, without leading zeros.
pub open spec fn decimal(n: nat) -> Seq<char>
    decreases n,
{
    if n < 10 {
        seq![digit_char(n)]
    } else {
        decimal(n / 10).push(digit_char(n % 10))
    }
}

fn digit_text(d: u64) -> (s: &'static str)
    requires
        d < 10,
    ensures
        s@ == seq![digit_char(d as nat)],
{
    proof {
        reveal_strlit("0");
        reveal_strlit("1");
        reveal_strlit("2");
        reveal_strlit("3");
        reveal_strlit("4");
        reveal_strlit("5");
        reveal_strlit("6");
        reveal_strlit("7");
        reveal_strlit("8");
        reveal_strlit("9");
    }
    if d == 0 {
        "0"
    } else if d == 1 {
        "1"
    } else if d == 2 {
        "2"
    } else if d == 3 {
        "3"
    } else if d == 4 {
        "4"
    } else if d == 5 {
        "5"
    } else if d == 6 {
        "6"
    } else if d == 7 {
        "7"
    } else if d == 8 {
        "8"
    } else {
        "9"
    }
}

/// Appends the decimal notation of `n` to `out`.
pub fn push_decimal(out: &mut String, n: u64)
    ensures
        final(out)@ == old(out)@ + decimal(n as nat),
    decreases n,
{
    if n >= 10 {
        push_decimal(out, n / 10);
    }
    let d = digit_text(n % 10);
    out.append(d);
    proof {
        if n >= 10 {
            assert(old(out)@ + decimal((n / 10) as nat) + d@ =~= old(out)@ + decimal(n as nat));
        }
    }
}

/// `before`, then the number, then `after`.
pub fn with_number(before: &str, n: u64, after: &str) -> (s: String)
    ensures
        s@ == before@ + decimal(n as nat) + after@,
{
    let mut s: String = String::from_str(before);
    push_decimal(&mut s, n);
    s.append(after);
    s
}

/// `before`, a number, `between`, another number, `after`.
pub fn with_numbers(before: &str, n: u64, between: &str, m: u64, after: &str) -> (s: String)
    ensures
        s@ == before@ + decimal(n as nat) + between@ + decimal(m as nat) + after@,
{
    let mut s: String = with_number(before, n, between);
    push_decimal(&mut s, m);
    s.append(after);
    s
}

/// `before`, then `middle`, then `after`.
pub fn with_text(before: &str, middle: &str, after: &str) -> (s: String)
    ensures
        s@ == before@ + middle@ + after@,
{
    let mut s: String = String::from_str(before);
    s.append(middle);
    s.append(after);
    s
}

/// Copies the characters of a text.
pub fn chars_of(s: &str) -> (r: Vec<char>)
    ensures
        r@ == s@,
{
    let n: usize = s.unicode_len();
    let mut r: Vec<char> = Vec::new();
    let mut i: usize = 0;
    while i < n
        invariant
            i <= n,
            n == s@.len(),
            r@ == s@.take(i as int),
        decreases n - i,
    {
        r.push(s.get_char(i));
        assert(s@.take(i + 1) =~= s@.take(i as int).push(s@[i as int]));
        i = i + 1;
    }
    assert(s@.take(n as int) =~= s@);
    r
}

/// The character of a hexadecimal digit.
pub open spec fn hex_char(d: nat) -> char {
    if d < 10 {
        digit_char(d)
    } else {
        (('a' as int) + d - 10) as char
    }
}

/// Bytes in hexadecimal notation, two digits each.
pub open spec fn hex(bytes: Seq<u8>) -> Seq<char>
    decreases bytes.len(),
{
    if bytes.len() == 0 {
        Seq::empty()
    } else {
        hex(bytes.drop_last()).push(hex_char(bytes.last() as nat / 16)).push(
            hex_char(bytes.last() as nat % 16),
        )
    }
}

fn hex_digit_text(d: u64) -> (s: &'static str)
    requires
        d < 16,
    ensures
        s@ == seq![hex_char(d as nat)],
{
    proof {
        reveal_strlit("a");
        reveal_strlit("b");
        reveal_strlit("c");
        reveal_strlit("d");
        reveal_strlit("e");
        reveal_strlit("f");
    }
    if d < 10 {
        digit_text(d)
    } else if d == 10 {
        "a"
    } else if d == 11 {
        "b"
    } else if d == 12 {
        "c"
    } else if d == 13 {
        "d"
    } else if d == 14 {
        "e"
    } else {
        "f"
    }
}

/// Bytes in hexadecimal notation.
pub fn hex_text(bytes: &[u8]) -> (s: String)
    ensures
        s@ == hex(bytes@),
{
    let mut s: String = String::from_str("");
    proof {
        reveal_strlit("");
    }
    let mut i: usize = 0;
    while i < bytes.len()
        invariant
            i <= bytes@.len(),
            s@ == hex(bytes@.take(i as int)),
        decreases bytes@.len() - i,
    {
        let b: u64 = bytes[i] as u64;
        s.append(hex_digit_text(b / 16));
        s.append(hex_digit_text(b % 16));
        proof {
            let next = bytes@.take(i + 1);
            assert(next.drop_last() =~= bytes@.take(i as int));
            assert(s@ =~= hex(next));
        }
        i = i + 1;
    }
    assert(bytes@.take(bytes@.len() as int) =~= bytes@);
    s
}

/// The number that decimal digits stand for, the last digit being the ones.
pub open spec fn decimal_value(s: Seq<char>) -> int
    decreases s.len(),
{
    if s.len() == 0 {
        0
    } else {
        10 * decimal_value(s.drop_last()) + ((s.last() as int) - ('0' as int))
    }
}

/// A number in decimal notation is made of digits, starts with a zero only where
/// it is zero, and reads back as the number.
pub proof fn law_decimal_is_read_back(n: nat)
    ensures
        decimal_value(decimal(n)) == n,
        decimal(n).len() > 0,
        forall|i: int| 0 <= i < decimal(n).len() ==> '0' <= #[trigger] decimal(n)[i] <= '9',
        decimal(n)[0] == '0' ==> n == 0,
        n == 0 ==> decimal(n).len() == 1,
    decreases n,
{
    if n < 10 {
        assert(decimal(n).drop_last() =~= Seq::<char>::empty());
        assert(decimal_value(Seq::<char>::empty()) == 0);
    } else {
        law_decimal_is_read_back(n / 10);
        assert(decimal(n).drop_last() =~= decimal(n / 10));
        assert(decimal(n)[0] == decimal(n / 10)[0]);
        assert forall|i: int| 0 <= i < decimal(n).len() implies '0' <= #[trigger] decimal(n)[i]
            <= '9' by {
            if i < decimal(n / 10).len() {
                assert(decimal(n)[i] == decimal(n / 10)[i]);
            }
        }
    }
}

/// Different numbers have different notations.
pub proof fn law_decimal_tells_numbers_apart(n: nat, m: nat)
    requires
        decimal(n) == decimal(m),
    ensures
        n == m,
{
    law_decimal_is_read_back(n);
    law_decimal_is_read_back(m);
}

/// The value of a hexadecimal digit, a letter being small.
pub open spec fn hex_value(c: char) -> int {
    if '0' <= c <= '9' {
        (c as int) - ('0' as int)
    } else if 'a' <= c <= 'f' {
        (c as int) - ('a' as int) + 10
    } else {
        -1
    }
}

/// The digits of byte `i` stand at `2 * i`, the higher one first.
pub proof fn law_hex_is_read_back(bytes: Seq<u8>, i: int)
    requires
        0 <= i < bytes.len(),
    ensures
        hex(bytes).len() == 2 * bytes.len(),
        0 <= hex_value(hex(bytes)[2 * i]) < 16,
        0 <= hex_value(hex(bytes)[2 * i + 1]) < 16,
        16 * hex_value(hex(bytes)[2 * i]) + hex_value(hex(bytes)[2 * i + 1]) == bytes[i],
    decreases bytes.len(),
{
    let front = bytes.drop_last();
    if front.len() > 0 {
        law_hex_is_read_back(front, if i < front.len() {
            i
        } else {
            0
        });
    } else {
        assert(hex(front) =~= Seq::<char>::empty());
    }
    if i < front.len() {
        assert(hex(bytes)[2 * i] == hex(front)[2 * i]);
        assert(hex(bytes)[2 * i + 1] == hex(front)[2 * i + 1]);
    }
}

} // verus!
