//! Decimal text for unsigned integers: the grammar that `str::parse` accepts
//! for unsigned types, and the digits that `Display` prints.

use vstd::prelude::*;

verus! {

/// Character codes of a byte string.
pub open spec fn byte_codes(s: Seq<u8>) -> Seq<int> {
    s.map_values(|b: u8| b as int)
}

/// Character codes of a string.
pub open spec fn char_codes(s: Seq<char>) -> Seq<int> {
    s.map_values(|c: char| c as int)
}

pub open spec fn is_digit_code(c: int) -> bool {
    48 <= c <= 57
}

pub open spec fn all_digit_codes(s: Seq<int>) -> bool {
    forall|i: int| 0 <= i < s.len() ==> is_digit_code(#[trigger] s[i])
}

/// The number that a string of decimal digits denotes.
pub open spec fn digits_value(s: Seq<int>) -> nat
    decreases s.len(),
{
    if s.len() == 0 {
        0
    } else {
        digits_value(s.drop_last()) * 10 + (s.last() - 48) as nat
    }
}

/// What remains after the optional leading `+`.
pub open spec fn unsigned_digits(s: Seq<int>) -> Seq<int> {
    if s.len() > 0 && s[0] == 43 {
        s.drop_first()
    } else {
        s
    }
}

/// The value `str::parse` gives for an unsigned type whose largest value is
/// `max`: an optional `+`, then one or more decimal digits, and a value that
/// fits; anything else is an error.
pub open spec fn parse_unsigned(s: Seq<int>, max: nat) -> Option<nat> {
    let d = unsigned_digits(s);
    if d.len() > 0 && all_digit_codes(d) && digits_value(d) <= max {
        Some(digits_value(d))
    } else {
        None
    }
}

/// The shortest decimal digits of `n`, as character codes.
pub open spec fn decimal_codes(n: nat) -> Seq<int>
    decreases n,
{
    if n < 10 {
        seq![(48 + n) as int]
    } else {
        decimal_codes(n / 10).push((48 + n % 10) as int)
    }
}

/// The shortest decimal digits of `n`, as bytes.
pub open spec fn decimal_bytes(n: nat) -> Seq<u8>
    decreases n,
{
    if n < 10 {
        seq![(48 + n) as u8]
    } else {
        decimal_bytes(n / 10).push((48 + n % 10) as u8)
    }
}

/// The shortest decimal digits of `n`, as characters.
pub open spec fn decimal_chars(n: nat) -> Seq<char> {
    decimal_bytes(n).map_values(|b: u8| b as char)
}

pub proof fn lemma_decimal_bytes_codes(n: nat)
    ensures
        byte_codes(decimal_bytes(n)) == decimal_codes(n),
        decimal_bytes(n).len() == decimal_codes(n).len(),
    decreases n,
{
    if n >= 10 {
        lemma_decimal_bytes_codes(n / 10);
        assert(byte_codes(decimal_bytes(n)) =~= decimal_codes(n));
    } else {
        assert(byte_codes(decimal_bytes(n)) =~= decimal_codes(n));
    }
}

pub proof fn lemma_decimal_chars_codes(n: nat)
    ensures
        char_codes(decimal_chars(n)) == decimal_codes(n),
{
    lemma_decimal_bytes_codes(n);
    assert(char_codes(decimal_chars(n)) =~= byte_codes(decimal_bytes(n)));
}

/// The digits of `n` are digits, there is at least one, and they denote `n`.
pub proof fn lemma_decimal_codes(n: nat)
    ensures
        decimal_codes(n).len() > 0,
        all_digit_codes(decimal_codes(n)),
        digits_value(decimal_codes(n)) == n,
        decimal_codes(n)[0] != 43,
    decreases n,
{
    if n >= 10 {
        lemma_decimal_codes(n / 10);
        let s = decimal_codes(n);
        assert(s.drop_last() =~= decimal_codes(n / 10));
        assert(s.last() - 48 == n % 10);
        assert(digits_value(s) == (n / 10) * 10 + n % 10);
        assert(n == (n / 10) * 10 + n % 10);
        assert(s[0] == decimal_codes(n / 10)[0]);
    } else {
        let s = decimal_codes(n);
        assert(s.drop_last() =~= Seq::<int>::empty());
        assert(digits_value(Seq::<int>::empty()) == 0);
        assert(s.last() == 48 + n);
    }
}

/// Reading back printed digits gives the number that was printed.
pub proof fn law_parse_reads_printed_digits(n: nat, max: nat)
    ensures
        parse_unsigned(decimal_codes(n), max) == (if n <= max { Some(n) } else { None::<nat> }),
{
    lemma_decimal_codes(n);
}

/// Appending digits never makes the value smaller.
pub proof fn lemma_digits_value_push(s: Seq<int>, c: int)
    requires
        is_digit_code(c),
    ensures
        digits_value(s.push(c)) == digits_value(s) * 10 + (c - 48),
        digits_value(s.push(c)) >= digits_value(s),
{
    assert(s.push(c).drop_last() =~= s);
}

/// Parses an unsigned decimal number whose value may not exceed `max`, as
/// `str::parse` does for the unsigned type of that maximum.
pub fn parse_unsigned_bytes(s: &[u8], max: u64) -> (r: Option<u64>)
    ensures
        r == (match parse_unsigned(byte_codes(s@), max as nat) {
            Some(v) => Some(v as u64),
            None => None::<u64>,
        }),
{
    let ghost codes = byte_codes(s@);
    let start: usize = if s.len() > 0 && s[0] == 43u8 { 1 } else { 0 };
    let ghost d = unsigned_digits(codes);
    assert(d =~= codes.subrange(start as int, codes.len() as int));
    if start >= s.len() {
        return None;
    }
    let mut acc: u64 = 0;
    let mut overflow = false;
    let mut i: usize = start;
    assert(codes.subrange(start as int, start as int) =~= Seq::<int>::empty());
    while i < s.len()
        invariant
            start <= i <= s.len(),
            codes == byte_codes(s@),
            codes.len() == s@.len(),
            !overflow ==> acc == digits_value(codes.subrange(start as int, i as int)) && acc <= max,
            overflow ==> digits_value(codes.subrange(start as int, i as int)) > max,
            all_digit_codes(codes.subrange(start as int, i as int)),
            d == codes.subrange(start as int, codes.len() as int),
            d == unsigned_digits(codes),
        decreases s.len() - i,
    {
        let b = s[i];
        if b < 48u8 || b > 57u8 {
            proof {
                assert(d[i - start] == codes[i as int]);
                assert(!is_digit_code(d[i - start]));
                assert(!all_digit_codes(d));
            }
            return None;
        }
        let ghost prev = codes.subrange(start as int, i as int);
        proof {
            assert(codes.subrange(start as int, i + 1) =~= prev.push(codes[i as int]));
            lemma_digits_value_push(prev, codes[i as int]);
        }
        if !overflow {
            let next: u128 = (acc as u128) * 10 + ((b - 48u8) as u128);
            if next > max as u128 {
                overflow = true;
            } else {
                acc = next as u64;
            }
        }
        i = i + 1;
    }
    assert(codes.subrange(start as int, s.len() as int) =~= d);
    if overflow {
        None
    } else {
        Some(acc)
    }
}

/// Parses an unsigned decimal number held in a string.
pub fn parse_unsigned_string(s: &String, max: u64) -> (r: Option<u64>)
    ensures
        r == (match parse_unsigned(char_codes(s@), max as nat) {
            Some(v) => Some(v as u64),
            None => None::<u64>,
        }),
{
    let st = s.as_str();
    if !st.is_ascii() {
        proof {
            let codes = char_codes(s@);
            let d = unsigned_digits(codes);
            assert(!vstd::utf8::is_ascii_chars(s@));
            assert(exists|k: int| 0 <= k < s@.len() && !('\0' <= #[trigger] s@[k] <= '\u{7f}'));
            let k = choose|k: int| 0 <= k < s@.len() && !('\0' <= #[trigger] s@[k] <= '\u{7f}');
            assert(codes[k] == s@[k] as int);
            assert(is_digit_code(codes[k]) ==> ('0' <= s@[k] && s@[k] <= '9'));
            assert(!is_digit_code(codes[k]));
            assert(codes[k] != 43);
            if codes.len() > 0 && codes[0] == 43 {
                assert(k > 0);
                assert(d[k - 1] == codes[k]);
            } else {
                assert(d[k] == codes[k]);
            }
        }
        return None;
    }
    let bytes = st.as_bytes();
    proof {
        vstd::string::is_ascii_spec_bytes(st);
        assert(byte_codes(bytes@) =~= char_codes(s@));
    }
    parse_unsigned_bytes(bytes, max)
}

/// Appends the decimal digits of `n` to `out`.
pub fn push_decimal(n: u64, out: &mut Vec<u8>)
    ensures
        final(out)@ == old(out)@ + decimal_bytes(n as nat),
    decreases n,
{
    if n >= 10 {
        push_decimal(n / 10, out);
    }
    let digit: u8 = (n % 10) as u8 + 48u8;
    out.push(digit);
    proof {
        if n >= 10 {
            assert(final(out)@ =~= old(out)@ + decimal_bytes(n as nat));
        } else {
            assert(final(out)@ =~= old(out)@ + decimal_bytes(n as nat));
        }
    }
}

/// The text of one decimal digit.
fn digit_text(d: u64) -> (t: &'static str)
    requires
        d < 10,
    ensures
        t@ == seq![((48 + d) as u8) as char],
{
    proof {
        reveal_strlit("0");
        reveal_strlit("1");
        reveal_strlit("2");
        reveal_strlit("3");
        reveal_strlit("4");
        reveal_strlit("5");
        reveal_strlit("6");
        reveal_strlit("7");
        reveal_strlit("8");
        reveal_strlit("9");
    }
    if d == 0 {
        "0"
    } else if d == 1 {
        "1"
    } else if d == 2 {
        "2"
    } else if d == 3 {
        "3"
    } else if d == 4 {
        "4"
    } else if d == 5 {
        "5"
    } else if d == 6 {
        "6"
    } else if d == 7 {
        "7"
    } else if d == 8 {
        "8"
    } else {
        "9"
    }
}

/// Appends the decimal digits of `n` to a string.
pub fn push_decimal_string(n: u64, out: &mut String)
    ensures
        final(out)@ == old(out)@ + decimal_chars(n as nat),
    decreases n,
{
    if n >= 10 {
        push_decimal_string(n / 10, out);
    }
    let digit = digit_text(n % 10);
    out.append(digit);
    proof {
        let b = decimal_bytes(n as nat);
        if n >= 10 {
            assert(b == decimal_bytes((n / 10) as nat).push((48 + n % 10) as u8));
            assert(decimal_chars(n as nat) =~= decimal_chars((n / 10) as nat).push(
                ((48 + n % 10) as u8) as char,
            ));
        } else {
            assert(decimal_chars(n as nat) =~= seq![((48 + n) as u8) as char]);
        }
        assert(final(out)@ =~= old(out)@ + decimal_chars(n as nat));
    }
}

/// The decimal digits of `n`, as `Display` prints an unsigned number.
pub fn decimal_string(n: u64) -> (s: String)
    ensures
        s@ == decimal_chars(n as nat),
{
    let mut s = String::new();
    push_decimal_string(n, &mut s);
    assert(s@ =~= decimal_chars(n as nat));
    s
}

pub open spec fn pow10(k: nat) -> nat
    decreases k,
{
    if k == 0 {
        1
    } else {
        10 * pow10((k - 1) as nat)
    }
}

/// A number below `10^k` has at most `k` digits.
pub proof fn lemma_decimal_len(n: nat, k: nat)
    requires
        k >= 1,
        n < pow10(k),
    ensures
        decimal_codes(n).len() <= k,
        decimal_bytes(n).len() <= k,
    decreases n,
{
    lemma_decimal_bytes_codes(n);
    if n >= 10 {
        if k == 1 {
            assert(pow10(1) == 10 * pow10(0));
        }
        assert(k >= 2);
        assert(n / 10 < pow10((k - 1) as nat));
        lemma_decimal_len(n / 10, (k - 1) as nat);
    }
}

/// A 32-bit number has at most ten digits.
pub proof fn lemma_decimal_len_u32(n: u32)
    ensures
        decimal_bytes(n as nat).len() <= 10,
        decimal_bytes(n as nat).len() >= 1,
{
    assert(pow10(10) == 10000000000) by {
        reveal_with_fuel(pow10, 11);
    }
    lemma_decimal_len(n as nat, 10);
    lemma_decimal_codes(n as nat);
}

} // verus!
