//! Lowercase hexadecimal rendering and parsing of 32-bit words, and the
//! two's-complement reinterpretations between `i32` and `u32`, shared by
//! the public identifier codecs.

use vstd::prelude::*;
use vstd::string::StrSliceExecFns;
use vstd::string::StringExecFns;

verus! {

/// Parsing an identifier string can fail: it must be one or more
/// hexadecimal digits (an optional leading `+` is tolerated) whose value
/// fits in 32 bits.
#[derive(Debug, PartialEq, Eq, Clone, Copy, Structural)]
pub struct FormatError;

pub open spec fn hex_char_of(d: int) -> char {
    if d == 0 {
        '0'
    } else if d == 1 {
        '1'
    } else if d == 2 {
        '2'
    } else if d == 3 {
        '3'
    } else if d == 4 {
        '4'
    } else if d == 5 {
        '5'
    } else if d == 6 {
        '6'
    } else if d == 7 {
        '7'
    } else if d == 8 {
        '8'
    } else if d == 9 {
        '9'
    } else if d == 10 {
        'a'
    } else if d == 11 {
        'b'
    } else if d == 12 {
        'c'
    } else if d == 13 {
        'd'
    } else if d == 14 {
        'e'
    } else {
        'f'
    }
}

/// The numeric value of a hexadecimal digit, in either case; -1 for any
/// other character.
pub open spec fn hex_val_of(c: char) -> int {
    let v = c as int;
    if 48 <= v <= 57 {
        v - 48
    } else if 97 <= v <= 102 {
        v - 87
    } else if 65 <= v <= 70 {
        v - 55
    } else {
        -1
    }
}

/// The digits of `n` in base 16, most significant first, no leading
/// zeros (a single `'0'` for zero itself).
pub open spec fn hex_seq_of(n: int) -> Seq<char>
    decreases n,
{
    if n < 16 {
        seq![hex_char_of(n)]
    } else {
        hex_seq_of(n / 16).push(hex_char_of(n % 16))
    }
}

pub open spec fn is_hex_digit(c: char) -> bool {
    hex_val_of(c) >= 0
}

pub open spec fn all_hex_digits(s: Seq<char>) -> bool {
    forall|i: int| 0 <= i < s.len() ==> is_hex_digit(#[trigger] s[i])
}

/// The value of a digit string, most significant digit first.
pub open spec fn hex_value_of(s: Seq<char>) -> int
    decreases s.len(),
{
    if s.len() == 0 {
        0
    } else {
        hex_value_of(s.drop_last()) * 16 + hex_val_of(s.last())
    }
}

/// The digit portion of a numeral: everything after one tolerated
/// leading `+`.
pub open spec fn numeral_digits(s: Seq<char>) -> Seq<char> {
    if s.len() > 0 && s[0] == '+' {
        s.drop_first()
    } else {
        s
    }
}

/// What parsing yields: the value of the digits when they are non-empty,
/// all hexadecimal and fit in 32 bits, nothing otherwise.
pub open spec fn parse_hex_spec(s: Seq<char>) -> Option<u32> {
    let d = numeral_digits(s);
    if d.len() > 0 && all_hex_digits(d) && hex_value_of(d) < 0x1_0000_0000 {
        Some(hex_value_of(d) as u32)
    } else {
        None
    }
}

pub open spec fn i32_as_u32_spec(x: i32) -> u32 {
    if x >= 0 {
        x as u32
    } else {
        (x + 0x1_0000_0000) as u32
    }
}

pub open spec fn u32_as_i32_spec(y: u32) -> i32 {
    if y < 0x8000_0000 {
        y as i32
    } else {
        (y - 0x1_0000_0000) as i32
    }
}

pub fn i32_to_u32(x: i32) -> (r: u32)
    ensures
        r == i32_as_u32_spec(x),
{
    if x >= 0 {
        x as u32
    } else {
        ((x as i64) + 0x1_0000_0000) as u32
    }
}

pub fn u32_to_i32(y: u32) -> (r: i32)
    ensures
        r == u32_as_i32_spec(y),
{
    if y < 0x8000_0000 {
        y as i32
    } else {
        ((y as i64) - 0x1_0000_0000) as i32
    }
}

/// The two reinterpretations are mutually inverse.
pub proof fn lemma_i32_u32_round_trip(x: i32)
    ensures
        u32_as_i32_spec(i32_as_u32_spec(x)) == x,
{
}

proof fn lemma_hex_value_nonneg(s: Seq<char>)
    requires
        all_hex_digits(s),
    ensures
        hex_value_of(s) >= 0,
    decreases s.len(),
{
    if s.len() > 0 {
        assert(all_hex_digits(s.drop_last())) by {
            assert(forall|i: int|
                0 <= i < s.drop_last().len() ==> s.drop_last()[i] == #[trigger] s[i]);
        }
        lemma_hex_value_nonneg(s.drop_last());
    }
}

/// The rendered digits of `n` are hexadecimal digits, start with
/// something other than `+`, and evaluate back to `n`.
proof fn lemma_hex_seq_of_value(n: int)
    requires
        n >= 0,
    ensures
        hex_seq_of(n).len() > 0,
        all_hex_digits(hex_seq_of(n)),
        hex_seq_of(n)[0] != '+',
        hex_value_of(hex_seq_of(n)) == n,
    decreases n,
{
    if n < 16 {
        assert(hex_value_of(seq![hex_char_of(n)].drop_last()) == 0);
    } else {
        lemma_hex_seq_of_value(n / 16);
        let prev = hex_seq_of(n / 16);
        let whole = prev.push(hex_char_of(n % 16));
        assert(whole.drop_last() =~= prev);
        assert(whole.last() == hex_char_of(n % 16));
        assert(whole[0] == prev[0]);
        assert(all_hex_digits(whole)) by {
            assert(forall|i: int| 0 <= i < prev.len() ==> whole[i] == #[trigger] prev[i]);
            assert(is_hex_digit(whole[whole.len() - 1]));
        }
    }
}

/// Rendering then parsing gives the value back: the codec's hex layer
/// round-trips for every 32-bit word.
pub proof fn lemma_parse_hex_of_render(y: u32)
    ensures
        parse_hex_spec(hex_seq_of(y as int)) == Some(y),
{
    lemma_hex_seq_of_value(y as int);
    let s = hex_seq_of(y as int);
    assert(numeral_digits(s) == s);
}

fn push_hex_digit(s: &mut String, d: u32)
    requires
        d < 16,
    ensures
        final(s)@ == old(s)@ + seq![hex_char_of(d as int)],
{
    proof {
        reveal_strlit("0");
        reveal_strlit("1");
        reveal_strlit("2");
        reveal_strlit("3");
        reveal_strlit("4");
        reveal_strlit("5");
        reveal_strlit("6");
        reveal_strlit("7");
        reveal_strlit("8");
        reveal_strlit("9");
        reveal_strlit("a");
        reveal_strlit("b");
        reveal_strlit("c");
        reveal_strlit("d");
        reveal_strlit("e");
        reveal_strlit("f");
    }
    if d == 0 {
        s.append("0");
    } else if d == 1 {
        s.append("1");
    } else if d == 2 {
        s.append("2");
    } else if d == 3 {
        s.append("3");
    } else if d == 4 {
        s.append("4");
    } else if d == 5 {
        s.append("5");
    } else if d == 6 {
        s.append("6");
    } else if d == 7 {
        s.append("7");
    } else if d == 8 {
        s.append("8");
    } else if d == 9 {
        s.append("9");
    } else if d == 10 {
        s.append("a");
    } else if d == 11 {
        s.append("b");
    } else if d == 12 {
        s.append("c");
    } else if d == 13 {
        s.append("d");
    } else if d == 14 {
        s.append("e");
    } else {
        s.append("f");
    }
    proof {
        assert(s@ =~= old(s)@ + seq![hex_char_of(d as int)]);
    }
}

fn push_hex(s: &mut String, n: u32)
    ensures
        final(s)@ == old(s)@ + hex_seq_of(n as int),
    decreases n,
{
    if n < 16 {
        push_hex_digit(s, n);
        proof {
            assert(old(s)@ + seq![hex_char_of(n as int)] =~= old(s)@ + hex_seq_of(n as int));
        }
    } else {
        push_hex(s, n / 16);
        push_hex_digit(s, n % 16);
        proof {
            assert((old(s)@ + hex_seq_of((n / 16) as int)) + seq![hex_char_of((n % 16) as int)]
                =~= old(s)@ + hex_seq_of(n as int));
        }
    }
}

/// Render a 32-bit word as lowercase hexadecimal without leading zeros.
pub fn to_hex(y: u32) -> (s: String)
    ensures
        s@ == hex_seq_of(y as int),
{
    let mut s = String::new();
    push_hex(&mut s, y);
    proof {
        assert(s@ =~= hex_seq_of(y as int));
    }
    s
}

fn hex_digit_value(c: char) -> (v: Option<u32>)
    ensures
        match v {
            Some(d) => hex_val_of(c) == d as int && d < 16,
            None => hex_val_of(c) < 0,
        },
{
    if '0' <= c && c <= '9' {
        Some(c as u32 - 48)
    } else if 'a' <= c && c <= 'f' {
        Some(c as u32 - 87)
    } else if 'A' <= c && c <= 'F' {
        Some(c as u32 - 55)
    } else {
        None
    }
}

/// Parse a hexadecimal numeral as `u32`, as specified by
/// `parse_hex_spec`.
pub fn parse_hex(s: &str) -> (r: Option<u32>)
    ensures
        r == parse_hex_spec(s@),
{
    let n = s.unicode_len();
    let start: usize = if n > 0 && s.get_char(0) == '+' {
        1
    } else {
        0
    };
    if n == start {
        assert(numeral_digits(s@).len() == 0);
        return None;
    }
    let ghost digits = numeral_digits(s@);
    proof {
        if start == 1 {
            assert(digits =~= s@.drop_first());
        } else {
            assert(digits =~= s@);
        }
    }
    let mut acc: u64 = 0;
    let mut over: bool = false;
    let mut i: usize = start;
    proof {
        assert(digits.subrange(0, 0) =~= Seq::<char>::empty());
    }
    while i < n
        invariant
            start <= i <= n,
            n == s@.len(),
            start == 1 ==> s@.len() > 0 && s@[0] == '+',
            start == 0 || start == 1,
            digits == numeral_digits(s@),
            digits.len() == n - start,
            forall|j: int| 0 <= j < digits.len() ==> digits[j] == s@[j + start],
            all_hex_digits(digits.subrange(0, i - start)),
            !over ==> acc < 0x1_0000_0000 && acc as int == hex_value_of(
                digits.subrange(0, i - start),
            ),
            over ==> hex_value_of(digits.subrange(0, i - start)) >= 0x1_0000_0000,
        decreases n - i,
    {
        let c = s.get_char(i);
        let ghost prefix = digits.subrange(0, i - start);
        let ghost prefix2 = digits.subrange(0, i + 1 - start);
        proof {
            assert(prefix2.drop_last() =~= prefix);
            assert(prefix2.last() == s@[i as int]);
            lemma_hex_value_nonneg(prefix);
        }
        match hex_digit_value(c) {
            Some(d) => {
                if !over {
                    if acc >= 0x1000_0000 {
                        over = true;
                        proof {
                            assert(hex_value_of(prefix2) == hex_value_of(prefix) * 16 + d);
                        }
                    } else {
                        acc = acc * 16 + d as u64;
                    }
                } else {
                    proof {
                        assert(hex_value_of(prefix2) == hex_value_of(prefix) * 16 + d);
                        assert(hex_value_of(prefix) * 16 >= 0x1_0000_0000 * 16) by (nonlinear_arith)
                            requires
                                hex_value_of(prefix) >= 0x1_0000_0000,
                        ;
                    }
                }
            },
            None => {
                assert(!is_hex_digit(digits[i - start]));
                return None;
            },
        }
        i += 1;
    }
    proof {
        assert(digits.subrange(0, n - start) =~= digits);
    }
    if over {
        None
    } else {
        Some(acc as u32)
    }
}

} // verus!
