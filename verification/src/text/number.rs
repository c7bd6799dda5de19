use crate::text::class;
use crate::text::compose;
use vstd::prelude::*;

verus! {

/// The decimal digit of a number below ten.
pub open spec fn digit(n: nat) -> char {
    (48 + n) as char
}

/// `n` in decimal notation, without leading zeros.
pub open spec fn decimal(n: nat) -> Seq<char>
    decreases n,
{
    if n < 10 {
        seq![digit(n)]
    } else {
        decimal(n / 10).push(digit(n % 10))
    }
}

/// Writes a number in decimal notation.
pub fn to_decimal(n: u64) -> (r: String)
    ensures
        r@ == decimal(n as nat),
    decreases n,
{
    let c: char = (48 + (n % 10) as u8) as char;
    let mut r = if n < 10 {
        String::new()
    } else {
        to_decimal(n / 10)
    };
    let ghost before = r@;
    r.push(c);
    if n < 10 {
        assert(r@ =~= seq![digit(n as nat)]);
    }
    r
}

/// A whole number in decimal notation, with a minus sign if it is negative.
pub open spec fn signed(n: int) -> Seq<char> {
    if n < 0 {
        "-"@ + decimal((-n) as nat)
    } else {
        decimal(n as nat)
    }
}

/// Writes a whole number in decimal notation.
pub fn to_signed(n: i64) -> (r: String)
    ensures
        r@ == signed(n as int),
{
    if n < 0 {
        let size: u64 = if n == i64::MIN {
            9223372036854775808
        } else {
            (-n) as u64
        };
        let digits = to_decimal(size);
        compose::concat("-", digits.as_str())
    } else {
        to_decimal(n as u64)
    }
}

/// The number that a text of decimal digits denotes.
pub open spec fn value(s: Seq<char>) -> nat
    decreases s.len(),
{
    if s.len() == 0 {
        0
    } else {
        value(s.drop_last()) * 10 + (s.last() as u32 - 48) as nat
    }
}

/// Whether `s` is made of decimal digits, at least one.
pub open spec fn digits_only(s: Seq<char>) -> bool {
    s.len() > 0 && forall|i: int| 0 <= i < s.len() ==> class::ascii_digit(#[trigger] s[i])
}

/// `s` without a leading plus sign.
pub open spec fn unsigned_part(s: Seq<char>) -> Seq<char> {
    if s.len() > 0 && s[0] == '+' {
        s.skip(1)
    } else {
        s
    }
}

/// The number up to `max` that `s` denotes: decimal digits, after an optional plus sign.
pub open spec fn number(s: Seq<char>, max: nat) -> Option<nat> {
    let t = unsigned_part(s);
    if digits_only(t) && value(t) <= max {
        Some(value(t))
    } else {
        None
    }
}

proof fn lemma_value_grows(s: Seq<char>, n: int)
    requires
        digits_only(s),
        0 <= n <= s.len(),
    ensures
        value(s.take(n)) <= value(s),
    decreases s.len() - n,
{
    if n < s.len() {
        lemma_value_grows(s, n + 1);
        assert(s.take(n + 1).drop_last() =~= s.take(n));
        assert(s.take(n + 1).last() == s[n]);
    } else {
        assert(s.take(n) =~= s);
    }
}

/// Reads a number up to `max`.
pub fn parse_unsigned(s: &str, max: u64) -> (r: Option<u64>)
    ensures
        match r {
            Some(n) => number(s@, max as nat) == Some(n as nat),
            None => number(s@, max as nat) is None,
        },
{
    let all = compose::chars_of(s);
    let ghost t = unsigned_part(s@);
    let start: usize = if all.len() > 0 && all[0] == '+' {
        1
    } else {
        0
    };
    assert(t =~= s@.skip(start as int));
    if start == all.len() {
        return None;
    }
    let mut n: u64 = 0;
    let mut i: usize = start;
    assert(t.take(0) =~= Seq::<char>::empty());
    while i < all.len()
        invariant
            start <= i <= all@.len(),
            all@ == s@,
            t == unsigned_part(s@),
            t == s@.skip(start as int),
            t.len() > 0,
            n <= max,
            n == value(t.take(i - start)),
            forall|k: int| 0 <= k < i - start ==> class::ascii_digit(#[trigger] t[k]),
        decreases all@.len() - i,
    {
        let c: char = all[i];
        assert(t[i - start] == c);
        if !class::is_ascii_digit(c) {
            return None;
        }
        let d: u64 = (c as u32 - 48) as u64;
        let next: u128 = n as u128 * 10 + d as u128;
        proof {
            assert(t.take(i - start + 1).drop_last() =~= t.take(i - start));
            assert(t.take(i - start + 1).last() == c);
            assert(next == value(t.take(i - start + 1)));
            if next > max && digits_only(t) {
                lemma_value_grows(t, i - start + 1);
            }
        }
        if next > max as u128 {
            return None;
        }
        n = next as u64;
        i += 1;
    }
    assert(t.take(i - start) =~= t);
    Some(n)
}

/// The decimal notation of a number consists of digits and denotes the number.
pub proof fn lemma_decimal_value(n: nat)
    ensures
        digits_only(decimal(n)),
        value(decimal(n)) == n,
    decreases n,
{
    if n < 10 {
        assert(decimal(n).drop_last() =~= Seq::<char>::empty());
        assert(value(decimal(n).drop_last()) == 0);
    } else {
        lemma_decimal_value(n / 10);
        assert(decimal(n).drop_last() =~= decimal(n / 10));
        assert forall|i: int| 0 <= i < decimal(n).len() implies class::ascii_digit(
            #[trigger] decimal(n)[i],
        ) by {
            if i < decimal(n / 10).len() {
                assert(decimal(n)[i] == decimal(n / 10)[i]);
            }
        }
    }
}

/// Reading the decimal notation of a number gives the number back.
pub proof fn parsing_inverts_printing(n: nat, max: nat)
    requires
        n <= max,
    ensures
        number(decimal(n), max) == Some(n),
{
    lemma_decimal_value(n);
    assert(class::ascii_digit(decimal(n)[0]));
    assert(unsigned_part(decimal(n)) == decimal(n));
}

/// The hexadecimal digit of a number below sixteen, with small letters.
pub open spec fn hex_digit(n: nat) -> char {
    if n < 10 {
        (48 + n) as char
    } else {
        (87 + n) as char
    }
}

/// `n` in hexadecimal notation, in at least `width` digits.
pub open spec fn hex(n: nat, width: nat) -> Seq<char>
    decreases n, width,
{
    if n == 0 && width == 0 {
        Seq::empty()
    } else {
        hex(
            n / 16,
            if width == 0 {
                0
            } else {
                (width - 1) as nat
            },
        ).push(hex_digit(n % 16))
    }
}

/// Writes a number in hexadecimal notation, in at least `width` digits.
pub fn to_hex(n: u64, width: u64) -> (r: String)
    ensures
        r@ == hex(n as nat, width as nat),
    decreases n, width,
{
    if n == 0 && width == 0 {
        String::new()
    } else {
        let d: u8 = (n % 16) as u8;
        let c: char = if d < 10 {
            (48 + d) as char
        } else {
            (87 + d) as char
        };
        let w: u64 = if width == 0 {
            0
        } else {
            width - 1
        };
        let mut r = to_hex(n / 16, w);
        r.push(c);
        r
    }
}

/// The numbers that `width` hexadecimal digits can denote lie below this one.
pub open spec fn hex_bound(width: nat) -> nat
    decreases width,
{
    if width == 0 {
        1
    } else {
        16 * hex_bound((width - 1) as nat)
    }
}

/// A number that fits into the width has a notation of exactly that width, in digits and small
/// letters.
pub proof fn hex_fills_width(n: nat, width: nat)
    requires
        n < hex_bound(width),
    ensures
        hex(n, width).len() == width,
        forall|i: int|
            0 <= i < width ==> class::ascii_digit(#[trigger] hex(n, width)[i]) || 'a' <= hex(
                n,
                width,
            )[i] <= 'f',
    decreases width,
{
    if width > 0 {
        let w = (width - 1) as nat;
        hex_fills_width(n / 16, w);
        assert(hex(n, width) == hex(n / 16, w).push(hex_digit(n % 16)));
        assert forall|i: int| 0 <= i < width implies class::ascii_digit(#[trigger] hex(n, width)[i])
            || 'a' <= hex(n, width)[i] <= 'f' by {
            if i < w {
                assert(hex(n, width)[i] == hex(n / 16, w)[i]);
            }
        }
    }
}

} // verus!
