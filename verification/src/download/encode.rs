use crate::text::compose;
use vstd::prelude::*;
use vstd::utf8;

verus! {

/// Whether a character stands for itself in the path of an address.
pub open spec fn plain(c: char) -> bool {
    'A' <= c <= 'Z' || 'a' <= c <= 'z' || '0' <= c <= '9' || c == '-' || c == '_' || c == '.' || c
        == '/' || c == '~'
}

/// The hexadecimal digit of a number below sixteen, with capital letters.
pub open spec fn capital_digit(n: int) -> char {
    if n < 10 {
        (48 + n) as char
    } else {
        (55 + n) as char
    }
}

/// A byte as a percent sign and two digits.
pub open spec fn percent(b: u8) -> Seq<char> {
    seq!['%', capital_digit(b as int / 16), capital_digit(b as int % 16)]
}

/// Bytes, each as a percent sign and two digits.
pub open spec fn percents(bytes: Seq<u8>) -> Seq<char>
    decreases bytes.len(),
{
    if bytes.len() == 0 {
        Seq::empty()
    } else {
        percent(bytes[0]) + percents(bytes.skip(1))
    }
}

/// A path as it is written in an address: what does not stand for itself is written byte for byte
/// in its eight-bit encoding.
pub open spec fn encoded(s: Seq<char>) -> Seq<char>
    decreases s.len(),
{
    if s.len() == 0 {
        Seq::empty()
    } else if plain(s[0]) {
        seq![s[0]] + encoded(s.skip(1))
    } else {
        percents(utf8::encode_scalar(s[0] as u32)) + encoded(s.skip(1))
    }
}

/// The number that a hexadecimal digit with capital letters denotes.
pub open spec fn digit_value(c: char) -> int {
    if c <= '9' {
        c as int - 48
    } else {
        c as int - 55
    }
}

/// The bytes that the path of an address denotes.
pub open spec fn decoded(s: Seq<char>) -> Seq<u8>
    decreases s.len(),
{
    if s.len() == 0 {
        Seq::empty()
    } else if s[0] == '%' && s.len() >= 3 {
        seq![(digit_value(s[1]) * 16 + digit_value(s[2])) as u8] + decoded(s.skip(3))
    } else {
        seq![s[0] as u8] + decoded(s.skip(1))
    }
}

fn capital_digit_of(n: u8) -> (r: char)
    requires
        n < 16,
    ensures
        r == capital_digit(n as int),
{
    if n < 10 {
        (48 + n) as char
    } else {
        (55 + n) as char
    }
}

fn push_percents(out: &mut String, bytes: &[u8])
    ensures
        final(out)@ == old(out)@ + percents(bytes@),
{
    let mut i: usize = 0;
    let ghost before = out@;
    assert(bytes@.skip(0) =~= bytes@);
    while i < bytes.len()
        invariant
            i <= bytes@.len(),
            before + percents(bytes@) == out@ + percents(bytes@.skip(i as int)),
        decreases bytes@.len() - i,
    {
        let b: u8 = bytes[i];
        let ghost rest = bytes@.skip(i as int);
        let ghost so_far = out@;
        assert(rest[0] == b);
        assert(rest.skip(1) =~= bytes@.skip(i + 1));
        out.push('%');
        out.push(capital_digit_of(b / 16));
        out.push(capital_digit_of(b % 16));
        assert(out@ =~= so_far + percent(b));
        assert(so_far + percents(rest) =~= out@ + percents(rest.skip(1)));
        i += 1;
    }
    assert(percents(bytes@.skip(i as int)) =~= Seq::<char>::empty());
    assert(out@ =~= before + percents(bytes@));
}

/// A path as it is written in an address.
pub fn urlencoding_path(path: &str) -> (r: String)
    ensures
        r@ == encoded(path@),
{
    let cs = compose::chars_of(path);
    let mut out = String::new();
    let mut i: usize = 0;
    assert(path@.skip(0) =~= path@);
    assert(out@ + encoded(path@) =~= encoded(path@));
    while i < cs.len()
        invariant
            i <= cs@.len(),
            cs@ == path@,
            encoded(path@) == out@ + encoded(path@.skip(i as int)),
        decreases cs@.len() - i,
    {
        let c: char = cs[i];
        let ghost rest = path@.skip(i as int);
        let ghost so_far = out@;
        assert(rest[0] == c);
        assert(rest.skip(1) =~= path@.skip(i + 1));
        if ('A' <= c && c <= 'Z') || ('a' <= c && c <= 'z') || ('0' <= c && c <= '9') || c == '-'
            || c == '_' || c == '.' || c == '/' || c == '~' {
            out.push(c);
            assert(so_far + encoded(rest) =~= out@ + encoded(rest.skip(1)));
        } else {
            let mut one = String::new();
            one.push(c);
            assert(one@ =~= seq![c]);
            assert(utf8::encode_utf8(one@) =~= utf8::encode_scalar(c as u32)) by {
                reveal_with_fuel(utf8::encode_utf8, 2);
                assert(one@.drop_first() =~= Seq::<char>::empty());
            }
            push_percents(&mut out, one.as_str().as_bytes());
            assert(so_far + encoded(rest) =~= out@ + encoded(rest.skip(1)));
        }
        i += 1;
    }
    assert(out@ + encoded(path@.skip(i as int)) =~= out@);
    out
}

proof fn lemma_percents(bytes: Seq<u8>, rest: Seq<char>)
    ensures
        decoded(percents(bytes) + rest) == bytes + decoded(rest),
    decreases bytes.len(),
{
    if bytes.len() == 0 {
        assert(percents(bytes) + rest =~= rest);
        assert(bytes + decoded(rest) =~= decoded(rest));
    } else {
        let all = percents(bytes) + rest;
        let tail = percents(bytes.skip(1)) + rest;
        let b = bytes[0];
        assert(all[0] == '%');
        assert(all[1] == capital_digit(b as int / 16));
        assert(all[2] == capital_digit(b as int % 16));
        assert(all.skip(3) =~= tail);
        lemma_percents(bytes.skip(1), rest);
        assert(digit_value(all[1]) == b as int / 16);
        assert(digit_value(all[2]) == b as int % 16);
        assert(decoded(all) == seq![b] + decoded(tail));
        assert(seq![b] + (bytes.skip(1) + decoded(rest)) =~= bytes + decoded(rest));
    }
}

/// Nothing of a path is lost in an address: the address denotes the encoding of the path.
pub proof fn encoding_is_faithful(s: Seq<char>)
    ensures
        decoded(encoded(s)) == utf8::encode_utf8(s),
    decreases s.len(),
{
    if s.len() > 0 {
        encoding_is_faithful(s.skip(1));
        assert(s.skip(1) =~= s.drop_first());
        let rest = encoded(s.skip(1));
        if plain(s[0]) {
            let all = seq![s[0]] + rest;
            assert(all.skip(1) =~= rest);
            let v = s[0] as u32;
            assert((v & 0x7f) as u8 == v as u8) by (bit_vector)
                requires
                    v <= 0x7f,
            ;
            assert(utf8::encode_scalar(v) =~= seq![s[0] as u8]);
        } else {
            lemma_percents(utf8::encode_scalar(s[0] as u32), rest);
        }
    }
}

/// Whether a character is a hexadecimal digit with capital letters.
pub open spec fn is_capital_digit(c: char) -> bool {
    '0' <= c <= '9' || 'A' <= c <= 'F'
}

/// Whether a character of a text stands for itself, or is a percent sign before two digits.
pub open spec fn plain_at(s: Seq<char>, i: int) -> bool {
    plain(s[i]) || (s[i] == '%' && i + 2 < s.len() && is_capital_digit(s[i + 1])
        && is_capital_digit(s[i + 2]))
}

/// Whether a text consists of characters that stand for themselves and of percent signs, each
/// before two digits.
pub open spec fn is_plain(s: Seq<char>) -> bool {
    forall|i: int| 0 <= i < s.len() ==> #[trigger] plain_at(s, i)
}

proof fn lemma_plain_both(a: Seq<char>, b: Seq<char>)
    requires
        is_plain(a),
        is_plain(b),
    ensures
        is_plain(a + b),
{
    let s = a + b;
    assert forall|i: int| 0 <= i < s.len() implies #[trigger] plain_at(s, i) by {
        if i < a.len() {
            assert(plain_at(a, i));
        } else {
            assert(plain_at(b, i - a.len()));
        }
    }
}

proof fn lemma_percents_plain(bytes: Seq<u8>)
    ensures
        is_plain(percents(bytes)),
    decreases bytes.len(),
{
    if bytes.len() > 0 {
        lemma_percents_plain(bytes.skip(1));
        let p = percent(bytes[0]);
        assert forall|i: int| 0 <= i < p.len() implies #[trigger] plain_at(p, i) by {}
        lemma_plain_both(p, percents(bytes.skip(1)));
    }
}

/// Nothing but characters that stand for themselves and percent signs, each before two digits, is
/// written in an address.
pub proof fn addresses_are_plain(s: Seq<char>)
    ensures
        is_plain(encoded(s)),
    decreases s.len(),
{
    if s.len() > 0 {
        addresses_are_plain(s.skip(1));
        let head = if plain(s[0]) {
            seq![s[0]]
        } else {
            percents(utf8::encode_scalar(s[0] as u32))
        };
        lemma_percents_plain(utf8::encode_scalar(s[0] as u32));
        if plain(s[0]) {
            assert forall|i: int| 0 <= i < head.len() implies #[trigger] plain_at(head, i) by {}
        }
        lemma_plain_both(head, encoded(s.skip(1)));
    }
}

} // verus!
