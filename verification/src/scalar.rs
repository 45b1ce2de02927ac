//! Decimal text of 64-bit integers, as it stands in a header value.

use vstd::prelude::*;

verus! {

/// Whether a byte is an ASCII decimal digit.
pub open spec fn is_digit(b: u8) -> bool {
    48 <= b <= 57
}

/// The decimal digits of `n` as ASCII bytes, most significant first.
pub open spec fn digits_of(n: nat) -> Seq<u8>
    decreases n,
{
    if n < 10 {
        seq![(48 + n) as u8]
    } else {
        digits_of(n / 10).push((48 + n % 10) as u8)
    }
}

/// The decimal text of an integer: a minus sign for a negative one, then
/// the digits of its magnitude.
pub open spec fn decimal_text(n: int) -> Seq<u8> {
    if n < 0 {
        seq![45u8] + digits_of((-n) as nat)
    } else {
        digits_of(n as nat)
    }
}

/// The number that a string of digits denotes.
pub open spec fn digits_value(s: Seq<u8>) -> nat
    decreases s.len(),
{
    if s.len() == 0 {
        0
    } else {
        digits_value(s.drop_last()) * 10 + (s.last() - 48) as nat
    }
}

/// A non-empty string of digits without a superfluous leading zero.
pub open spec fn is_canonical_digits(s: Seq<u8>) -> bool {
    &&& s.len() > 0
    &&& forall|i: int| 0 <= i < s.len() ==> is_digit(#[trigger] s[i])
    &&& (s.len() > 1 ==> s[0] != 48)
}

/// The 64-bit integer that a text denotes, if it is the decimal text of one.
pub open spec fn parse_decimal(s: Seq<u8>) -> Option<int> {
    if s.len() > 0 && s[0] == 45 {
        let d = s.drop_first();
        if is_canonical_digits(d) && 0 < digits_value(d) <= 0x8000_0000_0000_0000 {
            Some(-(digits_value(d) as int))
        } else {
            None
        }
    } else if is_canonical_digits(s) && digits_value(s) <= 0x7fff_ffff_ffff_ffff {
        Some(digits_value(s) as int)
    } else {
        None
    }
}

/// The digits of a number are canonical and denote that number.
pub proof fn lemma_digits_of(n: nat)
    ensures
        is_canonical_digits(digits_of(n)),
        digits_value(digits_of(n)) == n,
        n > 0 ==> digits_of(n)[0] != 48,
    decreases n,
{
    if n < 10 {
        let s = digits_of(n);
        assert(s.drop_last() =~= Seq::<u8>::empty());
        assert(digits_value(s.drop_last()) == 0);
    } else {
        lemma_digits_of(n / 10);
        let p = digits_of(n / 10);
        let s = p.push((48 + n % 10) as u8);
        assert(s.drop_last() =~= p);
        assert(s[0] == p[0]);
        assert forall|i: int| 0 <= i < s.len() implies is_digit(#[trigger] s[i]) by {
            if i < p.len() {
                assert(s[i] == p[i]);
            }
        }
    }
}

/// A canonical string of digits that does not start with a zero denotes a
/// positive number.
pub proof fn lemma_value_positive(s: Seq<u8>)
    requires
        is_canonical_digits(s),
        s[0] != 48,
    ensures
        digits_value(s) >= 1,
    decreases s.len(),
{
    if s.len() > 1 {
        let p = s.drop_last();
        assert(p[0] == s[0]);
        assert forall|i: int| 0 <= i < p.len() implies is_digit(#[trigger] p[i]) by {
            assert(p[i] == s[i]);
        }
        lemma_value_positive(p);
    } else {
        assert(s.drop_last() =~= Seq::<u8>::empty());
        assert(is_digit(s[0]));
    }
}

/// A canonical string of digits is the digits of the number it denotes.
pub proof fn lemma_digits_of_value(s: Seq<u8>)
    requires
        is_canonical_digits(s),
    ensures
        digits_of(digits_value(s)) == s,
    decreases s.len(),
{
    let p = s.drop_last();
    assert(is_digit(s[s.len() - 1]));
    if s.len() == 1 {
        assert(p =~= Seq::<u8>::empty());
        assert(digits_value(p) == 0);
        assert(digits_of(digits_value(s)) =~= s);
    } else {
        assert(p[0] == s[0]);
        assert forall|i: int| 0 <= i < p.len() implies is_digit(#[trigger] p[i]) by {
            assert(p[i] == s[i]);
        }
        lemma_digits_of_value(p);
        lemma_value_positive(p);
        let v = digits_value(p);
        let x = (s.last() - 48) as nat;
        assert(digits_value(s) == v * 10 + x);
        assert((v * 10 + x) / 10 == v);
        assert((v * 10 + x) % 10 == x);
        assert(digits_of(digits_value(s)) =~= p.push(s.last()));
        assert(p.push(s.last()) =~= s);
    }
}

/// The number that a prefix of a string of digits denotes is no larger than
/// the number that the whole string denotes.
pub proof fn lemma_prefix_value(s: Seq<u8>, k: int)
    requires
        0 <= k <= s.len(),
        forall|i: int| 0 <= i < s.len() ==> is_digit(#[trigger] s[i]),
    ensures
        digits_value(s.subrange(0, k)) <= digits_value(s),
    decreases s.len(),
{
    if k == s.len() {
        assert(s.subrange(0, k) =~= s);
    } else {
        let p = s.drop_last();
        assert forall|i: int| 0 <= i < p.len() implies is_digit(#[trigger] p[i]) by {
            assert(p[i] == s[i]);
        }
        lemma_prefix_value(p, k);
        assert(p.subrange(0, k) =~= s.subrange(0, k));
        assert(is_digit(s[s.len() - 1]));
    }
}

/// Reading the decimal text of a 64-bit integer gives that integer back.
pub proof fn lemma_parse_decimal_text(n: i64)
    ensures
        parse_decimal(decimal_text(n as int)) == Some(n as int),
{
    let t = decimal_text(n as int);
    if n < 0 {
        let m = (-(n as int)) as nat;
        lemma_digits_of(m);
        assert(t.drop_first() =~= digits_of(m));
        assert(t[0] == 45);
    } else {
        lemma_digits_of(n as nat);
        assert(is_digit(t[0]));
    }
}

/// A text that reads as an integer is the decimal text of that integer.
pub proof fn lemma_decimal_text_parse(s: Seq<u8>)
    requires
        parse_decimal(s) is Some,
    ensures
        decimal_text(parse_decimal(s).unwrap()) == s,
        -0x8000_0000_0000_0000 <= parse_decimal(s).unwrap() <= 0x7fff_ffff_ffff_ffff,
{
    if s.len() > 0 && s[0] == 45 {
        let d = s.drop_first();
        lemma_digits_of_value(d);
        assert(seq![45u8] + d =~= s);
    } else {
        lemma_digits_of_value(s);
    }
}

/// Appends the digits of `n` to `out`.
fn push_digits(n: u64, out: &mut Vec<u8>)
    ensures
        final(out)@ == old(out)@ + digits_of(n as nat),
    decreases n,
{
    if n >= 10 {
        push_digits(n / 10, out);
    }
    let d: u8 = (n % 10) as u8;
    out.push(48 + d);
    proof {
        if n >= 10 {
            assert(final(out)@ =~= old(out)@ + digits_of(n as nat));
        } else {
            assert(final(out)@ =~= old(out)@ + digits_of(n as nat));
        }
    }
}

/// Writes an integer as decimal text.
pub fn format_decimal(n: i64) -> (out: Vec<u8>)
    ensures
        out@ == decimal_text(n as int),
{
    let mut out: Vec<u8> = Vec::new();
    if n < 0 {
        out.push(45);
        let magnitude: u64 = if n == i64::MIN {
            0x8000_0000_0000_0000
        } else {
            (-n) as u64
        };
        push_digits(magnitude, &mut out);
        assert(out@ =~= decimal_text(n as int));
    } else {
        push_digits(n as u64, &mut out);
        assert(out@ =~= decimal_text(n as int));
    }
    out
}

/// Reads the digits of `s` from `start` on as a number no larger than
/// `limit`.
fn parse_digits(s: &[u8], start: usize, limit: u64) -> (r: Option<u64>)
    requires
        start <= s@.len(),
        limit >= 9,
    ensures
        match r {
            Some(v) => is_canonical_digits(s@.subrange(start as int, s@.len() as int))
                && v == digits_value(s@.subrange(start as int, s@.len() as int)) && v <= limit,
            None => !is_canonical_digits(s@.subrange(start as int, s@.len() as int))
                || digits_value(s@.subrange(start as int, s@.len() as int)) > limit,
        },
{
    let ghost d = s@.subrange(start as int, s@.len() as int);
    let n = s.len();
    if start == n {
        return None;
    }
    if n - start > 1 && s[start] == 48 {
        assert(d[0] == s@[start as int]);
        return None;
    }
    let mut acc: u64 = 0;
    let mut i: usize = start;
    while i < n
        invariant
            start <= i <= n,
            n == s@.len(),
            d == s@.subrange(start as int, n as int),
            forall|j: int| 0 <= j < i - start ==> is_digit(#[trigger] d[j]),
            acc == digits_value(d.subrange(0, i - start)),
            acc <= limit,
            limit >= 9,
        decreases n - i,
    {
        let b = s[i];
        assert(d[i - start] == b);
        if b < 48 || b > 57 {
            return None;
        }
        let x: u64 = (b - 48) as u64;
        let ghost next = d.subrange(0, i - start + 1);
        proof {
            assert(next.drop_last() =~= d.subrange(0, i - start));
            assert(next.last() == b);
            assert(digits_value(next) == acc * 10 + x);
        }
        if acc > (limit - x) / 10 {
            proof {
                assert(acc * 10 + x > limit);
                if forall|j: int| 0 <= j < d.len() ==> is_digit(#[trigger] d[j]) {
                    lemma_prefix_value(d, i - start + 1);
                }
            }
            return None;
        }
        acc = acc * 10 + x;
        i = i + 1;
    }
    assert(d.subrange(0, i - start) =~= d);
    Some(acc)
}

/// Reads a decimal text as a 64-bit integer.
pub fn parse_decimal_text(s: &[u8]) -> (r: Option<i64>)
    ensures
        match r {
            Some(n) => parse_decimal(s@) == Some(n as int),
            None => parse_decimal(s@) is None,
        },
{
    if s.len() > 0 && s[0] == 45 {
        assert(s@.drop_first() =~= s@.subrange(1, s@.len() as int));
        match parse_digits(s, 1, 0x8000_0000_0000_0000) {
            Some(v) => {
                if v == 0 {
                    None
                } else if v == 0x8000_0000_0000_0000 {
                    Some(i64::MIN)
                } else {
                    Some(-(v as i64))
                }
            },
            None => None,
        }
    } else {
        assert(s@.subrange(0, s@.len() as int) =~= s@);
        match parse_digits(s, 0, 0x7fff_ffff_ffff_ffff) {
            Some(v) => Some(v as i64),
            None => None,
        }
    }
}

} // verus!
