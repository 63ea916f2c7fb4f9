//! Decimal text for 32-bit integers: formatting, parsing, and the
//! round-trip law connecting them. Storage uses both directions when it
//! coerces cell text; the statement parser uses the same parsing rules
//! for integer literals.

use vstd::prelude::*;
use vstd::arithmetic::div_mod::lemma_fundamental_div_mod;

verus! {

/// Is `c` a decimal digit?
pub open spec fn is_digit(c: char) -> bool {
    48 <= c as int && c as int <= 57
}

/// Numeric value of a digit character.
pub open spec fn digit_val(c: char) -> int {
    c as int - 48
}

/// The digit character for a value in `0..=9`.
pub open spec fn digit_char(d: int) -> char {
    if d == 0 { '0' }
    else if d == 1 { '1' }
    else if d == 2 { '2' }
    else if d == 3 { '3' }
    else if d == 4 { '4' }
    else if d == 5 { '5' }
    else if d == 6 { '6' }
    else if d == 7 { '7' }
    else if d == 8 { '8' }
    else { '9' }
}

/// Decimal digits of `n`, most significant first, no leading zeros
/// (except for `n == 0`, which is the single digit `'0'`).
pub open spec fn digits_of(n: nat) -> Seq<char>
    decreases n,
{
    if n < 10 {
        seq![digit_char(n as int)]
    } else {
        digits_of(n / 10) + seq![digit_char((n % 10) as int)]
    }
}

/// Canonical decimal text of an integer: a minus sign for negatives,
/// then the digits of the magnitude.
pub open spec fn int_chars(i: int) -> Seq<char> {
    if i >= 0 {
        digits_of(i as nat)
    } else {
        seq!['-'] + digits_of((-i) as nat)
    }
}

/// Every character of `s` is a decimal digit.
pub open spec fn all_digits(s: Seq<char>) -> bool {
    forall|i: int| 0 <= i < s.len() ==> is_digit(#[trigger] s[i])
}

/// The value of a digit string, read in base ten.
pub open spec fn digits_val(s: Seq<char>) -> int
    decreases s.len(),
{
    if s.len() == 0 {
        0
    } else {
        10 * digits_val(s.drop_last()) + digit_val(s.last())
    }
}

/// What `str::parse::<i32>` accepts: an optional `+` or `-` sign, then
/// one or more digits, the whole string and nothing else, with the value
/// in `i32` range. `Some(v)` on success, `None` otherwise.
pub open spec fn spec_parse_i32(s: Seq<char>) -> Option<int> {
    let signed = s.len() >= 1 && (s[0] == '-' || s[0] == '+');
    let neg = s.len() >= 1 && s[0] == '-';
    let ds = if signed { s.subrange(1, s.len() as int) } else { s };
    if ds.len() >= 1 && all_digits(ds) {
        let v = if neg { -digits_val(ds) } else { digits_val(ds) };
        if -2147483648 <= v <= 2147483647 { Some(v) } else { None }
    } else {
        None
    }
}

/// A digit string never has a negative value.
pub proof fn lemma_digits_val_nonneg(s: Seq<char>)
    requires
        all_digits(s),
    ensures
        digits_val(s) >= 0,
    decreases s.len(),
{
    if s.len() > 0 {
        assert(all_digits(s.drop_last()));
        lemma_digits_val_nonneg(s.drop_last());
    }
}

/// The digits of `n` are digits, there is at least one, and they read
/// back as `n`.
pub proof fn lemma_digits_of(n: nat)
    ensures
        all_digits(digits_of(n)),
        digits_of(n).len() >= 1,
        digits_val(digits_of(n)) == n,
    decreases n,
{
    if n < 10 {
        let c = digit_char(n as int);
        assert(digits_of(n) == seq![c]);
        assert(seq![c].drop_last() =~= Seq::<char>::empty());
        assert(digits_val(seq![c]) == 10 * digits_val(seq![c].drop_last()) + digit_val(c));
        assert(digit_val(c) == n);
    } else {
        lemma_digits_of(n / 10);
        let a = digits_of(n / 10);
        let c = digit_char((n % 10) as int);
        assert(digits_of(n) == a + seq![c]);
        assert((a + seq![c]).drop_last() =~= a);
        assert((a + seq![c]).last() == c);
        lemma_fundamental_div_mod(n as int, 10);
        assert(digits_val(digits_of(n)) == 10 * digits_val(a) + digit_val(c));
        assert(forall|i: int| 0 <= i < digits_of(n).len() ==> is_digit(#[trigger] digits_of(n)[i])) by {
            assert(forall|i: int| 0 <= i < a.len() ==> digits_of(n)[i] == #[trigger] a[i]);
            assert(digits_of(n)[a.len() as int] == c);
        }
    }
}

/// Round trip: the canonical text of any `i32` value parses back to it.
pub proof fn lemma_int_chars_parse(v: int)
    requires
        -2147483648 <= v <= 2147483647,
    ensures
        spec_parse_i32(int_chars(v)) == Some(v),
{
    if v >= 0 {
        let s = digits_of(v as nat);
        lemma_digits_of(v as nat);
        assert(is_digit(s[0]));
        assert(s[0] != '-' && s[0] != '+');
        assert(spec_parse_i32(s) == Some(v));
    } else {
        let m = (-v) as nat;
        let s = seq!['-'] + digits_of(m);
        lemma_digits_of(m);
        assert(s[0] == '-');
        assert(s.subrange(1, s.len() as int) =~= digits_of(m));
        assert(spec_parse_i32(s) == Some(v));
    }
}

/// `s` reversed.
pub open spec fn rev_seq<A>(s: Seq<A>) -> Seq<A> {
    Seq::new(s.len(), |i: int| s[s.len() - 1 - i])
}

fn digit_to_char(d: u32) -> (c: char)
    requires
        d < 10,
    ensures
        c == digit_char(d as int),
{
    if d == 0 { '0' }
    else if d == 1 { '1' }
    else if d == 2 { '2' }
    else if d == 3 { '3' }
    else if d == 4 { '4' }
    else if d == 5 { '5' }
    else if d == 6 { '6' }
    else if d == 7 { '7' }
    else if d == 8 { '8' }
    else { '9' }
}

/// Render `x` as its canonical decimal text.
pub fn format_i32(x: i32) -> (r: Vec<char>)
    ensures
        r@ == int_chars(x as int),
{
    let neg = x < 0;
    let m: u32 = if x < 0 {
        (-(x as i64)) as u32
    } else {
        x as u32
    };
    proof {
        assert(m as int == if x < 0 { -(x as int) } else { x as int });
    }
    let mut acc: Vec<char> = Vec::new();
    let mut n: u32 = m;
    proof {
        assert(digits_of(m as nat) =~= digits_of(n as nat) + rev_seq(acc@));
    }
    while n >= 10
        invariant
            digits_of(m as nat) == digits_of(n as nat) + rev_seq(acc@),
        decreases n,
    {
        let d = n % 10;
        let ghost acc0 = acc@;
        acc.push(digit_to_char(d));
        proof {
            assert(rev_seq(acc@) =~= seq![digit_char(d as int)] + rev_seq(acc0));
            assert(digits_of(n as nat) == digits_of((n / 10) as nat) + seq![digit_char(d as int)]);
            assert(digits_of((n / 10) as nat) + seq![digit_char(d as int)] + rev_seq(acc0)
                =~= digits_of((n / 10) as nat) + (seq![digit_char(d as int)] + rev_seq(acc0)));
        }
        n = n / 10;
    }
    let ghost acc1 = acc@;
    acc.push(digit_to_char(n));
    proof {
        assert(digits_of(n as nat) =~= seq![digit_char(n as int)]);
        assert(rev_seq(acc@) =~= seq![digit_char(n as int)] + rev_seq(acc1));
        assert(digits_of(m as nat) =~= rev_seq(acc@));
    }
    let mut r: Vec<char> = Vec::new();
    if neg {
        r.push('-');
    }
    let ghost base = r@;
    let mut j: usize = acc.len();
    proof {
        assert(r@ =~= base + rev_seq(acc@).subrange(0, acc@.len() - j));
    }
    while j > 0
        invariant
            j <= acc@.len(),
            r@ == base + rev_seq(acc@).subrange(0, acc@.len() - j),
        decreases j,
    {
        j -= 1;
        r.push(acc[j]);
        proof {
            assert(r@ =~= base + rev_seq(acc@).subrange(0, acc@.len() - j));
        }
    }
    proof {
        assert(rev_seq(acc@).subrange(0, acc@.len() as int) =~= rev_seq(acc@));
        if neg {
            assert(base =~= seq!['-']);
            assert(r@ =~= seq!['-'] + digits_of(m as nat));
        } else {
            assert(base =~= Seq::<char>::empty());
            assert(r@ =~= digits_of(m as nat));
        }
    }
    r
}

/// Parse a whole character string as an `i32`, by the rules of
/// [`spec_parse_i32`].
pub fn parse_i32(s: &Vec<char>) -> (r: Option<i32>)
    ensures
        match r {
            Some(v) => spec_parse_i32(s@) == Some(v as int),
            None => spec_parse_i32(s@) is None,
        },
{
    let len = s.len();
    let mut pos: usize = 0;
    let mut neg = false;
    if len >= 1 && (s[0] == '-' || s[0] == '+') {
        neg = s[0] == '-';
        pos = 1;
    }
    let ghost ds = if pos == 1 { s@.subrange(1, s@.len() as int) } else { s@ };
    if pos >= len {
        return None;
    }
    let mut acc: u64 = 0;
    let mut big = false;
    let mut i = pos;
    while i < len
        invariant
            pos <= i <= len,
            len == s@.len(),
            pos <= 1,
            ds == (if pos == 1 { s@.subrange(1, s@.len() as int) } else { s@ }),
            pos == 1 <==> s@.len() >= 1 && (s@[0] == '-' || s@[0] == '+'),
            neg <==> s@.len() >= 1 && s@[0] == '-',
            forall|k: int| pos <= k < i ==> is_digit(#[trigger] s@[k]),
            !big ==> acc as int == digits_val(s@.subrange(pos as int, i as int)) && acc
                <= 4294967295,
            big ==> digits_val(s@.subrange(pos as int, i as int)) > 4294967295,
        decreases len - i,
    {
        let c = s[i];
        let cu = crate::text::char_code(c);
        if cu < 48 || cu > 57 {
            proof {
                if pos == 1 {
                    assert(ds[i - 1] == s@[i as int]);
                    assert(!is_digit(ds[i - 1]));
                } else {
                    assert(!is_digit(ds[i as int]));
                }
                assert(!all_digits(ds));
            }
            return None;
        }
        let d = (cu - 48) as u64;
        proof {
            assert(s@.subrange(pos as int, i + 1).drop_last() =~= s@.subrange(
                pos as int,
                i as int,
            ));
            assert(s@.subrange(pos as int, i + 1).last() == s@[i as int]);
            assert(digits_val(s@.subrange(pos as int, i + 1)) == 10 * digits_val(
                s@.subrange(pos as int, i as int),
            ) + digit_val(s@[i as int]));
        }
        if !big {
            acc = acc * 10 + d;
            if acc > 4294967295 {
                big = true;
            }
        } else {
            proof {
                lemma_digits_val_nonneg(s@.subrange(pos as int, i as int));
            }
        }
        i += 1;
    }
    proof {
        if pos == 1 {
            assert(ds =~= s@.subrange(pos as int, len as int));
        } else {
            assert(ds =~= s@.subrange(pos as int, len as int));
        }
        assert(all_digits(ds));
        assert(ds.len() >= 1);
    }
    if big {
        return None;
    }
    proof {
        assert(acc as int == digits_val(ds));
    }
    if neg {
        if acc > 2147483648 {
            return None;
        }
        if acc == 2147483648 {
            return Some(i32::MIN);
        }
        Some(-(acc as i32))
    } else {
        if acc > 2147483647 {
            return None;
        }
        Some(acc as i32)
    }
}

/// Render an unsigned value as its decimal digits.
pub fn format_u64(x: u64) -> (r: Vec<char>)
    ensures
        r@ == digits_of(x as nat),
{
    let mut acc: Vec<char> = Vec::new();
    let mut n: u64 = x;
    proof {
        assert(digits_of(x as nat) =~= digits_of(n as nat) + rev_seq(acc@));
    }
    while n >= 10
        invariant
            digits_of(x as nat) == digits_of(n as nat) + rev_seq(acc@),
        decreases n,
    {
        let d = (n % 10) as u32;
        let ghost acc0 = acc@;
        acc.push(digit_to_char(d));
        proof {
            assert(rev_seq(acc@) =~= seq![digit_char(d as int)] + rev_seq(acc0));
            assert(digits_of(n as nat) == digits_of((n / 10) as nat) + seq![digit_char(d as int)]);
            assert(digits_of((n / 10) as nat) + seq![digit_char(d as int)] + rev_seq(acc0)
                =~= digits_of((n / 10) as nat) + (seq![digit_char(d as int)] + rev_seq(acc0)));
        }
        n = n / 10;
    }
    let ghost acc1 = acc@;
    acc.push(digit_to_char((n % 10) as u32));
    proof {
        assert(n % 10 == n as int);
        assert(digits_of(n as nat) =~= seq![digit_char(n as int)]);
        assert(rev_seq(acc@) =~= seq![digit_char(n as int)] + rev_seq(acc1));
        assert(digits_of(x as nat) =~= rev_seq(acc@));
    }
    let mut r: Vec<char> = Vec::new();
    let mut j: usize = acc.len();
    proof {
        assert(r@ =~= rev_seq(acc@).subrange(0, acc@.len() - j));
    }
    while j > 0
        invariant
            j <= acc@.len(),
            r@ == rev_seq(acc@).subrange(0, acc@.len() - j),
        decreases j,
    {
        j -= 1;
        r.push(acc[j]);
        proof {
            assert(r@ =~= rev_seq(acc@).subrange(0, acc@.len() - j));
        }
    }
    proof {
        assert(rev_seq(acc@).subrange(0, acc@.len() as int) =~= rev_seq(acc@));
    }
    r
}

} // verus!
