//! Decimal integers in text: parsing as `str::parse` does for unsigned types,
//! and printing as `Display` does.
use vstd::prelude::*;
use crate::text::push_char;

verus! {

/// Whether a character is an ASCII decimal digit.
pub open spec fn is_digit(c: char) -> bool {
    48 <= c as int <= 57
}

/// The value of a run of decimal digits, most significant first.
pub open spec fn digits_value(d: Seq<char>) -> nat
    decreases d.len(),
{
    if d.len() == 0 {
        0
    } else {
        (digits_value(d.drop_last()) * 10 + (d.last() as int - 48)) as nat
    }
}

/// The digits of an unsigned number as `str::parse` reads it: an optional
/// leading `+`, then at least one digit and nothing else.
pub open spec fn unsigned_digits(s: Seq<char>) -> Seq<char> {
    if s.len() > 0 && s[0] == '+' {
        s.drop_first()
    } else {
        s
    }
}

/// The number a text stands for, when it is well formed, whatever its size.
pub open spec fn spec_parse_unsigned(s: Seq<char>) -> Option<nat> {
    let d = unsigned_digits(s);
    if d.len() > 0 && (forall|i: int| 0 <= i < d.len() ==> is_digit(#[trigger] d[i])) {
        Some(digits_value(d))
    } else {
        None
    }
}

/// What parsing a text as an unsigned integer below or at `max` gives.
pub open spec fn spec_parse_bounded(s: Seq<char>, max: nat) -> Option<nat> {
    match spec_parse_unsigned(s) {
        Some(v) => if v <= max { Some(v) } else { None },
        None => None,
    }
}

proof fn lemma_digits_value_prefix(d: Seq<char>, k: int)
    requires
        0 <= k <= d.len(),
        forall|i: int| 0 <= i < d.len() ==> is_digit(#[trigger] d[i]),
    ensures
        digits_value(d.take(k)) <= digits_value(d),
    decreases d.len() - k,
{
    if k < d.len() {
        lemma_digits_value_prefix(d, k + 1);
        assert(d.take(k + 1).drop_last() =~= d.take(k));
    } else {
        assert(d.take(k) =~= d);
    }
}

/// Parses an unsigned integer as `str::parse::<u64>` does.
pub fn parse_u64(s: &str) -> (r: Option<u64>)
    ensures
        r matches Some(v) ==> spec_parse_bounded(s@, u64::MAX as nat) == Some(v as nat),
        r is None ==> spec_parse_bounded(s@, u64::MAX as nat) is None,
{
    let cs = crate::text::chars_of(s);
    let mut start: usize = 0;
    if cs.len() > 0 && cs[0] == '+' {
        start = 1;
    }
    let ghost d = unsigned_digits(s@);
    assert(d =~= cs@.skip(start as int));
    if start == cs.len() {
        return None;
    }
    let mut v: u64 = 0;
    let mut i: usize = start;
    while i < cs.len()
        invariant
            cs@ == s@,
            d == cs@.skip(start as int),
            d == unsigned_digits(s@),
            start <= i <= cs@.len(),
            forall|j: int| start <= j < i ==> is_digit(#[trigger] cs@[j]),
            v as nat == digits_value(d.take(i - start)),
        decreases cs.len() - i,
    {
        let c = cs[i];
        if !('0' <= c && c <= '9') {
            assert(d[i - start] == c);
            assert(!is_digit(d[i - start]));
            return None;
        }
        assert(d.take(i + 1 - start).drop_last() =~= d.take(i - start));
        let dv = (c as u32 - 48) as u64;
        if v > (u64::MAX - dv) / 10 {
            proof {
                let ghost w: int = v as int * 10 + dv as int;
                assert(w > u64::MAX) by (nonlinear_arith)
                    requires
                        v > (u64::MAX - dv) / 10,
                        w == v as int * 10 + dv as int,
                        dv <= 9,
                ;
                if forall|j: int| 0 <= j < d.len() ==> is_digit(#[trigger] d[j]) {
                    lemma_digits_value_prefix(d, i + 1 - start);
                }
            }
            return None;
        }
        v = v * 10 + dv;
        i += 1;
    }
    assert(d.take(cs@.len() - start) =~= d);
    Some(v)
}

/// Parses an unsigned integer as `str::parse::<u32>` does.
pub fn parse_u32(s: &str) -> (r: Option<u32>)
    ensures
        r matches Some(v) ==> spec_parse_bounded(s@, u32::MAX as nat) == Some(v as nat),
        r is None ==> spec_parse_bounded(s@, u32::MAX as nat) is None,
{
    match parse_u64(s) {
        Some(v) => if v <= u32::MAX as u64 { Some(v as u32) } else { None },
        None => None,
    }
}

/// Parses an unsigned integer as `str::parse::<u16>` does.
pub fn parse_u16(s: &str) -> (r: Option<u16>)
    ensures
        r matches Some(v) ==> spec_parse_bounded(s@, u16::MAX as nat) == Some(v as nat),
        r is None ==> spec_parse_bounded(s@, u16::MAX as nat) is None,
{
    match parse_u64(s) {
        Some(v) => if v <= u16::MAX as u64 { Some(v as u16) } else { None },
        None => None,
    }
}

/// The decimal text of a number, as `Display` prints it.
pub open spec fn decimal_text(n: nat) -> Seq<char>
    decreases n,
{
    if n < 10 {
        seq![(n + 48) as char]
    } else {
        decimal_text(n / 10).push(((n % 10) + 48) as char)
    }
}

/// Appends the decimal text of `n` to `out`.
pub fn push_decimal(out: &mut String, n: u64)
    ensures
        final(out)@ == old(out)@ + decimal_text(n as nat),
    decreases n,
{
    if n >= 10 {
        push_decimal(out, n / 10);
    }
    let d = (n % 10) as u8;
    push_char(out, (d + 48) as char);
    proof {
        if n >= 10 {
            assert(old(out)@ + decimal_text((n / 10) as nat) + seq![((n % 10) + 48) as char]
                =~= old(out)@ + decimal_text(n as nat));
        } else {
            assert(old(out)@.push((n + 48) as char) =~= old(out)@ + decimal_text(n as nat));
        }
    }
}

/// The decimal text of a number.
pub fn decimal(n: u64) -> (s: String)
    ensures
        s@ == decimal_text(n as nat),
{
    let mut s = String::new();
    push_decimal(&mut s, n);
    assert(Seq::<char>::empty() + decimal_text(n as nat) =~= decimal_text(n as nat));
    s
}

} // verus!
