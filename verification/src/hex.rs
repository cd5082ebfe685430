//! Lower-case hexadecimal encoding of bytes, and its inverse.
use vstd::prelude::*;
use crate::text::push_char;

verus! {

/// The lower-case hexadecimal digit of a value below 16.
pub open spec fn hex_char(n: int) -> char {
    if n < 10 {
        (n + 48) as char
    } else {
        (n + 87) as char
    }
}

/// The hexadecimal text of bytes: two lower-case digits per byte, high nibble first.
pub open spec fn spec_to_hex(b: Seq<u8>) -> Seq<char> {
    Seq::new(
        2 * b.len(),
        |i: int|
            if i % 2 == 0 {
                hex_char(b[i / 2] as int / 16)
            } else {
                hex_char(b[i / 2] as int % 16)
            },
    )
}

/// Whether a character is an ASCII hexadecimal digit, of either case.
pub open spec fn is_hex_digit(c: char) -> bool {
    ||| (48 <= c as int <= 57)
    ||| (97 <= c as int <= 102)
    ||| (65 <= c as int <= 70)
}

/// The value of an ASCII hexadecimal digit.
pub open spec fn hex_value(c: char) -> int {
    if 48 <= c as int <= 57 {
        c as int - 48
    } else if 97 <= c as int <= 102 {
        c as int - 87
    } else {
        c as int - 55
    }
}

/// Whether every character of a text is a hexadecimal digit.
pub open spec fn all_hex(s: Seq<char>) -> bool {
    forall|i: int| 0 <= i < s.len() ==> is_hex_digit(#[trigger] s[i])
}

/// The bytes that a hexadecimal text stands for, two digits per byte.
pub open spec fn hex_bytes(s: Seq<char>) -> Seq<u8> {
    Seq::new(s.len() / 2, |i: int| (hex_value(s[2 * i]) * 16 + hex_value(s[2 * i + 1])) as u8)
}

/// What `from_hex` gives for a text: its bytes when it has an even number of
/// characters, all of them hexadecimal digits; nothing otherwise.
pub open spec fn spec_from_hex(s: Seq<char>) -> Option<Seq<u8>> {
    if s.len() % 2 == 0 && all_hex(s) {
        Some(hex_bytes(s))
    } else {
        None
    }
}

fn hex_digit(n: u8) -> (c: char)
    requires
        n < 16,
    ensures
        c == hex_char(n as int),
{
    if n < 10 {
        (n + 48) as char
    } else {
        (n + 87) as char
    }
}

/// Lower-case hexadecimal text of bytes.
pub fn to_hex(b: &[u8]) -> (s: String)
    ensures
        s@ == spec_to_hex(b@),
{
    let mut s = String::new();
    let mut i: usize = 0;
    while i < b.len()
        invariant
            i <= b.len(),
            s@.len() == 2 * i,
            forall|j: int| 0 <= j < 2 * i ==> s@[j] == #[trigger] spec_to_hex(b@)[j],
        decreases b.len() - i,
    {
        let x = b[i];
        push_char(&mut s, hex_digit(x / 16));
        push_char(&mut s, hex_digit(x % 16));
        i += 1;
    }
    assert(s@ =~= spec_to_hex(b@));
    s
}

fn digit_value(c: char) -> (r: Option<u8>)
    ensures
        r is Some <==> is_hex_digit(c),
        r matches Some(v) ==> v as int == hex_value(c) && v < 16,
{
    if '0' <= c && c <= '9' {
        Some((c as u32 - 48) as u8)
    } else if 'a' <= c && c <= 'f' {
        Some((c as u32 - 87) as u8)
    } else if 'A' <= c && c <= 'F' {
        Some((c as u32 - 55) as u8)
    } else {
        None
    }
}

/// The bytes of a hexadecimal text; `None` when its length is odd or a
/// character is not a hexadecimal digit.
pub fn from_hex(s: &str) -> (r: Option<Vec<u8>>)
    ensures
        r matches Some(v) ==> spec_from_hex(s@) == Some(v@),
        r is None ==> spec_from_hex(s@) is None,
{
    let cs = crate::text::chars_of(s);
    let n = cs.len();
    let mut i: usize = 0;
    while i < n
        invariant
            n == cs@.len(),
            cs@ == s@,
            i <= n,
            forall|j: int| 0 <= j < i ==> is_hex_digit(#[trigger] cs@[j]),
        decreases n - i,
    {
        if digit_value(cs[i]).is_none() {
            return None;
        }
        i += 1;
    }
    if n % 2 != 0 {
        return None;
    }
    let mut out: Vec<u8> = Vec::new();
    let mut k: usize = 0;
    while k < n / 2
        invariant
            n == cs@.len(),
            cs@ == s@,
            n % 2 == 0,
            all_hex(cs@),
            k <= n / 2,
            out@.len() == k,
            forall|j: int| 0 <= j < k ==> out@[j] == #[trigger] hex_bytes(cs@)[j],
        decreases n / 2 - k,
    {
        assert(is_hex_digit(cs@[2 * k as int]));
        assert(is_hex_digit(cs@[2 * k + 1]));
        let hi = digit_value(cs[2 * k]).unwrap();
        let lo = digit_value(cs[2 * k + 1]).unwrap();
        out.push(hi * 16 + lo);
        k += 1;
    }
    assert(out@ =~= hex_bytes(s@));
    Some(out)
}

/// Decoding the hexadecimal text of bytes gives back the bytes.
pub proof fn lemma_hex_roundtrip(b: Seq<u8>)
    ensures
        spec_from_hex(spec_to_hex(b)) == Some(b),
{
    let s = spec_to_hex(b);
    assert forall|i: int| 0 <= i < s.len() implies is_hex_digit(#[trigger] s[i]) by {
        let x = b[i / 2] as int;
        assert(0 <= x / 16 < 16 && 0 <= x % 16 < 16);
    }
    assert forall|i: int| 0 <= i < b.len() implies #[trigger] hex_bytes(s)[i] == b[i] by {
        let x = b[i] as int;
        assert((2 * i) / 2 == i);
        assert((2 * i + 1) / 2 == i);
        assert((2 * i) % 2 == 0);
        assert((2 * i + 1) % 2 == 1);
        assert(x / 16 * 16 + x % 16 == x);
    }
    assert(hex_bytes(s) =~= b);
}

/// A character in ASCII lower case (`char::to_ascii_lowercase`).
pub open spec fn ascii_lower(c: char) -> char {
    if 65 <= c as int <= 90 {
        (c as int + 32) as char
    } else {
        c
    }
}

proof fn lemma_hex_digit_roundtrip(c: char)
    requires
        is_hex_digit(c),
    ensures
        0 <= hex_value(c) < 16,
        hex_char(hex_value(c)) == ascii_lower(c),
{
}

/// Encoding what a hexadecimal text decodes to gives the text in lower case.
pub proof fn lemma_hex_reencode(s: Seq<char>)
    requires
        spec_from_hex(s) is Some,
    ensures
        spec_to_hex(spec_from_hex(s)->0) == s.map_values(|c: char| ascii_lower(c)),
{
    let v = spec_from_hex(s)->0;
    let t = spec_to_hex(v);
    let l = s.map_values(|c: char| ascii_lower(c));
    assert forall|i: int| 0 <= i < t.len() implies #[trigger] t[i] == l[i] by {
        let k = i / 2;
        assert(0 <= k && 2 * k + 1 < s.len());
        let hi = hex_value(s[2 * k]);
        let lo = hex_value(s[2 * k + 1]);
        lemma_hex_digit_roundtrip(s[2 * k]);
        lemma_hex_digit_roundtrip(s[2 * k + 1]);
        let x = hi * 16 + lo;
        assert(0 <= x < 256);
        assert(v[k] as int == x);
        assert(x / 16 == hi && x % 16 == lo) by (nonlinear_arith)
            requires
                x == hi * 16 + lo,
                0 <= hi < 16,
                0 <= lo < 16,
        ;
        if i % 2 == 0 {
            assert(i == 2 * k);
        } else {
            assert(i == 2 * k + 1);
        }
    }
    assert(t =~= l);
}

} // verus!
