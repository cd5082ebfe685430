//! Character-level helpers over `str` and `String`.
use vstd::prelude::*;

verus! {

/// Appends one character to a `String` (std `String::push`).
#[verifier::external_body]
pub(crate) fn push_char(s: &mut String, c: char)
    ensures
        final(s)@ == old(s)@.push(c),
{
    s.push(c);
}

/// The characters of a string, in order.
pub fn chars_of(s: &str) -> (v: Vec<char>)
    ensures
        v@ == s@,
{
    let mut v: Vec<char> = Vec::new();
    for c in it: s.chars()
        invariant
            v@ == it.seq().take(it.index() as int),
            it.seq() == s@,
    {
        v.push(c);
    }
    v
}

/// A `String` holding exactly the given characters.
pub fn string_of(v: &[char]) -> (s: String)
    ensures
        s@ == v@,
{
    let mut s = String::new();
    let mut i: usize = 0;
    while i < v.len()
        invariant
            i <= v.len(),
            s@ == v@.take(i as int),
        decreases v.len() - i,
    {
        push_char(&mut s, v[i]);
        proof {
            assert(v@.take(i + 1) == v@.take(i as int).push(v@[i as int]));
        }
        i += 1;
    }
    proof {
        assert(v@.take(v@.len() as int) == v@);
    }
    s
}

/// Equality of two string slices (std `PartialEq for str`): equal exactly when
/// they hold the same characters.
#[verifier::external_body]
pub(crate) fn str_eq(a: &str, b: &str) -> (r: bool)
    ensures
        r == (a@ == b@),
{
    a == b
}

/// Whether an optional string holds exactly the given text.
pub fn opt_is(o: &Option<String>, t: &str) -> (r: bool)
    ensures
        r == (o matches Some(s) && s@ == t@),
{
    match o {
        Some(s) => str_eq(s.as_str(), t),
        None => false,
    }
}

/// The view of an optional string.
pub open spec fn opt_str(o: Option<String>) -> Option<Seq<char>> {
    match o {
        Some(s) => Some(s@),
        None => None,
    }
}

/// The text of an optional value, empty when there is none.
pub open spec fn or_empty(o: Option<Seq<char>>) -> Seq<char> {
    match o {
        Some(s) => s,
        None => Seq::empty(),
    }
}

/// An optional string's text, or the empty string.
pub fn string_or_empty(o: &Option<String>) -> (r: String)
    ensures
        r@ == or_empty(opt_str(*o)),
{
    match o {
        Some(s) => s.clone(),
        None => String::new(),
    }
}

/// The view of an optional string slice.
pub open spec fn opt_str_ref(o: Option<&str>) -> Option<Seq<char>> {
    match o {
        Some(s) => Some(s@),
        None => None,
    }
}

/// A vector holding a copy of the given bytes.
pub fn copy_bytes(b: &[u8]) -> (v: Vec<u8>)
    ensures
        v@ == b@,
{
    let mut v: Vec<u8> = Vec::new();
    let mut i: usize = 0;
    while i < b.len()
        invariant
            i <= b.len(),
            v@ == b@.take(i as int),
        decreases b.len() - i,
    {
        v.push(b[i]);
        assert(b@.take(i + 1) == b@.take(i as int).push(b@[i as int]));
        i += 1;
    }
    assert(b@.take(b@.len() as int) == b@);
    v
}

/// A copy of an optional string.
pub fn clone_opt(o: &Option<String>) -> (r: Option<String>)
    ensures
        opt_str(r) == opt_str(*o),
{
    match o {
        Some(s) => Some(s.clone()),
        None => None,
    }
}

/// Whether a character has the Unicode `White_Space` property, as
/// `char::is_whitespace` tests.
pub open spec fn is_space(c: char) -> bool {
    let x = c as u32;
    ||| 0x09 <= x <= 0x0d
    ||| x == 0x20
    ||| x == 0x85
    ||| x == 0xa0
    ||| x == 0x1680
    ||| 0x2000 <= x <= 0x200a
    ||| x == 0x2028
    ||| x == 0x2029
    ||| x == 0x202f
    ||| x == 0x205f
    ||| x == 0x3000
}

/// Which characters a trim removes: white space, or one given character.
pub enum Strip {
    Space,
    Char(char),
}

pub open spec fn strips(cls: Strip, c: char) -> bool {
    match cls {
        Strip::Space => is_space(c),
        Strip::Char(d) => c == d,
    }
}

fn in_class(cls: &Strip, c: char) -> (r: bool)
    ensures
        r == strips(*cls, c),
{
    match cls {
        Strip::Space => {
            let x = c as u32;
            (0x09 <= x && x <= 0x0d) || x == 0x20 || x == 0x85 || x == 0xa0 || x == 0x1680 || (0x2000
                <= x && x <= 0x200a) || x == 0x2028 || x == 0x2029 || x == 0x202f || x == 0x205f
                || x == 0x3000
        },
        Strip::Char(d) => c == *d,
    }
}

/// A text without the characters of a class at its start.
pub open spec fn strip_start(cls: Strip, s: Seq<char>) -> Seq<char>
    decreases s.len(),
{
    if s.len() > 0 && strips(cls, s[0]) {
        strip_start(cls, s.drop_first())
    } else {
        s
    }
}

/// A text without the characters of a class at its end.
pub open spec fn strip_end(cls: Strip, s: Seq<char>) -> Seq<char>
    decreases s.len(),
{
    if s.len() > 0 && strips(cls, s.last()) {
        strip_end(cls, s.drop_last())
    } else {
        s
    }
}

/// A text without the characters of a class at either end, as `str::trim`
/// (white space) and `str::trim_matches` (one character) give it.
pub open spec fn strip_both(cls: Strip, s: Seq<char>) -> Seq<char> {
    strip_end(cls, strip_start(cls, s))
}

/// `str::trim`: the text without white space at either end.
pub open spec fn spec_trim(s: Seq<char>) -> Seq<char> {
    strip_both(Strip::Space, s)
}

proof fn lemma_strip_start_skip(cls: Strip, s: Seq<char>, k: int)
    requires
        0 <= k <= s.len(),
        forall|j: int| 0 <= j < k ==> strips(cls, #[trigger] s[j]),
    ensures
        strip_start(cls, s) == strip_start(cls, s.skip(k)),
    decreases k,
{
    if k > 0 {
        assert(s.drop_first().skip(k - 1) =~= s.skip(k));
        lemma_strip_start_skip(cls, s.drop_first(), k - 1);
    } else {
        assert(s.skip(0) =~= s);
    }
}

proof fn lemma_strip_end_take(cls: Strip, s: Seq<char>, k: int)
    requires
        0 <= k <= s.len(),
        forall|j: int| k <= j < s.len() ==> strips(cls, #[trigger] s[j]),
    ensures
        strip_end(cls, s) == strip_end(cls, s.take(k)),
    decreases s.len() - k,
{
    if k < s.len() {
        assert(s.drop_last().take(k) =~= s.take(k));
        lemma_strip_end_take(cls, s.drop_last(), k);
    } else {
        assert(s.take(k) =~= s);
    }
}

/// The characters of `s` without those of the class at the start (when
/// `front`) and at the end (when `back`).
pub fn strip_chars(s: &[char], cls: &Strip, front: bool, back: bool) -> (r: Vec<char>)
    ensures
        r@ == (if front {
            if back { strip_both(*cls, s@) } else { strip_start(*cls, s@) }
        } else {
            if back { strip_end(*cls, s@) } else { s@ }
        }),
{
    let n = s.len();
    let mut lo: usize = 0;
    if front {
        while lo < n && in_class(cls, s[lo])
            invariant
                n == s@.len(),
                lo <= n,
                forall|j: int| 0 <= j < lo ==> strips(*cls, #[trigger] s@[j]),
            decreases n - lo,
        {
            lo += 1;
        }
        proof {
            lemma_strip_start_skip(*cls, s@, lo as int);
        }
    }
    let ghost mid = s@.skip(lo as int);
    assert(front ==> strip_start(*cls, s@) == mid);
    let mut hi: usize = n;
    if back {
        while hi > lo && in_class(cls, s[hi - 1])
            invariant
                n == s@.len(),
                lo <= hi <= n,
                mid == s@.skip(lo as int),
                forall|j: int| hi <= j < n ==> strips(*cls, #[trigger] s@[j]),
            decreases hi - lo,
        {
            hi -= 1;
        }
        proof {
            assert forall|j: int| hi - lo <= j < mid.len() implies strips(*cls, #[trigger] mid[j]) by {
                assert(mid[j] == s@[j + lo]);
            }
            lemma_strip_end_take(*cls, mid, hi - lo);
            assert(mid.take(hi - lo) =~= s@.subrange(lo as int, hi as int));
        }
    }
    let mut r: Vec<char> = Vec::new();
    let mut i: usize = lo;
    while i < hi
        invariant
            n == s@.len(),
            lo <= i <= hi <= n,
            r@ == s@.subrange(lo as int, i as int),
        decreases hi - i,
    {
        r.push(s[i]);
        assert(s@.subrange(lo as int, i + 1) == s@.subrange(lo as int, i as int).push(s@[i as int]));
        i += 1;
    }
    proof {
        if !front {
            assert(s@.skip(0) =~= s@);
        }
        if !back {
            assert(s@.subrange(lo as int, n as int) =~= mid);
        }
        if front && !back {
            assert(r@ =~= strip_start(*cls, s@));
        }
    }
    r
}

/// `str::trim`: the text without white space at either end.
pub fn trim(s: &str) -> (r: String)
    ensures
        r@ == spec_trim(s@),
{
    let cs = chars_of(s);
    let t = strip_chars(cs.as_slice(), &Strip::Space, true, true);
    string_of(t.as_slice())
}

/// The position of the first `c` in `s` at or after `from`, or the length.
pub open spec fn index_of_char(s: Seq<char>, c: char, from: int) -> int
    decreases s.len() - from,
{
    if from >= s.len() {
        s.len() as int
    } else if s[from] == c {
        from
    } else {
        index_of_char(s, c, from + 1)
    }
}

/// Finds the first `c` in `s` at or after `from`.
pub fn find_char(s: &[char], c: char, from: usize) -> (r: usize)
    requires
        from <= s@.len(),
    ensures
        r as int == index_of_char(s@, c, from as int),
        from <= r <= s@.len(),
{
    let mut i = from;
    while i < s.len() && s[i] != c
        invariant
            from <= i <= s@.len(),
            index_of_char(s@, c, from as int) == index_of_char(s@, c, i as int),
        decreases s.len() - i,
    {
        i += 1;
    }
    i
}

/// Where the first `c` at or after `from` is: nothing before it is `c`.
pub proof fn lemma_index_of_char(s: Seq<char>, c: char, from: int)
    requires
        0 <= from <= s.len(),
    ensures
        from <= index_of_char(s, c, from) <= s.len(),
        index_of_char(s, c, from) < s.len() ==> s[index_of_char(s, c, from)] == c,
        forall|j: int| from <= j < index_of_char(s, c, from) ==> s[j] != c,
    decreases s.len() - from,
{
    if from < s.len() && s[from] != c {
        lemma_index_of_char(s, c, from + 1);
    }
}

/// A text padded with spaces on the right to at least `width` characters, as
/// `format!("{:<width$}")` pads it.
pub open spec fn pad_right(s: Seq<char>, width: int) -> Seq<char> {
    if s.len() >= width {
        s
    } else {
        s + Seq::new((width - s.len()) as nat, |i: int| ' ')
    }
}

/// Appends `s` padded with spaces to at least `width` characters.
pub fn push_padded(out: &mut String, s: &str, width: usize)
    ensures
        final(out)@ == old(out)@ + pad_right(s@, width as int),
{
    out.append(s);
    let n = chars_of(s).len();
    let mut k = n;
    while k < width
        invariant
            n == s@.len(),
            k >= n,
            k == n || k <= width,
            final_pad(old(out)@, s@, k as int, out@),
        decreases width - k,
    {
        push_char(out, ' ');
        k += 1;
    }
    proof {
        assert(final_pad(old(out)@, s@, k as int, out@));
        if n >= width {
            assert(Seq::new((k - s@.len()) as nat, |i: int| ' ') =~= Seq::<char>::empty());
            assert(out@ =~= old(out)@ + s@);
        } else {
            assert(k == width);
            assert(out@ =~= old(out)@ + (s@ + Seq::new((width - s@.len()) as nat, |i: int| ' ')));
        }
    }
}

pub open spec fn final_pad(before: Seq<char>, s: Seq<char>, k: int, now: Seq<char>) -> bool {
    now =~= before + s + Seq::new((k - s.len()) as nat, |i: int| ' ')
}

/// Texts joined with a separator between them.
pub open spec fn join_texts(parts: Seq<Seq<char>>, sep: Seq<char>) -> Seq<char>
    decreases parts.len(),
{
    if parts.len() == 0 {
        Seq::empty()
    } else if parts.len() == 1 {
        parts[0]
    } else {
        join_texts(parts.drop_last(), sep) + sep + parts.last()
    }
}

/// Strings joined with a separator between them.
pub fn join(parts: &Vec<String>, sep: &str) -> (r: String)
    ensures
        r@ == join_texts(parts@.map_values(|x: String| x@), sep@),
{
    let ghost pv = parts@.map_values(|x: String| x@);
    let mut r = String::new();
    let mut i: usize = 0;
    while i < parts.len()
        invariant
            i <= parts@.len(),
            pv == parts@.map_values(|x: String| x@),
            r@ == join_texts(pv.take(i as int), sep@),
        decreases parts.len() - i,
    {
        let ghost before = r@;
        if i > 0 {
            r.append(sep);
        }
        r.append(parts[i].as_str());
        proof {
            let t = pv.take(i + 1);
            assert(t.drop_last() =~= pv.take(i as int));
            assert(t.last() == parts@[i as int]@);
            if i == 0 {
                assert(before =~= Seq::<char>::empty());
                assert(r@ =~= t[0]);
            }
        }
        i += 1;
    }
    assert(pv.take(parts@.len() as int) =~= pv);
    r
}

/// Whether `needle` occurs in `hay`.
pub open spec fn contains_text(hay: Seq<char>, needle: Seq<char>) -> bool {
    exists|i: int| 0 <= i <= hay.len() - needle.len() && #[trigger] hay.subrange(i, i + needle.len()) == needle
}

/// Whether `needle` occurs in `hay` (std `str::contains`).
pub fn contains_chars(hay: &[char], needle: &[char]) -> (r: bool)
    ensures
        r == contains_text(hay@, needle@),
{
    if needle.len() > hay.len() {
        return false;
    }
    let hn = hay.len();
    let mut i: usize = 0;
    while i <= hay.len() - needle.len()
        invariant
            hn == hay@.len(),
            needle@.len() <= hay@.len(),
            i <= hay@.len() - needle@.len() + 1,
            forall|j: int| 0 <= j < i ==> #[trigger] hay@.subrange(j, j + needle@.len()) != needle@,
        decreases hay.len() - needle.len() + 1 - i,
    {
        let mut k: usize = 0;
        while k < needle.len() && hay[i + k] == needle[k]
            invariant
                hn == hay@.len(),
                i <= hay@.len() - needle@.len(),
                k <= needle@.len(),
                forall|m: int| 0 <= m < k ==> hay@[i + m] == needle@[m],
            decreases needle.len() - k,
        {
            k += 1;
        }
        if k == needle.len() {
            assert(hay@.subrange(i as int, i + needle@.len()) =~= needle@);
            return true;
        }
        assert(hay@.subrange(i as int, i + needle@.len())[k as int] != needle@[k as int]);
        i += 1;
    }
    false
}

/// The lower-case form of a text, as `str::to_lowercase` gives it.
pub uninterp spec fn lowercase(s: Seq<char>) -> Seq<char>;

/// `str::to_lowercase`: the text in lower case by the Unicode case mapping.
#[verifier::external_body]
pub(crate) fn to_lowercase(s: &str) -> (r: String)
    ensures
        r@ == lowercase(s@),
{
    s.to_lowercase()
}

/// Three texts one after another.
pub fn concat3(a: &str, b: &str, c: &str) -> (r: String)
    ensures
        r@ == a@ + b@ + c@,
{
    let mut r = a.to_owned();
    r.append(b);
    r.append(c);
    r
}

} // verus!
