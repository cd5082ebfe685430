//! The order of strings (lexicographic by character, which is the order of
//! `str`'s `Ord`, UTF-8 byte order being code point order) and sorting by it.
use vstd::prelude::*;
use crate::text::chars_of;

verus! {

broadcast use vstd::seq_lib::group_to_multiset_ensures;

/// Whether `a` comes before `b` or equals it, character by character.
pub open spec fn lex_le(a: Seq<char>, b: Seq<char>) -> bool
    decreases a.len(),
{
    if a.len() == 0 {
        true
    } else if b.len() == 0 {
        false
    } else if a[0] != b[0] {
        (a[0] as int) < (b[0] as int)
    } else {
        lex_le(a.drop_first(), b.drop_first())
    }
}

pub proof fn lemma_lex_total(a: Seq<char>, b: Seq<char>)
    ensures
        lex_le(a, b) || lex_le(b, a),
    decreases a.len(),
{
    if a.len() > 0 && b.len() > 0 && a[0] == b[0] {
        lemma_lex_total(a.drop_first(), b.drop_first());
    }
}

pub proof fn lemma_lex_antisym(a: Seq<char>, b: Seq<char>)
    requires
        lex_le(a, b),
        lex_le(b, a),
    ensures
        a == b,
    decreases a.len(),
{
    if a.len() > 0 && b.len() > 0 {
        if a[0] == b[0] {
            lemma_lex_antisym(a.drop_first(), b.drop_first());
            assert(a =~= seq![a[0]] + a.drop_first());
            assert(b =~= seq![b[0]] + b.drop_first());
        }
    } else {
        assert(a =~= b);
    }
}

pub proof fn lemma_lex_trans(a: Seq<char>, b: Seq<char>, c: Seq<char>)
    requires
        lex_le(a, b),
        lex_le(b, c),
    ensures
        lex_le(a, c),
    decreases a.len(),
{
    if a.len() > 0 && b.len() > 0 && c.len() > 0 && a[0] == b[0] && b[0] == c[0] {
        lemma_lex_trans(a.drop_first(), b.drop_first(), c.drop_first());
    }
}

/// Whether `a` comes before `b` or equals it, character by character.
pub fn lex_le_exec(a: &[char], b: &[char]) -> (r: bool)
    ensures
        r == lex_le(a@, b@),
{
    let mut i: usize = 0;
    assert(a@.skip(0) =~= a@);
    assert(b@.skip(0) =~= b@);
    while i < a.len() && i < b.len() && a[i] == b[i]
        invariant
            i <= a@.len(),
            i <= b@.len(),
            lex_le(a@, b@) == lex_le(a@.skip(i as int), b@.skip(i as int)),
        decreases a.len() - i,
    {
        assert(a@.skip(i as int).drop_first() =~= a@.skip(i + 1));
        assert(b@.skip(i as int).drop_first() =~= b@.skip(i + 1));
        i += 1;
    }
    if i == a.len() {
        true
    } else if i == b.len() {
        false
    } else {
        a[i] < b[i]
    }
}

/// Whether a sequence of texts is in order.
pub open spec fn sorted_texts(s: Seq<Seq<char>>) -> bool {
    forall|i: int, j: int| 0 <= i < j < s.len() ==> lex_le(#[trigger] s[i], #[trigger] s[j])
}

pub open spec fn texts(v: Seq<String>) -> Seq<Seq<char>> {
    v.map_values(|x: String| x@)
}

proof fn lemma_insert_multiset<A>(s: Seq<A>, p: int, x: A)
    requires
        0 <= p <= s.len(),
    ensures
        s.insert(p, x).to_multiset() =~= s.to_multiset().insert(x),
{
    let t = s.insert(p, x);
    s.insert_ensures(p, x);
    assert(t.remove(p) =~= s);
    assert(t.remove(p).to_multiset() =~= t.to_multiset().remove(t[p]));
    assert(t.to_multiset().count(x) > 0) by {
        assert(t.contains(x)) by {
            assert(t[p] == x);
        }
    }
}

/// Values that are ordered by a text key.
pub trait Keyed: Sized {
    spec fn key(&self) -> Seq<char>;

    fn key_chars(&self) -> (r: Vec<char>)
        ensures
            r@ == self.key(),
    ;
}

impl Keyed for String {
    open spec fn key(&self) -> Seq<char> {
        self@
    }

    fn key_chars(&self) -> (r: Vec<char>) {
        chars_of(self.as_str())
    }
}

/// The keys of a sequence of keyed values.
pub open spec fn keys_of<T: Keyed>(v: Seq<T>) -> Seq<Seq<char>> {
    v.map_values(|x: T| x.key())
}

/// Sorts by key, stably (insertion after every element with a key not greater);
/// each value is kept as often as it occurs.
pub fn sort_by_key<T: Keyed>(v: Vec<T>) -> (r: Vec<T>)
    ensures
        sorted_texts(keys_of(r@)),
        r@.to_multiset() == v@.to_multiset(),
        keys_of(r@).to_multiset() == keys_of(v@).to_multiset(),
{
    let ghost v0 = v@;
    let mut v = v;
    let mut r: Vec<T> = Vec::new();
    let mut ks: Vec<Vec<char>> = Vec::new();
    let ghost mut i: int = 0;
    while v.len() > 0
        invariant
            0 <= i <= v0.len(),
            v@ == v0.skip(i),
            r@.len() == ks@.len(),
            forall|k: int| 0 <= k < r@.len() ==> (#[trigger] ks@[k])@ == r@[k].key(),
            sorted_texts(keys_of(r@)),
            r@.to_multiset() == v0.take(i).to_multiset(),
            keys_of(r@).to_multiset() == keys_of(v0.take(i)).to_multiset(),
        decreases v.len(),
    {
        let x = v.remove(0);
        assert(x == v0[i]);
        let xk = x.key_chars();
        let mut p: usize = 0;
        while p < r.len() && lex_le_exec(ks[p].as_slice(), xk.as_slice())
            invariant
                p <= r@.len(),
                r@.len() == ks@.len(),
                forall|k: int| 0 <= k < r@.len() ==> (#[trigger] ks@[k])@ == r@[k].key(),
                forall|k: int| 0 <= k < p ==> lex_le(#[trigger] r@[k].key(), x.key()),
                xk@ == x.key(),
            decreases r.len() - p,
        {
            p += 1;
        }
        let ghost old_r = r@;
        proof {
            assert forall|a: int, b: int| 0 <= a < b < old_r.len() implies lex_le(old_r[a].key(), old_r[b].key()) by {
                assert(lex_le(keys_of(old_r)[a], keys_of(old_r)[b]));
            }
            if p < r@.len() {
                lemma_lex_total(r@[p as int].key(), x.key());
            }
        }
        let ghost xv = x;
        r.insert(p, x);
        ks.insert(p, xk);
        proof {
            old_r.insert_ensures(p as int, xv);
            assert(r@ == old_r.insert(p as int, xv));
            assert forall|a: int, b: int| 0 <= a < b < r@.len() implies lex_le(
                #[trigger] keys_of(r@)[a],
                #[trigger] keys_of(r@)[b],
            ) by {
                if a < p && b < p {
                    assert(lex_le(old_r[a].key(), old_r[b].key()));
                } else if a < p && b == p {
                } else if a < p && b > p {
                    assert(lex_le(old_r[a].key(), xv.key()));
                    assert(lex_le(xv.key(), old_r[p as int].key()));
                    if b - 1 > p {
                        assert(lex_le(old_r[p as int].key(), old_r[b - 1].key()));
                        lemma_lex_trans(xv.key(), old_r[p as int].key(), old_r[b - 1].key());
                    }
                    lemma_lex_trans(old_r[a].key(), xv.key(), old_r[b - 1].key());
                } else if a == p {
                    assert(lex_le(xv.key(), old_r[p as int].key()));
                    if b - 1 > p {
                        assert(lex_le(old_r[p as int].key(), old_r[b - 1].key()));
                        lemma_lex_trans(xv.key(), old_r[p as int].key(), old_r[b - 1].key());
                    }
                } else {
                    assert(lex_le(old_r[a - 1].key(), old_r[b - 1].key()));
                }
            }
            lemma_insert_multiset(old_r, p as int, xv);
            assert(keys_of(r@) =~= keys_of(old_r).insert(p as int, xv.key()));
            lemma_insert_multiset(keys_of(old_r), p as int, xv.key());
            assert(v0.take(i + 1) =~= v0.take(i).push(v0[i]));
            assert(keys_of(v0.take(i + 1)) =~= keys_of(v0.take(i)).push(v0[i].key()));
            assert(v0.skip(i + 1) =~= v0.skip(i).remove(0));
            i = i + 1;
        }
    }
    assert(v0.take(i) =~= v0);
    r
}

/// The strings in order, each as often as in the input.
pub fn sort_strings(v: Vec<String>) -> (r: Vec<String>)
    ensures
        sorted_texts(texts(r@)),
        texts(r@).to_multiset() == texts(v@).to_multiset(),
{
    let r = sort_by_key(v);
    assert(keys_of(r@) =~= texts(r@));
    assert(keys_of(v@) =~= texts(v@));
    r
}

} // verus!
