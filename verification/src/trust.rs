//! The trust list: which project directories may resolve which key ids.
use vstd::prelude::*;
use crate::error::{ErrorCode, VaultError};
use crate::order::{sort_strings, sorted_texts, texts};
use crate::text::{chars_of, str_eq, string_of, strip_chars, strip_end, Strip};

verus! {

broadcast use vstd::seq_lib::group_to_multiset_ensures;

/// A project directory and the key ids it may resolve.
pub struct TrustEntry {
    pub project: String,
    pub keys: Vec<String>,
    pub added_at: String,
}

/// Whether the trust list lets `project` resolve `key`.
pub open spec fn trusts(es: Seq<TrustEntry>, project: Seq<char>, key: Seq<char>) -> bool {
    exists|i: int| 0 <= i < es.len() && (#[trigger] es[i]).project@ == project && texts(es[i].keys@).contains(key)
}

/// Whether the trust list lets `project` resolve `key_id`.
pub fn trust_allowed(entries: &Vec<TrustEntry>, project: &str, key_id: &str) -> (r: bool)
    ensures
        r == trusts(entries@, project@, key_id@),
{
    let mut i: usize = 0;
    while i < entries.len()
        invariant
            i <= entries@.len(),
            forall|j: int| 0 <= j < i ==> !((#[trigger] entries@[j]).project@ == project@ && texts(entries@[j].keys@).contains(key_id@)),
        decreases entries.len() - i,
    {
        if str_eq(entries[i].project.as_str(), project) {
            let keys = &entries[i].keys;
            let mut k: usize = 0;
            while k < keys.len()
                invariant
                    k <= keys@.len(),
                    i < entries@.len(),
                    keys@ == entries@[i as int].keys@,
                    entries@[i as int].project@ == project@,
                    forall|j: int| 0 <= j < k ==> keys@[j]@ != key_id@,
                decreases keys.len() - k,
            {
                if str_eq(keys[k].as_str(), key_id) {
                    assert(texts(keys@)[k as int] == key_id@);
                    assert(texts(entries@[i as int].keys@).contains(key_id@));
                    return true;
                }
                k += 1;
            }
            assert(!texts(keys@).contains(key_id@));
        }
        i += 1;
    }
    false
}

/// A project path as the trust list keys it: without trailing `/`.
pub open spec fn project_key(p: Seq<char>) -> Seq<char> {
    strip_end(Strip::Char('/'), p)
}

/// The project path without trailing `/`.
pub fn normalize_project(p: &str) -> (r: String)
    ensures
        r@ == project_key(p@),
{
    let cs = chars_of(p);
    let t = strip_chars(cs.as_slice(), &Strip::Char('/'), false, true);
    string_of(t.as_slice())
}

/// The keys already granted followed by the new ones that are not yet there,
/// each new one once.
pub open spec fn merge_keys(acc: Seq<Seq<char>>, new: Seq<Seq<char>>) -> Seq<Seq<char>>
    decreases new.len(),
{
    if new.len() == 0 {
        acc
    } else {
        let a = merge_keys(acc, new.drop_last());
        if a.contains(new.last()) {
            a
        } else {
            a.push(new.last())
        }
    }
}

pub proof fn lemma_merge_keys_contains(acc: Seq<Seq<char>>, new: Seq<Seq<char>>, k: Seq<char>)
    ensures
        merge_keys(acc, new).contains(k) <==> (acc.contains(k) || new.contains(k)),
    decreases new.len(),
{
    if new.len() > 0 {
        lemma_merge_keys_contains(acc, new.drop_last(), k);
        let a = merge_keys(acc, new.drop_last());
        if new.contains(k) && !new.drop_last().contains(k) {
            let i = choose|i: int| 0 <= i < new.len() && new[i] == k;
            if i < new.len() - 1 {
                assert(new.drop_last()[i] == k);
            }
            if !a.contains(new.last()) {
                assert(a.push(new.last())[a.len() as int] == k);
            }
        }
        if new.drop_last().contains(k) {
            let i = choose|i: int| 0 <= i < new.drop_last().len() && new.drop_last()[i] == k;
            assert(new[i] == k);
        }
        if a.contains(k) && !a.contains(new.last()) {
            let i = choose|i: int| 0 <= i < a.len() && a[i] == k;
            assert(a.push(new.last())[i] == k);
        }
        if !a.contains(new.last()) && a.push(new.last()).contains(k) {
            let i = choose|i: int| 0 <= i < a.len() + 1 && a.push(new.last())[i] == k;
            if i < a.len() {
                assert(a[i] == k);
            }
        }
    }
}

/// The index of the first entry for a project.
pub open spec fn is_first_project(es: Seq<TrustEntry>, project: Seq<char>, k: int) -> bool {
    &&& 0 <= k < es.len()
    &&& es[k].project@ == project
    &&& forall|j: int| 0 <= j < k ==> (#[trigger] es[j]).project@ != project
}

fn find_project(es: &Vec<TrustEntry>, project: &str) -> (r: Option<usize>)
    ensures
        r matches Some(k) ==> is_first_project(es@, project@, k as int),
        r is None ==> forall|j: int| 0 <= j < es@.len() ==> (#[trigger] es@[j]).project@ != project@,
{
    let mut i: usize = 0;
    while i < es.len()
        invariant
            i <= es@.len(),
            forall|j: int| 0 <= j < i ==> (#[trigger] es@[j]).project@ != project@,
        decreases es.len() - i,
    {
        if str_eq(es[i].project.as_str(), project) {
            return Some(i);
        }
        i += 1;
    }
    None
}

fn clone_strings(v: &Vec<String>) -> (r: Vec<String>)
    ensures
        r@ == v@,
{
    let mut r: Vec<String> = Vec::new();
    let mut i: usize = 0;
    while i < v.len()
        invariant
            i <= v@.len(),
            r@ == v@.take(i as int),
        decreases v.len() - i,
    {
        r.push(v[i].clone());
        assert(v@.take(i + 1) =~= v@.take(i as int).push(v@[i as int]));
        i += 1;
    }
    assert(v@.take(v@.len() as int) =~= v@);
    r
}

/// The key ids among the keys of a request: those given as strings, in order.
pub open spec fn key_texts(keys: Seq<Option<String>>) -> Seq<Seq<char>>
    decreases keys.len(),
{
    if keys.len() == 0 {
        Seq::empty()
    } else {
        let rest = key_texts(keys.drop_last());
        match keys.last() {
            Some(k) => rest.push(k@),
            None => rest,
        }
    }
}

/// Grants `project` (without trailing `/`) the key ids that the request gives
/// as strings (`None` stands for a key of another JSON type), added to those it
/// has, kept in order. An empty project, or a request without keys, is `BAD_REQUEST`.
/// Gives the project path as recorded.
pub fn trust_add(entries: &mut Vec<TrustEntry>, project: &str, keys: &Vec<Option<String>>) -> (r: Result<String, VaultError>)
    ensures
        project_key(project@).len() == 0 || keys@.len() == 0 ==> (r matches Err(e) && e.code == ErrorCode::BadRequest
            && e.message@ == "project 与 keys 必填"@),
        project_key(project@).len() > 0 && keys@.len() > 0 ==> r is Ok,
        r is Err ==> final(entries)@ == old(entries)@,
        r matches Ok(p) ==> {
            let pk = project_key(project@);
            &&& p@ == pk
            &&& if exists|k: int| is_first_project(old(entries)@, pk, k) {
                exists|k: int| {
                    &&& is_first_project(old(entries)@, pk, k)
                    &&& final(entries)@.len() == old(entries)@.len()
                    &&& (forall|j: int| 0 <= j < old(entries)@.len() && j != k ==> #[trigger] final(entries)@[j] == old(entries)@[j])
                    &&& final(entries)@[k].project == old(entries)@[k].project
                    &&& final(entries)@[k].added_at == old(entries)@[k].added_at
                    &&& sorted_texts(texts(final(entries)@[k].keys@))
                    &&& texts(final(entries)@[k].keys@).to_multiset() == merge_keys(texts(old(entries)@[k].keys@), key_texts(keys@)).to_multiset()
                }
            } else {
                let e = final(entries)@.last();
                &&& final(entries)@ == old(entries)@.push(e)
                &&& e.project@ == pk
                &&& sorted_texts(texts(e.keys@))
                &&& texts(e.keys@).to_multiset() == merge_keys(Seq::empty(), key_texts(keys@)).to_multiset()
            }
        },
{
    let p = normalize_project(project);
    if p.as_str().is_empty() || keys.len() == 0 {
        return Err(VaultError::new(ErrorCode::BadRequest, "project 与 keys 必填".to_owned()));
    }
    let found = find_project(entries, p.as_str());
    let mut merged: Vec<String> = match found {
        Some(k) => clone_strings(&entries[k].keys),
        None => Vec::new(),
    };
    let ghost base = texts(merged@);
    let mut i: usize = 0;
    while i < keys.len()
        invariant
            i <= keys@.len(),
            texts(merged@) == merge_keys(base, key_texts(keys@.take(i as int))),
        decreases keys.len() - i,
    {
        assert(keys@.take(i + 1).drop_last() =~= keys@.take(i as int));
        if let Some(k) = &keys[i] {
            let present = crate::entries::contains_str(&merged, k.as_str());
            let ghost t = key_texts(keys@.take(i + 1));
            assert(t == key_texts(keys@.take(i as int)).push(k@));
            assert(t.drop_last() =~= key_texts(keys@.take(i as int)));
            if !present {
                merged.push(k.clone());
                assert(texts(merged@) =~= merge_keys(base, key_texts(keys@.take(i as int))).push(k@));
            }
        } else {
            assert(key_texts(keys@.take(i + 1)) == key_texts(keys@.take(i as int)));
        }
        i += 1;
    }
    assert(keys@.take(keys@.len() as int) =~= keys@);
    let sorted = sort_strings(merged);
    match found {
        Some(k) => {
            let e = TrustEntry { project: entries[k].project.clone(), keys: sorted, added_at: entries[k].added_at.clone() };
            entries.set(k, e);
            assert(is_first_project(old(entries)@, project_key(project@), k as int));
        },
        None => {
            proof {
                if exists|k: int| is_first_project(old(entries)@, project_key(project@), k) {
                    let k = choose|k: int| is_first_project(old(entries)@, project_key(project@), k);
                    assert(old(entries)@[k].project@ == project_key(project@));
                }
            }
            assert(texts(Seq::<String>::empty()) =~= Seq::<Seq<char>>::empty());
            let e = TrustEntry { project: p.clone(), keys: sorted, added_at: crate::crypto::now_iso() };
            entries.push(e);
        },
    }
    Ok(p)
}

/// Granting keys makes them resolvable, for that project alone: after
/// `trust_add` succeeds, the project may resolve each of the keys, whatever was
/// trusted before still is, and nothing else is trusted.
pub proof fn lemma_trust_add_grants(old: Seq<TrustEntry>, new: Seq<TrustEntry>, project: Seq<char>, keys: Seq<Seq<char>>)
    requires
        if exists|k: int| is_first_project(old, project, k) {
            exists|k: int| {
                &&& is_first_project(old, project, k)
                &&& new.len() == old.len()
                &&& (forall|j: int| 0 <= j < old.len() && j != k ==> #[trigger] new[j] == old[j])
                &&& new[k].project == old[k].project
                &&& texts(new[k].keys@).to_multiset() == merge_keys(texts(old[k].keys@), keys).to_multiset()
            }
        } else {
            &&& new == old.push(new.last())
            &&& new.last().project@ == project
            &&& texts(new.last().keys@).to_multiset() == merge_keys(Seq::empty(), keys).to_multiset()
        },
    ensures
        forall|key: Seq<char>| keys.contains(key) ==> trusts(new, project, key),
        forall|q: Seq<char>, key: Seq<char>| trusts(old, q, key) ==> trusts(new, q, key),
        forall|q: Seq<char>, key: Seq<char>| trusts(new, q, key) ==> trusts(old, q, key) || (q == project && keys.contains(key)),
{
    if exists|k: int| is_first_project(old, project, k) {
        let k = choose|k: int| {
            &&& is_first_project(old, project, k)
            &&& new.len() == old.len()
            &&& (forall|j: int| 0 <= j < old.len() && j != k ==> #[trigger] new[j] == old[j])
            &&& new[k].project == old[k].project
            &&& texts(new[k].keys@).to_multiset() == merge_keys(texts(old[k].keys@), keys).to_multiset()
        };
        assert forall|key: Seq<char>| keys.contains(key) implies trusts(new, project, key) by {
            lemma_merge_keys_contains(texts(old[k].keys@), keys, key);
            assert(merge_keys(texts(old[k].keys@), keys).to_multiset().count(key) > 0);
            assert(texts(new[k].keys@).contains(key));
        }
        assert forall|q: Seq<char>, key: Seq<char>| trusts(old, q, key) implies trusts(new, q, key) by {
            let i = choose|i: int| 0 <= i < old.len() && (#[trigger] old[i]).project@ == q && texts(old[i].keys@).contains(key);
            if i == k {
                lemma_merge_keys_contains(texts(old[k].keys@), keys, key);
                assert(merge_keys(texts(old[k].keys@), keys).to_multiset().count(key) > 0);
                assert(texts(new[k].keys@).contains(key));
            } else {
                assert(new[i] == old[i]);
            }
        }
        assert forall|q: Seq<char>, key: Seq<char>| trusts(new, q, key) implies trusts(old, q, key) || (q == project
            && keys.contains(key)) by {
            let i = choose|i: int| 0 <= i < new.len() && (#[trigger] new[i]).project@ == q && texts(new[i].keys@).contains(key);
            if i == k {
                assert(texts(new[k].keys@).to_multiset().count(key) > 0);
                lemma_merge_keys_contains(texts(old[k].keys@), keys, key);
                if texts(old[k].keys@).contains(key) {
                    assert(trusts(old, q, key));
                }
            } else {
                assert(new[i] == old[i]);
                assert(trusts(old, q, key));
            }
        }
    } else {
        let e = new.last();
        assert forall|key: Seq<char>| keys.contains(key) implies trusts(new, project, key) by {
            lemma_merge_keys_contains(Seq::empty(), keys, key);
            assert(merge_keys(Seq::empty(), keys).to_multiset().count(key) > 0);
            assert(texts(e.keys@).contains(key));
            assert(new[new.len() - 1] == e);
        }
        assert forall|q: Seq<char>, key: Seq<char>| trusts(old, q, key) implies trusts(new, q, key) by {
            let i = choose|i: int| 0 <= i < old.len() && (#[trigger] old[i]).project@ == q && texts(old[i].keys@).contains(key);
            assert(new[i] == old[i]);
        }
        assert forall|q: Seq<char>, key: Seq<char>| trusts(new, q, key) implies trusts(old, q, key) || (q == project
            && keys.contains(key)) by {
            let i = choose|i: int| 0 <= i < new.len() && (#[trigger] new[i]).project@ == q && texts(new[i].keys@).contains(key);
            if i == old.len() {
                assert(new[i] == e);
                assert(texts(e.keys@).to_multiset().count(key) > 0);
                lemma_merge_keys_contains(Seq::empty(), keys, key);
            } else {
                assert(new[i] == old[i]);
                assert(trusts(old, q, key));
            }
        }
    }
}

/// Whether a trust entry is for another project than `project`.
pub open spec fn project_differs(project: Seq<char>) -> spec_fn(TrustEntry) -> bool {
    |e: TrustEntry| e.project@ != project
}

/// The trust list without the entries of `project`.
pub open spec fn without_project(es: Seq<TrustEntry>, project: Seq<char>) -> Seq<TrustEntry> {
    es.filter(project_differs(project))
}

/// Revoking is complete and touches no other project: after `trust_remove`, the
/// project may resolve nothing, and every other project exactly what it could.
pub proof fn lemma_trust_remove_revokes(old: Seq<TrustEntry>, project: Seq<char>)
    ensures
        forall|key: Seq<char>| !#[trigger] trusts(without_project(old, project), project, key),
        forall|q: Seq<char>, key: Seq<char>| q != project ==> (#[trigger] trusts(without_project(old, project), q, key)
            <==> trusts(old, q, key)),
{
    let pred = project_differs(project);
    let new = without_project(old, project);
    assert forall|key: Seq<char>| !trusts(new, project, key) by {
        if trusts(new, project, key) {
            let i = choose|i: int| 0 <= i < new.len() && (#[trigger] new[i]).project@ == project && texts(new[i].keys@).contains(key);
            old.lemma_filter_pred(pred, i);
        }
    }
    assert forall|q: Seq<char>, key: Seq<char>| q != project implies (trusts(new, q, key) <==> trusts(old, q, key)) by {
        if trusts(new, q, key) {
            let i = choose|i: int| 0 <= i < new.len() && (#[trigger] new[i]).project@ == q && texts(new[i].keys@).contains(key);
            old.lemma_filter_contains_rev(pred, new[i]);
            let j = choose|j: int| 0 <= j < old.len() && old[j] == new[i];
            assert(old[j].project@ == q);
        }
        if trusts(old, q, key) {
            let i = choose|i: int| 0 <= i < old.len() && (#[trigger] old[i]).project@ == q && texts(old[i].keys@).contains(key);
            old.lemma_filter_contains(pred, i);
            let j = choose|j: int| 0 <= j < new.len() && new[j] == old[i];
            assert(new[j].project@ == q);
        }
    }
}

/// Removes every entry of `project` (without trailing `/`) from the trust list.
pub fn trust_remove(entries: &mut Vec<TrustEntry>, project: &str) -> (p: String)
    ensures
        p@ == project_key(project@),
        final(entries)@ == without_project(old(entries)@, project_key(project@)),
{
    let p = normalize_project(project);
    let ghost pred = project_differs(project_key(project@));
    let ghost o = old(entries)@;
    let mut i: usize = 0;
    let ghost mut j: int = 0;
    while i < entries.len()
        invariant
            0 <= j <= o.len(),
            o == old(entries)@,
            p@ == project_key(project@),
            pred == project_differs(project_key(project@)),
            i == o.take(j).filter(pred).len(),
            entries@ == o.take(j).filter(pred) + o.skip(j),
        decreases entries@.len() - i,
    {
        proof {
            reveal_with_fuel(Seq::<_>::filter, 1);
            assert(o.take(j + 1).drop_last() =~= o.take(j));
            assert(entries@[i as int] == o[j]);
        }
        if str_eq(entries[i].project.as_str(), p.as_str()) {
            let _gone = entries.remove(i);
            proof {
                assert(entries@ =~= o.take(j + 1).filter(pred) + o.skip(j + 1));
                j = j + 1;
            }
        } else {
            proof {
                assert(o.take(j + 1).filter(pred) =~= o.take(j).filter(pred).push(o[j]));
                assert(entries@ =~= o.take(j + 1).filter(pred) + o.skip(j + 1));
                j = j + 1;
            }
            i += 1;
        }
    }
    proof {
        if j < o.len() {
            assert(entries@.len() == o.take(j).filter(pred).len() + o.skip(j).len());
        }
        assert(o.take(o.len() as int) =~= o);
        assert(entries@ =~= o.filter(pred));
    }
    p
}

} // verus!
