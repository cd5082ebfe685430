//! The vault's content: its entries and their key ids, and the operations that
//! the daemon performs on them.
use vstd::prelude::*;
use vstd::set_lib::{lemma_int_range, lemma_len_subset, lemma_map_size, set_int_range};
use crate::error::{ErrorCode, VaultError};
use crate::hex::{hex_char, lemma_hex_roundtrip, spec_from_hex, spec_to_hex, to_hex};
use crate::order::texts;
use crate::text::{concat3, opt_str, or_empty, str_eq, trim, spec_trim};

verus! {

/// A field of an entry as the vault's JSON holds it: a string, any other
/// JSON value (`null`, a number, an array, ...) kept as its JSON text, or
/// nothing when the entry lacks the key.
#[derive(Debug, Clone, PartialEq, Eq)]
pub enum Field {
    Text(String),
    Json(String),
    Absent,
}

/// The content of a field.
pub enum FieldView {
    Text(Seq<char>),
    Json(Seq<char>),
    Absent,
}

impl View for Field {
    type V = FieldView;

    open spec fn view(&self) -> FieldView {
        match self {
            Field::Text(s) => FieldView::Text(s@),
            Field::Json(j) => FieldView::Json(j@),
            Field::Absent => FieldView::Absent,
        }
    }
}

/// The text of a field that is a string; the empty text otherwise.
pub open spec fn text_of(f: FieldView) -> Seq<char> {
    match f {
        FieldView::Text(s) => s,
        FieldView::Json(_) => Seq::empty(),
        FieldView::Absent => Seq::empty(),
    }
}

/// Whether a field is a non-empty string.
pub open spec fn has_text(f: FieldView) -> bool {
    f matches FieldView::Text(s) && s.len() > 0
}

/// A request's field, or the empty string when the request lacks it.
pub open spec fn given(o: Option<Field>) -> FieldView {
    match o {
        Some(f) => f@,
        None => FieldView::Text(Seq::empty()),
    }
}

/// The text of a request's field, where it holds a string.
pub open spec fn body_text(o: Option<Field>) -> Option<Seq<char>> {
    match o {
        Some(f) => match f@ {
            FieldView::Text(s) => Some(s),
            FieldView::Json(_) => None,
            FieldView::Absent => None,
        },
        None => None,
    }
}

/// A copy of a field.
pub fn clone_field(f: &Field) -> (c: Field)
    ensures
        c == *f,
{
    match f {
        Field::Text(s) => Field::Text(s.clone()),
        Field::Json(j) => Field::Json(j.clone()),
        Field::Absent => Field::Absent,
    }
}

/// The text of a field that is a string; the empty text otherwise.
pub fn field_text(f: &Field) -> (s: String)
    ensures
        s@ == text_of(f@),
{
    match f {
        Field::Text(s) => s.clone(),
        Field::Json(_) => String::new(),
        Field::Absent => String::new(),
    }
}

/// Whether a field is the given string.
fn field_is(f: &Field, t: &str) -> (r: bool)
    ensures
        r == (f@ == FieldView::Text(t@)),
{
    match f {
        Field::Text(s) => str_eq(s.as_str(), t),
        Field::Json(_) => false,
        Field::Absent => false,
    }
}

/// A request's field, or the empty string when the request lacks it.
fn given_field(o: &Option<Field>) -> (f: Field)
    ensures
        f@ == given(*o),
{
    match o {
        Some(f) => clone_field(f),
        None => Field::Text(String::new()),
    }
}

/// One stored secret. Configuration files refer to it by its key id.
pub struct Entry {
    pub id: String,
    pub name: Field,
    pub username: Field,
    pub url: Field,
    pub notes: Field,
    pub password: Field,
    pub created_at: Field,
    pub updated_at: Field,
    /// The entry's other keys, as the JSON text of an object holding them.
    pub extra: String,
}

/// The vault's metadata: when it was created and the PBKDF2 rounds it was sealed with.
pub struct Meta {
    pub created_at: Field,
    pub kdf_iterations: Option<u64>,
    /// The metadata's other keys, as the JSON text of an object holding them.
    pub extra: String,
}

/// The decrypted content of a vault.
pub struct VaultData {
    pub entries: Vec<Entry>,
    pub meta: Meta,
    /// The content's other keys, as the JSON text of an object holding them.
    pub extra: String,
}

/// Whether some entry has the given key id.
pub open spec fn has_id(es: Seq<Entry>, id: Seq<char>) -> bool {
    exists|i: int| 0 <= i < es.len() && #[trigger] es[i].id@ == id
}

/// Whether some entry has the given name.
pub open spec fn has_name(es: Seq<Entry>, name: Seq<char>) -> bool {
    exists|i: int| 0 <= i < es.len() && #[trigger] es[i].name@ == FieldView::Text(name)
}

/// Whether `k` is the first entry with the given key id.
pub open spec fn is_first_id(es: Seq<Entry>, id: Seq<char>, k: int) -> bool {
    &&& 0 <= k < es.len()
    &&& es[k].id@ == id
    &&& forall|j: int| 0 <= j < k ==> (#[trigger] es[j]).id@ != id
}

/// Whether the key ids of the entries are pairwise different.
pub open spec fn ids_distinct(es: Seq<Entry>) -> bool {
    forall|i: int, j: int| 0 <= i < j < es.len() ==> (#[trigger] es[i]).id@ != (#[trigger] es[j]).id@
}

/// Whether no two entries have the same name (among names that are strings).
pub open spec fn names_distinct(es: Seq<Entry>) -> bool {
    forall|i: int, j: int| 0 <= i < j < es.len() && (#[trigger] es[i]).name@ is Text ==> es[i].name@ != (#[trigger] es[j]).name@
}

/// The content of a new vault: no entries, created now, sealed with `iterations` rounds.
pub fn new_vault_data(created_at: String, iterations: u32) -> (d: VaultData)
    ensures
        d.entries@.len() == 0,
        d.meta.created_at@ == FieldView::Text(created_at@),
        d.meta.extra@.len() == 0,
        d.extra@.len() == 0,
        d.meta.kdf_iterations == Some(iterations as u64),
{
    VaultData {
        entries: Vec::new(),
        meta: Meta { created_at: Field::Text(created_at), kdf_iterations: Some(iterations as u64), extra: String::new() },
        extra: String::new(),
    }
}

/// Checks the decrypted vault (`None` when it is not a JSON object with an
/// `entries` array) against the rounds recorded outside the ciphertext: a
/// mismatch means the envelope was tampered with.
pub fn check_unlocked_data(data: Option<VaultData>, iterations: u32) -> (r: Result<VaultData, VaultError>)
    ensures
        match data {
            None => r matches Err(e) && e.code == ErrorCode::VaultCorrupt && e.message@ == "密库内部结构异常"@,
            Some(d) => if d.meta.kdf_iterations == Some(iterations as u64) {
                r matches Ok(o) && o == d
            } else {
                r matches Err(e) && e.code == ErrorCode::VaultCorrupt && e.message@ == "KDF 参数与密文不一致，数据可能被篡改"@
            },
        },
{
    match data {
        None => Err(VaultError::new(ErrorCode::VaultCorrupt, "密库内部结构异常".to_owned())),
        Some(d) => {
            let ok = match d.meta.kdf_iterations {
                Some(n) => n == iterations as u64,
                None => false,
            };
            if ok {
                Ok(d)
            } else {
                Err(VaultError::new(ErrorCode::VaultCorrupt, "KDF 参数与密文不一致，数据可能被篡改".to_owned()))
            }
        },
    }
}

/// The index of the first entry with the given key id.
pub fn find_entry(es: &Vec<Entry>, id: &str) -> (r: Option<usize>)
    ensures
        r matches Some(k) ==> is_first_id(es@, id@, k as int),
        r is None ==> !has_id(es@, id@),
{
    let mut i: usize = 0;
    while i < es.len()
        invariant
            i <= es@.len(),
            forall|j: int| 0 <= j < i ==> (#[trigger] es@[j]).id@ != id@,
        decreases es.len() - i,
    {
        if str_eq(es[i].id.as_str(), id) {
            return Some(i);
        }
        i += 1;
    }
    None
}

/// The index of an entry with the given name.
pub fn find_name(es: &Vec<Entry>, name: &str) -> (r: Option<usize>)
    ensures
        r is Some == has_name(es@, name@),
        r matches Some(k) ==> k < es@.len() && es@[k as int].name@ == FieldView::Text(name@)
            && forall|j: int| 0 <= j < k ==> (#[trigger] es@[j]).name@ != FieldView::Text(name@),
{
    let mut i: usize = 0;
    while i < es.len()
        invariant
            i <= es@.len(),
            forall|j: int| 0 <= j < i ==> (#[trigger] es@[j]).name@ != FieldView::Text(name@),
        decreases es.len() - i,
    {
        if field_is(&es[i].name, name) {
            return Some(i);
        }
        i += 1;
    }
    None
}

/// Whether a list of strings holds the given text.
pub fn contains_str(v: &Vec<String>, s: &str) -> (r: bool)
    ensures
        r == v@.map_values(|x: String| x@).contains(s@),
{
    let ghost vs = v@.map_values(|x: String| x@);
    let mut i: usize = 0;
    while i < v.len()
        invariant
            i <= v@.len(),
            vs == v@.map_values(|x: String| x@),
            forall|j: int| 0 <= j < i ==> vs[j] != s@,
        decreases v.len() - i,
    {
        if str_eq(v[i].as_str(), s) {
            assert(vs[i as int] == s@);
            return true;
        }
        i += 1;
    }
    false
}

/// The key ids of the entries, in order.
pub fn entry_ids(es: &Vec<Entry>) -> (r: Vec<String>)
    ensures
        r@.len() == es@.len(),
        r@.map_values(|x: String| x@) == es@.map_values(|e: Entry| e.id@),
{
    let mut r: Vec<String> = Vec::new();
    let mut i: usize = 0;
    while i < es.len()
        invariant
            i <= es@.len(),
            r@.len() == i,
            forall|j: int| 0 <= j < i ==> (#[trigger] r@[j])@ == es@[j].id@,
        decreases es.len() - i,
    {
        r.push(es[i].id.clone());
        i += 1;
    }
    assert(r@.map_values(|x: String| x@) =~= es@.map_values(|e: Entry| e.id@));
    r
}

/// The text of a key id made from four bytes: `kx_` and their hexadecimal digits.
pub open spec fn key_id_text(b: Seq<u8>) -> Seq<char> {
    "kx_"@ + spec_to_hex(b)
}

/// Whether a text has the shape of a generated key id: `kx_` and eight
/// lower-case hexadecimal digits.
pub open spec fn is_generated_id(s: Seq<char>) -> bool {
    &&& s.len() == 11
    &&& s.take(3) == "kx_"@
    &&& forall|i: int| 3 <= i < 11 ==> (#[trigger] s[i] == hex_char(hex_digit_of(s[i])) && 0 <= hex_digit_of(s[i]) < 16)
}

/// The value of a lower-case hexadecimal digit.
pub open spec fn hex_digit_of(c: char) -> int {
    if c as int <= 57 {
        c as int - 48
    } else {
        c as int - 87
    }
}

proof fn lemma_key_id_shape(b: Seq<u8>)
    requires
        b.len() == 4,
    ensures
        is_generated_id(key_id_text(b)),
{
    reveal_strlit("kx_");
    let s = key_id_text(b);
    assert(s.take(3) =~= "kx_"@);
    assert forall|i: int| 3 <= i < 11 implies (#[trigger] s[i] == hex_char(hex_digit_of(s[i])) && 0 <= hex_digit_of(s[i]) < 16) by {
        let h = spec_to_hex(b);
        assert(s[i] == h[i - 3]);
        let x = b[(i - 3) / 2] as int;
        assert(0 <= x / 16 < 16 && 0 <= x % 16 < 16);
    }
}

/// The key id built from four bytes.
fn key_id_from(b: &[u8]) -> (s: String)
    ensures
        s@ == key_id_text(b@),
{
    let mut s = "kx_".to_owned();
    let h = to_hex(b);
    s.append(h.as_str());
    s
}

/// The four big-endian bytes of a 32-bit number.
pub open spec fn be_bytes(i: u32) -> Seq<u8> {
    seq![(i >> 24u32) as u8, (i >> 16u32) as u8, (i >> 8u32) as u8, i as u8]
}

proof fn lemma_be_bytes_injective(i: u32, j: u32)
    requires
        be_bytes(i) == be_bytes(j),
    ensures
        i == j,
{
    assert(be_bytes(i)[0] == be_bytes(j)[0]);
    assert(be_bytes(i)[1] == be_bytes(j)[1]);
    assert(be_bytes(i)[2] == be_bytes(j)[2]);
    assert(be_bytes(i)[3] == be_bytes(j)[3]);
    assert(((i >> 24u32) as u8 == (j >> 24u32) as u8 && (i >> 16u32) as u8 == (j >> 16u32) as u8
        && (i >> 8u32) as u8 == (j >> 8u32) as u8 && i as u8 == j as u8) ==> i == j) by (bit_vector);
}

/// The candidate key id tried in the `i`-th place when random ones keep colliding.
pub open spec fn fallback_id(i: int) -> Seq<char> {
    key_id_text(be_bytes(i as u32))
}

proof fn lemma_fallback_injective(i: int, j: int)
    requires
        0 <= i < 0x1_0000_0000,
        0 <= j < 0x1_0000_0000,
        fallback_id(i) == fallback_id(j),
    ensures
        i == j,
{
    reveal_strlit("kx_");
    let a = spec_to_hex(be_bytes(i as u32));
    let b = spec_to_hex(be_bytes(j as u32));
    assert(a =~= fallback_id(i).skip(3));
    assert(b =~= fallback_id(j).skip(3));
    lemma_hex_roundtrip(be_bytes(i as u32));
    lemma_hex_roundtrip(be_bytes(j as u32));
    lemma_be_bytes_injective(i as u32, j as u32);
}

/// Among the first `n + 1` fallback ids, one is not among `n` existing ids.
proof fn lemma_free_fallback(existing: Seq<Seq<char>>)
    requires
        existing.len() < 0x1_0000_0000,
    ensures
        exists|i: int| 0 <= i <= existing.len() && !existing.contains(#[trigger] fallback_id(i)),
{
    let n = existing.len() as int;
    if forall|i: int| 0 <= i <= n ==> existing.contains(#[trigger] fallback_id(i)) {
        let x = set_int_range(0, n + 1);
        lemma_int_range(0, n + 1);
        let f = |i: int| fallback_id(i);
        let y = x.map(f);
        assert forall|a: int, b: int| x.contains(a) && x.contains(b) && #[trigger] f(a) == #[trigger] f(b) implies a == b by {
            lemma_fallback_injective(a, b);
        }
        assert(vstd::relations::injective_on(f, x));
        lemma_map_size(x, y, f);
        let e = existing.to_set();
        assert forall|v: Seq<char>| y.contains(v) implies e.contains(v) by {
            let i = choose|i: int| x.contains(i) && f(i) == v;
            assert(existing.contains(fallback_id(i)));
        }
        existing.lemma_cardinality_of_set();
        lemma_len_subset(y, e);
        assert(false);
    }
}

/// A new key id, `kx_` and eight lower-case hexadecimal digits, that none of
/// `existing` holds. The digits are random; should random ids keep colliding,
/// the ids of the numbers 0, 1, ... are tried in turn, one of which is free.
pub fn new_key_id(existing: &Vec<String>) -> (kid: String)
    requires
        existing@.len() < 0x1_0000_0000,
    ensures
        !existing@.map_values(|x: String| x@).contains(kid@),
        is_generated_id(kid@),
{
    let ghost ex = existing@.map_values(|x: String| x@);
    let mut attempt: u64 = 0;
    while attempt < u64::MAX
        invariant
            ex == existing@.map_values(|x: String| x@),
        decreases u64::MAX - attempt,
    {
        let b = crate::crypto::random_bytes(4);
        let kid = key_id_from(b.as_slice());
        if !contains_str(existing, kid.as_str()) {
            proof {
                lemma_key_id_shape(b@);
            }
            return kid;
        }
        attempt += 1;
    }
    proof {
        lemma_free_fallback(ex);
    }
    let n = existing.len();
    let mut i: usize = 0;
    while i <= n
        invariant
            n == existing@.len(),
            n < 0x1_0000_0000,
            ex == existing@.map_values(|x: String| x@),
            i <= n + 1,
            forall|k: int| 0 <= k < i ==> ex.contains(#[trigger] fallback_id(k)),
            exists|k: int| 0 <= k <= n && !ex.contains(#[trigger] fallback_id(k)),
        decreases n + 1 - i,
    {
        let v = i as u32;
        let b: [u8; 4] = [(v >> 24u32) as u8, (v >> 16u32) as u8, (v >> 8u32) as u8, v as u8];
        assert(b@ =~= be_bytes(v));
        let kid = key_id_from(&b);
        if !contains_str(existing, kid.as_str()) {
            proof {
                lemma_key_id_shape(b@);
            }
            return kid;
        }
        i += 1;
    }
    proof {
        let k = choose|k: int| 0 <= k <= n && !ex.contains(#[trigger] fallback_id(k));
        assert(ex.contains(fallback_id(k)));
    }
    String::new()
}

/// A copy of an entry.
pub fn clone_entry(e: &Entry) -> (c: Entry)
    ensures
        c == *e,
{
    Entry {
        id: e.id.clone(),
        name: clone_field(&e.name),
        username: clone_field(&e.username),
        url: clone_field(&e.url),
        notes: clone_field(&e.notes),
        password: clone_field(&e.password),
        created_at: clone_field(&e.created_at),
        updated_at: clone_field(&e.updated_at),
        extra: e.extra.clone(),
    }
}

/// The fields of a request that creates or changes an entry, each present when
/// the request holds it: `id` where it is a string, the others whatever JSON
/// value they carry.
pub struct EntryBody {
    pub id: Option<String>,
    pub name: Option<Field>,
    pub username: Option<Field>,
    pub url: Option<Field>,
    pub notes: Option<Field>,
    pub password: Option<Field>,
}

/// The name under which a request creates an entry: its `name`, trimmed, where
/// it is a string; the empty text otherwise.
pub open spec fn new_entry_name(b: EntryBody) -> Seq<char> {
    spec_trim(or_empty(body_text(b.name)))
}

/// A result's text or error code.
pub open spec fn text_result(r: Result<String, VaultError>) -> Result<Seq<char>, ErrorCode> {
    match r {
        Ok(s) => Ok(s@),
        Err(e) => Err(e.code),
    }
}

/// What adding an entry does: `BAD_REQUEST` for an empty name, `NAME_EXISTS`
/// for a name in use (the entries unchanged), else the entry is appended under
/// a fresh generated key id, with the request's fields (missing ones empty).
pub open spec fn add_outcome(old: Seq<Entry>, new: Seq<Entry>, body: EntryBody, r: Result<Seq<char>, ErrorCode>) -> bool {
    let name = new_entry_name(body);
    &&& name.len() == 0 ==> r == Err::<Seq<char>, ErrorCode>(ErrorCode::BadRequest)
    &&& name.len() > 0 && has_name(old, name) ==> r == Err::<Seq<char>, ErrorCode>(ErrorCode::NameExists)
    &&& r is Err ==> new == old
    &&& name.len() > 0 && !has_name(old, name) ==> r is Ok
    &&& r matches Ok(kid) ==> {
        let e = new.last();
        &&& new == old.push(e)
        &&& !has_id(old, kid)
        &&& is_generated_id(kid)
        &&& e.id@ == kid
        &&& e.name@ == FieldView::Text(name)
        &&& e.username@ == given(body.username)
        &&& e.url@ == given(body.url)
        &&& e.notes@ == given(body.notes)
        &&& e.password@ == given(body.password)
        &&& e.created_at is Text && e.updated_at is Text
        &&& e.extra@.len() == 0
    }
}

/// The message of a request that cannot add an entry under `name`: the name is
/// empty, or the first entry with it is named, with how to change its password.
pub open spec fn name_in_use_message(es: Seq<Entry>, name: Seq<char>) -> Seq<char> {
    if name.len() == 0 {
        "name 必填"@
    } else {
        let kid = es[choose|k: int| 0 <= k < es.len() && es[k].name@ == FieldView::Text(name) && forall|j: int| 0 <= j < k ==> (#[trigger] es[j]).name@ != FieldView::Text(name)].id@;
        "名称「"@ + name + "」已存在（"@ + kid + "）。要换密码用 keyx rotate "@ + kid + "；要存不同的密码请换个名字。"@
    }
}

/// Adds an entry under a fresh key id. The name, trimmed, must be non-empty
/// (`BAD_REQUEST`) and not already in use (`NAME_EXISTS`); missing fields are empty.
pub fn add_entry(entries: &mut Vec<Entry>, body: &EntryBody) -> (r: Result<String, VaultError>)
    requires
        old(entries)@.len() < 0x1_0000_0000,
    ensures
        add_outcome(old(entries)@, final(entries)@, *body, text_result(r)),
        r matches Err(e) ==> e.message@ == name_in_use_message(old(entries)@, new_entry_name(*body)),
{
    let raw: String = match &body.name {
        Some(Field::Text(t)) => t.clone(),
        _ => String::new(),
    };
    assert(raw@ == or_empty(body_text(body.name)));
    let name = trim(raw.as_str());
    if name.as_str().is_empty() {
        return Err(VaultError::new(ErrorCode::BadRequest, "name 必填".to_owned()));
    }
    if let Some(k) = find_name(entries, name.as_str()) {
        let kid = entries[k].id.as_str();
        let mut msg = concat3("名称「", name.as_str(), "」已存在（");
        msg.append(kid);
        msg.append("）。要换密码用 keyx rotate ");
        msg.append(kid);
        msg.append("；要存不同的密码请换个名字。");
        proof {
            let es = old(entries)@;
            let t = FieldView::Text(name@);
            let c = choose|c: int| 0 <= c < es.len() && es[c].name@ == t && forall|j: int| 0 <= j < c ==> (#[trigger] es[j]).name@ != t;
            assert(0 <= k < es.len() && es[k as int].name@ == t && forall|j: int| 0 <= j < k ==> (#[trigger] es[j]).name@ != t);
            if c < k {
                assert(es[c].name@ != t);
            } else if k < c {
                assert(es[k as int].name@ != t);
            }
        }
        return Err(VaultError::new(ErrorCode::NameExists, msg));
    }
    let existing = entry_ids(entries);
    let kid = new_key_id(&existing);
    proof {
        let ex = existing@.map_values(|x: String| x@);
        if has_id(old(entries)@, kid@) {
            let i = choose|i: int| 0 <= i < old(entries)@.len() && #[trigger] old(entries)@[i].id@ == kid@;
            assert(ex[i] == kid@);
        }
    }
    let e = Entry {
        id: kid.clone(),
        name: Field::Text(name),
        username: given_field(&body.username),
        url: given_field(&body.url),
        notes: given_field(&body.notes),
        password: given_field(&body.password),
        created_at: Field::Text(crate::crypto::now_iso()),
        updated_at: Field::Text(crate::crypto::now_iso()),
        extra: String::new(),
    };
    entries.push(e);
    Ok(kid)
}

/// The names of the fields that a request changes, in the order name,
/// username, url, notes, password.
pub open spec fn changed_fields(b: EntryBody) -> Seq<Seq<char>> {
    (if b.name is Some { seq!["name"@] } else { seq![] })
        + (if b.username is Some { seq!["username"@] } else { seq![] })
        + (if b.url is Some { seq!["url"@] } else { seq![] })
        + (if b.notes is Some { seq!["notes"@] } else { seq![] })
        + (if b.password is Some { seq!["password"@] } else { seq![] })
}

/// A field's new text: the request's when it holds one, the old one otherwise.
pub open spec fn patched(new: Option<Field>, old: FieldView) -> FieldView {
    match new {
        Some(s) => s@,
        None => old,
    }
}

/// Whether renaming the entry `kid` to the request's name would clash with
/// another entry's name.
pub open spec fn rename_clashes(es: Seq<Entry>, kid: Seq<char>, b: EntryBody) -> bool {
    body_text(b.name) matches Some(n) && exists|j: int| 0 <= j < es.len() && (#[trigger] es[j]).id@ != kid && es[j].name@ == FieldView::Text(n)
}

/// A result's success or error code.
pub open spec fn unit_result<T>(r: Result<T, VaultError>) -> Result<(), ErrorCode> {
    match r {
        Ok(_) => Ok(()),
        Err(e) => Err(e.code),
    }
}

/// What changing an entry does: `NAME_EXISTS` when the new name is another
/// entry's, `NOT_FOUND` for an unknown key id (the entries unchanged), else the
/// first entry with the key id takes the request's fields, keeping its key id
/// and time of creation, and no other entry changes.
pub open spec fn update_outcome(old: Seq<Entry>, new: Seq<Entry>, kid: Seq<char>, body: EntryBody, r: Result<(), ErrorCode>) -> bool {
    &&& rename_clashes(old, kid, body) ==> r == Err::<(), ErrorCode>(ErrorCode::NameExists)
    &&& !rename_clashes(old, kid, body) && !has_id(old, kid) ==> r == Err::<(), ErrorCode>(ErrorCode::NotFound)
    &&& r is Err ==> new == old
    &&& !rename_clashes(old, kid, body) && has_id(old, kid) ==> r is Ok
    &&& r is Ok ==> exists|k: int| {
        &&& is_first_id(old, kid, k)
        &&& new.len() == old.len()
        &&& (forall|j: int| 0 <= j < old.len() && j != k ==> #[trigger] new[j] == old[j])
        &&& new[k].id == old[k].id
        &&& new[k].name@ == patched(body.name, old[k].name@)
        &&& new[k].username@ == patched(body.username, old[k].username@)
        &&& new[k].url@ == patched(body.url, old[k].url@)
        &&& new[k].notes@ == patched(body.notes, old[k].notes@)
        &&& new[k].password@ == patched(body.password, old[k].password@)
        &&& new[k].created_at == old[k].created_at
        &&& new[k].extra == old[k].extra
    }
}

/// Changes the fields that the request holds of the first entry with key id
/// `kid`, and its time of update; gives the names of the changed fields.
/// A new name used by another entry is `NAME_EXISTS`; an unknown key id is `NOT_FOUND`.
pub fn update_entry(entries: &mut Vec<Entry>, kid: &str, body: &EntryBody) -> (r: Result<Vec<String>, VaultError>)
    ensures
        update_outcome(old(entries)@, final(entries)@, kid@, *body, unit_result(r)),
        r matches Ok(changed) ==> texts(changed@) == changed_fields(*body),
        r matches Err(e) ==> e.message@ == (if e.code == ErrorCode::NameExists {
            "名称「"@ + body_text(body.name)->0 + "」已被其他条目使用"@
        } else {
            "不存在 "@ + kid@
        }),
{
    if let Some(Field::Text(new_name)) = &body.name {
        let mut j: usize = 0;
        while j < entries.len()
            invariant
                j <= entries@.len(),
                entries@ == old(entries)@,
                body_text(body.name) == Some(new_name@),
                forall|i: int| 0 <= i < j ==> !((#[trigger] entries@[i]).id@ != kid@ && entries@[i].name@ == FieldView::Text(new_name@)),
            decreases entries.len() - j,
        {
            if !str_eq(entries[j].id.as_str(), kid) && field_is(&entries[j].name, new_name.as_str()) {
                return Err(VaultError::new(ErrorCode::NameExists, concat3("名称「", new_name.as_str(), "」已被其他条目使用")));
            }
            j += 1;
        }
    }
    let k = match find_entry(entries, kid) {
        Some(k) => k,
        None => {
            proof {
                reveal_strlit("");
            }
            return Err(VaultError::new(ErrorCode::NotFound, concat3("不存在 ", kid, "")));
        },
    };
    let mut e = clone_entry(&entries[k]);
    let mut changed: Vec<String> = Vec::new();
    if let Some(v) = &body.name {
        e.name = clone_field(v);
        changed.push("name".to_owned());
    }
    if let Some(v) = &body.username {
        e.username = clone_field(v);
        changed.push("username".to_owned());
    }
    if let Some(v) = &body.url {
        e.url = clone_field(v);
        changed.push("url".to_owned());
    }
    if let Some(v) = &body.notes {
        e.notes = clone_field(v);
        changed.push("notes".to_owned());
    }
    if let Some(v) = &body.password {
        e.password = clone_field(v);
        changed.push("password".to_owned());
    }
    e.updated_at = Field::Text(crate::crypto::now_iso());
    entries.set(k, e);
    assert(changed@.map_values(|x: String| x@) =~= changed_fields(*body));
    Ok(changed)
}

/// The entries without the given key id.
pub open spec fn without_id(es: Seq<Entry>, kid: Seq<char>) -> Seq<Entry> {
    es.filter(id_differs(kid))
}

/// Whether an entry's key id differs from `kid`.
pub open spec fn id_differs(kid: Seq<char>) -> spec_fn(Entry) -> bool {
    |e: Entry| e.id@ != kid
}

/// Removes every entry with the given key id; `NOT_FOUND` when there is none.
pub fn delete_entry(entries: &mut Vec<Entry>, kid: &str) -> (r: Result<(), VaultError>)
    ensures
        r is Ok <==> has_id(old(entries)@, kid@),
        r matches Err(e) ==> e.code == ErrorCode::NotFound && e.message@ == "不存在 "@ + kid@,
        final(entries)@ == without_id(old(entries)@, kid@),
{
    let ghost pred = id_differs(kid@);
    let mut kept: Vec<Entry> = Vec::new();
    let mut i: usize = 0;
    while i < entries.len()
        invariant
            i <= entries@.len(),
            entries@ == old(entries)@,
            pred == id_differs(kid@),
            kept@ == entries@.take(i as int).filter(pred),
            kept@.len() == i <==> (forall|j: int| 0 <= j < i ==> (#[trigger] entries@[j]).id@ != kid@),
            kept@.len() <= i,
        decreases entries.len() - i,
    {
        proof {
            reveal_with_fuel(Seq::<_>::filter, 1);
            assert(entries@.take(i + 1).drop_last() =~= entries@.take(i as int));
        }
        if !str_eq(entries[i].id.as_str(), kid) {
            kept.push(clone_entry(&entries[i]));
        }
        i += 1;
    }
    assert(entries@.take(entries@.len() as int) =~= entries@);
    let found = kept.len() < entries.len();
    *entries = kept;
    proof {
        reveal_strlit("");
    }
    if found {
        Ok(())
    } else {
        Err(VaultError::new(ErrorCode::NotFound, concat3("不存在 ", kid, "")))
    }
}

/// What the entry list shows of an entry: never its password.
pub struct EntrySummary {
    pub id: String,
    pub name: Field,
    pub username: Field,
    pub url: Field,
    pub has_password: bool,
    pub updated_at: Field,
}

/// The entry list: every entry without its password, in order.
pub fn summaries(entries: &Vec<Entry>) -> (r: Vec<EntrySummary>)
    ensures
        r@.len() == entries@.len(),
        forall|i: int| 0 <= i < r@.len() ==> {
            let s = #[trigger] r@[i];
            let e = entries@[i];
            &&& s.id == e.id
            &&& s.name == e.name
            &&& s.username == e.username
            &&& s.url == e.url
            &&& s.has_password == has_text(e.password@)
            &&& s.updated_at == e.updated_at
        },
{
    let mut r: Vec<EntrySummary> = Vec::new();
    let mut i: usize = 0;
    while i < entries.len()
        invariant
            i <= entries@.len(),
            r@.len() == i,
            forall|j: int| 0 <= j < i ==> {
                let s = #[trigger] r@[j];
                let e = entries@[j];
                &&& s.id == e.id
                &&& s.name == e.name
                &&& s.username == e.username
                &&& s.url == e.url
                &&& s.has_password == has_text(e.password@)
                &&& s.updated_at == e.updated_at
            },
        decreases entries.len() - i,
    {
        let e = &entries[i];
        r.push(
            EntrySummary {
                id: e.id.clone(),
                name: clone_field(&e.name),
                username: clone_field(&e.username),
                url: clone_field(&e.url),
                has_password: match &e.password {
                    Field::Text(p) => !p.as_str().is_empty(),
                    _ => false,
                },
                updated_at: clone_field(&e.updated_at),
            },
        );
        i += 1;
    }
    r
}

/// A stored secret can be read back: right after an entry is added, its key id
/// finds the new entry first, with the password it was added with.
pub proof fn lemma_added_entry_resolves(old: Seq<Entry>, new: Seq<Entry>, body: EntryBody, kid: Seq<char>)
    requires
        add_outcome(old, new, body, Ok(kid)),
    ensures
        is_first_id(new, kid, old.len() as int),
        new[old.len() as int].password@ == given(body.password),
        forall|j: int| 0 <= j < old.len() ==> #[trigger] new[j] == old[j],
{
    let e = new.last();
    assert(new[old.len() as int] == e);
    assert forall|j: int| 0 <= j < old.len() implies (#[trigger] new[j]).id@ != kid by {
        assert(new[j] == old[j]);
    }
}

/// Rotation keeps the reference: after the password of `kid` is changed, the
/// same key id finds the same entry first, now with the new password, and no
/// other entry changes.
pub proof fn lemma_rotation_keeps_key_id(old: Seq<Entry>, new: Seq<Entry>, kid: Seq<char>, body: EntryBody)
    requires
        update_outcome(old, new, kid, body, Ok(())),
        body.password is Some,
    ensures
        exists|k: int| is_first_id(old, kid, k) && is_first_id(new, kid, k) && new[k].password@ == body.password->0@
            && (forall|j: int| 0 <= j < old.len() && j != k ==> #[trigger] new[j] == old[j]),
{
    let k = choose|k: int| {
        &&& is_first_id(old, kid, k)
        &&& new.len() == old.len()
        &&& (forall|j: int| 0 <= j < old.len() && j != k ==> #[trigger] new[j] == old[j])
        &&& new[k].id == old[k].id
        &&& new[k].password@ == patched(body.password, old[k].password@)
    };
    assert forall|j: int| 0 <= j < k implies (#[trigger] new[j]).id@ != kid by {
        assert(new[j] == old[j]);
    }
    assert(is_first_id(new, kid, k));
}

/// Adding keeps key ids and names unique.
pub proof fn lemma_add_keeps_unique(old: Seq<Entry>, new: Seq<Entry>, body: EntryBody, kid: Seq<char>)
    requires
        add_outcome(old, new, body, Ok(kid)),
    ensures
        ids_distinct(old) ==> ids_distinct(new),
        names_distinct(old) ==> names_distinct(new),
{
    let n = old.len() as int;
    assert(new[n] == new.last());
    assert forall|i: int, j: int| 0 <= i < j < new.len() && ids_distinct(old) implies (#[trigger] new[i]).id@ != (#[trigger] new[j]).id@ by {
        if j == n {
            assert(new[i] == old[i]);
        } else {
            assert(new[i] == old[i] && new[j] == old[j]);
        }
    }
    assert forall|i: int, j: int| 0 <= i < j < new.len() && names_distinct(old) && (#[trigger] new[i]).name@ is Text
        implies new[i].name@ != (#[trigger] new[j]).name@ by {
        if j == n {
            assert(new[i] == old[i]);
            assert(!has_name(old, new_entry_name(body)));
            assert(old[i].name@ != FieldView::Text(new_entry_name(body)));
        } else {
            assert(new[i] == old[i] && new[j] == old[j]);
            assert(old[i].name@ is Text);
        }
    }
}

/// Changing an entry keeps key ids and names unique.
pub proof fn lemma_update_keeps_unique(old: Seq<Entry>, new: Seq<Entry>, kid: Seq<char>, body: EntryBody)
    requires
        update_outcome(old, new, kid, body, Ok(())),
    ensures
        ids_distinct(old) ==> ids_distinct(new),
        ids_distinct(old) && names_distinct(old) ==> names_distinct(new),
{
    let k = choose|k: int| {
        &&& is_first_id(old, kid, k)
        &&& new.len() == old.len()
        &&& (forall|j: int| 0 <= j < old.len() && j != k ==> #[trigger] new[j] == old[j])
        &&& new[k].id == old[k].id
        &&& new[k].name@ == patched(body.name, old[k].name@)
    };
    assert forall|i: int, j: int| 0 <= i < j < new.len() && ids_distinct(old) implies (#[trigger] new[i]).id@ != (#[trigger] new[j]).id@ by {
        assert(old[i].id@ != old[j].id@);
        if i != k {
            assert(new[i] == old[i]);
        }
        if j != k {
            assert(new[j] == old[j]);
        }
    }
    assert forall|i: int, j: int| 0 <= i < j < new.len() && ids_distinct(old) && names_distinct(old)
        && (#[trigger] new[i]).name@ is Text implies new[i].name@ != (#[trigger] new[j]).name@ by {
        assert(old[i].id@ != old[j].id@);
        assert(!rename_clashes(old, kid, body));
        if i != k && j != k {
            assert(new[i] == old[i] && new[j] == old[j]);
            assert(old[i].name@ is Text);
        } else if i == k {
            assert(new[j] == old[j]);
            assert(old[j].id@ != kid);
            match body.name {
                None => {
                    assert(old[i].name@ is Text);
                },
                Some(f) => {
                    if let FieldView::Text(t) = f@ {
                        assert(body_text(body.name) == Some(t));
                        assert(!(old[j].id@ != kid && old[j].name@ == FieldView::Text(t)));
                    }
                },
            }
        } else {
            assert(new[i] == old[i]);
            assert(old[i].id@ != kid);
            assert(old[i].name@ is Text);
            match body.name {
                None => {},
                Some(f) => {
                    if let FieldView::Text(t) = f@ {
                        assert(body_text(body.name) == Some(t));
                        assert(!(old[i].id@ != kid && old[i].name@ == FieldView::Text(t)));
                    }
                },
            }
        }
    }
}

/// Deleting a key id leaves no entry with it.
pub proof fn lemma_deleted_id_gone(es: Seq<Entry>, kid: Seq<char>)
    ensures
        !has_id(without_id(es, kid), kid),
{
    let f = without_id(es, kid);
    assert forall|i: int| 0 <= i < f.len() implies (#[trigger] f[i]).id@ != kid by {
        es.lemma_filter_pred(id_differs(kid), i);
    }
}

} // verus!
