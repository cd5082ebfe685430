//! Reference resolution for `keyx run`: which environment variables get which
//! key ids, from explicit `--env` options, the `[env]` table of `.keyx.toml`
//! and the `kx_` references of `.env`, first come first served.
use vstd::prelude::*;
use crate::order::{lex_le, sort_strings, sorted_texts, texts};
use crate::text::{
    chars_of, find_char, index_of_char, is_space, spec_trim, str_eq, string_of, strip_both, strip_chars, trim,
    Strip,
};

verus! {

broadcast use vstd::seq_lib::group_to_multiset_ensures;

/// Whether a character may follow `kx_` in a key reference.
pub open spec fn is_ref_char(c: char) -> bool {
    ||| 48 <= c as int <= 57
    ||| 65 <= c as int <= 90
    ||| 97 <= c as int <= 122
    ||| c == '_'
    ||| c == '-'
}

/// Whether a text is a key reference: `kx_` followed by at least one ASCII
/// letter, digit, `_` or `-`, and nothing else.
pub open spec fn spec_is_kx_ref(s: Seq<char>) -> bool {
    &&& s.len() > 3
    &&& s.take(3) == "kx_"@
    &&& forall|i: int| 3 <= i < s.len() ==> is_ref_char(#[trigger] s[i])
}

fn is_kx_ref_chars(cs: &[char]) -> (r: bool)
    ensures
        r == spec_is_kx_ref(cs@),
{
    proof {
        reveal_strlit("kx_");
    }
    if cs.len() <= 3 || cs[0] != 'k' || cs[1] != 'x' || cs[2] != '_' {
        proof {
            if cs@.len() > 3 && cs@.take(3) == "kx_"@ {
                assert(cs@.take(3)[0] == 'k' && cs@.take(3)[1] == 'x' && cs@.take(3)[2] == '_');
            }
        }
        return false;
    }
    assert(cs@.take(3) =~= "kx_"@);
    let mut i: usize = 3;
    while i < cs.len()
        invariant
            3 <= i <= cs@.len(),
            forall|j: int| 3 <= j < i ==> is_ref_char(#[trigger] cs@[j]),
        decreases cs.len() - i,
    {
        let c = cs[i];
        let ok = ('0' <= c && c <= '9') || ('A' <= c && c <= 'Z') || ('a' <= c && c <= 'z') || c == '_' || c == '-';
        if !ok {
            return false;
        }
        i += 1;
    }
    true
}

/// Whether a text is a key reference (`kx_…`).
pub fn is_kx_ref(s: &str) -> (r: bool)
    ensures
        r == spec_is_kx_ref(s@),
{
    let cs = chars_of(s);
    is_kx_ref_chars(cs.as_slice())
}

/// A value inside a table of a TOML document, as far as references read it:
/// a string, or anything else.
pub enum TomlValue {
    Str(String),
    Other,
}

/// The content of a nested TOML value.
pub enum TomlValueView {
    Str(Seq<char>),
    Other,
}

impl View for TomlValue {
    type V = TomlValueView;

    open spec fn view(&self) -> TomlValueView {
        match self {
            TomlValue::Str(s) => TomlValueView::Str(s@),
            TomlValue::Other => TomlValueView::Other,
        }
    }
}

/// A value of a TOML document's top table: a string, a table, or anything else.
pub enum TomlItem {
    Str(String),
    Table(Vec<(String, TomlValue)>),
    Other,
}

/// The content of a top-level TOML value.
pub enum TomlItemView {
    Str(Seq<char>),
    Table(Seq<(Seq<char>, TomlValueView)>),
    Other,
}

impl View for TomlItem {
    type V = TomlItemView;

    open spec fn view(&self) -> TomlItemView {
        match self {
            TomlItem::Str(s) => TomlItemView::Str(s@),
            TomlItem::Table(t) => TomlItemView::Table(t@.map_values(|p: (String, TomlValue)| (p.0@, p.1@))),
            TomlItem::Other => TomlItemView::Other,
        }
    }
}

/// The top table of a TOML document, its entries in the order of the `toml`
/// crate's map (by key); nothing when the text does not parse.
pub uninterp spec fn toml_parse(text: Seq<char>) -> Option<Seq<(Seq<char>, TomlItemView)>>;

/// The content of a document's top table.
pub open spec fn doc_views(v: Seq<(String, TomlItem)>) -> Seq<(Seq<char>, TomlItemView)> {
    v.map_values(|p: (String, TomlItem)| (p.0@, p.1@))
}

/// The top table of a TOML document (`toml::from_str` into a `toml::Table`),
/// each value converted variant by variant, one level of nested tables deep:
/// strings and tables are kept, every other kind of value is `Other`.
#[verifier::external_body]
fn toml_document(text: &str) -> (r: Option<Vec<(String, TomlItem)>>)
    ensures
        match r {
            Some(d) => toml_parse(text@) == Some(doc_views(d@)),
            None => toml_parse(text@) is None,
        },
{
    let doc: toml::Table = toml::from_str(text).ok()?;
    Some(doc.into_iter().map(|(k, v)| (k, match v {
        toml::Value::String(s) => TomlItem::Str(s),
        toml::Value::Table(t) => TomlItem::Table(t.into_iter().map(|(k2, v2)| (k2, match v2 {
            toml::Value::String(s) => TomlValue::Str(s),
            _ => TomlValue::Other,
        })).collect()),
        _ => TomlItem::Other,
    })).collect())
}

/// The value under `key` in a table, where it has one.
pub open spec fn toml_lookup(doc: Seq<(Seq<char>, TomlItemView)>, key: Seq<char>) -> Option<TomlItemView>
    decreases doc.len(),
{
    if doc.len() == 0 {
        None
    } else if doc[0].0 == key {
        Some(doc[0].1)
    } else {
        toml_lookup(doc.drop_first(), key)
    }
}

/// A nested value as text, where it is a string.
pub open spec fn value_text(v: TomlValueView) -> Option<Seq<char>> {
    match v {
        TomlValueView::Str(s) => Some(s),
        TomlValueView::Other => None,
    }
}

/// The entries of a document's `[env]` table: each key with its value as text
/// where that is a string. No `env` key, or an `env` that is not a table, gives none.
pub open spec fn env_entries(doc: Seq<(Seq<char>, TomlItemView)>) -> Seq<(Seq<char>, Option<Seq<char>>)> {
    match toml_lookup(doc, "env"@) {
        Some(TomlItemView::Table(t)) => t.map_values(|p: (Seq<char>, TomlValueView)| (p.0, value_text(p.1))),
        _ => Seq::empty(),
    }
}

/// The entries of the `[env]` table of a TOML text; nothing when it does not parse.
pub open spec fn toml_env_table(text: Seq<char>) -> Option<Seq<(Seq<char>, Option<Seq<char>>)>> {
    match toml_parse(text) {
        Some(doc) => Some(env_entries(doc)),
        None => None,
    }
}

pub open spec fn pair_views(v: Seq<(String, Option<String>)>) -> Seq<(Seq<char>, Option<Seq<char>>)> {
    v.map_values(|p: (String, Option<String>)| (p.0@, crate::text::opt_str(p.1)))
}

/// The entries of a document's `[env]` table, each value as text where it is a string.
pub fn env_table(doc: &Vec<(String, TomlItem)>) -> (r: Vec<(String, Option<String>)>)
    ensures
        pair_views(r@) == env_entries(doc_views(doc@)),
{
    proof {
        reveal_strlit("env");
    }
    let ghost dv = doc_views(doc@);
    let mut i: usize = 0;
    assert(dv.skip(0) =~= dv);
    while i < doc.len()
        invariant
            i <= doc@.len(),
            dv == doc_views(doc@),
            toml_lookup(dv, "env"@) == toml_lookup(dv.skip(i as int), "env"@),
        decreases doc.len() - i,
    {
        assert(dv.skip(i as int)[0] == dv[i as int]);
        if str_eq(doc[i].0.as_str(), "env") {
            let mut r: Vec<(String, Option<String>)> = Vec::new();
            match &doc[i].1 {
                TomlItem::Table(t) => {
                    let ghost tv = t@.map_values(|p: (String, TomlValue)| (p.0@, p.1@));
                    let mut j: usize = 0;
                    while j < t.len()
                        invariant
                            j <= t@.len(),
                            tv == t@.map_values(|p: (String, TomlValue)| (p.0@, p.1@)),
                            pair_views(r@) == tv.take(j as int).map_values(
                                |p: (Seq<char>, TomlValueView)| (p.0, value_text(p.1)),
                            ),
                        decreases t.len() - j,
                    {
                        let v: Option<String> = match &t[j].1 {
                            TomlValue::Str(s) => Some(s.clone()),
                            TomlValue::Other => None,
                        };
                        let ghost before = r@;
                        assert(value_text(t@[j as int].1@) == crate::text::opt_str(v));
                        r.push((t[j].0.clone(), v));
                        proof {
                            assert(tv[j as int] == (t@[j as int].0@, t@[j as int].1@));
                            assert(pair_views(r@) =~= pair_views(before).push((t@[j as int].0@, value_text(t@[j as int].1@))));
                            assert(tv.take(j + 1) =~= tv.take(j as int).push(tv[j as int]));
                            assert(tv.take(j + 1).map_values(|p: (Seq<char>, TomlValueView)| (p.0, value_text(p.1)))
                                =~= tv.take(j as int).map_values(|p: (Seq<char>, TomlValueView)| (p.0, value_text(p.1))).push(
                                (tv[j as int].0, value_text(tv[j as int].1))));
                            assert(pair_views(r@) =~= tv.take(j + 1).map_values(
                                |p: (Seq<char>, TomlValueView)| (p.0, value_text(p.1)),
                            ));
                        }
                        j += 1;
                    }
                    assert(tv.take(t@.len() as int) =~= tv);
                },
                _ => {
                    assert(pair_views(r@) =~= Seq::<(Seq<char>, Option<Seq<char>>)>::empty());
                },
            }
            return r;
        }
        assert(dv.skip(i as int).drop_first() =~= dv.skip(i + 1));
        i += 1;
    }
    let r: Vec<(String, Option<String>)> = Vec::new();
    assert(pair_views(r@) =~= Seq::<(Seq<char>, Option<Seq<char>>)>::empty());
    r
}

/// The `[env]` table of a TOML text: its entries, or nothing when the text
/// does not parse.
fn toml_env_entries(text: &str) -> (r: Option<Vec<(String, Option<String>)>>)
    ensures
        match r {
            Some(v) => toml_env_table(text@) == Some(pair_views(v@)),
            None => toml_env_table(text@) is None,
        },
{
    match toml_document(text) {
        Some(doc) => Some(env_table(&doc)),
        None => None,
    }
}

/// A variable and the key id it is to receive.
pub type Binding = (Seq<char>, Seq<char>);

/// Whether a list of bindings binds the variable.
pub open spec fn binds(m: Seq<Binding>, var: Seq<char>) -> bool {
    exists|i: int| 0 <= i < m.len() && (#[trigger] m[i]).0 == var
}

/// The bindings in order, each variable bound by its first binding only.
pub open spec fn first_bindings(pairs: Seq<Binding>) -> Seq<Binding>
    decreases pairs.len(),
{
    if pairs.len() == 0 {
        Seq::empty()
    } else {
        let a = first_bindings(pairs.drop_last());
        if binds(a, pairs.last().0) {
            a
        } else {
            a.push(pairs.last())
        }
    }
}

/// What an `--env VAR=KEY` option binds: both sides trimmed; nothing when either is empty.
pub open spec fn arg_binding(kv: Seq<char>) -> Option<Binding> {
    let i = index_of_char(kv, '=', 0);
    if i >= kv.len() {
        None
    } else {
        let var = spec_trim(kv.take(i));
        let val = spec_trim(kv.skip(i + 1));
        if var.len() == 0 || val.len() == 0 {
            None
        } else {
            Some((var, val))
        }
    }
}

/// The bindings of the `[env]` table: string values, trimmed, that are not empty.
pub open spec fn toml_bindings(t: Seq<(Seq<char>, Option<Seq<char>>)>) -> Seq<Binding>
    decreases t.len(),
{
    if t.len() == 0 {
        Seq::empty()
    } else {
        let rest = toml_bindings(t.drop_last());
        match t.last().1 {
            Some(v) => if spec_trim(v).len() > 0 {
                rest.push((t.last().0, spec_trim(v)))
            } else {
                rest
            },
            None => rest,
        }
    }
}

/// The lines of a text: the pieces between `\n`s.
pub open spec fn split_lines(s: Seq<char>) -> Seq<Seq<char>>
    decreases s.len(),
{
    let i = index_of_char(s, '\n', 0);
    if i >= s.len() {
        seq![s]
    } else {
        proof {
            crate::text::lemma_index_of_char(s, '\n', 0);
        }
        seq![s.take(i)] + split_lines(s.skip(i + 1))
    }
}

/// What a line of `.env` binds: `VAR=kx_…`, trimmed, the value also without
/// surrounding quotes; blank lines, comments and other values bind nothing.
pub open spec fn dotenv_line(line: Seq<char>) -> Seq<Binding> {
    let l = spec_trim(line);
    if l.len() == 0 || l[0] == '#' {
        Seq::empty()
    } else {
        let i = index_of_char(l, '=', 0);
        if i >= l.len() {
            Seq::empty()
        } else {
            let var = spec_trim(l.take(i));
            let val = strip_both(Strip::Char('\''), strip_both(Strip::Char('"'), spec_trim(l.skip(i + 1))));
            if spec_is_kx_ref(val) {
                seq![(var, val)]
            } else {
                Seq::empty()
            }
        }
    }
}

/// A `.env` line `VAR='kx_…'` binds `VAR` to the reference: the value is read
/// after trimming white space, double quotes and single quotes. (`VAR` is any
/// name without white space or `=` that does not start a comment.)
pub proof fn lemma_dotenv_single_quoted(var: Seq<char>, r: Seq<char>)
    requires
        var.len() > 0,
        var[0] != '#',
        forall|j: int| 0 <= j < var.len() ==> #[trigger] var[j] != '=' && !is_space(var[j]),
        spec_is_kx_ref(r),
    ensures
        dotenv_line(var + seq!['=', '\''] + r + seq!['\'']) == seq![(var, r)],
        dotenv_bindings(split_lines(var + seq!['=', '\''] + r + seq!['\''])) == seq![(var, r)],
{
    reveal_strlit("kx_");
    let q = seq!['\''] + r + seq!['\''];
    let line = var + seq!['='] + q;
    assert(var + seq!['=', '\''] + r + seq!['\''] =~= line);
    assert(r.take(3)[0] == 'k');
    assert(r[0] == 'k');
    assert(is_ref_char(r[r.len() - 1]));
    reveal_with_fuel(crate::text::strip_start, 2);
    reveal_with_fuel(crate::text::strip_end, 2);
    // The line has no white space at its ends.
    assert(!is_space(line[0]));
    assert(line.last() == '\'');
    assert(spec_trim(line) == line);
    // The first `=` follows the name.
    let n = var.len() as int;
    crate::text::lemma_index_of_char(line, '=', 0);
    let i = index_of_char(line, '=', 0);
    assert(line[n] == '=');
    if i < n {
        assert(line[i] == var[i]);
    }
    assert(i == n);
    assert(line.take(n) =~= var);
    assert(spec_trim(var) == var);
    assert(line.skip(n + 1) =~= q);
    assert(spec_trim(q) == q);
    assert(strip_both(Strip::Char('"'), q) == q);
    let inner = r + seq!['\''];
    assert(q.drop_first() =~= inner);
    assert(crate::text::strip_start(Strip::Char('\''), q) == crate::text::strip_start(Strip::Char('\''), inner));
    assert(inner[0] == 'k');
    assert(crate::text::strip_start(Strip::Char('\''), inner) == inner);
    assert(inner.drop_last() =~= r);
    assert(crate::text::strip_end(Strip::Char('\''), inner) == crate::text::strip_end(Strip::Char('\''), r));
    assert(r.last() != '\'');
    assert(crate::text::strip_end(Strip::Char('\''), r) == r);
    // A single line: `.env` holding it binds exactly this.
    assert forall|j: int| 0 <= j < r.len() implies r[j] != '\n' by {
        if j < 3 {
            assert(r[j] == r.take(3)[j]);
        } else {
            assert(is_ref_char(r[j]));
        }
    }
    assert(is_space('\n'));
    crate::text::lemma_index_of_char(line, '\n', 0);
    let k = index_of_char(line, '\n', 0);
    if k < line.len() {
        if k < n {
            assert(line[k] == var[k]);
        } else if k > n + 1 && k < line.len() - 1 {
            assert(line[k] == r[k - n - 2]);
        }
    }
    assert(k == line.len());
    assert(split_lines(line) == seq![line]);
    reveal_with_fuel(dotenv_bindings, 2);
    assert(seq![line].drop_first() =~= Seq::<Seq<char>>::empty());
    assert(dotenv_bindings(seq![line]) =~= dotenv_line(line));
}

/// The bindings of the lines of `.env`, in order.
pub open spec fn dotenv_bindings(lines: Seq<Seq<char>>) -> Seq<Binding>
    decreases lines.len(),
{
    if lines.len() == 0 {
        Seq::empty()
    } else {
        dotenv_line(lines[0]) + dotenv_bindings(lines.drop_first())
    }
}

/// `.keyx.toml` as `keyx run` finds it.
pub enum TomlSource {
    Absent,
    Unreadable,
    Text(String),
}

/// The references that `keyx run` resolves, and whether to warn that
/// `.keyx.toml` could not be used.
pub struct EnvRefs {
    pub mapping: Vec<(String, String)>,
    pub toml_warning: bool,
}

pub open spec fn binding_views(v: Seq<(String, String)>) -> Seq<Binding> {
    v.map_values(|p: (String, String)| (p.0@, p.1@))
}

/// The bindings that the `[env]` table of `.keyx.toml` contributes.
pub open spec fn toml_source_bindings(t: TomlSource) -> Seq<Binding> {
    match t {
        TomlSource::Text(s) => match toml_env_table(s@) {
            Some(tab) => toml_bindings(tab),
            None => Seq::empty(),
        },
        _ => Seq::empty(),
    }
}

/// Whether `.keyx.toml` exists but cannot be read or parsed.
pub open spec fn toml_source_warns(t: TomlSource) -> bool {
    match t {
        TomlSource::Text(s) => toml_env_table(s@) is None,
        TomlSource::Unreadable => true,
        TomlSource::Absent => false,
    }
}

/// The bindings of the `--env` options, when all are well formed.
pub open spec fn arg_bindings(args: Seq<Seq<char>>) -> Seq<Binding>
    decreases args.len(),
{
    if args.len() == 0 {
        Seq::empty()
    } else {
        arg_bindings(args.drop_last()).push(arg_binding(args.last())->0)
    }
}

/// Whether every `--env` option is well formed.
pub open spec fn args_ok(args: Seq<Seq<char>>) -> bool {
    forall|i: int| 0 <= i < args.len() ==> (#[trigger] arg_binding(args[i])) is Some
}

/// All candidate bindings in order of precedence: options, then `.keyx.toml`,
/// then `.env`.
pub open spec fn candidates(args: Seq<Seq<char>>, toml: TomlSource, dotenv: Option<Seq<char>>) -> Seq<Binding> {
    arg_bindings(args) + toml_source_bindings(toml) + match dotenv {
        Some(d) => dotenv_bindings(split_lines(d)),
        None => Seq::empty(),
    }
}

fn bound(m: &Vec<(String, String)>, var: &str) -> (r: bool)
    ensures
        r == binds(binding_views(m@), var@),
{
    let ghost mv = binding_views(m@);
    let mut i: usize = 0;
    while i < m.len()
        invariant
            i <= m@.len(),
            mv == binding_views(m@),
            forall|j: int| 0 <= j < i ==> mv[j].0 != var@,
        decreases m.len() - i,
    {
        if str_eq(m[i].0.as_str(), var) {
            assert(mv[i as int].0 == var@);
            return true;
        }
        i += 1;
    }
    false
}

fn set_default(m: &mut Vec<(String, String)>, var: String, val: String)
    ensures
        binding_views(final(m)@) == first_bindings_step(binding_views(old(m)@), (var@, val@)),
{
    if !bound(m, var.as_str()) {
        let ghost before = m@;
        m.push((var, val));
        assert(binding_views(m@) =~= binding_views(before).push((var@, val@)));
    }
}

/// One step of `first_bindings`: a binding is kept unless its variable is bound.
pub open spec fn first_bindings_step(a: Seq<Binding>, p: Binding) -> Seq<Binding> {
    if binds(a, p.0) {
        a
    } else {
        a.push(p)
    }
}

proof fn lemma_first_bindings_push(c: Seq<Binding>, p: Binding)
    ensures
        first_bindings(c.push(p)) == first_bindings_step(first_bindings(c), p),
{
    assert(c.push(p).drop_last() =~= c);
}

fn substring(cs: &[char], lo: usize, hi: usize) -> (r: Vec<char>)
    requires
        lo <= hi <= cs@.len(),
    ensures
        r@ == cs@.subrange(lo as int, hi as int),
{
    let mut r: Vec<char> = Vec::new();
    let mut i = lo;
    while i < hi
        invariant
            lo <= i <= hi <= cs@.len(),
            r@ == cs@.subrange(lo as int, i as int),
        decreases hi - i,
    {
        r.push(cs[i]);
        assert(cs@.subrange(lo as int, i + 1) =~= cs@.subrange(lo as int, i as int).push(cs@[i as int]));
        i += 1;
    }
    r
}

fn line_binding(line: &[char]) -> (r: Option<(String, String)>)
    ensures
        match r {
            Some(p) => dotenv_line(line@) == seq![(p.0@, p.1@)],
            None => dotenv_line(line@) == Seq::<Binding>::empty(),
        },
{
    let l = strip_chars(line, &Strip::Space, true, true);
    if l.len() == 0 || l[0] == '#' {
        return None;
    }
    let eq = find_char(l.as_slice(), '=', 0);
    if eq >= l.len() {
        return None;
    }
    let var_raw = substring(l.as_slice(), 0, eq);
    assert(var_raw@ =~= l@.take(eq as int));
    let var = strip_chars(var_raw.as_slice(), &Strip::Space, true, true);
    let val_raw = substring(l.as_slice(), eq + 1, l.len());
    assert(val_raw@ =~= l@.skip(eq + 1));
    let v1 = strip_chars(val_raw.as_slice(), &Strip::Space, true, true);
    let v2 = strip_chars(v1.as_slice(), &Strip::Char('"'), true, true);
    let v3 = strip_chars(v2.as_slice(), &Strip::Char('\''), true, true);
    if is_kx_ref_chars(v3.as_slice()) {
        Some((string_of(var.as_slice()), string_of(v3.as_slice())))
    } else {
        None
    }
}

/// The index of the first malformed `--env` option, where there is one.
pub open spec fn first_bad_arg(args: Seq<Seq<char>>, i: int) -> bool {
    &&& 0 <= i < args.len()
    &&& arg_binding(args[i]) is None
    &&& forall|j: int| 0 <= j < i ==> (#[trigger] arg_binding(args[j])) is Some
}

/// The references that `keyx run` resolves in a directory, first come first
/// served: `--env VAR=KEY` options, then the `[env]` table of `.keyx.toml`,
/// then the `kx_` references of `.env`. A malformed option is an error that
/// names it; a `.keyx.toml` that cannot be read or parsed is ignored with a warning.
pub fn collect_env_references(args_env: &Vec<String>, toml: &TomlSource, dotenv: Option<&str>) -> (r: Result<
    EnvRefs,
    String,
>)
    ensures
        r is Ok <==> args_ok(texts(args_env@)),
        r matches Err(kv) ==> exists|i: int| first_bad_arg(texts(args_env@), i) && kv@ == args_env@[i]@,
        r matches Ok(refs) ==> {
            &&& binding_views(refs.mapping@) == first_bindings(
                candidates(texts(args_env@), *toml, crate::text::opt_str_ref(dotenv)),
            )
            &&& refs.toml_warning == toml_source_warns(*toml)
        },
{
    let ghost args = texts(args_env@);
    let mut mapping: Vec<(String, String)> = Vec::new();
    let mut i: usize = 0;
    while i < args_env.len()
        invariant
            i <= args_env@.len(),
            args == texts(args_env@),
            args_ok(args.take(i as int)),
            binding_views(mapping@) == first_bindings(arg_bindings(args.take(i as int))),
        decreases args_env.len() - i,
    {
        let kv = chars_of(args_env[i].as_str());
        let eq = find_char(kv.as_slice(), '=', 0);
        assert(args[i as int] == kv@);
        if eq >= kv.len() {
            proof {
                assert forall|j: int| 0 <= j < i implies (#[trigger] arg_binding(args[j])) is Some by {
                    assert(args.take(i as int)[j] == args[j]);
                }
                assert(arg_binding(args[i as int]) is None);
                assert(first_bad_arg(args, i as int));
            }
            return Err(args_env[i].clone());
        }
        let var_raw = substring(kv.as_slice(), 0, eq);
        assert(var_raw@ =~= kv@.take(eq as int));
        let val_raw = substring(kv.as_slice(), eq + 1, kv.len());
        assert(val_raw@ =~= kv@.skip(eq + 1));
        let var = strip_chars(var_raw.as_slice(), &Strip::Space, true, true);
        let val = strip_chars(val_raw.as_slice(), &Strip::Space, true, true);
        if var.len() == 0 || val.len() == 0 {
            proof {
                assert forall|j: int| 0 <= j < i implies (#[trigger] arg_binding(args[j])) is Some by {
                    assert(args.take(i as int)[j] == args[j]);
                }
                assert(arg_binding(args[i as int]) is None);
                assert(first_bad_arg(args, i as int));
            }
            return Err(args_env[i].clone());
        }
        proof {
            let t = args.take(i + 1);
            assert(t.drop_last() =~= args.take(i as int));
            assert(t.last() == args[i as int]);
            lemma_first_bindings_push(arg_bindings(args.take(i as int)), (var@, val@));
            assert forall|j: int| 0 <= j < t.len() implies (#[trigger] arg_binding(t[j])) is Some by {
                if j < i {
                    assert(args.take(i as int)[j] == t[j]);
                }
            }
        }
        set_default(&mut mapping, string_of(var.as_slice()), string_of(val.as_slice()));
        i += 1;
    }
    assert(args.take(args.len() as int) =~= args);
    let ghost base1 = arg_bindings(args);
    let mut toml_warning = false;
    let ghost mut tb: Seq<Binding> = Seq::empty();
    match toml {
        TomlSource::Absent => {},
        TomlSource::Unreadable => {
            toml_warning = true;
        },
        TomlSource::Text(text) => match toml_env_entries(text.as_str()) {
            None => {
                toml_warning = true;
            },
            Some(tab) => {
                let ghost tv = pair_views(tab@);
                let mut j: usize = 0;
                while j < tab.len()
                    invariant
                        j <= tab@.len(),
                        tv == pair_views(tab@),
                        binding_views(mapping@) == first_bindings(base1 + toml_bindings(tv.take(j as int))),
                    decreases tab.len() - j,
                {
                    proof {
                        let t = tv.take(j + 1);
                        assert(t.drop_last() =~= tv.take(j as int));
                        assert(t.last() == tv[j as int]);
                    }
                    match &tab[j].1 {
                        Some(v) => {
                            let tv2 = trim(v.as_str());
                            if !tv2.as_str().is_empty() {
                                proof {
                                    let rest = toml_bindings(tv.take(j as int));
                                    assert((base1 + rest).push((tab@[j as int].0@, tv2@)) =~= base1 + rest.push((tab@[j as int].0@, tv2@)));
                                    lemma_first_bindings_push(base1 + rest, (tab@[j as int].0@, tv2@));
                                }
                                set_default(&mut mapping, tab[j].0.clone(), tv2);
                            }
                        },
                        None => {},
                    }
                    j += 1;
                }
                assert(tv.take(tv.len() as int) =~= tv);
                proof {
                    tb = toml_bindings(tv);
                }
            },
        },
    }
    assert(tb == toml_source_bindings(*toml));
    assert(binding_views(mapping@) == first_bindings(base1 + tb)) by {
        if tb.len() == 0 {
            assert(base1 + tb =~= base1);
        }
    }
    let ghost base = base1 + tb;
    match dotenv {
        None => {
            assert(base + Seq::<Binding>::empty() =~= base);
        },
        Some(d) => {
            let cs = chars_of(d);
            let n = cs.len();
            let ghost total = dotenv_bindings(split_lines(cs@));
            let ghost mut acc: Seq<Binding> = Seq::empty();
            let mut pos: usize = 0;
            let mut finished = false;
            assert(cs@.skip(0) =~= cs@);
            assert(acc + total =~= total);
            while !finished
                invariant
                    n == cs@.len(),
                    cs@ == d@,
                    pos <= n,
                    total == dotenv_bindings(split_lines(cs@)),
                    !finished ==> acc + dotenv_bindings(split_lines(cs@.skip(pos as int))) == total,
                    finished ==> acc == total,
                    binding_views(mapping@) == first_bindings(base + acc),
                decreases (if finished { 0int } else { 1int }), n - pos,
            {
                let nl = find_char(cs.as_slice(), '\n', pos);
                let line = substring(cs.as_slice(), pos, nl);
                let ghost rem = cs@.skip(pos as int);
                proof {
                    crate::text::lemma_index_of_char(cs@, '\n', pos as int);
                    crate::text::lemma_index_of_char(rem, '\n', 0);
                    lemma_index_of_char_shift(cs@, '\n', pos as int);
                    assert(line@ =~= rem.take(nl - pos));
                }
                let b = line_binding(line.as_slice());
                let ghost piece = dotenv_line(line@);
                match b {
                    Some(p) => {
                        proof {
                            assert((base + acc).push((p.0@, p.1@)) =~= base + (acc + piece));
                            lemma_first_bindings_push(base + acc, (p.0@, p.1@));
                        }
                        set_default(&mut mapping, p.0, p.1);
                    },
                    None => {
                        assert(acc + piece =~= acc);
                    },
                }
                proof {
                    if nl < n {
                        assert(rem.skip(nl - pos + 1) =~= cs@.skip(nl + 1));
                        let sl = split_lines(rem);
                        assert(sl == seq![rem.take(nl - pos)] + split_lines(rem.skip(nl - pos + 1)));
                        assert(sl.drop_first() =~= split_lines(cs@.skip(nl + 1)));
                        assert(dotenv_bindings(sl) == piece + dotenv_bindings(sl.drop_first()));
                        assert(acc + piece + dotenv_bindings(split_lines(cs@.skip(nl + 1))) =~= acc + dotenv_bindings(sl));
                    } else {
                        let sl = split_lines(rem);
                        assert(sl == seq![rem]);
                        assert(rem.take(nl - pos) =~= rem);
                        assert(sl.drop_first() =~= Seq::<Seq<char>>::empty());
                        assert(dotenv_bindings(sl) == piece + dotenv_bindings(sl.drop_first()));
                        assert(acc + piece =~= acc + dotenv_bindings(sl));
                    }
                    acc = acc + piece;
                }
                if nl < n {
                    pos = nl + 1;
                } else {
                    finished = true;
                }
            }
        },
    }
    Ok(EnvRefs { mapping, toml_warning })
}

proof fn lemma_index_of_char_shift(s: Seq<char>, c: char, from: int)
    requires
        0 <= from <= s.len(),
    ensures
        index_of_char(s, c, from) == from + index_of_char(s.skip(from), c, 0),
    decreases s.len() - from,
{
    if from < s.len() && s[from] != c {
        lemma_index_of_char_shift(s, c, from + 1);
        lemma_index_of_char_shift(s.skip(from), c, 1);
        assert(s.skip(from).skip(1) =~= s.skip(from + 1));
        assert(s.skip(from + 1).skip(0) =~= s.skip(from + 1));
        lemma_skip0(s.skip(from + 1), c);
    }
}

proof fn lemma_skip0(s: Seq<char>, c: char)
    ensures
        index_of_char(s.skip(0), c, 0) == index_of_char(s, c, 0),
{
    assert(s.skip(0) =~= s);
}

proof fn lemma_binds_iff(c: Seq<Binding>, v: Seq<char>)
    ensures
        binds(first_bindings(c), v) <==> binds(c, v),
    decreases c.len(),
{
    if c.len() > 0 {
        let d = c.drop_last();
        lemma_binds_iff(d, v);
        let a = first_bindings(d);
        if binds(d, v) {
            let j = choose|j: int| 0 <= j < d.len() && (#[trigger] d[j]).0 == v;
            assert(c[j] == d[j]);
        }
        if binds(c, v) && !binds(d, v) {
            let j = choose|j: int| 0 <= j < c.len() && (#[trigger] c[j]).0 == v;
            if j < d.len() {
                assert(d[j] == c[j]);
            }
        }
        if !binds(a, c.last().0) {
            let b = a.push(c.last());
            assert(b[a.len() as int] == c.last());
            if binds(a, v) {
                let j = choose|j: int| 0 <= j < a.len() && (#[trigger] a[j]).0 == v;
                assert(b[j] == a[j]);
            }
            if binds(b, v) {
                let j = choose|j: int| 0 <= j < b.len() && (#[trigger] b[j]).0 == v;
                if j < a.len() {
                    assert(b[j] == a[j]);
                }
            }
        }
    }
}

/// Each variable is bound once.
pub proof fn lemma_bindings_unique(c: Seq<Binding>)
    ensures
        forall|a: int, b: int| 0 <= a < b < first_bindings(c).len() ==> (#[trigger] first_bindings(c)[a]).0 != (#[trigger] first_bindings(c)[b]).0,
    decreases c.len(),
{
    if c.len() > 0 {
        let d = c.drop_last();
        lemma_bindings_unique(d);
        let a = first_bindings(d);
        if !binds(a, c.last().0) {
            let f = a.push(c.last());
            assert forall|x: int, y: int| 0 <= x < y < f.len() implies (#[trigger] f[x]).0 != (#[trigger] f[y]).0 by {
                if y == a.len() {
                    assert(f[x] == a[x]);
                } else {
                    assert(f[x] == a[x] && f[y] == a[y]);
                }
            }
        }
    }
}

/// First come, first served: a variable is bound to the key id of its first
/// candidate, whatever later candidates say.
pub proof fn lemma_first_binding_wins(c: Seq<Binding>, i: int)
    requires
        0 <= i < c.len(),
        forall|j: int| 0 <= j < i ==> (#[trigger] c[j]).0 != c[i].0,
    ensures
        first_bindings(c).contains(c[i]),
    decreases c.len(),
{
    let d = c.drop_last();
    let a = first_bindings(d);
    if i == c.len() - 1 {
        if binds(a, c[i].0) {
            lemma_binds_iff(d, c[i].0);
            let j = choose|j: int| 0 <= j < d.len() && (#[trigger] d[j]).0 == c[i].0;
            assert(c[j] == d[j]);
        }
        assert(first_bindings(c) == a.push(c[i]));
        assert(a.push(c[i])[a.len() as int] == c[i]);
    } else {
        assert forall|j: int| 0 <= j < i implies (#[trigger] d[j]).0 != d[i].0 by {
            assert(d[j] == c[j]);
        }
        lemma_first_binding_wins(d, i);
        assert(d[i] == c[i]);
        if !binds(a, c.last().0) {
            let k = choose|k: int| 0 <= k < a.len() && a[k] == c[i];
            assert(a.push(c.last())[k] == c[i]);
        }
    }
}

/// The order of precedence of `keyx run`: a variable given by `--env` takes
/// the option's key id, whatever `.keyx.toml` and `.env` say; one not given by
/// `--env` but in `[env]` takes the table's; `.env` decides only the rest.
pub proof fn lemma_reference_precedence(args: Seq<Seq<char>>, toml: TomlSource, dotenv: Option<Seq<char>>, i: int)
    requires
        0 <= i < candidates(args, toml, dotenv).len(),
        forall|j: int| 0 <= j < i ==> (#[trigger] candidates(args, toml, dotenv)[j]).0 != candidates(args, toml, dotenv)[i].0,
    ensures
        first_bindings(candidates(args, toml, dotenv)).contains(candidates(args, toml, dotenv)[i]),
        forall|a: int, b: int| 0 <= a < b < first_bindings(candidates(args, toml, dotenv)).len()
            ==> (#[trigger] first_bindings(candidates(args, toml, dotenv))[a]).0
                != (#[trigger] first_bindings(candidates(args, toml, dotenv))[b]).0,
{
    lemma_first_binding_wins(candidates(args, toml, dotenv), i);
    lemma_bindings_unique(candidates(args, toml, dotenv));
}

/// Whether a sequence of texts is in strictly increasing order.
pub open spec fn strictly_sorted(s: Seq<Seq<char>>) -> bool {
    forall|i: int, j: int| 0 <= i < j < s.len() ==> lex_le(#[trigger] s[i], #[trigger] s[j]) && s[i] != s[j]
}

/// The key ids that a run resolves: those of the bindings, in order, each once.
pub fn run_keys(mapping: &Vec<(String, String)>) -> (r: Vec<String>)
    ensures
        strictly_sorted(texts(r@)),
        texts(r@).to_set() == binding_views(mapping@).map_values(|b: Binding| b.1).to_set(),
{
    let ghost want = binding_views(mapping@).map_values(|b: Binding| b.1);
    let mut keys: Vec<String> = Vec::new();
    let mut i: usize = 0;
    while i < mapping.len()
        invariant
            i <= mapping@.len(),
            want == binding_views(mapping@).map_values(|b: Binding| b.1),
            texts(keys@) == want.take(i as int),
        decreases mapping.len() - i,
    {
        let ghost old_keys = keys@;
        keys.push(mapping[i].1.clone());
        assert(want[i as int] == mapping@[i as int].1@);
        assert(texts(keys@) =~= texts(old_keys).push(mapping@[i as int].1@));
        assert(want.take(i + 1) =~= want.take(i as int).push(want[i as int]));
        i += 1;
    }
    assert(want.take(want.len() as int) =~= want);
    let sorted = sort_strings(keys);
    let ghost s = texts(sorted@);
    let mut r: Vec<String> = Vec::new();
    let mut j: usize = 0;
    while j < sorted.len()
        invariant
            j <= sorted@.len(),
            s == texts(sorted@),
            sorted_texts(s),
            strictly_sorted(texts(r@)),
            texts(r@).to_set() == s.take(j as int).to_set(),
            j > 0 ==> r@.len() > 0 && texts(r@).last() == s[j - 1],
            j == 0 ==> r@.len() == 0,
        decreases sorted.len() - j,
    {
        let dup = r.len() > 0 && str_eq(r[r.len() - 1].as_str(), sorted[j].as_str());
        let ghost old_r = texts(r@);
        if !dup {
            r.push(sorted[j].clone());
            proof {
                assert(texts(r@) =~= old_r.push(s[j as int]));
                assert forall|a: int, b: int| 0 <= a < b < texts(r@).len() implies lex_le(#[trigger] texts(r@)[a], #[trigger] texts(r@)[b]) && texts(r@)[a] != texts(r@)[b] by {
                    if b == old_r.len() {
                        if a < old_r.len() - 1 {
                            assert(lex_le(old_r[a], old_r.last()) && old_r[a] != old_r.last());
                            assert(lex_le(s[j - 1], s[j as int]));
                            crate::order::lemma_lex_trans(old_r[a], old_r.last(), s[j as int]);
                            if old_r[a] == s[j as int] {
                                crate::order::lemma_lex_antisym(old_r[a], old_r.last());
                            }
                        } else {
                            assert(lex_le(s[j - 1], s[j as int]));
                        }
                    } else {
                        assert(texts(r@)[a] == old_r[a] && texts(r@)[b] == old_r[b]);
                    }
                }
            }
        }
        proof {
            let t = s.take(j + 1);
            assert(t =~= s.take(j as int).push(s[j as int]));
            assert forall|x: Seq<char>| texts(r@).contains(x) <==> t.contains(x) by {
                if texts(r@).contains(x) {
                    let a = choose|a: int| 0 <= a < texts(r@).len() && texts(r@)[a] == x;
                    if !dup && a == old_r.len() {
                        assert(t[j as int] == x);
                    } else {
                        assert(old_r[a] == x);
                        assert(old_r.to_set().contains(x));
                        let b = choose|b: int| 0 <= b < j && s.take(j as int)[b] == x;
                        assert(t[b] == x);
                    }
                }
                if t.contains(x) {
                    let b = choose|b: int| 0 <= b < t.len() && t[b] == x;
                    if b == j {
                        if dup {
                            assert(old_r.last() == x);
                            assert(texts(r@)[old_r.len() - 1] == x);
                        } else {
                            assert(texts(r@)[old_r.len() as int] == x);
                        }
                    } else {
                        assert(s.take(j as int)[b] == x);
                        assert(s.take(j as int).to_set().contains(x));
                        assert(old_r.to_set().contains(x));
                        let a = choose|a: int| 0 <= a < old_r.len() && old_r[a] == x;
                        assert(texts(r@)[a] == x);
                    }
                }
            }
            assert(texts(r@).to_set() =~= t.to_set());
        }
        j += 1;
    }
    proof {
        assert(s.take(s.len() as int) =~= s);
        assert forall|x: Seq<char>| s.contains(x) <==> want.contains(x) by {
            assert(s.to_multiset().count(x) == want.to_multiset().count(x));
        }
        assert(s.to_set() =~= want.to_set());
    }
    r
}

/// The value of the first pair with the given key.
pub open spec fn lookup(pairs: Seq<(Seq<char>, Seq<char>)>, k: Seq<char>) -> Option<Seq<char>>
    decreases pairs.len(),
{
    if pairs.len() == 0 {
        None
    } else if pairs[0].0 == k {
        Some(pairs[0].1)
    } else {
        lookup(pairs.drop_first(), k)
    }
}

fn find_pair(pairs: &Vec<(String, String)>, k: &str) -> (r: Option<usize>)
    ensures
        match r {
            Some(i) => i < pairs@.len() && lookup(binding_views(pairs@), k@) == Some(pairs@[i as int].1@),
            None => lookup(binding_views(pairs@), k@) is None,
        },
{
    let ghost pv = binding_views(pairs@);
    let mut i: usize = 0;
    assert(pv.skip(0) =~= pv);
    while i < pairs.len()
        invariant
            i <= pairs@.len(),
            pv == binding_views(pairs@),
            lookup(pv, k@) == lookup(pv.skip(i as int), k@),
        decreases pairs.len() - i,
    {
        assert(pv.skip(i as int)[0] == pv[i as int]);
        if str_eq(pairs[i].0.as_str(), k) {
            return Some(i);
        }
        assert(pv.skip(i as int).drop_first() =~= pv.skip(i + 1));
        i += 1;
    }
    None
}

/// The environment that a run adds: each bound variable with the password of
/// its key id, as the daemon answered; the first key id without a password is an error.
pub fn inject_env(mapping: &Vec<(String, String)>, passwords: &Vec<(String, String)>) -> (r: Result<
    Vec<(String, String)>,
    String,
>)
    ensures
        match r {
            Ok(env) => env@.len() == mapping@.len() && forall|i: int| 0 <= i < mapping@.len() ==> {
                &&& (#[trigger] env@[i]).0@ == mapping@[i].0@
                &&& lookup(binding_views(passwords@), mapping@[i].1@) == Some(env@[i].1@)
            },
            Err(kid) => exists|i: int| {
                &&& 0 <= i < mapping@.len()
                &&& kid@ == mapping@[i].1@
                &&& lookup(binding_views(passwords@), mapping@[i].1@) is None
                &&& forall|j: int| 0 <= j < i ==> (#[trigger] lookup(binding_views(passwords@), mapping@[j].1@)) is Some
            },
        },
{
    let mut env: Vec<(String, String)> = Vec::new();
    let mut i: usize = 0;
    while i < mapping.len()
        invariant
            i <= mapping@.len(),
            env@.len() == i,
            forall|j: int| 0 <= j < i ==> {
                &&& (#[trigger] env@[j]).0@ == mapping@[j].0@
                &&& lookup(binding_views(passwords@), mapping@[j].1@) == Some(env@[j].1@)
            },
        decreases mapping.len() - i,
    {
        match find_pair(passwords, mapping[i].1.as_str()) {
            Some(k) => {
                env.push((mapping[i].0.clone(), passwords[k].1.clone()));
            },
            None => {
                proof {
                    assert forall|j: int| 0 <= j < i implies (#[trigger] lookup(binding_views(passwords@), mapping@[j].1@)) is Some by {
                        assert(env@[j].0@ == mapping@[j].0@);
                    }
                }
                return Err(mapping[i].1.clone());
            },
        }
        i += 1;
    }
    Ok(env)
}

} // verus!
