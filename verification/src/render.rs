//! What the command line prints: the entry list, the status line, the
//! audit trail and the answers of `peek`, built from what the daemon answered.
use vstd::prelude::*;
use crate::order::{keys_of, sort_by_key, sorted_texts, Keyed};
use vstd::string::StringSliceAdditionalSpecFns;
use vstd::utf8::{decode_utf8, encode_utf8, encode_utf8_decode_utf8, is_char_boundary};
use crate::text::{
    chars_of, contains_chars, contains_text, lowercase, opt_str, or_empty, pad_right, push_padded, str_eq,
    to_lowercase,
};

verus! {

broadcast use vstd::seq_lib::group_to_multiset_ensures;

/// An entry as the entry list shows it; fields absent from the daemon's answer are `None`.
pub struct ListedEntry {
    pub id: Option<String>,
    pub name: Option<String>,
    pub username: Option<String>,
    pub notes: Option<String>,
}

impl Keyed for ListedEntry {
    open spec fn key(&self) -> Seq<char> {
        or_empty(opt_str(self.id))
    }

    fn key_chars(&self) -> (r: Vec<char>) {
        match &self.id {
            Some(s) => chars_of(s.as_str()),
            None => Vec::new(),
        }
    }
}

/// Whether a field holds the filter text, ignoring case.
pub open spec fn field_matches(field: Option<String>, f: Seq<char>) -> bool {
    field matches Some(s) && contains_text(lowercase(s@), lowercase(f))
}

/// Whether the list filter selects an entry: its name, username or notes
/// hold the filter text, ignoring case.
pub open spec fn matches_filter(e: ListedEntry, f: Seq<char>) -> bool {
    field_matches(e.name, f) || field_matches(e.username, f) || field_matches(e.notes, f)
}

fn field_matches_exec(field: &Option<String>, lf: &Vec<char>, ghost_f: Ghost<Seq<char>>) -> (r: bool)
    requires
        lf@ == lowercase(ghost_f@),
    ensures
        r == field_matches(*field, ghost_f@),
{
    match field {
        Some(s) => {
            let l = to_lowercase(s.as_str());
            let lc = chars_of(l.as_str());
            contains_chars(lc.as_slice(), lf.as_slice())
        },
        None => false,
    }
}

/// The longest name, in characters.
pub open spec fn max_name_len(s: Seq<ListedEntry>) -> nat
    decreases s.len(),
{
    if s.len() == 0 {
        0
    } else {
        let a = max_name_len(s.drop_last());
        let b = or_empty(opt_str(s.last().name)).len();
        if a >= b {
            a
        } else {
            b
        }
    }
}

/// The length of an entry's name, in characters (none counts as empty).
pub open spec fn name_len(e: ListedEntry) -> int {
    or_empty(opt_str(e.name)).len() as int
}

/// The name column fits the longest name: every name is at most
/// `max_name_len` long, and some name is exactly that long.
pub proof fn lemma_max_name_len(s: Seq<ListedEntry>)
    ensures
        forall|i: int| 0 <= i < s.len() ==> #[trigger] name_len(s[i]) <= max_name_len(s),
        s.len() > 0 ==> exists|i: int| 0 <= i < s.len() && #[trigger] name_len(s[i]) == max_name_len(s),
    decreases s.len(),
{
    if s.len() > 0 {
        let t = s.drop_last();
        lemma_max_name_len(t);
        assert forall|i: int| 0 <= i < s.len() implies #[trigger] name_len(s[i]) <= max_name_len(s) by {
            if i < t.len() {
                assert(s[i] == t[i]);
            }
        }
        if t.len() > 0 && max_name_len(t) >= name_len(s.last()) {
            let i = choose|i: int| 0 <= i < t.len() && #[trigger] name_len(t[i]) == max_name_len(t);
            assert(s[i] == t[i]);
            assert(name_len(s[i]) == max_name_len(s));
        } else {
            assert(name_len(s[s.len() - 1]) == max_name_len(s));
        }
    }
}

/// A row of the entry list: key id, name and username in columns.
pub open spec fn list_row(e: ListedEntry, w: int) -> Seq<char> {
    pad_right(or_empty(opt_str(e.id)), 14) + pad_right(or_empty(opt_str(e.name)), w) + or_empty(opt_str(e.username))
}

/// The head of the entry list.
pub open spec fn list_header(w: int) -> Seq<char> {
    pad_right("key-id"@, 14) + pad_right("名称"@, w) + "用户名"@
}

/// The entries that the list shows: those the filter selects, or all.
pub open spec fn listed(entries: Seq<ListedEntry>, filter: Option<Seq<char>>) -> Seq<ListedEntry> {
    match filter {
        Some(f) => entries.filter(|e: ListedEntry| matches_filter(e, f)),
        None => entries,
    }
}

/// The lines of `keyx list`: `（空）` when nothing is listed; otherwise a head
/// and one row per entry in key id order, the name column two wider than the
/// longest name.
pub fn list_lines(entries: Vec<ListedEntry>, filter: Option<&str>) -> (lines: Vec<String>)
    requires
        forall|i: int| 0 <= i < entries@.len() ==> or_empty(opt_str((#[trigger] entries@[i]).name)).len() < usize::MAX - 2,
    ensures
        listed(entries@, crate::text::opt_str_ref(filter)).len() == 0 ==> lines@.len() == 1 && lines@[0]@ == "（空）"@,
        listed(entries@, crate::text::opt_str_ref(filter)).len() > 0 ==> exists|sorted: Seq<ListedEntry>| #![trigger keys_of(sorted)] {
            let w = max_name_len(sorted) + 2int;
            &&& sorted.to_multiset() == listed(entries@, crate::text::opt_str_ref(filter)).to_multiset()
            &&& sorted_texts(keys_of(sorted))
            &&& lines@.len() == sorted.len() + 1
            &&& lines@[0]@ == list_header(w)
            &&& forall|i: int| 0 <= i < sorted.len() ==> (#[trigger] lines@[i + 1])@ == list_row(sorted[i], w)
            &&& forall|i: int| 0 <= i < sorted.len() ==> #[trigger] name_len(sorted[i]) + 2 <= w
            &&& exists|i: int| 0 <= i < sorted.len() && #[trigger] name_len(sorted[i]) + 2 == w
        },
{
    let ghost fv = crate::text::opt_str_ref(filter);
    let ghost all = entries@;
    let kept: Vec<ListedEntry> = match filter {
        None => entries,
        Some(f) => {
            let lf_s = to_lowercase(f);
            let lf = chars_of(lf_s.as_str());
            let ghost pred = |e: ListedEntry| matches_filter(e, f@);
            let mut kept: Vec<ListedEntry> = Vec::new();
            let mut src = entries;
            let ghost mut i: int = 0;
            while src.len() > 0
                invariant
                    0 <= i <= all.len(),
                    src@ == all.skip(i),
                    lf@ == lowercase(f@),
                    pred == (|e: ListedEntry| matches_filter(e, f@)),
                    kept@ == all.take(i).filter(pred),
                decreases src.len(),
            {
                let e = src.remove(0);
                assert(e == all[i]);
                proof {
                    reveal_with_fuel(Seq::<_>::filter, 1);
                    assert(all.take(i + 1).drop_last() =~= all.take(i));
                    assert(all.skip(i + 1) =~= all.skip(i).remove(0));
                }
                let keep = field_matches_exec(&e.name, &lf, Ghost(f@)) || field_matches_exec(&e.username, &lf, Ghost(f@))
                    || field_matches_exec(&e.notes, &lf, Ghost(f@));
                if keep {
                    kept.push(e);
                }
                proof {
                    i = i + 1;
                }
            }
            assert(all.take(i) =~= all);
            kept
        },
    };
    assert(kept@ == listed(all, fv));
    if kept.len() == 0 {
        let mut v: Vec<String> = Vec::new();
        v.push("（空）".to_owned());
        return v;
    }
    proof {
        assert forall|k: int| 0 <= k < kept@.len() implies or_empty(opt_str((#[trigger] kept@[k]).name)).len() < usize::MAX - 2 by {
            if let Some(f) = fv {
                all.lemma_filter_contains_rev(|e: ListedEntry| matches_filter(e, f), kept@[k]);
                let j = choose|j: int| 0 <= j < all.len() && all[j] == kept@[k];
            }
        }
    }
    let sorted = sort_by_key(kept);
    proof {
        assert forall|k: int| 0 <= k < sorted@.len() implies or_empty(opt_str((#[trigger] sorted@[k]).name)).len() < usize::MAX - 2 by {
            assert(sorted@.contains(sorted@[k]));
            assert(sorted@.to_multiset().count(sorted@[k]) > 0);
            assert(kept@.contains(sorted@[k]));
        }
    }
    let mut w: usize = 0;
    let mut j: usize = 0;
    while j < sorted.len()
        invariant
            j <= sorted@.len(),
            w as nat == max_name_len(sorted@.take(j as int)),
            w < usize::MAX - 2,
            forall|k: int| 0 <= k < sorted@.len() ==> or_empty(opt_str((#[trigger] sorted@[k]).name)).len() < usize::MAX - 2,
        decreases sorted.len() - j,
    {
        let n = match &sorted[j].name {
            Some(s) => chars_of(s.as_str()).len(),
            None => 0,
        };
        proof {
            assert(sorted@.take(j + 1).drop_last() =~= sorted@.take(j as int));
            assert(sorted@.take(j + 1).last() == sorted@[j as int]);
        }
        if n > w {
            w = n;
        }
        j += 1;
    }
    assert(sorted@.take(sorted@.len() as int) =~= sorted@);
    proof {
        lemma_max_name_len(sorted@);
        assert(sorted@.to_multiset().len() == kept@.to_multiset().len());
        assert(sorted@.len() > 0);
        let i = choose|i: int| 0 <= i < sorted@.len() && #[trigger] name_len(sorted@[i]) == max_name_len(sorted@);
        assert(name_len(sorted@[i]) + 2 == w + 2);
    }
    let width = w + 2;
    let mut lines: Vec<String> = Vec::new();
    let mut head = String::new();
    push_padded(&mut head, "key-id", 14);
    push_padded(&mut head, "名称", width);
    head.append("用户名");
    assert(head@ =~= list_header(width as int));
    lines.push(head);
    let mut k: usize = 0;
    while k < sorted.len()
        invariant
            k <= sorted@.len(),
            lines@.len() == k + 1,
            lines@[0]@ == list_header(width as int),
            forall|m: int| 0 <= m < k ==> (#[trigger] lines@[m + 1])@ == list_row(sorted@[m], width as int),
        decreases sorted.len() - k,
    {
        let e = &sorted[k];
        let mut row = String::new();
        let id: &str = match &e.id {
            Some(s) => s.as_str(),
            None => "",
        };
        let name: &str = match &e.name {
            Some(s) => s.as_str(),
            None => "",
        };
        let user: &str = match &e.username {
            Some(s) => s.as_str(),
            None => "",
        };
        proof {
            reveal_strlit("");
        }
        assert(id@ =~= or_empty(opt_str(e.id)));
        assert(name@ =~= or_empty(opt_str(e.name)));
        assert(user@ =~= or_empty(opt_str(e.username)));
        push_padded(&mut row, id, 14);
        push_padded(&mut row, name, width);
        row.append(user);
        assert(row@ =~= list_row(*e, width as int));
        lines.push(row);
        k += 1;
    }
    lines
}

/// Seconds after which a copied password is cleared from the clipboard.
pub const CLIPBOARD_CLEAR_SEC: u64 = 45;

/// What the status line says of the vault's mode.
pub open spec fn mode_label(mode: Option<Seq<char>>) -> Seq<char> {
    if mode == Some("keychain"@) {
        "钥匙串"@
    } else if mode == Some("password"@) {
        "主密码"@
    } else {
        "无密库"@
    }
}

/// The line that `keyx status` prints.
pub open spec fn spec_status_line(
    port: u16,
    autolock_min: u64,
    mode: Option<Seq<char>>,
    unlocked: bool,
    entries: Option<u64>,
) -> Seq<char> {
    "daemon: 运行中 (端口 "@ + crate::num::decimal_text(port as nat) + ", 自动锁定 "@ + crate::num::decimal_text(
        autolock_min as nat,
    ) + " 分钟) · 密库: "@ + mode_label(mode) + (if mode is Some {
        " · "@ + (if unlocked { "已解锁"@ } else { "已锁定"@ })
    } else {
        Seq::empty()
    }) + (match entries {
        Some(n) => " · "@ + crate::num::decimal_text(n as nat) + " 条"@,
        None => Seq::empty(),
    })
}

/// The head of the status line, up to and including the vault's mode.
pub open spec fn status_head(port: u16, autolock_min: u64, mode: Option<Seq<char>>) -> Seq<char> {
    "daemon: 运行中 (端口 "@ + crate::num::decimal_text(port as nat) + ", 自动锁定 "@ + crate::num::decimal_text(
        autolock_min as nat,
    ) + " 分钟) · 密库: "@ + mode_label(mode)
}

/// The status line reports the lock from the daemon's answer alone: whatever
/// the mode, the line of an unlocked daemon and that of a locked one, all else
/// equal, are the same text around the lock word, which is 已解锁 in the
/// first and 已锁定 in the second.
pub proof fn lemma_status_lock_word(port: u16, autolock_min: u64, mode: Seq<char>, entries: Option<u64>)
    ensures
        exists|a: Seq<char>, b: Seq<char>|
            spec_status_line(port, autolock_min, Some(mode), true, entries) == a + "已解锁"@ + b
            && spec_status_line(port, autolock_min, Some(mode), false, entries) == a + "已锁定"@ + b,
{
    let a = status_head(port, autolock_min, Some(mode)) + " · "@;
    let b: Seq<char> = match entries {
        Some(n) => " · "@ + crate::num::decimal_text(n as nat) + " 条"@,
        None => Seq::empty(),
    };
    assert(spec_status_line(port, autolock_min, Some(mode), true, entries) =~= a + "已解锁"@ + b);
    assert(spec_status_line(port, autolock_min, Some(mode), false, entries) =~= a + "已锁定"@ + b);
}

/// The line that `keyx status` prints from the daemon's status.
pub fn status_line(port: u16, autolock_min: u64, mode: Option<&str>, unlocked: bool, entries: Option<u64>) -> (r: String)
    ensures
        r@ == spec_status_line(port, autolock_min, crate::text::opt_str_ref(mode), unlocked, entries),
        mode is Some ==> contains_text(r@, if unlocked { "已解锁"@ } else { "已锁定"@ }),
{
    let mut r = "daemon: 运行中 (端口 ".to_owned();
    crate::num::push_decimal(&mut r, port as u64);
    r.append(", 自动锁定 ");
    crate::num::push_decimal(&mut r, autolock_min);
    r.append(" 分钟) · 密库: ");
    let label = match mode {
        Some(m) => if str_eq(m, "keychain") {
            "钥匙串"
        } else if str_eq(m, "password") {
            "主密码"
        } else {
            "无密库"
        },
        None => "无密库",
    };
    r.append(label);
    let ghost mid = r@;
    if mode.is_some() {
        r.append(" · ");
        r.append(if unlocked { "已解锁" } else { "已锁定" });
    }
    let ghost mid2 = r@;
    match entries {
        Some(n) => {
            r.append(" · ");
            crate::num::push_decimal(&mut r, n);
            r.append(" 条");
        },
        None => {},
    }
    proof {
        let m = crate::text::opt_str_ref(mode);
        assert(label@ == mode_label(m));
        let a: Seq<char> = if m is Some { " · "@ + (if unlocked { "已解锁"@ } else { "已锁定"@ }) } else { Seq::empty() };
        assert(mid2 =~= mid + a);
        let b: Seq<char> = match entries {
            Some(n) => " · "@ + crate::num::decimal_text(n as nat) + " 条"@,
            None => Seq::empty(),
        };
        assert(r@ =~= mid2 + b);
        assert(r@ =~= spec_status_line(port, autolock_min, m, unlocked, entries));
        if m is Some {
            let w: Seq<char> = if unlocked { "已解锁"@ } else { "已锁定"@ };
            let sep: Seq<char> = " · "@;
            assert(r@ =~= mid + sep + w + b);
            let p: int = mid.len() as int + sep.len() as int;
            assert(r@.subrange(p, p + w.len()) =~= w);
            assert(contains_text(r@, w));
        }
    }
    r
}

/// The entries that `keyx peek` selects: those whose key id or name is the
/// trimmed selector, in order; also gives the selector.
pub fn peek_matches(entries: &Vec<ListedEntry>, key: &str) -> (r: (String, Vec<usize>))
    ensures
        r.0@ == crate::text::spec_trim(key@),
        forall|i: int| 0 <= i < r.1@.len() ==> (#[trigger] r.1@[i]) < entries@.len(),
        forall|i: int, j: int| 0 <= i < j < r.1@.len() ==> (#[trigger] r.1@[i]) < (#[trigger] r.1@[j]),
        forall|k: int| 0 <= k < entries@.len() ==> (r.1@.contains(k as usize) <==> peek_selects(#[trigger] entries@[k], r.0@)),
        forall|k: int| 0 <= k < entries@.len() ==> (r.1@.contains(k as usize) <==> (opt_str((#[trigger] entries@[k]).id)
            == Some(r.0@) || opt_str(entries@[k].name) == Some(r.0@))),
{
    let sel = crate::text::trim(key);
    let mut out: Vec<usize> = Vec::new();
    let mut i: usize = 0;
    while i < entries.len()
        invariant
            i <= entries@.len(),
            forall|a: int| 0 <= a < out@.len() ==> (#[trigger] out@[a]) < i,
            forall|a: int, b: int| 0 <= a < b < out@.len() ==> (#[trigger] out@[a]) < (#[trigger] out@[b]),
            forall|k: int| 0 <= k < i ==> (out@.contains(k as usize) <==> peek_selects(#[trigger] entries@[k], sel@)),
        decreases entries.len() - i,
    {
        let e = &entries[i];
        let by_id = crate::text::opt_is(&e.id, sel.as_str());
        let by_name = crate::text::opt_is(&e.name, sel.as_str());
        let ghost before = out@;
        if by_id || by_name {
            out.push(i);
            proof {
                assert(out@[before.len() as int] == i);
                assert forall|k: int| 0 <= k < i implies (out@.contains(k as usize) <==> peek_selects(#[trigger] entries@[k], sel@)) by {
                    if before.contains(k as usize) {
                        let a = choose|a: int| 0 <= a < before.len() && before[a] == k as usize;
                        assert(out@[a] == k as usize);
                    }
                    if out@.contains(k as usize) {
                        let a = choose|a: int| 0 <= a < out@.len() && out@[a] == k as usize;
                        if a < before.len() {
                            assert(before[a] == k as usize);
                        }
                    }
                }
            }
        } else {
            proof {
                if out@.contains(i) {
                    let a = choose|a: int| 0 <= a < out@.len() && out@[a] == i;
                }
            }
        }
        i += 1;
    }
    (sel, out)
}

/// Peek selects by equality only: an entry is selected exactly when its key id
/// or its name is the selector itself, so a name that merely contains the
/// selector (`redis-prod` for `redis`) is not selected.
pub proof fn lemma_peek_selects_exactly(e: ListedEntry, sel: Seq<char>)
    ensures
        peek_selects(e, sel) <==> (opt_str(e.id) == Some(sel) || opt_str(e.name) == Some(sel)),
{
}

/// Whether `keyx peek` selects an entry by its key id or name.
pub open spec fn peek_selects(e: ListedEntry, sel: Seq<char>) -> bool {
    (e.id matches Some(id) && id@ == sel) || (e.name matches Some(n) && n@ == sel)
}

/// The message of a look that found nothing.
pub fn peek_not_found_message(sel: &str) -> (r: String)
    ensures
        r@ == "没有找到 "@ + sel@ + "。用 keyx list 查看编号与名称。"@,
{
    let mut r = "没有找到 ".to_owned();
    r.append(sel);
    r.append("。用 keyx list 查看编号与名称。");
    r
}

/// The message of a look whose selector is the name of several entries: a
/// head and one line per entry.
pub fn peek_ambiguous_lines(sel: &str, matched: &Vec<ListedEntry>) -> (r: Vec<String>)
    ensures
        r@.len() == matched@.len() + 1,
        r@[0]@ == "名称「"@ + sel@ + "」有 "@ + crate::num::decimal_text(matched@.len()) + " 条，请用编号指定："@,
        forall|i: int| 0 <= i < matched@.len() ==> (#[trigger] r@[i + 1])@ == "  "@ + or_empty(opt_str(matched@[i].id))
            + "  "@ + or_empty(opt_str(matched@[i].name)),
{
    let mut head = "名称「".to_owned();
    head.append(sel);
    head.append("」有 ");
    crate::num::push_decimal(&mut head, matched.len() as u64);
    head.append(" 条，请用编号指定：");
    let mut r: Vec<String> = Vec::new();
    r.push(head);
    let mut i: usize = 0;
    proof {
        reveal_strlit("");
    }
    while i < matched.len()
        invariant
            i <= matched@.len(),
            r@.len() == i + 1,
            r@[0]@ == "名称「"@ + sel@ + "」有 "@ + crate::num::decimal_text(matched@.len()) + " 条，请用编号指定："@,
            forall|k: int| 0 <= k < i ==> (#[trigger] r@[k + 1])@ == "  "@ + or_empty(opt_str(matched@[k].id)) + "  "@
                + or_empty(opt_str(matched@[k].name)),
        decreases matched.len() - i,
    {
        let e = &matched[i];
        let mut line = "  ".to_owned();
        match &e.id {
            Some(s) => line.append(s.as_str()),
            None => {},
        }
        line.append("  ");
        match &e.name {
            Some(s) => line.append(s.as_str()),
            None => {},
        }
        assert(line@ =~= "  "@ + or_empty(opt_str(e.id)) + "  "@ + or_empty(opt_str(e.name)));
        r.push(line);
        i += 1;
    }
    r
}

/// What `keyx peek` says once the daemon answered: cancelled, copied (with the
/// seconds until the clipboard is cleared), shown, or confirmed. The entry is
/// named by its name, or its key id when it has none.
pub open spec fn spec_peek_done(ok: bool, method: Option<Seq<char>>, name: Seq<char>, id: Seq<char>) -> Seq<char> {
    let n = if name.len() == 0 { id } else { name };
    if !ok {
        "已取消。"@
    } else if method == Some("clipboard"@) {
        "已把「"@ + n + "」复制到剪贴板，"@ + crate::num::decimal_text(CLIPBOARD_CLEAR_SEC as nat) + " 秒后自动清空。"@
    } else if method == Some("show"@) {
        "已在弹窗中显示「"@ + n + "」。"@
    } else {
        "已确认。"@
    }
}

/// The message that `keyx peek` prints once the daemon answered.
pub fn peek_done_message(ok: bool, method: Option<&str>, name: &str, id: &str) -> (r: String)
    ensures
        r@ == spec_peek_done(ok, crate::text::opt_str_ref(method), name@, id@),
{
    let n = if name.is_empty() { id } else { name };
    if !ok {
        return "已取消。".to_owned();
    }
    let is = |t: &str| -> (b: bool)
        ensures
            b == (crate::text::opt_str_ref(method) == Some(t@)),
        {
            match method {
                Some(m) => str_eq(m, t),
                None => false,
            }
        };
    if is("clipboard") {
        let mut r = "已把「".to_owned();
        r.append(n);
        r.append("」复制到剪贴板，");
        crate::num::push_decimal(&mut r, CLIPBOARD_CLEAR_SEC);
        r.append(" 秒后自动清空。");
        r
    } else if is("show") {
        let mut r = "已在弹窗中显示「".to_owned();
        r.append(n);
        r.append("」。");
        r
    } else {
        "已确认。".to_owned()
    }
}

/// A character as an AppleScript string literal holds it.
pub open spec fn escape_char(c: char) -> Seq<char> {
    if c == '\\' {
        seq!['\\', '\\']
    } else if c == '"' {
        seq!['\\', '"']
    } else if c == '\r' {
        Seq::empty()
    } else if c == '\n' {
        seq!['\\', 'n']
    } else {
        seq![c]
    }
}

/// The characters of a text, each as an AppleScript string literal holds it.
pub open spec fn escaped(s: Seq<char>) -> Seq<char>
    decreases s.len(),
{
    if s.len() == 0 {
        Seq::empty()
    } else {
        escaped(s.drop_last()) + escape_char(s.last())
    }
}

/// A text as an AppleScript string literal: in double quotes, with backslash
/// and quote escaped, carriage returns dropped and line feeds as `\n`.
pub fn as_quote(s: &str) -> (r: String)
    ensures
        r@ == seq!['"'] + escaped(s@) + seq!['"'],
{
    let cs = chars_of(s);
    let mut r = String::new();
    crate::text::push_char(&mut r, '"');
    let mut i: usize = 0;
    while i < cs.len()
        invariant
            i <= cs@.len(),
            cs@ == s@,
            r@ == seq!['"'] + escaped(cs@.take(i as int)),
        decreases cs.len() - i,
    {
        let c = cs[i];
        let ghost before = r@;
        if c == '\\' {
            crate::text::push_char(&mut r, '\\');
            crate::text::push_char(&mut r, '\\');
        } else if c == '"' {
            crate::text::push_char(&mut r, '\\');
            crate::text::push_char(&mut r, '"');
        } else if c == '\r' {
        } else if c == '\n' {
            crate::text::push_char(&mut r, '\\');
            crate::text::push_char(&mut r, 'n');
        } else {
            crate::text::push_char(&mut r, c);
        }
        proof {
            let t = cs@.take(i + 1);
            assert(t.drop_last() =~= cs@.take(i as int));
            assert(t.last() == c);
            assert(r@ =~= before + escape_char(c));
        }
        i += 1;
    }
    crate::text::push_char(&mut r, '"');
    assert(cs@.take(cs@.len() as int) =~= cs@);
    r
}

/// The text of a daemon error: its `message`, else its `error` code, else `unknown`.
pub fn api_error_message(message: Option<&str>, error: Option<&str>) -> (r: String)
    ensures
        r@ == (match message {
            Some(m) => m@,
            None => match error {
                Some(e) => e@,
                None => "unknown"@,
            },
        }),
{
    match message {
        Some(m) => m.to_owned(),
        None => match error {
            Some(e) => e.to_owned(),
            None => "unknown".to_owned(),
        },
    }
}

/// The first entry with key id `k`, where there is one.
pub open spec fn first_listed(es: Seq<ListedEntry>, k: Seq<char>) -> Option<ListedEntry>
    decreases es.len(),
{
    if es.len() == 0 {
        None
    } else if opt_str(es[0].id) == Some(k) {
        Some(es[0])
    } else {
        first_listed(es.drop_first(), k)
    }
}

/// The line that presents a key id asked for: the key id, then the name and
/// username of its entry (empty when there is no such entry).
pub open spec fn need_line(es: Seq<ListedEntry>, k: Seq<char>) -> Seq<char> {
    let (name, user) = match first_listed(es, k) {
        Some(e) => (or_empty(opt_str(e.name)), or_empty(opt_str(e.username))),
        None => (Seq::empty(), Seq::empty()),
    };
    "  "@ + k + "  "@ + name + " "@ + user
}

fn find_listed(es: &Vec<ListedEntry>, k: &str) -> (r: Option<usize>)
    ensures
        match r {
            Some(i) => i < es@.len() && first_listed(es@, k@) == Some(es@[i as int]),
            None => first_listed(es@, k@) is None,
        },
{
    let mut i: usize = 0;
    assert(es@.skip(0) =~= es@);
    while i < es.len()
        invariant
            i <= es@.len(),
            first_listed(es@, k@) == first_listed(es@.skip(i as int), k@),
        decreases es.len() - i,
    {
        assert(es@.skip(i as int)[0] == es@[i as int]);
        if crate::text::opt_is(&es[i].id, k) {
            return Some(i);
        }
        assert(es@.skip(i as int).drop_first() =~= es@.skip(i + 1));
        i += 1;
    }
    None
}

/// What `keyx run` asks when a project is not yet trusted: a head naming the
/// project, then one line per key id asked for.
pub fn need_trust_lines(project: &str, need: &Vec<String>, entries: &Vec<ListedEntry>) -> (r: Vec<String>)
    ensures
        r@.len() == need@.len() + 1,
        r@[0]@ == "项目 "@ + project@ + " 首次请求访问："@,
        forall|i: int| 0 <= i < need@.len() ==> (#[trigger] r@[i + 1])@ == need_line(entries@, need@[i]@),
{
    let mut r: Vec<String> = Vec::new();
    r.push(crate::text::concat3("项目 ", project, " 首次请求访问："));
    let mut i: usize = 0;
    while i < need.len()
        invariant
            i <= need@.len(),
            r@.len() == i + 1,
            r@[0]@ == "项目 "@ + project@ + " 首次请求访问："@,
            forall|j: int| 0 <= j < i ==> (#[trigger] r@[j + 1])@ == need_line(entries@, need@[j]@),
        decreases need.len() - i,
    {
        let k = need[i].as_str();
        let mut line = crate::text::concat3("  ", k, "  ");
        match find_listed(entries, k) {
            Some(j) => {
                match &entries[j].name {
                    Some(n) => line.append(n.as_str()),
                    None => {},
                }
                line.append(" ");
                match &entries[j].username {
                    Some(u) => line.append(u.as_str()),
                    None => {},
                }
            },
            None => {
                line.append(" ");
            },
        }
        proof {
            reveal_strlit("");
            assert(line@ =~= need_line(entries@, need@[i as int]@));
        }
        r.push(line);
        i += 1;
    }
    r
}

/// Whether lines `2k` and `2k + 1` show the `k`-th trust entry: its project,
/// then its key ids indented, separated by spaces.
pub open spec fn trust_rows(r: Seq<String>, entries: Seq<crate::trust::TrustEntry>, k: int) -> bool {
    &&& r[2 * k]@ == entries[k].project@
    &&& r[2 * k + 1]@ == "    "@ + crate::text::join_texts(crate::order::texts(entries[k].keys@), " "@)
}

/// The lines of `keyx trust list`: `（空）` when the list is empty; otherwise
/// each project, then its key ids indented, separated by spaces.
pub fn trust_lines(entries: &Vec<crate::trust::TrustEntry>) -> (r: Vec<String>)
    ensures
        entries@.len() == 0 ==> r@.len() == 1 && r@[0]@ == "（空）"@,
        entries@.len() > 0 ==> r@.len() == 2 * entries@.len() && forall|i: int| 0 <= i < entries@.len() ==> #[trigger] trust_rows(r@, entries@, i),
{
    let mut r: Vec<String> = Vec::new();
    if entries.len() == 0 {
        r.push("（空）".to_owned());
        return r;
    }
    let mut i: usize = 0;
    while i < entries.len()
        invariant
            i <= entries@.len(),
            r@.len() == 2 * i,
            forall|k: int| 0 <= k < i ==> #[trigger] trust_rows(r@, entries@, k),
        decreases entries.len() - i,
    {
        let ghost before = r@;
        r.push(entries[i].project.clone());
        let mut line = "    ".to_owned();
        let joined = crate::text::join(&entries[i].keys, " ");
        line.append(joined.as_str());
        r.push(line);
        proof {
            assert(crate::order::texts(entries@[i as int].keys@) == entries@[i as int].keys@.map_values(|x: String| x@));
            assert(trust_rows(r@, entries@, i as int));
            assert forall|k: int| 0 <= k < i implies #[trigger] trust_rows(r@, entries@, k) by {
                assert(trust_rows(before, entries@, k));
                assert(r@[2 * k] == before[2 * k]);
                assert(r@[2 * k + 1] == before[2 * k + 1]);
            }
        }
        i += 1;
    }
    r
}

/// Where `keyx audit` cuts a time stamp: after its first 19 bytes (the date
/// and the time to the second), or at its end when it is shorter.
pub open spec fn ts_cut(ts: &str) -> int {
    if ts.len() < 19 {
        ts.len() as int
    } else {
        19
    }
}

/// One line of `keyx audit`: the cut time stamp, two spaces, the event padded
/// to 8 characters, a space, and the event's other fields joined by spaces.
/// The cut must fall between two characters.
pub fn audit_line(ts: &str, event: &str, extra: &Vec<String>) -> (r: String)
    requires
        is_char_boundary(ts.spec_bytes(), ts_cut(ts)),
    ensures
        r@ == decode_utf8(ts.spec_bytes().subrange(0, ts_cut(ts))) + "  "@ + pad_right(event@, 8) + " "@
            + crate::text::join_texts(crate::order::texts(extra@), " "@),
{
    let m: usize = if ts.len() < 19 {
        ts.len()
    } else {
        19
    };
    let (head, _rest) = ts.split_at(m);
    proof {
        encode_utf8_decode_utf8(head@);
        assert(head.spec_bytes() == encode_utf8(head@));
    }
    let mut r = head.to_owned();
    r.append("  ");
    push_padded(&mut r, event, 8);
    r.append(" ");
    let joined = crate::text::join(extra, " ");
    r.append(joined.as_str());
    r
}

/// The process id in a pid file: its trimmed text as a number.
pub fn parse_pid(text: &str) -> (r: Option<u32>)
    ensures
        match r {
            Some(p) => crate::num::spec_parse_bounded(crate::text::spec_trim(text@), u32::MAX as nat) == Some(p as nat),
            None => crate::num::spec_parse_bounded(crate::text::spec_trim(text@), u32::MAX as nat) is None,
        },
{
    let t = crate::text::trim(text);
    crate::num::parse_u32(t.as_str())
}

} // verus!
