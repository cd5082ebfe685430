use keyx::cli::{
    answer_is_yes, confirm_at_terminal, create_falls_back, resolve_reaction, RunAction, export_key_plan, import_plan, keychain_allowed, master_password_long_enough, probe_result,
    rotate_password, unlock_plan, ExportKey, Probe, UnlockPlan,
};
use keyx::config::{
    audit_file, client_file, daemon_log, default_iterations, home_dir, join, keychain_user, lock_minutes, pid_file,
    port, trust_file, vault_file, DEFAULT_ITER, DEFAULT_LOCK_MIN, DEFAULT_PORT, MODE_KEYCHAIN, MODE_PASSWORD, VERSION,
};
use keyx::num::{decimal, parse_u16, parse_u32, parse_u64};
use keyx::order::sort_strings;
use keyx::refs::{collect_env_references, inject_env, is_kx_ref, run_keys, TomlSource};
use keyx::render::{
    api_error_message, as_quote, audit_line, list_lines, need_trust_lines, parse_pid, peek_ambiguous_lines, peek_done_message,
    peek_matches, peek_not_found_message, status_line, trust_lines, ListedEntry, CLIPBOARD_CLEAR_SEC,
};
use keyx::text::trim;
use keyx::trust::{normalize_project, trust_add, trust_allowed, trust_remove, TrustEntry};

fn strings(v: &[&str]) -> Vec<String> {
    v.iter().map(|s| s.to_string()).collect()
}

fn keys(v: &[&str]) -> Vec<Option<String>> {
    v.iter().map(|s| Some(s.to_string())).collect()
}

fn pairs(v: &[(&str, &str)]) -> Vec<(String, String)> {
    v.iter().map(|(a, b)| (a.to_string(), b.to_string())).collect()
}

fn listed(id: &str, name: &str, username: &str, notes: &str) -> ListedEntry {
    ListedEntry {
        id: Some(id.to_owned()),
        name: Some(name.to_owned()),
        username: Some(username.to_owned()),
        notes: Some(notes.to_owned()),
    }
}

#[test]
fn kx_references() {
    assert!(is_kx_ref("kx_8f2a1c9d"));
    assert!(is_kx_ref("kx_a-B_9"));
    assert!(!is_kx_ref("kx_"));
    assert!(!is_kx_ref("kx_a b"));
    assert!(!is_kx_ref("KX_abc"));
    assert!(!is_kx_ref("hello"));
    assert!(!is_kx_ref("kx_é"));
}

#[test]
fn explicit_env_then_toml_then_dotenv() {
    let args = strings(&["OUT_PW=kx_2", "ENV_PW = kx_2 "]);
    let toml = TomlSource::Text("[env]\nENV_PW = \"kx_3\"\nTOML_ONLY = \"kx_4\"\nBLANK = \"  \"\nNUM = 5\n".to_owned());
    let dotenv = "# comment\nENV_PW=kx_5\nPLAIN=hello\nQUOTED=\"kx_6\"\nTOML_ONLY='kx_7'\n\nNOEQ\n";
    let r = collect_env_references(&args, &toml, Some(dotenv)).ok().unwrap();
    assert!(!r.toml_warning);
    assert_eq!(
        r.mapping,
        pairs(&[("OUT_PW", "kx_2"), ("ENV_PW", "kx_2"), ("TOML_ONLY", "kx_4"), ("QUOTED", "kx_6")])
    );
}

#[test]
fn toml_beats_dotenv() {
    let toml = TomlSource::Text("[env]\nENV_PW = \"kx_3\"\n".to_owned());
    let r = collect_env_references(&vec![], &toml, Some("ENV_PW=kx_2\n")).ok().unwrap();
    assert_eq!(r.mapping, pairs(&[("ENV_PW", "kx_3")]));
    let r = collect_env_references(&vec![], &TomlSource::Absent, Some("ENV_PW=kx_2\nPLAIN=hello\n")).ok().unwrap();
    assert_eq!(r.mapping, pairs(&[("ENV_PW", "kx_2")]));
}

#[test]
fn broken_toml_warns_and_is_ignored() {
    let r = collect_env_references(&vec![], &TomlSource::Text("[env\nX=".to_owned()), Some("A=kx_1")).ok().unwrap();
    assert!(r.toml_warning);
    assert_eq!(r.mapping, pairs(&[("A", "kx_1")]));
    let r = collect_env_references(&vec![], &TomlSource::Unreadable, None).ok().unwrap();
    assert!(r.toml_warning);
    assert!(r.mapping.is_empty());
    let r = collect_env_references(&vec![], &TomlSource::Text("x = 1\n".to_owned()), None).ok().unwrap();
    assert!(!r.toml_warning);
    assert!(r.mapping.is_empty());
}

#[test]
fn malformed_env_option() {
    for bad in ["NOVALUE", "=kx_1", "X=", " = "] {
        let args = strings(&["A=kx_1", bad, "B"]);
        match collect_env_references(&args, &TomlSource::Absent, None) {
            Ok(_) => panic!("malformed option accepted: {}", bad),
            Err(kv) => assert_eq!(kv, bad),
        }
    }
}

#[test]
fn no_references_means_pass_through() {
    let r = collect_env_references(&vec![], &TomlSource::Absent, Some("PLAIN=hello\n")).ok().unwrap();
    assert!(r.mapping.is_empty());
}

#[test]
fn run_keys_sorted_unique() {
    let m = pairs(&[("A", "kx_b"), ("B", "kx_a"), ("C", "kx_b")]);
    assert_eq!(run_keys(&m), strings(&["kx_a", "kx_b"]));
}

#[test]
fn inject_env_values() {
    let m = pairs(&[("A", "kx_b"), ("B", "kx_a")]);
    let pw = pairs(&[("kx_a", "one"), ("kx_b", "two")]);
    assert_eq!(inject_env(&m, &pw), Ok(pairs(&[("A", "two"), ("B", "one")])));
    let pw = pairs(&[("kx_b", "two")]);
    assert_eq!(inject_env(&m, &pw), Err("kx_a".to_owned()));
}

#[test]
fn list_sorted_by_key_id_with_padding() {
    let es = vec![listed("kx_b", "Redis", "", ""), listed("kx_a", "订单库", "order_app", "")];
    let lines = list_lines(es, None);
    assert_eq!(lines.len(), 3);
    // The name column is two wider than the longest name (5 characters).
    assert_eq!(lines[0], format!("{:<14}{:<7}{}", "key-id", "名称", "用户名"));
    assert_eq!(lines[1], format!("{:<14}{:<7}{}", "kx_a", "订单库", "order_app"));
    assert_eq!(lines[2], format!("{:<14}{:<7}{}", "kx_b", "Redis", ""));
}

#[test]
fn list_filter_ignores_case() {
    let es = vec![
        listed("kx_1", "Proj-DB", "", ""),
        listed("kx_2", "other", "PROJ_user", ""),
        listed("kx_3", "x", "y", "notes about proj"),
        listed("kx_4", "z", "", ""),
    ];
    let lines = list_lines(es, Some("proj"));
    assert_eq!(lines.len(), 4);
    assert!(lines[1].starts_with("kx_1"));
    assert!(lines[3].starts_with("kx_3"));
    let lines = list_lines(vec![listed("kx_1", "a", "", "")], Some("zzz"));
    assert_eq!(lines, strings(&["（空）"]));
    assert_eq!(list_lines(vec![], None), strings(&["（空）"]));
}

#[test]
fn status_lines() {
    assert_eq!(
        status_line(7361, 30, Some("password"), true, Some(2)),
        "daemon: 运行中 (端口 7361, 自动锁定 30 分钟) · 密库: 主密码 · 已解锁 · 2 条"
    );
    assert_eq!(
        status_line(7410, 0, Some("keychain"), false, None),
        "daemon: 运行中 (端口 7410, 自动锁定 0 分钟) · 密库: 钥匙串 · 已锁定"
    );
    assert_eq!(status_line(1, 5, None, false, None), "daemon: 运行中 (端口 1, 自动锁定 5 分钟) · 密库: 无密库");
}

#[test]
fn peek_selection() {
    let es = vec![listed("kx_1", "db", "", ""), listed("kx_2", "db", "", ""), listed("kx_3", "kx_1", "", "")];
    let (sel, m) = peek_matches(&es, "  db ");
    assert_eq!(sel, "db");
    assert_eq!(m, vec![0, 1]);
    let (_, m) = peek_matches(&es, "kx_1");
    assert_eq!(m, vec![0, 2]);
    let (_, m) = peek_matches(&es, "kx_9");
    assert!(m.is_empty());
    assert_eq!(peek_not_found_message("kx_9"), "没有找到 kx_9。用 keyx list 查看编号与名称。");
    let amb = peek_ambiguous_lines("db", &vec![listed("kx_1", "db", "", ""), listed("kx_2", "db", "", "")]);
    assert_eq!(amb, strings(&["名称「db」有 2 条，请用编号指定：", "  kx_1  db", "  kx_2  db"]));
}

#[test]
fn peek_messages() {
    assert_eq!(peek_done_message(false, Some("clipboard"), "db", "kx_1"), "已取消。");
    assert_eq!(
        peek_done_message(true, Some("clipboard"), "db", "kx_1"),
        format!("已把「db」复制到剪贴板，{} 秒后自动清空。", CLIPBOARD_CLEAR_SEC)
    );
    assert_eq!(peek_done_message(true, Some("show"), "", "kx_1"), "已在弹窗中显示「kx_1」。");
    assert_eq!(peek_done_message(true, Some("test"), "db", "kx_1"), "已确认。");
    assert_eq!(peek_done_message(true, None, "db", "kx_1"), "已确认。");
}

#[test]
fn applescript_quoting() {
    assert_eq!(as_quote("a\"b\\c\r\nd"), "\"a\\\"b\\\\c\\nd\"");
    assert_eq!(as_quote(""), "\"\"");
}

#[test]
fn api_error_text() {
    assert_eq!(api_error_message(Some("msg"), Some("CODE")), "msg");
    assert_eq!(api_error_message(None, Some("CODE")), "CODE");
    assert_eq!(api_error_message(None, None), "unknown");
}

#[test]
fn trust_list_lines() {
    assert_eq!(trust_lines(&vec![]), strings(&["（空）"]));
    let t = vec![TrustEntry { project: "/p".to_owned(), keys: strings(&["kx_1", "kx_2"]), added_at: String::new() }];
    assert_eq!(trust_lines(&t), strings(&["/p", "    kx_1 kx_2"]));
}

#[test]
fn audit_lines() {
    let extra = strings(&["key=kx_1", "fields=[\"password\"]"]);
    assert_eq!(
        audit_line("2026-01-02T03:04:05.123456+00:00", "ROTATE", &extra),
        "2026-01-02T03:04:05  ROTATE   key=kx_1 fields=[\"password\"]"
    );
    assert_eq!(audit_line("short", "LOCK", &vec![]), "short  LOCK     ");
    assert_eq!(audit_line("", "CREATE_VAULT", &strings(&["mode=KEYCHAIN"])), "  CREATE_VAULT mode=KEYCHAIN");
}

#[test]
fn pid_text() {
    assert_eq!(parse_pid(" 1234\n"), Some(1234));
    assert_eq!(parse_pid("x"), None);
    assert_eq!(parse_pid("4294967296"), None);
}

#[test]
fn trust_grants_and_revokes() {
    let mut t: Vec<TrustEntry> = vec![];
    assert_eq!(trust_add(&mut t, "/proj/", &keys(&["kx_b", "kx_a"])).ok(), Some("/proj".to_owned()));
    assert_eq!(t.len(), 1);
    assert_eq!(t[0].keys, strings(&["kx_a", "kx_b"]));
    assert!(trust_allowed(&t, "/proj", "kx_a"));
    assert!(!trust_allowed(&t, "/proj/", "kx_a"));
    assert!(!trust_allowed(&t, "/other", "kx_a"));
    assert!(trust_add(&mut t, "/proj", &keys(&["kx_c", "kx_a"])).is_ok());
    assert_eq!(t.len(), 1);
    assert_eq!(t[0].keys, strings(&["kx_a", "kx_b", "kx_c"]));
    assert!(trust_add(&mut t, "/q", &keys(&["kx_a"])).is_ok());
    assert_eq!(t.len(), 2);
    match trust_add(&mut t, "/", &keys(&["kx_a"])) {
        Ok(_) => panic!("empty project accepted"),
        Err(e) => assert!(e.code == keyx::error::ErrorCode::BadRequest),
    }
    assert!(trust_add(&mut t, "/x", &vec![]).is_err());
    assert_eq!(trust_remove(&mut t, "/proj//"), "/proj");
    assert_eq!(t.len(), 1);
    assert_eq!(t[0].project, "/q");
    assert_eq!(normalize_project("/a/b///"), "/a/b");
}

#[test]
fn paths_and_settings() {
    assert_eq!(home_dir(Some("/tmp/kx"), Some("/home/u")), "/tmp/kx");
    assert_eq!(home_dir(None, Some("/home/u")), "/home/u/.keyx");
    assert_eq!(home_dir(None, Some("/home/u/")), "/home/u/.keyx");
    assert_eq!(home_dir(None, None), "./.keyx");
    assert_eq!(vault_file("/h"), "/h/vault.json");
    assert_eq!(trust_file("/h"), "/h/trust.json");
    assert_eq!(audit_file("/h"), "/h/audit.log");
    assert_eq!(client_file("/h"), "/h/client.token");
    assert_eq!(pid_file("/h"), "/h/daemon.pid");
    assert_eq!(daemon_log("/h"), "/h/daemon.log");
    assert_eq!(join("", "x"), "x");
    assert_eq!(port(None), DEFAULT_PORT);
    assert_eq!(port(Some("7410")), 7410);
    assert_eq!(port(Some("70000")), 7361);
    assert_eq!(lock_minutes(Some("0")), 0);
    assert_eq!(lock_minutes(Some("-1")), DEFAULT_LOCK_MIN);
    assert_eq!(default_iterations(Some("1000")), 1000);
    assert_eq!(default_iterations(None), DEFAULT_ITER);
    assert_eq!(keychain_user(None), "master");
    assert_eq!(keychain_user(Some("u")), "u");
    assert_eq!(VERSION, "1.3.0");
    assert_eq!(MODE_KEYCHAIN, "KEYCHAIN");
    assert_eq!(MODE_PASSWORD, "PBKDF2-SHA256");
}

#[test]
fn numbers_parse_like_std() {
    assert_eq!(parse_u64("18446744073709551615"), Some(u64::MAX));
    assert_eq!(parse_u64("18446744073709551616"), None);
    assert_eq!(parse_u64("+12"), Some(12));
    assert_eq!(parse_u64(""), None);
    assert_eq!(parse_u64("+"), None);
    assert_eq!(parse_u64(" 1"), None);
    assert_eq!(parse_u32("4294967295"), Some(u32::MAX));
    assert_eq!(parse_u16("65536"), None);
    assert_eq!(decimal(0), "0");
    assert_eq!(decimal(1234567890), "1234567890");
}

#[test]
fn strings_sort_in_code_point_order() {
    assert_eq!(sort_strings(strings(&["b", "a", "é", "Z", "a"])), strings(&["Z", "a", "a", "b", "é"]));
}

#[test]
fn trimming_uses_unicode_white_space() {
    assert_eq!(trim("\u{3000} a b\t\n"), "a b");
    assert_eq!(trim(""), "");
}

#[test]
fn client_plans() {
    assert_eq!(unlock_plan(true, false, None), UnlockPlan::Ready);
    assert_eq!(unlock_plan(false, false, Some("keychain")), UnlockPlan::Create);
    assert_eq!(unlock_plan(false, true, Some("keychain")), UnlockPlan::UnlockKeychain);
    assert_eq!(unlock_plan(false, true, Some("password")), UnlockPlan::UnlockPassword);
    assert_eq!(unlock_plan(false, true, None), UnlockPlan::UnlockPassword);
    assert!(create_falls_back(Some("NO_KEYRING")));
    assert!(!create_falls_back(Some("KEYCHAIN_OCCUPIED")));
    assert!(!create_falls_back(None));
    assert!(master_password_long_enough("12345678"));
    assert!(!master_password_long_enough("1234567"));
    assert_eq!(probe_result(0), Probe::Down);
    assert_eq!(probe_result(403), Probe::Mismatch);
    assert_eq!(probe_result(404), Probe::Up);
    assert!(!keychain_allowed(Some("password")));
    assert!(keychain_allowed(Some("keychain")));
    assert!(keychain_allowed(None));
    assert_eq!(rotate_password(Some("typed"), Some("env")), Some("typed".to_owned()));
    assert_eq!(rotate_password(Some(""), Some("env")), Some("env".to_owned()));
    assert_eq!(rotate_password(None, Some("")), None);
}

#[test]
fn import_and_export_plans() {
    let p = import_plan(Some(MODE_KEYCHAIN), Some("abcd"), true);
    assert_eq!(p.keychain_key.as_deref(), Some("abcd"));
    assert!(p.strip_key);
    assert_eq!(p.note, "主密钥已写入本机钥匙串，导入后可直接使用。");
    let p = import_plan(Some(MODE_KEYCHAIN), Some("abcd"), false);
    assert!(p.keychain_key.is_none());
    assert!(p.strip_key);
    let p = import_plan(Some(MODE_KEYCHAIN), None, true);
    assert!(!p.strip_key);
    assert!(p.note.starts_with("注意"));
    let p = import_plan(Some(MODE_PASSWORD), Some("abcd"), true);
    assert!(!p.strip_key);
    assert_eq!(p.note, "");
    assert!(matches!(export_key_plan(Some(MODE_KEYCHAIN), Some("ff")), ExportKey::Attach(k) if k == "ff"));
    assert!(matches!(export_key_plan(Some(MODE_KEYCHAIN), None), ExportKey::Missing));
    assert!(matches!(export_key_plan(Some(MODE_PASSWORD), Some("ff")), ExportKey::NotNeeded));
}

#[test]
fn yes_answers() {
    assert!(answer_is_yes("y\n"));
    assert!(answer_is_yes(" Y "));
    assert!(!answer_is_yes("n\n"));
    assert!(!answer_is_yes("yes"));
    assert!(!answer_is_yes(""));
}

#[test]
fn need_trust_prompt() {
    let es = vec![listed("kx_1", "订单库", "order_app", ""), listed("kx_1", "dup", "", "")];
    let lines = need_trust_lines("/proj", &strings(&["kx_1", "kx_9"]), &es);
    assert_eq!(lines, strings(&["项目 /proj 首次请求访问：", "  kx_1  订单库 order_app", "  kx_9   "]));
}

#[test]
fn trust_keys_of_other_types_are_skipped() {
    let mut t: Vec<TrustEntry> = vec![];
    // Keys that are not strings still make a request with keys.
    assert_eq!(trust_add(&mut t, "/p", &vec![None, None]).ok(), Some("/p".to_owned()));
    assert_eq!(t.len(), 1);
    assert!(t[0].keys.is_empty());
    assert!(trust_add(&mut t, "/p", &vec![None, Some("kx_1".to_owned())]).is_ok());
    assert_eq!(t[0].keys, strings(&["kx_1"]));
}

#[test]
fn resolve_reactions() {
    assert_eq!(resolve_reaction(403, Some("NEED_TRUST")), RunAction::AskTrust);
    assert_eq!(resolve_reaction(403, Some("FORBIDDEN")), RunAction::Fail);
    assert_eq!(resolve_reaction(423, Some("LOCKED")), RunAction::Unlock);
    assert_eq!(resolve_reaction(423, None), RunAction::Unlock);
    assert_eq!(resolve_reaction(404, Some("NOT_FOUND")), RunAction::Fail);
    assert_eq!(resolve_reaction(0, None), RunAction::Fail);
}

#[test]
fn peek_falls_back_to_the_terminal() {
    assert!(confirm_at_terminal(Some("PEEK_NO_GUI"), true));
    assert!(!confirm_at_terminal(Some("PEEK_NO_GUI"), false));
    assert!(!confirm_at_terminal(Some("NOT_FOUND"), true));
    assert!(!confirm_at_terminal(None, true));
}

#[test]
fn toml_env_table_shapes() {
    // `env` that is not a table contributes nothing.
    let r = collect_env_references(&vec![], &TomlSource::Text("env = \"kx_1\"\n".to_owned()), None).ok().unwrap();
    assert!(!r.toml_warning);
    assert!(r.mapping.is_empty());
    // Values that are not strings are skipped, strings are trimmed.
    let t = "[env]\nA = 1\nB = [\"kx_2\"]\nC = \" kx_3 \"\n[other]\nD = \"kx_4\"\n";
    let r = collect_env_references(&vec![], &TomlSource::Text(t.to_owned()), None).ok().unwrap();
    assert_eq!(r.mapping, pairs(&[("C", "kx_3")]));
}
