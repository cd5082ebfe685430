use keyx::audit::{AuditEvent, AuditValue};
use keyx::config::{MODE_KEYCHAIN, MODE_PASSWORD};
use keyx::daemon::{
    audit_count, audit_tail_start, authorized, entries_delete, entries_list, entries_post, peek_display_name,
    peek_entry, peek_finish, resolve, route_of, status_obj, PeekOutcome, Resolution, Route, State, Unlocked,
};
use keyx::entries::{new_key_id, new_vault_data, EntryBody, Field};
use keyx::error::ErrorCode;
use keyx::trust::{trust_add, TrustEntry};

const MINUTE: u64 = 60_000;

fn text(s: &str) -> Field {
    Field::Text(s.to_owned())
}

fn body(id: Option<&str>, name: Option<&str>, password: Option<&str>) -> EntryBody {
    EntryBody {
        id: id.map(String::from),
        name: name.map(text),
        username: None,
        url: None,
        notes: None,
        password: password.map(text),
    }
}

fn unlocked_state(now: u64) -> State {
    let mut s = State::new(30, now);
    s.set_unlocked(
        Unlocked { key: vec![0u8; 32], data: new_vault_data("t".to_owned(), 1000), kdf: MODE_PASSWORD.to_owned() },
        now,
    );
    s
}

fn add(s: &mut State, name: &str, pw: &str, log: &mut Vec<AuditEvent>) -> String {
    match entries_post(s, &body(None, Some(name), Some(pw)), 0, log) {
        Ok((id, ev)) => {
            assert_eq!(ev.event, "ADD");
            id
        }
        Err(e) => panic!("add failed: {:?}", e.code),
    }
}

fn text_field(ev: &AuditEvent, name: &str) -> Option<String> {
    for (k, v) in &ev.fields {
        if k == name {
            if let AuditValue::Text(t) = v {
                return Some(t.clone());
            }
        }
    }
    None
}

#[test]
fn locked_state_refuses() {
    let mut s = State::new(30, 0);
    let mut log = vec![];
    match entries_list(&mut s, 10, &mut log) {
        Ok(_) => panic!("locked state listed"),
        Err(e) => assert!(e.code == ErrorCode::Locked),
    }
    assert!(log.is_empty());
    assert_eq!(s.last_used, 0);
}

#[test]
fn autolock_after_idle_minutes() {
    let mut s = unlocked_state(0);
    let mut log = vec![];
    assert!(s.with(30 * MINUTE, &mut log).is_ok());
    assert!(s.unlocked.is_some());
    assert_eq!(s.last_used, 30 * MINUTE);
    match s.with(60 * MINUTE + 1, &mut log) {
        Ok(_) => panic!("idle vault stayed unlocked"),
        Err(e) => assert!(e.code == ErrorCode::Locked),
    }
    assert!(s.unlocked.is_none());
    assert_eq!(log.len(), 1);
    assert_eq!(log[0].event, "LOCK");
    assert_eq!(text_field(&log[0], "reason").as_deref(), Some("autolock"));
    assert!(matches!(log[0].fields[1].1, AuditValue::Number(30)));
}

#[test]
fn no_autolock_when_disabled() {
    let mut s = unlocked_state(0);
    s.lock_minutes = 0;
    let mut log = vec![];
    assert!(s.with(1_000_000 * MINUTE, &mut log).is_ok());
    assert!(log.is_empty());
}

#[test]
fn manual_lock() {
    let mut s = unlocked_state(0);
    let mut log = vec![];
    assert!(s.lock_manual("manual", &mut log));
    assert!(s.unlocked.is_none());
    assert_eq!(log.len(), 1);
    assert_eq!(text_field(&log[0], "reason").as_deref(), Some("manual"));
    assert!(!s.lock_manual("manual", &mut log));
    assert_eq!(log.len(), 1);
}

#[test]
fn add_then_list_without_passwords() {
    let mut s = unlocked_state(0);
    let mut log = vec![];
    let id = add(&mut s, "  订单库  ", "Real-Secret-981!", &mut log);
    assert!(id.starts_with("kx_"));
    assert_eq!(id.len(), 11);
    let id2 = add(&mut s, "Redis", "", &mut log);
    assert_ne!(id, id2);
    let list = entries_list(&mut s, 5, &mut log).ok().unwrap();
    assert_eq!(list.len(), 2);
    assert_eq!(list[0].id, id);
    assert_eq!(list[0].name, text("订单库"));
    assert!(list[0].has_password);
    assert!(!list[1].has_password);
    assert_eq!(s.last_used, 5);
    assert!(log.is_empty());
}

#[test]
fn add_refuses_empty_and_duplicate_names() {
    let mut s = unlocked_state(0);
    let mut log = vec![];
    let id = add(&mut s, "db", "x", &mut log);
    match entries_post(&mut s, &body(None, Some("   "), None), 0, &mut log) {
        Ok(_) => panic!("empty name accepted"),
        Err(e) => assert!(e.code == ErrorCode::BadRequest),
    }
    match entries_post(&mut s, &body(None, None, Some("pw")), 0, &mut log) {
        Ok(_) => panic!("missing name accepted"),
        Err(e) => assert!(e.code == ErrorCode::BadRequest),
    }
    match entries_post(&mut s, &body(None, Some("db"), Some("y")), 0, &mut log) {
        Ok(_) => panic!("duplicate name accepted"),
        Err(e) => {
            assert!(e.code == ErrorCode::NameExists);
            assert!(e.message.contains(&id));
        }
    }
    assert_eq!(s.unlocked.as_ref().unwrap().data.entries.len(), 1);
}

#[test]
fn rotate_keeps_key_id() {
    let mut s = unlocked_state(0);
    let mut log = vec![];
    let id = add(&mut s, "db", "old", &mut log);
    match entries_post(&mut s, &body(Some(&id), None, Some("New-Rotated-99!")), 0, &mut log) {
        Ok((kid, ev)) => {
            assert_eq!(kid, id);
            assert_eq!(ev.event, "ROTATE");
            match &ev.fields[1].1 {
                AuditValue::List(f) => assert_eq!(f, &vec!["password".to_owned()]),
                _ => panic!("fields missing"),
            }
        }
        Err(e) => panic!("rotate failed: {:?}", e.code),
    }
    let e = &s.unlocked.as_ref().unwrap().data.entries[0];
    assert_eq!(e.id, id);
    assert_eq!(e.name, text("db"));
    assert_eq!(e.password, text("New-Rotated-99!"));
}

#[test]
fn update_without_password_is_update() {
    let mut s = unlocked_state(0);
    let mut log = vec![];
    let id = add(&mut s, "db", "pw", &mut log);
    let mut b = body(Some(&id), Some("db2"), None);
    b.username = Some(text("order_app"));
    match entries_post(&mut s, &b, 0, &mut log) {
        Ok((_, ev)) => {
            assert_eq!(ev.event, "UPDATE");
            match &ev.fields[1].1 {
                AuditValue::List(f) => assert_eq!(f, &vec!["name".to_owned(), "username".to_owned()]),
                _ => panic!("fields missing"),
            }
        }
        Err(e) => panic!("update failed: {:?}", e.code),
    }
    let e = &s.unlocked.as_ref().unwrap().data.entries[0];
    assert_eq!(e.name, text("db2"));
    assert_eq!(e.username, text("order_app"));
    assert_eq!(e.password, text("pw"));
}

#[test]
fn update_errors() {
    let mut s = unlocked_state(0);
    let mut log = vec![];
    let a = add(&mut s, "a", "1", &mut log);
    add(&mut s, "b", "2", &mut log);
    match entries_post(&mut s, &body(Some(&a), Some("b"), None), 0, &mut log) {
        Ok(_) => panic!("rename clash accepted"),
        Err(e) => assert!(e.code == ErrorCode::NameExists),
    }
    // Renaming an entry to its own name is no clash.
    assert!(entries_post(&mut s, &body(Some(&a), Some("a"), None), 0, &mut log).is_ok());
    match entries_post(&mut s, &body(Some("kx_nope"), None, Some("x")), 0, &mut log) {
        Ok(_) => panic!("unknown id accepted"),
        Err(e) => assert!(e.code == ErrorCode::NotFound),
    }
}

#[test]
fn delete_entry_by_id() {
    let mut s = unlocked_state(0);
    let mut log = vec![];
    let a = add(&mut s, "a", "1", &mut log);
    let b = add(&mut s, "b", "2", &mut log);
    match entries_delete(&mut s, &a, 0, &mut log) {
        Ok(ev) => {
            assert_eq!(ev.event, "DELETE");
            assert_eq!(text_field(&ev, "key"), Some(a.clone()));
        }
        Err(e) => panic!("delete failed: {:?}", e.code),
    }
    let es = &s.unlocked.as_ref().unwrap().data.entries;
    assert_eq!(es.len(), 1);
    assert_eq!(es[0].id, b);
    match entries_delete(&mut s, &a, 0, &mut log) {
        Ok(_) => panic!("deleted twice"),
        Err(e) => assert!(e.code == ErrorCode::NotFound),
    }
}

#[test]
fn resolve_flow() {
    let mut s = unlocked_state(0);
    let mut log = vec![];
    let id = add(&mut s, "db", "Real-Secret-981!", &mut log);
    let mut trust: Vec<TrustEntry> = vec![];
    let want = vec![id.clone()];
    match resolve(&mut s, &trust, "/proj", &want, 0, &mut log) {
        Ok(Resolution::NeedTrust(need)) => assert_eq!(need, want),
        _ => panic!("untrusted project resolved"),
    }
    assert_eq!(log.last().unwrap().event, "DENY");
    assert_eq!(text_field(log.last().unwrap(), "reason").as_deref(), Some("not_trusted"));
    assert!(trust_add(&mut trust, "/proj/", &vec![Some(id.clone())]).is_ok());
    match resolve(&mut s, &trust, "/proj", &want, 0, &mut log) {
        Ok(Resolution::Passwords(pw)) => assert_eq!(pw, vec![(id.clone(), text("Real-Secret-981!"))]),
        _ => panic!("trusted project refused"),
    }
    assert_eq!(log.last().unwrap().event, "RESOLVE");
    // Another project is not trusted.
    assert!(matches!(resolve(&mut s, &trust, "/other", &want, 0, &mut log), Ok(Resolution::NeedTrust(_))));
    match resolve(&mut s, &trust, "/proj", &vec!["kx_nope".to_owned()], 0, &mut log) {
        Ok(_) => panic!("unknown key resolved"),
        Err(e) => {
            assert!(e.code == ErrorCode::NotFound);
            assert!(e.message.contains("kx_nope"));
        }
    }
    assert_eq!(text_field(log.last().unwrap(), "reason").as_deref(), Some("unknown_key"));
    assert_eq!(log.len(), 4);
}

#[test]
fn resolve_when_locked() {
    let mut s = State::new(30, 0);
    let mut log = vec![];
    match resolve(&mut s, &vec![], "/p", &vec!["kx_1".to_owned()], 0, &mut log) {
        Ok(_) => panic!("locked state resolved"),
        Err(e) => assert!(e.code == ErrorCode::Locked),
    }
    assert!(log.is_empty());
}

#[test]
fn peek_flow() {
    let mut s = unlocked_state(0);
    let mut log = vec![];
    let id = add(&mut s, "db", "pw1", &mut log);
    assert_eq!(peek_entry(&mut s, &id, 0, &mut log).ok(), Some(("db".to_owned(), "pw1".to_owned())));
    match peek_entry(&mut s, "kx_nope", 0, &mut log) {
        Ok(_) => panic!("unknown id peeked"),
        Err(e) => assert!(e.code == ErrorCode::NotFound),
    }
    assert_eq!(peek_display_name("", &id), id);
    assert_eq!(peek_display_name("db", &id), "db");
}

#[test]
fn peek_outcomes() {
    let (r, ev) = peek_finish("kx_1", false, PeekOutcome::Test);
    let reply = r.ok().unwrap();
    assert!(reply.ok);
    assert_eq!(reply.method, "test");
    assert_eq!(ev.event, "PEEK");
    assert_eq!(text_field(&ev, "method").as_deref(), Some("test"));
    let (r, ev) = peek_finish("kx_1", false, PeekOutcome::NoGui);
    match r {
        Ok(_) => panic!("no gui accepted"),
        Err(e) => assert!(e.code == ErrorCode::PeekNoGui),
    }
    assert_eq!(text_field(&ev, "method").as_deref(), Some("no_gui"));
    let (r, _) = peek_finish("kx_1", false, PeekOutcome::Cancelled);
    let reply = r.ok().unwrap();
    assert!(!reply.ok);
    assert_eq!(reply.method, "cancelled");
    let (r, ev) = peek_finish("kx_1", true, PeekOutcome::Clipboard);
    assert_eq!(r.ok().unwrap().method, "clipboard");
    assert_eq!(text_field(&ev, "method").as_deref(), Some("tty_confirm"));
    let (r, ev) = peek_finish("kx_1", false, PeekOutcome::Show);
    assert_eq!(r.ok().unwrap().method, "show");
    assert_eq!(text_field(&ev, "method").as_deref(), Some("show"));
    assert_eq!(text_field(&ev, "key").as_deref(), Some("kx_1"));
}

#[test]
fn status_reports() {
    let s = State::new(30, 0);
    let st = status_obj(&s, None);
    assert!(!st.unlocked);
    assert_eq!(st.entries, None);
    assert_eq!(st.mode, None);
    assert_eq!(st.autolock_min, 30);
    let st = status_obj(&s, Some(MODE_KEYCHAIN));
    assert_eq!(st.mode.as_deref(), Some("keychain"));
    let st = status_obj(&s, Some("other"));
    assert_eq!(st.mode, None);
    let mut u = unlocked_state(0);
    let mut log = vec![];
    add(&mut u, "db", "x", &mut log);
    let st = status_obj(&u, Some(MODE_KEYCHAIN));
    assert!(st.unlocked);
    assert_eq!(st.entries, Some(1));
    assert_eq!(st.mode.as_deref(), Some("password"));
}

#[test]
fn routes() {
    assert_eq!(route_of("GET", "/status"), Route::Status);
    assert_eq!(route_of("GET", "/entries"), Route::ListEntries);
    assert_eq!(route_of("GET", "/audit?n=5"), Route::AuditTail);
    assert_eq!(route_of("GET", "/trust"), Route::ListTrust);
    assert_eq!(route_of("POST", "/create"), Route::Create);
    assert_eq!(route_of("POST", "/unlock"), Route::Unlock);
    assert_eq!(route_of("POST", "/lock"), Route::Lock);
    assert_eq!(route_of("POST", "/entries"), Route::SaveEntry);
    assert_eq!(route_of("POST", "/resolve"), Route::Resolve);
    assert_eq!(route_of("POST", "/trust"), Route::Trust);
    assert_eq!(route_of("POST", "/peek?x"), Route::Peek);
    assert_eq!(route_of("DELETE", "/entries"), Route::DeleteEntry);
    assert_eq!(route_of("DELETE", "/trust"), Route::Untrust);
    assert_eq!(route_of("PUT", "/entries"), Route::NoRoute);
    assert_eq!(route_of("GET", "/statusx"), Route::NoRoute);
}

#[test]
fn client_token_check() {
    let token = "0123456789abcdef0123456789abcdef";
    assert!(authorized(token, token));
    assert!(!authorized(token, ""));
    assert!(!authorized("short", "short"));
    assert!(!authorized("", ""));
}

#[test]
fn audit_count_from_url() {
    assert_eq!(audit_count("/audit"), 20);
    assert_eq!(audit_count("/audit?n=5"), 5);
    assert_eq!(audit_count("/audit?n=7&x=1"), 7);
    assert_eq!(audit_count("/audit?n=abc"), 20);
    assert_eq!(audit_count("/audit?n="), 20);
    assert_eq!(audit_count("/audit?n=+3"), 3);
    assert_eq!(audit_count("/audit?x=1&n=9"), 9);
    assert_eq!(audit_tail_start(10, 3), 7);
    assert_eq!(audit_tail_start(2, 20), 0);
}

#[test]
fn new_key_ids_are_fresh() {
    let mut existing: Vec<String> = vec![];
    for _ in 0..50 {
        let k = new_key_id(&existing);
        assert!(k.starts_with("kx_"));
        assert_eq!(k.len(), 11);
        assert!(k[3..].chars().all(|c| c.is_ascii_hexdigit() && !c.is_ascii_uppercase()));
        assert!(!existing.contains(&k));
        existing.push(k);
    }
}

#[test]
fn error_messages() {
    let mut s = State::new(30, 0);
    let mut log = vec![];
    match entries_list(&mut s, 0, &mut log) {
        Ok(_) => panic!("locked state listed"),
        Err(e) => assert_eq!(e.message, "daemon 处于锁定状态，请先 keyx unlock"),
    }
    let mut s = unlocked_state(0);
    let a = add(&mut s, "a", "1", &mut log);
    add(&mut s, "b", "2", &mut log);
    match entries_post(&mut s, &body(None, Some("a"), None), 0, &mut log) {
        Ok(_) => panic!("duplicate name accepted"),
        Err(e) => assert_eq!(
            e.message,
            format!("名称「a」已存在（{}）。要换密码用 keyx rotate {}；要存不同的密码请换个名字。", a, a)
        ),
    }
    match entries_post(&mut s, &body(Some(&a), Some("b"), None), 0, &mut log) {
        Ok(_) => panic!("rename clash accepted"),
        Err(e) => assert_eq!(e.message, "名称「b」已被其他条目使用"),
    }
    match entries_post(&mut s, &body(None, Some(""), None), 0, &mut log) {
        Ok(_) => panic!("empty name accepted"),
        Err(e) => assert_eq!(e.message, "name 必填"),
    }
    match entries_delete(&mut s, "kx_zz", 0, &mut log) {
        Ok(_) => panic!("unknown id deleted"),
        Err(e) => assert_eq!(e.message, "不存在 kx_zz"),
    }
    match resolve(&mut s, &vec![], "/p", &vec!["kx_x".to_owned(), a.clone(), "kx_y".to_owned()], 0, &mut log) {
        Ok(_) => panic!("unknown keys resolved"),
        Err(e) => assert_eq!(e.message, "未知 key-id: kx_x, kx_y"),
    }
}

#[test]
fn trust_is_per_project() {
    let mut s = unlocked_state(0);
    let mut log = vec![];
    let a = add(&mut s, "a", "pa", &mut log);
    let b = add(&mut s, "b", "pb", &mut log);
    let mut trust: Vec<TrustEntry> = vec![];
    assert!(trust_add(&mut trust, "/p", &vec![Some(a.clone())]).is_ok());
    assert!(trust_add(&mut trust, "/q", &vec![Some(b.clone())]).is_ok());
    match resolve(&mut s, &trust, "/p", &vec![a.clone(), b.clone()], 0, &mut log) {
        Ok(Resolution::NeedTrust(need)) => assert_eq!(need, vec![b.clone()]),
        _ => panic!("untrusted key resolved"),
    }
    keyx::trust::trust_remove(&mut trust, "/p");
    match resolve(&mut s, &trust, "/p", &vec![a.clone()], 0, &mut log) {
        Ok(Resolution::NeedTrust(need)) => assert_eq!(need, vec![a.clone()]),
        _ => panic!("revoked key resolved"),
    }
    match resolve(&mut s, &trust, "/q", &vec![b.clone()], 0, &mut log) {
        Ok(Resolution::Passwords(pw)) => assert_eq!(pw, vec![(b.clone(), text("pb"))]),
        _ => panic!("other project lost its trust"),
    }
}

#[test]
fn values_of_other_types_are_stored_as_given() {
    let mut s = unlocked_state(0);
    let mut log = vec![];
    let mut b = body(None, Some("db"), None);
    b.username = Some(Field::Json("42".to_owned()));
    b.password = Some(Field::Json("null".to_owned()));
    let (id, _) = entries_post(&mut s, &b, 0, &mut log).ok().unwrap();
    let e = &s.unlocked.as_ref().unwrap().data.entries[0];
    assert_eq!(e.username, Field::Json("42".to_owned()));
    assert_eq!(e.password, Field::Json("null".to_owned()));
    assert_eq!(e.url, text(""));
    let list = entries_list(&mut s, 0, &mut log).ok().unwrap();
    assert!(!list[0].has_password);
    // A null field is still a field the request changes.
    let mut b = body(Some(&id), None, None);
    b.notes = Some(Field::Json("null".to_owned()));
    b.password = Some(Field::Json("7".to_owned()));
    match entries_post(&mut s, &b, 0, &mut log) {
        Ok((_, ev)) => {
            assert_eq!(ev.event, "ROTATE");
            match &ev.fields[1].1 {
                AuditValue::List(f) => assert_eq!(f, &vec!["notes".to_owned(), "password".to_owned()]),
                _ => panic!("fields missing"),
            }
        }
        Err(e) => panic!("update failed: {:?}", e.code),
    }
    let e = &s.unlocked.as_ref().unwrap().data.entries[0];
    assert_eq!(e.notes, Field::Json("null".to_owned()));
    assert_eq!(e.password, Field::Json("7".to_owned()));
    let trust = vec![TrustEntry { project: "/p".to_owned(), keys: vec![id.clone()], added_at: String::new() }];
    match resolve(&mut s, &trust, "/p", &vec![id.clone()], 0, &mut log) {
        Ok(Resolution::Passwords(pw)) => assert_eq!(pw, vec![(id.clone(), Field::Json("7".to_owned()))]),
        _ => panic!("trusted key refused"),
    }
    // A name that is not a string adds nothing and clashes with nothing.
    let mut b = body(None, None, None);
    b.name = Some(Field::Json("5".to_owned()));
    match entries_post(&mut s, &b, 0, &mut log) {
        Ok(_) => panic!("non-string name accepted"),
        Err(e) => assert!(e.code == ErrorCode::BadRequest),
    }
    let b2 = EntryBody { name: Some(Field::Json("5".to_owned())), ..body(Some(&id), None, None) };
    assert!(entries_post(&mut s, &b2, 0, &mut log).is_ok());
    assert_eq!(peek_entry(&mut s, &id, 0, &mut log).ok(), Some(("".to_owned(), "".to_owned())));
}

#[test]
fn audit_event_fields() {
    let mut s = unlocked_state(0);
    let mut log = vec![];
    let id = add(&mut s, "db", "pw", &mut log);
    assert!(resolve(&mut s, &vec![], "/p", &vec![id.clone()], 0, &mut log).is_ok());
    let ev = log.last().unwrap();
    assert_eq!(ev.event, "DENY");
    assert_eq!(text_field(ev, "reason").as_deref(), Some("not_trusted"));
    assert_eq!(text_field(ev, "project").as_deref(), Some("/p"));
    assert!(matches!(&ev.fields[2].1, AuditValue::List(k) if k == &vec![id.clone()]));
    let trust = vec![TrustEntry { project: "/p".to_owned(), keys: vec![id.clone()], added_at: String::new() }];
    assert!(resolve(&mut s, &trust, "/p", &vec![id.clone()], 0, &mut log).is_ok());
    let ev = log.last().unwrap();
    assert_eq!(ev.event, "RESOLVE");
    assert_eq!(ev.fields.len(), 2);
    assert_eq!(text_field(ev, "project").as_deref(), Some("/p"));
}

#[test]
fn entries_keep_what_the_library_does_not_read() {
    let mut s = unlocked_state(0);
    let mut log = vec![];
    let id = add(&mut s, "db", "pw", &mut log);
    {
        let u = s.unlocked.as_mut().unwrap();
        let e = &mut u.data.entries[0];
        e.extra = "{\"tag\":1}".to_owned();
        e.password = Field::Absent;
        e.created_at = Field::Absent;
    }
    assert!(entries_post(&mut s, &body(Some(&id), None, None), 0, &mut log).is_ok());
    let e = &s.unlocked.as_ref().unwrap().data.entries[0];
    assert_eq!(e.extra, "{\"tag\":1}");
    assert_eq!(e.created_at, Field::Absent);
    // An entry without a password resolves to the empty one.
    let trust = vec![TrustEntry { project: "/p".to_owned(), keys: vec![id.clone()], added_at: String::new() }];
    match resolve(&mut s, &trust, "/p", &vec![id.clone()], 0, &mut log) {
        Ok(Resolution::Passwords(pw)) => assert_eq!(pw, vec![(id.clone(), text(""))]),
        _ => panic!("trusted key refused"),
    }
}

#[test]
fn create_and_unlock_outcomes() {
    assert!(keyx::daemon::create_allowed(false).is_ok());
    match keyx::daemon::create_allowed(true) {
        Ok(_) => panic!("existing vault recreated"),
        Err(e) => {
            assert!(e.code == ErrorCode::Exists);
            assert_eq!(e.message, "密码库已存在");
        }
    }
    let mut s = State::new(30, 0);
    let failed = Err(keyx::error::VaultError::new(ErrorCode::WrongPassword, "x".to_owned()));
    assert!(s.hold(failed, 5).is_err());
    assert!(s.unlocked.is_none());
    assert_eq!(s.last_used, 0);
    let u = Unlocked { key: vec![0u8; 32], data: new_vault_data("t".to_owned(), 1), kdf: MODE_PASSWORD.to_owned() };
    assert!(s.hold(Ok(u), 7).is_ok());
    assert!(s.unlocked.is_some());
    assert_eq!(s.last_used, 7);
}
