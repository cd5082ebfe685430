//! The daemon's state and the decisions of its routes: the in-memory unlocked
//! vault with its idle lock, and what each request does to it. Reading and
//! writing files, and HTTP itself, are the caller's.
use vstd::prelude::*;
use vstd::string::StringSliceAdditionalSpecFns;
use crate::audit::{event, list_field, number_field, text_field, AuditEvent, AuditValue};
use crate::config::{MODE_KEYCHAIN, MODE_PASSWORD};
use crate::entries::{add_outcome, unit_result, update_outcome, add_entry, delete_entry, find_entry, has_id, is_first_id, summaries, update_entry, EntryBody, EntrySummary, VaultData};
use crate::error::{ErrorCode, VaultError};
use crate::order::texts;
use crate::text::{find_char, index_of_char, opt_str, or_empty, str_eq};
use crate::trust::{trust_allowed, trusts, TrustEntry};

verus! {

/// The unlocked vault that the daemon holds in memory.
pub struct Unlocked {
    pub key: Vec<u8>,
    pub data: VaultData,
    pub kdf: String,
}

/// The message of an operation refused because the vault is locked.
pub open spec fn locked_message() -> Seq<char> {
    "daemon 处于锁定状态，请先 keyx unlock"@
}

/// The daemon's state: the unlocked vault, if any, the time of its last use
/// (milliseconds on a monotonic clock) and the idle minutes after which it is
/// forgotten (0: never).
pub struct State {
    pub unlocked: Option<Unlocked>,
    pub last_used: u64,
    pub lock_minutes: u64,
}

impl State {
    /// A locked daemon.
    pub fn new(lock_minutes: u64, now: u64) -> (s: State)
        ensures
            s.unlocked is None,
            s.last_used == now,
            s.lock_minutes == lock_minutes,
    {
        State { unlocked: None, last_used: now, lock_minutes }
    }

    /// Whether the vault has been idle for longer than the lock minutes at `now`.
    pub open spec fn idle_expired(self, now: u64) -> bool {
        &&& self.lock_minutes > 0
        &&& now - self.last_used > self.lock_minutes * 60000
    }

    /// Records a use of the vault at `now`.
    pub fn touch(&mut self, now: u64)
        ensures
            final(self).last_used == now,
            final(self).unlocked == old(self).unlocked,
            final(self).lock_minutes == old(self).lock_minutes,
    {
        self.last_used = now;
    }

    /// The admission of every operation on the unlocked vault: forgets the key when
    /// the vault has been idle too long (recording an autolock), then admits the
    /// operation when the vault is unlocked, as a use at `now`; `LOCKED` otherwise.
    pub fn with(&mut self, now: u64, log: &mut Vec<AuditEvent>) -> (r: Result<(), VaultError>)
        ensures
            final(self).lock_minutes == old(self).lock_minutes,
            old(self).unlocked is Some && old(self).idle_expired(now) ==> {
                &&& final(self).unlocked is None
                &&& final(self).last_used == old(self).last_used
                &&& final(log)@.len() == old(log)@.len() + 1
                &&& final(log)@.take(old(log)@.len() as int) == old(log)@
                &&& final(log)@.last().event@ == "LOCK"@
                &&& final(log)@.last().fields@.len() == 2
                &&& text_field(final(log)@.last(), 0, "reason"@, "autolock"@)
                &&& number_field(final(log)@.last(), 1, "idle_min"@, old(self).lock_minutes)
                &&& r matches Err(e) && e.code == ErrorCode::Locked && e.message@ == locked_message()
            },
            !(old(self).unlocked is Some && old(self).idle_expired(now)) ==> {
                &&& final(log)@ == old(log)@
                &&& final(self).unlocked == old(self).unlocked
                &&& if old(self).unlocked is Some {
                    r is Ok && final(self).last_used == now
                } else {
                    (r matches Err(e) && e.code == ErrorCode::Locked && e.message@ == locked_message())
                        && final(self).last_used == old(self).last_used
                }
            },
    {
        if self.unlocked.is_some() && self.lock_minutes > 0 {
            let elapsed: u64 = if now > self.last_used { now - self.last_used } else { 0 };
            if (elapsed as u128) > (self.lock_minutes as u128) * 60000 {
                self.unlocked = None;
                let mut e = event("LOCK");
                e.text("reason", "autolock".to_owned());
                e.number("idle_min", self.lock_minutes);
                log.push(e);
                return Err(VaultError::new(ErrorCode::Locked, "daemon 处于锁定状态，请先 keyx unlock".to_owned()));
            }
        }
        if self.unlocked.is_none() {
            return Err(VaultError::new(ErrorCode::Locked, "daemon 处于锁定状态，请先 keyx unlock".to_owned()));
        }
        self.touch(now);
        Ok(())
    }

    /// Forgets the key; records the lock, with its reason, when the vault was
    /// unlocked. Tells whether it was.
    pub fn lock_manual(&mut self, reason: &str, log: &mut Vec<AuditEvent>) -> (had: bool)
        ensures
            had == old(self).unlocked is Some,
            final(self).unlocked is None,
            final(self).last_used == old(self).last_used,
            final(self).lock_minutes == old(self).lock_minutes,
            had ==> final(log)@.len() == old(log)@.len() + 1 && final(log)@.take(old(log)@.len() as int) == old(log)@
                && final(log)@.last().event@ == "LOCK"@ && final(log)@.last().fields@.len() == 1
                && text_field(final(log)@.last(), 0, "reason"@, reason@),
            !had ==> final(log)@ == old(log)@,
    {
        let had = self.unlocked.is_some();
        self.unlocked = None;
        if had {
            let mut e = event("LOCK");
            e.text("reason", reason.to_owned());
            log.push(e);
        }
        had
    }

    /// The end of a create or unlock request: the vault it opened is held, as
    /// used at `now`; a failure leaves the state as it was and is answered.
    pub fn hold(&mut self, outcome: Result<Unlocked, VaultError>, now: u64) -> (r: Result<(), VaultError>)
        ensures
            match outcome {
                Ok(u) => r is Ok && final(self).unlocked == Some(u) && final(self).last_used == now,
                Err(e) => r == Err::<(), VaultError>(e) && final(self).unlocked == old(self).unlocked
                    && final(self).last_used == old(self).last_used,
            },
            final(self).lock_minutes == old(self).lock_minutes,
    {
        match outcome {
            Ok(u) => {
                self.set_unlocked(u, now);
                Ok(())
            },
            Err(e) => Err(e),
        }
    }

    /// Holds a newly created or unlocked vault, as used at `now`.
    pub fn set_unlocked(&mut self, u: Unlocked, now: u64)
        ensures
            final(self).unlocked == Some(u),
            final(self).last_used == now,
            final(self).lock_minutes == old(self).lock_minutes,
    {
        self.unlocked = Some(u);
        self.last_used = now;
    }
}

/// A request to create a vault where one exists is refused with `EXISTS`.
pub fn create_allowed(vault_exists: bool) -> (r: Result<(), VaultError>)
    ensures
        r is Err <==> vault_exists,
        r matches Err(e) ==> e.code == ErrorCode::Exists && e.message@ == "密码库已存在"@,
{
    if vault_exists {
        Err(VaultError::new(ErrorCode::Exists, "密码库已存在".to_owned()))
    } else {
        Ok(())
    }
}

/// Whether an operation at `now` is admitted: the vault is unlocked and not idle too long.
pub open spec fn admitted(s: State, now: u64) -> bool {
    s.unlocked is Some && !s.idle_expired(now)
}

/// The entries of the unlocked vault.
pub open spec fn held_entries(s: State) -> Seq<crate::entries::Entry> {
    s.unlocked->0.data.entries@
}

/// A locked daemon gives nothing of the vault: once the key is forgotten, no
/// operation on the vault is admitted at any time, and the refusal is `LOCKED`,
/// answered with status 423.
pub proof fn lemma_locked_refuses(s: State, now: u64)
    requires
        s.unlocked is None,
    ensures
        !admitted(s, now),
        crate::error::spec_status_for(ErrorCode::Locked) == 423,
{
}

/// What a refused admission leaves: `LOCKED`, and the state as `with` leaves it.
pub open spec fn refused<T>(old: State, new: State, r: Result<T, VaultError>) -> bool {
    &&& r matches Err(e) && e.code == ErrorCode::Locked && e.message@ == locked_message()
    &&& new.lock_minutes == old.lock_minutes
    &&& new.last_used == old.last_used
    &&& (old.unlocked is Some ==> new.unlocked is None)
    &&& (old.unlocked is None ==> new.unlocked is None)
}

/// The entry list (`GET /entries`): every entry without its password.
pub fn entries_list(state: &mut State, now: u64, log: &mut Vec<AuditEvent>) -> (r: Result<Vec<EntrySummary>, VaultError>)
    ensures
        !admitted(*old(state), now) ==> refused(*old(state), *final(state), r),
        admitted(*old(state), now) ==> {
            &&& final(state).unlocked == old(state).unlocked
            &&& final(state).last_used == now
            &&& final(log)@ == old(log)@
            &&& r matches Ok(v) && v@.len() == held_entries(*old(state)).len()
                && forall|i: int| 0 <= i < v@.len() ==> {
                    let s = #[trigger] v@[i];
                    let e = held_entries(*old(state))[i];
                    &&& s.id == e.id
                    &&& s.name == e.name
                    &&& s.username == e.username
                    &&& s.url == e.url
                    &&& s.has_password == crate::entries::has_text(e.password@)
                    &&& s.updated_at == e.updated_at
                }
        },
{
    match state.with(now, log) {
        Err(e) => return Err(e),
        Ok(()) => {},
    }
    match &state.unlocked {
        Some(u) => Ok(summaries(&u.data.entries)),
        None => Err(VaultError::new(ErrorCode::Locked, String::new())),
    }
}

/// Creates an entry, or changes the entry with the request's `id`
/// (`POST /entries`). Gives the key id and the audit event to record once the
/// vault is saved: `ADD`, or `ROTATE` when the password changes, `UPDATE` otherwise.
pub fn entries_post(state: &mut State, body: &EntryBody, now: u64, log: &mut Vec<AuditEvent>) -> (r: Result<
    (String, AuditEvent),
    VaultError,
>)
    requires
        body.id is None && old(state).unlocked is Some ==> old(state).unlocked->0.data.entries@.len() < 0x1_0000_0000,
    ensures
        !admitted(*old(state), now) ==> refused(*old(state), *final(state), r),
        admitted(*old(state), now) ==> {
            let es = held_entries(*old(state));
            let fs = held_entries(*final(state));
            &&& final(state).unlocked is Some
            &&& final(state).unlocked->0.key == old(state).unlocked->0.key
            &&& final(state).unlocked->0.kdf == old(state).unlocked->0.kdf
            &&& final(state).last_used == now
            &&& final(log)@ == old(log)@
            &&& r matches Err(e) ==> e.message@ == match body.id {
                Some(kid) => if e.code == ErrorCode::NameExists {
                    "名称「"@ + crate::entries::body_text(body.name)->0 + "」已被其他条目使用"@
                } else {
                    "不存在 "@ + kid@
                },
                None => crate::entries::name_in_use_message(es, crate::entries::new_entry_name(*body)),
            }
            &&& match body.id {
                Some(kid) => {
                    &&& update_outcome(es, fs, kid@, *body, unit_result(r))
                    &&& r matches Ok((id, ev)) ==> id@ == kid@ && ev.event@ == (if body.password is Some { "ROTATE"@ } else { "UPDATE"@ })
                        && ev.fields@.len() == 2 && text_field(ev, 0, "key"@, kid@)
                        && list_field(ev, 1, "fields"@, crate::entries::changed_fields(*body))
                },
                None => {
                    &&& add_outcome(es, fs, *body, match r { Ok((id, _)) => Ok(id@), Err(e) => Err(e.code) })
                    &&& r matches Ok((id, ev)) ==> ev.event@ == "ADD"@ && ev.fields@.len() == 2
                        && text_field(ev, 0, "key"@, id@)
                        && text_field(ev, 1, "name"@, crate::entries::new_entry_name(*body))
                },
            }
        },
{
    match state.with(now, log) {
        Err(e) => return Err(e),
        Ok(()) => {},
    }
    let mut u = match state.unlocked.take() {
        Some(u) => u,
        None => return Err(VaultError::new(ErrorCode::Locked, String::new())),
    };
    let r = match &body.id {
        Some(kid) => match update_entry(&mut u.data.entries, kid.as_str(), body) {
            Ok(changed) => {
                let name = if body.password.is_some() { "ROTATE" } else { "UPDATE" };
                let mut ev = event(name);
                ev.text("key", kid.clone());
                ev.list("fields", changed);
                Ok((kid.clone(), ev))
            },
            Err(e) => Err(e),
        },
        None => match add_entry(&mut u.data.entries, body) {
            Ok(kid) => {
                let mut ev = event("ADD");
                ev.text("key", kid.clone());
                ev.text("name", crate::entries::field_text(&u.data.entries[u.data.entries.len() - 1].name));
                Ok((kid, ev))
            },
            Err(e) => Err(e),
        },
    };
    state.unlocked = Some(u);
    r
}

/// Removes the entries with the given key id (`DELETE /entries`); gives the
/// `DELETE` event to record once the vault is saved.
pub fn entries_delete(state: &mut State, kid: &str, now: u64, log: &mut Vec<AuditEvent>) -> (r: Result<AuditEvent, VaultError>)
    ensures
        !admitted(*old(state), now) ==> refused(*old(state), *final(state), r),
        admitted(*old(state), now) ==> {
            let es = held_entries(*old(state));
            &&& final(state).unlocked is Some
            &&& final(state).unlocked->0.key == old(state).unlocked->0.key
            &&& final(state).last_used == now
            &&& final(log)@ == old(log)@
            &&& held_entries(*final(state)) == crate::entries::without_id(es, kid@)
            &&& (r is Ok <==> has_id(es, kid@))
            &&& r matches Err(e) ==> e.code == ErrorCode::NotFound && e.message@ == "不存在 "@ + kid@
            &&& r matches Ok(ev) ==> crate::audit::is_event_for(ev, "DELETE"@, kid@) && ev.fields@.len() == 1
        },
{
    match state.with(now, log) {
        Err(e) => return Err(e),
        Ok(()) => {},
    }
    let mut u = match state.unlocked.take() {
        Some(u) => u,
        None => return Err(VaultError::new(ErrorCode::Locked, String::new())),
    };
    let r = delete_entry(&mut u.data.entries, kid);
    state.unlocked = Some(u);
    match r {
        Ok(()) => {
            let mut ev = event("DELETE");
            ev.text("key", kid.to_owned());
            Ok(ev)
        },
        Err(e) => Err(e),
    }
}

/// The answer to a resolution request that names only known key ids.
pub enum Resolution {
    /// The project is not trusted with these key ids yet.
    NeedTrust(Vec<String>),
    /// The passwords of the key ids, in the order asked for, as the vault holds them.
    Passwords(Vec<(String, crate::entries::Field)>),
}

/// The requested key ids that no entry has.
pub open spec fn missing_ids(es: Seq<crate::entries::Entry>, want: Seq<Seq<char>>) -> Seq<Seq<char>> {
    want.filter(|k: Seq<char>| !has_id(es, k))
}

/// The requested key ids that the project is not trusted with.
pub open spec fn untrusted_ids(trust: Seq<TrustEntry>, project: Seq<char>, want: Seq<Seq<char>>) -> Seq<Seq<char>> {
    want.filter(|k: Seq<char>| !trusts(trust, project, k))
}

/// A password as resolution answers it: as stored, or the empty string when
/// the entry has none.
pub open spec fn answered(f: crate::entries::FieldView) -> crate::entries::FieldView {
    match f {
        crate::entries::FieldView::Absent => crate::entries::FieldView::Text(Seq::empty()),
        _ => f,
    }
}

/// Whether `pw` is the password of the first entry with key id `k`.
pub open spec fn password_of(es: Seq<crate::entries::Entry>, k: Seq<char>, pw: crate::entries::FieldView) -> bool {
    exists|i: int| is_first_id(es, k, i) && answered(es[i].password@) == pw
}

/// What is stored is what a trusted run gets: right after an entry is added,
/// resolving its key id for a project trusted with it finds no unknown or
/// untrusted key, and answers the password the entry was added with.
pub proof fn lemma_stored_secret_resolves(
    old: Seq<crate::entries::Entry>,
    new: Seq<crate::entries::Entry>,
    body: EntryBody,
    kid: Seq<char>,
    trust: Seq<TrustEntry>,
    project: Seq<char>,
)
    requires
        add_outcome(old, new, body, Ok(kid)),
        trusts(trust, project, kid),
    ensures
        missing_ids(new, seq![kid]).len() == 0,
        untrusted_ids(trust, project, seq![kid]).len() == 0,
        password_of(new, kid, answered(crate::entries::given(body.password))),
{
    crate::entries::lemma_added_entry_resolves(old, new, body, kid);
    let k = old.len() as int;
    assert(new[k].id@ == kid);
    assert(has_id(new, kid));
    reveal_with_fuel(Seq::filter, 2);
    assert(missing_ids(new, seq![kid]) =~= Seq::<Seq<char>>::empty());
    assert(untrusted_ids(trust, project, seq![kid]) =~= Seq::<Seq<char>>::empty());
}

/// Rotation changes what a trusted run gets, and nothing else: after the
/// password of `kid` is changed, resolving `kid` for a project trusted with it
/// answers the new password.
pub proof fn lemma_rotated_secret_resolves(
    old: Seq<crate::entries::Entry>,
    new: Seq<crate::entries::Entry>,
    kid: Seq<char>,
    body: EntryBody,
    trust: Seq<TrustEntry>,
    project: Seq<char>,
)
    requires
        update_outcome(old, new, kid, body, Ok(())),
        body.password is Some,
        trusts(trust, project, kid),
    ensures
        missing_ids(new, seq![kid]).len() == 0,
        untrusted_ids(trust, project, seq![kid]).len() == 0,
        password_of(new, kid, answered(body.password->0@)),
{
    crate::entries::lemma_rotation_keeps_key_id(old, new, kid, body);
    let k = choose|k: int| is_first_id(old, kid, k) && is_first_id(new, kid, k) && new[k].password@ == body.password->0@
        && (forall|j: int| 0 <= j < old.len() && j != k ==> #[trigger] new[j] == old[j]);
    assert(new[k].id@ == kid);
    assert(has_id(new, kid));
    reveal_with_fuel(Seq::filter, 2);
    assert(missing_ids(new, seq![kid]) =~= Seq::<Seq<char>>::empty());
    assert(untrusted_ids(trust, project, seq![kid]) =~= Seq::<Seq<char>>::empty());
}

fn filter_missing(es: &Vec<crate::entries::Entry>, want: &Vec<String>) -> (r: Vec<String>)
    ensures
        texts(r@) == missing_ids(es@, texts(want@)),
{
    let ghost pred = |k: Seq<char>| !has_id(es@, k);
    let mut r: Vec<String> = Vec::new();
    let mut i: usize = 0;
    while i < want.len()
        invariant
            i <= want@.len(),
            pred == (|k: Seq<char>| !has_id(es@, k)),
            texts(r@) == texts(want@).take(i as int).filter(pred),
        decreases want.len() - i,
    {
        proof {
            reveal_with_fuel(Seq::<_>::filter, 1);
            assert(texts(want@).take(i + 1).drop_last() =~= texts(want@).take(i as int));
        }
        if find_entry(es, want[i].as_str()).is_none() {
            r.push(want[i].clone());
            assert(texts(r@) =~= texts(want@).take(i as int).filter(pred).push(want@[i as int]@));
        }
        i += 1;
    }
    assert(texts(want@).take(want@.len() as int) =~= texts(want@));
    r
}

fn filter_untrusted(trust: &Vec<TrustEntry>, project: &str, want: &Vec<String>) -> (r: Vec<String>)
    ensures
        texts(r@) == untrusted_ids(trust@, project@, texts(want@)),
{
    let ghost pred = |k: Seq<char>| !trusts(trust@, project@, k);
    let mut r: Vec<String> = Vec::new();
    let mut i: usize = 0;
    while i < want.len()
        invariant
            i <= want@.len(),
            pred == (|k: Seq<char>| !trusts(trust@, project@, k)),
            texts(r@) == texts(want@).take(i as int).filter(pred),
        decreases want.len() - i,
    {
        proof {
            reveal_with_fuel(Seq::<_>::filter, 1);
            assert(texts(want@).take(i + 1).drop_last() =~= texts(want@).take(i as int));
        }
        if !trust_allowed(trust, project, want[i].as_str()) {
            r.push(want[i].clone());
            assert(texts(r@) =~= texts(want@).take(i as int).filter(pred).push(want@[i as int]@));
        }
        i += 1;
    }
    assert(texts(want@).take(want@.len() as int) =~= texts(want@));
    r
}

fn clone_strings(v: &Vec<String>) -> (r: Vec<String>)
    ensures
        r@ == v@,
{
    let mut r: Vec<String> = Vec::new();
    let mut i: usize = 0;
    while i < v.len()
        invariant
            i <= v@.len(),
            r@ == v@.take(i as int),
        decreases v.len() - i,
    {
        r.push(v[i].clone());
        assert(v@.take(i + 1) =~= v@.take(i as int).push(v@[i as int]));
        i += 1;
    }
    assert(v@.take(v@.len() as int) =~= v@);
    r
}

/// Resolves key ids for a project (`POST /resolve`): an unknown key id is
/// `NOT_FOUND`; key ids that the project is not trusted with are listed for
/// the client to ask about; otherwise the passwords. Each outcome is recorded:
/// `DENY` (unknown key, or not trusted) or `RESOLVE`.
pub fn resolve(
    state: &mut State,
    trust: &Vec<TrustEntry>,
    project: &str,
    want: &Vec<String>,
    now: u64,
    log: &mut Vec<AuditEvent>,
) -> (r: Result<Resolution, VaultError>)
    ensures
        !admitted(*old(state), now) ==> refused(*old(state), *final(state), r),
        admitted(*old(state), now) ==> {
            let es = held_entries(*old(state));
            let w = texts(want@);
            &&& final(state).unlocked == old(state).unlocked
            &&& final(state).last_used == now
            &&& final(log)@.len() == old(log)@.len() + 1
            &&& final(log)@.take(old(log)@.len() as int) == old(log)@
            &&& if missing_ids(es, w).len() > 0 {
                &&& r matches Err(e) && e.code == ErrorCode::NotFound
                    && e.message@ == "未知 key-id: "@ + crate::text::join_texts(missing_ids(es, w), ", "@)
                &&& final(log)@.last().event@ == "DENY"@
                &&& final(log)@.last().fields@.len() == 3
                &&& text_field(final(log)@.last(), 0, "reason"@, "unknown_key"@)
                &&& text_field(final(log)@.last(), 1, "project"@, project@)
                &&& list_field(final(log)@.last(), 2, "keys"@, missing_ids(es, w))
            } else if untrusted_ids(trust@, project@, w).len() > 0 {
                &&& r matches Ok(Resolution::NeedTrust(need)) && texts(need@) == untrusted_ids(trust@, project@, w)
                &&& final(log)@.last().event@ == "DENY"@
                &&& final(log)@.last().fields@.len() == 3
                &&& text_field(final(log)@.last(), 0, "reason"@, "not_trusted"@)
                &&& text_field(final(log)@.last(), 1, "project"@, project@)
                &&& list_field(final(log)@.last(), 2, "keys"@, untrusted_ids(trust@, project@, w))
            } else {
                &&& r matches Ok(Resolution::Passwords(pw)) && pw@.len() == w.len()
                    && forall|i: int| 0 <= i < w.len() ==> (#[trigger] pw@[i]).0@ == w[i] && password_of(es, w[i], pw@[i].1@)
                &&& final(log)@.last().event@ == "RESOLVE"@
                &&& final(log)@.last().fields@.len() == 2
                &&& text_field(final(log)@.last(), 0, "project"@, project@)
                &&& list_field(final(log)@.last(), 1, "keys"@, w)
            }
        },
{
    match state.with(now, log) {
        Err(e) => return Err(e),
        Ok(()) => {},
    }
    let u = match &state.unlocked {
        Some(u) => u,
        None => return Err(VaultError::new(ErrorCode::Locked, String::new())),
    };
    let es = &u.data.entries;
    let missing = filter_missing(es, want);
    if missing.len() > 0 {
        let joined = crate::text::join(&missing, ", ");
        let mut ev = event("DENY");
        ev.text("reason", "unknown_key".to_owned());
        ev.text("project", project.to_owned());
        ev.list("keys", missing);
        log.push(ev);
        proof {
            reveal_strlit("");
        }
        return Err(VaultError::new(ErrorCode::NotFound, crate::text::concat3("未知 key-id: ", joined.as_str(), "")));
    }
    let need = filter_untrusted(trust, project, want);
    if need.len() > 0 {
        let mut ev = event("DENY");
        ev.text("reason", "not_trusted".to_owned());
        ev.text("project", project.to_owned());
        ev.list("keys", clone_strings(&need));
        log.push(ev);
        return Ok(Resolution::NeedTrust(need));
    }
    let mut out: Vec<(String, crate::entries::Field)> = Vec::new();
    let mut i: usize = 0;
    while i < want.len()
        invariant
            i <= want@.len(),
            out@.len() == i,
            missing_ids(es@, texts(want@)).len() == 0,
            forall|j: int| 0 <= j < i ==> (#[trigger] out@[j]).0@ == want@[j]@ && password_of(es@, want@[j]@, out@[j].1@),
        decreases want.len() - i,
    {
        proof {
            if !has_id(es@, want@[i as int]@) {
                let w = texts(want@);
                assert(w[i as int] == want@[i as int]@);
                w.lemma_filter_contains(|k: Seq<char>| !has_id(es@, k), i as int);
                assert(missing_ids(es@, w).contains(w[i as int]));
            }
        }
        let k = find_entry(es, want[i].as_str()).unwrap();
        let pw = match &es[k].password {
            crate::entries::Field::Absent => crate::entries::Field::Text(String::new()),
            f => crate::entries::clone_field(f),
        };
        out.push((want[i].clone(), pw));
        i += 1;
    }
    let mut ev = event("RESOLVE");
    ev.text("project", project.to_owned());
    ev.list("keys", clone_strings(want));
    log.push(ev);
    Ok(Resolution::Passwords(out))
}

/// The name and password of the first entry with the given key id, for a
/// confirmed look (`POST /peek`); `NOT_FOUND` for an unknown key id.
pub fn peek_entry(state: &mut State, kid: &str, now: u64, log: &mut Vec<AuditEvent>) -> (r: Result<(String, String), VaultError>)
    ensures
        !admitted(*old(state), now) ==> refused(*old(state), *final(state), r),
        admitted(*old(state), now) ==> {
            let es = held_entries(*old(state));
            &&& final(state).unlocked == old(state).unlocked
            &&& final(state).last_used == now
            &&& final(log)@ == old(log)@
            &&& (r is Ok <==> has_id(es, kid@))
            &&& r matches Err(e) ==> e.code == ErrorCode::NotFound && e.message@ == "不存在 "@ + kid@
            &&& r matches Ok((name, pw)) ==> exists|k: int| is_first_id(es, kid@, k) && crate::entries::text_of(es[k].name@) == name@
                && crate::entries::text_of(es[k].password@) == pw@
        },
{
    match state.with(now, log) {
        Err(e) => return Err(e),
        Ok(()) => {},
    }
    let u = match &state.unlocked {
        Some(u) => u,
        None => return Err(VaultError::new(ErrorCode::Locked, String::new())),
    };
    match find_entry(&u.data.entries, kid) {
        Some(k) => {
            let r = (crate::entries::field_text(&u.data.entries[k].name), crate::entries::field_text(&u.data.entries[k].password));
            proof {
                let es = held_entries(*old(state));
                assert(es == u.data.entries@);
                assert(is_first_id(es, kid@, k as int) && crate::entries::text_of(es[k as int].name@) == r.0@
                    && crate::entries::text_of(es[k as int].password@) == r.1@);
            }
            Ok(r)
        },
        None => {
            proof {
                reveal_strlit("");
            }
            Err(VaultError::new(ErrorCode::NotFound, crate::text::concat3("不存在 ", kid, "")))
        },
    }
}

/// The name under which a confirmation shows an entry: its name, or its key
/// id when it has none.
pub fn peek_display_name(name: &str, kid: &str) -> (r: String)
    ensures
        r@ == (if name@.len() == 0 { kid@ } else { name@ }),
{
    if name.is_empty() {
        kid.to_owned()
    } else {
        name.to_owned()
    }
}

/// How a confirmed look ended.
#[derive(Debug, Clone, Copy, PartialEq, Eq, Structural)]
pub enum PeekOutcome {
    /// Test mode: no confirmation shown.
    Test,
    /// No desktop or dialog program to ask with.
    NoGui,
    /// The person declined.
    Cancelled,
    /// The password went to the clipboard.
    Clipboard,
    /// The password was shown in the dialog.
    Show,
}

/// The method name of a look's outcome, as answered and recorded.
pub open spec fn outcome_name(o: PeekOutcome) -> Seq<char> {
    match o {
        PeekOutcome::Test => "test"@,
        PeekOutcome::NoGui => "no_gui"@,
        PeekOutcome::Cancelled => "cancelled"@,
        PeekOutcome::Clipboard => "clipboard"@,
        PeekOutcome::Show => "show"@,
    }
}

/// The answer to a look: whether the value went to the person, and how.
pub struct PeekReply {
    pub ok: bool,
    pub method: String,
}

/// The answer and the `PEEK` record of a look at `kid`, given how it ended.
/// Without a desktop it is refused with `PEEK_NO_GUI`. A copy confirmed at a
/// terminal (`confirmed`) is recorded as `tty_confirm`.
pub fn peek_finish(kid: &str, confirmed: bool, outcome: PeekOutcome) -> (r: (Result<PeekReply, VaultError>, AuditEvent))
    ensures
        r.1.event@ == "PEEK"@,
        r.1.fields@.len() == 2,
        r.1.fields@[0].0@ == "key"@,
        r.1.fields@[0].1 matches AuditValue::Text(k) && k@ == kid@,
        r.1.fields@[1].0@ == "method"@,
        r.1.fields@[1].1 matches AuditValue::Text(m) && m@ == (if confirmed && (outcome == PeekOutcome::Clipboard
            || outcome == PeekOutcome::Show) { "tty_confirm"@ } else { outcome_name(outcome) }),
        outcome == PeekOutcome::NoGui ==> (r.0 matches Err(e) && e.code == ErrorCode::PeekNoGui
            && e.message@ == "此操作需要人工确认：无桌面环境（SSH/无头服务器）或缺少弹窗组件（Linux 需 zenity/kdialog）。请在人工终端重跑 keyx peek，按提示回车确认（仅复制模式）"@),
        outcome != PeekOutcome::NoGui ==> (r.0 matches Ok(reply) && reply.ok == (outcome != PeekOutcome::Cancelled)
            && reply.method@ == outcome_name(outcome)),
{
    let name: &str = match outcome {
        PeekOutcome::Test => "test",
        PeekOutcome::NoGui => "no_gui",
        PeekOutcome::Cancelled => "cancelled",
        PeekOutcome::Clipboard => "clipboard",
        PeekOutcome::Show => "show",
    };
    let recorded: &str = match outcome {
        PeekOutcome::Clipboard | PeekOutcome::Show => if confirmed { "tty_confirm" } else { name },
        _ => name,
    };
    let mut ev = event("PEEK");
    ev.text("key", kid.to_owned());
    ev.text("method", recorded.to_owned());
    let reply = match outcome {
        PeekOutcome::NoGui => Err(
            VaultError::new(
                ErrorCode::PeekNoGui,
                "此操作需要人工确认：无桌面环境（SSH/无头服务器）或缺少弹窗组件（Linux 需 zenity/kdialog）。请在人工终端重跑 keyx peek，按提示回车确认（仅复制模式）".to_owned(),
            ),
        ),
        PeekOutcome::Cancelled => Ok(PeekReply { ok: false, method: name.to_owned() }),
        _ => Ok(PeekReply { ok: true, method: name.to_owned() }),
    };
    (reply, ev)
}

/// What `GET /status` reports.
pub struct StatusInfo {
    pub unlocked: bool,
    pub entries: Option<usize>,
    pub mode: Option<String>,
    pub autolock_min: u64,
}

/// The short name of a KDF mode: `keychain` or `password`; none for another.
pub open spec fn mode_short(kdf: Option<Seq<char>>) -> Option<Seq<char>> {
    match kdf {
        Some(k) => if k == MODE_KEYCHAIN@ {
            Some("keychain"@)
        } else if k == MODE_PASSWORD@ {
            Some("password"@)
        } else {
            None
        },
        None => None,
    }
}

/// The daemon's status: whether it holds the key, how many entries, the vault's
/// mode (from the vault held, else from the vault file's `kdf`), and the idle
/// lock. It does not count as a use of the vault.
pub fn status_obj(state: &State, store_kdf: Option<&str>) -> (r: StatusInfo)
    ensures
        r.unlocked == state.unlocked is Some,
        r.entries == (match state.unlocked {
            Some(u) => Some(u.data.entries@.len() as usize),
            None => None::<usize>,
        }),
        opt_str(r.mode) == mode_short(match state.unlocked {
            Some(u) => Some(u.kdf@),
            None => crate::text::opt_str_ref(store_kdf),
        }),
        r.autolock_min == state.lock_minutes,
{
    let kdf: Option<&str> = match &state.unlocked {
        Some(u) => Some(u.kdf.as_str()),
        None => store_kdf,
    };
    let mode: Option<String> = match kdf {
        Some(k) => if str_eq(k, MODE_KEYCHAIN) {
            Some("keychain".to_owned())
        } else if str_eq(k, MODE_PASSWORD) {
            Some("password".to_owned())
        } else {
            None
        },
        None => None,
    };
    StatusInfo {
        unlocked: state.unlocked.is_some(),
        entries: match &state.unlocked {
            Some(u) => Some(u.data.entries.len()),
            None => None,
        },
        mode,
        autolock_min: state.lock_minutes,
    }
}

/// The routes of the daemon.
#[derive(Debug, Clone, Copy, PartialEq, Eq, Structural)]
pub enum Route {
    Status,
    ListEntries,
    ListTrust,
    AuditTail,
    Create,
    Unlock,
    Lock,
    SaveEntry,
    Resolve,
    Trust,
    Peek,
    DeleteEntry,
    Untrust,
    NoRoute,
}

/// The path of a request URL: what precedes its first `?`.
pub open spec fn url_path(url: Seq<char>) -> Seq<char> {
    url.take(index_of_char(url, '?', 0))
}

/// The route that a method and path select.
pub open spec fn spec_route(method: Seq<char>, path: Seq<char>) -> Route {
    if method == "GET"@ && path == "/status"@ {
        Route::Status
    } else if method == "GET"@ && path == "/entries"@ {
        Route::ListEntries
    } else if method == "GET"@ && path == "/trust"@ {
        Route::ListTrust
    } else if method == "GET"@ && path == "/audit"@ {
        Route::AuditTail
    } else if method == "POST"@ && path == "/create"@ {
        Route::Create
    } else if method == "POST"@ && path == "/unlock"@ {
        Route::Unlock
    } else if method == "POST"@ && path == "/lock"@ {
        Route::Lock
    } else if method == "POST"@ && path == "/entries"@ {
        Route::SaveEntry
    } else if method == "POST"@ && path == "/resolve"@ {
        Route::Resolve
    } else if method == "POST"@ && path == "/trust"@ {
        Route::Trust
    } else if method == "POST"@ && path == "/peek"@ {
        Route::Peek
    } else if method == "DELETE"@ && path == "/entries"@ {
        Route::DeleteEntry
    } else if method == "DELETE"@ && path == "/trust"@ {
        Route::Untrust
    } else {
        Route::NoRoute
    }
}

/// The route of a request, from its method and URL (`NoRoute` answers `NOT_FOUND`).
pub fn route_of(method: &str, url: &str) -> (r: Route)
    ensures
        r == spec_route(method@, url_path(url@)),
{
    let cs = crate::text::chars_of(url);
    let q = find_char(cs.as_slice(), '?', 0);
    let mut p: Vec<char> = Vec::new();
    let mut i: usize = 0;
    while i < q
        invariant
            q <= cs@.len(),
            i <= q,
            p@ == cs@.take(i as int),
        decreases q - i,
    {
        p.push(cs[i]);
        assert(cs@.take(i + 1) =~= cs@.take(i as int).push(cs@[i as int]));
        i += 1;
    }
    let path = crate::text::string_of(p.as_slice());
    let path = path.as_str();
    let get = str_eq(method, "GET");
    let post = str_eq(method, "POST");
    let delete = str_eq(method, "DELETE");
    if get && str_eq(path, "/status") {
        Route::Status
    } else if get && str_eq(path, "/entries") {
        Route::ListEntries
    } else if get && str_eq(path, "/trust") {
        Route::ListTrust
    } else if get && str_eq(path, "/audit") {
        Route::AuditTail
    } else if post && str_eq(path, "/create") {
        Route::Create
    } else if post && str_eq(path, "/unlock") {
        Route::Unlock
    } else if post && str_eq(path, "/lock") {
        Route::Lock
    } else if post && str_eq(path, "/entries") {
        Route::SaveEntry
    } else if post && str_eq(path, "/resolve") {
        Route::Resolve
    } else if post && str_eq(path, "/trust") {
        Route::Trust
    } else if post && str_eq(path, "/peek") {
        Route::Peek
    } else if delete && str_eq(path, "/entries") {
        Route::DeleteEntry
    } else if delete && str_eq(path, "/trust") {
        Route::Untrust
    } else {
        Route::NoRoute
    }
}

/// Whether a request carries the client token: the daemon's token must be at
/// least 32 bytes long, and the request's equal to it.
pub fn authorized(expect: &str, auth: &str) -> (r: bool)
    ensures
        r == ((expect.spec_bytes().len() as usize) >= 32 && auth@ == expect@),
{
    expect.len() >= 32 && str_eq(auth, expect)
}

/// Where the first `n=` in `s` starts, at or after `from`; -1 when there is none.
pub open spec fn index_of_n_eq(s: Seq<char>, from: int) -> int
    decreases s.len() - from,
{
    if from + 1 >= s.len() {
        -1
    } else if s[from] == 'n' && s[from + 1] == '=' {
        from
    } else {
        index_of_n_eq(s, from + 1)
    }
}

/// The text that follows the first `n=` of a URL, up to the next `n=` or `&`.
pub open spec fn count_param(url: Seq<char>) -> Option<Seq<char>> {
    let p = index_of_n_eq(url, 0);
    if p < 0 {
        None
    } else {
        let q = index_of_n_eq(url, p + 2);
        let seg = url.subrange(p + 2, if q < 0 { url.len() as int } else { q });
        Some(seg.take(index_of_char(seg, '&', 0)))
    }
}

/// How many audit lines `GET /audit` returns: the URL's `n`, or 20.
pub open spec fn spec_audit_count(url: Seq<char>) -> nat {
    match count_param(url) {
        Some(t) => match crate::num::spec_parse_bounded(t, usize::MAX as nat) {
            Some(n) => n,
            None => 20,
        },
        None => 20,
    }
}

fn find_n_eq(s: &[char], from: usize) -> (r: Option<usize>)
    requires
        from <= s@.len(),
    ensures
        match r {
            Some(p) => p as int == index_of_n_eq(s@, from as int) && from <= p && p + 1 < s@.len(),
            None => index_of_n_eq(s@, from as int) == -1,
        },
{
    let mut i = from;
    while i < s.len() && i + 1 < s.len() && !(s[i] == 'n' && s[i + 1] == '=')
        invariant
            from <= i <= s@.len(),
            index_of_n_eq(s@, from as int) == index_of_n_eq(s@, i as int),
        decreases s.len() - i,
    {
        i += 1;
    }
    if i < s.len() && i + 1 < s.len() {
        Some(i)
    } else {
        None
    }
}

/// How many audit lines a `GET /audit` URL asks for (20 unless its `n` parses).
pub fn audit_count(url: &str) -> (n: usize)
    ensures
        n as nat == spec_audit_count(url@),
{
    let cs = crate::text::chars_of(url);
    let found = find_n_eq(cs.as_slice(), 0);
    let p = match found {
        Some(p) => p,
        None => return 20,
    };
    let n = cs.len();
    assert(p + 1 < n);
    let end = match find_n_eq(cs.as_slice(), p + 2) {
        Some(q) => q,
        None => n,
    };
    let mut seg: Vec<char> = Vec::new();
    let mut i = p + 2;
    while i < end
        invariant
            p + 2 <= i <= end <= cs@.len(),
            seg@ == cs@.subrange(p + 2, i as int),
        decreases end - i,
    {
        seg.push(cs[i]);
        assert(cs@.subrange(p + 2, i + 1) =~= cs@.subrange(p + 2, i as int).push(cs@[i as int]));
        i += 1;
    }
    let amp = find_char(seg.as_slice(), '&', 0);
    let mut t: Vec<char> = Vec::new();
    let mut k: usize = 0;
    while k < amp
        invariant
            amp <= seg@.len(),
            k <= amp,
            t@ == seg@.take(k as int),
        decreases amp - k,
    {
        t.push(seg[k]);
        assert(seg@.take(k + 1) =~= seg@.take(k as int).push(seg@[k as int]));
        k += 1;
    }
    let text = crate::text::string_of(t.as_slice());
    match crate::num::parse_u64(text.as_str()) {
        Some(v) => if v <= usize::MAX as u64 { v as usize } else { 20 },
        None => 20,
    }
}

/// Where the last `n` of `len` audit lines start.
pub fn audit_tail_start(len: usize, n: usize) -> (s: usize)
    ensures
        s == (if n >= len { 0 } else { len - n }),
{
    if n >= len {
        0
    } else {
        len - n
    }
}

} // verus!
