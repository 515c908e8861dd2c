//! Client bookkeeping, address allow lists, and the decisions
//! behind the accept/gone user command hooks.

use vstd::prelude::*;
use std::sync::Arc;
use crate::text::{chars_of, decimal_of, hex_digits, hex_of, split_chars, split_on, starts_with, string_of, trim, trim_chars, views};

verus! {

#[verifier::external_type_specification]
#[verifier::external_body]
pub struct ExSystemTime(std::time::SystemTime);

#[verifier::external_type_specification]
#[verifier::external_body]
pub struct ExSystemTimeError(std::time::SystemTimeError);

/// `SystemTime::now`: the current wall-clock time. Nothing is stated of it.
#[verifier::external_body]
fn system_now() -> std::time::SystemTime {
    std::time::SystemTime::now()
}

/// `SystemTime::duration_since(UNIX_EPOCH)`: the time since the Unix epoch,
/// or an error when the clock reads earlier. Nothing is stated of the result.
#[verifier::external_body]
fn since_unix_epoch(t: std::time::SystemTime) -> Result<std::time::Duration, std::time::SystemTimeError> {
    t.duration_since(std::time::UNIX_EPOCH)
}

/// `Duration::as_secs`: the whole seconds of `d`. Nothing is stated of the
/// result, which comes from a reading of the clock.
#[verifier::external_body]
fn whole_seconds(d: std::time::Duration) -> u64 {
    d.as_secs()
}

/// Minimal representation of a connected client.
#[derive(Debug, Clone)]
pub struct ClientData {
    pub uid: u32,
    pub host: String,
    pub client_port: Option<u16>,
    pub username: Option<String>,
    pub unixname: Option<String>,
    pub login_viewonly: bool,
    pub login_time: u64,
}

/// The login time recorded for a clock reading: its whole seconds since the
/// Unix epoch, or 0 when the clock reads before the epoch (`None`).
pub fn login_time_from(secs_since_epoch: Option<u64>) -> (t: u64)
    ensures
        t == match secs_since_epoch {
            Some(s) => s,
            None => 0,
        },
{
    match secs_since_epoch {
        Some(s) => s,
        None => 0,
    }
}

impl ClientData {
    /// A client with no user names, not view-only, that logged in at
    /// `login_time` (seconds since the Unix epoch).
    pub fn with_login_time(uid: u32, host: &str, client_port: Option<u16>, login_time: u64) -> (c:
        Self)
        ensures
            c.uid == uid,
            c.host@ == host@,
            c.client_port == client_port,
            c.username is None,
            c.unixname is None,
            !c.login_viewonly,
            c.login_time == login_time,
    {
        let hv = chars_of(host);
        ClientData {
            uid,
            host: string_of(&hv),
            client_port,
            username: None,
            unixname: None,
            login_viewonly: false,
            login_time,
        }
    }

    /// A client with no user names, not view-only, logged in now: the login
    /// time is `login_time_from` of the clock's reading.
    pub fn new(uid: u32, host: &str, client_port: Option<u16>) -> (c: Self)
        ensures
            c.uid == uid,
            c.host@ == host@,
            c.client_port == client_port,
            c.username is None,
            c.unixname is None,
            !c.login_viewonly,
    {
        let secs = match since_unix_epoch(system_now()) {
            Ok(d) => Some(whole_seconds(d)),
            Err(_) => None,
        };
        ClientData::with_login_time(uid, host, client_port, login_time_from(secs))
    }
}

/// The connected clients, in the order they were added.
#[derive(Debug, Default)]
pub struct Connections {
    inner: Vec<Arc<ClientData>>,
}

pub open spec fn shared_clients(v: Seq<Arc<ClientData>>) -> Seq<ClientData> {
    v.map_values(|a: Arc<ClientData>| *a)
}

impl View for Connections {
    type V = Seq<ClientData>;

    closed spec fn view(&self) -> Seq<ClientData> {
        shared_clients(self.inner@)
    }
}

/// Index of the first client with `uid`, if any.
pub open spec fn first_with_uid(s: Seq<ClientData>, uid: u32) -> Option<nat>
    decreases s.len(),
{
    if s.len() == 0 {
        None
    } else if s[0].uid == uid {
        Some(0)
    } else {
        match first_with_uid(s.drop_first(), uid) {
            Some(i) => Some(i + 1),
            None => None,
        }
    }
}

/// The clients left, and the client removed, when the first client with
/// `uid` is removed.
pub open spec fn removed_by_uid(s: Seq<ClientData>, uid: u32) -> (Seq<ClientData>, Option<ClientData>) {
    match first_with_uid(s, uid) {
        Some(i) => (s.remove(i as int), Some(s[i as int])),
        None => (s, None),
    }
}

proof fn lemma_first_with_uid(s: Seq<ClientData>, uid: u32, k: int)
    requires
        0 <= k <= s.len(),
        forall|j: int| 0 <= j < k ==> s[j].uid != uid,
        k == s.len() || s[k].uid == uid,
    ensures
        k == s.len() ==> first_with_uid(s, uid) is None,
        k < s.len() ==> first_with_uid(s, uid) == Some(k as nat),
    decreases k,
{
    if k > 0 {
        lemma_first_with_uid(s.drop_first(), uid, k - 1);
    }
}

/// `s` with every `:` replaced by `#`.
pub open spec fn colons_to_hashes(s: Seq<char>) -> Seq<char> {
    s.map_values(|c: char| if c == ':' { '#' } else { c })
}

/// `0x<uid>:<host>:<port>:<username>:<viewonly>`, with `-` for a missing port
/// or user name and `:` in the host written as `#`.
pub open spec fn client_entry(c: ClientData) -> Seq<char> {
    seq!['0', 'x'] + hex_of(c.uid as nat) + seq![':'] + colons_to_hashes(c.host@) + seq![':']
        + match c.client_port {
        Some(p) => decimal_of(p as nat),
        None => seq!['-'],
    } + seq![':'] + match c.username {
        Some(u) => u@,
        None => seq!['-'],
    } + seq![':'] + if c.login_viewonly {
        seq!['1']
    } else {
        seq!['0']
    }
}

/// The entries joined with `sep` between them.
pub open spec fn joined(entries: Seq<Seq<char>>, sep: char) -> Seq<char>
    decreases entries.len(),
{
    if entries.len() == 0 {
        seq![]
    } else if entries.len() == 1 {
        entries[0]
    } else {
        joined(entries.drop_last(), sep) + seq![sep] + entries.last()
    }
}

pub open spec fn client_listing(cs: Seq<ClientData>) -> Seq<char> {
    joined(cs.map_values(|c: ClientData| client_entry(c)), ',')
}

fn push_hex(out: &mut Vec<char>, n: u32)
    ensures
        final(out)@ == old(out)@ + hex_of(n as nat),
    decreases n,
{
    let digits: [char; 16] = [
        '0', '1', '2', '3', '4', '5', '6', '7', '8', '9', 'a', 'b', 'c', 'd', 'e', 'f',
    ];
    assert(digits@ =~= hex_digits());
    if n >= 16 {
        push_hex(out, n / 16);
    }
    out.push(digits[(n % 16) as usize]);
}

fn push_decimal(out: &mut Vec<char>, n: u16)
    ensures
        final(out)@ == old(out)@ + decimal_of(n as nat),
    decreases n,
{
    let digits: [char; 10] = ['0', '1', '2', '3', '4', '5', '6', '7', '8', '9'];
    assert(digits@ =~= hex_digits().take(10));
    if n >= 10 {
        push_decimal(out, n / 10);
    }
    out.push(digits[(n % 10) as usize]);
}

fn push_all(out: &mut Vec<char>, s: &Vec<char>)
    ensures
        final(out)@ == old(out)@ + s@,
{
    let mut i: usize = 0;
    while i < s.len()
        invariant
            i <= s.len(),
            out@ == old(out)@ + s@.take(i as int),
        decreases s.len() - i,
    {
        out.push(s[i]);
        assert(s@.take(i + 1) =~= s@.take(i as int).push(s@[i as int]));
        i = i + 1;
    }
    assert(s@.take(s.len() as int) =~= s@);
}

fn push_entry(out: &mut Vec<char>, c: &ClientData)
    ensures
        final(out)@ == old(out)@ + client_entry(*c),
{
    let ghost start = out@;
    out.push('0');
    out.push('x');
    push_hex(out, c.uid);
    out.push(':');
    let host = chars_of(c.host.as_str());
    let mut i: usize = 0;
    let ghost mid = out@;
    while i < host.len()
        invariant
            i <= host.len(),
            host@ == c.host@,
            out@ == mid + colons_to_hashes(host@.take(i as int)),
        decreases host.len() - i,
    {
        let ch = host[i];
        out.push(if ch == ':' {
            '#'
        } else {
            ch
        });
        assert(colons_to_hashes(host@.take(i + 1)) =~= colons_to_hashes(host@.take(i as int)).push(
            if ch == ':' {
                '#'
            } else {
                ch
            },
        ));
        i = i + 1;
    }
    assert(host@.take(host.len() as int) =~= host@);
    out.push(':');
    match c.client_port {
        Some(p) => push_decimal(out, p),
        None => out.push('-'),
    }
    out.push(':');
    match &c.username {
        Some(u) => {
            let uv = chars_of(u.as_str());
            push_all(out, &uv);
        },
        None => out.push('-'),
    }
    out.push(':');
    out.push(
        if c.login_viewonly {
            '1'
        } else {
            '0'
        },
    );
    assert(out@ =~= start + client_entry(*c));
}

impl Connections {
    pub fn new() -> (c: Self)
        ensures
            c@ == Seq::<ClientData>::empty(),
    {
        Connections { inner: Vec::new() }
    }

    pub fn add_client(&mut self, client: ClientData)
        ensures
            final(self)@ == old(self)@.push(client),
    {
        let ghost before = self.inner@;
        self.inner.push(Arc::new(client));
        assert(shared_clients(self.inner@) =~= shared_clients(before).push(client));
    }

    /// Remove and return the first client with `uid`, if there is one.
    pub fn remove_client_by_uid(&mut self, uid: u32) -> (r: Option<Arc<ClientData>>)
        ensures
            final(self)@ == removed_by_uid(old(self)@, uid).0,
            match r {
                Some(c) => removed_by_uid(old(self)@, uid).1 == Some(*c),
                None => removed_by_uid(old(self)@, uid).1 is None,
            },
    {
        let ghost start = self.inner@;
        let mut i: usize = 0;
        while i < self.inner.len()
            invariant
                self.inner@ == start,
                shared_clients(start) == old(self)@,
                i <= self.inner.len(),
                forall|j: int| 0 <= j < i ==> shared_clients(start)[j].uid != uid,
            decreases self.inner.len() - i,
        {
            let found = self.inner[i].uid == uid;
            if found {
                proof {
                    lemma_first_with_uid(shared_clients(start), uid, i as int);
                }
                let c = self.inner.remove(i);
                assert(shared_clients(self.inner@) =~= shared_clients(start).remove(i as int));
                return Some(c);
            }
            i = i + 1;
        }
        proof {
            lemma_first_with_uid(shared_clients(start), uid, i as int);
        }
        None
    }

    /// A comma-separated list of `0x<uid>:<host>:<port>:<username>:<viewonly>`
    /// entries, one per client.
    pub fn list_clients(&self) -> (s: String)
        ensures
            s@ == client_listing(self@),
    {
        let ghost entries = self@.map_values(|c: ClientData| client_entry(c));
        let mut out: Vec<char> = Vec::new();
        let mut i: usize = 0;
        while i < self.inner.len()
            invariant
                i <= self.inner.len(),
                entries == self@.map_values(|c: ClientData| client_entry(c)),
                out@ == joined(entries.take(i as int), ','),
            decreases self.inner.len() - i,
        {
            proof {
                assert(entries.take(i + 1).drop_last() =~= entries.take(i as int));
            }
            if i > 0 {
                out.push(',');
            }
            let c: &ClientData = &self.inner[i];
            push_entry(&mut out, c);
            proof {
                if i == 0 {
                    assert(entries.take(1) =~= seq![entries[0]]);
                    assert(out@ =~= entries[0]);
                }
            }
            i = i + 1;
        }
        assert(entries.take(self.inner.len() as int) =~= entries);
        string_of(&out)
    }

    pub fn count(&self) -> (n: usize)
        ensures
            n == self@.len(),
    {
        self.inner.len()
    }
}

/// Adding a client whose uid no other client has, then removing by that uid,
/// gives the client back and leaves the clients as they were.
pub proof fn law_add_then_remove(s: Seq<ClientData>, c: ClientData)
    requires
        forall|i: int| 0 <= i < s.len() ==> s[i].uid != c.uid,
    ensures
        removed_by_uid(s.push(c), c.uid) == (s, Some(c)),
{
    let t = s.push(c);
    assert forall|j: int| 0 <= j < s.len() implies t[j].uid != c.uid by {
        assert(t[j] == s[j]);
    }
    lemma_first_with_uid(t, c.uid, s.len() as int);
    assert(t.remove(s.len() as int) =~= s);
}

/// The separators of the allow lists: comma, newline, space and tab.
pub open spec fn allow_separators() -> Seq<char> {
    seq![',', '\n', ' ', '\t']
}

/// The allow list and the one-time allow list, joined with a comma when both
/// have text.
pub open spec fn allow_text(allow_list: Option<Seq<char>>, allow_once: Option<Seq<char>>) -> Seq<char> {
    let a = match allow_list {
        Some(s) => s,
        None => seq![],
    };
    match allow_once {
        Some(o) => if a.len() > 0 {
            a + seq![','] + o
        } else {
            a + o
        },
        None => a,
    }
}

/// Some non-empty entry of `list` is a prefix of `addr`.
pub open spec fn listed(list: Seq<char>, addr: Seq<char>) -> bool {
    let entries = split_on(list, allow_separators());
    exists|i: int| 0 <= i < entries.len() && (#[trigger] entries[i]).len() > 0 && entries[i].is_prefix_of(addr)
}

/// Access control: an empty address is refused; with neither list given, or
/// with only empty text in them, every address is accepted; otherwise an
/// address is accepted when it starts with one of the listed entries.
pub open spec fn access_granted(
    allow_list: Option<Seq<char>>,
    allow_once: Option<Seq<char>>,
    addr: Seq<char>,
) -> bool {
    if addr.len() == 0 {
        false
    } else if allow_list is None && allow_once is None {
        true
    } else {
        let list = allow_text(allow_list, allow_once);
        list.len() == 0 || listed(list, addr)
    }
}

pub open spec fn opt_view(s: Option<&str>) -> Option<Seq<char>> {
    match s {
        Some(t) => Some(t@),
        None => None,
    }
}

/// Access control: an empty `allow_list` and `allow_once` accept any
/// address; otherwise the lists are comma (or space, tab, newline)
/// separated entries, and an address is accepted when it equals or starts
/// with one of them.
pub fn check_access(allow_list: Option<&str>, allow_once: Option<&str>, addr: &str) -> (ok: bool)
    ensures
        ok == access_granted(opt_view(allow_list), opt_view(allow_once), addr@),
{
    let a = chars_of(addr);
    if a.len() == 0 {
        return false;
    }
    if allow_list.is_none() && allow_once.is_none() {
        return true;
    }
    let mut list: Vec<char> = Vec::new();
    if let Some(s) = allow_list {
        let sv = chars_of(s);
        push_all(&mut list, &sv);
    }
    if let Some(s) = allow_once {
        if list.len() > 0 {
            list.push(',');
        }
        let sv = chars_of(s);
        push_all(&mut list, &sv);
    }
    assert(list@ =~= allow_text(opt_view(allow_list), opt_view(allow_once)));
    if list.len() == 0 {
        return true;
    }
    let seps: &[char] = &[',', '\n', ' ', '\t'];
    assert(seps@ =~= allow_separators());
    let entries = split_chars(&list, seps);
    let ghost all = views(entries@);
    let mut i: usize = 0;
    while i < entries.len()
        invariant
            i <= entries.len(),
            all == views(entries@),
            all == split_on(list@, allow_separators()),
            list@ == allow_text(opt_view(allow_list), opt_view(allow_once)),
            list@.len() > 0,
            !(allow_list is None && allow_once is None),
            a@ == addr@,
            a@.len() > 0,
            forall|j: int| 0 <= j < i ==> !((#[trigger] all[j]).len() > 0 && all[j].is_prefix_of(a@)),
        decreases entries.len() - i,
    {
        let e = &entries[i];
        assert(all[i as int] == e@);
        if e.len() > 0 && starts_with(&a, e.as_slice()) {
            assert(all[i as int].len() > 0 && all[i as int].is_prefix_of(a@));
            assert(listed(list@, addr@));
            return true;
        }
        i = i + 1;
    }
    false
}

/// Splitting text that joins two parts with a separator gives the pieces of
/// the first part followed by the pieces of the second.
pub proof fn lemma_split_join(a: Seq<char>, b: Seq<char>, seps: Seq<char>, sep: char)
    requires
        seps.contains(sep),
    ensures
        split_on(a + seq![sep] + b, seps) == split_on(a, seps) + split_on(b, seps),
    decreases b.len(),
{
    crate::text::lemma_split_nonempty(a, seps);
    crate::text::lemma_split_nonempty(b, seps);
    if b.len() == 0 {
        assert((a + seq![sep] + b).drop_last() =~= a);
        assert(split_on(a + seq![sep] + b, seps) =~= split_on(a, seps) + split_on(b, seps));
    } else {
        let b2 = b.drop_last();
        lemma_split_join(a, b2, seps, sep);
        crate::text::lemma_split_nonempty(b2, seps);
        assert((a + seq![sep] + b).drop_last() =~= a + seq![sep] + b2);
        assert((a + seq![sep] + b).last() == b.last());
        assert(split_on(a + seq![sep] + b, seps) =~= split_on(a, seps) + split_on(b, seps));
    }
}

/// A one-time allow entry never takes back what a non-empty allow list grants.
pub proof fn law_allow_once_keeps_grants(allow: Seq<char>, once: Option<Seq<char>>, addr: Seq<char>)
    requires
        allow.len() > 0,
        access_granted(Some(allow), None, addr),
    ensures
        access_granted(Some(allow), once, addr),
{
    if let Some(o) = once {
        lemma_split_join(allow, o, allow_separators(), ',');
        let before = split_on(allow, allow_separators());
        let after = split_on(allow_text(Some(allow), once), allow_separators());
        let i = choose|i: int| 0 <= i < before.len() && (#[trigger] before[i]).len() > 0 && before[i].is_prefix_of(addr);
        assert(after[i] == before[i]);
    }
}

/// With no allow lists every non-empty address is accepted, and an empty
/// address is never accepted.
pub proof fn law_access_defaults(allow_list: Option<Seq<char>>, allow_once: Option<Seq<char>>, addr: Seq<char>)
    ensures
        addr.len() == 0 ==> !access_granted(allow_list, allow_once, addr),
        addr.len() > 0 && allow_list is None && allow_once is None ==> access_granted(
            allow_list,
            allow_once,
            addr,
        ),
{
}

/// What running a user command hook amounts to.
#[derive(Debug)]
pub enum CommandPlan {
    /// The command text is blank: nothing is run.
    Reject,
    /// `env` mode: set these environment variables and report 1.
    SetEnv(Vec<(String, String)>),
    /// Run the command through the shell and report its exit status.
    Spawn,
}

impl CommandPlan {
    /// The status a hook reports once its plan has been carried out: none
    /// for a refused command (it is an error); 1 in `env` mode, where
    /// nothing runs; for a command that ran, its exit code, or 1 when it has
    /// none (it was ended by a signal).
    pub fn reported_status(&self, exit_code: Option<i32>) -> (s: Option<i32>)
        ensures
            s == match self {
                CommandPlan::Reject => None,
                CommandPlan::SetEnv(_) => Some(1i32),
                CommandPlan::Spawn => Some(
                    match exit_code {
                        Some(c) => c,
                        None => 1i32,
                    },
                ),
            },
    {
        match self {
            CommandPlan::Reject => None,
            CommandPlan::SetEnv(_) => Some(1),
            CommandPlan::Spawn => match exit_code {
                Some(c) => Some(c),
                None => Some(1),
            },
        }
    }
}

pub open spec fn env_pairs_view(v: Seq<(String, String)>) -> Seq<(Seq<char>, Seq<char>)> {
    v.map_values(|p: (String, String)| (p.0@, p.1@))
}

/// The variables that `env` mode sets: the client's address, port (`-` when
/// unknown) and user name (`-` when unknown) when there is a client, then the mode.
pub open spec fn env_vars(client: Option<ClientData>, mode: Seq<char>) -> Seq<(Seq<char>, Seq<char>)> {
    match client {
        Some(c) => seq![
            ("RFB_CLIENT_IP"@, c.host@),
            ("RFB_CLIENT_PORT"@, match c.client_port {
                Some(p) => decimal_of(p as nat),
                None => seq!['-'],
            }),
            ("RFB_USERNAME"@, match c.username {
                Some(u) => u@,
                None => seq!['-'],
            }),
            ("RFB_MODE"@, mode),
        ],
        None => seq![("RFB_MODE"@, mode)],
    }
}

/// Decide what a user command hook does: a blank command is refused; in
/// `env` mode only environment variables are set; otherwise the command runs.
pub fn plan_user_command(cmd: &str, client: Option<&ClientData>, mode: &str) -> (p: CommandPlan)
    ensures
        match p {
            CommandPlan::Reject => trim(cmd@).len() == 0,
            CommandPlan::SetEnv(vars) => trim(cmd@).len() > 0 && mode@ == "env"@
                && env_pairs_view(vars@) == env_vars(
                match client {
                    Some(c) => Some(*c),
                    None => None,
                },
                mode@,
            ),
            CommandPlan::Spawn => trim(cmd@).len() > 0 && mode@ != "env"@,
        },
{
    let cv = chars_of(cmd);
    let ct = trim_chars(&cv);
    if ct.len() == 0 {
        return CommandPlan::Reject;
    }
    let mv = chars_of(mode);
    let env_word: &[char] = &['e', 'n', 'v'];
    proof {
        reveal_strlit("env");
    }
    assert(env_word@ =~= "env"@);
    let is_env = mv.len() == 3 && starts_with(&mv, env_word);
    assert(is_env == (mode@ == "env"@)) by {
        if is_env {
            assert(mv@ =~= "env"@);
        }
    }
    if !is_env {
        return CommandPlan::Spawn;
    }
    let mut vars: Vec<(String, String)> = Vec::new();
    if let Some(c) = client {
        let hv = chars_of(c.host.as_str());
        vars.push(("RFB_CLIENT_IP".to_string(), string_of(&hv)));
        let mut port: Vec<char> = Vec::new();
        match c.client_port {
            Some(p) => push_decimal(&mut port, p),
            None => port.push('-'),
        }
        vars.push(("RFB_CLIENT_PORT".to_string(), string_of(&port)));
        let user = match &c.username {
            Some(u) => {
                let uv = chars_of(u.as_str());
                string_of(&uv)
            },
            None => "-".to_string(),
        };
        vars.push(("RFB_USERNAME".to_string(), user));
    }
    vars.push(("RFB_MODE".to_string(), string_of(&mv)));
    proof {
        reveal_strlit("-");
        if let Some(c) = client {
            assert(env_pairs_view(vars@)[0] == ("RFB_CLIENT_IP"@, c.host@));
            assert(env_pairs_view(vars@)[1].0 == "RFB_CLIENT_PORT"@);
            assert(env_pairs_view(vars@)[2] == ("RFB_USERNAME"@, match c.username {
                Some(u) => u@,
                None => seq!['-'],
            }));
            assert(env_pairs_view(vars@)[3] == ("RFB_MODE"@, mode@));
        }
    }
    assert(env_pairs_view(vars@) =~= env_vars(
        match client {
            Some(c) => Some(*c),
            None => None,
        },
        mode@,
    ));
    CommandPlan::SetEnv(vars)
}

} // verus!
