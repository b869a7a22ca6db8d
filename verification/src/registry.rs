//! The server's shared state: the registered clients and the pairing of
//! each client with the peer it last addressed.
//!
//! Clients are kept in registration order, each session id at most once;
//! the pairing is a list of (session id, peer session id) entries, each
//! session id at most once as a key. Both are modelled as sequences of
//! views, with lookups, upserts and removals by key.

use vstd::prelude::*;
use crate::protocol::ClientType;

verus! {

/// Identity claims of an authenticated client, when the server has them.
#[derive(Debug, Clone)]
pub struct AuthInfo {
    pub sub: Option<String>,
    pub email: Option<String>,
    pub name: Option<String>,
}

/// The view of an optional text.
pub open spec fn opt_view(o: Option<String>) -> Option<Seq<char>> {
    match o {
        Some(s) => Some(s@),
        None => None,
    }
}

/// Copies an optional text.
pub fn copy_opt(o: &Option<String>) -> (res: Option<String>)
    ensures
        res == *o,
{
    match o {
        Some(s) => Some(s.clone()),
        None => None,
    }
}

pub struct AuthView {
    pub sub: Option<Seq<char>>,
    pub email: Option<Seq<char>>,
    pub name: Option<Seq<char>>,
}

impl View for AuthInfo {
    type V = AuthView;

    open spec fn view(&self) -> AuthView {
        AuthView { sub: opt_view(self.sub), email: opt_view(self.email), name: opt_view(self.name) }
    }
}

impl Default for AuthInfo {
    /// No identity claims.
    fn default() -> (res: AuthInfo)
        ensures
            res.sub is None,
            res.email is None,
            res.name is None,
    {
        AuthInfo { sub: None, email: None, name: None }
    }
}

impl AuthInfo {
    /// A copy with the same claims.
    pub fn copied(&self) -> (res: AuthInfo)
        ensures
            res == *self,
    {
        AuthInfo { sub: copy_opt(&self.sub), email: copy_opt(&self.email), name: copy_opt(&self.name) }
    }

    /// Whether any claim is present.
    pub fn is_authenticated(&self) -> (res: bool)
        ensures
            res == (self.sub is Some || self.email is Some || self.name is Some),
    {
        self.sub.is_some() || self.email.is_some() || self.name.is_some()
    }
}

/// A registered client. The channel that carries its outgoing messages is
/// held by the server, keyed by the same session id.
pub struct Client {
    pub session_id: String,
    pub protocol: ClientType,
    /// Nanoseconds on the server's monotonic clock at the last message.
    pub last_active: u64,
    pub platform: Option<String>,
    pub gpu: Option<String>,
    pub auth: AuthInfo,
}

pub struct ClientView {
    pub session_id: Seq<char>,
    pub protocol: ClientType,
    pub last_active: u64,
    pub platform: Option<Seq<char>>,
    pub gpu: Option<Seq<char>>,
    pub auth: AuthView,
}

impl View for Client {
    type V = ClientView;

    open spec fn view(&self) -> ClientView {
        ClientView {
            session_id: self.session_id@,
            protocol: self.protocol,
            last_active: self.last_active,
            platform: opt_view(self.platform),
            gpu: opt_view(self.gpu),
            auth: self.auth@,
        }
    }
}

/// What a receiver learns of a sender.
#[derive(Debug, Clone)]
pub struct SenderInfo {
    pub id: String,
    pub platform: Option<String>,
    pub gpu: Option<String>,
    pub sub: Option<String>,
    pub email: Option<String>,
    pub name: Option<String>,
}

pub struct SenderInfoView {
    pub id: Seq<char>,
    pub platform: Option<Seq<char>>,
    pub gpu: Option<Seq<char>>,
    pub sub: Option<Seq<char>>,
    pub email: Option<Seq<char>>,
    pub name: Option<Seq<char>>,
}

impl View for SenderInfo {
    type V = SenderInfoView;

    open spec fn view(&self) -> SenderInfoView {
        SenderInfoView {
            id: self.id@,
            platform: opt_view(self.platform),
            gpu: opt_view(self.gpu),
            sub: opt_view(self.sub),
            email: opt_view(self.email),
            name: opt_view(self.name),
        }
    }
}

impl SenderInfo {
    /// A copy with the same fields.
    pub fn copied(&self) -> (res: SenderInfo)
        ensures
            res == *self,
    {
        SenderInfo {
            id: self.id.clone(),
            platform: copy_opt(&self.platform),
            gpu: copy_opt(&self.gpu),
            sub: copy_opt(&self.sub),
            email: copy_opt(&self.email),
            name: copy_opt(&self.name),
        }
    }
}

/// Copies a list of sender descriptions.
pub fn copy_infos(v: &Vec<SenderInfo>) -> (res: Vec<SenderInfo>)
    ensures
        res@ == v@,
{
    let n = v.len();
    let mut res: Vec<SenderInfo> = Vec::new();
    let mut i: usize = 0;
    while i < n
        invariant
            n == v.len(),
            i <= n,
            res@ == v@.take(i as int),
        decreases n - i,
    {
        res.push(v[i].copied());
        assert(res@ =~= v@.take(i + 1));
        i = i + 1;
    }
    assert(v@.take(n as int) =~= v@);
    res
}

/// The views of a list of sender descriptions.
pub open spec fn infos_view(v: Seq<SenderInfo>) -> Seq<SenderInfoView> {
    v.map_values(|s: SenderInfo| s@)
}

/// What a receiver is told of a registered sender.
pub open spec fn sender_info_of(c: ClientView) -> SenderInfoView {
    SenderInfoView {
        id: c.session_id,
        platform: c.platform,
        gpu: c.gpu,
        sub: c.auth.sub,
        email: c.auth.email,
        name: c.auth.name,
    }
}

/// Whether a client is listed to receivers under a subject filter: it is a
/// sender and, when a subject is given, it carries that subject.
pub open spec fn listed(c: ClientView, filter_sub: Option<Seq<char>>) -> bool {
    &&& c.protocol == ClientType::Sender
    &&& match filter_sub {
        Some(sub) => c.auth.sub == Some(sub),
        None => true,
    }
}

/// The senders listed under a subject filter, in registration order.
pub open spec fn sender_infos(cs: Seq<ClientView>, filter_sub: Option<Seq<char>>) -> Seq<SenderInfoView>
    decreases cs.len(),
{
    if cs.len() == 0 {
        Seq::empty()
    } else {
        let rest = sender_infos(cs.drop_last(), filter_sub);
        if listed(cs.last(), filter_sub) {
            rest.push(sender_info_of(cs.last()))
        } else {
            rest
        }
    }
}

// ---------------------------------------------------------------------------
// Clients by session id
// ---------------------------------------------------------------------------

pub open spec fn has_client(cs: Seq<ClientView>, id: Seq<char>) -> bool {
    exists|i: int| 0 <= i < cs.len() && #[trigger] cs[i].session_id == id
}

pub open spec fn client_index(cs: Seq<ClientView>, id: Seq<char>) -> int {
    choose|i: int| 0 <= i < cs.len() && #[trigger] cs[i].session_id == id
}

/// No session id is registered twice.
pub open spec fn ids_unique(cs: Seq<ClientView>) -> bool {
    forall|i: int, j: int|
        0 <= i < cs.len() && 0 <= j < cs.len() && #[trigger] cs[i].session_id
            == #[trigger] cs[j].session_id ==> i == j
}

/// The client registered under a session id.
pub open spec fn client_of(cs: Seq<ClientView>, id: Seq<char>) -> Option<ClientView> {
    if has_client(cs, id) {
        Some(cs[client_index(cs, id)])
    } else {
        None
    }
}

/// Whether a client of the given type is registered under the id.
pub open spec fn has_peer(cs: Seq<ClientView>, protocol: ClientType, id: Seq<char>) -> bool {
    match client_of(cs, id) {
        Some(c) => c.protocol == protocol,
        None => false,
    }
}

/// Registers a client, replacing one registered under the same id.
pub open spec fn upsert_client(cs: Seq<ClientView>, c: ClientView) -> Seq<ClientView> {
    if has_client(cs, c.session_id) {
        cs.update(client_index(cs, c.session_id), c)
    } else {
        cs.push(c)
    }
}

/// Unregisters the client with the given id, if any.
pub open spec fn remove_client(cs: Seq<ClientView>, id: Seq<char>) -> Seq<ClientView> {
    if has_client(cs, id) {
        cs.remove(client_index(cs, id))
    } else {
        cs
    }
}

/// Where session ids are unique, the index of a client is its registered index.
pub proof fn lemma_client_index(cs: Seq<ClientView>, i: int)
    requires
        ids_unique(cs),
        0 <= i < cs.len(),
    ensures
        has_client(cs, cs[i].session_id),
        client_index(cs, cs[i].session_id) == i,
        client_of(cs, cs[i].session_id) == Some(cs[i]),
{
    let id = cs[i].session_id;
    assert(cs[i].session_id == id);
    let j = client_index(cs, id);
    assert(cs[j].session_id == cs[i].session_id);
}

/// Registration keeps session ids unique and makes the new client the one
/// registered under its id; other ids keep their clients.
pub proof fn lemma_upsert_client(cs: Seq<ClientView>, c: ClientView)
    requires
        ids_unique(cs),
    ensures
        ids_unique(upsert_client(cs, c)),
        client_of(upsert_client(cs, c), c.session_id) == Some(c),
        forall|id: Seq<char>| id != c.session_id ==> client_of(upsert_client(cs, c), id) == client_of(cs, id),
{
    let r = upsert_client(cs, c);
    if has_client(cs, c.session_id) {
        let k = client_index(cs, c.session_id);
        assert(r[k] == c);
        assert(ids_unique(r)) by {
            assert forall|i: int, j: int|
                0 <= i < r.len() && 0 <= j < r.len() && #[trigger] r[i].session_id
                    == #[trigger] r[j].session_id implies i == j by {
                if i != k && j != k {
                    assert(cs[i].session_id == cs[j].session_id);
                } else if i == k && j != k {
                    assert(cs[j].session_id == cs[k].session_id);
                } else if j == k && i != k {
                    assert(cs[i].session_id == cs[k].session_id);
                }
            }
        }
        lemma_client_index(r, k);
        assert forall|id: Seq<char>| id != c.session_id implies client_of(r, id) == client_of(cs, id) by {
            if has_client(cs, id) {
                let m = client_index(cs, id);
                assert(m != k);
                assert(r[m] == cs[m]);
                lemma_client_index(r, m);
            }
            if has_client(r, id) {
                let m = client_index(r, id);
                assert(m != k);
                assert(cs[m] == r[m]);
            }
        }
    } else {
        let k = cs.len() as int;
        assert(r[k] == c);
        assert(ids_unique(r)) by {
            assert forall|i: int, j: int|
                0 <= i < r.len() && 0 <= j < r.len() && #[trigger] r[i].session_id
                    == #[trigger] r[j].session_id implies i == j by {
                if i != k && j != k {
                    assert(cs[i].session_id == cs[j].session_id);
                } else if i == k && j != k {
                    assert(cs[j].session_id == c.session_id);
                } else if j == k && i != k {
                    assert(cs[i].session_id == c.session_id);
                }
            }
        }
        lemma_client_index(r, k);
        assert forall|id: Seq<char>| id != c.session_id implies client_of(r, id) == client_of(cs, id) by {
            if has_client(cs, id) {
                let m = client_index(cs, id);
                assert(r[m] == cs[m]);
                lemma_client_index(r, m);
            }
            if has_client(r, id) {
                let m = client_index(r, id);
                assert(m != k);
                assert(cs[m] == r[m]);
            }
        }
    }
}

/// Unregistering keeps session ids unique, leaves nothing under the id and
/// keeps the clients of other ids.
pub proof fn lemma_remove_client(cs: Seq<ClientView>, id: Seq<char>)
    requires
        ids_unique(cs),
    ensures
        ids_unique(remove_client(cs, id)),
        !has_client(remove_client(cs, id), id),
        forall|other: Seq<char>| other != id ==> client_of(remove_client(cs, id), other) == client_of(cs, other),
{
    let r = remove_client(cs, id);
    if has_client(cs, id) {
        let k = client_index(cs, id);
        assert forall|i: int| 0 <= i < r.len() implies #[trigger] r[i] == (if i < k { cs[i] } else { cs[i + 1] }) by {}
        assert(ids_unique(r)) by {
            assert forall|i: int, j: int|
                0 <= i < r.len() && 0 <= j < r.len() && #[trigger] r[i].session_id
                    == #[trigger] r[j].session_id implies i == j by {
                let ii = if i < k { i } else { i + 1 };
                let jj = if j < k { j } else { j + 1 };
                assert(cs[ii].session_id == cs[jj].session_id);
            }
        }
        assert(!has_client(r, id)) by {
            if has_client(r, id) {
                let m = client_index(r, id);
                let mm = if m < k { m } else { m + 1 };
                assert(cs[mm].session_id == cs[k].session_id);
            }
        }
        assert forall|other: Seq<char>| other != id implies client_of(r, other) == client_of(cs, other) by {
            if has_client(cs, other) {
                let m = client_index(cs, other);
                assert(m != k);
                let mr = if m < k { m } else { m - 1 };
                assert(r[mr] == cs[m]);
                lemma_client_index(r, mr);
            }
            if has_client(r, other) {
                let m = client_index(r, other);
                let mm = if m < k { m } else { m + 1 };
                assert(cs[mm] == r[m]);
            }
        }
    }
}

/// Records activity of the client registered under `id`.
pub open spec fn touch_clients(cs: Seq<ClientView>, id: Seq<char>, now: u64) -> Seq<ClientView> {
    match client_of(cs, id) {
        Some(c) => cs.update(client_index(cs, id), ClientView { last_active: now, ..c }),
        None => cs,
    }
}

/// Records the platform and GPU of the client registered under `id`.
pub open spec fn set_platform(
    cs: Seq<ClientView>,
    id: Seq<char>,
    platform: Option<Seq<char>>,
    gpu: Option<Seq<char>>,
) -> Seq<ClientView> {
    match client_of(cs, id) {
        Some(c) => cs.update(client_index(cs, id), ClientView { platform, gpu, ..c }),
        None => cs,
    }
}

/// The subject claim of the client registered under `id`.
pub open spec fn sub_of(cs: Seq<ClientView>, id: Seq<char>) -> Option<Seq<char>> {
    match client_of(cs, id) {
        Some(c) => c.auth.sub,
        None => None,
    }
}

/// Sessions idle for longer than this many whole seconds are dropped.
pub const INACTIVE_TIMEOUT_SECS: u64 = 60 * 60;

/// Seconds between two idle sweeps; the first runs when the server starts.
pub const SWEEP_PERIOD_SECS: u64 = 60;

/// Nanoseconds in a second.
pub const NANOS_PER_SEC: u64 = 1_000_000_000;

/// Whole seconds from `since` to `now` on a nanosecond clock; zero when
/// `now` is earlier.
pub open spec fn elapsed_secs(now: u64, since: u64) -> int {
    if now >= since {
        (now - since) / (NANOS_PER_SEC as int)
    } else {
        0
    }
}

/// Whether a client has been idle for longer than the timeout at `now`.
pub open spec fn is_inactive(c: ClientView, now: u64) -> bool {
    elapsed_secs(now, c.last_active) > INACTIVE_TIMEOUT_SECS
}

/// The session ids of the idle clients, in registration order.
pub open spec fn inactive_ids(cs: Seq<ClientView>, now: u64) -> Seq<Seq<char>>
    decreases cs.len(),
{
    if cs.len() == 0 {
        Seq::empty()
    } else {
        let rest = inactive_ids(cs.drop_last(), now);
        if is_inactive(cs.last(), now) {
            rest.push(cs.last().session_id)
        } else {
            rest
        }
    }
}

/// The clients that are not idle, in registration order.
pub open spec fn active_clients(cs: Seq<ClientView>, now: u64) -> Seq<ClientView>
    decreases cs.len(),
{
    if cs.len() == 0 {
        Seq::empty()
    } else {
        let rest = active_clients(cs.drop_last(), now);
        if is_inactive(cs.last(), now) {
            rest
        } else {
            rest.push(cs.last())
        }
    }
}

/// The active clients are among the registered ones, and keep their ids
/// unique.
pub proof fn lemma_active_clients_sub(cs: Seq<ClientView>, now: u64)
    requires
        ids_unique(cs),
    ensures
        ids_unique(active_clients(cs, now)),
        forall|i: int| #![trigger active_clients(cs, now)[i]] 0 <= i < active_clients(cs, now).len() ==> exists|j: int| 0 <= j < cs.len() && #[trigger] cs[j] == active_clients(cs, now)[i],
        forall|i: int| 0 <= i < active_clients(cs, now).len() ==> !is_inactive(#[trigger] active_clients(cs, now)[i], now),
    decreases cs.len(),
{
    if cs.len() > 0 {
        let init = cs.drop_last();
        assert(ids_unique(init)) by {
            assert forall|i: int, j: int|
                0 <= i < init.len() && 0 <= j < init.len() && #[trigger] init[i].session_id
                    == #[trigger] init[j].session_id implies i == j by {
                assert(cs[i].session_id == cs[j].session_id);
            }
        }
        lemma_active_clients_sub(init, now);
        let r = active_clients(init, now);
        let a = active_clients(cs, now);
        assert forall|i: int| #![trigger r[i]] 0 <= i < r.len() implies exists|j: int| 0 <= j < cs.len() && #[trigger] cs[j] == r[i] by {
            let j = choose|j: int| 0 <= j < init.len() && #[trigger] init[j] == r[i];
            assert(cs[j] == r[i]);
        }
        if !is_inactive(cs.last(), now) {
            let k = cs.len() - 1;
            assert(cs[k] == cs.last());
            assert(ids_unique(a)) by {
                assert forall|i: int, j: int|
                    0 <= i < a.len() && 0 <= j < a.len() && #[trigger] a[i].session_id
                        == #[trigger] a[j].session_id implies i == j by {
                    if i < r.len() && j < r.len() {
                        assert(r[i].session_id == r[j].session_id);
                    } else if i < r.len() {
                        let m = choose|m: int| 0 <= m < init.len() && #[trigger] init[m] == r[i];
                        assert(cs[m].session_id == cs[k].session_id);
                    } else if j < r.len() {
                        let m = choose|m: int| 0 <= m < init.len() && #[trigger] init[m] == r[j];
                        assert(cs[m].session_id == cs[k].session_id);
                    }
                }
            }
            assert forall|i: int| #![trigger a[i]] 0 <= i < a.len() implies exists|j: int| 0 <= j < cs.len() && #[trigger] cs[j] == a[i] by {
                if i == r.len() {
                    assert(cs[k] == a[i]);
                } else {
                    assert(a[i] == r[i]);
                }
            }
        }
    }
}

// ---------------------------------------------------------------------------
// Pairing by session id
// ---------------------------------------------------------------------------

pub open spec fn has_pair(ps: Seq<(Seq<char>, Seq<char>)>, key: Seq<char>) -> bool {
    exists|i: int| 0 <= i < ps.len() && #[trigger] ps[i].0 == key
}

pub open spec fn pair_index(ps: Seq<(Seq<char>, Seq<char>)>, key: Seq<char>) -> int {
    choose|i: int| 0 <= i < ps.len() && #[trigger] ps[i].0 == key
}

/// No session id is paired twice.
pub open spec fn keys_unique(ps: Seq<(Seq<char>, Seq<char>)>) -> bool {
    forall|i: int, j: int|
        0 <= i < ps.len() && 0 <= j < ps.len() && #[trigger] ps[i].0 == #[trigger] ps[j].0 ==> i == j
}

/// The peer a session id is paired with.
pub open spec fn pair_of(ps: Seq<(Seq<char>, Seq<char>)>, key: Seq<char>) -> Option<Seq<char>> {
    if has_pair(ps, key) {
        Some(ps[pair_index(ps, key)].1)
    } else {
        None
    }
}

/// Pairs a session id with a peer, replacing an earlier pairing of the id.
pub open spec fn upsert_pair(ps: Seq<(Seq<char>, Seq<char>)>, key: Seq<char>, target: Seq<char>) -> Seq<
    (Seq<char>, Seq<char>),
> {
    if has_pair(ps, key) {
        ps.update(pair_index(ps, key), (key, target))
    } else {
        ps.push((key, target))
    }
}

/// Drops the pairing of `key` and, when it had one, the pairing of its peer.
pub open spec fn unpair(ps: Seq<(Seq<char>, Seq<char>)>, key: Seq<char>) -> Seq<(Seq<char>, Seq<char>)> {
    match pair_of(ps, key) {
        Some(t) => remove_pair(remove_pair(ps, key), t),
        None => ps,
    }
}

/// Unpairs each of the ids in turn.
pub open spec fn unpair_all(ps: Seq<(Seq<char>, Seq<char>)>, ids: Seq<Seq<char>>) -> Seq<(Seq<char>, Seq<char>)>
    decreases ids.len(),
{
    if ids.len() == 0 {
        ps
    } else {
        unpair(unpair_all(ps, ids.drop_last()), ids.last())
    }
}

/// Drops the pairing of a session id, if any.
pub open spec fn remove_pair(ps: Seq<(Seq<char>, Seq<char>)>, key: Seq<char>) -> Seq<(Seq<char>, Seq<char>)> {
    if has_pair(ps, key) {
        ps.remove(pair_index(ps, key))
    } else {
        ps
    }
}

pub proof fn lemma_pair_index(ps: Seq<(Seq<char>, Seq<char>)>, i: int)
    requires
        keys_unique(ps),
        0 <= i < ps.len(),
    ensures
        has_pair(ps, ps[i].0),
        pair_index(ps, ps[i].0) == i,
        pair_of(ps, ps[i].0) == Some(ps[i].1),
{
    let key = ps[i].0;
    assert(ps[i].0 == key);
    let j = pair_index(ps, key);
    assert(ps[j].0 == ps[i].0);
}

/// Pairing keeps keys unique, records the new peer and keeps other pairings.
pub proof fn lemma_upsert_pair(ps: Seq<(Seq<char>, Seq<char>)>, key: Seq<char>, target: Seq<char>)
    requires
        keys_unique(ps),
    ensures
        keys_unique(upsert_pair(ps, key, target)),
        pair_of(upsert_pair(ps, key, target), key) == Some(target),
        forall|other: Seq<char>| other != key ==> pair_of(upsert_pair(ps, key, target), other) == pair_of(ps, other),
{
    let r = upsert_pair(ps, key, target);
    let k = if has_pair(ps, key) { pair_index(ps, key) } else { ps.len() as int };
    assert(r[k] == (key, target));
    assert forall|i: int| 0 <= i < r.len() && i != k implies #[trigger] r[i] == ps[i] by {}
    assert(keys_unique(r)) by {
        assert forall|i: int, j: int|
            0 <= i < r.len() && 0 <= j < r.len() && #[trigger] r[i].0 == #[trigger] r[j].0 implies i == j by {
            if i != k && j != k {
                assert(ps[i].0 == ps[j].0);
            } else if i == k && j != k {
                assert(ps[j].0 == key);
            } else if j == k && i != k {
                assert(ps[i].0 == key);
            }
        }
    }
    lemma_pair_index(r, k);
    assert forall|other: Seq<char>| other != key implies pair_of(r, other) == pair_of(ps, other) by {
        if has_pair(ps, other) {
            let m = pair_index(ps, other);
            assert(m != k);
            assert(r[m] == ps[m]);
            lemma_pair_index(r, m);
        }
        if has_pair(r, other) {
            let m = pair_index(r, other);
            assert(m != k);
            assert(ps[m] == r[m]);
        }
    }
}

/// Unpairing keeps keys unique, leaves the key unpaired and keeps other pairings.
pub proof fn lemma_remove_pair(ps: Seq<(Seq<char>, Seq<char>)>, key: Seq<char>)
    requires
        keys_unique(ps),
    ensures
        keys_unique(remove_pair(ps, key)),
        pair_of(remove_pair(ps, key), key) is None,
        forall|other: Seq<char>| other != key ==> pair_of(remove_pair(ps, key), other) == pair_of(ps, other),
{
    let r = remove_pair(ps, key);
    if has_pair(ps, key) {
        let k = pair_index(ps, key);
        assert forall|i: int| 0 <= i < r.len() implies #[trigger] r[i] == (if i < k { ps[i] } else { ps[i + 1] }) by {}
        assert(keys_unique(r)) by {
            assert forall|i: int, j: int|
                0 <= i < r.len() && 0 <= j < r.len() && #[trigger] r[i].0 == #[trigger] r[j].0 implies i == j by {
                let ii = if i < k { i } else { i + 1 };
                let jj = if j < k { j } else { j + 1 };
                assert(ps[ii].0 == ps[jj].0);
            }
        }
        assert(!has_pair(r, key)) by {
            if has_pair(r, key) {
                let m = pair_index(r, key);
                let mm = if m < k { m } else { m + 1 };
                assert(ps[mm].0 == ps[k].0);
            }
        }
        assert forall|other: Seq<char>| other != key implies pair_of(r, other) == pair_of(ps, other) by {
            if has_pair(ps, other) {
                let m = pair_index(ps, other);
                assert(m != k);
                let mr = if m < k { m } else { m - 1 };
                assert(r[mr] == ps[m]);
                lemma_pair_index(r, mr);
            }
            if has_pair(r, other) {
                let m = pair_index(r, other);
                let mm = if m < k { m } else { m + 1 };
                assert(ps[mm] == r[m]);
            }
        }
    }
}


// ---------------------------------------------------------------------------
// The state
// ---------------------------------------------------------------------------

/// The registry and pairing of the signaling server.
pub struct AppState {
    clients: Vec<Client>,
    pair_map: Vec<(String, String)>,
    debug: bool,
    keep_alive: bool,
}

pub struct StateView {
    pub clients: Seq<ClientView>,
    pub pairs: Seq<(Seq<char>, Seq<char>)>,
    pub debug: bool,
    pub keep_alive: bool,
}

impl StateView {
    /// Session ids are registered and paired at most once each.
    pub open spec fn wf(self) -> bool {
        ids_unique(self.clients) && keys_unique(self.pairs)
    }

    pub open spec fn with_clients(self, cs: Seq<ClientView>) -> StateView {
        StateView { clients: cs, ..self }
    }

    pub open spec fn with_pairs(self, ps: Seq<(Seq<char>, Seq<char>)>) -> StateView {
        StateView { pairs: ps, ..self }
    }
}

pub open spec fn clients_view(v: Seq<Client>) -> Seq<ClientView> {
    v.map_values(|c: Client| c@)
}

pub open spec fn pairs_view(v: Seq<(String, String)>) -> Seq<(Seq<char>, Seq<char>)> {
    v.map_values(|p: (String, String)| (p.0@, p.1@))
}

impl View for AppState {
    type V = StateView;

    closed spec fn view(&self) -> StateView {
        StateView {
            clients: clients_view(self.clients@),
            pairs: pairs_view(self.pair_map@),
            debug: self.debug,
            keep_alive: self.keep_alive,
        }
    }
}

impl AppState {
    /// Session ids are registered and paired at most once each, always.
    #[verifier::type_invariant]
    pub open spec fn well_formed(self) -> bool {
        self@.wf()
    }

    /// Whether the content of incoming messages is logged.
    pub fn debug(&self) -> (res: bool)
        ensures
            res == self@.debug,
    {
        self.debug
    }

    /// Whether the server keeps idle sessions registered (runs no sweep).
    pub fn keep_alive(&self) -> (res: bool)
        ensures
            res == self@.keep_alive,
    {
        self.keep_alive
    }

    /// An empty registry with the given settings.
    pub fn new(debug: bool, keep_alive: bool) -> (res: AppState)
        ensures
            res@.clients == Seq::<ClientView>::empty(),
            res@.pairs == Seq::<(Seq<char>, Seq<char>)>::empty(),
            res@.debug == debug,
            res@.keep_alive == keep_alive,
            res@.wf(),
    {
        let res = AppState { clients: Vec::new(), pair_map: Vec::new(), debug, keep_alive };
        assert(res@.clients =~= Seq::<ClientView>::empty());
        assert(res@.pairs =~= Seq::<(Seq<char>, Seq<char>)>::empty());
        res
    }

    /// The index of the client registered under `id`.
    pub(crate) fn find_client(&self, id: &String) -> (res: Option<usize>)
        ensures
            match res {
                Some(i) => i < self@.clients.len() && has_client(self@.clients, id@) && i == client_index(
                    self@.clients,
                    id@,
                ) && self@.clients[i as int].session_id == id@,
                None => !has_client(self@.clients, id@),
            },
    {
        proof {
            use_type_invariant(&*self);
        }
        let ghost cs = self@.clients;
        let n = self.clients.len();
        let mut i: usize = 0;
        while i < n
            invariant
                n == self.clients.len(),
                cs == self@.clients,
                cs == clients_view(self.clients@),
                self@.wf(),
                i <= n,
                forall|j: int| 0 <= j < i ==> cs[j].session_id != id@,
            decreases n - i,
        {
            if self.clients[i].session_id == *id {
                proof {
                    assert(cs[i as int] == self.clients@[i as int]@);
                    lemma_client_index(cs, i as int);
                }
                return Some(i);
            }
            assert(cs[i as int] == self.clients@[i as int]@);
            i = i + 1;
        }
        assert(!has_client(cs, id@)) by {
            if has_client(cs, id@) {
                let k = client_index(cs, id@);
                assert(cs[k].session_id == id@);
            }
        }
        None
    }

    /// Registers a client, replacing one registered under the same id.
    pub(crate) fn put_client(&mut self, c: Client)
        ensures
            final(self)@ == old(self)@.with_clients(upsert_client(old(self)@.clients, c@)),
    {
        proof {
            use_type_invariant(&*self);
            lemma_upsert_client(self@.clients, c@);
        }
        let ghost cv = c@;
        let ghost old_cs = self@.clients;
        let found = self.find_client(&c.session_id);
        let mut cs = self.detach_clients();
        match found {
            Some(i) => {
                cs.set(i, c);
                assert(clients_view(cs@) =~= old_cs.update(i as int, cv));
            },
            None => {
                cs.push(c);
                assert(clients_view(cs@) =~= old_cs.push(cv));
            },
        }
        self.clients = cs;
    }

    /// Takes the client list out, leaving it empty.
    fn detach_clients(&mut self) -> (res: Vec<Client>)
        ensures
            res@ == old(self).clients@,
            final(self)@ == old(self)@.with_clients(Seq::empty()),
    {
        proof {
            use_type_invariant(&*self);
        }
        let mut cs: Vec<Client> = Vec::new();
        std::mem::swap(&mut cs, &mut self.clients);
        assert(self@.clients =~= Seq::<ClientView>::empty());
        cs
    }

    /// Takes the pairings out, leaving none.
    fn detach_pairs(&mut self) -> (res: Vec<(String, String)>)
        ensures
            res@ == old(self).pair_map@,
            final(self)@ == old(self)@.with_pairs(Seq::empty()),
    {
        proof {
            use_type_invariant(&*self);
        }
        let mut ps: Vec<(String, String)> = Vec::new();
        std::mem::swap(&mut ps, &mut self.pair_map);
        assert(self@.pairs =~= Seq::<(Seq<char>, Seq<char>)>::empty());
        ps
    }

    /// Unregisters the client with the given id and hands it back.
    pub(crate) fn take_client(&mut self, id: &String) -> (res: Option<Client>)
        ensures
            final(self)@ == old(self)@.with_clients(remove_client(old(self)@.clients, id@)),
            match res {
                Some(c) => client_of(old(self)@.clients, id@) == Some(c@),
                None => client_of(old(self)@.clients, id@) is None,
            },
    {
        proof {
            use_type_invariant(&*self);
            lemma_remove_client(self@.clients, id@);
        }
        let ghost old_cs = self@.clients;
        match self.find_client(id) {
            Some(i) => {
                let mut cs = self.detach_clients();
                let c = cs.remove(i);
                assert(clients_view(cs@) =~= old_cs.remove(i as int));
                self.clients = cs;
                Some(c)
            },
            None => None,
        }
    }

    /// The index of the pairing of `key`.
    pub(crate) fn find_pair(&self, key: &String) -> (res: Option<usize>)
        ensures
            match res {
                Some(i) => i < self@.pairs.len() && has_pair(self@.pairs, key@) && i == pair_index(
                    self@.pairs,
                    key@,
                ) && self@.pairs[i as int].0 == key@,
                None => !has_pair(self@.pairs, key@),
            },
    {
        proof {
            use_type_invariant(&*self);
        }
        let ghost ps = self@.pairs;
        let n = self.pair_map.len();
        let mut i: usize = 0;
        while i < n
            invariant
                n == self.pair_map.len(),
                ps == self@.pairs,
                ps == pairs_view(self.pair_map@),
                self@.wf(),
                i <= n,
                forall|j: int| 0 <= j < i ==> ps[j].0 != key@,
            decreases n - i,
        {
            if self.pair_map[i].0 == *key {
                proof {
                    lemma_pair_index(ps, i as int);
                }
                return Some(i);
            }
            i = i + 1;
        }
        assert(!has_pair(ps, key@)) by {
            if has_pair(ps, key@) {
                let k = pair_index(ps, key@);
                assert(ps[k].0 == key@);
            }
        }
        None
    }

    /// Pairs `key` with `target`, replacing an earlier pairing of `key`.
    pub(crate) fn put_pair(&mut self, key: String, target: String)
        ensures
            final(self)@ == old(self)@.with_pairs(upsert_pair(old(self)@.pairs, key@, target@)),
    {
        proof {
            use_type_invariant(&*self);
            lemma_upsert_pair(self@.pairs, key@, target@);
        }
        let ghost old_ps = self@.pairs;
        let ghost entry = (key@, target@);
        let found = self.find_pair(&key);
        let mut ps = self.detach_pairs();
        match found {
            Some(i) => {
                ps.set(i, (key, target));
                assert(pairs_view(ps@) =~= old_ps.update(i as int, entry));
            },
            None => {
                ps.push((key, target));
                assert(pairs_view(ps@) =~= old_ps.push(entry));
            },
        }
        self.pair_map = ps;
    }

    /// Drops the pairing of `key` and hands back the peer it named.
    pub(crate) fn take_pair(&mut self, key: &String) -> (res: Option<String>)
        ensures
            final(self)@ == old(self)@.with_pairs(remove_pair(old(self)@.pairs, key@)),
            opt_view(res) == pair_of(old(self)@.pairs, key@),
    {
        proof {
            use_type_invariant(&*self);
            lemma_remove_pair(self@.pairs, key@);
        }
        let ghost old_ps = self@.pairs;
        match self.find_pair(key) {
            Some(i) => {
                let mut ps = self.detach_pairs();
                let p = ps.remove(i);
                assert(pairs_view(ps@) =~= old_ps.remove(i as int));
                self.pair_map = ps;
                Some(p.1)
            },
            None => None,
        }
    }

    /// The peer that `key` is paired with.
    pub fn pair_target(&self, key: &String) -> (res: Option<String>)
        ensures
            opt_view(res) == pair_of(self@.pairs, key@),
    {
        proof {
            use_type_invariant(&*self);
        }
        match self.find_pair(key) {
            Some(i) => Some(self.pair_map[i].1.clone()),
            None => None,
        }
    }

    /// Whether a client is registered under `id`.
    pub fn is_registered(&self, id: &String) -> (res: bool)
        ensures
            res == has_client(self@.clients, id@),
    {
        proof {
            use_type_invariant(&*self);
        }
        self.find_client(id).is_some()
    }

    /// The number of registered clients.
    pub fn client_count(&self) -> (res: usize)
        ensures
            res == self@.clients.len(),
    {
        self.clients.len()
    }

    /// Records activity of the client registered under `id`.
    pub(crate) fn touch(&mut self, id: &String, now: u64)
        ensures
            final(self)@ == old(self)@.with_clients(touch_clients(old(self)@.clients, id@, now)),
    {
        proof {
            use_type_invariant(&*self);
        }
        let ghost old_cs = self@.clients;
        match self.find_client(id) {
            Some(i) => {
                proof {
                    lemma_client_index(old_cs, i as int);
                }
                let mut cs = self.detach_clients();
                cs[i].last_active = now;
                assert(clients_view(cs@) =~= touch_clients(old_cs, id@, now));
                assert(ids_unique(clients_view(cs@))) by {
                    let v = clients_view(cs@);
                    assert forall|a: int, b: int|
                        0 <= a < v.len() && 0 <= b < v.len() && #[trigger] v[a].session_id
                            == #[trigger] v[b].session_id implies a == b by {
                        assert(old_cs[a].session_id == old_cs[b].session_id);
                    }
                }
                self.clients = cs;
            },
            None => {},
        }
    }

    /// Records the platform and GPU of the client registered under `id` and
    /// hands back its subject claim.
    pub(crate) fn record_platform(&mut self, id: &String, platform: Option<String>, gpu: Option<String>) -> (res:
        Option<String>)
        ensures
            final(self)@ == old(self)@.with_clients(
                set_platform(old(self)@.clients, id@, opt_view(platform), opt_view(gpu)),
            ),
            opt_view(res) == sub_of(old(self)@.clients, id@),
    {
        proof {
            use_type_invariant(&*self);
        }
        let ghost old_cs = self@.clients;
        let ghost pv = opt_view(platform);
        let ghost gv = opt_view(gpu);
        match self.find_client(id) {
            Some(i) => {
                proof {
                    lemma_client_index(old_cs, i as int);
                }
                let mut cs = self.detach_clients();
                cs[i].platform = platform;
                cs[i].gpu = gpu;
                let sub = copy_opt(&cs[i].auth.sub);
                assert(clients_view(cs@) =~= set_platform(old_cs, id@, pv, gv));
                assert(ids_unique(clients_view(cs@))) by {
                    let v = clients_view(cs@);
                    assert forall|a: int, b: int|
                        0 <= a < v.len() && 0 <= b < v.len() && #[trigger] v[a].session_id
                            == #[trigger] v[b].session_id implies a == b by {
                        assert(old_cs[a].session_id == old_cs[b].session_id);
                    }
                }
                self.clients = cs;
                sub
            },
            None => None,
        }
    }

    /// The subject claim of the client registered under `id`.
    pub(crate) fn client_sub(&self, id: &String) -> (res: Option<String>)
        ensures
            opt_view(res) == sub_of(self@.clients, id@),
    {
        proof {
            use_type_invariant(&*self);
        }
        match self.find_client(id) {
            Some(i) => {
                proof {
                    lemma_client_index(self@.clients, i as int);
                }
                copy_opt(&self.clients[i].auth.sub)
            },
            None => None,
        }
    }

    /// The session id, type and subject claim of the client at position `i`.
    pub(crate) fn client_key(&self, i: usize) -> (res: (String, ClientType, Option<String>))
        requires
            i < self@.clients.len(),
        ensures
            res.0@ == self@.clients[i as int].session_id,
            res.1 == self@.clients[i as int].protocol,
            opt_view(res.2) == self@.clients[i as int].auth.sub,
    {
        let c = &self.clients[i];
        (c.session_id.clone(), c.protocol, copy_opt(&c.auth.sub))
    }

    /// Whether a client of type `protocol` is registered under `id`.
    pub fn find_client_sender(&self, protocol: ClientType, id: &String) -> (res: bool)
        ensures
            res == has_peer(self@.clients, protocol, id@),
    {
        proof {
            use_type_invariant(&*self);
        }
        match self.find_client(id) {
            Some(i) => {
                proof {
                    lemma_client_index(self@.clients, i as int);
                }
                self.clients[i].protocol == protocol
            },
            None => false,
        }
    }

    /// The session ids of the clients idle for longer than the timeout at
    /// `now`, in registration order.
    pub(crate) fn idle_sessions(&self, now: u64) -> (res: Vec<String>)
        ensures
            res@.map_values(|s: String| s@) == inactive_ids(self@.clients, now),
    {
        let ghost cs = self@.clients;
        let n = self.clients.len();
        let mut res: Vec<String> = Vec::new();
        let mut i: usize = 0;
        while i < n
            invariant
                n == self.clients.len(),
                cs == clients_view(self.clients@),
                i <= n,
                res@.map_values(|s: String| s@) == inactive_ids(cs.take(i as int), now),
            decreases n - i,
        {
            let c = &self.clients[i];
            assert(cs.take(i + 1).drop_last() =~= cs.take(i as int));
            assert(cs.take(i + 1).last() == c@);
            let idle = if now >= c.last_active {
                (now - c.last_active) / NANOS_PER_SEC > INACTIVE_TIMEOUT_SECS
            } else {
                false
            };
            if idle {
                let ghost before = res@;
                res.push(c.session_id.clone());
                assert(res@.map_values(|s: String| s@) =~= before.map_values(|s: String| s@).push(
                    c.session_id@,
                ));
            }
            i = i + 1;
        }
        assert(cs.take(n as int) =~= cs);
        res
    }

    /// Unregisters every client idle for longer than the timeout at `now`.
    pub(crate) fn drop_idle_clients(&mut self, now: u64)
        ensures
            final(self)@ == old(self)@.with_clients(active_clients(old(self)@.clients, now)),
    {
        proof {
            use_type_invariant(&*self);
        }
        let ghost cs = self@.clients;
        let mut rest = self.detach_clients();
        let mut kept: Vec<Client> = Vec::new();
        // Walk the old clients from the front: `rest` is reversed once so
        // that popping yields them in registration order.
        let mut rev: Vec<Client> = Vec::new();
        let n = rest.len();
        let mut j: usize = 0;
        while j < n
            invariant
                n == clients_view(rest@).len() + j,
                clients_view(rest@) == cs.take(n - j),
                cs.len() == n,
                rev@.len() == j,
                forall|k: int| 0 <= k < j ==> #[trigger] rev@[k]@ == cs[n - 1 - k],
            decreases n - j,
        {
            let ghost before = rest@;
            assert(clients_view(before)[n - j - 1] == cs[n - 1 - j]);
            let c = rest.pop().unwrap();
            assert(c == before[n - j - 1]);
            assert(clients_view(rest@) =~= cs.take(n - j - 1));
            rev.push(c);
            j = j + 1;
        }
        let mut i: usize = 0;
        while i < n
            invariant
                rev@.len() == n - i,
                cs.len() == n,
                i <= n,
                forall|k: int| 0 <= k < n - i ==> #[trigger] rev@[k]@ == cs[n - 1 - k],
                clients_view(kept@) == active_clients(cs.take(i as int), now),
            decreases n - i,
        {
            let c = rev.pop().unwrap();
            assert(c@ == cs[i as int]);
            assert(cs.take(i + 1).drop_last() =~= cs.take(i as int));
            assert(cs.take(i + 1).last() == cs[i as int]);
            let idle = if now >= c.last_active {
                (now - c.last_active) / NANOS_PER_SEC > INACTIVE_TIMEOUT_SECS
            } else {
                false
            };
            if !idle {
                let ghost before = kept@;
                let ghost cv = c@;
                kept.push(c);
                assert(clients_view(kept@) =~= clients_view(before).push(cv));
            }
            i = i + 1;
        }
        assert(cs.take(n as int) =~= cs);
        proof {
            lemma_active_clients_sub(cs, now);
        }
        self.clients = kept;
    }

    /// The senders that receivers are told of under a subject filter, in
    /// registration order.
    pub fn get_senders(&self, filter_sub: &Option<String>) -> (res: Vec<SenderInfo>)
        ensures
            infos_view(res@) == sender_infos(self@.clients, opt_view(*filter_sub)),
    {
        let ghost cs = self@.clients;
        let ghost f = opt_view(*filter_sub);
        let n = self.clients.len();
        let mut res: Vec<SenderInfo> = Vec::new();
        let mut i: usize = 0;
        while i < n
            invariant
                n == self.clients.len(),
                cs == clients_view(self.clients@),
                f == opt_view(*filter_sub),
                i <= n,
                infos_view(res@) == sender_infos(cs.take(i as int), f),
            decreases n - i,
        {
            let c = &self.clients[i];
            assert(cs.take(i + 1).drop_last() =~= cs.take(i as int));
            assert(cs.take(i + 1).last() == c@);
            let take = c.protocol == ClientType::Sender && match filter_sub {
                Some(sub) => match &c.auth.sub {
                    Some(s) => *s == *sub,
                    None => false,
                },
                None => true,
            };
            if take {
                let ghost before = res@;
                res.push(
                    SenderInfo {
                        id: c.session_id.clone(),
                        platform: copy_opt(&c.platform),
                        gpu: copy_opt(&c.gpu),
                        sub: copy_opt(&c.auth.sub),
                        email: copy_opt(&c.auth.email),
                        name: copy_opt(&c.auth.name),
                    },
                );
                assert(infos_view(res@) =~= infos_view(before).push(sender_info_of(c@)));
            }
            i = i + 1;
        }
        assert(cs.take(n as int) =~= cs);
        res
    }
}

} // verus!
