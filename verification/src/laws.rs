//! Properties of the signaling rules that hold across all inputs, stated
//! over the step specifications that the executable steps are proved to
//! follow.

use vstd::prelude::*;
use vstd::multiset::Multiset;
use crate::protocol::{ClientType, protocol_of_name};
use crate::text::{all_ascii, ascii_lowercase};
use crate::registry::{
    AuthView, ClientView, StateView, SenderInfoView, sender_infos, sender_info_of, listed, has_client,
    client_of, client_index, ids_unique, keys_unique, has_peer, upsert_client, remove_client,
    touch_clients, set_platform, pair_of, remove_pair, unpair, unpair_all,
    inactive_ids, active_clients, is_inactive, elapsed_secs, INACTIVE_TIMEOUT_SECS, NANOS_PER_SEC,
    SWEEP_PERIOD_SECS, lemma_client_index, lemma_upsert_client,
    lemma_remove_client, lemma_upsert_pair, lemma_remove_pair, lemma_active_clients_sub,
};
use crate::relay::{
    OutView, NoticeView, connect_spec, message_spec, disconnect_spec, sweep_spec, notify_spec,
    sender_list_notices, receives_list, target_of,
};
use crate::json::EnvelopeView;
use crate::static_files::{relative_file, trim_leading_slashes};

verus! {

// ---------------------------------------------------------------------------
// Client types
// ---------------------------------------------------------------------------

/// The name of each client type is ASCII and reads back as that type.
pub proof fn law_protocol_name_round_trip(ct: ClientType)
    ensures
        all_ascii(ct.name()),
        protocol_of_name(ascii_lowercase(ct.name())) == Some(ct),
{
    let n = ct.name();
    assert(ascii_lowercase(n) =~= n);
    match ct {
        ClientType::Sender => {
            assert(n != crate::protocol::receiver_name());
        },
        ClientType::Receiver => {
            assert(n[0] != crate::protocol::sender_name()[0]);
        },
    }
}

/// Each client type talks to the other one.
pub proof fn law_peer_is_other_type(ct: ClientType)
    ensures
        ct.peer() != ct,
        ct.peer().peer() == ct,
{
}

// ---------------------------------------------------------------------------
// Helpers over the registry model
// ---------------------------------------------------------------------------

/// Two client lists with the same ids position by position.
pub open spec fn same_ids(a: Seq<ClientView>, b: Seq<ClientView>) -> bool {
    &&& a.len() == b.len()
    &&& forall|j: int| 0 <= j < a.len() ==> #[trigger] a[j].session_id == b[j].session_id
}

proof fn lemma_same_ids(a: Seq<ClientView>, b: Seq<ClientView>)
    requires
        same_ids(a, b),
    ensures
        ids_unique(a) == ids_unique(b),
        forall|id: Seq<char>| has_client(a, id) == has_client(b, id),
{
    assert forall|id: Seq<char>| has_client(a, id) == has_client(b, id) by {
        if has_client(a, id) {
            let k = client_index(a, id);
            assert(b[k].session_id == id);
        }
        if has_client(b, id) {
            let k = client_index(b, id);
            assert(a[k].session_id == id);
        }
    }
    if ids_unique(a) {
        assert forall|i: int, j: int|
            0 <= i < b.len() && 0 <= j < b.len() && #[trigger] b[i].session_id == #[trigger] b[j].session_id implies i
            == j by {
            assert(a[i].session_id == a[j].session_id);
        }
    }
    if ids_unique(b) {
        assert forall|i: int, j: int|
            0 <= i < a.len() && 0 <= j < a.len() && #[trigger] a[i].session_id == #[trigger] a[j].session_id implies i
            == j by {
            assert(b[i].session_id == b[j].session_id);
        }
    }
}

proof fn lemma_touch_same_ids(cs: Seq<ClientView>, id: Seq<char>, now: u64)
    ensures
        same_ids(cs, touch_clients(cs, id, now)),
{
}

proof fn lemma_platform_same_ids(cs: Seq<ClientView>, id: Seq<char>, p: Option<Seq<char>>, g: Option<Seq<char>>)
    ensures
        same_ids(cs, set_platform(cs, id, p, g)),
{
}

/// The recipient of each sender-list notice: a receiver of the filter's
/// subject.
proof fn lemma_sender_list_recipient(cs: Seq<ClientView>, f: Option<Seq<char>>, senders: Seq<SenderInfoView>, k: int) -> (i: int)
    requires
        0 <= k < sender_list_notices(cs, f, senders).len(),
    ensures
        0 <= i < cs.len(),
        cs[i].session_id == sender_list_notices(cs, f, senders)[k].to,
        receives_list(cs[i], f),
        sender_list_notices(cs, f, senders)[k].notice == (NoticeView::SenderList { senders }),
    decreases cs.len(),
{
    let init = cs.drop_last();
    let r = sender_list_notices(init, f, senders);
    if k < r.len() {
        let i = lemma_sender_list_recipient(init, f, senders, k);
        assert(cs[i] == init[i]);
        i
    } else {
        let i = cs.len() - 1;
        assert(cs[i] == cs.last());
        i
    }
}

/// Each listed sender is a registered client listed under the filter.
proof fn lemma_sender_infos_listed(cs: Seq<ClientView>, f: Option<Seq<char>>)
    ensures
        forall|k: int|
            #![trigger sender_infos(cs, f)[k]]
            0 <= k < sender_infos(cs, f).len() ==> exists|i: int|
                0 <= i < cs.len() && listed(cs[i], f) && #[trigger] sender_info_of(cs[i]) == sender_infos(cs, f)[k],
    decreases cs.len(),
{
    if cs.len() > 0 {
        let init = cs.drop_last();
        lemma_sender_infos_listed(init, f);
        let r = sender_infos(init, f);
        let out = sender_infos(cs, f);
        assert forall|k: int| #![trigger out[k]] 0 <= k < out.len() implies exists|i: int|
            0 <= i < cs.len() && listed(cs[i], f) && #[trigger] sender_info_of(cs[i]) == out[k] by {
            if k < r.len() {
                assert(out[k] == r[k]);
                let i = choose|i: int| 0 <= i < init.len() && listed(init[i], f) && #[trigger] sender_info_of(init[i]) == r[k];
                assert(cs[i] == init[i]);
            } else {
                let i = cs.len() - 1;
                assert(cs[i] == cs.last());
            }
        }
    }
}

/// Sender-list notices go to registered clients.
proof fn lemma_notify_to_registered(cs: Seq<ClientView>, f: Option<Seq<char>>)
    ensures
        forall|k: int| 0 <= k < notify_spec(cs, f).len() ==> has_client(cs, #[trigger] notify_spec(cs, f)[k].to),
{
    assert forall|k: int| 0 <= k < notify_spec(cs, f).len() implies has_client(cs, #[trigger] notify_spec(cs, f)[k].to) by {
        let i = lemma_sender_list_recipient(cs, f, sender_infos(cs, f), k);
    }
}

proof fn lemma_unpair_keeps_keys_unique(ps: Seq<(Seq<char>, Seq<char>)>, id: Seq<char>)
    requires
        keys_unique(ps),
    ensures
        keys_unique(unpair(ps, id)),
        pair_of(unpair(ps, id), id) is None,
        pair_of(ps, id) matches Some(t) ==> pair_of(unpair(ps, id), t) is None,
{
    lemma_remove_pair(ps, id);
    match pair_of(ps, id) {
        Some(t) => {
            lemma_remove_pair(remove_pair(ps, id), t);
        },
        None => {},
    }
}

proof fn lemma_unpair_all_keeps_keys_unique(ps: Seq<(Seq<char>, Seq<char>)>, ids: Seq<Seq<char>>)
    requires
        keys_unique(ps),
    ensures
        keys_unique(unpair_all(ps, ids)),
    decreases ids.len(),
{
    if ids.len() > 0 {
        lemma_unpair_all_keeps_keys_unique(ps, ids.drop_last());
        lemma_unpair_keeps_keys_unique(unpair_all(ps, ids.drop_last()), ids.last());
    }
}

// ---------------------------------------------------------------------------
// Every step keeps the registry well formed
// ---------------------------------------------------------------------------

/// Connecting keeps every session id registered and paired at most once.
pub proof fn law_connect_keeps_wf(s: StateView, id: Seq<char>, protocol: ClientType, auth: AuthView, now: u64)
    requires
        s.wf(),
    ensures
        connect_spec(s, id, protocol, auth, now).0.wf(),
{
    let c = ClientView { session_id: id, protocol, last_active: now, platform: None, gpu: None, auth };
    lemma_upsert_client(s.clients, c);
}

/// Handling a message keeps every session id registered and paired at most
/// once.
pub proof fn law_message_keeps_wf(
    s: StateView,
    id: Seq<char>,
    protocol: ClientType,
    raw: Seq<char>,
    parsed: Result<EnvelopeView, Seq<char>>,
    now: u64,
)
    requires
        s.wf(),
    ensures
        message_spec(s, id, protocol, raw, parsed, now).0.wf(),
{
    let cs1 = touch_clients(s.clients, id, now);
    lemma_touch_same_ids(s.clients, id, now);
    lemma_same_ids(s.clients, cs1);
    match parsed {
        Ok(env) => {
            lemma_platform_same_ids(cs1, id, env.platform, env.gpu);
            lemma_same_ids(cs1, set_platform(cs1, id, env.platform, env.gpu));
            match target_of(env, protocol) {
                Some(t) => {
                    lemma_upsert_pair(s.pairs, id, t);
                },
                None => {},
            }
        },
        Err(_) => {},
    }
}

/// Leaving keeps every session id registered and paired at most once.
pub proof fn law_disconnect_keeps_wf(s: StateView, id: Seq<char>, protocol: ClientType)
    requires
        s.wf(),
    ensures
        disconnect_spec(s, id, protocol).0.wf(),
{
    lemma_remove_client(s.clients, id);
    lemma_unpair_keeps_keys_unique(s.pairs, id);
}

/// The idle sweep keeps every session id registered and paired at most once.
pub proof fn law_sweep_keeps_wf(s: StateView, now: u64)
    requires
        s.wf(),
    ensures
        sweep_spec(s, now).0.wf(),
{
    lemma_active_clients_sub(s.clients, now);
    lemma_unpair_all_keeps_keys_unique(s.pairs, inactive_ids(s.clients, now));
}

// ---------------------------------------------------------------------------
// Registration and pairing
// ---------------------------------------------------------------------------

/// After connecting, the session is registered with its type and claims,
/// no platform yet, active at the connection time; every other session and
/// every pairing are unchanged.
pub proof fn law_connect_registers(s: StateView, id: Seq<char>, protocol: ClientType, auth: AuthView, now: u64)
    requires
        s.wf(),
    ensures
        client_of(connect_spec(s, id, protocol, auth, now).0.clients, id) == Some(
            ClientView { session_id: id, protocol, last_active: now, platform: None, gpu: None, auth },
        ),
        forall|other: Seq<char>|
            other != id ==> client_of(connect_spec(s, id, protocol, auth, now).0.clients, other) == client_of(
                s.clients,
                other,
            ),
        connect_spec(s, id, protocol, auth, now).0.pairs == s.pairs,
{
    let c = ClientView { session_id: id, protocol, last_active: now, platform: None, gpu: None, auth };
    lemma_upsert_client(s.clients, c);
}

/// A fresh session that connects and then leaves, without having been
/// paired, leaves the state as it found it.
pub proof fn law_connect_then_disconnect(s: StateView, id: Seq<char>, protocol: ClientType, auth: AuthView, now: u64)
    requires
        s.wf(),
        !has_client(s.clients, id),
        pair_of(s.pairs, id) is None,
    ensures
        disconnect_spec(connect_spec(s, id, protocol, auth, now).0, id, protocol).0 == s,
{
    let c = ClientView { session_id: id, protocol, last_active: now, platform: None, gpu: None, auth };
    let cs = upsert_client(s.clients, c);
    assert(cs == s.clients.push(c));
    lemma_upsert_client(s.clients, c);
    let k = s.clients.len() as int;
    assert(cs[k].session_id == id);
    lemma_client_index(cs, k);
    assert(remove_client(cs, id) =~= s.clients);
}

/// A message that names an addressee pairs its sender with it, whether or
/// not the addressee is registered; other pairings are unchanged.
pub proof fn law_message_pairs_sender(
    s: StateView,
    id: Seq<char>,
    protocol: ClientType,
    raw: Seq<char>,
    env: EnvelopeView,
    now: u64,
    t: Seq<char>,
)
    requires
        s.wf(),
        !(env.msg_type == Some(110u64) && protocol == ClientType::Sender),
        target_of(env, protocol) == Some(t),
    ensures
        pair_of(message_spec(s, id, protocol, raw, Ok(env), now).0.pairs, id) == Some(t),
        forall|other: Seq<char>|
            other != id ==> pair_of(message_spec(s, id, protocol, raw, Ok(env), now).0.pairs, other) == pair_of(
                s.pairs,
                other,
            ),
{
    lemma_upsert_pair(s.pairs, id, t);
}

/// After leaving, a session is neither registered nor paired, and the peer
/// it was paired with is no longer paired either.
pub proof fn law_disconnect_unpairs(s: StateView, id: Seq<char>, protocol: ClientType)
    requires
        s.wf(),
    ensures
        !has_client(disconnect_spec(s, id, protocol).0.clients, id),
        pair_of(disconnect_spec(s, id, protocol).0.pairs, id) is None,
        pair_of(s.pairs, id) matches Some(t) ==> pair_of(disconnect_spec(s, id, protocol).0.pairs, t) is None,
{
    lemma_remove_client(s.clients, id);
    lemma_unpair_keeps_keys_unique(s.pairs, id);
}

/// After the idle sweep, every registered client is active, every client
/// that was active is still registered unchanged, and no swept session is
/// registered.
pub proof fn law_sweep_keeps_exactly_active(s: StateView, now: u64)
    requires
        s.wf(),
    ensures
        forall|i: int|
            0 <= i < sweep_spec(s, now).0.clients.len() ==> !is_inactive(
                #[trigger] sweep_spec(s, now).0.clients[i],
                now,
            ),
        forall|i: int|
            0 <= i < s.clients.len() && !is_inactive(#[trigger] s.clients[i], now) ==> client_of(
                sweep_spec(s, now).0.clients,
                s.clients[i].session_id,
            ) == Some(s.clients[i]),
        forall|k: int|
            0 <= k < sweep_spec(s, now).1.len() ==> !has_client(
                sweep_spec(s, now).0.clients,
                #[trigger] sweep_spec(s, now).1[k],
            ),
{
    lemma_active_clients_sub(s.clients, now);
    lemma_active_contains(s.clients, now);
    let a = active_clients(s.clients, now);
    let ids = inactive_ids(s.clients, now);
    assert forall|i: int| 0 <= i < s.clients.len() && !is_inactive(#[trigger] s.clients[i], now) implies client_of(
        a,
        s.clients[i].session_id,
    ) == Some(s.clients[i]) by {
        let j = choose|j: int| 0 <= j < a.len() && #[trigger] a[j] == s.clients[i];
        lemma_client_index(a, j);
    }
    assert forall|k: int| 0 <= k < ids.len() implies !has_client(a, #[trigger] ids[k]) by {
        lemma_swept_not_kept(s.clients, now, k);
    }
}

proof fn lemma_swept_not_kept(cs: Seq<ClientView>, now: u64, k: int)
    requires
        ids_unique(cs),
        0 <= k < inactive_ids(cs, now).len(),
    ensures
        !has_client(active_clients(cs, now), inactive_ids(cs, now)[k]),
{
    lemma_active_clients_sub(cs, now);
    let a = active_clients(cs, now);
    let id = inactive_ids(cs, now)[k];
    let j = lemma_inactive_id_source(cs, now, k);
    if has_client(a, id) {
        let m = client_index(a, id);
        assert(a[m].session_id == id);
        let jj = choose|jj: int| 0 <= jj < cs.len() && #[trigger] cs[jj] == a[m];
        assert(cs[jj].session_id == cs[j].session_id);
        assert(!is_inactive(a[m], now));
    }
}

proof fn lemma_unpair_keeps_unpaired(ps: Seq<(Seq<char>, Seq<char>)>, id: Seq<char>, x: Seq<char>)
    requires
        keys_unique(ps),
        pair_of(ps, x) is None,
    ensures
        pair_of(unpair(ps, id), x) is None,
{
    lemma_remove_pair(ps, id);
    match pair_of(ps, id) {
        Some(t) => {
            lemma_remove_pair(remove_pair(ps, id), t);
        },
        None => {},
    }
}

proof fn lemma_unpair_all_clears(ps: Seq<(Seq<char>, Seq<char>)>, ids: Seq<Seq<char>>, k: int)
    requires
        keys_unique(ps),
        0 <= k < ids.len(),
    ensures
        pair_of(unpair_all(ps, ids), ids[k]) is None,
    decreases ids.len(),
{
    let init = ids.drop_last();
    let p = unpair_all(ps, init);
    lemma_unpair_all_keeps_keys_unique(ps, init);
    if k < init.len() {
        lemma_unpair_all_clears(ps, init, k);
        assert(init[k] == ids[k]);
        lemma_unpair_keeps_unpaired(p, ids.last(), ids[k]);
    } else {
        lemma_unpair_keeps_keys_unique(p, ids.last());
    }
}

/// After the idle sweep, no swept session is paired.
pub proof fn law_sweep_unpairs_swept(s: StateView, now: u64)
    requires
        s.wf(),
    ensures
        forall|k: int|
            0 <= k < sweep_spec(s, now).1.len() ==> pair_of(
                sweep_spec(s, now).0.pairs,
                #[trigger] sweep_spec(s, now).1[k],
            ) is None,
{
    assert forall|k: int| 0 <= k < sweep_spec(s, now).1.len() implies pair_of(
        sweep_spec(s, now).0.pairs,
        #[trigger] sweep_spec(s, now).1[k],
    ) is None by {
        lemma_unpair_all_clears(s.pairs, inactive_ids(s.clients, now), k);
    }
}

/// Every active client is kept by the sweep.
proof fn lemma_active_contains(cs: Seq<ClientView>, now: u64)
    ensures
        forall|i: int|
            0 <= i < cs.len() && !is_inactive(#[trigger] cs[i], now) ==> exists|j: int|
                0 <= j < active_clients(cs, now).len() && #[trigger] active_clients(cs, now)[j] == cs[i],
    decreases cs.len(),
{
    if cs.len() > 0 {
        let init = cs.drop_last();
        lemma_active_contains(init, now);
        let r = active_clients(init, now);
        let a = active_clients(cs, now);
        assert forall|i: int| 0 <= i < cs.len() && !is_inactive(#[trigger] cs[i], now) implies exists|j: int|
            0 <= j < a.len() && #[trigger] a[j] == cs[i] by {
            if i < cs.len() - 1 {
                assert(init[i] == cs[i]);
                let j = choose|j: int| 0 <= j < r.len() && #[trigger] r[j] == init[i];
                assert(a[j] == r[j]);
            } else {
                assert(a[r.len() as int] == cs.last());
            }
        }
    }
}

/// The idle client that each swept id belongs to.
proof fn lemma_inactive_id_source(cs: Seq<ClientView>, now: u64, k: int) -> (j: int)
    requires
        0 <= k < inactive_ids(cs, now).len(),
    ensures
        0 <= j < cs.len(),
        is_inactive(cs[j], now),
        cs[j].session_id == inactive_ids(cs, now)[k],
    decreases cs.len(),
{
    let init = cs.drop_last();
    let r = inactive_ids(init, now);
    if k < r.len() {
        let j = lemma_inactive_id_source(init, now, k);
        assert(cs[j] == init[j]);
        j
    } else {
        let j = cs.len() - 1;
        assert(cs[j] == cs.last());
        j
    }
}

// ---------------------------------------------------------------------------
// Who is told what
// ---------------------------------------------------------------------------

/// Every message sent when a client connects goes to a registered session.
pub proof fn law_connect_addresses_registered(s: StateView, id: Seq<char>, protocol: ClientType, auth: AuthView, now: u64)
    requires
        s.wf(),
    ensures
        forall|k: int|
            0 <= k < connect_spec(s, id, protocol, auth, now).1.len() ==> has_client(
                connect_spec(s, id, protocol, auth, now).0.clients,
                #[trigger] connect_spec(s, id, protocol, auth, now).1[k].to,
            ),
{
    let c = ClientView { session_id: id, protocol, last_active: now, platform: None, gpu: None, auth };
    lemma_upsert_client(s.clients, c);
    let cs = upsert_client(s.clients, c);
    lemma_notify_to_registered(cs, auth.sub);
    let out = connect_spec(s, id, protocol, auth, now).1;
    assert forall|k: int| 0 <= k < out.len() implies has_client(cs, #[trigger] out[k].to) by {
        match protocol {
            ClientType::Sender => {
                if k < notify_spec(cs, auth.sub).len() {
                    assert(out[k] == notify_spec(cs, auth.sub)[k]);
                }
            },
            ClientType::Receiver => {},
        }
    }
}

/// Every message sent in answer to a message goes to a registered session:
/// a relayed text to the registered peer it names, an error or a sender
/// list to a registered client.
pub proof fn law_message_addresses_registered(
    s: StateView,
    id: Seq<char>,
    protocol: ClientType,
    raw: Seq<char>,
    parsed: Result<EnvelopeView, Seq<char>>,
    now: u64,
)
    requires
        s.wf(),
    ensures
        forall|k: int|
            0 <= k < message_spec(s, id, protocol, raw, parsed, now).1.len() ==> has_client(
                message_spec(s, id, protocol, raw, parsed, now).0.clients,
                #[trigger] message_spec(s, id, protocol, raw, parsed, now).1[k].to,
            ),
{
    let cs1 = touch_clients(s.clients, id, now);
    lemma_touch_same_ids(s.clients, id, now);
    lemma_same_ids(s.clients, cs1);
    let r = message_spec(s, id, protocol, raw, parsed, now);
    match parsed {
        Ok(env) => {
            let cs2 = set_platform(cs1, id, env.platform, env.gpu);
            lemma_platform_same_ids(cs1, id, env.platform, env.gpu);
            lemma_notify_to_registered(cs2, crate::registry::sub_of(cs1, id));
        },
        Err(_) => {},
    }
    assert forall|k: int| 0 <= k < r.1.len() implies has_client(r.0.clients, #[trigger] r.1[k].to) by {}
}

/// A client's message is relayed verbatim, and only to a registered client
/// of the other type than its sender.
pub proof fn law_relay_reaches_other_type(
    s: StateView,
    id: Seq<char>,
    protocol: ClientType,
    raw: Seq<char>,
    parsed: Result<EnvelopeView, Seq<char>>,
    now: u64,
)
    ensures
        forall|k: int|
            0 <= k < message_spec(s, id, protocol, raw, parsed, now).1.len() && (
            #[trigger] message_spec(s, id, protocol, raw, parsed, now).1[k]).notice is Relay ==> {
                &&& has_peer(
                    message_spec(s, id, protocol, raw, parsed, now).0.clients,
                    protocol.peer(),
                    message_spec(s, id, protocol, raw, parsed, now).1[k].to,
                )
                &&& message_spec(s, id, protocol, raw, parsed, now).1[k].notice == (NoticeView::Relay { text: raw })
            },
{
    let r = message_spec(s, id, protocol, raw, parsed, now);
    let cs1 = touch_clients(s.clients, id, now);
    assert forall|k: int| 0 <= k < r.1.len() && (#[trigger] r.1[k]).notice is Relay implies {
        &&& has_peer(r.0.clients, protocol.peer(), r.1[k].to)
        &&& r.1[k].notice == (NoticeView::Relay { text: raw })
    } by {
        match parsed {
            Ok(env) => {
                if env.msg_type == Some(110u64) && protocol == ClientType::Sender {
                    let cs = set_platform(cs1, id, env.platform, env.gpu);
                    let f = crate::registry::sub_of(cs1, id);
                    let i = lemma_sender_list_recipient(cs, f, sender_infos(cs, f), k);
                }
            },
            Err(_) => {},
        }
    }
}

/// Every message sent when a session leaves goes to a session that is still
/// registered, provided the leaving session, if registered, has the type it
/// leaves as.
pub proof fn law_disconnect_addresses_registered(s: StateView, id: Seq<char>, protocol: ClientType)
    requires
        s.wf(),
        client_of(s.clients, id) matches Some(c) ==> c.protocol == protocol,
    ensures
        forall|k: int|
            0 <= k < disconnect_spec(s, id, protocol).1.len() ==> has_client(
                disconnect_spec(s, id, protocol).0.clients,
                #[trigger] disconnect_spec(s, id, protocol).1[k].to,
            ),
{
    lemma_remove_client(s.clients, id);
    let cs = remove_client(s.clients, id);
    lemma_notify_to_registered(cs, crate::registry::sub_of(s.clients, id));
    let r = disconnect_spec(s, id, protocol);
    let closing = match pair_of(s.pairs, id) {
        Some(t) => if has_peer(s.clients, protocol.peer(), t) {
            seq![OutView { to: t, notice: NoticeView::PeerClosed { code: crate::protocol::close_code(protocol) } }]
        } else {
            Seq::empty()
        },
        None => Seq::empty(),
    };
    assert forall|k: int| 0 <= k < r.1.len() implies has_client(r.0.clients, #[trigger] r.1[k].to) by {
        if k < closing.len() {
            let t = pair_of(s.pairs, id)->0;
            assert(r.1[k] == closing[k]);
            assert(t != id);
            assert(client_of(cs, t) == client_of(s.clients, t));
        } else {
            if protocol == ClientType::Sender {
                assert(r.1[k] == notify_spec(cs, crate::registry::sub_of(s.clients, id))[k - closing.len()]);
            }
        }
    }
}

/// Under a subject, sender lists go only to receivers carrying that
/// subject, and list only senders carrying it.
pub proof fn law_sender_lists_stay_within_subject(cs: Seq<ClientView>, sub: Seq<char>)
    ensures
        forall|k: int|
            #![trigger notify_spec(cs, Some(sub))[k]]
            0 <= k < notify_spec(cs, Some(sub)).len() ==> exists|i: int|
                0 <= i < cs.len() && #[trigger] cs[i].session_id == notify_spec(cs, Some(sub))[k].to
                    && cs[i].protocol == ClientType::Receiver && cs[i].auth.sub == Some(sub),
        forall|k: int|
            0 <= k < sender_infos(cs, Some(sub)).len() ==> (#[trigger] sender_infos(cs, Some(sub))[k]).sub == Some(
                sub,
            ),
{
    lemma_sender_infos_listed(cs, Some(sub));
    assert forall|k: int|
        #![trigger notify_spec(cs, Some(sub))[k]]
        0 <= k < notify_spec(cs, Some(sub)).len() implies exists|i: int|
            0 <= i < cs.len() && #[trigger] cs[i].session_id == notify_spec(cs, Some(sub))[k].to
                && cs[i].protocol == ClientType::Receiver && cs[i].auth.sub == Some(sub) by {
        let i = lemma_sender_list_recipient(cs, Some(sub), sender_infos(cs, Some(sub)), k);
        assert(cs[i].session_id == notify_spec(cs, Some(sub))[k].to);
    }
    assert forall|k: int| 0 <= k < sender_infos(cs, Some(sub)).len() implies (#[trigger] sender_infos(
        cs,
        Some(sub),
    )[k]).sub == Some(sub) by {
        let i = choose|i: int|
            0 <= i < cs.len() && listed(cs[i], Some(sub)) && #[trigger] sender_info_of(cs[i]) == sender_infos(
                cs,
                Some(sub),
            )[k];
    }
}

/// Every sender list names only registered senders.
pub proof fn law_sender_lists_name_senders(cs: Seq<ClientView>, f: Option<Seq<char>>)
    requires
        ids_unique(cs),
    ensures
        forall|k: int|
            0 <= k < sender_infos(cs, f).len() ==> has_peer(
                cs,
                ClientType::Sender,
                (#[trigger] sender_infos(cs, f)[k]).id,
            ),
{
    lemma_sender_infos_listed(cs, f);
    assert forall|k: int| 0 <= k < sender_infos(cs, f).len() implies has_peer(
        cs,
        ClientType::Sender,
        (#[trigger] sender_infos(cs, f)[k]).id,
    ) by {
        let i = choose|i: int| 0 <= i < cs.len() && listed(cs[i], f) && #[trigger] sender_info_of(cs[i]) == sender_infos(cs, f)[k];
        lemma_client_index(cs, i);
    }
}

/// The clients carrying a subject, in registration order.
pub open spec fn subject_clients(cs: Seq<ClientView>, sub: Seq<char>) -> Seq<ClientView>
    decreases cs.len(),
{
    if cs.len() == 0 {
        Seq::empty()
    } else {
        let rest = subject_clients(cs.drop_last(), sub);
        if cs.last().auth.sub == Some(sub) {
            rest.push(cs.last())
        } else {
            rest
        }
    }
}

proof fn lemma_subject_infos(cs: Seq<ClientView>, sub: Seq<char>)
    ensures
        sender_infos(cs, Some(sub)) == sender_infos(subject_clients(cs, sub), Some(sub)),
    decreases cs.len(),
{
    if cs.len() > 0 {
        let init = cs.drop_last();
        lemma_subject_infos(init, sub);
        let sc = subject_clients(init, sub);
        if cs.last().auth.sub == Some(sub) {
            assert(sc.push(cs.last()).drop_last() =~= sc);
        }
    }
}

proof fn lemma_subject_notices(cs: Seq<ClientView>, sub: Seq<char>, senders: Seq<SenderInfoView>)
    ensures
        sender_list_notices(cs, Some(sub), senders) == sender_list_notices(subject_clients(cs, sub), Some(sub), senders),
    decreases cs.len(),
{
    if cs.len() > 0 {
        let init = cs.drop_last();
        lemma_subject_notices(init, sub, senders);
        let sc = subject_clients(init, sub);
        if cs.last().auth.sub == Some(sub) {
            assert(sc.push(cs.last()).drop_last() =~= sc);
        }
    }
}

/// Two registries that hold the same clients of a subject, in the same
/// order, send the same sender lists for that subject, whatever their other
/// clients.
pub proof fn law_sender_lists_same_for_same_subject_sequence(cs1: Seq<ClientView>, cs2: Seq<ClientView>, sub: Seq<char>)
    requires
        subject_clients(cs1, sub) == subject_clients(cs2, sub),
    ensures
        notify_spec(cs1, Some(sub)) == notify_spec(cs2, Some(sub)),
{
    lemma_subject_infos(cs1, sub);
    lemma_subject_infos(cs2, sub);
    lemma_subject_notices(cs1, sub, sender_infos(cs1, Some(sub)));
    lemma_subject_notices(cs2, sub, sender_infos(cs2, Some(sub)));
}

/// The elements that `g` maps to a value, mapped, in order.
pub open spec fn filter_map<A, B>(s: Seq<A>, g: spec_fn(A) -> Option<B>) -> Seq<B>
    decreases s.len(),
{
    if s.len() == 0 {
        Seq::empty()
    } else {
        let rest = filter_map(s.drop_last(), g);
        match g(s.last()) {
            Some(b) => rest.push(b),
            None => rest,
        }
    }
}

/// A multiset with one more element, when there is one.
pub open spec fn add_opt<B>(m: Multiset<B>, o: Option<B>) -> Multiset<B> {
    match o {
        Some(b) => m.insert(b),
        None => m,
    }
}

proof fn lemma_add_opt_commute<B>(m: Multiset<B>, a: Option<B>, b: Option<B>)
    ensures
        add_opt(add_opt(m, a), b) == add_opt(add_opt(m, b), a),
{
    broadcast use vstd::multiset::group_multiset_axioms;

    assert(add_opt(add_opt(m, a), b) =~= add_opt(add_opt(m, b), a));
}

/// Dropping one element drops its image, if any, from the filtered multiset.
proof fn lemma_filter_map_remove<A, B>(s: Seq<A>, g: spec_fn(A) -> Option<B>, j: int)
    requires
        0 <= j < s.len(),
    ensures
        filter_map(s, g).to_multiset() == add_opt(filter_map(s.remove(j), g).to_multiset(), g(s[j])),
    decreases s.len(),
{
    broadcast use vstd::seq_lib::group_to_multiset_ensures;

    let dl = s.drop_last();
    if j == s.len() - 1 {
        assert(s.remove(j) =~= dl);
    } else {
        lemma_filter_map_remove(dl, g, j);
        assert(s.remove(j).drop_last() =~= dl.remove(j));
        assert(s.remove(j).last() == s.last());
        assert(dl[j] == s[j]);
        let m = filter_map(dl.remove(j), g).to_multiset();
        lemma_add_opt_commute(m, g(s[j]), g(s.last()));
    }
}

/// Filtering and mapping sequences with the same elements gives sequences
/// with the same elements.
proof fn lemma_filter_map_permutation<A, B>(s1: Seq<A>, s2: Seq<A>, g: spec_fn(A) -> Option<B>)
    requires
        s1.to_multiset() == s2.to_multiset(),
    ensures
        filter_map(s1, g).to_multiset() == filter_map(s2, g).to_multiset(),
    decreases s1.len(),
{
    broadcast use vstd::seq_lib::group_to_multiset_ensures;
    broadcast use vstd::multiset::group_multiset_axioms;

    if s1.len() == 0 {
        assert(s2.to_multiset().len() == 0);
        assert(s2.len() == 0);
    } else {
        let x = s1.last();
        let dl = s1.drop_last();
        assert(s1 =~= dl.push(x));
        assert(s1.to_multiset() == dl.to_multiset().insert(x));
        assert(s2.to_multiset().count(x) > 0);
        assert(s2.contains(x));
        let j = choose|j: int| 0 <= j < s2.len() && s2[j] == x;
        assert(s2.remove(j).to_multiset() == s2.to_multiset().remove(x));
        assert(dl.to_multiset().insert(x).remove(x) =~= dl.to_multiset());
        lemma_filter_map_permutation(dl, s2.remove(j), g);
        lemma_filter_map_remove(s2, g, j);
    }
}

/// What a sender list and its recipients depend on of a client: everything
/// but its activity time.
pub struct ClientFacts {
    pub session_id: Seq<char>,
    pub protocol: ClientType,
    pub platform: Option<Seq<char>>,
    pub gpu: Option<Seq<char>>,
    pub auth: AuthView,
}

pub open spec fn facts_of(c: ClientView) -> ClientFacts {
    ClientFacts { session_id: c.session_id, protocol: c.protocol, platform: c.platform, gpu: c.gpu, auth: c.auth }
}

/// The facts of the clients carrying a subject, in registration order.
pub open spec fn subject_facts(cs: Seq<ClientView>, sub: Seq<char>) -> Seq<ClientFacts> {
    subject_clients(cs, sub).map_values(|c: ClientView| facts_of(c))
}

/// A sender's description, for a sender.
pub open spec fn info_fn() -> spec_fn(ClientFacts) -> Option<SenderInfoView> {
    |k: ClientFacts|
        if k.protocol == ClientType::Sender {
            Some(
                SenderInfoView {
                    id: k.session_id,
                    platform: k.platform,
                    gpu: k.gpu,
                    sub: k.auth.sub,
                    email: k.auth.email,
                    name: k.auth.name,
                },
            )
        } else {
            None
        }
}

/// A receiver's session id, for a receiver.
pub open spec fn receiver_fn() -> spec_fn(ClientFacts) -> Option<Seq<char>> {
    |k: ClientFacts|
        if k.protocol == ClientType::Receiver {
            Some(k.session_id)
        } else {
            None
        }
}

/// The sessions that a list of messages goes to, in order.
pub open spec fn recipients(out: Seq<OutView>) -> Seq<Seq<char>> {
    out.map_values(|o: OutView| o.to)
}

proof fn lemma_subject_facts_step(cs: Seq<ClientView>, sub: Seq<char>)
    requires
        cs.len() > 0,
    ensures
        subject_facts(cs, sub) == (if cs.last().auth.sub == Some(sub) {
            subject_facts(cs.drop_last(), sub).push(facts_of(cs.last()))
        } else {
            subject_facts(cs.drop_last(), sub)
        }),
{
    let sc = subject_clients(cs.drop_last(), sub);
    if cs.last().auth.sub == Some(sub) {
        assert(sc.push(cs.last()).map_values(|c: ClientView| facts_of(c)) =~= sc.map_values(
            |c: ClientView| facts_of(c),
        ).push(facts_of(cs.last())));
    }
}

proof fn lemma_infos_filter_map(cs: Seq<ClientView>, sub: Seq<char>)
    ensures
        sender_infos(cs, Some(sub)) == filter_map(subject_facts(cs, sub), info_fn()),
    decreases cs.len(),
{
    if cs.len() > 0 {
        lemma_infos_filter_map(cs.drop_last(), sub);
        lemma_subject_facts_step(cs, sub);
        let sf = subject_facts(cs.drop_last(), sub);
        if cs.last().auth.sub == Some(sub) {
            assert(sf.push(facts_of(cs.last())).drop_last() =~= sf);
        }
    }
}

proof fn lemma_recipients_filter_map(cs: Seq<ClientView>, sub: Seq<char>, senders: Seq<SenderInfoView>)
    ensures
        recipients(sender_list_notices(cs, Some(sub), senders)) == filter_map(subject_facts(cs, sub), receiver_fn()),
    decreases cs.len(),
{
    if cs.len() > 0 {
        lemma_recipients_filter_map(cs.drop_last(), sub, senders);
        lemma_subject_facts_step(cs, sub);
        let sf = subject_facts(cs.drop_last(), sub);
        let r = sender_list_notices(cs.drop_last(), Some(sub), senders);
        if cs.last().auth.sub == Some(sub) {
            assert(sf.push(facts_of(cs.last())).drop_last() =~= sf);
        }
        if receives_list(cs.last(), Some(sub)) {
            let o = OutView { to: cs.last().session_id, notice: NoticeView::SenderList { senders } };
            assert(recipients(r.push(o)) =~= recipients(r).push(o.to));
        }
    }
}

/// The sender lists sent for a subject depend only on the clients carrying
/// that subject, in whatever order they registered and whatever their
/// activity times: two registries whose clients of the subject agree in
/// everything but order and activity time send sender lists to the same
/// sessions, each list holding the same senders; their other clients play
/// no part.
pub proof fn law_sender_lists_depend_only_on_subject(cs1: Seq<ClientView>, cs2: Seq<ClientView>, sub: Seq<char>)
    requires
        subject_facts(cs1, sub).to_multiset() == subject_facts(cs2, sub).to_multiset(),
    ensures
        recipients(notify_spec(cs1, Some(sub))).to_multiset() == recipients(notify_spec(cs2, Some(sub))).to_multiset(),
        sender_infos(cs1, Some(sub)).to_multiset() == sender_infos(cs2, Some(sub)).to_multiset(),
        forall|k: int|
            0 <= k < notify_spec(cs1, Some(sub)).len() ==> (#[trigger] notify_spec(cs1, Some(sub))[k]).notice == (
            NoticeView::SenderList { senders: sender_infos(cs1, Some(sub)) }),
        forall|k: int|
            0 <= k < notify_spec(cs2, Some(sub)).len() ==> (#[trigger] notify_spec(cs2, Some(sub))[k]).notice == (
            NoticeView::SenderList { senders: sender_infos(cs2, Some(sub)) }),
{
    lemma_infos_filter_map(cs1, sub);
    lemma_infos_filter_map(cs2, sub);
    lemma_filter_map_permutation(subject_facts(cs1, sub), subject_facts(cs2, sub), info_fn());
    lemma_recipients_filter_map(cs1, sub, sender_infos(cs1, Some(sub)));
    lemma_recipients_filter_map(cs2, sub, sender_infos(cs2, Some(sub)));
    lemma_filter_map_permutation(subject_facts(cs1, sub), subject_facts(cs2, sub), receiver_fn());
    assert forall|k: int| 0 <= k < notify_spec(cs1, Some(sub)).len() implies (#[trigger] notify_spec(
        cs1,
        Some(sub),
    )[k]).notice == (NoticeView::SenderList { senders: sender_infos(cs1, Some(sub)) }) by {
        let i = lemma_sender_list_recipient(cs1, Some(sub), sender_infos(cs1, Some(sub)), k);
    }
    assert forall|k: int| 0 <= k < notify_spec(cs2, Some(sub)).len() implies (#[trigger] notify_spec(
        cs2,
        Some(sub),
    )[k]).notice == (NoticeView::SenderList { senders: sender_infos(cs2, Some(sub)) }) by {
        let i = lemma_sender_list_recipient(cs2, Some(sub), sender_infos(cs2, Some(sub)), k);
    }
}

/// A sweep at `now` keeps a registered client exactly when at most the
/// timeout (in whole seconds) has passed since its last message.
pub proof fn law_sweep_timing(s: StateView, now: u64, i: int)
    requires
        s.wf(),
        0 <= i < s.clients.len(),
    ensures
        has_client(sweep_spec(s, now).0.clients, s.clients[i].session_id) <==> elapsed_secs(
            now,
            s.clients[i].last_active,
        ) <= INACTIVE_TIMEOUT_SECS,
{
    law_sweep_keeps_exactly_active(s, now);
    lemma_active_clients_sub(s.clients, now);
    let a = active_clients(s.clients, now);
    let id = s.clients[i].session_id;
    if is_inactive(s.clients[i], now) && has_client(a, id) {
        let m = client_index(a, id);
        assert(a[m].session_id == id);
        let j = choose|j: int| 0 <= j < s.clients.len() && #[trigger] s.clients[j] == a[m];
        assert(s.clients[j].session_id == s.clients[i].session_id);
        assert(!is_inactive(a[m], now));
    }
}

/// The time of the `k`-th idle sweep of a server whose sweeps start at
/// `start` (nanoseconds).
pub open spec fn sweep_time(start: int, k: nat) -> int {
    start + k * (SWEEP_PERIOD_SECS * NANOS_PER_SEC)
}

/// With sweeps every period from `start`, a client last active at `last`
/// (not before `start`) is reached by a sweep at least one second past the
/// timeout and less than one period after that: the first sweep that finds
/// it idle comes within the timeout, one second and one period.
pub proof fn law_idle_client_swept_within_a_period(start: int, last: u64)
    requires
        start <= last,
    ensures
        exists|k: nat|
            last + (INACTIVE_TIMEOUT_SECS + 1) * NANOS_PER_SEC <= #[trigger] sweep_time(start, k) < last
                + (INACTIVE_TIMEOUT_SECS + 1) * NANOS_PER_SEC + SWEEP_PERIOD_SECS * NANOS_PER_SEC,
        forall|now: u64|
            last <= now < last + (INACTIVE_TIMEOUT_SECS + 1) * NANOS_PER_SEC ==> #[trigger] elapsed_secs(now, last)
                <= INACTIVE_TIMEOUT_SECS,
        forall|now: u64|
            now >= last + (INACTIVE_TIMEOUT_SECS + 1) * NANOS_PER_SEC ==> #[trigger] elapsed_secs(now, last)
                > INACTIVE_TIMEOUT_SECS,
{
    let p: int = SWEEP_PERIOD_SECS * NANOS_PER_SEC;
    let d: int = last + (INACTIVE_TIMEOUT_SECS + 1) * NANOS_PER_SEC - start;
    let k: int = (d + p - 1) / p;
    assert(k * p >= d && k * p < d + p && k >= 0) by (nonlinear_arith)
        requires
            p > 0,
            d >= 0,
            k == (d + p - 1) / p,
    ;
    assert(sweep_time(start, k as nat) == start + k * p);
    let n: int = NANOS_PER_SEC as int;
    assert forall|now: u64|
        last <= now < last + (INACTIVE_TIMEOUT_SECS + 1) * NANOS_PER_SEC implies #[trigger] elapsed_secs(now, last)
            <= INACTIVE_TIMEOUT_SECS by {
        let e: int = now - last;
        assert(e / n <= 3600) by (nonlinear_arith)
            requires
                n == 1_000_000_000,
                0 <= e < 3601 * n,
        ;
    }
    assert forall|now: u64| now >= last + (INACTIVE_TIMEOUT_SECS + 1) * NANOS_PER_SEC implies #[trigger] elapsed_secs(
        now,
        last,
    ) > INACTIVE_TIMEOUT_SECS by {
        let e: int = now - last;
        assert(e / n > 3600) by (nonlinear_arith)
            requires
                n == 1_000_000_000,
                e >= 3601 * n,
        ;
    }
}

// ---------------------------------------------------------------------------
// Static files
// ---------------------------------------------------------------------------

proof fn lemma_trim_not_rooted(s: Seq<char>)
    ensures
        trim_leading_slashes(s).len() == 0 || trim_leading_slashes(s)[0] != '/',
    decreases s.len(),
{
    if s.len() > 0 && s[0] == '/' {
        lemma_trim_not_rooted(s.skip(1));
    }
}

/// The path a request names under `vrx` never starts with `/`, so joining
/// it onto `vrx` cannot replace `vrx`.
pub proof fn law_relative_file_not_rooted(uri_path: Seq<char>)
    ensures
        relative_file(uri_path).len() == 0 || relative_file(uri_path)[0] != '/',
{
    lemma_trim_not_rooted(crate::static_files::strip_parent_refs(
        crate::static_files::with_index(crate::static_files::percent_decoded(uri_path)),
    ));
}


// ---------------------------------------------------------------------------
// What each step tells whom, stated over the registered clients
// ---------------------------------------------------------------------------

/// A client passes a subject filter: it carries the subject, when one is
/// given.
pub open spec fn carries(c: ClientView, f: Option<Seq<char>>) -> bool {
    match f {
        Some(x) => c.auth.sub == Some(x),
        None => true,
    }
}

/// A sender description gives a client's id, platform, GPU and claims.
pub open spec fn describes(info: SenderInfoView, c: ClientView) -> bool {
    &&& info.id == c.session_id
    &&& info.platform == c.platform
    &&& info.gpu == c.gpu
    &&& info.sub == c.auth.sub
    &&& info.email == c.auth.email
    &&& info.name == c.auth.name
}

/// Entry `k` of a sender list describes a registered sender that passes the
/// filter.
pub open spec fn entry_registered(list: Seq<SenderInfoView>, cs: Seq<ClientView>, f: Option<Seq<char>>, k: int) -> bool {
    exists|i: int|
        0 <= i < cs.len() && cs[i].protocol == ClientType::Sender && carries(cs[i], f) && #[trigger] describes(
            list[k],
            cs[i],
        )
}

/// Client `i` is described by an entry of the sender list.
pub open spec fn client_described(list: Seq<SenderInfoView>, cs: Seq<ClientView>, i: int) -> bool {
    exists|k: int| 0 <= k < list.len() && #[trigger] describes(list[k], cs[i])
}

/// A list of senders describes exactly the registered senders that pass
/// the filter: each entry describes one of them, and each of them is
/// described by an entry.
pub open spec fn lists_senders(list: Seq<SenderInfoView>, cs: Seq<ClientView>, f: Option<Seq<char>>) -> bool {
    &&& forall|k: int| 0 <= k < list.len() ==> #[trigger] entry_registered(list, cs, f, k)
    &&& forall|i: int|
        0 <= i < cs.len() && cs[i].protocol == ClientType::Sender && carries(cs[i], f) ==> #[trigger] client_described(
            list,
            cs,
            i,
        )
}

/// A message goes to a client.
pub open spec fn addressed(o: OutView, c: ClientView) -> bool {
    o.to == c.session_id
}

/// Message `k` is the sender list `list`, to a registered receiver that
/// passes the filter.
pub open spec fn list_to_receiver(
    out: Seq<OutView>,
    cs: Seq<ClientView>,
    f: Option<Seq<char>>,
    list: Seq<SenderInfoView>,
    k: int,
) -> bool {
    &&& out[k].notice == (NoticeView::SenderList { senders: list })
    &&& exists|i: int|
        0 <= i < cs.len() && cs[i].protocol == ClientType::Receiver && carries(cs[i], f) && #[trigger] addressed(
            out[k],
            cs[i],
        )
}

/// Client `i` is sent one of the messages.
pub open spec fn client_reached(out: Seq<OutView>, cs: Seq<ClientView>, i: int) -> bool {
    exists|k: int| 0 <= k < out.len() && #[trigger] addressed(out[k], cs[i])
}

/// The messages are the sender list `list`, each to a registered receiver
/// that passes the filter, and every such receiver gets one.
pub open spec fn lists_reach_receivers(
    out: Seq<OutView>,
    cs: Seq<ClientView>,
    f: Option<Seq<char>>,
    list: Seq<SenderInfoView>,
) -> bool {
    &&& forall|k: int| 0 <= k < out.len() ==> #[trigger] list_to_receiver(out, cs, f, list, k)
    &&& forall|i: int|
        0 <= i < cs.len() && cs[i].protocol == ClientType::Receiver && carries(cs[i], f) ==> #[trigger] client_reached(
            out,
            cs,
            i,
        )
}

proof fn lemma_listed_appears(cs: Seq<ClientView>, f: Option<Seq<char>>, i: int) -> (k: int)
    requires
        0 <= i < cs.len(),
        listed(cs[i], f),
    ensures
        0 <= k < sender_infos(cs, f).len(),
        sender_infos(cs, f)[k] == sender_info_of(cs[i]),
    decreases cs.len(),
{
    let init = cs.drop_last();
    if i == cs.len() - 1 {
        sender_infos(init, f).len() as int
    } else {
        assert(init[i] == cs[i]);
        lemma_listed_appears(init, f, i)
    }
}

proof fn lemma_receiver_reached(cs: Seq<ClientView>, f: Option<Seq<char>>, list: Seq<SenderInfoView>, i: int) -> (k: int)
    requires
        0 <= i < cs.len(),
        receives_list(cs[i], f),
    ensures
        0 <= k < sender_list_notices(cs, f, list).len(),
        sender_list_notices(cs, f, list)[k].to == cs[i].session_id,
    decreases cs.len(),
{
    let init = cs.drop_last();
    if i == cs.len() - 1 {
        sender_list_notices(init, f, list).len() as int
    } else {
        assert(init[i] == cs[i]);
        lemma_receiver_reached(init, f, list, i)
    }
}

proof fn lemma_entry_describes(cs: Seq<ClientView>, f: Option<Seq<char>>, k: int) -> (i: int)
    requires
        0 <= k < sender_infos(cs, f).len(),
    ensures
        0 <= i < cs.len(),
        cs[i].protocol == ClientType::Sender,
        carries(cs[i], f),
        describes(sender_infos(cs, f)[k], cs[i]),
    decreases cs.len(),
{
    let init = cs.drop_last();
    let r = sender_infos(init, f);
    if k < r.len() {
        let i = lemma_entry_describes(init, f, k);
        assert(cs[i] == init[i]);
        i
    } else {
        let i = cs.len() - 1;
        assert(cs[i] == cs.last());
        i
    }
}

/// A sender list describes exactly the registered senders of its filter.
proof fn lemma_infos_list_senders(cs: Seq<ClientView>, f: Option<Seq<char>>)
    ensures
        lists_senders(sender_infos(cs, f), cs, f),
{
    let list = sender_infos(cs, f);
    assert forall|k: int| 0 <= k < list.len() implies #[trigger] entry_registered(list, cs, f, k) by {
        let i = lemma_entry_describes(cs, f, k);
    }
    assert forall|i: int|
        0 <= i < cs.len() && cs[i].protocol == ClientType::Sender && carries(cs[i], f) implies #[trigger] client_described(
        list,
        cs,
        i,
    ) by {
        let k = lemma_listed_appears(cs, f, i);
        assert(describes(list[k], cs[i]));
    }
}

/// Sender lists reach exactly the registered receivers of their filter.
proof fn lemma_notify_reaches_receivers(cs: Seq<ClientView>, f: Option<Seq<char>>)
    ensures
        lists_reach_receivers(notify_spec(cs, f), cs, f, sender_infos(cs, f)),
        lists_senders(sender_infos(cs, f), cs, f),
{
    lemma_infos_list_senders(cs, f);
    let list = sender_infos(cs, f);
    let out = notify_spec(cs, f);
    assert forall|k: int| 0 <= k < out.len() implies #[trigger] list_to_receiver(out, cs, f, list, k) by {
        let i = lemma_sender_list_recipient(cs, f, list, k);
        assert(addressed(out[k], cs[i]));
    }
    assert forall|i: int|
        0 <= i < cs.len() && cs[i].protocol == ClientType::Receiver && carries(cs[i], f) implies #[trigger] client_reached(
        out,
        cs,
        i,
    ) by {
        let k = lemma_receiver_reached(cs, f, list, i);
        assert(addressed(out[k], cs[i]));
    }
}

/// Recording activity changes only the activity time of the client under
/// that id.
proof fn lemma_touch_client_of(cs: Seq<ClientView>, id: Seq<char>, now: u64, t: Seq<char>)
    requires
        ids_unique(cs),
    ensures
        client_of(touch_clients(cs, id, now), t) == (match client_of(cs, t) {
            Some(c) => Some(if t == id { ClientView { last_active: now, ..c } } else { c }),
            None => None,
        }),
{
    let r = touch_clients(cs, id, now);
    lemma_touch_same_ids(cs, id, now);
    lemma_same_ids(cs, r);
    if has_client(cs, t) {
        let i = client_index(cs, t);
        assert(r[i].session_id == t);
        lemma_client_index(r, i);
        if has_client(cs, id) {
            lemma_client_index(cs, client_index(cs, id));
        }
    }
}

/// A receiver that connects is told its session id (type 200) and exactly
/// the registered senders of its subject (of all subjects, without one),
/// each with its id, platform, GPU and claims.
pub proof fn law_connecting_receiver_told_senders(s: StateView, id: Seq<char>, auth: AuthView, now: u64)
    requires
        s.wf(),
    ensures
        ({
            let r = connect_spec(s, id, ClientType::Receiver, auth, now);
            &&& r.1.len() == 1
            &&& r.1[0].to == id
            &&& r.1[0].notice is ReceiverSession
            &&& r.1[0].notice->ReceiverSession_session_id == id
            &&& lists_senders(r.1[0].notice->ReceiverSession_senders, r.0.clients, auth.sub)
            &&& r.1[0].notice.code() == Some(200u32)
        }),
{
    let r = connect_spec(s, id, ClientType::Receiver, auth, now);
    lemma_infos_list_senders(r.0.clients, auth.sub);
}

/// A sender that connects makes every registered receiver of its subject
/// (every receiver, without one) get a sender list (type 201) describing
/// exactly the registered senders of that subject, and no one else get
/// one; then it is told its own session id (type 100).
pub proof fn law_connecting_sender_announced(s: StateView, id: Seq<char>, auth: AuthView, now: u64)
    requires
        s.wf(),
    ensures
        ({
            let r = connect_spec(s, id, ClientType::Sender, auth, now);
            &&& r.1.len() >= 1
            &&& r.1.last() == (OutView { to: id, notice: NoticeView::SenderSession { session_id: id } })
            &&& r.1.last().notice.code() == Some(100u32)
            &&& lists_reach_receivers(r.1.drop_last(), r.0.clients, auth.sub, sender_infos(r.0.clients, auth.sub))
            &&& lists_senders(sender_infos(r.0.clients, auth.sub), r.0.clients, auth.sub)
            &&& forall|k: int| 0 <= k < r.1.len() - 1 ==> (#[trigger] r.1[k]).notice.code() == Some(201u32)
        }),
{
    let r = connect_spec(s, id, ClientType::Sender, auth, now);
    let cs = r.0.clients;
    lemma_notify_reaches_receivers(cs, auth.sub);
    assert(r.1.drop_last() =~= notify_spec(cs, auth.sub));
    assert forall|k: int| 0 <= k < r.1.len() - 1 implies (#[trigger] r.1[k]).notice.code() == Some(201u32) by {
        assert(r.1[k] == notify_spec(cs, auth.sub)[k]);
        assert(list_to_receiver(notify_spec(cs, auth.sub), cs, auth.sub, sender_infos(cs, auth.sub), k));
    }
}

/// The session a message addresses: `ws1Id` in a receiver's message,
/// `ws2Id` in a sender's.
pub open spec fn addressee(env: EnvelopeView, protocol: ClientType) -> Option<Seq<char>> {
    if protocol == ClientType::Receiver {
        env.ws1_id
    } else {
        env.ws2_id
    }
}

/// A message that is not a sender's platform info and names a registered
/// client of the other type is passed on verbatim to exactly that client,
/// and its sender is now paired with it; it is sent to no one else.
pub proof fn law_message_relayed_to_its_addressee(
    s: StateView,
    id: Seq<char>,
    protocol: ClientType,
    raw: Seq<char>,
    env: EnvelopeView,
    now: u64,
    t: Seq<char>,
    peer: ClientView,
)
    requires
        s.wf(),
        !(env.msg_type == Some(110u64) && protocol == ClientType::Sender),
        addressee(env, protocol) == Some(t),
        client_of(s.clients, t) == Some(peer),
        peer.protocol != protocol,
    ensures
        message_spec(s, id, protocol, raw, Ok(env), now).1 == seq![
            OutView { to: t, notice: NoticeView::Relay { text: raw } },
        ],
        pair_of(message_spec(s, id, protocol, raw, Ok(env), now).0.pairs, id) == Some(t),
        message_spec(s, id, protocol, raw, Ok(env), now).1[0].notice.code() is None,
{
    lemma_touch_client_of(s.clients, id, now, t);
    lemma_upsert_pair(s.pairs, id, t);
    assert(target_of(env, protocol) == Some(t));
}

/// A message that is not a sender's platform info and does not name a
/// registered client of the other type is answered, when its sender is
/// registered, with the error "Target not found" (type 109 to a sender,
/// 209 to a receiver), and passed on to no one.
pub proof fn law_message_without_peer_answered(
    s: StateView,
    id: Seq<char>,
    protocol: ClientType,
    raw: Seq<char>,
    env: EnvelopeView,
    now: u64,
)
    requires
        s.wf(),
        !(env.msg_type == Some(110u64) && protocol == ClientType::Sender),
        match addressee(env, protocol) {
            Some(t) => match client_of(s.clients, t) {
                Some(c) => c.protocol == protocol,
                None => true,
            },
            None => true,
        },
    ensures
        ({
            let out = message_spec(s, id, protocol, raw, Ok(env), now).1;
            &&& has_client(s.clients, id) ==> out == seq![
                OutView {
                    to: id,
                    notice: NoticeView::Failure {
                        code: if protocol == ClientType::Sender { 109u32 } else { 209u32 },
                        message: "Target not found"@,
                    },
                },
            ]
            &&& !has_client(s.clients, id) ==> out.len() == 0
        }),
{
    match addressee(env, protocol) {
        Some(t) => {
            lemma_touch_client_of(s.clients, id, now, t);
        },
        None => {},
    }
    lemma_touch_client_of(s.clients, id, now, id);
}

/// Every error a message is answered with goes to the message's sender,
/// with type 109 for a sender and 209 for a receiver.
pub proof fn law_errors_go_to_sender(
    s: StateView,
    id: Seq<char>,
    protocol: ClientType,
    raw: Seq<char>,
    parsed: Result<EnvelopeView, Seq<char>>,
    now: u64,
)
    requires
        s.wf(),
    ensures
        forall|k: int|
            0 <= k < message_spec(s, id, protocol, raw, parsed, now).1.len() && (
            #[trigger] message_spec(s, id, protocol, raw, parsed, now).1[k]).notice is Failure ==> {
                &&& message_spec(s, id, protocol, raw, parsed, now).1[k].to == id
                &&& message_spec(s, id, protocol, raw, parsed, now).1[k].notice.code() == Some(
                    if protocol == ClientType::Sender {
                        109u32
                    } else {
                        209u32
                    },
                )
            },
{
    let r = message_spec(s, id, protocol, raw, parsed, now);
    let cs1 = touch_clients(s.clients, id, now);
    assert forall|k: int| 0 <= k < r.1.len() && (#[trigger] r.1[k]).notice is Failure implies {
        &&& r.1[k].to == id
        &&& r.1[k].notice.code() == Some(if protocol == ClientType::Sender { 109u32 } else { 209u32 })
    } by {
        match parsed {
            Ok(env) => {
                if env.msg_type == Some(110u64) && protocol == ClientType::Sender {
                    let cs = set_platform(cs1, id, env.platform, env.gpu);
                    let f = crate::registry::sub_of(cs1, id);
                    let i = lemma_sender_list_recipient(cs, f, sender_infos(cs, f), k);
                }
            },
            Err(_) => {},
        }
    }
}

/// A registered sender's platform info (type 110) records its platform and
/// GPU, and every registered receiver of the sender's subject (every
/// receiver, without one) gets a sender list (type 201) describing exactly
/// the registered senders of that subject; no one else gets a message.
pub proof fn law_platform_info_recorded_and_listed(
    s: StateView,
    id: Seq<char>,
    raw: Seq<char>,
    env: EnvelopeView,
    now: u64,
    c: ClientView,
)
    requires
        s.wf(),
        env.msg_type == Some(110u64),
        client_of(s.clients, id) == Some(c),
    ensures
        ({
            let r = message_spec(s, id, ClientType::Sender, raw, Ok(env), now);
            &&& client_of(r.0.clients, id) == Some(
                ClientView { last_active: now, platform: env.platform, gpu: env.gpu, ..c },
            )
            &&& lists_reach_receivers(r.1, r.0.clients, c.auth.sub, sender_infos(r.0.clients, c.auth.sub))
            &&& lists_senders(sender_infos(r.0.clients, c.auth.sub), r.0.clients, c.auth.sub)
            &&& forall|k: int| 0 <= k < r.1.len() ==> (#[trigger] r.1[k]).notice.code() == Some(201u32)
        }),
{
    let r = message_spec(s, id, ClientType::Sender, raw, Ok(env), now);
    let cs1 = touch_clients(s.clients, id, now);
    lemma_touch_client_of(s.clients, id, now, id);
    lemma_touch_same_ids(s.clients, id, now);
    lemma_same_ids(s.clients, cs1);
    let k = client_index(cs1, id);
    let cs2 = set_platform(cs1, id, env.platform, env.gpu);
    lemma_platform_same_ids(cs1, id, env.platform, env.gpu);
    lemma_same_ids(cs1, cs2);
    assert(cs2[k].session_id == id);
    lemma_client_index(cs2, k);
    assert(crate::registry::sub_of(cs1, id) == c.auth.sub);
    lemma_notify_reaches_receivers(cs2, c.auth.sub);
    assert forall|j: int| 0 <= j < r.1.len() implies (#[trigger] r.1[j]).notice.code() == Some(201u32) by {
        assert(list_to_receiver(r.1, cs2, c.auth.sub, sender_infos(cs2, c.auth.sub), j));
    }
}

/// When a registered session leaves: the only other messages than sender
/// lists are one close notice to the peer it was paired with (type 108 when
/// a receiver leaves, 208 when a sender leaves). A leaving receiver causes
/// no sender list. A leaving sender makes every remaining receiver of its
/// subject (every receiver, without one) get a sender list (type 201)
/// describing exactly the remaining senders of that subject, and no one
/// else get one.
pub proof fn law_leaving_session_notices(s: StateView, id: Seq<char>, protocol: ClientType, c: ClientView)
    requires
        s.wf(),
        client_of(s.clients, id) == Some(c),
        c.protocol == protocol,
    ensures
        ({
            let r = disconnect_spec(s, id, protocol);
            &&& forall|k: int|
                0 <= k < r.1.len() && (#[trigger] r.1[k]).notice is PeerClosed ==> {
                    &&& pair_of(s.pairs, id) == Some(r.1[k].to)
                    &&& r.1[k].notice.code() == Some(
                        if protocol == ClientType::Receiver {
                            108u32
                        } else {
                            208u32
                        },
                    )
                }
            &&& protocol == ClientType::Receiver ==> forall|k: int|
                0 <= k < r.1.len() ==> (#[trigger] r.1[k]).notice is PeerClosed
            &&& protocol == ClientType::Sender ==> {
                &&& forall|k: int|
                    0 <= k < r.1.len() && !((#[trigger] r.1[k]).notice is PeerClosed) ==> list_to_receiver(
                        r.1,
                        r.0.clients,
                        c.auth.sub,
                        sender_infos(r.0.clients, c.auth.sub),
                        k,
                    )
                &&& forall|i: int|
                    0 <= i < r.0.clients.len() && r.0.clients[i].protocol == ClientType::Receiver && carries(
                        r.0.clients[i],
                        c.auth.sub,
                    ) ==> #[trigger] client_reached(r.1, r.0.clients, i)
                &&& lists_senders(sender_infos(r.0.clients, c.auth.sub), r.0.clients, c.auth.sub)
            }
        }),
{
    let r = disconnect_spec(s, id, protocol);
    let cs = remove_client(s.clients, id);
    let f = crate::registry::sub_of(s.clients, id);
    assert(f == c.auth.sub);
    let closing = match pair_of(s.pairs, id) {
        Some(t) => if has_peer(s.clients, protocol.peer(), t) {
            seq![OutView { to: t, notice: NoticeView::PeerClosed { code: crate::protocol::close_code(protocol) } }]
        } else {
            Seq::empty()
        },
        None => Seq::empty(),
    };
    let listing = if protocol == ClientType::Sender { notify_spec(cs, f) } else { Seq::empty() };
    assert(r.1 == closing + listing);
    let cl = closing.len() as int;
    lemma_notify_reaches_receivers(cs, f);
    assert forall|k: int| 0 <= k < r.1.len() && (#[trigger] r.1[k]).notice is PeerClosed implies {
        &&& pair_of(s.pairs, id) == Some(r.1[k].to)
        &&& r.1[k].notice.code() == Some(if protocol == ClientType::Receiver { 108u32 } else { 208u32 })
    } by {
        if k >= cl {
            assert(r.1[k] == listing[k - cl]);
            assert(list_to_receiver(notify_spec(cs, f), cs, f, sender_infos(cs, f), k - cl));
        }
    }
    if protocol == ClientType::Sender {
        assert forall|k: int| 0 <= k < r.1.len() && !((#[trigger] r.1[k]).notice is PeerClosed) implies list_to_receiver(
            r.1,
            cs,
            f,
            sender_infos(cs, f),
            k,
        ) by {
            assert(k >= cl);
            assert(r.1[k] == listing[k - cl]);
            let i = lemma_sender_list_recipient(cs, f, sender_infos(cs, f), k - cl);
            assert(addressed(r.1[k], cs[i]));
        }
        assert forall|i: int|
            0 <= i < cs.len() && cs[i].protocol == ClientType::Receiver && carries(cs[i], f) implies #[trigger] client_reached(
            r.1,
            cs,
            i,
        ) by {
            let k = lemma_receiver_reached(cs, f, sender_infos(cs, f), i);
            assert(r.1[cl + k] == listing[k]);
            assert(addressed(r.1[cl + k], cs[i]));
        }
    }
}

/// Every idle client's id shows up among the swept ids.
proof fn lemma_idle_id_swept(cs: Seq<ClientView>, now: u64, i: int) -> (k: int)
    requires
        0 <= i < cs.len(),
        is_inactive(cs[i], now),
    ensures
        0 <= k < inactive_ids(cs, now).len(),
        inactive_ids(cs, now)[k] == cs[i].session_id,
    decreases cs.len(),
{
    let init = cs.drop_last();
    if i == cs.len() - 1 {
        inactive_ids(init, now).len() as int
    } else {
        assert(init[i] == cs[i]);
        lemma_idle_id_swept(init, now, i)
    }
}

/// An id is swept by an idle client.
pub open spec fn swept_from_idle(cs: Seq<ClientView>, now: u64, x: Seq<char>) -> bool {
    exists|i: int| 0 <= i < cs.len() && is_inactive(cs[i], now) && #[trigger] cs[i].session_id == x
}

/// An id is among the reported ones.
pub open spec fn reported(ids: Seq<Seq<char>>, x: Seq<char>) -> bool {
    exists|k: int| 0 <= k < ids.len() && #[trigger] ids[k] == x
}

/// The idle sweep reports exactly the ids of the registered clients that
/// are idle at `now`, whatever their type, and leaves none of them paired.
pub proof fn law_sweep_reports_and_unpairs_every_idle_client(s: StateView, now: u64)
    requires
        s.wf(),
    ensures
        forall|k: int|
            0 <= k < sweep_spec(s, now).1.len() ==> #[trigger] swept_from_idle(
                s.clients,
                now,
                sweep_spec(s, now).1[k],
            ),
        forall|i: int|
            0 <= i < s.clients.len() && #[trigger] is_inactive(s.clients[i], now) ==> reported(
                sweep_spec(s, now).1,
                s.clients[i].session_id,
            ) && pair_of(sweep_spec(s, now).0.pairs, s.clients[i].session_id) is None,
{
    let ids = inactive_ids(s.clients, now);
    assert forall|k: int| 0 <= k < ids.len() implies #[trigger] swept_from_idle(s.clients, now, ids[k]) by {
        let j = lemma_inactive_id_source(s.clients, now, k);
        assert(s.clients[j].session_id == ids[k]);
    }
    assert forall|i: int| 0 <= i < s.clients.len() && #[trigger] is_inactive(s.clients[i], now) implies reported(
        ids,
        s.clients[i].session_id,
    ) && pair_of(sweep_spec(s, now).0.pairs, s.clients[i].session_id) is None by {
        let k = lemma_idle_id_swept(s.clients, now, i);
        assert(ids[k] == s.clients[i].session_id);
        lemma_unpair_all_clears(s.pairs, ids, k);
    }
}

/// Apart from a sender's platform info, a message changes no client but
/// its sender's activity time, which becomes `now`; a text that is not JSON,
/// or a message that names no addressee, changes no pairing either.
pub proof fn law_message_only_touches_sender(
    s: StateView,
    id: Seq<char>,
    protocol: ClientType,
    raw: Seq<char>,
    parsed: Result<EnvelopeView, Seq<char>>,
    now: u64,
)
    requires
        s.wf(),
        !(parsed matches Ok(env) && env.msg_type == Some(110u64) && protocol == ClientType::Sender),
    ensures
        forall|t: Seq<char>|
            t != id ==> client_of(#[trigger] message_spec(s, id, protocol, raw, parsed, now).0.clients, t)
                == client_of(s.clients, t),
        client_of(message_spec(s, id, protocol, raw, parsed, now).0.clients, id) == (match client_of(
            s.clients,
            id,
        ) {
            Some(c) => Some(ClientView { last_active: now, ..c }),
            None => None,
        }),
        (parsed is Err || addressee(parsed->Ok_0, protocol) is None) ==> message_spec(
            s,
            id,
            protocol,
            raw,
            parsed,
            now,
        ).0.pairs == s.pairs,
{
    assert forall|t: Seq<char>| t != id implies client_of(
        #[trigger] message_spec(s, id, protocol, raw, parsed, now).0.clients,
        t,
    ) == client_of(s.clients, t) by {
        lemma_touch_client_of(s.clients, id, now, t);
    }
    lemma_touch_client_of(s.clients, id, now, id);
    match parsed {
        Ok(env) => {
            assert(target_of(env, protocol) == addressee(env, protocol));
        },
        Err(_) => {},
    }
}

} // verus!
