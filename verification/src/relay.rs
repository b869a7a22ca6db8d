//! The signaling rules: what each event does to the registry and which
//! messages go to which session.
//!
//! Each event (a client connects, sends a message, leaves, or the idle
//! sweep runs) is one step from the current state to the next state and a
//! list of outgoing messages, each addressed to a session id. The server
//! delivers them in list order over the channel of that session.

use vstd::prelude::*;
use vstd::string::StringExecFns;
use crate::protocol::{
    ClientType, close_code, close_type, error_code, error_type, get_target_protocol,
    SENDER_PLATFORM_INFO, SENDER_SESSION_ID, RECEIVER_SESSION_ID, RECEIVER_SENDER_LIST,
};
use crate::registry::{
    AppState, AuthInfo, AuthView, Client, ClientView, SenderInfo, SenderInfoView, StateView,
    copy_infos, copy_opt, infos_view, opt_view, sender_infos, has_client, has_peer, upsert_client,
    remove_client, touch_clients, set_platform, sub_of, upsert_pair, pair_of, unpair, unpair_all,
    inactive_ids, active_clients,
};
use crate::json::{Envelope, EnvelopeView, parse_envelope, parsed_message};
use crate::session::{new_session_id, is_session_id};

verus! {

/// The content of an outgoing message.
#[derive(Debug)]
pub enum Notice {
    /// A sender's own session id, on connecting.
    SenderSession { session_id: String },
    /// A receiver's own session id and the senders it may watch, on connecting.
    ReceiverSession { session_id: String, senders: Vec<SenderInfo> },
    /// The senders a receiver may watch, after a change.
    SenderList { senders: Vec<SenderInfo> },
    /// An error report with its message type.
    Failure { code: u32, message: String },
    /// The paired peer has left; the message type says which side left.
    PeerClosed { code: u32 },
    /// A client's message, passed on verbatim.
    Relay { text: String },
}

pub enum NoticeView {
    SenderSession { session_id: Seq<char> },
    ReceiverSession { session_id: Seq<char>, senders: Seq<SenderInfoView> },
    SenderList { senders: Seq<SenderInfoView> },
    Failure { code: u32, message: Seq<char> },
    PeerClosed { code: u32 },
    Relay { text: Seq<char> },
}

impl View for Notice {
    type V = NoticeView;

    open spec fn view(&self) -> NoticeView {
        match self {
            Notice::SenderSession { session_id } => NoticeView::SenderSession { session_id: session_id@ },
            Notice::ReceiverSession { session_id, senders } => NoticeView::ReceiverSession {
                session_id: session_id@,
                senders: infos_view(senders@),
            },
            Notice::SenderList { senders } => NoticeView::SenderList { senders: infos_view(senders@) },
            Notice::Failure { code, message } => NoticeView::Failure { code: *code, message: message@ },
            Notice::PeerClosed { code } => NoticeView::PeerClosed { code: *code },
            Notice::Relay { text } => NoticeView::Relay { text: text@ },
        }
    }
}

impl NoticeView {
    /// The `type` field of the message; a relayed message is passed on as
    /// it came.
    pub open spec fn code(self) -> Option<u32> {
        match self {
            NoticeView::SenderSession { .. } => Some(SENDER_SESSION_ID),
            NoticeView::ReceiverSession { .. } => Some(RECEIVER_SESSION_ID),
            NoticeView::SenderList { .. } => Some(RECEIVER_SENDER_LIST),
            NoticeView::Failure { code, .. } => Some(code),
            NoticeView::PeerClosed { code } => Some(code),
            NoticeView::Relay { .. } => None,
        }
    }
}

impl Notice {
    /// The `type` field of the message; `None` for a relayed message.
    pub fn type_code(&self) -> (res: Option<u32>)
        ensures
            res == self@.code(),
    {
        match self {
            Notice::SenderSession { .. } => Some(SENDER_SESSION_ID),
            Notice::ReceiverSession { .. } => Some(RECEIVER_SESSION_ID),
            Notice::SenderList { .. } => Some(RECEIVER_SENDER_LIST),
            Notice::Failure { code, .. } => Some(*code),
            Notice::PeerClosed { code } => Some(*code),
            Notice::Relay { .. } => None,
        }
    }
}

/// A message for the session `to`.
#[derive(Debug)]
pub struct Outgoing {
    pub to: String,
    pub notice: Notice,
}

pub struct OutView {
    pub to: Seq<char>,
    pub notice: NoticeView,
}

impl View for Outgoing {
    type V = OutView;

    open spec fn view(&self) -> OutView {
        OutView { to: self.to@, notice: self.notice@ }
    }
}

pub open spec fn outs_view(v: Seq<Outgoing>) -> Seq<OutView> {
    v.map_values(|o: Outgoing| o@)
}

pub open spec fn strings_view(v: Seq<String>) -> Seq<Seq<char>> {
    v.map_values(|s: String| s@)
}

/// The error text for a message whose addressee is not registered.
pub open spec fn target_not_found() -> Seq<char> {
    "Target not found"@
}

/// Whether a client is told of sender changes under a subject filter: it is
/// a receiver and, when a subject is given, it carries that subject.
pub open spec fn receives_list(c: ClientView, filter_sub: Option<Seq<char>>) -> bool {
    &&& c.protocol == ClientType::Receiver
    &&& match filter_sub {
        Some(sub) => c.auth.sub == Some(sub),
        None => true,
    }
}

/// A sender list for each receiver under the filter, in registration order.
pub open spec fn sender_list_notices(
    cs: Seq<ClientView>,
    filter_sub: Option<Seq<char>>,
    senders: Seq<SenderInfoView>,
) -> Seq<OutView>
    decreases cs.len(),
{
    if cs.len() == 0 {
        Seq::empty()
    } else {
        let rest = sender_list_notices(cs.drop_last(), filter_sub, senders);
        if receives_list(cs.last(), filter_sub) {
            rest.push(OutView { to: cs.last().session_id, notice: NoticeView::SenderList { senders } })
        } else {
            rest
        }
    }
}

/// The sender lists sent after a change among the senders: with a subject,
/// the receivers of that subject get its senders; without, every receiver
/// gets every sender.
pub open spec fn notify_spec(cs: Seq<ClientView>, changed_sub: Option<Seq<char>>) -> Seq<OutView> {
    sender_list_notices(cs, changed_sub, sender_infos(cs, changed_sub))
}

/// An error report to the session `id`, when it is registered.
pub open spec fn error_notices(cs: Seq<ClientView>, id: Seq<char>, protocol: ClientType, message: Seq<char>) -> Seq<
    OutView,
> {
    if has_client(cs, id) {
        seq![OutView { to: id, notice: NoticeView::Failure { code: error_code(protocol), message } }]
    } else {
        Seq::empty()
    }
}

/// A client connects under `id`: it is registered (replacing any client of
/// that id). A sender makes the receivers of its subject (all receivers,
/// without one) get a new sender list, then is told its id; a receiver is
/// told its id and the senders of its subject (all senders, without one).
pub open spec fn connect_spec(s: StateView, id: Seq<char>, protocol: ClientType, auth: AuthView, now: u64) -> (
    StateView,
    Seq<OutView>,
) {
    let c = ClientView { session_id: id, protocol, last_active: now, platform: None, gpu: None, auth };
    let cs = upsert_client(s.clients, c);
    let out = match protocol {
        ClientType::Sender => notify_spec(cs, auth.sub).push(
            OutView { to: id, notice: NoticeView::SenderSession { session_id: id } },
        ),
        ClientType::Receiver => seq![
            OutView {
                to: id,
                notice: NoticeView::ReceiverSession { session_id: id, senders: sender_infos(cs, auth.sub) },
            },
        ],
    };
    (s.with_clients(cs), out)
}

/// The session a client's message is addressed to: `ws1Id` (a sender) for
/// a receiver, `ws2Id` (a receiver) for a sender.
pub open spec fn target_of(env: EnvelopeView, protocol: ClientType) -> Option<Seq<char>> {
    match protocol {
        ClientType::Receiver => env.ws1_id,
        ClientType::Sender => env.ws2_id,
    }
}

/// The outcome of reading a message, as views.
pub open spec fn parsed_view(p: Result<Envelope, String>) -> Result<EnvelopeView, Seq<char>> {
    match p {
        Ok(env) => Ok(env@),
        Err(msg) => Err(msg@),
    }
}

/// A message `raw` arrives from session `id`, read as `parsed`.
///
/// The session's activity time becomes `now`. A text that is not JSON is
/// answered with an error carrying the parser's description. A sender's
/// platform info (type 110) records its platform and GPU and sends the new
/// sender list to the receivers of its subject. Any other message names its
/// addressee (`ws1Id` from a receiver, `ws2Id` from a sender): the sender
/// of the message is paired with it, and the text is relayed verbatim when
/// a client of the other type is registered under that id; otherwise the
/// sender of the message gets the error "Target not found".
pub open spec fn message_spec(
    s: StateView,
    id: Seq<char>,
    protocol: ClientType,
    raw: Seq<char>,
    parsed: Result<EnvelopeView, Seq<char>>,
    now: u64,
) -> (StateView, Seq<OutView>) {
    let s1 = s.with_clients(touch_clients(s.clients, id, now));
    match parsed {
        Err(message) => (s1, error_notices(s1.clients, id, protocol, message)),
        Ok(env) => {
            if env.msg_type == Some(SENDER_PLATFORM_INFO as u64) && protocol == ClientType::Sender {
                let cs = set_platform(s1.clients, id, env.platform, env.gpu);
                (s1.with_clients(cs), notify_spec(cs, sub_of(s1.clients, id)))
            } else {
                match target_of(env, protocol) {
                    Some(t) => {
                        let s2 = s1.with_pairs(upsert_pair(s1.pairs, id, t));
                        if has_peer(s2.clients, protocol.peer(), t) {
                            (s2, seq![OutView { to: t, notice: NoticeView::Relay { text: raw } }])
                        } else {
                            (s2, error_notices(s2.clients, id, protocol, target_not_found()))
                        }
                    },
                    None => (s1, error_notices(s1.clients, id, protocol, target_not_found())),
                }
            }
        },
    }
}

/// Session `id` leaves. If it was paired, its pairing and its peer's are
/// dropped and a registered peer of the other type is told that it left;
/// then it is unregistered, and when it was a sender the receivers of its
/// subject (all receivers, without one) get a new sender list.
pub open spec fn disconnect_spec(s: StateView, id: Seq<char>, protocol: ClientType) -> (StateView, Seq<OutView>) {
    let closing = match pair_of(s.pairs, id) {
        Some(t) => if has_peer(s.clients, protocol.peer(), t) {
            seq![OutView { to: t, notice: NoticeView::PeerClosed { code: close_code(protocol) } }]
        } else {
            Seq::empty()
        },
        None => Seq::empty(),
    };
    let cs = remove_client(s.clients, id);
    let listing = if protocol == ClientType::Sender {
        notify_spec(cs, sub_of(s.clients, id))
    } else {
        Seq::empty()
    };
    (s.with_clients(cs).with_pairs(unpair(s.pairs, id)), closing + listing)
}

/// The idle sweep at `now`: every client idle for longer than the timeout
/// is unregistered, and each of them in turn is unpaired together with its
/// peer. Yields the ids of the dropped sessions.
pub open spec fn sweep_spec(s: StateView, now: u64) -> (StateView, Seq<Seq<char>>) {
    let ids = inactive_ids(s.clients, now);
    (s.with_clients(active_clients(s.clients, now)).with_pairs(unpair_all(s.pairs, ids)), ids)
}

/// The session a client's message is addressed to: `ws1Id` for a receiver,
/// `ws2Id` for a sender.
pub fn get_target_session_id(env: &Envelope, current_protocol: ClientType) -> (res: Option<String>)
    ensures
        opt_view(res) == target_of(env@, current_protocol),
{
    match current_protocol {
        ClientType::Receiver => copy_opt(&env.ws1_id),
        ClientType::Sender => copy_opt(&env.ws2_id),
    }
}

/// Whether an optional subject claim passes a subject filter.
fn sub_passes(sub: &Option<String>, filter_sub: &Option<String>) -> (res: bool)
    ensures
        res == match opt_view(*filter_sub) {
            Some(f) => opt_view(*sub) == Some(f),
            None => true,
        },
{
    match filter_sub {
        Some(f) => match sub {
            Some(s) => *s == *f,
            None => false,
        },
        None => true,
    }
}

impl AppState {
    /// The sender lists sent after a change among the senders of
    /// `changed_sub` (of all senders, when `None`).
    pub fn notify_sender_list(&self, changed_sub: &Option<String>) -> (res: Vec<Outgoing>)
        ensures
            outs_view(res@) == notify_spec(self@.clients, opt_view(*changed_sub)),
    {
        proof {
            use_type_invariant(&*self);
        }
        let senders = self.get_senders(changed_sub);
        let ghost sv = infos_view(senders@);
        let ghost f = opt_view(*changed_sub);
        let ghost cs = self@.clients;
        let n = self.client_count();
        let mut res: Vec<Outgoing> = Vec::new();
        let mut i: usize = 0;
        while i < n
            invariant
                n == cs.len(),
                cs == self@.clients,
                self@.wf(),
                i <= n,
                sv == infos_view(senders@),
                sv == sender_infos(cs, f),
                f == opt_view(*changed_sub),
                outs_view(res@) == sender_list_notices(cs.take(i as int), f, sv),
            decreases n - i,
        {
            let (id, protocol, sub) = self.client_key(i);
            assert(cs.take(i + 1).drop_last() =~= cs.take(i as int));
            assert(cs.take(i + 1).last() == cs[i as int]);
            if protocol == ClientType::Receiver && sub_passes(&sub, changed_sub) {
                let ghost before = res@;
                let o = Outgoing { to: id, notice: Notice::SenderList { senders: copy_infos(&senders) } };
                res.push(o);
                assert(outs_view(res@) =~= outs_view(before).push(o@));
            }
            i = i + 1;
        }
        assert(cs.take(n as int) =~= cs);
        res
    }

    /// An error report to session `session_id`, when it is registered.
    pub fn send_error(&self, session_id: &String, protocol: ClientType, message: String) -> (res: Vec<Outgoing>)
        ensures
            outs_view(res@) == error_notices(self@.clients, session_id@, protocol, message@),
    {
        proof {
            use_type_invariant(&*self);
        }
        let mut res: Vec<Outgoing> = Vec::new();
        if self.is_registered(session_id) {
            let o = Outgoing {
                to: session_id.clone(),
                notice: Notice::Failure { code: error_type(protocol), message },
            };
            res.push(o);
            assert(outs_view(res@) =~= seq![o@]);
        } else {
            assert(outs_view(res@) =~= Seq::<OutView>::empty());
        }
        res
    }

    /// A client connects under `session_id`; see `connect_spec`.
    pub fn connect(&mut self, session_id: String, protocol: ClientType, auth: AuthInfo, now: u64) -> (res: Vec<
        Outgoing,
    >)
        ensures
            (final(self)@, outs_view(res@)) == connect_spec(old(self)@, session_id@, protocol, auth@, now),
    {
        proof {
            use_type_invariant(&*self);
        }
        let auth_sub = copy_opt(&auth.sub);
        let c = Client {
            session_id: session_id.clone(),
            protocol,
            last_active: now,
            platform: None,
            gpu: None,
            auth,
        };
        self.put_client(c);
        match protocol {
            ClientType::Sender => {
                let mut res = self.notify_sender_list(&auth_sub);
                let ghost before = res@;
                let o = Outgoing {
                    to: session_id.clone(),
                    notice: Notice::SenderSession { session_id },
                };
                res.push(o);
                assert(outs_view(res@) =~= outs_view(before).push(o@));
                res
            },
            ClientType::Receiver => {
                let senders = self.get_senders(&auth_sub);
                let mut res: Vec<Outgoing> = Vec::new();
                let o = Outgoing {
                    to: session_id.clone(),
                    notice: Notice::ReceiverSession { session_id, senders },
                };
                res.push(o);
                assert(outs_view(res@) =~= seq![o@]);
                res
            },
        }
    }

    /// A client connects under a fresh random session id, which is handed
    /// back with the messages of `connect`.
    pub fn open_session(&mut self, protocol: ClientType, auth: AuthInfo, now: u64) -> (res: (String, Vec<Outgoing>))
        ensures
            is_session_id(res.0@),
            (final(self)@, outs_view(res.1@)) == connect_spec(old(self)@, res.0@, protocol, auth@, now),
    {
        proof {
            use_type_invariant(&*self);
        }
        let id = new_session_id();
        let out = self.connect(id.clone(), protocol, auth, now);
        (id, out)
    }

    /// A message `raw` from session `session_id`, already read as `parsed`;
    /// see `message_spec`.
    pub fn apply_message(
        &mut self,
        session_id: &String,
        protocol: ClientType,
        raw: &str,
        parsed: Result<Envelope, String>,
        now: u64,
    ) -> (res: Vec<Outgoing>)
        ensures
            (final(self)@, outs_view(res@)) == message_spec(
                old(self)@,
                session_id@,
                protocol,
                raw@,
                parsed_view(parsed),
                now,
            ),
    {
        proof {
            use_type_invariant(&*self);
        }
        self.touch(session_id, now);
        match parsed {
            Err(message) => self.send_error(session_id, protocol, message),
            Ok(env) => {
                let is_platform_info = match env.msg_type {
                    Some(t) => t == SENDER_PLATFORM_INFO as u64,
                    None => false,
                };
                if is_platform_info && protocol == ClientType::Sender {
                    let changed_sub = self.record_platform(session_id, env.platform, env.gpu);
                    return self.notify_sender_list(&changed_sub);
                }
                let target_protocol = get_target_protocol(protocol);
                let target = get_target_session_id(&env, protocol);
                let not_found = String::from_str("Target not found");
                match target {
                    Some(t) => {
                        self.put_pair(session_id.clone(), t.clone());
                        if self.find_client_sender(target_protocol, &t) {
                            let mut res: Vec<Outgoing> = Vec::new();
                            let o = Outgoing { to: t, notice: Notice::Relay { text: String::from_str(raw) } };
                            res.push(o);
                            assert(outs_view(res@) =~= seq![o@]);
                            res
                        } else {
                            self.send_error(session_id, protocol, not_found)
                        }
                    },
                    None => self.send_error(session_id, protocol, not_found),
                }
            },
        }
    }

    /// A message `raw` arrives from session `session_id`: it is parsed as
    /// JSON and handled as `apply_message` says, with the parser's outcome.
    pub fn handle_message(&mut self, session_id: &String, protocol: ClientType, raw: &str, now: u64) -> (res: Vec<
        Outgoing,
    >)
        ensures
            (final(self)@, outs_view(res@)) == message_spec(
                old(self)@,
                session_id@,
                protocol,
                raw@,
                parsed_message(raw@),
                now,
            ),
    {
        proof {
            use_type_invariant(&*self);
        }
        let parsed = parse_envelope(raw);
        assert(parsed_view(parsed) == parsed_message(raw@));
        self.apply_message(session_id, protocol, raw, parsed, now)
    }

    /// Session `session_id` of type `protocol` leaves; see `disconnect_spec`.
    pub fn disconnect(&mut self, session_id: &String, protocol: ClientType) -> (res: Vec<Outgoing>)
        ensures
            (final(self)@, outs_view(res@)) == disconnect_spec(old(self)@, session_id@, protocol),
    {
        proof {
            use_type_invariant(&*self);
        }
        let ghost s0 = self@;
        let mut res: Vec<Outgoing> = Vec::new();
        match self.take_pair(session_id) {
            Some(t) => {
                let target_protocol = get_target_protocol(protocol);
                if self.find_client_sender(target_protocol, &t) {
                    let o = Outgoing { to: t.clone(), notice: Notice::PeerClosed { code: close_type(protocol) } };
                    res.push(o);
                    assert(outs_view(res@) =~= seq![o@]);
                }
                let _ = self.take_pair(&t);
            },
            None => {},
        }
        assert(self@.pairs == unpair(s0.pairs, session_id@));
        let ghost closing = outs_view(res@);
        let changed_sub = self.client_sub(session_id);
        let _ = self.take_client(session_id);
        if protocol == ClientType::Sender {
            let mut more = self.notify_sender_list(&changed_sub);
            let ghost m = outs_view(more@);
            let ghost before = res@;
            res.append(&mut more);
            assert(outs_view(res@) =~= outs_view(before) + m);
        } else {
            assert(outs_view(res@) =~= closing + Seq::<OutView>::empty());
        }
        res
    }

    /// The idle sweep at `now`; see `sweep_spec`. Yields the ids of the
    /// dropped sessions.
    pub fn remove_inactive(&mut self, now: u64) -> (res: Vec<String>)
        ensures
            (final(self)@, strings_view(res@)) == sweep_spec(old(self)@, now),
    {
        proof {
            use_type_invariant(&*self);
        }
        let ghost s0 = self@;
        let ids = self.idle_sessions(now);
        let ghost idv = strings_view(ids@);
        let n = ids.len();
        let mut i: usize = 0;
        while i < n
            invariant
                n == ids.len(),
                idv == strings_view(ids@),
                idv == inactive_ids(s0.clients, now),
                i <= n,
                self@.wf(),
                self@ == s0.with_pairs(unpair_all(s0.pairs, idv.take(i as int))),
            decreases n - i,
        {
            assert(idv.take(i + 1).drop_last() =~= idv.take(i as int));
            assert(idv.take(i + 1).last() == ids@[i as int]@);
            match self.take_pair(&ids[i]) {
                Some(t) => {
                    let _ = self.take_pair(&t);
                },
                None => {},
            }
            i = i + 1;
        }
        assert(idv.take(n as int) =~= idv);
        self.drop_idle_clients(now);
        ids
    }
}

} // verus!
