//! Opening a replication connection: startup, authentication, readiness.
//!
//! The connection is driven by the messages that the server sends. For each one the state says
//! whether to send a payload, to read on, to stop with an error, or that the server is ready.
use crate::bytes::{
    be_bytes, be_value, law_be_reads_back, law_be_writes_back, lemma_be_bytes_len,
    lemma_capacities, lemma_next_of, next_of, read_be, tail,
};
use crate::number::{decimal, push_decimal};
use crate::text::copy_str;
use crate::wal_proto::crypto::base64_text;
use crate::wal_proto::scram::{
    answer_server_first, answers, build_client_first_bare, build_initial_payload,
    check_server_final, client_first_bare, final_verdict, fresh_nonce, has_scram, initial_payload,
    no_mechanism, no_mechanism_text, no_nonce_text, offers_scram, Answer, NONCE_BYTES,
};
use crate::wal_proto::wire::{
    decode_error, error_text, startup_body, startup_message, startup_packet, startup_params,
    RecvError, RecvFault, PROTOCOL_VERSION,
};
use vstd::prelude::*;
use vstd::utf8::{encode_utf8, is_ascii_chars, is_ascii_chars_encode_utf8};

verus! {

// ---------------------------------------------------------------------------
// The startup packet of a replication connection.
// ---------------------------------------------------------------------------
/// The startup parameters of a replication connection.
pub open spec fn replication_params<'a>(user: &'a str, application_name: &'a str) -> Seq<
    (&'a str, &'a str),
> {
    seq![
        ("user", user),
        ("database", "replication"),
        ("replication", "true"),
        ("application_name", application_name),
        ("client_encoding", "UTF8"),
    ]
}

/// The first bytes that a replication connection sends.
pub fn connect_startup(user: &str, application_name: &str) -> (r: Vec<u8>)
    requires
        startup_body(replication_params(user, application_name)).len() + 4 <= u32::MAX,
    ensures
        r@ == startup_packet(replication_params(user, application_name)),
{
    let params = [
        ("user", user),
        ("database", "replication"),
        ("replication", "true"),
        ("application_name", application_name),
        ("client_encoding", "UTF8"),
    ];
    assert(params@ == replication_params(user, application_name));
    startup_message(params.as_slice())
}

// ---------------------------------------------------------------------------
// The model.
// ---------------------------------------------------------------------------
/// Where authentication stands.
pub enum Phase {
    /// No SCRAM exchange is under way.
    Waiting,
    /// The first SCRAM message is out: its bare form and the nonce in it.
    Announced(Seq<char>, Seq<char>),
    /// The proof is out: the signature that the server owes.
    Proved(Seq<char>),
}

/// What a message leads to.
pub enum Reaction {
    /// Read the next message.
    Read,
    /// Send this payload under the tag `p`, then read the next message.
    Send(Seq<u8>),
    /// The server is ready for queries.
    Ready,
    /// The connection is of no use.
    Fail(RecvFault),
}

/// The authentication request that a payload carries.
pub open spec fn auth_kind(payload: Seq<u8>) -> nat {
    be_value(payload.take(4))
}

/// A failure of the SCRAM exchange.
pub open spec fn scram_failure(m: Seq<char>) -> Reaction {
    Reaction::Fail(RecvFault::Protocol("SCRAM auth: "@ + m))
}

/// Whether the message is one that the client answers with a fresh nonce.
pub open spec fn needs_nonce(
    phase: Phase,
    password: Option<Seq<char>>,
    tag: u8,
    payload: Seq<u8>,
) -> bool {
    &&& phase is Waiting
    &&& tag == 'R' as u8
    &&& payload.len() >= 4
    &&& auth_kind(payload) == 10
    &&& password is Some
    &&& offers_scram(payload.skip(4))
}

/// What an authentication request leads to, outside of a SCRAM exchange.
pub open spec fn on_auth_request(
    user: Seq<char>,
    password: Option<Seq<char>>,
    payload: Seq<u8>,
    cnonce: Seq<char>,
) -> (Phase, Reaction) {
    if payload.len() < 4 {
        (Phase::Waiting, Reaction::Fail(RecvFault::Protocol("short AuthenticationMessage"@)))
    } else if auth_kind(payload) == 0 {
        (Phase::Waiting, Reaction::Read)
    } else if auth_kind(payload) == 5 {
        (
            Phase::Waiting,
            Reaction::Fail(
                RecvFault::Config(
                    "MD5 auth is not supported; configure the server for SCRAM-SHA-256 or trust"@,
                ),
            ),
        )
    } else if auth_kind(payload) == 10 {
        if password is None {
            (
                Phase::Waiting,
                Reaction::Fail(
                    RecvFault::Config(
                        "server requires SCRAM-SHA-256 authentication but no password was provided"@,
                    ),
                ),
            )
        } else if !offers_scram(payload.skip(4)) {
            (Phase::Waiting, scram_failure(no_mechanism_text(payload.skip(4))))
        } else {
            let bare = client_first_bare(user, cnonce);
            (Phase::Announced(bare, cnonce), Reaction::Send(initial_payload(bare)))
        }
    } else {
        (
            Phase::Waiting,
            Reaction::Fail(
                RecvFault::Config(
                    "unsupported auth method "@ + decimal(auth_kind(payload))
                        + "; only trust and SCRAM-SHA-256 are supported"@,
                ),
            ),
        )
    }
}

/// What a message leads to, outside of a SCRAM exchange.
pub open spec fn on_plain_message(
    user: Seq<char>,
    password: Option<Seq<char>>,
    tag: u8,
    payload: Seq<u8>,
    cnonce: Seq<char>,
) -> (Phase, Reaction) {
    if tag == 'R' as u8 {
        on_auth_request(user, password, payload, cnonce)
    } else if tag == 'S' as u8 || tag == 'K' as u8 || tag == 'N' as u8 {
        (Phase::Waiting, Reaction::Read)
    } else if tag == 'Z' as u8 {
        (Phase::Waiting, Reaction::Ready)
    } else if tag == 'E' as u8 {
        (
            Phase::Waiting,
            Reaction::Fail(RecvFault::Protocol("postgres error: "@ + error_text(payload))),
        )
    } else {
        (
            Phase::Waiting,
            Reaction::Fail(
                RecvFault::Protocol(
                    "unexpected tag "@ + decimal(tag as nat) + " during connect"@,
                ),
            ),
        )
    }
}

/// The complaint about a message that is not the expected step of the exchange, if it is not.
pub open spec fn wrong_step(
    tag: u8,
    payload: Seq<u8>,
    kind: nat,
    expected: Seq<char>,
    expected_kind: Seq<char>,
) -> Option<Seq<char>> {
    if tag != 'R' as u8 || payload.len() < 4 {
        Some(expected)
    } else if auth_kind(payload) != kind {
        Some(expected_kind + decimal(auth_kind(payload)))
    } else {
        None
    }
}

/// Whether `after` and `reaction` are what a message leads to while the server's first SCRAM
/// message is due.
pub open spec fn on_server_first(
    password: Option<Seq<char>>,
    bare: Seq<char>,
    cnonce: Seq<char>,
    tag: u8,
    payload: Seq<u8>,
    after: Phase,
    reaction: Reaction,
) -> bool {
    match wrong_step(
        tag,
        payload,
        11,
        "expected AuthenticationSASLContinue"@,
        "expected SASL continue (11), got "@,
    ) {
        Some(m) => after == Phase::Waiting && reaction == scram_failure(m),
        None => exists|out: Result<Answer, Seq<char>>|
            {
                &&& #[trigger] answers(password->0, bare, cnonce, payload.skip(4), out)
                &&& match out {
                    Ok(a) => after == Phase::Proved(a.signature) && reaction == Reaction::Send(
                        a.response,
                    ),
                    Err(m) => after == Phase::Waiting && reaction == scram_failure(m),
                }
            },
    }
}

/// What a message leads to while the server's signature is due.
pub open spec fn on_server_final(signature: Seq<char>, tag: u8, payload: Seq<u8>) -> Reaction {
    match wrong_step(
        tag,
        payload,
        12,
        "expected AuthenticationSASLFinal"@,
        "expected SASL final (12), got "@,
    ) {
        Some(m) => scram_failure(m),
        None => match final_verdict(payload.skip(4), signature) {
            Ok(_) => Reaction::Read,
            Err(m) => scram_failure(m),
        },
    }
}

/// Whether `after` and `reaction` are what a message leads to.
pub open spec fn leads_to(
    user: Seq<char>,
    password: Option<Seq<char>>,
    before: Phase,
    tag: u8,
    payload: Seq<u8>,
    cnonce: Seq<char>,
    after: Phase,
    reaction: Reaction,
) -> bool {
    match before {
        Phase::Waiting => (after, reaction) == on_plain_message(
            user,
            password,
            tag,
            payload,
            cnonce,
        ),
        Phase::Announced(bare, sent) => on_server_first(
            password,
            bare,
            sent,
            tag,
            payload,
            after,
            reaction,
        ),
        Phase::Proved(signature) => after == Phase::Waiting && reaction == on_server_final(
            signature,
            tag,
            payload,
        ),
    }
}

// ---------------------------------------------------------------------------
// The driver.
// ---------------------------------------------------------------------------
/// Where authentication stands, as held by a connection.
pub enum AuthPhase {
    Waiting,
    Announced { bare: String, cnonce: String },
    Proved { signature: String },
}

impl View for AuthPhase {
    type V = Phase;

    open spec fn view(&self) -> Phase {
        match self {
            AuthPhase::Waiting => Phase::Waiting,
            AuthPhase::Announced { bare, cnonce } => Phase::Announced(bare@, cnonce@),
            AuthPhase::Proved { signature } => Phase::Proved(signature@),
        }
    }
}

/// What the owner of the socket has to do next.
pub enum ConnectStep {
    Read,
    Send(Vec<u8>),
    Ready,
    Fail(RecvError),
}

impl View for ConnectStep {
    type V = Reaction;

    open spec fn view(&self) -> Reaction {
        match self {
            ConnectStep::Read => Reaction::Read,
            ConnectStep::Send(p) => Reaction::Send(p@),
            ConnectStep::Ready => Reaction::Ready,
            ConnectStep::Fail(e) => Reaction::Fail(e@),
        }
    }
}

/// A connection that is being opened.
pub struct Connecting {
    pub user: String,
    pub password: Option<String>,
    pub phase: AuthPhase,
}

fn protocol(m: &str) -> (r: ConnectStep)
    ensures
        r@ == Reaction::Fail(RecvFault::Protocol(m@)),
{
    ConnectStep::Fail(RecvError::Protocol(copy_str(m)))
}

fn config(m: &str) -> (r: ConnectStep)
    ensures
        r@ == Reaction::Fail(RecvFault::Config(m@)),
{
    ConnectStep::Fail(RecvError::Config(copy_str(m)))
}

fn scram_failed(m: &str) -> (r: ConnectStep)
    ensures
        r@ == scram_failure(m@),
{
    let mut out = String::new();
    out.append("SCRAM auth: ");
    out.append(m);
    ConnectStep::Fail(RecvError::Protocol(out))
}

fn kind_of(payload: &[u8]) -> (r: u64)
    requires
        payload@.len() >= 4,
    ensures
        r == auth_kind(payload@),
{
    assert(payload@.subrange(0, 4) == payload@.take(4));
    read_be(payload, 0, 4)
}

fn step_complaint(
    tag: u8,
    payload: &[u8],
    kind: u64,
    expected: &str,
    expected_kind: &str,
) -> (r: Option<String>)
    ensures
        match r {
            Some(m) => wrong_step(tag, payload@, kind as nat, expected@, expected_kind@) == Some(m@),
            None => wrong_step(tag, payload@, kind as nat, expected@, expected_kind@) is None,
        },
{
    if tag != 82 || payload.len() < 4 {
        return Some(copy_str(expected));
    }
    let found: u64 = kind_of(payload);
    if found != kind {
        let mut out = String::new();
        out.append(expected_kind);
        push_decimal(&mut out, found);
        return Some(out);
    }
    None
}

impl Connecting {
    /// The password, as text.
    pub open spec fn password_text(&self) -> Option<Seq<char>> {
        match self.password {
            Some(p) => Some(p@),
            None => None,
        }
    }

    /// While an exchange is under way there is a password.
    pub open spec fn wf(&self) -> bool {
        self.phase@ is Waiting || self.password is Some
    }

    /// A connection whose startup packet has just been sent.
    pub fn new(user: &str, password: Option<&str>) -> (r: Connecting)
        ensures
            r.wf(),
            r.user@ == user@,
            r.phase@ == Phase::Waiting,
            r.password_text() == (match password {
                Some(p) => Some(p@),
                None => None,
            }),
    {
        let password = match password {
            Some(p) => Some(copy_str(p)),
            None => None,
        };
        Connecting { user: copy_str(user), password, phase: AuthPhase::Waiting }
    }

    fn wants_nonce(&self, tag: u8, payload: &[u8]) -> (r: bool)
        ensures
            r == needs_nonce(self.phase@, self.password_text(), tag, payload@),
    {
        match self.phase {
            AuthPhase::Waiting => tag == 82 && payload.len() >= 4 && kind_of(payload) == 10
                && self.password.is_some() && has_scram(tail(payload, 4)),
            _ => false,
        }
    }

    fn on_auth_request(&mut self, payload: &[u8], cnonce: &str) -> (r: ConnectStep)
        requires
            old(self).phase@ is Waiting,
        ensures
            final(self).user == old(self).user,
            final(self).password == old(self).password,
            final(self).wf(),
            (final(self).phase@, r@) == on_auth_request(
                old(self).user@,
                old(self).password_text(),
                payload@,
                cnonce@,
            ),
    {
        if payload.len() < 4 {
            return protocol("short AuthenticationMessage");
        }
        let kind: u64 = kind_of(payload);
        if kind == 0 {
            return ConnectStep::Read;
        }
        if kind == 5 {
            return config(
                "MD5 auth is not supported; configure the server for SCRAM-SHA-256 or trust",
            );
        }
        if kind == 10 {
            if self.password.is_none() {
                return config(
                    "server requires SCRAM-SHA-256 authentication but no password was provided",
                );
            }
            let mechanisms: &[u8] = tail(payload, 4);
            if !has_scram(mechanisms) {
                return scram_failed(no_mechanism(mechanisms).as_str());
            }
            let bare: String = build_client_first_bare(self.user.as_str(), cnonce);
            let first: Vec<u8> = build_initial_payload(bare.as_str());
            self.phase = AuthPhase::Announced { bare, cnonce: copy_str(cnonce) };
            return ConnectStep::Send(first);
        }
        let mut out = String::new();
        out.append("unsupported auth method ");
        push_decimal(&mut out, kind);
        out.append("; only trust and SCRAM-SHA-256 are supported");
        ConnectStep::Fail(RecvError::Config(out))
    }

    fn on_plain_message(&mut self, tag: u8, payload: &[u8], cnonce: &str) -> (r: ConnectStep)
        requires
            old(self).phase@ is Waiting,
        ensures
            final(self).user == old(self).user,
            final(self).password == old(self).password,
            final(self).wf(),
            (final(self).phase@, r@) == on_plain_message(
                old(self).user@,
                old(self).password_text(),
                tag,
                payload@,
                cnonce@,
            ),
    {
        if tag == 82 {
            return self.on_auth_request(payload, cnonce);
        }
        if tag == 83 || tag == 75 || tag == 78 {
            return ConnectStep::Read;
        }
        if tag == 90 {
            return ConnectStep::Ready;
        }
        let mut out = String::new();
        if tag == 69 {
            out.append("postgres error: ");
            out.append(decode_error(payload).as_str());
        } else {
            out.append("unexpected tag ");
            push_decimal(&mut out, tag as u64);
            out.append(" during connect");
        }
        ConnectStep::Fail(RecvError::Protocol(out))
    }

    fn on_server_first(&mut self, bare: &str, sent: &str, tag: u8, payload: &[u8]) -> (r:
        ConnectStep)
        requires
            old(self).phase@ is Waiting,
            old(self).password is Some,
        ensures
            final(self).user == old(self).user,
            final(self).password == old(self).password,
            on_server_first(
                old(self).password_text(),
                bare@,
                sent@,
                tag,
                payload@,
                final(self).phase@,
                r@,
            ),
    {
        match step_complaint(
            tag,
            payload,
            11,
            "expected AuthenticationSASLContinue",
            "expected SASL continue (11), got ",
        ) {
            Some(m) => {
                return scram_failed(m.as_str());
            },
            None => {},
        }
        let answer = match &self.password {
            Some(p) => answer_server_first(p.as_str(), bare, sent, tail(payload, 4)),
            None => Err(String::new()),
        };
        let ghost password = self.password_text()->0;
        match answer {
            Ok(a) => {
                assert(answers(password, bare@, sent@, payload@.skip(4), Ok(a@)));
                self.phase = AuthPhase::Proved { signature: a.signature };
                ConnectStep::Send(a.response)
            },
            Err(m) => {
                assert(answers(password, bare@, sent@, payload@.skip(4), Err(m@)));
                scram_failed(m.as_str())
            },
        }
    }

    /// Takes the next message from the server; `cnonce` is the nonce that a SCRAM exchange starts
    /// with, should this message start one.
    pub fn on_message_with_nonce(&mut self, tag: u8, payload: &[u8], cnonce: &str) -> (r:
        ConnectStep)
        requires
            old(self).wf(),
        ensures
            final(self).wf(),
            final(self).user == old(self).user,
            final(self).password == old(self).password,
            leads_to(
                old(self).user@,
                old(self).password_text(),
                old(self).phase@,
                tag,
                payload@,
                cnonce@,
                final(self).phase@,
                r@,
            ),
    {
        let mut phase = AuthPhase::Waiting;
        std::mem::swap(&mut phase, &mut self.phase);
        match phase {
            AuthPhase::Waiting => self.on_plain_message(tag, payload, cnonce),
            AuthPhase::Announced { bare, cnonce: sent } => self.on_server_first(
                bare.as_str(),
                sent.as_str(),
                tag,
                payload,
            ),
            AuthPhase::Proved { signature } => {
                match step_complaint(
                    tag,
                    payload,
                    12,
                    "expected AuthenticationSASLFinal",
                    "expected SASL final (12), got ",
                ) {
                    Some(m) => {
                        return scram_failed(m.as_str());
                    },
                    None => {},
                }
                match check_server_final(tail(payload, 4), signature.as_str()) {
                    Ok(()) => ConnectStep::Read,
                    Err(m) => scram_failed(m.as_str()),
                }
            },
        }
    }

    /// Takes the next message from the server. Where the message starts a SCRAM exchange a fresh
    /// nonce is drawn; should that fail, the connection fails with the words of the failure.
    pub fn on_message(&mut self, tag: u8, payload: &[u8]) -> (r: ConnectStep)
        requires
            old(self).wf(),
        ensures
            final(self).wf(),
            final(self).user == old(self).user,
            final(self).password == old(self).password,
            !needs_nonce(old(self).phase@, old(self).password_text(), tag, payload@) ==> leads_to(
                old(self).user@,
                old(self).password_text(),
                old(self).phase@,
                tag,
                payload@,
                seq![],
                final(self).phase@,
                r@,
            ),
            needs_nonce(old(self).phase@, old(self).password_text(), tag, payload@) ==> {
                ||| exists|raw: Seq<u8>|
                    raw.len() == NONCE_BYTES && leads_to(
                        old(self).user@,
                        old(self).password_text(),
                        old(self).phase@,
                        tag,
                        payload@,
                        #[trigger] base64_text(raw),
                        final(self).phase@,
                        r@,
                    )
                ||| final(self).phase@ is Waiting && exists|m: Seq<char>|
                    r@ == scram_failure(#[trigger] no_nonce_text(m))
            },
    {
        if self.wants_nonce(tag, payload) {
            match fresh_nonce() {
                Ok(n) => self.on_message_with_nonce(tag, payload, n.as_str()),
                Err(m) => scram_failed(m.as_str()),
            }
        } else {
            let none = String::new();
            assert(none@ == Seq::<char>::empty());
            self.on_message_with_nonce(tag, payload, none.as_str())
        }
    }
}

// ---------------------------------------------------------------------------
// Laws.
// ---------------------------------------------------------------------------
/// While a SCRAM exchange is under way no message makes the connection ready, and the exchange
/// ends without a failure only on the server's own signature.
pub proof fn law_exchange_must_be_completed(
    user: Seq<char>,
    password: Option<Seq<char>>,
    before: Phase,
    tag: u8,
    payload: Seq<u8>,
    cnonce: Seq<char>,
    after: Phase,
    reaction: Reaction,
)
    requires
        leads_to(user, password, before, tag, payload, cnonce, after, reaction),
        before !is Waiting,
    ensures
        reaction !is Ready,
        after is Waiting && reaction !is Fail ==> before is Proved && tag == 'R' as u8
            && final_verdict(payload.skip(4), before->Proved_0) is Ok,
{
}

/// Without a password a server that asks for one is refused as a matter of configuration, and so
/// is every method but trust and SCRAM.
pub proof fn law_unusable_methods_are_fatal(
    user: Seq<char>,
    password: Option<Seq<char>>,
    payload: Seq<u8>,
    cnonce: Seq<char>,
    after: Phase,
    reaction: Reaction,
)
    requires
        payload.len() >= 4,
        auth_kind(payload) != 0,
        auth_kind(payload) == 10 ==> password is None,
        leads_to(user, password, Phase::Waiting, 'R' as u8, payload, cnonce, after, reaction),
    ensures
        reaction is Fail,
        reaction->Fail_0 is Config,
{
}

/// The pieces of bytes that end in a zero byte.
pub open spec fn zero_ended(s: Seq<u8>) -> Seq<Seq<u8>>
    decreases s.len(),
{
    proof {
        lemma_next_of(s, 0, 0);
    }
    let i = next_of(s, 0, 0);
    if i < s.len() {
        seq![s.take(i)] + zero_ended(s.skip(i + 1))
    } else {
        seq![]
    }
}

/// Names and values that stand in turn, up to the first empty name.
pub open spec fn in_pairs(ps: Seq<Seq<u8>>) -> Seq<(Seq<u8>, Seq<u8>)>
    decreases ps.len(),
{
    if ps.len() < 2 || ps[0].len() == 0 {
        seq![]
    } else {
        seq![(ps[0], ps[1])] + in_pairs(ps.skip(2))
    }
}

/// The names and values that the server reads in a startup packet: behind its length and the
/// version.
pub open spec fn startup_pairs(packet: Seq<u8>) -> Seq<(Seq<u8>, Seq<u8>)> {
    in_pairs(zero_ended(packet.skip(8)))
}

/// Whether no byte is zero.
pub open spec fn no_zero(s: Seq<u8>) -> bool {
    forall|i: int| 0 <= i < s.len() ==> #[trigger] s[i] != 0
}

proof fn lemma_zero_ended(a: Seq<u8>, rest: Seq<u8>)
    requires
        no_zero(a),
    ensures
        zero_ended(a.push(0) + rest) == seq![a] + zero_ended(rest),
{
    let s = a.push(0) + rest;
    lemma_next_of(s, 0, 0);
    assert(s[a.len() as int] == 0);
    assert forall|j: int| 0 <= j < a.len() implies s[j] != 0 by {
        assert(s[j] == a[j]);
    }
    assert(next_of(s, 0, 0) == a.len());
    assert(s.take(a.len() as int) =~= a);
    assert(s.skip(a.len() as int + 1) =~= rest);
}

proof fn lemma_ascii_bytes(s: Seq<char>)
    requires
        is_ascii_chars(s),
        forall|i: int| 0 <= i < s.len() ==> #[trigger] s[i] != '\0',
    ensures
        no_zero(encode_utf8(s)),
        encode_utf8(s).len() == s.len(),
{
    is_ascii_chars_encode_utf8(s);
    let e = encode_utf8(s);
    assert forall|i: int| 0 <= i < e.len() implies #[trigger] e[i] != 0 by {
        assert(s[i] != '\0');
    }
}

/// The names and values of parameters, as bytes.
spec fn param_bytes(ps: Seq<(&str, &str)>) -> Seq<(Seq<u8>, Seq<u8>)> {
    ps.map_values(|p: (&str, &str)| (encode_utf8(p.0@), encode_utf8(p.1@)))
}

/// The names and values of parameters in turn, as bytes.
spec fn flat_bytes(ps: Seq<(&str, &str)>) -> Seq<Seq<u8>>
    decreases ps.len(),
{
    if ps.len() == 0 {
        seq![]
    } else {
        flat_bytes(ps.drop_last()).push(encode_utf8(ps.last().0@)).push(encode_utf8(ps.last().1@))
    }
}

/// Whether a parameter can be told: its name is not empty, and neither holds a zero byte.
spec fn can_be_told(p: (&str, &str)) -> bool {
    encode_utf8(p.0@).len() > 0 && no_zero(encode_utf8(p.0@)) && no_zero(encode_utf8(p.1@))
}

proof fn lemma_params_split(ps: Seq<(&str, &str)>, rest: Seq<u8>)
    requires
        forall|i: int| 0 <= i < ps.len() ==> can_be_told(#[trigger] ps[i]),
    ensures
        zero_ended(startup_params(ps) + rest) == flat_bytes(ps) + zero_ended(rest),
    decreases ps.len(),
{
    if ps.len() == 0 {
        assert(startup_params(ps) + rest =~= rest);
        assert(flat_bytes(ps) + zero_ended(rest) =~= zero_ended(rest));
    } else {
        let init = ps.drop_last();
        let last = ps[ps.len() - 1];
        assert(can_be_told(last));
        let (n, v) = (encode_utf8(last.0@), encode_utf8(last.1@));
        assert forall|i: int| 0 <= i < init.len() implies can_be_told(#[trigger] init[i]) by {
            assert(init[i] == ps[i]);
        }
        let more = v.push(0) + rest;
        lemma_params_split(init, n.push(0) + more);
        lemma_zero_ended(n, more);
        lemma_zero_ended(v, rest);
        assert(startup_params(ps) + rest =~= startup_params(init) + (n.push(0) + more));
        assert(flat_bytes(init) + (seq![n] + (seq![v] + zero_ended(rest))) =~= flat_bytes(ps)
            + zero_ended(rest));
    }
}

proof fn lemma_params_pair(ps: Seq<(&str, &str)>, more: Seq<Seq<u8>>)
    requires
        forall|i: int| 0 <= i < ps.len() ==> can_be_told(#[trigger] ps[i]),
    ensures
        in_pairs(flat_bytes(ps) + more) == param_bytes(ps) + in_pairs(more),
    decreases ps.len(),
{
    if ps.len() == 0 {
        assert(flat_bytes(ps) + more =~= more);
        assert(param_bytes(ps) + in_pairs(more) =~= in_pairs(more));
    } else {
        let init = ps.drop_last();
        let last = ps[ps.len() - 1];
        assert(can_be_told(last));
        let (n, v) = (encode_utf8(last.0@), encode_utf8(last.1@));
        assert forall|i: int| 0 <= i < init.len() implies can_be_told(#[trigger] init[i]) by {
            assert(init[i] == ps[i]);
        }
        let tail = seq![n, v] + more;
        lemma_params_pair(init, tail);
        assert(tail.skip(2) =~= more);
        assert(flat_bytes(ps) + more =~= flat_bytes(init) + tail);
        assert(param_bytes(init) + (seq![(n, v)] + in_pairs(more)) =~= param_bytes(ps) + in_pairs(
            more,
        ));
    }
}

#[verifier::rlimit(60)]
proof fn lemma_packet_reads_back(ps: Seq<(&str, &str)>)
    requires
        forall|i: int| 0 <= i < ps.len() ==> can_be_told(#[trigger] ps[i]),
    ensures
        startup_pairs(startup_packet(ps)) == param_bytes(ps),
{
    let none = Seq::<u8>::empty();
    let packet = startup_packet(ps);
    lemma_be_bytes_len(startup_body(ps).len() + 4, 4);
    lemma_be_bytes_len(PROTOCOL_VERSION as nat, 4);
    let end = none.push(0) + none;
    assert(packet.skip(8) =~= startup_params(ps) + end);
    lemma_params_split(ps, end);
    lemma_zero_ended(none, none);
    lemma_next_of(none, 0, 0);
    lemma_params_pair(ps, zero_ended(end));
    assert(zero_ended(end)[0] == none);
    assert(param_bytes(ps) + in_pairs(zero_ended(end)) =~= param_bytes(ps));
}

proof fn lemma_version()
    ensures
        be_bytes(196_608, 4) == seq![0u8, 3u8, 0u8, 0u8],
{
    let version = seq![0u8, 3u8, 0u8, 0u8];
    reveal_with_fuel(be_value, 5);
    assert(version.drop_last() =~= seq![0u8, 3u8, 0u8]);
    assert(version.drop_last().drop_last() =~= seq![0u8, 3u8]);
    assert(version.drop_last().drop_last().drop_last() =~= seq![0u8]);
    assert(version.drop_last().drop_last().drop_last().drop_last() =~= seq![]);
    assert(be_value(version) == 196_608);
    law_be_writes_back(version);
}

proof fn lemma_known_words()
    ensures
        no_zero(encode_utf8("user"@)) && encode_utf8("user"@).len() > 0,
        no_zero(encode_utf8("database"@)) && encode_utf8("database"@).len() > 0,
        no_zero(encode_utf8("replication"@)) && encode_utf8("replication"@).len() > 0,
        no_zero(encode_utf8("true"@)),
        no_zero(encode_utf8("application_name"@)) && encode_utf8("application_name"@).len() > 0,
        no_zero(encode_utf8("client_encoding"@)) && encode_utf8("client_encoding"@).len() > 0,
        no_zero(encode_utf8("UTF8"@)),
{
    reveal_strlit("user");
    reveal_strlit("database");
    reveal_strlit("replication");
    reveal_strlit("true");
    reveal_strlit("application_name");
    reveal_strlit("client_encoding");
    reveal_strlit("UTF8");
    lemma_ascii_bytes("user"@);
    lemma_ascii_bytes("database"@);
    lemma_ascii_bytes("replication"@);
    lemma_ascii_bytes("true"@);
    lemma_ascii_bytes("application_name"@);
    lemma_ascii_bytes("client_encoding"@);
    lemma_ascii_bytes("UTF8"@);
}

/// The first packet of a connection opens a stream of the log for the given user and names the
/// given application: the server reads these names and values in it, each once, and among them that
/// this is a physical replication connection. The packet tells its own length and version 3.0 of
/// the protocol. A user or name with a zero byte cannot be told.
#[verifier::rlimit(60)]
pub proof fn law_connection_asks_for_replication(user: &str, application_name: &str)
    requires
        no_zero(encode_utf8(user@)),
        no_zero(encode_utf8(application_name@)),
        startup_body(replication_params(user, application_name)).len() + 4 <= u32::MAX,
    ensures
        ({
            let packet = startup_packet(replication_params(user, application_name));
            &&& startup_pairs(packet) == seq![
                (encode_utf8("user"@), encode_utf8(user@)),
                (encode_utf8("database"@), encode_utf8("replication"@)),
                (encode_utf8("replication"@), encode_utf8("true"@)),
                (encode_utf8("application_name"@), encode_utf8(application_name@)),
                (encode_utf8("client_encoding"@), encode_utf8("UTF8"@)),
            ]
            &&& be_value(packet.take(4)) == packet.len()
            &&& packet.subrange(4, 8) == seq![0u8, 3u8, 0u8, 0u8]
        }),
{
    let ps = replication_params(user, application_name);
    let packet = startup_packet(ps);
    let body = startup_body(ps);
    lemma_capacities();
    law_be_reads_back(body.len() + 4, 4);
    lemma_be_bytes_len(196_608, 4);
    assert(packet.take(4) =~= be_bytes(body.len() + 4, 4));
    lemma_version();
    assert(packet.subrange(4, 8) =~= be_bytes(196_608, 4));
    lemma_known_words();
    assert forall|i: int| 0 <= i < ps.len() implies can_be_told(#[trigger] ps[i]) by {
        assert(ps[i] == ps[0] || ps[i] == ps[1] || ps[i] == ps[2] || ps[i] == ps[3] || ps[i]
            == ps[4]);
    }
    lemma_packet_reads_back(ps);
    assert(startup_pairs(packet) =~= seq![
        (encode_utf8("user"@), encode_utf8(user@)),
        (encode_utf8("database"@), encode_utf8("replication"@)),
        (encode_utf8("replication"@), encode_utf8("true"@)),
        (encode_utf8("application_name"@), encode_utf8(application_name@)),
        (encode_utf8("client_encoding"@), encode_utf8("UTF8"@)),
    ]);
}

/// Outside of a SCRAM exchange: the server is ready exactly when it says so; it may let the client
/// in without a password; settings, keys and notices are passed over; the report of an error ends
/// the attempt with its words, and so does any other message; and a password is proved only by a
/// SCRAM exchange that the server asked for.
pub proof fn law_plain_messages(
    user: Seq<char>,
    password: Option<Seq<char>>,
    tag: u8,
    payload: Seq<u8>,
    cnonce: Seq<char>,
    after: Phase,
    reaction: Reaction,
)
    requires
        leads_to(user, password, Phase::Waiting, tag, payload, cnonce, after, reaction),
    ensures
        reaction is Ready <==> tag == 'Z' as u8,
        reaction is Read <==> tag == 'S' as u8 || tag == 'K' as u8 || tag == 'N' as u8 || (tag
            == 'R' as u8 && payload.len() >= 4 && be_value(payload.take(4)) == 0),
        reaction is Send <==> tag == 'R' as u8 && payload.len() >= 4 && be_value(payload.take(4))
            == 10 && password is Some && offers_scram(payload.skip(4)),
        reaction is Send ==> reaction->Send_0 == initial_payload(client_first_bare(user, cnonce))
            && after == Phase::Announced(client_first_bare(user, cnonce), cnonce),
        !(reaction is Send) ==> after == Phase::Waiting,
        tag == 'E' as u8 ==> reaction == Reaction::Fail(
            RecvFault::Protocol("postgres error: "@ + error_text(payload)),
        ),
{
}

/// Within a SCRAM exchange the server's first message is one of kind 11 and its last one of kind 12;
/// any other message ends the exchange with a failure, and a proof is sent only for the former.
pub proof fn law_exchange_keeps_its_order(
    user: Seq<char>,
    password: Option<Seq<char>>,
    before: Phase,
    tag: u8,
    payload: Seq<u8>,
    cnonce: Seq<char>,
    after: Phase,
    reaction: Reaction,
)
    requires
        before !is Waiting,
        leads_to(user, password, before, tag, payload, cnonce, after, reaction),
    ensures
        reaction is Send ==> before is Announced && tag == 'R' as u8 && payload.len() >= 4
            && be_value(payload.take(4)) == 11 && after is Proved,
        reaction is Read ==> before is Proved && tag == 'R' as u8 && payload.len() >= 4
            && be_value(payload.take(4)) == 12,
        reaction is Fail ==> after is Waiting,
{
}

} // verus!
