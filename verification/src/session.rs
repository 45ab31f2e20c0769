//! A connection to the message server of the peer, or from the peer to ours:
//! what is sent to open it, what each package that comes in asks for, and how
//! changes of the clipboard go out.

use vstd::prelude::*;
use vstd::utf8::*;

use crate::clipboard;
use crate::config::{Config, Platform, DETAIL_CONNECTED, DETAIL_WRONG_KEY};
use crate::crypto;
use crate::input_handling;
use crate::input_handling::{InputSink, KeyEvent, KeyboardModel, KeyboardState, LockComboDetector};
use crate::link;
use crate::link::{Link, LinkModel};
use crate::mwb_protocol;
use crate::mwb_protocol::{
    PACKAGE_TYPE_CLIPBOARD, PACKAGE_TYPE_CLIPBOARD_DATA_END, PACKAGE_TYPE_CLIPBOARD_IMAGE,
    PACKAGE_TYPE_CLIPBOARD_TEXT, PACKAGE_TYPE_HANDSHAKE, PACKAGE_TYPE_HANDSHAKE_ACK,
    PACKAGE_TYPE_HI, PACKAGE_TYPE_KEYBOARD, PACKAGE_TYPE_MOUSE,
};
use crate::random;
use crate::sharing;
use crate::sharing::{
    ClipboardEvent, ClipboardShared, EventModel, PendingOutbound, SharedModel,
};
use crate::text;

verus! {

/// The port of the message server.
pub const LISTEN_PORT: u16 = 15101;

/// The id of the handshake.
pub const HANDSHAKE_ID: u32 = 1;

/// How often the handshake is sent.
pub const HANDSHAKE_COUNT: usize = 10;

/// The id of the first clipboard package of a connection.
pub const FIRST_CLIPBOARD_ID: u32 = 1000;

/// One in so many pings is worth a line.
pub const HI_REPORT_INTERVAL: u64 = 500;

/// What a connection is for.
#[derive(Clone, Copy, Debug, PartialEq, Eq, Structural)]
pub struct Role {
    /// Mouse and keyboard packages are carried out.
    pub forwards_input: bool,
    /// The outcome of the handshake goes into the status.
    pub reports_status: bool,
    /// What is copied on the peer is taken over.
    pub takes_clipboard: bool,
}

impl Role {
    /// The connection that the bridge makes. All that matters runs over it.
    pub fn client() -> (r: Role)
        ensures
            r == (Role { forwards_input: true, reports_status: true, takes_clipboard: true }),
    {
        Role { forwards_input: true, reports_status: true, takes_clipboard: true }
    }

    /// The connection that the peer makes, as it expects one in each
    /// direction. On Linux it takes the clipboard over too; on macOS it
    /// reports the outcome of the handshake.
    pub fn server(platform: Platform) -> (r: Role)
        ensures
            r == (Role {
                forwards_input: false,
                reports_status: platform == Platform::MacOs,
                takes_clipboard: platform == Platform::Linux,
            }),
    {
        match platform {
            Platform::Linux => Role {
                forwards_input: false,
                reports_status: false,
                takes_clipboard: true,
            },
            Platform::MacOs => Role {
                forwards_input: false,
                reports_status: true,
                takes_clipboard: false,
            },
        }
    }
}

/// A package that came in: its type, whether it is genuine, and its bytes with
/// the seal taken off.
pub struct Package {
    pub package_type: u8,
    pub valid: bool,
    pub bytes: Vec<u8>,
}

pub ghost struct PackageModel {
    pub package_type: u8,
    pub valid: bool,
    pub bytes: Seq<u8>,
}

impl View for Package {
    type V = PackageModel;

    open spec fn view(&self) -> PackageModel {
        PackageModel {
            package_type: self.package_type,
            valid: self.valid,
            bytes: self.bytes@,
        }
    }
}

impl PackageModel {
    /// Nothing of the package is missing.
    pub open spec fn complete(self) -> bool {
        self.bytes.len() == if mwb_protocol::big_package(self.package_type) {
            64nat
        } else {
            32nat
        }
    }

    /// The number at an offset.
    pub open spec fn number(self, offset: int) -> u32 {
        mwb_protocol::le_u32(self.bytes, offset)
    }
}

/// The first half of a package, from what was decrypted.
pub open spec fn package_head(plain: Seq<u8>, magic: u32) -> PackageModel {
    PackageModel {
        package_type: plain[0],
        valid: mwb_protocol::accepted(plain, magic),
        bytes: mwb_protocol::cleaned(plain),
    }
}

/// What a connection knows.
pub ghost struct SessionModel {
    pub link: LinkModel,
    pub magic: u32,
    pub machine_id: u32,
    pub machine_name: Seq<char>,
    pub challenge: Seq<u32>,
    pub role: Role,
    pub keyboard: KeyboardModel,
    pub lock: Seq<KeyEvent>,
    pub hi_count: u64,
    pub collected: Seq<u8>,
    pub kind: Option<u8>,
    pub next_clip_id: u32,
}

/// A connection before anything went over it.
pub open spec fn fresh_session(
    security_key: Seq<char>,
    machine_id: u32,
    machine_name: Seq<char>,
    role: Role,
    challenge: Seq<u32>,
) -> SessionModel {
    SessionModel {
        link: link::fresh_link(link::link_key(security_key)),
        magic: crypto::magic_number_of(security_key),
        machine_id,
        machine_name,
        challenge,
        role,
        keyboard: input_handling::idle_keyboard(),
        lock: Seq::empty(),
        hi_count: 0,
        collected: Seq::empty(),
        kind: None,
        next_clip_id: FIRST_CLIPBOARD_ID,
    }
}

/// `n` copies of a byte string, one after the other.
pub open spec fn copies(s: Seq<u8>, n: nat) -> Seq<u8>
    decreases n,
{
    if n == 0 {
        Seq::empty()
    } else {
        copies(s, (n - 1) as nat) + s
    }
}

/// The sealed handshake of a connection.
pub open spec fn opening_handshake(m: SessionModel) -> Seq<u8> {
    mwb_protocol::sealed(
        mwb_protocol::handshake(HANDSHAKE_ID, m.machine_id, m.challenge, m.machine_name),
        m.magic,
    )
}

/// What is to be done about a package.
pub enum Action {
    Nothing,
    /// Bytes to send as they are.
    Send(Vec<u8>),
    /// A status to report: whether the challenge was met, and by whom.
    Status { connected: bool, peer: String },
    Mouse { x: u32, y: u32, wheel: u32, flags: u32 },
    /// The machine is to be locked, or the key carried out, or both.
    Keyboard { lock: bool, forward: bool, vk: u32, flags: u32 },
    /// Compressed text to put on the clipboard.
    ApplyText(Vec<u8>),
    /// A PNG file to put on the clipboard.
    ApplyImage(Vec<u8>),
    /// The peer has a file to be pulled.
    Pull,
    /// So many pings have come in.
    ReportHi(u64),
}

pub ghost enum ActionModel {
    Nothing,
    Send(Seq<u8>),
    Status { connected: bool, peer: Seq<char> },
    Mouse { x: u32, y: u32, wheel: u32, flags: u32 },
    Keyboard { lock: bool, forward: bool, vk: u32, flags: u32 },
    ApplyText(Seq<u8>),
    ApplyImage(Seq<u8>),
    Pull,
    ReportHi(u64),
}

impl View for Action {
    type V = ActionModel;

    open spec fn view(&self) -> ActionModel {
        match *self {
            Action::Nothing => ActionModel::Nothing,
            Action::Send(bytes) => ActionModel::Send(bytes@),
            Action::Status { connected, peer } => ActionModel::Status { connected, peer: peer@ },
            Action::Mouse { x, y, wheel, flags } => ActionModel::Mouse { x, y, wheel, flags },
            Action::Keyboard { lock, forward, vk, flags } => ActionModel::Keyboard {
                lock,
                forward,
                vk,
                flags,
            },
            Action::ApplyText(payload) => ActionModel::ApplyText(payload@),
            Action::ApplyImage(payload) => ActionModel::ApplyImage(payload@),
            Action::Pull => ActionModel::Pull,
            Action::ReportHi(count) => ActionModel::ReportHi(count),
        }
    }
}

/// The sealed answer to a handshake.
pub open spec fn reply_to_handshake(m: SessionModel, p: PackageModel) -> Seq<u8> {
    mwb_protocol::sealed(
        mwb_protocol::handshake_ack(p.bytes, m.machine_id, m.machine_name),
        m.magic,
    )
}

/// The machine name in a package, without what fills it up.
pub open spec fn name_in(p: PackageModel) -> Seq<char> {
    text::trimmed_end(text::utf8_text(p.bytes.subrange(32, 64)))
}

/// What a package asks for.
pub open spec fn action_for(m: SessionModel, p: PackageModel, now: u128) -> ActionModel {
    let t = p.package_type;
    if !p.valid {
        ActionModel::Nothing
    } else if t == PACKAGE_TYPE_HANDSHAKE {
        ActionModel::Send(m.link.sealed(reply_to_handshake(m, p)))
    } else if t == PACKAGE_TYPE_HANDSHAKE_ACK && m.role.reports_status {
        ActionModel::Status {
            connected: mwb_protocol::challenge_met(p.bytes, m.challenge),
            peer: name_in(p),
        }
    } else if t == PACKAGE_TYPE_MOUSE && m.role.forwards_input {
        ActionModel::Mouse {
            x: p.number(16),
            y: p.number(20),
            wheel: p.number(24),
            flags: p.number(28),
        }
    } else if t == PACKAGE_TYPE_KEYBOARD {
        ActionModel::Keyboard {
            lock: input_handling::is_lock_combo(
                input_handling::remembered(
                    m.lock,
                    p.number(24),
                    input_handling::is_press(p.number(28)),
                    now,
                ),
            ),
            forward: m.role.forwards_input,
            vk: p.number(24),
            flags: p.number(28),
        }
    } else if t == PACKAGE_TYPE_CLIPBOARD_DATA_END && m.role.takes_clipboard && m.kind == Some(
        PACKAGE_TYPE_CLIPBOARD_TEXT,
    ) {
        ActionModel::ApplyText(m.collected)
    } else if t == PACKAGE_TYPE_CLIPBOARD_DATA_END && m.role.takes_clipboard && m.kind == Some(
        PACKAGE_TYPE_CLIPBOARD_IMAGE,
    ) {
        ActionModel::ApplyImage(m.collected)
    } else if t == PACKAGE_TYPE_CLIPBOARD && m.role.takes_clipboard {
        ActionModel::Pull
    } else if t == PACKAGE_TYPE_HI && pings_after(m.hi_count) % HI_REPORT_INTERVAL == 1 {
        ActionModel::ReportHi(pings_after(m.hi_count))
    } else {
        ActionModel::Nothing
    }
}

/// The count of pings with one more, around the end of its range.
pub open spec fn pings_after(count: u64) -> u64 {
    if count == u64::MAX {
        0
    } else {
        (count + 1) as u64
    }
}

/// A connection behind a package.
pub open spec fn session_after(m: SessionModel, p: PackageModel, now: u128) -> SessionModel {
    let t = p.package_type;
    if !p.valid {
        m
    } else if t == PACKAGE_TYPE_HANDSHAKE {
        SessionModel {
            link: m.link.having_sent(m.link.sealed(reply_to_handshake(m, p))),
            ..m
        }
    } else if t == PACKAGE_TYPE_KEYBOARD {
        SessionModel {
            lock: input_handling::observed(
                m.lock,
                p.number(24),
                input_handling::is_press(p.number(28)),
                now,
            ),
            ..m
        }
    } else if t == PACKAGE_TYPE_CLIPBOARD_TEXT || t == PACKAGE_TYPE_CLIPBOARD_IMAGE {
        SessionModel { collected: m.collected + p.bytes.subrange(16, 64), kind: Some(t), ..m }
    } else if t == PACKAGE_TYPE_CLIPBOARD_DATA_END {
        SessionModel { collected: Seq::empty(), kind: None, ..m }
    } else if t == PACKAGE_TYPE_HI {
        SessionModel { hi_count: pings_after(m.hi_count), ..m }
    } else {
        m
    }
}

/// What is shared, behind a package: who sent it is remembered.
pub open spec fn shared_after(
    m: SessionModel,
    shared: SharedModel,
    p: PackageModel,
) -> SharedModel {
    if p.valid && m.role.takes_clipboard {
        SharedModel { peer: sharing::peer_noted(shared.peer, p.number(8)), ..shared }
    } else {
        shared
    }
}

/// A connection to or from the peer.
pub struct Session {
    link: Link,
    magic: u32,
    machine_id: u32,
    machine_name: String,
    challenge: [u32; 4],
    role: Role,
    keyboard: KeyboardState,
    lock: LockComboDetector,
    hi_count: u64,
    collected: Vec<u8>,
    kind: Option<u8>,
    next_clip_id: u32,
}

impl View for Session {
    type V = SessionModel;

    closed spec fn view(&self) -> SessionModel {
        SessionModel {
            link: self.link@,
            magic: self.magic,
            machine_id: self.machine_id,
            machine_name: self.machine_name@,
            challenge: self.challenge@,
            role: self.role,
            keyboard: self.keyboard@,
            lock: self.lock@,
            hi_count: self.hi_count,
            collected: self.collected@,
            kind: self.kind,
            next_clip_id: self.next_clip_id,
        }
    }
}

/// What the status says of a handshake.
pub fn handshake_detail(connected: bool) -> (r: String)
    ensures
        r@ == (if connected {
            DETAIL_CONNECTED@
        } else {
            DETAIL_WRONG_KEY@
        }),
{
    if connected {
        String::from_str(DETAIL_CONNECTED)
    } else {
        String::from_str(DETAIL_WRONG_KEY)
    }
}

/// Reads the machine name in a package.
pub fn peer_name(bytes: &[u8]) -> (r: String)
    requires
        bytes@.len() == 64,
    ensures
        r@ == text::trimmed_end(text::utf8_text(bytes@.subrange(32, 64))),
{
    let name: String = text::string_from_utf8_lossy(vstd::slice::slice_subrange(bytes, 32, 64));
    let chars: Vec<char> = text::str_chars(name.as_str());
    text::chars_to_string(text::trim_end(chars.as_slice()))
}

impl Session {
    /// A connection with the given challenge, before anything is sent.
    pub fn with_challenge(cfg: &Config, role: Role, challenge: [u32; 4]) -> (r: Session)
        ensures
            r@ == fresh_session(
                cfg.security_key@,
                cfg.machine_id,
                cfg.machine_name@,
                role,
                challenge@,
            ),
    {
        Session {
            link: Link::new(cfg.security_key.as_str()),
            magic: crypto::get_24bit_hash(cfg.security_key.as_str()),
            machine_id: cfg.machine_id,
            machine_name: cfg.machine_name.clone(),
            challenge,
            role,
            keyboard: KeyboardState::new(),
            lock: LockComboDetector::new(),
            hi_count: 0,
            collected: Vec::new(),
            kind: None,
            next_clip_id: FIRST_CLIPBOARD_ID,
        }
    }

    /// A connection with a random challenge, before anything is sent.
    pub fn new(cfg: &Config, role: Role) -> (r: Session)
        ensures
            r@ == fresh_session(
                cfg.security_key@,
                cfg.machine_id,
                cfg.machine_name@,
                role,
                r@.challenge,
            ),
            r@.challenge.len() == 4,
    {
        let challenge: [u32; 4] = [
            random::random_u32(),
            random::random_u32(),
            random::random_u32(),
            random::random_u32(),
        ];
        assert(challenge@.len() == 4);
        Session::with_challenge(cfg, role, challenge)
    }

    /// The first bytes to send: a random block.
    pub fn prime(&mut self) -> (r: Vec<u8>)
        ensures
            r@.len() == 16,
            final(self)@ == (SessionModel { link: old(self)@.link.having_sent(r@), ..old(self)@ }),
            exists|block: Seq<u8>|
                block.len() == 16 && r@ == #[trigger] old(self)@.link.sealed(block),
    {
        self.link.prime()
    }

    /// Takes the peer's first block in and gives the handshakes to send.
    pub fn primed(&mut self, cipher: &[u8; 16]) -> (r: Vec<u8>)
        ensures
            ({
                let link = old(self)@.link.having_received(cipher@);
                &&& r@ == link.sealed(copies(opening_handshake(old(self)@), 10))
                &&& final(self)@ == (SessionModel { link: link.having_sent(r@), ..old(self)@ })
                &&& forall|peer: LinkModel|
                    link.feeds(peer) ==> #[trigger] peer.opened(r@) == copies(
                        opening_handshake(old(self)@),
                        10,
                    )
            }),
    {
        let ghost before = self@;
        self.link.primed(cipher);
        let mut package: [u8; 64] = mwb_protocol::build_handshake(
            HANDSHAKE_ID,
            self.machine_id,
            self.challenge,
            self.machine_name.as_str(),
        );
        mwb_protocol::finalize_send_buf(&mut package, self.magic);
        let mut plain: Vec<u8> = Vec::new();
        let mut i: usize = 0;
        assert(package@ == opening_handshake(before));
        assert(plain@ =~= copies(package@, 0));
        while i < HANDSHAKE_COUNT
            invariant
                i <= 10,
                plain@ == copies(package@, i as nat),
                plain@.len() == 64 * i,
                package@.len() == 64,
            decreases 10 - i,
        {
            mwb_protocol::append_bytes(&mut plain, &package);
            i += 1;
        }
        self.link.send(&plain)
    }

    /// Opens the first half of a package. A big package has a second half,
    /// which has to be taken in before anything else.
    pub fn receive_head(&mut self, cipher: &[u8; 32]) -> (r: Package)
        ensures
            r@ == package_head(old(self)@.link.opened(cipher@), old(self)@.magic),
            r@.bytes.len() == 32,
            final(self)@ == (SessionModel {
                link: old(self)@.link.having_received(cipher@),
                ..old(self)@
            }),
    {
        let mut bytes: Vec<u8> = self.link.receive(cipher);
        let package_type: u8 = bytes[0];
        let valid: bool = mwb_protocol::validate_and_clean_recv_buf(
            bytes.as_mut_slice(),
            self.magic,
        );
        Package { package_type, valid, bytes }
    }

    /// Opens the second half of a package.
    pub fn receive_tail(&mut self, head: Package, cipher: &[u8; 32]) -> (r: Package)
        ensures
            r@ == (PackageModel {
                bytes: head@.bytes + old(self)@.link.opened(cipher@),
                ..head@
            }),
            r@.bytes.len() == head@.bytes.len() + 32,
            final(self)@ == (SessionModel {
                link: old(self)@.link.having_received(cipher@),
                ..old(self)@
            }),
    {
        let tail: Vec<u8> = self.link.receive(cipher);
        let mut bytes: Vec<u8> = head.bytes;
        mwb_protocol::append_bytes(&mut bytes, tail.as_slice());
        Package { package_type: head.package_type, valid: head.valid, bytes }
    }

    /// The bytes that answer a handshake.
    pub fn answer(&mut self, incoming: &[u8]) -> (r: Vec<u8>)
        requires
            incoming@.len() >= 64,
        ensures
            ({
                let plain = mwb_protocol::sealed(
                    mwb_protocol::handshake_ack(
                        incoming@,
                        old(self)@.machine_id,
                        old(self)@.machine_name,
                    ),
                    old(self)@.magic,
                );
                &&& r@ == old(self)@.link.sealed(plain)
                &&& final(self)@ == (SessionModel {
                    link: old(self)@.link.having_sent(r@),
                    ..old(self)@
                })
                &&& forall|peer: LinkModel|
                    old(self)@.link.feeds(peer) ==> #[trigger] peer.opened(r@) == plain
            }),
    {
        let mut ack: [u8; 64] = mwb_protocol::build_handshake_ack(
            incoming,
            self.machine_id,
            self.machine_name.as_str(),
        );
        mwb_protocol::finalize_send_buf(&mut ack, self.magic);
        self.link.send(&ack)
    }

    /// Whether an answer meets the challenge of this connection.
    pub fn is_met_by(&self, ack: &[u8]) -> (r: bool)
        requires
            ack@.len() >= 32,
        ensures
            r == mwb_protocol::challenge_met(ack@, self@.challenge),
    {
        mwb_protocol::handshake_matches(ack, &self.challenge)
    }

    /// Does what a package asks of the connection, and says what else is to be
    /// done. `now` is the time in nanoseconds, from any start on.
    #[verifier::rlimit(60)]
    #[verifier::spinoff_prover]
    pub fn handle_at(&mut self, shared: &mut ClipboardShared, package: &Package, now: u128) -> (r:
        Action)
        requires
            package@.complete(),
        ensures
            r@ == action_for(old(self)@, package@, now),
            final(self)@ == session_after(old(self)@, package@, now),
            final(shared)@ == shared_after(old(self)@, old(shared)@, package@),
            r is Send ==> forall|peer: LinkModel|
                old(self)@.link.feeds(peer) ==> #[trigger] peer.opened(r->Send_0@)
                    == reply_to_handshake(old(self)@, package@),
    {
        if !package.valid {
            return Action::Nothing;
        }
        let bytes: &[u8] = package.bytes.as_slice();
        if self.role.takes_clipboard {
            shared.note_peer_machine_id(mwb_protocol::unpack_u32_le(bytes, 8));
        }
        let t: u8 = package.package_type;
        if t == PACKAGE_TYPE_HANDSHAKE {
            Action::Send(self.answer(bytes))
        } else if t == PACKAGE_TYPE_HANDSHAKE_ACK {
            if self.role.reports_status {
                Action::Status {
                    connected: self.is_met_by(bytes),
                    peer: peer_name(bytes),
                }
            } else {
                Action::Nothing
            }
        } else if t == PACKAGE_TYPE_MOUSE {
            if self.role.forwards_input {
                Action::Mouse {
                    x: mwb_protocol::unpack_u32_le(bytes, 16),
                    y: mwb_protocol::unpack_u32_le(bytes, 20),
                    wheel: mwb_protocol::unpack_u32_le(bytes, 24),
                    flags: mwb_protocol::unpack_u32_le(bytes, 28),
                }
            } else {
                Action::Nothing
            }
        } else if t == PACKAGE_TYPE_KEYBOARD {
            let vk: u32 = mwb_protocol::unpack_u32_le(bytes, 24);
            let flags: u32 = mwb_protocol::unpack_u32_le(bytes, 28);
            let lock: bool = self.lock.observe_at(vk, input_handling::is_key_press(flags), now);
            Action::Keyboard { lock, forward: self.role.forwards_input, vk, flags }
        } else if t == PACKAGE_TYPE_CLIPBOARD_TEXT || t == PACKAGE_TYPE_CLIPBOARD_IMAGE {
            mwb_protocol::append_bytes(
                &mut self.collected,
                vstd::slice::slice_subrange(bytes, 16, 64),
            );
            self.kind = Some(t);
            Action::Nothing
        } else if t == PACKAGE_TYPE_CLIPBOARD_DATA_END {
            let kind: Option<u8> = self.kind;
            let payload: Vec<u8> = vstd::slice::slice_to_vec(self.collected.as_slice());
            self.collected.clear();
            self.kind = None;
            assert(self@.collected =~= Seq::<u8>::empty());
            match kind {
                Some(kind) => if !self.role.takes_clipboard {
                    Action::Nothing
                } else if kind == PACKAGE_TYPE_CLIPBOARD_TEXT {
                    Action::ApplyText(payload)
                } else if kind == PACKAGE_TYPE_CLIPBOARD_IMAGE {
                    Action::ApplyImage(payload)
                } else {
                    Action::Nothing
                },
                None => Action::Nothing,
            }
        } else if t == PACKAGE_TYPE_CLIPBOARD {
            if self.role.takes_clipboard {
                Action::Pull
            } else {
                Action::Nothing
            }
        } else if t == PACKAGE_TYPE_HI {
            self.hi_count = self.hi_count.wrapping_add(1);
            if self.hi_count % HI_REPORT_INTERVAL == 1 {
                Action::ReportHi(self.hi_count)
            } else {
                Action::Nothing
            }
        } else {
            Action::Nothing
        }
    }

    /// The time since the connection was made, in nanoseconds. The clock gives
    /// any number: what is made of it holds for each.
    pub(crate) fn time(&self) -> (r: u128) {
        self.lock.time()
    }

    /// As `handle_at`, for a package that comes in now.
    pub fn handle(&mut self, shared: &mut ClipboardShared, package: &Package) -> (r: Action)
        requires
            package@.complete(),
        ensures
            exists|now: u128|
                {
                    &&& r@ == #[trigger] action_for(old(self)@, package@, now)
                    &&& final(self)@ == session_after(old(self)@, package@, now)
                },
            final(shared)@ == shared_after(old(self)@, old(shared)@, package@),
            r is Send ==> forall|peer: LinkModel|
                old(self)@.link.feeds(peer) ==> #[trigger] peer.opened(r->Send_0@)
                    == reply_to_handshake(old(self)@, package@),
    {
        let now: u128 = self.time();
        self.handle_at(shared, package, now)
    }

    /// Carries a key out.
    pub fn forward_key<S: InputSink>(&mut self, sink: &mut S, vk: u32, flags: u32)
        ensures
            final(sink).log() == old(sink).log() + input_handling::keyboard_actions(
                old(self)@.keyboard,
                vk,
                flags,
            ),
            final(self)@ == (SessionModel {
                keyboard: input_handling::keyboard_after(old(self)@.keyboard, vk, flags),
                ..old(self)@
            }),
    {
        input_handling::handle_keyboard(sink, &mut self.keyboard, vk, flags);
    }

    /// The bytes that carry sealed packages.
    fn send_packages(&mut self, packages: &Vec<[u8; 64]>) -> (r: Vec<u8>)
        ensures
            r@ == old(self)@.link.sealed(
                sealed_all(clipboard::bytes_of_each(packages@), old(self)@.magic),
            ),
            final(self)@ == (SessionModel { link: old(self)@.link.having_sent(r@), ..old(self)@ }),
            forall|peer: LinkModel|
                old(self)@.link.feeds(peer) ==> #[trigger] peer.opened(r@) == sealed_all(
                    clipboard::bytes_of_each(packages@),
                    old(self)@.magic,
                ),
    {
        let plain: Vec<u8> = seal_all(packages, self.magic);
        self.link.send(&plain)
    }

    /// The bytes that carry a text to the peer, and `None`, with nothing
    /// changed, where there are not enough ids left. A peer that puts the
    /// packages together finds the text in them.
    pub fn send_text(&mut self, text: &str) -> (r: Option<Vec<u8>>)
        ensures
            ({
                let payload = clipboard::deflated(clipboard::tagged_text(text@));
                match r {
                    Some(bytes) => {
                        &&& sends_payload(
                            old(self)@,
                            final(self)@,
                            PACKAGE_TYPE_CLIPBOARD_TEXT,
                            payload,
                            bytes@,
                        )
                        &&& clipboard::inflated(
                            clipboard::reassembled(
                                clipboard_packages(
                                    old(self)@,
                                    PACKAGE_TYPE_CLIPBOARD_TEXT,
                                    payload,
                                ),
                            ),
                        ) == Some(clipboard::tagged_text(text@))
                        &&& clipboard::separator_free(text@) ==> clipboard::text_in_payload(
                            clipboard::reassembled(
                                clipboard_packages(
                                    old(self)@,
                                    PACKAGE_TYPE_CLIPBOARD_TEXT,
                                    payload,
                                ),
                            ),
                        ) == Some(text@)
                    },
                    None => ids_run_out(old(self)@, payload) && final(self)@ == old(self)@,
                }
            }),
    {
        match clipboard::try_build_clipboard_text_packages(
            &mut self.next_clip_id,
            self.machine_id,
            text,
        ) {
            Some(packages) => Some(self.send_packages(&packages)),
            None => None,
        }
    }

    /// The bytes that carry an image to the peer, and `None`, with nothing
    /// changed, where there are not enough ids left.
    pub fn send_image(&mut self, png: &[u8]) -> (r: Option<Vec<u8>>)
        ensures
            match r {
                Some(bytes) => sends_payload(
                    old(self)@,
                    final(self)@,
                    PACKAGE_TYPE_CLIPBOARD_IMAGE,
                    png@,
                    bytes@,
                ),
                None => ids_run_out(old(self)@, png@) && final(self)@ == old(self)@,
            },
    {
        if !clipboard::enough_ids(self.next_clip_id, png.len()) {
            return None;
        }
        let packages: Vec<[u8; 64]> = clipboard::build_clipboard_image_packages(
            &mut self.next_clip_id,
            self.machine_id,
            png,
        );
        Some(self.send_packages(&packages))
    }

    /// The bytes that announce a file, with the given ids for the beat, the
    /// hiding of the mouse and the switch.
    pub fn announce_with_ids(&mut self, peer: Option<u32>, ids: [u32; 3]) -> (r: Vec<u8>)
        ensures
            announces(old(self)@, final(self)@, peer, ids@, r@),
    {
        let mut beat: [u8; 64] = mwb_protocol::build_clipboard_beat(ids[0], self.machine_id);
        mwb_protocol::finalize_send_buf(&mut beat, self.magic);
        let mut plain: Vec<u8> = Vec::new();
        mwb_protocol::append_bytes(&mut plain, &beat);
        assert(plain@ =~= beat@);
        match peer {
            Some(des) => {
                let mut hide: [u8; 32] = mwb_protocol::build_hide_mouse(
                    ids[1],
                    self.machine_id,
                    des,
                );
                mwb_protocol::finalize_send_buf(&mut hide, self.magic);
                mwb_protocol::append_bytes(&mut plain, &hide);
                let mut switched: [u8; 32] = mwb_protocol::build_machine_switched(
                    ids[2],
                    self.machine_id,
                    des,
                );
                mwb_protocol::finalize_send_buf(&mut switched, self.magic);
                mwb_protocol::append_bytes(&mut plain, &switched);
            },
            None => (),
        }
        self.link.send(&plain)
    }

    /// The bytes that announce a file. The peer drops a package whose id it
    /// has ever seen, so the ids are random.
    pub fn announce_big_path(&mut self, peer: Option<u32>) -> (r: Vec<u8>)
        ensures
            announces_somehow(old(self)@, final(self)@, peer, r@),
    {
        let ids: [u32; 3] = [random::random_u32(), random::random_u32(), random::random_u32()];
        assert(ids@.len() == 3);
        self.announce_with_ids(peer, ids)
    }

    /// The bytes that carry a change of the clipboard to the peer: a payload
    /// that is pushed, or the announcement of a file that now waits to be
    /// pulled. `None` where there are not enough ids left.
    pub fn send_event(&mut self, shared: &mut ClipboardShared, event: ClipboardEvent) -> (r: Option<
        Vec<u8>,
    >)
        ensures
            final(shared)@ == (match event@ {
                EventModel::File(path) => SharedModel {
                    pending: Some((path, false)),
                    ..old(shared)@
                },
                EventModel::BigImage(path) => SharedModel {
                    pending: Some((path, true)),
                    ..old(shared)@
                },
                _ => old(shared)@,
            }),
            match event@ {
                EventModel::Text(text) => {
                    let payload = clipboard::deflated(clipboard::tagged_text(text));
                    match r {
                        Some(bytes) => {
                            &&& sends_payload(
                                old(self)@,
                                final(self)@,
                                PACKAGE_TYPE_CLIPBOARD_TEXT,
                                payload,
                                bytes@,
                            )
                            &&& clipboard::inflated(
                                clipboard::reassembled(
                                    clipboard_packages(
                                        old(self)@,
                                        PACKAGE_TYPE_CLIPBOARD_TEXT,
                                        payload,
                                    ),
                                ),
                            ) == Some(clipboard::tagged_text(text))
                            &&& clipboard::separator_free(text) ==> clipboard::text_in_payload(
                                clipboard::reassembled(
                                    clipboard_packages(
                                        old(self)@,
                                        PACKAGE_TYPE_CLIPBOARD_TEXT,
                                        payload,
                                    ),
                                ),
                            ) == Some(text)
                        },
                        None => ids_run_out(old(self)@, payload) && final(self)@ == old(self)@,
                    }
                },
                EventModel::Image(png) => match r {
                    Some(bytes) => sends_payload(
                        old(self)@,
                        final(self)@,
                        PACKAGE_TYPE_CLIPBOARD_IMAGE,
                        png,
                        bytes@,
                    ),
                    None => ids_run_out(old(self)@, png) && final(self)@ == old(self)@,
                },
                _ => r is Some && announces_somehow(
                    old(self)@,
                    final(self)@,
                    old(shared)@.peer,
                    r->0@,
                ),
            },
    {
        match event {
            ClipboardEvent::Text(text) => self.send_text(text.as_str()),
            ClipboardEvent::Image(png) => self.send_image(png.as_slice()),
            ClipboardEvent::File(path) => {
                shared.set_pending(PendingOutbound::File(path));
                let peer: Option<u32> = sharing::peer_machine_id(shared);
                let bytes: Vec<u8> = self.announce_big_path(peer);
                Some(bytes)
            },
            ClipboardEvent::BigImage(path) => {
                shared.set_pending(PendingOutbound::Image(path));
                let peer: Option<u32> = sharing::peer_machine_id(shared);
                let bytes: Vec<u8> = self.announce_big_path(peer);
                Some(bytes)
            },
        }
    }
}

/// Packages, each sealed, one behind the other.
pub open spec fn sealed_all(packages: Seq<Seq<u8>>, magic: u32) -> Seq<u8>
    decreases packages.len(),
{
    if packages.len() == 0 {
        Seq::empty()
    } else {
        sealed_all(packages.drop_last(), magic) + mwb_protocol::sealed(packages.last(), magic)
    }
}

/// The packages that carry a payload from a connection.
pub open spec fn clipboard_packages(m: SessionModel, package_type: u8, payload: Seq<u8>) -> Seq<
    Seq<u8>,
> {
    clipboard::payload_packages(m.next_clip_id as int, m.machine_id, package_type, payload)
}

/// There are not enough ids left for a payload.
pub open spec fn ids_run_out(m: SessionModel, payload: Seq<u8>) -> bool {
    m.next_clip_id + clipboard::chunk_count(payload.len()) + 1 > u32::MAX
}

/// `bytes` carry a payload from a connection, which is then as `after`: the
/// packages are sealed and encrypted, a peer can decrypt them, and their ids
/// are used up.
pub open spec fn sends_payload(
    before: SessionModel,
    after: SessionModel,
    package_type: u8,
    payload: Seq<u8>,
    bytes: Seq<u8>,
) -> bool {
    let plain = sealed_all(clipboard_packages(before, package_type, payload), before.magic);
    &&& bytes == before.link.sealed(plain)
    &&& forall|peer: LinkModel|
        before.link.feeds(peer) ==> #[trigger] peer.opened(bytes) == plain
    &&& before.next_clip_id + clipboard::chunk_count(payload.len()) + 1 <= u32::MAX
    &&& after == (SessionModel {
        link: before.link.having_sent(bytes),
        next_clip_id: (before.next_clip_id + clipboard::chunk_count(payload.len()) + 1) as u32,
        ..before
    })
}

/// The sealed packages that announce a file: the beat, and what makes a known
/// peer act on it.
pub open spec fn announcement(m: SessionModel, peer: Option<u32>, ids: Seq<u32>) -> Seq<u8> {
    let beat = mwb_protocol::sealed(mwb_protocol::clipboard_beat(ids[0], m.machine_id), m.magic);
    match peer {
        Some(des) => beat + mwb_protocol::sealed(
            mwb_protocol::hide_mouse(ids[1], m.machine_id, des),
            m.magic,
        ) + mwb_protocol::sealed(
            mwb_protocol::machine_switched(ids[2], m.machine_id, des),
            m.magic,
        ),
        None => beat,
    }
}

/// `bytes` announce a file from a connection, which is then as `after`.
pub open spec fn announces(
    before: SessionModel,
    after: SessionModel,
    peer: Option<u32>,
    ids: Seq<u32>,
    bytes: Seq<u8>,
) -> bool {
    &&& bytes == before.link.sealed(announcement(before, peer, ids))
    &&& forall|end: LinkModel|
        before.link.feeds(end) ==> #[trigger] end.opened(bytes) == announcement(before, peer, ids)
    &&& after == (SessionModel { link: before.link.having_sent(bytes), ..before })
}

/// `bytes` announce a file from a connection with some ids.
pub open spec fn announces_somehow(
    before: SessionModel,
    after: SessionModel,
    peer: Option<u32>,
    bytes: Seq<u8>,
) -> bool {
    exists|ids: Seq<u32>| ids.len() == 3 && #[trigger] announces(before, after, peer, ids, bytes)
}

/// Seals packages.
fn seal_all(packages: &Vec<[u8; 64]>, magic: u32) -> (r: Vec<u8>)
    ensures
        r@ == sealed_all(clipboard::bytes_of_each(packages@), magic),
        r@.len() % 16 == 0,
{
    let mut r: Vec<u8> = Vec::new();
    let mut i: usize = 0;
    let ghost all = clipboard::bytes_of_each(packages@);
    assert(r@ =~= sealed_all(all.take(0), magic));
    while i < packages.len()
        invariant
            i <= packages@.len(),
            all == clipboard::bytes_of_each(packages@),
            r@ == sealed_all(all.take(i as int), magic),
            r@.len() % 16 == 0,
        decreases packages@.len() - i,
    {
        let mut package: [u8; 64] = packages[i];
        mwb_protocol::finalize_send_buf(&mut package, magic);
        mwb_protocol::append_bytes(&mut r, &package);
        i += 1;
        assert(all.take(i as int).drop_last() =~= all.take(i - 1));
    }
    assert(all.take(i as int) =~= all);
    r
}

/// A package as the receiver makes it up from the bytes of its one or two
/// halves.
pub open spec fn received_package(link: LinkModel, magic: u32, cipher: Seq<u8>) -> PackageModel {
    let head = package_head(link.opened(cipher.take(32)), magic);
    if cipher.len() > 32 {
        PackageModel {
            bytes: head.bytes + link.having_received(cipher.take(32)).opened(cipher.skip(32)),
            ..head
        }
    } else {
        head
    }
}

/// A package that came in genuine, with its seal taken off.
pub open spec fn genuine(package: Seq<u8>) -> PackageModel {
    PackageModel {
        package_type: package[0],
        valid: true,
        bytes: mwb_protocol::cleaned(package),
    }
}

/// What one end seals and sends, an end that understands it takes for genuine,
/// and it is the package that was sent.
pub proof fn sent_packages_arrive(link: LinkModel, magic: u32, package: Seq<u8>, cipher: Seq<u8>)
    requires
        package.len() == 32 || package.len() == 64,
        cipher.len() == package.len(),
        link.opened(cipher) == mwb_protocol::sealed(package, magic),
    ensures
        received_package(link, magic, cipher) == genuine(package),
{
    let first = cipher.take(32);
    let second = cipher.skip(32);
    let sealed = mwb_protocol::sealed(package, magic);
    assert(first + second =~= cipher);
    link::pieces_make_a_whole(link, first, second);
    crypto::lemma_cbc_decrypted_len(link.key, link.read_chain, first);
    let plain = link.opened(first);
    assert(plain =~= sealed.take(32));
    mwb_protocol::seal_then_validate(package, magic);
    assert(plain.subrange(2, 32) =~= sealed.subrange(2, 32));
    if package.len() == 32 {
        assert(plain =~= sealed);
    } else {
        assert(link.having_received(first).opened(second) =~= sealed.skip(32));
        assert(mwb_protocol::cleaned(plain) + sealed.skip(32) =~= mwb_protocol::cleaned(sealed));
    }
}

/// A package that is not genuine changes nothing and asks for nothing.
pub proof fn refused_packages_do_nothing(
    m: SessionModel,
    shared: SharedModel,
    p: PackageModel,
    now: u128,
)
    requires
        !p.valid,
    ensures
        action_for(m, p, now) == ActionModel::Nothing,
        session_after(m, p, now) == m,
        shared_after(m, shared, p) == shared,
{
}

/// A connection that does not forward input never asks for any to be carried
/// out.
pub proof fn input_stays_on_the_forwarding_connection(m: SessionModel, p: PackageModel, now: u128)
    requires
        !m.role.forwards_input,
    ensures
        !(action_for(m, p, now) is Mouse),
        match action_for(m, p, now) {
            ActionModel::Keyboard { lock: _, forward, vk: _, flags: _ } => !forward,
            _ => true,
        },
{
}

/// Two connections with the same magic number complete the handshake: the one
/// that is asked answers, and the answer meets the challenge of the one that
/// asked.
pub proof fn handshake_completes(asking: SessionModel, asked: SessionModel, now: u128)
    requires
        asking.challenge.len() == 4,
        asking.magic == asked.magic,
        asking.role.reports_status,
    ensures
        ({
            let question = mwb_protocol::handshake(
                HANDSHAKE_ID,
                asking.machine_id,
                asking.challenge,
                asking.machine_name,
            );
            let answer = mwb_protocol::handshake_ack(
                question,
                asked.machine_id,
                asked.machine_name,
            );
            &&& opening_handshake(asking) == mwb_protocol::sealed(question, asking.magic)
            &&& action_for(asked, genuine(question), now) == ActionModel::Send(
                asked.link.sealed(mwb_protocol::sealed(answer, asked.magic)),
            )
            &&& action_for(asking, genuine(answer), now) == (ActionModel::Status {
                connected: true,
                peer: name_in(genuine(answer)),
            })
        }),
{
    let question = mwb_protocol::handshake(
        HANDSHAKE_ID,
        asking.machine_id,
        asking.challenge,
        asking.machine_name,
    );
    let answer = mwb_protocol::handshake_ack(question, asked.machine_id, asked.machine_name);
    assert(mwb_protocol::cleaned(question) =~= question);
    assert(mwb_protocol::cleaned(answer) =~= answer);
    mwb_protocol::handshake_is_met_by_its_ack(
        HANDSHAKE_ID,
        asking.machine_id,
        asking.challenge,
        asking.machine_name,
        asked.machine_id,
        asked.machine_name,
    );
}

/// The name in a package is the name that was put there, as long as it fits
/// and does not end in white space.
pub proof fn name_is_read_back(head: Seq<u8>, name: Seq<char>)
    requires
        head.len() == 32,
        encode_utf8(name).len() <= 32,
        name.len() > 0 ==> !text::is_white_space(name.last()),
    ensures
        text::trimmed_end(
            text::utf8_text((head + mwb_protocol::name_field(name)).subrange(32, 64)),
        ) == name,
{
    let bytes = encode_utf8(name);
    let n = (32 - bytes.len()) as nat;
    let blanks = text::blanks(n);
    is_ascii_chars_encode_utf8(blanks);
    assert(encode_utf8(blanks) =~= mwb_protocol::spaces(n));
    text::lemma_encode_utf8_concat(name, blanks);
    assert((head + mwb_protocol::name_field(name)).subrange(32, 64) =~= encode_utf8(name + blanks));
    encode_utf8_valid_utf8(name + blanks);
    encode_utf8_decode_utf8(name + blanks);
    text::lemma_trim_blanks(name, n);
}

/// The packages of a later payload have later ids than those of an earlier
/// one, so that none is taken for a repetition.
pub proof fn later_payloads_have_later_ids(
    m: SessionModel,
    first: Seq<u8>,
    first_type: u8,
    second: Seq<u8>,
    second_type: u8,
    j: int,
    k: int,
)
    requires
        m.next_clip_id + clipboard::chunk_count(first.len()) + clipboard::chunk_count(second.len())
            + 2 <= u32::MAX,
        0 <= j <= clipboard::chunk_count(first.len()),
        0 <= k <= clipboard::chunk_count(second.len()),
    ensures
        ({
            let later = SessionModel {
                next_clip_id: (m.next_clip_id + clipboard::chunk_count(first.len()) + 1) as u32,
                ..m
            };
            mwb_protocol::le_u32(clipboard_packages(m, first_type, first)[j], 4)
                < mwb_protocol::le_u32(clipboard_packages(later, second_type, second)[k], 4)
        }),
{
    let id = m.next_clip_id as int;
    clipboard::package_id(id, m.machine_id, first_type, first, j);
    clipboard::package_id(
        id + clipboard::chunk_count(first.len()) + 1,
        m.machine_id,
        second_type,
        second,
        k,
    );
}

/// A package of another kind that comes in between leaves a payload alone.
pub proof fn other_packages_leave_a_payload_alone(m: SessionModel, p: PackageModel, now: u128)
    requires
        p.package_type != PACKAGE_TYPE_CLIPBOARD_TEXT,
        p.package_type != PACKAGE_TYPE_CLIPBOARD_IMAGE,
        p.package_type != PACKAGE_TYPE_CLIPBOARD_DATA_END,
    ensures
        session_after(m, p, now).collected == m.collected,
        session_after(m, p, now).kind == m.kind,
{
}

/// A row of packages of 64 bytes is as long as all of them, and each has its
/// place in it.
pub proof fn lemma_sealed_all(packages: Seq<Seq<u8>>, magic: u32, k: int)
    requires
        forall|i: int| 0 <= i < packages.len() ==> (#[trigger] packages[i]).len() == 64,
        0 <= k <= packages.len(),
    ensures
        sealed_all(packages, magic).len() == 64 * packages.len(),
        k < packages.len() ==> sealed_all(packages, magic).subrange(64 * k, 64 * k + 64)
            == mwb_protocol::sealed(packages[k], magic),
    decreases packages.len(),
{
    if packages.len() > 0 {
        let n = packages.len() - 1;
        let init = packages.drop_last();
        let all = sealed_all(packages, magic);
        assert forall|i: int| 0 <= i < init.len() implies (#[trigger] init[i]).len() == 64 by {
            assert(packages[i].len() == 64);
        }
        assert(packages[n].len() == 64);
        if k < n {
            lemma_sealed_all(init, magic, k);
            assert(all.subrange(64 * k, 64 * k + 64) =~= sealed_all(init, magic).subrange(
                64 * k,
                64 * k + 64,
            ));
        } else {
            lemma_sealed_all(init, magic, 0);
            if k == n {
                assert(all.subrange(64 * k, 64 * k + 64) =~= mwb_protocol::sealed(
                    packages[k],
                    magic,
                ));
            }
        }
    }
}

/// Packages that are sent one behind the other arrive one by one: package `k`
/// of what an end can read is genuine, and it is package `k` of what was sent.
pub proof fn sent_rows_arrive(
    link: LinkModel,
    magic: u32,
    packages: Seq<Seq<u8>>,
    cipher: Seq<u8>,
    k: int,
)
    requires
        forall|i: int| 0 <= i < packages.len() ==> (#[trigger] packages[i]).len() == 64,
        cipher.len() == 64 * packages.len(),
        link.opened(cipher) == sealed_all(packages, magic),
        0 <= k < packages.len(),
    ensures
        received_package(
            link.having_received(cipher.take(64 * k)),
            magic,
            cipher.subrange(64 * k, 64 * k + 64),
        ) == genuine(packages[k]),
{
    let before = cipher.take(64 * k);
    let piece = cipher.subrange(64 * k, 64 * k + 64);
    let rest = cipher.skip(64 * k);
    let after = rest.skip(64);
    assert(before + rest =~= cipher);
    assert(piece + after =~= rest);
    let there = link.having_received(before);
    link::pieces_make_a_whole(link, before, rest);
    link::pieces_make_a_whole(there, piece, after);
    crypto::lemma_cbc_decrypted_len(link.key, link.read_chain, before);
    crypto::lemma_cbc_decrypted_len(there.key, there.read_chain, piece);
    lemma_sealed_all(packages, magic, k);
    assert(there.opened(piece) =~= sealed_all(packages, magic).subrange(64 * k, 64 * k + 64));
    assert(packages[k].len() == 64);
    sent_packages_arrive(there, magic, packages[k], piece);
}

/// A row of packages starts with its first package.
pub proof fn lemma_sealed_first(packages: Seq<Seq<u8>>, magic: u32)
    requires
        packages.len() > 0,
    ensures
        sealed_all(packages, magic) == mwb_protocol::sealed(packages[0], magic) + sealed_all(
            packages.skip(1),
            magic,
        ),
    decreases packages.len(),
{
    let first = mwb_protocol::sealed(packages[0], magic);
    if packages.len() == 1 {
        assert(packages.drop_last().len() == 0 && packages.skip(1).len() == 0);
        assert(sealed_all(packages.drop_last(), magic) =~= Seq::<u8>::empty());
        assert(sealed_all(packages.skip(1), magic) =~= Seq::<u8>::empty());
        assert(packages.last() == packages[0]);
        assert(sealed_all(packages, magic) =~= first + sealed_all(packages.skip(1), magic));
    } else {
        let init = packages.drop_last();
        lemma_sealed_first(init, magic);
        assert(init.skip(1) =~= packages.skip(1).drop_last());
        assert(sealed_all(packages, magic) =~= first + sealed_all(packages.skip(1), magic));
    }
}

/// A mouse package, of type 123, tells x, y, wheel and message in its four
/// numbers.
pub proof fn mouse_packages_are_read(m: SessionModel, p: PackageModel, now: u128)
    requires
        p.valid,
        p.package_type == 123,
    ensures
        action_for(m, p, now) == if m.role.forwards_input {
            ActionModel::Mouse {
                x: mwb_protocol::le_u32(p.bytes, 16),
                y: mwb_protocol::le_u32(p.bytes, 20),
                wheel: mwb_protocol::le_u32(p.bytes, 24),
                flags: mwb_protocol::le_u32(p.bytes, 28),
            }
        } else {
            ActionModel::Nothing
        },
        session_after(m, p, now) == m,
{
}

/// A keyboard package, of type 122, tells key and flags in the last two of its
/// four numbers. Its event is remembered for the lock, and the machine is
/// locked where it completes the combination.
pub proof fn keyboard_packages_are_read(m: SessionModel, p: PackageModel, now: u128)
    requires
        p.valid,
        p.package_type == 122,
    ensures
        ({
            let vk = mwb_protocol::le_u32(p.bytes, 24);
            let flags = mwb_protocol::le_u32(p.bytes, 28);
            let pressed = flags & 0x80 == 0;
            &&& action_for(m, p, now) == (ActionModel::Keyboard {
                lock: input_handling::is_lock_combo(
                    input_handling::remembered(m.lock, vk, pressed, now),
                ),
                forward: m.role.forwards_input,
                vk,
                flags,
            })
            &&& session_after(m, p, now).lock == input_handling::observed(
                m.lock,
                vk,
                pressed,
                now,
            )
        }),
{
    input_handling::bit_seven_marks_a_release(mwb_protocol::le_u32(p.bytes, 28));
}

/// An answer, of type 127, is reported where this connection reports: as good
/// exactly where every number of the challenge comes back with all its bits
/// flipped, and under the name that stands in it.
pub proof fn answers_are_judged(m: SessionModel, p: PackageModel, now: u128)
    requires
        p.valid,
        p.package_type == 127,
        m.challenge.len() == 4,
    ensures
        !m.role.reports_status ==> action_for(m, p, now) == ActionModel::Nothing,
        m.role.reports_status ==> action_for(m, p, now) == (ActionModel::Status {
            connected: forall|i: int|
                0 <= i < 4 ==> mwb_protocol::le_u32(p.bytes, 16 + 4 * i)
                    == !(#[trigger] m.challenge[i]),
            peer: text::trimmed_end(text::utf8_text(p.bytes.subrange(32, 64))),
        }),
        session_after(m, p, now) == m,
{
    mwb_protocol::lemma_flipped(m.challenge[0]);
    mwb_protocol::lemma_flipped(m.challenge[1]);
    mwb_protocol::lemma_flipped(m.challenge[2]);
    mwb_protocol::lemma_flipped(m.challenge[3]);
    if mwb_protocol::challenge_met(p.bytes, m.challenge) {
        assert forall|i: int| 0 <= i < 4 implies mwb_protocol::le_u32(p.bytes, 16 + 4 * i)
            == !(#[trigger] m.challenge[i]) by {
            assert(i == 0 || i == 1 || i == 2 || i == 3);
        }
    }
}

/// A handshake, of type 126, is answered, on every connection, with its answer
/// under our seal, and the link moves on by what is sent.
pub proof fn handshakes_are_answered(m: SessionModel, p: PackageModel, now: u128)
    requires
        p.valid,
        p.package_type == 126,
    ensures
        ({
            let plain = mwb_protocol::sealed(
                mwb_protocol::handshake_ack(p.bytes, m.machine_id, m.machine_name),
                m.magic,
            );
            let bytes = crypto::cbc_encrypted(m.link.key, m.link.write_chain, plain);
            &&& action_for(m, p, now) == ActionModel::Send(bytes)
            &&& session_after(m, p, now).link.write_chain == crypto::chain_after(
                m.link.write_chain,
                bytes,
            )
            &&& session_after(m, p, now).link.read_chain == m.link.read_chain
        }),
{
}

/// A piece of clipboard data, of type 124 or 125, is added to what was
/// collected, and its kind is remembered; the end, of type 76, has it applied
/// as that kind where this connection takes the clipboard, and forgets it.
pub proof fn clipboard_packages_are_read(m: SessionModel, p: PackageModel, now: u128)
    requires
        p.valid,
        p.package_type == 124 || p.package_type == 125 || p.package_type == 76,
    ensures
        ({
            let after = session_after(m, p, now);
            let action = action_for(m, p, now);
            if p.package_type == 76 {
                &&& after.collected.len() == 0
                &&& after.kind is None
                &&& m.role.takes_clipboard && m.kind == Some(124u8) ==> action
                    == ActionModel::ApplyText(m.collected)
                &&& m.role.takes_clipboard && m.kind == Some(125u8) ==> action
                    == ActionModel::ApplyImage(m.collected)
                &&& !m.role.takes_clipboard || m.kind is None ==> action == ActionModel::Nothing
            } else {
                &&& after.collected == m.collected + p.bytes.subrange(16, 64)
                &&& after.kind == Some(p.package_type)
                &&& action == ActionModel::Nothing
            }
        }),
{
}

/// A beat, of type 69, has a file pulled where this connection takes the
/// clipboard.
pub proof fn beats_are_followed(m: SessionModel, p: PackageModel, now: u128)
    requires
        p.valid,
        p.package_type == 69,
    ensures
        action_for(m, p, now) == if m.role.takes_clipboard {
            ActionModel::Pull
        } else {
            ActionModel::Nothing
        },
        session_after(m, p, now) == m,
{
}

/// A ping, of type 2, is counted, and the first of every 500 is reported.
#[verifier::rlimit(60)]
#[verifier::spinoff_prover]
pub proof fn pings_are_counted(m: SessionModel, p: PackageModel, now: u128)
    requires
        p.valid,
        p.package_type == 2,
        m.hi_count < u64::MAX,
    ensures
        session_after(m, p, now).hi_count == m.hi_count + 1,
        action_for(m, p, now) == if m.hi_count % 500 == 0 {
            ActionModel::ReportHi((m.hi_count + 1) as u64)
        } else {
            ActionModel::Nothing
        },
{
    let n = m.hi_count as int;
    assert((n + 1) % 500 == 1 <==> n % 500 == 0);
}

/// Every other package is passed over.
pub proof fn other_packages_are_passed_over(m: SessionModel, p: PackageModel, now: u128)
    requires
        p.package_type != 2 && p.package_type != 69 && p.package_type != 76,
        p.package_type < 122 || p.package_type > 127,
    ensures
        action_for(m, p, now) == ActionModel::Nothing,
        session_after(m, p, now) == m,
{
}

/// A package changes nothing of a connection but what it is about: the link
/// moves only for a handshake, the lock remembers only keys, only clipboard
/// packages touch what is collected, and only pings are counted. Who we are,
/// what we asked and the ids that are left never change.
pub proof fn packages_change_what_they_are_about(m: SessionModel, p: PackageModel, now: u128)
    ensures
        ({
            let after = session_after(m, p, now);
            let t = p.package_type;
            &&& after.magic == m.magic && after.machine_id == m.machine_id && after.machine_name
                == m.machine_name
            &&& after.challenge == m.challenge && after.role == m.role
            &&& after.keyboard == m.keyboard && after.next_clip_id == m.next_clip_id
            &&& t != 126 ==> after.link == m.link
            &&& t != 122 ==> after.lock == m.lock
            &&& t != 2 ==> after.hi_count == m.hi_count
            &&& t != 124 && t != 125 && t != 76 ==> after.collected == m.collected && after.kind
                == m.kind
        }),
{
}

/// Where this connection takes the clipboard, every genuine package tells who
/// the peer is, and nothing else of what is shared changes.
pub proof fn senders_are_remembered(m: SessionModel, shared: SharedModel, p: PackageModel)
    ensures
        ({
            let after = shared_after(m, shared, p);
            let src = mwb_protocol::le_u32(p.bytes, 8);
            &&& after.text == shared.text && after.file_uri == shared.file_uri && after.image
                == shared.image && after.picture == shared.picture && after.pending
                == shared.pending
            &&& after.peer == if p.valid && m.role.takes_clipboard && src != 0 && src != 255 {
                Some(src)
            } else {
                shared.peer
            }
        }),
{
}

/// A connection starts with nothing held, nothing collected and nothing
/// counted, with 1000 as the id of its first clipboard package, and with the
/// chains at their start.
pub proof fn connections_start_afresh(
    security_key: Seq<char>,
    machine_id: u32,
    machine_name: Seq<char>,
    role: Role,
    challenge: Seq<u32>,
)
    ensures
        ({
            let m = fresh_session(security_key, machine_id, machine_name, role, challenge);
            &&& m.link.read_chain == crypto::initial_chain()
            &&& m.link.write_chain == crypto::initial_chain()
            &&& m.magic == crypto::magic_number_of(security_key)
            &&& m.machine_id == machine_id && m.machine_name == machine_name
            &&& m.role == role && m.challenge == challenge
            &&& m.next_clip_id == 1000
            &&& m.hi_count == 0 && m.collected.len() == 0 && m.kind is None && m.lock.len() == 0
            &&& m.keyboard.pressed == Set::<u32>::empty()
            &&& !m.keyboard.mods.shift && !m.keyboard.mods.ctrl && !m.keyboard.mods.alt
                && !m.keyboard.mods.super_ && !m.keyboard.mods.level3
        }),
{
}

/// The opening handshake is genuine, of type 126, with the id 1, from us to
/// nobody, with our challenge and our name.
pub proof fn opening_handshake_layout(m: SessionModel, i: int)
    requires
        m.challenge.len() == 4,
        0 <= i < 4,
    ensures
        ({
            let s = opening_handshake(m);
            &&& s.len() == 64
            &&& mwb_protocol::accepted(s, m.magic)
            &&& mwb_protocol::is_addressed(mwb_protocol::cleaned(s), 126, 1, m.machine_id, 0)
            &&& mwb_protocol::le_u32(s, 16 + 4 * i) == m.challenge[i]
            &&& s.skip(32) == mwb_protocol::name_field(m.machine_name)
        }),
{
    let plain = mwb_protocol::handshake(1, m.machine_id, m.challenge, m.machine_name);
    mwb_protocol::handshake_layout(1, m.machine_id, m.challenge, m.machine_name, i);
    mwb_protocol::seal_then_validate(plain, m.magic);
    assert(mwb_protocol::cleaned(plain) =~= plain);
    let s = opening_handshake(m);
    assert(s.skip(32) =~= plain.skip(32));
}

/// Copies are as many as they are said to be, each in its place.
pub proof fn copies_follow_each_other(s: Seq<u8>, n: nat, i: int)
    ensures
        copies(s, n).len() == n * s.len(),
        0 <= i < n ==> copies(s, n).subrange(i * s.len(), (i + 1) * s.len()) == s,
    decreases n,
{
    let k = s.len() as int;
    if n > 0 {
        let m = (n - 1) as nat;
        copies_follow_each_other(s, m, i);
        assert(n * k == m * k + k) by (nonlinear_arith)
            requires
                n == m + 1,
        ;
        if 0 <= i < n {
            assert((i + 1) * k == i * k + k) by (nonlinear_arith);
            assert(0 <= i * k) by (nonlinear_arith)
                requires
                    0 <= i,
                    0 <= k,
            ;
            if i < m {
                assert((i + 1) * k <= m * k) by (nonlinear_arith)
                    requires
                        i + 1 <= m,
                        0 <= k,
                ;
                assert(copies(s, n).subrange(i * k, (i + 1) * k) =~= copies(s, m).subrange(
                    i * k,
                    (i + 1) * k,
                ));
            } else {
                assert(copies(s, n).subrange(i * k, (i + 1) * k) =~= s);
            }
        }
    } else {
        assert(0 * k == 0);
    }
}

/// An announcement is a genuine beat to everyone. Where the peer is known, a
/// genuine package that hides its cursor and one that makes it the active
/// machine follow, in this order and addressed to it.
#[verifier::rlimit(60)]
#[verifier::spinoff_prover]
pub proof fn announcements_are_genuine(m: SessionModel, peer: Option<u32>, ids: Seq<u32>)
    requires
        ids.len() == 3,
    ensures
        ({
            let said = announcement(m, peer, ids);
            let beat = said.take(64);
            &&& said.len() == if peer is Some {
                128nat
            } else {
                64nat
            }
            &&& mwb_protocol::accepted(beat, m.magic)
            &&& mwb_protocol::is_addressed(
                mwb_protocol::cleaned(beat),
                69,
                ids[0],
                m.machine_id,
                255,
            )
            &&& peer is Some ==> {
                let hide = said.subrange(64, 96);
                let switch = said.subrange(96, 128);
                &&& mwb_protocol::accepted(hide, m.magic)
                &&& mwb_protocol::is_addressed(
                    mwb_protocol::cleaned(hide),
                    50,
                    ids[1],
                    m.machine_id,
                    peer->0,
                )
                &&& mwb_protocol::accepted(switch, m.magic)
                &&& mwb_protocol::is_addressed(
                    mwb_protocol::cleaned(switch),
                    77,
                    ids[2],
                    m.machine_id,
                    peer->0,
                )
            }
        }),
{
    let said = announcement(m, peer, ids);
    let beat = mwb_protocol::clipboard_beat(ids[0], m.machine_id);
    mwb_protocol::announcements_layout(ids[0], m.machine_id, 0);
    mwb_protocol::seal_then_validate(beat, m.magic);
    assert(said.take(64) =~= mwb_protocol::sealed(beat, m.magic));
    assert(mwb_protocol::cleaned(beat) =~= beat);
    if peer is Some {
        let hide = mwb_protocol::hide_mouse(ids[1], m.machine_id, peer->0);
        let switch = mwb_protocol::machine_switched(ids[2], m.machine_id, peer->0);
        mwb_protocol::announcements_layout(ids[1], m.machine_id, peer->0);
        mwb_protocol::announcements_layout(ids[2], m.machine_id, peer->0);
        mwb_protocol::seal_then_validate(hide, m.magic);
        mwb_protocol::seal_then_validate(switch, m.magic);
        assert(said.subrange(64, 96) =~= mwb_protocol::sealed(hide, m.magic));
        assert(said.subrange(96, 128) =~= mwb_protocol::sealed(switch, m.magic));
        assert(mwb_protocol::cleaned(hide) =~= hide);
        assert(mwb_protocol::cleaned(switch) =~= switch);
    }
}

/// The name in a package that carries one is the name that was put there.
pub proof fn peers_are_named(m: SessionModel, p: PackageModel, name: Seq<char>)
    requires
        p.bytes.len() == 64,
        p.bytes.skip(32) == mwb_protocol::name_field(name),
        encode_utf8(name).len() <= 32,
        name.len() > 0 ==> !text::is_white_space(name.last()),
    ensures
        name_in(p) == name,
{
    let head = p.bytes.take(32);
    assert(p.bytes =~= head + mwb_protocol::name_field(name));
    name_is_read_back(head, name);
}

/// The first half of a package tells its type, and it is genuine exactly where
/// it carries our magic number and its checksum.
pub proof fn heads_are_judged_by_their_seal(plain: Seq<u8>, magic: u32, i: int)
    requires
        plain.len() == 32,
    ensures
        package_head(plain, magic).package_type == plain[0],
        package_head(plain, magic).valid <==> 0x100 * plain[3] + plain[2] == magic / 0x1_0000
            && plain[1] == mwb_protocol::checksum(plain),
        package_head(plain, magic).bytes.len() == 32,
        4 <= i < 32 ==> package_head(plain, magic).bytes[i] == plain[i],
{
}

/// A payload that is sent takes an id for each of its packages, and moves the
/// link on by what is sent; nothing else of the connection changes. It is not
/// sent only where there are not that many ids.
pub proof fn payloads_use_ids_up(
    before: SessionModel,
    after: SessionModel,
    package_type: u8,
    payload: Seq<u8>,
    bytes: Seq<u8>,
)
    ensures
        sends_payload(before, after, package_type, payload, bytes) ==> {
            let packages = clipboard_packages(before, package_type, payload);
            &&& bytes.len() == 64 * packages.len()
            &&& after.next_clip_id == before.next_clip_id + packages.len()
            &&& after.link.write_chain == crypto::chain_after(before.link.write_chain, bytes)
            &&& after == (SessionModel {
                link: after.link,
                next_clip_id: after.next_clip_id,
                ..before
            })
            &&& after.link.key == before.link.key && after.link.read_chain
                == before.link.read_chain
        },
        ids_run_out(before, payload) <==> before.next_clip_id + clipboard_packages(
            before,
            package_type,
            payload,
        ).len() > 4_294_967_295,
{
    if sends_payload(before, after, package_type, payload, bytes) {
        let packages = clipboard_packages(before, package_type, payload);
        assert forall|i: int| 0 <= i < packages.len() implies (#[trigger] packages[i]).len()
            == 64 by {
        }
        lemma_sealed_all(packages, before.magic, 0);
        crypto::lemma_cbc_encrypted_len(
            before.link.key,
            before.link.write_chain,
            sealed_all(packages, before.magic),
        );
    }
}

/// An announcement moves the link on by what is sent, and nothing else of the
/// connection changes. A peer that understands this end reads it.
pub proof fn announcements_only_move_the_link(
    before: SessionModel,
    after: SessionModel,
    peer: Option<u32>,
    ids: Seq<u32>,
    bytes: Seq<u8>,
    end: LinkModel,
)
    requires
        announces(before, after, peer, ids, bytes),
    ensures
        after.link.write_chain == crypto::chain_after(before.link.write_chain, bytes),
        after.link.key == before.link.key && after.link.read_chain == before.link.read_chain,
        after == (SessionModel { link: after.link, ..before }),
        end.key == before.link.key && end.read_chain == before.link.write_chain ==> end.opened(
            bytes,
        ) == announcement(before, peer, ids),
{
    assert(end.key == before.link.key && end.read_chain == before.link.write_chain
        ==> before.link.feeds(end));
}

} // verus!
