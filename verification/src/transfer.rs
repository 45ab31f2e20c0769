//! A connection to the clipboard server of the peer, over which a file is
//! pulled, or from the peer to ours, over which one is served.

use vstd::prelude::*;

use crate::clipboard::{BIG_PATH_IMAGE_NAME, MAX_CLIPBOARD_FILE_SIZE};
use crate::config::{Config, Platform};
use crate::crypto;
use crate::decimal;
use crate::file_header;
use crate::link;
use crate::link::{Link, LinkModel};
use crate::mwb_protocol;
use crate::mwb_protocol::{PACKAGE_TYPE_CLIPBOARD, PACKAGE_TYPE_CLIPBOARD_PUSH};
use crate::paths;
use crate::sharing::PendingOutbound;
use crate::text;

verus! {

/// The port of the clipboard server.
pub const FILE_LISTEN_PORT: u16 = 15100;

/// How many bytes of a file go over the connection at a time.
pub const BODY_CHUNK: usize = 1_048_576;

/// The name that is sent where nothing is pending.
pub const NOTHING_AVAILABLE: &'static str = "Nothing currently available";

/// The name of a file that has none.
pub const NAMELESS_FILE: &'static str = "file";

/// The length of a file on the wire: a multiple of 32.
pub open spec fn padded_len(len: nat) -> nat {
    (len + 31) / 32 * 32
}

/// A file on the wire, filled up with zeros.
pub open spec fn padded(data: Seq<u8>) -> Seq<u8> {
    data + mwb_protocol::zeros((padded_len(data.len()) - data.len()) as nat)
}

/// The address of the clipboard server beside a message server.
pub open spec fn server_address(windows_ip: Seq<char>) -> Seq<char> {
    paths::host_of(windows_ip) + seq![':'] + decimal::decimal(FILE_LISTEN_PORT as nat)
}

/// The clipboard server is on the same host, on port 15100, whatever the port
/// of the message server.
pub proof fn servers_share_a_host(host: Seq<char>, port: Seq<char>)
    requires
        forall|i: int| 0 <= i < port.len() ==> #[trigger] port[i] != ':',
    ensures
        server_address(host + seq![':'] + port) == host + seq![':', '1', '5', '1', '0', '0'],
        server_address(port) == port + seq![':', '1', '5', '1', '0', '0'],
{
    paths::host_stands_before_the_port(host, port);
    reveal_with_fuel(decimal::decimal, 6);
    let number = seq!['1', '5', '1', '0', '0'];
    assert(decimal::decimal(15100) =~= number);
    assert(server_address(host + seq![':'] + port) =~= host + seq![
        ':',
        '1',
        '5',
        '1',
        '0',
        '0',
    ]);
    assert(server_address(port) =~= port + seq![':', '1', '5', '1', '0', '0']);
}

/// The address of the clipboard server on the machine whose message server
/// has the given address.
pub fn clipboard_server_address(windows_ip: &str) -> (r: String)
    ensures
        r@ == server_address(windows_ip@),
        r@ == paths::host_of(windows_ip@) + seq![':'] + decimal::decimal(FILE_LISTEN_PORT as nat),
{
    let mut r: String = paths::windows_clipboard_host(windows_ip);
    r.push(':');
    r.append(decimal::decimal_string(FILE_LISTEN_PORT as u64).as_str());
    assert(r@ =~= paths::host_of(windows_ip@) + seq![':'] + decimal::decimal(
        FILE_LISTEN_PORT as nat,
    ));
    r
}

/// What a header leads to.
pub enum Offer {
    /// It cannot be read.
    Unreadable,
    /// There is no file, or it is too big. An empty file is the peer's way to
    /// say what went wrong, in the place of the name.
    Refused { size: usize, name: String },
    /// The file follows.
    Accepted { size: usize, name: String },
}

pub ghost enum OfferModel {
    Unreadable,
    Refused { size: usize, name: Seq<char> },
    Accepted { size: usize, name: Seq<char> },
}

impl View for Offer {
    type V = OfferModel;

    open spec fn view(&self) -> OfferModel {
        match *self {
            Offer::Unreadable => OfferModel::Unreadable,
            Offer::Refused { size, name } => OfferModel::Refused { size, name: name@ },
            Offer::Accepted { size, name } => OfferModel::Accepted { size, name: name@ },
        }
    }
}

/// What a header leads to.
pub open spec fn offer_in(header: Seq<u8>) -> OfferModel {
    match file_header::parsed_header(header) {
        Some((size, name)) => if size == 0 || size > MAX_CLIPBOARD_FILE_SIZE {
            OfferModel::Refused { size, name }
        } else {
            OfferModel::Accepted { size, name }
        },
        None => OfferModel::Unreadable,
    }
}

/// Takes the header of a file in.
pub fn receive_header(link: &mut Link, cipher: &[u8; 1024]) -> (r: Offer)
    ensures
        r@ == offer_in(old(link)@.opened(cipher@)),
        final(link)@ == old(link)@.having_received(cipher@),
{
    let plain: Vec<u8> = link.receive(cipher);
    let mut header: [u8; 1024] = [0u8; 1024];
    mwb_protocol::copy_into(&mut header, 0, plain.as_slice());
    assert(header@ =~= plain@);
    match file_header::parse_file_header(&header) {
        Some((size, name)) => if size == 0 || size > MAX_CLIPBOARD_FILE_SIZE {
            Offer::Refused { size, name }
        } else {
            Offer::Accepted { size, name }
        },
        None => Offer::Unreadable,
    }
}

/// A file that is being received: its size, and what has come in.
pub struct BodyReader {
    size: usize,
    remaining: usize,
    received: Vec<u8>,
}

pub ghost struct BodyModel {
    pub size: nat,
    pub received: Seq<u8>,
}

impl View for BodyReader {
    type V = BodyModel;

    closed spec fn view(&self) -> BodyModel {
        BodyModel { size: self.size as nat, received: self.received@ }
    }
}

impl BodyModel {
    /// How many bytes are still to come.
    pub open spec fn remaining(self) -> int {
        padded_len(self.size) - self.received.len()
    }

    /// How many bytes come next.
    pub open spec fn next(self) -> int {
        if self.remaining() < BODY_CHUNK {
            self.remaining()
        } else {
            BODY_CHUNK as int
        }
    }
}

impl BodyReader {
    /// What has come in and what is missing add up.
    pub closed spec fn well_formed(&self) -> bool {
        &&& self.remaining == self@.remaining()
        &&& self.remaining % 32 == 0
    }

    /// A file of which nothing has come in.
    pub fn new(size: usize) -> (r: BodyReader)
        requires
            padded_len(size as nat) <= usize::MAX,
        ensures
            r.well_formed(),
            r@ == (BodyModel { size: size as nat, received: Seq::empty() }),
    {
        let blocks: usize = if size % 32 == 0 {
            size / 32
        } else {
            size / 32 + 1
        };
        BodyReader { size, remaining: blocks * 32, received: Vec::new() }
    }

    /// How many bytes are to be read next, and 0 when the file is complete.
    pub fn next_len(&self) -> (r: usize)
        requires
            self.well_formed(),
        ensures
            r == self@.next(),
            r % 32 == 0,
            r == 0 <==> self@.remaining() == 0,
    {
        if self.remaining < BODY_CHUNK {
            self.remaining
        } else {
            BODY_CHUNK
        }
    }

    /// Takes the next bytes in.
    pub fn take_chunk(&mut self, link: &mut Link, cipher: &[u8])
        requires
            old(self).well_formed(),
            cipher@.len() == old(self)@.next(),
        ensures
            final(self).well_formed(),
            final(self)@ == (BodyModel {
                received: old(self)@.received + old(link)@.opened(cipher@),
                ..old(self)@
            }),
            final(self)@.remaining() == old(self)@.remaining() - cipher@.len(),
            final(link)@ == old(link)@.having_received(cipher@),
    {
        let plain: Vec<u8> = link.receive(cipher);
        mwb_protocol::append_bytes(&mut self.received, plain.as_slice());
        self.remaining = self.remaining - cipher.len();
    }

    /// The file, without what fills it up on the wire.
    pub fn contents(&self) -> (r: Vec<u8>)
        requires
            self.well_formed(),
            self@.remaining() == 0,
        ensures
            r@ == self@.received.take(self@.size as int),
    {
        let n: usize = self.size;
        let all: &[u8] = vstd::slice::slice_subrange(self.received.as_slice(), 0, n);
        assert(all@ =~= self@.received.take(n as int));
        vstd::slice::slice_to_vec(all)
    }
}

/// What becomes of a file that was received.
pub enum Destination {
    /// It is an image for the clipboard.
    Image,
    /// It is stored under this name.
    File(String),
    /// It is thrown away.
    Nowhere,
}

pub ghost enum DestinationModel {
    Image,
    File(Seq<char>),
    Nowhere,
}

impl View for Destination {
    type V = DestinationModel;

    open spec fn view(&self) -> DestinationModel {
        match self {
            Destination::Image => DestinationModel::Image,
            Destination::File(name) => DestinationModel::File(name@),
            Destination::Nowhere => DestinationModel::Nowhere,
        }
    }
}

/// What becomes of a file with a given name.
pub open spec fn destined(platform: Platform, name: Seq<char>) -> DestinationModel {
    if name == BIG_PATH_IMAGE_NAME@ {
        DestinationModel::Image
    } else if platform == Platform::Linux {
        DestinationModel::File(paths::basename(name))
    } else {
        DestinationModel::Nowhere
    }
}

/// On Linux a file is stored under the end of its path, whatever directory it
/// was in and whatever separates it from that; on macOS it is not taken. What
/// is called `image`, and nothing else, is an image.
pub proof fn files_are_stored_by_name(
    platform: Platform,
    dir: Seq<char>,
    separator: char,
    name: Seq<char>,
)
    requires
        separator == '/' || separator == '\\',
        forall|i: int| 0 <= i < name.len() ==> #[trigger] name[i] != '/' && name[i] != '\\',
    ensures
        destined(Platform::Linux, dir + seq![separator] + name) == DestinationModel::File(name),
        destined(Platform::MacOs, dir + seq![separator] + name) == DestinationModel::Nowhere,
        destined(platform, name) == DestinationModel::Image <==> name == "image"@,
        name != "image"@ ==> destined(Platform::Linux, name) == DestinationModel::File(name),
        name != "image"@ ==> destined(Platform::MacOs, name) == DestinationModel::Nowhere,
{
    let path = dir + seq![separator] + name;
    reveal_strlit("image");
    assert(path[dir.len() as int] == separator);
    assert forall|i: int| 0 <= i < "image"@.len() implies #[trigger] "image"@[i] != '/'
        && "image"@[i] != '\\' by {
    }
    paths::basename_of_a_path(dir, separator, name);
    paths::basename_starts_behind_a_separator(name);
}

/// Decides what becomes of a file by its name. An image has a name of its own;
/// other files are only taken on Linux, under the last part of their path on
/// Windows.
pub fn destination(platform: Platform, name: &str) -> (r: Destination)
    ensures
        r@ == destined(platform, name@),
        match r {
            Destination::Image => name@ == BIG_PATH_IMAGE_NAME@,
            Destination::File(stored) => name@ != BIG_PATH_IMAGE_NAME@ && platform
                == Platform::Linux && stored@ == paths::basename(name@),
            Destination::Nowhere => name@ != BIG_PATH_IMAGE_NAME@ && platform == Platform::MacOs,
        },
{
    let given: String = String::from_str(name);
    let image: String = String::from_str(BIG_PATH_IMAGE_NAME);
    if given == image {
        Destination::Image
    } else {
        match platform {
            Platform::Linux => Destination::File(paths::windows_basename(name)),
            Platform::MacOs => Destination::Nowhere,
        }
    }
}

/// The name that a file is served under.
pub open spec fn served_name(pending: (Seq<char>, bool)) -> Seq<char> {
    if pending.1 {
        BIG_PATH_IMAGE_NAME@
    } else {
        match paths::last_component(pending.0) {
            Some(name) => name,
            None => NAMELESS_FILE@,
        }
    }
}

/// The name that a file is served under: its own, or the one that marks an
/// image.
pub fn outbound_name(pending: &PendingOutbound) -> (r: String)
    ensures
        r@ == served_name(pending@),
{
    match pending {
        PendingOutbound::File(path) => match paths::file_name(path.as_str()) {
            Some(name) => name,
            None => String::from_str(NAMELESS_FILE),
        },
        PendingOutbound::Image(_) => String::from_str(BIG_PATH_IMAGE_NAME),
    }
}

/// Where a pull has got to: which bytes it waits for.
#[derive(Clone, Copy, Debug, PartialEq, Eq, Structural)]
pub enum PullStage {
    /// The block that the peer opens with.
    Priming,
    /// The handshake of the peer.
    Introduction,
    /// The header of the file.
    Header,
    /// A piece of the file.
    Body,
    /// Nothing more.
    Over,
}

pub ghost struct PullModel {
    pub link: LinkModel,
    pub machine_id: u32,
    pub machine_name: Seq<char>,
    pub stage: PullStage,
    pub body: BodyModel,
    pub name: Seq<char>,
}

impl PullModel {
    /// How many bytes the pull waits for.
    pub open spec fn wanted(self) -> int {
        match self.stage {
            PullStage::Priming => 16,
            PullStage::Introduction => 64,
            PullStage::Header => 1024,
            PullStage::Body => self.body.next(),
            PullStage::Over => 0,
        }
    }
}

/// What is to be done about a pull.
pub enum PullAction {
    /// Bytes are to be sent before more is read.
    Send(Vec<u8>),
    /// More is to be read.
    Continue,
    /// The header cannot be read, and the pull is over.
    Unreadable,
    /// There is no file to pull, or it is too big, and the pull is over.
    Refused { size: usize, name: String },
    /// The file is complete.
    Received { name: String, body: Vec<u8> },
}

pub ghost enum PullActionModel {
    Send(Seq<u8>),
    Continue,
    Unreadable,
    Refused { size: usize, name: Seq<char> },
    Received { name: Seq<char>, body: Seq<u8> },
}

impl View for PullAction {
    type V = PullActionModel;

    open spec fn view(&self) -> PullActionModel {
        match *self {
            PullAction::Send(bytes) => PullActionModel::Send(bytes@),
            PullAction::Continue => PullActionModel::Continue,
            PullAction::Unreadable => PullActionModel::Unreadable,
            PullAction::Refused { size, name } => PullActionModel::Refused { size, name: name@ },
            PullAction::Received { name, body } => PullActionModel::Received {
                name: name@,
                body: body@,
            },
        }
    }
}

/// The handshake of the side that pulls. It is not sealed.
pub open spec fn pull_handshake(m: PullModel) -> Seq<u8> {
    mwb_protocol::clipboard_handshake(PACKAGE_TYPE_CLIPBOARD, m.machine_id, m.machine_name)
}

/// What the bytes that a pull waits for lead to.
pub open spec fn pull_fed(m: PullModel, cipher: Seq<u8>) -> (PullModel, PullActionModel) {
    let opened = m.link.opened(cipher);
    let there = PullModel { link: m.link.having_received(cipher), ..m };
    match m.stage {
        PullStage::Priming => {
            let bytes = there.link.sealed(pull_handshake(m));
            (
                PullModel {
                    link: there.link.having_sent(bytes),
                    stage: PullStage::Introduction,
                    ..there
                },
                PullActionModel::Send(bytes),
            )
        },
        PullStage::Introduction => (
            PullModel { stage: PullStage::Header, ..there },
            PullActionModel::Continue,
        ),
        PullStage::Header => match offer_in(opened) {
            OfferModel::Unreadable => (
                PullModel { stage: PullStage::Over, ..there },
                PullActionModel::Unreadable,
            ),
            OfferModel::Refused { size, name } => (
                PullModel { stage: PullStage::Over, ..there },
                PullActionModel::Refused { size, name },
            ),
            OfferModel::Accepted { size, name } => (
                PullModel {
                    stage: PullStage::Body,
                    body: BodyModel { size: size as nat, received: Seq::empty() },
                    name,
                    ..there
                },
                PullActionModel::Continue,
            ),
        },
        PullStage::Body => {
            let body = BodyModel { received: m.body.received + opened, ..m.body };
            if body.remaining() == 0 {
                (
                    PullModel { stage: PullStage::Over, body, ..there },
                    PullActionModel::Received {
                        name: m.name,
                        body: body.received.take(body.size as int),
                    },
                )
            } else {
                (PullModel { body, ..there }, PullActionModel::Continue)
            }
        },
        PullStage::Over => (there, PullActionModel::Continue),
    }
}

/// A file on its way from the peer.
pub struct Pull {
    link: Link,
    machine_id: u32,
    machine_name: String,
    stage: PullStage,
    body: BodyReader,
    name: String,
}

impl View for Pull {
    type V = PullModel;

    closed spec fn view(&self) -> PullModel {
        PullModel {
            link: self.link@,
            machine_id: self.machine_id,
            machine_name: self.machine_name@,
            stage: self.stage,
            body: self.body@,
            name: self.name@,
        }
    }
}

impl Pull {
    /// While the file comes in, something of it is missing.
    pub closed spec fn well_formed(&self) -> bool {
        self.stage == PullStage::Body ==> self.body.well_formed() && self.body@.remaining() > 0
    }

    /// Opens a connection to pull a file: the bytes to send first are a random
    /// block.
    pub fn open(cfg: &Config) -> (r: (Pull, Vec<u8>))
        ensures
            r.0.well_formed(),
            r.1@.len() == 16,
            ({
                let fresh = link::fresh_link(link::link_key(cfg.security_key@));
                &&& r.0@.link == fresh.having_sent(r.1@)
                &&& exists|block: Seq<u8>|
                    block.len() == 16 && r.1@ == #[trigger] fresh.sealed(block)
            }),
            r.0@.machine_id == cfg.machine_id,
            r.0@.machine_name == cfg.machine_name@,
            r.0@.stage == PullStage::Priming,
    {
        let mut link: Link = Link::new(cfg.security_key.as_str());
        let bytes: Vec<u8> = link.prime();
        let pull = Pull {
            link,
            machine_id: cfg.machine_id,
            machine_name: cfg.machine_name.clone(),
            stage: PullStage::Priming,
            body: BodyReader::new(0),
            name: String::new(),
        };
        (pull, bytes)
    }

    /// How many bytes to read next, and 0 when the pull is over.
    pub fn wanted(&self) -> (r: usize)
        requires
            self.well_formed(),
        ensures
            r == self@.wanted(),
            r == 0 <==> self@.stage == PullStage::Over,
    {
        match self.stage {
            PullStage::Priming => 16,
            PullStage::Introduction => 64,
            PullStage::Header => 1024,
            PullStage::Body => self.body.next_len(),
            PullStage::Over => 0,
        }
    }

    /// Takes in the bytes that the pull waits for, and says what is to be
    /// done. The peer can read what is sent.
    pub fn feed(&mut self, cipher: &[u8]) -> (r: PullAction)
        requires
            old(self).well_formed(),
            cipher@.len() == old(self)@.wanted(),
            old(self)@.stage != PullStage::Over,
        ensures
            final(self).well_formed(),
            (final(self)@, r@) == pull_fed(old(self)@, cipher@),
            r is Send ==> forall|peer: LinkModel|
                old(self)@.link.feeds(peer) ==> #[trigger] peer.opened(r->Send_0@)
                    == pull_handshake(old(self)@),
    {
        match self.stage {
            PullStage::Priming => {
                let _ = self.link.receive(cipher);
                let package: [u8; 64] = mwb_protocol::build_clipboard_handshake(
                    PACKAGE_TYPE_CLIPBOARD,
                    self.machine_id,
                    self.machine_name.as_str(),
                );
                self.stage = PullStage::Introduction;
                PullAction::Send(self.link.send(&package))
            },
            PullStage::Introduction => {
                let _ = self.link.receive(cipher);
                self.stage = PullStage::Header;
                PullAction::Continue
            },
            PullStage::Header => {
                let mut header: [u8; 1024] = [0u8; 1024];
                mwb_protocol::copy_into(&mut header, 0, cipher);
                assert(header@ =~= cipher@);
                self.stage = PullStage::Over;
                match receive_header(&mut self.link, &header) {
                    Offer::Unreadable => PullAction::Unreadable,
                    Offer::Refused { size, name } => PullAction::Refused { size, name },
                    Offer::Accepted { size, name } => {
                        self.stage = PullStage::Body;
                        self.body = BodyReader::new(size);
                        self.name = name;
                        PullAction::Continue
                    },
                }
            },
            PullStage::Body => {
                self.body.take_chunk(&mut self.link, cipher);
                if self.body.next_len() == 0 {
                    self.stage = PullStage::Over;
                    PullAction::Received { name: self.name.clone(), body: self.body.contents() }
                } else {
                    PullAction::Continue
                }
            },
            PullStage::Over => PullAction::Continue,
        }
    }
}

/// What a pull comes to when it is fed some bytes, piece by piece.
pub open spec fn pull_run(m: PullModel, bytes: Seq<u8>) -> PullActionModel
    decreases bytes.len(),
{
    let n = m.wanted();
    if n <= 0 || bytes.len() < n {
        PullActionModel::Continue
    } else if bytes.len() == n {
        pull_fed(m, bytes).1
    } else {
        pull_run(pull_fed(m, bytes.take(n)).0, bytes.skip(n))
    }
}

proof fn lemma_body_is_pulled(m: PullModel, data: Seq<u8>, bytes: Seq<u8>)
    requires
        m.stage == PullStage::Body,
        m.body.size == data.len(),
        m.body.received.len() % 32 == 0,
        bytes.len() > 0,
        m.body.received.len() + bytes.len() == padded_len(data.len()),
        m.body.received == padded(data).take(m.body.received.len() as int),
        m.link.opened(bytes) == padded(data).skip(m.body.received.len() as int),
    ensures
        pull_run(m, bytes) == (PullActionModel::Received { name: m.name, body: data }),
    decreases bytes.len(),
{
    let n = m.wanted();
    let first = bytes.take(n);
    let rest = bytes.skip(n);
    let next = pull_fed(m, first).0;
    assert(first + rest =~= bytes);
    crypto::lemma_cbc_decrypted_len(m.link.key, m.link.read_chain, first);
    link::pieces_make_a_whole(m.link, first, rest);
    if bytes.len() == n {
        assert(m.body.received + m.link.opened(bytes) =~= padded(data));
        assert(padded(data).take(data.len() as int) =~= data);
    } else {
        let k = m.body.received.len() as int;
        let opened = m.link.opened(bytes);
        assert(m.link.opened(first) =~= opened.take(n));
        assert(next.link.opened(rest) =~= opened.skip(n));
        assert(next.body.received =~= padded(data).take(k + n));
        assert(next.link.opened(rest) =~= padded(data).skip(k + n));
        lemma_body_is_pulled(next, data, rest);
    }
}

/// A file that is served is the file that is pulled: fed the bytes that carry
/// its header and its body, a pull ends with the name and the file.
pub proof fn served_file_is_pulled(m: PullModel, name: Seq<char>, data: Seq<u8>, bytes: Seq<u8>)
    requires
        m.stage == PullStage::Header,
        0 < data.len() <= MAX_CLIPBOARD_FILE_SIZE,
        text::utf16_encode(file_header::header_text(data.len() as usize, name)).len() <= 512,
        forall|i: int| 0 <= i < name.len() ==> #[trigger] name[i] != '\0',
        bytes.len() == 1024 + padded_len(data.len()),
        m.link.opened(bytes) == served(name, data),
    ensures
        pull_run(m, bytes) == (PullActionModel::Received { name, body: data }),
{
    let first = bytes.take(1024);
    let rest = bytes.skip(1024);
    let header = file_header::file_header(data.len() as usize, name);
    assert(first + rest =~= bytes);
    crypto::lemma_cbc_decrypted_len(m.link.key, m.link.read_chain, first);
    link::pieces_make_a_whole(m.link, first, rest);
    let opened = m.link.opened(bytes);
    assert(m.link.opened(first) =~= opened.take(1024));
    assert(opened.take(1024) =~= header);
    file_header::file_header_round_trip(data.len() as usize, name);
    let next = pull_fed(m, first).0;
    assert(next.link.opened(rest) =~= opened.skip(1024));
    assert(opened.skip(1024) =~= padded(data).skip(0));
    assert(padded(data).take(0) =~= Seq::<u8>::empty());
    lemma_body_is_pulled(next, data, rest);
}

/// A header of no file, or of one that is too big, is refused with what it
/// says.
pub proof fn no_file_is_refused(size: usize, name: Seq<char>)
    requires
        size == 0 || size > MAX_CLIPBOARD_FILE_SIZE,
        text::utf16_encode(file_header::header_text(size, name)).len() <= 512,
        forall|i: int| 0 <= i < name.len() ==> #[trigger] name[i] != '\0',
    ensures
        offer_in(file_header::file_header(size, name)) == (OfferModel::Refused { size, name }),
{
    file_header::file_header_round_trip(size, name);
}

/// Where serving has got to: which bytes it waits for.
#[derive(Clone, Copy, Debug, PartialEq, Eq, Structural)]
pub enum ServeStage {
    /// The block that the peer opens with.
    Priming,
    /// The handshake of the peer.
    Introduction,
    /// Nothing more: the file is to be sent.
    Ready,
}

pub ghost struct ServeModel {
    pub link: LinkModel,
    pub machine_id: u32,
    pub machine_name: Seq<char>,
    pub stage: ServeStage,
}

impl ServeModel {
    /// How many bytes are waited for.
    pub open spec fn wanted(self) -> nat {
        match self.stage {
            ServeStage::Priming => 16,
            ServeStage::Introduction => 64,
            ServeStage::Ready => 0,
        }
    }
}

/// The handshake of the side that serves. It is not sealed.
pub open spec fn serve_handshake(m: ServeModel) -> Seq<u8> {
    mwb_protocol::clipboard_handshake(PACKAGE_TYPE_CLIPBOARD_PUSH, m.machine_id, m.machine_name)
}

/// What goes over the wire for a file: its header, and the file filled up with
/// zeros.
pub open spec fn served(name: Seq<char>, data: Seq<u8>) -> Seq<u8> {
    file_header::file_header(data.len() as usize, name) + padded(data)
}

/// What the bytes that are waited for lead to: the link and the stage behind
/// them, and the bytes to send.
pub open spec fn serve_fed(m: ServeModel, cipher: Seq<u8>) -> (ServeModel, Seq<u8>) {
    let there = ServeModel { link: m.link.having_received(cipher), ..m };
    match m.stage {
        ServeStage::Priming => {
            let bytes = there.link.sealed(serve_handshake(m));
            (
                ServeModel {
                    link: there.link.having_sent(bytes),
                    stage: ServeStage::Introduction,
                    ..there
                },
                bytes,
            )
        },
        ServeStage::Introduction => (
            ServeModel { stage: ServeStage::Ready, ..there },
            Seq::empty(),
        ),
        ServeStage::Ready => (there, Seq::empty()),
    }
}

/// A file on its way to the peer.
pub struct Serve {
    link: Link,
    machine_id: u32,
    machine_name: String,
    stage: ServeStage,
}

impl View for Serve {
    type V = ServeModel;

    closed spec fn view(&self) -> ServeModel {
        ServeModel {
            link: self.link@,
            machine_id: self.machine_id,
            machine_name: self.machine_name@,
            stage: self.stage,
        }
    }
}

impl Serve {
    /// Answers a connection that wants a file: the bytes to send first are a
    /// random block.
    pub fn open(cfg: &Config) -> (r: (Serve, Vec<u8>))
        ensures
            r.1@.len() == 16,
            ({
                let fresh = link::fresh_link(link::link_key(cfg.security_key@));
                &&& r.0@ == (ServeModel {
                    link: fresh.having_sent(r.1@),
                    machine_id: cfg.machine_id,
                    machine_name: cfg.machine_name@,
                    stage: ServeStage::Priming,
                })
                &&& exists|block: Seq<u8>|
                    block.len() == 16 && r.1@ == #[trigger] fresh.sealed(block)
            }),
    {
        let mut link: Link = Link::new(cfg.security_key.as_str());
        let bytes: Vec<u8> = link.prime();
        let serve = Serve {
            link,
            machine_id: cfg.machine_id,
            machine_name: cfg.machine_name.clone(),
            stage: ServeStage::Priming,
        };
        (serve, bytes)
    }

    /// How many bytes to read next, and 0 when the file is to be sent.
    pub fn wanted(&self) -> (r: usize)
        ensures
            r == self@.wanted(),
    {
        match self.stage {
            ServeStage::Priming => 16,
            ServeStage::Introduction => 64,
            ServeStage::Ready => 0,
        }
    }

    /// Takes in the bytes that are waited for, and gives the bytes to send.
    pub fn feed(&mut self, cipher: &[u8]) -> (r: Vec<u8>)
        requires
            cipher@.len() == old(self)@.wanted(),
        ensures
            (final(self)@, r@) == serve_fed(old(self)@, cipher@),
            old(self)@.stage == ServeStage::Priming ==> forall|peer: LinkModel|
                old(self)@.link.feeds(peer) ==> #[trigger] peer.opened(r@) == serve_handshake(
                    old(self)@,
                ),
    {
        let _ = self.link.receive(cipher);
        match self.stage {
            ServeStage::Priming => {
                let package: [u8; 64] = mwb_protocol::build_clipboard_handshake(
                    PACKAGE_TYPE_CLIPBOARD_PUSH,
                    self.machine_id,
                    self.machine_name.as_str(),
                );
                self.stage = ServeStage::Introduction;
                self.link.send(&package)
            },
            ServeStage::Introduction => {
                self.stage = ServeStage::Ready;
                let none: Vec<u8> = Vec::new();
                assert(none@ =~= Seq::<u8>::empty());
                none
            },
            ServeStage::Ready => {
                let none: Vec<u8> = Vec::new();
                assert(none@ =~= Seq::<u8>::empty());
                none
            },
        }
    }

    /// The bytes that say that nothing is pending.
    pub fn reply_nothing(&mut self) -> (r: Vec<u8>)
        ensures
            ({
                let plain = file_header::file_header(0, NOTHING_AVAILABLE@);
                &&& r@ == old(self)@.link.sealed(plain)
                &&& final(self)@ == (ServeModel {
                    link: old(self)@.link.having_sent(r@),
                    ..old(self)@
                })
                &&& forall|peer: LinkModel|
                    old(self)@.link.feeds(peer) ==> #[trigger] peer.opened(r@) == plain
            }),
    {
        let header: [u8; 1024] = file_header::build_file_header(0, NOTHING_AVAILABLE);
        self.link.send(&header)
    }

    /// The bytes that carry a file to the peer.
    pub fn reply(&mut self, name: &str, data: &[u8]) -> (r: Vec<u8>)
        ensures
            r@ == old(self)@.link.sealed(served(name@, data@)),
            r@.len() == 1024 + padded_len(data@.len()),
            final(self)@ == (ServeModel { link: old(self)@.link.having_sent(r@), ..old(self)@ }),
            forall|peer: LinkModel|
                old(self)@.link.feeds(peer) ==> #[trigger] peer.opened(r@) == served(name@, data@),
    {
        let header: [u8; 1024] = file_header::build_file_header(data.len(), name);
        let mut plain: Vec<u8> = Vec::new();
        mwb_protocol::append_bytes(&mut plain, &header);
        mwb_protocol::append_bytes(&mut plain, data);
        let over: usize = data.len() % 32;
        let fill: usize = if over == 0 {
            0
        } else {
            32 - over
        };
        assert(data@.len() + fill == padded_len(data@.len()));
        crypto::push_zeros(&mut plain, fill);
        assert(plain@ =~= served(name@, data@));
        self.link.send(&plain)
    }
}

/// A file is filled up to the next multiple of 32, with zeros behind it.
pub proof fn files_are_filled_up(data: Seq<u8>, i: int)
    ensures
        padded_len(data.len()) % 32 == 0,
        data.len() <= padded_len(data.len()) < data.len() + 32,
        padded(data).len() == padded_len(data.len()),
        padded(data).take(data.len() as int) == data,
        data.len() <= i < padded(data).len() ==> padded(data)[i] == 0,
{
    assert(padded(data).take(data.len() as int) =~= data);
}

/// A file is taken exactly where its header can be read and it is neither empty
/// nor bigger than 100 MiB.
pub proof fn files_are_taken_by_their_size(header: Seq<u8>)
    ensures
        match file_header::parsed_header(header) {
            Some((size, name)) => offer_in(header) == if 1 <= size <= 104_857_600 {
                OfferModel::Accepted { size, name }
            } else {
                OfferModel::Refused { size, name }
            },
            None => offer_in(header) == OfferModel::Unreadable,
        },
{
}

/// A file comes in by pieces of one mebibyte, the last one shorter.
pub proof fn files_come_in_pieces(body: BodyModel)
    ensures
        ({
            let left = padded_len(body.size) - body.received.len();
            &&& left >= 1_048_576 ==> body.next() == 1_048_576
            &&& left < 1_048_576 ==> body.next() == left
        }),
{
}

/// A pull takes a block, a handshake and a header, in this order. It answers
/// the block with its own handshake, of type 69 and without a seal, and says
/// nothing else.
pub proof fn pulls_shake_hands_first(m: PullModel, cipher: Seq<u8>)
    ensures
        ({
            let (after, action) = pull_fed(m, cipher);
            &&& after.machine_id == m.machine_id && after.machine_name == m.machine_name
            &&& after.link.key == m.link.key
            &&& after.link.read_chain == crypto::chain_after(m.link.read_chain, cipher)
            &&& m.stage == PullStage::Priming ==> {
                let bytes = crypto::cbc_encrypted(
                    m.link.key,
                    m.link.write_chain,
                    pull_handshake(m),
                );
                &&& m.wanted() == 16
                &&& after.stage == PullStage::Introduction
                &&& action == PullActionModel::Send(bytes)
                &&& after.link.write_chain == crypto::chain_after(m.link.write_chain, bytes)
            }
            &&& m.stage != PullStage::Priming ==> after.link.write_chain == m.link.write_chain
                && !(action is Send)
            &&& m.stage == PullStage::Introduction ==> {
                &&& m.wanted() == 64
                &&& after.stage == PullStage::Header
                &&& action == PullActionModel::Continue
            }
            &&& m.stage == PullStage::Header ==> m.wanted() == 1024
            &&& m.stage == PullStage::Over ==> m.wanted() == 0
        }),
        pull_handshake(m).len() == 64,
        mwb_protocol::is_addressed(pull_handshake(m), 69, 0, m.machine_id, 0),
        pull_handshake(m).skip(32) == mwb_protocol::name_field(m.machine_name),
{
    mwb_protocol::clipboard_handshake_layout(PACKAGE_TYPE_CLIPBOARD, m.machine_id, m.machine_name);
}

/// A header decides a pull: it goes on with an accepted file, from its start
/// and under its name, and is over otherwise.
pub proof fn headers_decide_a_pull(m: PullModel, cipher: Seq<u8>)
    requires
        m.stage == PullStage::Header,
    ensures
        ({
            let (after, action) = pull_fed(m, cipher);
            match offer_in(m.link.opened(cipher)) {
                OfferModel::Accepted { size, name } => {
                    &&& action == PullActionModel::Continue
                    &&& after.stage == PullStage::Body
                    &&& after.name == name
                    &&& after.body.size == size && after.body.received.len() == 0
                },
                OfferModel::Refused { size, name } => {
                    &&& action == (PullActionModel::Refused { size, name })
                    &&& after.stage == PullStage::Over
                },
                OfferModel::Unreadable => {
                    &&& action == PullActionModel::Unreadable
                    &&& after.stage == PullStage::Over
                },
            }
        }),
{
}

/// Serving takes a block and a handshake, in this order. It answers the block
/// with its own handshake, of type 79 and without a seal, and the handshake
/// with nothing: then the file is to be sent.
pub proof fn servers_shake_hands_first(m: ServeModel, cipher: Seq<u8>)
    ensures
        ({
            let (after, sent) = serve_fed(m, cipher);
            &&& after.machine_id == m.machine_id && after.machine_name == m.machine_name
            &&& after.link.key == m.link.key
            &&& after.link.read_chain == crypto::chain_after(m.link.read_chain, cipher)
            &&& m.stage == ServeStage::Priming ==> {
                &&& m.wanted() == 16
                &&& after.stage == ServeStage::Introduction
                &&& sent == crypto::cbc_encrypted(
                    m.link.key,
                    m.link.write_chain,
                    serve_handshake(m),
                )
                &&& after.link.write_chain == crypto::chain_after(m.link.write_chain, sent)
            }
            &&& m.stage != ServeStage::Priming ==> after.link.write_chain == m.link.write_chain
                && sent.len() == 0
            &&& m.stage == ServeStage::Introduction ==> {
                &&& m.wanted() == 64
                &&& after.stage == ServeStage::Ready
            }
            &&& m.stage == ServeStage::Ready ==> m.wanted() == 0
        }),
        serve_handshake(m).len() == 64,
        mwb_protocol::is_addressed(serve_handshake(m), 79, 0, m.machine_id, 0),
        serve_handshake(m).skip(32) == mwb_protocol::name_field(m.machine_name),
{
    mwb_protocol::clipboard_handshake_layout(
        PACKAGE_TYPE_CLIPBOARD_PUSH,
        m.machine_id,
        m.machine_name,
    );
}

/// What is served starts with the header for the size of the file and goes on
/// with the file.
pub proof fn headers_go_before_files(name: Seq<char>, data: Seq<u8>)
    ensures
        served(name, data).take(1024) == file_header::file_header(data.len() as usize, name),
        served(name, data).subrange(1024, 1024 + data.len() as int) == data,
        served(name, data).len() == 1024 + padded_len(data.len()),
{
    assert(served(name, data).take(1024) =~= file_header::file_header(data.len() as usize, name));
    assert(served(name, data).subrange(1024, 1024 + data.len() as int) =~= data);
}

/// An image is served under a name of its own, whatever its path; another file
/// under the last component of its path, or as `file` where it has none.
pub proof fn files_are_served_by_name(path: Seq<char>, name: Seq<char>, dir: Seq<char>)
    requires
        name.len() > 0,
        name != seq!['.'],
        name != seq!['.', '.'],
        forall|i: int| 0 <= i < name.len() ==> #[trigger] name[i] != '/',
    ensures
        served_name((path, true)) == "image"@,
        served_name((dir + seq!['/'] + name, false)) == name,
        paths::last_component(path) is None ==> served_name((path, false)) == "file"@,
{
    paths::proper_names_are_components(dir, name);
}

} // verus!
