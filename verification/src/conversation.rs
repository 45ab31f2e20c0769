//! The course of a connection to or from the message server: first a block
//! each way, then packages, the big ones in two halves.

use vstd::prelude::*;

use crate::clipboard;
use crate::config::Config;
use crate::crypto;
use crate::link;
use crate::link::LinkModel;
use crate::mwb_protocol;
use crate::mwb_protocol::{
    PACKAGE_TYPE_CLIPBOARD_DATA_END, PACKAGE_TYPE_CLIPBOARD_IMAGE, PACKAGE_TYPE_CLIPBOARD_TEXT,
};
use crate::session;
use crate::session::{Action, ActionModel, Package, PackageModel, Role, Session, SessionModel};
use crate::sharing;
use crate::sharing::{ClipboardShared, SharedModel};

verus! {

/// What a connection waits for.
pub enum Stage {
    /// The block that the peer opens with.
    Priming,
    /// The first half of a package.
    Head,
    /// The second half of this package.
    Tail(Package),
}

pub ghost enum StageModel {
    Priming,
    Head,
    Tail(PackageModel),
}

impl View for Stage {
    type V = StageModel;

    open spec fn view(&self) -> StageModel {
        match self {
            Stage::Priming => StageModel::Priming,
            Stage::Head => StageModel::Head,
            Stage::Tail(head) => StageModel::Tail(head@),
        }
    }
}

/// How many bytes a connection waits for.
pub open spec fn wanted(stage: StageModel) -> nat {
    match stage {
        StageModel::Priming => 16,
        StageModel::Head => 32,
        StageModel::Tail(_) => 32,
    }
}

/// A connection, what it waits for and what is shared.
pub ghost struct ConversationModel {
    pub session: SessionModel,
    pub stage: StageModel,
    pub shared: SharedModel,
}

/// What a complete package leads to.
pub open spec fn package_done(
    session: SessionModel,
    shared: SharedModel,
    package: PackageModel,
    now: u128,
) -> (ConversationModel, ActionModel) {
    (
        ConversationModel {
            session: session::session_after(session, package, now),
            stage: StageModel::Head,
            shared: session::shared_after(session, shared, package),
        },
        session::action_for(session, package, now),
    )
}

/// What the bytes that a connection waits for lead to.
pub open spec fn fed(c: ConversationModel, cipher: Seq<u8>, now: u128) -> (
    ConversationModel,
    ActionModel,
) {
    let opened = c.session.link.opened(cipher);
    let session = SessionModel { link: c.session.link.having_received(cipher), ..c.session };
    match c.stage {
        StageModel::Priming => {
            let bytes = session.link.sealed(
                session::copies(session::opening_handshake(session), 10),
            );
            (
                ConversationModel {
                    session: SessionModel { link: session.link.having_sent(bytes), ..session },
                    stage: StageModel::Head,
                    shared: c.shared,
                },
                ActionModel::Send(bytes),
            )
        },
        StageModel::Head => {
            let head = session::package_head(opened, session.magic);
            if mwb_protocol::big_package(head.package_type) {
                (
                    ConversationModel { session, stage: StageModel::Tail(head), shared: c.shared },
                    ActionModel::Nothing,
                )
            } else {
                package_done(session, c.shared, head, now)
            }
        },
        StageModel::Tail(head) => package_done(
            session,
            c.shared,
            PackageModel { bytes: head.bytes + opened, ..head },
            now,
        ),
    }
}

/// The plain bytes that a connection sends when it is fed bytes that have it
/// send something: the handshakes first, and later the answer to one.
pub open spec fn said(c: ConversationModel, cipher: Seq<u8>) -> Seq<u8> {
    match c.stage {
        StageModel::Priming => session::copies(session::opening_handshake(c.session), 10),
        StageModel::Head => session::reply_to_handshake(
            c.session,
            session::package_head(c.session.link.opened(cipher), c.session.magic),
        ),
        StageModel::Tail(head) => session::reply_to_handshake(
            c.session,
            PackageModel { bytes: head.bytes + c.session.link.opened(cipher), ..head },
        ),
    }
}

/// A connection in its course.
pub struct Conversation {
    session: Session,
    stage: Stage,
}

impl Conversation {
    pub closed spec fn session(&self) -> SessionModel {
        self.session@
    }

    pub closed spec fn stage(&self) -> StageModel {
        self.stage@
    }

    /// The connection and what it waits for, beside what is shared.
    pub open spec fn model(&self, shared: SharedModel) -> ConversationModel {
        ConversationModel { session: self.session(), stage: self.stage(), shared }
    }

    /// A first half that waits for its second half is the first half of a big
    /// package.
    pub open spec fn well_formed(&self) -> bool {
        match self.stage() {
            StageModel::Tail(head) => head.bytes.len() == 32 && mwb_protocol::big_package(
                head.package_type,
            ),
            _ => true,
        }
    }

    /// Opens a connection: the bytes to send first are a random block.
    pub fn open(cfg: &Config, role: Role) -> (r: (Conversation, Vec<u8>))
        ensures
            r.0.well_formed(),
            r.0.stage() == StageModel::Priming,
            r.0.session().challenge.len() == 4,
            ({
                let fresh = session::fresh_session(
                    cfg.security_key@,
                    cfg.machine_id,
                    cfg.machine_name@,
                    role,
                    r.0.session().challenge,
                );
                &&& r.0.session() == (SessionModel { link: fresh.link.having_sent(r.1@), ..fresh })
                &&& r.1@.len() == 16
                &&& exists|block: Seq<u8>|
                    block.len() == 16 && r.1@ == #[trigger] fresh.link.sealed(block)
            }),
    {
        let mut session: Session = Session::new(cfg, role);
        let bytes: Vec<u8> = session.prime();
        (Conversation { session, stage: Stage::Priming }, bytes)
    }

    /// How many bytes to read next.
    pub fn wanted(&self) -> (r: usize)
        ensures
            r == wanted(self.stage()),
    {
        match self.stage {
            Stage::Priming => 16,
            Stage::Head => 32,
            Stage::Tail(_) => 32,
        }
    }

    /// Whether the connection is open and no package is half read. Then the
    /// clipboard may be sent.
    pub fn is_between_packages(&self) -> (r: bool)
        ensures
            r == (self.stage() == StageModel::Head),
    {
        match self.stage {
            Stage::Priming => false,
            Stage::Head => true,
            Stage::Tail(_) => false,
        }
    }

    /// The connection itself, to send over and to carry keys out.
    pub fn session_mut(&mut self) -> (r: &mut Session)
        ensures
            r@ == old(self).session(),
            final(self).session() == final(r)@,
            final(self).stage() == old(self).stage(),
    {
        &mut self.session
    }

    /// Takes in the bytes that the connection waits for, and says what is to
    /// be done. `now` is the time in nanoseconds, from any start on. A peer
    /// that this end feeds can read what is sent.
    pub fn feed_at(&mut self, shared: &mut ClipboardShared, cipher: &[u8], now: u128) -> (r: Action)
        requires
            old(self).well_formed(),
            cipher@.len() == wanted(old(self).stage()),
        ensures
            final(self).well_formed(),
            (final(self).model(final(shared)@), r@) == fed(
                old(self).model(old(shared)@),
                cipher@,
                now,
            ),
            r is Send ==> forall|peer: LinkModel|
                old(self).session().link.feeds(peer) ==> #[trigger] peer.opened(r->Send_0@) == said(
                    old(self).model(old(shared)@),
                    cipher@,
                ),
    {
        let mut stage: Stage = Stage::Head;
        core::mem::swap(&mut self.stage, &mut stage);
        match stage {
            Stage::Priming => {
                let mut block: [u8; 16] = [0u8; 16];
                mwb_protocol::copy_into(&mut block, 0, cipher);
                assert(block@ =~= cipher@);
                Action::Send(self.session.primed(&block))
            },
            Stage::Head => {
                let mut half: [u8; 32] = [0u8; 32];
                mwb_protocol::copy_into(&mut half, 0, cipher);
                assert(half@ =~= cipher@);
                let head: Package = self.session.receive_head(&half);
                if mwb_protocol::is_big_package(head.package_type) {
                    self.stage = Stage::Tail(head);
                    Action::Nothing
                } else {
                    self.session.handle_at(shared, &head, now)
                }
            },
            Stage::Tail(head) => {
                let mut half: [u8; 32] = [0u8; 32];
                mwb_protocol::copy_into(&mut half, 0, cipher);
                assert(half@ =~= cipher@);
                let package: Package = self.session.receive_tail(head, &half);
                self.session.handle_at(shared, &package, now)
            },
        }
    }

    /// As `feed_at`, for bytes that come in now.
    pub fn feed(&mut self, shared: &mut ClipboardShared, cipher: &[u8]) -> (r: Action)
        requires
            old(self).well_formed(),
            cipher@.len() == wanted(old(self).stage()),
        ensures
            final(self).well_formed(),
            exists|now: u128|
                (final(self).model(final(shared)@), r@) == #[trigger] fed(
                    old(self).model(old(shared)@),
                    cipher@,
                    now,
                ),
            r is Send ==> forall|peer: LinkModel|
                old(self).session().link.feeds(peer) ==> #[trigger] peer.opened(r->Send_0@) == said(
                    old(self).model(old(shared)@),
                    cipher@,
                ),
    {
        let now: u128 = self.session.time();
        self.feed_at(shared, cipher, now)
    }
}

/// The two halves of a big package, or the one half of another, come to what
/// the whole package comes to.
pub proof fn halves_make_a_package(
    c: ConversationModel,
    cipher: Seq<u8>,
    first_now: u128,
    now: u128,
)
    requires
        c.stage == StageModel::Head,
        cipher.len() == if mwb_protocol::big_package(c.session.link.opened(cipher.take(32))[0]) {
            64nat
        } else {
            32nat
        },
    ensures
        ({
            let package = session::received_package(c.session.link, c.session.magic, cipher);
            let session = SessionModel {
                link: c.session.link.having_received(cipher),
                ..c.session
            };
            let whole = package_done(session, c.shared, package, now);
            if cipher.len() == 32 {
                fed(c, cipher, now) == whole
            } else {
                &&& fed(c, cipher.take(32), first_now).1 == ActionModel::Nothing
                &&& fed(fed(c, cipher.take(32), first_now).0, cipher.skip(32), now) == whole
            }
        }),
{
    let first = cipher.take(32);
    let second = cipher.skip(32);
    assert(first + second =~= cipher);
    link::pieces_make_a_whole(c.session.link, first, second);
    if cipher.len() == 32 {
        assert(first =~= cipher);
    }
}

/// What bytes lead to that come in one behind the other, at the given times:
/// the connection behind them, and what is to be done about each piece.
pub open spec fn run(c: ConversationModel, bytes: Seq<u8>, times: Seq<u128>) -> (
    ConversationModel,
    Seq<ActionModel>,
)
    decreases bytes.len(),
{
    let n = wanted(c.stage) as int;
    if bytes.len() < n {
        (c, Seq::empty())
    } else {
        let step = fed(c, bytes.take(n), times[0]);
        let rest = run(step.0, bytes.skip(n), times.skip(1));
        (rest.0, seq![step.1] + rest.1)
    }
}

/// Nothing is to be done about any piece but the last.
pub open spec fn only_last_acts(actions: Seq<ActionModel>, last: ActionModel) -> bool {
    &&& actions.len() > 0
    &&& actions.last() == last
    &&& forall|i: int|
        0 <= i < actions.len() - 1 ==> #[trigger] actions[i] == ActionModel::Nothing
}

proof fn lemma_package_runs(
    c: ConversationModel,
    package: Seq<u8>,
    bytes: Seq<u8>,
    times: Seq<u128>,
)
    requires
        c.stage == StageModel::Head,
        package.len() == 64,
        mwb_protocol::big_package(package[0]),
        bytes.len() >= 64,
        c.session.link.opened(bytes.take(64)) == mwb_protocol::sealed(package, c.session.magic),
    ensures
        ({
            let session = SessionModel {
                link: c.session.link.having_received(bytes.take(64)),
                ..c.session
            };
            let done = package_done(
                session,
                c.shared,
                session::genuine(package),
                times.skip(1)[0],
            );
            let rest = run(done.0, bytes.skip(64), times.skip(1).skip(1));
            run(c, bytes, times) == (rest.0, seq![ActionModel::Nothing, done.1] + rest.1)
        }),
{
    let cipher = bytes.take(64);
    session::sent_packages_arrive(c.session.link, c.session.magic, package, cipher);
    halves_make_a_package(c, cipher, times[0], times.skip(1)[0]);
    let first = bytes.take(32);
    assert(cipher.take(32) =~= first);
    let step = fed(c, first, times[0]);
    let later = bytes.skip(32);
    assert(later.take(32) =~= cipher.skip(32));
    assert(later.skip(32) =~= bytes.skip(64));
    let again = fed(step.0, later.take(32), times.skip(1)[0]);
    let rest = run(again.0, bytes.skip(64), times.skip(1).skip(1));
    assert(run(step.0, later, times.skip(1)) == (rest.0, seq![again.1] + rest.1));
    assert(seq![step.1] + (seq![again.1] + rest.1) =~= seq![ActionModel::Nothing, again.1]
        + rest.1);
}

/// The connection behind a payload that was pushed to it.
pub open spec fn having_taken(c: ConversationModel, src: u32, bytes: Seq<u8>) -> ConversationModel {
    ConversationModel {
        session: SessionModel {
            link: c.session.link.having_received(bytes),
            collected: Seq::empty(),
            kind: None,
            ..c.session
        },
        stage: StageModel::Head,
        shared: SharedModel { peer: sharing::peer_noted(c.shared.peer, src), ..c.shared },
    }
}

/// What a payload of the given kind is to be applied as.
pub open spec fn applied_as(package_type: u8, payload: Seq<u8>) -> ActionModel {
    if package_type == PACKAGE_TYPE_CLIPBOARD_TEXT {
        ActionModel::ApplyText(payload)
    } else {
        ActionModel::ApplyImage(payload)
    }
}

proof fn lemma_src_of(package: Seq<u8>, src: u32)
    requires
        package.len() == 64,
        package.subrange(8, 12) == mwb_protocol::le_bytes(src),
    ensures
        session::genuine(package).number(8) == src,
{
    let s = package.subrange(8, 12);
    assert(s[0] == package[8] && s[1] == package[9] && s[2] == package[10] && s[3] == package[11]);
}

proof fn lemma_row_splits(link: LinkModel, magic: u32, row: Seq<Seq<u8>>, bytes: Seq<u8>)
    requires
        row.len() > 0,
        row[0].len() == 64,
        bytes.len() >= 64,
        link.opened(bytes) == session::sealed_all(row, magic),
    ensures
        link.opened(bytes.take(64)) == mwb_protocol::sealed(row[0], magic),
        link.having_received(bytes.take(64)).opened(bytes.skip(64)) == session::sealed_all(
            row.skip(1),
            magic,
        ),
        link.having_received(bytes.take(64)).having_received(bytes.skip(64))
            == link.having_received(bytes),
{
    let first = bytes.take(64);
    let rest = bytes.skip(64);
    assert(first + rest =~= bytes);
    session::lemma_sealed_first(row, magic);
    link::pieces_make_a_whole(link, first, rest);
    crypto::lemma_cbc_decrypted_len(link.key, link.read_chain, first);
    assert(link.opened(first) =~= link.opened(bytes).take(64));
    assert(mwb_protocol::sealed(row[0], magic) =~= session::sealed_all(row, magic).take(64));
    assert(link.having_received(first).opened(rest) =~= link.opened(bytes).skip(64));
    assert(session::sealed_all(row.skip(1), magic) =~= session::sealed_all(row, magic).skip(64));
}

proof fn lemma_piece_is_collected(
    session: SessionModel,
    shared: SharedModel,
    first_id: int,
    src: u32,
    package_type: u8,
    payload: Seq<u8>,
    k: int,
    now: u128,
)
    requires
        package_type == PACKAGE_TYPE_CLIPBOARD_TEXT || package_type == PACKAGE_TYPE_CLIPBOARD_IMAGE,
        0 <= k < clipboard::chunk_count(payload.len()),
        session.role.takes_clipboard,
    ensures
        ({
            let package = clipboard::chunk_package(first_id, src, package_type, payload, k);
            &&& package.len() == 64
            &&& package[0] == package_type
            &&& package_done(session, shared, session::genuine(package), now) == (
                ConversationModel {
                    session: SessionModel {
                        collected: session.collected + package.skip(16),
                        kind: Some(package_type),
                        ..session
                    },
                    stage: StageModel::Head,
                    shared: SharedModel {
                        peer: sharing::peer_noted(shared.peer, src),
                        ..shared
                    },
                },
                ActionModel::Nothing,
            )
        }),
{
    let package = clipboard::chunk_package(first_id, src, package_type, payload, k);
    assert(package.subrange(8, 12) =~= mwb_protocol::le_bytes(src));
    lemma_src_of(package, src);
    assert(session::genuine(package).bytes.subrange(16, 64) =~= package.skip(16));
}

proof fn lemma_end_is_noticed(
    session: SessionModel,
    shared: SharedModel,
    first_id: int,
    src: u32,
    package_type: u8,
    payload: Seq<u8>,
    now: u128,
)
    requires
        package_type == PACKAGE_TYPE_CLIPBOARD_TEXT || package_type == PACKAGE_TYPE_CLIPBOARD_IMAGE,
        session.role.takes_clipboard,
        session.kind == Some(package_type),
    ensures
        ({
            let package = clipboard::chunk_package(
                first_id,
                src,
                package_type,
                payload,
                clipboard::chunk_count(payload.len()) as int,
            );
            &&& package.len() == 64
            &&& package[0] == PACKAGE_TYPE_CLIPBOARD_DATA_END
            &&& package_done(session, shared, session::genuine(package), now) == (
                ConversationModel {
                    session: SessionModel { collected: Seq::empty(), kind: None, ..session },
                    stage: StageModel::Head,
                    shared: SharedModel {
                        peer: sharing::peer_noted(shared.peer, src),
                        ..shared
                    },
                },
                applied_as(package_type, session.collected),
            )
        }),
{
    let package = clipboard::chunk_package(
        first_id,
        src,
        package_type,
        payload,
        clipboard::chunk_count(payload.len()) as int,
    );
    assert(package.subrange(8, 12) =~= mwb_protocol::le_bytes(src));
    lemma_src_of(package, src);
}

/// The connection behind one piece of a payload that came in as `first`.
spec fn having_collected(
    c: ConversationModel,
    src: u32,
    package_type: u8,
    piece: Seq<u8>,
    first: Seq<u8>,
) -> ConversationModel {
    ConversationModel {
        session: SessionModel {
            link: c.session.link.having_received(first),
            collected: c.session.collected + piece,
            kind: Some(package_type),
            ..c.session
        },
        stage: StageModel::Head,
        shared: SharedModel { peer: sharing::peer_noted(c.shared.peer, src), ..c.shared },
    }
}

proof fn lemma_piece_runs(
    c: ConversationModel,
    first_id: int,
    src: u32,
    package_type: u8,
    payload: Seq<u8>,
    k: int,
    bytes: Seq<u8>,
    times: Seq<u128>,
)
    requires
        package_type == PACKAGE_TYPE_CLIPBOARD_TEXT || package_type == PACKAGE_TYPE_CLIPBOARD_IMAGE,
        0 <= k < clipboard::chunk_count(payload.len()),
        c.stage == StageModel::Head,
        c.session.role.takes_clipboard,
        bytes.len() >= 64,
        c.session.link.opened(bytes.take(64)) == mwb_protocol::sealed(
            clipboard::chunk_package(first_id, src, package_type, payload, k),
            c.session.magic,
        ),
    ensures
        ({
            let piece = clipboard::chunk_package(
                first_id,
                src,
                package_type,
                payload,
                k,
            ).skip(16);
            let next = having_collected(c, src, package_type, piece, bytes.take(64));
            let rest = run(next, bytes.skip(64), times.skip(1).skip(1));
            run(c, bytes, times) == (
                rest.0,
                seq![ActionModel::Nothing, ActionModel::Nothing] + rest.1,
            )
        }),
{
    let package = clipboard::chunk_package(first_id, src, package_type, payload, k);
    let session = SessionModel {
        link: c.session.link.having_received(bytes.take(64)),
        ..c.session
    };
    lemma_piece_is_collected(
        session,
        c.shared,
        first_id,
        src,
        package_type,
        payload,
        k,
        times.skip(1)[0],
    );
    lemma_package_runs(c, package, bytes, times);
}

proof fn lemma_end_runs(
    c: ConversationModel,
    first_id: int,
    src: u32,
    package_type: u8,
    payload: Seq<u8>,
    bytes: Seq<u8>,
    times: Seq<u128>,
)
    requires
        package_type == PACKAGE_TYPE_CLIPBOARD_TEXT || package_type == PACKAGE_TYPE_CLIPBOARD_IMAGE,
        c.stage == StageModel::Head,
        c.session.role.takes_clipboard,
        c.session.kind == Some(package_type),
        bytes.len() == 64,
        c.session.link.opened(bytes) == mwb_protocol::sealed(
            clipboard::chunk_package(
                first_id,
                src,
                package_type,
                payload,
                clipboard::chunk_count(payload.len()) as int,
            ),
            c.session.magic,
        ),
    ensures
        run(c, bytes, times) == (
            having_taken(c, src, bytes),
            seq![ActionModel::Nothing, applied_as(package_type, c.session.collected)],
        ),
{
    let package = clipboard::chunk_package(
        first_id,
        src,
        package_type,
        payload,
        clipboard::chunk_count(payload.len()) as int,
    );
    let session = SessionModel { link: c.session.link.having_received(bytes), ..c.session };
    let now = times.skip(1)[0];
    assert(bytes.take(64) =~= bytes);
    lemma_end_is_noticed(session, c.shared, first_id, src, package_type, payload, now);
    lemma_package_runs(c, package, bytes, times);
    let done = package_done(session, c.shared, session::genuine(package), now);
    let rest = run(done.0, bytes.skip(64), times.skip(1).skip(1));
    assert(bytes.skip(64).len() == 0);
    assert(rest == (done.0, Seq::<ActionModel>::empty()));
    assert(seq![ActionModel::Nothing, done.1] + rest.1 =~= seq![ActionModel::Nothing, done.1]);
}

#[verifier::rlimit(60)]
#[verifier::spinoff_prover]
proof fn lemma_rest_is_taken(
    c: ConversationModel,
    first_id: int,
    src: u32,
    package_type: u8,
    payload: Seq<u8>,
    k: int,
    bytes: Seq<u8>,
    times: Seq<u128>,
)
    requires
        package_type == PACKAGE_TYPE_CLIPBOARD_TEXT || package_type == PACKAGE_TYPE_CLIPBOARD_IMAGE,
        0 <= k <= clipboard::chunk_count(payload.len()),
        c.stage == StageModel::Head,
        c.session.role.takes_clipboard,
        k == clipboard::chunk_count(payload.len()) ==> c.session.kind == Some(package_type),
        bytes.len() == 64 * (clipboard::chunk_count(payload.len()) + 1 - k),
        c.session.link.opened(bytes) == session::sealed_all(
            clipboard::payload_packages(first_id, src, package_type, payload).skip(k),
            c.session.magic,
        ),
    ensures
        run(c, bytes, times).0 == having_taken(c, src, bytes),
        only_last_acts(
            run(c, bytes, times).1,
            applied_as(
                package_type,
                c.session.collected + clipboard::reassembled(
                    clipboard::payload_packages(first_id, src, package_type, payload).skip(k),
                ),
            ),
        ),
    decreases clipboard::chunk_count(payload.len()) - k,
{
    let n = clipboard::chunk_count(payload.len()) as int;
    let packages = clipboard::payload_packages(first_id, src, package_type, payload);
    let row = packages.skip(k);
    let package = clipboard::chunk_package(first_id, src, package_type, payload, k);
    assert(row[0] == package);
    assert(row.skip(1) =~= packages.skip(k + 1));
    assert(package.len() == 64);
    lemma_row_splits(c.session.link, c.session.magic, row, bytes);
    if k < n {
        let first = bytes.take(64);
        let rest = bytes.skip(64);
        let left = times.skip(1).skip(1);
        let next = having_collected(c, src, package_type, package.skip(16), first);
        lemma_piece_runs(c, first_id, src, package_type, payload, k, bytes, times);
        lemma_rest_is_taken(next, first_id, src, package_type, payload, k + 1, rest, left);
        assert(next.session.collected + clipboard::reassembled(packages.skip(k + 1))
            =~= c.session.collected + clipboard::reassembled(row));
        let nothing = seq![ActionModel::Nothing, ActionModel::Nothing];
        lemma_nothing_first(nothing, run(next, rest, left).1, applied_as(
            package_type,
            c.session.collected + clipboard::reassembled(row),
        ));
        assert(having_taken(next, src, rest) == having_taken(c, src, bytes));
    } else {
        assert(bytes.take(64) =~= bytes);
        lemma_end_runs(c, first_id, src, package_type, payload, bytes, times);
        assert(c.session.collected + clipboard::reassembled(row) =~= c.session.collected);
    }
}

proof fn lemma_nothing_first(
    first: Seq<ActionModel>,
    actions: Seq<ActionModel>,
    last: ActionModel,
)
    requires
        forall|i: int| 0 <= i < first.len() ==> #[trigger] first[i] == ActionModel::Nothing,
        only_last_acts(actions, last),
    ensures
        only_last_acts(first + actions, last),
{
    let all = first + actions;
    assert forall|i: int| 0 <= i < all.len() - 1 implies #[trigger] all[i]
        == ActionModel::Nothing by {
        if i >= first.len() {
            assert(all[i] == actions[i - first.len()]);
        }
    }
}

/// A payload that is pushed arrives: fed the bytes that carry its packages, the
/// connection has nothing done until the last piece, and then has what the
/// packages carry applied. It is ready for the next payload, it still
/// understands the sender, and it knows who that is.
pub proof fn pushed_payload_arrives(
    sender: SessionModel,
    after: SessionModel,
    c: ConversationModel,
    package_type: u8,
    payload: Seq<u8>,
    bytes: Seq<u8>,
    times: Seq<u128>,
)
    requires
        package_type == PACKAGE_TYPE_CLIPBOARD_TEXT || package_type == PACKAGE_TYPE_CLIPBOARD_IMAGE,
        session::sends_payload(sender, after, package_type, payload, bytes),
        sender.link.feeds(c.session.link),
        sender.magic == c.session.magic,
        c.stage == StageModel::Head,
        c.session.role.takes_clipboard,
        c.session.collected.len() == 0,
    ensures
        run(c, bytes, times).0 == having_taken(c, sender.machine_id, bytes),
        after.link.feeds(run(c, bytes, times).0.session.link),
        only_last_acts(
            run(c, bytes, times).1,
            applied_as(
                package_type,
                clipboard::reassembled(
                    session::clipboard_packages(sender, package_type, payload),
                ),
            ),
        ),
{
    let packages = session::clipboard_packages(sender, package_type, payload);
    assert forall|i: int| 0 <= i < packages.len() implies (#[trigger] packages[i]).len() == 64 by {
    }
    session::lemma_sealed_all(packages, sender.magic, 0);
    crypto::lemma_cbc_encrypted_len(
        sender.link.key,
        sender.link.write_chain,
        session::sealed_all(packages, sender.magic),
    );
    assert(packages.skip(0) =~= packages);
    lemma_rest_is_taken(
        c,
        sender.next_clip_id as int,
        sender.machine_id,
        package_type,
        payload,
        0,
        bytes,
        times,
    );
    assert(c.session.collected + clipboard::reassembled(packages) =~= clipboard::reassembled(
        packages,
    ));
    link::links_stay_in_step(sender.link, c.session.link, bytes);
}

/// A text that is copied on one machine is applied on the other, once, when
/// the bytes that carry it have come in.
pub proof fn copied_text_arrives(
    sender: SessionModel,
    after: SessionModel,
    c: ConversationModel,
    text: Seq<char>,
    payload: Seq<u8>,
    bytes: Seq<u8>,
    times: Seq<u128>,
)
    requires
        session::sends_payload(sender, after, PACKAGE_TYPE_CLIPBOARD_TEXT, payload, bytes),
        clipboard::text_in_payload(
            clipboard::reassembled(
                session::clipboard_packages(sender, PACKAGE_TYPE_CLIPBOARD_TEXT, payload),
            ),
        ) == Some(text),
        sender.link.feeds(c.session.link),
        sender.magic == c.session.magic,
        c.stage == StageModel::Head,
        c.session.role.takes_clipboard,
        c.session.collected.len() == 0,
    ensures
        exists|applied: Seq<u8>|
            {
                &&& #[trigger] only_last_acts(
                    run(c, bytes, times).1,
                    ActionModel::ApplyText(applied),
                )
                &&& clipboard::text_in_payload(applied) == Some(text)
            },
{
    pushed_payload_arrives(
        sender,
        after,
        c,
        PACKAGE_TYPE_CLIPBOARD_TEXT,
        payload,
        bytes,
        times,
    );
    let applied = clipboard::reassembled(
        session::clipboard_packages(sender, PACKAGE_TYPE_CLIPBOARD_TEXT, payload),
    );
    assert(only_last_acts(run(c, bytes, times).1, ActionModel::ApplyText(applied)));
}

/// An image that is copied on one machine is applied on the other, once, when
/// the bytes that carry it have come in: the PNG file, followed by at most 48
/// zeros.
pub proof fn copied_image_arrives(
    sender: SessionModel,
    after: SessionModel,
    c: ConversationModel,
    png: Seq<u8>,
    bytes: Seq<u8>,
    times: Seq<u128>,
)
    requires
        session::sends_payload(sender, after, PACKAGE_TYPE_CLIPBOARD_IMAGE, png, bytes),
        sender.link.feeds(c.session.link),
        sender.magic == c.session.magic,
        c.stage == StageModel::Head,
        c.session.role.takes_clipboard,
        c.session.collected.len() == 0,
    ensures
        ({
            let filler = (48 * clipboard::chunk_count(png.len()) - png.len()) as nat;
            &&& filler <= 48
            &&& only_last_acts(
                run(c, bytes, times).1,
                ActionModel::ApplyImage(png + mwb_protocol::zeros(filler)),
            )
        }),
{
    pushed_payload_arrives(
        sender,
        after,
        c,
        PACKAGE_TYPE_CLIPBOARD_IMAGE,
        png,
        bytes,
        times,
    );
    clipboard::packages_carry_the_payload(
        sender.next_clip_id as int,
        sender.machine_id,
        PACKAGE_TYPE_CLIPBOARD_IMAGE,
        png,
    );
}

/// A connection opens with one block and then takes packages in halves of 32
/// bytes.
pub proof fn pieces_have_their_size(stage: StageModel)
    ensures
        wanted(stage) == if stage == StageModel::Priming {
            16nat
        } else {
            32nat
        },
{
}

/// The peer's first block is thrown away and has the handshake sent ten times;
/// from then on packages are waited for. Nothing else changes.
pub proof fn connections_open_with_handshakes(c: ConversationModel, cipher: Seq<u8>, now: u128)
    requires
        c.stage == StageModel::Priming,
    ensures
        ({
            let (after, action) = fed(c, cipher, now);
            let plain = session::copies(session::opening_handshake(c.session), 10);
            let bytes = crypto::cbc_encrypted(
                c.session.link.key,
                c.session.link.write_chain,
                plain,
            );
            &&& action == ActionModel::Send(bytes)
            &&& after.stage == StageModel::Head
            &&& after.shared == c.shared
            &&& after.session == (SessionModel {
                link: LinkModel {
                    key: c.session.link.key,
                    read_chain: crypto::chain_after(c.session.link.read_chain, cipher),
                    write_chain: crypto::chain_after(c.session.link.write_chain, bytes),
                },
                ..c.session
            })
        }),
{
}

/// The first half of a big package leads to nothing until its second half is
/// there.
pub proof fn big_packages_wait_for_their_second_half(
    c: ConversationModel,
    cipher: Seq<u8>,
    now: u128,
)
    requires
        c.stage == StageModel::Head,
        mwb_protocol::big_package(c.session.link.opened(cipher)[0]),
    ensures
        ({
            let (after, action) = fed(c, cipher, now);
            &&& action == ActionModel::Nothing
            &&& after.shared == c.shared
            &&& after.stage is Tail
            &&& after.session == (SessionModel {
                link: c.session.link.having_received(cipher),
                ..c.session
            })
        }),
{
}

} // verus!
