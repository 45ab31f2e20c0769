//! An encrypted connection, seen from one end: what is sent runs through one
//! cipher stream, what is received through another.

use vstd::prelude::*;

use crate::crypto;
use crate::crypto::CbcState;
use crate::random;

verus! {

/// The key and the two chains.
pub ghost struct LinkModel {
    pub key: Seq<u8>,
    pub read_chain: Seq<u8>,
    pub write_chain: Seq<u8>,
}

impl LinkModel {
    /// The bytes that carry `plain`.
    pub open spec fn sealed(self, plain: Seq<u8>) -> Seq<u8> {
        crypto::cbc_encrypted(self.key, self.write_chain, plain)
    }

    /// What received bytes carry.
    pub open spec fn opened(self, cipher: Seq<u8>) -> Seq<u8> {
        crypto::cbc_decrypted(self.key, self.read_chain, cipher)
    }

    /// The link behind bytes that were sent.
    pub open spec fn having_sent(self, cipher: Seq<u8>) -> LinkModel {
        LinkModel { write_chain: crypto::chain_after(self.write_chain, cipher), ..self }
    }

    /// The link behind bytes that were received.
    pub open spec fn having_received(self, cipher: Seq<u8>) -> LinkModel {
        LinkModel { read_chain: crypto::chain_after(self.read_chain, cipher), ..self }
    }

    /// What this link sends, `peer` can read.
    pub open spec fn feeds(self, peer: LinkModel) -> bool {
        self.key == peer.key && self.write_chain == peer.read_chain
    }
}

/// A link before anything went over it.
pub open spec fn fresh_link(key: Seq<u8>) -> LinkModel {
    LinkModel { key, read_chain: crypto::initial_chain(), write_chain: crypto::initial_chain() }
}

/// The key that belongs to a security key.
pub open spec fn link_key(security_key: Seq<char>) -> Seq<u8> {
    crypto::derived_key(security_key)@
}

/// Two ends with the same security key understand each other from the start.
pub proof fn fresh_links_agree(security_key: Seq<char>)
    ensures
        fresh_link(link_key(security_key)).feeds(fresh_link(link_key(security_key))),
{
}

/// Two ends that understand each other still do when what one has sent has
/// been received by the other.
pub proof fn links_stay_in_step(sender: LinkModel, receiver: LinkModel, cipher: Seq<u8>)
    requires
        sender.feeds(receiver),
    ensures
        sender.having_sent(cipher).feeds(receiver.having_received(cipher)),
{
}

/// What is received in two pieces is what is received in one.
pub proof fn pieces_make_a_whole(link: LinkModel, first: Seq<u8>, second: Seq<u8>)
    requires
        first.len() % 16 == 0,
    ensures
        link.opened(first + second) == link.opened(first) + link.having_received(first).opened(
            second,
        ),
        link.having_received(first + second) == link.having_received(first).having_received(
            second,
        ),
{
    crypto::cbc_decrypts_as_a_stream(link.key, link.read_chain, first, second);
    crypto::lemma_chain_after_concat(link.read_chain, first, second);
}

/// One end of a connection.
pub struct Link {
    cipher: CbcState,
    read_chain: [u8; 16],
    write_chain: [u8; 16],
}

impl View for Link {
    type V = LinkModel;

    closed spec fn view(&self) -> LinkModel {
        LinkModel {
            key: self.cipher@,
            read_chain: self.read_chain@,
            write_chain: self.write_chain@,
        }
    }
}

impl Link {
    pub fn new(security_key: &str) -> (r: Link)
        ensures
            r@ == fresh_link(link_key(security_key@)),
    {
        let key: [u8; 32] = crypto::derive_key(security_key);
        Link {
            cipher: CbcState::new(&key),
            read_chain: crypto::derive_iv(),
            write_chain: crypto::derive_iv(),
        }
    }

    /// Encrypts what is to be sent. An end that this one feeds reads it back.
    pub fn send(&mut self, plain: &[u8]) -> (r: Vec<u8>)
        ensures
            r@ == old(self)@.sealed(plain@),
            r@.len() == plain@.len(),
            final(self)@ == old(self)@.having_sent(r@),
            plain@.len() % 16 == 0 ==> forall|peer: LinkModel|
                old(self)@.feeds(peer) ==> #[trigger] peer.opened(r@) == plain@,
    {
        self.cipher.encrypt(&mut self.write_chain, plain)
    }

    /// Decrypts what was received.
    pub fn receive(&mut self, cipher: &[u8]) -> (r: Vec<u8>)
        ensures
            r@ == old(self)@.opened(cipher@),
            r@.len() == cipher@.len(),
            final(self)@ == old(self)@.having_received(cipher@),
    {
        self.cipher.decrypt(&mut self.read_chain, cipher)
    }

    /// The block that opens a connection: random bytes, which the peer throws
    /// away.
    pub fn prime(&mut self) -> (r: Vec<u8>)
        ensures
            r@.len() == 16,
            final(self)@ == old(self)@.having_sent(r@),
            exists|block: Seq<u8>| block.len() == 16 && r@ == #[trigger] old(self)@.sealed(block),
    {
        let block: [u8; 16] = random::random_block();
        let r: Vec<u8> = self.send(&block);
        assert(block@.len() == 16);
        r
    }

    /// Takes in the block that the peer opens with, and throws it away.
    pub fn primed(&mut self, cipher: &[u8; 16])
        ensures
            final(self)@ == old(self)@.having_received(cipher@),
    {
        let _ = self.receive(cipher);
    }
}

/// An end is understood by every end that has its key and stands where it
/// stands, and by no other.
pub proof fn ends_agree_on_key_and_chain(a: LinkModel, b: LinkModel)
    ensures
        a.feeds(b) <==> a.key == b.key && a.write_chain == b.read_chain,
{
}

/// What is sent is made with the key and the chain of what was sent before, and
/// what is received is read with those of what was received before. The one
/// direction never touches the other.
pub proof fn directions_are_apart(link: LinkModel, bytes: Seq<u8>)
    ensures
        link.sealed(bytes) == crypto::cbc_encrypted(link.key, link.write_chain, bytes),
        link.opened(bytes) == crypto::cbc_decrypted(link.key, link.read_chain, bytes),
        link.having_sent(bytes).key == link.key,
        link.having_sent(bytes).read_chain == link.read_chain,
        link.having_sent(bytes).write_chain == crypto::chain_after(link.write_chain, bytes),
        link.having_received(bytes).key == link.key,
        link.having_received(bytes).write_chain == link.write_chain,
        link.having_received(bytes).read_chain == crypto::chain_after(link.read_chain, bytes),
{
}

} // verus!
