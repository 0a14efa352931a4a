//! Keys, addresses and ids that the node derives for the network.

use std::collections::hash_map::DefaultHasher;
use std::hash::Hasher;

use vstd::prelude::*;
use vstd::std_specs::hash::DefaultHasherAdditionalSpecFns;
use vstd::string::*;
use vstd::utf8::encode_utf8;

use crate::bytes::contents;
use crate::text::{concat2, concat3, decimal, decimal_string, lines};

verus! {

/// The topic on which reference updates are announced.
pub const REF_UPDATES_TOPIC: &'static str = "gitlawb/ref-updates/v1";

/// What the hash of some data (`std::hash::Hash` for `Vec<u8>`) feeds to a
/// hasher. It depends on the machine too, on how wide its words are and in which
/// order it writes their bytes: `machine` stands for that.
pub uninterp spec fn data_hash_input(machine: int, data: Seq<u8>) -> Seq<Seq<u8>>;

/// `<Vec<u8> as std::hash::Hash>::hash`, into a `DefaultHasher`: it feeds the
/// hasher what the data and the machine determine. Which machine it runs on is
/// left unsaid.
#[verifier::external_body]
fn hash_data(data: &Vec<u8>, state: &mut DefaultHasher)
    ensures
        exists|machine: int|
            final(state)@ == old(state)@ + #[trigger] data_hash_input(machine, data@),
{
    std::hash::Hash::hash(data, state)
}

/// The key under which a DID's record is stored: the bytes of
/// `/gitlawb/did/{did}`.
pub fn did_to_kad_key(did: &str) -> (r: Vec<u8>)
    ensures
        r@ == encode_utf8("/gitlawb/did/"@ + did@),
{
    let text = concat2("/gitlawb/did/", did);
    vstd::slice::slice_to_vec(text.as_str().as_bytes())
}

/// The addresses on which the node listens: QUIC over UDP at the port, on every
/// IPv4 and on every IPv6 interface.
pub fn listen_addresses(port: u16) -> (r: (String, String))
    ensures
        r.0@ == "/ip4/0.0.0.0/udp/"@ + decimal(port as nat) + "/quic-v1"@,
        r.1@ == "/ip6/::/udp/"@ + decimal(port as nat) + "/quic-v1"@,
{
    let n = decimal_string(port as u64);
    (
        concat3("/ip4/0.0.0.0/udp/", n.as_str(), "/quic-v1"),
        concat3("/ip6/::/udp/", n.as_str(), "/quic-v1"),
    )
}

/// The id of a message whose data has this hash: the hash in decimal.
pub fn message_id_of_hash(hash: u64) -> (r: String)
    ensures
        r@ == decimal(hash as nat),
{
    decimal_string(hash)
}

/// The id of a message: the hash of its data, in decimal. Which number that is
/// depends on the machine too.
pub fn message_id(data: &Vec<u8>) -> (r: String)
    ensures
        exists|machine: int|
            r@ == decimal(
                DefaultHasher::spec_finish(#[trigger] data_hash_input(machine, data@)) as nat,
            ),
{
    let mut h = DefaultHasher::new();
    let ghost before = h@;
    hash_data(data, &mut h);
    proof {
        let machine = choose|machine: int|
            h@ == before + #[trigger] data_hash_input(machine, data@);
        assert(h@ =~= data_hash_input(machine, data@));
    }
    message_id_of_hash(h.finish())
}

/// The id of the peer whose key is made from these bytes, as
/// `libp2p_identity::Keypair::ed25519_from_bytes` and `libp2p_identity::PeerId`
/// make them.
pub uninterp spec fn ed25519_peer_id(secret: Seq<u8>) -> Seq<u8>;

/// `libp2p_identity::Keypair::ed25519_from_bytes`, then `PeerId::from` on the
/// key's public half: the id is determined by the bytes. The call fails on
/// another number of bytes than 32.
#[verifier::external_body]
fn peer_id_of_secret(secret: &Vec<u8>) -> (r: Vec<u8>)
    requires
        secret@.len() == 32,
    ensures
        r@ == ed25519_peer_id(secret@),
{
    let key = libp2p_identity::Keypair::ed25519_from_bytes(secret.clone()).expect("32 bytes");
    libp2p_identity::PeerId::from(key.public()).to_bytes()
}

/// The id of the node as a peer, from the seed of its identity key: the node's
/// DID and its peer id share the key.
pub fn local_peer_id(identity_seed: &Vec<u8>) -> (r: Vec<u8>)
    requires
        identity_seed@.len() == 32,
    ensures
        r@ == ed25519_peer_id(identity_seed@),
{
    peer_id_of_secret(identity_seed)
}

/// The bytes of the address that a text is, as `multiaddr::Multiaddr::from_str`
/// reads it; `None` where it is none.
pub uninterp spec fn multiaddr_of_text(text: Seq<char>) -> Option<Seq<u8>>;

/// `multiaddr::Multiaddr::from_str` (as `libp2p_core::Multiaddr`), and the
/// address's bytes: both are determined by the text.
#[verifier::external_body]
fn parse_multiaddr(text: &str) -> (r: Option<Vec<u8>>)
    ensures
        r is Some == multiaddr_of_text(text@) is Some,
        r is Some ==> r->0@ == multiaddr_of_text(text@)->0,
{
    let address = <libp2p_core::Multiaddr as std::str::FromStr>::from_str(text).ok()?;
    Some(address.to_vec())
}

/// The addresses among these texts, in their order.
pub open spec fn addresses_in(texts: Seq<Seq<char>>) -> Seq<Seq<u8>>
    decreases texts.len(),
{
    if texts.len() == 0 {
        Seq::empty()
    } else {
        let before = addresses_in(texts.drop_last());
        match multiaddr_of_text(texts.last()) {
            Some(address) => before.push(address),
            None => before,
        }
    }
}

/// The configured addresses that the node dials first. What is no address is
/// left out.
pub fn bootstrap_addresses(texts: &Vec<String>) -> (r: Vec<Vec<u8>>)
    ensures
        contents(r@) == addresses_in(lines(texts@)),
{
    let mut out: Vec<Vec<u8>> = Vec::new();
    let mut i: usize = 0;
    assert(contents(out@) =~= addresses_in(lines(texts@).take(0)));
    while i < texts.len()
        invariant
            i <= texts.len(),
            contents(out@) == addresses_in(lines(texts@).take(i as int)),
        decreases texts.len() - i,
    {
        let ghost before = out@;
        proof {
            let longer = lines(texts@).take(i + 1);
            assert(longer.drop_last() =~= lines(texts@).take(i as int));
            assert(longer.last() == texts@[i as int]@);
        }
        if let Some(address) = parse_multiaddr(texts[i].as_str()) {
            out.push(address);
            assert(contents(out@) =~= contents(before).push(address@));
        }
        i = i + 1;
    }
    assert(lines(texts@).take(texts@.len() as int) =~= lines(texts@));
    out
}

/// The dialled addresses are those of the texts that are addresses, in their order:
/// of two lists, first those of the one and then those of the other.
pub proof fn texts_that_are_addresses_are_dialled(texts: Seq<Seq<char>>, more: Seq<Seq<char>>)
    ensures
        addresses_in(texts + more) == addresses_in(texts) + addresses_in(more),
        addresses_in(texts).len() == texts.filter(
            |text: Seq<char>| multiaddr_of_text(text) is Some,
        ).len(),
        forall|a: Seq<u8>| #[trigger]
            addresses_in(texts).contains(a) <==> exists|i: int|
                0 <= i < texts.len() && multiaddr_of_text(#[trigger] texts[i]) == Some(a),
    decreases more.len(), texts.len(),
{
    reveal(Seq::filter);
    if more.len() == 0 {
        assert(texts + more =~= texts);
        assert(addresses_in(texts) + addresses_in(more) =~= addresses_in(texts));
    } else {
        let shorter = more.drop_last();
        texts_that_are_addresses_are_dialled(texts, shorter);
        assert((texts + more).drop_last() =~= texts + shorter);
        assert((texts + more).last() == more.last());
        assert(addresses_in(texts + more) =~= addresses_in(texts) + addresses_in(more));
    }
    if texts.len() > 0 {
        texts_that_are_addresses_are_dialled(texts.drop_last(), Seq::empty());
    }
    let here = addresses_in(texts);
    assert forall|a: Seq<u8>| #[trigger] here.contains(a) <==> exists|i: int|
        0 <= i < texts.len() && multiaddr_of_text(#[trigger] texts[i]) == Some(a) by {
        if texts.len() > 0 {
            let before = addresses_in(texts.drop_last());
            let last = texts.len() - 1;
            if here.contains(a) {
                let k = choose|k: int| 0 <= k < here.len() && here[k] == a;
                if k < before.len() {
                    assert(before[k] == a);
                    assert(before.contains(a));
                    let i = choose|i: int|
                        0 <= i < texts.drop_last().len() && multiaddr_of_text(
                            #[trigger] texts.drop_last()[i],
                        ) == Some(a);
                    assert(texts[i] == texts.drop_last()[i]);
                } else {
                    assert(multiaddr_of_text(texts[last]) == Some(a));
                }
            }
            if exists|i: int|
                0 <= i < texts.len() && multiaddr_of_text(#[trigger] texts[i]) == Some(a) {
                let i = choose|i: int|
                    0 <= i < texts.len() && multiaddr_of_text(#[trigger] texts[i]) == Some(a);
                if i < last {
                    assert(texts.drop_last()[i] == texts[i]);
                    assert(before.contains(a));
                    let k = choose|k: int| 0 <= k < before.len() && before[k] == a;
                    assert(here[k] == a);
                } else {
                    assert(here[here.len() - 1] == a);
                }
            }
        }
    }
}

} // verus!
