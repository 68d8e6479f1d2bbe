//! What the behaviours use of the networking crates: identifiers of peers and
//! connections, multiaddresses, dial options, and the collections of addresses that a
//! swarm reports.
//!
//! The types themselves are opaque here. Each function below that calls into another
//! crate says in its doc comment what is taken for granted of that call.

use fnv::FnvHashSet;
use libp2p_core::multiaddr::Protocol;
use libp2p_core::transport::ListenerId;
use libp2p_core::Multiaddr;
use libp2p_identity::PeerId;
use libp2p_swarm::behaviour::ExpiredListenAddr;
use libp2p_swarm::behaviour::ExternalAddrConfirmed;
use libp2p_swarm::behaviour::ExternalAddrExpired;
use libp2p_swarm::behaviour::FromSwarm;
use libp2p_swarm::behaviour::NewListenAddr;
use libp2p_swarm::dial_opts::DialOpts;
use libp2p_swarm::ConnectionId;
use libp2p_swarm::ExternalAddresses;
use libp2p_swarm::ListenAddresses;
use libp2p_swarm::StreamProtocol;
use vstd::prelude::*;

use crate::assoc::without_item;
use crate::assoc::Ident;
use crate::swarm::PeerCondition;
use crate::time::Moment;
use crate::time::MAX_ELAPSED;

verus! {

////////////////////////////////////////////////////////////////////////////////
// Peers and connections

/// `libp2p_identity::PeerId`, the identifier of a peer.
#[verifier::external_type_specification]
#[verifier::external_body]
pub struct ExPeerId(PeerId);

/// `libp2p_swarm::ConnectionId`, the identifier of a connection.
#[verifier::external_type_specification]
#[verifier::external_body]
pub struct ExConnectionId(ConnectionId);

/// `libp2p_core::transport::ListenerId`, the identifier of a listener.
#[verifier::external_type_specification]
#[verifier::external_body]
pub struct ExListenerId(ListenerId);

/// `libp2p_swarm::StreamProtocol`, the name of a protocol.
#[verifier::external_type_specification]
#[verifier::external_body]
pub struct ExStreamProtocol(StreamProtocol);

/// `<PeerId as PartialEq>::eq`: two peer IDs compare equal exactly if they are the same.
#[verifier::external_body]
fn peer_id_eq(a: &PeerId, b: &PeerId) -> (r: bool)
    ensures
        r == (*a == *b),
{
    a == b
}

impl Ident for PeerId {
    fn same(&self, other: &Self) -> (r: bool) {
        peer_id_eq(self, other)
    }
}

/// `<ConnectionId as PartialEq>::eq`: two connection IDs compare equal exactly if they
/// are the same.
#[verifier::external_body]
fn connection_id_eq(a: &ConnectionId, b: &ConnectionId) -> (r: bool)
    ensures
        r == (*a == *b),
{
    a == b
}

impl Ident for ConnectionId {
    fn same(&self, other: &Self) -> (r: bool) {
        connection_id_eq(self, other)
    }
}

/// The bytes that a peer ID is made of: what `PeerId::to_bytes` returns.
pub uninterp spec fn peer_id_bytes(peer: PeerId) -> Seq<u8>;

/// `PeerId::to_bytes`: the bytes that the peer ID is made of.
#[verifier::external_body]
pub(crate) fn peer_to_bytes(peer: &PeerId) -> (r: Vec<u8>)
    ensures
        r@ == peer_id_bytes(*peer),
{
    peer.to_bytes()
}

/// `PeerId::random`: a peer ID drawn at random. Nothing is claimed of it.
#[verifier::external_body]
pub(crate) fn random_peer() -> (r: PeerId) {
    PeerId::random()
}

/// The text of a protocol name.
pub uninterp spec fn protocol_text(protocol: StreamProtocol) -> Seq<char>;

/// `StreamProtocol::new`: the protocol with the given name. The name has to start with
/// a slash, for the call panics on any other.
#[verifier::external_body]
pub(crate) fn stream_protocol(name: &'static str) -> (r: StreamProtocol)
    requires
        name@.len() > 0,
        name@[0] == '/',
    ensures
        protocol_text(r) == name@,
{
    StreamProtocol::new(name)
}

////////////////////////////////////////////////////////////////////////////////
// Multiaddresses

/// `libp2p_core::Multiaddr`, a network address made of components.
#[verifier::external_type_specification]
#[verifier::external_body]
pub struct ExMultiaddr(Multiaddr);

/// A component of a multiaddress, as far as the behaviours tell them apart.
pub enum Component {
    /// `/p2p/<peer>`.
    P2p(PeerId),
    /// `/p2p-circuit`.
    P2pCircuit,
    /// `/quic`.
    Quic,
    /// `/quic-v1`.
    QuicV1,
    /// Any other component.
    Other,
}

/// The components of an address, from first to last.
pub uninterp spec fn components(addr: Multiaddr) -> Seq<Component>;

/// The address that `addr` becomes when `/p2p/<peer>` is appended to it.
pub uninterp spec fn p2p_appended(addr: Multiaddr, peer: PeerId) -> Multiaddr;

/// `<Multiaddr as Clone>::clone`: the clone is the same address.
pub assume_specification [<Multiaddr as Clone>::clone](addr: &Multiaddr) -> (r: Multiaddr)
    ensures
        r == *addr,
;

/// `<Multiaddr as PartialEq>::eq`: two addresses compare equal exactly if they are the
/// same.
#[verifier::external_body]
fn multiaddr_eq(a: &Multiaddr, b: &Multiaddr) -> (r: bool)
    ensures
        r == (*a == *b),
{
    a == b
}

impl Ident for Multiaddr {
    fn same(&self, other: &Self) -> (r: bool) {
        multiaddr_eq(self, other)
    }
}

/// `Multiaddr::iter`: the components of the address, from first to last.
#[verifier::external_body]
fn component_list(addr: &Multiaddr) -> (r: Vec<Component>)
    ensures
        r@ == components(*addr),
{
    addr.iter().map(
        |p| match p {
            Protocol::P2p(peer) => Component::P2p(peer),
            Protocol::P2pCircuit => Component::P2pCircuit,
            Protocol::Quic => Component::Quic,
            Protocol::QuicV1 => Component::QuicV1,
            _ => Component::Other,
        },
    ).collect()
}

/// `Multiaddr::push` of `Protocol::P2p`: the component becomes the last one, behind
/// those that were there.
#[verifier::external_body]
fn push_p2p(addr: &mut Multiaddr, peer: PeerId)
    ensures
        *final(addr) == p2p_appended(*old(addr), peer),
        components(*final(addr)) == components(*old(addr)).push(Component::P2p(peer)),
{
    addr.push(Protocol::P2p(peer))
}

/// What appending `/p2p/<peer>` gives, unless the address ends in a peer ID already:
/// then it is left as it is if the peer is the same, and handed back as an error if not.
pub open spec fn p2p_qualified(addr: Multiaddr, peer: PeerId) -> Result<Multiaddr, Multiaddr> {
    let parts = components(addr);
    if parts.len() > 0 && parts.last() is P2p {
        if parts.last() == Component::P2p(peer) {
            Ok(addr)
        } else {
            Err(addr)
        }
    } else {
        Ok(p2p_appended(addr, peer))
    }
}

/// `Multiaddr::with_p2p`: appends the peer ID if the address does not end in one, and
/// fails if it ends in another.
#[verifier::external_body]
pub(crate) fn with_p2p(addr: Multiaddr, peer: PeerId) -> (r: Result<Multiaddr, Multiaddr>)
    ensures
        r == p2p_qualified(addr, peer),
        r matches Ok(a) ==> components(a).len() > 0 && components(a).last() == Component::P2p(peer),
{
    addr.with_p2p(peer)
}

/// Whether an address leads through a relay.
pub open spec fn spec_is_relayed(addr: Multiaddr) -> bool {
    exists|i: int|
        0 <= i < components(addr).len() && #[trigger] components(addr)[i] is P2pCircuit
}

/// Whether an address leads through a relay.
pub fn is_relayed(addr: &Multiaddr) -> (r: bool)
    ensures
        r == spec_is_relayed(*addr),
{
    let parts = component_list(addr);
    let n: usize = parts.len();
    let mut i: usize = 0;
    while i < n
        invariant
            n == parts@.len(),
            i <= n,
            parts@ == components(*addr),
            forall|j: int| 0 <= j < i ==> !(#[trigger] parts@[j] is P2pCircuit),
        decreases n - i,
    {
        if let Component::P2pCircuit = parts[i] {
            assert(components(*addr)[i as int] is P2pCircuit);
            return true;
        }
        i = i + 1;
    }
    false
}

/// Whether an address is reached over QUIC, in any version.
pub open spec fn spec_is_quic(addr: Multiaddr) -> bool {
    exists|i: int|
        0 <= i < components(addr).len() && (#[trigger] components(addr)[i] is QuicV1
            || components(addr)[i] is Quic)
}

/// Whether an address is reached over QUIC, in any version.
pub fn is_quic(addr: &Multiaddr) -> (r: bool)
    ensures
        r == spec_is_quic(*addr),
{
    let parts = component_list(addr);
    let n: usize = parts.len();
    let mut i: usize = 0;
    while i < n
        invariant
            n == parts@.len(),
            i <= n,
            parts@ == components(*addr),
            forall|j: int| 0 <= j < i ==> !(#[trigger] parts@[j] is QuicV1 || parts@[j] is Quic),
        decreases n - i,
    {
        match parts[i] {
            Component::QuicV1 | Component::Quic => {
                assert(components(*addr)[i as int] is QuicV1 || components(*addr)[i as int] is Quic);
                return true;
            },
            _ => {},
        }
        i = i + 1;
    }
    false
}

/// The address with `/p2p/<peer>` at its end: itself if it ends so already, and with the
/// component appended otherwise.
pub open spec fn ending_in_peer(addr: Multiaddr, peer: PeerId) -> Multiaddr {
    let parts = components(addr);
    if parts.len() > 0 && parts.last() == Component::P2p(peer) {
        addr
    } else {
        p2p_appended(addr, peer)
    }
}

/// Appends `/p2p/<peer>` to an address that does not end so already.
pub fn ensure_ends_in_peer(addr: Multiaddr, peer: &PeerId) -> (r: Multiaddr)
    ensures
        r == ending_in_peer(addr, *peer),
        components(r).len() > 0,
        components(r).last() == Component::P2p(*peer),
        spec_is_relayed(r) == spec_is_relayed(addr),
{
    let mut addr = addr;
    let ghost parts0 = components(addr);
    let ghost addr0 = addr;
    let parts = component_list(&addr);
    let n: usize = parts.len();
    if n > 0 {
        if let Component::P2p(last) = &parts[n - 1] {
            if last.same(peer) {
                return addr;
            }
        }
    }
    push_p2p(&mut addr, *peer);
    proof {
        let parts1 = components(addr);
        if spec_is_relayed(addr0) {
            let i = choose|i: int| 0 <= i < parts0.len() && #[trigger] parts0[i] is P2pCircuit;
            assert(parts1[i] is P2pCircuit);
        }
        if spec_is_relayed(addr) {
            let i = choose|i: int| 0 <= i < parts1.len() && #[trigger] parts1[i] is P2pCircuit;
            assert(parts0[i] is P2pCircuit);
        }
    }
    addr
}

////////////////////////////////////////////////////////////////////////////////
// Dialing

/// `libp2p_swarm::dial_opts::DialOpts`, a request to dial.
#[verifier::external_type_specification]
#[verifier::external_body]
pub struct ExDialOpts(DialOpts);

/// The parts that a request to dial is made of.
pub struct DialView {
    /// The peer to be dialed.
    pub peer: PeerId,
    /// When the dial is to be attempted.
    pub condition: PeerCondition,
    /// The addresses to be dialed.
    pub addresses: Seq<Multiaddr>,
    /// Whether the behaviours are asked for further addresses.
    pub extend_addresses: bool,
    /// Whether the local node takes the role of the listener.
    pub as_listener: bool,
    /// Whether a new port is to be allocated.
    pub new_port: bool,
}

/// The parts that `opts` was built from.
pub uninterp spec fn dial_view(opts: DialOpts) -> DialView;

/// The connection ID that `opts` was given when it was built.
pub uninterp spec fn dial_connection(opts: DialOpts) -> ConnectionId;

/// `DialOpts::peer_id(..).build()`: a dial of a peer at whatever addresses the behaviours
/// know. Which connection ID it gets is not said.
#[verifier::external_body]
pub(crate) fn dial_peer(peer: PeerId) -> (r: DialOpts)
    ensures
        dial_view(r) == (DialView {
            peer,
            condition: PeerCondition::DisconnectedAndNotDialing,
            addresses: Seq::empty(),
            extend_addresses: true,
            as_listener: false,
            new_port: false,
        }),
{
    DialOpts::peer_id(peer).build()
}

/// `DialOpts::peer_id(..)` with `condition(Always)` and `addresses(..)`: an unconditional
/// dial of a peer at the given addresses. Which connection ID it gets is not said.
#[verifier::external_body]
pub(crate) fn dial_addresses(peer: PeerId, addresses: Vec<Multiaddr>) -> (r: DialOpts)
    ensures
        dial_view(r) == (DialView {
            peer,
            condition: PeerCondition::Always,
            addresses: addresses@,
            extend_addresses: false,
            as_listener: false,
            new_port: false,
        }),
{
    DialOpts::peer_id(peer)
        .condition(libp2p_swarm::dial_opts::PeerCondition::Always)
        .addresses(addresses)
        .build()
}

/// As [`dial_addresses`], with `override_role()`: the local node takes the role of the
/// listener.
#[verifier::external_body]
pub(crate) fn dial_addresses_as_listener(peer: PeerId, addresses: Vec<Multiaddr>) -> (r: DialOpts)
    ensures
        dial_view(r) == (DialView {
            peer,
            condition: PeerCondition::Always,
            addresses: addresses@,
            extend_addresses: false,
            as_listener: true,
            new_port: false,
        }),
{
    DialOpts::peer_id(peer)
        .condition(libp2p_swarm::dial_opts::PeerCondition::Always)
        .addresses(addresses)
        .override_role()
        .build()
}

/// As [`dial_addresses`], with `allocate_new_port()`: the dial leaves from a new port.
#[verifier::external_body]
pub(crate) fn dial_addresses_from_new_port(peer: PeerId, addresses: Vec<Multiaddr>) -> (r: DialOpts)
    ensures
        dial_view(r) == (DialView {
            peer,
            condition: PeerCondition::Always,
            addresses: addresses@,
            extend_addresses: false,
            as_listener: false,
            new_port: true,
        }),
{
    DialOpts::peer_id(peer)
        .addresses(addresses)
        .condition(libp2p_swarm::dial_opts::PeerCondition::Always)
        .allocate_new_port()
        .build()
}

/// `DialOpts::connection_id`: the connection ID that the request was given when it was
/// built.
#[verifier::external_body]
pub(crate) fn connection_of(opts: &DialOpts) -> (r: ConnectionId)
    ensures
        r == dial_connection(*opts),
{
    opts.connection_id()
}

////////////////////////////////////////////////////////////////////////////////
// The addresses of the local node

/// The most external addresses that are tracked.
pub const MAX_EXTERNAL_ADDRESSES: usize = 20;

/// `libp2p_swarm::ExternalAddresses`, the confirmed external addresses.
#[verifier::external_type_specification]
#[verifier::external_body]
pub struct ExExternalAddresses(ExternalAddresses);

/// `libp2p_swarm::ListenAddresses`, the addresses that the local node listens on.
#[verifier::external_type_specification]
#[verifier::external_body]
pub struct ExListenAddresses(ListenAddresses);

/// The addresses that are held, most recently confirmed first.
pub uninterp spec fn external_addrs(held: ExternalAddresses) -> Seq<Multiaddr>;

/// The addresses that are held.
pub uninterp spec fn listen_addrs(held: ListenAddresses) -> Set<Multiaddr>;

/// The external addresses after `addr` was confirmed: it comes first, and the one that was
/// confirmed least recently is dropped if there are too many.
pub open spec fn external_confirmed(list: Seq<Multiaddr>, addr: Multiaddr) -> Seq<Multiaddr> {
    if list.contains(addr) {
        seq![addr] + without_item(list, addr)
    } else if list.len() + 1 > MAX_EXTERNAL_ADDRESSES {
        (seq![addr] + list).drop_last()
    } else {
        seq![addr] + list
    }
}

/// `ExternalAddresses::default`: no address is held.
#[verifier::external_body]
pub(crate) fn no_external_addresses() -> (r: ExternalAddresses)
    ensures
        external_addrs(r) == Seq::<Multiaddr>::empty(),
{
    ExternalAddresses::default()
}

/// `ExternalAddresses::on_swarm_event` on a confirmed address: the address comes first,
/// the oldest one goes if there are more than [`MAX_EXTERNAL_ADDRESSES`], and the result
/// says whether the address is new.
#[verifier::external_body]
pub(crate) fn confirm_external(held: &mut ExternalAddresses, addr: &Multiaddr) -> (r: bool)
    ensures
        external_addrs(*final(held)) == external_confirmed(external_addrs(*old(held)), *addr),
        r == !external_addrs(*old(held)).contains(*addr),
{
    held.on_swarm_event(&FromSwarm::ExternalAddrConfirmed(ExternalAddrConfirmed { addr }))
}

/// `ExternalAddresses::on_swarm_event` on an expired address: the address goes, and the
/// result says whether it was there.
#[verifier::external_body]
pub(crate) fn expire_external(held: &mut ExternalAddresses, addr: &Multiaddr) -> (r: bool)
    ensures
        external_addrs(*final(held)) == without_item(external_addrs(*old(held)), *addr),
        r == external_addrs(*old(held)).contains(*addr),
{
    held.on_swarm_event(&FromSwarm::ExternalAddrExpired(ExternalAddrExpired { addr }))
}

/// `ExternalAddresses::as_slice`: the addresses that are held, in order.
#[verifier::external_body]
pub(crate) fn external_list(held: &ExternalAddresses) -> (r: Vec<Multiaddr>)
    ensures
        r@ == external_addrs(*held),
{
    held.as_slice().to_vec()
}

/// `ListenAddresses::default`: no address is held.
#[verifier::external_body]
pub(crate) fn no_listen_addresses() -> (r: ListenAddresses)
    ensures
        listen_addrs(r) == Set::<Multiaddr>::empty(),
{
    ListenAddresses::default()
}

/// `ListenAddresses::on_swarm_event` on a new address: the address is held, and the result
/// says whether it is new.
#[verifier::external_body]
pub(crate) fn add_listen(
    held: &mut ListenAddresses,
    listener_id: ListenerId,
    addr: &Multiaddr,
) -> (r: bool)
    ensures
        listen_addrs(*final(held)) == listen_addrs(*old(held)).insert(*addr),
        r == !listen_addrs(*old(held)).contains(*addr),
{
    held.on_swarm_event(&FromSwarm::NewListenAddr(NewListenAddr { listener_id, addr }))
}

/// `ListenAddresses::on_swarm_event` on an expired address: the address goes, and the
/// result says whether it was there.
#[verifier::external_body]
pub(crate) fn expire_listen(
    held: &mut ListenAddresses,
    listener_id: ListenerId,
    addr: &Multiaddr,
) -> (r: bool)
    ensures
        listen_addrs(*final(held)) == listen_addrs(*old(held)).remove(*addr),
        r == listen_addrs(*old(held)).contains(*addr),
{
    held.on_swarm_event(&FromSwarm::ExpiredListenAddr(ExpiredListenAddr { listener_id, addr }))
}

/// `ListenAddresses::iter`: the addresses that are held, each once. In which order they
/// come is not said: it is that of a hash set.
#[verifier::external_body]
pub(crate) fn listen_list(held: &ListenAddresses) -> (r: Vec<Multiaddr>)
    ensures
        r@.no_duplicates(),
        r@.to_set() == listen_addrs(*held),
{
    held.iter().cloned().collect()
}

////////////////////////////////////////////////////////////////////////////////
// Sets of peers

/// `fnv::FnvHasher`, the hasher of a [`FnvHashSet`].
#[verifier::external_type_specification]
#[verifier::external_body]
pub struct ExFnvHasher(fnv::FnvHasher);

/// `std::hash::BuildHasherDefault`, through which a [`FnvHashSet`] makes its hashers.
#[verifier::external_type_specification]
#[verifier::external_body]
#[verifier::reject_recursive_types(H)]
pub struct ExBuildHasherDefault<H>(std::hash::BuildHasherDefault<H>);

/// `FnvHashSet::default`: the empty set.
#[verifier::external_body]
pub(crate) fn no_peers() -> (r: FnvHashSet<PeerId>)
    ensures
        r@ == Set::<PeerId>::empty(),
{
    FnvHashSet::default()
}

/// `FnvHashSet::insert`: the peer is in the set.
#[verifier::external_body]
pub(crate) fn insert_peer(set: &mut FnvHashSet<PeerId>, peer: PeerId)
    ensures
        final(set)@ == old(set)@.insert(peer),
{
    set.insert(peer);
}

/// `FnvHashSet::remove`: the peer is not in the set.
#[verifier::external_body]
pub(crate) fn remove_peer(set: &mut FnvHashSet<PeerId>, peer: &PeerId)
    ensures
        final(set)@ == old(set)@.remove(*peer),
{
    set.remove(peer);
}

/// `FnvHashSet::contains`: whether the peer is in the set.
#[verifier::external_body]
pub(crate) fn contains_peer(set: &FnvHashSet<PeerId>, peer: &PeerId) -> (r: bool)
    ensures
        r == set@.contains(*peer),
{
    set.contains(peer)
}

/// `FnvHashSet::is_empty`: whether no peer is in the set.
#[verifier::external_body]
pub(crate) fn is_empty_set(set: &FnvHashSet<PeerId>) -> (r: bool)
    ensures
        r == (set@ == Set::<PeerId>::empty()),
{
    set.is_empty()
}

////////////////////////////////////////////////////////////////////////////////
// The clock and the hash function

/// `web_time::Instant`, a reading of the clock.
#[verifier::external_type_specification]
#[verifier::external_body]
pub struct ExClockReading(web_time::Instant);

/// The nanoseconds that lie between two readings of the clock: what
/// `web_time::Instant::saturating_duration_since` returns for the later and the earlier one.
pub uninterp spec fn nanos_between(
    earlier: web_time::Instant,
    later: web_time::Instant,
) -> u128;

/// `web_time::Instant::now`: a reading of the clock. Nothing is claimed of it, for what the
/// clock shows depends on when it is read.
#[verifier::external_body]
pub(crate) fn read_clock() -> (r: web_time::Instant) {
    web_time::Instant::now()
}

/// Whether a reading of the clock was taken by reading the clock, and not come by otherwise.
pub closed spec fn was_read(reading: web_time::Instant) -> bool {
    call_ensures(read_clock, (), reading)
}

/// Reads the clock.
pub(crate) fn present_reading() -> (r: web_time::Instant)
    ensures
        was_read(r),
{
    let read = read_clock;
    read()
}

/// Whether a point in time, measured from the given reading of the clock, is the present: what
/// the clock shows when it is read.
pub open spec fn is_present(clock: web_time::Instant, now: Moment) -> bool {
    &&& now.nanos <= MAX_ELAPSED
    &&& exists|reading: web_time::Instant|
        was_read(reading) && now.nanos == #[trigger] nanos_between(clock, reading)
}

/// `web_time::Instant::saturating_duration_since`: the time that lies between two readings of
/// the clock, which is not longer than a duration can be.
#[verifier::external_body]
pub(crate) fn time_between(earlier: &web_time::Instant, later: &web_time::Instant) -> (r: Moment)
    ensures
        r.nanos == nanos_between(*earlier, *later),
        r.nanos <= MAX_ELAPSED,
{
    Moment { nanos: later.saturating_duration_since(*earlier).as_nanos() }
}

/// The SHA-256 digest of `data`, as its first and its last sixteen bytes, each read as a
/// number with the most significant byte first.
pub uninterp spec fn sha256(data: Seq<u8>) -> (u128, u128);

/// `sha2::Sha256::digest`: the SHA-256 digest of `data`, as two numbers.
#[verifier::external_body]
pub(crate) fn sha256_digest(data: &Vec<u8>) -> (r: (u128, u128))
    ensures
        r == sha256(data@),
{
    let d: [u8; 32] = <sha2::Sha256 as sha2::Digest>::digest(data.as_slice()).into();
    let (hi, lo) = d.split_at(16);
    (u128::from_be_bytes(hi.try_into().unwrap()), u128::from_be_bytes(lo.try_into().unwrap()))
}

} // verus!
