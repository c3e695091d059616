//! The shared tables of a stack, kept in the concurrent collections of `dashmap`.
//!
//! The tables are only changed through exclusive references, so that each call finds them as the
//! one before left them.
use crate::addr::AddrTuple;
use crate::addr::IpAddr;
use crate::addr::SocketAddr;
use dashmap::mapref::entry::Entry;
use dashmap::DashMap;
use dashmap::DashSet;
use fxhash::FxBuildHasher;
use vstd::prelude::*;

verus! {

/// The concurrent map of `dashmap`.
#[verifier::external_type_specification]
#[verifier::external_body]
#[verifier::reject_recursive_types(K)]
#[verifier::reject_recursive_types(V)]
#[verifier::reject_recursive_types(S)]
pub struct ExDashMap<K, V, S>(dashmap::DashMap<K, V, S>);

/// The concurrent set of `dashmap`.
#[verifier::external_type_specification]
#[verifier::external_body]
#[verifier::reject_recursive_types(K)]
#[verifier::reject_recursive_types(S)]
pub struct ExDashSet<K, S>(dashmap::DashSet<K, S>);

/// The hasher of `fxhash`, which both collections use.
#[verifier::external_type_specification]
#[verifier::external_body]
pub struct ExFxHasher(fxhash::FxHasher);

/// `std`'s builder of hashers that start from their default.
#[verifier::external_type_specification]
#[verifier::external_body]
#[verifier::reject_recursive_types(H)]
pub struct ExBuildHasherDefault<H>(std::hash::BuildHasherDefault<H>);

/// An address tuple as integers: IP version, address and port of the local end, then of the
/// remote end.
pub type FlowKey = (u8, u128, u16, u8, u128, u16);

pub type FlowMap = DashMap<FlowKey, u64, FxBuildHasher>;

pub type PortSet = DashSet<u16, FxBuildHasher>;

pub open spec fn version(ip: IpAddr) -> u8 {
    match ip {
        IpAddr::V4(_) => 4,
        IpAddr::V6(_) => 6,
    }
}

pub open spec fn bits(ip: IpAddr) -> u128 {
    match ip {
        IpAddr::V4(n) => n as u128,
        IpAddr::V6(n) => n,
    }
}

pub open spec fn flow_key(t: AddrTuple) -> FlowKey {
    (
        version(t.local_addr.ip),
        bits(t.local_addr.ip),
        t.local_addr.port,
        version(t.remote_addr.ip),
        bits(t.remote_addr.ip),
        t.remote_addr.port,
    )
}

/// Two connections never share a key.
pub proof fn law_flow_keys_differ(a: AddrTuple, b: AddrTuple)
    ensures
        flow_key(a) == flow_key(b) <==> a == b,
{
}

fn parts(addr: SocketAddr) -> (r: (u8, u128, u16))
    ensures
        r == (version(addr.ip), bits(addr.ip), addr.port),
{
    match addr.ip {
        IpAddr::V4(n) => (4, n as u128, addr.port),
        IpAddr::V6(n) => (6, n, addr.port),
    }
}

pub fn key_of(t: &AddrTuple) -> (key: FlowKey)
    ensures
        key == flow_key(*t),
{
    let local = parts(t.local_addr);
    let remote = parts(t.remote_addr);
    (local.0, local.1, local.2, remote.0, remote.1, remote.2)
}

/// What a map of connections holds.
pub uninterp spec fn flow_contents(m: FlowMap) -> Map<FlowKey, u64>;

/// What a set of ports holds.
pub uninterp spec fn port_contents(s: PortSet) -> Set<u16>;

/// `DashMap::default`: a map without entries.
#[verifier::external_body]
pub(crate) fn no_flows() -> (m: FlowMap)
    ensures
        flow_contents(m).dom() == Set::<FlowKey>::empty(),
{
    DashMap::default()
}

/// `DashMap::get`: the value stored under the key.
#[verifier::external_body]
pub(crate) fn flow_get(m: &FlowMap, key: &FlowKey) -> (r: Option<u64>)
    ensures
        r == (if flow_contents(*m).contains_key(*key) {
            Some(flow_contents(*m)[*key])
        } else {
            None
        }),
{
    match m.get(key) {
        Some(value) => Some(*value),
        None => None,
    }
}

/// `DashMap::insert`: stores the value under the key and gives the one that it replaces.
#[verifier::external_body]
pub(crate) fn flow_insert(m: &mut FlowMap, key: FlowKey, value: u64) -> (r: Option<u64>)
    ensures
        flow_contents(*final(m)) == flow_contents(*old(m)).insert(key, value),
        r == (if flow_contents(*old(m)).contains_key(key) {
            Some(flow_contents(*old(m))[key])
        } else {
            None
        }),
{
    m.insert(key, value)
}

/// `DashMap::entry` with `VacantEntry::insert`: stores the value where the key has none yet, and
/// says whether it did.
#[verifier::external_body]
pub(crate) fn flow_insert_vacant(m: &mut FlowMap, key: FlowKey, value: u64) -> (r: bool)
    ensures
        r == !flow_contents(*old(m)).contains_key(key),
        flow_contents(*final(m)) == (if r {
            flow_contents(*old(m)).insert(key, value)
        } else {
            flow_contents(*old(m))
        }),
{
    match m.entry(key) {
        Entry::Occupied(_) => false,
        Entry::Vacant(entry) => {
            entry.insert(value);
            true
        },
    }
}

/// `DashMap::remove`: takes the key out and gives the value that it had.
#[verifier::external_body]
pub(crate) fn flow_remove(m: &mut FlowMap, key: &FlowKey) -> (r: Option<u64>)
    ensures
        flow_contents(*final(m)) == flow_contents(*old(m)).remove(*key),
        r == (if flow_contents(*old(m)).contains_key(*key) {
            Some(flow_contents(*old(m))[*key])
        } else {
            None
        }),
{
    match m.remove(key) {
        Some(entry) => Some(entry.1),
        None => None,
    }
}

/// `DashSet::default`: a set without members.
#[verifier::external_body]
pub(crate) fn no_ports() -> (s: PortSet)
    ensures
        port_contents(s) == Set::<u16>::empty(),
{
    DashSet::default()
}

/// `DashSet::insert`: adds the port and says whether it is new.
#[verifier::external_body]
pub(crate) fn port_insert(s: &mut PortSet, port: u16) -> (r: bool)
    ensures
        port_contents(*final(s)) == port_contents(*old(s)).insert(port),
        r == !port_contents(*old(s)).contains(port),
{
    s.insert(port)
}

/// `DashSet::contains`: whether the port is a member.
#[verifier::external_body]
pub(crate) fn port_contains(s: &PortSet, port: u16) -> (r: bool)
    ensures
        r == port_contents(*s).contains(port),
{
    s.contains(&port)
}

} // verus!
