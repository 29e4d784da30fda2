//! NAT table for ICMP Echo traffic: which inside host sent an Echo Request
//! with a given identifier, and which identifiers belong to DNAT
//! (traversal) sessions.

use vstd::prelude::*;
use std::collections::{HashMap, HashSet};

verus! {

broadcast use vstd::std_specs::hash::group_hash_axioms;

/// NAT table for tracking ICMP Echo requests.
pub struct NatTable {
    /// Map from ICMP identifier to the source address of the request.
    icmp_map: HashMap<u16, [u8; 4]>,
    /// ICMP identifiers of DNAT (traversal) sessions.
    dnat_ids: HashSet<u16>,
}

/// Abstract content of a NAT table.
pub struct NatView {
    /// Identifier of each registered Echo Request to its source address.
    pub echo_sources: Map<u16, Seq<u8>>,
    /// Identifiers of the registered DNAT sessions.
    pub dnat_sessions: Set<u16>,
}

impl View for NatTable {
    type V = NatView;

    closed spec fn view(&self) -> NatView {
        NatView {
            echo_sources: self.icmp_map@.map_values(|a: [u8; 4]| a@),
            dnat_sessions: self.dnat_ids@,
        }
    }
}

impl NatTable {
    /// An empty table.
    pub fn new() -> (t: Self)
        ensures
            t@.echo_sources == Map::<u16, Seq<u8>>::empty(),
            t@.dnat_sessions == Set::<u16>::empty(),
    {
        let t = Self { icmp_map: HashMap::new(), dnat_ids: HashSet::new() };
        assert(t@.echo_sources =~= Map::<u16, Seq<u8>>::empty());
        t
    }

    /// Register an outgoing ICMP Echo Request; a later request with the
    /// same identifier replaces the earlier source.
    pub fn register_echo_request(&mut self, identifier: u16, source_ip: [u8; 4])
        ensures
            final(self)@.echo_sources == old(self)@.echo_sources.insert(identifier, source_ip@),
            final(self)@.dnat_sessions == old(self)@.dnat_sessions,
    {
        self.icmp_map.insert(identifier, source_ip);
        assert(self@.echo_sources =~= old(self)@.echo_sources.insert(identifier, source_ip@));
    }

    /// The original source address for an incoming Echo Reply, if a
    /// request with that identifier was registered.
    pub fn translate_echo_reply(&self, identifier: u16) -> (r: Option<[u8; 4]>)
        ensures
            match r {
                Some(ip) => self@.echo_sources.contains_key(identifier) && self@.echo_sources[identifier]
                    == ip@,
                None => !self@.echo_sources.contains_key(identifier),
            },
    {
        match self.icmp_map.get(&identifier) {
            Some(ip) => Some(*ip),
            None => None,
        }
    }

    /// Register a DNAT (traversal) session.
    pub fn register_dnat_session(&mut self, identifier: u16)
        ensures
            final(self)@.dnat_sessions == old(self)@.dnat_sessions.insert(identifier),
            final(self)@.echo_sources == old(self)@.echo_sources,
    {
        self.dnat_ids.insert(identifier);
        assert(self@.echo_sources =~= old(self)@.echo_sources);
    }

    /// Whether an identifier belongs to a DNAT session.
    pub fn is_dnat_session(&self, identifier: u16) -> (b: bool)
        ensures
            b == self@.dnat_sessions.contains(identifier),
    {
        self.dnat_ids.contains(&identifier)
    }
}

/// An Echo Reply is translated to the source of the last Echo Request
/// registered with its identifier, and registering never forgets a DNAT
/// session.
pub proof fn lemma_nat_reply_after_request(t: NatView, identifier: u16, source_ip: Seq<u8>, other: u16)
    ensures
        t.echo_sources.insert(identifier, source_ip).contains_key(identifier),
        t.echo_sources.insert(identifier, source_ip)[identifier] == source_ip,
        other != identifier ==> t.echo_sources.insert(identifier, source_ip).contains_key(other)
            == t.echo_sources.contains_key(other),
        t.dnat_sessions.insert(identifier).contains(identifier),
{
}

} // verus!
