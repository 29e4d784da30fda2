//! Static ARP table of the acoustic network: IPv4 address to the one-byte
//! MAC address of each node.

use vstd::prelude::*;

verus! {

/// Static mapping from IPv4 addresses to acoustic MAC addresses.
pub struct ArpTable {
    entries: Vec<([u8; 4], u8)>,
}

/// The fixed entries: 192.168.1.1 → 1, 192.168.1.2 → 2, 192.168.1.3 → 3.
pub open spec fn static_arp_entries() -> Seq<([u8; 4], u8)> {
    seq![([192u8, 168u8, 1u8, 1u8], 1u8), ([192u8, 168u8, 1u8, 2u8], 2u8), ([192u8, 168u8, 1u8, 3u8], 3u8)]
}

/// MAC of the first entry for `ip`.
pub open spec fn mac_of(entries: Seq<([u8; 4], u8)>, ip: [u8; 4]) -> Option<u8>
    decreases entries.len(),
{
    if entries.len() == 0 {
        None
    } else if entries[0].0 == ip {
        Some(entries[0].1)
    } else {
        mac_of(entries.drop_first(), ip)
    }
}

/// Address of the first entry with MAC `mac`.
pub open spec fn ip_of(entries: Seq<([u8; 4], u8)>, mac: u8) -> Option<[u8; 4]>
    decreases entries.len(),
{
    if entries.len() == 0 {
        None
    } else if entries[0].1 == mac {
        Some(entries[0].0)
    } else {
        ip_of(entries.drop_first(), mac)
    }
}

impl View for ArpTable {
    type V = Seq<([u8; 4], u8)>;

    closed spec fn view(&self) -> Seq<([u8; 4], u8)> {
        self.entries@
    }
}

impl ArpTable {
    /// The table with its three static entries.
    pub fn new() -> (t: Self)
        ensures
            t@ == static_arp_entries(),
    {
        let mut entries: Vec<([u8; 4], u8)> = Vec::new();
        entries.push(([192, 168, 1, 1], 1));
        entries.push(([192, 168, 1, 2], 2));
        entries.push(([192, 168, 1, 3], 3));
        Self { entries }
    }

    /// MAC address of `ip`, if the table holds it.
    pub fn get_mac(&self, ip: &[u8; 4]) -> (r: Option<u8>)
        ensures
            r == mac_of(self@, *ip),
    {
        let mut i: usize = 0;
        assert(self@.subrange(0, self@.len() as int) =~= self@);
        while i < self.entries.len()
            invariant
                i <= self@.len(),
                mac_of(self@, *ip) == mac_of(self@.subrange(i as int, self@.len() as int), *ip),
            decreases self.entries.len() - i,
        {
            let ghost rest = self@.subrange(i as int, self@.len() as int);
            assert(rest.drop_first() =~= self@.subrange(i + 1, self@.len() as int));
            let entry = self.entries[i];
            if crate::bytes::octets_equal(&entry.0, ip) {
                return Some(entry.1);
            }
            i += 1;
        }
        None
    }

    /// IPv4 address whose MAC is `mac`, if the table holds one.
    pub fn get_ip(&self, mac: u8) -> (r: Option<[u8; 4]>)
        ensures
            r == ip_of(self@, mac),
    {
        let mut i: usize = 0;
        assert(self@.subrange(0, self@.len() as int) =~= self@);
        while i < self.entries.len()
            invariant
                i <= self@.len(),
                ip_of(self@, mac) == ip_of(self@.subrange(i as int, self@.len() as int), mac),
            decreases self.entries.len() - i,
        {
            let ghost rest = self@.subrange(i as int, self@.len() as int);
            assert(rest.drop_first() =~= self@.subrange(i + 1, self@.len() as int));
            let entry = self.entries[i];
            if entry.1 == mac {
                return Some(entry.0);
            }
            i += 1;
        }
        None
    }
}

/// The static table maps each address to its MAC and back: the lookups are
/// inverse on its entries.
pub proof fn lemma_static_arp_inverse()
    ensures
        mac_of(static_arp_entries(), [192u8, 168u8, 1u8, 2u8]) == Some(2u8),
        forall|i: int|
            0 <= i < 3 ==> ip_of(static_arp_entries(), #[trigger] static_arp_entries()[i].1) == Some(
                static_arp_entries()[i].0,
            ) && mac_of(static_arp_entries(), static_arp_entries()[i].0) == Some(
                static_arp_entries()[i].1,
            ),
{
    reveal_with_fuel(mac_of, 4);
    reveal_with_fuel(ip_of, 4);
    let s = static_arp_entries();
    assert(s.drop_first() =~= seq![([192u8, 168u8, 1u8, 2u8], 2u8), ([192u8, 168u8, 1u8, 3u8], 3u8)]);
    assert(s.drop_first().drop_first() =~= seq![([192u8, 168u8, 1u8, 3u8], 3u8)]);
    assert(s.drop_first().drop_first().drop_first() =~= Seq::<([u8; 4], u8)>::empty());
}

} // verus!
