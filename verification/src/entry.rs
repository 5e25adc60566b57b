//! The values that the blocklist map and the counter map hold.

use vstd::endian::{endianness, Endian};
use vstd::prelude::*;

use crate::addr::{law_number_weighs_octets, memory_bytes, Ipv4Addr};

verus! {

/// `IntelEntry::tag` of an entry without a signature.
pub const SIG_NONE: u8 = 0;

/// `IntelEntry::tag` of an IPv4 source address.
pub const SIG_IPV4: u8 = 1;

/// `IntelEntry::tag` reserved for a JA4 fingerprint.
pub const SIG_JA4: u8 = 2;

/// Counter slot of the dropped frames.
pub const COUNTER_DROPS: u32 = 0;

/// Counter slot of the frames let through.
pub const COUNTER_PASSES: u32 = 1;

/// Counter slot of the frames too short to be read.
pub const COUNTER_PARSE_ERRORS: u32 = 2;

/// Number of counter slots; those not named above are reserved.
pub const COUNTERS_LEN: u32 = 8;

/// Capacity of the blocklist map.
pub const MAX_INTEL_ENTRIES: u32 = 65_536;

/// One entry of the blocklist map. `tag` says which signature the entry holds; whatever
/// that signature does not use is zero.
#[derive(Clone, Copy, Debug)]
pub struct IntelEntry {
    /// One of the `SIG_` constants.
    pub tag: u8,
    /// Threat severity, reserved.
    pub severity: u8,
    /// Padding that aligns the fields behind it on four bytes.
    pub _pad: [u8; 2],
    /// The IPv4 address in network byte order: its bytes in memory are the octets, so it is
    /// what the XDP program sees when it reads packet memory. 0 unless `tag` is `SIG_IPV4`.
    pub ipv4_be: u32,
    /// Reserved for a JA4 hash.
    pub ja4: [u8; 16],
}

/// What an `IntelEntry` holds.
#[verifier::ext_equal]
pub struct IntelEntryView {
    pub tag: u8,
    pub severity: u8,
    pub pad: Seq<u8>,
    pub ipv4_be: u32,
    pub ja4: Seq<u8>,
}

impl View for IntelEntry {
    type V = IntelEntryView;

    open spec fn view(&self) -> IntelEntryView {
        IntelEntryView {
            tag: self.tag,
            severity: self.severity,
            pad: self._pad@,
            ipv4_be: self.ipv4_be,
            ja4: self.ja4@,
        }
    }
}

impl IntelEntryView {
    /// Nothing but the signature that `tag` names is set, and no signature beside an IPv4
    /// address is in use.
    pub open spec fn well_formed(self) -> bool {
        &&& self.severity == 0
        &&& self.pad == zeros(2)
        &&& self.tag != SIG_IPV4 ==> self.ipv4_be == 0
        &&& self.ja4 == zeros(16)
    }
}

/// `n` zero bytes.
pub open spec fn zeros(n: nat) -> Seq<u8> {
    Seq::new(n, |i: int| 0u8)
}

/// The entry that blocks `addr`.
pub open spec fn ipv4_entry(addr: Ipv4Addr) -> IntelEntryView {
    IntelEntryView {
        tag: SIG_IPV4,
        severity: 0,
        pad: zeros(2),
        ipv4_be: addr.number() as u32,
        ja4: zeros(16),
    }
}

impl IntelEntry {
    /// The entry that blocks `addr`.
    pub fn from_ipv4(addr: Ipv4Addr) -> (entry: IntelEntry)
        ensures
            entry@ == ipv4_entry(addr),
            entry@.well_formed(),
            entry.ipv4_be == addr.number(),
            memory_bytes(entry.ipv4_be) == addr.octet_seq(),
            entry.tag == 1,
            entry.severity == 0,
            entry._pad@ == seq![0u8, 0u8],
            endianness() == Endian::Big ==> entry.ipv4_be == addr.a * 0x100_0000 + addr.b
                * 0x1_0000 + addr.c * 0x100 + addr.d,
            endianness() == Endian::Little ==> entry.ipv4_be == addr.d * 0x100_0000 + addr.c
                * 0x1_0000 + addr.b * 0x100 + addr.a,
            forall|i: int| 0 <= i < 16 ==> #[trigger] entry.ja4@[i] == 0,
    {
        let entry = IntelEntry {
            tag: SIG_IPV4,
            severity: 0,
            _pad: [0; 2],
            ipv4_be: addr.to_network_u32(),
            ja4: [0; 16],
        };
        assert(entry@ =~= ipv4_entry(addr));
        entry
    }
}

/// The model of an entry is its fields.
pub proof fn law_entry_is_its_fields(entry: IntelEntry)
    ensures
        entry@.tag == entry.tag,
        entry@.severity == entry.severity,
        entry@.pad == entry._pad@,
        entry@.ipv4_be == entry.ipv4_be,
        entry@.ja4 == entry.ja4@,
{
}

/// The entry of an address is tagged as an IPv4 signature and holds nothing but the address.
pub proof fn law_entry_holds_the_address_alone(addr: Ipv4Addr)
    ensures
        ipv4_entry(addr).tag == 1,
        ipv4_entry(addr).severity == 0,
        ipv4_entry(addr).pad == seq![0u8, 0u8],
        ipv4_entry(addr).ja4.len() == 16,
        forall|i: int| 0 <= i < 16 ==> #[trigger] ipv4_entry(addr).ja4[i] == 0,
        endianness() == Endian::Big ==> ipv4_entry(addr).ipv4_be == addr.a * 0x100_0000 + addr.b
            * 0x1_0000 + addr.c * 0x100 + addr.d,
        endianness() == Endian::Little ==> ipv4_entry(addr).ipv4_be == addr.d * 0x100_0000 + addr.c
            * 0x1_0000 + addr.b * 0x100 + addr.a,
{
    law_number_weighs_octets(addr);
    assert(ipv4_entry(addr).pad =~= seq![0u8, 0u8]);
}

/// A count goes up by one, and from the highest count back to zero.
pub proof fn law_counts_go_up_by_one(drops: u64)
    ensures
        drops < u64::MAX ==> bumped(drops) == drops + 1,
        drops == u64::MAX ==> bumped(drops) == 0,
{
}

/// One counter slot.
#[derive(Clone, Copy, Debug)]
pub struct DropCounter {
    pub drops: u64,
}

impl Default for DropCounter {
    fn default() -> (counter: DropCounter)
        ensures
            counter.drops == 0,
    {
        DropCounter { drops: 0 }
    }
}

/// A count one higher, wrapping around at 64 bits.
pub open spec fn bumped(drops: u64) -> u64 {
    ((drops + 1) % 0x1_0000_0000_0000_0000) as u64
}

/// Counts one frame in the slot, where there is one.
pub fn bump_counter(counter: Option<&mut DropCounter>)
    ensures
        counter matches Some(slot) ==> final(slot).drops == bumped(slot.drops),
        counter matches Some(slot) ==> if slot.drops < u64::MAX {
            final(slot).drops == slot.drops + 1
        } else {
            final(slot).drops == 0
        },
{
    if let Some(slot) = counter {
        slot.drops = slot.drops.wrapping_add(1);
    }
}

} // verus!
