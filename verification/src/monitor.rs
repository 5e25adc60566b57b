//! The decision that the XDP program takes on every ingress frame.
//!
//! The blocklist map and the counter map live in the kernel, so the decision comes in
//! steps: `umai_monitor` reads the frame and either finishes or names the key to look up,
//! and `after_lookup` finishes with what the map answered.

use vstd::endian::{endianness, Endian};
use vstd::prelude::*;

use crate::addr::{
    law_number_lies_as_octets, law_number_weighs_octets, memory_bytes, Ipv4Addr,
};
use crate::entry::{
    bumped, IntelEntryView, COUNTERS_LEN, COUNTER_DROPS, COUNTER_PARSE_ERRORS, COUNTER_PASSES,
};
use crate::frame::{
    ether_type, read_source, reading, source_number, Reading, ETHER_TYPE_IPV4, ETHER_TYPE_OFFSET,
    ETH_HEADER_LEN, IPV4_HEADER_LEN, IPV4_SOURCE_OFFSET,
};

verus! {

/// What happens to a frame.
#[derive(Clone, Copy, Debug, PartialEq, Eq, Structural)]
pub enum XdpAction {
    /// The frame goes on to the network stack.
    Pass,
    /// The frame is discarded in the driver.
    Drop,
}

/// The outcome for one frame: what happens to it and the counter slot it is counted in.
#[derive(Clone, Copy, Debug, PartialEq, Eq, Structural)]
pub struct Verdict {
    pub action: XdpAction,
    pub counter: u32,
}

/// What the monitor does next with a frame.
#[derive(Clone, Copy, Debug, PartialEq, Eq, Structural)]
pub enum MonitorStep {
    /// Look the source address, in network byte order, up in the blocklist map and go on
    /// with `after_lookup`.
    Lookup { src_ip_be: u32 },
    /// Count the frame and return the action.
    Finish(Verdict),
}

/// The verdict on an IPv4 frame, by whether the blocklist map holds its source.
pub open spec fn lookup_verdict(listed: bool) -> Verdict {
    if listed {
        Verdict { action: XdpAction::Drop, counter: COUNTER_DROPS }
    } else {
        Verdict { action: XdpAction::Pass, counter: COUNTER_PASSES }
    }
}

/// The verdict on a frame that is not looked up.
pub open spec fn pass_verdict(counter: u32) -> Verdict {
    Verdict { action: XdpAction::Pass, counter }
}

/// The step that a frame calls for.
pub open spec fn step_of(frame: Seq<u8>) -> MonitorStep {
    match reading(frame) {
        Reading::Truncated => MonitorStep::Finish(pass_verdict(COUNTER_PARSE_ERRORS)),
        Reading::NotIpv4 => MonitorStep::Finish(pass_verdict(COUNTER_PASSES)),
        Reading::Source(number) => MonitorStep::Lookup { src_ip_be: number },
    }
}

/// The verdict that a step comes to with the blocklist map `intel`.
pub open spec fn resolve(step: MonitorStep, intel: Map<u32, IntelEntryView>) -> Verdict {
    match step {
        MonitorStep::Lookup { src_ip_be } => lookup_verdict(intel.contains_key(src_ip_be)),
        MonitorStep::Finish(verdict) => verdict,
    }
}

/// The verdict on `frame` with the blocklist map `intel`.
pub open spec fn verdict_of(frame: Seq<u8>, intel: Map<u32, IntelEntryView>) -> Verdict {
    resolve(step_of(frame), intel)
}

/// The first step on a frame. A frame too short to be read passes, so that a malformed
/// frame never takes legitimate traffic with it.
pub fn umai_monitor(frame: &[u8]) -> (step: MonitorStep)
    ensures
        step == step_of(frame@),
        match step {
            MonitorStep::Lookup { src_ip_be } => {
                &&& frame@.len() >= 34 && frame@[12] == 0x08 && frame@[13] == 0x00
                &&& endianness() == Endian::Big ==> src_ip_be == frame@[26] * 0x100_0000
                    + frame@[27] * 0x1_0000 + frame@[28] * 0x100 + frame@[29]
                &&& endianness() == Endian::Little ==> src_ip_be == frame@[29] * 0x100_0000
                    + frame@[28] * 0x1_0000 + frame@[27] * 0x100 + frame@[26]
            },
            MonitorStep::Finish(verdict) => {
                &&& verdict.action == XdpAction::Pass
                &&& frame@.len() < 34 || !(frame@[12] == 0x08 && frame@[13] == 0x00)
                &&& verdict.counter == if frame@.len() >= 14 && !(frame@[12] == 0x08 && frame@[13]
                    == 0x00) {
                    1u32
                } else {
                    2u32
                }
            },
        },
{
    match try_umai_monitor(frame) {
        Ok(step) => step,
        Err(_) => MonitorStep::Finish(
            Verdict { action: XdpAction::Pass, counter: COUNTER_PARSE_ERRORS },
        ),
    }
}

/// The first step on a frame, or an error where it is too short to be read.
pub fn try_umai_monitor(frame: &[u8]) -> (step: Result<MonitorStep, ()>)
    ensures
        step is Err <==> reading(frame@) is Truncated,
        step matches Ok(step) ==> step == step_of(frame@),
        step is Err <==> frame@.len() < 14 || (frame@.len() < 34 && frame@[12] == 0x08 && frame@[13]
            == 0x00),
        step matches Ok(step) ==> match step {
            MonitorStep::Lookup { src_ip_be } => {
                &&& frame@.len() >= 34 && frame@[12] == 0x08 && frame@[13] == 0x00
                &&& endianness() == Endian::Big ==> src_ip_be == frame@[26] * 0x100_0000
                    + frame@[27] * 0x1_0000 + frame@[28] * 0x100 + frame@[29]
                &&& endianness() == Endian::Little ==> src_ip_be == frame@[29] * 0x100_0000
                    + frame@[28] * 0x1_0000 + frame@[27] * 0x100 + frame@[26]
            },
            MonitorStep::Finish(verdict) => {
                &&& verdict.action == XdpAction::Pass && verdict.counter == 1
                &&& !(frame@[12] == 0x08 && frame@[13] == 0x00)
            },
        },
{
    match read_source(frame)? {
        Some(src_ip_be) => Ok(MonitorStep::Lookup { src_ip_be }),
        None => Ok(
            MonitorStep::Finish(Verdict { action: XdpAction::Pass, counter: COUNTER_PASSES }),
        ),
    }
}

/// The verdict on an IPv4 frame once its source has been looked up: an entry drops the
/// frame, whatever it holds.
pub fn after_lookup(listed: bool) -> (verdict: Verdict)
    ensures
        verdict == lookup_verdict(listed),
        listed ==> verdict.action == XdpAction::Drop && verdict.counter == 0,
        !listed ==> verdict.action == XdpAction::Pass && verdict.counter == 1,
{
    if listed {
        Verdict { action: XdpAction::Drop, counter: COUNTER_DROPS }
    } else {
        Verdict { action: XdpAction::Pass, counter: COUNTER_PASSES }
    }
}

/// `frame` is an IPv4 frame, with a whole IPv4 header, whose source is `addr`.
pub open spec fn sent_by(frame: Seq<u8>, addr: Ipv4Addr) -> bool {
    let at = ETH_HEADER_LEN + IPV4_SOURCE_OFFSET;
    &&& frame.len() >= ETH_HEADER_LEN + IPV4_HEADER_LEN
    &&& ether_type(frame) == ETHER_TYPE_IPV4
    &&& frame.subrange(at, at + 4) == addr.octet_seq()
}

/// The counter slot of a verdict is one of the three in use, and it is the slot of the
/// drops exactly where the frame is dropped.
pub open spec fn counted_right(verdict: Verdict) -> bool {
    &&& verdict.counter < COUNTERS_LEN
    &&& verdict.counter == COUNTER_DROPS || verdict.counter == COUNTER_PASSES || verdict.counter
        == COUNTER_PARSE_ERRORS
    &&& verdict.action == XdpAction::Drop <==> verdict.counter == COUNTER_DROPS
}

/// The counter slots after counting `verdicts` in turn.
pub open spec fn slots_after(slots: Seq<u64>, verdicts: Seq<Verdict>) -> Seq<u64>
    decreases verdicts.len(),
{
    if verdicts.len() == 0 {
        slots
    } else {
        let before = slots_after(slots, verdicts.drop_last());
        let at = verdicts.last().counter as int;
        before.update(at, bumped(before[at]))
    }
}

/// How many of `verdicts` are counted in `slot`.
pub open spec fn counted_in(verdicts: Seq<Verdict>, slot: int) -> nat {
    verdicts.filter(|verdict: Verdict| verdict.counter == slot).len()
}

/// A frame from `addr` is dropped exactly where the blocklist map holds the number of
/// `addr`, and passes otherwise.
pub proof fn law_listed_source_is_dropped(
    frame: Seq<u8>,
    addr: Ipv4Addr,
    intel: Map<u32, IntelEntryView>,
)
    requires
        sent_by(frame, addr),
    ensures
        verdict_of(frame, intel) == lookup_verdict(intel.contains_key(addr.number() as u32)),
{
    let at = ETH_HEADER_LEN + IPV4_SOURCE_OFFSET;
    let source = frame.subrange(at, at + 4);
    assert(source[0] == frame[at] && source[1] == frame[at + 1]);
    assert(source[2] == frame[at + 2] && source[3] == frame[at + 3]);
}

/// On the bytes alone: where a frame of at least 34 bytes has the EtherType 08 00, it is
/// dropped, and counted as a drop, exactly if the map holds the number whose bytes in memory
/// are its bytes 26 to 29, and it passes, and is counted as passed, if the map does not.
pub proof fn law_source_bytes_decide(frame: Seq<u8>, intel: Map<u32, IntelEntryView>, key: u32)
    requires
        frame.len() >= 34,
        frame[12] == 0x08 && frame[13] == 0x00,
        endianness() == Endian::Big ==> key == frame[26] * 0x100_0000 + frame[27] * 0x1_0000
            + frame[28] * 0x100 + frame[29],
        endianness() == Endian::Little ==> key == frame[29] * 0x100_0000 + frame[28] * 0x1_0000
            + frame[27] * 0x100 + frame[26],
    ensures
        step_of(frame) == (MonitorStep::Lookup { src_ip_be: key }),
        intel.contains_key(key) ==> verdict_of(frame, intel).action == XdpAction::Drop
            && verdict_of(frame, intel).counter == 0,
        !intel.contains_key(key) ==> verdict_of(frame, intel).action == XdpAction::Pass
            && verdict_of(frame, intel).counter == 1,
        key == source_number(frame),
        memory_bytes(key) == frame.subrange(26, 30),
{
    let addr = Ipv4Addr { a: frame[26], b: frame[27], c: frame[28], d: frame[29] };
    law_number_weighs_octets(addr);
    law_number_lies_as_octets(addr);
    assert(addr.octet_seq() =~= frame.subrange(26, 30));
}

/// On the bytes alone: a frame that is shorter, or whose EtherType is not 08 00, passes
/// whatever the map holds and is not looked up. It is counted as a parse error where a header
/// is cut off, and as passed otherwise.
pub proof fn law_other_frames_pass(frame: Seq<u8>, intel: Map<u32, IntelEntryView>)
    requires
        frame.len() < 34 || !(frame[12] == 0x08 && frame[13] == 0x00),
    ensures
        step_of(frame) is Finish,
        verdict_of(frame, intel).action == XdpAction::Pass,
        frame.len() < 14 ==> verdict_of(frame, intel).counter == 2,
        frame.len() >= 14 && frame[12] == 0x08 && frame[13] == 0x00 ==> verdict_of(
            frame,
            intel,
        ).counter == 2,
        frame.len() >= 14 && !(frame[12] == 0x08 && frame[13] == 0x00) ==> verdict_of(
            frame,
            intel,
        ).counter == 1,
{
}

/// Only an IPv4 frame from a listed source is ever dropped: whatever else arrives, a
/// truncated frame included, passes.
pub proof fn law_nothing_else_is_dropped(frame: Seq<u8>, intel: Map<u32, IntelEntryView>)
    requires
        verdict_of(frame, intel).action == XdpAction::Drop,
    ensures
        exists|addr: Ipv4Addr|
            #[trigger] sent_by(frame, addr) && intel.contains_key(addr.number() as u32),
{
    let at = ETH_HEADER_LEN + IPV4_SOURCE_OFFSET;
    let addr = Ipv4Addr { a: frame[at], b: frame[at + 1], c: frame[at + 2], d: frame[at + 3] };
    assert(frame.subrange(at, at + 4) =~= addr.octet_seq());
    assert(sent_by(frame, addr));
}

/// Only the keys of the blocklist map count, not what the entries hold.
pub proof fn law_entry_contents_do_not_count(
    frame: Seq<u8>,
    x: Map<u32, IntelEntryView>,
    y: Map<u32, IntelEntryView>,
)
    requires
        x.dom() == y.dom(),
    ensures
        verdict_of(frame, x) == verdict_of(frame, y),
{
    if let MonitorStep::Lookup { src_ip_be } = step_of(frame) {
        assert(x.dom().contains(src_ip_be) == y.dom().contains(src_ip_be));
    }
}

/// A map that holds fewer keys drops no frame that the fuller map lets through, so an entry
/// that the map evicts can only unblock its own address.
pub proof fn law_eviction_blocks_nobody(
    frame: Seq<u8>,
    fewer: Map<u32, IntelEntryView>,
    intel: Map<u32, IntelEntryView>,
)
    requires
        fewer.dom().subset_of(intel.dom()),
        verdict_of(frame, fewer).action == XdpAction::Drop,
    ensures
        verdict_of(frame, intel).action == XdpAction::Drop,
{
    if let MonitorStep::Lookup { src_ip_be } = step_of(frame) {
        assert(fewer.dom().contains(src_ip_be));
        assert(intel.dom().contains(src_ip_be));
    }
}

/// With an empty blocklist map every frame passes.
pub proof fn law_empty_blocklist_passes_all(frame: Seq<u8>)
    ensures
        verdict_of(frame, Map::empty()).action == XdpAction::Pass,
{
}

/// Of a frame that holds both headers, only the EtherType and the source address count.
pub proof fn law_only_type_and_source_count(
    x: Seq<u8>,
    y: Seq<u8>,
    intel: Map<u32, IntelEntryView>,
)
    requires
        x.len() >= ETH_HEADER_LEN + IPV4_HEADER_LEN,
        y.len() >= ETH_HEADER_LEN + IPV4_HEADER_LEN,
        x.subrange(ETHER_TYPE_OFFSET as int, ETHER_TYPE_OFFSET + 2) == y.subrange(
            ETHER_TYPE_OFFSET as int,
            ETHER_TYPE_OFFSET + 2,
        ),
        x.subrange(ETH_HEADER_LEN + IPV4_SOURCE_OFFSET, ETH_HEADER_LEN + IPV4_SOURCE_OFFSET + 4)
            == y.subrange(
            ETH_HEADER_LEN + IPV4_SOURCE_OFFSET,
            ETH_HEADER_LEN + IPV4_SOURCE_OFFSET + 4,
        ),
    ensures
        verdict_of(x, intel) == verdict_of(y, intel),
{
    let kind = ETHER_TYPE_OFFSET as int;
    let at = ETH_HEADER_LEN + IPV4_SOURCE_OFFSET;
    let (kind_x, kind_y) = (x.subrange(kind, kind + 2), y.subrange(kind, kind + 2));
    let (source_x, source_y) = (x.subrange(at, at + 4), y.subrange(at, at + 4));
    assert(kind_x[0] == x[kind] && kind_x[1] == x[kind + 1]);
    assert(kind_y[0] == y[kind] && kind_y[1] == y[kind + 1]);
    assert(source_x[0] == x[at] && source_x[1] == x[at + 1]);
    assert(source_x[2] == x[at + 2] && source_x[3] == x[at + 3]);
    assert(source_y[0] == y[at] && source_y[1] == y[at + 1]);
    assert(source_y[2] == y[at + 2] && source_y[3] == y[at + 3]);
}

/// Every frame is counted in exactly one slot, and in the slot of the drops exactly where it
/// is dropped.
pub proof fn law_every_frame_is_counted_once(frame: Seq<u8>, intel: Map<u32, IntelEntryView>)
    ensures
        counted_right(verdict_of(frame, intel)),
{
}

/// Counting a run of frames adds to each slot the number of frames counted in it, wrapping
/// around at 64 bits, and the three slots in use share out the whole run.
pub proof fn law_slots_add_up(slots: Seq<u64>, verdicts: Seq<Verdict>)
    requires
        slots.len() == COUNTERS_LEN,
        forall|i: int| 0 <= i < verdicts.len() ==> counted_right(#[trigger] verdicts[i]),
    ensures
        slots_after(slots, verdicts).len() == COUNTERS_LEN,
        forall|slot: int|
            0 <= slot < COUNTERS_LEN ==> #[trigger] slots_after(slots, verdicts)[slot] == (
            slots[slot] + counted_in(verdicts, slot)) % 0x1_0000_0000_0000_0000,
        counted_in(verdicts, COUNTER_DROPS as int) + counted_in(verdicts, COUNTER_PASSES as int)
            + counted_in(verdicts, COUNTER_PARSE_ERRORS as int) == verdicts.len(),
    decreases verdicts.len(),
{
    reveal(Seq::filter);
    if verdicts.len() > 0 {
        law_slots_add_up(slots, verdicts.drop_last());
        assert(counted_right(verdicts.last()));
    }
}

} // verus!
