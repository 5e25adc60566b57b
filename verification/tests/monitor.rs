use std::collections::HashMap;

use umai_core::addr::Ipv4Addr;
use umai_core::entry::{
    bump_counter, DropCounter, IntelEntry, COUNTERS_LEN, COUNTER_DROPS, COUNTER_PARSE_ERRORS,
    COUNTER_PASSES, MAX_INTEL_ENTRIES, SIG_IPV4,
};
use umai_core::feed::MapWrite;
use umai_core::frame::{ptr_at, read_source, ETH_HEADER_LEN, HEADERS_LEN};
use umai_core::monitor::{
    after_lookup, try_umai_monitor, umai_monitor, MonitorStep, Verdict, XdpAction,
};

const PASSED: Verdict = Verdict { action: XdpAction::Pass, counter: COUNTER_PASSES };
const DROPPED: Verdict = Verdict { action: XdpAction::Drop, counter: COUNTER_DROPS };
const UNREADABLE: Verdict = Verdict { action: XdpAction::Pass, counter: COUNTER_PARSE_ERRORS };

/// An IPv4 frame of `len` bytes from `source`.
fn frame_from(source: [u8; 4], len: usize) -> Vec<u8> {
    let mut frame = vec![0xeeu8; 60];
    frame[12] = 0x08;
    frame[13] = 0x00;
    frame[26..30].copy_from_slice(&source);
    frame[30..34].copy_from_slice(&[172, 30, 0, 2]);
    frame.truncate(len);
    frame
}

fn verdict(frame: &[u8], intel: &HashMap<u32, IntelEntry>) -> Verdict {
    match umai_monitor(frame) {
        MonitorStep::Lookup { src_ip_be } => after_lookup(intel.contains_key(&src_ip_be)),
        MonitorStep::Finish(verdict) => verdict,
    }
}

fn count(slots: &mut [DropCounter], verdict: Verdict) {
    bump_counter(slots.get_mut(verdict.counter as usize));
}

#[test]
fn entry_of_an_address() {
    let entry = IntelEntry::from_ipv4(Ipv4Addr::new(172, 30, 0, 3));
    assert_eq!(entry.tag, SIG_IPV4);
    assert_eq!(entry.tag, 1);
    assert_eq!(entry.severity, 0);
    assert_eq!(entry._pad, [0, 0]);
    assert_eq!(entry.ipv4_be.to_ne_bytes(), [172, 30, 0, 3]);
    assert_eq!(entry.ipv4_be, 0xac1e_0003u32.to_be());
    assert_eq!(entry.ja4, [0; 16]);
}

#[test]
fn the_same_exploit_is_dropped_once_listed() {
    let attacker = [172, 30, 0, 3];
    let mut intel: HashMap<u32, IntelEntry> = HashMap::new();
    let mut slots = vec![DropCounter::default(); COUNTERS_LEN as usize];
    let frame = frame_from(attacker, 60);

    let before = verdict(&frame, &intel);
    count(&mut slots, before);
    assert_eq!(before, PASSED);
    assert_eq!(slots[COUNTER_DROPS as usize].drops, 0);

    let write = MapWrite::block(Ipv4Addr::new(172, 30, 0, 3));
    assert_eq!(write.key_be, write.entry.ipv4_be);
    intel.insert(write.key_be, write.entry);

    let after = verdict(&frame, &intel);
    count(&mut slots, after);
    assert_eq!(after, DROPPED);
    assert_eq!(slots[COUNTER_DROPS as usize].drops, 1);
    assert_eq!(slots[COUNTER_PASSES as usize].drops, 1);
    assert_eq!(slots[COUNTER_PARSE_ERRORS as usize].drops, 0);
}

#[test]
fn reversed_and_neighbouring_sources_pass() {
    let mut intel: HashMap<u32, IntelEntry> = HashMap::new();
    let write = MapWrite::block(Ipv4Addr::new(10, 0, 0, 7));
    intel.insert(write.key_be, write.entry);
    assert_eq!(verdict(&frame_from([10, 0, 0, 7], 60), &intel), DROPPED);
    assert_eq!(verdict(&frame_from([7, 0, 0, 10], 60), &intel), PASSED);
    assert_eq!(verdict(&frame_from([10, 0, 0, 8], 60), &intel), PASSED);
}

#[test]
fn any_entry_drops_its_key() {
    let mut intel: HashMap<u32, IntelEntry> = HashMap::new();
    let mut entry = IntelEntry::from_ipv4(Ipv4Addr::new(9, 9, 9, 9));
    entry.tag = 0;
    entry.severity = 200;
    intel.insert(Ipv4Addr::new(10, 0, 0, 7).to_network_u32(), entry);
    assert_eq!(verdict(&frame_from([10, 0, 0, 7], 60), &intel), DROPPED);
    assert_eq!(verdict(&frame_from([9, 9, 9, 9], 60), &intel), PASSED);
}

#[test]
fn an_evicted_entry_unblocks_its_address_alone() {
    let mut intel: HashMap<u32, IntelEntry> = HashMap::new();
    for last in [7, 8] {
        let write = MapWrite::block(Ipv4Addr::new(10, 0, 0, last));
        intel.insert(write.key_be, write.entry);
    }
    intel.remove(&0x0a00_0007u32.to_be());
    assert_eq!(verdict(&frame_from([10, 0, 0, 7], 60), &intel), PASSED);
    assert_eq!(verdict(&frame_from([10, 0, 0, 8], 60), &intel), DROPPED);
    assert_eq!(verdict(&frame_from([10, 0, 0, 9], 60), &intel), PASSED);
}

#[test]
fn the_destination_is_not_looked_up() {
    let mut intel: HashMap<u32, IntelEntry> = HashMap::new();
    let write = MapWrite::block(Ipv4Addr::new(172, 30, 0, 2));
    intel.insert(write.key_be, write.entry);
    assert_eq!(verdict(&frame_from([172, 30, 0, 3], 60), &intel), PASSED);
}

#[test]
fn short_frames_pass_as_parse_errors() {
    for len in [0, 1, 12, 13] {
        let frame = frame_from([10, 0, 0, 7], len);
        assert_eq!(try_umai_monitor(&frame), Err(()));
        assert_eq!(umai_monitor(&frame), MonitorStep::Finish(UNREADABLE));
    }
    for len in [14, 20, 30, 33] {
        let frame = frame_from([10, 0, 0, 7], len);
        assert_eq!(read_source(&frame), Err(()));
        assert_eq!(umai_monitor(&frame), MonitorStep::Finish(UNREADABLE));
    }
}

#[test]
fn the_shortest_ipv4_frame_is_looked_up() {
    let frame = frame_from([1, 2, 3, 4], 34);
    let src_ip_be = u32::from_ne_bytes([1, 2, 3, 4]);
    assert_eq!(src_ip_be, 0x0102_0304u32.to_be());
    assert_eq!(try_umai_monitor(&frame), Ok(MonitorStep::Lookup { src_ip_be }));
    assert_eq!(umai_monitor(&frame), MonitorStep::Lookup { src_ip_be });
    assert_eq!(read_source(&frame), Ok(Some(src_ip_be)));
}

#[test]
fn other_protocols_pass_whatever_their_length() {
    for kind in [[0x86u8, 0xdd], [0x08, 0x06], [0x00, 0x08], [0x08, 0x01], [0xff, 0xff]] {
        for len in [14, 33, 60] {
            let mut frame = frame_from([10, 0, 0, 7], len);
            frame[12] = kind[0];
            frame[13] = kind[1];
            assert_eq!(read_source(&frame), Ok(None));
            assert_eq!(try_umai_monitor(&frame), Ok(MonitorStep::Finish(PASSED)));
            assert_eq!(umai_monitor(&frame), MonitorStep::Finish(PASSED));
        }
    }
}

#[test]
fn only_type_and_source_count() {
    let mut frame = frame_from([1, 2, 3, 4], 60);
    let first = umai_monitor(&frame);
    for i in 0..frame.len() {
        if i != 12 && i != 13 && !(26..30).contains(&i) {
            frame[i] ^= 0x5a;
        }
    }
    frame.truncate(40);
    assert_eq!(umai_monitor(&frame), first);
}

#[test]
fn the_inspected_part_decides() {
    for len in [0, 10, 13, 14, 20, 33, 34, 35, 60] {
        let frame = frame_from([1, 2, 3, 4], len);
        let part = if len >= HEADERS_LEN {
            &frame[..HEADERS_LEN]
        } else if len >= ETH_HEADER_LEN {
            &frame[..ETH_HEADER_LEN]
        } else {
            &frame[..0]
        };
        assert_eq!(umai_monitor(part), umai_monitor(&frame));
    }
}

#[test]
fn a_lookup_decides() {
    assert_eq!(after_lookup(true), DROPPED);
    assert_eq!(after_lookup(false), PASSED);
}

#[test]
fn headers_are_bounds_checked() {
    let frame = [1u8, 2, 3, 4];
    assert_eq!(ptr_at(&frame, 0, 4), Ok(&frame[..]));
    assert_eq!(ptr_at(&frame, 1, 2), Ok(&[2u8, 3][..]));
    assert_eq!(ptr_at(&frame, 4, 0), Ok(&[][..]));
    assert_eq!(ptr_at(&frame, 0, 5), Err(()));
    assert_eq!(ptr_at(&frame, 3, 2), Err(()));
    assert_eq!(ptr_at(&frame, 5, 0), Err(()));
    assert_eq!(ptr_at(&frame, usize::MAX, 1), Err(()));
    assert_eq!(ptr_at(&frame, 1, usize::MAX), Err(()));
}

#[test]
fn counters_count_and_wrap() {
    let mut slot = DropCounter::default();
    assert_eq!(slot.drops, 0);
    bump_counter(Some(&mut slot));
    bump_counter(Some(&mut slot));
    assert_eq!(slot.drops, 2);
    slot.drops = u64::MAX;
    bump_counter(Some(&mut slot));
    assert_eq!(slot.drops, 0);
    bump_counter(None);
}

#[test]
fn slots_add_up_over_a_run() {
    let mut intel: HashMap<u32, IntelEntry> = HashMap::new();
    let write = MapWrite::block(Ipv4Addr::new(10, 0, 0, 7));
    intel.insert(write.key_be, write.entry);
    let mut slots = vec![DropCounter::default(); COUNTERS_LEN as usize];
    let frames = [
        frame_from([10, 0, 0, 7], 60),
        frame_from([10, 0, 0, 7], 34),
        frame_from([10, 0, 0, 8], 60),
        frame_from([10, 0, 0, 7], 20),
    ];
    for frame in &frames {
        count(&mut slots, verdict(frame, &intel));
    }
    let counts: Vec<u64> = slots.iter().map(|slot| slot.drops).collect();
    assert_eq!(counts, vec![2, 1, 1, 0, 0, 0, 0, 0]);
}

#[test]
fn map_sizes() {
    assert_eq!(MAX_INTEL_ENTRIES, 65_536);
    assert_eq!(COUNTERS_LEN, 8);
}
