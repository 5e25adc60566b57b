//! What both sides of the blocklist map promise together: what the feed writes is what the
//! monitor drops.
//!
//! The map is modelled by its contents. A write overwrites what stood under its key, and a
//! write that failed changes nothing. `written` is what a series of writes makes of the map
//! as long as nothing is evicted; `evicting_run` lets the map evict whatever it likes on
//! every write, and has it evict something where a full map takes a new key. This the laws
//! take from the kernel map; that the map keeps to `MAX_INTEL_ENTRIES` is then proved.

use vstd::prelude::*;
use vstd::set_lib::lemma_len_subset;

use crate::addr::{law_number_names_one_address, memory_bytes, Ipv4Addr};
use crate::entry::{ipv4_entry, IntelEntryView, MAX_INTEL_ENTRIES};
use crate::feed::{
    classification, law_address_indicators_are_recognised, law_every_object_is_read,
    law_members_name_the_indicator, object_members, skipped_of, successes, write_of, writes_of,
    Bundle, Classified, IndicatorView, MapWriteView,
};
use crate::monitor::{
    law_eviction_blocks_nobody, law_listed_source_is_dropped, lookup_verdict, sent_by, verdict_of, XdpAction,
};

verus! {

/// The map contents after the writes have been tried in turn; `outcomes` says of each
/// whether it went through.
pub open spec fn written(
    intel: Map<u32, IntelEntryView>,
    writes: Seq<MapWriteView>,
    outcomes: Seq<bool>,
) -> Map<u32, IntelEntryView>
    recommends
        outcomes.len() == writes.len(),
    decreases writes.len(),
{
    if writes.len() == 0 {
        intel
    } else {
        let before = written(intel, writes.drop_last(), outcomes.drop_last());
        if outcomes.last() {
            before.insert(writes.last().key_be, writes.last().entry)
        } else {
            before
        }
    }
}

/// Every write went through.
pub open spec fn all_succeed(n: nat) -> Seq<bool> {
    Seq::new(n, |i: int| true)
}

/// Some write that went through blocks `addr`.
pub open spec fn blocks(writes: Seq<MapWriteView>, outcomes: Seq<bool>, addr: Ipv4Addr) -> bool {
    exists|i: int|
        #![trigger writes[i]]
        0 <= i < writes.len() && outcomes[i] && writes[i] == write_of(addr)
}

/// Some indicator is `addr`.
pub open spec fn lists(indicators: Seq<IndicatorView>, addr: Ipv4Addr) -> bool {
    exists|i: int|
        #![trigger indicators[i]]
        0 <= i < indicators.len() && classification(indicators[i]) == Classified::Address(addr)
}

/// The writes of a pull are those of the addresses that its indicators list, and there are
/// no others.
pub proof fn law_pull_writes_listed_addresses(indicators: Seq<IndicatorView>)
    ensures
        forall|addr: Ipv4Addr|
            #[trigger] lists(indicators, addr) <==> writes_of(indicators).contains(write_of(addr)),
        forall|i: int|
            0 <= i < writes_of(indicators).len() ==> {
                let write = #[trigger] writes_of(indicators)[i];
                write == write_of(write.addr) && lists(indicators, write.addr)
            },
    decreases indicators.len(),
{
    if indicators.len() > 0 {
        let rest = indicators.drop_last();
        law_pull_writes_listed_addresses(rest);
        let all = writes_of(indicators);
        let before = writes_of(rest);
        assert forall|addr: Ipv4Addr| lists(rest, addr) implies lists(indicators, addr) by {
            let i = choose|i: int|
                #![trigger rest[i]]
                0 <= i < rest.len() && classification(rest[i]) == Classified::Address(addr);
            assert(indicators[i] == rest[i]);
        }
        assert forall|addr: Ipv4Addr| #[trigger] lists(indicators, addr) implies all.contains(
            write_of(addr),
        ) by {
            if lists(rest, addr) {
                let j = choose|j: int| 0 <= j < before.len() && before[j] == write_of(addr);
                assert(all[j] == write_of(addr));
            } else {
                let i = choose|i: int|
                    #![trigger indicators[i]]
                    0 <= i < indicators.len() && classification(indicators[i])
                        == Classified::Address(addr);
                if i < rest.len() {
                    assert(rest[i] == indicators[i]);
                }
                assert(all.last() == write_of(addr));
            }
        }
        assert forall|i: int| 0 <= i < all.len() implies {
            let write = #[trigger] all[i];
            write == write_of(write.addr) && lists(indicators, write.addr)
        } by {
            if i < before.len() {
                assert(all[i] == before[i]);
            } else {
                assert(classification(indicators[indicators.len() - 1]) == Classified::Address(
                    all[i].addr,
                ));
            }
        }
        assert forall|addr: Ipv4Addr|
            all.contains(write_of(addr)) implies #[trigger] lists(indicators, addr) by {
            let i = choose|i: int| 0 <= i < all.len() && all[i] == write_of(addr);
            assert(all[i].addr == addr);
        }
    }
}

/// A pull accounts for every object of its bundle: it is skipped as no IPv4 address, it is
/// unreadable, or it is written.
pub proof fn law_pull_accounts_for_every_object(indicators: Seq<IndicatorView>)
    ensures
        skipped_of(indicators) + indicators.filter(
            |indicator: IndicatorView| classification(indicator) == Classified::Unreadable,
        ).len() + writes_of(indicators).len() == indicators.len(),
    decreases indicators.len(),
{
    reveal(Seq::filter);
    if indicators.len() > 0 {
        law_pull_accounts_for_every_object(indicators.drop_last());
    }
}

/// No more entries are reported as inserted than were written.
pub proof fn law_inserted_at_most_written(outcomes: Seq<bool>)
    ensures
        successes(outcomes) <= outcomes.len(),
        successes(all_succeed(outcomes.len())) == outcomes.len(),
    decreases outcomes.len(),
{
    reveal(Seq::filter);
    if outcomes.len() > 0 {
        law_inserted_at_most_written(outcomes.drop_last());
        assert(all_succeed(outcomes.len()).drop_last() =~= all_succeed(
            (outcomes.len() - 1) as nat,
        ));
    }
}

/// What stands in the map after a series of writes: under the number of an address that was
/// blocked, the entry of that address; anywhere else, what stood there before.
pub proof fn law_written_contents(
    intel: Map<u32, IntelEntryView>,
    writes: Seq<MapWriteView>,
    outcomes: Seq<bool>,
    addr: Ipv4Addr,
)
    requires
        outcomes.len() == writes.len(),
        forall|i: int| 0 <= i < writes.len() ==> #[trigger] writes[i] == write_of(writes[i].addr),
    ensures
        ({
            let after = written(intel, writes, outcomes);
            let key = addr.number() as u32;
            if blocks(writes, outcomes, addr) {
                after.contains_key(key) && after[key] == ipv4_entry(addr)
            } else {
                &&& after.contains_key(key) <==> intel.contains_key(key)
                &&& after.contains_key(key) ==> after[key] == intel[key]
            }
        }),
    decreases writes.len(),
{
    if writes.len() > 0 {
        let rest = writes.drop_last();
        let rest_outcomes = outcomes.drop_last();
        assert forall|i: int| 0 <= i < rest.len() implies #[trigger] rest[i] == write_of(
            rest[i].addr,
        ) by {
            assert(rest[i] == writes[i]);
        }
        law_written_contents(intel, rest, rest_outcomes, addr);
        let last = writes.len() - 1;
        assert(writes[last] == write_of(writes[last].addr));
        law_number_names_one_address(addr, writes[last].addr);
        if blocks(rest, rest_outcomes, addr) {
            let i = choose|i: int|
                #![trigger rest[i]]
                0 <= i < rest.len() && rest_outcomes[i] && rest[i] == write_of(addr);
            assert(writes[i] == rest[i] && outcomes[i] == rest_outcomes[i]);
            assert(blocks(writes, outcomes, addr));
        } else if blocks(writes, outcomes, addr) {
            let i = choose|i: int|
                #![trigger writes[i]]
                0 <= i < writes.len() && outcomes[i] && writes[i] == write_of(addr);
            if i < last {
                assert(rest[i] == writes[i] && rest_outcomes[i] == outcomes[i]);
            }
        } else if outcomes[last] {
            assert(writes[last].addr != addr);
        }
    }
}

/// After a pull, a frame from `addr` is dropped exactly where a write that went through
/// blocks `addr` or the map held `addr` before.
pub proof fn law_pull_then_monitor(
    intel: Map<u32, IntelEntryView>,
    indicators: Seq<IndicatorView>,
    outcomes: Seq<bool>,
    frame: Seq<u8>,
    addr: Ipv4Addr,
)
    requires
        outcomes.len() == writes_of(indicators).len(),
        sent_by(frame, addr),
    ensures
        verdict_of(frame, written(intel, writes_of(indicators), outcomes)) == lookup_verdict(
            blocks(writes_of(indicators), outcomes, addr) || intel.contains_key(
                addr.number() as u32,
            ),
        ),
{
    let writes = writes_of(indicators);
    law_pull_writes_listed_addresses(indicators);
    law_written_contents(intel, writes, outcomes, addr);
    law_listed_source_is_dropped(frame, addr, written(intel, writes, outcomes));
}

/// Once a pull has gone through, every frame from an address that its bundle lists is
/// dropped.
pub proof fn law_listed_by_feed_is_dropped(
    intel: Map<u32, IntelEntryView>,
    indicators: Seq<IndicatorView>,
    frame: Seq<u8>,
    addr: Ipv4Addr,
)
    requires
        lists(indicators, addr),
        sent_by(frame, addr),
    ensures
        ({
            let writes = writes_of(indicators);
            let after = written(intel, writes, all_succeed(writes.len()));
            verdict_of(frame, after).action == XdpAction::Drop
        }),
{
    let writes = writes_of(indicators);
    let outcomes = all_succeed(writes.len());
    law_pull_writes_listed_addresses(indicators);
    let i = choose|i: int| 0 <= i < writes.len() && writes[i] == write_of(addr);
    assert(outcomes[i] && writes[i] == write_of(addr));
    law_pull_then_monitor(intel, indicators, outcomes, frame, addr);
}

/// From the feed to the frame: once the writes of a bundle have gone through, a frame of at
/// least 34 bytes with the EtherType 08 00 is dropped if its bytes 26 to 29 are the octets of an
/// address that some object of the bundle names as an `IPV4` indicator.
pub proof fn law_object_blocks_frame(
    intel: Map<u32, IntelEntryView>,
    bundle: Bundle,
    i: int,
    addr: Ipv4Addr,
    frame: Seq<u8>,
)
    requires
        0 <= i < bundle.objects@.len(),
        object_members(bundle.objects@[i]).contains_pair("x_umai_kind"@, Some("IPV4"@)),
        object_members(bundle.objects@[i]).contains_pair("x_umai_value"@, Some(addr.text())),
        frame.len() >= 34,
        frame[12] == 0x08 && frame[13] == 0x00,
        frame.subrange(26, 30) == seq![addr.a, addr.b, addr.c, addr.d],
    ensures
        ({
            let writes = writes_of(bundle.indicators());
            let after = written(intel, writes, all_succeed(writes.len()));
            verdict_of(frame, after).action == XdpAction::Drop
        }),
{
    let members = object_members(bundle.objects@[i]);
    law_members_name_the_indicator(members);
    law_every_object_is_read(bundle);
    let indicator = bundle.indicators()[i];
    law_address_indicators_are_recognised(indicator, addr);
    assert(lists(bundle.indicators(), addr));
    assert(sent_by(frame, addr)) by {
        let source = frame.subrange(26, 30);
        assert(source =~= addr.octet_seq());
    }
    law_listed_by_feed_is_dropped(intel, bundle.indicators(), frame, addr);
}

/// A pull blocks nobody else: a frame from an address that its bundle does not list fares
/// as it did before the pull.
pub proof fn law_unlisted_by_feed_is_untouched(
    intel: Map<u32, IntelEntryView>,
    indicators: Seq<IndicatorView>,
    outcomes: Seq<bool>,
    frame: Seq<u8>,
    addr: Ipv4Addr,
)
    requires
        outcomes.len() == writes_of(indicators).len(),
        !lists(indicators, addr),
        sent_by(frame, addr),
    ensures
        verdict_of(frame, written(intel, writes_of(indicators), outcomes)) == verdict_of(
            frame,
            intel,
        ),
{
    let writes = writes_of(indicators);
    law_pull_writes_listed_addresses(indicators);
    if blocks(writes, outcomes, addr) {
        let i = choose|i: int|
            #![trigger writes[i]]
            0 <= i < writes.len() && outcomes[i] && writes[i] == write_of(addr);
        assert(writes.contains(write_of(addr)));
    }
    law_pull_then_monitor(intel, indicators, outcomes, frame, addr);
    law_listed_source_is_dropped(frame, addr, intel);
}

/// Pulling the same bundle again with the same outcomes leaves the map as it is.
pub proof fn law_pull_again_changes_nothing(
    intel: Map<u32, IntelEntryView>,
    indicators: Seq<IndicatorView>,
    outcomes: Seq<bool>,
)
    requires
        outcomes.len() == writes_of(indicators).len(),
    ensures
        ({
            let writes = writes_of(indicators);
            let once = written(intel, writes, outcomes);
            written(once, writes, outcomes) == once
        }),
{
    let writes = writes_of(indicators);
    let once = written(intel, writes, outcomes);
    let twice = written(once, writes, outcomes);
    law_pull_writes_listed_addresses(indicators);
    assert forall|key: u32| #[trigger]
        twice.dom().contains(key) == once.dom().contains(key) && (once.dom().contains(key)
            ==> twice[key] == once[key]) by {
        let addr = lemma_number_of_some_address(key);
        law_written_contents(intel, writes, outcomes, addr);
        law_written_contents(once, writes, outcomes, addr);
    }
    assert(twice.dom() =~= once.dom());
    assert(twice =~= once);
}

/// How many of the indicators are readable IPv4 addresses.
pub open spec fn readable_of(indicators: Seq<IndicatorView>) -> nat {
    indicators.filter(|indicator: IndicatorView| classification(indicator) is Address).len()
}

/// The map holds no more entries than it has room for.
pub open spec fn within_capacity(intel: Map<u32, IntelEntryView>) -> bool {
    intel.dom().finite() && intel.dom().len() <= MAX_INTEL_ENTRIES
}

/// One write to a map that evicts: what was written is there, and what else is there was
/// there before. Where the map is full and the key is new, some other entry has gone to make
/// room. A write that failed changes nothing.
pub open spec fn evicting_step(
    before: Map<u32, IntelEntryView>,
    write: MapWriteView,
    ok: bool,
    after: Map<u32, IntelEntryView>,
) -> bool {
    if ok {
        &&& after.submap_of(before.insert(write.key_be, write.entry))
        &&& after.contains_key(write.key_be)
        &&& before.dom().len() >= MAX_INTEL_ENTRIES && !before.contains_key(write.key_be)
            ==> exists|evicted: u32|
            #[trigger] before.contains_key(evicted) && !after.contains_key(evicted)
    } else {
        after == before
    }
}

/// The contents `states` that a map which evicts goes through while the writes are tried in
/// turn.
pub open spec fn evicting_run(
    states: Seq<Map<u32, IntelEntryView>>,
    writes: Seq<MapWriteView>,
    outcomes: Seq<bool>,
) -> bool {
    &&& outcomes.len() == writes.len()
    &&& states.len() == writes.len() + 1
    &&& forall|i: int|
        0 <= i < writes.len() ==> evicting_step(
            #[trigger] states[i],
            writes[i],
            outcomes[i],
            states[i + 1],
        )
}

/// One write keeps a map that evicts within its capacity.
proof fn lemma_step_within_capacity(
    before: Map<u32, IntelEntryView>,
    write: MapWriteView,
    ok: bool,
    after: Map<u32, IntelEntryView>,
)
    requires
        within_capacity(before),
        evicting_step(before, write, ok, after),
    ensures
        within_capacity(after),
{
    if ok {
        let key = write.key_be;
        let all = before.insert(key, write.entry).dom();
        assert(after.dom().subset_of(all));
        lemma_len_subset(after.dom(), all);
        if before.dom().len() >= MAX_INTEL_ENTRIES && !before.contains_key(key) {
            let evicted = choose|evicted: u32|
                #[trigger] before.contains_key(evicted) && !after.contains_key(evicted);
            assert(all.contains(evicted));
            after.dom().lemma_subset_not_in_lt(all, evicted);
        }
    }
}

/// A map that makes room for a new key when it is full keeps to its capacity however many
/// writes go through. It ends up with nothing that the writes would not have left in a map
/// without eviction, and the last write is in it if it went through.
pub proof fn law_overflow_is_evicted(
    states: Seq<Map<u32, IntelEntryView>>,
    writes: Seq<MapWriteView>,
    outcomes: Seq<bool>,
)
    requires
        evicting_run(states, writes, outcomes),
        within_capacity(states[0]),
    ensures
        within_capacity(states.last()),
        states.last().submap_of(written(states[0], writes, outcomes)),
        writes.len() > 0 && outcomes.last() ==> states.last().contains_key(writes.last().key_be),
    decreases writes.len(),
{
    if writes.len() > 0 {
        let rest = states.drop_last();
        let last = writes.len() - 1;
        assert forall|i: int| 0 <= i < last implies evicting_step(
            #[trigger] rest[i],
            writes.drop_last()[i],
            outcomes.drop_last()[i],
            rest[i + 1],
        ) by {
            assert(evicting_step(states[i], writes[i], outcomes[i], states[i + 1]));
        }
        law_overflow_is_evicted(rest, writes.drop_last(), outcomes.drop_last());
        assert(rest.last() == states[last]);
        assert(evicting_step(states[last], writes[last], outcomes[last], states[last + 1]));
        lemma_step_within_capacity(
            states[last],
            writes[last],
            outcomes[last],
            states[last + 1],
        );
        let kept = written(states[0], writes, outcomes);
        assert forall|key: u32| #[trigger] states.last().dom().contains(key) implies kept.dom().contains(
            key,
        ) && states.last()[key] == kept[key] by {
            if outcomes[last] {
                let added = states[last].insert(writes[last].key_be, writes[last].entry);
                assert(added.dom().contains(key));
                if key != writes[last].key_be {
                    assert(states[last].dom().contains(key));
                }
            } else {
                assert(states[last].dom().contains(key));
            }
        }
    }
}

/// A pull that overflows the map is accepted silently: where every write goes through, as
/// many entries are reported as inserted as the bundle holds readable addresses, with no
/// regard to the capacity, and a map that makes room when it is full keeps to its capacity.
pub proof fn law_overflow_is_silent(
    indicators: Seq<IndicatorView>,
    states: Seq<Map<u32, IntelEntryView>>,
)
    requires
        within_capacity(states[0]),
        ({
            let writes = writes_of(indicators);
            evicting_run(states, writes, all_succeed(writes.len()))
        }),
    ensures
        successes(all_succeed(writes_of(indicators).len())) == readable_of(indicators),
        within_capacity(states.last()),
{
    let writes = writes_of(indicators);
    law_inserted_at_most_written(all_succeed(writes.len()));
    lemma_one_write_per_readable(indicators);
    law_overflow_is_evicted(states, writes, all_succeed(writes.len()));
}

/// Whatever the map evicts during a pull, a frame that is dropped afterwards comes from an
/// address that the bundle lists or that the map held before.
pub proof fn law_dropped_after_eviction_was_listed(
    indicators: Seq<IndicatorView>,
    outcomes: Seq<bool>,
    states: Seq<Map<u32, IntelEntryView>>,
    frame: Seq<u8>,
    addr: Ipv4Addr,
)
    requires
        within_capacity(states[0]),
        evicting_run(states, writes_of(indicators), outcomes),
        sent_by(frame, addr),
        verdict_of(frame, states.last()).action == XdpAction::Drop,
    ensures
        lists(indicators, addr) || states[0].contains_key(addr.number() as u32),
{
    let writes = writes_of(indicators);
    let kept = written(states[0], writes, outcomes);
    law_overflow_is_evicted(states, writes, outcomes);
    assert(states.last().dom().subset_of(kept.dom()));
    law_eviction_blocks_nobody(frame, states.last(), kept);
    if !lists(indicators, addr) {
        law_unlisted_by_feed_is_untouched(states[0], indicators, outcomes, frame, addr);
        law_listed_source_is_dropped(frame, addr, states[0]);
    }
}

/// A pull writes once for every readable address.
proof fn lemma_one_write_per_readable(indicators: Seq<IndicatorView>)
    ensures
        writes_of(indicators).len() == readable_of(indicators),
    decreases indicators.len(),
{
    reveal(Seq::filter);
    if indicators.len() > 0 {
        lemma_one_write_per_readable(indicators.drop_last());
    }
}

/// Every key of the map is the number of an address.
proof fn lemma_number_of_some_address(key: u32) -> (addr: Ipv4Addr)
    ensures
        addr.number() == key,
{
    let bytes = memory_bytes(key);
    Ipv4Addr { a: bytes[0], b: bytes[1], c: bytes[2], d: bytes[3] }
}

} // verus!
