//! The threat-intel feed: from a decoded bundle to the writes it asks of the blocklist map.
//!
//! The map is written by system calls, so a pull comes in steps: `plan_pull` says what to
//! write, and `PullPlan::finish` takes the outcome of every write and accounts for the pull.

use serde_json::Value;
use vstd::endian::{endianness, Endian};
use vstd::prelude::*;

use crate::addr::{addr_of_text, law_text_round_trip, memory_bytes, memory_u32, Ipv4Addr};
use crate::entry::{
    ipv4_entry, law_entry_holds_the_address_alone, IntelEntry, IntelEntryView,
};

verus! {

/// The member of a feed object that names the kind of its indicator.
pub const KIND_MEMBER: &'static str = "x_umai_kind";

/// The member of a feed object that holds the indicator itself.
pub const VALUE_MEMBER: &'static str = "x_umai_value";

/// The kind of an IPv4 indicator.
pub const KIND_IPV4: &'static str = "IPV4";

/// A JSON value of the feed.
#[verifier::external_type_specification]
#[verifier::external_body]
pub struct ExValue(serde_json::Value);

/// The members of a JSON object by name: the text of a member that is a string, `None` for
/// any other member. A value that is no object has no members.
pub uninterp spec fn object_members(value: Value) -> Map<Seq<char>, Option<Seq<char>>>;

/// The text of a string member.
pub open spec fn member_text(
    members: Map<Seq<char>, Option<Seq<char>>>,
    name: Seq<char>,
) -> Option<Seq<char>> {
    if members.contains_key(name) {
        members[name]
    } else {
        None
    }
}

/// `serde_json::Value::get` with a name, and `Value::as_str` on the member it finds: the
/// text of the member `name` where the value is an object that has it and it is a string.
#[verifier::external_body]
fn member_str<'a>(value: &'a Value, name: &str) -> (text: Option<&'a str>)
    ensures
        text is Some <==> member_text(object_members(*value), name@) is Some,
        text matches Some(text) ==> member_text(object_members(*value), name@) == Some(text@),
{
    match value.get(name) {
        Some(member) => member.as_str(),
        None => None,
    }
}

/// One object of the feed, as far as the blocklist reads it.
#[derive(Debug)]
pub struct Indicator {
    /// What the indicator identifies; empty where the object does not say.
    pub kind: String,
    /// The indicator; empty where the object has none.
    pub value: String,
}

/// What an `Indicator` holds.
#[verifier::ext_equal]
pub struct IndicatorView {
    pub kind: Seq<char>,
    pub value: Seq<char>,
}

impl View for Indicator {
    type V = IndicatorView;

    open spec fn view(&self) -> IndicatorView {
        IndicatorView { kind: self.kind@, value: self.value@ }
    }
}

/// What the blocklist makes of an indicator.
#[derive(Clone, Copy, Debug, PartialEq, Eq, Structural)]
pub enum Classified {
    /// It identifies something else than an IPv4 address.
    NotIpv4,
    /// It is said to be an IPv4 address and is not written as one.
    Unreadable,
    /// It is this address.
    Address(Ipv4Addr),
}

/// What the blocklist makes of an indicator.
pub open spec fn classification(indicator: IndicatorView) -> Classified {
    if indicator.kind != KIND_IPV4@ {
        Classified::NotIpv4
    } else {
        match addr_of_text(indicator.value) {
            Some(addr) => Classified::Address(addr),
            None => Classified::Unreadable,
        }
    }
}

/// The indicator that an object with these members carries.
pub open spec fn indicator_of(members: Map<Seq<char>, Option<Seq<char>>>) -> IndicatorView {
    IndicatorView {
        kind: text_or_empty(member_text(members, KIND_MEMBER@)),
        value: text_or_empty(member_text(members, VALUE_MEMBER@)),
    }
}

/// The text, or the empty text where there is none.
pub open spec fn text_or_empty(text: Option<Seq<char>>) -> Seq<char> {
    match text {
        Some(text) => text,
        None => Seq::empty(),
    }
}

impl Indicator {
    /// The indicator that a feed object carries.
    pub fn from_object(object: &Value) -> (indicator: Indicator)
        ensures
            indicator@ == indicator_of(object_members(*object)),
            ({
                let members = object_members(*object);
                let kind = "x_umai_kind"@;
                let value = "x_umai_value"@;
                &&& indicator.kind@ == if members.contains_key(kind) && members[kind] is Some {
                    members[kind]->0
                } else {
                    Seq::empty()
                }
                &&& indicator.value@ == if members.contains_key(value) && members[value] is Some {
                    members[value]->0
                } else {
                    Seq::empty()
                }
            }),
    {
        let kind: String = match member_str(object, KIND_MEMBER) {
            Some(text) => text.to_owned(),
            None => String::new(),
        };
        let value: String = match member_str(object, VALUE_MEMBER) {
            Some(text) => text.to_owned(),
            None => String::new(),
        };
        Indicator { kind, value }
    }

    /// What the blocklist makes of the indicator.
    pub fn classify(&self) -> (class: Classified)
        ensures
            class == classification(self@),
            class == Classified::NotIpv4 <==> self.kind@ != "IPV4"@,
            forall|addr: Ipv4Addr|
                class == Classified::Address(addr) <==> self.kind@ == "IPV4"@ && self.value@
                    == #[trigger] addr.text(),
    {
        proof {
            law_indicator_is_its_fields(*self);
            assert forall|addr: Ipv4Addr|
                classification(self@) == Classified::Address(addr) <==> self.kind@ == "IPV4"@
                    && self.value@ == #[trigger] addr.text() by {
                law_address_indicators_are_recognised(self@, addr);
            }
        }
        if self.kind != KIND_IPV4.to_owned() {
            return Classified::NotIpv4;
        }
        match Ipv4Addr::parse(self.value.as_str()) {
            Some(addr) => Classified::Address(addr),
            None => Classified::Unreadable,
        }
    }
}

/// A decoded answer of the feed.
#[derive(Debug)]
pub struct Bundle {
    pub objects: Vec<Value>,
    pub x_umai: Option<XUmai>,
}

/// The paging part of a bundle.
#[derive(Debug)]
pub struct XUmai {
    /// Where the next pull goes on.
    pub cursor_next: Option<String>,
}

impl Bundle {
    /// The indicators that the objects carry.
    pub open spec fn indicators(self) -> Seq<IndicatorView> {
        self.objects@.map_values(|object: Value| indicator_of(object_members(object)))
    }

    /// The cursor that the bundle hands out.
    pub open spec fn cursor_next(self) -> Option<String> {
        match self.x_umai {
            Some(x_umai) => x_umai.cursor_next,
            None => None,
        }
    }
}

/// One write to the blocklist map: `entry` under the key `key_be`, the address in network
/// byte order.
#[derive(Clone, Copy, Debug)]
pub struct MapWrite {
    pub addr: Ipv4Addr,
    pub key_be: u32,
    pub entry: IntelEntry,
}

/// What a `MapWrite` holds.
#[verifier::ext_equal]
pub struct MapWriteView {
    pub addr: Ipv4Addr,
    pub key_be: u32,
    pub entry: IntelEntryView,
}

impl View for MapWrite {
    type V = MapWriteView;

    open spec fn view(&self) -> MapWriteView {
        MapWriteView { addr: self.addr, key_be: self.key_be, entry: self.entry@ }
    }
}

/// The write that blocks `addr`.
pub open spec fn write_of(addr: Ipv4Addr) -> MapWriteView {
    MapWriteView { addr, key_be: addr.number() as u32, entry: ipv4_entry(addr) }
}

impl MapWrite {
    /// The write that blocks `addr`.
    pub fn block(addr: Ipv4Addr) -> (write: MapWrite)
        ensures
            write@ == write_of(addr),
            write.key_be == memory_u32(addr.a, addr.b, addr.c, addr.d),
            memory_bytes(write.key_be) == addr.octet_seq(),
            write.key_be == write.entry.ipv4_be,
            write.addr == addr,
            ({
                &&& write.entry.ipv4_be == write.key_be
                &&& write.entry.tag == 1 && write.entry.severity == 0
                &&& write.entry._pad@ == seq![0u8, 0u8]
                &&& forall|k: int| 0 <= k < 16 ==> #[trigger] write.entry.ja4@[k] == 0
                &&& endianness() == Endian::Big ==> write.key_be == write.addr.a * 0x100_0000
                    + write.addr.b * 0x1_0000 + write.addr.c * 0x100 + write.addr.d
                &&& endianness() == Endian::Little ==> write.key_be == write.addr.d * 0x100_0000
                    + write.addr.c * 0x1_0000 + write.addr.b * 0x100 + write.addr.a
            }),
    {
        let entry = IntelEntry::from_ipv4(addr);
        MapWrite { addr, key_be: addr.to_network_u32(), entry }
    }
}

/// The writes that a series of indicators asks for, in order.
pub open spec fn writes_of(indicators: Seq<IndicatorView>) -> Seq<MapWriteView>
    decreases indicators.len(),
{
    if indicators.len() == 0 {
        Seq::empty()
    } else {
        let before = writes_of(indicators.drop_last());
        match classification(indicators.last()) {
            Classified::Address(addr) => before.push(write_of(addr)),
            _ => before,
        }
    }
}

/// How many of the indicators are no IPv4 addresses.
pub open spec fn skipped_of(indicators: Seq<IndicatorView>) -> nat {
    indicators.filter(
        |indicator: IndicatorView| classification(indicator) == Classified::NotIpv4,
    ).len()
}

/// What a pull writes to the blocklist map, and what it has to report.
#[derive(Debug)]
pub struct PullPlan {
    pub writes: Vec<MapWrite>,
    pub skipped_non_ipv4: usize,
    pub bundle_size: usize,
    pub cursor_next: Option<String>,
}

/// The account of a pull.
#[derive(Debug)]
pub struct PullStats {
    pub inserted: usize,
    pub skipped_non_ipv4: usize,
    pub bundle_size: usize,
    pub cursor_next: Option<String>,
}

/// The writes that the indicators ask for, in order, and how many of the indicators are no
/// IPv4 addresses. An IPv4 indicator that is not written as an address is in neither.
pub fn plan_writes(indicators: &Vec<Indicator>) -> (plan: (Vec<MapWrite>, usize))
    ensures
        plan.0@.map_values(|write: MapWrite| write@) == writes_of(
            indicators@.map_values(|indicator: Indicator| indicator@),
        ),
        plan.1 == skipped_of(indicators@.map_values(|indicator: Indicator| indicator@)),
        forall|i: int|
            0 <= i < plan.0@.len() ==> memory_bytes((#[trigger] plan.0@[i]).key_be)
                == plan.0@[i].addr.octet_seq(),
        forall|i: int|
            0 <= i < plan.0@.len() ==> {
                let write = #[trigger] plan.0@[i];
                &&& write.entry.ipv4_be == write.key_be
                &&& write.entry.tag == 1 && write.entry.severity == 0
                &&& write.entry._pad@ == seq![0u8, 0u8]
                &&& forall|k: int| 0 <= k < 16 ==> #[trigger] write.entry.ja4@[k] == 0
                &&& endianness() == Endian::Big ==> write.key_be == write.addr.a * 0x100_0000
                    + write.addr.b * 0x1_0000 + write.addr.c * 0x100 + write.addr.d
                &&& endianness() == Endian::Little ==> write.key_be == write.addr.d * 0x100_0000
                    + write.addr.c * 0x1_0000 + write.addr.b * 0x100 + write.addr.a
            },
        forall|i: int, addr: Ipv4Addr|
            #![trigger indicators@[i], addr.text()]
            0 <= i < indicators@.len() && indicators@[i].kind@ == "IPV4"@ && indicators@[i].value@
                == addr.text() ==> exists|j: int|
                0 <= j < plan.0@.len() && #[trigger] plan.0@[j].addr == addr,
{
    let ghost views = indicators@.map_values(|indicator: Indicator| indicator@);
    let mut writes: Vec<MapWrite> = Vec::new();
    let mut skipped: usize = 0;
    let mut i: usize = 0;
    while i < indicators.len()
        invariant
            i <= indicators.len(),
            views == indicators@.map_values(|indicator: Indicator| indicator@),
            writes@.map_values(|write: MapWrite| write@) == writes_of(views.take(i as int)),
            skipped == skipped_of(views.take(i as int)),
            skipped <= i,
            forall|j: int|
                0 <= j < writes@.len() ==> memory_bytes((#[trigger] writes@[j]).key_be)
                    == writes@[j].addr.octet_seq(),
            forall|j: int|
                0 <= j < writes@.len() ==> {
                    let write = #[trigger] writes@[j];
                    &&& write.entry.ipv4_be == write.key_be
                    &&& write.entry.tag == 1 && write.entry.severity == 0
                    &&& write.entry._pad@ == seq![0u8, 0u8]
                    &&& forall|k: int| 0 <= k < 16 ==> #[trigger] write.entry.ja4@[k] == 0
                    &&& endianness() == Endian::Big ==> write.key_be == write.addr.a * 0x100_0000
                        + write.addr.b * 0x1_0000 + write.addr.c * 0x100 + write.addr.d
                    &&& endianness() == Endian::Little ==> write.key_be == write.addr.d * 0x100_0000
                        + write.addr.c * 0x1_0000 + write.addr.b * 0x100 + write.addr.a
                },
        decreases indicators.len() - i,
    {
        let ghost before = writes@;
        proof {
            assert(views.take(i + 1).drop_last() =~= views.take(i as int));
            assert(views.take(i + 1).last() == indicators@[i as int]@);
            reveal(Seq::filter);
        }
        match indicators[i].classify() {
            Classified::NotIpv4 => {
                skipped = skipped + 1;
            },
            Classified::Unreadable => {},
            Classified::Address(addr) => {
                let write = MapWrite::block(addr);
                writes.push(write);
                assert(writes@.map_values(|write: MapWrite| write@) =~= before.map_values(
                    |write: MapWrite| write@,
                ).push(write@));
            },
        }
        i = i + 1;
    }
    assert(views.take(views.len() as int) =~= views);
    let plan = (writes, skipped);
    proof {
        assert forall|i: int, addr: Ipv4Addr|
            #![trigger indicators@[i], addr.text()]
            0 <= i < indicators@.len() && indicators@[i].kind@ == "IPV4"@ && indicators@[i].value@
                == addr.text() implies exists|j: int|
            0 <= j < plan.0@.len() && #[trigger] plan.0@[j].addr == addr by {
            law_indicator_is_its_fields(indicators@[i]);
            assert(views[i] == indicators@[i]@);
            let j = lemma_address_is_written(views, i, addr);
            let written = plan.0@.map_values(|write: MapWrite| write@);
            assert(written[j] == plan.0@[j]@);
            law_write_is_its_fields(plan.0@[j]);
        }
    }
    plan
}

/// What pulling `bundle` writes to the blocklist map.
pub fn plan_pull(bundle: Bundle) -> (plan: PullPlan)
    ensures
        plan.writes@.map_values(|write: MapWrite| write@) == writes_of(bundle.indicators()),
        plan.skipped_non_ipv4 == skipped_of(bundle.indicators()),
        plan.bundle_size == bundle.objects@.len(),
        plan.cursor_next == bundle.cursor_next(),
        forall|i: int|
            0 <= i < plan.writes@.len() ==> memory_bytes((#[trigger] plan.writes@[i]).key_be)
                == plan.writes@[i].addr.octet_seq(),
        forall|i: int|
            0 <= i < plan.writes@.len() ==> {
                let write = #[trigger] plan.writes@[i];
                &&& write.entry.ipv4_be == write.key_be
                &&& write.entry.tag == 1 && write.entry.severity == 0
                &&& write.entry._pad@ == seq![0u8, 0u8]
                &&& forall|k: int| 0 <= k < 16 ==> #[trigger] write.entry.ja4@[k] == 0
                &&& endianness() == Endian::Big ==> write.key_be == write.addr.a * 0x100_0000
                    + write.addr.b * 0x1_0000 + write.addr.c * 0x100 + write.addr.d
                &&& endianness() == Endian::Little ==> write.key_be == write.addr.d * 0x100_0000
                    + write.addr.c * 0x1_0000 + write.addr.b * 0x100 + write.addr.a
            },
        bundle.x_umai matches Some(x_umai) ==> plan.cursor_next == x_umai.cursor_next,
        bundle.x_umai is None ==> plan.cursor_next is None,
        forall|i: int, addr: Ipv4Addr|
            #![trigger bundle.objects@[i], addr.text()]
            0 <= i < bundle.objects@.len() && object_members(bundle.objects@[i]).contains_pair(
                "x_umai_kind"@,
                Some("IPV4"@),
            ) && object_members(bundle.objects@[i]).contains_pair(
                "x_umai_value"@,
                Some(addr.text()),
            ) ==> exists|j: int|
                0 <= j < plan.writes@.len() && #[trigger] plan.writes@[j].addr == addr,
{
    let mut indicators: Vec<Indicator> = Vec::new();
    let mut i: usize = 0;
    while i < bundle.objects.len()
        invariant
            i <= bundle.objects.len(),
            indicators@.map_values(|indicator: Indicator| indicator@) =~= bundle.indicators().take(
                i as int,
            ),
            indicators@.len() == i,
            forall|k: int|
                #![trigger indicators@[k]]
                #![trigger bundle.objects@[k]]
                0 <= k < i ==> indicators@[k]@ == indicator_of(object_members(bundle.objects@[k])),
        decreases bundle.objects.len() - i,
    {
        let ghost before = indicators@;
        let indicator = Indicator::from_object(&bundle.objects[i]);
        indicators.push(indicator);
        assert(indicators@.map_values(|indicator: Indicator| indicator@) =~= before.map_values(
            |indicator: Indicator| indicator@,
        ).push(indicator@));
        i = i + 1;
    }
    assert(bundle.indicators().take(i as int) =~= bundle.indicators());
    let bundle_size: usize = bundle.objects.len();
    let (writes, skipped_non_ipv4) = plan_writes(&indicators);
    let cursor_next: Option<String> = match bundle.x_umai {
        Some(x_umai) => x_umai.cursor_next,
        None => None,
    };
    let ghost planned = writes@;
    let plan = PullPlan { writes, skipped_non_ipv4, bundle_size, cursor_next };
    proof {
        assert forall|i: int, addr: Ipv4Addr|
            #![trigger bundle.objects@[i], addr.text()]
            0 <= i < bundle.objects@.len() && object_members(bundle.objects@[i]).contains_pair(
                "x_umai_kind"@,
                Some("IPV4"@),
            ) && object_members(bundle.objects@[i]).contains_pair(
                "x_umai_value"@,
                Some(addr.text()),
            ) implies exists|j: int|
            0 <= j < plan.writes@.len() && #[trigger] plan.writes@[j].addr == addr by {
            law_members_name_the_indicator(object_members(bundle.objects@[i]));
            law_indicator_is_its_fields(indicators@[i]);
            assert(indicators@[i].kind@ == "IPV4"@ && indicators@[i].value@ == addr.text());
            let j = choose|j: int|
                0 <= j < planned.len() && #[trigger] planned[j].addr == addr;
            assert(plan.writes@[j].addr == addr);
        }
    }
    plan
}

/// How many of the writes went through.
pub open spec fn successes(outcomes: Seq<bool>) -> nat {
    outcomes.filter(|ok: bool| ok).len()
}

impl PullPlan {
    /// The account of the pull, once every write has been tried: `outcomes` says of each in
    /// turn whether it went through. A write that failed is not made up for.
    pub fn finish(self, outcomes: &Vec<bool>) -> (stats: PullStats)
        ensures
            stats.inserted == successes(outcomes@),
            stats.skipped_non_ipv4 == self.skipped_non_ipv4,
            stats.bundle_size == self.bundle_size,
            stats.cursor_next == self.cursor_next,
    {
        let mut inserted: usize = 0;
        let mut i: usize = 0;
        while i < outcomes.len()
            invariant
                i <= outcomes.len(),
                inserted <= i,
                inserted == successes(outcomes@.take(i as int)),
            decreases outcomes.len() - i,
        {
            proof {
                assert(outcomes@.take(i + 1).drop_last() =~= outcomes@.take(i as int));
                reveal(Seq::filter);
            }
            if outcomes[i] {
                inserted = inserted + 1;
            }
            i = i + 1;
        }
        assert(outcomes@.take(i as int) =~= outcomes@);
        PullStats {
            inserted,
            skipped_non_ipv4: self.skipped_non_ipv4,
            bundle_size: self.bundle_size,
            cursor_next: self.cursor_next,
        }
    }
}

/// The model of an indicator is its fields.
pub proof fn law_indicator_is_its_fields(indicator: Indicator)
    ensures
        indicator@.kind == indicator.kind@,
        indicator@.value == indicator.value@,
{
}

/// The model of a write is its fields.
pub proof fn law_write_is_its_fields(write: MapWrite)
    ensures
        write@.addr == write.addr,
        write@.key_be == write.key_be,
        write@.entry == write.entry@,
{
}

/// The indicator of an object is made of its two string members: what they hold, or nothing
/// where the object has no such member or it is no string.
pub proof fn law_members_name_the_indicator(members: Map<Seq<char>, Option<Seq<char>>>)
    ensures
        forall|text: Seq<char>| #[trigger]
            members.contains_pair("x_umai_kind"@, Some(text)) ==> indicator_of(members).kind
                == text,
        forall|text: Seq<char>| #[trigger]
            members.contains_pair("x_umai_value"@, Some(text)) ==> indicator_of(members).value
                == text,
        !members.contains_key("x_umai_kind"@) || members["x_umai_kind"@] is None ==> indicator_of(
            members,
        ).kind.len() == 0,
        !members.contains_key("x_umai_value"@) || members["x_umai_value"@] is None ==> indicator_of(
            members,
        ).value.len() == 0,
{
}

/// An indicator is taken for an address exactly where its kind is `IPV4` and its value is the
/// text of that address, and it is passed over as something else exactly where its kind is
/// another.
pub proof fn law_address_indicators_are_recognised(indicator: IndicatorView, addr: Ipv4Addr)
    ensures
        classification(indicator) == Classified::Address(addr) <==> indicator.kind == "IPV4"@
            && indicator.value == addr.text(),
        classification(indicator) == Classified::NotIpv4 <==> indicator.kind != "IPV4"@,
{
    law_text_round_trip(addr);
}

/// The objects of a bundle are read one by one, in order, and none is left out.
pub proof fn law_every_object_is_read(bundle: Bundle)
    ensures
        bundle.indicators().len() == bundle.objects@.len(),
        forall|i: int|
            0 <= i < bundle.objects@.len() ==> #[trigger] bundle.indicators()[i] == indicator_of(
                object_members(bundle.objects@[i]),
            ),
{
}

/// The cursor of a bundle is that of its paging part, whatever else the bundle holds.
pub proof fn law_bundle_hands_on_its_cursor(bundle: Bundle)
    ensures
        bundle.x_umai matches Some(x_umai) ==> bundle.cursor_next() == x_umai.cursor_next,
        bundle.x_umai is None ==> bundle.cursor_next() is None,
{
}

/// The write of an address stands under the number that its octets are in memory, and holds
/// the entry of that address alone.
pub proof fn law_write_blocks_its_address(addr: Ipv4Addr)
    ensures
        write_of(addr).addr == addr,
        write_of(addr).entry.ipv4_be == write_of(addr).key_be,
        write_of(addr).entry.tag == 1,
        write_of(addr).entry.severity == 0,
        endianness() == Endian::Big ==> write_of(addr).key_be == addr.a * 0x100_0000 + addr.b
            * 0x1_0000 + addr.c * 0x100 + addr.d,
        endianness() == Endian::Little ==> write_of(addr).key_be == addr.d * 0x100_0000 + addr.c
            * 0x1_0000 + addr.b * 0x100 + addr.a,
{
    law_entry_holds_the_address_alone(addr);
}

/// What two series of indicators ask for together is what the first asks for, followed by what
/// the second asks for: neither the place nor the company of an indicator counts.
pub proof fn law_writes_join(x: Seq<IndicatorView>, y: Seq<IndicatorView>)
    ensures
        writes_of(x + y) == writes_of(x) + writes_of(y),
    decreases y.len(),
{
    if y.len() == 0 {
        assert(x + y =~= x);
        assert(writes_of(y) =~= Seq::empty());
    } else {
        assert((x + y).drop_last() =~= x + y.drop_last());
        law_writes_join(x, y.drop_last());
    }
    assert(writes_of(x + y) =~= writes_of(x) + writes_of(y));
}

/// A single indicator asks for the write of an address exactly where its kind is `IPV4` and its
/// value the text of that address, and for nothing otherwise.
pub proof fn law_one_indicator_one_write(indicator: IndicatorView)
    ensures
        forall|addr: Ipv4Addr|
            indicator.kind == "IPV4"@ && indicator.value == #[trigger] addr.text() ==> writes_of(
                seq![indicator],
            ).len() == 1 && writes_of(seq![indicator])[0] == write_of(addr),
        indicator.kind != "IPV4"@ ==> writes_of(seq![indicator]).len() == 0,
        (forall|addr: Ipv4Addr| indicator.value != #[trigger] addr.text()) ==> writes_of(
            seq![indicator],
        ).len() == 0,
{
    let one = seq![indicator];
    assert(one.drop_last() =~= Seq::empty());
    assert(writes_of(one.drop_last()).len() == 0);
    assert forall|addr: Ipv4Addr|
        indicator.kind == "IPV4"@ && indicator.value == #[trigger] addr.text() implies writes_of(
        one,
    ).len() == 1 && writes_of(one)[0] == write_of(addr) by {
        law_address_indicators_are_recognised(indicator, addr);
    }
    if let Classified::Address(addr) = classification(indicator) {
        law_address_indicators_are_recognised(indicator, addr);
    }
}

/// The skipped indicators of two series add up, and a single one is skipped exactly where its
/// kind is not `IPV4`.
pub proof fn law_skipped_add_up(x: Seq<IndicatorView>, y: Seq<IndicatorView>, one: IndicatorView)
    ensures
        skipped_of(x + y) == skipped_of(x) + skipped_of(y),
        one.kind != "IPV4"@ ==> skipped_of(seq![one]) == 1,
        one.kind == "IPV4"@ ==> skipped_of(seq![one]) == 0,
    decreases y.len(),
{
    reveal(Seq::filter);
    assert(seq![one].drop_last() =~= Seq::empty());
    assert(skipped_of(seq![one].drop_last()) == 0);
    assert(seq![one].last() == one);
    if y.len() == 0 {
        assert(x + y =~= x);
    } else {
        assert((x + y).drop_last() =~= x + y.drop_last());
        law_skipped_add_up(x, y.drop_last(), one);
    }
}

/// The writes that went through in two series add up, and a single one counts exactly where it
/// went through.
pub proof fn law_successes_add_up(x: Seq<bool>, y: Seq<bool>)
    ensures
        successes(x + y) == successes(x) + successes(y),
        successes(seq![true]) == 1,
        successes(seq![false]) == 0,
    decreases y.len(),
{
    reveal(Seq::filter);
    assert(seq![true].drop_last() =~= Seq::empty());
    assert(seq![false].drop_last() =~= Seq::empty());
    assert(successes(seq![true].drop_last()) == 0 && seq![true].last());
    assert(successes(seq![false].drop_last()) == 0 && !seq![false].last());
    if y.len() == 0 {
        assert(x + y =~= x);
    } else {
        assert((x + y).drop_last() =~= x + y.drop_last());
        law_successes_add_up(x, y.drop_last());
    }
}

/// Every object whose kind is `IPV4` and whose value is the text of an address has the write of
/// that address in the plan of its bundle.
pub proof fn law_every_address_object_is_planned(bundle: Bundle, i: int, addr: Ipv4Addr)
    requires
        0 <= i < bundle.objects@.len(),
        object_members(bundle.objects@[i]).contains_pair("x_umai_kind"@, Some("IPV4"@)),
        object_members(bundle.objects@[i]).contains_pair("x_umai_value"@, Some(addr.text())),
    ensures
        exists|j: int|
            0 <= j < writes_of(bundle.indicators()).len() && #[trigger] writes_of(
                bundle.indicators(),
            )[j] == write_of(addr),
{
    law_members_name_the_indicator(object_members(bundle.objects@[i]));
    let j = lemma_address_is_written(bundle.indicators(), i, addr);
}

/// Where the write of an IPv4 indicator stands.
proof fn lemma_address_is_written(indicators: Seq<IndicatorView>, i: int, addr: Ipv4Addr) -> (j:
    int)
    requires
        0 <= i < indicators.len(),
        indicators[i].kind == "IPV4"@,
        indicators[i].value == addr.text(),
    ensures
        0 <= j < writes_of(indicators).len(),
        writes_of(indicators)[j] == write_of(addr),
{
    let before = indicators.take(i);
    let rest = indicators.skip(i + 1);
    let one = seq![indicators[i]];
    assert(indicators =~= (before + one) + rest);
    law_writes_join(before + one, rest);
    law_writes_join(before, one);
    law_one_indicator_one_write(indicators[i]);
    writes_of(before).len() as int
}

} // verus!
