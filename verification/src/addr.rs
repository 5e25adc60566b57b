//! IPv4 addresses: their textual form, and the 32-bit number that holds one in network byte
//! order.

use vstd::endian::{endianness, Endian};
use vstd::prelude::*;

verus! {

/// An IPv4 address, most significant octet first: `a.b.c.d`.
#[derive(Clone, Copy, Debug, PartialEq, Eq, Structural)]
pub struct Ipv4Addr {
    pub a: u8,
    pub b: u8,
    pub c: u8,
    pub d: u8,
}

/// The longest textual form, `255.255.255.255`.
pub const MAX_TEXT_CHARS: usize = 15;

/// The number that four bytes spell, most significant byte first.
pub open spec fn network_u32(a: u8, b: u8, c: u8, d: u8) -> int {
    a * 0x100_0000 + b * 0x1_0000 + c * 0x100 + d
}

/// The number that four bytes in a row in memory are on this machine.
pub open spec fn memory_u32(a: u8, b: u8, c: u8, d: u8) -> int {
    if endianness() == Endian::Big {
        network_u32(a, b, c, d)
    } else {
        network_u32(d, c, b, a)
    }
}

/// The four bytes of `number` as they lie in the memory of this machine.
pub open spec fn memory_bytes(number: u32) -> Seq<u8> {
    let n = number as int;
    let big = seq![
        (n / 0x100_0000) as u8,
        (n / 0x1_0000 % 0x100) as u8,
        (n / 0x100 % 0x100) as u8,
        (n % 0x100) as u8,
    ];
    if endianness() == Endian::Big {
        big
    } else {
        seq![big[3], big[2], big[1], big[0]]
    }
}

/// `u32::from_ne_bytes`: the number whose bytes in memory are `a`, `b`, `c` and `d`, the most
/// significant first on a big-endian machine and last on a little-endian one.
#[verifier::external_body]
pub(crate) fn read_memory_u32(a: u8, b: u8, c: u8, d: u8) -> (number: u32)
    ensures
        number == memory_u32(a, b, c, d),
{
    u32::from_ne_bytes([a, b, c, d])
}

/// Whether `c` is one of `0` to `9`.
pub open spec fn is_digit(c: char) -> bool {
    48 <= c as int <= 57
}

/// The character of the decimal digit `d`.
pub open spec fn digit(d: int) -> char
    recommends
        0 <= d <= 9,
{
    (48 + d) as char
}

/// `n` in decimal, without leading zeros.
pub open spec fn decimal(n: u8) -> Seq<char> {
    if n < 10 {
        seq![digit(n as int)]
    } else if n < 100 {
        seq![digit(n as int / 10), digit(n as int % 10)]
    } else {
        seq![digit(n as int / 100), digit(n as int / 10 % 10), digit(n as int % 10)]
    }
}

/// The address that `s` writes in dotted decimal, if it writes one.
pub open spec fn addr_of_text(s: Seq<char>) -> Option<Ipv4Addr> {
    if exists|addr: Ipv4Addr| s == #[trigger] addr.text() {
        Some(choose|addr: Ipv4Addr| s == #[trigger] addr.text())
    } else {
        None
    }
}

impl Ipv4Addr {
    /// The dotted decimal form of the address.
    pub open spec fn text(self) -> Seq<char> {
        decimal(self.a) + seq!['.'] + decimal(self.b) + seq!['.'] + decimal(self.c) + seq!['.']
            + decimal(self.d)
    }

    /// The octets, most significant first.
    pub open spec fn octet_seq(self) -> Seq<u8> {
        seq![self.a, self.b, self.c, self.d]
    }

    /// The address in network byte order: the number whose bytes in memory are the octets,
    /// as they lie in a packet.
    pub open spec fn number(self) -> int {
        memory_u32(self.a, self.b, self.c, self.d)
    }

    /// The address `a.b.c.d`.
    pub fn new(a: u8, b: u8, c: u8, d: u8) -> (addr: Ipv4Addr)
        ensures
            addr == (Ipv4Addr { a, b, c, d }),
    {
        Ipv4Addr { a, b, c, d }
    }

    /// The four octets, most significant first.
    pub fn octets(&self) -> (octets: [u8; 4])
        ensures
            octets@ == self.octet_seq(),
            octets@ == seq![self.a, self.b, self.c, self.d],
    {
        [self.a, self.b, self.c, self.d]
    }

    /// The address in network byte order: the number whose bytes in memory are the octets.
    pub fn to_network_u32(&self) -> (number: u32)
        ensures
            number == self.number(),
            memory_bytes(number) == self.octet_seq(),
            endianness() == Endian::Big ==> number == self.a * 0x100_0000 + self.b * 0x1_0000
                + self.c * 0x100 + self.d,
            endianness() == Endian::Little ==> number == self.d * 0x100_0000 + self.c * 0x1_0000
                + self.b * 0x100 + self.a,
    {
        proof {
            law_number_lies_as_octets(*self);
        }
        read_memory_u32(self.a, self.b, self.c, self.d)
    }

    /// The address that `text` writes in dotted decimal. Four decimal numbers up to 255,
    /// without leading zeros, signs or spaces, are the only accepted form.
    pub fn parse(text: &str) -> (addr: Option<Ipv4Addr>)
        ensures
            addr == addr_of_text(text@),
            addr matches Some(addr) ==> text@ == addr.text(),
    {
        let len: usize = text.unicode_len();
        if len > MAX_TEXT_CHARS {
            proof {
                assert forall|addr: Ipv4Addr| text@ != #[trigger] addr.text() by {
                    if text@ == addr.text() {
                        lemma_text_layout(text@, addr);
                    }
                }
            }
            return None;
        }
        let mut chars: Vec<char> = Vec::new();
        let mut i: usize = 0;
        while i < len
            invariant
                i <= len,
                len == text@.len(),
                chars@ == text@.take(i as int),
            decreases len - i,
        {
            chars.push(text.get_char(i));
            i = i + 1;
        }
        assert(chars@ == text@);
        let addr = parse_chars(&chars);
        proof {
            if let Some(addr) = addr {
                law_text_names_one_address(addr, addr_of_text(text@)->0);
            }
        }
        addr
    }
}

/// Two addresses with the same text are the same address.
pub proof fn law_text_names_one_address(x: Ipv4Addr, y: Ipv4Addr)
    requires
        x.text() == y.text(),
    ensures
        x == y,
{
    let s = x.text();
    lemma_text_layout(s, x);
    lemma_text_layout(s, y);
    lemma_octet_unique(s, 0, x.a, decimal(x.a).len() as int, y.a, decimal(y.a).len() as int);
    let p1 = decimal(x.a).len() as int;
    let p2 = p1 + 1 + decimal(x.b).len();
    let q2 = p1 + 1 + decimal(y.b).len();
    lemma_octet_unique(s, p1 + 1, x.b, p2, y.b, q2);
    let p3 = p2 + 1 + decimal(x.c).len();
    let q3 = p2 + 1 + decimal(y.c).len();
    lemma_octet_unique(s, p2 + 1, x.c, p3, y.c, q3);
    lemma_octet_unique(s, p3 + 1, x.d, s.len() as int, y.d, s.len() as int);
}

/// Reading back the text of an address gives the address.
pub proof fn law_text_round_trip(addr: Ipv4Addr)
    ensures
        addr_of_text(addr.text()) == Some(addr),
{
    law_text_names_one_address(addr, addr_of_text(addr.text())->0);
}

/// The bytes of the number of an address, as they lie in memory, are its octets.
pub proof fn law_number_lies_as_octets(addr: Ipv4Addr)
    ensures
        0 <= addr.number() <= u32::MAX,
        memory_bytes(addr.number() as u32) == addr.octet_seq(),
{
    if endianness() == Endian::Big {
        lemma_network_bytes(addr.a, addr.b, addr.c, addr.d);
    } else {
        lemma_network_bytes(addr.d, addr.c, addr.b, addr.a);
    }
    assert(memory_bytes(addr.number() as u32) =~= addr.octet_seq());
}

/// The number of an address weighs its first octet most on a big-endian machine, and its last
/// octet most on a little-endian one.
pub proof fn law_number_weighs_octets(addr: Ipv4Addr)
    ensures
        endianness() == Endian::Big ==> addr.number() == addr.a * 0x100_0000 + addr.b * 0x1_0000
            + addr.c * 0x100 + addr.d,
        endianness() == Endian::Little ==> addr.number() == addr.d * 0x100_0000 + addr.c * 0x1_0000
            + addr.b * 0x100 + addr.a,
        addr.octet_seq() == seq![addr.a, addr.b, addr.c, addr.d],
{
}

/// A number has four bytes in memory and is their sum, weighed from the first on a big-endian
/// machine and from the last on a little-endian one.
pub proof fn law_number_is_its_bytes(number: u32)
    ensures
        memory_bytes(number).len() == 4,
        ({
            let bytes = memory_bytes(number);
            &&& endianness() == Endian::Big ==> number == bytes[0] * 0x100_0000 + bytes[1]
                * 0x1_0000 + bytes[2] * 0x100 + bytes[3]
            &&& endianness() == Endian::Little ==> number == bytes[3] * 0x100_0000 + bytes[2]
                * 0x1_0000 + bytes[1] * 0x100 + bytes[0]
        }),
{
}

/// A decimal form is made of the characters `0` to `9`, does not start with a superfluous
/// zero, and has the value of the octet it writes.
pub proof fn law_decimal_is_positional(n: u8)
    ensures
        1 <= decimal(n).len() <= 3,
        forall|i: int| 0 <= i < decimal(n).len() ==> '0' <= #[trigger] decimal(n)[i] <= '9',
        decimal(n).len() > 1 ==> decimal(n)[0] != '0',
        ({
            let s = decimal(n);
            let d = |i: int| s[i] as int - '0' as int;
            &&& s.len() == 1 ==> n == d(0)
            &&& s.len() == 2 ==> n == d(0) * 10 + d(1)
            &&& s.len() == 3 ==> n == d(0) * 100 + d(1) * 10 + d(2)
        }),
{
    let v = n as int;
    if n < 10 {
        assert(decimal(n)[0] as int == 48 + v);
    } else if n < 100 {
        assert(decimal(n)[0] as int == 48 + v / 10);
        assert(decimal(n)[1] as int == 48 + v % 10);
    } else {
        assert(decimal(n)[0] as int == 48 + v / 100);
        assert(decimal(n)[1] as int == 48 + v / 10 % 10);
        assert(decimal(n)[2] as int == 48 + v % 10);
    }
}

/// Every text of four decimal numbers up to 255, written in up to three digits without
/// superfluous zeros and parted by dots, is read as the address of those numbers.
pub proof fn law_dotted_decimal_is_read(parts: Seq<Seq<char>>, octets: Seq<u8>)
    requires
        parts.len() == 4,
        octets.len() == 4,
        forall|k: int|
            #![trigger parts[k]]
            0 <= k < 4 ==> {
                let d = |i: int| parts[k][i] as int - '0' as int;
                &&& 1 <= parts[k].len() <= 3
                &&& forall|i: int|
                    0 <= i < parts[k].len() ==> '0' <= #[trigger] parts[k][i] <= '9'
                &&& parts[k].len() > 1 ==> parts[k][0] != '0'
                &&& parts[k].len() == 1 ==> octets[k] == d(0)
                &&& parts[k].len() == 2 ==> octets[k] == d(0) * 10 + d(1)
                &&& parts[k].len() == 3 ==> octets[k] == d(0) * 100 + d(1) * 10 + d(2)
            },
    ensures
        addr_of_text(
            parts[0] + seq!['.'] + parts[1] + seq!['.'] + parts[2] + seq!['.'] + parts[3],
        ) == Some(Ipv4Addr { a: octets[0], b: octets[1], c: octets[2], d: octets[3] }),
{
    assert forall|k: int| 0 <= k < 4 implies #[trigger] parts[k] == decimal(octets[k]) by {
        let part = parts[k];
        let d = part.map_values(|c: char| c as int - 48);
        assert forall|i: int| 0 <= i < d.len() implies 0 <= #[trigger] d[i] <= 9 by {
            assert('0' <= parts[k][i] <= '9');
        }
        assert(part =~= d.map_values(|k: int| digit(k)));
        lemma_decimal_value(octets[k], d);
    }
    let addr = Ipv4Addr { a: octets[0], b: octets[1], c: octets[2], d: octets[3] };
    assert(parts[0] == decimal(addr.a) && parts[1] == decimal(addr.b));
    assert(parts[2] == decimal(addr.c) && parts[3] == decimal(addr.d));
    law_text_round_trip(addr);
}

/// Whatever is read as an address is four decimal numbers parted by dots, and the numbers are
/// its octets.
pub proof fn law_only_dotted_decimal_is_read(s: Seq<char>) -> (parts: Seq<Seq<char>>)
    requires
        addr_of_text(s) is Some,
    ensures
        parts.len() == 4,
        s == parts[0] + seq!['.'] + parts[1] + seq!['.'] + parts[2] + seq!['.'] + parts[3],
        forall|k: int|
            #![trigger parts[k]]
            0 <= k < 4 ==> {
                let addr = addr_of_text(s)->0;
                let octet = seq![addr.a, addr.b, addr.c, addr.d][k];
                let d = |i: int| parts[k][i] as int - '0' as int;
                &&& 1 <= parts[k].len() <= 3
                &&& forall|i: int|
                    0 <= i < parts[k].len() ==> '0' <= #[trigger] parts[k][i] <= '9'
                &&& parts[k].len() > 1 ==> parts[k][0] != '0'
                &&& parts[k].len() == 1 ==> octet == d(0)
                &&& parts[k].len() == 2 ==> octet == d(0) * 10 + d(1)
                &&& parts[k].len() == 3 ==> octet == d(0) * 100 + d(1) * 10 + d(2)
            },
{
    let addr = addr_of_text(s)->0;
    law_decimal_is_positional(addr.a);
    law_decimal_is_positional(addr.b);
    law_decimal_is_positional(addr.c);
    law_decimal_is_positional(addr.d);
    seq![decimal(addr.a), decimal(addr.b), decimal(addr.c), decimal(addr.d)]
}

/// Two addresses with the same number are the same address.
pub proof fn law_number_names_one_address(x: Ipv4Addr, y: Ipv4Addr)
    ensures
        x.number() == y.number() <==> x == y,
{
    law_number_lies_as_octets(x);
    law_number_lies_as_octets(y);
    if x.number() == y.number() {
        let (xs, ys) = (x.octet_seq(), y.octet_seq());
        assert(xs[0] == ys[0] && xs[1] == ys[1] && xs[2] == ys[2] && xs[3] == ys[3]);
    }
}

/// The bytes that a number spells can be read back from it.
proof fn lemma_network_bytes(a: u8, b: u8, c: u8, d: u8)
    ensures
        ({
            let n = network_u32(a, b, c, d);
            &&& 0 <= n <= u32::MAX
            &&& n / 0x100_0000 == a
            &&& n / 0x1_0000 % 0x100 == b
            &&& n / 0x100 % 0x100 == c
            &&& n % 0x100 == d
        }),
{
    let n = network_u32(a, b, c, d);
    assert(n / 0x100 == a * 0x1_0000 + b * 0x100 + c);
    assert(n / 0x1_0000 == a * 0x100 + b);
}

/// The value of the decimal digit `c`.
fn digit_value(c: char) -> (value: Option<u32>)
    ensures
        match value {
            Some(v) => v <= 9 && c == digit(v as int) && is_digit(c),
            None => !is_digit(c),
        },
{
    let code: u32 = c as u32;
    if 48 <= code && code <= 57 {
        Some(code - 48)
    } else {
        None
    }
}

/// A decimal form is made of one to three digits.
proof fn lemma_decimal_digits(n: u8)
    ensures
        1 <= decimal(n).len() <= 3,
        forall|i: int| 0 <= i < decimal(n).len() ==> is_digit(#[trigger] decimal(n)[i]),
{
}

/// Two octets with the same decimal form are equal.
proof fn lemma_decimal_unique(m: u8, n: u8)
    requires
        decimal(m) == decimal(n),
    ensures
        m == n,
{
    lemma_decimal_digits(n);
    let d = decimal(n).map_values(|c: char| c as int - 48);
    assert forall|i: int| 0 <= i < d.len() implies 0 <= #[trigger] d[i] <= 9 by {
        assert(is_digit(decimal(n)[i]));
    }
    assert(decimal(n) =~= d.map_values(|k: int| digit(k)));
    lemma_decimal_value(m, d);
    lemma_decimal_value(n, d);
}

/// The digits `d`, most significant first, are the decimal form of `n` exactly when they
/// do not start with a superfluous zero and `n` is their value.
proof fn lemma_decimal_value(n: u8, d: Seq<int>)
    requires
        1 <= d.len() <= 3,
        forall|i: int| 0 <= i < d.len() ==> 0 <= #[trigger] d[i] <= 9,
    ensures
        decimal(n) == d.map_values(|k: int| digit(k)) <==> (d.len() == 1 || d[0] != 0) && n
            == digits_value(d),
{
    let text = d.map_values(|k: int| digit(k));
    let v = n as int;
    assert(forall|i: int| 0 <= i < d.len() ==> #[trigger] text[i] as int == 48 + d[i]);
    if n < 10 {
        assert(decimal(n)[0] as int == 48 + v);
    } else if n < 100 {
        assert(decimal(n)[0] as int == 48 + v / 10);
        assert(decimal(n)[1] as int == 48 + v % 10);
    } else {
        assert(decimal(n)[0] as int == 48 + v / 100);
        assert(decimal(n)[1] as int == 48 + v / 10 % 10);
        assert(decimal(n)[2] as int == 48 + v % 10);
    }
    if decimal(n) == text {
        assert(d.len() == decimal(n).len());
        assert(text[0] == decimal(n)[0]);
        if d.len() > 1 {
            assert(text[1] == decimal(n)[1]);
        }
        if d.len() > 2 {
            assert(text[2] == decimal(n)[2]);
        }
        assert(n == digits_value(d));
    }
    if (d.len() == 1 || d[0] != 0) && n == digits_value(d) {
        assert(decimal(n) =~= text);
    }
}

/// The number that up to three decimal digits spell.
spec fn digits_value(d: Seq<int>) -> int {
    if d.len() == 1 {
        d[0]
    } else if d.len() == 2 {
        d[0] * 10 + d[1]
    } else {
        d[0] * 100 + d[1] * 10 + d[2]
    }
}

/// `s` holds the decimal form of `n` from `pos` up to `end`, and no digit follows.
spec fn octet_at(s: Seq<char>, pos: int, n: u8, end: int) -> bool {
    &&& pos < end <= s.len()
    &&& s.subrange(pos, end) == decimal(n)
    &&& end == s.len() || !is_digit(s[end])
}

/// At most one octet stands at a position.
proof fn lemma_octet_unique(s: Seq<char>, pos: int, m: u8, stop: int, n: u8, end: int)
    requires
        0 <= pos,
        octet_at(s, pos, m, stop),
        octet_at(s, pos, n, end),
    ensures
        m == n,
        stop == end,
{
    lemma_decimal_digits(m);
    lemma_decimal_digits(n);
    assert forall|i: int| pos <= i < stop implies #[trigger] s[i] == decimal(m)[i - pos] by {
        assert(s.subrange(pos, stop)[i - pos] == s[i]);
    }
    assert forall|i: int| pos <= i < end implies #[trigger] s[i] == decimal(n)[i - pos] by {
        assert(s.subrange(pos, end)[i - pos] == s[i]);
    }
    if stop < end {
        assert(is_digit(s[stop]));
    }
    if end < stop {
        assert(is_digit(s[end]));
    }
    lemma_decimal_unique(m, n);
}

/// What reading an octet at `pos` of `s` yields: the one octet that stands there and the
/// position behind it, or nothing where no octet does.
spec fn octet_read(s: Seq<char>, pos: int, octet: Option<(u8, usize)>) -> bool {
    match octet {
        Some((n, end)) => {
            &&& octet_at(s, pos, n, end as int)
            &&& forall|m: u8, stop: int| octet_at(s, pos, m, stop) ==> m == n && stop == end
        },
        None => forall|n: u8, stop: int| !octet_at(s, pos, n, stop),
    }
}

/// Reads the octet that starts at `pos`, and the position behind it.
fn read_octet(chars: &Vec<char>, pos: usize) -> (octet: Option<(u8, usize)>)
    requires
        pos <= chars.len(),
    ensures
        octet_read(chars@, pos as int, octet),
{
    let mut end: usize = pos;
    let mut value: u32 = 0;
    let ghost mut digits: Seq<int> = Seq::empty();
    while end < chars.len() && end - pos < 4
        invariant_except_break
            pos <= end <= chars.len(),
            end - pos <= 4,
            digits.len() == end - pos,
            forall|i: int| 0 <= i < digits.len() ==> 0 <= #[trigger] digits[i] <= 9,
            chars@.subrange(pos as int, end as int) == digits.map_values(|k: int| digit(k)),
            1 <= digits.len() <= 3 ==> value == digits_value(digits),
            digits.len() == 0 ==> value == 0,
            value <= 9999,
            end - pos <= 3 ==> value <= 999,
        ensures
            pos <= end <= chars.len(),
            end - pos <= 4,
            digits.len() == end - pos,
            forall|i: int| 0 <= i < digits.len() ==> 0 <= #[trigger] digits[i] <= 9,
            chars@.subrange(pos as int, end as int) == digits.map_values(|k: int| digit(k)),
            1 <= digits.len() <= 3 ==> value == digits_value(digits),
            end - pos < 4 ==> end == chars.len() || !is_digit(chars@[end as int]),
        decreases chars.len() - end,
    {
        match digit_value(chars[end]) {
            Some(d) => {
                proof {
                    assert(chars@.subrange(pos as int, end + 1) =~= chars@.subrange(
                        pos as int,
                        end as int,
                    ).push(chars@[end as int]));
                    assert(digits.push(d as int).map_values(|k: int| digit(k)) =~= digits.map_values(
                        |k: int| digit(k),
                    ).push(digit(d as int)));
                    digits = digits.push(d as int);
                }
                value = value * 10 + d;
                end = end + 1;
            },
            None => {
                break;
            },
        }
    }
    let count: usize = end - pos;
    proof {
        assert forall|n: u8, stop: int| octet_at(chars@, pos as int, n, stop) implies stop == end
            && 1 <= count <= 3 by {
            let run = chars@.subrange(pos as int, stop);
            lemma_decimal_digits(n);
            assert forall|i: int| pos <= i < stop implies is_digit(#[trigger] chars@[i]) by {
                assert(run[i - pos] == chars@[i]);
            }
            if end < stop {
                assert(is_digit(chars@[end as int]));
            }
            if stop < end {
                assert(chars@.subrange(pos as int, end as int)[stop - pos] == digit(
                    digits[stop - pos],
                ));
            }
        }
        if 1 <= count <= 3 {
            assert forall|n: u8| octet_at(chars@, pos as int, n, end as int) <==> (count == 1
                || digits[0] != 0) && n == value by {
                lemma_decimal_value(n, digits);
            }
        }
    }
    if count == 0 || count > 3 {
        return None;
    }
    assert(chars@[pos as int] == chars@.subrange(pos as int, end as int)[0]);
    assert(chars@[pos as int] == '0' <==> digits[0] == 0);
    if count > 1 && chars[pos] == '0' {
        return None;
    }
    if value > 255 {
        return None;
    }
    Some((value as u8, end))
}

/// Where the octets and the dots of `addr` stand in its text `s`.
spec fn text_layout(s: Seq<char>, addr: Ipv4Addr) -> bool {
    let p1 = decimal(addr.a).len() as int;
    let p2 = p1 + 1 + decimal(addr.b).len();
    let p3 = p2 + 1 + decimal(addr.c).len();
    &&& octet_at(s, 0, addr.a, p1)
    &&& p1 < s.len() && s[p1] == '.'
    &&& octet_at(s, p1 + 1, addr.b, p2)
    &&& p2 < s.len() && s[p2] == '.'
    &&& octet_at(s, p2 + 1, addr.c, p3)
    &&& p3 < s.len() && s[p3] == '.'
    &&& octet_at(s, p3 + 1, addr.d, s.len() as int)
}

/// The text of an address is at most `MAX_TEXT_CHARS` long and laid out as described.
proof fn lemma_text_layout(s: Seq<char>, addr: Ipv4Addr)
    requires
        s == addr.text(),
    ensures
        s.len() <= MAX_TEXT_CHARS,
        text_layout(s, addr),
{
    lemma_decimal_digits(addr.a);
    lemma_decimal_digits(addr.b);
    lemma_decimal_digits(addr.c);
    lemma_decimal_digits(addr.d);
    let p1 = decimal(addr.a).len() as int;
    let p2 = p1 + 1 + decimal(addr.b).len();
    let p3 = p2 + 1 + decimal(addr.c).len();
    assert(s.subrange(0, p1) =~= decimal(addr.a));
    assert(s.subrange(p1 + 1, p2) =~= decimal(addr.b));
    assert(s.subrange(p2 + 1, p3) =~= decimal(addr.c));
    assert(s.subrange(p3 + 1, s.len() as int) =~= decimal(addr.d));
}

/// Reads a dot and the octet behind it.
fn read_dotted_octet(chars: &Vec<char>, pos: usize) -> (octet: Option<(u8, usize)>)
    requires
        pos <= chars.len(),
    ensures
        if pos < chars.len() && chars@[pos as int] == '.' {
            octet_read(chars@, pos + 1, octet)
        } else {
            octet is None
        },
{
    if pos < chars.len() && chars[pos] == '.' {
        read_octet(chars, pos + 1)
    } else {
        None
    }
}

/// `Ipv4Addr::parse` on the characters of the text.
fn parse_chars(chars: &Vec<char>) -> (addr: Option<Ipv4Addr>)
    ensures
        match addr {
            Some(addr) => chars@ == addr.text(),
            None => forall|addr: Ipv4Addr| chars@ != #[trigger] addr.text(),
        },
{
    proof {
        assert forall|addr: Ipv4Addr| chars@ == #[trigger] addr.text() implies text_layout(
            chars@,
            addr,
        ) by {
            lemma_text_layout(chars@, addr);
        }
    }
    if let Some((a, p1)) = read_octet(chars, 0) {
        if let Some((b, p2)) = read_dotted_octet(chars, p1) {
            if let Some((c, p3)) = read_dotted_octet(chars, p2) {
                if let Some((d, p4)) = read_dotted_octet(chars, p3) {
                    if p4 == chars.len() {
                        let addr = Ipv4Addr { a, b, c, d };
                        assert(chars@ =~= chars@.subrange(0, p1 as int) + seq!['.']
                            + chars@.subrange(p1 + 1, p2 as int) + seq!['.'] + chars@.subrange(
                            p2 + 1,
                            p3 as int,
                        ) + seq!['.'] + chars@.subrange(p3 + 1, p4 as int));
                        return Some(addr);
                    }
                }
            }
        }
    }
    None
}

} // verus!
