//! Network addresses as the configuration writes them: IPv4 addresses, station
//! addresses, and subnets in CIDR notation.
use vstd::prelude::*;
use crate::text::chars_of;
use crate::text::find_char;
use crate::text::owned;
use crate::text::parse_number;
use crate::text::push_decimal;
use crate::text::slice_of;
use crate::text::string_of;

verus! {

// ---------------------------------------------------------------------------
// Pieces between separators
// ---------------------------------------------------------------------------

/// The pieces of `s` between the separators `a` and `b`, empty ones included.
pub open spec fn pieces(s: Seq<char>, a: char, b: char) -> Seq<Seq<char>>
    decreases s.len(),
{
    if s.len() == 0 {
        seq![seq![]]
    } else {
        let front = pieces(s.drop_last(), a, b);
        if s.last() == a || s.last() == b {
            front.push(seq![])
        } else {
            front.update(front.len() - 1, front.last().push(s.last()))
        }
    }
}

proof fn lemma_pieces_nonempty(s: Seq<char>, a: char, b: char)
    ensures
        pieces(s, a, b).len() > 0,
    decreases s.len(),
{
    if s.len() > 0 {
        lemma_pieces_nonempty(s.drop_last(), a, b);
    }
}

/// A text without separators is one piece, and a separator between two texts puts the pieces
/// of one before those of the other.
pub proof fn law_separators_part_the_pieces(x: Seq<char>, c: char, y: Seq<char>, a: char, b: char)
    requires
        c == a || c == b,
    ensures
        pieces(x + seq![c] + y, a, b) == pieces(x, a, b) + pieces(y, a, b),
        (forall|i: int| 0 <= i < x.len() ==> #[trigger] x[i] != a && x[i] != b) ==> pieces(x, a, b)
            == seq![x],
    decreases x.len() + y.len(),
{
    let s = x + seq![c] + y;
    lemma_pieces_nonempty(x, a, b);
    lemma_pieces_nonempty(y, a, b);
    if y.len() == 0 {
        assert(s.drop_last() =~= x);
        assert(s.last() == c);
        assert(pieces(y, a, b) =~= seq![seq![]]);
        assert(pieces(s, a, b) =~= pieces(x, a, b) + pieces(y, a, b));
    } else {
        let rest = y.drop_last();
        law_separators_part_the_pieces(x, c, rest, a, b);
        lemma_pieces_nonempty(rest, a, b);
        assert(s.drop_last() =~= x + seq![c] + rest);
        assert(s.last() == y.last());
        assert(pieces(s, a, b) =~= pieces(x, a, b) + pieces(y, a, b));
    }
    if forall|i: int| 0 <= i < x.len() ==> #[trigger] x[i] != a && x[i] != b {
        if x.len() == 0 {
            assert(x =~= seq![]);
            assert(pieces(x, a, b) =~= seq![x]);
        } else {
            let front = x.drop_last();
            assert forall|i: int| 0 <= i < front.len() implies #[trigger] front[i] != a && front[i]
                != b by {
                assert(front[i] == x[i]);
            }
            law_separators_part_the_pieces(front, c, seq![], a, b);
            assert(x[x.len() - 1] != a && x[x.len() - 1] != b);
            assert(front.push(x.last()) =~= x);
            assert(pieces(x, a, b) =~= seq![x]);
        }
    }
}

/// The texts with a separator between each and the next.
spec fn rejoined(parts: Seq<Seq<char>>, c: char) -> Seq<char>
    decreases parts.len(),
{
    if parts.len() == 0 {
        seq![]
    } else if parts.len() == 1 {
        parts[0]
    } else {
        rejoined(parts.drop_last(), c) + seq![c] + parts.last()
    }
}

proof fn lemma_rejoined(s: Seq<char>, c: char)
    ensures
        rejoined(pieces(s, c, c), c) == s,
    decreases s.len(),
{
    lemma_pieces_nonempty(s, c, c);
    if s.len() == 0 {
        assert(s =~= seq![]);
    } else {
        let shorter = s.drop_last();
        let front = pieces(shorter, c, c);
        let all = pieces(s, c, c);
        lemma_rejoined(shorter, c);
        lemma_pieces_nonempty(shorter, c, c);
        assert(s =~= shorter.push(s.last()));
        if s.last() == c {
            assert(all.drop_last() =~= front);
            assert(rejoined(all, c) =~= s);
        } else {
            assert(all.drop_last() =~= front.drop_last());
            assert(rejoined(all, c) =~= s);
        }
    }
}

/// The pieces of `s` between the separators `a` and `b`.
pub fn split_pieces(s: &[char], a: char, b: char) -> (r: Vec<Vec<char>>)
    ensures
        r.len() == pieces(s@, a, b).len(),
        r.len() > 0,
        forall|i: int| 0 <= i < r.len() ==> (#[trigger] r[i])@ == pieces(s@, a, b)[i],
{
    let mut done: Vec<Vec<char>> = Vec::new();
    let mut last: Vec<char> = Vec::new();
    let mut i: usize = 0;
    proof {
        assert(s@.take(0).len() == 0);
    }
    while i < s.len()
        invariant
            i <= s.len(),
            pieces(s@.take(i as int), a, b).len() == done.len() + 1,
            forall|k: int|
                0 <= k < done.len() ==> (#[trigger] done[k])@ == pieces(s@.take(i as int), a, b)[k],
            last@ == pieces(s@.take(i as int), a, b).last(),
        decreases s.len() - i,
    {
        let ghost now = pieces(s@.take(i as int), a, b);
        proof {
            assert(s@.take(i + 1).drop_last() =~= s@.take(i as int));
            assert(s@.take(i + 1).last() == s@[i as int]);
        }
        let c = s[i];
        if c == a || c == b {
            done.push(last);
            last = Vec::new();
            proof {
                assert(last@ =~= seq![]);
            }
        } else {
            last.push(c);
        }
        i = i + 1;
    }
    proof {
        assert(s@.take(s@.len() as int) =~= s@);
    }
    done.push(last);
    done
}

// ---------------------------------------------------------------------------
// Station addresses
// ---------------------------------------------------------------------------

/// The first piece at or after `from` that is not an octet in hexadecimal.
pub open spec fn first_bad_octet(parts: Seq<Seq<char>>, from: int) -> Option<int>
    decreases parts.len() - from,
{
    if from < 0 || from >= parts.len() {
        None
    } else if crate::text::parsed(parts[from], 16, 255) is None {
        Some(from)
    } else {
        first_bad_octet(parts, from + 1)
    }
}

/// What is wrong with `s` as a station address, if anything: not six pieces, a
/// piece that is no octet, or the multicast bit.
pub open spec fn mac_error(s: Seq<char>) -> Option<Seq<char>> {
    let parts = pieces(s, ':', '-');
    if parts.len() != 6 {
        Some("\""@ + s + "\" is not a MAC address (expected six octets)"@)
    } else {
        match first_bad_octet(parts, 0) {
            Some(i) => Some(
                "\""@ + s + "\" is not a MAC address (bad octet \""@ + parts[i] + "\")"@,
            ),
            None => if crate::text::parsed(parts[0], 16, 255).unwrap() % 2 == 1 {
                Some(
                    s
                        + " is a multicast address; a station MAC must have bit 0 of the first octet clear"@,
                )
            } else {
                None
            },
        }
    }
}

/// The six octets that `s` writes.
pub open spec fn mac_octets(s: Seq<char>) -> Seq<u8> {
    let parts = pieces(s, ':', '-');
    Seq::new(parts.len(), |i: int| crate::text::parsed(parts[i], 16, 255).unwrap() as u8)
}

proof fn lemma_no_bad_octet(parts: Seq<Seq<char>>, from: int, i: int)
    requires
        0 <= from <= i < parts.len(),
        first_bad_octet(parts, from) is None,
    ensures
        crate::text::parsed(parts[i], 16, 255) is Some,
    decreases i - from,
{
    if from < i {
        lemma_no_bad_octet(parts, from + 1, i);
    }
}

/// Six texts with a colon or a dash between them are a station address exactly if each is an
/// octet in hexadecimal and the first is even, and its octets are those numbers, in that order.
pub proof fn law_station_addresses(p: Seq<Seq<char>>, c: Seq<char>)
    requires
        p.len() == 6,
        c.len() == 5,
        forall|i: int| 0 <= i < 5 ==> #[trigger] c[i] == ':' || c[i] == '-',
        forall|i: int, j: int|
            0 <= i < 6 && 0 <= j < p[i].len() ==> #[trigger] p[i][j] != ':' && p[i][j] != '-',
    ensures
        ({
            let s = p[0] + seq![c[0]] + p[1] + seq![c[1]] + p[2] + seq![c[2]] + p[3] + seq![c[3]]
                + p[4] + seq![c[4]] + p[5];
            &&& mac_error(s) is None <==> {
                &&& forall|i: int| 0 <= i < 6 ==> crate::text::parsed(#[trigger] p[i], 16, 255) is Some
                &&& crate::text::parsed(p[0], 16, 255).unwrap() % 2 == 0
            }
            &&& mac_error(s) is None ==> mac_octets(s).len() == 6 && forall|i: int|
                0 <= i < 6 ==> crate::text::parsed(p[i], 16, 255) == Some(
                    #[trigger] mac_octets(s)[i] as nat,
                )
        }),
{
    let s1 = p[0] + seq![c[0]] + p[1];
    let s2 = s1 + seq![c[1]] + p[2];
    let s3 = s2 + seq![c[2]] + p[3];
    let s4 = s3 + seq![c[3]] + p[4];
    let s = s4 + seq![c[4]] + p[5];
    law_separators_part_the_pieces(p[0], c[0], p[1], ':', '-');
    law_separators_part_the_pieces(p[1], c[1], p[2], ':', '-');
    law_separators_part_the_pieces(p[2], c[1], p[2], ':', '-');
    law_separators_part_the_pieces(p[3], c[1], p[2], ':', '-');
    law_separators_part_the_pieces(p[4], c[1], p[2], ':', '-');
    law_separators_part_the_pieces(p[5], c[1], p[2], ':', '-');
    law_separators_part_the_pieces(s1, c[1], p[2], ':', '-');
    law_separators_part_the_pieces(s2, c[2], p[3], ':', '-');
    law_separators_part_the_pieces(s3, c[3], p[4], ':', '-');
    law_separators_part_the_pieces(s4, c[4], p[5], ':', '-');
    let parts = pieces(s, ':', '-');
    assert(parts =~= p);
    lemma_first_bad_octet(p, 0);
    if mac_error(s) is None {
        assert forall|i: int| 0 <= i < 6 implies crate::text::parsed(p[i], 16, 255) == Some(
            #[trigger] mac_octets(s)[i] as nat,
        ) by {
            lemma_no_bad_octet(p, 0, i);
        }
    }
}

proof fn lemma_first_bad_octet(parts: Seq<Seq<char>>, from: int)
    requires
        0 <= from <= parts.len(),
    ensures
        first_bad_octet(parts, from) is None <==> forall|i: int|
            from <= i < parts.len() ==> crate::text::parsed(#[trigger] parts[i], 16, 255) is Some,
        first_bad_octet(parts, from) matches Some(i) ==> from <= i < parts.len()
            && crate::text::parsed(parts[i], 16, 255) is None && forall|j: int|
            from <= j < i ==> crate::text::parsed(#[trigger] parts[j], 16, 255) is Some,
    decreases parts.len() - from,
{
    if from < parts.len() {
        lemma_first_bad_octet(parts, from + 1);
    }
}

/// An accepted station address has five separators, and one with the low bit of the first
/// octet set is never accepted.
pub proof fn law_accepted_station_addresses(s: Seq<char>)
    requires
        mac_error(s) is None,
    ensures
        pieces(s, ':', '-').len() == 6,
        mac_octets(s).len() == 6,
        mac_octets(s)[0] % 2 == 0,
{
    lemma_no_bad_octet(pieces(s, ':', '-'), 0, 0);
}

/// Parses `"00:80:19:12:34:56"` (or `-` separated) into six octets.
pub fn parse_mac(s: &str) -> (r: Result<[u8; 6], String>)
    ensures
        match r {
            Ok(mac) => mac_error(s@) is None && mac@ == mac_octets(s@),
            Err(e) => mac_error(s@) == Some(e@),
        },
{
    let cs = chars_of(s);
    let parts = split_pieces(&cs, ':', '-');
    let ghost specs = pieces(s@, ':', '-');
    if parts.len() != 6 {
        let mut e = owned("\"");
        e.append(s);
        e.append("\" is not a MAC address (expected six octets)");
        return Err(e);
    }
    let mut mac: [u8; 6] = [0;6];
    let mut i: usize = 0;
    while i < 6
        invariant
            i <= 6,
            parts.len() == 6,
            specs.len() == 6,
            specs == pieces(s@, ':', '-'),
            mac.len() == 6,
            forall|k: int| 0 <= k < 6 ==> (#[trigger] parts[k])@ == specs[k],
            first_bad_octet(specs, 0) == first_bad_octet(specs, i as int),
            forall|k: int|
                0 <= k < i ==> crate::text::parsed(#[trigger] specs[k], 16, 255) == Some(mac@[k] as nat),
        decreases 6 - i,
    {
        match parse_number(&parts[i], 16, 255) {
            Some(v) => {
                mac[i] = v as u8;
            },
            None => {
                let mut e = owned("\"");
                e.append(s);
                e.append("\" is not a MAC address (bad octet \"");
                let bad = string_of(&parts[i]);
                e.append(bad.as_str());
                e.append("\")");
                return Err(e);
            },
        }
        i = i + 1;
    }
    if mac[0] % 2 == 1 {
        let mut e = owned(s);
        e.append(
            " is a multicast address; a station MAC must have bit 0 of the first octet clear",
        );
        return Err(e);
    }
    proof {
        assert(mac@ =~= mac_octets(s@));
    }
    Ok(mac)
}

// ---------------------------------------------------------------------------
// IPv4 addresses
// ---------------------------------------------------------------------------

/// An IPv4 address, most significant octet first.
#[derive(Clone, Copy, Debug, PartialEq, Eq, PartialOrd, Ord, Hash, Structural)]
pub struct Ipv4Addr(pub u32);

/// The address with these octets.
pub open spec fn address(a: int, b: int, c: int, d: int) -> int {
    a * 0x100_0000 + b * 0x1_0000 + c * 0x100 + d
}

impl Ipv4Addr {
    /// The address `a.b.c.d`.
    pub fn new(a: u8, b: u8, c: u8, d: u8) -> (r: Self)
        ensures
            r.0 == address(a as int, b as int, c as int, d as int),
    {
        Ipv4Addr(a as u32 * 0x100_0000 + b as u32 * 0x1_0000 + c as u32 * 0x100 + d as u32)
    }

    /// The address in dotted decimal.
    pub open spec fn dotted(self) -> Seq<char> {
        crate::text::decimal((self.0 / 0x100_0000) as nat) + seq!['.'] + crate::text::decimal(
            (self.0 / 0x1_0000 % 0x100) as nat,
        ) + seq!['.'] + crate::text::decimal((self.0 / 0x100 % 0x100) as nat) + seq!['.'] + crate::text::decimal(
            (self.0 % 0x100) as nat,
        )
    }

    /// Appends the address in dotted decimal.
    pub fn push_dotted(&self, out: &mut String)
        ensures
            final(out)@ == old(out)@ + self.dotted(),
    {
        let ghost before = out@;
        push_decimal(out, (self.0 / 0x100_0000) as u64);
        out.push('.');
        push_decimal(out, (self.0 / 0x1_0000 % 0x100) as u64);
        out.push('.');
        push_decimal(out, (self.0 / 0x100 % 0x100) as u64);
        out.push('.');
        push_decimal(out, (self.0 % 0x100) as u64);
        proof {
            assert(out@ =~= before + self.dotted());
        }
    }

    /// The address in dotted decimal.
    pub fn to_text(&self) -> (r: String)
        ensures
            r@ == self.dotted(),
    {
        let mut out = String::new();
        self.push_dotted(&mut out);
        proof {
            assert(out@ =~= self.dotted());
        }
        out
    }
}

/// A decimal octet: one to three digits, no zero in front of another digit, at
/// most 255.
pub open spec fn is_octet(s: Seq<char>) -> bool {
    &&& 1 <= s.len() <= 3
    &&& crate::text::all_digits(s, 10)
    &&& s.len() > 1 ==> s[0] != '0'
    &&& crate::text::number_value(s, 10) <= 255
}

/// The IPv4 address that `s` writes in dotted decimal, if it writes one.
pub open spec fn ipv4_of(s: Seq<char>) -> Option<Ipv4Addr> {
    let parts = pieces(s, '.', '.');
    if parts.len() == 4 && is_octet(parts[0]) && is_octet(parts[1]) && is_octet(parts[2])
        && is_octet(parts[3]) {
        Some(
            Ipv4Addr(
                address(
                    crate::text::number_value(parts[0], 10) as int,
                    crate::text::number_value(parts[1], 10) as int,
                    crate::text::number_value(parts[2], 10) as int,
                    crate::text::number_value(parts[3], 10) as int,
                ) as u32,
            ),
        )
    } else {
        None
    }
}

/// The octets of a number that four octets make.
proof fn lemma_octets_of(x: u32, a: u8, b: u8, c: u8, d: u8)
    requires
        x == a * 0x100_0000 + b * 0x1_0000 + c * 0x100 + d,
    ensures
        x / 0x100_0000 == a,
        x / 0x1_0000 % 0x100 == b,
        x / 0x100 % 0x100 == c,
        x % 0x100 == d,
{
    assert(x / 0x100_0000 == a && x / 0x1_0000 % 0x100 == b && x / 0x100 % 0x100 == c && x % 0x100
        == d) by (bit_vector)
        requires
            x == a * 0x100_0000 + b * 0x1_0000 + c * 0x100 + d,
    ;
}

/// A number is what its four octets make.
proof fn lemma_made_of_octets(x: u32)
    ensures
        x == (x / 0x100_0000) * 0x100_0000 + (x / 0x1_0000 % 0x100) * 0x1_0000 + (x / 0x100 % 0x100)
            * 0x100 + x % 0x100,
        x / 0x100_0000 < 256,
{
    assert(x == (x / 0x100_0000) * 0x100_0000 + (x / 0x1_0000 % 0x100) * 0x1_0000 + (x / 0x100
        % 0x100) * 0x100 + x % 0x100 && x / 0x100_0000 < 256) by (bit_vector);
}

/// The octets of an address stand in it most significant first, and it is shown by them in
/// decimal with dots between.
pub proof fn law_octets_of_an_address(a: u8, b: u8, c: u8, d: u8)
    ensures
        ({
            let addr = Ipv4Addr(address(a as int, b as int, c as int, d as int) as u32);
            &&& addr.0 == 0x100_0000 * a + 0x1_0000 * b + 0x100 * c + d
            &&& addr.dotted() == crate::text::decimal(a as nat) + seq!['.'] + crate::text::decimal(
                b as nat,
            ) + seq!['.'] + crate::text::decimal(c as nat) + seq!['.'] + crate::text::decimal(
                d as nat,
            )
        }),
{
    let addr = Ipv4Addr(address(a as int, b as int, c as int, d as int) as u32);
    lemma_octets_of(addr.0, a, b, c, d);
}

/// Every address reads back from its text.
pub proof fn law_addresses_read_back(addr: Ipv4Addr)
    ensures
        ipv4_of(addr.dotted()) == Some(addr),
{
    let a = (addr.0 / 0x100_0000) as nat;
    let b = (addr.0 / 0x1_0000 % 0x100) as nat;
    let c = (addr.0 / 0x100 % 0x100) as nat;
    let d = (addr.0 % 0x100) as nat;
    lemma_made_of_octets(addr.0);
    lemma_decimal_octet(a);
    lemma_decimal_octet(b);
    lemma_decimal_octet(c);
    lemma_decimal_octet(d);
    let p0 = crate::text::decimal(a);
    let p1 = crate::text::decimal(b);
    let p2 = crate::text::decimal(c);
    let p3 = crate::text::decimal(d);
    law_separators_part_the_pieces(p0, '.', p1, '.', '.');
    law_separators_part_the_pieces(p1, '.', p1, '.', '.');
    law_separators_part_the_pieces(p2, '.', p1, '.', '.');
    law_separators_part_the_pieces(p3, '.', p1, '.', '.');
    let s1 = p0 + seq!['.'] + p1;
    let s2 = s1 + seq!['.'] + p2;
    law_separators_part_the_pieces(s1, '.', p2, '.', '.');
    law_separators_part_the_pieces(s2, '.', p3, '.', '.');
    assert(pieces(addr.dotted(), '.', '.') =~= seq![p0, p1, p2, p3]);
}

/// A number of an octet in decimal has no dot in it, and is one.
proof fn lemma_decimal_octet(n: nat)
    requires
        n < 256,
    ensures
        is_octet(crate::text::decimal(n)),
        crate::text::number_value(crate::text::decimal(n), 10) == n,
        forall|i: int|
            0 <= i < crate::text::decimal(n).len() ==> #[trigger] crate::text::decimal(n)[i]
                != '.',
{
    crate::text::lemma_decimal_digits(n);
    crate::text::law_decimal_digits(n);
    assert(crate::text::decimal(n).len() <= 3) by {
        reveal_with_fuel(crate::text::decimal, 4);
    }
    assert forall|i: int| 0 <= i < crate::text::decimal(n).len() implies #[trigger] crate::text::decimal(
        n,
    )[i] != '.' by {
        assert(crate::text::digit_value(crate::text::decimal(n)[i], 10) is Some);
    }
}

/// An octet is written as its number is: without a sign or a zero in front.
proof fn lemma_octet_is_decimal(s: Seq<char>)
    requires
        is_octet(s),
    ensures
        s == crate::text::decimal(crate::text::number_value(s, 10)),
{
    reveal_with_fuel(crate::text::number_value, 4);
    reveal_with_fuel(crate::text::decimal, 4);
    assert(crate::text::digit_value(s[0], 10) is Some);
    if s.len() == 1 {
        assert(s.drop_last() =~= seq![]);
        assert(s =~= seq![s[0]]);
    } else if s.len() == 2 {
        assert(crate::text::digit_value(s[1], 10) is Some);
        assert(s.drop_last() =~= seq![s[0]]);
        assert(s.drop_last().drop_last() =~= seq![]);
        assert(s =~= seq![s[0], s[1]]);
        assert(s =~= crate::text::decimal(crate::text::number_value(s, 10)));
    } else {
        assert(crate::text::digit_value(s[1], 10) is Some);
        assert(crate::text::digit_value(s[2], 10) is Some);
        assert(s.drop_last() =~= seq![s[0], s[1]]);
        assert(s.drop_last().drop_last() =~= seq![s[0]]);
        assert(s.drop_last().drop_last().drop_last() =~= seq![]);
        assert(s =~= crate::text::decimal(crate::text::number_value(s, 10)));
    }
}

/// An address has one text: what reads as an address is the text that is shown of it. So a
/// text with a zero in front of an octet, with a blank or a sign, or with another number of
/// octets is none.
pub proof fn law_addresses_have_one_text(s: Seq<char>)
    requires
        ipv4_of(s) is Some,
    ensures
        s == (ipv4_of(s)->0).dotted(),
{
    let p = pieces(s, '.', '.');
    lemma_rejoined(s, '.');
    lemma_octet_is_decimal(p[0]);
    lemma_octet_is_decimal(p[1]);
    lemma_octet_is_decimal(p[2]);
    lemma_octet_is_decimal(p[3]);
    reveal_with_fuel(rejoined, 5);
    assert(p.drop_last().drop_last().drop_last() =~= seq![p[0]]);
    assert(p.drop_last().drop_last().last() == p[1]);
    assert(p.drop_last().last() == p[2]);
    let a = ipv4_of(s)->0;
    let n0 = crate::text::number_value(p[0], 10) as u8;
    let n1 = crate::text::number_value(p[1], 10) as u8;
    let n2 = crate::text::number_value(p[2], 10) as u8;
    let n3 = crate::text::number_value(p[3], 10) as u8;
    lemma_octets_of(a.0, n0, n1, n2, n3);
    assert(s =~= a.dotted());
}

fn parse_octet(s: &[char]) -> (r: Option<u8>)
    ensures
        match r {
            Some(v) => is_octet(s@) && crate::text::number_value(s@, 10) == v,
            None => !is_octet(s@),
        },
{
    if s.len() == 0 || s.len() > 3 {
        return None;
    }
    if s[0] == '+' {
        proof {
            assert(crate::text::digit_value(s@[0], 10) is None);
        }
        return None;
    }
    if s.len() > 1 && s[0] == '0' {
        return None;
    }
    match parse_number(s, 10, 255) {
        Some(v) => Some(v as u8),
        None => None,
    }
}

/// Parses an IPv4 address in dotted decimal.
pub fn parse_ipv4(s: &[char]) -> (r: Option<Ipv4Addr>)
    ensures
        r == ipv4_of(s@),
{
    let parts = split_pieces(s, '.', '.');
    if parts.len() != 4 {
        return None;
    }
    let a = parse_octet(&parts[0]);
    let b = parse_octet(&parts[1]);
    let c = parse_octet(&parts[2]);
    let d = parse_octet(&parts[3]);
    match (a, b, c, d) {
        (Some(a), Some(b), Some(c), Some(d)) => Some(Ipv4Addr::new(a, b, c, d)),
        _ => None,
    }
}

// ---------------------------------------------------------------------------
// Subnets
// ---------------------------------------------------------------------------

/// The addresses in a subnet with this prefix length.
pub open spec fn span(prefix: int) -> int {
    vstd::arithmetic::power2::pow2((32 - prefix) as nat) as int
}

/// The address part and the prefix part of `addr/prefix`.
pub open spec fn cidr_parts(cidr: Seq<char>) -> Option<(Seq<char>, Seq<char>)> {
    match crate::text::first_at(cidr, '/', 0) {
        Some(i) => Some((cidr.take(i), cidr.skip(i + 1))),
        None => None,
    }
}

/// What is wrong with `cidr` as a subnet, if anything: no slash, no address, no
/// prefix length, a prefix that leaves no room for two hosts, or an address that
/// is not the first of its subnet.
pub open spec fn subnet_error(cidr: Seq<char>) -> Option<Seq<char>> {
    match cidr_parts(cidr) {
        None => Some("expected format IP/PREFIX (e.g. 192.168.5.0/24)"@),
        Some((addr, prefix)) => match ipv4_of(addr) {
            None => Some("invalid IPv4 address \""@ + addr + "\""@),
            Some(base) => match crate::text::parsed(prefix, 10, 255) {
                None => Some("invalid prefix length \""@ + prefix + "\""@),
                Some(p) => if p > 30 {
                    Some("prefix /"@ + crate::text::decimal(p) + " is too small (minimum /30)"@)
                } else if base.0 as int % span(p as int) != 0 {
                    let network = base.0 as int - base.0 as int % span(p as int);
                    let shown = Ipv4Addr((network - network % 256) as u32);
                    Some(
                        "address "@ + base.dotted() + " is not the network address for /"@
                            + crate::text::decimal(p) + " (did you mean "@ + shown.dotted() + ".0/"@ + crate::text::decimal(p)
                            + "?)"@,
                    )
                } else {
                    None
                },
            },
        },
    }
}

/// The first address of the subnet that `cidr` writes.
pub open spec fn subnet_base(cidr: Seq<char>) -> int {
    ipv4_of(cidr_parts(cidr).unwrap().0).unwrap().0 as int
}

/// The prefix length of the subnet that `cidr` writes.
pub open spec fn subnet_prefix(cidr: Seq<char>) -> int {
    crate::text::parsed(cidr_parts(cidr).unwrap().1, 10, 255).unwrap() as int
}

/// How many addresses there can be in a subnet that has hosts.
pub proof fn lemma_span(prefix: int)
    requires
        0 <= prefix <= 30,
    ensures
        4 <= span(prefix) <= 0x1_0000_0000,
        prefix >= 1 ==> span(prefix) <= 0x8000_0000,
{
    vstd::arithmetic::power2::lemma2_to64();
    let e = (32 - prefix) as nat;
    if e > 2 {
        vstd::arithmetic::power2::lemma_pow2_strictly_increases(2, e);
    }
    if e < 32 {
        vstd::arithmetic::power2::lemma_pow2_strictly_increases(e, 32);
        if e < 31 {
            vstd::arithmetic::power2::lemma_pow2_strictly_increases(e, 31);
        }
    }
}

/// The addresses in a subnet with this prefix length.
pub fn span_of(prefix: u32) -> (r: u64)
    requires
        prefix <= 32,
    ensures
        r == span(prefix as int),
{
    let mut r: u64 = 1;
    let mut e: u32 = 0;
    proof {
        vstd::arithmetic::power2::lemma2_to64();
    }
    while e < 32 - prefix
        invariant
            prefix <= 32,
            e <= 32 - prefix,
            r == vstd::arithmetic::power2::pow2(e as nat),
            r <= 0x1_0000_0000,
        decreases 32 - prefix - e,
    {
        proof {
            vstd::arithmetic::power2::lemma_pow2_unfold((e + 1) as nat);
            vstd::arithmetic::power2::lemma2_to64();
            if e + 1 < 32 {
                vstd::arithmetic::power2::lemma_pow2_strictly_increases((e + 1) as nat, 32);
            }
        }
        r = r * 2;
        e = e + 1;
    }
    r
}

/// The gateway, the client and the netmask of the subnet that `cidr` writes.
pub open spec fn hosts_of(cidr: Seq<char>) -> (int, int, int) {
    (
        subnet_base(cidr) + 1,
        subnet_base(cidr) + 2,
        0x1_0000_0000 - span(subnet_prefix(cidr)),
    )
}

/// Parses a subnet such as `192.168.5.0/24` and gives `(gateway, client,
/// netmask)`, where the gateway is the first host and the client the second.
pub fn parse_nat_subnet(cidr: &str) -> (r: Result<(Ipv4Addr, Ipv4Addr, Ipv4Addr), String>)
    ensures
        match r {
            Ok((gateway, client, netmask)) => {
                &&& subnet_error(cidr@) is None
                &&& gateway.0 == subnet_base(cidr@) + 1
                &&& client.0 == subnet_base(cidr@) + 2
                &&& netmask.0 == 0x1_0000_0000 - span(subnet_prefix(cidr@))
                &&& (gateway.0 as int, client.0 as int, netmask.0 as int) == hosts_of(cidr@)
            },
            Err(e) => subnet_error(cidr@) == Some(e@),
        },
{
    let cs = chars_of(cidr);
    let slash: usize = match find_char(&cs, '/') {
        Some(i) => i,
        None => {
            return Err(owned("expected format IP/PREFIX (e.g. 192.168.5.0/24)"));
        },
    };
    let addr = slice_of(&cs, 0, slash);
    let prefix_text = slice_of(&cs, slash + 1, cs.len());
    proof {
        assert(addr@ =~= cidr@.take(slash as int));
        assert(prefix_text@ =~= cidr@.skip(slash + 1));
    }
    let base = match parse_ipv4(&addr) {
        Some(base) => base,
        None => {
            let mut e = owned("invalid IPv4 address \"");
            let text = string_of(&addr);
            e.append(text.as_str());
            e.append("\"");
            return Err(e);
        },
    };
    let prefix: u64 = match parse_number(&prefix_text, 10, 255) {
        Some(prefix) => prefix,
        None => {
            let mut e = owned("invalid prefix length \"");
            let text = string_of(&prefix_text);
            e.append(text.as_str());
            e.append("\"");
            return Err(e);
        },
    };
    if prefix > 30 {
        let mut e = owned("prefix /");
        push_decimal(&mut e, prefix);
        e.append(" is too small (minimum /30)");
        return Err(e);
    }
    proof {
        lemma_span(prefix as int);
    }
    let size: u64 = span_of(prefix as u32);
    let rest: u64 = base.0 as u64 % size;
    proof {
        vstd::arithmetic::div_mod::lemma_mod_decreases(base.0 as nat, size as nat);
    }
    if rest != 0 {
        let network: u32 = base.0 - rest as u32;
        let shown = Ipv4Addr(network - network % 256);
        let mut e = owned("address ");
        base.push_dotted(&mut e);
        e.append(" is not the network address for /");
        push_decimal(&mut e, prefix);
        e.append(" (did you mean ");
        shown.push_dotted(&mut e);
        e.append(".0/");
        push_decimal(&mut e, prefix);
        e.append("?)");
        return Err(e);
    }
    proof {
        lemma_last_address(base.0 as int, size as int);
    }
    Ok((Ipv4Addr(base.0 + 1), Ipv4Addr(base.0 + 2), Ipv4Addr((0x1_0000_0000 - size) as u32)))
}

/// One bit more of prefix halves a subnet, down to a single address.
pub proof fn law_subnets_halve(prefix: int)
    requires
        1 <= prefix <= 32,
    ensures
        span(prefix - 1) == 2 * span(prefix),
        span(32) == 1,
{
    vstd::arithmetic::power2::lemma_pow2_unfold((33 - prefix) as nat);
    vstd::arithmetic::power2::lemma2_to64();
}

/// No slash stands in the text of an address.
proof fn lemma_no_slash(addr: Ipv4Addr)
    ensures
        forall|k: int| 0 <= k < addr.dotted().len() ==> #[trigger] addr.dotted()[k] != '/',
{
    let front = addr.dotted();
    let a = crate::text::decimal((addr.0 / 0x100_0000) as nat);
    let b = crate::text::decimal((addr.0 / 0x1_0000 % 0x100) as nat);
    let c = crate::text::decimal((addr.0 / 0x100 % 0x100) as nat);
    let d = crate::text::decimal((addr.0 % 0x100) as nat);
    crate::text::lemma_decimal_digits((addr.0 / 0x100_0000) as nat);
    crate::text::lemma_decimal_digits((addr.0 / 0x1_0000 % 0x100) as nat);
    crate::text::lemma_decimal_digits((addr.0 / 0x100 % 0x100) as nat);
    crate::text::lemma_decimal_digits((addr.0 % 0x100) as nat);
    assert forall|k: int| 0 <= k < front.len() implies #[trigger] front[k] != '/' by {
        let n1 = a.len() as int;
        let n2 = n1 + 1 + b.len();
        let n3 = n2 + 1 + c.len();
        if k < n1 {
            assert(front[k] == a[k]);
            assert(crate::text::digit_value(a[k], 10) is Some);
        } else if n1 < k < n2 {
            assert(front[k] == b[k - n1 - 1]);
            assert(crate::text::digit_value(b[k - n1 - 1], 10) is Some);
        } else if n2 < k < n3 {
            assert(front[k] == c[k - n2 - 1]);
            assert(crate::text::digit_value(c[k - n2 - 1], 10) is Some);
        } else if k > n3 {
            assert(front[k] == d[k - n3 - 1]);
            assert(crate::text::digit_value(d[k - n3 - 1], 10) is Some);
        }
    }
}

/// A subnet that is written as an address, a slash and a prefix length is accepted exactly if
/// the length is at most 30 and the address is a multiple of the subnet's size; it is then the
/// subnet of that address and that length.
pub proof fn law_subnets_are_read(addr: Ipv4Addr, prefix: u8)
    ensures
        ({
            let cidr = addr.dotted() + seq!['/'] + crate::text::decimal(prefix as nat);
            &&& subnet_error(cidr) is None <==> prefix <= 30 && addr.0 as int % span(
                prefix as int,
            ) == 0
            &&& subnet_base(cidr) == addr.0
            &&& subnet_prefix(cidr) == prefix
        }),
{
    let front = addr.dotted();
    let back = crate::text::decimal(prefix as nat);
    let cidr = front + seq!['/'] + back;
    law_addresses_read_back(addr);
    crate::text::law_decimal_round_trip(prefix as nat, 255);
    crate::text::law_first_place(cidr, '/', 0);
    lemma_no_slash(addr);
    assert forall|k: int| 0 <= k < front.len() implies #[trigger] cidr[k] != '/' by {
        assert(cidr[k] == front[k]);
    }
    assert(cidr[front.len() as int] == '/');
    assert(crate::text::first_at(cidr, '/', 0) == Some(front.len() as int));
    assert(cidr.take(front.len() as int) =~= front);
    assert(cidr.skip(front.len() as int + 1) =~= back);
}

/// A subnet whose address is one is accepted exactly if what stands behind the slash is a
/// number, however it is written, of at most 30, and the address is a multiple of the subnet's
/// size.
pub proof fn law_prefixes_are_read(addr: Ipv4Addr, text: Seq<char>)
    ensures
        ({
            let cidr = addr.dotted() + seq!['/'] + text;
            let prefix = crate::text::parsed(text, 10, 255);
            &&& subnet_error(cidr) is None <==> (prefix matches Some(p) && p <= 30 && addr.0 as int
                % span(p as int) == 0)
            &&& subnet_error(cidr) is None ==> subnet_base(cidr) == addr.0 && subnet_prefix(cidr)
                == prefix->0
        }),
{
    let front = addr.dotted();
    let cidr = front + seq!['/'] + text;
    law_addresses_read_back(addr);
    lemma_no_slash(addr);
    crate::text::law_first_place(cidr, '/', 0);
    assert forall|k: int| 0 <= k < front.len() implies #[trigger] cidr[k] != '/' by {
        assert(cidr[k] == front[k]);
    }
    assert(cidr[front.len() as int] == '/');
    assert(crate::text::first_at(cidr, '/', 0) == Some(front.len() as int));
    assert(cidr.take(front.len() as int) =~= front);
    assert(cidr.skip(front.len() as int + 1) =~= text);
}

/// The gateway of a subnet is its first host and the client its second, and the netmask has as
/// many addresses above it as the subnet has.
pub proof fn law_hosts_of_a_subnet(addr: Ipv4Addr, prefix: u8)
    requires
        prefix <= 30,
    ensures
        ({
            let (gateway, client, netmask) = hosts_of(
                addr.dotted() + seq!['/'] + crate::text::decimal(prefix as nat),
            );
            &&& gateway == addr.0 + 1
            &&& client == addr.0 + 2
            &&& netmask + vstd::arithmetic::power2::pow2((32 - prefix) as nat) == 0x1_0000_0000
        }),
{
    law_subnets_are_read(addr, prefix);
}

/// An accepted subnet is written as its first address, a slash and its prefix length.
pub proof fn law_accepted_subnets(cidr: Seq<char>)
    requires
        subnet_error(cidr) is None,
    ensures
        0 <= subnet_prefix(cidr) <= 30,
        0 <= subnet_base(cidr) <= 0xFFFF_FFFF,
        crate::text::begins_with(
            cidr,
            Ipv4Addr(subnet_base(cidr) as u32).dotted() + seq!['/'],
        ),
        crate::text::parsed(
            cidr.skip(Ipv4Addr(subnet_base(cidr) as u32).dotted().len() as int + 1),
            10,
            255,
        ) == Some(subnet_prefix(cidr) as nat),
        subnet_base(cidr) % span(subnet_prefix(cidr)) == 0,
{
    crate::text::law_first_place(cidr, '/', 0);
    let i = crate::text::first_at(cidr, '/', 0)->0;
    law_addresses_have_one_text(cidr.take(i));
    assert(cidr.take(i) + seq!['/'] =~= cidr.take(i + 1));
}

/// The gateway and the client of a subnet are distinct hosts of it: neither is
/// its network address or its broadcast address, and the netmask gives both the
/// same network.
pub proof fn law_gateway_and_client_share_the_subnet(cidr: Seq<char>)
    requires
        subnet_error(cidr) is None,
    ensures
        ({
            let base = subnet_base(cidr);
            let size = span(subnet_prefix(cidr));
            &&& base % size == 0
            &&& base < base + 1 < base + 2 < base + size - 1 <= 0xFFFF_FFFF
            &&& (base + 1) / size == base / size
            &&& (base + 2) / size == base / size
        }),
{
    let base = subnet_base(cidr);
    let p = subnet_prefix(cidr);
    let size = span(p);
    lemma_span(p);
    assert(size == vstd::arithmetic::power2::pow2((32 - p) as nat));
    lemma_last_address(base, size);
    vstd::arithmetic::div_mod::lemma_fundamental_div_mod(base, size);
    let q = base / size;
    assert(base == q * size) by (nonlinear_arith)
        requires
            base == size * q,
    ;
    vstd::arithmetic::div_mod::lemma_fundamental_div_mod_converse(base + 1, size, q, 1);
    vstd::arithmetic::div_mod::lemma_fundamental_div_mod_converse(base + 2, size, q, 2);
}

/// A multiple of `size` below 2^32 leaves room for `size` addresses, where `size`
/// divides 2^32.
proof fn lemma_last_address(base: int, size: int)
    requires
        0 <= base <= 0xFFFF_FFFF,
        4 <= size <= 0x1_0000_0000,
        base % size == 0,
        exists|e: nat| e <= 32 && size == vstd::arithmetic::power2::pow2(e),
    ensures
        base + size - 1 <= 0xFFFF_FFFF,
{
    let e = choose|e: nat| e <= 32 && size == vstd::arithmetic::power2::pow2(e);
    vstd::arithmetic::power2::lemma2_to64();
    vstd::arithmetic::power2::lemma_pow2_adds(e, (32 - e) as nat);
    let k = vstd::arithmetic::power2::pow2((32 - e) as nat) as int;
    let q = base / size;
    vstd::arithmetic::div_mod::lemma_fundamental_div_mod(base, size);
    assert(q <= k - 1) by (nonlinear_arith)
        requires
            size * q <= 0xFFFF_FFFF,
            size * k == 0x1_0000_0000,
            size > 0,
    ;
    assert(size * q <= size * (k - 1)) by (nonlinear_arith)
        requires
            q <= k - 1,
            size > 0,
    ;
    assert(size * (k - 1) == size * k - size) by (nonlinear_arith);
}

} // verus!
