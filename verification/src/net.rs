//! IP addresses: their textual form, both ways.
//!
//! The accepted notations are the usual ones: dotted decimal without leading
//! zeros for IPv4, colon-separated hexadecimal groups with at most one `::` and
//! an optional trailing dotted quad for IPv6. Rendering compresses the first
//! longest run of at least two zero groups.

use crate::text::{dec, parse_digits, split, split_once, to_chars};
use vstd::prelude::*;

verus! {

/// An IPv4 address, by its four octets.
#[derive(Debug, Clone, Copy, PartialEq, Eq, Structural)]
pub struct Ipv4Addr {
    pub a: u8,
    pub b: u8,
    pub c: u8,
    pub d: u8,
}

/// An IPv6 address, by its eight 16-bit groups.
#[derive(Debug, Clone, Copy, PartialEq, Eq, Structural)]
pub struct Ipv6Addr {
    pub g0: u16,
    pub g1: u16,
    pub g2: u16,
    pub g3: u16,
    pub g4: u16,
    pub g5: u16,
    pub g6: u16,
    pub g7: u16,
}

/// An IP address of either family.
#[derive(Debug, Clone, Copy, PartialEq, Eq, Structural)]
pub enum IpAddr {
    V4(Ipv4Addr),
    V6(Ipv6Addr),
}

// ---- the notation ------------------------------------------------------

/// The value of a hexadecimal digit.
pub open spec fn hex_digit_value(c: char) -> Option<int> {
    if '0' <= c <= '9' {
        Some(c as int - '0' as int)
    } else if 'a' <= c <= 'f' {
        Some(c as int - 'a' as int + 10)
    } else if 'A' <= c <= 'F' {
        Some(c as int - 'A' as int + 10)
    } else {
        None
    }
}

/// The number that the hexadecimal digits `s` spell.
pub open spec fn hex_value(s: Seq<char>) -> Option<int>
    decreases s.len(),
{
    if s.len() == 0 {
        Some(0)
    } else {
        match (hex_value(s.drop_last()), hex_digit_value(s.last())) {
            (Some(v), Some(d)) => Some(v * 16 + d),
            _ => None,
        }
    }
}

/// One octet of a dotted quad: one to three digits, no leading zero, at most 255.
pub open spec fn octet(s: Seq<char>) -> Option<int> {
    if 1 <= s.len() <= 3 && !(s.len() > 1 && s[0] == '0') {
        match crate::text::digits_value(s, 255) {
            Ok(v) => Some(v),
            Err(_) => None,
        }
    } else {
        None
    }
}

/// One group of an IPv6 address: one to four hexadecimal digits.
pub open spec fn group(s: Seq<char>) -> Option<int> {
    if 1 <= s.len() <= 4 {
        hex_value(s)
    } else {
        None
    }
}

/// The IPv4 address that `s` denotes.
pub open spec fn v4_of(s: Seq<char>) -> Option<Ipv4Addr> {
    let p = crate::text::pieces(s, '.');
    if p.len() == 4 {
        match (octet(p[0]), octet(p[1]), octet(p[2]), octet(p[3])) {
            (Some(a), Some(b), Some(c), Some(d)) => Some(
                (Ipv4Addr { a: a as u8, b: b as u8, c: c as u8, d: d as u8 }),
            ),
            _ => None,
        }
    } else {
        None
    }
}

/// The groups spelled by a list of pieces; the last piece may be a dotted quad
/// where `quad` allows it.
pub open spec fn groups_in(p: Seq<Seq<char>>, quad: bool) -> Option<Seq<int>>
    decreases p.len(),
{
    if p.len() == 0 {
        Some(Seq::empty())
    } else {
        match groups_in(p.drop_last(), false) {
            None => None,
            Some(g) => match group(p.last()) {
                Some(v) => Some(g.push(v)),
                None => match v4_of(p.last()) {
                    Some(q) if quad => Some(
                        g.push(q.a as int * 256 + q.b as int).push(q.c as int * 256 + q.d as int),
                    ),
                    _ => None,
                },
            },
        }
    }
}

/// The colon-separated groups of `s`; none for the empty string.
pub open spec fn groups_of(s: Seq<char>, quad: bool) -> Option<Seq<int>> {
    if s.len() == 0 {
        Some(Seq::empty())
    } else {
        groups_in(crate::text::pieces(s, ':'), quad)
    }
}

pub open spec fn zeros(n: int) -> Seq<int> {
    Seq::new(n as nat, |i: int| 0int)
}

/// The eight groups that `s` denotes as an IPv6 address.
pub open spec fn v6_groups_of(s: Seq<char>) -> Option<Seq<int>> {
    match crate::text::cut_first(s, "::"@) {
        None => match groups_of(s, true) {
            Some(g) if g.len() == 8 => Some(g),
            _ => None,
        },
        Some((h, t)) => match (groups_of(h, false), groups_of(t, true)) {
            (Some(a), Some(b)) if a.len() + b.len() <= 7 => Some(
                a + zeros(8 - a.len() - b.len()) + b,
            ),
            _ => None,
        },
    }
}

impl Ipv6Addr {
    /// The groups, in order.
    pub open spec fn groups(self) -> Seq<int> {
        seq![
            self.g0 as int,
            self.g1 as int,
            self.g2 as int,
            self.g3 as int,
            self.g4 as int,
            self.g5 as int,
            self.g6 as int,
            self.g7 as int,
        ]
    }
}

pub open spec fn v6_from(g: Seq<int>) -> Ipv6Addr {
    Ipv6Addr {
        g0: g[0] as u16,
        g1: g[1] as u16,
        g2: g[2] as u16,
        g3: g[3] as u16,
        g4: g[4] as u16,
        g5: g[5] as u16,
        g6: g[6] as u16,
        g7: g[7] as u16,
    }
}

/// The address that `s` denotes.
pub open spec fn ip_of(s: Seq<char>) -> Option<IpAddr> {
    match v4_of(s) {
        Some(a) => Some(IpAddr::V4(a)),
        None => match v6_groups_of(s) {
            Some(g) => Some(IpAddr::V6(v6_from(g))),
            None => None,
        },
    }
}

// ---- the rendering -----------------------------------------------------

/// The lower-case hexadecimal digit for `d`.
pub open spec fn hex_char(d: int) -> char {
    if d < 10 {
        ('0' as int + d) as char
    } else {
        ('a' as int + d - 10) as char
    }
}

/// The hexadecimal digits of `n`, without leading zeros.
pub open spec fn hexadecimal(n: int) -> Seq<char>
    decreases n,
{
    if n < 16 {
        seq![hex_char(n)]
    } else {
        hexadecimal(n / 16).push(hex_char(n % 16))
    }
}

impl Ipv4Addr {
    /// The dotted quad.
    pub open spec fn text(self) -> Seq<char> {
        crate::text::decimal(self.a as int) + seq!['.'] + crate::text::decimal(self.b as int)
            + seq!['.'] + crate::text::decimal(self.c as int) + seq!['.'] + crate::text::decimal(
            self.d as int,
        )
    }
}

/// The groups, each in hexadecimal, with colons between them.
pub open spec fn colon_list(g: Seq<int>) -> Seq<char>
    decreases g.len(),
{
    if g.len() == 0 {
        Seq::empty()
    } else if g.len() == 1 {
        hexadecimal(g[0])
    } else {
        colon_list(g.drop_last()) + seq![':'] + hexadecimal(g.last())
    }
}

/// How many zero groups stand at position `i` and behind it without a gap.
pub open spec fn zero_run(g: Seq<int>, i: int) -> int
    decreases g.len() - i,
{
    if 0 <= i < g.len() && g[i] == 0 {
        1 + zero_run(g, i + 1)
    } else {
        0
    }
}

/// The first longest run of zero groups starts at `i`.
pub open spec fn is_best_run(g: Seq<int>, i: int) -> bool {
    &&& 0 <= i < g.len()
    &&& forall|j: int| 0 <= j < g.len() ==> #[trigger] zero_run(g, j) <= zero_run(g, i)
    &&& forall|j: int| 0 <= j < i ==> #[trigger] zero_run(g, j) < zero_run(g, i)
}

/// Whether the address embeds an IPv4 address (`::ffff:a.b.c.d`).
pub open spec fn is_mapped(g: Seq<int>) -> bool {
    g[0] == 0 && g[1] == 0 && g[2] == 0 && g[3] == 0 && g[4] == 0 && g[5] == 0xffff
}

impl Ipv6Addr {
    /// The canonical text of the address.
    pub open spec fn text(self) -> Seq<char> {
        let g = self.groups();
        if is_mapped(g) {
            "::ffff:"@ + (Ipv4Addr {
                a: (g[6] / 256) as u8,
                b: (g[6] % 256) as u8,
                c: (g[7] / 256) as u8,
                d: (g[7] % 256) as u8,
            }).text()
        } else {
            let i = choose|i: int| is_best_run(g, i);
            if zero_run(g, i) > 1 {
                colon_list(g.take(i)) + "::"@ + colon_list(g.skip(i + zero_run(g, i)))
            } else {
                colon_list(g)
            }
        }
    }
}

impl IpAddr {
    /// The canonical text of the address.
    pub open spec fn text(self) -> Seq<char> {
        match self {
            IpAddr::V4(a) => a.text(),
            IpAddr::V6(a) => a.text(),
        }
    }

    /// Whether the address is a loopback address.
    pub open spec fn loopback(self) -> bool {
        match self {
            IpAddr::V4(a) => a.a == 127,
            IpAddr::V6(a) => a.groups() == zeros(7).push(1),
        }
    }
}

// ---- reading -----------------------------------------------------------

fn parse_octet(s: &str) -> (r: Option<u8>)
    ensures
        match r {
            Some(v) => octet(s@) == Some(v as int),
            None => octet(s@) is None,
        },
{
    let cs: Vec<char> = to_chars(s);
    if cs.len() < 1 || cs.len() > 3 || (cs.len() > 1 && cs[0] == '0') {
        return None;
    }
    proof {
        assert(cs@.skip(0) =~= s@);
    }
    match parse_digits(&cs, 0, 255) {
        Ok(v) => Some(v as u8),
        Err(_) => None,
    }
}

/// Reads a dotted quad.
pub fn parse_v4(s: &str) -> (r: Option<Ipv4Addr>)
    ensures
        r == v4_of(s@),
{
    let p: Vec<&str> = split(s, '.');
    if p.len() != 4 {
        return None;
    }
    proof {
        let t = crate::text::texts(p@);
        assert(t[0] == p@[0]@ && t[1] == p@[1]@ && t[2] == p@[2]@ && t[3] == p@[3]@);
    }
    match (parse_octet(p[0]), parse_octet(p[1]), parse_octet(p[2]), parse_octet(p[3])) {
        (Some(a), Some(b), Some(c), Some(d)) => Some(Ipv4Addr { a, b, c, d }),
        _ => None,
    }
}

fn hex_digit(c: char) -> (r: Option<u16>)
    ensures
        match r {
            Some(d) => hex_digit_value(c) == Some(d as int) && d < 16,
            None => hex_digit_value(c) is None,
        },
{
    if c >= '0' && c <= '9' {
        Some((c as u32 - '0' as u32) as u16)
    } else if c >= 'a' && c <= 'f' {
        Some((c as u32 - 'a' as u32 + 10) as u16)
    } else if c >= 'A' && c <= 'F' {
        Some((c as u32 - 'A' as u32 + 10) as u16)
    } else {
        None
    }
}

proof fn lemma_hex_value_none(s: Seq<char>, n: int)
    requires
        0 <= n <= s.len(),
        hex_value(s.take(n)) is None,
    ensures
        hex_value(s) is None,
    decreases s.len() - n,
{
    if n < s.len() {
        assert(s.take(n + 1).drop_last() =~= s.take(n));
        lemma_hex_value_none(s, n + 1);
    } else {
        assert(s.take(n) =~= s);
    }
}

fn parse_group(s: &str) -> (r: Option<u16>)
    ensures
        match r {
            Some(v) => group(s@) == Some(v as int),
            None => group(s@) is None,
        },
{
    let cs: Vec<char> = to_chars(s);
    if cs.len() < 1 || cs.len() > 4 {
        return None;
    }
    let mut v: u32 = 0;
    let mut i: usize = 0;
    let ghost mut bound: int = 1;
    while i < cs.len()
        invariant
            cs@ == s@,
            i <= cs.len() <= 4,
            hex_value(s@.take(i as int)) == Some(v as int),
            v < bound,
            i == 0 ==> bound == 1,
            i == 1 ==> bound == 16,
            i == 2 ==> bound == 256,
            i == 3 ==> bound == 4096,
            i == 4 ==> bound == 65536,
        decreases cs.len() - i,
    {
        proof {
            assert(s@.take(i + 1).drop_last() =~= s@.take(i as int));
            assert(s@.take(i + 1).last() == s@[i as int]);
        }
        match hex_digit(cs[i]) {
            None => {
                proof {
                    lemma_hex_value_none(s@, i + 1);
                }
                return None;
            },
            Some(d) => {
                v = v * 16 + d as u32;
                proof {
                    bound = bound * 16;
                }
            },
        }
        i = i + 1;
    }
    proof {
        assert(s@.take(i as int) =~= s@);
    }
    Some(v as u16)
}

/// The numbers of a list.
pub open spec fn ints(v: Seq<u16>) -> Seq<int> {
    v.map_values(|x: u16| x as int)
}

proof fn lemma_groups_none(p: Seq<Seq<char>>, n: int)
    requires
        0 <= n <= p.len(),
        groups_in(p.take(n), false) is None,
    ensures
        groups_in(p, false) is None,
    decreases p.len() - n,
{
    if n < p.len() {
        assert(p.take(n + 1).drop_last() =~= p.take(n));
        lemma_groups_none(p, n + 1);
    } else {
        assert(p.take(n) =~= p);
    }
}

fn parse_groups(s: &str, quad: bool) -> (r: Option<Vec<u16>>)
    ensures
        match r {
            Some(v) => groups_of(s@, quad) == Some(ints(v@)),
            None => groups_of(s@, quad) is None,
        },
{
    let mut v: Vec<u16> = Vec::new();
    if s.is_empty() {
        proof {
            assert(ints(v@) =~= Seq::<int>::empty());
        }
        return Some(v);
    }
    let parts: Vec<&str> = split(s, ':');
    let ghost p = crate::text::texts(parts@);
    let last: usize = parts.len() - 1;
    let mut i: usize = 0;
    proof {
        assert(p.take(0) =~= Seq::<Seq<char>>::empty());
        assert(ints(v@) =~= Seq::<int>::empty());
    }
    while i < last
        invariant
            p == crate::text::texts(parts@),
            p == crate::text::pieces(s@, ':'),
            s@.len() > 0,
            last == parts.len() - 1,
            i <= last,
            groups_in(p.take(i as int), false) == Some(ints(v@)),
        decreases last - i,
    {
        proof {
            assert(p.take(i + 1).drop_last() =~= p.take(i as int));
            assert(p.take(i + 1).last() == parts@[i as int]@);
        }
        let ghost before = ints(v@);
        match parse_group(parts[i]) {
            None => {
                proof {
                    assert(groups_in(p.take(i + 1), false) is None);
                    assert(p.drop_last().take(i + 1) =~= p.take(i + 1));
                    lemma_groups_none(p.drop_last(), i + 1);
                }
                return None;
            },
            Some(g) => {
                v.push(g);
                proof {
                    assert(ints(v@) =~= before.push(g as int));
                }
            },
        }
        i = i + 1;
    }
    proof {
        assert(p.take(last as int) =~= p.drop_last());
        assert(p.last() == parts@[last as int]@);
    }
    let ghost before = ints(v@);
    match parse_group(parts[last]) {
        Some(g) => {
            v.push(g);
            proof {
                assert(ints(v@) =~= before.push(g as int));
            }
            Some(v)
        },
        None => {
            if !quad {
                return None;
            }
            match parse_v4(parts[last]) {
                None => None,
                Some(q) => {
                    v.push(q.a as u16 * 256 + q.b as u16);
                    v.push(q.c as u16 * 256 + q.d as u16);
                    proof {
                        assert(ints(v@) =~= before.push(q.a as int * 256 + q.b as int).push(
                            q.c as int * 256 + q.d as int,
                        ));
                    }
                    Some(v)
                },
            }
        },
    }
}

fn v6_from_vec(v: &Vec<u16>) -> (r: Ipv6Addr)
    requires
        v@.len() == 8,
    ensures
        r == v6_from(ints(v@)),
        r.groups() == ints(v@),
{
    let r = Ipv6Addr {
        g0: v[0],
        g1: v[1],
        g2: v[2],
        g3: v[3],
        g4: v[4],
        g5: v[5],
        g6: v[6],
        g7: v[7],
    };
    proof {
        assert(r.groups() =~= ints(v@));
    }
    r
}

/// Reads an IPv6 address.
pub fn parse_v6(s: &str) -> (r: Option<Ipv6Addr>)
    ensures
        match r {
            Some(a) => v6_groups_of(s@) == Some(a.groups()) && a == v6_from(a.groups()),
            None => v6_groups_of(s@) is None,
        },
{
    match split_once(s, "::") {
        None => match parse_groups(s, true) {
            None => None,
            Some(v) => {
                if v.len() == 8 {
                    Some(v6_from_vec(&v))
                } else {
                    None
                }
            },
        },
        Some((h, t)) => match (parse_groups(h, false), parse_groups(t, true)) {
            (Some(a), Some(b)) => {
                if a.len() > 7 || b.len() > 7 - a.len() {
                    return None;
                }
                let mut v: Vec<u16> = Vec::new();
                let mut i: usize = 0;
                while i < a.len()
                    invariant
                        i <= a.len(),
                        v@ == a@.take(i as int),
                    decreases a.len() - i,
                {
                    v.push(a[i]);
                    i = i + 1;
                }
                while v.len() + b.len() < 8
                    invariant
                        a.len() <= v.len() <= 8 - b.len(),
                        a.len() + b.len() <= 7,
                        ints(v@) == ints(a@) + zeros(v.len() - a.len()),
                    decreases 8 - b.len() - v.len(),
                {
                    let ghost before = ints(v@);
                    v.push(0);
                    proof {
                        assert(ints(v@) =~= before.push(0));
                        assert(ints(v@) =~= ints(a@) + zeros(v.len() - a.len()));
                    }
                }
                let ghost front = v@;
                let mut i: usize = 0;
                while i < b.len()
                    invariant
                        i <= b.len(),
                        v@ == front + b@.take(i as int),
                    decreases b.len() - i,
                {
                    v.push(b[i]);
                    i = i + 1;
                }
                proof {
                    assert(ints(v@) =~= ints(a@) + zeros(8 - a.len() - b.len()) + ints(b@));
                }
                Some(v6_from_vec(&v))
            },
            _ => None,
        },
    }
}

impl IpAddr {
    /// Reads an address of either family.
    pub fn parse(s: &str) -> (r: Option<IpAddr>)
        ensures
            r == ip_of(s@),
    {
        match parse_v4(s) {
            Some(a) => Some(IpAddr::V4(a)),
            None => match parse_v6(s) {
                Some(a) => Some(IpAddr::V6(a)),
                None => None,
            },
        }
    }
}

// ---- rendering ---------------------------------------------------------

fn hex_to_char(d: u16) -> (r: char)
    requires
        d < 16,
    ensures
        r == hex_char(d as int),
{
    if d < 10 {
        (('0' as u8) + (d as u8)) as char
    } else {
        (('a' as u8) + (d as u8 - 10)) as char
    }
}

/// The hexadecimal digits of `n`.
pub fn hex_digits(n: u16) -> (r: String)
    ensures
        r@ == hexadecimal(n as int),
    decreases n,
{
    if n < 16 {
        let mut s: String = String::new();
        s.push(hex_to_char(n));
        assert(s@ =~= seq![hex_char(n as int)]);
        s
    } else {
        let mut s: String = hex_digits(n / 16);
        s.push(hex_to_char(n % 16));
        s
    }
}

impl Ipv4Addr {
    /// The address with these octets.
    pub fn new(a: u8, b: u8, c: u8, d: u8) -> (r: Ipv4Addr)
        ensures
            r == (Ipv4Addr { a, b, c, d }),
    {
        Ipv4Addr { a, b, c, d }
    }

    /// The address with these four bytes, in network order.
    pub fn from_bytes(b: &[u8]) -> (r: Ipv4Addr)
        requires
            b@.len() == 4,
        ensures
            r == v4_from_bytes(b@),
    {
        Ipv4Addr { a: b[0], b: b[1], c: b[2], d: b[3] }
    }

    /// The dotted quad.
    pub fn to_text(&self) -> (r: String)
        ensures
            r@ == self.text(),
    {
        let mut s: String = dec(self.a as u64);
        s.push('.');
        s.append(dec(self.b as u64).as_str());
        s.push('.');
        s.append(dec(self.c as u64).as_str());
        s.push('.');
        s.append(dec(self.d as u64).as_str());
        s
    }
}

fn colons(g: &Vec<u16>, from: usize, to: usize) -> (r: String)
    requires
        from <= to <= g@.len(),
    ensures
        r@ == colon_list(ints(g@).subrange(from as int, to as int)),
{
    let ghost all = ints(g@);
    let mut s: String = String::new();
    let mut i: usize = from;
    proof {
        assert(all.subrange(from as int, from as int) =~= Seq::<int>::empty());
    }
    while i < to
        invariant
            from <= i <= to <= g@.len(),
            all == ints(g@),
            s@ == colon_list(all.subrange(from as int, i as int)),
        decreases to - i,
    {
        let ghost t = all.subrange(from as int, i + 1);
        proof {
            assert(t.drop_last() =~= all.subrange(from as int, i as int));
            assert(t.last() == g@[i as int] as int);
        }
        if i > from {
            s.push(':');
        }
        s.append(hex_digits(g[i]).as_str());
        proof {
            assert(s@ =~= colon_list(t));
        }
        i = i + 1;
    }
    s
}

fn run_at(g: &Vec<u16>, i: usize) -> (r: usize)
    requires
        i <= g@.len(),
    ensures
        r == zero_run(ints(g@), i as int),
        i + r <= g@.len(),
    decreases g@.len() - i,
{
    if i < g.len() && g[i] == 0 {
        1 + run_at(g, i + 1)
    } else {
        0
    }
}

/// The IPv4 address with these bytes, in network order.
pub open spec fn v4_from_bytes(b: Seq<u8>) -> Ipv4Addr {
    Ipv4Addr { a: b[0], b: b[1], c: b[2], d: b[3] }
}

/// A 16-bit number from its two bytes, the high one first.
pub open spec fn be16(hi: u8, lo: u8) -> int {
    hi as int * 256 + lo as int
}

/// A 16-bit number from its two bytes, the high one first.
pub fn from_be16(hi: u8, lo: u8) -> (r: u16)
    ensures
        r == be16(hi, lo),
{
    hi as u16 * 256 + lo as u16
}

/// The IPv6 address with these bytes, in network order.
pub open spec fn v6_from_bytes(b: Seq<u8>) -> Ipv6Addr {
    Ipv6Addr {
        g0: be16(b[0], b[1]) as u16,
        g1: be16(b[2], b[3]) as u16,
        g2: be16(b[4], b[5]) as u16,
        g3: be16(b[6], b[7]) as u16,
        g4: be16(b[8], b[9]) as u16,
        g5: be16(b[10], b[11]) as u16,
        g6: be16(b[12], b[13]) as u16,
        g7: be16(b[14], b[15]) as u16,
    }
}

impl Ipv6Addr {
    /// The address with these sixteen bytes, in network order.
    pub fn from_bytes(b: &[u8]) -> (r: Ipv6Addr)
        requires
            b@.len() == 16,
        ensures
            r == v6_from_bytes(b@),
    {
        Ipv6Addr {
            g0: from_be16(b[0], b[1]),
            g1: from_be16(b[2], b[3]),
            g2: from_be16(b[4], b[5]),
            g3: from_be16(b[6], b[7]),
            g4: from_be16(b[8], b[9]),
            g5: from_be16(b[10], b[11]),
            g6: from_be16(b[12], b[13]),
            g7: from_be16(b[14], b[15]),
        }
    }

    fn to_vec(&self) -> (r: Vec<u16>)
        ensures
            r@.len() == 8,
            ints(r@) == self.groups(),
    {
        let mut v: Vec<u16> = Vec::new();
        v.push(self.g0);
        v.push(self.g1);
        v.push(self.g2);
        v.push(self.g3);
        v.push(self.g4);
        v.push(self.g5);
        v.push(self.g6);
        v.push(self.g7);
        proof {
            assert(ints(v@) =~= self.groups());
        }
        v
    }

    /// The canonical text of the address.
    pub fn to_text(&self) -> (r: String)
        ensures
            r@ == self.text(),
    {
        if self.g0 == 0 && self.g1 == 0 && self.g2 == 0 && self.g3 == 0 && self.g4 == 0 && self.g5
            == 0xffff {
            let q = Ipv4Addr {
                a: (self.g6 / 256) as u8,
                b: (self.g6 % 256) as u8,
                c: (self.g7 / 256) as u8,
                d: (self.g7 % 256) as u8,
            };
            let mut s: String = String::from_str("::ffff:");
            s.append(q.to_text().as_str());
            return s;
        }
        let v: Vec<u16> = self.to_vec();
        let ghost g = self.groups();
        let mut best: usize = 0;
        let mut len: usize = run_at(&v, 0);
        let mut i: usize = 1;
        while i < 8
            invariant
                1 <= i <= 8,
                v@.len() == 8,
                g == ints(v@),
                best < i,
                len == zero_run(g, best as int),
                best + len <= 8,
                forall|j: int| 0 <= j < i ==> #[trigger] zero_run(g, j) <= len,
                forall|j: int| 0 <= j < best ==> #[trigger] zero_run(g, j) < len,
            decreases 8 - i,
        {
            let n: usize = run_at(&v, i);
            if n > len {
                best = i;
                len = n;
            }
            i = i + 1;
        }
        proof {
            assert(is_best_run(g, best as int));
            let k = choose|k: int| is_best_run(g, k);
            assert(is_best_run(g, k));
            assert(zero_run(g, k) <= zero_run(g, best as int));
            assert(k == best);
        }
        if len > 1 {
            let mut s: String = colons(&v, 0, best);
            s.append("::");
            s.append(colons(&v, best + len, 8).as_str());
            proof {
                assert(g.subrange(0, best as int) =~= g.take(best as int));
                assert(g.subrange(best + len, 8) =~= g.skip(best + len));
            }
            s
        } else {
            proof {
                assert(g.subrange(0, 8) =~= g);
            }
            colons(&v, 0, 8)
        }
    }
}

impl IpAddr {
    /// The IPv4 loopback address, `127.0.0.1`.
    pub open spec fn local() -> IpAddr {
        IpAddr::V4(Ipv4Addr { a: 127, b: 0, c: 0, d: 1 })
    }

    /// The IPv4 loopback address, `127.0.0.1`.
    pub fn localhost() -> (r: IpAddr)
        ensures
            r == IpAddr::local(),
    {
        IpAddr::V4(Ipv4Addr { a: 127, b: 0, c: 0, d: 1 })
    }

    /// The IPv4 wildcard address, `0.0.0.0`.
    pub open spec fn wildcard() -> IpAddr {
        IpAddr::V4(Ipv4Addr { a: 0, b: 0, c: 0, d: 0 })
    }

    /// The IPv4 wildcard address, `0.0.0.0`.
    pub fn unspecified() -> (r: IpAddr)
        ensures
            r == IpAddr::wildcard(),
    {
        IpAddr::V4(Ipv4Addr { a: 0, b: 0, c: 0, d: 0 })
    }

    /// The canonical text of the address.
    pub fn to_text(&self) -> (r: String)
        ensures
            r@ == self.text(),
    {
        match self {
            IpAddr::V4(a) => a.to_text(),
            IpAddr::V6(a) => a.to_text(),
        }
    }

    /// Whether the address is a loopback address.
    pub fn is_loopback(&self) -> (r: bool)
        ensures
            r == self.loopback(),
    {
        match self {
            IpAddr::V4(a) => a.a == 127,
            IpAddr::V6(a) => {
                let r = a.g0 == 0 && a.g1 == 0 && a.g2 == 0 && a.g3 == 0 && a.g4 == 0 && a.g5 == 0
                    && a.g6 == 0 && a.g7 == 1;
                proof {
                    let z = zeros(7).push(1);
                    if r {
                        assert(a.groups() =~= z);
                    } else {
                        assert(a.groups()[0] != z[0] || a.groups()[1] != z[1] || a.groups()[2]
                            != z[2] || a.groups()[3] != z[3] || a.groups()[4] != z[4]
                            || a.groups()[5] != z[5] || a.groups()[6] != z[6] || a.groups()[7]
                            != z[7]);
                    }
                }
                r
            },
        }
    }
}

// ---- reading what was rendered -----------------------------------------

proof fn lemma_hexadecimal(n: int)
    requires
        0 <= n,
    ensures
        hex_value(hexadecimal(n)) == Some(n),
        hexadecimal(n).len() >= 1,
        n < 16 ==> hexadecimal(n).len() == 1,
        n < 256 ==> hexadecimal(n).len() <= 2,
        n < 4096 ==> hexadecimal(n).len() <= 3,
        n < 65536 ==> hexadecimal(n).len() <= 4,
        forall|i: int|
            0 <= i < hexadecimal(n).len() ==> hex_digit_value(#[trigger] hexadecimal(n)[i]) is Some,
    decreases n,
{
    if n < 16 {
        assert(hexadecimal(n).drop_last() =~= Seq::<char>::empty());
        assert(hex_value(hexadecimal(n).drop_last()) == Some(0int));
        assert(hex_digit_value(hex_char(n)) == Some(n));
        assert(hexadecimal(n).last() == hex_char(n));
    } else {
        lemma_hexadecimal(n / 16);
        assert(hexadecimal(n).drop_last() =~= hexadecimal(n / 16));
        assert(hex_digit_value(hex_char(n % 16)) == Some(n % 16));
        assert(hexadecimal(n).last() == hex_char(n % 16));
    }
}

proof fn lemma_group(n: int)
    requires
        0 <= n < 65536,
    ensures
        group(hexadecimal(n)) == Some(n),
        !hexadecimal(n).contains(':'),
{
    lemma_hexadecimal(n);
    assert(hex_digit_value(':') is None);
}

spec fn are_groups(g: Seq<int>) -> bool {
    forall|i: int| 0 <= i < g.len() ==> 0 <= #[trigger] g[i] < 65536
}

/// A rendered list of groups reads back, and has no empty group.
proof fn lemma_colon_list(g: Seq<int>)
    requires
        are_groups(g),
        g.len() > 0,
    ensures
        groups_in(crate::text::pieces(colon_list(g), ':'), false) == Some(g),
        groups_in(crate::text::pieces(colon_list(g), ':'), true) == Some(g),
        colon_list(g).len() > 0,
        colon_list(g)[0] != ':',
        colon_list(g).last() != ':',
        forall|i: int| !#[trigger] crate::text::occurs_at(colon_list(g), "::"@, i),
    decreases g.len(),
{
    reveal_strlit("::");
    let s = colon_list(g);
    let x = hexadecimal(g.last());
    lemma_group(g.last());
    lemma_hexadecimal(g.last());
    assert(hex_digit_value(':') is None);
    crate::text::lemma_pieces_single(x, ':');
    assert(crate::text::pieces(x, ':').drop_last() =~= Seq::<Seq<char>>::empty());
    assert(groups_in(Seq::<Seq<char>>::empty(), false) == Some(Seq::<int>::empty()));
    if g.len() == 1 {
        assert(s == x);
        assert(Seq::<int>::empty().push(g[0]) =~= g);
        assert forall|i: int| !#[trigger] crate::text::occurs_at(s, "::"@, i) by {
            if crate::text::occurs_at(s, "::"@, i) {
                assert(s.subrange(i, i + 2)[0] == s[i]);
                assert(s.contains(':'));
            }
        }
    } else {
        let h = g.drop_last();
        let hs = colon_list(h);
        lemma_colon_list(h);
        crate::text::lemma_pieces_join(hs, ':', x);
        let p = crate::text::pieces(s, ':');
        assert(p =~= crate::text::pieces(hs, ':').push(x));
        assert(p.drop_last() =~= crate::text::pieces(hs, ':'));
        assert(h.push(g.last()) =~= g);
        assert forall|i: int| !#[trigger] crate::text::occurs_at(s, "::"@, i) by {
            if crate::text::occurs_at(s, "::"@, i) {
                assert(s.subrange(i, i + 2)[0] == s[i]);
                assert(s.subrange(i, i + 2)[1] == s[i + 1]);
                let n = hs.len();
                if i + 2 <= n {
                    assert(hs.subrange(i, i + 2) =~= "::"@);
                    assert(crate::text::occurs_at(hs, "::"@, i));
                } else if i + 1 == n {
                    assert(s[i] == hs.last());
                } else {
                    assert(s[i + 1] == x[i + 1 - n - 1]);
                    assert(x.contains(':'));
                }
            }
        }
    }
}

proof fn lemma_groups_of_colon_list(g: Seq<int>, quad: bool)
    requires
        are_groups(g),
    ensures
        groups_of(colon_list(g), quad) == Some(g),
        forall|i: int| !#[trigger] crate::text::occurs_at(colon_list(g), "::"@, i),
        colon_list(g).len() > 0 ==> colon_list(g).last() != ':' && colon_list(g)[0] != ':',
{
    reveal_strlit("::");
    if g.len() == 0 {
        assert(g =~= Seq::<int>::empty());
    } else {
        lemma_colon_list(g);
    }
}

/// A text with a colon in it is no dotted quad.
proof fn lemma_colon_is_no_quad(s: Seq<char>)
    requires
        s.contains(':'),
    ensures
        v4_of(s) is None,
{
    crate::text::lemma_pieces_contain(s, '.', ':');
    let p = crate::text::pieces(s, '.');
    let k = choose|k: int| 0 <= k < p.len() && (#[trigger] p[k]).contains(':');
    lemma_colon_is_no_number(p[k], 255);
    assert(octet(p[k]) is None);
}

proof fn lemma_colon_is_no_number(s: Seq<char>, max: int)
    requires
        s.contains(':'),
    ensures
        crate::text::digits_value(s, max) is Err,
    decreases s.len(),
{
    let i = choose|i: int| 0 <= i < s.len() && s[i] == ':';
    if i < s.len() - 1 {
        assert(s.drop_last()[i] == ':');
        lemma_colon_is_no_number(s.drop_last(), max);
    }
}

proof fn lemma_octet(n: int)
    requires
        0 <= n <= 255,
    ensures
        octet(crate::text::decimal(n)) == Some(n),
        !crate::text::decimal(n).contains('.'),
        !crate::text::decimal(n).contains(':'),
{
    crate::text::lemma_decimal_roundtrip(n, 255);
    crate::text::lemma_decimal_digits(n);
    reveal_with_fuel(crate::text::decimal, 3);
    let t = crate::text::decimal(n);
    assert(1 <= t.len() <= 3);
    if n >= 10 {
        assert(t[0] != '0');
    }
}

/// Reading the dotted quad of an address gives the address.
pub proof fn lemma_v4_roundtrip(a: Ipv4Addr)
    ensures
        v4_of(a.text()) == Some(a),
        !a.text().contains(':'),
        a.text().len() > 0,
{
    let w = crate::text::decimal(a.a as int);
    let x = crate::text::decimal(a.b as int);
    let y = crate::text::decimal(a.c as int);
    let z = crate::text::decimal(a.d as int);
    lemma_octet(a.a as int);
    lemma_octet(a.b as int);
    lemma_octet(a.c as int);
    lemma_octet(a.d as int);
    crate::text::lemma_pieces_single(w, '.');
    crate::text::lemma_pieces_single(x, '.');
    crate::text::lemma_pieces_single(y, '.');
    crate::text::lemma_pieces_single(z, '.');
    crate::text::lemma_pieces_join(w, '.', x);
    crate::text::lemma_pieces_join(w + seq!['.'] + x, '.', y);
    crate::text::lemma_pieces_join(w + seq!['.'] + x + seq!['.'] + y, '.', z);
    assert(crate::text::pieces(a.text(), '.') =~= seq![w, x, y, z]);
    assert forall|i: int| 0 <= i < a.text().len() implies a.text()[i] != ':' by {
        let n1 = w.len() as int;
        let n2 = n1 + 1 + x.len();
        let n3 = n2 + 1 + y.len();
        if i < n1 {
            assert(a.text()[i] == w[i]);
        } else if n1 < i < n2 {
            assert(a.text()[i] == x[i - n1 - 1]);
        } else if n2 < i < n3 {
            assert(a.text()[i] == y[i - n2 - 1]);
        } else if n3 < i {
            assert(a.text()[i] == z[i - n3 - 1]);
        }
    }
}

proof fn lemma_zero_run(g: Seq<int>, i: int)
    requires
        0 <= i <= g.len(),
    ensures
        0 <= zero_run(g, i) <= g.len() - i,
        forall|j: int| i <= j < i + zero_run(g, i) ==> g[j] == 0,
    decreases g.len() - i,
{
    if i < g.len() && g[i] == 0 {
        lemma_zero_run(g, i + 1);
    }
}

/// Some run of zero groups is the first longest one.
proof fn lemma_best_run_exists(g: Seq<int>, n: int) -> (i: int)
    requires
        0 < n <= g.len(),
    ensures
        0 <= i < n,
        forall|j: int| 0 <= j < n ==> #[trigger] zero_run(g, j) <= zero_run(g, i),
        forall|j: int| 0 <= j < i ==> #[trigger] zero_run(g, j) < zero_run(g, i),
    decreases n,
{
    if n == 1 {
        0
    } else {
        let k = lemma_best_run_exists(g, n - 1);
        if zero_run(g, n - 1) > zero_run(g, k) {
            n - 1
        } else {
            k
        }
    }
}

proof fn lemma_v6_mapped_roundtrip(a: Ipv6Addr)
    requires
        is_mapped(a.groups()),
    ensures
        v6_groups_of(a.text()) == Some(a.groups()),
        a.text().contains(':'),
{
    reveal_strlit("::");
    reveal_strlit("::ffff:");
    let g = a.groups();
    let s = a.text();
    let q = Ipv4Addr {
        a: (g[6] / 256) as u8,
        b: (g[6] % 256) as u8,
        c: (g[7] / 256) as u8,
        d: (g[7] % 256) as u8,
    };
    lemma_v4_roundtrip(q);
    let dots = q.text();
    let f = seq!['f', 'f', 'f', 'f'];
    let t = f + seq![':'] + dots;
    assert(s =~= "::"@ + t);
    assert(s.subrange(0, 2) =~= "::"@);
    assert(crate::text::first_at(s, "::"@, 0));
    crate::text::lemma_cut_first_at(s, "::"@, 0);
    assert(s.subrange(0, 0) =~= Seq::<char>::empty());
    assert(s.subrange(2, s.len() as int) =~= t);
    assert(!f.contains(':'));
    crate::text::lemma_pieces_single(f, ':');
    crate::text::lemma_pieces_single(dots, ':');
    crate::text::lemma_pieces_join(f, ':', dots);
    let p = crate::text::pieces(t, ':');
    assert(p =~= seq![f, dots]);
    assert(p.drop_last() =~= seq![f]);
    assert(seq![f].drop_last() =~= Seq::<Seq<char>>::empty());
    assert(group(f) == Some(0xffffint)) by {
        reveal_with_fuel(hex_value, 5);
        assert(f.drop_last() =~= seq!['f', 'f', 'f']);
        assert(f.drop_last().drop_last() =~= seq!['f', 'f']);
        assert(f.drop_last().drop_last().drop_last() =~= seq!['f']);
        assert(f.drop_last().drop_last().drop_last().drop_last() =~= Seq::<char>::empty());
    }
    assert(groups_in(Seq::<Seq<char>>::empty(), false) == Some(Seq::<int>::empty()));
    assert(groups_in(seq![f], false) == Some(Seq::<int>::empty().push(0xffff)));
    lemma_dots_no_hex(dots, q);
    let tail = Seq::<int>::empty().push(0xffff).push(q.a as int * 256 + q.b as int).push(
        q.c as int * 256 + q.d as int,
    );
    assert(groups_of(t, true) == Some(tail));
    assert(Seq::<int>::empty() + zeros(5) + tail =~= g);
    assert(s[0] == ':');
}

proof fn lemma_v6_compressed_roundtrip(a: Ipv6Addr, i: int)
    requires
        is_best_run(a.groups(), i),
        i == (choose|k: int| is_best_run(a.groups(), k)),
        zero_run(a.groups(), i) > 1,
        !is_mapped(a.groups()),
    ensures
        v6_groups_of(a.text()) == Some(a.groups()),
        a.text().contains(':'),
{
    reveal_strlit("::");
    let g = a.groups();
    let s = a.text();
    let n = zero_run(g, i);
    lemma_zero_run(g, i);
    let h = g.take(i);
    let t = g.skip(i + n);
    let hs = colon_list(h);
    let ts = colon_list(t);
    lemma_groups_of_colon_list(h, false);
    lemma_groups_of_colon_list(t, true);
    assert(s == hs + "::"@ + ts);
    assert(s.subrange(hs.len() as int, hs.len() as int + 2) =~= "::"@);
    assert forall|j: int| 0 <= j < hs.len() implies !#[trigger] crate::text::occurs_at(
        s,
        "::"@,
        j,
    ) by {
        if crate::text::occurs_at(s, "::"@, j) {
            assert(s.subrange(j, j + 2)[0] == s[j]);
            if j + 2 <= hs.len() {
                assert(hs.subrange(j, j + 2) =~= s.subrange(j, j + 2));
                assert(crate::text::occurs_at(hs, "::"@, j));
            } else {
                assert(s[j] == hs.last());
            }
        }
    }
    assert(crate::text::first_at(s, "::"@, hs.len() as int));
    crate::text::lemma_cut_first_at(s, "::"@, hs.len() as int);
    assert(s.subrange(0, hs.len() as int) =~= hs);
    assert(s.subrange(hs.len() as int + 2, s.len() as int) =~= ts);
    assert(h + zeros(8 - h.len() - t.len()) + t =~= g);
    assert(s[hs.len() as int] == ':');
}

/// Reading the text of an IPv6 address gives its groups.
pub proof fn lemma_v6_roundtrip(a: Ipv6Addr)
    ensures
        v6_groups_of(a.text()) == Some(a.groups()),
        v6_from(a.groups()) == a,
        a.text().contains(':'),
{
    let g = a.groups();
    if is_mapped(g) {
        lemma_v6_mapped_roundtrip(a);
    } else {
        let k0 = lemma_best_run_exists(g, 8);
        assert(is_best_run(g, k0));
        let i = choose|i: int| is_best_run(g, i);
        assert(is_best_run(g, i));
        if zero_run(g, i) > 1 {
            lemma_v6_compressed_roundtrip(a, i);
        } else {
            lemma_groups_of_colon_list(g, true);
            lemma_colon_list(g);
            assert(crate::text::cut_first(a.text(), "::"@) is None);
            lemma_colon_list_has_colon(g);
        }
    }
}

proof fn lemma_colon_list_has_colon(g: Seq<int>)
    requires
        g.len() > 1,
    ensures
        colon_list(g).contains(':'),
{
    let n = colon_list(g.drop_last()).len() as int;
    assert(colon_list(g)[n] == ':');
}

/// A dotted quad is no hexadecimal number.
proof fn lemma_dots_no_hex(s: Seq<char>, q: Ipv4Addr)
    requires
        s == q.text(),
    ensures
        hex_value(s) is None,
{
    let n = crate::text::decimal(q.a as int).len() as int;
    assert(s[n] == '.');
    assert(s.take(n + 1).last() == '.');
    assert(hex_digit_value('.') is None);
    lemma_hex_value_none(s, n + 1);
}

/// The characters that occur in the text of an address.
pub open spec fn is_addr_char(c: char) -> bool {
    hex_digit_value(c) is Some || c == ':' || c == '.'
}

proof fn lemma_colon_list_chars(g: Seq<int>)
    requires
        forall|i: int| 0 <= i < g.len() ==> 0 <= #[trigger] g[i] < 65536,
    ensures
        forall|i: int| 0 <= i < colon_list(g).len() ==> is_addr_char(#[trigger] colon_list(g)[i]),
    decreases g.len(),
{
    if g.len() == 1 {
        lemma_hexadecimal(g[0]);
    } else if g.len() > 1 {
        lemma_colon_list_chars(g.drop_last());
        lemma_hexadecimal(g.last());
        let a = colon_list(g.drop_last());
        let x = hexadecimal(g.last());
        let s = colon_list(g);
        assert forall|i: int| 0 <= i < s.len() implies is_addr_char(#[trigger] s[i]) by {
            if i < a.len() {
                assert(s[i] == a[i]);
            } else if i > a.len() {
                assert(s[i] == x[i - a.len() - 1]);
            }
        }
    }
}

proof fn lemma_v4_chars(a: Ipv4Addr)
    ensures
        forall|i: int|
            0 <= i < a.text().len() ==> is_addr_char(#[trigger] a.text()[i]) && a.text()[i] != ':',
        a.text().len() > 0,
        crate::text::is_digit(a.text()[0]),
        crate::text::is_digit(a.text().last()),
{
    let w = crate::text::decimal(a.a as int);
    let x = crate::text::decimal(a.b as int);
    let y = crate::text::decimal(a.c as int);
    let z = crate::text::decimal(a.d as int);
    crate::text::lemma_decimal_digits(a.a as int);
    crate::text::lemma_decimal_digits(a.b as int);
    crate::text::lemma_decimal_digits(a.c as int);
    crate::text::lemma_decimal_digits(a.d as int);
    let s = a.text();
    assert forall|i: int| 0 <= i < s.len() implies is_addr_char(#[trigger] s[i]) && s[i] != ':' by {
        let n1 = w.len() as int;
        let n2 = n1 + 1 + x.len();
        let n3 = n2 + 1 + y.len();
        if i < n1 {
            assert(s[i] == w[i]);
        } else if n1 < i < n2 {
            assert(s[i] == x[i - n1 - 1]);
        } else if n2 < i < n3 {
            assert(s[i] == y[i - n2 - 1]);
        } else if n3 < i {
            assert(s[i] == z[i - n3 - 1]);
        }
    }
    assert(s[0] == w[0]);
    assert(s.last() == z.last());
    assert(crate::text::is_digit(z[z.len() - 1]));
}

/// The text of an address holds nothing but hexadecimal digits, colons and dots.
pub proof fn lemma_ip_chars(a: IpAddr)
    ensures
        forall|i: int| 0 <= i < a.text().len() ==> is_addr_char(#[trigger] a.text()[i]),
        a is V4 ==> a.text().len() > 0 && crate::text::is_digit(a.text()[0]) && !a.text().contains(
            ':',
        ),
{
    match a {
        IpAddr::V4(v) => {
            lemma_v4_chars(v);
        },
        IpAddr::V6(v) => {
            reveal_strlit("::");
            reveal_strlit("::ffff:");
            let g = v.groups();
            let s = v.text();
            if is_mapped(g) {
                let q = Ipv4Addr {
                    a: (g[6] / 256) as u8,
                    b: (g[6] % 256) as u8,
                    c: (g[7] / 256) as u8,
                    d: (g[7] % 256) as u8,
                };
                lemma_v4_chars(q);
                let head = "::ffff:"@;
                assert forall|i: int| 0 <= i < s.len() implies is_addr_char(#[trigger] s[i]) by {
                    if i < 7 {
                        assert(s[i] == head[i]);
                    } else {
                        assert(s[i] == q.text()[i - 7]);
                    }
                }
            } else {
                let k0 = lemma_best_run_exists(g, 8);
                assert(is_best_run(g, k0));
                let k = choose|k: int| is_best_run(g, k);
                assert(is_best_run(g, k));
                let n = zero_run(g, k);
                lemma_zero_run(g, k);
                if n > 1 {
                    lemma_colon_list_chars(g.take(k));
                    lemma_colon_list_chars(g.skip(k + n));
                    let h = colon_list(g.take(k));
                    let t = colon_list(g.skip(k + n));
                    assert forall|i: int| 0 <= i < s.len() implies is_addr_char(
                        #[trigger] s[i],
                    ) by {
                        if i < h.len() {
                            assert(s[i] == h[i]);
                        } else if i >= h.len() + 2 {
                            assert(s[i] == t[i - h.len() - 2]);
                        }
                    }
                } else {
                    lemma_colon_list_chars(g);
                }
            }
        },
    }
}

/// Reading the text of an address gives the address back.
pub proof fn lemma_ip_roundtrip(a: IpAddr)
    ensures
        ip_of(a.text()) == Some(a),
{
    match a {
        IpAddr::V4(v) => {
            lemma_v4_roundtrip(v);
        },
        IpAddr::V6(v) => {
            lemma_v6_roundtrip(v);
            lemma_colon_is_no_quad(v.text());
        },
    }
}

// ---- laws --------------------------------------------------------------

/// The dotted quad of an address is its octets in decimal, in their order; and a text is
/// the quad of an address only where it is that: nothing else is read as one.
pub proof fn law_quad(a: u8, b: u8, c: u8, d: u8, s: Seq<char>)
    ensures
        v4_of(
            crate::text::decimal(a as int) + "."@ + crate::text::decimal(b as int) + "."@
                + crate::text::decimal(c as int) + "."@ + crate::text::decimal(d as int),
        ) == Some(Ipv4Addr { a, b, c, d }),
        v4_of(s) matches Some(x) ==> s == x.text(),
{
    reveal_strlit(".");
    let x = Ipv4Addr { a, b, c, d };
    lemma_v4_roundtrip(x);
    assert(crate::text::decimal(a as int) + "."@ + crate::text::decimal(b as int) + "."@
        + crate::text::decimal(c as int) + "."@ + crate::text::decimal(d as int) =~= x.text());
    if let Some(y) = v4_of(s) {
        let p = crate::text::pieces(s, '.');
        crate::text::law_pieces(s, '.');
        lemma_octet_text(p[0]);
        lemma_octet_text(p[1]);
        lemma_octet_text(p[2]);
        lemma_octet_text(p[3]);
        let p3 = p.drop_last();
        let p2 = p3.drop_last();
        let p1 = p2.drop_last();
        assert(crate::text::rejoined(p1, '.') == p[0]);
        assert(crate::text::rejoined(p2, '.') == p[0] + seq!['.'] + p[1]);
        assert(crate::text::rejoined(p3, '.') == p[0] + seq!['.'] + p[1] + seq!['.'] + p[2]);
        assert(s == y.text());
    }
}

proof fn lemma_octet_text(s: Seq<char>)
    ensures
        octet(s) matches Some(v) ==> 0 <= v <= 255 && s == crate::text::decimal(v),
{
    if let Some(v) = octet(s) {
        crate::text::lemma_digits_value_bounds(s, 255);
        let t = s.drop_last();
        let u = t.drop_last();
        if s.len() == 1 {
            assert(t =~= Seq::<char>::empty());
            assert(crate::text::digits_value(t, 255) == Ok::<int, crate::text::NumError>(0));
            assert(s =~= crate::text::decimal(v));
        } else if s.len() == 2 {
            assert(u =~= Seq::<char>::empty());
            assert(crate::text::digits_value(u, 255) == Ok::<int, crate::text::NumError>(0));
            let w = crate::text::digits_value(t, 255)->Ok_0;
            assert(t.last() == s[0]);
            assert(t =~= crate::text::decimal(w));
            assert(v / 10 == w);
            assert(s =~= crate::text::decimal(v));
        } else {
            let e = u.drop_last();
            assert(e =~= Seq::<char>::empty());
            assert(crate::text::digits_value(e, 255) == Ok::<int, crate::text::NumError>(0));
            assert(u.last() == s[0]);
            assert(t.last() == s[1]);
            let x = crate::text::digits_value(u, 255)->Ok_0;
            let w = crate::text::digits_value(t, 255)->Ok_0;
            assert(u =~= crate::text::decimal(x));
            assert(w / 10 == x);
            assert(t =~= crate::text::decimal(w));
            assert(v / 10 == w);
            assert(s =~= crate::text::decimal(v));
        }
    }
}

/// Eight groups with colons between them are an address of those groups; where two colons
/// stand together, as many zeros stand there as are lacking, and at least one is.
pub proof fn law_groups(a: Seq<int>, b: Seq<int>)
    requires
        forall|i: int| 0 <= i < a.len() ==> 0 <= #[trigger] a[i] < 65536,
        forall|i: int| 0 <= i < b.len() ==> 0 <= #[trigger] b[i] < 65536,
    ensures
        a.len() == 8 ==> v6_groups_of(colon_list(a)) == Some(a),
        a.len() + b.len() <= 7 ==> (v6_groups_of(colon_list(a) + "::"@ + colon_list(b)) matches Some(
            g,
        ) && g.len() == 8 && g.take(a.len() as int) == a && g.skip(8 - b.len()) == b && forall|i: int|
            a.len() <= i < 8 - b.len() ==> #[trigger] g[i] == 0),
        a.len() + b.len() > 7 ==> v6_groups_of(colon_list(a) + "::"@ + colon_list(b)) is None,
        0 < a.len() && a.len() != 8 ==> v6_groups_of(colon_list(a)) is None,
{
    reveal_strlit("::");
    let hs = colon_list(a);
    let ts = colon_list(b);
    let s = hs + "::"@ + ts;
    lemma_groups_of_colon_list(a, false);
    lemma_groups_of_colon_list(a, true);
    lemma_groups_of_colon_list(b, true);
    assert(s.subrange(hs.len() as int, hs.len() as int + 2) =~= "::"@);
    assert forall|j: int| 0 <= j < hs.len() implies !#[trigger] crate::text::occurs_at(
        s,
        "::"@,
        j,
    ) by {
        if crate::text::occurs_at(s, "::"@, j) {
            assert(s.subrange(j, j + 2)[0] == s[j]);
            if j + 2 <= hs.len() {
                assert(hs.subrange(j, j + 2) =~= s.subrange(j, j + 2));
                assert(crate::text::occurs_at(hs, "::"@, j));
            } else {
                assert(s[j] == hs.last());
            }
        }
    }
    assert(crate::text::first_at(s, "::"@, hs.len() as int));
    crate::text::lemma_cut_first_at(s, "::"@, hs.len() as int);
    assert(s.subrange(0, hs.len() as int) =~= hs);
    assert(s.subrange(hs.len() as int + 2, s.len() as int) =~= ts);
    assert(crate::text::cut_first(hs, "::"@) is None);
    if a.len() + b.len() <= 7 {
        let g = a + zeros(8 - a.len() - b.len()) + b;
        assert(g.take(a.len() as int) =~= a);
        assert(g.skip(8 - b.len()) =~= b);
    }
}

/// The hexadecimal digits, of either case, and what they are worth.
pub proof fn law_hex_digits(d: int, n: int)
    requires
        0 <= d < 16,
        0 < n,
    ensures
        hex_char(d) == "0123456789abcdef"@[d],
        hex_digit_value("0123456789abcdef"@[d]) == Some(d),
        hex_digit_value("0123456789ABCDEF"@[d]) == Some(d),
        hexadecimal(d) == seq![hex_char(d)],
        hexadecimal(16 * n + d) == hexadecimal(n).push(hex_char(d)),
{
    reveal_strlit("0123456789abcdef");
    reveal_strlit("0123456789ABCDEF");
    assert((16 * n + d) / 16 == n && (16 * n + d) % 16 == d);
}

/// Loopback is every IPv4 address that begins with 127, and one IPv6 address.
pub proof fn law_loopback(a: Ipv4Addr, b: Ipv6Addr)
    ensures
        IpAddr::V4(a).loopback() <==> a.a == 127,
        IpAddr::V6(b).loopback() <==> b == (Ipv6Addr {
            g0: 0,
            g1: 0,
            g2: 0,
            g3: 0,
            g4: 0,
            g5: 0,
            g6: 0,
            g7: 1,
        }),
        IpAddr::local().loopback(),
        !IpAddr::wildcard().loopback(),
{
    let g = b.groups();
    if g == zeros(7).push(1) {
        assert(g[0] == 0 && g[1] == 0 && g[2] == 0 && g[3] == 0);
        assert(g[4] == 0 && g[5] == 0 && g[6] == 0 && g[7] == 1);
    }
    if b == (Ipv6Addr { g0: 0, g1: 0, g2: 0, g3: 0, g4: 0, g5: 0, g6: 0, g7: 1 }) {
        assert(g =~= zeros(7).push(1));
    }
}

} // verus!
