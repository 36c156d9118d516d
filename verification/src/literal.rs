//! The IP-literal grammar and its parser.
//!
//! A host string that is already a literal IP address bypasses both the
//! override table and the platform resolver. The grammar here is the
//! usual textual one: a dotted quad of decimal octets without leading
//! zeros for IPv4; colon-separated groups of one to four hexadecimal
//! digits for IPv6, with at most one `::` standing for a run of zero
//! groups and an optional embedded IPv4 literal as the tail.

use vstd::prelude::*;

use crate::addr::IpAddress;
use crate::addr::Ipv4Address;
use crate::addr::Ipv6Address;
use crate::addr::SockAddr;
use crate::addrs::SocketAddrs;
use crate::text::chars_of;

verus! {

pub open spec fn is_dec_digit(c: char) -> bool {
    '0' as int <= c as int && c as int <= '9' as int
}

pub open spec fn dec_val(c: char) -> int {
    c as int - '0' as int
}

pub open spec fn is_hex_digit(c: char) -> bool {
    is_dec_digit(c) || ('a' as int <= c as int && c as int <= 'f' as int) || ('A' as int <= c as int
        && c as int <= 'F' as int)
}

pub open spec fn hex_val(c: char) -> int {
    if is_dec_digit(c) {
        dec_val(c)
    } else if 'a' as int <= c as int && c as int <= 'f' as int {
        c as int - 'a' as int + 10
    } else {
        c as int - 'A' as int + 10
    }
}

pub open spec fn all_dec_digits(s: Seq<char>) -> bool {
    forall|i: int| 0 <= i < s.len() ==> is_dec_digit(#[trigger] s[i])
}

pub open spec fn all_hex_digits(s: Seq<char>) -> bool {
    forall|i: int| 0 <= i < s.len() ==> is_hex_digit(#[trigger] s[i])
}

/// The number a run of decimal digits denotes.
pub open spec fn dec_value(s: Seq<char>) -> int
    decreases s.len(),
{
    if s.len() == 0 {
        0
    } else {
        dec_value(s.drop_last()) * 10 + dec_val(s.last())
    }
}

/// The number a run of hexadecimal digits denotes.
pub open spec fn hex_value(s: Seq<char>) -> int
    decreases s.len(),
{
    if s.len() == 0 {
        0
    } else {
        hex_value(s.drop_last()) * 16 + hex_val(s.last())
    }
}

pub open spec fn pow_of(base: int, n: nat) -> int
    decreases n,
{
    if n == 0 {
        1
    } else {
        base * pow_of(base, (n - 1) as nat)
    }
}

/// A valid dotted-quad octet: one to three decimal digits, no leading
/// zero unless the octet is exactly "0", value at most 255.
pub open spec fn valid_octet(s: Seq<char>) -> bool {
    1 <= s.len() <= 3 && all_dec_digits(s) && (s.len() > 1 ==> s[0] != '0') && dec_value(s) <= 255
}

/// A valid 16-bit group: one to four hexadecimal digits.
pub open spec fn valid_group(s: Seq<char>) -> bool {
    1 <= s.len() <= 4 && all_hex_digits(s)
}

/// `parts` with `c` put in front of its first part.
pub open spec fn prepend_first(c: char, parts: Seq<Seq<char>>) -> Seq<Seq<char>>
    recommends
        parts.len() > 0,
{
    seq![seq![c] + parts[0]] + parts.drop_first()
}

/// The parts of `s` between occurrences of `sep`: always at least one
/// part, with empty parts marking leading, trailing or doubled
/// separators.
pub open spec fn split_on(s: Seq<char>, sep: char) -> Seq<Seq<char>>
    decreases s.len(),
{
    if s.len() == 0 {
        seq![Seq::<char>::empty()]
    } else if s[0] == sep {
        seq![Seq::<char>::empty()] + split_on(s.drop_first(), sep)
    } else {
        prepend_first(s[0], split_on(s.drop_first(), sep))
    }
}

proof fn lemma_split_on_len(s: Seq<char>, sep: char)
    ensures
        split_on(s, sep).len() >= 1,
    decreases s.len(),
{
    if s.len() > 0 {
        lemma_split_on_len(s.drop_first(), sep);
    }
}

/// The string as a dotted quad: exactly four valid octets.
pub open spec fn parse_v4(s: Seq<char>) -> Option<Ipv4Address> {
    let parts = split_on(s, '.');
    if parts.len() == 4 && valid_octet(parts[0]) && valid_octet(parts[1]) && valid_octet(parts[2])
        && valid_octet(parts[3]) {
        Some(
            Ipv4Address {
                a: dec_value(parts[0]) as u8,
                b: dec_value(parts[1]) as u8,
                c: dec_value(parts[2]) as u8,
                d: dec_value(parts[3]) as u8,
            },
        )
    } else {
        None
    }
}

/// The parts of a colon-separated run read as 16-bit groups; when
/// `v4_tail` holds, the last part may instead be an IPv4 literal,
/// contributing its high and low halves as two groups.
pub open spec fn group_items(parts: Seq<Seq<char>>, v4_tail: bool) -> Option<Seq<u16>>
    decreases parts.len(),
{
    if parts.len() == 0 {
        Some(Seq::<u16>::empty())
    } else if parts.len() == 1 {
        if valid_group(parts[0]) {
            Some(seq![hex_value(parts[0]) as u16])
        } else if v4_tail && parse_v4(parts[0]) is Some {
            let ip = parse_v4(parts[0]).unwrap();
            Some(
                seq![
                    (ip.a as int * 256 + ip.b as int) as u16,
                    (ip.c as int * 256 + ip.d as int) as u16,
                ],
            )
        } else {
            None
        }
    } else {
        if valid_group(parts[0]) && group_items(parts.drop_first(), v4_tail) is Some {
            Some(
                seq![hex_value(parts[0]) as u16] + group_items(parts.drop_first(), v4_tail).unwrap(),
            )
        } else {
            None
        }
    }
}

/// One side of an IPv6 literal (before or after a `::`): empty means no
/// groups, otherwise every colon-separated part must parse.
pub open spec fn side_groups(s: Seq<char>, v4_tail: bool) -> Option<Seq<u16>> {
    if s.len() == 0 {
        Some(Seq::<u16>::empty())
    } else {
        group_items(split_on(s, ':'), v4_tail)
    }
}

/// Two adjacent colons at position `i`.
pub open spec fn dcolon_at(s: Seq<char>, i: int) -> bool {
    0 <= i && i + 1 < s.len() && s[i] == ':' && s[i + 1] == ':'
}

/// The groups of an IPv6 literal whose single `::` stands at `i`: both
/// sides parse, and together leave at least one zero group for the `::`.
pub open spec fn dcolon_parse(s: Seq<char>, i: int) -> Option<Seq<u16>> {
    if dcolon_at(s, i) && side_groups(s.take(i), false) is Some && side_groups(
        s.skip(i + 2),
        true,
    ) is Some {
        let h = side_groups(s.take(i), false).unwrap();
        let t = side_groups(s.skip(i + 2), true).unwrap();
        if h.len() + t.len() <= 7 {
            Some(h + Seq::<u16>::new((8 - h.len() - t.len()) as nat, |j: int| 0u16) + t)
        } else {
            None
        }
    } else {
        None
    }
}

/// The eight groups of an IPv6 literal: with a `::`, the sides plus the
/// zero run it stands for; without one, exactly eight plain groups.
pub open spec fn v6_groups(s: Seq<char>) -> Option<Seq<u16>> {
    if exists|i: int| (#[trigger] dcolon_parse(s, i)) is Some {
        dcolon_parse(s, choose|i: int| (#[trigger] dcolon_parse(s, i)) is Some)
    } else if !(exists|i: int| #[trigger] dcolon_at(s, i)) {
        match side_groups(s, true) {
            Some(g) => if g.len() == 8 {
                Some(g)
            } else {
                None
            },
            None => None,
        }
    } else {
        None
    }
}

pub open spec fn groups_to_v6(g: Seq<u16>) -> Ipv6Address
    recommends
        g.len() == 8,
{
    Ipv6Address {
        g0: g[0],
        g1: g[1],
        g2: g[2],
        g3: g[3],
        g4: g[4],
        g5: g[5],
        g6: g[6],
        g7: g[7],
    }
}

pub open spec fn parse_v6(s: Seq<char>) -> Option<Ipv6Address> {
    match v6_groups(s) {
        Some(g) => Some(groups_to_v6(g)),
        None => None,
    }
}

/// The views of a vector of character vectors.
pub open spec fn views_of(parts: Seq<Vec<char>>) -> Seq<Seq<char>> {
    parts.map_values(|p: Vec<char>| p@)
}

/// Split the characters of `v` between `lo` and `hi` on `sep`.
fn split_chars(v: &Vec<char>, lo: usize, hi: usize, sep: char) -> (parts: Vec<Vec<char>>)
    requires
        lo <= hi && hi <= v.len(),
    ensures
        views_of(parts@) == split_on(v@.subrange(lo as int, hi as int), sep),
        parts@.len() >= 1,
    decreases hi - lo,
{
    let ghost s = v@.subrange(lo as int, hi as int);
    if lo == hi {
        let mut parts: Vec<Vec<char>> = Vec::new();
        parts.push(Vec::new());
        proof {
            assert(s =~= Seq::<char>::empty());
            assert(views_of(parts@) =~~= split_on(s, sep));
        }
        parts
    } else if v[lo] == sep {
        let mut rest = split_chars(v, lo + 1, hi, sep);
        rest.insert(0, Vec::new());
        proof {
            assert(s.drop_first() =~= v@.subrange(lo + 1, hi as int));
            assert(s[0] == sep);
            assert(views_of(rest@) =~~= seq![Seq::<char>::empty()] + split_on(
                s.drop_first(),
                sep,
            ));
            assert(views_of(rest@) =~~= split_on(s, sep));
        }
        rest
    } else {
        let c = v[lo];
        let mut rest = split_chars(v, lo + 1, hi, sep);
        let mut first = rest.remove(0);
        first.insert(0, c);
        rest.insert(0, first);
        proof {
            assert(s.drop_first() =~= v@.subrange(lo + 1, hi as int));
            assert(s[0] == c && s[0] != sep);
            lemma_split_on_len(s.drop_first(), sep);
            assert(views_of(rest@) =~~= prepend_first(s[0], split_on(s.drop_first(), sep)));
            assert(views_of(rest@) =~~= split_on(s, sep));
        }
        rest
    }
}

/// Read one dotted-quad octet.
fn parse_octet(part: &Vec<char>) -> (r: Option<u8>)
    ensures
        valid_octet(part@) ==> r == Some(dec_value(part@) as u8),
        !valid_octet(part@) ==> r is None,
{
    let n = part.len();
    if n < 1 || n > 3 {
        return None;
    }
    if n > 1 && part[0] == '0' {
        return None;
    }
    proof {
        assert(pow_of(10, 0) == 1);
        assert(pow_of(10, 1) == 10);
        assert(pow_of(10, 2) == 100);
        assert(pow_of(10, 3) == 1000);
        assert(part@.take(0) =~= Seq::<char>::empty());
    }
    let mut acc: u32 = 0;
    let mut i: usize = 0;
    while i < n
        invariant
            i <= n,
            n == part@.len(),
            1 <= n <= 3,
            all_dec_digits(part@.take(i as int)),
            acc == dec_value(part@.take(i as int)),
            acc < pow_of(10, i as nat),
            pow_of(10, 0) == 1 && pow_of(10, 1) == 10 && pow_of(10, 2) == 100 && pow_of(10, 3)
                == 1000,
        decreases n - i,
    {
        let c = part[i];
        if c < '0' || c > '9' {
            proof {
                assert(!is_dec_digit(part@[i as int]));
                assert(!all_dec_digits(part@));
            }
            return None;
        }
        let d = c as u32 - '0' as u32;
        proof {
            assert(part@.take(i + 1).drop_last() =~= part@.take(i as int));
            assert(part@.take(i + 1).last() == part@[i as int]);
            assert(is_dec_digit(part@[i as int]));
            assert(d == dec_val(part@[i as int]));
            assert(all_dec_digits(part@.take(i + 1))) by {
                assert(forall|j: int|
                    0 <= j < i ==> part@.take(i + 1)[j] == #[trigger] part@.take(i as int)[j]);
            }
            assert(pow_of(10, (i + 1) as nat) == 10 * pow_of(10, i as nat));
        }
        acc = acc * 10 + d;
        i = i + 1;
    }
    proof {
        assert(part@.take(n as int) =~= part@);
    }
    if acc > 255 {
        return None;
    }
    Some(acc as u8)
}

/// Read the characters of `v` between `lo` and `hi` as a dotted quad.
fn parse_v4_chars(v: &Vec<char>, lo: usize, hi: usize) -> (r: Option<Ipv4Address>)
    requires
        lo <= hi && hi <= v.len(),
    ensures
        r == parse_v4(v@.subrange(lo as int, hi as int)),
{
    let ghost s = v@.subrange(lo as int, hi as int);
    let ghost sp = split_on(s, '.');
    let parts = split_chars(v, lo, hi, '.');
    proof {
        assert(forall|i: int|
            0 <= i < parts@.len() ==> views_of(parts@)[i] == (#[trigger] parts@[i])@);
    }
    if parts.len() != 4 {
        return None;
    }
    let a = match parse_octet(&parts[0]) {
        Some(x) => x,
        None => {
            return None;
        },
    };
    let b = match parse_octet(&parts[1]) {
        Some(x) => x,
        None => {
            return None;
        },
    };
    let c = match parse_octet(&parts[2]) {
        Some(x) => x,
        None => {
            return None;
        },
    };
    let d = match parse_octet(&parts[3]) {
        Some(x) => x,
        None => {
            return None;
        },
    };
    Some(Ipv4Address { a, b, c, d })
}

/// Read one hexadecimal digit.
fn hex_digit_value(c: char) -> (r: Option<u32>)
    ensures
        is_hex_digit(c) ==> r == Some(hex_val(c) as u32),
        !is_hex_digit(c) ==> r is None,
{
    if c >= '0' && c <= '9' {
        Some(c as u32 - '0' as u32)
    } else if c >= 'a' && c <= 'f' {
        Some(c as u32 - 'a' as u32 + 10)
    } else if c >= 'A' && c <= 'F' {
        Some(c as u32 - 'A' as u32 + 10)
    } else {
        None
    }
}

/// Read one 16-bit hexadecimal group.
fn parse_group(part: &Vec<char>) -> (r: Option<u16>)
    ensures
        valid_group(part@) ==> r == Some(hex_value(part@) as u16),
        !valid_group(part@) ==> r is None,
{
    let n = part.len();
    if n < 1 || n > 4 {
        return None;
    }
    proof {
        assert(pow_of(16, 0) == 1);
        assert(pow_of(16, 1) == 16);
        assert(pow_of(16, 2) == 256);
        assert(pow_of(16, 3) == 4096);
        assert(pow_of(16, 4) == 65536);
        assert(part@.take(0) =~= Seq::<char>::empty());
    }
    let mut acc: u32 = 0;
    let mut i: usize = 0;
    while i < n
        invariant
            i <= n,
            n == part@.len(),
            1 <= n <= 4,
            all_hex_digits(part@.take(i as int)),
            acc == hex_value(part@.take(i as int)),
            acc < pow_of(16, i as nat),
            pow_of(16, 0) == 1 && pow_of(16, 1) == 16 && pow_of(16, 2) == 256 && pow_of(16, 3)
                == 4096 && pow_of(16, 4) == 65536,
        decreases n - i,
    {
        let c = part[i];
        match hex_digit_value(c) {
            None => {
                proof {
                    assert(!is_hex_digit(part@[i as int]));
                    assert(!all_hex_digits(part@));
                }
                return None;
            },
            Some(d) => {
                proof {
                    assert(part@.take(i + 1).drop_last() =~= part@.take(i as int));
                    assert(part@.take(i + 1).last() == part@[i as int]);
                    assert(is_hex_digit(part@[i as int]));
                    assert(all_hex_digits(part@.take(i + 1))) by {
                        assert(forall|j: int|
                            0 <= j < i ==> part@.take(i + 1)[j] == #[trigger] part@.take(
                                i as int,
                            )[j]);
                    }
                    assert(pow_of(16, (i + 1) as nat) == 16 * pow_of(16, i as nat));
                }
                acc = acc * 16 + d;
            },
        }
        i = i + 1;
    }
    proof {
        assert(part@.take(n as int) =~= part@);
    }
    Some(acc as u16)
}

/// Read the parts from `idx` on as 16-bit groups.
fn group_items_exec(parts: &Vec<Vec<char>>, idx: usize, v4_tail: bool) -> (r: Option<Vec<u16>>)
    requires
        idx <= parts.len(),
    ensures
        group_items(views_of(parts@).skip(idx as int), v4_tail) matches Some(g) ==> (
        r matches Some(rv) && rv@ == g),
        group_items(views_of(parts@).skip(idx as int), v4_tail) is None ==> r is None,
    decreases parts.len() - idx,
{
    let ghost ps = views_of(parts@).skip(idx as int);
    if idx == parts.len() {
        proof {
            assert(ps =~= Seq::<Seq<char>>::empty());
        }
        Some(Vec::new())
    } else if idx + 1 == parts.len() {
        proof {
            assert(ps.len() == 1);
            assert(ps[0] == parts@[idx as int]@);
        }
        match parse_group(&parts[idx]) {
            Some(g) => {
                let mut one: Vec<u16> = Vec::new();
                one.push(g);
                proof {
                    assert(one@ =~= seq![hex_value(ps[0]) as u16]);
                }
                Some(one)
            },
            None => {
                if v4_tail {
                    let plen = parts[idx].len();
                    proof {
                        assert(parts@[idx as int]@.subrange(0, plen as int) =~= ps[0]);
                    }
                    match parse_v4_chars(&parts[idx], 0, plen) {
                        Some(ip) => {
                            let hi: u16 = (ip.a as u16) * 256 + (ip.b as u16);
                            let lo: u16 = (ip.c as u16) * 256 + (ip.d as u16);
                            let mut two: Vec<u16> = Vec::new();
                            two.push(hi);
                            two.push(lo);
                            proof {
                                assert(two@ =~= seq![
                                    (ip.a as int * 256 + ip.b as int) as u16,
                                    (ip.c as int * 256 + ip.d as int) as u16,
                                ]);
                            }
                            Some(two)
                        },
                        None => None,
                    }
                } else {
                    None
                }
            },
        }
    } else {
        proof {
            assert(ps.len() >= 2);
            assert(ps[0] == parts@[idx as int]@);
            assert(ps.drop_first() =~= views_of(parts@).skip(idx as int + 1));
        }
        match parse_group(&parts[idx]) {
            None => None,
            Some(g) => match group_items_exec(parts, idx + 1, v4_tail) {
                None => None,
                Some(rest) => {
                    let mut out = rest;
                    out.insert(0, g);
                    proof {
                        assert(out@ =~= seq![hex_value(ps[0]) as u16] + group_items(
                            ps.drop_first(),
                            v4_tail,
                        ).unwrap());
                    }
                    Some(out)
                },
            },
        }
    }
}

/// The position of the first `::`, if any.
fn find_dcolon(v: &Vec<char>) -> (r: Option<usize>)
    ensures
        r matches Some(i) ==> (dcolon_at(v@, i as int) && forall|j: int|
            0 <= j < i ==> !dcolon_at(v@, j)),
        r is None ==> forall|j: int| !(#[trigger] dcolon_at(v@, j)),
{
    let n = v.len();
    if n < 2 {
        return None;
    }
    let mut i: usize = 0;
    while i < n - 1
        invariant
            n == v@.len(),
            2 <= n,
            i <= n,
            forall|j: int| 0 <= j < i ==> !(#[trigger] dcolon_at(v@, j)),
        decreases n - i,
    {
        if v[i] == ':' && v[i + 1] == ':' {
            return Some(i);
        }
        i = i + 1;
    }
    None
}

/// A doubled separator leaves an empty part after the first.
proof fn lemma_split_dcolon_empty(s: Seq<char>, k: int)
    requires
        dcolon_at(s, k),
    ensures
        exists|m: int|
            1 <= m < split_on(s, ':').len() && (#[trigger] split_on(s, ':')[m]).len() == 0,
    decreases s.len(),
{
    let parts = split_on(s, ':');
    let s1 = s.drop_first();
    lemma_split_on_len(s1, ':');
    if k == 0 {
        assert(s1[0] == ':');
        assert(s1.len() > 0);
        lemma_split_on_len(s1.drop_first(), ':');
        assert(parts[1] == split_on(s1, ':')[0]);
        assert(parts[1].len() == 0);
        assert(1 <= 1 < parts.len() && parts[1].len() == 0);
    } else {
        assert(dcolon_at(s1, k - 1));
        lemma_split_dcolon_empty(s1, k - 1);
        let m1 = choose|m: int|
            1 <= m < split_on(s1, ':').len() && (#[trigger] split_on(s1, ':')[m]).len() == 0;
        if s[0] == ':' {
            assert(parts[m1 + 1] == split_on(s1, ':')[m1]);
            assert(1 <= m1 + 1 < parts.len() && parts[m1 + 1].len() == 0);
        } else {
            assert(parts[m1] == split_on(s1, ':').drop_first()[m1 - 1]);
            assert(split_on(s1, ':').drop_first()[m1 - 1] == split_on(s1, ':')[m1]);
            assert(1 <= m1 < parts.len() && parts[m1].len() == 0);
        }
    }
}

/// A trailing separator leaves an empty last part.
proof fn lemma_split_trailing(s: Seq<char>)
    requires
        s.len() > 0,
        s.last() == ':',
    ensures
        split_on(s, ':').len() >= 2,
        split_on(s, ':').last().len() == 0,
    decreases s.len(),
{
    let parts = split_on(s, ':');
    if s.len() == 1 {
        assert(s[0] == ':');
        assert(s.drop_first() =~= Seq::<char>::empty());
        assert(parts =~~= seq![Seq::<char>::empty(), Seq::<char>::empty()]);
    } else {
        let s1 = s.drop_first();
        assert(s1.last() == s.last());
        lemma_split_trailing(s1);
        let sub = split_on(s1, ':');
        if s[0] == ':' {
            assert(parts.last() == sub.last());
        } else {
            assert(parts.last() == sub.drop_first()[sub.len() - 2]);
            assert(sub.drop_first()[sub.len() - 2] == sub.last());
        }
    }
}

/// An empty part anywhere spoils a run of groups.
proof fn lemma_group_items_empty_part(parts: Seq<Seq<char>>, m: int, v4_tail: bool)
    requires
        0 <= m < parts.len(),
        parts[m].len() == 0,
    ensures
        group_items(parts, v4_tail) is None,
    decreases parts.len(),
{
    if parts.len() == 1 {
        assert(!valid_group(parts[0]));
        assert(split_on(parts[0], '.').len() == 1);
        assert(parse_v4(parts[0]) is None);
    } else {
        if m == 0 {
            assert(!valid_group(parts[0]));
        } else {
            lemma_group_items_empty_part(parts.drop_first(), m - 1, v4_tail);
        }
    }
}

/// A side holding a `::`, or ending in a colon, never parses as groups.
proof fn lemma_side_invalid(s: Seq<char>, v4_tail: bool)
    requires
        s.len() > 0,
        (exists|k: int| #[trigger] dcolon_at(s, k)) || s.last() == ':',
    ensures
        side_groups(s, v4_tail) is None,
{
    lemma_split_on_len(s, ':');
    if exists|k: int| #[trigger] dcolon_at(s, k) {
        let k = choose|k: int| #[trigger] dcolon_at(s, k);
        lemma_split_dcolon_empty(s, k);
        let m = choose|m: int|
            1 <= m < split_on(s, ':').len() && (#[trigger] split_on(s, ':')[m]).len() == 0;
        lemma_group_items_empty_part(split_on(s, ':'), m, v4_tail);
    } else {
        lemma_split_trailing(s);
        lemma_group_items_empty_part(
            split_on(s, ':'),
            split_on(s, ':').len() - 1,
            v4_tail,
        );
    }
}

/// Only the first `::` can carry a parse: any later candidate leaves a
/// colon-broken head.
proof fn lemma_dcolon_other(s: Seq<char>, i: int, j: int)
    requires
        dcolon_at(s, i),
        i < j,
    ensures
        dcolon_parse(s, j) is None,
{
    if dcolon_at(s, j) {
        let head = s.take(j);
        assert(head.len() == j && j > 0);
        if j == i + 1 {
            assert(head.last() == s[i]);
            lemma_side_invalid(head, false);
        } else {
            assert(dcolon_at(head, i));
            lemma_side_invalid(head, false);
        }
    }
}

/// With the first `::` at `i` failing to parse, no position parses.
proof fn lemma_no_dcolon_parse(s: Seq<char>, i: int)
    requires
        dcolon_at(s, i),
        forall|j: int| 0 <= j < i ==> !(#[trigger] dcolon_at(s, j)),
        dcolon_parse(s, i) is None,
    ensures
        forall|j: int| (#[trigger] dcolon_parse(s, j)) is None,
{
    assert forall|j: int| (#[trigger] dcolon_parse(s, j)) is None by {
        if j < i {
            assert(!dcolon_at(s, j));
        } else if j > i {
            lemma_dcolon_other(s, i, j);
        }
    }
}

/// The head groups, the zero run the `::` stands for, and the tail
/// groups, as the eight groups of an address.
fn fill_groups(h: Vec<u16>, t: &Vec<u16>) -> (full: Vec<u16>)
    requires
        h@.len() + t@.len() <= 7,
    ensures
        full@ == h@ + Seq::<u16>::new((8 - h@.len() - t@.len()) as nat, |j: int| 0u16) + t@,
        full@.len() == 8,
{
    let zeros: usize = 8 - h.len() - t.len();
    let ghost hs = h@;
    let ghost ts = t@;
    let ghost zs = Seq::<u16>::new(zeros as nat, |j: int| 0u16);
    let mut full = h;
    let mut z: usize = 0;
    while z < zeros
        invariant
            z <= zeros,
            full@ == hs + zs.take(z as int),
            zs == Seq::<u16>::new(zeros as nat, |j: int| 0u16),
        decreases zeros - z,
    {
        full.push(0u16);
        proof {
            assert(zs[z as int] == 0u16);
            assert(zs.take(z + 1) =~= zs.take(z as int).push(0u16));
            assert(full@ =~= hs + zs.take(z + 1));
        }
        z = z + 1;
    }
    proof {
        assert(zs.take(zeros as int) =~= zs);
    }
    let mut k: usize = 0;
    while k < t.len()
        invariant
            k <= t.len(),
            ts == t@,
            full@ == hs + zs + ts.take(k as int),
            zs == Seq::<u16>::new(zeros as nat, |j: int| 0u16),
        decreases t.len() - k,
    {
        full.push(t[k]);
        proof {
            assert(full@ =~= hs + zs + ts.take(k + 1));
        }
        k = k + 1;
    }
    proof {
        assert(ts.take(ts.len() as int) =~= ts);
        assert(full@ =~= hs + zs + ts);
    }
    full
}

/// Eight groups as an IPv6 address.
fn build_v6(g: &Vec<u16>) -> (r: Ipv6Address)
    requires
        g@.len() == 8,
    ensures
        r == groups_to_v6(g@),
{
    Ipv6Address {
        g0: g[0],
        g1: g[1],
        g2: g[2],
        g3: g[3],
        g4: g[4],
        g5: g[5],
        g6: g[6],
        g7: g[7],
    }
}

/// Read the characters of `v` as an IPv6 literal.
#[verifier::loop_isolation(false)]
#[verifier::rlimit(50)]
fn parse_v6_chars(v: &Vec<char>) -> (r: Option<Ipv6Address>)
    ensures
        r == parse_v6(v@),
{
    let ghost s = v@;
    let n = v.len();
    match find_dcolon(v) {
        None => {
            proof {
                assert(forall|j: int| (#[trigger] dcolon_parse(s, j)) is None);
            }
            if n == 0 {
                return None;
            }
            let parts = split_chars(v, 0, n, ':');
            proof {
                assert(v@.subrange(0, n as int) =~= s);
                assert(views_of(parts@).skip(0) =~= views_of(parts@));
            }
            match group_items_exec(&parts, 0, true) {
                Some(g) => if g.len() == 8 {
                    Some(build_v6(&g))
                } else {
                    None
                },
                None => None,
            }
        },
        Some(i) => {
            let ghost gi = i as int;
            let hg: Option<Vec<u16>> = if i == 0 {
                proof {
                    assert(s.take(0) =~= Seq::<char>::empty());
                }
                Some(Vec::new())
            } else {
                let hparts = split_chars(v, 0, i, ':');
                proof {
                    assert(v@.subrange(0, gi) =~= s.take(gi));
                    assert(views_of(hparts@).skip(0) =~= views_of(hparts@));
                    assert(s.take(gi).len() > 0);
                }
                group_items_exec(&hparts, 0, false)
            };
            let tg: Option<Vec<u16>> = if i + 2 == n {
                proof {
                    assert(s.skip(gi + 2) =~= Seq::<char>::empty());
                }
                Some(Vec::new())
            } else {
                let tparts = split_chars(v, i + 2, n, ':');
                proof {
                    assert(v@.subrange(gi + 2, n as int) =~= s.skip(gi + 2));
                    assert(views_of(tparts@).skip(0) =~= views_of(tparts@));
                    assert(s.skip(gi + 2).len() > 0);
                }
                group_items_exec(&tparts, 0, true)
            };
            match (hg, tg) {
                (Some(h), Some(t)) => {
                    if h.len() <= 7 && t.len() <= 7 - h.len() {
                        let full = fill_groups(h, &t);
                        proof {
                            assert(dcolon_parse(s, gi) == Some(full@));
                            let w = choose|j: int| (#[trigger] dcolon_parse(s, j)) is Some;
                            if w != gi {
                                if w < gi {
                                    assert(!dcolon_at(s, w));
                                } else {
                                    lemma_dcolon_other(s, gi, w);
                                }
                            }
                            assert(v6_groups(s) == Some(full@));
                        }
                        Some(build_v6(&full))
                    } else {
                        proof {
                            lemma_no_dcolon_parse(s, gi);
                            assert(dcolon_at(s, gi));
                        }
                        None
                    }
                },
                _ => {
                    proof {
                        lemma_no_dcolon_parse(s, gi);
                        assert(dcolon_at(s, gi));
                    }
                    None
                },
            }
        },
    }
}

impl SocketAddrs {
    /// Parse `host` directly as an IPv4 or IPv6 literal: on success, a
    /// single-element sequence of that address with the given port,
    /// touching neither the override table nor any resolver; on any
    /// other string, nothing.
    pub fn try_parse(host: &str, port: u16) -> (r: Option<SocketAddrs>)
        ensures
            literal_spec(host@, port) matches Some(a) ==> (r matches Some(q) && q@ == seq![a]),
            literal_spec(host@, port) is None ==> r is None,
    {
        let v = chars_of(host);
        let n = v.len();
        proof {
            assert(v@.subrange(0, n as int) =~= v@);
        }
        if let Some(ip) = parse_v4_chars(&v, 0, n) {
            let mut one: Vec<SockAddr> = Vec::new();
            one.push(SockAddr { ip: IpAddress::V4(ip), port });
            proof {
                assert(one@ =~= seq![SockAddr { ip: IpAddress::V4(ip), port }]);
            }
            return Some(SocketAddrs::new(one));
        }
        if let Some(ip6) = parse_v6_chars(&v) {
            let mut one: Vec<SockAddr> = Vec::new();
            one.push(SockAddr { ip: IpAddress::V6(ip6), port });
            proof {
                assert(one@ =~= seq![SockAddr { ip: IpAddress::V6(ip6), port }]);
            }
            return Some(SocketAddrs::new(one));
        }
        None
    }
}

/// What parsing a host string as a literal with a port yields.
pub open spec fn literal_spec(s: Seq<char>, port: u16) -> Option<SockAddr> {
    if parse_v4(s) is Some {
        Some(SockAddr { ip: IpAddress::V4(parse_v4(s).unwrap()), port })
    } else if parse_v6(s) is Some {
        Some(SockAddr { ip: IpAddress::V6(parse_v6(s).unwrap()), port })
    } else {
        None
    }
}

} // verus!
