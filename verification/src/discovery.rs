//! Camera discovery records and IPv4 address text conversion.

use vstd::prelude::*;
use vstd::string::StringExecFns;

use crate::text::{
    all_digits, chars_of, dec, digits_value, is_digit, lemma_dec_facts, lemma_dec_of_digits,
    lemma_digits_value_prefix_le, push_char, push_decimal,
};

verus! {

/// A camera found on the network.
pub struct CameraInfo {
    /// Device identifier as the camera driver reports it.
    pub id: String,
    /// Physical address (MAC or IP).
    pub physical_id: String,
    /// Network address.
    pub address: String,
    /// Vendor name.
    pub vendor: String,
    /// Model name.
    pub model: String,
    /// Protocol (`"GigEVision"` or `"USB3Vision"`).
    pub protocol: String,
}

/// The identifiers of the given cameras, in the same order.
pub fn get_all_camera_ids(cameras: &Vec<CameraInfo>) -> (ids: Vec<String>)
    ensures
        ids@.len() == cameras@.len(),
        forall|i: int| 0 <= i < ids@.len() ==> #[trigger] ids@[i]@ == cameras@[i].id@,
{
    let mut ids: Vec<String> = Vec::new();
    let mut i: usize = 0;
    while i < cameras.len()
        invariant
            i <= cameras@.len(),
            ids@.len() == i,
            forall|j: int| 0 <= j < i ==> #[trigger] ids@[j]@ == cameras@[j].id@,
        decreases cameras@.len() - i,
    {
        ids.push(cameras[i].id.clone());
        i = i + 1;
    }
    ids
}

// ───────────────────────── text model of `str::split('.')` and `u32::from_str` ─────────────────────────

/// The pieces of `s` between `'.'` characters, as `str::split('.')` yields them
/// (an empty string gives one empty piece).
pub open spec fn split_dots(s: Seq<char>) -> Seq<Seq<char>>
    decreases s.len(),
{
    if s.len() == 0 {
        seq![Seq::<char>::empty()]
    } else {
        let r = split_dots(s.drop_last());
        if s.last() == '.' {
            r.push(Seq::<char>::empty())
        } else {
            r.update(r.len() - 1, r.last().push(s.last()))
        }
    }
}

/// Pieces joined back with `'.'` between neighbours.
pub open spec fn join_dots(ps: Seq<Seq<char>>) -> Seq<char>
    decreases ps.len(),
{
    if ps.len() <= 1 {
        if ps.len() == 1 { ps[0] } else { Seq::<char>::empty() }
    } else {
        join_dots(ps.drop_last()) + seq!['.'] + ps.last()
    }
}

/// What `u32::from_str` gives: an optional leading `'+'`, then at least one
/// ASCII digit and nothing else, with a value that fits in 32 bits.
pub open spec fn parse_u32(p: Seq<char>) -> Option<u32> {
    let d = if p.len() > 0 && p[0] == '+' { p.drop_first() } else { p };
    if d.len() > 0 && all_digits(d) && digits_value(d) <= u32::MAX {
        Some(digits_value(d) as u32)
    } else {
        None
    }
}

/// The values of the pieces that parse, in order (pieces that do not parse are skipped).
pub open spec fn parsed_parts(ps: Seq<Seq<char>>) -> Seq<u32>
    decreases ps.len(),
{
    if ps.len() == 0 {
        Seq::<u32>::empty()
    } else {
        let r = parsed_parts(ps.drop_last());
        match parse_u32(ps.last()) {
            Some(v) => r.push(v),
            None => r,
        }
    }
}

/// Four parts combined big-endian with 32-bit shifts; anything but four parts gives 0.
pub open spec fn ip_from_parts(p: Seq<u32>) -> u32 {
    if p.len() == 4 {
        (p[0] << 24u32) | (p[1] << 16u32) | (p[2] << 8u32) | p[3]
    } else {
        0
    }
}

/// The address value of an IPv4 text.
pub open spec fn ip_value(s: Seq<char>) -> u32 {
    ip_from_parts(parsed_parts(split_dots(s)))
}

/// The byte of `ip` that starts at bit `shift`.
pub open spec fn octet(ip: u32, shift: u32) -> u32 {
    (ip >> shift) & 0xFFu32
}

/// The dotted-quad text of an address value.
pub open spec fn ip_text(ip: u32) -> Seq<char> {
    dec(octet(ip, 24) as nat) + seq!['.'] + dec(octet(ip, 16) as nat) + seq!['.'] + dec(
        octet(ip, 8) as nat,
    ) + seq!['.'] + dec(octet(ip, 0) as nat)
}

/// One canonical decimal octet: digits only, no leading zero, at most 255.
pub open spec fn canonical_octet(p: Seq<char>) -> bool {
    &&& p.len() > 0
    &&& all_digits(p)
    &&& p.len() > 1 ==> p[0] != '0'
    &&& digits_value(p) <= 255
}

/// Four canonical decimal octets separated by dots, e.g. `"172.16.0.254"`.
pub open spec fn is_dotted_quad(s: Seq<char>) -> bool {
    let ps = split_dots(s);
    &&& ps.len() == 4
    &&& forall|i: int| 0 <= i < 4 ==> #[trigger] canonical_octet(ps[i])
}

// ───────────────────────── executable conversions ─────────────────────────

/// `u32::from_str` on the characters of one piece.
pub fn parse_piece(p: &Vec<char>) -> (r: Option<u32>)
    ensures
        r == parse_u32(p@),
{
    let mut start: usize = 0;
    if p.len() > 0 && p[0] == '+' {
        start = 1;
    }
    let ghost d = if p@.len() > 0 && p@[0] == '+' { p@.drop_first() } else { p@ };
    if start >= p.len() {
        return None;
    }
    let mut v: u64 = 0;
    let mut i: usize = start;
    while i < p.len()
        invariant
            start <= i <= p@.len(),
            start == p@.len() - d.len(),
            d == p@.subrange(start as int, p@.len() as int),
            d == (if p@.len() > 0 && p@[0] == '+' { p@.drop_first() } else { p@ }),
            all_digits(d.take(i - start)),
            v == digits_value(d.take(i - start)),
            v <= u32::MAX,
        decreases p@.len() - i,
    {
        let c = p[i];
        if !('0' <= c && c <= '9') {
            proof {
                assert(d[i - start] == p@[i as int]);
                assert(!is_digit(d[i - start]));
                assert(!all_digits(d));
            }
            return None;
        }
        let digit = (c as u32 - '0' as u32) as u64;
        proof {
            assert(d.take(i - start + 1).drop_last() =~= d.take(i - start));
        }
        v = v * 10 + digit;
        if v > u32::MAX as u64 {
            proof {
                assert(d[i - start] == p@[i as int]);
                assert forall|k: int| 0 <= k < d.take(i - start + 1).len() implies #[trigger] is_digit(
                    d.take(i - start + 1)[k],
                ) by {
                    if k < i - start {
                        assert(d.take(i - start + 1)[k] == d.take(i - start)[k]);
                    }
                }
                lemma_digits_value_prefix_le(d, i - start + 1);
            }
            return None;
        }
        i = i + 1;
    }
    proof {
        assert(d.take(i - start) =~= d);
    }
    Some(v as u32)
}

/// The address value of an IPv4 text such as `"192.168.1.100"`.
///
/// The text is cut at every `'.'`; pieces that are not an unsigned 32-bit
/// number are skipped; exactly four numbers give
/// `(a << 24) | (b << 16) | (c << 8) | d` in 32-bit arithmetic, and anything
/// else gives 0.
pub fn ip_str_to_u32(ip: &str) -> (r: u32)
    ensures
        r == ip_value(ip@),
{
    let cs = chars_of(ip);
    let ghost s = cs@;
    let mut parts: Vec<u32> = Vec::new();
    let mut piece: Vec<char> = Vec::new();
    let mut i: usize = 0;
    proof {
        assert(split_dots(s.take(0)) =~= seq![Seq::<char>::empty()]);
        assert(split_dots(s.take(0)).drop_last() =~= Seq::<Seq<char>>::empty());
    }
    while i < cs.len()
        invariant
            s == cs@,
            i <= s.len(),
            piece@ == split_dots(s.take(i as int)).last(),
            parts@ == parsed_parts(split_dots(s.take(i as int)).drop_last()),
            split_dots(s.take(i as int)).len() >= 1,
        decreases s.len() - i,
    {
        let c = cs[i];
        let ghost prev = split_dots(s.take(i as int));
        proof {
            assert(s.take(i + 1).drop_last() =~= s.take(i as int));
        }
        if c == '.' {
            let r = parse_piece(&piece);
            proof {
                assert(split_dots(s.take(i + 1)) == prev.push(Seq::<char>::empty()));
                assert(split_dots(s.take(i + 1)).drop_last() =~= prev);
                assert(prev.drop_last().push(prev.last()) =~= prev);
            }
            match r {
                Some(v) => parts.push(v),
                None => {},
            }
            piece = Vec::new();
        } else {
            piece.push(c);
            proof {
                let nxt = split_dots(s.take(i + 1));
                assert(nxt == prev.update(prev.len() - 1, prev.last().push(c)));
                assert(nxt.drop_last() =~= prev.drop_last());
            }
        }
        i = i + 1;
    }
    let last = parse_piece(&piece);
    proof {
        let all = split_dots(s.take(i as int));
        assert(s.take(i as int) =~= s);
        assert(all.drop_last().push(all.last()) =~= all);
    }
    match last {
        Some(v) => parts.push(v),
        None => {},
    }
    if parts.len() == 4 {
        (parts[0] << 24u32) | (parts[1] << 16u32) | (parts[2] << 8u32) | parts[3]
    } else {
        0
    }
}

/// The dotted-quad text of an address value, e.g. `0xC0A80164` gives `"192.168.1.100"`.
pub fn u32_to_ip_str(ip: u32) -> (s: String)
    ensures
        s@ == ip_text(ip),
{
    let mut s = String::new();
    push_decimal(&mut s, ((ip >> 24u32) & 0xFFu32) as u64);
    push_char(&mut s, '.');
    push_decimal(&mut s, ((ip >> 16u32) & 0xFFu32) as u64);
    push_char(&mut s, '.');
    push_decimal(&mut s, ((ip >> 8u32) & 0xFFu32) as u64);
    push_char(&mut s, '.');
    push_decimal(&mut s, (ip & 0xFFu32) as u64);
    proof {
        assert(ip >> 0u32 == ip) by (bit_vector);
    }
    s
}

// ───────────────────────── forcing a persistent IP ─────────────────────────

/// The GenICam feature writes, in order, that give a camera a persistent IP
/// configuration: link-local and DHCP off, persistent IP on, then the address,
/// subnet mask and default gateway as 32-bit values.
pub open spec fn persistent_ip_writes(ip: Seq<char>, subnet: Seq<char>, gateway: Seq<char>) -> Seq<
    (Seq<char>, int),
> {
    seq![
        ("GevCurrentIPConfigurationLLA"@, 0int),
        ("GevCurrentIPConfigurationDHCP"@, 0int),
        ("GevCurrentIPConfigurationPersistentIP"@, 1int),
        ("GevPersistentIPAddress"@, ip_value(ip) as int),
        ("GevPersistentSubnetMask"@, ip_value(subnet) as int),
        ("GevPersistentDefaultGateway"@, ip_value(gateway) as int),
    ]
}

/// The feature writes that force a camera to a persistent IP address, subnet
/// mask and gateway, each given as dotted-quad text.
pub fn force_ip_settings(ip: &str, subnet: &str, gateway: &str) -> (w: Vec<(String, i64)>)
    ensures
        w@.len() == 6,
        forall|i: int|
            0 <= i < 6 ==> (#[trigger] w@[i]).0@ == persistent_ip_writes(ip@, subnet@, gateway@)[i].0
                && w@[i].1 as int == persistent_ip_writes(ip@, subnet@, gateway@)[i].1,
{
    let ip_int = ip_str_to_u32(ip);
    let subnet_int = ip_str_to_u32(subnet);
    let gateway_int = ip_str_to_u32(gateway);
    let w = vec![
        (String::from_str("GevCurrentIPConfigurationLLA"), 0i64),
        (String::from_str("GevCurrentIPConfigurationDHCP"), 0i64),
        (String::from_str("GevCurrentIPConfigurationPersistentIP"), 1i64),
        (String::from_str("GevPersistentIPAddress"), ip_int as i64),
        (String::from_str("GevPersistentSubnetMask"), subnet_int as i64),
        (String::from_str("GevPersistentDefaultGateway"), gateway_int as i64),
    ];
    w
}

// ───────────────────────── lemmas and laws ─────────────────────────

/// Splitting always yields at least one piece.
pub proof fn lemma_split_len(s: Seq<char>)
    ensures
        split_dots(s).len() >= 1,
    decreases s.len(),
{
    if s.len() > 0 {
        lemma_split_len(s.drop_last());
    }
}

/// A text without dots is a single piece.
pub proof fn lemma_split_no_dot(d: Seq<char>)
    requires
        forall|i: int| 0 <= i < d.len() ==> d[i] != '.',
    ensures
        split_dots(d) == seq![d],
    decreases d.len(),
{
    if d.len() == 0 {
        assert(d =~= Seq::<char>::empty());
        assert(split_dots(d) =~= seq![d]);
    } else {
        let e = d.drop_last();
        assert forall|i: int| 0 <= i < e.len() implies e[i] != '.' by {
            assert(e[i] == d[i]);
        }
        lemma_split_no_dot(e);
        assert(d.last() != '.');
        assert(e.push(d.last()) =~= d);
        let r = split_dots(e);
        assert(r.len() == 1 && r[0] == e && r.last() == e);
        assert(split_dots(d) == r.update(0, e.push(d.last())));
        assert(split_dots(d) =~= seq![d]);
    }
}

/// Splitting `a . b` gives the pieces of `a` followed by the pieces of `b`.
pub proof fn lemma_split_dot_concat(a: Seq<char>, b: Seq<char>)
    ensures
        split_dots(a + seq!['.'] + b) == split_dots(a) + split_dots(b),
    decreases b.len(),
{
    let x = a + seq!['.'] + b;
    if b.len() == 0 {
        assert(x.drop_last() =~= a);
        assert(split_dots(x) =~= split_dots(a) + split_dots(b));
    } else {
        let b1 = b.drop_last();
        assert(x.drop_last() =~= a + seq!['.'] + b1);
        lemma_split_dot_concat(a, b1);
        lemma_split_len(b1);
        let sa = split_dots(a);
        let sb1 = split_dots(b1);
        assert(x.last() == b.last());
        if b.last() == '.' {
            assert(split_dots(x) =~= sa + split_dots(b));
        } else {
            let r = sa + sb1;
            assert(r.last() == sb1.last());
            assert(r.update(r.len() - 1, r.last().push(b.last())) =~= sa + sb1.update(
                sb1.len() - 1,
                sb1.last().push(b.last()),
            ));
        }
    }
}

/// Joining the pieces of a text with dots gives the text back.
pub proof fn lemma_join_split(s: Seq<char>)
    ensures
        join_dots(split_dots(s)) == s,
    decreases s.len(),
{
    if s.len() == 0 {
        assert(join_dots(split_dots(s)) =~= s);
    } else {
        let e = s.drop_last();
        lemma_join_split(e);
        lemma_split_len(e);
        let r = split_dots(e);
        if s.last() == '.' {
            let r2 = r.push(Seq::<char>::empty());
            assert(r2.drop_last() =~= r);
            assert(join_dots(r2) =~= s);
        } else {
            let r2 = r.update(r.len() - 1, r.last().push(s.last()));
            if r.len() == 1 {
                assert(join_dots(r) == r[0]);
                assert(r2.len() == 1);
                assert(join_dots(r2) == r2[0]);
                assert(s =~= e.push(s.last()));
                assert(join_dots(r2) =~= s);
            } else {
                assert(r2.drop_last() =~= r.drop_last());
                assert(join_dots(r) == join_dots(r.drop_last()) + seq!['.'] + r.last());
                assert(r2.last() == r.last().push(s.last()));
                assert(join_dots(r2) == join_dots(r.drop_last()) + seq!['.'] + r.last().push(s.last()));
                assert(s =~= e.push(s.last()));
                assert(join_dots(r2) =~= s);
            }
        }
    }
}

/// The decimal rendering of a number that fits in 32 bits parses back to it.
pub proof fn lemma_parse_dec(n: nat)
    requires
        n <= u32::MAX,
    ensures
        parse_u32(dec(n)) == Some(n as u32),
        forall|i: int| 0 <= i < dec(n).len() ==> dec(n)[i] != '.',
{
    lemma_dec_facts(n);
    assert(is_digit(dec(n)[0]));
    assert forall|i: int| 0 <= i < dec(n).len() implies dec(n)[i] != '.' by {
        assert(is_digit(dec(n)[i]));
    }
}

/// The parts of four pieces that all parse are their four values.
proof fn lemma_parsed_parts_four(ps: Seq<Seq<char>>, a: u32, b: u32, c: u32, d: u32)
    requires
        ps.len() == 4,
        parse_u32(ps[0]) == Some(a),
        parse_u32(ps[1]) == Some(b),
        parse_u32(ps[2]) == Some(c),
        parse_u32(ps[3]) == Some(d),
    ensures
        parsed_parts(ps) == seq![a, b, c, d],
{
    let p3 = ps.drop_last();
    let p2 = p3.drop_last();
    let p1 = p2.drop_last();
    let p0 = p1.drop_last();
    assert(p0 =~= Seq::<Seq<char>>::empty());
    assert(parsed_parts(p0) == Seq::<u32>::empty());
    assert(parsed_parts(p1) =~= seq![a]);
    assert(parsed_parts(p2) =~= seq![a, b]);
    assert(parsed_parts(p3) =~= seq![a, b, c]);
    assert(parsed_parts(ps) =~= seq![a, b, c, d]);
}

/// Law: reading back the dotted-quad text of any 32-bit address gives that address.
pub proof fn law_value_of_ip_text(ip: u32)
    ensures
        ip_value(ip_text(ip)) == ip,
{
    let o3 = octet(ip, 24);
    let o2 = octet(ip, 16);
    let o1 = octet(ip, 8);
    let o0 = octet(ip, 0);
    assert(o3 <= 255 && o2 <= 255 && o1 <= 255 && o0 <= 255) by (bit_vector)
        requires
            o3 == (ip >> 24u32) & 0xFFu32,
            o2 == (ip >> 16u32) & 0xFFu32,
            o1 == (ip >> 8u32) & 0xFFu32,
            o0 == (ip >> 0u32) & 0xFFu32,
    ;
    let d3 = dec(o3 as nat);
    let d2 = dec(o2 as nat);
    let d1 = dec(o1 as nat);
    let d0 = dec(o0 as nat);
    lemma_parse_dec(o3 as nat);
    lemma_parse_dec(o2 as nat);
    lemma_parse_dec(o1 as nat);
    lemma_parse_dec(o0 as nat);
    lemma_split_no_dot(d3);
    lemma_split_no_dot(d2);
    lemma_split_no_dot(d1);
    lemma_split_no_dot(d0);
    let a2 = d3 + seq!['.'] + d2;
    let a1 = a2 + seq!['.'] + d1;
    lemma_split_dot_concat(d3, d2);
    lemma_split_dot_concat(a2, d1);
    lemma_split_dot_concat(a1, d0);
    let ps = split_dots(ip_text(ip));
    assert(ps =~= seq![d3, d2, d1, d0]);
    lemma_parsed_parts_four(ps, o3, o2, o1, o0);
    assert((o3 << 24u32) | (o2 << 16u32) | (o1 << 8u32) | o0 == ip) by (bit_vector)
        requires
            o3 == (ip >> 24u32) & 0xFFu32,
            o2 == (ip >> 16u32) & 0xFFu32,
            o1 == (ip >> 8u32) & 0xFFu32,
            o0 == (ip >> 0u32) & 0xFFu32,
    ;
}

/// Law: a text of four canonical decimal octets separated by dots is
/// rendered back exactly from its address value.
pub proof fn law_ip_text_of_dotted_quad(s: Seq<char>)
    requires
        is_dotted_quad(s),
    ensures
        ip_text(ip_value(s)) == s,
{
    let ps = split_dots(s);
    assert(canonical_octet(ps[0]));
    assert(canonical_octet(ps[1]));
    assert(canonical_octet(ps[2]));
    assert(canonical_octet(ps[3]));
    let v0 = digits_value(ps[0]) as u32;
    let v1 = digits_value(ps[1]) as u32;
    let v2 = digits_value(ps[2]) as u32;
    let v3 = digits_value(ps[3]) as u32;
    lemma_dec_of_digits(ps[0]);
    lemma_dec_of_digits(ps[1]);
    lemma_dec_of_digits(ps[2]);
    lemma_dec_of_digits(ps[3]);
    lemma_parse_dec(v0 as nat);
    lemma_parse_dec(v1 as nat);
    lemma_parse_dec(v2 as nat);
    lemma_parse_dec(v3 as nat);
    lemma_parsed_parts_four(ps, v0, v1, v2, v3);
    let ip = (v0 << 24u32) | (v1 << 16u32) | (v2 << 8u32) | v3;
    assert(ip_value(s) == ip);
    assert(octet(ip, 24) == v0 && octet(ip, 16) == v1 && octet(ip, 8) == v2 && octet(ip, 0) == v3)
        by (bit_vector)
        requires
            ip == (v0 << 24u32) | (v1 << 16u32) | (v2 << 8u32) | v3,
            v0 <= 255,
            v1 <= 255,
            v2 <= 255,
            v3 <= 255,
    ;
    lemma_join_split(s);
    let j1 = ps.drop_last();
    let j2 = j1.drop_last();
    let j3 = j2.drop_last();
    assert(j3 =~= seq![ps[0]]);
    assert(join_dots(j3) == ps[0]);
    assert(join_dots(j2) == ps[0] + seq!['.'] + ps[1]);
    assert(join_dots(j1) == ps[0] + seq!['.'] + ps[1] + seq!['.'] + ps[2]);
    assert(join_dots(ps) == ps[0] + seq!['.'] + ps[1] + seq!['.'] + ps[2] + seq!['.'] + ps[3]);
}

} // verus!
