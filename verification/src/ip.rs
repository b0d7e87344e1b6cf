//! IP addresses of the value model, their canonical text, and the
//! IPv4-with-prefix text format that the schema decodes.
use vstd::prelude::*;
use crate::text::{
    chars_of, decimal, digit_char, digit_value, digits_value, is_canonical_decimal, is_digit,
    lemma_canonical_decimal, lemma_decimal, push_char, push_decimal,
};

verus! {

/// An IPv4 or IPv6 address, held as its 32-bit or 128-bit number
/// (most significant octet first, as on the wire).
#[derive(Clone, Copy, Debug, PartialEq, Eq, Structural, Hash)]
pub enum IpAddr {
    /// An IPv4 address.
    V4(u32),
    /// An IPv6 address.
    V6(u128),
}

/// The four octets of an IPv4 address, most significant first.
pub open spec fn ipv4_octets(a: u32) -> Seq<nat> {
    seq![
        ((a / 16777216) % 256) as nat,
        ((a / 65536) % 256) as nat,
        ((a / 256) % 256) as nat,
        (a % 256) as nat,
    ]
}

/// Dotted-decimal text of an IPv4 address, e.g. `10.0.1.5`.
pub open spec fn ipv4_text(a: u32) -> Seq<char> {
    let o = ipv4_octets(a);
    decimal(o[0]) + seq!['.'] + decimal(o[1]) + seq!['.'] + decimal(o[2]) + seq!['.'] + decimal(o[3])
}

/// The eight 16-bit segments of an IPv6 address, most significant first.
pub open spec fn ipv6_segments(a: u128) -> Seq<nat> {
    seq![
        ((a / 5192296858534827628530496329220096) % 65536) as nat,
        ((a / 79228162514264337593543950336) % 65536) as nat,
        ((a / 1208925819614629174706176) % 65536) as nat,
        ((a / 18446744073709551616) % 65536) as nat,
        ((a / 281474976710656) % 65536) as nat,
        ((a / 4294967296) % 65536) as nat,
        ((a / 65536) % 65536) as nat,
        (a % 65536) as nat,
    ]
}

/// A lower-case hexadecimal digit.
pub open spec fn hex_char(d: nat) -> char {
    if d < 10 { digit_char(d) }
    else if d == 10 { 'a' }
    else if d == 11 { 'b' }
    else if d == 12 { 'c' }
    else if d == 13 { 'd' }
    else if d == 14 { 'e' }
    else { 'f' }
}

/// Lower-case hexadecimal text without leading zeros (`{:x}`).
pub open spec fn hex(n: nat) -> Seq<char>
    decreases n,
{
    if n < 16 {
        seq![hex_char(n)]
    } else {
        hex(n / 16).push(hex_char(n % 16))
    }
}

/// Segments in hexadecimal, separated by `:`.
pub open spec fn join_hex(s: Seq<nat>) -> Seq<char>
    decreases s.len(),
{
    if s.len() == 0 {
        Seq::empty()
    } else if s.len() == 1 {
        hex(s[0])
    } else {
        join_hex(s.drop_last()) + seq![':'] + hex(s.last())
    }
}

/// The number of consecutive zero segments starting at `i`.
pub open spec fn zero_run(s: Seq<nat>, i: int) -> nat
    decreases s.len() - i,
{
    if i < 0 || i >= s.len() || s[i] != 0 {
        0
    } else {
        1 + zero_run(s, i + 1)
    }
}

/// The longest zero run starting before `n`.
pub open spec fn longest_zero_run(s: Seq<nat>, n: int) -> nat
    decreases n,
{
    if n <= 0 {
        0
    } else if zero_run(s, n - 1) > longest_zero_run(s, n - 1) {
        zero_run(s, n - 1)
    } else {
        longest_zero_run(s, n - 1)
    }
}

/// Where the first longest zero run starting before `n` starts.
pub open spec fn longest_zero_run_start(s: Seq<nat>, n: int) -> int
    decreases n,
{
    if n <= 0 {
        0
    } else if zero_run(s, n - 1) > longest_zero_run(s, n - 1) {
        n - 1
    } else {
        longest_zero_run_start(s, n - 1)
    }
}

/// Whether an IPv6 address is an IPv4-mapped one (`::ffff:a.b.c.d`).
pub open spec fn is_ipv4_mapped(a: u128) -> bool {
    let s = ipv6_segments(a);
    s[0] == 0 && s[1] == 0 && s[2] == 0 && s[3] == 0 && s[4] == 0 && s[5] == 65535
}

/// Canonical IPv6 text (RFC 5952, as std prints it): IPv4-mapped addresses as
/// `::ffff:` and dotted decimal; otherwise lower-case hex segments, with the
/// first longest run of two or more zero segments written `::`.
pub open spec fn ipv6_text(a: u128) -> Seq<char> {
    let s = ipv6_segments(a);
    if is_ipv4_mapped(a) {
        seq![':', ':', 'f', 'f', 'f', 'f', ':'] + ipv4_text((a % 4294967296) as u32)
    } else {
        let len = longest_zero_run(s, 8);
        let start = longest_zero_run_start(s, 8);
        if len > 1 {
            join_hex(s.subrange(0, start)) + seq![':', ':'] + join_hex(s.subrange(start + len, 8))
        } else {
            join_hex(s)
        }
    }
}

/// Canonical text of an address.
pub open spec fn ip_text(a: IpAddr) -> Seq<char> {
    match a {
        IpAddr::V4(x) => ipv4_text(x),
        IpAddr::V6(x) => ipv6_text(x),
    }
}

/// Canonical text of an address with a prefix length, e.g. `10.0.1.50/24`.
pub open spec fn network_text(a: IpAddr, prefix: u8) -> Seq<char> {
    ip_text(a) + seq!['/'] + decimal(prefix as nat)
}

fn hex_digit(d: u64) -> (c: char)
    requires
        d < 16,
    ensures
        c == hex_char(d as nat),
{
    if d < 10 {
        if d == 0 { '0' }
        else if d == 1 { '1' }
        else if d == 2 { '2' }
        else if d == 3 { '3' }
        else if d == 4 { '4' }
        else if d == 5 { '5' }
        else if d == 6 { '6' }
        else if d == 7 { '7' }
        else if d == 8 { '8' }
        else { '9' }
    } else if d == 10 { 'a' }
    else if d == 11 { 'b' }
    else if d == 12 { 'c' }
    else if d == 13 { 'd' }
    else if d == 14 { 'e' }
    else { 'f' }
}

fn push_hex(s: &mut String, n: u64)
    ensures
        final(s)@ == old(s)@ + hex(n as nat),
    decreases n,
{
    if n >= 16 {
        push_hex(s, n / 16);
    }
    push_char(s, hex_digit(n % 16));
    proof {
        if n >= 16 {
            assert(old(s)@ + hex(n as nat) =~= old(s)@ + hex((n / 16) as nat) + seq![hex_char((n % 16) as nat)]);
        } else {
            assert(old(s)@ + hex(n as nat) =~= old(s)@.push(hex_char(n as nat)));
        }
    }
}

fn push_ipv4(s: &mut String, a: u32)
    ensures
        final(s)@ == old(s)@ + ipv4_text(a),
{
    let ghost start = s@;
    push_decimal(s, ((a / 16777216) % 256) as u64);
    push_char(s, '.');
    push_decimal(s, ((a / 65536) % 256) as u64);
    push_char(s, '.');
    push_decimal(s, ((a / 256) % 256) as u64);
    push_char(s, '.');
    push_decimal(s, (a % 256) as u64);
    assert(s@ =~= start + ipv4_text(a));
}

fn ipv6_segment_values(a: u128) -> (v: Vec<u64>)
    ensures
        v.len() == 8,
        forall|i: int| 0 <= i < 8 ==> v@[i] as nat == #[trigger] ipv6_segments(a)[i],
{
    let mut v: Vec<u64> = Vec::new();
    v.push(((a / 5192296858534827628530496329220096) % 65536) as u64);
    v.push(((a / 79228162514264337593543950336) % 65536) as u64);
    v.push(((a / 1208925819614629174706176) % 65536) as u64);
    v.push(((a / 18446744073709551616) % 65536) as u64);
    v.push(((a / 281474976710656) % 65536) as u64);
    v.push(((a / 4294967296) % 65536) as u64);
    v.push(((a / 65536) % 65536) as u64);
    v.push((a % 65536) as u64);
    v
}

/// The segments as a sequence of naturals.
spec fn nat_seq(v: Seq<u64>) -> Seq<nat> {
    v.map_values(|x: u64| x as nat)
}

/// Appends `s[lo..hi]` in hexadecimal, separated by `:`.
fn push_join_hex(out: &mut String, segs: &Vec<u64>, lo: usize, hi: usize)
    requires
        lo <= hi <= segs.len(),
    ensures
        final(out)@ == old(out)@ + join_hex(nat_seq(segs@).subrange(lo as int, hi as int)),
{
    let ghost s = nat_seq(segs@);
    if lo == hi {
        assert(s.subrange(lo as int, hi as int).len() == 0);
        assert(old(out)@ + join_hex(s.subrange(lo as int, hi as int)) =~= old(out)@);
        return;
    }
    push_hex(out, segs[lo]);
    assert(s.subrange(lo as int, lo + 1) =~= seq![segs@[lo as int] as nat]);
    assert(join_hex(s.subrange(lo as int, lo + 1)) == hex(segs@[lo as int] as nat));
    let mut k = lo + 1;
    while k < hi
        invariant
            lo < k <= hi <= segs.len(),
            s == nat_seq(segs@),
            out@ == old(out)@ + join_hex(s.subrange(lo as int, k as int)),
        decreases hi - k,
    {
        let ghost before = out@;
        push_char(out, ':');
        push_hex(out, segs[k]);
        proof {
            let t = s.subrange(lo as int, k + 1);
            assert(t.drop_last() =~= s.subrange(lo as int, k as int));
            assert(t.last() == segs@[k as int] as nat);
            assert(out@ =~= old(out)@ + join_hex(t));
        }
        k = k + 1;
    }
}

fn push_ipv6(out: &mut String, a: u128)
    ensures
        final(out)@ == old(out)@ + ipv6_text(a),
{
    let segs = ipv6_segment_values(a);
    let ghost s = ipv6_segments(a);
    assert(nat_seq(segs@) =~= s);
    if segs[0] == 0 && segs[1] == 0 && segs[2] == 0 && segs[3] == 0 && segs[4] == 0 && segs[5] == 65535 {
        let ghost start = out@;
        push_char(out, ':');
        push_char(out, ':');
        push_char(out, 'f');
        push_char(out, 'f');
        push_char(out, 'f');
        push_char(out, 'f');
        push_char(out, ':');
        push_ipv4(out, (a % 4294967296) as u32);
        assert(out@ =~= start + ipv6_text(a));
        return;
    }
    // zero-run lengths, computed from the back
    let mut runs: Vec<u64> = Vec::new();
    let mut i: usize = 0;
    while i < 8
        invariant
            runs.len() == i,
            i <= 8,
            forall|j: int| 0 <= j < i ==> runs@[j] == 0,
        decreases 8 - i,
    {
        runs.push(0);
        i = i + 1;
    }
    let mut i: usize = 8;
    while i > 0
        invariant
            runs.len() == 8,
            segs.len() == 8,
            nat_seq(segs@) == s,
            i <= 8,
            forall|j: int| i <= j < 8 ==> runs@[j] as nat == #[trigger] zero_run(s, j),
            forall|j: int| i <= j < 8 ==> runs@[j] <= 8 - j,
        decreases i,
    {
        i = i - 1;
        let next: u64 = if i + 1 < 8 { runs[i + 1] } else { 0 };
        assert(zero_run(s, i + 1) == next as nat);
        if segs[i] == 0 {
            runs.set(i, next + 1);
        } else {
            runs.set(i, 0);
        }
    }
    let mut best_len: u64 = 0;
    let mut best_start: usize = 0;
    let mut i: usize = 0;
    while i < 8
        invariant
            runs.len() == 8,
            i <= 8,
            forall|j: int| 0 <= j < 8 ==> runs@[j] as nat == #[trigger] zero_run(s, j),
            forall|j: int| 0 <= j < 8 ==> runs@[j] <= 8 - j,
            best_len as nat == longest_zero_run(s, i as int),
            best_start as int == longest_zero_run_start(s, i as int),
            best_start <= i,
            best_start + best_len <= 8,
        decreases 8 - i,
    {
        if runs[i] > best_len {
            best_len = runs[i];
            best_start = i;
        }
        i = i + 1;
    }
    if best_len > 1 {
        let ghost start = out@;
        push_join_hex(out, &segs, 0, best_start);
        push_char(out, ':');
        push_char(out, ':');
        let ghost mid = out@;
        push_join_hex(out, &segs, best_start + best_len as usize, 8);
        assert(out@ =~= start + ipv6_text(a));
    } else {
        let ghost start = out@;
        push_join_hex(out, &segs, 0, 8);
        assert(s.subrange(0, 8) =~= s);
        assert(out@ =~= start + ipv6_text(a));
    }
}

/// Appends the canonical text of an address.
pub fn push_ip(out: &mut String, a: &IpAddr)
    ensures
        final(out)@ == old(out)@ + ip_text(*a),
{
    match a {
        IpAddr::V4(x) => push_ipv4(out, *x),
        IpAddr::V6(x) => push_ipv6(out, *x),
    }
}

/// Appends the canonical text of an address with a prefix length.
pub fn push_network(out: &mut String, a: &IpAddr, prefix: u8)
    ensures
        final(out)@ == old(out)@ + network_text(*a, prefix),
{
    let ghost start = out@;
    push_ip(out, a);
    push_char(out, '/');
    push_decimal(out, prefix as u64);
    assert(out@ =~= start + network_text(*a, prefix));
}

impl IpAddr {
    /// The canonical text of the address (what std's `Display` prints).
    pub fn to_text(&self) -> (r: String)
        ensures
            r@ == ip_text(*self),
    {
        let mut s = String::new();
        push_ip(&mut s, self);
        assert(s@ =~= ip_text(*self));
        s
    }
}

} // verus!

verus! {

/// The end of the run of decimal digits starting at `i`.
pub open spec fn digit_end(s: Seq<char>, i: int) -> int
    decreases s.len() - i,
{
    if 0 <= i < s.len() && is_digit(s[i]) {
        digit_end(s, i + 1)
    } else {
        i
    }
}

/// The canonical numeral starting at `i`, if it is at most `max_len` digits
/// long and its value at most `max_value`: its value and where it ends.
pub open spec fn numeral_at(s: Seq<char>, i: int, max_value: nat, max_len: nat) -> Option<(nat, int)> {
    let j = digit_end(s, i);
    let c = s.subrange(i, j);
    if 0 <= i <= s.len() && is_canonical_decimal(c) && c.len() <= max_len && digits_value(c) <= max_value {
        Some((digits_value(c), j))
    } else {
        None
    }
}

/// Whether position `j` holds the separator `c`.
pub open spec fn separator_at(s: Seq<char>, j: int, c: char) -> bool {
    0 <= j < s.len() && s[j] == c
}

/// The IPv4 address with the given octets.
pub open spec fn ipv4_from_octets(o0: nat, o1: nat, o2: nat, o3: nat) -> u32 {
    (o0 * 16777216 + o1 * 65536 + o2 * 256 + o3) as u32
}

/// Reads `a.b.c.d/p`: four canonical decimal octets and a canonical decimal
/// prefix length of at most 32.
pub open spec fn parse_ipv4_network_text(s: Seq<char>) -> Option<(u32, u8)> {
    match numeral_at(s, 0, 255, 3) {
        None => None,
        Some((o0, j0)) => if !separator_at(s, j0, '.') { None } else {
            match numeral_at(s, j0 + 1, 255, 3) {
                None => None,
                Some((o1, j1)) => if !separator_at(s, j1, '.') { None } else {
                    match numeral_at(s, j1 + 1, 255, 3) {
                        None => None,
                        Some((o2, j2)) => if !separator_at(s, j2, '.') { None } else {
                            match numeral_at(s, j2 + 1, 255, 3) {
                                None => None,
                                Some((o3, j3)) => if !separator_at(s, j3, '/') { None } else {
                                    match numeral_at(s, j3 + 1, 32, 2) {
                                        None => None,
                                        Some((p, jp)) => if jp != s.len() { None } else {
                                            Some((ipv4_from_octets(o0, o1, o2, o3), p as u8))
                                        },
                                    }
                                },
                            }
                        },
                    }
                },
            }
        },
    }
}

proof fn lemma_octets(o0: nat, o1: nat, o2: nat, o3: nat)
    requires
        o0 < 256,
        o1 < 256,
        o2 < 256,
        o3 < 256,
    ensures
        ipv4_octets(ipv4_from_octets(o0, o1, o2, o3)) == seq![o0, o1, o2, o3],
{
    let a = o0 * 16777216 + o1 * 65536 + o2 * 256 + o3;
    assert(a < 4294967296) by (nonlinear_arith)
        requires o0 < 256, o1 < 256, o2 < 256, o3 < 256, a == o0 * 16777216 + o1 * 65536 + o2 * 256 + o3;
    assert((a / 16777216) % 256 == o0) by (nonlinear_arith)
        requires o0 < 256, o1 < 256, o2 < 256, o3 < 256, a == o0 * 16777216 + o1 * 65536 + o2 * 256 + o3;
    assert((a / 65536) % 256 == o1) by (nonlinear_arith)
        requires o0 < 256, o1 < 256, o2 < 256, o3 < 256, a == o0 * 16777216 + o1 * 65536 + o2 * 256 + o3;
    assert((a / 256) % 256 == o2) by (nonlinear_arith)
        requires o0 < 256, o1 < 256, o2 < 256, o3 < 256, a == o0 * 16777216 + o1 * 65536 + o2 * 256 + o3;
    assert(a % 256 == o3) by (nonlinear_arith)
        requires o0 < 256, o1 < 256, o2 < 256, o3 < 256, a == o0 * 16777216 + o1 * 65536 + o2 * 256 + o3;
    assert(ipv4_octets(ipv4_from_octets(o0, o1, o2, o3)) =~= seq![o0, o1, o2, o3]);
}

proof fn lemma_octets_recompose(a: u32)
    ensures
        ipv4_from_octets(ipv4_octets(a)[0], ipv4_octets(a)[1], ipv4_octets(a)[2], ipv4_octets(a)[3]) == a,
        ipv4_octets(a)[0] < 256,
        ipv4_octets(a)[1] < 256,
        ipv4_octets(a)[2] < 256,
        ipv4_octets(a)[3] < 256,
{
    let x = a as int;
    assert(((x / 16777216) % 256) * 16777216 + ((x / 65536) % 256) * 65536 + ((x / 256) % 256) * 256 + x % 256 == x)
        by (nonlinear_arith)
        requires 0 <= x < 4294967296;
}

proof fn lemma_digit_end_bounds(s: Seq<char>, i: int)
    requires
        0 <= i <= s.len(),
    ensures
        i <= digit_end(s, i) <= s.len(),
    decreases s.len() - i,
{
    if i < s.len() && is_digit(s[i]) {
        lemma_digit_end_bounds(s, i + 1);
    }
}

proof fn lemma_digit_end(s: Seq<char>, i: int, j: int)
    requires
        0 <= i <= j <= s.len(),
        forall|k: int| i <= k < j ==> #[trigger] is_digit(s[k]),
        j == s.len() || !is_digit(s[j]),
    ensures
        digit_end(s, i) == j,
    decreases j - i,
{
    if i < j {
        lemma_digit_end(s, i + 1, j);
    }
}

/// A numeral followed by a non-digit (or the end) is read back whole.
proof fn lemma_numeral_in(s: Seq<char>, x: Seq<char>, n: nat, y: Seq<char>, max_value: nat, max_len: nat)
    requires
        s == x + decimal(n) + y,
        y.len() == 0 || !is_digit(y[0]),
        n <= max_value,
        decimal(n).len() <= max_len,
    ensures
        numeral_at(s, x.len() as int, max_value, max_len) == Some((n, (x.len() + decimal(n).len()) as int)),
{
    lemma_decimal(n);
    let d = decimal(n);
    let i = x.len() as int;
    let j = i + d.len();
    assert forall|k: int| i <= k < j implies #[trigger] is_digit(s[k]) by {
        assert(s[k] == d[k - i]);
    }
    if j < s.len() {
        assert(s[j] == y[0]);
    }
    lemma_digit_end(s, i, j);
    assert(s.subrange(i, j) =~= d);
}

/// The text of an IPv4 address with a prefix length of at most 32 reads back as that pair.
pub proof fn lemma_parse_ipv4_network_text(a: u32, p: u8)
    requires
        p <= 32,
    ensures
        parse_ipv4_network_text(network_text(IpAddr::V4(a), p)) == Some((a, p)),
{
    lemma_octets_recompose(a);
    let o = ipv4_octets(a);
    let (d0, d1, d2, d3, dp) = (decimal(o[0]), decimal(o[1]), decimal(o[2]), decimal(o[3]), decimal(p as nat));
    lemma_decimal(o[0]);
    lemma_decimal(o[1]);
    lemma_decimal(o[2]);
    lemma_decimal(o[3]);
    lemma_decimal(p as nat);
    let s = network_text(IpAddr::V4(a), p);
    let dot = seq!['.'];
    let slash = seq!['/'];
    let empty = Seq::<char>::empty();
    assert(s =~= empty + d0 + (dot + d1 + dot + d2 + dot + d3 + slash + dp));
    lemma_numeral_in(s, empty, o[0], dot + d1 + dot + d2 + dot + d3 + slash + dp, 255, 3);
    let x1 = d0 + dot;
    assert(s =~= x1 + d1 + (dot + d2 + dot + d3 + slash + dp));
    lemma_numeral_in(s, x1, o[1], dot + d2 + dot + d3 + slash + dp, 255, 3);
    let x2 = x1 + d1 + dot;
    assert(s =~= x2 + d2 + (dot + d3 + slash + dp));
    lemma_numeral_in(s, x2, o[2], dot + d3 + slash + dp, 255, 3);
    let x3 = x2 + d2 + dot;
    assert(s =~= x3 + d3 + (slash + dp));
    lemma_numeral_in(s, x3, o[3], slash + dp, 255, 3);
    let x4 = x3 + d3 + slash;
    assert(s =~= x4 + dp + empty);
    lemma_numeral_in(s, x4, p as nat, empty, 32, 2);
    assert(s[d0.len() as int] == '.');
    assert(s[(x1.len() + d1.len()) as int] == '.');
    assert(s[(x2.len() + d2.len()) as int] == '.');
    assert(s[(x3.len() + d3.len()) as int] == '/');
}

/// Whatever reads as an address and prefix length is the canonical text of that pair.
pub proof fn lemma_parse_ipv4_network_text_sound(s: Seq<char>)
    requires
        parse_ipv4_network_text(s) is Some,
    ensures
        ({
            let (a, p) = parse_ipv4_network_text(s).unwrap();
            p <= 32 && s == network_text(IpAddr::V4(a), p)
        }),
{
    lemma_digit_end_bounds(s, 0);
    let (o0, j0) = numeral_at(s, 0, 255, 3).unwrap();
    lemma_digit_end_bounds(s, j0 + 1);
    let (o1, j1) = numeral_at(s, j0 + 1, 255, 3).unwrap();
    lemma_digit_end_bounds(s, j1 + 1);
    let (o2, j2) = numeral_at(s, j1 + 1, 255, 3).unwrap();
    lemma_digit_end_bounds(s, j2 + 1);
    let (o3, j3) = numeral_at(s, j2 + 1, 255, 3).unwrap();
    lemma_digit_end_bounds(s, j3 + 1);
    let (p, jp) = numeral_at(s, j3 + 1, 32, 2).unwrap();
    let c0 = s.subrange(0, j0);
    let c1 = s.subrange(j0 + 1, j1);
    let c2 = s.subrange(j1 + 1, j2);
    let c3 = s.subrange(j2 + 1, j3);
    let cp = s.subrange(j3 + 1, jp);
    lemma_canonical_decimal(c0);
    lemma_canonical_decimal(c1);
    lemma_canonical_decimal(c2);
    lemma_canonical_decimal(c3);
    lemma_canonical_decimal(cp);
    lemma_octets(o0, o1, o2, o3);
    let a = ipv4_from_octets(o0, o1, o2, o3);
    assert(s.subrange(0, j0 + 1) =~= c0 + seq!['.']);
    assert(s.subrange(0, j1 + 1) =~= s.subrange(0, j0 + 1) + c1 + seq!['.']);
    assert(s.subrange(0, j2 + 1) =~= s.subrange(0, j1 + 1) + c2 + seq!['.']);
    assert(s.subrange(0, j3 + 1) =~= s.subrange(0, j2 + 1) + c3 + seq!['/']);
    assert(s =~= s.subrange(0, j3 + 1) + cp);
    assert(network_text(IpAddr::V4(a), p as u8) =~= c0 + seq!['.'] + c1 + seq!['.'] + c2 + seq!['.'] + c3 + seq!['/'] + cp);
}

fn read_numeral(v: &Vec<char>, i: usize, max_value: u64, max_len: usize) -> (r: Option<(u64, usize)>)
    requires
        i <= v.len(),
        max_len <= 3,
    ensures
        match r {
            Some((n, j)) => numeral_at(v@, i as int, max_value as nat, max_len as nat) == Some((n as nat, j as int)),
            None => numeral_at(v@, i as int, max_value as nat, max_len as nat) is None,
        },
{
    let ghost s = v@;
    let mut j = i;
    while j < v.len() && '0' <= v[j] && v[j] <= '9'
        invariant
            i <= j <= v.len(),
            s == v@,
            digit_end(s, i as int) == digit_end(s, j as int),
            forall|k: int| i <= k < j ==> #[trigger] is_digit(s[k]),
        decreases v.len() - j,
    {
        j = j + 1;
    }
    assert(digit_end(s, j as int) == j);
    let ghost c = s.subrange(i as int, j as int);
    if j == i || j - i > max_len || (j - i > 1 && v[i] == '0') {
        assert(c.len() > 1 ==> c[0] == v@[i as int]);
        return None;
    }
    let mut val: u64 = 0;
    let mut k = i;
    while k < j
        invariant
            i <= k <= j <= v.len(),
            j - i <= 3,
            s == v@,
            forall|m: int| i <= m < j ==> #[trigger] is_digit(s[m]),
            val as nat == digits_value(s.subrange(i as int, k as int)),
            k - i <= 1 ==> val < 10,
            k - i <= 2 ==> val < 100,
            val < 1000,
        decreases j - k,
    {
        assert(is_digit(s[k as int]));
        let d = (v[k] as u32 - '0' as u32) as u64;
        assert(d as nat == digit_value(s[k as int]));
        assert(s.subrange(i as int, k + 1).drop_last() =~= s.subrange(i as int, k as int));
        val = val * 10 + d;
        k = k + 1;
    }
    assert(forall|m: int| 0 <= m < c.len() ==> #[trigger] c[m] == s[i + m]);
    if val > max_value {
        return None;
    }
    Some((val, j))
}

/// Reads `a.b.c.d/p` (four canonical decimal octets, a canonical decimal prefix
/// length of at most 32); `None` for any other text.
pub fn parse_ipv4_network(s: &str) -> (r: Option<(u32, u8)>)
    ensures
        r == parse_ipv4_network_text(s@),
        match r {
            Some((a, p)) => p <= 32 && s@ == network_text(IpAddr::V4(a), p),
            None => forall|a: u32, p: u8| p <= 32 ==> s@ != #[trigger] network_text(IpAddr::V4(a), p),
        },
{
    let v = chars_of(s);
    let ghost t = s@;
    let r = parse_chars(&v);
    proof {
        if r is Some {
            lemma_parse_ipv4_network_text_sound(t);
        } else {
            assert forall|a: u32, p: u8| p <= 32 implies t != #[trigger] network_text(IpAddr::V4(a), p) by {
                lemma_parse_ipv4_network_text(a, p);
            }
        }
    }
    r
}

fn parse_chars(v: &Vec<char>) -> (r: Option<(u32, u8)>)
    ensures
        r == parse_ipv4_network_text(v@),
{
    let (o0, j0) = match read_numeral(v, 0, 255, 3) { Some(x) => x, None => return None };
    if !(j0 < v.len() && v[j0] == '.') { return None; }
    let (o1, j1) = match read_numeral(v, j0 + 1, 255, 3) { Some(x) => x, None => return None };
    if !(j1 < v.len() && v[j1] == '.') { return None; }
    let (o2, j2) = match read_numeral(v, j1 + 1, 255, 3) { Some(x) => x, None => return None };
    if !(j2 < v.len() && v[j2] == '.') { return None; }
    let (o3, j3) = match read_numeral(v, j2 + 1, 255, 3) { Some(x) => x, None => return None };
    if !(j3 < v.len() && v[j3] == '/') { return None; }
    let (p, jp) = match read_numeral(v, j3 + 1, 32, 2) { Some(x) => x, None => return None };
    if jp != v.len() { return None; }
    let a = (o0 * 16777216 + o1 * 65536 + o2 * 256 + o3) as u32;
    Some((a, p as u8))
}

} // verus!

verus! {

/// Whether the `m` segments starting at `j` are all zero.
pub open spec fn zeros_at(s: Seq<nat>, j: int, m: int) -> bool {
    0 <= j && 0 <= m && j + m <= s.len() && forall|k: int| j <= k < j + m ==> s[k] == 0
}

proof fn lemma_zero_run(s: Seq<nat>, i: int)
    requires
        0 <= i <= s.len(),
    ensures
        zeros_at(s, i, zero_run(s, i) as int),
    decreases s.len() - i,
{
    if i < s.len() && s[i] == 0 {
        lemma_zero_run(s, i + 1);
    }
}

proof fn lemma_zeros_within_run(s: Seq<nat>, j: int, m: int)
    requires
        zeros_at(s, j, m),
    ensures
        m <= zero_run(s, j),
    decreases m,
{
    if m > 0 {
        lemma_zeros_within_run(s, j + 1, m - 1);
    }
}

proof fn lemma_longest_zero_run(s: Seq<nat>, n: int)
    requires
        0 <= n <= s.len(),
    ensures
        forall|j: int| 0 <= j < n ==> zero_run(s, j) <= longest_zero_run(s, n),
        n > 0 ==> {
            let st = longest_zero_run_start(s, n);
            &&& 0 <= st < n
            &&& zero_run(s, st) == longest_zero_run(s, n)
            &&& forall|j: int| 0 <= j < st ==> zero_run(s, j) < longest_zero_run(s, n)
        },
        n == 0 ==> longest_zero_run(s, n) == 0,
    decreases n,
{
    if n > 0 {
        lemma_longest_zero_run(s, n - 1);
    }
}

/// The text of an IPv6 address that is not IPv4-mapped: the eight segments
/// in hexadecimal separated by `:`, except that where two or more
/// consecutive segments are zero, the first of the longest such runs is left
/// out and replaced by `::` between the segments before it and after it.
pub proof fn lemma_ipv6_text_shape(a: u128)
    requires
        !is_ipv4_mapped(a),
    ensures
        ({
            let s = ipv6_segments(a);
            ||| (forall|j: int| 0 <= j < 7 ==> !zeros_at(s, j, 2)) && ipv6_text(a) == join_hex(s)
            ||| exists|st: int, len: int| {
                &&& len > 1
                &&& #[trigger] zeros_at(s, st, len)
                &&& forall|j: int, m: int| zeros_at(s, j, m) ==> m <= len
                &&& forall|j: int| 0 <= j < st ==> !zeros_at(s, j, len)
                &&& ipv6_text(a) == join_hex(s.subrange(0, st)) + seq![':', ':'] + join_hex(s.subrange(st + len, 8))
            }
        }),
{
    let s = ipv6_segments(a);
    assert(s.len() == 8);
    lemma_longest_zero_run(s, 8);
    let len = longest_zero_run(s, 8) as int;
    let st = longest_zero_run_start(s, 8);
    assert forall|j: int, m: int| zeros_at(s, j, m) implies m <= len by {
        if m > 0 {
            lemma_zeros_within_run(s, j, m);
        }
    }
    if len > 1 {
        lemma_zero_run(s, st);
        assert forall|j: int| 0 <= j < st implies !zeros_at(s, j, len) by {
            if zeros_at(s, j, len) {
                lemma_zeros_within_run(s, j, len);
            }
        }
        assert(zeros_at(s, st, len));
    } else {
        assert forall|j: int| 0 <= j < 7 implies !zeros_at(s, j, 2) by {
            if zeros_at(s, j, 2) {
                lemma_zeros_within_run(s, j, 2);
            }
        }
    }
}

} // verus!
