use crate::bits::{bit_at, bits_value};
use crate::error::DecodeError;
use crate::packet::{
    advances, by_count_spec, by_length_spec, lemma_packet_advances, literal_spec, packet_spec,
    PacketTree,
};
use vstd::arithmetic::div_mod::{
    lemma_basic_div, lemma_div_denominator, lemma_div_is_ordered_by_denominator,
    lemma_fundamental_div_mod,
};
use vstd::arithmetic::power::{lemma_pow1, lemma_pow_adds, lemma_pow_positive, pow};
use vstd::prelude::*;

verus! {

/// The encoded lengths of `n` packets laid end to end from bit `pos`, summed.
pub open spec fn children_span(d: Seq<u8>, pos: int, n: nat) -> int
    decreases n,
{
    if n == 0 {
        0
    } else {
        match packet_spec(d, pos) {
            Ok((_, e)) => (e - pos) + children_span(d, e, (n - 1) as nat),
            Err(_) => 0,
        }
    }
}

proof fn lemma_by_length_span(d: Seq<u8>, pos: int, limit: int)
    requires
        by_length_spec(d, pos, limit) is Ok,
    ensures
        ({
            let (cs, end) = by_length_spec(d, pos, limit)->Ok_0;
            end == limit && children_span(d, pos, cs.len()) == limit - pos
        }),
    decreases d.len() * 8 - pos,
{
    if pos < limit {
        let (c, e) = packet_spec(d, pos)->Ok_0;
        lemma_by_length_span(d, e, limit);
        let (cs, end) = by_length_spec(d, e, limit)->Ok_0;
        assert((seq![c] + cs).len() == cs.len() + 1);
    }
}

/// When an operator frames its children by a bit length, the encoded
/// lengths of its children add up to exactly that length, and the packet
/// ends right where that length runs out.
pub proof fn lemma_length_framing(d: Seq<u8>, pos: int)
    requires
        packet_spec(d, pos) is Ok,
        bits_value(d, pos + 3, 3) != 4,
        bits_value(d, pos + 6, 1) == 0,
    ensures
        ({
            let (t, end) = packet_spec(d, pos)->Ok_0;
            let len = bits_value(d, pos + 7, 15);
            &&& t is Operator
            &&& children_span(d, pos + 22, t->Operator_2.len()) == len
            &&& end == pos + 22 + len
        }),
{
    lemma_by_length_span(d, pos + 22, pos + 22 + bits_value(d, pos + 7, 15));
}

/// Nibble `j` of `v`, counting from the least significant.
pub open spec fn nibble(v: nat, j: nat) -> nat {
    ((v as int / pow(16, j)) % 16) as nat
}

/// Group `k` of the `n` groups that encode `v`, the first group holding the
/// most significant nibble; every group but the last has its top bit set.
pub open spec fn literal_group(v: nat, n: nat, k: nat) -> nat {
    (if k + 1 < n { 16nat } else { 0nat }) + nibble(v, (n - 1 - k) as nat)
}

/// From bit `pos` on, `d` holds the `n` groups that encode `v`.
pub open spec fn holds_literal(d: Seq<u8>, pos: int, v: nat, n: nat) -> bool {
    &&& 0 <= pos
    &&& pos + 5 * n <= d.len() * 8
    &&& forall|k: nat| k < n ==> bits_value(d, pos + 5 * k, 5) == #[trigger] literal_group(v, n, k)
}

proof fn lemma_pow16_step(m: nat)
    ensures
        pow(16, m + 1) == pow(16, m) * 16,
        pow(16, m) > 0,
{
    lemma_pow_adds(16, m, 1);
    lemma_pow1(16);
    lemma_pow_positive(16, m);
}

proof fn lemma_literal_tail(d: Seq<u8>, pos: int, v: nat, n: nat, k: nat)
    requires
        k < n,
        v <= u64::MAX,
        holds_literal(d, pos, v, n),
    ensures
        literal_spec(d, pos + 5 * k, (v as int / pow(16, (n - k) as nat)) as nat) == Ok::<
            (nat, int),
            DecodeError,
        >((v, pos + 5 * n)),
    decreases n - k,
{
    let m = (n - 1 - k) as nat;
    lemma_pow16_step(m);
    let w = v as int / pow(16, m);
    lemma_div_denominator(v as int, pow(16, m), 16);
    lemma_fundamental_div_mod(w, 16);
    lemma_div_is_ordered_by_denominator(v as int, 1, pow(16, m));
    assert(v as int / 1 == v);
    assert(w <= v);
    assert(w >= 0) by {
        vstd::arithmetic::div_mod::lemma_div_pos_is_pos(v as int, pow(16, m));
    }
    let acc = (v as int / pow(16, (n - k) as nat)) as nat;
    assert((n - k) as nat == m + 1);
    assert(acc == w / 16);
    let group = bits_value(d, pos + 5 * k, 5);
    assert(group == literal_group(v, n, k));
    assert(group % 16 == w % 16);
    assert(acc * 16 + group % 16 == w);
    if k + 1 < n {
        assert(group >= 16);
        lemma_literal_tail(d, pos, v, n, k + 1);
        assert(pos + 5 * k + 5 == pos + 5 * (k + 1));
        assert((n - (k + 1)) as nat == m);
    } else {
        assert(m == 0);
        assert(pow(16, 0) == 1) by {
            vstd::arithmetic::power::lemma_pow0(16);
        }
        assert(w == v);
    }
}

/// Encoding a value as continuation-flagged nibble groups and reading the
/// groups back gives the value again, for every value below 2^64 that fits
/// in the number of groups used.
pub proof fn lemma_literal_round_trip(d: Seq<u8>, pos: int, v: nat, n: nat)
    requires
        1 <= n,
        v <= u64::MAX,
        v < pow(16, n),
        holds_literal(d, pos, v, n),
    ensures
        literal_spec(d, pos, 0) == Ok::<(nat, int), DecodeError>((v, pos + 5 * n)),
{
    lemma_literal_tail(d, pos, v, n, 0);
    lemma_basic_div(v as int, pow(16, n));
}

/// A literal whose value takes a single group is eleven bits long: three of
/// version, three of type and one group of five.
pub proof fn lemma_single_group_literal(d: Seq<u8>, pos: int)
    requires
        0 <= pos,
        pos + 11 <= d.len() * 8,
        bits_value(d, pos + 3, 3) == 4,
        bits_value(d, pos + 6, 5) < 16,
    ensures
        packet_spec(d, pos) == Ok::<(PacketTree, int), DecodeError>(
            (PacketTree::Literal(bits_value(d, pos, 3), bits_value(d, pos + 6, 5)), pos + 11),
        ),
{
}

/// `p` is `d` cut short: it agrees with `d` on every byte it has.
pub open spec fn is_prefix(p: Seq<u8>, d: Seq<u8>) -> bool {
    &&& p.len() <= d.len()
    &&& forall|i: int| 0 <= i < p.len() ==> p[i] == d[i]
}

proof fn lemma_bits_prefix(p: Seq<u8>, d: Seq<u8>, s: int, c: nat)
    requires
        is_prefix(p, d),
        0 <= s,
        s + c <= p.len() * 8,
    ensures
        bits_value(p, s, c) == bits_value(d, s, c),
    decreases c,
{
    if c > 0 {
        lemma_bits_prefix(p, d, s, (c - 1) as nat);
        let i = s + c - 1;
        assert(0 <= i / 8 < p.len());
        assert(bit_at(p, i) == bit_at(d, i));
    }
}

proof fn lemma_literal_prefix(p: Seq<u8>, d: Seq<u8>, pos: int, acc: nat)
    requires
        is_prefix(p, d),
        0 <= pos,
        literal_spec(p, pos, acc) is Ok,
    ensures
        literal_spec(d, pos, acc) == literal_spec(p, pos, acc),
    decreases p.len() * 8 - pos,
{
    lemma_bits_prefix(p, d, pos, 5);
    let group = bits_value(p, pos, 5);
    if group >= 16 && acc * 16 + group % 16 <= u64::MAX {
        lemma_literal_prefix(p, d, pos + 5, acc * 16 + group % 16);
    }
}

proof fn lemma_by_length_prefix(p: Seq<u8>, d: Seq<u8>, pos: int, limit: int)
    requires
        is_prefix(p, d),
        0 <= pos,
        by_length_spec(p, pos, limit) is Ok,
    ensures
        by_length_spec(d, pos, limit) == by_length_spec(p, pos, limit),
    decreases p.len() * 8 - pos, 1nat,
{
    if pos < limit {
        lemma_packet_prefix(p, d, pos);
        let (c, e) = packet_spec(p, pos)->Ok_0;
        assert(advances(d, pos, e));
        lemma_by_length_prefix(p, d, e, limit);
    }
}

proof fn lemma_by_count_prefix(p: Seq<u8>, d: Seq<u8>, pos: int, n: nat)
    requires
        is_prefix(p, d),
        0 <= pos,
        by_count_spec(p, pos, n) is Ok,
    ensures
        by_count_spec(d, pos, n) == by_count_spec(p, pos, n),
    decreases p.len() * 8 - pos, 1nat,
{
    if n > 0 {
        lemma_packet_prefix(p, d, pos);
        let (c, e) = packet_spec(p, pos)->Ok_0;
        assert(advances(d, pos, e));
        lemma_by_count_prefix(p, d, e, (n - 1) as nat);
    }
}

proof fn lemma_packet_prefix(p: Seq<u8>, d: Seq<u8>, pos: int)
    requires
        is_prefix(p, d),
        packet_spec(p, pos) is Ok,
    ensures
        packet_spec(d, pos) == packet_spec(p, pos),
    decreases p.len() * 8 - pos, 0nat,
{
    lemma_bits_prefix(p, d, pos, 3);
    lemma_bits_prefix(p, d, pos + 3, 3);
    if bits_value(p, pos + 3, 3) == 4 {
        lemma_literal_prefix(p, d, pos + 6, 0);
    } else {
        lemma_bits_prefix(p, d, pos + 6, 1);
        if bits_value(p, pos + 6, 1) == 0 {
            lemma_bits_prefix(p, d, pos + 7, 15);
            lemma_by_length_prefix(p, d, pos + 22, pos + 22 + bits_value(p, pos + 7, 15));
        } else {
            lemma_bits_prefix(p, d, pos + 7, 11);
            lemma_by_count_prefix(p, d, pos + 18, bits_value(p, pos + 7, 11));
        }
    }
}

/// Cutting the stream short of the bit where a packet ends makes its decode
/// fail: a truncated encoding yields an error and no tree.
pub proof fn lemma_truncated_fails(d: Seq<u8>, pos: int, m: nat)
    requires
        packet_spec(d, pos) is Ok,
        m <= d.len(),
        m * 8 < packet_spec(d, pos)->Ok_0.1,
    ensures
        packet_spec(d.take(m as int), pos) is Err,
{
    let p = d.take(m as int);
    if packet_spec(p, pos) is Ok {
        lemma_packet_prefix(p, d, pos);
        lemma_packet_advances(p, pos);
    }
}

} // verus!
