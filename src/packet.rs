use crate::bits::{bits_value, lemma_bits_value_bound, PacketData};
use crate::error::DecodeError;
use crate::hex::{decode_hex, hex_bytes, is_hex};
use vstd::prelude::*;

verus! {

/// How an operator packet combines the values of its children.
#[derive(Debug, Clone, Copy, PartialEq, Eq, Structural)]
pub enum Operation {
    Sum,
    Product,
    Minimum,
    Maximum,
    GreaterThan,
    LessThan,
    EqualTo,
}

/// One decoded packet. Each child belongs to exactly one parent, and the
/// children keep the order in which they were read.
#[derive(Debug)]
pub enum Packet {
    /// Version and value.
    Literal(u8, u64),
    /// Version, operation and children.
    Operator(u8, Operation, Vec<Packet>),
}

/// A packet as a mathematical value: numbers as naturals, children as a
/// sequence.
pub enum PacketTree {
    Literal(nat, nat),
    Operator(nat, Operation, Seq<PacketTree>),
}

impl Packet {
    /// This packet as a mathematical value.
    pub open spec fn tree(&self) -> PacketTree
        decreases self,
    {
        match self {
            Packet::Literal(v, x) => PacketTree::Literal(*v as nat, *x as nat),
            Packet::Operator(v, op, cs) => PacketTree::Operator(
                *v as nat,
                *op,
                Seq::new(
                    cs.len() as nat,
                    |i: int|
                        if 0 <= i < cs.len() {
                            cs[i].tree()
                        } else {
                            PacketTree::Literal(0, 0)
                        },
                ),
            ),
        }
    }
}

/// The operation that a type id other than 4 stands for.
pub open spec fn operation_of(type_id: nat) -> Operation {
    if type_id == 0 {
        Operation::Sum
    } else if type_id == 1 {
        Operation::Product
    } else if type_id == 2 {
        Operation::Minimum
    } else if type_id == 3 {
        Operation::Maximum
    } else if type_id == 5 {
        Operation::GreaterThan
    } else if type_id == 6 {
        Operation::LessThan
    } else {
        Operation::EqualTo
    }
}

/// Comparisons take exactly two operands; the other operations at least one.
pub open spec fn arity_ok(op: Operation, n: nat) -> bool {
    match op {
        Operation::GreaterThan | Operation::LessThan | Operation::EqualTo => n == 2,
        _ => n >= 1,
    }
}

/// The nibble groups of a literal from bit `pos` on, `acc` being the value
/// of the nibbles read before: the value and the bit after the last group.
pub open spec fn literal_spec(d: Seq<u8>, pos: int, acc: nat) -> Result<(nat, int), DecodeError>
    decreases d.len() * 8 - pos,
{
    if pos + 5 > d.len() * 8 {
        Err(DecodeError::Truncated)
    } else {
        let group = bits_value(d, pos, 5);
        let value = acc * 16 + group % 16;
        if value > u64::MAX {
            Err(DecodeError::LiteralOverflow)
        } else if group >= 16 {
            literal_spec(d, pos + 5, value)
        } else {
            Ok((value, pos + 5))
        }
    }
}

/// The packet encoded from bit `pos` on, and the bit that follows it.
pub open spec fn packet_spec(d: Seq<u8>, pos: int) -> Result<(PacketTree, int), DecodeError>
    decreases d.len() * 8 - pos, 0nat,
{
    if pos < 0 || pos + 6 > d.len() * 8 {
        Err(DecodeError::Truncated)
    } else {
        let version = bits_value(d, pos, 3);
        let type_id = bits_value(d, pos + 3, 3);
        if type_id == 4 {
            match literal_spec(d, pos + 6, 0) {
                Ok((value, end)) => Ok((PacketTree::Literal(version, value), end)),
                Err(e) => Err(e),
            }
        } else if pos + 7 > d.len() * 8 {
            Err(DecodeError::Truncated)
        } else {
            let op = operation_of(type_id);
            let children = if bits_value(d, pos + 6, 1) == 0 {
                if pos + 22 > d.len() * 8 {
                    Err(DecodeError::Truncated)
                } else {
                    by_length_spec(d, pos + 22, pos + 22 + bits_value(d, pos + 7, 15))
                }
            } else {
                if pos + 18 > d.len() * 8 {
                    Err(DecodeError::Truncated)
                } else {
                    by_count_spec(d, pos + 18, bits_value(d, pos + 7, 11))
                }
            };
            match children {
                Ok((cs, end)) => if arity_ok(op, cs.len()) {
                    Ok((PacketTree::Operator(version, op, cs), end))
                } else {
                    Err(DecodeError::BadArity)
                },
                Err(e) => Err(e),
            }
        }
    }
}

/// A packet always ends after its start and within the stream; parsing
/// relies on this to move forward (see `lemma_packet_advances`).
pub open spec fn advances(d: Seq<u8>, pos: int, end: int) -> bool {
    pos < end <= d.len() * 8
}

/// Children read from bit `pos` until the cursor reaches `limit` exactly.
pub open spec fn by_length_spec(d: Seq<u8>, pos: int, limit: int) -> Result<
    (Seq<PacketTree>, int),
    DecodeError,
>
    decreases d.len() * 8 - pos, 1nat,
{
    if pos > limit {
        Err(DecodeError::LengthMismatch)
    } else if pos == limit {
        Ok((Seq::empty(), pos))
    } else {
        match packet_spec(d, pos) {
            Ok((c, e)) => if advances(d, pos, e) {
                match by_length_spec(d, e, limit) {
                    Ok((cs, end)) => Ok((seq![c] + cs, end)),
                    Err(x) => Err(x),
                }
            } else {
                Err(DecodeError::Truncated)
            },
            Err(x) => Err(x),
        }
    }
}

/// Exactly `n` children read one after another from bit `pos`.
pub open spec fn by_count_spec(d: Seq<u8>, pos: int, n: nat) -> Result<
    (Seq<PacketTree>, int),
    DecodeError,
>
    decreases d.len() * 8 - pos, 1nat,
{
    if n == 0 {
        Ok((Seq::empty(), pos))
    } else {
        match packet_spec(d, pos) {
            Ok((c, e)) => if advances(d, pos, e) {
                match by_count_spec(d, e, (n - 1) as nat) {
                    Ok((cs, end)) => Ok((seq![c] + cs, end)),
                    Err(x) => Err(x),
                }
            } else {
                Err(DecodeError::Truncated)
            },
            Err(x) => Err(x),
        }
    }
}

/// What a child list parse gives once `prefix` has been read before it.
pub open spec fn prepend(prefix: Seq<PacketTree>, rest: Result<(Seq<PacketTree>, int), DecodeError>) -> Result<
    (Seq<PacketTree>, int),
    DecodeError,
> {
    match rest {
        Ok((cs, end)) => Ok((prefix + cs, end)),
        Err(e) => Err(e),
    }
}

/// The trees of a list of packets.
pub open spec fn trees(ps: Seq<Packet>) -> Seq<PacketTree> {
    Seq::new(ps.len(), |i: int| ps[i].tree())
}

/// `r` and the cursor `idx` are what the parse `s` describes.
pub open spec fn parsed(s: Result<(PacketTree, int), DecodeError>, r: Result<Packet, DecodeError>, idx: int) -> bool {
    match s {
        Ok((t, end)) => r matches Ok(p) && p.tree() == t && idx == end,
        Err(e) => r == Err::<Packet, DecodeError>(e),
    }
}

/// `r` and the cursor `idx` are what the child list parse `s` describes.
pub open spec fn parsed_list(s: Result<(Seq<PacketTree>, int), DecodeError>, r: Result<Vec<Packet>, DecodeError>, idx: int) -> bool {
    match s {
        Ok((cs, end)) => r matches Ok(ps) && trees(ps@) == cs && idx == end,
        Err(e) => r == Err::<Vec<Packet>, DecodeError>(e),
    }
}

pub proof fn lemma_literal_advances(d: Seq<u8>, pos: int, acc: nat)
    ensures
        literal_spec(d, pos, acc) matches Ok((v, end)) ==> pos + 5 <= end <= d.len() * 8 && v
            <= u64::MAX,
    decreases d.len() * 8 - pos,
{
    if pos + 5 <= d.len() * 8 {
        let group = bits_value(d, pos, 5);
        if group >= 16 && acc * 16 + group % 16 <= u64::MAX {
            lemma_literal_advances(d, pos + 5, acc * 16 + group % 16);
        }
    }
}

pub proof fn lemma_by_length_advances(d: Seq<u8>, pos: int, limit: int)
    ensures
        by_length_spec(d, pos, limit) matches Ok((cs, end)) ==> pos <= end && (end == pos
            || end <= d.len() * 8),
    decreases d.len() * 8 - pos,
{
    if pos < limit {
        if let Ok((c, e)) = packet_spec(d, pos) {
            if advances(d, pos, e) {
                lemma_by_length_advances(d, e, limit);
            }
        }
    }
}

pub proof fn lemma_by_count_advances(d: Seq<u8>, pos: int, n: nat)
    ensures
        by_count_spec(d, pos, n) matches Ok((cs, end)) ==> pos <= end && (end == pos || end
            <= d.len() * 8),
    decreases d.len() * 8 - pos,
{
    if n > 0 {
        if let Ok((c, e)) = packet_spec(d, pos) {
            if advances(d, pos, e) {
                lemma_by_count_advances(d, e, (n - 1) as nat);
            }
        }
    }
}

/// A packet takes at least a header and one group, and ends inside the stream.
pub proof fn lemma_packet_advances(d: Seq<u8>, pos: int)
    ensures
        packet_spec(d, pos) matches Ok((t, end)) ==> pos + 11 <= end && advances(d, pos, end),
{
    if 0 <= pos && pos + 6 <= d.len() * 8 {
        lemma_literal_advances(d, pos + 6, 0);
        lemma_by_length_advances(d, pos + 22, pos + 22 + bits_value(d, pos + 7, 15));
        lemma_by_count_advances(d, pos + 18, bits_value(d, pos + 7, 11));
    }
}

fn operation_from_type(type_id: u32) -> (r: Operation)
    requires
        type_id < 8,
        type_id != 4,
    ensures
        r == operation_of(type_id as nat),
{
    match type_id {
        0 => Operation::Sum,
        1 => Operation::Product,
        2 => Operation::Minimum,
        3 => Operation::Maximum,
        5 => Operation::GreaterThan,
        6 => Operation::LessThan,
        _ => Operation::EqualTo,
    }
}

/// Whether `op` accepts `n` children.
pub fn arity_allows(op: Operation, n: usize) -> (r: bool)
    ensures
        r == arity_ok(op, n as nat),
{
    match op {
        Operation::GreaterThan | Operation::LessThan | Operation::EqualTo => n == 2,
        _ => n >= 1,
    }
}

impl Packet {
    /// Reads the nibble groups of a literal, the cursor at its first group.
    fn parse_literal(data: &mut PacketData) -> (r: Result<u64, DecodeError>)
        requires
            old(data).wf(),
        ensures
            final(data).wf(),
            final(data).data == old(data).data,
            match literal_spec(old(data).data@, old(data).idx as int, 0) {
                Ok((v, end)) => r == Ok::<u64, DecodeError>(v as u64) && final(data).idx == end,
                Err(e) => r == Err::<u64, DecodeError>(e),
            },
    {
        let ghost d = data.data@;
        let ghost start = data.idx as int;
        let mut value: u64 = 0;
        loop
            invariant
                data.wf(),
                data.data == old(data).data,
                d == data.data@,
                start == old(data).idx,
                start <= data.idx,
                literal_spec(d, start, 0) == literal_spec(d, data.idx as int, value as nat),
            decreases data.total_bits() - data.idx,
        {
            let ghost pos = data.idx as int;
            let group = match data.read_bits(5) {
                Some(g) => g,
                None => return Err(DecodeError::Truncated),
            };
            proof {
                lemma_bits_value_bound(d, pos, 5);
                vstd::arithmetic::power2::lemma2_to64();
            }
            if value > u64::MAX / 16 {
                return Err(DecodeError::LiteralOverflow);
            }
            value = value * 16 + (group % 16) as u64;
            if group < 16 {
                return Ok(value);
            }
        }
    }

    /// Reads children until the cursor reaches `limit`.
    fn parse_by_length(data: &mut PacketData, limit: usize) -> (r: Result<Vec<Packet>, DecodeError>)
        requires
            old(data).wf(),
        ensures
            final(data).wf(),
            final(data).data == old(data).data,
            parsed_list(by_length_spec(old(data).data@, old(data).idx as int, limit as int), r, final(data).idx as int),
        decreases old(data).total_bits() - old(data).idx, 1nat,
    {
        let ghost d = data.data@;
        let ghost start = data.idx as int;
        let mut children: Vec<Packet> = Vec::new();
        while data.idx < limit
            invariant
                data.wf(),
                data.data == old(data).data,
                d == data.data@,
                start == old(data).idx,
                start <= data.idx,
                by_length_spec(d, start, limit as int) == prepend(
                    trees(children@),
                    by_length_spec(d, data.idx as int, limit as int),
                ),
            decreases data.total_bits() - data.idx,
        {
            let ghost pos = data.idx as int;
            proof {
                lemma_packet_advances(d, pos);
            }
            match Packet::parse(data) {
                Ok(c) => {
                    let ghost before = trees(children@);
                    children.push(c);
                    proof {
                        assert(trees(children@) =~= before + seq![c.tree()]);
                        let rest = by_length_spec(d, data.idx as int, limit as int);
                        if let Ok((cs, e)) = rest {
                            assert(before + (seq![c.tree()] + cs) =~= (before + seq![c.tree()]) + cs);
                        }
                    }
                },
                Err(e) => {
                    return Err(e);
                },
            }
        }
        if data.idx == limit {
            proof {
                assert(trees(children@) + Seq::<PacketTree>::empty() =~= trees(children@));
            }
            Ok(children)
        } else {
            Err(DecodeError::LengthMismatch)
        }
    }

    /// Reads exactly `n` children.
    fn parse_by_count(data: &mut PacketData, n: usize) -> (r: Result<Vec<Packet>, DecodeError>)
        requires
            old(data).wf(),
        ensures
            final(data).wf(),
            final(data).data == old(data).data,
            parsed_list(by_count_spec(old(data).data@, old(data).idx as int, n as nat), r, final(data).idx as int),
        decreases old(data).total_bits() - old(data).idx, 1nat,
    {
        let ghost d = data.data@;
        let ghost start = data.idx as int;
        let mut children: Vec<Packet> = Vec::new();
        let mut i: usize = 0;
        while i < n
            invariant
                data.wf(),
                data.data == old(data).data,
                d == data.data@,
                start == old(data).idx,
                start <= data.idx,
                i <= n,
                by_count_spec(d, start, n as nat) == prepend(
                    trees(children@),
                    by_count_spec(d, data.idx as int, (n - i) as nat),
                ),
            decreases n - i,
        {
            let ghost pos = data.idx as int;
            proof {
                lemma_packet_advances(d, pos);
            }
            match Packet::parse(data) {
                Ok(c) => {
                    let ghost before = trees(children@);
                    children.push(c);
                    proof {
                        assert(trees(children@) =~= before + seq![c.tree()]);
                        let rest = by_count_spec(d, data.idx as int, (n - i - 1) as nat);
                        if let Ok((cs, e)) = rest {
                            assert(before + (seq![c.tree()] + cs) =~= (before + seq![c.tree()]) + cs);
                        }
                    }
                },
                Err(e) => {
                    return Err(e);
                },
            }
            i = i + 1;
        }
        proof {
            assert(trees(children@) + Seq::<PacketTree>::empty() =~= trees(children@));
        }
        Ok(children)
    }

    /// Decodes one packet at the cursor and leaves the cursor on the first bit
    /// after it. On any malformed encoding the decode ends with an error and
    /// no tree.
    pub fn parse(data: &mut PacketData) -> (r: Result<Packet, DecodeError>)
        requires
            old(data).wf(),
        ensures
            final(data).wf(),
            final(data).data == old(data).data,
            parsed(packet_spec(old(data).data@, old(data).idx as int), r, final(data).idx as int),
        decreases old(data).total_bits() - old(data).idx, 0nat,
    {
        let ghost d = data.data@;
        let ghost pos = data.idx as int;
        let version = match data.read_bits(3) {
            Some(v) => v,
            None => return Err(DecodeError::Truncated),
        };
        let type_id = match data.read_bits(3) {
            Some(t) => t,
            None => return Err(DecodeError::Truncated),
        };
        proof {
            lemma_bits_value_bound(d, pos, 3);
            lemma_bits_value_bound(d, pos + 3, 3);
            vstd::arithmetic::power2::lemma2_to64();
        }
        if type_id == 4 {
            proof {
                lemma_literal_advances(d, pos + 6, 0);
            }
            return match Packet::parse_literal(data) {
                Ok(value) => Ok(Packet::Literal(version as u8, value)),
                Err(e) => Err(e),
            };
        }
        let op = operation_from_type(type_id);
        let length_type = match data.read_bits(1) {
            Some(b) => b,
            None => return Err(DecodeError::Truncated),
        };
        let children = if length_type == 0 {
            let len = match data.read_bits(15) {
                Some(l) => l,
                None => return Err(DecodeError::Truncated),
            };
            proof {
                lemma_bits_value_bound(d, pos + 7, 15);
            }
            let limit = data.idx + len as usize;
            Packet::parse_by_length(data, limit)
        } else {
            let count = match data.read_bits(11) {
                Some(c) => c,
                None => return Err(DecodeError::Truncated),
            };
            Packet::parse_by_count(data, count as usize)
        };
        match children {
            Ok(cs) => {
                if arity_allows(op, cs.len()) {
                    let r = Packet::Operator(version as u8, op, cs);
                    proof {
                        assert(r.tree()->Operator_2 =~= trees(cs@));
                    }
                    Ok(r)
                } else {
                    Err(DecodeError::BadArity)
                }
            },
            Err(e) => Err(e),
        }
    }
}

/// The packet that hexadecimal text encodes, read from the first bit.
pub open spec fn decode_spec(text: Seq<u8>) -> Result<PacketTree, DecodeError> {
    if !is_hex(text) {
        Err(DecodeError::BadHexDigit)
    } else {
        match packet_spec(hex_bytes(text), 0) {
            Ok((t, _)) => Ok(t),
            Err(e) => Err(e),
        }
    }
}

/// Decodes the packet that hexadecimal text encodes. Bits after the packet
/// are ignored.
pub fn decode(text: &[u8]) -> (r: Result<Packet, DecodeError>)
    requires
        text@.len() <= usize::MAX / 8,
    ensures
        match decode_spec(text@) {
            Ok(t) => r matches Ok(p) && p.tree() == t,
            Err(e) => r == Err::<Packet, DecodeError>(e),
        },
{
    let bytes = match decode_hex(text) {
        Ok(b) => b,
        Err(e) => return Err(e),
    };
    let mut data = PacketData::new(bytes);
    Packet::parse(&mut data)
}

} // verus!
