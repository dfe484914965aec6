use vstd::arithmetic::power2::*;
use vstd::prelude::*;

verus! {

/// Bit `i` of a byte stream, read most-significant bit first within each byte.
pub open spec fn bit_at(data: Seq<u8>, i: int) -> nat {
    ((data[i / 8] >> ((7 - i % 8) as u8)) % 2) as nat
}

/// The unsigned integer formed by the `count` bits that start at bit `start`,
/// the earliest bit being the most significant.
pub open spec fn bits_value(data: Seq<u8>, start: int, count: nat) -> nat
    decreases count,
{
    if count == 0 {
        0
    } else {
        2 * bits_value(data, start, (count - 1) as nat) + bit_at(data, start + count - 1)
    }
}

pub proof fn lemma_bits_value_bound(data: Seq<u8>, start: int, count: nat)
    ensures
        bits_value(data, start, count) < pow2(count),
    decreases count,
{
    if count > 0 {
        lemma_pow2_unfold(count);
        lemma_bits_value_bound(data, start, (count - 1) as nat);
    } else {
        lemma2_to64();
    }
}

/// A cursor over a byte buffer that hands out fixed-width runs of bits.
pub struct PacketData {
    pub data: Vec<u8>,
    pub idx: usize,
}

impl PacketData {
    /// The number of bits in the buffer.
    pub open spec fn total_bits(&self) -> int {
        self.data.len() * 8
    }

    /// The cursor lies inside the buffer, and every bit offset up to a
    /// 15-bit length past its end fits in `usize`.
    pub open spec fn wf(&self) -> bool {
        &&& self.data.len() * 8 + 32768 <= usize::MAX
        &&& self.idx <= self.total_bits()
    }

    pub fn new(data: Vec<u8>) -> (r: PacketData)
        requires
            data.len() * 8 + 32768 <= usize::MAX,
        ensures
            r.wf(),
            r.data@ == data@,
            r.idx == 0,
    {
        PacketData { data, idx: 0 }
    }

    /// Bits not yet consumed.
    pub fn remaining(&self) -> (r: usize)
        requires
            self.wf(),
        ensures
            r == self.total_bits() - self.idx,
    {
        self.data.len() * 8 - self.idx
    }

    /// Consumes `count` bits and returns them as an unsigned integer, the
    /// earliest bit most significant. Returns `None`, and consumes nothing,
    /// when fewer than `count` bits remain.
    pub fn read_bits(&mut self, count: usize) -> (r: Option<u32>)
        requires
            old(self).wf(),
            count < 16,
        ensures
            final(self).wf(),
            final(self).data == old(self).data,
            r is None <==> old(self).idx + count > old(self).total_bits(),
            r is None ==> final(self).idx == old(self).idx,
            r matches Some(v) ==> {
                &&& v == bits_value(old(self).data@, old(self).idx as int, count as nat)
                &&& final(self).idx == old(self).idx + count
            },
    {
        if count > self.remaining() {
            return None;
        }
        let ghost start = self.idx as int;
        let mut result: u32 = 0;
        let mut i: usize = 0;
        while i < count
            invariant
                self.wf(),
                self.data == old(self).data,
                start == old(self).idx,
                i <= count < 16,
                start + count <= self.total_bits(),
                self.idx == start + i,
                result == bits_value(self.data@, start, i as nat),
            decreases count - i,
        {
            proof {
                lemma_bits_value_bound(self.data@, start, i as nat);
                lemma_pow2_strictly_increases(i as nat, 16);
                lemma2_to64();
            }
            let byte = self.data[self.idx / 8];
            let shift = (7 - self.idx % 8) as u8;
            let bit = ((byte >> shift) % 2) as u32;
            result = result * 2 + bit;
            self.idx = self.idx + 1;
            i = i + 1;
        }
        Some(result)
    }
}

} // verus!
