use crate::packet::{Operation, Packet, PacketTree};
use vstd::prelude::*;

verus! {

/// The sum of a sequence of naturals.
pub open spec fn total(s: Seq<nat>) -> nat
    decreases s.len(),
{
    if s.len() == 0 {
        0
    } else {
        total(s.drop_last()) + s.last()
    }
}

/// The product of a sequence of naturals.
pub open spec fn product(s: Seq<nat>) -> nat
    decreases s.len(),
{
    if s.len() == 0 {
        1
    } else {
        product(s.drop_last()) * s.last()
    }
}

/// Every running product, from the left, fits in 64 bits.
pub open spec fn products_fit(s: Seq<nat>) -> bool {
    forall|k: int| 0 <= k <= s.len() ==> product(#[trigger] s.take(k)) <= u64::MAX
}

/// The least element of a non-empty sequence.
pub open spec fn least(s: Seq<nat>) -> nat
    recommends
        s.len() > 0,
    decreases s.len(),
{
    if s.len() <= 1 {
        s[0]
    } else {
        let m = least(s.drop_last());
        if s.last() < m {
            s.last()
        } else {
            m
        }
    }
}

/// The greatest element of a non-empty sequence.
pub open spec fn greatest(s: Seq<nat>) -> nat
    recommends
        s.len() > 0,
    decreases s.len(),
{
    if s.len() <= 1 {
        s[0]
    } else {
        let m = greatest(s.drop_last());
        if s.last() > m {
            s.last()
        } else {
            m
        }
    }
}

/// The sum of every version number in a tree.
pub open spec fn version_sum(t: PacketTree) -> nat
    decreases t,
{
    match t {
        PacketTree::Literal(v, _) => v,
        PacketTree::Operator(v, _, cs) => v + total(version_sums(cs)),
    }
}

/// The version sum of each tree in a list.
pub open spec fn version_sums(cs: Seq<PacketTree>) -> Seq<nat>
    decreases cs,
{
    Seq::new(
        cs.len(),
        |i: int|
            if 0 <= i < cs.len() {
                version_sum(cs[i])
            } else {
                0
            },
    )
}

/// Combines the values of an operator's children, when the result fits in
/// 64 bits and the operation accepts that many operands.
pub open spec fn apply(op: Operation, s: Seq<nat>) -> Option<nat> {
    match op {
        Operation::Sum => if total(s) <= u64::MAX {
            Some(total(s))
        } else {
            None
        },
        Operation::Product => if products_fit(s) {
            Some(product(s))
        } else {
            None
        },
        Operation::Minimum => if s.len() > 0 {
            Some(least(s))
        } else {
            None
        },
        Operation::Maximum => if s.len() > 0 {
            Some(greatest(s))
        } else {
            None
        },
        Operation::GreaterThan => if s.len() == 2 {
            Some(if s[0] > s[1] { 1nat } else { 0nat })
        } else {
            None
        },
        Operation::LessThan => if s.len() == 2 {
            Some(if s[0] < s[1] { 1nat } else { 0nat })
        } else {
            None
        },
        Operation::EqualTo => if s.len() == 2 {
            Some(if s[0] == s[1] { 1nat } else { 0nat })
        } else {
            None
        },
    }
}

/// The values of a list of evaluations, when every one has a value.
pub open spec fn all_values(s: Seq<Option<nat>>) -> Option<Seq<nat>> {
    if forall|i: int| 0 <= i < s.len() ==> s[i] is Some {
        Some(Seq::new(s.len(), |i: int| s[i]->0))
    } else {
        None
    }
}

/// The value of a tree: literals give their own value, operators combine the
/// values of their children. `None` when some step does not fit in 64 bits
/// or an operator has a number of children its operation does not accept.
pub open spec fn eval(t: PacketTree) -> Option<nat>
    decreases t,
{
    match t {
        PacketTree::Literal(_, v) => Some(v),
        PacketTree::Operator(_, op, cs) => {
            match all_values(evals(cs)) {
                Some(s) => apply(op, s),
                None => None,
            }
        },
    }
}

/// The evaluation of each tree in a list.
pub open spec fn evals(cs: Seq<PacketTree>) -> Seq<Option<nat>>
    decreases cs,
{
    Seq::new(
        cs.len(),
        |i: int|
            if 0 <= i < cs.len() {
                eval(cs[i])
            } else {
                None
            },
    )
}

pub proof fn lemma_total_prefix(s: Seq<nat>, k: int)
    requires
        0 <= k <= s.len(),
    ensures
        total(s.take(k)) <= total(s),
    decreases s.len(),
{
    if k < s.len() {
        assert(s.drop_last().take(k) =~= s.take(k));
        lemma_total_prefix(s.drop_last(), k);
    } else {
        assert(s.take(k) =~= s);
    }
}

pub proof fn lemma_total_step(s: Seq<nat>, k: int)
    requires
        0 <= k < s.len(),
    ensures
        total(s.take(k + 1)) == total(s.take(k)) + s[k],
{
    assert(s.take(k + 1).drop_last() =~= s.take(k));
}

pub proof fn lemma_product_step(s: Seq<nat>, k: int)
    requires
        0 <= k < s.len(),
    ensures
        product(s.take(k + 1)) == product(s.take(k)) * s[k],
{
    assert(s.take(k + 1).drop_last() =~= s.take(k));
}

/// `r` is the 64-bit form of `o`: both absent, or both present and equal.
pub open spec fn agrees(r: Option<u64>, o: Option<nat>) -> bool {
    match r {
        Some(x) => o == Some(x as nat),
        None => o is None,
    }
}

/// A sequence of 64-bit integers as naturals.
pub open spec fn naturals(v: Seq<u64>) -> Seq<nat> {
    v.map_values(|x: u64| x as nat)
}

/// The sum of `vals`, or `None` when it does not fit in 64 bits.
pub fn sum_values(vals: &Vec<u64>) -> (r: Option<u64>)
    ensures
        agrees(r, apply(Operation::Sum, naturals(vals@))),
{
    let ghost s = naturals(vals@);
    let mut acc: u64 = 0;
    let mut i: usize = 0;
    while i < vals.len()
        invariant
            i <= vals.len(),
            s == naturals(vals@),
            acc == total(s.take(i as int)),
        decreases vals.len() - i,
    {
        proof {
            lemma_total_step(s, i as int);
        }
        if acc > u64::MAX - vals[i] {
            proof {
                lemma_total_prefix(s, i + 1);
            }
            return None;
        }
        acc = acc + vals[i];
        i = i + 1;
    }
    assert(s.take(i as int) =~= s);
    Some(acc)
}

/// The product of `vals`, or `None` when a running product does not fit in
/// 64 bits.
pub fn product_values(vals: &Vec<u64>) -> (r: Option<u64>)
    ensures
        agrees(r, apply(Operation::Product, naturals(vals@))),
{
    let ghost s = naturals(vals@);
    let mut acc: u64 = 1;
    let mut i: usize = 0;
    assert(product(s.take(0)) == 1) by {
        assert(s.take(0).len() == 0);
    }
    while i < vals.len()
        invariant
            i <= vals.len(),
            s == naturals(vals@),
            acc == product(s.take(i as int)),
            forall|k: int| 0 <= k <= i ==> product(#[trigger] s.take(k)) <= u64::MAX,
        decreases vals.len() - i,
    {
        proof {
            lemma_product_step(s, i as int);
        }
        let next = acc.checked_mul(vals[i]);
        match next {
            Some(p) => {
                acc = p;
            },
            None => {
                assert(product(s.take(i + 1)) > u64::MAX);
                return None;
            },
        }
        i = i + 1;
    }
    assert(s.take(i as int) =~= s);
    Some(acc)
}

/// The least of `vals`, or `None` when it is empty.
pub fn min_value(vals: &Vec<u64>) -> (r: Option<u64>)
    ensures
        agrees(r, apply(Operation::Minimum, naturals(vals@))),
{
    let ghost s = naturals(vals@);
    if vals.len() == 0 {
        return None;
    }
    let mut m: u64 = vals[0];
    let mut i: usize = 1;
    assert(s.take(1).len() == 1);
    while i < vals.len()
        invariant
            1 <= i <= vals.len(),
            s == naturals(vals@),
            m == least(s.take(i as int)),
        decreases vals.len() - i,
    {
        assert(s.take(i + 1).drop_last() =~= s.take(i as int));
        if vals[i] < m {
            m = vals[i];
        }
        i = i + 1;
    }
    assert(s.take(i as int) =~= s);
    Some(m)
}

/// The greatest of `vals`, or `None` when it is empty.
pub fn max_value(vals: &Vec<u64>) -> (r: Option<u64>)
    ensures
        agrees(r, apply(Operation::Maximum, naturals(vals@))),
{
    let ghost s = naturals(vals@);
    if vals.len() == 0 {
        return None;
    }
    let mut m: u64 = vals[0];
    let mut i: usize = 1;
    assert(s.take(1).len() == 1);
    while i < vals.len()
        invariant
            1 <= i <= vals.len(),
            s == naturals(vals@),
            m == greatest(s.take(i as int)),
        decreases vals.len() - i,
    {
        assert(s.take(i + 1).drop_last() =~= s.take(i as int));
        if vals[i] > m {
            m = vals[i];
        }
        i = i + 1;
    }
    assert(s.take(i as int) =~= s);
    Some(m)
}

/// `Some(n)` when `n` fits in 64 bits.
pub open spec fn fitting(n: nat) -> Option<u64> {
    if n <= u64::MAX {
        Some(n as u64)
    } else {
        None
    }
}

/// 1 when `holds`, else 0.
fn indicator(holds: bool) -> (r: u64)
    ensures
        r == (if holds { 1u64 } else { 0u64 }),
{
    if holds {
        1
    } else {
        0
    }
}

impl Packet {
    /// The value of the packet: a literal's own value, or its operation
    /// applied to its children's values. `None` when a step overflows 64
    /// bits or an operator has a number of children its operation does not
    /// accept.
    pub fn value(&self) -> (r: Option<u64>)
        ensures
            agrees(r, eval(self.tree())),
        decreases self,
    {
        match self {
            Packet::Literal(_, v) => {
                Some(*v)
            },
            Packet::Operator(ver, op, cs) => {
                let ghost tcs = self.tree()->Operator_2;
                let ghost es = evals(tcs);
                assert(eval(self.tree()) == match all_values(es) {
                    Some(s) => apply(*op, s),
                    None => None,
                });
                let mut vals: Vec<u64> = Vec::new();
                let mut i: usize = 0;
                while i < cs.len()
                    invariant
                        *self == Packet::Operator(*ver, *op, *cs),
                        eval(self.tree()) == match all_values(es) {
                            Some(s) => apply(*op, s),
                            None => None,
                        },
                        tcs == self.tree()->Operator_2,
                        i <= cs.len(),
                        vals.len() == i,
                        tcs.len() == cs.len(),
                        forall|j: int| 0 <= j < cs.len() ==> tcs[j] == (#[trigger] cs[j]).tree(),
                        es.len() == cs.len(),
                        forall|j: int| 0 <= j < cs.len() ==> #[trigger] es[j] == eval(tcs[j]),
                        forall|j: int| 0 <= j < i ==> es[j] == Some(#[trigger] vals[j] as nat),
                    decreases cs.len() - i,
                {
                    proof {
                        assert(decreases_to!(self => cs[i as int]));
                    }
                    match cs[i].value() {
                        Some(x) => {
                            vals.push(x);
                        },
                        None => {
                            assert(es[i as int] is None);
                            return None;
                        },
                    }
                    i = i + 1;
                }
                assert(all_values(es) == Some(naturals(vals@))) by {
                    assert forall|j: int| 0 <= j < es.len() implies es[j] is Some by {
                        assert(es[j] == Some(vals[j] as nat));
                    }
                    assert(Seq::new(es.len(), |j: int| es[j]->0) =~= naturals(vals@));
                }
                let r = match op {
                    Operation::Sum => sum_values(&vals),
                    Operation::Product => product_values(&vals),
                    Operation::Minimum => min_value(&vals),
                    Operation::Maximum => max_value(&vals),
                    Operation::GreaterThan => if vals.len() == 2 {
                        Some(indicator(vals[0] > vals[1]))
                    } else {
                        None
                    },
                    Operation::LessThan => if vals.len() == 2 {
                        Some(indicator(vals[0] < vals[1]))
                    } else {
                        None
                    },
                    Operation::EqualTo => if vals.len() == 2 {
                        Some(indicator(vals[0] == vals[1]))
                    } else {
                        None
                    },
                };
                r
            },
        }
    }

    /// The sum of the version numbers of this packet and all packets inside
    /// it, or `None` when it does not fit in 64 bits.
    pub fn version_sum(&self) -> (r: Option<u64>)
        ensures
            r == fitting(version_sum(self.tree())),
        decreases self,
    {
        match self {
            Packet::Literal(v, _) => Some(*v as u64),
            Packet::Operator(v, op, cs) => {
                let ghost tcs = self.tree()->Operator_2;
                let ghost sums = version_sums(tcs);
                assert(version_sum(self.tree()) == *v as nat + total(sums));
                let mut acc: u64 = *v as u64;
                let mut i: usize = 0;
                while i < cs.len()
                    invariant
                        *self == Packet::Operator(*v, *op, *cs),
                        tcs == self.tree()->Operator_2,
                        version_sum(self.tree()) == *v as nat + total(sums),
                        i <= cs.len(),
                        tcs.len() == cs.len(),
                        forall|j: int| 0 <= j < cs.len() ==> tcs[j] == (#[trigger] cs[j]).tree(),
                        sums.len() == cs.len(),
                        forall|j: int| 0 <= j < cs.len() ==> #[trigger] sums[j] == version_sum(tcs[j]),
                        acc == *v as nat + total(sums.take(i as int)),
                    decreases cs.len() - i,
                {
                    proof {
                        lemma_total_step(sums, i as int);
                        lemma_total_prefix(sums, i + 1);
                    }
                    match cs[i].version_sum() {
                        Some(x) => {
                            if acc > u64::MAX - x {
                                return None;
                            }
                            acc = acc + x;
                        },
                        None => {
                            proof {
                                lemma_total_prefix(sums, i + 1);
                            }
                            return None;
                        },
                    }
                    i = i + 1;
                }
                assert(sums.take(i as int) =~= sums);
                Some(acc)
            },
        }
    }
}

} // verus!
