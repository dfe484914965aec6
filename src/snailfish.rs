use vstd::prelude::*;
use vstd::std_specs::convert::{FromSpecImpl, IntoSpec};

verus! {

/// Where a text stopped following the grammar of a pair.
#[derive(Debug, Clone, Copy, PartialEq, Eq, Structural)]
pub struct ParseError {
    pub position: usize,
}

/// The step that one round of reduction performed.
#[derive(Debug, Clone, Copy, PartialEq, Eq, Structural)]
pub enum ReduceOp {
    EXPLODE,
    SPLIT,
}

/// One side of a pair: a regular number or a nested pair.
#[derive(Debug)]
pub enum PairElement {
    NUM(i64),
    PAIR(Box<Pair>),
}

/// A snailfish number: an ordered pair whose sides are regular numbers or
/// further pairs.
#[derive(Debug)]
pub struct Pair {
    pub lhs: PairElement,
    pub rhs: PairElement,
}

impl PairElement {
    /// The regular number held by this element.
    pub fn num(&self) -> (r: i64)
        requires
            self is NUM,
        ensures
            r == self->NUM_0,
    {
        match self {
            PairElement::NUM(n) => *n,
            PairElement::PAIR(_) => 0,
        }
    }
}

impl From<i64> for PairElement {
    fn from(n: i64) -> (r: PairElement)
        ensures
            r == PairElement::NUM(n),
    {
        PairElement::NUM(n)
    }
}

impl FromSpecImpl<i64> for PairElement {
    open spec fn obeys_from_spec() -> bool {
        true
    }

    open spec fn from_spec(n: i64) -> PairElement {
        PairElement::NUM(n)
    }
}

impl From<Pair> for PairElement {
    fn from(p: Pair) -> (r: PairElement)
        ensures
            r == PairElement::PAIR(Box::new(p)),
    {
        PairElement::PAIR(Box::new(p))
    }
}

impl FromSpecImpl<Pair> for PairElement {
    open spec fn obeys_from_spec() -> bool {
        true
    }

    open spec fn from_spec(p: Pair) -> PairElement {
        PairElement::PAIR(Box::new(p))
    }
}

/// The magnitude of an element: a number's own value, or a pair's magnitude.
pub open spec fn elem_magnitude(e: PairElement) -> int
    decreases e,
{
    match e {
        PairElement::NUM(n) => n as int,
        PairElement::PAIR(p) => magnitude_of(*p),
    }
}

/// Three times the magnitude of the left side plus twice that of the right.
pub open spec fn magnitude_of(p: Pair) -> int
    decreases p,
{
    3 * elem_magnitude(p.lhs) + 2 * elem_magnitude(p.rhs)
}

/// The magnitude of every pair inside `e` fits in an `i64`.
pub open spec fn elem_magnitude_fits(e: PairElement) -> bool
    decreases e,
{
    match e {
        PairElement::NUM(_) => true,
        PairElement::PAIR(p) => magnitude_fits(*p),
    }
}

/// The magnitude of `p` and of every pair inside it fits in an `i64`.
pub open spec fn magnitude_fits(p: Pair) -> bool
    decreases p,
{
    &&& elem_magnitude_fits(p.lhs)
    &&& elem_magnitude_fits(p.rhs)
    &&& i64::MIN <= magnitude_of(p) <= i64::MAX
}

fn element_magnitude(e: &PairElement) -> (r: i64)
    requires
        elem_magnitude_fits(*e),
    ensures
        r == elem_magnitude(*e),
    decreases e,
{
    match e {
        PairElement::NUM(n) => *n,
        PairElement::PAIR(nested) => nested.magnitude(),
    }
}

impl Pair {
    /// A pair of the two given sides.
    pub fn new<L: Into<PairElement>, R: Into<PairElement>>(lhs: L, rhs: R) -> (r: Pair)
        ensures
            <L as IntoSpec<PairElement>>::obeys_into_spec() ==> r.lhs == lhs.into_spec(),
            <R as IntoSpec<PairElement>>::obeys_into_spec() ==> r.rhs == rhs.into_spec(),
    {
        Pair { lhs: lhs.into(), rhs: rhs.into() }
    }

    /// Both sides are regular numbers.
    pub fn is_regular(&self) -> (r: bool)
        ensures
            r == (self.lhs is NUM && self.rhs is NUM),
    {
        let lhs = match self.lhs {
            PairElement::NUM(_) => true,
            _ => false,
        };
        let rhs = match self.rhs {
            PairElement::NUM(_) => true,
            _ => false,
        };
        lhs && rhs
    }

    /// Three times the magnitude of the left side plus twice that of the
    /// right, a regular number being its own magnitude.
    pub fn magnitude(&self) -> (r: i64)
        requires
            magnitude_fits(*self),
        ensures
            r == magnitude_of(*self),
        decreases self,
    {
        let lhs = element_magnitude(&self.lhs);
        let rhs = element_magnitude(&self.rhs);
        let total: i128 = lhs as i128 * 3 + rhs as i128 * 2;
        total as i64
    }
}

impl core::ops::Add for Pair {
    type Output = Pair;

    /// The pair whose left side is `self` and whose right side is `rhs`.
    fn add(self, rhs: Pair) -> (r: Pair)
        ensures
            r == (Pair { lhs: PairElement::PAIR(Box::new(self)), rhs: PairElement::PAIR(Box::new(rhs)) }),
    {
        Pair { lhs: PairElement::PAIR(Box::new(self)), rhs: PairElement::PAIR(Box::new(rhs)) }
    }
}

impl vstd::std_specs::ops::AddSpecImpl for Pair {
    open spec fn obeys_add_spec() -> bool {
        true
    }

    open spec fn add_req(self, rhs: Pair) -> bool {
        true
    }

    open spec fn add_spec(self, rhs: Pair) -> Pair {
        Pair { lhs: PairElement::PAIR(Box::new(self)), rhs: PairElement::PAIR(Box::new(rhs)) }
    }
}

/// The decimal digits of `n`, most significant first, in ASCII.
pub open spec fn decimal(n: nat) -> Seq<u8>
    decreases n,
{
    if n < 10 {
        seq![(48 + n) as u8]
    } else {
        decimal(n / 10) + seq![(48 + n % 10) as u8]
    }
}

/// A regular number as text: its digits, after a '-' when it is negative.
pub open spec fn number_text(n: int) -> Seq<u8> {
    if n < 0 {
        seq![45u8] + decimal((-n) as nat)
    } else {
        decimal(n as nat)
    }
}

/// An element as text.
pub open spec fn elem_text(e: PairElement) -> Seq<u8>
    decreases e,
{
    match e {
        PairElement::NUM(n) => number_text(n as int),
        PairElement::PAIR(p) => pair_text(*p),
    }
}

/// A pair as text: `[`, the left side, `,`, the right side, `]`.
pub open spec fn pair_text(p: Pair) -> Seq<u8>
    decreases p,
{
    seq![91u8] + elem_text(p.lhs) + seq![44u8] + elem_text(p.rhs) + seq![93u8]
}

fn write_decimal(out: &mut Vec<u8>, n: u64)
    ensures
        final(out)@ == old(out)@ + decimal(n as nat),
    decreases n,
{
    if n < 10 {
        out.push(48 + n as u8);
    } else {
        write_decimal(out, n / 10);
        out.push(48 + (n % 10) as u8);
        proof {
            assert(final(out)@ =~= old(out)@ + decimal(n as nat));
        }
    }
}

fn write_number(out: &mut Vec<u8>, n: i64)
    ensures
        final(out)@ == old(out)@ + number_text(n as int),
{
    if n < 0 {
        out.push(45);
        let magnitude: u64 = (0i128 - n as i128) as u64;
        write_decimal(out, magnitude);
        proof {
            assert(final(out)@ =~= old(out)@ + number_text(n as int));
        }
    } else {
        write_decimal(out, n as u64);
    }
}

fn write_elem(out: &mut Vec<u8>, e: &PairElement)
    ensures
        final(out)@ == old(out)@ + elem_text(*e),
    decreases e,
{
    match e {
        PairElement::NUM(n) => write_number(out, *n),
        PairElement::PAIR(p) => write_pair(out, p),
    }
}

fn write_pair(out: &mut Vec<u8>, p: &Pair)
    ensures
        final(out)@ == old(out)@ + pair_text(*p),
    decreases p,
{
    let ghost start = out@;
    out.push(91);
    write_elem(out, &p.lhs);
    out.push(44);
    write_elem(out, &p.rhs);
    out.push(93);
    proof {
        assert(out@ =~= start + pair_text(*p));
    }
}

impl Pair {
    /// The pair written out as ASCII text, as in `[[1,2],3]`.
    pub fn render(&self) -> (r: Vec<u8>)
        ensures
            r@ == pair_text(*self),
    {
        let mut out: Vec<u8> = Vec::new();
        write_pair(&mut out, self);
        proof {
            assert(out@ =~= pair_text(*self));
        }
        out
    }
}

pub open spec fn is_digit(c: u8) -> bool {
    48 <= c <= 57
}

/// The end of the run of digits that starts at `pos`.
pub open spec fn digits_end(s: Seq<u8>, pos: int) -> int
    decreases s.len() - pos,
{
    if 0 <= pos < s.len() && is_digit(s[pos]) {
        digits_end(s, pos + 1)
    } else {
        pos
    }
}

/// The value of the decimal digits in `s[from..to]`.
pub open spec fn digits_value(s: Seq<u8>, from: int, to: int) -> nat
    decreases to - from,
{
    if to <= from {
        0
    } else {
        digits_value(s, from, to - 1) * 10 + (s[to - 1] - 48) as nat
    }
}

pub open spec fn error_at(pos: int) -> ParseError {
    ParseError { position: pos as usize }
}

/// An element from `pos` on: a pair, or a run of digits whose value fits
/// in an `i64`; with the position after it.
pub open spec fn elem_spec(s: Seq<u8>, pos: int) -> Result<(PairElement, int), ParseError>
    decreases s.len() - pos, 1nat,
{
    if pos < 0 || pos >= s.len() {
        Err(error_at(pos))
    } else if s[pos] == 91 {
        match pair_spec(s, pos) {
            Ok((p, e)) => Ok((PairElement::PAIR(Box::new(p)), e)),
            Err(x) => Err(x),
        }
    } else {
        let end = digits_end(s, pos);
        if end == pos || digits_value(s, pos, end) > i64::MAX {
            Err(error_at(pos))
        } else {
            Ok((PairElement::NUM(digits_value(s, pos, end) as i64), end))
        }
    }
}

/// A pair from `pos` on: `[`, an element, `,`, an element, `]`; with the
/// position after it.
pub open spec fn pair_spec(s: Seq<u8>, pos: int) -> Result<(Pair, int), ParseError>
    decreases s.len() - pos, 0nat,
{
    if pos < 0 || pos >= s.len() || s[pos] != 91 {
        Err(error_at(pos))
    } else {
        match elem_spec(s, pos + 1) {
            Err(x) => Err(x),
            Ok((l, e1)) => if !(pos < e1 < s.len()) || s[e1] != 44 {
                Err(error_at(e1))
            } else {
                match elem_spec(s, e1 + 1) {
                    Err(x) => Err(x),
                    Ok((r, e2)) => if !(e1 < e2 < s.len()) || s[e2] != 93 {
                        Err(error_at(e2))
                    } else {
                        Ok((Pair { lhs: l, rhs: r }, e2 + 1))
                    },
                }
            },
        }
    }
}

/// The pair that makes up the whole of `s`.
pub open spec fn parse_spec(s: Seq<u8>) -> Result<Pair, ParseError> {
    match pair_spec(s, 0) {
        Ok((p, e)) => if e == s.len() {
            Ok(p)
        } else {
            Err(error_at(e))
        },
        Err(x) => Err(x),
    }
}

proof fn lemma_digits_grow(s: Seq<u8>, from: int, k: int, to: int)
    requires
        from <= k <= to,
        forall|i: int| from <= i < to ==> is_digit(#[trigger] s[i]),
    ensures
        digits_value(s, from, k) <= digits_value(s, from, to),
    decreases to - k,
{
    if k < to {
        lemma_digits_grow(s, from, k, to - 1);
    }
}

proof fn lemma_digits_end(s: Seq<u8>, pos: int, i: int)
    requires
        0 <= pos <= i,
        forall|j: int| pos <= j < i ==> is_digit(#[trigger] s[j]),
        digits_end(s, pos) == digits_end(s, i),
    ensures
        pos <= i <= digits_end(s, pos) <= s.len() || (i > s.len()),
        forall|j: int| pos <= j < digits_end(s, pos) ==> is_digit(#[trigger] s[j]),
    decreases s.len() - i,
{
    if 0 <= i < s.len() && is_digit(s[i]) {
        lemma_digits_end(s, pos, i + 1);
    }
}

proof fn lemma_pair_bounds(s: Seq<u8>, pos: int)
    ensures
        pair_spec(s, pos) matches Ok((p, e)) ==> pos < e <= s.len(),
{
}

proof fn lemma_elem_bounds(s: Seq<u8>, pos: int)
    ensures
        elem_spec(s, pos) matches Ok((x, e)) ==> pos < e <= s.len(),
{
    lemma_pair_bounds(s, pos);
    if 0 <= pos < s.len() {
        lemma_digits_end(s, pos, pos);
    }
}

fn parse_number(s: &[u8], pos: usize) -> (r: Result<(PairElement, usize), ParseError>)
    requires
        pos < s@.len(),
        s@[pos as int] != 91,
    ensures
        match elem_spec(s@, pos as int) {
            Ok((e, end)) => r == Ok::<(PairElement, usize), ParseError>((e, end as usize)),
            Err(x) => r == Err::<(PairElement, usize), ParseError>(x),
        },
{
    let mut value: i64 = 0;
    let mut i: usize = pos;
    while i < s.len() && 48 <= s[i] && s[i] <= 57
        invariant
            pos <= i <= s@.len(),
            forall|j: int| pos <= j < i ==> is_digit(#[trigger] s@[j]),
            digits_end(s@, pos as int) == digits_end(s@, i as int),
            value == digits_value(s@, pos as int, i as int),
        decreases s@.len() - i,
    {
        let d = (s[i] - 48) as i64;
        if value > (i64::MAX - d) / 10 {
            proof {
                assert(digits_value(s@, pos as int, i + 1) > i64::MAX);
                lemma_digits_end(s@, pos as int, i + 1);
                lemma_digits_grow(s@, pos as int, i + 1, digits_end(s@, pos as int));
            }
            return Err(ParseError { position: pos });
        }
        value = value * 10 + d;
        i = i + 1;
    }
    proof {
        lemma_digits_end(s@, pos as int, i as int);
    }
    if i == pos {
        return Err(ParseError { position: pos });
    }
    Ok((PairElement::NUM(value), i))
}

fn parse_elem(s: &[u8], pos: usize) -> (r: Result<(PairElement, usize), ParseError>)
    ensures
        match elem_spec(s@, pos as int) {
            Ok((e, end)) => r == Ok::<(PairElement, usize), ParseError>((e, end as usize)),
            Err(x) => r == Err::<(PairElement, usize), ParseError>(x),
        },
    decreases s@.len() - pos, 1nat,
{
    if pos >= s.len() {
        return Err(ParseError { position: pos });
    }
    proof {
        lemma_pair_bounds(s@, pos as int);
    }
    if s[pos] == 91 {
        match parse_pair(s, pos) {
            Ok((p, end)) => Ok((PairElement::PAIR(Box::new(p)), end)),
            Err(x) => Err(x),
        }
    } else {
        parse_number(s, pos)
    }
}

fn parse_pair(s: &[u8], pos: usize) -> (r: Result<(Pair, usize), ParseError>)
    ensures
        match pair_spec(s@, pos as int) {
            Ok((p, end)) => r == Ok::<(Pair, usize), ParseError>((p, end as usize)),
            Err(x) => r == Err::<(Pair, usize), ParseError>(x),
        },
    decreases s@.len() - pos, 0nat,
{
    if pos >= s.len() || s[pos] != 91 {
        return Err(ParseError { position: pos });
    }
    proof {
        lemma_elem_bounds(s@, pos + 1);
    }
    let (lhs, comma) = match parse_elem(s, pos + 1) {
        Ok(found) => found,
        Err(x) => return Err(x),
    };
    if !(pos < comma && comma < s.len()) || s[comma] != 44 {
        return Err(ParseError { position: comma });
    }
    proof {
        lemma_elem_bounds(s@, comma + 1);
    }
    let (rhs, close) = match parse_elem(s, comma + 1) {
        Ok(found) => found,
        Err(x) => return Err(x),
    };
    if !(comma < close && close < s.len()) || s[close] != 93 {
        return Err(ParseError { position: close });
    }
    Ok((Pair { lhs, rhs }, close + 1))
}

impl Pair {
    /// Reads a pair that makes up the whole of `s`, as in `[[1,2],3]`.
    /// Regular numbers are runs of decimal digits that fit in an `i64`.
    pub fn parse(s: &[u8]) -> (r: Result<Pair, ParseError>)
        ensures
            r == parse_spec(s@),
    {
        proof {
            lemma_pair_bounds(s@, 0);
        }
        match parse_pair(s, 0) {
            Ok((p, end)) => if end == s.len() {
                Ok(p)
            } else {
                Err(ParseError { position: end })
            },
            Err(x) => Err(x),
        }
    }
}

impl core::str::FromStr for Pair {
    type Err = ParseError;

    fn from_str(s: &str) -> Result<Pair, ParseError> {
        Pair::parse(s.as_bytes())
    }
}

/// The largest magnitude a regular number may have before an explosion adds
/// to it: two such numbers add up without overflow.
pub const LEAF_LIMIT: i64 = 4611686018427387903;

/// Every regular number in `e` lies within `LEAF_LIMIT` of zero.
pub open spec fn elem_bounded(e: PairElement) -> bool
    decreases e,
{
    match e {
        PairElement::NUM(n) => -LEAF_LIMIT <= n <= LEAF_LIMIT,
        PairElement::PAIR(p) => bounded(*p),
    }
}

/// Every regular number in `p` lies within `LEAF_LIMIT` of zero.
pub open spec fn bounded(p: Pair) -> bool
    decreases p,
{
    elem_bounded(p.lhs) && elem_bounded(p.rhs)
}

/// `e` with `v` added to its leftmost regular number.
pub open spec fn leftmost_plus(e: PairElement, v: int) -> PairElement
    decreases e,
{
    match e {
        PairElement::NUM(n) => PairElement::NUM((n + v) as i64),
        PairElement::PAIR(p) => PairElement::PAIR(
            Box::new(Pair { lhs: leftmost_plus(p.lhs, v), rhs: p.rhs }),
        ),
    }
}

/// `e` with `v` added to its rightmost regular number.
pub open spec fn rightmost_plus(e: PairElement, v: int) -> PairElement
    decreases e,
{
    match e {
        PairElement::NUM(n) => PairElement::NUM((n + v) as i64),
        PairElement::PAIR(p) => PairElement::PAIR(
            Box::new(Pair { lhs: p.lhs, rhs: rightmost_plus(p.rhs, v) }),
        ),
    }
}

/// Whether an element is a pair of two regular numbers.
pub open spec fn is_regular_pair(e: PairElement) -> bool {
    e matches PairElement::PAIR(n) && n.lhs is NUM && n.rhs is NUM
}

/// The nesting depth passed to the sides of a pair; depths past 4 all
/// behave alike, so the count stops there.
pub open spec fn next_depth(depth: nat) -> nat {
    if depth < 4 {
        depth + 1
    } else {
        depth
    }
}

/// The first explosion in `p`, whose own nesting depth is `depth`: the
/// leftmost pair of two regular numbers that sits inside at least four
/// pairs, searched side by side from the left. It becomes 0; its left
/// number is added to the nearest regular number on its left and its right
/// number to the nearest on its right. Where no such number lies inside `p`
/// the value is handed back out, to be added further up.
pub open spec fn explode_spec(p: Pair, depth: nat) -> Option<(Pair, Option<i64>, Option<i64>)>
    decreases p,
{
    if depth >= 4 && is_regular_pair(p.lhs) {
        let n = *p.lhs->PAIR_0;
        Some(
            (
                Pair { lhs: PairElement::NUM(0), rhs: leftmost_plus(p.rhs, n.rhs->NUM_0 as int) },
                Some(n.lhs->NUM_0),
                None,
            ),
        )
    } else if depth >= 4 && is_regular_pair(p.rhs) {
        let n = *p.rhs->PAIR_0;
        Some(
            (
                Pair { lhs: rightmost_plus(p.lhs, n.lhs->NUM_0 as int), rhs: PairElement::NUM(0) },
                None,
                Some(n.rhs->NUM_0),
            ),
        )
    } else if p.lhs is PAIR && explode_spec(*p.lhs->PAIR_0, next_depth(depth)) is Some {
        let (np, l, r) = explode_spec(*p.lhs->PAIR_0, next_depth(depth))->Some_0;
        let rhs = match r {
            Some(x) => leftmost_plus(p.rhs, x as int),
            None => p.rhs,
        };
        Some((Pair { lhs: PairElement::PAIR(Box::new(np)), rhs }, l, None))
    } else if p.rhs is PAIR && explode_spec(*p.rhs->PAIR_0, next_depth(depth)) is Some {
        let (np, l, r) = explode_spec(*p.rhs->PAIR_0, next_depth(depth))->Some_0;
        let lhs = match l {
            Some(x) => rightmost_plus(p.lhs, x as int),
            None => p.lhs,
        };
        Some((Pair { lhs, rhs: PairElement::PAIR(Box::new(np)) }, None, r))
    } else {
        None
    }
}

fn add_to_leftmost(e: PairElement, v: i64) -> (r: PairElement)
    requires
        elem_bounded(e),
        -LEAF_LIMIT <= v <= LEAF_LIMIT,
    ensures
        r == leftmost_plus(e, v as int),
    decreases e,
{
    match e {
        PairElement::NUM(n) => PairElement::NUM(n + v),
        PairElement::PAIR(p) => {
            let Pair { lhs, rhs } = *p;
            PairElement::PAIR(Box::new(Pair { lhs: add_to_leftmost(lhs, v), rhs }))
        },
    }
}

fn add_to_rightmost(e: PairElement, v: i64) -> (r: PairElement)
    requires
        elem_bounded(e),
        -LEAF_LIMIT <= v <= LEAF_LIMIT,
    ensures
        r == rightmost_plus(e, v as int),
    decreases e,
{
    match e {
        PairElement::NUM(n) => PairElement::NUM(n + v),
        PairElement::PAIR(p) => {
            let Pair { lhs, rhs } = *p;
            PairElement::PAIR(Box::new(Pair { lhs, rhs: add_to_rightmost(rhs, v) }))
        },
    }
}

/// `o` is absent or within `LEAF_LIMIT` of zero.
pub open spec fn small(o: Option<i64>) -> bool {
    o matches Some(x) ==> -LEAF_LIMIT <= x <= LEAF_LIMIT
}

fn explode_owned(p: Pair, depth: usize) -> (r: (Pair, Option<(Option<i64>, Option<i64>)>))
    requires
        bounded(p),
    ensures
        match explode_spec(p, depth as nat) {
            Some((np, l, rr)) => r.0 == np && r.1 == Some((l, rr)) && small(l) && small(rr),
            None => r.0 == p && r.1 is None,
        },
    decreases p,
{
    let ghost orig = p;
    let Pair { lhs, rhs } = p;
    if depth >= 4 {
        if let PairElement::PAIR(n) = &lhs {
            if n.is_regular() {
                proof {
                    assert(elem_bounded(lhs));
                    assert(elem_bounded(n.lhs) && elem_bounded(n.rhs));
                }
                let l = n.lhs.num();
                let r = n.rhs.num();
                return (
                    Pair { lhs: PairElement::NUM(0), rhs: add_to_leftmost(rhs, r) },
                    Some((Some(l), None)),
                );
            }
        }
        if let PairElement::PAIR(n) = &rhs {
            if n.is_regular() {
                proof {
                    assert(elem_bounded(rhs));
                    assert(elem_bounded(n.lhs) && elem_bounded(n.rhs));
                }
                let l = n.lhs.num();
                let r = n.rhs.num();
                return (
                    Pair { lhs: add_to_rightmost(lhs, l), rhs: PairElement::NUM(0) },
                    Some((None, Some(r))),
                );
            }
        }
    }
    let next = if depth < 4 {
        depth + 1
    } else {
        depth
    };
    let lhs = match lhs {
        PairElement::PAIR(n) => {
            let (np, res) = explode_owned(*n, next);
            match res {
                Some((l, r)) => {
                    let rhs = match r {
                        Some(x) => add_to_leftmost(rhs, x),
                        None => rhs,
                    };
                    return (Pair { lhs: PairElement::PAIR(Box::new(np)), rhs }, Some((l, None)));
                },
                None => PairElement::PAIR(Box::new(np)),
            }
        },
        other => other,
    };
    let rhs = match rhs {
        PairElement::PAIR(n) => {
            let (np, res) = explode_owned(*n, next);
            match res {
                Some((l, r)) => {
                    let lhs = match l {
                        Some(x) => add_to_rightmost(lhs, x),
                        None => lhs,
                    };
                    return (Pair { lhs, rhs: PairElement::PAIR(Box::new(np)) }, Some((None, r)));
                },
                None => PairElement::PAIR(Box::new(np)),
            }
        },
        other => other,
    };
    (Pair { lhs, rhs }, None)
}

/// Performs the first explosion in `p` (see `explode_spec`), `depth` being
/// the nesting depth of `p` itself, 1 for an outermost pair. Returns the
/// numbers that found no neighbour inside `p`, or `None`, with `p` left as
/// it was, when nothing explodes.
pub fn explode(p: &mut Pair, depth: usize) -> (r: Option<(Option<i64>, Option<i64>)>)
    requires
        bounded(*old(p)),
    ensures
        match explode_spec(*old(p), depth as nat) {
            Some((np, l, rr)) => *final(p) == np && r == Some((l, rr)),
            None => *final(p) == *old(p) && r is None,
        },
{
    let mut taken = Pair { lhs: PairElement::NUM(0), rhs: PairElement::NUM(0) };
    core::mem::swap(p, &mut taken);
    let (np, res) = explode_owned(taken, depth);
    *p = np;
    res
}

/// The pair that a regular number of at least 10 splits into: half of it
/// rounded down, and half rounded up.
pub open spec fn halves(v: i64) -> Pair {
    Pair { lhs: PairElement::NUM((v / 2) as i64), rhs: PairElement::NUM((v - v / 2) as i64) }
}

/// `e` after its first split, if any: the leftmost regular number of at
/// least 10 becomes the pair of its halves.
pub open spec fn split_elem_spec(e: PairElement) -> Option<PairElement>
    decreases e,
{
    match e {
        PairElement::NUM(v) => if v >= 10 {
            Some(PairElement::PAIR(Box::new(halves(v))))
        } else {
            None
        },
        PairElement::PAIR(q) => match split_spec(*q) {
            Some(nq) => Some(PairElement::PAIR(Box::new(nq))),
            None => None,
        },
    }
}

/// `p` after its first split, if any, searched from the left.
pub open spec fn split_spec(p: Pair) -> Option<Pair>
    decreases p,
{
    match split_elem_spec(p.lhs) {
        Some(nl) => Some(Pair { lhs: nl, rhs: p.rhs }),
        None => match split_elem_spec(p.rhs) {
            Some(nr) => Some(Pair { lhs: p.lhs, rhs: nr }),
            None => None,
        },
    }
}

/// One round of reduction: the first explosion if there is one, else the
/// first split, else nothing.
pub open spec fn reduce_spec(p: Pair) -> Option<(Pair, ReduceOp)> {
    match explode_spec(p, 1) {
        Some((np, _, _)) => Some((np, ReduceOp::EXPLODE)),
        None => match split_spec(p) {
            Some(np) => Some((np, ReduceOp::SPLIT)),
            None => None,
        },
    }
}

fn split_elem_owned(e: PairElement) -> (r: (PairElement, bool))
    ensures
        match split_elem_spec(e) {
            Some(ne) => r == (ne, true),
            None => r == (e, false),
        },
    decreases e,
{
    match e {
        PairElement::NUM(v) => {
            if v >= 10 {
                let half = v / 2;
                let pair = Pair { lhs: PairElement::NUM(half), rhs: PairElement::NUM(v - half) };
                (PairElement::PAIR(Box::new(pair)), true)
            } else {
                (PairElement::NUM(v), false)
            }
        },
        PairElement::PAIR(q) => {
            let (nq, done) = split_owned(*q);
            (PairElement::PAIR(Box::new(nq)), done)
        },
    }
}

fn split_owned(p: Pair) -> (r: (Pair, bool))
    ensures
        match split_spec(p) {
            Some(np) => r == (np, true),
            None => r == (p, false),
        },
    decreases p,
{
    let Pair { lhs, rhs } = p;
    let (lhs, done) = split_elem_owned(lhs);
    if done {
        return (Pair { lhs, rhs }, true);
    }
    let (rhs, done) = split_elem_owned(rhs);
    (Pair { lhs, rhs }, done)
}

/// Performs the first split in `p` (see `split_spec`). Returns whether
/// there was one; when not, `p` is left as it was.
pub fn split(p: &mut Pair) -> (r: bool)
    ensures
        match split_spec(*old(p)) {
            Some(np) => *final(p) == np && r,
            None => *final(p) == *old(p) && !r,
        },
{
    let mut taken = Pair { lhs: PairElement::NUM(0), rhs: PairElement::NUM(0) };
    core::mem::swap(p, &mut taken);
    let (np, done) = split_owned(taken);
    *p = np;
    done
}

/// Performs one round of reduction on `p`: an explosion if one is due,
/// else a split, and says which; `None`, with `p` left as it was, when `p`
/// is fully reduced.
pub fn reduce(p: &mut Pair) -> (r: Option<ReduceOp>)
    requires
        bounded(*old(p)),
    ensures
        match reduce_spec(*old(p)) {
            Some((np, op)) => *final(p) == np && r == Some(op),
            None => *final(p) == *old(p) && r is None,
        },
{
    if explode(p, 1).is_some() {
        return Some(ReduceOp::EXPLODE);
    }
    if split(p) {
        return Some(ReduceOp::SPLIT);
    }
    None
}

} // verus!
