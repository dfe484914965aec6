use vstd::array::spec_array_update;
use vstd::prelude::*;

verus! {

/// The four kinds of amphipod.
#[derive(Debug, Clone, Copy, PartialEq, Eq, Structural)]
pub enum Metapod {
    AMBER,
    BRONZE,
    COPPER,
    DESERT,
}

impl Metapod {
    pub open spec fn room_of(self) -> usize {
        match self {
            Metapod::AMBER => 0,
            Metapod::BRONZE => 1,
            Metapod::COPPER => 2,
            Metapod::DESERT => 3,
        }
    }

    /// The letter that stands for this kind on a map.
    pub fn char(&self) -> (r: char)
        ensures
            r == match *self {
                Metapod::AMBER => 'A',
                Metapod::BRONZE => 'B',
                Metapod::COPPER => 'C',
                Metapod::DESERT => 'D',
            },
    {
        match self {
            Metapod::AMBER => 'A',
            Metapod::BRONZE => 'B',
            Metapod::COPPER => 'C',
            Metapod::DESERT => 'D',
        }
    }

    pub open spec fn energy(self) -> nat {
        match self {
            Metapod::AMBER => 1,
            Metapod::BRONZE => 10,
            Metapod::COPPER => 100,
            Metapod::DESERT => 1000,
        }
    }

    /// The energy one step of this kind costs.
    pub fn step_cost(&self) -> (r: usize)
        ensures
            r == self.energy(),
    {
        match self {
            Metapod::AMBER => 1,
            Metapod::BRONZE => 10,
            Metapod::COPPER => 100,
            Metapod::DESERT => 1000,
        }
    }

    /// The index of the room this kind belongs in, left to right.
    pub fn room(&self) -> (r: usize)
        ensures
            r == self.room_of(),
    {
        match self {
            Metapod::AMBER => 0,
            Metapod::BRONZE => 1,
            Metapod::COPPER => 2,
            Metapod::DESERT => 3,
        }
    }
}

/// A side room: the kind it is meant for, and its slots from the top (0)
/// down.
#[derive(Debug, Clone, Copy)]
pub struct Room<const N: usize>(pub Metapod, pub [Option<Metapod>; N]);

/// Scanning slots `n - 1` down to 0, the first empty slot reached before any
/// amphipod of another kind than `m`.
pub open spec fn free_slot(s: Seq<Option<Metapod>>, m: Metapod, n: int) -> Option<usize>
    decreases n,
{
    if n <= 0 {
        None
    } else {
        match s[n - 1] {
            Some(x) => if x != m {
                None
            } else {
                free_slot(s, m, n - 1)
            },
            None => Some((n - 1) as usize),
        }
    }
}

/// A slot is empty or holds an amphipod of kind `kind`.
pub open spec fn fits_room(slot: Option<Metapod>, kind: Metapod) -> bool {
    match slot {
        Some(x) => x == kind,
        None => true,
    }
}

/// The first occupied slot at or after `k`, with its occupant.
pub open spec fn first_occupied(s: Seq<Option<Metapod>>, k: int) -> Option<(usize, Metapod)>
    decreases s.len() - k,
{
    if k < 0 || k >= s.len() {
        None
    } else {
        match s[k] {
            Some(m) => Some((k as usize, m)),
            None => first_occupied(s, k + 1),
        }
    }
}

proof fn lemma_first_occupied_in_range(s: Seq<Option<Metapod>>, k: int)
    requires
        s.len() <= usize::MAX,
    ensures
        first_occupied(s, k) matches Some((p, m)) ==> k <= p < s.len() && s[p as int] == Some(m),
    decreases s.len() - k,
{
    if 0 <= k < s.len() && s[k] is None {
        lemma_first_occupied_in_range(s, k + 1);
    }
}

proof fn lemma_free_slot_in_range(s: Seq<Option<Metapod>>, m: Metapod, n: int)
    requires
        n <= s.len(),
    ensures
        free_slot(s, m, n) matches Some(x) ==> x < n,
    decreases n,
{
    if n > 0 {
        lemma_free_slot_in_range(s, m, n - 1);
    }
}

impl<const N: usize> Room<N> {
    /// The topmost amphipod with its slot, when an amphipod of another kind
    /// is in the room; else `None`.
    pub open spec fn top_of(&self) -> Option<(usize, Metapod)> {
        if self.only_own_kind() {
            None
        } else {
            first_occupied(self.1@, 0)
        }
    }

    /// The slot an amphipod of kind `m` would move into.
    pub open spec fn accept_of(&self, m: Metapod) -> Option<usize> {
        if m != self.0 {
            None
        } else {
            free_slot(self.1@, m, N as int)
        }
    }

    /// Every slot holds an amphipod of the room's kind.
    pub open spec fn is_complete(&self) -> bool {
        forall|i: int| 0 <= i < N ==> #[trigger] self.1[i] == Some(self.0)
    }

    /// No slot holds an amphipod of another kind.
    pub open spec fn only_own_kind(&self) -> bool {
        forall|i: int| 0 <= i < N ==> fits_room(#[trigger] self.1[i], self.0)
    }

    /// Whether every slot holds an amphipod of the room's kind.
    pub fn complete(&self) -> (r: bool)
        ensures
            r == self.is_complete(),
    {
        let mut i: usize = 0;
        while i < N
            invariant
                i <= N,
                forall|j: int| 0 <= j < i ==> #[trigger] self.1[j] == Some(self.0),
            decreases N - i,
        {
            if self.1[i] != Some(self.0) {
                return false;
            }
            i = i + 1;
        }
        true
    }

    /// The topmost amphipod with its slot, when some amphipod of another
    /// kind is still in the room and so someone has to leave; else `None`.
    pub fn top(&self) -> (r: Option<(usize, Metapod)>)
        ensures
            r == self.top_of(),
    {
        let mut i: usize = 0;
        let mut clean = true;
        while i < N
            invariant
                i <= N,
                clean == forall|j: int| 0 <= j < i ==> fits_room(#[trigger] self.1[j], self.0),
            decreases N - i,
        {
            if let Some(x) = self.1[i] {
                if x != self.0 {
                    clean = false;
                }
            }
            i = i + 1;
        }
        if clean {
            return None;
        }
        let mut k: usize = 0;
        while k < N
            invariant
                k <= N,
                !self.only_own_kind(),
                first_occupied(self.1@, 0) == first_occupied(self.1@, k as int),
            decreases N - k,
        {
            if let Some(m) = self.1[k] {
                return Some((k, m));
            }
            k = k + 1;
        }
        None
    }

    /// The slot that an amphipod of kind `metapod` would move into: the
    /// deepest empty slot, provided the room is of that kind and holds no
    /// other kind below it.
    pub fn accept(&self, metapod: Metapod) -> (r: Option<usize>)
        ensures
            r == self.accept_of(metapod),
    {
        if metapod != self.0 {
            return None;
        }
        let mut n: usize = N;
        while n > 0
            invariant
                n <= N,
                metapod == self.0,
                free_slot(self.1@, metapod, N as int) == free_slot(self.1@, metapod, n as int),
            decreases n,
        {
            let idx = n - 1;
            match self.1[idx] {
                Some(x) => {
                    if x != metapod {
                        return None;
                    }
                },
                None => {
                    return Some(idx);
                },
            }
            n = n - 1;
        }
        None
    }
}

/// The corridor of eleven cells above the rooms.
#[derive(Debug, Clone, Copy)]
pub struct Hallway(pub [Option<Metapod>; 11]);

/// The hallway cell right above room `room`.
pub open spec fn room_cell(room: int) -> int {
    room * 2 + 2
}

/// The amphipods among the first `n` hallway cells that can walk to the
/// cell above their room, with their cells, left to right.
pub open spec fn waiting_among(h: Hallway, n: int) -> Seq<(Metapod, usize)>
    decreases n,
{
    if n <= 0 {
        Seq::empty()
    } else {
        let before = waiting_among(h, n - 1);
        match h.0[n - 1] {
            Some(m) => if h.clear_between(n - 1, room_cell(m.room_of() as int)) {
                before.push((m, (n - 1) as usize))
            } else {
                before
            },
            None => before,
        }
    }
}

impl Hallway {
    /// Every cell between `from` and `to`, both included, is empty, except
    /// `from` itself.
    pub open spec fn clear_between(self, from: int, to: int) -> bool {
        forall|x: int|
            (from <= x <= to || to <= x <= from) && x != from ==> (#[trigger] self.0[x]) is None
    }

    /// The hallway cell right above room `room`.
    pub fn room_pos(room: usize) -> (r: usize)
        requires
            room < 4,
        ensures
            r == room_cell(room as int),
    {
        room * 2 + 2
    }

    /// Whether the walk from cell `from` to cell `to` is free: every cell
    /// between them, `to` included, is empty.
    pub fn is_clear(&self, from: usize, to: usize) -> (r: bool)
        requires
            from < 11,
            to < 11,
        ensures
            r == self.clear_between(from as int, to as int),
    {
        let (lo, hi) = if from < to {
            (from, to)
        } else {
            (to, from)
        };
        let mut x: usize = lo;
        while x <= hi
            invariant
                lo <= x <= hi + 1,
                hi < 11,
                lo == if from < to { from } else { to },
                hi == if from < to { to } else { from },
                forall|k: int| lo <= k < x && k != from ==> (#[trigger] self.0[k]) is None,
            decreases hi + 1 - x,
        {
            if x != from && self.0[x].is_some() {
                return false;
            }
            x = x + 1;
        }
        true
    }

    /// The amphipods in the hallway that have a free walk to the cell above
    /// their room, with their cells, left to right.
    pub fn waiting(&self) -> (r: Vec<(Metapod, usize)>)
        ensures
            r@ == waiting_among(*self, 11),
    {
        let mut candidates: Vec<(Metapod, usize)> = Vec::new();
        let mut i: usize = 0;
        while i < 11
            invariant
                i <= 11,
                candidates@ == waiting_among(*self, i as int),
            decreases 11 - i,
        {
            if let Some(metapod) = self.0[i] {
                let desired_room = metapod.room();
                if self.is_clear(i, Hallway::room_pos(desired_room)) {
                    candidates.push((metapod, i));
                }
            }
            i = i + 1;
        }
        candidates
    }
}

/// A position of the burrow: the hallway, the four rooms left to right, the
/// energy spent to reach it, and the position it was reached from.
#[derive(Debug)]
pub struct State<const N: usize> {
    pub hallway: Hallway,
    pub rooms: [Room<N>; 4],
    pub cost: usize,
    pub prev: Option<Box<State<N>>>,
}

impl<const N: usize> State<N> {
    /// Every room is complete.
    pub open spec fn is_complete(&self) -> bool {
        forall|j: int| 0 <= j < 4 ==> (#[trigger] self.rooms[j]).is_complete()
    }

    /// Whether every room is complete.
    pub fn complete(&self) -> (r: bool)
        ensures
            r == self.is_complete(),
    {
        let mut j: usize = 0;
        while j < 4
            invariant
                j <= 4,
                forall|k: int| 0 <= k < j ==> (#[trigger] self.rooms[k]).is_complete(),
            decreases 4 - j,
        {
            if !self.rooms[j].complete() {
                return false;
            }
            j = j + 1;
        }
        true
    }

    /// A copy of this position and of every position before it.
    pub fn duplicate(&self) -> (r: State<N>)
        ensures
            r == *self,
        decreases self,
    {
        let prev = match &self.prev {
            Some(p) => Some(Box::new(p.duplicate())),
            None => None,
        };
        State { hallway: self.hallway, rooms: self.rooms, cost: self.cost, prev }
    }
}

/// The distance between two cells of a row.
pub open spec fn dist(a: int, b: int) -> int {
    if a > b {
        a - b
    } else {
        b - a
    }
}

/// A hallway cell an amphipod may stop in: any but those right above a room.
pub open spec fn may_stop(i: int) -> bool {
    !(1 < i < 9 && i % 2 == 0)
}

/// `room` with slot `i` set to `v`.
pub open spec fn with_slot<const N: usize>(room: Room<N>, i: int, v: Option<Metapod>) -> Room<N> {
    Room(room.0, spec_array_update(room.1, i, v))
}

impl<const N: usize> State<N> {
    /// The position after the amphipod in hallway cell `pos` walks into slot
    /// `x` of its room.
    pub open spec fn moved_in(self, m: Metapod, pos: int, x: int) -> State<N> {
        let room = m.room_of() as int;
        State {
            hallway: Hallway(spec_array_update(self.hallway.0, pos, None)),
            rooms: spec_array_update(self.rooms, room, with_slot(self.rooms[room], x, Some(m))),
            cost: (self.cost + (dist(room_cell(room), pos) + 1 + x) * m.energy()) as usize,
            prev: Some(Box::new(self)),
        }
    }

    /// The position after the amphipod in slot `from_slot` of room `j` walks
    /// straight into slot `to_slot` of its own room.
    pub open spec fn moved_across(self, j: int, from_slot: int, m: Metapod, to_slot: int) -> State<N> {
        let target = m.room_of() as int;
        let emptied = spec_array_update(self.rooms, j, with_slot(self.rooms[j], from_slot, None));
        State {
            hallway: self.hallway,
            rooms: spec_array_update(emptied, target, with_slot(emptied[target], to_slot, Some(m))),
            cost: (self.cost + (dist(target, j) * 2 + 1 + to_slot + from_slot + 1) * m.energy()) as usize,
            prev: Some(Box::new(self)),
        }
    }

    /// The position after the amphipod in slot `slot` of room `j` walks out
    /// to hallway cell `i`.
    pub open spec fn moved_out(self, j: int, slot: int, m: Metapod, i: int) -> State<N> {
        State {
            hallway: Hallway(spec_array_update(self.hallway.0, i, Some(m))),
            rooms: spec_array_update(self.rooms, j, with_slot(self.rooms[j], slot, None)),
            cost: (self.cost + (1 + slot + dist(i, room_cell(j))) * m.energy()) as usize,
            prev: Some(Box::new(self)),
        }
    }

    /// Going through the waiting amphipods `list` from entry `k` on, the
    /// first move of one into its room.
    pub open spec fn from_hallway(self, list: Seq<(Metapod, usize)>, k: int) -> Option<State<N>>
        decreases list.len() - k,
    {
        if k < 0 || k >= list.len() {
            None
        } else {
            let (m, pos) = list[k];
            match self.rooms[m.room_of() as int].accept_of(m) {
                Some(x) => Some(self.moved_in(m, pos as int, x as int)),
                None => self.from_hallway(list, k + 1),
            }
        }
    }

    /// Going through the rooms from room `j` on, the first move of a top
    /// amphipod straight into its own room along a free hallway.
    pub open spec fn from_rooms(self, j: int) -> Option<State<N>>
        decreases 4 - j,
    {
        if j < 0 || j >= 4 {
            None
        } else if self.rooms[j].is_complete() {
            self.from_rooms(j + 1)
        } else {
            match self.rooms[j].top_of() {
                None => self.from_rooms(j + 1),
                Some((slot, m)) => {
                    let target = m.room_of() as int;
                    if self.hallway.clear_between(room_cell(j), room_cell(target))
                        && self.rooms[target].accept_of(m) is Some {
                        Some(
                            self.moved_across(
                                j,
                                slot as int,
                                m,
                                self.rooms[target].accept_of(m)->0 as int,
                            ),
                        )
                    } else {
                        self.from_rooms(j + 1)
                    }
                },
            }
        }
    }

    /// The top amphipods of the first `j` rooms that are not complete, with
    /// their rooms and slots.
    pub open spec fn tops_upto(self, j: int) -> Seq<(usize, usize, Metapod)>
        decreases j,
    {
        if j <= 0 {
            Seq::empty()
        } else {
            let before = self.tops_upto(j - 1);
            let room = self.rooms[j - 1];
            if !room.is_complete() && room.top_of() is Some {
                let (slot, m) = room.top_of()->0;
                before.push(((j - 1) as usize, slot, m))
            } else {
                before
            }
        }
    }

    /// The moves out to the hallway of the amphipods in `tops`: all of those
    /// before entry `t`, and those of entry `t` to cells before `i`.
    pub open spec fn moves_out(self, tops: Seq<(usize, usize, Metapod)>, t: int, i: int) -> Seq<State<N>>
        decreases t, i,
    {
        if t <= 0 && i <= 0 {
            Seq::empty()
        } else if i > 0 {
            let before = self.moves_out(tops, t, i - 1);
            let (j, slot, m) = tops[t];
            if may_stop(i - 1) && self.hallway.clear_between(room_cell(j as int), i - 1) {
                before.push(self.moved_out(j as int, slot as int, m, i - 1))
            } else {
                before
            }
        } else {
            self.moves_out(tops, t - 1, 11)
        }
    }

    /// The positions one move away: a waiting amphipod walking into its
    /// room if one can, else a top amphipod walking straight into its own
    /// room if one can, else every walk of a top amphipod out to a hallway
    /// cell it may stop in.
    pub open spec fn successors(self) -> Seq<State<N>> {
        match self.from_hallway(waiting_among(self.hallway, 11), 0) {
            Some(st) => seq![st],
            None => match self.from_rooms(0) {
                Some(st) => seq![st],
                None => {
                    let tops = self.tops_upto(4);
                    self.moves_out(tops, tops.len() as int, 0)
                },
            },
        }
    }
}

fn distance(a: usize, b: usize) -> (r: usize)
    ensures
        r == dist(a as int, b as int),
{
    if a > b {
        a - b
    } else {
        b - a
    }
}

fn move_cost(steps: usize, m: Metapod) -> (r: usize)
    requires
        steps <= 2100,
    ensures
        r == steps * m.energy(),
        r <= 2100000,
{
    let per_step = m.step_cost();
    assert(steps * per_step <= 2100 * 1000) by (nonlinear_arith)
        requires
            steps <= 2100,
            per_step <= 1000,
    ;
    steps * per_step
}

impl<const N: usize> State<N> {
    fn move_in(&self, m: Metapod, pos: usize, x: usize) -> (r: State<N>)
        requires
            N <= 1000,
            self.cost <= usize::MAX - 3000000,
            pos < 11,
            x < N,
        ensures
            r == self.moved_in(m, pos as int, x as int),
    {
        let room = m.room();
        let mut new_state = self.duplicate();
        new_state.prev = Some(Box::new(self.duplicate()));
        new_state.hallway.0.set(pos, None);
        let mut target = new_state.rooms[room];
        target.1.set(x, Some(m));
        new_state.rooms.set(room, target);
        let steps = distance(Hallway::room_pos(room), pos) + 1 + x;
        new_state.cost = new_state.cost + move_cost(steps, m);
        proof {
            let spec_state = self.moved_in(m, pos as int, x as int);
            assert(new_state.hallway.0 =~= spec_state.hallway.0);
            assert(new_state.rooms[room as int].1 =~= spec_state.rooms[room as int].1);
            assert(new_state.rooms =~= spec_state.rooms);
        }
        new_state
    }

    fn move_across(&self, j: usize, slot: usize, m: Metapod, to_slot: usize) -> (r: State<N>)
        requires
            N <= 1000,
            self.cost <= usize::MAX - 3000000,
            j < 4,
            slot < N,
            to_slot < N,
        ensures
            r == self.moved_across(j as int, slot as int, m, to_slot as int),
    {
        let target_room = m.room();
        let mut new_state = self.duplicate();
        new_state.prev = Some(Box::new(self.duplicate()));
        let mut source = new_state.rooms[j];
        source.1.set(slot, None);
        new_state.rooms.set(j, source);
        let ghost emptied = new_state.rooms;
        let mut target = new_state.rooms[target_room];
        target.1.set(to_slot, Some(m));
        new_state.rooms.set(target_room, target);
        let steps = distance(target_room, j) * 2 + 1 + to_slot + slot + 1;
        new_state.cost = new_state.cost + move_cost(steps, m);
        proof {
            let spec_state = self.moved_across(j as int, slot as int, m, to_slot as int);
            let spec_emptied = spec_array_update(
                self.rooms,
                j as int,
                with_slot(self.rooms[j as int], slot as int, None),
            );
            assert(emptied[j as int].1 =~= spec_emptied[j as int].1);
            assert(emptied =~= spec_emptied);
            assert(new_state.rooms[target_room as int].1 =~= spec_state.rooms[target_room as int].1);
            assert(new_state.rooms =~= spec_state.rooms);
        }
        new_state
    }

    fn move_out(&self, j: usize, slot: usize, m: Metapod, i: usize) -> (r: State<N>)
        requires
            N <= 1000,
            self.cost <= usize::MAX - 3000000,
            j < 4,
            slot < N,
            i < 11,
        ensures
            r == self.moved_out(j as int, slot as int, m, i as int),
    {
        let mut new_state = self.duplicate();
        new_state.prev = Some(Box::new(self.duplicate()));
        let mut source = new_state.rooms[j];
        source.1.set(slot, None);
        new_state.rooms.set(j, source);
        new_state.hallway.0.set(i, Some(m));
        let steps = 1 + slot + distance(i, Hallway::room_pos(j));
        new_state.cost = new_state.cost + move_cost(steps, m);
        proof {
            let spec_state = self.moved_out(j as int, slot as int, m, i as int);
            assert(new_state.hallway.0 =~= spec_state.hallway.0);
            assert(new_state.rooms[j as int].1 =~= spec_state.rooms[j as int].1);
            assert(new_state.rooms =~= spec_state.rooms);
        }
        new_state
    }

    /// The positions one move away (see `successors`), each with the energy
    /// spent and this position as the one before.
    pub fn next_states(&self) -> (r: Vec<State<N>>)
        requires
            N <= 1000,
            self.cost <= usize::MAX - 3000000,
        ensures
            r@ == self.successors(),
    {
        let waiting = self.hallway.waiting();
        let ghost list = waiting@;
        let mut w: usize = 0;
        while w < waiting.len()
            invariant
                N <= 1000,
                self.cost <= usize::MAX - 3000000,
                list == waiting@,
                list == waiting_among(self.hallway, 11),
                w <= waiting.len(),
                self.from_hallway(list, 0) == self.from_hallway(list, w as int),
            decreases waiting.len() - w,
        {
            let (metapod, pos) = waiting[w];
            proof {
                lemma_waiting_cells(self.hallway, 11, w as int);
            }
            match self.rooms[metapod.room()].accept(metapod) {
                Some(x) => {
                    proof {
                        lemma_free_slot_in_range(
                            self.rooms[metapod.room_of() as int].1@,
                            metapod,
                            N as int,
                        );
                    }
                    return vec![self.move_in(metapod, pos, x)];
                },
                None => {},
            }
            w = w + 1;
        }
        let mut tops: Vec<(usize, usize, Metapod)> = Vec::new();
        let mut j: usize = 0;
        while j < 4
            invariant
                N <= 1000,
                self.cost <= usize::MAX - 3000000,
                self.from_hallway(waiting_among(self.hallway, 11), 0) is None,
                j <= 4,
                self.from_rooms(0) == self.from_rooms(j as int),
                tops@ == self.tops_upto(j as int),
            decreases 4 - j,
        {
            if !self.rooms[j].complete() {
                match self.rooms[j].top() {
                    Some((slot, metapod)) => {
                        proof {
                            lemma_first_occupied_in_range(self.rooms[j as int].1@, 0);
                        }
                        let target_room = metapod.room();
                        if self.hallway.is_clear(Hallway::room_pos(j), Hallway::room_pos(target_room)) {
                            match self.rooms[target_room].accept(metapod) {
                                Some(to_slot) => {
                                    proof {
                                        lemma_free_slot_in_range(
                                            self.rooms[target_room as int].1@,
                                            metapod,
                                            N as int,
                                        );
                                    }
                                    return vec![self.move_across(j, slot, metapod, to_slot)];
                                },
                                None => {},
                            }
                        }
                        tops.push((j, slot, metapod));
                    },
                    None => {},
                }
            }
            j = j + 1;
        }
        let mut next: Vec<State<N>> = Vec::new();
        let mut t: usize = 0;
        while t < tops.len()
            invariant
                N <= 1000,
                self.cost <= usize::MAX - 3000000,
                tops@ == self.tops_upto(4),
                t <= tops.len(),
                next@ == self.moves_out(tops@, t as int, 0),
            decreases tops.len() - t,
        {
            let (room_idx, slot, metapod) = tops[t];
            proof {
                lemma_tops_in_range(*self, 4, t as int);
            }
            let room_cell_pos = Hallway::room_pos(room_idx);
            let mut i: usize = 0;
            while i < 11
                invariant
                    N <= 1000,
                    self.cost <= usize::MAX - 3000000,
                    tops@ == self.tops_upto(4),
                    t < tops.len(),
                    tops@[t as int] == (room_idx, slot, metapod),
                    room_idx < 4,
                    slot < N,
                    room_cell_pos == room_cell(room_idx as int),
                    i <= 11,
                    next@ == self.moves_out(tops@, t as int, i as int),
                decreases 11 - i,
            {
                if !(i > 1 && i < 9 && i % 2 == 0) && self.hallway.is_clear(room_cell_pos, i) {
                    next.push(self.move_out(room_idx, slot, metapod, i));
                }
                i = i + 1;
            }
            t = t + 1;
        }
        next
    }
}

proof fn lemma_waiting_cells(h: Hallway, n: int, k: int)
    requires
        0 <= n <= 11,
        0 <= k < waiting_among(h, n).len(),
    ensures
        waiting_among(h, n)[k].1 < 11,
    decreases n,
{
    if n > 0 {
        let before = waiting_among(h, n - 1);
        if k < before.len() {
            lemma_waiting_cells(h, n - 1, k);
        }
    }
}

proof fn lemma_tops_in_range<const N: usize>(s: State<N>, j: int, t: int)
    requires
        0 <= j <= 4,
        0 <= t < s.tops_upto(j).len(),
    ensures
        s.tops_upto(j)[t].0 < 4,
        s.tops_upto(j)[t].1 < N,
    decreases j,
{
    if j > 0 {
        let before = s.tops_upto(j - 1);
        if t < before.len() {
            lemma_tops_in_range(s, j - 1, t);
        } else {
            lemma_first_occupied_in_range(s.rooms[j - 1].1@, 0);
        }
    }
}

/// What a map cell character stands for: '.' (46) an empty cell, 'A' to
/// 'D' (65 to 68) an amphipod; `None` for any other character.
pub open spec fn cell_of(c: u8) -> Option<Option<Metapod>> {
    if c == 46 {
        Some(None)
    } else if c == 65 {
        Some(Some(Metapod::AMBER))
    } else if c == 66 {
        Some(Some(Metapod::BRONZE))
    } else if c == 67 {
        Some(Some(Metapod::COPPER))
    } else if c == 68 {
        Some(Some(Metapod::DESERT))
    } else {
        None
    }
}

/// Where slot `i` of room `j` is written in a map: the first room row is 14
/// characters long and starts at 28, each later one is 12 long.
pub open spec fn slot_pos(i: int, j: int) -> int {
    if i == 0 {
        31 + 2 * j
    } else {
        45 + 12 * (i - 1) + 2 * j
    }
}

/// The length of a map with `n` room rows.
pub open spec fn map_len(n: int) -> int {
    42 + 12 * (n - 1)
}

/// The character a map must hold at position `p`, or `None` where a cell
/// goes: a line of 13 '#' (35), the hallway line `#...........#`, the first
/// room row `###A#B#C#D###`, later rows `  #A#B#C#D#` (32 is a space), each
/// line ended by a newline (10).
pub open spec fn frame_char(p: int) -> Option<u8> {
    if p < 13 {
        Some(35)
    } else if p == 13 || p == 27 || p == 41 {
        Some(10)
    } else if p == 14 || p == 26 {
        Some(35)
    } else if p < 26 {
        None
    } else if p < 42 {
        if p < 31 || p > 38 {
            Some(35)
        } else if (p - 31) % 2 == 0 {
            None
        } else {
            Some(35)
        }
    } else {
        let q = (p - 42) % 12;
        if q < 2 {
            Some(32)
        } else if q == 11 {
            Some(10)
        } else if q % 2 == 0 {
            Some(35)
        } else {
            None
        }
    }
}

impl<const N: usize> State<N> {
    /// The text of `s` is a map of the burrow with `N` room rows: every
    /// frame character in place and every cell character valid.
    pub open spec fn map_ok(s: Seq<u8>) -> bool {
        &&& s.len() >= map_len(N as int)
        &&& forall|p: int|
            0 <= p < map_len(N as int) ==> match #[trigger] frame_char(p) {
                Some(c) => s[p] == c,
                None => cell_of(s[p]) is Some,
            }
    }

    /// The position a valid map shows, with no energy spent.
    pub open spec fn map_shows(self, s: Seq<u8>) -> bool {
        &&& self.cost == 0
        &&& self.prev is None
        &&& forall|k: int| 0 <= k < 11 ==> Some(#[trigger] self.hallway.0[k]) == cell_of(s[15 + k])
        &&& self.rooms[0].0 == Metapod::AMBER
        &&& self.rooms[1].0 == Metapod::BRONZE
        &&& self.rooms[2].0 == Metapod::COPPER
        &&& self.rooms[3].0 == Metapod::DESERT
        &&& forall|j: int, i: int|
            0 <= j < 4 && 0 <= i < N ==> Some(#[trigger] self.rooms[j].1[i]) == cell_of(s[slot_pos(i, j)])
    }
}

fn read_cell(c: u8) -> (r: Option<Option<Metapod>>)
    ensures
        r == cell_of(c),
{
    if c == 46 {
        Some(None)
    } else if c == 65 {
        Some(Some(Metapod::AMBER))
    } else if c == 66 {
        Some(Some(Metapod::BRONZE))
    } else if c == 67 {
        Some(Some(Metapod::COPPER))
    } else if c == 68 {
        Some(Some(Metapod::DESERT))
    } else {
        None
    }
}

fn frame_at(p: usize) -> (r: Option<u8>)
    ensures
        r == frame_char(p as int),
{
    if p < 13 {
        Some(35)
    } else if p == 13 || p == 27 || p == 41 {
        Some(10)
    } else if p == 14 || p == 26 {
        Some(35)
    } else if p < 26 {
        None
    } else if p < 42 {
        if p < 31 || p > 38 {
            Some(35)
        } else if (p - 31) % 2 == 0 {
            None
        } else {
            Some(35)
        }
    } else {
        let q = (p - 42) % 12;
        if q < 2 {
            Some(32)
        } else if q == 11 {
            Some(10)
        } else if q % 2 == 0 {
            Some(35)
        } else {
            None
        }
    }
}

impl<const N: usize> State<N> {
    /// Reads a map of the burrow with `N` room rows; text after the last
    /// room row is ignored. `None` when the frame is broken or a cell holds
    /// another character than '.', 'A', 'B', 'C' or 'D'.
    pub fn parse(s: &[u8]) -> (r: Option<State<N>>)
        requires
            1 <= N <= 1000,
        ensures
            r is Some <==> Self::map_ok(s@),
            r matches Some(st) ==> st.map_shows(s@),
    {
        let needed: usize = 42 + 12 * (N - 1);
        if s.len() < needed {
            return None;
        }
        let mut p: usize = 0;
        while p < needed
            invariant
                1 <= N <= 1000,
                needed == map_len(N as int),
                s@.len() >= needed,
                p <= needed,
                forall|q: int|
                    0 <= q < p ==> match #[trigger] frame_char(q) {
                        Some(c) => s@[q] == c,
                        None => cell_of(s@[q]) is Some,
                    },
            decreases needed - p,
        {
            match frame_at(p) {
                Some(c) => {
                    if s[p] != c {
                        return None;
                    }
                },
                None => {
                    if read_cell(s[p]).is_none() {
                        return None;
                    }
                },
            }
            p = p + 1;
        }
        let mut cells: [Option<Metapod>; 11] = [None;11];
        let mut k: usize = 0;
        while k < 11
            invariant
                Self::map_ok(s@),
                1 <= N <= 1000,
                k <= 11,
                forall|q: int| 0 <= q < k ==> Some(#[trigger] cells[q]) == cell_of(s@[15 + q]),
            decreases 11 - k,
        {
            assert(frame_char(15 + k as int) is None);
            match read_cell(s[15 + k]) {
                Some(c) => {
                    cells.set(k, c);
                },
                None => {
                    return None;
                },
            }
            k = k + 1;
        }
        let kinds: [Metapod; 4] = [Metapod::AMBER, Metapod::BRONZE, Metapod::COPPER, Metapod::DESERT];
        let mut rooms: [Room<N>; 4] = [Room(Metapod::AMBER, [None;N]); 4];
        let mut j: usize = 0;
        while j < 4
            invariant
                Self::map_ok(s@),
                1 <= N <= 1000,
                j <= 4,
                kinds@ == seq![Metapod::AMBER, Metapod::BRONZE, Metapod::COPPER, Metapod::DESERT],
                forall|jj: int| 0 <= jj < j ==> (#[trigger] rooms[jj]).0 == kinds@[jj],
                forall|jj: int, i: int|
                    0 <= jj < j && 0 <= i < N ==> Some(#[trigger] rooms[jj].1[i]) == cell_of(
                        s@[slot_pos(i, jj)],
                    ),
            decreases 4 - j,
        {
            let mut slots: [Option<Metapod>; N] = [None;N];
            let mut i: usize = 0;
            while i < N
                invariant
                    Self::map_ok(s@),
                    1 <= N <= 1000,
                    j < 4,
                    i <= N,
                    forall|ii: int| 0 <= ii < i ==> Some(#[trigger] slots[ii]) == cell_of(
                        s@[slot_pos(ii, j as int)],
                    ),
                decreases N - i,
            {
                let pos = if i == 0 {
                    31 + 2 * j
                } else {
                    45 + 12 * (i - 1) + 2 * j
                };
                proof {
                    assert(pos == slot_pos(i as int, j as int));
                    assert(frame_char(pos as int) is None);
                }
                match read_cell(s[pos]) {
                    Some(c) => {
                        slots.set(i, c);
                    },
                    None => {
                        return None;
                    },
                }
                i = i + 1;
            }
            rooms.set(j, Room(kinds[j], slots));
            j = j + 1;
        }
        Some(State { hallway: Hallway(cells), rooms, cost: 0, prev: None })
    }
}

} // verus!
