//! The orb puzzle: a 4×4 grid of numbers and operators. The orb starts at
//! the bottom-left square with weight 0 and a pending `+`; each square it
//! enters either applies the pending operator to a number or sets the next
//! operator. The vault door at the top-right square opens if the orb arrives
//! there with the target weight. A breadth-first search finds such a walk.
use std::collections::{HashSet, VecDeque};

use vstd::prelude::*;
use vstd::set_lib::{lemma_int_range, lemma_len_subset, set_int_range};

verus! {

/// One square of the grid.
#[derive(Clone, Copy, Debug, PartialEq, Eq, Structural)]
pub enum Square {
    Num(i32),
    Add,
    Sub,
    Mult,
}

/// A move of the orb. `y` grows downwards: row 0 is the top row.
#[derive(Clone, Copy, Debug, PartialEq, Eq, Structural)]
pub enum Direction {
    Up,
    Down,
    Left,
    Right,
}

impl Direction {
    /// The word the guest expects for this move.
    pub fn label(&self) -> (r: &'static str)
        ensures
            r@ == direction_label(*self),
    {
        match self {
            Direction::Up => "up",
            Direction::Down => "down",
            Direction::Left => "left",
            Direction::Right => "right",
        }
    }
}

pub open spec fn direction_label(d: Direction) -> Seq<char> {
    match d {
        Direction::Up => "up"@,
        Direction::Down => "down"@,
        Direction::Left => "left"@,
        Direction::Right => "right"@,
    }
}

/// The grid, by column `x` and row `y`.
pub open spec fn grid(x: int, y: int) -> Square {
    if y == 0 {
        if x == 0 {
            Square::Mult
        } else if x == 1 {
            Square::Num(8)
        } else if x == 2 {
            Square::Sub
        } else {
            Square::Num(1)
        }
    } else if y == 1 {
        if x == 0 {
            Square::Num(4)
        } else if x == 1 {
            Square::Mult
        } else if x == 2 {
            Square::Num(11)
        } else {
            Square::Mult
        }
    } else if y == 2 {
        if x == 0 {
            Square::Add
        } else if x == 1 {
            Square::Num(4)
        } else if x == 2 {
            Square::Sub
        } else {
            Square::Num(18)
        }
    } else {
        if x == 0 {
            Square::Num(22)
        } else if x == 1 {
            Square::Sub
        } else if x == 2 {
            Square::Num(9)
        } else {
            Square::Mult
        }
    }
}

fn square_at(x: usize, y: usize) -> (r: Square)
    requires
        x < 4,
        y < 4,
    ensures
        r == grid(x as int, y as int),
{
    let rows: [[Square; 4]; 4] = [
        [Square::Mult, Square::Num(8), Square::Sub, Square::Num(1)],
        [Square::Num(4), Square::Mult, Square::Num(11), Square::Mult],
        [Square::Add, Square::Num(4), Square::Sub, Square::Num(18)],
        [Square::Num(22), Square::Sub, Square::Num(9), Square::Mult],
    ];
    rows[y][x]
}

/// The orb before it enters the square at `(x, y)`.
pub struct Orb {
    pub x: int,
    pub y: int,
    pub weight: int,
    pub pending: Option<Square>,
}

pub open spec fn start() -> Orb {
    Orb { x: 0, y: 3, weight: 0, pending: Some(Square::Add) }
}

pub open spec fn is_goal(x: int, y: int) -> bool {
    x == 3 && y == 0
}

pub open spec fn fits_i32(v: int) -> bool {
    i32::MIN <= v <= i32::MAX
}

/// Entering a square: a number takes the pending operator, an operator
/// becomes pending. Any other combination, or a weight that leaves the
/// 32-bit range, is a dead end.
pub open spec fn enter(sq: Square, weight: int, pending: Option<Square>) -> Option<
    (int, Option<Square>),
> {
    let next = match (sq, pending) {
        (Square::Num(n), Some(Square::Add)) => Some((weight + n, None)),
        (Square::Num(n), Some(Square::Sub)) => Some((weight - n, None)),
        (Square::Num(n), Some(Square::Mult)) => Some((weight * n, None)),
        (Square::Num(_), _) => None,
        (op, None) => Some((weight, Some(op))),
        (_, Some(_)) => None,
    };
    match next {
        Some((w, p)) => if fits_i32(w) {
            Some((w, p))
        } else {
            None
        },
        None => None,
    }
}

/// The moves allowed from `(x, y)`: inside the grid, never left along the
/// bottom row, never down in the leftmost column (the orb may not come back
/// to its start).
pub open spec fn allowed(x: int, y: int, d: Direction) -> bool {
    match d {
        Direction::Left => x > 0 && y != 3,
        Direction::Right => x < 3,
        Direction::Up => y > 0,
        Direction::Down => y < 3 && x != 0,
    }
}

pub open spec fn moved(x: int, y: int, d: Direction) -> (int, int) {
    match d {
        Direction::Left => (x - 1, y),
        Direction::Right => (x + 1, y),
        Direction::Up => (x, y - 1),
        Direction::Down => (x, y + 1),
    }
}

/// The orb enters its square and then makes move `d`; the goal square ends
/// every walk.
pub open spec fn advance(s: Orb, d: Direction) -> Option<Orb> {
    if is_goal(s.x, s.y) || !allowed(s.x, s.y, d) {
        None
    } else {
        match enter(grid(s.x, s.y), s.weight, s.pending) {
            Some((w, p)) => Some(
                Orb { x: moved(s.x, s.y, d).0, y: moved(s.x, s.y, d).1, weight: w, pending: p },
            ),
            None => None,
        }
    }
}

/// Where a sequence of moves from the start leads, if every step is legal.
pub open spec fn walk(path: Seq<Direction>) -> Option<Orb>
    decreases path.len(),
{
    if path.len() == 0 {
        Some(start())
    } else {
        match walk(path.drop_last()) {
            Some(s) => advance(s, path.last()),
            None => None,
        }
    }
}

/// The orb, entering the goal square, arrives with weight `target`.
pub open spec fn ends_at(o: Orb, target: int) -> bool {
    is_goal(o.x, o.y) && match enter(grid(o.x, o.y), o.weight, o.pending) {
        Some((w, _)) => w == target,
        None => false,
    }
}

/// `path` is a legal walk from the start that enters the goal square with
/// weight `target`.
pub open spec fn solves(path: Seq<Direction>, target: int) -> bool {
    match walk(path) {
        Some(s) => ends_at(s, target),
        None => false,
    }
}

/// The orbs a walk can produce: on the grid, with a 32-bit weight and no
/// number pending.
pub open spec fn normal(o: Orb) -> bool {
    &&& 0 <= o.x < 4
    &&& 0 <= o.y < 4
    &&& fits_i32(o.weight)
    &&& !(o.pending matches Some(Square::Num(_)))
}

pub open spec fn pending_code(p: Option<Square>) -> int {
    match p {
        None => 0,
        Some(Square::Add) => 1,
        Some(Square::Sub) => 2,
        Some(Square::Mult) => 3,
        Some(Square::Num(_)) => 4,
    }
}

/// The number under which the search records an orb as examined; distinct
/// normal orbs have distinct keys, all below `KEY_BOUND`.
pub open spec fn key_of(o: Orb) -> int {
    (o.weight + 0x8000_0000) * 256 + o.x * 64 + o.y * 16 + pending_code(o.pending)
}

pub const KEY_BOUND: u64 = 0x100_0000_0000;

proof fn lemma_walk_normal(path: Seq<Direction>)
    ensures
        walk(path) matches Some(s) ==> normal(s),
    decreases path.len(),
{
    if path.len() > 0 {
        lemma_walk_normal(path.drop_last());
    }
}

proof fn lemma_split_digit(a: int, r: int, b: int, t: int, base: int)
    requires
        0 <= r < base,
        0 <= t < base,
        a * base + r == b * base + t,
    ensures
        a == b,
        r == t,
{
    assert(a == b) by (nonlinear_arith)
        requires
            0 <= r < base,
            0 <= t < base,
            a * base + r == b * base + t,
    ;
}

proof fn lemma_key_injective(a: Orb, b: Orb)
    requires
        normal(a),
        normal(b),
        key_of(a) == key_of(b),
    ensures
        a == b,
{
    let ra = a.x * 64 + a.y * 16 + pending_code(a.pending);
    let rb = b.x * 64 + b.y * 16 + pending_code(b.pending);
    lemma_split_digit(a.weight + 0x8000_0000, ra, b.weight + 0x8000_0000, rb, 256);
    lemma_split_digit(a.x, a.y * 16 + pending_code(a.pending), b.x, b.y * 16 + pending_code(b.pending), 64);
    lemma_split_digit(a.y, pending_code(a.pending), b.y, pending_code(b.pending), 16);
}

proof fn lemma_key_range(o: Orb)
    requires
        normal(o),
    ensures
        0 <= key_of(o) < KEY_BOUND,
{
}

/// A state of the search: the orb before it enters `(x, y)`, and the moves
/// that brought it there.
struct Entry {
    x: usize,
    y: usize,
    weight: i32,
    pending: Option<Square>,
    path: Vec<Direction>,
}

spec fn orb_of(e: Entry) -> Orb {
    Orb { x: e.x as int, y: e.y as int, weight: e.weight as int, pending: e.pending }
}

spec fn entry_holds(e: Entry) -> bool {
    &&& e.x < 4
    &&& e.y < 4
    &&& walk(e.path@) == Some(orb_of(e))
}

spec fn in_queue(q: Seq<Entry>, o: Orb) -> bool {
    exists|i: int| 0 <= i < q.len() && orb_of(#[trigger] q[i]) == o
}

/// Every examined orb had its successors examined or queued.
spec fn closed(seen: Set<int>, q: Seq<Entry>) -> bool {
    forall|o: Orb, d: Direction|
        normal(o) && #[trigger] seen.contains(key_of(o)) ==> match #[trigger] advance(o, d) {
            Some(s) => seen.contains(key_of(s)) || in_queue(q, s),
            None => true,
        }
}

proof fn lemma_in_queue_pop(q: Seq<Entry>, o: Orb)
    requires
        q.len() > 0,
        in_queue(q, o),
    ensures
        o == orb_of(q[0]) || in_queue(q.drop_first(), o),
{
    let i = choose|i: int| 0 <= i < q.len() && orb_of(#[trigger] q[i]) == o;
    if i > 0 {
        assert(q.drop_first()[i - 1] == q[i]);
    }
}

proof fn lemma_in_queue_grow(q1: Seq<Entry>, q2: Seq<Entry>, o: Orb)
    requires
        q1.len() <= q2.len(),
        forall|i: int| 0 <= i < q1.len() ==> q2[i] == q1[i],
        in_queue(q1, o),
    ensures
        in_queue(q2, o),
{
    let i = choose|i: int| 0 <= i < q1.len() && orb_of(#[trigger] q1[i]) == o;
    assert(q2[i] == q1[i]);
}

/// With nothing left to examine, every orb a walk reaches was examined.
proof fn lemma_all_reached_seen(seen: Set<int>, q: Seq<Entry>, path: Seq<Direction>)
    requires
        q.len() == 0,
        closed(seen, q),
        seen.contains(key_of(start())),
    ensures
        walk(path) matches Some(s) ==> seen.contains(key_of(s)),
    decreases path.len(),
{
    if path.len() > 0 {
        let prev = path.drop_last();
        lemma_all_reached_seen(seen, q, prev);
        lemma_walk_normal(prev);
        if let Some(o) = walk(prev) {
            if let Some(s) = advance(o, path.last()) {
                assert(seen.contains(key_of(o)));
                assert(!in_queue(q, s));
            }
        }
    }
}

/// The queue is ordered by path length, all within one of the first.
spec fn layered(q: Seq<Entry>, level: int) -> bool {
    &&& forall|i: int, j: int|
        0 <= i <= j < q.len() ==> (#[trigger] q[i]).path@.len() <= (#[trigger] q[j]).path@.len()
    &&& forall|i: int|
        0 <= i < q.len() ==> level <= (#[trigger] q[i]).path@.len() <= level + 1
    &&& q.len() > 0 ==> q[0].path@.len() == level
}

spec fn queued_within(q: Seq<Entry>, o: Orb, n: int) -> bool {
    exists|i: int| 0 <= i < q.len() && orb_of(#[trigger] q[i]) == o && q[i].path@.len() <= n
}

/// Every orb that a walk of at most `level` moves reaches was examined, or
/// waits in the queue with a walk no longer.
spec fn level_covered(seen: Set<int>, q: Seq<Entry>, level: int) -> bool {
    forall|p: Seq<Direction>|
        p.len() <= level ==> match #[trigger] walk(p) {
            Some(o) => seen.contains(key_of(o)) || queued_within(q, o, p.len() as int),
            None => true,
        }
}

/// One round of the search keeps the queue layered and the levels covered:
/// the head was taken and examined, and successors were appended one move
/// longer.
proof fn lemma_next_level(
    before: Seq<Entry>,
    after: Seq<Entry>,
    old_seen: Set<int>,
    seen: Set<int>,
    level: int,
)
    requires
        before.len() > 0,
        layered(before, level),
        level_covered(old_seen, before, level),
        seen == old_seen.insert(key_of(orb_of(before[0]))),
        before.len() - 1 <= after.len(),
        forall|i: int| 0 <= i < before.len() - 1 ==> after[i] == before[i + 1],
        forall|i: int|
            before.len() - 1 <= i < after.len() ==> (#[trigger] after[i]).path@.len() == level + 1,
        closed(seen, after),
    ensures
        after.len() > 0 ==> layered(after, after[0].path@.len() as int) && level_covered(
            seen,
            after,
            after[0].path@.len() as int,
        ),
{
    if after.len() > 0 {
        let next = after[0].path@.len() as int;
        assert forall|i: int| 0 <= i < after.len() implies level <= (#[trigger] after[i]).path@.len()
            <= level + 1 by {
            if i < before.len() - 1 {
                assert(after[i] == before[i + 1]);
            }
        }
        assert forall|i: int, j: int| 0 <= i <= j < after.len() implies (#[trigger] after[i]).path@.len()
            <= (#[trigger] after[j]).path@.len() by {
            if j < before.len() - 1 {
                assert(after[i] == before[i + 1]);
                assert(after[j] == before[j + 1]);
            }
        }
        assert(layered(after, next));
        assert forall|p: Seq<Direction>| p.len() <= next implies match #[trigger] walk(p) {
            Some(o) => seen.contains(key_of(o)) || queued_within(after, o, p.len() as int),
            None => true,
        } by {
            if p.len() <= level {
                lemma_covered_shift(before, after, old_seen, seen, level, p);
            } else {
                let q = p.drop_last();
                lemma_covered_shift(before, after, old_seen, seen, level, q);
                lemma_walk_normal(q);
                if let Some(o1) = walk(q) {
                    if queued_within(after, o1, q.len() as int) {
                        let i = choose|i: int|
                            0 <= i < after.len() && orb_of(#[trigger] after[i]) == o1
                                && after[i].path@.len() <= q.len();
                        assert(after[0].path@.len() <= after[i].path@.len());
                    }
                    if let Some(o) = advance(o1, p.last()) {
                        if !seen.contains(key_of(o)) {
                            let i = choose|i: int| 0 <= i < after.len() && orb_of(#[trigger] after[i]) == o;
                            assert(queued_within(after, o, p.len() as int));
                        }
                    }
                }
            }
        }
    }
}

proof fn lemma_covered_shift(
    before: Seq<Entry>,
    after: Seq<Entry>,
    old_seen: Set<int>,
    seen: Set<int>,
    level: int,
    p: Seq<Direction>,
)
    requires
        before.len() > 0,
        level_covered(old_seen, before, level),
        seen == old_seen.insert(key_of(orb_of(before[0]))),
        before.len() - 1 <= after.len(),
        forall|i: int| 0 <= i < before.len() - 1 ==> after[i] == before[i + 1],
        p.len() <= level,
    ensures
        match walk(p) {
            Some(o) => seen.contains(key_of(o)) || queued_within(after, o, p.len() as int),
            None => true,
        },
{
    if let Some(o) = walk(p) {
        if !old_seen.contains(key_of(o)) {
            let i = choose|i: int|
                0 <= i < before.len() && orb_of(#[trigger] before[i]) == o && before[i].path@.len()
                    <= p.len();
            if i > 0 {
                assert(after[i - 1] == before[i]);
            }
        }
    }
}

fn enter_square(sq: Square, weight: i32, pending: Option<Square>) -> (r: Option<(i32, Option<Square>)>)
    ensures
        match enter(sq, weight as int, pending) {
            Some((w, p)) => r == Some((w as i32, p)) && w == w as i32,
            None => r is None,
        },
{
    match (sq, pending) {
        (Square::Num(n), Some(Square::Add)) => match weight.checked_add(n) {
            Some(w) => Some((w, None)),
            None => None,
        },
        (Square::Num(n), Some(Square::Sub)) => match weight.checked_sub(n) {
            Some(w) => Some((w, None)),
            None => None,
        },
        (Square::Num(n), Some(Square::Mult)) => match weight.checked_mul(n) {
            Some(w) => Some((w, None)),
            None => None,
        },
        (Square::Num(_), _) => None,
        (op, None) => Some((weight, Some(op))),
        (_, Some(_)) => None,
    }
}

fn extended(path: &Vec<Direction>, d: Direction) -> (r: Vec<Direction>)
    ensures
        r@ == path@.push(d),
{
    let mut r: Vec<Direction> = Vec::new();
    let mut i: usize = 0;
    while i < path.len()
        invariant
            i <= path@.len(),
            r@ == path@.subrange(0, i as int),
        decreases path@.len() - i,
    {
        r.push(path[i]);
        i += 1;
    }
    r.push(d);
    assert(r@ =~= path@.push(d));
    r
}

fn seen_key(e: &Entry) -> (r: u64)
    requires
        entry_holds(*e),
        normal(orb_of(*e)),
    ensures
        r as int == key_of(orb_of(*e)),
{
    let op: u64 = match e.pending {
        None => 0,
        Some(Square::Add) => 1,
        Some(Square::Sub) => 2,
        Some(Square::Mult) => 3,
        Some(Square::Num(_)) => 4,
    };
    ((e.weight as i64 + 0x8000_0000) as u64) * 256 + e.x as u64 * 64 + e.y as u64 * 16 + op
}

/// Searches breadth first for a walk from the start that enters the goal
/// with weight `target`, examining each orb (square, weight, pending
/// operator) once. Returns a shortest such walk, or None exactly when there
/// is none.
pub fn find_path(target: i32) -> (r: Option<Vec<Direction>>)
    ensures
        match r {
            Some(p) => solves(p@, target as int) && forall|q: Seq<Direction>|
                solves(q, target as int) ==> p@.len() <= q.len(),
            None => forall|p: Seq<Direction>| !solves(p, target as int),
        },
{
    broadcast use vstd::std_specs::hash::group_hash_axioms;

    let mut visited: HashSet<u64> = HashSet::new();
    let ghost mut seen: Set<int> = Set::empty();
    let mut queue: VecDeque<Entry> = VecDeque::new();
    queue.push_back(Entry { x: 0, y: 3, weight: 0, pending: Some(Square::Add), path: Vec::new() });
    assert(orb_of(queue@[0]) == start());
    let ghost mut level: int = 0;
    proof {
        lemma_int_range(0, KEY_BOUND as int);
        assert forall|p: Seq<Direction>| p.len() <= level implies match #[trigger] walk(p) {
            Some(o) => seen.contains(key_of(o)) || queued_within(queue@, o, p.len() as int),
            None => true,
        } by {
            assert(walk(p) == Some(start()));
            assert(orb_of(queue@[0]) == start() && queue@[0].path@.len() <= p.len());
        }
    }
    while queue.len() > 0
        invariant
            forall|i: int| 0 <= i < queue@.len() ==> entry_holds(#[trigger] queue@[i]),
            forall|k: u64| visited@.contains(k) <==> seen.contains(k as int),
            forall|k: int| seen.contains(k) ==> 0 <= k < KEY_BOUND,
            set_int_range(0, KEY_BOUND as int).finite(),
            set_int_range(0, KEY_BOUND as int).len() == KEY_BOUND,
            closed(seen, queue@),
            forall|o: Orb| normal(o) && #[trigger] seen.contains(key_of(o)) ==> !ends_at(o, target as int),
            seen.contains(key_of(start())) || in_queue(queue@, start()),
            queue@.len() > 0 ==> layered(queue@, level) && level_covered(seen, queue@, level),
        decreases KEY_BOUND - seen.len(), queue@.len(),
    {
        let ghost seen0 = seen;
        proof {
            assert(seen.subset_of(set_int_range(0, KEY_BOUND as int)));
            lemma_len_subset(seen, set_int_range(0, KEY_BOUND as int));
        }
        let ghost before = queue@;
        let e = match queue.pop_front() {
            Some(e) => e,
            None => return None,
        };
        let ghost o = orb_of(e);
        assert(entry_holds(e));
        proof {
            lemma_walk_normal(e.path@);
            lemma_key_range(o);
            assert forall|s: Orb| in_queue(before, s) implies s == o || in_queue(queue@, s) by {
                lemma_in_queue_pop(before, s);
            }
        }
        let ghost popped = queue@;
        assert(e == before[0]);
        assert forall|i: int| 0 <= i < before.len() - 1 implies popped[i] == before[i + 1] by {}
        let key = seen_key(&e);
        if visited.contains(&key) {
            proof {
                assert(seen =~= seen0.insert(key_of(o)));
                lemma_next_level(before, queue@, seen0, seen, level);
                if queue@.len() > 0 {
                    level = queue@[0].path@.len() as int;
                }
            }
            continue;
        }
        visited.insert(key);
        let ghost old_seen = seen;
        proof {
            seen = seen.insert(key as int);
            assert(seen.subset_of(set_int_range(0, KEY_BOUND as int)));
            lemma_len_subset(seen, set_int_range(0, KEY_BOUND as int));
            assert forall|o2: Orb| normal(o2) && seen.contains(key_of(o2)) && !old_seen.contains(
                key_of(o2),
            ) implies o2 == o by {
                lemma_key_injective(o2, o);
            }
        }
        let (weight, pending) = match enter_square(square_at(e.x, e.y), e.weight, e.pending) {
            Some(next) => next,
            None => {
                assert(closed(seen, queue@));
                proof {
                    lemma_next_level(before, queue@, seen0, seen, level);
                    if queue@.len() > 0 {
                        level = queue@[0].path@.len() as int;
                    }
                }
                continue;
            },
        };
        if e.x == 3 && e.y == 0 {
            if weight == target {
                proof {
                    assert(solves(e.path@, target as int));
                    assert forall|q: Seq<Direction>| solves(q, target as int) implies e.path@.len()
                        <= q.len() by {
                        lemma_walk_normal(q);
                        if q.len() < e.path@.len() {
                            if let Some(o2) = walk(q) {
                                if !seen0.contains(key_of(o2)) {
                                    let i = choose|i: int|
                                        0 <= i < before.len() && orb_of(#[trigger] before[i]) == o2
                                            && before[i].path@.len() <= q.len();
                                }
                            }
                        }
                    }
                }
                return Some(e.path);
            } else {
                assert(closed(seen, queue@));
                proof {
                    lemma_next_level(before, queue@, seen0, seen, level);
                    if queue@.len() > 0 {
                        level = queue@[0].path@.len() as int;
                    }
                }
                continue;
            }
        }
        let dirs: [Direction; 4] = [
            Direction::Left,
            Direction::Right,
            Direction::Up,
            Direction::Down,
        ];
        let mut k: usize = 0;
        while k < 4
            invariant
                k <= 4,
                dirs@ == seq![Direction::Left, Direction::Right, Direction::Up, Direction::Down],
                entry_holds(e),
                o == orb_of(e),
                !is_goal(o.x, o.y),
                enter(grid(o.x, o.y), o.weight, o.pending) == Some((weight as int, pending)),
                forall|i: int| 0 <= i < queue@.len() ==> entry_holds(#[trigger] queue@[i]),
                popped.len() <= queue@.len(),
                forall|i: int| 0 <= i < popped.len() ==> queue@[i] == popped[i],
                e.path@.len() == level,
                forall|i: int|
                    popped.len() <= i < queue@.len() ==> (#[trigger] queue@[i]).path@.len() == level
                        + 1,
                forall|j: int|
                    0 <= j < k ==> match advance(o, #[trigger] dirs@[j]) {
                        Some(s) => in_queue(queue@, s),
                        None => true,
                    },
            decreases 4 - k,
        {
            let d = dirs[k];
            let ok = match d {
                Direction::Left => e.x > 0 && e.y != 3,
                Direction::Right => e.x < 3,
                Direction::Up => e.y > 0,
                Direction::Down => e.y < 3 && e.x != 0,
            };
            let ghost q0 = queue@;
            if ok {
                let (nx, ny) = match d {
                    Direction::Left => (e.x - 1, e.y),
                    Direction::Right => (e.x + 1, e.y),
                    Direction::Up => (e.x, e.y - 1),
                    Direction::Down => (e.x, e.y + 1),
                };
                let next = Entry { x: nx, y: ny, weight, pending, path: extended(&e.path, d) };
                assert(next.path@.drop_last() =~= e.path@);
                assert(entry_holds(next));
                queue.push_back(next);
                assert(orb_of(queue@[queue@.len() - 1]) == orb_of(next));
                assert forall|i: int| 0 <= i < queue@.len() implies entry_holds(
                    #[trigger] queue@[i],
                ) by {
                    if i < q0.len() {
                        assert(queue@[i] == q0[i]);
                    }
                }
                assert forall|i: int| popped.len() <= i < queue@.len() implies (
                #[trigger] queue@[i]).path@.len() == level + 1 by {
                    if i < q0.len() {
                        assert(queue@[i] == q0[i]);
                    }
                }
            }
            assert forall|j: int| 0 <= j <= k implies match advance(o, #[trigger] dirs@[j]) {
                Some(s) => in_queue(queue@, s),
                None => true,
            } by {
                if let Some(s) = advance(o, dirs@[j]) {
                    if j < k {
                        lemma_in_queue_grow(q0, queue@, s);
                    }
                }
            }
            k += 1;
        }
        proof {
            assert forall|d: Direction| match #[trigger] advance(o, d) {
                Some(s) => in_queue(queue@, s),
                None => true,
            } by {
                let j: int = match d {
                    Direction::Left => 0,
                    Direction::Right => 1,
                    Direction::Up => 2,
                    Direction::Down => 3,
                };
                assert(dirs@[j] == d);
            }
            assert forall|s: Orb| in_queue(popped, s) implies in_queue(queue@, s) by {
                lemma_in_queue_grow(popped, queue@, s);
            }
        }
        assert(closed(seen, queue@));
        proof {
            assert forall|i: int| 0 <= i < before.len() - 1 implies queue@[i] == before[i + 1] by {
                assert(queue@[i] == popped[i]);
            }
            lemma_next_level(before, queue@, seen0, seen, level);
            if queue@.len() > 0 {
                level = queue@[0].path@.len() as int;
            }
        }
    }
    proof {
        assert forall|p: Seq<Direction>| !solves(p, target as int) by {
            lemma_all_reached_seen(seen, queue@, p);
            lemma_walk_normal(p);
        }
    }
    None
}

} // verus!
