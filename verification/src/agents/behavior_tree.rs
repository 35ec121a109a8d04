//! The behavior tree: a tree of sequences, selectors, conditions and actions
//! that is evaluated top-down once per tick.

use vstd::prelude::*;
use crate::agents::Agent;
use crate::agents::fsm::drained;
use crate::chance::draw_below;
use crate::engine::grid::Grid;
use crate::engine::position::Position;

verus! {

/// Status returned by behavior tree nodes.
#[derive(Debug, Clone, Copy, PartialEq, Eq, Structural)]
pub enum Status {
    Success,
    Failure,
    Running,
}

/// A condition that a tree can test. It reads the agent and the grid and
/// changes nothing.
#[derive(Debug, Clone, Copy, PartialEq, Eq, Structural)]
pub enum Predicate {
    /// The agent's energy is below fifty.
    IsHungry,
    /// Holds, or does not hold, whatever the agent and the grid are.
    Fixed(bool),
}

/// An action that a tree can take. It may change the agent.
#[derive(Debug, Clone, Copy, PartialEq, Eq, Structural)]
pub enum Behavior {
    /// Eat when on the goal; otherwise step to the neighbor nearest to it.
    MoveTowardsGoal,
    /// Step in a random direction.
    Wander,
    /// Do nothing and report the given status.
    Fixed(Status),
}

/// Behavior Tree node.
pub enum Node {
    /// Runs children in order; fails on first Failure, succeeds only if all
    /// children succeed.
    Sequence(Vec<Node>),
    /// Runs children in order; succeeds on first Success, fails only if all
    /// children fail.
    Selector(Vec<Node>),
    /// Condition that checks read-only agent/world state.
    Condition(Predicate),
    /// Action that can modify agent state.
    Action(Behavior),
}

/// What a tree can read and change of an agent.
pub struct BtView {
    pub pos: Position,
    pub energy: u32,
}

/// The energy after eating on the goal: twenty more, and never above one
/// hundred.
pub open spec fn fed(energy: u32) -> u32 {
    if energy + 20 <= 100 {
        (energy + 20) as u32
    } else {
        100
    }
}

/// The cell that a greedy step picks among the walkable neighbors, if any:
/// one that is strictly nearer to the goal than `current` is, and among those
/// the nearest; the first one found wins a tie.
pub open spec fn greedy_step(neighbors: Seq<Position>, goal: Position, current: nat) -> Option<
    Position,
>
    decreases neighbors.len(),
{
    if neighbors.len() == 0 {
        None
    } else {
        let earlier = greedy_step(neighbors.drop_last(), goal, current);
        let last = neighbors.last();
        if last.distance(goal) < current && (earlier matches Some(best) ==> last.distance(goal)
            < best.distance(goal)) {
            Some(last)
        } else {
            earlier
        }
    }
}

/// Whether `best` stands at index `i` of the neighbors and every neighbor
/// before it is farther from the goal.
pub open spec fn first_nearest(neighbors: Seq<Position>, goal: Position, best: Position, i: int)
    -> bool {
    &&& 0 <= i < neighbors.len()
    &&& neighbors[i] == best
    &&& forall|j: int|
        0 <= j < i ==> best.distance(goal) < (#[trigger] neighbors[j]).distance(goal)
}

/// The greedy step picks a neighbor that is strictly nearer to the goal than
/// the current cell, no neighbor is nearer than it, and every neighbor before
/// it is farther; it picks none only if no neighbor is nearer than the current
/// cell.
pub proof fn lemma_greedy_step(neighbors: Seq<Position>, goal: Position, current: nat)
    ensures
        match greedy_step(neighbors, goal, current) {
            Some(best) => {
                &&& best.distance(goal) < current
                &&& exists|i: int| first_nearest(neighbors, goal, best, i)
                &&& forall|j: int|
                    0 <= j < neighbors.len() ==> best.distance(goal) <= (
                    #[trigger] neighbors[j]).distance(goal)
            },
            None => forall|j: int|
                0 <= j < neighbors.len() ==> (#[trigger] neighbors[j]).distance(goal) >= current,
        },
    decreases neighbors.len(),
{
    if neighbors.len() > 0 {
        let front = neighbors.drop_last();
        let n = front.len() as int;
        lemma_greedy_step(front, goal, current);
        assert forall|j: int| 0 <= j < n implies front[j] == neighbors[j] by {}
        match greedy_step(neighbors, goal, current) {
            Some(best) => {
                if greedy_step(front, goal, current) == Some(best) && !(neighbors.last().distance(
                    goal,
                ) < current && neighbors.last().distance(goal) < best.distance(goal)) {
                    let i = choose|i: int| first_nearest(front, goal, best, i);
                    assert(first_nearest(neighbors, goal, best, i)) by {
                        assert forall|j: int| 0 <= j < i implies best.distance(goal) < (
                        #[trigger] neighbors[j]).distance(goal) by {
                            assert(front[j] == neighbors[j]);
                        }
                    }
                } else {
                    assert(first_nearest(neighbors, goal, best, n)) by {
                        assert forall|j: int| 0 <= j < n implies best.distance(goal) < (
                        #[trigger] neighbors[j]).distance(goal) by {
                            assert(front[j] == neighbors[j]);
                        }
                    }
                }
                assert forall|j: int| 0 <= j < neighbors.len() implies best.distance(goal) <= (
                #[trigger] neighbors[j]).distance(goal) by {
                    if j < n {
                        assert(front[j] == neighbors[j]);
                    }
                }
            },
            None => {
                assert forall|j: int| 0 <= j < neighbors.len() implies (
                #[trigger] neighbors[j]).distance(goal) >= current by {
                    if j < n {
                        assert(front[j] == neighbors[j]);
                    }
                }
            },
        }
    }
}

/// What the action `MoveTowardsGoal` does to an agent, and what it reports.
///
/// On the goal the agent eats: its energy rises by twenty, up to one hundred.
/// Elsewhere it takes the greedy step at the cost of one energy. Both succeed.
/// Where no neighbor is nearer to the goal, nothing changes and the action
/// fails.
pub open spec fn approach(pre: BtView, grid: &Grid) -> (BtView, Status) {
    if pre.pos == grid.goal() {
        (BtView { energy: fed(pre.energy), ..pre }, Status::Success)
    } else {
        match greedy_step(
            grid.open_neighbors(pre.pos.x as int, pre.pos.y as int),
            grid.goal(),
            pre.pos.distance(grid.goal()),
        ) {
            Some(next) => (BtView { pos: next, energy: drained(pre.energy) }, Status::Success),
            None => (pre, Status::Failure),
        }
    }
}

/// The cell `(x, y)` as a position if it is walkable, and nothing if not.
pub open spec fn open_at(grid: &Grid, x: int, y: int) -> Option<Position> {
    if grid.walkable(x, y) {
        Some(Position { x: x as usize, y: y as usize })
    } else {
        None
    }
}

/// Where a step in the direction `dir` leads from `pos`: to the walkable cell
/// to the left for 0, to the right for 1, above for 2 and below for 3, and
/// nowhere if that cell is not walkable or `dir` is no direction.
pub open spec fn heading(pos: Position, dir: int, grid: &Grid) -> Option<Position> {
    let x = pos.x as int;
    let y = pos.y as int;
    if dir == 0 {
        open_at(grid, x - 1, y)
    } else if dir == 1 {
        open_at(grid, x + 1, y)
    } else if dir == 2 {
        open_at(grid, x, y - 1)
    } else if dir == 3 {
        open_at(grid, x, y + 1)
    } else {
        None
    }
}

/// The number of directions that the action `Wander` tries at most.
pub const ATTEMPTS: usize = 8;

/// The draws that wandering looks at: the first eight, or all if there are
/// fewer.
pub open spec fn attempts(draws: Seq<u32>) -> Seq<u32> {
    if draws.len() > ATTEMPTS {
        draws.take(ATTEMPTS as int)
    } else {
        draws
    }
}

/// What wandering with the given direction draws does to an agent, and what it
/// reports: the first draw that leads to a walkable cell decides. The agent
/// moves there at the cost of one energy, and the action succeeds. If no draw
/// leads anywhere, nothing changes and the action fails.
pub open spec fn wandered(pre: BtView, grid: &Grid, draws: Seq<u32>) -> (BtView, Status)
    decreases draws.len(),
{
    if draws.len() == 0 {
        (pre, Status::Failure)
    } else {
        match heading(pre.pos, draws[0] as int, grid) {
            Some(next) => (BtView { pos: next, energy: drained(pre.energy) }, Status::Success),
            None => wandered(pre, grid, draws.drop_first()),
        }
    }
}

/// Whether the draws are those of one evaluation of `Wander`: eight of them,
/// each one of the four directions.
pub open spec fn fair_draws(draws: Seq<u32>) -> bool {
    &&& draws.len() == ATTEMPTS
    &&& forall|i: int| 0 <= i < draws.len() ==> #[trigger] draws[i] < 4
}

/// Whether the action `Wander` may lead from `pre` to `post` with the given
/// status: it does what wandering with some eight direction draws does.
pub open spec fn wander_allows(pre: BtView, grid: &Grid, post: BtView, status: Status) -> bool {
    exists|draws: Seq<u32>| #[trigger] fair_draws(draws) && (post, status) == wandered(pre, grid, draws)
}

/// Wandering succeeds exactly if one of the draws leads to a walkable cell.
/// It then ends where the first such draw leads, at one energy less. If it
/// fails, the agent is as it was.
pub proof fn lemma_wandered(pre: BtView, grid: &Grid, draws: Seq<u32>)
    ensures
        wandered(pre, grid, draws).1 != Status::Running,
        wandered(pre, grid, draws).1 == Status::Success <==> exists|i: int|
            0 <= i < draws.len() && #[trigger] heading(pre.pos, draws[i] as int, grid) is Some,
        wandered(pre, grid, draws).1 == Status::Success ==> exists|i: int|
            first_way(pre.pos, grid, draws, i) && wandered(pre, grid, draws).0 == (BtView {
                pos: heading(pre.pos, draws[i] as int, grid)->0,
                energy: drained(pre.energy),
            }),
        wandered(pre, grid, draws).1 == Status::Failure ==> wandered(pre, grid, draws).0 == pre,
    decreases draws.len(),
{
    if draws.len() > 0 {
        let rest = draws.drop_first();
        lemma_wandered(pre, grid, rest);
        assert forall|i: int| 0 <= i < rest.len() implies rest[i] == draws[i + 1] by {}
        if heading(pre.pos, draws[0] as int, grid) is Some {
            assert(first_way(pre.pos, grid, draws, 0));
        } else {
            if wandered(pre, grid, draws).1 == Status::Success {
                let i = choose|i: int|
                    first_way(pre.pos, grid, rest, i) && wandered(pre, grid, rest).0 == (BtView {
                        pos: heading(pre.pos, rest[i] as int, grid)->0,
                        energy: drained(pre.energy),
                    });
                assert(first_way(pre.pos, grid, draws, i + 1)) by {
                    assert forall|j: int| 0 <= j < i + 1 implies heading(
                        pre.pos,
                        #[trigger] draws[j] as int,
                        grid,
                    ) is None by {
                        if j > 0 {
                            assert(rest[j - 1] == draws[j]);
                        }
                    }
                }
                assert(heading(pre.pos, draws[i + 1] as int, grid) is Some);
            }
            if exists|i: int|
                0 <= i < draws.len() && #[trigger] heading(pre.pos, draws[i] as int, grid) is Some {
                let i = choose|i: int|
                    0 <= i < draws.len() && #[trigger] heading(pre.pos, draws[i] as int, grid)
                        is Some;
                assert(heading(pre.pos, rest[i - 1] as int, grid) is Some);
            }
        }
    }
}

/// Whether draw `i` is the first that leads to a walkable cell.
pub open spec fn first_way(pos: Position, grid: &Grid, draws: Seq<u32>, i: int) -> bool {
    &&& 0 <= i < draws.len()
    &&& heading(pos, draws[i] as int, grid) is Some
    &&& forall|j: int| 0 <= j < i ==> heading(pos, #[trigger] draws[j] as int, grid) is None
}

/// A direction leads to a walkable neighbor. So wandering succeeds only onto
/// a walkable neighbor, at one energy less; it can fail only with fewer than
/// four of them, and then changes nothing; and it never reports `Running`.
pub proof fn lemma_wander(pre: BtView, grid: &Grid, post: BtView, status: Status)
    requires
        grid.wf(),
        wander_allows(pre, grid, post, status),
    ensures
        status != Status::Running,
        status == Status::Success ==> grid.open_neighbors(
            pre.pos.x as int,
            pre.pos.y as int,
        ).contains(post.pos) && post.energy == drained(pre.energy),
        status == Status::Failure ==> post == pre && grid.open_neighbors(
            pre.pos.x as int,
            pre.pos.y as int,
        ).len() < 4,
{
    let x = pre.pos.x as int;
    let y = pre.pos.y as int;
    let around = grid.open_neighbors(x, y);
    let draws = choose|draws: Seq<u32>|
        #[trigger] fair_draws(draws) && (post, status) == wandered(pre, grid, draws);
    lemma_wandered(pre, grid, draws);
    assert(around.len() == grid.open_cell(x - 1, y).len() + grid.open_cell(x + 1, y).len()
        + grid.open_cell(x, y - 1).len() + grid.open_cell(x, y + 1).len());
    if status == Status::Success {
        let i = choose|i: int|
            first_way(pre.pos, grid, draws, i) && wandered(pre, grid, draws).0 == (BtView {
                pos: heading(pre.pos, draws[i] as int, grid)->0,
                energy: drained(pre.energy),
            });
        let dir = draws[i] as int;
        if dir == 0 {
            grid.lemma_walkable_in_bounds(x - 1, y);
        } else if dir == 1 {
            grid.lemma_walkable_in_bounds(x + 1, y);
        } else if dir == 2 {
            grid.lemma_walkable_in_bounds(x, y - 1);
        } else {
            grid.lemma_walkable_in_bounds(x, y + 1);
        }
        grid.lemma_open_neighbors(x, y, post.pos);
    } else {
        assert(draws[0] < 4);
        assert(heading(pre.pos, draws[0] as int, grid) is None);
    }
}

/// Whether the condition holds of the agent.
pub open spec fn holds(predicate: Predicate, agent: BtView) -> bool {
    match predicate {
        Predicate::IsHungry => agent.energy < 50,
        Predicate::Fixed(value) => value,
    }
}

/// Names the agent `mid` as it stands when child `k` of a node is reached.
/// It holds of every pair, and serves to point at one.
pub open spec fn stage(k: nat, mid: BtView) -> bool {
    true
}

/// Whether the first `k` children, evaluated in order from `pre`, may all
/// report `pass` and leave the agent as `post`.
pub open spec fn passed(
    children: Seq<Node>,
    k: nat,
    pass: Status,
    pre: BtView,
    grid: &Grid,
    post: BtView,
) -> bool
    decreases children, k,
{
    if k == 0 {
        post == pre
    } else if k > children.len() {
        false
    } else {
        exists|mid: BtView|
            #[trigger] stage(k, mid) && passed(children, (k - 1) as nat, pass, pre, grid, mid)
                && outcome(children[k - 1], mid, grid, post, pass)
    }
}

/// Whether child `k` is reached with the agent as `mid`, all children before
/// it having reported `pass`, and then ends the evaluation by reporting
/// `status`, which is not `pass`, with the agent as `post`.
pub open spec fn halted(
    children: Seq<Node>,
    k: nat,
    pass: Status,
    pre: BtView,
    grid: &Grid,
    mid: BtView,
    post: BtView,
    status: Status,
) -> bool
    decreases children, k + 1,
{
    &&& k < children.len()
    &&& status != pass
    &&& passed(children, k, pass, pre, grid, mid)
    &&& outcome(children[k as int], mid, grid, post, status)
}

/// Whether evaluating the children in order may lead from `pre` to `post`
/// with the given status, where a child that reports `pass` hands over to the
/// next, and any other status ends the evaluation and is the result. When all
/// children report `pass`, so does the whole.
pub open spec fn chain(
    children: Seq<Node>,
    pass: Status,
    pre: BtView,
    grid: &Grid,
    post: BtView,
    status: Status,
) -> bool
    decreases children, children.len() + 2,
{
    ||| status == pass && passed(children, children.len(), pass, pre, grid, post)
    ||| exists|k: nat, mid: BtView|
        #[trigger] stage(k, mid) && k < children.len() && halted(
            children,
            k,
            pass,
            pre,
            grid,
            mid,
            post,
            status,
        )
}

/// Whether one evaluation of the node may lead the agent from `pre` to `post`
/// and report `status`.
///
/// A sequence hands over to the next child on `Success`, a selector on
/// `Failure`. A condition reports whether it holds and changes nothing. An
/// action does what its kind says.
pub open spec fn outcome(node: Node, pre: BtView, grid: &Grid, post: BtView, status: Status)
    -> bool
    decreases node, 0nat,
{
    match node {
        Node::Sequence(children) => chain(children@, Status::Success, pre, grid, post, status),
        Node::Selector(children) => chain(children@, Status::Failure, pre, grid, post, status),
        Node::Condition(predicate) => post == pre && status == if holds(predicate, pre) {
            Status::Success
        } else {
            Status::Failure
        },
        Node::Action(behavior) => match behavior {
            Behavior::MoveTowardsGoal => (post, status) == approach(pre, grid),
            Behavior::Wander => wander_allows(pre, grid, post, status),
            Behavior::Fixed(fixed) => post == pre && status == fixed,
        },
    }
}

/// Whether the tree is the default policy: a selector over the sequence
/// "if hungry, move toward the goal" and the action "wander".
pub open spec fn is_default_policy(node: Node) -> bool {
    &&& node matches Node::Selector(options)
    &&& options@.len() == 2
    &&& options@[0] matches Node::Sequence(steps)
    &&& steps@.len() == 2
    &&& steps@[0] == Node::Condition(Predicate::IsHungry)
    &&& steps@[1] == Node::Action(Behavior::MoveTowardsGoal)
    &&& options@[1] == Node::Action(Behavior::Wander)
}

/// Simple behavior-tree driven agent: a position on the grid, an energy
/// level, and a fixed tree.
pub struct BehaviorTreeAgent {
    pos: Position,
    energy: u32,
    root: Node,
}

impl View for BehaviorTreeAgent {
    type V = BtView;

    closed spec fn view(&self) -> BtView {
        BtView { pos: self.pos, energy: self.energy }
    }
}

/// Manhattan distance between two positions.
fn manhattan(a: Position, b: Position) -> (d: u128)
    ensures
        d == a.distance(b),
{
    let dx = if a.x > b.x {
        a.x - b.x
    } else {
        b.x - a.x
    };
    let dy = if a.y > b.y {
        a.y - b.y
    } else {
        b.y - a.y
    };
    dx as u128 + dy as u128
}

/// Whether the agent's energy is below fifty.
fn is_hungry(agent: &BehaviorTreeAgent, _grid: &Grid) -> (hungry: bool)
    ensures
        hungry == holds(Predicate::IsHungry, agent@),
{
    agent.energy < 50
}

/// Move greedily toward the goal, consuming a small amount of energy.
fn move_towards_goal(agent: &mut BehaviorTreeAgent, grid: &Grid) -> (status: Status)
    ensures
        (final(agent)@, status) == approach(old(agent)@, grid),
        final(agent).tree() == old(agent).tree(),
{
    proof {
        use_type_invariant(&*agent);
    }
    if agent.pos == grid.goal() {
        // "Eat": recover energy when at the goal cell.
        agent.energy = if agent.energy + 20 < 100 {
            agent.energy + 20
        } else {
            100
        };
        return Status::Success;
    }
    let current = agent.pos;
    let goal = grid.goal();
    let current_h = manhattan(current, goal);
    let candidates = grid.neighbors(current.x, current.y);

    let mut best: Option<(Position, u128)> = None;
    let mut k: usize = 0;
    while k < candidates.len()
        invariant
            k <= candidates@.len(),
            current_h == current.distance(goal),
            match best {
                Some((cell, h)) => greedy_step(candidates@.take(k as int), goal, current_h as nat)
                    == Some(cell) && h == cell.distance(goal),
                None => greedy_step(candidates@.take(k as int), goal, current_h as nat) is None,
            },
        decreases candidates@.len() - k,
    {
        let cand = candidates[k];
        let h = manhattan(cand, goal);
        proof {
            assert(candidates@.take(k + 1).drop_last() =~= candidates@.take(k as int));
        }
        if h < current_h {
            match best {
                Some((_, best_h)) => {
                    if h < best_h {
                        best = Some((cand, h));
                    }
                },
                None => {
                    best = Some((cand, h));
                },
            }
        }
        k += 1;
    }
    proof {
        assert(candidates@.take(candidates@.len() as int) =~= candidates@);
    }
    match best {
        Some((next, _)) => {
            agent.pos = next;
            if agent.energy > 0 {
                agent.energy -= 1;
            }
            Status::Success
        },
        // No improving move found.
        None => Status::Failure,
    }
}

/// Where a step in the direction `dir` leads from `pos`: to the walkable cell
/// to the left for 0, to the right for 1, above for 2 and below for 3, and
/// nowhere if that cell is not walkable or `dir` is no direction.
pub fn step_toward(pos: Position, dir: u32, grid: &Grid) -> (target: Option<Position>)
    ensures
        target == heading(pos, dir as int, grid),
{
    proof {
        use_type_invariant(grid);
        grid.lemma_wf();
        let x = pos.x as int;
        let y = pos.y as int;
        if grid.walkable(x - 1, y) {
            grid.lemma_walkable_in_bounds(x - 1, y);
        }
        if grid.walkable(x + 1, y) {
            grid.lemma_walkable_in_bounds(x + 1, y);
        }
        if grid.walkable(x, y - 1) {
            grid.lemma_walkable_in_bounds(x, y - 1);
        }
        if grid.walkable(x, y + 1) {
            grid.lemma_walkable_in_bounds(x, y + 1);
        }
    }
    let mut next = pos;
    if dir == 0 && next.x > 0 {
        next.x -= 1;
    } else if dir == 1 && next.x < usize::MAX {
        next.x += 1;
    } else if dir == 2 && next.y > 0 {
        next.y -= 1;
    } else if dir == 3 && next.y < usize::MAX {
        next.y += 1;
    } else {
        return None;
    }
    if grid.is_walkable(next.x, next.y) {
        Some(next)
    } else {
        None
    }
}

/// Wanders with the given direction draws, of which it looks at the first
/// eight: the first draw that leads to a walkable cell decides. The agent
/// moves there at the cost of one energy, and the action succeeds. If none of
/// them leads anywhere, nothing changes and the action fails.
pub fn wander_with(agent: &mut BehaviorTreeAgent, grid: &Grid, draws: &[u32]) -> (status: Status)
    ensures
        (final(agent)@, status) == wandered(old(agent)@, grid, attempts(draws@)),
        final(agent).tree() == old(agent).tree(),
{
    proof {
        use_type_invariant(&*agent);
    }
    let here = agent.pos;
    let tries = if draws.len() > ATTEMPTS {
        ATTEMPTS
    } else {
        draws.len()
    };
    let ghost looked = attempts(draws@);
    let mut i: usize = 0;
    proof {
        assert(looked.subrange(0, tries as int) =~= looked);
    }
    while i < tries
        invariant
            i <= tries,
            tries == looked.len(),
            looked == attempts(draws@),
            tries <= draws@.len(),
            agent.wf(),
            *agent == *old(agent),
            here == agent@.pos,
            wandered(old(agent)@, grid, looked) == wandered(
                old(agent)@,
                grid,
                looked.subrange(i as int, tries as int),
            ),
        decreases tries - i,
    {
        proof {
            let rest = looked.subrange(i as int, tries as int);
            assert(rest[0] == draws@[i as int]);
            assert(rest.drop_first() =~= looked.subrange(i + 1, tries as int));
        }
        match step_toward(here, draws[i], grid) {
            Some(next) => {
                agent.pos = next;
                if agent.energy > 0 {
                    agent.energy -= 1;
                }
                return Status::Success;
            },
            None => {},
        }
        i += 1;
    }
    Status::Failure
}

/// Wander randomly, consuming a bit of energy: draws eight directions, and
/// wanders with them.
fn wander(agent: &mut BehaviorTreeAgent, grid: &Grid) -> (status: Status)
    ensures
        wander_allows(old(agent)@, grid, final(agent)@, status),
        final(agent).tree() == old(agent).tree(),
{
    let mut draws: Vec<u32> = Vec::new();
    while draws.len() < ATTEMPTS
        invariant
            draws@.len() <= ATTEMPTS,
            forall|i: int| 0 <= i < draws@.len() ==> #[trigger] draws@[i] < 4,
        decreases ATTEMPTS - draws@.len(),
    {
        let dir = draw_below(4);
        draws.push(dir);
    }
    let status = wander_with(agent, grid, draws.as_slice());
    proof {
        assert(fair_draws(draws@));
    }
    status
}

/// Evaluates the children in order. A child that reports `pass` hands over to
/// the next; any other status ends the evaluation and is returned.
fn tick_children(children: &Vec<Node>, pass: Status, agent: &mut BehaviorTreeAgent, grid: &Grid)
    -> (status: Status)
    ensures
        chain(children@, pass, old(agent)@, grid, final(agent)@, status),
        final(agent).tree() == old(agent).tree(),
    decreases children,
{
    let ghost pre = agent@;
    let mut i: usize = 0;
    while i < children.len()
        invariant
            i <= children@.len(),
            passed(children@, i as nat, pass, pre, grid, agent@),
            agent.tree() == old(agent).tree(),
            pre == old(agent)@,
        decreases children@.len() - i,
    {
        let ghost mid = agent@;
        let status = children[i].tick(agent, grid);
        if status != pass {
            proof {
                assert(stage(i as nat, mid));
            }
            return status;
        }
        proof {
            assert(stage((i + 1) as nat, mid));
        }
        i += 1;
    }
    pass
}

impl Node {
    /// Evaluates the node once for the agent on the grid.
    pub fn tick(&self, agent: &mut BehaviorTreeAgent, grid: &Grid) -> (status: Status)
        ensures
            outcome(*self, old(agent)@, grid, final(agent)@, status),
            final(agent).tree() == old(agent).tree(),
        decreases self,
    {
        match self {
            Node::Sequence(children) => tick_children(children, Status::Success, agent, grid),
            Node::Selector(children) => tick_children(children, Status::Failure, agent, grid),
            Node::Condition(predicate) => {
                let holds = match predicate {
                    Predicate::IsHungry => is_hungry(agent, grid),
                    Predicate::Fixed(value) => *value,
                };
                if holds {
                    Status::Success
                } else {
                    Status::Failure
                }
            },
            Node::Action(behavior) => match behavior {
                Behavior::MoveTowardsGoal => move_towards_goal(agent, grid),
                Behavior::Wander => wander(agent, grid),
                Behavior::Fixed(status) => *status,
            },
        }
    }
}

/// The default policy: a selector over the sequence "if hungry, move toward
/// the goal" and the action "wander".
fn default_policy() -> (node: Node)
    ensures
        is_default_policy(node),
{
    Node::Selector(
        vec![
            Node::Sequence(
                vec![Node::Condition(Predicate::IsHungry), Node::Action(Behavior::MoveTowardsGoal)],
            ),
            Node::Action(Behavior::Wander),
        ],
    )
}

impl BehaviorTreeAgent {
    /// Validity of an agent: its energy is at most one hundred, and its tree
    /// is the default policy.
    #[verifier::type_invariant]
    pub closed spec fn wf(&self) -> bool {
        self.energy <= 100 && is_default_policy(self.root)
    }

    /// The agent's tree.
    pub closed spec fn tree(&self) -> Node {
        self.root
    }

    /// Validity in terms of the view and the tree.
    pub proof fn lemma_wf(&self)
        requires
            self.wf(),
        ensures
            self@.energy <= 100,
            is_default_policy(self.tree()),
    {
    }

    /// An agent at the given cell, with full energy and the default policy:
    /// move toward the goal when hungry, wander otherwise.
    pub fn new(start_x: usize, start_y: usize) -> (agent: BehaviorTreeAgent)
        ensures
            agent.wf(),
            agent@ == (BtView { pos: Position { x: start_x, y: start_y }, energy: 100 }),
            is_default_policy(agent.tree()),
    {
        let root = default_policy();
        BehaviorTreeAgent { pos: Position { x: start_x, y: start_y }, energy: 100, root }
    }

    /// Where the agent stands.
    pub fn position(&self) -> (pos: Position)
        ensures
            pos == self@.pos,
    {
        self.pos
    }

    /// The energy, between 0 and 100.
    pub fn energy(&self) -> (energy: u32)
        ensures
            energy == self@.energy,
            energy <= 100,
    {
        proof {
            use_type_invariant(self);
        }
        self.energy
    }

    /// Advance the behavior tree by one tick: the agent's tree, which is the
    /// default policy, is evaluated once. The agent moves by one step to a
    /// walkable cell or not at all.
    pub fn update(&mut self, grid: &Grid)
        ensures
            final(self).wf(),
            final(self).tree() == old(self).tree(),
            is_default_policy(final(self).tree()),
            outcome(old(self).tree(), old(self)@, grid, final(self)@, Status::Success) || outcome(
                old(self).tree(),
                old(self)@,
                grid,
                final(self)@,
                Status::Failure,
            ),
            final(self)@.pos == old(self)@.pos || (old(self)@.pos.touches(final(self)@.pos)
                && grid.passable(final(self)@.pos)),
    {
        proof {
            use_type_invariant(&*self);
            use_type_invariant(grid);
        }
        // The tree is taken out of the agent while it is evaluated, so that
        // its actions can borrow the agent; a spare one stands in for it.
        let mut root = default_policy();
        std::mem::swap(&mut root, &mut self.root);
        let ghost before = self@;
        let status = root.tick(self, grid);
        proof {
            use_type_invariant(&*self);
            assert(outcome(root, before, grid, self@, status));
            lemma_default_policy(root, before, grid, self@, status);
            lemma_default_policy_step(root, before, grid, self@, status);
            if !(before.energy < 50 && approach(before, grid).1 == Status::Success) {
                lemma_wander(before, grid, self@, status);
            }
        }
        std::mem::swap(&mut root, &mut self.root);
    }
}

impl Agent for BehaviorTreeAgent {
    open spec fn spec_position(&self) -> Position {
        self@.pos
    }

    open spec fn spec_is_stuck(&self) -> bool {
        false
    }

    open spec fn spec_energy(&self) -> Option<u32> {
        Some(self@.energy)
    }

    open spec fn spec_noise_triggered(&self) -> bool {
        false
    }

    open spec fn spec_planning_radius(&self) -> Option<usize> {
        None
    }

    /// A behavior tree has no decision noise: the flag is not looked at.
    fn update(&mut self, grid: &Grid, noise_fired: bool)
        ensures
            final(self).tree() == old(self).tree(),
            outcome(old(self).tree(), old(self)@, grid, final(self)@, Status::Success) || outcome(
                old(self).tree(),
                old(self)@,
                grid,
                final(self)@,
                Status::Failure,
            ),
    {
        self.update(grid);
    }

    fn position(&self) -> (pos: Position) {
        self.pos
    }

    fn name(&self) -> (name: &'static str)
        ensures
            name@ == "BehaviorTree"@,
    {
        "BehaviorTree"
    }

    fn is_stuck(&self) -> (stuck: bool) {
        false
    }

    fn energy(&self) -> (energy: Option<u32>) {
        proof {
            use_type_invariant(self);
        }
        Some(self.energy)
    }

    /// A behavior tree has no single state to name.
    fn debug_state(&self) -> (text: String)
        ensures
            text@ == "Running"@,
    {
        "Running".to_string()
    }

    fn did_noise_trigger(&self) -> (fired: bool) {
        false
    }

    fn planning_radius(&self) -> (radius: Option<usize>) {
        None
    }
}

/// Children that all passed include the first: it may report `pass`.
proof fn lemma_passed_first(
    children: Seq<Node>,
    k: nat,
    pass: Status,
    pre: BtView,
    grid: &Grid,
    post: BtView,
) -> (mid: BtView)
    requires
        k >= 1,
        passed(children, k, pass, pre, grid, post),
    ensures
        children.len() > 0,
        outcome(children[0], pre, grid, mid, pass),
    decreases k,
{
    let m = choose|m: BtView|
        #[trigger] stage(k, m) && passed(children, (k - 1) as nat, pass, pre, grid, m) && outcome(
            children[k - 1],
            m,
            grid,
            post,
            pass,
        );
    if k == 1 {
        post
    } else {
        lemma_passed_first(children, (k - 1) as nat, pass, pre, grid, m)
    }
}

/// Where the first child cannot report `pass`, the evaluation of the children
/// is the evaluation of the first child: its status is the result, the agent is
/// as the first child left it, and no later child is evaluated.
pub proof fn lemma_chain_stops_at_first(
    children: Seq<Node>,
    pass: Status,
    pre: BtView,
    grid: &Grid,
    post: BtView,
    status: Status,
)
    requires
        children.len() > 0,
        forall|after: BtView| !outcome(children[0], pre, grid, after, pass),
        chain(children, pass, pre, grid, post, status),
    ensures
        status != pass,
        outcome(children[0], pre, grid, post, status),
{
    if status == pass && passed(children, children.len(), pass, pre, grid, post) {
        let mid = lemma_passed_first(children, children.len(), pass, pre, grid, post);
        assert(outcome(children[0], pre, grid, mid, pass));
    } else {
        let (k, mid) = choose|k: nat, mid: BtView|
            #[trigger] stage(k, mid) && k < children.len() && halted(
                children,
                k,
                pass,
                pre,
                grid,
                mid,
                post,
                status,
            );
        if k > 0 {
            let first = lemma_passed_first(children, k, pass, pre, grid, mid);
            assert(outcome(children[0], pre, grid, first, pass));
        }
    }
}

/// A sequence whose first child fails returns `Failure` and evaluates no later
/// child: the agent is as the first child left it.
pub proof fn lemma_sequence_fails_fast(
    children: Vec<Node>,
    pre: BtView,
    grid: &Grid,
    post: BtView,
    status: Status,
)
    requires
        children@.len() > 0,
        forall|after: BtView, other: Status|
            outcome(children@[0], pre, grid, after, other) ==> other == Status::Failure,
        outcome(Node::Sequence(children), pre, grid, post, status),
    ensures
        status == Status::Failure,
        outcome(children@[0], pre, grid, post, Status::Failure),
{
    lemma_chain_stops_at_first(children@, Status::Success, pre, grid, post, status);
}

/// A selector whose first child succeeds returns `Success` and evaluates no
/// later child: the agent is as the first child left it.
pub proof fn lemma_selector_succeeds_fast(
    children: Vec<Node>,
    pre: BtView,
    grid: &Grid,
    post: BtView,
    status: Status,
)
    requires
        children@.len() > 0,
        forall|after: BtView, other: Status|
            outcome(children@[0], pre, grid, after, other) ==> other == Status::Success,
        outcome(Node::Selector(children), pre, grid, post, status),
    ensures
        status == Status::Success,
        outcome(children@[0], pre, grid, post, Status::Success),
{
    lemma_chain_stops_at_first(children@, Status::Failure, pre, grid, post, status);
}

/// An evaluation keeps the energy between 0 and 100.
pub proof fn lemma_outcome_energy(node: Node, pre: BtView, grid: &Grid, post: BtView, status: Status)
    requires
        pre.energy <= 100,
        outcome(node, pre, grid, post, status),
    ensures
        post.energy <= 100,
    decreases node, 0nat,
{
    match node {
        Node::Sequence(children) => {
            lemma_chain_energy(children@, Status::Success, pre, grid, post, status);
        },
        Node::Selector(children) => {
            lemma_chain_energy(children@, Status::Failure, pre, grid, post, status);
        },
        Node::Condition(_) => {},
        Node::Action(behavior) => {
            if behavior == Behavior::Wander {
                let draws = choose|draws: Seq<u32>|
                    #[trigger] fair_draws(draws) && (post, status) == wandered(pre, grid, draws);
                lemma_wandered(pre, grid, draws);
            }
        },
    }
}

/// Children that passed keep the energy between 0 and 100.
proof fn lemma_passed_energy(
    children: Seq<Node>,
    k: nat,
    pass: Status,
    pre: BtView,
    grid: &Grid,
    post: BtView,
)
    requires
        pre.energy <= 100,
        passed(children, k, pass, pre, grid, post),
    ensures
        post.energy <= 100,
    decreases children, k,
{
    if k > 0 {
        let m = choose|m: BtView|
            #[trigger] stage(k, m) && passed(children, (k - 1) as nat, pass, pre, grid, m)
                && outcome(children[k - 1], m, grid, post, pass);
        lemma_passed_energy(children, (k - 1) as nat, pass, pre, grid, m);
        lemma_outcome_energy(children[k - 1], m, grid, post, pass);
    }
}

/// The evaluation of children keeps the energy between 0 and 100.
proof fn lemma_chain_energy(
    children: Seq<Node>,
    pass: Status,
    pre: BtView,
    grid: &Grid,
    post: BtView,
    status: Status,
)
    requires
        pre.energy <= 100,
        chain(children, pass, pre, grid, post, status),
    ensures
        post.energy <= 100,
    decreases children, children.len() + 2,
{
    if status == pass && passed(children, children.len(), pass, pre, grid, post) {
        lemma_passed_energy(children, children.len(), pass, pre, grid, post);
    } else {
        let (k, mid) = choose|k: nat, mid: BtView|
            #[trigger] stage(k, mid) && k < children.len() && halted(
                children,
                k,
                pass,
                pre,
                grid,
                mid,
                post,
                status,
            );
        lemma_passed_energy(children, k, pass, pre, grid, mid);
        lemma_outcome_energy(children[k as int], mid, grid, post, status);
    }
}

/// What a sequence of the condition "is hungry" and the action "move toward
/// the goal" comes to: a hungry agent makes the move, and the sequence reports
/// what the move reports; an agent that is not hungry stays as it is, and the
/// sequence fails.
proof fn lemma_hungry_sequence(
    steps: Seq<Node>,
    pre: BtView,
    grid: &Grid,
    post: BtView,
    status: Status,
)
    requires
        steps.len() == 2,
        steps[0] == Node::Condition(Predicate::IsHungry),
        steps[1] == Node::Action(Behavior::MoveTowardsGoal),
        chain(steps, Status::Success, pre, grid, post, status),
    ensures
        pre.energy < 50 ==> (post, status) == approach(pre, grid),
        pre.energy >= 50 ==> post == pre && status == Status::Failure,
{
    let pass = Status::Success;
    if status == pass && passed(steps, 2, pass, pre, grid, post) {
        let one = choose|one: BtView|
            #[trigger] stage(2, one) && passed(steps, 1, pass, pre, grid, one) && outcome(
                steps[1],
                one,
                grid,
                post,
                pass,
            );
        let zero = choose|zero: BtView|
            #[trigger] stage(1, zero) && passed(steps, 0, pass, pre, grid, zero) && outcome(
                steps[0],
                zero,
                grid,
                one,
                pass,
            );
        assert(zero == pre && one == pre);
    } else {
        let (k, mid) = choose|k: nat, mid: BtView|
            #[trigger] stage(k, mid) && k < steps.len() && halted(
                steps,
                k,
                pass,
                pre,
                grid,
                mid,
                post,
                status,
            );
        if k == 1 {
            let zero = choose|zero: BtView|
                #[trigger] stage(1, zero) && passed(steps, 0, pass, pre, grid, zero) && outcome(
                    steps[0],
                    zero,
                    grid,
                    mid,
                    pass,
                );
            assert(zero == pre && mid == pre);
        } else {
            assert(mid == pre);
        }
    }
}

/// What the default policy comes to. A hungry agent moves toward the goal,
/// or eats on it, and the tick succeeds. An agent that is not hungry, and a
/// hungry one that no move brings nearer to the goal, wanders.
pub proof fn lemma_default_policy(
    node: Node,
    pre: BtView,
    grid: &Grid,
    post: BtView,
    status: Status,
)
    requires
        is_default_policy(node),
        outcome(node, pre, grid, post, status),
    ensures
        if pre.energy < 50 && approach(pre, grid).1 == Status::Success {
            (post, status) == approach(pre, grid)
        } else {
            wander_allows(pre, grid, post, status)
        },
{
    let options = node->Selector_0@;
    let steps = options[0]->Sequence_0@;
    let pass = Status::Failure;
    assert(chain(options, pass, pre, grid, post, status));
    if status == pass && passed(options, 2, pass, pre, grid, post) {
        let one = choose|one: BtView|
            #[trigger] stage(2, one) && passed(options, 1, pass, pre, grid, one) && outcome(
                options[1],
                one,
                grid,
                post,
                pass,
            );
        let zero = choose|zero: BtView|
            #[trigger] stage(1, zero) && passed(options, 0, pass, pre, grid, zero) && outcome(
                options[0],
                zero,
                grid,
                one,
                pass,
            );
        assert(zero == pre);
        assert(chain(steps, Status::Success, pre, grid, one, pass));
        lemma_hungry_sequence(steps, pre, grid, one, pass);
        assert(one == pre);
    } else {
        let (k, mid) = choose|k: nat, mid: BtView|
            #[trigger] stage(k, mid) && k < options.len() && halted(
                options,
                k,
                pass,
                pre,
                grid,
                mid,
                post,
                status,
            );
        if k == 0 {
            assert(mid == pre);
            assert(chain(steps, Status::Success, pre, grid, post, status));
            lemma_hungry_sequence(steps, pre, grid, post, status);
        } else {
            let zero = choose|zero: BtView|
                #[trigger] stage(1, zero) && passed(options, 0, pass, pre, grid, zero) && outcome(
                    options[0],
                    zero,
                    grid,
                    mid,
                    pass,
                );
            assert(zero == pre);
            assert(chain(steps, Status::Success, pre, grid, mid, pass));
            lemma_hungry_sequence(steps, pre, grid, mid, pass);
            assert(mid == pre);
        }
    }
}

/// Under the default policy a tick moves the agent by one step to a walkable
/// cell or not at all, and keeps its energy between 0 and 100.
pub proof fn lemma_default_policy_step(
    node: Node,
    pre: BtView,
    grid: &Grid,
    post: BtView,
    status: Status,
)
    requires
        grid.wf(),
        pre.energy <= 100,
        is_default_policy(node),
        outcome(node, pre, grid, post, status),
    ensures
        post.energy <= 100,
        post.pos == pre.pos || (pre.pos.touches(post.pos) && grid.passable(post.pos)),
{
    lemma_default_policy(node, pre, grid, post, status);
    lemma_outcome_energy(node, pre, grid, post, status);
    let neighbors = grid.open_neighbors(pre.pos.x as int, pre.pos.y as int);
    if post.pos != pre.pos {
        if pre.energy < 50 && approach(pre, grid).1 == Status::Success {
            lemma_greedy_step(neighbors, grid.goal(), pre.pos.distance(grid.goal()));
        } else {
            lemma_wander(pre, grid, post, status);
        }
        grid.lemma_open_neighbors(pre.pos.x as int, pre.pos.y as int, post.pos);
    }
}

} // verus!
