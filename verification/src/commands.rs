use vstd::prelude::*;

use std::collections::VecDeque;

use crate::entity::Entity;
use crate::path_following::FollowPath;

verus! {

/// An order to attack `target` until it is destroyed.
#[derive(Clone, Copy, Debug, PartialEq, Eq, Structural)]
pub struct AttackOrder {
    pub target: Entity,
}

impl From<Entity> for AttackOrder {
    fn from(value: Entity) -> (order: Self) {
        Self { target: value }
    }
}

impl vstd::std_specs::convert::FromSpecImpl<Entity> for AttackOrder {
    open spec fn obeys_from_spec() -> bool {
        true
    }

    open spec fn from_spec(v: Entity) -> Self {
        AttackOrder { target: v }
    }
}

/// Something an entity has been told to do.
pub enum EntityCommand<P> {
    /// Walk along a path.
    GoTo(FollowPath<P>),
    /// Attack a target.
    Attack(AttackOrder),
}

/// The command is a walk along `path` that has not started yet.
pub open spec fn is_walk_along<P>(c: EntityCommand<P>, path: Seq<P>) -> bool {
    c matches EntityCommand::GoTo(f) && f.waypoints() == path && f.reached() == 0
}

/// Some command of `cs` is an attack.
pub open spec fn has_attack<P>(cs: Seq<EntityCommand<P>>) -> bool {
    exists|i: int| 0 <= i < cs.len() && #[trigger] cs[i] is Attack
}

/// A queue has an attack exactly when one of its commands, wherever it
/// stands, is an attack.
pub proof fn lemma_has_attack_exists<P>(cs: Seq<EntityCommand<P>>)
    ensures
        has_attack(cs) <==> (exists|i: int| 0 <= i < cs.len() && #[trigger] cs[i] is Attack),
{
}

/// Queuing a further command never hides an attack already queued, and
/// queuing an attack always gives an attack; taking the first command leaves
/// an attack when one was queued after it.
pub proof fn lemma_has_attack_queueing<P>(cs: Seq<EntityCommand<P>>, c: EntityCommand<P>)
    ensures
        has_attack(cs) ==> has_attack(cs.push(c)),
        c is Attack ==> has_attack(cs.push(c)),
        !(c is Attack) ==> (has_attack(cs.push(c)) <==> has_attack(cs)),
        has_attack(seq![c] + cs) <==> (c is Attack || has_attack(cs)),
{
    lemma_has_attack_exists(cs);
    lemma_has_attack_exists(cs.push(c));
    lemma_has_attack_exists(seq![c] + cs);
    if has_attack(cs) {
        let i = choose|i: int| 0 <= i < cs.len() && #[trigger] cs[i] is Attack;
        assert(cs.push(c)[i] is Attack);
        assert((seq![c] + cs)[i + 1] is Attack);
    }
    if c is Attack {
        assert(cs.push(c)[cs.len() as int] is Attack);
        assert((seq![c] + cs)[0] is Attack);
    }
    if has_attack(cs.push(c)) && !(c is Attack) {
        let i = choose|i: int| 0 <= i < cs.len() + 1 && #[trigger] cs.push(c)[i] is Attack;
        assert(i < cs.len());
        assert(cs[i] is Attack);
    }
    if has_attack(seq![c] + cs) && !(c is Attack) {
        let i = choose|i: int| 0 <= i < cs.len() + 1 && #[trigger] (seq![c] + cs)[i] is Attack;
        assert(i > 0);
        assert(cs[i - 1] is Attack);
    }
}

/// The commands an entity will carry out, first one first.
pub struct CommandQueue<P>(pub VecDeque<EntityCommand<P>>);

impl<P> CommandQueue<P> {
    /// The queued commands, in the order in which they will be carried out.
    pub open spec fn commands(&self) -> Seq<EntityCommand<P>> {
        self.0@
    }

    /// A queue holding `commands`, the first of the vector first.
    pub fn new(commands: Vec<EntityCommand<P>>) -> (q: Self)
        ensures
            q.commands() == commands@,
    {
        let mut rest = commands;
        let mut queue: VecDeque<EntityCommand<P>> = VecDeque::new();
        while rest.len() > 0
            invariant
                rest@ + queue@ == commands@,
            decreases rest.len(),
        {
            let ghost before = rest@;
            match rest.pop() {
                Some(c) => {
                    queue.push_front(c);
                    assert(before == rest@.push(c));
                },
                None => {},
            }
        }
        assert(rest@ + queue@ == queue@);
        Self(queue)
    }

    /// Queues `command` after every command already queued.
    pub fn add(&mut self, command: EntityCommand<P>)
        ensures
            final(self).commands() == old(self).commands().push(command),
    {
        self.0.push_back(command);
    }

    /// Whether no command is queued.
    pub fn is_empty(&mut self) -> (empty: bool)
        ensures
            final(self).commands() == old(self).commands(),
            empty == (old(self).commands().len() == 0),
    {
        self.0.len() == 0
    }

    /// Whether some queued command is an attack.
    pub fn has_attack_order(&self) -> (found: bool)
        ensures
            found == has_attack(self.commands()),
            found == (exists|i: int| 0 <= i < self.commands().len() && #[trigger] self.commands()[i] is Attack),
    {
        proof {
            lemma_has_attack_exists(self.commands());
        }
        let n = self.0.len();
        let mut i: usize = 0;
        while i < n
            invariant
                n == self.commands().len(),
                i <= n,
                forall|j: int| 0 <= j < i ==> !(#[trigger] self.commands()[j] is Attack),
            decreases n - i,
        {
            match &self.0[i] {
                EntityCommand::Attack(..) => {
                    return true;
                },
                EntityCommand::GoTo(..) => {},
            }
            i = i + 1;
        }
        false
    }

    /// Takes the first queued command out of the queue, the one to carry out now.
    pub fn pop_next(&mut self) -> (c: Option<EntityCommand<P>>)
        ensures
            match c {
                Some(c) => {
                    &&& old(self).commands().len() > 0
                    &&& c == old(self).commands()[0]
                    &&& final(self).commands() == old(self).commands().drop_first()
                },
                None => {
                    &&& old(self).commands().len() == 0
                    &&& final(self).commands() == old(self).commands()
                },
            },
    {
        self.0.pop_front()
    }
}

/// The commands given when the player asks to move: walk along `path` if a
/// path was found, else nothing.
pub fn move_commands<P>(path: Option<Vec<P>>) -> (q: CommandQueue<P>)
    ensures
        match path {
            Some(p) => q.commands().len() == 1 && is_walk_along(q.commands()[0], p@),
            None => q.commands().len() == 0,
        },
        !has_attack(q.commands()),
{
    let mut queue = CommandQueue::new(Vec::new());
    if let Some(p) = path {
        queue.add(EntityCommand::GoTo(FollowPath::new(p)));
    }
    queue
}

/// The commands given when the player asks to mine `target`: walk along
/// `path` if a path was found, then attack `target` if it is already within
/// attack range.
pub fn mining_commands<P>(path: Option<Vec<P>>, target_in_range: bool, target: Entity) -> (q:
    CommandQueue<P>)
    ensures
        q.commands().len() == (if path is Some { 1int } else { 0int }) + (if target_in_range {
            1int
        } else {
            0int
        }),
        path matches Some(p) ==> is_walk_along(q.commands()[0], p@),
        target_in_range ==> q.commands().last() == EntityCommand::<P>::Attack(
            AttackOrder { target },
        ),
        has_attack(q.commands()) == target_in_range,
{
    let mut queue = CommandQueue::new(Vec::new());
    if let Some(p) = path {
        queue.add(EntityCommand::GoTo(FollowPath::new(p)));
    }
    assert(!has_attack(queue.commands()));
    if target_in_range {
        queue.add(EntityCommand::Attack(AttackOrder::from(target)));
        let ghost n = queue.commands().len() - 1;
        assert(queue.commands()[n] is Attack);
    }
    queue
}

/// The commands given to an entity sent after `target`: walk along `path`,
/// then attack `target`.
pub fn attack_commands<P>(path: Vec<P>, target: Entity) -> (q: CommandQueue<P>)
    ensures
        q.commands().len() == 2,
        is_walk_along(q.commands()[0], path@),
        q.commands()[1] == EntityCommand::<P>::Attack(AttackOrder { target }),
        has_attack(q.commands()),
{
    let ghost p = path@;
    let mut queue = CommandQueue::new(Vec::new());
    queue.add(EntityCommand::GoTo(FollowPath::new(path)));
    queue.add(EntityCommand::Attack(AttackOrder { target }));
    assert(queue.commands()[1] is Attack);
    queue
}

} // verus!
