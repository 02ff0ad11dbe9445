use mining_demo::commands::{
    attack_commands, mining_commands, move_commands, AttackOrder, CommandQueue, EntityCommand,
};
use mining_demo::entity::Entity;
use mining_demo::path_following::FollowPath;

/// The next waypoint and the destination of a walk; `None` for an attack.
fn walk(c: &EntityCommand<i32>) -> Option<Vec<i32>> {
    match c {
        EntityCommand::GoTo(f) => {
            let mut out = Vec::new();
            if let Some(n) = f.next() {
                out.push(*n);
            }
            if let Some(d) = f.destination() {
                out.push(*d);
            }
            Some(out)
        }
        EntityCommand::Attack(_) => None,
    }
}

fn target(c: &EntityCommand<i32>) -> Option<Entity> {
    match c {
        EntityCommand::Attack(o) => Some(o.target),
        EntityCommand::GoTo(_) => None,
    }
}

#[test]
fn attack_order_from_entity() {
    let o = AttackOrder::from(Entity(42));
    assert_eq!(o.target, Entity(42));
    assert_eq!(o, AttackOrder { target: Entity(42) });
}

#[test]
fn queue_runs_commands_first_in_first_out() {
    let mut q: CommandQueue<i32> = CommandQueue::new(vec![
        EntityCommand::Attack(AttackOrder { target: Entity(1) }),
        EntityCommand::GoTo(FollowPath::new(vec![5, 6])),
    ]);
    q.add(EntityCommand::Attack(AttackOrder { target: Entity(2) }));
    assert!(!q.is_empty());
    assert_eq!(q.0.len(), 3);
    assert_eq!(target(&q.pop_next().unwrap()), Some(Entity(1)));
    assert_eq!(walk(&q.pop_next().unwrap()), Some(vec![5, 6]));
    assert_eq!(target(&q.pop_next().unwrap()), Some(Entity(2)));
    assert!(q.pop_next().is_none());
    assert!(q.is_empty());
}

#[test]
fn attack_order_is_found_anywhere_in_the_queue() {
    let mut q: CommandQueue<i32> = CommandQueue::new(vec![]);
    assert!(!q.has_attack_order());
    q.add(EntityCommand::GoTo(FollowPath::new(vec![1])));
    assert!(!q.has_attack_order());
    q.add(EntityCommand::Attack(AttackOrder { target: Entity(9) }));
    assert!(q.has_attack_order());
    q.pop_next();
    assert!(q.has_attack_order());
    q.pop_next();
    assert!(!q.has_attack_order());
}

#[test]
fn mining_walks_then_attacks() {
    let mut q = mining_commands(Some(vec![1, 2, 3]), true, Entity(4));
    assert_eq!(q.0.len(), 2);
    assert!(q.has_attack_order());
    assert_eq!(walk(&q.pop_next().unwrap()), Some(vec![1, 3]));
    assert_eq!(target(&q.pop_next().unwrap()), Some(Entity(4)));
}

#[test]
fn mining_out_of_range_only_walks() {
    let mut q = mining_commands(Some(vec![8]), false, Entity(4));
    assert_eq!(q.0.len(), 1);
    assert!(!q.has_attack_order());
    assert_eq!(walk(&q.pop_next().unwrap()), Some(vec![8, 8]));
}

#[test]
fn mining_without_path_attacks_when_in_range() {
    let mut q = mining_commands::<i32>(None, true, Entity(4));
    assert_eq!(q.0.len(), 1);
    assert_eq!(target(&q.pop_next().unwrap()), Some(Entity(4)));
    let mut nothing = mining_commands::<i32>(None, false, Entity(4));
    assert!(nothing.is_empty());
}

#[test]
fn moving_walks_if_there_is_a_path() {
    let mut q = move_commands(Some(vec![3, 4]));
    assert_eq!(q.0.len(), 1);
    assert!(!q.has_attack_order());
    assert_eq!(walk(&q.pop_next().unwrap()), Some(vec![3, 4]));
    let mut none = move_commands::<i32>(None);
    assert!(none.is_empty());
}

#[test]
fn hunting_walks_then_attacks() {
    let mut q = attack_commands(vec![7], Entity(11));
    assert_eq!(q.0.len(), 2);
    assert_eq!(walk(&q.pop_next().unwrap()), Some(vec![7, 7]));
    assert_eq!(target(&q.pop_next().unwrap()), Some(Entity(11)));
}
