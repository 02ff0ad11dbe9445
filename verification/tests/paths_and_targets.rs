use mining_demo::ai::{select_target, TargetCandidate};
use mining_demo::entity::Entity;
use mining_demo::path_following::FollowPath;
use mining_demo::player::{Faction, FactionId};

#[test]
fn walk_visits_waypoints_in_order() {
    let mut f = FollowPath::new(vec![10, 20, 30]);
    assert_eq!(f.destination(), Some(&30));
    assert_eq!(f.next(), Some(&10));
    f.increment();
    assert_eq!(f.next(), Some(&20));
    f.increment();
    assert_eq!(f.next(), Some(&30));
    f.increment();
    assert_eq!(f.next(), None);
    assert_eq!(f.destination(), Some(&30));
}

#[test]
fn empty_walk_has_nothing_to_do() {
    let f: FollowPath<u8> = FollowPath::new(vec![]);
    assert_eq!(f.next(), None);
    assert_eq!(f.destination(), None);
    assert_eq!(f.next_step(true, true), None);
    assert_eq!(f.next_step(false, false), None);
}

#[test]
fn walk_stops_early_only_with_attack_queued_and_in_range() {
    let mut f = FollowPath::new(vec![1, 2]);
    assert_eq!(f.next_step(true, true), None);
    assert_eq!(f.next_step(true, false), Some(&1));
    assert_eq!(f.next_step(false, true), Some(&1));
    f.increment();
    f.increment();
    assert_eq!(f.next_step(false, false), None);
}

#[test]
fn factions() {
    assert_eq!(Faction::PLAYER_FACTION_ID, 1);
    assert_eq!(Faction::MONSTER_FACTION_ID, 2);
    assert_ne!(Faction::player(), Faction::monster());
    assert_eq!(Faction::player(), Faction::player());
    assert_eq!(Faction::default(), Faction(FactionId::default()));
    assert_ne!(Faction::default(), Faction::player());
}

fn cand(id: u64, faction: Faction, path: Option<&'static str>) -> TargetCandidate<&'static str> {
    TargetCandidate { entity: Entity(id), faction, path }
}

#[test]
fn nearest_reachable_enemy_is_chosen() {
    let own = Faction::monster();
    let picked = select_target(
        own,
        vec![
            cand(1, Faction::monster(), Some("ally")),
            cand(2, Faction::player(), None),
            cand(3, Faction::player(), Some("wall")),
            cand(4, Faction::player(), Some("player")),
        ],
    );
    assert_eq!(picked, Some((Entity(3), "wall")));
}

#[test]
fn no_target_without_reachable_enemy() {
    let own = Faction::monster();
    assert_eq!(select_target::<&str>(own, vec![]), None);
    assert_eq!(
        select_target(
            own,
            vec![cand(1, Faction::monster(), Some("ally")), cand(2, Faction::player(), None)],
        ),
        None
    );
}

#[test]
fn entity_bits_round_trip() {
    let e = Entity::from_bits(0xdead_beef);
    assert_eq!(e.to_bits(), 0xdead_beef);
    assert_eq!(e, Entity(0xdead_beef));
}

#[test]
fn path_lists_all_waypoints() {
    let mut f = FollowPath::new(vec![4, 5]);
    f.increment();
    assert_eq!(f.path(), &vec![4, 5]);
}
