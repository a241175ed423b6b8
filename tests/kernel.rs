use ninja_dungeon::collision::CollisionIndex;
use ninja_dungeon::context::GameContext;
use ninja_dungeon::entity::{Entity, EntityKind, TypedID};
use ninja_dungeon::generator::{EntityGenerator, Generator};
use ninja_dungeon::holder::Holder;
use ninja_dungeon::map::TileMap;
use ninja_dungeon::message::{Command, CounterMsg, CollisionMsg, Envelope};
use ninja_dungeon::player::{Player, Signals};
use ninja_dungeon::po::PO;
use ninja_dungeon::scheduler::Scheduler;
use ninja_dungeon::skeleton::Skeleton;
use ninja_dungeon::tile::{CollisionType, Tile};
use ninja_dungeon::{Rect, ID};

fn one_screen_map() -> TileMap {
    let mut map = TileMap::new();
    map.addScreen(17, 12, (0, 0));
    map
}

fn world_with_player_at(pos: (i32, i32)) -> PO {
    PO::new(GameContext::new(one_screen_map(), Player::new(pos)))
}

fn position_of(po: &PO, id: ID) -> (i32, i32) {
    match po.getEntity(id) {
        Some(Entity::Player(p)) => p.position,
        Some(Entity::Skeleton(s)) => s.position,
        _ => panic!("no positioned entity under {:?}", id),
    }
}

#[test]
fn overlapping_hitboxes_become_candidates_both_ways() {
    let mut index = CollisionIndex::new(17, 12);
    let a = ID::new(1, 0);
    let b = ID::new(2, 0);
    let ra = Rect::new(0, 0, 10, 10);
    let rb = Rect::new(5, 5, 10, 10);
    index.updatePosition(a, ra, ra);
    index.updatePosition(b, rb, rb);
    assert_eq!(index.getCollisionList(a), vec![b]);
    assert_eq!(index.getCollisionList(b), vec![a]);
}

#[test]
fn moving_away_and_resetting_clears_the_candidates() {
    let mut index = CollisionIndex::new(17, 12);
    let a = ID::new(1, 0);
    let b = ID::new(2, 0);
    let ra = Rect::new(0, 0, 10, 10);
    let rb = Rect::new(5, 5, 10, 10);
    index.updatePosition(a, ra, ra);
    index.updatePosition(b, rb, rb);
    index.updatePosition(a, Rect::new(100, 100, 10, 10), ra);
    index.resetCollisionLists();
    assert!(index.getCollisionList(a).is_empty());
    assert!(index.getCollisionList(b).is_empty());
}

#[test]
fn a_pair_is_recorded_once_per_frame() {
    let mut index = CollisionIndex::new(17, 12);
    let a = ID::new(1, 0);
    let b = ID::new(2, 0);
    let big = Rect::new(0, 0, 120, 120);
    index.updatePosition(a, big, big);
    index.updatePosition(b, big, big);
    index.updatePosition(b, big, big);
    assert_eq!(index.getCollisionList(a), vec![b]);
    assert_eq!(index.getCollisionList(b), vec![a]);
}

#[test]
fn candidates_whose_hitboxes_do_not_overlap_are_filtered() {
    let mut index = CollisionIndex::new(17, 12);
    let a = ID::new(1, 0);
    let b = ID::new(2, 0);
    let ra = Rect::new(0, 0, 10, 10);
    let rb = Rect::new(20, 20, 10, 10);
    index.updatePosition(a, ra, ra);
    index.updatePosition(b, rb, rb);
    assert!(index.getCollisionList(a).is_empty());
    assert!(index.getCollisionList(b).is_empty());
}

#[test]
fn removing_a_collision_forgets_its_pairs() {
    let mut index = CollisionIndex::new(17, 12);
    let a = ID::new(1, 0);
    let b = ID::new(2, 0);
    let c = ID::new(3, 0);
    let r = Rect::new(0, 0, 10, 10);
    index.updatePosition(a, r, r);
    index.updatePosition(b, r, r);
    index.updatePosition(c, r, r);
    assert_eq!(index.getCollisionList(a), vec![b]);
    assert_eq!(index.getCollisionList(b), vec![a, c]);
    assert_eq!(index.getCollisionList(c), vec![b]);
    index.removeCollision(b, r);
    assert!(index.getCollisionList(a).is_empty());
    assert!(index.getCollisionList(b).is_empty());
    assert!(index.getCollisionList(c).is_empty());
}

#[test]
fn skeleton_steps_toward_the_player_as_read_at_frame_start() {
    let mut po = world_with_player_at((0, 0));
    let skeleton = po.ctx.addEntityActiveScreen(Entity::Skeleton(Skeleton::new((100, 0)))).unwrap();
    let player = po.ctx.getPlayerID();
    assert!(Scheduler::new().execute(&mut po));
    assert_eq!(position_of(&po, skeleton), (97, 0));
    assert_eq!(position_of(&po, player), (0, 0));
}

#[test]
fn skeleton_ignores_the_players_move_in_the_same_frame() {
    let mut po = world_with_player_at((0, 0));
    let skeleton = po.ctx.addEntityActiveScreen(Entity::Skeleton(Skeleton::new((100, 0)))).unwrap();
    let player = po.ctx.getPlayerID();
    if let Some(Entity::Player(p)) = po.ctx.holder.get(player) {
        assert_eq!(p.velocity, (0, 0));
    }
    let mut moving = Player::new((0, 0));
    moving.signal(Signals { up: Some(false), down: Some(false), left: Some(false), right: Some(true), attack: None });
    assert_eq!(moving.velocity, (5, 0));
    let mut po2 = PO::new(GameContext::new(one_screen_map(), moving));
    let skeleton2 = po2.ctx.addEntityActiveScreen(Entity::Skeleton(Skeleton::new((100, 0)))).unwrap();
    let player2 = po2.ctx.getPlayerID();
    assert!(Scheduler::new().execute(&mut po));
    assert!(Scheduler::new().execute(&mut po2));
    assert_eq!(position_of(&po2, player2), (5, 0));
    assert_eq!(position_of(&po2, skeleton2), (97, 0));
    assert_eq!(position_of(&po, skeleton), position_of(&po2, skeleton2));
}

#[test]
fn skeleton_processed_after_the_player_reads_the_same_position() {
    let mut moving = Player::new((0, 0));
    moving.signal(Signals { up: None, down: None, left: None, right: Some(true), attack: None });
    let mut po = PO::new(GameContext::new(one_screen_map(), moving));
    let skeleton = po.ctx.addEntityGlobal(Entity::Skeleton(Skeleton::new((100, 0)))).unwrap();
    assert!(Scheduler::new().execute(&mut po));
    assert_eq!(position_of(&po, skeleton), (97, 0));
}

#[test]
fn generator_fires_once_for_two_decrements_in_one_frame() {
    let mut po = world_with_player_at((0, 0));
    let wall = Tile::new(1, CollisionType::Block);
    let gen = Generator::new((0, 0), vec![(wall, (3, 3))], 1);
    let id = po.ctx.addEntityActiveScreen(Entity::Generator(gen)).unwrap();
    assert!(po.sendCounterMsg(Envelope::new(CounterMsg(-1), id, ID::empty())));
    assert!(po.sendCounterMsg(Envelope::new(CounterMsg(-1), id, ID::empty())));
    assert_eq!(po.commands.len(), 1);
    assert_eq!(po.ctx.map.getTile((3, 3)), Tile::default());
    assert!(po.doCommands());
    assert_eq!(po.ctx.map.getTile((3, 3)), wall);
    assert!(po.commands.is_empty());
    match po.getEntity(id) {
        Some(Entity::Generator(g)) => {
            assert_eq!(g.cnt, 0);
            assert!(g.tiles.is_empty());
        },
        _ => panic!("generator missing"),
    }
}

#[test]
fn entity_generator_activates_its_children_where_they_belong() {
    let mut po = world_with_player_at((0, 0));
    let first = po.ctx.holder.add(Entity::Skeleton(Skeleton::new((200, 200))));
    let second = po.ctx.holder.add(Entity::Skeleton(Skeleton::new((300, 200))));
    let gen = EntityGenerator::new((50, 50), vec![], vec![(first, true), (second, false)], 1);
    let id = po.ctx.addEntityActiveScreen(Entity::EntityGenerator(gen)).unwrap();
    assert!(!po.ctx.globalEntityIter().contains(&first));
    assert!(!po.ctx.activeScreenEntityIter().contains(&second));
    assert!(po.sendCounterMsg(Envelope::new(CounterMsg(-1), id, ID::empty())));
    assert!(po.doCommands());
    assert!(po.ctx.globalEntityIter().contains(&first));
    assert!(po.ctx.activeScreenEntityIter().contains(&second));
    match po.getEntity(id) {
        Some(Entity::EntityGenerator(g)) => assert!(g.entities.is_empty()),
        _ => panic!("entity generator missing"),
    }
}

#[test]
fn added_entities_stay_reachable_until_removed() {
    let mut holder = Holder::new();
    let id = holder.add(Entity::Skeleton(Skeleton::new((10, 20))));
    assert_eq!(id, ID::new(0, 0));
    assert!(holder.get(id).is_some());
    assert_eq!(holder.get(id).unwrap().kind(), EntityKind::Skeleton);
    let typed = holder.getTyped(TypedID::<Skeleton>::new(id)).unwrap();
    assert_eq!(typed.id, id);
    assert_eq!(typed.position, (10, 20));
    assert!(holder.getTyped(TypedID::<Player>::new(id)).is_none());
    assert_eq!(holder.getCurrentID(), id);
    let removed = holder.remove(id);
    assert!(removed.is_some());
    assert!(holder.get(id).is_none());
    assert!(holder.getTyped(TypedID::<Skeleton>::new(id)).is_none());
    assert!(holder.remove(id).is_none());
}

#[test]
fn indices_are_never_reused() {
    let mut holder = Holder::new();
    let a = holder.add(Entity::Player(Player::new((0, 0))));
    holder.remove(a);
    let b = holder.add(Entity::Player(Player::new((0, 0))));
    assert_eq!(a, ID::new(0, 0));
    assert_eq!(b, ID::new(1, 0));
    assert_eq!(holder.iter(), vec![b]);
}

#[test]
fn purged_entity_stays_reachable_until_the_frame_ends() {
    let mut po = world_with_player_at((0, 0));
    let gen = po.ctx.addEntityGlobal(Entity::Generator(Generator::new((0, 0), vec![], 5))).unwrap();
    po.addToPurgeList(gen);
    assert!(po.getEntity(gen).is_some());
    assert!(po.sendCounterMsg(Envelope::new(CounterMsg(-1), gen, ID::empty())));
    assert!(po.purge());
    assert!(po.getEntity(gen).is_none());
    assert!(po.purgeList.is_empty());
}

#[test]
fn dead_skeleton_purges_itself_at_the_end_of_its_frame() {
    let mut po = world_with_player_at((0, 0));
    let mut skeleton = Skeleton::new((300, 300));
    skeleton.health = 0;
    let id = po.ctx.addEntityActiveScreen(Entity::Skeleton(skeleton)).unwrap();
    assert!(po.getEntity(id).is_some());
    assert!(Scheduler::new().execute(&mut po));
    assert!(po.getEntity(id).is_none());
    assert!(!po.ctx.activeScreenEntityIter().contains(&id));
}

#[test]
fn skeleton_death_counts_down_its_generator() {
    let mut po = world_with_player_at((0, 0));
    let wall = Tile::new(1, CollisionType::Block);
    let gen = po.ctx.addEntityGlobal(Entity::Generator(Generator::new((0, 0), vec![(wall, (4, 4))], 1))).unwrap();
    let mut skeleton = Skeleton::new((300, 300));
    skeleton.health = 0;
    let id = po.ctx.addEntityActiveScreen(Entity::Skeleton(skeleton)).unwrap();
    assert!(po.ctx.holder.register(id, ninja_dungeon::IDRegistration::DeathCounter(gen)));
    assert!(Scheduler::new().execute(&mut po));
    assert_eq!(po.ctx.map.getTile((4, 4)), wall);
}

#[test]
fn spawned_tile_appears_only_when_commands_run() {
    let mut po = world_with_player_at((0, 0));
    let spikes = Tile::new(3, CollisionType::Hit(0));
    po.spawnTile(spikes, (2, 5));
    assert_eq!(po.ctx.map.getTile((2, 5)), Tile::default());
    assert!(po.doCommands());
    assert_eq!(po.ctx.map.getTile((2, 5)), spikes);
    assert!(po.doCommands());
    assert_eq!(po.ctx.map.getTile((2, 5)), spikes);
}

#[test]
fn spawn_tiles_fills_a_rectangle() {
    let mut po = world_with_player_at((0, 0));
    let gate = Tile::gate();
    po.spawnTiles(gate, (1, 1), (2, 3));
    assert!(po.doCommands());
    for x in 0..5u16 {
        for y in 0..5u16 {
            let expected = if (1..=2).contains(&x) && (1..=3).contains(&y) { gate } else { Tile::default() };
            assert_eq!(po.ctx.map.getTile((x, y)), expected);
        }
    }
}

#[test]
fn win_stops_the_command_run() {
    let mut po = world_with_player_at((0, 0));
    po.win();
    po.spawnTile(Tile::gate(), (1, 1));
    assert!(!po.doCommands());
    assert_eq!(po.ctx.map.getTile((1, 1)), Tile::default());
    assert!(po.commands.is_empty());
}

#[test]
fn tiles_off_the_screen_are_skipped() {
    let mut po = world_with_player_at((0, 0));
    po.spawnTile(Tile::gate(), (40, 40));
    assert!(po.doCommands());
    assert_eq!(po.ctx.map.getTile((40, 40)), Tile::OOB());
}

#[test]
fn collision_message_reaches_the_receiver_at_once() {
    let mut po = world_with_player_at((0, 0));
    let id = po.ctx.addEntityActiveScreen(Entity::Skeleton(Skeleton::new((300, 300)))).unwrap();
    assert!(po.sendCollisionMsg(Envelope::new(CollisionMsg::Damage(4), id.sub(1), ID::empty())));
    match po.getEntity(id) {
        Some(Entity::Skeleton(s)) => {
            assert_eq!(s.health, 6);
            assert!(s.idle);
        },
        _ => panic!("skeleton missing"),
    }
    assert!(!po.sendCollisionMsg(Envelope::new(CollisionMsg::Damage(4), ID::new(99, 0), ID::empty())));
}

#[test]
fn touching_a_skeleton_hurts_the_player() {
    let mut po = world_with_player_at((0, 0));
    let player = po.ctx.getPlayerID();
    let skeleton = po.ctx.addEntityActiveScreen(Entity::Skeleton(Skeleton::new((20, 0)))).unwrap();
    po.updatePosition(player, Rect::new(0, 0, 50, 50), Rect::new(0, 0, 50, 50));
    po.updatePosition(skeleton, Rect::new(20, 0, 50, 100), Rect::new(20, 0, 50, 100));
    assert_eq!(po.getCollisionList(player), vec![skeleton]);
    assert!(Scheduler::new().execute(&mut po));
    match po.getEntity(player) {
        Some(Entity::Player(p)) => assert_eq!(p.health, 92),
        _ => panic!("player missing"),
    }
}

#[test]
fn removing_an_entity_reports_where_it_was() {
    let mut po = world_with_player_at((0, 0));
    let on_screen = po.ctx.addEntityActiveScreen(Entity::Skeleton(Skeleton::new((0, 0)))).unwrap();
    let inactive = po.ctx.holder.add(Entity::Skeleton(Skeleton::new((0, 0))));
    assert!(po.ctx.removeEntity(on_screen).is_ok());
    let err = po.ctx.removeEntity(inactive).err().unwrap();
    assert!(err.0.is_some());
    assert_eq!(err.1, "Entity not found in active screen or globally");
    assert!(po.ctx.removeEntity(ID::new(77, 0)).is_err());
}

#[test]
fn entity_at_position_finds_the_first_overlap() {
    let mut po = world_with_player_at((0, 0));
    let a = po.ctx.addEntityActiveScreen(Entity::Skeleton(Skeleton::new((100, 100)))).unwrap();
    assert_eq!(po.ctx.getEntityAtPositionActiveScreen(Rect::new(120, 120, 5, 5)), Some(a));
    assert_eq!(po.ctx.getEntityAtPositionActiveScreen(Rect::new(500, 500, 5, 5)), None);
}

#[test]
fn due_entities_come_from_the_active_screen_then_the_globals() {
    let mut po = world_with_player_at((0, 0));
    let player = po.ctx.getPlayerID();
    let sk = po.ctx.addEntityActiveScreen(Entity::Skeleton(Skeleton::new((100, 0)))).unwrap();
    let gen = po.ctx.addEntityActiveScreen(Entity::Generator(Generator::new((0, 0), vec![], 1))).unwrap();
    assert_eq!(Scheduler::dueEntities(&po.ctx), vec![sk, gen, player]);
    assert!(Scheduler::new().execute(&mut po));
    assert_eq!(Scheduler::dueEntities(&po.ctx), vec![sk, player]);
}

#[test]
fn commands_queue_in_order() {
    let mut po = world_with_player_at((0, 0));
    let boss = ID::new(9, 0);
    po.informPlayerSnakeBoss(boss);
    po.activateEntity(ID::new(4, 0), true);
    po.informPlayerSnakeBossDeath();
    assert_eq!(
        po.commands,
        vec![Command::InformPlayerSnakeBoss(boss), Command::ActivateEntity(ID::new(4, 0), true), Command::InformPlayerSnakeBossDeath]
    );
    assert!(po.doCommands());
    match po.getEntity(po.ctx.getPlayerID()) {
        Some(Entity::Player(p)) => assert_eq!(p.snakeBoss, None),
        _ => panic!("player missing"),
    }
}

fn two_screen_map() -> TileMap {
    let mut map = TileMap::new();
    map.addScreen(17, 12, (0, 0));
    map.addScreen(17, 12, (17, 0));
    map.setCurrentScreen(0).unwrap();
    map.changeTile((16, 5), Tile::new(0, CollisionType::Transition(1)));
    map
}

#[test]
fn player_crossing_a_transition_tile_changes_screen() {
    let mut ctx = GameContext::new(two_screen_map(), Player::new((830, 250)));
    let player = ctx.getPlayerID();
    assert!(ctx.transitionPlayer());
    assert_eq!(ctx.map.getActiveScreenId(), 1);
    match ctx.holder.get(player) {
        Some(Entity::Player(p)) => {
            assert_eq!(p.position, (-25, 250));
            assert_eq!(p.hitbox, Rect::new(-25, 250, 50, 50));
        },
        _ => panic!("player missing"),
    }
}

#[test]
fn player_inside_the_screen_stays() {
    let mut ctx = GameContext::new(two_screen_map(), Player::new((400, 250)));
    assert!(!ctx.transitionPlayer());
    assert_eq!(ctx.map.getActiveScreenId(), 0);
}

#[test]
fn player_leaving_without_a_transition_tile_stays_on_the_screen() {
    let mut ctx = GameContext::new(two_screen_map(), Player::new((400, -40)));
    let player = ctx.getPlayerID();
    assert!(ctx.transitionPlayer());
    assert_eq!(ctx.map.getActiveScreenId(), 0);
    match ctx.holder.get(player) {
        Some(Entity::Player(p)) => assert_eq!(p.position, (400, -40)),
        _ => panic!("player missing"),
    }
}

#[test]
fn skeleton_is_pushed_out_of_a_wall() {
    let mut map = one_screen_map();
    map.changeTile((1, 0), Tile::gate());
    let mut po = PO::new(GameContext::new(map, Player::new((0, 0))));
    let skeleton = po.ctx.addEntityActiveScreen(Entity::Skeleton(Skeleton::new((101, 0)))).unwrap();
    assert!(Scheduler::new().execute(&mut po));
    assert_eq!(position_of(&po, skeleton), (100, 0));
}

#[test]
fn block_collide_ejects_through_the_shallowest_side() {
    let mut map = one_screen_map();
    map.changeTile((1, 0), Tile::gate());
    assert_eq!(ninja_dungeon::map::blockCollide((1, 0), Rect::new(98, 0, 50, 100), &map), (2, 0));
    assert_eq!(ninja_dungeon::map::blockCollide((1, 0), Rect::new(200, 0, 50, 100), &map), (0, 0));
    map.changeTile((2, 0), Tile::gate());
    assert_eq!(ninja_dungeon::map::blockCollide((1, 0), Rect::new(98, 0, 50, 100), &map), (0, 0));
}
