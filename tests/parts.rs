use ninja_dungeon::builder::{EntityBuilder, EntityBuilderSignals, ASK_DIRECTION, ASK_INACTIVE, ASK_LINK, ASK_TILE};
use ninja_dungeon::collision::EntityHitbox;
use ninja_dungeon::common::{DeathCounter, IDRegistration};
use ninja_dungeon::context::GameContext;
use ninja_dungeon::entity::{Entity, InnerCode};
use ninja_dungeon::generator::Generator;
use ninja_dungeon::holder::Holder;
use ninja_dungeon::map::TileMap;
use ninja_dungeon::message::{CounterMsg, Envelope};
use ninja_dungeon::player::Player;
use ninja_dungeon::screen::{CollisionBounds, Location, Screen};
use ninja_dungeon::skeleton::Skeleton;
use ninja_dungeon::snake::Snake;
use ninja_dungeon::tile::{determineCollidedSide, CollisionType, Side, Tile, TileBuilder, TileBuilderSignals};
use ninja_dungeon::{Direction, Rect, Vec2d, ID};

#[test]
fn id_fields_and_masks() {
    let id = ID::new(42, 3);
    assert_eq!(id.getID(), 42);
    assert_eq!(id.getSubID(), 3);
    assert_eq!(id.mask(), ID::new(42, 0));
    assert_eq!(id.sub(1), ID::new(42, 1));
    assert!(!id.isEmpty());
    assert!(ID::empty().isEmpty());
    assert_ne!(ID::new(42, 3), ID::new(42, 4));
    assert_ne!(ID::new(41, 3), ID::new(42, 3));
}

#[test]
fn rect_intersection_is_strict() {
    let a = Rect::new(0, 0, 10, 10);
    assert!(a.has_intersection(Rect::new(9, 9, 5, 5)));
    assert!(!a.has_intersection(Rect::new(10, 0, 5, 5)));
    assert!(!a.has_intersection(Rect::new(0, 0, 0, 5)));
    assert!(a.contains_point(0, 0));
    assert!(!a.contains_point(10, 5));
}

#[test]
fn vec2d_rows_and_columns() {
    let mut grid = Vec2d::new(vec![0, 1, 2, 3, 4, 5], 3);
    assert_eq!(*grid.index(1, 2), 5);
    assert_eq!(grid.get(0, 1), Some(&1));
    assert_eq!(grid.get(2, 0), None);
    *grid.indexMut(0, 0) = 9;
    assert_eq!(*grid.index(0, 0), 9);
}

#[test]
fn tile_constructors() {
    assert_eq!(Tile::gate(), Tile::new(2, CollisionType::Block));
    assert_eq!(Tile::abyss(), Tile::new(18, CollisionType::Abyss));
    assert_eq!(Tile::preview(7), Tile::new(7, CollisionType::NoEffect));
    assert_eq!(Tile::OOB().getId(), u16::MAX);
    assert_eq!(Tile::OOB().getCollisionType(), CollisionType::OOB);
    assert_eq!(Tile::default(), Tile::new(0, CollisionType::NoEffect));
}

#[test]
fn tile_builder_plain_codes_complete_at_once() {
    assert_eq!(TileBuilder::new(4, 1, (2, 3)).build(), TileBuilderSignals::Complete(Tile::new(4, CollisionType::Block), (2, 3)));
    assert_eq!(TileBuilder::new(4, 3, (0, 0)).build(), TileBuilderSignals::Complete(Tile::new(4, CollisionType::Hit(0)), (0, 0)));
    assert_eq!(TileBuilder::new(4, 18, (0, 0)).build(), TileBuilderSignals::Complete(Tile::new(4, CollisionType::Win), (0, 0)));
    assert_eq!(TileBuilder::new(4, 19, (0, 0)).build(), TileBuilderSignals::InvalidId);
}

#[test]
fn tile_builder_asks_for_a_map_id() {
    let mut b = TileBuilder::new(6, 2, (1, 1));
    assert!(matches!(b.build(), TileBuilderSignals::GetUserUsize(_)));
    b.addUsize(3);
    assert_eq!(b.build(), TileBuilderSignals::Complete(Tile::new(6, CollisionType::Transition(3)), (1, 1)));
}

#[test]
fn tile_builder_collects_two_corners() {
    let mut b = TileBuilder::new(6, 5, (1, 1));
    assert_eq!(b.build(), TileBuilderSignals::GetCoordinate("Click where to begin clearing"));
    b.addLocation((2, 3));
    assert_eq!(b.build(), TileBuilderSignals::GetCoordinate("Click where to stop clearing"));
    b.addLocation((4, 5));
    assert_eq!(b.build(), TileBuilderSignals::Complete(Tile::new(6, CollisionType::ClearTiles((2, 3, 4, 5))), (1, 1)));
    let mut g = TileBuilder::new(6, 16, (0, 0));
    g.addLocation((1, 1));
    g.addLocation((2, 2));
    assert_eq!(g.build(), TileBuilderSignals::Complete(Tile::new(6, CollisionType::SwitchToggleGateAbyss((1, 1, 2, 2))), (0, 0)));
}

#[test]
fn tile_builder_asks_for_a_generator() {
    let mut b = TileBuilder::new(6, 15, (0, 0));
    assert_eq!(b.build(), TileBuilderSignals::GetEntity("Pick generator"));
    b.addGenerator(ID::new(5, 0));
    assert_eq!(b.build(), TileBuilderSignals::Complete(Tile::new(6, CollisionType::TriggerGen(ID::new(5, 0))), (0, 0)));
    let copy = TileBuilder::fromTile(&Tile::gate(), (7, 7));
    assert_eq!(copy.build(), TileBuilderSignals::Complete(Tile::gate(), (7, 7)));
}

#[test]
fn collided_side_is_the_first_smallest() {
    assert_eq!(determineCollidedSide((5, 3, 7, 9)), Side::Bottom);
    assert_eq!(determineCollidedSide((2, 2, 2, 2)), Side::Top);
    assert_eq!(determineCollidedSide((9, 8, 7, 6)), Side::Right);
    assert_eq!(Side::new(2), Side::Left);
}

#[test]
fn screen_tiles_and_entities() {
    let mut s = Screen::new(3, 2, (10, 20));
    assert_eq!(s.getDimensions(), (3, 2));
    assert_eq!(s.getMaxScreenCoords(), (150, 100));
    assert_eq!(s.getTile((2, 1)), Tile::default());
    assert_eq!(s.getTile((3, 0)), Tile::OOB());
    s.replaceTile((2, 1), Tile::gate());
    assert_eq!(s.getTile((2, 1)), Tile::gate());
    assert!(s.addEntity(ID::new(4, 2)));
    assert!(!s.addEntity(ID::new(4, 0)));
    assert!(s.addEntity(ID::new(6, 0)));
    assert_eq!(s.getEntitiesIter(), vec![ID::new(4, 0), ID::new(6, 0)]);
    assert!(s.removeEntity(ID::new(4, 0)));
    assert!(!s.removeEntity(ID::new(4, 0)));
    assert_eq!(s.getEntitiesIter(), vec![ID::new(6, 0)]);
    s.moveToPosition((1, 1));
}

#[test]
fn collision_bounds_walk_row_by_row() {
    let s = Screen::new(17, 12, (0, 0));
    let mut b = s.calculateCollisionBounds(Rect::new(40, 40, 20, 20));
    let mut cells = vec![];
    while let Some((cell, tile)) = s.collide(&mut b) {
        assert_eq!(tile, Tile::default());
        cells.push(cell);
    }
    assert_eq!(cells, vec![(0, 0), (1, 0), (0, 1), (1, 1)]);
    let mut far = s.calculateCollisionBounds(Rect::new(-100, 2000, 10, 10));
    assert_eq!(far.next(), Some((0, 11)));
    assert_eq!(far.next(), None);
    let manual = CollisionBounds { startX: 0, endX: 0, endY: 0, x: 0, y: 0 };
    assert_eq!(manual.endY, 0);
}

#[test]
fn location_defaults_to_zero() {
    assert_eq!(Location::default(), Location::new(0, 0, 0, 0));
}

#[test]
fn map_screens_and_active_tiles() {
    let mut map = TileMap::new();
    assert!(!map.hasActiveScreen());
    assert!(!map.changeTile((0, 0), Tile::gate()));
    map.addScreen(4, 4, (0, 0));
    map.addScreen(5, 5, (4, 0));
    assert_eq!(map.getActiveScreenId(), 1);
    assert!(map.changeTile((4, 4), Tile::gate()));
    assert!(map.setCurrentScreen(0).is_ok());
    assert_eq!(map.getTile((4, 4)), Tile::OOB());
    assert!(map.setCurrentScreen(9).is_err());
    assert!(map.getScreen(1).is_some());
    assert!(map.getScreen(2).is_none());
}

#[test]
fn entity_hitbox_empty() {
    assert!(EntityHitbox::empty().isEmpty());
}

#[test]
fn envelope_getters() {
    let e = Envelope::new(CounterMsg(3), ID::new(1, 0), ID::new(2, 0));
    assert_eq!(e.getMsg().0, 3);
    assert_eq!(e.getReciever(), ID::new(1, 0));
    assert_eq!(e.getSender(), ID::new(2, 0));
}

#[test]
fn death_counter_message() {
    let c = DeathCounter::new(ID::new(8, 0));
    let m = c.inc(Some(ID::new(3, 0)), -1);
    assert_eq!(m.recv, ID::new(8, 0));
    assert_eq!(m.sender, ID::new(3, 0));
    assert_eq!(m.letter, CounterMsg(-1));
    assert_eq!(c.inc(None, 2).sender, ID::empty());
}

#[test]
fn generator_counter_is_clamped() {
    let mut g = Generator::new((0, 0), vec![(Tile::gate(), (1, 1))], 2);
    let mut commands = vec![];
    g.inc(-5, &mut commands);
    assert_eq!(g.cnt, 0);
    assert_eq!(commands.len(), 1);
    g.inc(300, &mut commands);
    assert_eq!(g.cnt, 255);
    assert_eq!(commands.len(), 1);
    assert!(g.needsExecution());
    g.update();
    assert!(!g.needsExecution());
}

#[test]
fn snake_picks_the_open_direction() {
    let mut map = TileMap::new();
    map.addScreen(17, 12, (0, 0));
    map.changeTile((6, 5), Tile::gate());
    assert_eq!(Snake::determineMovementDirection((200, 10), (5, 5), &map), Some(Direction::Down));
    assert_eq!(Snake::determineMovementDirection((10, -200), (5, 5), &map), Some(Direction::Up));
    assert_eq!(Snake::nextPos((0, 0), Direction::Left), (u16::MAX, 0));
    assert_eq!(Snake::snakeHeadTile(Direction::Up), Tile::new(7, CollisionType::Hit(-12)));
    assert_eq!(Snake::snakeTile(Direction::Right, Direction::Down), Tile::new(12, CollisionType::Hit(-12)));
}

#[test]
fn snake_moves_once_every_sixty_frames() {
    let mut s = Snake::new((2, 2), Direction::Right);
    let mut runs = 0;
    for _ in 0..120 {
        s.tick();
        if s.needsExecution() {
            runs += 1;
        }
    }
    assert_eq!(runs, 2);
}

#[test]
fn snake_queues_its_body_and_head() {
    let mut map = TileMap::new();
    map.addScreen(17, 12, (0, 0));
    let s = Snake::new((5, 5), Direction::Right);
    let mut commands = vec![];
    let d = s.getData(&map, Some((500, 250)), &mut commands);
    assert_eq!(d.pos, (6, 5));
    assert_eq!(d.dir, Direction::Right);
    assert_eq!(commands.len(), 2);
    let none = s.getData(&map, None, &mut commands);
    assert_eq!(none.pos, (5, 5));
    assert_eq!(commands.len(), 2);
}

#[test]
fn entity_builder_generator_flow() {
    let mut b = EntityBuilder::new(2, (1, 2));
    assert!(matches!(b.build(), EntityBuilderSignals::GetTile(m) if m == ASK_TILE));
    b.addTile(Tile::gate(), (3, 3));
    b.endList();
    assert!(matches!(b.build(), EntityBuilderSignals::GetEntity(m) if m == ASK_LINK));
    b.addLinkedID(ID::new(1, 0));
    b.addLinkedID(ID::new(2, 0));
    b.endList();
    match b.build() {
        EntityBuilderSignals::Complete(Entity::Generator(g)) => {
            assert_eq!(g.cnt, 2);
            assert_eq!(g.tiles, vec![(Tile::gate(), (3, 3))]);
            assert_eq!(g.renderRect, Rect::new(50, 100, 50, 50));
        },
        _ => panic!("expected a generator"),
    }
}

#[test]
fn entity_builder_entity_generator_flow() {
    let mut b = EntityBuilder::new(3, (0, 0));
    b.endList();
    b.endList();
    assert!(matches!(b.build(), EntityBuilderSignals::MakeEntityInactive(m) if m == ASK_INACTIVE));
    b.addInactiveEntity(ID::new(7, 0), true);
    b.endList();
    match b.build() {
        EntityBuilderSignals::Complete(Entity::EntityGenerator(g)) => {
            assert_eq!(g.entities, vec![(ID::new(7, 0), true)]);
            assert_eq!(g.gen.cnt, 0);
        },
        _ => panic!("expected an entity generator"),
    }
}

#[test]
fn entity_builder_other_codes() {
    assert!(matches!(EntityBuilder::new(0, (1, 1)).build(), EntityBuilderSignals::Complete(Entity::Player(p)) if p.position == (50, 50)));
    let mut sk = EntityBuilder::new(1, (2, 0));
    assert!(matches!(sk.build(), EntityBuilderSignals::IsGlobal));
    sk.setGlobal(false);
    assert!(matches!(sk.build(), EntityBuilderSignals::Complete(Entity::Skeleton(s)) if s.position == (100, 0)));
    assert_eq!(sk.getEntityRect(), Rect::new(100, 0, 50, 100));
    let mut sn = EntityBuilder::new(4, (3, 3));
    assert!(matches!(sn.build(), EntityBuilderSignals::GetDirection(m) if m == ASK_DIRECTION));
    sn.addDir(Direction::Left);
    assert!(matches!(sn.build(), EntityBuilderSignals::Complete(Entity::Snake(s)) if s.dir == Direction::Left && s.pos == (3, 3)));
    assert!(matches!(EntityBuilder::new(9, (0, 0)).build(), EntityBuilderSignals::InvalidId));
}

#[test]
fn entity_builder_wires_generators_to_linked_entities() {
    let mut map = TileMap::new();
    map.addScreen(17, 12, (0, 0));
    let mut ctx = GameContext::new(map, Player::new((0, 0)));
    let sk = ctx.addEntityActiveScreen(Entity::Skeleton(Skeleton::new((100, 100)))).unwrap();
    let mut b = EntityBuilder::new(2, (1, 1));
    b.endList();
    b.addLinkedID(sk);
    b.endList();
    let gen = match b.build() {
        EntityBuilderSignals::Complete(e) => e,
        _ => panic!("expected a generator"),
    };
    let id = b.addEntityGlobal(&mut ctx, gen).unwrap();
    match ctx.holder.get(sk) {
        Some(Entity::Skeleton(s)) => assert_eq!(s.deathCounter, Some(DeathCounter::new(id))),
        _ => panic!("skeleton missing"),
    }
    let inactive = EntityBuilder::new(1, (0, 0)).addEntityInactive(&mut ctx, Entity::Skeleton(Skeleton::new((0, 0)))).unwrap();
    assert!(ctx.holder.get(inactive).is_some());
    assert!(!ctx.globalEntityIter().contains(&inactive));
    assert!(!ctx.activeScreenEntityIter().contains(&inactive));
}

#[test]
fn saved_store_restores_the_same_entities() {
    let mut h = Holder::new();
    let p = h.add(Entity::Player(Player::new((10, 20))));
    let mut sk = Skeleton::new((30, 40));
    sk.register(IDRegistration::DeathCounter(p));
    let s = h.add(Entity::Skeleton(sk));
    let g = h.add(Entity::Generator(Generator::new((50, 50), vec![(Tile::gate(), (1, 2))], 3)));
    h.remove(p);
    let inner = h.toInner();
    assert_eq!(inner.currentId, 3);
    assert_eq!(inner.innerEntities.len(), 2);
    assert!(matches!(inner.innerEntities[0].1, InnerCode::Skeleton(_)));
    let restored = Holder::fromInner(inner).unwrap();
    assert!(restored.get(p).is_none());
    match restored.get(s) {
        Some(Entity::Skeleton(x)) => {
            assert_eq!(x.position, (30, 40));
            assert_eq!(x.id, s);
            assert_eq!(x.deathCounter, Some(DeathCounter::new(p)));
        },
        _ => panic!("skeleton not restored"),
    }
    match restored.get(g) {
        Some(Entity::Generator(x)) => {
            assert_eq!(x.cnt, 3);
            assert_eq!(x.tiles, vec![(Tile::gate(), (1, 2))]);
        },
        _ => panic!("generator not restored"),
    }
    assert_eq!(restored.getCurrentID(), ID::new(2, 0));
}

#[test]
fn malformed_save_is_refused() {
    let mut h = Holder::new();
    h.add(Entity::Player(Player::new((0, 0))));
    let mut inner = h.toInner();
    inner.currentId = 0;
    assert!(Holder::fromInner(inner).is_none());
}

use ninja_dungeon::parsing::{parse, AnimationError, FlipAnimation, ParsedAnimation};

const ANIMATIONS: &str = "Ground:\n\"ground0.png\"\r\n\"ground1.png\"\n\"ground0.png\"\n;\nWall:\n&Ground\n;\n";

#[test]
fn parse_reads_frames_and_flips() {
    let parsed = parse(ANIMATIONS, &["Ground", "Wall"]).unwrap();
    assert_eq!(parsed.len(), 2);
    match &parsed[0] {
        ParsedAnimation::Standard(paths, positions) => {
            assert_eq!(paths, &vec!["ground0.png", "ground1.png"]);
            assert_eq!(positions, &vec![0, 1, 0]);
        },
        _ => panic!("expected frames"),
    }
    assert!(matches!(parsed[1], ParsedAnimation::Flip(0)));
}

#[test]
fn parse_reports_a_missing_animation() {
    assert!(matches!(parse(ANIMATIONS, &["Ground", "Gate"]), Err(AnimationError::MissingAnimation(1))));
    assert!(matches!(parse("Empty:\n;\n", &["Empty"]), Err(AnimationError::MissingAnimation(0))));
}

#[test]
fn parse_reports_an_unknown_reference() {
    assert!(matches!(parse("Wall:\n&Nothing\n;\n", &["Wall"]), Err(AnimationError::UnknownReference("Nothing"))));
}

#[test]
fn parse_reports_missing_quotes() {
    assert!(matches!(parse("Ground:\nground0.png\n;\n", &["Ground"]), Err(AnimationError::MissingQuotes)));
    assert!(matches!(parse("Ground:\n\"ground0.png\n;\n", &["Ground"]), Err(AnimationError::MissingQuotes)));
}

#[test]
fn flip_animation_keeps_its_source() {
    assert_eq!(FlipAnimation::new(3).getIndex(), 3);
}

#[test]
fn vec2d_get_mut_writes_in_place() {
    let mut grid = Vec2d::new(vec![0, 1, 2, 3], 2);
    if let Some(cell) = grid.getMut(1, 0) {
        *cell = 7;
    }
    assert_eq!(*grid.index(1, 0), 7);
    assert!(grid.getMut(2, 0).is_none());
}

#[test]
fn map_steps_between_screens_by_id() {
    let mut map = TileMap::new();
    map.addScreen(2, 2, (0, 0));
    map.addScreen(2, 2, (2, 0));
    map.addScreen(2, 2, (4, 0));
    map.setCurrentScreen(0).unwrap();
    map.incrementCurrentScreen();
    assert_eq!(map.getActiveScreenId(), 1);
    map.incrementCurrentScreen();
    map.incrementCurrentScreen();
    assert_eq!(map.getActiveScreenId(), 2);
    map.decrementCurrentScreen();
    assert_eq!(map.getActiveScreenId(), 1);
    map.moveActiveScreen((9, 9));
    assert_eq!(map.getScreen(1).unwrap().getPosition(), (9, 9));
    assert_eq!(map.screenIds(), vec![0, 1, 2]);
}

#[test]
fn global_entity_at_position() {
    let mut map = TileMap::new();
    map.addScreen(17, 12, (0, 0));
    let ctx = GameContext::new(map, Player::new((100, 100)));
    assert_eq!(ctx.getEntityAtPositionGlobal(Rect::new(110, 110, 1, 1)), Some(ctx.getPlayerID()));
    assert_eq!(ctx.getEntityAtPositionGlobal(Rect::new(0, 0, 1, 1)), None);
}

#[test]
fn popping_screens_keeps_one() {
    let mut map = TileMap::new();
    map.addScreen(2, 2, (0, 0));
    assert!(map.popActiveScreen().is_none());
    map.addScreen(3, 3, (2, 0));
    map.addScreen(4, 4, (5, 0));
    let popped = map.popActiveScreen().unwrap();
    assert_eq!(popped.getDimensions(), (4, 4));
    assert_eq!(map.getActiveScreenId(), 1);
    assert!(map.getScreen(2).is_none());
    let second = map.popActiveScreen().unwrap();
    assert_eq!(second.getDimensions(), (3, 3));
    assert_eq!(map.getActiveScreenId(), 0);
    assert!(map.popActiveScreen().is_none());
}

#[test]
fn default_screen_is_empty() {
    let s = Screen::default();
    assert_eq!(s.getDimensions(), (0, 0));
    assert_eq!(s.getTile((0, 0)), Tile::OOB());
}

#[test]
fn entity_builder_rock_and_cannon() {
    let mut rock = EntityBuilder::new(5, (1, 1));
    assert!(matches!(rock.build(), EntityBuilderSignals::GetTile(_)));
    rock.addTile(Tile::default(), (2, 3));
    rock.addTile(Tile::default(), (2, 4));
    rock.endList();
    assert!(rock.locations.1);
    match rock.build() {
        EntityBuilderSignals::Complete(Entity::Rock(r)) => {
            assert_eq!(r.path, vec![(2, 3), (2, 4)]);
            assert_eq!(r.hitbox, Rect::new(100, 150, 50, 50));
        },
        _ => panic!("expected a rock"),
    }
    match EntityBuilder::new(6, (2, 2)).build() {
        EntityBuilderSignals::Complete(Entity::Cannon(c)) => assert_eq!(c.pos, (100, 100)),
        _ => panic!("expected a cannon"),
    }
}
