use vstd::prelude::*;
use crate::id::{ID, Direction};
use crate::geometry::{Rect, rects_intersect};
use crate::tile::{Tile, CollisionType};
use crate::map::TileMap;
use crate::message::Command;

verus! {

/// Damage of the tiles a snake leaves behind.
pub const SNAKE_DAMAGE: i32 = -12;

/// Frames between two moves of a snake.
pub const SNAKE_PERIOD: u16 = 60;

/// An enemy that crawls one tile at a time toward the player, leaving a
/// harmful body of tiles behind.
pub struct Snake {
    pub id: ID,
    pub dir: Direction,
    pub pos: (u16, u16),
    pub editorRender: Rect,
    /// Counts frames up to the next move; `u16::MAX` until the first tick.
    pub timer: u16,
}

/// What a snake decided in the read half of a frame.
#[derive(Clone, Copy, Debug, PartialEq, Eq)]
pub struct SnakeData {
    pub dir: Direction,
    pub pos: (u16, u16),
}

/// Plain data of a snake, for saving.
#[derive(Clone, Copy, Debug, PartialEq, Eq)]
pub struct InnerSnake {
    pub id: ID,
    pub dir: Direction,
    pub pos: (u16, u16),
}

/// The neighbouring tile position in a direction (coordinates wrap around).
pub open spec fn next_pos(pos: (u16, u16), dir: Direction) -> (u16, u16) {
    match dir {
        Direction::Up => (pos.0, if pos.1 == 0 { u16::MAX } else { (pos.1 - 1) as u16 }),
        Direction::Down => (pos.0, if pos.1 == u16::MAX { 0 } else { (pos.1 + 1) as u16 }),
        Direction::Left => (if pos.0 == 0 { u16::MAX } else { (pos.0 - 1) as u16 }, pos.1),
        Direction::Right => (if pos.0 == u16::MAX { 0 } else { (pos.0 + 1) as u16 }, pos.1),
    }
}

/// The directions a snake tries, best first, for the offset to the player:
/// along the longer axis toward the player, then the other axis toward the
/// player, then that axis away, then away along the longer axis.
pub open spec fn direction_order(dx: int, dy: int) -> Seq<Direction> {
    let horizontal = (if dx < 0 { -dx } else { dx }) > (if dy < 0 { -dy } else { dy });
    let right = dx > 0;
    let down = dy > 0;
    if horizontal {
        if right {
            if down {
                seq![Direction::Right, Direction::Down, Direction::Up, Direction::Left]
            } else {
                seq![Direction::Right, Direction::Up, Direction::Down, Direction::Left]
            }
        } else {
            if down {
                seq![Direction::Left, Direction::Up, Direction::Down, Direction::Right]
            } else {
                seq![Direction::Left, Direction::Down, Direction::Up, Direction::Right]
            }
        }
    } else {
        if right {
            if down {
                seq![Direction::Down, Direction::Right, Direction::Left, Direction::Up]
            } else {
                seq![Direction::Up, Direction::Right, Direction::Left, Direction::Down]
            }
        } else {
            if down {
                seq![Direction::Down, Direction::Left, Direction::Right, Direction::Up]
            } else {
                seq![Direction::Up, Direction::Left, Direction::Right, Direction::Down]
            }
        }
    }
}

/// Whether a snake can crawl onto a tile.
pub open spec fn passable(t: Tile) -> bool {
    !(t.collision is Block || t.collision is Hit)
}

/// The first direction of `order` whose neighbouring tile is passable.
pub open spec fn first_passable(order: Seq<Direction>, map: TileMap, pos: (u16, u16)) -> Option<Direction>
    decreases order.len(),
{
    if order.len() == 0 {
        None
    } else {
        let n = next_pos(pos, order[0]);
        if passable(map.spec_active_tile(n.0 as int, n.1 as int)) {
            Some(order[0])
        } else {
            first_passable(order.drop_first(), map, pos)
        }
    }
}

pub open spec fn body_offset(a: Direction, b: Direction) -> u16 {
    match (a, b) {
        (Direction::Left, Direction::Right) | (Direction::Right, Direction::Left) | (Direction::Left, Direction::Left) | (Direction::Right, Direction::Right) => 0,
        (Direction::Up, Direction::Down) | (Direction::Down, Direction::Up) | (Direction::Up, Direction::Up) | (Direction::Down, Direction::Down) => 1,
        (Direction::Right, Direction::Up) | (Direction::Down, Direction::Left) => 2,
        (Direction::Right, Direction::Down) | (Direction::Up, Direction::Left) => 3,
        (Direction::Left, Direction::Up) | (Direction::Down, Direction::Right) => 4,
        _ => 5,
    }
}

pub open spec fn head_offset(d: Direction) -> u16 {
    match d {
        Direction::Right => 0,
        Direction::Left => 1,
        Direction::Up => 2,
        Direction::Down => 3,
    }
}

impl Snake {
    pub open spec fn spec_new(pos: (u16, u16), dir: Direction) -> Snake {
        Snake {
            id: ID::spec_empty(),
            dir,
            pos,
            editorRender: Rect { x: (pos.0 * 50) as i32, y: (pos.1 * 50) as i32, w: 50, h: 50 },
            timer: u16::MAX,
        }
    }

    /// What a snake does in the read half of a frame, given the player's
    /// position at the start of the frame: the planned state and the tiles it
    /// asks to place.
    pub open spec fn planned(&self, map: TileMap, player: Option<(i32, i32)>) -> (SnakeData, Seq<Command>) {
        let stay = SnakeData { dir: self.dir, pos: self.pos };
        match player {
            None => (stay, Seq::empty()),
            Some(p) => {
                let dx = p.0 as int - self.pos.0 as int * 50;
                let dy = p.1 as int - self.pos.1 as int * 50;
                match first_passable(direction_order(dx, dy), map, self.pos) {
                    None => (stay, Seq::empty()),
                    Some(d) => (
                        SnakeData { dir: d, pos: next_pos(self.pos, d) },
                        seq![
                            Command::PlaceTile(Tile { id: (9 + body_offset(self.dir, d)) as u16, collision: CollisionType::Hit(SNAKE_DAMAGE) }, self.pos),
                            Command::PlaceTile(Tile { id: (5 + head_offset(d)) as u16, collision: CollisionType::Hit(SNAKE_DAMAGE) }, next_pos(self.pos, d)),
                        ],
                    ),
                }
            },
        }
    }

    pub fn new(pos: (u16, u16), dir: Direction) -> (r: Snake)
        ensures
            r.id == ID::spec_empty(),
            r.dir == dir,
            r.pos == pos,
            r.editorRender == (Rect { x: (pos.0 * 50) as i32, y: (pos.1 * 50) as i32, w: 50, h: 50 }),
            r.timer == u16::MAX,
    {
        Snake {
            id: ID::empty(),
            dir,
            pos,
            editorRender: Rect::new(pos.0 as i32 * 50, pos.1 as i32 * 50, 50, 50),
            timer: u16::MAX,
        }
    }

    pub fn fromInner(inner: InnerSnake) -> (r: Snake)
        ensures
            r.id == inner.id,
            r.dir == inner.dir,
            r.pos == inner.pos,
            r.timer == u16::MAX,
    {
        let mut s = Snake::new(inner.pos, inner.dir);
        s.id = inner.id;
        s
    }

    pub fn toInner(&self) -> (r: InnerSnake)
        ensures
            r == (InnerSnake { id: self.id, dir: self.dir, pos: self.pos }),
    {
        InnerSnake { id: self.id, dir: self.dir, pos: self.pos }
    }

    pub fn collidesStatic(&self, hitbox: Rect) -> (r: bool)
        ensures
            r == rects_intersect(self.editorRender, hitbox),
    {
        self.editorRender.has_intersection(hitbox)
    }

    pub fn nextPos(pos: (u16, u16), dir: Direction) -> (r: (u16, u16))
        ensures
            r == next_pos(pos, dir),
    {
        match dir {
            Direction::Up => (pos.0, if pos.1 == 0 { u16::MAX } else { pos.1 - 1 }),
            Direction::Down => (pos.0, if pos.1 == u16::MAX { 0 } else { pos.1 + 1 }),
            Direction::Left => (if pos.0 == 0 { u16::MAX } else { pos.0 - 1 }, pos.1),
            Direction::Right => (if pos.0 == u16::MAX { 0 } else { pos.0 + 1 }, pos.1),
        }
    }

    fn order(dx: i64, dy: i64) -> (r: [Direction; 4])
        requires
            -0x1_0000_0000 < dx < 0x1_0000_0000,
            -0x1_0000_0000 < dy < 0x1_0000_0000,
        ensures
            r@ == direction_order(dx as int, dy as int),
    {
        let ax = if dx < 0 { -dx } else { dx };
        let ay = if dy < 0 { -dy } else { dy };
        let r = match (ax > ay, dx > 0, dy > 0) {
            (true, true, true) => [Direction::Right, Direction::Down, Direction::Up, Direction::Left],
            (true, true, false) => [Direction::Right, Direction::Up, Direction::Down, Direction::Left],
            (true, false, true) => [Direction::Left, Direction::Up, Direction::Down, Direction::Right],
            (true, false, false) => [Direction::Left, Direction::Down, Direction::Up, Direction::Right],
            (false, true, true) => [Direction::Down, Direction::Right, Direction::Left, Direction::Up],
            (false, true, false) => [Direction::Up, Direction::Right, Direction::Left, Direction::Down],
            (false, false, true) => [Direction::Down, Direction::Left, Direction::Right, Direction::Up],
            (false, false, false) => [Direction::Up, Direction::Left, Direction::Right, Direction::Down],
        };
        assert(r@ =~= direction_order(dx as int, dy as int));
        r
    }

    /// The first direction, in the order the offset to the player gives, whose
    /// neighbouring tile the snake can crawl onto.
    pub fn determineMovementDirection(toPlayer: (i64, i64), pos: (u16, u16), map: &TileMap) -> (r: Option<Direction>)
        requires
            map.wf(),
            -0x1_0000_0000 < toPlayer.0 < 0x1_0000_0000,
            -0x1_0000_0000 < toPlayer.1 < 0x1_0000_0000,
        ensures
            r == first_passable(direction_order(toPlayer.0 as int, toPlayer.1 as int), *map, pos),
    {
        let order = Self::order(toPlayer.0, toPlayer.1);
        let ghost all = order@;
        assert(all.subrange(0, 4) =~= all);
        let mut i: usize = 0;
        while i < 4
            invariant
                i <= 4,
                all.len() == 4,
                order@ == all,
                all == direction_order(toPlayer.0 as int, toPlayer.1 as int),
                map.wf(),
                first_passable(all, *map, pos) == first_passable(all.subrange(i as int, 4), *map, pos),
            decreases 4 - i,
        {
            let d = order[i];
            let n = Self::nextPos(pos, d);
            let t = map.getTile(n);
            proof {
                assert(all.subrange(i as int, 4).drop_first() =~= all.subrange(i as int + 1, 4));
                assert(all.subrange(i as int, 4)[0] == d);
                assert(t == map.spec_active_tile(n.0 as int, n.1 as int));
            }
            match t.collision {
                CollisionType::Block | CollisionType::Hit(_) => {},
                _ => {
                    return Some(d);
                },
            }
            i = i + 1;
        }
        assert(all.subrange(4, 4).len() == 0);
        None
    }

    pub fn snakeTile(dir1: Direction, dir2: Direction) -> (r: Tile)
        ensures
            r == (Tile { id: (9 + body_offset(dir1, dir2)) as u16, collision: CollisionType::Hit(SNAKE_DAMAGE) }),
    {
        let offset: u16 = match (dir1, dir2) {
            (Direction::Left, Direction::Right) | (Direction::Right, Direction::Left) | (Direction::Left, Direction::Left) | (Direction::Right, Direction::Right) => 0,
            (Direction::Up, Direction::Down) | (Direction::Down, Direction::Up) | (Direction::Up, Direction::Up) | (Direction::Down, Direction::Down) => 1,
            (Direction::Right, Direction::Up) | (Direction::Down, Direction::Left) => 2,
            (Direction::Right, Direction::Down) | (Direction::Up, Direction::Left) => 3,
            (Direction::Left, Direction::Up) | (Direction::Down, Direction::Right) => 4,
            _ => 5,
        };
        Tile::new(9 + offset, CollisionType::Hit(SNAKE_DAMAGE))
    }

    pub fn snakeHeadTile(dir: Direction) -> (r: Tile)
        ensures
            r == (Tile { id: (5 + head_offset(dir)) as u16, collision: CollisionType::Hit(SNAKE_DAMAGE) }),
    {
        let offset: u16 = match dir {
            Direction::Right => 0,
            Direction::Left => 1,
            Direction::Up => 2,
            Direction::Down => 3,
        };
        Tile::new(5 + offset, CollisionType::Hit(SNAKE_DAMAGE))
    }

    /// The read half of a frame: picks the next tile and queues the body and
    /// head tiles there; stays when no direction is open or there is no player.
    pub fn getData(&self, map: &TileMap, player: Option<(i32, i32)>, commands: &mut Vec<Command>) -> (r: SnakeData)
        requires
            map.wf(),
        ensures
            r == self.planned(*map, player).0,
            final(commands)@ == old(commands)@ + self.planned(*map, player).1,
    {
        let stay = SnakeData { dir: self.dir, pos: self.pos };
        match player {
            None => {
                assert(commands@ =~= commands@ + Seq::<Command>::empty());
                stay
            },
            Some(p) => {
                let dx: i64 = p.0 as i64 - self.pos.0 as i64 * 50;
                let dy: i64 = p.1 as i64 - self.pos.1 as i64 * 50;
                match Self::determineMovementDirection((dx, dy), self.pos, map) {
                    None => {
                        assert(commands@ =~= commands@ + Seq::<Command>::empty());
                        stay
                    },
                    Some(d) => {
                        let next = Self::nextPos(self.pos, d);
                        let ghost start = commands@;
                        commands.push(Command::PlaceTile(Self::snakeTile(self.dir, d), self.pos));
                        commands.push(Command::PlaceTile(Self::snakeHeadTile(d), next));
                        assert(commands@ =~= start + self.planned(*map, player).1);
                        SnakeData { dir: d, pos: next }
                    },
                }
            },
        }
    }

    pub fn update(&mut self, data: &SnakeData)
        ensures
            *final(self) == (Snake { dir: data.dir, pos: data.pos, ..*old(self) }),
    {
        self.dir = data.dir;
        self.pos = data.pos;
    }

    /// A snake moves once every `SNAKE_PERIOD` frames.
    pub fn needsExecution(&self) -> (r: bool)
        ensures
            r == (self.timer == SNAKE_PERIOD - 1),
    {
        self.timer == SNAKE_PERIOD - 1
    }

    pub fn tick(&mut self)
        ensures
            *final(self) == (Snake {
                timer: if old(self).timer == u16::MAX || old(self).timer + 1 == SNAKE_PERIOD {
                    0
                } else {
                    (old(self).timer + 1) as u16
                },
                ..*old(self)
            }),
    {
        if self.timer == u16::MAX {
            self.timer = 0;
        } else {
            self.timer = self.timer + 1;
            if self.timer == SNAKE_PERIOD {
                self.timer = 0;
            }
        }
    }
}

} // verus!
