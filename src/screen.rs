use vstd::prelude::*;
use crate::id::{ID, Direction};
use crate::map::TileMap;
use crate::common::{clamp_i32, clamp_i64};
use crate::geometry::{Rect, Vec2d};
use crate::tile::{Tile, CollisionType, spec_oob};

verus! {

/// Side length of a tile, in pixels.
pub const TILE_SIZE: i32 = 50;

/// Indices of the neighbouring screens.
#[derive(Clone, Copy, Debug, PartialEq, Eq, Structural)]
pub struct Location {
    pub up: usize,
    pub down: usize,
    pub left: usize,
    pub right: usize,
}

impl Location {
    pub fn new(up: usize, down: usize, left: usize, right: usize) -> (r: Location)
        ensures
            r == (Location { up, down, left, right }),
    {
        Location { up, down, left, right }
    }
}

impl Default for Location {
    fn default() -> (r: Location)
        ensures
            r == (Location { up: 0, down: 0, left: 0, right: 0 }),
    {
        Location { up: 0, down: 0, left: 0, right: 0 }
    }
}

/// Walks the tile positions of a rectangle of cells row by row:
/// columns `startX..=endX`, rows from `y` up to `endY`.
#[derive(Clone, Copy, Debug, PartialEq, Eq, Structural)]
pub struct CollisionBounds {
    pub startX: u16,
    pub endX: u16,
    pub endY: u16,
    pub x: u16,
    pub y: u16,
}

impl CollisionBounds {
    /// The next position, or `None` once the rows are exhausted.
    pub fn next(&mut self) -> (r: Option<(u16, u16)>)
        requires
            old(self).endY < u16::MAX,
        ensures
            old(self).y > old(self).endY ==> r is None && *final(self) == *old(self),
            old(self).y <= old(self).endY ==> {
                &&& r == Some((old(self).x, old(self).y))
                &&& *final(self) == if old(self).x >= old(self).endX {
                    CollisionBounds { x: old(self).startX, y: (old(self).y + 1) as u16, ..*old(self) }
                } else {
                    CollisionBounds { x: (old(self).x + 1) as u16, ..*old(self) }
                }
            },
    {
        if self.y > self.endY {
            return None;
        }
        let result = Some((self.x, self.y));
        if self.x >= self.endX {
            self.x = self.startX;
            self.y = self.y + 1;
        } else {
            self.x = self.x + 1;
        }
        result
    }
}

/// The walk one step further: the next column, or the start of the next row.
pub open spec fn advance(b: CollisionBounds) -> CollisionBounds {
    if b.x >= b.endX {
        CollisionBounds { x: b.startX, y: (b.y + 1) as u16, ..b }
    } else {
        CollisionBounds { x: (b.x + 1) as u16, ..b }
    }
}

/// The positions a walk still yields, in order.
pub open spec fn walk(b: CollisionBounds) -> Seq<(u16, u16)>
    decreases b.endY + 1 - b.y, 65536 - b.x when b.endY < u16::MAX
{
    if b.y > b.endY {
        Seq::empty()
    } else {
        seq![(b.x, b.y)] + walk(advance(b))
    }
}

/// The tile index of pixel coordinate `p` on an axis of `n` tiles
/// (`floor(p / 50)`, clamped to `0..n`).
pub open spec fn tile_coord(p: int, n: int) -> int {
    if p < 0 {
        0
    } else if p / (TILE_SIZE as int) > n - 1 {
        n - 1
    } else {
        p / (TILE_SIZE as int)
    }
}

/// One screen of the map: a grid of tiles and the entities that live on it.
pub struct Screen {
    width: u16,
    height: u16,
    tiles: Vec2d<Tile>,
    entities: Vec<u64>,
    position: (u32, u32),
}

impl Screen {
    pub closed spec fn wf(&self) -> bool {
        &&& self.tiles.width == self.width as usize
        &&& self.tiles.cells@.len() == self.width as int * self.height as int
        &&& self.entities@.no_duplicates()
    }

    pub closed spec fn spec_width(&self) -> u16 {
        self.width
    }

    pub closed spec fn spec_height(&self) -> u16 {
        self.height
    }

    pub closed spec fn spec_position(&self) -> (u32, u32) {
        self.position
    }

    /// Indices of the entities on this screen, in the order they were added.
    pub closed spec fn spec_entities(&self) -> Seq<u64> {
        self.entities@
    }

    /// The tile at column `x`, row `y`; the out-of-bounds tile outside the grid.
    pub closed spec fn spec_tile(&self, x: int, y: int) -> Tile {
        if 0 <= x < self.width && 0 <= y < self.height {
            self.tiles.cells@[y * self.width as int + x]
        } else {
            spec_oob()
        }
    }

    /// A `width` x `height` screen of default tiles at `position`, with no entities.
    pub fn new(width: u16, height: u16, position: (u32, u32)) -> (r: Screen)
        ensures
            r.wf(),
            r.spec_width() == width,
            r.spec_height() == height,
            r.spec_position() == position,
            r.spec_entities() == Seq::<u64>::empty(),
            forall|x: int, y: int|
                0 <= x < width && 0 <= y < height ==> #[trigger] r.spec_tile(x, y) == Tile::spec_default(),
    {
        proof {
            assert(width as int * height as int <= 65535 * 65535) by (nonlinear_arith)
                requires width <= 65535, height <= 65535;
        }
        let n: usize = width as usize * height as usize;
        let mut v: Vec<Tile> = Vec::new();
        let mut i: usize = 0;
        while i < n
            invariant
                i <= n,
                v@.len() == i,
                forall|j: int| 0 <= j < i ==> v@[j] == Tile::spec_default(),
            decreases n - i,
        {
            v.push(Tile::default());
            i = i + 1;
        }
        let r = Screen {
            width,
            height,
            tiles: Vec2d::new(v, width as usize),
            entities: Vec::new(),
            position,
        };
        assert forall|x: int, y: int| 0 <= x < width && 0 <= y < height implies #[trigger] r.spec_tile(x, y) == Tile::spec_default() by {
            assert(y * width as int + x < width as int * height as int) by (nonlinear_arith)
                requires 0 <= x < width, 0 <= y < height;
            assert(0 <= y * width as int + x) by (nonlinear_arith)
                requires 0 <= x, 0 <= y, 0 <= width;
        }
        r
    }

    /// Puts the entity on this screen; false if it was there already.
    pub fn addEntity(&mut self, id: ID) -> (r: bool)
        requires
            old(self).wf(),
        ensures
            final(self).wf(),
            r == !old(self).spec_entities().contains(id.index),
            final(self).spec_entities() == if r {
                old(self).spec_entities().push(id.index)
            } else {
                old(self).spec_entities()
            },
            final(self).spec_width() == old(self).spec_width(),
            final(self).spec_height() == old(self).spec_height(),
            final(self).spec_position() == old(self).spec_position(),
            forall|x: int, y: int| #[trigger] final(self).spec_tile(x, y) == old(self).spec_tile(x, y),
    {
        let k = id.getID();
        let mut i: usize = 0;
        while i < self.entities.len()
            invariant
                i <= self.entities@.len(),
                self.wf(),
                *self == *old(self),
                k == id.index,
                forall|j: int| 0 <= j < i ==> self.entities@[j] != k,
            decreases self.entities@.len() - i,
        {
            if self.entities[i] == k {
                assert(self.entities@[i as int] == k);
                assert(self.entities@.contains(k));
                assert(k == id.index);
                assert(old(self).entities@.contains(k));
                return false;
            }
            i = i + 1;
        }
        self.entities.push(k);
        true
    }

    /// Takes the entity off this screen; false if it was not there.
    pub fn removeEntity(&mut self, id: ID) -> (r: bool)
        requires
            old(self).wf(),
        ensures
            final(self).wf(),
            r == old(self).spec_entities().contains(id.index),
            final(self).spec_entities() == old(self).spec_entities().filter(|e: u64| e != id.index),
            !final(self).spec_entities().contains(id.index),
            forall|e: u64| e != id.index ==> (final(self).spec_entities().contains(e) == old(self).spec_entities().contains(e)),
            final(self).spec_width() == old(self).spec_width(),
            final(self).spec_height() == old(self).spec_height(),
            final(self).spec_position() == old(self).spec_position(),
            forall|x: int, y: int| #[trigger] final(self).spec_tile(x, y) == old(self).spec_tile(x, y),
    {
        let k = id.getID();
        let mut i: usize = 0;
        while i < self.entities.len()
            invariant
                i <= self.entities@.len(),
                self.wf(),
                *self == *old(self),
                k == id.index,
                forall|j: int| 0 <= j < i ==> self.entities@[j] != k,
            decreases self.entities@.len() - i,
        {
            if self.entities[i] == k {
                let ghost before = self.entities@;
                self.entities.remove(i);
                proof {
                    assert(before[i as int] == k);
                    lemma_remove_unique(before, i as int, k);
                    assert(old(self).spec_entities().contains(id.index));
                }
                return true;
            }
            i = i + 1;
        }
        proof {
            lemma_filter_absent(self.entities@, k);
        }
        false
    }

    /// The entities on this screen, as owner identities, in the order they were added.
    pub fn getEntitiesIter(&self) -> (r: Vec<ID>)
        ensures
            r@.len() == self.spec_entities().len(),
            forall|i: int| 0 <= i < r@.len() ==> #[trigger] r@[i] == (ID { index: self.spec_entities()[i], sub: 0 }),
    {
        let mut r: Vec<ID> = Vec::new();
        let mut i: usize = 0;
        while i < self.entities.len()
            invariant
                i <= self.entities@.len(),
                r@.len() == i,
                forall|j: int| 0 <= j < i ==> #[trigger] r@[j] == (ID { index: self.entities@[j], sub: 0 }),
            decreases self.entities@.len() - i,
        {
            r.push(ID::new(self.entities[i], 0));
            i = i + 1;
        }
        r
    }

    /// Replaces the tile at column `position.0`, row `position.1`.
    pub fn replaceTile(&mut self, position: (u16, u16), replacement: Tile)
        requires
            old(self).wf(),
            position.0 < old(self).spec_width(),
            position.1 < old(self).spec_height(),
        ensures
            final(self).wf(),
            forall|x: int, y: int| #[trigger] final(self).spec_tile(x, y) == if x == position.0 && y == position.1 {
                replacement
            } else {
                old(self).spec_tile(x, y)
            },
            final(self).spec_entities() == old(self).spec_entities(),
            final(self).spec_width() == old(self).spec_width(),
            final(self).spec_height() == old(self).spec_height(),
            final(self).spec_position() == old(self).spec_position(),
    {
        let ghost w = self.width as int;
        let ghost h = self.height as int;
        let ghost px = position.0 as int;
        let ghost py = position.1 as int;
        proof {
            assert(py * w + px < w * h) by (nonlinear_arith)
                requires 0 <= px < w, 0 <= py < h;
        }
        let cell = self.tiles.indexMut(position.1 as usize, position.0 as usize);
        *cell = replacement;
        proof {
            assert forall|x: int, y: int| #[trigger] self.spec_tile(x, y) == if x == px && y == py {
                replacement
            } else {
                old(self).spec_tile(x, y)
            } by {
                if 0 <= x < w && 0 <= y < h && !(x == px && y == py) {
                    lemma_flat_distinct(x, y, px, py, w);
                    assert(0 <= y * w + x < w * h) by (nonlinear_arith)
                        requires 0 <= x < w, 0 <= y < h;
                    assert(self.tiles.cells@[y * w + x] == old(self).tiles.cells@[y * w + x]);
                } else if x == px && y == py {
                    assert(self.tiles.cells@[py * w + px] == replacement);
                }
            }
        }
    }

    /// The tile at column `position.0`, row `position.1`, or the out-of-bounds
    /// tile when the position lies outside the screen.
    pub fn getTile(&self, position: (u16, u16)) -> (r: Tile)
        requires
            self.wf(),
        ensures
            r == self.spec_tile(position.0 as int, position.1 as int),
            !(position.0 < self.spec_width() && position.1 < self.spec_height()) ==> r == spec_oob(),
    {
        if position.0 < self.width && position.1 < self.height {
            proof {
                let w = self.width as int;
                let h = self.height as int;
                let px = position.0 as int;
                let py = position.1 as int;
                assert(py * w + px < w * h) by (nonlinear_arith)
                    requires 0 <= px < w, 0 <= py < h;
            }
            *self.tiles.index(position.1 as usize, position.0 as usize)
        } else {
            Tile::OOB()
        }
    }

    pub fn moveToPosition(&mut self, position: (u32, u32))
        requires
            old(self).wf(),
        ensures
            final(self).wf(),
            final(self).spec_position() == position,
            final(self).spec_width() == old(self).spec_width(),
            final(self).spec_height() == old(self).spec_height(),
            final(self).spec_entities() == old(self).spec_entities(),
            forall|x: int, y: int| #[trigger] final(self).spec_tile(x, y) == old(self).spec_tile(x, y),
    {
        self.position = position;
    }

    pub fn getDimensions(&self) -> (r: (u16, u16))
        ensures
            r == (self.spec_width(), self.spec_height()),
    {
        (self.width, self.height)
    }

    /// Size of the screen in pixels.
    pub fn getMaxScreenCoords(&self) -> (r: (u32, u32))
        ensures
            r == ((self.spec_width() * 50) as u32, (self.spec_height() * 50) as u32),
    {
        (self.width as u32 * 50, self.height as u32 * 50)
    }

    /// The tile position that holds pixel `(px, py)`, clamped to the screen.
    pub fn pointToIndex(&self, px: i64, py: i64) -> (r: (u16, u16))
        requires
            self.spec_width() > 0,
            self.spec_height() > 0,
        ensures
            r.0 as int == tile_coord(px as int, self.spec_width() as int),
            r.1 as int == tile_coord(py as int, self.spec_height() as int),
    {
        (axis_index(px, self.width), axis_index(py, self.height))
    }

    /// The cells that a hitbox covers, from its top-left corner to its
    /// bottom-right corner `(x + w, y + h)`, both clamped to the screen.
    pub fn calculateCollisionBounds(&self, hitbox: Rect) -> (r: CollisionBounds)
        requires
            self.spec_width() > 0,
            self.spec_height() > 0,
        ensures
            r == spec_bounds(hitbox, self.spec_width() as int, self.spec_height() as int),
            r.endY < u16::MAX,
    {
        let (startX, y) = self.pointToIndex(hitbox.x as i64, hitbox.y as i64);
        let (endX, endY) = self.pointToIndex(hitbox.x as i64 + hitbox.w as i64, hitbox.y as i64 + hitbox.h as i64);
        CollisionBounds { x: startX, startX, endX, endY, y }
    }

    /// The next cell of `bounds` with its tile.
    pub fn collide(&self, bounds: &mut CollisionBounds) -> (r: Option<((u16, u16), Tile)>)
        requires
            self.wf(),
            old(bounds).endY < u16::MAX,
        ensures
            old(bounds).y > old(bounds).endY ==> r is None && *final(bounds) == *old(bounds),
            old(bounds).y <= old(bounds).endY ==> {
                &&& r == Some(((old(bounds).x, old(bounds).y), self.spec_tile(old(bounds).x as int, old(bounds).y as int)))
                &&& *final(bounds) == if old(bounds).x >= old(bounds).endX {
                    CollisionBounds { x: old(bounds).startX, y: (old(bounds).y + 1) as u16, ..*old(bounds) }
                } else {
                    CollisionBounds { x: (old(bounds).x + 1) as u16, ..*old(bounds) }
                }
            },
    {
        match bounds.next() {
            Some(location) => Some((location, self.getTile(location))),
            None => None,
        }
    }

    pub fn getPosition(&self) -> (r: (u32, u32))
        ensures
            r == self.spec_position(),
    {
        self.position
    }

    /// Where something leaving the screen at `from` (its top-left corner on
    /// the level) through its `direction` side at `center` enters this
    /// screen: on the opposite side, 3 pixels in from the far edge when
    /// going up or left, shifted by the offset between the two screens.
    pub fn entryPosition(&self, from: (u32, u32), center: (i64, i64), direction: Direction) -> (r: (i32, i32))
        requires
            -0x8000_0000 <= center.0 < 0x8000_0000,
            -0x8000_0000 <= center.1 < 0x8000_0000,
        ensures
            r == spec_entry(self.spec_position(), self.spec_width(), self.spec_height(), from, center, direction),
    {
        let vx: i64 = (from.0 as i64 - self.position.0 as i64) * 50;
        let vy: i64 = (from.1 as i64 - self.position.1 as i64) * 50;
        match direction {
            Direction::Up => (clamp_i64(center.0 + vx), self.height as i32 * 50 - 3),
            Direction::Down => (clamp_i64(center.0 + vx), 0),
            Direction::Left => (self.width as i32 * 50 - 3, clamp_i64(center.1 + vy)),
            Direction::Right => (0, clamp_i64(center.1 + vy)),
        }
    }

    /// When the tile under `center` (clamped to the screen) leads to another
    /// screen that exists, that screen and where `center` enters it.
    pub fn getScreen(&self, center: (i64, i64), map: &TileMap) -> (r: Option<(usize, (i32, i32))>)
        requires
            self.wf(),
            map.wf(),
            self.spec_width() > 0,
            self.spec_height() > 0,
            -0x8000_0000 <= center.0 < 0x8000_0000,
            -0x8000_0000 <= center.1 < 0x8000_0000,
        ensures
            r == spec_leads_to(*self, *map, center),
    {
        let cell = self.pointToIndex(center.0, center.1);
        match self.getTile(cell).collision {
            CollisionType::Transition(screen) => {
                let direction = if center.0 < 0 {
                    Direction::Left
                } else if center.0 >= self.width as i64 * 50 {
                    Direction::Right
                } else if center.1 < 0 {
                    Direction::Up
                } else {
                    Direction::Down
                };
                match map.getScreen(screen) {
                    Some(dst) => Some((screen, dst.entryPosition(self.position, center, direction))),
                    None => None,
                }
            },
            _ => None,
        }
    }
}

impl Default for Screen {
    /// An empty screen of no size at the origin.
    fn default() -> (r: Screen)
        ensures
            r.wf(),
            r.spec_width() == 0,
            r.spec_height() == 0,
            r.spec_position() == (0u32, 0u32),
            r.spec_entities().len() == 0,
    {
        Screen { width: 0, height: 0, tiles: Vec2d::new(Vec::new(), 0), entities: Vec::new(), position: (0, 0) }
    }
}

/// Where a point entering a screen at `position` of the given size arrives;
/// see `Screen::entryPosition`.
pub open spec fn spec_entry(position: (u32, u32), w: u16, h: u16, from: (u32, u32), center: (i64, i64), direction: Direction) -> (i32, i32) {
    let vx = (from.0 as int - position.0 as int) * 50;
    let vy = (from.1 as int - position.1 as int) * 50;
    match direction {
        Direction::Up => (clamp_i32(center.0 + vx), (h * 50 - 3) as i32),
        Direction::Down => (clamp_i32(center.0 + vx), 0i32),
        Direction::Left => ((w * 50 - 3) as i32, clamp_i32(center.1 + vy)),
        Direction::Right => (0i32, clamp_i32(center.1 + vy)),
    }
}

/// The side of a screen of `w` tiles across that a point outside it crossed.
pub open spec fn exit_side(w: u16, center: (i64, i64)) -> Direction {
    if center.0 < 0 {
        Direction::Left
    } else if center.0 >= w * 50 {
        Direction::Right
    } else if center.1 < 0 {
        Direction::Up
    } else {
        Direction::Down
    }
}

/// The screen (and entry point) that the tile under `center` leads to.
pub open spec fn spec_leads_to(s: Screen, map: TileMap, center: (i64, i64)) -> Option<(usize, (i32, i32))> {
    let x = tile_coord(center.0 as int, s.spec_width() as int);
    let y = tile_coord(center.1 as int, s.spec_height() as int);
    match s.spec_tile(x, y).collision {
        CollisionType::Transition(t) => match map.spec_screen(t) {
            Some(dst) => Some((t, spec_entry(dst.spec_position(), dst.spec_width(), dst.spec_height(), s.spec_position(), center, exit_side(s.spec_width(), center)))),
            None => None,
        },
        _ => None,
    }
}

/// The walk over the cells that `hitbox` covers on a `w` x `h` screen.
pub open spec fn spec_bounds(hitbox: Rect, w: int, h: int) -> CollisionBounds {
    let sx = tile_coord(hitbox.x as int, w);
    let sy = tile_coord(hitbox.y as int, h);
    CollisionBounds {
        startX: sx as u16,
        x: sx as u16,
        y: sy as u16,
        endX: tile_coord(hitbox.x as int + hitbox.w as int, w) as u16,
        endY: tile_coord(hitbox.y as int + hitbox.h as int, h) as u16,
    }
}

pub(crate) fn axis_index(p: i64, n: u16) -> (r: u16)
    requires
        n > 0,
    ensures
        r as int == tile_coord(p as int, n as int),
{
    if p < 0 {
        0
    } else if p / 50 > n as i64 - 1 {
        n - 1
    } else {
        (p / 50) as u16
    }
}

pub(crate) proof fn lemma_flat_distinct(x: int, y: int, px: int, py: int, w: int)
    requires
        0 <= x < w,
        0 <= px < w,
        0 <= y,
        0 <= py,
        !(x == px && y == py),
    ensures
        y * w + x != py * w + px,
{
    if y == py {
    } else if y < py {
        assert(y * w + w <= py * w) by (nonlinear_arith)
            requires y < py, 0 <= w;
    } else {
        assert(py * w + w <= y * w) by (nonlinear_arith)
            requires py < y, 0 <= w;
    }
}

pub(crate) proof fn lemma_remove_unique(s: Seq<u64>, i: int, k: u64)
    requires
        0 <= i < s.len(),
        s[i] == k,
        s.no_duplicates(),
    ensures
        s.remove(i) == s.filter(|e: u64| e != k),
        s.remove(i).no_duplicates(),
        !s.remove(i).contains(k),
        forall|e: u64| e != k ==> (s.remove(i).contains(e) == s.contains(e)),
{
    let f = |e: u64| e != k;
    let t = s.remove(i);
    assert(s == s.subrange(0, i).push(k) + s.subrange(i + 1, s.len() as int));
    assert(t == s.subrange(0, i) + s.subrange(i + 1, s.len() as int));
    lemma_filter_absent(s.subrange(0, i), k);
    lemma_filter_absent(s.subrange(i + 1, s.len() as int), k);
    Seq::filter_distributes_over_add(s.subrange(0, i).push(k), s.subrange(i + 1, s.len() as int), f);
    s.subrange(0, i).lemma_filter_push(k, f)
    ;
    assert forall|e: u64| e != k implies (t.contains(e) == s.contains(e)) by {
        if s.contains(e) {
            let j = choose|j: int| 0 <= j < s.len() && s[j] == e;
            if j < i {
                assert(t[j] == e);
            } else {
                assert(j != i);
                assert(t[j - 1] == e);
            }
        }
    }
}

pub(crate) proof fn lemma_filter_absent(s: Seq<u64>, k: u64)
    requires
        forall|j: int| 0 <= j < s.len() ==> s[j] != k,
    ensures
        s.filter(|e: u64| e != k) == s,
    decreases s.len(),
{
    let f = |e: u64| e != k;
    if s.len() > 0 {
        lemma_filter_absent(s.drop_last(), k);
        assert(s == s.drop_last().push(s.last()));
        s.drop_last().lemma_filter_push(s.last(), f);
    } else {
        assert(s.filter(f) =~= s);
    }
}

} // verus!
