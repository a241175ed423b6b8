use vstd::prelude::*;
use crate::id::ID;
use crate::geometry::{Rect, Vec2d, rects_intersect};
use crate::screen::{tile_coord, axis_index, lemma_flat_distinct};

verus! {

/// What a grid cell holds: the last hitbox written to it, with its owner.
#[derive(Clone, Copy, Debug, PartialEq, Eq, Structural)]
pub struct EntityHitbox {
    pub id: ID,
    pub hitbox: Rect,
}

pub open spec fn spec_empty_hitbox() -> EntityHitbox {
    EntityHitbox { id: ID::spec_empty(), hitbox: Rect { x: 0, y: 0, w: 0, h: 0 } }
}

impl EntityHitbox {
    pub fn empty() -> (r: EntityHitbox)
        ensures
            r == spec_empty_hitbox(),
    {
        EntityHitbox { id: ID::empty(), hitbox: Rect::new(0, 0, 0, 0) }
    }

    pub fn isEmpty(&self) -> (r: bool)
        ensures
            r == (self.id == ID::spec_empty()),
    {
        self.id.isEmpty()
    }
}

/// Whether cell `(x, y)` of a `w` x `h` grid lies under `hb`: the cells from
/// its top-left corner to its corner `(x + w, y + h)`, clamped to the grid.
pub open spec fn covers(w: int, h: int, hb: Rect, x: int, y: int) -> bool {
    &&& tile_coord(hb.x as int, w) <= x <= tile_coord(hb.x as int + hb.w as int, w)
    &&& tile_coord(hb.y as int, h) <= y <= tile_coord(hb.y as int + hb.h as int, h)
}

/// The identities of a candidate pair: (observer, other).
pub open spec fn pair_ids(p: (EntityHitbox, EntityHitbox)) -> (ID, ID) {
    (p.0.id, p.1.id)
}

/// The others of `id` among the candidate pairs whose two recorded hitboxes
/// overlap, in the order in which the pairs were recorded.
pub open spec fn collision_list(c: Seq<(EntityHitbox, EntityHitbox)>, id: ID) -> Seq<ID>
    decreases c.len(),
{
    if c.len() == 0 {
        Seq::empty()
    } else {
        let rest = collision_list(c.drop_last(), id);
        let p = c.last();
        if p.0.id == id && rects_intersect(p.0.hitbox, p.1.hitbox) {
            rest.push(p.1.id)
        } else {
            rest
        }
    }
}

/// The identity pairs of a sequence of candidate pairs.
pub open spec fn ids_of(c: Seq<(EntityHitbox, EntityHitbox)>) -> Set<(ID, ID)> {
    Set::new(|p: (ID, ID)| exists|i: int| 0 <= i < c.len() && #[trigger] pair_ids(c[i]) == p)
}

/// Candidates stored as adjacent mirror images: pair `2k + 1` is pair `2k` swapped.
pub open spec fn mirrored(c: Seq<(EntityHitbox, EntityHitbox)>) -> bool {
    &&& c.len() % 2 == 0
    &&& forall|k: int| 0 <= k && 2 * k + 1 < c.len() ==> #[trigger] c[2 * k + 1] == (c[2 * k].1, c[2 * k].0)
}

/// No pair of identities is recorded twice, and no identity is its own candidate.
pub open spec fn distinct_pairs(c: Seq<(EntityHitbox, EntityHitbox)>) -> bool {
    &&& forall|i: int, j: int| 0 <= i < j < c.len() ==> pair_ids(c[i]) != pair_ids(c[j])
    &&& forall|i: int| 0 <= i < c.len() ==> (#[trigger] c[i]).0.id != c[i].1.id
}

/// The broad-phase collision index: a grid that remembers the last hitbox
/// written to each cell, and the candidate pairs found this frame.
pub struct CollisionIndex {
    grid: Vec2d<EntityHitbox>,
    height: usize,
    candidates: Vec<(EntityHitbox, EntityHitbox)>,
}

impl CollisionIndex {
    pub closed spec fn wf(&self) -> bool {
        &&& 0 < self.grid.width < 65536
        &&& 0 < self.height < 65535
        &&& self.grid.cells@.len() == self.grid.width * self.height
        &&& mirrored(self.candidates@)
        &&& distinct_pairs(self.candidates@)
    }

    pub closed spec fn spec_width(&self) -> int {
        self.grid.width as int
    }

    pub closed spec fn spec_height(&self) -> int {
        self.height as int
    }

    /// The content of cell `(x, y)`.
    pub closed spec fn cell(&self, x: int, y: int) -> EntityHitbox {
        self.grid.cells@[y * self.grid.width as int + x]
    }

    /// The candidate pairs, in the order they were recorded.
    pub closed spec fn spec_candidates(&self) -> Seq<(EntityHitbox, EntityHitbox)> {
        self.candidates@
    }

    /// The recorded candidate pairs, as pairs of identities.
    pub open spec fn candidate_ids(&self) -> Set<(ID, ID)> {
        ids_of(self.spec_candidates())
    }

    pub open spec fn in_grid(&self, x: int, y: int) -> bool {
        0 <= x < self.spec_width() && 0 <= y < self.spec_height()
    }

    /// Cell `(x, y)` once the cells under `prev` that `id` held are emptied.
    pub open spec fn cleared_cell(&self, id: ID, prev: Rect, x: int, y: int) -> EntityHitbox {
        if covers(self.spec_width(), self.spec_height(), prev, x, y) && self.cell(x, y).id == id {
            spec_empty_hitbox()
        } else {
            self.cell(x, y)
        }
    }

    /// The pairs that writing `hb` for `id` records: `id` with every other
    /// non-empty owner of a cell under `hb` (after `prev` was cleared), both ways.
    pub open spec fn met_by(&self, id: ID, hb: Rect, prev: Rect) -> Set<(ID, ID)> {
        self.met_upto(id, hb, prev, 0, self.spec_height())
    }

    /// The part of `met_by` that comes from the cells a row-by-row walk has
    /// passed when it stands at column `cx` of row `cy`.
    pub open spec fn met_upto(&self, id: ID, hb: Rect, prev: Rect, cx: int, cy: int) -> Set<(ID, ID)> {
        Set::new(|p: (ID, ID)| exists|x: int, y: int| {
            &&& #[trigger] covers(self.spec_width(), self.spec_height(), hb, x, y)
            &&& self.in_grid(x, y)
            &&& Self::walked(x, y, cx, cy)
            &&& !(#[trigger] self.cleared_cell(id, prev, x, y)).id.spec_is_empty()
            &&& self.cleared_cell(id, prev, x, y).id != id
            &&& (p == (id, self.cleared_cell(id, prev, x, y).id) || p == (self.cleared_cell(id, prev, x, y).id, id))
        })
    }

    /// Whether `t` is the content of a cell under `hb` (after `prev` was
    /// cleared) that some other entity owns.
    pub open spec fn met_cell(&self, id: ID, hb: Rect, prev: Rect, t: EntityHitbox) -> bool {
        exists|x: int, y: int| {
            &&& covers(self.spec_width(), self.spec_height(), hb, x, y)
            &&& self.in_grid(x, y)
            &&& #[trigger] self.cleared_cell(id, prev, x, y) == t
            &&& !t.id.spec_is_empty()
            &&& t.id != id
        }
    }

    /// The candidate at position `i`, appended by writing `hb` for `id` over
    /// `before`: at an even position `id`'s new hitbox with a cell it met, at
    /// an odd one the mirror image of the pair before it.
    pub open spec fn new_pair(&self, before: CollisionIndex, id: ID, hb: Rect, prev: Rect, i: int) -> bool {
        let c = self.spec_candidates();
        if i % 2 == 0 {
            c[i].0 == (EntityHitbox { id, hitbox: hb }) && before.met_cell(id, hb, prev, c[i].1)
        } else {
            c[i] == (c[i - 1].1, c[i - 1].0)
        }
    }

    /// An empty index over a `width` x `height` grid of cells.
    pub fn new(width: u16, height: u16) -> (r: CollisionIndex)
        requires
            width > 0,
            0 < height < 65535,
        ensures
            r.wf(),
            r.spec_width() == width,
            r.spec_height() == height,
            r.spec_candidates() == Seq::<(EntityHitbox, EntityHitbox)>::empty(),
            forall|x: int, y: int| r.in_grid(x, y) ==> #[trigger] r.cell(x, y) == spec_empty_hitbox(),
    {
        proof {
            assert(width as int * height as int <= 65535 * 65535) by (nonlinear_arith)
                requires width <= 65535, height <= 65535;
        }
        let n: usize = width as usize * height as usize;
        let mut v: Vec<EntityHitbox> = Vec::new();
        let mut i: usize = 0;
        while i < n
            invariant
                i <= n,
                v@.len() == i,
                forall|j: int| 0 <= j < i ==> v@[j] == spec_empty_hitbox(),
            decreases n - i,
        {
            v.push(EntityHitbox::empty());
            i = i + 1;
        }
        let r = CollisionIndex { grid: Vec2d::new(v, width as usize), height: height as usize, candidates: Vec::new() };
        assert forall|x: int, y: int| r.in_grid(x, y) implies #[trigger] r.cell(x, y) == spec_empty_hitbox() by {
            assert(0 <= y * width as int + x < width as int * height as int) by (nonlinear_arith)
                requires 0 <= x < width, 0 <= y < height;
        }
        r
    }

    /// Candidate pairs are symmetric: whenever `(a, b)` is recorded, so is `(b, a)`.
    pub proof fn candidate_symmetry(&self, a: ID, b: ID)
        requires
            self.wf(),
            self.candidate_ids().contains((a, b)),
        ensures
            self.candidate_ids().contains((b, a)),
    {
        let i = choose|i: int| 0 <= i < self.candidates@.len() && #[trigger] pair_ids(self.candidates@[i]) == (a, b);
        lemma_mirror_of(self.candidates@, i);
    }

    /// Cell `(x, y)` is in the part of a row-by-row walk already done when
    /// the walk stands at column `cx` of row `cy`.
    pub open spec fn walked(x: int, y: int, cx: int, cy: int) -> bool {
        y < cy || (y == cy && x < cx)
    }

    proof fn lemma_cell_index(&self, x: int, y: int)
        requires
            self.wf(),
            self.in_grid(x, y),
        ensures
            0 <= y * self.grid.width as int + x < self.grid.cells@.len(),
    {
        let w = self.grid.width as int;
        let h = self.height as int;
        assert(0 <= y * w + x < w * h) by (nonlinear_arith)
            requires 0 <= x < w, 0 <= y < h;
    }

    /// The corner cells of what `hb` covers: (first column, last column, first row, last row).
    fn cover_range(&self, hb: Rect) -> (r: (usize, usize, usize, usize))
        requires
            self.wf(),
        ensures
            r.0 as int == tile_coord(hb.x as int, self.spec_width()),
            r.1 as int == tile_coord(hb.x as int + hb.w as int, self.spec_width()),
            r.2 as int == tile_coord(hb.y as int, self.spec_height()),
            r.3 as int == tile_coord(hb.y as int + hb.h as int, self.spec_height()),
            r.0 <= r.1 < self.spec_width(),
            r.2 <= r.3 < self.spec_height(),
    {
        let w = self.grid.width as u16;
        let h = self.height as u16;
        let sx = axis_index(hb.x as i64, w);
        let ex = axis_index(hb.x as i64 + hb.w as i64, w);
        let sy = axis_index(hb.y as i64, h);
        let ey = axis_index(hb.y as i64 + hb.h as i64, h);
        proof {
            lemma_tile_coord_mono(hb.x as int, hb.x as int + hb.w as int, w as int);
            lemma_tile_coord_mono(hb.y as int, hb.y as int + hb.h as int, h as int);
        }
        (sx as usize, ex as usize, sy as usize, ey as usize)
    }

    /// Empties the cells under `hb` that `id` holds.
    fn clear_cells(&mut self, id: ID, hb: Rect)
        requires
            old(self).wf(),
        ensures
            final(self).wf(),
            final(self).spec_width() == old(self).spec_width(),
            final(self).spec_height() == old(self).spec_height(),
            final(self).spec_candidates() == old(self).spec_candidates(),
            forall|x: int, y: int| final(self).in_grid(x, y) ==> #[trigger] final(self).cell(x, y) == old(self).cleared_cell(id, hb, x, y),
    {
        let ghost before = *self;
        let (sx, ex, sy, ey) = self.cover_range(hb);
        let mut y: usize = sy;
        while y <= ey
            invariant
                self.wf(),
                sy <= y <= ey + 1,
                ey < self.spec_height(),
                sx <= ex < self.spec_width(),
                sx as int == tile_coord(hb.x as int, self.spec_width()),
                ex as int == tile_coord(hb.x as int + hb.w as int, self.spec_width()),
                sy as int == tile_coord(hb.y as int, self.spec_height()),
                ey as int == tile_coord(hb.y as int + hb.h as int, self.spec_height()),
                self.spec_width() == before.spec_width(),
                self.spec_height() == before.spec_height(),
                self.spec_candidates() == before.spec_candidates(),
                forall|x: int, yy: int| self.in_grid(x, yy) ==> #[trigger] self.cell(x, yy) == if yy < y {
                    before.cleared_cell(id, hb, x, yy)
                } else {
                    before.cell(x, yy)
                },
            decreases ey + 1 - y,
        {
            let mut x: usize = sx;
            while x <= ex
                invariant
                    self.wf(),
                    sy <= y <= ey,
                    sx <= x <= ex + 1,
                    ey < self.spec_height(),
                    ex < self.spec_width(),
                    sx as int == tile_coord(hb.x as int, self.spec_width()),
                    ex as int == tile_coord(hb.x as int + hb.w as int, self.spec_width()),
                    sy as int == tile_coord(hb.y as int, self.spec_height()),
                    ey as int == tile_coord(hb.y as int + hb.h as int, self.spec_height()),
                    self.spec_width() == before.spec_width(),
                    self.spec_height() == before.spec_height(),
                    self.spec_candidates() == before.spec_candidates(),
                    forall|xx: int, yy: int| self.in_grid(xx, yy) ==> #[trigger] self.cell(xx, yy) == if Self::walked(xx, yy, x as int, y as int) {
                        before.cleared_cell(id, hb, xx, yy)
                    } else {
                        before.cell(xx, yy)
                    },
                decreases ex + 1 - x,
            {
                proof {
                    self.lemma_cell_index(x as int, y as int);
                }
                let ghost prev = *self;
                let held = self.grid.index(y, x).id;
                if held == id {
                    let cell = self.grid.indexMut(y, x);
                    *cell = EntityHitbox::empty();
                    proof {
                        assert forall|xx: int, yy: int| self.in_grid(xx, yy) && !(xx == x && yy == y) implies #[trigger] self.cell(xx, yy) == prev.cell(xx, yy) by {
                            lemma_flat_distinct(xx, yy, x as int, y as int, self.spec_width());
                            self.lemma_cell_index(xx, yy);
                        }
                        assert(self.cell(x as int, y as int) == spec_empty_hitbox());
                    }
                }
                proof {
                    assert(covers(before.spec_width(), before.spec_height(), hb, x as int, y as int));
                    assert(prev.cell(x as int, y as int) == before.cell(x as int, y as int));
                    assert(self.cell(x as int, y as int) == before.cleared_cell(id, hb, x as int, y as int));
                }
                x = x + 1;
            }
            y = y + 1;
        }
        proof {
            assert forall|x: int, yy: int| self.in_grid(x, yy) implies #[trigger] self.cell(x, yy) == before.cleared_cell(id, hb, x, yy) by {
                if !covers(before.spec_width(), before.spec_height(), hb, x, yy) {
                    assert(before.cleared_cell(id, hb, x, yy) == before.cell(x, yy));
                }
            }
        }
    }

    /// Whether the pair (a, b) is recorded.
    fn has_pair(&self, a: ID, b: ID) -> (r: bool)
        ensures
            r == self.candidate_ids().contains((a, b)),
    {
        let mut i: usize = 0;
        while i < self.candidates.len()
            invariant
                i <= self.candidates@.len(),
                forall|j: int| 0 <= j < i ==> pair_ids(self.candidates@[j]) != (a, b),
            decreases self.candidates@.len() - i,
        {
            let p = self.candidates[i];
            if p.0.id == a && p.1.id == b {
                assert(pair_ids(self.candidates@[i as int]) == (a, b));
                return true;
            }
            i = i + 1;
        }
        false
    }

    /// Moves the hitbox of `id` from `prevHitbox` to `hitbox`: empties the
    /// cells under `prevHitbox` that `id` held, then for each cell under
    /// `hitbox` records `id` and the cell's other owner as candidates both
    /// ways (once per frame), and writes `id`'s hitbox into the cell.
    pub fn updatePosition(&mut self, id: ID, hitbox: Rect, prevHitbox: Rect)
        requires
            old(self).wf(),
        ensures
            final(self).wf(),
            final(self).spec_width() == old(self).spec_width(),
            final(self).spec_height() == old(self).spec_height(),
            forall|x: int, y: int| final(self).in_grid(x, y) ==> #[trigger] final(self).cell(x, y) == if covers(
                old(self).spec_width(),
                old(self).spec_height(),
                hitbox,
                x,
                y,
            ) {
                EntityHitbox { id, hitbox }
            } else {
                old(self).cleared_cell(id, prevHitbox, x, y)
            },
            final(self).candidate_ids() == old(self).candidate_ids().union(old(self).met_by(id, hitbox, prevHitbox)),
            final(self).spec_candidates().subrange(0, old(self).spec_candidates().len() as int) == old(self).spec_candidates(),
            forall|i: int| old(self).spec_candidates().len() <= i < final(self).spec_candidates().len()
                ==> #[trigger] final(self).new_pair(*old(self), id, hitbox, prevHitbox, i),
            distinct_pairs(final(self).spec_candidates()),
    {
        let ghost before = *self;
        self.clear_cells(id, prevHitbox);
        let ghost mid = *self;
        let entry = EntityHitbox { id, hitbox };
        let (sx, ex, sy, ey) = self.cover_range(hitbox);
        proof {
            assert(before.met_upto(id, hitbox, prevHitbox, 0, sy as int) =~= Set::empty()) by {
                assert forall|p: (ID, ID)| !before.met_upto(id, hitbox, prevHitbox, 0, sy as int).contains(p) by {
                    if before.met_upto(id, hitbox, prevHitbox, 0, sy as int).contains(p) {
                        let (x, y) = choose|x: int, y: int| {
                            &&& #[trigger] covers(before.spec_width(), before.spec_height(), hitbox, x, y)
                            &&& before.in_grid(x, y)
                            &&& Self::walked(x, y, 0, sy as int)
                            &&& !(#[trigger] before.cleared_cell(id, prevHitbox, x, y)).id.spec_is_empty()
                            &&& before.cleared_cell(id, prevHitbox, x, y).id != id
                            &&& (p == (id, before.cleared_cell(id, prevHitbox, x, y).id) || p == (before.cleared_cell(id, prevHitbox, x, y).id, id))
                        };
                        assert(false);
                    }
                }
            }
            assert(mid.candidate_ids() =~= before.candidate_ids().union(before.met_upto(id, hitbox, prevHitbox, 0, sy as int)));
        }
        let mut y: usize = sy;
        while y <= ey
            invariant
                self.wf(),
                sy <= y <= ey + 1,
                ey < self.spec_height(),
                sx <= ex < self.spec_width(),
                sx as int == tile_coord(hitbox.x as int, self.spec_width()),
                ex as int == tile_coord(hitbox.x as int + hitbox.w as int, self.spec_width()),
                sy as int == tile_coord(hitbox.y as int, self.spec_height()),
                ey as int == tile_coord(hitbox.y as int + hitbox.h as int, self.spec_height()),
                self.spec_width() == before.spec_width(),
                self.spec_height() == before.spec_height(),
                mid.spec_width() == before.spec_width(),
                mid.spec_height() == before.spec_height(),
                entry == (EntityHitbox { id, hitbox }),
                forall|x: int, yy: int| mid.in_grid(x, yy) ==> #[trigger] mid.cell(x, yy) == before.cleared_cell(id, prevHitbox, x, yy),
                forall|x: int, yy: int| self.in_grid(x, yy) ==> #[trigger] self.cell(x, yy) == if yy < y && covers(before.spec_width(), before.spec_height(), hitbox, x, yy) {
                    entry
                } else {
                    mid.cell(x, yy)
                },
                self.candidate_ids() == before.candidate_ids().union(before.met_upto(id, hitbox, prevHitbox, 0, y as int)),
                self.spec_candidates().subrange(0, before.spec_candidates().len() as int) == before.spec_candidates(),
                before.spec_candidates().len() <= self.spec_candidates().len(),
                before.spec_candidates().len() % 2 == 0,
                forall|i: int| before.spec_candidates().len() <= i < self.spec_candidates().len()
                    ==> #[trigger] self.new_pair(before, id, hitbox, prevHitbox, i),
            decreases ey + 1 - y,
        {
            proof {
                assert(before.met_upto(id, hitbox, prevHitbox, 0, y as int) =~= before.met_upto(id, hitbox, prevHitbox, sx as int, y as int));
            }
            let mut x: usize = sx;
            while x <= ex
                invariant
                    self.wf(),
                    sy <= y <= ey,
                    sx <= x <= ex + 1,
                    ey < self.spec_height(),
                    ex < self.spec_width(),
                    sx as int == tile_coord(hitbox.x as int, self.spec_width()),
                    ex as int == tile_coord(hitbox.x as int + hitbox.w as int, self.spec_width()),
                    sy as int == tile_coord(hitbox.y as int, self.spec_height()),
                    ey as int == tile_coord(hitbox.y as int + hitbox.h as int, self.spec_height()),
                    self.spec_width() == before.spec_width(),
                    self.spec_height() == before.spec_height(),
                    mid.spec_width() == before.spec_width(),
                    mid.spec_height() == before.spec_height(),
                    entry == (EntityHitbox { id, hitbox }),
                    forall|xx: int, yy: int| mid.in_grid(xx, yy) ==> #[trigger] mid.cell(xx, yy) == before.cleared_cell(id, prevHitbox, xx, yy),
                    forall|xx: int, yy: int| self.in_grid(xx, yy) ==> #[trigger] self.cell(xx, yy) == if Self::walked(xx, yy, x as int, y as int)
                        && covers(before.spec_width(), before.spec_height(), hitbox, xx, yy) {
                        entry
                    } else {
                        mid.cell(xx, yy)
                    },
                    self.candidate_ids() == before.candidate_ids().union(before.met_upto(id, hitbox, prevHitbox, x as int, y as int)),
                    self.spec_candidates().subrange(0, before.spec_candidates().len() as int) == before.spec_candidates(),
                    before.spec_candidates().len() <= self.spec_candidates().len(),
                    before.spec_candidates().len() % 2 == 0,
                    forall|i: int| before.spec_candidates().len() <= i < self.spec_candidates().len()
                        ==> #[trigger] self.new_pair(before, id, hitbox, prevHitbox, i),
                decreases ex + 1 - x,
            {
                proof {
                    self.lemma_cell_index(x as int, y as int);
                }
                let ghost prev = *self;
                let tmp = *self.grid.index(y, x);
                proof {
                    assert(self.in_grid(x as int, y as int));
                    assert(!Self::walked(x as int, y as int, x as int, y as int));
                    assert(tmp == self.cell(x as int, y as int));
                    assert(self.cell(x as int, y as int) == mid.cell(x as int, y as int));
                    assert(tmp == mid.cell(x as int, y as int));
                    assert(tmp == before.cleared_cell(id, prevHitbox, x as int, y as int));
                    assert(covers(before.spec_width(), before.spec_height(), hitbox, x as int, y as int));
                }
                let meets = !tmp.isEmpty() && tmp.id != id;
                if meets && !self.has_pair(id, tmp.id) {
                    proof {
                        lemma_no_mirror(self.candidates@, id, tmp.id);
                    }
                    self.candidates.push((entry, tmp));
                    self.candidates.push((tmp, entry));
                    proof {
                        lemma_push_mirrored(prev.candidates@, (entry, tmp));
                        assert(self.candidates@ == prev.candidates@.push((entry, tmp)).push((tmp, entry)));
                        assert(self.candidates@.subrange(0, before.spec_candidates().len() as int) =~= prev.candidates@.subrange(0, before.spec_candidates().len() as int));
                        let n0 = prev.candidates@.len() as int;
                        assert(n0 % 2 == 0);
                        assert(before.met_cell(id, hitbox, prevHitbox, tmp)) by {
                            assert(before.cleared_cell(id, prevHitbox, x as int, y as int) == tmp);
                        }
                        assert forall|i: int| before.spec_candidates().len() <= i < self.spec_candidates().len()
                            implies #[trigger] self.new_pair(before, id, hitbox, prevHitbox, i) by {
                            if i < n0 {
                                assert(prev.new_pair(before, id, hitbox, prevHitbox, i));
                                if i % 2 == 1 {
                                    assert(self.candidates@[i - 1] == prev.candidates@[i - 1]);
                                }
                            } else if i == n0 {
                            } else {
                                assert(i == n0 + 1);
                            }
                        }
                    }
                } else if meets {
                    proof {
                        let i = choose|i: int| 0 <= i < prev.candidates@.len() && #[trigger] pair_ids(prev.candidates@[i]) == (id, tmp.id);
                        lemma_mirror_of(prev.candidates@, i);
                    }
                }
                let ghost before_write = *self;
                let cell = self.grid.indexMut(y, x);
                *cell = entry;
                proof {
                    assert forall|xx: int, yy: int| self.in_grid(xx, yy) && !(xx == x && yy == y) implies #[trigger] self.cell(xx, yy) == before_write.cell(xx, yy) by {
                        lemma_flat_distinct(xx, yy, x as int, y as int, self.spec_width());
                        self.lemma_cell_index(xx, yy);
                    }
                    assert(self.cell(x as int, y as int) == entry);
                    assert(before_write.grid == prev.grid);
                    assert forall|i: int| before.spec_candidates().len() <= i < self.spec_candidates().len()
                        implies #[trigger] self.new_pair(before, id, hitbox, prevHitbox, i) by {
                        assert(self.candidates@ == before_write.candidates@);
                        assert(before_write.new_pair(before, id, hitbox, prevHitbox, i));
                    }
                    assert forall|xx: int, yy: int| self.in_grid(xx, yy) implies #[trigger] self.cell(xx, yy) == if Self::walked(xx, yy, x as int + 1, y as int)
                        && covers(before.spec_width(), before.spec_height(), hitbox, xx, yy) {
                        entry
                    } else {
                        mid.cell(xx, yy)
                    } by {
                        if !(xx == x && yy == y) {
                            assert(prev.cell(xx, yy) == if Self::walked(xx, yy, x as int, y as int)
                                && covers(before.spec_width(), before.spec_height(), hitbox, xx, yy) {
                                entry
                            } else {
                                mid.cell(xx, yy)
                            });
                        }
                    }
                    let a = before.met_upto(id, hitbox, prevHitbox, x as int, y as int);
                    let b = before.met_upto(id, hitbox, prevHitbox, x as int + 1, y as int);
                    let t = tmp.id;
                    let step: Set<(ID, ID)> = if meets { set![(id, t), (t, id)] } else { Set::empty() };
                    assert forall|p: (ID, ID)| #[trigger] b.contains(p) implies a.contains(p) || step.contains(p) by {
                        let (xx, yy) = choose|xx: int, yy: int| {
                            &&& #[trigger] covers(before.spec_width(), before.spec_height(), hitbox, xx, yy)
                            &&& before.in_grid(xx, yy)
                            &&& Self::walked(xx, yy, x as int + 1, y as int)
                            &&& !(#[trigger] before.cleared_cell(id, prevHitbox, xx, yy)).id.spec_is_empty()
                            &&& before.cleared_cell(id, prevHitbox, xx, yy).id != id
                            &&& (p == (id, before.cleared_cell(id, prevHitbox, xx, yy).id) || p == (before.cleared_cell(id, prevHitbox, xx, yy).id, id))
                        };
                        if !(xx == x && yy == y) {
                            assert(Self::walked(xx, yy, x as int, y as int));
                        }
                    }
                    assert forall|p: (ID, ID)| a.contains(p) || step.contains(p) implies #[trigger] b.contains(p) by {
                        if a.contains(p) {
                            let (xx, yy) = choose|xx: int, yy: int| {
                                &&& #[trigger] covers(before.spec_width(), before.spec_height(), hitbox, xx, yy)
                                &&& before.in_grid(xx, yy)
                                &&& Self::walked(xx, yy, x as int, y as int)
                                &&& !(#[trigger] before.cleared_cell(id, prevHitbox, xx, yy)).id.spec_is_empty()
                                &&& before.cleared_cell(id, prevHitbox, xx, yy).id != id
                                &&& (p == (id, before.cleared_cell(id, prevHitbox, xx, yy).id) || p == (before.cleared_cell(id, prevHitbox, xx, yy).id, id))
                            };
                            assert(Self::walked(xx, yy, x as int + 1, y as int));
                        } else {
                            assert(Self::walked(x as int, y as int, x as int + 1, y as int));
                            assert(before.in_grid(x as int, y as int));
                        }
                    }
                    assert(b =~= a.union(step));
                    assert(self.candidate_ids() =~= before.candidate_ids().union(b));
                }
                x = x + 1;
            }
            proof {
                assert(before.met_upto(id, hitbox, prevHitbox, ex as int + 1, y as int) =~= before.met_upto(id, hitbox, prevHitbox, 0, y as int + 1));
            }
            y = y + 1;
        }
        proof {
            assert(before.met_upto(id, hitbox, prevHitbox, 0, ey as int + 1) =~= before.met_by(id, hitbox, prevHitbox));
        }
    }

    /// Empties the cells under `hitbox` that `id` holds and forgets every
    /// candidate pair in which `id` takes part.
    pub fn removeCollision(&mut self, id: ID, hitbox: Rect)
        requires
            old(self).wf(),
        ensures
            final(self).wf(),
            final(self).spec_width() == old(self).spec_width(),
            final(self).spec_height() == old(self).spec_height(),
            forall|x: int, y: int| final(self).in_grid(x, y) ==> #[trigger] final(self).cell(x, y) == old(self).cleared_cell(id, hitbox, x, y),
            final(self).candidate_ids() == old(self).candidate_ids().filter(|p: (ID, ID)| p.0 != id && p.1 != id),
            final(self).spec_candidates() == old(self).spec_candidates().filter(|p: (EntityHitbox, EntityHitbox)| p.0.id != id && p.1.id != id),
    {
        let ghost before = *self;
        self.clear_cells(id, hitbox);
        let ghost mid = *self;
        let ghost c = self.candidates@;
        let n = self.candidates.len();
        let mut kept: Vec<(EntityHitbox, EntityHitbox)> = Vec::new();
        let mut k: usize = 0;
        proof {
            assert(ids_of(kept@) =~= ids_without(c, 0, id));
        }
        while k < n
            invariant
                self.wf(),
                *self == mid,
                c == self.candidates@,
                n == c.len(),
                k <= n,
                k % 2 == 0,
                mirrored(kept@),
                distinct_pairs(kept@),
                ids_of(kept@) == ids_without(c, k as int, id),
                kept@ == c.subrange(0, k as int).filter(|p: (EntityHitbox, EntityHitbox)| p.0.id != id && p.1.id != id),
            decreases n - k,
        {
            let a = self.candidates[k];
            proof {
                assert(k + 1 < n);
                let h = k as int / 2;
                assert(c[2 * h + 1] == (c[2 * h].1, c[2 * h].0));
            }
            let b = self.candidates[k + 1];
            proof {
                let f = |p: (EntityHitbox, EntityHitbox)| p.0.id != id && p.1.id != id;
                assert(c.subrange(0, k as int + 1) =~= c.subrange(0, k as int).push(a));
                assert(c.subrange(0, k as int + 2) =~= c.subrange(0, k as int + 1).push(b));
                c.subrange(0, k as int).lemma_filter_push(a, f);
                c.subrange(0, k as int + 1).lemma_filter_push(b, f);
            }
            if a.0.id != id && a.1.id != id {
                proof {
                    lemma_fresh(c, k as int, id);
                    lemma_fresh(c, k as int + 1, id);
                    lemma_push_distinct(kept@, a);
                    lemma_push_distinct(kept@.push(a), b);
                    lemma_push_mirrored(kept@, a);
                }
                kept.push(a);
                kept.push(b);
                proof {
                    assert(ids_without(c, k as int + 2, id) =~= ids_without(c, k as int, id).insert(pair_ids(a)).insert(pair_ids(b))) by {
                        assert forall|q: (ID, ID)| #[trigger] ids_without(c, k as int + 2, id).contains(q) implies ids_without(c, k as int, id).insert(pair_ids(a)).insert(pair_ids(b)).contains(q) by {
                            let i = choose|i: int| 0 <= i < k + 2 && #[trigger] pair_ids(c[i]) == q && q.0 != id && q.1 != id;
                            if i < k as int {
                                assert(ids_without(c, k as int, id).contains(q));
                            }
                        }
                        assert(pair_ids(c[k as int]) == pair_ids(a));
                        assert(pair_ids(c[k as int + 1]) == pair_ids(b));
                    }
                }
            } else {
                proof {
                    assert(ids_without(c, k as int + 2, id) =~= ids_without(c, k as int, id)) by {
                        assert forall|q: (ID, ID)| #[trigger] ids_without(c, k as int + 2, id).contains(q) implies ids_without(c, k as int, id).contains(q) by {
                            let i = choose|i: int| 0 <= i < k + 2 && #[trigger] pair_ids(c[i]) == q && q.0 != id && q.1 != id;
                            assert(i < k as int);
                        }
                    }
                }
            }
            k = k + 2;
        }
        self.candidates = kept;
        proof {
            assert(c.subrange(0, n as int) =~= c);
            assert forall|x: int, y: int| self.in_grid(x, y) implies #[trigger] self.cell(x, y) == before.cleared_cell(id, hitbox, x, y) by {
                assert(mid.in_grid(x, y));
                assert(self.cell(x, y) == mid.cell(x, y));
            }
            assert(self.candidate_ids() =~= before.candidate_ids().filter(|p: (ID, ID)| p.0 != id && p.1 != id));
        }
    }

    /// The others of `id` among the candidate pairs whose recorded hitboxes
    /// really overlap, in the order in which the pairs were recorded.
    pub fn getCollisionList(&self, id: ID) -> (r: Vec<ID>)
        ensures
            r@ == collision_list(self.spec_candidates(), id),
    {
        let mut r: Vec<ID> = Vec::new();
        let mut i: usize = 0;
        while i < self.candidates.len()
            invariant
                i <= self.candidates@.len(),
                r@ == collision_list(self.candidates@.subrange(0, i as int), id),
            decreases self.candidates@.len() - i,
        {
            let p = self.candidates[i];
            proof {
                assert(self.candidates@.subrange(0, i as int + 1).drop_last() =~= self.candidates@.subrange(0, i as int));
            }
            if p.0.id == id && p.0.hitbox.has_intersection(p.1.hitbox) {
                r.push(p.1.id);
            }
            i = i + 1;
        }
        proof {
            assert(self.candidates@.subrange(0, i as int) =~= self.candidates@);
        }
        r
    }

    /// Forgets every candidate pair; the grid stays as it is.
    pub fn resetCollisionLists(&mut self)
        requires
            old(self).wf(),
        ensures
            final(self).wf(),
            final(self).spec_width() == old(self).spec_width(),
            final(self).spec_height() == old(self).spec_height(),
            forall|x: int, y: int| #[trigger] final(self).cell(x, y) == old(self).cell(x, y),
            final(self).spec_candidates() == Seq::<(EntityHitbox, EntityHitbox)>::empty(),
    {
        self.candidates.clear();
    }

    /// Empties every cell of the grid; the candidates stay as they are.
    pub fn disableEntityCollisionFrame(&mut self)
        requires
            old(self).wf(),
        ensures
            final(self).wf(),
            final(self).spec_width() == old(self).spec_width(),
            final(self).spec_height() == old(self).spec_height(),
            forall|x: int, y: int| final(self).in_grid(x, y) ==> #[trigger] final(self).cell(x, y) == spec_empty_hitbox(),
            final(self).spec_candidates() == old(self).spec_candidates(),
    {
        let ghost before = *self;
        let n = self.grid.cells.len();
        let mut i: usize = 0;
        while i < n
            invariant
                self.wf(),
                n == self.grid.cells@.len(),
                i <= n,
                self.grid.width == before.grid.width,
                self.height == before.height,
                self.candidates@ == before.candidates@,
                forall|j: int| 0 <= j < i ==> self.grid.cells@[j] == spec_empty_hitbox(),
            decreases n - i,
        {
            self.grid.cells.set(i, EntityHitbox::empty());
            i = i + 1;
        }
        proof {
            assert forall|x: int, y: int| self.in_grid(x, y) implies #[trigger] self.cell(x, y) == spec_empty_hitbox() by {
                self.lemma_cell_index(x, y);
            }
        }
    }
}

/// The identity pairs of the first `k` candidates in which `id` takes no part.
pub open spec fn ids_without(c: Seq<(EntityHitbox, EntityHitbox)>, k: int, id: ID) -> Set<(ID, ID)> {
    Set::new(|q: (ID, ID)| exists|i: int| 0 <= i < k && #[trigger] pair_ids(c[i]) == q && q.0 != id && q.1 != id)
}

/// With distinct candidates, pair `k` is not among those before it.
proof fn lemma_fresh(c: Seq<(EntityHitbox, EntityHitbox)>, k: int, id: ID)
    requires
        distinct_pairs(c),
        0 <= k < c.len(),
    ensures
        !ids_without(c, k, id).contains(pair_ids(c[k])),
        c[k].0.id != c[k].1.id,
{
    if ids_without(c, k, id).contains(pair_ids(c[k])) {
        let i = choose|i: int| 0 <= i < k && #[trigger] pair_ids(c[i]) == pair_ids(c[k]) && pair_ids(c[k]).0 != id && pair_ids(c[k]).1 != id;
        assert(pair_ids(c[i]) != pair_ids(c[k]));
    }
    assert(c[k].0.id != c[k].1.id);
}

/// Pushing a pair whose identities are not yet recorded keeps the pairs distinct.
proof fn lemma_push_distinct(c: Seq<(EntityHitbox, EntityHitbox)>, p: (EntityHitbox, EntityHitbox))
    requires
        distinct_pairs(c),
        !ids_of(c).contains(pair_ids(p)),
        p.0.id != p.1.id,
    ensures
        distinct_pairs(c.push(p)),
        ids_of(c.push(p)) == ids_of(c).insert(pair_ids(p)),
{
    let d = c.push(p);
    assert forall|i: int, j: int| 0 <= i < j < d.len() implies pair_ids(d[i]) != pair_ids(d[j]) by {
        if j == c.len() {
            if pair_ids(d[i]) == pair_ids(d[j]) {
                assert(pair_ids(c[i]) == pair_ids(p));
            }
        } else {
            assert(pair_ids(c[i]) != pair_ids(c[j]));
        }
    }
    assert forall|i: int| 0 <= i < d.len() implies (#[trigger] d[i]).0.id != d[i].1.id by {
        if i < c.len() {
            assert(c[i].0.id != c[i].1.id);
        }
    }
    assert forall|q: (ID, ID)| #[trigger] ids_of(d).contains(q) implies ids_of(c).insert(pair_ids(p)).contains(q) by {
        let i = choose|i: int| 0 <= i < d.len() && #[trigger] pair_ids(d[i]) == q;
        if i < c.len() {
            assert(pair_ids(c[i]) == q);
        }
    }
    assert forall|q: (ID, ID)| ids_of(c).insert(pair_ids(p)).contains(q) implies #[trigger] ids_of(d).contains(q) by {
        if ids_of(c).contains(q) {
            let i = choose|i: int| 0 <= i < c.len() && #[trigger] pair_ids(c[i]) == q;
            assert(pair_ids(d[i]) == q);
        } else {
            assert(pair_ids(d[c.len() as int]) == q);
        }
    }
    assert(ids_of(d) =~= ids_of(c).insert(pair_ids(p)));
}

/// In mirrored, distinct candidates, a pair of identities that is absent
/// is absent the other way round too.
proof fn lemma_no_mirror(c: Seq<(EntityHitbox, EntityHitbox)>, a: ID, b: ID)
    requires
        mirrored(c),
        !ids_of(c).contains((a, b)),
    ensures
        !ids_of(c).contains((b, a)),
{
    if ids_of(c).contains((b, a)) {
        let i = choose|i: int| 0 <= i < c.len() && #[trigger] pair_ids(c[i]) == (b, a);
        lemma_mirror_of(c, i);
    }
}

/// Every recorded pair is recorded the other way round too.
proof fn lemma_mirror_of(c: Seq<(EntityHitbox, EntityHitbox)>, i: int)
    requires
        mirrored(c),
        0 <= i < c.len(),
    ensures
        ids_of(c).contains((c[i].1.id, c[i].0.id)),
{
    let k = i / 2;
    assert(c[2 * k + 1] == (c[2 * k].1, c[2 * k].0));
    if i % 2 == 0 {
        assert(i == 2 * k);
        assert(pair_ids(c[i + 1]) == (c[i].1.id, c[i].0.id));
    } else {
        assert(i == 2 * k + 1);
        assert(pair_ids(c[i - 1]) == (c[i].1.id, c[i].0.id));
    }
}

/// Pushing a pair and then its mirror image keeps candidates mirrored and
/// adds exactly those two identity pairs.
proof fn lemma_push_mirrored(c: Seq<(EntityHitbox, EntityHitbox)>, p: (EntityHitbox, EntityHitbox))
    requires
        mirrored(c),
    ensures
        mirrored(c.push(p).push((p.1, p.0))),
        ids_of(c.push(p).push((p.1, p.0))) == ids_of(c).insert(pair_ids(p)).insert((p.1.id, p.0.id)),
{
    let d = c.push(p).push((p.1, p.0));
    assert forall|k: int| 0 <= k && 2 * k + 1 < d.len() implies #[trigger] d[2 * k + 1] == (d[2 * k].1, d[2 * k].0) by {
        if 2 * k + 1 < c.len() {
            assert(c[2 * k + 1] == (c[2 * k].1, c[2 * k].0));
        }
    }
    let s = ids_of(c).insert(pair_ids(p)).insert((p.1.id, p.0.id));
    assert forall|q: (ID, ID)| #[trigger] ids_of(d).contains(q) implies s.contains(q) by {
        let i = choose|i: int| 0 <= i < d.len() && #[trigger] pair_ids(d[i]) == q;
        if i < c.len() {
            assert(pair_ids(c[i]) == q);
        }
    }
    assert forall|q: (ID, ID)| s.contains(q) implies #[trigger] ids_of(d).contains(q) by {
        if ids_of(c).contains(q) {
            let i = choose|i: int| 0 <= i < c.len() && #[trigger] pair_ids(c[i]) == q;
            assert(pair_ids(d[i]) == q);
        } else if q == pair_ids(p) {
            assert(pair_ids(d[c.len() as int]) == q);
        } else {
            assert(pair_ids(d[c.len() as int + 1]) == q);
        }
    }
    assert(ids_of(d) =~= s);
}

/// Clamped tile indices keep the order of the pixel coordinates.
proof fn lemma_tile_coord_mono(a: int, b: int, n: int)
    requires
        a <= b,
        n > 0,
    ensures
        0 <= tile_coord(a, n) <= tile_coord(b, n) < n,
{
    if a >= 0 {
        assert(a / 50 <= b / 50) by (nonlinear_arith)
            requires 0 <= a <= b;
    }
    if b >= 0 {
        assert(b / 50 >= 0) by (nonlinear_arith)
            requires 0 <= b;
    }
}

} // verus!
