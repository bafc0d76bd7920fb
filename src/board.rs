use vstd::prelude::*;
use crate::hex::HexPos;

verus! {

/// The tiles that are available for selection and as movement targets.
pub struct Board {
    tiles: Vec<HexPos>,
}

/// Every hex whose two axial coordinates both lie in `[-radius, radius]`:
/// a square in axial space, a parallelogram on screen.
pub open spec fn square_tiles(radius: int) -> Set<HexPos> {
    Set::new(|h: HexPos| -radius <= h.q <= radius && -radius <= h.r <= radius)
}

/// Largest radius of a square board.
pub const MAX_RADIUS: i32 = 1000;

impl View for Board {
    type V = Set<HexPos>;

    closed spec fn view(&self) -> Set<HexPos> {
        self.tiles@.to_set()
    }
}

impl Board {
    /// The tiles in the order in which they are held.
    pub closed spec fn tile_seq(&self) -> Seq<HexPos> {
        self.tiles@
    }

    /// The board of every hex with both axial coordinates in
    /// `[-radius, radius]`.
    pub fn square(radius: i32) -> (b: Board)
        requires
            0 <= radius <= MAX_RADIUS,
        ensures
            b@ == square_tiles(radius as int),
            b.tile_seq().no_duplicates(),
    {
        let mut tiles: Vec<HexPos> = Vec::new();
        let mut q: i32 = -radius;
        while q <= radius
            invariant
                0 <= radius <= MAX_RADIUS,
                -radius <= q <= radius + 1,
                tiles@.no_duplicates(),
                forall|h: HexPos| #[trigger] tiles@.contains(h) <==> (-radius <= h.q < q
                    && -radius <= h.r <= radius),
            decreases radius + 1 - q,
        {
            let mut r: i32 = -radius;
            while r <= radius
                invariant
                    0 <= radius <= MAX_RADIUS,
                    -radius <= q <= radius,
                    -radius <= r <= radius + 1,
                    tiles@.no_duplicates(),
                    forall|h: HexPos| #[trigger] tiles@.contains(h) <==> ((-radius <= h.q < q
                        && -radius <= h.r <= radius) || (h.q == q && -radius <= h.r < r)),
                decreases radius + 1 - r,
            {
                let h = HexPos { q, r };
                let ghost prev = tiles@;
                tiles.push(h);
                proof {
                    assert(!prev.contains(h));
                    assert forall|i: int, j: int| 0 <= i < j < tiles@.len() implies tiles@[i]
                        != tiles@[j] by {
                        if j == tiles@.len() - 1 && tiles@[i] == h {
                            assert(prev[i] == h);
                        }
                        if j < tiles@.len() - 1 {
                            assert(prev[i] == tiles@[i] && prev[j] == tiles@[j]);
                        }
                    }
                    assert forall|x: HexPos| #[trigger] tiles@.contains(x) <==> (prev.contains(x)
                        || x == h) by {
                        if tiles@.contains(x) && x != h {
                            let i = choose|i: int| 0 <= i < tiles@.len() && tiles@[i] == x;
                            assert(prev[i] == x);
                        }
                        if prev.contains(x) {
                            let j = choose|j: int| 0 <= j < prev.len() && prev[j] == x;
                            assert(tiles@[j] == x);
                        }
                        if x == h {
                            assert(tiles@[tiles@.len() - 1] == x);
                        }
                    }
                }
                r = r + 1;
            }
            q = q + 1;
        }
        let b = Board { tiles };
        proof {
            assert forall|h: HexPos| #[trigger] b@.contains(h) == square_tiles(radius as int).contains(h) by {
                if tiles@.contains(h) {
                    let i = choose|i: int| 0 <= i < tiles@.len() && tiles@[i] == h;
                    assert(tiles@.to_set().contains(h));
                }
            }
            assert(b@ =~= square_tiles(radius as int));
        }
        b
    }

    /// Whether `h` is an available tile.
    pub fn contains(&self, h: HexPos) -> (found: bool)
        ensures
            found == self@.contains(h),
    {
        let mut i: usize = 0;
        while i < self.tiles.len()
            invariant
                i <= self.tiles@.len(),
                forall|j: int| 0 <= j < i ==> self.tiles@[j] != h,
            decreases self.tiles@.len() - i,
        {
            if self.tiles[i] == h {
                proof {
                    assert(self.tiles@.to_set().contains(h));
                }
                return true;
            }
            i = i + 1;
        }
        proof {
            if self.tiles@.to_set().contains(h) {
                let j = choose|j: int| 0 <= j < self.tiles@.len() && self.tiles@[j] == h;
            }
        }
        false
    }

    /// The available tiles, each once.
    pub fn tiles(&self) -> (t: &Vec<HexPos>)
        ensures
            t@ == self.tile_seq(),
            t@.to_set() == self@,
    {
        &self.tiles
    }
}

} // verus!
