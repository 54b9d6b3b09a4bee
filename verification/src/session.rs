use vstd::prelude::*;
use crate::grid::{Coordinates, Direction, Key};
use crate::tiles::{Tile, TileType, coord_of_id, first_index_at, has_tile_id, find_tile_at,
    find_tile_index_by_id, lemma_coord_of_id_first, lemma_coord_of_id_update,
    lemma_coord_of_id_remove, lemma_coord_of_id_push};
use crate::GameState;
use vstd::pervasive::VecAdditionalExecFns;

verus! {

/// The snake's head: the cell it occupies and the direction it faces.
#[derive(Clone, Copy, PartialEq, Eq, Structural, Debug)]
pub struct SnakeHead {
    pub position: Coordinates,
    pub facing: Direction,
}

/// The tail segments' tile identifiers, ordered from nearest-to-head to
/// farthest.
pub struct TailOrder {
    pub segments: Vec<u64>,
}

/// All state owned by one play-through: the head, the latest requested
/// direction, the tail order, and every tile entity. Destroying the session
/// releases all of it.
pub struct Session {
    pub half_width: i16,
    pub head: SnakeHead,
    pub requested_direction: Direction,
    pub tail_order: TailOrder,
    pub tiles: Vec<Tile>,
    pub next_id: u64,
}

/// Whether the cell lies on the hollow square outline of half-width
/// `half_width` around the origin.
pub open spec fn on_ring(half_width: i16, c: Coordinates) -> bool {
    &&& -half_width <= c.x <= half_width
    &&& -half_width <= c.y <= half_width
    &&& (c.x == -half_width || c.x == half_width || c.y == -half_width || c.y == half_width)
}

/// Whether some tile of the registry occupies the given cell.
pub open spec fn covers(tiles: Seq<Tile>, c: Coordinates) -> bool {
    exists|k: int| 0 <= k < tiles.len() && tiles[k].coordinates == c
}

/// Whether some tile of the registry carries the given identifier and is of
/// game-over kind, as every tail segment's tile must be.
pub open spec fn segment_tile_ok(tiles: Seq<Tile>, id: u64) -> bool {
    exists|j: int|
        0 <= j < tiles.len() && tiles[j].id == id && tiles[j].kind == TileType::GameOver
}

/// Appending a tile keeps every segment's tile in place.
proof fn lemma_segment_tile_ok_push(tiles: Seq<Tile>, t: Tile, id: u64)
    requires
        segment_tile_ok(tiles, id),
    ensures
        segment_tile_ok(tiles.push(t), id),
{
    let j = choose|j: int|
        0 <= j < tiles.len() && tiles[j].id == id && tiles[j].kind == TileType::GameOver;
    assert(tiles.push(t)[j] == tiles[j]);
}

/// Bookkeeping invariant over the session's views: tile identifiers are
/// unique and below the next fresh one, tail segments are distinct, and every
/// segment identifier names a game-over tile of the registry.
pub open spec fn wf_state(half_width: i16, tiles: Seq<Tile>, segments: Seq<u64>, next_id: u64) -> bool {
    &&& 1 <= half_width
    &&& forall|i: int, j: int| 0 <= i < j < tiles.len() ==> tiles[i].id != tiles[j].id
    &&& forall|i: int| 0 <= i < tiles.len() ==> (#[trigger] tiles[i]).id < next_id
    &&& forall|i: int, j: int| 0 <= i < j < segments.len() ==> segments[i] != segments[j]
    &&& forall|i: int|
        0 <= i < segments.len() ==> segment_tile_ok(tiles, #[trigger] segments[i])
}

impl Session {
    /// Bookkeeping invariant of a session; see `wf_state`.
    pub open spec fn wf(self) -> bool {
        wf_state(self.half_width, self.tiles@, self.tail_order.segments@, self.next_id)
    }
}

/// Creates the session for one play-through: the game-over boundary ring at
/// every cell with `|x| = half_width` or `|y| = half_width`, the head at the
/// origin facing up, and an empty tail.
pub fn setup(half_width: i16) -> (s: Session)
    requires
        1 <= half_width < i16::MAX,
    ensures
        s.wf(),
        s.half_width == half_width,
        s.head == (SnakeHead { position: Coordinates { x: 0, y: 0 }, facing: Direction::Up }),
        s.requested_direction == Direction::Up,
        s.tail_order.segments@ == Seq::<u64>::empty(),
        s.next_id == 4 * (2 * half_width + 1),
        s.tiles@.len() == s.next_id,
        forall|k: int|
            0 <= k < s.tiles@.len() ==> (#[trigger] s.tiles@[k]).kind == TileType::GameOver
                && on_ring(half_width, s.tiles@[k].coordinates),
        forall|c: Coordinates| #[trigger] on_ring(half_width, c) ==> covers(s.tiles@, c),
{
    let mut tiles: Vec<Tile> = Vec::new();
    let mut next_id: u64 = 0;
    let mut i: i16 = -half_width;
    while i <= half_width
        invariant
            1 <= half_width < i16::MAX,
            -half_width <= i <= half_width + 1,
            next_id == 4 * (i + half_width),
            tiles@.len() == next_id,
            forall|k: int| 0 <= k < tiles@.len() ==> (#[trigger] tiles@[k]).id == k as u64,
            forall|k: int|
                0 <= k < tiles@.len() ==> (#[trigger] tiles@[k]).kind == TileType::GameOver
                    && on_ring(half_width, tiles@[k].coordinates),
            forall|c: Coordinates| #[trigger]
                on_ring(half_width, c) && ((c.x == -half_width || c.x == half_width) && c.y < i
                    || (c.y == -half_width || c.y == half_width) && c.x < i)
                    ==> covers(tiles@, c),
        decreases half_width + 1 - i,
    {
        let ghost pre = tiles@;
        tiles.push(Tile { id: next_id, kind: TileType::GameOver,
            coordinates: Coordinates { x: -half_width, y: i } });
        tiles.push(Tile { id: next_id + 1, kind: TileType::GameOver,
            coordinates: Coordinates { x: i, y: -half_width } });
        tiles.push(Tile { id: next_id + 2, kind: TileType::GameOver,
            coordinates: Coordinates { x: half_width, y: i } });
        tiles.push(Tile { id: next_id + 3, kind: TileType::GameOver,
            coordinates: Coordinates { x: i, y: half_width } });
        next_id = next_id + 4;
        proof {
            let n = pre.len() as int;
            assert forall|c: Coordinates| #[trigger]
                on_ring(half_width, c) && ((c.x == -half_width || c.x == half_width) && c.y < i + 1
                    || (c.y == -half_width || c.y == half_width) && c.x < i + 1)
                implies covers(tiles@, c) by {
                if (c.x == -half_width || c.x == half_width) && c.y < i
                    || (c.y == -half_width || c.y == half_width) && c.x < i {
                    let k = choose|k: int| 0 <= k < pre.len() && pre[k].coordinates == c;
                    assert(tiles@[k] == pre[k]);
                } else if c.x == -half_width && c.y == i {
                    assert(tiles@[n].coordinates == c);
                } else if c.x == half_width && c.y == i {
                    assert(tiles@[n + 2].coordinates == c);
                } else if c.y == -half_width && c.x == i {
                    assert(tiles@[n + 1].coordinates == c);
                } else {
                    assert(c.y == half_width && c.x == i);
                    assert(tiles@[n + 3].coordinates == c);
                }
            }
        }
        i = i + 1;
    }
    Session {
        half_width,
        head: SnakeHead { position: Coordinates { x: 0, y: 0 }, facing: Direction::Up },
        requested_direction: Direction::Up,
        tail_order: TailOrder { segments: Vec::new() },
        tiles,
        next_id,
    }
}

/// Relies on rand::thread_rng and rand::Rng::gen_range: a sample from a
/// nonempty inclusive integer range lies within that range.
#[verifier::external_body]
fn random_in_range(lo: i16, hi: i16) -> (r: i16)
    requires
        lo <= hi,
    ensures
        lo <= r <= hi,
{
    rand::Rng::gen_range(&mut rand::thread_rng(), lo..=hi)
}

impl Session {
    /// Creates one reward tile at the given cell, under a fresh identifier.
    pub fn spawn_reward_at(&mut self, coordinates: Coordinates)
        requires
            old(self).wf(),
            old(self).next_id < u64::MAX,
        ensures
            final(self).wf(),
            final(self).tiles@ == old(self).tiles@.push(
                Tile { id: old(self).next_id, kind: TileType::Reward, coordinates },
            ),
            final(self).next_id == old(self).next_id + 1,
            final(self).half_width == old(self).half_width,
            final(self).head == old(self).head,
            final(self).requested_direction == old(self).requested_direction,
            final(self).tail_order.segments@ == old(self).tail_order.segments@,
    {
        let id = self.next_id;
        self.tiles.push(Tile { id, kind: TileType::Reward, coordinates });
        self.next_id = id + 1;
        proof {
            let pre = old(self).tiles@;
            let t = Tile { id: old(self).next_id, kind: TileType::Reward, coordinates };
            assert forall|i: int|
                0 <= i < self.tail_order.segments@.len() implies segment_tile_ok(
                self.tiles@,
                #[trigger] self.tail_order.segments@[i],
            ) by {
                lemma_segment_tile_ok_push(pre, t, self.tail_order.segments@[i]);
            }
        }
    }

    /// Creates one game-over tile at the given cell, under a fresh
    /// identifier, and hands the identifier back; the registry half of
    /// growing the tail.
    pub fn append_boundary_tile(&mut self, coordinates: Coordinates) -> (id: u64)
        requires
            old(self).wf(),
            old(self).next_id < u64::MAX,
        ensures
            final(self).wf(),
            id == old(self).next_id,
            final(self).tiles@ == old(self).tiles@.push(
                Tile { id, kind: TileType::GameOver, coordinates },
            ),
            final(self).next_id == old(self).next_id + 1,
            final(self).half_width == old(self).half_width,
            final(self).head == old(self).head,
            final(self).requested_direction == old(self).requested_direction,
            final(self).tail_order.segments@ == old(self).tail_order.segments@,
    {
        let id = self.next_id;
        self.tiles.push(Tile { id, kind: TileType::GameOver, coordinates });
        self.next_id = id + 1;
        proof {
            let pre = old(self).tiles@;
            let t = Tile { id: old(self).next_id, kind: TileType::GameOver, coordinates };
            assert forall|i: int|
                0 <= i < self.tail_order.segments@.len() implies segment_tile_ok(
                self.tiles@,
                #[trigger] self.tail_order.segments@[i],
            ) by {
                lemma_segment_tile_ok_push(pre, t, self.tail_order.segments@[i]);
            }
        }
        id
    }

    /// Destroys the first tile carrying the given identifier, if any; the
    /// way a consumed reward leaves the registry. A tail segment's tile is
    /// never removed this way.
    pub fn remove_tile(&mut self, id: u64) -> (removed: bool)
        requires
            old(self).wf(),
            forall|i: int|
                0 <= i < old(self).tail_order.segments@.len()
                    ==> old(self).tail_order.segments@[i] != id,
        ensures
            final(self).wf(),
            removed == has_tile_id(old(self).tiles@, id),
            !removed ==> final(self).tiles@ == old(self).tiles@,
            removed ==> exists|j: int|
                0 <= j < old(self).tiles@.len() && (#[trigger] old(self).tiles@[j]).id == id
                    && final(self).tiles@ == old(self).tiles@.remove(j),
            final(self).next_id == old(self).next_id,
            final(self).half_width == old(self).half_width,
            final(self).head == old(self).head,
            final(self).requested_direction == old(self).requested_direction,
            final(self).tail_order.segments@ == old(self).tail_order.segments@,
    {
        match find_tile_index_by_id(&self.tiles, id) {
            Some(j) => {
                let _ = self.tiles.remove(j);
                proof {
                    let pre = old(self).tiles@;
                    pre.remove_ensures(j as int);
                    let tiles2 = self.tiles@;
                    assert forall|a: int, b: int| 0 <= a < b < tiles2.len() implies tiles2[a].id
                        != tiles2[b].id by {
                        assert(tiles2[a] == (if a < j { pre[a] } else { pre[a + 1] }));
                        assert(tiles2[b] == (if b < j { pre[b] } else { pre[b + 1] }));
                    }
                    assert forall|a: int| 0 <= a < tiles2.len() implies (#[trigger] tiles2[a]).id
                        < self.next_id by {
                        assert(tiles2[a] == (if a < j { pre[a] } else { pre[a + 1] }));
                    }
                    assert forall|i: int|
                        0 <= i < self.tail_order.segments@.len() implies segment_tile_ok(
                        tiles2,
                        #[trigger] self.tail_order.segments@[i],
                    ) by {
                        let seg = self.tail_order.segments@[i];
                        let jw = choose|jw: int|
                            0 <= jw < pre.len() && pre[jw].id == seg && pre[jw].kind
                                == TileType::GameOver;
                        assert(jw != j);
                        if jw < j {
                            assert(tiles2[jw] == pre[jw]);
                        } else {
                            assert(tiles2[jw - 1] == pre[jw]);
                        }
                    }
                }
                true
            },
            None => false,
        }
    }

    /// Picks a cell uniformly at random in the interior of the play field
    /// (strictly inside the boundary ring) and creates one reward tile there.
    /// An unconsumed earlier reward is left in place.
    pub fn spawn_rewards(&mut self)
        requires
            old(self).wf(),
            old(self).next_id < u64::MAX,
        ensures
            final(self).wf(),
            final(self).tiles@.len() == old(self).tiles@.len() + 1,
            final(self).tiles@.subrange(0, old(self).tiles@.len() as int) == old(self).tiles@,
            final(self).tiles@.last().kind == TileType::Reward,
            final(self).tiles@.last().id == old(self).next_id,
            -old(self).half_width < final(self).tiles@.last().coordinates.x < old(
                self,
            ).half_width,
            -old(self).half_width < final(self).tiles@.last().coordinates.y < old(
                self,
            ).half_width,
            final(self).next_id == old(self).next_id + 1,
            final(self).half_width == old(self).half_width,
            final(self).head == old(self).head,
            final(self).requested_direction == old(self).requested_direction,
            final(self).tail_order.segments@ == old(self).tail_order.segments@,
    {
        let range: i16 = self.half_width - 1;
        let x = random_in_range(-range, range);
        let y = random_in_range(-range, range);
        self.spawn_reward_at(Coordinates { x, y });
        proof {
            assert(final(self).tiles@.subrange(0, old(self).tiles@.len() as int) =~= old(
                self,
            ).tiles@);
        }
    }

    /// Records the latest direction asked for by the sampled keys, if any of
    /// them maps; the request is independent of the facing until the next
    /// resolution tick.
    pub fn handle_input(&mut self, pressed: &Vec<Key>)
        ensures
            final(self).requested_direction == match Direction::spec_change(pressed@) {
                Some(d) => d,
                None => old(self).requested_direction,
            },
            final(self).half_width == old(self).half_width,
            final(self).head == old(self).head,
            final(self).tail_order.segments@ == old(self).tail_order.segments@,
            final(self).tiles@ == old(self).tiles@,
            final(self).next_id == old(self).next_id,
            old(self).wf() ==> final(self).wf(),
    {
        if let Some(d) = Direction::change(pressed) {
            self.requested_direction = d;
        }
    }
}

/// The direction the head actually takes: a request for the exact opposite
/// of the current facing is silently dropped, never queued.
pub open spec fn spec_effective_direction(facing: Direction, requested: Direction) -> Direction {
    if requested != facing.spec_opposite() {
        requested
    } else {
        facing
    }
}

/// Law: requesting the opposite of the current facing never changes the
/// facing on the next resolution tick.
pub proof fn lemma_reverse_request_ignored(facing: Direction)
    ensures
        spec_effective_direction(facing, facing.spec_opposite()) == facing,
{
}

/// Whether one of the first `upto` tail segments carries the identifier.
pub open spec fn segment_prefix_contains(segments: Seq<u64>, upto: int, id: u64) -> bool {
    exists|m: int| 0 <= m < upto && segments[m] == id
}

/// How one ordinary (collision-free) move relates the registry before the
/// tick to the registry after it: tile identifiers and kinds are untouched;
/// the segment nearest to the head takes the cell the head vacated, every
/// farther segment takes the cell its nearer neighbour held, and every tile
/// outside the tail keeps its cell.
pub open spec fn shift_rel(
    pre: Seq<Tile>,
    post: Seq<Tile>,
    segments: Seq<u64>,
    vacated: Coordinates,
) -> bool {
    &&& post.len() == pre.len()
    &&& forall|j: int|
        0 <= j < pre.len() ==> (#[trigger] post[j]).id == pre[j].id && post[j].kind == pre[j].kind
    &&& forall|i: int|
        0 <= i < segments.len() ==> coord_of_id(post, #[trigger] segments[i]) == (if i == 0 {
            vacated
        } else {
            coord_of_id(pre, segments[i - 1])
        })
    &&& forall|j: int|
        0 <= j < pre.len() && !segment_prefix_contains(
            segments,
            segments.len() as int,
            (#[trigger] pre[j]).id,
        ) ==> post[j] == pre[j]
}

/// Whether the tail records the trailing history of the head: segment `i`
/// occupies the cell the head vacated `i + 1` ticks ago, `history[0]` being
/// the cell vacated most recently.
pub open spec fn tail_trails(
    tiles: Seq<Tile>,
    segments: Seq<u64>,
    history: Seq<Coordinates>,
) -> bool {
    &&& segments.len() <= history.len()
    &&& forall|i: int|
        0 <= i < segments.len() ==> coord_of_id(tiles, #[trigger] segments[i]) == history[i]
}

/// Law: after consecutive collision-free ticks the tail segment cells form
/// the trailing history of head positions, each segment lagging the head by
/// its index plus one ticks. One ordinary move, which relates the registries
/// by `shift_rel`, prepends the newly vacated cell to the history and keeps
/// the correspondence.
pub proof fn lemma_tail_trails_shift(
    pre: Seq<Tile>,
    post: Seq<Tile>,
    segments: Seq<u64>,
    history: Seq<Coordinates>,
    vacated: Coordinates,
)
    requires
        shift_rel(pre, post, segments, vacated),
        tail_trails(pre, segments, history),
    ensures
        tail_trails(post, segments, seq![vacated] + history),
{
    let extended = seq![vacated] + history;
    assert forall|i: int| 0 <= i < segments.len() implies coord_of_id(
        post,
        #[trigger] segments[i],
    ) == extended[i] by {
        if i == 0 {
            assert(extended[0] == vacated);
        } else {
            assert(extended[i] == history[i - 1]);
        }
    }
}

/// Law: a reward tick keeps the trailing-history correspondence as well: the
/// grown segment sits on the cell the head just vacated, and every older
/// segment keeps its cell, now one index farther from the head. With
/// `lemma_tail_trails_shift` this covers every tick that does not end the
/// session.
pub proof fn lemma_tail_trails_grow(
    pre: Seq<Tile>,
    post: Seq<Tile>,
    segments: Seq<u64>,
    history: Seq<Coordinates>,
    vacated: Coordinates,
    j: int,
    fresh_id: u64,
)
    requires
        0 <= j < pre.len(),
        pre[j].kind == TileType::Reward,
        post == pre.remove(j).push(Tile { id: fresh_id, kind: TileType::GameOver, coordinates: vacated }),
        forall|a: int, b: int| 0 <= a < b < pre.len() ==> pre[a].id != pre[b].id,
        forall|k: int| 0 <= k < pre.len() ==> (#[trigger] pre[k]).id != fresh_id,
        forall|i: int| 0 <= i < segments.len() ==> segment_tile_ok(pre, #[trigger] segments[i]),
        tail_trails(pre, segments, history),
    ensures
        tail_trails(post, seq![fresh_id] + segments, seq![vacated] + history),
{
    // a segment names a game-over tile, so with unique identifiers it never
    // names the consumed reward, and its tile survives the removal
    assert forall|i: int| 0 <= i < segments.len() implies #[trigger] segments[i] != pre[j].id
        && has_tile_id(pre, segments[i]) by {
        let jw = choose|jw: int|
            0 <= jw < pre.len() && pre[jw].id == segments[i] && pre[jw].kind == TileType::GameOver;
        assert(jw != j);
    }
    pre.remove_ensures(j);
    let removed = pre.remove(j);
    let newt = Tile { id: fresh_id, kind: TileType::GameOver, coordinates: vacated };
    let segs2 = seq![fresh_id] + segments;
    let hist2 = seq![vacated] + history;
    assert forall|i: int| 0 <= i < segs2.len() implies coord_of_id(post, #[trigger] segs2[i])
        == hist2[i] by {
        if i == 0 {
            // the fresh identifier appears only in the appended tile
            assert(forall|k: int| 0 <= k < removed.len() ==> (#[trigger] removed[k]).id != fresh_id);
            assert(post[removed.len() as int] == newt);
            lemma_coord_of_id_first(post, fresh_id, removed.len() as int);
        } else {
            let s = segments[i - 1];
            lemma_coord_of_id_remove(pre, j, s);
            let kw = choose|kw: int| 0 <= kw < pre.len() && pre[kw].id == s;
            assert(kw != j);
            if kw < j {
                assert(removed[kw] == pre[kw]);
            } else {
                assert(removed[kw - 1] == pre[kw]);
            }
            assert(has_tile_id(removed, s));
            lemma_coord_of_id_push(removed, newt, s);
        }
    }
}

impl Session {
    /// The cell the head enters on the next resolution tick.
    pub open spec fn spec_new_head_position(self) -> Coordinates {
        spec_effective_direction(self.head.facing, self.requested_direction).spec_next(
            self.head.position,
        )
    }

    /// One resolution tick. The facing turns to the requested direction
    /// unless that is the exact opposite; the head advances one cell; then
    /// the first tile at the new cell decides: a reward is consumed and the
    /// tail grows by one segment placed on the cell the head vacated; a
    /// game-over tile yields exactly one request to return to the menu; no
    /// tile means an ordinary move, each tail segment taking its neighbour's
    /// cell toward the head.
    pub fn process_position(&mut self) -> (transition: Option<GameState>)
        requires
            old(self).wf(),
            old(self).next_id < u64::MAX,
            i16::MIN < old(self).head.position.x < i16::MAX,
            i16::MIN < old(self).head.position.y < i16::MAX,
        ensures
            final(self).wf(),
            final(self).half_width == old(self).half_width,
            final(self).requested_direction == old(self).requested_direction,
            final(self).head.facing == spec_effective_direction(
                old(self).head.facing,
                old(self).requested_direction,
            ),
            final(self).head.position == old(self).spec_new_head_position(),
            match first_index_at(old(self).tiles@, old(self).spec_new_head_position()) {
                None => {
                    &&& transition is None
                    &&& shift_rel(
                        old(self).tiles@,
                        final(self).tiles@,
                        old(self).tail_order.segments@,
                        old(self).head.position,
                    )
                    &&& final(self).tail_order.segments@ == old(self).tail_order.segments@
                    &&& final(self).next_id == old(self).next_id
                },
                Some(j) => if old(self).tiles@[j].kind == TileType::Reward {
                    &&& 0 <= j < old(self).tiles@.len()
                    &&& old(self).tiles@[j].coordinates == old(self).spec_new_head_position()
                    &&& transition is None
                    &&& final(self).tiles@ == old(self).tiles@.remove(j).push(
                        Tile {
                            id: old(self).next_id,
                            kind: TileType::GameOver,
                            coordinates: old(self).head.position,
                        },
                    )
                    &&& final(self).tail_order.segments@ == seq![old(self).next_id] + old(
                        self,
                    ).tail_order.segments@
                    &&& final(self).next_id == old(self).next_id + 1
                } else {
                    &&& 0 <= j < old(self).tiles@.len()
                    &&& old(self).tiles@[j].coordinates == old(self).spec_new_head_position()
                    &&& transition == Some(GameState::Menu)
                    &&& final(self).tiles@ == old(self).tiles@
                    &&& final(self).tail_order.segments@ == old(self).tail_order.segments@
                    &&& final(self).next_id == old(self).next_id
                },
            },
    {
        let old_head_position = self.head.position;
        let requested = self.requested_direction;
        if requested != self.head.facing.opposite() {
            self.head.facing = requested;
        }
        let new_head_position = self.head.facing.next_coordinates(old_head_position);
        self.head.position = new_head_position;
        match find_tile_at(&self.tiles, new_head_position) {
            Some(j) => {
                let hit = self.tiles[j];
                if hit.kind == TileType::Reward {
                    let _ = self.tiles.remove(j);
                    let id = self.next_id;
                    self.tiles.push(
                        Tile { id, kind: TileType::GameOver, coordinates: old_head_position },
                    );
                    self.tail_order.segments.insert(0, id);
                    self.next_id = id + 1;
                    proof {
                        self.lemma_wf_after_reward(*old(self), j as int);
                        assert(self.tail_order.segments@ == seq![old(self).next_id] + old(
                            self,
                        ).tail_order.segments@) by {
                            assert(old(self).tail_order.segments@.insert(0, old(self).next_id)
                                =~= seq![old(self).next_id] + old(self).tail_order.segments@);
                        }
                    }
                    None
                } else {
                    Some(GameState::Menu)
                }
            },
            None => {
                self.shift_tail(old_head_position);
                None
            },
        }
    }

    /// Re-establishes the bookkeeping invariant after a reward was consumed
    /// at registry index `j` and the grown tail segment was recorded.
    proof fn lemma_wf_after_reward(self, pre: Session, j: int)
        requires
            pre.wf(),
            pre.next_id < u64::MAX,
            0 <= j < pre.tiles@.len(),
            pre.tiles@[j].kind == TileType::Reward,
            self.half_width == pre.half_width,
            self.tiles@ == pre.tiles@.remove(j).push(
                Tile {
                    id: pre.next_id,
                    kind: TileType::GameOver,
                    coordinates: pre.head.position,
                },
            ),
            self.tail_order.segments@ == pre.tail_order.segments@.insert(0, pre.next_id),
            self.next_id == pre.next_id + 1,
        ensures
            self.wf(),
    {
        let removed = pre.tiles@.remove(j);
        let newt = Tile { id: pre.next_id, kind: TileType::GameOver, coordinates: pre.head.position };
        pre.tiles@.remove_ensures(j);
        pre.tail_order.segments@.insert_ensures(0, pre.next_id);
        let tiles2 = self.tiles@;
        let segs2 = self.tail_order.segments@;
        assert(forall|k: int| 0 <= k < removed.len() ==> #[trigger] tiles2[k] == removed[k]);
        assert(tiles2[removed.len() as int] == newt);
        // identifiers stay unique and below the fresh bound
        assert forall|a: int, b: int| 0 <= a < b < tiles2.len() implies tiles2[a].id
            != tiles2[b].id by {
            if b < removed.len() {
                assert(tiles2[a] == removed[a] && tiles2[b] == removed[b]);
            } else {
                assert(tiles2[a] == removed[a] && tiles2[b] == newt);
            }
        }
        assert forall|a: int| 0 <= a < tiles2.len() implies (#[trigger] tiles2[a]).id
            < self.next_id by {}
        // the grown segment list stays duplicate-free: every old segment names
        // a tile, so its identifier is below the fresh one
        assert forall|a: int, b: int| 0 <= a < b < segs2.len() implies segs2[a] != segs2[b] by {
            if a == 0 {
                let jw = choose|jw: int|
                    0 <= jw < pre.tiles@.len() && pre.tiles@[jw].id == segs2[b]
                        && pre.tiles@[jw].kind == TileType::GameOver;
                assert(pre.tiles@[jw].id < pre.next_id);
            }
        }
        // every segment still names a game-over tile
        assert forall|i: int| 0 <= i < segs2.len() implies segment_tile_ok(
            tiles2,
            #[trigger] segs2[i],
        ) by {
            if i == 0 {
                assert(tiles2[removed.len() as int] == newt);
            } else {
                let seg = segs2[i];
                assert(seg == pre.tail_order.segments@[i - 1]);
                let jw = choose|jw: int|
                    0 <= jw < pre.tiles@.len() && pre.tiles@[jw].id == seg && pre.tiles@[jw].kind
                        == TileType::GameOver;
                if jw < j {
                    assert(tiles2[jw] == removed[jw] && removed[jw] == pre.tiles@[jw]);
                } else {
                    assert(jw != j);
                    assert(tiles2[jw - 1] == removed[jw - 1] && removed[jw - 1] == pre.tiles@[jw]);
                }
            }
        }
    }

    /// The ordinary move: every tail segment, nearest to farthest, takes the
    /// cell of its neighbour toward the head, the nearest taking the cell the
    /// head vacated.
    #[verifier::rlimit(50)]
    fn shift_tail(&mut self, vacated: Coordinates)
        requires
            wf_state(
                old(self).half_width,
                old(self).tiles@,
                old(self).tail_order.segments@,
                old(self).next_id,
            ),
        ensures
            final(self).wf(),
            shift_rel(
                old(self).tiles@,
                final(self).tiles@,
                old(self).tail_order.segments@,
                vacated,
            ),
            final(self).tail_order.segments@ == old(self).tail_order.segments@,
            final(self).next_id == old(self).next_id,
            final(self).half_width == old(self).half_width,
            final(self).head == old(self).head,
            final(self).requested_direction == old(self).requested_direction,
    {
        let ghost tiles0 = old(self).tiles@;
        let ghost segs = old(self).tail_order.segments@;
        let mut carry = vacated;
        let mut i: usize = 0;
        while i < self.tail_order.segments.len()
            invariant
                wf_state(old(self).half_width, tiles0, segs, old(self).next_id),
                self.tail_order.segments@ == segs,
                self.half_width == old(self).half_width,
                self.next_id == old(self).next_id,
                self.head == old(self).head,
                self.requested_direction == old(self).requested_direction,
                i <= segs.len(),
                self.tiles@.len() == tiles0.len(),
                forall|j: int|
                    0 <= j < tiles0.len() ==> (#[trigger] self.tiles@[j]).id == tiles0[j].id
                        && self.tiles@[j].kind == tiles0[j].kind,
                forall|j: int|
                    0 <= j < tiles0.len() && !segment_prefix_contains(
                        segs,
                        i as int,
                        (#[trigger] tiles0[j]).id,
                    ) ==> self.tiles@[j] == tiles0[j],
                forall|k: int|
                    0 <= k < i ==> coord_of_id(self.tiles@, #[trigger] segs[k]) == (if k == 0 {
                        vacated
                    } else {
                        coord_of_id(tiles0, segs[k - 1])
                    }),
                carry == (if i == 0 {
                    vacated
                } else {
                    coord_of_id(tiles0, segs[i - 1])
                }),
            decreases segs.len() - i,
        {
            let seg_id = self.tail_order.segments[i];
            let found = find_tile_index_by_id(&self.tiles, seg_id);
            proof {
                if found is None {
                    let jw = choose|jw: int|
                        0 <= jw < tiles0.len() && tiles0[jw].id == seg_id && tiles0[jw].kind
                            == TileType::GameOver;
                    assert(self.tiles@[jw].id == seg_id);
                    assert(has_tile_id(self.tiles@, seg_id));
                }
            }
            let j = match found {
                Some(jj) => jj,
                None => {
                    assert(false);
                    0
                },
            };
            proof {
                // this segment was not shifted yet, so its tile still holds
                // the cell it had before the tick
                assert(tiles0[j as int].id == seg_id);
                assert(!segment_prefix_contains(segs, i as int, seg_id));
                assert(self.tiles@[j as int] == tiles0[j as int]);
                assert(forall|k: int| 0 <= k < j ==> tiles0[k].id != seg_id);
                lemma_coord_of_id_first(tiles0, seg_id, j as int);
            }
            let tmp = self.tiles[j].coordinates;
            let mut t = self.tiles[j];
            t.coordinates = carry;
            let ghost before = self.tiles@;
            self.tiles.set(j, t);
            proof {
                // cells recorded for the already-shifted segments are untouched
                assert forall|k: int| 0 <= k < i implies coord_of_id(
                    self.tiles@,
                    #[trigger] segs[k],
                ) == (if k == 0 {
                    vacated
                } else {
                    coord_of_id(tiles0, segs[k - 1])
                }) by {
                    assert(segs[k] != seg_id);
                    lemma_coord_of_id_update(before, j as int, t, segs[k]);
                }
                // this segment's tile now records the carried cell
                lemma_coord_of_id_first(self.tiles@, seg_id, j as int);
                assert(coord_of_id(self.tiles@, seg_id) == carry);
            }
            carry = tmp;
            i = i + 1;
        }
        proof {
            // the invariant gives every segment its tile; the identifiers and
            // kinds are untouched, so the bookkeeping invariant carries over
            assert forall|ix: int| 0 <= ix < segs.len() implies segment_tile_ok(
                self.tiles@,
                #[trigger] segs[ix],
            ) by {
                let jw = choose|jw: int|
                    0 <= jw < tiles0.len() && tiles0[jw].id == segs[ix] && tiles0[jw].kind
                        == TileType::GameOver;
                assert(self.tiles@[jw].id == segs[ix] && self.tiles@[jw].kind
                    == TileType::GameOver);
            }
        }
    }
}

/// Law: tearing the session down releases every entity it owned. The returned
/// sequence names the tile of every registry slot exactly once, in order; the
/// head, requested direction and tail order are consumed with the session.
pub fn despawn_game(session: Session) -> (released: Vec<u64>)
    ensures
        released@.len() == session.tiles@.len(),
        forall|k: int| 0 <= k < session.tiles@.len() ==> released@[k] == session.tiles@[k].id,
{
    let mut released: Vec<u64> = Vec::new();
    let mut i: usize = 0;
    while i < session.tiles.len()
        invariant
            i <= session.tiles@.len(),
            released@.len() == i,
            forall|k: int| 0 <= k < i ==> released@[k] == session.tiles@[k].id,
        decreases session.tiles@.len() - i,
    {
        released.push(session.tiles[i].id);
        i = i + 1;
    }
    released
}

} // verus!
