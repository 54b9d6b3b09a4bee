use vstd::prelude::*;

verus! {

/// One cell of the play field, in grid units. World-space translation is a
/// presentation concern and lives outside this library.
#[derive(Clone, Copy, PartialEq, Eq, Structural, Debug)]
pub struct Coordinates {
    pub x: i16,
    pub y: i16,
}

impl From<(i16, i16)> for Coordinates {
    fn from(value: (i16, i16)) -> (r: Coordinates)
        ensures
            r == (Coordinates { x: value.0, y: value.1 }),
    {
        Coordinates { x: value.0, y: value.1 }
    }
}

impl vstd::std_specs::convert::FromSpecImpl<(i16, i16)> for Coordinates {
    open spec fn obeys_from_spec() -> bool {
        true
    }

    open spec fn from_spec(value: (i16, i16)) -> Coordinates {
        Coordinates { x: value.0, y: value.1 }
    }
}

/// One of the four cardinal movement directions.
#[derive(Clone, Copy, PartialEq, Eq, Structural, Debug)]
pub enum Direction {
    Up,
    Down,
    Left,
    Right,
}

/// A navigation key as sampled from the input device; `Other` stands for any
/// key that does not steer the snake.
#[derive(Clone, Copy, PartialEq, Eq, Structural, Debug)]
pub enum Key {
    W,
    A,
    S,
    D,
    Up,
    Down,
    Left,
    Right,
    Other,
}

impl Direction {
    /// The direction pointing the opposite way.
    pub open spec fn spec_opposite(self) -> Direction {
        match self {
            Direction::Up => Direction::Down,
            Direction::Down => Direction::Up,
            Direction::Left => Direction::Right,
            Direction::Right => Direction::Left,
        }
    }

    pub fn opposite(&self) -> (r: Direction)
        ensures
            r == self.spec_opposite(),
    {
        match self {
            Direction::Up => Direction::Down,
            Direction::Down => Direction::Up,
            Direction::Left => Direction::Right,
            Direction::Right => Direction::Left,
        }
    }

    /// The cell one unit step away in this direction.
    pub open spec fn spec_next(self, coordinates: Coordinates) -> Coordinates {
        match self {
            Direction::Up => Coordinates { x: coordinates.x, y: (coordinates.y + 1) as i16 },
            Direction::Down => Coordinates { x: coordinates.x, y: (coordinates.y - 1) as i16 },
            Direction::Left => Coordinates { x: (coordinates.x - 1) as i16, y: coordinates.y },
            Direction::Right => Coordinates { x: (coordinates.x + 1) as i16, y: coordinates.y },
        }
    }

    pub fn next_coordinates(&self, coordinates: Coordinates) -> (r: Coordinates)
        requires
            match *self {
                Direction::Up => coordinates.y < i16::MAX,
                Direction::Down => coordinates.y > i16::MIN,
                Direction::Left => coordinates.x > i16::MIN,
                Direction::Right => coordinates.x < i16::MAX,
            },
        ensures
            r == self.spec_next(coordinates),
    {
        let x = coordinates.x;
        let y = coordinates.y;
        match self {
            Direction::Up => Coordinates { x, y: y + 1 },
            Direction::Down => Coordinates { x, y: y - 1 },
            Direction::Left => Coordinates { x: x - 1, y },
            Direction::Right => Coordinates { x: x + 1, y },
        }
    }

    /// The direction a single navigation key asks for, if any.
    pub open spec fn spec_from_key(key: Key) -> Option<Direction> {
        match key {
            Key::W | Key::Up => Some(Direction::Up),
            Key::A | Key::Left => Some(Direction::Left),
            Key::S | Key::Right => Some(Direction::Down),
            Key::D | Key::Down => Some(Direction::Right),
            Key::Other => None,
        }
    }

    pub fn new(input: Key) -> (r: Option<Direction>)
        ensures
            r == Direction::spec_from_key(input),
    {
        match input {
            Key::W | Key::Up => Some(Direction::Up),
            Key::A | Key::Left => Some(Direction::Left),
            Key::S | Key::Right => Some(Direction::Down),
            Key::D | Key::Down => Some(Direction::Right),
            Key::Other => None,
        }
    }

    /// The direction asked for by the first mapped key of a scan over the
    /// currently pressed keys, if any key maps.
    pub open spec fn spec_change(pressed: Seq<Key>) -> Option<Direction>
        decreases pressed.len(),
    {
        if pressed.len() == 0 {
            None
        } else {
            match Direction::spec_from_key(pressed[0]) {
                Some(d) => Some(d),
                None => Direction::spec_change(pressed.drop_first()),
            }
        }
    }

    pub fn change(pressed: &Vec<Key>) -> (r: Option<Direction>)
        ensures
            r == Direction::spec_change(pressed@),
    {
        let mut i: usize = 0;
        while i < pressed.len()
            invariant
                i <= pressed.len(),
                forall|j: int| 0 <= j < i ==> Direction::spec_from_key(#[trigger] pressed@[j]) is None,
            decreases pressed.len() - i,
        {
            let key = pressed[i];
            if let Some(d) = Direction::new(key) {
                proof {
                    lemma_change_skip(pressed@, i as int);
                    assert(pressed@.skip(i as int)[0] == pressed@[i as int]);
                }
                return Some(d);
            }
            i = i + 1;
        }
        proof {
            lemma_change_skip(pressed@, pressed@.len() as int);
        }
        None
    }
}

/// A scan that has found no mapped key among the first `i` keys gives the same
/// result as a scan that starts at key `i`.
proof fn lemma_change_skip(pressed: Seq<Key>, i: int)
    requires
        0 <= i <= pressed.len(),
        forall|j: int| 0 <= j < i ==> Direction::spec_from_key(#[trigger] pressed[j]) is None,
    ensures
        Direction::spec_change(pressed) == Direction::spec_change(pressed.skip(i)),
    decreases i,
{
    if i > 0 {
        lemma_change_skip(pressed.drop_first(), i - 1);
        assert(pressed.drop_first().skip(i - 1) =~= pressed.skip(i));
    } else {
        assert(pressed.skip(0) =~= pressed);
    }
}

/// Law: taking the opposite direction twice returns to the starting direction.
pub proof fn lemma_opposite_involutive(d: Direction)
    ensures
        d.spec_opposite().spec_opposite() == d,
{
}

} // verus!
