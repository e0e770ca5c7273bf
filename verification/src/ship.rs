//! Ship.

use crate::grid::Coordinate;
use crate::random::{random_u8, random_usize};
use crate::text::push_char;
use vstd::prelude::*;

verus! {

/// The character that represents a boat.
pub const BOAT: char = '△';

/// The character that represents a part of a vertical destroyer ship.
pub const DESTROYER_VERTICAL: char = '▯';

/// The character that represents a part of a horizontal destroyer ship.
pub const DESTROYER_HORIZONTAL: char = '▭';

/// The character that represents a part of a battleship.
pub const BATTLESHIP: char = '▧';

/// The longest side of any ship, in cells.
pub const LONGEST_SIDE: u8 = 3;

/// Available orientations for the ship.
#[derive(Copy, Clone, Debug, PartialEq, Eq, Structural)]
pub enum Orientation {
    /// Vertical placement.
    Vertical,
    /// Horizontal placement.
    Horizontal,
}

/// Available ship types.
#[derive(Copy, Clone, Debug, PartialEq, Eq, Structural)]
pub enum ShipType {
    /// 1x1 boat.
    Boat,
    /// 1x2 or 2x1 ship.
    Destroyer(Orientation),
    /// 3x2 or 2x3 ship.
    Battleship(Orientation),
}

/// Default ship is Boat because it is the smallest.
impl Default for ShipType {
    fn default() -> (kind: Self)
        ensures
            kind == ShipType::Boat,
    {
        Self::Boat
    }
}

/// The `k`-th cell of a battleship anchored at `anchor`.
///
/// A battleship is made of two lines of three cells. The lines run along the
/// rows of the board when it is vertical, along the columns when it is
/// horizontal; the second line lies one step further on the other axis.
pub open spec fn block_cell(orientation: Orientation, anchor: Coordinate, k: int) -> Coordinate {
    match orientation {
        Orientation::Vertical => anchor.shifted(k / 3, k % 3),
        Orientation::Horizontal => anchor.shifted(k % 3, k / 3),
    }
}

impl ShipType {
    /// The character that draws one cell of a ship of this type.
    pub open spec fn glyph(self) -> char {
        match self {
            ShipType::Boat => BOAT,
            ShipType::Destroyer(Orientation::Vertical) => DESTROYER_VERTICAL,
            ShipType::Destroyer(Orientation::Horizontal) => DESTROYER_HORIZONTAL,
            ShipType::Battleship(_) => BATTLESHIP,
        }
    }

    /// The number of columns that a ship of this type spans.
    pub open spec fn width(self) -> int {
        match self {
            ShipType::Boat => 1,
            ShipType::Destroyer(Orientation::Vertical) => 1,
            ShipType::Destroyer(Orientation::Horizontal) => 2,
            ShipType::Battleship(Orientation::Vertical) => 2,
            ShipType::Battleship(Orientation::Horizontal) => 3,
        }
    }

    /// The number of rows that a ship of this type spans.
    pub open spec fn height(self) -> int {
        match self {
            ShipType::Boat => 1,
            ShipType::Destroyer(Orientation::Vertical) => 2,
            ShipType::Destroyer(Orientation::Horizontal) => 1,
            ShipType::Battleship(Orientation::Vertical) => 3,
            ShipType::Battleship(Orientation::Horizontal) => 2,
        }
    }

    /// The number of cells that a ship of this type occupies.
    pub open spec fn size(self) -> int {
        self.width() * self.height()
    }

    /// Whether a ship of this type anchored at `anchor` stays within the
    /// columns and rows that a `u8` can count.
    pub open spec fn reaches(self, anchor: Coordinate) -> bool {
        &&& anchor.x + self.width() - 1 <= u8::MAX
        &&& anchor.y + self.height() - 1 <= u8::MAX
    }

    /// The cells that a ship of this type anchored at `anchor` occupies, in
    /// order, each carrying the mark of the anchor.
    pub open spec fn hitbox(self, anchor: Coordinate) -> Seq<Coordinate> {
        match self {
            ShipType::Boat => seq![anchor],
            ShipType::Destroyer(Orientation::Vertical) => seq![anchor, anchor.shifted(0, 1)],
            ShipType::Destroyer(Orientation::Horizontal) => seq![anchor, anchor.shifted(1, 0)],
            ShipType::Battleship(orientation) => Seq::new(
                6,
                |k: int| block_cell(orientation, anchor, k),
            ),
        }
    }

    /// All ship types.
    pub open spec fn all() -> Seq<ShipType> {
        seq![
            ShipType::Boat,
            ShipType::Destroyer(Orientation::Vertical),
            ShipType::Destroyer(Orientation::Horizontal),
            ShipType::Battleship(Orientation::Vertical),
            ShipType::Battleship(Orientation::Horizontal),
        ]
    }

    /// Returns the possible variants for [`ShipType`].
    pub fn variants() -> (types: Vec<Self>)
        ensures
            types@ == Self::all(),
    {
        let mut types: Vec<Self> = Vec::new();
        types.push(Self::Boat);
        types.push(Self::Destroyer(Orientation::Vertical));
        types.push(Self::Destroyer(Orientation::Horizontal));
        types.push(Self::Battleship(Orientation::Vertical));
        types.push(Self::Battleship(Orientation::Horizontal));
        assert(types@ =~= Self::all());
        types
    }

    /// The variant at `index` in the list of [`ShipType::variants`].
    pub fn pick(index: usize) -> (kind: Self)
        requires
            index < Self::all().len(),
        ensures
            kind == Self::all()[index as int],
    {
        let types = Self::variants();
        types[index]
    }

    /// Returns a random [`ShipType`].
    ///
    /// The type is [`ShipType::pick`] of a random index, so it is one of the
    /// variants; which one is left to chance.
    pub fn new_random() -> (kind: Self)
        ensures
            Self::all().contains(kind),
    {
        let kind = Self::pick(random_usize(0, 4));
        proof {
            Self::lemma_all_variants(kind);
        }
        kind
    }

    /// Tells whether this is a battleship, in either orientation.
    pub fn is_battleship(&self) -> (yes: bool)
        ensures
            yes == (*self is Battleship),
    {
        match self {
            Self::Battleship(_) => true,
            _ => false,
        }
    }

    /// Returns the hit box of the ship.
    ///
    /// Hit area is based on the ship size.
    pub fn get_hitbox(&self, coordinate: Coordinate) -> (cells: Vec<Coordinate>)
        requires
            self.reaches(coordinate),
        ensures
            cells@ == self.hitbox(coordinate),
            cells.len() == self.size(),
    {
        match *self {
            Self::Boat => {
                let mut cells: Vec<Coordinate> = Vec::new();
                cells.push(coordinate);
                assert(cells@ =~= self.hitbox(coordinate));
                cells
            },
            Self::Destroyer(orientation) => {
                let mut next = coordinate;
                match orientation {
                    Orientation::Vertical => {
                        next.y += 1;
                    },
                    Orientation::Horizontal => {
                        next.x += 1;
                    },
                }
                let mut cells: Vec<Coordinate> = Vec::new();
                cells.push(coordinate);
                cells.push(next);
                assert(cells@ =~= self.hitbox(coordinate));
                cells
            },
            Self::Battleship(orientation) => {
                let mut cells: Vec<Coordinate> = Vec::new();
                for i in 0..2u8
                    invariant
                        self.reaches(coordinate),
                        *self == ShipType::Battleship(orientation),
                        cells.len() == 3 * i,
                        forall|k: int|
                            0 <= k < cells.len() ==> cells[k] == block_cell(
                                orientation,
                                coordinate,
                                k,
                            ),
                {
                    let mut line = coordinate;
                    match orientation {
                        Orientation::Vertical => {
                            line.x += i;
                        },
                        Orientation::Horizontal => {
                            line.y += i;
                        },
                    }
                    for j in 0..3u8
                        invariant
                            self.reaches(coordinate),
                            *self == ShipType::Battleship(orientation),
                            i < 2,
                            line == match orientation {
                                Orientation::Vertical => coordinate.shifted(i as int, 0),
                                Orientation::Horizontal => coordinate.shifted(0, i as int),
                            },
                            cells.len() == 3 * i + j,
                            forall|k: int|
                                0 <= k < cells.len() ==> cells[k] == block_cell(
                                    orientation,
                                    coordinate,
                                    k,
                                ),
                    {
                        let mut cell = line;
                        match orientation {
                            Orientation::Vertical => {
                                cell.y += j;
                            },
                            Orientation::Horizontal => {
                                cell.x += j;
                            },
                        }
                        assert(cell == block_cell(orientation, coordinate, 3 * i + j));
                        cells.push(cell);
                    }
                }
                assert(cells@ =~= self.hitbox(coordinate));
                cells
            },
        }
    }

    /// Display the ship as a string: the character that draws its cells.
    pub fn to_string(&self) -> (text: String)
        ensures
            text@ == seq![self.glyph()],
    {
        let glyph = match self {
            ShipType::Boat => BOAT,
            ShipType::Destroyer(Orientation::Vertical) => DESTROYER_VERTICAL,
            ShipType::Destroyer(Orientation::Horizontal) => DESTROYER_HORIZONTAL,
            ShipType::Battleship(_) => BATTLESHIP,
        };
        let mut text = String::new();
        push_char(&mut text, glyph);
        assert(text@ =~= seq![self.glyph()]);
        text
    }

    /// Every ship type is in the list of variants.
    pub proof fn lemma_all_variants(kind: ShipType)
        ensures
            Self::all().contains(kind),
    {
        match kind {
            ShipType::Boat => {
                assert(Self::all()[0] == kind);
            },
            ShipType::Destroyer(Orientation::Vertical) => {
                assert(Self::all()[1] == kind);
            },
            ShipType::Destroyer(Orientation::Horizontal) => {
                assert(Self::all()[2] == kind);
            },
            ShipType::Battleship(Orientation::Vertical) => {
                assert(Self::all()[3] == kind);
            },
            ShipType::Battleship(Orientation::Horizontal) => {
                assert(Self::all()[4] == kind);
            },
        }
    }

    /// A boat has one cell, a destroyer two and a battleship six, whatever
    /// the orientation and the anchor.
    pub proof fn lemma_hitbox_len(self, anchor: Coordinate)
        ensures
            self.hitbox(anchor).len() == self.size(),
            self is Boat ==> self.size() == 1,
            self is Destroyer ==> self.size() == 2,
            self is Battleship ==> self.size() == 6,
    {
    }

    /// The six cells of a battleship, written out: two lines of three.
    pub proof fn lemma_battleship_cells(orientation: Orientation, anchor: Coordinate)
        ensures
            ShipType::Battleship(orientation).hitbox(anchor) == match orientation {
                Orientation::Vertical => seq![
                    anchor,
                    anchor.shifted(0, 1),
                    anchor.shifted(0, 2),
                    anchor.shifted(1, 0),
                    anchor.shifted(1, 1),
                    anchor.shifted(1, 2),
                ],
                Orientation::Horizontal => seq![
                    anchor,
                    anchor.shifted(1, 0),
                    anchor.shifted(2, 0),
                    anchor.shifted(0, 1),
                    anchor.shifted(1, 1),
                    anchor.shifted(2, 1),
                ],
            },
    {
        let cells = ShipType::Battleship(orientation).hitbox(anchor);
        assert(anchor.shifted(0, 0) == anchor);
        match orientation {
            Orientation::Vertical => {
                assert(cells =~= seq![
                    anchor,
                    anchor.shifted(0, 1),
                    anchor.shifted(0, 2),
                    anchor.shifted(1, 0),
                    anchor.shifted(1, 1),
                    anchor.shifted(1, 2),
                ]);
            },
            Orientation::Horizontal => {
                assert(cells =~= seq![
                    anchor,
                    anchor.shifted(1, 0),
                    anchor.shifted(2, 0),
                    anchor.shifted(0, 1),
                    anchor.shifted(1, 1),
                    anchor.shifted(2, 1),
                ]);
            },
        }
    }

    /// The cells of a ship are those of the rectangle that starts at the
    /// anchor and is as wide and as high as the type says, each cell once.
    pub proof fn lemma_hitbox_covers(self, anchor: Coordinate)
        requires
            self.reaches(anchor),
        ensures
            forall|cell: Coordinate|
                (ShipModel { type_: self, coords: self.hitbox(anchor) }).holds(cell) <==> (anchor.x
                    <= cell.x < anchor.x + self.width() && anchor.y <= cell.y < anchor.y
                    + self.height()),
            forall|i: int, j: int|
                0 <= i < j < self.hitbox(anchor).len() ==> !(#[trigger] self.hitbox(
                    anchor,
                )[i]).same_cell(#[trigger] self.hitbox(anchor)[j]),
    {
        let cells = self.hitbox(anchor);
        let ship = ShipModel { type_: self, coords: cells };
        assert(anchor.shifted(0, 0) == anchor);
        assert forall|cell: Coordinate|
            (anchor.x <= cell.x < anchor.x + self.width() && anchor.y <= cell.y < anchor.y
                + self.height()) implies ship.holds(cell) by {
            let dx = cell.x - anchor.x;
            let dy = cell.y - anchor.y;
            let k = match self {
                ShipType::Boat => 0,
                ShipType::Destroyer(_) => dx + dy,
                ShipType::Battleship(Orientation::Vertical) => 3 * dx + dy,
                ShipType::Battleship(Orientation::Horizontal) => 3 * dy + dx,
            };
            assert(0 <= k < cells.len());
            assert(ship.coords[k].same_cell(cell));
        }
        assert forall|cell: Coordinate| ship.holds(cell) implies (anchor.x <= cell.x < anchor.x
            + self.width() && anchor.y <= cell.y < anchor.y + self.height()) by {
            let k = choose|k: int| 0 <= k < ship.coords.len() && (#[trigger] ship.coords[k]).same_cell(
                cell,
            );
            assert(0 <= k / 3 <= 1 && 0 <= k % 3 <= 2) by {
                assert(0 <= k < 6);
            }
        }
    }
}

/// The index of the first coordinate in `coords` that names the cell of
/// `cell`, or the length of `coords` if none does.
pub open spec fn first_at(coords: Seq<Coordinate>, cell: Coordinate) -> int
    decreases coords.len(),
{
    if coords.len() == 0 {
        0
    } else if coords.first().same_cell(cell) {
        0
    } else {
        1 + first_at(coords.drop_first(), cell)
    }
}

/// [`first_at`] is the least index of a coordinate at the cell.
pub proof fn lemma_first_at(coords: Seq<Coordinate>, cell: Coordinate)
    ensures
        0 <= first_at(coords, cell) <= coords.len(),
        forall|j: int|
            0 <= j < first_at(coords, cell) ==> !(#[trigger] coords[j]).same_cell(cell),
        first_at(coords, cell) < coords.len() ==> coords[first_at(coords, cell)].same_cell(cell),
    decreases coords.len(),
{
    if coords.len() > 0 && !coords.first().same_cell(cell) {
        let rest = coords.drop_first();
        lemma_first_at(rest, cell);
        assert forall|j: int| 0 <= j < first_at(coords, cell) implies !(#[trigger] coords[j]).same_cell(
            cell,
        ) by {
            if j > 0 {
                assert(coords[j] == rest[j - 1]);
            }
        }
    }
}

/// What a ship is: its type and the cells it occupies, in order.
pub struct ShipModel {
    /// Ship type.
    pub type_: ShipType,
    /// Coordinates of the ship.
    pub coords: Seq<Coordinate>,
}

impl ShipModel {
    /// Whether every cell of the ship is hit.
    pub open spec fn sunk(self) -> bool {
        forall|i: int| 0 <= i < self.coords.len() ==> (#[trigger] self.coords[i]).is_hit
    }

    /// Whether no cell of the ship is hit.
    pub open spec fn intact(self) -> bool {
        forall|i: int| 0 <= i < self.coords.len() ==> !(#[trigger] self.coords[i]).is_hit
    }

    /// Whether the ship occupies the cell that `cell` names.
    pub open spec fn holds(self, cell: Coordinate) -> bool {
        exists|i: int| 0 <= i < self.coords.len() && (#[trigger] self.coords[i]).same_cell(cell)
    }

    /// Whether the ship shares a cell with `other`.
    pub open spec fn meets(self, other: ShipModel) -> bool {
        exists|i: int| 0 <= i < self.coords.len() && other.holds(#[trigger] self.coords[i])
    }

    /// Whether no two coordinates of the ship name the same cell.
    pub open spec fn distinct(self) -> bool {
        forall|i: int, j: int|
            0 <= i < j < self.coords.len() ==> !(#[trigger] self.coords[i]).same_cell(
                #[trigger] self.coords[j],
            )
    }

    /// Whether the cells are exactly the hit box of the ship's type, anchored
    /// at the first of them.
    pub open spec fn shaped(self) -> bool {
        &&& self.coords.len() > 0
        &&& self.type_.reaches(self.coords[0])
        &&& self.coords == self.type_.hitbox(self.coords[0])
    }

    /// The ship after a shot at `cell`: the first coordinate that names the
    /// cell is marked as hit, if there is one.
    pub open spec fn struck(self, cell: Coordinate) -> ShipModel {
        let i = first_at(self.coords, cell);
        if i < self.coords.len() {
            ShipModel {
                type_: self.type_,
                coords: self.coords.update(
                    i,
                    Coordinate { x: self.coords[i].x, y: self.coords[i].y, is_hit: true },
                ),
            }
        } else {
            self
        }
    }

    /// The ship after shots at each of `cells`, in order.
    pub open spec fn struck_all(self, cells: Seq<Coordinate>) -> ShipModel
        decreases cells.len(),
    {
        if cells.len() == 0 {
            self
        } else {
            self.struck_all(cells.drop_last()).struck(cells.last())
        }
    }
    /// Whether one of `shots` names the cell of `cell`.
    pub open spec fn fired_at(shots: Seq<Coordinate>, cell: Coordinate) -> bool {
        exists|k: int| 0 <= k < shots.len() && (#[trigger] shots[k]).same_cell(cell)
    }

    /// A shot at a ship whose coordinates name different cells marks the
    /// coordinate at the cell of the shot and leaves the others as they are.
    /// No coordinate moves.
    pub proof fn lemma_struck(self, cell: Coordinate)
        requires
            self.distinct(),
        ensures
            self.struck(cell).type_ == self.type_,
            self.struck(cell).coords.len() == self.coords.len(),
            self.struck(cell).distinct(),
            forall|i: int|
                0 <= i < self.coords.len() ==> {
                    &&& (#[trigger] self.struck(cell).coords[i]).same_cell(self.coords[i])
                    &&& self.struck(cell).coords[i].is_hit == (self.coords[i].is_hit
                        || self.coords[i].same_cell(cell))
                },
    {
        lemma_first_at(self.coords, cell);
        let j = first_at(self.coords, cell);
        let after = self.struck(cell);
        assert forall|i: int| 0 <= i < self.coords.len() implies {
            &&& (#[trigger] after.coords[i]).same_cell(self.coords[i])
            &&& after.coords[i].is_hit == (self.coords[i].is_hit || self.coords[i].same_cell(cell))
        } by {
            if j < self.coords.len() && i != j && self.coords[i].same_cell(cell) {
                assert(self.coords[i].same_cell(self.coords[j]));
                if i < j {
                    assert(!self.coords[i].same_cell(self.coords[j]));
                } else {
                    assert(!self.coords[j].same_cell(self.coords[i]));
                }
            }
        }
        assert forall|a: int, b: int| 0 <= a < b < after.coords.len() implies !(
        #[trigger] after.coords[a]).same_cell(#[trigger] after.coords[b]) by {
            assert(after.coords[a].same_cell(self.coords[a]));
            assert(after.coords[b].same_cell(self.coords[b]));
            assert(!self.coords[a].same_cell(self.coords[b]));
        }
    }

    /// After a series of shots at a ship whose coordinates name different
    /// cells, a coordinate is hit exactly if it was hit before or one of the
    /// shots went to its cell.
    pub proof fn lemma_struck_all(self, shots: Seq<Coordinate>)
        requires
            self.distinct(),
        ensures
            self.struck_all(shots).type_ == self.type_,
            self.struck_all(shots).coords.len() == self.coords.len(),
            self.struck_all(shots).distinct(),
            forall|i: int|
                0 <= i < self.coords.len() ==> {
                    &&& (#[trigger] self.struck_all(shots).coords[i]).same_cell(self.coords[i])
                    &&& self.struck_all(shots).coords[i].is_hit == (self.coords[i].is_hit
                        || Self::fired_at(shots, self.coords[i]))
                },
        decreases shots.len(),
    {
        if shots.len() > 0 {
            let earlier = shots.drop_last();
            let before = self.struck_all(earlier);
            self.lemma_struck_all(earlier);
            before.lemma_struck(shots.last());
            let after = self.struck_all(shots);
            assert forall|i: int| 0 <= i < self.coords.len() implies {
                &&& (#[trigger] after.coords[i]).same_cell(self.coords[i])
                &&& after.coords[i].is_hit == (self.coords[i].is_hit || Self::fired_at(
                    shots,
                    self.coords[i],
                ))
            } by {
                let cell = self.coords[i];
                assert(before.coords[i].same_cell(cell));
                assert(after.coords[i].same_cell(before.coords[i]));
                if Self::fired_at(earlier, cell) {
                    let k = choose|k: int|
                        0 <= k < earlier.len() && (#[trigger] earlier[k]).same_cell(cell);
                    assert(shots[k].same_cell(cell));
                }
                if before.coords[i].same_cell(shots.last()) {
                    assert(shots[shots.len() - 1].same_cell(cell));
                }
                if Self::fired_at(shots, cell) {
                    let k = choose|k: int|
                        0 <= k < shots.len() && (#[trigger] shots[k]).same_cell(cell);
                    if k < earlier.len() {
                        assert(earlier[k].same_cell(cell));
                    }
                }
            }
        }
    }

    /// A ship that starts without a hit is not sunk until every one of its
    /// cells has been fired at, and is sunk from then on.
    pub proof fn lemma_sunk_when_every_cell_is_struck(self, shots: Seq<Coordinate>)
        requires
            self.distinct(),
            self.intact(),
        ensures
            self.struck_all(shots).sunk() <==> forall|i: int|
                0 <= i < self.coords.len() ==> Self::fired_at(shots, #[trigger] self.coords[i]),
    {
        self.lemma_struck_all(shots);
        let after = self.struck_all(shots);
        if after.sunk() {
            assert forall|i: int| 0 <= i < self.coords.len() implies Self::fired_at(
                shots,
                #[trigger] self.coords[i],
            ) by {
                assert(after.coords[i].is_hit);
            }
        }
    }

    /// A ship of its type's shape occupies each of its cells once.
    pub proof fn lemma_shaped_is_distinct(self)
        requires
            self.shaped(),
        ensures
            self.distinct(),
    {
        self.type_.lemma_hitbox_covers(self.coords[0]);
    }
}

/// Representation of a ship.
#[derive(Debug)]
pub struct Ship {
    /// Ship type.
    pub type_: ShipType,
    /// Coordinates of the ship.
    pub coords: Vec<Coordinate>,
}

impl View for Ship {
    type V = ShipModel;

    open spec fn view(&self) -> ShipModel {
        ShipModel { type_: self.type_, coords: self.coords@ }
    }
}

/// A boat without cells.
impl Default for Ship {
    fn default() -> (ship: Self)
        ensures
            ship@ == (ShipModel { type_: ShipType::Boat, coords: Seq::empty() }),
    {
        Ship { type_: ShipType::Boat, coords: Vec::new() }
    }
}

impl Ship {
    /// Constructs a new instance of [`Ship`].
    pub fn new(type_: ShipType, coords: Vec<Coordinate>) -> (ship: Self)
        ensures
            ship.type_ == type_,
            ship.coords == coords,
    {
        Self { type_, coords }
    }

    /// Constructs a new instance of [`Ship`] with random properties.
    ///
    /// The type is random, and so is the anchor, which lies within
    /// `max_x` columns and `max_y` rows. The ship may reach beyond them:
    /// whether it fits is decided when it is placed on a grid.
    pub fn new_random(max_x: u8, max_y: u8) -> (ship: Self)
        requires
            1 <= max_x <= u8::MAX - LONGEST_SIDE + 1,
            1 <= max_y <= u8::MAX - LONGEST_SIDE + 1,
        ensures
            ship@.shaped(),
            ship@.intact(),
            1 <= ship.coords[0].x <= max_x,
            1 <= ship.coords[0].y <= max_y,
    {
        let ship_type = ShipType::new_random();
        let coordinate = Coordinate {
            x: random_u8(1, max_x),
            y: random_u8(1, max_y),
            is_hit: false,
        };
        let ship = Self::new(ship_type, ship_type.get_hitbox(coordinate));
        proof {
            ship_type.lemma_hitbox_len(coordinate);
            Self::lemma_hitbox_starts_at_anchor(ship_type, coordinate);
        }
        ship
    }

    /// Returns whether if the ship is sunk.
    pub fn is_sunk(&self) -> (sunk: bool)
        ensures
            sunk == self@.sunk(),
    {
        let mut i: usize = 0;
        while i < self.coords.len()
            invariant
                i <= self.coords.len(),
                forall|k: int| 0 <= k < i ==> (#[trigger] self.coords[k]).is_hit,
            decreases self.coords.len() - i,
        {
            if !self.coords[i].is_hit {
                assert(!self@.coords[i as int].is_hit);
                return false;
            }
            i += 1;
        }
        true
    }

    /// The index of the first coordinate of the ship at the cell of `cell`,
    /// if the ship occupies that cell.
    pub fn position(&self, cell: &Coordinate) -> (found: Option<usize>)
        ensures
            found is Some <==> self@.holds(*cell),
            found matches Some(i) ==> i == first_at(self.coords@, *cell) && i < self.coords.len(),
    {
        proof {
            lemma_first_at(self.coords@, *cell);
        }
        let mut i: usize = 0;
        while i < self.coords.len()
            invariant
                i <= self.coords.len(),
                forall|k: int| 0 <= k < i ==> !(#[trigger] self.coords[k]).same_cell(*cell),
            decreases self.coords.len() - i,
        {
            if self.coords[i].is_at(cell) {
                proof {
                    lemma_first_at(self.coords@, *cell);
                    assert(self@.coords[i as int].same_cell(*cell));
                }
                return Some(i);
            }
            i += 1;
        }
        None
    }

    /// Tells whether the ship occupies the cell that `cell` names.
    pub fn contains(&self, cell: &Coordinate) -> (held: bool)
        ensures
            held == self@.holds(*cell),
    {
        self.position(cell).is_some()
    }

    /// Tells whether the ship shares a cell with `other`.
    pub fn overlaps(&self, other: &Ship) -> (shared: bool)
        ensures
            shared == self@.meets(other@),
    {
        let mut i: usize = 0;
        while i < self.coords.len()
            invariant
                i <= self.coords.len(),
                forall|k: int| 0 <= k < i ==> !other@.holds(#[trigger] self.coords[k]),
            decreases self.coords.len() - i,
        {
            if other.contains(&self.coords[i]) {
                assert(other@.holds(self@.coords[i as int]));
                return true;
            }
            i += 1;
        }
        false
    }

    /// Takes a shot at `cell`: marks the first coordinate of the ship at that
    /// cell as hit, and tells whether there was one.
    pub fn hit(&mut self, cell: &Coordinate) -> (struck: bool)
        ensures
            struck == old(self)@.holds(*cell),
            final(self)@ == old(self)@.struck(*cell),
    {
        proof {
            lemma_first_at(self.coords@, *cell);
        }
        match self.position(cell) {
            Some(i) => {
                self.coords[i].is_hit = true;
                assert(self@.coords =~= old(self)@.struck(*cell).coords);
                true
            },
            None => false,
        }
    }

    /// A hit box starts with its anchor, and carries the anchor's mark in
    /// every cell.
    pub proof fn lemma_hitbox_starts_at_anchor(kind: ShipType, anchor: Coordinate)
        ensures
            kind.hitbox(anchor).len() > 0,
            kind.hitbox(anchor)[0] == anchor,
            forall|i: int|
                0 <= i < kind.hitbox(anchor).len() ==> (#[trigger] kind.hitbox(anchor)[i]).is_hit
                    == anchor.is_hit,
    {
        assert(anchor.shifted(0, 0) == anchor);
    }
}

} // verus!
