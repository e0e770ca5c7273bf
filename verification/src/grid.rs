//! Game board.

use crate::random::random_usize;
use crate::ship::{first_at, lemma_first_at, Ship, ShipModel};
use crate::text::{
    all_digits, decimal, decimal_value, is_decimal_digit, is_digit, is_lower,
    lemma_decimal_digits, lemma_decimal_len, lemma_decimal_round_trip, lemma_decimal_value_prefix,
    lower_char, lowered, push_char, push_decimal, to_chars, to_lower,
};
use vstd::prelude::*;
use vstd::std_specs::cmp::PartialEqSpecImpl;
use vstd::std_specs::convert::{FromSpecImpl, TryFromSpecImpl};

verus! {

/// Number of columns that a letter can name.
pub const COLUMNS: u8 = 26;

/// Representation of coordinates on a 2-dimensional plane.
///
/// Columns and rows are counted from 1. Two coordinates are equal when they
/// name the same cell: `is_hit` is a mark on the cell, not part of its name.
#[derive(Clone, Copy)]
pub struct Coordinate {
    /// Point on the X axis: the column.
    pub x: u8,
    /// Point on the Y axis: the row.
    pub y: u8,
    /// Whether if the coordinate is hit.
    pub is_hit: bool,
}

/// Tells whether a board of the given size can be played on: a letter has to
/// name each of its columns, and its rows are held to the same limit.
pub fn valid_dimensions(width: u8, height: u8) -> (valid: bool)
    ensures
        valid == (width <= COLUMNS && height <= COLUMNS),
{
    width <= COLUMNS && height <= COLUMNS
}

/// The letter that names column `x` on the board, for `1 <= x <= 26`.
pub open spec fn column_letter(x: int) -> char {
    (x + 64) as u8 as char
}

/// The column that the lower-case letter `c` names.
pub open spec fn column_index(c: char) -> int {
    c as int - 96
}

/// Where the column part of `s` ends, given that it reaches at least to `i`.
///
/// The column part is the longest prefix of lower-case letters in which no
/// letter comes before its predecessor in the alphabet.
pub open spec fn column_end(s: Seq<char>, i: nat) -> nat
    decreases s.len() - i,
{
    if i < s.len() && is_lower(s[i as int]) && (i == 0 || s[i - 1] <= s[i as int]) {
        column_end(s, i + 1)
    } else {
        i
    }
}

/// The length of the column part of `s`.
pub open spec fn column_len(s: Seq<char>) -> nat {
    column_end(s, 0)
}

/// The digits of a row number, which may be written with a plus sign.
pub open spec fn row_digits(s: Seq<char>) -> Seq<char> {
    if s.len() > 0 && s.first() == '+' {
        s.drop_first()
    } else {
        s
    }
}

/// The row that `s` writes: one or more decimal digits, with or without a
/// plus sign before them, of a number that fits in a `u8`.
pub open spec fn row_of(s: Seq<char>) -> Option<u8> {
    let digits = row_digits(s);
    if digits.len() > 0 && all_digits(digits) && decimal_value(digits) <= u8::MAX {
        Some(decimal_value(digits) as u8)
    } else {
        None
    }
}

/// The coordinate that `text` writes, if it writes one.
///
/// Upper and lower case are the same. The text starts with its column part
/// (see [`column_end`]), whose last letter names the column: `a` is column 1
/// and `z` is column 26. The rest is the row (see [`row_of`]). The coordinate
/// is not hit.
pub open spec fn parse_text(text: Seq<char>) -> Option<Coordinate> {
    let s = lowered(text);
    let n = column_len(s) as int;
    if n == 0 {
        None
    } else {
        match row_of(s.skip(n)) {
            Some(y) => Some(Coordinate { x: column_index(s[n - 1]) as u8, y, is_hit: false }),
            None => None,
        }
    }
}

impl Coordinate {
    /// Whether `self` and `other` name the same cell.
    pub open spec fn same_cell(self, other: Coordinate) -> bool {
        self.x == other.x && self.y == other.y
    }

    /// The coordinate `dx` columns and `dy` rows further, with the same mark.
    pub open spec fn shifted(self, dx: int, dy: int) -> Coordinate {
        Coordinate { x: (self.x + dx) as u8, y: (self.y + dy) as u8, is_hit: self.is_hit }
    }

    /// The text that writes the coordinate: the letter of the column in upper
    /// case, then the row in decimal.
    pub open spec fn label(self) -> Seq<char> {
        seq![column_letter(self.x as int)] + decimal(self.y as nat)
    }

    /// Whether a letter names the column.
    pub open spec fn has_letter(self) -> bool {
        1 <= self.x <= COLUMNS
    }

    /// Tells whether `self` and `other` name the same cell.
    pub fn is_at(&self, other: &Coordinate) -> (same: bool)
        ensures
            same == self.same_cell(*other),
    {
        self.x == other.x && self.y == other.y
    }

    /// For converting between e.g. (10, 10) to "J10".
    pub fn to_string(&self) -> (text: String)
        requires
            self.has_letter(),
        ensures
            text@ == self.label(),
    {
        let mut text = String::new();
        push_char(&mut text, (self.x + 64) as char);
        push_decimal(&mut text, self.y);
        assert(text@ =~= self.label());
        text
    }
}

/// Dismiss `is_hit` field during comparisons.
impl PartialEq for Coordinate {
    fn eq(&self, other: &Self) -> (same: bool) {
        self.x == other.x && self.y == other.y
    }
}

impl PartialEqSpecImpl for Coordinate {
    open spec fn obeys_eq_spec() -> bool {
        true
    }

    open spec fn eq_spec(&self, other: &Self) -> bool {
        self.x == other.x && self.y == other.y
    }
}

/// The coordinate at the origin, which no board contains.
impl Default for Coordinate {
    fn default() -> (origin: Self)
        ensures
            origin == (Coordinate { x: 0, y: 0, is_hit: false }),
    {
        Coordinate { x: 0, y: 0, is_hit: false }
    }
}

/// `core::fmt::Formatter`, which the debug output is written to. Opaque.
#[verifier::external_type_specification]
#[verifier::external_body]
pub struct ExFormatter<'a>(core::fmt::Formatter<'a>);

/// `core::fmt::Error`, the failure of a formatter. Opaque.
#[verifier::external_type_specification]
#[verifier::external_body]
pub struct ExFmtError(core::fmt::Error);

/// Omit `is_hit` field from debug output.
impl core::fmt::Debug for Coordinate {
    /// Writes the coordinate with `Formatter::debug_struct`, as a struct of
    /// the two fields `x` and `y`. Trusted as a whole; it has no contract.
    #[verifier::external_body]
    fn fmt(&self, f: &mut core::fmt::Formatter<'_>) -> core::fmt::Result {
        f.debug_struct("Coordinate").field("x", &self.x).field("y", &self.y).finish()
    }
}

/// Support constructing a [`Coordinate`] from a tuple.
impl From<(u8, u8)> for Coordinate {
    fn from(v: (u8, u8)) -> (coordinate: Self) {
        Coordinate { x: v.0, y: v.1, is_hit: false }
    }
}

impl FromSpecImpl<(u8, u8)> for Coordinate {
    open spec fn obeys_from_spec() -> bool {
        true
    }

    open spec fn from_spec(v: (u8, u8)) -> Self {
        Coordinate { x: v.0, y: v.1, is_hit: false }
    }
}

/// Reads the row that `s[from..]` writes.
fn parse_row(s: &Vec<char>, from: usize) -> (row: Option<u8>)
    requires
        from <= s.len(),
    ensures
        row == row_of(s@.skip(from as int)),
{
    let ghost rest = s@.skip(from as int);
    let mut i: usize = from;
    if i < s.len() && s[i] == '+' {
        i += 1;
    }
    let start: usize = i;
    let ghost digits = s@.skip(start as int);
    assert(digits =~= row_digits(rest));
    if i == s.len() {
        return None;
    }
    let mut value: u8 = 0;
    assert(digits.take(0) =~= Seq::<char>::empty());
    while i < s.len()
        invariant
            from <= start <= i <= s.len(),
            digits == s@.skip(start as int),
            digits == row_digits(s@.skip(from as int)),
            all_digits(digits.take(i - start)),
            value == decimal_value(digits.take(i - start)),
        decreases s.len() - i,
    {
        let c = s[i];
        let ghost k = i - start;
        assert(digits[k] == c);
        if !is_decimal_digit(c) {
            return None;
        }
        let d: u8 = (c as u8) - 48;
        proof {
            let longer = digits.take(k + 1);
            assert(longer.drop_last() =~= digits.take(k));
            assert(longer.last() == c);
            assert(all_digits(longer)) by {
                assert forall|j: int| 0 <= j < longer.len() implies is_digit(
                    #[trigger] longer[j],
                ) by {
                    if j < k {
                        assert(longer[j] == digits.take(k)[j]);
                    }
                }
            }
            assert(decimal_value(longer) == value * 10 + d);
            if all_digits(digits) {
                lemma_decimal_value_prefix(digits, k + 1);
            }
        }
        if value > 25 || (value == 25 && d > 5) {
            return None;
        }
        value = value * 10 + d;
        i += 1;
    }
    assert(digits.take(i - start) =~= digits);
    Some(value)
}

/// For converting between e.g. "J10" to (10, 10).
impl TryFrom<String> for Coordinate {
    type Error = ();

    fn try_from(value: String) -> (parsed: Result<Self, Self::Error>) {
        let chars = to_chars(value.as_str());
        let mut s: Vec<char> = Vec::new();
        let mut k: usize = 0;
        while k < chars.len()
            invariant
                k <= chars.len(),
                s@ == lowered(chars@).take(k as int),
            decreases chars.len() - k,
        {
            s.push(to_lower(chars[k]));
            k += 1;
            assert(s@ =~= lowered(chars@).take(k as int));
        }
        assert(s@ =~= lowered(value@));
        let mut n: usize = 0;
        while n < s.len() && 'a' <= s[n] && s[n] <= 'z' && (n == 0 || s[n - 1] <= s[n])
            invariant
                n <= s.len(),
                column_len(s@) == column_end(s@, n as nat),
                n > 0 ==> is_lower(s@[n - 1]),
            decreases s.len() - n,
        {
            n += 1;
        }
        assert(column_len(s@) == n);
        if n == 0 {
            return Err(());
        }
        match parse_row(&s, n) {
            Some(y) => Ok(Coordinate { x: (s[n - 1] as u8) - 96, y, is_hit: false }),
            None => Err(()),
        }
    }
}

impl TryFromSpecImpl<String> for Coordinate {
    open spec fn obeys_try_from_spec() -> bool {
        true
    }

    open spec fn try_from_spec(v: String) -> Result<Self, ()> {
        match parse_text(v@) {
            Some(coordinate) => Ok(coordinate),
            None => Err(()),
        }
    }
}

/// A coordinate that was read from text lies in a column that a letter
/// names, and is not hit.
pub proof fn lemma_parsed_has_letter(text: Seq<char>)
    ensures
        parse_text(text) matches Some(coordinate) ==> coordinate.has_letter()
            && !coordinate.is_hit,
{
    let s = lowered(text);
    lemma_column_end(s, 0);
}

/// The column part that [`column_end`] finds ends within the text, holds
/// lower-case letters only, and goes on from `i` where it reached `i`.
pub proof fn lemma_column_end(s: Seq<char>, i: nat)
    requires
        i <= s.len(),
        i > 0 ==> is_lower(s[i - 1]),
    ensures
        i <= column_end(s, i) <= s.len(),
        column_end(s, i) > 0 ==> is_lower(s[column_end(s, i) - 1]),
    decreases s.len() - i,
{
    if i < s.len() && is_lower(s[i as int]) && (i == 0 || s[i - 1] <= s[i as int]) {
        lemma_column_end(s, i + 1);
    }
}

/// Every cell that a letter can name is written and read back unchanged:
/// the text of a coordinate parses to the coordinate of the same cell, not
/// hit.
pub proof fn lemma_label_round_trip(coordinate: Coordinate)
    requires
        coordinate.has_letter(),
    ensures
        parse_text(coordinate.label()) == Some(
            Coordinate { x: coordinate.x, y: coordinate.y, is_hit: false },
        ),
{
    let text = coordinate.label();
    let numeral = decimal(coordinate.y as nat);
    let s = lowered(text);
    lemma_decimal_digits(coordinate.y as nat);
    lemma_decimal_len(coordinate.y as nat);
    lemma_decimal_round_trip(coordinate.y as nat);
    assert(text[0] == column_letter(coordinate.x as int));
    assert(s[0] == lower_char(text[0]));
    assert(text[1] == numeral[0]);
    assert(is_digit(numeral[0]));
    assert(s[1] == text[1]);
    assert(column_end(s, 1) == 1);
    assert(column_len(s) == 1);
    assert(s.skip(1) =~= numeral) by {
        assert forall|i: int| 0 <= i < numeral.len() implies s.skip(1)[i] == numeral[i] by {
            assert(text[i + 1] == numeral[i]);
            assert(is_digit(numeral[i]));
        }
    }
    assert(row_digits(numeral) == numeral);
}

/// The character that represents a hit.
pub const HIT_POINT: char = '☒';

/// The character that represents a miss.
pub const MISSED_POINT: char = '✕';

/// The character to display a default coordinate.
pub const DEFAULT_POINT: char = '•';

/// Smallest number of boats and destroyers in a random fleet.
pub const MIN_FLEET: usize = 4;

/// Largest number of boats and destroyers in a random fleet.
pub const MAX_FLEET: usize = 7;

/// How many random ships are tried for one fleet before giving up.
pub const MAX_ATTEMPTS: usize = 10000;

/// The headers of the first `n` columns: for each its letter and a blank.
pub open spec fn header_cells(n: nat) -> Seq<char>
    decreases n,
{
    if n == 0 {
        Seq::empty()
    } else {
        header_cells((n - 1) as nat) + seq![column_letter(n as int), ' ']
    }
}

/// The label at the start of a row: the number of the row, filled up with
/// blanks to three characters.
pub open spec fn row_label(row: nat) -> Seq<char> {
    let numeral = decimal(row);
    if numeral.len() == 1 {
        numeral + seq![' ', ' ']
    } else if numeral.len() == 2 {
        numeral + seq![' ']
    } else {
        numeral
    }
}

/// The index of the first ship in `ships` that occupies the cell of `cell`,
/// or the length of `ships` if none does.
pub open spec fn first_holder(ships: Seq<ShipModel>, cell: Coordinate) -> int
    decreases ships.len(),
{
    if ships.len() == 0 {
        0
    } else if ships.first().holds(cell) {
        0
    } else {
        1 + first_holder(ships.drop_first(), cell)
    }
}

/// [`first_holder`] is the least index of a ship on the cell.
pub proof fn lemma_first_holder(ships: Seq<ShipModel>, cell: Coordinate)
    ensures
        0 <= first_holder(ships, cell) <= ships.len(),
        forall|j: int| 0 <= j < first_holder(ships, cell) ==> !(#[trigger] ships[j]).holds(cell),
        first_holder(ships, cell) < ships.len() ==> ships[first_holder(ships, cell)].holds(cell),
    decreases ships.len(),
{
    if ships.len() > 0 && !ships.first().holds(cell) {
        let rest = ships.drop_first();
        lemma_first_holder(rest, cell);
        assert forall|j: int| 0 <= j < first_holder(ships, cell) implies !(#[trigger] ships[j]).holds(
            cell,
        ) by {
            if j > 0 {
                assert(ships[j] == rest[j - 1]);
            }
        }
    }
}

/// What a grid is: its size and the ships on it, in the order of placement.
pub struct GridModel {
    /// Width.
    pub width: u8,
    /// Height.
    pub height: u8,
    /// Ships on the grid.
    pub ships: Seq<ShipModel>,
}

impl GridModel {
    /// The grid of the given size without ships.
    pub open spec fn empty(width: u8, height: u8) -> GridModel {
        GridModel { width, height, ships: Seq::empty() }
    }

    /// Whether `cell` names a cell of the grid: columns and rows are counted
    /// from 1.
    pub open spec fn contains(self, cell: Coordinate) -> bool {
        1 <= cell.x <= self.width && 1 <= cell.y <= self.height
    }

    /// Whether every cell of `ship` is a cell of the grid.
    pub open spec fn fits(self, ship: ShipModel) -> bool {
        forall|i: int| 0 <= i < ship.coords.len() ==> self.contains(#[trigger] ship.coords[i])
    }

    /// Whether a ship on the grid shares a cell with `ship`.
    pub open spec fn overlaps(self, ship: ShipModel) -> bool {
        exists|i: int| 0 <= i < self.ships.len() && (#[trigger] self.ships[i]).meets(ship)
    }

    /// Whether `ship` can be placed: it lies on the grid and on no other ship.
    pub open spec fn accepts(self, ship: ShipModel) -> bool {
        self.fits(ship) && !self.overlaps(ship)
    }

    /// The grid after an attempt to place `ship`: the ship comes last if it
    /// is accepted, and nothing changes if it is not.
    pub open spec fn place(self, ship: ShipModel) -> GridModel {
        if self.accepts(ship) {
            GridModel { width: self.width, height: self.height, ships: self.ships.push(ship) }
        } else {
            self
        }
    }

    /// The grid after attempts to place each of `ships`, in order.
    pub open spec fn place_all(self, ships: Seq<ShipModel>) -> GridModel
        decreases ships.len(),
    {
        if ships.len() == 0 {
            self
        } else {
            self.place_all(ships.drop_last()).place(ships.last())
        }
    }

    /// The invariant of a grid: every ship lies on the grid, and no two ships
    /// share a cell.
    pub open spec fn wf(self) -> bool {
        &&& forall|i: int| 0 <= i < self.ships.len() ==> self.fits(#[trigger] self.ships[i])
        &&& forall|i: int, j: int|
            0 <= i < j < self.ships.len() ==> !(#[trigger] self.ships[i]).meets(
                #[trigger] self.ships[j],
            )
    }

    /// Whether a ship occupies the cell of `cell`.
    pub open spec fn occupied(self, cell: Coordinate) -> bool {
        first_holder(self.ships, cell) < self.ships.len()
    }

    /// The grid after a shot at `cell`: the first ship on that cell is struck
    /// there, and a shot into the water changes nothing.
    pub open spec fn fired(self, cell: Coordinate) -> GridModel {
        let i = first_holder(self.ships, cell);
        if i < self.ships.len() {
            GridModel {
                width: self.width,
                height: self.height,
                ships: self.ships.update(i, self.ships[i].struck(cell)),
            }
        } else {
            self
        }
    }

    /// Whether every ship on the grid is sunk. A grid without ships is
    /// defeated.
    pub open spec fn defeated(self) -> bool {
        forall|i: int| 0 <= i < self.ships.len() ==> (#[trigger] self.ships[i]).sunk()
    }

    /// The character that draws the cell of `cell`.
    ///
    /// A cell that no ship occupies shows [`DEFAULT_POINT`]. A cell of a
    /// ship shows [`HIT_POINT`] once it is hit; until then it shows the
    /// character of the ship's type where ships are shown, and
    /// [`MISSED_POINT`] where they are not. Where ships lie on each other,
    /// the first one is drawn.
    pub open spec fn glyph(self, cell: Coordinate, show_ships: bool) -> char {
        let i = first_holder(self.ships, cell);
        if i < self.ships.len() {
            let ship = self.ships[i];
            if ship.coords[first_at(ship.coords, cell)].is_hit {
                HIT_POINT
            } else if show_ships {
                ship.type_.glyph()
            } else {
                MISSED_POINT
            }
        } else {
            DEFAULT_POINT
        }
    }

    /// The first `n` cells of row `row` as text: for each cell its character
    /// and a blank.
    pub open spec fn row_cells(self, row: u8, n: nat, show_ships: bool) -> Seq<char>
        decreases n,
    {
        if n == 0 {
            Seq::empty()
        } else {
            self.row_cells(row, (n - 1) as nat, show_ships) + seq![
                self.glyph(Coordinate { x: n as u8, y: row, is_hit: false }, show_ships),
                ' ',
            ]
        }
    }

    /// Row `row` as a line of text: its label, its cells, a line feed.
    pub open spec fn row(self, row: u8, show_ships: bool) -> Seq<char> {
        row_label(row as nat) + self.row_cells(row, self.width as nat, show_ships) + seq!['\n']
    }

    /// The first `n` rows as text.
    pub open spec fn rows(self, n: nat, show_ships: bool) -> Seq<char>
        decreases n,
    {
        if n == 0 {
            Seq::empty()
        } else {
            self.rows((n - 1) as nat, show_ships) + self.row(n as u8, show_ships)
        }
    }

    /// The line of text above the rows: three blanks, then the letters of the
    /// columns.
    pub open spec fn header(self) -> Seq<char> {
        seq![' ', ' ', ' '] + header_cells(self.width as nat) + seq!['\n']
    }

    /// The grid as text: an empty line, the header, then the rows from the
    /// first to the last.
    pub open spec fn render(self, show_ships: bool) -> Seq<char> {
        seq!['\n'] + self.header() + self.rows(self.height as nat, show_ships)
    }

    /// The number of ships before the battleship that closes the fleet, or
    /// the number of all ships where the last one is no battleship.
    pub open spec fn small_ships(self) -> int {
        if self.ships.len() > 0 && self.ships.last().type_ is Battleship {
            self.ships.len() - 1
        } else {
            self.ships.len() as int
        }
    }

    /// Whether the ships are a fleet as it is dealt at the start of a game:
    /// between [`MIN_FLEET`] and [`MAX_FLEET`] boats and destroyers, then at
    /// most one battleship; every ship of its type's shape, none hit, all on
    /// the grid, no two on the same cell.
    pub open spec fn is_fleet(self) -> bool {
        &&& self.wf()
        &&& MIN_FLEET <= self.small_ships() <= MAX_FLEET
        &&& forall|i: int|
            0 <= i < self.small_ships() ==> !((#[trigger] self.ships[i]).type_ is Battleship)
        &&& forall|i: int|
            0 <= i < self.ships.len() ==> (#[trigger] self.ships[i]).shaped()
                && self.ships[i].intact()
    }

    /// Placing a ship keeps the invariant.
    pub proof fn lemma_place_keeps_wf(self, ship: ShipModel)
        requires
            self.wf(),
        ensures
            self.place(ship).wf(),
    {
        let after = self.place(ship);
        if self.accepts(ship) {
            let n = self.ships.len() as int;
            assert forall|i: int| 0 <= i < after.ships.len() implies after.fits(
                #[trigger] after.ships[i],
            ) by {
                if i < n {
                    assert(self.fits(self.ships[i]));
                }
            }
            assert forall|i: int, j: int| 0 <= i < j < after.ships.len() implies !(
            #[trigger] after.ships[i]).meets(#[trigger] after.ships[j]) by {
                if j < n {
                    assert(!self.ships[i].meets(self.ships[j]));
                } else {
                    assert(after.ships[i] == self.ships[i]);
                }
            }
        }
    }

    /// A shot moves no ship: it keeps the invariant.
    pub proof fn lemma_fired_keeps_wf(self, cell: Coordinate)
        requires
            self.wf(),
        ensures
            self.fired(cell).wf(),
    {
        let after = self.fired(cell);
        let k = first_holder(self.ships, cell);
        lemma_first_holder(self.ships, cell);
        if k < self.ships.len() {
            let before = self.ships[k];
            let struck = before.struck(cell);
            lemma_first_at(before.coords, cell);
            assert(struck.coords.len() == before.coords.len());
            assert forall|c: int| 0 <= c < struck.coords.len() implies (#[trigger] struck.coords[c]).same_cell(
                before.coords[c],
            ) by {}
            assert forall|other: Coordinate| struck.holds(other) == before.holds(other) by {
                if struck.holds(other) {
                    let c = choose|c: int|
                        0 <= c < struck.coords.len() && (#[trigger] struck.coords[c]).same_cell(
                            other,
                        );
                    assert(before.coords[c].same_cell(other));
                }
                if before.holds(other) {
                    let c = choose|c: int|
                        0 <= c < before.coords.len() && (#[trigger] before.coords[c]).same_cell(
                            other,
                        );
                    assert(struck.coords[c].same_cell(other));
                }
            }
            assert forall|i: int| 0 <= i < after.ships.len() implies after.fits(
                #[trigger] after.ships[i],
            ) by {
                assert(self.fits(self.ships[i]));
                if i == k {
                    assert forall|c: int| 0 <= c < struck.coords.len() implies after.contains(
                        #[trigger] struck.coords[c],
                    ) by {
                        assert(self.contains(before.coords[c]));
                        assert(struck.coords[c].same_cell(before.coords[c]));
                    }
                }
            }
            assert forall|i: int, j: int| 0 <= i < j < after.ships.len() implies !(
            #[trigger] after.ships[i]).meets(#[trigger] after.ships[j]) by {
                assert(!self.ships[i].meets(self.ships[j]));
                if after.ships[i].meets(after.ships[j]) {
                    let c = choose|c: int|
                        0 <= c < after.ships[i].coords.len() && after.ships[j].holds(
                            #[trigger] after.ships[i].coords[c],
                        );
                    let shared = after.ships[i].coords[c];
                    if i == k {
                        assert(struck.coords[c].same_cell(before.coords[c]));
                        assert(self.ships[j].holds(shared));
                        let d = choose|d: int|
                            0 <= d < self.ships[j].coords.len() && (
                            #[trigger] self.ships[j].coords[d]).same_cell(shared);
                        assert(self.ships[j].coords[d].same_cell(before.coords[c]));
                        assert(self.ships[j].holds(before.coords[c]));
                    } else if j == k {
                        assert(before.holds(shared));
                        assert(self.ships[j].holds(self.ships[i].coords[c]));
                    } else {
                        assert(self.ships[j].holds(self.ships[i].coords[c]));
                    }
                    assert(false);
                }
            }
        }
    }

    /// Whatever ships are offered, in whatever order: a grid that started
    /// without ships never holds a ship that leaves the grid, nor two ships
    /// that share a cell.
    pub proof fn lemma_placements_keep_wf(width: u8, height: u8, ships: Seq<ShipModel>)
        ensures
            Self::empty(width, height).place_all(ships).wf(),
        decreases ships.len(),
    {
        if ships.len() > 0 {
            Self::lemma_placements_keep_wf(width, height, ships.drop_last());
            Self::empty(width, height).place_all(ships.drop_last()).lemma_place_keeps_wf(
                ships.last(),
            );
        }
    }
}

/// A fleet under construction: the grid with the ships placed so far, and
/// the battleship that waits to be placed last.
pub struct Muster {
    /// The ships placed so far.
    pub grid: GridModel,
    /// The battleship set aside, if one was offered.
    pub reserve: Option<ShipModel>,
}

impl Muster {
    /// The fleet before any ship is offered.
    pub open spec fn start(width: u8, height: u8) -> Muster {
        Muster { grid: GridModel::empty(width, height), reserve: None }
    }

    /// The fleet after `ship` is offered, where `target` ships are wanted
    /// on the grid. Once that many stand there, nothing changes. Until then
    /// a battleship is set aside, in place of the one set aside before, and
    /// any other ship is placed if the grid accepts it.
    pub open spec fn offered(self, target: int, ship: ShipModel) -> Muster {
        if self.grid.ships.len() == target {
            self
        } else if ship.type_ is Battleship {
            Muster { grid: self.grid, reserve: Some(ship) }
        } else {
            Muster { grid: self.grid.place(ship), reserve: self.reserve }
        }
    }

    /// The fleet after each of `ships` is offered, in order.
    pub open spec fn offered_all(self, target: int, ships: Seq<ShipModel>) -> Muster
        decreases ships.len(),
    {
        if ships.len() == 0 {
            self
        } else {
            self.offered_all(target, ships.drop_last()).offered(target, ships.last())
        }
    }

    /// What comes of the fleet: nothing if fewer than `target` ships stand
    /// on the grid; else the grid, with the battleship that was set aside as
    /// its last ship if the grid accepts it.
    pub open spec fn finished(self, target: int) -> Option<GridModel> {
        if self.grid.ships.len() != target {
            None
        } else {
            Some(
                match self.reserve {
                    Some(battleship) => self.grid.place(battleship),
                    None => self.grid,
                },
            )
        }
    }

    /// What holds of a fleet under construction at every step: the grid has
    /// its size and its invariant, no more than `target` ships stand on it,
    /// none of them a battleship, and every ship, the one set aside too, has
    /// the shape of its type and no hit.
    pub open spec fn orderly(self, width: u8, height: u8, target: int) -> bool {
        &&& self.grid.width == width
        &&& self.grid.height == height
        &&& self.grid.wf()
        &&& self.grid.ships.len() <= target
        &&& forall|i: int|
            0 <= i < self.grid.ships.len() ==> {
                &&& !((#[trigger] self.grid.ships[i]).type_ is Battleship)
                &&& self.grid.ships[i].shaped()
                &&& self.grid.ships[i].intact()
            }
        &&& self.reserve matches Some(battleship) ==> {
            &&& battleship.type_ is Battleship
            &&& battleship.shaped()
            &&& battleship.intact()
        }
    }

    /// Offering a ship that can be drawn keeps a fleet orderly.
    pub proof fn lemma_offered_orderly(self, width: u8, height: u8, target: int, ship: ShipModel)
        requires
            self.orderly(width, height, target),
            drawable(ship, width, height),
        ensures
            self.offered(target, ship).orderly(width, height, target),
    {
        let after = self.offered(target, ship);
        if self.grid.ships.len() != target && !(ship.type_ is Battleship) {
            self.grid.lemma_place_keeps_wf(ship);
            assert forall|i: int| 0 <= i < after.grid.ships.len() implies {
                &&& !((#[trigger] after.grid.ships[i]).type_ is Battleship)
                &&& after.grid.ships[i].shaped()
                &&& after.grid.ships[i].intact()
            } by {
                if i < self.grid.ships.len() {
                    assert(after.grid.ships[i] == self.grid.ships[i]);
                }
            }
        }
    }

    /// Whatever ships are drawn, the fleet is orderly after they are offered.
    pub proof fn lemma_offered_all_orderly(
        width: u8,
        height: u8,
        target: int,
        drawn: Seq<ShipModel>,
    )
        requires
            0 <= target,
            forall|i: int| 0 <= i < drawn.len() ==> drawable(#[trigger] drawn[i], width, height),
        ensures
            Self::start(width, height).offered_all(target, drawn).orderly(width, height, target),
        decreases drawn.len(),
    {
        if drawn.len() > 0 {
            let earlier = drawn.drop_last();
            assert forall|i: int| 0 <= i < earlier.len() implies drawable(
                #[trigger] earlier[i],
                width,
                height,
            ) by {
                assert(earlier[i] == drawn[i]);
            }
            Self::lemma_offered_all_orderly(width, height, target, earlier);
            assert(drawable(drawn[drawn.len() - 1], width, height));
            Self::start(width, height).offered_all(target, earlier).lemma_offered_orderly(
                width,
                height,
                target,
                drawn.last(),
            );
        }
    }
}

/// Whether `ship` can be drawn at random for a grid of the given size: it has
/// the shape of its type, no hit, and its first cell on the grid.
pub open spec fn drawable(ship: ShipModel, width: u8, height: u8) -> bool {
    &&& ship.shaped()
    &&& ship.intact()
    &&& 1 <= ship.coords[0].x <= width
    &&& 1 <= ship.coords[0].y <= height
}

/// Whether `dealt` is what comes of dealing a fleet on a grid of the given
/// size when `target` is the number drawn for its boats and destroyers and
/// `drawn` are the ships drawn, in order: the ships are offered one by one
/// (see [`Muster`]), and no fleet comes of it only if all of
/// [`MAX_ATTEMPTS`] ships were drawn.
pub open spec fn dealt_from(
    width: u8,
    height: u8,
    target: int,
    drawn: Seq<ShipModel>,
    dealt: Option<GridModel>,
) -> bool {
    &&& MIN_FLEET <= target <= MAX_FLEET
    &&& drawn.len() <= MAX_ATTEMPTS
    &&& forall|i: int| 0 <= i < drawn.len() ==> drawable(#[trigger] drawn[i], width, height)
    &&& dealt == Muster::start(width, height).offered_all(target, drawn).finished(target)
    &&& dealt is None ==> drawn.len() == MAX_ATTEMPTS
}

/// Whether `dealt` is what comes of dealing a fleet on a grid of the given
/// size, for some number and some ships that can be drawn.
pub open spec fn is_deal(width: u8, height: u8, dealt: Option<GridModel>) -> bool {
    exists|target: int, drawn: Seq<ShipModel>| #[trigger]
        dealt_from(width, height, target, drawn, dealt)
}

/// Whatever is drawn, a grid that comes of a deal has the size asked for and
/// holds a fleet: it is not empty, no ship leaves the grid and no two ships
/// share a cell.
pub proof fn lemma_deal_is_fleet(width: u8, height: u8, grid: GridModel)
    requires
        is_deal(width, height, Some(grid)),
    ensures
        grid.width == width,
        grid.height == height,
        grid.is_fleet(),
        grid.ships.len() > 0,
{
    let (target, drawn) = choose|target: int, drawn: Seq<ShipModel>| #[trigger]
        dealt_from(width, height, target, drawn, Some(grid));
    let muster = Muster::start(width, height).offered_all(target, drawn);
    Muster::lemma_offered_all_orderly(width, height, target, drawn);
    let small = muster.grid;
    assert(small.ships.len() == target);
    if muster.reserve is Some {
        small.lemma_place_keeps_wf(muster.reserve->0);
    }
    assert forall|i: int| 0 <= i < small.ships.len() implies grid.ships[i]
        == #[trigger] small.ships[i] by {}
    assert(grid.small_ships() == small.ships.len());
    assert forall|i: int| 0 <= i < grid.ships.len() implies (#[trigger] grid.ships[i]).shaped()
        && grid.ships[i].intact() by {
        if i < small.ships.len() {
            assert(grid.ships[i] == small.ships[i]);
        }
    }
    assert forall|i: int| 0 <= i < grid.small_ships() implies !((#[trigger] grid.ships[i]).type_
        is Battleship) by {
        assert(grid.ships[i] == small.ships[i]);
    }
}

/// What an optional ship is.
pub open spec fn ship_view(ship: Option<Ship>) -> Option<ShipModel> {
    match ship {
        Some(ship) => Some(ship@),
        None => None,
    }
}

/// What an optional grid is.
pub open spec fn grid_view(grid: Option<Grid>) -> Option<GridModel> {
    match grid {
        Some(grid) => Some(grid@),
        None => None,
    }
}

/// Representation of the game grid.
#[derive(Debug)]
pub struct Grid {
    /// Width.
    pub width: u8,
    /// Height.
    pub height: u8,
    /// Ships on the grid.
    pub ships: Vec<Ship>,
}

impl View for Grid {
    type V = GridModel;

    open spec fn view(&self) -> GridModel {
        GridModel {
            width: self.width,
            height: self.height,
            ships: Seq::new(self.ships.len() as nat, |i: int| self.ships[i]@),
        }
    }
}

/// The grid without cells and without ships.
impl Default for Grid {
    fn default() -> (grid: Self)
        ensures
            grid@ == GridModel::empty(0, 0),
    {
        let grid = Grid { width: 0, height: 0, ships: Vec::new() };
        assert(grid@.ships =~= Seq::empty());
        grid
    }
}

impl Grid {
    /// Constructs a new instance of [`Grid`].
    pub fn new(width: u8, height: u8) -> (grid: Self)
        ensures
            grid@ == GridModel::empty(width, height),
            grid@.wf(),
            grid.ships.len() == 0,
    {
        let grid = Self { width, height, ships: Vec::new() };
        assert(grid@.ships =~= Seq::empty());
        grid
    }

    /// Tells whether every cell of `ship` is a cell of the grid.
    pub fn fits(&self, ship: &Ship) -> (inside: bool)
        ensures
            inside == self@.fits(ship@),
    {
        let mut i: usize = 0;
        while i < ship.coords.len()
            invariant
                i <= ship.coords.len(),
                forall|k: int| 0 <= k < i ==> self@.contains(#[trigger] ship@.coords[k]),
            decreases ship.coords.len() - i,
        {
            let cell = &ship.coords[i];
            if cell.x < 1 || cell.x > self.width || cell.y < 1 || cell.y > self.height {
                assert(!self@.contains(ship@.coords[i as int]));
                return false;
            }
            i += 1;
        }
        true
    }

    /// Tells whether a ship on the grid shares a cell with `ship`.
    pub fn overlaps(&self, ship: &Ship) -> (shared: bool)
        ensures
            shared == self@.overlaps(ship@),
    {
        let mut i: usize = 0;
        while i < self.ships.len()
            invariant
                i <= self.ships.len(),
                forall|k: int| 0 <= k < i ==> !(#[trigger] self@.ships[k]).meets(ship@),
            decreases self.ships.len() - i,
        {
            if self.ships[i].overlaps(ship) {
                assert(self@.ships[i as int].meets(ship@));
                return true;
            }
            i += 1;
        }
        false
    }

    /// Places a ship on the grid.
    ///
    /// Returns `false` if the ship is overlapping with other ships
    /// or placed outside the grid.
    /// Returns `true` if the placement is successful.
    pub fn place_ship(&mut self, ship: Ship) -> (placed: bool)
        ensures
            placed == old(self)@.accepts(ship@),
            final(self)@ == old(self)@.place(ship@),
            old(self)@.wf() ==> final(self)@.wf(),
    {
        proof {
            if self@.wf() {
                self@.lemma_place_keeps_wf(ship@);
            }
        }
        let overlaps = self.overlaps(&ship);
        let overflows = !self.fits(&ship);
        if overlaps || overflows {
            false
        } else {
            self.ships.push(ship);
            assert(self@.ships =~= old(self)@.ships.push(ship@));
            true
        }
    }

    /// The index of the first ship on the cell of `cell`, if there is one.
    pub fn occupant(&self, cell: &Coordinate) -> (found: Option<usize>)
        ensures
            found is Some <==> self@.occupied(*cell),
            found matches Some(i) ==> i == first_holder(self@.ships, *cell) && i
                < self.ships.len(),
    {
        proof {
            lemma_first_holder(self@.ships, *cell);
        }
        let mut i: usize = 0;
        while i < self.ships.len()
            invariant
                i <= self.ships.len(),
                forall|k: int| 0 <= k < i ==> !(#[trigger] self@.ships[k]).holds(*cell),
            decreases self.ships.len() - i,
        {
            if self.ships[i].contains(cell) {
                proof {
                    lemma_first_holder(self@.ships, *cell);
                    assert(self@.ships[i as int].holds(*cell));
                }
                return Some(i);
            }
            i += 1;
        }
        None
    }

    /// Takes a shot at the cell that `target` names.
    ///
    /// If a ship occupies the cell, the cell is marked as hit on the first
    /// such ship and the result is `true`: a hit. Otherwise nothing changes
    /// and the result is `false`: a miss.
    pub fn fire(&mut self, target: &Coordinate) -> (hit: bool)
        ensures
            hit == old(self)@.occupied(*target),
            final(self)@ == old(self)@.fired(*target),
            old(self)@.wf() ==> final(self)@.wf(),
    {
        proof {
            if self@.wf() {
                self@.lemma_fired_keeps_wf(*target);
            }
        }
        match self.occupant(target) {
            Some(i) => {
                self.ships[i].hit(target);
                assert(self@.ships =~= old(self)@.fired(*target).ships);
                true
            },
            None => false,
        }
    }

    /// Tells whether every ship on the grid is sunk.
    pub fn is_defeated(&self) -> (lost: bool)
        ensures
            lost == self@.defeated(),
    {
        let mut i: usize = 0;
        while i < self.ships.len()
            invariant
                i <= self.ships.len(),
                forall|k: int| 0 <= k < i ==> (#[trigger] self@.ships[k]).sunk(),
            decreases self.ships.len() - i,
        {
            if !self.ships[i].is_sunk() {
                assert(!self@.ships[i as int].sunk());
                return false;
            }
            i += 1;
        }
        true
    }

    /// One step in building a fleet. A battleship is set aside in `reserve`,
    /// in place of what was there, to be placed when the rest of the fleet
    /// stands. Any other ship is placed at once, if the grid accepts it.
    pub fn enlist(&mut self, ship: Ship, reserve: &mut Option<Ship>)
        ensures
            ship.type_ is Battleship ==> final(self)@ == old(self)@
                && *final(reserve) == Some(ship),
            !(ship.type_ is Battleship) ==> final(self)@ == old(self)@.place(ship@)
                && *final(reserve) == *old(reserve),
            old(self)@.wf() ==> final(self)@.wf(),
    {
        if ship.type_.is_battleship() {
            *reserve = Some(ship);
        } else {
            self.place_ship(ship);
        }
    }

    /// Constructs a new instance of [`Grid`] with random ships and placements.
    ///
    /// Random ships are drawn until a number of boats and destroyers, itself
    /// random between [`MIN_FLEET`] and [`MAX_FLEET`], stand on the grid.
    /// Allows only one battleship on the grid: the last one drawn meanwhile,
    /// which is placed last and left out if it finds no room. A ship that
    /// does not fit is dropped and another is drawn, up to
    /// [`MAX_ATTEMPTS`] ships in all; if the fleet is still short then, the
    /// result is `None`. Also see [`Ship::new_random`].
    ///
    /// Which number and which ships are drawn is left to chance. Whatever
    /// they are, the result is what [`Muster`] makes of them.
    pub fn new_random(width: u8, height: u8) -> (dealt: Option<Self>)
        requires
            1 <= width <= u8::MAX - crate::ship::LONGEST_SIDE + 1,
            1 <= height <= u8::MAX - crate::ship::LONGEST_SIDE + 1,
        ensures
            is_deal(width, height, grid_view(dealt)),
            dealt matches Some(grid) ==> {
                &&& grid.width == width
                &&& grid.height == height
                &&& grid@.is_fleet()
                &&& grid.ships.len() > 0
            },
    {
        let mut grid = Grid::new(width, height);
        let ship_count = random_usize(MIN_FLEET, MAX_FLEET);
        let mut battleship: Option<Ship> = None;
        let mut attempts: usize = MAX_ATTEMPTS;
        let ghost target = ship_count as int;
        let ghost mut drawn: Seq<ShipModel> = Seq::empty();
        while grid.ships.len() != ship_count && attempts > 0
            invariant
                1 <= width <= u8::MAX - crate::ship::LONGEST_SIDE + 1,
                1 <= height <= u8::MAX - crate::ship::LONGEST_SIDE + 1,
                MIN_FLEET <= ship_count <= MAX_FLEET,
                target == ship_count,
                grid.ships.len() == grid@.ships.len(),
                drawn.len() + attempts == MAX_ATTEMPTS,
                forall|i: int| 0 <= i < drawn.len() ==> drawable(#[trigger] drawn[i], width, height),
                Muster::start(width, height).offered_all(target, drawn) == (Muster {
                    grid: grid@,
                    reserve: ship_view(battleship),
                }),
            decreases attempts,
        {
            attempts -= 1;
            let ship = Ship::new_random(width, height);
            let ghost earlier = drawn;
            grid.enlist(ship, &mut battleship);
            proof {
                drawn = earlier.push(ship@);
                assert(drawn.drop_last() =~= earlier);
                assert(drawn.last() == ship@);
            }
        }
        if grid.ships.len() != ship_count {
            assert(dealt_from(width, height, target, drawn, None));
            return None;
        }
        if let Some(battleship) = battleship {
            grid.place_ship(battleship);
        }
        proof {
            assert(dealt_from(width, height, target, drawn, Some(grid@)));
            lemma_deal_is_fleet(width, height, grid@);
        }
        Some(grid)
    }

    /// Returns the grid as string.
    ///
    /// Ships that are not hit are drawn if `show_ships` is true, and look
    /// like misses if it is not.
    pub fn as_string(&self, show_ships: bool) -> (text: String)
        requires
            self.width <= COLUMNS,
        ensures
            text@ == self@.render(show_ships),
    {
        let mut text = String::new();
        self.display(&mut text, show_ships);
        assert(text@ =~= self@.render(show_ships));
        text
    }

    /// Display a point on the grid.
    ///
    /// The point might be empty or a part of a ship.
    pub fn display_point(&self, out: &mut String, coordinate: Coordinate, show_ships: bool)
        ensures
            final(out)@ == old(out)@ + seq![self@.glyph(coordinate, show_ships), ' '],
    {
        proof {
            lemma_first_holder(self@.ships, coordinate);
        }
        match self.occupant(&coordinate) {
            Some(i) => {
                let ship = &self.ships[i];
                assert(ship@ == self@.ships[i as int]);
                proof {
                    lemma_first_at(ship@.coords, coordinate);
                }
                let is_hit = match ship.position(&coordinate) {
                    Some(j) => ship.coords[j].is_hit,
                    None => false,
                };
                if is_hit {
                    push_char(out, HIT_POINT);
                } else if show_ships {
                    let glyph = ship.type_.to_string();
                    out.append(glyph.as_str());
                } else {
                    push_char(out, MISSED_POINT);
                }
            },
            None => {
                push_char(out, DEFAULT_POINT);
            },
        }
        push_char(out, ' ');
        assert(out@ =~= old(out)@ + seq![self@.glyph(coordinate, show_ships), ' ']);
    }

    /// Prints the grid to the given output.
    pub fn display(&self, out: &mut String, show_ships: bool)
        requires
            self.width <= COLUMNS,
        ensures
            final(out)@ == old(out)@ + self@.render(show_ships),
    {
        let ghost start = out@;
        push_char(out, '\n');
        push_char(out, ' ');
        push_char(out, ' ');
        push_char(out, ' ');
        let mut w: u8 = 0;
        assert(out@ =~= start + seq!['\n'] + seq![' ', ' ', ' '] + header_cells(0));
        while w < self.width
            invariant
                w <= self.width <= COLUMNS,
                out@ == start + seq!['\n'] + seq![' ', ' ', ' '] + header_cells(w as nat),
            decreases self.width - w,
        {
            w += 1;
            push_char(out, (w + 64) as char);
            push_char(out, ' ');
            assert(out@ =~= start + seq!['\n'] + seq![' ', ' ', ' '] + header_cells(w as nat));
        }
        push_char(out, '\n');
        let ghost top = start + seq!['\n'] + self@.header();
        assert(out@ =~= top + self@.rows(0, show_ships));
        let mut h: u8 = 0;
        while h < self.height
            invariant
                h <= self.height,
                top == start + seq!['\n'] + self@.header(),
                out@ == top + self@.rows(h as nat, show_ships),
            decreases self.height - h,
        {
            h += 1;
            let ghost above = out@;
            push_decimal(out, h);
            if h < 10 {
                push_char(out, ' ');
                push_char(out, ' ');
            } else if h < 100 {
                push_char(out, ' ');
            }
            proof {
                lemma_decimal_len(h as nat);
            }
            assert(out@ =~= above + row_label(h as nat) + self@.row_cells(h, 0, show_ships));
            let mut w: u8 = 0;
            while w < self.width
                invariant
                    w <= self.width,
                    out@ == above + row_label(h as nat) + self@.row_cells(
                        h,
                        w as nat,
                        show_ships,
                    ),
                decreases self.width - w,
            {
                w += 1;
                self.display_point(out, Coordinate { x: w, y: h, is_hit: false }, show_ships);
                assert(out@ =~= above + row_label(h as nat) + self@.row_cells(
                    h,
                    w as nat,
                    show_ships,
                ));
            }
            push_char(out, '\n');
            assert(out@ =~= top + self@.rows(h as nat, show_ships)) by {
                assert(out@ =~= above + self@.row(h, show_ships));
                assert(self@.rows(h as nat, show_ships) == self@.rows((h - 1) as nat, show_ships)
                    + self@.row(h, show_ships));
            }
        }
        assert(out@ =~= start + self@.render(show_ships));
    }
}

} // verus!
