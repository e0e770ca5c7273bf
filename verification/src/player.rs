//! Player.

use crate::grid::{Coordinate, Grid, GridModel};
use crate::ship::{Ship, ShipModel, ShipType};
use crate::text::{trim, trimmed};
use vstd::prelude::*;

verus! {

/// ASCII art for the banner.
pub const BANNER: &'static str = r#"        _    _
     __|_|__|_|__
   _|____________|__
  |o o o o o o o o /
~'`~'`~'`~'`~'`~'`~'`~
Welcome to Battleship!"#;

/// The name of a player who gave none.
pub const UNKNOWN_PLAYER: &'static str = "unknown player";

/// The greeting that a player gets on arrival: the banner, then the
/// question for a name.
pub open spec fn welcome() -> Seq<char> {
    BANNER@ + "\nPlease enter your name: "@
}

/// The name that a player goes by who answered `reply` when asked for one:
/// the answer without the white space around it, or [`UNKNOWN_PLAYER`] if
/// nothing is left of it.
pub open spec fn display_name(reply: Seq<char>) -> Seq<char> {
    if trimmed(reply).len() == 0 {
        UNKNOWN_PLAYER@
    } else {
        trimmed(reply)
    }
}

/// The one-cell ship that stands for a shot on the board of shots: it is hit
/// where the shot struck a ship.
pub open spec fn shot_marker(shot: Coordinate, opponent: GridModel) -> ShipModel {
    ShipModel {
        type_: ShipType::Boat,
        coords: seq![Coordinate { x: shot.x, y: shot.y, is_hit: opponent.occupied(shot) }],
    }
}

/// What a player is: a name, a fleet and the shots fired so far.
pub struct PlayerModel {
    /// Name of the player.
    pub name: Seq<char>,
    /// Player's grid.
    pub grid: GridModel,
    /// Player's hits.
    pub hits: Seq<Coordinate>,
}

impl PlayerModel {
    /// The player as it is before the greeting: no name, no grid, no shots.
    pub open spec fn fresh() -> PlayerModel {
        PlayerModel { name: Seq::empty(), grid: GridModel::empty(0, 0), hits: Seq::empty() }
    }

    /// The board of the player's shots at `opponent`, on a grid of the given
    /// size: every shot is a marker, in the order of firing.
    pub open spec fn shots_board(self, opponent: GridModel, width: u8, height: u8) -> GridModel {
        GridModel {
            width,
            height,
            ships: Seq::new(self.hits.len(), |i: int| shot_marker(self.hits[i], opponent)),
        }
    }
}

/// Representation of a player.
#[derive(Debug)]
pub struct Player {
    /// Name of the player.
    pub name: String,
    /// Player's grid.
    pub grid: Grid,
    /// Player's hits.
    pub hits: Vec<Coordinate>,
}

impl View for Player {
    type V = PlayerModel;

    open spec fn view(&self) -> PlayerModel {
        PlayerModel { name: self.name@, grid: self.grid@, hits: self.hits@ }
    }
}

impl Player {
    /// Constructs a new instance of [`Player`].
    pub fn new() -> (player: Self)
        ensures
            player@ == PlayerModel::fresh(),
    {
        Self { name: String::new(), grid: Grid::default(), hits: Vec::new() }
    }

    /// The text that greets a player and asks for a name.
    pub fn greeting() -> (text: String)
        ensures
            text@ == welcome(),
    {
        let mut text = String::from_str(BANNER);
        text.append("\nPlease enter your name: ");
        text
    }

    /// Greets the player: sets the name from the line that answered the
    /// greeting.
    pub fn greet(&mut self, reply: &str)
        ensures
            final(self)@ == (PlayerModel { name: display_name(reply@), ..old(self)@ }),
    {
        self.name = trim(reply);
        if self.name.as_str().is_empty() {
            self.name = String::from_str(UNKNOWN_PLAYER);
        }
    }

    /// The board of the shots that the player has fired at `opponent`, on a
    /// grid of the given size. Drawn without ships, it shows the hits and
    /// the misses.
    pub fn shots_board(&self, opponent: &Grid, width: u8, height: u8) -> (board: Grid)
        ensures
            board@ == self@.shots_board(opponent@, width, height),
    {
        let mut ships: Vec<Ship> = Vec::new();
        let mut i: usize = 0;
        while i < self.hits.len()
            invariant
                i <= self.hits.len(),
                ships.len() == i,
                forall|k: int|
                    0 <= k < i ==> (#[trigger] ships[k])@ == shot_marker(self.hits[k], opponent@),
            decreases self.hits.len() - i,
        {
            let shot = &self.hits[i];
            let mut coords: Vec<Coordinate> = Vec::new();
            coords.push(
                Coordinate { x: shot.x, y: shot.y, is_hit: opponent.occupant(shot).is_some() },
            );
            let marker = Ship::new(ShipType::Boat, coords);
            assert(marker@.coords =~= shot_marker(*shot, opponent@).coords);
            ships.push(marker);
            i += 1;
        }
        let board = Grid { width, height, ships };
        assert(board@.ships =~= self@.shots_board(opponent@, width, height).ships);
        board
    }
}

} // verus!
