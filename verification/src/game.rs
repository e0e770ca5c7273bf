//! Main game.
//!
//! The game is a state machine. It never touches a connection: every step
//! returns the [`Action`]s to carry out, in order, and whoever runs the game
//! sends the texts, waits, and hands the line that a player wrote back to
//! [`Game::play`].

use crate::grid::{is_deal, lemma_parsed_has_letter, parse_text, Coordinate, Grid, COLUMNS};
use crate::player::{Player, PlayerModel};
use crate::ship::LONGEST_SIDE;
use crate::text::{decimal, push_decimal, trim, trimmed};
use vstd::prelude::*;

verus! {

/// Maximum number of players.
pub const MAX_PLAYERS: usize = 2;

/// Seconds that the countdown runs before the first turn.
pub const COUNTDOWN: u8 = 3;

/// What a player is told who is the first to arrive.
pub open spec fn waiting_notice() -> Seq<char> {
    "Waiting for opponent...\n"@
}

/// What a player is told about the other one, once both are there.
pub open spec fn opponent_notice(name: Seq<char>) -> Seq<char> {
    "Your opponent is "@ + name + "\n"@
}

/// What both players are told when the game starts in `seconds` seconds.
pub open spec fn countdown_notice(seconds: nat) -> Seq<char> {
    "Game starts in "@ + decimal(seconds) + "...\n"@
}

/// What asks a player for a shot.
pub open spec fn turn_prompt() -> Seq<char> {
    "Your turn: "@
}

/// What a player is told while the player called `name` takes a shot.
pub open spec fn turn_notice(name: Seq<char>) -> Seq<char> {
    name + "'s turn.\n"@
}

/// What a player is told whose line was no coordinate.
pub open spec fn astray_notice() -> Seq<char> {
    "Your shot went astray\n"@
}

/// What a player is told whose shot struck a ship.
pub open spec fn hit_notice() -> Seq<char> {
    "Hit!\n"@
}

/// What a player is told whose shot struck no ship.
pub open spec fn miss_notice() -> Seq<char> {
    "Miss.\n"@
}

/// What a player is told when the player called `name` has fired at
/// `target`.
pub open spec fn firing_notice(name: Seq<char>, target: Coordinate) -> Seq<char> {
    name + " is firing at "@ + target.label() + "\n"@
}

/// What the loser is told when the player called `winner` has won.
pub open spec fn defeat_notice(winner: Seq<char>) -> Seq<char> {
    winner + " won.\n"@
}

/// What the winner is told.
pub open spec fn victory_notice() -> Seq<char> {
    "You won!\n"@
}

/// What the players are told when the game breaks off.
pub open spec fn departure_notice() -> Seq<char> {
    "Your opponent left the game.\n"@
}

/// What a newcomer is told while two players are in the game.
pub open spec fn full_notice() -> Seq<char> {
    "Lobby is full. Please wait.\n"@
}

/// What the game asks of whoever runs it.
#[derive(Debug, PartialEq, Eq)]
pub enum Action {
    /// Send `text` to the player at index `to`.
    Send { to: usize, text: String },
    /// Let one second pass.
    Pause,
    /// Read a line from the player at index `from` and hand it to
    /// [`Game::play`].
    Receive { from: usize },
}

/// What an action is.
pub enum ActionModel {
    /// Send `text` to the player at index `to`.
    Send { to: usize, text: Seq<char> },
    /// Let one second pass.
    Pause,
    /// Read a line from the player at index `from`.
    Receive { from: usize },
}

impl View for Action {
    type V = ActionModel;

    open spec fn view(&self) -> ActionModel {
        match self {
            Action::Send { to, text } => ActionModel::Send { to: *to, text: text@ },
            Action::Pause => ActionModel::Pause,
            Action::Receive { from } => ActionModel::Receive { from: *from },
        }
    }
}

/// What a list of actions is: what each of them is, in order.
pub open spec fn views(actions: Seq<Action>) -> Seq<ActionModel> {
    Seq::new(actions.len(), |i: int| actions[i]@)
}

/// The actions of the countdown from `seconds` down to one: for each second
/// a notice to the first player, the same to the second, and a pause.
pub open spec fn countdown(seconds: nat) -> Seq<ActionModel>
    decreases seconds,
{
    if seconds == 0 {
        Seq::empty()
    } else {
        seq![
            ActionModel::Send { to: 0, text: countdown_notice(seconds) },
            ActionModel::Send { to: 1, text: countdown_notice(seconds) },
            ActionModel::Pause,
        ] + countdown((seconds - 1) as nat)
    }
}

/// What a game is: the players in the order of arrival, and whose turn it
/// is.
pub struct GameModel {
    /// Players of the game.
    pub players: Seq<PlayerModel>,
    /// Index of the player whose turn it is.
    pub turn: usize,
}

impl GameModel {
    /// The game that nobody has joined.
    pub open spec fn lobby() -> GameModel {
        GameModel { players: Seq::empty(), turn: 0 }
    }

    /// Whether both players are there.
    pub open spec fn ready(self) -> bool {
        self.players.len() == MAX_PLAYERS
    }

    /// Whether a turn can be played: both players are there, it is the turn
    /// of one of them, and letters name the columns of both grids.
    pub open spec fn playable(self) -> bool {
        &&& self.ready()
        &&& self.turn < MAX_PLAYERS
        &&& self.players[0].grid.width <= COLUMNS
        &&& self.players[1].grid.width <= COLUMNS
    }

    /// The index of the player whose turn it is not.
    pub open spec fn opponent(self) -> usize {
        (MAX_PLAYERS - (self.turn + 1)) as usize
    }

    /// The game after `player` has joined.
    pub open spec fn joined(self, player: PlayerModel) -> GameModel {
        GameModel { players: self.players.push(player), turn: self.turn }
    }

    /// What the players are told when `player` joins: the first one that the
    /// wait begins, both of them each other's name when the second is there.
    pub open spec fn join_notices(self, player: PlayerModel) -> Seq<ActionModel> {
        if self.players.len() == 0 {
            seq![ActionModel::Send { to: 0, text: waiting_notice() }]
        } else {
            seq![
                ActionModel::Send { to: 0, text: opponent_notice(player.name) },
                ActionModel::Send { to: 1, text: opponent_notice(self.players[0].name) },
            ]
        }
    }

    /// The two boards that the player at index `k` is shown: the shots fired
    /// so far, as hits and misses, and below it the player's own grid with
    /// its ships.
    pub open spec fn boards_of(self, k: usize, width: u8, height: u8) -> Seq<ActionModel> {
        seq![
            ActionModel::Send {
                to: k,
                text: self.players[k as int].shots_board(
                    self.players[1 - k].grid,
                    width,
                    height,
                ).render(false),
            },
            ActionModel::Send { to: k, text: self.players[k as int].grid.render(true) },
        ]
    }

    /// The boards that both players are shown, the first player's first.
    pub open spec fn boards(self, width: u8, height: u8) -> Seq<ActionModel> {
        self.boards_of(0, width, height) + self.boards_of(1, width, height)
    }

    /// Whether the player whose turn it is has lost: every ship of that
    /// player's grid is sunk.
    pub open spec fn decided(self) -> bool {
        self.players[self.turn as int].grid.defeated()
    }

    /// The game after a turn has opened: over, and back in the lobby, if
    /// the player whose turn it is has lost; unchanged otherwise.
    pub open spec fn turn_opened(self) -> GameModel {
        if self.decided() {
            GameModel::lobby()
        } else {
            self
        }
    }

    /// The actions that open a turn. If the player whose turn it is has lost,
    /// that player is told who won and the other one is told of the victory.
    /// Otherwise both players are shown their boards, the player whose turn
    /// it is is asked for a shot, the other one is told to wait, and a line
    /// is read.
    pub open spec fn turn_actions(self, width: u8, height: u8) -> Seq<ActionModel> {
        let i = self.turn;
        let o = self.opponent();
        if self.decided() {
            seq![
                ActionModel::Send { to: i, text: defeat_notice(self.players[o as int].name) },
                ActionModel::Send { to: o, text: victory_notice() },
            ]
        } else {
            self.boards(width, height) + seq![
                ActionModel::Send { to: i, text: turn_prompt() },
                ActionModel::Send { to: o, text: turn_notice(self.players[i as int].name) },
                ActionModel::Receive { from: i },
            ]
        }
    }

    /// The game after the player whose turn it is has written `line`.
    ///
    /// The line, without the white space around it, is read as a coordinate.
    /// If it is one, it is added to the player's shots and fired at the
    /// other player's grid. Either way the turn passes to the other player.
    pub open spec fn shot_taken(self, line: Seq<char>) -> GameModel {
        let i = self.turn as int;
        let o = self.opponent() as int;
        match parse_text(trimmed(line)) {
            None => GameModel { players: self.players, turn: self.opponent() },
            Some(target) => GameModel {
                players: self.players.update(
                    i,
                    PlayerModel { hits: self.players[i].hits.push(target), ..self.players[i] },
                ).update(
                    o,
                    PlayerModel { grid: self.players[o].grid.fired(target), ..self.players[o] },
                ),
                turn: self.opponent(),
            },
        }
    }

    /// What the players are told after the player whose turn it is has
    /// written `line`: that the shot went astray if the line is no
    /// coordinate; else whether it was a hit, and the other player where it
    /// went.
    pub open spec fn shot_actions(self, line: Seq<char>) -> Seq<ActionModel> {
        let i = self.turn;
        let o = self.opponent();
        match parse_text(trimmed(line)) {
            None => seq![ActionModel::Send { to: i, text: astray_notice() }],
            Some(target) => seq![
                ActionModel::Send {
                    to: i,
                    text: if self.players[o as int].grid.occupied(target) {
                        hit_notice()
                    } else {
                        miss_notice()
                    },
                },
                ActionModel::Send {
                    to: o,
                    text: firing_notice(self.players[i as int].name, target),
                },
            ],
        }
    }

    /// The game after a start: the first turn has opened for the player who
    /// came first.
    pub open spec fn started(self) -> GameModel {
        (GameModel { players: self.players, turn: 0 }).turn_opened()
    }

    /// The actions of a start: the countdown, then what opens the first
    /// turn.
    pub open spec fn start_actions(self, width: u8, height: u8) -> Seq<ActionModel> {
        countdown(COUNTDOWN as nat) + (GameModel { players: self.players, turn: 0 }).turn_actions(
            width,
            height,
        )
    }

    /// The game after a line of the player whose turn it is: the shot is
    /// taken, then the next turn opens.
    pub open spec fn played(self, line: Seq<char>) -> GameModel {
        self.shot_taken(line).turn_opened()
    }

    /// The actions that follow a line of the player whose turn it is: those
    /// of the shot, then those that open the next turn.
    pub open spec fn play_actions(self, line: Seq<char>, width: u8, height: u8) -> Seq<
        ActionModel,
    > {
        self.shot_actions(line) + self.shot_taken(line).turn_actions(width, height)
    }

    /// What the players are told when the game breaks off: each of them, in
    /// order, that the opponent has left.
    pub open spec fn departure_actions(self) -> Seq<ActionModel> {
        Seq::new(
            self.players.len(),
            |k: int| ActionModel::Send { to: k as usize, text: departure_notice() },
        )
    }

    /// Whether `after` is this game with a fleet dealt to each of the first
    /// `n` players, on a grid of the given size, and nothing else changed:
    /// those players keep their names and shots, and the other players are
    /// as they were.
    pub open spec fn dealt_to(self, after: GameModel, n: int, width: u8, height: u8) -> bool {
        &&& 0 <= n <= self.players.len()
        &&& after.players.len() == self.players.len()
        &&& after.turn == self.turn
        &&& forall|j: int|
            0 <= j < n ==> {
                &&& (#[trigger] after.players[j]).name == self.players[j].name
                &&& after.players[j].hits == self.players[j].hits
                &&& is_deal(width, height, Some(after.players[j].grid))
            }
        &&& forall|j: int|
            n <= j < self.players.len() ==> #[trigger] after.players[j] == self.players[j]
    }

    /// A shot keeps a game playable: both players stay, and no grid changes
    /// its size.
    pub proof fn lemma_shot_keeps_playable(self, line: Seq<char>)
        requires
            self.playable(),
        ensures
            self.shot_taken(line).playable(),
            self.shot_taken(line).turn == self.opponent(),
    {
    }

    /// The game is ready when the second player has joined, and not before.
    pub proof fn lemma_ready_after_second_join(first: PlayerModel, second: PlayerModel)
        ensures
            !Self::lobby().ready(),
            !Self::lobby().joined(first).ready(),
            Self::lobby().joined(first).joined(second).ready(),
    {
    }

    /// Turns alternate: after a line of one player, whatever it says, it is
    /// the turn of the other one, unless the game is over.
    pub proof fn lemma_turns_alternate(self, line: Seq<char>)
        requires
            self.playable(),
        ensures
            self.played(line) == Self::lobby() || self.played(line).turn == 1 - self.turn,
    {
    }

    /// A line that is no coordinate costs the turn and nothing else: no shot
    /// is added and no grid changes.
    pub proof fn lemma_astray_changes_nothing(self, line: Seq<char>)
        requires
            self.playable(),
            parse_text(trimmed(line)) is None,
        ensures
            self.shot_taken(line).players == self.players,
    {
    }
}

/// Representation of the Battleship game.
///
/// Handles the turns and game logic.
#[derive(Debug)]
pub struct Game {
    /// Players of the game.
    pub players: Vec<Player>,
    /// Index of the player whose turn it is.
    pub turn: usize,
}

impl View for Game {
    type V = GameModel;

    open spec fn view(&self) -> GameModel {
        GameModel {
            players: Seq::new(self.players.len() as nat, |i: int| self.players[i]@),
            turn: self.turn,
        }
    }
}

/// The game that nobody has joined.
impl Default for Game {
    fn default() -> (game: Self)
        ensures
            game@ == GameModel::lobby(),
    {
        let game = Game { players: Vec::new(), turn: 0 };
        assert(game@.players =~= Seq::empty());
        game
    }
}

/// The action that sends `text` to the player at index `to`.
fn send(to: usize, text: String) -> (action: Action)
    ensures
        action@ == (ActionModel::Send { to, text: text@ }),
{
    Action::Send { to, text }
}

/// The action that sends the text of `literal` to the player at index `to`.
fn send_str(to: usize, literal: &str) -> (action: Action)
    ensures
        action@ == (ActionModel::Send { to, text: literal@ }),
{
    Action::Send { to, text: String::from_str(literal) }
}

/// The text of [`opponent_notice`].
fn opponent_text(name: &str) -> (text: String)
    ensures
        text@ == opponent_notice(name@),
{
    let mut text = String::from_str("Your opponent is ");
    text.append(name);
    text.append("\n");
    text
}

/// The text of [`countdown_notice`].
fn countdown_text(seconds: u8) -> (text: String)
    ensures
        text@ == countdown_notice(seconds as nat),
{
    let mut text = String::from_str("Game starts in ");
    push_decimal(&mut text, seconds);
    text.append("...\n");
    text
}

/// The text of [`turn_notice`].
fn turn_text(name: &str) -> (text: String)
    ensures
        text@ == turn_notice(name@),
{
    let mut text = String::from_str(name);
    text.append("'s turn.\n");
    text
}

/// The text of [`firing_notice`].
fn firing_text(name: &str, target: &Coordinate) -> (text: String)
    requires
        target.has_letter(),
    ensures
        text@ == firing_notice(name@, *target),
{
    let mut text = String::from_str(name);
    text.append(" is firing at ");
    let label = target.to_string();
    text.append(label.as_str());
    text.append("\n");
    text
}

/// The text of [`defeat_notice`].
fn defeat_text(winner: &str) -> (text: String)
    ensures
        text@ == defeat_notice(winner@),
{
    let mut text = String::from_str(winner);
    text.append(" won.\n");
    text
}

/// Moves the actions of `more` to the end of `actions`.
fn extend(actions: &mut Vec<Action>, more: Vec<Action>)
    ensures
        views(final(actions)@) == views(old(actions)@) + views(more@),
{
    let mut rest = more;
    actions.append(&mut rest);
    assert(views(actions@) =~= views(old(actions)@) + views(more@));
}

/// Puts `action` at the end of `actions`.
fn enqueue(actions: &mut Vec<Action>, action: Action)
    ensures
        views(final(actions)@) == views(old(actions)@).push(action@),
{
    actions.push(action);
    assert(views(actions@) =~= views(old(actions)@).push(action@));
}

/// The text that turns a newcomer away while two players are in the game.
pub fn lobby_full_text() -> (text: String)
    ensures
        text@ == full_notice(),
{
    String::from_str("Lobby is full. Please wait.\n")
}

impl Game {
    /// Checks if the players are ready to play.
    pub fn is_ready(&self) -> (ready: bool)
        ensures
            ready == self@.ready(),
    {
        self.players.len() == MAX_PLAYERS
    }

    /// Adds a new player to the game.
    ///
    /// Also see [`Game::is_ready`]
    pub fn add_player(&mut self, player: Player) -> (actions: Vec<Action>)
        requires
            old(self).players.len() < MAX_PLAYERS,
        ensures
            final(self)@ == old(self)@.joined(player@),
            views(actions@) == old(self)@.join_notices(player@),
    {
        let mut actions: Vec<Action> = Vec::new();
        assert(views(actions@) =~= Seq::empty());
        if self.players.len() == 0 {
            self.players.push(player);
            enqueue(&mut actions, send_str(0, "Waiting for opponent...\n"));
        } else {
            self.players.push(player);
            let mut i: usize = 0;
            while i < MAX_PLAYERS
                invariant
                    i <= MAX_PLAYERS,
                    self.players.len() == MAX_PLAYERS,
                    self.players@ == old(self).players@.push(player),
                    views(actions@) == old(self)@.join_notices(player@).take(i as int),
                decreases MAX_PLAYERS - i,
            {
                let message = opponent_text(self.players[MAX_PLAYERS - (i + 1)].name.as_str());
                enqueue(&mut actions, send(i, message));
                i += 1;
                assert(views(actions@) =~= old(self)@.join_notices(player@).take(i as int));
            }
            assert(views(actions@) =~= old(self)@.join_notices(player@));
        }
        assert(self@.players =~= old(self)@.joined(player@).players);
        assert(views(actions@) =~= old(self)@.join_notices(player@));
        actions
    }

    /// Shows countdown to players for starting the game.
    pub fn show_countdown(&self) -> (actions: Vec<Action>)
        ensures
            views(actions@) == countdown(COUNTDOWN as nat),
    {
        let mut actions: Vec<Action> = Vec::new();
        assert(views(actions@) =~= Seq::empty());
        let mut left: u8 = COUNTDOWN;
        while left > 0
            invariant
                left <= COUNTDOWN,
                views(actions@) + countdown(left as nat) == countdown(COUNTDOWN as nat),
            decreases left,
        {
            let ghost before = views(actions@);
            enqueue(&mut actions, send(0, countdown_text(left)));
            enqueue(&mut actions, send(1, countdown_text(left)));
            enqueue(&mut actions, Action::Pause);
            left -= 1;
            assert(views(actions@) + countdown(left as nat) =~= before + countdown(
                (left + 1) as nat,
            ));
        }
        assert(views(actions@) =~= views(actions@) + countdown(0));
        actions
    }

    /// Shows the grid of the players.
    ///
    /// Hits/misses are shown on the upper grid.
    /// Lower grid is used for showing the player ships.
    pub fn show_grid(&self, width: u8, height: u8) -> (actions: Vec<Action>)
        requires
            self@.ready(),
            width <= COLUMNS,
            self.players[0].grid.width <= COLUMNS,
            self.players[1].grid.width <= COLUMNS,
        ensures
            views(actions@) == self@.boards(width, height),
    {
        let mut actions: Vec<Action> = Vec::new();
        assert(views(actions@) =~= Seq::empty());
        let mut i: usize = 0;
        while i < MAX_PLAYERS
            invariant
                i <= MAX_PLAYERS,
                self@.ready(),
                width <= COLUMNS,
                self.players[0].grid.width <= COLUMNS,
                self.players[1].grid.width <= COLUMNS,
                views(actions@) == self@.boards(width, height).take(2 * i),
            decreases MAX_PLAYERS - i,
        {
            // Show upper grid (hits/misses).
            let shots = self.players[i].shots_board(
                &self.players[MAX_PLAYERS - (i + 1)].grid,
                width,
                height,
            );
            enqueue(&mut actions, send(i, shots.as_string(false)));
            // Show lower grid (ships).
            enqueue(&mut actions, send(i, self.players[i].grid.as_string(true)));
            i += 1;
            assert(views(actions@) =~= self@.boards(width, height).take(2 * i));
        }
        assert(views(actions@) =~= self@.boards(width, height));
        actions
    }

    /// Opens the turn of the player whose turn it is.
    ///
    /// A player whose ships are all sunk has lost, and this is found out
    /// here, before that player's turn: both players are told and the game
    /// goes back to the lobby. Otherwise the boards are shown and the player
    /// is asked for a shot.
    pub fn open_turn(&mut self, width: u8, height: u8) -> (actions: Vec<Action>)
        requires
            old(self)@.playable(),
            width <= COLUMNS,
        ensures
            final(self)@ == old(self)@.turn_opened(),
            views(actions@) == old(self)@.turn_actions(width, height),
    {
        let i = self.turn;
        let o = MAX_PLAYERS - (i + 1);
        let mut actions: Vec<Action> = Vec::new();
        assert(views(actions@) =~= Seq::empty());
        assert(self@.players[i as int] == self.players[i as int]@);
        assert(self@.players[o as int] == self.players[o as int]@);
        // Check if the player has lost.
        if self.players[i].grid.is_defeated() {
            enqueue(&mut actions, send(i, defeat_text(self.players[o].name.as_str())));
            enqueue(&mut actions, send_str(o, "You won!\n"));
            self.players.clear();
            self.turn = 0;
            assert(self@.players =~= Seq::empty());
            assert(views(actions@) =~= old(self)@.turn_actions(width, height));
        } else {
            // Show the grid.
            extend(&mut actions, self.show_grid(width, height));
            // Handle the player turn.
            enqueue(&mut actions, send_str(i, "Your turn: "));
            enqueue(&mut actions, send(o, turn_text(self.players[i].name.as_str())));
            enqueue(&mut actions, Action::Receive { from: i });
            assert(views(actions@) =~= old(self)@.turn_actions(width, height));
        }
        actions
    }

    /// Takes the shot that the player whose turn it is wrote as `line`, and
    /// passes the turn to the other player.
    pub fn shoot(&mut self, line: &str) -> (actions: Vec<Action>)
        requires
            old(self)@.playable(),
        ensures
            final(self)@ == old(self)@.shot_taken(line@),
            views(actions@) == old(self)@.shot_actions(line@),
    {
        let i = self.turn;
        let o = MAX_PLAYERS - (i + 1);
        let mut actions: Vec<Action> = Vec::new();
        assert(views(actions@) =~= Seq::empty());
        assert(self@.players[i as int] == self.players[i as int]@);
        assert(self@.players[o as int] == self.players[o as int]@);
        // Parse the grid coordinate.
        let text = trim(line);
        proof {
            lemma_parsed_has_letter(text@);
        }
        match Coordinate::try_from(text) {
            Ok(coordinate) => {
                // Handle hit/miss.
                self.players[i].hits.push(coordinate);
                if self.players[o].grid.fire(&coordinate) {
                    enqueue(&mut actions, send_str(i, "Hit!\n"));
                } else {
                    enqueue(&mut actions, send_str(i, "Miss.\n"));
                }
                let message = firing_text(self.players[i].name.as_str(), &coordinate);
                enqueue(&mut actions, send(o, message));
                self.turn = o;
                assert(self@.players =~= old(self)@.shot_taken(line@).players);
                assert(views(actions@) =~= old(self)@.shot_actions(line@));
            },
            Err(_) => {
                enqueue(&mut actions, send_str(i, "Your shot went astray\n"));
                self.turn = o;
                assert(self@.players =~= old(self)@.players);
                assert(views(actions@) =~= old(self)@.shot_actions(line@));
            },
        }
        actions
    }

    /// Starts the game.
    ///
    /// Number of players is determined by [`MAX_PLAYERS`] constant. The
    /// countdown runs, then the first turn opens for the player who came
    /// first. The game goes on with [`Game::play`] for each line that is
    /// read, until a step ends without a request to read one: then one of the
    /// players has sunk all of the ships of the opponent.
    pub fn start(&mut self, grid_width: u8, grid_height: u8) -> (actions: Vec<Action>)
        requires
            old(self)@.ready(),
            grid_width <= COLUMNS,
            old(self).players[0].grid.width <= COLUMNS,
            old(self).players[1].grid.width <= COLUMNS,
        ensures
            final(self)@ == old(self)@.started(),
            views(actions@) == old(self)@.start_actions(grid_width, grid_height),
    {
        assert(self@.players[0] == self.players[0]@);
        assert(self@.players[1] == self.players[1]@);
        let mut actions = self.show_countdown();
        self.turn = 0;
        assert(self@.players =~= old(self)@.players);
        extend(&mut actions, self.open_turn(grid_width, grid_height));
        actions
    }

    /// Goes on with the game after the player whose turn it is has written
    /// `line`: takes the shot and opens the next turn.
    pub fn play(&mut self, line: &str, grid_width: u8, grid_height: u8) -> (actions: Vec<Action>)
        requires
            old(self)@.playable(),
            grid_width <= COLUMNS,
        ensures
            final(self)@ == old(self)@.played(line@),
            views(actions@) == old(self)@.play_actions(line@, grid_width, grid_height),
    {
        proof {
            self@.lemma_shot_keeps_playable(line@);
        }
        let mut actions = self.shoot(line);
        extend(&mut actions, self.open_turn(grid_width, grid_height));
        actions
    }

    /// Breaks the game off: tells every player that the opponent has left,
    /// and goes back to the lobby.
    pub fn abandon(&mut self) -> (actions: Vec<Action>)
        ensures
            final(self)@ == GameModel::lobby(),
            views(actions@) == old(self)@.departure_actions(),
    {
        let mut actions: Vec<Action> = Vec::new();
        assert(views(actions@) =~= Seq::empty());
        let mut k: usize = 0;
        while k < self.players.len()
            invariant
                k <= self.players.len(),
                self.players.len() == old(self).players.len(),
                views(actions@) == old(self)@.departure_actions().take(k as int),
            decreases self.players.len() - k,
        {
            enqueue(&mut actions, send_str(k, "Your opponent left the game.\n"));
            k += 1;
            assert(views(actions@) =~= old(self)@.departure_actions().take(k as int));
        }
        assert(views(actions@) =~= old(self)@.departure_actions());
        self.players.clear();
        self.turn = 0;
        assert(self@.players =~= Seq::empty());
        actions
    }

    /// Assigns random boards to the players: each gets a fleet of its own on
    /// a grid of the given size (see [`Grid::new_random`]).
    ///
    /// The players are dealt to in order. The result is `false` if no fleet
    /// was found for one of them: the players before that one have their new
    /// grids then, and that one and those after it are as they were. The
    /// result is `true` if every player was dealt a fleet, which is so where
    /// there is no player.
    pub fn deal(&mut self, width: u8, height: u8) -> (dealt: bool)
        requires
            1 <= width <= u8::MAX - LONGEST_SIDE + 1,
            1 <= height <= u8::MAX - LONGEST_SIDE + 1,
        ensures
            exists|n: int|
                {
                    &&& #[trigger] old(self)@.dealt_to(final(self)@, n, width, height)
                    &&& dealt == (n == old(self)@.players.len())
                    &&& !dealt ==> is_deal(width, height, None)
                },
            final(self)@.turn == old(self)@.turn,
            final(self)@.players.len() == old(self)@.players.len(),
            forall|k: int|
                0 <= k < old(self)@.players.len() ==> {
                    &&& (#[trigger] final(self)@.players[k]).name == old(self)@.players[k].name
                    &&& final(self)@.players[k].hits == old(self)@.players[k].hits
                },
            dealt ==> forall|k: int|
                0 <= k < final(self)@.players.len() ==> {
                    &&& (#[trigger] final(self)@.players[k]).grid.is_fleet()
                    &&& final(self)@.players[k].grid.width == width
                    &&& final(self)@.players[k].grid.height == height
                },
    {
        let mut k: usize = 0;
        while k < self.players.len()
            invariant
                1 <= width <= u8::MAX - LONGEST_SIDE + 1,
                1 <= height <= u8::MAX - LONGEST_SIDE + 1,
                k <= self.players.len(),
                self.turn == old(self).turn,
                self.players.len() == old(self).players.len(),
                old(self)@.dealt_to(self@, k as int, width, height),
                forall|j: int|
                    0 <= j < self.players.len() ==> {
                        &&& (#[trigger] self.players[j]).name == old(self).players[j].name
                        &&& self.players[j].hits == old(self).players[j].hits
                    },
                forall|j: int|
                    0 <= j < k ==> {
                        &&& (#[trigger] self.players[j]).grid@.is_fleet()
                        &&& self.players[j].grid.width == width
                        &&& self.players[j].grid.height == height
                    },
            decreases self.players.len() - k,
        {
            let ghost before = self@;
            match Grid::new_random(width, height) {
                Some(grid) => {
                    self.players[k].grid = grid;
                    assert(self@.players[k as int].grid == grid@);
                    assert forall|j: int| 0 <= j < self@.players.len() && j != k implies
                        #[trigger] self@.players[j] == before.players[j] by {}
                },
                None => {
                    return false;
                },
            }
            k += 1;
        }
        true
    }
}

} // verus!
