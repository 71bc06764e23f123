//! A lobby: one game, its connection router, the pending authentication
//! challenges, and the handlers that turn each inbound message into a new
//! state and the messages to send out.

use vstd::prelude::*;
use vstd::set_lib::{lemma_len_subset, set_int_range, lemma_int_range};
use std::collections::HashMap;
use crate::board::{Board, BOARD_SIZE};
use crate::errors::InvalidError;
use crate::game::{
    at_position, kept_spymaster, move_outcome, next_turn_after, opponent, reason_text, team_number, FullGameInfoView, Game, InProgressGame,
    InitialGame, MoveResult, Team, WinReason,
};
use crate::players::{Player, PlayerId, SimplePlayer};
use crate::web::auth::{answers, build_echo_challenge, AuthChallenge, AuthResponse, InternalAuthChallenge};
use crate::web::errors::NotAllowedError;
use crate::web::players::{bound_in, unbound, ConnId, PlayerModem, WebAppPlayer};
use crate::web::wsproto::WSMessage;

verus! {

/// A player's view of the game, in either phase.
#[derive(Debug, Clone)]
pub enum GameViewWrapper {
    InitialFullGameView(FullGameInfoView<InitialGame>),
    InProgressFullGameView(FullGameInfoView<InProgressGame>),
}

/// The lobby's game, in whichever phase it is.
#[derive(Debug)]
pub enum GameWrapper {
    InitialGame(Game<InitialGame, SimplePlayer>),
    InProgressGame(Game<InProgressGame, SimplePlayer>),
}

impl GameWrapper {
    pub open spec fn board_of(&self) -> Board {
        match self {
            GameWrapper::InitialGame(g) => g.board_of(),
            GameWrapper::InProgressGame(g) => g.board_of(),
        }
    }

    pub open spec fn roster(&self, t: Team) -> Map<PlayerId, SimplePlayer> {
        match self {
            GameWrapper::InitialGame(g) => g.roster(t),
            GameWrapper::InProgressGame(g) => g.roster(t),
        }
    }

    pub open spec fn spymaster(&self, t: Team) -> Option<PlayerId> {
        match self {
            GameWrapper::InitialGame(g) => g.spymaster(t),
            GameWrapper::InProgressGame(g) => g.spymaster(t),
        }
    }

    pub open spec fn score(&self, t: Team) -> u8 {
        match self {
            GameWrapper::InitialGame(g) => g.score(t),
            GameWrapper::InProgressGame(g) => g.score(t),
        }
    }

    pub open spec fn turn(&self) -> Option<Team> {
        match self {
            GameWrapper::InitialGame(g) => g.turn(),
            GameWrapper::InProgressGame(g) => g.turn(),
        }
    }

    pub open spec fn team_of(&self, id: PlayerId) -> Option<Team> {
        match self {
            GameWrapper::InitialGame(g) => g.team_of(id),
            GameWrapper::InProgressGame(g) => g.team_of(id),
        }
    }

    pub open spec fn ready(&self) -> bool {
        match self {
            GameWrapper::InitialGame(g) => g.ready(),
            GameWrapper::InProgressGame(g) => g.ready(),
        }
    }

    /// Whether `pid` equals the spymaster position of either team.
    pub open spec fn is_spymaster_id(&self, pid: PlayerId) -> bool {
        match self {
            GameWrapper::InitialGame(g) => g.is_spymaster_id(pid),
            GameWrapper::InProgressGame(g) => g.is_spymaster_id(pid),
        }
    }

    /// Whether `v` is this game's board as player `pid` may see it, in the
    /// game's phase.
    pub open spec fn shows(&self, v: GameViewWrapper, pid: PlayerId) -> bool {
        let tiles = match v {
            GameViewWrapper::InitialFullGameView(f) => f.board.tiles@,
            GameViewWrapper::InProgressFullGameView(f) => f.board.tiles@,
        };
        let words = match v {
            GameViewWrapper::InitialFullGameView(f) => f.board.words@,
            GameViewWrapper::InProgressFullGameView(f) => f.board.words@,
        };
        &&& (*self is InitialGame <==> v is InitialFullGameView)
        &&& words == self.board_of().word_list()
        &&& tiles.len() == BOARD_SIZE
        &&& forall|i: int|
            0 <= i < BOARD_SIZE ==> tiles[i] == self.board_of().seen_at(
                i,
                self.is_spymaster_id(pid),
            )
    }

    /// Each phase's invariant: a sound game, no turn before it begins, a
    /// turn once it has.
    pub open spec fn wf(&self) -> bool {
        match self {
            GameWrapper::InitialGame(g) => g.wf() && g.turn() is None,
            GameWrapper::InProgressGame(g) => g.wf() && g.turn() is Some,
        }
    }

    /// The same phase, board, rosters, spymasters, scores and turn.
    pub open spec fn same_game(&self, o: &GameWrapper) -> bool {
        &&& (self is InitialGame <==> o is InitialGame)
        &&& self.board_of().same_state(&o.board_of())
        &&& self.roster(Team::TeamOne) == o.roster(Team::TeamOne)
        &&& self.roster(Team::TeamTwo) == o.roster(Team::TeamTwo)
        &&& self.spymaster(Team::TeamOne) == o.spymaster(Team::TeamOne)
        &&& self.spymaster(Team::TeamTwo) == o.spymaster(Team::TeamTwo)
        &&& self.score(Team::TeamOne) == o.score(Team::TeamOne)
        &&& self.score(Team::TeamTwo) == o.score(Team::TeamTwo)
        &&& self.turn() == o.turn()
    }

    /// What beginning does: a ready game in its first phase starts with
    /// team one to move; any other game stays as it is.
    pub open spec fn begun_from(&self, o: &GameWrapper) -> bool {
        if o is InitialGame && o.ready() {
            &&& self is InProgressGame
            &&& self.board_of().same_state(&o.board_of())
            &&& self.roster(Team::TeamOne) == o.roster(Team::TeamOne)
            &&& self.roster(Team::TeamTwo) == o.roster(Team::TeamTwo)
            &&& self.spymaster(Team::TeamOne) == o.spymaster(Team::TeamOne)
            &&& self.spymaster(Team::TeamTwo) == o.spymaster(Team::TeamTwo)
            &&& self.score(Team::TeamOne) == o.score(Team::TeamOne)
            &&& self.score(Team::TeamTwo) == o.score(Team::TeamTwo)
            &&& self.turn() == Some(Team::TeamOne)
        } else {
            self.same_game(o)
        }
    }

    /// A fresh game in its first phase over a 25-word vocabulary; an error
    /// for any other vocabulary size.
    pub fn new(words: &Vec<String>) -> (r: Result<GameWrapper, InvalidError>)
        ensures
            r is Err <==> words@.len() != BOARD_SIZE,
            r matches Ok(w) ==> {
                &&& w.wf()
                &&& w is InitialGame
                &&& w.board_of().word_list() == words@
                &&& w.board_of().revealed() == Set::<int>::empty()
                &&& w.roster(Team::TeamOne).is_empty()
                &&& w.roster(Team::TeamTwo).is_empty()
            },
    {
        match Game::new(words) {
            Ok(g) => Ok(GameWrapper::InitialGame(g)),
            Err(e) => Err(e),
        }
    }

    pub fn is_initial(&self) -> (r: bool)
        ensures
            r == self is InitialGame,
    {
        match self {
            GameWrapper::InitialGame(_) => true,
            GameWrapper::InProgressGame(_) => false,
        }
    }

    /// The game after an attempt to begin it.
    pub fn begin(&self) -> (r: Self)
        requires
            self.wf(),
        ensures
            r.wf(),
            r.begun_from(self),
    {
        match self {
            GameWrapper::InitialGame(game) => {
                let tmp = game.duplicate();
                match tmp.begin() {
                    Ok(g) => GameWrapper::InProgressGame(g),
                    Err(e) => GameWrapper::InitialGame(e.take_old()),
                }
            },
            GameWrapper::InProgressGame(game) => GameWrapper::InProgressGame(game.duplicate()),
        }
    }

    /// The game as `player` may see it.
    pub fn get_full_game_info(&self, player: &SimplePlayer) -> (r: Result<GameViewWrapper, InvalidError>)
        ensures
            r matches Ok(v) && self.shows(v, player.spec_id()),
    {
        match self {
            GameWrapper::InitialGame(g) => match g.get_initial_full_game_info(player) {
                Ok(v) => Ok(GameViewWrapper::InitialFullGameView(v)),
                Err(e) => Err(e),
            },
            GameWrapper::InProgressGame(g) => match g.get_in_progress_full_game_info(player) {
                Ok(v) => Ok(GameViewWrapper::InProgressFullGameView(v)),
                Err(e) => Err(e),
            },
        }
    }

    /// The team of a player id.
    pub fn get_player_team_from_id(&self, pid: &PlayerId) -> (r: Option<Team>)
        ensures
            r == self.team_of(*pid),
    {
        match self {
            GameWrapper::InitialGame(g) => g.get_player_team_from_id(pid),
            GameWrapper::InProgressGame(g) => g.get_player_team_from_id(pid),
        }
    }

    /// Chooses a team's spymaster: the player at position `ind` when the
    /// roster is listed by increasing id; refused past the roster's end.
    pub fn set_spymaster(&mut self, team: &Team, ind: usize) -> (r: Result<(), InvalidError>)
        requires
            old(self).wf(),
        ensures
            final(self).wf(),
            r is Err <==> ind >= old(self).roster(*team).len(),
            r is Ok ==> final(self).spymaster(*team) is Some && at_position(
                old(self).roster(*team).dom(),
                final(self).spymaster(*team)->0,
                ind as int,
            ),
            r is Err ==> final(self).spymaster(*team) == old(self).spymaster(*team),
            final(self).spymaster(opponent(*team)) == old(self).spymaster(opponent(*team)),
            final(self).roster(Team::TeamOne) == old(self).roster(Team::TeamOne),
            final(self).roster(Team::TeamTwo) == old(self).roster(Team::TeamTwo),
            (*final(self) is InitialGame <==> *old(self) is InitialGame),
            final(self).board_of().same_state(&old(self).board_of()),
            final(self).turn() == old(self).turn(),
    {
        match self {
            GameWrapper::InitialGame(g) => match team {
                Team::TeamOne => g.set_team_one_spymaster(ind),
                Team::TeamTwo => g.set_team_two_spymaster(ind),
            },
            GameWrapper::InProgressGame(g) => match team {
                Team::TeamOne => g.set_team_one_spymaster(ind),
                Team::TeamTwo => g.set_team_two_spymaster(ind),
            },
        }
    }

    /// Moves a player who is on a team into `team`; refused when the id is
    /// on no team.
    pub fn transfer_player(&mut self, pid: &PlayerId, team: &Team) -> (r: Result<(), InvalidError>)
        requires
            old(self).wf(),
        ensures
            final(self).wf(),
            r is Err <==> old(self).team_of(*pid) is None,
            r is Err ==> final(self).same_game(old(self)),
            r is Ok ==> final(self).team_of(*pid) == Some(*team),
            forall|k: PlayerId|
                k != *pid ==> #[trigger] final(self).team_of(k) == old(self).team_of(k),
            final(self).spymaster(Team::TeamOne) == kept_spymaster(
                old(self).spymaster(Team::TeamOne),
                final(self).roster(Team::TeamOne),
            ),
            final(self).spymaster(Team::TeamTwo) == kept_spymaster(
                old(self).spymaster(Team::TeamTwo),
                final(self).roster(Team::TeamTwo),
            ),
            (*final(self) is InitialGame <==> *old(self) is InitialGame),
            final(self).board_of().same_state(&old(self).board_of()),
            final(self).turn() == old(self).turn(),
    {
        match self {
            GameWrapper::InitialGame(g) => g.transfer_player(pid, team),
            GameWrapper::InProgressGame(g) => g.transfer_player(pid, team),
        }
    }

    /// Puts a player who is on no team yet into `team`; refused when the id
    /// is already on a team.
    pub fn add_player_to_team(&mut self, player: SimplePlayer, team: &Team) -> (r: Result<
        (),
        InvalidError,
    >)
        requires
            old(self).wf(),
        ensures
            final(self).wf(),
            r is Err <==> old(self).team_of(player.spec_id()) is Some,
            r is Ok ==> final(self).roster(*team) == old(self).roster(*team).insert(
                player.spec_id(),
                player,
            ),
            r is Err ==> final(self).same_game(old(self)),
            r is Ok ==> final(self).team_of(player.spec_id()) == Some(*team),
            forall|k: PlayerId|
                k != player.spec_id() ==> #[trigger] final(self).team_of(k) == old(self).team_of(k),
            final(self).spymaster(Team::TeamOne) == old(self).spymaster(Team::TeamOne),
            final(self).spymaster(Team::TeamTwo) == old(self).spymaster(Team::TeamTwo),
            (*final(self) is InitialGame <==> *old(self) is InitialGame),
            final(self).board_of().same_state(&old(self).board_of()),
            final(self).turn() == old(self).turn(),
    {
        match self {
            GameWrapper::InitialGame(g) => g.add_player_to_team(player, team),
            GameWrapper::InProgressGame(g) => g.add_player_to_team(player, team),
        }
    }
}

/// Something the lobby asks the connection layer to do.
#[derive(Debug, Clone)]
pub enum Action {
    /// Write a message on a connection.
    Send(ConnId, WSMessage),
    /// Shut a connection.
    Close(ConnId),
}

/// The connection an action writes to.
pub open spec fn send_target(a: Action) -> Option<ConnId> {
    match a {
        Action::Send(c, _) => Some(c),
        Action::Close(_) => None,
    }
}

/// Whether `a` writes a message satisfying `msg` to connection `c`.
pub open spec fn is_send(a: Action, c: ConnId, n: Notice) -> bool {
    match a {
        Action::Send(d, m) => d == c && notice_matches(m, n),
        Action::Close(_) => false,
    }
}

/// Whether `a` writes a message satisfying `msg` to a bound player.
pub open spec fn sends_bound(
    a: Action,
    players: Map<PlayerId, WebAppPlayer>,
    n: Notice,
) -> bool {
    match a {
        Action::Send(c, m) => bound_in(players, c) && notice_matches(m, n),
        Action::Close(_) => false,
    }
}

/// Whether `actions` sends one message satisfying `msg` to each bound
/// player's connection and nothing else.
pub open spec fn broadcast_of(
    actions: Seq<Action>,
    players: Map<PlayerId, WebAppPlayer>,
    n: Notice,
) -> bool {
    &&& forall|k: int| 0 <= k < actions.len() ==> #[trigger] sends_bound(actions[k], players, n)
    &&& forall|c: ConnId|
        bound_in(players, c) ==> exists|k: int|
            0 <= k < actions.len() && #[trigger] send_target(actions[k]) == Some(c)
}

/// Whether `actions` is one message satisfying `msg` on `target`, or
/// nothing when there is no target.
pub open spec fn reply_of(
    actions: Seq<Action>,
    target: Option<ConnId>,
    n: Notice,
) -> bool {
    match target {
        Some(c) => actions.len() == 1 && is_send(actions[0], c, n),
        None => actions.len() == 0,
    }
}

/// The kinds of message the lobby sends.
#[derive(Debug, Clone, Copy, PartialEq, Eq, Structural)]
pub enum Notice {
    AuthOk,
    AuthReject,
    /// A move before the game could begin.
    NotReady,
    /// A refused move.
    BadMove,
    /// The game changed; the number orders the updates.
    Update(u32),
    /// A team won.
    Win(Team, WinReason),
    /// Rosters changed.
    Players,
}

/// Whether `m` is the message for notice `n`.
pub open spec fn notice_matches(m: WSMessage, n: Notice) -> bool {
    match n {
        Notice::AuthOk => m is AuthOk,
        Notice::AuthReject => m is AuthReject,
        Notice::NotReady => match m {
            WSMessage::InvalidMove { reason: Some(s) } => s@ == "Game not ready to start yet"@,
            _ => false,
        },
        Notice::BadMove => match m {
            WSMessage::InvalidMove { reason: None } => true,
            _ => false,
        },
        Notice::Update(k) => m == WSMessage::UpdateState(k),
        Notice::Win(t, r) => match m {
            WSMessage::TeamWinMessage { id, reason } => id == team_number(t) && reason@
                == reason_text(r),
            _ => false,
        },
        Notice::Players => m is PlayerUpdate,
    }
}

/// The message for a notice.
pub fn notice_message(n: Notice) -> (r: WSMessage)
    ensures
        notice_matches(r, n),
{
    match n {
        Notice::AuthOk => WSMessage::AuthOk,
        Notice::AuthReject => WSMessage::AuthReject,
        Notice::NotReady => WSMessage::InvalidMove {
            reason: Some("Game not ready to start yet".to_string()),
        },
        Notice::BadMove => WSMessage::InvalidMove { reason: None },
        Notice::Update(k) => WSMessage::UpdateState(k),
        Notice::Win(t, r) => WSMessage::TeamWinMessage { id: t.get_id(), reason: r.to_string() },
        Notice::Players => WSMessage::PlayerUpdate,
    }
}

/// One message for `n` on `target`, or nothing when there is no target.
fn reply(target: Option<ConnId>, n: Notice) -> (r: Vec<Action>)
    ensures
        reply_of(r@, target, n),
{
    let mut actions: Vec<Action> = Vec::new();
    match target {
        Some(c) => {
            actions.push(Action::Send(c, notice_message(n)));
        },
        None => {},
    }
    actions
}

/// The connection a result names, if it is `Ok`.
fn target_of<E>(r: Result<ConnId, E>) -> (t: Option<ConnId>)
    ensures
        t == (match r {
            Ok(c) => Some(c),
            Err(_) => None,
        }),
{
    match r {
        Ok(c) => Some(c),
        Err(_) => None,
    }
}

/// A lobby: its game, router, challenges and counters.
pub struct Lobby {
    pub id: String,
    game: GameWrapper,
    allow_conns: bool,
    player_modem: PlayerModem,
    auth_challenges: HashMap<PlayerId, InternalAuthChallenge>,
    move_update_id: u32,
    next_conn_id: ConnId,
    game_over: bool,
}

/// The lobby as the contracts see it.
impl Lobby {
    pub closed spec fn lobby_id(&self) -> Seq<char> {
        self.id@
    }

    pub closed spec fn game(&self) -> GameWrapper {
        self.game
    }

    /// Whether new connections are accepted.
    pub closed spec fn admitting(&self) -> bool {
        self.allow_conns
    }

    pub closed spec fn modem(&self) -> PlayerModem {
        self.player_modem
    }

    /// Outstanding challenges by player id.
    pub closed spec fn challenges(&self) -> Map<PlayerId, InternalAuthChallenge> {
        self.auth_challenges@
    }

    /// Number of accepted moves.
    pub closed spec fn move_counter(&self) -> u32 {
        self.move_update_id
    }

    /// Whether a team has won; play is then frozen.
    pub closed spec fn ended(&self) -> bool {
        self.game_over
    }

    /// The id the next accepted connection gets.
    pub closed spec fn next_conn(&self) -> ConnId {
        self.next_conn_id
    }

    /// The lobby's invariant: a sound game and router, at most one accepted
    /// move per revealed tile, and identified connections among those
    /// handed out.
    pub open spec fn wf(&self) -> bool {
        &&& self.game().wf()
        &&& self.modem().wf()
        &&& self.move_counter() <= self.game().board_of().revealed().len()
        &&& forall|c: ConnId|
            #[trigger] self.modem().identified().contains_key(c) ==> c < self.next_conn()
        &&& forall|c: ConnId| #[trigger] self.modem().orphans().contains(c) ==> c < self.next_conn()
    }

    /// Everything but the game, the move counter and the admission flag is
    /// as it was.
    pub open spec fn same_links(&self, o: &Lobby) -> bool {
        &&& self.modem() == o.modem()
        &&& self.challenges() == o.challenges()
        &&& self.next_conn() == o.next_conn()
        &&& self.ended() == o.ended()
    }
}

/// What handling an authentication response does. A response on a
/// connection that is not registered (closed, or never handed out) is
/// ignored. One whose answer matches the player's outstanding challenge
/// closes the challenge, ties the connection to the player and replies
/// `AuthOk`; any other is answered `AuthReject`, after which the connection
/// is closed, no challenge changes and no player gains a connection.
pub open spec fn auth_step(
    before: Lobby,
    after: Lobby,
    ws_id: ConnId,
    msg: AuthResponse,
    actions: Seq<Action>,
) -> bool {
    let pid = msg.pid;
    let matched = before.challenges().contains_key(pid) && answers(before.challenges()[pid], msg);
    &&& after.game() == before.game()
    &&& after.admitting() == before.admitting()
    &&& after.move_counter() == before.move_counter()
    &&& after.next_conn() == before.next_conn()
    &&& after.ended() == before.ended()
    &&& if !(before.modem().orphans().contains(ws_id) || before.modem().identified().contains_key(
        ws_id,
    )) {
        after.modem() == before.modem() && after.challenges() == before.challenges()
            && actions.len() == 0
    } else if matched {
        &&& after.challenges() == before.challenges().remove(pid)
        &&& after.modem().orphans() == before.modem().orphans().remove(ws_id)
        &&& after.modem().identified() == before.modem().identified().insert(ws_id, pid)
        &&& after.modem().players().dom() == before.modem().players().dom()
        &&& forall|q: PlayerId|
            q != pid && #[trigger] before.modem().players().contains_key(q)
                ==> after.modem().players()[q] == before.modem().players()[q]
        &&& before.modem().players().contains_key(pid) ==> {
            &&& after.modem().players()[pid].profile() == before.modem().players()[pid].profile()
            &&& after.modem().players()[pid].conn_of() == Some(ws_id)
        }
        &&& reply_of(actions, after.modem().route(ws_id), Notice::AuthOk)
    } else {
        &&& after.challenges() == before.challenges()
        &&& after.modem().orphans() == before.modem().orphans().remove(ws_id)
        &&& after.modem().identified() == before.modem().identified().remove(ws_id)
        &&& if before.modem().orphans().contains(ws_id) {
            after.modem().players() == before.modem().players()
        } else {
            unbound(
                before.modem().players(),
                after.modem().players(),
                before.modem().identified()[ws_id],
            )
        }
        &&& match before.modem().route(ws_id) {
            Some(c) => actions.len() == 2 && is_send(actions[0], c, Notice::AuthReject)
                && actions[1] == Action::Close(c),
            None => actions.len() == 0,
        }
    }
}

/// The team to move once the lobby has tried to begin its game.
pub open spec fn turn_after_begin(g: GameWrapper) -> Option<Team> {
    if g is InitialGame {
        Some(Team::TeamOne)
    } else {
        g.turn()
    }
}

/// Whether player `pid` may reveal `tile` in game `g` once it has begun.
pub open spec fn legal_move(g: GameWrapper, pid: PlayerId, tile: u8) -> bool {
    &&& g.team_of(pid) is Some
    &&& g.team_of(pid) == turn_after_begin(g)
    &&& g.board_of().can_reveal(tile as int)
}

/// What handling a tile selection does. A selection on a connection that
/// speaks for no known player is ignored. A game in its first phase is begun
/// first; if it cannot begin, the player is told so. A refused move is
/// answered to the player alone. An accepted move counts, and is announced
/// to every bound player: the new update number, or the winner, after which
/// the game is over: the lobby stops admitting connections, and every later
/// selection is refused to the player alone, changing nothing.
pub open spec fn tile_step(
    before: Lobby,
    after: Lobby,
    ws_id: ConnId,
    tile: u8,
    actions: Seq<Action>,
) -> bool {
    let m = before.modem();
    let g = before.game();
    let known = m.identified().contains_key(ws_id) && m.players().contains_key(
        m.identified()[ws_id],
    );
    let pid = m.identified()[ws_id];
    &&& after.modem() == before.modem()
    &&& after.challenges() == before.challenges()
    &&& after.next_conn() == before.next_conn()
    &&& after.game().roster(Team::TeamOne) == g.roster(Team::TeamOne)
    &&& after.game().roster(Team::TeamTwo) == g.roster(Team::TeamTwo)
    &&& after.game().spymaster(Team::TeamOne) == g.spymaster(Team::TeamOne)
    &&& after.game().spymaster(Team::TeamTwo) == g.spymaster(Team::TeamTwo)
    &&& if !known {
        &&& after.game().same_game(&g)
        &&& after.admitting() == before.admitting()
        &&& after.move_counter() == before.move_counter()
        &&& after.ended() == before.ended()
        &&& actions.len() == 0
    } else if before.ended() {
        &&& after.game().same_game(&g)
        &&& after.admitting() == before.admitting()
        &&& after.move_counter() == before.move_counter()
        &&& after.ended()
        &&& reply_of(actions, m.player_route(pid), Notice::BadMove)
    } else if g is InitialGame && !g.ready() {
        &&& after.game().same_game(&g)
        &&& !after.ended()
        &&& after.admitting() == before.admitting()
        &&& after.move_counter() == before.move_counter()
        &&& reply_of(actions, m.player_route(pid), Notice::NotReady)
    } else if !legal_move(g, pid, tile) {
        &&& after.game() is InProgressGame
        &&& after.game().board_of().same_state(&g.board_of())
        &&& after.game().turn() == turn_after_begin(g)
        &&& after.admitting() == before.admitting()
        &&& after.move_counter() == before.move_counter()
        &&& !after.ended()
        &&& reply_of(actions, m.player_route(pid), Notice::BadMove)
    } else {
        let acting = turn_after_begin(g)->0;
        let board = after.game().board_of();
        let outcome = move_outcome(board, acting, tile as int);
        &&& after.game() is InProgressGame
        &&& board.same_layout(&g.board_of())
        &&& board.revealed() == g.board_of().revealed().insert(tile as int)
        &&& after.game().turn() == Some(next_turn_after(g.board_of(), acting, tile as int))
        &&& after.move_counter() == before.move_counter() + 1
        &&& match outcome {
            MoveResult::Continue => {
                &&& after.admitting() == before.admitting()
                &&& !after.ended()
                &&& broadcast_of(
                    actions,
                    m.players(),
                    Notice::Update(after.move_counter()),
                )
            },
            MoveResult::Win(t, r) => {
                &&& !after.admitting()
                &&& after.ended()
                &&& broadcast_of(actions, m.players(), Notice::Win(t, r))
            },
        }
    }
}

/// A tile's position is on the board, so a board has at most 25 revealed.
proof fn lemma_revealed_bound(b: Board)
    requires
        b.wf(),
    ensures
        b.revealed().len() <= BOARD_SIZE,
{
    lemma_int_range(0, BOARD_SIZE as int);
    assert(b.revealed().subset_of(set_int_range(0, BOARD_SIZE as int)));
    lemma_len_subset(b.revealed(), set_int_range(0, BOARD_SIZE as int));
}

impl Lobby {
    /// A lobby admitting connections, over `game`, with no players, no
    /// connections and no moves yet.
    pub fn new(id: &str, _player_ids: &Vec<String>, game: GameWrapper) -> (r: Self)
        requires
            game.wf(),
        ensures
            r.wf(),
            r.lobby_id() == id@,
            r.game() == game,
            r.admitting(),
            r.move_counter() == 0,
            r.next_conn() == 0,
            !r.ended(),
            r.challenges() == Map::<PlayerId, InternalAuthChallenge>::empty(),
            r.modem().players() == Map::<PlayerId, WebAppPlayer>::empty(),
            r.modem().orphans() == Set::<ConnId>::empty(),
            r.modem().identified() == Map::<ConnId, PlayerId>::empty(),
    {
        Lobby {
            id: id.to_string(),
            game,
            allow_conns: true,
            player_modem: PlayerModem::new(),
            auth_challenges: HashMap::new(),
            move_update_id: 0,
            next_conn_id: 0,
            game_over: false,
        }
    }

    pub fn get_id(&self) -> (r: &str)
        ensures
            r@ == self.lobby_id(),
    {
        self.id.as_str()
    }

    /// Whether new connections are accepted.
    pub fn is_admitting(&self) -> (r: bool)
        ensures
            r == self.admitting(),
    {
        self.allow_conns
    }

    /// The number of accepted moves.
    pub fn get_move_update_id(&self) -> (r: u32)
        ensures
            r == self.move_counter(),
    {
        self.move_update_id
    }

    /// The lobby's game.
    pub fn get_game(&self) -> (r: &GameWrapper)
        ensures
            *r == self.game(),
    {
        &self.game
    }

    /// Registers a player and the challenge it must answer; hands back the
    /// part of the challenge the player receives.
    pub fn add_player_with_challenge(
        &mut self,
        player: WebAppPlayer,
        challenge: InternalAuthChallenge,
    ) -> (r: AuthChallenge)
        requires
            old(self).wf(),
        ensures
            final(self).wf(),
            final(self).modem().players() == old(self).modem().players().insert(
                player.spec_id(),
                player,
            ),
            final(self).modem().orphans() == old(self).modem().orphans(),
            final(self).modem().identified() == old(self).modem().identified(),
            final(self).challenges() == old(self).challenges().insert(player.spec_id(), challenge),
            final(self).game() == old(self).game(),
            final(self).admitting() == old(self).admitting(),
            final(self).move_counter() == old(self).move_counter(),
            final(self).next_conn() == old(self).next_conn(),
            final(self).ended() == old(self).ended(),
            r == challenge.challenge,
    {
        let pid = *player.get_id();
        self.player_modem.add_player(player);
        let part = AuthChallenge {
            pid: challenge.challenge.pid,
            challenge: challenge.challenge.challenge.clone(),
        };
        self.auth_challenges.insert(pid, challenge);
        proof {
            assert forall|c: ConnId| #[trigger] self.modem().identified().contains_key(c) implies c
                < self.next_conn() by {
                assert(old(self).modem().identified().contains_key(c));
            }
            assert forall|c: ConnId| #[trigger] self.modem().orphans().contains(c) implies c
                < self.next_conn() by {
                assert(old(self).modem().orphans().contains(c));
            }
        }
        part
    }

    /// Registers a player with a fresh random echo challenge; hands back the
    /// part of the challenge the player receives.
    pub fn add_player(&mut self, player: WebAppPlayer) -> (r: AuthChallenge)
        requires
            old(self).wf(),
        ensures
            final(self).wf(),
            final(self).modem().players() == old(self).modem().players().insert(
                player.spec_id(),
                player,
            ),
            final(self).modem().orphans() == old(self).modem().orphans(),
            final(self).modem().identified() == old(self).modem().identified(),
            final(self).challenges().dom() == old(self).challenges().dom().insert(player.spec_id()),
            r.pid == player.spec_id(),
            final(self).challenges()[player.spec_id()].challenge == r,
            final(self).challenges()[player.spec_id()].exp_response@ == r.challenge@,
            forall|q: PlayerId|
                q != player.spec_id() && #[trigger] old(self).challenges().contains_key(q)
                    ==> final(self).challenges()[q] == old(self).challenges()[q],
            final(self).game() == old(self).game(),
            final(self).admitting() == old(self).admitting(),
            final(self).move_counter() == old(self).move_counter(),
            final(self).next_conn() == old(self).next_conn(),
            final(self).ended() == old(self).ended(),
    {
        let pid = *player.get_id();
        let challenge = build_echo_challenge(pid, None);
        self.add_player_with_challenge(player, challenge)
    }

    /// Registers a new player named `name` under the next id, the number of
    /// players so far, with a fresh random echo challenge; hands back the
    /// part of the challenge the player receives. Refused once ids run out.
    pub fn create_player(&mut self, name: &str) -> (r: Option<AuthChallenge>)
        requires
            old(self).wf(),
        ensures
            final(self).wf(),
            r is None <==> old(self).modem().players().len() >= u32::MAX,
            r is None ==> *final(self) == *old(self),
            r matches Some(c) ==> {
                let id = c.pid;
                &&& id == old(self).modem().players().len()
                &&& final(self).modem().players().dom() == old(self).modem().players().dom().insert(id)
                &&& final(self).modem().players()[id].profile().spec_name() == name@
                &&& final(self).modem().players()[id].spec_id() == id
                &&& final(self).modem().players()[id].conn_of() is None
                &&& forall|q: PlayerId|
                    q != id && #[trigger] old(self).modem().players().contains_key(q)
                        ==> final(self).modem().players()[q] == old(self).modem().players()[q]
                &&& final(self).challenges().dom() == old(self).challenges().dom().insert(id)
                &&& final(self).challenges()[id].challenge == c
                &&& final(self).challenges()[id].exp_response@ == c.challenge@
                &&& c.challenge@.len() == 36
            },
            final(self).modem().orphans() == old(self).modem().orphans(),
            final(self).modem().identified() == old(self).modem().identified(),
            final(self).game() == old(self).game(),
            final(self).admitting() == old(self).admitting(),
            final(self).move_counter() == old(self).move_counter(),
            final(self).next_conn() == old(self).next_conn(),
            final(self).ended() == old(self).ended(),
    {
        let count = self.player_modem.get_num_players();
        if count >= 4294967295 {
            return None;
        }
        let id = count as u32;
        let challenge = build_echo_challenge(id, None);
        Some(self.add_player_with_challenge(WebAppPlayer::new(name, id), challenge))
    }

    pub fn get_num_players(&self) -> (r: usize)
        ensures
            r == self.modem().players().len(),
    {
        self.player_modem.get_num_players()
    }

    /// The number of connections not yet tied to a player.
    pub fn get_num_unidentified_ws(&self) -> (r: usize)
        ensures
            r == self.modem().orphans().len(),
    {
        self.player_modem.get_num_orphan_conns()
    }

    /// Accepts a new connection as an orphan and hands out its id, or
    /// refuses it once the lobby no longer admits connections.
    pub fn handle_incoming_ws(&mut self) -> (r: Option<ConnId>)
        requires
            old(self).wf(),
        ensures
            final(self).wf(),
            r is None <==> (!old(self).admitting() || old(self).next_conn() == u64::MAX),
            r is None ==> final(self).modem() == old(self).modem(),
            r is None ==> final(self).next_conn() == old(self).next_conn(),
            r matches Some(c) ==> {
                &&& c == old(self).next_conn()
                &&& !old(self).modem().orphans().contains(c)
                &&& !old(self).modem().identified().contains_key(c)
                &&& final(self).modem().orphans().len() == old(self).modem().orphans().len() + 1
                &&& final(self).next_conn() == c + 1
                &&& final(self).modem().orphans() == old(self).modem().orphans().insert(c)
                &&& final(self).modem().identified() == old(self).modem().identified()
                &&& final(self).modem().players() == old(self).modem().players()
            },
            final(self).game() == old(self).game(),
            final(self).challenges() == old(self).challenges(),
            final(self).admitting() == old(self).admitting(),
            final(self).move_counter() == old(self).move_counter(),
            final(self).ended() == old(self).ended(),
    {
        if !self.allow_conns || self.next_conn_id == u64::MAX {
            return None;
        }
        let id = self.next_conn_id;
        self.next_conn_id = self.next_conn_id + 1;
        self.player_modem.add_orphan_conn(id);
        proof {
            assert forall|c: ConnId| #[trigger] self.modem().identified().contains_key(c) implies c
                < self.next_conn() by {
                assert(old(self).modem().identified().contains_key(c));
            }
            assert forall|c: ConnId| #[trigger] self.modem().orphans().contains(c) implies c
                < self.next_conn() by {
                if c != id {
                    assert(old(self).modem().orphans().contains(c));
                }
            }
        }
        Some(id)
    }

    /// Closes a connection; hands back the one to shut, if any.
    pub fn close_ws(&mut self, id: ConnId) -> (r: Vec<Action>)
        requires
            old(self).wf(),
        ensures
            final(self).wf(),
            final(self).modem().orphans() == old(self).modem().orphans().remove(id),
            final(self).modem().identified() == old(self).modem().identified().remove(id),
            old(self).modem().orphans().contains(id) || !old(self).modem().identified().contains_key(
                id,
            ) ==> final(self).modem().players() == old(self).modem().players(),
            !old(self).modem().orphans().contains(id) && old(self).modem().identified().contains_key(
                id,
            ) ==> unbound(
                old(self).modem().players(),
                final(self).modem().players(),
                old(self).modem().identified()[id],
            ),
            final(self).next_conn() == old(self).next_conn(),
            final(self).ended() == old(self).ended(),
            r@ == (match old(self).modem().close_target(id) {
                Some(c) => seq![Action::Close(c)],
                None => Seq::<Action>::empty(),
            }),
            final(self).game() == old(self).game(),
            final(self).challenges() == old(self).challenges(),
            final(self).admitting() == old(self).admitting(),
            final(self).move_counter() == old(self).move_counter(),
    {
        let mut actions: Vec<Action> = Vec::new();
        match self.player_modem.close_ws(id) {
            Some(c) => actions.push(Action::Close(c)),
            None => {},
        }
        proof {
            assert forall|c: ConnId| #[trigger] self.modem().identified().contains_key(c) implies c
                < self.next_conn() by {
                assert(old(self).modem().identified().contains_key(c));
            }
            assert forall|c: ConnId| #[trigger] self.modem().orphans().contains(c) implies c
                < self.next_conn() by {
                assert(old(self).modem().orphans().contains(c));
            }
            if old(self).modem().close_target(id) is Some {
                assert(actions@ =~= seq![Action::Close(old(self).modem().close_target(id)->0)]);
            } else {
                assert(actions@ =~= Seq::<Action>::empty());
            }
        }
        actions
    }

    /// Stops admitting connections.
    pub fn quit(&mut self)
        ensures
            !final(self).admitting(),
            final(self).game() == old(self).game(),
            final(self).same_links(old(self)),
            final(self).move_counter() == old(self).move_counter(),
    {
        self.allow_conns = false;
    }

    /// One message for `n` to each bound player.
    fn broadcast(&self, n: Notice) -> (r: Vec<Action>)
        ensures
            broadcast_of(r@, self.modem().players(), n),
    {
        let targets = self.player_modem.broadcast();
        let mut actions: Vec<Action> = Vec::new();
        let mut k: usize = 0;
        while k < targets.len()
            invariant
                k <= targets@.len(),
                actions@.len() == k,
                forall|j: int| 0 <= j < k ==> #[trigger] is_send(actions@[j], targets@[j], n),
                forall|j: int|
                    0 <= j < targets@.len() ==> bound_in(
                        self.modem().players(),
                        #[trigger] targets@[j],
                    ),
                forall|c: ConnId| bound_in(self.modem().players(), c) ==> targets@.contains(c),
            decreases targets@.len() - k,
        {
            actions.push(Action::Send(targets[k], notice_message(n)));
            k = k + 1;
        }
        proof {
            assert forall|j: int| 0 <= j < actions@.len() implies #[trigger] sends_bound(
                actions@[j],
                self.modem().players(),
                n,
            ) by {
                assert(is_send(actions@[j], targets@[j], n));
                assert(bound_in(self.modem().players(), targets@[j]));
            }
            assert forall|c: ConnId| bound_in(self.modem().players(), c) implies exists|j: int|
                0 <= j < actions@.len() && #[trigger] send_target(actions@[j]) == Some(c) by {
                let j = choose|j: int| 0 <= j < targets@.len() && targets@[j] == c;
                assert(is_send(actions@[j], targets@[j], n));
                assert(send_target(actions@[j]) == Some(c));
            }
        }
        actions
    }

    /// Handles an authentication response on connection `ws_id`.
    pub fn handle_auth_resp(&mut self, ws_id: ConnId, msg: AuthResponse) -> (r: Vec<Action>)
        requires
            old(self).wf(),
        ensures
            final(self).wf(),
            auth_step(*old(self), *final(self), ws_id, msg, r@),
    {
        if !self.player_modem.has_conn(ws_id) {
            return Vec::new();
        }
        let pid = msg.pid;
        let ok = match self.auth_challenges.get(&pid) {
            Some(c) => c.response_matches(&msg),
            None => false,
        };
        if ok {
            self.auth_challenges.remove(&pid);
            self.player_modem.relate_player_ws_conn(ws_id, pid);
            let target = target_of(self.player_modem.ws_send_msg(ws_id));
            proof {
                assert forall|c: ConnId| #[trigger] self.modem().identified().contains_key(c)
                    implies c < self.next_conn() by {
                    if c != ws_id {
                        assert(old(self).modem().identified().contains_key(c));
                    }
                }
                assert forall|c: ConnId| #[trigger] self.modem().orphans().contains(c) implies c
                    < self.next_conn() by {
                    assert(old(self).modem().orphans().contains(c));
                }
            }
            reply(target, Notice::AuthOk)
        } else {
            let target = target_of(self.player_modem.ws_send_msg(ws_id));
            let mut actions = reply(target, Notice::AuthReject);
            match self.player_modem.close_ws(ws_id) {
                Some(c) => actions.push(Action::Close(c)),
                None => {},
            }
            proof {
                assert forall|c: ConnId| #[trigger] self.modem().identified().contains_key(c)
                    implies c < self.next_conn() by {
                    assert(old(self).modem().identified().contains_key(c));
                }
                assert forall|c: ConnId| #[trigger] self.modem().orphans().contains(c) implies c
                    < self.next_conn() by {
                    assert(old(self).modem().orphans().contains(c));
                }
            }
            actions
        }
    }

    /// Handles a tile selection on connection `ws_id`.
    pub fn handle_tile_select_msg(&mut self, ws_id: ConnId, tile_num: u8) -> (r: Vec<Action>)
        requires
            old(self).wf(),
        ensures
            final(self).wf(),
            tile_step(*old(self), *final(self), ws_id, tile_num, r@),
    {
        let pid = match self.player_modem.get_ws_player_id(ws_id) {
            Some(p) => p,
            None => {
                return Vec::new();
            },
        };
        let player = match self.player_modem.get_simple_player(pid) {
            Some(p) => p,
            None => {
                return Vec::new();
            },
        };
        if self.game_over {
            let target = target_of(self.player_modem.send_player_msg(pid));
            return reply(target, Notice::BadMove);
        }
        let ghost g0 = self.game;
        proof {
            self.player_modem.players()[pid].lemma_id_of_profile();
            assert(player.spec_id() == pid);
        }
        if self.game.is_initial() {
            self.game = self.game.begin();
        }
        let ghost g1 = self.game;
        proof {
            lemma_revealed_bound(self.game.board_of());
        }
        let outcome = match &mut self.game {
            GameWrapper::InitialGame(_) => None,
            GameWrapper::InProgressGame(game) => Some(game.try_unravel(&player, tile_num)),
        };
        match outcome {
            None => {
                let target = target_of(self.player_modem.send_player_msg(pid));
                reply(target, Notice::NotReady)
            },
            Some(Err(_)) => {
                proof {
                    assert(self.game.board_of().same_state(&g1.board_of()));
                    assert(g1.board_of().same_state(&g0.board_of()));
                    assert(self.game.board_of().same_state(&g0.board_of()));
                    assert(!legal_move(g0, pid, tile_num));
                }
                let target = target_of(self.player_modem.send_player_msg(pid));
                reply(target, Notice::BadMove)
            },
            Some(Ok(result)) => {
                proof {
                    assert(self.game.board_of().revealed() == g1.board_of().revealed().insert(
                        tile_num as int,
                    ));
                    assert(g1.board_of().revealed() == g0.board_of().revealed());
                    assert(legal_move(g0, pid, tile_num));
                }
                self.move_update_id = self.move_update_id + 1;
                match result {
                    MoveResult::Win(team, reason) => {
                        let actions = self.broadcast(Notice::Win(team, reason));
                        self.quit();
                        self.game_over = true;
                        actions
                    },
                    MoveResult::Continue => self.broadcast(Notice::Update(self.move_update_id)),
                }
            },
        }
    }

    /// Moves player `pid` into `team`, or puts it there when it is on no
    /// team yet; refused when the id is on no team and not registered. Every
    /// bound player is told the rosters changed either way.
    pub fn switch_or_join_team(&mut self, pid: PlayerId, team: &Team) -> (r: (
        Result<(), InvalidError>,
        Vec<Action>,
    ))
        requires
            old(self).wf(),
        ensures
            final(self).wf(),
            final(self).same_links(old(self)),
            final(self).admitting() == old(self).admitting(),
            final(self).move_counter() == old(self).move_counter(),
            final(self).game().board_of().same_state(&old(self).game().board_of()),
            final(self).game().turn() == old(self).game().turn(),
            (final(self).game() is InitialGame <==> old(self).game() is InitialGame),
            r.0 is Err <==> (old(self).game().team_of(pid) is None
                && !old(self).modem().players().contains_key(pid)),
            r.0 is Ok ==> final(self).game().team_of(pid) == Some(*team),
            r.0 is Err ==> final(self).game().same_game(&old(self).game()),
            forall|k: PlayerId|
                k != pid ==> #[trigger] final(self).game().team_of(k) == old(self).game().team_of(k),
            final(self).game().spymaster(Team::TeamOne) == kept_spymaster(
                old(self).game().spymaster(Team::TeamOne),
                final(self).game().roster(Team::TeamOne),
            ),
            final(self).game().spymaster(Team::TeamTwo) == kept_spymaster(
                old(self).game().spymaster(Team::TeamTwo),
                final(self).game().roster(Team::TeamTwo),
            ),
            broadcast_of(r.1@, old(self).modem().players(), Notice::Players),
    {
        let result = if self.game.get_player_team_from_id(&pid).is_some() {
            self.game.transfer_player(&pid, team)
        } else {
            match self.player_modem.get_simple_player(pid) {
                None => Err(InvalidError::new("Invalid pid!")),
                Some(player) => {
                    proof {
                        self.player_modem.players()[pid].lemma_id_of_profile();
                    }
                    self.game.add_player_to_team(player, team)
                },
            }
        };
        proof {
            lemma_revealed_bound(self.game.board_of());
        }
        let actions = self.broadcast(Notice::Players);
        (result, actions)
    }

    /// Chooses a team's spymaster: the player at position `ind` when the
    /// roster is listed by increasing id; refused past the roster's end.
    pub fn set_spymaster(&mut self, team: &Team, ind: usize) -> (r: Result<(), InvalidError>)
        requires
            old(self).wf(),
        ensures
            final(self).wf(),
            final(self).same_links(old(self)),
            final(self).admitting() == old(self).admitting(),
            final(self).move_counter() == old(self).move_counter(),
            r is Err <==> ind >= old(self).game().roster(*team).len(),
            r is Ok ==> final(self).game().spymaster(*team) is Some && at_position(
                old(self).game().roster(*team).dom(),
                final(self).game().spymaster(*team)->0,
                ind as int,
            ),
            final(self).game().roster(Team::TeamOne) == old(self).game().roster(Team::TeamOne),
            final(self).game().roster(Team::TeamTwo) == old(self).game().roster(Team::TeamTwo),
            (final(self).game() is InitialGame <==> old(self).game() is InitialGame),
    {
        let r = self.game.set_spymaster(team, ind);
        proof {
            lemma_revealed_bound(self.game.board_of());
        }
        r
    }

    /// The game as player `pid` may see it; refused for an unknown player.
    pub fn get_player_full_game_view(&self, pid: PlayerId) -> (r: Result<GameViewWrapper, NotAllowedError>)
        requires
            self.wf(),
        ensures
            r is Ok <==> self.modem().players().contains_key(pid),
            r matches Ok(v) ==> self.game().shows(v, pid),
    {
        if let Some(player) = self.player_modem.get_simple_player(pid) {
            proof {
                self.player_modem.players()[pid].lemma_id_of_profile();
            }
            if let Ok(view) = self.game.get_full_game_info(&player) {
                return Ok(view);
            }
        }
        Err(NotAllowedError::new("Not allowed"))
    }

    /// Handles one inbound message on connection `ws_id`: authentication
    /// responses and tile selections are acted on; anything else is ignored.
    pub fn handle_message(&mut self, ws_id: ConnId, msg: WSMessage) -> (r: Vec<Action>)
        requires
            old(self).wf(),
        ensures
            final(self).wf(),
            match msg {
                WSMessage::AuthResponse(a) => auth_step(*old(self), *final(self), ws_id, a, r@),
                WSMessage::TileSelect(t) => tile_step(*old(self), *final(self), ws_id, t, r@),
                _ => *final(self) == *old(self) && r@.len() == 0,
            },
    {
        match msg {
            WSMessage::AuthResponse(a) => self.handle_auth_resp(ws_id, a),
            WSMessage::TileSelect(t) => self.handle_tile_select_msg(ws_id, t),
            _ => Vec::new(),
        }
    }
}

} // verus!
