//! The game state machine: rosters, turn, score and move resolution over a
//! board, typed by phase.

use vstd::prelude::*;
use std::collections::HashMap;
use vstd::std_specs::iter::IteratorSpec;
use vstd::relations::{is_maximal, total_ordering};
use vstd::set_lib::lemma_len_subset;
use crate::board::{
    lemma_pending_bound, lemma_reveal_pending, Board, FullBoardView, MinimalBoardView, BOARD_SIZE,
    GROUP_SIZE,
};
use crate::errors::{GameBeginError, InvalidError, InvalidMoveError};
use crate::players::{Player, PlayerId};

verus! {

/// One of the two teams.
#[derive(Debug, Clone, Copy, PartialEq, Eq, Structural)]
pub enum Team {
    TeamOne,
    TeamTwo,
}

/// A team's number on the wire: 1 or 2.
pub open spec fn team_number(t: Team) -> u8 {
    match t {
        Team::TeamOne => 1,
        Team::TeamTwo => 2,
    }
}

impl Team {
    /// The team's number on the wire: 1 or 2.
    pub fn get_id(&self) -> (r: u8)
        ensures
            r == team_number(*self),
    {
        match self {
            Team::TeamOne => 1,
            Team::TeamTwo => 2,
        }
    }
}

/// The other team.
pub open spec fn opponent(t: Team) -> Team {
    match t {
        Team::TeamOne => Team::TeamTwo,
        Team::TeamTwo => Team::TeamOne,
    }
}

/// The other team.
pub fn other_team(t: Team) -> (r: Team)
    ensures
        r == opponent(t),
{
    match t {
        Team::TeamOne => Team::TeamTwo,
        Team::TeamTwo => Team::TeamOne,
    }
}

/// Why a team won.
#[derive(Debug, Clone, Copy, PartialEq, Eq, Structural)]
pub enum WinReason {
    ScoreReached,
    OpponentDangerDraw,
}

/// A win reason as shown to players.
pub open spec fn reason_text(r: WinReason) -> Seq<char> {
    match r {
        WinReason::ScoreReached => "Score reached."@,
        WinReason::OpponentDangerDraw => "Other team drew the danger card"@,
    }
}

impl WinReason {
    /// The reason as shown to players.
    pub fn to_string(&self) -> (r: String)
        ensures
            r@ == reason_text(*self),
    {
        match self {
            WinReason::ScoreReached => "Score reached.".to_string(),
            WinReason::OpponentDangerDraw => "Other team drew the danger card".to_string(),
        }
    }
}

/// What a move led to.
#[derive(Debug, Clone, Copy, PartialEq, Eq, Structural)]
pub enum MoveResult {
    Win(Team, WinReason),
    Continue,
}

/// Phase tag: players are joining and spymasters being chosen.
#[derive(Debug, Clone, Copy)]
pub struct InitialGame {}

/// Phase tag: moves are being played.
#[derive(Debug, Clone, Copy)]
pub struct InProgressGame {}

/// Whose turn it is after `acting` reveals position `i` of `b`: the same
/// team after its own tile or the danger tile, the other team otherwise.
pub open spec fn next_turn_after(b: Board, acting: Team, i: int) -> Team {
    if i == b.danger() || b.tiles_of(acting).contains(i) {
        acting
    } else {
        opponent(acting)
    }
}

/// The outcome of `acting` revealing position `i`, judged on the board
/// after the reveal. The danger tile hands the win to the other team; else a
/// team whose pending count is zero wins, the owner of the revealed tile
/// first.
pub open spec fn move_outcome(after: Board, acting: Team, i: int) -> MoveResult {
    if i == after.danger() {
        MoveResult::Win(opponent(acting), WinReason::OpponentDangerDraw)
    } else if after.team_one().contains(i) && after.pending(Team::TeamOne) == 0 {
        MoveResult::Win(Team::TeamOne, WinReason::ScoreReached)
    } else if after.team_two().contains(i) && after.pending(Team::TeamTwo) == 0 {
        MoveResult::Win(Team::TeamTwo, WinReason::ScoreReached)
    } else if after.pending(Team::TeamOne) == 0 {
        MoveResult::Win(Team::TeamOne, WinReason::ScoreReached)
    } else if after.pending(Team::TeamTwo) == 0 {
        MoveResult::Win(Team::TeamTwo, WinReason::ScoreReached)
    } else {
        MoveResult::Continue
    }
}

/// The scores and the turn: what changes every move.
#[derive(Debug, Clone)]
pub struct DynamicGameInfoView {
    pub team_one_score: u8,
    pub team_two_score: u8,
    pub next_turn: Option<Team>,
}

/// Rosters, spymasters, phase and scores. The board is not included: what
/// of it a player sees depends on the player.
#[derive(Debug, Clone)]
pub struct GameInfoView<S> {
    pub team_one_players: Vec<String>,
    pub team_two_players: Vec<String>,
    pub team_one_spymaster: Option<PlayerId>,
    pub team_two_spymaster: Option<PlayerId>,
    pub state: S,
    pub stats: DynamicGameInfoView,
}

/// The game with the changing part of the board.
#[derive(Debug, Clone)]
pub struct MinimalGameInfoView<S> {
    pub game_info: GameInfoView<S>,
    pub board: MinimalBoardView,
}

/// The game with the whole board, as one player may see it.
#[derive(Debug, Clone)]
pub struct FullGameInfoView<S> {
    pub game_info: GameInfoView<S>,
    pub board: FullBoardView,
}

/// Number of ids in `ids` below `k`: where `k` stands when `ids` are listed
/// in increasing order.
pub open spec fn rank(ids: Set<PlayerId>, k: PlayerId) -> nat {
    ids.filter(|x: PlayerId| x < k).len()
}

/// Whether `k` is at position `ind` when `ids` are listed in increasing
/// order.
pub open spec fn at_position(ids: Set<PlayerId>, k: PlayerId, ind: int) -> bool {
    ids.contains(k) && rank(ids, k) == ind
}

/// A spymaster slot after roster changes: kept while the player is still on
/// the team, emptied otherwise.
pub open spec fn kept_spymaster<P>(s: Option<PlayerId>, roster: Map<PlayerId, P>) -> Option<
    PlayerId,
> {
    match s {
        Some(k) => if roster.contains_key(k) {
            Some(k)
        } else {
            None
        },
        None => None,
    }
}

/// Every position below the size of a finite set of ids is held by one id.
proof fn lemma_position_exists(ids: Set<PlayerId>, i: int)
    requires
        ids.finite(),
        0 <= i < ids.len(),
    ensures
        exists|k: PlayerId| at_position(ids, k, i),
    decreases ids.len(),
{
    let leq = |a: PlayerId, b: PlayerId| a <= b;
    assert(total_ordering(leq));
    ids.find_unique_maximal_ensures(leq);
    let m = ids.find_unique_maximal(leq);
    let rest = ids.remove(m);
    assert forall|x: PlayerId| rest.contains(x) implies x < m by {
        assert(ids.contains(x));
        assert(is_maximal(leq, m, ids));
        if m <= x {
            assert(leq(m, x));
            assert(leq(x, m));
        }
    }
    if i == ids.len() - 1 {
        assert(ids.filter(|x: PlayerId| x < m) =~= rest);
        assert(at_position(ids, m, i));
    } else {
        lemma_position_exists(rest, i);
        let k = choose|k: PlayerId| at_position(rest, k, i);
        assert(ids.filter(|x: PlayerId| x < k) =~= rest.filter(|x: PlayerId| x < k));
        assert(at_position(ids, k, i));
    }
}

/// Number of entries of `s` below `k`.
spec fn count_below(s: Seq<PlayerId>, k: PlayerId) -> nat
    decreases s.len(),
{
    if s.len() == 0 {
        0
    } else {
        count_below(s.drop_last(), k) + if s.last() < k {
            1nat
        } else {
            0nat
        }
    }
}

/// Over distinct ids, counting the entries below `k` gives its rank.
proof fn lemma_count_below(s: Seq<PlayerId>, k: PlayerId)
    requires
        s.no_duplicates(),
    ensures
        count_below(s, k) == rank(s.to_set(), k),
    decreases s.len(),
{
    if s.len() == 0 {
        assert(s.to_set().filter(|x: PlayerId| x < k) =~= Set::<PlayerId>::empty());
    } else {
        let t = s.drop_last();
        let last = s.last();
        assert(t.no_duplicates()) by {
            assert forall|a: int, b: int| 0 <= a < t.len() && 0 <= b < t.len() && a != b implies t[a]
                != t[b] by {
                assert(t[a] == s[a] && t[b] == s[b]);
            }
        }
        lemma_count_below(t, k);
        assert forall|x: PlayerId| s.to_set().contains(x) <==> t.to_set().insert(last).contains(
            x,
        ) by {
            if s.contains(x) {
                let i = choose|i: int| 0 <= i < s.len() && s[i] == x;
                if i < s.len() - 1 {
                    assert(t[i] == x);
                }
            }
            if t.contains(x) {
                let i = choose|i: int| 0 <= i < t.len() && t[i] == x;
                assert(s[i] == x);
            }
            if x == last {
                assert(s[s.len() - 1] == x);
            }
        }
        assert(s.to_set() =~= t.to_set().insert(last));
        assert(!t.to_set().contains(last)) by {
            if t.contains(last) {
                let i = choose|i: int| 0 <= i < t.len() && t[i] == last;
                assert(s[i] == s[s.len() - 1]);
            }
        }
        t.to_set().lemma_len_filter(|x: PlayerId| x < k);
        if last < k {
            assert(s.to_set().filter(|x: PlayerId| x < k) =~= t.to_set().filter(
                |x: PlayerId| x < k,
            ).insert(last));
        } else {
            assert(s.to_set().filter(|x: PlayerId| x < k) =~= t.to_set().filter(
                |x: PlayerId| x < k,
            ));
        }
    }
}

/// Number of entries of `ids` below `k`.
fn count_smaller(ids: &Vec<PlayerId>, k: PlayerId) -> (r: usize)
    ensures
        r == count_below(ids@, k),
{
    let mut c: usize = 0;
    let mut j: usize = 0;
    while j < ids.len()
        invariant
            j <= ids@.len(),
            c == count_below(ids@.take(j as int), k),
            c <= j,
        decreases ids@.len() - j,
    {
        proof {
            assert(ids@.take(j as int + 1).drop_last() =~= ids@.take(j as int));
        }
        if ids[j] < k {
            c = c + 1;
        }
        j = j + 1;
    }
    proof {
        assert(ids@.take(j as int) =~= ids@);
    }
    c
}

/// The id at position `ind` of a roster listed by increasing id, if the
/// roster is that long.
fn id_at_position<P>(players: &HashMap<PlayerId, P>, ind: usize) -> (r: Option<PlayerId>)
    ensures
        match r {
            Some(k) => at_position(players@.dom(), k, ind as int) && ind < players@.len(),
            None => ind >= players@.len(),
        },
{
    let mut ids: Vec<PlayerId> = Vec::new();
    let keys = players.keys();
    let ghost items = IteratorSpec::remaining(&keys);
    proof {
        assert(items.unref().to_set() == players@.dom());
    }
    for k in it: keys
        invariant
            it.seq() == items,
            items.unref().to_set() == players@.dom(),
            items.no_duplicates(),
            items.len() == players@.dom().len(),
            ids@.len() == it.index(),
            forall|j: int| 0 <= j < ids@.len() ==> ids@[j] == *items[j],
    {
        ids.push(*k);
    }
    let ghost dom = players@.dom();
    proof {
        assert(ids@.len() == items.len());
        assert(ids@.no_duplicates()) by {
            assert forall|a: int, b: int|
                0 <= a < ids@.len() && 0 <= b < ids@.len() && a != b implies ids@[a] != ids@[b] by {
                assert(items[a] != items[b]);
            }
        }
        assert forall|x: PlayerId| ids@.to_set().contains(x) <==> dom.contains(x) by {
            if ids@.contains(x) {
                let i = choose|i: int| 0 <= i < ids@.len() && ids@[i] == x;
                assert(items.unref()[i] == x);
                assert(items.unref().contains(x));
            }
            if dom.contains(x) {
                assert(items.unref().to_set().contains(x));
                let i = choose|i: int| 0 <= i < items.len() && items.unref()[i] == x;
                assert(ids@[i] == x);
            }
        }
        assert(ids@.to_set() =~= dom);
    }
    let mut j: usize = 0;
    while j < ids.len()
        invariant
            j <= ids@.len(),
            ids@.no_duplicates(),
            ids@.to_set() == dom,
            dom == players@.dom(),
            forall|i: int| 0 <= i < j ==> rank(dom, #[trigger] ids@[i]) != ind,
        decreases ids@.len() - j,
    {
        let c = count_smaller(&ids, ids[j]);
        proof {
            lemma_count_below(ids@, ids@[j as int]);
            assert(ids@.contains(ids@[j as int]));
        }
        if c == ind {
            proof {
                let k = ids@[j as int];
                let below = dom.filter(|x: PlayerId| x < k);
                assert(below.subset_of(dom.remove(k)));
                lemma_len_subset(below, dom.remove(k));
            }
            return Some(ids[j]);
        }
        j = j + 1;
    }
    proof {
        if (ind as int) < players@.len() {
            lemma_position_exists(dom, ind as int);
            let k = choose|k: PlayerId| at_position(dom, k, ind as int);
            assert(ids@.to_set().contains(k));
            let i = choose|i: int| 0 <= i < ids@.len() && ids@[i] == k;
            assert(rank(dom, ids@[i]) != ind);
        }
    }
    None
}

/// Whether `names` lists the names of the players of `roster`, one entry
/// per player.
pub open spec fn names_of<P: Player>(names: Seq<String>, roster: Map<PlayerId, P>) -> bool {
    &&& names.len() == roster.len()
    &&& forall|k: int| 0 <= k < names.len() ==> #[trigger] named_in(names[k]@, roster)
}

/// Whether some player of `roster` has this name.
pub open spec fn named_in<P: Player>(name: Seq<char>, roster: Map<PlayerId, P>) -> bool {
    exists|p: P| roster.contains_value(p) && name == p.spec_name()
}

/// Turn switch: after a grey tile or one of the other team's tiles the turn
/// passes to the other team; after one of its own tiles the mover keeps it;
/// the danger tile ends the game whatever the turn.
pub proof fn lemma_turn_switch(b: Board, acting: Team, i: int)
    requires
        b.wf(),
        b.can_reveal(i),
    ensures
        b.grey().contains(i) ==> next_turn_after(b, acting, i) == opponent(acting),
        b.tiles_of(opponent(acting)).contains(i) ==> next_turn_after(b, acting, i) == opponent(
            acting,
        ),
        b.tiles_of(acting).contains(i) ==> next_turn_after(b, acting, i) == acting,
        i == b.danger() ==> move_outcome(b, acting, i) is Win,
{
    assert(b.grey().contains(i) ==> !b.team_one().contains(i) && !b.team_two().contains(i));
    assert(b.team_one().contains(i) ==> !b.team_two().contains(i));
}

/// Win rules: revealing the danger tile always hands the win to the other
/// team, and revealing a team's last pending tile always wins for that team
/// by score.
pub proof fn lemma_win(b: Board, after: Board, acting: Team, i: int, t: Team)
    requires
        b.wf(),
        b.can_reveal(i),
        after.same_layout(&b),
        after.revealed() == b.revealed().insert(i),
    ensures
        i == b.danger() ==> move_outcome(after, acting, i) == MoveResult::Win(
            opponent(acting),
            WinReason::OpponentDangerDraw,
        ),
        b.tiles_of(t).contains(i) && b.pending(t) == 1 ==> move_outcome(after, acting, i)
            == MoveResult::Win(t, WinReason::ScoreReached),
{
    lemma_reveal_pending(b, after, i, t);
    assert(b.team_one().contains(i) ==> !b.team_two().contains(i));
}

/// A game over a board, typed by its phase `S`: rosters by player id, each
/// team's spymaster by player id, scores (tiles still to reveal) and
/// the team to move once the game has begun.
#[derive(Debug)]
pub struct Game<S, P: Player> {
    board: Board,
    team_one_players: HashMap<u32, P>,
    team_two_players: HashMap<u32, P>,
    team_one_spymaster: Option<PlayerId>,
    team_two_spymaster: Option<PlayerId>,
    team_one_score: u8,
    team_two_score: u8,
    next_turn: Option<Team>,
    state: S,
}

impl<S, P: Player> Game<S, P> {
    pub closed spec fn board_of(&self) -> Board {
        self.board
    }

    /// A team's players, by id.
    pub closed spec fn roster(&self, t: Team) -> Map<PlayerId, P> {
        match t {
            Team::TeamOne => self.team_one_players@,
            Team::TeamTwo => self.team_two_players@,
        }
    }

    /// A team's spymaster, by player id.
    pub closed spec fn spymaster(&self, t: Team) -> Option<PlayerId> {
        match t {
            Team::TeamOne => self.team_one_spymaster,
            Team::TeamTwo => self.team_two_spymaster,
        }
    }

    /// A team's score: its tiles still to reveal.
    pub closed spec fn score(&self, t: Team) -> u8 {
        match t {
            Team::TeamOne => self.team_one_score,
            Team::TeamTwo => self.team_two_score,
        }
    }

    /// The team to move, once the game has begun.
    pub closed spec fn turn(&self) -> Option<Team> {
        self.next_turn
    }

    /// The game's invariant: a sound board, scores that are the pending
    /// counts, no player on both teams, and each spymaster on their team.
    pub open spec fn wf(&self) -> bool {
        &&& self.board_of().wf()
        &&& self.score(Team::TeamOne) == self.board_of().pending(Team::TeamOne)
        &&& self.score(Team::TeamTwo) == self.board_of().pending(Team::TeamTwo)
        &&& forall|id: PlayerId|
            !(#[trigger] self.roster(Team::TeamOne).contains_key(id) && self.roster(
                Team::TeamTwo,
            ).contains_key(id))
        &&& self.spymaster(Team::TeamOne) is Some ==> self.roster(Team::TeamOne).contains_key(
            self.spymaster(Team::TeamOne)->0,
        )
        &&& self.spymaster(Team::TeamTwo) is Some ==> self.roster(Team::TeamTwo).contains_key(
            self.spymaster(Team::TeamTwo)->0,
        )
    }

    /// The team a player id belongs to.
    pub open spec fn team_of(&self, id: PlayerId) -> Option<Team> {
        if self.roster(Team::TeamOne).contains_key(id) {
            Some(Team::TeamOne)
        } else if self.roster(Team::TeamTwo).contains_key(id) {
            Some(Team::TeamTwo)
        } else {
            None
        }
    }

    /// Both teams have at least two players and a spymaster.
    pub open spec fn ready(&self) -> bool {
        &&& self.roster(Team::TeamOne).len() >= 2
        &&& self.roster(Team::TeamTwo).len() >= 2
        &&& self.spymaster(Team::TeamOne) is Some
        &&& self.spymaster(Team::TeamTwo) is Some
    }

    /// The same board, scores and turn.
    pub open spec fn same_play(&self, o: &Self) -> bool {
        &&& self.board_of().same_state(&o.board_of())
        &&& self.score(Team::TeamOne) == o.score(Team::TeamOne)
        &&& self.score(Team::TeamTwo) == o.score(Team::TeamTwo)
        &&& self.turn() == o.turn()
    }

    /// The same rosters and spymasters.
    pub open spec fn same_players(&self, o: &Self) -> bool {
        &&& self.roster(Team::TeamOne) == o.roster(Team::TeamOne)
        &&& self.roster(Team::TeamTwo) == o.roster(Team::TeamTwo)
        &&& self.spymaster(Team::TeamOne) == o.spymaster(Team::TeamOne)
        &&& self.spymaster(Team::TeamTwo) == o.spymaster(Team::TeamTwo)
    }
}

impl<S: Copy, P: Player + Clone> Game<S, P> {
    /// A copy of the game.
    pub fn duplicate(&self) -> (r: Self)
        ensures
            r.same_play(self),
            r.same_players(self),
    {
        Game {
            board: self.board.duplicate(),
            team_one_players: self.team_one_players.clone(),
            team_two_players: self.team_two_players.clone(),
            team_one_spymaster: self.team_one_spymaster,
            team_two_spymaster: self.team_two_spymaster,
            team_one_score: self.team_one_score,
            team_two_score: self.team_two_score,
            next_turn: self.next_turn,
            state: self.state,
        }
    }
}

impl<S, P: Player> Game<S, P> {
    /// The team to move, once the game has begun.
    pub fn get_next_turn(&self) -> (r: Option<Team>)
        ensures
            r == self.turn(),
    {
        self.next_turn
    }

    pub fn board(&self) -> (r: &Board)
        ensures
            *r == self.board_of(),
    {
        &self.board
    }

    pub fn get_team_one_score(&self) -> (r: u8)
        ensures
            r == self.score(Team::TeamOne),
    {
        self.team_one_score
    }

    pub fn get_team_two_score(&self) -> (r: u8)
        ensures
            r == self.score(Team::TeamTwo),
    {
        self.team_two_score
    }

    /// Whether both teams have two players or more and a spymaster.
    pub fn has_enough_players(&self) -> (r: bool)
        ensures
            r == self.ready(),
    {
        !(self.team_one_players.len() < 2 || self.team_two_players.len() < 2
            || self.team_one_spymaster.is_none() || self.team_two_spymaster.is_none())
    }

    /// Puts a player in team one, replacing an entry with the same id and
    /// taking the player out of team two.
    pub fn add_player_team_one(&mut self, player: P)
        requires
            old(self).wf(),
        ensures
            final(self).wf(),
            final(self).same_play(old(self)),
            final(self).roster(Team::TeamOne) == old(self).roster(Team::TeamOne).insert(
                player.spec_id(),
                player,
            ),
            final(self).roster(Team::TeamTwo) == old(self).roster(Team::TeamTwo).remove(
                player.spec_id(),
            ),
            final(self).spymaster(Team::TeamOne) == old(self).spymaster(Team::TeamOne),
            final(self).spymaster(Team::TeamTwo) == kept_spymaster(
                old(self).spymaster(Team::TeamTwo),
                final(self).roster(Team::TeamTwo),
            ),
    {
        let id = *player.get_id();
        self.team_two_players.remove(&id);
        self.team_one_players.insert(id, player);
        self.drop_gone_spymasters();
        proof {
            assert forall|k: PlayerId|
                !(#[trigger] self.roster(Team::TeamOne).contains_key(k) && self.roster(
                    Team::TeamTwo,
                ).contains_key(k)) by {
                if k != id {
                    assert(old(self).roster(Team::TeamOne).contains_key(k) == self.roster(
                        Team::TeamOne,
                    ).contains_key(k));
                    assert(old(self).roster(Team::TeamTwo).contains_key(k) == self.roster(
                        Team::TeamTwo,
                    ).contains_key(k));
                }
            }
        }
    }

    /// Puts a player in team two, replacing an entry with the same id and
    /// taking the player out of team one.
    pub fn add_player_team_two(&mut self, player: P)
        requires
            old(self).wf(),
        ensures
            final(self).wf(),
            final(self).same_play(old(self)),
            final(self).roster(Team::TeamTwo) == old(self).roster(Team::TeamTwo).insert(
                player.spec_id(),
                player,
            ),
            final(self).roster(Team::TeamOne) == old(self).roster(Team::TeamOne).remove(
                player.spec_id(),
            ),
            final(self).spymaster(Team::TeamTwo) == old(self).spymaster(Team::TeamTwo),
            final(self).spymaster(Team::TeamOne) == kept_spymaster(
                old(self).spymaster(Team::TeamOne),
                final(self).roster(Team::TeamOne),
            ),
    {
        let id = *player.get_id();
        self.team_one_players.remove(&id);
        self.team_two_players.insert(id, player);
        self.drop_gone_spymasters();
        proof {
            assert forall|k: PlayerId|
                !(#[trigger] self.roster(Team::TeamOne).contains_key(k) && self.roster(
                    Team::TeamTwo,
                ).contains_key(k)) by {
                if k != id {
                    assert(old(self).roster(Team::TeamOne).contains_key(k) == self.roster(
                        Team::TeamOne,
                    ).contains_key(k));
                    assert(old(self).roster(Team::TeamTwo).contains_key(k) == self.roster(
                        Team::TeamTwo,
                    ).contains_key(k));
                }
            }
        }
    }

    /// Chooses team one's spymaster: the player at position `ind` when the
    /// roster is listed by increasing id; refused past the roster's end.
    pub fn set_team_one_spymaster(&mut self, ind: usize) -> (r: Result<(), InvalidError>)
        ensures
            r is Err <==> ind >= old(self).roster(Team::TeamOne).len(),
            final(self).same_play(old(self)),
            final(self).roster(Team::TeamOne) == old(self).roster(Team::TeamOne),
            final(self).roster(Team::TeamTwo) == old(self).roster(Team::TeamTwo),
            final(self).spymaster(Team::TeamTwo) == old(self).spymaster(Team::TeamTwo),
            r is Ok ==> final(self).spymaster(Team::TeamOne) is Some && at_position(
                old(self).roster(Team::TeamOne).dom(),
                final(self).spymaster(Team::TeamOne)->0,
                ind as int,
            ),
            r is Err ==> final(self).spymaster(Team::TeamOne) == old(self).spymaster(Team::TeamOne),
    {
        match id_at_position(&self.team_one_players, ind) {
            None => Err(InvalidError::new("Spymaster index exceeds num players")),
            Some(k) => {
                self.team_one_spymaster = Some(k);
                Ok(())
            },
        }
    }

    /// Chooses team two's spymaster: the player at position `ind` when the
    /// roster is listed by increasing id; refused past the roster's end.
    pub fn set_team_two_spymaster(&mut self, ind: usize) -> (r: Result<(), InvalidError>)
        ensures
            r is Err <==> ind >= old(self).roster(Team::TeamTwo).len(),
            final(self).same_play(old(self)),
            final(self).roster(Team::TeamOne) == old(self).roster(Team::TeamOne),
            final(self).roster(Team::TeamTwo) == old(self).roster(Team::TeamTwo),
            final(self).spymaster(Team::TeamOne) == old(self).spymaster(Team::TeamOne),
            r is Ok ==> final(self).spymaster(Team::TeamTwo) is Some && at_position(
                old(self).roster(Team::TeamTwo).dom(),
                final(self).spymaster(Team::TeamTwo)->0,
                ind as int,
            ),
            r is Err ==> final(self).spymaster(Team::TeamTwo) == old(self).spymaster(Team::TeamTwo),
    {
        match id_at_position(&self.team_two_players, ind) {
            None => Err(InvalidError::new("Spymaster index exceeds num players")),
            Some(k) => {
                self.team_two_spymaster = Some(k);
                Ok(())
            },
        }
    }

    /// The team of a player id.
    pub fn get_player_team_from_id(&self, pid: &PlayerId) -> (r: Option<Team>)
        ensures
            r == self.team_of(*pid),
    {
        if self.team_one_players.contains_key(pid) {
            Some(Team::TeamOne)
        } else if self.team_two_players.contains_key(pid) {
            Some(Team::TeamTwo)
        } else {
            None
        }
    }

    /// The team of a player, by the player's id.
    pub fn get_player_team(&self, player: &P) -> (r: Option<Team>)
        ensures
            r == self.team_of(player.spec_id()),
    {
        self.get_player_team_from_id(player.get_id())
    }

    /// Whether the id is on either team.
    pub fn has_player(&self, pid: &PlayerId) -> (r: bool)
        ensures
            r == self.team_of(*pid) is Some,
    {
        self.team_one_players.contains_key(pid) || self.team_two_players.contains_key(pid)
    }

    /// Whether `pid` is team one's spymaster.
    pub fn is_team_one_spymaster(&self, pid: &PlayerId) -> (r: bool)
        ensures
            r == (self.spymaster(Team::TeamOne) == Some(*pid)),
    {
        match self.team_one_spymaster {
            Some(i) => i == *pid,
            None => false,
        }
    }

    /// Whether `pid` is team two's spymaster.
    pub fn is_team_two_spymaster(&self, pid: &PlayerId) -> (r: bool)
        ensures
            r == (self.spymaster(Team::TeamTwo) == Some(*pid)),
    {
        match self.team_two_spymaster {
            Some(i) => i == *pid,
            None => false,
        }
    }
}

/// The names of the players of a roster.
fn roster_names<P: Player>(players: &HashMap<u32, P>) -> (r: Vec<String>)
    ensures
        names_of(r@, players@),
{
    let mut names: Vec<String> = Vec::new();
    let values = players.values();
    let ghost items = IteratorSpec::remaining(&values);
    proof {
        assert(items.unref().to_set() == players@.values());
        assert(items.len() == players@.dom().len());
    }
    for p in it: values
        invariant
            it.seq() == items,
            items.unref().to_set() == players@.values(),
            items.len() == players@.dom().len(),
            names@.len() == it.index(),
            forall|k: int| 0 <= k < names@.len() ==> #[trigger] named_in(names@[k]@, players@),
    {
        proof {
            let q = *items[it.index() as int];
            assert(items.unref()[it.index() as int] == q);
            assert(items.unref().to_set().contains(q));
        }
        names.push(p.get_name().to_string());
    }
    proof {
        assert(names@.len() == items.len());
        assert(players@.len() == players@.dom().len());
    }
    names
}

impl<S: Copy, P: Player> Game<S, P> {
    /// The scores and the turn.
    pub fn get_dynamic_game_info(&self) -> (r: DynamicGameInfoView)
        ensures
            r.team_one_score == self.score(Team::TeamOne),
            r.team_two_score == self.score(Team::TeamTwo),
            r.next_turn == self.turn(),
    {
        DynamicGameInfoView {
            team_one_score: self.team_one_score,
            team_two_score: self.team_two_score,
            next_turn: self.next_turn,
        }
    }

    /// Rosters by name, spymasters, phase and scores.
    pub fn get_game_info(&self) -> (r: GameInfoView<S>)
        ensures
            names_of(r.team_one_players@, self.roster(Team::TeamOne)),
            names_of(r.team_two_players@, self.roster(Team::TeamTwo)),
            r.team_one_spymaster == self.spymaster(Team::TeamOne),
            r.team_two_spymaster == self.spymaster(Team::TeamTwo),
            r.state == self.phase(),
            r.stats.team_one_score == self.score(Team::TeamOne),
            r.stats.team_two_score == self.score(Team::TeamTwo),
            r.stats.next_turn == self.turn(),
    {
        GameInfoView {
            team_one_players: roster_names(&self.team_one_players),
            team_two_players: roster_names(&self.team_two_players),
            team_one_spymaster: self.team_one_spymaster,
            team_two_spymaster: self.team_two_spymaster,
            state: self.state,
            stats: self.get_dynamic_game_info(),
        }
    }

    /// The game as `player` may see it: a spymaster sees every tile's class,
    /// anyone else (players on no team too) the classes of revealed tiles.
    pub fn get_full_game_info(&self, player: &P) -> (r: Result<FullGameInfoView<S>, InvalidError>)
        ensures
            r matches Ok(v) && {
                let spy = self.is_spymaster_id(player.spec_id());
                &&& names_of(v.game_info.team_one_players@, self.roster(Team::TeamOne))
                &&& names_of(v.game_info.team_two_players@, self.roster(Team::TeamTwo))
                &&& v.game_info.team_one_spymaster == self.spymaster(Team::TeamOne)
                &&& v.game_info.team_two_spymaster == self.spymaster(Team::TeamTwo)
                &&& v.game_info.state == self.phase()
                &&& v.game_info.stats.team_one_score == self.score(Team::TeamOne)
                &&& v.game_info.stats.team_two_score == self.score(Team::TeamTwo)
                &&& v.game_info.stats.next_turn == self.turn()
                &&& v.board.words@ == self.board_of().word_list()
                &&& v.board.tiles@.len() == BOARD_SIZE
                &&& forall|i: int|
                    0 <= i < BOARD_SIZE ==> v.board.tiles@[i] == self.board_of().seen_at(i, spy)
            },
    {
        let pid = player.get_id();
        let board = if self.is_team_one_spymaster(pid) || self.is_team_two_spymaster(pid) {
            self.board.get_full_spymaster_view()
        } else {
            self.board.get_full_regular_player_view()
        };
        Ok(FullGameInfoView { game_info: self.get_game_info(), board })
    }

    /// The game with the changing part of the board, as `player` may see it.
    pub fn get_minimal_game_info(&self, player: &P) -> (r: MinimalGameInfoView<S>)
        ensures
            r.game_info.stats.team_one_score == self.score(Team::TeamOne),
            r.game_info.stats.team_two_score == self.score(Team::TeamTwo),
            r.game_info.stats.next_turn == self.turn(),
            r.board.tiles@.len() == BOARD_SIZE,
            forall|i: int|
                0 <= i < BOARD_SIZE ==> r.board.tiles@[i] == self.board_of().seen_at(
                    i,
                    self.is_spymaster_id(player.spec_id()),
                ),
    {
        let pid = player.get_id();
        let spy = self.is_team_one_spymaster(pid) || self.is_team_two_spymaster(pid);
        MinimalGameInfoView { game_info: self.get_game_info(), board: self.board.get_minimal_view(spy) }
    }
}

impl<S, P: Player> Game<S, P> {
    /// The phase tag.
    pub closed spec fn phase(&self) -> S {
        self.state
    }

    /// Whether `pid` is either team's spymaster.
    pub open spec fn is_spymaster_id(&self, pid: PlayerId) -> bool {
        self.spymaster(Team::TeamOne) == Some(pid) || self.spymaster(Team::TeamTwo) == Some(pid)
    }

    /// Empties a spymaster slot whose player has left the team.
    fn drop_gone_spymasters(&mut self)
        ensures
            final(self).same_play(old(self)),
            final(self).roster(Team::TeamOne) == old(self).roster(Team::TeamOne),
            final(self).roster(Team::TeamTwo) == old(self).roster(Team::TeamTwo),
            final(self).spymaster(Team::TeamOne) == kept_spymaster(
                old(self).spymaster(Team::TeamOne),
                old(self).roster(Team::TeamOne),
            ),
            final(self).spymaster(Team::TeamTwo) == kept_spymaster(
                old(self).spymaster(Team::TeamTwo),
                old(self).roster(Team::TeamTwo),
            ),
    {
        if let Some(k) = self.team_one_spymaster {
            if !self.team_one_players.contains_key(&k) {
                self.team_one_spymaster = None;
            }
        }
        if let Some(k) = self.team_two_spymaster {
            if !self.team_two_players.contains_key(&k) {
                self.team_two_spymaster = None;
            }
        }
    }

    /// Puts a player who is on no team yet into `team`; refused when the id
    /// is already on a team.
    pub fn add_player_to_team(&mut self, player: P, team: &Team) -> (r: Result<(), InvalidError>)
        requires
            old(self).wf(),
        ensures
            final(self).wf(),
            r is Err <==> old(self).team_of(player.spec_id()) is Some,
            r is Err ==> *final(self) == *old(self),
            final(self).same_play(old(self)),
            r is Ok ==> final(self).roster(*team) == old(self).roster(*team).insert(
                player.spec_id(),
                player,
            ),
            r is Ok ==> final(self).roster(opponent(*team)) == old(self).roster(opponent(*team)),
            final(self).spymaster(Team::TeamOne) == old(self).spymaster(Team::TeamOne),
            final(self).spymaster(Team::TeamTwo) == old(self).spymaster(Team::TeamTwo),
    {
        if self.has_player(player.get_id()) {
            return Err(InvalidError::new("Player already in a team"));
        }
        proof {
            assert(old(self).roster(Team::TeamOne).remove(player.spec_id()) =~= old(self).roster(
                Team::TeamOne,
            ));
            assert(old(self).roster(Team::TeamTwo).remove(player.spec_id()) =~= old(self).roster(
                Team::TeamTwo,
            ));
        }
        match team {
            Team::TeamOne => self.add_player_team_one(player),
            Team::TeamTwo => self.add_player_team_two(player),
        }
        Ok(())
    }

    /// Moves a player who is on a team into `team`; refused when the id is
    /// on no team.
    pub fn transfer_player(&mut self, pid: &PlayerId, team: &Team) -> (r: Result<(), InvalidError>)
        requires
            old(self).wf(),
        ensures
            final(self).wf(),
            r is Err <==> old(self).team_of(*pid) is None,
            r is Err ==> *final(self) == *old(self),
            final(self).same_play(old(self)),
            final(self).team_of(*pid) == (if r is Ok {
                Some(*team)
            } else {
                None
            }),
            forall|k: PlayerId|
                k != *pid ==> #[trigger] final(self).team_of(k) == old(self).team_of(k),
            final(self).spymaster(Team::TeamOne) == kept_spymaster(
                old(self).spymaster(Team::TeamOne),
                final(self).roster(Team::TeamOne),
            ),
            final(self).spymaster(Team::TeamTwo) == kept_spymaster(
                old(self).spymaster(Team::TeamTwo),
                final(self).roster(Team::TeamTwo),
            ),
    {
        if !self.has_player(pid) {
            return Err(InvalidError::new("Player not in a team"));
        }
        let id = *pid;
        let moved = match self.team_one_players.remove(&id) {
            Some(p) => Some(p),
            None => self.team_two_players.remove(&id),
        };
        match moved {
            None => Err(InvalidError::new("Player not in a team")),
            Some(p) => {
                match team {
                    Team::TeamOne => {
                        self.team_one_players.insert(id, p);
                    },
                    Team::TeamTwo => {
                        self.team_two_players.insert(id, p);
                    },
                }
                let ghost mid = *self;
                self.drop_gone_spymasters();
                proof {
                    assert forall|k: PlayerId|
                        !(#[trigger] self.roster(Team::TeamOne).contains_key(k) && self.roster(
                            Team::TeamTwo,
                        ).contains_key(k)) by {
                        if k != id {
                            assert(old(self).roster(Team::TeamOne).contains_key(k)
                                == self.roster(Team::TeamOne).contains_key(k));
                            assert(old(self).roster(Team::TeamTwo).contains_key(k)
                                == self.roster(Team::TeamTwo).contains_key(k));
                        }
                    }
                    assert forall|k: PlayerId| k != *pid implies #[trigger] self.team_of(k)
                        == old(self).team_of(k) by {
                        assert(old(self).roster(Team::TeamOne).contains_key(k) == self.roster(
                            Team::TeamOne,
                        ).contains_key(k));
                        assert(old(self).roster(Team::TeamTwo).contains_key(k) == self.roster(
                            Team::TeamTwo,
                        ).contains_key(k));
                    }
                }
                Ok(())
            },
        }
    }
}

impl<P: Player> Game<InitialGame, P> {
    /// A game over a fresh board for a 25-word vocabulary, with no players,
    /// no spymasters and no turn; an error for any other vocabulary size.
    pub fn new(vocab: &Vec<String>) -> (r: Result<Self, InvalidError>)
        ensures
            r is Err <==> vocab@.len() != BOARD_SIZE,
            r matches Ok(g) ==> {
                &&& g.wf()
                &&& g.board_of().word_list() == vocab@
                &&& g.board_of().revealed() == Set::<int>::empty()
                &&& g.roster(Team::TeamOne) == Map::<PlayerId, P>::empty()
                &&& g.roster(Team::TeamTwo) == Map::<PlayerId, P>::empty()
                &&& g.spymaster(Team::TeamOne) is None
                &&& g.spymaster(Team::TeamTwo) is None
                &&& g.score(Team::TeamOne) == GROUP_SIZE
                &&& g.score(Team::TeamTwo) == GROUP_SIZE
                &&& g.turn() is None
            },
    {
        let board = match Board::new(vocab) {
            Ok(b) => b,
            Err(e) => return Err(e),
        };
        proof {
            assert(board.team_one().difference(board.revealed()) =~= board.team_one());
            assert(board.team_two().difference(board.revealed()) =~= board.team_two());
        }
        let one = board.get_team_one_pending_size() as u8;
        let two = board.get_team_two_pending_size() as u8;
        Ok(Game {
            board,
            team_one_players: HashMap::new(),
            team_two_players: HashMap::new(),
            team_one_spymaster: None,
            team_two_spymaster: None,
            team_one_score: one,
            team_two_score: two,
            next_turn: None,
            state: InitialGame {},
        })
    }

    /// The game as `player` may see it.
    pub fn get_initial_full_game_info(&self, player: &P) -> (r: Result<
        FullGameInfoView<InitialGame>,
        InvalidError,
    >)
        ensures
            r matches Ok(v) && v.board.words@ == self.board_of().word_list()
                && v.board.tiles@.len() == BOARD_SIZE && forall|i: int|
                0 <= i < BOARD_SIZE ==> v.board.tiles@[i] == self.board_of().seen_at(
                    i,
                    self.is_spymaster_id(player.spec_id()),
                ),
    {
        self.get_full_game_info(player)
    }

    /// Whether the game may begin.
    pub fn can_begin(&self) -> (r: bool)
        ensures
            r == self.ready(),
    {
        self.has_enough_players()
    }

    /// Begins the game with team one to move when it is ready; otherwise
    /// hands the game back unchanged with the reason.
    pub fn begin(self) -> (r: Result<Game<InProgressGame, P>, GameBeginError<Game<InitialGame, P>>>)
        requires
            self.wf(),
        ensures
            r is Ok <==> self.ready(),
            r matches Ok(g) ==> {
                &&& g.wf()
                &&& g.board_of() == self.board_of()
                &&& g.roster(Team::TeamOne) == self.roster(Team::TeamOne)
                &&& g.roster(Team::TeamTwo) == self.roster(Team::TeamTwo)
                &&& g.spymaster(Team::TeamOne) == self.spymaster(Team::TeamOne)
                &&& g.spymaster(Team::TeamTwo) == self.spymaster(Team::TeamTwo)
                &&& g.score(Team::TeamOne) == self.score(Team::TeamOne)
                &&& g.score(Team::TeamTwo) == self.score(Team::TeamTwo)
                &&& g.turn() == Some(Team::TeamOne)
            },
            r matches Err(e) ==> e.old_game == self,
    {
        if self.can_begin() {
            let game = Game {
                board: self.board,
                team_one_players: self.team_one_players,
                team_two_players: self.team_two_players,
                team_one_spymaster: self.team_one_spymaster,
                team_two_spymaster: self.team_two_spymaster,
                team_one_score: self.team_one_score,
                team_two_score: self.team_two_score,
                next_turn: Some(Team::TeamOne),
                state: InProgressGame {},
            };
            return Ok(game);
        }
        Err(
            GameBeginError::new(
                self,
                "Not enough players. Each team needs 2 players atleast and a chosen spymaster.",
            ),
        )
    }
}

impl<P: Player> Game<InProgressGame, P> {
    /// The game as `player` may see it.
    pub fn get_in_progress_full_game_info(&self, player: &P) -> (r: Result<
        FullGameInfoView<InProgressGame>,
        InvalidError,
    >)
        ensures
            r matches Ok(v) && v.board.words@ == self.board_of().word_list()
                && v.board.tiles@.len() == BOARD_SIZE && forall|i: int|
                0 <= i < BOARD_SIZE ==> v.board.tiles@[i] == self.board_of().seen_at(
                    i,
                    self.is_spymaster_id(player.spec_id()),
                ),
    {
        self.get_full_game_info(player)
    }

    /// Plays a move: `player` reveals tile `tile_id`.
    ///
    /// Refused, changing nothing, when the player is on no team, when it is
    /// not the player's team's turn, or when the tile is off the board or
    /// already revealed. Otherwise the tile is revealed, scores follow the
    /// pending counts, the turn passes to the other team unless the tile was
    /// the mover's own (or the danger tile, which ends the game), and the
    /// outcome is `move_outcome` of the new board.
    pub fn try_unravel(&mut self, player: &P, tile_id: u8) -> (r: Result<MoveResult, InvalidMoveError>)
        requires
            old(self).wf(),
            old(self).turn() is Some,
        ensures
            final(self).wf(),
            final(self).turn() is Some,
            final(self).same_players(old(self)),
            r is Err <==> (old(self).team_of(player.spec_id()) is None || old(self).team_of(
                player.spec_id(),
            ) != old(self).turn() || !old(self).board_of().can_reveal(tile_id as int)),
            r matches Err(e) ==> e.msg@ == (if old(self).team_of(player.spec_id()) is None {
                "Player not in the team"@
            } else if old(self).team_of(player.spec_id()) != old(self).turn() {
                "Not the current team's turn"@
            } else if tile_id >= BOARD_SIZE {
                "Tile index is off the board."@
            } else {
                "Trying to unveil already known word."@
            }),
            r is Err ==> *final(self) == *old(self),
            r matches Ok(res) ==> {
                let acting = old(self).turn()->0;
                let i = tile_id as int;
                &&& final(self).board_of().same_layout(&old(self).board_of())
                &&& final(self).board_of().revealed() == old(self).board_of().revealed().insert(i)
                &&& final(self).turn() == Some(next_turn_after(old(self).board_of(), acting, i))
                &&& res == move_outcome(final(self).board_of(), acting, i)
            },
    {
        let team = match self.get_player_team(player) {
            Some(t) => t,
            None => {
                return Err(InvalidMoveError::new("Player not in the team"));
            },
        };
        let turn = match self.next_turn {
            Some(t) => t,
            None => {
                return Err(InvalidMoveError::new("Not the current team's turn"));
            },
        };
        if team != turn {
            return Err(InvalidMoveError::new("Not the current team's turn"));
        }
        let idx = tile_id as usize;
        let ghost before = self.board;
        match self.board.unravel_word(idx) {
            Ok(_) => {},
            Err(e) => {
                return Err(e);
            },
        }
        let mut next = team;
        let hit_danger = tile_id == self.board.danger_index();
        if !hit_danger {
            if self.board.is_grey_index(idx) {
                next = other_team(team);
            } else if team == Team::TeamOne && self.board.is_team_two_index(idx) {
                next = Team::TeamTwo;
            } else if team == Team::TeamTwo && self.board.is_team_one_index(idx) {
                next = Team::TeamOne;
            }
        }
        proof {
            lemma_pending_bound(self.board, Team::TeamOne);
            lemma_pending_bound(self.board, Team::TeamTwo);
        }
        self.next_turn = Some(next);
        self.team_one_score = self.board.get_team_one_pending_size() as u8;
        self.team_two_score = self.board.get_team_two_pending_size() as u8;
        let result = if hit_danger {
            MoveResult::Win(other_team(team), WinReason::OpponentDangerDraw)
        } else if self.board.is_team_one_index(idx) && self.team_one_score == 0 {
            MoveResult::Win(Team::TeamOne, WinReason::ScoreReached)
        } else if self.board.is_team_two_index(idx) && self.team_two_score == 0 {
            MoveResult::Win(Team::TeamTwo, WinReason::ScoreReached)
        } else if self.team_one_score == 0 {
            MoveResult::Win(Team::TeamOne, WinReason::ScoreReached)
        } else if self.team_two_score == 0 {
            MoveResult::Win(Team::TeamTwo, WinReason::ScoreReached)
        } else {
            MoveResult::Continue
        };
        Ok(result)
    }
}

} // verus!
