//! The lobby's connection router: player profiles, connections not yet tied
//! to a player, and which connection speaks for which player.

use vstd::prelude::*;
use std::collections::HashMap;
use vstd::std_specs::iter::IteratorSpec;
use crate::players::{Player, PlayerId, SimplePlayer};
use crate::web::errors::WebSocketError;

verus! {

/// Identifies one connection within a lobby.
pub type ConnId = u64;

/// Players that can be reached over a connection.
pub trait OnlinePlayer: Player {}

/// A player in the web app: a profile and, once authenticated, the
/// connection that reaches it.
#[derive(Debug)]
pub struct WebAppPlayer {
    player: SimplePlayer,
    conn: Option<ConnId>,
}

impl Player for WebAppPlayer {
    closed spec fn spec_id(&self) -> PlayerId {
        self.player.spec_id()
    }

    closed spec fn spec_name(&self) -> Seq<char> {
        self.player.spec_name()
    }

    fn get_name(&self) -> (r: &str) {
        self.player.get_name()
    }

    fn get_id(&self) -> (r: &PlayerId) {
        self.player.get_id()
    }
}

impl OnlinePlayer for WebAppPlayer {}

impl WebAppPlayer {
    pub closed spec fn profile(&self) -> SimplePlayer {
        self.player
    }

    /// The player's id is its profile's.
    pub proof fn lemma_id_of_profile(&self)
        ensures
            self.spec_id() == self.profile().spec_id(),
    {
    }

    /// The connection bound to the player.
    pub closed spec fn conn_of(&self) -> Option<ConnId> {
        self.conn
    }

    pub fn new(name: &str, id: PlayerId) -> (r: Self)
        ensures
            r.profile().spec_name() == name@,
            r.profile().spec_id() == id,
            r.spec_id() == id,
            r.conn_of() is None,
    {
        WebAppPlayer { player: SimplePlayer::new(name, id), conn: None }
    }

    /// A web player with no connection yet.
    pub fn from_player(player: SimplePlayer) -> (r: Self)
        ensures
            r.profile() == player,
            r.spec_id() == player.spec_id(),
            r.conn_of() is None,
    {
        WebAppPlayer { player, conn: None }
    }

    /// Binds a connection, replacing any earlier one.
    pub fn set_conn(&mut self, conn: ConnId)
        ensures
            final(self).profile() == old(self).profile(),
            final(self).conn_of() == Some(conn),
    {
        self.conn = Some(conn);
    }

    /// Unbinds the connection, handing back the one to close.
    pub fn close_ws(&mut self) -> (r: Option<ConnId>)
        ensures
            final(self).profile() == old(self).profile(),
            final(self).conn_of() is None,
            r == old(self).conn_of(),
    {
        let c = self.conn;
        self.conn = None;
        c
    }

    /// The connection a message to this player goes out on.
    pub fn send_msg(&self) -> (r: Result<ConnId, WebSocketError>)
        ensures
            r is Ok <==> self.conn_of() is Some,
            r matches Ok(c) ==> self.conn_of() == Some(c),
            r is Err ==> r->Err_0 is WSNotFoundError,
    {
        match self.conn {
            Some(c) => Ok(c),
            None => Err(WebSocketError::WSNotFoundError("websocket not bound for player".to_string())),
        }
    }

    pub fn get_player(&self) -> (r: &SimplePlayer)
        ensures
            *r == self.profile(),
    {
        &self.player
    }
}

/// Whether some player of `players` is bound to connection `c`.
pub open spec fn bound_in(players: Map<PlayerId, WebAppPlayer>, c: ConnId) -> bool {
    exists|p: WebAppPlayer| players.contains_value(p) && p.conn_of() == Some(c)
}

/// Whether `after` is `before` with player `p`'s connection unbound and
/// every profile kept.
pub open spec fn unbound(
    before: Map<PlayerId, WebAppPlayer>,
    after: Map<PlayerId, WebAppPlayer>,
    p: PlayerId,
) -> bool {
    &&& after.dom() == before.dom()
    &&& forall|q: PlayerId|
        q != p && #[trigger] before.contains_key(q) ==> after[q] == before[q]
    &&& before.contains_key(p) ==> {
        &&& after[p].profile() == before[p].profile()
        &&& after[p].conn_of() is None
    }
}

/// Binding connection `c` to player `p` takes it out of the orphans and
/// records it once, for `p`; closing it afterwards leaves it in neither.
pub proof fn lemma_bind_then_close(
    before: PlayerModem,
    bound: PlayerModem,
    closed: PlayerModem,
    c: ConnId,
    p: PlayerId,
)
    requires
        bound.orphans() == before.orphans().remove(c),
        bound.identified() == before.identified().insert(c, p),
        closed.orphans() == bound.orphans().remove(c),
        closed.identified() == bound.identified().remove(c),
    ensures
        !bound.orphans().contains(c),
        bound.identified().contains_key(c),
        bound.identified()[c] == p,
        !closed.orphans().contains(c),
        !closed.identified().contains_key(c),
{
}

/// One point of contact with all players of a lobby: it knows each player's
/// profile and connection, the connections not yet tied to a player, and
/// which connection speaks for which player.
pub struct PlayerModem {
    player_map: HashMap<PlayerId, WebAppPlayer>,
    ws_map: HashMap<ConnId, ()>,
    ws_player_map: HashMap<ConnId, PlayerId>,
}

impl PlayerModem {
    /// Player profiles by id.
    pub closed spec fn players(&self) -> Map<PlayerId, WebAppPlayer> {
        self.player_map@
    }

    /// Connections not yet tied to a player.
    pub closed spec fn orphans(&self) -> Set<ConnId> {
        self.ws_map@.dom()
    }

    /// Which player each identified connection speaks for.
    pub closed spec fn identified(&self) -> Map<ConnId, PlayerId> {
        self.ws_player_map@
    }

    /// No connection is both an orphan and identified, and each profile is
    /// filed under its own id.
    pub open spec fn wf(&self) -> bool {
        &&& self.orphans().finite()
        &&& forall|c: ConnId|
            !(#[trigger] self.orphans().contains(c) && self.identified().contains_key(c))
        &&& forall|p: PlayerId|
            #[trigger] self.players().contains_key(p) ==> self.players()[p].spec_id() == p
    }

    /// The connection a message to player `pid` goes out on.
    pub open spec fn player_route(&self, pid: PlayerId) -> Option<ConnId> {
        if self.players().contains_key(pid) {
            self.players()[pid].conn_of()
        } else {
            None
        }
    }

    /// The connection a message addressed to connection `c` goes out on: `c`
    /// itself while an orphan, else the bound connection of its player.
    pub open spec fn route(&self, c: ConnId) -> Option<ConnId> {
        if self.orphans().contains(c) {
            Some(c)
        } else if self.identified().contains_key(c) {
            self.player_route(self.identified()[c])
        } else {
            None
        }
    }

    /// The connection to shut when `c` is closed: `c` itself while an
    /// orphan, else the bound connection of its player.
    pub open spec fn close_target(&self, c: ConnId) -> Option<ConnId> {
        self.route(c)
    }

    pub fn new() -> (r: Self)
        ensures
            r.wf(),
            r.players() == Map::<PlayerId, WebAppPlayer>::empty(),
            r.orphans() == Set::<ConnId>::empty(),
            r.identified() == Map::<ConnId, PlayerId>::empty(),
    {
        Self { player_map: HashMap::new(), ws_map: HashMap::new(), ws_player_map: HashMap::new() }
    }

    /// Adds a profile, replacing one with the same id.
    pub fn add_player(&mut self, player: WebAppPlayer)
        requires
            old(self).wf(),
        ensures
            final(self).wf(),
            final(self).players() == old(self).players().insert(player.spec_id(), player),
            final(self).orphans() == old(self).orphans(),
            final(self).identified() == old(self).identified(),
    {
        let id = *player.get_id();
        self.player_map.insert(id, player);
        proof {
            assert forall|c: ConnId|
                !(#[trigger] self.orphans().contains(c) && self.identified().contains_key(c)) by {
                assert(old(self).orphans().contains(c) ==> !old(self).identified().contains_key(c));
            }
            assert forall|p: PlayerId| #[trigger] self.players().contains_key(p) implies self.players()[p].spec_id()
                == p by {
                if old(self).players().contains_key(p) {
                    assert(old(self).players()[p].spec_id() == p);
                }
            }
        }
    }

    /// Registers a connection not yet tied to a player.
    pub fn add_orphan_conn(&mut self, conn: ConnId)
        requires
            old(self).wf(),
            !old(self).identified().contains_key(conn),
        ensures
            final(self).wf(),
            final(self).players() == old(self).players(),
            final(self).orphans() == old(self).orphans().insert(conn),
            final(self).identified() == old(self).identified(),
    {
        self.ws_map.insert(conn, ());
        proof {
            assert forall|c: ConnId|
                !(#[trigger] self.orphans().contains(c) && self.identified().contains_key(c)) by {
                assert(old(self).orphans().contains(c) ==> !old(self).identified().contains_key(c));
            }
            assert forall|p: PlayerId| #[trigger] self.players().contains_key(p) implies self.players()[p].spec_id()
                == p by {
                if old(self).players().contains_key(p) {
                    assert(old(self).players()[p].spec_id() == p);
                }
            }
        }
    }

    /// Ties connection `ws_id` to player `pid`: it stops being an orphan, is
    /// recorded as speaking for `pid`, and becomes the player's connection
    /// (the player's earlier connection, if any, is dropped).
    pub fn relate_player_ws_conn(&mut self, ws_id: ConnId, pid: PlayerId)
        requires
            old(self).wf(),
        ensures
            final(self).wf(),
            final(self).orphans() == old(self).orphans().remove(ws_id),
            final(self).identified() == old(self).identified().insert(ws_id, pid),
            !final(self).orphans().contains(ws_id),
            final(self).identified().contains_key(ws_id),
            old(self).orphans().contains(ws_id) ==> final(self).orphans().len()
                == old(self).orphans().len() - 1,
            final(self).identified()[ws_id] == pid,
            final(self).players().dom() == old(self).players().dom(),
            forall|q: PlayerId|
                q != pid && #[trigger] old(self).players().contains_key(q)
                    ==> final(self).players()[q] == old(self).players()[q],
            old(self).players().contains_key(pid) ==> {
                &&& final(self).players()[pid].profile() == old(self).players()[pid].profile()
                &&& final(self).players()[pid].conn_of() == Some(ws_id)
            },
    {
        self.ws_map.remove(&ws_id);
        self.ws_player_map.insert(ws_id, pid);
        match self.player_map.remove(&pid) {
            Some(mut player) => {
                player.set_conn(ws_id);
                self.player_map.insert(pid, player);
                proof {
                    assert(self.player_map@.dom() =~= old(self).player_map@.dom());
                }
            },
            None => {},
        }
        proof {
            assert forall|c: ConnId|
                !(#[trigger] self.orphans().contains(c) && self.identified().contains_key(c)) by {
                assert(old(self).orphans().contains(c) ==> !old(self).identified().contains_key(c));
            }
            assert forall|p: PlayerId| #[trigger] self.players().contains_key(p) implies self.players()[p].spec_id()
                == p by {
                if old(self).players().contains_key(p) {
                    assert(old(self).players()[p].spec_id() == p);
                }
            }
        }
    }

    /// The player a connection speaks for.
    pub fn get_ws_player_id(&self, ws_id: ConnId) -> (r: Option<PlayerId>)
        ensures
            r == (if self.identified().contains_key(ws_id) {
                Some(self.identified()[ws_id])
            } else {
                None
            }),
    {
        match self.ws_player_map.get(&ws_id) {
            Some(pid) => Some(*pid),
            None => None,
        }
    }

    /// Whether the connection is registered, as an orphan or identified.
    pub fn has_conn(&self, ws_id: ConnId) -> (r: bool)
        ensures
            r == (self.orphans().contains(ws_id) || self.identified().contains_key(ws_id)),
    {
        self.ws_map.contains_key(&ws_id) || self.ws_player_map.contains_key(&ws_id)
    }

    /// The web player with id `pid`.
    pub fn get_web_player(&self, pid: PlayerId) -> (r: Option<&WebAppPlayer>)
        ensures
            r == (if self.players().contains_key(pid) {
                Some(&self.players()[pid])
            } else {
                None
            }),
    {
        self.player_map.get(&pid)
    }

    /// A copy of the profile of player `pid`.
    pub fn get_simple_player(&self, pid: PlayerId) -> (r: Option<SimplePlayer>)
        ensures
            r == (if self.players().contains_key(pid) {
                Some(self.players()[pid].profile())
            } else {
                None
            }),
    {
        match self.player_map.get(&pid) {
            Some(p) => Some(p.get_player().duplicate()),
            None => None,
        }
    }

    pub fn get_num_players(&self) -> (r: usize)
        ensures
            r == self.players().len(),
    {
        self.player_map.len()
    }

    pub fn get_num_orphan_conns(&self) -> (r: usize)
        ensures
            r == self.orphans().len(),
    {
        self.ws_map.len()
    }

    /// Forgets which player a connection speaks for.
    pub fn remove_ws_player_mapping(&mut self, ws_id: ConnId)
        requires
            old(self).wf(),
        ensures
            final(self).wf(),
            final(self).players() == old(self).players(),
            final(self).orphans() == old(self).orphans(),
            final(self).identified() == old(self).identified().remove(ws_id),
    {
        self.ws_player_map.remove(&ws_id);
        proof {
            assert forall|c: ConnId|
                !(#[trigger] self.orphans().contains(c) && self.identified().contains_key(c)) by {
                assert(old(self).orphans().contains(c) ==> !old(self).identified().contains_key(c));
            }
            assert forall|p: PlayerId| #[trigger] self.players().contains_key(p) implies self.players()[p].spec_id()
                == p by {
                if old(self).players().contains_key(p) {
                    assert(old(self).players()[p].spec_id() == p);
                }
            }
        }
    }

    /// Closes connection `ws_id`: an orphan is dropped; an identified one is
    /// forgotten and its player's connection unbound. Hands back the
    /// connection to shut, if any.
    pub fn close_ws(&mut self, ws_id: ConnId) -> (r: Option<ConnId>)
        requires
            old(self).wf(),
        ensures
            final(self).wf(),
            r == old(self).close_target(ws_id),
            final(self).orphans() == old(self).orphans().remove(ws_id),
            final(self).identified() == old(self).identified().remove(ws_id),
            !final(self).orphans().contains(ws_id),
            !final(self).identified().contains_key(ws_id),
            old(self).orphans().contains(ws_id) ==> final(self).orphans().len()
                == old(self).orphans().len() - 1,
            old(self).orphans().contains(ws_id) || !old(self).identified().contains_key(ws_id)
                ==> final(self).players() == old(self).players(),
            !old(self).orphans().contains(ws_id) && old(self).identified().contains_key(ws_id)
                ==> unbound(old(self).players(), final(self).players(), old(self).identified()[ws_id]),
    {
        if self.ws_map.remove(&ws_id).is_some() {
            proof {
                assert(old(self).identified().remove(ws_id) =~= old(self).identified());
                assert forall|c: ConnId|
                    !(#[trigger] self.orphans().contains(c) && self.identified().contains_key(c)) by {
                    assert(old(self).orphans().contains(c) ==> !old(self).identified().contains_key(c));
                }
            }
            return Some(ws_id);
        }
        let target = match self.ws_player_map.remove(&ws_id) {
            Some(pid) => match self.player_map.remove(&pid) {
                Some(mut player) => {
                    let c = player.close_ws();
                    self.player_map.insert(pid, player);
                    proof {
                        assert(self.player_map@.dom() =~= old(self).player_map@.dom());
                    }
                    c
                },
                None => {
                    proof {
                        assert(self.player_map@ =~= old(self).player_map@);
                    }
                    None
                },
            },
            None => None,
        };
        proof {
            assert(old(self).orphans().remove(ws_id) =~= old(self).orphans());
            assert forall|p: PlayerId| #[trigger] self.players().contains_key(p) implies self.players()[p].spec_id()
                == p by {
                assert(old(self).players()[p].spec_id() == p);
            }
        }
        target
    }

    /// The connection a message to player `pid` goes out on.
    pub fn send_player_msg(&self, pid: PlayerId) -> (r: Result<ConnId, WebSocketError>)
        ensures
            r is Ok <==> self.player_route(pid) is Some,
            r matches Ok(c) ==> self.player_route(pid) == Some(c),
            r is Err ==> r->Err_0 is WSNotFoundError,
    {
        match self.player_map.get(&pid) {
            Some(player) => player.send_msg(),
            None => Err(WebSocketError::WSNotFoundError("websocket not found for player".to_string())),
        }
    }

    /// The connection a message addressed to connection `ws_id` goes out on.
    pub fn ws_send_msg(&self, ws_id: ConnId) -> (r: Result<ConnId, WebSocketError>)
        ensures
            r is Ok <==> self.route(ws_id) is Some,
            r matches Ok(c) ==> self.route(ws_id) == Some(c),
            r is Err ==> r->Err_0 is WSNotFoundError,
    {
        if self.ws_map.contains_key(&ws_id) {
            return Ok(ws_id);
        }
        match self.ws_player_map.get(&ws_id) {
            Some(pid) => self.send_player_msg(*pid),
            None => Err(WebSocketError::WSNotFoundError("websocket not found".to_string())),
        }
    }

    /// The connections of all bound players: where a broadcast goes out.
    pub fn broadcast(&self) -> (r: Vec<ConnId>)
        ensures
            forall|k: int| 0 <= k < r@.len() ==> bound_in(self.players(), #[trigger] r@[k]),
            forall|c: ConnId| bound_in(self.players(), c) ==> r@.contains(c),
    {
        let mut targets: Vec<ConnId> = Vec::new();
        let values = self.player_map.values();
        let ghost items = IteratorSpec::remaining(&values);
        proof {
            assert(items.unref().to_set() == self.player_map@.values());
        }
        for p in it: values
            invariant
                it.seq() == items,
                items.unref().to_set() == self.player_map@.values(),
                0 <= it.index() <= items.len(),
                forall|k: int|
                    0 <= k < targets@.len() ==> bound_in(self.player_map@, #[trigger] targets@[k]),
                forall|j: int|
                    0 <= j < it.index() && (#[trigger] items[j]).conn_of() is Some
                        ==> targets@.contains(items[j].conn_of()->0),
        {
            let ghost j = it.index() as int;
            proof {
                assert(items.unref()[j] == *items[j]);
                assert(items.unref().to_set().contains(*items[j]));
            }
            match p.send_msg() {
                Ok(c) => {
                    let ghost before = targets@;
                    targets.push(c);
                    proof {
                        assert(bound_in(self.player_map@, c));
                        assert forall|i: int|
                            0 <= i < it.index() + 1 && (#[trigger] items[i]).conn_of() is Some
                                implies targets@.contains(items[i].conn_of()->0) by {
                            if i < j {
                                let w = choose|w: int|
                                    0 <= w < before.len() && before[w] == items[i].conn_of()->0;
                                assert(targets@[w] == before[w]);
                            } else {
                                assert(targets@[before.len() as int] == c);
                            }
                        }
                    }
                },
                Err(_) => {},
            }
        }
        proof {
            assert forall|c: ConnId| bound_in(self.player_map@, c) implies targets@.contains(c) by {
                let w = choose|w: WebAppPlayer|
                    self.player_map@.contains_value(w) && w.conn_of() == Some(c);
                assert(items.unref().to_set().contains(w));
                let j = choose|j: int| 0 <= j < items.len() && items.unref()[j] == w;
                assert(items.unref()[j] == *items[j]);
            }
        }
        targets
    }
}

} // verus!
