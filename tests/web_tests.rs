use codeword::errors::{GameBeginError, GameFinishError, InvalidError};
use codeword::web::errors::{DuplicateLobbyError, ForwardingError, NotAllowedError};
use codeword::web::auth::{build_echo_challenge, AuthResponse};
use codeword::web::cookies::{gen_auth_cookie, gen_cookie, SameSitePolicy};
use codeword::web::lobby::{Action, GameViewWrapper, GameWrapper, Lobby};
use codeword::web::players::{PlayerModem, WebAppPlayer};
use codeword::web::wsproto::WSMessage;
use codeword::game::Team;
use codeword::players::Player;

fn vocab() -> Vec<String> {
    (0..25).map(|x| format!("word-{}", x)).collect()
}

fn new_lobby() -> Lobby {
    let game = GameWrapper::new(&vocab()).unwrap();
    Lobby::new("lobby-1", &Vec::new(), game)
}

fn answer(pid: u32, s: &str) -> AuthResponse {
    AuthResponse { pid, response: s.to_string() }
}

#[test]
fn auth_scenario_accepts_once_then_rejects() {
    let mut lobby = new_lobby();
    let challenge = build_echo_challenge(7, Some("abc123".to_string()));
    let part = lobby.add_player_with_challenge(WebAppPlayer::new("seven", 7), challenge);
    assert_eq!(part.pid, 7);
    assert_eq!(part.challenge, "abc123");
    let c = lobby.handle_incoming_ws().unwrap();
    assert_eq!(lobby.get_num_unidentified_ws(), 1);
    let actions = lobby.handle_auth_resp(c, answer(7, "abc123"));
    assert_eq!(actions.len(), 1);
    assert!(matches!(actions[0], Action::Send(d, WSMessage::AuthOk) if d == c));
    assert_eq!(lobby.get_num_unidentified_ws(), 0);
    let actions = lobby.handle_auth_resp(c, answer(7, "abc123"));
    assert_eq!(actions.len(), 2);
    assert!(matches!(actions[0], Action::Send(d, WSMessage::AuthReject) if d == c));
    assert!(matches!(actions[1], Action::Close(d) if d == c));
}

#[test]
fn wrong_answer_is_rejected_and_closed() {
    let mut lobby = new_lobby();
    let part = lobby.add_player(WebAppPlayer::new("seven", 7));
    assert_eq!(part.pid, 7);
    assert!(!part.challenge.is_empty());
    let c = lobby.handle_incoming_ws().unwrap();
    let actions = lobby.handle_auth_resp(c, answer(7, "not-it"));
    assert_eq!(actions.len(), 2);
    assert!(matches!(actions[0], Action::Send(d, WSMessage::AuthReject) if d == c));
    assert!(matches!(actions[1], Action::Close(d) if d == c));
    assert_eq!(lobby.get_num_unidentified_ws(), 0);
    let actions = lobby.handle_auth_resp(c, answer(7, &part.challenge));
    assert!(actions.is_empty());
}

#[test]
fn random_challenges_differ() {
    let a = build_echo_challenge(1, None);
    let b = build_echo_challenge(1, None);
    assert_eq!(a.challenge.challenge, a.exp_response);
    assert_ne!(a.challenge.challenge, b.challenge.challenge);
    assert!(a.response_matches(&answer(1, &a.exp_response)));
    assert!(!a.response_matches(&answer(1, "x")));
}

#[test]
fn unknown_connection_is_ignored() {
    let mut lobby = new_lobby();
    lobby.add_player_with_challenge(
        WebAppPlayer::new("seven", 7),
        build_echo_challenge(7, Some("abc".to_string())),
    );
    assert!(lobby.handle_auth_resp(42, answer(7, "abc")).is_empty());
    assert!(lobby.handle_tile_select_msg(42, 0).is_empty());
    assert!(lobby
        .handle_message(0, WSMessage::InvalidMessage)
        .is_empty());
}

#[test]
fn router_bind_and_close() {
    let mut modem = PlayerModem::new();
    modem.add_player(WebAppPlayer::new("p", 3));
    modem.add_orphan_conn(10);
    modem.add_orphan_conn(11);
    assert_eq!(modem.get_num_orphan_conns(), 2);
    assert_eq!(modem.ws_send_msg(10).unwrap(), 10);
    modem.relate_player_ws_conn(10, 3);
    assert_eq!(modem.get_num_orphan_conns(), 1);
    assert_eq!(modem.get_ws_player_id(10), Some(3));
    assert_eq!(modem.send_player_msg(3).unwrap(), 10);
    assert_eq!(modem.ws_send_msg(10).unwrap(), 10);
    assert_eq!(modem.broadcast(), vec![10]);
    assert_eq!(modem.close_ws(10), Some(10));
    assert_eq!(modem.get_ws_player_id(10), None);
    assert!(modem.ws_send_msg(10).is_err());
    assert!(modem.send_player_msg(3).is_err());
    assert!(modem.broadcast().is_empty());
    assert_eq!(modem.close_ws(11), Some(11));
    assert_eq!(modem.get_num_orphan_conns(), 0);
    assert_eq!(modem.close_ws(12), None);
    assert_eq!(modem.get_num_players(), 1);
    assert_eq!(modem.get_simple_player(3).unwrap().get_name(), "p");
}

#[test]
fn last_bind_wins() {
    let mut modem = PlayerModem::new();
    modem.add_player(WebAppPlayer::new("p", 3));
    modem.add_orphan_conn(1);
    modem.add_orphan_conn(2);
    modem.relate_player_ws_conn(1, 3);
    modem.relate_player_ws_conn(2, 3);
    assert_eq!(modem.send_player_msg(3).unwrap(), 2);
    assert_eq!(modem.ws_send_msg(1).unwrap(), 2);
}

#[test]
fn closed_lobby_refuses_connections() {
    let mut lobby = new_lobby();
    assert_eq!(lobby.handle_incoming_ws(), Some(0));
    assert_eq!(lobby.handle_incoming_ws(), Some(1));
    lobby.quit();
    assert!(!lobby.is_admitting());
    assert_eq!(lobby.handle_incoming_ws(), None);
    assert_eq!(lobby.get_id(), "lobby-1");
}

fn join(lobby: &mut Lobby, pid: u32, team: Team) -> u64 {
    let part = lobby.add_player(WebAppPlayer::new(&format!("p{}", pid), pid));
    let c = lobby.handle_incoming_ws().unwrap();
    let actions = lobby.handle_auth_resp(c, answer(pid, &part.challenge));
    assert!(matches!(actions[0], Action::Send(_, WSMessage::AuthOk)));
    let (res, _) = lobby.switch_or_join_team(pid, &team);
    assert!(res.is_ok());
    c
}

#[test]
fn lobby_game_flow() {
    let mut lobby = new_lobby();
    let c0 = join(&mut lobby, 0, Team::TeamOne);
    let c1 = join(&mut lobby, 1, Team::TeamTwo);
    assert_eq!(lobby.get_num_players(), 2);
    let actions = lobby.handle_tile_select_msg(c0, 0);
    assert_eq!(actions.len(), 1);
    assert!(matches!(&actions[0], Action::Send(d, WSMessage::InvalidMove { reason: Some(r) })
        if *d == c0 && r == "Game not ready to start yet"));
    let _c2 = join(&mut lobby, 2, Team::TeamOne);
    let _c3 = join(&mut lobby, 3, Team::TeamTwo);
    match lobby.get_game() {
        GameWrapper::InitialGame(_) => {}
        GameWrapper::InProgressGame(_) => panic!("begun too early"),
    }
    let (res, actions) = lobby.switch_or_join_team(9, &Team::TeamOne);
    assert!(res.is_err());
    assert_eq!(actions.len(), 4);
    assert!(actions.iter().all(|a| matches!(a, Action::Send(_, WSMessage::PlayerUpdate))));
    let spies_set = match lobby.get_game() {
        GameWrapper::InitialGame(g) => g.get_game_info().team_one_spymaster.is_none(),
        GameWrapper::InProgressGame(_) => false,
    };
    assert!(spies_set);
    // Spymasters are still missing, so the game cannot begin.
    let actions = lobby.handle_tile_select_msg(c1, 0);
    assert_eq!(actions.len(), 1);
    assert!(matches!(&actions[0], Action::Send(d, WSMessage::InvalidMove { .. }) if *d == c1));
    assert_eq!(lobby.get_move_update_id(), 0);
    assert!(lobby.get_player_full_game_view(0).is_ok());
    assert!(lobby.get_player_full_game_view(77).is_err());
}

#[test]
fn cookie_text() {
    assert_eq!(
        gen_cookie("k", "v", 60, "/p", true, SameSitePolicy::Lax),
        "k=v;Max-age=60;path=/p;SameSite=Lax;secure"
    );
    assert_eq!(
        gen_cookie("a", "b", 0, "/", false, SameSitePolicy::Unrestricted),
        "a=b;Max-age=0;path=/;SameSite=None;"
    );
    assert_eq!(
        gen_auth_cookie("s1", false, None),
        "SESSION_ID=s1;Max-age=10800;path=/;SameSite=Strict;"
    );
    assert_eq!(
        gen_auth_cookie("s1", true, Some("/lobby/x".to_string())),
        "SESSION_ID=s1;Max-age=10800;path=/lobby/x;SameSite=Strict;secure"
    );
    assert_eq!(SameSitePolicy::Strict.to_string(), "Strict");
    assert_eq!(
        gen_cookie("k", "v", 4294967295, "/", false, SameSitePolicy::Strict),
        "k=v;Max-age=4294967295;path=/;SameSite=Strict;"
    );
}

#[test]
fn web_player_connection() {
    let mut p = WebAppPlayer::new("p", 5);
    assert!(p.send_msg().is_err());
    p.set_conn(4);
    assert_eq!(p.send_msg().unwrap(), 4);
    assert_eq!(*p.get_id(), 5);
    assert_eq!(p.get_name(), "p");
    assert_eq!(p.close_ws(), Some(4));
    assert_eq!(p.close_ws(), None);
}

fn started_lobby() -> (Lobby, Vec<u64>) {
    let mut lobby = new_lobby();
    let mut conns = Vec::new();
    for (pid, team) in [(0, Team::TeamOne), (1, Team::TeamTwo), (2, Team::TeamOne), (3, Team::TeamTwo)] {
        conns.push(join(&mut lobby, pid, team));
    }
    assert!(lobby.set_spymaster(&Team::TeamOne, 0).is_ok());
    assert!(lobby.set_spymaster(&Team::TeamTwo, 2).is_err());
    assert!(lobby.set_spymaster(&Team::TeamTwo, 1).is_ok());
    (lobby, conns)
}

fn board_lists(lobby: &Lobby) -> (Vec<usize>, Vec<usize>, Vec<usize>, usize) {
    let board = match lobby.get_game() {
        GameWrapper::InitialGame(g) => g.board().duplicate(),
        GameWrapper::InProgressGame(g) => g.board().duplicate(),
    };
    (
        board.get_team_one_indices_list(),
        board.get_team_two_indices_list(),
        board.get_grey_indices_list(),
        board.danger_index() as usize,
    )
}

#[test]
fn lobby_moves_are_broadcast_and_counted() {
    let (mut lobby, conns) = started_lobby();
    let (one, _two, grey, _danger) = board_lists(&lobby);
    // Team two may not move first; the game begins on this attempt.
    let actions = lobby.handle_tile_select_msg(conns[1], one[0] as u8);
    assert_eq!(actions.len(), 1);
    assert!(matches!(&actions[0], Action::Send(d, WSMessage::InvalidMove { reason: None }) if *d == conns[1]));
    assert!(matches!(lobby.get_game(), GameWrapper::InProgressGame(_)));
    let actions = lobby.handle_message(conns[0], WSMessage::TileSelect(one[0] as u8));
    assert_eq!(actions.len(), 4);
    assert!(actions.iter().all(|a| matches!(a, Action::Send(_, WSMessage::UpdateState(1)))));
    assert_eq!(lobby.get_move_update_id(), 1);
    let actions = lobby.handle_tile_select_msg(conns[2], grey[0] as u8);
    assert!(actions.iter().all(|a| matches!(a, Action::Send(_, WSMessage::UpdateState(2)))));
    // The same tile again is refused to the mover only.
    let actions = lobby.handle_tile_select_msg(conns[1], grey[0] as u8);
    assert_eq!(actions.len(), 1);
    assert!(matches!(&actions[0], Action::Send(d, WSMessage::InvalidMove { reason: None }) if *d == conns[1]));
    assert_eq!(lobby.get_move_update_id(), 2);
}

#[test]
fn lobby_danger_ends_the_game() {
    let (mut lobby, conns) = started_lobby();
    let (_one, _two, _grey, danger) = board_lists(&lobby);
    let actions = lobby.handle_tile_select_msg(conns[0], danger as u8);
    assert_eq!(actions.len(), 4);
    for a in actions.iter() {
        match a {
            Action::Send(_, WSMessage::TeamWinMessage { id, reason }) => {
                assert_eq!(*id, 2);
                assert_eq!(reason, "Other team drew the danger card");
            }
            other => panic!("unexpected {:?}", other),
        }
    }
    assert!(!lobby.is_admitting());
    assert_eq!(lobby.handle_incoming_ws(), None);
    // Play is frozen once a team has won.
    let (one, _two, _grey, _danger) = board_lists(&lobby);
    let actions = lobby.handle_tile_select_msg(conns[1], one[0] as u8);
    assert_eq!(actions.len(), 1);
    assert!(matches!(&actions[0], Action::Send(d, WSMessage::InvalidMove { reason: None }) if *d == conns[1]));
    assert_eq!(lobby.get_move_update_id(), 1);
}

#[test]
fn lobby_views_follow_spymasters_by_id() {
    let (mut lobby, _conns) = started_lobby();
    let hidden = |v: &GameViewWrapper| match v {
        GameViewWrapper::InitialFullGameView(f) => f.board.tiles.iter().filter(|t| t.is_none()).count(),
        GameViewWrapper::InProgressFullGameView(f) => f.board.tiles.iter().filter(|t| t.is_none()).count(),
    };
    assert_eq!(hidden(&lobby.get_player_full_game_view(0).unwrap()), 0);
    assert_eq!(hidden(&lobby.get_player_full_game_view(3).unwrap()), 0);
    assert_eq!(hidden(&lobby.get_player_full_game_view(1).unwrap()), 25);
    assert_eq!(hidden(&lobby.get_player_full_game_view(2).unwrap()), 25);
    // Team one's spymaster moves to team two: team one has no spymaster.
    let (res, _) = lobby.switch_or_join_team(0, &Team::TeamTwo);
    assert!(res.is_ok());
    assert_eq!(hidden(&lobby.get_player_full_game_view(0).unwrap()), 25);
}

#[test]
fn create_player_numbers_players() {
    let mut lobby = new_lobby();
    let a = lobby.create_player("ann").unwrap();
    let b = lobby.create_player("bob").unwrap();
    assert_eq!(a.pid, 0);
    assert_eq!(b.pid, 1);
    assert_eq!(a.challenge.len(), 36);
    assert_eq!(lobby.get_num_players(), 2);
    let c = lobby.handle_incoming_ws().unwrap();
    let actions = lobby.handle_auth_resp(c, answer(1, &b.challenge));
    assert!(matches!(actions[0], Action::Send(d, WSMessage::AuthOk) if d == c));
}

#[test]
fn reject_keeps_earlier_binding() {
    let mut lobby = new_lobby();
    lobby.add_player_with_challenge(
        WebAppPlayer::new("seven", 7),
        build_echo_challenge(7, Some("abc123".to_string())),
    );
    let c1 = lobby.handle_incoming_ws().unwrap();
    let c2 = lobby.handle_incoming_ws().unwrap();
    assert_eq!(lobby.get_num_unidentified_ws(), 2);
    lobby.handle_auth_resp(c1, answer(7, "abc123"));
    let actions = lobby.handle_auth_resp(c2, answer(7, "abc123"));
    assert!(matches!(actions[0], Action::Send(d, WSMessage::AuthReject) if d == c2));
    assert!(matches!(actions[1], Action::Close(d) if d == c2));
    assert_eq!(lobby.get_num_unidentified_ws(), 0);
    let (_, actions) = lobby.switch_or_join_team(7, &Team::TeamOne);
    assert_eq!(actions.len(), 1);
    assert!(matches!(actions[0], Action::Send(d, WSMessage::PlayerUpdate) if d == c1));
}

#[test]
fn lobby_close_unbinds_player() {
    let (mut lobby, conns) = started_lobby();
    let actions = lobby.close_ws(conns[3]);
    assert_eq!(actions.len(), 1);
    assert!(matches!(actions[0], Action::Close(c) if c == conns[3]));
    assert!(lobby.close_ws(conns[3]).is_empty());
    let (res, actions) = lobby.switch_or_join_team(0, &Team::TeamTwo);
    assert!(res.is_ok());
    assert_eq!(actions.len(), 3);
}

#[test]
fn error_text() {
    assert_eq!(InvalidError::new("bad").to_string(), "invalid value: bad");
    let e = GameBeginError::new(5u8, "why");
    assert_eq!(e.to_string(), "failed to begin game because: why");
    assert_eq!(e.take_old(), 5);
    let f = GameFinishError { old_game: 1u8, msg: "x".to_string() };
    assert_eq!(f.to_string(), "failed to finish game because: x");
    assert_eq!(DuplicateLobbyError::new("l").dup_id, "l");
    assert_eq!(ForwardingError::new("m").msg, "m");
    assert_eq!(NotAllowedError::new("n").msg, "n");
}
