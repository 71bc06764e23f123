use codeword::errors::InvalidError;
use codeword::game::{Game, InProgressGame, InitialGame, MoveResult, Team, WinReason};
use codeword::players::{Player, SimplePlayer};

fn vocab() -> Vec<String> {
    (0..25).map(|x| format!("word-{}", x)).collect()
}

fn setup_valid_game() -> Result<Game<InitialGame, SimplePlayer>, InvalidError> {
    let words = vocab();
    let mut game = Game::new(&words)?;

    game.add_player_team_one(SimplePlayer::new("p1", 1));
    game.add_player_team_two(SimplePlayer::new("p2", 2));

    game.add_player_team_one(SimplePlayer::new("p3", 3));
    game.add_player_team_two(SimplePlayer::new("p4", 4));

    let res = game.set_team_one_spymaster(0);
    assert!(res.is_ok());
    let res = game.set_team_two_spymaster(1);
    assert!(res.is_ok());
    assert!(game.can_begin());
    Ok(game)
}

fn tiles_where(game: &Game<InProgressGame, SimplePlayer>, f: impl Fn(usize) -> bool) -> Vec<usize> {
    (0..game.board().words().len()).filter(|x| f(*x)).collect()
}

#[test]
fn game_move_team_tracking() -> Result<(), InvalidError> {
    let game = setup_valid_game()?;
    let mut game = game.begin().unwrap();
    assert_eq!(game.get_next_turn().unwrap(), Team::TeamOne);
    let p1 = SimplePlayer::new("p-whatever", 1);
    let p2 = SimplePlayer::new("p2", 2);
    assert_eq!(game.get_player_team(&p1).unwrap(), Team::TeamOne);
    assert_eq!(game.get_player_team(&p2).unwrap(), Team::TeamTwo);
    let safe_move = (game.board().danger_index() + 1) % game.board().words().len() as u8;
    let res = game.try_unravel(&p2, safe_move);
    assert!(res.is_err());
    let res = game.try_unravel(&p1, safe_move);
    assert!(res.is_ok());
    Ok(())
}

#[test]
fn game_move_danger_open() -> Result<(), InvalidError> {
    let game = setup_valid_game()?;
    let mut game = game.begin().unwrap();
    assert_eq!(game.get_next_turn().unwrap(), Team::TeamOne);
    let p1 = SimplePlayer::new("p-whatever", 1);
    assert_eq!(game.get_player_team(&p1).unwrap(), Team::TeamOne);
    let danger = game.board().danger_index();
    let res = game.try_unravel(&p1, danger);
    assert!(res.is_ok());
    assert_eq!(
        res.unwrap(),
        MoveResult::Win(Team::TeamTwo, WinReason::OpponentDangerDraw)
    );
    Ok(())
}

#[test]
fn game_move_grey_open() -> Result<(), InvalidError> {
    let game = setup_valid_game()?;
    let mut game = game.begin().unwrap();
    assert_eq!(game.get_next_turn().unwrap(), Team::TeamOne);
    let p1 = SimplePlayer::new("p-whatever", 1);
    assert_eq!(game.get_player_team(&p1).unwrap(), Team::TeamOne);
    let grey_moves = tiles_where(&game, |x| game.board().is_grey_index(x));
    let res = game.try_unravel(&p1, grey_moves[0] as u8);
    assert!(res.is_ok());
    assert_eq!(game.get_next_turn().unwrap(), Team::TeamTwo);
    Ok(())
}

#[test]
fn game_move_correct_incorrect_open() -> Result<(), InvalidError> {
    let game = setup_valid_game()?;
    let mut game = game.begin().unwrap();
    assert_eq!(game.get_next_turn().unwrap(), Team::TeamOne);
    let p1 = SimplePlayer::new("p-whatever", 1);
    assert_eq!(game.get_player_team(&p1).unwrap(), Team::TeamOne);
    let t1_safe_moves = tiles_where(&game, |x| game.board().is_team_one_index(x));
    let t2_safe_moves = tiles_where(&game, |x| game.board().is_team_two_index(x));
    let old_t1_score = game.get_team_one_score();
    let old_t2_score = game.get_team_two_score();
    let res = game.try_unravel(&p1, t1_safe_moves[0] as u8);
    assert!(res.is_ok());
    assert_eq!(game.get_next_turn().unwrap(), Team::TeamOne);
    assert_eq!(old_t1_score - 1, game.get_team_one_score());
    assert_eq!(old_t2_score, game.get_team_two_score());
    let old_t1_score = game.get_team_one_score();
    let old_t2_score = game.get_team_two_score();
    let res = game.try_unravel(&p1, t2_safe_moves[0] as u8);
    assert!(res.is_ok());
    assert_eq!(game.get_next_turn().unwrap(), Team::TeamTwo);
    assert_eq!(old_t1_score, game.get_team_one_score());
    assert_eq!(old_t2_score - 1, game.get_team_two_score());
    Ok(())
}

#[test]
fn game_winning() -> Result<(), InvalidError> {
    let game = setup_valid_game()?;
    let mut game = game.begin().unwrap();
    assert_eq!(game.get_next_turn().unwrap(), Team::TeamOne);
    let p1 = SimplePlayer::new("p-whatever", 1);
    assert_eq!(game.get_player_team(&p1).unwrap(), Team::TeamOne);
    let t1_safe_moves = tiles_where(&game, |x| game.board().is_team_one_index(x));
    let mut res = Ok(MoveResult::Continue);
    for (i, safe_move) in t1_safe_moves.iter().enumerate() {
        res = game.try_unravel(&p1, *safe_move as u8);
        assert!(res.is_ok());
        if i + 1 < t1_safe_moves.len() {
            assert_eq!(res.as_ref().unwrap(), &MoveResult::Continue);
        }
        assert_eq!(game.get_next_turn().unwrap(), Team::TeamOne);
    }
    assert_eq!(0, game.get_team_one_score());
    assert_eq!(
        res.unwrap(),
        MoveResult::Win(Team::TeamOne, WinReason::ScoreReached)
    );
    Ok(())
}

#[test]
fn new_game_core() -> Result<(), InvalidError> {
    let words = vocab();
    let mut game: Game<InitialGame, SimplePlayer> = Game::new(&words)?;

    assert_eq!(game.get_team_one_score(), 8);
    assert_eq!(game.get_team_two_score(), 8);

    game.add_player_team_one(SimplePlayer::new("p1", 1));
    game.add_player_team_two(SimplePlayer::new("p2", 2));
    Ok(())
}

#[test]
fn test_begin_game() -> Result<(), InvalidError> {
    let words = vocab();
    let mut game = Game::new(&words)?;

    assert_eq!(game.get_team_one_score(), 8);
    assert_eq!(game.get_team_two_score(), 8);

    game.add_player_team_one(SimplePlayer::new("p1", 1));
    game.add_player_team_two(SimplePlayer::new("p2", 2));
    assert!(!game.can_begin());

    game.add_player_team_one(SimplePlayer::new("p3", 3));
    game.add_player_team_two(SimplePlayer::new("p4", 4));
    assert!(!game.can_begin());

    let res = game.set_team_one_spymaster(0);
    assert!(res.is_ok());
    let res = game.set_team_two_spymaster(1);
    assert!(res.is_ok());

    assert!(game.can_begin());
    let res = game.begin();
    assert!(res.is_ok());
    let game: Game<InProgressGame, SimplePlayer> = res.unwrap();
    assert!(game.get_next_turn().is_some());
    Ok(())
}

#[test]
fn test_has_enough_players_core() -> Result<(), InvalidError> {
    let words = vocab();
    let mut game: Game<InitialGame, SimplePlayer> = Game::new(&words)?;
    game.add_player_team_one(SimplePlayer::new("p1", 1));
    game.add_player_team_two(SimplePlayer::new("p2", 2));
    assert!(
        !game.has_enough_players(),
        "each team has just 1 player. shouldnt be ready."
    );
    game.add_player_team_one(SimplePlayer::new("p1", 3));
    game.add_player_team_two(SimplePlayer::new("p2", 4));
    assert!(
        !game.has_enough_players(),
        "each team has just 2 players. But no spymaster elected. Shouldn't be ready."
    );
    let res = game.set_team_one_spymaster(0);
    assert!(res.is_ok());
    let res = game.set_team_two_spymaster(1);
    assert!(res.is_ok());
    assert!(
        game.has_enough_players(),
        "Game should have enough players now."
    );
    Ok(())
}

#[test]
fn begin_refused_hands_back_the_game() {
    let mut game: Game<InitialGame, SimplePlayer> = Game::new(&vocab()).unwrap();
    game.add_player_team_one(SimplePlayer::new("p1", 1));
    game.add_player_team_one(SimplePlayer::new("p3", 3));
    game.add_player_team_two(SimplePlayer::new("p2", 2));
    game.add_player_team_two(SimplePlayer::new("p4", 4));
    game.set_team_one_spymaster(0).unwrap();
    let err = game.begin().unwrap_err();
    assert_eq!(
        err.msg,
        "Not enough players. Each team needs 2 players atleast and a chosen spymaster."
    );
    let mut game = err.take_old();
    assert!(game.has_player(&4));
    assert!(game.get_next_turn().is_none());
    game.set_team_two_spymaster(1).unwrap();
    let game = game.begin().unwrap();
    assert_eq!(game.get_next_turn(), Some(Team::TeamOne));
}

#[test]
fn begin_needs_two_players_per_team() {
    let mut game: Game<InitialGame, SimplePlayer> = Game::new(&vocab()).unwrap();
    game.add_player_team_one(SimplePlayer::new("p1", 1));
    game.add_player_team_one(SimplePlayer::new("p3", 3));
    game.add_player_team_two(SimplePlayer::new("p2", 2));
    game.set_team_one_spymaster(1).unwrap();
    game.set_team_two_spymaster(0).unwrap();
    assert!(!game.can_begin());
    assert!(game.begin().is_err());
}

#[test]
fn spymaster_index_past_roster_is_refused() {
    let mut game: Game<InitialGame, SimplePlayer> = Game::new(&vocab()).unwrap();
    game.add_player_team_one(SimplePlayer::new("p1", 1));
    let err = game.set_team_one_spymaster(1).unwrap_err();
    assert_eq!(err.msg, "Spymaster index exceeds num players");
    assert!(game.set_team_one_spymaster(0).is_ok());
    assert!(game.set_team_two_spymaster(0).is_err());
    assert!(game.is_team_one_spymaster(&1));
    assert!(!game.is_team_one_spymaster(&0));
    assert!(!game.is_team_two_spymaster(&1));
}

#[test]
fn rejoining_moves_a_player_between_teams() {
    let mut game: Game<InitialGame, SimplePlayer> = Game::new(&vocab()).unwrap();
    game.add_player_team_one(SimplePlayer::new("p1", 1));
    game.add_player_team_one(SimplePlayer::new("p1 again", 1));
    assert_eq!(game.get_player_team_from_id(&1), Some(Team::TeamOne));
    game.add_player_team_two(SimplePlayer::new("p1", 1));
    assert_eq!(game.get_player_team_from_id(&1), Some(Team::TeamTwo));
    let info = game.get_game_info();
    assert!(info.team_one_players.is_empty());
    assert_eq!(info.team_two_players, vec!["p1".to_string()]);
    assert!(game.transfer_player(&1, &Team::TeamOne).is_ok());
    assert_eq!(game.get_player_team_from_id(&1), Some(Team::TeamOne));
    assert!(game.transfer_player(&9, &Team::TeamOne).is_err());
    assert!(game.add_player_to_team(SimplePlayer::new("x", 1), &Team::TeamTwo).is_err());
    assert!(game.add_player_to_team(SimplePlayer::new("y", 5), &Team::TeamTwo).is_ok());
    assert_eq!(game.get_player_team_from_id(&5), Some(Team::TeamTwo));
}

#[test]
fn move_errors_leave_the_game_unchanged() {
    let mut game = setup_valid_game().unwrap().begin().unwrap();
    let outsider = SimplePlayer::new("nobody", 99);
    let err = game.try_unravel(&outsider, 0).unwrap_err();
    assert_eq!(err.msg, "Player not in the team");
    let p2 = SimplePlayer::new("p2", 2);
    let err = game.try_unravel(&p2, 0).unwrap_err();
    assert_eq!(err.msg, "Not the current team's turn");
    let p1 = SimplePlayer::new("p1", 1);
    let err = game.try_unravel(&p1, 25).unwrap_err();
    assert_eq!(err.msg, "Tile index is off the board.");
    let grey = game.board().get_grey_indices_list()[0];
    game.try_unravel(&p1, grey as u8).unwrap();
    let p4 = SimplePlayer::new("p4", 4);
    let err = game.try_unravel(&p4, grey as u8).unwrap_err();
    assert_eq!(err.msg, "Trying to unveil already known word.");
    assert_eq!(game.get_next_turn(), Some(Team::TeamTwo));
    assert_eq!(game.get_team_one_score(), 8);
    assert_eq!(game.get_team_two_score(), 8);
}

#[test]
fn wrong_guess_by_team_two_hands_turn_to_team_one() {
    let mut game = setup_valid_game().unwrap().begin().unwrap();
    let p1 = SimplePlayer::new("p1", 1);
    let p2 = SimplePlayer::new("p2", 2);
    let grey = game.board().get_grey_indices_list()[0];
    game.try_unravel(&p1, grey as u8).unwrap();
    assert_eq!(game.get_next_turn(), Some(Team::TeamTwo));
    let one_tile = game.board().get_team_one_indices_list()[0];
    let res = game.try_unravel(&p2, one_tile as u8).unwrap();
    assert_eq!(res, MoveResult::Continue);
    assert_eq!(game.get_next_turn(), Some(Team::TeamOne));
    assert_eq!(game.get_team_one_score(), 7);
}

#[test]
fn danger_by_team_two_hands_win_to_team_one() {
    let mut game = setup_valid_game().unwrap().begin().unwrap();
    let p1 = SimplePlayer::new("p1", 1);
    let p2 = SimplePlayer::new("p2", 2);
    let grey = game.board().get_grey_indices_list()[0];
    game.try_unravel(&p1, grey as u8).unwrap();
    let danger = game.board().danger_index();
    let res = game.try_unravel(&p2, danger).unwrap();
    assert_eq!(res, MoveResult::Win(Team::TeamOne, WinReason::OpponentDangerDraw));
    assert_eq!(game.get_next_turn(), Some(Team::TeamTwo));
}

#[test]
fn team_two_wins_by_revealing_its_last_tile() {
    let mut game = setup_valid_game().unwrap().begin().unwrap();
    let p1 = SimplePlayer::new("p1", 1);
    let two_tiles = game.board().get_team_two_indices_list();
    let mut last = MoveResult::Continue;
    for (i, t) in two_tiles.iter().enumerate() {
        last = game.try_unravel(&p1, *t as u8).unwrap();
        let p2 = SimplePlayer::new("p2", 2);
        if i + 1 < two_tiles.len() {
            assert_eq!(last, MoveResult::Continue);
            assert_eq!(game.get_next_turn(), Some(Team::TeamTwo));
            let grey = game.board().get_grey_indices_list()[i];
            game.try_unravel(&p2, grey as u8).unwrap();
        }
    }
    assert_eq!(last, MoveResult::Win(Team::TeamTwo, WinReason::ScoreReached));
    assert_eq!(game.get_team_two_score(), 0);
}

#[test]
fn example_scenario_scores_and_turns() {
    let mut game = setup_valid_game().unwrap().begin().unwrap();
    assert_eq!(game.get_next_turn(), Some(Team::TeamOne));
    let p1 = SimplePlayer::new("p1", 1);
    let one_tile = game.board().get_team_one_indices_list()[0];
    let two_tile = game.board().get_team_two_indices_list()[0];
    assert_eq!(game.try_unravel(&p1, one_tile as u8).unwrap(), MoveResult::Continue);
    assert_eq!(game.get_team_one_score(), 7);
    assert_eq!(game.get_next_turn(), Some(Team::TeamOne));
    assert_eq!(game.try_unravel(&p1, two_tile as u8).unwrap(), MoveResult::Continue);
    assert_eq!(game.get_team_two_score(), 7);
    assert_eq!(game.get_next_turn(), Some(Team::TeamTwo));
}

#[test]
fn team_ids_and_reason_text() {
    assert_eq!(Team::TeamOne.get_id(), 1);
    assert_eq!(Team::TeamTwo.get_id(), 2);
    assert_eq!(WinReason::ScoreReached.to_string(), "Score reached.");
    assert_eq!(
        WinReason::OpponentDangerDraw.to_string(),
        "Other team drew the danger card"
    );
}

#[test]
fn game_info_follows_viewer() {
    let game = setup_valid_game().unwrap();
    let spy = SimplePlayer::new("p4", 4);
    let regular = SimplePlayer::new("p3", 3);
    let v = game.get_full_game_info(&spy).unwrap();
    assert!(v.board.tiles.iter().all(|t| t.is_some()));
    let v = game.get_initial_full_game_info(&regular).unwrap();
    assert!(v.board.tiles.iter().all(|t| t.is_none()));
    assert_eq!(v.game_info.team_one_players.len(), 2);
    assert_eq!(v.game_info.stats.team_one_score, 8);
    assert_eq!(v.game_info.team_one_spymaster, Some(1));
    assert_eq!(v.game_info.team_two_spymaster, Some(4));
    let one = game.get_full_game_info(&SimplePlayer::new("p1", 1)).unwrap();
    assert!(one.board.tiles.iter().all(|t| t.is_some()));
    let zero = game.get_full_game_info(&SimplePlayer::new("nobody", 0)).unwrap();
    assert!(zero.board.tiles.iter().all(|t| t.is_none()));
    let d = game.get_dynamic_game_info();
    assert_eq!(d.next_turn, None);
    let m = game.get_minimal_game_info(&regular);
    assert_eq!(m.board.tiles.len(), 25);
}

#[test]
fn simple_player_accessors() {
    let mut p = SimplePlayer::new("ann", 3);
    assert_eq!(p.get_name(), "ann");
    assert_eq!(*p.get_id(), 3);
    p.set_id(8);
    p.set_name("bea");
    assert_eq!(p.get_name(), "bea");
    assert_eq!(*p.get_id(), 8);
    let q = p.duplicate();
    assert_eq!(q.get_name(), "bea");
}

#[test]
fn spymaster_is_chosen_by_id_order_and_kept_by_id() {
    let mut game: Game<InitialGame, SimplePlayer> = Game::new(&vocab()).unwrap();
    game.add_player_team_one(SimplePlayer::new("c", 30));
    game.add_player_team_one(SimplePlayer::new("a", 10));
    game.add_player_team_one(SimplePlayer::new("b", 20));
    game.set_team_one_spymaster(1).unwrap();
    assert!(game.is_team_one_spymaster(&20));
    game.add_player_team_one(SimplePlayer::new("d", 5));
    assert!(game.is_team_one_spymaster(&20));
    game.add_player_team_two(SimplePlayer::new("b", 20));
    assert!(!game.is_team_one_spymaster(&20));
    assert_eq!(game.get_game_info().team_one_spymaster, None);
    assert!(!game.has_enough_players());
}
