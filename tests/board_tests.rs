use codeword::bits::{bitmap_for_pos, num_ones, pos_from_bitmap};
use codeword::board::{Board, TileClass};
use codeword::game::Team;

fn vocab(n: usize) -> Vec<String> {
    (0..n).map(|x| format!("word-{}", x)).collect()
}

#[test]
fn test_board_new_size() {
    let words = vocab(25);
    let board = Board::new(&words).unwrap();
    assert_eq!(board.words().len(), 25);
    assert_eq!(board.get_grey_indices_list().len(), 8);
    assert_eq!(board.get_team_one_indices_list().len(), 8);
    assert_eq!(board.get_team_two_indices_list().len(), 8);
}

#[test]
fn test_board_vocab_matches_indices() {
    let words = vocab(25);
    let board = Board::new(&words).unwrap();
    let grey_list = board.get_grey_indices_list();
    let team_one_list = board.get_team_one_indices_list();
    let team_two_list = board.get_team_two_indices_list();

    let mut seen = [false; 25];
    seen[board.danger_index() as usize] = true;

    for (name, list) in [
        ("grey_list", grey_list),
        ("team_one_list", team_one_list),
        ("team_two_list", team_two_list),
    ]
    .iter()
    {
        for (i, item) in list.iter().enumerate() {
            assert!(!seen[*item], "{} has dup item {} at {}", name, item, i);
            seen[*item] = true;
        }
    }

    for i in 0..seen.len() {
        assert!(seen[i], "{} index was not used anywhere", i);
    }

    for (i, word) in board.words().iter().enumerate() {
        assert_eq!(word, &words[i], "words dont match at: {}", i);
    }
}

#[test]
fn test_board_new_wrong_sizes() {
    let words = vocab(10);
    assert!(
        Board::new(&words).is_err(),
        "Board must error out on invalid sizes"
    );
}

#[test]
fn board_unravelling() {
    let words = vocab(25);
    let mut board = Board::new(&words).unwrap();
    for i in 0..words.len() {
        let res = board.unravel_word(i);
        assert!(res.is_ok());
        assert!(board.is_word_unravelled(i));
        let res = board.unravel_word(i);
        assert!(res.is_err());
        assert!(board.is_word_unravelled(i));
    }
}

#[test]
fn test_board_has_hidden_tiles() {
    let words = vocab(25);
    let mut board = Board::new(&words).unwrap();
    assert!(board.has_hidden_tiles());
    for i in 0..words.len() {
        if i as u8 != board.danger_index() {
            let res = board.unravel_word(i);
            assert!(res.is_ok());
        }
    }
    assert!(!board.has_hidden_tiles());
}

#[test]
fn test_bitmap_for_pos() {
    let test_cases: Vec<(Vec<usize>, u32)> = vec![
        (vec![], 0),
        (vec![0, 31], 0x80000001),
        ((0..32).collect(), 0xFFFFFFFF),
    ];
    for (i, test) in test_cases.iter().enumerate() {
        let (inp, out) = test;
        let ans = bitmap_for_pos(&inp[..]);
        assert!(ans.is_ok());
        let ans = ans.unwrap();
        assert_eq!(*out, ans, "Error in test: {}", i);
    }
}

#[test]
fn test_bitmap_for_pos_error_cases() {
    let test_cases: Vec<Vec<usize>> = vec![vec![32], (0..33).collect()];
    for (i, test) in test_cases.iter().enumerate() {
        let ans = bitmap_for_pos(&test[..]);
        assert!(ans.is_err(), "Test: {} should have failed", i);
    }
}

#[test]
fn test_num_ones() {
    let test_cases: Vec<(u32, u32)> =
        vec![(0, 0), (1, 1), (2, 1), (5, 2), (0xFFFFFFFF, 32), (7, 3)];
    for (i, test) in test_cases.iter().enumerate() {
        let (inp, out) = test;
        let ans = num_ones(inp);
        assert_eq!(ans, *out, "Error in test: {}", i);
    }
}

#[test]
fn test_board_get_team_pending_size() {
    let words = vocab(25);
    let mut board = Board::new(&words).unwrap();
    let mut exp_t1_psize = 8;
    let mut exp_t2_psize = 8;
    assert_eq!(board.get_team_one_pending_size(), exp_t1_psize);
    assert_eq!(board.get_team_two_pending_size(), exp_t2_psize);

    for i in 0..words.len() {
        if i != board.danger_index() as usize {
            let res = board.unravel_word(i);
            assert!(res.is_ok());
            if board.is_team_one_index(i) {
                exp_t1_psize -= 1;
                assert_eq!(
                    board.get_team_one_pending_size(),
                    exp_t1_psize,
                    "problem in idx: {}",
                    i
                );
            } else if board.is_team_two_index(i) {
                exp_t2_psize -= 1;
                assert_eq!(
                    board.get_team_two_pending_size(),
                    exp_t2_psize,
                    "problem in idx: {}",
                    i
                );
            } else {
                assert!(board.is_grey_index(i));
            }
        }
    }
    assert_eq!(board.get_team_one_pending_size(), 0);
    assert_eq!(board.get_team_two_pending_size(), 0);
}

#[test]
fn pos_from_bitmap_lists_set_bits_in_order() {
    assert_eq!(pos_from_bitmap(&0), Vec::<usize>::new());
    assert_eq!(pos_from_bitmap(&0x80000001), vec![0, 31]);
    assert_eq!(pos_from_bitmap(&0b1010_0100), vec![2, 5, 7]);
}

#[test]
fn board_partition_has_one_danger_and_three_groups_of_eight() {
    for _ in 0..20 {
        let board = Board::new(&vocab(25)).unwrap();
        let mut counts = [0usize; 4];
        for i in 0..25 {
            let kinds = [
                i == board.danger_index() as usize,
                board.is_grey_index(i),
                board.is_team_one_index(i),
                board.is_team_two_index(i),
            ];
            assert_eq!(kinds.iter().filter(|k| **k).count(), 1, "tile {}", i);
            for (k, hit) in kinds.iter().enumerate() {
                if *hit {
                    counts[k] += 1;
                }
            }
        }
        assert_eq!(counts, [1, 8, 8, 8]);
        assert!(!board.is_grey_index(25));
        assert!(!board.is_team_one_index(31));
        assert!(!board.is_team_two_index(200));
    }
}

#[test]
fn board_new_rejects_empty_and_too_long_vocabularies() {
    assert!(Board::new(&vocab(0)).is_err());
    assert!(Board::new(&vocab(24)).is_err());
    assert!(Board::new(&vocab(26)).is_err());
}

#[test]
fn reveal_twice_fails_and_leaves_state_unchanged() {
    let mut board = Board::new(&vocab(25)).unwrap();
    assert!(board.unravel_word(3).is_ok());
    let one = board.get_team_one_pending_size();
    let two = board.get_team_two_pending_size();
    let err = board.unravel_word(3).unwrap_err();
    assert_eq!(err.msg, "Trying to unveil already known word.");
    assert_eq!(board.get_team_one_pending_size(), one);
    assert_eq!(board.get_team_two_pending_size(), two);
    for i in 0..25 {
        assert_eq!(board.is_word_unravelled(i), i == 3);
    }
}

#[test]
fn reveal_off_the_board_is_refused() {
    let mut board = Board::new(&vocab(25)).unwrap();
    let err = board.unravel_word(25).unwrap_err();
    assert_eq!(err.msg, "Tile index is off the board.");
    assert!(board.unravel_word(40).is_err());
    assert!(!board.is_word_unravelled(25));
    assert!(board.has_hidden_tiles());
}

#[test]
fn pending_count_drops_only_for_the_owner() {
    let mut board = Board::new(&vocab(25)).unwrap();
    let one_tile = board.get_team_one_indices_list()[0];
    let grey_tile = board.get_grey_indices_list()[0];
    board.unravel_word(grey_tile).unwrap();
    assert_eq!(board.pending_size(Team::TeamOne), 8);
    assert_eq!(board.pending_size(Team::TeamTwo), 8);
    board.unravel_word(one_tile).unwrap();
    assert_eq!(board.pending_size(Team::TeamOne), 7);
    assert_eq!(board.pending_size(Team::TeamTwo), 8);
    board.unravel_word(board.danger_index() as usize).unwrap();
    assert_eq!(board.pending_size(Team::TeamOne), 7);
    assert_eq!(board.pending_size(Team::TeamTwo), 8);
}

#[test]
fn views_hide_unrevealed_classes_from_regular_players() {
    let mut board = Board::new(&vocab(25)).unwrap();
    let d = board.danger_index() as usize;
    let spy = board.get_full_spymaster_view();
    assert_eq!(spy.words.len(), 25);
    assert_eq!(spy.tiles[d], Some(TileClass::Danger));
    assert!(spy.tiles.iter().all(|t| t.is_some()));
    let regular = board.get_full_regular_player_view();
    assert!(regular.tiles.iter().all(|t| t.is_none()));
    let g = board.get_grey_indices_list()[0];
    board.unravel_word(g).unwrap();
    let regular = board.get_full_regular_player_view();
    assert_eq!(regular.tiles[g], Some(TileClass::Grey));
    assert_eq!(regular.tiles.iter().filter(|t| t.is_some()).count(), 1);
    assert_eq!(board.get_minimal_view(false).tiles, regular.tiles);
    assert_eq!(board.tile_class(d), TileClass::Danger);
}

#[test]
fn duplicate_keeps_the_board() {
    let mut board = Board::new(&vocab(25)).unwrap();
    board.unravel_word(4).unwrap();
    let copy = board.duplicate();
    assert_eq!(copy.words(), board.words());
    assert_eq!(copy.danger_index(), board.danger_index());
    assert_eq!(copy.get_grey_indices_list(), board.get_grey_indices_list());
    assert_eq!(copy.get_team_one_indices_list(), board.get_team_one_indices_list());
    assert!(copy.is_word_unravelled(4));
}

#[test]
fn boards_are_shuffled() {
    let mut layouts = std::collections::HashSet::new();
    for _ in 0..20 {
        let board = Board::new(&vocab(25)).unwrap();
        layouts.insert((board.danger_index(), board.get_team_one_indices_list()));
    }
    assert!(layouts.len() > 1);
}
