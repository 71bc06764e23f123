//! The 25-tile board: words, one danger tile, grey and team tiles as bit
//! masks, and which tiles have been revealed.

use vstd::prelude::*;
use vstd::set_lib::*;
use vstd::seq_lib::*;
use vstd::slice::slice_subrange;
use rand::seq::SliceRandom;
use crate::bits::{
    bit, bitmap_for_pos, is_bit_set, lemma_clear_bits, lemma_mask_set_finite, lemma_or_bit,
    lemma_zero_bits, lists, mask_set, num_ones, pos_from_bitmap,
};
use crate::errors::{InvalidError, InvalidMoveError};
use crate::game::Team;

verus! {

/// Number of tiles on a board.
pub const BOARD_SIZE: usize = 25;

/// Number of tiles of each team, and of grey tiles.
pub const GROUP_SIZE: usize = 8;

/// Relies on rand's `SliceRandom::shuffle` over the thread-local generator,
/// which only swaps entries: the result is a permutation of the input.
#[verifier::external_body]
fn shuffle_positions(v: &mut Vec<usize>)
    ensures
        final(v)@.len() == old(v)@.len(),
        final(v)@.to_multiset() == old(v)@.to_multiset(),
{
    v.shuffle(&mut rand::thread_rng());
}

/// What a tile is.
#[derive(Debug, Clone, Copy, PartialEq, Eq, Structural)]
pub enum TileClass {
    Danger,
    Grey,
    TeamOne,
    TeamTwo,
}

/// The whole board as one player sees it: every word, and the class of each
/// tile the player may see.
#[derive(Debug, Clone)]
pub struct FullBoardView {
    pub words: Vec<String>,
    pub tiles: Vec<Option<TileClass>>,
}

/// The part of the board that changes during play: the class of each tile
/// the player may see.
#[derive(Debug, Clone)]
pub struct MinimalBoardView {
    pub tiles: Vec<Option<TileClass>>,
}

/// A board of 25 words. Each position is the danger tile, grey, team one's
/// or team two's, fixed at construction; reveals are tracked as a bit mask.
#[derive(Debug)]
pub struct Board {
    words: Vec<String>,
    danger_index: u8,
    grey_indices: u32,
    team_one_indices: u32,
    team_two_indices: u32,
    unraveled_indices: u32,
}

impl Board {
    /// The words, in vocabulary order.
    pub closed spec fn word_list(&self) -> Seq<String> {
        self.words@
    }

    /// Position of the danger tile.
    pub closed spec fn danger(&self) -> int {
        self.danger_index as int
    }

    pub closed spec fn grey(&self) -> Set<int> {
        mask_set(self.grey_indices)
    }

    pub closed spec fn team_one(&self) -> Set<int> {
        mask_set(self.team_one_indices)
    }

    pub closed spec fn team_two(&self) -> Set<int> {
        mask_set(self.team_two_indices)
    }

    /// Positions revealed so far.
    pub closed spec fn revealed(&self) -> Set<int> {
        mask_set(self.unraveled_indices)
    }

    /// The tiles of a team.
    pub open spec fn tiles_of(&self, t: Team) -> Set<int> {
        match t {
            Team::TeamOne => self.team_one(),
            Team::TeamTwo => self.team_two(),
        }
    }

    /// Number of a team's tiles not revealed yet.
    pub open spec fn pending(&self, t: Team) -> nat {
        self.tiles_of(t).difference(self.revealed()).len()
    }

    /// Whether `i` may be revealed: a board position not revealed yet.
    pub open spec fn can_reveal(&self, i: int) -> bool {
        0 <= i < BOARD_SIZE && !self.revealed().contains(i)
    }

    /// Danger, grey, team one and team two split the 25 positions: each
    /// position lies in exactly one of them, and the three groups hold 8 each.
    pub open spec fn partitioned(&self) -> bool {
        &&& 0 <= self.danger() < BOARD_SIZE
        &&& forall|i: int|
            #![trigger self.grey().contains(i)]
            #![trigger self.team_one().contains(i)]
            #![trigger self.team_two().contains(i)]
            (i == self.danger() || self.grey().contains(i) || self.team_one().contains(i)
                || self.team_two().contains(i)) <==> 0 <= i < BOARD_SIZE
        &&& forall|i: int|
            #![trigger self.grey().contains(i)]
            #![trigger self.team_one().contains(i)]
            #![trigger self.team_two().contains(i)]
            !(self.grey().contains(i) && self.team_one().contains(i)) && !(self.grey().contains(
                i,
            ) && self.team_two().contains(i)) && !(self.team_one().contains(i)
                && self.team_two().contains(i))
        &&& !self.grey().contains(self.danger())
        &&& !self.team_one().contains(self.danger())
        &&& !self.team_two().contains(self.danger())
        &&& self.grey().finite() && self.grey().len() == GROUP_SIZE
        &&& self.team_one().finite() && self.team_one().len() == GROUP_SIZE
        &&& self.team_two().finite() && self.team_two().len() == GROUP_SIZE
    }

    /// The board's invariant: 25 words, a partition of the positions, and
    /// revealed positions on the board.
    pub open spec fn wf(&self) -> bool {
        &&& self.word_list().len() == BOARD_SIZE
        &&& self.partitioned()
        &&& self.revealed().finite()
        &&& forall|i: int| #[trigger] self.revealed().contains(i) ==> 0 <= i < BOARD_SIZE
    }

    /// The class of position `i`.
    pub open spec fn class_at(&self, i: int) -> TileClass {
        if i == self.danger() {
            TileClass::Danger
        } else if self.team_one().contains(i) {
            TileClass::TeamOne
        } else if self.team_two().contains(i) {
            TileClass::TeamTwo
        } else {
            TileClass::Grey
        }
    }

    /// What a player sees of position `i`: its class when the player is a
    /// spymaster or the tile is revealed, nothing otherwise.
    pub open spec fn seen_at(&self, i: int, spymaster: bool) -> Option<TileClass> {
        if spymaster || self.revealed().contains(i) {
            Some(self.class_at(i))
        } else {
            None
        }
    }

    /// The same words, classification and revealed positions.
    pub open spec fn same_state(&self, o: &Board) -> bool {
        self.same_layout(o) && self.revealed() == o.revealed()
    }

    /// The same words and classification; only what is revealed may differ.
    pub open spec fn same_layout(&self, o: &Board) -> bool {
        &&& self.word_list() == o.word_list()
        &&& self.danger() == o.danger()
        &&& self.grey() == o.grey()
        &&& self.team_one() == o.team_one()
        &&& self.team_two() == o.team_two()
    }
}

/// A shuffled `0..25` holds each position once.
proof fn lemma_permutation(before: Seq<usize>, after: Seq<usize>)
    requires
        before == Seq::new(BOARD_SIZE as nat, |k: int| k as usize),
        after.len() == BOARD_SIZE,
        after.to_multiset() == before.to_multiset(),
    ensures
        after.no_duplicates(),
        forall|k: int| 0 <= k < BOARD_SIZE ==> #[trigger] after[k] < BOARD_SIZE,
        forall|i: int| 0 <= i < BOARD_SIZE ==> lists(after, i),
{
    broadcast use group_to_multiset_ensures;

    assert(before.no_duplicates());
    before.lemma_multiset_has_no_duplicates();
    after.lemma_multiset_has_no_duplicates_conv();
    assert forall|k: int| 0 <= k < BOARD_SIZE implies #[trigger] after[k] < BOARD_SIZE by {
        assert(after.contains(after[k]));
        assert(after.to_multiset().count(after[k]) > 0);
        assert(before.to_multiset().count(after[k]) > 0);
        assert(before.contains(after[k]));
    }
    assert forall|i: int| 0 <= i < BOARD_SIZE implies lists(after, i) by {
        assert(before[i] == i as usize);
        assert(before.contains(i as usize));
        assert(before.to_multiset().count(i as usize) > 0);
        assert(after.to_multiset().count(i as usize) > 0);
        assert(after.contains(i as usize));
    }
}

/// A mask built from distinct positions has one bit per position.
proof fn lemma_group_size(s: Seq<usize>, m: u32)
    requires
        s.no_duplicates(),
        forall|k: int| 0 <= k < s.len() ==> #[trigger] s[k] < 32,
        forall|i: int| bit(m, i) <==> lists(s, i),
    ensures
        mask_set(m).finite(),
        mask_set(m).len() == s.len(),
{
    let t = s.map_values(|p: usize| p as int);
    assert forall|a: int, b: int| 0 <= a < t.len() && 0 <= b < t.len() && a != b implies t[a]
        != t[b] by {
        assert(s[a] != s[b]);
    }
    assert(t.no_duplicates());
    t.unique_seq_to_set();
    assert forall|i: int| mask_set(m).contains(i) <==> t.to_set().contains(i) by {
        if lists(s, i) {
            let j = choose|j: int| 0 <= j < s.len() && s[j] as int == i;
            assert(t[j] == i);
        }
        if t.contains(i) {
            let j = choose|j: int| 0 <= j < t.len() && t[j] == i;
            assert(s[j] as int == i);
        }
    }
    assert(mask_set(m) =~= t.to_set());
    lemma_mask_set_finite(m, 32);
}

/// The empty mask has no positions.
proof fn lemma_empty_mask()
    ensures
        mask_set(0) == Set::<int>::empty(),
{
    assert forall|i: int| !mask_set(0).contains(i) by {
        if 0 <= i < 32 {
            lemma_zero_bits(i as u32);
        }
    }
    assert(mask_set(0) =~= Set::<int>::empty());
}

impl Board {
    /// A board over a 25-word vocabulary, with its positions split at random
    /// into one danger tile and eight tiles each of grey, team one and team
    /// two, nothing revealed; an error for any other vocabulary size.
    pub fn new(vocab: &Vec<String>) -> (r: Result<Board, InvalidError>)
        ensures
            r is Err <==> vocab@.len() != BOARD_SIZE,
            r matches Ok(b) ==> {
                &&& b.wf()
                &&& b.word_list() == vocab@
                &&& b.revealed() == Set::<int>::empty()
            },
    {
        if vocab.len() != BOARD_SIZE {
            return Err(InvalidError::new("Vocab must be 25 words"));
        }
        let mut indices: Vec<usize> = Vec::new();
        let mut i: usize = 0;
        while i < BOARD_SIZE
            invariant
                i <= BOARD_SIZE,
                indices@ == Seq::new(i as nat, |k: int| k as usize),
            decreases BOARD_SIZE - i,
        {
            indices.push(i);
            i = i + 1;
            proof {
                assert(indices@ =~= Seq::new(i as nat, |k: int| k as usize));
            }
        }
        let ghost before = indices@;
        shuffle_positions(&mut indices);
        let ghost perm = indices@;
        proof {
            lemma_permutation(before, perm);
        }
        let all = indices.as_slice();
        let grey_pos = slice_subrange(all, 1, 1 + GROUP_SIZE);
        let one_pos = slice_subrange(all, 1 + GROUP_SIZE, 1 + 2 * GROUP_SIZE);
        let two_pos = slice_subrange(all, 1 + 2 * GROUP_SIZE, BOARD_SIZE);
        proof {
            assert forall|k: int| 0 <= k < grey_pos@.len() implies #[trigger] grey_pos@[k] < 32 by {
                assert(grey_pos@[k] == perm[k + 1]);
            }
            assert forall|k: int| 0 <= k < one_pos@.len() implies #[trigger] one_pos@[k] < 32 by {
                assert(one_pos@[k] == perm[k + 9]);
            }
            assert forall|k: int| 0 <= k < two_pos@.len() implies #[trigger] two_pos@[k] < 32 by {
                assert(two_pos@[k] == perm[k + 17]);
            }
        }
        let grey = match bitmap_for_pos(grey_pos) {
            Ok(m) => m,
            Err(e) => return Err(e),
        };
        let one = match bitmap_for_pos(one_pos) {
            Ok(m) => m,
            Err(e) => return Err(e),
        };
        let two = match bitmap_for_pos(two_pos) {
            Ok(m) => m,
            Err(e) => return Err(e),
        };
        let mut words: Vec<String> = Vec::new();
        let mut k: usize = 0;
        while k < vocab.len()
            invariant
                k <= vocab@.len(),
                words@ == vocab@.take(k as int),
            decreases vocab@.len() - k,
        {
            words.push(vocab[k].clone());
            k = k + 1;
            proof {
                assert(words@ =~= vocab@.take(k as int));
            }
        }
        proof {
            assert(vocab@.take(k as int) =~= vocab@);
        }
        let board = Board {
            words,
            danger_index: indices[0] as u8,
            grey_indices: grey,
            team_one_indices: one,
            team_two_indices: two,
            unraveled_indices: 0,
        };
        proof {
            lemma_empty_mask();
            lemma_group_size(grey_pos@, grey);
            lemma_group_size(one_pos@, one);
            lemma_group_size(two_pos@, two);
            let d = perm[0] as int;
            assert(board.danger() == d);
            // Where each position of the permutation went.
            assert forall|i: int|
                (i == d || board.grey().contains(i) || board.team_one().contains(i)
                    || board.team_two().contains(i)) <==> 0 <= i < BOARD_SIZE by {
                if 0 <= i < BOARD_SIZE {
                    assert(lists(perm, i));
                    let j = choose|j: int| 0 <= j < perm.len() && perm[j] as int == i;
                    if 1 <= j < 9 {
                        assert(grey_pos@[j - 1] == perm[j]);
                        assert(lists(grey_pos@, i));
                    } else if 9 <= j < 17 {
                        assert(one_pos@[j - 9] == perm[j]);
                        assert(lists(one_pos@, i));
                    } else if 17 <= j < 25 {
                        assert(two_pos@[j - 17] == perm[j]);
                        assert(lists(two_pos@, i));
                    }
                }
                if lists(grey_pos@, i) {
                    let j = choose|j: int| 0 <= j < grey_pos@.len() && grey_pos@[j] as int == i;
                    assert(grey_pos@[j] == perm[j + 1]);
                }
                if lists(one_pos@, i) {
                    let j = choose|j: int| 0 <= j < one_pos@.len() && one_pos@[j] as int == i;
                    assert(one_pos@[j] == perm[j + 9]);
                }
                if lists(two_pos@, i) {
                    let j = choose|j: int| 0 <= j < two_pos@.len() && two_pos@[j] as int == i;
                    assert(two_pos@[j] == perm[j + 17]);
                }
            }
            // Each position of the permutation went to one group only.
            assert forall|i: int|
                !(board.grey().contains(i) && board.team_one().contains(i)) && !(
                board.grey().contains(i) && board.team_two().contains(i)) && !(
                board.team_one().contains(i) && board.team_two().contains(i)) && i != d || !(
                board.grey().contains(i) || board.team_one().contains(i)
                    || board.team_two().contains(i)) by {
                if lists(grey_pos@, i) {
                    let j = choose|j: int| 0 <= j < grey_pos@.len() && grey_pos@[j] as int == i;
                    assert(grey_pos@[j] == perm[j + 1]);
                    if lists(one_pos@, i) {
                        let l = choose|l: int| 0 <= l < one_pos@.len() && one_pos@[l] as int == i;
                        assert(one_pos@[l] == perm[l + 9]);
                    }
                    if lists(two_pos@, i) {
                        let l = choose|l: int| 0 <= l < two_pos@.len() && two_pos@[l] as int == i;
                        assert(two_pos@[l] == perm[l + 17]);
                    }
                }
                if lists(one_pos@, i) {
                    let j = choose|j: int| 0 <= j < one_pos@.len() && one_pos@[j] as int == i;
                    assert(one_pos@[j] == perm[j + 9]);
                    if lists(two_pos@, i) {
                        let l = choose|l: int| 0 <= l < two_pos@.len() && two_pos@[l] as int == i;
                        assert(two_pos@[l] == perm[l + 17]);
                    }
                }
                if lists(two_pos@, i) {
                    let j = choose|j: int| 0 <= j < two_pos@.len() && two_pos@[j] as int == i;
                    assert(two_pos@[j] == perm[j + 17]);
                }
            }
            assert(!board.grey().contains(d));
            assert(!board.team_one().contains(d));
            assert(!board.team_two().contains(d));
        }
        Ok(board)
    }
}

/// A position is in the new mask exactly when it was in the old one or is `p`.
proof fn lemma_mask_insert(m: u32, p: usize)
    requires
        p < 32,
    ensures
        mask_set(m | (1u32 << p as u32)) == mask_set(m).insert(p as int),
{
    assert forall|i: int| mask_set(m | (1u32 << p as u32)).contains(i) <==> mask_set(m).insert(
        p as int,
    ).contains(i) by {
        if 0 <= i < 32 {
            lemma_or_bit(m, p as u32, i as u32);
        }
    }
    assert(mask_set(m | (1u32 << p as u32)) =~= mask_set(m).insert(p as int));
}

/// The positions of `t` left after clearing those of `r`.
proof fn lemma_mask_difference(t: u32, r: u32)
    ensures
        mask_set(t ^ (r & t)) == mask_set(t).difference(mask_set(r)),
{
    assert forall|i: int| mask_set(t ^ (r & t)).contains(i) <==> mask_set(t).difference(
        mask_set(r),
    ).contains(i) by {
        if 0 <= i < 32 {
            lemma_clear_bits(t, r, i as u32);
        }
    }
    assert(mask_set(t ^ (r & t)) =~= mask_set(t).difference(mask_set(r)));
}

/// Revealing a hidden position takes one from the pending count of the team
/// it belongs to, and leaves every other count as it was.
pub proof fn lemma_reveal_pending(b: Board, after: Board, i: int, t: Team)
    requires
        b.wf(),
        b.can_reveal(i),
        after.same_layout(&b),
        after.revealed() == b.revealed().insert(i),
    ensures
        b.tiles_of(t).contains(i) ==> after.pending(t) == b.pending(t) - 1,
        !b.tiles_of(t).contains(i) ==> after.pending(t) == b.pending(t),
        after.pending(t) <= b.pending(t),
{
    let a = b.tiles_of(t);
    assert(after.tiles_of(t) == a);
    let before_set = a.difference(b.revealed());
    let after_set = a.difference(after.revealed());
    assert(before_set.finite());
    if a.contains(i) {
        assert(after_set =~= before_set.remove(i));
    } else {
        assert(after_set =~= before_set);
    }
}

/// A team never has more than eight tiles pending.
pub proof fn lemma_pending_bound(b: Board, t: Team)
    requires
        b.wf(),
    ensures
        b.pending(t) <= GROUP_SIZE,
{
    lemma_len_subset(b.tiles_of(t).difference(b.revealed()), b.tiles_of(t));
}

/// Revealing the same position a second time is refused.
pub proof fn lemma_reveal_twice(b: Board, after: Board, i: int)
    requires
        b.can_reveal(i),
        after.revealed() == b.revealed().insert(i),
    ensures
        !after.can_reveal(i),
{
}

impl Board {
    /// A copy of the board.
    pub fn duplicate(&self) -> (r: Board)
        ensures
            r.same_state(self),
    {
        let words = self.copy_words();
        Board {
            words,
            danger_index: self.danger_index,
            grey_indices: self.grey_indices,
            team_one_indices: self.team_one_indices,
            team_two_indices: self.team_two_indices,
            unraveled_indices: self.unraveled_indices,
        }
    }

    /// A copy of the words.
    fn copy_words(&self) -> (r: Vec<String>)
        ensures
            r@ == self.word_list(),
    {
        let mut words: Vec<String> = Vec::new();
        let mut k: usize = 0;
        while k < self.words.len()
            invariant
                k <= self.words@.len(),
                words@ == self.words@.take(k as int),
            decreases self.words@.len() - k,
        {
            words.push(self.words[k].clone());
            k = k + 1;
            proof {
                assert(words@ =~= self.words@.take(k as int));
            }
        }
        proof {
            assert(self.words@.take(k as int) =~= self.words@);
        }
        words
    }

    /// The class of a board position.
    pub fn tile_class(&self, idx: usize) -> (r: TileClass)
        ensures
            r == self.class_at(idx as int),
    {
        if idx == self.danger_index as usize {
            TileClass::Danger
        } else if self.is_team_one_index(idx) {
            TileClass::TeamOne
        } else if self.is_team_two_index(idx) {
            TileClass::TeamTwo
        } else {
            TileClass::Grey
        }
    }

    /// What a player sees of each position.
    fn seen_tiles(&self, spymaster: bool) -> (r: Vec<Option<TileClass>>)
        ensures
            r@.len() == BOARD_SIZE,
            forall|i: int| 0 <= i < BOARD_SIZE ==> r@[i] == self.seen_at(i, spymaster),
    {
        let mut tiles: Vec<Option<TileClass>> = Vec::new();
        let mut i: usize = 0;
        while i < BOARD_SIZE
            invariant
                i <= BOARD_SIZE,
                tiles@.len() == i,
                forall|j: int| 0 <= j < i ==> tiles@[j] == self.seen_at(j, spymaster),
            decreases BOARD_SIZE - i,
        {
            if spymaster || self.is_word_unravelled(i) {
                tiles.push(Some(self.tile_class(i)));
            } else {
                tiles.push(None);
            }
            i = i + 1;
        }
        tiles
    }

    /// The board as a spymaster sees it: every class.
    pub fn get_full_spymaster_view(&self) -> (r: FullBoardView)
        ensures
            r.words@ == self.word_list(),
            r.tiles@.len() == BOARD_SIZE,
            forall|i: int| 0 <= i < BOARD_SIZE ==> r.tiles@[i] == self.seen_at(i, true),
    {
        FullBoardView { words: self.copy_words(), tiles: self.seen_tiles(true) }
    }

    /// The board as a regular player sees it: classes of revealed tiles only.
    pub fn get_full_regular_player_view(&self) -> (r: FullBoardView)
        ensures
            r.words@ == self.word_list(),
            r.tiles@.len() == BOARD_SIZE,
            forall|i: int| 0 <= i < BOARD_SIZE ==> r.tiles@[i] == self.seen_at(i, false),
    {
        FullBoardView { words: self.copy_words(), tiles: self.seen_tiles(false) }
    }

    /// The classes a player sees, without the words.
    pub fn get_minimal_view(&self, spymaster: bool) -> (r: MinimalBoardView)
        ensures
            r.tiles@.len() == BOARD_SIZE,
            forall|i: int| 0 <= i < BOARD_SIZE ==> r.tiles@[i] == self.seen_at(i, spymaster),
    {
        MinimalBoardView { tiles: self.seen_tiles(spymaster) }
    }

    /// The words, in vocabulary order.
    pub fn words(&self) -> (r: &Vec<String>)
        ensures
            r@ == self.word_list(),
    {
        &self.words
    }

    /// The grey positions, in increasing order.
    pub fn get_grey_indices_list(&self) -> (r: Vec<usize>)
        ensures
            forall|k: int| 0 <= k < r@.len() ==> self.grey().contains(#[trigger] r@[k] as int),
            forall|i: int| self.grey().contains(i) ==> lists(r@, i),
            forall|a: int, b: int| 0 <= a < b < r@.len() ==> r@[a] < r@[b],
    {
        pos_from_bitmap(&self.grey_indices)
    }

    /// Team one's positions, in increasing order.
    pub fn get_team_one_indices_list(&self) -> (r: Vec<usize>)
        ensures
            forall|k: int| 0 <= k < r@.len() ==> self.team_one().contains(#[trigger] r@[k] as int),
            forall|i: int| self.team_one().contains(i) ==> lists(r@, i),
            forall|a: int, b: int| 0 <= a < b < r@.len() ==> r@[a] < r@[b],
    {
        pos_from_bitmap(&self.team_one_indices)
    }

    /// Team two's positions, in increasing order.
    pub fn get_team_two_indices_list(&self) -> (r: Vec<usize>)
        ensures
            forall|k: int| 0 <= k < r@.len() ==> self.team_two().contains(#[trigger] r@[k] as int),
            forall|i: int| self.team_two().contains(i) ==> lists(r@, i),
            forall|a: int, b: int| 0 <= a < b < r@.len() ==> r@[a] < r@[b],
    {
        pos_from_bitmap(&self.team_two_indices)
    }

    /// Position of the danger tile.
    pub fn danger_index(&self) -> (r: u8)
        ensures
            r as int == self.danger(),
    {
        self.danger_index
    }

    /// Whether position `idx` has been revealed.
    pub fn is_word_unravelled(&self, idx: usize) -> (r: bool)
        ensures
            r == self.revealed().contains(idx as int),
    {
        is_bit_set(&self.unraveled_indices, idx)
    }

    /// Reveals position `idx`. Fails, changing nothing, when `idx` is off
    /// the board or already revealed.
    pub fn unravel_word(&mut self, idx: usize) -> (r: Result<(), InvalidMoveError>)
        requires
            old(self).wf(),
        ensures
            final(self).wf(),
            r is Err <==> !old(self).can_reveal(idx as int),
            r matches Err(e) ==> e.msg@ == (if idx >= BOARD_SIZE {
                "Tile index is off the board."@
            } else {
                "Trying to unveil already known word."@
            }),
            r is Err ==> *final(self) == *old(self),
            r is Ok ==> final(self).same_layout(old(self)),
            r is Ok ==> final(self).revealed() == old(self).revealed().insert(idx as int),
            r is Ok ==> forall|t: Team|
                #![trigger final(self).pending(t)]
                final(self).pending(t) == old(self).pending(t) - (if old(self).tiles_of(t).contains(
                    idx as int,
                ) {
                    1int
                } else {
                    0int
                }),
    {
        if idx >= BOARD_SIZE {
            return Err(InvalidMoveError::new("Tile index is off the board."));
        }
        if self.is_word_unravelled(idx) {
            return Err(InvalidMoveError::new("Trying to unveil already known word."));
        }
        let ghost b = *self;
        proof {
            lemma_mask_insert(self.unraveled_indices, idx);
        }
        self.unraveled_indices = self.unraveled_indices | (1u32 << idx as u32);
        proof {
            assert forall|t: Team| #![trigger self.pending(t)]
                self.pending(t) == b.pending(t) - (if b.tiles_of(t).contains(idx as int) {
                    1int
                } else {
                    0int
                }) by {
                lemma_reveal_pending(b, *self, idx as int, t);
            }
        }
        Ok(())
    }

    /// Whether some position other than the danger tile is still hidden.
    pub fn has_hidden_tiles(&self) -> (r: bool)
        ensures
            r == exists|i: int|
                0 <= i < BOARD_SIZE && i != self.danger() && !#[trigger] self.revealed().contains(i),
    {
        let mut i: usize = 0;
        while i < BOARD_SIZE
            invariant
                i <= BOARD_SIZE,
                forall|j: int|
                    0 <= j < i && j != self.danger() ==> #[trigger] self.revealed().contains(j),
            decreases BOARD_SIZE - i,
        {
            if i != self.danger_index as usize && !self.is_word_unravelled(i) {
                return true;
            }
            i = i + 1;
        }
        false
    }

    /// Number of team one's tiles not revealed yet.
    pub fn get_team_one_pending_size(&self) -> (r: u32)
        ensures
            r == self.pending(Team::TeamOne),
    {
        proof {
            lemma_mask_difference(self.team_one_indices, self.unraveled_indices);
        }
        num_ones(&(self.team_one_indices ^ (self.unraveled_indices & self.team_one_indices)))
    }

    /// Number of team two's tiles not revealed yet.
    pub fn get_team_two_pending_size(&self) -> (r: u32)
        ensures
            r == self.pending(Team::TeamTwo),
    {
        proof {
            lemma_mask_difference(self.team_two_indices, self.unraveled_indices);
        }
        num_ones(&(self.team_two_indices ^ (self.unraveled_indices & self.team_two_indices)))
    }

    /// Number of a team's tiles not revealed yet.
    pub fn pending_size(&self, t: Team) -> (r: u32)
        ensures
            r == self.pending(t),
    {
        match t {
            Team::TeamOne => self.get_team_one_pending_size(),
            Team::TeamTwo => self.get_team_two_pending_size(),
        }
    }

    pub fn is_team_one_index(&self, idx: usize) -> (r: bool)
        ensures
            r == self.team_one().contains(idx as int),
    {
        is_bit_set(&self.team_one_indices, idx)
    }

    pub fn is_team_two_index(&self, idx: usize) -> (r: bool)
        ensures
            r == self.team_two().contains(idx as int),
    {
        is_bit_set(&self.team_two_indices, idx)
    }

    pub fn is_grey_index(&self, idx: usize) -> (r: bool)
        ensures
            r == self.grey().contains(idx as int),
    {
        is_bit_set(&self.grey_indices, idx)
    }
}

} // verus!
