//! The table: a bag of tiles, four seats, and what a placement scores.

use rand::{thread_rng, Rng};
use vstd::prelude::*;
use vstd::slice::slice_to_vec;

verus! {

/// The number of tiles a hand can hold.
pub const HAND_CAPACITY: usize = 7;

/// The number of seats at the table.
pub const SEATS: usize = 4;

/// The blank tile.
pub const SPACE: char = ' ';

/// The tiles a new bag holds: two blanks and the letters, each as often as
/// the game has it.
pub const DEFAULT_BAG: [char; 100] = [
    SPACE, SPACE, 'A', 'A', 'A', 'A', 'A', 'A', 'A', 'A', 'A', 'B', 'B', 'C', 'C', 'D', 'D', 'D',
    'D', 'E', 'E', 'E', 'E', 'E', 'E', 'E', 'E', 'E', 'E', 'E', 'E', 'F', 'F', 'G', 'G', 'G', 'H',
    'H', 'I', 'I', 'I', 'I', 'I', 'I', 'I', 'I', 'I', 'J', 'K', 'L', 'L', 'L', 'L', 'M', 'M', 'N',
    'N', 'N', 'N', 'N', 'N', 'O', 'O', 'O', 'O', 'O', 'O', 'O', 'O', 'P', 'P', 'Q', 'R', 'R', 'R',
    'R', 'R', 'R', 'S', 'S', 'S', 'S', 'T', 'T', 'T', 'T', 'T', 'T', 'U', 'U', 'U', 'U', 'V', 'V',
    'W', 'W', 'X', 'Y', 'Y', 'Z',
];

/// A player at the table.
pub struct Player {
    username: &'static str,
    score: u32,
    hand: Vec<char>,
}

/// The mathematical value of a [`Player`].
pub struct PlayerView {
    pub username: Seq<char>,
    pub score: u32,
    pub hand: Seq<char>,
}

impl View for Player {
    type V = PlayerView;

    closed spec fn view(&self) -> PlayerView {
        PlayerView { username: self.username@, score: self.score, hand: self.hand@ }
    }
}

/// The player after one more tile has been offered: the tile joins the hand
/// unless the hand is full.
pub open spec fn after_offer(before: PlayerView, tile: char) -> PlayerView {
    if before.hand.len() < HAND_CAPACITY {
        PlayerView { hand: before.hand.push(tile), ..before }
    } else {
        before
    }
}

impl Player {
    #[verifier::type_invariant]
    spec fn hand_within_capacity(&self) -> bool {
        self.hand@.len() <= HAND_CAPACITY
    }

    /// The name of the player.
    pub fn username(&self) -> (username: &'static str)
        ensures
            username@ == self@.username,
    {
        self.username
    }

    /// What the player has scored.
    pub fn score(&self) -> (score: u32)
        ensures
            score == self@.score,
    {
        self.score
    }

    /// The tiles the player holds, never more than a hand can hold.
    pub fn hand(&self) -> (hand: &Vec<char>)
        ensures
            hand@ == self@.hand,
            hand@.len() <= HAND_CAPACITY,
    {
        proof {
            use_type_invariant(self);
        }
        &self.hand
    }

    /// A player with no points and an empty hand.
    pub fn new(username: &'static str) -> (player: Player)
        ensures
            player@ == (PlayerView { username: username@, score: 0, hand: Seq::empty() }),
    {
        Player { username, score: 0, hand: Vec::new() }
    }

    /// Puts a tile into the hand and says so, or leaves a full hand as it is.
    pub fn insert_into_hand(&mut self, character: char) -> (inserted: bool)
        ensures
            inserted == (old(self)@.hand.len() < HAND_CAPACITY),
            final(self)@ == after_offer(old(self)@, character),
    {
        if self.hand.len() < HAND_CAPACITY {
            let mut hand: Vec<char> = Vec::new();
            core::mem::swap(&mut self.hand, &mut hand);
            hand.push(character);
            self.hand = hand;
            true
        } else {
            false
        }
    }
}

/// The state of one game: the bag and who sits where.
pub struct GameState {
    bag: Vec<char>,
    players: [Option<Player>; 4],
}

/// The mathematical value of a [`GameState`].
pub struct GameStateView {
    pub bag: Seq<char>,
    pub seats: Seq<Option<PlayerView>>,
}

/// Whether seat `i` is empty and every seat before it is taken.
pub open spec fn first_empty(seats: Seq<Option<PlayerView>>, i: int) -> bool {
    &&& 0 <= i < seats.len()
    &&& seats[i] is None
    &&& forall|j: int| 0 <= j < i ==> seats[j] is Some
}

impl View for GameState {
    type V = GameStateView;

    closed spec fn view(&self) -> GameStateView {
        GameStateView {
            bag: self.bag@,
            seats: Seq::new(
                SEATS as nat,
                |i: int|
                    match self.players@[i] {
                        Some(p) => Some(p@),
                        None => None,
                    },
            ),
        }
    }
}

/// `rand::thread_rng().gen_range(0..upper)`: some index below `upper`, and
/// nothing is said of which. The outside function panics on an empty range.
#[verifier::external_body]
fn random_below(upper: usize) -> (index: usize)
    requires
        upper > 0,
    ensures
        index < upper,
{
    thread_rng().gen_range(0..upper)
}

impl GameState {
    /// The tiles in the bag.
    pub fn bag(&self) -> (bag: &Vec<char>)
        ensures
            bag@ == self@.bag,
    {
        &self.bag
    }

    /// Who sits at a seat, if anybody does. There is no seat past the last.
    pub fn player_at(&self, seat: usize) -> (player: Option<&Player>)
        ensures
            self@.seats.len() == SEATS,
            seat >= SEATS ==> player is None,
            seat < SEATS ==> match player {
                Some(p) => self@.seats[seat as int] == Some(p@),
                None => self@.seats[seat as int] is None,
            },
    {
        if seat < SEATS {
            self.players[seat].as_ref()
        } else {
            None
        }
    }

    /// A game with a full bag and nobody seated.
    pub fn new() -> (game: GameState)
        ensures
            game@.bag == DEFAULT_BAG@,
            game@.seats == Seq::new(SEATS as nat, |i: int| None::<PlayerView>),
    {
        let game = GameState {
            bag: slice_to_vec(DEFAULT_BAG.as_slice()),
            players: [None, None, None, None],
        };
        assert(game@.seats =~= Seq::new(SEATS as nat, |i: int| None::<PlayerView>));
        game
    }

    /// Prepares a game for play. There is nothing to prepare yet.
    pub fn initialize(&mut self)
        ensures
            *final(self) == *old(self),
    {
    }

    /// Seats a player at the first empty seat and says so, or turns the
    /// player away from a full table.
    pub fn add_player(&mut self, player: Player) -> (seated: bool)
        ensures
            final(self)@.bag == old(self)@.bag,
            final(self)@.seats.len() == SEATS,
            seated == exists|i: int| first_empty(old(self)@.seats, i),
            forall|i: int|
                first_empty(old(self)@.seats, i) ==> final(self)@.seats == old(self)@.seats.update(
                    i,
                    Some(player@),
                ),
            !seated ==> final(self)@ == old(self)@,
    {
        let mut slot: usize = 0;
        while slot < SEATS
            invariant
                slot <= SEATS,
                *self == *old(self),
                forall|j: int| 0 <= j < slot ==> self@.seats[j] is Some,
            decreases SEATS - slot,
        {
            if self.players[slot].is_none() {
                self.players[slot] = Some(player);
                assert(first_empty(old(self)@.seats, slot as int));
                assert(self@.seats =~= old(self)@.seats.update(slot as int, Some(player@)));
                assert forall|i: int| first_empty(old(self)@.seats, i) implies i == slot by {
                    if i < slot {
                    } else if i > slot {
                        assert(old(self)@.seats[slot as int] is None);
                    }
                }
                return true;
            }
            slot = slot + 1;
        }
        false
    }

    /// Offers the tile at `index` of the bag to a player. An index outside
    /// the bag offers nothing. The tile stays in the bag.
    pub fn draw_at(&self, index: usize, player: &mut Player) -> (drawn: bool)
        ensures
            index < self@.bag.len() ==> {
                &&& drawn == (old(player)@.hand.len() < HAND_CAPACITY)
                &&& final(player)@ == after_offer(old(player)@, self@.bag[index as int])
            },
            index >= self@.bag.len() ==> !drawn && final(player)@ == old(player)@,
    {
        if index < self.bag.len() {
            player.insert_into_hand(self.bag[index])
        } else {
            false
        }
    }

    /// Offers a tile picked at random to a player: any tile of the bag but
    /// the last. The tile stays in the bag.
    pub fn draw(&mut self, player: &mut Player) -> (drawn: bool)
        requires
            old(self)@.bag.len() >= 2,
        ensures
            final(self)@ == old(self)@,
            drawn == (old(player)@.hand.len() < HAND_CAPACITY),
            exists|i: int|
                0 <= i < old(self)@.bag.len() - 1 && final(player)@ == after_offer(
                    old(player)@,
                    #[trigger] old(self)@.bag[i],
                ),
    {
        let index = random_below(self.bag.len() - 1);
        self.draw_at(index, player)
    }
}

/// What a tile is worth.
pub open spec fn letter_score(character: char) -> nat {
    if character == 'E' || character == 'A' || character == 'I' || character == 'O' || character
        == 'N' || character == 'R' || character == 'T' || character == 'L' || character == 'S'
        || character == 'U' {
        1
    } else if character == 'D' || character == 'G' {
        2
    } else if character == 'B' || character == 'C' || character == 'M' || character == 'P' {
        3
    } else if character == 'F' || character == 'H' || character == 'V' || character == 'W'
        || character == 'Y' {
        4
    } else if character == 'K' {
        5
    } else if character == 'J' || character == 'X' {
        8
    } else if character == 'Q' || character == 'Z' {
        10
    } else {
        0
    }
}

/// What a run of tiles is worth: the sum of what each is worth.
pub open spec fn placement_score(characters: Seq<char>) -> nat
    decreases characters.len(),
{
    if characters.len() == 0 {
        0
    } else {
        placement_score(characters.drop_last()) + letter_score(characters.last())
    }
}

/// What a tile is worth.
pub fn get_character_score(character: char) -> (score: u32)
    ensures
        score == letter_score(character),
{
    match character {
        'E' | 'A' | 'I' | 'O' | 'N' | 'R' | 'T' | 'L' | 'S' | 'U' => 1,
        'D' | 'G' => 2,
        'B' | 'C' | 'M' | 'P' => 3,
        'F' | 'H' | 'V' | 'W' | 'Y' => 4,
        'K' => 5,
        'J' | 'X' => 8,
        'Q' | 'Z' => 10,
        _ => 0,
    }
}

/// What a run of tiles is worth.
pub fn calculate_score_from_placement(characters: Vec<char>) -> (score: u32)
    requires
        placement_score(characters@) <= u32::MAX,
    ensures
        score == placement_score(characters@),
{
    let mut score: u32 = 0;
    let mut i: usize = 0;
    while i < characters.len()
        invariant
            i <= characters@.len(),
            score == placement_score(characters@.take(i as int)),
            placement_score(characters@) <= u32::MAX,
        decreases characters@.len() - i,
    {
        proof {
            assert(characters@.take(i + 1).drop_last() =~= characters@.take(i as int));
            lemma_score_grows(characters@, i + 1);
        }
        score = score + get_character_score(characters[i]);
        i = i + 1;
    }
    assert(characters@.take(i as int) =~= characters@);
    score
}

/// A run of tiles is worth at least as much as any of its beginnings.
pub proof fn lemma_score_grows(characters: Seq<char>, n: int)
    requires
        0 <= n <= characters.len(),
    ensures
        placement_score(characters.take(n)) <= placement_score(characters),
    decreases characters.len() - n,
{
    if n < characters.len() {
        lemma_score_grows(characters, n + 1);
        assert(characters.take(n + 1).drop_last() =~= characters.take(n));
    } else {
        assert(characters.take(n) =~= characters);
    }
}

} // verus!
