//! A bot that looks a fixed number of plays ahead: minimax with alpha-beta
//! pruning. The attackers maximise the score and the defenders minimise it.

use rand::rngs::ThreadRng;
use rand::seq::SliceRandom;
use rayon::iter::{IntoParallelRefIterator, ParallelIterator};
use vstd::prelude::*;

use crate::board::{on_board, Position, SIDE};
use crate::laws::lemma_play_keeps_sound;
use crate::piece::Piece;
use crate::rules::{
    after_play, event_of, is_win, king_escaped, legal_play, lists_plays, other_side, passed_on,
    side_by_side, sound, stuck, GameView,
};
use crate::state::{GameState, Play, Player};

verus! {

/// The side of the search that a node belongs to.
#[derive(Clone, Copy, Debug, PartialEq, Eq, Structural)]
pub enum MinMaxPlayer {
    /// Attackers maximise
    Maximising,
    /// Defenders minimise
    Minimising,
}

/// The number of plays that the bot looks ahead.
pub const SEARCH_DEPTH: u8 = 3;

/// The side of the search that moves after a given one.
pub open spec fn other_role(player: MinMaxPlayer) -> MinMaxPlayer {
    match player {
        MinMaxPlayer::Maximising => MinMaxPlayer::Minimising,
        MinMaxPlayer::Minimising => MinMaxPlayer::Maximising,
    }
}

/// The side of the search that a side of the game takes.
pub open spec fn role_of(turn: Player) -> MinMaxPlayer {
    match turn {
        Player::Attacker => MinMaxPlayer::Maximising,
        Player::Defender => MinMaxPlayer::Minimising,
    }
}

/// The score of a game that a side has won: the highest there is for the
/// attackers, the lowest for the defenders.
pub open spec fn won_score(winner: Player) -> int {
    match winner {
        Player::Attacker => i8::MAX as int,
        Player::Defender => i8::MIN as int,
    }
}

/// The score that a side of the search likes best.
pub open spec fn best_score(player: MinMaxPlayer) -> int {
    match player {
        MinMaxPlayer::Maximising => i8::MAX as int,
        MinMaxPlayer::Minimising => i8::MIN as int,
    }
}

/// The score that a side of the search likes least.
pub open spec fn worst_score(player: MinMaxPlayer) -> int {
    best_score(other_role(player))
}

/// The one of two scores that a side of the search prefers.
pub open spec fn preferred(player: MinMaxPlayer, first: int, second: int) -> int {
    match player {
        MinMaxPlayer::Maximising => if first >= second {
            first
        } else {
            second
        },
        MinMaxPlayer::Minimising => if first <= second {
            first
        } else {
            second
        },
    }
}

/// How often a piece occurs among the dead.
pub open spec fn count_of(dead: Seq<Piece>, piece: Piece) -> nat
    decreases dead.len(),
{
    if dead.len() == 0 {
        0
    } else {
        count_of(dead.drop_last(), piece) + if dead.last() == piece {
            1nat
        } else {
            0nat
        }
    }
}

/// The material score: the dead defenders less the dead attackers.
pub open spec fn material(dead: Seq<Piece>) -> int {
    count_of(dead, Piece::Defender) - count_of(dead, Piece::Attacker)
}

/// Whether the side to move can win with one play of the kind that the
/// search looks at once its depth is used up: for the defenders a play of
/// the king, for the attackers a play that ends beside the king.
pub open spec fn wins_at_once(game: GameView, player: MinMaxPlayer) -> bool {
    exists|play: Play| #[trigger] wins_with(game, player, play)
}

/// Whether a play is of the kind that the search looks at once its depth is
/// used up, and wins the game for the side that makes it.
pub open spec fn wins_with(game: GameView, player: MinMaxPlayer, play: Play) -> bool {
    &&& legal_play(game, play)
    &&& match player {
        MinMaxPlayer::Minimising => play.from == game.king && after_play(game, play).winner
            == Some(Player::Defender),
        MinMaxPlayer::Maximising => side_by_side(play.to, game.king) && after_play(
            game,
            play,
        ).winner == Some(Player::Attacker),
    }
}

/// The score of a game that is looked at no further: the best score for the
/// side to move if it can win at once, otherwise the material score.
pub open spec fn leaf_score(game: GameView, player: MinMaxPlayer) -> int {
    if wins_at_once(game, player) {
        best_score(player)
    } else {
        material(game.dead)
    }
}

/// The number of plays that can be written on the board, legal or not.
pub open spec fn play_count() -> nat {
    14641
}

/// The play with a given number, numbered by the four coordinates.
pub open spec fn play_at(index: int) -> Play {
    Play {
        from: ((index / 1331) as u8, (index / 121 % 11) as u8),
        to: ((index / 11 % 11) as u8, (index % 11) as u8),
    }
}

/// The number of a play whose squares lie on the board.
pub open spec fn play_index(play: Play) -> int {
    ((play.from.0 * SIDE + play.from.1) * SIDE + play.to.0) * SIDE + play.to.1
}

/// The score of a game by exhaustive search to a depth: the score of the
/// winner if there is one; the leaf score when the depth is used up;
/// otherwise the score that the side to move prefers among those of the
/// games that its legal plays lead to.
pub open spec fn minimax(game: GameView, depth: nat, player: MinMaxPlayer) -> int
    decreases depth, play_count() + 1,
{
    match game.winner {
        Some(winner) => won_score(winner),
        None => if depth == 0 {
            leaf_score(game, player)
        } else {
            best_among(game, depth, player, play_count())
        },
    }
}

/// The score that a side prefers among those of the games that its legal
/// plays with a number below `count` lead to; the score it likes least if
/// there is no such play.
pub open spec fn best_among(game: GameView, depth: nat, player: MinMaxPlayer, count: nat) -> int
    decreases depth, count,
{
    if count == 0 || depth == 0 {
        worst_score(player)
    } else {
        let rest = best_among(game, depth, player, (count - 1) as nat);
        let play = play_at(count - 1);
        if legal_play(game, play) {
            preferred(
                player,
                rest,
                minimax(after_play(game, play), (depth - 1) as nat, other_role(player)),
            )
        } else {
            rest
        }
    }
}

/// The score of a play: the score, by exhaustive search one play less deep,
/// of the game that it leads to.
pub open spec fn play_score(game: GameView, depth: nat, player: MinMaxPlayer, play: Play) -> int {
    minimax(after_play(game, play), (depth - 1) as nat, other_role(player))
}

/// Every play on the board has a number, and the number names it.
pub proof fn lemma_play_numbered(play: Play)
    requires
        on_board(play.from),
        on_board(play.to),
    ensures
        0 <= play_index(play) < play_count(),
        play_at(play_index(play)) == play,
{
    let index = play_index(play);
    let a = play.from.0 as int;
    let b = play.from.1 as int;
    let c = play.to.0 as int;
    let d = play.to.1 as int;
    assert(index == a * 1331 + b * 121 + c * 11 + d);
    assert(index / 1331 == a);
    assert(index / 121 == a * 11 + b);
    assert(index / 11 == a * 121 + b * 11 + c);
}

/// No more pieces of a kind are among the dead than there are dead.
pub proof fn lemma_count_of_bound(dead: Seq<Piece>, piece: Piece)
    ensures
        count_of(dead, piece) <= dead.len(),
    decreases dead.len(),
{
    if dead.len() > 0 {
        lemma_count_of_bound(dead.drop_last(), piece);
    }
}

/// The scores of a sound game lie between the two winning scores.
pub proof fn lemma_score_range(game: GameView, depth: nat, player: MinMaxPlayer)
    requires
        sound(game),
    ensures
        i8::MIN <= minimax(game, depth, player) <= i8::MAX,
    decreases depth, play_count() + 1,
{
    if game.winner.is_none() {
        if depth == 0 {
            lemma_count_of_bound(game.dead, Piece::Defender);
            lemma_count_of_bound(game.dead, Piece::Attacker);
        } else {
            lemma_best_range(game, depth, player, play_count());
        }
    }
}

/// The preferred score among the plays of a sound game lies between the two
/// winning scores.
pub proof fn lemma_best_range(game: GameView, depth: nat, player: MinMaxPlayer, count: nat)
    requires
        sound(game),
    ensures
        i8::MIN <= best_among(game, depth, player, count) <= i8::MAX,
    decreases depth, count,
{
    if count > 0 && depth > 0 {
        lemma_best_range(game, depth, player, (count - 1) as nat);
        let play = play_at(count - 1);
        if legal_play(game, play) {
            lemma_play_keeps_sound(game, play);
            lemma_score_range(after_play(game, play), (depth - 1) as nat, other_role(player));
        }
    }
}

/// The preferred score among the plays below a number is at least as good,
/// for the side that prefers it, as the score of each legal play below that
/// number.
pub proof fn lemma_best_bounds(
    game: GameView,
    depth: nat,
    player: MinMaxPlayer,
    count: nat,
    play: Play,
)
    requires
        depth > 0,
        legal_play(game, play),
        play_index(play) < count,
    ensures
        preferred(
            player,
            best_among(game, depth, player, count),
            play_score(game, depth, player, play),
        ) == best_among(game, depth, player, count),
    decreases count,
{
    lemma_play_numbered(play);
    if play_index(play) < count - 1 {
        lemma_best_bounds(game, depth, player, (count - 1) as nat, play);
    }
}

/// The preferred score among the plays below a number is the score of a
/// legal play below that number, unless it is the score that the side likes
/// least.
pub proof fn lemma_best_attained(game: GameView, depth: nat, player: MinMaxPlayer, count: nat)
    requires
        depth > 0,
    ensures
        best_among(game, depth, player, count) == worst_score(player) || exists|play: Play|
            legal_play(game, play) && #[trigger] play_score(game, depth, player, play)
                == best_among(game, depth, player, count),
    decreases count,
{
    if count > 0 {
        lemma_best_attained(game, depth, player, (count - 1) as nat);
        let play = play_at(count - 1);
        let rest = best_among(game, depth, player, (count - 1) as nat);
        if legal_play(game, play) && best_among(game, depth, player, count) != rest {
            assert(play_score(game, depth, player, play) == best_among(
                game,
                depth,
                player,
                count,
            ));
        }
    }
}

/// Whether the first score is strictly better than the second for a side of
/// the search.
pub open spec fn beats(player: MinMaxPlayer, first: int, second: int) -> bool {
    match player {
        MinMaxPlayer::Maximising => first > second,
        MinMaxPlayer::Minimising => first < second,
    }
}

/// What a search within a window tells about the score `exact` that an
/// exhaustive search finds: a result inside the window is that score; a
/// result at or below `alpha` is no lower than it; a result at or above
/// `beta` is no higher than it.
pub open spec fn within_window(result: int, exact: int, alpha: int, beta: int) -> bool {
    &&& result <= alpha ==> exact <= result
    &&& result >= beta ==> exact >= result
    &&& alpha < result < beta ==> result == exact
}

/// What holds while a node is searched, after the first `done` of its plays:
/// `best` is the preferred result so far, `own` the bound that the side to
/// move started from and `limit` the bound at which it stops. While `best`
/// has not reached `limit`, none of the plays looked at scores better than
/// `best`, and one of them scores `best` if `best` is better than `own`.
/// Once `best` has reached `limit`, one of the plays scores no worse.
pub open spec fn searched(
    game: GameView,
    depth: nat,
    player: MinMaxPlayer,
    plays: Seq<Play>,
    done: int,
    best: int,
    own: int,
    limit: int,
) -> bool {
    if beats(player, limit, best) {
        &&& forall|j: int|
            0 <= j < done ==> !beats(
                player,
                #[trigger] play_score(game, depth, player, plays[j]),
                best,
            )
        &&& beats(player, best, own) ==> exists|j: int|
            0 <= j < done && #[trigger] play_score(game, depth, player, plays[j]) == best
    } else {
        exists|j: int|
            0 <= j < done && !beats(
                player,
                best,
                #[trigger] play_score(game, depth, player, plays[j]),
            )
    }
}

/// A search with the window fully open finds the score that an exhaustive
/// search finds.
pub proof fn law_open_window_is_exact(result: int, exact: int)
    requires
        i8::MIN <= result <= i8::MAX,
        i8::MIN <= exact <= i8::MAX,
        within_window(result, exact, i8::MIN as int, i8::MAX as int),
    ensures
        result == exact,
{
}

/// The bound that the side to move raises.
pub open spec fn own_bound(player: MinMaxPlayer, alpha: int, beta: int) -> int {
    match player {
        MinMaxPlayer::Maximising => alpha,
        MinMaxPlayer::Minimising => beta,
    }
}

/// The bound at which the side to move stops looking.
pub open spec fn limit_bound(player: MinMaxPlayer, alpha: int, beta: int) -> int {
    match player {
        MinMaxPlayer::Maximising => beta,
        MinMaxPlayer::Minimising => alpha,
    }
}

/// Looking at one more play keeps what holds while a node is searched.
pub proof fn lemma_search_step(
    game: GameView,
    depth: nat,
    player: MinMaxPlayer,
    plays: Seq<Play>,
    done: int,
    best: int,
    alpha: int,
    beta: int,
    result: int,
)
    requires
        0 <= done < plays.len(),
        alpha < beta,
        searched(
            game,
            depth,
            player,
            plays,
            done,
            best,
            own_bound(player, alpha, beta),
            limit_bound(player, alpha, beta),
        ),
        beats(player, limit_bound(player, alpha, beta), best),
        !beats(player, worst_score(player), best),
        match player {
            MinMaxPlayer::Maximising => within_window(
                result,
                play_score(game, depth, player, plays[done]),
                preferred(player, alpha, best),
                beta,
            ),
            MinMaxPlayer::Minimising => within_window(
                result,
                play_score(game, depth, player, plays[done]),
                alpha,
                preferred(player, beta, best),
            ),
        },
    ensures
        searched(
            game,
            depth,
            player,
            plays,
            done + 1,
            preferred(player, best, result),
            own_bound(player, alpha, beta),
            limit_bound(player, alpha, beta),
        ),
{
    let own = own_bound(player, alpha, beta);
    let limit = limit_bound(player, alpha, beta);
    let next = preferred(player, best, result);
    let score = play_score(game, depth, player, plays[done]);
    if beats(player, limit, next) {
        assert forall|j: int| 0 <= j < done + 1 implies !beats(
            player,
            #[trigger] play_score(game, depth, player, plays[j]),
            next,
        ) by {
            if j < done {
                assert(!beats(player, play_score(game, depth, player, plays[j]), best));
            }
        }
        if beats(player, next, own) {
            if next == best {
                let j = choose|j: int|
                    0 <= j < done && #[trigger] play_score(game, depth, player, plays[j]) == best;
                assert(0 <= j < done + 1 && play_score(game, depth, player, plays[j]) == next);
            } else {
                assert(score == next);
                assert(0 <= done < done + 1 && play_score(game, depth, player, plays[done])
                    == next);
            }
        }
    } else {
        assert(next == result);
        assert(0 <= done < done + 1 && !beats(
            player,
            next,
            play_score(game, depth, player, plays[done]),
        ));
    }
}

/// Once a node is searched, its result tells about its exhaustive score what
/// a search within the window tells.
pub proof fn lemma_search_done(
    game: GameView,
    depth: nat,
    player: MinMaxPlayer,
    plays: Seq<Play>,
    done: int,
    best: int,
    alpha: int,
    beta: int,
)
    requires
        depth > 0,
        game.winner.is_none(),
        lists_plays(game, plays),
        0 <= done <= plays.len(),
        alpha < beta,
        i8::MIN <= alpha,
        beta <= i8::MAX,
        searched(
            game,
            depth,
            player,
            plays,
            done,
            best,
            own_bound(player, alpha, beta),
            limit_bound(player, alpha, beta),
        ),
        beats(player, limit_bound(player, alpha, beta), best) ==> done == plays.len(),
        !beats(player, worst_score(player), best),
    ensures
        within_window(best, minimax(game, depth, player), alpha, beta),
{
    let exact = best_among(game, depth, player, play_count());
    assert(minimax(game, depth, player) == exact);
    let limit = limit_bound(player, alpha, beta);
    lemma_best_attained(game, depth, player, play_count());
    if beats(player, limit, best) {
        // every play was looked at and none scores better than `best`
        if exact != worst_score(player) {
            let play = choose|play: Play|
                legal_play(game, play) && #[trigger] play_score(game, depth, player, play)
                    == exact;
            assert(plays.contains(play));
            let j = choose|j: int| 0 <= j < plays.len() && plays[j] == play;
            assert(!beats(player, play_score(game, depth, player, plays[j]), best));
        }
        assert(!beats(player, exact, best));
        if beats(player, best, own_bound(player, alpha, beta)) {
            let j = choose|j: int|
                0 <= j < done && #[trigger] play_score(game, depth, player, plays[j]) == best;
            assert(legal_play(game, plays[j]));
            lemma_play_numbered(plays[j]);
            lemma_best_bounds(game, depth, player, play_count(), plays[j]);
        }
    } else {
        let j = choose|j: int|
            0 <= j < done && !beats(
                player,
                best,
                #[trigger] play_score(game, depth, player, plays[j]),
            );
        assert(legal_play(game, plays[j]));
        lemma_play_numbered(plays[j]);
        lemma_best_bounds(game, depth, player, play_count(), plays[j]);
    }
}

/// A game that a legal play leaves open has passed the turn on, and the
/// side that moves next has a play.
pub proof fn lemma_open_game_moves(game: GameView, play: Play)
    requires
        legal_play(game, play),
        after_play(game, play).winner.is_none(),
    ensures
        after_play(game, play).turn == other_side(game.turn),
        !stuck(after_play(game, play)),
{
    let next = passed_on(game, play);
    let after = after_play(game, play);
    assert(!is_win(event_of(game, play)));
    assert(!king_escaped(next.grid));
    assert(!stuck(next));
    let other = choose|other: Play| legal_play(next, other);
    assert(legal_play(after, other));
}

impl MinMaxPlayer {
    /// The side of the search that moves after this one.
    pub fn next(self) -> (r: MinMaxPlayer)
        ensures
            r == other_role(self),
    {
        match self {
            MinMaxPlayer::Maximising => MinMaxPlayer::Minimising,
            MinMaxPlayer::Minimising => MinMaxPlayer::Maximising,
        }
    }
}

/// The material score of a list of dead pieces: the dead defenders less the
/// dead attackers. The list must be no longer than a board has squares.
pub fn material_score(dead: &Vec<Piece>) -> (r: i8)
    requires
        dead@.len() <= SIDE * SIDE,
    ensures
        r == material(dead@),
{
    let mut dead_attackers: u8 = 0;
    let mut dead_defenders: u8 = 0;
    let mut index: usize = 0;
    while index < dead.len()
        invariant
            index <= dead@.len(),
            dead@.len() <= SIDE * SIDE,
            dead_attackers == count_of(dead@.take(index as int), Piece::Attacker),
            dead_defenders == count_of(dead@.take(index as int), Piece::Defender),
        decreases dead@.len() - index,
    {
        proof {
            let longer = dead@.take(index + 1);
            assert(longer.drop_last() =~= dead@.take(index as int));
            assert(longer.last() == dead@[index as int]);
            lemma_count_of_bound(longer, Piece::Attacker);
            lemma_count_of_bound(longer, Piece::Defender);
        }
        match dead[index] {
            Piece::Attacker => {
                dead_attackers = dead_attackers + 1;
            },
            Piece::Defender => {
                dead_defenders = dead_defenders + 1;
            },
            Piece::King => {},
        }
        index = index + 1;
    }
    proof {
        assert(dead@.take(index as int) =~= dead@);
        lemma_count_of_bound(dead@, Piece::Attacker);
        lemma_count_of_bound(dead@, Piece::Defender);
    }
    (dead_defenders as i8) - (dead_attackers as i8)
}

/// Whether two squares lie side by side.
pub fn beside(first: Position, second: Position) -> (r: bool)
    ensures
        r == side_by_side(first, second),
{
    let (x0, y0) = first;
    let (x1, y1) = second;
    (y0 == y1 && ((x0 < x1 && x1 - x0 == 1) || (x1 < x0 && x0 - x1 == 1))) || (x0 == x1 && ((y0
        < y1 && y1 - y0 == 1) || (y1 < y0 && y0 - y1 == 1)))
}

/// The game that a legal play leads to; the game it is made in stays as it
/// is.
pub fn played(game_state: &GameState, play: &Play) -> (r: GameState)
    requires
        game_state.well_formed(),
        game_state@.turn_count < u32::MAX,
        legal_play(game_state@, *play),
    ensures
        r.well_formed(),
        r@ == after_play(game_state@, *play),
{
    let mut copy = game_state.clone();
    let made = copy.make_play(play);
    assert(made.is_ok());
    copy
}

/// Whether the side to move can win with one play of the kind that the
/// search looks at once its depth is used up.
pub fn wins_now(game_state: &GameState, player: MinMaxPlayer) -> (r: bool)
    requires
        game_state.well_formed(),
        game_state@.winner.is_none() ==> game_state@.turn_count < u32::MAX,
    ensures
        r == wins_at_once(game_state@, player),
{
    let plays = game_state.available_plays();
    let king = game_state.king_position();
    let ghost game = game_state@;
    let mut index: usize = 0;
    while index < plays.len()
        invariant
            game_state.well_formed(),
            game == game_state@,
            game.winner.is_none() ==> game.turn_count < u32::MAX,
            king == game.king,
            lists_plays(game, plays@),
            index <= plays@.len(),
            forall|j: int| 0 <= j < index ==> !wins_with(game, player, #[trigger] plays@[j]),
        decreases plays@.len() - index,
    {
        let play = plays[index];
        let wanted = match player {
            // Defenders can only win by moving the king so we can ignore all
            // other plays that don't move it
            MinMaxPlayer::Minimising => play.from.0 == king.0 && play.from.1 == king.1,
            MinMaxPlayer::Maximising => beside(play.to, king),
        };
        if wanted {
            let state = played(game_state, &play);
            let won = match (state.winner(), player) {
                (Some(Player::Defender), MinMaxPlayer::Minimising) => true,
                (Some(Player::Attacker), MinMaxPlayer::Maximising) => true,
                _ => false,
            };
            if won {
                assert(wins_with(game, player, play));
                return true;
            }
        }
        index = index + 1;
    }
    assert(!wins_at_once(game, player)) by {
        assert forall|play: Play| !wins_with(game, player, play) by {
            if wins_with(game, player, play) {
                assert(plays@.contains(play));
            }
        }
    }
    false
}

/// The score of a game for the side to move, searched `depth_remaining`
/// plays deep within the window from `alpha` to `beta`: `alpha` is the score
/// that the attackers are sure of already and `beta` the score that the
/// defenders are sure of, and plays that cannot change the result of the
/// search above are not looked at.
///
/// Unless the game is won, the side to move must have a play where the
/// search goes deeper, and the counter must have room for the plays that are
/// tried.
pub fn min_max(
    game_state: GameState,
    depth_remaining: u8,
    alpha: i8,
    beta: i8,
    player: MinMaxPlayer,
) -> (r: i8)
    requires
        game_state.well_formed(),
        game_state@.winner.is_none() ==> game_state@.turn_count + depth_remaining < u32::MAX,
        alpha < beta,
        game_state@.winner.is_none() && depth_remaining > 0 ==> !stuck(game_state@),
    ensures
        game_state@.winner matches Some(winner) ==> r == won_score(winner),
        game_state@.winner.is_none() && depth_remaining == 0 ==> r == leaf_score(
            game_state@,
            player,
        ),
        within_window(
            r as int,
            minimax(game_state@, depth_remaining as nat, player),
            alpha as int,
            beta as int,
        ),
        alpha == i8::MIN && beta == i8::MAX ==> r == minimax(
            game_state@,
            depth_remaining as nat,
            player,
        ),
    decreases depth_remaining,
{
    let ghost game = game_state@;
    let ghost depth = depth_remaining as nat;
    proof {
        game_state.lemma_well_formed();
        lemma_score_range(game, depth, player);
    }
    let plays = game_state.available_plays();
    if let Some(winner) = game_state.winner() {
        return match winner {
            // Victory for defenders is min score
            Player::Defender => i8::MIN,
            // Victory for attackers is max score
            Player::Attacker => i8::MAX,
        };
    }
    if depth_remaining == 0 {
        // Even at zero depth we should ensure the game isn't left on a turn
        // player victory to avoid the heuristic being misleading.
        if wins_now(&game_state, player) {
            return match player {
                MinMaxPlayer::Minimising => i8::MIN,
                MinMaxPlayer::Maximising => i8::MAX,
            };
        }
        // otherwise approximate value of this state based on number of pieces
        // alive
        return material_score(game_state.dead());
    }
    // Attackers will be maximising alpha, defenders minimising beta
    let mut a = alpha;
    let mut b = beta;
    match player {
        MinMaxPlayer::Maximising => {
            let mut best_value = i8::MIN;
            let mut index: usize = 0;
            while index < plays.len()
                invariant_except_break
                    best_value < beta,
                    a == preferred(player, alpha as int, best_value as int),
                invariant
                    game_state.well_formed(),
                    game == game_state@,
                    depth == depth_remaining as nat,
                    depth_remaining > 0,
                    game.turn_count + depth_remaining < u32::MAX,
                    game.winner.is_none(),
                    player == MinMaxPlayer::Maximising,
                    lists_plays(game, plays@),
                    alpha < beta,
                    b == beta,
                    index <= plays@.len(),
                    searched(
                        game,
                        depth,
                        player,
                        plays@,
                        index as int,
                        best_value as int,
                        alpha as int,
                        beta as int,
                    ),
                ensures
                    best_value < beta ==> index == plays@.len(),
                decreases plays@.len() - index,
            {
                let state = played(&game_state, &plays[index]);
                proof {
                    if state@.winner.is_none() {
                        lemma_open_game_moves(game, plays@[index as int]);
                    }
                }
                let value = min_max(state, depth_remaining - 1, a, b, player.next());
                proof {
                    lemma_search_step(
                        game,
                        depth,
                        player,
                        plays@,
                        index as int,
                        best_value as int,
                        alpha as int,
                        beta as int,
                        value as int,
                    );
                }
                if value > best_value {
                    best_value = value;
                }
                // We can guarantee at least this score of alpha by choosing the
                // highest scoring play available
                if best_value > a {
                    a = best_value;
                }
                index = index + 1;
                if best_value >= b {
                    break ;
                }
            }
            proof {
                lemma_search_done(
                    game,
                    depth,
                    player,
                    plays@,
                    index as int,
                    best_value as int,
                    alpha as int,
                    beta as int,
                );
            }
            best_value
        },
        MinMaxPlayer::Minimising => {
            let mut best_value = i8::MAX;
            let mut index: usize = 0;
            while index < plays.len()
                invariant_except_break
                    best_value > alpha,
                    b == preferred(player, beta as int, best_value as int),
                invariant
                    game_state.well_formed(),
                    game == game_state@,
                    depth == depth_remaining as nat,
                    depth_remaining > 0,
                    game.turn_count + depth_remaining < u32::MAX,
                    game.winner.is_none(),
                    player == MinMaxPlayer::Minimising,
                    lists_plays(game, plays@),
                    alpha < beta,
                    a == alpha,
                    index <= plays@.len(),
                    searched(
                        game,
                        depth,
                        player,
                        plays@,
                        index as int,
                        best_value as int,
                        beta as int,
                        alpha as int,
                    ),
                ensures
                    best_value > alpha ==> index == plays@.len(),
                decreases plays@.len() - index,
            {
                let state = played(&game_state, &plays[index]);
                proof {
                    if state@.winner.is_none() {
                        lemma_open_game_moves(game, plays@[index as int]);
                    }
                }
                let value = min_max(state, depth_remaining - 1, a, b, player.next());
                proof {
                    lemma_search_step(
                        game,
                        depth,
                        player,
                        plays@,
                        index as int,
                        best_value as int,
                        alpha as int,
                        beta as int,
                        value as int,
                    );
                }
                if value < best_value {
                    best_value = value;
                }
                // We can guarantee at least this score of beta by choosing the
                // lowest scoring play available
                if best_value < b {
                    b = best_value;
                }
                index = index + 1;
                if best_value <= a {
                    break ;
                }
            }
            proof {
                lemma_search_done(
                    game,
                    depth,
                    player,
                    plays@,
                    index as int,
                    best_value as int,
                    alpha as int,
                    beta as int,
                );
            }
            best_value
        },
    }
}

/// `rand::rngs::ThreadRng`, which the proofs cannot look into.
#[verifier::external_type_specification]
#[verifier::external_body]
pub struct ExThreadRng(ThreadRng);

/// `rand::thread_rng`: the random number generator of the current thread.
/// Nothing is claimed of it.
pub assume_specification[ rand::thread_rng ]() -> (rng: ThreadRng);

/// `SliceRandom::shuffle`: puts the plays in a random order. Whatever the
/// order, the list holds the same plays as before, each as often as before.
#[verifier::external_body]
fn shuffle(plays: &mut Vec<Play>, rng: &mut ThreadRng)
    ensures
        final(plays)@.to_multiset() == old(plays)@.to_multiset(),
{
    plays.shuffle(rng)
}

/// `par_iter`, `map` and `collect` of rayon: scores every play of the list
/// with `score_play`, the plays shared out among the threads of rayon's
/// pool, and collects the scores in the order of the plays.
#[verifier::external_body]
fn scores_in_parallel(
    game_state: &GameState,
    plays: &Vec<Play>,
    depth: u8,
    player: MinMaxPlayer,
) -> (scores: Vec<i8>)
    requires
        game_state.well_formed(),
        depth > 0,
        game_state@.turn_count + depth < u32::MAX,
        forall|i: int| 0 <= i < plays@.len() ==> legal_play(game_state@, #[trigger] plays@[i]),
    ensures
        scores@.len() == plays@.len(),
        forall|i: int|
            0 <= i < plays@.len() ==> #[trigger] scores@[i] == play_score(
                game_state@,
                depth as nat,
                player,
                plays@[i],
            ),
{
    plays.par_iter().map(|play| score_play(game_state, play, depth, player)).collect()
}

/// The score of a play for the side that makes it: the score of the game
/// that it leads to, searched one play less deep and with an open window.
pub fn score_play(game_state: &GameState, play: &Play, depth: u8, player: MinMaxPlayer) -> (r: i8)
    requires
        game_state.well_formed(),
        depth > 0,
        game_state@.turn_count + depth < u32::MAX,
        legal_play(game_state@, *play),
    ensures
        r == play_score(game_state@, depth as nat, player, *play),
{
    let state = played(game_state, play);
    proof {
        if state@.winner.is_none() {
            lemma_open_game_moves(game_state@, *play);
        }
    }
    // Every play at the top level is searched with the window fully open: the
    // plays are searched side by side, and none waits for the bounds that
    // another one finds.
    min_max(state, depth - 1, i8::MIN, i8::MAX, player.next())
}

/// Whether a list of scores has its best score for a side, for the first
/// time, at a given place.
pub open spec fn first_best(player: MinMaxPlayer, scores: Seq<i8>, place: int) -> bool {
    &&& 0 <= place < scores.len()
    &&& forall|j: int|
        0 <= j < scores.len() ==> !beats(player, #[trigger] scores[j] as int, scores[place] as int)
    &&& forall|j: int|
        0 <= j < place ==> beats(player, scores[place] as int, #[trigger] scores[j] as int)
}

/// The place of the best score for a side in a list of scores that is not
/// empty; of several best scores, the first.
pub fn best_place(player: MinMaxPlayer, scores: &Vec<i8>) -> (place: usize)
    requires
        scores@.len() > 0,
    ensures
        first_best(player, scores@, place as int),
{
    let mut place: usize = 0;
    let mut index: usize = 1;
    while index < scores.len()
        invariant
            1 <= index <= scores@.len(),
            first_best(player, scores@.take(index as int), place as int),
        decreases scores@.len() - index,
    {
        let better = match player {
            MinMaxPlayer::Maximising => scores[index] > scores[place],
            MinMaxPlayer::Minimising => scores[index] < scores[place],
        };
        proof {
            let before = scores@.take(index as int);
            let longer = scores@.take(index + 1);
            assert forall|j: int| 0 <= j < longer.len() implies longer[j] == scores@[j] by {}
            assert forall|j: int| 0 <= j < before.len() implies before[j] == scores@[j] by {}
        }
        if better {
            place = index;
        }
        index = index + 1;
    }
    assert(scores@.take(index as int) =~= scores@);
    place
}

/// The play that the bot makes: none if the side to move has no legal play;
/// otherwise a legal play whose score, three plays deep, is the best that any
/// legal play has for the side to move. Which of several best plays it is is
/// left to chance.
///
/// The counter of a game that is not won must have room for the plays that
/// are tried.
pub fn min_max_play(game_state: &GameState) -> (r: Option<Play>)
    requires
        game_state.well_formed(),
        game_state@.winner.is_none() ==> game_state@.turn_count + SEARCH_DEPTH < u32::MAX,
    ensures
        r.is_none() == stuck(game_state@),
        r matches Some(play) ==> chosen_well(game_state@, play),
{
    let mut plays = game_state.available_plays();
    let ghost listed = plays@;
    if plays.is_empty() {
        assert(stuck(game_state@)) by {
            assert forall|play: Play| !legal_play(game_state@, play) by {
                if legal_play(game_state@, play) {
                    assert(listed.contains(play));
                }
            }
        }
        return None;
    }
    assert(legal_play(game_state@, listed[0]));
    // Shuffle the top level moves so we don't have a bias towards the top left
    // which would otherwise always be the first available moves we consider
    // and then pick if we're unable to find any moves that are better than
    // others
    let mut rng = rand::thread_rng();
    shuffle(&mut plays, &mut rng);
    proof {
        listed.to_multiset_ensures();
        plays@.to_multiset_ensures();
        assert(plays@.len() == listed.len());
        assert forall|i: int| 0 <= i < plays@.len() implies legal_play(
            game_state@,
            #[trigger] plays@[i],
        ) by {
            assert(plays@.contains(plays@[i]));
            assert(plays@.to_multiset().count(plays@[i]) > 0);
            assert(listed.to_multiset().count(plays@[i]) > 0);
            assert(listed.contains(plays@[i]));
        }
    }
    // Min Max algorithm is the maximising player if the turn in the game state
    // is attackers and the minimising player if the turn in the game state is
    // the defenders.
    let player = match game_state.turn() {
        Player::Attacker => MinMaxPlayer::Maximising,
        Player::Defender => MinMaxPlayer::Minimising,
    };
    let scores = scores_in_parallel(game_state, &plays, SEARCH_DEPTH, player);
    let place = best_place(player, &scores);
    let best_play = plays[place];
    proof {
        assert forall|other: Play| legal_play(game_state@, other) implies !beats(
            player,
            play_score(game_state@, SEARCH_DEPTH as nat, player, other),
            play_score(game_state@, SEARCH_DEPTH as nat, player, best_play),
        ) by {
            assert(listed.contains(other));
            listed.to_multiset_ensures();
            plays@.to_multiset_ensures();
            assert(listed.to_multiset().count(other) > 0);
            assert(plays@.to_multiset().count(other) > 0);
            assert(plays@.contains(other));
            let j = choose|j: int| 0 <= j < plays@.len() && plays@[j] == other;
            assert(!beats(player, scores@[j] as int, scores@[place as int] as int));
        }
    }
    Some(best_play)
}

/// Whether a play is one that the bot may make: it is legal, and no legal
/// play has a better score, three plays deep, for the side to move.
pub open spec fn chosen_well(game: GameView, play: Play) -> bool {
    &&& legal_play(game, play)
    &&& forall|other: Play|
        legal_play(game, other) ==> !beats(
            role_of(game.turn),
            #[trigger] play_score(game, SEARCH_DEPTH as nat, role_of(game.turn), other),
            play_score(game, SEARCH_DEPTH as nat, role_of(game.turn), play),
        )
}

} // verus!
