//! Why sliding every piece of the side to move in every direction lists
//! exactly its legal plays, in the order of their ranks.

use vstd::prelude::*;

use crate::board::{in_range, on_board, shifted, tile_at, Direction, Position, SIDE};
use crate::grid::is_square;
use crate::piece::{piece_of, Piece, Tile};
use crate::rules::{
    distance, legal_play, lemma_path_is_run, lemma_rank_tells, lemma_run_is_path, lists_below,
    lists_plays, may_pass, may_stop, open_run, owner_of, play_rank, rank_base, reach, GameView,
};
use crate::state::Play;

verus! {

/// Where the board ends after `steps` squares in a direction, the plays
/// listed up to there are all the plays in that direction.
pub proof fn lemma_none_beyond(
    game: GameView,
    plays: Seq<Play>,
    from: Position,
    direction: Direction,
    steps: int,
)
    requires
        is_square(game.grid, SIDE as int),
        on_board(from),
        0 <= steps < SIDE,
        !in_range(shifted(from, direction, steps + 1)),
        lists_below(game, plays, rank_base(from, direction) + steps + 1),
    ensures
        lists_below(game, plays, rank_base(from, direction) + SIDE),
{
    let base = rank_base(from, direction);
    assert forall|play: Play| #[trigger]
        legal_play(game, play) && play_rank(play) < base + SIDE implies plays.contains(play) by {
        lemma_path_is_run(game.grid, play.from, play.to);
        if play_rank(play) >= base + steps + 1 {
            lemma_rank_tells(play, from, direction);
            let count = distance(play.from, play.to);
            assert(in_range(shifted(from, direction, count)));
        }
    }
}

/// Once the square `steps + 1` away is dealt with, the plays listed are the
/// plays whose rank is below the next one.
pub proof fn lemma_square_listed(
    game: GameView,
    before: Seq<Play>,
    plays: Seq<Play>,
    from: Position,
    piece: Piece,
    direction: Direction,
    steps: int,
)
    requires
        is_square(game.grid, SIDE as int),
        on_board(from),
        game.winner.is_none(),
        piece_of(tile_at(game.grid, from)) == Some(piece),
        owner_of(piece) == game.turn,
        0 <= steps < SIDE,
        in_range(shifted(from, direction, steps + 1)),
        open_run(game.grid, from, direction, steps),
        lists_below(game, before, rank_base(from, direction) + steps + 1),
        plays == if may_stop(game.grid, piece, reach(from, direction, steps + 1)) {
            before.push(Play { from, to: reach(from, direction, steps + 1) })
        } else {
            before
        },
    ensures
        lists_below(game, plays, rank_base(from, direction) + steps + 2),
        may_pass(game.grid, piece, reach(from, direction, steps + 1)) ==> open_run(
            game.grid,
            from,
            direction,
            steps + 1,
        ),
{
    let base = rank_base(from, direction);
    let to = reach(from, direction, steps + 1);
    let next = Play { from, to };
    if may_stop(game.grid, piece, to) {
        assert(open_run(game.grid, from, direction, steps + 1));
        lemma_run_is_path(game.grid, from, direction, steps + 1);
        assert(legal_play(game, next));
        assert(play_rank(next) == base + steps + 1);
        assert(plays[before.len() as int] == next);
        assert forall|i: int| 0 <= i < plays.len() implies legal_play(game, #[trigger] plays[i])
            && play_rank(plays[i]) < base + steps + 2 by {
            if i < before.len() {
                assert(plays[i] == before[i]);
            }
        }
        assert forall|i: int, j: int| 0 <= i < j < plays.len() implies play_rank(
            #[trigger] plays[i],
        ) < play_rank(#[trigger] plays[j]) by {
            assert(plays[i] == before[i]);
            if j < before.len() {
                assert(plays[j] == before[j]);
            }
        }
    }
    assert forall|play: Play| #[trigger]
        legal_play(game, play) && play_rank(play) < base + steps + 2 implies plays.contains(
        play,
    ) by {
        if play_rank(play) < base + steps + 1 {
            assert(before.contains(play));
            let i = choose|i: int| 0 <= i < before.len() && before[i] == play;
            assert(plays[i] == play);
        } else {
            lemma_path_is_run(game.grid, play.from, play.to);
            lemma_rank_tells(play, from, direction);
            assert(play.to == to);
            assert(play == next);
            assert(plays[before.len() as int] == next);
        }
    }
}

/// Where the square `steps` away does not let the piece pass, the plays
/// listed up to there are all the plays in that direction.
pub proof fn lemma_blocked_beyond(
    game: GameView,
    plays: Seq<Play>,
    from: Position,
    piece: Piece,
    direction: Direction,
    steps: int,
)
    requires
        is_square(game.grid, SIDE as int),
        on_board(from),
        piece_of(tile_at(game.grid, from)) == Some(piece),
        1 <= steps < SIDE,
        in_range(shifted(from, direction, steps)),
        !may_pass(game.grid, piece, reach(from, direction, steps)),
        lists_below(game, plays, rank_base(from, direction) + steps + 1),
    ensures
        lists_below(game, plays, rank_base(from, direction) + SIDE),
{
    let base = rank_base(from, direction);
    assert forall|play: Play| #[trigger]
        legal_play(game, play) && play_rank(play) < base + SIDE implies plays.contains(play) by {
        lemma_path_is_run(game.grid, play.from, play.to);
        if play_rank(play) >= base + steps + 1 {
            lemma_rank_tells(play, from, direction);
            let count = distance(play.from, play.to);
            assert(in_range(shifted(from, direction, steps)));
            assert(tile_at(game.grid, reach(from, direction, steps)) == Tile::Empty);
            assert(in_range(shifted(from, direction, count)));
        }
    }
}

/// Where the piece on a square, if any, is not the mover's, no play starts
/// from that square.
pub proof fn lemma_none_from(game: GameView, plays: Seq<Play>, from: Position)
    requires
        is_square(game.grid, SIDE as int),
        on_board(from),
        game.winner.is_some() || match piece_of(tile_at(game.grid, from)) {
            Some(piece) => owner_of(piece) != game.turn,
            None => true,
        },
        lists_below(game, plays, rank_base(from, Direction::Left)),
    ensures
        lists_below(game, plays, rank_base(from, Direction::Left) + 4 * SIDE),
{
    let base = rank_base(from, Direction::Left);
    assert forall|play: Play| #[trigger]
        legal_play(game, play) && play_rank(play) < base + 4 * SIDE implies plays.contains(
        play,
    ) by {
        lemma_path_is_run(game.grid, play.from, play.to);
        if play_rank(play) >= base {
            assert(play.from == from);
        }
    }
}

/// A list of the legal plays below the highest rank there is lists them all.
pub proof fn lemma_all_listed(game: GameView, plays: Seq<Play>)
    requires
        is_square(game.grid, SIDE as int),
        lists_below(game, plays, SIDE * SIDE * 4 * SIDE),
    ensures
        lists_plays(game, plays),
{
    assert forall|play: Play| #[trigger] legal_play(game, play) implies plays.contains(play) by {
        lemma_path_is_run(game.grid, play.from, play.to);
        assert(play_rank(play) < SIDE * SIDE * 4 * SIDE);
    }
}

} // verus!
