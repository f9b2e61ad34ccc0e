//! What a play preserves: the number of pieces, live and dead together, and
//! the place of the king.

use vstd::multiset::Multiset;
use vstd::prelude::*;

use crate::board::{
    neighbour, on_board, swapped, tile_at, with_tile, Direction, Position, SIDE,
};
use crate::grid::is_square;
use crate::piece::{piece_of, Piece, Tile};
use crate::rules::{
    after_captures, after_play, any_king_falls, capture_event, captures, event_of, fallen,
    fallen_on, falls, is_win, king_escaped, king_falls, legal_play, lemma_path_is_run,
    lists_plays, live_below, live_count, may_pass, on_run, passed_on, play_rank, side_by_side,
    sound, GameView,
};
use crate::captures::{cleared, lemma_captures_made, lemma_tile_put};
use crate::state::{GameStateUpdate, Play, Player};

verus! {

/// The place of a square when the grid is read row by row.
pub open spec fn square_index(position: Position) -> int {
    position.1 * SIDE + position.0
}

/// One for a tile that shows a piece, nothing for an empty one.
pub open spec fn weight(tile: Tile) -> nat {
    if tile != Tile::Empty {
        1
    } else {
        0
    }
}

/// No more pieces stand on the first squares of a grid than there are squares.
pub proof fn lemma_live_below_bound(grid: Seq<Seq<Tile>>, count: nat)
    ensures
        live_below(grid, count) <= count,
    decreases count,
{
    if count > 0 {
        lemma_live_below_bound(grid, (count - 1) as nat);
    }
}

/// Giving one square another tile changes the number of pieces on the first
/// squares of the grid by what the two tiles differ in, if the square is
/// among them.
pub proof fn lemma_live_put(grid: Seq<Seq<Tile>>, position: Position, tile: Tile, count: nat)
    requires
        is_square(grid, SIDE as int),
        on_board(position),
        count <= SIDE * SIDE,
    ensures
        live_below(with_tile(grid, position, tile), count) + (if square_index(position) < count {
            weight(tile_at(grid, position))
        } else {
            0
        }) == live_below(grid, count) + (if square_index(position) < count {
            weight(tile)
        } else {
            0
        }),
    decreases count,
{
    if count > 0 {
        lemma_live_put(grid, position, tile, (count - 1) as nat);
        let index = (count - 1) as int;
        let here: Position = ((index % (SIDE as int)) as u8, (index / (SIDE as int)) as u8);
        assert(on_board(here));
        lemma_tile_put(grid, position, tile, here);
        assert(square_index(here) == index);
        assert(tile_at(grid, here) == grid[index / (SIDE as int)][index % (SIDE as int)]);
    }
}

/// Giving one square another tile changes the number of pieces on the board
/// by what the two tiles differ in.
pub proof fn lemma_count_put(grid: Seq<Seq<Tile>>, position: Position, tile: Tile)
    requires
        is_square(grid, SIDE as int),
        on_board(position),
    ensures
        is_square(with_tile(grid, position, tile), SIDE as int),
        live_count(with_tile(grid, position, tile)) + weight(tile_at(grid, position))
            == live_count(grid) + weight(tile),
{
    lemma_live_put(grid, position, tile, (SIDE * SIDE) as nat);
    lemma_tile_put(grid, position, tile, position);
}

/// Exchanging the tiles of two squares keeps the number of pieces.
pub proof fn lemma_count_swapped(grid: Seq<Seq<Tile>>, first: Position, second: Position)
    requires
        is_square(grid, SIDE as int),
        on_board(first),
        on_board(second),
    ensures
        is_square(swapped(grid, first, second), SIDE as int),
        live_count(swapped(grid, first, second)) == live_count(grid),
{
    let half = with_tile(grid, first, tile_at(grid, second));
    let whole = with_tile(half, second, tile_at(grid, first));
    lemma_count_put(grid, first, tile_at(grid, second));
    lemma_tile_put(grid, first, tile_at(grid, second), second);
    lemma_count_put(half, second, tile_at(grid, first));
    assert(whole =~~= swapped(grid, first, second));
}

/// Clearing one side of `to` takes as many pieces off the board as it adds
/// to the dead.
pub proof fn lemma_count_cleared(
    base: Seq<Seq<Tile>>,
    grid: Seq<Seq<Tile>>,
    to: Position,
    side: Option<Position>,
)
    requires
        is_square(base, SIDE as int),
        is_square(grid, SIDE as int),
        on_board(to),
        side matches Some(next) ==> on_board(next) && tile_at(grid, next) == tile_at(base, next),
    ensures
        live_count(
            if falls(base, to, side) {
                with_tile(grid, side.unwrap(), Tile::Empty)
            } else {
                grid
            },
        ) + fallen_on(base, to, side).len() == live_count(grid),
{
    if falls(base, to, side) {
        lemma_count_put(grid, side.unwrap(), Tile::Empty);
    }
}

/// The captures round `to` take as many pieces off the board as they add to
/// the dead.
pub proof fn lemma_count_captures(grid: Seq<Seq<Tile>>, to: Position)
    requires
        is_square(grid, SIDE as int),
        on_board(to),
    ensures
        is_square(after_captures(grid, to), SIDE as int),
        live_count(after_captures(grid, to)) + fallen(grid, to).len() == live_count(grid),
{
    let left = neighbour(to, Direction::Left);
    let right = neighbour(to, Direction::Right);
    let down = neighbour(to, Direction::Down);
    let up = neighbour(to, Direction::Up);
    let grid1 = cleared(grid, to, left);
    let grid2 = if falls(grid, to, right) {
        with_tile(grid1, right.unwrap(), Tile::Empty)
    } else {
        grid1
    };
    let grid3 = if falls(grid, to, down) {
        with_tile(grid2, down.unwrap(), Tile::Empty)
    } else {
        grid2
    };
    let grid4 = if falls(grid, to, up) {
        with_tile(grid3, up.unwrap(), Tile::Empty)
    } else {
        grid3
    };
    lemma_captures_made(grid, to, grid1, grid2, grid3, grid4);
    lemma_count_cleared(grid, grid, to, left);
    assert(is_square(grid1, SIDE as int));
    if right.is_some() {
        if falls(grid, to, left) {
            lemma_tile_put(grid, left.unwrap(), Tile::Empty, right.unwrap());
        }
    }
    lemma_count_cleared(grid, grid1, to, right);
    assert(is_square(grid2, SIDE as int));
    if down.is_some() {
        if falls(grid, to, left) {
            lemma_tile_put(grid, left.unwrap(), Tile::Empty, down.unwrap());
        }
        if falls(grid, to, right) {
            lemma_tile_put(grid1, right.unwrap(), Tile::Empty, down.unwrap());
        }
    }
    lemma_count_cleared(grid, grid2, to, down);
    assert(is_square(grid3, SIDE as int));
    if up.is_some() {
        if falls(grid, to, left) {
            lemma_tile_put(grid, left.unwrap(), Tile::Empty, up.unwrap());
        }
        if falls(grid, to, right) {
            lemma_tile_put(grid1, right.unwrap(), Tile::Empty, up.unwrap());
        }
        if falls(grid, to, down) {
            lemma_tile_put(grid2, down.unwrap(), Tile::Empty, up.unwrap());
        }
    }
    lemma_count_cleared(grid, grid3, to, up);
    assert(fallen(grid, to).len() == fallen_on(grid, to, left).len() + fallen_on(
        grid,
        to,
        right,
    ).len() + fallen_on(grid, to, down).len() + fallen_on(grid, to, up).len());
}

/// What a legal play in a sound game leaves behind, before a winner is
/// named: a grid with at most one king, on the square that the game takes
/// for the king's; the king still there unless the play captured it; and as
/// many pieces, live and dead together, as before.
pub proof fn lemma_play_passes_on(game: GameView, play: Play)
    requires
        sound(game),
        legal_play(game, play),
    ensures
        is_square(swapped(game.grid, play.from, play.to), SIDE as int),
        is_square(passed_on(game, play).grid, SIDE as int),
        on_board(passed_on(game, play).king),
        forall|x: int, y: int|
            0 <= x < SIDE && 0 <= y < SIDE && #[trigger] passed_on(game, play).grid[y][x]
                == Tile::King ==> x == passed_on(game, play).king.0 && y == passed_on(
                game,
                play,
            ).king.1,
        any_king_falls(swapped(game.grid, play.from, play.to), play.to) || tile_at(
            passed_on(game, play).grid,
            passed_on(game, play).king,
        ) == Tile::King,
        any_king_falls(swapped(game.grid, play.from, play.to), play.to) ==> !king_escaped(
            passed_on(game, play).grid,
        ),
        live_count(passed_on(game, play).grid) + passed_on(game, play).dead.len() == live_count(
            game.grid,
        ) + game.dead.len(),
{
    let grid = game.grid;
    let to = play.to;
    let moved = swapped(grid, play.from, to);
    let next = passed_on(game, play);
    lemma_count_swapped(grid, play.from, to);
    lemma_count_captures(moved, to);
    assert(tile_at(grid, game.king) == Tile::King);
    assert(grid[game.king.1 as int][game.king.0 as int] == Tile::King);
    assert(tile_at(grid, to) == Tile::Empty);
    assert forall|x: int, y: int|
        0 <= x < SIDE && 0 <= y < SIDE && #[trigger] next.grid[y][x] == Tile::King implies x
        == next.king.0 && y == next.king.1 by {
        assert(moved[y][x] == Tile::King);
        if x == to.0 && y == to.1 {
            assert(grid[play.from.1 as int][play.from.0 as int] == Tile::King);
        } else {
            assert(grid[y][x] == Tile::King);
        }
    }
    if any_king_falls(moved, to) {
        let side = if king_falls(moved, to, neighbour(to, Direction::Left)) {
            neighbour(to, Direction::Left)
        } else if king_falls(moved, to, neighbour(to, Direction::Right)) {
            neighbour(to, Direction::Right)
        } else if king_falls(moved, to, neighbour(to, Direction::Down)) {
            neighbour(to, Direction::Down)
        } else {
            neighbour(to, Direction::Up)
        };
        let fell = side.unwrap();
        assert(side_by_side(to, fell));
        assert(moved[fell.1 as int][fell.0 as int] == Tile::King);
        assert(next.grid[fell.1 as int][fell.0 as int] == Tile::Empty);
        if king_escaped(next.grid) {
            let corner: Position = if tile_at(next.grid, (0, 0)) == Tile::King {
                (0, 0)
            } else if tile_at(next.grid, ((SIDE - 1) as u8, 0)) == Tile::King {
                ((SIDE - 1) as u8, 0)
            } else if tile_at(next.grid, (0, (SIDE - 1) as u8)) == Tile::King {
                (0, (SIDE - 1) as u8)
            } else {
                ((SIDE - 1) as u8, (SIDE - 1) as u8)
            };
            assert(next.grid[corner.1 as int][corner.0 as int] == Tile::King);
            assert(moved[corner.1 as int][corner.0 as int] == Tile::King);
            if corner == to {
                assert(grid[play.from.1 as int][play.from.0 as int] == Tile::King);
            } else {
                assert(grid[corner.1 as int][corner.0 as int] == Tile::King);
            }
            if fell == to {
                assert(false);
            } else {
                assert(grid[fell.1 as int][fell.0 as int] == Tile::King);
            }
            assert(false);
        }
    } else {
        let king = next.king;
        assert(moved[king.1 as int][king.0 as int] == Tile::King);
        if side_by_side(to, king) && captures(moved, to, king) {
            assert(neighbour(to, Direction::Left) == Some(king) || neighbour(to, Direction::Right)
                == Some(king) || neighbour(to, Direction::Down) == Some(king) || neighbour(
                to,
                Direction::Up,
            ) == Some(king));
            assert(false);
        }
        assert(next.grid[king.1 as int][king.0 as int] == Tile::King);
    }
}

/// A legal play in a sound game leaves a sound game.
pub proof fn lemma_play_keeps_sound(game: GameView, play: Play)
    requires
        sound(game),
        legal_play(game, play),
    ensures
        sound(after_play(game, play)),
        !is_win(capture_event(swapped(game.grid, play.from, play.to), play.to)) ==> sound(
            passed_on(game, play),
        ),
{
    lemma_play_passes_on(game, play);
    let moved = swapped(game.grid, play.from, play.to);
    let next = passed_on(game, play);
    if any_king_falls(moved, play.to) {
        assert(capture_event(moved, play.to) == GameStateUpdate::AttackerWin);
        assert(event_of(game, play) == GameStateUpdate::AttackerWin);
    }
}

/// Every play that the list of available plays holds is legal: asked to
/// make it, the game makes it.
pub proof fn law_listed_plays_are_made(game: GameView, plays: Seq<Play>, place: int)
    requires
        lists_plays(game, plays),
        0 <= place < plays.len(),
    ensures
        legal_play(game, plays[place]),
{
}

/// Every play that the list of available plays does not hold is illegal:
/// asked to make it, the game refuses.
pub proof fn law_other_plays_are_refused(game: GameView, plays: Seq<Play>, play: Play)
    requires
        lists_plays(game, plays),
        !plays.contains(play),
    ensures
        !legal_play(game, play),
{
}

/// A play takes as many pieces off the board as it adds to the dead, and
/// adds them behind the dead that were there: no piece comes back.
pub proof fn law_captures_are_conserved(game: GameView, play: Play)
    requires
        sound(game),
        legal_play(game, play),
    ensures
        after_play(game, play).dead.len() >= game.dead.len(),
        after_play(game, play).dead.subrange(0, game.dead.len() as int) == game.dead,
        live_count(after_play(game, play).grid) + (after_play(game, play).dead.len()
            - game.dead.len()) == live_count(game.grid),
        live_count(after_play(game, play).grid) <= live_count(game.grid),
{
    lemma_play_passes_on(game, play);
    let after = after_play(game, play);
    assert(after.dead.subrange(0, game.dead.len() as int) =~= game.dead);
}

/// After a play, no square but the one that the game takes for the king's
/// holds a king, and the king stands on that square unless the play has
/// captured it, in which case the attackers have won.
pub proof fn law_king_is_followed(game: GameView, play: Play)
    requires
        sound(game),
        legal_play(game, play),
    ensures
        on_board(after_play(game, play).king),
        forall|x: int, y: int|
            0 <= x < SIDE && 0 <= y < SIDE && #[trigger] after_play(game, play).grid[y][x]
                == Tile::King ==> x == after_play(game, play).king.0 && y == after_play(
                game,
                play,
            ).king.1,
        tile_at(after_play(game, play).grid, after_play(game, play).king) == Tile::King
            || after_play(game, play).winner == Some(Player::Attacker),
        sound(after_play(game, play)),
{
    lemma_play_passes_on(game, play);
    lemma_play_keeps_sound(game, play);
}

/// Every square on the way of a legal play, its target included, lets the
/// piece pass: it is empty, and it is no corner unless the piece is the king.
pub proof fn law_paths_are_passable(game: GameView, play: Play, x: int, y: int)
    requires
        sound(game),
        legal_play(game, play),
        on_run(play.from, play.to, x, y),
    ensures
        0 <= x < SIDE && 0 <= y < SIDE,
        may_pass(game.grid, piece_of(tile_at(game.grid, play.from)).unwrap(), (x as u8, y as u8)),
{
    assert(game.grid[y][x] == Tile::Empty);
}

/// Once a side has won, no play is legal: the game stays as it is.
pub proof fn law_won_games_are_closed(game: GameView, play: Play)
    requires
        game.winner.is_some(),
    ensures
        !legal_play(game, play),
{
}

/// The number of squares, directions and lengths that a play can have: no
/// rank of a legal play reaches it.
pub open spec fn rank_count() -> int {
    SIDE * SIDE * 4 * SIDE
}

/// In a list of the legal plays, the play at a place has at least the rank
/// of that place.
pub proof fn lemma_ranks_climb(game: GameView, plays: Seq<Play>, place: int)
    requires
        sound(game),
        lists_plays(game, plays),
        0 <= place < plays.len(),
    ensures
        place <= play_rank(plays[place]) < rank_count(),
    decreases place,
{
    lemma_path_is_run(game.grid, plays[place].from, plays[place].to);
    if place > 0 {
        lemma_ranks_climb(game, plays, place - 1);
    }
}

/// A side never has more legal plays than there are ranks: the search looks
/// at a bounded number of plays at each of its levels, and its levels are as
/// many as its depth.
pub proof fn law_plays_are_bounded(game: GameView, plays: Seq<Play>)
    requires
        sound(game),
        lists_plays(game, plays),
    ensures
        plays.len() <= rank_count(),
{
    if plays.len() > 0 {
        lemma_ranks_climb(game, plays, plays.len() - 1);
    }
}

/// The piece on a tile, as a bag of at most one piece.
pub open spec fn bag_of(tile: Tile) -> Multiset<Piece> {
    match piece_of(tile) {
        Some(piece) => Multiset::singleton(piece),
        None => Multiset::empty(),
    }
}

/// The pieces on the first `count` squares of a grid, read row by row, each
/// as often as it stands there.
pub open spec fn pieces_below(grid: Seq<Seq<Tile>>, count: nat) -> Multiset<Piece>
    decreases count,
{
    if count == 0 {
        Multiset::empty()
    } else {
        let index = (count - 1) as int;
        pieces_below(grid, (count - 1) as nat).add(
            bag_of(grid[index / (SIDE as int)][index % (SIDE as int)]),
        )
    }
}

/// The pieces on the board, each as often as it stands there.
pub open spec fn pieces_on(grid: Seq<Seq<Tile>>) -> Multiset<Piece> {
    pieces_below(grid, (SIDE * SIDE) as nat)
}

/// Giving one square another tile changes the pieces on the first squares of
/// the grid by what the two tiles hold, if the square is among them.
pub proof fn lemma_pieces_put(grid: Seq<Seq<Tile>>, position: Position, tile: Tile, count: nat)
    requires
        is_square(grid, SIDE as int),
        on_board(position),
        count <= SIDE * SIDE,
    ensures
        pieces_below(with_tile(grid, position, tile), count).add(
            if square_index(position) < count {
                bag_of(tile_at(grid, position))
            } else {
                Multiset::empty()
            },
        ) =~= pieces_below(grid, count).add(
            if square_index(position) < count {
                bag_of(tile)
            } else {
                Multiset::empty()
            },
        ),
    decreases count,
{
    broadcast use vstd::multiset::group_multiset_axioms;

    let after = with_tile(grid, position, tile);
    let place = square_index(position);
    let gone = bag_of(tile_at(grid, position));
    let come = bag_of(tile);
    let none = Multiset::<Piece>::empty();
    if count > 0 {
        let fewer = (count - 1) as nat;
        lemma_pieces_put(grid, position, tile, fewer);
        let index = (count - 1) as int;
        let here: Position = ((index % (SIDE as int)) as u8, (index / (SIDE as int)) as u8);
        assert(on_board(here));
        lemma_tile_put(grid, position, tile, here);
        assert(square_index(here) == index);
        let was = grid[index / (SIDE as int)][index % (SIDE as int)];
        let is = after[index / (SIDE as int)][index % (SIDE as int)];
        assert(tile_at(grid, here) == was);
        assert(tile_at(after, here) == is);
        assert(pieces_below(after, count) == pieces_below(after, fewer).add(bag_of(is)));
        assert(pieces_below(grid, count) == pieces_below(grid, fewer).add(bag_of(was)));
        let now = pieces_below(after, count).add(
            if place < count {
                gone
            } else {
                none
            },
        );
        let then = pieces_below(grid, count).add(
            if place < count {
                come
            } else {
                none
            },
        );
        assert forall|piece: Piece| #[trigger] now.count(piece) == then.count(piece) by {
            let left = pieces_below(after, fewer).add(
                if place < fewer {
                    gone
                } else {
                    none
                },
            );
            let right = pieces_below(grid, fewer).add(
                if place < fewer {
                    come
                } else {
                    none
                },
            );
            assert(left.count(piece) == right.count(piece));
            assert(none.count(piece) == 0);
        }
    } else {
        assert(pieces_below(after, count) == none);
        assert(pieces_below(grid, count) == none);
    }
}

/// Giving one square another tile changes the pieces on the board by what
/// the two tiles hold.
pub proof fn lemma_bag_put(grid: Seq<Seq<Tile>>, position: Position, tile: Tile)
    requires
        is_square(grid, SIDE as int),
        on_board(position),
    ensures
        is_square(with_tile(grid, position, tile), SIDE as int),
        pieces_on(with_tile(grid, position, tile)).add(bag_of(tile_at(grid, position)))
            =~= pieces_on(grid).add(bag_of(tile)),
{
    lemma_pieces_put(grid, position, tile, (SIDE * SIDE) as nat);
    lemma_tile_put(grid, position, tile, position);
}

/// Exchanging the tiles of two squares keeps the pieces on the board.
pub proof fn lemma_bag_swapped(grid: Seq<Seq<Tile>>, first: Position, second: Position)
    requires
        is_square(grid, SIDE as int),
        on_board(first),
        on_board(second),
    ensures
        pieces_on(swapped(grid, first, second)) =~= pieces_on(grid),
{
    broadcast use vstd::multiset::group_multiset_axioms;

    let half = with_tile(grid, first, tile_at(grid, second));
    let whole = with_tile(half, second, tile_at(grid, first));
    lemma_bag_put(grid, first, tile_at(grid, second));
    lemma_tile_put(grid, first, tile_at(grid, second), second);
    lemma_bag_put(half, second, tile_at(grid, first));
    assert(whole =~~= swapped(grid, first, second));
    assert forall|piece: Piece| #[trigger]
        pieces_on(whole).count(piece) == pieces_on(grid).count(piece) by {
        let one = pieces_on(half).add(bag_of(tile_at(grid, first)));
        let other = pieces_on(grid).add(bag_of(tile_at(grid, second)));
        assert(one.count(piece) == other.count(piece));
        let two = pieces_on(whole).add(bag_of(tile_at(half, second)));
        let third = pieces_on(half).add(bag_of(tile_at(grid, first)));
        assert(two.count(piece) == third.count(piece));
    }
}

/// Clearing one side of `to` takes off the board the piece that it adds to
/// the dead.
pub proof fn lemma_bag_cleared(
    base: Seq<Seq<Tile>>,
    grid: Seq<Seq<Tile>>,
    dead: Seq<Piece>,
    to: Position,
    side: Option<Position>,
)
    requires
        is_square(base, SIDE as int),
        is_square(grid, SIDE as int),
        on_board(to),
        side matches Some(next) ==> on_board(next) && tile_at(grid, next) == tile_at(base, next),
    ensures
        pieces_on(
            if falls(base, to, side) {
                with_tile(grid, side.unwrap(), Tile::Empty)
            } else {
                grid
            },
        ).add((dead + fallen_on(base, to, side)).to_multiset()) =~= pieces_on(grid).add(
            dead.to_multiset(),
        ),
{
    broadcast use vstd::multiset::group_multiset_axioms;

    if falls(base, to, side) {
        let next = side.unwrap();
        lemma_bag_put(grid, next, Tile::Empty);
        let piece = piece_of(tile_at(base, next)).unwrap();
        assert(dead + fallen_on(base, to, side) =~= dead.push(piece));
        vstd::seq_lib::to_multiset_build(dead, piece);
        let cleared = with_tile(grid, next, Tile::Empty);
        let now = pieces_on(cleared).add(dead.push(piece).to_multiset());
        let then = pieces_on(grid).add(dead.to_multiset());
        assert forall|other: Piece| #[trigger] now.count(other) == then.count(other) by {
            let one = pieces_on(cleared).add(bag_of(tile_at(grid, next)));
            let two = pieces_on(grid).add(bag_of(Tile::Empty));
            assert(one.count(other) == two.count(other));
            assert(bag_of(Tile::Empty).count(other) == 0);
            assert(dead.push(piece).to_multiset().count(other) == dead.to_multiset().insert(
                piece,
            ).count(other));
        }
    } else {
        assert(dead + fallen_on(base, to, side) =~= dead);
    }
}

/// The captures round `to` take off the board the pieces that they add to
/// the dead.
pub proof fn lemma_bag_captures(grid: Seq<Seq<Tile>>, dead: Seq<Piece>, to: Position)
    requires
        is_square(grid, SIDE as int),
        on_board(to),
    ensures
        pieces_on(after_captures(grid, to)).add((dead + fallen(grid, to)).to_multiset())
            =~= pieces_on(grid).add(dead.to_multiset()),
{
    let left = neighbour(to, Direction::Left);
    let right = neighbour(to, Direction::Right);
    let down = neighbour(to, Direction::Down);
    let up = neighbour(to, Direction::Up);
    let grid1 = cleared(grid, to, left);
    let grid2 = if falls(grid, to, right) {
        with_tile(grid1, right.unwrap(), Tile::Empty)
    } else {
        grid1
    };
    let grid3 = if falls(grid, to, down) {
        with_tile(grid2, down.unwrap(), Tile::Empty)
    } else {
        grid2
    };
    let grid4 = if falls(grid, to, up) {
        with_tile(grid3, up.unwrap(), Tile::Empty)
    } else {
        grid3
    };
    let dead1 = dead + fallen_on(grid, to, left);
    let dead2 = dead1 + fallen_on(grid, to, right);
    let dead3 = dead2 + fallen_on(grid, to, down);
    let dead4 = dead3 + fallen_on(grid, to, up);
    lemma_captures_made(grid, to, grid1, grid2, grid3, grid4);
    lemma_bag_cleared(grid, grid, dead, to, left);
    assert(is_square(grid1, SIDE as int));
    if right.is_some() {
        if falls(grid, to, left) {
            lemma_tile_put(grid, left.unwrap(), Tile::Empty, right.unwrap());
        }
    }
    lemma_bag_cleared(grid, grid1, dead1, to, right);
    assert(is_square(grid2, SIDE as int));
    if down.is_some() {
        if falls(grid, to, left) {
            lemma_tile_put(grid, left.unwrap(), Tile::Empty, down.unwrap());
        }
        if falls(grid, to, right) {
            lemma_tile_put(grid1, right.unwrap(), Tile::Empty, down.unwrap());
        }
    }
    lemma_bag_cleared(grid, grid2, dead2, to, down);
    assert(is_square(grid3, SIDE as int));
    if up.is_some() {
        if falls(grid, to, left) {
            lemma_tile_put(grid, left.unwrap(), Tile::Empty, up.unwrap());
        }
        if falls(grid, to, right) {
            lemma_tile_put(grid1, right.unwrap(), Tile::Empty, up.unwrap());
        }
        if falls(grid, to, down) {
            lemma_tile_put(grid2, down.unwrap(), Tile::Empty, up.unwrap());
        }
    }
    lemma_bag_cleared(grid, grid3, dead3, to, up);
    assert(dead4 =~= dead + fallen(grid, to));
}

/// A play neither makes nor loses a piece: the pieces on the board together
/// with the dead are the same before and after it, piece for piece.
pub proof fn law_pieces_are_conserved(game: GameView, play: Play)
    requires
        sound(game),
        legal_play(game, play),
    ensures
        pieces_on(after_play(game, play).grid).add(after_play(game, play).dead.to_multiset())
            == pieces_on(game.grid).add(game.dead.to_multiset()),
{
    let moved = swapped(game.grid, play.from, play.to);
    lemma_count_swapped(game.grid, play.from, play.to);
    lemma_bag_swapped(game.grid, play.from, play.to);
    lemma_bag_captures(moved, game.dead, play.to);
}

/// A play fills no square but its target: every other square that was empty
/// before the play is empty after it, so that no captured piece comes back.
pub proof fn law_empty_squares_stay_empty(game: GameView, play: Play, x: int, y: int)
    requires
        sound(game),
        legal_play(game, play),
        0 <= x < SIDE,
        0 <= y < SIDE,
        x != play.to.0 || y != play.to.1,
        game.grid[y][x] == Tile::Empty,
    ensures
        after_play(game, play).grid[y][x] == Tile::Empty,
{
    assert(tile_at(game.grid, play.to) == Tile::Empty);
}

} // verus!
