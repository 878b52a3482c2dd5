//! The chess plugin: a scene and a board of eight by eight squares.

use vstd::prelude::*;
use crate::commands::Change;
use crate::context::{Context, ContextState};
use crate::game::{bundle, bundled, Component, Resource, Tile};

verus! {

/// The number of squares along each side of the board.
pub const SIDE: u8 = 8;

/// Whether the square in file `i` and rank `j` is light.
pub open spec fn is_light(i: int, j: int) -> bool {
    (i + j + 1) % 2 == 0
}

/// The square in file `i` and rank `j`.
pub open spec fn tile_at(i: int, j: int) -> Tile {
    Tile { i: i as u8, j: j as u8, light: is_light(i, j) }
}

/// The squares of the board, file by file and within a file rank by rank.
pub open spec fn board() -> Seq<Tile> {
    Seq::new(64, |k: int| tile_at(k / 8, k % 8))
}

/// The board has 64 squares; each lies in file and rank 0 to 7, no two lie
/// in the same place, and a square is light exactly if the sum of its file,
/// its rank and one is even.
pub proof fn lemma_board(k: int, l: int)
    requires
        0 <= k < 64,
        0 <= l < 64,
    ensures
        board().len() == 64,
        board()[k].i < 8 && board()[k].j < 8,
        board()[k].light == ((board()[k].i + board()[k].j + 1) % 2 == 0),
        k != l ==> (board()[k].i, board()[k].j) != (board()[l].i, board()[l].j),
        board()[k] == tile_at(k / 8, k % 8),
{
}

/// Every place of the board holds a square: the square in file `i` and rank
/// `j` is the entry `8 * i + j` of the board.
pub proof fn lemma_board_covers(i: int, j: int)
    requires
        0 <= i < 8,
        0 <= j < 8,
    ensures
        board()[8 * i + j] == tile_at(i, j),
{
}

/// The squares of the board, file by file and within a file rank by rank.
pub fn chessboard() -> (tiles: Vec<Tile>)
    ensures
        tiles@ == board(),
{
    let mut tiles: Vec<Tile> = Vec::new();
    let mut i: u8 = 0;
    while i < SIDE
        invariant
            i <= 8,
            tiles@.len() == 8 * i,
            forall|k: int| 0 <= k < tiles@.len() ==> tiles@[k] == tile_at(k / 8, k % 8),
        decreases 8 - i,
    {
        let mut j: u8 = 0;
        while j < SIDE
            invariant
                i < 8,
                j <= 8,
                tiles@.len() == 8 * i + j,
                forall|k: int| 0 <= k < tiles@.len() ==> tiles@[k] == tile_at(k / 8, k % 8),
            decreases 8 - j,
        {
            let light = (i + j + 1) % 2 == 0;
            tiles.push(Tile { i, j, light });
            j += 1;
        }
        i += 1;
    }
    assert(tiles@ =~= board());
    tiles
}

/// The changes that lay out the board: one spawn for each square, in the
/// order of the board.
pub open spec fn tile_spawns() -> Seq<Change<Component>> {
    Seq::new(64, |k: int| Change::Spawn(bundled(seq![Component::Tile(board()[k])])))
}

/// The changes that set the scene: a camera, then a light.
pub open spec fn scene_spawns() -> Seq<Change<Component>> {
    seq![
        Change::Spawn(bundled(seq![Component::Camera])),
        Change::Spawn(bundled(seq![Component::Light])),
    ]
}

/// Sets the scene: records the spawning of a camera and of a light.
pub fn chess_setup(ctx: &mut Context<Component, Resource>)
    ensures
        final(ctx)@ == (ContextState { changes: old(ctx)@.changes + scene_spawns(), ..old(ctx)@ }),
{
    let camera = vec![Component::Camera];
    assert(camera@ =~= seq![Component::Camera]);
    ctx.spawn(bundle(camera));
    let light = vec![Component::Light];
    assert(light@ =~= seq![Component::Light]);
    ctx.spawn(bundle(light));
    assert(ctx@.changes =~= old(ctx)@.changes + scene_spawns());
}

/// Lays out the board: records the spawning of one entity for each of the
/// 64 squares.
pub fn create_chessboard(ctx: &mut Context<Component, Resource>)
    ensures
        final(ctx)@ == (ContextState { changes: old(ctx)@.changes + tile_spawns(), ..old(ctx)@ }),
{
    let tiles = chessboard();
    let mut k: usize = 0;
    assert(tile_spawns().take(0) =~= Seq::<Change<Component>>::empty());
    assert(old(ctx)@.changes + Seq::<Change<Component>>::empty() =~= old(ctx)@.changes);
    while k < tiles.len()
        invariant
            k <= 64,
            tiles@ == board(),
            ctx@ == (ContextState {
                changes: old(ctx)@.changes + tile_spawns().take(k as int),
                ..old(ctx)@
            }),
        decreases 64 - k,
    {
        let tile = tiles[k];
        let square = vec![Component::Tile(tile)];
        assert(square@ =~= seq![Component::Tile(board()[k as int])]);
        ctx.spawn(bundle(square));
        assert(ctx@.changes =~= old(ctx)@.changes + tile_spawns().take(k + 1));
        k += 1;
    }
    assert(tile_spawns().take(64) =~= tile_spawns());
}

} // verus!
