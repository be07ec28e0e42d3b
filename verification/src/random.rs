use crate::grid::{grid_wf, ConsoleSize};
use rand::RngExt;
use vstd::prelude::*;

verus! {

#[verifier::external_type_specification]
#[verifier::external_body]
pub struct ExThreadRng(rand::rngs::ThreadRng);

/// Relies on rand::rng: yields the handle to the thread-local generator.
/// Nothing is assumed about the values drawn through it. (It aborts the
/// process if the operating system cannot seed the generator; no input
/// avoids that, so no contract can.)
#[verifier::external_body]
fn fresh_rng() -> rand::rngs::ThreadRng {
    rand::rng()
}

/// Relies on RngExt::random_ratio: true with probability `num / den`,
/// guaranteed false when `num` is zero and guaranteed true when `num`
/// equals `den`. It panics when `den == 0` or `num > den`; the requires
/// rules those inputs out.
#[verifier::external_body]
fn random_ratio_bool(rng: &mut rand::rngs::ThreadRng, num: u32, den: u32) -> (live: bool)
    requires
        0 < den,
        num <= den,
    ensures
        num == 0 ==> !live,
        num == den ==> live,
{
    rng.random_ratio(num, den)
}

/// Builds a fresh grid of the given size in which every cell is drawn
/// independently, live with probability `live_num / live_den`. A ratio
/// above one is clamped and behaves as certainty: every cell live. A
/// ratio of zero leaves every cell dead.
pub fn initialize_grid(size: &ConsoleSize, live_num: u32, live_den: u32) -> (grid: Vec<Vec<bool>>)
    requires
        0 < live_den,
    ensures
        grid_wf(grid.deep_view(), size.rows as nat, size.cols as nat),
        live_num == 0 ==> forall|r: int, c: int|
            0 <= r < size.rows && 0 <= c < size.cols ==> !(#[trigger] grid.deep_view()[r][c]),
        live_num >= live_den ==> forall|r: int, c: int|
            0 <= r < size.rows && 0 <= c < size.cols ==> (#[trigger] grid.deep_view()[r][c]),
{
    let num = if live_num > live_den {
        live_den
    } else {
        live_num
    };
    let mut rng = fresh_rng();
    let mut grid: Vec<Vec<bool>> = Vec::new();
    for i in 0..size.rows
        invariant
            grid.deep_view().len() == i,
            forall|r: int| 0 <= r < i ==> (#[trigger] grid.deep_view()[r]).len() == size.cols,
            0 < live_den,
            num <= live_den,
            live_num == 0 ==> num == 0,
            live_num >= live_den ==> num == live_den,
            live_num == 0 ==> forall|r: int, c: int|
                0 <= r < i && 0 <= c < size.cols ==> !(#[trigger] grid.deep_view()[r][c]),
            live_num >= live_den ==> forall|r: int, c: int|
                0 <= r < i && 0 <= c < size.cols ==> (#[trigger] grid.deep_view()[r][c]),
    {
        let mut row: Vec<bool> = Vec::new();
        for j in 0..size.cols
            invariant
                row@.len() == j,
                0 < live_den,
                num <= live_den,
                live_num == 0 ==> num == 0,
                live_num >= live_den ==> num == live_den,
                live_num == 0 ==> forall|c: int| 0 <= c < j ==> !(#[trigger] row@[c]),
                live_num >= live_den ==> forall|c: int| 0 <= c < j ==> (#[trigger] row@[c]),
        {
            let live = random_ratio_bool(&mut rng, num, live_den);
            row.push(live);
        }
        let ghost pre = grid.deep_view();
        let ghost rv = row@;
        grid.push(row);
        proof {
            assert forall|r: int| 0 <= r < pre.len() implies #[trigger] grid.deep_view()[r]
                == pre[r] by {
                assert(grid@[r].deep_view() == pre[r]);
            }
            assert(grid.deep_view()[i as int].len() == rv.len());
            assert forall|c: int| 0 <= c < rv.len() implies #[trigger] grid.deep_view()[i as int][c]
                == rv[c] by {
                assert(grid@[i as int].deep_view()[c] == rv[c]);
            }
        }
    }
    grid
}

} // verus!
