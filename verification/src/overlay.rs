//! Covering an overlay window with copies of the texture block.
//!
//! Each monitor gets one layered window; its bitmap is the texture block
//! repeated every `TILE` pixels across and down, so the texture is seamless
//! over the whole monitor.  The window calls themselves happen outside this
//! crate.

use vstd::prelude::*;
use crate::texture::TILE;
use vstd::arithmetic::div_mod::lemma_fundamental_div_mod_converse_mod;

verus! {

/// A rectangle in physical screen pixels, edges as the system reports them.
#[derive(Clone, Copy, Debug, PartialEq, Eq, Structural)]
pub struct Rect {
    pub left: i32,
    pub top: i32,
    pub right: i32,
    pub bottom: i32,
}

impl Rect {
    /// Width, `right - left`.
    pub fn width(&self) -> (w: i32)
        requires
            i32::MIN <= self.right - self.left <= i32::MAX,
        ensures
            w == self.right - self.left,
    {
        self.right - self.left
    }

    /// Height, `bottom - top`.
    pub fn height(&self) -> (h: i32)
        requires
            i32::MIN <= self.bottom - self.top <= i32::MAX,
        ensures
            h == self.bottom - self.top,
    {
        self.bottom - self.top
    }
}

/// Byte length of a texture block: `TILE` by `TILE` pixels of four bytes.
pub open spec fn tile_bytes() -> int {
    TILE as int * TILE as int * 4
}

/// A texture block of the wrong size was handed over.
#[derive(Clone, Copy, Debug, PartialEq, Eq, Structural)]
pub enum TextureError {
    InvalidTileSize,
}

/// What drawing a texture block of `tile_len` bytes on a window covering
/// `rect` comes to: a refusal for a block of the wrong size, nothing for an
/// empty window, else the bitmap's width and height.
pub fn blit_extent(tile_len: usize, rect: &Rect) -> (r: Result<Option<(usize, usize)>, TextureError>)
    requires
        tile_len == tile_bytes() ==> i32::MIN <= rect.right - rect.left <= i32::MAX,
        tile_len == tile_bytes() ==> i32::MIN <= rect.bottom - rect.top <= i32::MAX,
    ensures
        r is Err <==> tile_len != tile_bytes(),
        r matches Ok(None) ==> rect.right - rect.left <= 0 || rect.bottom - rect.top <= 0,
        r matches Ok(Some((w, h))) ==> w == rect.right - rect.left && h == rect.bottom - rect.top
            && w > 0 && h > 0,
        tile_len == tile_bytes() && rect.right - rect.left > 0 && rect.bottom - rect.top > 0
            ==> r is Ok && r->Ok_0 is Some,
{
    if tile_len != TILE * TILE * 4 {
        return Err(TextureError::InvalidTileSize);
    }
    let w = rect.width();
    let h = rect.height();
    if w <= 0 || h <= 0 {
        return Ok(None);
    }
    Ok(Some((w as usize, h as usize)))
}

/// Row `y` of a bitmap `row_len` bytes wide covered with copies of `tile`:
/// row `y % TILE` of the block, repeated.
pub open spec fn tiled_row(tile: Seq<u8>, y: int, row_len: int) -> Seq<u8> {
    Seq::new(
        row_len as nat,
        |j: int| tile[(y % TILE as int) * (TILE as int * 4) + j % (TILE as int * 4)],
    )
}

/// The first `n` rows of such a bitmap, one after the other.
pub open spec fn tiled_rows(tile: Seq<u8>, n: int, row_len: int) -> Seq<u8>
    decreases n,
{
    if n <= 0 {
        Seq::empty()
    } else {
        tiled_rows(tile, n - 1, row_len) + tiled_row(tile, n - 1, row_len)
    }
}

proof fn lemma_tiled_rows_len(tile: Seq<u8>, n: int, row_len: int)
    requires
        n >= 0,
        row_len >= 0,
    ensures
        tiled_rows(tile, n, row_len).len() == n * row_len,
    decreases n,
{
    if n > 0 {
        lemma_tiled_rows_len(tile, n - 1, row_len);
        assert(tiled_row(tile, n - 1, row_len).len() == row_len);
        assert((n - 1) * row_len + row_len == n * row_len) by (nonlinear_arith);
    } else {
        assert(n * row_len == 0) by (nonlinear_arith)
            requires
                n == 0,
        ;
    }
}

/// Byte `j` of row `y` of the tiled bitmap comes from row `y % TILE` of the
/// block, byte `j % (4 * TILE)`.
pub proof fn lemma_tiled_rows_index(tile: Seq<u8>, n: int, row_len: int, y: int, j: int)
    requires
        0 <= y < n,
        0 <= j < row_len,
    ensures
        tiled_rows(tile, n, row_len)[y * row_len + j] == tile[(y % TILE as int) * (TILE as int
            * 4) + j % (TILE as int * 4)],
    decreases n,
{
    lemma_tiled_rows_len(tile, n - 1, row_len);
    if y < n - 1 {
        assert(y * row_len + j < (n - 1) * row_len) by (nonlinear_arith)
            requires
                0 <= y < n - 1,
                0 <= j < row_len,
        ;
        assert(y * row_len + j >= 0) by (nonlinear_arith)
            requires
                y >= 0,
                j >= 0,
                row_len > 0,
        ;
        lemma_tiled_rows_index(tile, n - 1, row_len, y, j);
    }
}

/// The bitmap of a `width` by `height` window covered with copies of the
/// texture block, four bytes per pixel, rows top to bottom.
pub fn tile_fill(tile: &[u8], width: usize, height: usize) -> (dst: Vec<u8>)
    requires
        tile@.len() == tile_bytes(),
        width * height * 4 <= usize::MAX,
    ensures
        dst@ == tiled_rows(tile@, height as int, width * 4),
        dst@.len() == width * height * 4,
{
    let mut dst: Vec<u8> = Vec::new();
    if height == 0 {
        proof {
            lemma_tiled_rows_len(tile@, 0, width * 4);
        }
        return dst;
    }
    proof {
        assert(width * 4 <= width * height * 4) by (nonlinear_arith)
            requires
                height >= 1,
        ;
    }
    let row_len: usize = width * 4;
    let mut yy: usize = 0;
    while yy < height
        invariant
            tile@.len() == tile_bytes(),
            row_len == width * 4,
            width * height * 4 <= usize::MAX,
            yy <= height,
            dst@ == tiled_rows(tile@, yy as int, row_len as int),
        decreases height - yy,
    {
        let ty: usize = yy % TILE;
        let ghost row_start = dst@;
        let mut j: usize = 0;
        while j < row_len
            invariant
                tile@.len() == tile_bytes(),
                ty == yy % TILE,
                ty < TILE,
                j <= row_len,
                row_start == tiled_rows(tile@, yy as int, row_len as int),
                dst@ == row_start + tiled_row(tile@, yy as int, row_len as int).subrange(0, j as int),
            decreases row_len - j,
        {
            let k: usize = j % (TILE * 4);
            proof {
                assert(ty * (TILE * 4) + k < tile_bytes()) by (nonlinear_arith)
                    requires
                        ty < TILE,
                        k < TILE * 4,
                        TILE == 512,
                ;
            }
            dst.push(tile[ty * (TILE * 4) + k]);
            j = j + 1;
            assert(dst@ =~= row_start + tiled_row(tile@, yy as int, row_len as int).subrange(0, j as int));
        }
        assert(tiled_row(tile@, yy as int, row_len as int).subrange(0, row_len as int) =~= tiled_row(tile@, yy as int, row_len as int));
        yy = yy + 1;
    }
    proof {
        lemma_tiled_rows_len(tile@, height as int, row_len as int);
        assert(height * (width * 4) == width * height * 4) by (nonlinear_arith);
    }
    dst
}

/// The bitmap repeats the block every `TILE` pixels in both directions:
/// channel `c` of pixel `(x, y)` is channel `c` of block pixel
/// `(x % TILE, y % TILE)`.
pub proof fn lemma_tiled_pixel(tile: Seq<u8>, width: int, height: int, x: int, y: int, c: int)
    requires
        0 <= x < width,
        0 <= y < height,
        0 <= c < 4,
    ensures
        tiled_rows(tile, height, width * 4)[(y * width + x) * 4 + c] == tile[((y % TILE as int)
            * TILE as int + x % TILE as int) * 4 + c],
{
    let j = x * 4 + c;
    assert(0 <= j < width * 4);
    lemma_tiled_rows_index(tile, height, width * 4, y, j);
    assert(y * (width * 4) + j == (y * width + x) * 4 + c) by (nonlinear_arith)
        requires
            j == x * 4 + c,
    ;
    let q = x / (TILE as int);
    let r = x % (TILE as int);
    assert(x == q * TILE as int + r);
    assert(j == q * (TILE as int * 4) + (r * 4 + c));
    lemma_fundamental_div_mod_converse_mod(j, TILE as int * 4, q, r * 4 + c);
    assert((y % TILE as int) * (TILE as int * 4) + (r * 4 + c) == ((y % TILE as int) * TILE as int
        + r) * 4 + c) by (nonlinear_arith);
}

/// The steps of rebuilding the overlays after a display change.  The new
/// windows are all textured before they replace the old ones, so the screen
/// never shows an overlay without its texture; if anything fails, the old
/// overlays stay.
#[derive(Clone, Copy, Debug, PartialEq, Eq, Structural)]
pub enum RebuildStep {
    /// Find this program's module handle.
    LocateModule,
    /// Create one new overlay window per monitor.
    SpawnOverlays,
    /// Draw the current texture on new overlay `i`.
    PrepareOverlay(usize),
    /// Put the new overlays in place and destroy the old ones.
    SwapOverlays,
    /// Show or hide the new overlays as the state says.
    ApplyVisibility,
    /// Destroy the new overlays; the old ones stay.
    DiscardNew,
    /// Nothing is left to do.
    Finished,
}

/// The step after `step` when it succeeded (`ok`) or failed; `count` is the
/// number of new overlays.
pub open spec fn next_rebuild_step(step: RebuildStep, ok: bool, count: nat) -> RebuildStep {
    match step {
        RebuildStep::LocateModule => if ok {
            RebuildStep::SpawnOverlays
        } else {
            RebuildStep::Finished
        },
        RebuildStep::SpawnOverlays => if !ok {
            RebuildStep::Finished
        } else if count == 0 {
            RebuildStep::SwapOverlays
        } else {
            RebuildStep::PrepareOverlay(0)
        },
        RebuildStep::PrepareOverlay(i) => if !ok {
            RebuildStep::DiscardNew
        } else if i + 1 < count {
            RebuildStep::PrepareOverlay((i + 1) as usize)
        } else {
            RebuildStep::SwapOverlays
        },
        RebuildStep::SwapOverlays => RebuildStep::ApplyVisibility,
        RebuildStep::ApplyVisibility => RebuildStep::Finished,
        RebuildStep::DiscardNew => RebuildStep::Finished,
        RebuildStep::Finished => RebuildStep::Finished,
    }
}

/// A rebuild in progress.
pub struct RebuildJob {
    step: RebuildStep,
    count: usize,
}

impl RebuildJob {
    pub closed spec fn current(&self) -> RebuildStep {
        self.step
    }

    pub closed spec fn new_overlays(&self) -> nat {
        self.count as nat
    }

    /// A rebuild that starts by locating the module.
    pub fn new() -> (job: RebuildJob)
        ensures
            job.current() == RebuildStep::LocateModule,
            job.new_overlays() == 0,
    {
        RebuildJob { step: RebuildStep::LocateModule, count: 0 }
    }

    /// The step to do next.
    pub fn step(&self) -> (s: RebuildStep)
        ensures
            s == self.current(),
    {
        self.step
    }

    /// Records the outcome of the current step; `spawned` is the number of
    /// windows created and counts only for the spawning step.
    pub fn advance(&mut self, ok: bool, spawned: usize)
        ensures
            final(self).new_overlays() == (if old(self).current() == RebuildStep::SpawnOverlays
                && ok {
                spawned as nat
            } else {
                old(self).new_overlays()
            }),
            final(self).current() == next_rebuild_step(
                old(self).current(),
                ok,
                final(self).new_overlays(),
            ),
    {
        if self.step == RebuildStep::SpawnOverlays && ok {
            self.count = spawned;
        }
        self.step = match self.step {
            RebuildStep::LocateModule => if ok {
                RebuildStep::SpawnOverlays
            } else {
                RebuildStep::Finished
            },
            RebuildStep::SpawnOverlays => if !ok {
                RebuildStep::Finished
            } else if self.count == 0 {
                RebuildStep::SwapOverlays
            } else {
                RebuildStep::PrepareOverlay(0)
            },
            RebuildStep::PrepareOverlay(i) => if !ok {
                RebuildStep::DiscardNew
            } else if self.count > 0 && i < self.count - 1 {
                RebuildStep::PrepareOverlay(i + 1)
            } else {
                RebuildStep::SwapOverlays
            },
            RebuildStep::SwapOverlays => RebuildStep::ApplyVisibility,
            RebuildStep::ApplyVisibility => RebuildStep::Finished,
            RebuildStep::DiscardNew => RebuildStep::Finished,
            RebuildStep::Finished => RebuildStep::Finished,
        };
    }
}

/// Whether the steps from `step`, with outcomes `outs`, pass through the
/// swap.
pub open spec fn rebuild_reaches_swap(step: RebuildStep, count: nat, outs: Seq<bool>) -> bool
    decreases outs.len(),
{
    if step == RebuildStep::SwapOverlays {
        true
    } else if outs.len() == 0 {
        false
    } else {
        rebuild_reaches_swap(next_rebuild_step(step, outs[0], count), count, outs.drop_first())
    }
}

proof fn lemma_stuck_never_swaps(step: RebuildStep, count: nat, outs: Seq<bool>)
    requires
        step == RebuildStep::Finished || step == RebuildStep::DiscardNew,
    ensures
        !rebuild_reaches_swap(step, count, outs),
    decreases outs.len(),
{
    if outs.len() > 0 {
        lemma_stuck_never_swaps(next_rebuild_step(step, outs[0], count), count, outs.drop_first());
    }
}

proof fn lemma_prepare_swaps_iff(i: nat, count: nat, outs: Seq<bool>)
    requires
        i < count <= usize::MAX,
        outs.len() >= count - i,
    ensures
        rebuild_reaches_swap(RebuildStep::PrepareOverlay(i as usize), count, outs) <==> (forall|j: int|
            0 <= j < count - i ==> #[trigger] outs[j]),
    decreases count - i,
{
    let next = next_rebuild_step(RebuildStep::PrepareOverlay(i as usize), outs[0], count);
    let rest = outs.drop_first();
    assert(rebuild_reaches_swap(RebuildStep::PrepareOverlay(i as usize), count, outs)
        == rebuild_reaches_swap(next, count, rest));
    if !outs[0] {
        lemma_stuck_never_swaps(next, count, rest);
        assert(!(forall|j: int| 0 <= j < count - i ==> #[trigger] outs[j]));
    } else if i + 1 < count {
        lemma_prepare_swaps_iff(i + 1, count, rest);
        if forall|j: int| 0 <= j < count - (i + 1) ==> #[trigger] rest[j] {
            assert forall|j: int| 0 <= j < count - i implies #[trigger] outs[j] by {
                if j > 0 {
                    assert(rest[j - 1] == outs[j]);
                }
            }
        }
        if forall|j: int| 0 <= j < count - i ==> #[trigger] outs[j] {
            assert forall|j: int| 0 <= j < count - (i + 1) implies #[trigger] rest[j] by {
                assert(outs[j + 1] == rest[j]);
            }
        }
    } else {
        assert(next == RebuildStep::SwapOverlays);
        assert(rebuild_reaches_swap(next, count, rest));
        assert forall|j: int| 0 <= j < count - i implies #[trigger] outs[j] by {
            assert(j == 0);
        }
    }
}

/// The old overlays are replaced exactly when the module is found, the new
/// windows are created and every one of them has been textured; any failure
/// before that keeps the old overlays.
pub proof fn lemma_rebuild_swaps_iff_all_prepared(count: nat, outs: Seq<bool>)
    requires
        count <= usize::MAX,
        outs.len() >= count + 2,
    ensures
        rebuild_reaches_swap(RebuildStep::LocateModule, count, outs) <==> (forall|j: int|
            0 <= j < count + 2 ==> #[trigger] outs[j]),
{
    let o1 = outs.drop_first();
    let o2 = o1.drop_first();
    assert(rebuild_reaches_swap(RebuildStep::LocateModule, count, outs) == rebuild_reaches_swap(
        next_rebuild_step(RebuildStep::LocateModule, outs[0], count),
        count,
        o1,
    ));
    if outs[0] {
        assert(rebuild_reaches_swap(RebuildStep::SpawnOverlays, count, o1) == rebuild_reaches_swap(
            next_rebuild_step(RebuildStep::SpawnOverlays, o1[0], count),
            count,
            o2,
        ));
    }
    if !outs[0] {
        lemma_stuck_never_swaps(RebuildStep::Finished, count, o1);
    } else if !o1[0] {
        assert(outs[1] == o1[0]);
        lemma_stuck_never_swaps(RebuildStep::Finished, count, o2);
    } else {
        assert(outs[1] == o1[0]);
        if count > 0 {
            lemma_prepare_swaps_iff(0, count, o2);
            if forall|j: int| 0 <= j < count ==> #[trigger] o2[j] {
                assert forall|j: int| 0 <= j < count + 2 implies #[trigger] outs[j] by {
                    if j >= 2 {
                        assert(o2[j - 2] == outs[j]);
                    }
                }
            }
            if forall|j: int| 0 <= j < count + 2 ==> #[trigger] outs[j] {
                assert forall|j: int| 0 <= j < count implies #[trigger] o2[j] by {
                    assert(outs[j + 2] == o2[j]);
                }
            }
        } else {
            assert forall|j: int| 0 <= j < count + 2 implies #[trigger] outs[j] by {
                if j == 1 {
                    assert(outs[1] == o1[0]);
                }
            }
        }
    }
}

} // verus!
