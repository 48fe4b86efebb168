//! Image patches and their projection to embeddings.

use vstd::prelude::*;
use vstd::slice::slice_subrange;

use crate::buffer::extend;
use crate::ops;
use crate::ops::linear_vec;
use crate::scalar;
use crate::scalar::Scalar;

verus! {

/// Where row `dy` of the patch at `(py, px)` starts in a flat image of
/// `[height, width, channels]`.
pub open spec fn patch_row_start(
    width: int,
    channels: int,
    patch: int,
    py: int,
    px: int,
    dy: int,
) -> int {
    ((py * patch + dy) * width + px * patch) * channels
}

/// The pixels of the patch at `(py, px)`, row after row.
pub open spec fn patch_pixels<T>(
    image: Seq<T>,
    width: int,
    channels: int,
    patch: nat,
    py: int,
    px: int,
) -> Seq<T> {
    ops::blocks(
        patch,
        |dy: int|
            {
                let at = patch_row_start(width, channels, patch as int, py, px, dy);
                image.subrange(at, at + patch * channels)
            },
    )
}

/// The embeddings of all whole patches of an image, from the top left, line
/// by line.
pub open spec fn patch_embeddings<T: Scalar>(
    image: Seq<T>,
    height: nat,
    width: nat,
    channels: nat,
    patch: nat,
    projection: Seq<T>,
    dim: nat,
) -> Seq<T> {
    ops::blocks(
        height / patch,
        |py: int|
            ops::blocks(
                width / patch,
                |px: int|
                    ops::linear_row(
                        patch_pixels(image, width as int, channels as int, patch, py, px),
                        projection,
                        Seq::empty(),
                        patch * patch * channels,
                        dim,
                    ),
            ),
    )
}

/// A row of a patch lies inside the image.
proof fn lemma_patch_bounds(
    height: int,
    width: int,
    channels: int,
    patch: int,
    py: int,
    px: int,
    dy: int,
)
    requires
        patch > 0,
        height >= 0,
        width >= 0,
        channels >= 0,
        0 <= py < height / patch,
        0 <= px < width / patch,
        0 <= dy < patch,
    ensures
        0 <= py * patch + dy < height,
        0 <= px * patch,
        px * patch + patch <= width,
        0 <= (py * patch + dy) * width,
        0 <= patch_row_start(width, channels, patch, py, px, dy),
        (py * patch + dy) * width + px * patch <= height * width,
        patch_row_start(width, channels, patch, py, px, dy) + patch * channels <= height * width
            * channels,
        0 <= patch * channels,
{
    let r = py * patch + dy;
    assert((height / patch) * patch <= height) by (nonlinear_arith)
        requires
            patch > 0,
            height >= 0,
    ;
    assert((width / patch) * patch <= width) by (nonlinear_arith)
        requires
            patch > 0,
            width >= 0,
    ;
    ops::lemma_row_bounds(py, height / patch, patch);
    ops::lemma_row_bounds(px, width / patch, patch);
    assert(0 <= r < height);
    ops::lemma_row_bounds(r, height, width);
    let c = px * patch;
    assert(0 <= (r * width + c) * channels) by (nonlinear_arith)
        requires
            0 <= r * width,
            0 <= c,
            0 <= channels,
    ;
    assert((r * width + c) * channels + patch * channels <= height * width * channels)
        by (nonlinear_arith)
        requires
            r * width + width <= height * width,
            c + patch <= width,
            0 <= channels,
    ;
    assert(0 <= patch * channels) by (nonlinear_arith)
        requires
            patch > 0,
            channels >= 0,
    ;
}

fn read_patch<T: Copy>(
    image: &[T],
    height: usize,
    width: usize,
    channels: usize,
    patch: usize,
    py: usize,
    px: usize,
) -> (r: Vec<T>)
    requires
        patch > 0,
        image@.len() == height * width * channels,
        height * width <= usize::MAX,
        py < height / patch,
        px < width / patch,
        patch * channels <= usize::MAX,
    ensures
        r@ == patch_pixels(
            image@,
            width as int,
            channels as int,
            patch as nat,
            py as int,
            px as int,
        ),
        r@.len() == patch * patch * channels,
{
    let n = patch * channels;
    let len = image.len();
    let ghost f = |dy: int|
        {
            let at = patch_row_start(
                width as int,
                channels as int,
                patch as int,
                py as int,
                px as int,
                dy,
            );
            image@.subrange(at, at + patch * channels)
        };
    let mut out: Vec<T> = Vec::new();
    for dy in 0..patch
        invariant
            patch > 0,
            len == image@.len(),
            image@.len() == height * width * channels,
            height * width <= usize::MAX,
            py < height / patch,
            px < width / patch,
            n == patch * channels,
            f == (|dy: int|
                {
                    let at = patch_row_start(
                        width as int,
                        channels as int,
                        patch as int,
                        py as int,
                        px as int,
                        dy,
                    );
                    image@.subrange(at, at + patch * channels)
                }),
            out@ == ops::blocks(dy as nat, f),
    {
        proof {
            lemma_patch_bounds(
                height as int,
                width as int,
                channels as int,
                patch as int,
                py as int,
                px as int,
                dy as int,
            );
        }
        let at = ((py * patch + dy) * width + px * patch) * channels;
        extend(&mut out, slice_subrange(image, at, at + n));
        assert(out@ =~= ops::blocks((dy + 1) as nat, f));
    }
    proof {
        assert forall|dy: int| 0 <= dy < patch implies #[trigger] f(dy).len() == n by {
            lemma_patch_bounds(
                height as int,
                width as int,
                channels as int,
                patch as int,
                py as int,
                px as int,
                dy,
            );
        }
        ops::lemma_blocks_len(patch as nat, f, n as nat);
        assert(patch * (patch * channels) == patch * patch * channels) by (nonlinear_arith);
    }
    out
}

pub proof fn lemma_patch_embeddings_len<T: Scalar>(
    image: Seq<T>,
    height: nat,
    width: nat,
    channels: nat,
    patch: nat,
    projection: Seq<T>,
    dim: nat,
)
    requires
        patch > 0,
    ensures
        patch_embeddings(image, height, width, channels, patch, projection, dim).len() == (height
            / patch) * (width / patch) * dim,
{
    let g = |py: int|
        ops::blocks(
            width / patch,
            |px: int|
                ops::linear_row(
                    patch_pixels(image, width as int, channels as int, patch, py, px),
                    projection,
                    Seq::empty(),
                    patch * patch * channels,
                    dim,
                ),
        );
    assert forall|py: int| 0 <= py < height / patch implies #[trigger] g(py).len() == (width
        / patch) * dim by {
        let f = |px: int|
            ops::linear_row(
                patch_pixels(image, width as int, channels as int, patch, py, px),
                projection,
                Seq::empty(),
                patch * patch * channels,
                dim,
            );
        ops::lemma_blocks_len(width / patch, f, dim);
    }
    ops::lemma_blocks_len(height / patch, g, (width / patch) * dim);
    let a = height / patch;
    let b = width / patch;
    assert(a * (b * dim) == a * b * dim) by (nonlinear_arith);
}

/// Cuts an image into patches and projects each to `dim` elements.
///
/// `image` is `[height * width * channels]` (flat, HWC layout); `projection`
/// is `[dim, patch * patch * channels]`. Returns a row for each patch.
pub fn patch_embed<T: Scalar>(
    image: &[T],
    height: usize,
    width: usize,
    channels: usize,
    patch: usize,
    projection: &[T],
    dim: usize,
) -> (r: Vec<T>)
    requires
        scalar::arithmetic::<T>(),
        patch > 0,
        image@.len() == height * width * channels,
        height * width <= usize::MAX,
        patch * channels <= usize::MAX,
        patch * patch * channels <= usize::MAX,
        patch * patch <= usize::MAX,
        projection@.len() == dim * (patch * patch * channels),
    ensures
        r@ == patch_embeddings(
            image@,
            height as nat,
            width as nat,
            channels as nat,
            patch as nat,
            projection@,
            dim as nat,
        ),
        r@.len() == (height / patch) * (width / patch) * dim,
{
    let k = patch * patch * channels;
    let none: Vec<T> = Vec::new();
    let rows = height / patch;
    let cols = width / patch;
    let ghost g = |py: int|
        ops::blocks(
            cols as nat,
            |px: int|
                ops::linear_row(
                    patch_pixels(image@, width as int, channels as int, patch as nat, py, px),
                    projection@,
                    Seq::empty(),
                    patch as nat * patch as nat * channels as nat,
                    dim as nat,
                ),
        );
    let mut out: Vec<T> = Vec::new();
    for py in 0..rows
        invariant
            scalar::arithmetic::<T>(),
            patch > 0,
            image@.len() == height * width * channels,
            height * width <= usize::MAX,
            patch * channels <= usize::MAX,
            k == patch * patch * channels,
            projection@.len() == dim * k,
            none@ == Seq::<T>::empty(),
            rows == height / patch,
            cols == width / patch,
            g == (|py: int|
                ops::blocks(
                    cols as nat,
                    |px: int|
                        ops::linear_row(
                            patch_pixels(
                                image@,
                                width as int,
                                channels as int,
                                patch as nat,
                                py,
                                px,
                            ),
                            projection@,
                            Seq::empty(),
                            patch as nat * patch as nat * channels as nat,
                            dim as nat,
                        ),
                )),
            out@ == ops::blocks(py as nat, g),
    {
        let ghost done = out@;
        let ghost f = |px: int|
            ops::linear_row(
                patch_pixels(
                    image@,
                    width as int,
                    channels as int,
                    patch as nat,
                    py as int,
                    px,
                ),
                projection@,
                Seq::empty(),
                patch as nat * patch as nat * channels as nat,
                dim as nat,
            );
        assert(done + ops::blocks(0, f) =~= done);
        for px in 0..cols
            invariant
                scalar::arithmetic::<T>(),
                patch > 0,
                image@.len() == height * width * channels,
                height * width <= usize::MAX,
                patch * channels <= usize::MAX,
                k == patch * patch * channels,
                projection@.len() == dim * k,
                none@ == Seq::<T>::empty(),
                rows == height / patch,
                cols == width / patch,
                py < rows,
                f == (|px: int|
                    ops::linear_row(
                        patch_pixels(
                            image@,
                            width as int,
                            channels as int,
                            patch as nat,
                            py as int,
                            px,
                        ),
                        projection@,
                        Seq::empty(),
                        patch as nat * patch as nat * channels as nat,
                        dim as nat,
                    )),
                out@ == done + ops::blocks(px as nat, f),
        {
            let pixels = read_patch(image, height, width, channels, patch, py, px);
            let y = linear_vec(pixels.as_slice(), projection, none.as_slice(), k, dim);
            extend(&mut out, y.as_slice());
            assert(out@ =~= done + ops::blocks((px + 1) as nat, f));
        }
        assert(out@ =~= ops::blocks((py + 1) as nat, g));
    }
    proof {
        lemma_patch_embeddings_len(
            image@,
            height as nat,
            width as nat,
            channels as nat,
            patch as nat,
            projection@,
            dim as nat,
        );
    }
    out
}

} // verus!
