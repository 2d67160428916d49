//! Image pyramids built by 2x2 box filtering.
//!
//! Level 0 is a compact copy of the base image. Each further level halves
//! the one before it: a pixel is the rounded mean of a 2x2 block, and an odd
//! trailing row or column is discarded. The coarsest level is the last one.

use vstd::prelude::*;
use crate::error::CorrMatchError;
use crate::error::CorrMatchResult;
use crate::image::lemma_compact;
use crate::image::lemma_contiguous_wf;
use crate::image::lemma_offset_split;
use crate::image::lemma_pixel_in_bounds;
use crate::image::rows_needed;
use crate::image::ImageView;
use crate::image::OwnedImage;
use crate::image::Raster;

verus! {

/// Rounded mean of the 2x2 block whose top-left pixel is `(2x, 2y)`.
pub open spec fn box_mean(src: Raster<u8>, x: int, y: int) -> u8 {
    ((src.pixel(2 * x, 2 * y) + src.pixel(2 * x + 1, 2 * y) + src.pixel(2 * x, 2 * y + 1)
        + src.pixel(2 * x + 1, 2 * y + 1) + 2) / 4) as u8
}

/// Whether an image is large enough to be halved.
pub open spec fn can_halve(src: Raster<u8>) -> bool {
    src.width >= 2 && src.height >= 2
}

/// The image at half the resolution, without row padding.
pub open spec fn halved(src: Raster<u8>) -> Raster<u8> {
    let w = src.width / 2;
    let h = src.height / 2;
    Raster {
        data: Seq::new(w * h, |i: int| box_mean(src, i % (w as int), i / (w as int))),
        width: w,
        height: h,
        stride: w,
    }
}

/// The levels from `top` down to the coarsest, at most `budget` of them.
pub open spec fn levels_from(top: Raster<u8>, budget: nat) -> Seq<Raster<u8>>
    decreases budget,
{
    if budget <= 1 || !can_halve(top) {
        seq![top]
    } else {
        seq![top] + levels_from(halved(top), (budget - 1) as nat)
    }
}

/// The pyramid of `base` with at most `max_levels` levels, and at least one.
pub open spec fn pyramid_levels(base: Raster<u8>, max_levels: nat) -> Seq<Raster<u8>> {
    levels_from(
        base.compact(),
        if max_levels < 1 {
            1
        } else {
            max_levels
        },
    )
}

/// A sequence of images in which each one is the half of the one before it.
pub open spec fn is_pyramid(levels: Seq<Raster<u8>>) -> bool {
    &&& levels.len() >= 1
    &&& forall|k: int| 0 <= k < levels.len() ==> (#[trigger] levels[k]).wf() && levels[k].contiguous()
    &&& forall|k: int|
        0 <= k && k + 1 < levels.len() ==> can_halve(#[trigger] levels[k]) && levels[k + 1]
            == halved(levels[k])
}

/// The half of an image that can be halved is a well-formed compact image
/// of half the width and height, rounded down, whose pixels are the rounded
/// means of the 2x2 blocks of the source.
pub proof fn lemma_halved(src: Raster<u8>)
    requires
        src.wf(),
        can_halve(src),
    ensures
        halved(src).wf(),
        halved(src).contiguous(),
        halved(src).width == src.width / 2,
        halved(src).height == src.height / 2,
        forall|x: int, y: int|
            halved(src).contains(x, y) ==> #[trigger] halved(src).pixel(x, y) == box_mean(
                src,
                x,
                y,
            ),
{
    let dst = halved(src);
    let w = dst.width as int;
    let h = dst.height as int;
    lemma_contiguous_wf(dst);
    assert forall|x: int, y: int| dst.contains(x, y) implies #[trigger] dst.pixel(x, y)
        == box_mean(src, x, y) by {
        lemma_offset_split(x, y, w);
        assert(0 <= y * w + x < w * h) by (nonlinear_arith)
            requires
                0 <= x < w,
                0 <= y < h,
        ;
    }
}

/// Every level of a pyramid halves the one before it, pixel by pixel: it has
/// half the width and half the height, rounded down, and each of its pixels is
/// `(a + b + c + d + 2) / 4` over the 2x2 block it covers. The first level
/// shows the base image, and the pyramid ends where the level budget is used
/// up or the last level has a side shorter than two pixels.
pub proof fn lemma_pyramid_levels(base: Raster<u8>, max_levels: nat)
    requires
        base.wf(),
    ensures
        is_pyramid(pyramid_levels(base, max_levels)),
        pyramid_levels(base, max_levels)[0] == base.compact(),
        pyramid_levels(base, max_levels).len() <= (if max_levels < 1 {
            1
        } else {
            max_levels
        }),
        pyramid_levels(base, max_levels).len() == max_levels || !can_halve(
            pyramid_levels(base, max_levels).last(),
        ) || max_levels == 0,
        forall|k: int, x: int, y: int|
            #![trigger pyramid_levels(base, max_levels)[k + 1].pixel(x, y)]
            0 <= k && k + 1 < pyramid_levels(base, max_levels).len() && pyramid_levels(
                base,
                max_levels,
            )[k + 1].contains(x, y) ==> {
                let fine = pyramid_levels(base, max_levels)[k];
                let coarse = pyramid_levels(base, max_levels)[k + 1];
                &&& coarse.width == fine.width / 2
                &&& coarse.height == fine.height / 2
                &&& coarse.pixel(x, y) == ((fine.pixel(2 * x, 2 * y) + fine.pixel(2 * x + 1, 2 * y)
                    + fine.pixel(2 * x, 2 * y + 1) + fine.pixel(2 * x + 1, 2 * y + 1) + 2)
                    / 4) as u8
            },
{
    let budget: nat = if max_levels < 1 {
        1
    } else {
        max_levels
    };
    lemma_compact(base);
    lemma_levels_from(base.compact(), budget);
    let levels = pyramid_levels(base, max_levels);
    assert forall|k: int, x: int, y: int|
        #![trigger levels[k + 1].pixel(x, y)]
        0 <= k && k + 1 < levels.len() && levels[k + 1].contains(x, y) implies {
        &&& levels[k + 1].width == levels[k].width / 2
        &&& levels[k + 1].height == levels[k].height / 2
        &&& levels[k + 1].pixel(x, y) == box_mean(levels[k], x, y)
    } by {
        assert(levels[k].wf());
        lemma_halved(levels[k]);
    }
}

/// What `levels_from` yields for a well-formed compact image.
pub proof fn lemma_levels_from(top: Raster<u8>, budget: nat)
    requires
        top.wf(),
        top.contiguous(),
        budget >= 1,
    ensures
        is_pyramid(levels_from(top, budget)),
        levels_from(top, budget)[0] == top,
        levels_from(top, budget).len() <= budget,
        levels_from(top, budget).len() == budget || !can_halve(levels_from(top, budget).last()),
    decreases budget,
{
    if budget <= 1 || !can_halve(top) {
    } else {
        let rest = levels_from(halved(top), (budget - 1) as nat);
        lemma_halved(top);
        lemma_levels_from(halved(top), (budget - 1) as nat);
        let all = levels_from(top, budget);
        assert(all == seq![top] + rest);
        assert forall|k: int| 0 <= k < all.len() implies (#[trigger] all[k]).wf()
            && all[k].contiguous() by {
            if k > 0 {
                assert(all[k] == rest[k - 1]);
            }
        }
        assert forall|k: int| 0 <= k && k + 1 < all.len() implies can_halve(#[trigger] all[k])
            && all[k + 1] == halved(all[k]) by {
            assert(all[k + 1] == rest[k]);
            if k > 0 {
                assert(all[k] == rest[k - 1]);
            }
        }
        assert(all.last() == rest.last());
    }
}

/// Owned image pyramid built from a base level.
pub struct ImagePyramid {
    levels: Vec<OwnedImage>,
}

impl View for ImagePyramid {
    type V = Seq<Raster<u8>>;

    closed spec fn view(&self) -> Seq<Raster<u8>> {
        Seq::new(self.levels@.len(), |i: int| self.levels@[i].raster())
    }
}

/// Halves an image with the 2x2 box filter.
fn downsample(src: ImageView<'_, u8>) -> (r: CorrMatchResult<OwnedImage>)
    requires
        src@.wf(),
        can_halve(src@),
    ensures
        r is Ok,
        r->Ok_0.raster() == halved(src@),
{
    let dst_width = src.width() / 2;
    let dst_height = src.height() / 2;
    proof {
        lemma_halved(src@);
        assert(dst_width * dst_height <= src@.width * src@.height) by (nonlinear_arith)
            requires
                dst_width <= src@.width,
                dst_height <= src@.height,
        ;
        crate::image::lemma_area_fits(src@);
    }
    let src_len = src.as_slice().len();
    let dst_len = dst_width * dst_height;
    let mut dst: Vec<u8> = Vec::with_capacity(dst_len);
    let ghost target = halved(src@).data;
    let mut y: usize = 0;
    while y < dst_height
        invariant
            src@.wf(),
            can_halve(src@),
            dst_width == src@.width / 2,
            dst_height == src@.height / 2,
            target == halved(src@).data,
            target.len() == dst_width * dst_height,
            y <= dst_height,
            dst@ =~= target.take(y * dst_width),
        decreases dst_height - y,
    {
        proof {
            assert(0 <= y * dst_width && (y + 1) * dst_width == y * dst_width + dst_width && (y
                + 1) * dst_width <= dst_width * dst_height) by (nonlinear_arith)
                requires
                    0 <= y < dst_height,
                    0 <= dst_width,
            ;
        }
        let row0 = match src.row(2 * y) {
            Some(row) => row,
            None => {
                let needed = rows_needed(2 * y + 1, src.stride(), src.width());
                return Err(CorrMatchError::BufferTooSmall { needed, got: src_len });
            },
        };
        let row1 = match src.row(2 * y + 1) {
            Some(row) => row,
            None => {
                let needed = rows_needed(2 * y + 2, src.stride(), src.width());
                return Err(CorrMatchError::BufferTooSmall { needed, got: src_len });
            },
        };
        let mut x: usize = 0;
        while x < dst_width
            invariant
                src@.wf(),
                can_halve(src@),
                dst_width == src@.width / 2,
                dst_height == src@.height / 2,
                target == halved(src@).data,
                target.len() == dst_width * dst_height,
                y < dst_height,
                x <= dst_width,
                0 <= y * dst_width,
                (y + 1) * dst_width == y * dst_width + dst_width,
                (y + 1) * dst_width <= dst_width * dst_height,
                row0@ == src@.row(2 * y),
                row1@ == src@.row(2 * y + 1),
                row0@.len() == src@.width,
                row1@.len() == src@.width,
                dst@ =~= target.take(y * dst_width + x),
            decreases dst_width - x,
        {
            let a = row0[2 * x];
            let b = row0[2 * x + 1];
            let c = row1[2 * x];
            let d = row1[2 * x + 1];
            let sum: u16 = a as u16 + b as u16 + c as u16 + d as u16;
            let mean: u8 = ((sum + 2) / 4) as u8;
            proof {
                let i = y * dst_width + x;
                lemma_offset_split(x as int, y as int, dst_width as int);
                lemma_pixel_in_bounds(src@, src@.width as int, 2 * y);
                lemma_pixel_in_bounds(src@, src@.width as int, 2 * y + 1);
                assert(a == src@.pixel(2 * x, 2 * y));
                assert(b == src@.pixel(2 * x + 1, 2 * y));
                assert(c == src@.pixel(2 * x, 2 * y + 1));
                assert(d == src@.pixel(2 * x + 1, 2 * y + 1));
                assert(target[i] == box_mean(src@, x as int, y as int));
                assert(mean == target[i]);
            }
            dst.push(mean);
            x += 1;
            proof {
                assert(dst@ =~= target.take(y * dst_width + x));
            }
        }
        y += 1;
    }
    proof {
        assert(y * dst_width == dst_width * dst_height) by (nonlinear_arith)
            requires
                y == dst_height,
        ;
        assert(dst@ =~= target);
    }
    OwnedImage::from_vec(dst, dst_width, dst_height)
}

impl ImagePyramid {
    /// Holds of every value of the type.
    #[verifier::type_invariant]
    pub open spec fn inv(self) -> bool {
        is_pyramid(self@)
    }

    /// Builds a pyramid from a base grayscale view.
    ///
    /// `max_levels` is clamped to at least 1 so the base level is always present.
    pub fn build_u8(base: ImageView<'_, u8>, max_levels: usize) -> (r: CorrMatchResult<Self>)
        ensures
            r is Ok,
            r->Ok_0@ == pyramid_levels(base@, max_levels as nat),
            is_pyramid(r->Ok_0@),
    {
        let max_levels: usize = if max_levels < 1 {
            1
        } else {
            max_levels
        };
        let first = OwnedImage::from_view(base)?;
        let ghost total = levels_from(base@.compact(), max_levels as nat);
        proof {
            use_type_invariant(&base);
            lemma_compact(base@);
            lemma_levels_from(base@.compact(), max_levels as nat);
        }
        let mut levels: Vec<OwnedImage> = Vec::new();
        levels.push(first);
        loop
            invariant
                1 <= levels@.len() <= max_levels,
                levels@.len() <= total.len(),
                forall|k: int| 0 <= k < levels@.len() ==> (#[trigger] levels@[k]).raster() == total[k],
                total == Seq::new(levels@.len() as nat, |k: int| levels@[k].raster()).drop_last()
                    + levels_from(
                    levels@[levels@.len() - 1].raster(),
                    (max_levels - levels@.len() + 1) as nat,
                ),
                is_pyramid(total),
            ensures
                total =~= Seq::new(levels@.len() as nat, |k: int| levels@[k].raster()),
            decreases max_levels - levels@.len(),
        {
            let n = levels.len();
            let ghost built = Seq::new(n as nat, |k: int| levels@[k].raster());
            let ghost top = levels@[n - 1].raster();
            if n >= max_levels {
                proof {
                    assert(levels_from(top, 1) == seq![top]);
                    assert(built =~= built.drop_last() + seq![top]);
                }
                break ;
            }
            let src = levels[n - 1].view();
            if src.width() < 2 || src.height() < 2 {
                proof {
                    assert(levels_from(top, (max_levels - n + 1) as nat) == seq![top]);
                    assert(built =~= built.drop_last() + seq![top]);
                }
                break ;
            }
            let next = downsample(src)?;
            proof {
                let budget = (max_levels - n + 1) as nat;
                assert(levels_from(top, budget) == seq![top] + levels_from(
                    halved(top),
                    (budget - 1) as nat,
                ));
                assert(built =~= built.drop_last() + seq![top]);
                assert(total =~= built + levels_from(halved(top), (budget - 1) as nat));
                assert(levels_from(halved(top), (budget - 1) as nat).len() >= 1);
                assert(total[n as int] == levels_from(halved(top), (budget - 1) as nat)[0]);
                assert(levels_from(halved(top), (budget - 1) as nat)[0] == halved(top));
            }
            levels.push(next);
            proof {
                let grown = Seq::new(levels@.len() as nat, |k: int| levels@[k].raster());
                assert(grown.drop_last() =~= built);
            }
        }
        let pyramid = Self { levels };
        proof {
            assert(pyramid@ =~= total);
        }
        Ok(pyramid)
    }

    /// Returns all pyramid levels (level 0 is the base resolution).
    pub fn levels(&self) -> (s: &[OwnedImage])
        ensures
            s@.len() == self@.len(),
            forall|k: int| 0 <= k < s@.len() ==> (#[trigger] s@[k]).raster() == self@[k],
            is_pyramid(self@),
    {
        proof {
            use_type_invariant(self);
        }
        self.levels.as_slice()
    }

    /// Returns a view for a specific pyramid level.
    pub fn level(&self, index: usize) -> (r: Option<ImageView<'_, u8>>)
        ensures
            match r {
                Some(v) => index < self@.len() && v@ == self@[index as int],
                None => index >= self@.len(),
            },
    {
        if index < self.levels.len() {
            Some(self.levels[index].view())
        } else {
            None
        }
    }

    /// Gives up the pyramid for its levels, finest first.
    pub fn into_levels(self) -> (levels: Vec<OwnedImage>)
        ensures
            levels@.len() == self@.len(),
            forall|k: int| 0 <= k < levels@.len() ==> (#[trigger] levels@[k]).raster() == self@[k],
            is_pyramid(self@),
    {
        proof {
            use_type_invariant(&self);
        }
        self.levels
    }
}

} // verus!
