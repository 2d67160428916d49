//! Strided image views and owned grayscale images.
//!
//! An [`ImageView`] borrows a flat buffer and reads it as `height` rows of
//! `width` elements whose starts lie `stride` elements apart. A region of
//! interest is again a view of the same buffer with the same stride. An
//! [`OwnedImage`] owns a buffer without row padding.
//!
//! Contracts speak of a [`Raster`], the mathematical model of both types.

use vstd::prelude::*;
use vstd::slice::slice_subrange;
use crate::error::CorrMatchError;
use crate::error::CorrMatchResult;

pub mod pyramid;

verus! {

broadcast use vstd::slice::group_slice_axioms;

/// Mathematical model of an image: a flat sequence read row by row.
pub struct Raster<T> {
    pub data: Seq<T>,
    pub width: nat,
    pub height: nat,
    pub stride: nat,
}

impl<T> Raster<T> {
    /// Number of buffer elements a view of this shape reaches.
    pub open spec fn span(self) -> nat {
        ((self.height - 1) * self.stride + self.width) as nat
    }

    /// The shape is non-empty, rows do not overlap, and the buffer backs every row.
    pub open spec fn wf(self) -> bool {
        &&& self.width > 0
        &&& self.height > 0
        &&& self.stride >= self.width
        &&& self.data.len() >= self.span()
    }

    /// The buffer holds the rows back to back and nothing else.
    pub open spec fn contiguous(self) -> bool {
        &&& self.stride == self.width
        &&& self.data.len() == self.width * self.height
    }

    /// Whether `(x, y)` names a pixel of the image.
    pub open spec fn contains(self, x: int, y: int) -> bool {
        0 <= x < self.width && 0 <= y < self.height
    }

    /// The element at column `x` of row `y`.
    pub open spec fn pixel(self, x: int, y: int) -> T
        recommends
            self.wf(),
            self.contains(x, y),
    {
        self.data[y * self.stride + x]
    }

    /// Row `y` as a sequence of `width` elements.
    pub open spec fn row(self, y: int) -> Seq<T>
        recommends
            self.wf(),
            0 <= y < self.height,
    {
        self.data.subrange(y * self.stride, y * self.stride + self.width)
    }

    /// Whether the rectangle with corner `(x, y)` and the given size lies inside the image.
    pub open spec fn holds_region(self, x: int, y: int, width: int, height: int) -> bool {
        &&& width > 0
        &&& height > 0
        &&& 0 <= x
        &&& 0 <= y
        &&& x + width <= self.width
        &&& y + height <= self.height
    }

    /// The region with corner `(x, y)`: the same buffer from that pixel on, same stride.
    pub open spec fn region(self, x: int, y: int, width: int, height: int) -> Raster<T>
        recommends
            self.wf(),
            self.holds_region(x, y, width, height),
    {
        Raster {
            data: self.data.skip(y * self.stride + x),
            width: width as nat,
            height: height as nat,
            stride: self.stride,
        }
    }

    /// The image copied into a buffer without row padding.
    pub open spec fn compact(self) -> Raster<T>
        recommends
            self.wf(),
    {
        Raster {
            data: Seq::new(
                self.width * self.height,
                |i: int| self.pixel(i % (self.width as int), i / (self.width as int)),
            ),
            width: self.width,
            height: self.height,
            stride: self.width,
        }
    }
}

/// Every pixel offset of a well-formed raster lies inside its buffer.
pub proof fn lemma_pixel_in_bounds<T>(r: Raster<T>, x: int, y: int)
    requires
        r.wf(),
        0 <= y < r.height,
        0 <= x <= r.width,
    ensures
        0 <= y * r.stride,
        y * r.stride + x <= r.span(),
        y * r.stride + x <= r.data.len(),
        x < r.width ==> y * r.stride + x < r.data.len(),
{
    assert(0 <= y * r.stride && y * r.stride <= (r.height - 1) * r.stride) by (nonlinear_arith)
        requires
            0 <= y <= r.height - 1,
            0 <= r.stride,
    ;
}

/// A flat offset `y * width + x` with `x < width` splits back into `x` and `y`.
pub proof fn lemma_offset_split(x: int, y: int, width: int)
    requires
        0 <= x < width,
        0 <= y,
    ensures
        (y * width + x) % width == x,
        (y * width + x) / width == y,
{
    vstd::arithmetic::div_mod::lemma_fundamental_div_mod_converse(y * width + x, width, y, x);
}

/// A region of a well-formed raster is well-formed and shows the same pixels, shifted.
pub proof fn lemma_region<T>(r: Raster<T>, x: int, y: int, width: int, height: int)
    requires
        r.wf(),
        r.holds_region(x, y, width, height),
    ensures
        r.region(x, y, width, height).wf(),
        forall|i: int, j: int|
            0 <= i < width && 0 <= j < height ==> #[trigger] r.region(x, y, width, height).pixel(
                i,
                j,
            ) == r.pixel(x + i, y + j),
{
    let sub = r.region(x, y, width, height);
    let start = y * r.stride + x;
    lemma_pixel_in_bounds(r, x, y);
    lemma_pixel_in_bounds(r, x + width, y + height - 1);
    assert((y + height - 1) * r.stride == y * r.stride + (height - 1) * r.stride)
        by (nonlinear_arith);
    assert forall|i: int, j: int| 0 <= i < width && 0 <= j < height implies #[trigger] sub.pixel(
        i,
        j,
    ) == r.pixel(x + i, y + j) by {
        lemma_pixel_in_bounds(r, x + i, y + j);
        assert((y + j) * r.stride == y * r.stride + j * r.stride) by (nonlinear_arith);
        assert(0 <= j * r.stride) by (nonlinear_arith)
            requires
                0 <= j,
                0 <= r.stride,
        ;
    }
}

/// The compact copy of a well-formed raster is well-formed, contiguous, and shows the same pixels.
pub proof fn lemma_compact<T>(r: Raster<T>)
    requires
        r.wf(),
    ensures
        r.compact().wf(),
        r.compact().contiguous(),
        forall|x: int, y: int|
            r.contains(x, y) ==> #[trigger] r.compact().pixel(x, y) == r.pixel(x, y),
{
    let c = r.compact();
    let w = r.width as int;
    let h = r.height as int;
    assert((h - 1) * w + w == w * h) by (nonlinear_arith);
    assert forall|x: int, y: int| r.contains(x, y) implies #[trigger] c.pixel(x, y) == r.pixel(
        x,
        y,
    ) by {
        lemma_offset_split(x, y, w);
        assert(0 <= y * w + x < w * h) by (nonlinear_arith)
            requires
                0 <= x < w,
                0 <= y < h,
        ;
    }
}

/// Why no buffer can back a view of `width` by `height` elements with the
/// given stride; `None` where some buffer can.
pub open spec fn shape_error(width: usize, height: usize, stride: usize) -> Option<
    CorrMatchError,
> {
    if width == 0 || height == 0 {
        Some(CorrMatchError::InvalidDimensions { width, height })
    } else if stride < width {
        Some(CorrMatchError::InvalidStride { width, stride })
    } else if (height - 1) * stride + width > usize::MAX {
        Some(CorrMatchError::InvalidDimensions { width, height })
    } else {
        None
    }
}

/// Why a view of `width` by `height` elements with the given stride cannot be
/// laid over a buffer of `len` elements; `None` where it can.
pub open spec fn view_error(len: nat, width: usize, height: usize, stride: usize) -> Option<
    CorrMatchError,
> {
    let needed = (height - 1) * stride + width;
    if shape_error(width, height, stride) is Some {
        shape_error(width, height, stride)
    } else if len < needed {
        Some(CorrMatchError::BufferTooSmall { needed: needed as usize, got: len as usize })
    } else {
        None
    }
}

/// Why an owned image of `width` by `height` pixels cannot take a buffer of
/// `len` bytes; `None` where it can.
pub open spec fn owned_error(len: nat, width: usize, height: usize) -> Option<CorrMatchError> {
    let needed = width * height;
    if width == 0 || height == 0 {
        Some(CorrMatchError::InvalidDimensions { width, height })
    } else if needed > usize::MAX {
        Some(CorrMatchError::InvalidDimensions { width, height })
    } else if len < needed {
        Some(CorrMatchError::BufferTooSmall { needed: needed as usize, got: len as usize })
    } else if len > needed {
        Some(CorrMatchError::InvalidDimensions { width, height })
    } else {
        None
    }
}

/// Borrowed 2D image view with an explicit stride.
pub struct ImageView<'a, T> {
    data: &'a [T],
    width: usize,
    height: usize,
    stride: usize,
}

impl<'a, T> Copy for ImageView<'a, T> {

}

impl<'a, T> Clone for ImageView<'a, T> {
    fn clone(&self) -> (r: Self)
        ensures
            r == *self,
    {
        *self
    }
}

impl<'a, T> View for ImageView<'a, T> {
    type V = Raster<T>;

    closed spec fn view(&self) -> Raster<T> {
        Raster {
            data: self.data@,
            width: self.width as nat,
            height: self.height as nat,
            stride: self.stride as nat,
        }
    }
}

/// Number of buffer elements that a view of the given shape reaches.
pub fn required_len(width: usize, height: usize, stride: usize) -> (r: CorrMatchResult<usize>)
    ensures
        match r {
            Ok(needed) => shape_error(width, height, stride) is None && needed == (height - 1)
                * stride + width,
            Err(e) => shape_error(width, height, stride) == Some(e),
        },
{
    if width == 0 || height == 0 {
        return Err(CorrMatchError::InvalidDimensions { width, height });
    }
    if stride < width {
        return Err(CorrMatchError::InvalidStride { width, stride });
    }
    let rows = match (height - 1).checked_mul(stride) {
        Some(v) => v,
        None => {
            return Err(CorrMatchError::InvalidDimensions { width, height });
        },
    };
    match rows.checked_add(width) {
        Some(needed) => Ok(needed),
        None => Err(CorrMatchError::InvalidDimensions { width, height }),
    }
}

impl<'a, T> ImageView<'a, T> {
    /// Holds of every value of the type.
    #[verifier::type_invariant]
    pub open spec fn inv(self) -> bool {
        self@.wf()
    }

    /// Creates a contiguous view with `stride == width`.
    pub fn from_slice(data: &'a [T], width: usize, height: usize) -> (r: CorrMatchResult<Self>)
        ensures
            match r {
                Ok(v) => view_error(data@.len(), width, height, width) is None && v@ == (Raster {
                    data: data@,
                    width: width as nat,
                    height: height as nat,
                    stride: width as nat,
                }),
                Err(e) => view_error(data@.len(), width, height, width) == Some(e),
            },
    {
        Self::new(data, width, height, width)
    }

    /// Creates a view with an explicit stride.
    pub fn new(data: &'a [T], width: usize, height: usize, stride: usize) -> (r: CorrMatchResult<
        Self,
    >)
        ensures
            match r {
                Ok(v) => view_error(data@.len(), width, height, stride) is None && v@ == (Raster {
                    data: data@,
                    width: width as nat,
                    height: height as nat,
                    stride: stride as nat,
                }),
                Err(e) => view_error(data@.len(), width, height, stride) == Some(e),
            },
    {
        let needed = match required_len(width, height, stride) {
            Ok(n) => n,
            Err(e) => {
                return Err(e);
            },
        };
        if data.len() < needed {
            return Err(CorrMatchError::BufferTooSmall { needed, got: data.len() });
        }
        Ok(Self { data, width, height, stride })
    }

    /// Returns the image width in pixels.
    pub fn width(&self) -> (w: usize)
        ensures
            w == self@.width,
            w > 0,
    {
        proof {
            use_type_invariant(self);
            assert(self.data@.len() == vstd::slice::spec_slice_len(self.data));
        }
        self.width
    }

    /// Returns the image height in pixels.
    pub fn height(&self) -> (h: usize)
        ensures
            h == self@.height,
            h > 0,
    {
        proof {
            use_type_invariant(self);
            assert(self.data@.len() == vstd::slice::spec_slice_len(self.data));
        }
        self.height
    }

    /// Returns the stride in elements between row starts.
    pub fn stride(&self) -> (s: usize)
        ensures
            s == self@.stride,
            s >= self@.width,
    {
        proof {
            use_type_invariant(self);
            assert(self.data@.len() == vstd::slice::spec_slice_len(self.data));
        }
        self.stride
    }

    /// Returns the backing slice including any row padding.
    pub fn as_slice(&self) -> (s: &'a [T])
        ensures
            s@ == self@.data,
            self@.wf(),
    {
        proof {
            use_type_invariant(self);
            assert(self.data@.len() == vstd::slice::spec_slice_len(self.data));
        }
        self.data
    }

    /// Returns the element at `(x, y)` if it is within bounds.
    pub fn get(&self, x: usize, y: usize) -> (r: Option<&'a T>)
        ensures
            match r {
                Some(p) => self@.contains(x as int, y as int) && *p == self@.pixel(
                    x as int,
                    y as int,
                ),
                None => !self@.contains(x as int, y as int),
            },
    {
        proof {
            use_type_invariant(self);
            assert(self.data@.len() == vstd::slice::spec_slice_len(self.data));
        }
        if x >= self.width || y >= self.height {
            return None;
        }
        proof {
            lemma_pixel_in_bounds(self@, x as int, y as int);
        }
        let idx = y * self.stride + x;
        let data: &'a [T] = self.data;
        Some(&data[idx])
    }

    /// Returns a contiguous slice for row `y` with length `width`.
    pub fn row(&self, y: usize) -> (r: Option<&'a [T]>)
        ensures
            match r {
                Some(s) => y < self@.height && s@ == self@.row(y as int) && s@.len()
                    == self@.width,
                None => y >= self@.height,
            },
    {
        proof {
            use_type_invariant(self);
            assert(self.data@.len() == vstd::slice::spec_slice_len(self.data));
        }
        if y >= self.height {
            return None;
        }
        proof {
            lemma_pixel_in_bounds(self@, self.width as int, y as int);
        }
        let start = y * self.stride;
        let end = start + self.width;
        Some(slice_subrange(self.data, start, end))
    }

    /// Returns a zero-copy ROI view into the same backing buffer.
    pub fn roi(&self, x: usize, y: usize, width: usize, height: usize) -> (r: CorrMatchResult<
        ImageView<'a, T>,
    >)
        ensures
            match r {
                Ok(v) => self@.holds_region(x as int, y as int, width as int, height as int)
                    && v@ == self@.region(x as int, y as int, width as int, height as int),
                Err(e) => roi_error(self@, x, y, width, height) == Some(e),
            },
    {
        proof {
            use_type_invariant(self);
            assert(self.data@.len() == vstd::slice::spec_slice_len(self.data));
        }
        if width == 0 || height == 0 {
            return Err(CorrMatchError::InvalidDimensions { width, height });
        }
        let img_width = self.width;
        let img_height = self.height;
        if x >= img_width || y >= img_height {
            return Err(
                CorrMatchError::RoiOutOfBounds { x, y, width, height, img_width, img_height },
            );
        }
        if width > img_width - x || height > img_height - y {
            return Err(
                CorrMatchError::RoiOutOfBounds { x, y, width, height, img_width, img_height },
            );
        }
        proof {
            lemma_pixel_in_bounds(self@, x as int, y as int);
            lemma_region(self@, x as int, y as int, width as int, height as int);
        }
        let start = y * self.stride + x;
        let data = slice_subrange(self.data, start, self.data.len());
        Ok(ImageView { data, width, height, stride: self.stride })
    }
}

/// Why a region cannot be taken from an image; `None` where it can.
pub open spec fn roi_error<T>(
    img: Raster<T>,
    x: usize,
    y: usize,
    width: usize,
    height: usize,
) -> Option<CorrMatchError> {
    if width == 0 || height == 0 {
        Some(CorrMatchError::InvalidDimensions { width, height })
    } else if x + width > img.width || y + height > img.height {
        Some(
            CorrMatchError::RoiOutOfBounds {
                x,
                y,
                width,
                height,
                img_width: img.width as usize,
                img_height: img.height as usize,
            },
        )
    } else {
        None
    }
}

/// Buffer length that `rows` rows of the given stride would reach, capped at
/// the largest machine word.
pub(crate) fn rows_needed(rows: usize, stride: usize, width: usize) -> (needed: usize)
    ensures
        needed == if rows * stride + width > usize::MAX {
            usize::MAX as int
        } else {
            rows * stride + width
        },
{
    match rows.checked_mul(stride) {
        Some(v) => match v.checked_add(width) {
            Some(needed) => needed,
            None => usize::MAX,
        },
        None => {
            assert(rows * stride + width > usize::MAX);
            usize::MAX
        },
    }
}

/// Owned contiguous grayscale image buffer.
pub struct OwnedImage {
    data: Vec<u8>,
    width: usize,
    height: usize,
    stride: usize,
}


/// A contiguous raster of positive size backs all its rows.
pub proof fn lemma_contiguous_wf<T>(r: Raster<T>)
    requires
        r.width > 0,
        r.height > 0,
        r.contiguous(),
    ensures
        r.wf(),
{
    assert((r.height - 1) * r.width + r.width == r.width * r.height) by (nonlinear_arith);
}

/// The pixels of a well-formed raster fit in a buffer without padding.
pub proof fn lemma_area_fits<T>(r: Raster<T>)
    requires
        r.wf(),
    ensures
        r.width * r.height <= r.span(),
        r.width * r.height >= 1,
{
    assert(r.width * r.height <= (r.height - 1) * r.stride + r.width) by (nonlinear_arith)
        requires
            r.width <= r.stride,
            r.height >= 1,
            r.width >= 1,
    ;
    assert(r.width * r.height >= 1) by (nonlinear_arith)
        requires
            r.width >= 1,
            r.height >= 1,
    ;
}

/// Checks that a buffer of `len` elements holds a `width` by `height` image
/// without padding, and returns its number of pixels.
pub fn check_contiguous(len: usize, width: usize, height: usize) -> (r: CorrMatchResult<usize>)
    ensures
        match r {
            Ok(n) => owned_error(len as nat, width, height) is None && n == width * height && n
                == len,
            Err(e) => owned_error(len as nat, width, height) == Some(e),
        },
{
    if width == 0 || height == 0 {
        return Err(CorrMatchError::InvalidDimensions { width, height });
    }
    let needed = match width.checked_mul(height) {
        Some(n) => n,
        None => {
            return Err(CorrMatchError::InvalidDimensions { width, height });
        },
    };
    if len < needed {
        return Err(CorrMatchError::BufferTooSmall { needed, got: len });
    }
    if len > needed {
        return Err(CorrMatchError::InvalidDimensions { width, height });
    }
    Ok(needed)
}

impl OwnedImage {
    /// The image as a raster: its buffer, read with `stride == width`.
    pub closed spec fn raster(&self) -> Raster<u8> {
        Raster {
            data: self.data@,
            width: self.width as nat,
            height: self.height as nat,
            stride: self.stride as nat,
        }
    }

    /// Holds of every value of the type.
    #[verifier::type_invariant]
    pub open spec fn inv(self) -> bool {
        self.raster().wf() && self.raster().contiguous()
    }

    /// Creates an owned image from a contiguous grayscale buffer.
    pub fn new(data: Vec<u8>, width: usize, height: usize) -> (r: CorrMatchResult<Self>)
        ensures
            match r {
                Ok(img) => owned_error(data@.len(), width, height) is None && img.raster() == (Raster {
                    data: data@,
                    width: width as nat,
                    height: height as nat,
                    stride: width as nat,
                }),
                Err(e) => owned_error(data@.len(), width, height) == Some(e),
            },
    {
        match check_contiguous(data.len(), width, height) {
            Ok(_) => {},
            Err(e) => {
                return Err(e);
            },
        }
        proof {
            lemma_contiguous_wf(
                Raster {
                    data: data@,
                    width: width as nat,
                    height: height as nat,
                    stride: width as nat,
                },
            );
        }
        Ok(Self { data, width, height, stride: width })
    }

    /// Creates an owned image from a vector that holds exactly its pixels.
    pub fn from_vec(data: Vec<u8>, width: usize, height: usize) -> (r: CorrMatchResult<Self>)
        ensures
            match r {
                Ok(img) => owned_error(data@.len(), width, height) is None && img.raster() == (Raster {
                    data: data@,
                    width: width as nat,
                    height: height as nat,
                    stride: width as nat,
                }),
                Err(e) => owned_error(data@.len(), width, height) == Some(e),
            },
    {
        Self::new(data, width, height)
    }

    /// Copies a view, dropping any row padding.
    pub fn from_view(view: ImageView<'_, u8>) -> (r: CorrMatchResult<Self>)
        ensures
            r is Ok,
            r->Ok_0.raster() == view@.compact(),
    {
        let width = view.width();
        let height = view.height();
        let src_len = view.as_slice().len();
        proof {
            lemma_area_fits(view@);
            lemma_compact(view@);
        }
        let needed = width * height;
        let mut data: Vec<u8> = Vec::with_capacity(needed);
        let mut y: usize = 0;
        while y < height
            invariant
                view@.wf(),
                width == view@.width,
                height == view@.height,
                y <= height,
                data@ =~= view@.compact().data.take(y * width),
                view@.compact().data.len() == width * height,
            decreases height - y,
        {
            let row = match view.row(y) {
                Some(row) => row,
                None => {
                    let needed = rows_needed(y + 1, view.stride(), width);
                    return Err(CorrMatchError::BufferTooSmall { needed, got: src_len });
                },
            };
            let ghost before = data@;
            proof {
                let w = width as int;
                assert((y + 1) * w == y * w + w) by (nonlinear_arith);
                assert((y + 1) * w <= w * height) by (nonlinear_arith)
                    requires
                        y + 1 <= height,
                        0 <= w,
                ;
                assert(0 <= y * w) by (nonlinear_arith)
                    requires
                        0 <= y,
                        0 <= w,
                ;
                assert(before.len() == y * w);
            }
            data.extend_from_slice(row);
            proof {
                let w = width as int;
                let target = view@.compact().data;
                assert(data@ == before + row@);
                assert forall|i: int| y * w <= i < (y + 1) * w implies #[trigger] data@[i]
                    == target[i] by {
                    let x = i - y * w;
                    lemma_offset_split(x, y as int, w);
                    lemma_pixel_in_bounds(view@, x, y as int);
                    lemma_pixel_in_bounds(view@, w, y as int);
                    assert(data@[i] == row@[x]);
                    assert(row@[x] == view@.pixel(x, y as int));
                    assert(target[i] == view@.pixel(i % w, i / w));
                }
                assert(data@ =~= target.take((y + 1) * w));
            }
            y += 1;
        }
        proof {
            assert(y * width == width * height) by (nonlinear_arith)
                requires
                    y == height,
            ;
            assert(data@ =~= view@.compact().data);
        }
        Self::new(data, width, height)
    }

    /// Returns a borrowed view of the image.
    pub fn view(&self) -> (v: ImageView<'_, u8>)
        ensures
            v@ == self.raster(),
            v@.wf(),
            v@.contiguous(),
    {
        proof {
            use_type_invariant(self);
        }
        ImageView {
            data: self.data.as_slice(),
            width: self.width,
            height: self.height,
            stride: self.stride,
        }
    }

    /// Returns the backing buffer in row-major order.
    pub fn data(&self) -> (s: &[u8])
        ensures
            s@ == self.raster().data,
            s@.len() == self.raster().width * self.raster().height,
    {
        proof {
            use_type_invariant(self);
        }
        self.data.as_slice()
    }

    /// Returns the image width in pixels.
    pub fn width(&self) -> (w: usize)
        ensures
            w == self.raster().width,
            w > 0,
    {
        proof {
            use_type_invariant(self);
        }
        self.width
    }

    /// Returns the image height in pixels.
    pub fn height(&self) -> (h: usize)
        ensures
            h == self.raster().height,
            h > 0,
    {
        proof {
            use_type_invariant(self);
        }
        self.height
    }

    /// Returns the row stride in elements (equal to width for owned images).
    pub fn stride(&self) -> (s: usize)
        ensures
            s == self.raster().stride,
            s == self.raster().width,
    {
        proof {
            use_type_invariant(self);
        }
        self.stride
    }
}

} // verus!
