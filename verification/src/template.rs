//! Owned template images.

use vstd::prelude::*;
use crate::error::CorrMatchResult;
use crate::image::owned_error;
use crate::image::ImageView;
use crate::image::OwnedImage;
use crate::image::Raster;

verus! {

/// Owned template image in contiguous grayscale format.
pub struct Template {
    img: OwnedImage,
}

impl Template {
    /// The template as a raster.
    pub closed spec fn raster(&self) -> Raster<u8> {
        self.img.raster()
    }

    /// Creates a template from a contiguous grayscale buffer of `width * height` bytes.
    pub fn new(data: Vec<u8>, width: usize, height: usize) -> (r: CorrMatchResult<Self>)
        ensures
            match r {
                Ok(t) => owned_error(data@.len(), width, height) is None && t.raster() == (Raster {
                    data: data@,
                    width: width as nat,
                    height: height as nat,
                    stride: width as nat,
                }),
                Err(e) => owned_error(data@.len(), width, height) == Some(e),
            },
    {
        match OwnedImage::new(data, width, height) {
            Ok(img) => Ok(Self { img }),
            Err(e) => Err(e),
        }
    }

    /// Returns the template width.
    pub fn width(&self) -> (w: usize)
        ensures
            w == self.raster().width,
            w > 0,
    {
        self.img.width()
    }

    /// Returns the template height.
    pub fn height(&self) -> (h: usize)
        ensures
            h == self.raster().height,
            h > 0,
    {
        self.img.height()
    }

    /// Returns a borrowed view of the template data.
    pub fn view(&self) -> (v: ImageView<'_, u8>)
        ensures
            v@ == self.raster(),
            v@.wf(),
            v@.contiguous(),
    {
        self.img.view()
    }
}

} // verus!
