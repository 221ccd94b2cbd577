//! The camera's raster: which settings make a camera, how many rows its
//! image has, and the image it hands to the writer.
use vstd::prelude::*;
use crate::ppm::PPM;
use crate::scalar::Scalar;
use crate::types::Color;

verus! {

/// The pattern of the default aspect ratio, sixteen ninths rounded to the
/// nearest double-precision number.
pub const ASPECT_RATIO_BITS: u64 = 0x3FFC_71C7_1C71_C71C;

/// The default image width in pixels.
pub const DEFAULT_IMAGE_WIDTH: u32 = 400;

/// The default number of samples per pixel.
pub const DEFAULT_SAMPLES_PER_PIXEL: u32 = 10;

/// The largest channel value of a rendered image.
pub const MAX_COLOR: u8 = 255;

/// The number of rows of an image whose width divided by its aspect ratio
/// is `quotient`: the quotient cut down to a whole number, but one row at
/// least.
pub open spec fn rows(quotient: Scalar) -> u32 {
    if quotient.spec_to_u32() >= 1 {
        quotient.spec_to_u32()
    } else {
        1
    }
}

/// The image height for a width and an aspect ratio, given `quotient`, the
/// width divided by the aspect ratio: the quotient cut down to a whole
/// number, but at least one row.
pub fn get_height(quotient: Scalar) -> (height: u32)
    ensures
        height == rows(quotient),
        height >= 1,
{
    let whole: u32 = quotient.to_u32();
    if whole >= 1 {
        whole
    } else {
        1
    }
}

/// A camera setting that is refused.
#[derive(Clone, Copy, Debug, PartialEq, Eq, Structural)]
pub enum ConfigError {
    /// The aspect ratio is not a number above zero.
    AspectRatio,
    /// The image has no columns.
    ImageWidth,
    /// No sample is taken per pixel.
    SamplesPerPixel,
}

/// The raster of a camera: the aspect ratio it was asked for, the size of
/// its image in pixels and the number of samples per pixel. It is fixed when
/// the camera is made.
#[derive(Clone, Copy, Debug, PartialEq, Eq, Structural)]
pub struct Camera {
    aspect_ratio: Scalar,
    image_width: u32,
    image_height: u32,
    samples_per_pixel: u32,
}

impl Camera {
    /// The aspect ratio asked for.
    pub closed spec fn spec_aspect_ratio(&self) -> Scalar {
        self.aspect_ratio
    }

    /// The image width in pixels.
    pub closed spec fn spec_image_width(&self) -> u32 {
        self.image_width
    }

    /// The image height in pixels.
    pub closed spec fn spec_image_height(&self) -> u32 {
        self.image_height
    }

    /// The number of samples per pixel.
    pub closed spec fn spec_samples_per_pixel(&self) -> u32 {
        self.samples_per_pixel
    }

    /// What every camera satisfies: the aspect ratio is above zero, and the
    /// image has a column, a row and a sample per pixel at least.
    pub open spec fn valid(&self) -> bool {
        &&& Scalar::spec_zero().spec_lt(self.spec_aspect_ratio())
        &&& self.spec_image_width() >= 1
        &&& self.spec_image_height() >= 1
        &&& self.spec_samples_per_pixel() >= 1
    }

    #[verifier::type_invariant]
    spec fn holds(&self) -> bool {
        self.valid()
    }

    /// The shape of the image the camera renders.
    pub open spec fn spec_image(&self) -> PPM {
        PPM {
            width: self.spec_image_width(),
            height: self.spec_image_height(),
            max_color: MAX_COLOR,
        }
    }

    /// The settings refused, if any: the first of aspect ratio, image width
    /// and samples per pixel that is out of range.
    pub open spec fn refusal(aspect_ratio: Scalar, image_width: u32, samples_per_pixel: u32) -> Option<
        ConfigError,
    > {
        if !Scalar::spec_zero().spec_lt(aspect_ratio) {
            Some(ConfigError::AspectRatio)
        } else if image_width == 0 {
            Some(ConfigError::ImageWidth)
        } else if samples_per_pixel == 0 {
            Some(ConfigError::SamplesPerPixel)
        } else {
            None
        }
    }

    /// The camera with the default settings: sixteen to nine, 400 pixels
    /// wide and so 225 high, ten samples per pixel.
    pub fn default() -> (camera: Camera)
        ensures
            camera.valid(),
            camera.spec_aspect_ratio() == (Scalar { bits: ASPECT_RATIO_BITS }),
            camera.spec_image_width() == DEFAULT_IMAGE_WIDTH,
            camera.spec_image_height() == 225,
            camera.spec_samples_per_pixel() == DEFAULT_SAMPLES_PER_PIXEL,
    {
        Camera {
            aspect_ratio: Scalar::from_bits(ASPECT_RATIO_BITS),
            image_width: DEFAULT_IMAGE_WIDTH,
            image_height: 225,
            samples_per_pixel: DEFAULT_SAMPLES_PER_PIXEL,
        }
    }

    /// The camera with the given settings, or the reason why there is none.
    /// `quotient` is the image width divided by the aspect ratio; the image
    /// is as many rows high as [`get_height`] makes of it.
    pub fn new(
        aspect_ratio: Scalar,
        image_width: u32,
        samples_per_pixel: u32,
        quotient: Scalar,
    ) -> (made: Result<Camera, ConfigError>)
        ensures
            match Camera::refusal(aspect_ratio, image_width, samples_per_pixel) {
                Some(error) => made == Err::<Camera, ConfigError>(error),
                None => {
                    &&& made is Ok
                    &&& made->Ok_0.valid()
                    &&& made->Ok_0.spec_aspect_ratio() == aspect_ratio
                    &&& made->Ok_0.spec_image_width() == image_width
                    &&& made->Ok_0.spec_image_height() == rows(quotient)
                    &&& made->Ok_0.spec_samples_per_pixel() == samples_per_pixel
                },
            },
    {
        if !Scalar::zero().lt(aspect_ratio) {
            return Err(ConfigError::AspectRatio);
        }
        if image_width == 0 {
            return Err(ConfigError::ImageWidth);
        }
        if samples_per_pixel == 0 {
            return Err(ConfigError::SamplesPerPixel);
        }
        Ok(
            Camera {
                aspect_ratio,
                image_width,
                image_height: get_height(quotient),
                samples_per_pixel,
            },
        )
    }

    /// The aspect ratio asked for.
    #[verifier::when_used_as_spec(spec_aspect_ratio)]
    pub fn aspect_ratio(&self) -> (aspect_ratio: Scalar)
        ensures
            aspect_ratio == self.spec_aspect_ratio(),
            Scalar::spec_zero().spec_lt(aspect_ratio),
    {
        proof {
            use_type_invariant(self);
        }
        self.aspect_ratio
    }

    /// The image width in pixels.
    #[verifier::when_used_as_spec(spec_image_width)]
    pub fn image_width(&self) -> (image_width: u32)
        ensures
            image_width == self.spec_image_width(),
            image_width >= 1,
    {
        proof {
            use_type_invariant(self);
        }
        self.image_width
    }

    /// The image height in pixels.
    #[verifier::when_used_as_spec(spec_image_height)]
    pub fn image_height(&self) -> (image_height: u32)
        ensures
            image_height == self.spec_image_height(),
            image_height >= 1,
    {
        proof {
            use_type_invariant(self);
        }
        self.image_height
    }

    /// The number of samples per pixel.
    #[verifier::when_used_as_spec(spec_samples_per_pixel)]
    pub fn samples_per_pixel(&self) -> (samples_per_pixel: u32)
        ensures
            samples_per_pixel == self.spec_samples_per_pixel(),
            samples_per_pixel >= 1,
    {
        proof {
            use_type_invariant(self);
        }
        self.samples_per_pixel
    }

    /// Renders the image: `f` is asked once for the colour of every pixel,
    /// by column and row, and the colours are written as an image of the
    /// camera's size with channels up to [`MAX_COLOR`].
    pub fn render<F: Fn(u32, u32) -> Color>(&self, f: F) -> (text: String)
        requires
            self.spec_image_width() * self.spec_image_height() * 8 <= isize::MAX,
            forall|x: u32, y: u32|
                x < self.spec_image_width() && y < self.spec_image_height() ==> call_requires(
                    f,
                    (x, y),
                ),
        ensures
            exists|pixels: Seq<Color>| #[trigger]
                self.spec_image().colored_by(f, pixels) && text@ == self.spec_image().image(pixels),
    {
        let image: PPM = PPM::new(self.image_width, self.image_height, MAX_COLOR);
        let text: String = image.write_fn(f);
        proof {
            let pixels = choose|pixels: Seq<Color>| #[trigger]
                image.colored_by(f, pixels) && text@ == image.image(pixels);
            assert(image == self.spec_image());
            assert(self.spec_image().colored_by(f, pixels) && text@ == self.spec_image().image(
                pixels,
            ));
        }
        text
    }
}

} // verus!
