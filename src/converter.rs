use vstd::prelude::*;
use crate::bitmap_image::{resampled, BitmapImage};
use crate::brightness::Brightness;
use crate::cpixel::{cell_glyphs, cell_grid, Cpixel, CpixelConverter};
use crate::dimensions::{lemma_fit_within_bounds, Dimensions};

verus! {

/// The display area in pixels: each side of `output_constraints` (in cells) times the
/// pixel size of one cell.
pub open spec fn screen_in_pixels(output_constraints: Dimensions, cpixel_dimensions: Dimensions) -> Dimensions {
    Dimensions {
        height: (output_constraints.height * cpixel_dimensions.height) as usize,
        width: (output_constraints.width * cpixel_dimensions.width) as usize,
    }
}

/// The display area in pixels is representable.
pub open spec fn screen_fits(output_constraints: Dimensions, cpixel_dimensions: Dimensions) -> bool {
    &&& output_constraints.height * cpixel_dimensions.height <= usize::MAX
    &&& output_constraints.width * cpixel_dimensions.width <= usize::MAX
}

/// The pixel size an input image is resampled to: its aspect-locked fit inside the display
/// area in pixels.
pub open spec fn derived_output_dimensions(
    input_image_dimensions: Dimensions,
    output_constraints: Dimensions,
    cpixel_dimensions: Dimensions,
) -> Dimensions {
    Dimensions::fit_spec(
        input_image_dimensions,
        screen_in_pixels(output_constraints, cpixel_dimensions),
    )
}

/// Converts images of one configured size into grids of glyphs that fit a display area
/// given in character cells.
pub struct Converter<T> {
    converter: CpixelConverter<T>,
    cpixel_dimensions: Dimensions,
    output_constraints: Dimensions,
    input_image_dimensions: Dimensions,
    output_dimensions: Dimensions,
    maximize_contrast: bool,
}

/// What a converter holds: its configuration and the output size derived from it.
pub struct ConverterView {
    pub cpixel_dimensions: Dimensions,
    pub output_constraints: Dimensions,
    pub input_image_dimensions: Dimensions,
    pub output_dimensions: Dimensions,
    pub maximize_contrast: bool,
}

impl<T> View for Converter<T> {
    type V = ConverterView;

    closed spec fn view(&self) -> ConverterView {
        ConverterView {
            cpixel_dimensions: self.cpixel_dimensions,
            output_constraints: self.output_constraints,
            input_image_dimensions: self.input_image_dimensions,
            output_dimensions: self.output_dimensions,
            maximize_contrast: self.maximize_contrast,
        }
    }
}

impl<T: Brightness> Converter<T> {
    /// The display area in pixels is representable, and the derived output size is the one
    /// the configuration gives.
    pub open spec fn wf(&self) -> bool {
        &&& screen_fits(self@.output_constraints, self@.cpixel_dimensions)
        &&& self@.output_dimensions == derived_output_dimensions(
            self@.input_image_dimensions,
            self@.output_constraints,
            self@.cpixel_dimensions,
        )
    }

    /// A converter for images of size `input_image_dimensions`, shown on `output_constraints`
    /// cells of `cpixel_dimensions` pixels each; the output size is derived here, once.
    pub fn new(
        output_constraints: &Dimensions,
        input_image_dimensions: &Dimensions,
        cpixel_dimensions: &Dimensions,
        maximize_contrast: bool,
    ) -> (r: Self)
        requires
            screen_fits(*output_constraints, *cpixel_dimensions),
        ensures
            r.wf(),
            r@.output_constraints == *output_constraints,
            r@.input_image_dimensions == *input_image_dimensions,
            r@.cpixel_dimensions == *cpixel_dimensions,
            r@.maximize_contrast == maximize_contrast,
            r@.output_dimensions == derived_output_dimensions(
                *input_image_dimensions,
                *output_constraints,
                *cpixel_dimensions,
            ),
    {
        Converter {
            converter: CpixelConverter::new(),
            cpixel_dimensions: *cpixel_dimensions,
            output_constraints: *output_constraints,
            input_image_dimensions: *input_image_dimensions,
            output_dimensions: Self::generate_output_dimensions(
                input_image_dimensions,
                output_constraints,
                cpixel_dimensions,
            ),
            maximize_contrast,
        }
    }

    /// Whether contrast maximization is on.
    pub fn maximizing_contrast_on(&self) -> (r: bool)
        ensures
            r == self@.maximize_contrast,
    {
        self.maximize_contrast
    }

    /// The display area in cells.
    pub fn constraints(&self) -> (r: &Dimensions)
        ensures
            *r == self@.output_constraints,
    {
        &self.output_constraints
    }

    /// The size of the images this converter takes.
    pub fn image_settings(&self) -> (r: &Dimensions)
        ensures
            *r == self@.input_image_dimensions,
    {
        &self.input_image_dimensions
    }

    /// The pixel size of one character cell.
    pub fn cpixel_dimensions_settings(&self) -> (r: &Dimensions)
        ensures
            *r == self@.cpixel_dimensions,
    {
        &self.cpixel_dimensions
    }

    /// The pixel size input images are resampled to.
    pub fn output_dimensions(&self) -> (r: &Dimensions)
        ensures
            *r == self@.output_dimensions,
    {
        &self.output_dimensions
    }

    /// A converter with a new configuration, the same contrast setting and cell converter,
    /// and a freshly derived output size.
    pub fn with_settings(
        self,
        output_constraints: &Dimensions,
        input_image_dimensions: &Dimensions,
        cpixel_dimensions: &Dimensions,
    ) -> (r: Self)
        requires
            screen_fits(*output_constraints, *cpixel_dimensions),
        ensures
            r.wf(),
            r@.output_constraints == *output_constraints,
            r@.input_image_dimensions == *input_image_dimensions,
            r@.cpixel_dimensions == *cpixel_dimensions,
            r@.maximize_contrast == self@.maximize_contrast,
            r@.output_dimensions == derived_output_dimensions(
                *input_image_dimensions,
                *output_constraints,
                *cpixel_dimensions,
            ),
    {
        Converter {
            converter: self.converter,
            output_constraints: *output_constraints,
            input_image_dimensions: *input_image_dimensions,
            cpixel_dimensions: *cpixel_dimensions,
            output_dimensions: Self::generate_output_dimensions(
                input_image_dimensions,
                output_constraints,
                cpixel_dimensions,
            ),
            maximize_contrast: self.maximize_contrast,
        }
    }

    fn generate_output_dimensions(
        image_dimensions: &Dimensions,
        output_constraints: &Dimensions,
        cpixel_dimensions: &Dimensions,
    ) -> (r: Dimensions)
        requires
            screen_fits(*output_constraints, *cpixel_dimensions),
        ensures
            r == derived_output_dimensions(*image_dimensions, *output_constraints, *cpixel_dimensions),
    {
        let screen_in_pixels = Dimensions {
            height: output_constraints.height * cpixel_dimensions.height,
            width: output_constraints.width * cpixel_dimensions.width,
        };
        Dimensions::fit_with_locked_ratio(image_dimensions, &screen_in_pixels)
    }

    /// The glyph grid of `image`: the image resampled to the output size, then one glyph
    /// for each whole cell of it. The converter is left as it was.
    pub fn convert_one(&mut self, image: &BitmapImage<T>) -> (r: BitmapImage<Cpixel>)
        requires
            old(self).wf(),
            image.wf(),
            image.dimensions == old(self)@.input_image_dimensions,
            old(self)@.output_dimensions.area() <= usize::MAX,
        ensures
            *final(self) == *old(self),
            r.wf(),
            r.dimensions == cell_grid(old(self)@.output_dimensions, old(self)@.cpixel_dimensions),
            r.dimensions.height <= old(self)@.output_constraints.height,
            r.dimensions.width <= old(self)@.output_constraints.width,
            r.buffer@ == cell_glyphs(
                resampled(image.buffer@, image.dimensions, old(self)@.output_dimensions),
                old(self)@.output_dimensions,
                old(self)@.cpixel_dimensions,
                old(self)@.maximize_contrast,
            ),
    {
        proof {
            lemma_fit_within_bounds(
                self@.input_image_dimensions,
                screen_in_pixels(self@.output_constraints, self@.cpixel_dimensions),
            );
            lemma_grid_within_constraints(
                self@.output_dimensions,
                self@.output_constraints,
                self@.cpixel_dimensions,
            );
        }
        self.converter.convert_one(
            &image.resize(&self.output_dimensions),
            &self.cpixel_dimensions,
            self.maximize_contrast,
        )
    }
}

/// A size within the display area in pixels holds no more whole cells than the display
/// area has.
proof fn lemma_grid_within_constraints(
    output: Dimensions,
    output_constraints: Dimensions,
    cpixel_dimensions: Dimensions,
)
    requires
        output.height <= output_constraints.height * cpixel_dimensions.height,
        output.width <= output_constraints.width * cpixel_dimensions.width,
    ensures
        cell_grid(output, cpixel_dimensions).height <= output_constraints.height,
        cell_grid(output, cpixel_dimensions).width <= output_constraints.width,
{
    let (oh, ow) = (output.height as int, output.width as int);
    let (ch, cw) = (cpixel_dimensions.height as int, cpixel_dimensions.width as int);
    let (kh, kw) = (output_constraints.height as int, output_constraints.width as int);
    if ch > 0 {
        assert(oh / ch <= kh) by (nonlinear_arith)
            requires
                0 <= oh <= kh * ch,
                0 < ch,
                0 <= kh,
        ;
    }
    if cw > 0 {
        assert(ow / cw <= kw) by (nonlinear_arith)
            requires
                0 <= ow <= kw * cw,
                0 < cw,
                0 <= kw,
        ;
    }
}

/// Two well-formed converters with the same configuration have the same derived output
/// size: construction is a function of its arguments.
pub proof fn lemma_same_configuration_same_output<T: Brightness>(a: Converter<T>, b: Converter<T>)
    requires
        a.wf(),
        b.wf(),
        a@.output_constraints == b@.output_constraints,
        a@.input_image_dimensions == b@.input_image_dimensions,
        a@.cpixel_dimensions == b@.cpixel_dimensions,
    ensures
        a@.output_dimensions == b@.output_dimensions,
{
}

/// The output size a reconfigured converter carries is derived from the new configuration
/// alone: two converters reconfigured with the same settings agree on it, whatever they
/// held before.
pub proof fn lemma_reconfiguration_is_fresh<T: Brightness>(
    before_a: Converter<T>,
    before_b: Converter<T>,
    after_a: Converter<T>,
    after_b: Converter<T>,
)
    requires
        after_a.wf(),
        after_b.wf(),
        after_a@.output_constraints == after_b@.output_constraints,
        after_a@.input_image_dimensions == after_b@.input_image_dimensions,
        after_a@.cpixel_dimensions == after_b@.cpixel_dimensions,
        after_a@.maximize_contrast == before_a@.maximize_contrast,
        after_b@.maximize_contrast == before_b@.maximize_contrast,
        before_a@.maximize_contrast == before_b@.maximize_contrast,
    ensures
        after_a@ == after_b@,
{
}

} // verus!
