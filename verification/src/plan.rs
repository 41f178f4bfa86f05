//! What a run needs before it starts: its dimensions, and the user's consent to a large one.
use vstd::prelude::*;

verus! {

/// A run whose picture takes more bytes than this needs a confirmation. One pixel is one byte;
/// the limit is about what 10,000 steps at the default width take.
pub const LARGE_BUFFER_THRESHOLD: u64 = 200 * 1024 * 1024;

/// Bytes per megabyte.
pub const MEGABYTE: u64 = 1024 * 1024;

/// Why no run can be planned.
#[derive(Clone, Copy, Debug, PartialEq, Eq, Structural)]
pub enum PlanError {
    /// A width of zero was asked for.
    ZeroWidth,
    /// The default width, `2 * steps + 1`, is no `u32`.
    WidthOverflow,
    /// The height, `steps + 1`, is no `u32`.
    HeightOverflow,
}

/// The dimensions of a run.
#[derive(Clone, Copy, Debug, PartialEq, Eq, Structural)]
pub struct Plan {
    /// The number of generations after the initial one.
    pub steps: u32,
    /// The number of cells per generation.
    pub width: u32,
    /// The number of generations, the initial one included.
    pub height: u32,
}

impl Plan {
    /// There is at least one cell, and one row for each generation.
    pub open spec fn wf(self) -> bool {
        &&& self.width >= 1
        &&& self.height == self.steps + 1
    }

    /// The number of pixels of the picture.
    pub open spec fn area(self) -> int {
        self.width * self.height
    }

    /// Plans a run of `steps` generations after the initial one.
    ///
    /// Without a `width`, it is `2 * steps + 1`: a pattern that grows by one cell on either side
    /// per generation then just reaches both edges.
    pub fn new(steps: u32, width: Option<u32>) -> (plan: Result<Plan, PlanError>)
        ensures
            plan is Ok <==> match width {
                Some(w) => w >= 1 && steps + 1 <= u32::MAX,
                None => 2 * steps + 1 <= u32::MAX,
            },
            plan == Err::<Plan, PlanError>(PlanError::ZeroWidth) <==> width == Some(0u32),
            plan == Err::<Plan, PlanError>(PlanError::WidthOverflow) <==> width is None && 2 * steps
                + 1 > u32::MAX,
            plan == Err::<Plan, PlanError>(PlanError::HeightOverflow) <==> width is Some && width
                != Some(0u32) && steps + 1 > u32::MAX,
            plan matches Ok(p) ==> p.wf() && p.steps == steps && p.width == match width {
                Some(w) => w as int,
                None => 2 * steps + 1,
            },
            plan matches Ok(p) ==> p.width >= 1 && p.height == steps + 1,
    {
        let width: u32 = match width {
            Some(0) => {
                return Err(PlanError::ZeroWidth);
            },
            Some(w) => w,
            None => match steps.checked_mul(2) {
                Some(doubled) => match doubled.checked_add(1) {
                    Some(w) => w,
                    None => {
                        return Err(PlanError::WidthOverflow);
                    },
                },
                None => {
                    return Err(PlanError::WidthOverflow);
                },
            },
        };
        match steps.checked_add(1) {
            Some(height) => Ok(Plan { steps, width, height }),
            None => Err(PlanError::HeightOverflow),
        }
    }

    /// The number of pixels, and so of bytes, of the picture.
    pub fn pixels(&self) -> (pixels: u64)
        ensures
            pixels == self.area(),
            pixels == self.width * self.height,
    {
        assert(self.width * self.height <= u32::MAX * u32::MAX) by (nonlinear_arith)
            requires
                self.width <= u32::MAX,
                self.height <= u32::MAX,
        ;
        self.width as u64 * self.height as u64
    }

    /// The size of the picture in whole megabytes.
    pub fn megabytes(&self) -> (megabytes: u64)
        ensures
            megabytes == self.area() / MEGABYTE as int,
            megabytes * 1_048_576 <= self.width * self.height < (megabytes + 1) * 1_048_576,
    {
        self.pixels() / MEGABYTE
    }

    /// Whether the user is to be asked before the run: the picture takes more than
    /// `LARGE_BUFFER_THRESHOLD` bytes, be it wide or high, and the run is not forced.
    pub fn needs_confirmation(&self, force: bool) -> (ask: bool)
        ensures
            ask <==> self.area() > LARGE_BUFFER_THRESHOLD && !force,
            ask <==> self.width * self.height > 209_715_200 && !force,
    {
        self.pixels() > LARGE_BUFFER_THRESHOLD && !force
    }
}

} // verus!
