use vstd::prelude::*;

verus! {

/// Image width used when none is given.
pub const DEFAULT_WIDTH: usize = 400;

/// Samples drawn per pixel when none is given.
pub const DEFAULT_SAMPLES: usize = 100;

/// Bounce budget of the integrator when none is given.
pub const DEFAULT_DEPTH: isize = 32;

/// Why a set of render settings was rejected before rendering began.
#[derive(Clone, Copy, Debug, PartialEq, Eq, Structural)]
pub enum SettingsError {
    ZeroWidth,
    ZeroHeight,
    ZeroSamples,
    NegativeDepth,
    /// The `width * height * 3` byte buffer would not fit in memory addressing.
    ImageTooLarge,
}

/// The narrow interface the renderer needs from the front end.
#[derive(Clone, Copy, Debug, PartialEq, Eq, Structural)]
pub struct RenderSettings {
    pub width: usize,
    pub height: usize,
    pub samples: usize,
    pub depth: isize,
}

/// Height that gives a 16:9 picture for `width`, rounded down.
pub open spec fn widescreen_height(width: nat) -> nat {
    width * 9 / 16
}

/// The first rule that the given values break, if any.
pub open spec fn settings_error(width: nat, height: nat, samples: nat, depth: int) -> Option<SettingsError> {
    if width == 0 {
        Some(SettingsError::ZeroWidth)
    } else if height == 0 {
        Some(SettingsError::ZeroHeight)
    } else if samples == 0 {
        Some(SettingsError::ZeroSamples)
    } else if depth < 0 {
        Some(SettingsError::NegativeDepth)
    } else if width * height * 3 > usize::MAX {
        Some(SettingsError::ImageTooLarge)
    } else {
        None
    }
}

/// Computes `width * 9 / 16` without an intermediate product that could overflow.
pub fn widescreen_height_of(width: usize) -> (r: usize)
    ensures
        r == widescreen_height(width as nat),
{
    let q: usize = width / 16;
    let m: usize = width % 16;
    proof {
        assert(width == 16 * q + m);
        assert(width * 9 == 16 * (9 * q) + 9 * m) by (nonlinear_arith)
            requires width == 16 * q + m;
        assert((16 * (9 * q) + 9 * m) / 16 == 9 * q + (9 * m) / 16) by (nonlinear_arith)
            requires m < 16;
        assert(9 * q <= width) by (nonlinear_arith)
            requires width == 16 * q + m;
    }
    9 * q + (9 * m) / 16
}

impl RenderSettings {
    /// The settings can be rendered: positive sizes and sample count, a
    /// non-negative depth, and a pixel buffer that fits in `usize`.
    pub open spec fn wf(&self) -> bool {
        settings_error(self.width as nat, self.height as nat, self.samples as nat, self.depth as int).is_none()
    }

    /// Checks the values and keeps them unchanged when they are accepted.
    pub fn new(width: usize, height: usize, samples: usize, depth: isize) -> (r: Result<
        RenderSettings,
        SettingsError,
    >)
        ensures
            match settings_error(width as nat, height as nat, samples as nat, depth as int) {
                Some(e) => r == Err::<RenderSettings, SettingsError>(e),
                None => r == Ok::<RenderSettings, SettingsError>(
                    RenderSettings { width, height, samples, depth },
                ),
            },
    {
        if width == 0 {
            return Err(SettingsError::ZeroWidth);
        }
        if height == 0 {
            return Err(SettingsError::ZeroHeight);
        }
        if samples == 0 {
            return Err(SettingsError::ZeroSamples);
        }
        if depth < 0 {
            return Err(SettingsError::NegativeDepth);
        }
        if height > usize::MAX / 3 || width > (usize::MAX / 3) / height {
            proof {
                lemma_too_large(width as nat, height as nat);
            }
            return Err(SettingsError::ImageTooLarge);
        }
        proof {
            lemma_fits(width as nat, height as nat);
        }
        Ok(RenderSettings { width, height, samples, depth })
    }

    /// Fills in the defaults for the values that were not given: a width of
    /// 400, a 16:9 height, 100 samples and a depth of 32, then checks them.
    pub fn from_options(
        width: Option<usize>,
        height: Option<usize>,
        samples: Option<usize>,
        depth: Option<isize>,
    ) -> (r: Result<RenderSettings, SettingsError>)
        ensures
            ({
                let w = match width {
                    Some(w) => w,
                    None => DEFAULT_WIDTH,
                };
                let h: nat = match height {
                    Some(h) => h as nat,
                    None => widescreen_height(w as nat),
                };
                let s = match samples {
                    Some(s) => s,
                    None => DEFAULT_SAMPLES,
                };
                let d = match depth {
                    Some(d) => d,
                    None => DEFAULT_DEPTH,
                };
                match settings_error(w as nat, h, s as nat, d as int) {
                    Some(e) => r == Err::<RenderSettings, SettingsError>(e),
                    None => r == Ok::<RenderSettings, SettingsError>(
                        RenderSettings { width: w, height: h as usize, samples: s, depth: d },
                    ),
                }
            }),
    {
        let w = match width {
            Some(w) => w,
            None => DEFAULT_WIDTH,
        };
        let h = match height {
            Some(h) => h,
            None => widescreen_height_of(w),
        };
        let s = match samples {
            Some(s) => s,
            None => DEFAULT_SAMPLES,
        };
        let d = match depth {
            Some(d) => d,
            None => DEFAULT_DEPTH,
        };
        RenderSettings::new(w, h, s, d)
    }

    /// Number of bytes of the RGB pixel buffer.
    pub fn buffer_len(&self) -> (r: usize)
        requires
            self.wf(),
        ensures
            r == self.width * self.height * 3,
    {
        self.width * self.height * 3
    }
}

proof fn lemma_too_large(w: nat, h: nat)
    requires
        w > 0,
        h > 0,
        h > (usize::MAX as nat) / 3 || w > ((usize::MAX as nat) / 3) / h,
    ensures
        w * h * 3 > usize::MAX,
{
    let m = usize::MAX as nat;
    if h > m / 3 {
        assert(w * h * 3 >= h * 3) by (nonlinear_arith)
            requires w >= 1;
    } else {
        let k = (m / 3) / h;
        assert(w >= k + 1);
        assert(m / 3 < (k + 1) * h) by (nonlinear_arith)
            requires k == (m / 3) / h, h > 0;
        assert(w * h >= (k + 1) * h) by (nonlinear_arith)
            requires w >= k + 1;
    }
}

proof fn lemma_fits(w: nat, h: nat)
    requires
        h > 0,
        h <= (usize::MAX as nat) / 3,
        w <= ((usize::MAX as nat) / 3) / h,
    ensures
        w * h * 3 <= usize::MAX,
{
    let m = usize::MAX as nat;
    let k = (m / 3) / h;
    assert(k * h <= m / 3) by (nonlinear_arith)
        requires k == (m / 3) / h, h > 0;
    assert(w * h <= k * h) by (nonlinear_arith)
        requires w <= k;
}

} // verus!
