//! Structural similarity (SSIM) support library.
//!
//! The verified core owns the grayscale pixel-grid model: construction from a
//! decoded byte buffer, reshaping, flattening, window decomposition, and the
//! pairing/validation logic that prepares two grids for scoring.  The
//! floating-point scoring formula itself lives outside the verified core.
use vstd::prelude::*;

pub mod image;

verus! {

use crate::image::Image;
use crate::image::origins;
use crate::image::window_at;

/// The failures a comparison can surface.  Every failing operation reports
/// exactly one of these; none is ever swallowed.
#[derive(Clone, Copy, Debug, PartialEq, Eq, Structural)]
pub enum SsimError {
    /// The decode-and-resize collaborator could not interpret the input bytes.
    DecodeError,
    /// A flat buffer's length does not equal `width * height`.
    ShapeMismatch,
    /// The two images being compared have different pixel counts.
    SizeMismatch,
    /// An image has zero pixels.
    EmptyImage,
    /// The requested window size exceeds an image's width.
    InvalidWindowSize,
    /// Local mode was requested without a window size.
    MissingWindowSize,
    /// The window decomposition produced zero window pairs.
    EmptyWindowSet,
}

/// Whether a comparison scores the whole image once or averages windowed
/// scores.
#[derive(Clone, Copy, Debug, PartialEq, Eq, Structural)]
pub enum SsimMode {
    Local,
    Global,
}

/// How many window pairs two images yield for windows of side `s`: each
/// image is decomposed on its own geometry and the windows are paired
/// positionally, stopping at the shorter sequence.
pub open spec fn pair_count(x: Image, y: Image, s: int) -> int {
    let nx = origins(x.spec_width(), s) * origins(x.spec_height(), s);
    let ny = origins(y.spec_width(), s) * origins(y.spec_height(), s);
    if nx <= ny {
        nx
    } else {
        ny
    }
}

/// When a comparison of two images succeeds: their pixel counts agree, and in
/// `Local` mode a window size is given that fits both widths and yields at
/// least one window pair.
pub open spec fn comparable(x: Image, y: Image, mode: SsimMode, win_size: Option<usize>) -> bool {
    x.spec_count() == y.spec_count() && (mode is Global || (win_size matches Some(s) && s
        <= x.spec_width() && s <= y.spec_width() && pair_count(x, y, s as int) > 0))
}

/// Law (size enforcement): two grids with different pixel counts are not
/// comparable in any mode; a comparison of them fails, with `SizeMismatch`
/// by the contract of `SsimBuilder::score_pairs`.
pub proof fn lemma_size_mismatch_not_comparable(
    x: Image,
    y: Image,
    mode: SsimMode,
    win_size: Option<usize>,
)
    requires
        x.spec_count() != y.spec_count(),
    ensures
        !comparable(x, y, mode, win_size),
{
}

/// Law (the validation half of symmetry): whether two images can be compared
/// does not depend on their order.
pub proof fn lemma_comparable_symmetric(x: Image, y: Image, mode: SsimMode, win_size: Option<
    usize,
>)
    ensures
        comparable(x, y, mode, win_size) == comparable(y, x, mode, win_size),
{
}

/// Entry point of a comparison: holds the reference image and prepares the
/// image pairs whose scores a comparison aggregates.
pub struct SsimBuilder<'a>(&'a Image);

impl<'a> SsimBuilder<'a> {
    /// The reference image the builder was made with.
    pub closed spec fn img(self) -> Image {
        *self.0
    }

    pub fn new(img_x: &'a Image) -> (r: Self)
        ensures
            r.img() == *img_x,
    {
        Self(img_x)
    }

    /// Validates the two images for the requested mode and yields the image
    /// pairs to score: the whole images in `Global` mode, the positionally
    /// paired windows in `Local` mode.
    ///
    /// Well-formed images are never empty, so an `EmptyImage` failure cannot
    /// arise here.
    pub fn score_pairs(&self, img_y: &Image, mode: SsimMode, win_size: Option<usize>) -> (r:
        Result<Vec<(Image, Image)>, SsimError>)
        requires
            self.img().wf(),
            img_y.wf(),
            mode is Local ==> (win_size matches Some(s) ==> s >= 1),
        ensures
            self.img().spec_count() != img_y.spec_count() <==> r == Err::<
                Vec<(Image, Image)>,
                SsimError,
            >(SsimError::SizeMismatch),
            self.img().spec_count() == img_y.spec_count() && mode is Global ==> (r matches Ok(ps)
                && {
                &&& ps@.len() == 1
                &&& ps@[0].0.wf()
                &&& ps@[0].1.wf()
                &&& ps@[0].0@ == self.img()@
                &&& ps@[0].1@ == img_y@
                &&& ps@[0].0.spec_width() == self.img().spec_width()
                &&& ps@[0].0.spec_height() == self.img().spec_height()
                &&& ps@[0].1.spec_width() == img_y.spec_width()
                &&& ps@[0].1.spec_height() == img_y.spec_height()
            }),
            self.img().spec_count() == img_y.spec_count() && mode is Local && win_size is None
                ==> r == Err::<Vec<(Image, Image)>, SsimError>(SsimError::MissingWindowSize),
            self.img().spec_count() == img_y.spec_count() && mode is Local ==> (win_size
                matches Some(s) ==> {
                let x = self.img();
                let inner_x = origins(x.spec_height(), s as int);
                let inner_y = origins(img_y.spec_height(), s as int);
                let n = pair_count(x, *img_y, s as int);
                &&& (s > x.spec_width() || s > img_y.spec_width() <==> r == Err::<
                    Vec<(Image, Image)>,
                    SsimError,
                >(SsimError::InvalidWindowSize))
                &&& (s <= x.spec_width() && s <= img_y.spec_width() && n == 0 <==> r == Err::<
                    Vec<(Image, Image)>,
                    SsimError,
                >(SsimError::EmptyWindowSet))
                &&& r matches Ok(ps) ==> {
                    &&& ps@.len() == n
                    &&& forall|g: int, h: int|
                        0 <= g && 0 <= h < inner_x && g * inner_x + h < n ==> {
                            let wx = (#[trigger] ps@[g * inner_x + h]).0;
                            &&& wx.wf()
                            &&& wx.spec_width() == s
                            &&& wx.spec_height() == s
                            &&& wx@ == window_at(x@, g, h, s as int)
                        }
                    &&& forall|g: int, h: int|
                        0 <= g && 0 <= h < inner_y && g * inner_y + h < n ==> {
                            let wy = (#[trigger] ps@[g * inner_y + h]).1;
                            &&& wy.wf()
                            &&& wy.spec_width() == s
                            &&& wy.spec_height() == s
                            &&& wy@ == window_at(img_y@, g, h, s as int)
                        }
                }
            }),
            r is Ok <==> comparable(self.img(), *img_y, mode, win_size),
    {
        let x_len = self.0.length();
        let y_len = img_y.length();
        if x_len != y_len {
            return Err(SsimError::SizeMismatch);
        }
        match mode {
            SsimMode::Global => {
                let a = self.0.duplicate();
                let b = img_y.duplicate();
                let mut ps: Vec<(Image, Image)> = Vec::new();
                ps.push((a, b));
                Ok(ps)
            },
            SsimMode::Local => {
                let s = match win_size {
                    None => {
                        return Err(SsimError::MissingWindowSize);
                    },
                    Some(s) => s,
                };
                let mut xs = match self.0.sub_pixels(s) {
                    Err(e) => {
                        return Err(e);
                    },
                    Ok(v) => v,
                };
                let mut ys = match img_y.sub_pixels(s) {
                    Err(e) => {
                        return Err(e);
                    },
                    Ok(v) => v,
                };
                let n = if xs.len() <= ys.len() {
                    xs.len()
                } else {
                    ys.len()
                };
                if n == 0 {
                    return Err(SsimError::EmptyWindowSet);
                }
                let ghost xs0 = xs@;
                let ghost ys0 = ys@;
                let mut ps: Vec<(Image, Image)> = Vec::new();
                let mut k: usize = 0;
                #[verifier::loop_isolation(false)]
                while k < n
                    invariant
                        k <= n,
                        xs@ == xs0.skip(k as int),
                        ys@ == ys0.skip(k as int),
                        ps@.len() == k,
                        forall|t: int|
                            0 <= t < k ==> (#[trigger] ps@[t]).0.pixels == xs0[t]
                                && ps@[t].1.pixels == ys0[t],
                    decreases n - k,
                {
                    let a = xs.remove(0);
                    let b = ys.remove(0);
                    proof {
                        assert(xs@ =~= xs0.skip(k + 1));
                        assert(ys@ =~= ys0.skip(k + 1));
                    }
                    ps.push((Image { pixels: a }, Image { pixels: b }));
                    k = k + 1;
                }
                proof {
                    let x = self.img();
                    let si = s as int;
                    let inner_x = origins(x.spec_height(), si);
                    let outer_x = origins(x.spec_width(), si);
                    let inner_y = origins(img_y.spec_height(), si);
                    let outer_y = origins(img_y.spec_width(), si);
                    assert forall|g: int, h: int|
                        0 <= g && 0 <= h < inner_x && g * inner_x + h < n implies {
                        let wx = (#[trigger] ps@[g * inner_x + h]).0;
                        &&& wx.wf()
                        &&& wx.spec_width() == si
                        &&& wx.spec_height() == si
                        &&& wx@ == window_at(x@, g, h, si)
                    } by {
                        let t = g * inner_x + h;
                        assert(g < outer_x) by (nonlinear_arith)
                            requires
                                0 <= g,
                                0 <= h < inner_x,
                                g * inner_x + h < outer_x * inner_x,
                        ;
                        assert(ps@[t].0.pixels == xs0[t]);
                        assert(xs0[g * inner_x + h].wf());
                    }
                    assert forall|g: int, h: int|
                        0 <= g && 0 <= h < inner_y && g * inner_y + h < n implies {
                        let wy = (#[trigger] ps@[g * inner_y + h]).1;
                        &&& wy.wf()
                        &&& wy.spec_width() == si
                        &&& wy.spec_height() == si
                        &&& wy@ == window_at(img_y@, g, h, si)
                    } by {
                        let t = g * inner_y + h;
                        assert(g < outer_y) by (nonlinear_arith)
                            requires
                                0 <= g,
                                0 <= h < inner_y,
                                g * inner_y + h < outer_y * inner_y,
                        ;
                        assert(ps@[t].1.pixels == ys0[t]);
                        assert(ys0[g * inner_y + h].wf());
                    }
                }
                Ok(ps)
            },
        }
    }
}

} // verus!
