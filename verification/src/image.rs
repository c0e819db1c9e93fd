//! The rectangular grayscale pixel grid and its windowing logic.
use vstd::prelude::*;

verus! {

use crate::SsimError;

/// Nested pixel storage: one `Vec<u8>` per column, indexed `[x][y]`.
pub type Pixels = Vec<Vec<u8>>;

/// A fully populated rectangular grid of 8-bit grayscale samples.
///
/// The samples are held column-by-column: `data` has exactly `width` entries
/// and every entry has exactly `height` samples.
pub struct PixelsNode {
    data: Pixels,
    width: usize,
    height: usize,
}

impl View for PixelsNode {
    type V = Seq<Seq<u8>>;

    closed spec fn view(&self) -> Seq<Seq<u8>> {
        Seq::new(self.data@.len(), |i: int| self.data@[i]@)
    }
}

impl PixelsNode {
    /// The grid's width, as the contracts speak of it.
    pub closed spec fn spec_width(self) -> int {
        self.width as int
    }

    /// The grid's height, as the contracts speak of it.
    pub closed spec fn spec_height(self) -> int {
        self.height as int
    }

    /// Well-formedness: the grid is rectangular, fully populated and nonempty,
    /// and its pixel count fits the machine.
    pub open spec fn wf(self) -> bool {
        &&& self@.len() == self.spec_width()
        &&& self.spec_width() >= 1
        &&& self.spec_height() >= 1
        &&& (forall|i: int| 0 <= i < self@.len() ==> (#[trigger] self@[i]).len() == self.spec_height())
        &&& self.spec_width() * self.spec_height() <= usize::MAX
    }

    /// Total number of samples in the grid.
    pub open spec fn spec_count(self) -> int {
        self.spec_width() * self.spec_height()
    }

    /// Wraps an already nested pixel array whose rows are uniform.
    pub fn new(pix: Pixels) -> (r: Self)
        requires
            pix@.len() >= 1,
            pix@[0]@.len() >= 1,
            forall|i: int| 0 <= i < pix@.len() ==> (#[trigger] pix@[i]@).len() == pix@[0]@.len(),
            pix@.len() * pix@[0]@.len() <= usize::MAX,
        ensures
            r.wf(),
            r.spec_width() == pix@.len(),
            r.spec_height() == pix@[0]@.len(),
            r@.len() == pix@.len(),
            forall|i: int| 0 <= i < pix@.len() ==> r@[i] == (#[trigger] pix@[i])@,
    {
        let w = pix.len();
        let h = pix[0].len();
        Self { data: pix, width: w, height: h }
    }
}

/// Reshaping a flat buffer of `width * height` samples into the nested
/// `[x][y]` form: column `i` holds the samples at flat indices
/// `i * height .. i * height + height`.
pub open spec fn reshape_spec(buf: Seq<u8>, width: int, height: int) -> Seq<Seq<u8>> {
    Seq::new(width as nat, |i: int| buf.subrange(i * height, i * height + height))
}

impl PixelsNode {
    /// Two grids are the same when their recorded dimensions and all their
    /// samples agree.
    pub open spec fn same_grid(self, other: PixelsNode) -> bool {
        &&& self.spec_width() == other.spec_width()
        &&& self.spec_height() == other.spec_height()
        &&& self@ == other@
    }
}

/// Byte-for-byte equality of two sample vectors.
fn rows_eq(a: &Vec<u8>, b: &Vec<u8>) -> (r: bool)
    ensures
        r == (a@ == b@),
{
    if a.len() != b.len() {
        return false;
    }
    let n = a.len();
    let mut j: usize = 0;
    while j < n
        invariant
            j <= n,
            n == a@.len() == b@.len(),
            forall|t: int| 0 <= t < j ==> a@[t] == b@[t],
        decreases n - j,
    {
        if a[j] != b[j] {
            return false;
        }
        j = j + 1;
    }
    proof {
        assert(a@ =~= b@);
    }
    true
}

impl PartialEq for PixelsNode {
    fn eq(&self, other: &Self) -> (r: bool) {
        if self.width != other.width || self.height != other.height {
            return false;
        }
        if self.data.len() != other.data.len() {
            proof {
                assert(self@.len() != other@.len());
            }
            return false;
        }
        let n = self.data.len();
        let mut i: usize = 0;
        while i < n
            invariant
                i <= n,
                n == self.data@.len() == other.data@.len(),
                forall|t: int| 0 <= t < i ==> self@[t] == other@[t],
            decreases n - i,
        {
            if !rows_eq(&self.data[i], &other.data[i]) {
                proof {
                    assert(self@[i as int] == self.data@[i as int]@);
                    assert(other@[i as int] == other.data@[i as int]@);
                }
                return false;
            }
            i = i + 1;
        }
        proof {
            assert(self@ =~= other@);
        }
        true
    }
}

impl vstd::std_specs::cmp::PartialEqSpecImpl for PixelsNode {
    open spec fn obeys_eq_spec() -> bool {
        true
    }

    open spec fn eq_spec(&self, other: &Self) -> bool {
        self.same_grid(*other)
    }
}

/// The square window of side `s` whose origin is column `g`, row `h`: for
/// each of the `s` columns starting at `g`, the `s` samples starting at `h`.
pub open spec fn window_at(grid: Seq<Seq<u8>>, g: int, h: int, s: int) -> Seq<Seq<u8>> {
    Seq::new(s as nat, |i: int| grid[g + i].subrange(h, h + s))
}

/// How many window origins of side `s` fit in a dimension of length `d` when
/// origins advance one pixel at a time.
pub open spec fn origins(d: int, s: int) -> int {
    if s <= d {
        d - s + 1
    } else {
        0
    }
}

/// The flat grayscale buffer that the decode-and-resize collaborator yields
/// for given raw bytes and target dimensions; it is a function of those
/// arguments alone.
pub uninterp spec fn decoded_of(bytes: Seq<u8>, width: int, height: int) -> Seq<u8>;

/// Whether the decode-and-resize collaborator can interpret the raw bytes at
/// all; decoding is deterministic, so this depends on the bytes alone.
pub uninterp spec fn decodable(bytes: Seq<u8>) -> bool;

/// The exact total of a flat buffer's samples.
pub open spec fn sum_of(s: Seq<u8>) -> int
    decreases s.len(),
{
    if s.len() == 0 {
        0
    } else {
        sum_of(s.drop_last()) + s.last()
    }
}

/// An image owning one pixel grid.
pub struct Image {
    pub pixels: PixelsNode,
}

impl View for Image {
    type V = Seq<Seq<u8>>;

    open spec fn view(&self) -> Seq<Seq<u8>> {
        self.pixels@
    }
}

impl Image {
    /// The image is well formed when its grid is.
    pub open spec fn wf(self) -> bool {
        self.pixels.wf()
    }

    pub open spec fn spec_width(self) -> int {
        self.pixels.spec_width()
    }

    pub open spec fn spec_height(self) -> int {
        self.pixels.spec_height()
    }

    /// Total number of samples.
    pub open spec fn spec_count(self) -> int {
        self.pixels.spec_count()
    }

    /// The flat sequence of samples, columns concatenated in order.
    pub open spec fn flat(self) -> Seq<u8> {
        self@.flatten()
    }

    /// Reshapes a flat buffer into nested form, one inner vector per column.
    #[verifier::loop_isolation(false)]
    fn into_2d(a_vec: &Vec<u8>, width: usize, height: usize) -> (r: Pixels)
        requires
            width >= 1,
            height >= 1,
            a_vec@.len() == width * height,
            width * height <= usize::MAX,
        ensures
            r@.len() == width,
            forall|i: int|
                0 <= i < width ==> (#[trigger] r@[i])@ == a_vec@.subrange(
                    i * height,
                    i * height + height,
                ),
    {
        let mut xy: Pixels = Vec::new();
        let mut i: usize = 0;
        while i < width
            invariant
                i <= width,
                xy@.len() == i,
                forall|k: int|
                    0 <= k < i ==> (#[trigger] xy@[k])@ == a_vec@.subrange(
                        k * height,
                        k * height + height,
                    ),
            decreases width - i,
        {
            assert(i * height + height <= width * height) by (nonlinear_arith)
                requires
                    i < width,
                    height >= 1,
            ;
            let c = i * height;
            let mut y: Vec<u8> = Vec::new();
            let mut j: usize = 0;
            while j < height
                invariant
                    j <= height,
                    c == i * height,
                    c + height <= a_vec@.len(),
                    y@ == a_vec@.subrange(c as int, c + j),
                decreases height - j,
            {
                y.push(a_vec[c + j]);
                assert(y@ =~= a_vec@.subrange(c as int, c + j + 1));
                j = j + 1;
            }
            xy.push(y);
            i = i + 1;
        }
        xy
    }

    /// Builds a well-formed grid from a flat buffer of exactly
    /// `width * height` samples.
    fn grid_from_flat(flat: &Vec<u8>, width: usize, height: usize) -> (node: PixelsNode)
        requires
            width >= 1,
            height >= 1,
            flat@.len() == width * height,
        ensures
            node.wf(),
            node.spec_width() == width,
            node.spec_height() == height,
            node@ == reshape_spec(flat@, width as int, height as int),
    {
        // a Vec's length fits in usize, so width * height does too
        let _total: usize = flat.len();
        let xy = Self::into_2d(flat, width, height);
        proof {
            assert forall|i: int| 0 <= i < xy@.len() implies (#[trigger] xy@[i])@.len()
                == height as int by {
                assert(0 <= i * height && i * height + height <= width * height)
                    by (nonlinear_arith)
                    requires
                        0 <= i < width,
                        height >= 1,
                ;
            }
        }
        let node = PixelsNode::new(xy);
        proof {
            assert forall|i: int| 0 <= i < width implies node@[i] == reshape_spec(
                flat@,
                width as int,
                height as int,
            )[i] by {
                assert(node@[i] == xy@[i]@);
            }
            assert(node@ =~= reshape_spec(flat@, width as int, height as int));
        }
        node
    }

    /// Constructs an image by handing the raw bytes to the decode-and-resize
    /// collaborator and reshaping the grayscale samples it yields.
    pub fn from_buf(buf: &Vec<u8>, width: usize, height: usize) -> (r: Result<Image, SsimError>)
        ensures
            width == 0 || height == 0 ==> r == Err::<Image, SsimError>(SsimError::EmptyImage),
            r is Err ==> r == Err::<Image, SsimError>(SsimError::EmptyImage) || r == Err::<
                Image,
                SsimError,
            >(SsimError::DecodeError),
            width >= 1 && height >= 1 && r is Err ==> r == Err::<Image, SsimError>(
                SsimError::DecodeError,
            ),
            1 <= width <= u32::MAX && 1 <= height <= u32::MAX ==> (r is Ok <==> decodable(buf@)),
            r matches Ok(img) ==> {
                &&& img.wf()
                &&& img.spec_width() == width
                &&& img.spec_height() == height
                &&& decoded_of(buf@, width as int, height as int).len() == width * height
                &&& img@ == reshape_spec(
                    decoded_of(buf@, width as int, height as int),
                    width as int,
                    height as int,
                )
            },
    {
        if width == 0 || height == 0 {
            return Err(SsimError::EmptyImage);
        }
        if width > u32::MAX as usize || height > u32::MAX as usize {
            return Err(SsimError::DecodeError);
        }
        match Self::decode_and_resize(buf, width, height) {
            None => Err(SsimError::DecodeError),
            Some(p) => {
                let node = Self::grid_from_flat(&p, width, height);
                Ok(Image { pixels: node })
            },
        }
    }

    /// Relies on `image::load_from_memory`, `DynamicImage::resize_to_fill` and
    /// `DynamicImage::to_luma8`: whether the bytes decode depends on the bytes
    /// alone, and a decodable buffer yields exactly `width * height` grayscale
    /// samples that depend on the input bytes and the target dimensions alone.
    #[verifier::external_body]
    fn decode_and_resize(buf: &Vec<u8>, width: usize, height: usize) -> (r: Option<Vec<u8>>)
        requires
            1 <= width <= u32::MAX,
            1 <= height <= u32::MAX,
        ensures
            r is Some <==> decodable(buf@),
            r matches Some(p) ==> {
                &&& p@.len() == width * height
                &&& p@ == decoded_of(buf@, width as int, height as int)
            },
    {
        match image::load_from_memory(buf) {
            Ok(img) => Some(
                img.resize_to_fill(
                    width as u32,
                    height as u32,
                    image::imageops::FilterType::Gaussian,
                ).to_luma8().to_vec(),
            ),
            Err(_) => None,
        }
    }

    /// Pure reshape of a flat sample buffer into a grid of this image's
    /// dimensions; the buffer must hold exactly `width * height` samples.
    pub fn from_pixels_vec(&self, pix: &Vec<u8>) -> (r: Result<Image, SsimError>)
        requires
            self.wf(),
        ensures
            r is Ok <==> pix@.len() == self.spec_count(),
            r is Err ==> r == Err::<Image, SsimError>(SsimError::ShapeMismatch),
            r matches Ok(img) ==> {
                &&& img.wf()
                &&& img.spec_width() == self.spec_width()
                &&& img.spec_height() == self.spec_height()
                &&& img@ == reshape_spec(pix@, self.spec_width(), self.spec_height())
            },
    {
        let w = self.pixels.width;
        let h = self.pixels.height;
        if pix.len() != w * h {
            return Err(SsimError::ShapeMismatch);
        }
        let node = Self::grid_from_flat(pix, w, h);
        Ok(Image { pixels: node })
    }

    /// A borrow of the nested sample storage.
    pub fn pixels(&self) -> (r: Option<&Pixels>)
        ensures
            r is Some,
            r matches Some(p) ==> {
                &&& p@.len() == self@.len()
                &&& forall|i: int| 0 <= i < self@.len() ==> (#[trigger] p@[i])@ == self@[i]
            },
    {
        Some(&self.pixels.data)
    }

    /// The flat sample buffer, columns concatenated in order; the inverse of
    /// the reshape construction.
    #[verifier::loop_isolation(false)]
    pub fn flattened(&self) -> (r: Result<Vec<u8>, SsimError>)
        requires
            self.wf(),
        ensures
            r is Ok,
            r matches Ok(v) ==> v@ == self.flat() && v@.len() == self.spec_count(),
    {
        let mut out: Vec<u8> = Vec::new();
        let width = self.pixels.width;
        let height = self.pixels.height;
        let mut i: usize = 0;
        while i < width
            invariant
                i <= width,
                out@ == self@.take(i as int).flatten(),
                out@.len() == i * self.spec_height(),
            decreases width - i,
        {
            assert((i + 1) * height == i * height + height) by (nonlinear_arith);
            assert((i + 1) * height <= width * height) by (nonlinear_arith)
                requires
                    i < width,
                    height >= 1,
            ;
            let row: &Vec<u8> = &self.pixels.data[i];
            let ghost done = self@.take(i as int).flatten();
            let mut j: usize = 0;
            while j < height
                invariant
                    j <= height,
                    i < width,
                    out@ == done + self@[i as int].take(j as int),
                decreases height - j,
            {
                out.push(row[j]);
                assert(self@[i as int].take(j + 1) =~= self@[i as int].take(j as int).push(
                    self@[i as int][j as int],
                ));
                j = j + 1;
            }
            proof {
                assert(self@[i as int].take(height as int) =~= self@[i as int]);
                assert(self@.take(i + 1) =~= self@.take(i as int).push(self@[i as int]));
                Seq::lemma_flatten_push(self@.take(i as int), self@[i as int]);
            }
            i = i + 1;
        }
        proof {
            assert(self@.take(width as int) =~= self@);
        }
        Ok(out)
    }

    /// Decomposes the image into its square windows of side `win_size`.
    ///
    /// Window origins advance by one pixel in each dimension and stop as soon
    /// as a window would run past the image edge, so consecutive windows
    /// overlap.  Only the width is validated against the window size; a
    /// window size above the height merely yields zero windows.  The windows
    /// come out with the origin row `h` varying fastest: the window with
    /// origin `(g, h)` sits at position `g * origins(height, s) + h`.
    #[verifier::loop_isolation(false)]
    pub fn sub_pixels(&self, win_size: usize) -> (r: Result<Vec<PixelsNode>, SsimError>)
        requires
            self.wf(),
            win_size >= 1,
        ensures
            r is Err <==> win_size > self.spec_width(),
            r is Err ==> r == Err::<Vec<PixelsNode>, SsimError>(SsimError::InvalidWindowSize),
            r matches Ok(subs) ==> {
                let outer = origins(self.spec_width(), win_size as int);
                let inner = origins(self.spec_height(), win_size as int);
                &&& subs@.len() == outer * inner
                &&& forall|g: int, h: int|
                    0 <= g < outer && 0 <= h < inner ==> {
                        let node = #[trigger] subs@[g * inner + h];
                        &&& node.wf()
                        &&& node.spec_width() == win_size
                        &&& node.spec_height() == win_size
                        &&& node@ == window_at(self@, g, h, win_size as int)
                    }
            },
    {
        let width = self.pixels.width;
        let height = self.pixels.height;
        if win_size > width {
            return Err(SsimError::InvalidWindowSize);
        }
        let outer: usize = width - win_size + 1;
        let inner: usize = if win_size <= height {
            height - win_size + 1
        } else {
            0
        };
        let mut subs: Vec<PixelsNode> = Vec::new();
        let mut g: usize = 0;
        while g < outer
            invariant
                g <= outer,
                subs@.len() == g * inner,
                forall|a: int, b: int|
                    0 <= a < g && 0 <= b < inner ==> {
                        let node = #[trigger] subs@[a * inner + b];
                        &&& node.wf()
                        &&& node.spec_width() == win_size
                        &&& node.spec_height() == win_size
                        &&& node@ == window_at(self@, a, b, win_size as int)
                    },
            decreases outer - g,
        {
            let mut h: usize = 0;
            while h < inner
                invariant
                    h <= inner,
                    g < outer,
                    subs@.len() == g * inner + h,
                    forall|a: int, b: int|
                        (0 <= a < g && 0 <= b < inner) || (a == g && 0 <= b < h) ==> {
                            let node = #[trigger] subs@[a * inner + b];
                            &&& node.wf()
                            &&& node.spec_width() == win_size
                            &&& node.spec_height() == win_size
                            &&& node@ == window_at(self@, a, b, win_size as int)
                        },
                decreases inner - h,
            {
                let mut sub: Pixels = Vec::new();
                let mut i: usize = 0;
                while i < win_size
                    invariant
                        i <= win_size,
                        g < outer,
                        h < inner,
                        sub@.len() == i,
                        forall|t: int|
                            0 <= t < i ==> (#[trigger] sub@[t])@ == self@[g + t].subrange(
                                h as int,
                                h + win_size,
                            ),
                    decreases win_size - i,
                {
                    let mut col: Vec<u8> = Vec::new();
                    let mut j: usize = 0;
                    while j < win_size
                        invariant
                            j <= win_size,
                            i < win_size,
                            g < outer,
                            h < inner,
                            col@ == self@[g + i].subrange(h as int, h + j),
                        decreases win_size - j,
                    {
                        col.push(self.pixels.data[g + i][h + j]);
                        proof {
                            assert(col@ =~= self@[g + i].subrange(h as int, h + j + 1));
                        }
                        j = j + 1;
                    }
                    sub.push(col);
                    i = i + 1;
                }
                proof {
                    assert(win_size * win_size <= width * height) by (nonlinear_arith)
                        requires
                            1 <= win_size <= width,
                            1 <= win_size <= height,
                    ;
                    assert forall|t: int| 0 <= t < sub@.len() implies (#[trigger] sub@[t])@.len()
                        == sub@[0]@.len() by {}
                }
                let node = PixelsNode::new(sub);
                proof {
                    assert forall|t: int| 0 <= t < win_size implies node@[t] == window_at(
                        self@,
                        g as int,
                        h as int,
                        win_size as int,
                    )[t] by {
                        assert(node@[t] == sub@[t]@);
                    }
                    assert(node@ =~= window_at(self@, g as int, h as int, win_size as int));
                }
                let ghost pre = subs@;
                subs.push(node);
                proof {
                    assert forall|a: int, b: int|
                        (0 <= a < g && 0 <= b < inner) || (a == g && 0 <= b < h + 1) implies {
                        let picked = #[trigger] subs@[a * inner + b];
                        &&& picked.wf()
                        &&& picked.spec_width() == win_size
                        &&& picked.spec_height() == win_size
                        &&& picked@ == window_at(self@, a, b, win_size as int)
                    } by {
                        let k = a * inner + b;
                        if a == g && b == h {
                            assert(subs@[k] == node);
                        } else {
                            if a < g {
                                assert(k < g * inner + h) by (nonlinear_arith)
                                    requires
                                        0 <= a < g,
                                        0 <= b < inner,
                                        0 <= h,
                                        k == a * inner + b,
                                ;
                            } else {
                                assert(k < g * inner + h);
                            }
                            assert(subs@[k] == pre[k]);
                            assert(pre[a * inner + b].wf());
                        }
                    }
                }
                h = h + 1;
            }
            proof {
                assert((g + 1) * inner == g * inner + inner) by (nonlinear_arith);
            }
            g = g + 1;
        }
        Ok(subs)
    }

    /// An owned copy of the image holding the same samples.
    #[verifier::loop_isolation(false)]
    pub fn duplicate(&self) -> (r: Image)
        requires
            self.wf(),
        ensures
            r.wf(),
            r@ == self@,
            r.spec_width() == self.spec_width(),
            r.spec_height() == self.spec_height(),
    {
        let width = self.pixels.data.len();
        let mut data: Pixels = Vec::new();
        let mut i: usize = 0;
        while i < width
            invariant
                i <= width,
                data@.len() == i,
                forall|k: int| 0 <= k < i ==> (#[trigger] data@[k])@ == self@[k],
            decreases width - i,
        {
            let row: &Vec<u8> = &self.pixels.data[i];
            let height = row.len();
            let mut col: Vec<u8> = Vec::new();
            let mut j: usize = 0;
            while j < height
                invariant
                    j <= height,
                    i < width,
                    height == self@[i as int].len(),
                    col@ == self@[i as int].take(j as int),
                decreases height - j,
            {
                col.push(row[j]);
                proof {
                    assert(col@ =~= self@[i as int].take(j + 1));
                }
                j = j + 1;
            }
            proof {
                assert(col@ =~= self@[i as int]);
            }
            data.push(col);
            i = i + 1;
        }
        let node = PixelsNode::new(data);
        let img = Image { pixels: node };
        proof {
            assert forall|k: int| 0 <= k < width implies img@[k] == self@[k] by {
                assert(img@[k] == data@[k]@);
            }
            assert(img@ =~= self@);
        }
        img
    }

    /// The exact total of all samples; small enough for `u128` since each
    /// sample is at most 255 and the count fits in `usize`.
    #[verifier::loop_isolation(false)]
    pub fn sum_pixels(&self) -> (r: Result<u128, SsimError>)
        requires
            self.wf(),
        ensures
            r is Ok,
            r matches Ok(total) ==> total == sum_of(self.flat()),
    {
        let flat = match self.flattened() {
            Ok(v) => v,
            Err(e) => {
                return Err(e);
            },
        };
        let n = flat.len();
        let mut total: u128 = 0;
        let mut i: usize = 0;
        while i < n
            invariant
                i <= n,
                n == flat@.len(),
                total == sum_of(flat@.take(i as int)),
                total <= 255 * i,
            decreases n - i,
        {
            proof {
                assert(flat@.take(i + 1).drop_last() =~= flat@.take(i as int));
            }
            total = total + flat[i] as u128;
            i = i + 1;
        }
        proof {
            assert(flat@.take(n as int) =~= flat@);
        }
        Ok(total)
    }

    /// The total pixel count, `width * height`.
    pub fn length(&self) -> (n: usize)
        requires
            self.wf(),
        ensures
            n == self.spec_count(),
    {
        proof {
            assert(self@[0].len() == self.spec_height());
            assert(self.spec_height() * self.spec_width() == self.spec_width()
                * self.spec_height()) by (nonlinear_arith);
        }
        let n = self.pixels.data[0].len() * self.pixels.data.len();
        n
    }
}

impl PartialEq for Image {
    fn eq(&self, other: &Self) -> (r: bool) {
        self.pixels == other.pixels
    }
}

impl vstd::std_specs::cmp::PartialEqSpecImpl for Image {
    open spec fn obeys_eq_spec() -> bool {
        true
    }

    open spec fn eq_spec(&self, other: &Self) -> bool {
        self.pixels.same_grid(other.pixels)
    }
}

/// Law: reshaping a flat buffer of length `width * height` into a grid and
/// flattening the grid gives back the original buffer.
pub proof fn lemma_reshape_flatten_roundtrip(buf: Seq<u8>, width: int, height: int)
    requires
        width >= 0,
        height >= 0,
        buf.len() == width * height,
    ensures
        reshape_spec(buf, width, height).flatten() == buf,
    decreases width,
{
    let grid = reshape_spec(buf, width, height);
    if width == 0 {
        assert(grid.flatten() =~= buf);
    } else {
        let rest = buf.skip(height);
        assert((width - 1) * height == width * height - height) by (nonlinear_arith);
        lemma_reshape_flatten_roundtrip(rest, width - 1, height);
        let tail = reshape_spec(rest, width - 1, height);
        assert forall|i: int| 0 <= i < width - 1 implies grid.drop_first()[i] == tail[i] by {
            assert((i + 1) * height == i * height + height) by (nonlinear_arith);
            assert((i + 1) * height + height <= width * height) by (nonlinear_arith)
                requires
                    0 <= i < width - 1,
                    height >= 0,
            ;
            assert(grid.drop_first()[i] =~= tail[i]);
        }
        assert(grid.drop_first() =~= tail);
        assert(grid.first() == buf.subrange(0, height));
        assert(grid.flatten() == grid.first() + grid.drop_first().flatten());
        assert(buf.subrange(0, height) + rest =~= buf);
    }
}

} // verus!
