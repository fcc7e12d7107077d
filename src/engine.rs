use vstd::prelude::*;

use crate::color::{spec_idle, spec_marked, toggled, Color};

verus! {

/// What the engine reads of a built diagram: how many cells it has and the
/// size in whole pixels of the region it covers.
#[derive(Clone, Copy, Debug, PartialEq, Eq, Structural)]
pub struct Geometry {
    pub site_count: usize,
    pub width: u32,
    pub height: u32,
}

/// Why an image could not be built or drawn.
#[derive(Clone, Copy, Debug, PartialEq, Eq, Structural)]
pub enum ImageError {
    /// The diagram has another number of cells than there are colours.
    CardinalityMismatch,
    /// The diagram itself could not be built.
    GeometryBuildFailure,
    /// A cell index outside `[0, site_count)` was met.
    IndexOutOfRange,
}

/// The abstract state of a [`VoronoiImage`].
pub struct ImageModel {
    pub site_count: nat,
    pub width: nat,
    pub height: nat,
    /// One colour per cell.
    pub colors: Seq<Color>,
    /// Once filled, the cell of each pixel in row-major order.
    pub cells: Option<Seq<usize>>,
}

/// The colour buffer that a classification gives: pixel `p` takes the colour
/// of the cell that owns it.
pub open spec fn paint(colors: Seq<Color>, cells: Seq<usize>) -> Seq<Color> {
    Seq::new(cells.len(), |p: int| colors[cells[p] as int])
}

impl ImageModel {
    pub open spec fn pixel_count(self) -> nat {
        self.width * self.height
    }

    /// Column of pixel `p` in row-major order.
    pub open spec fn px(self, p: int) -> int {
        p % (self.width as int)
    }

    /// Row of pixel `p` in row-major order.
    pub open spec fn py(self, p: int) -> int {
        p / (self.width as int)
    }

    pub open spec fn is_cached(self) -> bool {
        self.cells is Some
    }

    pub open spec fn wf(self) -> bool {
        &&& self.colors.len() == self.site_count
        &&& self.cells matches Some(cells) ==> {
            &&& cells.len() == self.pixel_count()
            &&& forall|p: int| 0 <= p < cells.len() ==> #[trigger] cells[p] < self.site_count
        }
    }

    /// The state after cell `i` is given colour `c`.
    pub open spec fn with_color(self, i: int, c: Color) -> ImageModel {
        ImageModel { colors: self.colors.update(i, c), ..self }
    }

    /// `after` is the state left by drawing `before`, and `out` the buffer drawn:
    /// the colours and the size stay, the classification is filled (and kept if
    /// it was), and every pixel shows the colour of its cell.
    pub open spec fn renders(before: ImageModel, after: ImageModel, out: Seq<Color>) -> bool {
        &&& after.site_count == before.site_count
        &&& after.width == before.width
        &&& after.height == before.height
        &&& after.colors == before.colors
        &&& after.cells is Some
        &&& before.cells is Some ==> after.cells == before.cells
        &&& out == paint(after.colors, after.cells->Some_0)
    }
}

/// Looks up the colour of each pixel's cell.
fn paint_cells(colors: &Vec<Color>, cells: &Vec<usize>) -> (out: Vec<Color>)
    requires
        forall|p: int| 0 <= p < cells@.len() ==> #[trigger] cells@[p] < colors@.len(),
    ensures
        out@ == paint(colors@, cells@),
{
    let mut out: Vec<Color> = Vec::new();
    let mut i: usize = 0;
    while i < cells.len()
        invariant
            i <= cells@.len(),
            forall|p: int| 0 <= p < cells@.len() ==> #[trigger] cells@[p] < colors@.len(),
            out@ == paint(colors@, cells@.subrange(0, i as int)),
        decreases cells@.len() - i,
    {
        out.push(colors[cells[i]]);
        i = i + 1;
        proof {
            assert(out@ =~= paint(colors@, cells@.subrange(0, i as int)));
        }
    }
    proof {
        assert(cells@.subrange(0, i as int) =~= cells@);
    }
    out
}

/// A diagram's raster with a colour per cell and a lazily built map from
/// pixel to cell.
pub struct VoronoiImage {
    site_count: usize,
    width: u32,
    height: u32,
    colors: Vec<Color>,
    cache: Option<Vec<usize>>,
}

impl View for VoronoiImage {
    type V = ImageModel;

    closed spec fn view(&self) -> ImageModel {
        ImageModel {
            site_count: self.site_count as nat,
            width: self.width as nat,
            height: self.height as nat,
            colors: self.colors@,
            cells: match &self.cache {
                Some(v) => Some(v@),
                None => None,
            },
        }
    }
}

impl VoronoiImage {
    pub open spec fn wf(&self) -> bool {
        self@.wf()
    }

    /// Builds the engine over a diagram, or over the failure to build one.
    /// The classification starts empty.
    pub fn new(diagram: Option<Geometry>, colors: Vec<Color>) -> (r: Result<VoronoiImage, ImageError>)
        ensures
            match diagram {
                None => r == Err::<VoronoiImage, ImageError>(ImageError::GeometryBuildFailure),
                Some(g) => if g.site_count != colors@.len() {
                    r == Err::<VoronoiImage, ImageError>(ImageError::CardinalityMismatch)
                } else {
                    r matches Ok(img) && img.wf() && img@ == (ImageModel {
                        site_count: g.site_count as nat,
                        width: g.width as nat,
                        height: g.height as nat,
                        colors: colors@,
                        cells: None,
                    })
                },
            },
    {
        match diagram {
            None => Err(ImageError::GeometryBuildFailure),
            Some(g) => {
                if g.site_count != colors.len() {
                    Err(ImageError::CardinalityMismatch)
                } else {
                    let img = VoronoiImage {
                        site_count: g.site_count,
                        width: g.width,
                        height: g.height,
                        colors,
                        cache: None,
                    };
                    Ok(img)
                }
            },
        }
    }

    /// Draws the image in row-major order. The first call classifies every
    /// pixel with `locate` and keeps the result; later calls read the kept
    /// classification and never call `locate`. A cell index out of range from
    /// `locate` fails the draw and leaves the engine as it was.
    pub fn draw<F: Fn(u32, u32) -> usize>(&mut self, locate: F) -> (r: Result<Vec<Color>, ImageError>)
        requires
            old(self).wf(),
            !old(self)@.is_cached() ==> forall|x: u32, y: u32| locate.requires((x, y)),
        ensures
            final(self).wf(),
            old(self)@.is_cached() ==> r is Ok,
            r matches Ok(out) ==> ImageModel::renders(old(self)@, final(self)@, out@),
            r is Ok && !old(self)@.is_cached() ==> forall|p: int|
                0 <= p < final(self)@.pixel_count() ==> locate.ensures(
                    (final(self)@.px(p) as u32, final(self)@.py(p) as u32),
                    #[trigger] final(self)@.cells->Some_0[p],
                ),
            r is Err ==> {
                &&& r == Err::<Vec<Color>, ImageError>(ImageError::IndexOutOfRange)
                &&& final(self)@ == old(self)@
                &&& exists|x: u32, y: u32, c: usize|
                    x < old(self)@.width && y < old(self)@.height && c >= old(self)@.site_count
                        && #[trigger] locate.ensures((x, y), c)
            },
    {
        match &self.cache {
            Some(cells) => {
                let out = paint_cells(&self.colors, cells);
                Ok(out)
            },
            None => {
                let w = self.width;
                let h = self.height;
                let ghost m = self@;
                let mut cells: Vec<usize> = Vec::new();
                let mut out: Vec<Color> = Vec::new();
                let mut y: u32 = 0;
                while y < h
                    invariant
                        self@ == m,
                        m.cells is None,
                        self.wf(),
                        w == m.width,
                        h == m.height,
                        y <= h,
                        forall|x: u32, y: u32| locate.requires((x, y)),
                        cells@.len() == y * w,
                        out@ == paint(self.colors@, cells@),
                        forall|p: int| 0 <= p < cells@.len() ==> #[trigger] cells@[p] < self.site_count,
                        forall|p: int| 0 <= p < cells@.len() ==> locate.ensures(
                            (m.px(p) as u32, m.py(p) as u32), #[trigger] cells@[p]),
                    decreases h - y,
                {
                    let mut x: u32 = 0;
                    while x < w
                        invariant
                            self@ == m,
                            m.cells is None,
                            self.wf(),
                            w == m.width,
                            h == m.height,
                            y < h,
                            x <= w,
                            forall|x: u32, y: u32| locate.requires((x, y)),
                            cells@.len() == y * w + x,
                            out@ == paint(self.colors@, cells@),
                            forall|p: int| 0 <= p < cells@.len() ==> #[trigger] cells@[p] < self.site_count,
                            forall|p: int| 0 <= p < cells@.len() ==> locate.ensures(
                                (m.px(p) as u32, m.py(p) as u32), #[trigger] cells@[p]),
                        decreases w - x,
                    {
                        let c = locate(x, y);
                        if c >= self.site_count {
                            proof {
                                assert(locate.ensures((x, y), c));
                                assert(exists|x: u32, y: u32, c: usize|
                                    x < m.width && y < m.height && c >= m.site_count
                                        && #[trigger] locate.ensures((x, y), c));
                            }
                            return Err(ImageError::IndexOutOfRange);
                        }
                        proof {
                            let p = y * w + x;
                            assert(p == cells@.len());
                            vstd::arithmetic::div_mod::lemma_fundamental_div_mod_converse(
                                p as int, w as int, y as int, x as int);
                            assert(p < h * w) by (nonlinear_arith)
                                requires p == y * w + x, x < w, y < h;
                        }
                        let ghost prev = cells@;
                        cells.push(c);
                        out.push(self.colors[c]);
                        proof {
                            assert(out@ =~= paint(self.colors@, cells@));
                            assert forall|q: int| 0 <= q < cells@.len() implies locate.ensures(
                                (m.px(q) as u32, m.py(q) as u32), #[trigger] cells@[q]) by {
                                if q < prev.len() {
                                    assert(cells@[q] == prev[q]);
                                }
                            }
                        }
                        x = x + 1;
                    }
                    proof {
                        assert((y + 1) * w == y * w + w) by (nonlinear_arith);
                    }
                    y = y + 1;
                }
                proof {
                    assert(cells@.len() == m.pixel_count()) by (nonlinear_arith)
                        requires cells@.len() == h * w, m.pixel_count() == m.width * m.height,
                            h == m.height, w == m.width;
                }
                self.cache = Some(cells);
                Ok(out)
            },
        }
    }

    /// Gives cell `i` the colour `c`. The classification is left as it is.
    pub fn set_color(&mut self, i: usize, c: Color)
        requires
            old(self).wf(),
            i < old(self)@.site_count,
        ensures
            final(self).wf(),
            final(self)@ == old(self)@.with_color(i as int, c),
    {
        self.colors.set(i, c);
    }

    /// The kept cell of pixel `(x, y)`, if the classification is built and
    /// the pixel lies in the image.
    pub fn cached_cell(&self, x: u32, y: u32) -> (r: Option<usize>)
        requires
            self.wf(),
        ensures
            r == (if self@.is_cached() && x < self@.width && y < self@.height {
                Some(self@.cells->Some_0[y * self@.width + x])
            } else {
                None::<usize>
            }),
            r matches Some(c) ==> c < self@.site_count,
    {
        match &self.cache {
            Some(cells) => {
                if x < self.width && y < self.height {
                    // The classification's length bounds the pixel count.
                    let n = cells.len();
                    proof {
                        assert(n == self@.pixel_count());
                        assert(y * self.width + x < self.height * self.width) by (nonlinear_arith)
                            requires x < self.width, y < self.height;
                        assert(self.height * self.width == self@.pixel_count()) by (nonlinear_arith)
                            requires self@.pixel_count() == self@.width * self@.height,
                                self@.width == self.width, self@.height == self.height;
                    }
                    let p = y as usize * self.width as usize + x as usize;
                    Some(cells[p])
                } else {
                    None
                }
            },
            None => None,
        }
    }

    /// Turns cell `i` from the idle colour to the marked one, or from any
    /// other colour to the idle one.
    pub fn toggle_color(&mut self, i: usize)
        requires
            old(self).wf(),
            i < old(self)@.site_count,
        ensures
            final(self).wf(),
            final(self)@ == old(self)@.with_color(
                i as int,
                if old(self)@.colors[i as int] == spec_idle() { spec_marked() } else { spec_idle() },
            ),
    {
        let c = toggled(self.colors[i]);
        self.set_color(i, c);
    }

    pub fn width(&self) -> (w: u32)
        ensures
            w == self@.width,
    {
        self.width
    }

    pub fn height(&self) -> (h: u32)
        ensures
            h == self@.height,
    {
        self.height
    }

    pub fn site_count(&self) -> (n: usize)
        ensures
            n == self@.site_count,
    {
        self.site_count
    }

    /// Whether the classification has been built.
    pub fn is_cached(&self) -> (b: bool)
        ensures
            b == self@.is_cached(),
    {
        self.cache.is_some()
    }

    /// The colour of cell `i`.
    pub fn color(&self, i: usize) -> (c: Color)
        requires
            self.wf(),
            i < self@.site_count,
        ensures
            c == self@.colors[i as int],
    {
        self.colors[i]
    }
}

/// Drawing again without changing a colour gives the same buffer: along any
/// run of draws, each starting from the state the previous one left, every
/// buffer equals the first and the state stays as the first draw left it.
pub proof fn lemma_draws_agree(states: Seq<ImageModel>, outs: Seq<Seq<Color>>)
    requires
        outs.len() >= 1,
        states.len() == outs.len() + 1,
        forall|k: int| 0 <= k < outs.len() ==> ImageModel::renders(
            states[k], states[k + 1], #[trigger] outs[k]),
    ensures
        forall|k: int| 0 <= k < outs.len() ==> #[trigger] outs[k] == outs[0],
        forall|k: int| 1 <= k < states.len() ==> #[trigger] states[k] == states[1],
    decreases outs.len(),
{
    if outs.len() > 1 {
        let n = outs.len() - 1;
        lemma_draws_agree(states.drop_last(), outs.drop_last());
        assert(ImageModel::renders(states[n], states[n + 1], outs[n]));
        assert(ImageModel::renders(states[n - 1], states[(n - 1) + 1], outs[n - 1]));
        assert(outs.drop_last()[0] == outs[0]);
        assert(states.drop_last()[n] == states[n]);
        assert forall|k: int| 0 <= k < outs.len() implies #[trigger] outs[k] == outs[0] by {
            if k < n {
                assert(outs.drop_last()[k] == outs[k]);
            }
        }
        assert forall|k: int| 1 <= k < states.len() implies #[trigger] states[k] == states[1] by {
            if k <= n {
                assert(states.drop_last()[k] == states[k]);
            }
        }
    }
}

/// Recolouring cell `i` and drawing again changes exactly the pixels that the
/// classification gives to cell `i`: they now show `c`, every other pixel
/// keeps its colour, and a pixel differs from before if and only if it lies in
/// cell `i` and `c` differs from the colour that cell had.
pub proof fn lemma_recolor_changes_only_cell(
    s0: ImageModel,
    s1: ImageModel,
    before: Seq<Color>,
    i: int,
    c: Color,
    s2: ImageModel,
    after: Seq<Color>,
)
    requires
        ImageModel::renders(s0, s1, before),
        s1.wf(),
        0 <= i < s1.site_count,
        ImageModel::renders(s1.with_color(i, c), s2, after),
    ensures
        s2.cells == s1.cells,
        after.len() == before.len(),
        forall|p: int| 0 <= p < after.len() ==> {
            let cell = s1.cells->Some_0[p] as int;
            &&& cell == i ==> #[trigger] after[p] == c
            &&& cell != i ==> after[p] == before[p]
            &&& (after[p] != before[p] <==> (cell == i && c != s1.colors[i]))
        },
{
    assert forall|p: int| 0 <= p < after.len() implies {
        let cell = s1.cells->Some_0[p] as int;
        &&& cell == i ==> #[trigger] after[p] == c
        &&& cell != i ==> after[p] == before[p]
        &&& (after[p] != before[p] <==> (cell == i && c != s1.colors[i]))
    } by {
        let cell = s1.cells->Some_0[p] as int;
        assert(0 <= cell < s1.site_count);
        assert(after[p] == s1.colors.update(i, c)[cell]);
        assert(before[p] == s1.colors[cell]);
    }
}

} // verus!
