use vstd::prelude::*;

use rand::distributions::Uniform;
use rand::Rng;

use crate::color::Color;

verus! {

#[verifier::external_type_specification]
#[verifier::external_body]
pub struct ExThreadRng(rand::rngs::ThreadRng);

/// Relies on rand's `Uniform::new(0, bound)` sampled through `Rng::sample`:
/// a value in `[0, bound)`. `Uniform::new` panics when `bound` is 0.
#[verifier::external_body]
fn sample_below(rng: &mut rand::rngs::ThreadRng, bound: u32) -> (r: u32)
    requires
        bound > 0,
    ensures
        r < bound,
{
    rng.sample(Uniform::new(0, bound))
}

/// Relies on rand's `Uniform::new_inclusive(0, 255)` sampled through
/// `Rng::sample`: any byte.
#[verifier::external_body]
fn sample_byte(rng: &mut rand::rngs::ThreadRng) -> (r: u8) {
    rng.sample(Uniform::new_inclusive(0u8, 255u8))
}

/// The number of opaque colours.
pub const COLOR_SPACE: u64 = 16777216;

/// The state of a [`PointPicker`].
pub struct PointsModel {
    pub width: nat,
    pub height: nat,
    pub count: nat,
    pub points: Seq<(u32, u32)>,
}

impl PointsModel {
    pub open spec fn in_bounds(self, p: (u32, u32)) -> bool {
        p.0 < self.width && p.1 < self.height
    }

    pub open spec fn wf(self) -> bool {
        &&& self.points.len() <= self.count
        &&& self.count <= self.width * self.height
        &&& self.points.no_duplicates()
        &&& forall|k: int| 0 <= k < self.points.len() ==> self.in_bounds(#[trigger] self.points[k])
    }

    pub open spec fn is_complete(self) -> bool {
        self.points.len() == self.count
    }

    /// Whether `p` is taken when offered.
    pub open spec fn accepts(self, p: (u32, u32)) -> bool {
        self.in_bounds(p) && !self.is_complete() && !self.points.contains(p)
    }
}

/// Collects a given number of distinct grid points in `[0, width) x [0, height)`,
/// turning away every candidate already held.
pub struct PointPicker {
    width: u32,
    height: u32,
    count: usize,
    points: Vec<(u32, u32)>,
}

impl View for PointPicker {
    type V = PointsModel;

    closed spec fn view(&self) -> PointsModel {
        PointsModel {
            width: self.width as nat,
            height: self.height as nat,
            count: self.count as nat,
            points: self.points@,
        }
    }
}

fn holds_point(v: &Vec<(u32, u32)>, p: (u32, u32)) -> (r: bool)
    ensures
        r == v@.contains(p),
{
    let mut i: usize = 0;
    while i < v.len()
        invariant
            i <= v@.len(),
            forall|k: int| 0 <= k < i ==> v@[k] != p,
        decreases v@.len() - i,
    {
        if v[i].0 == p.0 && v[i].1 == p.1 {
            proof {
                assert(v@[i as int] == p);
            }
            return true;
        }
        i = i + 1;
    }
    false
}

impl PointPicker {
    /// A picker for `count` points, or `None` when the grid has fewer than
    /// `count` points.
    pub fn new(width: u32, height: u32, count: usize) -> (r: Option<PointPicker>)
        ensures
            r is Some <==> count <= width * height,
            r matches Some(pk) ==> pk@.wf() && pk@ == (PointsModel {
                width: width as nat,
                height: height as nat,
                count: count as nat,
                points: Seq::empty(),
            }),
    {
        proof {
            assert(width as int * height as int <= u32::MAX as int * u32::MAX as int)
                by (nonlinear_arith)
                requires width <= u32::MAX, height <= u32::MAX;
        }
        let cells: u64 = width as u64 * height as u64;
        if count as u64 <= cells {
            Some(PointPicker { width, height, count, points: Vec::new() })
        } else {
            None
        }
    }

    /// Takes the point `(x, y)` if it lies on the grid, the picker is not yet
    /// complete and the point is not held already.
    pub fn offer(&mut self, x: u32, y: u32) -> (taken: bool)
        requires
            old(self)@.wf(),
        ensures
            final(self)@.wf(),
            taken == old(self)@.accepts((x, y)),
            final(self)@ == (if taken {
                PointsModel { points: old(self)@.points.push((x, y)), ..old(self)@ }
            } else {
                old(self)@
            }),
    {
        if x < self.width && y < self.height && self.points.len() < self.count
            && !holds_point(&self.points, (x, y)) {
            let ghost prev = self.points@;
            self.points.push((x, y));
            proof {
                assert forall|i: int, j: int| 0 <= i < self.points@.len() && 0 <= j
                    < self.points@.len() && i != j implies self.points@[i] != self.points@[j] by {
                    if i < prev.len() && j < prev.len() {
                        assert(prev[i] != prev[j]);
                    } else if i < prev.len() {
                        assert(prev.contains(prev[i]));
                    } else {
                        assert(prev.contains(prev[j]));
                    }
                }
                assert forall|k: int| 0 <= k < self.points@.len() implies self@.in_bounds(
                    #[trigger] self.points@[k]) by {
                    if k < prev.len() {
                        assert(prev[k] == self.points@[k]);
                    }
                }
            }
            true
        } else {
            false
        }
    }

    /// Draws one uniform candidate and offers it. A candidate already held is
    /// turned away.
    pub fn draw_one(&mut self, rng: &mut rand::rngs::ThreadRng) -> (taken: bool)
        requires
            old(self)@.wf(),
            !old(self)@.is_complete(),
        ensures
            final(self)@.wf(),
            exists|p: (u32, u32)| #[trigger] old(self)@.in_bounds(p)
                && taken == !old(self)@.points.contains(p)
                && final(self)@ == (if taken {
                    PointsModel { points: old(self)@.points.push(p), ..old(self)@ }
                } else {
                    old(self)@
                }),
    {
        proof {
            let w = self.width as int;
            let h = self.height as int;
            assert(w > 0 && h > 0) by (nonlinear_arith)
                requires self@.points.len() < self@.count, self@.count <= w * h, w >= 0, h >= 0;
        }
        let x = sample_below(rng, self.width);
        let y = sample_below(rng, self.height);
        let taken = self.offer(x, y);
        proof {
            assert(old(self)@.in_bounds((x, y)));
        }
        taken
    }

    /// Whether `count` points are held.
    pub fn is_complete(&self) -> (b: bool)
        requires
            self@.wf(),
        ensures
            b == self@.is_complete(),
    {
        self.points.len() == self.count
    }

    /// The points held, in the order they were taken.
    pub fn into_points(self) -> (v: Vec<(u32, u32)>)
        ensures
            v@ == self@.points,
    {
        self.points
    }
}

/// The state of a [`ColorPicker`].
pub struct ColorsModel {
    pub count: nat,
    pub colors: Seq<Color>,
}

impl ColorsModel {
    pub open spec fn wf(self) -> bool {
        &&& self.colors.len() <= self.count
        &&& self.count <= COLOR_SPACE
        &&& self.colors.no_duplicates()
        &&& forall|k: int| 0 <= k < self.colors.len() ==> (#[trigger] self.colors[k]).a == 255
    }

    pub open spec fn is_complete(self) -> bool {
        self.colors.len() == self.count
    }

    /// Whether `c` is taken when offered.
    pub open spec fn accepts(self, c: Color) -> bool {
        c.a == 255 && !self.is_complete() && !self.colors.contains(c)
    }
}

/// Collects a given number of distinct opaque colours, turning away every
/// candidate already held.
pub struct ColorPicker {
    count: usize,
    colors: Vec<Color>,
}

impl View for ColorPicker {
    type V = ColorsModel;

    closed spec fn view(&self) -> ColorsModel {
        ColorsModel { count: self.count as nat, colors: self.colors@ }
    }
}

fn holds_color(v: &Vec<Color>, c: Color) -> (r: bool)
    ensures
        r == v@.contains(c),
{
    let mut i: usize = 0;
    while i < v.len()
        invariant
            i <= v@.len(),
            forall|k: int| 0 <= k < i ==> v@[k] != c,
        decreases v@.len() - i,
    {
        if v[i] == c {
            proof {
                assert(v@[i as int] == c);
            }
            return true;
        }
        i = i + 1;
    }
    false
}

impl ColorPicker {
    /// A picker for `count` colours, or `None` when there are fewer than
    /// `count` opaque colours.
    pub fn new(count: usize) -> (r: Option<ColorPicker>)
        ensures
            r is Some <==> count <= COLOR_SPACE,
            r matches Some(pk) ==> pk@.wf() && pk@ == (ColorsModel {
                count: count as nat,
                colors: Seq::empty(),
            }),
    {
        if count as u64 <= COLOR_SPACE {
            Some(ColorPicker { count, colors: Vec::new() })
        } else {
            None
        }
    }

    /// Takes the opaque colour `(r, g, b)` if the picker is not yet complete
    /// and the colour is not held already.
    pub fn offer(&mut self, r: u8, g: u8, b: u8) -> (taken: bool)
        requires
            old(self)@.wf(),
        ensures
            final(self)@.wf(),
            taken == old(self)@.accepts(Color { r, g, b, a: 255 }),
            final(self)@ == (if taken {
                ColorsModel { colors: old(self)@.colors.push(Color { r, g, b, a: 255 }), ..old(self)@ }
            } else {
                old(self)@
            }),
    {
        let c = Color::opaque(r, g, b);
        if self.colors.len() < self.count && !holds_color(&self.colors, c) {
            let ghost prev = self.colors@;
            self.colors.push(c);
            proof {
                assert forall|i: int, j: int| 0 <= i < self.colors@.len() && 0 <= j
                    < self.colors@.len() && i != j implies self.colors@[i] != self.colors@[j] by {
                    if i < prev.len() && j < prev.len() {
                        assert(prev[i] != prev[j]);
                    } else if i < prev.len() {
                        assert(prev.contains(prev[i]));
                    } else {
                        assert(prev.contains(prev[j]));
                    }
                }
                assert forall|k: int| 0 <= k < self.colors@.len() implies (
                #[trigger] self.colors@[k]).a == 255 by {
                    if k < prev.len() {
                        assert(prev[k] == self.colors@[k]);
                    }
                }
            }
            true
        } else {
            false
        }
    }

    /// Draws one uniform candidate and offers it. A candidate already held is
    /// turned away.
    pub fn draw_one(&mut self, rng: &mut rand::rngs::ThreadRng) -> (taken: bool)
        requires
            old(self)@.wf(),
            !old(self)@.is_complete(),
        ensures
            final(self)@.wf(),
            exists|c: Color| #![trigger old(self)@.colors.contains(c)] c.a == 255
                && taken == !old(self)@.colors.contains(c)
                && final(self)@ == (if taken {
                    ColorsModel { colors: old(self)@.colors.push(c), ..old(self)@ }
                } else {
                    old(self)@
                }),
    {
        let r = sample_byte(rng);
        let g = sample_byte(rng);
        let b = sample_byte(rng);
        let taken = self.offer(r, g, b);
        proof {
            let c = Color { r, g, b, a: 255 };
            assert(taken == !old(self)@.colors.contains(c));
        }
        taken
    }

    /// Whether `count` colours are held.
    pub fn is_complete(&self) -> (b: bool)
        requires
            self@.wf(),
        ensures
            b == self@.is_complete(),
    {
        self.colors.len() == self.count
    }

    /// The colours held, in the order they were taken.
    pub fn into_colors(self) -> (v: Vec<Color>)
        ensures
            v@ == self@.colors,
    {
        self.colors
    }
}

} // verus!
