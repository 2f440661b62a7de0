//! Progressive sample accumulation: one running radiance sum and one sample
//! count per pixel.  Each frame traces one sample per pixel and adds it in;
//! the display value is the running average; a camera move atomically
//! resets the buffer and the count before the next frame.

use vstd::prelude::*;

verus! {

use crate::fixed::{ONE, RAD_CAP, div_fx, fx_div};
use crate::vector::{Vec3, Colour, nonneg, bounded};
use crate::object::{Object, wf_scene};
use crate::camera::{Camera, wf_camera, DIM_MAX, translate_spec, cam_position, cam_looking,
    cam_side, cam_up};
use crate::trace::{trace, rad_ok};
use crate::rng::Rng;

/// Saturation bound for per-channel radiance sums.
pub const SUM_CAP: i64 = 0x4000_0000_0000;

/// Largest accepted sample count (so that `count * ONE` stays exact).
pub const SAMPLES_CAP: u64 = 0x10_0000_0000;

/// Saturating addition of a radiance channel into a sum channel.
pub open spec fn sat_add(a: int, b: int) -> int {
    if a + b > SUM_CAP {
        SUM_CAP as int
    } else {
        a + b
    }
}

/// Saturating per-channel addition of a sample into a pixel sum.
pub open spec fn sat_add3(a: Colour, c: Colour) -> Colour {
    Vec3 {
        x: sat_add(a.x as int, c.x as int) as i64,
        y: sat_add(a.y as int, c.y as int) as i64,
        z: sat_add(a.z as int, c.z as int) as i64,
    }
}

/// Pixel `i` of `post` is `pre[i]` plus one radiance sample, saturating.
pub open spec fn frame_added(pre: Seq<Colour>, post: Seq<Colour>, i: int) -> bool {
    exists|c: Colour| rad_ok(c) && post[i] == #[trigger] sat_add3(pre[i], c)
}

/// `s` is an `n`-fold saturating accumulation of radiance samples, starting
/// from black.
pub open spec fn summed(n: nat, s: Colour) -> bool
    decreases n,
{
    if n == 0 {
        s == crate::trace::black()
    } else {
        exists|prev: Colour, c: Colour|
            summed((n - 1) as nat, prev) && rad_ok(c) && s == #[trigger] sat_add3(prev, c)
    }
}

/// The displayed average of an accumulated pixel sum over `n` samples.
pub open spec fn pixel_avg(s: Colour, n: int) -> Colour {
    Vec3 {
        x: div_fx(s.x as int, n * ONE as int) as i64,
        y: div_fx(s.y as int, n * ONE as int) as i64,
        z: div_fx(s.z as int, n * ONE as int) as i64,
    }
}

/// The pixel value is the average of some `n`-fold accumulated sum.
pub open spec fn avg_of_summed(p: Colour, n: nat) -> bool {
    exists|s2: Colour| summed(n, s2) && p == #[trigger] pixel_avg(s2, n as int)
}

/// A pixel sum: nonnegative and within the saturation bound.
pub open spec fn sum_ok(c: Colour) -> bool {
    nonneg(c) && bounded(c, SUM_CAP as int)
}

fn add_sat(a: i64, b: i64) -> (r: i64)
    requires
        0 <= a <= SUM_CAP,
        0 <= b <= RAD_CAP,
    ensures
        r == sat_add(a as int, b as int),
        0 <= r <= SUM_CAP,
{
    if a > SUM_CAP - b {
        SUM_CAP
    } else {
        a + b
    }
}

/// The per-pixel accumulation state of a progressive render.
pub struct Accumulator {
    pub width: usize,
    pub height: usize,
    pub sum: Vec<Colour>,
    pub samples: u64,
}

pub open spec fn wf_accum(a: Accumulator) -> bool {
    &&& 1 <= a.width <= DIM_MAX
    &&& 1 <= a.height <= DIM_MAX
    &&& a.sum@.len() == a.width * a.height
    &&& a.samples <= SAMPLES_CAP
    &&& forall|i: int| 0 <= i < a.sum@.len() ==> sum_ok(#[trigger] a.sum@[i])
}

impl Accumulator {
    /// A fresh accumulator: all sums zero, no samples taken.
    pub fn new(width: usize, height: usize) -> (r: Accumulator)
        requires
            1 <= width <= DIM_MAX,
            1 <= height <= DIM_MAX,
        ensures
            r.width == width,
            r.height == height,
            r.samples == 0,
            wf_accum(r),
            forall|i: int| 0 <= i < r.sum@.len() ==> #[trigger] r.sum@[i] == crate::trace::black(),
    {
        proof {
            assert(width * height <= 0x100_0000) by (nonlinear_arith)
                requires 1 <= width <= 4096 && 1 <= height <= 4096;
        }
        let n = width * height;
        let mut sum: Vec<Colour> = Vec::new();
        let mut i: usize = 0;
        while i < n
            invariant
                0 <= i <= n,
                sum@.len() == i,
                forall|j: int| 0 <= j < i ==> #[trigger] sum@[j] == crate::trace::black(),
            decreases n - i,
        {
            sum.push(Vec3::zero());
            i = i + 1;
        }
        Accumulator { width, height, sum, samples: 0 }
    }

    /// Resets the running sums and the sample count to zero.
    pub fn reset(&mut self)
        requires
            wf_accum(*old(self)),
        ensures
            wf_accum(*final(self)),
            final(self).width == old(self).width,
            final(self).height == old(self).height,
            final(self).samples == 0,
            forall|i: int|
                0 <= i < final(self).sum@.len() ==> #[trigger] final(self).sum@[i]
                    == crate::trace::black(),
    {
        proof {
            assert(self.width * self.height <= 0x100_0000) by (nonlinear_arith)
                requires 1 <= self.width <= 4096 && 1 <= self.height <= 4096;
        }
        let n = self.width * self.height;
        let mut sum: Vec<Colour> = Vec::new();
        let mut i: usize = 0;
        while i < n
            invariant
                0 <= i <= n,
                sum@.len() == i,
                forall|j: int| 0 <= j < i ==> #[trigger] sum@[j] == crate::trace::black(),
            decreases n - i,
        {
            sum.push(Vec3::zero());
            i = i + 1;
        }
        self.sum = sum;
        self.samples = 0;
    }

    /// Traces one sample per pixel and adds it into the running sums; the
    /// sample count grows by one (both saturate rather than overflow).
    pub fn add_frame(
        &mut self,
        scene: &Vec<Object>,
        camera: &Camera,
        depth: usize,
        rng: &mut Rng,
    )
        requires
            wf_accum(*old(self)),
            wf_scene(scene@),
            wf_camera(*camera),
        ensures
            wf_accum(*final(self)),
            final(self).width == old(self).width,
            final(self).height == old(self).height,
            final(self).samples as int == if old(self).samples < SAMPLES_CAP {
                old(self).samples as int + 1
            } else {
                old(self).samples as int
            },
            final(self).sum@.len() == old(self).sum@.len(),
            forall|i: int|
                0 <= i < final(self).sum@.len() ==> #[trigger] frame_added(
                    old(self).sum@,
                    final(self).sum@,
                    i,
                ),
    {
        let width = self.width;
        let height = self.height;
        proof {
            assert(width * height <= 0x100_0000) by (nonlinear_arith)
                requires 1 <= width <= 4096 && 1 <= height <= 4096;
        }
        let n = width * height;
        let mut fresh: Vec<Colour> = Vec::new();
        let mut i: usize = 0;
        while i < n
            invariant
                0 <= i <= n,
                n == width * height,
                1 <= width <= DIM_MAX,
                1 <= height <= DIM_MAX,
                self.sum@.len() == n,
                wf_scene(scene@),
                wf_camera(*camera),
                fresh@.len() == i,
                forall|j: int| 0 <= j < self.sum@.len() ==> sum_ok(#[trigger] self.sum@[j]),
                forall|j: int| 0 <= j < i ==> #[trigger] frame_added(self.sum@, fresh@, j),
                forall|j: int| 0 <= j < i ==> sum_ok(#[trigger] fresh@[j]),
            decreases n - i,
        {
            let x = i % width;
            let y = i / width;
            proof {
                vstd::arithmetic::div_mod::lemma_mod_bound(i as int, width as int);
                vstd::arithmetic::div_mod::lemma_fundamental_div_mod(i as int, width as int);
                assert(i / width < height) by (nonlinear_arith)
                    requires
                        0 <= i < width * height,
                        0 < width,
                        i == width * (i / width) + (i % width),
                        0 <= i % width < width,
                ;
            }
            let ray = camera.generate_ray(x, y, width, height, rng);
            let c = trace(scene, ray, depth, rng);
            let prev = self.sum[i];
            let nv = Vec3::new(
                add_sat(prev.x, c.x),
                add_sat(prev.y, c.y),
                add_sat(prev.z, c.z),
            );
            let ghost pre_fresh = fresh@;
            fresh.push(nv);
            proof {
                assert(fresh@[i as int] == sat_add3(self.sum@[i as int], c));
                assert(frame_added(self.sum@, fresh@, i as int));
                assert forall|j: int| 0 <= j < i implies #[trigger] frame_added(
                    self.sum@,
                    fresh@,
                    j,
                ) by {
                    assert(frame_added(self.sum@, pre_fresh, j));
                    let cw = choose|cw: Colour|
                        rad_ok(cw) && pre_fresh[j] == #[trigger] sat_add3(self.sum@[j], cw);
                    assert(fresh@[j] == pre_fresh[j]);
                    assert(fresh@[j] == sat_add3(self.sum@[j], cw));
                }
            }
            i = i + 1;
        }
        self.sum = fresh;
        if self.samples < SAMPLES_CAP {
            self.samples = self.samples + 1;
        }
    }

    /// The running average of one pixel: the sum divided by the count.
    pub fn average(&self, x: usize, y: usize) -> (r: Colour)
        requires
            wf_accum(*self),
            x < self.width,
            y < self.height,
            1 <= self.samples,
        ensures
            ({
                let s = self.sum@[x + y * self.width];
                &&& r.x == div_fx(s.x as int, self.samples * ONE as int)
                &&& r.y == div_fx(s.y as int, self.samples * ONE as int)
                &&& r.z == div_fx(s.z as int, self.samples * ONE as int)
            }),
    {
        proof {
            assert(x + y * self.width < self.width * self.height) by (nonlinear_arith)
                requires
                    0 <= x < self.width,
                    0 <= y < self.height,
            ;
            assert(self.width * self.height <= 0x100_0000) by (nonlinear_arith)
                requires 1 <= self.width <= 4096 && 1 <= self.height <= 4096;
            assert(1 * 65536 <= self.samples * (ONE as int) <= 0x10_0000_0000 * 65536)
                by (nonlinear_arith)
                requires
                    1u64 <= self.samples <= 0x10_0000_0000u64,
                    (ONE as int) == 65536,
            ;
        }
        let s = self.sum[x + y * self.width];
        let d = (self.samples as i64) * ONE;
        Vec3::new(fx_div(s.x, d), fx_div(s.y, d), fx_div(s.z, d))
    }

    /// A camera-move event: moves the camera and atomically resets the
    /// accumulation, so that a stale average is never displayed post-move.
    pub fn camera_moved(&mut self, camera: &mut Camera, direction: Vec3)
        requires
            wf_accum(*old(self)),
            wf_camera(*old(camera)),
            bounded(direction, 0x100_0000),
        ensures
            wf_accum(*final(self)),
            wf_camera(*final(camera)),
            final(self).width == old(self).width,
            final(self).height == old(self).height,
            final(self).samples == 0,
            forall|i: int|
                0 <= i < final(self).sum@.len() ==> #[trigger] final(self).sum@[i]
                    == crate::trace::black(),
            cam_position(*final(camera)) == translate_spec(
                cam_position(*old(camera)),
                direction,
                cam_looking(*old(camera)),
                cam_side(*old(camera)),
                cam_up(*old(camera)),
            ),
    {
        camera.translate(direction);
        self.reset();
    }
}

/// Renders a full image: every pixel is the saturating sum of exactly
/// `samples` traced radiance values, divided by the sample count.
pub fn render(
    scene: &Vec<Object>,
    camera: &Camera,
    width: usize,
    height: usize,
    samples: usize,
    depth: usize,
    rng: &mut Rng,
) -> (r: Vec<Colour>)
    requires
        wf_scene(scene@),
        wf_camera(*camera),
        1 <= width <= DIM_MAX,
        1 <= height <= DIM_MAX,
        1 <= samples <= 0x1000,
    ensures
        r@.len() == width * height,
        forall|i: int| 0 <= i < r@.len() ==> nonneg(#[trigger] r@[i]),
        forall|i: int| 0 <= i < r@.len() ==> avg_of_summed(#[trigger] r@[i], samples as nat),
{
    let mut acc = Accumulator::new(width, height);
    let mut s: usize = 0;
    while s < samples
        invariant
            0 <= s <= samples,
            samples <= 0x1000,
            wf_accum(acc),
            acc.width == width,
            acc.height == height,
            1 <= width <= DIM_MAX,
            1 <= height <= DIM_MAX,
            wf_scene(scene@),
            wf_camera(*camera),
            acc.samples == s,
            forall|i: int| 0 <= i < acc.sum@.len() ==> summed(s as nat, #[trigger] acc.sum@[i]),
        decreases samples - s,
    {
        let ghost prev_sums = acc.sum@;
        acc.add_frame(scene, camera, depth, rng);
        proof {
            assert forall|i: int|
                0 <= i < acc.sum@.len() implies summed(
                (s + 1) as nat,
                #[trigger] acc.sum@[i],
            ) by {
                assert(frame_added(prev_sums, acc.sum@, i));
                let c = choose|c: Colour|
                    rad_ok(c) && acc.sum@[i] == #[trigger] sat_add3(prev_sums[i], c);
                assert(summed(s as nat, prev_sums[i]));
                assert(acc.sum@[i] == sat_add3(prev_sums[i], c));
            }
        }
        s = s + 1;
    }
    let mut out: Vec<Colour> = Vec::new();
    let mut y: usize = 0;
    while y < height
        invariant
            0 <= y <= height,
            out@.len() == y * width,
            wf_accum(acc),
            acc.width == width,
            acc.height == height,
            acc.samples == samples,
            1 <= samples,
            1 <= width <= DIM_MAX,
            1 <= height <= DIM_MAX,
            forall|i: int| 0 <= i < acc.sum@.len() ==> summed(samples as nat, #[trigger] acc.sum@[i]),
            forall|i: int| 0 <= i < out@.len() ==> nonneg(#[trigger] out@[i]),
            forall|i: int| 0 <= i < out@.len() ==> avg_of_summed(#[trigger] out@[i], samples as nat),
        decreases height - y,
    {
        let mut x: usize = 0;
        while x < width
            invariant
                0 <= x <= width,
                0 <= y < height,
                out@.len() == y * width + x,
                wf_accum(acc),
                acc.width == width,
                acc.height == height,
                acc.samples == samples,
                1 <= samples,
                1 <= width <= DIM_MAX,
                1 <= height <= DIM_MAX,
                forall|i: int|
                    0 <= i < acc.sum@.len() ==> summed(samples as nat, #[trigger] acc.sum@[i]),
                forall|i: int| 0 <= i < out@.len() ==> nonneg(#[trigger] out@[i]),
                forall|i: int|
                    0 <= i < out@.len() ==> avg_of_summed(#[trigger] out@[i], samples as nat),
            decreases width - x,
        {
            proof {
                assert(x + y * width < width * height) by (nonlinear_arith)
                    requires
                        0 <= x < width,
                        0 <= y < height,
                ;
            }
            let c = acc.average(x, y);
            proof {
                lemma_avg_nonneg(acc.sum@[x + y * width], acc.samples as int);
                assert(c == pixel_avg(acc.sum@[x + y * width], samples as int));
                assert(summed(samples as nat, acc.sum@[x + y * width]));
                assert(avg_of_summed(c, samples as nat));
            }
            out.push(c);
            x = x + 1;
        }
        proof {
            assert((y + 1) * width == y * width + width) by (nonlinear_arith);
        }
        y = y + 1;
    }
    proof {
        assert(height * width == width * height) by (nonlinear_arith);
    }
    out
}

/// The average of a nonnegative sum is nonnegative.
proof fn lemma_avg_nonneg(s: Colour, samples: int)
    requires
        nonneg(s),
        1 <= samples,
    ensures
        div_fx(s.x as int, samples * ONE as int) >= 0,
        div_fx(s.y as int, samples * ONE as int) >= 0,
        div_fx(s.z as int, samples * ONE as int) >= 0,
{
    assert(samples * (ONE as int) >= 1) by (nonlinear_arith)
        requires samples >= 1 && (ONE as int) == 65536;
    let d = samples * ONE as int;
    assert(s.x * ONE as int >= 0) by (nonlinear_arith)
        requires s.x >= 0 && (ONE as int) >= 0;
    assert(s.y * ONE as int >= 0) by (nonlinear_arith)
        requires s.y >= 0 && (ONE as int) >= 0;
    assert(s.z * ONE as int >= 0) by (nonlinear_arith)
        requires s.z >= 0 && (ONE as int) >= 0;
    assert(d >= 1);
    vstd::arithmetic::div_mod::lemma_div_pos_is_pos(s.x * ONE as int, d);
    vstd::arithmetic::div_mod::lemma_div_pos_is_pos(s.y * ONE as int, d);
    vstd::arithmetic::div_mod::lemma_div_pos_is_pos(s.z * ONE as int, d);
}

} // verus!
