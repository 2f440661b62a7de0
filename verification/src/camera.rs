//! Cameras: orthonormal basis construction from a look direction and a
//! world up, and pixel-to-ray mapping, with optional antialiasing jitter
//! and thin-lens depth of field.
//!
//! A camera holds its position, the basis (looking, side, up) and the
//! tangent of half the horizontal field of view.  `translate` moves the
//! position by an offset expressed in the camera's own basis and is exact;
//! ray generation is exact for the pinhole camera and stated up to the
//! drawn jitter for the stochastic ones.

use vstd::prelude::*;

verus! {

use crate::fixed::{
    ONE, in_range, mul_fx, div_fx, fx_mul, fx_div, lemma_mul_fx_bound, lemma_div_fx_bound, abs_i,
};
use crate::vector::{
    Vec3, Ray, bounded, dot3, cross, unitv, NSQ_MIN, lemma_cross_bound,
};
use crate::shape::{wf_ray, vcross};
use crate::sample::sample_circle;
use crate::rng::Rng;

/// Magnitude bound for camera positions (1024.0).
pub const CAM_RANGE: i64 = 0x400_0000;

/// Largest accepted half-field-of-view tangent (4.0).
pub const TAN_MAX: i64 = 0x4_0000;

/// Largest accepted image dimension.
pub const DIM_MAX: usize = 4096;

/// Largest accepted aperture radius (16.0).
pub const APERTURE_MAX: i64 = 0x10_0000;

/// From the look direction and the global up, the side and local up vectors
/// of a right-handed orthonormal frame.
pub open spec fn side_spec(looking: Vec3, global_up: Vec3) -> Vec3 {
    unitv(vcross(global_up, looking))
}

pub open spec fn up_spec(looking: Vec3, global_up: Vec3) -> Vec3 {
    vcross(looking, side_spec(looking, global_up))
}

/// The look direction must not be (nearly) parallel to the global up.
pub open spec fn frame_ok(looking: Vec3, global_up: Vec3) -> bool {
    dot3(vcross(global_up, looking), vcross(global_up, looking)) >= NSQ_MIN as int
}

/// From `looking` and the global up, the pair (side, up).
fn directions(looking: Vec3, global_up: Vec3) -> (r: (Vec3, Vec3))
    requires
        bounded(looking, 2 * ONE as int),
        bounded(global_up, 2 * ONE as int),
        frame_ok(looking, global_up),
    ensures
        r.0 == side_spec(looking, global_up),
        r.1 == up_spec(looking, global_up),
        bounded(r.0, 2 * ONE as int),
        bounded(r.1, 8 * ONE as int),
{
    let c = cross(global_up, looking);
    proof {
        lemma_cross_bound(global_up, looking, 131072, 131072);
    }
    let side = c.normalise();
    let up = cross(looking, side);
    proof {
        lemma_cross_bound(looking, side, 131072, 131072);
    }
    (side, up)
}

/// A camera's state is well formed: position within the world, basis
/// vectors near unit length, tangent in range.
pub open spec fn frame_wf(tan_half_fov: i64, position: Vec3, looking: Vec3, side: Vec3, up: Vec3)
    -> bool {
    &&& 0 <= tan_half_fov <= TAN_MAX
    &&& bounded(position, CAM_RANGE as int)
    &&& bounded(looking, 2 * ONE as int)
    &&& bounded(side, 2 * ONE as int)
    &&& bounded(up, 8 * ONE as int)
}

/// The unnormalised ray direction through image-plane offsets `xbar` and
/// `ybar` (in raw units): `width looking + tan (xbar side + ybar up)`.
pub open spec fn cam_dir0(
    tan_half_fov: i64,
    looking: Vec3,
    side: Vec3,
    up: Vec3,
    wfx: int,
    xbar: int,
    ybar: int,
) -> Vec3 {
    Vec3 {
        x: (mul_fx(wfx, looking.x as int) + mul_fx(
            tan_half_fov as int,
            mul_fx(xbar, side.x as int) + mul_fx(ybar, up.x as int),
        )) as i64,
        y: (mul_fx(wfx, looking.y as int) + mul_fx(
            tan_half_fov as int,
            mul_fx(xbar, side.y as int) + mul_fx(ybar, up.y as int),
        )) as i64,
        z: (mul_fx(wfx, looking.z as int) + mul_fx(
            tan_half_fov as int,
            mul_fx(xbar, side.z as int) + mul_fx(ybar, up.z as int),
        )) as i64,
    }
}

/// The generated ray direction: the unit vector along `cam_dir0`, or the
/// look direction itself if the image-plane vector degenerates.
pub open spec fn cam_dir(
    tan_half_fov: i64,
    looking: Vec3,
    side: Vec3,
    up: Vec3,
    wfx: int,
    xbar: int,
    ybar: int,
) -> Vec3 {
    let d0 = cam_dir0(tan_half_fov, looking, side, up, wfx, xbar, ybar);
    if dot3(d0, d0) >= NSQ_MIN as int {
        unitv(d0)
    } else {
        looking
    }
}

/// The shared pixel-to-direction computation.
fn gen_dir(tan_half_fov: i64, looking: Vec3, side: Vec3, up: Vec3, wfx: i64, xbar: i64, ybar: i64)
    -> (r: Vec3)
    requires
        0 <= tan_half_fov <= TAN_MAX,
        bounded(looking, 2 * ONE as int),
        bounded(side, 2 * ONE as int),
        bounded(up, 8 * ONE as int),
        0 <= wfx <= 0x1000_0000,
        in_range(xbar as int, 0x1000_0000),
        in_range(ybar as int, 0x1000_0000),
    ensures
        r == cam_dir(tan_half_fov, looking, side, up, wfx as int, xbar as int, ybar as int),
        bounded(r, 2 * ONE as int) || r == looking,
{
    proof {
        lemma_mul_fx_bound(wfx as int, looking.x as int, 0x1000_0000, 131072);
        lemma_mul_fx_bound(wfx as int, looking.y as int, 0x1000_0000, 131072);
        lemma_mul_fx_bound(wfx as int, looking.z as int, 0x1000_0000, 131072);
        lemma_mul_fx_bound(xbar as int, side.x as int, 0x1000_0000, 131072);
        lemma_mul_fx_bound(xbar as int, side.y as int, 0x1000_0000, 131072);
        lemma_mul_fx_bound(xbar as int, side.z as int, 0x1000_0000, 131072);
        lemma_mul_fx_bound(ybar as int, up.x as int, 0x1000_0000, 524288);
        lemma_mul_fx_bound(ybar as int, up.y as int, 0x1000_0000, 524288);
        lemma_mul_fx_bound(ybar as int, up.z as int, 0x1000_0000, 524288);
    }
    let base = looking.scale(wfx);
    let sx = side.scale(xbar);
    let uy = up.scale(ybar);
    let plane = sx.add(uy);
    proof {
        lemma_mul_fx_bound(tan_half_fov as int, plane.x as int, 0x4_0000, 0x1_0000_0000);
        lemma_mul_fx_bound(tan_half_fov as int, plane.y as int, 0x4_0000, 0x1_0000_0000);
        lemma_mul_fx_bound(tan_half_fov as int, plane.z as int, 0x4_0000, 0x1_0000_0000);
    }
    let d0 = base.add(plane.scale(tan_half_fov));
    let ns = d0.norm_squared();
    if ns >= NSQ_MIN {
        d0.normalise()
    } else {
        // Degenerate image-plane vector: fall back to the look direction.
        looking
    }
}

/// The jittered pinhole direction for pixel (x, y) with in-pixel jitter
/// (jx, jy); a named form so that contracts can quantify over the jitter.
pub open spec fn aa_dir(
    tan_half_fov: i64,
    looking: Vec3,
    side: Vec3,
    up: Vec3,
    width: int,
    height: int,
    x: int,
    y: int,
    jx: int,
    jy: int,
) -> Vec3 {
    cam_dir(
        tan_half_fov,
        looking,
        side,
        up,
        width * ONE as int,
        width * ONE as int - 2 * (x * ONE as int + jx),
        height * ONE as int - 2 * (y * ONE as int + jy),
    )
}

/// The position offset of `translate`: the offset's components reinterpreted
/// in the camera's own (looking, side, up) basis.
pub open spec fn cam_offset(d: Vec3, looking: Vec3, side: Vec3, up: Vec3) -> Vec3 {
    Vec3 {
        x: (mul_fx(d.x as int, looking.x as int) + mul_fx(d.y as int, side.x as int) + mul_fx(
            d.z as int,
            up.x as int,
        )) as i64,
        y: (mul_fx(d.x as int, looking.y as int) + mul_fx(d.y as int, side.y as int) + mul_fx(
            d.z as int,
            up.y as int,
        )) as i64,
        z: (mul_fx(d.x as int, looking.z as int) + mul_fx(d.y as int, side.z as int) + mul_fx(
            d.z as int,
            up.z as int,
        )) as i64,
    }
}

/// The translated position: moved by the basis offset when the result stays
/// within the camera's world bound, else left unchanged.
pub open spec fn translate_spec(position: Vec3, d: Vec3, looking: Vec3, side: Vec3, up: Vec3)
    -> Vec3 {
    let o = cam_offset(d, looking, side, up);
    let p = Vec3 {
        x: (position.x + o.x) as i64,
        y: (position.y + o.y) as i64,
        z: (position.z + o.z) as i64,
    };
    if bounded(p, CAM_RANGE as int) {
        p
    } else {
        position
    }
}

/// The shared translation computation.
fn do_translate(position: Vec3, d: Vec3, looking: Vec3, side: Vec3, up: Vec3) -> (r: Vec3)
    requires
        bounded(position, CAM_RANGE as int),
        bounded(d, 0x100_0000),
        bounded(looking, 2 * ONE as int),
        bounded(side, 2 * ONE as int),
        bounded(up, 8 * ONE as int),
    ensures
        r == translate_spec(position, d, looking, side, up),
        bounded(r, CAM_RANGE as int),
{
    proof {
        lemma_mul_fx_bound(d.x as int, looking.x as int, 0x100_0000, 131072);
        lemma_mul_fx_bound(d.x as int, looking.y as int, 0x100_0000, 131072);
        lemma_mul_fx_bound(d.x as int, looking.z as int, 0x100_0000, 131072);
        lemma_mul_fx_bound(d.y as int, side.x as int, 0x100_0000, 131072);
        lemma_mul_fx_bound(d.y as int, side.y as int, 0x100_0000, 131072);
        lemma_mul_fx_bound(d.y as int, side.z as int, 0x100_0000, 131072);
        lemma_mul_fx_bound(d.z as int, up.x as int, 0x100_0000, 524288);
        lemma_mul_fx_bound(d.z as int, up.y as int, 0x100_0000, 524288);
        lemma_mul_fx_bound(d.z as int, up.z as int, 0x100_0000, 524288);
    }
    let o = looking.scale(d.x).add(side.scale(d.y)).add(up.scale(d.z));
    let p = position.add(o);
    if -CAM_RANGE <= p.x && p.x <= CAM_RANGE && -CAM_RANGE <= p.y && p.y <= CAM_RANGE
        && -CAM_RANGE <= p.z && p.z <= CAM_RANGE {
        p
    } else {
        // The move would leave the finite world: stay put.
        position
    }
}

/// A pinhole camera without antialiasing; the field of view is horizontal,
/// held as the tangent of its half angle.
pub struct SimpleCamera {
    pub tan_half_fov: i64,
    pub position: Vec3,
    pub looking: Vec3,
    pub side: Vec3,
    pub up: Vec3,
}

pub open spec fn wf_simple_camera(c: SimpleCamera) -> bool {
    frame_wf(c.tan_half_fov, c.position, c.looking, c.side, c.up)
}

impl SimpleCamera {
    pub fn new(tan_half_fov: i64, position: Vec3, looking: Vec3, global_up: Vec3) -> (r:
        SimpleCamera)
        requires
            0 <= tan_half_fov <= TAN_MAX,
            bounded(position, CAM_RANGE as int),
            bounded(looking, 2 * ONE as int),
            bounded(global_up, 2 * ONE as int),
            frame_ok(looking, global_up),
        ensures
            r.tan_half_fov == tan_half_fov,
            r.position == position,
            r.looking == looking,
            r.side == side_spec(looking, global_up),
            r.up == up_spec(looking, global_up),
            wf_simple_camera(r),
    {
        let (side, up) = directions(looking, global_up);
        SimpleCamera { tan_half_fov, position, looking, side, up }
    }

    /// The ray through pixel (x, y): origin at the camera, direction the
    /// unit vector along `width looking + tan ((width-2x) side + (height-2y) up)`.
    pub fn generate_ray(&self, x: usize, y: usize, width: usize, height: usize) -> (r: Ray)
        requires
            wf_simple_camera(*self),
            x < width <= DIM_MAX,
            y < height <= DIM_MAX,
        ensures
            r.origin == self.position,
            r.direction == cam_dir(
                self.tan_half_fov,
                self.looking,
                self.side,
                self.up,
                width as int * ONE as int,
                (width - 2 * x as int) * ONE as int,
                (height - 2 * y as int) * ONE as int,
            ),
            wf_ray(r),
    {
        let wfx = (width as i64) * ONE;
        let xbar = ((width as i64) - 2 * (x as i64)) * ONE;
        let ybar = ((height as i64) - 2 * (y as i64)) * ONE;
        let direction = gen_dir(self.tan_half_fov, self.looking, self.side, self.up, wfx, xbar, ybar);
        Ray { origin: self.position, direction }
    }

    /// Moves the camera by an offset expressed in its own basis.
    pub fn translate(&mut self, direction: Vec3)
        requires
            wf_simple_camera(*old(self)),
            bounded(direction, 0x100_0000),
        ensures
            final(self).position == translate_spec(
                old(self).position,
                direction,
                old(self).looking,
                old(self).side,
                old(self).up,
            ),
            final(self).looking == old(self).looking,
            final(self).side == old(self).side,
            final(self).up == old(self).up,
            final(self).tan_half_fov == old(self).tan_half_fov,
            wf_simple_camera(*final(self)),
    {
        self.position = do_translate(self.position, direction, self.looking, self.side, self.up);
    }
}

/// A pinhole camera with per-call antialiasing jitter.
pub struct SimpleAACamera {
    pub tan_half_fov: i64,
    pub position: Vec3,
    pub looking: Vec3,
    pub side: Vec3,
    pub up: Vec3,
}

pub open spec fn wf_aa_camera(c: SimpleAACamera) -> bool {
    frame_wf(c.tan_half_fov, c.position, c.looking, c.side, c.up)
}

impl SimpleAACamera {
    pub fn new(tan_half_fov: i64, position: Vec3, looking: Vec3, global_up: Vec3) -> (r:
        SimpleAACamera)
        requires
            0 <= tan_half_fov <= TAN_MAX,
            bounded(position, CAM_RANGE as int),
            bounded(looking, 2 * ONE as int),
            bounded(global_up, 2 * ONE as int),
            frame_ok(looking, global_up),
        ensures
            r.tan_half_fov == tan_half_fov,
            r.position == position,
            r.looking == looking,
            r.side == side_spec(looking, global_up),
            r.up == up_spec(looking, global_up),
            wf_aa_camera(r),
    {
        let (side, up) = directions(looking, global_up);
        SimpleAACamera { tan_half_fov, position, looking, side, up }
    }

    /// The ray through pixel (x, y), jittered by an independent uniform
    /// offset within the pixel on each call.
    pub fn generate_ray(&self, x: usize, y: usize, width: usize, height: usize, rng: &mut Rng)
        -> (r: Ray)
        requires
            wf_aa_camera(*self),
            x < width <= DIM_MAX,
            y < height <= DIM_MAX,
        ensures
            r.origin == self.position,
            exists|jx: int, jy: int|
                0 <= jx < ONE && 0 <= jy < ONE && r.direction == #[trigger] aa_dir(
                    self.tan_half_fov,
                    self.looking,
                    self.side,
                    self.up,
                    width as int,
                    height as int,
                    x as int,
                    y as int,
                    jx,
                    jy,
                ),
            wf_ray(r),
    {
        let wfx = (width as i64) * ONE;
        let ux = rng.next_unit();
        let uy = rng.next_unit();
        let xbar = wfx - 2 * ((x as i64) * ONE + ux);
        let ybar = (height as i64) * ONE - 2 * ((y as i64) * ONE + uy);
        let direction = gen_dir(self.tan_half_fov, self.looking, self.side, self.up, wfx, xbar, ybar);
        proof {
            assert(direction == aa_dir(
                self.tan_half_fov,
                self.looking,
                self.side,
                self.up,
                width as int,
                height as int,
                x as int,
                y as int,
                ux as int,
                uy as int,
            ));
        }
        Ray { origin: self.position, direction }
    }

    /// Moves the camera by an offset expressed in its own basis.
    pub fn translate(&mut self, direction: Vec3)
        requires
            wf_aa_camera(*old(self)),
            bounded(direction, 0x100_0000),
        ensures
            final(self).position == translate_spec(
                old(self).position,
                direction,
                old(self).looking,
                old(self).side,
                old(self).up,
            ),
            final(self).looking == old(self).looking,
            final(self).side == old(self).side,
            final(self).up == old(self).up,
            final(self).tan_half_fov == old(self).tan_half_fov,
            wf_aa_camera(*final(self)),
    {
        self.position = do_translate(self.position, direction, self.looking, self.side, self.up);
    }
}

/// A camera with antialiasing jitter and thin-lens depth of field.
pub struct DOFCamera {
    pub tan_half_fov: i64,
    pub position: Vec3,
    pub looking: Vec3,
    pub side: Vec3,
    pub up: Vec3,
    pub focal_distance: i64,
    pub aperture: i64,
}

/// The aperture-disk displacement for the unit-circle point `(c, s)` and
/// radial draw `ru`: `aperture sqrt(ru) (c side + s up)`.
pub open spec fn dof_offset(side: Vec3, up: Vec3, aperture: i64, c: int, s: int, ru: int) -> Vec3 {
    let ar = mul_fx(aperture as int, crate::fixed::sqrt_fx(ru));
    Vec3 {
        x: (mul_fx(mul_fx(ar, c), side.x as int) + mul_fx(mul_fx(ar, s), up.x as int)) as i64,
        y: (mul_fx(mul_fx(ar, c), side.y as int) + mul_fx(mul_fx(ar, s), up.y as int)) as i64,
        z: (mul_fx(mul_fx(ar, c), side.z as int) + mul_fx(mul_fx(ar, s), up.z as int)) as i64,
    }
}

/// The displaced thin-lens origin: the camera position plus the disk
/// displacement.
pub open spec fn dof_origin(cam: DOFCamera, c: int, s: int, ru: int) -> Vec3 {
    let o = dof_offset(cam.side, cam.up, cam.aperture, c, s, ru);
    Vec3 {
        x: (cam.position.x + o.x) as i64,
        y: (cam.position.y + o.y) as i64,
        z: (cam.position.z + o.z) as i64,
    }
}

/// The thin-lens direction for pixel (x, y) with jitter (jx, jy) and disk
/// draws (c, s, ru): the image-plane vector scaled to the focal plane,
/// minus the disk displacement, normalised; the look direction if that aim
/// vector degenerates.
pub open spec fn dof_dir(
    cam: DOFCamera,
    width: int,
    height: int,
    x: int,
    y: int,
    jx: int,
    jy: int,
    c: int,
    s: int,
    ru: int,
) -> Vec3 {
    let wfx = width * ONE as int;
    let d0 = cam_dir0(
        cam.tan_half_fov,
        cam.looking,
        cam.side,
        cam.up,
        wfx,
        wfx - 2 * (x * ONE as int + jx),
        height * ONE as int - 2 * (y * ONE as int + jy),
    );
    let fw = div_fx(cam.focal_distance as int, wfx);
    let rp = dof_offset(cam.side, cam.up, cam.aperture, c, s, ru);
    let aim = Vec3 {
        x: (mul_fx(fw, d0.x as int) - rp.x) as i64,
        y: (mul_fx(fw, d0.y as int) - rp.y) as i64,
        z: (mul_fx(fw, d0.z as int) - rp.z) as i64,
    };
    if in_range(aim.x as int, 0x2_0000_0000) && in_range(aim.y as int, 0x2_0000_0000) && in_range(
        aim.z as int,
        0x2_0000_0000,
    ) && dot3(aim, aim) >= NSQ_MIN as int {
        unitv(aim)
    } else {
        cam.looking
    }
}

/// The disk radius term is within the aperture, and the circle-scaled
/// terms within twice it.
proof fn lemma_aperture_scaling(aperture: int, rad: int, c: int, s: int)
    requires
        0 <= aperture,
        0 <= rad <= 65536,
        in_range(c, 131072),
        in_range(s, 131072),
    ensures
        in_range(mul_fx(aperture, rad), aperture),
        in_range(mul_fx(mul_fx(aperture, rad), c), 2 * aperture),
        in_range(mul_fx(mul_fx(aperture, rad), s), 2 * aperture),
{
    lemma_mul_fx_bound(aperture, rad, aperture, 65536);
    vstd::arithmetic::div_mod::lemma_div_by_multiple(aperture, 65536);
    let ar = mul_fx(aperture, rad);
    lemma_mul_fx_bound(ar, c, aperture, 131072);
    lemma_mul_fx_bound(ar, s, aperture, 131072);
    assert(aperture * 131072 == (2 * aperture) * 65536) by (nonlinear_arith);
    vstd::arithmetic::div_mod::lemma_div_by_multiple(2 * aperture, 65536);
}

/// A zero aperture displaces nothing.
proof fn lemma_zero_offset(side: Vec3, up: Vec3, rad: int, c: int, s: int)
    ensures
        dof_offset(side, up, 0i64, c, s, 0) == (Vec3 { x: 0i64, y: 0i64, z: 0i64 }),
        forall|ru: int| #[trigger] dof_offset(side, up, 0i64, c, s, ru) == (Vec3 {
            x: 0i64,
            y: 0i64,
            z: 0i64,
        }),
{
    assert forall|ru: int| #[trigger] dof_offset(side, up, 0i64, c, s, ru) == (Vec3 {
        x: 0i64,
        y: 0i64,
        z: 0i64,
    }) by {
        let sq = crate::fixed::sqrt_fx(ru);
        assert(0int * sq == 0) by (nonlinear_arith);
        vstd::arithmetic::div_mod::lemma_div_of0(65536);
        assert(mul_fx(0, sq) == 0);
        assert(0int * c == 0 && 0int * s == 0) by (nonlinear_arith);
        assert(mul_fx(0, c) == 0 && mul_fx(0, s) == 0);
        assert(0int * side.x == 0 && 0int * side.y == 0 && 0int * side.z == 0)
            by (nonlinear_arith);
        assert(0int * up.x == 0 && 0int * up.y == 0 && 0int * up.z == 0) by (nonlinear_arith);
        assert(mul_fx(0, side.x as int) == 0 && mul_fx(0, side.y as int) == 0 && mul_fx(
            0,
            side.z as int,
        ) == 0);
        assert(mul_fx(0, up.x as int) == 0 && mul_fx(0, up.y as int) == 0 && mul_fx(
            0,
            up.z as int,
        ) == 0);
    }
}

/// Each displacement component is within twenty apertures (the basis
/// vectors are near unit, with slack).
proof fn lemma_offset_within_aperture(side: Vec3, up: Vec3, aperture: int, arc: int, ars: int)
    requires
        0 <= aperture,
        in_range(arc, 2 * aperture),
        in_range(ars, 2 * aperture),
        bounded(side, 131072),
        bounded(up, 524288),
    ensures
        in_range(mul_fx(arc, side.x as int) + mul_fx(ars, up.x as int), 20 * aperture),
        in_range(mul_fx(arc, side.y as int) + mul_fx(ars, up.y as int), 20 * aperture),
        in_range(mul_fx(arc, side.z as int) + mul_fx(ars, up.z as int), 20 * aperture),
{
    lemma_mul_fx_bound(arc, side.x as int, 2 * aperture, 131072);
    lemma_mul_fx_bound(arc, side.y as int, 2 * aperture, 131072);
    lemma_mul_fx_bound(arc, side.z as int, 2 * aperture, 131072);
    lemma_mul_fx_bound(ars, up.x as int, 2 * aperture, 524288);
    lemma_mul_fx_bound(ars, up.y as int, 2 * aperture, 524288);
    lemma_mul_fx_bound(ars, up.z as int, 2 * aperture, 524288);
    assert((2 * aperture) * 131072 == (4 * aperture) * 65536) by (nonlinear_arith);
    assert((2 * aperture) * 524288 == (16 * aperture) * 65536) by (nonlinear_arith);
    vstd::arithmetic::div_mod::lemma_div_by_multiple(4 * aperture, 65536);
    vstd::arithmetic::div_mod::lemma_div_by_multiple(16 * aperture, 65536);
}

pub open spec fn wf_dof_camera(c: DOFCamera) -> bool {
    &&& frame_wf(c.tan_half_fov, c.position, c.looking, c.side, c.up)
    &&& 0 <= c.focal_distance <= crate::shape::MAX_DIST
    &&& 0 <= c.aperture <= APERTURE_MAX
}

impl DOFCamera {
    pub fn new(
        tan_half_fov: i64,
        position: Vec3,
        looking: Vec3,
        global_up: Vec3,
        focal_distance: i64,
        aperture: i64,
    ) -> (r: DOFCamera)
        requires
            0 <= tan_half_fov <= TAN_MAX,
            bounded(position, CAM_RANGE as int),
            bounded(looking, 2 * ONE as int),
            bounded(global_up, 2 * ONE as int),
            frame_ok(looking, global_up),
            0 <= focal_distance <= crate::shape::MAX_DIST,
            0 <= aperture <= APERTURE_MAX,
        ensures
            r.tan_half_fov == tan_half_fov,
            r.position == position,
            r.looking == looking,
            r.side == side_spec(looking, global_up),
            r.up == up_spec(looking, global_up),
            r.focal_distance == focal_distance,
            r.aperture == aperture,
            wf_dof_camera(r),
    {
        let (side, up) = directions(looking, global_up);
        DOFCamera { tan_half_fov, position, looking, side, up, focal_distance, aperture }
    }

    /// The ray through pixel (x, y): the origin is displaced by a uniform
    /// sample on the aperture disk (so a zero aperture leaves it at the
    /// camera position, a pinhole), and the ray aims at the point where the
    /// undisplaced ray would cross the focal plane.
    pub fn generate_ray(&self, x: usize, y: usize, width: usize, height: usize, rng: &mut Rng)
        -> (r: Ray)
        requires
            wf_dof_camera(*self),
            x < width <= DIM_MAX,
            y < height <= DIM_MAX,
        ensures
            wf_ray(r),
            self.aperture == 0 ==> r.origin == self.position,
            in_range(r.origin.x - self.position.x, 20 * self.aperture as int),
            in_range(r.origin.y - self.position.y, 20 * self.aperture as int),
            in_range(r.origin.z - self.position.z, 20 * self.aperture as int),
            exists|jx: int, jy: int, c: int, s: int, ru: int|
                0 <= jx < ONE && 0 <= jy < ONE && 0 <= ru < ONE && in_range(c, 131072)
                    && in_range(s, 131072) && r.origin == dof_origin(*self, c, s, ru)
                    && r.direction == #[trigger] dof_dir(
                    *self,
                    width as int,
                    height as int,
                    x as int,
                    y as int,
                    jx,
                    jy,
                    c,
                    s,
                    ru,
                ),
    {
        let wfx = (width as i64) * ONE;
        let ux = rng.next_unit();
        let uy = rng.next_unit();
        let xbar = wfx - 2 * ((x as i64) * ONE + ux);
        let ybar = (height as i64) * ONE - 2 * ((y as i64) * ONE + uy);
        proof {
            lemma_mul_fx_bound(wfx as int, self.looking.x as int, 0x1000_0000, 131072);
            lemma_mul_fx_bound(wfx as int, self.looking.y as int, 0x1000_0000, 131072);
            lemma_mul_fx_bound(wfx as int, self.looking.z as int, 0x1000_0000, 131072);
            lemma_mul_fx_bound(xbar as int, self.side.x as int, 0x1000_0000, 131072);
            lemma_mul_fx_bound(xbar as int, self.side.y as int, 0x1000_0000, 131072);
            lemma_mul_fx_bound(xbar as int, self.side.z as int, 0x1000_0000, 131072);
            lemma_mul_fx_bound(ybar as int, self.up.x as int, 0x1000_0000, 524288);
            lemma_mul_fx_bound(ybar as int, self.up.y as int, 0x1000_0000, 524288);
            lemma_mul_fx_bound(ybar as int, self.up.z as int, 0x1000_0000, 524288);
        }
        let base = self.looking.scale(wfx);
        let sx = self.side.scale(xbar);
        let uyv = self.up.scale(ybar);
        let plane = sx.add(uyv);
        proof {
            lemma_mul_fx_bound(self.tan_half_fov as int, plane.x as int, 0x4_0000, 0x1_0000_0000);
            lemma_mul_fx_bound(self.tan_half_fov as int, plane.y as int, 0x4_0000, 0x1_0000_0000);
            lemma_mul_fx_bound(self.tan_half_fov as int, plane.z as int, 0x4_0000, 0x1_0000_0000);
        }
        let d0 = base.add(plane.scale(self.tan_half_fov));
        // Scale toward the focal plane: (focal_distance / width) * d0.
        let fw = fx_div(self.focal_distance, wfx);
        proof {
            lemma_div_fx_bound(self.focal_distance as int, wfx as int, ONE as int);
            assert((abs_i(self.focal_distance as int) * (ONE as int)) / (ONE as int) == abs_i(
                self.focal_distance as int,
            ));
            lemma_mul_fx_bound(fw as int, d0.x as int, 0x400_0000, 0x80_0000_0000);
            lemma_mul_fx_bound(fw as int, d0.y as int, 0x400_0000, 0x80_0000_0000);
            lemma_mul_fx_bound(fw as int, d0.z as int, 0x400_0000, 0x80_0000_0000);
        }
        let scaled = d0.scale(fw);
        // A uniform point on the aperture disk.
        let cs = sample_circle(rng);
        let u = rng.next_unit();
        let rad = crate::fixed::fx_sqrt(u);
        proof {
            crate::fixed::lemma_sqrt_fx_le(u as int, 65536);
            lemma_mul_fx_bound(self.aperture as int, rad as int, 0x10_0000, 65536);
        }
        let ar = fx_mul(self.aperture, rad);
        proof {
            lemma_mul_fx_bound(ar as int, cs.0 as int, 0x10_0000, 131072);
            lemma_mul_fx_bound(ar as int, cs.1 as int, 0x10_0000, 131072);
            lemma_mul_fx_bound(mul_fx(ar as int, cs.0 as int), self.side.x as int, 0x20_0000, 131072);
            lemma_mul_fx_bound(mul_fx(ar as int, cs.0 as int), self.side.y as int, 0x20_0000, 131072);
            lemma_mul_fx_bound(mul_fx(ar as int, cs.0 as int), self.side.z as int, 0x20_0000, 131072);
            lemma_mul_fx_bound(mul_fx(ar as int, cs.1 as int), self.up.x as int, 0x20_0000, 524288);
            lemma_mul_fx_bound(mul_fx(ar as int, cs.1 as int), self.up.y as int, 0x20_0000, 524288);
            lemma_mul_fx_bound(mul_fx(ar as int, cs.1 as int), self.up.z as int, 0x20_0000, 524288);
        }
        proof {
            lemma_aperture_scaling(self.aperture as int, rad as int, cs.0 as int, cs.1 as int);
            if self.aperture == 0 {
                lemma_zero_offset(self.side, self.up, rad as int, cs.0 as int, cs.1 as int);
            }
            lemma_offset_within_aperture(
                self.side,
                self.up,
                self.aperture as int,
                mul_fx(mul_fx(self.aperture as int, rad as int), cs.0 as int),
                mul_fx(mul_fx(self.aperture as int, rad as int), cs.1 as int),
            );
        }
        let rpos = self.side.scale(fx_mul(ar, cs.0)).add(self.up.scale(fx_mul(ar, cs.1)));
        let origin = self.position.add(rpos);
        let aim = scaled.sub(rpos);
        let ns_ok = -0x2_0000_0000i64 <= aim.x && aim.x <= 0x2_0000_0000 && -0x2_0000_0000
            <= aim.y && aim.y <= 0x2_0000_0000 && -0x2_0000_0000 <= aim.z && aim.z
            <= 0x2_0000_0000;
        let direction = if ns_ok {
            let ns = aim.norm_squared();
            if ns >= NSQ_MIN {
                aim.normalise()
            } else {
                self.looking
            }
        } else {
            // Degenerate aim vector: fall back to the look direction.
            self.looking
        };
        let out = Ray { origin, direction };
        proof {
            assert(out.origin == dof_origin(*self, cs.0 as int, cs.1 as int, u as int));
            assert(out.direction == dof_dir(
                *self,
                width as int,
                height as int,
                x as int,
                y as int,
                ux as int,
                uy as int,
                cs.0 as int,
                cs.1 as int,
                u as int,
            ));
        }
        out
    }

    /// Moves the camera by an offset expressed in its own basis.
    pub fn translate(&mut self, direction: Vec3)
        requires
            wf_dof_camera(*old(self)),
            bounded(direction, 0x100_0000),
        ensures
            final(self).position == translate_spec(
                old(self).position,
                direction,
                old(self).looking,
                old(self).side,
                old(self).up,
            ),
            final(self).looking == old(self).looking,
            final(self).side == old(self).side,
            final(self).up == old(self).up,
            final(self).tan_half_fov == old(self).tan_half_fov,
            final(self).focal_distance == old(self).focal_distance,
            final(self).aperture == old(self).aperture,
            wf_dof_camera(*final(self)),
    {
        self.position = do_translate(self.position, direction, self.looking, self.side, self.up);
    }
}

/// A camera of any of the three kinds, for callers that hold one value.
pub enum Camera {
    Simple(SimpleCamera),
    SimpleAA(SimpleAACamera),
    DOF(DOFCamera),
}

pub open spec fn wf_camera(c: Camera) -> bool {
    match c {
        Camera::Simple(s) => wf_simple_camera(s),
        Camera::SimpleAA(s) => wf_aa_camera(s),
        Camera::DOF(d) => wf_dof_camera(d),
    }
}

/// The camera's position, whichever kind it is.
pub open spec fn cam_position(c: Camera) -> Vec3 {
    match c {
        Camera::Simple(s) => s.position,
        Camera::SimpleAA(s) => s.position,
        Camera::DOF(d) => d.position,
    }
}

impl Camera {
    /// The ray through pixel (x, y) for this camera kind, with the matching
    /// kind's own guarantee: the pinhole direction is pinned exactly, the
    /// jittered and thin-lens ones up to their draws, and the origin is the
    /// camera position except for the thin-lens aperture displacement.
    pub fn generate_ray(&self, x: usize, y: usize, width: usize, height: usize, rng: &mut Rng)
        -> (r: Ray)
        requires
            wf_camera(*self),
            x < width <= DIM_MAX,
            y < height <= DIM_MAX,
        ensures
            wf_ray(r),
            (*self) matches Camera::Simple(c) ==> r.origin == c.position && r.direction
                == cam_dir(
                c.tan_half_fov,
                c.looking,
                c.side,
                c.up,
                width as int * ONE as int,
                (width - 2 * x as int) * ONE as int,
                (height - 2 * y as int) * ONE as int,
            ),
            (*self) matches Camera::SimpleAA(c) ==> r.origin == c.position && exists|jx: int, jy: int|
                0 <= jx < ONE && 0 <= jy < ONE && r.direction == #[trigger] aa_dir(
                    c.tan_half_fov,
                    c.looking,
                    c.side,
                    c.up,
                    width as int,
                    height as int,
                    x as int,
                    y as int,
                    jx,
                    jy,
                ),
            (*self) matches Camera::DOF(c) ==> (c.aperture == 0 ==> r.origin == c.position)
                && in_range(r.origin.x - c.position.x, 20 * c.aperture as int) && in_range(
                r.origin.y - c.position.y,
                20 * c.aperture as int,
            ) && in_range(r.origin.z - c.position.z, 20 * c.aperture as int) && exists|
                jx: int,
                jy: int,
                cc: int,
                ss: int,
                ru: int,
            |
                0 <= jx < ONE && 0 <= jy < ONE && 0 <= ru < ONE && in_range(cc, 131072)
                    && in_range(ss, 131072) && r.origin == dof_origin(c, cc, ss, ru)
                    && r.direction == #[trigger] dof_dir(
                    c,
                    width as int,
                    height as int,
                    x as int,
                    y as int,
                    jx,
                    jy,
                    cc,
                    ss,
                    ru,
                ),
    {
        match self {
            Camera::Simple(c) => c.generate_ray(x, y, width, height),
            Camera::SimpleAA(c) => c.generate_ray(x, y, width, height, rng),
            Camera::DOF(c) => c.generate_ray(x, y, width, height, rng),
        }
    }

    /// Moves the camera by an offset expressed in its own basis.
    pub fn translate(&mut self, direction: Vec3)
        requires
            wf_camera(*old(self)),
            bounded(direction, 0x100_0000),
        ensures
            wf_camera(*final(self)),
            cam_position(*final(self)) == translate_spec(
                cam_position(*old(self)),
                direction,
                cam_looking(*old(self)),
                cam_side(*old(self)),
                cam_up(*old(self)),
            ),
            cam_looking(*final(self)) == cam_looking(*old(self)),
            cam_side(*final(self)) == cam_side(*old(self)),
            cam_up(*final(self)) == cam_up(*old(self)),
    {
        match self {
            Camera::Simple(c) => c.translate(direction),
            Camera::SimpleAA(c) => c.translate(direction),
            Camera::DOF(c) => c.translate(direction),
        }
    }
}

/// The camera's look direction, whichever kind it is.
pub open spec fn cam_looking(c: Camera) -> Vec3 {
    match c {
        Camera::Simple(s) => s.looking,
        Camera::SimpleAA(s) => s.looking,
        Camera::DOF(d) => d.looking,
    }
}

pub open spec fn cam_side(c: Camera) -> Vec3 {
    match c {
        Camera::Simple(s) => s.side,
        Camera::SimpleAA(s) => s.side,
        Camera::DOF(d) => d.side,
    }
}

pub open spec fn cam_up(c: Camera) -> Vec3 {
    match c {
        Camera::Simple(s) => s.up,
        Camera::SimpleAA(s) => s.up,
        Camera::DOF(d) => d.up,
    }
}

} // verus!
