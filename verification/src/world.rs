//! A box that flies under gravity and wind and bounces off the edges of a
//! rectangle, advanced one time step at a time.

use crate::fixed::{lemma_zero_product, multiply, product, UNIT};
use crate::tuple::{Coords, Point, Scalar, Vector};
use core::ops::AddAssign;
use vstd::prelude::*;

verus! {

/// The width of the usual rectangle, in pixels.
pub const WIDTH: u32 = 320;

/// The height of the usual rectangle, in pixels.
pub const HEIGHT: u32 = 240;

/// The edge of the usual box, in pixels.
pub const BOX_SIZE: u32 = 8;

/// The share of its speed that the box keeps along each axis when it
/// bounces: the scalar 0.8.
pub const DAMPING: i64 = 80_000_000_000;

/// The speed under which the box comes to rest: the scalar 1.0.
pub const REST_SPEED: i64 = 100_000_000_000;

/// The rectangle in which the box moves, and the edge of the box, in pixels.
#[derive(Clone, Copy, Debug)]
pub struct Domain {
    pub width: u32,
    pub height: u32,
    pub box_size: u32,
}

/// The box: where its corner is, and how fast it moves.
#[derive(Clone, Copy, Debug)]
pub struct Projectile {
    pub position: Point,
    pub velocity: Vector,
}

/// The two constant accelerations that act on the box.
#[derive(Clone, Copy, Debug)]
pub struct Environment {
    pub gravity: Vector,
    pub wind: Vector,
}

/// The box and what acts on it.
#[derive(Clone, Copy, Debug)]
pub struct World {
    pub proj: Projectile,
    pub env: Environment,
}

/// Whether a box with its corner at `coordinate` along one axis touches or
/// has passed an end of a stretch of `extent` pixels.
pub open spec fn touches(coordinate: int, extent: u32, box_size: u32) -> bool {
    coordinate <= 0 || coordinate >= (extent - box_size) * UNIT
}

/// The velocity after the bounces that the position calls for: at a side the
/// box turns back along x, at the top or the bottom along y, and each bounce
/// damps both; in a corner both bounces happen, one after the other.
pub open spec fn bounced(position: Coords, velocity: Coords, domain: Domain) -> Coords {
    let first = if touches(position.x, domain.width, domain.box_size) {
        Coords {
            x: product(velocity.x, -DAMPING),
            y: product(velocity.y, DAMPING as int),
            z: velocity.z,
        }
    } else {
        velocity
    };
    if touches(position.y, domain.height, domain.box_size) {
        Coords { x: product(first.x, DAMPING as int), y: product(first.y, -DAMPING), z: first.z }
    } else {
        first
    }
}

/// The zero vector.
pub open spec fn at_rest() -> Coords {
    Coords { x: 0, y: 0, z: 0 }
}

impl World {
    /// The velocity of the box once it has bounced.
    pub open spec fn rebound(self, domain: Domain) -> Coords {
        bounced(self.proj.position@, self.proj.velocity@, domain)
    }

    /// The velocity after a step of `dt`: none if the box is slower than
    /// `REST_SPEED` once it has bounced, else gravity and wind have acted on
    /// it for `dt`.
    pub open spec fn next_velocity(self, dt: int, domain: Domain) -> Coords {
        if self.rebound(domain).length() < REST_SPEED {
            at_rest()
        } else {
            self.rebound(domain).plus(self.env.gravity@.plus(self.env.wind@).scaled(dt))
        }
    }

    /// The position after a step of `dt`: the box has moved for `dt` at its
    /// new velocity.
    pub open spec fn next_position(self, dt: int, domain: Domain) -> Coords {
        self.proj.position@.plus(self.next_velocity(dt, domain).scaled(dt))
    }

    /// The world after a step of `dt`.
    pub open spec fn after_tick(self, dt: int, domain: Domain) -> World {
        World {
            proj: Projectile {
                position: Point::of(self.next_position(dt, domain)),
                velocity: Vector::of(self.next_velocity(dt, domain)),
            },
            env: self.env,
        }
    }

    /// The world after one step for each entry of `steps`, in their order.
    pub open spec fn after_ticks(self, steps: Seq<Scalar>, domain: Domain) -> World
        decreases steps.len(),
    {
        if steps.len() == 0 {
            self
        } else {
            self.after_tick(steps[0]@, domain).after_ticks(steps.drop_first(), domain)
        }
    }

    /// Whether every quantity that a step of `dt` computes can be held.
    pub open spec fn tick_fits(self, dt: int, domain: Domain) -> bool {
        let pull = self.env.gravity@.plus(self.env.wind@);
        self.rebound(domain).length() >= REST_SPEED ==> {
            &&& pull.representable()
            &&& pull.scaled(dt).representable()
            &&& self.next_velocity(dt, domain).representable()
            &&& self.next_velocity(dt, domain).scaled(dt).representable()
            &&& self.next_position(dt, domain).representable()
        }
    }
}

/// Whether a box with its corner at `coordinate` along one axis touches or
/// has passed an end of a stretch of `extent` pixels.
fn at_edge(coordinate: i64, extent: u32, box_size: u32) -> (hit: bool)
    ensures
        hit == touches(coordinate as int, extent, box_size),
{
    let room: i128 = (extent as i128) - (box_size as i128);
    coordinate <= 0 || (coordinate as i128) >= room * 100_000_000_000_000
}

impl World {
    /// The world as it starts: the box near the left side, thrown up and to
    /// the right, under gravity and a light head wind.
    pub fn new() -> (world: World)
        ensures
            world.proj.position@ == (Coords { x: 10 * UNIT, y: 100 * UNIT, z: 0 }),
            world.proj.velocity@ == (Coords { x: 150 * UNIT, y: -90 * UNIT, z: 0 }),
            world.env.gravity@ == (Coords { x: 0, y: 100 * UNIT, z: 0 }),
            world.env.wind@ == (Coords { x: -UNIT, y: 0, z: 0 }),
    {
        World {
            proj: Projectile {
                position: Point { x: 10 * UNIT, y: 100 * UNIT, z: 0 },
                velocity: Vector { x: 150 * UNIT, y: -90 * UNIT, z: 0 },
            },
            env: Environment {
                gravity: Vector { x: 0, y: 100 * UNIT, z: 0 },
                wind: Vector { x: -UNIT, y: 0, z: 0 },
            },
        }
    }

    /// Where the corner of the box is.
    pub fn position(&self) -> (position: Point)
        ensures
            position == self.proj.position,
    {
        self.proj.position
    }

    /// The velocity of the box once it has bounced.
    fn bounce(&self, domain: &Domain) -> (velocity: Vector)
        ensures
            velocity@ == self.rebound(*domain),
    {
        let mut velocity = self.proj.velocity;
        let keep: i64 = DAMPING;
        let turn: i64 = -DAMPING;
        if at_edge(self.proj.position.x, domain.width, domain.box_size) {
            velocity.x = multiply(velocity.x, turn);
            velocity.y = multiply(velocity.y, keep);
        }
        if at_edge(self.proj.position.y, domain.height, domain.box_size) {
            velocity.x = multiply(velocity.x, keep);
            velocity.y = multiply(velocity.y, turn);
        }
        velocity
    }

    /// Whether `tick` can take this step: whether every quantity that it
    /// computes can be held.
    pub fn can_tick(&self, delta_t: Scalar, domain: &Domain) -> (fits: bool)
        ensures
            fits == self.tick_fits(delta_t@, *domain),
    {
        let velocity = self.bounce(domain);
        if velocity.magnitude() < Scalar::new(REST_SPEED) {
            return true;
        }
        if !self.env.gravity.can_add(&self.env.wind) {
            return false;
        }
        let pull = &self.env.gravity + &self.env.wind;
        if !pull.can_scale(delta_t) {
            return false;
        }
        let gain = pull * delta_t;
        if !velocity.can_add(&gain) {
            return false;
        }
        let faster = velocity + gain;
        if !faster.can_scale(delta_t) {
            return false;
        }
        let way = faster * delta_t;
        self.proj.position.can_move(&way)
    }

    /// Advances the box by one step of `delta_t`: it bounces where it touches
    /// an edge, comes to rest if that leaves it slower than `REST_SPEED`, else
    /// gains speed from gravity and wind, and then moves at its new velocity.
    pub fn tick(&mut self, delta_t: Scalar, domain: &Domain)
        requires
            old(self).tick_fits(delta_t@, *domain),
        ensures
            final(self).proj.velocity@ == old(self).next_velocity(delta_t@, *domain),
            final(self).proj.position@ == old(self).next_position(delta_t@, *domain),
            *final(self) == old(self).after_tick(delta_t@, *domain),
    {
        self.proj.velocity = self.bounce(domain);
        if self.proj.velocity.magnitude() < Scalar::new(REST_SPEED) {
            self.proj.velocity = Vector { x: 0, y: 0, z: 0 };
            proof {
                lemma_zero_product(delta_t@);
            }
        } else {
            let gain = (&self.env.gravity + &self.env.wind) * delta_t;
            self.proj.velocity.add_assign(gain);
        }
        let way = &self.proj.velocity * delta_t;
        self.proj.position.add_assign(way);
    }
}

/// The four bytes of a pixel that the box covers.
pub open spec fn box_color() -> Seq<u8> {
    seq![0x5eu8, 0x48u8, 0xe8u8, 0xffu8]
}

/// The four bytes of a pixel that the box leaves free.
pub open spec fn sky_color() -> Seq<u8> {
    seq![0x48u8, 0xb2u8, 0xe8u8, 0xffu8]
}

/// Whether a box with its corner at `corner` covers the pixel in the given
/// column and row.
pub open spec fn covers(corner: Coords, box_size: u32, column: int, row: int) -> bool {
    &&& corner.x <= column * UNIT < corner.x + box_size * UNIT
    &&& corner.y <= row * UNIT < corner.y + box_size * UNIT
}

/// Whether a box with its corner at `corner` covers the pixel in the given
/// column and row.
fn is_covered(corner: &Point, box_size: u32, column: usize, row: usize) -> (inside: bool)
    ensures
        inside == covers(corner@, box_size, column as int, row as int),
{
    let edge: i128 = (box_size as i128) * 100_000_000_000_000;
    let x: i128 = (column as i128) * 100_000_000_000_000;
    let y: i128 = (row as i128) * 100_000_000_000_000;
    let left: i128 = corner.x as i128;
    let top: i128 = corner.y as i128;
    x >= left && x < left + edge && y >= top && y < top + edge
}

impl World {
    /// The four bytes of the pixel with the given number, counted row by row
    /// in a picture of the width of `domain`.
    pub open spec fn color_at(self, domain: Domain, pixel: int) -> Seq<u8> {
        if covers(
            self.proj.position@,
            domain.box_size,
            pixel % (domain.width as int),
            pixel / (domain.width as int),
        ) {
            box_color()
        } else {
            sky_color()
        }
    }

    /// Paints the world into `frame`, four bytes to a pixel: the box in one
    /// color and the rest in another. Bytes after the last whole pixel stay
    /// as they are.
    pub fn draw(&self, frame: &mut [u8], domain: &Domain)
        requires
            domain.width > 0,
        ensures
            final(frame)@.len() == old(frame)@.len(),
            forall|i: int|
                0 <= i < old(frame)@.len() ==> #[trigger] final(frame)@[i] == (if i / 4 < old(frame)@.len() / 4 {
                    self.color_at(*domain, i / 4)[i % 4]
                } else {
                    old(frame)@[i]
                }),
    {
        let ghost before = frame@;
        let pixels: usize = frame.len() / 4;
        let width: usize = domain.width as usize;
        let mut pixel: usize = 0;
        while pixel < pixels
            invariant
                width == domain.width > 0,
                frame@.len() == before.len() <= usize::MAX,
                pixels == before.len() / 4,
                pixel <= pixels,
                forall|i: int|
                    0 <= i < before.len() ==> #[trigger] frame@[i] == (if i / 4 < pixel {
                        self.color_at(*domain, i / 4)[i % 4]
                    } else {
                        before[i]
                    }),
            decreases pixels - pixel,
        {
            let inside = is_covered(&self.proj.position, domain.box_size, pixel % width, pixel / width);
            let start: usize = 4 * pixel;
            if inside {
                frame[start] = 0x5e;
                frame[start + 1] = 0x48;
                frame[start + 2] = 0xe8;
                frame[start + 3] = 0xff;
            } else {
                frame[start] = 0x48;
                frame[start + 1] = 0xb2;
                frame[start + 2] = 0xe8;
                frame[start + 3] = 0xff;
            }
            pixel += 1;
        }
    }
}

} // verus!
