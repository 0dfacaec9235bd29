use crate::element::{random_between, Fire, Material, Rgb, Sand, Wall, FIRE_CHANCE, JITTER};
use crate::element::valid_color;
use vstd::prelude::*;

verus! {

/// A displacement in cells per frame: horizontal, then vertical (down is
/// positive).
#[derive(Clone, Copy, Debug, PartialEq, Eq, Structural)]
pub struct Velocity {
    pub x: i32,
    pub y: i32,
}

/// A particle: one material instance held in one grid cell.
#[derive(Clone, Copy, Debug, PartialEq, Eq, Structural)]
pub struct Object {
    /// Per-frame displacement in cells, horizontal then vertical.
    pub velocity: Velocity,
    pub color: Rgb,
    pub material: Material,
    /// Set by the material's behavior; the next movement pass removes it.
    pub marked_for_removal: bool,
}

/// What a freshly made particle of material `m` looks like: at rest, not
/// marked, with a color its material allows.
pub open spec fn is_fresh(o: Object, m: Material) -> bool {
    &&& o.material == m
    &&& o.velocity == Velocity { x: 0, y: 0 }
    &&& !o.marked_for_removal
    &&& valid_color(m, o.color)
}

/// The particle after one behavior step of its material, given the sideways
/// jitter drawn for it and the roll (in [0, FIRE_CHANCE)) that decides
/// whether a fire burns out.
pub open spec fn simulated(o: Object, jitter: i32, roll: i32) -> Object {
    match o.material {
        Material::Wall => o,
        Material::Sand => Object { velocity: Velocity { x: jitter, y: o.velocity.y }, ..o },
        Material::Fire => Object {
            velocity: Velocity { x: jitter, y: -2i32 },
            marked_for_removal: o.marked_for_removal || roll == 0,
            ..o
        },
    }
}

/// The draws that a behavior step takes are within their ranges.
pub open spec fn valid_draws(jitter: i32, roll: i32) -> bool {
    -JITTER <= jitter <= JITTER && 0 <= roll < FIRE_CHANCE
}

/// `q` is one of the particles a behavior step can turn `o` into.
pub open spec fn may_become(o: Object, q: Object) -> bool {
    exists|jitter: i32, roll: i32| valid_draws(jitter, roll) && q == #[trigger] simulated(o, jitter, roll)
}

impl Sand {
    /// Sets the horizontal velocity to the drawn jitter.
    pub fn simulate_with(&self, o: &mut Object, jitter: i32)
        requires
            old(o).material == Material::Sand,
        ensures
            *final(o) == simulated(*old(o), jitter, 0),
    {
        o.velocity.x = jitter;
    }
}

impl Wall {
    /// A wall does nothing.
    pub fn simulate_with(&self, o: &mut Object)
        requires
            old(o).material == Material::Wall,
        ensures
            *final(o) == simulated(*old(o), 0, 0),
    {
    }
}

impl Fire {
    /// Rises, takes the drawn jitter sideways, and burns out when the roll
    /// is zero.
    pub fn simulate_with(&self, o: &mut Object, jitter: i32, roll: i32)
        requires
            old(o).material == Material::Fire,
        ensures
            *final(o) == simulated(*old(o), jitter, roll),
    {
        o.velocity = Velocity { x: jitter, y: -2 };
        if roll == 0 {
            o.marked_for_removal = true;
        }
    }
}

impl Material {
    /// One behavior step of `o`, given the draws.
    pub fn simulate_with(&self, o: &mut Object, jitter: i32, roll: i32)
        requires
            old(o).material == *self,
        ensures
            *final(o) == simulated(*old(o), jitter, roll),
    {
        match self {
            Material::Wall => Wall.simulate_with(o),
            Material::Sand => Sand.simulate_with(o, jitter),
            Material::Fire => Fire.simulate_with(o, jitter, roll),
        }
    }

    /// One behavior step of `o`, with its draws taken at random.
    pub fn simulate(&self, o: &mut Object)
        requires
            old(o).material == *self,
        ensures
            may_become(*old(o), *final(o)),
    {
        let jitter = random_between(-JITTER, JITTER);
        let roll = random_between(0, FIRE_CHANCE - 1);
        self.simulate_with(o, jitter, roll);
        assert(valid_draws(jitter, roll));
    }
}

impl Default for Object {
    /// A resting, unmarked black sand particle.
    fn default() -> (o: Object)
        ensures
            o == (Object {
                velocity: Velocity { x: 0, y: 0 },
                color: Rgb { r: 0, g: 0, b: 0 },
                material: Material::Sand,
                marked_for_removal: false,
            }),
    {
        Object {
            velocity: Velocity { x: 0, y: 0 },
            color: Rgb { r: 0, g: 0, b: 0 },
            material: Material::Sand,
            marked_for_removal: false,
        }
    }
}

impl Object {
    /// A new particle of `material`, its color set by the material.
    pub fn new(material: Material) -> (o: Object)
        ensures
            is_fresh(o, material),
    {
        Object { velocity: Velocity { x: 0, y: 0 }, color: material.initial_color(), material, marked_for_removal: false }
    }

    /// One behavior step of this particle's material.
    pub fn simulate(&mut self)
        ensures
            may_become(*old(self), *final(self)),
    {
        let m = self.material;
        m.simulate(self);
    }
}

} // verus!
