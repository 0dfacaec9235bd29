use rand::Rng;
use vstd::prelude::*;

verus! {

/// Relies on rand::Rng::gen_range on an inclusive range of the thread-local
/// generator: a value within [lo, hi]; it panics only on an empty range.
#[verifier::external_body]
pub(crate) fn random_between(lo: i32, hi: i32) -> (r: i32)
    requires
        lo <= hi,
    ensures
        lo <= r <= hi,
{
    rand::thread_rng().gen_range(lo..=hi)
}

/// The largest sideways jitter, in cells, that sand and fire take each step.
pub const JITTER: i32 = 2;

/// One step in this many marks a fire particle for removal.
pub const FIRE_CHANCE: i32 = 10;

/// The red, green and blue channels of a display color.
#[derive(Clone, Copy, Debug, PartialEq, Eq, Structural)]
pub struct Rgb {
    pub r: u8,
    pub g: u8,
    pub b: u8,
}

/// The closed set of materials a particle can be made of.
#[derive(Clone, Copy, Debug, PartialEq, Eq, Structural)]
pub enum Material {
    Wall,
    Sand,
    Fire,
}

/// Sand: falls under gravity and jitters sideways.
#[derive(Clone, Copy, Debug)]
pub struct Sand;

/// Wall: never moves and never changes.
#[derive(Clone, Copy, Debug)]
pub struct Wall;

/// Fire: rises, flickers sideways and burns out at random.
#[derive(Clone, Copy, Debug)]
pub struct Fire;

pub open spec fn sand_color() -> Rgb {
    Rgb { r: 201, g: 193, b: 181 }
}

pub open spec fn wall_color() -> Rgb {
    Rgb { r: 128, g: 128, b: 128 }
}

pub open spec fn fire_color(green: u8) -> Rgb {
    Rgb { r: 255, g: green, b: 0 }
}

/// The colors a freshly made particle of material `m` may have.
pub open spec fn valid_color(m: Material, c: Rgb) -> bool {
    match m {
        Material::Wall => c == wall_color(),
        Material::Sand => c == sand_color(),
        Material::Fire => c.r == 255 && c.b == 0,
    }
}

/// The display name of a material.
pub open spec fn name_of(m: Material) -> Seq<char> {
    match m {
        Material::Wall => "Wall"@,
        Material::Sand => "Sand"@,
        Material::Fire => "Fire"@,
    }
}

pub open spec fn gravity_of(m: Material) -> bool {
    m == Material::Sand
}

impl Sand {
    pub fn has_gravity(&self) -> (r: bool)
        ensures
            r,
    {
        true
    }

    pub fn color(&self) -> (c: Rgb)
        ensures
            c == sand_color(),
    {
        Rgb { r: 201, g: 193, b: 181 }
    }
}

impl Wall {
    pub fn has_gravity(&self) -> (r: bool)
        ensures
            !r,
    {
        false
    }

    pub fn color(&self) -> (c: Rgb)
        ensures
            c == wall_color(),
    {
        Rgb { r: 128, g: 128, b: 128 }
    }
}

impl Fire {
    pub fn has_gravity(&self) -> (r: bool)
        ensures
            !r,
    {
        false
    }

    /// The color of a new fire particle whose green channel is `green`.
    pub fn color_with(&self, green: u8) -> (c: Rgb)
        ensures
            c == fire_color(green),
    {
        Rgb { r: 255, g: green, b: 0 }
    }

    /// A fire color with a randomly drawn green channel.
    pub fn color(&self) -> (c: Rgb)
        ensures
            valid_color(Material::Fire, c),
    {
        let g = random_between(0, 254);
        self.color_with(g as u8)
    }
}

impl Material {
    pub fn name(&self) -> (r: &'static str)
        ensures
            r@ == name_of(*self),
    {
        match self {
            Material::Wall => "Wall",
            Material::Sand => "Sand",
            Material::Fire => "Fire",
        }
    }

    pub fn has_gravity(&self) -> (r: bool)
        ensures
            r == gravity_of(*self),
    {
        match self {
            Material::Wall => Wall.has_gravity(),
            Material::Sand => Sand.has_gravity(),
            Material::Fire => Fire.has_gravity(),
        }
    }

    /// The display color of a new particle of this material; fire's green
    /// channel is drawn at random.
    pub fn initial_color(&self) -> (c: Rgb)
        ensures
            valid_color(*self, c),
    {
        match self {
            Material::Wall => Wall.color(),
            Material::Sand => Sand.color(),
            Material::Fire => Fire.color(),
        }
    }
}

} // verus!
