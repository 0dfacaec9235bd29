use dust::element::{Fire, Material, Rgb, Sand, Wall};
use dust::grid::Grid;
use dust::object::{Object, Velocity};
use dust::step::{Fate, GravityClock};
use dust::stroke::stroke_points;
use dust::world::World;

fn count_particles(world: &World) -> usize {
    let mut n = 0;
    for x in 0..world.particles.columns() as i64 {
        for y in 0..world.particles.rows() as i64 {
            if world.particles.get(x, y).is_some() {
                n += 1;
            }
        }
    }
    n
}

#[test]
fn new_world_is_empty() {
    let world = World::new(6, 8);
    assert_eq!(world.particles.rows(), 6);
    assert_eq!(world.particles.columns(), 8);
    assert_eq!(world.particles.size(), 48);
    assert_eq!(count_particles(&world), 0);
    assert_eq!(world.last_dot, (0, 0));
}

#[test]
fn grid_reads_outside_as_empty_and_ignores_writes_outside() {
    let mut g = Grid::new(4, 3);
    let o = Object::new(Material::Wall);
    g.set(-1, 0, Some(o));
    g.set(4, 0, Some(o));
    g.set(0, 3, Some(o));
    for x in 0..4 {
        for y in 0..3 {
            assert!(g.get(x, y).is_none());
        }
    }
    assert!(g.get(-1, 0).is_none());
    assert!(g.get(100, 100).is_none());
    g.set(3, 2, Some(o));
    assert_eq!(g.get(3, 2), Some(o));
}

#[test]
fn grid_swap_and_clear() {
    let mut g = Grid::new(4, 3);
    let o = Object::new(Material::Sand);
    g.set(1, 1, Some(o));
    g.swap(1, 1, 2, 0);
    assert!(g.get(1, 1).is_none());
    assert_eq!(g.get(2, 0), Some(o));
    g.clear();
    assert!(g.get(2, 0).is_none());
}

#[test]
fn new_particles_take_their_material_colors() {
    let w = Object::new(Material::Wall);
    assert_eq!(w.color, Rgb { r: 128, g: 128, b: 128 });
    assert_eq!(w.velocity, Velocity { x: 0, y: 0 });
    assert!(!w.marked_for_removal);
    let s = Object::new(Material::Sand);
    assert_eq!(s.color, Rgb { r: 201, g: 193, b: 181 });
    let f = Object::new(Material::Fire);
    assert_eq!(f.color.r, 255);
    assert_eq!(f.color.b, 0);
    assert_eq!(Fire.color_with(17), Rgb { r: 255, g: 17, b: 0 });
}

#[test]
fn fire_green_channel_varies() {
    let mut greens = std::collections::HashSet::new();
    for _ in 0..200 {
        greens.insert(Object::new(Material::Fire).color.g);
    }
    assert!(greens.len() > 1);
}

#[test]
fn only_sand_has_gravity() {
    assert!(Material::Sand.has_gravity());
    assert!(!Material::Wall.has_gravity());
    assert!(!Material::Fire.has_gravity());
    assert!(Sand.has_gravity());
    assert!(!Wall.has_gravity());
    assert!(!Fire.has_gravity());
}

#[test]
fn behaviors_with_given_draws() {
    let mut s = Object::new(Material::Sand);
    Material::Sand.simulate_with(&mut s, -2, 0);
    assert_eq!(s.velocity, Velocity { x: -2, y: 0 });
    assert!(!s.marked_for_removal);

    let mut w = Object::new(Material::Wall);
    let before = w;
    Material::Wall.simulate_with(&mut w, 1, 0);
    assert_eq!(w, before);

    let mut f = Object::new(Material::Fire);
    Material::Fire.simulate_with(&mut f, 1, 5);
    assert_eq!(f.velocity, Velocity { x: 1, y: -2 });
    assert!(!f.marked_for_removal);
    Material::Fire.simulate_with(&mut f, 0, 0);
    assert!(f.marked_for_removal);
}

#[test]
fn random_jitter_stays_in_range_and_varies() {
    let mut seen = std::collections::HashSet::new();
    for _ in 0..500 {
        let mut s = Object::new(Material::Sand);
        s.simulate();
        assert!(-2 <= s.velocity.x && s.velocity.x <= 2);
        assert_eq!(s.velocity.y, 0);
        seen.insert(s.velocity.x);
    }
    assert_eq!(seen.len(), 5);
}

#[test]
fn place_writes_in_bounds_only() {
    let mut world = World::new(10, 10);
    let p = world.place(3, 4, Some(Material::Sand));
    assert!(p.is_some());
    assert_eq!(world.particles.get(3, 4), p);
    assert_eq!(world.place(-1, 4, Some(Material::Sand)), None);
    assert_eq!(world.place(10, 4, Some(Material::Sand)), None);
    assert_eq!(world.place(3, 10, Some(Material::Sand)), None);
    assert_eq!(count_particles(&world), 1);
}

#[test]
fn place_overwrites_an_occupied_cell() {
    let mut world = World::new(10, 10);
    world.place(3, 4, Some(Material::Sand));
    let p = world.place(3, 4, Some(Material::Wall)).unwrap();
    assert_eq!(p.material, Material::Wall);
    assert_eq!(world.particles.get(3, 4).unwrap().material, Material::Wall);
}

#[test]
fn erase_clears_a_cell() {
    let mut world = World::new(10, 10);
    world.place(3, 4, Some(Material::Sand));
    assert_eq!(world.place(3, 4, None), None);
    assert!(world.particles.get(3, 4).is_none());
}

#[test]
fn erase_of_empty_cell_is_idempotent() {
    let mut world = World::new(10, 10);
    world.place(1, 1, Some(Material::Wall));
    assert_eq!(world.place(5, 5, None), None);
    assert!(world.particles.get(5, 5).is_none());
    assert_eq!(world.place(5, 5, None), None);
    assert!(world.particles.get(5, 5).is_none());
    assert_eq!(count_particles(&world), 1);
}

#[test]
fn place_square_fills_block_and_reports_each_cell() {
    let mut world = World::new(10, 10);
    let placed = world.place_square(2, 3, 3, Some(Material::Wall));
    assert_eq!(placed.len(), 9);
    assert!(placed.iter().all(|p| p.is_some()));
    for x in 0..10 {
        for y in 0..10 {
            let inside = (2..5).contains(&x) && (3..6).contains(&y);
            assert_eq!(world.particles.get(x, y).is_some(), inside);
        }
    }
}

#[test]
fn place_square_at_edge_skips_outside_cells() {
    let mut world = World::new(10, 10);
    let placed = world.place_square(8, 8, 3, Some(Material::Sand));
    assert_eq!(placed.len(), 9);
    assert_eq!(placed.iter().filter(|p| p.is_some()).count(), 4);
    assert!(placed[0].is_some());
    assert!(placed[2].is_none());
    assert_eq!(count_particles(&world), 4);
}

#[test]
fn place_square_erase_gives_no_particles() {
    let mut world = World::new(10, 10);
    world.place_square(0, 0, 4, Some(Material::Sand));
    let erased = world.place_square(1, 1, 2, None);
    assert_eq!(erased.len(), 4);
    assert!(erased.iter().all(|p| p.is_none()));
    assert_eq!(count_particles(&world), 12);
}

#[test]
fn stroke_points_of_a_shallow_line() {
    let pts = stroke_points(0, 0, 3, 1);
    assert_eq!(pts, vec![(0, 0), (1, 0), (2, 1), (3, 1)]);
}

#[test]
fn stroke_points_of_a_single_sample() {
    assert_eq!(stroke_points(7, -3, 7, -3), vec![(7, -3)]);
}

#[test]
fn stroke_points_of_a_vertical_line_going_up() {
    let pts = stroke_points(10, 100, 10, 10);
    assert_eq!(pts.len(), 91);
    for (i, p) in pts.iter().enumerate() {
        assert_eq!(*p, (10, 100 - i as i32));
    }
}

#[test]
fn stroke_points_are_connected() {
    let pts = stroke_points(-5, 40, 37, -9);
    assert_eq!(pts.len(), 50);
    assert_eq!(pts[0], (-5, 40));
    assert_eq!(pts[49], (37, -9));
    for w in pts.windows(2) {
        assert!((w[1].0 - w[0].0).abs() <= 1);
        assert!((w[1].1 - w[0].1).abs() <= 1);
    }
}

#[test]
fn draw_vertical_stroke_is_continuous() {
    let mut world = World::new(200, 200);
    world.last_dot = (10, 10);
    world.draw(10, 10, 5, Some(Material::Wall));
    world.draw(10, 100, 5, Some(Material::Wall));
    for y in 10..105 {
        for x in 10..15 {
            assert!(world.particles.get(x, y).is_some(), "gap at ({}, {})", x, y);
        }
    }
    assert_eq!(count_particles(&world), 5 * 95);
    assert_eq!(world.last_dot, (10, 100));
}

#[test]
fn draw_with_no_material_erases_along_stroke() {
    let mut world = World::new(50, 50);
    world.place_square(0, 0, 50, Some(Material::Wall));
    world.last_dot = (0, 20);
    let erased = world.draw(40, 20, 3, None);
    assert!(erased.iter().all(|p| p.is_none()));
    for x in 0..43 {
        for y in 20..23 {
            assert!(world.particles.get(x, y).is_none());
        }
    }
    assert_eq!(count_particles(&world), 2500 - 43 * 3);
}

#[test]
fn gravity_clock_carries_leftover_time() {
    let mut c = GravityClock::new();
    assert_eq!(c.advance(10), 2);
    assert_eq!(c.advance(10), 3);
    assert_eq!(c.advance(3), 0);
    assert_eq!(c.advance(1), 1);
}

#[test]
fn sand_falls_by_gravity() {
    let mut world = World::new(50, 50);
    world.place(20, 10, Some(Material::Sand));
    world.delta_time = 40;
    let log = world.simulate();
    assert_eq!(log.len(), 1);
    assert_eq!(log[0].dy, 10);
    match log[0].fate {
        Fate::MovedTo(x, y) => {
            assert_eq!(y, 20);
            assert!((18..=22).contains(&x));
            assert_eq!(world.particles.get(x as i64, y as i64).unwrap().material, Material::Sand);
        }
        _ => panic!("sand did not fall"),
    }
    assert_eq!(count_particles(&world), 1);
}

#[test]
fn walls_stay_put() {
    let mut world = World::new(20, 20);
    world.place(5, 5, Some(Material::Wall));
    world.delta_time = 100;
    let log = world.simulate();
    assert_eq!(log.len(), 1);
    assert_eq!(log[0].fate, Fate::Stayed);
    assert!(world.particles.get(5, 5).is_some());
}

#[test]
fn each_particle_takes_one_turn_per_frame() {
    let mut world = World::new(60, 30);
    for y in 0..20 {
        world.place(15, y, Some(Material::Sand));
        world.place(5, y * 2, Some(Material::Fire));
    }
    world.place_square(20, 30, 5, Some(Material::Wall));
    let before = count_particles(&world);
    world.delta_time = 16;
    let log = world.simulate();
    assert_eq!(log.len(), before);
    let mut sources = std::collections::HashSet::new();
    for m in &log {
        assert!(sources.insert((m.x, m.y)));
    }
    let survivors = log.iter().filter(|m| m.fate != Fate::Removed).count();
    assert_eq!(count_particles(&world), survivors);
}

#[test]
fn moving_particles_never_share_a_cell() {
    let mut world = World::new(40, 40);
    world.place_square(10, 5, 10, Some(Material::Sand));
    world.delta_time = 8;
    for _ in 0..20 {
        let before = count_particles(&world);
        let log = world.simulate();
        assert_eq!(log.len(), before);
        let mut landings = std::collections::HashSet::new();
        for m in &log {
            let at = match m.fate {
                Fate::Removed => continue,
                Fate::Stayed => (m.x, m.y),
                Fate::MovedTo(x, y) => (x, y),
            };
            assert!(landings.insert(at));
        }
        assert_eq!(count_particles(&world), landings.len());
    }
}

#[test]
fn sand_blocked_by_wall_stays() {
    let mut world = World::new(20, 20);
    world.place(10, 10, Some(Material::Sand));
    world.place_square(7, 11, 7, Some(Material::Wall));
    world.delta_time = 4;
    let log = world.simulate();
    let sand = log.iter().find(|m| m.object.material == Material::Sand).unwrap();
    assert_eq!(sand.fate, Fate::Stayed);
    assert_eq!(world.particles.get(10, 10).unwrap().material, Material::Sand);
}

#[test]
fn particle_leaving_the_grid_is_removed() {
    let mut world = World::new(50, 50);
    world.place(25, 45, Some(Material::Sand));
    world.delta_time = 400;
    let log = world.simulate();
    assert_eq!(log.len(), 1);
    assert_eq!(log[0].fate, Fate::Removed);
    assert_eq!(count_particles(&world), 0);
}

#[test]
fn fire_rises() {
    let mut world = World::new(50, 50);
    world.place(25, 25, Some(Material::Fire));
    world.delta_time = 16;
    let log = world.simulate();
    assert_eq!(log.len(), 1);
    assert_eq!(log[0].dy, -2);
    match log[0].fate {
        Fate::MovedTo(_, y) => assert_eq!(y, 23),
        Fate::Removed => assert!(log[0].object.marked_for_removal),
        Fate::Stayed => panic!("fire did not rise"),
    }
}

#[test]
fn fire_burns_out_about_one_step_in_ten() {
    let mut world = World::new(10, 10);
    let trials = 20000;
    let mut removed = 0;
    for _ in 0..trials {
        // the last column never moves, so only burning out removes it
        world.place(9, 5, Some(Material::Fire));
        world.simulate();
        if world.particles.get(9, 5).is_none() {
            removed += 1;
        }
    }
    let rate = removed as f64 / trials as f64;
    assert!((0.08..0.12).contains(&rate), "rate {}", rate);
}

fn descent(frames: usize, ms: u32) -> usize {
    let mut world = World::new(400, 600);
    world.place(300, 10, Some(Material::Sand));
    world.delta_time = ms;
    for _ in 0..frames {
        world.simulate();
    }
    for x in 0..600 {
        for y in 0..400 {
            if world.particles.get(x, y).is_some() {
                return y as usize - 10;
            }
        }
    }
    panic!("sand vanished");
}

#[test]
fn descent_does_not_depend_on_frame_rate() {
    assert_eq!(descent(10, 100), 250);
    assert_eq!(descent(100, 10), 250);
    assert_eq!(descent(1000, 1), 250);
    assert_eq!(descent(40, 25), 250);
}

#[test]
fn material_names() {
    assert_eq!(Material::Wall.name(), "Wall");
    assert_eq!(Material::Sand.name(), "Sand");
    assert_eq!(Material::Fire.name(), "Fire");
}

#[test]
fn default_particle_is_black_resting_sand() {
    let o = Object::default();
    assert_eq!(o.material, Material::Sand);
    assert_eq!(o.color, Rgb { r: 0, g: 0, b: 0 });
    assert_eq!(o.velocity, Velocity { x: 0, y: 0 });
    assert!(!o.marked_for_removal);
}
