use ray_tracer::hits::{nearest_hit, select_root, Hit, Roots};

/// An order key for a non-negative hit parameter, as the renderer makes them.
fn key(t: f64) -> u64 {
    let bits = (t + 0.0).to_bits();
    if bits >> 63 == 1 {
        !bits
    } else {
        bits | (1 << 63)
    }
}

#[test]
fn roots_are_ordered_on_construction() {
    let r = Roots::new(9, 4);
    assert_eq!((r.near(), r.far()), (4, 9));
    let r = Roots::new(4, 9);
    assert_eq!((r.near(), r.far()), (4, 9));
}

#[test]
fn near_root_wins_when_in_range() {
    assert_eq!(select_root(&Roots::new(5, 8), 1, 10), Some(5));
}

#[test]
fn far_root_when_near_is_behind() {
    assert_eq!(select_root(&Roots::new(0, 8), 1, 10), Some(8));
}

#[test]
fn no_root_when_both_out_of_range() {
    assert_eq!(select_root(&Roots::new(0, 11), 1, 10), None);
    assert_eq!(select_root(&Roots::new(12, 13), 1, 10), None);
}

#[test]
fn range_bounds_are_inclusive() {
    assert_eq!(select_root(&Roots::new(1, 3), 1, 10), Some(1));
    assert_eq!(select_root(&Roots::new(0, 10), 1, 10), Some(10));
}

#[test]
fn ray_at_unit_sphere_hits_at_half() {
    // Origin (0,0,0), direction (0,0,-1), sphere at (0,0,-1) of radius 0.5:
    // the roots are 0.5 and 1.5.
    let roots = Roots::new(key(1.5), key(0.5));
    assert_eq!(select_root(&roots, key(0.001), key(f64::INFINITY)), Some(key(0.5)));
    let scene = vec![Some(roots)];
    assert_eq!(
        nearest_hit(&scene, key(0.001), key(f64::INFINITY)),
        Some(Hit { index: 0, t: key(0.5) })
    );
}

#[test]
fn empty_scene_has_no_hit() {
    assert_eq!(nearest_hit(&Vec::new(), 1, 100), None);
}

#[test]
fn misses_give_no_hit() {
    let scene = vec![None, Some(Roots::new(200, 300)), None];
    assert_eq!(nearest_hit(&scene, 1, 100), None);
}

#[test]
fn nearest_of_several_wins_wherever_it_stands() {
    let scene = vec![Some(Roots::new(50, 70)), None, Some(Roots::new(20, 90)), Some(Roots::new(30, 40))];
    assert_eq!(nearest_hit(&scene, 1, 100), Some(Hit { index: 2, t: 20 }));
    let reversed = vec![Some(Roots::new(30, 40)), Some(Roots::new(20, 90)), None, Some(Roots::new(50, 70))];
    assert_eq!(nearest_hit(&reversed, 1, 100), Some(Hit { index: 1, t: 20 }));
}

#[test]
fn equal_distances_go_to_the_first_scanned() {
    let scene = vec![Some(Roots::new(60, 80)), Some(Roots::new(40, 90)), Some(Roots::new(40, 45))];
    assert_eq!(nearest_hit(&scene, 1, 100), Some(Hit { index: 1, t: 40 }));
}

#[test]
fn inside_a_sphere_the_far_root_counts() {
    // The first sphere's near root lies behind the ray; its far root is
    // nearer than the second sphere's near root.
    let scene = vec![Some(Roots::new(0, 30)), Some(Roots::new(35, 60))];
    assert_eq!(nearest_hit(&scene, 1, 100), Some(Hit { index: 0, t: 30 }));
}

#[test]
fn hit_at_the_upper_bound_is_accepted() {
    let scene = vec![Some(Roots::new(100, 120))];
    assert_eq!(nearest_hit(&scene, 1, 100), Some(Hit { index: 0, t: 100 }));
}
