use ray_tracer::integrator::{after, begin, Ending, Interaction, Step};

#[test]
fn no_depth_is_black() {
    assert_eq!(begin(0), Step::End(Ending::Black));
    assert_eq!(begin(-3), Step::End(Ending::Black));
    for found in [Interaction::Missed, Interaction::Absorbed, Interaction::Scattered] {
        assert_eq!(after(0, found), Step::End(Ending::Black));
    }
}

#[test]
fn positive_depth_traces() {
    assert_eq!(begin(50), Step::Trace { depth: 50 });
}

#[test]
fn miss_ends_in_the_sky() {
    assert_eq!(after(3, Interaction::Missed), Step::End(Ending::Sky));
}

#[test]
fn absorption_ends_black() {
    assert_eq!(after(3, Interaction::Absorbed), Step::End(Ending::Black));
}

#[test]
fn scattering_spends_one_bounce() {
    assert_eq!(after(3, Interaction::Scattered), Step::Trace { depth: 2 });
    assert_eq!(after(1, Interaction::Scattered), Step::End(Ending::Black));
}

#[test]
fn depth_one_path_sees_sky_or_black() {
    // With one bounce, a ray that misses shows the sky; one that scatters
    // has no bounce left for the scattered ray.
    let Step::Trace { depth } = begin(1) else { panic!("a path with one bounce traces") };
    assert_eq!(after(depth, Interaction::Missed), Step::End(Ending::Sky));
    assert_eq!(after(depth, Interaction::Scattered), Step::End(Ending::Black));
}

#[test]
fn a_scattering_path_ends_after_its_depth() {
    let mut step = begin(5);
    let mut traced = 0;
    while let Step::Trace { depth } = step {
        traced += 1;
        step = after(depth, Interaction::Scattered);
    }
    assert_eq!(traced, 5);
    assert_eq!(step, Step::End(Ending::Black));
}
