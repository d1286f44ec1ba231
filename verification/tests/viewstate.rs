use photoviewer::viewstate::{ViewMode, ViewState, ONE, ZERO};

fn bits(x: f32) -> u32 {
    x.to_bits()
}

/// The scale that fits the image into the window.
fn fit_scale(vs: &ViewState) -> f32 {
    if !vs.has_area() {
        return 1.0;
    }
    let (nat_w, nat_h) = vs.natural();
    let (vp_w, vp_h) = vs.viewport();
    let across = f32::from_bits(vp_w) / f32::from_bits(nat_w);
    let down = f32::from_bits(vp_h) / f32::from_bits(nat_h);
    across.min(down)
}

fn scale(vs: &ViewState) -> f32 {
    f32::from_bits(vs.scale(bits(fit_scale(vs))))
}

fn zoom_by(vs: &mut ViewState, factor: f32) {
    let new = (scale(vs) * factor).clamp(0.05, 32.0);
    vs.zoom(bits(new), bits(0.0), bits(0.0));
}

#[test]
fn one_to_one_scale_is_1() {
    let mut vs = ViewState::new();
    vs.set_viewport(bits(800.0), bits(600.0));
    vs.load(bits(200.0), bits(300.0));
    vs.cycle_mode(); // Fit → OneToOne
    assert_eq!(scale(&vs), 1.0);
}

#[test]
fn cycle_mode_fit_to_onetoone_to_manual_to_fit_when_last_manual_some() {
    let mut vs = ViewState::new();
    vs.set_viewport(bits(400.0), bits(300.0));
    vs.load(bits(100.0), bits(100.0));

    // Establish a last_manual by zooming
    zoom_by(&mut vs, 2.0);
    let saved_scale = scale(&vs);
    assert_eq!(vs.mode(), ViewMode::Manual);

    // Reset to Fit
    vs.reset_fit();
    assert_eq!(vs.mode(), ViewMode::Fit);
    assert!(vs.last_manual().is_some());

    // Fit → OneToOne
    vs.cycle_mode();
    assert_eq!(vs.mode(), ViewMode::OneToOne);

    // OneToOne → Manual (restores last_manual)
    vs.cycle_mode();
    assert_eq!(vs.mode(), ViewMode::Manual);
    assert_eq!(scale(&vs), saved_scale);

    // Manual → Fit
    vs.cycle_mode();
    assert_eq!(vs.mode(), ViewMode::Fit);
}

#[test]
fn cycle_mode_skips_manual_when_last_manual_none() {
    let mut vs = ViewState::new();
    vs.set_viewport(bits(400.0), bits(300.0));
    vs.load(bits(100.0), bits(100.0));
    // No zoom yet: last_manual is None

    // Fit → OneToOne
    vs.cycle_mode();
    assert_eq!(vs.mode(), ViewMode::OneToOne);

    // OneToOne → Fit (skips Manual because last_manual is None)
    vs.cycle_mode();
    assert_eq!(vs.mode(), ViewMode::Fit);
}

#[test]
fn load_resets_mode_pan_and_last_manual() {
    let mut vs = ViewState::new();
    vs.set_viewport(bits(400.0), bits(400.0));
    vs.load(bits(100.0), bits(100.0));
    zoom_by(&mut vs, 2.0);
    vs.pan(bits(20.0), bits(30.0));
    assert_eq!(vs.pan_offset(), (bits(20.0), bits(30.0)));

    vs.load(bits(200.0), bits(200.0));
    assert_eq!(vs.mode(), ViewMode::Fit);
    assert_eq!(f32::from_bits(vs.pan_offset().0), 0.0);
    assert_eq!(f32::from_bits(vs.pan_offset().1), 0.0);
    assert!(vs.last_manual().is_none());
}

#[test]
fn set_natural_keeps_mode_and_recenters() {
    let mut vs = ViewState::new();
    vs.set_viewport(bits(400.0), bits(400.0));
    vs.load(bits(100.0), bits(100.0));
    zoom_by(&mut vs, 2.0); // Manual mode
    vs.pan(bits(10.0), bits(10.0));

    let mode_before = vs.mode();
    let scale_before = scale(&vs);

    vs.set_natural(bits(200.0), bits(200.0));
    assert_eq!(vs.mode(), mode_before);
    assert_eq!(scale(&vs), scale_before);
    assert_eq!(f32::from_bits(vs.pan_offset().0), 0.0);
    assert_eq!(f32::from_bits(vs.pan_offset().1), 0.0);
    assert_eq!(vs.natural(), (bits(200.0), bits(200.0)));
}

#[test]
fn a_new_view_fits_and_is_centered() {
    let vs = ViewState::default();
    assert_eq!(vs.mode(), ViewMode::Fit);
    assert_eq!(vs.natural(), (ZERO, ZERO));
    assert_eq!(vs.viewport(), (ZERO, ZERO));
    assert_eq!(vs.pan_offset(), (ZERO, ZERO));
    assert_eq!(vs.last_manual(), None);
    assert_eq!(f32::from_bits(ONE), 1.0);
    assert_eq!(f32::from_bits(ZERO), 0.0);
    assert_eq!(scale(&vs), 1.0);
}

#[test]
fn viewport_resets_the_pan_only() {
    let mut vs = ViewState::new();
    vs.load(bits(100.0), bits(100.0));
    vs.zoom(bits(3.0), bits(5.0), bits(6.0));
    assert_eq!(vs.pan_offset(), (bits(5.0), bits(6.0)));
    vs.set_viewport(bits(10.0), bits(20.0));
    assert_eq!(vs.pan_offset(), (ZERO, ZERO));
    assert_eq!(vs.viewport(), (bits(10.0), bits(20.0)));
    assert_eq!(vs.mode(), ViewMode::Manual);
    assert_eq!(scale(&vs), 3.0);
}

#[test]
fn loading_forgets_the_manual_zoom() {
    let mut vs = ViewState::new();
    vs.zoom(bits(3.0), ZERO, ZERO);
    vs.load(bits(1.0), bits(1.0));
    for _ in 0..4 {
        vs.cycle_mode();
        assert_ne!(vs.mode(), ViewMode::Manual);
    }
}

#[test]
fn area_follows_the_comparison_with_zero() {
    let samples = [
        1.0f32, 0.0, -0.0, -1.0, f32::INFINITY, f32::NEG_INFINITY, f32::NAN, -f32::NAN, f32::MIN_POSITIVE, 1e-45, -1e-45,
    ];
    for w in samples {
        for h in samples {
            let mut vs = ViewState::new();
            vs.set_viewport(bits(w), bits(10.0));
            vs.load(bits(10.0), bits(h));
            assert_eq!(vs.has_area(), !(w <= 0.0 || h <= 0.0), "{w} {h}");
        }
    }
}

#[test]
fn a_loaded_view_behaves_like_a_fresh_one() {
    let mut used = ViewState::new();
    used.set_viewport(bits(400.0), bits(300.0));
    used.load(bits(100.0), bits(100.0));
    zoom_by(&mut used, 3.0);
    used.pan(bits(5.0), bits(-5.0));
    used.load(bits(200.0), bits(50.0));

    let mut fresh = ViewState::new();
    fresh.set_viewport(bits(400.0), bits(300.0));
    fresh.load(bits(200.0), bits(50.0));

    let calls: [fn(&mut ViewState); 7] = [
        |_| {},
        |vs| vs.cycle_mode(),
        |vs| vs.cycle_mode(),
        |vs| zoom_by(vs, 2.0),
        |vs| vs.set_natural(bits(50.0), bits(200.0)),
        |vs| vs.reset_fit(),
        |vs| vs.cycle_mode(),
    ];
    for call in calls {
        call(&mut used);
        call(&mut fresh);
        assert_eq!(used.mode(), fresh.mode());
        assert_eq!(scale(&used), scale(&fresh));
        assert_eq!(used.natural(), fresh.natural());
        assert_eq!(used.viewport(), fresh.viewport());
        assert_eq!(used.pan_offset(), fresh.pan_offset());
        assert_eq!(used.last_manual(), fresh.last_manual());
    }
}

#[test]
fn only_zoom_and_load_change_the_remembered_zoom() {
    let mut vs = ViewState::new();
    vs.zoom(bits(2.0), ZERO, ZERO);
    vs.zoom(bits(3.0), ZERO, ZERO);
    vs.set_viewport(bits(10.0), bits(10.0));
    vs.set_natural(bits(5.0), bits(5.0));
    vs.pan(bits(1.0), bits(1.0));
    vs.reset_fit();
    vs.cycle_mode();
    assert_eq!(vs.last_manual(), Some(bits(3.0)));
    vs.load(bits(5.0), bits(5.0));
    assert_eq!(vs.last_manual(), None);
}
