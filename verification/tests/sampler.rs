use emergency_backup::configuration::shapes_with_config;
use emergency_backup::confirmation_gui::ConfirmationGui;
use emergency_backup::geometry::Point;
use emergency_backup::sampler::{PointerSample, Sampler, StepOutcome};
use emergency_backup::shape::Shape;
use emergency_backup::template::{build_template_set, cancel_template, circle_template};

/// The template's own path, scaled up and recentred, as a stream of
/// pointer readings.
fn replay(path: &[Point], factor: i32, cx: i32, cy: i32) -> Vec<PointerSample> {
    path.iter()
        .map(|p| PointerSample::Position { x: p.x * factor + cx, y: p.y * factor + cy })
        .collect()
}

#[test]
fn test_no_attempt_before_buffer_full() {
    let shapes = shapes_with_config(true, false, false);
    let mut sampler = Sampler::new(build_template_set(&shapes));
    let circle = circle_template(200, 100, false);
    let samples = replay(&circle.path, 5, 960, 540);
    for (i, s) in samples.iter().enumerate().take(199) {
        let outcome = sampler.step(false, *s);
        assert_eq!(outcome, StepOutcome::Sampling);
        assert_eq!(sampler.match_attempts, 0, "matcher ran on a partial buffer at step {}", i);
    }
    // the two hundredth sample fills the window; only now may the matcher run
    let outcome = sampler.step(false, samples[199]);
    assert_eq!(sampler.match_attempts, 1);
    assert_eq!(outcome, StepOutcome::Recognized(Shape::Circle));
}

#[test]
fn test_stationary_pointer_never_matched() {
    let shapes = shapes_with_config(true, true, true);
    let mut sampler = Sampler::new(build_template_set(&shapes));
    for _ in 0..200 {
        let outcome = sampler.step(false, PointerSample::Position { x: 500, y: 500 });
        assert_eq!(outcome, StepOutcome::Sampling);
    }
    assert_eq!(sampler.match_attempts, 0);
}

#[test]
fn test_cancellation_wins_immediately() {
    let shapes = shapes_with_config(true, false, false);
    let mut sampler = Sampler::new(build_template_set(&shapes));
    for _ in 0..10 {
        sampler.step(false, PointerSample::Position { x: 100, y: 100 });
    }
    let buffered = sampler.buffer.len();
    let outcome = sampler.step(true, PointerSample::Position { x: 101, y: 101 });
    assert_eq!(outcome, StepOutcome::Cancelled);
    assert_eq!(sampler.buffer.len(), buffered);
    assert_eq!(sampler.match_attempts, 0);
}

#[test]
fn test_device_error_ends_phase() {
    let shapes = shapes_with_config(false, true, false);
    let mut sampler = Sampler::new(build_template_set(&shapes));
    sampler.step(false, PointerSample::Position { x: 1, y: 2 });
    let outcome = sampler.step(false, PointerSample::Error);
    assert_eq!(outcome, StepOutcome::DeviceError);
}

#[test]
fn test_window_slides_on_no_match() {
    let shapes = shapes_with_config(true, false, false);
    let mut sampler = Sampler::new(build_template_set(&shapes));
    // a long diagonal first: it fills the window but matches nothing
    for i in 0..100 {
        let outcome = sampler.step(false, PointerSample::Position { x: 10 * i, y: 17 * i });
        assert_eq!(outcome, StepOutcome::Sampling);
    }
    // now replay the circle; once it owns the whole window it is found
    let circle = circle_template(200, 100, false);
    let samples = replay(&circle.path, 5, 960, 540);
    let mut recognized = None;
    for (i, s) in samples.iter().enumerate() {
        match sampler.step(false, *s) {
            StepOutcome::Recognized(shape) => {
                recognized = Some((i, shape));
                break;
            }
            StepOutcome::Sampling => {}
            other => panic!("unexpected outcome {:?}", other),
        }
    }
    let (when, shape) = recognized.expect("the circle was never recognized");
    assert_eq!(shape, Shape::Circle);
    // at least a full window had to pass since the diagonal prefix
    assert!(when >= 99);
    // after recognition the window starts over
    assert_eq!(sampler.buffer.len(), 0);
}

#[test]
fn test_end_to_end_trigger_and_confirmation() {
    // configured symbols: circle and square
    let shapes = shapes_with_config(true, true, false);
    assert_eq!(shapes, vec![Shape::Circle, Shape::Square]);

    // trigger phase: live input replays the canonical circle, scaled by
    // five in both axes and recentred at the live cursor's origin
    let mut sampler = Sampler::new(build_template_set(&shapes));
    let circle = circle_template(200, 100, false);
    let samples = replay(&circle.path, 5, 960, 540);
    let mut outcome = StepOutcome::Sampling;
    for s in &samples {
        outcome = sampler.step(false, *s);
        if outcome != StepOutcome::Sampling {
            break;
        }
    }
    assert_eq!(outcome, StepOutcome::Recognized(Shape::Circle));

    // confirmation phase: replaying the same points confirms
    let mut gui = ConfirmationGui::new(Shape::Circle, Shape::Cross);
    let mut sampler = Sampler::new(gui.confirmation_templates());
    let mut outcome = StepOutcome::Sampling;
    for s in &samples {
        outcome = sampler.step(false, *s);
        if outcome != StepOutcome::Sampling {
            break;
        }
    }
    assert_eq!(outcome, StepOutcome::Recognized(Shape::Circle));
    let recognition = match outcome {
        StepOutcome::Recognized(s) => Some(s),
        _ => None,
    };
    gui.resolve(recognition);
    assert_eq!(gui.status, Some(true));

    // replaying the cancel gesture instead aborts; the cross is a small
    // figure, so it is scaled further to clear the movement gate
    let mut gui = ConfirmationGui::new(Shape::Circle, Shape::Cross);
    let mut sampler = Sampler::new(gui.confirmation_templates());
    let cancel = cancel_template(200, 100, false);
    let cancel_samples = replay(&cancel.path, 20, 960, 540);
    let mut outcome = StepOutcome::Sampling;
    for s in &cancel_samples {
        outcome = sampler.step(false, *s);
        if outcome != StepOutcome::Sampling {
            break;
        }
    }
    assert_eq!(outcome, StepOutcome::Recognized(Shape::Cross));
    let recognition = match outcome {
        StepOutcome::Recognized(s) => Some(s),
        _ => None,
    };
    gui.resolve(recognition);
    assert_eq!(gui.status, Some(false));
}

#[test]
fn test_confirmation_outcomes() {
    // device error or external cancellation: not confirmed
    let mut gui = ConfirmationGui::new(Shape::Square, Shape::Cross);
    gui.resolve(None);
    assert_eq!(gui.status, Some(false));

    // the cancel symbol: not confirmed
    let mut gui = ConfirmationGui::new(Shape::Square, Shape::Cross);
    gui.resolve(Some(Shape::Cross));
    assert_eq!(gui.status, Some(false));

    // a different shape: not confirmed
    let mut gui = ConfirmationGui::new(Shape::Square, Shape::Cross);
    gui.resolve(Some(Shape::Circle));
    assert_eq!(gui.status, Some(false));

    // the same symbol: confirmed
    let mut gui = ConfirmationGui::new(Shape::Square, Shape::Cross);
    gui.resolve(Some(Shape::Square));
    assert_eq!(gui.status, Some(true));
}

#[test]
fn test_window_close_defaults_to_not_confirmed() {
    let mut gui = ConfirmationGui::new(Shape::Circle, Shape::Cross);
    assert_eq!(gui.status, None);
    gui.window_closed();
    assert_eq!(gui.status, Some(false));

    // a published outcome survives the window closing
    let mut gui = ConfirmationGui::new(Shape::Circle, Shape::Cross);
    gui.resolve(Some(Shape::Circle));
    gui.window_closed();
    assert_eq!(gui.status, Some(true));
}
