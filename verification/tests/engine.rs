use debounce::{Change, Debounce, State};

fn feed(engine: &mut Debounce, sample: State, times: usize) -> Vec<Change> {
    let mut changes = Vec::new();
    for _ in 0..times {
        changes.push(engine.update(sample));
    }
    changes
}

#[test]
fn returns_change() {
    let mut debounce: Debounce = Debounce::new(3);

    assert_eq!(Change::NoChange(State::Released), debounce.update(State::Touched));
    assert_eq!(Change::NoChange(State::Released), debounce.update(State::Touched));
    assert_eq!(Change::Touch, debounce.update(State::Touched));
    assert_eq!(Change::NoChange(State::Touched), debounce.update(State::Touched));

    assert_eq!(Change::NoChange(State::Touched), debounce.update(State::Released));
    assert_eq!(Change::NoChange(State::Touched), debounce.update(State::Released));
    assert_eq!(Change::Release, debounce.update(State::Released));
    assert_eq!(Change::NoChange(State::Released), debounce.update(State::Released));
}

#[test]
fn new_engine_is_released() {
    assert_eq!(Debounce::new(1).state(), State::Released);
    assert_eq!(Debounce::new(4).state(), State::Released);
    assert_eq!(Debounce::new(usize::MAX).state(), State::Released);
}

#[test]
fn agreeing_samples_change_nothing() {
    let mut engine = Debounce::new(3);
    for _ in 0..10 {
        assert_eq!(engine.update(State::Released), Change::NoChange(State::Released));
        assert_eq!(engine.state(), State::Released);
    }
    // No progress was hidden away: a full run is still needed.
    assert_eq!(
        feed(&mut engine, State::Touched, 3),
        vec![
            Change::NoChange(State::Released),
            Change::NoChange(State::Released),
            Change::Touch
        ]
    );
    for _ in 0..10 {
        assert_eq!(engine.update(State::Touched), Change::NoChange(State::Touched));
        assert_eq!(engine.state(), State::Touched);
    }
}

#[test]
fn agreeing_sample_clears_a_run_in_progress() {
    let mut engine = Debounce::new(2);
    assert_eq!(engine.update(State::Touched), Change::NoChange(State::Released));
    assert_eq!(engine.update(State::Released), Change::NoChange(State::Released));
    assert_eq!(engine.update(State::Touched), Change::NoChange(State::Released));
    assert_eq!(engine.state(), State::Released);
    assert_eq!(engine.update(State::Touched), Change::Touch);
}

#[test]
fn transition_fires_on_exactly_the_threshold() {
    for threshold in 1..=6usize {
        let mut engine = Debounce::new(threshold);
        for _ in 0..threshold - 1 {
            assert_eq!(engine.update(State::Touched), Change::NoChange(State::Released));
            assert_eq!(engine.state(), State::Released);
        }
        assert_eq!(engine.update(State::Touched), Change::Touch);
        assert_eq!(engine.state(), State::Touched);
    }
}

#[test]
fn interrupted_run_starts_over() {
    let threshold = 5usize;
    for k in 0..threshold {
        let mut engine = Debounce::new(threshold);
        assert_eq!(
            feed(&mut engine, State::Touched, k),
            vec![Change::NoChange(State::Released); k]
        );
        assert_eq!(engine.update(State::Released), Change::NoChange(State::Released));
        assert_eq!(
            feed(&mut engine, State::Touched, threshold - 1),
            vec![Change::NoChange(State::Released); threshold - 1]
        );
        assert_eq!(engine.state(), State::Released);
        assert_eq!(engine.update(State::Touched), Change::Touch);
        assert_eq!(engine.state(), State::Touched);
    }
}

#[test]
fn transitions_go_both_ways() {
    let threshold = 4usize;
    let mut engine = Debounce::new(threshold);
    for _ in 0..3 {
        assert_eq!(
            feed(&mut engine, State::Touched, threshold),
            vec![
                Change::NoChange(State::Released),
                Change::NoChange(State::Released),
                Change::NoChange(State::Released),
                Change::Touch
            ]
        );
        assert_eq!(engine.state(), State::Touched);
        assert_eq!(
            feed(&mut engine, State::Released, threshold),
            vec![
                Change::NoChange(State::Touched),
                Change::NoChange(State::Touched),
                Change::NoChange(State::Touched),
                Change::Release
            ]
        );
        assert_eq!(engine.state(), State::Released);
    }
}

#[test]
fn transition_does_not_fire_twice() {
    let mut engine = Debounce::new(3);
    feed(&mut engine, State::Touched, 2);
    assert_eq!(engine.update(State::Touched), Change::Touch);
    assert_eq!(engine.state(), State::Touched);
    assert_eq!(engine.update(State::Touched), Change::NoChange(State::Touched));
    // The run was cleared by the transition: going back takes a full run.
    assert_eq!(engine.update(State::Released), Change::NoChange(State::Touched));
    assert_eq!(engine.update(State::Released), Change::NoChange(State::Touched));
    assert_eq!(engine.state(), State::Touched);
    assert_eq!(engine.update(State::Released), Change::Release);
    assert_eq!(engine.state(), State::Released);
}

#[test]
fn threshold_one_passes_every_change_through() {
    let mut engine = Debounce::new(1);
    assert_eq!(engine.update(State::Released), Change::NoChange(State::Released));
    assert_eq!(engine.update(State::Touched), Change::Touch);
    assert_eq!(engine.state(), State::Touched);
    assert_eq!(engine.update(State::Touched), Change::NoChange(State::Touched));
    assert_eq!(engine.update(State::Released), Change::Release);
    assert_eq!(engine.state(), State::Released);
    assert_eq!(engine.update(State::Touched), Change::Touch);
    assert_eq!(engine.update(State::Released), Change::Release);
}

#[test]
fn alternating_noise_never_commits() {
    let mut engine = Debounce::new(2);
    for _ in 0..100 {
        assert_eq!(engine.update(State::Touched), Change::NoChange(State::Released));
        assert_eq!(engine.update(State::Released), Change::NoChange(State::Released));
    }
    assert_eq!(engine.state(), State::Released);
}

#[test]
fn engines_are_independent() {
    let mut first = Debounce::new(2);
    let mut second = Debounce::new(2);
    assert_eq!(first.update(State::Touched), Change::NoChange(State::Released));
    assert_eq!(second.update(State::Touched), Change::NoChange(State::Released));
    assert_eq!(first.update(State::Touched), Change::Touch);
    assert_eq!(second.state(), State::Released);
    assert_eq!(second.update(State::Released), Change::NoChange(State::Released));
    assert_eq!(second.update(State::Touched), Change::NoChange(State::Released));
}
