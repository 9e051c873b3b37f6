use bevy::time::{Timer, TimerMode};
use std::time::Duration;
use tower_defense::geometry::Vec2;
use tower_defense::sound::{console_beep, SoundEvent, SoundType};

#[test]
fn test_sound_event_creation() {
    let sound_event = SoundEvent {
        sound_type: SoundType::Shoot,
        position: Vec2::new(0, 0),
    };
    let timer = Timer::from_seconds(0.2, TimerMode::Once);

    assert!(matches!(sound_event.sound_type, SoundType::Shoot));
    assert_eq!(timer.duration().as_secs_f32(), 0.2);
    assert!(!timer.finished());
}

#[test]
fn test_sound_types() {
    let shoot = SoundType::Shoot;
    let death = SoundType::Death;
    let hit = SoundType::Hit;

    // Test that we can match on sound types
    match shoot {
        SoundType::Shoot => {}
        _ => panic!("Should match Shoot"),
    }

    match death {
        SoundType::Death => {}
        _ => panic!("Should match Death"),
    }

    match hit {
        SoundType::Hit => {}
        _ => panic!("Should match Hit"),
    }
}

#[test]
fn test_play_console_beep_coverage() {
    // Test that all sound types can be processed without panicking
    assert_eq!(console_beep(SoundType::Shoot), "\x07");
    assert_eq!(console_beep(SoundType::Death), "\x07\x07");
    assert_eq!(console_beep(SoundType::Hit), "\x07");

    // If we reach here, no panics occurred
}

#[test]
fn test_sound_event_timer() {
    let sound_event = SoundEvent {
        sound_type: SoundType::Hit,
        position: Vec2::new(0, 0),
    };
    let mut timer = Timer::from_seconds(0.1, TimerMode::Once);

    // Initially not finished
    assert!(!timer.finished());

    // Manually tick past duration
    timer.tick(Duration::from_secs_f32(0.2));

    // Should now be finished
    assert!(timer.finished());
    assert!(matches!(sound_event.sound_type, SoundType::Hit));
}

#[test]
fn test_sound_type_copy() {
    let original = SoundType::Shoot;
    let copied = original;

    // Both should work independently
    match original {
        SoundType::Shoot => {}
        _ => panic!("Original should match Shoot"),
    }

    match copied {
        SoundType::Shoot => {}
        _ => panic!("Copied should match Shoot"),
    }
}

#[test]
fn sound_events_compare_by_kind_and_place() {
    let a = SoundEvent { sound_type: SoundType::Hit, position: Vec2::new(1, 2) };
    assert_eq!(a, SoundEvent { sound_type: SoundType::Hit, position: Vec2::new(1, 2) });
    assert_ne!(a, SoundEvent { sound_type: SoundType::Death, position: Vec2::new(1, 2) });
    assert_ne!(a, SoundEvent { sound_type: SoundType::Hit, position: Vec2::new(2, 1) });
}
