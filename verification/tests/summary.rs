use plentra::summary::{retro_next, FuelLookup, RetroEvent, RetroStep};

fn served(step: &RetroStep) -> Option<(String, Option<String>, bool)> {
    match step {
        RetroStep::Serve { text, generated_at, stale } => Some((text.clone(), generated_at.clone(), *stale)),
        _ => None,
    }
}

#[test]
fn fresh_cache_is_served_as_is() {
    let s = retro_next(
        RetroStep::LookupFresh,
        RetroEvent::Fresh(Some(("March was calm.".to_string(), Some("2026-03-28T10:00:00Z".to_string())))),
    );
    assert_eq!(served(&s), Some(("March was calm.".to_string(), Some("2026-03-28T10:00:00Z".to_string()), false)));
}

#[test]
fn generated_text_is_stored_then_served() {
    let mut s = retro_next(RetroStep::LookupFresh, RetroEvent::Fresh(None));
    assert!(matches!(s, RetroStep::CheckKey));
    s = retro_next(s, RetroEvent::Key(Some("sk-key".to_string())));
    assert!(matches!(s, RetroStep::ResolveFuel));
    s = retro_next(s, RetroEvent::Fuel(FuelLookup::FromDatabase));
    assert!(matches!(s, RetroStep::Generate));
    s = retro_next(s, RetroEvent::Generated(Some(("Gas fell.".to_string(), "t1".to_string()))));
    assert!(matches!(s, RetroStep::Store { .. }));
    s = retro_next(s, RetroEvent::Stored);
    assert_eq!(served(&s), Some(("Gas fell.".to_string(), Some("t1".to_string()), false)));
}

#[test]
fn missing_key_falls_back_to_stale_then_database() {
    let s = retro_next(RetroStep::CheckKey, RetroEvent::Key(Some(String::new())));
    assert!(matches!(s, RetroStep::LookupStale));
    let s = retro_next(s, RetroEvent::Stale(None));
    assert!(matches!(s, RetroStep::LookupDatabase));
    let s2 = retro_next(s, RetroEvent::Database(Some("Old text".to_string())));
    assert_eq!(served(&s2), Some(("Old text".to_string(), None, true)));
    let s3 = retro_next(RetroStep::LookupDatabase, RetroEvent::Database(Some(String::new())));
    assert!(matches!(s3, RetroStep::GiveUp));
    let s4 = retro_next(RetroStep::LookupDatabase, RetroEvent::Database(None));
    assert!(matches!(s4, RetroStep::GiveUp));
}

#[test]
fn fuel_outcomes_pick_their_fallback() {
    assert!(matches!(retro_next(RetroStep::ResolveFuel, RetroEvent::Fuel(FuelLookup::Given)), RetroStep::Generate));
    assert!(matches!(
        retro_next(RetroStep::ResolveFuel, RetroEvent::Fuel(FuelLookup::Unreadable)),
        RetroStep::LookupDatabase
    ));
    assert!(matches!(retro_next(RetroStep::ResolveFuel, RetroEvent::Fuel(FuelLookup::Missing)), RetroStep::LookupStale));
    assert!(matches!(retro_next(RetroStep::ResolveFuel, RetroEvent::Fuel(FuelLookup::NoDatabase)), RetroStep::GiveUp));
}

#[test]
fn failed_generation_serves_stale_text() {
    let s = retro_next(RetroStep::Generate, RetroEvent::Generated(None));
    assert!(matches!(s, RetroStep::LookupStale));
    let s = retro_next(s, RetroEvent::Stale(Some(("Yesterday".to_string(), None))));
    assert_eq!(served(&s), Some(("Yesterday".to_string(), None, true)));
}

#[test]
fn unrelated_event_leaves_step_unchanged() {
    assert!(matches!(retro_next(RetroStep::Generate, RetroEvent::Stored), RetroStep::Generate));
    assert!(matches!(retro_next(RetroStep::GiveUp, RetroEvent::Stored), RetroStep::GiveUp));
}
