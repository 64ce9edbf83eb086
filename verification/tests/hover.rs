use bevy_hover::distance::Distance;
use bevy_hover::entity::EntityId;
use bevy_hover::hover::{update_hover_state, Hover, HoverEnd, HoverEvent, HoverStart, Hovered};
use bevy_hover::scan::Candidate;
use std::time::Duration;

const A: EntityId = EntityId(1);
const B: EntityId = EntityId(2);

fn start(e: EntityId) -> HoverEvent {
    HoverEvent::Start(HoverStart { hovered: e })
}

fn end(e: EntityId) -> HoverEvent {
    HoverEvent::End(HoverEnd { hovered: e })
}

fn at(seconds: f32) -> Option<Distance> {
    Distance::from_bits(seconds.to_bits())
}

#[test]
fn new_hover_reference_is_empty() {
    let hovered = Hovered::new();
    assert_eq!(hovered.inner, None);
    assert_eq!(hovered.hover, None);
}

#[test]
fn hover_sequence_a_then_b_then_nothing() {
    let mut hovered = Hovered::new();
    let tick1 = hovered.update(Some(A), Duration::from_millis(10));
    assert_eq!(tick1, vec![start(A)]);
    assert_eq!(hovered.inner, Some(A));
    let tick2 = hovered.update(Some(B), Duration::from_millis(20));
    assert_eq!(tick2, vec![end(A), start(B)]);
    assert_eq!(hovered.inner, Some(B));
    let tick3 = hovered.update(None, Duration::from_millis(30));
    assert_eq!(tick3, vec![end(B)]);
    assert_eq!(hovered.inner, None);
}

#[test]
fn hover_on_same_entity_is_silent() {
    let mut hovered = Hovered::new();
    hovered.update(Some(A), Duration::from_millis(10));
    let again = hovered.update(Some(A), Duration::from_millis(20));
    assert_eq!(again, vec![]);
    assert_eq!(hovered.inner, Some(A));
}

#[test]
fn idle_without_hit_stays_idle() {
    let mut hovered = Hovered::new();
    let events = hovered.update(None, Duration::from_millis(5));
    assert_eq!(events, vec![]);
    assert_eq!(hovered, Hovered::new());
}

#[test]
fn hover_record_keeps_the_time_the_hover_began() {
    let mut hovered = Hovered::new();
    hovered.update(Some(A), Duration::from_millis(10));
    assert_eq!(hovered.hover, Some(Hover { since: Duration::from_millis(10) }));
    hovered.update(Some(A), Duration::from_millis(20));
    assert_eq!(hovered.hover, Some(Hover { since: Duration::from_millis(10) }));
    hovered.update(Some(B), Duration::from_millis(30));
    assert_eq!(hovered.hover, Some(Hover { since: Duration::from_millis(30) }));
    hovered.update(None, Duration::from_millis(40));
    assert_eq!(hovered.hover, None);
}

#[test]
fn event_log_pairs_starts_with_ends() {
    let hits = vec![
        None,
        Some(A),
        Some(A),
        Some(B),
        None,
        None,
        Some(B),
        Some(A),
        Some(B),
        None,
        Some(A),
    ];
    let mut hovered = Hovered::new();
    let mut log: Vec<HoverEvent> = Vec::new();
    for (tick, hit) in hits.iter().enumerate() {
        let events = hovered.update(*hit, Duration::from_millis(tick as u64));
        assert!(events.len() <= 2);
        log.extend(events);
        assert_eq!(hovered.inner, *hit);
    }
    assert_eq!(
        log,
        vec![
            start(A),
            end(A),
            start(B),
            end(B),
            start(B),
            end(B),
            start(A),
            end(A),
            start(B),
            end(B),
            start(A),
        ]
    );
    for k in 0..log.len() {
        match log[k] {
            HoverEvent::Start(s) => {
                if k + 1 < log.len() {
                    assert_eq!(log[k + 1], end(s.hovered));
                } else {
                    assert_eq!(hovered.inner, Some(s.hovered));
                }
            }
            HoverEvent::End(e) => {
                assert!(k > 0);
                assert_eq!(log[k - 1], start(e.hovered));
            }
        }
    }
}

#[test]
fn tick_hovers_the_nearest_candidate() {
    let mut hovered = Hovered::new();
    let candidates = vec![
        Candidate { id: A, hit: at(4.0) },
        Candidate { id: B, hit: at(2.5) },
        Candidate { id: EntityId(3), hit: None },
    ];
    let events = update_hover_state(&mut hovered, &candidates, Duration::from_secs(1));
    assert_eq!(events, vec![start(B)]);
    assert_eq!(hovered.inner, Some(B));
    assert_eq!(hovered.hover, Some(Hover { since: Duration::from_secs(1) }));
}

#[test]
fn tick_changes_target_when_another_candidate_comes_nearer() {
    let mut hovered = Hovered::new();
    let far = vec![Candidate { id: A, hit: at(3.0) }, Candidate { id: B, hit: None }];
    update_hover_state(&mut hovered, &far, Duration::from_secs(1));
    let near = vec![Candidate { id: A, hit: at(3.0) }, Candidate { id: B, hit: at(1.0) }];
    let events = update_hover_state(&mut hovered, &near, Duration::from_secs(2));
    assert_eq!(events, vec![end(A), start(B)]);
    assert_eq!(hovered.inner, Some(B));
}

#[test]
fn tick_without_any_hit_ends_the_hover() {
    let mut hovered = Hovered::new();
    update_hover_state(&mut hovered, &vec![Candidate { id: A, hit: at(3.0) }], Duration::from_secs(1));
    let missed = vec![Candidate { id: A, hit: None }, Candidate { id: B, hit: None }];
    let events = update_hover_state(&mut hovered, &missed, Duration::from_secs(2));
    assert_eq!(events, vec![end(A)]);
    assert_eq!(hovered, Hovered::new());
    let none: Vec<Candidate> = Vec::new();
    assert_eq!(update_hover_state(&mut hovered, &none, Duration::from_secs(3)), vec![]);
}
