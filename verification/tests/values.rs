use std::collections::HashSet;
use event_timers::event_id::TrackedEventId;
use event_timers::options::{LabelColumnPosition, TextAlignment, TimeRulerInterval, ToastPosition};
use event_timers::overrides::{TrackOverride, TrackVisualConfig};
use event_timers::tracks::{EventColor, EventTrack, FloatBits, TimelineEvent, TimelineType};

fn value(b: FloatBits) -> f32 {
    f32::from_bits(b.0)
}

#[test]
fn tracked_event_id_display_name() {
    let id = TrackedEventId::new("World Bosses", "Shadow Behemoth");
    assert_eq!(id.track_name, "World Bosses");
    assert_eq!(id.event_name, "Shadow Behemoth");
    assert_eq!(id.display_name(), "World Bosses: Shadow Behemoth");
    assert_eq!(TrackedEventId::new("", "").display_name(), ": ");
}

#[test]
fn tracked_event_id_equality_and_hash() {
    let a = TrackedEventId::new("T", "E");
    let b = a.clone();
    assert!(a == b);
    assert!(a != TrackedEventId::new("T", "F"));
    assert!(a != TrackedEventId::new("U", "E"));
    let set: HashSet<TrackedEventId> = [a, b, TrackedEventId::new("T", "F")].into_iter().collect();
    assert_eq!(set.len(), 2);
}

#[test]
fn time_ruler_intervals() {
    let all = TimeRulerInterval::all();
    let seconds: Vec<i64> = all.iter().map(|i| i.as_seconds()).collect();
    assert_eq!(seconds, [300, 600, 900, 1200, 1800, 3600]);
    let labels: Vec<&str> = all.iter().map(|i| i.label()).collect();
    assert_eq!(labels, ["5 min", "10 min", "15 min", "20 min", "30 min", "60 min"]);
    assert_eq!(TimeRulerInterval::default(), TimeRulerInterval::Minutes5);
}

#[test]
fn enum_defaults() {
    assert_eq!(ToastPosition::default(), ToastPosition::TopRight);
    assert_eq!(TextAlignment::default(), TextAlignment::Center);
    assert_eq!(LabelColumnPosition::default(), LabelColumnPosition::Hidden);
}

#[test]
fn track_and_event_defaults() {
    let e = TimelineEvent::default();
    assert_eq!(e.name, "New Event");
    assert_eq!((e.start_offset, e.duration, e.cycle_duration), (0, 300, 7200));
    assert!(e.enabled);
    assert!(e.copy_text.is_empty());
    let c = e.color.to_array().map(value);
    assert_eq!(c, [0.2, 0.6, 0.8, 1.0]);

    let t = EventTrack::default();
    assert_eq!(t.name, "New Track");
    assert_eq!(t.timeline_type, TimelineType::GameTime);
    assert!(t.events.is_empty());
    assert!(t.visible);
    assert_eq!(value(t.height), 40.0);
    assert!(t.category.is_empty());

    let v = TrackVisualConfig::default();
    assert_eq!(v.background_color.map(value), [0.2, 0.2, 0.2, 1.0]);
    assert_eq!(value(v.padding), 5.0);

    let o = TrackOverride::default();
    assert!(o.visible.is_none() && o.height.is_none() && o.visual.is_none());
    assert!(o.disabled_events.is_empty());
}

#[test]
fn color_array_roundtrip() {
    let arr = [1.0f32, 0.5, 0.25, 0.0].map(|x| FloatBits(x.to_bits()));
    let c = EventColor::from_array(arr);
    assert_eq!(value(c.r), 1.0);
    assert_eq!(value(c.a), 0.0);
    assert_eq!(c.to_array(), arr);
}

#[test]
fn track_clone_keeps_every_field() {
    let mut t = EventTrack::default();
    t.category = "Core".to_string();
    t.events.push(TimelineEvent { copy_text: "/wp".to_string(), ..TimelineEvent::default() });
    let c = t.clone();
    assert_eq!(c.category, "Core");
    assert_eq!(c.events.len(), 1);
    assert_eq!(c.events[0].copy_text, "/wp");
}
