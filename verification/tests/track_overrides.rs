use event_timers::config::{build_track_overrides, default_index};
use event_timers::overrides::{OverrideTable, TrackOverride, TrackVisualConfig};
use event_timers::tracks::{EventTrack, FloatBits, TimelineEvent};

fn bits(x: f32) -> FloatBits {
    FloatBits(x.to_bits())
}

fn value(b: FloatBits) -> f32 {
    f32::from_bits(b.0)
}

fn track(name: &str) -> EventTrack {
    EventTrack {
        name: name.to_string(),
        events: vec![
            TimelineEvent {
                name: "Event A".to_string(),
                ..TimelineEvent::default()
            },
            TimelineEvent {
                name: "Event B".to_string(),
                ..TimelineEvent::default()
            },
        ],
        ..EventTrack::default()
    }
}

fn visual_override(padding: f32) -> TrackOverride {
    TrackOverride {
        visual: Some(TrackVisualConfig {
            padding: bits(padding),
            ..TrackVisualConfig::default()
        }),
        ..TrackOverride::default()
    }
}

/// Whether each live track's height moved more than 0.1 away from the
/// height of the default track it is compared with.
fn heights_differ(live: &Vec<EventTrack>, defaults: &Vec<EventTrack>) -> Vec<bool> {
    live.iter()
        .map(|t| match default_index(defaults, &t.name) {
            Some(j) => (value(t.height) - value(defaults[j].height)).abs() > 0.1,
            None => false,
        })
        .collect()
}

fn build(
    live: &Vec<EventTrack>,
    defaults: &Vec<EventTrack>,
    previous: &OverrideTable,
) -> (OverrideTable, Vec<EventTrack>) {
    build_track_overrides(live, defaults, previous, &heights_differ(live, defaults))
}

fn table_of(entries: Vec<(&str, TrackOverride)>) -> OverrideTable {
    let mut t = OverrideTable::new();
    for (name, data) in entries {
        t.insert(name.to_string(), data);
    }
    t
}

#[test]
fn unchanged_track_produces_no_override() {
    let defaults = vec![track("Bosses")];
    let (overrides, custom) = build(&defaults, &defaults, &OverrideTable::new());
    assert!(overrides.is_empty());
    assert!(custom.is_empty());
}

#[test]
fn visibility_height_and_disabled_events_are_diffed() {
    let defaults = vec![track("Bosses")];
    let mut live = track("Bosses");
    live.visible = false;
    live.height = bits(55.0);
    live.events[1].enabled = false;

    let (overrides, custom) = build(&vec![live], &defaults, &OverrideTable::new());

    assert!(custom.is_empty());
    let data = overrides.get(&"Bosses".to_string()).unwrap();
    assert_eq!(data.visible, Some(false));
    assert_eq!(data.height.map(value), Some(55.0));
    assert_eq!(data.disabled_events, ["Event B"]);
    assert!(data.visual.is_none());
}

#[test]
fn non_default_track_becomes_custom() {
    let defaults = vec![track("Bosses")];
    let live = vec![track("Bosses"), track("My Custom")];

    let (overrides, custom) = build(&live, &defaults, &OverrideTable::new());

    assert!(overrides.is_empty());
    assert_eq!(custom.len(), 1);
    assert_eq!(custom[0].name, "My Custom");
}

/// Saving must not rebuild overrides with `visual: None`: that destroyed
/// hand-edited visual overrides on every clean unload.
#[test]
fn hand_edited_visual_override_survives_rebuild() {
    let defaults = vec![track("Bosses")];
    let mut live = track("Bosses");
    live.height = bits(60.0);
    let previous = table_of(vec![("Bosses", visual_override(2.0))]);

    let (overrides, _) = build(&vec![live], &defaults, &previous);

    let data = overrides.get(&"Bosses".to_string()).unwrap();
    assert_eq!(data.height.map(value), Some(60.0));
    let visual = data.visual.as_ref().expect("visual override preserved");
    assert_eq!(value(visual.padding), 2.0);
}

/// A track whose only customization is a visual override must still be
/// persisted; treating it as "no changes" would also drop the visual.
#[test]
fn visual_only_override_is_kept() {
    let defaults = vec![track("Bosses")];
    let previous = table_of(vec![("Bosses", visual_override(7.5))]);

    let (overrides, _) = build(&defaults, &defaults, &previous);

    let visual = overrides.get(&"Bosses".to_string()).unwrap().visual.as_ref().expect("kept");
    assert_eq!(value(visual.padding), 7.5);
}

#[test]
fn stale_previous_override_for_unchanged_track_without_visual_is_dropped() {
    let defaults = vec![track("Bosses")];
    let previous = table_of(vec![(
        "Bosses",
        TrackOverride {
            visible: Some(false),
            ..TrackOverride::default()
        },
    )]);

    // The live track matches defaults again, so only a visual (which lives
    // nowhere else) would justify keeping an entry.
    let (overrides, _) = build(&defaults, &defaults, &previous);
    assert!(overrides.is_empty());
}

#[test]
fn height_within_tolerance_is_not_an_override() {
    let defaults = vec![track("Bosses")];
    let mut live = track("Bosses");
    live.height = bits(40.05);
    let (overrides, custom) = build(&vec![live], &defaults, &OverrideTable::new());
    assert!(overrides.is_empty());
    assert!(custom.is_empty());
}

#[test]
fn later_default_of_a_name_is_the_one_compared() {
    let mut first = track("Bosses");
    first.visible = false;
    let second = track("Bosses");
    let defaults = vec![first, second];
    assert_eq!(default_index(&defaults, &"Bosses".to_string()), Some(1));
    assert_eq!(default_index(&defaults, &"Other".to_string()), None);
    // The live track matches the later default, so nothing is recorded.
    let (overrides, _) = build(&vec![track("Bosses")], &defaults, &OverrideTable::new());
    assert!(overrides.is_empty());
}

#[test]
fn previous_override_of_a_custom_track_is_not_kept() {
    let defaults = vec![track("Bosses")];
    let previous = table_of(vec![("Mine", visual_override(3.0))]);
    let (overrides, custom) = build(&vec![track("Mine")], &defaults, &previous);
    assert!(overrides.is_empty());
    assert_eq!(custom.len(), 1);
    assert_eq!(custom[0].name, "Mine");
}
