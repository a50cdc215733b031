use event_timers::config::{
    apply_user_overrides, build_track_overrides, clean_custom_tracks, extract_user_overrides,
    get_track_visual_config, RuntimeConfig, UserConfig,
};
use event_timers::overrides::{OverrideTable, TrackOverride, TrackVisualConfig};
use event_timers::tracks::{EventTrack, FloatBits, TimelineEvent};

fn bits(x: f32) -> FloatBits {
    FloatBits(x.to_bits())
}

fn track(name: &str, events: &[&str]) -> EventTrack {
    EventTrack {
        name: name.to_string(),
        events: events
            .iter()
            .map(|e| TimelineEvent {
                name: e.to_string(),
                ..TimelineEvent::default()
            })
            .collect(),
        ..EventTrack::default()
    }
}

fn names(tracks: &[EventTrack]) -> Vec<String> {
    tracks.iter().map(|t| t.name.clone()).collect()
}

#[derive(Clone, Debug, PartialEq)]
struct Settings {
    locked: bool,
}

#[test]
fn cleanup_drops_duplicate_and_default_named_custom_tracks() {
    let defaults = vec![track("Bosses", &[]), track("Meta", &[])];
    let custom = vec![
        track("Mine", &["x"]),
        track("Bosses", &[]),
        track("Mine", &["y"]),
        track("Other", &[]),
    ];
    let cleaned = clean_custom_tracks(&custom, &defaults);
    assert_eq!(names(&cleaned), ["Mine", "Other"]);
    // The first track of a name is the one kept.
    assert_eq!(cleaned[0].events[0].name, "x");
}

#[test]
fn apply_merges_overrides_and_custom_tracks() {
    let mut overrides = OverrideTable::new();
    overrides.insert(
        "Bosses".to_string(),
        TrackOverride {
            visible: Some(false),
            height: Some(bits(70.0)),
            disabled_events: vec!["B".to_string()],
            visual: None,
        },
    );
    let mut user = UserConfig {
        track_overrides: overrides,
        custom_tracks: vec![track("Mine", &[]), track("Mine", &[]), track("Meta", &[])],
        settings: Settings { locked: true },
    };
    let defaults = vec![track("Bosses", &["A", "B"]), track("Meta", &["C"])];
    let categories = vec!["Core".to_string()];

    let runtime = apply_user_overrides(&mut user, defaults, categories);

    assert_eq!(names(&runtime.tracks), ["Bosses", "Meta", "Mine"]);
    let bosses = &runtime.tracks[0];
    assert!(!bosses.visible);
    assert_eq!(f32::from_bits(bosses.height.0), 70.0);
    assert!(bosses.events[0].enabled);
    assert!(!bosses.events[1].enabled);
    let meta = &runtime.tracks[1];
    assert!(meta.visible);
    assert_eq!(f32::from_bits(meta.height.0), 40.0);
    assert!(meta.events[0].enabled);
    assert_eq!(runtime.categories, ["Core"]);
    assert_eq!(runtime.settings, Settings { locked: true });
    assert_eq!(names(&user.custom_tracks), ["Mine"]);
    assert_eq!(user.settings, Settings { locked: true });
}

#[test]
fn apply_twice_gives_the_same_tracks() {
    let mut user = UserConfig {
        track_overrides: OverrideTable::new(),
        custom_tracks: vec![track("Mine", &[]), track("Bosses", &[]), track("Mine", &[])],
        settings: 0u8,
    };
    let defaults = vec![track("Bosses", &["A"])];
    let first = apply_user_overrides(&mut user, defaults.clone(), vec![]);
    let second = apply_user_overrides(&mut user, defaults, vec![]);
    assert_eq!(names(&first.tracks), names(&second.tracks));
    assert_eq!(names(&user.custom_tracks), ["Mine"]);
}

#[test]
fn save_then_load_restores_the_tracks() {
    let defaults = vec![track("Bosses", &["A", "B"]), track("Meta", &["C"])];
    let mut live = vec![
        track("Bosses", &["A", "B"]),
        track("Meta", &["C"]),
        track("Mine", &["D"]),
    ];
    live[0].visible = false;
    live[0].events[0].enabled = false;
    live[1].height = bits(80.0);
    let heights = vec![false, true, false];

    let runtime = RuntimeConfig { tracks: live, categories: vec![], settings: 7u32 };
    let mut user = UserConfig {
        track_overrides: OverrideTable::new(),
        custom_tracks: vec![],
        settings: 0u32,
    };
    extract_user_overrides(&runtime, &mut user, &defaults, &heights);
    assert_eq!(user.settings, 7);
    assert_eq!(names(&user.custom_tracks), ["Mine"]);

    let reloaded = apply_user_overrides(&mut user, defaults, vec![]);
    assert_eq!(names(&reloaded.tracks), names(&runtime.tracks));
    for (a, b) in reloaded.tracks.iter().zip(runtime.tracks.iter()) {
        assert_eq!(a.visible, b.visible);
        assert_eq!(a.height, b.height);
        let ea: Vec<bool> = a.events.iter().map(|e| e.enabled).collect();
        let eb: Vec<bool> = b.events.iter().map(|e| e.enabled).collect();
        assert_eq!(ea, eb);
    }
}

#[test]
fn later_live_track_of_a_name_replaces_the_earlier_override() {
    let defaults = vec![track("Bosses", &[])];
    let mut first = track("Bosses", &[]);
    first.visible = false;
    let mut second = track("Bosses", &[]);
    second.height = bits(90.0);
    let (overrides, _) = build_track_overrides(
        &vec![first, second],
        &defaults,
        &OverrideTable::new(),
        &vec![false, true],
    );
    let data = overrides.get(&"Bosses".to_string()).unwrap();
    assert_eq!(data.visible, None);
    assert_eq!(data.height, Some(bits(90.0)));
}

#[test]
fn visual_config_prefers_the_override() {
    let mut overrides = OverrideTable::new();
    let visual = TrackVisualConfig {
        background_color: [bits(1.0), bits(0.0), bits(0.0), bits(1.0)],
        padding: bits(3.0),
    };
    overrides.insert(
        "Bosses".to_string(),
        TrackOverride {
            visual: Some(visual),
            ..TrackOverride::default()
        },
    );
    overrides.insert(
        "Meta".to_string(),
        TrackOverride {
            visible: Some(false),
            ..TrackOverride::default()
        },
    );
    let global = [bits(0.5); 4];
    assert_eq!(get_track_visual_config(&overrides, "Bosses", global, bits(9.0)), visual);
    let fallback = TrackVisualConfig { background_color: global, padding: bits(9.0) };
    assert_eq!(get_track_visual_config(&overrides, "Meta", global, bits(9.0)), fallback);
    assert_eq!(get_track_visual_config(&overrides, "Nope", global, bits(9.0)), fallback);
}

#[test]
fn table_insert_replaces_and_lists_each_name_once() {
    let mut t = OverrideTable::new();
    assert!(t.is_empty());
    t.insert("A".to_string(), TrackOverride { visible: Some(true), ..TrackOverride::default() });
    t.insert("B".to_string(), TrackOverride::default());
    t.insert("A".to_string(), TrackOverride { visible: Some(false), ..TrackOverride::default() });
    assert!(!t.is_empty());
    assert_eq!(t.entries().len(), 2);
    assert_eq!(t.get(&"A".to_string()).unwrap().visible, Some(false));
    assert!(t.get(&"C".to_string()).is_none());
    let copy = t.clone();
    assert_eq!(copy.get(&"A".to_string()).unwrap().visible, Some(false));
    assert_eq!(copy.entries().len(), 2);
}

#[test]
fn default_user_config_is_empty() {
    let c: UserConfig<u8> = UserConfig::default();
    assert!(c.track_overrides.is_empty());
    assert!(c.custom_tracks.is_empty());
    assert_eq!(c.settings, 0);
}

#[test]
fn default_disabled_event_survives_save_then_load() {
    let mut bosses = track("Bosses", &["A", "B"]);
    bosses.events[0].enabled = false;
    let defaults = vec![bosses];
    let mut live = defaults.clone();
    live[0].events[1].enabled = false;
    let runtime = RuntimeConfig { tracks: live, categories: vec![], settings: () };
    let mut user = UserConfig { track_overrides: OverrideTable::new(), custom_tracks: vec![], settings: () };
    extract_user_overrides(&runtime, &mut user, &defaults, &vec![false]);
    let reloaded = apply_user_overrides(&mut user, defaults, vec![]);
    let flags: Vec<bool> = reloaded.tracks[0].events.iter().map(|e| e.enabled).collect();
    assert_eq!(flags, [false, false]);
}

#[test]
fn configs_clone_field_by_field() {
    let mut table = OverrideTable::new();
    table.insert("Bosses".to_string(), TrackOverride { visible: Some(false), ..TrackOverride::default() });
    let user = UserConfig { track_overrides: table, custom_tracks: vec![track("Mine", &["x"])], settings: 3u8 };
    let copy = user.clone();
    assert_eq!(copy.track_overrides.get(&"Bosses".to_string()).unwrap().visible, Some(false));
    assert_eq!(names(&copy.custom_tracks), ["Mine"]);
    assert_eq!(copy.settings, 3);
    let runtime = RuntimeConfig { tracks: vec![track("T", &[])], categories: vec!["C".to_string()], settings: 4u8 };
    let rcopy = runtime.clone();
    assert_eq!(names(&rcopy.tracks), ["T"]);
    assert_eq!(rcopy.categories, ["C"]);
    assert_eq!(rcopy.settings, 4);
    assert!(format!("{:?}", rcopy).contains("categories"));
}
