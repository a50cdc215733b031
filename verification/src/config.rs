use vstd::prelude::*;
use crate::overrides::{OverrideTable, TrackOverride, TrackOverrideView, TrackVisualConfig, strings_view};
use crate::tracks::{
    EventTrack, EventTrackView, FloatBits, TimelineEvent, TimelineEventView, events_view,
    tracks_view,
};

verus! {

/// What the user has saved: overrides of default tracks, tracks of their own,
/// and the display settings `S`, which the library carries unchanged.
#[derive(Debug)]
pub struct UserConfig<S> {
    pub track_overrides: OverrideTable,
    pub custom_tracks: Vec<EventTrack>,
    pub settings: S,
}

/// What the addon draws from: the merged track list, the categories and the
/// display settings `S`.
#[derive(Debug)]
pub struct RuntimeConfig<S> {
    pub tracks: Vec<EventTrack>,
    pub categories: Vec<String>,
    pub settings: S,
}

// === Merging overrides into the defaults ===

/// Some track of `ts` is named `name`.
pub open spec fn names_contain(ts: Seq<EventTrackView>, name: Seq<char>) -> bool {
    exists|j: int| 0 <= j < ts.len() && #[trigger] ts[j].name == name
}

/// The custom tracks that survive cleanup, in their order: the first track
/// of each name, unless a default track has that name.
pub open spec fn cleaned_custom_tracks(
    custom: Seq<EventTrackView>,
    defaults: Seq<EventTrackView>,
) -> Seq<EventTrackView>
    decreases custom.len(),
{
    if custom.len() == 0 {
        Seq::empty()
    } else {
        let prefix = custom.drop_last();
        let rest = cleaned_custom_tracks(prefix, defaults);
        let t = custom.last();
        if names_contain(prefix, t.name) || names_contain(defaults, t.name) {
            rest
        } else {
            rest.push(t)
        }
    }
}

/// An event after an override that disables the events named in `disabled`.
pub open spec fn event_with_override(
    e: TimelineEventView,
    disabled: Seq<Seq<char>>,
) -> TimelineEventView {
    if disabled.contains(e.name) {
        TimelineEventView { enabled: false, ..e }
    } else {
        e
    }
}

/// A default track after the user's override for its name, if any: the
/// override's visibility and height where it sets them, and its disabled
/// events switched off.
pub open spec fn track_with_override(
    t: EventTrackView,
    table: Map<Seq<char>, TrackOverrideView>,
) -> EventTrackView {
    if table.contains_key(t.name) {
        let o = table[t.name];
        EventTrackView {
            visible: match o.visible {
                Some(v) => v,
                None => t.visible,
            },
            height: match o.height {
                Some(h) => h,
                None => t.height,
            },
            events: t.events.map_values(
                |e: TimelineEventView| event_with_override(e, o.disabled_events),
            ),
            ..t
        }
    } else {
        t
    }
}

/// The default tracks, each after its override, followed by the cleaned
/// custom tracks.
pub open spec fn runtime_tracks(
    defaults: Seq<EventTrackView>,
    table: Map<Seq<char>, TrackOverrideView>,
    custom: Seq<EventTrackView>,
) -> Seq<EventTrackView> {
    defaults.map_values(|t: EventTrackView| track_with_override(t, table))
        + cleaned_custom_tracks(custom, defaults)
}

/// Whether `name` occurs among the strings of `v`.
fn strings_contain(v: &Vec<String>, name: &String) -> (r: bool)
    ensures
        r == strings_view(v@).contains(name@),
{
    let mut i: usize = 0;
    while i < v.len()
        invariant
            i <= v@.len(),
            forall|j: int| 0 <= j < i ==> #[trigger] v@[j]@ != name@,
        decreases v@.len() - i,
    {
        if v[i] == *name {
            assert(strings_view(v@)[i as int] == name@);
            return true;
        }
        i = i + 1;
    }
    proof {
        if strings_view(v@).contains(name@) {
            let j = choose|j: int| 0 <= j < strings_view(v@).len() && strings_view(v@)[j] == name@;
            assert(v@[j]@ == name@);
        }
    }
    false
}

/// Whether one of the first `upto` tracks of `ts` is named `name`.
fn named_within(ts: &Vec<EventTrack>, upto: usize, name: &String) -> (r: bool)
    requires
        upto <= ts@.len(),
    ensures
        r == names_contain(tracks_view(ts@).take(upto as int), name@),
{
    let ghost prefix = tracks_view(ts@).take(upto as int);
    let mut i: usize = 0;
    while i < upto
        invariant
            i <= upto <= ts@.len(),
            prefix == tracks_view(ts@).take(upto as int),
            forall|j: int| 0 <= j < i ==> #[trigger] ts@[j].name@ != name@,
        decreases upto - i,
    {
        if ts[i].name == *name {
            assert(prefix[i as int].name == name@);
            return true;
        }
        i = i + 1;
    }
    proof {
        if names_contain(prefix, name@) {
            let j = choose|j: int| 0 <= j < prefix.len() && #[trigger] prefix[j].name == name@;
            assert(ts@[j].name@ == name@);
        }
    }
    false
}

/// The custom tracks that survive cleanup: a track is dropped when an
/// earlier custom track has its name or when a default track does.
pub fn clean_custom_tracks(custom: &Vec<EventTrack>, defaults: &Vec<EventTrack>) -> (r: Vec<
    EventTrack,
>)
    ensures
        tracks_view(r@) == cleaned_custom_tracks(tracks_view(custom@), tracks_view(defaults@)),
{
    let ghost c = tracks_view(custom@);
    let ghost d = tracks_view(defaults@);
    let mut kept: Vec<EventTrack> = Vec::new();
    let mut i: usize = 0;
    assert(tracks_view(kept@) =~= cleaned_custom_tracks(c.take(0), d));
    while i < custom.len()
        invariant
            i <= custom@.len(),
            c == tracks_view(custom@),
            d == tracks_view(defaults@),
            tracks_view(kept@) == cleaned_custom_tracks(c.take(i as int), d),
        decreases custom@.len() - i,
    {
        let dup = named_within(custom, i, &custom[i].name);
        let in_defaults = named_within(defaults, defaults.len(), &custom[i].name);
        assert(c.take(i + 1).drop_last() =~= c.take(i as int));
        assert(d.take(defaults@.len() as int) =~= d);
        assert(c.take(i + 1).last() == c[i as int]);
        if !dup && !in_defaults {
            let t = custom[i].clone();
            kept.push(t);
            assert(tracks_view(kept@) =~= cleaned_custom_tracks(c.take(i as int), d).push(c[i as int]));
        }
        i = i + 1;
    }
    assert(c.take(custom@.len() as int) =~= c);
    kept
}


/// An event after an override that disables the events named in `disabled`.
fn event_applied(e: &TimelineEvent, disabled: &Vec<String>) -> (r: TimelineEvent)
    ensures
        r@ == event_with_override(e@, strings_view(disabled@)),
{
    let mut r = e.clone();
    if strings_contain(disabled, &e.name) {
        r.enabled = false;
    }
    r
}

/// A default track after the override for its name in `table`, if any.
fn track_applied(t: &EventTrack, table: &OverrideTable) -> (r: EventTrack)
    requires
        table.wf(),
    ensures
        r@ == track_with_override(t@, table@),
{
    let mut r = t.clone();
    match table.get(&t.name) {
        None => {},
        Some(o) => {
            if let Some(v) = o.visible {
                r.visible = v;
            }
            if let Some(h) = o.height {
                r.height = h;
            }
            let ghost disabled = strings_view(o.disabled_events@);
            let mut events: Vec<TimelineEvent> = Vec::new();
            let mut i: usize = 0;
            while i < t.events.len()
                invariant
                    i <= t.events@.len(),
                    disabled == strings_view(o.disabled_events@),
                    events_view(events@) =~= events_view(t.events@).take(i as int).map_values(
                        |e: TimelineEventView| event_with_override(e, disabled),
                    ),
                decreases t.events@.len() - i,
            {
                let e = event_applied(&t.events[i], &o.disabled_events);
                let ghost prev = events@;
                events.push(e);
                assert(events_view(events@) =~= events_view(prev).push(e@));
                assert(events_view(t.events@).take(i + 1).map_values(
                    |e: TimelineEventView| event_with_override(e, disabled),
                ) =~= events_view(t.events@).take(i as int).map_values(
                    |e: TimelineEventView| event_with_override(e, disabled),
                ).push(event_with_override(events_view(t.events@)[i as int], disabled)));
                i = i + 1;
            }
            r.events = events;
            assert(events_view(t.events@).take(t.events@.len() as int) =~= events_view(t.events@));
        },
    }
    r
}

/// Merges the user's configuration into a fresh set of default tracks.
///
/// The user's custom tracks are cleaned in place (duplicates by name and
/// tracks that a default now provides are dropped); the result holds the
/// default tracks with the overrides applied, then the cleaned custom
/// tracks, the given categories and a clone of the user's settings.
pub fn apply_user_overrides<S: Clone>(
    user: &mut UserConfig<S>,
    default_tracks: Vec<EventTrack>,
    categories: Vec<String>,
) -> (r: RuntimeConfig<S>)
    requires
        old(user).track_overrides.wf(),
    ensures
        final(user).track_overrides == old(user).track_overrides,
        final(user).settings == old(user).settings,
        tracks_view(final(user).custom_tracks@) == cleaned_custom_tracks(
            tracks_view(old(user).custom_tracks@),
            tracks_view(default_tracks@),
        ),
        tracks_view(r.tracks@) == runtime_tracks(
            tracks_view(default_tracks@),
            old(user).track_overrides@,
            tracks_view(old(user).custom_tracks@),
        ),
        r.categories == categories,
        cloned::<S>(old(user).settings, r.settings),
{
    let cleaned = clean_custom_tracks(&user.custom_tracks, &default_tracks);
    let ghost d = tracks_view(default_tracks@);
    let ghost table = user.track_overrides@;
    let mut tracks: Vec<EventTrack> = Vec::new();
    let mut i: usize = 0;
    while i < default_tracks.len()
        invariant
            i <= default_tracks@.len(),
            d == tracks_view(default_tracks@),
            table == user.track_overrides@,
            user.track_overrides.wf(),
            tracks_view(tracks@) =~= d.take(i as int).map_values(
                |t: EventTrackView| track_with_override(t, table),
            ),
        decreases default_tracks@.len() - i,
    {
        let t = track_applied(&default_tracks[i], &user.track_overrides);
        let ghost prev = tracks@;
        tracks.push(t);
        assert(tracks_view(tracks@) =~= tracks_view(prev).push(t@));
        assert(d.take(i + 1).map_values(|t: EventTrackView| track_with_override(t, table))
            =~= d.take(i as int).map_values(|t: EventTrackView| track_with_override(t, table)).push(
            track_with_override(d[i as int], table),
        ));
        i = i + 1;
    }
    assert(d.take(default_tracks@.len() as int) =~= d);
    let ghost applied = tracks@;
    let mut j: usize = 0;
    while j < cleaned.len()
        invariant
            j <= cleaned@.len(),
            tracks@.len() == applied.len() + j,
            tracks_view(tracks@) =~= tracks_view(applied) + tracks_view(cleaned@).take(j as int),
        decreases cleaned@.len() - j,
    {
        let t = cleaned[j].clone();
        let ghost prev = tracks@;
        tracks.push(t);
        assert(tracks_view(tracks@) =~= tracks_view(prev).push(t@));
        assert(tracks_view(cleaned@).take(j + 1) =~= tracks_view(cleaned@).take(j as int).push(
            tracks_view(cleaned@)[j as int],
        ));
        j = j + 1;
    }
    assert(tracks_view(cleaned@).take(cleaned@.len() as int) =~= tracks_view(cleaned@));
    user.custom_tracks = cleaned;
    let settings = user.settings.clone();
    RuntimeConfig { tracks, categories, settings }
}

// === Diffing the live tracks back into overrides ===

/// The position of the last default track named `name`: the one a lookup by
/// name finds when later defaults of a name shadow earlier ones.
pub open spec fn last_default_index(defaults: Seq<EventTrackView>, name: Seq<char>) -> Option<int>
    decreases defaults.len(),
{
    if defaults.len() == 0 {
        None
    } else if defaults.last().name == name {
        Some(defaults.len() - 1)
    } else {
        last_default_index(defaults.drop_last(), name)
    }
}

/// The names of the disabled events, in order.
pub open spec fn disabled_event_names(events: Seq<TimelineEventView>) -> Seq<Seq<char>>
    decreases events.len(),
{
    if events.len() == 0 {
        Seq::empty()
    } else {
        let rest = disabled_event_names(events.drop_last());
        if events.last().enabled {
            rest
        } else {
            rest.push(events.last().name)
        }
    }
}

/// The override that records how `live` differs from its default track:
/// the visibility where it differs, the height where `height_changed` says
/// it moved, every disabled event, and the visual override that `previous`
/// holds for the name, which lives nowhere else.
pub open spec fn override_for(
    live: EventTrackView,
    default: EventTrackView,
    height_changed: bool,
    previous: Map<Seq<char>, TrackOverrideView>,
) -> TrackOverrideView {
    TrackOverrideView {
        visible: if live.visible != default.visible {
            Some(live.visible)
        } else {
            None
        },
        height: if height_changed {
            Some(live.height)
        } else {
            None
        },
        disabled_events: disabled_event_names(live.events),
        visual: if previous.contains_key(live.name) {
            previous[live.name].visual
        } else {
            None
        },
    }
}

/// An override is worth keeping when it sets anything.
pub open spec fn has_changes(o: TrackOverrideView) -> bool {
    o.visible is Some || o.height is Some || o.disabled_events.len() > 0 || o.visual is Some
}

/// The overrides built from the live tracks, in order: each live track with
/// a default of its name records its override when that sets anything, a
/// later track of the same name replacing an earlier entry.
pub open spec fn built_overrides(
    live: Seq<EventTrackView>,
    defaults: Seq<EventTrackView>,
    previous: Map<Seq<char>, TrackOverrideView>,
    heights_differ: Seq<bool>,
) -> Map<Seq<char>, TrackOverrideView>
    decreases live.len(),
{
    if live.len() == 0 {
        Map::empty()
    } else {
        let rest = built_overrides(live.drop_last(), defaults, previous, heights_differ.drop_last());
        let t = live.last();
        match last_default_index(defaults, t.name) {
            Some(j) => {
                let o = override_for(t, defaults[j], heights_differ.last(), previous);
                if has_changes(o) {
                    rest.insert(t.name, o)
                } else {
                    rest
                }
            },
            None => rest,
        }
    }
}

/// The live tracks that no default track names, in order.
pub open spec fn custom_tracks_of(
    live: Seq<EventTrackView>,
    defaults: Seq<EventTrackView>,
) -> Seq<EventTrackView>
    decreases live.len(),
{
    if live.len() == 0 {
        Seq::empty()
    } else {
        let rest = custom_tracks_of(live.drop_last(), defaults);
        if last_default_index(defaults, live.last().name) is None {
            rest.push(live.last())
        } else {
            rest
        }
    }
}

/// What the last-index lookup finds is a track of that name; when it finds
/// nothing, no track has the name.
pub proof fn lemma_last_default_index(defaults: Seq<EventTrackView>, name: Seq<char>)
    ensures
        match last_default_index(defaults, name) {
            Some(j) => 0 <= j < defaults.len() && defaults[j].name == name && (forall|k: int|
                j < k < defaults.len() ==> #[trigger] defaults[k].name != name),
            None => !names_contain(defaults, name),
        },
    decreases defaults.len(),
{
    if defaults.len() > 0 {
        lemma_last_default_index(defaults.drop_last(), name);
        if defaults.last().name != name {
            match last_default_index(defaults.drop_last(), name) {
                Some(j) => {
                    assert(defaults.drop_last()[j] == defaults[j]);
                    assert forall|k: int| j < k < defaults.len() implies #[trigger] defaults[k].name
                        != name by {
                        if k < defaults.len() - 1 {
                            assert(defaults.drop_last()[k] == defaults[k]);
                        }
                    }
                },
                None => {
                    if names_contain(defaults, name) {
                        let k = choose|k: int|
                            0 <= k < defaults.len() && #[trigger] defaults[k].name == name;
                        assert(defaults.drop_last()[k] == defaults[k]);
                    }
                },
            }
        }
    }
}

proof fn lemma_last_default_index_take(defaults: Seq<EventTrackView>, name: Seq<char>, i: int)
    requires
        0 <= i <= defaults.len(),
        forall|k: int| i <= k < defaults.len() ==> #[trigger] defaults[k].name != name,
    ensures
        last_default_index(defaults, name) == last_default_index(defaults.take(i), name),
    decreases defaults.len(),
{
    if defaults.len() == i {
        assert(defaults.take(i) =~= defaults);
    } else {
        assert(defaults.drop_last().take(i) =~= defaults.take(i));
        lemma_last_default_index_take(defaults.drop_last(), name, i);
    }
}

/// The position of the default track that a live track named `name` is
/// compared with: the last default of that name.
pub fn default_index(defaults: &Vec<EventTrack>, name: &String) -> (r: Option<usize>)
    ensures
        match r {
            Some(j) => last_default_index(tracks_view(defaults@), name@) == Some(j as int),
            None => last_default_index(tracks_view(defaults@), name@) is None,
        },
{
    let ghost d = tracks_view(defaults@);
    let mut i: usize = defaults.len();
    while i > 0
        invariant
            i <= defaults@.len(),
            d == tracks_view(defaults@),
            forall|k: int| i <= k < defaults@.len() ==> #[trigger] d[k].name != name@,
        decreases i,
    {
        i = i - 1;
        if defaults[i].name == *name {
            proof {
                lemma_last_default_index_take(d, name@, i + 1);
                assert(d.take(i + 1).last() == d[i as int]);
            }
            return Some(i);
        }
    }
    proof {
        lemma_last_default_index_take(d, name@, 0);
        assert(d.take(0).len() == 0);
    }
    None
}

/// The names of the disabled events of `events`.
fn disabled_names(events: &Vec<TimelineEvent>) -> (r: Vec<String>)
    ensures
        strings_view(r@) == disabled_event_names(events_view(events@)),
{
    let ghost ev = events_view(events@);
    let mut names: Vec<String> = Vec::new();
    let mut i: usize = 0;
    assert(strings_view(names@) =~= disabled_event_names(ev.take(0)));
    while i < events.len()
        invariant
            i <= events@.len(),
            ev == events_view(events@),
            strings_view(names@) == disabled_event_names(ev.take(i as int)),
        decreases events@.len() - i,
    {
        assert(ev.take(i + 1).drop_last() =~= ev.take(i as int));
        assert(ev.take(i + 1).last() == ev[i as int]);
        if !events[i].enabled {
            let ghost prev = names@;
            names.push(events[i].name.clone());
            assert(strings_view(names@) =~= strings_view(prev).push(ev[i as int].name));
        }
        i = i + 1;
    }
    assert(ev.take(events@.len() as int) =~= ev);
    names
}

/// The override recording how `live` differs from `default`.
fn make_override(
    live: &EventTrack,
    default: &EventTrack,
    height_changed: bool,
    previous: &OverrideTable,
) -> (o: TrackOverride)
    requires
        previous.wf(),
    ensures
        o@ == override_for(live@, default@, height_changed, previous@),
{
    let visible = if live.visible != default.visible {
        Some(live.visible)
    } else {
        None
    };
    let height = if height_changed {
        Some(live.height)
    } else {
        None
    };
    let visual = match previous.get(&live.name) {
        Some(p) => p.visual,
        None => None,
    };
    TrackOverride { visible, height, disabled_events: disabled_names(&live.events), visual }
}

/// Whether an override sets anything.
fn sets_anything(o: &TrackOverride) -> (r: bool)
    ensures
        r == has_changes(o@),
{
    o.visible.is_some() || o.height.is_some() || o.disabled_events.len() > 0 || o.visual.is_some()
}

/// Diffs the live tracks against the default tracks.
///
/// Returns the overrides of the default tracks that the user changed and the
/// live tracks that no default names (the user's own tracks). Visual
/// overrides, which only `previous` holds, are carried over for every
/// default-named live track. `heights_differ[i]` says whether the height of
/// `live[i]` moved away from that of its default (see `default_index`).
pub fn build_track_overrides(
    live: &Vec<EventTrack>,
    defaults: &Vec<EventTrack>,
    previous: &OverrideTable,
    heights_differ: &Vec<bool>,
) -> (r: (OverrideTable, Vec<EventTrack>))
    requires
        previous.wf(),
        heights_differ@.len() == live@.len(),
    ensures
        r.0.wf(),
        r.0@ == built_overrides(
            tracks_view(live@),
            tracks_view(defaults@),
            previous@,
            heights_differ@,
        ),
        tracks_view(r.1@) == custom_tracks_of(tracks_view(live@), tracks_view(defaults@)),
{
    let ghost l = tracks_view(live@);
    let ghost d = tracks_view(defaults@);
    let ghost h = heights_differ@;
    let mut table = OverrideTable::new();
    let mut custom: Vec<EventTrack> = Vec::new();
    let mut i: usize = 0;
    assert(l.take(0) =~= Seq::<EventTrackView>::empty());
    assert(tracks_view(custom@) =~= custom_tracks_of(l.take(0), d));
    while i < live.len()
        invariant
            i <= live@.len(),
            heights_differ@.len() == live@.len(),
            l == tracks_view(live@),
            d == tracks_view(defaults@),
            h == heights_differ@,
            previous.wf(),
            table.wf(),
            table@ == built_overrides(l.take(i as int), d, previous@, h.take(i as int)),
            tracks_view(custom@) == custom_tracks_of(l.take(i as int), d),
        decreases live@.len() - i,
    {
        assert(l.take(i + 1).drop_last() =~= l.take(i as int));
        assert(h.take(i + 1).drop_last() =~= h.take(i as int));
        assert(l.take(i + 1).last() == l[i as int]);
        assert(h.take(i + 1).last() == h[i as int]);
        proof {
            lemma_last_default_index(d, l[i as int].name);
        }
        match default_index(defaults, &live[i].name) {
            Some(j) => {
                assert(d[j as int] == defaults@[j as int]@);
                let o = make_override(&live[i], &defaults[j], heights_differ[i], previous);
                if sets_anything(&o) {
                    table.insert(live[i].name.clone(), o);
                }
            },
            None => {
                let ghost prev = custom@;
                custom.push(live[i].clone());
                assert(tracks_view(custom@) =~= tracks_view(prev).push(l[i as int]));
            },
        }
        i = i + 1;
    }
    assert(l.take(live@.len() as int) =~= l);
    assert(h.take(live@.len() as int) =~= h);
    (table, custom)
}

/// Rebuilds the user's overrides and custom tracks from the live
/// configuration and takes over its settings.
///
/// The overrides the user held before serve as `previous`, so hand-edited
/// visual overrides survive. `heights_differ` is as in
/// `build_track_overrides`, for `runtime.tracks`.
pub fn extract_user_overrides<S: Clone>(
    runtime: &RuntimeConfig<S>,
    user: &mut UserConfig<S>,
    default_tracks: &Vec<EventTrack>,
    heights_differ: &Vec<bool>,
)
    requires
        old(user).track_overrides.wf(),
        heights_differ@.len() == runtime.tracks@.len(),
    ensures
        final(user).track_overrides.wf(),
        final(user).track_overrides@ == built_overrides(
            tracks_view(runtime.tracks@),
            tracks_view(default_tracks@),
            old(user).track_overrides@,
            heights_differ@,
        ),
        tracks_view(final(user).custom_tracks@) == custom_tracks_of(
            tracks_view(runtime.tracks@),
            tracks_view(default_tracks@),
        ),
        cloned::<S>(runtime.settings, final(user).settings),
{
    let (table, custom) = build_track_overrides(
        &runtime.tracks,
        default_tracks,
        &user.track_overrides,
        heights_differ,
    );
    user.track_overrides = table;
    user.custom_tracks = custom;
    user.settings = runtime.settings.clone();
}

// === Visual configuration of a track ===

/// The visual configuration a track is drawn with: the visual override the
/// user set for its name, else the global background and padding.
pub open spec fn visual_config_for(
    table: Map<Seq<char>, TrackOverrideView>,
    track_name: Seq<char>,
    global_bg: [FloatBits; 4],
    global_padding: FloatBits,
) -> TrackVisualConfig {
    if table.contains_key(track_name) && table[track_name].visual is Some {
        table[track_name].visual->0
    } else {
        TrackVisualConfig { background_color: global_bg, padding: global_padding }
    }
}

/// The visual configuration of the track named `track_name`.
pub fn get_track_visual_config(
    overrides: &OverrideTable,
    track_name: &str,
    global_bg: [FloatBits; 4],
    global_padding: FloatBits,
) -> (v: TrackVisualConfig)
    requires
        overrides.wf(),
    ensures
        v == visual_config_for(overrides@, track_name@, global_bg, global_padding),
        overrides@.contains_key(track_name@) && overrides@[track_name@].visual is Some ==> v
            == overrides@[track_name@].visual->0,
        !(overrides@.contains_key(track_name@) && overrides@[track_name@].visual is Some) ==> (
        v.background_color == global_bg && v.padding == global_padding),
{
    let name = track_name.to_owned();
    match overrides.get(&name) {
        Some(o) => match o.visual {
            Some(v) => v,
            None => TrackVisualConfig { background_color: global_bg, padding: global_padding },
        },
        None => TrackVisualConfig { background_color: global_bg, padding: global_padding },
    }
}

impl<S: Default> Default for UserConfig<S> {
    /// No overrides, no custom tracks and the default settings.
    fn default() -> (c: Self)
        ensures
            c.track_overrides.wf(),
            c.track_overrides@ == Map::<Seq<char>, TrackOverrideView>::empty(),
            c.custom_tracks@ == Seq::<EventTrack>::empty(),
    {
        UserConfig {
            track_overrides: OverrideTable::new(),
            custom_tracks: Vec::new(),
            settings: S::default(),
        }
    }
}

impl<S: Clone> Clone for UserConfig<S> {
    fn clone(&self) -> (c: Self)
        ensures
            c.track_overrides@ == self.track_overrides@,
            self.track_overrides.wf() ==> c.track_overrides.wf(),
            tracks_view(c.custom_tracks@) == tracks_view(self.custom_tracks@),
            cloned::<S>(self.settings, c.settings),
    {
        let custom_tracks = self.custom_tracks.clone();
        assert(tracks_view(custom_tracks@) =~= tracks_view(self.custom_tracks@));
        UserConfig {
            track_overrides: self.track_overrides.clone(),
            custom_tracks,
            settings: self.settings.clone(),
        }
    }
}

impl<S: Clone> Clone for RuntimeConfig<S> {
    fn clone(&self) -> (c: Self)
        ensures
            tracks_view(c.tracks@) == tracks_view(self.tracks@),
            c.categories@ == self.categories@,
            cloned::<S>(self.settings, c.settings),
    {
        let tracks = self.tracks.clone();
        assert(tracks_view(tracks@) =~= tracks_view(self.tracks@));
        let categories = self.categories.clone();
        assert(categories@ =~= self.categories@);
        RuntimeConfig { tracks, categories, settings: self.settings.clone() }
    }
}

} // verus!
