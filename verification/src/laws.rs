use vstd::prelude::*;
use crate::config::{
    built_overrides, cleaned_custom_tracks, custom_tracks_of, disabled_event_names,
    event_with_override, has_changes, last_default_index, lemma_last_default_index, names_contain,
    override_for, runtime_tracks, track_with_override,
};
use crate::config::visual_config_for;
use crate::overrides::{TrackOverrideView, TrackVisualConfig};
use crate::tracks::{EventTrackView, FloatBits, TimelineEventView};

verus! {

/// No two tracks of `ts` share a name.
pub open spec fn distinct_names(ts: Seq<EventTrackView>) -> bool {
    forall|i: int, j: int|
        0 <= i < ts.len() && 0 <= j < ts.len() && i != j ==> #[trigger] ts[i].name
            != #[trigger] ts[j].name
}

/// No track of `ts` has the name of a track of `defaults`.
pub open spec fn disjoint_from(ts: Seq<EventTrackView>, defaults: Seq<EventTrackView>) -> bool {
    forall|i: int| 0 <= i < ts.len() ==> !names_contain(defaults, #[trigger] ts[i].name)
}

/// The cleaned custom tracks are custom tracks, share no name with each
/// other or with a default track, and every name of a custom track that no
/// default track has survives.
pub proof fn law_cleaned_custom_tracks(custom: Seq<EventTrackView>, defaults: Seq<EventTrackView>)
    ensures
        distinct_names(cleaned_custom_tracks(custom, defaults)),
        disjoint_from(cleaned_custom_tracks(custom, defaults), defaults),
        forall|i: int|
            0 <= i < cleaned_custom_tracks(custom, defaults).len() ==> custom.contains(
                #[trigger] cleaned_custom_tracks(custom, defaults)[i],
            ),
        forall|i: int|
            0 <= i < custom.len() && !names_contain(defaults, #[trigger] custom[i].name)
                ==> names_contain(cleaned_custom_tracks(custom, defaults), custom[i].name),
    decreases custom.len(),
{
    if custom.len() > 0 {
        let prefix = custom.drop_last();
        let rest = cleaned_custom_tracks(prefix, defaults);
        let t = custom.last();
        law_cleaned_custom_tracks(prefix, defaults);
        let r = cleaned_custom_tracks(custom, defaults);
        assert forall|i: int| 0 <= i < r.len() implies custom.contains(#[trigger] r[i]) by {
            if i < rest.len() {
                assert(r[i] == rest[i]);
                let k = choose|k: int| 0 <= k < prefix.len() && prefix[k] == rest[i];
                assert(custom[k] == prefix[k]);
            } else {
                assert(r[i] == custom[custom.len() - 1]);
            }
        }
        if !(names_contain(prefix, t.name) || names_contain(defaults, t.name)) {
            assert forall|i: int, j: int|
                0 <= i < r.len() && 0 <= j < r.len() && i != j implies #[trigger] r[i].name
                != #[trigger] r[j].name by {
                if i == rest.len() && j < rest.len() {
                    let k = choose|k: int| 0 <= k < prefix.len() && prefix[k] == rest[j];
                    assert(prefix[k].name == rest[j].name);
                } else if j == rest.len() && i < rest.len() {
                    let k = choose|k: int| 0 <= k < prefix.len() && prefix[k] == rest[i];
                    assert(prefix[k].name == rest[i].name);
                } else {
                    assert(r[i] == rest[i]);
                    assert(r[j] == rest[j]);
                }
            }
            assert forall|i: int| 0 <= i < r.len() implies !names_contain(
                defaults,
                #[trigger] r[i].name,
            ) by {
                if i < rest.len() {
                    assert(r[i] == rest[i]);
                }
            }
        }
        assert forall|i: int|
            0 <= i < custom.len() && !names_contain(defaults, #[trigger] custom[i].name)
                implies names_contain(r, custom[i].name) by {
            if i < custom.len() - 1 {
                assert(prefix[i] == custom[i]);
                let k = choose|k: int| 0 <= k < rest.len() && #[trigger] rest[k].name == custom[i].name;
                assert(r[k] == rest[k]);
            } else if names_contain(prefix, t.name) {
                let m = choose|m: int| 0 <= m < prefix.len() && #[trigger] prefix[m].name == t.name;
                assert(custom[m] == prefix[m]);
                let k = choose|k: int| 0 <= k < rest.len() && #[trigger] rest[k].name == prefix[m].name;
                assert(r[k] == rest[k]);
            } else {
                assert(r[rest.len() as int] == t);
            }
        }
    }
}

/// Custom tracks that are already clean pass cleanup unchanged.
pub proof fn lemma_clean_tracks_unchanged(custom: Seq<EventTrackView>, defaults: Seq<EventTrackView>)
    requires
        distinct_names(custom),
        disjoint_from(custom, defaults),
    ensures
        cleaned_custom_tracks(custom, defaults) == custom,
    decreases custom.len(),
{
    if custom.len() > 0 {
        let prefix = custom.drop_last();
        assert forall|i: int, j: int|
            0 <= i < prefix.len() && 0 <= j < prefix.len() && i != j implies #[trigger] prefix[i].name
            != #[trigger] prefix[j].name by {
            assert(prefix[i] == custom[i]);
            assert(prefix[j] == custom[j]);
        }
        assert forall|i: int| 0 <= i < prefix.len() implies !names_contain(
            defaults,
            #[trigger] prefix[i].name,
        ) by {
            assert(prefix[i] == custom[i]);
        }
        lemma_clean_tracks_unchanged(prefix, defaults);
        let t = custom.last();
        if names_contain(prefix, t.name) {
            let k = choose|k: int| 0 <= k < prefix.len() && #[trigger] prefix[k].name == t.name;
            assert(custom[k] == prefix[k]);
            assert(false);
        }
        assert(custom[custom.len() - 1] == t);
        assert(prefix.push(t) =~= custom);
    }
}

/// Cleaning the custom tracks a second time changes nothing.
pub proof fn law_cleaning_idempotent(custom: Seq<EventTrackView>, defaults: Seq<EventTrackView>)
    ensures
        cleaned_custom_tracks(cleaned_custom_tracks(custom, defaults), defaults)
            == cleaned_custom_tracks(custom, defaults),
{
    law_cleaned_custom_tracks(custom, defaults);
    lemma_clean_tracks_unchanged(cleaned_custom_tracks(custom, defaults), defaults);
}

/// Merging the user's configuration a second time, after the first merge
/// cleaned its custom tracks, yields the same tracks.
pub proof fn law_merge_idempotent(
    defaults: Seq<EventTrackView>,
    table: Map<Seq<char>, TrackOverrideView>,
    custom: Seq<EventTrackView>,
)
    ensures
        runtime_tracks(defaults, table, cleaned_custom_tracks(custom, defaults))
            == runtime_tracks(defaults, table, custom),
{
    law_cleaning_idempotent(custom, defaults);
}

/// `live` is the default track `d` with at most its visibility, its height
/// and the enabled flags of its events changed, where no event is enabled
/// that its default has disabled (an override can disable an event, never
/// enable one; every merged track is of this form).
pub open spec fn toggled_from(live: EventTrackView, d: EventTrackView) -> bool {
    &&& live.name == d.name
    &&& live.timeline_type == d.timeline_type
    &&& live.base_time == d.base_time
    &&& live.category == d.category
    &&& live.events.len() == d.events.len()
    &&& forall|k: int|
        0 <= k < d.events.len() ==> #[trigger] live.events[k] == TimelineEventView {
            enabled: live.events[k].enabled,
            ..d.events[k]
        }
    &&& forall|k: int|
        0 <= k < d.events.len() && (#[trigger] live.events[k]).enabled ==> d.events[k].enabled
}

/// No two events of `d` share a name.
pub open spec fn distinct_event_names(d: EventTrackView) -> bool {
    forall|k: int, m: int|
        0 <= k < d.events.len() && 0 <= m < d.events.len() && k != m ==> #[trigger] d.events[k].name
            != #[trigger] d.events[m].name
}

proof fn lemma_disabled_names(events: Seq<TimelineEventView>, x: Seq<char>)
    ensures
        disabled_event_names(events).contains(x) <==> exists|m: int|
            0 <= m < events.len() && !events[m].enabled && #[trigger] events[m].name == x,
    decreases events.len(),
{
    if events.len() > 0 {
        let prefix = events.drop_last();
        lemma_disabled_names(prefix, x);
        let rest = disabled_event_names(prefix);
        if disabled_event_names(events).contains(x) {
            if !events.last().enabled && events.last().name == x {
                assert(events[events.len() - 1].name == x);
            } else {
                if !events.last().enabled {
                    let i = choose|i: int| 0 <= i < rest.push(events.last().name).len()
                        && rest.push(events.last().name)[i] == x;
                    assert(i < rest.len());
                    assert(rest[i] == x);
                }
                let m = choose|m: int|
                    0 <= m < prefix.len() && !prefix[m].enabled && #[trigger] prefix[m].name == x;
                assert(events[m] == prefix[m]);
            }
        }
        if exists|m: int| 0 <= m < events.len() && !events[m].enabled && #[trigger] events[m].name == x {
            let m = choose|m: int|
                0 <= m < events.len() && !events[m].enabled && #[trigger] events[m].name == x;
            if m == events.len() - 1 {
                assert(disabled_event_names(events) == rest.push(x));
                assert(rest.push(x)[rest.len() as int] == x);
            } else {
                assert(prefix[m] == events[m]);
                let i = choose|i: int| 0 <= i < rest.len() && rest[i] == x;
                if !events.last().enabled {
                    assert(rest.push(events.last().name)[i] == x);
                }
            }
        }
    }
}

proof fn lemma_built_absent(
    live: Seq<EventTrackView>,
    defaults: Seq<EventTrackView>,
    previous: Map<Seq<char>, TrackOverrideView>,
    heights: Seq<bool>,
    n: Seq<char>,
)
    requires
        forall|p: int| 0 <= p < live.len() ==> #[trigger] live[p].name != n,
    ensures
        !built_overrides(live, defaults, previous, heights).contains_key(n),
    decreases live.len(),
{
    if live.len() > 0 {
        let prefix = live.drop_last();
        assert forall|p: int| 0 <= p < prefix.len() implies #[trigger] prefix[p].name != n by {
            assert(prefix[p] == live[p]);
        }
        lemma_built_absent(prefix, defaults, previous, heights.drop_last(), n);
        assert(live[live.len() - 1].name != n);
    }
}

proof fn lemma_built_at(
    live: Seq<EventTrackView>,
    defaults: Seq<EventTrackView>,
    previous: Map<Seq<char>, TrackOverrideView>,
    heights: Seq<bool>,
    n: Seq<char>,
    p: int,
    j: int,
)
    requires
        0 <= p < live.len(),
        heights.len() == live.len(),
        live[p].name == n,
        forall|q: int| 0 <= q < live.len() && q != p ==> #[trigger] live[q].name != n,
        last_default_index(defaults, n) == Some(j),
    ensures
        ({
            let o = override_for(live[p], defaults[j], heights[p], previous);
            &&& built_overrides(live, defaults, previous, heights).contains_key(n) == has_changes(o)
            &&& has_changes(o) ==> built_overrides(live, defaults, previous, heights)[n] == o
        }),
    decreases live.len(),
{
    let prefix = live.drop_last();
    let hp = heights.drop_last();
    if p == live.len() - 1 {
        assert forall|q: int| 0 <= q < prefix.len() implies #[trigger] prefix[q].name != n by {
            assert(prefix[q] == live[q]);
        }
        lemma_built_absent(prefix, defaults, previous, hp, n);
    } else {
        assert forall|q: int| 0 <= q < prefix.len() && q != p implies #[trigger] prefix[q].name
            != n by {
            assert(prefix[q] == live[q]);
        }
        assert(prefix[p] == live[p]);
        assert(hp[p] == heights[p]);
        lemma_built_at(prefix, defaults, previous, hp, n, p, j);
        assert(live[live.len() - 1].name != n);
    }
}

proof fn lemma_custom_of_concat(
    a: Seq<EventTrackView>,
    b: Seq<EventTrackView>,
    defaults: Seq<EventTrackView>,
)
    ensures
        custom_tracks_of(a + b, defaults) == custom_tracks_of(a, defaults) + custom_tracks_of(
            b,
            defaults,
        ),
    decreases b.len(),
{
    if b.len() == 0 {
        assert(a + b =~= a);
        assert(custom_tracks_of(a, defaults) + custom_tracks_of(b, defaults) =~= custom_tracks_of(
            a,
            defaults,
        ));
    } else {
        assert((a + b).drop_last() =~= a + b.drop_last());
        assert((a + b).last() == b.last());
        lemma_custom_of_concat(a, b.drop_last(), defaults);
        let ca = custom_tracks_of(a, defaults);
        let cb = custom_tracks_of(b.drop_last(), defaults);
        assert((ca + cb).push(b.last()) =~= ca + cb.push(b.last()));
    }
}

proof fn lemma_custom_of_defaults(toggled: Seq<EventTrackView>, defaults: Seq<EventTrackView>)
    requires
        forall|i: int| 0 <= i < toggled.len() ==> names_contain(defaults, #[trigger] toggled[i].name),
    ensures
        custom_tracks_of(toggled, defaults) == Seq::<EventTrackView>::empty(),
    decreases toggled.len(),
{
    if toggled.len() > 0 {
        let prefix = toggled.drop_last();
        assert forall|i: int| 0 <= i < prefix.len() implies names_contain(
            defaults,
            #[trigger] prefix[i].name,
        ) by {
            assert(prefix[i] == toggled[i]);
        }
        lemma_custom_of_defaults(prefix, defaults);
        lemma_last_default_index(defaults, toggled.last().name);
        assert(names_contain(defaults, toggled[toggled.len() - 1].name));
    }
}

proof fn lemma_custom_of_disjoint(custom: Seq<EventTrackView>, defaults: Seq<EventTrackView>)
    requires
        disjoint_from(custom, defaults),
    ensures
        custom_tracks_of(custom, defaults) == custom,
    decreases custom.len(),
{
    if custom.len() > 0 {
        let prefix = custom.drop_last();
        assert forall|i: int| 0 <= i < prefix.len() implies !names_contain(
            defaults,
            #[trigger] prefix[i].name,
        ) by {
            assert(prefix[i] == custom[i]);
        }
        lemma_custom_of_disjoint(prefix, defaults);
        lemma_last_default_index(defaults, custom.last().name);
        assert(!names_contain(defaults, custom[custom.len() - 1].name));
        match last_default_index(defaults, custom.last().name) {
            Some(j) => {
                assert(defaults[j].name == custom.last().name);
            },
            None => {},
        }
        assert(prefix.push(custom.last()) =~= custom);
    }
}

/// Reapplying the override built from a toggled track to its default gives
/// the toggled track back.
proof fn lemma_track_roundtrip(
    live: EventTrackView,
    d: EventTrackView,
    height_changed: bool,
    previous: Map<Seq<char>, TrackOverrideView>,
    table: Map<Seq<char>, TrackOverrideView>,
)
    requires
        toggled_from(live, d),
        distinct_event_names(d),
        height_changed == (live.height != d.height),
        ({
            let o = override_for(live, d, height_changed, previous);
            &&& table.contains_key(d.name) == has_changes(o)
            &&& has_changes(o) ==> table[d.name] == o
        }),
    ensures
        track_with_override(d, table) == live,
{
    let o = override_for(live, d, height_changed, previous);
    if has_changes(o) {
        let r = track_with_override(d, table);
        let evs = d.events.map_values(
            |e: TimelineEventView| event_with_override(e, o.disabled_events),
        );
        assert forall|k: int| 0 <= k < evs.len() implies #[trigger] evs[k] == live.events[k] by {
            lemma_disabled_names(live.events, d.events[k].name);
            assert(live.events[k].name == d.events[k].name);
            if o.disabled_events.contains(d.events[k].name) {
                let m = choose|m: int|
                    0 <= m < live.events.len() && !live.events[m].enabled
                        && #[trigger] live.events[m].name == d.events[k].name;
                assert(live.events[m].name == d.events[m].name);
                assert(m == k);
                assert(!live.events[k].enabled);
            } else {
                if !live.events[k].enabled {
                    assert(live.events[k].name == d.events[k].name);
                }
                assert(live.events[k].enabled);
                assert(d.events[k].enabled);
            }
        }
        assert(evs =~= live.events);
        assert(r.events == live.events);
        assert(r == live);
    } else {
        assert(!table.contains_key(d.name));
        assert forall|k: int| 0 <= k < d.events.len() implies #[trigger] d.events[k]
            == live.events[k] by {
            lemma_disabled_names(live.events, live.events[k].name);
            if !live.events[k].enabled {
                assert(disabled_event_names(live.events).contains(live.events[k].name));
                assert(o.disabled_events.len() > 0);
            }
            assert(live.events[k].enabled);
            assert(d.events[k].enabled);
        }
        assert(d.events =~= live.events);
    }
}

/// Saving then loading gives the tracks back: when the live tracks are the
/// default tracks, each with at most its visibility, height and event
/// flags changed, followed by custom tracks of new and distinct names,
/// then merging the overrides and custom tracks diffed from them into the
/// defaults rebuilds exactly those live tracks.
///
/// It needs the default tracks to carry distinct names, the events of each
/// default track to carry distinct names, and `heights` to flag exactly the
/// tracks whose height changed.
pub proof fn law_save_then_load_restores_tracks(
    defaults: Seq<EventTrackView>,
    toggled: Seq<EventTrackView>,
    custom: Seq<EventTrackView>,
    previous: Map<Seq<char>, TrackOverrideView>,
    heights: Seq<bool>,
)
    requires
        distinct_names(defaults),
        forall|i: int| 0 <= i < defaults.len() ==> distinct_event_names(#[trigger] defaults[i]),
        toggled.len() == defaults.len(),
        forall|i: int| 0 <= i < defaults.len() ==> toggled_from(#[trigger] toggled[i], defaults[i]),
        distinct_names(custom),
        disjoint_from(custom, defaults),
        heights.len() == toggled.len() + custom.len(),
        forall|i: int|
            0 <= i < toggled.len() ==> #[trigger] heights[i] == (toggled[i].height
                != defaults[i].height),
    ensures
        runtime_tracks(
            defaults,
            built_overrides(toggled + custom, defaults, previous, heights),
            custom_tracks_of(toggled + custom, defaults),
        ) == toggled + custom,
{
    let live = toggled + custom;
    let table = built_overrides(live, defaults, previous, heights);
    assert forall|i: int| 0 <= i < toggled.len() implies names_contain(
        defaults,
        #[trigger] toggled[i].name,
    ) by {
        assert(defaults[i].name == toggled[i].name);
    }
    lemma_custom_of_concat(toggled, custom, defaults);
    lemma_custom_of_defaults(toggled, defaults);
    lemma_custom_of_disjoint(custom, defaults);
    assert(Seq::<EventTrackView>::empty() + custom =~= custom);
    lemma_clean_tracks_unchanged(custom, defaults);
    let merged = defaults.map_values(|t: EventTrackView| track_with_override(t, table));
    assert forall|i: int| 0 <= i < defaults.len() implies #[trigger] merged[i] == toggled[i] by {
        let n = defaults[i].name;
        lemma_last_default_index(defaults, n);
        let j = last_default_index(defaults, n)->0;
        if j != i {
            assert(defaults[j].name == defaults[i].name);
        }
        assert forall|q: int| 0 <= q < live.len() && q != i implies #[trigger] live[q].name != n by {
            if q < toggled.len() {
                assert(live[q] == toggled[q]);
                assert(toggled[q].name == defaults[q].name);
            } else {
                assert(live[q] == custom[q - toggled.len()]);
                if custom[q - toggled.len()].name == n {
                    assert(names_contain(defaults, custom[q - toggled.len()].name));
                }
            }
        }
        assert(live[i] == toggled[i]);
        lemma_built_at(live, defaults, previous, heights, n, i, i);
        lemma_track_roundtrip(toggled[i], defaults[i], heights[i], previous, table);
    }
    assert(merged =~= toggled);
}

/// A visual override the user set by hand survives a rebuild of the
/// overrides, as long as a live track of that name has a default track.
pub proof fn law_visual_override_survives(
    live: Seq<EventTrackView>,
    defaults: Seq<EventTrackView>,
    previous: Map<Seq<char>, TrackOverrideView>,
    heights: Seq<bool>,
    n: Seq<char>,
)
    requires
        heights.len() == live.len(),
        names_contain(live, n),
        names_contain(defaults, n),
        previous.contains_key(n),
        previous[n].visual is Some,
    ensures
        built_overrides(live, defaults, previous, heights).contains_key(n),
        built_overrides(live, defaults, previous, heights)[n].visual == previous[n].visual,
    decreases live.len(),
{
    lemma_last_default_index(defaults, n);
    let prefix = live.drop_last();
    if live.last().name != n {
        let p = choose|p: int| 0 <= p < live.len() && #[trigger] live[p].name == n;
        assert(p != live.len() - 1);
        assert(prefix[p] == live[p]);
        law_visual_override_survives(prefix, defaults, previous, heights.drop_last(), n);
    }
}

/// Overrides are only recorded for names that a live track and a default
/// track share; the custom tracks are live tracks, none of them has the name
/// of a default track, and every live track that no default track names is
/// among them.
pub proof fn law_overrides_cover_default_tracks(
    live: Seq<EventTrackView>,
    defaults: Seq<EventTrackView>,
    previous: Map<Seq<char>, TrackOverrideView>,
    heights: Seq<bool>,
)
    requires
        heights.len() == live.len(),
    ensures
        forall|n: Seq<char>|
            #[trigger] built_overrides(live, defaults, previous, heights).contains_key(n)
                ==> names_contain(live, n) && names_contain(defaults, n),
        disjoint_from(custom_tracks_of(live, defaults), defaults),
        forall|i: int|
            0 <= i < live.len() && !names_contain(defaults, #[trigger] live[i].name)
                ==> custom_tracks_of(live, defaults).contains(live[i]),
        forall|i: int|
            0 <= i < custom_tracks_of(live, defaults).len() ==> live.contains(
                #[trigger] custom_tracks_of(live, defaults)[i],
            ),
    decreases live.len(),
{
    if live.len() > 0 {
        let prefix = live.drop_last();
        let t = live.last();
        law_overrides_cover_default_tracks(prefix, defaults, previous, heights.drop_last());
        lemma_last_default_index(defaults, t.name);
        let b = built_overrides(live, defaults, previous, heights);
        let rb = built_overrides(prefix, defaults, previous, heights.drop_last());
        assert forall|n: Seq<char>| #[trigger] b.contains_key(n) implies names_contain(live, n)
            && names_contain(defaults, n) by {
            if rb.contains_key(n) {
                let p = choose|p: int| 0 <= p < prefix.len() && #[trigger] prefix[p].name == n;
                assert(live[p] == prefix[p]);
            } else {
                assert(n == t.name);
                assert(live[live.len() - 1].name == n);
                let j = last_default_index(defaults, t.name)->0;
                assert(defaults[j].name == n);
            }
        }
        let c = custom_tracks_of(live, defaults);
        let rc = custom_tracks_of(prefix, defaults);
        assert forall|i: int| 0 <= i < c.len() implies !names_contain(
            defaults,
            #[trigger] c[i].name,
        ) by {
            if i < rc.len() {
                assert(c[i] == rc[i]);
            }
        }
        assert forall|i: int|
            0 <= i < live.len() && !names_contain(defaults, #[trigger] live[i].name)
                implies c.contains(live[i]) by {
            if i < live.len() - 1 {
                assert(prefix[i] == live[i]);
                let k = choose|k: int| 0 <= k < rc.len() && rc[k] == prefix[i];
                if last_default_index(defaults, t.name) is None {
                    assert(c[k] == rc[k]);
                }
            } else {
                match last_default_index(defaults, t.name) {
                    Some(j) => {
                        assert(defaults[j].name == live[i].name);
                    },
                    None => {
                        assert(c[rc.len() as int] == t);
                    },
                }
            }
        }
        assert forall|i: int| 0 <= i < c.len() implies live.contains(#[trigger] c[i]) by {
            if i < rc.len() {
                assert(c[i] == rc[i]);
                let k = choose|k: int| 0 <= k < prefix.len() && prefix[k] == rc[i];
                assert(live[k] == prefix[k]);
            } else {
                assert(c[i] == live[live.len() - 1]);
            }
        }
    }
}

/// Every track that merging produces from a default track is that default
/// track toggled: merged tracks are exactly of the form the save-then-load
/// law speaks of.
pub proof fn law_merged_track_is_toggled(
    d: EventTrackView,
    table: Map<Seq<char>, TrackOverrideView>,
)
    ensures
        toggled_from(track_with_override(d, table), d),
{
}

/// Cloning a value of `S` gives the same value.
pub open spec fn clone_is_identity<S: Clone>() -> bool {
    forall|a: S, b: S| #[trigger] cloned::<S>(a, b) ==> a == b
}

/// Merging a second time changes nothing: the cleaned custom tracks stay as
/// they are, the merged tracks are the same, and, where cloning settings
/// gives the same settings, so are the runtime settings (both merges clone
/// the user's settings, which the first merge leaves unchanged).
pub proof fn law_merge_twice_changes_nothing<S: Clone>(
    defaults: Seq<EventTrackView>,
    table: Map<Seq<char>, TrackOverrideView>,
    custom: Seq<EventTrackView>,
    settings: S,
    first: S,
    second: S,
)
    requires
        cloned::<S>(settings, first),
        cloned::<S>(settings, second),
        clone_is_identity::<S>(),
    ensures
        cleaned_custom_tracks(cleaned_custom_tracks(custom, defaults), defaults)
            == cleaned_custom_tracks(custom, defaults),
        runtime_tracks(defaults, table, cleaned_custom_tracks(custom, defaults))
            == runtime_tracks(defaults, table, custom),
        first == second,
{
    law_cleaning_idempotent(custom, defaults);
}

/// Saving then loading keeps the settings, where cloning settings gives the
/// same settings: saving clones the runtime settings into the user config,
/// loading clones them back.
pub proof fn law_settings_round_trip<S: Clone>(runtime: S, saved: S, reloaded: S)
    requires
        cloned::<S>(runtime, saved),
        cloned::<S>(saved, reloaded),
        clone_is_identity::<S>(),
    ensures
        reloaded == runtime,
{
}

/// Position `i` of `custom` holds the first track with its name.
pub open spec fn first_of_name(custom: Seq<EventTrackView>, i: int) -> bool {
    &&& 0 <= i < custom.len()
    &&& forall|j: int| 0 <= j < i ==> #[trigger] custom[j].name != custom[i].name
}

proof fn lemma_first_of_name_prefix(custom: Seq<EventTrackView>, i: int)
    requires
        custom.len() > 0,
        0 <= i < custom.len() - 1,
    ensures
        first_of_name(custom, i) == first_of_name(custom.drop_last(), i),
{
    let prefix = custom.drop_last();
    assert(prefix[i] == custom[i]);
    if first_of_name(custom, i) {
        assert forall|j: int| 0 <= j < i implies #[trigger] prefix[j].name != prefix[i].name by {
            assert(prefix[j] == custom[j]);
        }
    }
    if first_of_name(prefix, i) {
        assert forall|j: int| 0 <= j < i implies #[trigger] custom[j].name != custom[i].name by {
            assert(prefix[j] == custom[j]);
        }
    }
}

/// Cleanup keeps, of each name, the first custom track that carries it, and
/// keeps them in the order of those first tracks: every kept track is the
/// first custom track of its name, and of two kept tracks the earlier one
/// comes first among the custom tracks.
pub proof fn law_cleanup_keeps_first_occurrences(
    custom: Seq<EventTrackView>,
    defaults: Seq<EventTrackView>,
)
    ensures
        forall|k: int|
            #![trigger cleaned_custom_tracks(custom, defaults)[k]]
            0 <= k < cleaned_custom_tracks(custom, defaults).len() ==> exists|i: int|
                #[trigger] first_of_name(custom, i) && cleaned_custom_tracks(custom, defaults)[k]
                    == custom[i],
        forall|k1: int, k2: int, i1: int, i2: int|
            #![trigger cleaned_custom_tracks(custom, defaults)[k1], cleaned_custom_tracks(custom, defaults)[k2], first_of_name(custom, i1), first_of_name(custom, i2)]
            0 <= k1 < k2 < cleaned_custom_tracks(custom, defaults).len() && first_of_name(
                custom,
                i1,
            ) && first_of_name(custom, i2) && cleaned_custom_tracks(custom, defaults)[k1]
                == custom[i1] && cleaned_custom_tracks(custom, defaults)[k2] == custom[i2]
                ==> i1 < i2,
    decreases custom.len(),
{
    if custom.len() > 0 {
        let prefix = custom.drop_last();
        let rest = cleaned_custom_tracks(prefix, defaults);
        let t = custom.last();
        let n = custom.len() - 1;
        let r = cleaned_custom_tracks(custom, defaults);
        law_cleanup_keeps_first_occurrences(prefix, defaults);
        law_cleaned_custom_tracks(prefix, defaults);
        assert(custom[n] == t);
        // A track kept from the prefix is the prefix's first of its name,
        // so it is the first of its name in `custom` and not the last track.
        assert forall|k: int| 0 <= k < rest.len() implies names_contain(
            prefix,
            #[trigger] rest[k].name,
        ) by {
            let i = choose|i: int| #[trigger] first_of_name(prefix, i) && rest[k] == prefix[i];
            assert(prefix[i].name == rest[k].name);
        }
        assert forall|k: int, i: int|
            0 <= k < rest.len() && #[trigger] first_of_name(custom, i) && #[trigger] rest[k]
                == custom[i] implies i < n by {
            if i == n {
                assert(names_contain(prefix, rest[k].name));
                let m = choose|m: int| 0 <= m < prefix.len() && #[trigger] prefix[m].name == rest[k].name;
                assert(custom[m] == prefix[m]);
                assert(custom[m].name != custom[n].name);
            }
        }
        assert forall|k: int| 0 <= k < rest.len() implies exists|i: int|
            #[trigger] first_of_name(custom, i) && #[trigger] rest[k] == custom[i] by {
            let i = choose|i: int| #[trigger] first_of_name(prefix, i) && rest[k] == prefix[i];
            lemma_first_of_name_prefix(custom, i);
            assert(prefix[i] == custom[i]);
        }
        assert forall|k1: int, k2: int, i1: int, i2: int|
            #![trigger rest[k1], rest[k2], first_of_name(custom, i1), first_of_name(custom, i2)]
            0 <= k1 < k2 < rest.len() && first_of_name(custom, i1) && first_of_name(custom, i2)
                && rest[k1] == custom[i1] && rest[k2] == custom[i2] implies i1 < i2 by {
            assert(i1 < n);
            assert(i2 < n);
            lemma_first_of_name_prefix(custom, i1);
            lemma_first_of_name_prefix(custom, i2);
            assert(prefix[i1] == custom[i1]);
            assert(prefix[i2] == custom[i2]);
            assert(rest[k1] == rest[k1]);
            assert(first_of_name(prefix, i1) && first_of_name(prefix, i2));
        }
        if !(names_contain(prefix, t.name) || names_contain(defaults, t.name)) {
            assert(r == rest.push(t));
            assert(first_of_name(custom, n)) by {
                assert forall|j: int| 0 <= j < n implies #[trigger] custom[j].name != custom[n].name by {
                    assert(prefix[j] == custom[j]);
                }
            }
            assert forall|i: int| #[trigger] first_of_name(custom, i) && t == custom[i] implies i
                == n by {
                if i < n {
                    assert(prefix[i] == custom[i]);
                    assert(prefix[i].name == t.name);
                }
            }
            assert forall|k: int| 0 <= k < r.len() implies exists|i: int|
                #[trigger] first_of_name(custom, i) && #[trigger] r[k] == custom[i] by {
                if k < rest.len() {
                    assert(r[k] == rest[k]);
                } else {
                    assert(r[k] == custom[n]);
                }
            }
            assert forall|k1: int, k2: int, i1: int, i2: int|
                #![trigger r[k1], r[k2], first_of_name(custom, i1), first_of_name(custom, i2)]
                0 <= k1 < k2 < r.len() && first_of_name(custom, i1) && first_of_name(custom, i2)
                    && r[k1] == custom[i1] && r[k2] == custom[i2] implies i1 < i2 by {
                assert(r[k1] == rest[k1]);
                if k2 < rest.len() {
                    assert(r[k2] == rest[k2]);
                } else {
                    assert(r[k2] == t);
                    assert(i2 == n);
                    assert(i1 < n);
                }
            }
        } else {
            assert(r == rest);
        }
    }
}

/// Position `j` holds the last default track named `n`.
pub open spec fn last_of_name(defaults: Seq<EventTrackView>, j: int, n: Seq<char>) -> bool {
    &&& 0 <= j < defaults.len()
    &&& defaults[j].name == n
    &&& forall|k: int| j < k < defaults.len() ==> #[trigger] defaults[k].name != n
}

proof fn lemma_last_of_name(defaults: Seq<EventTrackView>, j: int, n: Seq<char>)
    requires
        last_of_name(defaults, j, n),
    ensures
        last_default_index(defaults, n) == Some(j),
{
    lemma_last_default_index(defaults, n);
    match last_default_index(defaults, n) {
        Some(i) => {
            if i < j {
                assert(defaults[j].name == n);
            } else if i > j {
                assert(defaults[i].name == n);
            }
        },
        None => {
            assert(defaults[j].name == n);
        },
    }
}

/// What the diff records of a name is a real change: a recorded visibility
/// is not that of the default track the name is compared with (the last
/// default of that name), and a recorded height is the height of a live
/// track of that name whose height was flagged as moved.
pub proof fn law_recorded_changes_are_real(
    live: Seq<EventTrackView>,
    defaults: Seq<EventTrackView>,
    previous: Map<Seq<char>, TrackOverrideView>,
    heights: Seq<bool>,
    n: Seq<char>,
)
    requires
        heights.len() == live.len(),
    ensures
        built_overrides(live, defaults, previous, heights).contains_key(n) && built_overrides(
            live,
            defaults,
            previous,
            heights,
        )[n].visible is Some ==> exists|j: int|
            #[trigger] last_of_name(defaults, j, n) && defaults[j].visible != built_overrides(
                live,
                defaults,
                previous,
                heights,
            )[n].visible->0,
        built_overrides(live, defaults, previous, heights).contains_key(n) && built_overrides(
            live,
            defaults,
            previous,
            heights,
        )[n].height is Some ==> exists|p: int|
            0 <= p < live.len() && #[trigger] live[p].name == n && heights[p] && live[p].height
                == built_overrides(live, defaults, previous, heights)[n].height->0,
    decreases live.len(),
{
    if live.len() > 0 {
        let prefix = live.drop_last();
        let hp = heights.drop_last();
        let t = live.last();
        let b = built_overrides(live, defaults, previous, heights);
        let rb = built_overrides(prefix, defaults, previous, hp);
        law_recorded_changes_are_real(prefix, defaults, previous, hp, n);
        lemma_last_default_index(defaults, t.name);
        if t.name == n && last_default_index(defaults, n) is Some && has_changes(
            override_for(t, defaults[last_default_index(defaults, n)->0], heights.last(), previous),
        ) {
            let j = last_default_index(defaults, n)->0;
            assert(b[n] == override_for(t, defaults[j], heights.last(), previous));
            assert(last_of_name(defaults, j, n));
            assert(live[live.len() - 1] == t);
        } else {
            if b.contains_key(n) {
                assert(rb.contains_key(n) && b[n] == rb[n]);
                if b[n].height is Some {
                    let p = choose|p: int|
                        0 <= p < prefix.len() && #[trigger] prefix[p].name == n && hp[p]
                            && prefix[p].height == rb[n].height->0;
                    assert(live[p] == prefix[p]);
                    assert(heights[p] == hp[p]);
                }
            }
        }
    }
}

/// A name whose live tracks all equal the default track they are compared
/// with (whose events are all enabled), with no height flagged and no visual
/// override held from before, gets no override.
pub proof fn law_unchanged_tracks_record_nothing(
    live: Seq<EventTrackView>,
    defaults: Seq<EventTrackView>,
    previous: Map<Seq<char>, TrackOverrideView>,
    heights: Seq<bool>,
    n: Seq<char>,
    j: int,
)
    requires
        heights.len() == live.len(),
        last_of_name(defaults, j, n),
        forall|k: int| 0 <= k < defaults[j].events.len() ==> (#[trigger] defaults[j].events[k]).enabled,
        !(previous.contains_key(n) && previous[n].visual is Some),
        forall|p: int|
            0 <= p < live.len() && #[trigger] live[p].name == n ==> live[p] == defaults[j]
                && !heights[p],
    ensures
        !built_overrides(live, defaults, previous, heights).contains_key(n),
    decreases live.len(),
{
    if live.len() > 0 {
        let prefix = live.drop_last();
        let hp = heights.drop_last();
        let t = live.last();
        assert forall|p: int| 0 <= p < prefix.len() && #[trigger] prefix[p].name == n implies prefix[p]
            == defaults[j] && !hp[p] by {
            assert(prefix[p] == live[p]);
            assert(hp[p] == heights[p]);
        }
        law_unchanged_tracks_record_nothing(prefix, defaults, previous, hp, n, j);
        if t.name == n {
            assert(live[live.len() - 1] == t);
            lemma_last_of_name(defaults, j, n);
            let o = override_for(t, defaults[j], heights.last(), previous);
            assert(heights[live.len() - 1] == heights.last());
            if o.disabled_events.len() > 0 {
                lemma_disabled_names(t.events, o.disabled_events[0]);
                assert(o.disabled_events.contains(o.disabled_events[0]));
                let m = choose|m: int|
                    0 <= m < t.events.len() && !t.events[m].enabled
                        && #[trigger] t.events[m].name == o.disabled_events[0];
                assert(defaults[j].events[m].enabled);
            }
            assert(!has_changes(o));
        }
    }
}

/// A track is drawn with the visual override the user set for its name,
/// exactly as set and whatever else the override holds; a track without one
/// is drawn with the global background and padding.
pub proof fn law_visual_override_wins(
    table: Map<Seq<char>, TrackOverrideView>,
    name: Seq<char>,
    global_bg: [FloatBits; 4],
    global_padding: FloatBits,
    v: TrackVisualConfig,
)
    ensures
        table.contains_key(name) && table[name].visual == Some(v) ==> visual_config_for(
            table,
            name,
            global_bg,
            global_padding,
        ) == v,
        !(table.contains_key(name) && table[name].visual is Some) ==> visual_config_for(
            table,
            name,
            global_bg,
            global_padding,
        ) == (TrackVisualConfig { background_color: global_bg, padding: global_padding }),
{
}

} // verus!
