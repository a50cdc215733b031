use vstd::prelude::*;

verus! {

/// An `f32` carried by its IEEE-754 bit pattern.
///
/// The library moves, stores and compares-for-identity the numeric settings
/// of tracks and colors, but never does arithmetic on them; holding the bit
/// pattern keeps every value exact through a round trip.
#[derive(Debug, Clone, Copy, PartialEq, Eq, Structural)]
pub struct FloatBits(pub u32);

/// Bit pattern of `0.2_f32`.
pub const BITS_0_2: u32 = 0x3E4C_CCCD;

/// Bit pattern of `0.6_f32`.
pub const BITS_0_6: u32 = 0x3F19_999A;

/// Bit pattern of `0.8_f32`.
pub const BITS_0_8: u32 = 0x3F4C_CCCD;

/// Bit pattern of `1.0_f32`.
pub const BITS_1_0: u32 = 0x3F80_0000;

/// Bit pattern of `40.0_f32`, the height of a track that sets none.
pub const BITS_40_0: u32 = 0x4220_0000;

/// Color of an event bar, one channel per field.
#[derive(Debug, Clone, Copy, PartialEq, Eq, Structural)]
pub struct EventColor {
    pub r: FloatBits,
    pub g: FloatBits,
    pub b: FloatBits,
    pub a: FloatBits,
}

impl EventColor {
    /// The color of a new event: (0.2, 0.6, 0.8, 1.0).
    pub open spec fn default_spec() -> EventColor {
        EventColor {
            r: FloatBits(BITS_0_2),
            g: FloatBits(BITS_0_6),
            b: FloatBits(BITS_0_8),
            a: FloatBits(BITS_1_0),
        }
    }

    /// The channels in `[r, g, b, a]` order.
    pub fn to_array(&self) -> (arr: [FloatBits; 4])
        ensures
            arr@ == seq![self.r, self.g, self.b, self.a],
    {
        [self.r, self.g, self.b, self.a]
    }

    /// A color from channels in `[r, g, b, a]` order.
    pub fn from_array(arr: [FloatBits; 4]) -> (c: Self)
        ensures
            c.r == arr@[0],
            c.g == arr@[1],
            c.b == arr@[2],
            c.a == arr@[3],
    {
        EventColor { r: arr[0], g: arr[1], b: arr[2], a: arr[3] }
    }
}

impl Default for EventColor {
    fn default() -> (c: Self)
        ensures
            c == EventColor::default_spec(),
    {
        EventColor {
            r: FloatBits(BITS_0_2),
            g: FloatBits(BITS_0_6),
            b: FloatBits(BITS_0_8),
            a: FloatBits(BITS_1_0),
        }
    }
}

/// The clock a track's schedule follows.
#[derive(Debug, Clone, Copy, PartialEq, Eq, Structural)]
pub enum TimelineType {
    RealTime,
    GameTime,
}

/// One recurring event on a track.
#[derive(Debug)]
pub struct TimelineEvent {
    pub name: String,
    pub start_offset: i64,
    pub duration: i64,
    pub cycle_duration: i64,
    pub color: EventColor,
    pub copy_text: String,
    pub enabled: bool,
}

/// The value of a `TimelineEvent`, its strings taken as character sequences.
pub struct TimelineEventView {
    pub name: Seq<char>,
    pub start_offset: i64,
    pub duration: i64,
    pub cycle_duration: i64,
    pub color: EventColor,
    pub copy_text: Seq<char>,
    pub enabled: bool,
}

impl View for TimelineEvent {
    type V = TimelineEventView;

    open spec fn view(&self) -> TimelineEventView {
        TimelineEventView {
            name: self.name@,
            start_offset: self.start_offset,
            duration: self.duration,
            cycle_duration: self.cycle_duration,
            color: self.color,
            copy_text: self.copy_text@,
            enabled: self.enabled,
        }
    }
}

impl Clone for TimelineEvent {
    fn clone(&self) -> (e: Self)
        ensures
            e@ == self@,
    {
        TimelineEvent {
            name: self.name.clone(),
            start_offset: self.start_offset,
            duration: self.duration,
            cycle_duration: self.cycle_duration,
            color: self.color,
            copy_text: self.copy_text.clone(),
            enabled: self.enabled,
        }
    }
}

impl Default for TimelineEvent {
    /// A new, enabled five-minute event repeating every two hours.
    fn default() -> (e: Self)
        ensures
            e@.name == "New Event"@,
            e@.start_offset == 0,
            e@.duration == 300,
            e@.cycle_duration == 7200,
            e@.color == EventColor::default_spec(),
            e@.copy_text == Seq::<char>::empty(),
            e@.enabled,
    {
        TimelineEvent {
            name: String::from_str("New Event"),
            start_offset: 0,
            duration: 300,
            cycle_duration: 7200,
            color: EventColor::default(),
            copy_text: String::new(),
            enabled: true,
        }
    }
}

/// A named row of the timeline with its events.
#[derive(Debug)]
pub struct EventTrack {
    pub name: String,
    pub timeline_type: TimelineType,
    pub events: Vec<TimelineEvent>,
    pub base_time: i64,
    pub visible: bool,
    pub height: FloatBits,
    pub category: String,
}

/// The value of an `EventTrack`.
pub struct EventTrackView {
    pub name: Seq<char>,
    pub timeline_type: TimelineType,
    pub events: Seq<TimelineEventView>,
    pub base_time: i64,
    pub visible: bool,
    pub height: FloatBits,
    pub category: Seq<char>,
}

/// The values of a sequence of events.
pub open spec fn events_view(events: Seq<TimelineEvent>) -> Seq<TimelineEventView> {
    events.map_values(|e: TimelineEvent| e@)
}

/// The values of a sequence of tracks.
pub open spec fn tracks_view(tracks: Seq<EventTrack>) -> Seq<EventTrackView> {
    tracks.map_values(|t: EventTrack| t@)
}

impl View for EventTrack {
    type V = EventTrackView;

    open spec fn view(&self) -> EventTrackView {
        EventTrackView {
            name: self.name@,
            timeline_type: self.timeline_type,
            events: events_view(self.events@),
            base_time: self.base_time,
            visible: self.visible,
            height: self.height,
            category: self.category@,
        }
    }
}

impl Clone for EventTrack {
    fn clone(&self) -> (t: Self)
        ensures
            t@ == self@,
    {
        let events = self.events.clone();
        assert(events_view(events@) =~= events_view(self.events@));
        EventTrack {
            name: self.name.clone(),
            timeline_type: self.timeline_type,
            events,
            base_time: self.base_time,
            visible: self.visible,
            height: self.height,
            category: self.category.clone(),
        }
    }
}

impl Default for EventTrack {
    /// A new, empty, visible game-time track of the default height.
    fn default() -> (t: Self)
        ensures
            t@.name == "New Track"@,
            t@.timeline_type == TimelineType::GameTime,
            t@.events == Seq::<TimelineEventView>::empty(),
            t@.base_time == 0,
            t@.visible,
            t@.height == FloatBits(BITS_40_0),
            t@.category == Seq::<char>::empty(),
    {
        let t = EventTrack {
            name: String::from_str("New Track"),
            timeline_type: TimelineType::GameTime,
            events: Vec::new(),
            base_time: 0,
            visible: true,
            height: FloatBits(BITS_40_0),
            category: String::new(),
        };
        assert(events_view(t.events@) =~= Seq::<TimelineEventView>::empty());
        t
    }
}

} // verus!
