use vstd::prelude::*;

verus! {

/// Identifies one event by the name of its track and its own name.
#[derive(Debug, Hash)]
pub struct TrackedEventId {
    pub track_name: String,
    pub event_name: String,
}

impl TrackedEventId {
    /// The identifier of event `event_name` on track `track_name`.
    pub fn new(track_name: &str, event_name: &str) -> (id: Self)
        ensures
            id.track_name@ == track_name@,
            id.event_name@ == event_name@,
    {
        TrackedEventId { track_name: track_name.to_owned(), event_name: event_name.to_owned() }
    }

    /// The text shown for the event: its track name, a colon and a space,
    /// then its own name.
    pub open spec fn display_text(&self) -> Seq<char> {
        self.track_name@ + seq![':', ' '] + self.event_name@
    }

    /// The name shown in notification lists.
    pub fn display_name(&self) -> (s: String)
        ensures
            s@ == self.display_text(),
            s@ == self.track_name@ + seq![':', ' '] + self.event_name@,
    {
        let mut s = self.track_name.clone();
        proof {
            reveal_strlit(": ");
        }
        s.append(": ");
        s.append(self.event_name.as_str());
        s
    }
}

impl Clone for TrackedEventId {
    fn clone(&self) -> (id: Self)
        ensures
            id.track_name@ == self.track_name@,
            id.event_name@ == self.event_name@,
    {
        TrackedEventId { track_name: self.track_name.clone(), event_name: self.event_name.clone() }
    }
}

impl PartialEq for TrackedEventId {
    fn eq(&self, other: &Self) -> (r: bool) {
        self.track_name == other.track_name && self.event_name == other.event_name
    }
}

impl vstd::std_specs::cmp::PartialEqSpecImpl for TrackedEventId {
    open spec fn obeys_eq_spec() -> bool {
        true
    }

    open spec fn eq_spec(&self, other: &Self) -> bool {
        self.track_name@ == other.track_name@ && self.event_name@ == other.event_name@
    }
}

impl Eq for TrackedEventId {
}

/// The display text of every identifier is its track name, then a colon
/// and a space, then its event name, whatever their lengths.
pub proof fn law_display_text_parts(id: TrackedEventId)
    ensures
        id.display_text().len() == id.track_name@.len() + 2 + id.event_name@.len(),
        id.display_text().subrange(0, id.track_name@.len() as int) == id.track_name@,
        id.display_text()[id.track_name@.len() as int] == ':',
        id.display_text()[id.track_name@.len() as int + 1] == ' ',
        id.display_text().subrange(
            id.track_name@.len() as int + 2,
            id.display_text().len() as int,
        ) == id.event_name@,
{
    let t = id.track_name@;
    let e = id.event_name@;
    let d = id.display_text();
    assert(d.subrange(0, t.len() as int) =~= t);
    assert(d.subrange(t.len() as int + 2, d.len() as int) =~= e);
}

} // verus!
