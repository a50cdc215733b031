use vstd::prelude::*;
use crate::tracks::{FloatBits, BITS_0_2, BITS_1_0};

verus! {

/// Bit pattern of `5.0_f32`, the default track padding.
pub const BITS_5_0: u32 = 0x40A0_0000;

/// Background and padding of one track.
#[derive(Debug, Clone, Copy, PartialEq, Eq)]
pub struct TrackVisualConfig {
    pub background_color: [FloatBits; 4],
    pub padding: FloatBits,
}

impl Default for TrackVisualConfig {
    /// Grey background (0.2, 0.2, 0.2, 1.0) and a padding of 5.0.
    fn default() -> (v: Self)
        ensures
            v.background_color@ == seq![
                FloatBits(BITS_0_2),
                FloatBits(BITS_0_2),
                FloatBits(BITS_0_2),
                FloatBits(BITS_1_0),
            ],
            v.padding == FloatBits(BITS_5_0),
    {
        let v = TrackVisualConfig {
            background_color: [
                FloatBits(BITS_0_2),
                FloatBits(BITS_0_2),
                FloatBits(BITS_0_2),
                FloatBits(BITS_1_0),
            ],
            padding: FloatBits(BITS_5_0),
        };
        assert(v.background_color@ =~= seq![
            FloatBits(BITS_0_2),
            FloatBits(BITS_0_2),
            FloatBits(BITS_0_2),
            FloatBits(BITS_1_0),
        ]);
        v
    }
}

/// What the user changed on one default track.
#[derive(Debug)]
pub struct TrackOverride {
    pub visible: Option<bool>,
    pub height: Option<FloatBits>,
    pub disabled_events: Vec<String>,
    pub visual: Option<TrackVisualConfig>,
}

/// The value of a `TrackOverride`.
pub struct TrackOverrideView {
    pub visible: Option<bool>,
    pub height: Option<FloatBits>,
    pub disabled_events: Seq<Seq<char>>,
    pub visual: Option<TrackVisualConfig>,
}

/// The character sequences of a sequence of strings.
pub open spec fn strings_view(s: Seq<String>) -> Seq<Seq<char>> {
    s.map_values(|x: String| x@)
}

impl View for TrackOverride {
    type V = TrackOverrideView;

    open spec fn view(&self) -> TrackOverrideView {
        TrackOverrideView {
            visible: self.visible,
            height: self.height,
            disabled_events: strings_view(self.disabled_events@),
            visual: self.visual,
        }
    }
}

impl Clone for TrackOverride {
    fn clone(&self) -> (o: Self)
        ensures
            o@ == self@,
    {
        let disabled_events = self.disabled_events.clone();
        assert(strings_view(disabled_events@) =~= strings_view(self.disabled_events@));
        TrackOverride {
            visible: self.visible,
            height: self.height,
            disabled_events,
            visual: self.visual,
        }
    }
}

impl Default for TrackOverride {
    /// An override that changes nothing.
    fn default() -> (o: Self)
        ensures
            o@ == TrackOverride::empty_spec(),
    {
        let o = TrackOverride {
            visible: None,
            height: None,
            disabled_events: Vec::new(),
            visual: None,
        };
        assert(o@.disabled_events =~= Seq::<Seq<char>>::empty());
        o
    }
}

impl TrackOverride {
    /// The override that changes nothing.
    pub open spec fn empty_spec() -> TrackOverrideView {
        TrackOverrideView {
            visible: None,
            height: None,
            disabled_events: Seq::empty(),
            visual: None,
        }
    }
}

/// The overrides of the user, keyed by track name; no name occurs twice.
#[derive(Debug)]
pub struct OverrideTable {
    entries: Vec<(String, TrackOverride)>,
}

impl OverrideTable {
    /// The names of the entries, in order.
    closed spec fn names(&self) -> Seq<Seq<char>> {
        self.entries@.map_values(|e: (String, TrackOverride)| e.0@)
    }

    /// Some entry carries the name `k`.
    pub closed spec fn has_name(&self, k: Seq<char>) -> bool {
        exists|i: int| 0 <= i < self.names().len() && #[trigger] self.names()[i] == k
    }

    /// The position of the entry named `k`.
    closed spec fn index_of(&self, k: Seq<char>) -> int {
        choose|i: int| 0 <= i < self.names().len() && #[trigger] self.names()[i] == k
    }

    /// No two entries carry the same name.
    pub closed spec fn wf(&self) -> bool {
        forall|i: int, j: int|
            0 <= i < self.entries@.len() && 0 <= j < self.entries@.len() && i != j
                ==> #[trigger] self.entries@[i].0@ != #[trigger] self.entries@[j].0@
    }

    proof fn lemma_entry(&self, j: int)
        requires
            self.wf(),
            0 <= j < self.entries@.len(),
        ensures
            self@.contains_key(self.entries@[j].0@),
            self@[self.entries@[j].0@] == self.entries@[j].1@,
            self.index_of(self.entries@[j].0@) == j,
    {
        let k = self.entries@[j].0@;
        assert(self.names()[j] == k);
        assert(self.has_name(k));
        let i = self.index_of(k);
        assert(self.names()[i] == k);
        assert(self.entries@[i].0@ == k);
    }

    /// Two well-formed tables whose entries agree except at position `p`,
    /// where the new table holds the name `k` (and the old one, if it has
    /// that position, holds `k` too), agree on every other name.
    proof fn lemma_other_keys_kept(old_t: OverrideTable, new_t: OverrideTable, k: Seq<char>, p: int)
        requires
            old_t.wf(),
            new_t.wf(),
            0 <= p < new_t.entries@.len(),
            new_t.entries@[p].0@ == k,
            p < old_t.entries@.len() ==> old_t.entries@[p].0@ == k,
            new_t.entries@.len() == old_t.entries@.len() || (new_t.entries@.len()
                == old_t.entries@.len() + 1 && p == old_t.entries@.len()),
            forall|j: int|
                0 <= j < old_t.entries@.len() && j != p ==> #[trigger] new_t.entries@[j]
                    == old_t.entries@[j],
        ensures
            forall|key: Seq<char>|
                #![trigger new_t@.contains_key(key)]
                #![trigger old_t@.contains_key(key)]
                key != k ==> (new_t@.contains_key(key) == old_t@.contains_key(key) && (
                new_t@.contains_key(key) ==> new_t@[key] == old_t@[key])),
    {
        assert forall|key: Seq<char>|
            #![trigger new_t@.contains_key(key)]
            #![trigger old_t@.contains_key(key)]
            key != k implies (new_t@.contains_key(key) == old_t@.contains_key(key) && (
            new_t@.contains_key(key) ==> new_t@[key] == old_t@[key])) by {
            if new_t@.contains_key(key) {
                let j = new_t.index_of(key);
                assert(new_t.names()[j] == key);
                assert(j != p);
                assert(new_t.entries@[j] == old_t.entries@[j]);
                old_t.lemma_entry(j);
                new_t.lemma_entry(j);
            }
            if old_t@.contains_key(key) {
                let j = old_t.index_of(key);
                assert(old_t.names()[j] == key);
                assert(j != p);
                assert(new_t.entries@[j] == old_t.entries@[j]);
                new_t.lemma_entry(j);
                old_t.lemma_entry(j);
            }
        }
    }

    /// An empty table.
    pub fn new() -> (t: Self)
        ensures
            t.wf(),
            t@ == Map::<Seq<char>, TrackOverrideView>::empty(),
    {
        let t = OverrideTable { entries: Vec::new() };
        assert(t@ =~= Map::<Seq<char>, TrackOverrideView>::empty());
        t
    }

    /// Whether the table holds no override.
    pub fn is_empty(&self) -> (b: bool)
        requires
            self.wf(),
        ensures
            b == (self@ == Map::<Seq<char>, TrackOverrideView>::empty()),
    {
        if self.entries.len() == 0 {
            assert(self@ =~= Map::<Seq<char>, TrackOverrideView>::empty());
            true
        } else {
            proof {
                self.lemma_entry(0);
                assert(!Map::<Seq<char>, TrackOverrideView>::empty().contains_key(
                    self.entries@[0].0@,
                ));
            }
            false
        }
    }

    /// The position of the entry named `name`, if any.
    fn find(&self, name: &String) -> (r: Option<usize>)
        requires
            self.wf(),
        ensures
            match r {
                Some(i) => i < self.entries@.len() && self.entries@[i as int].0@ == name@,
                None => !self@.contains_key(name@),
            },
    {
        let mut i: usize = 0;
        while i < self.entries.len()
            invariant
                i <= self.entries@.len(),
                forall|j: int| 0 <= j < i ==> #[trigger] self.entries@[j].0@ != name@,
            decreases self.entries@.len() - i,
        {
            if self.entries[i].0 == *name {
                return Some(i);
            }
            i = i + 1;
        }
        None
    }

    /// The override of the track named `name`.
    pub fn get(&self, name: &String) -> (r: Option<&TrackOverride>)
        requires
            self.wf(),
        ensures
            match r {
                Some(o) => self@.contains_key(name@) && self@[name@] == o@,
                None => !self@.contains_key(name@),
            },
    {
        match self.find(name) {
            Some(i) => {
                proof {
                    self.lemma_entry(i as int);
                }
                Some(&self.entries[i].1)
            },
            None => None,
        }
    }

    /// Sets the override of the track named `name`, replacing any earlier one.
    pub fn insert(&mut self, name: String, data: TrackOverride)
        requires
            old(self).wf(),
        ensures
            final(self).wf(),
            final(self)@ == old(self)@.insert(name@, data@),
    {
        let ghost k = name@;
        let ghost v = data@;
        match self.find(&name) {
            Some(i) => {
                self.entries.set(i, (name, data));
                proof {
                    self.lemma_entry(i as int);
                    old(self).lemma_entry(i as int);
                    OverrideTable::lemma_other_keys_kept(*old(self), *self, k, i as int);
                    assert(self@ =~= old(self)@.insert(k, v));
                }
            },
            None => {
                self.entries.push((name, data));
                proof {
                    let n = self.entries@.len() - 1;
                    assert forall|a: int, b: int|
                        0 <= a < self.entries@.len() && 0 <= b < self.entries@.len() && a != b
                            implies #[trigger] self.entries@[a].0@
                            != #[trigger] self.entries@[b].0@ by {
                        if a == n {
                            assert(self.entries@[b] == old(self).entries@[b]);
                            if old(self).entries@[b].0@ == k {
                                old(self).lemma_entry(b);
                            }
                        } else if b == n {
                            assert(self.entries@[a] == old(self).entries@[a]);
                            if old(self).entries@[a].0@ == k {
                                old(self).lemma_entry(a);
                            }
                        } else {
                            assert(self.entries@[a] == old(self).entries@[a]);
                            assert(self.entries@[b] == old(self).entries@[b]);
                        }
                    }
                    self.lemma_entry(n);
                    OverrideTable::lemma_other_keys_kept(*old(self), *self, k, n);
                    assert(self@ =~= old(self)@.insert(k, v));
                }
            },
        }
    }
    /// The entries of the table, each name once, in no promised order.
    pub fn entries(&self) -> (r: &Vec<(String, TrackOverride)>)
        requires
            self.wf(),
        ensures
            forall|i: int|
                0 <= i < r@.len() ==> self@.contains_key(#[trigger] r@[i].0@) && self@[r@[i].0@]
                    == r@[i].1@,
            forall|k: Seq<char>|
                #[trigger] self@.contains_key(k) ==> exists|i: int|
                    0 <= i < r@.len() && #[trigger] r@[i].0@ == k,
            forall|i: int, j: int|
                0 <= i < r@.len() && 0 <= j < r@.len() && i != j ==> #[trigger] r@[i].0@
                    != #[trigger] r@[j].0@,
    {
        proof {
            assert forall|i: int| 0 <= i < self.entries@.len() implies self@.contains_key(
                #[trigger] self.entries@[i].0@,
            ) && self@[self.entries@[i].0@] == self.entries@[i].1@ by {
                self.lemma_entry(i);
            }
        }
        &self.entries
    }
}

impl Clone for OverrideTable {
    fn clone(&self) -> (t: Self)
        ensures
            t@ == self@,
            self.wf() ==> t.wf(),
    {
        let mut entries: Vec<(String, TrackOverride)> = Vec::new();
        let mut i: usize = 0;
        while i < self.entries.len()
            invariant
                i <= self.entries@.len(),
                entries@.len() == i,
                forall|j: int|
                    0 <= j < i ==> #[trigger] entries@[j].0@ == self.entries@[j].0@
                        && entries@[j].1@ == self.entries@[j].1@,
            decreases self.entries@.len() - i,
        {
            let name = self.entries[i].0.clone();
            let data = self.entries[i].1.clone();
            entries.push((name, data));
            i = i + 1;
        }
        let t = OverrideTable { entries };
        assert(t.names() =~= self.names());
        assert(t@ =~= self@);
        t
    }

}

impl View for OverrideTable {
    type V = Map<Seq<char>, TrackOverrideView>;

    closed spec fn view(&self) -> Map<Seq<char>, TrackOverrideView> {
        Map::new(|k: Seq<char>| self.has_name(k), |k: Seq<char>| self.entries@[self.index_of(k)].1@)
    }
}

} // verus!
