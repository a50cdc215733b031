use vstd::prelude::*;

verus! {

/// Anchor corner of toast notifications.
#[derive(Debug, Clone, Copy, PartialEq, Eq, Structural)]
pub enum ToastPosition {
    TopRight,
    TopLeft,
    BottomRight,
    BottomLeft,
}

impl Default for ToastPosition {
    fn default() -> (p: Self)
        ensures
            p == ToastPosition::TopRight,
    {
        ToastPosition::TopRight
    }
}

/// Horizontal alignment of category headers.
#[derive(Debug, Clone, Copy, PartialEq, Eq, Structural)]
pub enum TextAlignment {
    Left,
    Center,
    Right,
}

impl Default for TextAlignment {
    fn default() -> (a: Self)
        ensures
            a == TextAlignment::Center,
    {
        TextAlignment::Center
    }
}

/// Where the label column is drawn; `Hidden` when it is not drawn.
#[derive(Debug, Clone, Copy, PartialEq, Eq, Structural)]
pub enum LabelColumnPosition {
    Hidden,
    Left,
    Right,
}

impl Default for LabelColumnPosition {
    fn default() -> (p: Self)
        ensures
            p == LabelColumnPosition::Hidden,
    {
        LabelColumnPosition::Hidden
    }
}

/// Spacing of the time ruler markers.
#[derive(Debug, Clone, Copy, PartialEq, Eq, Structural)]
pub enum TimeRulerInterval {
    Minutes5,
    Minutes10,
    Minutes15,
    Minutes20,
    Minutes30,
    Minutes60,
}

impl TimeRulerInterval {
    /// The marker spacing in minutes.
    pub open spec fn minutes(self) -> int {
        match self {
            TimeRulerInterval::Minutes5 => 5,
            TimeRulerInterval::Minutes10 => 10,
            TimeRulerInterval::Minutes15 => 15,
            TimeRulerInterval::Minutes20 => 20,
            TimeRulerInterval::Minutes30 => 30,
            TimeRulerInterval::Minutes60 => 60,
        }
    }

    /// The text shown for the interval: its minutes followed by " min".
    pub open spec fn label_text(self) -> Seq<char> {
        match self {
            TimeRulerInterval::Minutes5 => seq!['5', ' ', 'm', 'i', 'n'],
            TimeRulerInterval::Minutes10 => seq!['1', '0', ' ', 'm', 'i', 'n'],
            TimeRulerInterval::Minutes15 => seq!['1', '5', ' ', 'm', 'i', 'n'],
            TimeRulerInterval::Minutes20 => seq!['2', '0', ' ', 'm', 'i', 'n'],
            TimeRulerInterval::Minutes30 => seq!['3', '0', ' ', 'm', 'i', 'n'],
            TimeRulerInterval::Minutes60 => seq!['6', '0', ' ', 'm', 'i', 'n'],
        }
    }

    /// All intervals, in ascending order of spacing.
    pub open spec fn all_spec() -> Seq<TimeRulerInterval> {
        seq![
            TimeRulerInterval::Minutes5,
            TimeRulerInterval::Minutes10,
            TimeRulerInterval::Minutes15,
            TimeRulerInterval::Minutes20,
            TimeRulerInterval::Minutes30,
            TimeRulerInterval::Minutes60,
        ]
    }

    /// The spacing in seconds.
    pub fn as_seconds(&self) -> (s: i64)
        ensures
            s == self.minutes() * 60,
    {
        match self {
            TimeRulerInterval::Minutes5 => 300,
            TimeRulerInterval::Minutes10 => 600,
            TimeRulerInterval::Minutes15 => 900,
            TimeRulerInterval::Minutes20 => 1200,
            TimeRulerInterval::Minutes30 => 1800,
            TimeRulerInterval::Minutes60 => 3600,
        }
    }

    /// The label shown in the settings UI.
    pub fn label(&self) -> (l: &'static str)
        ensures
            l@ == self.label_text(),
    {
        match self {
            TimeRulerInterval::Minutes5 => {
                proof {
                    reveal_strlit("5 min");
                }
                "5 min"
            },
            TimeRulerInterval::Minutes10 => {
                proof {
                    reveal_strlit("10 min");
                }
                "10 min"
            },
            TimeRulerInterval::Minutes15 => {
                proof {
                    reveal_strlit("15 min");
                }
                "15 min"
            },
            TimeRulerInterval::Minutes20 => {
                proof {
                    reveal_strlit("20 min");
                }
                "20 min"
            },
            TimeRulerInterval::Minutes30 => {
                proof {
                    reveal_strlit("30 min");
                }
                "30 min"
            },
            TimeRulerInterval::Minutes60 => {
                proof {
                    reveal_strlit("60 min");
                }
                "60 min"
            },
        }
    }

    /// Every interval, for the settings drop-down.
    pub fn all() -> (v: Vec<TimeRulerInterval>)
        ensures
            v@ == Self::all_spec(),
    {
        vec![
            TimeRulerInterval::Minutes5,
            TimeRulerInterval::Minutes10,
            TimeRulerInterval::Minutes15,
            TimeRulerInterval::Minutes20,
            TimeRulerInterval::Minutes30,
            TimeRulerInterval::Minutes60,
        ]
    }
}

impl Default for TimeRulerInterval {
    fn default() -> (i: Self)
        ensures
            i == TimeRulerInterval::Minutes5,
    {
        TimeRulerInterval::Minutes5
    }
}

/// Every interval appears in `all`, exactly once, in ascending order of
/// spacing.
pub proof fn law_all_intervals()
    ensures
        forall|x: TimeRulerInterval| #[trigger] TimeRulerInterval::all_spec().contains(x),
        forall|i: int, j: int|
            0 <= i < j < TimeRulerInterval::all_spec().len() ==> (
            #[trigger] TimeRulerInterval::all_spec()[i]).minutes()
                < (#[trigger] TimeRulerInterval::all_spec()[j]).minutes(),
{
    let a = TimeRulerInterval::all_spec();
    assert forall|x: TimeRulerInterval| #[trigger] a.contains(x) by {
        match x {
            TimeRulerInterval::Minutes5 => assert(a[0] == x),
            TimeRulerInterval::Minutes10 => assert(a[1] == x),
            TimeRulerInterval::Minutes15 => assert(a[2] == x),
            TimeRulerInterval::Minutes20 => assert(a[3] == x),
            TimeRulerInterval::Minutes30 => assert(a[4] == x),
            TimeRulerInterval::Minutes60 => assert(a[5] == x),
        }
    }
}

} // verus!
