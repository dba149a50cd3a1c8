use vstd::prelude::*;
use crate::frame::{count_members, SlotSet, SLOTS};
use crate::geometry::{Direction, Fraction};

verus! {

/// A step that was performed: the slots are those of the fingers involved,
/// and a move carries how far it went, in parts per million of the touchpad
/// dimension along its axis.
pub enum PerformedSequenceStep {
    Move { slots: SlotSet, direction: Direction, distance: u64 },
    TouchUp { slots: SlotSet },
    TouchDown { slots: SlotSet },
}

/// What a performed step is: its slot set as a table indexed by slot id.
pub ghost enum Performed {
    Move { slots: Seq<bool>, direction: Direction, distance: u64 },
    TouchUp { slots: Seq<bool> },
    TouchDown { slots: Seq<bool> },
}

impl View for PerformedSequenceStep {
    type V = Performed;

    open spec fn view(&self) -> Performed {
        match self {
            PerformedSequenceStep::Move { slots, direction, distance } => Performed::Move {
                slots: slots@,
                direction: *direction,
                distance: *distance,
            },
            PerformedSequenceStep::TouchUp { slots } => Performed::TouchUp { slots: slots@ },
            PerformedSequenceStep::TouchDown { slots } => Performed::TouchDown { slots: slots@ },
        }
    }
}

impl Performed {
    /// The slot set of the step.
    pub open spec fn slot_table(self) -> Seq<bool> {
        match self {
            Performed::Move { slots, .. } => slots,
            Performed::TouchUp { slots } => slots,
            Performed::TouchDown { slots } => slots,
        }
    }

    /// A touch-down or touch-up step.
    pub open spec fn is_touch(self) -> bool {
        !(self is Move)
    }
}

impl PerformedSequenceStep {
    /// Every slot set has room for every slot id.
    pub open spec fn wf(&self) -> bool {
        self@.slot_table().len() == SLOTS
    }

    /// The slots of the fingers involved.
    pub fn slots(&self) -> (r: &SlotSet)
        ensures
            r@ == self@.slot_table(),
    {
        match self {
            PerformedSequenceStep::Move { slots, .. } => slots,
            PerformedSequenceStep::TouchUp { slots } => slots,
            PerformedSequenceStep::TouchDown { slots } => slots,
        }
    }

    /// The direction of a move step.
    pub fn direction(&self) -> (r: Option<Direction>)
        ensures
            r == match self@ {
                Performed::Move { direction, .. } => Some(direction),
                _ => None::<Direction>,
            },
    {
        match self {
            PerformedSequenceStep::Move { direction, .. } => Some(*direction),
            _ => None,
        }
    }

    /// The distance of a move step, in parts per million.
    pub fn distance(&self) -> (r: Option<u64>)
        ensures
            r == match self@ {
                Performed::Move { distance, .. } => Some(distance),
                _ => None::<u64>,
            },
    {
        match self {
            PerformedSequenceStep::Move { distance, .. } => Some(*distance),
            _ => None,
        }
    }

    /// Whether this is a touch-down step.
    pub fn is_touch_down(&self) -> (r: bool)
        ensures
            r == self@ is TouchDown,
    {
        matches!(self, PerformedSequenceStep::TouchDown { .. })
    }

    /// Whether this is a touch-up step.
    pub fn is_touch_up(&self) -> (r: bool)
        ensures
            r == self@ is TouchUp,
    {
        matches!(self, PerformedSequenceStep::TouchUp { .. })
    }
}

/// A step of a gesture as the catalog defines it.
#[derive(Debug, Clone, Copy, PartialEq, Eq, Structural)]
pub enum DefinedSequenceStep {
    TouchDown { fingers: u8 },
    TouchUp { fingers: u8 },
    Move { fingers: u8, direction: Direction, distance: Option<Fraction> },
}

/// A step's minimum distance as written: a fraction, or the name of one in the options.
#[derive(Debug, Clone, PartialEq, Eq)]
pub enum Distance {
    Variable(String),
    Fixed(Fraction),
}

/// A step of a gesture before named distances are resolved.
#[derive(Debug, Clone, PartialEq, Eq)]
pub enum DefinedSequenceStepRaw {
    TouchDown { fingers: u8 },
    TouchUp { fingers: u8 },
    Move { fingers: u8, direction: Direction, distance: Option<Distance> },
}

/// Whether a defined step is met by a performed one: same kind, as many fingers as
/// slots, same direction, and at least the minimum distance where one is set.
pub open spec fn step_matches(d: DefinedSequenceStep, p: Performed) -> bool {
    match d {
        DefinedSequenceStep::TouchDown { fingers } => p is TouchDown && count_members(p.slot_table()) == fingers,
        DefinedSequenceStep::TouchUp { fingers } => p is TouchUp && count_members(p.slot_table()) == fingers,
        DefinedSequenceStep::Move { fingers, direction, distance } => match p {
            Performed::Move { slots, direction: pd, distance: pdist } => {
                &&& count_members(slots) == fingers
                &&& pd == direction
                &&& (distance matches Some(f) ==> pdist >= f.ppm)
            },
            _ => false,
        },
    }
}

/// The minimum distance of a move step, zero when none is set or for touch steps.
pub open spec fn min_distance_of(d: DefinedSequenceStep) -> u32 {
    match d {
        DefinedSequenceStep::Move { distance: Some(f), .. } => f.ppm,
        _ => 0,
    }
}

/// The minimum distances of a defined step, resolved against `(name, value)` pairs;
/// the name is returned when it has no value.
pub open spec fn resolve_spec(raw: DefinedSequenceStepRaw, distances: Seq<(Seq<char>, Fraction)>) -> Result<DefinedSequenceStep, Seq<char>> {
    match raw {
        DefinedSequenceStepRaw::TouchDown { fingers } => Ok(DefinedSequenceStep::TouchDown { fingers }),
        DefinedSequenceStepRaw::TouchUp { fingers } => Ok(DefinedSequenceStep::TouchUp { fingers }),
        DefinedSequenceStepRaw::Move { fingers, direction, distance } => match distance {
            None => Ok(DefinedSequenceStep::Move { fingers, direction, distance: None }),
            Some(Distance::Fixed(f)) => Ok(DefinedSequenceStep::Move { fingers, direction, distance: Some(f) }),
            Some(Distance::Variable(name)) => match lookup_distance(distances, name@) {
                Some(f) => Ok(DefinedSequenceStep::Move { fingers, direction, distance: Some(f) }),
                None => Err(name@),
            },
        },
    }
}

/// The value of the first pair named `name`.
pub open spec fn lookup_distance(distances: Seq<(Seq<char>, Fraction)>, name: Seq<char>) -> Option<Fraction>
    decreases distances.len(),
{
    if distances.len() == 0 {
        None
    } else if distances[0].0 == name {
        Some(distances[0].1)
    } else {
        lookup_distance(distances.drop_first(), name)
    }
}

/// The named distances as plain values.
pub open spec fn distances_view(distances: Seq<(String, Fraction)>) -> Seq<(Seq<char>, Fraction)> {
    Seq::new(distances.len(), |i: int| (distances[i].0@, distances[i].1))
}

impl DefinedSequenceStep {
    /// Whether `other` meets this step.
    pub fn matches(&self, other: &PerformedSequenceStep) -> (r: bool)
        requires
            other.wf(),
        ensures
            r == step_matches(*self, other@),
    {
        match (self, other) {
            (DefinedSequenceStep::Move { fingers, direction, distance }, PerformedSequenceStep::Move { slots, direction: dir, distance: dst }) => {
                if *fingers as usize != slots.len() || *direction != *dir {
                    return false;
                }
                match distance {
                    Some(d) => *dst >= d.ppm as u64,
                    None => true,
                }
            },
            (DefinedSequenceStep::TouchUp { fingers }, PerformedSequenceStep::TouchUp { slots }) => *fingers as usize == slots.len(),
            (DefinedSequenceStep::TouchDown { fingers }, PerformedSequenceStep::TouchDown { slots }) => *fingers as usize == slots.len(),
            _ => false,
        }
    }

    /// The minimum distance of a move step, zero when none is set.
    pub fn min_distance(&self) -> (r: u32)
        ensures
            r == min_distance_of(*self),
    {
        match self {
            DefinedSequenceStep::Move { distance: Some(f), .. } => f.ppm,
            _ => 0,
        }
    }

    /// Resolves a named minimum distance against `distances`; an unknown name is the error.
    pub fn from_raw(raw: DefinedSequenceStepRaw, distances: &Vec<(String, Fraction)>) -> (r: Result<Self, String>)
        ensures
            match (r, resolve_spec(raw, distances_view(distances@))) {
                (Ok(s), Ok(t)) => s == t,
                (Err(e), Err(n)) => e@ == n,
                _ => false,
            },
    {
        match raw {
            DefinedSequenceStepRaw::TouchDown { fingers } => Ok(DefinedSequenceStep::TouchDown { fingers }),
            DefinedSequenceStepRaw::TouchUp { fingers } => Ok(DefinedSequenceStep::TouchUp { fingers }),
            DefinedSequenceStepRaw::Move { fingers, direction, distance } => match distance {
                None => Ok(DefinedSequenceStep::Move { fingers, direction, distance: None }),
                Some(Distance::Fixed(f)) => Ok(DefinedSequenceStep::Move { fingers, direction, distance: Some(f) }),
                Some(Distance::Variable(name)) => match find_distance(distances, &name) {
                    Some(f) => Ok(DefinedSequenceStep::Move { fingers, direction, distance: Some(f) }),
                    None => Err(name),
                },
            },
        }
    }
}

fn find_distance(distances: &Vec<(String, Fraction)>, name: &String) -> (r: Option<Fraction>)
    ensures
        r == lookup_distance(distances_view(distances@), name@),
{
    let ghost dv = distances_view(distances@);
    assert(dv.subrange(0, dv.len() as int) =~= dv);
    let mut i: usize = 0;
    while i < distances.len()
        invariant
            i <= distances@.len(),
            dv == distances_view(distances@),
            lookup_distance(dv.subrange(i as int, dv.len() as int), name@) == lookup_distance(dv, name@),
        decreases distances.len() - i,
    {
        let ghost rest = dv.subrange(i as int, dv.len() as int);
        assert(rest.drop_first() =~= dv.subrange(i + 1, dv.len() as int));
        if distances[i].0 == *name {
            return Some(distances[i].1);
        }
        i = i + 1;
    }
    assert(dv.subrange(i as int, dv.len() as int).len() == 0);
    None
}

} // verus!
