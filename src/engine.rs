use vstd::prelude::*;
use crate::config::{Config, RepeatMode};
use crate::frame::{centroid_of, count_present, empty_table, lemma_count_same_slots, occupied, singleton, SlotSet, State, SLOTS};
use crate::geometry::{
    abs_diff, edge_at, edge_of, ellipse_scale, outside_ellipse, outside_of_ellipse, side_in_ellipse, side_of, Direction,
    Edge, Fraction, MoveThresholdUnits, Position, PPM,
};
use crate::matcher::{candidates, find_commands, fired, matches_of, performed_view, texts, Window};
use crate::sequence_step::{Performed, PerformedSequenceStep};

verus! {

/// The recognizer's state, as plain values.
pub ghost struct EngineModel {
    pub previous: Seq<Option<Position>>,
    pub touch_down: Seq<Option<Position>>,
    pub step_start: Seq<Option<Position>>,
    pub performed: Seq<Performed>,
    pub repeat_mode: RepeatMode,
    pub previous_direction: Option<Direction>,
    pub starting_edge: Option<Edge>,
    pub in_progress: bool,
    pub directions: Seq<Option<Direction>>,
    pub units: MoveThresholdUnits,
    pub size: MoveThresholdUnits,
}

/// No repetition: the mode of a match at lift-off.
pub open spec fn no_repeat() -> RepeatMode {
    RepeatMode { tap: false, slide: false }
}

/// The match mode of a touch-down while fingers stay on the touchpad.
pub open spec fn tap_repeat() -> RepeatMode {
    RepeatMode { tap: true, slide: false }
}

/// The match mode of a move that leaves the threshold ellipse.
pub open spec fn slide_repeat() -> RepeatMode {
    RepeatMode { tap: false, slide: true }
}

/// A direction table with no entry.
pub open spec fn no_directions() -> Seq<Option<Direction>> {
    Seq::new(SLOTS as nat, |i: int| None)
}

/// The state's shape and its invariants: every table has room for every slot, the
/// touchpad has a size, every tracked slot was down in the previous frame, and a
/// starting edge is only kept while a gesture is in progress.
pub open spec fn model_wf(m: EngineModel) -> bool {
    &&& m.previous.len() == SLOTS
    &&& m.touch_down.len() == SLOTS
    &&& m.step_start.len() == SLOTS
    &&& m.directions.len() == SLOTS
    &&& forall|i: int| 0 <= i < m.performed.len() ==> (#[trigger] m.performed[i]).slot_table().len() == SLOTS
    &&& m.size.x > 0
    &&& m.size.y > 0
    &&& forall|i: int| 0 <= i < SLOTS ==> (#[trigger] m.touch_down[i] is Some ==> m.previous[i] is Some)
    &&& forall|i: int| 0 <= i < SLOTS ==> (#[trigger] m.step_start[i] is Some ==> m.previous[i] is Some)
    &&& forall|i: int| 0 <= i < SLOTS ==> (#[trigger] m.directions[i] is Some ==> m.previous[i] is Some)
    &&& (!m.in_progress ==> m.starting_edge is None)
}

/// Every table cleared, nothing performed; the touchpad geometry is kept.
pub open spec fn reset(m: EngineModel) -> EngineModel {
    EngineModel {
        previous: empty_table(),
        touch_down: empty_table(),
        step_start: empty_table(),
        performed: Seq::empty(),
        repeat_mode: no_repeat(),
        previous_direction: None,
        starting_edge: None,
        in_progress: false,
        directions: no_directions(),
        units: m.units,
        size: m.size,
    }
}

/// The number of touch steps at the end of `p`.
pub open spec fn trailing_touches(p: Seq<Performed>) -> nat
    decreases p.len(),
{
    if p.len() == 0 || !p.last().is_touch() {
        0
    } else {
        trailing_touches(p.drop_last()) + 1
    }
}

/// There are no more trailing touch steps than steps.
pub proof fn lemma_trailing_touches_bounded(p: Seq<Performed>)
    ensures
        trailing_touches(p) <= p.len(),
    decreases p.len(),
{
    if p.len() > 0 {
        lemma_trailing_touches_bounded(p.drop_last());
    }
}

/// There are no more trailing touch-down steps than steps.
pub proof fn lemma_trailing_touch_downs_bounded(p: Seq<Performed>)
    ensures
        trailing_touch_downs(p) <= p.len(),
        trailing_touch_downs(p) < p.len() ==> !(p[move_target(p)] is TouchDown),
    decreases p.len(),
{
    if p.len() > 0 {
        lemma_trailing_touch_downs_bounded(p.drop_last());
        if p.last() is TouchDown && trailing_touch_downs(p) < p.len() {
            assert(p[move_target(p)] == p.drop_last()[move_target(p.drop_last())]);
        }
    }
}

/// `p` without its trailing touch steps.
pub open spec fn trimmed(p: Seq<Performed>) -> Seq<Performed> {
    p.take(p.len() - trailing_touches(p))
}

/// A match in mode `mode`: the performed steps without their trailing touch steps are
/// held against the candidates; when some gesture matches, its commands fire, the
/// trailing touch steps are dropped and `mode` is recorded; else nothing changes.
pub open spec fn match_step(m: EngineModel, mode: RepeatMode, config: &Config, window: &Window) -> (EngineModel, Seq<Seq<char>>) {
    let t = trimmed(m.performed);
    let ms = matches_of(candidates(config, window), t, m.starting_edge, mode);
    if ms.len() > 0 {
        (EngineModel { performed: t, repeat_mode: mode, ..m }, fired(ms, config.options.run_all_matches))
    } else {
        (m, Seq::empty())
    }
}

/// All fingers lifted: a final match unless a repetition consumed the gesture, then a reset.
pub open spec fn lift_step(m: EngineModel, config: &Config, window: &Window) -> (EngineModel, Seq<Seq<char>>) {
    let cmds = if m.repeat_mode == no_repeat() { match_step(m, no_repeat(), config, window).1 } else { Seq::empty() };
    (reset(m), cmds)
}

/// The edge of the lowest slot below `n` whose finger is at an edge.
pub open spec fn edge_scan(frame: Seq<Option<Position>>, size: MoveThresholdUnits, threshold: Fraction, n: int) -> Option<Edge>
    decreases n,
{
    if n <= 0 {
        None
    } else {
        let e = edge_scan(frame, size, threshold, n - 1);
        if e is Some {
            e
        } else {
            match frame[n - 1] {
                Some(p) => edge_of(p, size, threshold),
                None => None,
            }
        }
    }
}

/// Slots tracked in `t` whose finger is no longer down in `frame`.
pub open spec fn lifted(t: Seq<Option<Position>>, frame: Seq<Option<Position>>) -> Seq<bool> {
    Seq::new(SLOTS as nat, |i: int| t[i] is Some && frame[i] is None)
}

/// Whether some slot is set.
pub open spec fn any_set(s: Seq<bool>) -> bool {
    exists|i: int| 0 <= i < s.len() && s[i]
}

/// The union of two slot-set tables.
pub open spec fn union(a: Seq<bool>, b: Seq<bool>) -> Seq<bool> {
    Seq::new(SLOTS as nat, |i: int| a[i] || b[i])
}

/// `t` restricted to the slots down in `frame`, with their frame position where `t` has none.
pub open spec fn keep_or_fill(t: Seq<Option<Position>>, frame: Seq<Option<Position>>) -> Seq<Option<Position>> {
    Seq::new(SLOTS as nat, |i: int| if frame[i] is None { None } else if t[i] is Some { t[i] } else { frame[i] })
}

/// Insertion of new slots and eviction of lifted ones; a lift appends or extends a
/// touch-up step when no repetition is under way, and then re-seats the touch-down points.
pub open spec fn track_phase(m: EngineModel, frame: Seq<Option<Position>>, threshold: Fraction) -> EngineModel {
    let base = EngineModel {
        touch_down: keep_or_fill(m.touch_down, frame),
        step_start: keep_or_fill(m.step_start, frame),
        directions: Seq::new(SLOTS as nat, |i: int| if frame[i] is None { None } else { m.directions[i] }),
        starting_edge: if m.in_progress { m.starting_edge } else { edge_scan(frame, m.size, threshold, SLOTS as int) },
        in_progress: true,
        ..m
    };
    let up = lifted(m.touch_down, frame);
    let n = m.performed.len();
    if !any_set(up) {
        base
    } else if n > 0 && m.performed.last() is TouchUp {
        EngineModel {
            performed: m.performed.update(n - 1, Performed::TouchUp { slots: union(m.performed.last().slot_table(), up) }),
            ..base
        }
    } else if m.repeat_mode == no_repeat() {
        EngineModel { performed: m.performed.push(Performed::TouchUp { slots: up }), touch_down: frame, ..base }
    } else {
        base
    }
}

/// The direction of the frame's centroid from the touch-down centroid.
pub open spec fn frame_direction(m: EngineModel, frame: Seq<Option<Position>>) -> Direction {
    let c = centroid_of(frame).unwrap();
    let tc = centroid_of(m.touch_down).unwrap();
    side_of(c.x - tc.x, c.y - tc.y, m.units.x as int, m.units.y as int)
}

/// Whether the touch-down centroid is at an edge.
pub open spec fn reference_at_edge(m: EngineModel, threshold: Fraction) -> bool {
    edge_of(centroid_of(m.touch_down).unwrap(), m.size, threshold) is Some
}

/// A change of direction ends the current move: the step start points are re-seated at
/// the turning point, the previous frame (a finger new in this frame starts where it is),
/// and at an edge the last move step is re-aimed.
pub open spec fn direction_phase(m: EngineModel, frame: Seq<Option<Position>>, threshold: Fraction) -> EngineModel {
    let dir = frame_direction(m, frame);
    let n = m.performed.len();
    if m.previous_direction == Some(dir) {
        m
    } else {
        let performed = if n > 0 && m.performed.last() is Move && m.performed.last()->Move_direction != dir
            && reference_at_edge(m, threshold) {
            m.performed.update(
                n - 1,
                Performed::Move {
                    slots: m.performed.last()->Move_slots,
                    direction: dir,
                    distance: m.performed.last()->Move_distance,
                },
            )
        } else {
            m.performed
        };
        EngineModel { step_start: keep_or_fill(m.previous, frame), performed, previous_direction: Some(dir), ..m }
    }
}

/// The length along `d`'s axis of the offset between `a` and `b`, in parts per million
/// of the touchpad dimension on that axis.
pub open spec fn moved(a: Position, b: Position, d: Direction, size: MoveThresholdUnits) -> u64 {
    match d {
        Direction::Up | Direction::Down => (abs_diff(a.y as int, b.y as int) * PPM / size.y as int) as u64,
        Direction::Left | Direction::Right => (abs_diff(a.x as int, b.x as int) * PPM / size.x as int) as u64,
    }
}

/// Whether the centroid has left the move-threshold ellipse around the touch-down centroid.
pub open spec fn leaves_ellipse(m: EngineModel, frame: Seq<Option<Position>>, edge: crate::config::EdgeOptions) -> bool {
    let c = centroid_of(frame).unwrap();
    let tc = centroid_of(m.touch_down).unwrap();
    outside_ellipse(
        c.x - tc.x,
        c.y - tc.y,
        m.units.x as int,
        m.units.y as int,
        ellipse_scale(reference_at_edge(m, edge.threshold), edge.sensitivity),
    )
}

/// The number of touch-down steps at the end of `p`.
pub open spec fn trailing_touch_downs(p: Seq<Performed>) -> nat
    decreases p.len(),
{
    if p.len() == 0 || !(p.last() is TouchDown) {
        0
    } else {
        trailing_touch_downs(p.drop_last()) + 1
    }
}

/// The position of the step a move extends or refines: the last one once trailing
/// touch-down steps are set aside, so that a finger landing during a move joins it;
/// negative when there is none.
pub open spec fn move_target(p: Seq<Performed>) -> int {
    p.len() - 1 - trailing_touch_downs(p)
}

/// Leaving the ellipse commits a move: the fingers get its direction; when the target
/// step is a move in that direction it takes the fingers down and keeps the larger of
/// its distance and the new one, else a new move is appended; the touch-down points are
/// re-seated, and a slide match follows.
pub open spec fn commit_phase(m: EngineModel, frame: Seq<Option<Position>>, config: &Config, window: &Window) -> (EngineModel, Seq<Seq<char>>) {
    if !leaves_ellipse(m, frame, config.options.edge) {
        (m, Seq::empty())
    } else {
        match_step(committed(m, frame), slide_repeat(), config, window)
    }
}

/// The state after a move is committed, before the slide match.
pub open spec fn committed(m: EngineModel, frame: Seq<Option<Position>>) -> EngineModel {
    let dir = frame_direction(m, frame);
    let dist = moved(centroid_of(frame).unwrap(), centroid_of(m.step_start).unwrap(), dir, m.size);
    let t = move_target(m.performed);
    let performed = if t >= 0 && m.performed[t] is Move && m.performed[t]->Move_direction == dir {
        let kept = m.performed[t]->Move_distance;
        m.performed.update(
            t,
            Performed::Move { slots: occupied(frame), direction: dir, distance: if dist > kept { dist } else { kept } },
        )
    } else {
        m.performed.push(Performed::Move { slots: occupied(frame), direction: dir, distance: dist })
    };
    let directions = Seq::new(SLOTS as nat, |i: int| if frame[i] is Some { Some(dir) } else { m.directions[i] });
    EngineModel { directions, performed, touch_down: frame, ..m }
}

/// The last step after the slots below `n` with a recorded direction equal to its own
/// joined it and raised its distance to their own displacement from the step start.
pub open spec fn refine_step(
    last: Performed,
    frame: Seq<Option<Position>>,
    start: Seq<Option<Position>>,
    directions: Seq<Option<Direction>>,
    size: MoveThresholdUnits,
    n: int,
) -> Performed
    decreases n,
{
    if n <= 0 {
        last
    } else {
        let prev = refine_step(last, frame, start, directions, size, n - 1);
        let i = n - 1;
        if frame[i] is Some && start[i] is Some && directions[i] is Some && prev is Move
            && prev->Move_direction == directions[i].unwrap() {
            let d = moved(frame[i].unwrap(), start[i].unwrap(), prev->Move_direction, size);
            Performed::Move {
                slots: prev->Move_slots.update(i, true),
                direction: prev->Move_direction,
                distance: if d > prev->Move_distance { d } else { prev->Move_distance },
            }
        } else {
            prev
        }
    }
}

/// Fingers moving in the direction of the target move join it and raise its distance.
pub open spec fn refine_phase(m: EngineModel, frame: Seq<Option<Position>>) -> EngineModel {
    let t = move_target(m.performed);
    if t < 0 {
        m
    } else {
        EngineModel {
            performed: m.performed.update(
                t,
                refine_step(m.performed[t], frame, m.step_start, m.directions, m.size, SLOTS as int),
            ),
            ..m
        }
    }
}

/// The lowest slot below `n` down in `frame` and not in `previous`.
pub open spec fn first_new(frame: Seq<Option<Position>>, previous: Seq<Option<Position>>, n: int) -> Option<int>
    decreases n,
{
    if n <= 0 {
        None
    } else {
        let f = first_new(frame, previous, n - 1);
        if f is Some {
            f
        } else if frame[n - 1] is Some && previous[n - 1] is None {
            Some(n - 1)
        } else {
            None
        }
    }
}

/// A finger added after some step appends or extends a touch-down step, and a tap match follows.
pub open spec fn touch_down_phase(m: EngineModel, frame: Seq<Option<Position>>, config: &Config, window: &Window) -> (EngineModel, Seq<Seq<char>>) {
    let n = m.performed.len();
    if count_present(frame) > count_present(m.previous) && n > 0 && first_new(frame, m.previous, SLOTS as int) is Some {
        let s = first_new(frame, m.previous, SLOTS as int).unwrap();
        let performed = if m.performed.last() is TouchDown {
            m.performed.update(n - 1, Performed::TouchDown { slots: m.performed.last().slot_table().update(s, true) })
        } else {
            m.performed.push(Performed::TouchDown { slots: singleton(s as u8) })
        };
        match_step(EngineModel { performed, ..m }, tap_repeat(), config, window)
    } else {
        (m, Seq::empty())
    }
}

/// One frame: the new state and the commands it fires, in order.
pub open spec fn frame_step(m: EngineModel, frame: Seq<Option<Position>>, config: &Config, window: &Window) -> (EngineModel, Seq<Seq<char>>) {
    if count_present(frame) == 0 {
        lift_step(m, config, window)
    } else {
        let threshold = config.options.edge.threshold;
        let m3 = track_phase(m, frame, threshold);
        let m5 = direction_phase(m3, frame, threshold);
        let (m6, c6) = commit_phase(m5, frame, config, window);
        let m7 = refine_phase(m6, frame);
        let (m8, c8) = touch_down_phase(m7, frame, config, window);
        (EngineModel { previous: frame, ..m8 }, c6 + c8)
    }
}

/// The gesture recognizer: it consumes one frame at a time and says which commands to run.
pub struct GesturesEngine {
    previous_state: State,
    touch_down_state: State,
    sequence_step_start_state: State,
    performed_sequence: Vec<PerformedSequenceStep>,
    repeat_mode: RepeatMode,
    move_threshold_units: MoveThresholdUnits,
    touchpad_size: MoveThresholdUnits,
    previous_direction: Option<Direction>,
    starting_edge: Option<Edge>,
    gesture_in_progress: bool,
    state_directions: Vec<Option<Direction>>,
}

impl View for GesturesEngine {
    type V = EngineModel;

    closed spec fn view(&self) -> EngineModel {
        EngineModel {
            previous: self.previous_state@,
            touch_down: self.touch_down_state@,
            step_start: self.sequence_step_start_state@,
            performed: performed_view(self.performed_sequence@),
            repeat_mode: self.repeat_mode,
            previous_direction: self.previous_direction,
            starting_edge: self.starting_edge,
            in_progress: self.gesture_in_progress,
            directions: self.state_directions@,
            units: self.move_threshold_units,
            size: self.touchpad_size,
        }
    }
}

/// The tables have room for every slot, the steps' slot sets too, and the touchpad has a size.
pub open spec fn model_shape(m: EngineModel) -> bool {
    &&& m.previous.len() == SLOTS
    &&& m.touch_down.len() == SLOTS
    &&& m.step_start.len() == SLOTS
    &&& m.directions.len() == SLOTS
    &&& forall|i: int| 0 <= i < m.performed.len() ==> (#[trigger] m.performed[i]).slot_table().len() == SLOTS
    &&& m.size.x > 0
    &&& m.size.y > 0
}

/// The touch-down and step-start points are those of the fingers down in `frame`,
/// and only those fingers have a direction.
pub open spec fn tracks(m: EngineModel, frame: Seq<Option<Position>>) -> bool {
    &&& frame.len() == SLOTS
    &&& forall|i: int| 0 <= i < SLOTS ==> (#[trigger] m.touch_down[i] is Some <==> frame[i] is Some)
    &&& forall|i: int| 0 <= i < SLOTS ==> (#[trigger] m.step_start[i] is Some <==> frame[i] is Some)
    &&& forall|i: int| 0 <= i < SLOTS ==> (#[trigger] m.directions[i] is Some ==> frame[i] is Some)
}

proof fn lemma_view_push(v: Seq<PerformedSequenceStep>, x: PerformedSequenceStep)
    ensures
        performed_view(v.push(x)) == performed_view(v).push(x@),
{
    assert(performed_view(v.push(x)) =~= performed_view(v).push(x@));
}

proof fn lemma_view_replace_last(v: Seq<PerformedSequenceStep>, x: PerformedSequenceStep)
    requires
        v.len() > 0,
    ensures
        performed_view(v.subrange(0, v.len() - 1).push(x)) == performed_view(v).update(v.len() - 1, x@),
{
    assert(performed_view(v.subrange(0, v.len() - 1).push(x)) =~= performed_view(v).update(v.len() - 1, x@));
}

proof fn lemma_view_update(v: Seq<PerformedSequenceStep>, i: int, x: PerformedSequenceStep)
    requires
        0 <= i < v.len(),
    ensures
        performed_view(v.update(i, x)) == performed_view(v).update(i, x@),
        performed_view(v.remove(i).insert(i, x)) == performed_view(v).update(i, x@),
{
    assert(performed_view(v.update(i, x)) =~= performed_view(v).update(i, x@));
    assert(performed_view(v.remove(i).insert(i, x)) =~= performed_view(v).update(i, x@));
}

proof fn lemma_view_take(v: Seq<PerformedSequenceStep>, n: int)
    requires
        0 <= n <= v.len(),
    ensures
        performed_view(v.subrange(0, n)) == performed_view(v).take(n),
{
    assert(performed_view(v.subrange(0, n)) =~= performed_view(v).take(n));
}

fn same_direction(a: Option<Direction>, b: Direction) -> (r: bool)
    ensures
        r == (a == Some(b)),
{
    match a {
        Some(d) => d == b,
        None => false,
    }
}

fn slots_of(step: PerformedSequenceStep) -> (r: SlotSet)
    ensures
        r@ == step@.slot_table(),
{
    match step {
        PerformedSequenceStep::Move { slots, .. } => slots,
        PerformedSequenceStep::TouchUp { slots } => slots,
        PerformedSequenceStep::TouchDown { slots } => slots,
    }
}

fn keep_or_fill_into(t: &mut State, frame: &State)
    requires
        old(t).wf(),
        frame.wf(),
    ensures
        final(t).wf(),
        final(t)@ == keep_or_fill(old(t)@, frame@),
{
    let ghost t0 = t@;
    let mut i: usize = 0;
    while i < SLOTS
        invariant
            i <= SLOTS,
            t.wf(),
            frame.wf(),
            t0.len() == SLOTS,
            forall|j: int| 0 <= j < i ==> #[trigger] t@[j] == keep_or_fill(t0, frame@)[j],
            forall|j: int| i <= j < SLOTS ==> #[trigger] t@[j] == t0[j],
        decreases SLOTS - i,
    {
        let slot = i as u8;
        match frame.get(slot) {
            None => t.remove(slot),
            Some(p) => {
                if !t.contains(slot) {
                    t.insert(slot, p);
                }
            },
        }
        i = i + 1;
    }
    assert(t@ =~= keep_or_fill(t0, frame@));
}

fn lifted_slots(t: &State, frame: &State) -> (r: (SlotSet, bool))
    requires
        t.wf(),
        frame.wf(),
    ensures
        r.0.wf(),
        r.0@ == lifted(t@, frame@),
        r.1 == any_set(lifted(t@, frame@)),
{
    let mut up = SlotSet::new();
    let mut any = false;
    let mut i: usize = 0;
    while i < SLOTS
        invariant
            i <= SLOTS,
            t.wf(),
            frame.wf(),
            up.wf(),
            forall|j: int| 0 <= j < i ==> #[trigger] up@[j] == lifted(t@, frame@)[j],
            forall|j: int| i <= j < SLOTS ==> !#[trigger] up@[j],
            any == exists|j: int| 0 <= j < i && lifted(t@, frame@)[j],
        decreases SLOTS - i,
    {
        let slot = i as u8;
        if t.contains(slot) && !frame.contains(slot) {
            assert(lifted(t@, frame@)[i as int]);
            up.insert(slot);
            any = true;
        } else {
            assert(!lifted(t@, frame@)[i as int]);
        }
        i = i + 1;
    }
    assert(up@ =~= lifted(t@, frame@));
    (up, any)
}

fn keep_directions(dirs: &mut Vec<Option<Direction>>, frame: &State)
    requires
        old(dirs)@.len() == SLOTS,
        frame.wf(),
    ensures
        final(dirs)@ == Seq::new(SLOTS as nat, |i: int| if frame@[i] is None { None } else { old(dirs)@[i] }),
{
    let ghost d0 = dirs@;
    let mut i: usize = 0;
    while i < SLOTS
        invariant
            i <= SLOTS,
            dirs@.len() == SLOTS,
            frame.wf(),
            forall|j: int| 0 <= j < i ==> #[trigger] dirs@[j] == (if frame@[j] is None { None } else { d0[j] }),
            forall|j: int| i <= j < SLOTS ==> #[trigger] dirs@[j] == d0[j],
        decreases SLOTS - i,
    {
        if !frame.contains(i as u8) {
            dirs.set(i, None);
        }
        i = i + 1;
    }
    assert(dirs@ =~= Seq::new(SLOTS as nat, |i: int| if frame@[i] is None { None } else { d0[i] }));
}

fn set_directions(dirs: &mut Vec<Option<Direction>>, frame: &State, dir: Direction)
    requires
        old(dirs)@.len() == SLOTS,
        frame.wf(),
    ensures
        final(dirs)@ == Seq::new(SLOTS as nat, |i: int| if frame@[i] is Some { Some(dir) } else { old(dirs)@[i] }),
{
    let ghost d0 = dirs@;
    let mut i: usize = 0;
    while i < SLOTS
        invariant
            i <= SLOTS,
            dirs@.len() == SLOTS,
            frame.wf(),
            forall|j: int| 0 <= j < i ==> #[trigger] dirs@[j] == (if frame@[j] is Some { Some(dir) } else { d0[j] }),
            forall|j: int| i <= j < SLOTS ==> #[trigger] dirs@[j] == d0[j],
        decreases SLOTS - i,
    {
        if frame.contains(i as u8) {
            dirs.set(i, Some(dir));
        }
        i = i + 1;
    }
    assert(dirs@ =~= Seq::new(SLOTS as nat, |i: int| if frame@[i] is Some { Some(dir) } else { d0[i] }));
}

fn first_edge(frame: &State, size: &MoveThresholdUnits, threshold: Fraction) -> (r: Option<Edge>)
    requires
        frame.wf(),
    ensures
        r == edge_scan(frame@, *size, threshold, SLOTS as int),
{
    let mut i: usize = 0;
    let mut found: Option<Edge> = None;
    while i < SLOTS
        invariant
            i <= SLOTS,
            frame.wf(),
            found == edge_scan(frame@, *size, threshold, i as int),
        decreases SLOTS - i,
    {
        if found.is_none() {
            match frame.get(i as u8) {
                Some(p) => {
                    found = edge_at(&p, size, threshold);
                },
                None => {},
            }
        }
        i = i + 1;
    }
    found
}

fn first_new_slot(frame: &State, previous: &State) -> (r: Option<u8>)
    requires
        frame.wf(),
        previous.wf(),
    ensures
        match first_new(frame@, previous@, SLOTS as int) {
            Some(s) => r == Some(s as u8) && 0 <= s < SLOTS,
            None => r is None,
        },
{
    let mut i: usize = 0;
    while i < SLOTS
        invariant
            i <= SLOTS,
            frame.wf(),
            previous.wf(),
            first_new(frame@, previous@, i as int) is None,
        decreases SLOTS - i,
    {
        if frame.contains(i as u8) && !previous.contains(i as u8) {
            proof {
                lemma_first_new_stays(frame@, previous@, i as int + 1, SLOTS as int);
            }
            return Some(i as u8);
        }
        i = i + 1;
    }
    None
}

proof fn lemma_first_new_stays(frame: Seq<Option<Position>>, previous: Seq<Option<Position>>, n: int, m: int)
    requires
        n <= m,
        first_new(frame, previous, n) is Some,
    ensures
        first_new(frame, previous, m) == first_new(frame, previous, n),
        0 <= first_new(frame, previous, m).unwrap() < n,
    decreases m - n,
{
    lemma_first_new_range(frame, previous, n);
    if n < m {
        lemma_first_new_stays(frame, previous, n, m - 1);
    }
}

/// The slot `first_new` finds lies below `n`.
pub proof fn lemma_first_new_range(frame: Seq<Option<Position>>, previous: Seq<Option<Position>>, n: int)
    requires
        first_new(frame, previous, n) is Some,
    ensures
        0 <= first_new(frame, previous, n).unwrap() < n,
    decreases n,
{
    if n > 0 && first_new(frame, previous, n - 1) is Some {
        lemma_first_new_range(frame, previous, n - 1);
    }
}

fn moved_ppm(a: &Position, b: &Position, d: Direction, size: &MoveThresholdUnits) -> (r: u64)
    requires
        size.x > 0,
        size.y > 0,
    ensures
        r == moved(*a, *b, d, *size),
{
    let diff = a.distance(b);
    proof {
        vstd::arithmetic::mul::lemma_mul_upper_bound(diff.x as int, u16::MAX as int, PPM as int, PPM as int);
        vstd::arithmetic::mul::lemma_mul_upper_bound(diff.y as int, u16::MAX as int, PPM as int, PPM as int);
    }
    match d {
        Direction::Up | Direction::Down => (diff.y as u64) * PPM / (size.y as u64),
        Direction::Left | Direction::Right => (diff.x as u64) * PPM / (size.x as u64),
    }
}

fn refine(
    last: PerformedSequenceStep,
    frame: &State,
    start: &State,
    directions: &Vec<Option<Direction>>,
    size: &MoveThresholdUnits,
) -> (r: PerformedSequenceStep)
    requires
        last.wf(),
        frame.wf(),
        start.wf(),
        directions@.len() == SLOTS,
        size.x > 0,
        size.y > 0,
    ensures
        r.wf(),
        r@ == refine_step(last@, frame@, start@, directions@, *size, SLOTS as int),
{
    let mut cur = last;
    let mut i: usize = 0;
    while i < SLOTS
        invariant
            i <= SLOTS,
            cur.wf(),
            frame.wf(),
            start.wf(),
            directions@.len() == SLOTS,
            size.x > 0,
            size.y > 0,
            cur@ == refine_step(last@, frame@, start@, directions@, *size, i as int),
        decreases SLOTS - i,
    {
        let slot = i as u8;
        match (frame.get(slot), start.get(slot), directions[i]) {
            (Some(p), Some(s), Some(d)) => {
                cur = match cur {
                    PerformedSequenceStep::Move { slots, direction, distance } => {
                        if direction == d {
                            let mut slots = slots;
                            slots.insert(slot);
                            let m = moved_ppm(&p, &s, direction, size);
                            PerformedSequenceStep::Move { slots, direction, distance: if m > distance { m } else { distance } }
                        } else {
                            PerformedSequenceStep::Move { slots, direction, distance }
                        }
                    },
                    other => other,
                };
            },
            _ => {},
        }
        i = i + 1;
    }
    cur
}

impl GesturesEngine {
    /// The recognizer's invariants hold.
    pub open spec fn wf(&self) -> bool {
        model_wf(self@)
    }

    /// A recognizer with nothing tracked, for a touchpad of `touchpad_size` whose
    /// move-threshold ellipse has semi-axes `move_threshold_units`.
    pub fn new(move_threshold_units: MoveThresholdUnits, touchpad_size: MoveThresholdUnits) -> (r: Self)
        requires
            touchpad_size.x > 0,
            touchpad_size.y > 0,
        ensures
            r.wf(),
            r@.units == move_threshold_units,
            r@.size == touchpad_size,
            r@ == reset(r@),
    {
        let mut state_directions: Vec<Option<Direction>> = Vec::new();
        let mut i: usize = 0;
        while i < SLOTS
            invariant
                i <= SLOTS,
                state_directions@ == Seq::new(i as nat, |j: int| None::<Direction>),
            decreases SLOTS - i,
        {
            state_directions.push(None);
            i = i + 1;
        }
        let r = GesturesEngine {
            previous_state: State::new(),
            touch_down_state: State::new(),
            sequence_step_start_state: State::new(),
            performed_sequence: Vec::new(),
            repeat_mode: RepeatMode::empty(),
            move_threshold_units,
            touchpad_size,
            previous_direction: None,
            starting_edge: None,
            gesture_in_progress: false,
            state_directions,
        };
        assert(r@.directions =~= no_directions());
        assert(r@.performed =~= Seq::<Performed>::empty());
        r
    }

    fn trailing_touch_count(&self) -> (r: usize)
        ensures
            r == trailing_touches(self@.performed),
            r <= self@.performed.len(),
    {
        let ghost p = self@.performed;
        let len = self.performed_sequence.len();
        let mut k: usize = 0;
        assert(p.take(len as int) =~= p);
        while k < len && !(self.performed_sequence[len - 1 - k].direction().is_some())
            invariant
                k <= len,
                len == p.len(),
                p == performed_view(self.performed_sequence@),
                trailing_touches(p) == k + trailing_touches(p.take(len - k)),
            decreases len - k,
        {
            let ghost q = p.take(len - k);
            assert(q.drop_last() =~= p.take(len - k - 1));
            k = k + 1;
        }
        proof {
            assert(p.take(len - k).len() == 0 || !p.take(len - k).last().is_touch());
        }
        k
    }

    fn trailing_touch_down_count(&self) -> (r: usize)
        ensures
            r == trailing_touch_downs(self@.performed),
            r <= self@.performed.len(),
    {
        let ghost p = self@.performed;
        let len = self.performed_sequence.len();
        let mut k: usize = 0;
        assert(p.take(len as int) =~= p);
        while k < len && self.performed_sequence[len - 1 - k].is_touch_down()
            invariant
                k <= len,
                len == p.len(),
                p == performed_view(self.performed_sequence@),
                trailing_touch_downs(p) == k + trailing_touch_downs(p.take(len - k)),
            decreases len - k,
        {
            let ghost q = p.take(len - k);
            assert(q.drop_last() =~= p.take(len - k - 1));
            k = k + 1;
        }
        proof {
            assert(p.take(len - k).len() == 0 || !(p.take(len - k).last() is TouchDown));
        }
        k
    }

    fn match_gestures(&mut self, mode: RepeatMode, config: &Config, window: &Window, commands: &mut Vec<String>)
        requires
            model_shape(old(self)@),
        ensures
            model_shape(final(self)@),
            final(self)@ == match_step(old(self)@, mode, config, window).0,
            texts(final(commands)@) == texts(old(commands)@) + match_step(old(self)@, mode, config, window).1,
    {
        let ghost m0 = self@;
        let t = self.trailing_touch_count();
        let len = self.performed_sequence.len() - t;
        proof {
            assert forall|i: int| 0 <= i < self.performed_sequence@.len() implies (#[trigger] self.performed_sequence@[i]).wf() by {
                assert(m0.performed[i] == self.performed_sequence@[i]@);
            }
            assert(performed_view(self.performed_sequence@).take(len as int) == trimmed(m0.performed));
        }
        let mut fired_now = find_commands(config, window, &self.performed_sequence, len, self.starting_edge, mode);
        let ghost ms = matches_of(candidates(config, window), trimmed(m0.performed), m0.starting_edge, mode);
        if fired_now.len() > 0 {
            proof {
                lemma_view_take(self.performed_sequence@, len as int);
            }
            self.performed_sequence.truncate(len);
            self.repeat_mode = mode;
            let ghost before = commands@;
            let ghost f = fired_now@;
            commands.append(&mut fired_now);
            assert(texts(commands@) =~= texts(before) + texts(f));
            assert(self@ == match_step(m0, mode, config, window).0);
        } else {
            assert(texts(fired_now@).len() == 0);
            assert(ms.len() == 0);
            assert(texts(commands@) =~= texts(commands@) + Seq::<Seq<char>>::empty());
        }
    }
}

fn clear_directions(dirs: &mut Vec<Option<Direction>>)
    requires
        old(dirs)@.len() == SLOTS,
    ensures
        final(dirs)@ == no_directions(),
{
    let mut i: usize = 0;
    while i < SLOTS
        invariant
            i <= SLOTS,
            dirs@.len() == SLOTS,
            forall|j: int| 0 <= j < i ==> #[trigger] dirs@[j] is None,
        decreases SLOTS - i,
    {
        dirs.set(i, None);
        i = i + 1;
    }
    assert(dirs@ =~= no_directions());
}

impl GesturesEngine {
    fn handle_lift_and_cleanup(&mut self, config: &Config, window: &Window, commands: &mut Vec<String>)
        requires
            model_shape(old(self)@),
        ensures
            model_wf(final(self)@),
            final(self)@ == lift_step(old(self)@, config, window).0,
            texts(final(commands)@) == texts(old(commands)@) + lift_step(old(self)@, config, window).1,
    {
        let ghost m0 = self@;
        if self.repeat_mode == RepeatMode::empty() {
            self.match_gestures(RepeatMode::empty(), config, window, commands);
        } else {
            assert(texts(commands@) =~= texts(commands@) + Seq::<Seq<char>>::empty());
        }
        self.previous_state.clear();
        self.touch_down_state.clear();
        self.sequence_step_start_state.clear();
        self.performed_sequence.clear();
        self.repeat_mode = RepeatMode::empty();
        self.previous_direction = None;
        self.starting_edge = None;
        self.gesture_in_progress = false;
        clear_directions(&mut self.state_directions);
        assert(self@.performed =~= Seq::<Performed>::empty());
        assert(self@ == reset(m0));
    }

    fn track_slots(&mut self, state: &State, threshold: Fraction)
        requires
            model_shape(old(self)@),
            state.wf(),
        ensures
            model_shape(final(self)@),
            tracks(final(self)@, state@),
            final(self)@ == track_phase(old(self)@, state@, threshold),
    {
        let ghost m0 = self@;
        let (up, any_up) = lifted_slots(&self.touch_down_state, state);
        keep_or_fill_into(&mut self.touch_down_state, state);
        keep_or_fill_into(&mut self.sequence_step_start_state, state);
        keep_directions(&mut self.state_directions, state);
        if !self.gesture_in_progress {
            self.starting_edge = first_edge(state, &self.touchpad_size, threshold);
        }
        self.gesture_in_progress = true;
        if any_up {
            let n = self.performed_sequence.len();
            if n > 0 && self.performed_sequence[n - 1].is_touch_up() {
                let ghost v0 = self.performed_sequence@;
                let last = self.performed_sequence.pop().unwrap();
                let mut slots = slots_of(last);
                assert(m0.performed[n - 1] == v0[n - 1]@);
                slots.union_with(&up);
                let step = PerformedSequenceStep::TouchUp { slots };
                proof {
                    lemma_view_replace_last(v0, step);
                }
                self.performed_sequence.push(step);
                assert(step@ == Performed::TouchUp { slots: union(m0.performed.last().slot_table(), lifted(m0.touch_down, state@)) }) by {
                    assert(step@.slot_table() =~= union(m0.performed.last().slot_table(), lifted(m0.touch_down, state@)));
                }
            } else if self.repeat_mode == RepeatMode::empty() {
                let step = PerformedSequenceStep::TouchUp { slots: up };
                proof {
                    lemma_view_push(self.performed_sequence@, step);
                }
                self.performed_sequence.push(step);
                self.touch_down_state.copy_from(state);
            }
        }
        assert(self@ == track_phase(m0, state@, threshold));
    }

    fn sample_direction(&mut self, state: &State, threshold: Fraction)
        requires
            model_shape(old(self)@),
            tracks(old(self)@, state@),
            state.wf(),
            count_present(state@) > 0,
        ensures
            model_shape(final(self)@),
            tracks(final(self)@, state@),
            final(self)@ == direction_phase(old(self)@, state@, threshold),
    {
        let ghost m0 = self@;
        proof {
            lemma_count_same_slots(self.touch_down_state@, state@);
        }
        let c = state.centroid().unwrap();
        let tc = self.touch_down_state.centroid().unwrap();
        let dir = side_in_ellipse(&c, &tc, &self.move_threshold_units);
        if !same_direction(self.previous_direction, dir) {
            self.sequence_step_start_state.copy_from(&self.previous_state);
            keep_or_fill_into(&mut self.sequence_step_start_state, state);
            let at_edge = edge_at(&tc, &self.touchpad_size, threshold).is_some();
            let n = self.performed_sequence.len();
            if n > 0 && at_edge {
                match self.performed_sequence[n - 1].direction() {
                    Some(d) => {
                        if d != dir {
                            let ghost v0 = self.performed_sequence@;
                            assert(m0.performed[n - 1] == v0[n - 1]@);
                            let last = self.performed_sequence.pop().unwrap();
                            let step = match last {
                                PerformedSequenceStep::Move { slots, distance, .. } => PerformedSequenceStep::Move {
                                    slots,
                                    direction: dir,
                                    distance,
                                },
                                other => other,
                            };
                            proof {
                                lemma_view_replace_last(v0, step);
                            }
                            self.performed_sequence.push(step);
                        }
                    },
                    None => {},
                }
            }
            self.previous_direction = Some(dir);
        }
        assert(self@ == direction_phase(m0, state@, threshold));
    }

    fn commit_move(&mut self, state: &State, config: &Config, window: &Window, commands: &mut Vec<String>)
        requires
            model_shape(old(self)@),
            tracks(old(self)@, state@),
            state.wf(),
            count_present(state@) > 0,
            config.wf(),
        ensures
            model_shape(final(self)@),
            tracks(final(self)@, state@),
            final(self)@ == commit_phase(old(self)@, state@, config, window).0,
            texts(final(commands)@) == texts(old(commands)@) + commit_phase(old(self)@, state@, config, window).1,
    {
        let ghost m0 = self@;
        proof {
            lemma_count_same_slots(self.touch_down_state@, state@);
            lemma_count_same_slots(self.sequence_step_start_state@, state@);
        }
        let c = state.centroid().unwrap();
        let tc = self.touch_down_state.centroid().unwrap();
        let at_edge = edge_at(&tc, &self.touchpad_size, config.options.edge.threshold).is_some();
        if outside_of_ellipse(&c, &tc, &self.move_threshold_units, at_edge, config.options.edge.sensitivity) {
            let dir = side_in_ellipse(&c, &tc, &self.move_threshold_units);
            set_directions(&mut self.state_directions, state, dir);
            let sc = self.sequence_step_start_state.centroid().unwrap();
            let dist = moved_ppm(&c, &sc, dir, &self.touchpad_size);
            let n = self.performed_sequence.len();
            let downs = self.trailing_touch_down_count();
            let ghost v0 = self.performed_sequence@;
            proof {
                lemma_trailing_touch_downs_bounded(m0.performed);
            }
            let mut extended = false;
            if downs < n {
                let t = n - 1 - downs;
                assert(m0.performed[t as int] == v0[t as int]@);
                match self.performed_sequence[t].distance() {
                    Some(kept) => {
                        if same_direction(self.performed_sequence[t].direction(), dir) {
                            let step = PerformedSequenceStep::Move {
                                slots: SlotSet::from_state(state),
                                direction: dir,
                                distance: if dist > kept { dist } else { kept },
                            };
                            proof {
                                lemma_view_update(v0, t as int, step);
                            }
                            self.performed_sequence.set(t, step);
                            extended = true;
                            assert forall|i: int| 0 <= i < self@.performed.len() implies (#[trigger] self@.performed[i]).slot_table().len() == SLOTS by {
                                if i != t {
                                    assert(self@.performed[i] == m0.performed[i]);
                                }
                            }
                        }
                    },
                    None => {},
                }
            }
            if !extended {
                let step = PerformedSequenceStep::Move { slots: SlotSet::from_state(state), direction: dir, distance: dist };
                proof {
                    lemma_view_push(v0, step);
                }
                self.performed_sequence.push(step);
                assert forall|i: int| 0 <= i < self@.performed.len() implies (#[trigger] self@.performed[i]).slot_table().len() == SLOTS by {
                    if i < n {
                        assert(self@.performed[i] == m0.performed[i]);
                    }
                }
            }
            self.touch_down_state.copy_from(state);
            let ghost m1 = self@;
            assert(m1.directions =~= committed(m0, state@).directions);
            assert(m1 == committed(m0, state@));
            self.match_gestures(RepeatMode::slide_only(), config, window, commands);
        } else {
            assert(texts(commands@) =~= texts(commands@) + Seq::<Seq<char>>::empty());
        }
    }

    fn refine_last_move(&mut self, state: &State)
        requires
            model_shape(old(self)@),
            state.wf(),
        ensures
            model_shape(final(self)@),
            final(self)@ == refine_phase(old(self)@, state@),
    {
        let ghost m0 = self@;
        let n = self.performed_sequence.len();
        let downs = self.trailing_touch_down_count();
        if downs < n {
            let t = n - 1 - downs;
            let ghost v0 = self.performed_sequence@;
            assert(m0.performed[t as int] == v0[t as int]@);
            assert(v0[t as int].wf());
            let target = self.performed_sequence.remove(t);
            let step = refine(target, state, &self.sequence_step_start_state, &self.state_directions, &self.touchpad_size);
            proof {
                lemma_view_update(v0, t as int, step);
            }
            self.performed_sequence.insert(t, step);
            assert(self@.performed =~= m0.performed.update(t as int, step@));
            assert forall|i: int| 0 <= i < self@.performed.len() implies (#[trigger] self@.performed[i]).slot_table().len() == SLOTS by {
                if i != t {
                    assert(self@.performed[i] == m0.performed[i]);
                }
            }
            assert(self@ == refine_phase(m0, state@));
        }
    }

    fn record_touch_down(&mut self, state: &State, config: &Config, window: &Window, commands: &mut Vec<String>)
        requires
            model_shape(old(self)@),
            state.wf(),
        ensures
            model_shape(final(self)@),
            final(self)@ == touch_down_phase(old(self)@, state@, config, window).0,
            texts(final(commands)@) == texts(old(commands)@) + touch_down_phase(old(self)@, state@, config, window).1,
    {
        let ghost m0 = self@;
        let n = self.performed_sequence.len();
        if state.len() > self.previous_state.len() && n > 0 {
            match first_new_slot(state, &self.previous_state) {
                Some(s) => {
                    let ghost v0 = self.performed_sequence@;
                    assert(m0.performed[n - 1] == v0[n - 1]@);
                    if self.performed_sequence[n - 1].is_touch_down() {
                        let last = self.performed_sequence.pop().unwrap();
                        let mut slots = slots_of(last);
                        slots.insert(s);
                        let step = PerformedSequenceStep::TouchDown { slots };
                        proof {
                            lemma_view_replace_last(v0, step);
                        }
                        self.performed_sequence.push(step);
                    } else {
                        let step = PerformedSequenceStep::TouchDown { slots: SlotSet::single(s) };
                        proof {
                            lemma_view_push(v0, step);
                        }
                        self.performed_sequence.push(step);
                    }
                    self.match_gestures(RepeatMode::tap_only(), config, window, commands);
                    return;
                },
                None => {},
            }
        }
        assert(texts(commands@) =~= texts(commands@) + Seq::<Seq<char>>::empty());
    }

    /// Consumes one frame: the finger positions after a synchronisation marker, empty
    /// when all fingers are lifted. Every match of the frame reads the one catalog
    /// `config` and the one focused `window`. Returns the commands to run, in order.
    pub fn update_state(&mut self, state: State, config: &Config, window: &Window) -> (r: Vec<String>)
        requires
            old(self).wf(),
            state.wf(),
            config.wf(),
        ensures
            final(self).wf(),
            final(self)@ == frame_step(old(self)@, state@, config, window).0,
            texts(r@) == frame_step(old(self)@, state@, config, window).1,
    {
        let ghost m0 = self@;
        let mut commands: Vec<String> = Vec::new();
        assert(texts(commands@) =~= Seq::<Seq<char>>::empty());
        if state.is_empty() {
            self.handle_lift_and_cleanup(config, window, &mut commands);
            assert(texts(commands@) =~= lift_step(m0, config, window).1);
            return commands;
        }
        let threshold = config.options.edge.threshold;
        self.track_slots(&state, threshold);
        self.sample_direction(&state, threshold);
        self.commit_move(&state, config, window, &mut commands);
        self.refine_last_move(&state);
        assert(tracks(self@, state@));
        self.record_touch_down(&state, config, window, &mut commands);
        assert(tracks(self@, state@));
        self.previous_state = state;
        assert(texts(commands@) =~= frame_step(m0, self@.previous, config, window).1);
        commands
    }
}

impl GesturesEngine {
    /// Whether `point` lies strictly outside the move-threshold ellipse around `center`,
    /// shrunk by `1 - edge_sensitivity` when `is_edge`.
    pub fn point_outside_of_ellipse(&self, point: &Position, center: &Position, is_edge: bool, edge_sensitivity: Fraction) -> (r: bool)
        requires
            edge_sensitivity.ppm <= PPM,
        ensures
            r == outside_ellipse(
                point.x - center.x,
                point.y - center.y,
                self@.units.x as int,
                self@.units.y as int,
                ellipse_scale(is_edge, edge_sensitivity),
            ),
    {
        outside_of_ellipse(point, center, &self.move_threshold_units, is_edge, edge_sensitivity)
    }

    /// The direction in which `point` lies from `center`, offsets scaled by the ellipse's semi-axes.
    pub fn point_side_in_ellipse(&self, point: &Position, center: &Position) -> (r: Direction)
        ensures
            r == side_of(point.x - center.x, point.y - center.y, self@.units.x as int, self@.units.y as int),
    {
        side_in_ellipse(point, center, &self.move_threshold_units)
    }

    /// The steps performed so far in this gesture.
    pub fn performed_sequence(&self) -> (r: &Vec<PerformedSequenceStep>)
        ensures
            performed_view(r@) == self@.performed,
    {
        &self.performed_sequence
    }

    /// The edge the gesture started at, if any.
    pub fn starting_edge(&self) -> (r: Option<Edge>)
        ensures
            r == self@.starting_edge,
    {
        self.starting_edge
    }

    /// The repetition the last match consumed.
    pub fn repeat_mode(&self) -> (r: RepeatMode)
        ensures
            r == self@.repeat_mode,
    {
        self.repeat_mode
    }

    /// The direction of the centroid in the last frame.
    pub fn previous_direction(&self) -> (r: Option<Direction>)
        ensures
            r == self@.previous_direction,
    {
        self.previous_direction
    }

    /// Whether fingers have been down since the last lift of all of them.
    pub fn gesture_in_progress(&self) -> (r: bool)
        ensures
            r == self@.in_progress,
    {
        self.gesture_in_progress
    }

    /// The previous frame.
    pub fn previous_state(&self) -> (r: &State)
        ensures
            r@ == self@.previous,
    {
        &self.previous_state
    }

    /// The reference points of the move-threshold ellipse.
    pub fn touch_down_state(&self) -> (r: &State)
        ensures
            r@ == self@.touch_down,
    {
        &self.touch_down_state
    }

    /// The positions at the start of the current move step.
    pub fn sequence_step_start_state(&self) -> (r: &State)
        ensures
            r@ == self@.step_start,
    {
        &self.sequence_step_start_state
    }

    /// The direction recorded for the finger in `slot`.
    pub fn state_direction(&self, slot: u8) -> (r: Option<Direction>)
        requires
            self.wf(),
        ensures
            r == self@.directions[slot as int],
    {
        self.state_directions[slot as usize]
    }
}

} // verus!
