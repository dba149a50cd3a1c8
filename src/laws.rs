use vstd::prelude::*;
use crate::config::{Config, EdgeOptions, Gesture, RepeatMode};
use crate::engine::{
    committed, move_target, lemma_trailing_touch_downs_bounded,
    commit_phase, direction_phase, frame_step, model_shape, model_wf, refine_step, first_new, lemma_first_new_range, match_step, trimmed, tap_repeat, lemma_trailing_touches_bounded, leaves_ellipse, frame_direction, moved, slide_repeat, lifted, any_set, keep_or_fill, reference_at_edge, union, no_repeat, trailing_touches, reset, touch_down_phase, track_phase, refine_phase, tracks,
    EngineModel,
};
use crate::frame::{centroid_of, count_present, occupied, singleton, SLOTS};
use crate::geometry::{edge_of, ellipse_scale, outside_ellipse, scaled_units, Direction, Edge, Fraction, MoveThresholdUnits, Position, PPM};
use crate::matcher::{best_of, commands_of, fired, gesture_matches, max_min_distance, Window};
use crate::sequence_step::{step_matches, DefinedSequenceStep, Performed};

verus! {

/// A frame with no finger down resets the recognizer to its initial state.
pub proof fn empty_frame_resets(m: EngineModel, frame: Seq<Option<Position>>, config: &Config, window: &Window)
    requires
        frame.len() == SLOTS,
        count_present(frame) == 0,
    ensures
        frame_step(m, frame, config, window).0 == reset(m),
{
}

/// A position exactly at the edge threshold counts as at the edge: at `threshold` times
/// the width from the left border, and, away from the left and right borders, at
/// `threshold` times the height from the top border.
pub proof fn edge_threshold_is_on_edge(pos: Position, size: MoveThresholdUnits, threshold: Fraction)
    ensures
        pos.x == scaled_units(size.x as int, threshold) ==> edge_of(pos, size, threshold) == Some(Edge::Left),
        pos.x > scaled_units(size.x as int, threshold) && pos.x == size.x - scaled_units(size.x as int, threshold)
            ==> edge_of(pos, size, threshold) == Some(Edge::Right),
        pos.x > scaled_units(size.x as int, threshold) && pos.x < size.x - scaled_units(size.x as int, threshold)
            && pos.y == scaled_units(size.y as int, threshold) ==> edge_of(pos, size, threshold) == Some(Edge::Top),
        pos.x > scaled_units(size.x as int, threshold) && pos.x < size.x - scaled_units(size.x as int, threshold)
            && pos.y > scaled_units(size.y as int, threshold) && pos.y == size.y - scaled_units(size.y as int, threshold)
            ==> edge_of(pos, size, threshold) == Some(Edge::Bottom),
{
}

/// An offset exactly on the ellipse boundary is not outside it.
pub proof fn ellipse_boundary_is_inside(dx: int, dy: int, tx: int, ty: int, s: int)
    requires
        (dx * dx * (ty * ty) + dy * dy * (tx * tx)) * (PPM * PPM) == tx * tx * (ty * ty) * (s * s),
    ensures
        !outside_ellipse(dx, dy, tx, ty, s),
{
}

/// A minimum distance of zero matches exactly what no minimum matches.
pub proof fn zero_minimum_is_no_minimum(fingers: u8, direction: Direction, p: Performed)
    ensures
        step_matches(DefinedSequenceStep::Move { fingers, direction, distance: Some(Fraction { ppm: 0 }) }, p)
            == step_matches(DefinedSequenceStep::Move { fingers, direction, distance: None }, p),
{
}

/// Refining keeps a step's kind, direction and slot-table size, and never lowers a move's distance.
pub proof fn lemma_refine_keeps(
    last: Performed,
    frame: Seq<Option<Position>>,
    start: Seq<Option<Position>>,
    directions: Seq<Option<Direction>>,
    size: MoveThresholdUnits,
    n: int,
)
    requires
        n <= last.slot_table().len(),
    ensures
        ({
            let r = refine_step(last, frame, start, directions, size, n);
            &&& r.slot_table().len() == last.slot_table().len()
            &&& (last is Move ==> r is Move && r->Move_direction == last->Move_direction
                && r->Move_distance >= last->Move_distance)
            &&& (!(last is Move) ==> r == last)
        }),
    decreases n,
{
    if n > 0 {
        lemma_refine_keeps(last, frame, start, directions, size, n - 1);
    }
}

proof fn lemma_match_shape(m: EngineModel, mode: RepeatMode, config: &Config, window: &Window)
    requires
        model_shape(m),
    ensures
        model_shape(match_step(m, mode, config, window).0),
        match_step(m, mode, config, window).0.touch_down == m.touch_down,
        match_step(m, mode, config, window).0.step_start == m.step_start,
        match_step(m, mode, config, window).0.directions == m.directions,
{
    let t = trimmed(m.performed);
    lemma_trailing_touches_bounded(m.performed);
    assert forall|i: int| 0 <= i < t.len() implies (#[trigger] t[i]).slot_table().len() == SLOTS by {
        assert(t[i] == m.performed[i]);
    }
}

proof fn lemma_track_tracks(m: EngineModel, frame: Seq<Option<Position>>, threshold: Fraction)
    requires
        model_shape(m),
        frame.len() == SLOTS,
    ensures
        tracks(track_phase(m, frame, threshold), frame),
        model_shape(track_phase(m, frame, threshold)),
{
}

proof fn lemma_direction_tracks(m: EngineModel, frame: Seq<Option<Position>>, threshold: Fraction)
    requires
        model_shape(m),
        tracks(m, frame),
    ensures
        tracks(direction_phase(m, frame, threshold), frame),
        model_shape(direction_phase(m, frame, threshold)),
{
}

proof fn lemma_commit_tracks(m: EngineModel, frame: Seq<Option<Position>>, config: &Config, window: &Window)
    requires
        model_shape(m),
        tracks(m, frame),
    ensures
        tracks(commit_phase(m, frame, config, window).0, frame),
        model_shape(commit_phase(m, frame, config, window).0),
{
    if leaves_ellipse(m, frame, config.options.edge) {
        let c = committed(m, frame);
        lemma_trailing_touch_downs_bounded(m.performed);
        assert forall|i: int| 0 <= i < c.performed.len() implies (#[trigger] c.performed[i]).slot_table().len() == SLOTS by {
            if i < m.performed.len() && i != move_target(m.performed) {
                assert(c.performed[i] == m.performed[i]);
            }
        }
        lemma_match_shape(c, slide_repeat(), config, window);
    }
}

proof fn lemma_refine_tracks(m: EngineModel, frame: Seq<Option<Position>>)
    requires
        model_shape(m),
        tracks(m, frame),
    ensures
        tracks(refine_phase(m, frame), frame),
        model_shape(refine_phase(m, frame)),
{
    lemma_trailing_touch_downs_bounded(m.performed);
    let t = move_target(m.performed);
    if t >= 0 {
        lemma_refine_keeps(m.performed[t], frame, m.step_start, m.directions, m.size, SLOTS as int);
    }
}

proof fn lemma_touch_down_tracks(m: EngineModel, frame: Seq<Option<Position>>, config: &Config, window: &Window)
    requires
        model_shape(m),
        tracks(m, frame),
    ensures
        tracks(touch_down_phase(m, frame, config, window).0, frame),
        model_shape(touch_down_phase(m, frame, config, window).0),
{
    let n = m.performed.len();
    if count_present(frame) > count_present(m.previous) && n > 0 && first_new(frame, m.previous, SLOTS as int) is Some {
        lemma_first_new_range(frame, m.previous, SLOTS as int);
        let s = first_new(frame, m.previous, SLOTS as int).unwrap();
        assert(m.performed[n - 1] == m.performed.last());
        let performed = if m.performed.last() is TouchDown {
            m.performed.update(n - 1, Performed::TouchDown { slots: m.performed.last().slot_table().update(s, true) })
        } else {
            m.performed.push(Performed::TouchDown { slots: singleton(s as u8) })
        };
        let mid = EngineModel { performed, ..m };
        assert(model_shape(mid));
        lemma_match_shape(mid, tap_repeat(), config, window);
    }
}

/// After any frame, every slot that has a touch-down point, a step start point or a
/// direction has its finger down in that frame; the recognizer's invariants hold.
pub proof fn tracked_slots_are_down(m: EngineModel, frame: Seq<Option<Position>>, config: &Config, window: &Window)
    requires
        model_wf(m),
        frame.len() == SLOTS,
    ensures
        ({
            let n = frame_step(m, frame, config, window).0;
            &&& model_wf(n)
            &&& forall|i: int|
                0 <= i < SLOTS && (n.touch_down[i] is Some || n.step_start[i] is Some || n.directions[i] is Some)
                    ==> #[trigger] frame[i] is Some
        }),
{
    if count_present(frame) > 0 {
        let threshold = config.options.edge.threshold;
        let m3 = track_phase(m, frame, threshold);
        lemma_track_tracks(m, frame, threshold);
        let m5 = direction_phase(m3, frame, threshold);
        lemma_direction_tracks(m3, frame, threshold);
        let m6 = commit_phase(m5, frame, config, window).0;
        lemma_commit_tracks(m5, frame, config, window);
        let m7 = refine_phase(m6, frame);
        lemma_refine_tracks(m6, frame);
        let m8 = touch_down_phase(m7, frame, config, window).0;
        lemma_touch_down_tracks(m7, frame, config, window);
        assert(m8.in_progress);
    }
}

/// Feeding the same non-empty frame twice in a row: the second time appends no step
/// and fires no command.
pub proof fn repeated_frame_adds_nothing(m: EngineModel, frame: Seq<Option<Position>>, config: &Config, window: &Window)
    requires
        model_wf(m),
        frame.len() == SLOTS,
        count_present(frame) > 0,
    ensures
        ({
            let m1 = frame_step(m, frame, config, window).0;
            let (m2, c2) = frame_step(m1, frame, config, window);
            m2.performed.len() == m1.performed.len() && c2.len() == 0
        }),
{
    let threshold = config.options.edge.threshold;
    let edge = config.options.edge;
    let a3 = track_phase(m, frame, threshold);
    lemma_track_tracks(m, frame, threshold);
    let a5 = direction_phase(a3, frame, threshold);
    lemma_direction_tracks(a3, frame, threshold);
    let a6 = commit_phase(a5, frame, config, window).0;
    lemma_commit_tracks(a5, frame, config, window);
    if leaves_ellipse(a5, frame, edge) {
        let dir = frame_direction(a5, frame);
        let dist = moved(centroid_of(frame).unwrap(), centroid_of(a5.step_start).unwrap(), dir, a5.size);
        let step = Performed::Move { slots: occupied(frame), direction: dir, distance: dist };
        let n = a5.performed.len();
        let performed = if n > 0 && a5.performed.last() is Move && a5.performed.last()->Move_direction == dir {
            a5.performed.update(n - 1, step)
        } else {
            a5.performed.push(step)
        };
        let directions = Seq::new(SLOTS as nat, |i: int| if frame[i] is Some { Some(dir) } else { a5.directions[i] });
        let mid = EngineModel { directions, performed, touch_down: frame, ..a5 };
        lemma_match_shape(mid, slide_repeat(), config, window);
        assert(a6.touch_down == frame);
    } else {
        assert(a6 == a5);
    }
    let a7 = refine_phase(a6, frame);
    lemma_refine_tracks(a6, frame);
    let a8 = touch_down_phase(a7, frame, config, window).0;
    lemma_touch_down_tracks(a7, frame, config, window);
    lemma_touch_down_keeps_tables(a7, frame, config, window);
    let m1 = frame_step(m, frame, config, window).0;
    assert(m1.touch_down == a6.touch_down);
    assert(m1.previous == frame);
    // the second time
    let b3 = track_phase(m1, frame, threshold);
    assert(!any_set(lifted(m1.touch_down, frame)));
    assert(keep_or_fill(m1.touch_down, frame) =~= m1.touch_down);
    assert(b3.touch_down == m1.touch_down);
    assert(b3.performed == m1.performed);
    lemma_track_tracks(m1, frame, threshold);
    let b5 = direction_phase(b3, frame, threshold);
    lemma_direction_tracks(b3, frame, threshold);
    assert(b5.touch_down == m1.touch_down);
    assert(b5.performed.len() == m1.performed.len());
    if m1.touch_down == frame {
        lemma_centre_is_inside(b5, frame, edge);
    } else {
        assert(b5.units == a5.units && b5.size == a5.size);
        assert(b5.touch_down == a5.touch_down);
        assert(leaves_ellipse(b5, frame, edge) == leaves_ellipse(a5, frame, edge));
    }
    assert(!leaves_ellipse(b5, frame, edge));
    let b6 = commit_phase(b5, frame, config, window);
    assert(b6.0 == b5 && b6.1.len() == 0);
    let b7 = refine_phase(b5, frame);
    assert(b7.performed.len() == b5.performed.len());
    assert(b7.previous == frame);
    let b8 = touch_down_phase(b7, frame, config, window);
    assert(b8.0 == b7 && b8.1.len() == 0);
    let (m2, c2) = frame_step(m1, frame, config, window);
    assert(c2 =~= b6.1 + b8.1);
}

proof fn lemma_touch_down_keeps_tables(m: EngineModel, frame: Seq<Option<Position>>, config: &Config, window: &Window)
    requires
        model_shape(m),
    ensures
        touch_down_phase(m, frame, config, window).0.touch_down == m.touch_down,
        touch_down_phase(m, frame, config, window).0.previous == m.previous,
{
}

proof fn lemma_centre_is_inside(m: EngineModel, frame: Seq<Option<Position>>, edge: EdgeOptions)
    requires
        m.touch_down == frame,
    ensures
        !leaves_ellipse(m, frame, edge),
{
    let c = centroid_of(frame).unwrap();
    let tx = m.units.x as int;
    let ty = m.units.y as int;
    let s = ellipse_scale(reference_at_edge(m, edge.threshold), edge.sensitivity);
    assert(tx * tx * (ty * ty) * (s * s) >= 0) by (nonlinear_arith);
    assert((0int * 0 * (ty * ty) + 0int * 0 * (tx * tx)) * (PPM * PPM) == 0) by (nonlinear_arith);
    assert(c.x - c.x == 0 && c.y - c.y == 0);
}

/// No two adjacent move steps share a direction.
pub open spec fn no_repeated_moves(p: Seq<Performed>) -> bool {
    forall|i: int, j: int|
        #![trigger p[i], p[j]]
        0 <= i && j == i + 1 && j < p.len() && p[i] is Move && p[j] is Move ==> p[i]->Move_direction != p[j]->Move_direction
}

/// Whether the frame re-aims, at an edge, the last move step to the direction of the
/// move step just before it.
pub open spec fn reaim_repeats(m: EngineModel, frame: Seq<Option<Position>>, config: &Config) -> bool {
    let threshold = config.options.edge.threshold;
    let a3 = track_phase(m, frame, threshold);
    let dir = frame_direction(a3, frame);
    let n = a3.performed.len();
    &&& count_present(frame) > 0
    &&& a3.previous_direction != Some(dir)
    &&& reference_at_edge(a3, threshold)
    &&& n >= 2
    &&& a3.performed[n - 1] is Move
    &&& a3.performed[n - 2] is Move
    &&& a3.performed[n - 2]->Move_direction == dir
}

proof fn lemma_take_keeps_moves(p: Seq<Performed>, k: int)
    requires
        0 <= k <= p.len(),
        no_repeated_moves(p),
    ensures
        no_repeated_moves(p.take(k)),
{
    let t = p.take(k);
    assert forall|i: int, j: int| #![trigger t[i], t[j]] 0 <= i && j == i + 1 && j < t.len() && t[i] is Move && t[j] is Move implies t[i]->Move_direction != t[j]->Move_direction by {
        assert(t[i] == p[i] && t[j] == p[j]);
    }
}

proof fn lemma_match_performed(m: EngineModel, mode: RepeatMode, config: &Config, window: &Window)
    ensures
        match_step(m, mode, config, window).0.performed == m.performed
            || match_step(m, mode, config, window).0.performed == trimmed(m.performed),
{
}

proof fn lemma_match_keeps_moves(m: EngineModel, mode: RepeatMode, config: &Config, window: &Window)
    requires
        no_repeated_moves(m.performed),
    ensures
        no_repeated_moves(match_step(m, mode, config, window).0.performed),
{
    lemma_match_performed(m, mode, config, window);
    lemma_trailing_touches_bounded(m.performed);
    lemma_take_keeps_moves(m.performed, m.performed.len() - trailing_touches(m.performed));
}

proof fn lemma_last_replaced_keeps_moves(p: Seq<Performed>, x: Performed)
    requires
        p.len() > 0,
        no_repeated_moves(p),
        x is Move ==> p.last() is Move && x->Move_direction == p.last()->Move_direction,
    ensures
        no_repeated_moves(p.update(p.len() - 1, x)),
{
    let q = p.update(p.len() - 1, x);
    assert forall|i: int, j: int| #![trigger q[i], q[j]] 0 <= i && j == i + 1 && j < q.len() && q[i] is Move && q[j] is Move implies q[i]->Move_direction != q[j]->Move_direction by {
        if j < q.len() - 1 {
            assert(q[i] == p[i] && q[j] == p[j]);
        } else {
            assert(q[i] == p[i]);
            assert(p[j] == p.last());
        }
    }
}

proof fn lemma_push_keeps_moves(p: Seq<Performed>, x: Performed)
    requires
        no_repeated_moves(p),
        x is Move && p.len() > 0 && p.last() is Move ==> x->Move_direction != p.last()->Move_direction,
    ensures
        no_repeated_moves(p.push(x)),
{
    let q = p.push(x);
    assert forall|i: int, j: int| #![trigger q[i], q[j]] 0 <= i && j == i + 1 && j < q.len() && q[i] is Move && q[j] is Move implies q[i]->Move_direction != q[j]->Move_direction by {
        if j < q.len() - 1 {
            assert(q[i] == p[i] && q[j] == p[j]);
        } else {
            assert(q[i] == p.last());
        }
    }
}

proof fn lemma_track_keeps_moves(m: EngineModel, frame: Seq<Option<Position>>, threshold: Fraction)
    requires
        no_repeated_moves(m.performed),
    ensures
        no_repeated_moves(track_phase(m, frame, threshold).performed),
{
    let n = m.performed.len();
    let up = lifted(m.touch_down, frame);
    if any_set(up) {
        if n > 0 && m.performed.last() is TouchUp {
            lemma_last_replaced_keeps_moves(m.performed, Performed::TouchUp { slots: union(m.performed.last().slot_table(), up) });
        } else if m.repeat_mode == no_repeat() {
            lemma_push_keeps_moves(m.performed, Performed::TouchUp { slots: up });
        }
    }
}

proof fn lemma_direction_keeps_moves(a3: EngineModel, frame: Seq<Option<Position>>, threshold: Fraction)
    requires
        no_repeated_moves(a3.performed),
        ({
            let dir = frame_direction(a3, frame);
            let n = a3.performed.len();
            !(a3.previous_direction != Some(dir) && reference_at_edge(a3, threshold) && n >= 2
                && a3.performed[n - 1] is Move && a3.performed[n - 2] is Move
                && a3.performed[n - 2]->Move_direction == dir)
        }),
    ensures
        no_repeated_moves(direction_phase(a3, frame, threshold).performed),
{
    let dir = frame_direction(a3, frame);
    let n3 = a3.performed.len();
    if a3.previous_direction != Some(dir) && n3 > 0 && a3.performed.last() is Move
        && a3.performed.last()->Move_direction != dir && reference_at_edge(a3, threshold) {
        let x = Performed::Move {
            slots: a3.performed.last()->Move_slots,
            direction: dir,
            distance: a3.performed.last()->Move_distance,
        };
        let q = a3.performed.update(n3 - 1, x);
        assert forall|i: int, j: int| #![trigger q[i], q[j]] 0 <= i && j == i + 1 && j < q.len() && q[i] is Move && q[j] is Move implies q[i]->Move_direction != q[j]->Move_direction by {
            if j < q.len() - 1 {
                assert(q[i] == a3.performed[i] && q[j] == a3.performed[j]);
            } else {
                assert(q[i] == a3.performed[n3 - 2]);
                assert(a3.performed[n3 - 1] == a3.performed.last());
            }
        }
        assert(direction_phase(a3, frame, threshold).performed == q);
    }
}

proof fn lemma_update_keeps_moves(p: Seq<Performed>, i: int, x: Performed)
    requires
        0 <= i < p.len(),
        no_repeated_moves(p),
        (x is Move) == (p[i] is Move),
        x is Move ==> x->Move_direction == p[i]->Move_direction,
    ensures
        no_repeated_moves(p.update(i, x)),
{
    let q = p.update(i, x);
    assert forall|a: int, b: int| #![trigger q[a], q[b]] 0 <= a && b == a + 1 && b < q.len() && q[a] is Move && q[b] is Move implies q[a]->Move_direction != q[b]->Move_direction by {
        assert(p[a] is Move && p[b] is Move);
    }
}

proof fn lemma_commit_keeps_moves(a5: EngineModel, frame: Seq<Option<Position>>, config: &Config, window: &Window)
    requires
        no_repeated_moves(a5.performed),
    ensures
        no_repeated_moves(commit_phase(a5, frame, config, window).0.performed),
{
    if leaves_ellipse(a5, frame, config.options.edge) {
        let d = frame_direction(a5, frame);
        let p = a5.performed;
        let t = move_target(p);
        lemma_trailing_touch_downs_bounded(p);
        let c = committed(a5, frame);
        if t >= 0 && p[t] is Move && p[t]->Move_direction == d {
            lemma_update_keeps_moves(p, t, c.performed[t]);
            assert(c.performed == p.update(t, c.performed[t]));
        } else {
            let x = c.performed.last();
            if p.len() > 0 && p.last() is Move {
                assert(t == p.len() - 1);
            }
            lemma_push_keeps_moves(p, x);
            assert(c.performed == p.push(x));
        }
        lemma_match_keeps_moves(c, slide_repeat(), config, window);
    }
}

proof fn lemma_refine_keeps_moves(a6: EngineModel, frame: Seq<Option<Position>>)
    requires
        model_shape(a6),
        no_repeated_moves(a6.performed),
    ensures
        no_repeated_moves(refine_phase(a6, frame).performed),
{
    lemma_trailing_touch_downs_bounded(a6.performed);
    let t = move_target(a6.performed);
    if t >= 0 {
        let r = refine_step(a6.performed[t], frame, a6.step_start, a6.directions, a6.size, SLOTS as int);
        lemma_refine_keeps(a6.performed[t], frame, a6.step_start, a6.directions, a6.size, SLOTS as int);
        lemma_update_keeps_moves(a6.performed, t, r);
    }
}

proof fn lemma_touch_down_keeps_moves(a7: EngineModel, frame: Seq<Option<Position>>, config: &Config, window: &Window)
    requires
        no_repeated_moves(a7.performed),
    ensures
        no_repeated_moves(touch_down_phase(a7, frame, config, window).0.performed),
{
    let n7 = a7.performed.len();
    if count_present(frame) > count_present(a7.previous) && n7 > 0 && first_new(frame, a7.previous, SLOTS as int) is Some {
        let sl = first_new(frame, a7.previous, SLOTS as int).unwrap();
        let performed = if a7.performed.last() is TouchDown {
            let x = Performed::TouchDown { slots: a7.performed.last().slot_table().update(sl, true) };
            lemma_last_replaced_keeps_moves(a7.performed, x);
            a7.performed.update(n7 - 1, x)
        } else {
            let x = Performed::TouchDown { slots: singleton(sl as u8) };
            lemma_push_keeps_moves(a7.performed, x);
            a7.performed.push(x)
        };
        lemma_match_keeps_moves(EngineModel { performed, ..a7 }, tap_repeat(), config, window);
    }
}

/// Adjacent move steps keep distinct directions through a frame, unless the frame
/// re-aims the last move, at an edge, to the direction of the move before it.
pub proof fn moves_stay_distinct(m: EngineModel, frame: Seq<Option<Position>>, config: &Config, window: &Window)
    requires
        model_wf(m),
        frame.len() == SLOTS,
        no_repeated_moves(m.performed),
        !reaim_repeats(m, frame, config),
    ensures
        no_repeated_moves(frame_step(m, frame, config, window).0.performed),
{
    if count_present(frame) == 0 {
        assert(frame_step(m, frame, config, window).0.performed.len() == 0);
        return;
    }
    let threshold = config.options.edge.threshold;
    let a3 = track_phase(m, frame, threshold);
    lemma_track_tracks(m, frame, threshold);
    lemma_track_keeps_moves(m, frame, threshold);
    let a5 = direction_phase(a3, frame, threshold);
    lemma_direction_tracks(a3, frame, threshold);
    lemma_direction_keeps_moves(a3, frame, threshold);
    let a6 = commit_phase(a5, frame, config, window).0;
    lemma_commit_tracks(a5, frame, config, window);
    lemma_commit_keeps_moves(a5, frame, config, window);
    let a7 = refine_phase(a6, frame);
    lemma_refine_keeps_moves(a6, frame);
    lemma_touch_down_keeps_moves(a7, frame, config, window);
}

/// Whether `p` has a move step at `k` whose distance is at least `d`.
pub open spec fn move_at_least(p: Seq<Performed>, k: int, d: u64) -> bool {
    0 <= k < p.len() && p[k] is Move && p[k]->Move_distance >= d
}

proof fn lemma_trailing_below_move(p: Seq<Performed>, k: int)
    requires
        0 <= k < p.len(),
        p[k] is Move,
    ensures
        trailing_touches(p) <= p.len() - 1 - k,
    decreases p.len(),
{
    if k < p.len() - 1 {
        assert(p.drop_last()[k] == p[k]);
        lemma_trailing_below_move(p.drop_last(), k);
    } else {
        assert(p.last() == p[k]);
    }
}

proof fn lemma_match_keeps_move(m: EngineModel, mode: RepeatMode, config: &Config, window: &Window, k: int, d: u64)
    requires
        move_at_least(m.performed, k, d),
    ensures
        move_at_least(match_step(m, mode, config, window).0.performed, k, d),
{
    lemma_match_performed(m, mode, config, window);
    lemma_trailing_below_move(m.performed, k);
}

proof fn lemma_commit_keeps_move(a5: EngineModel, frame: Seq<Option<Position>>, config: &Config, window: &Window, k: int, d: u64)
    requires
        move_at_least(a5.performed, k, d),
    ensures
        move_at_least(commit_phase(a5, frame, config, window).0.performed, k, d),
{
    if leaves_ellipse(a5, frame, config.options.edge) {
        let c = committed(a5, frame);
        lemma_trailing_touch_downs_bounded(a5.performed);
        assert(move_at_least(c.performed, k, d));
        lemma_match_keeps_move(c, slide_repeat(), config, window, k, d);
    }
}

/// Through any frame that is not a lift, the last move step keeps its place, stays a
/// move, and its distance does not decrease.
pub proof fn trailing_move_distance_grows(m: EngineModel, frame: Seq<Option<Position>>, config: &Config, window: &Window)
    requires
        model_wf(m),
        frame.len() == SLOTS,
        count_present(frame) > 0,
        m.performed.len() > 0,
        m.performed.last() is Move,
    ensures
        move_at_least(
            frame_step(m, frame, config, window).0.performed,
            m.performed.len() - 1,
            m.performed.last()->Move_distance,
        ),
{
    let k = m.performed.len() - 1;
    let d = m.performed.last()->Move_distance;
    let threshold = config.options.edge.threshold;
    let a3 = track_phase(m, frame, threshold);
    lemma_track_tracks(m, frame, threshold);
    assert(m.performed[k] == m.performed.last());
    assert(move_at_least(a3.performed, k, d));
    let a5 = direction_phase(a3, frame, threshold);
    lemma_direction_tracks(a3, frame, threshold);
    if a3.performed.len() - 1 == k {
        assert(a3.performed.last() == a3.performed[k]);
    }
    assert(move_at_least(a5.performed, k, d));
    let a6 = commit_phase(a5, frame, config, window).0;
    lemma_commit_tracks(a5, frame, config, window);
    lemma_commit_keeps_move(a5, frame, config, window, k, d);
    let a7 = refine_phase(a6, frame);
    lemma_trailing_touch_downs_bounded(a6.performed);
    let t = move_target(a6.performed);
    if t >= 0 {
        lemma_refine_keeps(a6.performed[t], frame, a6.step_start, a6.directions, a6.size, SLOTS as int);
    }
    assert(move_at_least(a7.performed, k, d));
    let n7 = a7.performed.len();
    assert(a7.performed[n7 - 1] == a7.performed.last());
    if count_present(frame) > count_present(a7.previous) && n7 > 0 && first_new(frame, a7.previous, SLOTS as int) is Some {
        let sl = first_new(frame, a7.previous, SLOTS as int).unwrap();
        let performed = if a7.performed.last() is TouchDown {
            a7.performed.update(n7 - 1, Performed::TouchDown { slots: a7.performed.last().slot_table().update(sl, true) })
        } else {
            a7.performed.push(Performed::TouchDown { slots: singleton(sl as u8) })
        };
        assert(move_at_least(performed, k, d));
        lemma_match_keeps_move(EngineModel { performed, ..a7 }, tap_repeat(), config, window, k, d);
    }
}

/// What is left after dropping the trailing touch steps ends with a move, if anything is left.
pub proof fn lemma_trimmed_ends_with_move(p: Seq<Performed>)
    ensures
        trimmed(p).len() > 0 ==> trimmed(p).last() is Move,
    decreases p.len(),
{
    lemma_trailing_touches_bounded(p);
    if p.len() > 0 {
        if p.last().is_touch() {
            lemma_trimmed_ends_with_move(p.drop_last());
            lemma_trailing_touches_bounded(p.drop_last());
            assert(trimmed(p) =~= trimmed(p.drop_last()));
        } else {
            assert(trimmed(p) =~= p);
        }
    }
}

/// A gesture whose last step is a touch-down or a touch-up never matches: matching
/// first drops the trailing touch steps of what was performed.
pub proof fn touch_ending_gestures_never_match(g: Gesture, p: Seq<Performed>, edge: Option<Edge>, mode: RepeatMode)
    requires
        g.sequence@.len() > 0,
        !(g.sequence@.last() is Move),
    ensures
        !gesture_matches(g, trimmed(p), edge, mode),
{
    lemma_trimmed_ends_with_move(p);
    let t = trimmed(p);
    if t.len() == g.sequence@.len() {
        let k = t.len() - 1;
        assert(g.sequence@[k] == g.sequence@.last());
        assert(t[k] == t.last());
        assert(!step_matches(g.sequence@[k], t[k]));
    }
}

/// The position of the gesture `best_of` picks: one with the largest minimum distance,
/// and the first of those.
pub proof fn lemma_best_index(ms: Seq<Gesture>) -> (i: int)
    requires
        ms.len() > 0,
    ensures
        0 <= i < ms.len(),
        best_of(ms) == ms[i],
        forall|j: int| 0 <= j < ms.len() ==> max_min_distance(#[trigger] ms[j].sequence@) <= max_min_distance(ms[i].sequence@),
        forall|j: int| 0 <= j < i ==> max_min_distance(#[trigger] ms[j].sequence@) < max_min_distance(ms[i].sequence@),
    decreases ms.len(),
{
    if ms.len() == 1 {
        0
    } else {
        let rest = ms.drop_last();
        let i0 = lemma_best_index(rest);
        assert forall|j: int| 0 <= j < rest.len() implies #[trigger] rest[j] == ms[j] by {}
        if max_min_distance(ms.last().sequence@) > max_min_distance(best_of(rest).sequence@) {
            assert forall|j: int| 0 <= j < ms.len() - 1 implies max_min_distance(#[trigger] ms[j].sequence@)
                < max_min_distance(ms[ms.len() - 1].sequence@) by {
                assert(rest[j] == ms[j]);
            }
            ms.len() - 1
        } else {
            assert forall|j: int| 0 <= j < ms.len() implies max_min_distance(#[trigger] ms[j].sequence@)
                <= max_min_distance(ms[i0].sequence@) by {
                if j < ms.len() - 1 {
                    assert(rest[j] == ms[j]);
                }
            }
            assert forall|j: int| 0 <= j < i0 implies max_min_distance(#[trigger] ms[j].sequence@)
                < max_min_distance(ms[i0].sequence@) by {
                assert(rest[j] == ms[j]);
            }
            i0
        }
    }
}

/// Tie-break among matching gestures `ms`: when not all matches run, exactly one command
/// fires, that of the first gesture whose largest minimum distance is the largest; when all
/// run, every matching gesture's command fires once, in candidate order.
pub proof fn tie_break_by_distance(ms: Seq<Gesture>)
    requires
        ms.len() > 0,
    ensures
        fired(ms, true) == commands_of(ms),
        fired(ms, true).len() == ms.len(),
        exists|i: int|
            0 <= i < ms.len() && fired(ms, false) == seq![ms[i].command@] && (forall|j: int|
                0 <= j < ms.len() ==> max_min_distance(#[trigger] ms[j].sequence@) <= max_min_distance(ms[i].sequence@))
                && (forall|j: int| 0 <= j < i ==> max_min_distance(#[trigger] ms[j].sequence@) < max_min_distance(ms[i].sequence@)),
{
    let i = lemma_best_index(ms);
    assert(fired(ms, false) == seq![ms[i].command@]);
}

} // verus!
