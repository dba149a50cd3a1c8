use vstd::prelude::*;
use crate::config::{regex_matches, Config, Gesture, RepeatMode, WindowPattern};
use crate::geometry::Edge;
use crate::sequence_step::{min_distance_of, step_matches, Performed, PerformedSequenceStep};

verus! {

/// The focused window, as the window monitor last reported it.
#[derive(Debug, Clone, PartialEq, Eq)]
pub struct Window {
    pub class: String,
    pub title: String,
}

/// What a sequence of performed steps is.
pub open spec fn performed_view(v: Seq<PerformedSequenceStep>) -> Seq<Performed> {
    Seq::new(v.len(), |i: int| v[i]@)
}

/// The texts of a sequence of strings.
pub open spec fn texts(v: Seq<String>) -> Seq<Seq<char>> {
    Seq::new(v.len(), |i: int| v[i]@)
}

/// For each `(pattern, gestures)` entry, whether its pattern matches `haystack`.
pub open spec fn pattern_hits(entries: Seq<(WindowPattern, Vec<Gesture>)>, haystack: Seq<char>) -> Seq<bool> {
    Seq::new(entries.len(), |i: int| regex_matches(entries[i].0@, haystack))
}

/// The gestures of the entries whose hit is set, in entry order.
pub open spec fn gestures_of_hits(entries: Seq<(WindowPattern, Vec<Gesture>)>, hits: Seq<bool>) -> Seq<Gesture>
    decreases entries.len(),
{
    if entries.len() == 0 {
        Seq::empty()
    } else {
        let n = entries.len() - 1;
        gestures_of_hits(entries.take(n), hits) + if hits[n] { entries[n].1@ } else { Seq::empty() }
    }
}

/// The candidate gestures in order: the global ones, then those bound to a matching
/// class, then those bound to a matching title.
pub open spec fn candidates_given(config: &Config, class_hits: Seq<bool>, title_hits: Seq<bool>) -> Seq<Gesture> {
    config.gestures@ + gestures_of_hits(config.application_gestures.by_class@, class_hits)
        + gestures_of_hits(config.application_gestures.by_title@, title_hits)
}

/// The candidate gestures while `window` is focused.
pub open spec fn candidates(config: &Config, window: &Window) -> Seq<Gesture> {
    candidates_given(
        config,
        pattern_hits(config.application_gestures.by_class@, window.class@),
        pattern_hits(config.application_gestures.by_title@, window.title@),
    )
}

/// Whether gesture `g` matches `performed`, started at `edge`, in match mode `mode`:
/// as many steps, the same edge, slide repetition allowed where sliding, and each
/// defined step met by the performed step at its position.
pub open spec fn gesture_matches(g: Gesture, performed: Seq<Performed>, edge: Option<Edge>, mode: RepeatMode) -> bool {
    &&& g.sequence@.len() == performed.len()
    &&& g.edge == edge
    &&& (mode.slide ==> g.repeat_mode.slide)
    &&& forall|i: int| 0 <= i < performed.len() ==> step_matches(#[trigger] g.sequence@[i], performed[i])
}

/// The candidates that match, in candidate order.
pub open spec fn matches_of(cands: Seq<Gesture>, performed: Seq<Performed>, edge: Option<Edge>, mode: RepeatMode) -> Seq<Gesture>
    decreases cands.len(),
{
    if cands.len() == 0 {
        Seq::empty()
    } else {
        let rest = matches_of(cands.drop_last(), performed, edge, mode);
        if gesture_matches(cands.last(), performed, edge, mode) { rest.push(cands.last()) } else { rest }
    }
}

/// The largest minimum distance among the steps, zero when none sets one.
pub open spec fn max_min_distance(steps: Seq<crate::sequence_step::DefinedSequenceStep>) -> u32
    decreases steps.len(),
{
    if steps.len() == 0 {
        0
    } else {
        let m = max_min_distance(steps.drop_last());
        let d = min_distance_of(steps.last());
        if d > m { d } else { m }
    }
}

/// The first gesture with the largest minimum distance.
pub open spec fn best_of(ms: Seq<Gesture>) -> Gesture
    decreases ms.len(),
{
    if ms.len() <= 1 {
        ms[0]
    } else {
        let b = best_of(ms.drop_last());
        if max_min_distance(ms.last().sequence@) > max_min_distance(b.sequence@) { ms.last() } else { b }
    }
}

/// The commands of the gestures.
pub open spec fn commands_of(ms: Seq<Gesture>) -> Seq<Seq<char>> {
    Seq::new(ms.len(), |i: int| ms[i].command@)
}

/// The commands that fire for the matching gestures `ms`: all of them in order when
/// `run_all`, else that of the first gesture with the largest minimum distance.
pub open spec fn fired(ms: Seq<Gesture>, run_all: bool) -> Seq<Seq<char>> {
    if ms.len() == 0 {
        Seq::empty()
    } else if run_all {
        commands_of(ms)
    } else {
        seq![best_of(ms).command@]
    }
}

/// Every step has room for every slot id.
pub open spec fn all_wf(v: Seq<PerformedSequenceStep>) -> bool {
    forall|i: int| 0 <= i < v.len() ==> (#[trigger] v[i]).wf()
}

fn same_edge(a: Option<Edge>, b: Option<Edge>) -> (r: bool)
    ensures
        r == (a == b),
{
    match (a, b) {
        (None, None) => true,
        (Some(x), Some(y)) => x == y,
        _ => false,
    }
}

/// The largest minimum distance among the gesture's steps.
pub fn gesture_weight(g: &Gesture) -> (r: u32)
    ensures
        r == max_min_distance(g.sequence@),
{
    let mut m: u32 = 0;
    let mut i: usize = 0;
    while i < g.sequence.len()
        invariant
            i <= g.sequence@.len(),
            m == max_min_distance(g.sequence@.take(i as int)),
        decreases g.sequence.len() - i,
    {
        assert(g.sequence@.take(i + 1).drop_last() =~= g.sequence@.take(i as int));
        let d = g.sequence[i].min_distance();
        if d > m {
            m = d;
        }
        i = i + 1;
    }
    assert(g.sequence@.take(i as int) =~= g.sequence@);
    m
}

/// Whether `g` matches the first `len` performed steps.
pub fn does_gesture_match(g: &Gesture, performed: &Vec<PerformedSequenceStep>, len: usize, edge: Option<Edge>, mode: RepeatMode) -> (r: bool)
    requires
        len <= performed@.len(),
        all_wf(performed@),
    ensures
        r == gesture_matches(*g, performed_view(performed@).take(len as int), edge, mode),
{
    let ghost p = performed_view(performed@).take(len as int);
    if g.sequence.len() != len || (mode.slide && !g.repeat_mode.slide) || !same_edge(g.edge, edge) {
        return false;
    }
    let mut i: usize = 0;
    while i < len
        invariant
            i <= len,
            len <= performed@.len(),
            g.sequence@.len() == len,
            all_wf(performed@),
            p == performed_view(performed@).take(len as int),
            forall|j: int| 0 <= j < i ==> step_matches(#[trigger] g.sequence@[j], p[j]),
        decreases len - i,
    {
        assert(performed@[i as int].wf());
        if !g.sequence[i].matches(&performed[i]) {
            return false;
        }
        i = i + 1;
    }
    true
}

fn scan(
    gestures: &Vec<Gesture>,
    performed: &Vec<PerformedSequenceStep>,
    len: usize,
    edge: Option<Edge>,
    mode: RepeatMode,
    all: &mut Vec<String>,
    best_weight: &mut u32,
    best_command: &mut String,
    Ghost(prefix): Ghost<Seq<Gesture>>,
)
    requires
        len <= performed@.len(),
        all_wf(performed@),
        texts(old(all)@) == commands_of(matches_of(prefix, performed_view(performed@).take(len as int), edge, mode)),
        matches_of(prefix, performed_view(performed@).take(len as int), edge, mode).len() > 0 ==> {
            let b = best_of(matches_of(prefix, performed_view(performed@).take(len as int), edge, mode));
            *old(best_weight) == max_min_distance(b.sequence@) && old(best_command)@ == b.command@
        },
    ensures
        texts(final(all)@) == commands_of(matches_of(prefix + gestures@, performed_view(performed@).take(len as int), edge, mode)),
        matches_of(prefix + gestures@, performed_view(performed@).take(len as int), edge, mode).len() > 0 ==> {
            let b = best_of(matches_of(prefix + gestures@, performed_view(performed@).take(len as int), edge, mode));
            *final(best_weight) == max_min_distance(b.sequence@) && final(best_command)@ == b.command@
        },
{
    let ghost p = performed_view(performed@).take(len as int);
    let mut k: usize = 0;
    assert(prefix + gestures@.take(0) =~= prefix);
    while k < gestures.len()
        invariant
            k <= gestures@.len(),
            len <= performed@.len(),
            all_wf(performed@),
            p == performed_view(performed@).take(len as int),
            texts(all@) == commands_of(matches_of(prefix + gestures@.take(k as int), p, edge, mode)),
            matches_of(prefix + gestures@.take(k as int), p, edge, mode).len() > 0 ==> {
                let b = best_of(matches_of(prefix + gestures@.take(k as int), p, edge, mode));
                *best_weight == max_min_distance(b.sequence@) && best_command@ == b.command@
            },
        decreases gestures.len() - k,
    {
        let ghost before = prefix + gestures@.take(k as int);
        let ghost after = prefix + gestures@.take(k + 1);
        assert(after.drop_last() =~= before);
        assert(after.last() == gestures@[k as int]);
        let ghost ms = matches_of(before, p, edge, mode);
        let g = &gestures[k];
        if does_gesture_match(g, performed, len, edge, mode) {
            let ghost ms2 = ms.push(*g);
            assert(ms2.drop_last() =~= ms);
            let first = all.len() == 0;
            let ghost old_all = all@;
            let c = g.command.clone();
            all.push(c);
            assert(old_all.len() == ms.len()) by {
                assert(texts(old_all).len() == commands_of(ms).len());
            }
            assert(all@ == old_all.push(c));
            assert forall|i: int| 0 <= i < ms2.len() implies #[trigger] texts(all@)[i] == commands_of(ms2)[i] by {
                if i < ms.len() {
                    assert(texts(old_all)[i] == commands_of(ms)[i]);
                    assert(all@[i] == old_all[i]);
                    assert(ms2[i] == ms[i]);
                } else {
                    assert(all@[i] == c);
                    assert(ms2[i] == *g);
                }
            }
            assert(texts(all@) =~= commands_of(ms2));
            let w = gesture_weight(g);
            if first || w > *best_weight {
                *best_weight = w;
                *best_command = g.command.clone();
            }
        }
        k = k + 1;
    }
    assert(gestures@.take(k as int) =~= gestures@);
}

fn scan_bound(
    entries: &Vec<(WindowPattern, Vec<Gesture>)>,
    hits: &Vec<bool>,
    performed: &Vec<PerformedSequenceStep>,
    len: usize,
    edge: Option<Edge>,
    mode: RepeatMode,
    all: &mut Vec<String>,
    best_weight: &mut u32,
    best_command: &mut String,
    Ghost(prefix): Ghost<Seq<Gesture>>,
)
    requires
        hits@.len() == entries@.len(),
        len <= performed@.len(),
        all_wf(performed@),
        texts(old(all)@) == commands_of(matches_of(prefix, performed_view(performed@).take(len as int), edge, mode)),
        matches_of(prefix, performed_view(performed@).take(len as int), edge, mode).len() > 0 ==> {
            let b = best_of(matches_of(prefix, performed_view(performed@).take(len as int), edge, mode));
            *old(best_weight) == max_min_distance(b.sequence@) && old(best_command)@ == b.command@
        },
    ensures
        texts(final(all)@) == commands_of(
            matches_of(prefix + gestures_of_hits(entries@, hits@), performed_view(performed@).take(len as int), edge, mode),
        ),
        matches_of(prefix + gestures_of_hits(entries@, hits@), performed_view(performed@).take(len as int), edge, mode).len() > 0 ==> {
            let b = best_of(
                matches_of(prefix + gestures_of_hits(entries@, hits@), performed_view(performed@).take(len as int), edge, mode),
            );
            *final(best_weight) == max_min_distance(b.sequence@) && final(best_command)@ == b.command@
        },
{
    let ghost p = performed_view(performed@).take(len as int);
    let mut j: usize = 0;
    assert(prefix + gestures_of_hits(entries@.take(0), hits@) =~= prefix);
    while j < entries.len()
        invariant
            j <= entries@.len(),
            hits@.len() == entries@.len(),
            len <= performed@.len(),
            all_wf(performed@),
            p == performed_view(performed@).take(len as int),
            texts(all@) == commands_of(matches_of(prefix + gestures_of_hits(entries@.take(j as int), hits@), p, edge, mode)),
            matches_of(prefix + gestures_of_hits(entries@.take(j as int), hits@), p, edge, mode).len() > 0 ==> {
                let b = best_of(matches_of(prefix + gestures_of_hits(entries@.take(j as int), hits@), p, edge, mode));
                *best_weight == max_min_distance(b.sequence@) && best_command@ == b.command@
            },
        decreases entries.len() - j,
    {
        let ghost acc = prefix + gestures_of_hits(entries@.take(j as int), hits@);
        assert(entries@.take(j + 1).take(j as int) =~= entries@.take(j as int));
        if hits[j] {
            scan(&entries[j].1, performed, len, edge, mode, all, best_weight, best_command, Ghost(acc));
            assert(acc + entries@[j as int].1@ =~= prefix + gestures_of_hits(entries@.take(j + 1), hits@));
        } else {
            assert(acc =~= prefix + gestures_of_hits(entries@.take(j + 1), hits@));
        }
        j = j + 1;
    }
    assert(entries@.take(j as int) =~= entries@);
}

/// The commands that fire for the first `len` performed steps, given for each
/// class-bound and title-bound entry whether its pattern matched the window.
pub fn select_commands(
    config: &Config,
    class_hits: &Vec<bool>,
    title_hits: &Vec<bool>,
    performed: &Vec<PerformedSequenceStep>,
    len: usize,
    edge: Option<Edge>,
    mode: RepeatMode,
) -> (r: Vec<String>)
    requires
        class_hits@.len() == config.application_gestures.by_class@.len(),
        title_hits@.len() == config.application_gestures.by_title@.len(),
        len <= performed@.len(),
        all_wf(performed@),
    ensures
        texts(r@) == fired(
            matches_of(candidates_given(config, class_hits@, title_hits@), performed_view(performed@).take(len as int), edge, mode),
            config.options.run_all_matches,
        ),
{
    let ghost p = performed_view(performed@).take(len as int);
    let mut all: Vec<String> = Vec::new();
    let mut best_weight: u32 = 0;
    let mut best_command = String::new();
    assert(texts(all@) =~= commands_of(matches_of(Seq::empty(), p, edge, mode)));
    scan(&config.gestures, performed, len, edge, mode, &mut all, &mut best_weight, &mut best_command, Ghost(Seq::empty()));
    assert(Seq::<Gesture>::empty() + config.gestures@ =~= config.gestures@);
    scan_bound(
        &config.application_gestures.by_class,
        class_hits,
        performed,
        len,
        edge,
        mode,
        &mut all,
        &mut best_weight,
        &mut best_command,
        Ghost(config.gestures@),
    );
    let ghost with_class = config.gestures@ + gestures_of_hits(config.application_gestures.by_class@, class_hits@);
    scan_bound(
        &config.application_gestures.by_title,
        title_hits,
        performed,
        len,
        edge,
        mode,
        &mut all,
        &mut best_weight,
        &mut best_command,
        Ghost(with_class),
    );
    let ghost ms = matches_of(candidates_given(config, class_hits@, title_hits@), p, edge, mode);
    if all.len() == 0 {
        assert(texts(all@).len() == 0);
        assert(texts(all@) =~= fired(ms, config.options.run_all_matches));
        return all;
    }
    assert(with_class + gestures_of_hits(config.application_gestures.by_title@, title_hits@) == candidates_given(config, class_hits@, title_hits@));
    assert(texts(all@).len() == ms.len());
    if config.options.run_all_matches {
        all
    } else {
        let r = vec![best_command];
        assert(r@ =~= seq![best_command]);
        assert(texts(r@) =~= fired(ms, config.options.run_all_matches));
        r
    }
}

/// Whether each entry's pattern matches `haystack`.
pub fn window_hits(entries: &Vec<(WindowPattern, Vec<Gesture>)>, haystack: &String) -> (r: Vec<bool>)
    ensures
        r@ == pattern_hits(entries@, haystack@),
{
    let mut r: Vec<bool> = Vec::new();
    let mut j: usize = 0;
    while j < entries.len()
        invariant
            j <= entries@.len(),
            r@ == pattern_hits(entries@, haystack@).take(j as int),
        decreases entries.len() - j,
    {
        let hit = entries[j].0.is_match(haystack.as_str());
        r.push(hit);
        assert(r@ =~= pattern_hits(entries@, haystack@).take(j + 1));
        j = j + 1;
    }
    assert(r@ =~= pattern_hits(entries@, haystack@));
    r
}

/// The commands that fire for the first `len` performed steps while `window` is focused.
pub fn find_commands(
    config: &Config,
    window: &Window,
    performed: &Vec<PerformedSequenceStep>,
    len: usize,
    edge: Option<Edge>,
    mode: RepeatMode,
) -> (r: Vec<String>)
    requires
        len <= performed@.len(),
        all_wf(performed@),
    ensures
        texts(r@) == fired(
            matches_of(candidates(config, window), performed_view(performed@).take(len as int), edge, mode),
            config.options.run_all_matches,
        ),
{
    let class_hits = window_hits(&config.application_gestures.by_class, &window.class);
    let title_hits = window_hits(&config.application_gestures.by_title, &window.title);
    select_commands(config, &class_hits, &title_hits, performed, len, edge, mode)
}

} // verus!
