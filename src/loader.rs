use vstd::prelude::*;
use crate::config::{regex_valid, ApplicationGestures, Config, Gesture, Options, RepeatMode, WindowPattern};
use crate::geometry::{Direction, Edge, Fraction, PPM};
use crate::matcher::texts;
use crate::sequence_step::{
    distances_view, resolve_spec, DefinedSequenceStep, DefinedSequenceStepRaw, Distance,
};

verus! {

/// The first position of `c` in `s`.
pub open spec fn index_of(s: Seq<char>, c: char) -> Option<int>
    decreases s.len(),
{
    if s.len() == 0 {
        None
    } else if s[0] == c {
        Some(0)
    } else {
        match index_of(s.drop_first(), c) {
            Some(i) => Some(i + 1),
            None => None,
        }
    }
}

/// `s` without `prefix`, when it starts with it.
pub open spec fn after_prefix(s: Seq<char>, prefix: Seq<char>) -> Option<Seq<char>> {
    if prefix.len() <= s.len() && s.take(prefix.len() as int) == prefix {
        Some(s.skip(prefix.len() as int))
    } else {
        None
    }
}

/// Relies on `str::strip_prefix`: the rest of `s` when it starts with `prefix`.
#[verifier::external_body]
fn strip_prefix<'a>(s: &'a str, prefix: &str) -> (r: Option<&'a str>)
    ensures
        match (r, after_prefix(s@, prefix@)) {
            (Some(rest), Some(t)) => rest@ == t,
            (None, None) => true,
            _ => false,
        },
{
    s.strip_prefix(prefix)
}

/// Relies on `str::split_once`: the text before and after the first `delimiter`.
#[verifier::external_body]
fn split_once(s: &str, delimiter: char) -> (r: Option<(&str, &str)>)
    ensures
        match (r, index_of(s@, delimiter)) {
            (Some((a, b)), Some(i)) => a@ == s@.take(i) && b@ == s@.skip(i + 1),
            (None, None) => true,
            _ => false,
        },
{
    s.split_once(delimiter)
}

/// An owned copy of `s`.
fn owned(s: &str) -> (r: String)
    ensures
        r@ == s@,
{
    s.to_owned()
}

/// The window patterns an application-gesture key binds to.
#[derive(Debug, Clone, PartialEq, Eq)]
pub struct AppKey {
    pub class: Option<String>,
    pub title: Option<String>,
}

/// A key part `class:<re>` or `title:<re>`: whether it is a class, and the pattern.
pub open spec fn key_part(part: Seq<char>) -> Option<(bool, Seq<char>)> {
    match after_prefix(part, seq!['c', 'l', 'a', 's', 's', ':']) {
        Some(re) => Some((true, re)),
        None => match after_prefix(part, seq!['t', 'i', 't', 'l', 'e', ':']) {
            Some(re) => Some((false, re)),
            None => None,
        },
    }
}

/// What a key binds to: `a,b` with each part `class:<re>` or `title:<re>` (a later part
/// of the same kind wins); `title:<re>`; `class:<re>`; or a bare class pattern.
pub open spec fn app_key_spec(key: Seq<char>) -> Option<(Option<Seq<char>>, Option<Seq<char>>)> {
    match index_of(key, ',') {
        Some(i) => match (key_part(key.take(i)), key_part(key.skip(i + 1))) {
            (Some((c1, r1)), Some((c2, r2))) => {
                let class = if c2 { Some(r2) } else if c1 { Some(r1) } else { None };
                let title = if !c2 { Some(r2) } else if !c1 { Some(r1) } else { None };
                Some((class, title))
            },
            _ => None,
        },
        None => match after_prefix(key, seq!['t', 'i', 't', 'l', 'e', ':']) {
            Some(re) => Some((None, Some(re))),
            None => match after_prefix(key, seq!['c', 'l', 'a', 's', 's', ':']) {
                Some(re) => Some((Some(re), None)),
                None => Some((Some(key), None)),
            },
        },
    }
}

/// The text of an optional string.
pub open spec fn opt_view(s: Option<String>) -> Option<Seq<char>> {
    match s {
        Some(t) => Some(t@),
        None => None,
    }
}

fn parse_key_part(part: &str) -> (r: Option<(bool, String)>)
    ensures
        match (r, key_part(part@)) {
            (Some((c, re)), Some((sc, sre))) => c == sc && re@ == sre,
            (None, None) => true,
            _ => false,
        },
{
    let class_prefix = "class:";
    let title_prefix = "title:";
    proof {
        reveal_strlit("class:");
        reveal_strlit("title:");
        assert(class_prefix@ =~= seq!['c', 'l', 'a', 's', 's', ':']);
        assert(title_prefix@ =~= seq!['t', 'i', 't', 'l', 'e', ':']);
    }
    match strip_prefix(part, class_prefix) {
        Some(re) => Some((true, owned(re))),
        None => match strip_prefix(part, title_prefix) {
            Some(re) => Some((false, owned(re))),
            None => None,
        },
    }
}

/// Parses an application-gesture key; `None` when a part of a two-part key has neither prefix.
pub fn parse_app_key(key: &str) -> (r: Option<AppKey>)
    ensures
        match (r, app_key_spec(key@)) {
            (Some(k), Some((c, t))) => opt_view(k.class) == c && opt_view(k.title) == t,
            (None, None) => true,
            _ => false,
        },
{
    let class_prefix = "class:";
    let title_prefix = "title:";
    proof {
        reveal_strlit("class:");
        reveal_strlit("title:");
        assert(class_prefix@ =~= seq!['c', 'l', 'a', 's', 's', ':']);
        assert(title_prefix@ =~= seq!['t', 'i', 't', 'l', 'e', ':']);
    }
    match split_once(key, ',') {
        Some((first, second)) => {
            let first_part = parse_key_part(first);
            let second_part = parse_key_part(second);
            match (first_part, second_part) {
                (Some((c1, r1)), Some((c2, r2))) => {
                    let (class, title) = if c2 {
                        (Some(r2), if !c1 { Some(r1) } else { None })
                    } else {
                        (if c1 { Some(r1) } else { None }, Some(r2))
                    };
                    Some(AppKey { class, title })
                },
                _ => None,
            }
        },
        None => match strip_prefix(key, title_prefix) {
            Some(re) => Some(AppKey { class: None, title: Some(owned(re)) }),
            None => match strip_prefix(key, class_prefix) {
                Some(re) => Some(AppKey { class: Some(owned(re)), title: None }),
                None => Some(AppKey { class: Some(owned(key)), title: None }),
            },
        },
    }
}

/// Whether two gestures have the same shape: as many steps, the same edge, and equal
/// steps at every position.
pub open spec fn conflicting(g1: Gesture, g2: Gesture) -> bool {
    &&& g1.sequence@.len() == g2.sequence@.len()
    &&& g1.edge == g2.edge
    &&& forall|i: int| 0 <= i < g1.sequence@.len() ==> #[trigger] g1.sequence@[i] == g2.sequence@[i]
}

fn same_edge(a: Option<Edge>, b: Option<Edge>) -> (r: bool)
    ensures
        r == (a == b),
{
    match (a, b) {
        (None, None) => true,
        (Some(x), Some(y)) => x == y,
        _ => false,
    }
}

/// Whether two gestures could never be told apart.
pub fn are_gestures_conflicting(g1: &Gesture, g2: &Gesture) -> (r: bool)
    ensures
        r == conflicting(*g1, *g2),
{
    if g1.sequence.len() != g2.sequence.len() || !same_edge(g1.edge, g2.edge) {
        return false;
    }
    let mut i: usize = 0;
    while i < g1.sequence.len()
        invariant
            i <= g1.sequence@.len(),
            g1.sequence@.len() == g2.sequence@.len(),
            forall|j: int| 0 <= j < i ==> #[trigger] g1.sequence@[j] == g2.sequence@[j],
        decreases g1.sequence.len() - i,
    {
        if g1.sequence[i] != g2.sequence[i] {
            return false;
        }
        i = i + 1;
    }
    true
}

/// Pairs `(i, j)`, `i` below `n_main` and `i < j`, of conflicting gestures of `all`, in
/// increasing order.
pub open spec fn conflict_pair(all: Seq<Gesture>, n_main: int, p: (usize, usize)) -> bool {
    &&& (p.0 as int) < n_main
    &&& p.0 < p.1
    &&& (p.1 as int) < all.len()
    &&& conflicting(all[p.0 as int], all[p.1 as int])
}

/// Lexicographic order of index pairs.
pub open spec fn pair_before(a: (usize, usize), b: (usize, usize)) -> bool {
    a.0 < b.0 || (a.0 == b.0 && a.1 < b.1)
}

/// The conflicts of each of the first `n_main` gestures of `all` with any later gesture,
/// as index pairs in increasing order.
pub fn conflicting_pairs(all: &Vec<Gesture>, n_main: usize) -> (r: Vec<(usize, usize)>)
    requires
        n_main <= all@.len(),
    ensures
        forall|k: int| 0 <= k < r@.len() ==> conflict_pair(all@, n_main as int, #[trigger] r@[k]),
        forall|k: int| 0 <= k < r@.len() - 1 ==> pair_before(#[trigger] r@[k], r@[k + 1]),
        forall|i: usize, j: usize|
            conflict_pair(all@, n_main as int, (i, j)) ==> exists|k: int| 0 <= k < r@.len() && #[trigger] r@[k] == (i, j),
{
    let mut r: Vec<(usize, usize)> = Vec::new();
    let mut i: usize = 0;
    while i < n_main
        invariant
            i <= n_main <= all@.len(),
            forall|k: int| 0 <= k < r@.len() ==> conflict_pair(all@, n_main as int, #[trigger] r@[k]),
            forall|k: int| 0 <= k < r@.len() ==> (#[trigger] r@[k]).0 < i,
            forall|k: int| 0 <= k < r@.len() - 1 ==> pair_before(#[trigger] r@[k], r@[k + 1]),
            forall|a: usize, b: usize|
                a < i && conflict_pair(all@, n_main as int, (a, b)) ==> exists|k: int| 0 <= k < r@.len() && #[trigger] r@[k] == (a, b),
        decreases n_main - i,
    {
        let mut j: usize = i + 1;
        let ghost start = r@.len();
        while j < all.len()
            invariant
                i < n_main <= all@.len(),
                i + 1 <= j <= all@.len(),
                start <= r@.len(),
                forall|k: int| 0 <= k < r@.len() ==> conflict_pair(all@, n_main as int, #[trigger] r@[k]),
                forall|k: int| 0 <= k < start ==> (#[trigger] r@[k]).0 < i,
                forall|k: int| start <= k < r@.len() ==> (#[trigger] r@[k]).0 == i && r@[k].1 < j,
                forall|k: int| 0 <= k < r@.len() - 1 ==> pair_before(#[trigger] r@[k], r@[k + 1]),
                forall|a: usize, b: usize|
                    (a < i || (a == i && b < j)) && conflict_pair(all@, n_main as int, (a, b)) ==> exists|k: int|
                        0 <= k < r@.len() && #[trigger] r@[k] == (a, b),
            decreases all.len() - j,
        {
            if are_gestures_conflicting(&all[i], &all[j]) {
                let ghost before = r@;
                r.push((i, j));
                assert forall|a: usize, b: usize|
                    (a < i || (a == i && b < j + 1)) && conflict_pair(all@, n_main as int, (a, b)) implies exists|k: int|
                        0 <= k < r@.len() && #[trigger] r@[k] == (a, b) by {
                    if a == i && b == j {
                        assert(r@[before.len() as int] == (a, b));
                    } else {
                        let k = choose|k: int| 0 <= k < before.len() && #[trigger] before[k] == (a, b);
                        assert(r@[k] == (a, b));
                    }
                }
            } else {
                assert forall|a: usize, b: usize|
                    (a < i || (a == i && b < j + 1)) && conflict_pair(all@, n_main as int, (a, b)) implies exists|k: int|
                        0 <= k < r@.len() && #[trigger] r@[k] == (a, b) by {
                    if a == i && b == j {
                        assert(false);
                    }
                }
            }
            j = j + 1;
        }
        assert forall|a: usize, b: usize|
            a < i + 1 && conflict_pair(all@, n_main as int, (a, b)) implies exists|k: int|
                0 <= k < r@.len() && #[trigger] r@[k] == (a, b) by {
            if a == i {
                assert(b < j);
            }
        }
        i = i + 1;
    }
    r
}

/// The positions `(gesture, step)` of move steps whose minimum distance is below `threshold`.
pub open spec fn short_step(all: Seq<Gesture>, threshold: Fraction, p: (usize, usize)) -> bool {
    &&& (p.0 as int) < all.len()
    &&& (p.1 as int) < all[p.0 as int].sequence@.len()
    &&& match all[p.0 as int].sequence@[p.1 as int] {
        DefinedSequenceStep::Move { distance: Some(d), .. } => d.ppm < threshold.ppm,
        _ => false,
    }
}

/// The move steps whose minimum distance lies below `threshold`: they could never fire.
pub fn short_move_steps(all: &Vec<Gesture>, threshold: Fraction) -> (r: Vec<(usize, usize)>)
    ensures
        forall|k: int| 0 <= k < r@.len() ==> short_step(all@, threshold, #[trigger] r@[k]),
        forall|k: int| 0 <= k < r@.len() - 1 ==> pair_before(#[trigger] r@[k], r@[k + 1]),
        forall|i: usize, j: usize|
            short_step(all@, threshold, (i, j)) ==> exists|k: int| 0 <= k < r@.len() && #[trigger] r@[k] == (i, j),
{
    let mut r: Vec<(usize, usize)> = Vec::new();
    let mut i: usize = 0;
    while i < all.len()
        invariant
            i <= all@.len(),
            forall|k: int| 0 <= k < r@.len() ==> short_step(all@, threshold, #[trigger] r@[k]),
            forall|k: int| 0 <= k < r@.len() ==> (#[trigger] r@[k]).0 < i,
            forall|k: int| 0 <= k < r@.len() - 1 ==> pair_before(#[trigger] r@[k], r@[k + 1]),
            forall|a: usize, b: usize|
                a < i && short_step(all@, threshold, (a, b)) ==> exists|k: int| 0 <= k < r@.len() && #[trigger] r@[k] == (a, b),
        decreases all.len() - i,
    {
        let g = &all[i];
        let mut j: usize = 0;
        let ghost start = r@.len();
        while j < g.sequence.len()
            invariant
                i < all@.len(),
                g == &all@[i as int],
                j <= g.sequence@.len(),
                start <= r@.len(),
                forall|k: int| 0 <= k < r@.len() ==> short_step(all@, threshold, #[trigger] r@[k]),
                forall|k: int| 0 <= k < start ==> (#[trigger] r@[k]).0 < i,
                forall|k: int| start <= k < r@.len() ==> (#[trigger] r@[k]).0 == i && r@[k].1 < j,
                forall|k: int| 0 <= k < r@.len() - 1 ==> pair_before(#[trigger] r@[k], r@[k + 1]),
                forall|a: usize, b: usize|
                    (a < i || (a == i && b < j)) && short_step(all@, threshold, (a, b)) ==> exists|k: int|
                        0 <= k < r@.len() && #[trigger] r@[k] == (a, b),
            decreases g.sequence.len() - j,
        {
            let short = match g.sequence[j] {
                DefinedSequenceStep::Move { distance: Some(d), .. } => d.ppm < threshold.ppm,
                _ => false,
            };
            if short {
                let ghost before = r@;
                r.push((i, j));
                assert forall|a: usize, b: usize|
                    (a < i || (a == i && b < j + 1)) && short_step(all@, threshold, (a, b)) implies exists|k: int|
                        0 <= k < r@.len() && #[trigger] r@[k] == (a, b) by {
                    if a == i && b == j {
                        assert(r@[before.len() as int] == (a, b));
                    } else {
                        let k = choose|k: int| 0 <= k < before.len() && #[trigger] before[k] == (a, b);
                        assert(r@[k] == (a, b));
                    }
                }
            } else {
                assert forall|a: usize, b: usize|
                    (a < i || (a == i && b < j + 1)) && short_step(all@, threshold, (a, b)) implies exists|k: int|
                        0 <= k < r@.len() && #[trigger] r@[k] == (a, b) by {
                    if a == i && b == j {
                        assert(false);
                    }
                }
            }
            j = j + 1;
        }
        assert forall|a: usize, b: usize|
            a < i + 1 && short_step(all@, threshold, (a, b)) implies exists|k: int|
                0 <= k < r@.len() && #[trigger] r@[k] == (a, b) by {
            if a == i {
                assert(b < j);
            }
        }
        i = i + 1;
    }
    r
}

/// A gesture as written, before named distances are resolved.
#[derive(Debug, Clone)]
pub struct GestureRaw {
    pub name: String,
    pub sequence: Vec<DefinedSequenceStepRaw>,
    pub edge: Option<Edge>,
    pub repeat_mode: RepeatMode,
    pub command: String,
}

/// Whether every step before `n` resolves.
pub open spec fn resolves_upto(raw: Seq<DefinedSequenceStepRaw>, distances: Seq<(Seq<char>, Fraction)>, n: int) -> bool {
    forall|k: int| 0 <= k < n ==> (#[trigger] resolve_spec(raw[k], distances)) is Ok
}

impl Gesture {
    /// Resolves the named distances of `raw`'s steps; the error is the first unknown name.
    pub fn from_raw(raw: GestureRaw, distances: &Vec<(String, Fraction)>) -> (r: Result<Gesture, String>)
        ensures
            match r {
                Ok(g) => {
                    &&& g.name == raw.name
                    &&& g.command == raw.command
                    &&& g.edge == raw.edge
                    &&& g.repeat_mode == raw.repeat_mode
                    &&& g.sequence@.len() == raw.sequence@.len()
                    &&& forall|i: int|
                        0 <= i < raw.sequence@.len() ==> resolve_spec(#[trigger] raw.sequence@[i], distances_view(distances@))
                            == Ok::<DefinedSequenceStep, Seq<char>>(g.sequence@[i])
                },
                Err(name) => exists|i: int|
                    0 <= i < raw.sequence@.len() && resolves_upto(raw.sequence@, distances_view(distances@), i)
                        && resolve_spec(#[trigger] raw.sequence@[i], distances_view(distances@)) == Err::<DefinedSequenceStep, Seq<char>>(name@),
            },
    {
        let ghost dv = distances_view(distances@);
        let ghost orig = raw.sequence@;
        let GestureRaw { name, sequence, edge, repeat_mode, command } = raw;
        let mut rest = sequence;
        let mut steps: Vec<DefinedSequenceStep> = Vec::new();
        while rest.len() > 0
            invariant
                dv == distances_view(distances@),
                orig == raw.sequence@,
                steps@.len() + rest@.len() == orig.len(),
                rest@ == orig.skip(steps@.len() as int),
                forall|k: int| 0 <= k < steps@.len() ==> resolve_spec(#[trigger] orig[k], dv) == Ok::<DefinedSequenceStep, Seq<char>>(steps@[k]),
            decreases rest@.len(),
        {
            let ghost at = steps@.len() as int;
            let ghost old_steps = steps@;
            let step_raw = rest.remove(0);
            assert(step_raw == orig[at]);
            assert(rest@ =~= orig.skip(at + 1));
            match DefinedSequenceStep::from_raw(step_raw, distances) {
                Ok(step) => {
                    assert(resolve_spec(orig[at], dv) == Ok::<DefinedSequenceStep, Seq<char>>(step));
                    steps.push(step);
                    assert forall|k: int| 0 <= k < steps@.len() implies resolve_spec(#[trigger] orig[k], dv)
                        == Ok::<DefinedSequenceStep, Seq<char>>(steps@[k]) by {
                        if k < at {
                            assert(steps@[k] == old_steps[k]);
                        }
                    }
                },
                Err(unknown) => {
                    assert(resolves_upto(orig, dv, at));
                    assert(resolve_spec(orig[at], dv) == Err::<DefinedSequenceStep, Seq<char>>(unknown@));
                    return Err(unknown);
                },
            }
        }
        Ok(Gesture { name, sequence: steps, edge, repeat_mode, command })
    }
}

/// A configuration document as written.
#[derive(Debug, Clone)]
pub struct ConfigRaw {
    pub import: Vec<String>,
    pub options: Option<Options>,
    pub gestures: Option<Vec<GestureRaw>>,
    pub application_gestures: Option<Vec<(String, Vec<GestureRaw>)>>,
}

/// Why a configuration document cannot be loaded.
#[derive(Debug, Clone, PartialEq, Eq)]
pub enum ConfigError {
    InvalidKey(String),
    InvalidPattern(String),
}

/// The application-gesture entries of a document, none when it has no such section.
pub open spec fn entries_of(c: ConfigRaw) -> Seq<(String, Vec<GestureRaw>)> {
    match c.application_gestures {
        Some(e) => e@,
        None => Seq::empty(),
    }
}

/// The keys of application-gesture entries as written.
pub open spec fn keys_of(entries: Seq<(String, Vec<GestureRaw>)>) -> Seq<Seq<char>> {
    Seq::new(entries.len(), |i: int| entries[i].0@)
}

/// The class-bound (or title-bound) entries of the imported catalogs, catalog by catalog.
pub open spec fn imported_entries(cs: Seq<Config>, class: bool) -> Seq<(WindowPattern, Vec<Gesture>)>
    decreases cs.len(),
{
    if cs.len() == 0 {
        Seq::empty()
    } else {
        imported_entries(cs.drop_last(), class) + if class {
            cs.last().application_gestures.by_class@
        } else {
            cs.last().application_gestures.by_title@
        }
    }
}

/// The regular expressions a key mentions, in order; both parts of a two-part key count.
pub open spec fn key_patterns(key: Seq<char>) -> Seq<Seq<char>> {
    match index_of(key, ',') {
        Some(i) => match (key_part(key.take(i)), key_part(key.skip(i + 1))) {
            (Some((_, r1)), Some((_, r2))) => seq![r1, r2],
            _ => Seq::empty(),
        },
        None => match app_key_spec(key) {
            Some((Some(c), _)) => seq![c],
            Some((None, Some(t))) => seq![t],
            _ => Seq::empty(),
        },
    }
}

/// Whether every key parses and every regular expression it mentions compiles.
pub open spec fn keys_valid(keys: Seq<Seq<char>>) -> bool {
    forall|i: int|
        0 <= i < keys.len() ==> {
            &&& (#[trigger] app_key_spec(keys[i])) is Some
            &&& forall|j: int| 0 <= j < key_patterns(keys[i]).len() ==> regex_valid(#[trigger] key_patterns(keys[i])[j])
        }
}

/// The (pattern, written gestures) pairs the keys bind, class-bound (or title-bound) ones,
/// in entry order.
pub open spec fn key_entries(entries: Seq<(String, Vec<GestureRaw>)>, class: bool) -> Seq<(Seq<char>, Seq<GestureRaw>)>
    decreases entries.len(),
{
    if entries.len() == 0 {
        Seq::empty()
    } else {
        let rest = key_entries(entries.drop_last(), class);
        let e = entries.last();
        match app_key_spec(e.0@) {
            Some((c, t)) => match (if class { c } else { t }) {
                Some(re) => rest.push((re, e.1@)),
                None => rest,
            },
            None => rest,
        }
    }
}

/// Whether `gs` are the gestures of `raws` whose distances resolve, resolved, in order.
pub open spec fn bound_resolved(gs: Seq<Gesture>, raws: Seq<GestureRaw>, distances: Seq<(Seq<char>, Fraction)>) -> bool {
    &&& gs.len() == resolving(raws, distances).len()
    &&& forall|m: int| 0 <= m < gs.len() ==> resolved_from(#[trigger] gs[m], resolving(raws, distances)[m], distances)
}

/// Whether an entry binds the pattern `re` to the resolved gestures of `raws`.
pub open spec fn bound_entry(e: (WindowPattern, Vec<Gesture>), re: Seq<char>, raws: Seq<GestureRaw>, distances: Seq<(Seq<char>, Fraction)>) -> bool {
    e.0@ == re && bound_resolved(e.1@, raws, distances)
}

/// Whether `es` holds first `imported`, then one entry for each key binding, in order.
pub open spec fn entries_bound(
    es: Seq<(WindowPattern, Vec<Gesture>)>,
    imported: Seq<(WindowPattern, Vec<Gesture>)>,
    bindings: Seq<(Seq<char>, Seq<GestureRaw>)>,
    distances: Seq<(Seq<char>, Fraction)>,
) -> bool {
    &&& es.len() == imported.len() + bindings.len()
    &&& es.take(imported.len() as int) == imported
    &&& forall|k: int| 0 <= k < bindings.len() ==> bound_entry(#[trigger] es[imported.len() + k], bindings[k].0, bindings[k].1, distances)
}

/// The global gestures of the imported catalogs, catalog by catalog.
pub open spec fn imported_gestures(cs: Seq<Config>) -> Seq<Gesture>
    decreases cs.len(),
{
    if cs.len() == 0 {
        Seq::empty()
    } else {
        imported_gestures(cs.drop_last()) + cs.last().gestures@
    }
}

/// Equal settings and named distances.
pub open spec fn same_options(a: Options, b: Options) -> bool {
    &&& a.move_threshold == b.move_threshold
    &&& a.edge == b.edge
    &&& a.run_all_matches == b.run_all_matches
    &&& distances_view(a.distance@) == distances_view(b.distance@)
}

impl Options {
    /// A copy of the settings.
    pub fn copy(&self) -> (r: Options)
        ensures
            same_options(r, *self),
    {
        let mut distance: Vec<(String, Fraction)> = Vec::new();
        let mut i: usize = 0;
        while i < self.distance.len()
            invariant
                i <= self.distance@.len(),
                distance@.len() == i,
                distances_view(distance@) == distances_view(self.distance@).take(i as int),
            decreases self.distance.len() - i,
        {
            let ghost before = distance@;
            let name = self.distance[i].0.clone();
            let f = self.distance[i].1;
            distance.push((name, f));
            assert forall|k: int| 0 <= k < i + 1 implies #[trigger] distances_view(distance@)[k]
                == distances_view(self.distance@).take(i + 1)[k] by {
                if k < i {
                    assert(distance@[k] == before[k]);
                    assert(distances_view(before)[k] == distances_view(self.distance@).take(i as int)[k]);
                }
            }
            assert(distances_view(distance@) =~= distances_view(self.distance@).take(i + 1));
            i = i + 1;
        }
        assert(distances_view(self.distance@).take(i as int) =~= distances_view(self.distance@));
        Options { move_threshold: self.move_threshold, edge: self.edge, run_all_matches: self.run_all_matches, distance }
    }
}

/// Whether every step of `raw` resolves.
pub open spec fn all_resolve(raw: GestureRaw, distances: Seq<(Seq<char>, Fraction)>) -> bool {
    resolves_upto(raw.sequence@, distances, raw.sequence@.len() as int)
}

/// The gestures whose steps all resolve, in order.
pub open spec fn resolving(raws: Seq<GestureRaw>, distances: Seq<(Seq<char>, Fraction)>) -> Seq<GestureRaw>
    decreases raws.len(),
{
    if raws.len() == 0 {
        Seq::empty()
    } else {
        let r = resolving(raws.drop_last(), distances);
        if all_resolve(raws.last(), distances) { r.push(raws.last()) } else { r }
    }
}

/// Whether `g` is `raw` with its named distances resolved.
pub open spec fn resolved_from(g: Gesture, raw: GestureRaw, distances: Seq<(Seq<char>, Fraction)>) -> bool {
    &&& g.name == raw.name
    &&& g.command == raw.command
    &&& g.edge == raw.edge
    &&& g.repeat_mode == raw.repeat_mode
    &&& g.sequence@.len() == raw.sequence@.len()
    &&& forall|i: int|
        0 <= i < raw.sequence@.len() ==> resolve_spec(#[trigger] raw.sequence@[i], distances)
            == Ok::<DefinedSequenceStep, Seq<char>>(g.sequence@[i])
}

/// The gestures written in a document, none when it has no such section.
pub open spec fn own_gestures(c: ConfigRaw) -> Seq<GestureRaw> {
    match c.gestures {
        Some(g) => g@,
        None => Seq::empty(),
    }
}

fn resolve_all(raws: Vec<GestureRaw>, distances: &Vec<(String, Fraction)>, unknown: &mut Vec<String>) -> (r: Vec<Gesture>)
    ensures
        r@.len() == resolving(raws@, distances_view(distances@)).len(),
        forall|k: int|
            0 <= k < r@.len() ==> resolved_from(#[trigger] r@[k], resolving(raws@, distances_view(distances@))[k], distances_view(distances@)),
{
    let ghost dv = distances_view(distances@);
    let ghost orig = raws@;
    let mut rest = raws;
    let mut out: Vec<Gesture> = Vec::new();
    let mut n: usize = 0;
    let total = rest.len();
    while rest.len() > 0
        invariant
            dv == distances_view(distances@),
            total == orig.len(),
            n + rest@.len() == orig.len(),
            rest@ == orig.skip(n as int),
            out@.len() == resolving(orig.take(n as int), dv).len(),
            forall|k: int| 0 <= k < out@.len() ==> resolved_from(#[trigger] out@[k], resolving(orig.take(n as int), dv)[k], dv),
        decreases rest@.len(),
    {
        let raw = rest.remove(0);
        let ghost raw0 = raw;
        assert(raw0 == orig[n as int]);
        assert(rest@ =~= orig.skip(n + 1));
        assert(orig.take(n + 1).drop_last() =~= orig.take(n as int));
        let ghost before = out@;
        match Gesture::from_raw(raw, distances) {
            Ok(g) => {
                assert(all_resolve(raw0, dv));
                out.push(g);
                assert forall|k: int| 0 <= k < out@.len() implies resolved_from(#[trigger] out@[k], resolving(orig.take(n + 1), dv)[k], dv) by {
                    if k < before.len() {
                        assert(out@[k] == before[k]);
                    }
                }
            },
            Err(name) => {
                assert(!all_resolve(raw0, dv));
                unknown.push(name);
            },
        }
        n = n + 1;
    }
    assert(orig.take(n as int) =~= orig);
    out
}

/// The regular expressions `key` mentions, in order.
pub fn key_pattern_texts(key: &str) -> (r: Vec<String>)
    ensures
        texts(r@) == key_patterns(key@),
{
    let class_prefix = "class:";
    let title_prefix = "title:";
    proof {
        reveal_strlit("class:");
        reveal_strlit("title:");
        assert(class_prefix@ =~= seq!['c', 'l', 'a', 's', 's', ':']);
        assert(title_prefix@ =~= seq!['t', 'i', 't', 'l', 'e', ':']);
    }
    let mut r: Vec<String> = Vec::new();
    match split_once(key, ',') {
        Some((first, second)) => match (parse_key_part(first), parse_key_part(second)) {
            (Some((_, r1)), Some((_, r2))) => {
                r.push(r1);
                r.push(r2);
            },
            _ => {},
        },
        None => match strip_prefix(key, title_prefix) {
            Some(re) => r.push(owned(re)),
            None => match strip_prefix(key, class_prefix) {
                Some(re) => r.push(owned(re)),
                None => r.push(owned(key)),
            },
        },
    }
    assert(texts(r@) =~= key_patterns(key@));
    r
}

/// The fields a copy of a gesture keeps.
pub open spec fn same_gesture(a: Gesture, b: Gesture) -> bool {
    &&& a.name == b.name
    &&& a.command == b.command
    &&& a.edge == b.edge
    &&& a.repeat_mode == b.repeat_mode
    &&& a.sequence@ == b.sequence@
}

fn copy_gestures(gs: &Vec<Gesture>) -> (r: Vec<Gesture>)
    ensures
        r@.len() == gs@.len(),
        forall|m: int| 0 <= m < gs@.len() ==> same_gesture(#[trigger] r@[m], gs@[m]),
{
    let mut r: Vec<Gesture> = Vec::new();
    let mut m: usize = 0;
    while m < gs.len()
        invariant
            m <= gs@.len(),
            r@.len() == m,
            forall|k: int| 0 <= k < m ==> same_gesture(#[trigger] r@[k], gs@[k]),
        decreases gs.len() - m,
    {
        let g = &gs[m];
        let mut sequence: Vec<DefinedSequenceStep> = Vec::new();
        let mut i: usize = 0;
        while i < g.sequence.len()
            invariant
                i <= g.sequence@.len(),
                sequence@ == g.sequence@.take(i as int),
            decreases g.sequence.len() - i,
        {
            sequence.push(g.sequence[i]);
            assert(sequence@ =~= g.sequence@.take(i + 1));
            i = i + 1;
        }
        assert(g.sequence@.take(i as int) =~= g.sequence@);
        r.push(Gesture {
            name: g.name.clone(),
            sequence,
            edge: g.edge,
            repeat_mode: g.repeat_mode,
            command: g.command.clone(),
        });
        m = m + 1;
    }
    r
}

proof fn lemma_copy_bound(a: Seq<Gesture>, b: Seq<Gesture>, raws: Seq<GestureRaw>, distances: Seq<(Seq<char>, Fraction)>)
    requires
        bound_resolved(b, raws, distances),
        a.len() == b.len(),
        forall|m: int| 0 <= m < b.len() ==> same_gesture(#[trigger] a[m], b[m]),
    ensures
        bound_resolved(a, raws, distances),
{
    assert forall|m: int| 0 <= m < a.len() implies resolved_from(#[trigger] a[m], resolving(raws, distances)[m], distances) by {
        assert(same_gesture(a[m], b[m]));
        assert(resolved_from(b[m], resolving(raws, distances)[m], distances));
    }
}

/// A key's bound patterns are among those it mentions.
proof fn lemma_bound_patterns_mentioned(key: Seq<char>)
    requires
        app_key_spec(key) is Some,
    ensures
        app_key_spec(key).unwrap().0 matches Some(c) ==> exists|j: int| 0 <= j < key_patterns(key).len() && key_patterns(key)[j] == c,
        app_key_spec(key).unwrap().1 matches Some(t) ==> exists|j: int| 0 <= j < key_patterns(key).len() && key_patterns(key)[j] == t,
{
    let ps = key_patterns(key);
    match index_of(key, ',') {
        Some(i) => {
            let (c1, r1) = key_part(key.take(i)).unwrap();
            let (c2, r2) = key_part(key.skip(i + 1)).unwrap();
            assert(ps[0] == r1 && ps[1] == r2);
            if c2 {
                assert(ps[1] == app_key_spec(key).unwrap().0.unwrap());
            } else if c1 {
                assert(ps[0] == app_key_spec(key).unwrap().0.unwrap());
            }
            if !c2 {
                assert(ps[1] == app_key_spec(key).unwrap().1.unwrap());
            } else if !c1 {
                assert(ps[0] == app_key_spec(key).unwrap().1.unwrap());
            }
        },
        None => {
            let (c, t) = app_key_spec(key).unwrap();
            if c is Some {
                assert(ps[0] == c.unwrap());
            } else if t is Some {
                assert(ps[0] == t.unwrap());
            }
        },
    }
}

fn validate_patterns(key: &str) -> (r: Result<(), ConfigError>)
    ensures
        r is Ok == (forall|j: int| 0 <= j < key_patterns(key@).len() ==> regex_valid(#[trigger] key_patterns(key@)[j])),
        r matches Err(e) ==> e is InvalidPattern && !regex_valid(e->InvalidPattern_0@) && exists|j: int|
            0 <= j < key_patterns(key@).len() && #[trigger] key_patterns(key@)[j] == e->InvalidPattern_0@,
{
    let texts_of_key = key_pattern_texts(key);
    let mut j: usize = 0;
    while j < texts_of_key.len()
        invariant
            j <= texts_of_key@.len(),
            texts(texts_of_key@) == key_patterns(key@),
            forall|k: int| 0 <= k < j ==> regex_valid(#[trigger] key_patterns(key@)[k]),
        decreases texts_of_key.len() - j,
    {
        assert(texts(texts_of_key@)[j as int] == texts_of_key@[j as int]@);
        match WindowPattern::new(texts_of_key[j].clone()) {
            Ok(_) => {},
            Err(e) => {
                return Err(ConfigError::InvalidPattern(e.pattern));
            },
        }
        j = j + 1;
    }
    Ok(())
}

proof fn lemma_entries_push(
    es: Seq<(WindowPattern, Vec<Gesture>)>,
    imported: Seq<(WindowPattern, Vec<Gesture>)>,
    bindings: Seq<(Seq<char>, Seq<GestureRaw>)>,
    x: (WindowPattern, Vec<Gesture>),
    re: Seq<char>,
    raws: Seq<GestureRaw>,
    distances: Seq<(Seq<char>, Fraction)>,
)
    requires
        entries_bound(es, imported, bindings, distances),
        bound_entry(x, re, raws, distances),
    ensures
        entries_bound(es.push(x), imported, bindings.push((re, raws)), distances),
{
    let es2 = es.push(x);
    let b2 = bindings.push((re, raws));
    assert(es2.take(imported.len() as int) =~= es.take(imported.len() as int));
    assert forall|k: int| 0 <= k < b2.len() implies bound_entry(#[trigger] es2[imported.len() + k], b2[k].0, b2[k].1, distances) by {
        if k < bindings.len() {
            assert(es2[imported.len() + k] == es[imported.len() + k]);
            assert(b2[k] == bindings[k]);
        }
    }
}

impl Config {
    /// Builds the catalog of a document: its own global gestures, then those of the
    /// `imported` catalogs; the imported window-bound gestures, then its own, keyed as
    /// `parse_app_key` reads the keys. Gestures naming an unknown distance are left out
    /// and their names returned beside the catalog. It succeeds exactly when every key
    /// parses and every regular expression the keys mention compiles.
    pub fn from_raw(config_raw: ConfigRaw, imported: Vec<Config>, options: &Options) -> (r: Result<(Config, Vec<String>), ConfigError>)
        ensures
            (r is Ok) == keys_valid(keys_of(entries_of(config_raw))),
            r matches Ok((c, _)) ==> {
                &&& same_options(c.options, *options)
                &&& c.gestures@.len() == resolving(own_gestures(config_raw), distances_view(options.distance@)).len()
                    + imported_gestures(imported@).len()
                &&& forall|k: int|
                    0 <= k < resolving(own_gestures(config_raw), distances_view(options.distance@)).len() ==> resolved_from(
                        #[trigger] c.gestures@[k],
                        resolving(own_gestures(config_raw), distances_view(options.distance@))[k],
                        distances_view(options.distance@),
                    )
                &&& c.gestures@.skip(c.gestures@.len() - imported_gestures(imported@).len()) == imported_gestures(imported@)
                &&& entries_bound(
                    c.application_gestures.by_class@,
                    imported_entries(imported@, true),
                    key_entries(entries_of(config_raw), true),
                    distances_view(options.distance@),
                )
                &&& entries_bound(
                    c.application_gestures.by_title@,
                    imported_entries(imported@, false),
                    key_entries(entries_of(config_raw), false),
                    distances_view(options.distance@),
                )
            },
            r matches Err(ConfigError::InvalidKey(k)) ==> {
                &&& app_key_spec(k@) is None
                &&& exists|i: int| 0 <= i < entries_of(config_raw).len() && #[trigger] keys_of(entries_of(config_raw))[i] == k@
            },
            r matches Err(ConfigError::InvalidPattern(p)) ==> {
                &&& !regex_valid(p@)
                &&& exists|i: int, j: int|
                    0 <= i < entries_of(config_raw).len() && 0 <= j < key_patterns(keys_of(entries_of(config_raw))[i]).len()
                        && #[trigger] key_patterns(keys_of(entries_of(config_raw))[i])[j] == p@
            },
    {
        let ghost imp = imported@;
        let mut unknown: Vec<String> = Vec::new();
        let mut gestures = match config_raw.gestures {
            Some(gs) => resolve_all(gs, &options.distance, &mut unknown),
            None => Vec::new(),
        };
        let ghost own = gestures@;
        let ghost dv = distances_view(options.distance@);
        proof {
            if config_raw.gestures is None {
                assert(resolving(own_gestures(config_raw), dv).len() == 0);
            }
        }
        assert(own.len() == resolving(own_gestures(config_raw), dv).len());
        assert(forall|k: int| 0 <= k < own.len() ==> resolved_from(#[trigger] own[k], resolving(own_gestures(config_raw), dv)[k], dv));
        let own_count = gestures.len();
        let mut by_class: Vec<(WindowPattern, Vec<Gesture>)> = Vec::new();
        let mut by_title: Vec<(WindowPattern, Vec<Gesture>)> = Vec::new();
        let mut rest = imported;
        let ghost mut done: Seq<Config> = Seq::empty();
        assert(by_class@ =~= imported_entries(done, true));
        assert(by_title@ =~= imported_entries(done, false));
        while rest.len() > 0
            invariant
                done + rest@ == imp,
                gestures@.len() == own_count + imported_gestures(done).len(),
                own_count == own.len(),
                gestures@.take(own_count as int) == own,
                gestures@.skip(own_count as int) == imported_gestures(done),
                by_class@ == imported_entries(done, true),
                by_title@ == imported_entries(done, false),
            decreases rest@.len(),
        {
            let ghost before = gestures@;
            let ghost class_before = by_class@;
            let ghost title_before = by_title@;
            let mut c = rest.remove(0);
            let ghost c0 = c;
            proof {
                assert(done.push(c0) + rest@ =~= imp);
                assert(done.push(c0).drop_last() =~= done);
            }
            gestures.append(&mut c.gestures);
            by_class.append(&mut c.application_gestures.by_class);
            by_title.append(&mut c.application_gestures.by_title);
            proof {
                assert(gestures@.skip(own_count as int) =~= before.skip(own_count as int) + c0.gestures@);
                assert(gestures@.take(own_count as int) =~= before.take(own_count as int));
                done = done.push(c0);
            }
        }
        assert(done =~= imp);
        let ghost ic = by_class@;
        let ghost it = by_title@;
        match config_raw.application_gestures {
            Some(entries) => {
                let ghost entries_in = entries;
                let ghost all = entries@;
                let mut rest_entries = entries;
                let ghost mut seen: Seq<(String, Vec<GestureRaw>)> = Seq::empty();
                assert(by_class@.take(ic.len() as int) =~= ic);
                assert(by_title@.take(it.len() as int) =~= it);
                while rest_entries.len() > 0
                    invariant
                        seen + rest_entries@ == all,
                        config_raw.application_gestures == Some(entries_in),
                        all == entries_in@,
                        dv == distances_view(options.distance@),
                        keys_valid(keys_of(seen)),
                        entries_bound(by_class@, ic, key_entries(seen, true), dv),
                        entries_bound(by_title@, it, key_entries(seen, false), dv),
                    decreases rest_entries@.len(),
                {
                    let (key, raws) = rest_entries.remove(0);
                    let ghost e = (key, raws);
                    let ghost at = seen.len() as int;
                    proof {
                        assert(seen.push(e) + rest_entries@ =~= all);
                        assert(keys_of(seen.push(e)).drop_last() =~= keys_of(seen));
                        assert(keys_of(all)[at] == key@);
                        assert(entries_of(config_raw) == all);
                    }
                    let entry_gestures = resolve_all(raws, &options.distance, &mut unknown);
                    let k = match parse_app_key(key.as_str()) {
                        None => {
                            return Err(ConfigError::InvalidKey(key));
                        },
                        Some(k) => k,
                    };
                    match validate_patterns(key.as_str()) {
                        Ok(()) => {},
                        Err(err) => {
                            return Err(err);
                        },
                    }
                    let ghost kc = opt_view(k.class);
                    let ghost kt = opt_view(k.title);
                    let ghost class_before = by_class@;
                    let ghost title_before = by_title@;
                    proof {
                        lemma_bound_patterns_mentioned(key@);
                        assert(seen.push(e).drop_last() =~= seen);
                        assert(key_entries(seen.push(e), true) == match kc {
                            Some(re) => key_entries(seen, true).push((re, raws@)),
                            None => key_entries(seen, true),
                        });
                        assert(key_entries(seen.push(e), false) == match kt {
                            Some(re) => key_entries(seen, false).push((re, raws@)),
                            None => key_entries(seen, false),
                        });
                    }
                    match (k.class, k.title) {
                        (Some(class), Some(title)) => {
                            let cp = match WindowPattern::new(class) {
                                Ok(p) => p,
                                Err(err) => return Err(ConfigError::InvalidPattern(err.pattern)),
                            };
                            let tp = match WindowPattern::new(title) {
                                Ok(p) => p,
                                Err(err) => return Err(ConfigError::InvalidPattern(err.pattern)),
                            };
                            let copy = copy_gestures(&entry_gestures);
                            proof {
                                lemma_copy_bound(copy@, entry_gestures@, raws@, dv);
                                lemma_entries_push(class_before, ic, key_entries(seen, true), (cp, copy), kc.unwrap(), raws@, dv);
                                lemma_entries_push(title_before, it, key_entries(seen, false), (tp, entry_gestures), kt.unwrap(), raws@, dv);
                            }
                            by_class.push((cp, copy));
                            by_title.push((tp, entry_gestures));
                        },
                        (Some(class), None) => {
                            let cp = match WindowPattern::new(class) {
                                Ok(p) => p,
                                Err(err) => return Err(ConfigError::InvalidPattern(err.pattern)),
                            };
                            proof {
                                lemma_entries_push(class_before, ic, key_entries(seen, true), (cp, entry_gestures), kc.unwrap(), raws@, dv);
                            }
                            by_class.push((cp, entry_gestures));
                        },
                        (None, Some(title)) => {
                            let tp = match WindowPattern::new(title) {
                                Ok(p) => p,
                                Err(err) => return Err(ConfigError::InvalidPattern(err.pattern)),
                            };
                            proof {
                                lemma_entries_push(title_before, it, key_entries(seen, false), (tp, entry_gestures), kt.unwrap(), raws@, dv);
                            }
                            by_title.push((tp, entry_gestures));
                        },
                        (None, None) => {},
                    }
                    proof {
                        let prev = seen;
                        seen = seen.push(e);
                        assert forall|i: int| 0 <= i < keys_of(seen).len() implies {
                            &&& (#[trigger] app_key_spec(keys_of(seen)[i])) is Some
                            &&& forall|j: int| 0 <= j < key_patterns(keys_of(seen)[i]).len() ==> regex_valid(#[trigger] key_patterns(keys_of(seen)[i])[j])
                        } by {
                            if i < prev.len() {
                                assert(keys_of(seen)[i] == keys_of(prev)[i]);
                            } else {
                                assert(keys_of(seen)[i] == key@);
                            }
                        }
                    }
                }
                assert(seen =~= all);
                assert(entries_of(config_raw) == all);
            },
            None => {
                assert(keys_of(entries_of(config_raw)) =~= Seq::<Seq<char>>::empty());
                assert(key_entries(entries_of(config_raw), true) =~= Seq::<(Seq<char>, Seq<GestureRaw>)>::empty());
                assert(key_entries(entries_of(config_raw), false) =~= Seq::<(Seq<char>, Seq<GestureRaw>)>::empty());
                assert(by_class@.take(ic.len() as int) =~= ic);
                assert(by_title@.take(it.len() as int) =~= it);
            },
        }
        assert forall|k: int| 0 <= k < own.len() implies #[trigger] gestures@[k] == own[k] by {
            assert(gestures@.take(own_count as int)[k] == gestures@[k]);
        }
        Ok((
            Config {
                options: options.copy(),
                gestures,
                application_gestures: ApplicationGestures { by_title, by_class },
            },
            unknown,
        ))
    }
}

/// Whether `c` has the Unicode White_Space property.
pub open spec fn white_space(c: char) -> bool {
    let v = c as u32;
    (0x09 <= v && v <= 0x0d) || v == 0x20 || v == 0x85 || v == 0xa0 || v == 0x1680 || (0x2000 <= v && v <= 0x200a)
        || v == 0x2028 || v == 0x2029 || v == 0x202f || v == 0x205f || v == 0x3000
}

/// The maximal runs of characters of `s` without white space, in order.
pub open spec fn words_of(s: Seq<char>) -> Seq<Seq<char>>
    decreases s.len(),
{
    if s.len() == 0 {
        Seq::empty()
    } else {
        let w = words_of(s.drop_last());
        let c = s.last();
        if white_space(c) {
            w
        } else if s.len() >= 2 && !white_space(s[s.len() - 2]) {
            w.update(w.len() - 1, w.last().push(c))
        } else {
            w.push(seq![c])
        }
    }
}

/// The lower-case form of a text.
pub uninterp spec fn lower_of(s: Seq<char>) -> Seq<char>;

/// Relies on `str::split_whitespace`: the runs of `s` between white space, which it
/// takes to be the characters with the Unicode White_Space property.
#[verifier::external_body]
fn split_words(s: &str) -> (r: Vec<String>)
    ensures
        texts(r@) == words_of(s@),
{
    s.split_whitespace().map(|w| w.to_string()).collect()
}

/// Relies on `str::to_lowercase`: the result depends on the characters alone.
#[verifier::external_body]
fn lowercase(s: &str) -> (r: String)
    ensures
        r@ == lower_of(s@),
{
    s.to_lowercase()
}

fn text_is(s: &str, literal: &str) -> (r: bool)
    ensures
        r == (s@ == literal@),
{
    s.to_owned() == literal.to_owned()
}

/// The repetition a lower-case word names.
pub open spec fn mode_word(w: Seq<char>) -> Option<RepeatMode> {
    if w == "tap"@ {
        Some(RepeatMode { tap: true, slide: false })
    } else if w == "slide"@ {
        Some(RepeatMode { tap: false, slide: true })
    } else {
        None
    }
}

/// The repetitions the words name together, or the position of the first word that names none.
pub open spec fn modes_of(words: Seq<Seq<char>>) -> Result<RepeatMode, int>
    decreases words.len(),
{
    if words.len() == 0 {
        Ok(RepeatMode { tap: false, slide: false })
    } else {
        match modes_of(words.drop_last()) {
            Err(i) => Err(i),
            Ok(m) => match mode_word(words.last()) {
                Some(x) => Ok(RepeatMode { tap: m.tap || x.tap, slide: m.slide || x.slide }),
                None => Err(words.len() - 1),
            },
        }
    }
}

/// The repetitions named by lower-case `words`; the error is the position of the first
/// word that is neither `tap` nor `slide`.
pub fn repeat_mode_from_words(words: &Vec<String>) -> (r: Result<RepeatMode, usize>)
    ensures
        match (r, modes_of(texts(words@))) {
            (Ok(m), Ok(n)) => m == n,
            (Err(i), Err(j)) => i == j,
            _ => false,
        },
{
    let mut mode = RepeatMode::empty();
    let mut i: usize = 0;
    while i < words.len()
        invariant
            i <= words@.len(),
            modes_of(texts(words@).take(i as int)) == Ok::<RepeatMode, int>(mode),
        decreases words.len() - i,
    {
        assert(texts(words@).take(i + 1).drop_last() =~= texts(words@).take(i as int));
        let w = words[i].as_str();
        if text_is(w, "tap") {
            mode.insert(RepeatMode::tap_only());
        } else if text_is(w, "slide") {
            mode.insert(RepeatMode::slide_only());
        } else {
            proof {
                lemma_modes_error_stays(texts(words@), i as int + 1, i as int);
            }
            return Err(i);
        }
        i = i + 1;
    }
    assert(texts(words@).take(i as int) =~= texts(words@));
    Ok(mode)
}

/// Reads a repeat mode written as words `tap` and `slide` in any case; the error is the
/// first other word as written.
pub fn parse_repeat_mode(s: &str) -> (r: Result<RepeatMode, String>)
    ensures
        ({
            let lowered = Seq::new(words_of(s@).len(), |i: int| lower_of(words_of(s@)[i]));
            match (r, modes_of(lowered)) {
                (Ok(m), Ok(n)) => m == n,
                (Err(w), Err(i)) => 0 <= i < words_of(s@).len() && w@ == words_of(s@)[i],
                _ => false,
            }
        }),
{
    let words = split_words(s);
    let mut lowered: Vec<String> = Vec::new();
    let mut i: usize = 0;
    while i < words.len()
        invariant
            i <= words@.len(),
            texts(words@) == words_of(s@),
            lowered@.len() == i,
            texts(lowered@) == Seq::new(i as nat, |j: int| lower_of(words_of(s@)[j])),
        decreases words.len() - i,
    {
        assert(texts(words@)[i as int] == words@[i as int]@);
        let ghost before = lowered@;
        let l = lowercase(words[i].as_str());
        lowered.push(l);
        assert forall|j: int| 0 <= j < i + 1 implies #[trigger] texts(lowered@)[j] == lower_of(words_of(s@)[j]) by {
            if j < i {
                assert(lowered@[j] == before[j]);
                assert(texts(before)[j] == lower_of(words_of(s@)[j]));
            }
        }
        assert(texts(lowered@) =~= Seq::new((i + 1) as nat, |j: int| lower_of(words_of(s@)[j])));
        i = i + 1;
    }
    match repeat_mode_from_words(&lowered) {
        Ok(m) => Ok(m),
        Err(k) => {
            proof {
                lemma_modes_error_in_range(texts(lowered@));
            }
            Err(words[k].clone())
        },
    }
}

/// An unknown word stays the first one when more words follow.
pub proof fn lemma_modes_error_stays(words: Seq<Seq<char>>, n: int, i: int)
    requires
        0 <= n <= words.len(),
        modes_of(words.take(n)) == Err::<RepeatMode, int>(i),
    ensures
        modes_of(words) == Err::<RepeatMode, int>(i),
    decreases words.len() - n,
{
    if n < words.len() {
        assert(words.take(n + 1).drop_last() =~= words.take(n));
        lemma_modes_error_stays(words, n + 1, i);
    } else {
        assert(words.take(n) =~= words);
    }
}

/// The position `modes_of` reports lies within the words.
pub proof fn lemma_modes_error_in_range(words: Seq<Seq<char>>)
    ensures
        modes_of(words) matches Err(i) ==> 0 <= i < words.len(),
    decreases words.len(),
{
    if words.len() > 0 {
        lemma_modes_error_in_range(words.drop_last());
    }
}

/// A step's minimum distance as written: a name, or a fraction in parts per million,
/// possibly out of range.
#[derive(Debug, Clone, PartialEq, Eq)]
pub enum RawDistance {
    Name(String),
    Ppm(i64),
}

/// Why a written step cannot be read.
#[derive(Debug, Clone, PartialEq, Eq)]
pub enum StepError {
    MissingFingers,
    InvalidFingers(u64),
    MissingAction,
    DistanceOutOfRange(i64),
    UnknownAction(String),
}

/// The kind of step an action names.
#[derive(Debug, Clone, Copy, PartialEq, Eq, Structural)]
pub enum StepKind {
    TouchDown,
    TouchUp,
    Move(Direction),
}

/// The kind of step an action names, with `_` or a space between its words.
pub open spec fn action_kind(a: Seq<char>) -> Option<StepKind> {
    if a == "touch_down"@ || a == "touch down"@ {
        Some(StepKind::TouchDown)
    } else if a == "touch_up"@ || a == "touch up"@ {
        Some(StepKind::TouchUp)
    } else if a == "move_up"@ || a == "move up"@ {
        Some(StepKind::Move(Direction::Up))
    } else if a == "move_down"@ || a == "move down"@ {
        Some(StepKind::Move(Direction::Down))
    } else if a == "move_left"@ || a == "move left"@ {
        Some(StepKind::Move(Direction::Left))
    } else if a == "move_right"@ || a == "move right"@ {
        Some(StepKind::Move(Direction::Right))
    } else {
        None
    }
}

/// The kind of step `action` names.
pub fn action_kind_of(action: &str) -> (r: Option<StepKind>)
    ensures
        r == action_kind(action@),
{
    if text_is(action, "touch_down") || text_is(action, "touch down") {
        Some(StepKind::TouchDown)
    } else if text_is(action, "touch_up") || text_is(action, "touch up") {
        Some(StepKind::TouchUp)
    } else if text_is(action, "move_up") || text_is(action, "move up") {
        Some(StepKind::Move(Direction::Up))
    } else if text_is(action, "move_down") || text_is(action, "move down") {
        Some(StepKind::Move(Direction::Down))
    } else if text_is(action, "move_left") || text_is(action, "move left") {
        Some(StepKind::Move(Direction::Left))
    } else if text_is(action, "move_right") || text_is(action, "move right") {
        Some(StepKind::Move(Direction::Right))
    } else {
        None
    }
}

/// Whether a written distance became `d`.
pub open spec fn distance_read(d: Option<Distance>, written: Option<RawDistance>) -> bool {
    match (d, written) {
        (None, None) => true,
        (Some(Distance::Variable(n)), Some(RawDistance::Name(m))) => n@ == m@,
        (Some(Distance::Fixed(f)), Some(RawDistance::Ppm(p))) => f.ppm == p,
        _ => false,
    }
}

/// Whether `step` is the step of kind `kind` with `fingers` fingers and the written distance.
pub open spec fn step_read(step: DefinedSequenceStepRaw, kind: StepKind, fingers: u8, written: Option<RawDistance>) -> bool {
    match kind {
        StepKind::TouchDown => step == DefinedSequenceStepRaw::TouchDown { fingers },
        StepKind::TouchUp => step == DefinedSequenceStepRaw::TouchUp { fingers },
        StepKind::Move(dir) => match step {
            DefinedSequenceStepRaw::Move { fingers: f, direction, distance } => f == fingers && direction == dir
                && distance_read(distance, written),
            _ => false,
        },
    }
}

/// A written fraction outside zero to one whole.
pub open spec fn out_of_range(distance: Option<RawDistance>) -> bool {
    match distance {
        Some(RawDistance::Ppm(d)) => d < 0 || d > PPM,
        _ => false,
    }
}

/// Whether a written finger count names at least one and at most 255 fingers.
pub open spec fn fingers_valid(fingers: Option<u64>) -> bool {
    match fingers {
        Some(f) => 1 <= f <= 255,
        None => false,
    }
}

/// Reads a written step from its fields: a finger count from 1 to 255, an action, and
/// an optional minimum distance that must lie within one whole.
pub fn step_from_fields(fingers: Option<u64>, action: Option<&str>, distance: Option<RawDistance>) -> (r: Result<DefinedSequenceStepRaw, StepError>)
    ensures
        fingers is None ==> r == Err::<DefinedSequenceStepRaw, StepError>(StepError::MissingFingers),
        fingers is Some && !fingers_valid(fingers) ==> r == Err::<DefinedSequenceStepRaw, StepError>(
            StepError::InvalidFingers(fingers.unwrap()),
        ),
        fingers_valid(fingers) && action is None ==> r == Err::<DefinedSequenceStepRaw, StepError>(StepError::MissingAction),
        fingers_valid(fingers) && action is Some && out_of_range(distance)
            ==> r == Err::<DefinedSequenceStepRaw, StepError>(StepError::DistanceOutOfRange(distance->Some_0->Ppm_0)),
        fingers_valid(fingers) && action is Some && !out_of_range(distance) ==> match action_kind(
            action.unwrap()@,
        ) {
            None => r matches Err(StepError::UnknownAction(a)) && a@ == action.unwrap()@,
            Some(k) => r matches Ok(step) && step_read(step, k, fingers.unwrap() as u8, distance),
        },
{
    let fingers = match fingers {
        Some(f) => {
            if f == 0 || f > 255 {
                return Err(StepError::InvalidFingers(f));
            }
            f as u8
        },
        None => return Err(StepError::MissingFingers),
    };
    let action = match action {
        Some(a) => a,
        None => return Err(StepError::MissingAction),
    };
    let distance = match distance {
        Some(RawDistance::Ppm(d)) => {
            if d < 0 || d > PPM as i64 {
                return Err(StepError::DistanceOutOfRange(d));
            }
            Some(Distance::Fixed(Fraction { ppm: d as u32 }))
        },
        Some(RawDistance::Name(n)) => Some(Distance::Variable(n)),
        None => None,
    };
    match action_kind_of(action) {
        Some(StepKind::TouchDown) => Ok(DefinedSequenceStepRaw::TouchDown { fingers }),
        Some(StepKind::TouchUp) => Ok(DefinedSequenceStepRaw::TouchUp { fingers }),
        Some(StepKind::Move(direction)) => Ok(DefinedSequenceStepRaw::Move { fingers, direction, distance }),
        None => Err(StepError::UnknownAction(owned(action))),
    }
}

/// How much the daemon logs.
#[derive(Debug, Clone, Copy, PartialEq, Eq, Structural)]
pub enum LogLevel {
    Error,
    Info,
    Debug,
}

/// Command-line arguments: how verbose to be, and where the configuration and the log are.
#[derive(Debug, Clone, PartialEq, Eq)]
pub struct Args {
    pub verbose: u8,
    pub config_file: Option<String>,
    pub log_file: Option<String>,
}

impl Args {
    /// Errors only by default, information with one `--verbose`, everything with more.
    pub fn log_level(&self) -> (r: LogLevel)
        ensures
            r == (if self.verbose == 0 {
                LogLevel::Error
            } else if self.verbose == 1 {
                LogLevel::Info
            } else {
                LogLevel::Debug
            }),
    {
        match self.verbose {
            0 => LogLevel::Error,
            1 => LogLevel::Info,
            _ => LogLevel::Debug,
        }
    }
}

/// Relies on `String + &str`: `a` followed by `b`.
#[verifier::external_body]
fn concat(a: String, b: &str) -> (r: String)
    ensures
        r@ == a@ + b@,
{
    a + b
}

impl Config {
    /// The default configuration file: under `XDG_CONFIG_HOME` when it is set, else under
    /// `HOME`'s `.config`; none when neither is set.
    pub fn get_config_path(xdg_config_home: Option<String>, home: Option<String>) -> (r: Option<String>)
        ensures
            match (xdg_config_home, home) {
                (Some(x), _) => r matches Some(p) && p@ == x@ + "/gest/config.yaml"@,
                (None, Some(h)) => r matches Some(p) && p@ == h@ + "/.config/gest/config.yaml"@,
                (None, None) => r is None,
            },
    {
        match xdg_config_home {
            Some(x) => Some(concat(x, "/gest/config.yaml")),
            None => match home {
                Some(h) => Some(concat(h, "/.config/gest/config.yaml")),
                None => None,
            },
        }
    }
}

} // verus!
