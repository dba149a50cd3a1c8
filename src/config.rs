use vstd::prelude::*;
use regex::Regex;
use crate::geometry::{Edge, Fraction, PPM};
use crate::sequence_step::DefinedSequenceStep;

verus! {

#[verifier::external_type_specification]
#[verifier::external_body]
pub struct ExRegex(regex::Regex);

#[verifier::external_type_specification]
#[verifier::external_body]
pub struct ExRegexError(regex::Error);

/// Whether the regular expression `pattern` matches somewhere in `haystack`.
pub uninterp spec fn regex_matches(pattern: Seq<char>, haystack: Seq<char>) -> bool;

/// Whether `pattern` is a regular expression the `regex` crate compiles.
pub uninterp spec fn regex_valid(pattern: Seq<char>) -> bool;

/// Relies on `regex::Regex::new`: compiles `pattern`, or says why it is no valid
/// expression; which of the two depends on the pattern text alone.
#[verifier::external_body]
fn compile_regex(pattern: &str) -> (r: Result<Regex, regex::Error>)
    ensures
        r is Ok == regex_valid(pattern@),
{
    Regex::new(pattern)
}

/// Relies on `regex::Regex::is_match`: the result depends on the pattern's source text and
/// on the haystack alone. A `WindowPattern`'s regex is only ever compiled from its own
/// source text, in `WindowPattern::new`, and both fields are private.
#[verifier::external_body]
fn pattern_is_match(p: &WindowPattern, haystack: &str) -> (r: bool)
    ensures
        r == regex_matches(p@, haystack@),
{
    p.regex.is_match(haystack)
}

/// Which repetitions a gesture allows, or which one the last match consumed.
#[derive(Debug, Clone, Copy, PartialEq, Eq, Structural)]
pub struct RepeatMode {
    pub tap: bool,
    pub slide: bool,
}

impl RepeatMode {
    /// No repetition.
    pub fn empty() -> (r: RepeatMode)
        ensures
            r == (RepeatMode { tap: false, slide: false }),
    {
        RepeatMode { tap: false, slide: false }
    }

    /// Tap repetition alone.
    pub fn tap_only() -> (r: RepeatMode)
        ensures
            r == (RepeatMode { tap: true, slide: false }),
    {
        RepeatMode { tap: true, slide: false }
    }

    /// Slide repetition alone.
    pub fn slide_only() -> (r: RepeatMode)
        ensures
            r == (RepeatMode { tap: false, slide: true }),
    {
        RepeatMode { tap: false, slide: true }
    }

    /// Whether every repetition of `other` is in `self`.
    pub fn contains(&self, other: RepeatMode) -> (r: bool)
        ensures
            r == ((other.tap ==> self.tap) && (other.slide ==> self.slide)),
    {
        (!other.tap || self.tap) && (!other.slide || self.slide)
    }

    /// Adds the repetitions of `other`.
    pub fn insert(&mut self, other: RepeatMode)
        ensures
            final(self).tap == (old(self).tap || other.tap),
            final(self).slide == (old(self).slide || other.slide),
    {
        self.tap = self.tap || other.tap;
        self.slide = self.slide || other.slide;
    }
}

/// A gesture of the catalog: the steps to perform, the edge it must start at,
/// the repetitions it allows and the shell command it runs.
#[derive(Debug, Clone)]
pub struct Gesture {
    pub name: String,
    pub sequence: Vec<DefinedSequenceStep>,
    pub edge: Option<Edge>,
    pub repeat_mode: RepeatMode,
    pub command: String,
}

/// Edge detection settings: how near a border counts as at it, and how much
/// the move-threshold ellipse shrinks there.
#[derive(Debug, Clone, Copy, PartialEq, Eq, Structural)]
pub struct EdgeOptions {
    pub threshold: Fraction,
    pub sensitivity: Fraction,
}

impl EdgeOptions {
    /// A twentieth of the touchpad size.
    pub fn default_threshold() -> (r: Fraction)
        ensures
            r.ppm == 50_000,
    {
        Fraction { ppm: 50_000 }
    }

    /// Half.
    pub fn default_sensitivity() -> (r: Fraction)
        ensures
            r.ppm == 500_000,
    {
        Fraction { ppm: 500_000 }
    }

    /// The default threshold and sensitivity.
    pub fn defaults() -> (r: EdgeOptions)
        ensures
            r.threshold.ppm == 50_000,
            r.sensitivity.ppm == 500_000,
    {
        EdgeOptions { threshold: Self::default_threshold(), sensitivity: Self::default_sensitivity() }
    }
}

/// Recognition settings, and the named distances that gesture steps may refer to.
#[derive(Debug, Clone)]
pub struct Options {
    pub move_threshold: Fraction,
    pub edge: EdgeOptions,
    pub run_all_matches: bool,
    pub distance: Vec<(String, Fraction)>,
}

impl Options {
    /// The edge sensitivity is at most one whole.
    pub open spec fn wf(&self) -> bool {
        self.edge.sensitivity.ppm <= PPM
    }

    /// Fifteen hundredths of the touchpad size.
    pub fn default_move_threshold() -> (r: Fraction)
        ensures
            r.ppm == 150_000,
    {
        Fraction { ppm: 150_000 }
    }

    /// The default settings, with no named distances.
    pub fn defaults() -> (r: Options)
        ensures
            r.wf(),
            r.move_threshold.ppm == 150_000,
            r.edge.threshold.ppm == 50_000,
            r.edge.sensitivity.ppm == 500_000,
            !r.run_all_matches,
            r.distance@.len() == 0,
    {
        Options {
            move_threshold: Self::default_move_threshold(),
            edge: EdgeOptions::defaults(),
            run_all_matches: false,
            distance: Vec::new(),
        }
    }
}

/// A compiled regular expression over window classes or titles, with its source text.
#[derive(Debug)]
pub struct WindowPattern {
    source: String,
    regex: Regex,
}

impl View for WindowPattern {
    type V = Seq<char>;

    closed spec fn view(&self) -> Seq<char> {
        self.source@
    }
}

/// A regular expression that does not compile.
#[derive(Debug, Clone, PartialEq, Eq)]
pub struct InvalidPattern {
    pub pattern: String,
}

impl WindowPattern {
    /// Compiles `source`; the error names the pattern when it is no valid expression.
    pub fn new(source: String) -> (r: Result<WindowPattern, InvalidPattern>)
        ensures
            r is Ok == regex_valid(source@),
            match r {
                Ok(p) => p@ == source@,
                Err(e) => e.pattern@ == source@,
            },
    {
        match compile_regex(source.as_str()) {
            Ok(regex) => Ok(WindowPattern { source, regex }),
            Err(_) => Err(InvalidPattern { pattern: source }),
        }
    }

    /// The source text.
    pub fn as_str(&self) -> (r: &str)
        ensures
            r@ == self@,
    {
        self.source.as_str()
    }

    /// Whether the pattern matches somewhere in `haystack`.
    pub fn is_match(&self, haystack: &str) -> (r: bool)
        ensures
            r == regex_matches(self@, haystack@),
    {
        pattern_is_match(self, haystack)
    }
}

/// Gestures that apply only while the active window's class or title matches a pattern,
/// in configuration order.
#[derive(Debug)]
pub struct ApplicationGestures {
    pub by_title: Vec<(WindowPattern, Vec<Gesture>)>,
    pub by_class: Vec<(WindowPattern, Vec<Gesture>)>,
}

/// The gesture catalog with its options.
#[derive(Debug)]
pub struct Config {
    pub options: Options,
    pub gestures: Vec<Gesture>,
    pub application_gestures: ApplicationGestures,
}

impl Config {
    /// The options are well formed.
    pub open spec fn wf(&self) -> bool {
        self.options.wf()
    }
}

} // verus!
