//! The trajectory mini-grammar: `Name*p1*p2*p3*p4`, a named motion path with
//! four decimal parameters. The empty string falls back to the default path
//! with default parameters; an unrecognized name falls back to the default
//! path with the given parameters.

use vstd::prelude::*;

use crate::decimal::{dec_of, decimal_chars, Decimal};
use crate::strutil::{append_str, lemma_set_of_one, push_char, spec_split, split_on, str_eq};

verus! {

/// Representation of the trajectories the text or image can take.
#[derive(Debug, Clone, Copy, PartialEq, Eq, Structural)]
pub enum Trajectory {
    PlainBottomToTop(Decimal, Decimal, Decimal, Decimal),
    PlainTopToBottom(Decimal, Decimal, Decimal, Decimal),
    BottomLeftToTopRight(Decimal, Decimal, Decimal, Decimal),
    BottomRightToTopLeft(Decimal, Decimal, Decimal, Decimal),
    TopRightToBottomLeft(Decimal, Decimal, Decimal, Decimal),
    TopLeftToBottomRight(Decimal, Decimal, Decimal, Decimal),
    Still(Decimal, Decimal, Decimal, Decimal),
    StarWars(Decimal, Decimal, Decimal, Decimal),
    MadCircles(Decimal, Decimal, Decimal, Decimal),
    BackToFront1(Decimal, Decimal, Decimal, Decimal),
    BackToFront2(Decimal, Decimal, Decimal, Decimal),
}

impl Default for Trajectory {
    /// The default motion path with unit parameters.
    fn default() -> (r: Self)
        ensures
            r == Trajectory::PlainBottomToTop(
                Decimal { neg: false, mantissa: 1, scale: 0 },
                Decimal { neg: false, mantissa: 1, scale: 0 },
                Decimal { neg: false, mantissa: 1, scale: 0 },
                Decimal { neg: false, mantissa: 1, scale: 0 },
            ),
    {
        Trajectory::PlainBottomToTop(
            Decimal { neg: false, mantissa: 1, scale: 0 },
            Decimal { neg: false, mantissa: 1, scale: 0 },
            Decimal { neg: false, mantissa: 1, scale: 0 },
            Decimal { neg: false, mantissa: 1, scale: 0 },
        )
    }
}

/// The trajectory a name selects for the given parameters; an unrecognized
/// name selects the default path.
pub open spec fn traj_of_name(
    name: Seq<char>,
    a: Decimal,
    b: Decimal,
    c: Decimal,
    d: Decimal,
) -> Trajectory {
    if name == "PlainTopToBottom"@ {
        Trajectory::PlainTopToBottom(a, b, c, d)
    } else if name == "BottomLeftToTopRight"@ {
        Trajectory::BottomLeftToTopRight(a, b, c, d)
    } else if name == "BottomRightToTopLeft"@ {
        Trajectory::BottomRightToTopLeft(a, b, c, d)
    } else if name == "TopRightToBottomLeft"@ {
        Trajectory::TopRightToBottomLeft(a, b, c, d)
    } else if name == "TopLeftToBottomRight"@ {
        Trajectory::TopLeftToBottomRight(a, b, c, d)
    } else if name == "Still"@ {
        Trajectory::Still(a, b, c, d)
    } else if name == "StarWars"@ {
        Trajectory::StarWars(a, b, c, d)
    } else if name == "MadCircles"@ {
        Trajectory::MadCircles(a, b, c, d)
    } else if name == "BackToFront1"@ {
        Trajectory::BackToFront1(a, b, c, d)
    } else if name == "BackToFront2"@ {
        Trajectory::BackToFront2(a, b, c, d)
    } else {
        Trajectory::PlainBottomToTop(a, b, c, d)
    }
}

/// The parameters written when a trajectory string omits them: total time
/// 1.5, width, height and depth 1.
pub open spec fn default_params() -> (Decimal, Decimal, Decimal, Decimal) {
    (
        Decimal { neg: false, mantissa: 15, scale: 1 },
        Decimal { neg: false, mantissa: 1, scale: 0 },
        Decimal { neg: false, mantissa: 1, scale: 0 },
        Decimal { neg: false, mantissa: 1, scale: 0 },
    )
}

/// The trajectory a string denotes. The empty name (and so the empty
/// string) takes the default path with the default parameters; a nonempty
/// name needs at least four parameter segments, each a decimal literal, and
/// extra segments are ignored. `None` on a malformed string.
pub open spec fn spec_trajectory(s: Seq<char>) -> Option<Trajectory> {
    let parts = spec_split(s, set!['*']);
    if parts[0].len() == 0 {
        Some(
            Trajectory::PlainBottomToTop(
                default_params().0,
                default_params().1,
                default_params().2,
                default_params().3,
            ),
        )
    } else if parts.len() < 5 {
        None
    } else {
        match (dec_of(parts[1]), dec_of(parts[2]), dec_of(parts[3]), dec_of(parts[4])) {
            (Some(a), Some(b), Some(c), Some(d)) => Some(traj_of_name(parts[0], a, b, c, d)),
            _ => None,
        }
    }
}

impl Trajectory {
    /// Parses a trajectory string. `None` exactly when a nonempty name has
    /// too few segments or a parameter is not a decimal literal.
    pub fn from(s: &str) -> (r: Option<Trajectory>)
        ensures
            r == spec_trajectory(s@),
    {
        let seps = vec!['*'];
        proof {
            lemma_set_of_one('*');
            assert(seps@ =~= seq!['*']);
        }
        let parts = split_on(s, &seps);
        let key = parts[0].as_str();
        if key.unicode_len() == 0 {
            let p = default_params_exec();
            return Some(Trajectory::PlainBottomToTop(p.0, p.1, p.2, p.3));
        }
        if parts.len() < 5 {
            return None;
        }
        let a = crate::decimal::parse_decimal(parts[1].as_str());
        let b = crate::decimal::parse_decimal(parts[2].as_str());
        let c = crate::decimal::parse_decimal(parts[3].as_str());
        let d = crate::decimal::parse_decimal(parts[4].as_str());
        match (a, b, c, d) {
            (Some(a), Some(b), Some(c), Some(d)) => Some(name_to_traj(key, a, b, c, d)),
            _ => None,
        }
    }

    /// The name segment this trajectory renders as.
    pub open spec fn spec_name(self) -> Seq<char> {
        match self {
            Trajectory::PlainBottomToTop(_, _, _, _) => "PlainBottomToTop"@,
            Trajectory::PlainTopToBottom(_, _, _, _) => "PlainTopToBottom"@,
            Trajectory::BottomLeftToTopRight(_, _, _, _) => "BottomLeftToTopRight"@,
            Trajectory::BottomRightToTopLeft(_, _, _, _) => "BottomRightToTopLeft"@,
            Trajectory::TopRightToBottomLeft(_, _, _, _) => "TopRightToBottomLeft"@,
            Trajectory::TopLeftToBottomRight(_, _, _, _) => "TopLeftToBottomRight"@,
            Trajectory::Still(_, _, _, _) => "Still"@,
            Trajectory::StarWars(_, _, _, _) => "StarWars"@,
            Trajectory::MadCircles(_, _, _, _) => "MadCircles"@,
            Trajectory::BackToFront1(_, _, _, _) => "BackToFront1"@,
            Trajectory::BackToFront2(_, _, _, _) => "BackToFront2"@,
        }
    }

    /// The four parameters of this trajectory.
    pub open spec fn spec_params(self) -> (Decimal, Decimal, Decimal, Decimal) {
        match self {
            Trajectory::PlainBottomToTop(a, b, c, d) => (a, b, c, d),
            Trajectory::PlainTopToBottom(a, b, c, d) => (a, b, c, d),
            Trajectory::BottomLeftToTopRight(a, b, c, d) => (a, b, c, d),
            Trajectory::BottomRightToTopLeft(a, b, c, d) => (a, b, c, d),
            Trajectory::TopRightToBottomLeft(a, b, c, d) => (a, b, c, d),
            Trajectory::TopLeftToBottomRight(a, b, c, d) => (a, b, c, d),
            Trajectory::Still(a, b, c, d) => (a, b, c, d),
            Trajectory::StarWars(a, b, c, d) => (a, b, c, d),
            Trajectory::MadCircles(a, b, c, d) => (a, b, c, d),
            Trajectory::BackToFront1(a, b, c, d) => (a, b, c, d),
            Trajectory::BackToFront2(a, b, c, d) => (a, b, c, d),
        }
    }

    /// Renders the trajectory as its grammar string.
    pub fn to_string(&self) -> (r: String)
        ensures
            r@ == trajectory_chars(*self),
    {
        let mut out = match self {
            Trajectory::PlainBottomToTop(_, _, _, _) => str_owned("PlainBottomToTop"),
            Trajectory::PlainTopToBottom(_, _, _, _) => str_owned("PlainTopToBottom"),
            Trajectory::BottomLeftToTopRight(_, _, _, _) => str_owned("BottomLeftToTopRight"),
            Trajectory::BottomRightToTopLeft(_, _, _, _) => str_owned("BottomRightToTopLeft"),
            Trajectory::TopRightToBottomLeft(_, _, _, _) => str_owned("TopRightToBottomLeft"),
            Trajectory::TopLeftToBottomRight(_, _, _, _) => str_owned("TopLeftToBottomRight"),
            Trajectory::Still(_, _, _, _) => str_owned("Still"),
            Trajectory::StarWars(_, _, _, _) => str_owned("StarWars"),
            Trajectory::MadCircles(_, _, _, _) => str_owned("MadCircles"),
            Trajectory::BackToFront1(_, _, _, _) => str_owned("BackToFront1"),
            Trajectory::BackToFront2(_, _, _, _) => str_owned("BackToFront2"),
        };
        let p = self.params();
        push_param(&mut out, p.0);
        push_param(&mut out, p.1);
        push_param(&mut out, p.2);
        push_param(&mut out, p.3);
        proof {
            assert(out@ =~= trajectory_chars(*self));
        }
        out
    }

    /// The four parameters, for rendering and for callers that animate.
    pub fn params(&self) -> (r: (Decimal, Decimal, Decimal, Decimal))
        ensures
            r == self.spec_params(),
    {
        match self {
            Trajectory::PlainBottomToTop(a, b, c, d) => (*a, *b, *c, *d),
            Trajectory::PlainTopToBottom(a, b, c, d) => (*a, *b, *c, *d),
            Trajectory::BottomLeftToTopRight(a, b, c, d) => (*a, *b, *c, *d),
            Trajectory::BottomRightToTopLeft(a, b, c, d) => (*a, *b, *c, *d),
            Trajectory::TopRightToBottomLeft(a, b, c, d) => (*a, *b, *c, *d),
            Trajectory::TopLeftToBottomRight(a, b, c, d) => (*a, *b, *c, *d),
            Trajectory::Still(a, b, c, d) => (*a, *b, *c, *d),
            Trajectory::StarWars(a, b, c, d) => (*a, *b, *c, *d),
            Trajectory::MadCircles(a, b, c, d) => (*a, *b, *c, *d),
            Trajectory::BackToFront1(a, b, c, d) => (*a, *b, *c, *d),
            Trajectory::BackToFront2(a, b, c, d) => (*a, *b, *c, *d),
        }
    }
}

/// The grammar string of a trajectory: its name and its four parameters,
/// separated by stars.
pub open spec fn trajectory_chars(t: Trajectory) -> Seq<char> {
    t.spec_name() + seq!['*'] + decimal_chars(t.spec_params().0) + seq!['*'] + decimal_chars(
        t.spec_params().1,
    ) + seq!['*'] + decimal_chars(t.spec_params().2) + seq!['*'] + decimal_chars(t.spec_params().3)
}

fn push_param(out: &mut String, d: Decimal)
    ensures
        final (out)@ == old(out)@ + seq!['*'] + decimal_chars(d),
{
    push_char(out, '*');
    let s = d.to_string();
    append_str(out, s.as_str());
}

fn str_owned(s: &str) -> (r: String)
    ensures
        r@ == s@,
{
    s.to_owned()
}

fn default_params_exec() -> (r: (Decimal, Decimal, Decimal, Decimal))
    ensures
        r == default_params(),
{
    (
        Decimal { neg: false, mantissa: 15, scale: 1 },
        Decimal { neg: false, mantissa: 1, scale: 0 },
        Decimal { neg: false, mantissa: 1, scale: 0 },
        Decimal { neg: false, mantissa: 1, scale: 0 },
    )
}

fn name_to_traj(key: &str, a: Decimal, b: Decimal, c: Decimal, d: Decimal) -> (r: Trajectory)
    ensures
        r == traj_of_name(key@, a, b, c, d),
{
    if str_eq(key, "PlainTopToBottom") {
        Trajectory::PlainTopToBottom(a, b, c, d)
    } else if str_eq(key, "BottomLeftToTopRight") {
        Trajectory::BottomLeftToTopRight(a, b, c, d)
    } else if str_eq(key, "BottomRightToTopLeft") {
        Trajectory::BottomRightToTopLeft(a, b, c, d)
    } else if str_eq(key, "TopRightToBottomLeft") {
        Trajectory::TopRightToBottomLeft(a, b, c, d)
    } else if str_eq(key, "TopLeftToBottomRight") {
        Trajectory::TopLeftToBottomRight(a, b, c, d)
    } else if str_eq(key, "Still") {
        Trajectory::Still(a, b, c, d)
    } else if str_eq(key, "StarWars") {
        Trajectory::StarWars(a, b, c, d)
    } else if str_eq(key, "MadCircles") {
        Trajectory::MadCircles(a, b, c, d)
    } else if str_eq(key, "BackToFront1") {
        Trajectory::BackToFront1(a, b, c, d)
    } else if str_eq(key, "BackToFront2") {
        Trajectory::BackToFront2(a, b, c, d)
    } else {
        Trajectory::PlainBottomToTop(a, b, c, d)
    }
}

} // verus!
