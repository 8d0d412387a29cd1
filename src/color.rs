use vstd::prelude::*;

verus! {

/// The three colors an actor can take.
#[derive(Clone, Copy, Debug, PartialEq, Eq, Structural)]
pub enum Color {
    Red,
    Yellow,
    Blue,
}

/// The color algebra: two actors of one color keep it; two actors of
/// different colors both take the third one.
pub open spec fn complement(left: Color, right: Color) -> Color {
    if left == right {
        left
    } else if left != Color::Red && right != Color::Red {
        Color::Red
    } else if left != Color::Yellow && right != Color::Yellow {
        Color::Yellow
    } else {
        Color::Blue
    }
}

/// The name of a color, as printed in reports.
pub open spec fn color_name(c: Color) -> Seq<char> {
    match c {
        Color::Red => seq!['r', 'e', 'd'],
        Color::Yellow => seq!['y', 'e', 'l', 'l', 'o', 'w'],
        Color::Blue => seq!['b', 'l', 'u', 'e'],
    }
}

impl Color {
    /// The color's name in lower case.
    pub fn show(&self) -> (r: &'static str)
        ensures
            r@ == color_name(*self),
    {
        match *self {
            Color::Red => {
                proof { reveal_strlit("red"); }
                "red"
            },
            Color::Yellow => {
                proof { reveal_strlit("yellow"); }
                "yellow"
            },
            Color::Blue => {
                proof { reveal_strlit("blue"); }
                "blue"
            },
        }
    }
}

/// The color that both participants of a meeting take. The first argument
/// is the actor that initiated the meeting, the second its partner; the
/// result does not depend on that order (see `lemma_complement_symmetric`).
pub fn complement_color(left: Color, right: Color) -> (r: Color)
    ensures
        r == complement(left, right),
{
    match (left, right) {
        (Color::Red, Color::Red) => Color::Red,
        (Color::Red, Color::Yellow) => Color::Blue,
        (Color::Red, Color::Blue) => Color::Yellow,
        (Color::Yellow, Color::Red) => Color::Blue,
        (Color::Yellow, Color::Yellow) => Color::Yellow,
        (Color::Yellow, Color::Blue) => Color::Red,
        (Color::Blue, Color::Red) => Color::Yellow,
        (Color::Blue, Color::Yellow) => Color::Red,
        (Color::Blue, Color::Blue) => Color::Blue,
    }
}

/// The color algebra is a function of its two arguments alone: two
/// evaluations on the same pair of colors agree, whoever makes them.
pub proof fn lemma_complement_deterministic(a: Color, b: Color, c: Color, d: Color)
    requires
        a == c,
        b == d,
    ensures
        complement(a, b) == complement(c, d),
{
}

/// Which participant is "self" does not matter: the algebra is symmetric.
pub proof fn lemma_complement_symmetric(a: Color, b: Color)
    ensures
        complement(a, b) == complement(b, a),
{
}

/// Two actors of different colors both leave with a color that neither
/// had; two of one color keep it.
pub proof fn lemma_complement_third(a: Color, b: Color)
    ensures
        a == b ==> complement(a, b) == a,
        a != b ==> complement(a, b) != a && complement(a, b) != b,
{
}

} // verus!
