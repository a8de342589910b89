use vstd::prelude::*;

verus! {

/// The closed set of semantic colors a prompt token can carry.
///
/// `Plain` is the default, uncolored rendering; `Muted` is the dim gray used
/// for the ellipsis marker. How each tag is realised (ANSI escapes, shell
/// markup, or nothing at all) is left to the emission backend.
#[derive(Clone, Copy, Debug, PartialEq, Eq, Structural)]
pub enum Color {
    Red,
    Green,
    Blue,
    Cyan,
    Yellow,
    Muted,
    Plain,
}

/// The color a given configuration name stands for, if it names one of the
/// supported base colors.
pub open spec fn color_of_name(name: Seq<char>) -> Option<Color> {
    if name == "red"@ {
        Some(Color::Red)
    } else if name == "green"@ {
        Some(Color::Green)
    } else if name == "blue"@ {
        Some(Color::Blue)
    } else {
        None
    }
}

/// Character-by-character string equality, so that contracts can speak of
/// `==` on string views without trusting any outside comparison.
pub fn str_eq(a: &str, b: &str) -> (r: bool)
    ensures
        r == (a@ == b@),
{
    let n = a.unicode_len();
    if n != b.unicode_len() {
        return false;
    }
    let mut i: usize = 0;
    while i < n
        invariant
            n == a@.len(),
            n == b@.len(),
            i <= n,
            forall|j: int| 0 <= j < i ==> a@[j] == b@[j],
        decreases n - i,
    {
        if a.get_char(i) != b.get_char(i) {
            return false;
        }
        i = i + 1;
    }
    proof {
        assert(a@ =~= b@);
    }
    true
}

impl Color {
    /// Looks a color up by its configuration name.
    pub fn from_name(name: &str) -> (c: Option<Color>)
        ensures
            c == color_of_name(name@),
    {
        if str_eq(name, "red") {
            Some(Color::Red)
        } else if str_eq(name, "green") {
            Some(Color::Green)
        } else if str_eq(name, "blue") {
            Some(Color::Blue)
        } else {
            None
        }
    }
}

} // verus!
