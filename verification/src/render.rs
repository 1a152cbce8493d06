//! Display policy for computed values.
//!
//! A computed value is shown in one of three forms: a bare integer literal
//! (when the value snaps to a moderate integer), scientific notation (for
//! very large or very small magnitudes), or fixed-point text with trailing
//! zeros trimmed. The numeric work behind these choices (rounding, magnitude
//! tests, digit rendering) is floating-point and runs outside the verified
//! library; its outcome arrives here as plain booleans and strings, and this
//! module makes the policy decision and the final text manipulation.

use vstd::prelude::*;
use vstd::string::*;

verus! {

/// The facts and text fragments the host computed for one value.
///
/// `near_int` holds when the value is within the snap tolerance of an
/// integer; `int_big` when that integer's magnitude is above the
/// plain-display bound; `abs_big` and `abs_small` when the value's own
/// magnitude is above the plain-display bound, respectively non-zero and
/// below the fixed-point bound. The four strings are the host's renderings
/// of the snapped integer (plain and scientific) and of the value itself
/// (scientific and fixed-point with ten fractional digits).
pub struct ValueParts {
    pub near_int: bool,
    pub int_big: bool,
    pub int_text: String,
    pub int_sci_text: String,
    pub abs_big: bool,
    pub abs_small: bool,
    pub sci_text: String,
    pub fixed_text: String,
}

/// `s` with every trailing occurrence of `c` removed.
pub open spec fn strip_trailing(s: Seq<char>, c: char) -> Seq<char>
    decreases s.len(),
{
    if s.len() > 0 && s.last() == c {
        strip_trailing(s.drop_last(), c)
    } else {
        s
    }
}

/// Fixed-point cleanup: drop trailing zeros, then any trailing point.
pub open spec fn trim_fixed(s: Seq<char>) -> Seq<char> {
    strip_trailing(strip_trailing(s, '0'), '.')
}

/// The display policy: integer text for snapped moderate integers,
/// scientific text outside the plain-magnitude band, trimmed fixed-point
/// text otherwise.
pub open spec fn spec_render(p: ValueParts) -> Seq<char> {
    if p.near_int {
        if p.int_big {
            p.int_sci_text@
        } else {
            p.int_text@
        }
    } else if p.abs_big || p.abs_small {
        p.sci_text@
    } else {
        trim_fixed(p.fixed_text@)
    }
}

/// What stripping leaves behind: a prefix of the input that does not end in
/// `c`, and everything removed after it was `c`.
pub proof fn lemma_strip_trailing_props(s: Seq<char>, c: char)
    ensures
        strip_trailing(s, c).len() <= s.len(),
        strip_trailing(s, c) == s.take(strip_trailing(s, c).len() as int),
        strip_trailing(s, c).len() > 0 ==> strip_trailing(s, c).last() != c,
        forall|j: int| strip_trailing(s, c).len() <= j < s.len() ==> s[j] == c,
    decreases s.len(),
{
    if s.len() > 0 && s.last() == c {
        lemma_strip_trailing_props(s.drop_last(), c);
        let r = strip_trailing(s, c);
        assert(s.drop_last() =~= s.take(s.len() - 1));
        assert(s.drop_last().take(r.len() as int) =~= s.take(r.len() as int));
        assert forall|j: int| r.len() <= j < s.len() implies s[j] == c by {
            if j < s.len() - 1 {
                assert(s.drop_last()[j] == c);
            }
        }
    } else {
        assert(s.take(s.len() as int) =~= s);
    }
}

/// Integral snap: a value snapped to an integer inside the plain-display
/// bound renders as the bare integer literal.
pub proof fn lemma_integral_snap(p: ValueParts)
    requires
        p.near_int,
        !p.int_big,
    ensures
        spec_render(p) == p.int_text@,
{
}

/// A value snapped to an integer beyond the plain-display bound renders in
/// scientific notation.
pub proof fn lemma_large_integer_sci(p: ValueParts)
    requires
        p.near_int,
        p.int_big,
    ensures
        spec_render(p) == p.int_sci_text@,
{
}

/// Large-magnitude switch: a non-integral value of large magnitude renders
/// in scientific notation.
pub proof fn lemma_large_magnitude_sci(p: ValueParts)
    requires
        !p.near_int,
        p.abs_big,
    ensures
        spec_render(p) == p.sci_text@,
{
}

/// Small-magnitude switch: a non-zero fractional value of small magnitude
/// renders in scientific notation.
pub proof fn lemma_small_magnitude_sci(p: ValueParts)
    requires
        !p.near_int,
        p.abs_small,
    ensures
        spec_render(p) == p.sci_text@,
{
}

/// Trailing-zero trim: in the fixed-point zone the rendering is the fixed
/// text with trailing zeros, then a trailing point, removed.
pub proof fn lemma_fixed_point_trim(p: ValueParts)
    requires
        !p.near_int,
        !p.abs_big,
        !p.abs_small,
    ensures
        spec_render(p) == trim_fixed(p.fixed_text@),
        spec_render(p).len() > 0 ==> spec_render(p).last() != '.',
{
    lemma_strip_trailing_props(p.fixed_text@, '0');
    lemma_strip_trailing_props(strip_trailing(p.fixed_text@, '0'), '.');
}

/// Remove every trailing occurrence of `c` from `s`.
pub fn strip_trailing_exec(s: &String, c: char) -> (r: String)
    ensures
        r@ == strip_trailing(s@, c),
{
    let n = s.as_str().unicode_len();
    let mut cut: usize = n;
    proof {
        assert(s@.take(n as int) =~= s@);
    }
    while cut > 0 && s.as_str().get_char(cut - 1) == c
        invariant
            cut <= n,
            n == s@.len(),
            strip_trailing(s@, c) == strip_trailing(s@.take(cut as int), c),
        decreases cut,
    {
        proof {
            assert(s@.take(cut as int).drop_last() =~= s@.take(cut as int - 1));
        }
        cut = cut - 1;
    }
    proof {
        if cut > 0 {
            assert(strip_trailing(s@.take(cut as int), c) == s@.take(cut as int));
        } else {
            assert(s@.take(0) =~= Seq::<char>::empty());
        }
    }
    String::from_str(s.as_str().substring_char(0, cut))
}

/// Fixed-point cleanup: drop trailing zeros, then any trailing point.
pub fn trim_fixed_exec(s: &String) -> (r: String)
    ensures
        r@ == trim_fixed(s@),
{
    let no_zeros = strip_trailing_exec(s, '0');
    strip_trailing_exec(&no_zeros, '.')
}

/// Turn the host-computed facts about one value into its display text,
/// following the display policy exactly.
pub fn render_value(p: &ValueParts) -> (r: String)
    ensures
        r@ == spec_render(*p),
{
    if p.near_int {
        if p.int_big {
            p.int_sci_text.clone()
        } else {
            p.int_text.clone()
        }
    } else if p.abs_big || p.abs_small {
        p.sci_text.clone()
    } else {
        trim_fixed_exec(&p.fixed_text)
    }
}

} // verus!
