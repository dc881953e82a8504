//! The text of SVG pictures that needs no arithmetic.
use vstd::prelude::*;
use crate::text::{chars_of, push_char, push_str};

verus! {

/// A character as SVG text holds it: `&`, `<` and `>` as entities.
pub open spec fn escaped_char(c: char) -> Seq<char> {
    if c == '&' {
        "&amp;"@
    } else if c == '<' {
        "&lt;"@
    } else if c == '>' {
        "&gt;"@
    } else {
        seq![c]
    }
}

/// The characters of `s`, each as SVG text holds it.
pub open spec fn spec_escape(s: Seq<char>) -> Seq<char>
    decreases s.len(),
{
    if s.len() == 0 {
        seq![]
    } else {
        spec_escape(s.drop_last()) + escaped_char(s.last())
    }
}

/// Text made safe to stand between SVG tags.
pub fn escape(text: &str) -> (r: String)
    ensures
        r@ == spec_escape(text@),
{
    let cs = chars_of(text);
    let mut out = String::new();
    let mut i: usize = 0;
    while i < cs.len()
        invariant
            cs@ == text@,
            i <= cs.len(),
            out@ == spec_escape(text@.take(i as int)),
        decreases cs.len() - i,
    {
        let c = cs[i];
        let ghost before = out@;
        if c == '&' {
            push_str(&mut out, "&amp;");
        } else if c == '<' {
            push_str(&mut out, "&lt;");
        } else if c == '>' {
            push_str(&mut out, "&gt;");
        } else {
            push_char(&mut out, c);
        }
        proof {
            assert(text@.take(i + 1).drop_last() =~= text@.take(i as int));
            assert(out@ =~= before + escaped_char(c));
        }
        i += 1;
    }
    proof {
        assert(text@.take(cs.len() as int) =~= text@);
    }
    out
}

} // verus!
