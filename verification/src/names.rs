//! What a name means when no variable has it: a colour written without quotes, or a mistake,
//! told with the nearest name it may have meant.
use vstd::prelude::*;
use crate::builtins::NAMES;
use crate::diagnostic::ErrorKind;
use crate::draw::{is_color_word, spec_is_color_word};
use crate::suggest::{closest, lemma_pick_range, lowercase, spec_pick, typo_limit};
use crate::text::owned;

verus! {

/// Every built-in's name, Ukrainian then English, row by row.
pub open spec fn builtin_names() -> Seq<Seq<char>> {
    Seq::new(
        48,
        |k: int|
            if k % 2 == 0 {
                NAMES[k / 2].1@
            } else {
                NAMES[k / 2].2@
            },
    )
}

/// The names a mistaken name is held against: the visible variables, then the built-ins.
pub open spec fn known_names(visible: Seq<Seq<char>>) -> Seq<Seq<char>> {
    visible + builtin_names()
}

/// The texts of some strings.
pub open spec fn texts(v: Seq<String>) -> Seq<Seq<char>> {
    v.map_values(|s: String| s@)
}

/// Why `name`, which no variable has and no built-in spells, is refused: a colour word asks
/// for quotes; anything else is unknown, with the nearest of the visible variables and the
/// built-ins as a suggestion when one is close enough.
pub fn unknown_name(name: &str, visible: &Vec<String>) -> (r: ErrorKind)
    ensures
        match r {
            ErrorKind::ColorNeedsQuotes(n) => spec_is_color_word(name@) && n@ == name@,
            ErrorKind::UnknownName { name: n, suggestion: s } => {
                &&& !spec_is_color_word(name@)
                &&& n@ == name@
                &&& match spec_pick(
                    lowercase(name@),
                    typo_limit(name@.len()),
                    known_names(texts(visible@)).map_values(|c: Seq<char>| lowercase(c)),
                ) {
                    Some(k) => s matches Some(x) && x@ == known_names(texts(visible@))[k],
                    None => s is None,
                }
            },
            _ => false,
        },
{
    if is_color_word(name) {
        return ErrorKind::ColorNeedsQuotes(owned(name));
    }
    let ghost known = known_names(texts(visible@));
    let mut cands: Vec<&str> = Vec::new();
    let mut i: usize = 0;
    while i < visible.len()
        invariant
            i <= visible@.len(),
            cands@.map_values(|c: &str| c@) == texts(visible@).take(i as int),
        decreases visible@.len() - i,
    {
        let ghost before = cands@;
        cands.push(visible[i].as_str());
        proof {
            assert(cands@.map_values(|c: &str| c@) =~= before.map_values(|c: &str| c@).push(
                visible@[i as int]@,
            ));
            assert(texts(visible@).take(i + 1) =~= texts(visible@).take(i as int).push(
                visible@[i as int]@,
            ));
        }
        i += 1;
    }
    proof {
        assert(texts(visible@).take(visible@.len() as int) =~= texts(visible@));
    }
    let ghost first = texts(visible@);
    let mut j: usize = 0;
    while j < 24
        invariant
            j <= 24,
            first == texts(visible@),
            cands@.map_values(|c: &str| c@) == first + builtin_names().take(2 * j),
        decreases 24 - j,
    {
        let (_, uk, en) = NAMES[j];
        let ghost before = cands@;
        cands.push(uk);
        cands.push(en);
        proof {
            assert(cands@.map_values(|c: &str| c@) =~= before.map_values(|c: &str| c@).push(uk@).push(
                en@,
            ));
            assert(builtin_names().take(2 * j + 2) =~= builtin_names().take(2 * j).push(uk@).push(
                en@,
            ));
        }
        j += 1;
    }
    proof {
        assert(builtin_names().take(48) =~= builtin_names());
        assert(cands@.map_values(|c: &str| c@) =~= known);
        assert(cands@.map_values(|c: &str| lowercase(c@)) =~= known.map_values(
            |c: Seq<char>| lowercase(c),
        ));
    }
    proof {
        assert forall|k: int| 0 <= k < known.len() implies #[trigger] cands@[k]@ == known[k] by {
            assert(cands@.map_values(|c: &str| c@)[k] == cands@[k]@);
        }
        lemma_pick_range(
            lowercase(name@),
            typo_limit(name@.len()),
            known.map_values(|c: Seq<char>| lowercase(c)),
        );
    }
    let found = closest(name, cands.as_slice());
    let suggestion = match found {
        Some(c) => Some(owned(c)),
        None => None,
    };
    ErrorKind::UnknownName { name: owned(name), suggestion }
}

} // verus!
