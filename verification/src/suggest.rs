//! "Did you mean …?": edit distance and the nearest name.
use vstd::prelude::*;
use crate::text::chars_of;

verus! {

/// Levenshtein distance between two character sequences: the fewest single-character
/// insertions, deletions and substitutions that turn `a` into `b`.
pub open spec fn lev(a: Seq<char>, b: Seq<char>) -> nat
    decreases a.len() + b.len(),
{
    if a.len() == 0 {
        b.len()
    } else if b.len() == 0 {
        a.len()
    } else {
        let sub = lev(a.drop_last(), b.drop_last()) + if a.last() == b.last() {
            0nat
        } else {
            1nat
        };
        let del = lev(a.drop_last(), b) + 1;
        let ins = lev(a, b.drop_last()) + 1;
        min3(sub, del, ins)
    }
}

pub open spec fn min3(x: nat, y: nat, z: nat) -> nat {
    let m = if x <= y { x } else { y };
    if m <= z { m } else { z }
}

pub proof fn lemma_lev_bound(a: Seq<char>, b: Seq<char>)
    ensures
        lev(a, b) <= if a.len() >= b.len() { a.len() } else { b.len() },
    decreases a.len() + b.len(),
{
    if a.len() > 0 && b.len() > 0 {
        lemma_lev_bound(a.drop_last(), b.drop_last());
    }
}

/// Edit distance is symmetric.
pub proof fn lemma_lev_symmetric(a: Seq<char>, b: Seq<char>)
    ensures
        lev(a, b) == lev(b, a),
    decreases a.len() + b.len(),
{
    if a.len() > 0 && b.len() > 0 {
        lemma_lev_symmetric(a.drop_last(), b.drop_last());
        lemma_lev_symmetric(a.drop_last(), b);
        lemma_lev_symmetric(a, b.drop_last());
    }
}

/// Edit distance is at least the difference of the lengths.
pub proof fn lemma_lev_at_least_length_gap(a: Seq<char>, b: Seq<char>)
    ensures
        lev(a, b) >= a.len() - b.len(),
        lev(a, b) >= b.len() - a.len(),
    decreases a.len() + b.len(),
{
    if a.len() > 0 && b.len() > 0 {
        lemma_lev_at_least_length_gap(a.drop_last(), b.drop_last());
        lemma_lev_at_least_length_gap(a.drop_last(), b);
        lemma_lev_at_least_length_gap(a, b.drop_last());
    }
}

/// Edit distance is zero exactly between equal words.
pub proof fn lemma_lev_zero_iff_equal(a: Seq<char>, b: Seq<char>)
    ensures
        lev(a, b) == 0 <==> a == b,
    decreases a.len() + b.len(),
{
    if a.len() > 0 && b.len() > 0 {
        lemma_lev_zero_iff_equal(a.drop_last(), b.drop_last());
        lemma_lev_at_least_length_gap(a.drop_last(), b);
        lemma_lev_at_least_length_gap(a, b.drop_last());
        if a == b {
            assert(a.drop_last() == b.drop_last());
        }
        if lev(a, b) == 0 {
            assert(a.drop_last() == b.drop_last());
            assert(a =~= a.drop_last().push(a.last()));
            assert(b =~= b.drop_last().push(b.last()));
        }
    } else if a.len() == 0 && b.len() == 0 {
        assert(a =~= b);
    }
}

/// Edit distance obeys the triangle law.
pub proof fn lemma_lev_triangle(a: Seq<char>, b: Seq<char>, c: Seq<char>)
    ensures
        lev(a, c) <= lev(a, b) + lev(b, c),
    decreases a.len() + b.len() + c.len(),
{
    if a.len() == 0 || c.len() == 0 {
        lemma_lev_at_least_length_gap(a, b);
        lemma_lev_at_least_length_gap(b, c);
        lemma_lev_bound(a, c);
    } else if b.len() == 0 {
        lemma_lev_bound(a, c);
    } else {
        let (a1, b1, c1) = (a.drop_last(), b.drop_last(), c.drop_last());
        lemma_lev_triangle(a1, b1, c1);
        lemma_lev_triangle(a1, b, c);
        lemma_lev_triangle(a, b, c1);
        lemma_lev_triangle(a, b1, c);
        lemma_lev_triangle(a, b1, c1);
        lemma_lev_triangle(a1, b1, c);
    }
}

/// Levenshtein distance over two character slices.
pub fn distance_chars(a: &[char], b: &[char]) -> (d: usize)
    requires
        a@.len() + b@.len() < usize::MAX,
    ensures
        d == lev(a@, b@),
{
    let m = b.len();
    let mut prev: Vec<usize> = Vec::new();
    let mut j: usize = 0;
    while j <= m
        invariant
            m == b@.len(),
            a@.len() + b@.len() < usize::MAX,
            j <= m + 1,
            prev@.len() == j,
            forall|k: int| 0 <= k < j ==> #[trigger] prev@[k] == lev(a@.take(0), b@.take(k)),
        decreases m + 1 - j,
    {
        proof {
            assert(a@.take(0).len() == 0);
        }
        prev.push(j);
        j += 1;
    }
    let mut i: usize = 0;
    while i < a.len()
        invariant
            m == b@.len(),
            a@.len() + b@.len() < usize::MAX,
            i <= a@.len(),
            prev@.len() == m + 1,
            forall|k: int| 0 <= k <= m ==> #[trigger] prev@[k] == lev(a@.take(i as int), b@.take(k)),
        decreases a@.len() - i,
    {
        let ca = a[i];
        let ghost ai = a@.take(i as int);
        let ghost ai1 = a@.take(i + 1);
        proof {
            assert(ai1.drop_last() =~= ai);
            assert(ai1.len() > 0);
            assert(ai1.last() == ca);
        }
        let mut cur: Vec<usize> = Vec::new();
        cur.push(i + 1);
        proof {
            assert(b@.take(0).len() == 0);
        }
        let mut j: usize = 0;
        while j < m
            invariant
                m == b@.len(),
                a@.len() + b@.len() < usize::MAX,
                i < a@.len(),
                ai == a@.take(i as int),
                ai1 == a@.take(i + 1),
                ai1.drop_last() == ai,
                ai1.len() > 0,
                ai1.last() == ca,
                j <= m,
                prev@.len() == m + 1,
                cur@.len() == j + 1,
                forall|k: int| 0 <= k <= m ==> #[trigger] prev@[k] == lev(ai, b@.take(k)),
                forall|k: int| 0 <= k <= j ==> #[trigger] cur@[k] == lev(ai1, b@.take(k)),
            decreases m - j,
        {
            let cb = b[j];
            let ghost bj1 = b@.take(j + 1);
            proof {
                assert(bj1.drop_last() =~= b@.take(j as int));
                assert(bj1.last() == cb);
                lemma_lev_bound(ai, b@.take(j as int));
                lemma_lev_bound(ai, bj1);
                lemma_lev_bound(ai1, b@.take(j as int));
            }
            let cost: usize = if ca != cb { 1 } else { 0 };
            let x = prev[j] + cost;
            let y = prev[j + 1] + 1;
            let z = cur[j] + 1;
            let mut best = if x <= y { x } else { y };
            if z < best {
                best = z;
            }
            cur.push(best);
            j += 1;
        }
        prev = cur;
        i += 1;
    }
    proof {
        assert(a@.take(a@.len() as int) =~= a@);
        assert(b@.take(m as int) =~= b@);
    }
    prev[m]
}

/// Levenshtein distance, counted in characters.
pub fn distance(a: &str, b: &str) -> (d: usize)
    requires
        a@.len() + b@.len() < usize::MAX,
    ensures
        d == lev(a@, b@),
{
    let va = chars_of(a);
    let vb = chars_of(b);
    distance_chars(va.as_slice(), vb.as_slice())
}

/// What `str::to_lowercase` gives for `s`: its lower case by Unicode's rules (mostly one
/// character at a time, with exceptions such as a final sigma).
pub uninterp spec fn lowercase(s: Seq<char>) -> Seq<char>;

/// Calls `str::to_lowercase`; its result is named [`lowercase`] and depends on `s` alone.
#[verifier::external_body]
pub(crate) fn to_lowercase(s: &str) -> (r: String)
    ensures
        r@ == lowercase(s@),
{
    s.to_lowercase()
}

/// How far a word may be from a name and still count as a typo of it.
pub open spec fn typo_limit(chars: nat) -> nat {
    if chars <= 2 {
        1
    } else if chars <= 5 {
        2
    } else {
        3
    }
}

/// A candidate counts when it differs from `word`, by at most `limit` edits.
pub open spec fn near(word: Seq<char>, cand: Seq<char>, limit: nat) -> bool {
    &&& word.len() + cand.len() < usize::MAX
    &&& 0 < lev(word, cand) <= limit
}

/// Index of the nearest candidate that counts; the first one wins a tie.
pub open spec fn spec_pick(word: Seq<char>, limit: nat, cands: Seq<Seq<char>>) -> Option<int>
    decreases cands.len(),
{
    if cands.len() == 0 {
        None
    } else {
        let prev = spec_pick(word, limit, cands.drop_last());
        let last = cands.len() - 1;
        if near(word, cands[last], limit) && (prev is None || lev(word, cands[last]) < lev(
            word,
            cands[prev->0],
        )) {
            Some(last)
        } else {
            prev
        }
    }
}

/// The pick is `None` exactly when no candidate is near enough; otherwise it is near, no
/// near candidate is nearer, and every near candidate before it is farther.
pub proof fn lemma_pick_nearest(word: Seq<char>, limit: nat, cands: Seq<Seq<char>>)
    ensures
        spec_pick(word, limit, cands) is None <==> forall|j: int|
            0 <= j < cands.len() ==> !near(word, #[trigger] cands[j], limit),
        spec_pick(word, limit, cands) matches Some(k) ==> {
            &&& 0 <= k < cands.len()
            &&& near(word, cands[k], limit)
            &&& forall|j: int|
                0 <= j < cands.len() && near(word, #[trigger] cands[j], limit) ==> lev(word, cands[j])
                    >= lev(word, cands[k]) && (j < k ==> lev(word, cands[j]) > lev(word, cands[k]))
        },
    decreases cands.len(),
{
    if cands.len() > 0 {
        let prev = cands.drop_last();
        let last = cands.len() - 1;
        lemma_pick_nearest(word, limit, prev);
        let p = spec_pick(word, limit, prev);
        assert forall|j: int| 0 <= j < prev.len() implies #[trigger] prev[j] == cands[j] by {}
        match spec_pick(word, limit, cands) {
            None => {
                assert(p is None);
                assert forall|j: int| 0 <= j < cands.len() implies !near(
                    word,
                    #[trigger] cands[j],
                    limit,
                ) by {
                    if j < last {
                        assert(prev[j] == cands[j]);
                    }
                }
            },
            Some(k) => {
                if k == last {
                    assert forall|j: int|
                        0 <= j < cands.len() && near(word, #[trigger] cands[j], limit) implies lev(
                        word,
                        cands[j],
                    ) >= lev(word, cands[k]) && (j < k ==> lev(word, cands[j]) > lev(
                        word,
                        cands[k],
                    )) by {
                        if j < last {
                            assert(prev[j] == cands[j]);
                            assert(near(word, prev[j], limit));
                        }
                    }
                } else {
                    assert(p == Some(k));
                    assert(prev[k] == cands[k]);
                    assert forall|j: int|
                        0 <= j < cands.len() && near(word, #[trigger] cands[j], limit) implies lev(
                        word,
                        cands[j],
                    ) >= lev(word, cands[k]) && (j < k ==> lev(word, cands[j]) > lev(
                        word,
                        cands[k],
                    )) by {
                        if j < last {
                            assert(prev[j] == cands[j]);
                            assert(near(word, prev[j], limit));
                        }
                    }
                }
                assert(!(forall|j: int| 0 <= j < cands.len() ==> !near(word, #[trigger] cands[j], limit)))
                    by {
                    assert(near(word, cands[k], limit));
                }
            },
        }
    }
}

pub proof fn lemma_pick_range(word: Seq<char>, limit: nat, cands: Seq<Seq<char>>)
    ensures
        spec_pick(word, limit, cands) matches Some(k) ==> 0 <= k < cands.len() && near(
            word,
            cands[k],
            limit,
        ),
    decreases cands.len(),
{
    if cands.len() > 0 {
        lemma_pick_range(word, limit, cands.drop_last());
    }
}

/// The nearest of `cands` (already lower-cased) to `word` (already lower-cased).
pub fn pick_closest(word: &[char], limit: usize, cands: &Vec<Vec<char>>) -> (r: Option<usize>)
    ensures
        r matches Some(k) ==> spec_pick(word@, limit as nat, cands@.map_values(|c: Vec<char>| c@))
            == Some(k as int),
        r is None ==> spec_pick(word@, limit as nat, cands@.map_values(|c: Vec<char>| c@)) is None,
{
    let ghost all = cands@.map_values(|c: Vec<char>| c@);
    let mut best: Option<usize> = None;
    let mut best_d: usize = 0;
    let mut i: usize = 0;
    while i < cands.len()
        invariant
            all == cands@.map_values(|c: Vec<char>| c@),
            i <= cands.len(),
            best matches Some(k) ==> spec_pick(word@, limit as nat, all.take(i as int)) == Some(
                k as int,
            ) && k < i && best_d == lev(word@, all[k as int]),
            best is None ==> spec_pick(word@, limit as nat, all.take(i as int)) is None,
        decreases cands.len() - i,
    {
        let c = &cands[i];
        proof {
            assert(all.take(i + 1).drop_last() =~= all.take(i as int));
            assert(all.take(i + 1)[i as int] == c@);
            lemma_pick_range(word@, limit as nat, all.take(i as int));
            if let Some(k) = best {
                assert(all.take(i as int)[k as int] == all[k as int]);
            }
        }
        if word.len() < usize::MAX - c.len() {
            let d = distance_chars(word, c.as_slice());
            if d > 0 && d <= limit {
                let better = match best {
                    None => true,
                    Some(_) => d < best_d,
                };
                if better {
                    best = Some(i);
                    best_d = d;
                }
            }
        }
        i += 1;
    }
    proof {
        assert(all.take(cands.len() as int) =~= all);
    }
    best
}

/// The nearest candidate that is close enough to be a typo; the first one wins a tie.
/// Case does not matter.
pub fn closest<'a>(word: &str, candidates: &[&'a str]) -> (r: Option<&'a str>)
    ensures
        ({
            let lowered = candidates@.map_values(|c: &str| lowercase(c@));
            match spec_pick(lowercase(word@), typo_limit(word@.len()), lowered) {
                Some(k) => r == Some(candidates@[k]),
                None => r is None,
            }
        }),
{
    let n = chars_of(word).len();
    let limit: usize = if n <= 2 {
        1
    } else if n <= 5 {
        2
    } else {
        3
    };
    let lw = to_lowercase(word);
    let wchars = chars_of(lw.as_str());
    let mut lowered: Vec<Vec<char>> = Vec::new();
    let mut i: usize = 0;
    while i < candidates.len()
        invariant
            i <= candidates@.len(),
            lowered@.len() == i,
            forall|k: int| 0 <= k < i ==> #[trigger] lowered@[k]@ == lowercase(candidates@[k]@),
        decreases candidates@.len() - i,
    {
        let l = to_lowercase(candidates[i]);
        lowered.push(chars_of(l.as_str()));
        i += 1;
    }
    proof {
        let a = lowered@.map_values(|c: Vec<char>| c@);
        let b = candidates@.map_values(|c: &str| lowercase(c@));
        assert(a =~= b);
    }
    match pick_closest(wchars.as_slice(), limit, &lowered) {
        Some(k) => {
            proof {
                lemma_pick_range(
                    lowercase(word@),
                    typo_limit(word@.len()),
                    candidates@.map_values(|c: &str| lowercase(c@)),
                );
            }
            Some(candidates[k])
        },
        None => None,
    }
}

} // verus!
