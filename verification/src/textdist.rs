//! Small string edit-distance helpers, shared by the config linter
//! (`config::diagnose`) and any vocabulary term-consistency pass. Both need the
//! same "is this a likely typo of a known spelling?" judgment, so the metric
//! lives in one place.
use vstd::prelude::*;
use vstd::std_specs::iter::IteratorSpec;

verus! {

/// The smallest of three integers.
pub open spec fn min3(a: int, b: int, c: int) -> int {
    let ab = if a <= b { a } else { b };
    if ab <= c { ab } else { c }
}

/// Levenshtein edit distance between two character sequences: the least number
/// of single-character insertions, deletions and substitutions that turn `a`
/// into `b`, defined by the classic recurrence on the last characters.
pub open spec fn edit_distance(a: Seq<char>, b: Seq<char>) -> nat
    decreases a.len() + b.len(),
{
    if a.len() == 0 {
        b.len()
    } else if b.len() == 0 {
        a.len()
    } else {
        let cost: int = if a.last() == b.last() { 0 } else { 1 };
        min3(
            edit_distance(a.drop_last(), b.drop_last()) as int + cost,
            edit_distance(a.drop_last(), b) as int + 1,
            edit_distance(a, b.drop_last()) as int + 1,
        ) as nat
    }
}

/// The typo window: a distance of one or two edits. Zero is an exact match,
/// which is deliberately not a typo.
pub open spec fn is_typo_distance(d: nat) -> bool {
    1 <= d <= 2
}

/// The index `nearest` picks among the first `n` candidates: the first one whose
/// distance to `key` is in the typo window and smallest among those.
pub open spec fn nearest_index(key: Seq<char>, cands: Seq<Seq<char>>, n: int) -> Option<int>
    decreases n,
{
    if n <= 0 {
        None
    } else {
        let prev = nearest_index(key, cands, n - 1);
        let d = edit_distance(key, cands[n - 1]);
        if is_typo_distance(d) && (prev is None || d < edit_distance(key, cands[prev->0])) {
            Some(n - 1)
        } else {
            prev
        }
    }
}

/// The spelling `nearest` suggests for `key` among `cands`, if any.
pub open spec fn nearest_spec(key: Seq<char>, cands: Seq<Seq<char>>) -> Option<Seq<char>> {
    match nearest_index(key, cands, cands.len() as int) {
        Some(i) => Some(cands[i]),
        None => None,
    }
}

/// An edit distance never exceeds the longer of the two lengths.
pub proof fn lemma_edit_distance_bound(a: Seq<char>, b: Seq<char>)
    ensures
        edit_distance(a, b) <= if a.len() >= b.len() { a.len() } else { b.len() },
    decreases a.len() + b.len(),
{
    if a.len() > 0 && b.len() > 0 {
        lemma_edit_distance_bound(a.drop_last(), b.drop_last());
    }
}

/// What `nearest_index` picks, stated without the fold: the pick is in range, in
/// the typo window, no other candidate in the window is closer, and every
/// earlier candidate in the window is strictly farther; no pick means no
/// candidate is in the window.
pub proof fn lemma_nearest_index(key: Seq<char>, cands: Seq<Seq<char>>, n: int)
    requires
        0 <= n <= cands.len(),
    ensures
        match nearest_index(key, cands, n) {
            Some(i) => {
                &&& 0 <= i < n
                &&& is_typo_distance(edit_distance(key, cands[i]))
                &&& forall|j: int|
                    0 <= j < n && is_typo_distance(#[trigger] edit_distance(key, cands[j]))
                        ==> edit_distance(key, cands[i]) <= edit_distance(key, cands[j])
                &&& forall|j: int|
                    0 <= j < i && is_typo_distance(#[trigger] edit_distance(key, cands[j]))
                        ==> edit_distance(key, cands[i]) < edit_distance(key, cands[j])
            },
            None => forall|j: int|
                0 <= j < n ==> !is_typo_distance(#[trigger] edit_distance(key, cands[j])),
        },
    decreases n,
{
    if n > 0 {
        lemma_nearest_index(key, cands, n - 1);
    }
}

/// The characters of `s`, in order.
pub fn chars_of(s: &str) -> (r: Vec<char>)
    ensures
        r@ == s@,
{
    broadcast use vstd::string::group_string_axioms;
    let mut out: Vec<char> = Vec::new();
    let mut it = s.chars();
    loop
        invariant
            it.obeys_prophetic_iter_laws(),
            it.decrease() is Some,
            out@ + it.remaining() == s@,
        decreases it.decrease()->0,
    {
        let ghost before = it.remaining();
        match it.next() {
            Some(c) => {
                proof {
                    assert(out@.push(c) + it.remaining() =~= out@ + before);
                }
                out.push(c);
            },
            None => {
                proof {
                    assert(out@ + it.remaining() =~= out@);
                }
                return out;
            },
        }
    }
}

/// Levenshtein edit distance: the classic two-row dynamic program.
pub fn levenshtein(a: &str, b: &str) -> (d: usize)
    ensures
        d == edit_distance(a@, b@),
{
    let av = chars_of(a);
    let bv = chars_of(b);
    let ghost sa = av@;
    let ghost sb = bv@;
    let blen = bv.len();
    let mut prev: Vec<usize> = Vec::new();
    let mut curr: Vec<usize> = Vec::new();
    prev.push(0);
    curr.push(0);
    for k in 0..blen
        invariant
            blen == sb.len(),
            prev@.len() == k + 1,
            curr@.len() == k + 1,
            forall|j: int| 0 <= j <= k ==> #[trigger] prev@[j] == j,
    {
        prev.push(k + 1);
        curr.push(0);
    }
    assert forall|j: int| 0 <= j <= blen implies #[trigger] prev@[j] == edit_distance(
        sa.take(0),
        sb.take(j),
    ) by {
        assert(sa.take(0).len() == 0);
        assert(prev@[j] == j);
    }
    let alen = av.len();
    let mut i: usize = 0;
    while i < alen
        invariant
            alen == sa.len(),
            blen == sb.len(),
            av@ == sa,
            bv@ == sb,
            i <= alen,
            prev@.len() == blen + 1,
            curr@.len() == blen + 1,
            forall|j: int| 0 <= j <= blen ==> #[trigger] prev@[j] == edit_distance(sa.take(i as int), sb.take(j)),
        decreases alen - i,
    {
        let ca = av[i];
        curr.set(0, i + 1);
        proof {
            assert(sb.take(0).len() == 0);
        }
        let mut j: usize = 0;
        while j < blen
            invariant
                alen == sa.len(),
                blen == sb.len(),
                av@ == sa,
                bv@ == sb,
                i < alen,
                ca == sa[i as int],
                j <= blen,
                prev@.len() == blen + 1,
                curr@.len() == blen + 1,
                forall|m: int| 0 <= m <= blen ==> #[trigger] prev@[m] == edit_distance(sa.take(i as int), sb.take(m)),
                forall|m: int| 0 <= m <= j ==> #[trigger] curr@[m] == edit_distance(sa.take(i + 1), sb.take(m)),
            decreases blen - j,
        {
            let cb = bv[j];
            let ghost x = sa.take(i + 1);
            let ghost y = sb.take(j + 1);
            proof {
                assert(x.drop_last() =~= sa.take(i as int));
                assert(y.drop_last() =~= sb.take(j as int));
                assert(x.last() == ca);
                assert(y.last() == cb);
                lemma_edit_distance_bound(sa.take(i as int), sb.take(j as int));
                lemma_edit_distance_bound(sa.take(i as int), sb.take(j + 1));
                lemma_edit_distance_bound(sa.take(i + 1), sb.take(j as int));
            }
            let cost: usize = if ca == cb { 0 } else { 1 };
            let mut best = prev[j] + cost;
            if prev[j + 1] < best {
                best = prev[j + 1] + 1;
            }
            if curr[j] < best {
                best = curr[j] + 1;
            }
            curr.set(j + 1, best);
            j = j + 1;
        }
        std::mem::swap(&mut prev, &mut curr);
        i = i + 1;
    }
    proof {
        assert(sa.take(alen as int) =~= sa);
        assert(sb.take(blen as int) =~= sb);
    }
    prev[blen]
}

/// The candidate in `candidates` that most resembles `key`, when one is within a
/// small edit distance (a likely typo), else `None`. Distance is measured
/// case-sensitively so a case-only slip surfaces its canonical spelling. The
/// threshold (two edits) is deliberately tight, and an exact match (distance 0)
/// is never reported. Among equally close candidates the first one wins.
pub fn nearest(key: &str, candidates: &[&str]) -> (r: Option<String>)
    ensures
        r matches Some(s) ==> nearest_spec(key@, candidates@.map_values(|c: &str| c@)) == Some(s@),
        r is None <==> nearest_spec(key@, candidates@.map_values(|c: &str| c@)) is None,
{
    let ghost cands = candidates@.map_values(|c: &str| c@);
    let mut best: Option<usize> = None;
    let mut best_d: usize = 0;
    let mut i: usize = 0;
    while i < candidates.len()
        invariant
            cands == candidates@.map_values(|c: &str| c@),
            i <= candidates.len(),
            best is None <==> nearest_index(key@, cands, i as int) is None,
            best matches Some(b) ==> nearest_index(key@, cands, i as int) == Some(b as int),
            best matches Some(b) ==> b < i && best_d == edit_distance(key@, cands[b as int]),
        decreases candidates.len() - i,
    {
        let d = levenshtein(key, candidates[i]);
        proof {
            assert(cands[i as int] == candidates@[i as int]@);
        }
        if 1 <= d && d <= 2 && (best.is_none() || d < best_d) {
            best = Some(i);
            best_d = d;
        }
        i = i + 1;
    }
    match best {
        Some(b) => {
            let s = candidates[b].to_string();
            proof {
                assert(cands[b as int] == candidates@[b as int]@);
            }
            Some(s)
        },
        None => None,
    }
}

/// The candidate string (owned) in `candidates` nearest to `key` within the
/// typo threshold: the `String`-slice form of [`nearest`], for callers whose
/// candidate set is built at runtime.
pub fn nearest_owned(key: &str, candidates: &[String]) -> (r: Option<String>)
    ensures
        r matches Some(s) ==> nearest_spec(key@, candidates@.map_values(|c: String| c@)) == Some(s@),
        r is None <==> nearest_spec(key@, candidates@.map_values(|c: String| c@)) is None,
{
    let ghost cands = candidates@.map_values(|c: String| c@);
    let mut best: Option<usize> = None;
    let mut best_d: usize = 0;
    let mut i: usize = 0;
    while i < candidates.len()
        invariant
            cands == candidates@.map_values(|c: String| c@),
            i <= candidates.len(),
            best is None <==> nearest_index(key@, cands, i as int) is None,
            best matches Some(b) ==> nearest_index(key@, cands, i as int) == Some(b as int),
            best matches Some(b) ==> b < i && best_d == edit_distance(key@, cands[b as int]),
        decreases candidates.len() - i,
    {
        let d = levenshtein(key, candidates[i].as_str());
        proof {
            assert(cands[i as int] == candidates@[i as int]@);
        }
        if 1 <= d && d <= 2 && (best.is_none() || d < best_d) {
            best = Some(i);
            best_d = d;
        }
        i = i + 1;
    }
    match best {
        Some(b) => {
            let s = candidates[b].clone();
            proof {
                assert(cands[b as int] == candidates@[b as int]@);
            }
            Some(s)
        },
        None => None,
    }
}

} // verus!
