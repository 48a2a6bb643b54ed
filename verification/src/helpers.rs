use vstd::prelude::*;

verus! {

/// The edit distance between two texts: the minimum number of
/// single-character insertions, deletions, and substitutions required to
/// change one into the other.
pub open spec fn edit_distance(a: Seq<char>, b: Seq<char>) -> nat
    decreases a.len(), b.len(),
{
    if a.len() == 0 {
        b.len()
    } else if b.len() == 0 {
        a.len()
    } else if a[0] == b[0] {
        edit_distance(a.drop_first(), b.drop_first())
    } else {
        let subst = edit_distance(a.drop_first(), b.drop_first());
        let del = edit_distance(a.drop_first(), b);
        let ins = edit_distance(a, b.drop_first());
        1 + (if del <= ins && del <= subst {
            del
        } else if ins <= subst {
            ins
        } else {
            subst
        })
    }
}

/// Relies on strsim::levenshtein: the minimum number of single-character
/// insertions, deletions, and substitutions required to change one
/// string into the other.
#[verifier::external_body]
fn levenshtein_distance(a: &str, b: &str) -> (r: usize)
    ensures
        r as nat == edit_distance(a@, b@),
{
    strsim::levenshtein(a, b)
}

/// The most similar known ID, used by callers to suggest a correction
/// for an ID that was not found: the first candidate with the least edit
/// distance to the target, provided that distance is at most two.
pub fn find_similar_id<'a>(target: &str, candidates: &Vec<&'a str>) -> (r: Option<&'a str>)
    ensures
        match r {
            Some(c) => exists|j: int|
                0 <= j < candidates@.len() && candidates@[j]@ == c@ && edit_distance(target@, c@)
                    <= 2 && (forall|k: int|
                    0 <= k < candidates@.len() ==> edit_distance(
                        target@,
                        #[trigger] candidates@[k]@,
                    ) >= edit_distance(target@, c@)) && (forall|k: int|
                    0 <= k < j ==> edit_distance(target@, #[trigger] candidates@[k]@)
                        > edit_distance(target@, c@)),
            None => forall|k: int|
                0 <= k < candidates@.len() ==> edit_distance(target@, #[trigger] candidates@[k]@)
                    > 2,
        },
{
    let mut best: usize = 0;
    let mut best_dist: usize = 0;
    let mut found = false;
    let mut i: usize = 0;
    while i < candidates.len()
        invariant
            i <= candidates@.len(),
            found ==> best < i && best_dist as nat == edit_distance(target@, candidates@[best as int]@)
                && best_dist <= 2 && (forall|k: int|
                0 <= k < i ==> edit_distance(target@, #[trigger] candidates@[k]@)
                    >= best_dist as nat) && (forall|k: int|
                0 <= k < best ==> edit_distance(target@, #[trigger] candidates@[k]@)
                    > best_dist as nat),
            !found ==> (forall|k: int|
                0 <= k < i ==> edit_distance(target@, #[trigger] candidates@[k]@) > 2),
        decreases candidates@.len() - i,
    {
        let d = levenshtein_distance(target, candidates[i]);
        if d <= 2 && (!found || d < best_dist) {
            best = i;
            best_dist = d;
            found = true;
        }
        i = i + 1;
    }
    if found {
        Some(candidates[best])
    } else {
        None
    }
}

} // verus!
