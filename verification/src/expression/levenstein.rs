use vstd::prelude::*;

verus! {

/// The edit distance between the first `i` characters of `a` and the first
/// `j` characters of `b`: the least number of single-character insertions,
/// deletions and substitutions turning one into the other.
pub open spec fn edit_distance_prefix(a: Seq<char>, b: Seq<char>, i: int, j: int) -> int
    decreases i + j,
{
    if i <= 0 {
        if j <= 0 {
            0
        } else {
            j
        }
    } else if j <= 0 {
        i
    } else {
        let deletion = edit_distance_prefix(a, b, i - 1, j) + 1;
        let insertion = edit_distance_prefix(a, b, i, j - 1) + 1;
        let substitution = edit_distance_prefix(a, b, i - 1, j - 1) + (if a[i - 1] == b[j - 1] {
            0int
        } else {
            1int
        });
        min3(deletion, insertion, substitution)
    }
}

pub open spec fn min3(x: int, y: int, z: int) -> int {
    if x <= y && x <= z {
        x
    } else if y <= z {
        y
    } else {
        z
    }
}

/// The edit distance between two character sequences.
pub open spec fn edit_distance(a: Seq<char>, b: Seq<char>) -> int {
    edit_distance_prefix(a, b, a.len() as int, b.len() as int)
}

/// The distance never exceeds rewriting everything: delete all of one
/// prefix, insert all of the other.
pub proof fn lemma_edit_distance_bound(a: Seq<char>, b: Seq<char>, i: int, j: int)
    requires
        0 <= i,
        0 <= j,
    ensures
        0 <= edit_distance_prefix(a, b, i, j) <= i + j,
    decreases i + j,
{
    if i > 0 && j > 0 {
        lemma_edit_distance_bound(a, b, i - 1, j);
        lemma_edit_distance_bound(a, b, i, j - 1);
        lemma_edit_distance_bound(a, b, i - 1, j - 1);
    }
}

/// Computes the edit distance by the classic row-by-row dynamic programme.
pub fn distance(a: &Vec<char>, b: &Vec<char>) -> (r: usize)
    requires
        a@.len() + b@.len() < usize::MAX,
    ensures
        r == edit_distance(a@, b@),
{
    let n = b.len();
    let mut prev: Vec<usize> = Vec::new();
    let mut j: usize = 0;
    while j <= n
        invariant
            j <= n + 1,
            n == b@.len(),
            a@.len() + b@.len() < usize::MAX,
            prev@.len() == j,
            forall|q: int| 0 <= q < j ==> prev@[q] == edit_distance_prefix(a@, b@, 0, q),
        decreases n + 1 - j,
    {
        prev.push(j);
        j += 1;
    }
    let mut i: usize = 1;
    while i <= a.len()
        invariant
            1 <= i <= a@.len() + 1,
            n == b@.len(),
            a@.len() + b@.len() < usize::MAX,
            prev@.len() == n + 1,
            forall|q: int| 0 <= q <= n ==> prev@[q] == edit_distance_prefix(a@, b@, i - 1, q),
        decreases a@.len() + 1 - i,
    {
        let mut cur: Vec<usize> = Vec::new();
        cur.push(i);
        proof {
            assert(cur@[0] == edit_distance_prefix(a@, b@, i as int, 0));
        }
        let mut j: usize = 1;
        while j <= n
            invariant
                1 <= i <= a@.len(),
                1 <= j <= n + 1,
                n == b@.len(),
                a@.len() + b@.len() < usize::MAX,
                prev@.len() == n + 1,
                forall|q: int| 0 <= q <= n ==> prev@[q] == edit_distance_prefix(a@, b@, i - 1, q),
                cur@.len() == j,
                forall|q: int| 0 <= q < j ==> cur@[q] == edit_distance_prefix(a@, b@, i as int, q),
            decreases n + 1 - j,
        {
            proof {
                lemma_edit_distance_bound(a@, b@, i - 1, j as int);
                lemma_edit_distance_bound(a@, b@, i as int, j - 1);
                lemma_edit_distance_bound(a@, b@, i - 1, j - 1);
            }
            let deletion = prev[j] + 1;
            let insertion = cur[j - 1] + 1;
            let cost: usize = if a[i - 1] == b[j - 1] {
                0
            } else {
                1
            };
            let substitution = prev[j - 1] + cost;
            let best = if deletion <= insertion && deletion <= substitution {
                deletion
            } else if insertion <= substitution {
                insertion
            } else {
                substitution
            };
            cur.push(best);
            j += 1;
        }
        prev = cur;
        i += 1;
    }
    prev[n]
}

} // verus!
