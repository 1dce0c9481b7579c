//! Patches by edit distance: the cheapest way to turn one text into another
//! by removing and adding single characters.

use vstd::prelude::*;
use crate::differ::Differ;
use crate::lcs::lcs_len;
use crate::text::chars_of;

verus! {

/// The cost of turning the first `i` characters of `a` into the first `j`
/// characters of `b`, where removing a character costs one, adding a
/// character costs one and a shared character costs nothing.
pub open spec fn indel_distance(a: Seq<char>, b: Seq<char>, i: int, j: int) -> nat
    decreases i + j,
    when 0 <= i && 0 <= j
{
    if i == 0 {
        j as nat
    } else if j == 0 {
        i as nat
    } else if a[i - 1] == b[j - 1] {
        indel_distance(a, b, i - 1, j - 1)
    } else {
        let remove = indel_distance(a, b, i - 1, j);
        let add = indel_distance(a, b, i, j - 1);
        if add < remove {
            add + 1
        } else {
            remove + 1
        }
    }
}

/// The last step on the way from the first `i` characters of `a` to the first
/// `j` characters of `b`: `'I'` leaves a shared last character alone, `'A'`
/// adds the last character of `b`, `'R'` removes the last character of `a`.
/// Where adding and removing cost the same, the character is removed.
pub open spec fn indel_action(a: Seq<char>, b: Seq<char>, i: int, j: int) -> char {
    if i == 0 && j == 0 {
        'I'
    } else if j == 0 {
        'R'
    } else if i == 0 {
        'A'
    } else if a[i - 1] == b[j - 1] {
        'I'
    } else if indel_distance(a, b, i, j - 1) < indel_distance(a, b, i - 1, j) {
        'A'
    } else {
        'R'
    }
}

/// The additions and removals on the way from the first `i` characters of `a`
/// to the first `j` characters of `b`, last step first.  Each names its
/// action, the index of its character in the text it belongs to, and the
/// character.
pub open spec fn indel_patch(a: Seq<char>, b: Seq<char>, i: int, j: int) -> Seq<(char, usize, char)>
    decreases i + j,
    when 0 <= i && 0 <= j
{
    if i == 0 && j == 0 {
        Seq::empty()
    } else if indel_action(a, b, i, j) == 'A' {
        seq![('A', (j - 1) as usize, b[j - 1])] + indel_patch(a, b, i, j - 1)
    } else if indel_action(a, b, i, j) == 'R' {
        seq![('R', (i - 1) as usize, a[i - 1])] + indel_patch(a, b, i - 1, j)
    } else {
        indel_patch(a, b, i - 1, j - 1)
    }
}

/// Turning one prefix into another never takes more steps than removing all
/// of the first and adding all of the second.
pub proof fn lemma_indel_distance_bounded(a: Seq<char>, b: Seq<char>, i: int, j: int)
    requires
        0 <= i,
        0 <= j,
    ensures
        indel_distance(a, b, i, j) <= i + j,
    decreases i + j,
{
    if i > 0 && j > 0 {
        lemma_indel_distance_bounded(a, b, i - 1, j - 1);
        lemma_indel_distance_bounded(a, b, i - 1, j);
        lemma_indel_distance_bounded(a, b, i, j - 1);
    }
}

/// Every character outside a longest common subsequence is either removed or
/// added, and no other: the distance is what the two prefixes hold together,
/// less twice what they share.
pub proof fn law_indel_distance_by_lcs(a: Seq<char>, b: Seq<char>, i: int, j: int)
    requires
        0 <= i,
        0 <= j,
    ensures
        indel_distance(a, b, i, j) == i + j - 2 * lcs_len(a, b, i, j),
    decreases i + j,
{
    if i > 0 && j > 0 {
        law_indel_distance_by_lcs(a, b, i - 1, j - 1);
        law_indel_distance_by_lcs(a, b, i - 1, j);
        law_indel_distance_by_lcs(a, b, i, j - 1);
    }
}

/// A patch has as many entries as the distance it covers.
pub proof fn law_indel_patch_len(a: Seq<char>, b: Seq<char>, i: int, j: int)
    requires
        0 <= i,
        0 <= j,
    ensures
        indel_patch(a, b, i, j).len() == indel_distance(a, b, i, j),
    decreases i + j,
{
    if i > 0 || j > 0 {
        if indel_action(a, b, i, j) == 'A' {
            law_indel_patch_len(a, b, i, j - 1);
        } else if indel_action(a, b, i, j) == 'R' {
            law_indel_patch_len(a, b, i - 1, j);
        } else {
            law_indel_patch_len(a, b, i - 1, j - 1);
        }
    }
}

impl Differ {
    /// What to add and what to remove to turn `text1` into `text2` in the
    /// fewest steps, last step first.
    pub fn diff_by_lev(text1: String, text2: String) -> (patch: Vec<(char, usize, char)>)
        requires
            text1@.len() + text2@.len() < usize::MAX,
        ensures
            patch@ == indel_patch(text1@, text2@, text1@.len() as int, text2@.len() as int),
    {
        let c1 = chars_of(text1.as_str());
        let c2 = chars_of(text2.as_str());
        let n: usize = c1.len();
        let m: usize = c2.len();
        let mut table: Vec<Vec<usize>> = Vec::new();
        let mut actions: Vec<Vec<char>> = Vec::new();
        let mut i: usize = 0;
        while i <= n
            invariant
                n == c1.len(),
                m == c2.len(),
                n + m < usize::MAX,
                0 <= i <= n + 1,
                table.len() == i,
                actions.len() == i,
                forall|r: int| 0 <= r < i ==> (#[trigger] table[r]).len() == m + 1,
                forall|r: int| 0 <= r < i ==> (#[trigger] actions[r]).len() == m + 1,
                forall|r: int, c: int|
                    0 <= r < i && 0 <= c <= m ==> #[trigger] table[r][c] == indel_distance(
                        c1@,
                        c2@,
                        r,
                        c,
                    ),
                forall|r: int, c: int|
                    0 <= r < i && 0 <= c <= m ==> #[trigger] actions[r][c] == indel_action(
                        c1@,
                        c2@,
                        r,
                        c,
                    ),
            decreases n + 1 - i,
        {
            let mut costs: Vec<usize> = Vec::new();
            let mut steps: Vec<char> = Vec::new();
            let mut j: usize = 0;
            while j <= m
                invariant
                    n == c1.len(),
                    m == c2.len(),
                    n + m < usize::MAX,
                    0 <= i <= n,
                    0 <= j <= m + 1,
                    table.len() == i,
                    costs.len() == j,
                    steps.len() == j,
                    forall|r: int| 0 <= r < i ==> (#[trigger] table[r]).len() == m + 1,
                    forall|r: int, c: int|
                        0 <= r < i && 0 <= c <= m ==> #[trigger] table[r][c] == indel_distance(
                            c1@,
                            c2@,
                            r,
                            c,
                        ),
                    forall|c: int|
                        0 <= c < j ==> #[trigger] costs[c] == indel_distance(c1@, c2@, i as int, c),
                    forall|c: int|
                        0 <= c < j ==> #[trigger] steps[c] == indel_action(c1@, c2@, i as int, c),
                decreases m + 1 - j,
            {
                if i == 0 && j == 0 {
                    costs.push(0);
                    steps.push('I');
                } else if j == 0 {
                    costs.push(i);
                    steps.push('R');
                } else if i == 0 {
                    costs.push(j);
                    steps.push('A');
                } else if c1[i - 1] == c2[j - 1] {
                    costs.push(table[i - 1][j - 1]);
                    steps.push('I');
                } else {
                    let remove: usize = table[i - 1][j];
                    let add: usize = costs[j - 1];
                    proof {
                        lemma_indel_distance_bounded(c1@, c2@, i - 1, j as int);
                        lemma_indel_distance_bounded(c1@, c2@, i as int, j - 1);
                    }
                    if add < remove {
                        costs.push(add + 1);
                        steps.push('A');
                    } else {
                        costs.push(remove + 1);
                        steps.push('R');
                    }
                }
                j += 1;
            }
            table.push(costs);
            actions.push(steps);
            i += 1;
        }
        let mut patch: Vec<(char, usize, char)> = Vec::new();
        let mut n1: usize = n;
        let mut n2: usize = m;
        while n1 > 0 || n2 > 0
            invariant
                c1@ == text1@,
                c2@ == text2@,
                n == c1.len(),
                m == c2.len(),
                0 <= n1 <= n,
                0 <= n2 <= m,
                actions.len() == n + 1,
                forall|r: int| 0 <= r <= n ==> (#[trigger] actions[r]).len() == m + 1,
                forall|r: int, c: int|
                    0 <= r <= n && 0 <= c <= m ==> #[trigger] actions[r][c] == indel_action(
                        c1@,
                        c2@,
                        r,
                        c,
                    ),
                patch@ + indel_patch(c1@, c2@, n1 as int, n2 as int) == indel_patch(
                    c1@,
                    c2@,
                    n as int,
                    m as int,
                ),
            decreases n1 + n2,
        {
            let action: char = actions[n1][n2];
            if action == 'A' {
                n2 -= 1;
                patch.push(('A', n2, c2[n2]));
            } else if action == 'R' {
                n1 -= 1;
                patch.push(('R', n1, c1[n1]));
            } else {
                n1 -= 1;
                n2 -= 1;
            }
        }
        patch
    }
}

} // verus!
