//! The table of longest-common-subsequence lengths.

use vstd::prelude::*;
use crate::token::Token;

verus! {

/// Length of the longest common subsequence of the first `i` tokens of
/// `before` and the first `j` tokens of `after`.
pub open spec fn lcs_len<K>(before: Seq<K>, after: Seq<K>, i: int, j: int) -> nat
    decreases i + j,
{
    if i <= 0 || j <= 0 {
        0
    } else if before[i - 1] == after[j - 1] {
        lcs_len(before, after, i - 1, j - 1) + 1
    } else {
        let skip_before = lcs_len(before, after, i - 1, j);
        let skip_after = lcs_len(before, after, i, j - 1);
        if skip_before >= skip_after {
            skip_before
        } else {
            skip_after
        }
    }
}

/// `table` has one row per prefix of `before` and one column per prefix of
/// `after`, and cell `(i, j)` holds `lcs_len(before, after, i, j)`.
pub open spec fn is_lcs_table<K>(table: Seq<Vec<usize>>, before: Seq<K>, after: Seq<K>) -> bool {
    &&& table.len() == before.len() + 1
    &&& forall|i: int| 0 <= i <= before.len() ==> (#[trigger] table[i]).len() == after.len() + 1
    &&& forall|i: int, j: int|
        0 <= i <= before.len() && 0 <= j <= after.len() ==> #[trigger] table[i][j] == lcs_len(
            before,
            after,
            i,
            j,
        )
}

/// A common subsequence is no longer than either prefix it is drawn from.
pub proof fn lemma_lcs_len_bounded<K>(before: Seq<K>, after: Seq<K>, i: int, j: int)
    requires
        0 <= i,
        0 <= j,
    ensures
        lcs_len(before, after, i, j) <= i,
        lcs_len(before, after, i, j) <= j,
    decreases i + j,
{
    if i > 0 && j > 0 {
        lemma_lcs_len_bounded(before, after, i - 1, j - 1);
        lemma_lcs_len_bounded(before, after, i - 1, j);
        lemma_lcs_len_bounded(before, after, i, j - 1);
    }
}

/// `picks` lists, in increasing order, places of `full` at which the tokens
/// of `sub` stand, one place per token.
pub open spec fn embeds<K>(sub: Seq<K>, full: Seq<K>, picks: Seq<int>) -> bool {
    &&& picks.len() == sub.len()
    &&& forall|k: int|
        0 <= k < picks.len() ==> 0 <= #[trigger] picks[k] < full.len() && full[picks[k]] == sub[k]
    &&& forall|k: int, l: int| 0 <= k < l < picks.len() ==> picks[k] < picks[l]
}

/// `sub` is what is left of `full` after dropping some of its tokens.
pub open spec fn is_subsequence<K>(sub: Seq<K>, full: Seq<K>) -> bool {
    exists|picks: Seq<int>| embeds(sub, full, picks)
}

/// A sequence found, by the given places, in both the first `i` tokens of
/// `before` and the first `j` tokens of `after` is no longer than
/// `lcs_len(before, after, i, j)`.
pub proof fn lemma_common_subsequence_bounded<K>(
    before: Seq<K>,
    after: Seq<K>,
    i: int,
    j: int,
    common: Seq<K>,
    in_before: Seq<int>,
    in_after: Seq<int>,
)
    requires
        0 <= i <= before.len(),
        0 <= j <= after.len(),
        embeds(common, before.take(i), in_before),
        embeds(common, after.take(j), in_after),
    ensures
        common.len() <= lcs_len(before, after, i, j),
    decreases i + j,
{
    if common.len() == 0 {
    } else if i == 0 {
        assert(0 <= in_before[0] < before.take(i).len());
    } else if j == 0 {
        assert(0 <= in_after[0] < after.take(j).len());
    } else {
        let last = common.len() - 1;
        assert(0 <= in_before[last] < before.take(i).len());
        assert(0 <= in_after[last] < after.take(j).len());
        if before[i - 1] == after[j - 1] {
            let shorter = common.drop_last();
            assert forall|k: int| 0 <= k < last implies in_before[k] < i - 1 by {
                assert(in_before[k] < in_before[last]);
            }
            assert forall|k: int| 0 <= k < last implies in_after[k] < j - 1 by {
                assert(in_after[k] < in_after[last]);
            }
            assert(embeds(shorter, before.take(i - 1), in_before.drop_last()));
            assert(embeds(shorter, after.take(j - 1), in_after.drop_last()));
            lemma_common_subsequence_bounded(
                before,
                after,
                i - 1,
                j - 1,
                shorter,
                in_before.drop_last(),
                in_after.drop_last(),
            );
        } else if in_before[last] < i - 1 {
            assert forall|k: int| 0 <= k < common.len() implies in_before[k] < i - 1 by {
                if k < last {
                    assert(in_before[k] < in_before[last]);
                }
            }
            assert(embeds(common, before.take(i - 1), in_before));
            lemma_common_subsequence_bounded(before, after, i - 1, j, common, in_before, in_after);
        } else {
            // The last common token stands last in `before`, so it is not the
            // last token of `after`, and stands earlier there.
            assert(before.take(i)[in_before[last]] == common[last]);
            assert(after.take(j)[in_after[last]] == common[last]);
            assert(in_after[last] < j - 1);
            assert forall|k: int| 0 <= k < common.len() implies in_after[k] < j - 1 by {
                if k < last {
                    assert(in_after[k] < in_after[last]);
                }
            }
            assert(embeds(common, after.take(j - 1), in_after));
            lemma_common_subsequence_bounded(before, after, i, j - 1, common, in_before, in_after);
        }
    }
}

/// No common subsequence of the first `i` tokens of `before` and the first
/// `j` tokens of `after` is longer than `lcs_len(before, after, i, j)`.
pub proof fn law_lcs_len_is_an_upper_bound<K>(
    before: Seq<K>,
    after: Seq<K>,
    i: int,
    j: int,
    common: Seq<K>,
)
    requires
        0 <= i <= before.len(),
        0 <= j <= after.len(),
        is_subsequence(common, before.take(i)),
        is_subsequence(common, after.take(j)),
    ensures
        common.len() <= lcs_len(before, after, i, j),
{
    let in_before = choose|picks: Seq<int>| embeds(common, before.take(i), picks);
    let in_after = choose|picks: Seq<int>| embeds(common, after.take(j), picks);
    lemma_common_subsequence_bounded(before, after, i, j, common, in_before, in_after);
}

/// Builds the table of common-subsequence lengths, with one row per prefix of
/// `old_text` and one column per prefix of `new_text`.
pub fn compute_lcs_matrix_dp<T: Token>(new_text: &Vec<T>, old_text: &Vec<T>) -> (table: Vec<
    Vec<usize>,
>)
    requires
        new_text.len() < usize::MAX,
        old_text.len() < usize::MAX,
    ensures
        is_lcs_table(table@, old_text.deep_view(), new_text.deep_view()),
{
    let ghost before = old_text.deep_view();
    let ghost after = new_text.deep_view();
    let n: usize = old_text.len();
    let m: usize = new_text.len();
    let mut table: Vec<Vec<usize>> = Vec::new();
    let mut i: usize = 0;
    while i <= n
        invariant
            n == old_text.len(),
            m == new_text.len(),
            n < usize::MAX,
            m < usize::MAX,
            before == old_text.deep_view(),
            after == new_text.deep_view(),
            0 <= i <= n + 1,
            table.len() == i,
            forall|r: int| 0 <= r < i ==> (#[trigger] table[r]).len() == m + 1,
            forall|r: int, c: int|
                0 <= r < i && 0 <= c <= m ==> #[trigger] table[r][c] == lcs_len(
                    before,
                    after,
                    r,
                    c,
                ),
        decreases n + 1 - i,
    {
        let mut row: Vec<usize> = Vec::new();
        let mut j: usize = 0;
        while j <= m
            invariant
                n == old_text.len(),
                m == new_text.len(),
                m < usize::MAX,
                before == old_text.deep_view(),
                after == new_text.deep_view(),
                0 <= i <= n,
                0 <= j <= m + 1,
                table.len() == i,
                row.len() == j,
                forall|r: int| 0 <= r < i ==> (#[trigger] table[r]).len() == m + 1,
                forall|r: int, c: int|
                    0 <= r < i && 0 <= c <= m ==> #[trigger] table[r][c] == lcs_len(
                        before,
                        after,
                        r,
                        c,
                    ),
                forall|c: int| 0 <= c < j ==> #[trigger] row[c] == lcs_len(before, after, i as int, c),
            decreases m + 1 - j,
        {
            let cell: usize = if i == 0 || j == 0 {
                0
            } else if old_text[i - 1].same(&new_text[j - 1]) {
                proof {
                    lemma_lcs_len_bounded(before, after, i - 1, j - 1);
                }
                table[i - 1][j - 1] + 1
            } else {
                let skip_old: usize = table[i - 1][j];
                let skip_new: usize = row[j - 1];
                if skip_old >= skip_new {
                    skip_old
                } else {
                    skip_new
                }
            };
            row.push(cell);
            j += 1;
        }
        table.push(row);
        i += 1;
    }
    table
}

/// The length of the longest common subsequence of the first `i` characters
/// of `text1` and the first `j` characters of `text2`, by plain recursion.
pub fn compute_lcs_len_recursive(i: usize, j: usize, text1: &Vec<char>, text2: &Vec<char>) -> (len:
    usize)
    requires
        i <= text1.len(),
        j <= text2.len(),
    ensures
        len == lcs_len(text1@, text2@, i as int, j as int),
    decreases i + j,
{
    if i == 0 || j == 0 {
        return 0;
    }
    if text1[i - 1] == text2[j - 1] {
        proof {
            lemma_lcs_len_bounded(text1@, text2@, i - 1, j - 1);
        }
        return 1 + compute_lcs_len_recursive(i - 1, j - 1, text1, text2);
    }
    let skip1: usize = compute_lcs_len_recursive(i - 1, j, text1, text2);
    let skip2: usize = compute_lcs_len_recursive(i, j - 1, text1, text2);
    if skip1 >= skip2 {
        skip1
    } else {
        skip2
    }
}

} // verus!
