//! Patches: the insertions and deletions of an edit script, each with the
//! place of its token in the sequence it belongs to.

use vstd::prelude::*;
use crate::lcs::{compute_lcs_matrix_dp, is_lcs_table};
use crate::script::{diff, lemma_projections_push, script, source_of, target_of, Operation};
use crate::token::Token;

verus! {

/// A pair of texts to be compared.
pub struct Differ {
    pub text1: String,
    pub text2: String,
}

/// The insert and delete steps of `ops`, in order.  An insertion is marked
/// `'+'` and carries the index of its token in the sequence the script
/// arrives at; a deletion is marked `'-'` and carries the index of its token
/// in the sequence the script starts from.
pub open spec fn patch_of<K>(ops: Seq<Operation<K>>) -> Seq<(char, usize, K)>
    decreases ops.len(),
{
    if ops.len() == 0 {
        Seq::empty()
    } else {
        let earlier = ops.drop_last();
        match ops.last() {
            Operation::Keep(_) => patch_of(earlier),
            Operation::Insert(t) => patch_of(earlier).push(
                ('+', target_of(earlier).len() as usize, t),
            ),
            Operation::Delete(t) => patch_of(earlier).push(
                ('-', source_of(earlier).len() as usize, t),
            ),
        }
    }
}

/// A prefix of a script spells no more of either sequence than the whole
/// script does.
pub proof fn lemma_prefix_sides<K>(ops: Seq<Operation<K>>, k: int)
    requires
        0 <= k <= ops.len(),
    ensures
        source_of(ops.take(k)).len() <= source_of(ops).len(),
        target_of(ops.take(k)).len() <= target_of(ops).len(),
    decreases ops.len(),
{
    if k == ops.len() {
        assert(ops.take(k) =~= ops);
    } else {
        assert(ops.take(k) =~= ops.drop_last().take(k));
        lemma_prefix_sides(ops.drop_last(), k);
    }
}

impl Differ {
    /// Pairs up two texts.
    pub fn new(text1: String, text2: String) -> (differ: Self)
        ensures
            differ.text1 == text1,
            differ.text2 == text2,
    {
        Differ { text1, text2 }
    }

    /// The table of common-subsequence lengths with one row per prefix of
    /// `text1` and one column per prefix of `text2`.
    pub fn compute_lcs_table<T: Token>(text1: &Vec<T>, text2: &Vec<T>) -> (table: Vec<Vec<usize>>)
        requires
            text1.len() < usize::MAX,
            text2.len() < usize::MAX,
        ensures
            is_lcs_table(table@, text1.deep_view(), text2.deep_view()),
    {
        compute_lcs_matrix_dp(text2, text1)
    }

    /// What to insert and what to delete to turn `text1` into `text2`.
    pub fn diff_by_lcs<T: Token>(text1: &Vec<T>, text2: &Vec<T>) -> (patch: Vec<(char, usize, T)>)
        requires
            text1.len() < usize::MAX,
            text2.len() < usize::MAX,
        ensures
            patch.deep_view() == patch_of(script(text1.deep_view(), text2.deep_view())),
    {
        let ops = diff(text2, text1);
        let ghost steps = ops.deep_view();
        let mut patch: Vec<(char, usize, T)> = Vec::new();
        let mut n: usize = 0;
        let mut m: usize = 0;
        let mut k: usize = 0;
        while k < ops.len()
            invariant
                steps == ops.deep_view(),
                source_of(steps).len() == text1.len(),
                target_of(steps).len() == text2.len(),
                k <= ops.len(),
                n == source_of(steps.take(k as int)).len(),
                m == target_of(steps.take(k as int)).len(),
                patch.deep_view() == patch_of(steps.take(k as int)),
            decreases ops.len() - k,
        {
            let ghost earlier = steps.take(k as int);
            proof {
                assert(steps.take(k + 1).drop_last() =~= earlier);
                lemma_projections_push(earlier, steps[k as int]);
                lemma_prefix_sides(steps, k + 1);
            }
            match &ops[k] {
                Operation::Keep(_) => {
                    n += 1;
                    m += 1;
                },
                Operation::Insert(t) => {
                    let entry = ('+', m, t.dup());
                    patch.push(entry);
                    m += 1;
                },
                Operation::Delete(t) => {
                    let entry = ('-', n, t.dup());
                    patch.push(entry);
                    n += 1;
                },
            }
            k += 1;
        }
        assert(steps.take(k as int) =~= steps);
        patch
    }
}

} // verus!
