//! Edit scripts: the walk back through the table of common-subsequence
//! lengths, and what every script it yields is guaranteed to satisfy.

use vstd::prelude::*;
use crate::lcs::{
    compute_lcs_matrix_dp, embeds, is_lcs_table, is_subsequence, law_lcs_len_is_an_upper_bound,
    lcs_len,
};
use crate::token::Token;

verus! {

/// One step of an edit script.
#[derive(Debug, PartialEq, Eq)]
pub enum Operation<T> {
    /// The token stands in both sequences at this point.
    Keep(T),
    /// The token stands only in the new sequence.
    Insert(T),
    /// The token stands only in the old sequence.
    Delete(T),
}

impl<T: DeepView> DeepView for Operation<T> {
    type V = Operation<T::V>;

    open spec fn deep_view(&self) -> Operation<T::V> {
        match self {
            Operation::Keep(t) => Operation::Keep(t.deep_view()),
            Operation::Insert(t) => Operation::Insert(t.deep_view()),
            Operation::Delete(t) => Operation::Delete(t.deep_view()),
        }
    }
}

/// The edit script that turns the first `i` tokens of `before` into the first
/// `j` tokens of `after`.
///
/// The last step is decided at `(i, j)`: with `before` exhausted the last
/// token of `after` is inserted; with `after` exhausted the last token of
/// `before` is deleted; equal last tokens are kept, always; otherwise the
/// token of `after` is inserted unless dropping the token of `before` leaves
/// a strictly longer common subsequence, in which case that one is deleted.
pub open spec fn edit_script<K>(before: Seq<K>, after: Seq<K>, i: int, j: int) -> Seq<Operation<K>>
    decreases i + j,
    when 0 <= i && 0 <= j
{
    if i == 0 && j == 0 {
        Seq::empty()
    } else if i == 0 {
        edit_script(before, after, 0, j - 1).push(Operation::Insert(after[j - 1]))
    } else if j == 0 {
        edit_script(before, after, i - 1, 0).push(Operation::Delete(before[i - 1]))
    } else if before[i - 1] == after[j - 1] {
        edit_script(before, after, i - 1, j - 1).push(Operation::Keep(before[i - 1]))
    } else if lcs_len(before, after, i - 1, j) <= lcs_len(before, after, i, j - 1) {
        edit_script(before, after, i, j - 1).push(Operation::Insert(after[j - 1]))
    } else {
        edit_script(before, after, i - 1, j).push(Operation::Delete(before[i - 1]))
    }
}

/// The edit script that turns all of `before` into all of `after`.
pub open spec fn script<K>(before: Seq<K>, after: Seq<K>) -> Seq<Operation<K>> {
    edit_script(before, after, before.len() as int, after.len() as int)
}

/// The tokens of the keep and delete steps of `ops`, in order: the sequence
/// that the script starts from.
pub open spec fn source_of<K>(ops: Seq<Operation<K>>) -> Seq<K>
    decreases ops.len(),
{
    if ops.len() == 0 {
        Seq::empty()
    } else {
        match ops.last() {
            Operation::Keep(t) => source_of(ops.drop_last()).push(t),
            Operation::Insert(_) => source_of(ops.drop_last()),
            Operation::Delete(t) => source_of(ops.drop_last()).push(t),
        }
    }
}

/// The tokens of the keep and insert steps of `ops`, in order: the sequence
/// that the script arrives at.
pub open spec fn target_of<K>(ops: Seq<Operation<K>>) -> Seq<K>
    decreases ops.len(),
{
    if ops.len() == 0 {
        Seq::empty()
    } else {
        match ops.last() {
            Operation::Keep(t) => target_of(ops.drop_last()).push(t),
            Operation::Insert(t) => target_of(ops.drop_last()).push(t),
            Operation::Delete(_) => target_of(ops.drop_last()),
        }
    }
}

/// The tokens of the keep steps of `ops`, in order.
pub open spec fn kept<K>(ops: Seq<Operation<K>>) -> Seq<K>
    decreases ops.len(),
{
    if ops.len() == 0 {
        Seq::empty()
    } else {
        match ops.last() {
            Operation::Keep(t) => kept(ops.drop_last()).push(t),
            Operation::Insert(_) => kept(ops.drop_last()),
            Operation::Delete(_) => kept(ops.drop_last()),
        }
    }
}

/// Unfolds the three projections over a script that ends in `op`.
pub proof fn lemma_projections_push<K>(ops: Seq<Operation<K>>, op: Operation<K>)
    ensures
        source_of(ops.push(op)) == match op {
            Operation::Insert(_) => source_of(ops),
            Operation::Keep(t) => source_of(ops).push(t),
            Operation::Delete(t) => source_of(ops).push(t),
        },
        target_of(ops.push(op)) == match op {
            Operation::Delete(_) => target_of(ops),
            Operation::Keep(t) => target_of(ops).push(t),
            Operation::Insert(t) => target_of(ops).push(t),
        },
        kept(ops.push(op)) == match op {
            Operation::Keep(t) => kept(ops).push(t),
            Operation::Insert(_) => kept(ops),
            Operation::Delete(_) => kept(ops),
        },
{
    assert(ops.push(op).drop_last() =~= ops);
}

/// Every prefix script spells the prefix of `before` by its keep and delete
/// steps and the prefix of `after` by its keep and insert steps, and keeps as
/// many tokens as the longest common subsequence of the two prefixes has.
pub proof fn lemma_edit_script_sides<K>(before: Seq<K>, after: Seq<K>, i: int, j: int)
    requires
        0 <= i <= before.len(),
        0 <= j <= after.len(),
    ensures
        source_of(edit_script(before, after, i, j)) == before.take(i),
        target_of(edit_script(before, after, i, j)) == after.take(j),
        kept(edit_script(before, after, i, j)).len() == lcs_len(before, after, i, j),
    decreases i + j,
{
    if i == 0 && j == 0 {
    } else if i == 0 {
        lemma_edit_script_sides(before, after, 0, j - 1);
        lemma_projections_push(
            edit_script(before, after, 0, j - 1),
            Operation::Insert(after[j - 1]),
        );
    } else if j == 0 {
        lemma_edit_script_sides(before, after, i - 1, 0);
        lemma_projections_push(
            edit_script(before, after, i - 1, 0),
            Operation::Delete(before[i - 1]),
        );
    } else if before[i - 1] == after[j - 1] {
        lemma_edit_script_sides(before, after, i - 1, j - 1);
        lemma_projections_push(
            edit_script(before, after, i - 1, j - 1),
            Operation::Keep(before[i - 1]),
        );
    } else if lcs_len(before, after, i - 1, j) <= lcs_len(before, after, i, j - 1) {
        lemma_edit_script_sides(before, after, i, j - 1);
        lemma_projections_push(
            edit_script(before, after, i, j - 1),
            Operation::Insert(after[j - 1]),
        );
    } else {
        lemma_edit_script_sides(before, after, i - 1, j);
        lemma_projections_push(
            edit_script(before, after, i - 1, j),
            Operation::Delete(before[i - 1]),
        );
    }
}

/// Reading only the keep and delete steps of `script(before, after)` gives
/// back `before`; reading only its keep and insert steps gives back `after`.
pub proof fn law_reconstruction<K>(before: Seq<K>, after: Seq<K>)
    ensures
        source_of(script(before, after)) == before,
        target_of(script(before, after)) == after,
{
    lemma_edit_script_sides(before, after, before.len() as int, after.len() as int);
}

/// `script(before, after)` keeps exactly as many tokens as the longest common
/// subsequence of `before` and `after` has: the corner cell of their table.
pub proof fn law_keep_count<K>(before: Seq<K>, after: Seq<K>)
    ensures
        kept(script(before, after)).len() == lcs_len(
            before,
            after,
            before.len() as int,
            after.len() as int,
        ),
{
    lemma_edit_script_sides(before, after, before.len() as int, after.len() as int);
}

/// A script takes one step for every token of either side, but only one for
/// a token kept on both.
pub proof fn lemma_steps_counted<K>(ops: Seq<Operation<K>>)
    ensures
        ops.len() + kept(ops).len() == source_of(ops).len() + target_of(ops).len(),
    decreases ops.len(),
{
    if ops.len() > 0 {
        lemma_steps_counted(ops.drop_last());
    }
}

/// `script(before, after)` has one step for each token of `before` and of
/// `after`, less one for each token of their longest common subsequence.
pub proof fn law_script_len<K>(before: Seq<K>, after: Seq<K>)
    ensures
        script(before, after).len() == before.len() + after.len() - lcs_len(
            before,
            after,
            before.len() as int,
            after.len() as int,
        ),
{
    lemma_steps_counted(script(before, after));
    law_reconstruction(before, after);
    law_keep_count(before, after);
}

/// The places in `source_of(ops)` at which the tokens that `ops` keeps stand.
pub open spec fn kept_in_source<K>(ops: Seq<Operation<K>>) -> Seq<int>
    decreases ops.len(),
{
    if ops.len() == 0 {
        Seq::empty()
    } else {
        match ops.last() {
            Operation::Keep(_) => kept_in_source(ops.drop_last()).push(
                source_of(ops.drop_last()).len() as int,
            ),
            Operation::Insert(_) => kept_in_source(ops.drop_last()),
            Operation::Delete(_) => kept_in_source(ops.drop_last()),
        }
    }
}

/// The places in `target_of(ops)` at which the tokens that `ops` keeps stand.
pub open spec fn kept_in_target<K>(ops: Seq<Operation<K>>) -> Seq<int>
    decreases ops.len(),
{
    if ops.len() == 0 {
        Seq::empty()
    } else {
        match ops.last() {
            Operation::Keep(_) => kept_in_target(ops.drop_last()).push(
                target_of(ops.drop_last()).len() as int,
            ),
            Operation::Insert(_) => kept_in_target(ops.drop_last()),
            Operation::Delete(_) => kept_in_target(ops.drop_last()),
        }
    }
}

/// What a script keeps stands, in order, in both of its sides.
pub proof fn lemma_kept_embeds<K>(ops: Seq<Operation<K>>)
    ensures
        embeds(kept(ops), source_of(ops), kept_in_source(ops)),
        embeds(kept(ops), target_of(ops), kept_in_target(ops)),
    decreases ops.len(),
{
    if ops.len() > 0 {
        lemma_kept_embeds(ops.drop_last());
    }
}

/// Each cell of the table is the length of a longest common subsequence of
/// the two prefixes it stands for: what the script between the prefixes keeps
/// is a common subsequence of them and has that length, and no common
/// subsequence of them is longer.
pub proof fn law_lcs_len_is_longest<K>(before: Seq<K>, after: Seq<K>, i: int, j: int)
    requires
        0 <= i <= before.len(),
        0 <= j <= after.len(),
    ensures
        is_subsequence(kept(edit_script(before, after, i, j)), before.take(i)),
        is_subsequence(kept(edit_script(before, after, i, j)), after.take(j)),
        kept(edit_script(before, after, i, j)).len() == lcs_len(before, after, i, j),
        forall|common: Seq<K>|
            is_subsequence(common, before.take(i)) && is_subsequence(common, after.take(j))
                ==> common.len() <= lcs_len(before, after, i, j),
{
    let ops = edit_script(before, after, i, j);
    lemma_edit_script_sides(before, after, i, j);
    lemma_kept_embeds(ops);
    assert forall|common: Seq<K>|
        is_subsequence(common, before.take(i)) && is_subsequence(
            common,
            after.take(j),
        ) implies common.len() <= lcs_len(before, after, i, j) by {
        law_lcs_len_is_an_upper_bound(before, after, i, j, common);
    }
}

/// What `script(before, after)` keeps is a common subsequence of `before`
/// and `after`, and no common subsequence of the two is longer: the script is
/// an alignment of the two sequences that keeps as much as any can.
pub proof fn law_kept_is_longest_common_subsequence<K>(before: Seq<K>, after: Seq<K>)
    ensures
        is_subsequence(kept(script(before, after)), before),
        is_subsequence(kept(script(before, after)), after),
        forall|common: Seq<K>|
            is_subsequence(common, before) && is_subsequence(common, after) ==> common.len()
                <= kept(script(before, after)).len(),
{
    law_lcs_len_is_longest(before, after, before.len() as int, after.len() as int);
    assert(before.take(before.len() as int) =~= before);
    assert(after.take(after.len() as int) =~= after);
}

/// A sequence compared with itself is kept token by token.
pub proof fn law_identity<K>(s: Seq<K>)
    ensures
        script(s, s) == s.map_values(|t: K| Operation::Keep(t)),
{
    lemma_identity_prefix(s, s.len() as int);
}

proof fn lemma_identity_prefix<K>(s: Seq<K>, i: int)
    requires
        0 <= i <= s.len(),
    ensures
        edit_script(s, s, i, i) == s.take(i).map_values(|t: K| Operation::Keep(t)),
    decreases i,
{
    if i > 0 {
        lemma_identity_prefix(s, i - 1);
    }
}

/// Against an empty old sequence every token of `after` is inserted, in the
/// order of `after`.
pub proof fn law_empty_old<K>(after: Seq<K>)
    ensures
        script(Seq::<K>::empty(), after) == after.map_values(|t: K| Operation::Insert(t)),
{
    lemma_empty_old_prefix(after, after.len() as int);
}

proof fn lemma_empty_old_prefix<K>(after: Seq<K>, j: int)
    requires
        0 <= j <= after.len(),
    ensures
        edit_script(Seq::<K>::empty(), after, 0, j) == after.take(j).map_values(
            |t: K| Operation::Insert(t),
        ),
    decreases j,
{
    if j > 0 {
        lemma_empty_old_prefix(after, j - 1);
    }
}

/// Against an empty new sequence every token of `before` is deleted, in the
/// order of `before`.
pub proof fn law_empty_new<K>(before: Seq<K>)
    ensures
        script(before, Seq::<K>::empty()) == before.map_values(|t: K| Operation::Delete(t)),
{
    lemma_empty_new_prefix(before, before.len() as int);
}

proof fn lemma_empty_new_prefix<K>(before: Seq<K>, i: int)
    requires
        0 <= i <= before.len(),
    ensures
        edit_script(before, Seq::<K>::empty(), i, 0) == before.take(i).map_values(
            |t: K| Operation::Delete(t),
        ),
    decreases i,
{
    if i > 0 {
        lemma_empty_new_prefix(before, i - 1);
    }
}

/// Where the last tokens differ and dropping either leaves common
/// subsequences of one length, the script ends by inserting the token of
/// `after`: of two equally good alignments the one that inserts last is
/// chosen.
pub proof fn law_tie_prefers_insert<K>(before: Seq<K>, after: Seq<K>, i: int, j: int)
    requires
        0 < i <= before.len(),
        0 < j <= after.len(),
        before[i - 1] != after[j - 1],
        lcs_len(before, after, i - 1, j) == lcs_len(before, after, i, j - 1),
    ensures
        edit_script(before, after, i, j) == edit_script(before, after, i, j - 1).push(
            Operation::Insert(after[j - 1]),
        ),
{
}

/// The elements of `items`, last first.
fn reversed<T: DeepView>(items: Vec<T>) -> (out: Vec<T>)
    ensures
        out@ == items@.reverse(),
        out.deep_view() == items.deep_view().reverse(),
{
    let ghost all = items@;
    let mut rest = items;
    let mut out: Vec<T> = Vec::new();
    while rest.len() > 0
        invariant
            rest.len() <= all.len(),
            rest@ == all.take(rest.len() as int),
            out.len() + rest.len() == all.len(),
            forall|k: int| 0 <= k < out.len() ==> out[k] == all[all.len() - 1 - k],
        decreases rest.len(),
    {
        let last = rest.pop();
        match last {
            Some(item) => {
                out.push(item);
            },
            None => {},
        }
    }
    out
}

/// Walks `table` back from its corner to its origin and returns, in forward
/// order, the edit script that turns `old_text` into `new_text`.
///
/// `table` must be the table of common-subsequence lengths of exactly this
/// pair of sequences.
pub fn reconstruct<T: Token>(table: &Vec<Vec<usize>>, old_text: &Vec<T>, new_text: &Vec<T>) -> (ops:
    Vec<Operation<T>>)
    requires
        is_lcs_table(table@, old_text.deep_view(), new_text.deep_view()),
    ensures
        ops.deep_view() == script(old_text.deep_view(), new_text.deep_view()),
        kept(ops.deep_view()).len() == table[old_text.len() as int][new_text.len() as int],
{
    let ghost before = old_text.deep_view();
    let ghost after = new_text.deep_view();
    let mut i: usize = old_text.len();
    let mut j: usize = new_text.len();
    let mut backward: Vec<Operation<T>> = Vec::new();
    while i != 0 || j != 0
        invariant
            before == old_text.deep_view(),
            after == new_text.deep_view(),
            is_lcs_table(table@, before, after),
            0 <= i <= old_text.len(),
            0 <= j <= new_text.len(),
            edit_script(before, after, i as int, j as int) + backward.deep_view().reverse()
                == script(before, after),
        decreases i + j,
    {
        let ghost done = backward.deep_view();
        let ghost here = edit_script(before, after, i as int, j as int);
        let op = if i == 0 {
            j -= 1;
            Operation::Insert(new_text[j].dup())
        } else if j == 0 {
            i -= 1;
            Operation::Delete(old_text[i].dup())
        } else if old_text[i - 1].same(&new_text[j - 1]) {
            i -= 1;
            j -= 1;
            Operation::Keep(old_text[i].dup())
        } else if table[i - 1][j] <= table[i][j - 1] {
            j -= 1;
            Operation::Insert(new_text[j].dup())
        } else {
            i -= 1;
            Operation::Delete(old_text[i].dup())
        };
        backward.push(op);
        proof {
            // The step just taken is the last step of the script up to the
            // place it was taken from.
            let next = edit_script(before, after, i as int, j as int);
            assert(here == next.push(op.deep_view()));
            assert(backward.deep_view() =~= done.push(op.deep_view()));
            assert(next + done.push(op.deep_view()).reverse() =~= here + done.reverse());
        }
    }
    let ops = reversed(backward);
    proof {
        law_keep_count(before, after);
    }
    ops
}

/// The edit script that turns `old_text` into `new_text`: the table of
/// common-subsequence lengths is built and then walked back.
pub fn diff<T: Token>(new_text: &Vec<T>, old_text: &Vec<T>) -> (ops: Vec<Operation<T>>)
    requires
        new_text.len() < usize::MAX,
        old_text.len() < usize::MAX,
    ensures
        ops.deep_view() == script(old_text.deep_view(), new_text.deep_view()),
        source_of(ops.deep_view()) == old_text.deep_view(),
        target_of(ops.deep_view()) == new_text.deep_view(),
        kept(ops.deep_view()).len() == lcs_len(
            old_text.deep_view(),
            new_text.deep_view(),
            old_text.len() as int,
            new_text.len() as int,
        ),
{
    let table = compute_lcs_matrix_dp(new_text, old_text);
    proof {
        law_reconstruction(old_text.deep_view(), new_text.deep_view());
    }
    reconstruct(&table, old_text, new_text)
}

/// Whatever `diff` returns for one pair of sequences, it returns the same
/// script for every pair that reads the same: where several alignments are
/// equally good, the choice among them does not vary from call to call.
pub proof fn law_diff_is_deterministic<T: Token>(
    new_text: &Vec<T>,
    old_text: &Vec<T>,
    first: Vec<Operation<T>>,
    new_again: &Vec<T>,
    old_again: &Vec<T>,
    second: Vec<Operation<T>>,
)
    requires
        new_again.deep_view() == new_text.deep_view(),
        old_again.deep_view() == old_text.deep_view(),
        call_ensures(diff::<T>, (new_text, old_text), first),
        call_ensures(diff::<T>, (new_again, old_again), second),
    ensures
        first.deep_view() == second.deep_view(),
{
}

} // verus!
