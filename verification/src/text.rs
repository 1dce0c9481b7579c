//! Text as tokens: cutting a string into characters or words, and writing an
//! edit script out as signed lines.

use vstd::prelude::*;
use crate::script::Operation;

verus! {

/// Appends `c` to `s`.
///
/// Calls `String::push`, which the standard library documents as appending
/// the given character to the end of the string; the contract claims exactly
/// that and is not proved.
#[verifier::external_body]
pub(crate) fn push_char(s: &mut String, c: char)
    ensures
        final(s)@ == old(s)@.push(c),
{
    s.push(c);
}

/// The characters of `text`, in order.
pub fn chars_of(text: &str) -> (chars: Vec<char>)
    ensures
        chars@ == text@,
{
    let mut chars: Vec<char> = Vec::new();
    for c in it: text.chars()
        invariant
            it.seq() == text@,
            chars@ == it.seq().take(it.index() as int),
    {
        chars.push(c);
    }
    chars
}

/// The string spelled by `chars[from..to]`.
pub fn string_of(chars: &Vec<char>, from: usize, to: usize) -> (s: String)
    requires
        from <= to <= chars.len(),
    ensures
        s@ == chars@.subrange(from as int, to as int),
{
    let mut s = String::new();
    let mut k: usize = from;
    while k < to
        invariant
            from <= k <= to <= chars.len(),
            s@ == chars@.subrange(from as int, k as int),
        decreases to - k,
    {
        push_char(&mut s, chars[k]);
        k += 1;
    }
    s
}

/// One token per character of `text`.
pub open spec fn char_tokens(text: Seq<char>) -> Seq<Seq<char>> {
    text.map_values(|c: char| seq![c])
}

/// The pieces of `text` between its spaces.  Every space ends one piece and
/// starts the next, so a text with `k` spaces has `k + 1` pieces, some of
/// which may be empty.
pub open spec fn word_tokens(text: Seq<char>) -> Seq<Seq<char>>
    decreases text.len(),
{
    if text.len() == 0 {
        seq![Seq::empty()]
    } else if text.last() == ' ' {
        word_tokens(text.drop_last()).push(Seq::empty())
    } else {
        let earlier = word_tokens(text.drop_last());
        earlier.drop_last().push(earlier.last().push(text.last()))
    }
}

/// The pieces written one after another with a single space between
/// neighbours.
pub open spec fn joined(pieces: Seq<Seq<char>>) -> Seq<char>
    decreases pieces.len(),
{
    if pieces.len() == 0 {
        Seq::empty()
    } else if pieces.len() == 1 {
        pieces[0]
    } else {
        joined(pieces.drop_last()) + seq![' '] + pieces.last()
    }
}

/// No piece of `pieces` holds a space.
pub open spec fn space_free(pieces: Seq<Seq<char>>) -> bool {
    forall|k: int, l: int| 0 <= k < pieces.len() && 0 <= l < pieces[k].len() ==> pieces[k][l] != ' '
}

/// The words of a text are at least one and at most one more than it has
/// characters, hold no space, and spell the text again when joined by single
/// spaces.
pub proof fn law_word_tokens(text: Seq<char>)
    ensures
        1 <= word_tokens(text).len() <= text.len() + 1,
        joined(word_tokens(text)) == text,
        space_free(word_tokens(text)),
    decreases text.len(),
{
    if text.len() > 0 {
        let shorter = text.drop_last();
        let earlier = word_tokens(shorter);
        law_word_tokens(shorter);
        if text.last() == ' ' {
            assert(earlier.push(Seq::empty()).drop_last() =~= earlier);
        } else {
            let words = earlier.drop_last().push(earlier.last().push(text.last()));
            assert(words.drop_last() =~= earlier.drop_last());
            if earlier.len() > 1 {
                let front = joined(earlier.drop_last()) + seq![' '];
                assert(front + earlier.last().push(text.last()) =~= (front + earlier.last()).push(
                    text.last(),
                ));
            }
        }
    }
}

/// The words of a text are the only way to write it as pieces without spaces
/// joined by single spaces.
pub proof fn law_word_tokens_unique(text: Seq<char>, pieces: Seq<Seq<char>>)
    requires
        pieces.len() >= 1,
        space_free(pieces),
        joined(pieces) == text,
    ensures
        pieces == word_tokens(text),
    decreases text.len(),
{
    let front = pieces.drop_last();
    let tail = pieces.last();
    if pieces.len() == 1 {
        if text.len() == 0 {
            assert(pieces[0] =~= Seq::<char>::empty());
            assert(pieces =~= seq![Seq::<char>::empty()]);
        } else {
            assert(text.last() == pieces[0][text.len() - 1]);
            let shorter = seq![text.drop_last()];
            assert forall|k: int, l: int|
                0 <= k < shorter.len() && 0 <= l < shorter[k].len() implies shorter[k][l]
                != ' ' by {
                assert(shorter[k][l] == pieces[0][l]);
            }
            law_word_tokens_unique(text.drop_last(), shorter);
            assert(text.drop_last().push(text.last()) =~= pieces[0]);
            assert(shorter.drop_last().push(shorter.last().push(text.last())) =~= pieces);
        }
    } else {
        assert(text == joined(front) + seq![' '] + tail);
        assert forall|k: int, l: int|
            0 <= k < front.len() && 0 <= l < front[k].len() implies front[k][l] != ' ' by {
            assert(front[k][l] == pieces[k][l]);
        }
        if tail.len() == 0 {
            assert(text.drop_last() =~= joined(front));
            law_word_tokens_unique(text.drop_last(), front);
            assert(tail =~= Seq::<char>::empty());
            assert(front.push(Seq::empty()) =~= pieces);
        } else {
            assert(text.last() == pieces[pieces.len() - 1][tail.len() - 1]);
            let shorter = front.push(tail.drop_last());
            assert(shorter.drop_last() =~= front);
            assert(text.drop_last() =~= joined(front) + seq![' '] + tail.drop_last());
            assert forall|k: int, l: int|
                0 <= k < shorter.len() && 0 <= l < shorter[k].len() implies shorter[k][l]
                != ' ' by {
                assert(shorter[k][l] == pieces[k][l]);
            }
            law_word_tokens_unique(text.drop_last(), shorter);
            assert(tail.drop_last().push(text.last()) =~= tail);
            assert(front.push(tail) =~= pieces);
        }
    }
}

/// Cuts `text` into one token per character.
pub fn split_chars(text: &str) -> (tokens: Vec<String>)
    ensures
        tokens.deep_view() == char_tokens(text@),
{
    let chars = chars_of(text);
    let mut tokens: Vec<String> = Vec::new();
    let mut k: usize = 0;
    while k < chars.len()
        invariant
            chars@ == text@,
            k <= chars.len(),
            tokens.deep_view() == char_tokens(text@.take(k as int)),
        decreases chars.len() - k,
    {
        let ghost done = tokens.deep_view();
        let token = string_of(&chars, k, k + 1);
        assert(token@ =~= seq![text@[k as int]]);
        tokens.push(token);
        k += 1;
        assert(tokens.deep_view() =~= done.push(token@));
    }
    tokens
}

/// Cuts `text` at every space.
pub fn split_words(text: &str) -> (tokens: Vec<String>)
    ensures
        tokens.deep_view() == word_tokens(text@),
{
    let chars = chars_of(text);
    let mut tokens: Vec<String> = Vec::new();
    let mut start: usize = 0;
    let mut k: usize = 0;
    assert(chars@.subrange(0, 0) =~= Seq::<char>::empty());
    while k < chars.len()
        invariant
            chars@ == text@,
            start <= k <= chars.len(),
            tokens.deep_view().push(chars@.subrange(start as int, k as int)) == word_tokens(
                text@.take(k as int),
            ),
        decreases chars.len() - k,
    {
        let ghost piece = chars@.subrange(start as int, k as int);
        assert(text@.take(k + 1).drop_last() =~= text@.take(k as int));
        if chars[k] == ' ' {
            let token = string_of(&chars, start, k);
            tokens.push(token);
            start = k + 1;
            assert(chars@.subrange(start as int, k + 1) =~= Seq::<char>::empty());
        } else {
            assert(chars@.subrange(start as int, k + 1) =~= piece.push(chars@[k as int]));
        }
        k += 1;
    }
    let token = string_of(&chars, start, k);
    tokens.push(token);
    assert(text@.take(k as int) =~= text@);
    tokens
}

/// The line that shows one operation: the token alone for a keep, behind a
/// `+` for an insert, behind a `-` for a delete.
pub open spec fn rendered(op: Operation<Seq<char>>) -> Seq<char> {
    match op {
        Operation::Keep(t) => t,
        Operation::Insert(t) => seq!['+'] + t,
        Operation::Delete(t) => seq!['-'] + t,
    }
}

/// The lines that show a script, one per operation.
pub open spec fn rendered_script(ops: Seq<Operation<Seq<char>>>) -> Seq<Seq<char>> {
    ops.map_values(|op: Operation<Seq<char>>| rendered(op))
}

/// Writes one operation out as a signed line.
pub fn render(op: &Operation<String>) -> (line: String)
    ensures
        line@ == rendered(op.deep_view()),
{
    let mut line = String::new();
    match op {
        Operation::Keep(t) => {
            line.append(t.as_str());
        },
        Operation::Insert(t) => {
            push_char(&mut line, '+');
            line.append(t.as_str());
        },
        Operation::Delete(t) => {
            push_char(&mut line, '-');
            line.append(t.as_str());
        },
    }
    line
}

/// Writes a script out as signed lines, one per operation.
pub fn render_script(ops: &Vec<Operation<String>>) -> (lines: Vec<String>)
    ensures
        lines.deep_view() == rendered_script(ops.deep_view()),
{
    let mut lines: Vec<String> = Vec::new();
    let mut k: usize = 0;
    while k < ops.len()
        invariant
            k <= ops.len(),
            lines.len() == k,
            forall|r: int| 0 <= r < k ==> (#[trigger] lines[r])@ == rendered(ops[r].deep_view()),
        decreases ops.len() - k,
    {
        lines.push(render(&ops[k]));
        k += 1;
    }
    lines
}

} // verus!
