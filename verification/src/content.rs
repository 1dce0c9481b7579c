//! The two texts under comparison and the signed lines that show how they
//! differ.

use vstd::prelude::*;
use vstd::std_specs::iter::IteratorSpec;
use crate::script::{diff, kept, lemma_projections_push, script, Operation};
use crate::text::{
    char_tokens, push_char, render_script, rendered_script, split_chars, split_words, word_tokens,
};

verus! {

/// Where the two texts are to be read from.
pub struct Config {
    pub new_file_path: String,
    pub old_file_path: String,
}

impl Config {
    /// Reads the two paths off a command line: the program's name is skipped,
    /// the old path comes next and the new path after it.
    ///
    /// The contract speaks of the items that `args` is going to yield, and
    /// holds of every iterator that yields them one by one and then stops.
    pub fn build(mut args: impl Iterator<Item = String>) -> (r: Result<Config, &'static str>)
        ensures
            args.obeys_prophetic_iter_laws() ==> match r {
                Ok(config) => {
                    &&& args.remaining().len() >= 3
                    &&& config.old_file_path == args.remaining()[1]
                    &&& config.new_file_path == args.remaining()[2]
                },
                Err(message) => {
                    &&& args.remaining().len() < 3
                    &&& args.remaining().len() < 2 ==> message@ == "Didn't get a old file path."@
                    &&& args.remaining().len() == 2 ==> message@ == "Didn't get a new file path."@
                },
            },
    {
        args.next();
        let old_file_path = match args.next() {
            Some(f) => f,
            None => { return Err("Didn't get a old file path."); },
        };
        let new_file_path = match args.next() {
            Some(f) => f,
            None => { return Err("Didn't get a new file path."); },
        };
        Ok(Config { new_file_path, old_file_path })
    }
}

/// The two texts under comparison.
pub struct Content {
    pub new_text: String,
    pub old_text: String,
}

impl Content {
    /// The signed lines that show how to turn `old_text` into `new_text`,
    /// token by token.
    pub fn compute(old_text: &Vec<String>, new_text: &Vec<String>) -> (lines: Vec<String>)
        requires
            old_text.len() < usize::MAX,
            new_text.len() < usize::MAX,
        ensures
            lines.deep_view() == rendered_script(
                script(old_text.deep_view(), new_text.deep_view()),
            ),
    {
        let ops = diff(new_text, old_text);
        render_script(&ops)
    }

    /// The difference between the two texts, character by character.
    pub fn diff_by_chars(&self) -> (lines: Vec<String>)
        requires
            self.old_text@.len() < usize::MAX,
            self.new_text@.len() < usize::MAX,
        ensures
            lines.deep_view() == rendered_script(
                script(char_tokens(self.old_text@), char_tokens(self.new_text@)),
            ),
    {
        let new_text = split_chars(self.new_text.as_str());
        let old_text = split_chars(self.old_text.as_str());
        Self::compute(&old_text, &new_text)
    }

    /// The difference between the two texts, word by word, where words are
    /// what stands between single spaces.
    pub fn diff_by_words(&self) -> (lines: Vec<String>)
        requires
            word_tokens(self.old_text@).len() < usize::MAX,
            word_tokens(self.new_text@).len() < usize::MAX,
        ensures
            lines.deep_view() == rendered_script(
                script(word_tokens(self.old_text@), word_tokens(self.new_text@)),
            ),
    {
        let new_text = split_words(self.new_text.as_str());
        let old_text = split_words(self.old_text.as_str());
        Self::compute(&old_text, &new_text)
    }
}

/// A longest common subsequence of `text1` and `text2`: the characters that
/// the script from `text2` to `text1` keeps.
pub fn compute_lcs_string_dp(text1: &Vec<char>, text2: &Vec<char>) -> (common: String)
    requires
        text1.len() < usize::MAX,
        text2.len() < usize::MAX,
    ensures
        common@ == kept(script(text2@, text1@)),
{
    let ops = diff(text1, text2);
    proof {
        assert(text1.deep_view() =~= text1@);
        assert(text2.deep_view() =~= text2@);
    }
    let mut common = String::new();
    let mut k: usize = 0;
    while k < ops.len()
        invariant
            k <= ops.len(),
            common@ == kept(ops.deep_view().take(k as int)),
        decreases ops.len() - k,
    {
        proof {
            assert(ops.deep_view().take(k + 1) =~= ops.deep_view().take(k as int).push(
                ops[k as int].deep_view(),
            ));
            lemma_projections_push(ops.deep_view().take(k as int), ops[k as int].deep_view());
        }
        match &ops[k] {
            Operation::Keep(c) => {
                push_char(&mut common, *c);
            },
            _ => {},
        }
        k += 1;
    }
    assert(ops.deep_view().take(k as int) =~= ops.deep_view());
    common
}

} // verus!
