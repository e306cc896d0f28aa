//! The command interpreter of a minimal shell: what to do with one input line.
use vstd::prelude::*;

verus! {

/// Unicode white space (the `White_Space` property), which separates words:
/// tab, line feed, vertical tab, form feed, carriage return, space, next line,
/// no-break space, ogham space mark, the spaces U+2000 to U+200A, line
/// separator, paragraph separator, narrow no-break space, medium mathematical
/// space and ideographic space.
pub open spec fn is_white_space(c: char) -> bool {
    let u = c as u32;
    ||| 0x09 <= u <= 0x0d
    ||| u == 0x20
    ||| u == 0x85
    ||| u == 0xa0
    ||| u == 0x1680
    ||| 0x2000 <= u <= 0x200a
    ||| u == 0x2028
    ||| u == 0x2029
    ||| u == 0x202f
    ||| u == 0x205f
    ||| u == 0x3000
}

/// The whitespace-separated words of `line`, in order: the maximal runs of
/// characters that are not white space. Each character that is not white space
/// either continues the word of the character before it or starts a new word.
pub open spec fn whitespace_words(line: Seq<char>) -> Seq<Seq<char>>
    decreases line.len(),
{
    if line.len() == 0 {
        Seq::empty()
    } else {
        let before = whitespace_words(line.drop_last());
        let c = line.last();
        if is_white_space(c) {
            before
        } else if line.len() >= 2 && !is_white_space(line[line.len() - 2]) {
            before.update(before.len() - 1, before.last().push(c))
        } else {
            before.push(seq![c])
        }
    }
}

/// `str::split_whitespace`, each word copied into a `String`: the words of
/// `line`, split at Unicode white space, with no empty words.
#[verifier::external_body]
fn split_words(line: &str) -> (words: Vec<String>)
    ensures
        words.deep_view() == whitespace_words(line@),
{
    line.split_whitespace().map(|w| w.to_string()).collect()
}

/// The command that ends the shell.
pub open spec fn exit_word() -> Seq<char> {
    seq!['e', 'x', 'i', 't']
}

/// What the shell does with one line of input.
pub enum ShellAction {
    /// End the shell.
    Quit,
    /// Nothing to run: prompt again.
    Skip,
    /// Run `program` with `args` and wait for it.
    Run { program: String, args: Vec<String> },
}

/// Whether the shell ends on this line: at end of input (nothing read) or when
/// the line's first word is `exit`.
pub open spec fn line_outcome_quits(bytes_read: usize, words: Seq<Seq<char>>) -> bool {
    bytes_read == 0 || (words.len() > 0 && words[0] == exit_word())
}

fn is_exit_word(word: &String) -> (b: bool)
    ensures
        b == (word@ == exit_word()),
{
    let w: &str = word.as_str();
    if w.unicode_len() != 4 {
        return false;
    }
    let b = w.get_char(0) == 'e' && w.get_char(1) == 'x' && w.get_char(2) == 'i' && w.get_char(3)
        == 't';
    proof {
        if b {
            assert(w@ =~= exit_word());
        }
    }
    b
}

/// Decides what to do with the words of a line of input of which `bytes_read`
/// bytes were read (0 at end of input): end the shell (see
/// [`line_outcome_quits`]), skip a line without words, or run the program named
/// by the first word with the other words as its arguments.
pub fn action_for_words(bytes_read: usize, words: Vec<String>) -> (action: ShellAction)
    ensures
        line_outcome_quits(bytes_read, words.deep_view()) <==> action is Quit,
        action is Skip <==> (bytes_read != 0 && words.len() == 0),
        action matches ShellAction::Run { program, args } ==> {
            &&& words.len() > 0
            &&& program@ == words.deep_view()[0]
            &&& args.deep_view() == words.deep_view().drop_first()
        },
{
    if bytes_read == 0 {
        return ShellAction::Quit;
    }
    let mut words = words;
    if words.len() == 0 {
        return ShellAction::Skip;
    }
    let ghost all = words.deep_view();
    let program = words.remove(0);
    proof {
        assert(words.deep_view() =~= all.drop_first());
    }
    if is_exit_word(&program) {
        return ShellAction::Quit;
    }
    ShellAction::Run { program, args: words }
}

/// Decides what to do with a line of input of which `bytes_read` bytes were
/// read (0 at end of input), from its whitespace-separated words (see
/// [`action_for_words`]).
pub fn next_shell_action(bytes_read: usize, line: &str) -> (action: ShellAction)
    ensures
        line_outcome_quits(bytes_read, whitespace_words(line@)) <==> action is Quit,
        action is Skip <==> (bytes_read != 0 && whitespace_words(line@).len() == 0),
        action matches ShellAction::Run { program, args } ==> {
            &&& whitespace_words(line@).len() > 0
            &&& program@ == whitespace_words(line@)[0]
            &&& args.deep_view() == whitespace_words(line@).drop_first()
        },
{
    let words = split_words(line);
    action_for_words(bytes_read, words)
}

/// Words are never empty and never hold white space.
pub proof fn lemma_words_are_nonblank(line: Seq<char>)
    ensures
        forall|i: int|
            0 <= i < whitespace_words(line).len() ==> #[trigger] whitespace_words(line)[i].len() > 0,
        forall|i: int, j: int|
            0 <= i < whitespace_words(line).len() && 0 <= j < whitespace_words(line)[i].len()
                ==> !is_white_space(#[trigger] whitespace_words(line)[i][j]),
    decreases line.len(),
{
    if line.len() > 0 {
        let prefix = line.drop_last();
        lemma_words_are_nonblank(prefix);
        let before = whitespace_words(prefix);
        let c = line.last();
        if !is_white_space(c) && line.len() >= 2 && !is_white_space(line[line.len() - 2]) {
            lemma_prefix_ending_in_word_has_words(prefix);
            let w = before.last().push(c);
            assert forall|j: int| 0 <= j < w.len() implies !is_white_space(#[trigger] w[j]) by {
                if j < before.last().len() {
                    assert(w[j] == before[before.len() - 1][j]);
                }
            }
        }
    }
}

proof fn lemma_prefix_ending_in_word_has_words(line: Seq<char>)
    requires
        line.len() > 0,
        !is_white_space(line.last()),
    ensures
        whitespace_words(line).len() > 0,
    decreases line.len(),
{
    let before = whitespace_words(line.drop_last());
    if line.len() >= 2 && !is_white_space(line[line.len() - 2]) {
        lemma_prefix_ending_in_word_has_words(line.drop_last());
    }
}

/// The shell ends exactly at end of input (nothing read) or on a line whose
/// first word is the four characters `e`, `x`, `i`, `t`; any other line with a
/// first word runs it, and a line without words is skipped.
pub proof fn lemma_quits_only_on_exit(bytes_read: usize, words: Seq<Seq<char>>)
    ensures
        bytes_read == 0 ==> line_outcome_quits(bytes_read, words),
        words.len() > 0 && words[0] == seq!['e', 'x', 'i', 't'] ==> line_outcome_quits(
            bytes_read,
            words,
        ),
        bytes_read != 0 && (words.len() == 0 || words[0] != seq!['e', 'x', 'i', 't'])
            ==> !line_outcome_quits(bytes_read, words),
{
    assert(exit_word() =~= seq!['e', 'x', 'i', 't']);
}

} // verus!
