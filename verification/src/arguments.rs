//! Sorting a program's command-line arguments.
use vstd::prelude::*;

verus! {

/// `a` comes no later than `b` in lexicographic byte order: at the first byte
/// where they differ, `a`'s is smaller, or `a` is a prefix of `b`.
pub open spec fn bytes_le(a: Seq<u8>, b: Seq<u8>) -> bool
    decreases a.len(),
{
    if a.len() == 0 {
        true
    } else if b.len() == 0 {
        false
    } else if a[0] != b[0] {
        a[0] < b[0]
    } else {
        bytes_le(a.drop_first(), b.drop_first())
    }
}

/// The order of strings: lexicographic by their UTF-8 bytes.
pub open spec fn text_le(a: Seq<char>, b: Seq<char>) -> bool {
    bytes_le(vstd::utf8::encode_utf8(a), vstd::utf8::encode_utf8(b))
}

/// Each string comes no later than every string after it.
pub open spec fn is_sorted(words: Seq<Seq<char>>) -> bool {
    forall|i: int, j: int| 0 <= i < j < words.len() ==> text_le(#[trigger] words[i], #[trigger] words[j])
}

/// `slice::sort` on strings: reorders `words` so that they are sorted by
/// `String`'s order, which compares strings lexicographically by their bytes;
/// the strings themselves are kept, each as often as before.
#[verifier::external_body]
fn sort_strings(words: &mut Vec<String>)
    ensures
        final(words).deep_view().to_multiset() == old(words).deep_view().to_multiset(),
        is_sorted(final(words).deep_view()),
{
    words.sort();
}

/// The arguments that a program receives after its own name.
pub open spec fn arguments_after_name(args: Seq<Seq<char>>) -> Seq<Seq<char>> {
    if args.len() == 0 {
        args
    } else {
        args.drop_first()
    }
}

/// Sorts the command-line arguments `args`, whose first entry is the program's
/// name, leaving that name out: the result holds the other arguments, each as
/// often as given, in sorted order.
pub fn sort_arguments(args: Vec<String>) -> (words: Vec<String>)
    ensures
        words.deep_view().to_multiset() == arguments_after_name(args.deep_view()).to_multiset(),
        args.len() > 0 ==> words.deep_view().to_multiset() == args.deep_view().subrange(
            1,
            args.len() as int,
        ).to_multiset(),
        words.len() == if args.len() == 0 {
            0
        } else {
            args.len() - 1
        },
        is_sorted(words.deep_view()),
{
    let mut words = args;
    if words.len() > 0 {
        let ghost all = words.deep_view();
        let _name = words.remove(0);
        proof {
            assert(words.deep_view() =~= all.drop_first());
        }
    }
    sort_strings(&mut words);
    proof {
        broadcast use vstd::seq_lib::group_to_multiset_ensures;

        assert(words.deep_view().len() == words.deep_view().to_multiset().len());
        if args.len() > 0 {
            assert(args.deep_view().subrange(1, args.len() as int) =~= args.deep_view().drop_first());
        }
    }
    words
}

/// The arguments after the program's name are all the given arguments but the
/// first, each one, in order: one fewer than given (none if none were given).
pub proof fn lemma_arguments_after_name(args: Seq<Seq<char>>)
    ensures
        arguments_after_name(args).len() == if args.len() == 0 {
            0
        } else {
            args.len() - 1
        },
        forall|i: int|
            0 <= i < arguments_after_name(args).len() ==> #[trigger] arguments_after_name(args)[i]
                == args[i + 1],
{
}

} // verus!
