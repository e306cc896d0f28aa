//! Counting lines, words and bytes of a byte stream, as `wc` does.
use vstd::prelude::*;

verus! {

/// Bytes that end a word: newline, space, tab and carriage return.
pub open spec fn is_separator(b: u8) -> bool {
    b == 10 || b == 32 || b == 9 || b == 13
}

/// Position `i` of `s` starts a word: it holds no separator, and it is the
/// first position or follows a separator.
pub open spec fn is_word_start(s: Seq<u8>, i: int) -> bool {
    !is_separator(s[i]) && (i == 0 || is_separator(s[i - 1]))
}

/// The number of word starts among the first `n` positions of `s`.
pub open spec fn word_starts(s: Seq<u8>, n: nat) -> nat
    decreases n,
{
    if n == 0 {
        0
    } else {
        word_starts(s, (n - 1) as nat) + if is_word_start(s, n - 1) {
            1nat
        } else {
            0nat
        }
    }
}

/// The number of newlines among the first `n` positions of `s`.
pub open spec fn newlines(s: Seq<u8>, n: nat) -> nat
    decreases n,
{
    if n == 0 {
        0
    } else {
        newlines(s, (n - 1) as nat) + if s[n - 1] == 10 {
            1nat
        } else {
            0nat
        }
    }
}

/// The counts of one input.
#[derive(Default, Debug, PartialEq, Eq)]
pub struct CntResult {
    /// Newline bytes.
    pub strs_count: u32,
    /// Maximal runs of bytes that are not separators.
    pub words_count: u32,
    /// All bytes.
    pub bytes_count: u32,
}

proof fn lemma_counts_bounded(s: Seq<u8>, n: nat)
    requires
        n <= s.len(),
    ensures
        word_starts(s, n) <= n,
        newlines(s, n) <= n,
    decreases n,
{
    if n > 0 {
        lemma_counts_bounded(s, (n - 1) as nat);
    }
}

/// Counts the newlines, words and bytes of `bytes`.
pub fn count(bytes: &[u8]) -> (res: CntResult)
    requires
        bytes@.len() <= u32::MAX,
    ensures
        res.bytes_count == bytes@.len(),
        res.strs_count == newlines(bytes@, bytes@.len()),
        res.words_count == word_starts(bytes@, bytes@.len()),
{
    let mut res = CntResult { strs_count: 0, words_count: 0, bytes_count: 0 };
    let mut in_word = false;
    let mut i: usize = 0;
    while i < bytes.len()
        invariant
            i <= bytes@.len() <= u32::MAX,
            res.bytes_count == i,
            res.strs_count == newlines(bytes@, i as nat),
            res.words_count == word_starts(bytes@, i as nat),
            in_word == (i > 0 && !is_separator(bytes@[i - 1])),
        decreases bytes@.len() - i,
    {
        proof {
            lemma_counts_bounded(bytes@, (i + 1) as nat);
        }
        let byte = bytes[i];
        res.bytes_count = res.bytes_count + 1;
        if byte == 10 {
            res.strs_count = res.strs_count + 1;
            in_word = false;
        } else if byte == 32 || byte == 9 || byte == 13 {
            in_word = false;
        } else {
            if !in_word {
                res.words_count = res.words_count + 1;
                in_word = true;
            }
        }
        i = i + 1;
    }
    res
}

/// Lines, words and bytes never outnumber the bytes.
pub proof fn lemma_counts_at_most_bytes(s: Seq<u8>)
    ensures
        newlines(s, s.len()) <= s.len(),
        word_starts(s, s.len()) <= s.len(),
{
    lemma_counts_bounded(s, s.len());
}

/// Appending one byte adds at most one line and at most one word, and adds a
/// line exactly when the byte is a newline.
pub proof fn lemma_count_one_more_byte(s: Seq<u8>, b: u8)
    ensures
        newlines(s.push(b), s.len() + 1) == newlines(s, s.len()) + if b == 10 {
            1nat
        } else {
            0nat
        },
        word_starts(s, s.len()) <= word_starts(s.push(b), s.len() + 1) <= word_starts(s, s.len())
            + 1,
        is_separator(b) ==> word_starts(s.push(b), s.len() + 1) == word_starts(s, s.len()),
{
    lemma_prefix_unchanged(s, b, s.len());
}

/// The last byte of `a` and the first byte of `b` both belong to words, so
/// that a word runs across the boundary of `a` and `b`.
pub open spec fn word_crosses(a: Seq<u8>, b: Seq<u8>) -> bool {
    a.len() > 0 && b.len() > 0 && !is_separator(a.last()) && !is_separator(b[0])
}

/// Counting the two parts of an input separately and adding gives the counts of
/// the whole input, except that a word running across the boundary is counted
/// once in the whole and twice in the parts.
pub proof fn lemma_count_concat(a: Seq<u8>, b: Seq<u8>)
    ensures
        newlines(a + b, (a + b).len()) == newlines(a, a.len()) + newlines(b, b.len()),
        word_starts(a + b, (a + b).len()) + (if word_crosses(a, b) {
            1nat
        } else {
            0nat
        }) == word_starts(a, a.len()) + word_starts(b, b.len()),
    decreases b.len(),
{
    if b.len() == 0 {
        assert(a + b =~= a);
    } else {
        let c = b.drop_last();
        let x = b.last();
        lemma_count_concat(a, c);
        assert(a + b =~= (a + c).push(x));
        assert(b =~= c.push(x));
        lemma_prefix_unchanged(a + c, x, (a + c).len());
        lemma_prefix_unchanged(c, x, c.len());
        let ab = a + b;
        let n = ab.len() - 1;
        assert(ab[n] == x);
        assert(b[b.len() - 1] == x);
        if c.len() > 0 {
            assert(ab[n - 1] == b[b.len() - 2]);
            assert(b[0] == c[0]);
        } else {
            assert(word_starts(c, 0) == 0);
            assert(a + c =~= a);
            if a.len() > 0 {
                assert(ab[n - 1] == a.last());
            }
        }
    }
}

/// How the counts grow by one byte, with the separators written out: the
/// bytes that end a word are exactly newline, space, tab and carriage return.
/// A separator never adds a word; any other byte adds one exactly when it
/// follows nothing or a separator, so a byte such as `-` inside a word adds
/// nothing. A newline adds one line and any other byte none; the empty input
/// has no lines and no words.
pub proof fn lemma_counts_grow_by_byte(s: Seq<u8>, b: u8)
    ensures
        word_starts(Seq::<u8>::empty(), 0) == 0,
        newlines(Seq::<u8>::empty(), 0) == 0,
        newlines(s.push(b), s.len() + 1) == newlines(s, s.len()) + (if b == 10 {
            1nat
        } else {
            0nat
        }),
        (b == 10 || b == 32 || b == 9 || b == 13) ==> word_starts(s.push(b), s.len() + 1)
            == word_starts(s, s.len()),
        !(b == 10 || b == 32 || b == 9 || b == 13) ==> word_starts(s.push(b), s.len() + 1)
            == word_starts(s, s.len()) + (if s.len() == 0 || s.last() == 10 || s.last() == 32
            || s.last() == 9 || s.last() == 13 {
            1nat
        } else {
            0nat
        }),
{
    lemma_prefix_unchanged(s, b, s.len());
    let t = s.push(b);
    assert(t[s.len() as int] == b);
    if s.len() > 0 {
        assert(t[s.len() - 1] == s.last());
    }
}

proof fn lemma_prefix_unchanged(s: Seq<u8>, b: u8, n: nat)
    requires
        n <= s.len(),
    ensures
        newlines(s.push(b), n) == newlines(s, n),
        word_starts(s.push(b), n) == word_starts(s, n),
    decreases n,
{
    if n > 0 {
        lemma_prefix_unchanged(s, b, (n - 1) as nat);
        assert(s.push(b)[n - 1] == s[n - 1]);
        if n >= 2 {
            assert(s.push(b)[n - 2] == s[n - 2]);
        }
    }
}

} // verus!
