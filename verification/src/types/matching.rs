//! Reading a tag name out of noisy text: how alike two strings are, and which
//! word of a vocabulary is most like a given text.

use difflib::sequencematcher::SequenceMatcher;
use vstd::prelude::*;
use vstd::utf8::encode_utf8;

verus! {

/// A word is accepted for a text if their likeness is at least this many
/// hundredths.
pub const MATCH_CUTOFF: u64 = 50;

/// The sizes of the blocks of bytes that the two byte strings share, as
/// `difflib` finds them, in the order in which it lists them.
pub uninterp spec fn matching_blocks(first: Seq<u8>, second: Seq<u8>) -> Seq<usize>;

/// Calls `SequenceMatcher::new` and `SequenceMatcher::get_matching_blocks` of
/// `difflib` on the two byte strings and keeps the size of each block found.
/// The blocks depend on the two strings alone; nothing else is claimed of them.
#[verifier::external_body]
fn matching_block_sizes(first: &[u8], second: &[u8]) -> (sizes: Vec<usize>)
    ensures
        sizes@ == matching_blocks(first@, second@),
{
    let mut matcher = SequenceMatcher::new(first, second);
    matcher.get_matching_blocks().iter().map(|block| block.size).collect()
}

/// The sum of the sizes.
pub open spec fn total_size(sizes: Seq<usize>) -> nat
    decreases sizes.len(),
{
    if sizes.len() == 0 {
        0
    } else {
        total_size(sizes.drop_last()) + sizes.last() as nat
    }
}

/// How much of two strings is shared: the number of shared bytes and the
/// lengths of the two. The likeness of the strings is twice the shared bytes
/// over the sum of the lengths; two empty strings are fully alike.
#[derive(Clone, Copy, Debug, PartialEq, Eq, Structural)]
pub struct Similarity {
    pub matched: usize,
    pub first_len: usize,
    pub second_len: usize,
}

impl Similarity {
    /// No byte is counted twice: the shared bytes fit into either string.
    pub open spec fn wf(self) -> bool {
        self.matched <= self.first_len && self.matched <= self.second_len
    }

    /// The numerator of the likeness.
    pub open spec fn numerator(self) -> int {
        if self.first_len + self.second_len == 0 {
            1
        } else {
            2 * self.matched
        }
    }

    /// The denominator of the likeness. It is positive.
    pub open spec fn denominator(self) -> int {
        if self.first_len + self.second_len == 0 {
            1
        } else {
            self.first_len + self.second_len
        }
    }

    /// The likeness is at least [`MATCH_CUTOFF`] hundredths.
    pub open spec fn clears_cutoff(self) -> bool {
        100 * self.numerator() >= MATCH_CUTOFF * self.denominator()
    }

    /// The likeness is greater than that of `other`.
    pub open spec fn exceeds(self, other: Similarity) -> bool {
        self.numerator() * other.denominator() > other.numerator() * self.denominator()
    }

    /// What the block sizes say of two strings of the given lengths. Sizes that
    /// do not fit into the strings say nothing.
    pub open spec fn of_blocks(sizes: Seq<usize>, first_len: usize, second_len: usize) -> Option<
        Similarity,
    > {
        if total_size(sizes) <= first_len && total_size(sizes) <= second_len {
            Some(Similarity { matched: total_size(sizes) as usize, first_len, second_len })
        } else {
            None
        }
    }

    /// The likeness of `first` and `second`, from the blocks that `difflib`
    /// finds in their bytes.
    pub open spec fn between(first: Seq<char>, second: Seq<char>) -> Option<Similarity> {
        Self::of_blocks(
            matching_blocks(encode_utf8(first), encode_utf8(second)),
            encode_utf8(first).len() as usize,
            encode_utf8(second).len() as usize,
        )
    }

    /// Adds the block sizes up, as long as they fit into both strings.
    pub fn measure(sizes: &Vec<usize>, first_len: usize, second_len: usize) -> (found: Option<
        Similarity,
    >)
        ensures
            found == Self::of_blocks(sizes@, first_len, second_len),
            found matches Some(s) ==> s.wf(),
    {
        let limit = if first_len <= second_len {
            first_len
        } else {
            second_len
        };
        let mut matched: usize = 0;
        let mut i: usize = 0;
        assert(sizes@.take(0) =~= Seq::<usize>::empty());
        while i < sizes.len()
            invariant
                i <= sizes.len(),
                limit == if first_len <= second_len { first_len } else { second_len },
                matched == total_size(sizes@.take(i as int)),
                matched <= limit,
            decreases sizes.len() - i,
        {
            let size = sizes[i];
            proof {
                assert(sizes@.take(i + 1).drop_last() =~= sizes@.take(i as int));
                lemma_total_size_grows(sizes@, i + 1);
            }
            if size > limit - matched {
                proof {
                    lemma_total_size_of_prefix(sizes@, i + 1);
                }
                return None;
            }
            matched += size;
            i += 1;
        }
        assert(sizes@.take(sizes.len() as int) =~= sizes@);
        Some(Similarity { matched, first_len, second_len })
    }

    /// Measures the likeness of two strings.
    pub fn similarity(first: &str, second: &str) -> (found: Option<Similarity>)
        ensures
            found == Self::between(first@, second@),
            found matches Some(s) ==> s.wf(),
    {
        let left = first.as_bytes();
        let right = second.as_bytes();
        let sizes = matching_block_sizes(left, right);
        Self::measure(&sizes, left.len(), right.len())
    }

    pub fn is_accepted(&self) -> (accepted: bool)
        ensures
            accepted == self.clears_cutoff(),
    {
        let length: u128 = self.first_len as u128 + self.second_len as u128;
        if length == 0 {
            return true;
        }
        let reached: u128 = 200 * (self.matched as u128);
        assert(MATCH_CUTOFF * length == 50 * length);
        let needed: u128 = (MATCH_CUTOFF as u128) * length;
        reached >= needed
    }

    /// Whether the likeness is greater than that of `other`.
    pub fn is_greater_than(&self, other: &Similarity) -> (greater: bool)
        ensures
            greater == self.exceeds(*other),
    {
        let own: u128 = self.first_len as u128 + self.second_len as u128;
        let their: u128 = other.first_len as u128 + other.second_len as u128;
        if own == 0 {
            return their > 2 * (other.matched as u128);
        }
        if their == 0 {
            return 2 * (self.matched as u128) > own;
        }
        // Both strings of either pair are not empty: compare
        // matched * (first + second) of the one with that of the other,
        // product by product, since a sum of two products may not fit.
        let a = wide_product(self.matched, other.first_len);
        let b = wide_product(self.matched, other.second_len);
        let c = wide_product(other.matched, self.first_len);
        let d = wide_product(other.matched, self.second_len);
        proof {
            assert(self.matched * (other.first_len + other.second_len) == a + b)
                by (nonlinear_arith)
                requires
                    a == self.matched * other.first_len,
                    b == self.matched * other.second_len,
            ;
            assert(other.matched * (self.first_len + self.second_len) == c + d)
                by (nonlinear_arith)
                requires
                    c == other.matched * self.first_len,
                    d == other.matched * self.second_len,
            ;
            assert((2 * self.matched) * their == 2 * (self.matched * their)) by (nonlinear_arith);
            assert((2 * other.matched) * own == 2 * (other.matched * own)) by (nonlinear_arith);
        }
        if a >= c {
            b > d || a - c > d - b
        } else {
            b > d && b - d > c - a
        }
    }
}

/// The sum of the first `n` sizes is the sum of those before the last of
/// them, and that one.
pub proof fn lemma_total_size_grows(sizes: Seq<usize>, n: int)
    requires
        0 < n <= sizes.len(),
    ensures
        total_size(sizes.take(n)) == total_size(sizes.take(n - 1)) + sizes[n - 1],
{
    assert(sizes.take(n).drop_last() =~= sizes.take(n - 1));
}

/// The first `n` sizes sum to no more than all of them.
pub proof fn lemma_total_size_of_prefix(sizes: Seq<usize>, n: int)
    requires
        0 <= n <= sizes.len(),
    ensures
        total_size(sizes.take(n)) <= total_size(sizes),
    decreases sizes.len() - n,
{
    if n == sizes.len() {
        assert(sizes.take(n) =~= sizes);
    } else {
        lemma_total_size_grows(sizes, n + 1);
        lemma_total_size_of_prefix(sizes, n + 1);
    }
}

/// The product of two lengths, which always fits.
fn wide_product(a: usize, b: usize) -> (product: u128)
    ensures
        product == a * b,
{
    assert(a * b <= 0xffff_ffff_ffff_ffff * 0xffff_ffff_ffff_ffff) by (nonlinear_arith)
        requires
            a <= 0xffff_ffff_ffff_ffff,
            b <= 0xffff_ffff_ffff_ffff,
    ;
    (a as u128) * (b as u128)
}

/// A word is accepted for a text if their likeness is known and clears the
/// cutoff.
pub open spec fn accepted(word: Seq<char>, text: Seq<char>) -> bool {
    Similarity::between(word, text) matches Some(s) && s.clears_cutoff()
}

/// The likeness of an accepted word and the text.
pub open spec fn likeness(word: Seq<char>, text: Seq<char>) -> Similarity {
    Similarity::between(word, text).unwrap()
}

/// Word `i` is the best match among the first `n` words: it is accepted, more
/// like the text than every accepted word before it, and no accepted word
/// after it is more like the text than it is.
pub open spec fn is_best_among(
    vocabulary: Seq<Seq<char>>,
    text: Seq<char>,
    i: int,
    n: int,
) -> bool {
    &&& 0 <= i < n <= vocabulary.len()
    &&& accepted(vocabulary[i], text)
    &&& forall|j: int|
        0 <= j < i && #[trigger] accepted(vocabulary[j], text) ==> likeness(
            vocabulary[i],
            text,
        ).exceeds(likeness(vocabulary[j], text))
    &&& forall|j: int|
        i < j < n && #[trigger] accepted(vocabulary[j], text) ==> !likeness(
            vocabulary[j],
            text,
        ).exceeds(likeness(vocabulary[i], text))
}

/// Word `i` is the best match of the vocabulary: the first of the accepted
/// words that are most like the text.
pub open spec fn is_best_match(vocabulary: Seq<Seq<char>>, text: Seq<char>, i: int) -> bool {
    is_best_among(vocabulary, text, i, vocabulary.len() as int)
}

/// None of the first `n` words is accepted.
pub open spec fn none_accepted(vocabulary: Seq<Seq<char>>, text: Seq<char>, n: int) -> bool {
    forall|j: int| 0 <= j < n ==> !#[trigger] accepted(vocabulary[j], text)
}

/// The word of the vocabulary that is read out of the text, if there is one.
pub open spec fn best_word(vocabulary: Seq<Seq<char>>, text: Seq<char>) -> Option<Seq<char>> {
    if exists|i: int| is_best_match(vocabulary, text, i) {
        Some(vocabulary[choose|i: int| is_best_match(vocabulary, text, i)])
    } else {
        None
    }
}

/// The characters of each string.
pub open spec fn words_of(strings: Seq<String>) -> Seq<Seq<char>> {
    strings.map_values(|word: String| word@)
}

/// If `a` is no more like its text than `b`, and `c` is more like it than
/// `b`, then `c` is more like it than `a`.
pub proof fn lemma_exceeds_passes_on(a: Similarity, b: Similarity, c: Similarity)
    requires
        !a.exceeds(b),
        c.exceeds(b),
    ensures
        c.exceeds(a),
{
    let (na, da) = (a.numerator(), a.denominator());
    let (nb, db) = (b.numerator(), b.denominator());
    let (nc, dc) = (c.numerator(), c.denominator());
    assert(na * dc < nc * da) by (nonlinear_arith)
        requires
            na * db <= nb * da,
            nc * db > nb * dc,
            na >= 0,
            nb >= 0,
            nc >= 0,
            da > 0,
            db > 0,
            dc > 0,
    ;
}

/// No likeness is greater than itself, and of two, at most one is the greater.
pub proof fn lemma_exceeds_is_one_sided(a: Similarity, b: Similarity)
    ensures
        !a.exceeds(a),
        !(a.exceeds(b) && b.exceeds(a)),
{
}

/// A likeness in which all of both strings is shared clears the cutoff, and
/// no likeness that counts no byte twice is greater.
pub proof fn lemma_full_likeness_is_greatest(full: Similarity, other: Similarity)
    requires
        full.matched == full.first_len,
        full.matched == full.second_len,
        other.wf(),
    ensures
        full.clears_cutoff(),
        !other.exceeds(full),
{
    let whole = full.denominator();
    assert(full.numerator() == whole);
    assert(other.numerator() * whole <= other.denominator() * whole) by (nonlinear_arith)
        requires
            other.numerator() <= other.denominator(),
            whole > 0,
    ;
}

/// A vocabulary has at most one best match for a text.
pub proof fn lemma_best_match_is_unique(
    vocabulary: Seq<Seq<char>>,
    text: Seq<char>,
    i: int,
    j: int,
)
    requires
        is_best_match(vocabulary, text, i),
        is_best_match(vocabulary, text, j),
    ensures
        i == j,
{
    if i < j {
        lemma_exceeds_is_one_sided(likeness(vocabulary[i], text), likeness(vocabulary[j], text));
    } else if j < i {
        lemma_exceeds_is_one_sided(likeness(vocabulary[i], text), likeness(vocabulary[j], text));
    }
}

/// Where no word is accepted, there is no best match; where word `i` is the
/// best match, [`best_word`] is that word.
pub proof fn lemma_best_word(vocabulary: Seq<Seq<char>>, text: Seq<char>, i: int)
    ensures
        none_accepted(vocabulary, text, vocabulary.len() as int) ==> best_word(vocabulary, text)
            == None::<Seq<char>>,
        is_best_match(vocabulary, text, i) ==> best_word(vocabulary, text) == Some(vocabulary[i]),
{
    if is_best_match(vocabulary, text, i) {
        let k = choose|k: int| is_best_match(vocabulary, text, k);
        lemma_best_match_is_unique(vocabulary, text, i, k);
    }
}

/// Finds the word of the vocabulary that is most like the text: among the
/// accepted words the one of greatest likeness, and of several such the
/// first. The result is its place in the vocabulary.
pub fn best_match(text: &str, vocabulary: &Vec<String>) -> (best: Option<usize>)
    ensures
        match best {
            Some(i) => is_best_match(words_of(vocabulary@), text@, i as int),
            None => none_accepted(words_of(vocabulary@), text@, vocabulary.len() as int),
        },
{
    let ghost words = words_of(vocabulary@);
    let mut best: Option<(usize, Similarity)> = None;
    let mut n: usize = 0;
    while n < vocabulary.len()
        invariant
            n <= vocabulary.len(),
            words == words_of(vocabulary@),
            match best {
                Some((i, most)) => is_best_among(words, text@, i as int, n as int) && most
                    == likeness(words[i as int], text@),
                None => none_accepted(words, text@, n as int),
            },
        decreases vocabulary.len() - n,
    {
        let found = Similarity::similarity(vocabulary[n].as_str(), text);
        assert(words[n as int] == vocabulary[n as int]@);
        if let Some(alike) = found {
            if alike.is_accepted() {
                let better = match best {
                    Some((_, most)) => alike.is_greater_than(&most),
                    None => true,
                };
                if better {
                    proof {
                        if let Some((i, most)) = best {
                            assert forall|j: int|
                                0 <= j < n && #[trigger] accepted(
                                    words[j],
                                    text@,
                                ) implies alike.exceeds(likeness(words[j], text@)) by {
                                let other = likeness(words[j], text@);
                                if j != i {
                                    if j < i {
                                        lemma_exceeds_is_one_sided(most, other);
                                    }
                                    lemma_exceeds_passes_on(other, most, alike);
                                }
                            }
                        }
                    }
                    best = Some((n, alike));
                }
            }
        }
        n += 1;
    }
    match best {
        Some((i, _)) => Some(i),
        None => None,
    }
}

} // verus!
