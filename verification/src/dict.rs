use vstd::prelude::*;

use crate::word::{hash_of, Word, WordError};

verus! {

broadcast use vstd::std_specs::hash::group_hash_axioms;

/// A failure while building a dictionary.
#[derive(Debug, Clone, PartialEq, Eq, Structural)]
pub enum DictError {
    /// The vocabulary source could not be read.
    Io,
    /// A token of the vocabulary text was not a valid word.
    Word(WordError),
}

/// Whether `c` separates tokens of a vocabulary text.
pub uninterp spec fn is_unicode_ws(c: char) -> bool;

/// Relies on char::is_whitespace: true exactly on the characters with the
/// Unicode White_Space property.
pub assume_specification[ char::is_whitespace ](c: char) -> (r: bool)
    ensures
        r == is_unicode_ws(c),
;

/// The whitespace-splitting scan over the first `n` characters of `s`: the
/// tokens completed so far, and the partial token still open.
pub open spec fn scan_tokens(s: Seq<char>, n: int) -> (Seq<Seq<char>>, Seq<char>)
    decreases n,
{
    if n <= 0 {
        (Seq::empty(), Seq::empty())
    } else {
        let prev = scan_tokens(s, n - 1);
        if is_unicode_ws(s[n - 1]) {
            if prev.1.len() > 0 {
                (prev.0.push(prev.1), Seq::empty())
            } else {
                (prev.0, Seq::empty())
            }
        } else {
            (prev.0, prev.1.push(s[n - 1]))
        }
    }
}

/// The maximal whitespace-free tokens of `s`, in order.
pub open spec fn tokens_of(s: Seq<char>) -> Seq<Seq<char>> {
    let end = scan_tokens(s, s.len() as int);
    if end.1.len() > 0 {
        end.0.push(end.1)
    } else {
        end.0
    }
}

/// True iff every token is long enough to yield a word.
pub open spec fn all_tokens_long(toks: Seq<Seq<char>>) -> bool {
    forall|i: int| 0 <= i < toks.len() ==> toks[i].len() >= 5
}

/// The length of the first token shorter than five characters.
pub open spec fn first_short_len(toks: Seq<Seq<char>>) -> nat
    decreases toks.len(),
{
    if toks.len() == 0 {
        0
    } else if toks[0].len() < 5 {
        toks[0].len()
    } else {
        first_short_len(toks.drop_first())
    }
}

/// The identity hashes of the words made from the first `n` tokens.
pub open spec fn token_hashes(toks: Seq<Seq<char>>, n: int) -> Set<u64>
    decreases n,
{
    if n <= 0 {
        Set::empty()
    } else {
        token_hashes(toks, n - 1).insert(hash_of(toks[n - 1].take(5)))
    }
}

proof fn lemma_scan_prefix(s: Seq<char>, i: int, j: int)
    requires
        0 <= i <= j,
    ensures
        scan_tokens(s, i).0.len() <= scan_tokens(s, j).0.len(),
        forall|k: int|
            0 <= k < scan_tokens(s, i).0.len() ==> scan_tokens(s, j).0[k] == scan_tokens(
                s,
                i,
            ).0[k],
    decreases j - i,
{
    if i < j {
        lemma_scan_prefix(s, i, j - 1);
    }
}

proof fn lemma_token_hashes_agree(t1: Seq<Seq<char>>, t2: Seq<Seq<char>>, n: int)
    requires
        n <= t1.len(),
        n <= t2.len(),
        forall|k: int| 0 <= k < n ==> t1[k] == t2[k],
    ensures
        token_hashes(t1, n) == token_hashes(t2, n),
    decreases n,
{
    if n > 0 {
        lemma_token_hashes_agree(t1, t2, n - 1);
    }
}

proof fn lemma_first_short(toks: Seq<Seq<char>>, k: int)
    requires
        0 <= k < toks.len(),
        forall|j: int| 0 <= j < k ==> toks[j].len() >= 5,
        toks[k].len() < 5,
    ensures
        !all_tokens_long(toks),
        first_short_len(toks) == toks[k].len(),
    decreases k,
{
    if k == 0 {
    } else {
        lemma_first_short(toks.drop_first(), k - 1);
    }
}

/// An in-memory vocabulary: the set of identity hashes of its words.
#[derive(Debug, Default)]
pub struct Dict {
    valid_words: std::collections::HashSet<u64>,
}

impl View for Dict {
    type V = Set<u64>;

    closed spec fn view(&self) -> Set<u64> {
        self.valid_words@
    }
}

impl Dict {
    /// An empty dictionary: no word is valid yet.
    #[must_use]
    pub fn new() -> (d: Dict)
        ensures
            d@ == Set::<u64>::empty(),
    {
        Dict { valid_words: std::collections::HashSet::new() }
    }

    /// Records `word` as valid; inserting it again changes nothing.
    pub fn add_word(&mut self, word: &Word)
        ensures
            final(self)@ == old(self)@.insert(hash_of(word@)),
    {
        self.valid_words.insert(word.hash());
    }

    /// Records every word of `words` as valid.
    pub fn add_words(&mut self, words: &[Word])
        ensures
            final(self)@ == old(self)@.union(word_hashes_upto(words@, words@.len() as int)),
    {
        let n = words.len();
        let mut i: usize = 0;
        while i < n
            invariant
                i <= n == words@.len(),
                self@ == old(self)@.union(word_hashes_upto(words@, i as int)),
            decreases n - i,
        {
            proof {
                assert(old(self)@.union(word_hashes_upto(words@, i + 1)) =~= old(self)@.union(
                    word_hashes_upto(words@, i as int),
                ).insert(hash_of(words@[i as int]@)));
            }
            self.add_word(&words[i]);
            i = i + 1;
        }
    }

    /// True iff `word` was recorded, by its identity hash.
    pub fn is_valid(&self, word: &Word) -> (r: bool)
        ensures
            r == self@.contains(hash_of(word@)),
    {
        self.valid_words.contains(&word.hash())
    }

    /// Builds a dictionary from whitespace-separated text: one word per
    /// token, keyed by identity hash. Fails on the first token shorter
    /// than five characters, and then yields no dictionary at all.
    pub fn parse_str(s: &str) -> (r: Result<Dict, DictError>)
        ensures
            all_tokens_long(tokens_of(s@)) ==> (r matches Ok(d) && d@ == token_hashes(
                tokens_of(s@),
                tokens_of(s@).len() as int,
            )),
            !all_tokens_long(tokens_of(s@)) ==> r == Err::<Dict, DictError>(
                DictError::Word(WordError::TooShort(first_short_len(tokens_of(s@)) as usize)),
            ),
    {
        let n = s.unicode_len();
        let mut d = Dict::new();
        let mut cur: Vec<char> = Vec::new();
        let mut i: usize = 0;
        while i < n
            invariant
                i <= n == s@.len(),
                cur@ == scan_tokens(s@, i as int).1,
                d@ == token_hashes(
                    scan_tokens(s@, i as int).0,
                    scan_tokens(s@, i as int).0.len() as int,
                ),
                all_tokens_long(scan_tokens(s@, i as int).0),
            decreases n - i,
        {
            let c = s.get_char(i);
            if c.is_whitespace() {
                if cur.len() > 0 {
                    let ghost done = scan_tokens(s@, i as int).0;
                    if cur.len() < 5 {
                        proof {
                            lemma_close_token(s@, i + 1, done, cur@);
                        }
                        return Err(DictError::Word(WordError::TooShort(cur.len())));
                    }
                    let w = Word::from([cur[0], cur[1], cur[2], cur[3], cur[4]]);
                    d.add_word(&w);
                    proof {
                        assert(w@ =~= cur@.take(5));
                        lemma_token_hashes_agree(done, done.push(cur@), done.len() as int);
                    }
                    cur.clear();
                }
            } else {
                cur.push(c);
            }
            i = i + 1;
        }
        if cur.len() > 0 {
            let ghost done = scan_tokens(s@, n as int).0;
            if cur.len() < 5 {
                proof {
                    lemma_first_short(tokens_of(s@), done.len() as int);
                }
                return Err(DictError::Word(WordError::TooShort(cur.len())));
            }
            let w = Word::from([cur[0], cur[1], cur[2], cur[3], cur[4]]);
            d.add_word(&w);
            proof {
                assert(w@ =~= cur@.take(5));
                lemma_token_hashes_agree(done, done.push(cur@), done.len() as int);
            }
        }
        Ok(d)
    }
}

/// The step that closes a short token midway through the text: that token
/// is the first short one of the whole text.
proof fn lemma_close_token(s: Seq<char>, m: int, done: Seq<Seq<char>>, cur: Seq<char>)
    requires
        0 <= m <= s.len(),
        scan_tokens(s, m).0 == done.push(cur),
        all_tokens_long(done),
        0 < cur.len() < 5,
    ensures
        !all_tokens_long(tokens_of(s)),
        first_short_len(tokens_of(s)) == cur.len(),
{
    lemma_scan_prefix(s, m, s.len() as int);
    let full = tokens_of(s);
    let end = scan_tokens(s, s.len() as int).0;
    assert(full[done.len() as int] == cur);
    assert forall|j: int| 0 <= j < done.len() implies full[j].len() >= 5 by {
        assert(end[j] == scan_tokens(s, m).0[j]);
        assert(scan_tokens(s, m).0[j] == done[j]);
    }
    lemma_first_short(full, done.len() as int);
}

/// The identity hashes of the first `n` words of a slice.
pub open spec fn word_hashes_upto(ws: Seq<Word>, n: int) -> Set<u64>
    decreases n,
{
    if n <= 0 {
        Set::empty()
    } else {
        word_hashes_upto(ws, n - 1).insert(hash_of(ws[n - 1]@))
    }
}

/// Membership round-trip over the dictionary's model: a hash just added is
/// a member, and adding one hash never makes a different, absent hash a
/// member.
pub proof fn lemma_membership_round_trip(s: Set<u64>, h: u64, h2: u64)
    ensures
        s.insert(h).contains(h),
        h2 != h && !s.contains(h2) ==> !s.insert(h).contains(h2),
{
}

/// A word that differs from every word recorded is not a member of the
/// recorded hashes, as long as every character involved stays below code
/// point 256, where the identity hash separates words.
pub proof fn lemma_unadded_word_invalid(ws: Seq<Word>, w: Word, n: int)
    requires
        0 <= n <= ws.len(),
        forall|i: int| 0 <= i < w@.len() ==> (w@[i] as u64) < 256,
        forall|i: int, j: int|
            0 <= i < ws.len() && 0 <= j < ws[i]@.len() ==> (ws[i]@[j] as u64) < 256,
        forall|i: int| 0 <= i < n ==> ws[i]@ != w@,
    ensures
        !word_hashes_upto(ws, n).contains(hash_of(w@)),
    decreases n,
{
    if n > 0 {
        lemma_unadded_word_invalid(ws, w, n - 1);
        crate::word::lemma_word_len(ws[n - 1]);
        crate::word::lemma_word_len(w);
        if hash_of(ws[n - 1]@) == hash_of(w@) {
            crate::word::lemma_hash_injective(ws[n - 1]@, w@);
        }
    }
}

} // verus!
