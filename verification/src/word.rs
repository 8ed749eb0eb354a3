use vstd::prelude::*;

verus! {

/// A failure while constructing a `Word` from raw text.
#[derive(Debug, Clone, PartialEq, Eq, Structural)]
pub enum WordError {
    /// The text held fewer than five characters; carries how many it held.
    TooShort(usize),
}

/// The per-position outcome of matching a guessed letter against the
/// hidden word.
#[derive(Debug, Clone, Copy, PartialEq, Eq, Structural)]
pub enum LetterMatch {
    Correct,
    Present,
    Absent,
}

/// A fixed five-letter word, the unit the game is played with.
#[derive(Debug, Clone, Copy, PartialEq, Eq)]
pub struct Word([char; 5]);

impl View for Word {
    type V = Seq<char>;

    closed spec fn view(&self) -> Seq<char> {
        self.0@
    }
}

/// How many of the first `n` characters of `s` equal `c`.
pub open spec fn count_eq_upto(s: Seq<char>, c: char, n: int) -> nat
    decreases n,
{
    if n <= 0 {
        0
    } else {
        count_eq_upto(s, c, n - 1) + (if s[n - 1] == c {
            1nat
        } else {
            0nat
        })
    }
}

/// How many of the first `n` positions hold `c` in the guess and match the
/// hidden word exactly.
pub open spec fn count_correct_upto(h: Seq<char>, g: Seq<char>, c: char, n: int) -> nat
    decreases n,
{
    if n <= 0 {
        0
    } else {
        count_correct_upto(h, g, c, n - 1) + (if g[n - 1] == c && h[n - 1] == g[n - 1] {
            1nat
        } else {
            0nat
        })
    }
}

/// How many of the first `n` positions hold `c` in the guess and are marked
/// `Present` when guess `g` is evaluated against hidden word `h`.
pub open spec fn count_present_upto(h: Seq<char>, g: Seq<char>, c: char, n: int) -> nat
    decreases n, 0int,
{
    if n <= 0 {
        0
    } else {
        count_present_upto(h, g, c, n - 1) + (if g[n - 1] == c && spec_status(h, g, n - 1)
            == LetterMatch::Present {
            1nat
        } else {
            0nat
        })
    }
}

/// The status of position `i` when guess `g` is evaluated against hidden
/// word `h`: an exact match is `Correct`; otherwise the letter is `Present`
/// only while the hidden word still has occurrences of it left over after
/// all exact matches and all earlier `Present` marks of the same letter.
pub open spec fn spec_status(h: Seq<char>, g: Seq<char>, i: int) -> LetterMatch
    decreases i, 1int,
{
    if g[i] == h[i] {
        LetterMatch::Correct
    } else if count_eq_upto(h, g[i], h.len() as int) > count_correct_upto(
        h,
        g,
        g[i],
        h.len() as int,
    ) + count_present_upto(h, g, g[i], i) {
        LetterMatch::Present
    } else {
        LetterMatch::Absent
    }
}

/// The whole match-list for guess `g` against hidden word `h`.
pub open spec fn spec_match(h: Seq<char>, g: Seq<char>) -> Seq<LetterMatch> {
    Seq::new(g.len(), |i: int| spec_status(h, g, i))
}

impl Word {
    /// Builds a word directly from five characters.
    pub fn from(value: [char; 5]) -> (w: Word)
        ensures
            w@ == value@,
    {
        Word(value)
    }

    /// Builds a word from the first five characters of `s`; fails when `s`
    /// holds fewer than five characters.
    pub fn try_from(s: &str) -> (r: Result<Word, WordError>)
        ensures
            s@.len() >= 5 ==> (r matches Ok(w) && w@ == s@.take(5)),
            s@.len() < 5 ==> r == Err::<Word, WordError>(WordError::TooShort(s@.len() as usize)),
    {
        let n = s.unicode_len();
        if n < 5 {
            return Err(WordError::TooShort(n));
        }
        let w = Word(
            [s.get_char(0), s.get_char(1), s.get_char(2), s.get_char(3), s.get_char(4)],
        );
        proof {
            assert(w@ =~= s@.take(5));
        }
        Ok(w)
    }

    /// Counts how many of this word's letters equal `c`.
    fn count_eq(&self, c: char) -> (r: usize)
        ensures
            r == count_eq_upto(self@, c, 5),
            r <= 5,
    {
        let mut cnt: usize = 0;
        let mut j: usize = 0;
        while j < 5
            invariant
                j <= 5,
                cnt <= j,
                cnt == count_eq_upto(self@, c, j as int),
            decreases 5 - j,
        {
            if self.0[j] == c {
                cnt = cnt + 1;
            }
            j = j + 1;
        }
        cnt
    }

    /// Counts the positions where the guess `g` holds `c` and matches this
    /// word exactly.
    fn count_correct(&self, g: &Word, c: char) -> (r: usize)
        ensures
            r == count_correct_upto(self@, g@, c, 5),
            r <= 5,
    {
        let mut cnt: usize = 0;
        let mut j: usize = 0;
        while j < 5
            invariant
                j <= 5,
                cnt <= j,
                cnt == count_correct_upto(self@, g@, c, j as int),
            decreases 5 - j,
        {
            if g.0[j] == c && self.0[j] == g.0[j] {
                cnt = cnt + 1;
            }
            j = j + 1;
        }
        cnt
    }

    /// Evaluates the guess `word` against this word as the hidden word,
    /// producing one status per position with duplicate-letter accounting:
    /// exact matches are `Correct`, and a letter is `Present` only as long
    /// as the hidden word has unconsumed occurrences of it.
    pub fn match_word(&self, word: &Word) -> (r: [LetterMatch; 5])
        ensures
            r@ == spec_match(self@, word@),
    {
        let mut res: Vec<LetterMatch> = Vec::new();
        let mut i: usize = 0;
        while i < 5
            invariant
                i <= 5,
                res@.len() == i,
                forall|j: int| 0 <= j < i ==> res@[j] == spec_status(self@, word@, j),
            decreases 5 - i,
        {
            let c = word.0[i];
            if c == self.0[i] {
                res.push(LetterMatch::Correct);
            } else {
                let total = self.count_eq(c);
                let corr = self.count_correct(word, c);
                let mut pres: usize = 0;
                let mut j: usize = 0;
                while j < i
                    invariant
                        j <= i <= 5,
                        res@.len() == i,
                        forall|k: int| 0 <= k < i ==> res@[k] == spec_status(self@, word@, k),
                        pres <= j,
                        pres == count_present_upto(self@, word@, c, j as int),
                    decreases i - j,
                {
                    if word.0[j] == c && matches!(res[j], LetterMatch::Present) {
                        pres = pres + 1;
                    }
                    j = j + 1;
                }
                if total > corr + pres {
                    res.push(LetterMatch::Present);
                } else {
                    res.push(LetterMatch::Absent);
                }
            }
            i = i + 1;
        }
        let r = [res[0], res[1], res[2], res[3], res[4]];
        proof {
            assert(r@ =~= spec_match(self@, word@));
        }
        r
    }

    /// True iff `ch` occurs at any of the five positions.
    pub fn contains(&self, ch: char) -> (r: bool)
        ensures
            r == self@.contains(ch),
    {
        let mut j: usize = 0;
        while j < 5
            invariant
                j <= 5,
                forall|k: int| 0 <= k < j ==> self@[k] != ch,
            decreases 5 - j,
        {
            if self.0[j] == ch {
                return true;
            }
            j = j + 1;
        }
        proof {
            assert(!self@.contains(ch));
        }
        false
    }

    /// True iff the letter at position `idx` is `ch`.
    pub fn contains_at(&self, ch: char, idx: usize) -> (r: bool)
        requires
            idx < 5,
        ensures
            r == (self@[idx as int] == ch),
    {
        self.0[idx] == ch
    }

    /// The word's identity hash: each character's code point packed into
    /// its own byte lane of a 64-bit value.
    #[inline]
    pub fn hash(&self) -> (r: u64)
        ensures
            r == hash_of(self@),
    {
        let a0 = self.0[0] as u64;
        let a1 = self.0[1] as u64;
        let a2 = self.0[2] as u64;
        let a3 = self.0[3] as u64;
        let a4 = self.0[4] as u64;
        a0 | (a1 << 8) | (a2 << 16) | (a3 << 24) | (a4 << 32)
    }

    /// Renders this word under the given match-list: each letter in order,
    /// wrapped in the escape its status calls for.
    pub fn format(&self, matches: [LetterMatch; 5]) -> (r: String)
        ensures
            r@ == formatted_upto(self@, matches@, 5),
    {
        let mut fmt = String::new();
        let mut i: usize = 0;
        while i < 5
            invariant
                i <= 5,
                fmt@ == formatted_upto(self@, matches@, i as int),
            decreases 5 - i,
        {
            let piece = matches[i].format_char(self.0[i]);
            fmt.append(piece.as_str());
            i = i + 1;
        }
        fmt
    }
}

/// The identity hash of a five-character sequence: five byte lanes, one
/// per character, in order.
pub open spec fn hash_of(s: Seq<char>) -> u64 {
    (s[0] as u64) | ((s[1] as u64) << 8) | ((s[2] as u64) << 16) | ((s[3] as u64) << 24) | ((
    s[4] as u64) << 32)
}

/// The ANSI green-foreground rendering of `c`: the green escape, the
/// character, then the default-foreground reset.
pub open spec fn green_seq(c: char) -> Seq<char> {
    seq!['\u{1b}', '[', '3', '2', 'm', c, '\u{1b}', '[', '3', '9', 'm']
}

/// The ANSI yellow-foreground rendering of `c`: the yellow escape, the
/// character, then the default-foreground reset.
pub open spec fn yellow_seq(c: char) -> Seq<char> {
    seq!['\u{1b}', '[', '3', '3', 'm', c, '\u{1b}', '[', '3', '9', 'm']
}

/// How one character is rendered under a status: green for `Correct`,
/// yellow for `Present`, plain for `Absent`.
pub open spec fn styled(m: LetterMatch, c: char) -> Seq<char> {
    match m {
        LetterMatch::Correct => green_seq(c),
        LetterMatch::Present => yellow_seq(c),
        LetterMatch::Absent => seq![c],
    }
}

/// The rendering of the first `n` positions of word `w` under the
/// match-list `ms`, in order.
pub open spec fn formatted_upto(w: Seq<char>, ms: Seq<LetterMatch>, n: int) -> Seq<char>
    decreases n,
{
    if n <= 0 {
        Seq::empty()
    } else {
        formatted_upto(w, ms, n - 1) + styled(ms[n - 1], w[n - 1])
    }
}

/// Relies on owo_colors::OwoColorize::green and its Display impl: the
/// output is the ANSI green foreground escape, the character, and the
/// default-foreground escape.
#[verifier::external_body]
fn green_char(c: char) -> (r: String)
    ensures
        r@ == green_seq(c),
{
    owo_colors::OwoColorize::green(&c).to_string()
}

/// Relies on owo_colors::OwoColorize::yellow and its Display impl: the
/// output is the ANSI yellow foreground escape, the character, and the
/// default-foreground escape.
#[verifier::external_body]
fn yellow_char(c: char) -> (r: String)
    ensures
        r@ == yellow_seq(c),
{
    owo_colors::OwoColorize::yellow(&c).to_string()
}

/// Relies on String::push: appends the character to the end of the string.
#[verifier::external_body]
fn push_char(s: &mut String, c: char)
    ensures
        final(s)@ == old(s)@.push(c),
{
    s.push(c)
}

impl LetterMatch {
    /// Renders `c` under this status as a standalone string.
    pub fn format_char(&self, c: char) -> (r: String)
        ensures
            r@ == styled(*self, c),
    {
        match self {
            LetterMatch::Correct => green_char(c),
            LetterMatch::Present => yellow_char(c),
            LetterMatch::Absent => {
                let mut s = String::new();
                push_char(&mut s, c);
                proof {
                    assert(s@ =~= seq![c]);
                }
                s
            },
        }
    }

    pub fn is_correct(self) -> (r: bool)
        ensures
            r == (self == LetterMatch::Correct),
    {
        matches!(self, LetterMatch::Correct)
    }

    pub fn is_present(self) -> (r: bool)
        ensures
            r == (self == LetterMatch::Present),
    {
        matches!(self, LetterMatch::Present)
    }

    pub fn is_absent(self) -> (r: bool)
        ensures
            r == (self == LetterMatch::Absent),
    {
        matches!(self, LetterMatch::Absent)
    }
}

/// A match-list that marks every position `Correct`.
pub fn correct_all() -> (r: [LetterMatch; 5])
    ensures
        r@ =~= spec_all(LetterMatch::Correct),
{
    [
        LetterMatch::Correct,
        LetterMatch::Correct,
        LetterMatch::Correct,
        LetterMatch::Correct,
        LetterMatch::Correct,
    ]
}

/// A match-list that marks every position `Present`.
pub fn present_all() -> (r: [LetterMatch; 5])
    ensures
        r@ =~= spec_all(LetterMatch::Present),
{
    [
        LetterMatch::Present,
        LetterMatch::Present,
        LetterMatch::Present,
        LetterMatch::Present,
        LetterMatch::Present,
    ]
}

/// A match-list that marks every position `Absent`.
pub fn absent_all() -> (r: [LetterMatch; 5])
    ensures
        r@ =~= spec_all(LetterMatch::Absent),
{
    [
        LetterMatch::Absent,
        LetterMatch::Absent,
        LetterMatch::Absent,
        LetterMatch::Absent,
        LetterMatch::Absent,
    ]
}

/// Five copies of one status.
pub open spec fn spec_all(m: LetterMatch) -> Seq<LetterMatch> {
    Seq::new(5, |i: int| m)
}

/// Every word holds exactly five characters.
pub proof fn lemma_word_len(w: Word)
    ensures
        w@.len() == 5,
{
}

/// A word matched against itself is `Correct` at every position.
pub proof fn lemma_self_match(w: Seq<char>)
    ensures
        spec_match(w, w) =~= Seq::new(w.len(), |i: int| LetterMatch::Correct),
{
}

/// An exact letter match is always marked `Correct`, never anything else.
pub proof fn lemma_correct_position(h: Seq<char>, g: Seq<char>, i: int)
    requires
        0 <= i < g.len(),
        g[i] == h[i],
    ensures
        spec_status(h, g, i) == LetterMatch::Correct,
{
}

proof fn lemma_count_eq_zero(s: Seq<char>, c: char, n: int)
    requires
        forall|j: int| 0 <= j < n ==> s[j] != c,
    ensures
        count_eq_upto(s, c, n) == 0,
    decreases n,
{
    if n > 0 {
        lemma_count_eq_zero(s, c, n - 1);
    }
}

/// Two words sharing no letter at all match as all-`Absent`.
pub proof fn lemma_no_overlap(h: Seq<char>, g: Seq<char>)
    requires
        h.len() == g.len(),
        forall|i: int, j: int| 0 <= i < h.len() && 0 <= j < g.len() ==> h[i] != g[j],
    ensures
        spec_match(h, g) =~= Seq::new(g.len(), |i: int| LetterMatch::Absent),
{
    assert forall|i: int| 0 <= i < g.len() implies spec_status(h, g, i)
        == LetterMatch::Absent by {
        lemma_count_eq_zero(h, g[i], h.len() as int);
    }
}

proof fn lemma_correct_le_count(h: Seq<char>, g: Seq<char>, c: char, n: int)
    ensures
        count_correct_upto(h, g, c, n) <= count_eq_upto(h, c, n),
    decreases n,
{
    if n > 0 {
        lemma_correct_le_count(h, g, c, n - 1);
    }
}

proof fn lemma_marked_le_count(h: Seq<char>, g: Seq<char>, c: char, i: int)
    requires
        h.len() == g.len(),
        i >= 0,
    ensures
        count_correct_upto(h, g, c, h.len() as int) + count_present_upto(h, g, c, i)
            <= count_eq_upto(h, c, h.len() as int),
    decreases i,
{
    if i <= 0 {
        lemma_correct_le_count(h, g, c, h.len() as int);
    } else {
        lemma_marked_le_count(h, g, c, i - 1);
        if g[i - 1] == c && spec_status(h, g, i - 1) == LetterMatch::Present {
            assert(count_eq_upto(h, c, h.len() as int) > count_correct_upto(
                h,
                g,
                c,
                h.len() as int,
            ) + count_present_upto(h, g, c, i - 1));
        }
    }
}

/// Duplicate-letter bound: for any letter `c`, the positions of the guess
/// marked `Correct` or `Present` for `c` never outnumber the occurrences of
/// `c` in the hidden word.
pub proof fn lemma_duplicate_letter_bound(h: Seq<char>, g: Seq<char>, c: char)
    requires
        h.len() == g.len(),
    ensures
        count_correct_upto(h, g, c, g.len() as int) + count_present_upto(h, g, c, g.len() as int)
            <= count_eq_upto(h, c, h.len() as int),
{
    lemma_marked_le_count(h, g, c, g.len() as int);
}

/// The identity hash separates any two five-letter words whose characters
/// all lie below code point 256 (in particular, any two ASCII-letter
/// words); being a pure function of the letters, it is also deterministic.
pub proof fn lemma_hash_injective(w1: Seq<char>, w2: Seq<char>)
    requires
        w1.len() == 5,
        w2.len() == 5,
        forall|i: int| 0 <= i < 5 ==> (w1[i] as u64) < 256,
        forall|i: int| 0 <= i < 5 ==> (w2[i] as u64) < 256,
        hash_of(w1) == hash_of(w2),
    ensures
        w1 =~= w2,
{
    let b0 = w1[0] as u64;
    let b1 = w1[1] as u64;
    let b2 = w1[2] as u64;
    let b3 = w1[3] as u64;
    let b4 = w1[4] as u64;
    let c0 = w2[0] as u64;
    let c1 = w2[1] as u64;
    let c2 = w2[2] as u64;
    let c3 = w2[3] as u64;
    let c4 = w2[4] as u64;
    assert(b0 < 256 && b1 < 256 && b2 < 256 && b3 < 256 && b4 < 256 && c0 < 256 && c1 < 256 && c2
        < 256 && c3 < 256 && c4 < 256 && (b0 | (b1 << 8) | (b2 << 16) | (b3 << 24) | (b4 << 32))
        == (c0 | (c1 << 8) | (c2 << 16) | (c3 << 24) | (c4 << 32)) ==> b0 == c0 && b1 == c1 && b2
        == c2 && b3 == c3 && b4 == c4) by (bit_vector);
    assert forall|i: int| 0 <= i < 5 implies w1[i] == w2[i] by {
        vstd::utf8::char_u32_cast(w1[i], w1[i] as u32);
        vstd::utf8::char_u32_cast(w2[i], w2[i] as u32);
    }
}

} // verus!

