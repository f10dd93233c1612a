//! Passphrase generation: a configuration over two word lists, a uniform
//! draw of one word, and the assembly of several draws joined by a
//! delimiter.

use vstd::prelude::*;
use vstd::arithmetic::power::pow;
use crate::random;

verus! {

/// One invocation's configuration: how many words per passphrase, how many
/// passphrases, the join delimiter, the output mode, and the two word lists
/// to draw from.
pub struct Spiceware {
    pub num_words: u32,
    pub num_passwords: u32,
    pub delimiter: String,
    pub quiet: bool,
    pub short: bool,
    pub words: Vec<String>,
    pub short_words: Vec<String>,
}

/// The words of `ws` joined with the delimiter `d`: the delimiter stands
/// between adjacent words and nowhere else; no words give the empty sequence.
pub open spec fn join_with(ws: Seq<Seq<char>>, d: Seq<char>) -> Seq<char>
    decreases ws.len(),
{
    if ws.len() == 0 {
        Seq::empty()
    } else if ws.len() == 1 {
        ws[0]
    } else {
        ws[0] + d + join_with(ws.drop_first(), d)
    }
}

/// The words of `ws` each followed by the delimiter `d`: the shape of a
/// passphrase still under assembly, before its last word.
pub open spec fn join_terminated(ws: Seq<Seq<char>>, d: Seq<char>) -> Seq<char>
    decreases ws.len(),
{
    if ws.len() == 0 {
        Seq::empty()
    } else {
        ws[0] + d + join_terminated(ws.drop_first(), d)
    }
}

/// Appending a last word to an assembly whose words all carry a trailing
/// delimiter yields the join of all the words.
proof fn lemma_join_with_push(ws: Seq<Seq<char>>, w: Seq<char>, d: Seq<char>)
    ensures
        join_with(ws.push(w), d) == join_terminated(ws, d) + w,
    decreases ws.len(),
{
    if ws.len() == 0 {
        assert(ws.push(w)[0] == w);
        assert(join_with(ws.push(w), d) =~= join_terminated(ws, d) + w);
    } else {
        assert(ws.push(w).drop_first() =~= ws.drop_first().push(w));
        lemma_join_with_push(ws.drop_first(), w, d);
        assert(ws.push(w)[0] == ws[0]);
        assert(join_with(ws.push(w), d) =~= join_terminated(ws, d) + w);
    }
}

/// Appending one more delimiter-terminated word extends the assembly at its
/// end.
proof fn lemma_join_terminated_push(ws: Seq<Seq<char>>, w: Seq<char>, d: Seq<char>)
    ensures
        join_terminated(ws.push(w), d) == join_terminated(ws, d) + w + d,
    decreases ws.len(),
{
    if ws.len() == 0 {
        assert(ws.push(w)[0] == w);
        assert(ws.push(w).drop_first() =~= ws);
        assert(join_terminated(ws, d) == Seq::<char>::empty());
        assert(join_terminated(ws.push(w), d) == w + d + join_terminated(ws, d));
        assert(join_terminated(ws.push(w), d) =~= join_terminated(ws, d) + w + d);
    } else {
        let t = ws.drop_first();
        assert(ws.push(w).drop_first() =~= t.push(w));
        lemma_join_terminated_push(t, w, d);
        assert(ws.push(w)[0] == ws[0]);
        assert(join_terminated(ws.push(w), d) == ws[0] + d + join_terminated(t.push(w), d));
        assert(join_terminated(ws, d) == ws[0] + d + join_terminated(t, d));
        assert(ws[0] + d + (join_terminated(t, d) + w + d) =~= (ws[0] + d + join_terminated(
            t,
            d,
        )) + w + d);
    }
}

/// Relies on String::with_capacity: the new string is empty; the argument
/// only pre-allocates.
#[verifier::external_body]
fn string_with_capacity(capacity: usize) -> (r: String)
    ensures
        r@ == Seq::<char>::empty(),
{
    String::with_capacity(capacity)
}

impl Spiceware {
    /// The active word list holds at least one word, so a draw is always
    /// possible.
    pub open spec fn has_words(self) -> bool {
        self.active().len() > 0
    }

    /// The word list this configuration draws from.
    pub open spec fn active(self) -> Seq<Seq<char>> {
        if self.short {
            self.short_words.deep_view()
        } else {
            self.words.deep_view()
        }
    }

    /// `s` is a possible passphrase of this configuration: exactly
    /// `num_words` words, each from the active list, joined by the
    /// delimiter.
    pub open spec fn is_passphrase(self, s: Seq<char>) -> bool {
        exists|ws: Seq<Seq<char>>|
            {
                &&& #[trigger] join_with(ws, self.delimiter@) == s
                &&& ws.len() == self.num_words
                &&& forall|i: int| 0 <= i < ws.len() ==> self.active().contains(#[trigger] ws[i])
            }
    }

    /// The word list selected by the `short` flag.
    pub fn wordlist(&self) -> (r: &Vec<String>)
        ensures
            r.deep_view() == self.active(),
    {
        if self.short {
            &self.short_words
        } else {
            &self.words
        }
    }

    /// One uniformly random word of the active list.
    pub fn get_word(&self) -> (r: &str)
        requires
            self.has_words(),
        ensures
            self.active().contains(r@),
    {
        let mut rng = rand::thread_rng();
        let wordlist = self.wordlist();
        proof {
            assert(wordlist.deep_view().len() == wordlist@.len());
        }
        let index = random::index_below(&mut rng, wordlist.len());
        let word = wordlist[index].as_str();
        proof {
            assert(self.active()[index as int] == word@);
        }
        word
    }

    /// The length a passphrase of this configuration can reach at most:
    /// `num_words` words of the largest word length, and `num_words - 1`
    /// delimiters, capped at the machine word.
    pub open spec fn spec_worst_case_size(self) -> nat {
        if self.num_words == 0 {
            0
        } else {
            let ideal = self.num_words * spec_max_word_len(self.active()) + (self.num_words
                - 1) * self.delimiter@.len();
            if ideal > usize::MAX {
                usize::MAX as nat
            } else {
                ideal as nat
            }
        }
    }

    /// An upper bound on the length of any passphrase this configuration can
    /// produce; used to size the buffer before assembly.
    pub fn worst_case_passphrase_size(&self) -> (r: usize)
        ensures
            r == self.spec_worst_case_size(),
    {
        if self.num_words == 0 {
            return 0;
        }
        let word_size = max_word_len(self.wordlist());
        let n = self.num_words as usize;
        let words_part = match n.checked_mul(word_size) {
            Some(v) => v,
            None => return usize::MAX,
        };
        let delimiter_size = match (n - 1).checked_mul(self.delimiter.as_str().unicode_len()) {
            Some(v) => v,
            None => return usize::MAX,
        };
        match words_part.checked_add(delimiter_size) {
            Some(v) => v,
            None => usize::MAX,
        }
    }

    /// The size of the search space, `L^N` for the active list's length `L`
    /// and `num_words` `N`; `None` exactly when that number exceeds the
    /// machine word.
    pub fn possible_combinations(&self) -> (r: Option<usize>)
        ensures
            r is Some <==> pow(self.active().len() as int, self.num_words as nat) <= usize::MAX,
            r is Some ==> r->Some_0 == pow(self.active().len() as int, self.num_words as nat),
    {
        let wordlist = self.wordlist();
        proof {
            assert(wordlist.deep_view().len() == wordlist@.len());
        }
        crate::math::checked_pow(wordlist.len(), self.num_words)
    }

    /// `num_words` uniformly random words of the active list, joined by the
    /// delimiter; the empty string when `num_words` is zero.
    pub fn gen_passphrase(&self) -> (r: String)
        requires
            self.has_words(),
        ensures
            self.is_passphrase(r@),
    {
        let mut passphrase = string_with_capacity(self.worst_case_passphrase_size());
        let ghost mut ws: Seq<Seq<char>> = Seq::empty();
        if self.num_words == 0 {
            proof {
                assert(join_with(ws, self.delimiter@) == passphrase@);
            }
            return passphrase;
        }
        let mut k: u32 = 0;
        while k < self.num_words - 1
            invariant
                self.has_words(),
                self.num_words >= 1,
                k <= self.num_words - 1,
                ws.len() == k,
                forall|i: int|
                    0 <= i < ws.len() ==> self.active().contains(#[trigger] ws[i]),
                passphrase@ == join_terminated(ws, self.delimiter@),
            decreases self.num_words - 1 - k,
        {
            let word = self.get_word();
            passphrase.append(word);
            passphrase.append(self.delimiter.as_str());
            proof {
                lemma_join_terminated_push(ws, word@, self.delimiter@);
                ws = ws.push(word@);
            }
            k = k + 1;
        }
        let word = self.get_word();
        passphrase.append(word);
        proof {
            lemma_join_with_push(ws, word@, self.delimiter@);
            ws = ws.push(word@);
            assert(join_with(ws, self.delimiter@) == passphrase@);
            assert(ws.len() == self.num_words);
        }
        passphrase
    }
}

/// The length of the longest word of `ws`; zero when `ws` is empty.
pub open spec fn spec_max_word_len(ws: Seq<Seq<char>>) -> nat
    decreases ws.len(),
{
    if ws.len() == 0 {
        0
    } else {
        let rest = spec_max_word_len(ws.drop_last());
        if ws.last().len() > rest {
            ws.last().len()
        } else {
            rest
        }
    }
}

/// How many times the character `c` occurs in `s`.
pub open spec fn count_char(s: Seq<char>, c: char) -> nat
    decreases s.len(),
{
    if s.len() == 0 {
        0
    } else {
        count_char(s.drop_first(), c) + if s[0] == c {
            1nat
        } else {
            0nat
        }
    }
}

/// Occurrences add up over concatenation.
proof fn lemma_count_char_add(a: Seq<char>, b: Seq<char>, c: char)
    ensures
        count_char(a + b, c) == count_char(a, c) + count_char(b, c),
    decreases a.len(),
{
    if a.len() == 0 {
        assert(a + b =~= b);
    } else {
        assert((a + b).drop_first() =~= a.drop_first() + b);
        assert((a + b)[0] == a[0]);
        lemma_count_char_add(a.drop_first(), b, c);
    }
}

/// A sequence without the character holds zero occurrences of it.
proof fn lemma_count_char_zero(s: Seq<char>, c: char)
    requires
        !s.contains(c),
    ensures
        count_char(s, c) == 0,
    decreases s.len(),
{
    if s.len() > 0 {
        assert(s[0] != c);
        assert(forall|i: int| 0 <= i < s.drop_first().len() ==> s.drop_first()[i] == s[i + 1]);
        lemma_count_char_zero(s.drop_first(), c);
    }
}

/// A single-character delimiter that occurs in no word occurs exactly once
/// between each adjacent pair of words in the join, and nowhere else.
proof fn lemma_join_delimiter_count(ws: Seq<Seq<char>>, c: char)
    requires
        ws.len() >= 1,
        forall|i: int| 0 <= i < ws.len() ==> !(#[trigger] ws[i]).contains(c),
    ensures
        count_char(join_with(ws, seq![c]), c) == ws.len() - 1,
    decreases ws.len(),
{
    if ws.len() == 1 {
        lemma_count_char_zero(ws[0], c);
    } else {
        let t = ws.drop_first();
        assert(forall|i: int| 0 <= i < t.len() ==> t[i] == ws[i + 1]);
        lemma_join_delimiter_count(t, c);
        lemma_count_char_zero(ws[0], c);
        lemma_count_char_add(ws[0], seq![c], c);
        lemma_count_char_add(ws[0] + seq![c], join_with(t, seq![c]), c);
        assert(count_char(seq![c], c) == 1) by {
            assert(seq![c][0] == c);
            assert(seq![c].drop_first() =~= Seq::<char>::empty());
            assert(count_char(Seq::<char>::empty(), c) == 0);
        }
    }
}

/// A passphrase built over a single-character delimiter that occurs in no
/// word of the active list holds the delimiter exactly `num_words - 1`
/// times: splitting at it recovers exactly `num_words` words.
pub proof fn lemma_passphrase_delimiter_count(config: Spiceware, s: Seq<char>, c: char)
    requires
        config.is_passphrase(s),
        config.num_words >= 1,
        config.delimiter@ == seq![c],
        forall|i: int|
            0 <= i < config.active().len() ==> !(#[trigger] config.active()[i]).contains(c),
    ensures
        count_char(s, c) == config.num_words - 1,
{
    let ws = choose|ws: Seq<Seq<char>>|
        {
            &&& #[trigger] join_with(ws, config.delimiter@) == s
            &&& ws.len() == config.num_words
            &&& forall|i: int|
                0 <= i < ws.len() ==> config.active().contains(#[trigger] ws[i])
        };
    assert forall|i: int| 0 <= i < ws.len() implies !(#[trigger] ws[i]).contains(c) by {
        let j = choose|j: int| 0 <= j < config.active().len() && config.active()[j] == ws[i];
        assert(!config.active()[j].contains(c));
    }
    lemma_join_delimiter_count(ws, c);
}

/// Every word of `ws` is at most the longest word's length.
pub proof fn lemma_max_word_len_bounds(ws: Seq<Seq<char>>)
    ensures
        forall|i: int| 0 <= i < ws.len() ==> (#[trigger] ws[i]).len() <= spec_max_word_len(ws),
    decreases ws.len(),
{
    if ws.len() > 0 {
        lemma_max_word_len_bounds(ws.drop_last());
        assert(forall|i: int| 0 <= i < ws.len() - 1 ==> ws[i] == ws.drop_last()[i]);
    }
}

/// The join of words each at most `m` long is at most `m` per word plus one
/// delimiter between each adjacent pair.
proof fn lemma_join_with_len(ws: Seq<Seq<char>>, d: Seq<char>, m: nat)
    requires
        forall|i: int| 0 <= i < ws.len() ==> (#[trigger] ws[i]).len() <= m,
    ensures
        ws.len() == 0 ==> join_with(ws, d).len() == 0,
        ws.len() >= 1 ==> join_with(ws, d).len() <= ws.len() * m + (ws.len() - 1) * d.len(),
    decreases ws.len(),
{
    if ws.len() >= 2 {
        let t = ws.drop_first();
        assert(forall|i: int| 0 <= i < t.len() ==> t[i] == ws[i + 1]);
        lemma_join_with_len(t, d, m);
        assert(join_with(ws, d).len() == ws[0].len() + d.len() + join_with(t, d).len());
        assert(ws[0].len() + d.len() + (t.len() * m + (t.len() - 1) * d.len()) <= ws.len() * m
            + (ws.len() - 1) * d.len()) by (nonlinear_arith)
            requires
                ws[0].len() <= m,
                t.len() == ws.len() - 1,
                ws.len() >= 2,
        {}
    }
}

/// Any passphrase of a configuration is bounded in length by `num_words`
/// words of the longest word length, with one delimiter between each
/// adjacent pair.
pub proof fn lemma_passphrase_length_bound(config: Spiceware, s: Seq<char>)
    requires
        config.is_passphrase(s),
        config.num_words >= 1,
    ensures
        s.len() <= config.num_words * spec_max_word_len(config.active()) + (config.num_words
            - 1) * config.delimiter@.len(),
{
    let ws = choose|ws: Seq<Seq<char>>|
        {
            &&& #[trigger] join_with(ws, config.delimiter@) == s
            &&& ws.len() == config.num_words
            &&& forall|i: int|
                0 <= i < ws.len() ==> config.active().contains(#[trigger] ws[i])
        };
    lemma_max_word_len_bounds(config.active());
    assert forall|i: int| 0 <= i < ws.len() implies (#[trigger] ws[i]).len()
        <= spec_max_word_len(config.active()) by {
        let j = choose|j: int| 0 <= j < config.active().len() && config.active()[j] == ws[i];
        assert(config.active()[j].len() <= spec_max_word_len(config.active()));
    }
    lemma_join_with_len(ws, config.delimiter@, spec_max_word_len(config.active()));
}

/// The length, in characters, of the longest word of the list.
pub fn max_word_len(words: &Vec<String>) -> (r: usize)
    ensures
        r == spec_max_word_len(words.deep_view()),
{
    let mut m: usize = 0;
    let mut i: usize = 0;
    while i < words.len()
        invariant
            i <= words@.len(),
            m == spec_max_word_len(words.deep_view().take(i as int)),
        decreases words@.len() - i,
    {
        let len = words[i].as_str().unicode_len();
        if len > m {
            m = len;
        }
        proof {
            assert(words.deep_view().take(i + 1).drop_last() =~= words.deep_view().take(
                i as int,
            ));
            assert(words.deep_view().take(i + 1).last() == words@[i as int]@);
        }
        i = i + 1;
    }
    proof {
        assert(words.deep_view().take(words@.len() as int) =~= words.deep_view());
    }
    m
}

} // verus!
