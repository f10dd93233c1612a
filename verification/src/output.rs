//! The presentation layer as two states decided once from the
//! configuration: batch output is one passphrase per line and nothing else;
//! verbose output is a human-readable block that also reports the order of
//! magnitude of the search space, qualified by whether that number overflowed
//! the machine word.

use vstd::prelude::*;
use vstd::arithmetic::power::pow;
use crate::math;
use crate::math::log10;
use crate::passphrase::Spiceware;
use crate::render;
use crate::render::dec_seq;

verus! {

impl Spiceware {
    /// Batch output is chosen when several passphrases are asked for or the
    /// quiet flag is set.
    pub open spec fn batch(self) -> bool {
        self.num_passwords > 1 || self.quiet
    }

    /// The search space `L^N` exceeds the machine word.
    pub open spec fn overflowed(self) -> bool {
        pow(self.active().len() as int, self.num_words as nat) > usize::MAX
    }

    /// The reported order of magnitude: of the search space itself, or of
    /// the machine word's maximum when the search space overflows it.
    pub open spec fn displayed_power(self) -> nat {
        if self.overflowed() {
            log10(usize::MAX as nat)
        } else {
            log10(pow(self.active().len() as int, self.num_words as nat) as nat)
        }
    }

    /// "about" for an exact order of magnitude, "over" for a lower bound
    /// after overflow.
    pub open spec fn qualifier(self) -> Seq<char> {
        if self.overflowed() {
            "over"@
        } else {
            "about"@
        }
    }

    /// The verbose line that reports the size of the search space.
    pub open spec fn combinations_line(self) -> Seq<char> {
        "This password is one of "@ + self.qualifier() + " 10^"@ + dec_seq(
            self.displayed_power(),
        ) + " possible combinations."@
    }

    /// `out` is batch output: one line per requested passphrase, each a
    /// passphrase of this configuration, nothing else.
    pub open spec fn batch_output(self, out: Seq<Seq<char>>) -> bool {
        &&& out.len() == self.num_passwords
        &&& forall|i: int| 0 <= i < out.len() ==> self.is_passphrase(#[trigger] out[i])
    }

    /// `out` is verbose output: a heading, a tab-indented passphrase, and
    /// the combinations report, with blank lines between.
    pub open spec fn verbose_output(self, out: Seq<Seq<char>>) -> bool {
        &&& out.len() == 5
        &&& out[0] == "Your password is:"@
        &&& out[1] == Seq::<char>::empty()
        &&& out[2].len() >= 1
        &&& out[2][0] == '\t'
        &&& self.is_passphrase(out[2].skip(1))
        &&& out[3] == Seq::<char>::empty()
        &&& out[4] == self.combinations_line()
    }

    /// One output line per passphrase, and nothing else.
    pub fn batch_mode(&self) -> (r: Vec<String>)
        requires
            self.has_words(),
        ensures
            self.batch_output(r.deep_view()),
    {
        let mut lines: Vec<String> = Vec::new();
        let mut k: u32 = 0;
        while k < self.num_passwords
            invariant
                self.has_words(),
                k <= self.num_passwords,
                lines@.len() == k,
                forall|i: int|
                    0 <= i < lines@.len() ==> self.is_passphrase(#[trigger] lines@[i]@),
            decreases self.num_passwords - k,
        {
            let passphrase = self.gen_passphrase();
            lines.push(passphrase);
            k = k + 1;
        }
        proof {
            assert(forall|i: int|
                0 <= i < lines@.len() ==> #[trigger] lines.deep_view()[i] == lines@[i]@);
        }
        lines
    }

    /// The human-readable block: the passphrase, and the order of magnitude
    /// of the number of possible passphrases, qualified by "about", or by
    /// "over" when that number overflows the machine word.
    pub fn verbose_mode(&self) -> (r: Vec<String>)
        requires
            self.has_words(),
        ensures
            self.verbose_output(r.deep_view()),
    {
        let (power_of_ten, overflowed) = match self.possible_combinations() {
            Some(combs) => {
                proof {
                    vstd::arithmetic::power::lemma_pow_positive(
                        self.active().len() as int,
                        self.num_words as nat,
                    );
                }
                (math::ilog10(combs), false)
            },
            None => (math::ilog10(usize::MAX), true),
        };

        let passphrase = self.gen_passphrase();

        let qualifier = if overflowed {
            "over"
        } else {
            "about"
        };

        let mut lines: Vec<String> = Vec::new();
        lines.push("Your password is:".to_owned());
        lines.push(String::new());
        let mut indented = "\t".to_owned();
        indented.append(passphrase.as_str());
        proof {
            reveal_strlit("\t");
            assert(indented@.skip(1) =~= passphrase@);
        }
        lines.push(indented);
        lines.push(String::new());
        let mut report = "This password is one of ".to_owned();
        report.append(qualifier);
        report.append(" 10^");
        let digits = render::u32_dec(power_of_ten);
        report.append(digits.as_str());
        report.append(" possible combinations.");
        proof {
            assert(report@ == self.combinations_line());
        }
        lines.push(report);
        proof {
            assert(lines.deep_view().len() == 5);
            assert(lines.deep_view()[0] == "Your password is:"@);
            assert(lines.deep_view()[1] == Seq::<char>::empty());
            assert(lines.deep_view()[2] == indented@);
            assert(lines.deep_view()[3] == Seq::<char>::empty());
            assert(lines.deep_view()[4] == report@);
        }
        lines
    }

    /// The whole invocation's output: batch lines, or the verbose block.
    pub fn run(&self) -> (r: Vec<String>)
        requires
            self.has_words(),
        ensures
            self.batch() ==> self.batch_output(r.deep_view()),
            !self.batch() ==> self.verbose_output(r.deep_view()),
    {
        if self.num_passwords > 1 || self.quiet {
            self.batch_mode()
        } else {
            self.verbose_mode()
        }
    }
}

} // verus!
