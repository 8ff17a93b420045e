//! Judging whether extracted text is usable civic text.

use crate::text::{
    chars_of, count_letters, least, letter_count, lowercased, split_words, string_of, trim,
    trimmed, views, words, Trim,
};
use vstd::prelude::*;

verus! {

/// Fewest characters a usable text has.
pub const MIN_TEXT_LENGTH: usize = 100;

/// Least share of alphabetic characters in a usable text, in hundredths.
pub const MIN_LETTER_PERCENT: usize = 30;

/// Fewest words a usable text has.
pub const MIN_WORDS: usize = 20;

/// Fewest known words among the sampled words of a usable text.
pub const MIN_RECOGNIZABLE_WORDS: usize = 5;

/// Greatest share of one-character words among the sampled words, in
/// hundredths.
pub const MAX_SINGLE_CHAR_PERCENT: usize = 40;

/// How many words from the start of a text are sampled.
pub const SAMPLE_WORDS: usize = 100;

/// Fewest sampled words for which the sample is judged at all.
pub const MIN_SAMPLE_WORDS: usize = 50;

/// The common and civic words by which language is recognised, in lower
/// case.
pub open spec fn civic_words() -> Seq<Seq<char>> {
    seq![
        "the"@,
        "and"@,
        "or"@,
        "but"@,
        "in"@,
        "on"@,
        "at"@,
        "to"@,
        "for"@,
        "of"@,
        "with"@,
        "by"@,
        "council"@,
        "city"@,
        "meeting"@,
        "agenda"@,
        "item"@,
        "public"@,
        "comment"@,
        "session"@,
        "board"@,
        "commission"@,
        "appointment"@,
        "ordinance"@,
        "resolution"@,
        "budget"@,
        "planning"@,
        "zoning"@,
        "development"@,
        "traffic"@,
        "safety"@,
        "park"@,
        "library"@,
        "police"@,
        "fire"@,
        "emergency"@,
        "infrastructure"@,
        "project"@,
        "contract"@,
        "approval"@,
        "review"@,
        "hearing"@,
        "vote"@,
        "motion"@,
        "approve"@,
        "deny"@,
        "discussion"@,
        "report"@,
        "presentation"@,
        "staff"@,
        "department"@,
        "mayor"@,
        "member"@,
        "chair"@,
        "chairman"@,
        "chairwoman"@,
        "minutes"@,
        "action"@,
        "adopt"@,
    ]
}

/// The civic words as strings, in the order of `civic_words`.
pub fn civic_lexicon() -> (v: Vec<String>)
    ensures
        lexicon_view(v@) == civic_words(),
{
    let mut v: Vec<String> = Vec::new();
    v.push("the".to_owned());
    v.push("and".to_owned());
    v.push("or".to_owned());
    v.push("but".to_owned());
    v.push("in".to_owned());
    v.push("on".to_owned());
    v.push("at".to_owned());
    v.push("to".to_owned());
    v.push("for".to_owned());
    v.push("of".to_owned());
    v.push("with".to_owned());
    v.push("by".to_owned());
    v.push("council".to_owned());
    v.push("city".to_owned());
    v.push("meeting".to_owned());
    v.push("agenda".to_owned());
    v.push("item".to_owned());
    v.push("public".to_owned());
    v.push("comment".to_owned());
    v.push("session".to_owned());
    v.push("board".to_owned());
    v.push("commission".to_owned());
    v.push("appointment".to_owned());
    v.push("ordinance".to_owned());
    v.push("resolution".to_owned());
    v.push("budget".to_owned());
    v.push("planning".to_owned());
    v.push("zoning".to_owned());
    v.push("development".to_owned());
    v.push("traffic".to_owned());
    v.push("safety".to_owned());
    v.push("park".to_owned());
    v.push("library".to_owned());
    v.push("police".to_owned());
    v.push("fire".to_owned());
    v.push("emergency".to_owned());
    v.push("infrastructure".to_owned());
    v.push("project".to_owned());
    v.push("contract".to_owned());
    v.push("approval".to_owned());
    v.push("review".to_owned());
    v.push("hearing".to_owned());
    v.push("vote".to_owned());
    v.push("motion".to_owned());
    v.push("approve".to_owned());
    v.push("deny".to_owned());
    v.push("discussion".to_owned());
    v.push("report".to_owned());
    v.push("presentation".to_owned());
    v.push("staff".to_owned());
    v.push("department".to_owned());
    v.push("mayor".to_owned());
    v.push("member".to_owned());
    v.push("chair".to_owned());
    v.push("chairman".to_owned());
    v.push("chairwoman".to_owned());
    v.push("minutes".to_owned());
    v.push("action".to_owned());
    v.push("adopt".to_owned());
    assert(lexicon_view(v@) =~= civic_words());
    v
}

/// The contents of a word list.
pub open spec fn lexicon_view(v: Seq<String>) -> Seq<Seq<char>> {
    Seq::new(v.len(), |i: int| v[i]@)
}

/// A word as it is looked up: without what is not alphabetic at its two
/// ends, in lower case.
pub open spec fn cleaned(word: Seq<char>) -> Seq<char> {
    lowercased(trimmed(word, Trim::NonAlphabetic))
}

/// Whether a word, cleaned, is one of the civic words.
pub open spec fn recognizable(word: Seq<char>) -> bool {
    civic_words().contains(cleaned(word))
}

/// How many of `ws` are recognizable.
pub open spec fn recognizable_count(ws: Seq<Seq<char>>) -> nat
    decreases ws.len(),
{
    if ws.len() == 0 {
        0
    } else {
        recognizable_count(ws.drop_last()) + if recognizable(ws.last()) {
            1nat
        } else {
            0nat
        }
    }
}

/// How many of `ws` have exactly one character.
pub open spec fn single_char_count(ws: Seq<Seq<char>>) -> nat
    decreases ws.len(),
{
    if ws.len() == 0 {
        0
    } else {
        single_char_count(ws.drop_last()) + if ws.last().len() == 1 {
            1nat
        } else {
            0nat
        }
    }
}

/// The words of a text that are sampled: its first `SAMPLE_WORDS` words.
pub open spec fn sample(text: Seq<char>) -> Seq<Seq<char>> {
    let all = words(text);
    all.take(least(SAMPLE_WORDS as int, all.len() as int))
}

/// What the checks make of a text: good, or the first check that it fails.
#[derive(Clone, Copy, Debug, PartialEq, Eq, Structural)]
pub enum Verdict {
    /// Every check passed.
    Good,
    /// Fewer characters than the minimum.
    TooShort,
    /// No character at all, or too small a share of letters.
    LowLetterRatio,
    /// Fewer words than the minimum.
    TooFewWords,
    /// A full sample with too few known words.
    TooFewRecognizable,
    /// A full sample with too many one-character words.
    TooManySingleChars,
}

/// What `get_stats` measures of a text.
#[derive(Clone, Copy, Debug, PartialEq, Eq, Structural)]
pub struct TextStats {
    /// Characters in the text.
    pub total_chars: usize,
    /// Alphabetic characters in the text.
    pub letter_count: usize,
    /// Share of alphabetic characters in hundredths, rounded down; 0 for an
    /// empty text.
    pub letter_percent: usize,
    /// Words in the text.
    pub word_count: usize,
    /// Recognizable words among the sampled words.
    pub recognizable_words: usize,
}

/// The thresholds of the checks and the word list they use.
pub struct TextValidator {
    min_length: usize,
    min_letter_percent: usize,
    min_words: usize,
    min_recognizable: usize,
    max_single_char_percent: usize,
    lexicon: Vec<String>,
}

impl TextValidator {
    #[verifier::type_invariant]
    spec fn well_formed(self) -> bool {
        lexicon_view(self.lexicon@) == civic_words()
    }

    /// Fewest characters of a good text.
    pub closed spec fn min_length(&self) -> nat {
        self.min_length as nat
    }

    /// Least share of letters of a good text, in hundredths.
    pub closed spec fn min_letter_percent(&self) -> nat {
        self.min_letter_percent as nat
    }

    /// Fewest words of a good text.
    pub closed spec fn min_words(&self) -> nat {
        self.min_words as nat
    }

    /// Fewest recognizable words in a full sample of a good text.
    pub closed spec fn min_recognizable(&self) -> nat {
        self.min_recognizable as nat
    }

    /// Greatest share of one-character words in a full sample of a good
    /// text, in hundredths.
    pub closed spec fn max_single_char_percent(&self) -> nat {
        self.max_single_char_percent as nat
    }

    /// Whether the thresholds are the standard ones.
    pub open spec fn is_standard(&self) -> bool {
        &&& self.min_length() == MIN_TEXT_LENGTH
        &&& self.min_letter_percent() == MIN_LETTER_PERCENT
        &&& self.min_words() == MIN_WORDS
        &&& self.min_recognizable() == MIN_RECOGNIZABLE_WORDS
        &&& self.max_single_char_percent() == MAX_SINGLE_CHAR_PERCENT
    }

    /// The outcome of the five checks, taken in order, on `text`.
    pub open spec fn verdict(&self, text: Seq<char>) -> Verdict {
        let picked = sample(text);
        if text.len() < self.min_length() {
            Verdict::TooShort
        } else if text.len() == 0 || letter_count(text) * 100 < self.min_letter_percent()
            * text.len() {
            Verdict::LowLetterRatio
        } else if words(text).len() < self.min_words() {
            Verdict::TooFewWords
        } else if picked.len() >= MIN_SAMPLE_WORDS && recognizable_count(picked)
            < self.min_recognizable() {
            Verdict::TooFewRecognizable
        } else if picked.len() >= MIN_SAMPLE_WORDS && single_char_count(picked) * 100
            > self.max_single_char_percent() * picked.len() {
            Verdict::TooManySingleChars
        } else {
            Verdict::Good
        }
    }

    /// The measurements of `text`, with no threshold applied.
    pub open spec fn stats(text: Seq<char>) -> TextStats {
        TextStats {
            total_chars: text.len() as usize,
            letter_count: letter_count(text) as usize,
            letter_percent: if text.len() == 0 {
                0
            } else {
                (letter_count(text) * 100 / text.len()) as usize
            },
            word_count: words(text).len() as usize,
            recognizable_words: recognizable_count(sample(text)) as usize,
        }
    }

    /// A validator with the standard thresholds and the civic words.
    pub fn new() -> (r: Self)
        ensures
            r.is_standard(),
    {
        TextValidator {
            min_length: MIN_TEXT_LENGTH,
            min_letter_percent: MIN_LETTER_PERCENT,
            min_words: MIN_WORDS,
            min_recognizable: MIN_RECOGNIZABLE_WORDS,
            max_single_char_percent: MAX_SINGLE_CHAR_PERCENT,
            lexicon: civic_lexicon(),
        }
    }

    /// Whether `word`, as it stands, is one of the civic words.
    pub fn is_civic_word(&self, word: &String) -> (r: bool)
        ensures
            r == civic_words().contains(word@),
    {
        proof {
            use_type_invariant(self);
        }
        let mut i: usize = 0;
        while i < self.lexicon.len()
            invariant
                i <= self.lexicon.len(),
                lexicon_view(self.lexicon@) == civic_words(),
                forall|j: int| 0 <= j < i ==> civic_words()[j] != word@,
            decreases self.lexicon.len() - i,
        {
            assert(lexicon_view(self.lexicon@)[i as int] == self.lexicon@[i as int]@);
            if self.lexicon[i] == *word {
                return true;
            }
            i = i + 1;
        }
        false
    }

    /// Whether `word` is recognizable.
    pub fn is_recognizable(&self, word: &Vec<char>) -> (r: bool)
        ensures
            r == recognizable(word@),
    {
        let core = string_of(&trim(word, Trim::NonAlphabetic));
        let lowered = core.as_str().to_lowercase();
        self.is_civic_word(&lowered)
    }

    /// Counts the recognizable words among `ws`.
    fn count_recognizable(&self, ws: &Vec<Vec<char>>) -> (r: usize)
        ensures
            r == recognizable_count(views(ws@)),
            r <= ws@.len(),
    {
        let mut r: usize = 0;
        let mut i: usize = 0;
        assert(views(ws@).take(0) =~= Seq::empty());
        while i < ws.len()
            invariant
                i <= ws.len(),
                r <= i,
                r == recognizable_count(views(ws@).take(i as int)),
            decreases ws.len() - i,
        {
            assert(views(ws@).take(i + 1).drop_last() =~= views(ws@).take(i as int));
            assert(views(ws@).take(i + 1).last() == ws@[i as int]@);
            if self.is_recognizable(&ws[i]) {
                r = r + 1;
            }
            i = i + 1;
        }
        assert(views(ws@).take(ws.len() as int) =~= views(ws@));
        r
    }

    /// Judges `text`: says whether it is good, and if not, which check it
    /// fails first.
    pub fn assess(&self, text: &str) -> (r: Verdict)
        ensures
            r == self.verdict(text@),
    {
        let chars = chars_of(text);
        let total = chars.len();
        if total < self.min_length {
            return Verdict::TooShort;
        }
        if total == 0 {
            return Verdict::LowLetterRatio;
        }
        let letters = count_letters(&chars);
        proof {
            lemma_product_fits(self.min_letter_percent, total);
        }
        if (letters as u128) * 100 < (self.min_letter_percent as u128) * (total as u128) {
            return Verdict::LowLetterRatio;
        }
        let (word_count, picked) = split_words(&chars, SAMPLE_WORDS);
        if word_count < self.min_words {
            return Verdict::TooFewWords;
        }
        assert(picked@.len() == views(picked@).len());
        if picked.len() >= MIN_SAMPLE_WORDS {
            let known = self.count_recognizable(&picked);
            if known < self.min_recognizable {
                return Verdict::TooFewRecognizable;
            }
            let singles = count_single_chars(&picked);
            proof {
                lemma_product_fits(self.max_single_char_percent, picked.len());
            }
            if (singles as u128) * 100 > (self.max_single_char_percent as u128) * (
            picked.len() as u128) {
                return Verdict::TooManySingleChars;
            }
        }
        Verdict::Good
    }

    /// Whether `text` passes every check.
    pub fn is_good_quality(&self, text: &str) -> (r: bool)
        ensures
            r == (self.verdict(text@) == Verdict::Good),
            text@.len() < self.min_length() ==> !r,
            letter_count(text@) * 100 < self.min_letter_percent() * text@.len() ==> !r,
    {
        self.assess(text) == Verdict::Good
    }

    /// Measures `text` without judging it.
    pub fn get_stats(&self, text: &str) -> (r: TextStats)
        ensures
            r == Self::stats(text@),
    {
        let chars = chars_of(text);
        let total = chars.len();
        let letters = count_letters(&chars);
        let (word_count, picked) = split_words(&chars, SAMPLE_WORDS);
        let known = self.count_recognizable(&picked);
        let percent = if total == 0 {
            0
        } else {
            ((letters as u128) * 100 / (total as u128)) as usize
        };
        TextStats {
            total_chars: total,
            letter_count: letters,
            letter_percent: percent,
            word_count,
            recognizable_words: known,
        }
    }
}

impl Default for TextValidator {
    fn default() -> (r: Self)
        ensures
            r.is_standard(),
    {
        TextValidator::new()
    }
}

/// The product of two machine sizes fits in 128 bits.
proof fn lemma_product_fits(a: usize, b: usize)
    ensures
        a * b <= u128::MAX,
{
    assert(a * b <= 0xffff_ffff_ffff_ffff * 0xffff_ffff_ffff_ffff) by (nonlinear_arith)
        requires
            0 <= a <= 0xffff_ffff_ffff_ffff,
            0 <= b <= 0xffff_ffff_ffff_ffff,
    ;
}

/// Counts the words of exactly one character among `ws`.
fn count_single_chars(ws: &Vec<Vec<char>>) -> (r: usize)
    ensures
        r == single_char_count(views(ws@)),
        r <= ws@.len(),
{
    let mut r: usize = 0;
    let mut i: usize = 0;
    assert(views(ws@).take(0) =~= Seq::empty());
    while i < ws.len()
        invariant
            i <= ws.len(),
            r <= i,
            r == single_char_count(views(ws@).take(i as int)),
        decreases ws.len() - i,
    {
        assert(views(ws@).take(i + 1).drop_last() =~= views(ws@).take(i as int));
        assert(views(ws@).take(i + 1).last() == ws@[i as int]@);
        if ws[i].len() == 1 {
            r = r + 1;
        }
        i = i + 1;
    }
    assert(views(ws@).take(ws.len() as int) =~= views(ws@));
    r
}

} // verus!
