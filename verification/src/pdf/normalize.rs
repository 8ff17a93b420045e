//! Bringing extracted text into one form before it is judged.

use crate::text::{
    chars_of, leading, least, lemma_trimmed_ends, lemma_trimmed_twice, string_of, trim, trimmed,
    Trim,
};
use unicode_normalization::UnicodeNormalization;
use vstd::prelude::*;

verus! {

/// Longest run of line feeds that is left in a text.
pub const MAX_NEWLINES: usize = 2;

/// Longest run of spaces that is left in a text.
pub const MAX_SPACES: usize = 1;

/// The low quotation mark that stands for a comma in badly encoded text.
pub const LOW_QUOTE: char = '\u{201A}';

/// A text in Unicode Normalization Form C.
pub uninterp spec fn nfc(s: Seq<char>) -> Seq<char>;

/// Brings `text` into Normalization Form C.
///
/// Calls `UnicodeNormalization::nfc` on the text and collects what it
/// yields. The result depends on the characters of the text alone; this
/// library names it and claims nothing more of it.
#[verifier::external_body]
fn compose(text: &str) -> (r: String)
    ensures
        r@ == nfc(text@),
{
    text.nfc().collect()
}

/// How many times `c` stands at the end of `s` without a break.
pub open spec fn run_at_end(s: Seq<char>, c: char) -> nat
    decreases s.len(),
{
    if s.len() > 0 && s.last() == c {
        1 + run_at_end(s.drop_last(), c)
    } else {
        0
    }
}

/// `s` with every run of `c` longer than `keep` cut down to `keep`: a `c`
/// goes where `keep` of them stand right before it.
pub open spec fn squeezed(s: Seq<char>, c: char, keep: nat) -> Seq<char>
    decreases s.len(),
{
    if s.len() == 0 {
        Seq::empty()
    } else if s.last() == c && run_at_end(s.drop_last(), c) >= keep {
        squeezed(s.drop_last(), c, keep)
    } else {
        squeezed(s.drop_last(), c, keep).push(s.last())
    }
}

/// `s` with `to` in the place of every `from`.
pub open spec fn replaced(s: Seq<char>, from: char, to: char) -> Seq<char> {
    Seq::new(
        s.len(),
        |i: int|
            if s[i] == from {
                to
            } else {
                s[i]
            },
    )
}

/// What normalisation does once the text is composed: long runs of line
/// feeds and of spaces are cut down, `|` becomes `I`, the low quotation mark
/// becomes a comma, and white space at both ends goes.
pub open spec fn tidied(s: Seq<char>) -> Seq<char> {
    trimmed(
        replaced(
            replaced(
                squeezed(squeezed(s, '\n', MAX_NEWLINES as nat), ' ', MAX_SPACES as nat),
                '|',
                'I',
            ),
            LOW_QUOTE,
            ',',
        ),
        Trim::Whitespace,
    )
}

/// The normal form of a text: composed, then tidied.
pub open spec fn normalized(s: Seq<char>) -> Seq<char> {
    tidied(nfc(s))
}

/// Cuts every run of `c` in `v` that is longer than `keep` down to `keep`.
pub fn squeeze(v: &Vec<char>, c: char, keep: usize) -> (r: Vec<char>)
    ensures
        r@ == squeezed(v@, c, keep as nat),
{
    let mut r: Vec<char> = Vec::new();
    let mut run: usize = 0;
    let mut i: usize = 0;
    assert(v@.take(0) =~= Seq::empty());
    while i < v.len()
        invariant
            i <= v.len(),
            run <= i,
            run == run_at_end(v@.take(i as int), c),
            r@ == squeezed(v@.take(i as int), c, keep as nat),
        decreases v.len() - i,
    {
        assert(v@.take(i + 1).drop_last() =~= v@.take(i as int));
        let x = v[i];
        if x == c {
            if run < keep {
                r.push(x);
            }
            run = run + 1;
        } else {
            r.push(x);
            run = 0;
        }
        i = i + 1;
    }
    assert(v@.take(v.len() as int) =~= v@);
    r
}

/// Puts `to` in the place of every `from` in `v`.
pub fn replace(v: &Vec<char>, from: char, to: char) -> (r: Vec<char>)
    ensures
        r@ == replaced(v@, from, to),
{
    let mut r: Vec<char> = Vec::new();
    let mut i: usize = 0;
    while i < v.len()
        invariant
            i <= v.len(),
            r@.len() == i,
            forall|j: int| 0 <= j < i ==> r@[j] == replaced(v@, from, to)[j],
        decreases v.len() - i,
    {
        let x = v[i];
        if x == from {
            r.push(to);
        } else {
            r.push(x);
        }
        i = i + 1;
    }
    assert(r@ =~= replaced(v@, from, to));
    r
}

/// Tidies composed text.
pub fn tidy(v: &Vec<char>) -> (r: Vec<char>)
    ensures
        r@ == tidied(v@),
{
    let lines = squeeze(v, '\n', MAX_NEWLINES);
    let spaces = squeeze(&lines, ' ', MAX_SPACES);
    let bars = replace(&spaces, '|', 'I');
    let quotes = replace(&bars, LOW_QUOTE, ',');
    trim(&quotes, Trim::Whitespace)
}

/// Normalises `text`.
pub fn normalize_text(text: &str) -> (r: String)
    ensures
        r@ == normalized(text@),
{
    let composed = compose(text);
    let chars = chars_of(composed.as_str());
    string_of(&tidy(&chars))
}

/// Whether no run of `c` in `s` is longer than `keep`.
pub open spec fn calm(s: Seq<char>, c: char, keep: nat) -> bool
    decreases s.len(),
{
    s.len() == 0 || (calm(s.drop_last(), c, keep) && run_at_end(s, c) <= keep)
}

/// Whether `c` stands nowhere in `s`.
pub open spec fn absent(s: Seq<char>, c: char) -> bool {
    forall|i: int| 0 <= i < s.len() ==> s[i] != c
}

/// Squeezing cuts the run at the end down to `keep`, and no further.
proof fn lemma_squeezed_run(s: Seq<char>, c: char, keep: nat)
    ensures
        run_at_end(squeezed(s, c, keep), c) == least(run_at_end(s, c) as int, keep as int),
    decreases s.len(),
{
    if s.len() > 0 {
        let before = squeezed(s.drop_last(), c, keep);
        lemma_squeezed_run(s.drop_last(), c, keep);
        if !(s.last() == c && run_at_end(s.drop_last(), c) >= keep) {
            assert(before.push(s.last()).drop_last() =~= before);
        }
    }
}

/// After squeezing, no run of `c` is longer than `keep`.
pub proof fn lemma_squeezed_is_calm(s: Seq<char>, c: char, keep: nat)
    ensures
        calm(squeezed(s, c, keep), c, keep),
    decreases s.len(),
{
    if s.len() > 0 {
        let before = squeezed(s.drop_last(), c, keep);
        lemma_squeezed_is_calm(s.drop_last(), c, keep);
        lemma_squeezed_run(s, c, keep);
        if !(s.last() == c && run_at_end(s.drop_last(), c) >= keep) {
            assert(before.push(s.last()).drop_last() =~= before);
        }
    }
}

/// Squeezing changes nothing where no run is too long.
pub proof fn lemma_squeeze_calm(s: Seq<char>, c: char, keep: nat)
    requires
        calm(s, c, keep),
    ensures
        squeezed(s, c, keep) == s,
    decreases s.len(),
{
    if s.len() > 0 {
        lemma_squeeze_calm(s.drop_last(), c, keep);
        assert(s.drop_last().push(s.last()) =~= s);
    }
}

/// Squeezing one character leaves the run of another at the end as it is.
proof fn lemma_squeezed_other_run(s: Seq<char>, c: char, keep: nat, other: char)
    requires
        c != other,
        keep >= 1,
    ensures
        run_at_end(squeezed(s, c, keep), other) == run_at_end(s, other),
    decreases s.len(),
{
    if s.len() > 0 {
        let before = squeezed(s.drop_last(), c, keep);
        lemma_squeezed_other_run(s.drop_last(), c, keep, other);
        if !(s.last() == c && run_at_end(s.drop_last(), c) >= keep) {
            assert(before.push(s.last()).drop_last() =~= before);
        }
    }
}

/// Squeezing one character makes no run of another longer.
pub proof fn lemma_squeezed_keeps_calm(s: Seq<char>, c: char, keep: nat, other: char, most: nat)
    requires
        c != other,
        keep >= 1,
        calm(s, other, most),
    ensures
        calm(squeezed(s, c, keep), other, most),
    decreases s.len(),
{
    if s.len() > 0 {
        let before = squeezed(s.drop_last(), c, keep);
        lemma_squeezed_keeps_calm(s.drop_last(), c, keep, other, most);
        lemma_squeezed_other_run(s, c, keep, other);
        if !(s.last() == c && run_at_end(s.drop_last(), c) >= keep) {
            assert(before.push(s.last()).drop_last() =~= before);
        }
    }
}

/// Replacing one character by another leaves the runs of a third as they
/// are.
pub proof fn lemma_replaced_keeps_calm(s: Seq<char>, from: char, to: char, c: char, keep: nat)
    requires
        c != from,
        c != to,
    ensures
        run_at_end(replaced(s, from, to), c) == run_at_end(s, c),
        calm(s, c, keep) ==> calm(replaced(s, from, to), c, keep),
    decreases s.len(),
{
    if s.len() > 0 {
        lemma_replaced_keeps_calm(s.drop_last(), from, to, c, keep);
        assert(replaced(s, from, to).drop_last() =~= replaced(s.drop_last(), from, to));
    }
}

/// A run at the end of a stretch of a text is no longer than the run that
/// ends there in the text.
proof fn lemma_stretch_run(s: Seq<char>, from: int, to: int, c: char)
    requires
        0 <= from <= to <= s.len(),
    ensures
        run_at_end(s.subrange(from, to), c) <= run_at_end(s.take(to), c),
    decreases to - from,
{
    if from < to {
        lemma_stretch_run(s, from, to - 1, c);
        assert(s.subrange(from, to).drop_last() =~= s.subrange(from, to - 1));
        assert(s.take(to).drop_last() =~= s.take(to - 1));
    }
}

/// Where no run in a text is too long, none is in what it starts with.
proof fn lemma_start_is_calm(s: Seq<char>, to: int, c: char, keep: nat)
    requires
        0 <= to <= s.len(),
        calm(s, c, keep),
    ensures
        calm(s.take(to), c, keep),
    decreases s.len() - to,
{
    if to < s.len() {
        lemma_start_is_calm(s.drop_last(), to, c, keep);
        assert(s.drop_last().take(to) =~= s.take(to));
    } else {
        assert(s.take(to) =~= s);
    }
}

/// Where no run in a text is too long, none is in a stretch of it.
pub proof fn lemma_stretch_is_calm(s: Seq<char>, from: int, to: int, c: char, keep: nat)
    requires
        0 <= from <= to <= s.len(),
        calm(s, c, keep),
    ensures
        calm(s.subrange(from, to), c, keep),
    decreases to - from,
{
    if from < to {
        lemma_stretch_is_calm(s, from, to - 1, c, keep);
        assert(s.subrange(from, to).drop_last() =~= s.subrange(from, to - 1));
        lemma_stretch_run(s, from, to, c);
        lemma_start_is_calm(s, to, c, keep);
    }
}

/// Tidying what is tidied changes nothing.
pub proof fn lemma_tidied_twice(s: Seq<char>)
    ensures
        tidied(tidied(s)) == tidied(s),
{
    let lines = squeezed(s, '\n', MAX_NEWLINES as nat);
    let spaces = squeezed(lines, ' ', MAX_SPACES as nat);
    let bars = replaced(spaces, '|', 'I');
    let quotes = replaced(bars, LOW_QUOTE, ',');
    let done = trimmed(quotes, Trim::Whitespace);
    assert(done == tidied(s));
    // no run in `quotes` is too long, and neither replaced character is left
    lemma_squeezed_is_calm(s, '\n', MAX_NEWLINES as nat);
    lemma_squeezed_keeps_calm(lines, ' ', MAX_SPACES as nat, '\n', MAX_NEWLINES as nat);
    lemma_squeezed_is_calm(lines, ' ', MAX_SPACES as nat);
    lemma_replaced_keeps_calm(spaces, '|', 'I', '\n', MAX_NEWLINES as nat);
    lemma_replaced_keeps_calm(spaces, '|', 'I', ' ', MAX_SPACES as nat);
    lemma_replaced_keeps_calm(bars, LOW_QUOTE, ',', '\n', MAX_NEWLINES as nat);
    lemma_replaced_keeps_calm(bars, LOW_QUOTE, ',', ' ', MAX_SPACES as nat);
    assert(absent(bars, '|'));
    assert(absent(quotes, '|'));
    assert(absent(quotes, LOW_QUOTE));
    // the same holds of the stretch that trimming leaves
    lemma_trimmed_ends(quotes, Trim::Whitespace);
    let from = leading(quotes, Trim::Whitespace) as int;
    let to = from + done.len();
    lemma_stretch_is_calm(quotes, from, to, '\n', MAX_NEWLINES as nat);
    lemma_stretch_is_calm(quotes, from, to, ' ', MAX_SPACES as nat);
    assert(absent(done, '|'));
    assert(absent(done, LOW_QUOTE));
    // so each step leaves `done` as it is
    lemma_squeeze_calm(done, '\n', MAX_NEWLINES as nat);
    lemma_squeeze_calm(done, ' ', MAX_SPACES as nat);
    assert(replaced(done, '|', 'I') =~= done);
    assert(replaced(done, LOW_QUOTE, ',') =~= done);
    lemma_trimmed_twice(quotes, Trim::Whitespace);
}

/// Normalising a normalised text gives the same text again, provided that
/// the normalised text is in Normalization Form C as it stands. (Tidying can
/// undo that: it may put an `I` before a combining mark.)
pub proof fn law_normalized_twice(text: Seq<char>)
    requires
        nfc(normalized(text)) == normalized(text),
    ensures
        normalized(normalized(text)) == normalized(text),
{
    lemma_tidied_twice(nfc(text));
}

} // verus!
