//! Text as a sequence of characters: moving between strings and character
//! vectors, and the character classes the rest of the library reads.

use vstd::prelude::*;
use vstd::std_specs::iter::IteratorSpec;

verus! {

/// Whether `c` has the Unicode property `Alphabetic`.
pub uninterp spec fn alphabetic(c: char) -> bool;

/// Whether `c` has the Unicode property `White_Space`.
pub uninterp spec fn whitespace(c: char) -> bool;

/// The lower-case form of a whole text.
pub uninterp spec fn lowercased(s: Seq<char>) -> Seq<char>;

/// `char::is_alphabetic`: the answer is the character's `Alphabetic`
/// property, which this library only names.
pub assume_specification[ char::is_alphabetic ](c: char) -> (r: bool)
    ensures
        r == alphabetic(c),
;

/// `char::is_whitespace`: the answer is the character's `White_Space`
/// property, which this library only names.
pub assume_specification[ char::is_whitespace ](c: char) -> (r: bool)
    ensures
        r == whitespace(c),
;

/// `str::to_lowercase`: the result depends on the characters of the text
/// alone; this library names it and claims nothing more.
pub assume_specification[ str::to_lowercase ](s: &str) -> (r: String)
    ensures
        r@ == lowercased(s@),
;

/// `String::push`: the string afterwards is the string before with `c` at
/// its end.
pub assume_specification[ String::push ](s: &mut String, c: char)
    ensures
        final(s)@ == old(s)@.push(c),
;

/// The characters of `s`, in order.
pub fn chars_of(s: &str) -> (v: Vec<char>)
    ensures
        v@ == s@,
{
    let mut v: Vec<char> = Vec::new();
    let chars = s.chars();
    for c in it: chars
        invariant
            it.seq() == s@,
            v@ == s@.take(it.index()),
    {
        v.push(c);
    }
    v
}

/// The string whose characters are those of `v`, in order.
pub fn string_of(v: &Vec<char>) -> (s: String)
    ensures
        s@ == v@,
{
    let mut s = String::new();
    let mut i: usize = 0;
    while i < v.len()
        invariant
            i <= v.len(),
            s@ == v@.take(i as int),
        decreases v.len() - i,
    {
        s.push(v[i]);
        i = i + 1;
    }
    s
}

/// Which characters a trim takes away from the two ends of a text.
#[derive(Clone, Copy)]
pub enum Trim {
    /// Characters with the property `White_Space`.
    Whitespace,
    /// Characters without the property `Alphabetic`.
    NonAlphabetic,
}

impl Trim {
    /// Whether this trim takes `c` away.
    pub open spec fn drops(self, c: char) -> bool {
        match self {
            Trim::Whitespace => whitespace(c),
            Trim::NonAlphabetic => !alphabetic(c),
        }
    }

    /// Tests one character.
    pub fn test(self, c: char) -> (r: bool)
        ensures
            r == self.drops(c),
    {
        match self {
            Trim::Whitespace => c.is_whitespace(),
            Trim::NonAlphabetic => !c.is_alphabetic(),
        }
    }
}

/// How many characters at the start of `s` the trim takes away.
pub open spec fn leading(s: Seq<char>, t: Trim) -> nat
    decreases s.len(),
{
    if s.len() > 0 && t.drops(s[0]) {
        1 + leading(s.drop_first(), t)
    } else {
        0
    }
}

/// How many characters at the end of `s` the trim takes away.
pub open spec fn trailing(s: Seq<char>, t: Trim) -> nat
    decreases s.len(),
{
    if s.len() > 0 && t.drops(s.last()) {
        1 + trailing(s.drop_last(), t)
    } else {
        0
    }
}

/// `s` without the characters that `t` takes away at its start and, of what
/// is left, at its end.
pub open spec fn trimmed(s: Seq<char>, t: Trim) -> Seq<char> {
    let rest = s.skip(leading(s, t) as int);
    rest.take(rest.len() - trailing(rest, t))
}

/// `leading` is the index of the first character that stays.
pub proof fn lemma_leading_is(s: Seq<char>, t: Trim, a: nat)
    requires
        a <= s.len(),
        forall|i: int| 0 <= i < a ==> t.drops(#[trigger] s[i]),
        a == s.len() || !t.drops(s[a as int]),
    ensures
        leading(s, t) == a,
    decreases a,
{
    if a > 0 {
        let rest = s.drop_first();
        assert forall|i: int| 0 <= i < a - 1 implies t.drops(#[trigger] rest[i]) by {
            assert(rest[i] == s[i + 1]);
        }
        lemma_leading_is(rest, t, (a - 1) as nat);
    }
}

/// `trailing` counts back to the last character that stays.
pub proof fn lemma_trailing_is(s: Seq<char>, t: Trim, b: nat)
    requires
        b <= s.len(),
        forall|i: int| s.len() - b <= i < s.len() ==> t.drops(#[trigger] s[i]),
        b == s.len() || !t.drops(s[s.len() - b - 1]),
    ensures
        trailing(s, t) == b,
    decreases b,
{
    if b > 0 {
        let rest = s.drop_last();
        assert forall|i: int| rest.len() - (b - 1) <= i < rest.len() implies t.drops(
            #[trigger] rest[i],
        ) by {
            assert(rest[i] == s[i]);
        }
        lemma_trailing_is(rest, t, (b - 1) as nat);
    }
}

/// Where `leading` stops, the text ends or a character stays.
pub proof fn lemma_leading_stops(s: Seq<char>, t: Trim)
    ensures
        leading(s, t) <= s.len(),
        leading(s, t) < s.len() ==> !t.drops(s[leading(s, t) as int]),
    decreases s.len(),
{
    if s.len() > 0 && t.drops(s[0]) {
        let rest = s.drop_first();
        lemma_leading_stops(rest, t);
        if leading(rest, t) < rest.len() {
            assert(rest[leading(rest, t) as int] == s[(leading(rest, t) + 1) as int]);
        }
    }
}

/// Where `trailing` stops, the text is used up or a character stays.
pub proof fn lemma_trailing_stops(s: Seq<char>, t: Trim)
    ensures
        trailing(s, t) <= s.len(),
        trailing(s, t) < s.len() ==> !t.drops(s[s.len() - trailing(s, t) - 1]),
    decreases s.len(),
{
    if s.len() > 0 && t.drops(s.last()) {
        let rest = s.drop_last();
        lemma_trailing_stops(rest, t);
        if trailing(rest, t) < rest.len() {
            assert(rest[rest.len() - trailing(rest, t) - 1] == s[s.len() - trailing(s, t) - 1]);
        }
    }
}

/// A trimmed text is a stretch of the text, and neither its first nor its
/// last character is one that the trim takes away.
pub proof fn lemma_trimmed_ends(s: Seq<char>, t: Trim)
    ensures
        leading(s, t) + trimmed(s, t).len() <= s.len(),
        trimmed(s, t) == s.subrange(
            leading(s, t) as int,
            (leading(s, t) + trimmed(s, t).len()) as int,
        ),
        trimmed(s, t).len() > 0 ==> !t.drops(trimmed(s, t)[0]) && !t.drops(trimmed(s, t).last()),
{
    lemma_leading_stops(s, t);
    let rest = s.skip(leading(s, t) as int);
    lemma_trailing_stops(rest, t);
    let kept = trimmed(s, t);
    assert(kept =~= s.subrange(leading(s, t) as int, (leading(s, t) + kept.len()) as int));
    if kept.len() > 0 {
        assert(kept[0] == s[leading(s, t) as int]);
        assert(kept.last() == rest[rest.len() - trailing(rest, t) - 1]);
    }
}

/// Trimming what is trimmed changes nothing.
pub proof fn lemma_trimmed_twice(s: Seq<char>, t: Trim)
    ensures
        trimmed(trimmed(s, t), t) == trimmed(s, t),
{
    lemma_trimmed_ends(s, t);
    let kept = trimmed(s, t);
    lemma_leading_is(kept, t, 0);
    assert(kept.skip(0) =~= kept);
    lemma_trailing_is(kept, t, 0);
    assert(kept.take(kept.len() as int) =~= kept);
}

/// Takes away from both ends of `v` the characters that `t` names.
pub fn trim(v: &Vec<char>, t: Trim) -> (r: Vec<char>)
    ensures
        r@ == trimmed(v@, t),
{
    let n = v.len();
    let mut a: usize = 0;
    while a < n && t.test(v[a])
        invariant
            n == v.len(),
            a <= n,
            forall|i: int| 0 <= i < a ==> t.drops(#[trigger] v@[i]),
        decreases n - a,
    {
        a = a + 1;
    }
    let mut b: usize = n;
    while b > a && t.test(v[b - 1])
        invariant
            n == v.len(),
            a <= b <= n,
            forall|i: int| b <= i < n ==> t.drops(#[trigger] v@[i]),
        decreases b,
    {
        b = b - 1;
    }
    let ghost rest = v@.skip(a as int);
    proof {
        lemma_leading_is(v@, t, a as nat);
        assert forall|i: int| rest.len() - (n - b) <= i < rest.len() implies t.drops(
            #[trigger] rest[i],
        ) by {
            assert(rest[i] == v@[i + a]);
        }
        lemma_trailing_is(rest, t, (n - b) as nat);
    }
    let mut r: Vec<char> = Vec::new();
    let mut i: usize = a;
    while i < b
        invariant
            a <= i <= b <= v.len(),
            r@ == v@.subrange(a as int, i as int),
        decreases b - i,
    {
        r.push(v[i]);
        i = i + 1;
    }
    r
}

/// Whether `pat` stands in `s` at index `i`.
pub open spec fn occurs_at(s: Seq<char>, pat: Seq<char>, i: int) -> bool {
    &&& 0 <= i
    &&& i + pat.len() <= s.len()
    &&& s.subrange(i, i + pat.len()) == pat
}

/// Whether `pat` stands somewhere in `s`.
pub open spec fn contains(s: Seq<char>, pat: Seq<char>) -> bool {
    exists|i: int| occurs_at(s, pat, i)
}

/// Whether `i` is the first index at which `pat` stands in `s`.
pub open spec fn first_at(s: Seq<char>, pat: Seq<char>, i: int) -> bool {
    &&& occurs_at(s, pat, i)
    &&& forall|j: int| 0 <= j < i ==> !occurs_at(s, pat, j)
}

/// The first index at which `pat` stands in `s`, where there is one.
pub open spec fn first_index(s: Seq<char>, pat: Seq<char>) -> int {
    choose|i: int| first_at(s, pat, i)
}

/// There is one first index at most.
pub proof fn lemma_first_index(s: Seq<char>, pat: Seq<char>, i: int)
    requires
        first_at(s, pat, i),
    ensures
        contains(s, pat),
        first_index(s, pat) == i,
{
    let j = first_index(s, pat);
    assert(first_at(s, pat, j));
    if j < i {
        assert(!occurs_at(s, pat, j));
    }
    if i < j {
        assert(!occurs_at(s, pat, i));
    }
}

/// Where `pat` stands in `s` at all, it stands at a first index.
pub proof fn lemma_first_exists(s: Seq<char>, pat: Seq<char>)
    requires
        contains(s, pat),
    ensures
        first_at(s, pat, first_index(s, pat)),
{
    let i = choose|i: int| occurs_at(s, pat, i);
    lemma_first_before(s, pat, i);
}

/// Where `pat` stands in `s` at index `i`, it stands first at some index.
proof fn lemma_first_before(s: Seq<char>, pat: Seq<char>, i: int)
    requires
        occurs_at(s, pat, i),
    ensures
        exists|j: int| first_at(s, pat, j),
    decreases i,
{
    if exists|j: int| 0 <= j < i && occurs_at(s, pat, j) {
        let j = choose|j: int| 0 <= j < i && occurs_at(s, pat, j);
        lemma_first_before(s, pat, j);
    } else {
        assert(first_at(s, pat, i));
    }
}

/// Tests whether `pat` stands in `s` at index `i`.
pub fn matches_at(s: &Vec<char>, pat: &Vec<char>, i: usize) -> (r: bool)
    ensures
        r == occurs_at(s@, pat@, i as int),
{
    let m = pat.len();
    if m > s.len() || i > s.len() - m {
        return false;
    }
    let mut k: usize = 0;
    while k < m
        invariant
            m == pat.len(),
            i + m <= s.len(),
            k <= m,
            forall|j: int| 0 <= j < k ==> s@[i + j] == pat@[j],
        decreases m - k,
    {
        if s[i + k] != pat[k] {
            assert(s@.subrange(i as int, i + m)[k as int] == s@[i + k]);
            return false;
        }
        k = k + 1;
    }
    assert(s@.subrange(i as int, i + m) =~= pat@);
    true
}

/// Finds the first place at which `pat` stands in `s`.
pub fn find(s: &Vec<char>, pat: &Vec<char>) -> (r: Option<usize>)
    ensures
        match r {
            Some(i) => first_at(s@, pat@, i as int),
            None => !contains(s@, pat@),
        },
{
    let n = s.len();
    let mut i: usize = 0;
    loop
        invariant
            n == s.len(),
            i <= n,
            forall|j: int| 0 <= j < i ==> !occurs_at(s@, pat@, j),
        decreases n - i,
    {
        if matches_at(s, pat, i) {
            return Some(i);
        }
        if i == n {
            return None;
        }
        i = i + 1;
    }
}

/// The words of a text: its longest runs of characters that are not white
/// space, in order.
pub open spec fn words(s: Seq<char>) -> Seq<Seq<char>>
    decreases s.len(),
{
    if s.len() == 0 {
        Seq::empty()
    } else {
        let before = words(s.drop_last());
        if whitespace(s.last()) {
            before
        } else if s.len() >= 2 && !whitespace(s[s.len() - 2]) {
            before.drop_last().push(before.last().push(s.last()))
        } else {
            before.push(seq![s.last()])
        }
    }
}

/// Whether `w` could be a word: it is not empty and holds no white space.
pub open spec fn solid(w: Seq<char>) -> bool {
    w.len() > 0 && forall|j: int| 0 <= j < w.len() ==> !whitespace(#[trigger] w[j])
}

/// Every word of a text is solid, and a text that does not end in white
/// space has a word.
pub proof fn law_words_are_solid(s: Seq<char>)
    ensures
        forall|k: int| 0 <= k < words(s).len() ==> solid(#[trigger] words(s)[k]),
        s.len() > 0 && !whitespace(s.last()) ==> words(s).len() > 0,
    decreases s.len(),
{
    if s.len() > 0 {
        law_words_are_solid(s.drop_last());
        let before = words(s.drop_last());
        if !whitespace(s.last()) && s.len() >= 2 && !whitespace(s[s.len() - 2]) {
            assert(s.drop_last().last() == s[s.len() - 2]);
            let grown = before.last().push(s.last());
            assert(solid(before.last()));
            assert forall|j: int| 0 <= j < grown.len() implies !whitespace(#[trigger] grown[j]) by {
                if j < before.last().len() {
                    assert(grown[j] == before.last()[j]);
                }
            }
        }
    }
}

/// The contents of a vector of words.
pub open spec fn views(ws: Seq<Vec<char>>) -> Seq<Seq<char>> {
    Seq::new(ws.len(), |i: int| ws[i]@)
}

/// The smaller of two numbers.
pub open spec fn least(a: int, b: int) -> int {
    if a <= b {
        a
    } else {
        b
    }
}

/// Keeping a finished word while fewer than `limit` are kept, and passing
/// over it otherwise, keeps the first `limit` of the finished words.
proof fn lemma_keep_word(kept: Seq<Vec<char>>, word: Vec<char>, done: Seq<Seq<char>>, limit: int)
    requires
        limit >= 0,
        views(kept) == done.take(least(limit, done.len() as int)),
    ensures
        kept.len() < limit ==> views(kept.push(word)) == done.push(word@).take(
            least(limit, (done.len() + 1) as int),
        ),
        kept.len() >= limit ==> views(kept) == done.push(word@).take(
            least(limit, (done.len() + 1) as int),
        ),
{
    let grown = done.push(word@);
    assert(views(kept).len() == kept.len());
    if kept.len() < limit {
        assert forall|j: int| 0 <= j < kept.len() + 1 implies views(kept.push(word))[j]
            == grown[j] by {
            if j < kept.len() {
                assert(views(kept)[j] == done[j]);
            }
        }
        assert(views(kept.push(word)) =~= grown.take(least(limit, (done.len() + 1) as int)));
    } else {
        assert(grown.take(least(limit, (done.len() + 1) as int)) =~= done.take(
            least(limit, done.len() as int),
        ));
    }
}

/// Counts the words of `v` and keeps the first `limit` of them.
pub fn split_words(v: &Vec<char>, limit: usize) -> (r: (usize, Vec<Vec<char>>))
    ensures
        r.0 == words(v@).len(),
        views(r.1@) == words(v@).take(least(limit as int, r.0 as int)),
{
    let n = v.len();
    let mut count: usize = 0;
    let mut kept: Vec<Vec<char>> = Vec::new();
    let mut cur: Vec<char> = Vec::new();
    let ghost mut done: Seq<Seq<char>> = Seq::empty();
    let mut i: usize = 0;
    assert(v@.take(0) =~= Seq::empty());
    while i < n
        invariant
            n == v.len(),
            i <= n,
            count == done.len(),
            count + cur@.len() <= i,
            views(kept@) == done.take(least(limit as int, count as int)),
            cur@.len() > 0 ==> !whitespace(v@[i - 1]) && words(v@.take(i as int)) == done.push(
                cur@,
            ),
            cur@.len() == 0 ==> (i == 0 || whitespace(v@[i - 1])) && words(v@.take(i as int))
                == done,
        decreases n - i,
    {
        let c = v[i];
        let ghost head = v@.take(i + 1);
        assert(head.drop_last() =~= v@.take(i as int));
        assert(head.last() == c);
        assert(i >= 1 ==> head[head.len() - 2] == v@[i - 1]);
        if c.is_whitespace() {
            if cur.len() > 0 {
                proof {
                    lemma_keep_word(kept@, cur, done, limit as int);
                    done = done.push(cur@);
                }
                count = count + 1;
                if kept.len() < limit {
                    kept.push(cur);
                }
                cur = Vec::new();
            }
        } else {
            proof {
                if cur@.len() > 0 {
                    assert(done.push(cur@).drop_last() =~= done);
                }
                if cur@.len() == 0 {
                    assert(cur@.push(c) =~= seq![c]);
                }
            }
            cur.push(c);
        }
        i = i + 1;
    }
    assert(v@.take(n as int) =~= v@);
    if cur.len() > 0 {
        proof {
            lemma_keep_word(kept@, cur, done, limit as int);
        }
        count = count + 1;
        if kept.len() < limit {
            kept.push(cur);
        }
    }
    (count, kept)
}

/// How many characters of `s` are alphabetic.
pub open spec fn letter_count(s: Seq<char>) -> nat
    decreases s.len(),
{
    if s.len() == 0 {
        0
    } else {
        letter_count(s.drop_last()) + if alphabetic(s.last()) {
            1nat
        } else {
            0nat
        }
    }
}

/// Counts the alphabetic characters of `v`.
pub fn count_letters(v: &Vec<char>) -> (r: usize)
    ensures
        r == letter_count(v@),
        r <= v@.len(),
{
    let mut r: usize = 0;
    let mut i: usize = 0;
    assert(v@.take(0) =~= Seq::empty());
    while i < v.len()
        invariant
            i <= v.len(),
            r <= i,
            r == letter_count(v@.take(i as int)),
        decreases v.len() - i,
    {
        assert(v@.take(i + 1).drop_last() =~= v@.take(i as int));
        if v[i].is_alphabetic() {
            r = r + 1;
        }
        i = i + 1;
    }
    assert(v@.take(v.len() as int) =~= v@);
    r
}

/// Copies the characters of `v` from index `from` up to index `to`.
pub fn slice(v: &Vec<char>, from: usize, to: usize) -> (r: Vec<char>)
    requires
        from <= to <= v@.len(),
    ensures
        r@ == v@.subrange(from as int, to as int),
{
    let mut r: Vec<char> = Vec::new();
    let mut i: usize = from;
    while i < to
        invariant
            from <= i <= to <= v@.len(),
            r@ == v@.subrange(from as int, i as int),
        decreases to - i,
    {
        r.push(v[i]);
        i = i + 1;
    }
    r
}

} // verus!
