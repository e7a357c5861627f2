//! The grammar of one command line.  A keyword counts where it stands in
//! the line, compared without regard to ASCII case, and is followed by the
//! end of the line or by white space (a keyword that ends with `:`, such as
//! `MAIL FROM:`, needs no such separator).  The leftmost such occurrence is
//! used.  All white space after the keyword is skipped, and the argument
//! runs from there up to the first line feed or to the end of the line.

use vstd::prelude::*;

verus! {

/// The white-space class of the grammar: the Unicode `White_Space` property.
pub open spec fn is_pattern_space(c: char) -> bool {
    ||| ('\t' <= c && c <= '\r')
    ||| c == ' '
    ||| c == '\u{85}'
    ||| c == '\u{a0}'
    ||| c == '\u{1680}'
    ||| ('\u{2000}' <= c && c <= '\u{200a}')
    ||| c == '\u{2028}'
    ||| c == '\u{2029}'
    ||| c == '\u{202f}'
    ||| c == '\u{205f}'
    ||| c == '\u{3000}'
}

/// The code of `c` with ASCII upper-case letters taken to lower case.
pub open spec fn fold_case(c: char) -> int {
    if 'A' <= c && c <= 'Z' {
        (c as int) + 32
    } else {
        c as int
    }
}

/// `a` and `b` are the same text up to ASCII case.
pub open spec fn same_ignoring_case(a: Seq<char>, b: Seq<char>) -> bool {
    &&& a.len() == b.len()
    &&& forall|i: int| 0 <= i < a.len() ==> fold_case(#[trigger] a[i]) == fold_case(b[i])
}

/// The keyword `word` counts in `line` at position `i`: the text there is
/// `word` up to ASCII case, and it is followed by the end of the line or by
/// white space, unless `word` itself ends with `:`.
pub open spec fn keyword_at(line: Seq<char>, word: Seq<char>, i: int) -> bool {
    &&& 0 <= i
    &&& i + word.len() <= line.len()
    &&& same_ignoring_case(line.subrange(i, i + word.len()), word)
    &&& {
        ||| (word.len() > 0 && word.last() == ':')
        ||| i + word.len() == line.len()
        ||| is_pattern_space(line[i + word.len()])
    }
}

/// The first position at or after `k` where `word` counts in `line`.
pub open spec fn find_from(line: Seq<char>, word: Seq<char>, k: nat) -> Option<int>
    decreases line.len() + 1 - k,
{
    if k + word.len() > line.len() {
        None
    } else if keyword_at(line, word, k as int) {
        Some(k as int)
    } else {
        find_from(line, word, k + 1)
    }
}

/// The leftmost position where `word` counts in `line`.
pub open spec fn first_occurrence(line: Seq<char>, word: Seq<char>) -> Option<int> {
    find_from(line, word, 0)
}

/// The first line feed at or after `k`, or the end of `line`.
pub open spec fn line_stop(line: Seq<char>, k: nat) -> nat
    decreases line.len() - k,
{
    if k >= line.len() {
        line.len()
    } else if line[k as int] == '\n' {
        k
    } else {
        line_stop(line, k + 1)
    }
}

/// The first position at or after `k` that does not hold white space, or
/// the end of `line`.
pub open spec fn skip_space(line: Seq<char>, k: nat) -> nat
    decreases line.len() - k,
{
    if k >= line.len() {
        line.len()
    } else if is_pattern_space(line[k as int]) {
        skip_space(line, k + 1)
    } else {
        k
    }
}

/// Where `word` counts in `line`: the text that matched it and the argument
/// after it; `None` where it counts nowhere.
pub open spec fn capture(line: Seq<char>, word: Seq<char>) -> Option<(Seq<char>, Seq<char>)> {
    match first_occurrence(line, word) {
        Some(i) => {
            let start = skip_space(line, (i + word.len()) as nat);
            Some((line.subrange(i, i + word.len()), line.subrange(start as int, line_stop(line, start) as int)))
        },
        None => None,
    }
}

/// Of the keywords in `words`, the last one that counts in `line`: the text
/// that matched it and its argument.
pub open spec fn last_capture(line: Seq<char>, words: Seq<Seq<char>>) -> Option<(Seq<char>, Seq<char>)>
    decreases words.len(),
{
    if words.len() == 0 {
        None
    } else {
        match capture(line, words.last()) {
            Some(found) => Some(found),
            None => last_capture(line, words.drop_last()),
        }
    }
}

/// `s` without the carriage returns and line feeds that end it.
pub open spec fn trim_line_ending(s: Seq<char>) -> Seq<char>
    decreases s.len(),
{
    if s.len() > 0 && (s.last() == '\r' || s.last() == '\n') {
        trim_line_ending(s.drop_last())
    } else {
        s
    }
}

/// The views of a list of keywords.
pub open spec fn keyword_views(words: Seq<&str>) -> Seq<Seq<char>> {
    words.map_values(|w: &str| w@)
}

proof fn lemma_find_from(line: Seq<char>, word: Seq<char>, k: nat)
    ensures
        match find_from(line, word, k) {
            Some(i) => k <= i && keyword_at(line, word, i) && forall|j: int|
                k <= j < i ==> !keyword_at(line, word, j),
            None => forall|j: int| k <= j ==> !keyword_at(line, word, j),
        },
    decreases line.len() + 1 - k,
{
    if k + word.len() > line.len() {
    } else if keyword_at(line, word, k as int) {
    } else {
        lemma_find_from(line, word, k + 1);
    }
}

/// The grammar takes the leftmost place where a keyword counts: where
/// `first_occurrence` gives a position, the keyword counts there and at no
/// earlier position; where it gives none, the keyword counts nowhere.
pub proof fn lemma_first_occurrence_is_leftmost(line: Seq<char>, word: Seq<char>)
    ensures
        match first_occurrence(line, word) {
            Some(i) => keyword_at(line, word, i) && forall|j: int|
                0 <= j < i ==> !keyword_at(line, word, j),
            None => forall|j: int| !keyword_at(line, word, j),
        },
{
    lemma_find_from(line, word, 0);
}

proof fn lemma_line_stop(line: Seq<char>, k: nat)
    ensures
        line_stop(line, k) <= line.len(),
        k <= line.len() ==> k <= line_stop(line, k),
        forall|j: int| k <= j < line_stop(line, k) ==> line[j] != '\n',
    decreases line.len() - k,
{
    if k < line.len() && line[k as int] != '\n' {
        lemma_line_stop(line, k + 1);
    }
}

proof fn lemma_skip_space(line: Seq<char>, k: nat)
    ensures
        skip_space(line, k) <= line.len(),
        k <= line.len() ==> k <= skip_space(line, k),
        forall|j: int| k <= j < skip_space(line, k) ==> is_pattern_space(line[j]),
        skip_space(line, k) < line.len() ==> !is_pattern_space(line[skip_space(line, k) as int]),
    decreases line.len() - k,
{
    if k < line.len() && is_pattern_space(line[k as int]) {
        lemma_skip_space(line, k + 1);
    }
}

/// The argument that the grammar captures holds no line feed, and does not
/// start with white space: all white space after the keyword is skipped.
pub proof fn lemma_argument_shape(line: Seq<char>, word: Seq<char>)
    ensures
        capture(line, word) matches Some((_, arg)) ==> {
            &&& forall|i: int| 0 <= i < arg.len() ==> arg[i] != '\n'
            &&& arg.len() > 0 ==> !is_pattern_space(arg[0])
        },
{
    lemma_first_occurrence_is_leftmost(line, word);
    if let Some(i) = first_occurrence(line, word) {
        let start = skip_space(line, (i + word.len()) as nat);
        lemma_skip_space(line, (i + word.len()) as nat);
        lemma_line_stop(line, start);
        let arg = line.subrange(start as int, line_stop(line, start) as int);
        assert forall|m: int| 0 <= m < arg.len() implies arg[m] != '\n' by {
            assert(arg[m] == line[start + m]);
        }
    }
}

proof fn lemma_skip_space_run(line: Seq<char>, k: nat, m: nat)
    requires
        k <= m <= line.len(),
        forall|j: int| k <= j < m ==> is_pattern_space(line[j]),
        m < line.len() ==> !is_pattern_space(line[m as int]),
    ensures
        skip_space(line, k) == m,
    decreases m - k,
{
    if k < m {
        lemma_skip_space_run(line, k + 1, m);
    }
}

proof fn lemma_line_stop_at_end(line: Seq<char>, k: nat)
    requires
        k <= line.len(),
        forall|j: int| k <= j < line.len() ==> line[j] != '\n',
    ensures
        line_stop(line, k) == line.len(),
    decreases line.len() - k,
{
    if k < line.len() {
        lemma_line_stop_at_end(line, k + 1);
    }
}

/// A line that starts with a keyword, then white space, then an argument
/// with no line feed that does not start with white space, captures that
/// keyword with the whole argument, whatever its length.  (Without white
/// space in between, the keyword must end with `:`, or the argument must
/// be empty.)
pub proof fn lemma_keyword_then_argument(k: Seq<char>, w: Seq<char>, a: Seq<char>)
    requires
        forall|i: int| 0 <= i < w.len() ==> is_pattern_space(#[trigger] w[i]),
        forall|i: int| 0 <= i < a.len() ==> #[trigger] a[i] != '\n',
        a.len() > 0 ==> !is_pattern_space(a[0]),
        w.len() > 0 || a.len() == 0 || (k.len() > 0 && k.last() == ':'),
    ensures
        capture(k + w + a, k) == Some((k, a)),
{
    let line = k + w + a;
    assert(line.subrange(0, k.len() as int) =~= k);
    if w.len() > 0 {
        assert(line[k.len() as int] == w[0]);
    }
    assert(keyword_at(line, k, 0));
    assert(first_occurrence(line, k) == Some(0int));
    let end = k.len();
    assert forall|j: int| end <= j < end + w.len() implies is_pattern_space(line[j]) by {
        assert(line[j] == w[j - end]);
    }
    if a.len() > 0 {
        assert(line[(end + w.len()) as int] == a[0]);
    }
    lemma_skip_space_run(line, end, end + w.len());
    assert forall|j: int| end + w.len() <= j < line.len() implies line[j] != '\n' by {
        assert(line[j] == a[j - end - w.len()]);
    }
    lemma_line_stop_at_end(line, end + w.len());
    assert(line.subrange((end + w.len()) as int, line.len() as int) =~= a);
}

/// Of a list of keywords, the one that `last_capture` picks is the last
/// one that is captured at all.
pub proof fn lemma_last_capture_picks(line: Seq<char>, words: Seq<Seq<char>>, idx: int)
    requires
        0 <= idx < words.len(),
        capture(line, words[idx]) is Some,
        forall|j: int| idx < j < words.len() ==> capture(line, #[trigger] words[j]) is None,
    ensures
        last_capture(line, words) == capture(line, words[idx]),
    decreases words.len(),
{
    if idx < words.len() - 1 {
        let rest = words.drop_last();
        assert forall|j: int| idx < j < rest.len() implies capture(line, #[trigger] rest[j]) is None by {
            assert(rest[j] == words[j]);
        }
        lemma_last_capture_picks(line, rest, idx);
    }
}

/// A keyword that counts nowhere in a line is not captured.
pub proof fn lemma_no_occurrence_no_capture(line: Seq<char>, word: Seq<char>)
    requires
        forall|p: int| !keyword_at(line, word, p),
    ensures
        capture(line, word) is None,
{
    lemma_first_occurrence_is_leftmost(line, word);
}

/// `pattern_space` decides the white-space class.
pub fn pattern_space(c: char) -> (b: bool)
    ensures
        b == is_pattern_space(c),
{
    ('\t' <= c && c <= '\r') || c == ' ' || c == '\u{85}' || c == '\u{a0}' || c == '\u{1680}'
        || ('\u{2000}' <= c && c <= '\u{200a}') || c == '\u{2028}' || c == '\u{2029}'
        || c == '\u{202f}' || c == '\u{205f}' || c == '\u{3000}'
}

/// The code of `c` with ASCII upper-case letters taken to lower case.
pub fn folded(c: char) -> (r: u32)
    ensures
        r as int == fold_case(c),
{
    if 'A' <= c && c <= 'Z' {
        (c as u32) + 32
    } else {
        c as u32
    }
}

/// Whether `a` and `b` are the same text up to ASCII case.
pub fn equal_ignoring_case(a: &[char], b: &[char]) -> (r: bool)
    ensures
        r == same_ignoring_case(a@, b@),
{
    if a.len() != b.len() {
        return false;
    }
    let mut i: usize = 0;
    while i < a.len()
        invariant
            a@.len() == b@.len(),
            i <= a@.len(),
            forall|m: int| 0 <= m < i ==> fold_case(#[trigger] a@[m]) == fold_case(b@[m]),
        decreases a@.len() - i,
    {
        if folded(a[i]) != folded(b[i]) {
            return false;
        }
        i = i + 1;
    }
    true
}

/// The characters of `s`, in order.
pub fn chars_of(s: &str) -> (v: Vec<char>)
    ensures
        v@ == s@,
{
    let n = s.unicode_len();
    let mut v: Vec<char> = Vec::new();
    for i in 0..n
        invariant
            n == s@.len(),
            v@ == s@.subrange(0, i as int),
    {
        v.push(s.get_char(i));
        assert(v@ =~= s@.subrange(0, i + 1));
    }
    assert(v@ =~= s@);
    v
}

/// How many characters of `line` remain once the carriage returns and line
/// feeds that end it are cut off.
pub fn trimmed_len(line: &[char]) -> (k: usize)
    ensures
        k <= line@.len(),
        line@.subrange(0, k as int) == trim_line_ending(line@),
{
    let mut k = line.len();
    assert(line@.subrange(0, k as int) =~= line@);
    while k > 0 && (line[k - 1] == '\r' || line[k - 1] == '\n')
        invariant
            k <= line@.len(),
            trim_line_ending(line@) == trim_line_ending(line@.subrange(0, k as int)),
        decreases k,
    {
        assert(line@.subrange(0, k as int).drop_last() =~= line@.subrange(0, k - 1));
        k = k - 1;
    }
    k
}

/// Whether the keyword `word` counts in `line` at position `i`.
pub fn matches_at(line: &[char], word: &[char], i: usize) -> (b: bool)
    ensures
        b == keyword_at(line@, word@, i as int),
{
    let n = line.len();
    let w = word.len();
    if w > n || i > n - w {
        return false;
    }
    let mut j: usize = 0;
    while j < w
        invariant
            n == line@.len(),
            w == word@.len(),
            i + w <= n,
            j <= w,
            forall|m: int| 0 <= m < j ==> fold_case(#[trigger] line@[i + m]) == fold_case(word@[m]),
        decreases w - j,
    {
        if folded(line[i + j]) != folded(word[j]) {
            assert(line@.subrange(i as int, i + w)[j as int] == line@[i + j]);
            return false;
        }
        j = j + 1;
    }
    assert forall|m: int| 0 <= m < w implies fold_case(
        #[trigger] line@.subrange(i as int, i + w)[m],
    ) == fold_case(word@[m]) by {
        assert(line@.subrange(i as int, i + w)[m] == line@[i + m]);
    }
    (w > 0 && word[w - 1] == ':') || i + w == n || pattern_space(line[i + w])
}

/// The leftmost position where `word` counts in `line`.
pub fn find_first(line: &[char], word: &[char]) -> (r: Option<usize>)
    ensures
        match r {
            Some(i) => first_occurrence(line@, word@) == Some(i as int),
            None => first_occurrence(line@, word@) is None,
        },
{
    let n = line.len();
    let w = word.len();
    if w > n {
        return None;
    }
    let last = n - w;
    let mut i: usize = 0;
    loop
        invariant
            n == line@.len(),
            w == word@.len(),
            w <= n,
            last == n - w,
            i <= last,
            first_occurrence(line@, word@) == find_from(line@, word@, i as nat),
        decreases last - i,
    {
        if matches_at(line, word, i) {
            return Some(i);
        }
        if i == last {
            assert(find_from(line@, word@, (i + 1) as nat) is None);
            return None;
        }
        i = i + 1;
    }
}

/// The first line feed at or after `k`, or the length of `line`.
pub fn stop_of_line(line: &[char], k: usize) -> (r: usize)
    ensures
        r as nat == line_stop(line@, k as nat),
        r <= line@.len(),
        k <= line@.len() ==> k <= r,
{
    let n = line.len();
    let mut i = k;
    while i < n
        invariant
            n == line@.len(),
            line_stop(line@, k as nat) == line_stop(line@, i as nat),
            k <= n ==> k <= i,
        decreases n - i,
    {
        if line[i] == '\n' {
            return i;
        }
        i = i + 1;
    }
    n
}

/// The first position at or after `k` that does not hold white space, or
/// the length of `line`.
pub fn skip_spaces(line: &[char], k: usize) -> (r: usize)
    ensures
        r as nat == skip_space(line@, k as nat),
        r <= line@.len(),
        k <= line@.len() ==> k <= r,
{
    let n = line.len();
    let mut i = k;
    while i < n
        invariant
            n == line@.len(),
            skip_space(line@, k as nat) == skip_space(line@, i as nat),
            k <= n ==> k <= i,
        decreases n - i,
    {
        if !pattern_space(line[i]) {
            return i;
        }
        i = i + 1;
    }
    n
}

/// Tries every keyword of `words` in turn on `line`; of those that count,
/// the last one wins.  Gives the bounds of the text that matched it and of
/// the argument it captures.
pub fn find_last_capture(line: &[char], words: &Vec<&str>) -> (r: Option<(usize, usize, usize, usize)>)
    ensures
        match r {
            None => last_capture(line@, keyword_views(words@)) is None,
            Some((ks, ke, st, sp)) => {
                &&& ks <= ke <= line@.len()
                &&& st <= sp <= line@.len()
                &&& last_capture(line@, keyword_views(words@)) == Some(
                    (line@.subrange(ks as int, ke as int), line@.subrange(st as int, sp as int)),
                )
            },
        },
{
    let ghost kw = keyword_views(words@);
    let k = line.len();
    let mut found: Option<(usize, usize, usize, usize)> = None;
    for i in 0..words.len()
        invariant
            kw == keyword_views(words@),
            k == line@.len(),
            match found {
                None => last_capture(line@, kw.take(i as int)) is None,
                Some((ks, ke, st, sp)) => {
                    &&& ks <= ke <= k
                    &&& st <= sp <= k
                    &&& last_capture(line@, kw.take(i as int)) == Some(
                        (line@.subrange(ks as int, ke as int), line@.subrange(st as int, sp as int)),
                    )
                },
            },
    {
        let word = chars_of(words[i]);
        assert(kw.take(i + 1).drop_last() =~= kw.take(i as int));
        assert(kw.take(i + 1).last() == kw[i as int]);
        match find_first(line, word.as_slice()) {
            Some(pos) => {
                proof {
                    lemma_first_occurrence_is_leftmost(line@, word@);
                }
                let end = pos + word.len();
                let start = skip_spaces(line, end);
                let stop = stop_of_line(line, start);
                assert(capture(line@, kw[i as int]) == Some(
                    (line@.subrange(pos as int, end as int), line@.subrange(start as int, stop as int)),
                ));
                found = Some((pos, end, start, stop));
            },
            None => {
                assert(capture(line@, kw[i as int]) is None);
            },
        }
    }
    assert(kw.take(words@.len() as int) =~= kw);
    found
}

} // verus!
