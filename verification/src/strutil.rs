//! Character-level string utilities: equality, splitting and joining on a
//! separator character, and prefix/suffix tests, each proved against a
//! sequence-level specification.

use vstd::prelude::*;

verus! {

/// Splitting a character sequence at a separator, in the manner of
/// `str::split`: the result always has at least one element, and an empty
/// input yields one empty segment.
pub open spec fn split_chars(s: Seq<char>, sep: char) -> Seq<Seq<char>>
    decreases s.len(),
{
    if s.len() == 0 {
        seq![Seq::<char>::empty()]
    } else if s[0] == sep {
        seq![Seq::<char>::empty()] + split_chars(s.skip(1), sep)
    } else {
        let rest = split_chars(s.skip(1), sep);
        seq![seq![s[0]] + rest[0]] + rest.skip(1)
    }
}

pub proof fn lemma_split_chars_nonempty(s: Seq<char>, sep: char)
    ensures
        split_chars(s, sep).len() >= 1,
    decreases s.len(),
{
    if s.len() > 0 {
        lemma_split_chars_nonempty(s.skip(1), sep);
    }
}

/// If no separator occurs before position `j`, the split starts with the
/// prefix up to `j`: either `j` is the first separator position, or the whole
/// sequence is separator-free and forms the single segment.
pub proof fn lemma_split_chars_at(s: Seq<char>, sep: char, j: int)
    requires
        0 <= j <= s.len(),
        forall|k: int| 0 <= k < j ==> s[k] != sep,
    ensures
        j < s.len() && s[j] == sep ==> split_chars(s, sep) == seq![s.take(j)] + split_chars(
            s.skip(j + 1),
            sep,
        ),
        j == s.len() ==> split_chars(s, sep) == seq![s],
    decreases j,
{
    lemma_split_chars_nonempty(s, sep);
    if j == 0 {
        if 0 < s.len() && s[0] == sep {
            assert(s.take(0) =~= Seq::<char>::empty());
            assert(split_chars(s, sep) =~= seq![s.take(0)] + split_chars(s.skip(1), sep));
        } else if s.len() == 0 {
            assert(s =~= Seq::<char>::empty());
            assert(split_chars(s, sep) =~= seq![s]);
        }
    } else {
        let t = s.skip(1);
        assert(forall|k: int| 0 <= k < j - 1 ==> t[k] != sep);
        lemma_split_chars_at(t, sep, j - 1);
        lemma_split_chars_nonempty(t, sep);
        let rest = split_chars(t, sep);
        if j < s.len() && s[j] == sep {
            assert(t[j - 1] == sep);
            assert(rest == seq![t.take(j - 1)] + split_chars(t.skip(j), sep));
            assert(rest[0] == t.take(j - 1));
            assert(seq![s[0]] + t.take(j - 1) =~= s.take(j));
            assert(rest.skip(1) =~= split_chars(t.skip(j), sep));
            assert(t.skip(j) =~= s.skip(j + 1));
            assert(split_chars(s, sep) =~= seq![s.take(j)] + split_chars(s.skip(j + 1), sep));
        } else if j == s.len() {
            assert(rest == seq![t]);
            assert(seq![s[0]] + t =~= s);
            assert(rest.skip(1) =~= Seq::<Seq<char>>::empty());
            assert(split_chars(s, sep) =~= seq![s]);
        }
    }
}

/// Joining segments with a separator character: the left inverse of
/// `split_chars` on its range.
pub open spec fn join_chars(parts: Seq<Seq<char>>, sep: char) -> Seq<char>
    decreases parts.len(),
{
    if parts.len() == 0 {
        Seq::<char>::empty()
    } else if parts.len() == 1 {
        parts[0]
    } else {
        parts[0] + seq![sep] + join_chars(parts.skip(1), sep)
    }
}

/// String equality, decided character by character.
pub fn str_eq(a: &str, b: &str) -> (r: bool)
    ensures
        r == (a@ == b@),
{
    let na = a.unicode_len();
    let nb = b.unicode_len();
    if na != nb {
        proof {
            assert(a@ != b@) by {
                if a@ == b@ {
                    assert(a@.len() == b@.len());
                }
            }
        }
        return false;
    }
    let mut i: usize = 0;
    while i < na
        invariant
            i <= na,
            na == a@.len(),
            na == b@.len(),
            forall|k: int| 0 <= k < i ==> a@[k] == b@[k],
        decreases na - i,
    {
        if a.get_char(i) != b.get_char(i) {
            return false;
        }
        i += 1;
    }
    proof {
        assert(a@ =~= b@);
    }
    true
}

/// Splits a string at every occurrence of `sep`, returning the segments in
/// order; faithful to `split_chars`.
pub fn split_str(s: &str, sep: char) -> (r: Vec<String>)
    ensures
        r.deep_view() == split_chars(s@, sep),
        r.len() >= 1,
{
    let n = s.unicode_len();
    let mut out: Vec<String> = Vec::new();
    let mut start: usize = 0;
    let mut i: usize = 0;
    proof {
        assert(out.deep_view() =~= Seq::<Seq<char>>::empty());
        assert(s@.skip(0) =~= s@);
        assert(split_chars(s@, sep) =~= out.deep_view() + split_chars(s@.skip(0), sep));
    }
    while i < n
        invariant
            start <= i <= n,
            n == s@.len(),
            forall|k: int| start <= k < i ==> s@[k] != sep,
            split_chars(s@, sep) == out.deep_view() + split_chars(s@.skip(start as int), sep),
        decreases n - i,
    {
        if s.get_char(i) == sep {
            let ghost prev = out.deep_view();
            let seg = s.substring_char(start, i);
            out.push(String::from_str(seg));
            proof {
                let tail = s@.skip(start as int);
                assert(forall|k: int| 0 <= k < i - start ==> tail[k] != sep);
                lemma_split_chars_at(tail, sep, i - start);
                assert(tail[i - start] == sep);
                assert(tail.take(i - start) =~= s@.subrange(start as int, i as int));
                assert(tail.skip(i - start + 1) =~= s@.skip(i + 1));
                assert(out.deep_view() =~= prev + seq![s@.subrange(start as int, i as int)]);
                assert(split_chars(s@, sep) == out.deep_view() + split_chars(s@.skip(i + 1), sep));
            }
            start = i + 1;
        }
        i += 1;
    }
    let ghost prev = out.deep_view();
    let seg = s.substring_char(start, n);
    out.push(String::from_str(seg));
    proof {
        let tail = s@.skip(start as int);
        assert(forall|k: int| 0 <= k < tail.len() ==> tail[k] != sep);
        lemma_split_chars_at(tail, sep, tail.len() as int);
        assert(split_chars(tail, sep) == seq![tail]);
        assert(out.deep_view() =~= prev + seq![tail]);
        assert(out.deep_view() =~= split_chars(s@, sep));
    }
    out
}

/// Joins segments with a one-character separator; faithful to `join_chars`.
pub fn join_str(parts: &Vec<String>, sep: &str) -> (r: String)
    requires
        sep@.len() == 1,
    ensures
        r@ == join_chars(parts.deep_view(), sep@[0]),
{
    let ghost sep_c: char = sep@[0];
    let mut out = String::new();
    let n = parts.len();
    if n == 0 {
        return out;
    }
    let mut i: usize = 0;
    while i < n
        invariant
            i <= n,
            n == parts.len(),
            sep@.len() == 1,
            sep_c == sep@[0],
            i == 0 ==> out@ == Seq::<char>::empty(),
            i > 0 ==> out@ == join_chars(parts.deep_view().take(i as int), sep_c),
        decreases n - i,
    {
        if i > 0 {
            out.append(sep);
            proof {
                assert(sep@ =~= seq![sep_c]);
            }
        }
        out.append(parts[i].as_str());
        proof {
            let dv = parts.deep_view();
            assert(dv[i as int] == parts@[i as int]@);
            lemma_join_chars_snoc(dv.take(i as int + 1), sep_c);
            assert(dv.take(i as int + 1).drop_last() =~= dv.take(i as int));
            assert(dv.take(i as int + 1).last() == dv[i as int]);
        }
        i += 1;
    }
    proof {
        assert(parts.deep_view().take(n as int) =~= parts.deep_view());
    }
    out
}

/// Appending one segment to a nonempty join inserts one separator before it.
pub proof fn lemma_join_chars_snoc(parts: Seq<Seq<char>>, sep: char)
    requires
        parts.len() >= 1,
    ensures
        parts.len() == 1 ==> join_chars(parts, sep) == parts[0],
        parts.len() > 1 ==> join_chars(parts, sep) == join_chars(parts.drop_last(), sep)
            + seq![sep] + parts.last(),
    decreases parts.len(),
{
    if parts.len() > 1 {
        lemma_join_chars_snoc(parts.skip(1), sep);
        assert(parts.skip(1).drop_last() =~= parts.drop_last().skip(1));
        assert(parts.skip(1).last() == parts.last());
        if parts.len() == 2 {
            assert(parts.drop_last().len() == 1);
            assert(parts.drop_last()[0] == parts[0]);
        } else {
            assert(parts.drop_last().len() > 1);
            assert(parts.drop_last()[0] == parts[0]);
        }
    }
}

/// Horizontal whitespace inside one line of source text.
pub open spec fn is_ws(c: char) -> bool {
    c == ' ' || c == '\t' || c == '\r'
}

/// A character that may stand in an identifier.
pub open spec fn is_word_char(c: char) -> bool {
    ('a' <= c && c <= 'z') || ('A' <= c && c <= 'Z') || ('0' <= c && c <= '9') || c == '_' || c
        == '$'
}

/// The first position at or after `i` that does not hold whitespace, or the
/// end of the sequence.
pub open spec fn skip_ws_from(s: Seq<char>, i: int) -> int
    decreases s.len() - i when 0 <= i <= s.len()
{
    if i >= s.len() {
        i
    } else if is_ws(s[i]) {
        skip_ws_from(s, i + 1)
    } else {
        i
    }
}

pub proof fn lemma_skip_ws_from(s: Seq<char>, i: int)
    requires
        0 <= i <= s.len(),
    ensures
        i <= skip_ws_from(s, i) <= s.len(),
        forall|k: int| i <= k < skip_ws_from(s, i) ==> is_ws(s[k]),
        skip_ws_from(s, i) < s.len() ==> !is_ws(s[skip_ws_from(s, i)]),
    decreases s.len() - i,
{
    if i < s.len() && is_ws(s[i]) {
        lemma_skip_ws_from(s, i + 1);
    }
}

/// Advances past whitespace, faithful to `skip_ws_from`.
pub fn skip_ws(s: &str, i: usize) -> (r: usize)
    requires
        i <= s@.len(),
    ensures
        r == skip_ws_from(s@, i as int),
        i <= r <= s@.len(),
{
    let n = s.unicode_len();
    let mut j = i;
    while j < n
        invariant
            i <= j <= n,
            n == s@.len(),
            skip_ws_from(s@, i as int) == skip_ws_from(s@, j as int),
        decreases n - j,
    {
        let c = s.get_char(j);
        if !(c == ' ' || c == '\t' || c == '\r') {
            proof {
                lemma_skip_ws_from(s@, j as int);
            }
            return j;
        }
        j += 1;
    }
    proof {
        lemma_skip_ws_from(s@, j as int);
    }
    j
}

/// The first position at or after `i` holding `c`, or the end of the
/// sequence.
pub open spec fn find_char_from(s: Seq<char>, i: int, c: char) -> int
    decreases s.len() - i when 0 <= i <= s.len()
{
    if i >= s.len() {
        i
    } else if s[i] == c {
        i
    } else {
        find_char_from(s, i + 1, c)
    }
}

pub proof fn lemma_find_char_from(s: Seq<char>, i: int, c: char)
    requires
        0 <= i <= s.len(),
    ensures
        i <= find_char_from(s, i, c) <= s.len(),
        forall|k: int| i <= k < find_char_from(s, i, c) ==> s[k] != c,
        find_char_from(s, i, c) < s.len() ==> s[find_char_from(s, i, c)] == c,
    decreases s.len() - i,
{
    if i < s.len() && s[i] != c {
        lemma_find_char_from(s, i + 1, c);
    }
}

/// Scans for a character, faithful to `find_char_from`.
pub fn find_char(s: &str, i: usize, c: char) -> (r: usize)
    requires
        i <= s@.len(),
    ensures
        r == find_char_from(s@, i as int, c),
        i <= r <= s@.len(),
{
    let n = s.unicode_len();
    let mut j = i;
    while j < n
        invariant
            i <= j <= n,
            n == s@.len(),
            find_char_from(s@, i as int, c) == find_char_from(s@, j as int, c),
        decreases n - j,
    {
        if s.get_char(j) == c {
            proof {
                lemma_find_char_from(s@, j as int, c);
            }
            return j;
        }
        j += 1;
    }
    proof {
        lemma_find_char_from(s@, j as int, c);
    }
    j
}

/// The first position at or after `i` that could not continue an identifier,
/// or the end of the sequence.
pub open spec fn word_end_from(s: Seq<char>, i: int) -> int
    decreases s.len() - i when 0 <= i <= s.len()
{
    if i >= s.len() {
        i
    } else if is_word_char(s[i]) {
        word_end_from(s, i + 1)
    } else {
        i
    }
}

pub proof fn lemma_word_end_from(s: Seq<char>, i: int)
    requires
        0 <= i <= s.len(),
    ensures
        i <= word_end_from(s, i) <= s.len(),
        forall|k: int| i <= k < word_end_from(s, i) ==> is_word_char(s[k]),
        word_end_from(s, i) < s.len() ==> !is_word_char(s[word_end_from(s, i)]),
    decreases s.len() - i,
{
    if i < s.len() && is_word_char(s[i]) {
        lemma_word_end_from(s, i + 1);
    }
}

/// Advances past identifier characters, faithful to `word_end_from`.
pub fn word_end(s: &str, i: usize) -> (r: usize)
    requires
        i <= s@.len(),
    ensures
        r == word_end_from(s@, i as int),
        i <= r <= s@.len(),
{
    let n = s.unicode_len();
    let mut j = i;
    while j < n
        invariant
            i <= j <= n,
            n == s@.len(),
            word_end_from(s@, i as int) == word_end_from(s@, j as int),
        decreases n - j,
    {
        let c = s.get_char(j);
        let word = ('a' <= c && c <= 'z') || ('A' <= c && c <= 'Z') || ('0' <= c && c <= '9') || c
            == '_' || c == '$';
        if !word {
            proof {
                lemma_word_end_from(s@, j as int);
            }
            return j;
        }
        j += 1;
    }
    proof {
        lemma_word_end_from(s@, j as int);
    }
    j
}

/// The subsequence with leading and trailing whitespace removed.
pub open spec fn trim_ws(s: Seq<char>) -> Seq<char> {
    let a = skip_ws_from(s, 0);
    if a == s.len() {
        Seq::<char>::empty()
    } else {
        let b = last_non_ws(s, s.len() - 1);
        s.subrange(a, b + 1)
    }
}

/// The last position at or before `i` that does not hold whitespace;
/// meaningful only when one exists.
pub open spec fn last_non_ws(s: Seq<char>, i: int) -> int
    decreases i + 1 when 0 <= i < s.len()
{
    if i <= 0 {
        0
    } else if is_ws(s[i]) {
        last_non_ws(s, i - 1)
    } else {
        i
    }
}

pub proof fn lemma_last_non_ws(s: Seq<char>, i: int)
    requires
        0 <= i < s.len(),
    ensures
        0 <= last_non_ws(s, i) <= i,
        forall|k: int| last_non_ws(s, i) < k <= i ==> is_ws(s[k]),
        !is_ws(s[last_non_ws(s, i)]) || (forall|k: int| 0 <= k <= i ==> is_ws(s[k])),
    decreases i,
{
    if i > 0 && is_ws(s[i]) {
        lemma_last_non_ws(s, i - 1);
    }
}

/// Scans backwards past whitespace, faithful to `last_non_ws`.
pub fn last_non_ws_at(s: &str, i: usize) -> (r: usize)
    requires
        i < s@.len(),
    ensures
        r == last_non_ws(s@, i as int),
        r <= i,
{
    let mut j = i;
    while j > 0
        invariant
            j <= i,
            i < s@.len(),
            last_non_ws(s@, i as int) == last_non_ws(s@, j as int),
        decreases j,
    {
        let c = s.get_char(j);
        if !(c == ' ' || c == '\t' || c == '\r') {
            return j;
        }
        j -= 1;
    }
    0
}

/// Removes leading and trailing whitespace, faithful to `trim_ws`.
pub fn trim_str(s: &str) -> (r: String)
    ensures
        r@ == trim_ws(s@),
{
    let n = s.unicode_len();
    let a = skip_ws(s, 0);
    if a == n {
        let out = String::new();
        proof {
            assert(out@ =~= trim_ws(s@));
        }
        return out;
    }
    let b = last_non_ws_at(s, n - 1);
    proof {
        lemma_skip_ws_from(s@, 0);
        lemma_last_non_ws(s@, n - 1);
        assert(a <= b) by {
            if b < a {
                assert(is_ws(s@[a as int]));
            }
        }
    }
    let out = String::from_str(s.substring_char(a, b + 1));
    proof {
        assert(out@ =~= trim_ws(s@));
    }
    out
}

/// `t` is a prefix of `s`.
pub open spec fn seq_starts_with(s: Seq<char>, t: Seq<char>) -> bool {
    s.len() >= t.len() && s.take(t.len() as int) == t
}

/// `t` is a suffix of `s`.
pub open spec fn seq_ends_with(s: Seq<char>, t: Seq<char>) -> bool {
    s.len() >= t.len() && s.skip(s.len() - t.len()) == t
}

/// True when `s` begins with `prefix`.
pub fn starts_with_str(s: &str, prefix: &str) -> (r: bool)
    ensures
        r == seq_starts_with(s@, prefix@),
{
    let n = s.unicode_len();
    let p = prefix.unicode_len();
    if n < p {
        return false;
    }
    let head = s.substring_char(0, p);
    str_eq(head, prefix)
}

/// True when `s` ends with `suffix`.
pub fn ends_with_str(s: &str, suffix: &str) -> (r: bool)
    ensures
        r == seq_ends_with(s@, suffix@),
{
    let n = s.unicode_len();
    let p = suffix.unicode_len();
    if n < p {
        return false;
    }
    let tail = s.substring_char(n - p, n);
    proof {
        assert(s@.subrange(n - p, n as int) =~= s@.skip(s@.len() - suffix@.len()));
    }
    str_eq(tail, suffix)
}

} // verus!
