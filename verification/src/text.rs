//! Character-level text helpers shared by the parsers and the report writers.
use vstd::prelude::*;

verus! {

/// Index of the last occurrence of `c` in `s`, or -1.
pub open spec fn last_index_of(s: Seq<char>, c: char) -> int
    decreases s.len(),
{
    if s.len() == 0 {
        -1
    } else if s.last() == c {
        s.len() - 1
    } else {
        last_index_of(s.drop_last(), c)
    }
}

/// What follows the last `c` (all of `s` when `c` does not occur).
pub open spec fn after_last(s: Seq<char>, c: char) -> Seq<char> {
    s.subrange(last_index_of(s, c) + 1, s.len() as int)
}

/// What precedes the last `c` (all of `s` when `c` does not occur).
pub open spec fn before_last(s: Seq<char>, c: char) -> Seq<char> {
    if last_index_of(s, c) >= 0 {
        s.subrange(0, last_index_of(s, c))
    } else {
        s
    }
}

pub open spec fn is_prefix(p: Seq<char>, s: Seq<char>) -> bool {
    p.len() <= s.len() && s.subrange(0, p.len() as int) == p
}

pub open spec fn is_suffix(p: Seq<char>, s: Seq<char>) -> bool {
    p.len() <= s.len() && s.subrange(s.len() - p.len(), s.len() as int) == p
}

pub open spec fn has_infix(p: Seq<char>, s: Seq<char>) -> bool {
    exists|i: int| 0 <= i && i + p.len() <= s.len() && #[trigger] s.subrange(i, i + p.len()) == p
}

/// `s[i..j]` is one of the pieces of `s` split on `sep` (Rust's `str::split`).
pub open spec fn is_piece(s: Seq<char>, sep: char, i: int, j: int) -> bool {
    &&& 0 <= i <= j <= s.len()
    &&& (i == 0 || s[i - 1] == sep)
    &&& (j == s.len() || s[j] == sep)
    &&& forall|k: int| i <= k < j ==> s[k] != sep
}

/// `w` is one of the words of the list.
pub open spec fn in_words(w: Seq<char>, words: Seq<&str>) -> bool {
    exists|k: int| 0 <= k < words.len() && (#[trigger] words[k])@ == w
}

/// Name for what `str::to_lowercase` returns (Unicode lowercase mapping).
pub uninterp spec fn spec_to_lowercase(s: Seq<char>) -> Seq<char>;

/// `str::to_lowercase`; the result is the Unicode lowercase mapping of `s`,
/// which is a function of `s` alone. On ASCII text the mapping only turns `A`-`Z`
/// into `a`-`z`.
#[verifier::external_body]
pub(crate) fn to_lowercase(s: &str) -> (r: String)
    ensures
        r@ == spec_to_lowercase(s@),
        (forall|i: int| 0 <= i < s@.len() ==> (s@[i] as u32) < 0x80) ==> r@ == spec_ascii_lowercase(s@),
{
    s.to_lowercase()
}

/// Name for what `str::to_uppercase` returns (Unicode uppercase mapping).
pub uninterp spec fn spec_to_uppercase(s: Seq<char>) -> Seq<char>;

/// `str::to_uppercase`; the result is the Unicode uppercase mapping of `s`, which is
/// a function of `s` alone.
#[verifier::external_body]
pub(crate) fn to_uppercase(s: &str) -> (r: String)
    ensures
        r@ == spec_to_uppercase(s@),
{
    s.to_uppercase()
}

/// `String::push`: appends one character.
#[verifier::external_body]
pub(crate) fn push_char(s: &mut String, c: char)
    ensures
        final(s)@ == old(s)@.push(c),
{
    s.push(c);
}

pub open spec fn spec_ascii_lower(c: char) -> char {
    if 'A' <= c <= 'Z' {
        ((c as u32) + 32) as char
    } else {
        c
    }
}

pub open spec fn spec_ascii_lowercase(s: Seq<char>) -> Seq<char> {
    s.map_values(|c: char| spec_ascii_lower(c))
}

pub fn ascii_lower(c: char) -> (r: char)
    ensures
        r == spec_ascii_lower(c),
{
    if 'A' <= c && c <= 'Z' {
        let n: u32 = (c as u32) + 32;
        proof {
            assert(0x61 <= n <= 0x7a);
        }
        char_from_ascii(n)
    } else {
        c
    }
}

/// Turns a code point below 0x80 back into its character.
fn char_from_ascii(n: u32) -> (r: char)
    requires
        n < 0x80,
    ensures
        r == n as char,
{
    let b: u8 = n as u8;
    b as char
}

pub fn chars_of(s: &str) -> (r: Vec<char>)
    ensures
        r@ == s@,
{
    let mut out: Vec<char> = Vec::new();
    for c in it: s.chars()
        invariant
            out@ == it.seq().take(it.index() as int),
            it.seq() == s@,
    {
        out.push(c);
    }
    out
}

pub fn string_from(v: &[char]) -> (r: String)
    ensures
        r@ == v@,
{
    let mut out = String::new();
    let mut i: usize = 0;
    while i < v.len()
        invariant
            i <= v.len(),
            out@ == v@.take(i as int),
        decreases v.len() - i,
    {
        push_char(&mut out, v[i]);
        i = i + 1;
        assert(out@ =~= v@.take(i as int));
    }
    assert(v@.take(v.len() as int) =~= v@);
    out
}

pub fn slice_chars(v: &[char], i: usize, j: usize) -> (r: Vec<char>)
    requires
        i <= j <= v.len(),
    ensures
        r@ == v@.subrange(i as int, j as int),
{
    let mut out: Vec<char> = Vec::new();
    let mut k: usize = i;
    while k < j
        invariant
            i <= k <= j <= v.len(),
            out@ == v@.subrange(i as int, k as int),
        decreases j - k,
    {
        out.push(v[k]);
        k = k + 1;
        assert(out@ =~= v@.subrange(i as int, k as int));
    }
    out
}

pub fn append_chars(out: &mut Vec<char>, s: &str)
    ensures
        final(out)@ == old(out)@ + s@,
{
    let c = chars_of(s);
    let ghost start = out@;
    let mut i: usize = 0;
    while i < c.len()
        invariant
            i <= c.len(),
            c@ == s@,
            out@ == start + c@.take(i as int),
        decreases c.len() - i,
    {
        out.push(c[i]);
        i = i + 1;
        assert(out@ =~= start + c@.take(i as int));
    }
    assert(c@.take(c.len() as int) =~= c@);
}

/// Equality of two texts.
pub fn str_eq(a: &str, b: &str) -> (r: bool)
    ensures
        r == (a@ == b@),
{
    let x = chars_of(a);
    let y = chars_of(b);
    equal_chars(&x, &y)
}

pub fn equal_chars(a: &[char], b: &[char]) -> (r: bool)
    ensures
        r == (a@ == b@),
{
    if a.len() != b.len() {
        return false;
    }
    let mut i: usize = 0;
    while i < a.len()
        invariant
            a.len() == b.len(),
            i <= a.len(),
            forall|j: int| 0 <= j < i ==> a@[j] == b@[j],
        decreases a.len() - i,
    {
        if a[i] != b[i] {
            return false;
        }
        i = i + 1;
    }
    assert(a@ =~= b@);
    true
}

/// `p` occurs in `v` at position `at`.
pub fn matches_at(v: &[char], at: usize, p: &[char]) -> (r: bool)
    requires
        at <= v.len(),
    ensures
        r == (at + p.len() <= v.len() && v@.subrange(at as int, at + p.len()) == p@),
{
    if p.len() > v.len() - at {
        return false;
    }
    let mut i: usize = 0;
    while i < p.len()
        invariant
            at + p.len() <= v.len(),
            i <= p.len(),
            forall|j: int| 0 <= j < i ==> v@[at + j] == p@[j],
        decreases p.len() - i,
    {
        if v[at + i] != p[i] {
            assert(v@.subrange(at as int, at + p.len())[i as int] != p@[i as int]);
            return false;
        }
        i = i + 1;
    }
    assert(v@.subrange(at as int, at + p.len()) =~= p@);
    true
}

pub fn starts_with(v: &[char], p: &str) -> (r: bool)
    ensures
        r == is_prefix(p@, v@),
{
    let pc = chars_of(p);
    matches_at(v, 0, &pc)
}

pub fn ends_with(v: &[char], p: &str) -> (r: bool)
    ensures
        r == is_suffix(p@, v@),
{
    let pc = chars_of(p);
    if pc.len() > v.len() {
        return false;
    }
    matches_at(v, v.len() - pc.len(), &pc)
}

pub fn contains_infix(v: &[char], p: &str) -> (r: bool)
    ensures
        r == has_infix(p@, v@),
{
    let pc = chars_of(p);
    if pc.len() > v.len() {
        return false;
    }
    let last: usize = v.len() - pc.len();
    let mut i: usize = 0;
    loop
        invariant
            pc@ == p@,
            pc.len() <= v.len(),
            last == v.len() - pc.len(),
            i <= last,
            forall|k: int| 0 <= k < i ==> #[trigger] v@.subrange(k, k + p@.len()) != p@,
        decreases last - i,
    {
        if matches_at(v, i, &pc) {
            return true;
        }
        if i == last {
            return false;
        }
        i = i + 1;
    }
}

pub fn contains_char(v: &[char], c: char) -> (r: bool)
    ensures
        r == v@.contains(c),
{
    let mut i: usize = 0;
    while i < v.len()
        invariant
            i <= v.len(),
            forall|j: int| 0 <= j < i ==> v@[j] != c,
        decreases v.len() - i,
    {
        if v[i] == c {
            return true;
        }
        i = i + 1;
    }
    false
}

/// Position of the last `c` in `v`.
pub fn last_index(v: &[char], c: char) -> (r: Option<usize>)
    ensures
        match r {
            Some(i) => i == last_index_of(v@, c) && i < v.len(),
            None => last_index_of(v@, c) == -1,
        },
{
    let mut i: usize = v.len();
    assert(v@.take(i as int) =~= v@);
    while i > 0
        invariant
            i <= v.len(),
            last_index_of(v@, c) == last_index_of(v@.take(i as int), c),
        decreases i,
    {
        assert(v@.take(i as int).drop_last() =~= v@.take(i - 1));
        if v[i - 1] == c {
            return Some(i - 1);
        }
        i = i - 1;
    }
    None
}

/// The word `w` is one of `words`.
pub fn member(w: &[char], words: &[&str]) -> (r: bool)
    ensures
        r == in_words(w@, words@),
{
    let mut k: usize = 0;
    while k < words.len()
        invariant
            k <= words.len(),
            forall|j: int| 0 <= j < k ==> (#[trigger] words@[j])@ != w@,
        decreases words.len() - k,
    {
        let c = chars_of(words[k]);
        if equal_chars(&c, w) {
            return true;
        }
        k = k + 1;
    }
    false
}

} // verus!

verus! {

pub open spec fn prefix_in(s: Seq<char>, words: Seq<&str>) -> bool {
    exists|k: int| 0 <= k < words.len() && is_prefix((#[trigger] words[k])@, s)
}

pub open spec fn suffix_in(s: Seq<char>, words: Seq<&str>) -> bool {
    exists|k: int| 0 <= k < words.len() && is_suffix((#[trigger] words[k])@, s)
}

pub open spec fn infix_in(s: Seq<char>, words: Seq<&str>) -> bool {
    exists|k: int| 0 <= k < words.len() && has_infix((#[trigger] words[k])@, s)
}

pub fn starts_with_any(v: &[char], words: &[&str]) -> (r: bool)
    ensures
        r == prefix_in(v@, words@),
{
    let mut k: usize = 0;
    while k < words.len()
        invariant
            k <= words.len(),
            forall|j: int| 0 <= j < k ==> !is_prefix((#[trigger] words@[j])@, v@),
        decreases words.len() - k,
    {
        if starts_with(v, words[k]) {
            return true;
        }
        k = k + 1;
    }
    false
}

pub fn ends_with_any(v: &[char], words: &[&str]) -> (r: bool)
    ensures
        r == suffix_in(v@, words@),
{
    let mut k: usize = 0;
    while k < words.len()
        invariant
            k <= words.len(),
            forall|j: int| 0 <= j < k ==> !is_suffix((#[trigger] words@[j])@, v@),
        decreases words.len() - k,
    {
        if ends_with(v, words[k]) {
            return true;
        }
        k = k + 1;
    }
    false
}

pub fn contains_any(v: &[char], words: &[&str]) -> (r: bool)
    ensures
        r == infix_in(v@, words@),
{
    let mut k: usize = 0;
    while k < words.len()
        invariant
            k <= words.len(),
            forall|j: int| 0 <= j < k ==> !has_infix((#[trigger] words@[j])@, v@),
        decreases words.len() - k,
    {
        if contains_infix(v, words[k]) {
            return true;
        }
        k = k + 1;
    }
    false
}

/// The piece `s[i..j]`, lowercased first when `lower` holds, is one of `words`.
pub open spec fn piece_word(s: Seq<char>, i: int, j: int, lower: bool, words: Seq<&str>) -> bool {
    in_words(
        if lower {
            spec_to_lowercase(s.subrange(i, j))
        } else {
            s.subrange(i, j)
        },
        words,
    )
}

/// Some piece of `s` split on `sep` is one of `words`; the last piece counts only
/// when `with_last` holds.
pub open spec fn some_piece_in(
    s: Seq<char>,
    sep: char,
    lower: bool,
    with_last: bool,
    words: Seq<&str>,
) -> bool {
    exists|i: int, j: int|
        #![trigger is_piece(s, sep, i, j)]
        is_piece(s, sep, i, j) && (with_last || j < s.len()) && piece_word(s, i, j, lower, words)
}

proof fn lemma_piece_start_unique(s: Seq<char>, sep: char, i: int, start: int, j: int)
    requires
        is_piece(s, sep, i, j),
        0 <= start <= j,
        start == 0 || s[start - 1] == sep,
        forall|k: int| start <= k < j ==> s[k] != sep,
    ensures
        i == start,
{
    if i < start {
        assert(s[start - 1] == sep);
    } else if i > start {
        assert(s[i - 1] == sep);
    }
}

fn piece_is_word(v: &[char], i: usize, j: usize, lower: bool, words: &[&str]) -> (r: bool)
    requires
        i <= j <= v.len(),
    ensures
        r == piece_word(v@, i as int, j as int, lower, words@),
{
    let p = slice_chars(v, i, j);
    if lower {
        let s = string_from(&p);
        let l = to_lowercase(s.as_str());
        let lc = chars_of(l.as_str());
        member(&lc, words)
    } else {
        member(&p, words)
    }
}

pub fn any_piece_in(v: &[char], sep: char, lower: bool, with_last: bool, words: &[&str]) -> (r:
    bool)
    ensures
        r == some_piece_in(v@, sep, lower, with_last, words@),
{
    let mut start: usize = 0;
    let mut k: usize = 0;
    while k < v.len()
        invariant
            start <= k <= v.len(),
            start == 0 || v@[start - 1] == sep,
            forall|m: int| start <= m < k ==> v@[m] != sep,
            forall|i: int, j: int|
                #![trigger is_piece(v@, sep, i, j)]
                is_piece(v@, sep, i, j) && j < k ==> !piece_word(v@, i, j, lower, words@),
        decreases v.len() - k,
    {
        if v[k] == sep {
            if piece_is_word(v, start, k, lower, words) {
                assert(is_piece(v@, sep, start as int, k as int));
                return true;
            }
            assert forall|i: int, j: int|
                #![trigger is_piece(v@, sep, i, j)]
                is_piece(v@, sep, i, j) && j < k + 1 implies !piece_word(
                    v@,
                    i,
                    j,
                    lower,
                    words@,
                ) by {
                if j == k {
                    lemma_piece_start_unique(v@, sep, i, start as int, j);
                }
            }
            start = k + 1;
        }
        k = k + 1;
    }
    if with_last {
        if piece_is_word(v, start, v.len(), lower, words) {
            assert(is_piece(v@, sep, start as int, v.len() as int));
            return true;
        }
        assert forall|i: int, j: int|
            #![trigger is_piece(v@, sep, i, j)]
            is_piece(v@, sep, i, j) implies !piece_word(v@, i, j, lower, words@) by {
            if j == v.len() {
                lemma_piece_start_unique(v@, sep, i, start as int, j);
            }
        }
    }
    false
}

} // verus!

verus! {

/// Unicode White_Space, as `char::is_whitespace` tests it.
pub open spec fn spec_is_whitespace(c: char) -> bool {
    ||| ('\u{9}' <= c <= '\u{d}')
    ||| c == ' '
    ||| c == '\u{85}'
    ||| c == '\u{a0}'
    ||| c == '\u{1680}'
    ||| ('\u{2000}' <= c <= '\u{200a}')
    ||| c == '\u{2028}'
    ||| c == '\u{2029}'
    ||| c == '\u{202f}'
    ||| c == '\u{205f}'
    ||| c == '\u{3000}'
}

pub fn is_whitespace(c: char) -> (r: bool)
    ensures
        r == spec_is_whitespace(c),
{
    ('\u{9}' <= c && c <= '\u{d}') || c == ' ' || c == '\u{85}' || c == '\u{a0}' || c
        == '\u{1680}' || ('\u{2000}' <= c && c <= '\u{200a}') || c == '\u{2028}' || c
        == '\u{2029}' || c == '\u{202f}' || c == '\u{205f}' || c == '\u{3000}'
}

} // verus!

verus! {

/// Index of the first occurrence of `c` in `s`, or -1.
pub open spec fn index_of(s: Seq<char>, c: char) -> int
    decreases s.len(),
{
    if s.len() == 0 {
        -1
    } else if s[0] == c {
        0
    } else {
        let r = index_of(s.skip(1), c);
        if r < 0 {
            -1
        } else {
            r + 1
        }
    }
}

pub proof fn lemma_index_of(s: Seq<char>, c: char, k: int)
    requires
        0 <= k <= s.len(),
        forall|j: int| 0 <= j < k ==> s[j] != c,
        k == s.len() || s[k] == c,
    ensures
        index_of(s, c) == if k == s.len() {
            -1
        } else {
            k
        },
    decreases s.len(),
{
    if s.len() > 0 && k > 0 {
        lemma_index_of(s.skip(1), c, k - 1);
    }
}

/// What precedes the first `c` (all of `s` when `c` does not occur), as
/// `s.split(c).next()` gives it.
pub open spec fn before_first(s: Seq<char>, c: char) -> Seq<char> {
    if index_of(s, c) >= 0 {
        s.take(index_of(s, c))
    } else {
        s
    }
}

/// A line without its `\r\n` terminator's carriage return.
pub open spec fn strip_cr(s: Seq<char>) -> Seq<char> {
    if s.len() > 0 && s.last() == '\r' {
        s.drop_last()
    } else {
        s
    }
}

/// The lines of `s`, as `str::lines` yields them: split after each `\n`, the
/// terminator and a `\r` right before it removed, no empty line after a final `\n`.
pub open spec fn spec_lines(s: Seq<char>) -> Seq<Seq<char>>
    decreases s.len(),
{
    if s.len() == 0 {
        seq![]
    } else {
        let i = index_of(s, '\n');
        if i < 0 {
            seq![s]
        } else {
            proof {
                lemma_index_of_bound(s, '\n');
            }
            seq![strip_cr(s.take(i))] + spec_lines(s.skip(i + 1))
        }
    }
}

pub proof fn lemma_index_of_bound(s: Seq<char>, c: char)
    ensures
        -1 <= index_of(s, c) < s.len(),
        index_of(s, c) >= 0 ==> s[index_of(s, c)] == c,
        forall|j: int| 0 <= j < index_of(s, c) ==> s[j] != c,
        index_of(s, c) < 0 ==> forall|j: int| 0 <= j < s.len() ==> s[j] != c,
    decreases s.len(),
{
    if s.len() > 0 && s[0] != c {
        lemma_index_of_bound(s.skip(1), c);
        assert forall|j: int| 0 < j < s.len() implies s[j] == s.skip(1)[j - 1] by {}
    }
}

/// Position of the first `c` at or after `from`.
pub fn find_from(v: &[char], from: usize, c: char) -> (r: Option<usize>)
    requires
        from <= v.len(),
    ensures
        match r {
            Some(k) => from <= k < v.len() && v@[k as int] == c && forall|j: int|
                from <= j < k ==> v@[j] != c,
            None => forall|j: int| from <= j < v.len() ==> v@[j] != c,
        },
{
    let mut k: usize = from;
    while k < v.len()
        invariant
            from <= k <= v.len(),
            forall|j: int| from <= j < k ==> v@[j] != c,
        decreases v.len() - k,
    {
        if v[k] == c {
            return Some(k);
        }
        k = k + 1;
    }
    None
}

/// The lines of a text, as `str::lines` yields them.
pub fn lines_of(v: &[char]) -> (r: Vec<Vec<char>>)
    ensures
        r@.map_values(|l: Vec<char>| l@) == spec_lines(v@),
{
    let mut out: Vec<Vec<char>> = Vec::new();
    let mut start: usize = 0;
    assert(v@.skip(0) =~= v@);
    assert(out@.map_values(|l: Vec<char>| l@) + spec_lines(v@) =~= spec_lines(v@));
    while start < v.len()
        invariant
            start <= v.len(),
            out@.map_values(|l: Vec<char>| l@) + spec_lines(v@.skip(start as int)) == spec_lines(
                v@,
            ),
        decreases v.len() - start,
    {
        let ghost rest = v@.skip(start as int);
        let ghost before = out@.map_values(|l: Vec<char>| l@);
        match find_from(v, start, '\n') {
            Some(k) => {
                let mut end = k;
                if end > start && v[end - 1] == '\r' {
                    end = end - 1;
                }
                let line = slice_chars(v, start, end);
                proof {
                    lemma_index_of(rest, '\n', k - start);
                    assert(strip_cr(rest.take(k - start)) =~= line@);
                    assert(rest.skip(k - start + 1) =~= v@.skip(k + 1));
                }
                out.push(line);
                start = k + 1;
                proof {
                    assert(out@.map_values(|l: Vec<char>| l@) =~= before.push(line@));
                    assert(before.push(line@) + spec_lines(v@.skip(start as int)) =~= before + (
                    seq![line@] + spec_lines(v@.skip(start as int))));
                }
            },
            None => {
                let line = slice_chars(v, start, v.len());
                proof {
                    lemma_index_of(rest, '\n', rest.len() as int);
                    assert(rest =~= line@);
                }
                out.push(line);
                start = v.len();
                proof {
                    assert(out@.map_values(|l: Vec<char>| l@) =~= before.push(line@));
                    assert(v@.skip(start as int) =~= Seq::<char>::empty());
                    assert(spec_lines(v@.skip(start as int)) =~= Seq::<Seq<char>>::empty());
                    assert(before.push(line@) =~= before + seq![line@]);
                }
            },
        }
    }
    proof {
        assert(v@.skip(start as int) =~= Seq::<char>::empty());
        assert(spec_lines(v@.skip(start as int)) =~= Seq::<Seq<char>>::empty());
        assert(out@.map_values(|l: Vec<char>| l@) + Seq::<Seq<char>>::empty() =~= out@.map_values(
            |l: Vec<char>| l@,
        ));
    }
    out
}

/// The whitespace-separated fields of `s`, as `str::split_whitespace` yields them.
pub open spec fn spec_fields(s: Seq<char>) -> Seq<Seq<char>>
    decreases s.len(),
{
    if s.len() == 0 {
        seq![]
    } else {
        let rest = spec_fields(s.drop_last());
        if spec_is_whitespace(s.last()) {
            rest
        } else if s.len() >= 2 && !spec_is_whitespace(s[s.len() - 2]) && rest.len() > 0 {
            rest.drop_last().push(rest.last().push(s.last()))
        } else {
            rest.push(seq![s.last()])
        }
    }
}

pub fn fields_of(v: &[char]) -> (r: Vec<Vec<char>>)
    ensures
        r@.map_values(|l: Vec<char>| l@) == spec_fields(v@),
{
    let mut out: Vec<Vec<char>> = Vec::new();
    let mut i: usize = 0;
    while i < v.len()
        invariant
            i <= v.len(),
            out@.map_values(|l: Vec<char>| l@) == spec_fields(v@.take(i as int)),
        decreases v.len() - i,
    {
        let c = v[i];
        let ghost prefix = v@.take(i + 1);
        proof {
            assert(prefix.drop_last() =~= v@.take(i as int));
        }
        if is_whitespace(c) {
        } else if i >= 1 && !is_whitespace(v[i - 1]) && out.len() > 0 {
            let n = out.len();
            let mut last = out.pop().unwrap();
            last.push(c);
            out.push(last);
            proof {
                assert(prefix[prefix.len() - 2] == v@[i - 1]);
            }
        } else {
            let mut piece: Vec<char> = Vec::new();
            piece.push(c);
            out.push(piece);
            proof {
                if i >= 1 {
                    assert(prefix[prefix.len() - 2] == v@[i - 1]);
                }
            }
        }
        i = i + 1;
        assert(out@.map_values(|l: Vec<char>| l@) =~= spec_fields(v@.take(i as int)));
    }
    assert(v@.take(v.len() as int) =~= v@);
    out
}

pub open spec fn is_digit(c: char) -> bool {
    '0' <= c <= '9'
}

/// Decimal value of a run of digits.
pub open spec fn digits_value(s: Seq<char>) -> nat
    decreases s.len(),
{
    if s.len() == 0 {
        0
    } else {
        digits_value(s.drop_last()) * 10 + ((s.last() as nat) - ('0' as nat)) as nat
    }
}

/// An unsigned decimal as Rust's integer parsing reads it: an optional `+`, then
/// one or more digits, the value at most `max`.
/// The digits of an unsigned decimal, past an optional leading `+`.
pub open spec fn unsigned_digits(s: Seq<char>) -> Seq<char> {
    if s.len() > 0 && s[0] == '+' {
        s.skip(1)
    } else {
        s
    }
}

pub open spec fn all_digits(s: Seq<char>) -> bool {
    forall|i: int| 0 <= i < s.len() ==> is_digit(#[trigger] s[i])
}

/// An unsigned decimal as Rust's integer parsing reads it: an optional `+`, then
/// one or more digits, the value at most `max`.
pub open spec fn spec_parse_unsigned(s: Seq<char>, max: nat) -> Option<nat> {
    let d = unsigned_digits(s);
    if d.len() > 0 && all_digits(d) && digits_value(d) <= max {
        Some(digits_value(d))
    } else {
        None
    }
}

pub proof fn lemma_digits_grow(s: Seq<char>, k: int)
    requires
        0 <= k <= s.len(),
        forall|i: int| 0 <= i < s.len() ==> is_digit(#[trigger] s[i]),
    ensures
        digits_value(s.take(k)) <= digits_value(s),
    decreases s.len() - k,
{
    if k < s.len() {
        lemma_digits_grow(s, k + 1);
        assert(s.take(k + 1).drop_last() =~= s.take(k));
    } else {
        assert(s.take(k) =~= s);
    }
}

/// Rust's parsing of an unsigned decimal no greater than `max`.
pub fn parse_unsigned(v: &[char], max: u64) -> (r: Option<u64>)
    ensures
        match spec_parse_unsigned(v@, max as nat) {
            Some(n) => r == Some(n as u64),
            None => r is None,
        },
{
    let start: usize = if v.len() > 0 && v[0] == '+' {
        1
    } else {
        0
    };
    let ghost d = v@.skip(start as int);
    assert(v@.skip(0) =~= v@);
    assert(d == unsigned_digits(v@));
    if start >= v.len() {
        return None;
    }
    let mut value: u128 = 0;
    let mut i: usize = start;
    while i < v.len()
        invariant
            start <= i <= v.len(),
            start < v.len(),
            d == v@.skip(start as int),
            d == unsigned_digits(v@),
            value <= max,
            forall|j: int| 0 <= j < i - start ==> is_digit(#[trigger] d[j]),
            value == digits_value(d.take(i - start)),
        decreases v.len() - i,
    {
        let c = v[i];
        if !('0' <= c && c <= '9') {
            assert(d[i - start] == c);
            assert(!is_digit(d[i - start]));
            assert(!all_digits(d));
            assert(spec_parse_unsigned(v@, max as nat) is None);
            return None;
        }
        let digit: u128 = ((c as u32) - ('0' as u32)) as u128;
        let next: u128 = value * 10 + digit;
        proof {
            assert(d.take(i - start + 1).drop_last() =~= d.take(i - start));
            assert(d.take(i - start + 1).last() == c);
        }
        if next > max as u128 {
            proof {
                assert(digits_value(d.take(i - start + 1)) == next);
                if all_digits(d) {
                    lemma_digits_grow(d, i - start + 1);
                    assert(digits_value(d) > max);
                }
                assert(spec_parse_unsigned(v@, max as nat) is None);
            }
            return None;
        }
        value = next;
        i = i + 1;
    }
    assert(d.take(i - start) =~= d);
    Some(value as u64)
}

} // verus!

verus! {

/// The decimal digits of `n`.
pub open spec fn decimal_chars(n: nat) -> Seq<char>
    decreases n,
{
    if n < 10 {
        seq![((48 + n) as u32) as char]
    } else {
        decimal_chars(n / 10) + seq![((48 + n % 10) as u32) as char]
    }
}

pub fn push_decimal_chars(out: &mut Vec<char>, n: u64)
    ensures
        final(out)@ == old(out)@ + decimal_chars(n as nat),
    decreases n,
{
    let ghost start = out@;
    if n >= 10 {
        push_decimal_chars(out, n / 10);
    }
    let d: u32 = (48 + n % 10) as u32;
    out.push(char_from_ascii(d));
    assert(out@ =~= start + decimal_chars(n as nat));
}

/// The items joined by `sep`.
pub open spec fn join(items: Seq<Seq<char>>, sep: Seq<char>) -> Seq<char>
    decreases items.len(),
{
    if items.len() == 0 {
        seq![]
    } else if items.len() == 1 {
        items[0]
    } else {
        join(items.drop_last(), sep) + sep + items.last()
    }
}

pub fn join_chars(items: &Vec<Vec<char>>, sep: &str) -> (r: Vec<char>)
    ensures
        r@ == join(items@.map_values(|l: Vec<char>| l@), sep@),
{
    let ghost views = items@.map_values(|l: Vec<char>| l@);
    let mut out: Vec<char> = Vec::new();
    let mut i: usize = 0;
    while i < items.len()
        invariant
            i <= items.len(),
            views == items@.map_values(|l: Vec<char>| l@),
            out@ == join(views.take(i as int), sep@),
        decreases items.len() - i,
    {
        if i > 0 {
            append_chars(&mut out, sep);
        }
        let item = &items[i];
        let mut k: usize = 0;
        let ghost before = out@;
        while k < item.len()
            invariant
                k <= item.len(),
                out@ == before + item@.take(k as int),
            decreases item.len() - k,
        {
            out.push(item[k]);
            k = k + 1;
            assert(out@ =~= before + item@.take(k as int));
        }
        proof {
            assert(item@.take(item.len() as int) =~= item@);
            assert(views.take(i + 1).drop_last() =~= views.take(i as int));
            assert(views[i as int] == item@);
            if i == 0 {
                assert(views.take(0) =~= Seq::<Seq<char>>::empty());
                assert(before =~= Seq::<char>::empty());
            }
        }
        i = i + 1;
        assert(out@ =~= join(views.take(i as int), sep@));
    }
    assert(views.take(items.len() as int) =~= views);
    out
}

} // verus!

verus! {

/// `s` without leading whitespace.
pub open spec fn trim_start(s: Seq<char>) -> Seq<char>
    decreases s.len(),
{
    if s.len() > 0 && spec_is_whitespace(s[0]) {
        trim_start(s.skip(1))
    } else {
        s
    }
}

/// `s` without trailing whitespace.
pub open spec fn trim_end(s: Seq<char>) -> Seq<char>
    decreases s.len(),
{
    if s.len() > 0 && spec_is_whitespace(s.last()) {
        trim_end(s.drop_last())
    } else {
        s
    }
}

/// `s` without leading and trailing whitespace, as `str::trim` gives it.
pub open spec fn spec_trim(s: Seq<char>) -> Seq<char> {
    trim_end(trim_start(s))
}

pub fn trim(v: &[char]) -> (r: Vec<char>)
    ensures
        r@ == spec_trim(v@),
{
    let mut i: usize = 0;
    assert(v@.skip(0) =~= v@);
    while i < v.len() && is_whitespace(v[i])
        invariant
            i <= v.len(),
            trim_start(v@) == trim_start(v@.skip(i as int)),
        decreases v.len() - i,
    {
        assert(v@.skip(i as int).skip(1) =~= v@.skip(i + 1));
        i = i + 1;
    }
    let mut j: usize = v.len();
    let ghost t = v@.skip(i as int);
    assert(trim_start(v@) == t);
    assert(v@.subrange(i as int, j as int) =~= t);
    while j > i && is_whitespace(v[j - 1])
        invariant
            i <= j <= v.len(),
            t == v@.skip(i as int),
            trim_end(t) == trim_end(v@.subrange(i as int, j as int)),
        decreases j,
    {
        assert(v@.subrange(i as int, j as int).drop_last() =~= v@.subrange(i as int, j - 1));
        j = j - 1;
    }
    slice_chars(v, i, j)
}

/// `v` without trailing whitespace, as `str::trim_end` gives it.
pub fn trim_end_chars(v: &[char]) -> (r: Vec<char>)
    ensures
        r@ == trim_end(v@),
{
    let mut j: usize = v.len();
    assert(v@.subrange(0, j as int) =~= v@);
    while j > 0 && is_whitespace(v[j - 1])
        invariant
            j <= v.len(),
            trim_end(v@) == trim_end(v@.subrange(0, j as int)),
        decreases j,
    {
        assert(v@.subrange(0, j as int).drop_last() =~= v@.subrange(0, j - 1));
        j = j - 1;
    }
    slice_chars(v, 0, j)
}

/// `s` with every `from` replaced by `to`.
pub open spec fn replace_char(s: Seq<char>, from: char, to: char) -> Seq<char> {
    s.map_values(|c: char| if c == from {
        to
    } else {
        c
    })
}

pub fn replace_chars(v: &[char], from: char, to: char) -> (r: Vec<char>)
    ensures
        r@ == replace_char(v@, from, to),
{
    let mut out: Vec<char> = Vec::new();
    let mut i: usize = 0;
    while i < v.len()
        invariant
            i <= v.len(),
            out@ == replace_char(v@.take(i as int), from, to),
        decreases v.len() - i,
    {
        out.push(
            if v[i] == from {
                to
            } else {
                v[i]
            },
        );
        i = i + 1;
        assert(out@ =~= replace_char(v@.take(i as int), from, to));
    }
    assert(v@.take(v.len() as int) =~= v@);
    out
}

pub fn ascii_lowercase_chars(v: &[char]) -> (r: Vec<char>)
    ensures
        r@ == spec_ascii_lowercase(v@),
{
    let mut out: Vec<char> = Vec::new();
    let mut i: usize = 0;
    while i < v.len()
        invariant
            i <= v.len(),
            out@ == spec_ascii_lowercase(v@.take(i as int)),
        decreases v.len() - i,
    {
        out.push(ascii_lower(v[i]));
        i = i + 1;
        assert(out@ =~= spec_ascii_lowercase(v@.take(i as int)));
    }
    assert(v@.take(v.len() as int) =~= v@);
    out
}

} // verus!

verus! {

/// The pieces of `s` between the separators, as `str::split` yields them.
pub open spec fn spec_split(s: Seq<char>, sep: char) -> Seq<Seq<char>>
    decreases s.len(),
{
    let i = index_of(s, sep);
    if i < 0 {
        seq![s]
    } else {
        proof {
            lemma_index_of_bound(s, sep);
        }
        seq![s.take(i)] + spec_split(s.skip(i + 1), sep)
    }
}

pub fn split_chars(v: &[char], sep: char) -> (r: Vec<Vec<char>>)
    ensures
        r@.map_values(|l: Vec<char>| l@) == spec_split(v@, sep),
{
    let mut out: Vec<Vec<char>> = Vec::new();
    let mut start: usize = 0;
    assert(v@.skip(0) =~= v@);
    assert(out@.map_values(|l: Vec<char>| l@) + spec_split(v@, sep) =~= spec_split(v@, sep));
    loop
        invariant
            start <= v.len(),
            out@.map_values(|l: Vec<char>| l@) + spec_split(v@.skip(start as int), sep)
                == spec_split(v@, sep),
        decreases v.len() - start,
    {
        let ghost rest = v@.skip(start as int);
        let ghost before = out@.map_values(|l: Vec<char>| l@);
        match find_from(v, start, sep) {
            Some(k) => {
                let piece = slice_chars(v, start, k);
                proof {
                    lemma_index_of(rest, sep, k - start);
                    assert(rest.take(k - start) =~= piece@);
                    assert(rest.skip(k - start + 1) =~= v@.skip(k + 1));
                }
                out.push(piece);
                start = k + 1;
                proof {
                    assert(out@.map_values(|l: Vec<char>| l@) =~= before.push(piece@));
                    assert(before.push(piece@) + spec_split(v@.skip(start as int), sep) =~= before + (
                    seq![piece@] + spec_split(v@.skip(start as int), sep)));
                }
            },
            None => {
                let piece = slice_chars(v, start, v.len());
                proof {
                    lemma_index_of(rest, sep, rest.len() as int);
                    assert(rest =~= piece@);
                }
                out.push(piece);
                proof {
                    assert(out@.map_values(|l: Vec<char>| l@) =~= before.push(piece@));
                    assert(before.push(piece@) =~= before + seq![piece@]);
                }
                return out;
            },
        }
    }
}

/// ASCII case-insensitive equality, as `str::eq_ignore_ascii_case` tests it.
pub open spec fn eq_ignore_ascii_case(a: Seq<char>, b: Seq<char>) -> bool {
    spec_ascii_lowercase(a) == spec_ascii_lowercase(b)
}

pub fn eq_ignore_case(a: &[char], b: &[char]) -> (r: bool)
    ensures
        r == eq_ignore_ascii_case(a@, b@),
{
    let x = ascii_lowercase_chars(a);
    let y = ascii_lowercase_chars(b);
    equal_chars(&x, &y)
}

} // verus!
