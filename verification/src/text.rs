//! Character-level text primitives.
//!
//! Every text algorithm of this crate works on sequences of Unicode scalar
//! values: a text is a `Seq<char>` in contracts and a `Vec<char>` in
//! executable code, and its length is its number of characters.
use vstd::prelude::*;

verus! {

/// Appending one character to a `String`, as `String::push` of the standard
/// library documents it: the new text is the old one followed by `c`.
pub assume_specification[ String::push ](s: &mut String, c: char)
    ensures
        final(s)@ == old(s)@.push(c),
;

/// The characters with the Unicode property `White_Space`.
pub open spec fn is_whitespace(c: char) -> bool {
    ||| ('\u{0009}' <= c && c <= '\u{000D}')
    ||| c == '\u{0020}'
    ||| c == '\u{0085}'
    ||| c == '\u{00A0}'
    ||| c == '\u{1680}'
    ||| ('\u{2000}' <= c && c <= '\u{200A}')
    ||| c == '\u{2028}'
    ||| c == '\u{2029}'
    ||| c == '\u{202F}'
    ||| c == '\u{205F}'
    ||| c == '\u{3000}'
}

/// Whether `c` is a whitespace character.
pub fn char_is_whitespace(c: char) -> (r: bool)
    ensures
        r == is_whitespace(c),
{
    ('\u{0009}' <= c && c <= '\u{000D}') || c == '\u{0020}' || c == '\u{0085}' || c == '\u{00A0}'
        || c == '\u{1680}' || ('\u{2000}' <= c && c <= '\u{200A}') || c == '\u{2028}' || c
        == '\u{2029}' || c == '\u{202F}' || c == '\u{205F}' || c == '\u{3000}'
}

/// The views of a sequence of character vectors.
pub open spec fn views(v: Seq<Vec<char>>) -> Seq<Seq<char>> {
    Seq::new(v.len(), |i: int| v[i]@)
}

/// The views of a sequence of strings.
pub open spec fn texts(v: Seq<String>) -> Seq<Seq<char>> {
    Seq::new(v.len(), |i: int| v[i]@)
}

/// The characters of a string slice, in order.
pub fn to_chars(s: &str) -> (v: Vec<char>)
    ensures
        v@ == s@,
{
    let mut v: Vec<char> = Vec::new();
    let chars = s.chars();
    for c in it: chars
        invariant
            v@ == it.seq().take(it.index() as int),
            it.seq() == s@,
    {
        v.push(c);
    }
    v
}

/// The string made of the characters `v[from..to]`.
pub fn to_string_range(v: &Vec<char>, from: usize, to: usize) -> (s: String)
    requires
        from <= to <= v.len(),
    ensures
        s@ == v@.subrange(from as int, to as int),
{
    let mut s = String::new();
    let mut i: usize = from;
    while i < to
        invariant
            from <= i <= to <= v.len(),
            s@ == v@.subrange(from as int, i as int),
        decreases to - i,
    {
        s.push(v[i]);
        assert(v@.subrange(from as int, i as int).push(v@[i as int]) =~= v@.subrange(
            from as int,
            i + 1,
        ));
        i += 1;
    }
    s
}

/// The string made of the characters of `v`.
pub fn to_string(v: &Vec<char>) -> (s: String)
    ensures
        s@ == v@,
{
    let s = to_string_range(v, 0, v.len());
    assert(v@.subrange(0, v.len() as int) =~= v@);
    s
}

/// The strings made of each element of `v`.
pub fn to_strings(v: &Vec<Vec<char>>) -> (out: Vec<String>)
    ensures
        texts(out@) == views(v@),
{
    let mut out: Vec<String> = Vec::new();
    let mut i: usize = 0;
    while i < v.len()
        invariant
            i <= v.len(),
            out.len() == i,
            forall|j: int| 0 <= j < i ==> out@[j]@ == v@[j]@,
        decreases v.len() - i,
    {
        out.push(to_string(&v[i]));
        i += 1;
    }
    assert(texts(out@) =~= views(v@));
    out
}

/// The character vectors of each string of `v`.
pub fn to_char_vecs(v: &Vec<String>) -> (out: Vec<Vec<char>>)
    ensures
        views(out@) == texts(v@),
{
    let mut out: Vec<Vec<char>> = Vec::new();
    let mut i: usize = 0;
    while i < v.len()
        invariant
            i <= v.len(),
            out.len() == i,
            forall|j: int| 0 <= j < i ==> out@[j]@ == v@[j]@,
        decreases v.len() - i,
    {
        out.push(to_chars(v[i].as_str()));
        i += 1;
    }
    assert(views(out@) =~= texts(v@));
    out
}

/// A copy of the characters `v[from..to]`.
pub fn copy_range(v: &Vec<char>, from: usize, to: usize) -> (out: Vec<char>)
    requires
        from <= to <= v.len(),
    ensures
        out@ == v@.subrange(from as int, to as int),
{
    let mut out: Vec<char> = Vec::new();
    let mut i: usize = from;
    while i < to
        invariant
            from <= i <= to <= v.len(),
            out@ == v@.subrange(from as int, i as int),
        decreases to - i,
    {
        out.push(v[i]);
        assert(v@.subrange(from as int, i as int).push(v@[i as int]) =~= v@.subrange(
            from as int,
            i + 1,
        ));
        i += 1;
    }
    out
}

/// A copy of `v`.
pub fn copy_chars(v: &Vec<char>) -> (out: Vec<char>)
    ensures
        out@ == v@,
{
    let out = copy_range(v, 0, v.len());
    assert(v@.subrange(0, v.len() as int) =~= v@);
    out
}

/// Appends the characters of `src` to `dst`.
pub fn append(dst: &mut Vec<char>, src: &Vec<char>)
    ensures
        final(dst)@ == old(dst)@ + src@,
{
    let mut i: usize = 0;
    while i < src.len()
        invariant
            i <= src.len(),
            dst@ == old(dst)@ + src@.take(i as int),
        decreases src.len() - i,
    {
        dst.push(src[i]);
        assert(src@.take(i as int).push(src@[i as int]) =~= src@.take(i + 1));
        assert(dst@ =~= old(dst)@ + src@.take(i + 1));
        i += 1;
    }
    assert(src@.take(src.len() as int) =~= src@);
}

/// Whether two texts hold the same characters.
pub fn chars_equal(a: &Vec<char>, b: &Vec<char>) -> (r: bool)
    ensures
        r == (a@ == b@),
{
    if a.len() != b.len() {
        return false;
    }
    let mut i: usize = 0;
    while i < a.len()
        invariant
            i <= a.len(),
            a.len() == b.len(),
            forall|j: int| 0 <= j < i ==> a@[j] == b@[j],
        decreases a.len() - i,
    {
        if a[i] != b[i] {
            return false;
        }
        i += 1;
    }
    assert(a@ =~= b@);
    true
}

/// Whether a text holds the characters of a string slice.
pub fn text_is(text: &Vec<char>, s: &str) -> (r: bool)
    ensures
        r == (text@ == s@),
{
    let other = to_chars(s);
    chars_equal(text, &other)
}

/// Whether two string slices hold the same characters.
pub fn str_equal(a: &str, b: &str) -> (r: bool)
    ensures
        r == (a@ == b@),
{
    let x = to_chars(a);
    let y = to_chars(b);
    chars_equal(&x, &y)
}

/// A class of characters that a search looks for.
#[derive(Clone, Copy, Debug)]
pub enum CharClass {
    /// The whitespace characters.
    Whitespace,
    /// Every character that is no whitespace.
    NonWhitespace,
    /// One given character.
    Exactly(char),
    /// Every character but one given character.
    Other(char),
}

impl CharClass {
    /// Whether `c` belongs to the class.
    pub open spec fn holds(self, c: char) -> bool {
        match self {
            CharClass::Whitespace => is_whitespace(c),
            CharClass::NonWhitespace => !is_whitespace(c),
            CharClass::Exactly(x) => c == x,
            CharClass::Other(x) => c != x,
        }
    }

    /// Whether `c` belongs to the class.
    pub fn test(&self, c: char) -> (r: bool)
        ensures
            r == self.holds(c),
    {
        match self {
            CharClass::Whitespace => char_is_whitespace(c),
            CharClass::NonWhitespace => !char_is_whitespace(c),
            CharClass::Exactly(x) => c == *x,
            CharClass::Other(x) => c != *x,
        }
    }
}

/// The index of the first character of `s` in `class`, or `s.len()` if there
/// is none.
pub open spec fn first_index(s: Seq<char>, class: CharClass) -> int
    decreases s.len(),
{
    if s.len() == 0 || class.holds(s[0]) {
        0
    } else {
        1 + first_index(s.skip(1), class)
    }
}

/// `first_index` is the least index whose character is in the class.
pub proof fn lemma_first_index(s: Seq<char>, class: CharClass)
    ensures
        0 <= first_index(s, class) <= s.len(),
        forall|j: int| 0 <= j < first_index(s, class) ==> !class.holds(#[trigger] s[j]),
        first_index(s, class) < s.len() ==> class.holds(s[first_index(s, class)]),
    decreases s.len(),
{
    if s.len() == 0 || class.holds(s[0]) {
    } else {
        let t = s.skip(1);
        lemma_first_index(t, class);
        assert forall|j: int| 0 <= j < first_index(s, class) implies !class.holds(
            #[trigger] s[j],
        ) by {
            if j > 0 {
                assert(s[j] == t[j - 1]);
            }
        }
        if first_index(t, class) < t.len() {
            assert(s[first_index(s, class)] == t[first_index(t, class)]);
        }
    }
}

/// An index before which no character is in the class, and whose own
/// character is, is `first_index`.
pub proof fn lemma_first_index_is(s: Seq<char>, class: CharClass, k: int)
    requires
        0 <= k <= s.len(),
        forall|j: int| 0 <= j < k ==> !class.holds(#[trigger] s[j]),
        k < s.len() ==> class.holds(s[k]),
    ensures
        first_index(s, class) == k,
{
    lemma_first_index(s, class);
    let f = first_index(s, class);
    if f < k {
        assert(!class.holds(s[f]));
    } else if f > k {
        assert(!class.holds(s[k]));
    }
}

/// The first index at or after `from` whose character is in `class`, or
/// `v.len()` if there is none.
pub fn find_from(v: &Vec<char>, from: usize, class: CharClass) -> (k: usize)
    requires
        from <= v.len(),
    ensures
        from <= k <= v.len(),
        k == from + first_index(v@.skip(from as int), class),
{
    let mut k: usize = from;
    while k < v.len() && !class.test(v[k])
        invariant
            from <= k <= v.len(),
            forall|j: int| from <= j < k ==> !class.holds(#[trigger] v@[j]),
        decreases v.len() - k,
    {
        k += 1;
    }
    proof {
        let t = v@.skip(from as int);
        assert forall|j: int| 0 <= j < k - from implies !class.holds(#[trigger] t[j]) by {
            assert(t[j] == v@[from + j]);
        }
        lemma_first_index_is(t, class, k - from);
    }
    k
}

/// The text without its leading whitespace.
pub open spec fn trim_start(s: Seq<char>) -> Seq<char> {
    s.skip(first_index(s, CharClass::NonWhitespace))
}

/// The length of the text without its trailing whitespace.
pub open spec fn trimmed_len(s: Seq<char>) -> int
    decreases s.len(),
{
    if s.len() > 0 && is_whitespace(s.last()) {
        trimmed_len(s.drop_last())
    } else {
        s.len() as int
    }
}

/// The text without its trailing whitespace.
pub open spec fn trim_end(s: Seq<char>) -> Seq<char> {
    s.take(trimmed_len(s))
}

/// The text without its leading and trailing whitespace.
pub open spec fn trim(s: Seq<char>) -> Seq<char> {
    trim_end(trim_start(s))
}

/// Whether the text holds whitespace only.
pub open spec fn is_blank(s: Seq<char>) -> bool {
    forall|i: int| 0 <= i < s.len() ==> is_whitespace(#[trigger] s[i])
}

/// `trimmed_len` is the end of the last character that is no whitespace.
pub proof fn lemma_trimmed_len(s: Seq<char>)
    ensures
        0 <= trimmed_len(s) <= s.len(),
        forall|j: int| trimmed_len(s) <= j < s.len() ==> is_whitespace(#[trigger] s[j]),
        trimmed_len(s) > 0 ==> !is_whitespace(s[trimmed_len(s) - 1]),
    decreases s.len(),
{
    if s.len() > 0 && is_whitespace(s.last()) {
        let t = s.drop_last();
        lemma_trimmed_len(t);
        assert forall|j: int| trimmed_len(s) <= j < s.len() implies is_whitespace(
            #[trigger] s[j],
        ) by {
            if j < t.len() {
                assert(s[j] == t[j]);
            }
        }
        if trimmed_len(s) > 0 {
            assert(s[trimmed_len(s) - 1] == t[trimmed_len(t) - 1]);
        }
    }
}

/// An index from which on every character is whitespace, and whose
/// predecessor is none, is `trimmed_len`.
pub proof fn lemma_trimmed_len_is(s: Seq<char>, k: int)
    requires
        0 <= k <= s.len(),
        forall|j: int| k <= j < s.len() ==> is_whitespace(#[trigger] s[j]),
        k > 0 ==> !is_whitespace(s[k - 1]),
    ensures
        trimmed_len(s) == k,
{
    lemma_trimmed_len(s);
    let f = trimmed_len(s);
    if f < k {
        assert(is_whitespace(s[k - 1]));
    } else if f > k {
        assert(is_whitespace(s[f - 1]));
    }
}

/// The trimmed text is the part of `s` between its first and its last
/// character that is no whitespace; it is empty exactly for a blank text.
pub proof fn lemma_trim(s: Seq<char>)
    ensures
        trim(s).len() == 0 <==> is_blank(s),
        trim(s).len() > 0 ==> !is_whitespace(trim(s).first()) && !is_whitespace(trim(s).last()),
        trim(s) == s.subrange(
            first_index(s, CharClass::NonWhitespace),
            first_index(s, CharClass::NonWhitespace) + trim(s).len(),
        ),
        first_index(s, CharClass::NonWhitespace) + trim(s).len() <= s.len(),
        forall|j: int|
            first_index(s, CharClass::NonWhitespace) + trim(s).len() <= j < s.len()
                ==> is_whitespace(#[trigger] s[j]),
        forall|j: int|
            0 <= j < first_index(s, CharClass::NonWhitespace) ==> is_whitespace(#[trigger] s[j]),
{
    lemma_first_index(s, CharClass::NonWhitespace);
    let a = first_index(s, CharClass::NonWhitespace);
    let t = s.skip(a);
    lemma_trimmed_len(t);
    let n = trimmed_len(t);
    assert(trim(s) =~= s.subrange(a, a + n));
    assert forall|j: int| a + n <= j < s.len() implies is_whitespace(#[trigger] s[j]) by {
        assert(s[j] == t[j - a]);
    }
    if a < s.len() {
        assert(t[0] == s[a]);
        if n == 0 {
            assert(is_whitespace(t[0]));
        }
        assert(!is_blank(s));
        assert(t[n - 1] == s[a + n - 1]);
    } else {
        assert(is_blank(s)) by {
            assert forall|i: int| 0 <= i < s.len() implies is_whitespace(#[trigger] s[i]) by {
                assert(!CharClass::NonWhitespace.holds(s[i]));
            }
        }
    }
}

/// The trimmed text lies between two indices found by scanning from both
/// ends.
pub proof fn lemma_trim_is(s: Seq<char>, a: int, b: int)
    requires
        0 <= a <= b <= s.len(),
        a == first_index(s, CharClass::NonWhitespace),
        forall|j: int| b <= j < s.len() ==> is_whitespace(#[trigger] s[j]),
        b > a ==> !is_whitespace(s[b - 1]),
    ensures
        trim(s) == s.subrange(a, b),
{
    let t = s.skip(a);
    assert forall|j: int| b - a <= j < t.len() implies is_whitespace(#[trigger] t[j]) by {
        assert(t[j] == s[a + j]);
    }
    if b > a {
        assert(t[b - a - 1] == s[b - 1]);
    }
    lemma_trimmed_len_is(t, b - a);
    assert(trim(s) =~= s.subrange(a, b));
}

/// The text without its leading and trailing whitespace.
pub fn trimmed(v: &Vec<char>) -> (out: Vec<char>)
    ensures
        out@ == trim(v@),
{
    let a = find_from(v, 0, CharClass::NonWhitespace);
    let mut b: usize = v.len();
    while b > a && char_is_whitespace(v[b - 1])
        invariant
            a <= b <= v.len(),
            forall|j: int| b <= j < v.len() ==> is_whitespace(#[trigger] v@[j]),
        decreases b,
    {
        b -= 1;
    }
    proof {
        assert(v@.skip(0) =~= v@);
        lemma_trim_is(v@, a as int, b as int);
    }
    copy_range(v, a, b)
}

/// Whether the text holds whitespace only.
pub fn blank(v: &Vec<char>) -> (r: bool)
    ensures
        r == is_blank(v@),
        r == (trim(v@).len() == 0),
{
    let a = find_from(v, 0, CharClass::NonWhitespace);
    proof {
        assert(v@.skip(0) =~= v@);
        lemma_trim(v@);
        lemma_first_index(v@, CharClass::NonWhitespace);
        if a < v.len() {
            assert(!is_whitespace(v@[a as int]));
        } else {
            assert forall|i: int| 0 <= i < v@.len() implies is_whitespace(#[trigger] v@[i]) by {
                assert(!CharClass::NonWhitespace.holds(v@[i]));
            }
        }
    }
    a == v.len()
}

/// Pushing onto a vector of texts pushes onto its views.
pub proof fn lemma_views_push(v: Seq<Vec<char>>, x: Vec<char>)
    ensures
        views(v.push(x)) == views(v).push(x@),
{
    assert(views(v.push(x)) =~= views(v).push(x@));
}

/// The line without a carriage return at its end.
pub open spec fn strip_carriage_return(s: Seq<char>) -> Seq<char> {
    if s.len() > 0 && s.last() == '\r' {
        s.drop_last()
    } else {
        s
    }
}

/// The lines of a text. A line ends at a line feed, or at the end of the
/// text; the line feed, and a carriage return just before it, belong to no
/// line. A text that ends in a line feed has no empty last line.
pub open spec fn lines(s: Seq<char>) -> Seq<Seq<char>>
    decreases s.len(),
{
    let k = first_index(s, CharClass::Exactly('\n'));
    if s.len() == 0 {
        Seq::empty()
    } else if 0 <= k < s.len() {
        seq![strip_carriage_return(s.take(k))] + lines(s.skip(k + 1))
    } else {
        seq![s]
    }
}

/// The lines of a text.
pub fn split_lines(v: &Vec<char>) -> (out: Vec<Vec<char>>)
    ensures
        views(out@) == lines(v@),
{
    let mut out: Vec<Vec<char>> = Vec::new();
    let mut pos: usize = 0;
    proof {
        assert(v@.skip(0) =~= v@);
        assert(views(out@) =~= Seq::<Seq<char>>::empty());
    }
    while pos < v.len()
        invariant
            pos <= v.len(),
            lines(v@) == views(out@) + lines(v@.skip(pos as int)),
        decreases v.len() - pos,
    {
        let ghost rest = v@.skip(pos as int);
        let ghost before = views(out@);
        let k = find_from(v, pos, CharClass::Exactly('\n'));
        if k < v.len() {
            let end: usize = if k > pos && v[k - 1] == '\r' {
                (k - 1) as usize
            } else {
                k
            };
            let line = copy_range(v, pos, end);
            proof {
                assert(rest.take(k - pos) =~= v@.subrange(pos as int, k as int));
                if k > pos {
                    assert(rest.take(k - pos).last() == v@[k - 1]);
                }
                assert(line@ =~= strip_carriage_return(rest.take(k - pos)));
                assert(rest.skip(k - pos + 1) =~= v@.skip(k + 1));
                lemma_views_push(out@, line);
                assert(before + (seq![line@] + lines(v@.skip(k + 1))) =~= before.push(line@)
                    + lines(v@.skip(k + 1)));
            }
            out.push(line);
            pos = k + 1;
        } else {
            let line = copy_range(v, pos, v.len());
            proof {
                assert(line@ =~= rest);
                lemma_views_push(out@, line);
                assert(v@.skip(v.len() as int) =~= Seq::<char>::empty());
                assert(before + seq![rest] =~= before.push(rest) + lines(
                    v@.skip(v.len() as int),
                ));
            }
            out.push(line);
            pos = v.len();
        }
    }
    proof {
        assert(v@.skip(pos as int) =~= Seq::<char>::empty());
        assert(views(out@) + Seq::<Seq<char>>::empty() =~= views(out@));
    }
    out
}

/// The index of the first blank-line break of `s`, two line feeds in a row,
/// or `s.len()` if there is none.
pub open spec fn first_break(s: Seq<char>) -> int
    decreases s.len(),
{
    if s.len() < 2 {
        s.len() as int
    } else if s[0] == '\n' && s[1] == '\n' {
        0
    } else {
        1 + first_break(s.skip(1))
    }
}

/// `first_break` is the least index at which two line feeds stand.
pub proof fn lemma_first_break(s: Seq<char>)
    ensures
        0 <= first_break(s) <= s.len(),
        first_break(s) < s.len() ==> first_break(s) + 2 <= s.len() && s[first_break(s)] == '\n'
            && s[first_break(s) + 1] == '\n',
        forall|j: int|
            0 <= j < first_break(s) && j + 1 < s.len() ==> !(#[trigger] s[j] == '\n' && s[j + 1]
                == '\n'),
    decreases s.len(),
{
    if s.len() < 2 {
    } else if s[0] == '\n' && s[1] == '\n' {
    } else {
        let t = s.skip(1);
        lemma_first_break(t);
        assert forall|j: int| 0 <= j < first_break(s) && j + 1 < s.len() implies !(
        #[trigger] s[j] == '\n' && s[j + 1] == '\n') by {
            if j > 0 {
                assert(s[j] == t[j - 1]);
                assert(s[j + 1] == t[j]);
            }
        }
        if first_break(t) < t.len() {
            assert(s[first_break(s)] == t[first_break(t)]);
            assert(s[first_break(s) + 1] == t[first_break(t) + 1]);
        }
    }
}

/// An index at which two line feeds stand, and before which no two do, is
/// `first_break`; so is the length of a text without a break.
pub proof fn lemma_first_break_is(s: Seq<char>, k: int)
    requires
        0 <= k <= s.len(),
        forall|j: int|
            0 <= j < k && j + 1 < s.len() ==> !(#[trigger] s[j] == '\n' && s[j + 1] == '\n'),
        k < s.len() ==> k + 1 < s.len() && s[k] == '\n' && s[k + 1] == '\n',
    ensures
        first_break(s) == k,
{
    lemma_first_break(s);
    let f = first_break(s);
    if f < k {
        assert(!(s[f] == '\n' && s[f + 1] == '\n'));
    } else if f > k {
        assert(!(s[k] == '\n' && s[k + 1] == '\n'));
    }
}

/// The pieces of a text between its blank-line breaks, found from left to
/// right. A text without a break is its own single piece.
pub open spec fn split_breaks(s: Seq<char>) -> Seq<Seq<char>>
    decreases s.len(),
{
    let k = first_break(s);
    if 0 <= k && k + 2 <= s.len() {
        seq![s.take(k)] + split_breaks(s.skip(k + 2))
    } else {
        seq![s]
    }
}

/// The first index at or after `from` at which two line feeds stand, or
/// `v.len()` if there is none.
pub fn find_break(v: &Vec<char>, from: usize) -> (k: usize)
    requires
        from <= v.len(),
    ensures
        from <= k <= v.len(),
        k == from + first_break(v@.skip(from as int)),
{
    let mut k: usize = from;
    while k < v.len() && !(v[k] == '\n' && k + 1 < v.len() && v[k + 1] == '\n')
        invariant
            from <= k <= v.len(),
            forall|j: int|
                from <= j < k && j + 1 < v.len() ==> !(#[trigger] v@[j] == '\n' && v@[j + 1]
                    == '\n'),
        decreases v.len() - k,
    {
        k += 1;
    }
    proof {
        let t = v@.skip(from as int);
        assert forall|j: int| 0 <= j < k - from && j + 1 < t.len() implies !(#[trigger] t[j]
            == '\n' && t[j + 1] == '\n') by {
            assert(t[j] == v@[from + j]);
            assert(t[j + 1] == v@[from + j + 1]);
        }
        if k < v.len() {
            assert(t[k - from] == v@[k as int]);
            assert(t[k - from + 1] == v@[k + 1]);
        }
        lemma_first_break_is(t, k - from);
    }
    k
}

/// The pieces of a text between its blank-line breaks.
pub fn split_on_breaks(v: &Vec<char>) -> (out: Vec<Vec<char>>)
    ensures
        views(out@) == split_breaks(v@),
{
    let mut out: Vec<Vec<char>> = Vec::new();
    let mut pos: usize = 0;
    proof {
        assert(v@.skip(0) =~= v@);
        assert(views(out@) =~= Seq::<Seq<char>>::empty());
    }
    loop
        invariant_except_break
            pos <= v.len(),
            split_breaks(v@) == views(out@) + split_breaks(v@.skip(pos as int)),
        ensures
            views(out@) == split_breaks(v@),
        decreases v.len() - pos,
    {
        let ghost rest = v@.skip(pos as int);
        let ghost before = views(out@);
        let k = find_break(v, pos);
        if k < v.len() {
            let piece = copy_range(v, pos, k);
            proof {
                lemma_first_break(rest);
                assert(piece@ =~= rest.take(k - pos));
                assert(rest.skip(k - pos + 2) =~= v@.skip(k + 2));
                lemma_views_push(out@, piece);
                assert(before + (seq![piece@] + split_breaks(v@.skip(k + 2))) =~= before.push(
                    piece@,
                ) + split_breaks(v@.skip(k + 2)));
            }
            out.push(piece);
            pos = k + 2;
        } else {
            let piece = copy_range(v, pos, v.len());
            proof {
                assert(piece@ =~= rest);
                lemma_views_push(out@, piece);
                assert(before + seq![rest] =~= before.push(rest));
            }
            out.push(piece);
            break;
        }
    }
    out
}

/// The trimmed pieces, in order, without those that trimming leaves empty.
pub open spec fn trimmed_nonempty(pieces: Seq<Seq<char>>) -> Seq<Seq<char>>
    decreases pieces.len(),
{
    if pieces.len() == 0 {
        Seq::empty()
    } else {
        let before = trimmed_nonempty(pieces.drop_last());
        let t = trim(pieces.last());
        if t.len() > 0 {
            before.push(t)
        } else {
            before
        }
    }
}

/// The trimmed pieces, in order, without those that trimming leaves empty.
pub fn trim_pieces(pieces: &Vec<Vec<char>>) -> (out: Vec<Vec<char>>)
    ensures
        views(out@) == trimmed_nonempty(views(pieces@)),
{
    let mut out: Vec<Vec<char>> = Vec::new();
    let mut i: usize = 0;
    proof {
        assert(views(out@) =~= Seq::<Seq<char>>::empty());
        assert(views(pieces@).take(0) =~= Seq::<Seq<char>>::empty());
    }
    while i < pieces.len()
        invariant
            i <= pieces.len(),
            views(out@) == trimmed_nonempty(views(pieces@).take(i as int)),
        decreases pieces.len() - i,
    {
        let t = trimmed(&pieces[i]);
        proof {
            let upto = views(pieces@).take(i + 1);
            assert(upto.drop_last() =~= views(pieces@).take(i as int));
            assert(upto.last() == pieces@[i as int]@);
            lemma_views_push(out@, t);
        }
        if t.len() > 0 {
            out.push(t);
        }
        i += 1;
    }
    proof {
        assert(views(pieces@).take(pieces.len() as int) =~= views(pieces@));
    }
    out
}

/// The characters of a text that are no whitespace, in order.
pub open spec fn content(s: Seq<char>) -> Seq<char>
    decreases s.len(),
{
    if s.len() == 0 {
        Seq::empty()
    } else if is_whitespace(s.last()) {
        content(s.drop_last())
    } else {
        content(s.drop_last()).push(s.last())
    }
}

/// The texts of a sequence, one after the other.
pub open spec fn concat(pieces: Seq<Seq<char>>) -> Seq<char>
    decreases pieces.len(),
{
    if pieces.len() == 0 {
        Seq::empty()
    } else {
        concat(pieces.drop_last()) + pieces.last()
    }
}

/// The content of two texts in a row is the content of the first followed
/// by that of the second.
pub proof fn lemma_content_add(a: Seq<char>, b: Seq<char>)
    ensures
        content(a + b) == content(a) + content(b),
    decreases b.len(),
{
    if b.len() == 0 {
        assert(a + b =~= a);
        assert(content(a) + content(b) =~= content(a));
    } else {
        assert((a + b).drop_last() =~= a + b.drop_last());
        assert((a + b).last() == b.last());
        lemma_content_add(a, b.drop_last());
        if !is_whitespace(b.last()) {
            assert((content(a) + content(b.drop_last())).push(b.last()) =~= content(a) + content(
                b.drop_last(),
            ).push(b.last()));
        }
    }
}

/// A blank text has no content.
pub proof fn lemma_content_blank(s: Seq<char>)
    requires
        is_blank(s),
    ensures
        content(s) == Seq::<char>::empty(),
    decreases s.len(),
{
    if s.len() > 0 {
        assert(is_whitespace(s[s.len() - 1]));
        assert forall|i: int| 0 <= i < s.drop_last().len() implies is_whitespace(
            #[trigger] s.drop_last()[i],
        ) by {
            assert(s.drop_last()[i] == s[i]);
        }
        lemma_content_blank(s.drop_last());
    }
}

/// A text with content is not blank.
pub proof fn lemma_content_nonempty(s: Seq<char>)
    ensures
        content(s).len() > 0 <==> !is_blank(s),
    decreases s.len(),
{
    if is_blank(s) {
        lemma_content_blank(s);
    } else if s.len() > 0 {
        if is_whitespace(s.last()) {
            lemma_content_nonempty(s.drop_last());
            if is_blank(s.drop_last()) {
                assert forall|i: int| 0 <= i < s.len() implies is_whitespace(#[trigger] s[i]) by {
                    if i < s.len() - 1 {
                        assert(s.drop_last()[i] == s[i]);
                    }
                }
            }
        }
    }
}

/// Trimming keeps the content.
pub proof fn lemma_content_trim(s: Seq<char>)
    ensures
        content(trim(s)) == content(s),
{
    lemma_trim(s);
    lemma_first_index(s, CharClass::NonWhitespace);
    let a = first_index(s, CharClass::NonWhitespace);
    let n = trim(s).len() as int;
    let pre = s.take(a);
    let post = s.skip(a + n);
    assert(s =~= pre + trim(s) + post);
    assert(is_blank(pre)) by {
        assert forall|i: int| 0 <= i < pre.len() implies is_whitespace(#[trigger] pre[i]) by {
            assert(pre[i] == s[i]);
        }
    }
    assert(is_blank(post)) by {
        assert forall|i: int| 0 <= i < post.len() implies is_whitespace(#[trigger] post[i]) by {
            assert(post[i] == s[a + n + i]);
        }
    }
    lemma_content_blank(pre);
    lemma_content_blank(post);
    lemma_content_add(pre + trim(s), post);
    lemma_content_add(pre, trim(s));
    assert(Seq::<char>::empty() + content(trim(s)) + Seq::<char>::empty() =~= content(trim(s)));
}

/// The texts of two sequences in a row are those of the first followed by
/// those of the second.
pub proof fn lemma_concat_add(a: Seq<Seq<char>>, b: Seq<Seq<char>>)
    ensures
        concat(a + b) == concat(a) + concat(b),
    decreases b.len(),
{
    if b.len() == 0 {
        assert(a + b =~= a);
        assert(concat(a) + concat(b) =~= concat(a));
    } else {
        assert((a + b).drop_last() =~= a + b.drop_last());
        assert((a + b).last() == b.last());
        lemma_concat_add(a, b.drop_last());
        assert((concat(a) + concat(b.drop_last())) + b.last() =~= concat(a) + (concat(
            b.drop_last(),
        ) + b.last()));
    }
}

/// The texts of a sequence with one more text at its end.
pub proof fn lemma_concat_push(a: Seq<Seq<char>>, x: Seq<char>)
    ensures
        concat(a.push(x)) == concat(a) + x,
{
    assert(a.push(x).drop_last() =~= a);
}

/// The text of a one-element sequence is that element.
pub proof fn lemma_concat_one(x: Seq<char>)
    ensures
        concat(seq![x]) == x,
{
    assert(seq![x].drop_last() =~= Seq::<Seq<char>>::empty());
    assert(concat(seq![x].drop_last()) =~= Seq::<char>::empty());
    assert(Seq::<char>::empty() + x =~= x);
}

/// No line holds a line feed.
pub proof fn lemma_lines_hold_no_line_feed(s: Seq<char>)
    ensures
        forall|i: int| 0 <= i < lines(s).len() ==> !(#[trigger] lines(s)[i]).contains('\n'),
    decreases s.len(),
{
    let k = first_index(s, CharClass::Exactly('\n'));
    lemma_first_index(s, CharClass::Exactly('\n'));
    if s.len() == 0 {
    } else if 0 <= k < s.len() {
        let head = strip_carriage_return(s.take(k));
        let rest = lines(s.skip(k + 1));
        lemma_lines_hold_no_line_feed(s.skip(k + 1));
        assert(!head.contains('\n')) by {
            if head.contains('\n') {
                let j = choose|j: int| 0 <= j < head.len() && head[j] == '\n';
                assert(head[j] == s[j]);
                assert(CharClass::Exactly('\n').holds(s[j]));
            }
        }
        assert forall|i: int| 0 <= i < lines(s).len() implies !(#[trigger] lines(s)[i]).contains(
            '\n',
        ) by {
            if i > 0 {
                assert(lines(s)[i] == rest[i - 1]);
            }
        }
    } else {
        assert(!s.contains('\n')) by {
            if s.contains('\n') {
                let j = choose|j: int| 0 <= j < s.len() && s[j] == '\n';
                assert(CharClass::Exactly('\n').holds(s[j]));
            }
        }
    }
}

/// The lines of a text hold its content.
pub proof fn lemma_content_lines(s: Seq<char>)
    ensures
        content(concat(lines(s))) == content(s),
    decreases s.len(),
{
    let k = first_index(s, CharClass::Exactly('\n'));
    lemma_first_index(s, CharClass::Exactly('\n'));
    if s.len() == 0 {
    } else if 0 <= k < s.len() {
        let raw = s.take(k);
        let head = strip_carriage_return(raw);
        let rest = s.skip(k + 1);
        lemma_content_lines(rest);
        lemma_concat_one(head);
        lemma_concat_add(seq![head], lines(rest));
        lemma_content_add(head, concat(lines(rest)));
        // The line feed, and the carriage return before it, are whitespace.
        assert(content(head) == content(raw)) by {
            if raw.len() > 0 && raw.last() == '\r' {
                assert(is_whitespace('\r'));
            }
        }
        let feed = seq!['\n'];
        assert(s =~= raw + feed + rest);
        assert(is_blank(feed));
        lemma_content_blank(feed);
        lemma_content_add(raw + feed, rest);
        lemma_content_add(raw, feed);
        assert(content(raw) + Seq::<char>::empty() =~= content(raw));
    } else {
        lemma_concat_one(s);
    }
}

/// The pieces between the blank-line breaks of a text hold its content.
pub proof fn lemma_content_split_breaks(s: Seq<char>)
    ensures
        content(concat(split_breaks(s))) == content(s),
    decreases s.len(),
{
    let k = first_break(s);
    lemma_first_break(s);
    if 0 <= k && k + 2 <= s.len() {
        let head = s.take(k);
        let rest = s.skip(k + 2);
        lemma_content_split_breaks(rest);
        lemma_concat_one(head);
        lemma_concat_add(seq![head], split_breaks(rest));
        lemma_content_add(head, concat(split_breaks(rest)));
        let feeds = seq!['\n', '\n'];
        assert(s =~= head + feeds + rest);
        assert(is_blank(feeds));
        lemma_content_blank(feeds);
        lemma_content_add(head + feeds, rest);
        lemma_content_add(head, feeds);
        assert(content(head) + Seq::<char>::empty() =~= content(head));
    } else {
        lemma_concat_one(s);
    }
}

/// The trimmed pieces hold the content of the pieces, and none of them is
/// empty or begins or ends with whitespace.
pub proof fn lemma_trimmed_nonempty(pieces: Seq<Seq<char>>)
    ensures
        content(concat(trimmed_nonempty(pieces))) == content(concat(pieces)),
        forall|i: int|
            0 <= i < trimmed_nonempty(pieces).len() ==> {
                let t = #[trigger] trimmed_nonempty(pieces)[i];
                t.len() > 0 && !is_whitespace(t.first()) && !is_whitespace(t.last())
            },
    decreases pieces.len(),
{
    if pieces.len() > 0 {
        let before = pieces.drop_last();
        let last = pieces.last();
        lemma_trimmed_nonempty(before);
        lemma_content_trim(last);
        lemma_trim(last);
        lemma_content_add(concat(before), last);
        if trim(last).len() > 0 {
            lemma_concat_push(trimmed_nonempty(before), trim(last));
            lemma_content_add(concat(trimmed_nonempty(before)), trim(last));
        } else {
            assert(content(trim(last)) =~= Seq::<char>::empty());
            assert(content(concat(before)) + Seq::<char>::empty() =~= content(concat(before)));
        }
    }
}

/// The character of a decimal digit.
pub open spec fn digit(d: nat) -> char {
    if d == 0 {
        '0'
    } else if d == 1 {
        '1'
    } else if d == 2 {
        '2'
    } else if d == 3 {
        '3'
    } else if d == 4 {
        '4'
    } else if d == 5 {
        '5'
    } else if d == 6 {
        '6'
    } else if d == 7 {
        '7'
    } else if d == 8 {
        '8'
    } else {
        '9'
    }
}

/// The decimal numeral of a number, without leading zeros.
pub open spec fn decimal(n: nat) -> Seq<char>
    decreases n,
{
    if n < 10 {
        seq![digit(n)]
    } else {
        decimal(n / 10).push(digit(n % 10))
    }
}

/// The character of a decimal digit.
pub fn digit_char(d: u64) -> (c: char)
    requires
        d < 10,
    ensures
        c == digit(d as nat),
{
    if d == 0 {
        '0'
    } else if d == 1 {
        '1'
    } else if d == 2 {
        '2'
    } else if d == 3 {
        '3'
    } else if d == 4 {
        '4'
    } else if d == 5 {
        '5'
    } else if d == 6 {
        '6'
    } else if d == 7 {
        '7'
    } else if d == 8 {
        '8'
    } else {
        '9'
    }
}

/// Appends the decimal numeral of `n` to `out`.
pub fn push_decimal(out: &mut Vec<char>, n: u64)
    ensures
        final(out)@ == old(out)@ + decimal(n as nat),
    decreases n,
{
    if n < 10 {
        out.push(digit_char(n));
        assert(out@ =~= old(out)@ + decimal(n as nat));
    } else {
        push_decimal(out, n / 10);
        out.push(digit_char(n % 10));
        assert(out@ =~= old(out)@ + decimal(n as nat));
    }
}

/// Appends the characters of a string slice to `out`.
pub fn push_str(out: &mut Vec<char>, s: &str)
    ensures
        final(out)@ == old(out)@ + s@,
{
    let chars = to_chars(s);
    append(out, &chars);
}

/// The words of a text: its longest runs of characters that are no
/// whitespace, in order.
pub open spec fn words(s: Seq<char>) -> Seq<Seq<char>>
    decreases s.len(),
{
    let a = first_index(s, CharClass::NonWhitespace);
    let b = first_index(s.skip(a), CharClass::Whitespace);
    if 0 <= a < s.len() && 0 < b <= s.len() - a {
        seq![s.subrange(a, a + b)] + words(s.skip(a + b))
    } else {
        Seq::empty()
    }
}

/// The words of a text.
pub fn split_words(v: &Vec<char>) -> (out: Vec<Vec<char>>)
    ensures
        views(out@) == words(v@),
{
    let mut out: Vec<Vec<char>> = Vec::new();
    let mut pos: usize = 0;
    proof {
        assert(v@.skip(0) =~= v@);
        assert(views(out@) =~= Seq::<Seq<char>>::empty());
    }
    loop
        invariant_except_break
            pos <= v.len(),
            words(v@) == views(out@) + words(v@.skip(pos as int)),
        ensures
            views(out@) == words(v@),
        decreases v.len() - pos,
    {
        let ghost rest = v@.skip(pos as int);
        let ghost before = views(out@);
        let a = find_from(v, pos, CharClass::NonWhitespace);
        if a >= v.len() {
            proof {
                assert(before + Seq::<Seq<char>>::empty() =~= before);
            }
            break;
        }
        let b = find_from(v, a, CharClass::Whitespace);
        proof {
            assert(rest.skip(a - pos) =~= v@.skip(a as int));
            lemma_first_index(v@.skip(a as int), CharClass::Whitespace);
            lemma_first_index(rest, CharClass::NonWhitespace);
            assert(rest[a - pos] == v@[a as int]);
            assert(v@.skip(a as int)[0] == v@[a as int]);
            assert(b > a);
        }
        let word = copy_range(v, a, b);
        proof {
            assert(word@ =~= rest.subrange(a - pos, b - pos));
            assert(rest.skip(b - pos) =~= v@.skip(b as int));
            lemma_views_push(out@, word);
            assert(before + (seq![word@] + words(v@.skip(b as int))) =~= before.push(word@) + words(
                v@.skip(b as int),
            ));
        }
        out.push(word);
        pos = b;
    }
    out
}

/// The texts of a sequence, one after the other, with `sep` between each
/// two.
pub open spec fn join_with(pieces: Seq<Seq<char>>, sep: Seq<char>) -> Seq<char>
    decreases pieces.len(),
{
    if pieces.len() == 0 {
        Seq::empty()
    } else if pieces.len() == 1 {
        pieces[0]
    } else {
        join_with(pieces.drop_last(), sep) + sep + pieces.last()
    }
}

/// The texts `pieces[from..to]`, one after the other, with `sep` between
/// each two.
pub fn join_range(pieces: &Vec<Vec<char>>, from: usize, to: usize, sep: &Vec<char>) -> (out: Vec<
    char,
>)
    requires
        from <= to <= pieces.len(),
    ensures
        out@ == join_with(views(pieces@).subrange(from as int, to as int), sep@),
{
    let mut out: Vec<char> = Vec::new();
    let mut i: usize = from;
    proof {
        assert(views(pieces@).subrange(from as int, from as int) =~= Seq::<Seq<char>>::empty());
    }
    while i < to
        invariant
            from <= i <= to <= pieces.len(),
            out@ == join_with(views(pieces@).subrange(from as int, i as int), sep@),
        decreases to - i,
    {
        let ghost o0 = out@;
        proof {
            let upto = views(pieces@).subrange(from as int, i + 1);
            assert(upto.drop_last() =~= views(pieces@).subrange(from as int, i as int));
            assert(upto.last() == pieces@[i as int]@);
            if i == from {
                assert(upto[0] == pieces@[i as int]@);
            }
        }
        if i > from {
            append(&mut out, sep);
        }
        append(&mut out, &pieces[i]);
        proof {
            if i == from {
                assert(out@ =~= pieces@[i as int]@);
            } else {
                assert(out@ =~= o0 + sep@ + pieces@[i as int]@);
            }
        }
        i += 1;
    }
    out
}

/// The text in lower case, as `str::to_lowercase` of the standard library
/// makes it.
pub uninterp spec fn lowercase(s: Seq<char>) -> Seq<char>;

/// `str::to_lowercase` of the standard library: the text with each
/// character replaced by its lower-case form after the Unicode rules. Its
/// result is named `lowercase`.
pub assume_specification[ str::to_lowercase ](s: &str) -> (r: String)
    ensures
        r@ == lowercase(s@),
;

/// The lower-case form of an ASCII capital letter; every other character
/// itself.
pub open spec fn ascii_lower(c: char) -> char {
    if 'A' <= c && c <= 'Z' {
        ((c as u32) + 32) as char
    } else {
        c
    }
}

/// Whether two texts are equal but for the case of their ASCII letters.
pub open spec fn equal_ignoring_ascii_case(a: Seq<char>, b: Seq<char>) -> bool {
    a.len() == b.len() && forall|i: int| 0 <= i < a.len() ==> ascii_lower(a[i]) == ascii_lower(b[i])
}

/// The code of the lower-case form of an ASCII capital letter; the code of
/// every other character itself.
fn ascii_lower_code(c: char) -> (u: u32)
    ensures
        u == ascii_lower(c) as u32,
{
    if 'A' <= c && c <= 'Z' {
        c as u32 + 32
    } else {
        c as u32
    }
}

/// Whether two texts are equal but for the case of their ASCII letters.
pub fn eq_ignore_ascii_case(a: &Vec<char>, b: &Vec<char>) -> (r: bool)
    ensures
        r == equal_ignoring_ascii_case(a@, b@),
{
    if a.len() != b.len() {
        return false;
    }
    let mut i: usize = 0;
    while i < a.len()
        invariant
            i <= a.len(),
            a.len() == b.len(),
            forall|j: int| 0 <= j < i ==> ascii_lower(a@[j]) == ascii_lower(b@[j]),
        decreases a.len() - i,
    {
        if ascii_lower_code(a[i]) != ascii_lower_code(b[i]) {
            return false;
        }
        i += 1;
    }
    true
}

/// The pieces of a text between the occurrences of the character `c`. A
/// text without `c` is its own single piece.
pub open spec fn split_at_char(s: Seq<char>, c: char) -> Seq<Seq<char>>
    decreases s.len(),
{
    let k = first_index(s, CharClass::Exactly(c));
    if 0 <= k < s.len() {
        seq![s.take(k)] + split_at_char(s.skip(k + 1), c)
    } else {
        seq![s]
    }
}

/// The pieces of a text between the occurrences of the character `c`.
pub fn split_on_char(v: &Vec<char>, c: char) -> (out: Vec<Vec<char>>)
    ensures
        views(out@) == split_at_char(v@, c),
{
    let mut out: Vec<Vec<char>> = Vec::new();
    let mut pos: usize = 0;
    proof {
        assert(v@.skip(0) =~= v@);
        assert(views(out@) =~= Seq::<Seq<char>>::empty());
    }
    loop
        invariant_except_break
            pos <= v.len(),
            split_at_char(v@, c) == views(out@) + split_at_char(v@.skip(pos as int), c),
        ensures
            views(out@) == split_at_char(v@, c),
        decreases v.len() - pos,
    {
        let ghost rest = v@.skip(pos as int);
        let ghost before = views(out@);
        let k = find_from(v, pos, CharClass::Exactly(c));
        if k < v.len() {
            let piece = copy_range(v, pos, k);
            proof {
                assert(piece@ =~= rest.take(k - pos));
                assert(rest.skip(k - pos + 1) =~= v@.skip(k + 1));
                lemma_views_push(out@, piece);
                assert(before + (seq![piece@] + split_at_char(v@.skip(k + 1), c)) =~= before.push(
                    piece@,
                ) + split_at_char(v@.skip(k + 1), c));
            }
            out.push(piece);
            pos = k + 1;
        } else {
            let piece = copy_range(v, pos, v.len());
            proof {
                assert(piece@ =~= rest);
                lemma_views_push(out@, piece);
                assert(before + seq![rest] =~= before.push(rest));
            }
            out.push(piece);
            break;
        }
    }
    out
}

} // verus!
