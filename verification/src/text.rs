//! Character sequences: the model that the parsers are stated over, and the
//! executable helpers that move between `String` and `Vec<char>`.

use vstd::prelude::*;

verus! {

/// `i` is where `c` first occurs in `s`, or the length of `s` if it does not occur.
pub open spec fn is_first_index(s: Seq<char>, c: char, i: int) -> bool {
    &&& 0 <= i <= s.len()
    &&& forall|j: int| 0 <= j < i ==> s[j] != c
    &&& i < s.len() ==> s[i] == c
}

/// Where `c` first occurs in `s`; the length of `s` if it does not occur.
pub open spec fn first_index(s: Seq<char>, c: char) -> int {
    choose|i: int| is_first_index(s, c, i)
}

/// Whether `c` occurs in `s`.
pub open spec fn has_char(s: Seq<char>, c: char) -> bool {
    first_index(s, c) < s.len()
}

/// What stands in `s` before the first `c`; all of `s` if `c` does not occur.
pub open spec fn before(s: Seq<char>, c: char) -> Seq<char> {
    s.take(first_index(s, c))
}

/// What stands in `s` after the first `c`; nothing if `c` does not occur.
pub open spec fn after(s: Seq<char>, c: char) -> Seq<char> {
    if has_char(s, c) {
        s.skip(first_index(s, c) + 1)
    } else {
        Seq::empty()
    }
}

proof fn lemma_first_index_from(s: Seq<char>, c: char, k: int)
    requires
        0 <= k <= s.len(),
        forall|j: int| 0 <= j < k ==> s[j] != c,
    ensures
        exists|i: int| is_first_index(s, c, i),
    decreases s.len() - k,
{
    if k == s.len() || s[k] == c {
        assert(is_first_index(s, c, k));
    } else {
        lemma_first_index_from(s, c, k + 1);
    }
}

/// `first_index` is well defined: it is the one position that `is_first_index` admits.
pub proof fn lemma_first_index(s: Seq<char>, c: char)
    ensures
        is_first_index(s, c, first_index(s, c)),
        has_char(s, c) <==> s.contains(c),
{
    lemma_first_index_from(s, c, 0);
    let i = first_index(s, c);
    if s.contains(c) {
        let k = choose|k: int| 0 <= k < s.len() && s[k] == c;
        assert(s[k] == c);
    }
}

/// A position that `is_first_index` admits is `first_index`.
pub proof fn lemma_first_index_is(s: Seq<char>, c: char, i: int)
    requires
        is_first_index(s, c, i),
    ensures
        first_index(s, c) == i,
{
    lemma_first_index(s, c);
    let k = first_index(s, c);
    if k < i {
        assert(s[k] == c);
    } else if i < k {
        assert(s[i] == c);
    }
}

/// Whether `c` is white space: it has the Unicode property White_Space.
/// These are the controls U+0009 to U+000D and U+0085, the line and paragraph
/// separators U+2028 and U+2029, and the spaces U+0020, U+00A0, U+1680,
/// U+2000 to U+200A, U+202F, U+205F and U+3000.
pub open spec fn is_white_space(c: char) -> bool {
    let code = c as u32;
    ||| 0x09 <= code <= 0x0d
    ||| code == 0x20
    ||| code == 0x85
    ||| code == 0xa0
    ||| code == 0x1680
    ||| 0x2000 <= code <= 0x200a
    ||| code == 0x2028
    ||| code == 0x2029
    ||| code == 0x202f
    ||| code == 0x205f
    ||| code == 0x3000
}

/// Tells whether a character is white space.
///
/// Trusted: this is `char::is_whitespace`, which is true of the characters
/// with the Unicode property White_Space and of no others; the contract
/// lists them.
#[verifier::external_body]
pub(crate) fn char_is_whitespace(c: char) -> (b: bool)
    ensures
        b == is_white_space(c),
{
    c.is_whitespace()
}

/// `i` is the number of white-space characters that `s` begins with.
pub open spec fn is_leading_white_space(s: Seq<char>, i: int) -> bool {
    &&& 0 <= i <= s.len()
    &&& forall|j: int| 0 <= j < i ==> is_white_space(#[trigger] s[j])
    &&& i < s.len() ==> !is_white_space(s[i])
}

/// The number of white-space characters that `s` begins with.
pub open spec fn leading_white_space(s: Seq<char>) -> int {
    choose|i: int| is_leading_white_space(s, i)
}

/// `i` is the length of `s` without the white space that it ends with.
pub open spec fn is_trailing_white_space(s: Seq<char>, i: int) -> bool {
    &&& 0 <= i <= s.len()
    &&& forall|j: int| i <= j < s.len() ==> is_white_space(#[trigger] s[j])
    &&& 0 < i ==> !is_white_space(s[i - 1])
}

/// The length of `s` without the white space that it ends with.
pub open spec fn trailing_white_space(s: Seq<char>) -> int {
    choose|i: int| is_trailing_white_space(s, i)
}

/// `s` without the white space that it begins with.
pub open spec fn trim_start(s: Seq<char>) -> Seq<char> {
    s.skip(leading_white_space(s))
}

/// `s` without the white space that it ends with.
pub open spec fn trim_end(s: Seq<char>) -> Seq<char> {
    s.take(trailing_white_space(s))
}

/// `s` without the white space around it.
pub open spec fn trim(s: Seq<char>) -> Seq<char> {
    trim_end(trim_start(s))
}

proof fn lemma_leading_from(s: Seq<char>, k: int)
    requires
        0 <= k <= s.len(),
        forall|j: int| 0 <= j < k ==> is_white_space(#[trigger] s[j]),
    ensures
        exists|i: int| is_leading_white_space(s, i),
    decreases s.len() - k,
{
    if k == s.len() || !is_white_space(s[k]) {
        assert(is_leading_white_space(s, k));
    } else {
        lemma_leading_from(s, k + 1);
    }
}

proof fn lemma_trailing_from(s: Seq<char>, k: int)
    requires
        0 <= k <= s.len(),
        forall|j: int| k <= j < s.len() ==> is_white_space(#[trigger] s[j]),
    ensures
        exists|i: int| is_trailing_white_space(s, i),
    decreases k,
{
    if k == 0 || !is_white_space(s[k - 1]) {
        assert(is_trailing_white_space(s, k));
    } else {
        lemma_trailing_from(s, k - 1);
    }
}

/// `leading_white_space` is well defined, and is the one count that
/// `is_leading_white_space` admits.
pub proof fn lemma_leading_white_space(s: Seq<char>, i: int)
    ensures
        is_leading_white_space(s, leading_white_space(s)),
        is_leading_white_space(s, i) ==> leading_white_space(s) == i,
{
    lemma_leading_from(s, 0);
    let k = leading_white_space(s);
    if is_leading_white_space(s, i) {
        if k < i {
            assert(is_white_space(s[k]));
        } else if i < k {
            assert(is_white_space(s[i]));
        }
    }
}

/// `trailing_white_space` is well defined, and is the one length that
/// `is_trailing_white_space` admits.
pub proof fn lemma_trailing_white_space(s: Seq<char>, i: int)
    ensures
        is_trailing_white_space(s, trailing_white_space(s)),
        is_trailing_white_space(s, i) ==> trailing_white_space(s) == i,
{
    lemma_trailing_from(s, s.len() as int);
    let k = trailing_white_space(s);
    if is_trailing_white_space(s, i) {
        if k < i {
            assert(is_white_space(s[i - 1]));
        } else if i < k {
            assert(is_white_space(s[k - 1]));
        }
    }
}

/// Appends one character to a string.
///
/// Trusted: this is `String::push`, which the standard library documents as
/// appending the given `char` to the end of the string.
#[verifier::external_body]
pub(crate) fn push_char(s: &mut String, c: char)
    ensures
        final(s)@ == old(s)@.push(c),
{
    s.push(c)
}

/// The characters of a string, in order.
pub(crate) fn chars_of(s: &str) -> (v: Vec<char>)
    ensures
        v@ == s@,
{
    let mut v: Vec<char> = Vec::new();
    for c in it: s.chars()
        invariant
            v@ == it.seq().take(it.index() as int),
            it.seq() == s@,
    {
        v.push(c);
    }
    v
}

/// The string made of the characters `v[from..to]`.
pub(crate) fn string_of(v: &Vec<char>, from: usize, to: usize) -> (s: String)
    requires
        from <= to <= v.len(),
    ensures
        s@ == v@.subrange(from as int, to as int),
{
    let mut s = String::new();
    let mut i: usize = from;
    while i < to
        invariant
            from <= i <= to <= v.len(),
            s@ == v@.subrange(from as int, i as int),
        decreases to - i,
    {
        push_char(&mut s, v[i]);
        i += 1;
    }
    s
}

/// Whether `v` begins with `prefix`.
pub(crate) fn starts_with(v: &Vec<char>, prefix: &Vec<char>) -> (b: bool)
    ensures
        b == prefix@.is_prefix_of(v@),
{
    if prefix.len() > v.len() {
        return false;
    }
    let mut i: usize = 0;
    while i < prefix.len()
        invariant
            i <= prefix.len() <= v.len(),
            forall|j: int| 0 <= j < i ==> prefix@[j] == v@[j],
        decreases prefix.len() - i,
    {
        if prefix[i] != v[i] {
            proof {
                assert(v@.subrange(0, prefix@.len() as int)[i as int] == v@[i as int]);
            }
            return false;
        }
        i += 1;
    }
    proof {
        assert(prefix@ =~= v@.subrange(0, prefix@.len() as int));
    }
    true
}

/// Where `c` first occurs in `v[from..to]`, as a position in `v`; `to` if it
/// does not occur there.
pub(crate) fn find_char(v: &Vec<char>, from: usize, to: usize, c: char) -> (at: usize)
    requires
        from <= to <= v.len(),
    ensures
        from <= at <= to,
        at - from == first_index(v@.subrange(from as int, to as int), c),
{
    let mut i: usize = from;
    while i < to && v[i] != c
        invariant
            from <= i <= to <= v.len(),
            forall|j: int| from <= j < i ==> v@[j] != c,
        decreases to - i,
    {
        i += 1;
    }
    proof {
        lemma_first_index_is(v@.subrange(from as int, to as int), c, i - from);
    }
    i
}

/// Where the white space that `v[from..to]` begins with ends, as a position in `v`.
pub(crate) fn skip_white_space(v: &Vec<char>, from: usize, to: usize) -> (at: usize)
    requires
        from <= to <= v.len(),
    ensures
        from <= at <= to,
        at - from == leading_white_space(v@.subrange(from as int, to as int)),
{
    let mut i: usize = from;
    while i < to && char_is_whitespace(v[i])
        invariant
            from <= i <= to <= v.len(),
            forall|j: int| from <= j < i ==> is_white_space(#[trigger] v@[j]),
        decreases to - i,
    {
        i += 1;
    }
    proof {
        let s = v@.subrange(from as int, to as int);
        assert forall|j: int| 0 <= j < i - from implies is_white_space(#[trigger] s[j]) by {
            assert(s[j] == v@[from + j]);
        }
        lemma_leading_white_space(s, i - from);
    }
    i
}

/// Where the white space that `v[from..to]` ends with begins, as a position in `v`.
pub(crate) fn skip_white_space_back(v: &Vec<char>, from: usize, to: usize) -> (at: usize)
    requires
        from <= to <= v.len(),
    ensures
        from <= at <= to,
        at - from == trailing_white_space(v@.subrange(from as int, to as int)),
{
    let mut i: usize = to;
    while from < i && char_is_whitespace(v[i - 1])
        invariant
            from <= i <= to <= v.len(),
            forall|j: int| i <= j < to ==> is_white_space(#[trigger] v@[j]),
        decreases i,
    {
        i -= 1;
    }
    proof {
        let s = v@.subrange(from as int, to as int);
        assert forall|j: int| i - from <= j < s.len() implies is_white_space(#[trigger] s[j]) by {
            assert(s[j] == v@[from + j]);
        }
        lemma_trailing_white_space(s, i - from);
    }
    i
}

/// The string made of `v[from..to]` without the white space around it.
pub(crate) fn trimmed_string_of(v: &Vec<char>, from: usize, to: usize) -> (s: String)
    requires
        from <= to <= v.len(),
    ensures
        s@ == trim(v@.subrange(from as int, to as int)),
{
    let a = skip_white_space(v, from, to);
    let b = skip_white_space_back(v, a, to);
    proof {
        let whole = v@.subrange(from as int, to as int);
        assert(trim_start(whole) == v@.subrange(a as int, to as int));
        assert(v@.subrange(a as int, to as int).take(b - a) == v@.subrange(a as int, b as int));
    }
    string_of(v, a, b)
}

} // verus!
