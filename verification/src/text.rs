//! Text as sequences of characters.
//!
//! The parsers of this library work on slices of `char`. Each operation here
//! comes as a specification over `Seq<char>` and an executable function that is
//! proved to compute it.
use vstd::prelude::*;
use vstd::slice::slice_subrange;
use vstd::utf8::{decode_utf8, valid_utf8};

verus! {

/// `String::push` appends one character to the string.
pub assume_specification[ String::push ](s: &mut String, c: char)
    ensures
        final(s)@ == old(s)@.push(c),
;

/// `<String as From<&str>>::from` copies the text.
pub assume_specification<'a>[ <String as From<&'a str>>::from ](s: &str) -> (r: String)
    ensures
        r@ == s@,
;

/// `String::from_utf8` gives the text of bytes that are valid UTF-8.
#[verifier::external_body]
pub(crate) fn text_from_utf8(bytes: Vec<u8>) -> (r: Option<String>)
    ensures
        match r {
            Some(text) => valid_utf8(bytes@) && text@ == decode_utf8(bytes@),
            None => !valid_utf8(bytes@),
        },
{
    String::from_utf8(bytes).ok()
}

/// `str::strip_prefix` gives what follows `prefix`, where the text starts with it.
#[verifier::external_body]
pub(crate) fn strip_prefix<'a>(s: &'a str, prefix: &str) -> (r: Option<&'a str>)
    ensures
        match r {
            Some(rest) => s@ == prefix@ + rest@,
            None => !prefix@.is_prefix_of(s@),
        },
{
    s.strip_prefix(prefix)
}

/// A set of characters that trimming strips.
#[derive(Clone, Copy)]
pub enum CharSet {
    /// The characters with the Unicode property `White_Space`.
    WhiteSpace,
    /// One character.
    Just(char),
}

/// The Unicode property `White_Space`.
pub open spec fn is_white_space(c: char) -> bool {
    ||| '\u{9}' <= c <= '\u{d}'
    ||| c == ' '
    ||| c == '\u{85}'
    ||| c == '\u{a0}'
    ||| c == '\u{1680}'
    ||| '\u{2000}' <= c <= '\u{200a}'
    ||| c == '\u{2028}'
    ||| c == '\u{2029}'
    ||| c == '\u{202f}'
    ||| c == '\u{205f}'
    ||| c == '\u{3000}'
}

impl CharSet {
    /// Whether `c` is a member of the set.
    pub open spec fn has(self, c: char) -> bool {
        match self {
            CharSet::WhiteSpace => is_white_space(c),
            CharSet::Just(d) => c == d,
        }
    }

    /// Whether `c` is a member of the set.
    pub fn contains(&self, c: char) -> (r: bool)
        ensures
            r == self.has(c),
    {
        match self {
            CharSet::WhiteSpace => {
                ('\u{9}' <= c && c <= '\u{d}') || c == ' ' || c == '\u{85}' || c == '\u{a0}' || c
                    == '\u{1680}' || ('\u{2000}' <= c && c <= '\u{200a}') || c == '\u{2028}' || c
                    == '\u{2029}' || c == '\u{202f}' || c == '\u{205f}' || c == '\u{3000}'
            },
            CharSet::Just(d) => c == *d,
        }
    }
}

/// `s` without the members of `set` that it starts with.
pub open spec fn trimmed_start(s: Seq<char>, set: CharSet) -> Seq<char>
    decreases s.len(),
{
    if s.len() > 0 && set.has(s[0]) {
        trimmed_start(s.skip(1), set)
    } else {
        s
    }
}

/// `s` without the members of `set` that it ends with.
pub open spec fn trimmed_end(s: Seq<char>, set: CharSet) -> Seq<char>
    decreases s.len(),
{
    if s.len() > 0 && set.has(s.last()) {
        trimmed_end(s.drop_last(), set)
    } else {
        s
    }
}

/// `s` without the members of `set` at either end.
pub open spec fn trimmed(s: Seq<char>, set: CharSet) -> Seq<char> {
    trimmed_end(trimmed_start(s, set), set)
}

/// The ASCII lower-case form of `c`; any other character is its own.
pub open spec fn lowered(c: char) -> char {
    if 'A' <= c <= 'Z' {
        (c as u32 + 32) as char
    } else {
        c
    }
}

/// `s` with its ASCII letters in lower case.
pub open spec fn all_lowered(s: Seq<char>) -> Seq<char> {
    Seq::new(s.len(), |i: int| lowered(s[i]))
}

/// The least index from `from` on at which `sep` occurs in `s`.
pub open spec fn found(s: Seq<char>, sep: Seq<char>, from: int) -> Option<int>
    decreases s.len() - from + 1,
{
    if from < 0 || from + sep.len() > s.len() {
        None
    } else if s.subrange(from, from + sep.len()) == sep {
        Some(from)
    } else {
        found(s, sep, from + 1)
    }
}

/// What stands before and after the first occurrence of `sep` in `s`.
pub open spec fn cut(s: Seq<char>, sep: Seq<char>) -> Option<(Seq<char>, Seq<char>)> {
    match found(s, sep, 0) {
        Some(i) => Some((s.take(i), s.skip(i + sep.len()))),
        None => None,
    }
}

/// Where `found` says that `sep` occurs, it occurs, and nowhere before.
pub proof fn lemma_found(s: Seq<char>, sep: Seq<char>, from: int)
    requires
        0 <= from,
    ensures
        match found(s, sep, from) {
            Some(i) => {
                &&& from <= i <= s.len() - sep.len()
                &&& s.subrange(i, i + sep.len()) == sep
                &&& forall|j: int|
                    from <= j < i ==> #[trigger] s.subrange(j, j + sep.len()) != sep
            },
            None => forall|j: int|
                from <= j <= s.len() - sep.len() ==> #[trigger] s.subrange(j, j + sep.len()) != sep,
        },
    decreases s.len() - from + 1,
{
    if from + sep.len() <= s.len() && s.subrange(from, from + sep.len()) != sep {
        lemma_found(s, sep, from + 1);
    }
}

/// The pieces of `s` between the occurrences of `sep`.
pub open spec fn pieces(s: Seq<char>, sep: char) -> Seq<Seq<char>>
    decreases s.len(),
{
    match found(s, seq![sep], 0) {
        Some(i) => {
            proof {
                lemma_found(s, seq![sep], 0);
            }
            seq![s.take(i)] + pieces(s.skip(i + 1), sep)
        },
        None => seq![s],
    }
}

/// The text of an optional string slice.
pub open spec fn opt_str(o: Option<&str>) -> Option<Seq<char>> {
    match o {
        Some(s) => Some(s@),
        None => None,
    }
}

/// The text of an optional string.
pub open spec fn opt_string(o: Option<String>) -> Option<Seq<char>> {
    match o {
        Some(s) => Some(s@),
        None => None,
    }
}

/// The characters of a string.
pub fn to_chars(s: &str) -> (r: Vec<char>)
    ensures
        r@ == s@,
{
    let mut out: Vec<char> = Vec::new();
    for c in it: s.chars()
        invariant
            out@ == it.seq().take(it.index() as int),
            it.seq() == s@,
    {
        out.push(c);
    }
    out
}

/// The string of the given characters.
pub fn to_text(s: &[char]) -> (r: String)
    ensures
        r@ == s@,
{
    let mut out = String::new();
    for i in 0..s.len()
        invariant
            out@ == s@.take(i as int),
    {
        out.push(s[i]);
    }
    assert(s@.take(s@.len() as int) == s@);
    out
}

/// Whether two slices hold the same characters.
pub fn same(a: &[char], b: &[char]) -> (r: bool)
    ensures
        r == (a@ == b@),
{
    if a.len() != b.len() {
        return false;
    }
    for i in 0..a.len()
        invariant
            a@.len() == b@.len(),
            a@.take(i as int) == b@.take(i as int),
    {
        if a[i] != b[i] {
            return false;
        }
        assert(a@.take(i + 1) == a@.take(i as int).push(a@[i as int]));
        assert(b@.take(i + 1) == b@.take(i as int).push(b@[i as int]));
    }
    assert(a@.take(a@.len() as int) == a@);
    assert(b@.take(b@.len() as int) == b@);
    true
}

/// Whether two strings hold the same characters.
pub fn same_text(a: &str, b: &str) -> (r: bool)
    ensures
        r == (a@ == b@),
{
    same(&to_chars(a), &to_chars(b))
}

/// Strips the members of `set` from the start.
pub fn trim_start<'a>(s: &'a [char], set: CharSet) -> (r: &'a [char])
    ensures
        r@ == trimmed_start(s@, set),
{
    let mut i: usize = 0;
    assert(s@.skip(0) == s@);
    while i < s.len() && set.contains(s[i])
        invariant
            i <= s@.len(),
            trimmed_start(s@.skip(i as int), set) == trimmed_start(s@, set),
        decreases s@.len() - i,
    {
        assert(s@.skip(i as int).skip(1) == s@.skip(i + 1));
        i = i + 1;
    }
    slice_subrange(s, i, s.len())
}

/// Strips the members of `set` from the end.
pub fn trim_end<'a>(s: &'a [char], set: CharSet) -> (r: &'a [char])
    ensures
        r@ == trimmed_end(s@, set),
{
    let mut n: usize = s.len();
    assert(s@.take(n as int) == s@);
    while n > 0 && set.contains(s[n - 1])
        invariant
            n <= s@.len(),
            trimmed_end(s@.take(n as int), set) == trimmed_end(s@, set),
        decreases n,
    {
        assert(s@.take(n as int).drop_last() == s@.take(n - 1));
        n = n - 1;
    }
    slice_subrange(s, 0, n)
}

/// Strips the members of `set` from both ends.
pub fn trim<'a>(s: &'a [char], set: CharSet) -> (r: &'a [char])
    ensures
        r@ == trimmed(s@, set),
{
    trim_end(trim_start(s, set), set)
}

/// The ASCII lower-case form of a character.
pub fn to_lower(c: char) -> (r: char)
    ensures
        r == lowered(c),
{
    if 'A' <= c && c <= 'Z' {
        ((c as u8) + 32) as char
    } else {
        c
    }
}

/// The characters with ASCII letters in lower case.
pub fn all_to_lower(s: &[char]) -> (r: Vec<char>)
    ensures
        r@ == all_lowered(s@),
{
    let mut out: Vec<char> = Vec::new();
    for i in 0..s.len()
        invariant
            out@ == all_lowered(s@).take(i as int),
    {
        out.push(to_lower(s[i]));
    }
    assert(all_lowered(s@).take(s@.len() as int) == all_lowered(s@));
    out
}

/// The index of the first occurrence of `sep`.
pub fn find(s: &[char], sep: &[char]) -> (r: Option<usize>)
    ensures
        match r {
            Some(i) => found(s@, sep@, 0) == Some(i as int),
            None => found(s@, sep@, 0) is None,
        },
{
    let mut i: usize = 0;
    while sep.len() <= s.len() - i
        invariant
            i <= s@.len(),
            found(s@, sep@, i as int) == found(s@, sep@, 0),
        decreases s@.len() + 1 - i,
    {
        if same(slice_subrange(s, i, i + sep.len()), sep) {
            return Some(i);
        }
        assert(i < s@.len()) by {
            if i == s@.len() {
                assert(s@.subrange(i as int, i + sep@.len()) == sep@);
            }
        }
        i = i + 1;
    }
    None
}

/// What stands before and after the first occurrence of `sep`.
pub fn split_once<'a>(s: &'a [char], sep: &[char]) -> (r: Option<(&'a [char], &'a [char])>)
    ensures
        match r {
            Some((head, rest)) => cut(s@, sep@) == Some((head@, rest@)),
            None => cut(s@, sep@) is None,
        },
{
    let n: usize = s.len();
    match find(s, sep) {
        Some(i) => {
            proof {
                lemma_found(s@, sep@, 0);
            }
            Some((slice_subrange(s, 0, i), slice_subrange(s, i + sep.len(), n)))
        },
        None => None,
    }
}

/// The views of a list of slices.
pub open spec fn views(v: Seq<&[char]>) -> Seq<Seq<char>> {
    Seq::new(v.len(), |i: int| v[i]@)
}

/// The pieces between the occurrences of `sep`.
pub fn split<'a>(s: &'a [char], sep: char) -> (r: Vec<&'a [char]>)
    ensures
        views(r@) == pieces(s@, sep),
{
    let sep_text: [char; 1] = [sep];
    let mut out: Vec<&'a [char]> = Vec::new();
    let mut rest: &'a [char] = s;
    assert(sep_text@ == seq![sep]);
    assert(views(out@) + pieces(rest@, sep) == pieces(s@, sep));
    loop
        invariant
            sep_text@ == seq![sep],
            views(out@) + pieces(rest@, sep) == pieces(s@, sep),
        decreases rest@.len(),
    {
        proof {
            lemma_found(rest@, seq![sep], 0);
        }
        match split_once(rest, &sep_text) {
            Some((head, tail)) => {
                let ghost before = views(out@);
                out.push(head);
                assert(views(out@) == before + seq![head@]);
                assert(views(out@) + pieces(tail@, sep) == before + pieces(rest@, sep));
                rest = tail;
            },
            None => {
                let ghost before = views(out@);
                out.push(rest);
                assert(views(out@) == before + pieces(rest@, sep));
                return out;
            },
        }
    }
}

/// Whether every character of `s` is a member of `set`.
pub open spec fn all_in(s: Seq<char>, set: CharSet) -> bool {
    forall|i: int| 0 <= i < s.len() ==> set.has(#[trigger] s[i])
}

/// White space are these characters and no others.
pub proof fn law_white_space(c: char)
    ensures
        CharSet::WhiteSpace.has(c) <==> seq![
            0x9int, 0xa, 0xb, 0xc, 0xd, 0x20, 0x85, 0xa0, 0x1680,
            0x2000, 0x2001, 0x2002, 0x2003, 0x2004, 0x2005, 0x2006, 0x2007, 0x2008, 0x2009, 0x200a,
            0x2028, 0x2029, 0x202f, 0x205f, 0x3000,
        ].contains(c as int),
        forall|d: char| #[trigger] CharSet::Just(d).has(c) <==> c == d,
{
    let all = seq![
        0x9int, 0xa, 0xb, 0xc, 0xd, 0x20, 0x85, 0xa0, 0x1680,
        0x2000, 0x2001, 0x2002, 0x2003, 0x2004, 0x2005, 0x2006, 0x2007, 0x2008, 0x2009, 0x200a,
        0x2028, 0x2029, 0x202f, 0x205f, 0x3000,
    ];
    let n = c as int;
    if CharSet::WhiteSpace.has(c) {
        let i: int = if n <= 0xd {
            n - 9
        } else if n == 0x20 {
            5
        } else if n == 0x85 {
            6
        } else if n == 0xa0 {
            7
        } else if n == 0x1680 {
            8
        } else if n <= 0x200a {
            n - 0x2000 + 9
        } else if n == 0x2028 {
            20
        } else if n == 0x2029 {
            21
        } else if n == 0x202f {
            22
        } else if n == 0x205f {
            23
        } else {
            24
        };
        assert(all[i] == n);
    }
    if all.contains(n) {
        let i = choose|i: int| 0 <= i < all.len() && all[i] == n;
        assert(CharSet::WhiteSpace.has(c));
    }
}

/// The letters from `A` to `Z` have the letters from `a` to `z` for lower case, and
/// every other character is its own.
pub proof fn law_lower_case(c: char)
    ensures
        forall|i: int|
            0 <= i < 26 && c == #[trigger] "ABCDEFGHIJKLMNOPQRSTUVWXYZ"@[i] ==> lowered(c)
                == "abcdefghijklmnopqrstuvwxyz"@[i],
        !"ABCDEFGHIJKLMNOPQRSTUVWXYZ"@.contains(c) ==> lowered(c) == c,
{
    reveal_strlit("ABCDEFGHIJKLMNOPQRSTUVWXYZ");
    reveal_strlit("abcdefghijklmnopqrstuvwxyz");
    let upper = "ABCDEFGHIJKLMNOPQRSTUVWXYZ"@;
    if 'A' <= c <= 'Z' {
        assert(upper[c as int - 'A' as int] == c);
    }
}

/// Lower case is taken character by character.
pub proof fn law_lower_case_of_text(s: Seq<char>)
    ensures
        all_lowered(s).len() == s.len(),
        forall|i: int| 0 <= i < s.len() ==> #[trigger] all_lowered(s)[i] == lowered(s[i]),
{
}

/// Trimming at the start takes off what stands there in the set.
pub proof fn lemma_trimmed_start(front: Seq<char>, s: Seq<char>, set: CharSet)
    requires
        all_in(front, set),
        s.len() > 0 ==> !set.has(s[0]),
    ensures
        trimmed_start(front + s, set) == s,
    decreases front.len(),
{
    if front.len() > 0 {
        assert((front + s)[0] == front[0]);
        assert((front + s).skip(1) == front.skip(1) + s);
        assert forall|i: int| 0 <= i < front.skip(1).len() implies set.has(
            #[trigger] front.skip(1)[i],
        ) by {
            assert(front.skip(1)[i] == front[i + 1]);
        }
        lemma_trimmed_start(front.skip(1), s, set);
    } else {
        assert(front + s == s);
    }
}

proof fn lemma_trimmed_end(s: Seq<char>, back: Seq<char>, set: CharSet)
    requires
        all_in(back, set),
        s.len() > 0 ==> !set.has(s.last()),
    ensures
        trimmed_end(s + back, set) == s,
    decreases back.len(),
{
    if back.len() > 0 {
        assert((s + back).last() == back[back.len() - 1]);
        assert((s + back).drop_last() == s + back.drop_last());
        assert forall|i: int| 0 <= i < back.drop_last().len() implies set.has(
            #[trigger] back.drop_last()[i],
        ) by {
            assert(back.drop_last()[i] == back[i]);
        }
        lemma_trimmed_end(s, back.drop_last(), set);
    } else {
        assert(s + back == s);
    }
}

/// Trimming takes off what stands around a text in the set, and nothing else.
pub proof fn law_trimming(front: Seq<char>, s: Seq<char>, back: Seq<char>, set: CharSet)
    requires
        all_in(front, set),
        all_in(back, set),
        s.len() > 0 ==> !set.has(s[0]) && !set.has(s.last()),
    ensures
        trimmed(front + s + back, set) == s,
        s.len() > 0 ==> trimmed_start(front + s + back, set) == s + back,
        s.len() == 0 ==> trimmed_start(front + s + back, set) == s,
{
    if s.len() > 0 {
        assert(front + s + back == front + (s + back));
        assert((s + back)[0] == s[0]);
        lemma_trimmed_start(front, s + back, set);
        lemma_trimmed_end(s, back, set);
    } else {
        let all = front + s + back;
        assert forall|i: int| 0 <= i < all.len() implies set.has(#[trigger] all[i]) by {
            if i < front.len() {
                assert(all[i] == front[i]);
            } else {
                assert(all[i] == back[i - front.len()]);
            }
        }
        assert(all + s == all);
        lemma_trimmed_start(all, s, set);
        assert(trimmed_end(s, set) == s);
    }
}

/// Every text comes apart into what is trimmed off and what stays.
pub proof fn law_trimming_parts(s: Seq<char>, set: CharSet)
    ensures
        exists|front: Seq<char>, back: Seq<char>|
            {
                &&& s == #[trigger] (front + trimmed(s, set) + back)
                &&& all_in(front, set)
                &&& all_in(back, set)
            },
        trimmed(s, set).len() > 0 ==> !set.has(trimmed(s, set)[0]) && !set.has(
            trimmed(s, set).last(),
        ),
{
    let m = lemma_start_parts(s, set);
    let rest = trimmed_start(s, set);
    let n = lemma_end_parts(rest, set);
    let front = s.take(m);
    let back = rest.skip(n);
    assert(s == front + trimmed(s, set) + back);
    assert forall|i: int| 0 <= i < back.len() implies set.has(#[trigger] back[i]) by {
        assert(back[i] == rest[n + i]);
    }
    if trimmed(s, set).len() > 0 {
        assert(trimmed(s, set)[0] == rest[0]);
    }
}

proof fn lemma_start_parts(s: Seq<char>, set: CharSet) -> (m: int)
    ensures
        0 <= m <= s.len(),
        trimmed_start(s, set) == s.skip(m),
        all_in(s.take(m), set),
        m < s.len() ==> !set.has(s[m]),
    decreases s.len(),
{
    if s.len() > 0 && set.has(s[0]) {
        let m = lemma_start_parts(s.skip(1), set);
        assert(s.skip(1).skip(m) == s.skip(m + 1));
        assert forall|i: int| 0 <= i < m + 1 implies set.has(#[trigger] s.take(m + 1)[i]) by {
            if i > 0 {
                assert(s.take(m + 1)[i] == s.skip(1).take(m)[i - 1]);
            }
        }
        m + 1
    } else {
        assert(s.skip(0) == s);
        0
    }
}

proof fn lemma_end_parts(s: Seq<char>, set: CharSet) -> (n: int)
    ensures
        0 <= n <= s.len(),
        trimmed_end(s, set) == s.take(n),
        forall|i: int| n <= i < s.len() ==> set.has(#[trigger] s[i]),
        n > 0 ==> !set.has(s[n - 1]),
    decreases s.len(),
{
    if s.len() > 0 && set.has(s.last()) {
        let fewer = s.drop_last();
        let n = lemma_end_parts(fewer, set);
        assert(fewer.take(n) == s.take(n));
        assert forall|i: int| n <= i < s.len() implies set.has(#[trigger] s[i]) by {
            if i < s.len() - 1 {
                assert(fewer[i] == s[i]);
            }
        }
        n
    } else {
        assert(s.take(s.len() as int) == s);
        s.len() as int
    }
}

/// Whether `sep` occurs in `s` nowhere before the index `end`.
pub open spec fn occurs_not_before(s: Seq<char>, sep: Seq<char>, end: int) -> bool {
    forall|j: int| 0 <= j < end ==> #[trigger] s.subrange(j, j + sep.len()) != sep
}

/// A text is cut at the first separator in it, and there alone.
pub proof fn law_cutting(head: Seq<char>, sep: Seq<char>, tail: Seq<char>)
    requires
        occurs_not_before(head + sep + tail, sep, head.len() as int),
    ensures
        cut(head + sep + tail, sep) == Some((head, tail)),
{
    let s = head + sep + tail;
    let n = head.len() as int;
    lemma_found(s, sep, 0);
    assert(s.subrange(n, n + sep.len()) == sep);
    let i = found(s, sep, 0)->0;
    assert(i == n);
    assert(s.take(n) == head);
    assert(s.skip(n + sep.len()) == tail);
}

/// A text without the separator is not cut.
pub proof fn law_no_cut(s: Seq<char>, sep: Seq<char>)
    ensures
        cut(s, sep) is None <==> occurs_not_before(s, sep, s.len() - sep.len() + 1),
{
    lemma_found(s, sep, 0);
    if cut(s, sep) is Some {
        let i = found(s, sep, 0)->0;
        assert(s.subrange(i, i + sep.len()) == sep);
    }
}

/// Texts with a separator between each two.
pub open spec fn joined(parts: Seq<Seq<char>>, sep: char) -> Seq<char>
    decreases parts.len(),
{
    if parts.len() == 0 {
        Seq::empty()
    } else if parts.len() == 1 {
        parts[0]
    } else {
        parts[0] + seq![sep] + joined(parts.skip(1), sep)
    }
}

/// A character that is not in the first `end` characters does not occur there.
pub proof fn lemma_no_mark_before(s: Seq<char>, sep: char, end: int)
    requires
        0 <= end <= s.len(),
        !s.take(end).contains(sep),
    ensures
        occurs_not_before(s, seq![sep], end),
{
    assert forall|j: int| 0 <= j < end implies #[trigger] s.subrange(j, j + seq![sep].len()) != seq![
        sep,
    ] by {
        assert(s.take(end)[j] == s[j]);
        if s.subrange(j, j + seq![sep].len()) == seq![sep] {
            assert(s.subrange(j, j + 1)[0] == sep);
        }
    }
}

proof fn lemma_first_mark(head: Seq<char>, tail: Seq<char>, sep: char)
    requires
        !head.contains(sep),
    ensures
        pieces(head + seq![sep] + tail, sep) == seq![head] + pieces(tail, sep),
        pieces(head, sep) == seq![head],
{
    let s = head + seq![sep] + tail;
    assert(s.take(head.len() as int) == head);
    lemma_no_mark_before(s, sep, head.len() as int);
    law_cutting(head, seq![sep], tail);
    assert(head.take(head.len() as int) == head);
    lemma_no_mark_before(head, sep, head.len() as int);
    law_no_cut(head, seq![sep]);
}

/// Splitting takes texts apart again that were joined, unless the separator is in
/// one of them.
pub proof fn law_split_undoes_join(parts: Seq<Seq<char>>, sep: char)
    requires
        parts.len() > 0,
        forall|i: int| 0 <= i < parts.len() ==> !(#[trigger] parts[i]).contains(sep),
    ensures
        pieces(joined(parts, sep), sep) == parts,
    decreases parts.len(),
{
    let head = parts[0];
    let rest = parts.skip(1);
    if parts.len() == 1 {
        lemma_first_mark(head, Seq::empty(), sep);
        assert(parts == seq![head]);
    } else {
        assert forall|i: int| 0 <= i < rest.len() implies !(#[trigger] rest[i]).contains(sep) by {
            assert(rest[i] == parts[i + 1]);
        }
        law_split_undoes_join(rest, sep);
        lemma_first_mark(head, joined(rest, sep), sep);
        assert(parts == seq![head] + rest);
    }
}

/// Every text is its pieces joined, and none of them holds the separator.
pub proof fn law_join_undoes_split(s: Seq<char>, sep: char)
    ensures
        joined(pieces(s, sep), sep) == s,
        pieces(s, sep).len() > 0,
        forall|i: int| 0 <= i < pieces(s, sep).len() ==> !(#[trigger] pieces(s, sep)[i]).contains(
            sep,
        ),
    decreases s.len(),
{
    lemma_found(s, seq![sep], 0);
    match found(s, seq![sep], 0) {
        Some(i) => {
            let head = s.take(i);
            let rest = pieces(s.skip(i + 1), sep);
            law_join_undoes_split(s.skip(i + 1), sep);
            assert(s.subrange(i, i + 1)[0] == sep);
            if head.contains(sep) {
                let j = choose|j: int| 0 <= j < head.len() && head[j] == sep;
                assert(s.subrange(j, j + 1) == seq![sep]);
            }
            let all = seq![head] + rest;
            assert(all.skip(1) == rest);
            assert(s == head + seq![sep] + s.skip(i + 1));
            assert forall|j: int| 0 <= j < all.len() implies !(#[trigger] all[j]).contains(sep) by {
                if j > 0 {
                    assert(all[j] == rest[j - 1]);
                }
            }
        },
        None => {
            if s.contains(sep) {
                let j = choose|j: int| 0 <= j < s.len() && s[j] == sep;
                assert(s.subrange(j, j + 1) == seq![sep]);
            }
        },
    }
}

} // verus!
