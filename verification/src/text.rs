//! Character-level views of strings and the few string operations the
//! library's rules are built from.

use vstd::prelude::*;

verus! {

/// The characters of `s`, one by one.
pub fn chars_of(s: &str) -> (v: Vec<char>)
    ensures
        v@ == s@,
{
    let mut v: Vec<char> = Vec::new();
    for c in it: s.chars()
        invariant
            v@ == it.seq().take(it.index()),
            it.seq() == s@,
    {
        v.push(c);
    }
    v
}

/// `String::push`: appends one character at the end of the string.
#[verifier::external_body]
pub(crate) fn push_char(s: &mut String, c: char)
    ensures
        final(s)@ == old(s)@.push(c),
{
    s.push(c);
}

/// The string made of the characters `chars[from..to]`.
pub fn string_of(chars: &Vec<char>, from: usize, to: usize) -> (s: String)
    requires
        from <= to <= chars.len(),
    ensures
        s@ == chars@.subrange(from as int, to as int),
{
    let mut s = String::new();
    let mut i = from;
    while i < to
        invariant
            from <= i <= to <= chars.len(),
            s@ == chars@.subrange(from as int, i as int),
        decreases to - i,
    {
        push_char(&mut s, chars[i]);
        i = i + 1;
    }
    s
}

/// The string `a` followed by `b`.
pub fn joined(a: &str, b: &str) -> (s: String)
    ensures
        s@ == a@ + b@,
{
    String::from_str(a).concat(b)
}

/// Whether `chars[from..to]` are exactly the characters of `word`.
pub fn same_chars(chars: &Vec<char>, from: usize, to: usize, word: &str) -> (b: bool)
    requires
        from <= to <= chars.len(),
    ensures
        b == (chars@.subrange(from as int, to as int) == word@),
{
    let w = chars_of(word);
    if to - from != w.len() {
        proof {
            assert(chars@.subrange(from as int, to as int).len() != word@.len());
        }
        return false;
    }
    let mut i: usize = 0;
    while i < w.len()
        invariant
            from <= to <= chars.len(),
            to - from == w.len(),
            w@ == word@,
            i <= w.len(),
            forall|j: int| 0 <= j < i ==> chars@[from + j] == w@[j],
        decreases w.len() - i,
    {
        if chars[from + i] != w[i] {
            proof {
                assert(chars@.subrange(from as int, to as int)[i as int] != word@[i as int]);
            }
            return false;
        }
        i = i + 1;
    }
    assert(chars@.subrange(from as int, to as int) =~= word@);
    true
}

/// Whether `s` is exactly `word`.
pub fn is_word(s: &Vec<char>, word: &str) -> (b: bool)
    ensures
        b == (s@ == word@),
{
    proof {
        assert(s@.subrange(0, s@.len() as int) =~= s@);
    }
    same_chars(s, 0, s.len(), word)
}

/// Whether `s` ends with `suffix`.
pub open spec fn has_suffix(s: Seq<char>, suffix: Seq<char>) -> bool {
    suffix.len() <= s.len() && s.subrange(s.len() - suffix.len(), s.len() as int) == suffix
}

/// `s` without `suffix` at its end, when it ends so.
pub open spec fn without_suffix(s: Seq<char>, suffix: Seq<char>) -> Option<Seq<char>> {
    if has_suffix(s, suffix) {
        Some(s.subrange(0, s.len() - suffix.len()))
    } else {
        None
    }
}

/// The length of `s` without `suffix`, when `s` ends with it.
pub fn strip_suffix_len(s: &Vec<char>, suffix: &str) -> (r: Option<usize>)
    ensures
        r matches Some(n) ==> n + suffix@.len() == s@.len(),
        r is Some <==> has_suffix(s@, suffix@),
{
    let w = chars_of(suffix);
    if w.len() > s.len() {
        return None;
    }
    let start = s.len() - w.len();
    if same_chars(s, start, s.len(), suffix) {
        Some(start)
    } else {
        None
    }
}

/// The characters `chars[from..to]` as a vector of their own.
pub fn sub_chars(chars: &Vec<char>, from: usize, to: usize) -> (v: Vec<char>)
    requires
        from <= to <= chars.len(),
    ensures
        v@ == chars@.subrange(from as int, to as int),
{
    let mut v: Vec<char> = Vec::new();
    let mut i = from;
    while i < to
        invariant
            from <= i <= to <= chars.len(),
            v@ == chars@.subrange(from as int, i as int),
        decreases to - i,
    {
        v.push(chars[i]);
        i = i + 1;
    }
    v
}

/// The texts of a sequence of strings.
pub open spec fn texts(v: Seq<String>) -> Seq<Seq<char>> {
    v.map_values(|s: String| s@)
}

/// `word` occurs somewhere in `s`.
pub open spec fn contains_text(s: Seq<char>, word: Seq<char>) -> bool {
    exists|i: int| 0 <= i && i + word.len() <= s.len() && #[trigger] s.subrange(i, i + word.len()) == word
}

/// Whether `word` occurs somewhere in `chars`.
pub fn contains_word(chars: &Vec<char>, word: &str) -> (b: bool)
    ensures
        b == contains_text(chars@, word@),
{
    let w = chars_of(word);
    if w.len() > chars.len() {
        return false;
    }
    if w.len() == 0 {
        assert(chars@.subrange(0int, 0int + word@.len()) =~= word@);
        return true;
    }
    let last = chars.len() - w.len();
    let mut i: usize = 0;
    while i <= last
        invariant
            w@ == word@,
            last + w.len() == chars.len(),
            w.len() > 0,
            i <= last + 1,
            forall|j: int| 0 <= j < i ==> #[trigger] chars@.subrange(j, j + w.len()) != word@,
        decreases last + 1 - i,
    {
        if same_chars(chars, i, i + w.len(), word) {
            return true;
        }
        i = i + 1;
    }
    false
}

} // verus!
