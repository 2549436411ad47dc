//! Unity version strings: their major and minor numbers, and how a version
//! is found in an editor path.

use vstd::prelude::*;
use crate::text::{chars_of, texts};

verus! {

/// The characters `major_minor` splits a version at.
pub open spec fn is_version_separator(c: char) -> bool {
    c == '.' || c == 'a' || c == 'b' || c == 'f' || c == 'p'
}

/// `i` is where the first separator of `s` stands, or `s.len()` when none does.
pub open spec fn is_first_separator(s: Seq<char>, i: int) -> bool {
    &&& 0 <= i <= s.len()
    &&& forall|j: int| 0 <= j < i ==> !is_version_separator(#[trigger] s[j])
    &&& i < s.len() ==> is_version_separator(s[i])
}

/// The index of the first separator of `s`, or `s.len()` when it holds none.
pub open spec fn first_separator(s: Seq<char>) -> int {
    choose|i: int| is_first_separator(s, i)
}

/// Only one index is the first separator.
pub proof fn lemma_first_separator(s: Seq<char>, i: int)
    requires
        is_first_separator(s, i),
    ensures
        first_separator(s) == i,
{
    let k = first_separator(s);
    assert(is_first_separator(s, k));
    if k < i {
        assert(!is_version_separator(s[k]));
    }
    if i < k {
        assert(!is_version_separator(s[i]));
    }
}

/// An ASCII decimal digit.
pub open spec fn is_digit(c: char) -> bool {
    '0' <= c <= '9'
}

/// The value of one decimal digit.
pub open spec fn digit_value(c: char) -> nat {
    (c as int - '0' as int) as nat
}

/// The value of a run of decimal digits, most significant first.
pub open spec fn digits_value(d: Seq<char>) -> nat
    decreases d.len(),
{
    if d.len() == 0 {
        0
    } else {
        digits_value(d.drop_last()) * 10 + digit_value(d.last())
    }
}

/// Every character of `d` is a decimal digit.
pub open spec fn all_digits(d: Seq<char>) -> bool {
    forall|j: int| 0 <= j < d.len() ==> is_digit(#[trigger] d[j])
}

/// `t` without the one `+` sign it may start with.
pub open spec fn unsigned_part(t: Seq<char>) -> Seq<char> {
    if t.len() > 0 && t[0] == '+' {
        t.drop_first()
    } else {
        t
    }
}

/// What `str::parse::<u32>` accepts: an optional `+`, then one or more
/// decimal digits, of a value that fits in a `u32`.
pub open spec fn parses_as_u32(t: Seq<char>) -> bool {
    let d = unsigned_part(t);
    &&& d.len() > 0
    &&& all_digits(d)
    &&& digits_value(d) <= u32::MAX
}

/// The number `t` reads as, or 0 where it is no number.
pub open spec fn number_or_zero(t: Seq<char>) -> u32 {
    if parses_as_u32(t) {
        digits_value(unsigned_part(t)) as u32
    } else {
        0
    }
}

/// The major and minor of a version: the first two of its parts between
/// separators, each read as a number, 0 where a part is missing or no number.
pub open spec fn major_minor_of(s: Seq<char>) -> (u32, u32) {
    let i = first_separator(s);
    let major = number_or_zero(s.take(i));
    if i < s.len() {
        let rest = s.skip(i + 1);
        (major, number_or_zero(rest.take(first_separator(rest))))
    } else {
        (major, 0)
    }
}

/// A prefix of a run of digits is worth no more than the whole run.
proof fn lemma_prefix_value(d: Seq<char>, k: int)
    requires
        0 <= k <= d.len(),
    ensures
        digits_value(d.take(k)) <= digits_value(d),
    decreases d.len(),
{
    if k < d.len() {
        assert(d.drop_last().take(k) =~= d.take(k));
        lemma_prefix_value(d.drop_last(), k);
    } else {
        assert(d.take(k) =~= d);
    }
}

/// Whether `major_minor` splits at `c`.
fn separates(c: char) -> (b: bool)
    ensures
        b == is_version_separator(c),
{
    c == '.' || c == 'a' || c == 'b' || c == 'f' || c == 'p'
}

/// The index of the first separator at or after `from`, or `chars.len()`.
fn find_separator(chars: &Vec<char>, from: usize) -> (k: usize)
    requires
        from <= chars.len(),
    ensures
        from <= k <= chars.len(),
        first_separator(chars@.skip(from as int)) == k - from,
{
    let mut k = from;
    while k < chars.len() && !separates(chars[k])
        invariant
            from <= k <= chars.len(),
            forall|j: int| from <= j < k ==> !is_version_separator(#[trigger] chars@[j]),
        decreases chars.len() - k,
    {
        k = k + 1;
    }
    proof {
        let s = chars@.skip(from as int);
        assert forall|j: int| 0 <= j < k - from implies !is_version_separator(#[trigger] s[j]) by {
            assert(s[j] == chars@[from + j]);
        }
        lemma_first_separator(s, k - from);
    }
    k
}

/// `str::parse::<u32>` on `chars[from..to]`.
fn parse_u32(chars: &Vec<char>, from: usize, to: usize) -> (r: Option<u32>)
    requires
        from <= to <= chars.len(),
    ensures
        r == (if parses_as_u32(chars@.subrange(from as int, to as int)) {
            Some(digits_value(unsigned_part(chars@.subrange(from as int, to as int))) as u32)
        } else {
            None
        }),
{
    let ghost t = chars@.subrange(from as int, to as int);
    let mut start = from;
    if from < to && chars[from] == '+' {
        start = from + 1;
    }
    let ghost d = unsigned_part(t);
    assert(d =~= chars@.subrange(start as int, to as int));
    if start == to {
        return None;
    }
    let mut value: u64 = 0;
    let mut i = start;
    while i < to
        invariant
            from <= start <= i <= to <= chars.len(),
            t == chars@.subrange(from as int, to as int),
            d == unsigned_part(t),
            d == chars@.subrange(start as int, to as int),
            all_digits(d.take(i - start)),
            value == digits_value(d.take(i - start)),
            value <= u32::MAX,
        decreases to - i,
    {
        let c = chars[i];
        if c < '0' || c > '9' {
            proof {
                assert(!is_digit(d[i - start]));
                assert(!all_digits(d));
            }
            return None;
        }
        let digit = (c as u32 - '0' as u32) as u64;
        proof {
            assert(d.take(i - start + 1).drop_last() =~= d.take(i - start));
            assert(d.take(i - start + 1).last() == c);
            assert(all_digits(d.take(i - start + 1)));
        }
        value = value * 10 + digit;
        assert(value == digits_value(d.take(i - start + 1)));
        if value > 0xffff_ffff {
            proof {
                lemma_prefix_value(d, i - start + 1);
            }
            return None;
        }
        i = i + 1;
    }
    assert(d.take(i - start) =~= d);
    Some(value as u32)
}

/// The major and minor of a Unity version such as `2019.4.41f2`: the first
/// two parts between `.`, `a`, `b`, `f` and `p`, each parsed as a number,
/// 0 where a part is missing or does not parse.
pub fn major_minor(version: &str) -> (mm: (u32, u32))
    ensures
        mm == major_minor_of(version@),
{
    let chars = chars_of(version);
    let i = find_separator(&chars, 0);
    proof {
        assert(chars@.skip(0) =~= chars@);
        assert(chars@.subrange(0, i as int) =~= chars@.take(i as int));
    }
    let major = match parse_u32(&chars, 0, i) {
        Some(n) => n,
        None => 0,
    };
    if i < chars.len() {
        let j = find_separator(&chars, i + 1);
        proof {
            let rest = chars@.skip(i + 1);
            assert(chars@.subrange(i + 1, j as int) =~= rest.take(j - (i + 1)));
        }
        let minor = match parse_u32(&chars, i + 1, j) {
            Some(n) => n,
            None => 0,
        };
        (major, minor)
    } else {
        (major, 0)
    }
}

/// Whether `mm` comes before `major.minor`, comparing majors first.
pub open spec fn is_before(mm: (u32, u32), major: u32, minor: u32) -> bool {
    mm.0 < major || (mm.0 == major && mm.1 < minor)
}

/// `mm < (major, minor)` on the pair.
pub fn before(mm: (u32, u32), major: u32, minor: u32) -> (b: bool)
    ensures
        b == is_before(mm, major, minor),
{
    mm.0 < major || (mm.0 == major && mm.1 < minor)
}

/// How many times `c` occurs in `s`.
pub open spec fn count_of(s: Seq<char>, c: char) -> nat
    decreases s.len(),
{
    if s.len() == 0 {
        0
    } else {
        count_of(s.drop_last(), c) + if s.last() == c {
            1nat
        } else {
            0nat
        }
    }
}

/// One of the letters a Unity version's release type is written with.
pub open spec fn is_release_letter(c: char) -> bool {
    c == 'a' || c == 'b' || c == 'f' || c == 'p'
}

/// A path component that looks like a Unity version: it starts with a
/// digit, holds exactly two dots and one of the release letters.
pub open spec fn looks_like_version(t: Seq<char>) -> bool {
    &&& t.len() > 0
    &&& is_digit(t[0])
    &&& count_of(t, '.') == 2
    &&& exists|j: int| 0 <= j < t.len() && is_release_letter(#[trigger] t[j])
}

/// Counting over two texts adds the counts of each.
proof fn lemma_count_of_concat(s: Seq<char>, t: Seq<char>, c: char)
    ensures
        count_of(s + t, c) == count_of(s, c) + count_of(t, c),
    decreases t.len(),
{
    if t.len() == 0 {
        assert(s + t =~= s);
    } else {
        assert((s + t).drop_last() =~= s + t.drop_last());
        assert((s + t).last() == t.last());
        lemma_count_of_concat(s, t.drop_last(), c);
    }
}

/// A run of digits holds no dot.
proof fn lemma_count_of_digits(d: Seq<char>)
    requires
        all_digits(d),
    ensures
        count_of(d, '.') == 0,
    decreases d.len(),
{
    if d.len() > 0 {
        assert(all_digits(d.drop_last())) by {
            assert forall|j: int| 0 <= j < d.drop_last().len() implies is_digit(
                #[trigger] d.drop_last()[j],
            ) by {
                assert(d.drop_last()[j] == d[j]);
            }
        }
        assert(is_digit(d[d.len() - 1]));
        lemma_count_of_digits(d.drop_last());
    }
}

/// Every text of the form `<major>.<minor>.<patch><letter><build>`, with
/// runs of digits of any length (the major one not empty) and a release
/// letter, looks like a version: `2022.3.10f1` and `6000.0.23f1` as much
/// as `5.6.7f1`.
pub proof fn lemma_version_shape(
    major: Seq<char>,
    minor: Seq<char>,
    patch: Seq<char>,
    letter: char,
    build: Seq<char>,
)
    requires
        major.len() > 0,
        all_digits(major),
        all_digits(minor),
        all_digits(patch),
        all_digits(build),
        is_release_letter(letter),
    ensures
        looks_like_version(major + seq!['.'] + minor + seq!['.'] + patch + seq![letter] + build),
{
    let t = major + seq!['.'] + minor + seq!['.'] + patch + seq![letter] + build;
    assert(t[0] == major[0]);
    assert(is_digit(major[0]));
    lemma_count_of_digits(major);
    lemma_count_of_digits(minor);
    lemma_count_of_digits(patch);
    lemma_count_of_digits(build);
    reveal_with_fuel(count_of, 2);
    assert(seq!['.'].drop_last() =~= Seq::<char>::empty());
    assert(seq![letter].drop_last() =~= Seq::<char>::empty());
    lemma_count_of_concat(major, seq!['.'], '.');
    lemma_count_of_concat(major + seq!['.'], minor, '.');
    lemma_count_of_concat(major + seq!['.'] + minor, seq!['.'], '.');
    lemma_count_of_concat(major + seq!['.'] + minor + seq!['.'], patch, '.');
    lemma_count_of_concat(major + seq!['.'] + minor + seq!['.'] + patch, seq![letter], '.');
    lemma_count_of_concat(major + seq!['.'] + minor + seq!['.'] + patch + seq![letter], build, '.');
    let k = major.len() as int + 1 + minor.len() + 1 + patch.len();
    assert(t[k] == letter);
}

/// Whether a component looks like a version does not depend on its length:
/// one that does keeps looking like one with more characters other than a
/// dot at its end, and with another digit first; one with a third dot, or
/// not starting with a digit, or without a release letter, does not.
pub proof fn lemma_version_look(t: Seq<char>, c: char, d: char)
    ensures
        looks_like_version(t) && c != '.' ==> looks_like_version(t.push(c)),
        looks_like_version(t) && is_digit(d) ==> looks_like_version(t.update(0, d)),
        looks_like_version(t) ==> !looks_like_version(t.push('.')),
        t.len() > 0 && !is_digit(t[0]) ==> !looks_like_version(t),
        (forall|j: int| 0 <= j < t.len() ==> !is_release_letter(#[trigger] t[j])) ==> !looks_like_version(t),
{
    assert(t.push(c).drop_last() =~= t);
    assert(t.push('.').drop_last() =~= t);
    if looks_like_version(t) {
        let j = choose|j: int| 0 <= j < t.len() && is_release_letter(#[trigger] t[j]);
        assert(t.push(c)[j] == t[j]);
        if t.len() > 0 {
            let u = t.update(0, d);
            let head = seq![t[0]];
            let rest = t.drop_first();
            assert(t =~= head + rest);
            assert(u =~= seq![d] + rest);
            lemma_count_of_concat(head, rest, '.');
            lemma_count_of_concat(seq![d], rest, '.');
            reveal_with_fuel(count_of, 2);
            assert(head.drop_last() =~= Seq::<char>::empty());
            assert(seq![d].drop_last() =~= Seq::<char>::empty());
            if is_digit(d) {
                if j > 0 {
                    assert(u[j] == t[j]);
                } else {
                    assert(false);
                }
            }
        }
    }
}

/// The last of `components` that looks like a version.
pub open spec fn version_among(components: Seq<Seq<char>>) -> Option<Seq<char>>
    decreases components.len(),
{
    if components.len() == 0 {
        None
    } else if looks_like_version(components.last()) {
        Some(components.last())
    } else {
        version_among(components.drop_last())
    }
}

/// Whether a path component looks like a Unity version.
fn looks_like_version_text(t: &str) -> (b: bool)
    ensures
        b == looks_like_version(t@),
{
    let chars = chars_of(t);
    if chars.len() == 0 || chars[0] < '0' || chars[0] > '9' {
        return false;
    }
    let mut dots: usize = 0;
    let mut letter = false;
    for i in 0..chars.len()
        invariant
            dots == count_of(chars@.take(i as int), '.'),
            dots <= i,
            letter == exists|j: int| 0 <= j < i && is_release_letter(#[trigger] chars@[j]),
    {
        proof {
            assert(chars@.take(i + 1).drop_last() =~= chars@.take(i as int));
        }
        let c = chars[i];
        if c == '.' {
            dots = dots + 1;
        }
        if c == 'a' || c == 'b' || c == 'f' || c == 'p' {
            letter = true;
        }
    }
    assert(chars@.take(chars.len() as int) =~= chars@);
    dots == 2 && letter
}

/// The version out of a Hub-style editor path, such as
/// `.../Hub/Editor/6000.5.8f1/Editor/Unity.exe`, given by its components:
/// the last of them that looks like a version.
pub fn version_from(components: &Vec<String>) -> (r: Option<String>)
    ensures
        match r {
            Some(v) => version_among(texts(components@)) == Some(v@),
            None => version_among(texts(components@)) is None,
        },
{
    let ghost cs = texts(components@);
    let mut i = components.len();
    assert(cs.take(i as int) =~= cs);
    while i > 0
        invariant
            i <= components.len(),
            cs == texts(components@),
            version_among(cs) == version_among(cs.take(i as int)),
        decreases i,
    {
        proof {
            assert(cs.take(i as int).drop_last() =~= cs.take(i - 1));
        }
        if looks_like_version_text(components[i - 1].as_str()) {
            return Some(components[i - 1].clone());
        }
        i = i - 1;
    }
    None
}

/// The editor's version: the one given, or else the one its path names.
pub fn resolve_version(given: Option<String>, components: &Vec<String>) -> (r: Option<String>)
    ensures
        match given {
            Some(g) => r == Some(g),
            None => match r {
                Some(v) => version_among(texts(components@)) == Some(v@),
                None => version_among(texts(components@)) is None,
            },
        },
{
    match given {
        Some(g) => Some(g),
        None => version_from(components),
    }
}

/// A run of digits is where the first separator of it followed by `rest`
/// stands, when `rest` is empty or starts with a separator.
proof fn lemma_digits_then_separator(d: Seq<char>, rest: Seq<char>)
    requires
        all_digits(d),
        rest.len() == 0 || is_version_separator(rest[0]),
    ensures
        first_separator(d + rest) == d.len(),
        (d + rest).take(d.len() as int) == d,
{
    let s = d + rest;
    assert forall|j: int| 0 <= j < d.len() implies !is_version_separator(#[trigger] s[j]) by {
        assert(s[j] == d[j]);
        assert(is_digit(d[j]));
    }
    if rest.len() > 0 {
        assert(s[d.len() as int] == rest[0]);
    }
    lemma_first_separator(s, d.len() as int);
    assert(s.take(d.len() as int) =~= d);
}

/// A version that starts with two runs of digits around a dot, followed by
/// nothing or by a separator, has those two numbers as its major and minor:
/// `2019.4.41f2` is 2019.4.
pub proof fn lemma_major_minor_reads_numbers(major: Seq<char>, minor: Seq<char>, rest: Seq<char>)
    requires
        major.len() > 0,
        all_digits(major),
        digits_value(major) <= u32::MAX,
        minor.len() > 0,
        all_digits(minor),
        digits_value(minor) <= u32::MAX,
        rest.len() == 0 || is_version_separator(rest[0]),
    ensures
        major_minor_of(major + "."@ + minor + rest) == (
            digits_value(major) as u32,
            digits_value(minor) as u32,
        ),
{
    reveal_strlit(".");
    let tail = "."@ + minor + rest;
    let s = major + tail;
    assert(major + "."@ + minor + rest =~= s);
    lemma_digits_then_separator(major, tail);
    assert(is_digit(major[0]));
    assert(unsigned_part(major) == major);
    let after = s.skip(major.len() as int + 1);
    assert(after =~= minor + rest);
    lemma_digits_then_separator(minor, rest);
    assert(is_digit(minor[0]));
    assert(unsigned_part(minor) == minor);
}

/// Each of `.`, `a`, `b`, `f` and `p` ends a part: a version made of a
/// run of digits, one of them, another run of digits and then nothing or
/// one of them again, has the two runs as its major and minor; a run that
/// is empty or too large for a `u32` reads as 0.
pub proof fn lemma_major_minor_parts(
    major: Seq<char>,
    sep: char,
    minor: Seq<char>,
    rest: Seq<char>,
)
    requires
        all_digits(major),
        all_digits(minor),
        sep == '.' || sep == 'a' || sep == 'b' || sep == 'f' || sep == 'p',
        rest.len() == 0 || rest[0] == '.' || rest[0] == 'a' || rest[0] == 'b' || rest[0] == 'f'
            || rest[0] == 'p',
    ensures
        major_minor_of(major + seq![sep] + minor + rest) == (
            if major.len() > 0 && digits_value(major) <= u32::MAX {
                digits_value(major) as u32
            } else {
                0u32
            },
            if minor.len() > 0 && digits_value(minor) <= u32::MAX {
                digits_value(minor) as u32
            } else {
                0u32
            },
        ),
{
    let tail = seq![sep] + minor + rest;
    let s = major + tail;
    assert(major + seq![sep] + minor + rest =~= s);
    lemma_digits_then_separator(major, tail);
    if major.len() > 0 {
        assert(is_digit(major[0]));
    }
    assert(unsigned_part(major) == major);
    let after = s.skip(major.len() as int + 1);
    assert(after =~= minor + rest);
    lemma_digits_then_separator(minor, rest);
    if minor.len() > 0 {
        assert(is_digit(minor[0]));
    }
    assert(unsigned_part(minor) == minor);
}

/// Every text has a first separator, or none at all.
proof fn lemma_first_separator_exists(s: Seq<char>)
    ensures
        is_first_separator(s, first_separator(s)),
    decreases s.len(),
{
    if s.len() == 0 {
        assert(is_first_separator(s, 0));
    } else {
        let init = s.drop_last();
        lemma_first_separator_exists(init);
        let k = first_separator(init);
        assert forall|j: int| 0 <= j < k implies !is_version_separator(#[trigger] s[j]) by {
            assert(s[j] == init[j]);
        }
        if k < init.len() {
            assert(s[k] == init[k]);
            assert(is_first_separator(s, k));
        } else if is_version_separator(s.last()) {
            assert(is_first_separator(s, k));
        } else {
            assert(is_first_separator(s, s.len() as int));
        }
    }
}

/// A version that starts with neither a digit, a `+` nor a separator has
/// 0 as its major.
pub proof fn lemma_major_minor_not_a_number(s: Seq<char>)
    requires
        s.len() > 0,
        !('0' <= s[0] <= '9'),
        s[0] != '+',
        !(s[0] == '.' || s[0] == 'a' || s[0] == 'b' || s[0] == 'f' || s[0] == 'p'),
    ensures
        major_minor_of(s).0 == 0,
{
    lemma_first_separator_exists(s);
    let i = first_separator(s);
    if i > 0 {
        let p = s.take(i);
        assert(p[0] == s[0]);
        assert(unsigned_part(p) == p);
        assert(!is_digit(p[0]));
    }
}

/// What a path gives as its version is one of its components, and looks
/// like a version; when it gives none, no component looks like one.
pub proof fn lemma_version_among(components: Seq<Seq<char>>)
    ensures
        version_among(components) matches Some(v) ==> looks_like_version(v) && components.contains(v),
        version_among(components) is None ==> forall|i: int|
            0 <= i < components.len() ==> !looks_like_version(#[trigger] components[i]),
    decreases components.len(),
{
    if components.len() > 0 {
        let init = components.drop_last();
        lemma_version_among(init);
        if !looks_like_version(components.last()) {
            if let Some(v) = version_among(init) {
                let i = choose|i: int| 0 <= i < init.len() && init[i] == v;
                assert(components[i] == v);
            }
            if version_among(init) is None {
                assert forall|i: int| 0 <= i < components.len() implies !looks_like_version(
                    #[trigger] components[i],
                ) by {
                    if i < init.len() {
                        assert(components[i] == init[i]);
                        assert(!looks_like_version(init[i]));
                    } else {
                        assert(components[i] == components.last());
                    }
                }
            }
        } else {
            assert(components[components.len() - 1] == components.last());
        }
    }
}

} // verus!
