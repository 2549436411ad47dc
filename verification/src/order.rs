//! The order of paths, as `str` orders them, and the sorted list of a
//! build's files.

use vstd::prelude::*;
use crate::text::{chars_of, texts};

verus! {

/// `a` comes before `b`: at the first character where they differ, `a`'s
/// is the smaller, or `a` is a proper prefix of `b`. On text, this is the
/// order of `str`, whose UTF-8 bytes order as their characters do.
pub open spec fn text_lt(a: Seq<char>, b: Seq<char>) -> bool
    decreases a.len(),
{
    if a.len() == 0 {
        b.len() > 0
    } else if b.len() == 0 {
        false
    } else if a[0] != b[0] {
        a[0] < b[0]
    } else {
        text_lt(a.drop_first(), b.drop_first())
    }
}

/// Every text comes no later than the ones after it.
pub open spec fn is_sorted(s: Seq<Seq<char>>) -> bool {
    forall|i: int, j: int| 0 <= i < j < s.len() ==> !text_lt(#[trigger] s[j], #[trigger] s[i])
}

/// The order is transitive.
pub proof fn lemma_text_lt_transitive(a: Seq<char>, b: Seq<char>, c: Seq<char>)
    requires
        text_lt(a, b),
        text_lt(b, c),
    ensures
        text_lt(a, c),
    decreases a.len(),
{
    if a.len() > 0 && b.len() > 0 && c.len() > 0 && a[0] == b[0] && b[0] == c[0] {
        lemma_text_lt_transitive(a.drop_first(), b.drop_first(), c.drop_first());
    }
}

/// No text comes before itself, and of two different texts one comes
/// before the other: the order is a strict total order.
pub proof fn lemma_text_lt_total(a: Seq<char>, b: Seq<char>)
    ensures
        !text_lt(a, a),
        a != b ==> text_lt(a, b) || text_lt(b, a),
        text_lt(a, b) ==> !text_lt(b, a),
    decreases a.len(),
{
    if a.len() > 0 {
        lemma_text_lt_total(a.drop_first(), a.drop_first());
        if b.len() > 0 {
            lemma_text_lt_total(a.drop_first(), b.drop_first());
            if a[0] == b[0] && a.drop_first() == b.drop_first() {
                assert(a =~= seq![a[0]] + a.drop_first());
                assert(b =~= seq![b[0]] + b.drop_first());
            }
        }
    } else if b.len() == 0 {
        assert(a =~= b);
    }
}

/// The order of `str`: at the first place two texts differ, the one whose
/// character has the smaller code point comes first; after a common
/// start, the shorter text comes first; the empty text before every other;
/// and no text before one it starts.
pub proof fn lemma_text_lt_by_code_points(c1: char, c2: char, a: Seq<char>, b: Seq<char>)
    ensures
        (c1 as u32) < (c2 as u32) ==> text_lt(seq![c1] + a, seq![c2] + b),
        (c1 as u32) < (c2 as u32) ==> !text_lt(seq![c2] + b, seq![c1] + a),
        text_lt(seq![c1] + a, seq![c1] + b) == text_lt(a, b),
        b.len() > 0 ==> text_lt(a, a + b),
        !text_lt(a + b, a),
{
    assert((seq![c1] + a)[0] == c1);
    assert((seq![c2] + b)[0] == c2);
    assert((seq![c1] + a).drop_first() =~= a);
    assert((seq![c1] + b).drop_first() =~= b);
    lemma_text_lt_prefix(a, b);
}

/// A proper start of a text comes before it, and no text comes before
/// its own start.
proof fn lemma_text_lt_prefix(a: Seq<char>, b: Seq<char>)
    ensures
        b.len() > 0 ==> text_lt(a, a + b),
        !text_lt(a + b, a),
    decreases a.len(),
{
    if a.len() > 0 {
        assert((a + b)[0] == a[0]);
        assert((a + b).drop_first() =~= a.drop_first() + b);
        lemma_text_lt_prefix(a.drop_first(), b);
    } else {
        assert(a + b =~= b);
    }
}

/// Comparing from a common prefix on compares the whole texts.
proof fn lemma_text_lt_after_prefix(a: Seq<char>, b: Seq<char>, i: int)
    requires
        0 <= i <= a.len(),
        i <= b.len(),
        a.take(i) == b.take(i),
    ensures
        text_lt(a, b) == text_lt(a.skip(i), b.skip(i)),
    decreases i,
{
    if i > 0 {
        assert(a[0] == a.take(i)[0]);
        assert(b[0] == b.take(i)[0]);
        assert(a.drop_first().take(i - 1) =~= a.take(i).drop_first());
        assert(b.drop_first().take(i - 1) =~= b.take(i).drop_first());
        lemma_text_lt_after_prefix(a.drop_first(), b.drop_first(), i - 1);
        assert(a.drop_first().skip(i - 1) =~= a.skip(i));
        assert(b.drop_first().skip(i - 1) =~= b.skip(i));
    } else {
        assert(a.skip(0) =~= a);
        assert(b.skip(0) =~= b);
    }
}

/// Whether `a` comes before `b`.
fn text_less(a: &Vec<char>, b: &Vec<char>) -> (r: bool)
    ensures
        r == text_lt(a@, b@),
{
    let mut i: usize = 0;
    while i < a.len() && i < b.len() && a[i] == b[i]
        invariant
            i <= a.len(),
            i <= b.len(),
            a@.take(i as int) == b@.take(i as int),
        decreases a.len() - i,
    {
        proof {
            assert(a@.take(i + 1) =~= a@.take(i as int).push(a@[i as int]));
            assert(b@.take(i + 1) =~= b@.take(i as int).push(b@[i as int]));
        }
        i = i + 1;
    }
    proof {
        lemma_text_lt_after_prefix(a@, b@, i as int);
        if i < a.len() && i < b.len() {
            assert(a@.skip(i as int)[0] == a@[i as int]);
            assert(b@.skip(i as int)[0] == b@[i as int]);
        }
    }
    if i == a.len() {
        i < b.len()
    } else if i == b.len() {
        false
    } else {
        a[i] < b[i]
    }
}

/// The relative paths of a build's files in the order of their text, as
/// `sort` puts them.
pub fn sort_paths(paths: &Vec<String>) -> (sorted: Vec<String>)
    ensures
        is_sorted(texts(sorted@)),
        texts(sorted@).to_multiset() == texts(paths@).to_multiset(),
{
    let mut out: Vec<String> = Vec::new();
    let mut keys: Vec<Vec<char>> = Vec::new();
    assert(texts(out@) =~= texts(paths@).take(0));
    for i in 0..paths.len()
        invariant
            out.len() == keys.len(),
            forall|k: int| 0 <= k < keys.len() ==> (#[trigger] keys@[k])@ == out@[k]@,
            is_sorted(texts(out@)),
            texts(out@).to_multiset() == texts(paths@).take(i as int).to_multiset(),
    {
        let key = chars_of(paths[i].as_str());
        let mut pos: usize = 0;
        while pos < keys.len() && !text_less(&key, &keys[pos])
            invariant
                pos <= keys.len(),
                out.len() == keys.len(),
                forall|k: int| 0 <= k < keys.len() ==> (#[trigger] keys@[k])@ == out@[k]@,
                forall|k: int| 0 <= k < pos ==> !text_lt(key@, #[trigger] out@[k]@),
            decreases keys.len() - pos,
        {
            pos = pos + 1;
        }
        let ghost before = texts(out@);
        let ghost x = key@;
        assert(pos < keys.len() ==> text_lt(x, before[pos as int]));
        out.insert(pos, paths[i].clone());
        keys.insert(pos, key);
        proof {
            let after = texts(out@);
            assert(after =~= before.insert(pos as int, x));
            assert forall|a: int, b: int| 0 <= a < b < after.len() implies !text_lt(
                #[trigger] after[b],
                #[trigger] after[a],
            ) by {
                if b == pos {
                    assert(after[a] == before[a]);
                } else if a == pos {
                    assert(after[b] == before[b - 1]);
                    if b - 1 == pos {
                        lemma_text_lt_total(before[pos as int], before[pos as int]);
                    } else {
                        assert(!text_lt(before[b - 1], before[pos as int]));
                    }
                    if text_lt(before[b - 1], x) {
                        lemma_text_lt_transitive(before[b - 1], x, before[pos as int]);
                    }
                } else {
                    let a0 = if a < pos { a } else { a - 1 };
                    let b0 = if b < pos { b } else { b - 1 };
                    assert(after[a] == before[a0]);
                    assert(after[b] == before[b0]);
                }
            }
            let tp = texts(paths@);
            assert(tp.take(i + 1) =~= tp.take(i as int).push(x));
            vstd::seq_lib::to_multiset_insert(before, pos as int, x);
            tp.take(i as int).to_multiset_ensures();
        }
    }
    proof {
        assert(texts(paths@).take(paths.len() as int) =~= texts(paths@));
    }
    out
}

/// A sorted list is the only sorted order of its texts: whatever order a
/// walk finds a build's files in, sorting them gives one list.
pub proof fn lemma_sorted_is_unique(a: Seq<Seq<char>>, b: Seq<Seq<char>>)
    requires
        is_sorted(a),
        is_sorted(b),
        a.to_multiset() == b.to_multiset(),
    ensures
        a == b,
    decreases a.len(),
{
    a.to_multiset_ensures();
    b.to_multiset_ensures();
    if a.len() > 0 {
        assert(a.contains(a[0]));
        assert(a.to_multiset().count(a[0]) > 0);
        assert(b.to_multiset().count(a[0]) > 0);
        assert(b.contains(a[0]));
        assert(b.contains(b[0]));
        assert(b.to_multiset().count(b[0]) > 0);
        assert(a.to_multiset().count(b[0]) > 0);
        assert(a.contains(b[0]));
        let j = choose|j: int| 0 <= j < b.len() && b[j] == a[0];
        let k = choose|k: int| 0 <= k < a.len() && a[k] == b[0];
        if j > 0 {
            assert(!text_lt(b[j], b[0]));
        }
        if k > 0 {
            assert(!text_lt(a[k], a[0]));
        }
        lemma_text_lt_total(a[0], b[0]);
        let a1 = a.drop_first();
        let b1 = b.drop_first();
        assert(a.remove(0) =~= a1);
        assert(b.remove(0) =~= b1);
        a1.to_multiset_ensures();
        assert(is_sorted(a1)) by {
            assert forall|x: int, y: int| 0 <= x < y < a1.len() implies !text_lt(
                #[trigger] a1[y],
                #[trigger] a1[x],
            ) by {
                assert(a1[x] == a[x + 1] && a1[y] == a[y + 1]);
            }
        }
        assert(is_sorted(b1)) by {
            assert forall|x: int, y: int| 0 <= x < y < b1.len() implies !text_lt(
                #[trigger] b1[y],
                #[trigger] b1[x],
            ) by {
                assert(b1[x] == b[x + 1] && b1[y] == b[y + 1]);
            }
        }
        lemma_sorted_is_unique(a1, b1);
        assert(a =~= seq![a[0]] + a1);
        assert(b =~= seq![b[0]] + b1);
    } else {
        assert(b.len() == 0);
        assert(a =~= b);
    }
}

} // verus!
