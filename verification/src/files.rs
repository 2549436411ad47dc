//! Which of a build's files an asset holds, what their names mean, and
//! when a build holds everything an asset needs.

use vstd::prelude::*;
use crate::text::{
    chars_of, contains_text, contains_word, has_suffix, is_word, joined, string_of, strip_suffix_len,
    sub_chars, texts,
};
use crate::variant::Flavor;

verus! {

/// The directory a build puts beside the player for the files a game does
/// not ship, symbols among them.
pub const NOT_SHIPPED: &'static str = "_BackUpThisFolder_ButDontShipItWithYourGame";

/// `s` without the last `suffix.len()` characters.
pub open spec fn cut(s: Seq<char>, suffix: Seq<char>) -> Seq<char> {
    s.subrange(0, s.len() - suffix.len())
}

/// The name with the extension its platform gave it taken off: the first of
/// `.dll`, `.so`, `.dylib` and `.exe` that it ends with.
pub open spec fn stem_of(name: Seq<char>) -> Seq<char> {
    if has_suffix(name, ".dll"@) {
        cut(name, ".dll"@)
    } else if has_suffix(name, ".so"@) {
        cut(name, ".so"@)
    } else if has_suffix(name, ".dylib"@) {
        cut(name, ".dylib"@)
    } else if has_suffix(name, ".exe"@) {
        cut(name, ".exe"@)
    } else {
        name
    }
}

/// The files a walk reads, by stem: the player binary always, the runtime
/// library on Mono, the game assembly and the metadata file on IL2CPP.
pub open spec fn is_wanted_stem(flavor: Flavor, stem: Seq<char>) -> bool {
    if flavor.mono() {
        ||| stem == "UnityPlayer"@
        ||| stem == "mono"@
        ||| stem == "mono-2.0-bdwgc"@
        ||| stem == "libmono"@
        ||| stem == "libmono.0"@
        ||| stem == "libmonobdwgc-2.0"@
    } else {
        ||| stem == "UnityPlayer"@
        ||| stem == "GameAssembly"@
        ||| stem == "global-metadata.dat"@
    }
}

/// The stem a symbols file belongs to: the name without `.pdb` or else
/// `.debug`, and then without one `_s`; none for other names.
pub open spec fn symbols_stem(name: Seq<char>) -> Option<Seq<char>> {
    let base = if has_suffix(name, ".pdb"@) {
        Some(cut(name, ".pdb"@))
    } else if has_suffix(name, ".debug"@) {
        Some(cut(name, ".debug"@))
    } else {
        None
    };
    match base {
        Some(b) => Some(if has_suffix(b, "_s"@) { cut(b, "_s"@) } else { b }),
        None => None,
    }
}

/// `name` holds the symbols of a file the tests read.
pub open spec fn is_wanted_symbols(flavor: Flavor, name: Seq<char>) -> bool {
    symbols_stem(name) matches Some(s) && is_wanted_stem(flavor, s)
}

/// `k` is where the last part of `s` begins: right after its last `/`,
/// or at 0 when it holds none.
pub open spec fn is_name_start(s: Seq<char>, k: int) -> bool {
    &&& 0 <= k <= s.len()
    &&& k > 0 ==> s[k - 1] == '/'
    &&& forall|j: int| k <= j < s.len() ==> #[trigger] s[j] != '/'
}

/// The last part of a `/`-separated path.
pub open spec fn last_part(s: Seq<char>) -> Seq<char> {
    s.skip(choose|k: int| is_name_start(s, k))
}

/// Only one index begins the last part.
pub proof fn lemma_name_start(s: Seq<char>, k: int)
    requires
        is_name_start(s, k),
    ensures
        last_part(s) == s.skip(k),
{
    let c = choose|k: int| is_name_start(s, k);
    assert(is_name_start(s, c));
    if c < k {
        assert(s[k - 1] != '/');
    }
    if k < c {
        assert(s[c - 1] != '/');
    }
}

/// The path a walk gives a file `name` found under the relative directory `at`.
pub open spec fn relative_path_of(at: Seq<char>, name: Seq<char>) -> Seq<char> {
    if at.len() == 0 {
        name
    } else {
        at + "/"@ + name
    }
}

/// The file stands where a shipped game holds it, outside the directory a
/// game does not ship.
pub open spec fn is_shipped(relative: Seq<char>) -> bool {
    !contains_text(relative, NOT_SHIPPED@)
}

/// A stem that names the player: the `UnityPlayer` library, or the
/// executable itself on players from before the engine split one out.
pub open spec fn is_player(stem: Seq<char>) -> bool {
    stem == "UnityPlayer"@ || stem == "fixture"@
}

/// The stem of the file at a relative path.
pub open spec fn file_stem(relative: Seq<char>) -> Seq<char> {
    stem_of(last_part(relative))
}

/// Some shipped file of `built` has a stem that `role` accepts.
pub open spec fn holds_role(built: Seq<Seq<char>>, role: spec_fn(Seq<char>) -> bool) -> bool {
    exists|i: int| 0 <= i < built.len() && is_shipped(built[i]) && role(#[trigger] file_stem(built[i]))
}

/// The player's role.
pub open spec fn player_role() -> spec_fn(Seq<char>) -> bool {
    |s: Seq<char>| is_player(s)
}

/// The Mono runtime's role: a file the asset must hold that is no player.
pub open spec fn runtime_role(flavor: Flavor) -> spec_fn(Seq<char>) -> bool {
    |s: Seq<char>| is_wanted_stem(flavor, s) && !is_player(s)
}

/// The game assembly's role.
pub open spec fn assembly_role() -> spec_fn(Seq<char>) -> bool {
    |s: Seq<char>| s == "GameAssembly"@
}

/// The metadata file's role.
pub open spec fn metadata_role() -> spec_fn(Seq<char>) -> bool {
    |s: Seq<char>| s == "global-metadata.dat"@
}

/// The shipped part of a build holds a file for every role that an asset
/// of `flavor` needs: the player, and the Mono runtime, or else both the
/// game assembly and the metadata file. Roles are checked one by one, so
/// a second file for one role never stands in for another role's absence.
pub open spec fn is_complete_build(flavor: Flavor, built: Seq<Seq<char>>) -> bool {
    &&& holds_role(built, player_role())
    &&& if flavor.mono() {
        holds_role(built, runtime_role(flavor))
    } else {
        &&& holds_role(built, assembly_role())
        &&& holds_role(built, metadata_role())
    }
}

/// The items of `s` that `keep` accepts, in their order.
pub open spec fn kept(s: Seq<Seq<char>>, keep: spec_fn(Seq<char>) -> bool) -> Seq<Seq<char>>
    decreases s.len(),
{
    if s.len() == 0 {
        s
    } else if keep(s.last()) {
        kept(s.drop_last(), keep).push(s.last())
    } else {
        kept(s.drop_last(), keep)
    }
}

/// Keeps the files a shipped game holds.
pub open spec fn keep_shipped() -> spec_fn(Seq<char>) -> bool {
    |r: Seq<char>| is_shipped(r)
}

/// Keeps the symbols of the files an asset of `flavor` must hold.
pub open spec fn keep_symbols(flavor: Flavor) -> spec_fn(Seq<char>) -> bool {
    |r: Seq<char>| is_wanted_symbols(flavor, last_part(r))
}

/// What an asset of `flavor` holds of a build: everything a shipped game
/// holds, in the build's order, then the wanted symbols from anywhere in
/// the build, in the build's order.
pub open spec fn asset_files_of(flavor: Flavor, built: Seq<Seq<char>>) -> Seq<Seq<char>> {
    kept(built, keep_shipped()) + kept(built, keep_symbols(flavor))
}

/// The length of `stem_of(chars)`.
fn stem_len(chars: &Vec<char>) -> (n: usize)
    ensures
        n <= chars.len(),
        chars@.subrange(0, n as int) == stem_of(chars@),
{
    let n = match strip_suffix_len(chars, ".dll") {
        Some(n) => n,
        None => match strip_suffix_len(chars, ".so") {
            Some(n) => n,
            None => match strip_suffix_len(chars, ".dylib") {
                Some(n) => n,
                None => match strip_suffix_len(chars, ".exe") {
                    Some(n) => n,
                    None => chars.len(),
                },
            },
        },
    };
    assert(chars@.subrange(0, chars@.len() as int) =~= chars@);
    n
}

/// The name with the extension its platform gave it taken off.
pub fn stem(name: &str) -> (s: &str)
    ensures
        s@ == stem_of(name@),
{
    let chars = chars_of(name);
    let n = stem_len(&chars);
    name.substring_char(0, n)
}

/// Whether `stem` is one that an asset of `flavor` must hold.
fn wanted_stem_chars(flavor: Flavor, stem: &Vec<char>) -> (b: bool)
    ensures
        b == is_wanted_stem(flavor, stem@),
{
    if flavor.is_mono() {
        is_word(stem, "UnityPlayer") || is_word(stem, "mono") || is_word(stem, "mono-2.0-bdwgc")
            || is_word(stem, "libmono") || is_word(stem, "libmono.0") || is_word(
            stem,
            "libmonobdwgc-2.0",
        )
    } else {
        is_word(stem, "UnityPlayer") || is_word(stem, "GameAssembly") || is_word(
            stem,
            "global-metadata.dat",
        )
    }
}

/// The names of the files a walk reads, without the extension each platform
/// gives them: the player binary always, the runtime library on Mono, the
/// game assembly and the metadata file on IL2CPP. An asset holds the whole
/// build, and it must hold these.
pub fn wanted_stem(flavor: Flavor, stem: &str) -> (b: bool)
    ensures
        b == is_wanted_stem(flavor, stem@),
{
    wanted_stem_chars(flavor, &chars_of(stem))
}

/// Whether the file `name` holds the symbols of a file the tests read.
fn wanted_symbols_chars(flavor: Flavor, name: &Vec<char>) -> (b: bool)
    ensures
        b == is_wanted_symbols(flavor, name@),
{
    let base = match strip_suffix_len(name, ".pdb") {
        Some(n) => n,
        None => match strip_suffix_len(name, ".debug") {
            Some(n) => n,
            None => {
                return false;
            },
        },
    };
    let b = sub_chars(name, 0, base);
    let s = match strip_suffix_len(&b, "_s") {
        Some(n) => sub_chars(&b, 0, n),
        None => b,
    };
    proof {
        assert(b@.subrange(0, b@.len() as int) =~= b@);
    }
    wanted_stem_chars(flavor, &s)
}

/// The symbols belonging to a file the tests read, as a PDB on Windows or
/// separated debug info elsewhere. IL2CPP compiles the runtime's own
/// structures into the game assembly, so its symbols name the layouts a
/// walk over that build has to know.
pub fn wanted_symbols(flavor: Flavor, name: &str) -> (b: bool)
    ensures
        b == is_wanted_symbols(flavor, name@),
{
    wanted_symbols_chars(flavor, &chars_of(name))
}

/// Where the last part of `chars` begins.
fn name_start(chars: &Vec<char>) -> (k: usize)
    ensures
        is_name_start(chars@, k as int),
        last_part(chars@) == chars@.skip(k as int),
{
    let mut k = chars.len();
    while k > 0 && chars[k - 1] != '/'
        invariant
            k <= chars.len(),
            forall|j: int| k <= j < chars.len() ==> #[trigger] chars@[j] != '/',
        decreases k,
    {
        k = k - 1;
    }
    proof {
        lemma_name_start(chars@, k as int);
    }
    k
}

/// The last part of a `/`-separated relative path: the file's own name.
pub fn last_component(relative: &str) -> (s: String)
    ensures
        s@ == last_part(relative@),
{
    let chars = chars_of(relative);
    let k = name_start(&chars);
    let s = string_of(&chars, k, chars.len());
    assert(s@ =~= chars@.skip(k as int));
    s
}

/// The path a walk gives the file `name` found under the relative
/// directory `at`: the name alone at the top, else `at/name`.
pub fn relative_path(at: &str, name: &str) -> (p: String)
    ensures
        p@ == relative_path_of(at@, name@),
{
    if at.is_empty() {
        String::from_str(name)
    } else {
        joined(&joined(at, "/"), name)
    }
}

/// Whether the file stands where a shipped game holds it, outside the
/// directory a game does not ship.
pub fn shipped(relative: &str) -> (b: bool)
    ensures
        b == is_shipped(relative@),
{
    !contains_word(&chars_of(relative), NOT_SHIPPED)
}

/// Whether a stem names the player: the `UnityPlayer` library, or, on
/// players from before the engine split one out, the executable itself.
pub fn names_a_player(stem: &str) -> (b: bool)
    ensures
        b == is_player(stem@),
{
    let chars = chars_of(stem);
    is_word(&chars, "UnityPlayer") || is_word(&chars, "fixture")
}

/// The stem of the file at the relative path `chars`.
fn file_stem_chars(chars: &Vec<char>) -> (st: Vec<char>)
    ensures
        st@ == file_stem(chars@),
{
    let k = name_start(chars);
    let part = sub_chars(chars, k, chars.len());
    assert(part@ =~= chars@.skip(k as int));
    let n = stem_len(&part);
    sub_chars(&part, 0, n)
}

/// Whether the shipped part of a build holds a file for every role an
/// asset of `flavor` needs. Players from before the engine split one out
/// are monolithic: no `UnityPlayer` library exists, and the executable
/// itself is the player.
pub fn build_is_complete(flavor: Flavor, built: &Vec<String>) -> (b: bool)
    ensures
        b == is_complete_build(flavor, texts(built@)),
{
    let ghost bv = texts(built@);
    let mono = flavor.is_mono();
    let mut player = false;
    let mut runtime = false;
    let mut assembly = false;
    let mut metadata = false;
    for i in 0..built.len()
        invariant
            bv == texts(built@),
            mono == flavor.mono(),
            player == exists|j: int|
                0 <= j < i && is_shipped(bv[j]) && is_player(#[trigger] file_stem(bv[j])),
            runtime == exists|j: int|
                0 <= j < i && is_shipped(bv[j]) && is_wanted_stem(flavor, #[trigger] file_stem(bv[j]))
                    && !is_player(file_stem(bv[j])),
            assembly == exists|j: int|
                0 <= j < i && is_shipped(bv[j]) && #[trigger] file_stem(bv[j]) == "GameAssembly"@,
            metadata == exists|j: int|
                0 <= j < i && is_shipped(bv[j]) && #[trigger] file_stem(bv[j])
                    == "global-metadata.dat"@,
    {
        let chars = chars_of(built[i].as_str());
        assert(chars@ == bv[i as int]);
        if !contains_word(&chars, NOT_SHIPPED) {
            let st = file_stem_chars(&chars);
            let is_p = is_word(&st, "UnityPlayer") || is_word(&st, "fixture");
            player = player || is_p;
            runtime = runtime || (wanted_stem_chars(flavor, &st) && !is_p);
            assembly = assembly || is_word(&st, "GameAssembly");
            metadata = metadata || is_word(&st, "global-metadata.dat");
        }
    }
    if mono {
        player && runtime
    } else {
        player && assembly && metadata
    }
}

/// What an asset of `flavor` holds of a build, whose files are given by
/// their relative paths: everything a shipped game holds, at the paths a
/// shipped game uses, then the symbols of the files the tests read, which
/// only the directory a game does not ship holds.
pub fn asset_files(flavor: Flavor, built: &Vec<String>) -> (files: Vec<String>)
    ensures
        texts(files@) == asset_files_of(flavor, texts(built@)),
{
    let ghost bv = texts(built@);
    let mut files: Vec<String> = Vec::new();
    for i in 0..built.len()
        invariant
            bv == texts(built@),
            texts(files@) == kept(bv.take(i as int), keep_shipped()),
    {
        proof {
            assert(bv.take(i + 1).drop_last() =~= bv.take(i as int));
        }
        let chars = chars_of(built[i].as_str());
        if !contains_word(&chars, NOT_SHIPPED) {
            files.push(built[i].clone());
            assert(texts(files@) =~= kept(bv.take(i as int), keep_shipped()).push(bv[i as int]));
        }
    }
    let ghost shipped_part = texts(files@);
    assert(bv.take(built.len() as int) =~= bv);
    for i in 0..built.len()
        invariant
            bv == texts(built@),
            texts(files@) == shipped_part + kept(bv.take(i as int), keep_symbols(flavor)),
    {
        proof {
            assert(bv.take(i + 1).drop_last() =~= bv.take(i as int));
        }
        let chars = chars_of(built[i].as_str());
        let k = name_start(&chars);
        let name = sub_chars(&chars, k, chars.len());
        assert(name@ =~= last_part(bv[i as int]));
        if wanted_symbols_chars(flavor, &name) {
            let ghost before = texts(files@);
            files.push(built[i].clone());
            assert(texts(files@) =~= before.push(bv[i as int]));
            assert(texts(files@) =~= shipped_part + kept(bv.take(i as int), keep_symbols(flavor)).push(
                bv[i as int],
            ));
        }
    }
    assert(bv.take(built.len() as int) =~= bv);
    files
}

/// A character near the end of `s` that differs from the one at the same
/// distance from the end of `suffix` rules the suffix out.
proof fn lemma_not_suffix(s: Seq<char>, suffix: Seq<char>, k: int)
    requires
        1 <= k <= suffix.len(),
        k <= s.len(),
        s[s.len() - k] != suffix[suffix.len() - k],
    ensures
        !has_suffix(s, suffix),
{
    if has_suffix(s, suffix) {
        let t = s.subrange(s.len() - suffix.len(), s.len() as int);
        assert(t[suffix.len() - k] == s[s.len() - k]);
    }
}

/// `s + suffix` ends with `suffix`, and cutting it off gives `s` back.
proof fn lemma_suffix_of_sum(s: Seq<char>, suffix: Seq<char>)
    ensures
        has_suffix(s + suffix, suffix),
        cut(s + suffix, suffix) == s,
{
    assert((s + suffix).subrange(s.len() as int, (s + suffix).len() as int) =~= suffix);
    assert(cut(s + suffix, suffix) =~= s);
}

/// Taking the stem undoes adding any of the extensions a platform gives
/// its files.
pub proof fn lemma_stem_removes_extension(name: Seq<char>, ext: Seq<char>)
    requires
        ext == ".dll"@ || ext == ".so"@ || ext == ".dylib"@ || ext == ".exe"@,
    ensures
        stem_of(name + ext) == name,
{
    reveal_strlit(".dll");
    reveal_strlit(".so");
    reveal_strlit(".dylib");
    reveal_strlit(".exe");
    let s = name + ext;
    lemma_suffix_of_sum(name, ext);
    let n = s.len();
    if ext != ".dll"@ {
        if ext == ".dylib"@ {
            assert(s[n - 2] == 'i');
            lemma_not_suffix(s, ".dll"@, 2);
        } else {
            assert(s[n - 1] == ext[ext.len() - 1]);
            lemma_not_suffix(s, ".dll"@, 1);
        }
    }
    if ext == ".dylib"@ || ext == ".exe"@ {
        assert(s[n - 1] == ext[ext.len() - 1]);
        lemma_not_suffix(s, ".so"@, 1);
    }
    if ext == ".exe"@ {
        assert(s[n - 1] == 'e');
        lemma_not_suffix(s, ".dylib"@, 1);
    }
}

/// A file's symbols are named after it with `.pdb` or `.debug` added, and
/// on Linux with `_s` before that: such a name is wanted exactly when the
/// file's stem is.
pub proof fn lemma_symbols_name_the_file(flavor: Flavor, stem: Seq<char>, ext: Seq<char>)
    requires
        ext == ".pdb"@ || ext == ".debug"@,
    ensures
        is_wanted_symbols(flavor, stem + "_s"@ + ext) == is_wanted_stem(flavor, stem),
        !has_suffix(stem, "_s"@) ==> is_wanted_symbols(flavor, stem + ext) == is_wanted_stem(
            flavor,
            stem,
        ),
{
    reveal_strlit(".pdb");
    reveal_strlit(".debug");
    reveal_strlit("_s");
    let with_s = stem + "_s"@;
    lemma_suffix_of_sum(with_s, ext);
    lemma_suffix_of_sum(stem, ext);
    lemma_suffix_of_sum(stem, "_s"@);
    if ext == ".debug"@ {
        let a = with_s + ext;
        let b = stem + ext;
        assert(a[a.len() - 1] == 'g');
        assert(b[b.len() - 1] == 'g');
        lemma_not_suffix(a, ".pdb"@, 1);
        lemma_not_suffix(b, ".pdb"@, 1);
    }
}

/// Only the four platform extensions come off: a name that ends in none of
/// `.dll`, `.so`, `.dylib` and `.exe` is its own stem, and a stem is never
/// longer than its name.
pub proof fn lemma_stem_keeps_other_names(name: Seq<char>)
    ensures
        !has_suffix(name, ".dll"@) && !has_suffix(name, ".so"@) && !has_suffix(name, ".dylib"@)
            && !has_suffix(name, ".exe"@) ==> stem_of(name) == name,
        stem_of(name).len() <= name.len(),
        stem_of(name) == name.take(stem_of(name).len() as int),
{
    assert(name.take(name.len() as int) =~= name);
    let t = stem_of(name);
    assert(t =~= name.take(t.len() as int));
}

/// The last part of the path a walk gives a file is the file's name.
pub proof fn lemma_last_part_of_relative_path(at: Seq<char>, name: Seq<char>)
    requires
        forall|j: int| 0 <= j < name.len() ==> #[trigger] name[j] != '/',
    ensures
        last_part(relative_path_of(at, name)) == name,
{
    reveal_strlit("/");
    let r = relative_path_of(at, name);
    let k = r.len() - name.len();
    if at.len() > 0 {
        assert(r[k - 1] == '/');
    }
    assert forall|j: int| k <= j < r.len() implies #[trigger] r[j] != '/' by {
        assert(r[j] == name[j - k]);
    }
    lemma_name_start(r, k);
    assert(r.skip(k) =~= name);
}

/// A role that some shipped file of a build fills stays filled when the
/// build holds more files.
proof fn lemma_role_grows(built: Seq<Seq<char>>, extra: Seq<Seq<char>>, role: spec_fn(Seq<char>) -> bool)
    requires
        holds_role(built, role),
    ensures
        holds_role(built + extra, role),
{
    let i = choose|i: int| 0 <= i < built.len() && is_shipped(built[i]) && role(#[trigger] file_stem(built[i]));
    assert((built + extra)[i] == built[i]);
}

/// A role is filled or not whatever unshipped file stands anywhere in the build.
proof fn lemma_role_ignores_unshipped(
    built: Seq<Seq<char>>,
    i: int,
    x: Seq<char>,
    role: spec_fn(Seq<char>) -> bool,
)
    requires
        0 <= i <= built.len(),
        !is_shipped(x),
    ensures
        holds_role(built.insert(i, x), role) == holds_role(built, role),
{
    let b = built.insert(i, x);
    built.insert_ensures(i, x);
    if holds_role(b, role) {
        let j = choose|j: int| 0 <= j < b.len() && is_shipped(b[j]) && role(#[trigger] file_stem(b[j]));
        if j < i {
            assert(built[j] == b[j]);
        } else {
            assert(j != i);
            assert(built[j - 1] == b[j]);
        }
    }
    if holds_role(built, role) {
        let j = choose|j: int| 0 <= j < built.len() && is_shipped(built[j]) && role(#[trigger] file_stem(built[j]));
        if j < i {
            assert(b[j] == built[j]);
        } else {
            assert(b[j + 1] == built[j]);
        }
    }
}

/// A role filled in one build is filled in any build with the same files.
proof fn lemma_role_same_files(a: Seq<Seq<char>>, b: Seq<Seq<char>>, role: spec_fn(Seq<char>) -> bool)
    requires
        a.to_multiset() == b.to_multiset(),
        holds_role(a, role),
    ensures
        holds_role(b, role),
{
    a.to_multiset_ensures();
    b.to_multiset_ensures();
    let i = choose|i: int| 0 <= i < a.len() && is_shipped(a[i]) && role(#[trigger] file_stem(a[i]));
    assert(a.contains(a[i]));
    assert(a.to_multiset().count(a[i]) > 0);
    assert(b.to_multiset().count(a[i]) > 0);
    assert(b.contains(a[i]));
    let j = choose|j: int| 0 <= j < b.len() && b[j] == a[i];
    assert(file_stem(b[j]) == file_stem(a[i]));
}

/// Whether a build is complete depends only on its shipped files: not on
/// the order its files come in, and not on any file in the directory a
/// game does not ship, wherever it stands.
pub proof fn lemma_complete_build_by_shipped_files(
    flavor: Flavor,
    built: Seq<Seq<char>>,
    other: Seq<Seq<char>>,
    i: int,
    x: Seq<char>,
)
    requires
        0 <= i <= built.len(),
        !is_shipped(x),
    ensures
        is_complete_build(flavor, built.insert(i, x)) == is_complete_build(flavor, built),
        built.to_multiset() == other.to_multiset() ==> is_complete_build(flavor, built)
            == is_complete_build(flavor, other),
{
    lemma_role_ignores_unshipped(built, i, x, player_role());
    lemma_role_ignores_unshipped(built, i, x, runtime_role(flavor));
    lemma_role_ignores_unshipped(built, i, x, assembly_role());
    lemma_role_ignores_unshipped(built, i, x, metadata_role());
    if built.to_multiset() == other.to_multiset() {
        let roles = seq![player_role(), runtime_role(flavor), assembly_role(), metadata_role()];
        assert forall|k: int| 0 <= k < 4 implies holds_role(built, #[trigger] roles[k]) == holds_role(
            other,
            roles[k],
        ) by {
            if holds_role(built, roles[k]) {
                lemma_role_same_files(built, other, roles[k]);
            }
            if holds_role(other, roles[k]) {
                lemma_role_same_files(other, built, roles[k]);
            }
        }
        assert(roles[0] == player_role());
        assert(roles[1] == runtime_role(flavor));
        assert(roles[2] == assembly_role());
        assert(roles[3] == metadata_role());
    }
}

/// A build holds the player's role when some shipped file of it is named
/// `UnityPlayer` or `fixture` once its extension is off, and only then.
pub proof fn lemma_player_role_by_file(built: Seq<Seq<char>>)
    ensures
        holds_role(built, player_role()) <==> exists|x: Seq<char>|
            #![trigger built.contains(x)]
            built.contains(x) && !contains_text(x, NOT_SHIPPED@) && (stem_of(last_part(x))
                == "UnityPlayer"@ || stem_of(last_part(x)) == "fixture"@),
{
    if holds_role(built, player_role()) {
        let i = choose|i: int| 0 <= i < built.len() && is_shipped(built[i]) && player_role()(
            #[trigger] file_stem(built[i]),
        );
        assert(built.contains(built[i]));
    }
    if exists|x: Seq<char>|
        #![trigger built.contains(x)]
        built.contains(x) && !contains_text(x, NOT_SHIPPED@) && (stem_of(last_part(x))
            == "UnityPlayer"@ || stem_of(last_part(x)) == "fixture"@) {
        let x = choose|x: Seq<char>|
            #![trigger built.contains(x)]
            built.contains(x) && !contains_text(x, NOT_SHIPPED@) && (stem_of(last_part(x))
                == "UnityPlayer"@ || stem_of(last_part(x)) == "fixture"@);
        let i = choose|i: int| 0 <= i < built.len() && built[i] == x;
        assert(file_stem(built[i]) == stem_of(last_part(x)));
    }
}

/// A complete build stays complete whatever other files it holds besides.
pub proof fn lemma_complete_build_grows(flavor: Flavor, built: Seq<Seq<char>>, extra: Seq<Seq<char>>)
    requires
        is_complete_build(flavor, built),
    ensures
        is_complete_build(flavor, built + extra),
{
    lemma_role_grows(built, extra, player_role());
    if flavor.mono() {
        lemma_role_grows(built, extra, runtime_role(flavor));
    } else {
        lemma_role_grows(built, extra, assembly_role());
        lemma_role_grows(built, extra, metadata_role());
    }
}

/// What `kept` holds: the items of `s` that `keep` accepts.
proof fn lemma_kept_contains(s: Seq<Seq<char>>, keep: spec_fn(Seq<char>) -> bool, x: Seq<char>)
    ensures
        kept(s, keep).contains(x) <==> s.contains(x) && keep(x),
    decreases s.len(),
{
    if s.len() > 0 {
        let init = s.drop_last();
        lemma_kept_contains(init, keep, x);
        if s.contains(x) && x != s.last() {
            let i = choose|i: int| 0 <= i < s.len() && s[i] == x;
            assert(init[i] == x);
        }
        if init.contains(x) {
            let i = choose|i: int| 0 <= i < init.len() && init[i] == x;
            assert(s[i] == x);
        }
        if keep(s.last()) {
            let k = kept(init, keep);
            if k.contains(x) {
                let i = choose|i: int| 0 <= i < k.len() && k[i] == x;
                assert(k.push(s.last())[i] == x);
            }
            if x == s.last() {
                assert(k.push(s.last())[k.len() as int] == x);
            }
            if k.push(s.last()).contains(x) && x != s.last() {
                let i = choose|i: int| 0 <= i < k.len() + 1 && k.push(s.last())[i] == x;
                assert(k[i] == x);
            }
        }
        if x == s.last() {
            assert(s[s.len() - 1] == x);
        }
    }
}

/// An asset holds every file that a shipped game holds, and besides them
/// only the symbols of the files the tests read; nothing that the build
/// does not hold.
pub proof fn lemma_asset_files_contents(flavor: Flavor, built: Seq<Seq<char>>, x: Seq<char>)
    ensures
        asset_files_of(flavor, built).contains(x) <==> built.contains(x) && (is_shipped(x)
            || is_wanted_symbols(flavor, last_part(x))),
{
    let a = kept(built, keep_shipped());
    let b = kept(built, keep_symbols(flavor));
    lemma_kept_contains(built, keep_shipped(), x);
    lemma_kept_contains(built, keep_symbols(flavor), x);
    if a.contains(x) {
        let i = choose|i: int| 0 <= i < a.len() && a[i] == x;
        assert((a + b)[i] == x);
    }
    if b.contains(x) {
        let i = choose|i: int| 0 <= i < b.len() && b[i] == x;
        assert((a + b)[a.len() + i] == x);
    }
    if (a + b).contains(x) {
        let i = choose|i: int| 0 <= i < a.len() + b.len() && (a + b)[i] == x;
        if i < a.len() {
            assert(a[i] == x);
        } else {
            assert(b[i - a.len()] == x);
        }
    }
}

} // verus!
