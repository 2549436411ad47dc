//! What a fixture is built for: a platform, a scripting backend with what
//! varies inside it, and which of them an editor version offers.

use vstd::prelude::*;
use crate::text::{chars_of, is_word, joined};
use crate::version::{before, is_before, major_minor, major_minor_of};

verus! {

/// A platform a player is built for.
#[derive(Clone, Copy, PartialEq, Eq, Debug, Structural)]
pub enum Platform {
    WinX64,
    WinX86,
    LinuxX64,
    Mac,
}

/// The scripting backend with what varies inside it. A Mono player ships
/// one of two runtimes: the legacy one, `mono.dll`, which is all there is
/// before 2017.1, or the newer one built with the Boehm collector,
/// `mono-2.0-bdwgc.dll`, which is all there is from 2019.1 on. An IL2CPP
/// player's C++ configuration changes its compiled code, which matters to
/// anyone matching signatures in it.
#[derive(Clone, Copy, PartialEq, Eq, Debug, Structural)]
pub enum Flavor {
    MonoLegacy,
    MonoBdwgc,
    Il2cppRelease,
    Il2cppMaster,
}

/// One variant of a version, named `<platform>-<flavor>`, such as
/// `win-x64-mono-bdwgc` or `linux-x64-il2cpp-release`. The build script
/// gets the name and reads the flavor back out of it.
#[derive(Clone, Copy, PartialEq, Eq, Debug, Structural)]
pub struct Variant {
    pub platform: Platform,
    pub flavor: Flavor,
}

/// The platforms in the order they are declared.
pub open spec fn all_platforms() -> Seq<Platform> {
    seq![Platform::WinX64, Platform::WinX86, Platform::LinuxX64, Platform::Mac]
}

/// The flavors in the order they are declared.
pub open spec fn all_flavors() -> Seq<Flavor> {
    seq![Flavor::MonoLegacy, Flavor::MonoBdwgc, Flavor::Il2cppRelease, Flavor::Il2cppMaster]
}

impl Platform {
    /// The command-line name of the platform.
    pub open spec fn name_view(self) -> Seq<char> {
        match self {
            Platform::WinX64 => "win-x64"@,
            Platform::WinX86 => "win-x86"@,
            Platform::LinuxX64 => "linux-x64"@,
            Platform::Mac => "mac"@,
        }
    }

    /// The editor's name for the build target at a version's major and minor.
    /// Mac's was renamed in 2017.3.
    pub open spec fn target_at(self, mm: (u32, u32)) -> Seq<char> {
        match self {
            Platform::WinX64 => "StandaloneWindows64"@,
            Platform::WinX86 => "StandaloneWindows"@,
            Platform::LinuxX64 => "StandaloneLinux64"@,
            Platform::Mac => if is_before(mm, 2017, 3) {
                "StandaloneOSXUniversal"@
            } else {
                "StandaloneOSX"@
            },
        }
    }

    /// The command-line name of the platform, such as `win-x64`.
    pub fn name(self) -> (n: &'static str)
        ensures
            n@ == self.name_view(),
    {
        match self {
            Platform::WinX64 => "win-x64",
            Platform::WinX86 => "win-x86",
            Platform::LinuxX64 => "linux-x64",
            Platform::Mac => "mac",
        }
    }

    /// Every platform, in the order they are declared.
    pub fn all() -> (v: Vec<Platform>)
        ensures
            v@ == all_platforms(),
    {
        vec![Platform::WinX64, Platform::WinX86, Platform::LinuxX64, Platform::Mac]
    }

    /// The editor's name for the build target. Mac's was renamed in 2017.3.
    pub fn target(self, version: &str) -> (t: &'static str)
        ensures
            t@ == self.target_at(major_minor_of(version@)),
    {
        match self {
            Platform::WinX64 => "StandaloneWindows64",
            Platform::WinX86 => "StandaloneWindows",
            Platform::LinuxX64 => "StandaloneLinux64",
            Platform::Mac => if before(major_minor(version), 2017, 3) {
                "StandaloneOSXUniversal"
            } else {
                "StandaloneOSX"
            },
        }
    }
}

/// Whether an editor at `mm` has the Mono runtime toggle, which it does
/// from 2017.1 through 2018.4.
pub open spec fn toggles_at(mm: (u32, u32)) -> bool {
    !is_before(mm, 2017, 1) && is_before(mm, 2019, 1)
}

impl Flavor {
    /// The command-line name of the flavor.
    pub open spec fn name_view(self) -> Seq<char> {
        match self {
            Flavor::MonoLegacy => "mono-legacy"@,
            Flavor::MonoBdwgc => "mono-bdwgc"@,
            Flavor::Il2cppRelease => "il2cpp-release"@,
            Flavor::Il2cppMaster => "il2cpp-master"@,
        }
    }

    /// The flavor runs on Mono.
    pub open spec fn mono(self) -> bool {
        self is MonoLegacy || self is MonoBdwgc
    }

    /// An editor at `mm` can build this flavor: the legacy runtime before
    /// 2019.1, the Boehm one from 2017.1, IL2CPP always.
    pub open spec fn offered_at(self, mm: (u32, u32)) -> bool {
        match self {
            Flavor::MonoLegacy => is_before(mm, 2019, 1),
            Flavor::MonoBdwgc => !is_before(mm, 2017, 1),
            _ => true,
        }
    }

    /// The command-line name of the flavor, such as `mono-bdwgc`.
    pub fn name(self) -> (n: &'static str)
        ensures
            n@ == self.name_view(),
    {
        match self {
            Flavor::MonoLegacy => "mono-legacy",
            Flavor::MonoBdwgc => "mono-bdwgc",
            Flavor::Il2cppRelease => "il2cpp-release",
            Flavor::Il2cppMaster => "il2cpp-master",
        }
    }

    /// Every flavor, in the order they are declared.
    pub fn all() -> (v: Vec<Flavor>)
        ensures
            v@ == all_flavors(),
    {
        vec![Flavor::MonoLegacy, Flavor::MonoBdwgc, Flavor::Il2cppRelease, Flavor::Il2cppMaster]
    }

    /// Whether the flavor runs on Mono.
    pub fn is_mono(self) -> (b: bool)
        ensures
            b == self.mono(),
    {
        match self {
            Flavor::MonoLegacy | Flavor::MonoBdwgc => true,
            _ => false,
        }
    }

    /// Whether the editor can build this flavor at all.
    pub fn offered_by(self, version: &str) -> (b: bool)
        ensures
            b == self.offered_at(major_minor_of(version@)),
    {
        match self {
            Flavor::MonoLegacy => before(major_minor(version), 2019, 1),
            Flavor::MonoBdwgc => !before(major_minor(version), 2017, 1),
            _ => true,
        }
    }

    /// Whether the editor has the Mono runtime toggle, which it does from
    /// 2017.1 through 2018.4.
    pub fn toggles_runtime(version: &str) -> (b: bool)
        ensures
            b == toggles_at(major_minor_of(version@)),
    {
        let mm = major_minor(version);
        !before(mm, 2017, 1) && before(mm, 2019, 1)
    }
}

impl Variant {
    /// The name of the variant: its platform's name, `-`, its flavor's name.
    pub open spec fn name_view(self) -> Seq<char> {
        self.platform.name_view() + "-"@ + self.flavor.name_view()
    }

    /// The name of the variant, such as `win-x64-mono-bdwgc`.
    pub fn name(&self) -> (n: String)
        ensures
            n@ == self.name_view(),
    {
        joined(&joined(self.platform.name(), "-"), self.flavor.name())
    }
}

/// The flavors of `s` that an editor at `mm` offers, in their order.
pub open spec fn offered_among(s: Seq<Flavor>, mm: (u32, u32)) -> Seq<Flavor>
    decreases s.len(),
{
    if s.len() == 0 {
        s
    } else if s.last().offered_at(mm) {
        offered_among(s.drop_last(), mm).push(s.last())
    } else {
        offered_among(s.drop_last(), mm)
    }
}

/// Every flavor an editor of `version` offers, in the order they are declared.
pub fn offered_flavors(version: &str) -> (v: Vec<Flavor>)
    ensures
        v@ == offered_among(all_flavors(), major_minor_of(version@)),
{
    let ghost mm = major_minor_of(version@);
    let all = Flavor::all();
    let mut v: Vec<Flavor> = Vec::new();
    for i in 0..all.len()
        invariant
            all@ == all_flavors(),
            v@ == offered_among(all@.take(i as int), mm),
            mm == major_minor_of(version@),
    {
        proof {
            assert(all@.take(i + 1).drop_last() =~= all@.take(i as int));
        }
        if all[i].offered_by(version) {
            v.push(all[i]);
        }
    }
    proof {
        assert(all@.take(all@.len() as int) =~= all@);
    }
    v
}

/// The place of the pair (`a`, `b`) in a grid with rows of `n`.
pub open spec fn grid_index(a: int, b: int, n: int) -> int {
    a * n + b
}

proof fn lemma_grid_below(a: int, b: int, i: int, j: int, n: int)
    requires
        0 <= a < i,
        0 <= b < n,
        0 <= j,
    ensures
        grid_index(a, b, n) < grid_index(i, 0, n) + j,
        0 <= grid_index(a, b, n),
{
    assert(a * n + b < i * n + j) by (nonlinear_arith)
        requires
            0 <= a < i,
            0 <= b < n,
            0 <= j,
    ;
    assert(0 <= a * n) by (nonlinear_arith)
        requires
            0 <= a,
            0 <= n,
    ;
}

/// Every pair of a platform and a flavor, platforms in the outer order.
pub fn variants(platforms: &Vec<Platform>, flavors: &Vec<Flavor>) -> (v: Vec<Variant>)
    requires
        platforms.len() * flavors.len() <= usize::MAX,
    ensures
        v.len() == platforms.len() * flavors.len(),
        forall|a: int, b: int|
            0 <= a < platforms.len() && 0 <= b < flavors.len() ==> v@[grid_index(
                a,
                b,
                flavors.len() as int,
            )] == (Variant { platform: platforms@[a], flavor: flavors@[b] }),
{
    let n = flavors.len();
    let mut v: Vec<Variant> = Vec::new();
    assert(0 * n == 0);
    for i in 0..platforms.len()
        invariant
            n == flavors.len(),
            platforms.len() * n <= usize::MAX,
            v.len() == i * n,
            forall|a: int, b: int|
                0 <= a < i && 0 <= b < n ==> v@[grid_index(a, b, n as int)] == (Variant {
                    platform: platforms@[a],
                    flavor: flavors@[b],
                }),
    {
        for j in 0..n
            invariant
                n == flavors.len(),
                i < platforms.len(),
                platforms.len() * n <= usize::MAX,
                v.len() == i * n + j,
                forall|a: int, b: int|
                    0 <= a < i && 0 <= b < n ==> v@[grid_index(a, b, n as int)] == (Variant {
                        platform: platforms@[a],
                        flavor: flavors@[b],
                    }),
                forall|b: int|
                    0 <= b < j ==> v@[grid_index(i as int, b, n as int)] == (Variant {
                        platform: platforms@[i as int],
                        flavor: flavors@[b],
                    }),
        {
            let ghost old_v = v@;
            proof {
                assert(i * n + j < platforms.len() * n) by (nonlinear_arith)
                    requires
                        i < platforms.len(),
                        j < n,
                ;
            }
            v.push(Variant { platform: platforms[i], flavor: flavors[j] });
            proof {
                assert forall|a: int, b: int| 0 <= a < i && 0 <= b < n implies v@[grid_index(a, b, n as int)]
                    == (Variant { platform: platforms@[a], flavor: flavors@[b] }) by {
                    lemma_grid_below(a, b, i as int, j as int, n as int);
                    assert(v@[grid_index(a, b, n as int)] == old_v[grid_index(a, b, n as int)]);
                }
                assert forall|b: int| 0 <= b < j + 1 implies v@[grid_index(i as int, b, n as int)]
                    == (Variant { platform: platforms@[i as int], flavor: flavors@[b] }) by {
                    if b < j {
                        assert(v@[grid_index(i as int, b, n as int)] == old_v[grid_index(i as int, b, n as int)]);
                    }
                }
            }
        }
        proof {
            assert forall|a: int, b: int| 0 <= a < i + 1 && 0 <= b < n implies v@[grid_index(a, b, n as int)]
                == (Variant { platform: platforms@[a], flavor: flavors@[b] }) by {}
            assert((i + 1) * n == i * n + n) by (nonlinear_arith);
        }
    }
    v
}

/// The Mac build target follows the version's major and minor compared
/// major first: every version before 2017.3 builds `StandaloneOSXUniversal`,
/// every later one, 2017.3, 2019.1 or 6000.0 alike, `StandaloneOSX`; the
/// other platforms' targets do not depend on the version.
pub proof fn lemma_mac_target_by_version(mm: (u32, u32))
    ensures
        mm.0 < 2017 || (mm.0 == 2017 && mm.1 < 3) ==> Platform::Mac.target_at(mm)
            == "StandaloneOSXUniversal"@,
        mm.0 > 2017 || (mm.0 == 2017 && mm.1 >= 3) ==> Platform::Mac.target_at(mm)
            == "StandaloneOSX"@,
        mm.0 > 2017 ==> Platform::Mac.target_at(mm) == "StandaloneOSX"@,
        Platform::WinX64.target_at(mm) == "StandaloneWindows64"@,
        Platform::WinX86.target_at(mm) == "StandaloneWindows"@,
        Platform::LinuxX64.target_at(mm) == "StandaloneLinux64"@,
{
}

/// Which flavors an editor offers, by its major and minor compared major
/// first: the legacy Mono runtime exactly before 2019.1 (so no editor from
/// 2019.1 on, such as 6000.0, offers it), the Boehm one exactly from
/// 2017.1 on, IL2CPP always; the runtime toggle exactly from 2017.1 up to,
/// not including, 2019.1.
pub proof fn lemma_offered_by_version(mm: (u32, u32))
    ensures
        Flavor::MonoLegacy.offered_at(mm) <==> (mm.0 < 2019 || (mm.0 == 2019 && mm.1 < 1)),
        mm.0 > 2019 ==> !Flavor::MonoLegacy.offered_at(mm),
        Flavor::MonoBdwgc.offered_at(mm) <==> (mm.0 > 2017 || (mm.0 == 2017 && mm.1 >= 1)),
        Flavor::Il2cppRelease.offered_at(mm),
        Flavor::Il2cppMaster.offered_at(mm),
        toggles_at(mm) <==> ((mm.0 > 2017 || (mm.0 == 2017 && mm.1 >= 1)) && (mm.0 < 2019 || (
        mm.0 == 2019 && mm.1 < 1))),
        mm.0 > 2019 ==> !toggles_at(mm),
        mm.0 < 2017 ==> !toggles_at(mm),
{
}

/// An editor offers exactly one Mono runtime outside the versions with the
/// runtime toggle, the legacy one before 2017.1 and the Boehm one from
/// 2019.1, and both where it toggles; it offers both IL2CPP configurations
/// at every version.
pub proof fn lemma_mono_runtimes(mm: (u32, u32))
    ensures
        toggles_at(mm) ==> Flavor::MonoLegacy.offered_at(mm) && Flavor::MonoBdwgc.offered_at(mm),
        !toggles_at(mm) ==> (Flavor::MonoLegacy.offered_at(mm) != Flavor::MonoBdwgc.offered_at(
            mm,
        )),
        is_before(mm, 2017, 1) ==> Flavor::MonoLegacy.offered_at(mm),
        !is_before(mm, 2019, 1) ==> Flavor::MonoBdwgc.offered_at(mm),
        Flavor::Il2cppRelease.offered_at(mm) && Flavor::Il2cppMaster.offered_at(mm),
{
}

/// A variant's name is that of one variant only, so the build script can
/// read the platform and the flavor back out of it.
pub proof fn lemma_variant_names_distinct(v1: Variant, v2: Variant)
    requires
        v1.name_view() == v2.name_view(),
    ensures
        v1 == v2,
{
    reveal_strlit("win-x64");
    reveal_strlit("win-x86");
    reveal_strlit("linux-x64");
    reveal_strlit("mac");
    reveal_strlit("-");
    reveal_strlit("mono-legacy");
    reveal_strlit("mono-bdwgc");
    reveal_strlit("il2cpp-release");
    reveal_strlit("il2cpp-master");
    let n1 = v1.name_view();
    let n2 = v2.name_view();
    let p1 = v1.platform.name_view();
    let p2 = v2.platform.name_view();
    if v1.platform != v2.platform {
        // Two platform names differ at their first or their sixth character,
        // which both names hold.
        if n1[0] == n2[0] {
            assert(n1[5] != n2[5]);
        }
        assert(false);
    }
    let k = p1.len() as int + 1;
    let f1 = v1.flavor.name_view();
    let f2 = v2.flavor.name_view();
    assert(n1.skip(k) =~= f1);
    assert(n2.skip(k) =~= f2);
    if v1.flavor != v2.flavor {
        if f1[0] == f2[0] {
            assert(f1[5] != f2[5] || f1[7] != f2[7]);
        }
        assert(false);
    }
}

/// The variant that `name` names, if any does.
pub open spec fn variant_named(name: Seq<char>) -> Option<Variant> {
    if exists|v: Variant| v.name_view() == name {
        Some(choose|v: Variant| v.name_view() == name)
    } else {
        None
    }
}

/// A variant's name reads back as that variant.
pub proof fn lemma_variant_name_reads_back(v: Variant)
    ensures
        variant_named(v.name_view()) == Some(v),
{
    let w = choose|w: Variant| w.name_view() == v.name_view();
    lemma_variant_names_distinct(w, v);
}

impl Variant {
    /// The variant named `name`, such as `win-x64-mono-bdwgc`; none when no
    /// variant has that name.
    pub fn from_name(name: &str) -> (r: Option<Variant>)
        ensures
            r == variant_named(name@),
    {
        let chars = chars_of(name);
        let platforms = Platform::all();
        let flavors = Flavor::all();
        for i in 0..platforms.len()
            invariant
                chars@ == name@,
                platforms@ == all_platforms(),
                flavors@ == all_flavors(),
                forall|v: Variant|
                    #![trigger v.name_view()]
                    (exists|a: int| 0 <= a < i && v.platform == platforms@[a]) ==> v.name_view()
                        != name@,
        {
            for j in 0..flavors.len()
                invariant
                    chars@ == name@,
                    i < platforms.len(),
                    platforms@ == all_platforms(),
                    flavors@ == all_flavors(),
                    forall|v: Variant|
                        #![trigger v.name_view()]
                        (exists|a: int| 0 <= a < i && v.platform == platforms@[a]) ==> v.name_view()
                            != name@,
                    forall|v: Variant|
                        #![trigger v.name_view()]
                        v.platform == platforms@[i as int] && (exists|b: int|
                            0 <= b < j && v.flavor == flavors@[b]) ==> v.name_view() != name@,
            {
                let v = Variant { platform: platforms[i], flavor: flavors[j] };
                if is_word(&chars, v.name().as_str()) {
                    proof {
                        lemma_variant_name_reads_back(v);
                    }
                    return Some(v);
                }
                assert(forall|w: Variant|
                    #![trigger w.name_view()]
                    w.platform == platforms@[i as int] && w.flavor == flavors@[j as int] ==> w == v);
            }
            assert forall|v: Variant| #![trigger v.name_view()] v.platform == platforms@[i as int]
                implies v.name_view() != name@ by {
                let b: int = match v.flavor {
                    Flavor::MonoLegacy => 0,
                    Flavor::MonoBdwgc => 1,
                    Flavor::Il2cppRelease => 2,
                    Flavor::Il2cppMaster => 3,
                };
                assert(v.flavor == flavors@[b]);
            }
        }
        assert forall|v: Variant| #![trigger v.name_view()] v.name_view() != name@ by {
            let a: int = match v.platform {
                Platform::WinX64 => 0,
                Platform::WinX86 => 1,
                Platform::LinuxX64 => 2,
                Platform::Mac => 3,
            };
            assert(v.platform == platforms@[a]);
        }
        None
    }
}

/// `i` is the first index of `s` whose variant's flavor an editor at `mm`
/// does not offer.
pub open spec fn first_unbuildable(s: Seq<Variant>, mm: (u32, u32), i: int) -> bool {
    &&& 0 <= i < s.len()
    &&& !s[i].flavor.offered_at(mm)
    &&& forall|j: int| 0 <= j < i ==> (#[trigger] s[j]).flavor.offered_at(mm)
}

/// The variants to build at `version`: those requested, in their order, or
/// every variant the editor offers when none is, platform by platform in
/// the order they are declared and flavor by flavor within each. A
/// requested variant whose flavor the editor does not offer is refused:
/// the first such one comes back as the error.
pub fn select_variants(requested: Vec<Variant>, version: &str) -> (r: Result<Vec<Variant>, Variant>)
    ensures
        requested@.len() == 0 ==> r is Ok && {
            let offered = offered_among(all_flavors(), major_minor_of(version@));
            let v = r->Ok_0;
            &&& v.len() == all_platforms().len() * offered.len()
            &&& forall|a: int, b: int|
                0 <= a < all_platforms().len() && 0 <= b < offered.len() ==> v@[grid_index(
                    a,
                    b,
                    offered.len() as int,
                )] == (Variant { platform: all_platforms()[a], flavor: offered[b] })
        },
        requested@.len() > 0 ==> (r is Ok <==> forall|j: int|
            0 <= j < requested@.len() ==> (#[trigger] requested@[j]).flavor.offered_at(
                major_minor_of(version@),
            )),
        requested@.len() > 0 && r is Ok ==> r->Ok_0@ == requested@,
        r matches Err(v) ==> exists|i: int|
            first_unbuildable(requested@, major_minor_of(version@), i) && requested@[i] == v,
{
    let ghost mm = major_minor_of(version@);
    if requested.len() == 0 {
        let platforms = Platform::all();
        let flavors = offered_flavors(version);
        proof {
            lemma_offered_among_len(all_flavors(), mm);
            assert(platforms.len() * flavors.len() <= 16) by (nonlinear_arith)
                requires
                    platforms.len() == 4,
                    flavors.len() <= 4,
            ;
        }
        return Ok(variants(&platforms, &flavors));
    }
    let mut i: usize = 0;
    while i < requested.len()
        invariant
            i <= requested.len(),
            mm == major_minor_of(version@),
            forall|j: int| 0 <= j < i ==> (#[trigger] requested@[j]).flavor.offered_at(mm),
        decreases requested.len() - i,
    {
        if !requested[i].flavor.offered_by(version) {
            let v = requested[i];
            proof {
                assert(first_unbuildable(requested@, mm, i as int));
            }
            return Err(v);
        }
        i = i + 1;
    }
    Ok(requested)
}

/// The offered flavors are no more than the flavors.
proof fn lemma_offered_among_len(s: Seq<Flavor>, mm: (u32, u32))
    ensures
        offered_among(s, mm).len() <= s.len(),
    decreases s.len(),
{
    if s.len() > 0 {
        lemma_offered_among_len(s.drop_last(), mm);
    }
}

} // verus!
