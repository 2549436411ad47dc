//! The editor runs that make an asset: their arguments, and the names of
//! the logs and assets they leave.

use vstd::prelude::*;
use crate::text::{joined, texts};
use crate::variant::{Flavor, Variant, toggles_at};
use crate::version::major_minor_of;

verus! {

/// What one run of the editor does. All but the first go through the build
/// script's `-executeMethod` entry points.
#[derive(Debug)]
pub enum Run {
    CreateProject,
    Prepare,
    SetRuntime(Variant),
    Build { variant: Variant, out: String },
}

/// The editor arguments of a run, for the project at `project` and an
/// editor of `version`.
pub open spec fn run_args_of(run: Run, project: Seq<char>, version: Seq<char>) -> Seq<Seq<char>> {
    match run {
        Run::CreateProject => seq!["-createProject"@, project],
        Run::Prepare => seq!["-projectPath"@, project, "-executeMethod"@, "FixtureBuild.Prepare"@],
        Run::SetRuntime(variant) => seq![
            "-projectPath"@,
            project,
            "-executeMethod"@,
            "FixtureBuild.SetRuntime"@,
            "-fixtureVariant"@,
            variant.name_view(),
        ],
        Run::Build { variant, out } => seq![
            "-projectPath"@,
            project,
            "-executeMethod"@,
            "FixtureBuild.Build"@,
            "-buildTarget"@,
            variant.platform.target_at(major_minor_of(version)),
            "-fixtureOut"@,
            out@,
            "-fixtureVariant"@,
            variant.name_view(),
        ],
    }
}

/// The string of a literal.
fn owned(s: &str) -> (o: String)
    ensures
        o@ == s@,
{
    String::from_str(s)
}

impl Run {
    /// The editor arguments of this run, for the project at `project` and
    /// an editor of `version`.
    pub fn args(&self, project: &str, version: &str) -> (args: Vec<String>)
        ensures
            texts(args@) == run_args_of(*self, project@, version@),
    {
        let mut args: Vec<String> = Vec::new();
        match self {
            Run::CreateProject => {
                args.push(owned("-createProject"));
                args.push(owned(project));
                assert(texts(args@) =~= run_args_of(*self, project@, version@));
                return args;
            },
            _ => {},
        }
        args.push(owned("-projectPath"));
        args.push(owned(project));
        args.push(owned("-executeMethod"));
        match self {
            Run::CreateProject => {},
            Run::Prepare => {
                args.push(owned("FixtureBuild.Prepare"));
            },
            Run::SetRuntime(variant) => {
                args.push(owned("FixtureBuild.SetRuntime"));
                args.push(owned("-fixtureVariant"));
                args.push(variant.name());
            },
            Run::Build { variant, out } => {
                args.push(owned("FixtureBuild.Build"));
                args.push(owned("-buildTarget"));
                args.push(owned(variant.platform.target(version)));
                args.push(owned("-fixtureOut"));
                args.push(out.clone());
                args.push(owned("-fixtureVariant"));
                args.push(variant.name());
            },
        }
        assert(texts(args@) =~= run_args_of(*self, project@, version@));
        args
    }
}

/// The arguments every editor run starts with: no window, no graphics,
/// quit when done, and the log kept at `log`; then the run's own.
pub open spec fn editor_args_of(log: Seq<char>, args: Seq<Seq<char>>) -> Seq<Seq<char>> {
    seq!["-batchmode"@, "-nographics"@, "-quit"@, "-logFile"@, log] + args
}

/// The full argument list of an editor run whose log is kept at `log`.
pub fn editor_args(log: &str, args: &Vec<String>) -> (all: Vec<String>)
    ensures
        texts(all@) == editor_args_of(log@, texts(args@)),
{
    let mut all: Vec<String> = Vec::new();
    all.push(owned("-batchmode"));
    all.push(owned("-nographics"));
    all.push(owned("-quit"));
    all.push(owned("-logFile"));
    all.push(owned(log));
    let ghost head = texts(all@);
    for i in 0..args.len()
        invariant
            texts(all@) == head + texts(args@).take(i as int),
    {
        let ghost before = texts(all@);
        all.push(args[i].clone());
        assert(texts(all@) =~= before.push(texts(args@)[i as int]));
        assert(texts(args@).take(i + 1) =~= texts(args@).take(i as int).push(texts(args@)[i as int]));
    }
    assert(texts(args@).take(args.len() as int) =~= texts(args@));
    assert(head =~= seq!["-batchmode"@, "-nographics"@, "-quit"@, "-logFile"@, log@]);
    all
}

/// How a fresh project is set up: the tool's `assets` directory is copied
/// into the project's `Assets`, and the editor runs the preparation with
/// its log kept as `prepare.log` in the workspace.
pub struct Preparation {
    /// The directory under the tool whose tree is copied.
    pub assets_from: String,
    /// The directory under the project that receives it.
    pub assets_to: String,
    /// The name of the run's log in the workspace.
    pub log: String,
    /// The editor arguments of the run.
    pub args: Vec<String>,
}

/// Sets up a fresh project: copies in the shipped scenes, scripts and meta
/// files, then has the editor turn on text serialization and turn off audio.
pub fn prepare(project: &str, version: &str) -> (p: Preparation)
    ensures
        p.assets_from@ == "assets"@,
        p.assets_to@ == "Assets"@,
        p.log@ == "prepare.log"@,
        texts(p.args@) == run_args_of(Run::Prepare, project@, version@),
{
    Preparation {
        assets_from: owned("assets"),
        assets_to: owned("Assets"),
        log: owned("prepare.log"),
        args: Run::Prepare.args(project, version),
    }
}

/// A Mono variant at a version whose editor has the runtime toggle gets a
/// run of its own, to switch the runtime, before its build: the switch
/// takes effect in a fresh editor session.
pub fn needs_runtime_switch(flavor: Flavor, version: &str) -> (b: bool)
    ensures
        b == (flavor.mono() && toggles_at(major_minor_of(version@))),
{
    flavor.is_mono() && Flavor::toggles_runtime(version)
}

/// The name of the runtime switch's log, such as `runtime-mono-bdwgc.log`.
pub fn runtime_log_name(flavor: Flavor) -> (n: String)
    ensures
        n@ == "runtime-"@ + flavor.name_view() + ".log"@,
{
    joined(&joined("runtime-", flavor.name()), ".log")
}

/// `unity-<version>-<name>` followed by `ext`.
fn unity_name(version: &str, name: &str, ext: &str) -> (n: String)
    ensures
        n@ == "unity-"@ + version@ + "-"@ + name@ + ext@,
{
    joined(&joined(&joined(&joined("unity-", version), "-"), name), ext)
}

/// The build log of the variant named `name`: `unity-<version>-<name>.log`.
pub fn build_log_name(version: &str, name: &str) -> (n: String)
    ensures
        n@ == "unity-"@ + version@ + "-"@ + name@ + ".log"@,
{
    unity_name(version, name, ".log")
}

/// The asset of the variant named `name`: `unity-<version>-<name>.zip`.
pub fn asset_file_name(version: &str, name: &str) -> (n: String)
    ensures
        n@ == "unity-"@ + version@ + "-"@ + name@ + ".zip"@,
{
    unity_name(version, name, ".zip")
}

/// Every run but the one that creates the project opens the project and
/// goes through one of the build script's `-executeMethod` entry points,
/// and every run names the project.
pub proof fn lemma_runs_open_the_project(run: Run, project: Seq<char>, version: Seq<char>)
    ensures
        run_args_of(run, project, version)[1] == project,
        !(run is CreateProject) ==> run_args_of(run, project, version).take(3) == seq![
            "-projectPath"@,
            project,
            "-executeMethod"@,
        ],
{
    if !(run is CreateProject) {
        assert(run_args_of(run, project, version).take(3) =~= seq![
            "-projectPath"@,
            project,
            "-executeMethod"@,
        ]);
    }
}

} // verus!
