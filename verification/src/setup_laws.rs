//! What a survey reports of a machine.

use crate::setup;
use crate::setup::install;
use crate::setup::install::{EnsureAction, InstallPlan};
use crate::setup::{DependencyReport, ReportModel, World};
use crate::text;
use vstd::prelude::*;

verus! {

/// The report of a survey that went through.
pub open spec fn is_reported(
    os_name: Seq<char>,
    windows: bool,
    unix: bool,
    environment: Seq<Seq<char>>,
    w: World,
    r: ReportModel,
) -> bool {
    r == setup::fresh_survey(os_name, windows, unix, environment).surveyed(w).report
}

/// The report names the system, and the compiler of the language by what it prints, without white
/// space around it.
pub proof fn report_names_system_and_compiler(
    os_name: Seq<char>,
    windows: bool,
    unix: bool,
    environment: Seq<Seq<char>>,
    w: World,
    r: ReportModel,
)
    requires
        environment.len() + setup::direct_paths().len() <= usize::MAX,
        is_reported(os_name, windows, unix, environment, w, r),
    ensures
        r.os_name == os_name,
        r.is_windows <==> windows || os_name == "windows"@,
        r.is_linux <==> unix || os_name == "linux"@,
        r.rust_version == match (w.run)("rustc"@, seq!["--version"@]) {
            Some(out) => Some(text::trim(out)),
            None => None,
        },
{
    setup::survey_reports(os_name, windows, unix, environment, w);
}

/// A GPU is reported exactly where the driver's first line has three fields or more between
/// commas: its name, its driver's version and its capability, whose points are left out, each
/// without white space around it.
pub proof fn report_names_the_first_gpu(
    os_name: Seq<char>,
    windows: bool,
    unix: bool,
    environment: Seq<Seq<char>>,
    w: World,
    r: ReportModel,
)
    requires
        environment.len() + setup::direct_paths().len() <= usize::MAX,
        is_reported(os_name, windows, unix, environment, w, r),
    ensures
        ({
            let out = (w.run)(
                "nvidia-smi"@,
                seq![
                    "--query-gpu=gpu_name,driver_version,compute_cap"@,
                    "--format=csv,noheader,nounits"@,
                ],
            );
            let lines = text::lines(out->Some_0);
            let fields = text::split(lines[0], ',');
            let known = out is Some && lines.len() > 0 && fields.len() >= 3;
            &&& r.gpu_detected <==> known
            &&& known ==> {
                &&& r.gpu_name == Some(text::trim(fields[0]))
                &&& r.driver_version == Some(text::trim(fields[1]))
                &&& r.compute_cap == Some(
                    "sm_"@ + text::trim(fields[2]).filter(|c: char| c != '.'),
                )
            }
            &&& !known ==> r.gpu_name is None && r.driver_version is None && r.compute_cap is None
        }),
{
    setup::survey_reports(os_name, windows, unix, environment, w);
    let out = (w.run)("nvidia-smi"@, setup::gpu_args());
    assert(setup::gpu_args() =~= seq![
        "--query-gpu=gpu_name,driver_version,compute_cap"@,
        "--format=csv,noheader,nounits"@,
    ]);
    let fields = text::split(text::lines(out->Some_0)[0], ',');
    if fields.len() >= 3 {
        points_left_out(text::trim(fields[2]));
    }
}

proof fn points_left_out(s: Seq<char>)
    ensures
        setup::without_points(s) == s.filter(|c: char| c != '.'),
    decreases s.len(),
{
    reveal(Seq::filter);
    if s.len() > 0 {
        points_left_out(s.drop_last());
    }
}

/// The places where `nvcc` is looked for: those that the environment names, those where it is
/// usually installed, and what each of two lookup programs prints first.
pub open spec fn places(environment: Seq<Seq<char>>, w: World) -> Seq<Seq<char>> {
    environment + setup::direct_paths() + setup::looked_up(false, w) + setup::looked_up(true, w)
}

/// The toolkit is reported exactly where `nvcc` is at one of the places, and then at the first of
/// them where it is, with the first line of what it prints that has `release` or `V` in it.
pub proof fn report_names_the_first_toolkit(
    os_name: Seq<char>,
    windows: bool,
    unix: bool,
    environment: Seq<Seq<char>>,
    w: World,
    r: ReportModel,
)
    requires
        environment.len() + setup::direct_paths().len() <= usize::MAX,
        is_reported(os_name, windows, unix, environment, w, r),
    ensures
        ({
            let all = places(environment, w);
            &&& r.cuda_available <==> r.nvcc_path is Some
            &&& r.cuda_available <==> exists|i: int|
                0 <= i < all.len() && (w.exists)(#[trigger] all[i])
            &&& r.nvcc_path matches Some(p) ==> exists|i: int|
                0 <= i < all.len() && #[trigger] all[i] == p && (w.exists)(p) && forall|j: int|
                    0 <= j < i ==> !(w.exists)(#[trigger] all[j])
            &&& r.nvcc_path matches Some(p) ==> match (w.run)(p, seq!["--version"@]) {
                Some(out) => is_first_version(text::lines(out), r.nvcc_version),
                None => r.nvcc_version is None,
            }
        }),
{
    setup::survey_reports(os_name, windows, unix, environment, w);
    let all = places(environment, w);
    first_of(all, w);
    if let Some(p) = r.nvcc_path {
        if let Some(out) = (w.run)(p, seq!["--version"@]) {
            version_of(text::lines(out));
        }
    }
}

/// A version is told at that place of a line.
pub open spec fn told_at(line: Seq<char>, i: int) -> bool {
    ||| 0 <= i && i + 7 <= line.len() && line.subrange(i, i + 7) == "release"@
    ||| 0 <= i < line.len() && line[i] == 'V'
}

/// A line that tells a version.
pub open spec fn tells_version(line: Seq<char>) -> bool {
    exists|i: int| #[trigger] told_at(line, i)
}

/// The version is the first line that tells one, without white space around it.
pub open spec fn is_first_version(lines: Seq<Seq<char>>, v: Option<Seq<char>>) -> bool {
    match v {
        Some(t) => exists|k: int|
            0 <= k < lines.len() && t == text::trim(#[trigger] lines[k]) && tells_version(lines[k])
                && forall|j: int| 0 <= j < k ==> !tells_version(#[trigger] lines[j]),
        None => forall|j: int| 0 <= j < lines.len() ==> !tells_version(#[trigger] lines[j]),
    }
}

proof fn version_line(line: Seq<char>)
    ensures
        setup::is_version_line(line) == tells_version(line),
{
    reveal_strlit("release");
    reveal_strlit("V");
    assert("release"@.len() == 7);
    if text::contains(line, "release"@) {
        let i = choose|i: int| #[trigger] text::occurs_at(line, "release"@, i);
        assert(told_at(line, i));
    }
    if text::contains(line, "V"@) {
        let i = choose|i: int| #[trigger] text::occurs_at(line, "V"@, i);
        assert(line.subrange(i, i + 1)[0] == line[i]);
        assert(told_at(line, i));
    }
    if tells_version(line) {
        let i = choose|i: int| #[trigger] told_at(line, i);
        if 0 <= i < line.len() && line[i] == 'V' {
            assert(line.subrange(i, i + 1) =~= "V"@);
            assert(text::occurs_at(line, "V"@, i));
        } else {
            assert(text::occurs_at(line, "release"@, i));
        }
    }
}

proof fn version_of(lines: Seq<Seq<char>>)
    ensures
        is_first_version(lines, setup::version_in(lines)),
    decreases lines.len(),
{
    let v = setup::version_in(lines);
    if lines.len() > 0 {
        version_line(lines[0]);
        let rest = lines.drop_first();
        if !tells_version(lines[0]) {
            version_of(rest);
            match v {
                Some(t) => {
                    let k = choose|k: int|
                        0 <= k < rest.len() && t == text::trim(#[trigger] rest[k])
                            && tells_version(rest[k]) && forall|j: int|
                            0 <= j < k ==> !tells_version(#[trigger] rest[j]);
                    assert(lines[k + 1] == rest[k]);
                    assert forall|j: int| 0 <= j < k + 1 implies !tells_version(
                        #[trigger] lines[j],
                    ) by {
                        if j > 0 {
                            assert(lines[j] == rest[j - 1]);
                        }
                    }
                },
                None => {
                    assert forall|j: int| 0 <= j < lines.len() implies !tells_version(
                        #[trigger] lines[j],
                    ) by {
                        if j > 0 {
                            assert(lines[j] == rest[j - 1]);
                        }
                    }
                },
            }
        }
    }
}

proof fn first_of(all: Seq<Seq<char>>, w: World)
    ensures
        setup::first_existing(all, w) is Some <==> exists|i: int|
            0 <= i < all.len() && (w.exists)(#[trigger] all[i]),
        setup::first_existing(all, w) matches Some(p) ==> exists|i: int|
            0 <= i < all.len() && #[trigger] all[i] == p && (w.exists)(p) && forall|j: int|
                0 <= j < i ==> !(w.exists)(#[trigger] all[j]),
    decreases all.len(),
{
    if all.len() > 0 {
        let rest = all.drop_first();
        first_of(rest, w);
        if (w.exists)(all[0]) {
            assert(all[0] == all[0]);
        } else {
            if exists|i: int| 0 <= i < all.len() && (w.exists)(#[trigger] all[i]) {
                let i = choose|i: int| 0 <= i < all.len() && (w.exists)(#[trigger] all[i]);
                assert(rest[i - 1] == all[i]);
            }
            if let Some(p) = setup::first_existing(all, w) {
                let i = choose|i: int|
                    0 <= i < rest.len() && #[trigger] rest[i] == p && (w.exists)(p) && forall|
                        j: int,
                    |
                        0 <= j < i ==> !(w.exists)(#[trigger] rest[j]);
                assert(all[i + 1] == p);
                assert forall|j: int| 0 <= j < i + 1 implies !(w.exists)(#[trigger] all[j]) by {
                    if j > 0 {
                        assert(all[j] == rest[j - 1]);
                    }
                }
            }
        }
    }
}

/// A host compiler is reported on Windows where `cl` is known or Visual Studio is at one of its
/// usual places, and elsewhere where one of the usual compilers can be run.
pub proof fn report_finds_a_host_compiler(
    os_name: Seq<char>,
    windows: bool,
    unix: bool,
    environment: Seq<Seq<char>>,
    w: World,
    r: ReportModel,
)
    requires
        environment.len() + setup::direct_paths().len() <= usize::MAX,
        is_reported(os_name, windows, unix, environment, w, r),
    ensures
        ({
            let cl = (w.run)("where"@, seq!["cl"@]);
            let ccs = setup::compilers();
            let studios = setup::studio_paths();
            &&& r.is_windows ==> (r.host_compiler_available <==> (cl is Some && cl->Some_0.len()
                > 0) || exists|i: int| 0 <= i < studios.len() && (w.exists)(#[trigger] studios[i]))
            &&& !r.is_windows ==> (r.host_compiler_available <==> exists|i: int|
                0 <= i < ccs.len() && (w.run)(#[trigger] ccs[i], seq!["--version"@]) is Some)
        }),
{
    setup::survey_reports(os_name, windows, unix, environment, w);
    first_of(setup::studio_paths(), w);
    first_run(setup::compilers(), w);
}

proof fn first_run(ccs: Seq<Seq<char>>, w: World)
    ensures
        setup::first_version(ccs, w) is Some <==> exists|i: int|
            0 <= i < ccs.len() && (w.run)(#[trigger] ccs[i], seq!["--version"@]) is Some,
    decreases ccs.len(),
{
    if ccs.len() > 0 {
        let rest = ccs.drop_first();
        first_run(rest, w);
        if (w.run)(ccs[0], seq!["--version"@]) is Some {
            assert(ccs[0] == ccs[0]);
        } else {
            if exists|i: int|
                0 <= i < ccs.len() && (w.run)(#[trigger] ccs[i], seq!["--version"@]) is Some {
                let i = choose|i: int|
                    0 <= i < ccs.len() && (w.run)(#[trigger] ccs[i], seq!["--version"@]) is Some;
                assert(rest[i - 1] == ccs[i]);
            }
            if setup::first_version(rest, w) is Some {
                let i = choose|i: int|
                    0 <= i < rest.len() && (w.run)(#[trigger] rest[i], seq!["--version"@]) is Some;
                assert(ccs[i + 1] == rest[i]);
            }
        }
    }
}

/// Only a GPU without a toolkit calls for anything: an installation where these run unasked, else
/// a warning.
pub proof fn only_a_gpu_without_a_toolkit_calls(
    report: &DependencyReport,
    auto_install: bool,
    r: EnsureAction,
)
    requires
        call_ensures(install::ensure_action, (report, auto_install), r),
    ensures
        r == EnsureAction::Keep <==> !report.gpu_detected || report.cuda_available,
        r == EnsureAction::Install ==> auto_install,
        r == EnsureAction::Warn ==> !auto_install,
{
}

/// Nothing is installed where there is a toolkit, and what is installed is for the system that it
/// is installed on.
pub proof fn installation_goes_by_the_system(report: &DependencyReport, r: InstallPlan)
    requires
        call_ensures(install::install_plan, (report,), r),
    ensures
        r == InstallPlan::AlreadyInstalled <==> report.cuda_available,
        r == InstallPlan::Windows ==> report.is_windows,
        r == InstallPlan::Linux ==> report.is_linux && !report.is_windows,
        r == InstallPlan::Unsupported <==> !report.cuda_available && !report.is_windows
            && !report.is_linux,
{
}

} // verus!
