use trm_omega::setup::install::{
    ensure_action, install_plan, installed_lines, unsupported_message, EnsureAction, InstallPlan,
    LinuxInstall, Outcome, Step, WindowsInstall,
};
use trm_omega::setup::{
    environment_paths, report_lines, DependencyReport, NvccSearch, Question, Survey,
};

/// A machine: what programs print, and which paths exist.
struct Machine {
    prints: Vec<(&'static str, &'static str)>,
    paths: Vec<&'static str>,
}

impl Machine {
    fn run(&self, program: &str) -> Option<&'static str> {
        self.prints.iter().find(|(p, _)| *p == program).map(|(_, out)| *out)
    }

    fn survey(&self, os: &str, environment: Vec<String>) -> DependencyReport {
        let mut s = Survey::start(os.to_string(), os == "windows", os == "linux", environment);
        loop {
            match s.question() {
                Question::Run { program, args: _ } => s.ran(self.run(&program)),
                Question::Exists(p) => s.looked(self.paths.contains(&p.as_str())),
                Question::Finished => return s.report,
            }
        }
    }
}

fn linux() -> Machine {
    Machine {
        prints: vec![
            ("rustc", "rustc 1.80.0\n"),
            ("nvidia-smi", "NVIDIA GeForce GTX 1660, 560.94, 7.5\nsecond, line, 8.0\n"),
            ("/usr/bin/nvcc", "nvcc: a compiler driver\n  Cuda compilation tools, release 12.6\nBuild V12.6\n"),
            ("clang", "clang version 17\nTarget: x\n"),
        ],
        paths: vec!["/usr/bin/nvcc"],
    }
}

#[test]
fn test_dependency_check_runs_and_populates_os() {
    let report = linux().survey("linux", vec![]);
    assert!(!report.os_name.is_empty(), "OS name should be detected");
    assert!(report.is_linux || report.is_windows, "Target platform should be identified");
    assert!(report.rust_version.is_some(), "Rust toolchain should be detected");
}

#[test]
fn test_print_report_does_not_panic() {
    let report = linux().survey("linux", vec![]);
    for line in report_lines(&report) {
        println!("{line}");
    }
}

#[test]
fn test_dependency_report_readiness_logic() {
    let mut report = DependencyReport::default();
    assert!(!report.is_fully_cuda_ready());

    report.gpu_detected = true;
    report.cuda_available = true;
    report.host_compiler_available = true;
    assert!(report.is_fully_cuda_ready());

    report.cuda_available = false;
    assert!(!report.is_fully_cuda_ready());
}

#[test]
fn a_survey_reports_what_the_machine_says() {
    let r = linux().survey("linux", vec![]);
    assert_eq!(r.rust_version.as_deref(), Some("rustc 1.80.0"));
    assert_eq!(r.gpu_name.as_deref(), Some("NVIDIA GeForce GTX 1660"));
    assert_eq!(r.driver_version.as_deref(), Some("560.94"));
    assert_eq!(r.compute_cap.as_deref(), Some("sm_75"));
    assert_eq!(r.nvcc_path.as_deref(), Some("/usr/bin/nvcc"));
    assert_eq!(r.nvcc_version.as_deref(), Some("Cuda compilation tools, release 12.6"));
    assert_eq!(r.host_compiler_info.as_deref(), Some("clang version 17"));
    assert!(r.is_fully_cuda_ready());
}

#[test]
fn an_empty_machine_has_nothing() {
    let m = Machine { prints: vec![], paths: vec![] };
    let r = m.survey("linux", vec![]);
    assert!(!r.gpu_detected && !r.cuda_available && !r.host_compiler_available);
    assert!(r.rust_version.is_none() && r.nvcc_path.is_none());
    let r = m.survey("windows", vec![]);
    assert!(!r.host_compiler_available);
}

#[test]
fn the_environment_comes_before_the_usual_paths() {
    let m = Machine { prints: vec![], paths: vec!["/cuda/bin/nvcc", "/usr/bin/nvcc"] };
    let env = vec!["/none/bin/nvcc".to_string(), "/cuda/bin/nvcc".to_string()];
    let r = m.survey("linux", env);
    assert_eq!(r.nvcc_path.as_deref(), Some("/cuda/bin/nvcc"));
    assert!(r.nvcc_version.is_none());
}

#[test]
fn lookup_programs_come_last() {
    let mut s = NvccSearch::start(vec![]);
    loop {
        match s.question() {
            Question::Run { program, args } => {
                assert_eq!(args, vec!["nvcc".to_string()]);
                s.ran(if program == "where" { Some(" /odd/nvcc \nother\n") } else { Some("") })
            }
            Question::Exists(p) => s.looked(p == "/odd/nvcc"),
            Question::Finished => break,
        }
    }
    assert_eq!(s.found().as_deref(), Some("/odd/nvcc"));
}

#[test]
fn windows_looks_for_visual_studio() {
    let m = Machine { prints: vec![("where", "C:\\cl.exe\n")], paths: vec![] };
    let r = m.survey("windows", vec![]);
    assert_eq!(r.host_compiler_info.as_deref(), Some("MSVC cl.exe detected"));
    let place = "C:\\Program Files\\Microsoft Visual Studio\\2022\\BuildTools\\VC\\Tools\\MSVC";
    let m = Machine { prints: vec![("where", "")], paths: vec![place] };
    let r = m.survey("windows", vec![]);
    assert_eq!(r.host_compiler_info, Some(format!("MSVC found at {place}")));
}

#[test]
fn a_short_driver_line_is_no_gpu() {
    let m = Machine { prints: vec![("nvidia-smi", "no devices\n")], paths: vec![] };
    assert!(!m.survey("linux", vec![]).gpu_detected);
}

#[test]
fn the_report_is_printed_line_by_line() {
    let lines = report_lines(&linux().survey("linux", vec![]));
    assert_eq!(lines[3], "Operating System: linux");
    assert_eq!(lines[4], "Rust Toolchain:   rustc 1.80.0");
    assert_eq!(lines[5], "NVIDIA GPU:       [OK] NVIDIA GeForce GTX 1660");
    assert_eq!(lines[8], "CUDA Toolkit:     [OK] /usr/bin/nvcc");
    assert_eq!(
        lines[12],
        "STATUS: ALL DEPENDENCIES SATISFIED FOR FULL HARDWARE ACCELERATION"
    );
    assert_eq!(lines.len(), 14);
    let lines = report_lines(&DependencyReport::default());
    assert_eq!(lines[4], "Rust Toolchain:   NOT FOUND");
    assert!(lines.iter().any(|l| l == "STATUS: RUNNING IN CPU FALLBACK MODE."));
    let mut half = DependencyReport::default();
    half.gpu_detected = true;
    let lines = report_lines(&half);
    assert!(lines.iter().any(|l| l == "STATUS: NVIDIA GPU PRESENT BUT CUDA TOOLKIT IS MISSING."));
    assert!(lines.iter().any(|l| l == "Compute Arch:     sm_75"));
}

fn report(windows: bool, linux: bool, cuda: bool, gpu: bool) -> DependencyReport {
    let mut r = DependencyReport::default();
    r.is_windows = windows;
    r.is_linux = linux;
    r.cuda_available = cuda;
    r.gpu_detected = gpu;
    r
}

#[test]
fn the_plan_follows_the_system() {
    assert_eq!(install_plan(&report(true, false, true, true)), InstallPlan::AlreadyInstalled);
    assert_eq!(install_plan(&report(true, false, false, true)), InstallPlan::Windows);
    assert_eq!(install_plan(&report(false, true, false, true)), InstallPlan::Linux);
    assert_eq!(install_plan(&report(false, false, false, true)), InstallPlan::Unsupported);
    assert_eq!(
        unsupported_message("plan9"),
        "Unsupported platform for automated zero-HITL installation: plan9"
    );
}

#[test]
fn only_a_gpu_without_a_toolkit_calls_for_action() {
    assert_eq!(ensure_action(&report(false, true, false, true), true), EnsureAction::Install);
    assert_eq!(ensure_action(&report(false, true, false, true), false), EnsureAction::Warn);
    assert_eq!(ensure_action(&report(false, true, false, false), true), EnsureAction::Keep);
    assert_eq!(ensure_action(&report(false, true, true, true), true), EnsureAction::Keep);
}

#[test]
fn an_installation_closes_with_where_it_ended() {
    let mut r = report(false, true, true, true);
    r.nvcc_path = Some("/opt/nvcc".to_string());
    assert_eq!(installed_lines(&r)[1], "Installed at: /opt/nvcc");
    assert_eq!(installed_lines(&report(false, true, false, true)).len(), 1);
}

fn linux_runs(silent: bool, there: &[&str], good: &str) -> (Vec<String>, Vec<String>) {
    let mut i = LinuxInstall::start(silent);
    let (mut said, mut ran) = (vec![], vec![]);
    loop {
        match i.step() {
            Step::Say(s) => {
                said.push(s);
                i.said();
            }
            Step::Exists(p) => i.looked(there.contains(&p.as_str())),
            Step::Run { program, args, noninteractive } => {
                assert_eq!(noninteractive, program == "apt-get");
                ran.push(format!("{program} {}", args[0]));
                i.ran(if program == good { Outcome::Succeeded } else { Outcome::Failed });
            }
            Step::Done => return (said, ran),
            Step::Failed(_) => unreachable!(),
        }
    }
}

#[test]
fn linux_tries_the_managers_that_are_there_until_one_succeeds() {
    let all = ["/usr/bin/apt-get", "/usr/bin/dnf", "/usr/bin/pacman"];
    let (said, ran) = linux_runs(false, &all, "dnf");
    assert_eq!(said.len(), 3);
    assert_eq!(ran, vec!["apt-get update", "apt-get install", "dnf install"]);
    let (said, ran) = linux_runs(true, &all, "none");
    assert!(said.is_empty());
    assert_eq!(ran, vec!["apt-get update", "apt-get install", "dnf install", "pacman -Sy"]);
    let (_, ran) = linux_runs(true, &[], "apt-get");
    assert!(ran.is_empty());
}

fn windows_runs(silent: bool, outcomes: &[Outcome], there: bool) -> (Vec<String>, Option<String>) {
    let mut i = WindowsInstall::start(silent, "C:\\t\\i.exe".to_string());
    let mut ran: Vec<String> = vec![];
    loop {
        match i.step() {
            Step::Say(_) => {
                assert!(!silent);
                i.said();
            }
            Step::Exists(p) => {
                assert_eq!(p, "C:\\t\\i.exe");
                i.looked(there);
            }
            Step::Run { program, args, .. } => {
                if program == "powershell" {
                    assert!(args[4].ends_with("-OutFile 'C:\\t\\i.exe'"));
                }
                let o = outcomes[ran.len()];
                ran.push(program);
                i.ran(o);
            }
            Step::Done => return (ran, None),
            Step::Failed(why) => return (ran, Some(why)),
        }
    }
}

#[test]
fn windows_downloads_an_installer_where_winget_does_not_help() {
    let (ran, why) = windows_runs(false, &[Outcome::Succeeded], false);
    assert_eq!((ran.len(), why), (1, None));
    let (ran, why) =
        windows_runs(true, &[Outcome::NotStarted, Outcome::Succeeded, Outcome::Succeeded], true);
    assert_eq!(ran, vec!["winget", "powershell", "C:\\t\\i.exe"]);
    assert_eq!(why, None);
    let (ran, why) = windows_runs(false, &[Outcome::Failed, Outcome::NotStarted], true);
    assert_eq!(ran.len(), 2);
    assert_eq!(why.as_deref(), Some("Failed to run PowerShell download"));
    let (_, why) =
        windows_runs(false, &[Outcome::Failed, Outcome::Succeeded, Outcome::NotStarted], true);
    assert_eq!(why.as_deref(), Some("Failed to execute silent CUDA installer"));
    let (ran, why) = windows_runs(false, &[Outcome::Failed, Outcome::Succeeded], false);
    assert_eq!((ran.len(), why), (2, None));
}

fn join(dir: &str, name: &str) -> String {
    std::path::Path::new(dir).join(name).to_string_lossy().to_string()
}

#[test]
fn the_environment_names_two_paths_for_each_variable() {
    assert_eq!(
        environment_paths(&join, Some("/opt/cuda"), Some("/usr/cuda")),
        vec![
            join("/opt/cuda/bin", "nvcc"),
            join("/opt/cuda/bin", "nvcc.exe"),
            join("/usr/cuda/bin", "nvcc"),
            join("/usr/cuda/bin", "nvcc.exe"),
        ]
    );
    let windows = |dir: &str, name: &str| format!("{dir}\\{name}");
    assert_eq!(
        environment_paths(&windows, None, Some("C:\\CUDA")),
        vec!["C:\\CUDA\\bin\\nvcc", "C:\\CUDA\\bin\\nvcc.exe"]
    );
    assert!(environment_paths(&join, None, None).is_empty());
}
