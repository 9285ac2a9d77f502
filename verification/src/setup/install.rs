//! Unattended installation of the CUDA toolkit.
//!
//! The caller runs the programs and prints the messages. Here stand the steps, in order, and
//! where each outcome leads.

use crate::setup;
use crate::setup::{DependencyReport, ReportModel};
use crate::text;
use crate::text::joined;
use vstd::prelude::*;

verus! {

/// What to do about the CUDA toolkit.
#[derive(Debug, Clone, Copy, PartialEq, Eq, Structural)]
pub enum InstallPlan {
    /// The toolkit is there.
    AlreadyInstalled,
    Windows,
    Linux,
    Unsupported,
}

/// What to do about the CUDA toolkit on that machine.
pub open spec fn plan_of(r: ReportModel) -> InstallPlan {
    if r.cuda_available {
        InstallPlan::AlreadyInstalled
    } else if r.is_windows {
        InstallPlan::Windows
    } else if r.is_linux {
        InstallPlan::Linux
    } else {
        InstallPlan::Unsupported
    }
}

/// What to do about the CUDA toolkit on that machine.
pub fn install_plan(report: &DependencyReport) -> (r: InstallPlan)
    ensures
        r == plan_of(report@),
{
    if report.cuda_available {
        InstallPlan::AlreadyInstalled
    } else if report.is_windows {
        InstallPlan::Windows
    } else if report.is_linux {
        InstallPlan::Linux
    } else {
        InstallPlan::Unsupported
    }
}

/// Why nothing can be installed on a system of that name.
pub fn unsupported_message(os_name: &str) -> (r: String)
    ensures
        r@ == "Unsupported platform for automated zero-HITL installation: "@ + os_name@,
{
    joined("Unsupported platform for automated zero-HITL installation: ", os_name)
}

/// What is printed when an installation has ended.
pub open spec fn closing_lines(r: ReportModel) -> Seq<Seq<char>> {
    if r.cuda_available {
        let done = ">>> ZERO-HITL CUDA INSTALLATION COMPLETED SUCCESSFULLY! <<<"@;
        match r.nvcc_path {
            Some(p) => seq![done, "Installed at: "@ + p],
            None => seq![done],
        }
    } else {
        seq![
            ">>> Installation finished. Note: A shell restart or setting CUDA_PATH may be required if system environment variables were updated. <<<"@,
        ]
    }
}

/// What is printed when an installation has ended and the machine was surveyed again.
pub fn installed_lines(refreshed: &DependencyReport) -> (r: Vec<String>)
    ensures
        text::strings(r@) == closing_lines(refreshed@),
{
    let mut out: Vec<String> = Vec::new();
    if refreshed.cuda_available {
        out.push(">>> ZERO-HITL CUDA INSTALLATION COMPLETED SUCCESSFULLY! <<<".to_owned());
        match &refreshed.nvcc_path {
            Some(p) => {
                out.push(joined("Installed at: ", p.as_str()));
            },
            None => {},
        }
    } else {
        out.push(
            ">>> Installation finished. Note: A shell restart or setting CUDA_PATH may be required if system environment variables were updated. <<<".to_owned(),
        );
    }
    assert(text::strings(out@) =~= closing_lines(refreshed@));
    out
}

/// What to do with a machine that was surveyed.
#[derive(Debug, Clone, Copy, PartialEq, Eq, Structural)]
pub enum EnsureAction {
    /// The report stands.
    Keep,
    /// The report stands, with a warning that the toolkit is missing.
    Warn,
    /// Install, whatever comes of it, and survey the machine again.
    Install,
}

/// What to do with a machine that was surveyed: only a GPU without a toolkit calls for anything.
pub fn ensure_action(report: &DependencyReport, auto_install: bool) -> (r: EnsureAction)
    ensures
        r == (if report.cuda_available || !report.gpu_detected {
            EnsureAction::Keep
        } else if auto_install {
            EnsureAction::Install
        } else {
            EnsureAction::Warn
        }),
{
    if !report.cuda_available && report.gpu_detected {
        if auto_install {
            EnsureAction::Install
        } else {
            EnsureAction::Warn
        }
    } else {
        EnsureAction::Keep
    }
}

/// A step of an installation.
#[derive(Debug, Clone)]
pub enum Step {
    Say(String),
    Exists(String),
    /// Run a program; `noninteractive` asks package managers not to.
    Run { program: String, args: Vec<String>, noninteractive: bool },
    /// The installation has ended.
    Done,
    /// The installation has failed, for that reason.
    Failed(String),
}

/// What a [`Step`] is.
#[verifier::ext_equal]
pub enum StepModel {
    Say(Seq<char>),
    Exists(Seq<char>),
    Run { program: Seq<char>, args: Seq<Seq<char>>, noninteractive: bool },
    Done,
    Failed(Seq<char>),
}

impl View for Step {
    type V = StepModel;

    open spec fn view(&self) -> StepModel {
        match self {
            Step::Say(s) => StepModel::Say(s@),
            Step::Exists(p) => StepModel::Exists(p@),
            Step::Run { program, args, noninteractive } => StepModel::Run {
                program: program@,
                args: text::strings(args@),
                noninteractive: *noninteractive,
            },
            Step::Done => StepModel::Done,
            Step::Failed(s) => StepModel::Failed(s@),
        }
    }
}

/// What came of running a program.
#[derive(Debug, Clone, Copy, PartialEq, Eq, Structural)]
pub enum Outcome {
    /// It could not be run.
    NotStarted,
    Failed,
    Succeeded,
}

fn arg_list(v: Vec<&'static str>) -> (r: Vec<String>)
    ensures
        text::strings(r@) == setup::names(v@),
{
    let mut out: Vec<String> = Vec::new();
    let mut i: usize = 0;
    while i < v.len()
        invariant
            i <= v@.len(),
            out@.len() == i,
            forall|k: int| 0 <= k < i ==> (#[trigger] out@[k])@ == v@[k]@,
        decreases v@.len() - i,
    {
        out.push(v[i].to_owned());
        i = i + 1;
    }
    assert(text::strings(out@) =~= setup::names(v@));
    out
}

/// A package manager.
#[derive(Debug, Clone, Copy, PartialEq, Eq, Structural)]
pub enum Manager {
    Apt,
    Dnf,
    Pacman,
}

/// Where a package manager stands.
pub open spec fn manager_path(m: Manager) -> Seq<char> {
    match m {
        Manager::Apt => "/usr/bin/apt-get"@,
        Manager::Dnf => "/usr/bin/dnf"@,
        Manager::Pacman => "/usr/bin/pacman"@,
    }
}

/// What a package manager installs, as it is told.
pub open spec fn install_run(m: Manager) -> StepModel {
    match m {
        Manager::Apt => StepModel::Run {
            program: "apt-get"@,
            args: seq![
                "install"@,
                "-y"@,
                "-qq"@,
                "nvidia-cuda-toolkit"@,
                "build-essential"@,
            ],
            noninteractive: true,
        },
        Manager::Dnf => StepModel::Run {
            program: "dnf"@,
            args: seq!["install"@, "-y"@, "-q"@, "cuda-toolkit"@, "gcc-c++"@],
            noninteractive: false,
        },
        Manager::Pacman => StepModel::Run {
            program: "pacman"@,
            args: seq!["-Sy"@, "--noconfirm"@, "--needed"@, "cuda"@, "base-devel"@],
            noninteractive: false,
        },
    }
}

/// How far an installation on Linux has come.
#[derive(Debug, Clone, Copy, PartialEq, Eq, Structural)]
pub enum LinuxPhase {
    Hello,
    /// Asking whether the manager is there.
    Check(Manager),
    /// Saying that it is.
    Announce(Manager),
    /// Refreshing the package lists.
    Update,
    Install(Manager),
    Done,
}

/// An installation on Linux.
#[derive(Debug, Clone, Copy)]
pub struct LinuxInstall {
    pub silent: bool,
    pub phase: LinuxPhase,
}

impl LinuxInstall {
    /// What to do next.
    pub open spec fn due(self) -> StepModel {
        match self.phase {
            LinuxPhase::Hello => StepModel::Say(
                "[Linux] Attempting zero-HITL package manager installation..."@,
            ),
            LinuxPhase::Check(m) => StepModel::Exists(manager_path(m)),
            LinuxPhase::Announce(m) => StepModel::Say(
                match m {
                    Manager::Apt => "[Linux] Detected apt-get. Installing nvidia-cuda-toolkit & build-essential silently..."@,
                    _ => "[Linux] Detected dnf. Installing cuda-toolkit silently..."@,
                },
            ),
            LinuxPhase::Update => StepModel::Run {
                program: "apt-get"@,
                args: seq!["update"@, "-qq"@],
                noninteractive: true,
            },
            LinuxPhase::Install(m) => install_run(m),
            LinuxPhase::Done => StepModel::Done,
        }
    }

    /// The phase after a manager that is missing or has failed.
    pub open spec fn past(m: Manager) -> LinuxPhase {
        match m {
            Manager::Apt => LinuxPhase::Check(Manager::Dnf),
            Manager::Dnf => LinuxPhase::Check(Manager::Pacman),
            Manager::Pacman => LinuxPhase::Done,
        }
    }

    /// The phase in which a manager that is there starts to work.
    pub open spec fn opening(m: Manager) -> LinuxPhase {
        match m {
            Manager::Apt => LinuxPhase::Update,
            _ => LinuxPhase::Install(m),
        }
    }

    /// The phase after a message was printed.
    pub open spec fn after_say(self) -> LinuxPhase {
        match self.phase {
            LinuxPhase::Hello => LinuxPhase::Check(Manager::Apt),
            LinuxPhase::Announce(m) => Self::opening(m),
            other => other,
        }
    }

    /// The phase after a path was looked up.
    pub open spec fn after_look(self, there: bool) -> LinuxPhase {
        match self.phase {
            LinuxPhase::Check(m) => if !there {
                Self::past(m)
            } else if self.silent || m == Manager::Pacman {
                Self::opening(m)
            } else {
                LinuxPhase::Announce(m)
            },
            other => other,
        }
    }

    /// The phase after a program was run.
    pub open spec fn after_run(self, outcome: Outcome) -> LinuxPhase {
        match self.phase {
            LinuxPhase::Update => LinuxPhase::Install(Manager::Apt),
            LinuxPhase::Install(m) => if outcome == Outcome::Succeeded {
                LinuxPhase::Done
            } else {
                Self::past(m)
            },
            other => other,
        }
    }

    /// An installation, with or without messages.
    pub fn start(silent: bool) -> (r: Self)
        ensures
            r.silent == silent,
            r.phase == (if silent {
                LinuxPhase::Check(Manager::Apt)
            } else {
                LinuxPhase::Hello
            }),
    {
        if silent {
            LinuxInstall { silent, phase: LinuxPhase::Check(Manager::Apt) }
        } else {
            LinuxInstall { silent, phase: LinuxPhase::Hello }
        }
    }

    /// What to do next.
    pub fn step(&self) -> (r: Step)
        ensures
            r@ == self.due(),
    {
        match self.phase {
            LinuxPhase::Hello => Step::Say(
                "[Linux] Attempting zero-HITL package manager installation...".to_owned(),
            ),
            LinuxPhase::Check(m) => Step::Exists(
                match m {
                    Manager::Apt => "/usr/bin/apt-get".to_owned(),
                    Manager::Dnf => "/usr/bin/dnf".to_owned(),
                    Manager::Pacman => "/usr/bin/pacman".to_owned(),
                },
            ),
            LinuxPhase::Announce(m) => Step::Say(
                match m {
                    Manager::Apt => "[Linux] Detected apt-get. Installing nvidia-cuda-toolkit & build-essential silently...".to_owned(),
                    _ => "[Linux] Detected dnf. Installing cuda-toolkit silently...".to_owned(),
                },
            ),
            LinuxPhase::Update => {
                let args = arg_list(vec!["update", "-qq"]);
                assert(text::strings(args@) =~= seq!["update"@, "-qq"@]);
                Step::Run { program: "apt-get".to_owned(), args, noninteractive: true }
            },
            LinuxPhase::Install(m) => Self::install_step(m),
            LinuxPhase::Done => Step::Done,
        }
    }

    fn install_step(m: Manager) -> (r: Step)
        ensures
            r@ == install_run(m),
    {
        match m {
            Manager::Apt => {
                let args = arg_list(
                    vec!["install", "-y", "-qq", "nvidia-cuda-toolkit", "build-essential"],
                );
                assert(text::strings(args@) =~= install_run(m)->args);
                Step::Run { program: "apt-get".to_owned(), args, noninteractive: true }
            },
            Manager::Dnf => {
                let args = arg_list(vec!["install", "-y", "-q", "cuda-toolkit", "gcc-c++"]);
                assert(text::strings(args@) =~= install_run(m)->args);
                Step::Run { program: "dnf".to_owned(), args, noninteractive: false }
            },
            Manager::Pacman => {
                let args = arg_list(
                    vec!["-Sy", "--noconfirm", "--needed", "cuda", "base-devel"],
                );
                assert(text::strings(args@) =~= install_run(m)->args);
                Step::Run { program: "pacman".to_owned(), args, noninteractive: false }
            },
        }
    }

    fn past_manager(m: Manager) -> (r: LinuxPhase)
        ensures
            r == Self::past(m),
    {
        match m {
            Manager::Apt => LinuxPhase::Check(Manager::Dnf),
            Manager::Dnf => LinuxPhase::Check(Manager::Pacman),
            Manager::Pacman => LinuxPhase::Done,
        }
    }

    fn opening_phase(m: Manager) -> (r: LinuxPhase)
        ensures
            r == Self::opening(m),
    {
        match m {
            Manager::Apt => LinuxPhase::Update,
            _ => LinuxPhase::Install(m),
        }
    }

    /// Goes on after a message was printed.
    pub fn said(&mut self)
        ensures
            *final(self) == (LinuxInstall { phase: old(self).after_say(), ..*old(self) }),
    {
        match self.phase {
            LinuxPhase::Hello => {
                self.phase = LinuxPhase::Check(Manager::Apt);
            },
            LinuxPhase::Announce(m) => {
                self.phase = Self::opening_phase(m);
            },
            _ => {},
        }
    }

    /// Takes whether a path exists.
    pub fn looked(&mut self, there: bool)
        ensures
            *final(self) == (LinuxInstall { phase: old(self).after_look(there), ..*old(self) }),
    {
        match self.phase {
            LinuxPhase::Check(m) => {
                if !there {
                    self.phase = Self::past_manager(m);
                } else if self.silent || m == Manager::Pacman {
                    self.phase = Self::opening_phase(m);
                } else {
                    self.phase = LinuxPhase::Announce(m);
                }
            },
            _ => {},
        }
    }

    /// Takes what came of running a program.
    pub fn ran(&mut self, outcome: Outcome)
        ensures
            *final(self) == (LinuxInstall { phase: old(self).after_run(outcome), ..*old(self) }),
    {
        match self.phase {
            LinuxPhase::Update => {
                self.phase = LinuxPhase::Install(Manager::Apt);
            },
            LinuxPhase::Install(m) => {
                if outcome == Outcome::Succeeded {
                    self.phase = LinuxPhase::Done;
                } else {
                    self.phase = Self::past_manager(m);
                }
            },
            _ => {},
        }
    }

    /// How many steps are left at most.
    pub open spec fn left(self) -> int {
        match self.phase {
            LinuxPhase::Hello => 11,
            LinuxPhase::Check(m) => match m {
                Manager::Apt => 10,
                Manager::Dnf => 6,
                Manager::Pacman => 3,
            },
            LinuxPhase::Announce(m) => match m {
                Manager::Apt => 9,
                Manager::Dnf => 5,
                Manager::Pacman => 2,
            },
            LinuxPhase::Update => 8,
            LinuxPhase::Install(m) => match m {
                Manager::Apt => 7,
                Manager::Dnf => 4,
                Manager::Pacman => 1,
            },
            LinuxPhase::Done => 0,
        }
    }
}

/// Whatever comes of its steps, an installation on Linux ends.
pub proof fn linux_install_ends(i: LinuxInstall, there: bool, outcome: Outcome)
    ensures
        i.due() is Done <==> i.left() == 0,
        i.due() is Say ==> (LinuxInstall { phase: i.after_say(), ..i }).left() < i.left(),
        i.due() is Exists ==> (LinuxInstall { phase: i.after_look(there), ..i }).left() < i.left(),
        i.due() is Run ==> (LinuxInstall { phase: i.after_run(outcome), ..i }).left() < i.left(),
        i.left() >= 0,
{
}

/// How far an installation on Windows has come.
#[derive(Debug, Clone, Copy, PartialEq, Eq, Structural)]
pub enum WindowsPhase {
    Hello,
    Winget,
    WingetDone,
    Fallback,
    Download,
    /// Asking whether the installer was downloaded.
    CheckInstaller,
    AnnounceInstaller,
    Installer,
    InstallerDone,
    Done,
    DownloadFailed,
    InstallerFailed,
}

/// An installation on Windows. `installer` is where the installer is downloaded to.
#[derive(Debug, Clone)]
pub struct WindowsInstall {
    pub silent: bool,
    pub installer: String,
    pub phase: WindowsPhase,
}

/// The command that downloads the installer.
pub open spec fn download_command(installer: Seq<char>) -> Seq<char> {
    "$ProgressPreference = 'SilentlyContinue'; Invoke-WebRequest -Uri 'https://developer.download.nvidia.com/compute/cuda/12.4.1/network_installers/cuda_12.4.1_windows_network.exe' -OutFile '"@
        + installer + "'"@
}

/// How `winget` is told to install.
pub open spec fn winget_args() -> Seq<Seq<char>> {
    seq![
        "install"@,
        "--id"@,
        "Nvidia.CUDA"@,
        "--silent"@,
        "--accept-package-agreements"@,
        "--accept-source-agreements"@,
        "--force"@,
        "--disable-interactivity"@,
    ]
}

/// How PowerShell is told to download.
pub open spec fn download_args(installer: Seq<char>) -> Seq<Seq<char>> {
    seq![
        "-NoProfile"@,
        "-ExecutionPolicy"@,
        "Bypass"@,
        "-Command"@,
        download_command(installer),
    ]
}

/// What the installer is told to install.
pub open spec fn installer_args() -> Seq<Seq<char>> {
    seq!["-s"@, "nvcc_12.4"@, "cudart_12.4"@, "visual_studio_integration_12.4"@]
}

impl WindowsInstall {
    /// What to do next.
    pub open spec fn due(self) -> StepModel {
        match self.phase {
            WindowsPhase::Hello => StepModel::Say(
                "[Windows] Attempting zero-HITL installation via winget..."@,
            ),
            WindowsPhase::Winget => StepModel::Run {
                program: "winget"@,
                args: winget_args(),
                noninteractive: false,
            },
            WindowsPhase::WingetDone => StepModel::Say(
                "[Windows] winget installed Nvidia.CUDA successfully."@,
            ),
            WindowsPhase::Fallback => StepModel::Say(
                "[Windows] Winget returned non-zero or was unavailable. Falling back to direct silent installer download..."@,
            ),
            WindowsPhase::Download => StepModel::Run {
                program: "powershell"@,
                args: download_args(self.installer@),
                noninteractive: false,
            },
            WindowsPhase::CheckInstaller => StepModel::Exists(self.installer@),
            WindowsPhase::AnnounceInstaller => StepModel::Say(
                "[Windows] Executing silent installer (-s nvcc_12.4)..."@,
            ),
            WindowsPhase::Installer => StepModel::Run {
                program: self.installer@,
                args: installer_args(),
                noninteractive: false,
            },
            WindowsPhase::InstallerDone => StepModel::Say(
                "[Windows] Silent installer finished successfully."@,
            ),
            WindowsPhase::Done => StepModel::Done,
            WindowsPhase::DownloadFailed => StepModel::Failed("Failed to run PowerShell download"@),
            WindowsPhase::InstallerFailed => StepModel::Failed(
                "Failed to execute silent CUDA installer"@,
            ),
        }
    }

    /// `loud` where messages are printed, and what follows the message where they are not.
    pub open spec fn told(self, loud: WindowsPhase, quiet: WindowsPhase) -> WindowsPhase {
        if self.silent {
            quiet
        } else {
            loud
        }
    }

    /// The phase after a message was printed.
    pub open spec fn after_say(self) -> WindowsPhase {
        match self.phase {
            WindowsPhase::Hello => WindowsPhase::Winget,
            WindowsPhase::WingetDone => WindowsPhase::Done,
            WindowsPhase::Fallback => WindowsPhase::Download,
            WindowsPhase::AnnounceInstaller => WindowsPhase::Installer,
            WindowsPhase::InstallerDone => WindowsPhase::Done,
            other => other,
        }
    }

    /// The phase after a path was looked up.
    pub open spec fn after_look(self, there: bool) -> WindowsPhase {
        match self.phase {
            WindowsPhase::CheckInstaller => if there {
                self.told(WindowsPhase::AnnounceInstaller, WindowsPhase::Installer)
            } else {
                WindowsPhase::Done
            },
            other => other,
        }
    }

    /// The phase after a program was run.
    pub open spec fn after_run(self, outcome: Outcome) -> WindowsPhase {
        match self.phase {
            WindowsPhase::Winget => if outcome == Outcome::Succeeded {
                self.told(WindowsPhase::WingetDone, WindowsPhase::Done)
            } else {
                self.told(WindowsPhase::Fallback, WindowsPhase::Download)
            },
            WindowsPhase::Download => match outcome {
                Outcome::NotStarted => WindowsPhase::DownloadFailed,
                Outcome::Failed => WindowsPhase::Done,
                Outcome::Succeeded => WindowsPhase::CheckInstaller,
            },
            WindowsPhase::Installer => match outcome {
                Outcome::NotStarted => WindowsPhase::InstallerFailed,
                Outcome::Failed => WindowsPhase::Done,
                Outcome::Succeeded => self.told(WindowsPhase::InstallerDone, WindowsPhase::Done),
            },
            other => other,
        }
    }

    /// An installation, with or without messages.
    pub fn start(silent: bool, installer: String) -> (r: Self)
        ensures
            r.silent == silent,
            r.installer == installer,
            r.phase == (if silent {
                WindowsPhase::Winget
            } else {
                WindowsPhase::Hello
            }),
    {
        if silent {
            WindowsInstall { silent, installer, phase: WindowsPhase::Winget }
        } else {
            WindowsInstall { silent, installer, phase: WindowsPhase::Hello }
        }
    }

    /// What to do next.
    pub fn step(&self) -> (r: Step)
        ensures
            r@ == self.due(),
    {
        match self.phase {
            WindowsPhase::Hello => Step::Say(
                "[Windows] Attempting zero-HITL installation via winget...".to_owned(),
            ),
            WindowsPhase::Winget => {
                let args = arg_list(
                    vec![
                        "install",
                        "--id",
                        "Nvidia.CUDA",
                        "--silent",
                        "--accept-package-agreements",
                        "--accept-source-agreements",
                        "--force",
                        "--disable-interactivity",
                    ],
                );
                assert(text::strings(args@) =~= winget_args());
                Step::Run { program: "winget".to_owned(), args, noninteractive: false }
            },
            WindowsPhase::WingetDone => Step::Say(
                "[Windows] winget installed Nvidia.CUDA successfully.".to_owned(),
            ),
            WindowsPhase::Fallback => Step::Say(
                "[Windows] Winget returned non-zero or was unavailable. Falling back to direct silent installer download...".to_owned(),
            ),
            WindowsPhase::Download => {
                let mut args = arg_list(
                    vec!["-NoProfile", "-ExecutionPolicy", "Bypass", "-Command"],
                );
                let head = joined(
                    "$ProgressPreference = 'SilentlyContinue'; Invoke-WebRequest -Uri 'https://developer.download.nvidia.com/compute/cuda/12.4.1/network_installers/cuda_12.4.1_windows_network.exe' -OutFile '",
                    self.installer.as_str(),
                );
                let ghost before = text::strings(args@);
                args.push(joined(head.as_str(), "'"));
                proof {
                    assert(text::strings(args@) =~= before.push(
                        download_command(self.installer@),
                    ));
                    assert(text::strings(args@) =~= download_args(self.installer@));
                }
                Step::Run { program: "powershell".to_owned(), args, noninteractive: false }
            },
            WindowsPhase::CheckInstaller => Step::Exists(self.installer.as_str().to_owned()),
            WindowsPhase::AnnounceInstaller => Step::Say(
                "[Windows] Executing silent installer (-s nvcc_12.4)...".to_owned(),
            ),
            WindowsPhase::Installer => {
                let args = arg_list(
                    vec!["-s", "nvcc_12.4", "cudart_12.4", "visual_studio_integration_12.4"],
                );
                assert(text::strings(args@) =~= installer_args());
                Step::Run {
                    program: self.installer.as_str().to_owned(),
                    args,
                    noninteractive: false,
                }
            },
            WindowsPhase::InstallerDone => Step::Say(
                "[Windows] Silent installer finished successfully.".to_owned(),
            ),
            WindowsPhase::Done => Step::Done,
            WindowsPhase::DownloadFailed => Step::Failed(
                "Failed to run PowerShell download".to_owned(),
            ),
            WindowsPhase::InstallerFailed => Step::Failed(
                "Failed to execute silent CUDA installer".to_owned(),
            ),
        }
    }

    fn tell(&mut self, loud: WindowsPhase, quiet: WindowsPhase)
        ensures
            *final(self) == (WindowsInstall { phase: old(self).told(loud, quiet), ..*old(self) }),
    {
        if self.silent {
            self.phase = quiet;
        } else {
            self.phase = loud;
        }
    }

    /// Goes on after a message was printed.
    pub fn said(&mut self)
        ensures
            *final(self) == (WindowsInstall { phase: old(self).after_say(), ..*old(self) }),
    {
        match self.phase {
            WindowsPhase::Hello => {
                self.phase = WindowsPhase::Winget;
            },
            WindowsPhase::WingetDone => {
                self.phase = WindowsPhase::Done;
            },
            WindowsPhase::Fallback => {
                self.phase = WindowsPhase::Download;
            },
            WindowsPhase::AnnounceInstaller => {
                self.phase = WindowsPhase::Installer;
            },
            WindowsPhase::InstallerDone => {
                self.phase = WindowsPhase::Done;
            },
            _ => {},
        }
    }

    /// Takes whether a path exists.
    pub fn looked(&mut self, there: bool)
        ensures
            *final(self) == (WindowsInstall { phase: old(self).after_look(there), ..*old(self) }),
    {
        match self.phase {
            WindowsPhase::CheckInstaller => {
                if there {
                    self.tell(WindowsPhase::AnnounceInstaller, WindowsPhase::Installer);
                } else {
                    self.phase = WindowsPhase::Done;
                }
            },
            _ => {},
        }
    }

    /// Takes what came of running a program.
    pub fn ran(&mut self, outcome: Outcome)
        ensures
            *final(self) == (WindowsInstall { phase: old(self).after_run(outcome), ..*old(self) }),
    {
        match self.phase {
            WindowsPhase::Winget => {
                if outcome == Outcome::Succeeded {
                    self.tell(WindowsPhase::WingetDone, WindowsPhase::Done);
                } else {
                    self.tell(WindowsPhase::Fallback, WindowsPhase::Download);
                }
            },
            WindowsPhase::Download => {
                self.phase = match outcome {
                    Outcome::NotStarted => WindowsPhase::DownloadFailed,
                    Outcome::Failed => WindowsPhase::Done,
                    Outcome::Succeeded => WindowsPhase::CheckInstaller,
                };
            },
            WindowsPhase::Installer => match outcome {
                Outcome::NotStarted => {
                    self.phase = WindowsPhase::InstallerFailed;
                },
                Outcome::Failed => {
                    self.phase = WindowsPhase::Done;
                },
                Outcome::Succeeded => {
                    self.tell(WindowsPhase::InstallerDone, WindowsPhase::Done);
                },
            },
            _ => {},
        }
    }

    /// How many steps are left at most.
    pub open spec fn left(self) -> int {
        match self.phase {
            WindowsPhase::Hello => 8,
            WindowsPhase::Winget => 7,
            WindowsPhase::WingetDone => 1,
            WindowsPhase::Fallback => 6,
            WindowsPhase::Download => 5,
            WindowsPhase::CheckInstaller => 4,
            WindowsPhase::AnnounceInstaller => 3,
            WindowsPhase::Installer => 2,
            WindowsPhase::InstallerDone => 1,
            _ => 0,
        }
    }
}

/// Whatever comes of its steps, an installation on Windows ends, and it fails only where
/// PowerShell or the installer cannot be run.
pub proof fn windows_install_ends(i: WindowsInstall, there: bool, outcome: Outcome)
    ensures
        i.due() is Done || i.due() is Failed <==> i.left() == 0,
        i.due() is Say ==> (WindowsInstall { phase: i.after_say(), ..i }).left() < i.left(),
        i.due() is Exists ==> (WindowsInstall { phase: i.after_look(there), ..i }).left()
            < i.left(),
        i.due() is Run ==> (WindowsInstall { phase: i.after_run(outcome), ..i }).left() < i.left(),
        i.left() >= 0,
        i.due() is Run && (WindowsInstall { phase: i.after_run(outcome), ..i }).due() is Failed
            ==> outcome == Outcome::NotStarted && i.phase != WindowsPhase::Winget,
{
}

} // verus!
