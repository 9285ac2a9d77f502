//! What the machine offers: compilers, GPU driver and CUDA toolkit.
//!
//! Programs are run and files looked up by the caller. Here stand the questions, in order, and
//! what each answer means.

use crate::named::str_same;
use crate::text;
use crate::text::{chars_of, has, joined, lines_of, split_chars, text_of, trimmed};
use vstd::prelude::*;

pub mod install;

verus! {

/// What was found on the machine.
#[derive(Debug, Clone)]
pub struct DependencyReport {
    pub gpu_detected: bool,
    pub gpu_name: Option<String>,
    pub compute_cap: Option<String>,
    pub driver_version: Option<String>,
    pub cuda_available: bool,
    pub nvcc_path: Option<String>,
    pub nvcc_version: Option<String>,
    pub host_compiler_available: bool,
    pub host_compiler_info: Option<String>,
    pub rust_version: Option<String>,
    pub os_name: String,
    pub is_windows: bool,
    pub is_linux: bool,
}

/// What a [`DependencyReport`] says.
#[verifier::ext_equal]
pub struct ReportModel {
    pub gpu_detected: bool,
    pub gpu_name: Option<Seq<char>>,
    pub compute_cap: Option<Seq<char>>,
    pub driver_version: Option<Seq<char>>,
    pub cuda_available: bool,
    pub nvcc_path: Option<Seq<char>>,
    pub nvcc_version: Option<Seq<char>>,
    pub host_compiler_available: bool,
    pub host_compiler_info: Option<Seq<char>>,
    pub rust_version: Option<Seq<char>>,
    pub os_name: Seq<char>,
    pub is_windows: bool,
    pub is_linux: bool,
}

/// The characters of a text that may be missing.
pub open spec fn text_in(o: Option<String>) -> Option<Seq<char>> {
    match o {
        Some(s) => Some(s@),
        None => None,
    }
}

impl View for DependencyReport {
    type V = ReportModel;

    open spec fn view(&self) -> ReportModel {
        ReportModel {
            gpu_detected: self.gpu_detected,
            gpu_name: text_in(self.gpu_name),
            compute_cap: text_in(self.compute_cap),
            driver_version: text_in(self.driver_version),
            cuda_available: self.cuda_available,
            nvcc_path: text_in(self.nvcc_path),
            nvcc_version: text_in(self.nvcc_version),
            host_compiler_available: self.host_compiler_available,
            host_compiler_info: text_in(self.host_compiler_info),
            rust_version: text_in(self.rust_version),
            os_name: self.os_name@,
            is_windows: self.is_windows,
            is_linux: self.is_linux,
        }
    }
}

/// The report of a machine on which nothing was found, not even its name.
pub open spec fn blank() -> ReportModel {
    ReportModel {
        gpu_detected: false,
        gpu_name: None,
        compute_cap: None,
        driver_version: None,
        cuda_available: false,
        nvcc_path: None,
        nvcc_version: None,
        host_compiler_available: false,
        host_compiler_info: None,
        rust_version: None,
        os_name: Seq::empty(),
        is_windows: false,
        is_linux: false,
    }
}

impl Default for DependencyReport {
    fn default() -> (r: Self)
        ensures
            r@ == blank(),
    {
        let r = DependencyReport {
            gpu_detected: false,
            gpu_name: None,
            compute_cap: None,
            driver_version: None,
            cuda_available: false,
            nvcc_path: None,
            nvcc_version: None,
            host_compiler_available: false,
            host_compiler_info: None,
            rust_version: None,
            os_name: String::new(),
            is_windows: false,
            is_linux: false,
        };
        assert(r@.os_name =~= Seq::empty());
        r
    }
}

impl DependencyReport {
    /// Whether GPU, CUDA toolkit and host compiler are all there.
    pub fn is_fully_cuda_ready(&self) -> (r: bool)
        ensures
            r == (self.gpu_detected && self.cuda_available && self.host_compiler_available),
    {
        self.gpu_detected && self.cuda_available && self.host_compiler_available
    }
}

/// Several fixed texts, each by its characters.
pub open spec fn names(v: Seq<&str>) -> Seq<Seq<char>> {
    Seq::new(v.len(), |i: int| v[i]@)
}

/// Where `nvcc` is usually installed, in the order in which it is looked for.
pub open spec fn direct_paths() -> Seq<Seq<char>> {
    seq![
        "/usr/local/cuda/bin/nvcc"@,
        "/usr/bin/nvcc"@,
        "/opt/cuda/bin/nvcc"@,
        "C:\\Program Files\\NVIDIA GPU Computing Toolkit\\CUDA\\v13.0\\bin\\nvcc.exe"@,
        "C:\\Program Files\\NVIDIA GPU Computing Toolkit\\CUDA\\v12.8\\bin\\nvcc.exe"@,
        "C:\\Program Files\\NVIDIA GPU Computing Toolkit\\CUDA\\v12.6\\bin\\nvcc.exe"@,
        "C:\\Program Files\\NVIDIA GPU Computing Toolkit\\CUDA\\v12.5\\bin\\nvcc.exe"@,
        "C:\\Program Files\\NVIDIA GPU Computing Toolkit\\CUDA\\v12.4\\bin\\nvcc.exe"@,
        "C:\\Program Files\\NVIDIA GPU Computing Toolkit\\CUDA\\v12.3\\bin\\nvcc.exe"@,
        "C:\\Program Files\\NVIDIA GPU Computing Toolkit\\CUDA\\v12.2\\bin\\nvcc.exe"@,
        "C:\\Program Files\\NVIDIA GPU Computing Toolkit\\CUDA\\v12.1\\bin\\nvcc.exe"@,
        "C:\\Program Files\\NVIDIA GPU Computing Toolkit\\CUDA\\v12.0\\bin\\nvcc.exe"@,
        "C:\\Program Files\\NVIDIA GPU Computing Toolkit\\CUDA\\v11.8\\bin\\nvcc.exe"@,
    ]
}

fn direct_path_list() -> (r: Vec<&'static str>)
    ensures
        names(r@) == direct_paths(),
{
    let v: Vec<&'static str> = vec![
        "/usr/local/cuda/bin/nvcc",
        "/usr/bin/nvcc",
        "/opt/cuda/bin/nvcc",
        "C:\\Program Files\\NVIDIA GPU Computing Toolkit\\CUDA\\v13.0\\bin\\nvcc.exe",
        "C:\\Program Files\\NVIDIA GPU Computing Toolkit\\CUDA\\v12.8\\bin\\nvcc.exe",
        "C:\\Program Files\\NVIDIA GPU Computing Toolkit\\CUDA\\v12.6\\bin\\nvcc.exe",
        "C:\\Program Files\\NVIDIA GPU Computing Toolkit\\CUDA\\v12.5\\bin\\nvcc.exe",
        "C:\\Program Files\\NVIDIA GPU Computing Toolkit\\CUDA\\v12.4\\bin\\nvcc.exe",
        "C:\\Program Files\\NVIDIA GPU Computing Toolkit\\CUDA\\v12.3\\bin\\nvcc.exe",
        "C:\\Program Files\\NVIDIA GPU Computing Toolkit\\CUDA\\v12.2\\bin\\nvcc.exe",
        "C:\\Program Files\\NVIDIA GPU Computing Toolkit\\CUDA\\v12.1\\bin\\nvcc.exe",
        "C:\\Program Files\\NVIDIA GPU Computing Toolkit\\CUDA\\v12.0\\bin\\nvcc.exe",
        "C:\\Program Files\\NVIDIA GPU Computing Toolkit\\CUDA\\v11.8\\bin\\nvcc.exe",
    ];
    assert(names(v@) =~= direct_paths());
    v
}

/// Where Visual Studio keeps its compilers, in the order in which they are looked for.
pub open spec fn studio_paths() -> Seq<Seq<char>> {
    seq![
        "C:\\Program Files\\Microsoft Visual Studio\\2022\\Community\\VC\\Tools\\MSVC"@,
        "C:\\Program Files\\Microsoft Visual Studio\\2022\\BuildTools\\VC\\Tools\\MSVC"@,
        "C:\\Program Files (x86)\\Microsoft Visual Studio\\2019\\Community\\VC\\Tools\\MSVC"@,
        "C:\\Program Files (x86)\\Microsoft Visual Studio\\2019\\BuildTools\\VC\\Tools\\MSVC"@,
    ]
}

fn studio_path_list() -> (r: Vec<&'static str>)
    ensures
        names(r@) == studio_paths(),
{
    let v: Vec<&'static str> = vec![
        "C:\\Program Files\\Microsoft Visual Studio\\2022\\Community\\VC\\Tools\\MSVC",
        "C:\\Program Files\\Microsoft Visual Studio\\2022\\BuildTools\\VC\\Tools\\MSVC",
        "C:\\Program Files (x86)\\Microsoft Visual Studio\\2019\\Community\\VC\\Tools\\MSVC",
        "C:\\Program Files (x86)\\Microsoft Visual Studio\\2019\\BuildTools\\VC\\Tools\\MSVC",
    ];
    assert(names(v@) =~= studio_paths());
    v
}

/// The first line of a program's output, where it ran and printed one.
pub open spec fn first_line(out: Option<Seq<char>>) -> Option<Seq<char>> {
    match out {
        Some(t) => if text::lines(t).len() > 0 {
            Some(text::lines(t)[0])
        } else {
            None
        },
        None => None,
    }
}

fn first_line_of(out: Option<&str>) -> (r: Option<String>)
    ensures
        text_in(r) == first_line(given(out)),
{
    match out {
        Some(t) => {
            let lines = lines_of(t);
            assert(text::texts(lines@).len() == lines@.len());
            if lines.len() > 0 {
                let n: usize = lines[0].len();
                let line = text_of(&lines[0], 0, n);
                assert(line@ =~= text::texts(lines@)[0]);
                Some(line)
            } else {
                None
            }
        },
        None => None,
    }
}

/// The characters of an answer.
pub open spec fn given(out: Option<&str>) -> Option<Seq<char>> {
    match out {
        Some(s) => Some(s@),
        None => None,
    }
}

/// A text without white space at its ends, where there is one.
pub open spec fn trimmed_in(o: Option<Seq<char>>) -> Option<Seq<char>> {
    match o {
        Some(s) => Some(text::trim(s)),
        None => None,
    }
}

fn trimmed_answer(out: Option<&str>) -> (r: Option<String>)
    ensures
        text_in(r) == trimmed_in(given(out)),
{
    match out {
        Some(s) => Some(trimmed(s)),
        None => None,
    }
}

fn trimmed_first_line(out: Option<&str>) -> (r: Option<String>)
    ensures
        text_in(r) == trimmed_in(first_line(given(out))),
{
    match first_line_of(out) {
        Some(s) => Some(trimmed(s.as_str())),
        None => None,
    }
}

/// A text without the points in it.
pub open spec fn without_points(s: Seq<char>) -> Seq<char>
    decreases s.len(),
{
    if s.len() == 0 {
        Seq::empty()
    } else if s.last() == '.' {
        without_points(s.drop_last())
    } else {
        without_points(s.drop_last()).push(s.last())
    }
}

fn drop_points(s: &str) -> (r: String)
    ensures
        r@ == without_points(s@),
{
    let chars = chars_of(s);
    let mut out = String::new();
    let mut i: usize = 0;
    assert(chars@.take(0) =~= Seq::empty());
    while i < chars.len()
        invariant
            i <= chars@.len(),
            out@ == without_points(chars@.take(i as int)),
        decreases chars@.len() - i,
    {
        assert(chars@.take(i + 1).drop_last() =~= chars@.take(i as int));
        if chars[i] != '.' {
            out.push(chars[i]);
        }
        i = i + 1;
    }
    assert(chars@.take(chars@.len() as int) =~= chars@);
    out
}

/// What the driver says of the first GPU: name, driver version and compute capability, between
/// commas.
pub open spec fn gpu_fields(out: Option<Seq<char>>) -> Option<Seq<Seq<char>>> {
    match first_line(out) {
        Some(line) => if text::split(line, ',').len() >= 3 {
            Some(text::split(line, ','))
        } else {
            None
        },
        None => None,
    }
}

/// The report with what the driver says of the first GPU.
pub open spec fn with_gpu(r: ReportModel, out: Option<Seq<char>>) -> ReportModel {
    match gpu_fields(out) {
        Some(f) => ReportModel {
            gpu_detected: true,
            gpu_name: Some(text::trim(f[0])),
            driver_version: Some(text::trim(f[1])),
            compute_cap: Some("sm_"@ + without_points(text::trim(f[2]))),
            ..r
        },
        None => r,
    }
}

fn field(parts: &Vec<Vec<char>>, i: usize) -> (r: String)
    requires
        i < parts@.len(),
    ensures
        r@ == text::trim(parts@[i as int]@),
{
    let n: usize = parts[i].len();
    let s = text_of(&parts[i], 0, n);
    assert(s@ =~= parts@[i as int]@);
    trimmed(s.as_str())
}

fn read_gpu(report: &mut DependencyReport, out: Option<&str>)
    ensures
        final(report)@ == with_gpu(old(report)@, given(out)),
{
    match first_line_of(out) {
        Some(line) => {
            let chars = chars_of(line.as_str());
            let parts = split_chars(&chars, ',');
            assert(text::texts(parts@).len() == parts@.len());
            if parts.len() >= 3 {
                assert(forall|i: int|
                    0 <= i < parts@.len() ==> #[trigger] text::texts(parts@)[i] == parts@[i]@);
                report.gpu_detected = true;
                report.gpu_name = Some(field(&parts, 0));
                report.driver_version = Some(field(&parts, 1));
                let cap = drop_points(field(&parts, 2).as_str());
                report.compute_cap = Some(joined("sm_", cap.as_str()));
            }
        },
        None => {},
    }
}

/// The line that names the toolkit's version: the first that holds `release` or `V`.
pub open spec fn is_version_line(line: Seq<char>) -> bool {
    text::contains(line, "release"@) || text::contains(line, "V"@)
}

/// The first of the lines that names a version, without white space at its ends.
pub open spec fn version_in(lines: Seq<Seq<char>>) -> Option<Seq<char>>
    decreases lines.len(),
{
    if lines.len() == 0 {
        None
    } else if is_version_line(lines[0]) {
        Some(text::trim(lines[0]))
    } else {
        version_in(lines.drop_first())
    }
}

/// The version that `nvcc` prints.
pub open spec fn toolkit_version(out: Option<Seq<char>>) -> Option<Seq<char>> {
    match out {
        Some(t) => version_in(text::lines(t)),
        None => None,
    }
}

fn read_version(out: Option<&str>) -> (r: Option<String>)
    ensures
        text_in(r) == toolkit_version(given(out)),
{
    match out {
        Some(t) => {
            let lines = lines_of(t);
            let ghost all = text::lines(t@);
            let mut i: usize = 0;
            assert(all.skip(0) =~= all);
            assert(text::texts(lines@).len() == lines@.len());
            while i < lines.len()
                invariant
                    i <= lines@.len(),
                    text::texts(lines@) == all,
                    all == text::lines(t@),
                    given(out) == Some(t@),
                    all.len() == lines@.len(),
                    version_in(all) == version_in(all.skip(i as int)),
                decreases lines@.len() - i,
            {
                let n: usize = lines[i].len();
                let line = text_of(&lines[i], 0, n);
                assert(line@ =~= all[i as int]);
                if has(line.as_str(), "release") || has(line.as_str(), "V") {
                    return Some(trimmed(line.as_str()));
                }
                assert(all.skip(i as int).drop_first() =~= all.skip(i + 1));
                i = i + 1;
            }
            None
        },
        None => None,
    }
}

/// A question to the machine.
#[derive(Debug, Clone)]
pub enum Question {
    /// What does the program print, run with these arguments? Nothing counts where it cannot
    /// be run or fails.
    Run { program: String, args: Vec<String> },
    /// Does the path exist?
    Exists(String),
    /// There is nothing more to ask.
    Finished,
}

/// What a [`Question`] asks.
#[verifier::ext_equal]
pub enum QuestionModel {
    Run { program: Seq<char>, args: Seq<Seq<char>> },
    Exists(Seq<char>),
    Finished,
}

impl View for Question {
    type V = QuestionModel;

    open spec fn view(&self) -> QuestionModel {
        match self {
            Question::Run { program, args } => QuestionModel::Run {
                program: program@,
                args: text::strings(args@),
            },
            Question::Exists(p) => QuestionModel::Exists(p@),
            Question::Finished => QuestionModel::Finished,
        }
    }
}

fn run_with(program: &str, arg: &str) -> (r: Question)
    ensures
        r@ == (QuestionModel::Run { program: program@, args: seq![arg@] }),
{
    let mut args: Vec<String> = Vec::new();
    args.push(arg.to_owned());
    assert(text::strings(args@) =~= seq![arg@]);
    Question::Run { program: program.to_owned(), args }
}

/// How far the search for `nvcc` has come.
#[derive(Debug, Clone, Copy, PartialEq, Eq, Structural)]
pub enum SearchPhase {
    /// Asking whether a candidate exists.
    Candidate(usize),
    /// Asking a lookup program, the first or the second.
    Lookup(bool),
    /// Asking whether what the lookup program printed exists.
    Printed(bool),
    Found,
    NotFound,
}

/// The search for `nvcc`.
#[derive(Debug, Clone)]
pub struct NvccSearch {
    pub candidates: Vec<String>,
    /// What a lookup program printed, and in the end the path that was found.
    pub path: String,
    pub phase: SearchPhase,
}

/// What an [`NvccSearch`] knows.
#[verifier::ext_equal]
pub struct SearchModel {
    pub candidates: Seq<Seq<char>>,
    pub path: Seq<char>,
    pub phase: SearchPhase,
}

impl View for NvccSearch {
    type V = SearchModel;

    open spec fn view(&self) -> SearchModel {
        SearchModel {
            candidates: text::strings(self.candidates@),
            path: self.path@,
            phase: self.phase,
        }
    }
}

/// The program that looks a name up on the search path.
pub open spec fn lookup_name(second: bool) -> Seq<char> {
    if second {
        "where"@
    } else {
        "which"@
    }
}

impl SearchModel {
    /// There are candidates, and the one that is asked for is one of them.
    pub open spec fn wf(self) -> bool {
        &&& 0 < self.candidates.len() <= usize::MAX
        &&& self.phase matches SearchPhase::Candidate(i) ==> i < self.candidates.len()
    }

    /// What to ask next.
    pub open spec fn question(self) -> QuestionModel {
        match self.phase {
            SearchPhase::Candidate(i) => QuestionModel::Exists(self.candidates[i as int]),
            SearchPhase::Lookup(second) => QuestionModel::Run {
                program: lookup_name(second),
                args: seq!["nvcc"@],
            },
            SearchPhase::Printed(_) => QuestionModel::Exists(self.path),
            _ => QuestionModel::Finished,
        }
    }

    pub open spec fn at(self, phase: SearchPhase) -> SearchModel {
        SearchModel { phase, ..self }
    }

    /// The search after a lookup program gave nothing that exists.
    pub open spec fn past_lookup(self, second: bool) -> SearchModel {
        if second {
            self.at(SearchPhase::NotFound)
        } else {
            self.at(SearchPhase::Lookup(true))
        }
    }

    /// The search after a program was run.
    pub open spec fn ran(self, out: Option<Seq<char>>) -> SearchModel {
        match self.phase {
            SearchPhase::Lookup(second) => match first_line(out) {
                Some(line) => SearchModel {
                    path: text::trim(line),
                    phase: SearchPhase::Printed(second),
                    ..self
                },
                None => self.past_lookup(second),
            },
            _ => self,
        }
    }

    /// The search after a path was looked up.
    pub open spec fn looked(self, there: bool) -> SearchModel {
        match self.phase {
            SearchPhase::Candidate(i) => if there {
                SearchModel { path: self.candidates[i as int], phase: SearchPhase::Found, ..self }
            } else if i + 1 < self.candidates.len() {
                self.at(SearchPhase::Candidate((i + 1) as usize))
            } else {
                self.at(SearchPhase::Lookup(false))
            },
            SearchPhase::Printed(second) => if there {
                self.at(SearchPhase::Found)
            } else {
                self.past_lookup(second)
            },
            _ => self,
        }
    }

    /// The path that was found.
    pub open spec fn found(self) -> Option<Seq<char>> {
        if self.phase == SearchPhase::Found {
            Some(self.path)
        } else {
            None
        }
    }
}

/// `path` is `name` in the `bin` directory of a toolkit.
pub open spec fn is_toolkit_path<J: Fn(&str, &str) -> String>(
    join: J,
    dir: &str,
    name: Seq<char>,
    path: Seq<char>,
) -> bool {
    exists|bin_name: &str, bin: String, dir_bin: &str, leaf: &str, out: String|
        {
            &&& #[trigger] call_ensures(join, (dir, bin_name), bin)
            &&& #[trigger] call_ensures(join, (dir_bin, leaf), out)
            &&& bin_name@ == "bin"@
            &&& dir_bin@ == bin@
            &&& leaf@ == name
            &&& out@ == path
        }
}

/// `paths` is where `nvcc` may stand under a toolkit directory, where one is named.
pub open spec fn are_toolkit_paths<J: Fn(&str, &str) -> String>(
    join: J,
    dir: Option<&str>,
    paths: Seq<Seq<char>>,
) -> bool {
    match dir {
        Some(p) => {
            &&& paths.len() == 2
            &&& is_toolkit_path(join, p, "nvcc"@, paths[0])
            &&& is_toolkit_path(join, p, "nvcc.exe"@, paths[1])
        },
        None => paths.len() == 0,
    }
}

/// `paths` are those under the first directory, then those under the second.
pub open spec fn are_environment_paths<J: Fn(&str, &str) -> String>(
    join: J,
    cuda_home: Option<&str>,
    cuda_path: Option<&str>,
    paths: Seq<Seq<char>>,
) -> bool {
    exists|a: Seq<Seq<char>>, b: Seq<Seq<char>>|
        {
            &&& #[trigger] are_toolkit_paths(join, cuda_home, a)
            &&& #[trigger] are_toolkit_paths(join, cuda_path, b)
            &&& paths == a + b
        }
}

fn toolkit_paths<J: Fn(&str, &str) -> String>(join: &J, dir: Option<&str>) -> (r: Vec<String>)
    requires
        forall|a: &str, b: &str| call_requires(*join, (a, b)),
    ensures
        are_toolkit_paths(*join, dir, text::strings(r@)),
{
    let mut paths: Vec<String> = Vec::new();
    match dir {
        Some(p) => {
            let bin = join(p, "bin");
            assert(call_ensures(*join, (p, "bin"), bin));
            let under = bin.as_str();
            let plain = join(under, "nvcc");
            assert(call_ensures(*join, (under, "nvcc"), plain));
            assert(is_toolkit_path(*join, p, "nvcc"@, plain@));
            let exe = join(under, "nvcc.exe");
            assert(call_ensures(*join, (under, "nvcc.exe"), exe));
            assert(is_toolkit_path(*join, p, "nvcc.exe"@, exe@));
            paths.push(plain);
            paths.push(exe);
        },
        None => {},
    }
    paths
}

/// The paths to `nvcc` that the environment names: those under the values of `CUDA_HOME` and of
/// `CUDA_PATH`, in this order. `join` puts a path and a name together as the platform does.
pub fn environment_paths<J: Fn(&str, &str) -> String>(
    join: &J,
    cuda_home: Option<&str>,
    cuda_path: Option<&str>,
) -> (r: Vec<String>)
    requires
        forall|a: &str, b: &str| call_requires(*join, (a, b)),
    ensures
        are_environment_paths(*join, cuda_home, cuda_path, text::strings(r@)),
{
    let mut paths = toolkit_paths(join, cuda_home);
    let ghost a = text::strings(paths@);
    let mut more = toolkit_paths(join, cuda_path);
    let ghost b = text::strings(more@);
    paths.append(&mut more);
    assert(text::strings(paths@) =~= a + b);
    paths
}

impl NvccSearch {
    /// The search through the paths that the environment names and then the usual ones.
    pub fn start(environment: Vec<String>) -> (r: Self)
        ensures
            r@ == (SearchModel {
                candidates: text::strings(environment@) + direct_paths(),
                path: Seq::empty(),
                phase: SearchPhase::Candidate(0),
            }),
            r@.wf(),
    {
        let ghost env = text::strings(environment@);
        let mut candidates = environment;
        let direct = direct_path_list();
        assert(names(direct@).len() == direct@.len());
        let mut i: usize = 0;
        while i < direct.len()
            invariant
                i <= direct@.len(),
                names(direct@) == direct_paths(),
                direct@.len() == direct_paths().len(),
                text::strings(candidates@) == env + direct_paths().take(i as int),
            decreases direct@.len() - i,
        {
            let ghost before = text::strings(candidates@);
            assert(direct@[i as int]@ == names(direct@)[i as int]);
            candidates.push(direct[i].to_owned());
            proof {
                assert(text::strings(candidates@) =~= before.push(direct_paths()[i as int]));
                assert(before.push(direct_paths()[i as int]) =~= env + direct_paths().take(i + 1));
            }
            i = i + 1;
        }
        assert(direct_paths().take(direct_paths().len() as int) =~= direct_paths());
        let path = String::new();
        assert(path@ =~= Seq::empty());
        let n: usize = candidates.len();
        assert(text::strings(candidates@).len() == n);
        NvccSearch { candidates, path, phase: SearchPhase::Candidate(0) }
    }

    /// What to ask next.
    pub fn question(&self) -> (r: Question)
        requires
            self@.wf(),
        ensures
            r@ == self@.question(),
    {
        match self.phase {
            SearchPhase::Candidate(i) => {
                assert(self@.candidates[i as int] == self.candidates@[i as int]@);
                Question::Exists(self.candidates[i].as_str().to_owned())
            },
            SearchPhase::Lookup(second) => if second {
                run_with("where", "nvcc")
            } else {
                run_with("which", "nvcc")
            },
            SearchPhase::Printed(_) => Question::Exists(self.path.as_str().to_owned()),
            _ => Question::Finished,
        }
    }

    fn past_lookup(&mut self, second: bool)
        ensures
            final(self)@ == old(self)@.past_lookup(second),
    {
        if second {
            self.phase = SearchPhase::NotFound;
        } else {
            self.phase = SearchPhase::Lookup(true);
        }
    }

    /// Takes what a program printed, where it ran and did not fail.
    pub fn ran(&mut self, out: Option<&str>)
        requires
            old(self)@.wf(),
        ensures
            final(self)@ == old(self)@.ran(given(out)),
            final(self)@.wf(),
    {
        match self.phase {
            SearchPhase::Lookup(second) => match trimmed_first_line(out) {
                Some(path) => {
                    self.path = path;
                    self.phase = SearchPhase::Printed(second);
                },
                None => {
                    self.past_lookup(second);
                },
            },
            _ => {},
        }
    }

    /// Takes whether a path exists.
    pub fn looked(&mut self, there: bool)
        requires
            old(self)@.wf(),
        ensures
            final(self)@ == old(self)@.looked(there),
            final(self)@.wf(),
    {
        match self.phase {
            SearchPhase::Candidate(i) => {
                assert(self@.candidates[i as int] == self.candidates@[i as int]@);
                assert(self@.candidates.len() == self.candidates@.len());
                if there {
                    self.path = self.candidates[i].as_str().to_owned();
                    self.phase = SearchPhase::Found;
                } else if i + 1 < self.candidates.len() {
                    self.phase = SearchPhase::Candidate(i + 1);
                } else {
                    self.phase = SearchPhase::Lookup(false);
                }
            },
            SearchPhase::Printed(second) => {
                if there {
                    self.phase = SearchPhase::Found;
                } else {
                    self.past_lookup(second);
                }
            },
            _ => {},
        }
    }

    /// The path that was found.
    pub fn found(&self) -> (r: Option<String>)
        ensures
            text_in(r) == self@.found(),
    {
        match self.phase {
            SearchPhase::Found => Some(self.path.as_str().to_owned()),
            _ => None,
        }
    }
}

/// What a machine answers, as long as it does not change.
pub struct World {
    pub run: spec_fn(Seq<char>, Seq<Seq<char>>) -> Option<Seq<char>>,
    pub exists: spec_fn(Seq<char>) -> bool,
}

impl SearchModel {
    /// How many questions are left at most.
    pub open spec fn left(self) -> int {
        match self.phase {
            SearchPhase::Candidate(i) => 5 + self.candidates.len() - i,
            SearchPhase::Lookup(second) => if second {
                2
            } else {
                4
            },
            SearchPhase::Printed(second) => if second {
                1
            } else {
                3
            },
            _ => 0,
        }
    }

    /// The search after one more answer of the machine.
    pub open spec fn stepped(self, w: World) -> SearchModel {
        match self.question() {
            QuestionModel::Run { program, args } => self.ran((w.run)(program, args)),
            QuestionModel::Exists(p) => self.looked((w.exists)(p)),
            QuestionModel::Finished => self,
        }
    }

    /// The search after all answers of the machine.
    pub open spec fn searched(self, w: World) -> SearchModel
        decreases self.left(),
        when self.wf()
    {
        if self.left() == 0 {
            self
        } else {
            self.stepped(w).searched(w)
        }
    }
}

/// The first path that exists.
pub open spec fn first_existing(paths: Seq<Seq<char>>, w: World) -> Option<Seq<char>>
    decreases paths.len(),
{
    if paths.len() == 0 {
        None
    } else if (w.exists)(paths[0]) {
        Some(paths[0])
    } else {
        first_existing(paths.drop_first(), w)
    }
}

/// What a lookup program knows of `nvcc`.
pub open spec fn looked_up(second: bool, w: World) -> Seq<Seq<char>> {
    match first_line((w.run)(lookup_name(second), seq!["nvcc"@])) {
        Some(line) => seq![text::trim(line)],
        None => Seq::empty(),
    }
}

proof fn lookup_finds(s: SearchModel, w: World, second: bool)
    requires
        s.wf(),
        s.phase == SearchPhase::Lookup(second),
    ensures
        s.searched(w).found() == first_existing(
            if second {
                looked_up(true, w)
            } else {
                looked_up(false, w) + looked_up(true, w)
            },
            w,
        ),
        s.searched(w).phase == SearchPhase::Found || s.searched(w).phase == SearchPhase::NotFound,
    decreases s.left(),
{
    let all = if second {
        looked_up(true, w)
    } else {
        looked_up(false, w) + looked_up(true, w)
    };
    let n = s.stepped(w);
    let own = looked_up(second, w);
    reveal_with_fuel(first_existing, 2);
    match first_line((w.run)(lookup_name(second), seq!["nvcc"@])) {
        Some(line) => {
            let p = text::trim(line);
            assert(all[0] == p);
            assert(n.phase == SearchPhase::Printed(second) && n.path == p);
            let m = n.stepped(w);
            assert(s.searched(w) == n.searched(w));
            assert(n.searched(w) == m.searched(w));
            if (w.exists)(p) {
                assert(m.searched(w) == m);
            } else if second {
                assert(m.searched(w) == m);
                assert(all.drop_first() =~= Seq::empty());
            } else {
                assert(all.drop_first() =~= looked_up(true, w));
                lookup_finds(m, w, true);
            }
        },
        None => {
            assert(s.searched(w) == n.searched(w));
            if second {
                assert(n.searched(w) == n);
            } else {
                assert(all =~= looked_up(true, w));
                lookup_finds(n, w, true);
            }
        },
    }
}

proof fn candidates_find(s: SearchModel, w: World, i: usize)
    requires
        s.wf(),
        s.phase == SearchPhase::Candidate(i),
    ensures
        s.searched(w).found() == first_existing(
            s.candidates.skip(i as int) + looked_up(false, w) + looked_up(true, w),
            w,
        ),
        s.searched(w).phase == SearchPhase::Found || s.searched(w).phase == SearchPhase::NotFound,
    decreases s.left(),
{
    let rest = looked_up(false, w) + looked_up(true, w);
    let all = s.candidates.skip(i as int) + looked_up(false, w) + looked_up(true, w);
    let n = s.stepped(w);
    assert(all[0] == s.candidates[i as int]);
    assert(s.searched(w) == n.searched(w));
    if (w.exists)(s.candidates[i as int]) {
        assert(n.searched(w) == n);
    } else if i + 1 < s.candidates.len() {
        candidates_find(n, w, (i + 1) as usize);
        assert(all.drop_first() =~= s.candidates.skip(i + 1) + looked_up(false, w) + looked_up(
            true,
            w,
        ));
    } else {
        lookup_finds(n, w, false);
        assert(all.drop_first() =~= rest);
    }
}

/// The search finds the first path that exists: of the environment's, of the usual ones, and of
/// what the two lookup programs print. It finds nothing only where none of them exists.
pub proof fn search_finds_first(environment: Seq<Seq<char>>, w: World)
    requires
        environment.len() + direct_paths().len() <= usize::MAX,
    ensures
        ({
            let s = SearchModel {
                candidates: environment + direct_paths(),
                path: Seq::empty(),
                phase: SearchPhase::Candidate(0),
            };
            &&& s.searched(w).question() == QuestionModel::Finished
            &&& s.searched(w).found() == first_existing(
                environment + direct_paths() + looked_up(false, w) + looked_up(true, w),
                w,
            )
        }),
{
    let s = SearchModel {
        candidates: environment + direct_paths(),
        path: Seq::empty(),
        phase: SearchPhase::Candidate(0),
    };
    candidates_find(s, w, 0);
    assert(s.candidates.skip(0) =~= s.candidates);
}

/// How far the survey of the machine has come.
#[derive(Debug, Clone, Copy, PartialEq, Eq, Structural)]
pub enum Phase {
    Rustc,
    Gpu,
    /// Searching for `nvcc`.
    Nvcc,
    /// Asking `nvcc` for its version.
    Version,
    /// Asking Windows for a compiler on the search path.
    WhereCl,
    /// Asking whether a place of Visual Studio exists.
    Studio(usize),
    /// Asking a compiler for its version.
    Compiler(usize),
    Done,
}

/// The survey of the machine.
#[derive(Debug, Clone)]
pub struct Survey {
    pub report: DependencyReport,
    pub search: NvccSearch,
    pub phase: Phase,
}

/// What a [`Survey`] knows.
#[verifier::ext_equal]
pub struct SurveyModel {
    pub report: ReportModel,
    pub search: SearchModel,
    pub phase: Phase,
}

impl View for Survey {
    type V = SurveyModel;

    open spec fn view(&self) -> SurveyModel {
        SurveyModel { report: self.report@, search: self.search@, phase: self.phase }
    }
}

/// The compilers that are tried where there is no Windows.
pub open spec fn compilers() -> Seq<Seq<char>> {
    seq!["gcc"@, "clang"@, "g++"@]
}

fn compiler_list() -> (r: Vec<&'static str>)
    ensures
        names(r@) == compilers(),
{
    let v: Vec<&'static str> = vec!["gcc", "clang", "g++"];
    assert(names(v@) =~= compilers());
    v
}

/// What the GPU driver is asked for.
pub open spec fn gpu_args() -> Seq<Seq<char>> {
    seq![
        "--query-gpu=gpu_name,driver_version,compute_cap"@,
        "--format=csv,noheader,nounits"@,
    ]
}

/// The report with a host compiler.
pub open spec fn with_compiler(r: ReportModel, info: Option<Seq<char>>) -> ReportModel {
    ReportModel { host_compiler_available: true, host_compiler_info: info, ..r }
}

/// The first phase of the search for a host compiler.
pub open spec fn host_phase(r: ReportModel) -> Phase {
    if r.is_windows {
        Phase::WhereCl
    } else {
        Phase::Compiler(0)
    }
}

impl SurveyModel {
    pub open spec fn wf(self) -> bool {
        &&& self.search.wf()
        &&& self.phase is Rustc || self.phase is Gpu || self.phase is Nvcc
            ==> self.search.question() != QuestionModel::Finished
        &&& self.phase == Phase::Version ==> self.report.nvcc_path is Some
        &&& self.phase matches Phase::Studio(i) ==> i < studio_paths().len()
        &&& self.phase matches Phase::Compiler(i) ==> i < compilers().len()
    }

    pub open spec fn at(self, phase: Phase) -> SurveyModel {
        SurveyModel { phase, ..self }
    }

    /// What to ask next.
    pub open spec fn question(self) -> QuestionModel {
        match self.phase {
            Phase::Rustc => QuestionModel::Run { program: "rustc"@, args: seq!["--version"@] },
            Phase::Gpu => QuestionModel::Run { program: "nvidia-smi"@, args: gpu_args() },
            Phase::Nvcc => self.search.question(),
            Phase::Version => QuestionModel::Run {
                program: self.report.nvcc_path->Some_0,
                args: seq!["--version"@],
            },
            Phase::WhereCl => QuestionModel::Run { program: "where"@, args: seq!["cl"@] },
            Phase::Studio(i) => QuestionModel::Exists(studio_paths()[i as int]),
            Phase::Compiler(i) => QuestionModel::Run {
                program: compilers()[i as int],
                args: seq!["--version"@],
            },
            Phase::Done => QuestionModel::Finished,
        }
    }

    /// The survey after an answer that the search for `nvcc` has taken.
    pub open spec fn with_search(self, search: SearchModel) -> SurveyModel {
        match search.phase {
            SearchPhase::Found => SurveyModel {
                report: ReportModel {
                    cuda_available: true,
                    nvcc_path: Some(search.path),
                    ..self.report
                },
                search,
                phase: Phase::Version,
            },
            SearchPhase::NotFound => SurveyModel { search, phase: host_phase(self.report), ..self },
            _ => SurveyModel { search, ..self },
        }
    }

    /// The survey after a program was run.
    pub open spec fn ran(self, out: Option<Seq<char>>) -> SurveyModel {
        match self.phase {
            Phase::Rustc => SurveyModel {
                report: ReportModel { rust_version: trimmed_in(out), ..self.report },
                phase: Phase::Gpu,
                ..self
            },
            Phase::Gpu => SurveyModel {
                report: with_gpu(self.report, out),
                phase: Phase::Nvcc,
                ..self
            },
            Phase::Nvcc => self.with_search(self.search.ran(out)),
            Phase::Version => SurveyModel {
                report: ReportModel { nvcc_version: toolkit_version(out), ..self.report },
                phase: host_phase(self.report),
                ..self
            },
            Phase::WhereCl => if out is Some && out->Some_0.len() > 0 {
                SurveyModel {
                    report: with_compiler(self.report, Some("MSVC cl.exe detected"@)),
                    phase: Phase::Done,
                    ..self
                }
            } else {
                self.at(Phase::Studio(0))
            },
            Phase::Compiler(i) => if out is Some {
                SurveyModel {
                    report: with_compiler(self.report, trimmed_in(first_line(out))),
                    phase: Phase::Done,
                    ..self
                }
            } else if i + 1 < compilers().len() {
                self.at(Phase::Compiler((i + 1) as usize))
            } else {
                self.at(Phase::Done)
            },
            _ => self,
        }
    }

    /// The survey after a path was looked up.
    pub open spec fn looked(self, there: bool) -> SurveyModel {
        match self.phase {
            Phase::Nvcc => self.with_search(self.search.looked(there)),
            Phase::Studio(i) => if there {
                SurveyModel {
                    report: with_compiler(
                        self.report,
                        Some("MSVC found at "@ + studio_paths()[i as int]),
                    ),
                    phase: Phase::Done,
                    ..self
                }
            } else if i + 1 < studio_paths().len() {
                self.at(Phase::Studio((i + 1) as usize))
            } else {
                self.at(Phase::Done)
            },
            _ => self,
        }
    }
}

/// The report before anything is asked: only what the system is.
pub open spec fn system_report(os_name: Seq<char>, windows: bool, unix: bool) -> ReportModel {
    ReportModel {
        os_name,
        is_windows: windows || os_name == "windows"@,
        is_linux: unix || os_name == "linux"@,
        ..blank()
    }
}

/// The survey before anything is asked.
pub open spec fn fresh_survey(
    os_name: Seq<char>,
    windows: bool,
    unix: bool,
    environment: Seq<Seq<char>>,
) -> SurveyModel {
    SurveyModel {
        report: system_report(os_name, windows, unix),
        search: SearchModel {
            candidates: environment + direct_paths(),
            path: Seq::empty(),
            phase: SearchPhase::Candidate(0),
        },
        phase: Phase::Rustc,
    }
}

impl Survey {
    /// The survey of a system of that name. `environment` are the paths of `nvcc` that the
    /// environment names.
    pub fn start(os_name: String, windows: bool, unix: bool, environment: Vec<String>) -> (r: Self)
        ensures
            r@ == fresh_survey(os_name@, windows, unix, text::strings(environment@)),
            r@.wf(),
    {
        let mut report = DependencyReport::default();
        report.is_windows = windows || str_same(os_name.as_str(), "windows");
        report.is_linux = unix || str_same(os_name.as_str(), "linux");
        report.os_name = os_name;
        Survey { report, search: NvccSearch::start(environment), phase: Phase::Rustc }
    }

    /// What to ask next.
    pub fn question(&self) -> (r: Question)
        requires
            self@.wf(),
        ensures
            r@ == self@.question(),
    {
        match self.phase {
            Phase::Rustc => run_with("rustc", "--version"),
            Phase::Gpu => {
                let mut args: Vec<String> = Vec::new();
                args.push("--query-gpu=gpu_name,driver_version,compute_cap".to_owned());
                args.push("--format=csv,noheader,nounits".to_owned());
                assert(text::strings(args@) =~= gpu_args());
                Question::Run { program: "nvidia-smi".to_owned(), args }
            },
            Phase::Nvcc => self.search.question(),
            Phase::Version => match &self.report.nvcc_path {
                Some(p) => run_with(p.as_str(), "--version"),
                None => Question::Finished,
            },
            Phase::WhereCl => run_with("where", "cl"),
            Phase::Studio(i) => {
                let places = studio_path_list();
                assert(names(places@)[i as int] == places@[i as int]@);
                assert(names(places@).len() == places@.len());
                Question::Exists(places[i].to_owned())
            },
            Phase::Compiler(i) => {
                let ccs = compiler_list();
                assert(names(ccs@)[i as int] == ccs@[i as int]@);
                assert(names(ccs@).len() == ccs@.len());
                run_with(ccs[i], "--version")
            },
            Phase::Done => Question::Finished,
        }
    }

    fn host_phase(&self) -> (r: Phase)
        ensures
            r == host_phase(self@.report),
    {
        if self.report.is_windows {
            Phase::WhereCl
        } else {
            Phase::Compiler(0)
        }
    }

    fn after_search(&mut self)
        requires
            old(self).phase == Phase::Nvcc,
        ensures
            final(self)@ == old(self)@.with_search(old(self)@.search),
    {
        match self.search.phase {
            SearchPhase::Found => {
                self.report.cuda_available = true;
                self.report.nvcc_path = self.search.found();
                self.phase = Phase::Version;
            },
            SearchPhase::NotFound => {
                self.phase = self.host_phase();
            },
            _ => {},
        }
    }

    /// Takes what a program printed, where it ran and did not fail.
    pub fn ran(&mut self, out: Option<&str>)
        requires
            old(self)@.wf(),
        ensures
            final(self)@ == old(self)@.ran(given(out)),
            final(self)@.wf(),
    {
        match self.phase {
            Phase::Rustc => {
                self.report.rust_version = trimmed_answer(out);
                self.phase = Phase::Gpu;
            },
            Phase::Gpu => {
                read_gpu(&mut self.report, out);
                self.phase = Phase::Nvcc;
            },
            Phase::Nvcc => {
                self.search.ran(out);
                self.after_search();
            },
            Phase::Version => {
                self.report.nvcc_version = read_version(out);
                self.phase = self.host_phase();
            },
            Phase::WhereCl => {
                let printed = match out {
                    Some(t) => chars_of(t).len() > 0,
                    None => false,
                };
                if printed {
                    self.report.host_compiler_available = true;
                    self.report.host_compiler_info = Some("MSVC cl.exe detected".to_owned());
                    self.phase = Phase::Done;
                } else {
                    self.phase = Phase::Studio(0);
                }
            },
            Phase::Compiler(i) => {
                if out.is_some() {
                    self.report.host_compiler_available = true;
                    self.report.host_compiler_info = trimmed_first_line(out);
                    self.phase = Phase::Done;
                } else if i + 1 < 3 {
                    self.phase = Phase::Compiler(i + 1);
                } else {
                    self.phase = Phase::Done;
                }
            },
            _ => {},
        }
    }

    /// Takes whether a path exists.
    pub fn looked(&mut self, there: bool)
        requires
            old(self)@.wf(),
        ensures
            final(self)@ == old(self)@.looked(there),
            final(self)@.wf(),
    {
        match self.phase {
            Phase::Nvcc => {
                self.search.looked(there);
                self.after_search();
            },
            Phase::Studio(i) => {
                if there {
                    let places = studio_path_list();
                    assert(names(places@)[i as int] == places@[i as int]@);
                    assert(names(places@).len() == places@.len());
                    self.report.host_compiler_available = true;
                    self.report.host_compiler_info = Some(joined("MSVC found at ", places[i]));
                    self.phase = Phase::Done;
                } else if i + 1 < 4 {
                    self.phase = Phase::Studio(i + 1);
                } else {
                    self.phase = Phase::Done;
                }
            },
            _ => {},
        }
    }
}

impl SurveyModel {
    /// How many questions are left at most.
    pub open spec fn left(self) -> int {
        match self.phase {
            Phase::Rustc => 22 + self.search.left(),
            Phase::Gpu => 21 + self.search.left(),
            Phase::Nvcc => 20 + self.search.left(),
            Phase::Version => 10,
            Phase::WhereCl => 9,
            Phase::Studio(i) => studio_paths().len() - i,
            Phase::Compiler(i) => compilers().len() - i,
            Phase::Done => 0,
        }
    }

    /// The survey after one more answer of the machine.
    pub open spec fn stepped(self, w: World) -> SurveyModel {
        match self.question() {
            QuestionModel::Run { program, args } => self.ran((w.run)(program, args)),
            QuestionModel::Exists(p) => self.looked((w.exists)(p)),
            QuestionModel::Finished => self,
        }
    }

    /// The survey after all answers of the machine.
    pub open spec fn surveyed(self, w: World) -> SurveyModel
        decreases self.left(),
        when self.wf()
    {
        if self.left() == 0 {
            self
        } else {
            self.stepped(w).surveyed(w)
        }
    }
}

/// What the first of the compilers prints that can be run.
pub open spec fn first_version(ccs: Seq<Seq<char>>, w: World) -> Option<Seq<char>>
    decreases ccs.len(),
{
    if ccs.len() == 0 {
        None
    } else if (w.run)(ccs[0], seq!["--version"@]) is Some {
        (w.run)(ccs[0], seq!["--version"@])
    } else {
        first_version(ccs.drop_first(), w)
    }
}

/// The report with the first place of Visual Studio that exists.
pub open spec fn with_studio(r: ReportModel, places: Seq<Seq<char>>, w: World) -> ReportModel {
    match first_existing(places, w) {
        Some(p) => with_compiler(r, Some("MSVC found at "@ + p)),
        None => r,
    }
}

/// The report with the first of the compilers that can be run.
pub open spec fn with_first_compiler(r: ReportModel, ccs: Seq<Seq<char>>, w: World) -> ReportModel {
    match first_version(ccs, w) {
        Some(out) => with_compiler(r, trimmed_in(first_line(Some(out)))),
        None => r,
    }
}

/// The report with the host compiler of the machine.
pub open spec fn with_host(r: ReportModel, w: World) -> ReportModel {
    if r.is_windows {
        let out = (w.run)("where"@, seq!["cl"@]);
        if out is Some && out->Some_0.len() > 0 {
            with_compiler(r, Some("MSVC cl.exe detected"@))
        } else {
            with_studio(r, studio_paths(), w)
        }
    } else {
        with_first_compiler(r, compilers(), w)
    }
}

/// The report with the CUDA toolkit of the machine.
pub open spec fn with_toolkit(
    r: ReportModel,
    environment: Seq<Seq<char>>,
    w: World,
) -> ReportModel {
    match first_existing(
        environment + direct_paths() + looked_up(false, w) + looked_up(true, w),
        w,
    ) {
        Some(p) => ReportModel {
            cuda_available: true,
            nvcc_path: Some(p),
            nvcc_version: toolkit_version((w.run)(p, seq!["--version"@])),
            ..r
        },
        None => r,
    }
}

/// What there is to say of the machine.
pub open spec fn report_of(
    os_name: Seq<char>,
    windows: bool,
    unix: bool,
    environment: Seq<Seq<char>>,
    w: World,
) -> ReportModel {
    let system = ReportModel {
        rust_version: trimmed_in((w.run)("rustc"@, seq!["--version"@])),
        ..system_report(os_name, windows, unix)
    };
    let gpu = with_gpu(system, (w.run)("nvidia-smi"@, gpu_args()));
    with_host(with_toolkit(gpu, environment, w), w)
}

proof fn studio_ends(s: SurveyModel, w: World, i: usize)
    requires
        s.wf(),
        s.phase == Phase::Studio(i),
    ensures
        s.surveyed(w).report == with_studio(s.report, studio_paths().skip(i as int), w),
        s.surveyed(w).phase == Phase::Done,
    decreases s.left(),
{
    let n = s.stepped(w);
    let rest = studio_paths().skip(i as int);
    assert(rest[0] == studio_paths()[i as int]);
    assert(s.surveyed(w) == n.surveyed(w));
    reveal_with_fuel(first_existing, 2);
    if (w.exists)(studio_paths()[i as int]) {
        assert(n.surveyed(w) == n);
    } else if i + 1 < studio_paths().len() {
        assert(rest.drop_first() =~= studio_paths().skip(i + 1));
        studio_ends(n, w, (i + 1) as usize);
    } else {
        assert(n.surveyed(w) == n);
        assert(rest.drop_first() =~= Seq::empty());
    }
}

proof fn compilers_end(s: SurveyModel, w: World, i: usize)
    requires
        s.wf(),
        s.phase == Phase::Compiler(i),
    ensures
        s.surveyed(w).report == with_first_compiler(s.report, compilers().skip(i as int), w),
        s.surveyed(w).phase == Phase::Done,
    decreases s.left(),
{
    let n = s.stepped(w);
    let rest = compilers().skip(i as int);
    assert(rest[0] == compilers()[i as int]);
    assert(s.surveyed(w) == n.surveyed(w));
    reveal_with_fuel(first_version, 2);
    if (w.run)(compilers()[i as int], seq!["--version"@]) is Some {
        assert(n.surveyed(w) == n);
    } else if i + 1 < compilers().len() {
        assert(rest.drop_first() =~= compilers().skip(i + 1));
        compilers_end(n, w, (i + 1) as usize);
    } else {
        assert(n.surveyed(w) == n);
        assert(rest.drop_first() =~= Seq::empty());
    }
}

proof fn host_ends(s: SurveyModel, w: World)
    requires
        s.wf(),
        s.phase == host_phase(s.report),
    ensures
        s.surveyed(w).report == with_host(s.report, w),
        s.surveyed(w).phase == Phase::Done,
{
    if s.report.is_windows {
        let n = s.stepped(w);
        assert(s.surveyed(w) == n.surveyed(w));
        let out = (w.run)("where"@, seq!["cl"@]);
        if out is Some && out->Some_0.len() > 0 {
            assert(n.surveyed(w) == n);
        } else {
            studio_ends(n, w, 0);
            assert(studio_paths().skip(0) =~= studio_paths());
        }
    } else {
        compilers_end(s, w, 0);
        assert(compilers().skip(0) =~= compilers());
    }
}

proof fn search_within(s: SurveyModel, w: World)
    requires
        s.wf(),
        s.phase == Phase::Nvcc,
    ensures
        s.surveyed(w) == s.with_search(s.search.searched(w)).surveyed(w),
    decreases s.search.left(),
{
    let n = s.search.stepped(w);
    assert(s.search.searched(w) == n.searched(w));
    assert(s.stepped(w) == s.with_search(n));
    assert(s.surveyed(w) == s.with_search(n).surveyed(w));
    if n.phase == SearchPhase::Found || n.phase == SearchPhase::NotFound {
        assert(n.searched(w) == n);
    } else {
        search_within(s.with_search(n), w);
        assert(s.with_search(n).with_search(n.searched(w)) == s.with_search(n.searched(w)));
    }
}

/// A survey of a machine that does not change while it is surveyed ends, and its report is what
/// there is to say of the machine: the compiler, driver and toolkit that the first working
/// source names, and nothing where no source does.
pub proof fn survey_reports(
    os_name: Seq<char>,
    windows: bool,
    unix: bool,
    environment: Seq<Seq<char>>,
    w: World,
)
    requires
        environment.len() + direct_paths().len() <= usize::MAX,
    ensures
        ({
            let s = fresh_survey(os_name, windows, unix, environment).surveyed(w);
            &&& s.question() == QuestionModel::Finished
            &&& s.report == report_of(os_name, windows, unix, environment, w)
        }),
{
    let s0 = fresh_survey(os_name, windows, unix, environment);
    let s1 = s0.stepped(w);
    let s2 = s1.stepped(w);
    assert(s0.surveyed(w) == s1.surveyed(w));
    assert(s1.surveyed(w) == s2.surveyed(w));
    search_within(s2, w);
    search_finds_first(environment, w);
    let found = s2.search.searched(w);
    candidates_find(s2.search, w, 0);
    let s3 = s2.with_search(found);
    searched_wf(s2.search, w);
    if found.phase == SearchPhase::Found {
        let s4 = s3.stepped(w);
        assert(s3.surveyed(w) == s4.surveyed(w));
        host_ends(s4, w);
    } else {
        host_ends(s3, w);
    }
}

proof fn searched_wf(s: SearchModel, w: World)
    requires
        s.wf(),
    ensures
        s.searched(w).wf(),
    decreases s.left(),
{
    if s.left() != 0 {
        searched_wf(s.stepped(w), w);
    }
}

/// The text, or `other` where there is none.
pub open spec fn or_else(o: Option<Seq<char>>, other: Seq<char>) -> Seq<char> {
    match o {
        Some(s) => s,
        None => other,
    }
}

/// A heading and the text behind it, or `other` where there is none.
fn headed(head: &str, o: &Option<String>, other: &str) -> (r: String)
    ensures
        r@ == head@ + or_else(text_in(*o), other@),
{
    match o {
        Some(s) => joined(head, s.as_str()),
        None => joined(head, other),
    }
}

/// What is printed of the GPU.
pub open spec fn gpu_lines(r: ReportModel) -> Seq<Seq<char>> {
    if r.gpu_detected {
        seq![
            "NVIDIA GPU:       [OK] "@ + or_else(r.gpu_name, "Detected"@),
            "Driver Version:   "@ + or_else(r.driver_version, "Unknown"@),
            "Compute Arch:     "@ + or_else(r.compute_cap, "sm_75"@),
        ]
    } else {
        seq!["NVIDIA GPU:       [WARN] Not detected via nvidia-smi (CPU mode will be used)"@]
    }
}

/// What is printed of the CUDA toolkit.
pub open spec fn toolkit_lines(r: ReportModel) -> Seq<Seq<char>> {
    if r.cuda_available {
        let path = "CUDA Toolkit:     [OK] "@ + or_else(r.nvcc_path, ""@);
        match r.nvcc_version {
            Some(v) => seq![path, "CUDA Version:     "@ + v],
            None => seq![path],
        }
    } else {
        seq!["CUDA Toolkit:     [MISSING] nvcc was not found on PATH or default locations"@]
    }
}

/// What is printed of the host compiler.
pub open spec fn compiler_line(r: ReportModel) -> Seq<char> {
    if r.host_compiler_available {
        "C++ Host Tool:    [OK] "@ + or_else(r.host_compiler_info, "Installed"@)
    } else {
        "C++ Host Tool:    [MISSING] C++ compiler (MSVC cl.exe / gcc) required for CUDA build"@
    }
}

/// The verdict on the machine.
pub open spec fn status_lines(r: ReportModel) -> Seq<Seq<char>> {
    if r.gpu_detected && r.cuda_available && r.host_compiler_available {
        seq!["STATUS: ALL DEPENDENCIES SATISFIED FOR FULL HARDWARE ACCELERATION"@]
    } else if r.gpu_detected && !r.cuda_available {
        seq![
            "STATUS: NVIDIA GPU PRESENT BUT CUDA TOOLKIT IS MISSING."@,
            "        Automated zero-HITL installer can install it automatically."@,
        ]
    } else {
        seq!["STATUS: RUNNING IN CPU FALLBACK MODE."@]
    }
}

/// What is printed of the machine, line by line.
pub open spec fn printed_report(r: ReportModel) -> Seq<Seq<char>> {
    seq![
        "\n======================================================="@,
        " TRM-Omega: System & Hardware Dependency Diagnostics"@,
        "======================================================="@,
        "Operating System: "@ + r.os_name,
        "Rust Toolchain:   "@ + or_else(r.rust_version, "NOT FOUND"@),
    ] + gpu_lines(r) + toolkit_lines(r) + seq![
        compiler_line(r),
        "======================================================="@,
    ] + status_lines(r) + seq!["=======================================================\n"@]
}

fn push_text(out: &mut Vec<String>, s: &str)
    ensures
        text::strings(final(out)@) == text::strings(old(out)@).push(s@),
{
    let ghost before = text::strings(out@);
    out.push(s.to_owned());
    assert(text::strings(out@) =~= before.push(s@));
}

fn push_gpu_lines(out: &mut Vec<String>, report: &DependencyReport)
    ensures
        text::strings(final(out)@) == text::strings(old(out)@) + gpu_lines(report@),
{
    let ghost before = text::strings(out@);
    if report.gpu_detected {
        push_text(out, headed("NVIDIA GPU:       [OK] ", &report.gpu_name, "Detected").as_str());
        push_text(out, headed("Driver Version:   ", &report.driver_version, "Unknown").as_str());
        push_text(out, headed("Compute Arch:     ", &report.compute_cap, "sm_75").as_str());
    } else {
        push_text(
            out,
            "NVIDIA GPU:       [WARN] Not detected via nvidia-smi (CPU mode will be used)",
        );
    }
    assert(text::strings(out@) =~= before + gpu_lines(report@));
}

fn push_toolkit_lines(out: &mut Vec<String>, report: &DependencyReport)
    ensures
        text::strings(final(out)@) == text::strings(old(out)@) + toolkit_lines(report@),
{
    let ghost before = text::strings(out@);
    if report.cuda_available {
        push_text(out, headed("CUDA Toolkit:     [OK] ", &report.nvcc_path, "").as_str());
        match &report.nvcc_version {
            Some(v) => {
                push_text(out, joined("CUDA Version:     ", v.as_str()).as_str());
            },
            None => {},
        }
    } else {
        push_text(
            out,
            "CUDA Toolkit:     [MISSING] nvcc was not found on PATH or default locations",
        );
    }
    assert(text::strings(out@) =~= before + toolkit_lines(report@));
}

fn push_status_lines(out: &mut Vec<String>, report: &DependencyReport)
    ensures
        text::strings(final(out)@) == text::strings(old(out)@) + status_lines(report@),
{
    let ghost before = text::strings(out@);
    if report.is_fully_cuda_ready() {
        push_text(out, "STATUS: ALL DEPENDENCIES SATISFIED FOR FULL HARDWARE ACCELERATION");
    } else if report.gpu_detected && !report.cuda_available {
        push_text(out, "STATUS: NVIDIA GPU PRESENT BUT CUDA TOOLKIT IS MISSING.");
        push_text(out, "        Automated zero-HITL installer can install it automatically.");
    } else {
        push_text(out, "STATUS: RUNNING IN CPU FALLBACK MODE.");
    }
    assert(text::strings(out@) =~= before + status_lines(report@));
}

/// What is printed of the machine, line by line.
pub fn report_lines(report: &DependencyReport) -> (r: Vec<String>)
    ensures
        text::strings(r@) == printed_report(report@),
{
    let mut out: Vec<String> = Vec::new();
    push_text(&mut out, "\n=======================================================");
    push_text(&mut out, " TRM-Omega: System & Hardware Dependency Diagnostics");
    push_text(&mut out, "=======================================================");
    push_text(&mut out, joined("Operating System: ", report.os_name.as_str()).as_str());
    push_text(&mut out, headed("Rust Toolchain:   ", &report.rust_version, "NOT FOUND").as_str());
    push_gpu_lines(&mut out, report);
    push_toolkit_lines(&mut out, report);
    if report.host_compiler_available {
        push_text(
            &mut out,
            headed("C++ Host Tool:    [OK] ", &report.host_compiler_info, "Installed").as_str(),
        );
    } else {
        push_text(
            &mut out,
            "C++ Host Tool:    [MISSING] C++ compiler (MSVC cl.exe / gcc) required for CUDA build",
        );
    }
    push_text(&mut out, "=======================================================");
    push_status_lines(&mut out, report);
    push_text(&mut out, "=======================================================\n");
    assert(text::strings(out@) =~= printed_report(report@));
    out
}

} // verus!
