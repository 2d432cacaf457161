//! Requests that open a project in an external application.

use vstd::prelude::*;

use crate::text::{forward_slashes, has_prefix, normalize_separators, starts_with};

verus! {

/// The operating system family a launch request is built for.
#[derive(Clone, Copy, Debug, PartialEq, Eq, Structural)]
pub enum Platform {
    MacOs,
    Windows,
    Other,
}

/// A process to start, described by plain values.
#[derive(Debug, PartialEq, Eq)]
pub struct ProcessRequest {
    pub program: String,
    pub arguments: Vec<String>,
    pub working_directory: Option<String>,
}

/// Starts processes on behalf of the launcher.
pub trait ProcessRunner {
    /// Whether this runner may answer `answer` when asked to start
    /// `request`. A runner that does not describe its answers may give any.
    closed spec fn may_answer(&self, request: RequestView, answer: Result<(), Seq<char>>) -> bool {
        true
    }

    /// Starts `request`; the answer is one the runner may give for it.
    fn spawn(&self, request: ProcessRequest) -> (r: Result<(), String>)
        ensures
            self.may_answer(request@, spawn_view(r)),
    ;
}

/// The answer of a process runner, by its view.
pub open spec fn spawn_view(r: Result<(), String>) -> Result<(), Seq<char>> {
    match r {
        Ok(()) => Ok(()),
        Err(m) => Err(m@),
    }
}

/// Opens projects through a process runner (any runner, a trait object
/// among them).
pub struct Launcher<'a, R: ProcessRunner + ?Sized> {
    runner: &'a R,
    platform: Platform,
}

/// Why a launch did not happen.
#[derive(Clone, Debug, PartialEq, Eq)]
pub enum LaunchError {
    InvalidProjectPath,
    UnsupportedTarget { target: String, alternatives: Vec<String> },
    Failed(String),
}

/// Whether a path is absolute, as `Path::is_absolute` decides on the
/// platform: on Windows a drive letter, a colon and a separator, or a
/// `\\` server or device prefix; elsewhere a leading `/`.
pub open spec fn is_absolute_path(platform: Platform, path: Seq<char>) -> bool {
    match platform {
        Platform::Windows => {
            ||| (path.len() >= 3 && (('a' <= path[0] && path[0] <= 'z') || ('A' <= path[0] && path[0]
                <= 'Z')) && path[1] == ':' && (path[2] == '\\' || path[2] == '/'))
            ||| has_prefix(path, seq!['\\', '\\'])
        },
        _ => has_prefix(path, "/"@),
    }
}

/// Decides whether `path` is absolute on `platform`.
pub fn is_absolute(platform: Platform, path: &str) -> (r: bool)
    ensures
        r == is_absolute_path(platform, path@),
{
    match platform {
        Platform::Windows => {
            let n = path.unicode_len();
            if n >= 3 {
                let d = path.get_char(0);
                let colon = path.get_char(1);
                let sep = path.get_char(2);
                if (('a' <= d && d <= 'z') || ('A' <= d && d <= 'Z')) && colon == ':' && (sep == '\\'
                    || sep == '/') {
                    return true;
                }
            }
            if n >= 2 && path.get_char(0) == '\\' && path.get_char(1) == '\\' {
                assert(path@.take(2) =~= seq!['\\', '\\']);
                return true;
            }
            proof {
                if has_prefix(path@, seq!['\\', '\\']) {
                    assert(path@.take(2)[0] == '\\' && path@.take(2)[1] == '\\');
                }
            }
            false
        },
        _ => starts_with(path, "/"),
    }
}

/// Mathematical view of a process request.
pub struct RequestView {
    pub program: Seq<char>,
    pub arguments: Seq<Seq<char>>,
    pub working_directory: Option<Seq<char>>,
}

impl View for ProcessRequest {
    type V = RequestView;

    open spec fn view(&self) -> RequestView {
        RequestView {
            program: self.program@,
            arguments: self.arguments@.map_values(|a: String| a@),
            working_directory: match self.working_directory {
                Some(d) => Some(d@),
                None => None,
            },
        }
    }
}

/// The request that opens a terminal in `project_root`: the Terminal
/// application on macOS, the desktop's default handler elsewhere. No
/// command is run inside the project.
pub open spec fn terminal_request_of(platform: Platform, project_root: Seq<char>) -> RequestView {
    match platform {
        Platform::MacOs => RequestView {
            program: "/usr/bin/open"@,
            arguments: seq!["-a"@, "Terminal"@, forward_slashes(project_root)],
            working_directory: None,
        },
        Platform::Other | Platform::Windows => RequestView {
            program: "xdg-open"@,
            arguments: seq![forward_slashes(project_root)],
            working_directory: None,
        },
    }
}

/// Builds the request that opens a terminal in `project_root`.
pub fn terminal_request(platform: Platform, project_root: &str) -> (r: ProcessRequest)
    ensures
        r@ == terminal_request_of(platform, project_root@),
{
    let r = match platform {
        Platform::MacOs => ProcessRequest {
            program: "/usr/bin/open".to_owned(),
            arguments: vec!["-a".to_owned(), "Terminal".to_owned(), normalize_separators(project_root)],
            working_directory: None,
        },
        Platform::Other | Platform::Windows => ProcessRequest {
            program: "xdg-open".to_owned(),
            arguments: vec![normalize_separators(project_root)],
            working_directory: None,
        },
    };
    assert(r@.arguments =~= terminal_request_of(platform, project_root@).arguments);
    r
}

/// What a launch reports once the runner answered: success, or the
/// runner's failure message as `Failed`.
pub open spec fn launch_outcome_of(spawned: Result<(), String>) -> Result<(), LaunchError> {
    match spawned {
        Ok(()) => Ok(()),
        Err(m) => Err(LaunchError::Failed(m)),
    }
}

/// Whether `r` is the launch result for the runner's answer `answer`.
pub open spec fn launch_outcome_matches(r: Result<(), LaunchError>, answer: Result<(), Seq<char>>) -> bool {
    match answer {
        Ok(()) => r is Ok,
        Err(m) => r matches Err(LaunchError::Failed(message)) && message@ == m,
    }
}

/// Maps the runner's answer to a launch result.
pub fn launch_outcome(spawned: Result<(), String>) -> (r: Result<(), LaunchError>)
    ensures
        r == launch_outcome_of(spawned),
{
    match spawned {
        Ok(()) => Ok(()),
        Err(message) => Err(LaunchError::Failed(message)),
    }
}

impl<'a, R: ProcessRunner + ?Sized> Launcher<'a, R> {
    /// A launcher that starts processes through `runner` for `platform`.
    pub fn new(runner: &'a R, platform: Platform) -> (l: Self)
        ensures
            l.platform() == platform,
            forall|request: RequestView, answer: Result<(), Seq<char>>|
                #[trigger] l.runner_may_answer(request, answer) == runner.may_answer(request, answer),
    {
        Launcher { runner, platform }
    }

    /// The platform requests are built for.
    pub closed spec fn platform(&self) -> Platform {
        self.platform
    }

    /// Whether the launcher's runner may answer `answer` to `request`.
    pub closed spec fn runner_may_answer(&self, request: RequestView, answer: Result<(), Seq<char>>) -> bool {
        self.runner.may_answer(request, answer)
    }

    /// Opens a terminal in an absolute project directory. A relative path is
    /// refused before anything is started; otherwise the runner receives
    /// `terminal_request(platform, project_root)` and its answer is mapped by
    /// `launch_outcome`; where the runner has only one answer for that
    /// request, the outcome is the one that answer maps to.
    pub fn open_terminal(&self, project_root: &str) -> (r: Result<(), LaunchError>)
        ensures
            !is_absolute_path(self.platform(), project_root@) ==> r == Err::<(), LaunchError>(
                LaunchError::InvalidProjectPath,
            ),
            is_absolute_path(self.platform(), project_root@) ==> exists|spawned: Result<(), String>|
                #[trigger] self.runner_may_answer(
                    terminal_request_of(self.platform(), project_root@),
                    spawn_view(spawned),
                ) && r == launch_outcome_of(spawned),
            is_absolute_path(self.platform(), project_root@) ==> forall|only: Result<(), Seq<char>>|
                (forall|other: Result<(), Seq<char>>|
                    #[trigger] self.runner_may_answer(terminal_request_of(self.platform(), project_root@), other)
                        ==> other == only) ==> #[trigger] launch_outcome_matches(r, only),
    {
        if !is_absolute(self.platform, project_root) {
            return Err(LaunchError::InvalidProjectPath);
        }
        let request = terminal_request(self.platform, project_root);
        let spawned = self.runner.spawn(request);
        let ghost s = spawned;
        let r = launch_outcome(spawned);
        assert(r == launch_outcome_of(s));
        assert(self.runner_may_answer(terminal_request_of(self.platform(), project_root@), spawn_view(s)));
        r
    }

    /// External targets are not launched; the error names the target and
    /// offers copying the path or the prompt instead.
    pub fn open_external(&self, target: &str, project_root: &str) -> (r: Result<(), LaunchError>)
        ensures
            r matches Err(LaunchError::UnsupportedTarget { target: t, alternatives: alts })
                && t@ == target@ && alts@.len() == 2 && alts@[0]@ == "copy_path"@
                && alts@[1]@ == "copy_prompt"@,
    {
        Err(
            LaunchError::UnsupportedTarget {
                target: target.to_owned(),
                alternatives: vec!["copy_path".to_owned(), "copy_prompt".to_owned()],
            },
        )
    }
}

} // verus!
