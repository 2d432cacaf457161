use backstage_app_lib::launcher::{is_absolute, launch_outcome};
use std::sync::Mutex;

use backstage_app_lib::launcher::{LaunchError, Launcher, Platform, ProcessRequest, ProcessRunner};

#[derive(Default)]
struct RecordingRunner {
    requests: Mutex<Vec<ProcessRequest>>,
}

impl ProcessRunner for RecordingRunner {
    fn spawn(&self, request: ProcessRequest) -> Result<(), String> {
        self.requests.lock().expect("request lock").push(request);
        Ok(())
    }
}

struct FailingRunner;

impl ProcessRunner for FailingRunner {
    fn spawn(&self, _request: ProcessRequest) -> Result<(), String> {
        Err("no terminal".to_owned())
    }
}

#[test]
fn macos_terminal_launch_only_opens_the_project_directory() {
    let runner = RecordingRunner::default();
    let launcher = Launcher::new(&runner, Platform::MacOs);

    launcher
        .open_terminal("/Users/dev/workbench")
        .expect("terminal request");

    let requests = runner.requests.lock().expect("request lock");
    assert_eq!(requests.len(), 1);
    assert_eq!(requests[0].program, "/usr/bin/open");
    assert_eq!(
        requests[0].arguments,
        ["-a", "Terminal", "/Users/dev/workbench"]
    );
    assert!(requests[0].working_directory.is_none());
    assert!(
        !requests[0]
            .arguments
            .iter()
            .any(|argument| argument.contains("git "))
    );
}

#[test]
fn unsupported_external_target_offers_copy_alternatives() {
    let runner = RecordingRunner::default();
    let launcher = Launcher::new(&runner, Platform::MacOs);

    let error = launcher
        .open_external("superset", "/Users/dev/workbench")
        .expect_err("unsupported target");

    assert_eq!(
        error,
        LaunchError::UnsupportedTarget {
            target: "superset".to_owned(),
            alternatives: vec!["copy_path".to_owned(), "copy_prompt".to_owned()],
        }
    );
    assert!(runner.requests.lock().expect("request lock").is_empty());
}

#[test]
fn other_platforms_open_the_project_with_the_desktop_handler() {
    let runner = RecordingRunner::default();
    let launcher = Launcher::new(&runner, Platform::Other);

    launcher.open_terminal("/home/dev/work\\bench").expect("terminal request");

    let requests = runner.requests.lock().expect("request lock");
    assert_eq!(requests[0].program, "xdg-open");
    assert_eq!(requests[0].arguments, ["/home/dev/work/bench"]);
}

#[test]
fn relative_project_paths_are_refused_before_spawning() {
    let runner = RecordingRunner::default();
    let launcher = Launcher::new(&runner, Platform::MacOs);

    assert_eq!(
        launcher.open_terminal("dev/workbench"),
        Err(LaunchError::InvalidProjectPath)
    );
    assert!(runner.requests.lock().expect("request lock").is_empty());
}

#[test]
fn runner_failures_are_reported_as_launch_failures() {
    let launcher = Launcher::new(&FailingRunner, Platform::MacOs);

    assert_eq!(
        launcher.open_terminal("/Users/dev/workbench"),
        Err(LaunchError::Failed("no terminal".to_owned()))
    );
}

#[test]
fn runner_answers_map_to_launch_results() {
    assert_eq!(launch_outcome(Ok(())), Ok(()));
    assert_eq!(
        launch_outcome(Err("busy".to_owned())),
        Err(LaunchError::Failed("busy".to_owned()))
    );
}

#[test]
fn windows_drive_and_server_paths_are_absolute_there_only() {
    assert!(is_absolute(Platform::Windows, "C:\\dev\\workbench"));
    assert!(is_absolute(Platform::Windows, "d:/dev"));
    assert!(is_absolute(Platform::Windows, "\\\\server\\share"));
    assert!(!is_absolute(Platform::Windows, "C:dev"));
    assert!(!is_absolute(Platform::Windows, "dev\\workbench"));
    assert!(!is_absolute(Platform::MacOs, "C:\\dev"));
    assert!(is_absolute(Platform::Other, "/home/dev"));

    let runner = RecordingRunner::default();
    let launcher = Launcher::new(&runner, Platform::Windows);
    launcher.open_terminal("C:\\dev\\workbench").expect("terminal request");
    let requests = runner.requests.lock().expect("request lock");
    assert_eq!(requests[0].arguments, ["C:/dev/workbench"]);
}

#[test]
fn a_launcher_accepts_a_runner_trait_object() {
    let runner = RecordingRunner::default();
    let shared: &dyn ProcessRunner = &runner;
    let launcher = Launcher::new(shared, Platform::MacOs);
    assert_eq!(launcher.open_terminal("/p"), Ok(()));
}
