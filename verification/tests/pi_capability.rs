use backstage_app_lib::pi::{capability_request, capability_verdict};
use backstage_app_lib::launcher::Platform;
use backstage_app_lib::pi::{
    capability_outcome, check_output_size, generation_request, isolated_environment,
    parse_pi_output, pi_output_lines, probe_pi, sandbox_path, sandboxed_command, version_outcome,
    version_request, CommandOutput, CommandRequest, CommandRunner, PiCapability, PiConfig,
};

struct FixtureRunner {
    version: CommandOutput,
    probe: CommandOutput,
}

impl CommandRunner for FixtureRunner {
    fn run(&self, request: &CommandRequest) -> Result<CommandOutput, String> {
        if request.arguments == ["--version"] {
            return Ok(self.version.clone());
        }
        assert!(!request.arguments.iter().any(|argument| argument == "bash"));
        assert!(
            request
                .arguments
                .iter()
                .any(|argument| argument == "--no-tools")
        );
        assert!(
            request
                .arguments
                .iter()
                .any(|argument| argument == "--no-extensions")
        );
        assert!(
            request
                .arguments
                .iter()
                .any(|argument| argument == "--no-context-files")
        );
        assert!(request.current_dir.starts_with("/tmp/backstage-owned"));
        Ok(self.probe.clone())
    }
}

struct UnavailableRunner;

impl CommandRunner for UnavailableRunner {
    fn run(&self, _request: &CommandRequest) -> Result<CommandOutput, String> {
        Err("No such file or directory".to_owned())
    }
}

fn config() -> PiConfig {
    PiConfig {
        executable: "/usr/local/bin/pi".into(),
        required_version: "0.82.1".to_owned(),
        provider: "openai-codex".to_owned(),
        model: "gpt-5.6-sol".to_owned(),
        app_temp_dir: "/tmp/backstage-owned".into(),
        timeout_ms: 60_000,
        max_output_bytes: 1024 * 1024,
    }
}

const SETTLED_RUN: &str = r#"{"type":"message_end","message":{"role":"assistant","provider":"openai-codex","model":"gpt-5.6-sol","stopReason":"stop","content":[{"type":"text","text":"BACKSTAGE_PI_CAPABILITY_V1:nonce"}]}}
{"type":"agent_settled"}
"#;

#[test]
fn capability_probe_accepts_a_tool_free_settled_json_run() {
    let runner = FixtureRunner {
        version: CommandOutput::success("0.82.1\n"),
        probe: CommandOutput::success(SETTLED_RUN),
    };

    let capability = probe_pi(&runner, &config(), "nonce");

    assert!(matches!(capability, PiCapability::Available { .. }));
}

#[test]
fn capability_probe_disables_generation_on_version_tool_retry_or_contract_failure() {
    let bad_version = FixtureRunner {
        version: CommandOutput::success("0.83.0\n"),
        probe: CommandOutput::success(""),
    };
    assert!(matches!(
        probe_pi(&bad_version, &config(), "nonce"),
        PiCapability::Unavailable { .. }
    ));

    let tool_event = FixtureRunner {
        version: CommandOutput::success("0.82.1\n"),
        probe: CommandOutput::success(
            r#"{"type":"tool_execution_start"}
{"type":"agent_settled"}
"#,
        ),
    };
    assert!(matches!(
        probe_pi(&tool_event, &config(), "nonce"),
        PiCapability::Unavailable { .. }
    ));
}

#[test]
fn installed_config_resolves_pi_or_keeps_the_command_fallback() {
    let config = PiConfig::installed("/tmp/backstage-owned".into(), None);
    assert_eq!(config.executable, "pi");
    assert_eq!(config.app_temp_dir, "/tmp/backstage-owned");

    let resolved = PiConfig::installed(
        "/tmp/backstage-owned".into(),
        Some("/opt/homebrew/bin/pi".to_owned()),
    );
    assert_eq!(resolved.executable, "/opt/homebrew/bin/pi");
    assert_eq!(resolved.required_version, "0.82.1");
    assert_eq!(resolved.provider, "openai-codex");
    assert_eq!(resolved.model, "gpt-5.6-sol");
    assert_eq!(resolved.timeout_ms, 60_000);
    assert_eq!(resolved.max_output_bytes, 1024 * 1024);
}

#[test]
fn available_capability_reports_the_version_and_provider_model() {
    let runner = FixtureRunner {
        version: CommandOutput::success("pi 0.82.1\n"),
        probe: CommandOutput::success(SETTLED_RUN),
    };

    assert_eq!(
        probe_pi(&runner, &config(), "nonce"),
        PiCapability::Available {
            version: "pi 0.82.1".to_owned(),
            model: "openai-codex/gpt-5.6-sol".to_owned(),
        }
    );
}

#[test]
fn probe_reports_why_pi_is_unavailable() {
    assert_eq!(
        probe_pi(&UnavailableRunner, &config(), "nonce"),
        PiCapability::Unavailable {
            reason: "Pi is unavailable: No such file or directory".to_owned()
        }
    );

    let wrong_nonce = FixtureRunner {
        version: CommandOutput::success("0.82.1"),
        probe: CommandOutput::success(SETTLED_RUN),
    };
    assert_eq!(
        probe_pi(&wrong_nonce, &config(), "other"),
        PiCapability::Unavailable {
            reason: "Pi capability nonce did not match".to_owned()
        }
    );

    let bad_version = FixtureRunner {
        version: CommandOutput::success("0.83.0\n"),
        probe: CommandOutput::success(""),
    };
    assert_eq!(
        probe_pi(&bad_version, &config(), "nonce"),
        PiCapability::Unavailable {
            reason: "Pi 0.83.0 is not audited; required 0.82.1".to_owned()
        }
    );
}

fn run(stdout: &str) -> CommandOutput {
    CommandOutput::success(stdout)
}

fn parse(stdout: &str) -> Result<String, String> {
    parse_pi_output(&run(stdout), "openai-codex", "gpt-5.6-sol", None)
}

#[test]
fn parsed_output_joins_text_blocks_and_skips_other_blocks() {
    let stdout = "{\"type\":\"message_start\"}\r\n\n   \n{\"type\":\"message_end\",\"message\":{\"role\":\"assistant\",\"provider\":\"openai-codex\",\"model\":\"gpt-5.6-sol\",\"stopReason\":\"stop\",\"content\":[{\"type\":\"text\",\"text\":\"first\"},{\"type\":\"thinking\",\"text\":\"hidden\"},{\"type\":\"text\",\"text\":\"second\"}]}}\n{\"type\":\"agent_settled\"}";

    assert_eq!(parse(stdout), Ok("first\nsecond".to_owned()));
}

#[test]
fn later_assistant_message_replaces_the_earlier_text() {
    let message = |text: &str| {
        format!(
            "{{\"type\":\"message_end\",\"message\":{{\"role\":\"assistant\",\"provider\":\"openai-codex\",\"model\":\"gpt-5.6-sol\",\"stopReason\":\"stop\",\"content\":[{{\"type\":\"text\",\"text\":\"{text}\"}}]}}}}\n"
        )
    };
    let stdout = format!("{}{}{{\"type\":\"agent_settled\"}}\n", message("one"), message("two"));

    assert_eq!(parse(&stdout), Ok("two".to_owned()));
}

#[test]
fn parse_rejects_each_contract_violation() {
    assert!(parse("not json\n{\"type\":\"agent_settled\"}")
        .unwrap_err()
        .starts_with("Malformed Pi JSON: "));
    assert_eq!(
        parse("{\"type\":\"auto_retry_start\"}"),
        Err("Forbidden Pi event: auto_retry_start".to_owned())
    );
    assert_eq!(
        parse("{\"type\":\"compaction_end\"}"),
        Err("Forbidden Pi event: compaction_end".to_owned())
    );
    assert_eq!(
        parse(SETTLED_RUN.lines().next().unwrap()),
        Err("Pi did not settle cleanly".to_owned())
    );
    assert_eq!(
        parse("{\"type\":\"agent_settled\"}"),
        Err("Pi returned no assistant result".to_owned())
    );
    assert_eq!(
        parse(&SETTLED_RUN.replace("gpt-5.6-sol", "other-model")),
        Err("Pi assistant provenance or stop reason did not match".to_owned())
    );
    assert_eq!(
        parse(&SETTLED_RUN.replace("\"stop\"", "\"length\"")),
        Err("Pi assistant provenance or stop reason did not match".to_owned())
    );
    assert_eq!(
        parse(&SETTLED_RUN.replace(
            "[{\"type\":\"text\",\"text\":\"BACKSTAGE_PI_CAPABILITY_V1:nonce\"}]",
            "\"none\""
        )),
        Err("Pi assistant response contained no content".to_owned())
    );
    assert_eq!(
        parse(&SETTLED_RUN.replace("\"type\":\"text\"", "\"type\":\"toolCall\"")),
        Err("Pi returned a forbidden tool call".to_owned())
    );

    let failed = CommandOutput {
        exit_code: Some(2),
        stdout: SETTLED_RUN.to_owned(),
        stderr: "  boom \n".to_owned(),
    };
    assert_eq!(
        parse_pi_output(&failed, "openai-codex", "gpt-5.6-sol", None),
        Err("Pi exited unsuccessfully: boom".to_owned())
    );
    let killed = CommandOutput {
        exit_code: None,
        stdout: String::new(),
        stderr: String::new(),
    };
    assert_eq!(
        parse_pi_output(&killed, "openai-codex", "gpt-5.6-sol", None),
        Err("Pi exited unsuccessfully: ".to_owned())
    );
}

#[test]
fn non_assistant_messages_and_user_roles_are_ignored() {
    let stdout = "{\"type\":\"message_end\",\"message\":{\"role\":\"user\",\"provider\":\"x\"}}\n{\"type\":\"message_end\"}\n[1,2]\n{\"type\":7}\n{\"type\":\"agent_settled\"}\n";

    assert_eq!(parse(stdout), Err("Pi returned no assistant result".to_owned()));
}

#[test]
fn exact_text_is_compared_after_trimming() {
    let stdout = SETTLED_RUN.replace(
        "BACKSTAGE_PI_CAPABILITY_V1:nonce",
        "  BACKSTAGE_PI_CAPABILITY_V1:nonce\\n",
    );
    let output = run(&stdout);

    assert_eq!(
        parse_pi_output(
            &output,
            "openai-codex",
            "gpt-5.6-sol",
            Some("BACKSTAGE_PI_CAPABILITY_V1:nonce")
        ),
        Ok("  BACKSTAGE_PI_CAPABILITY_V1:nonce\n".to_owned())
    );
    assert_eq!(
        parse_pi_output(&output, "openai-codex", "gpt-5.6-sol", Some("other")),
        Err("Pi capability nonce did not match".to_owned())
    );
}

#[test]
fn output_lines_drop_blank_lines_and_carriage_returns() {
    assert_eq!(
        pi_output_lines("a\r\n\n  \nb\nc"),
        vec!["a".to_owned(), "b".to_owned(), "c".to_owned()]
    );
    assert!(pi_output_lines("").is_empty());
    assert_eq!(pi_output_lines("x\r"), vec!["x\r".to_owned()]);
}

#[test]
fn version_outcome_requires_a_successful_audited_version() {
    assert_eq!(
        version_outcome(&config(), Ok(CommandOutput::success(" pi 0.82.1 \n"))),
        Ok("pi 0.82.1".to_owned())
    );
    assert_eq!(
        version_outcome(
            &config(),
            Ok(CommandOutput {
                exit_code: Some(1),
                stdout: String::new(),
                stderr: " denied\n".to_owned(),
            })
        ),
        Err(PiCapability::Unavailable {
            reason: "Pi version check failed: denied".to_owned()
        })
    );
    assert_eq!(
        version_outcome(&config(), Err("gone".to_owned())),
        Err(PiCapability::Unavailable {
            reason: "Pi is unavailable: gone".to_owned()
        })
    );
}

#[test]
fn capability_outcome_names_provider_and_model() {
    assert_eq!(
        capability_outcome(&config(), "0.82.1".to_owned(), Ok("text".to_owned())),
        PiCapability::Available {
            version: "0.82.1".to_owned(),
            model: "openai-codex/gpt-5.6-sol".to_owned(),
        }
    );
    assert_eq!(
        capability_outcome(&config(), "0.82.1".to_owned(), Err("bad".to_owned())),
        PiCapability::Unavailable {
            reason: "bad".to_owned()
        }
    );
}

#[test]
fn requests_run_isolated_inside_the_app_directory() {
    let environment = isolated_environment(&config());
    assert_eq!(
        environment,
        vec![
            ("HOME".to_owned(), "/tmp/backstage-owned".to_owned()),
            ("PATH".to_owned(), "/usr/bin:/bin:/usr/sbin:/sbin".to_owned()),
            (
                "PI_CODING_AGENT_DIR".to_owned(),
                "/tmp/backstage-owned/agent".to_owned()
            ),
            ("PI_OFFLINE".to_owned(), "1".to_owned()),
            ("PI_TELEMETRY".to_owned(), "0".to_owned()),
        ]
    );

    let version = version_request(&config());
    assert_eq!(version.program, "/usr/local/bin/pi");
    assert_eq!(version.arguments, ["--version"]);
    assert_eq!(version.timeout_ms, 5000);
    assert_eq!(version.max_output_bytes, 16 * 1024);
    assert!(version.stdin.is_empty());
    assert_eq!(version.sandbox_write_root.as_deref(), Some("/tmp/backstage-owned"));

    let generation = generation_request(&config(), "quoted input".to_owned());
    assert_eq!(generation.stdin, b"quoted input".to_vec());
    assert_eq!(generation.current_dir, "/tmp/backstage-owned");
    assert_eq!(generation.timeout_ms, 60_000);
    assert_eq!(generation.max_output_bytes, 1024 * 1024);
    assert_eq!(&generation.arguments[..4], ["--mode", "json", "--no-session", "--no-tools"]);
    assert_eq!(&generation.arguments[11..15], ["--provider", "openai-codex", "--model", "gpt-5.6-sol"]);
    assert_eq!(generation.arguments.len(), 19);
    assert_eq!(generation.environment, environment);
}

#[test]
fn sandbox_quotes_paths_and_refuses_unsandboxed_platforms() {
    assert_eq!(sandbox_path("/tmp/a \"b\"\\c"), "/tmp/a \\\"b\\\"\\\\c");

    let arguments = vec!["--version".to_owned()];
    assert_eq!(
        sandboxed_command(Platform::Other, "pi", &arguments, None),
        Ok(("pi".to_owned(), arguments.clone()))
    );
    assert_eq!(
        sandboxed_command(Platform::Other, "pi", &arguments, Some(Ok("/tmp/w".to_owned()))),
        Err("Pi generation is disabled because no OS write-denial sandbox is available".to_owned())
    );
    assert_eq!(
        sandboxed_command(Platform::MacOs, "pi", &arguments, Some(Err("missing".to_owned()))),
        Err("Pi sandbox directory is unavailable: missing".to_owned())
    );
    let (program, wrapped) =
        sandboxed_command(Platform::MacOs, "pi", &arguments, Some(Ok("/tmp/w".to_owned())))
            .expect("sandboxed");
    assert_eq!(program, "/usr/bin/sandbox-exec");
    assert_eq!(wrapped.len(), 4);
    assert_eq!(wrapped[0], "-p");
    assert!(wrapped[1].starts_with("(version 1)\n(deny default)\n"));
    assert!(wrapped[1].ends_with("(allow file-write* (subpath \"/tmp/w\"))\n"));
    assert_eq!(&wrapped[2..], ["pi", "--version"]);
}

#[test]
fn output_size_is_bounded() {
    assert_eq!(check_output_size(10, 10), Ok(()));
    assert_eq!(
        check_output_size(11, 10),
        Err("Pi output exceeded the configured byte limit".to_owned())
    );
}

#[test]
fn the_capability_run_asks_for_the_nonce_and_is_judged_by_it() {
    let request = capability_request(&config(), "n1");
    assert_eq!(
        request.stdin,
        b"Return exactly BACKSTAGE_PI_CAPABILITY_V1:n1".to_vec()
    );
    assert_eq!(request.arguments, generation_request(&config(), String::new()).arguments);

    assert_eq!(
        capability_verdict(&config(), "nonce", "0.82.1".to_owned(), Ok(CommandOutput::success(SETTLED_RUN))),
        PiCapability::Available {
            version: "0.82.1".to_owned(),
            model: "openai-codex/gpt-5.6-sol".to_owned(),
        }
    );
    assert_eq!(
        capability_verdict(&config(), "n1", "0.82.1".to_owned(), Ok(CommandOutput::success(SETTLED_RUN))),
        PiCapability::Unavailable {
            reason: "Pi capability nonce did not match".to_owned()
        }
    );
    assert_eq!(
        capability_verdict(&config(), "nonce", "0.82.1".to_owned(), Err("timed out".to_owned())),
        PiCapability::Unavailable {
            reason: "timed out".to_owned()
        }
    );
}
