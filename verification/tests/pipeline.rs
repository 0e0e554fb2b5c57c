use mux::command::{Arg, CommandBuilder, EnvVar, SpawnRecord};
use mux::config::{ConfigSnapshot, ExecDomain, LabelSpec, WslDomain};
use mux::domain::{
    describe_command, prepare_exec_request, render_command_line, usize_to_decimal,
    CommandScriptResult, HostPort, LabelScriptResult, LocalDomain, PtyHandles,
};
use mux::domain::Domain;
use mux::errors::DomainError;
use mux::ids::IdAllocator;

fn host_ok() -> HostPort {
    HostPort {
        command_response: None,
        label_response: None,
        cwd_readable: true,
        pty: Some(PtyHandles { master: 7, child: 8 }),
        shell: "sh".to_string(),
    }
}

fn texts(args: &[&str]) -> Vec<Arg> {
    args.iter().map(|a| Arg::Text(a.to_string())).collect()
}

fn argv_strings(cmd: &CommandBuilder) -> Vec<String> {
    cmd.argv
        .iter()
        .map(|a| match a {
            Arg::Text(s) => s.clone(),
            Arg::Opaque => "<opaque>".to_string(),
        })
        .collect()
}

fn wsl_config() -> ConfigSnapshot {
    let mut config = ConfigSnapshot::new();
    config.wsl_domains = vec![WslDomain {
        name: "wsl:ubuntu".to_string(),
        distribution: Some("Ubuntu".to_string()),
        username: Some("alice".to_string()),
        default_prog: Some(vec!["fish".to_string()]),
        default_cwd: None,
    }];
    config
}

fn domain(name: &str) -> LocalDomain {
    let mut ids = IdAllocator::new();
    LocalDomain::new(name, &mut ids).unwrap()
}

#[test]
fn personality_fixup_wraps_argv_and_clears_cwd() {
    let d = domain("wsl:ubuntu");
    let config = wsl_config();
    let host = host_ok();
    let mut cmd = CommandBuilder { argv: texts(&["echo", "hi"]), env: Vec::new(), cwd: None };
    cmd.set_cwd("/home/alice".to_string());
    d.fixup_command(&mut cmd, &config, &host).unwrap();
    assert_eq!(
        argv_strings(&cmd),
        vec![
            "wsl.exe",
            "--distribution",
            "Ubuntu",
            "--cd",
            "/home/alice",
            "--user",
            "alice",
            "--exec",
            "echo",
            "hi"
        ]
    );
    assert_eq!(cmd.cwd, None);
}

#[test]
fn personality_fixup_uses_declared_default_when_argv_empty() {
    let d = domain("wsl:ubuntu");
    let config = wsl_config();
    let host = host_ok();
    let mut cmd = CommandBuilder::new();
    d.fixup_command(&mut cmd, &config, &host).unwrap();
    assert_eq!(
        argv_strings(&cmd),
        vec!["wsl.exe", "--distribution", "Ubuntu", "--user", "alice", "--exec", "fish"]
    );
}

#[test]
fn personality_fixup_omits_exec_when_nothing_to_run() {
    let d = domain("wsl:plain");
    let mut config = ConfigSnapshot::new();
    config.wsl_domains = vec![WslDomain {
        name: "wsl:plain".to_string(),
        distribution: None,
        username: None,
        default_prog: None,
        default_cwd: None,
    }];
    let host = host_ok();
    let mut cmd = CommandBuilder::new();
    d.fixup_command(&mut cmd, &config, &host).unwrap();
    // the distribution falls back to the backend name; no --exec segment
    assert_eq!(argv_strings(&cmd), vec!["wsl.exe", "--distribution", "wsl:plain"]);
}

fn exec_config() -> ConfigSnapshot {
    let mut config = ConfigSnapshot::new();
    config.exec_domains = vec![ExecDomain { name: "scripted".to_string(), label: None }];
    config
}

#[test]
fn script_fixup_replaces_builder_wholesale() {
    let d = domain("scripted");
    let config = exec_config();
    let mut host = host_ok();
    host.command_response = Some(CommandScriptResult::Returned(SpawnRecord {
        label: None,
        domain_name: "scripted".to_string(),
        args: Some(vec!["nu".to_string(), "-l".to_string()]),
        env: vec![EnvVar { key: "ONLY".to_string(), value: "this".to_string() }],
        cwd: Some("/srv".to_string()),
    }));
    let mut cmd = CommandBuilder { argv: texts(&["zsh"]), env: Vec::new(), cwd: None };
    let home = "HOME".to_string();
    let val = "/root".to_string();
    cmd.env(&home, &val);
    d.fixup_command(&mut cmd, &config, &host).unwrap();
    assert_eq!(argv_strings(&cmd), vec!["nu", "-l"]);
    // full replacement, not a merge: the old variable is gone
    assert_eq!(cmd.env.len(), 1);
    assert_eq!(cmd.env[0].key, "ONLY");
    assert_eq!(cmd.env[0].value, "this");
    assert_eq!(cmd.cwd, Some("/srv".to_string()));
}

#[test]
fn script_fixup_failure_names_the_backend() {
    let d = domain("scripted");
    let config = exec_config();
    let mut host = host_ok();
    host.command_response = Some(CommandScriptResult::Failed);
    let mut cmd = CommandBuilder { argv: texts(&["zsh"]), env: Vec::new(), cwd: None };
    let r = d.fixup_command(&mut cmd, &config, &host);
    match r {
        Err(DomainError::ScriptCallbackError(name)) => assert_eq!(name, "scripted"),
        other => panic!("unexpected result: {:?}", other.is_ok()),
    }
    // the builder is untouched on failure
    assert_eq!(argv_strings(&cmd), vec!["zsh"]);
}

#[test]
fn script_fixup_rejects_non_text_argument() {
    let d = domain("scripted");
    let config = exec_config();
    let host = host_ok();
    let mut cmd = CommandBuilder {
        argv: vec![Arg::Text("ok".to_string()), Arg::Opaque],
        env: Vec::new(),
        cwd: None,
    };
    let r = d.fixup_command(&mut cmd, &config, &host);
    assert!(matches!(r, Err(DomainError::EncodingError)));
}

#[test]
fn plain_fixup_clears_unreadable_cwd_without_failing() {
    let d = domain("local");
    let config = ConfigSnapshot::new();
    let mut host = host_ok();
    host.cwd_readable = false;
    let mut cmd = CommandBuilder::new();
    cmd.set_cwd("/no/such/dir".to_string());
    let r = d.fixup_command(&mut cmd, &config, &host);
    assert!(r.is_ok());
    assert_eq!(cmd.cwd, None);
}

#[test]
fn plain_fixup_keeps_readable_cwd() {
    let d = domain("local");
    let config = ConfigSnapshot::new();
    let host = host_ok();
    let mut cmd = CommandBuilder::new();
    cmd.set_cwd("/tmp".to_string());
    d.fixup_command(&mut cmd, &config, &host).unwrap();
    assert_eq!(cmd.cwd, Some("/tmp".to_string()));
}

#[test]
fn build_command_injects_session_variable_and_defaults() {
    let d = domain("local");
    let mut config = ConfigSnapshot::new();
    config.default_prog = Some(vec!["/bin/sh".to_string()]);
    config.default_cwd = Some("/tmp".to_string());
    let host = host_ok();
    let cmd = d.build_command(&config, &host, None, None, 42).unwrap();
    assert_eq!(argv_strings(&cmd), vec!["/bin/sh"]);
    assert_eq!(cmd.cwd, Some("/tmp".to_string()));
    let wez = cmd.env.iter().find(|e| e.key == "WEZTERM_PANE").unwrap();
    assert_eq!(wez.value, "42");
}

#[test]
fn build_command_dir_overrides_unconditionally() {
    let d = domain("local");
    let mut config = ConfigSnapshot::new();
    config.default_cwd = Some("/tmp".to_string());
    let host = host_ok();
    let mut explicit = CommandBuilder { argv: texts(&["vi"]), env: Vec::new(), cwd: None };
    explicit.set_cwd("/etc".to_string());
    let cmd = d
        .build_command(&config, &host, Some(explicit), Some("/override".to_string()), 1)
        .unwrap();
    assert_eq!(cmd.cwd, Some("/override".to_string()));
}

#[test]
fn personality_build_command_passes_cwd_via_cd_flag() {
    let d = domain("wsl:ubuntu");
    let config = wsl_config();
    let host = host_ok();
    let cmd = d.build_command(&config, &host, None, Some("/data".to_string()), 3).unwrap();
    assert_eq!(
        argv_strings(&cmd),
        vec![
            "wsl.exe",
            "--distribution",
            "Ubuntu",
            "--cd",
            "/data",
            "--user",
            "alice",
            "--exec",
            "fish"
        ]
    );
    assert_eq!(cmd.cwd, None);
}

#[test]
fn script_request_serializes_builder() {
    let ed = ExecDomain { name: "scripted".to_string(), label: None };
    let mut cmd = CommandBuilder { argv: texts(&["run"]), env: Vec::new(), cwd: None };
    let key = "A".to_string();
    let value = "1".to_string();
    cmd.env(&key, &value);
    cmd.set_cwd("/w".to_string());
    let rec = prepare_exec_request(&cmd, &ed).unwrap();
    assert_eq!(rec.domain_name, "scripted");
    assert_eq!(rec.args.unwrap(), vec!["run".to_string()]);
    assert_eq!(rec.env.len(), 1);
    assert_eq!(rec.env[0].key, "A");
    assert_eq!(rec.cwd, Some("/w".to_string()));
    assert!(rec.label.is_none());
    let empty = CommandBuilder::new();
    let rec2 = prepare_exec_request(&empty, &ed).unwrap();
    assert!(rec2.args.is_none());
}

#[test]
fn decimal_rendering_is_exact() {
    assert_eq!(usize_to_decimal(0), "0");
    assert_eq!(usize_to_decimal(42), "42");
    assert_eq!(usize_to_decimal(9876543210), "9876543210");
}

#[test]
fn command_line_rendering_joins_with_spaces() {
    let argv = texts(&["echo", "a", "b"]);
    assert_eq!(render_command_line(&argv).unwrap(), "echo a b");
    let empty: Vec<Arg> = Vec::new();
    assert_eq!(render_command_line(&empty).unwrap(), "");
    let bad = vec![Arg::Opaque];
    assert!(matches!(render_command_line(&bad), Err(DomainError::EncodingError)));
}

#[test]
fn description_tags_line_or_shell_with_backend_name() {
    let line = "echo hi".to_string();
    let empty = String::new();
    let shell = "bash".to_string();
    let name = "local".to_string();
    assert_eq!(describe_command(&line, &shell, &name), "\"echo hi\" in domain \"local\"");
    assert_eq!(describe_command(&empty, &shell, &name), "\"bash\" in domain \"local\"");
}

#[test]
fn label_prefers_declared_value_then_callback_then_name() {
    let host = host_ok();
    let mut config = ConfigSnapshot::new();
    config.exec_domains = vec![ExecDomain {
        name: "scripted".to_string(),
        label: Some(LabelSpec::Value("My Label".to_string())),
    }];
    let d = domain("scripted");
    assert_eq!(d.domain_label(&config, &host), "My Label");

    config.exec_domains = vec![ExecDomain {
        name: "scripted".to_string(),
        label: Some(LabelSpec::Func),
    }];
    let mut host2 = host_ok();
    host2.label_response = Some(LabelScriptResult::Returned("computed".to_string()));
    assert_eq!(d.domain_label(&config, &host2), "computed");
    let mut host3 = host_ok();
    host3.label_response = Some(LabelScriptResult::Failed);
    assert_eq!(d.domain_label(&config, &host3), "scripted");

    let wsl = domain("wsl:ubuntu");
    assert_eq!(wsl.domain_label(&wsl_config(), &host), "Ubuntu");
    let plain = domain("local");
    assert_eq!(plain.domain_label(&ConfigSnapshot::new(), &host), "local");
}

#[test]
fn env_binding_replaces_existing_key() {
    let mut cmd = CommandBuilder::new();
    let k = "PATH".to_string();
    let v1 = "/bin".to_string();
    let v2 = "/usr/bin".to_string();
    cmd.env(&k, &v1);
    cmd.env(&k, &v2);
    assert_eq!(cmd.env.len(), 1);
    assert_eq!(cmd.env[0].value, "/usr/bin");
    cmd.env_clear();
    assert!(cmd.env.is_empty());
}

#[test]
fn error_descriptions_are_stable() {
    assert_eq!(DomainError::InvalidContainer(1).describe(), "invalid tab id");
    assert_eq!(DomainError::InvalidSession(1).describe(), "invalid pane id");
    assert_eq!(DomainError::InvalidSplitIndex(1).describe(), "invalid pane index");
    assert_eq!(DomainError::NotFound(1).describe(), "not found");
    assert_eq!(DomainError::EncodingError.describe(), "command argument is not utf8");
    assert_eq!(
        DomainError::ScriptCallbackError("x".to_string()).describe(),
        "script callback failed"
    );
    assert_eq!(DomainError::UnsupportedOperation.describe(), "not implemented");
    assert_eq!(DomainError::ResourceError.describe(), "resource allocation failed");
}
