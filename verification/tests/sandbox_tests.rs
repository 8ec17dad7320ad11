use omar::sandbox::{
    shell_escape, DockerProvider, FilesystemPolicy, MountPlan, NoopProvider, ResourceLimits,
    SandboxConfig, SandboxProvider,
};

fn test_config() -> SandboxConfig {
    SandboxConfig {
        enabled: true,
        image: "ubuntu:22.04".to_string(),
        network: "none".to_string(),
        limits: ResourceLimits {
            memory: "4g".to_string(),
            cpus: "2".to_string(),
            pids_limit: 256,
        },
        filesystem: FilesystemPolicy {
            workspace_access: "rw".to_string(),
            bind_mounts: Vec::new(),
        },
    }
}

#[test]
fn test_shell_escape_simple() {
    assert_eq!(shell_escape("hello"), "hello");
    assert_eq!(shell_escape("ubuntu:22.04"), "ubuntu:22.04");
    assert_eq!(shell_escape("--network"), "--network");
}

#[test]
fn test_shell_escape_with_spaces() {
    assert_eq!(shell_escape("hello world"), "'hello world'");
}

#[test]
fn test_shell_escape_with_quotes() {
    assert_eq!(shell_escape("it's"), "'it'\\''s'");
}

#[test]
fn test_noop_returns_command_unchanged() {
    let provider = NoopProvider;
    let cmd = "some-agent --flag";
    assert_eq!(provider.wrap_command("test", cmd, None), cmd);
}

#[test]
fn test_noop_returns_command_unchanged_with_workdir() {
    let provider = NoopProvider;
    let cmd = "opencode";
    assert_eq!(provider.wrap_command("test", cmd, Some("/home/user")), cmd);
}

#[test]
fn test_noop_is_not_enabled() {
    let provider = NoopProvider;
    assert!(!provider.is_enabled());
}

#[test]
fn test_noop_cleanup_succeeds() {
    let provider = NoopProvider;
    assert!(provider.cleanup("test").is_ok());
}

#[test]
fn test_noop_cleanup_all_succeeds() {
    let provider = NoopProvider;
    assert!(provider.cleanup_all().is_ok());
}

#[test]
fn test_noop_setup_succeeds() {
    let provider = NoopProvider;
    assert!(provider.setup().is_ok());
}

#[test]
fn test_wrap_command_basic() {
    let provider = DockerProvider::new(test_config());
    let cmd = provider.wrap_command("test-agent", "nonexistent-agent --flag", None, &MountPlan::empty());

    assert!(cmd.starts_with("docker run"));
    assert!(cmd.contains("--rm"));
    assert!(cmd.contains("--name omar-sandbox-test-agent"));
    assert!(cmd.contains("--network none"));
    assert!(cmd.contains("--security-opt no-new-privileges"));
    assert!(cmd.contains("--cap-drop ALL"));
    assert!(cmd.contains("--read-only"));
    assert!(cmd.contains("--tmpfs '/tmp:rw,noexec,size=512m'"));
    assert!(cmd.contains("--memory 4g"));
    assert!(cmd.contains("--cpus 2"));
    assert!(cmd.contains("--pids-limit 256"));
    assert!(cmd.contains("ubuntu:22.04"));
    assert!(cmd.contains("sh -c 'nonexistent-agent --flag'"));
}

#[test]
fn test_wrap_command_with_workdir() {
    let provider = DockerProvider::new(test_config());
    let cmd = provider.wrap_command(
        "worker-1",
        "nonexistent-agent --flag",
        Some("/home/user/project"),
        &MountPlan::empty(),
    );

    assert!(cmd.contains("-v /home/user/project:/workspace:rw"));
    assert!(cmd.contains("-w /workspace"));
}

#[test]
fn test_wrap_command_ro_workspace() {
    let mut config = test_config();
    config.filesystem.workspace_access = "ro".to_string();
    let provider = DockerProvider::new(config);
    let cmd = provider.wrap_command(
        "worker-1",
        "opencode",
        Some("/home/user/project"),
        &MountPlan::empty(),
    );

    assert!(cmd.contains("-v /home/user/project:/workspace:ro"));
}

#[test]
fn test_wrap_command_custom_limits() {
    let mut config = test_config();
    config.limits.memory = "8g".to_string();
    config.limits.cpus = "4".to_string();
    config.limits.pids_limit = 512;
    let provider = DockerProvider::new(config);
    let cmd = provider.wrap_command("test", "bash", None, &MountPlan::empty());

    assert!(cmd.contains("--memory 8g"));
    assert!(cmd.contains("--cpus 4"));
    assert!(cmd.contains("--pids-limit 512"));
}

#[test]
fn test_wrap_command_configurable_network() {
    let mut config = test_config();
    config.network = "bridge".to_string();
    let provider = DockerProvider::new(config);
    let cmd = provider.wrap_command("test", "bash", None, &MountPlan::empty());

    assert!(cmd.contains("--network bridge"));
    assert!(!cmd.contains("--network none"));
}

#[test]
fn test_wrap_command_with_bind_mounts() {
    let mut config = test_config();
    config.filesystem.bind_mounts =
        vec!["/opt/tools:/opt/tools:ro".to_string(), "/data".to_string()];
    let provider = DockerProvider::new(config);
    let cmd = provider.wrap_command("test", "bash", None, &MountPlan::empty());

    assert!(cmd.contains("-v /opt/tools:/opt/tools:ro"));
    assert!(cmd.contains("-v /data:/data:ro"));
}

#[test]
fn wrap_command_mounts_resolved_binary_paths() {
    let provider = DockerProvider::new(test_config());
    let plan = MountPlan {
        binary_path: Some("/usr/bin/dash".to_string()),
        which_path: Some("/bin/sh".to_string()),
        ld_linker: Some("/lib64/ld-linux-x86-64.so.2".to_string()),
        home_dir: Some("/home/user".to_string()),
        agent_config_dir: Some("/home/user/.agentcfg".to_string()),
        extra_config_dir: None,
    };
    let cmd = provider.wrap_command("test", "sh -c 'echo hello'", None, &plan);

    assert!(cmd.contains("-v /usr/bin/dash:/usr/bin/dash:ro"));
    assert!(cmd.contains("-v /bin/sh:/bin/sh:ro"));
    assert!(cmd.contains("-v /lib64/ld-linux-x86-64.so.2:/lib64/ld-linux-x86-64.so.2:ro"));
    assert!(cmd.contains("-v /home/user/.agentcfg:/home/user/.agentcfg:ro"));
    assert!(cmd.contains("-e HOME=/home/user"));
}

#[test]
fn test_sandbox_config_defaults() {
    let config = SandboxConfig::default();
    assert!(!config.enabled);
    assert_eq!(config.image, "ubuntu:22.04");
    assert_eq!(config.network, "bridge");
    assert_eq!(config.limits.memory, "4g");
    assert_eq!(config.limits.cpus, "2");
    assert_eq!(config.limits.pids_limit, 256);
    assert_eq!(config.filesystem.workspace_access, "rw");
    assert!(config.filesystem.bind_mounts.is_empty());
}

#[test]
fn escaped_arguments_reparse_to_themselves() {
    // A hand-rolled POSIX-style reader for one word: single quotes are
    // literal spans, a backslash escapes the next character.
    fn read_word(s: &str) -> Option<String> {
        let mut out = String::new();
        let mut chars = s.chars();
        let mut in_quote = false;
        loop {
            match chars.next() {
                None => {
                    return if in_quote { None } else { Some(out) };
                }
                Some(c) => {
                    if in_quote {
                        if c == '\'' {
                            in_quote = false;
                        } else {
                            out.push(c);
                        }
                    } else if c == '\'' {
                        in_quote = true;
                    } else if c == '\\' {
                        match chars.next() {
                            Some(e) => out.push(e),
                            None => return None,
                        }
                    } else if c.is_whitespace() {
                        return None;
                    } else {
                        out.push(c);
                    }
                }
            }
        }
    }

    for arg in [
        "plain",
        "with space",
        "it's",
        "'already quoted'",
        "a;b|c&d",
        "tab\tand\nnewline",
        "$HOME `cmd` \"quoted\"",
        "trailing'",
    ] {
        let escaped = shell_escape(arg);
        assert_eq!(read_word(&escaped).as_deref(), Some(arg));
    }
}
