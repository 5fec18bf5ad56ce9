use m87::shell::{build_shell_args, supports_login_flag, select_shell, ShellMode};

#[test]
fn test_supports_login_flag() {
    assert!(supports_login_flag("/bin/bash"));
    assert!(supports_login_flag("/usr/bin/bash"));
    assert!(supports_login_flag("/bin/zsh"));
    assert!(supports_login_flag("/usr/bin/fish"));
    assert!(!supports_login_flag("/bin/sh"));
    assert!(!supports_login_flag("/bin/ash"));
    assert!(!supports_login_flag("/bin/dash"));
}

#[test]
fn test_build_shell_args_interactive_login_bash() {
    let args = build_shell_args("/bin/bash", ShellMode::InteractiveLogin);
    assert_eq!(args, vec!["-l", "-i"]);
}

#[test]
fn test_build_shell_args_interactive_login_ash() {
    let args = build_shell_args("/bin/ash", ShellMode::InteractiveLogin);
    assert!(args.is_empty());
}

#[test]
fn test_build_shell_args_interactive_login_sh() {
    let args = build_shell_args("/bin/sh", ShellMode::InteractiveLogin);
    assert!(args.is_empty());
}

#[test]
fn test_build_shell_args_exec_piped_bash() {
    let args = build_shell_args(
        "/bin/bash",
        ShellMode::ExecPiped { command: "echo hello".to_string() },
    );
    assert_eq!(args, vec!["-l", "-c", "echo hello"]);
}

#[test]
fn test_build_shell_args_exec_piped_ash() {
    let args = build_shell_args(
        "/bin/ash",
        ShellMode::ExecPiped { command: "echo hello".to_string() },
    );
    assert_eq!(args, vec!["-c", "echo hello"]);
}

#[test]
fn test_build_shell_args_exec_pty() {
    // PTY mode should never pass -l or -i regardless of shell
    let args = build_shell_args("/bin/bash", ShellMode::ExecPty { command: "htop".to_string() });
    assert_eq!(args, vec!["-c", "htop"]);

    let args = build_shell_args("/bin/ash", ShellMode::ExecPty { command: "htop".to_string() });
    assert_eq!(args, vec!["-c", "htop"]);
}

#[test]
fn test_select_shell_order() {
    let env = Some("/bin/zsh".to_string());
    let passwd = Some("/bin/bash".to_string());
    let probes = vec!["/bin/ash".to_string()];
    assert_eq!(select_shell(env, passwd.clone(), probes.clone()), "/bin/zsh");
    assert_eq!(select_shell(None, passwd, probes.clone()), "/bin/bash");
    assert_eq!(select_shell(None, None, probes), "/bin/ash");
    assert_eq!(select_shell(None, None, Vec::new()), "/bin/sh");
}

#[test]
fn test_merge_path_includes_essentials() {
    let merged = m87::shell::merge_path("/opt/bin:/usr/bin");
    assert!(merged.starts_with("/opt/bin:/usr/bin"));
    for dir in ["/usr/local/sbin", "/usr/local/bin", "/usr/sbin", "/usr/bin", "/sbin", "/bin"] {
        assert!(merged.split(':').any(|d| d == dir), "missing {dir}");
    }
}

#[test]
fn test_merge_path_no_duplicates() {
    let merged = m87::shell::merge_path("/usr/bin:/bin");
    for dir in ["/usr/local/sbin", "/usr/local/bin", "/usr/sbin", "/usr/bin", "/sbin", "/bin"] {
        assert_eq!(merged.split(':').filter(|&d| d == dir).count(), 1, "duplicate for {dir}");
    }
}

#[test]
fn test_merge_path_empty_current() {
    let merged = m87::shell::merge_path("");
    assert_eq!(merged, "/usr/local/sbin:/usr/local/bin:/usr/sbin:/usr/bin:/sbin:/bin");
}
