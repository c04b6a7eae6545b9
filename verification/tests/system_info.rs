use mcp_wsl::args::{ArgValue, ToolArgs};
use mcp_wsl::system::{
    command_result, default_shell_from_getent, default_shell_lookup, disk_usage_path, get_disk_usage, get_env,
    get_os_info, get_package_manager, get_shells, get_system_info, get_wsl_config, is_wsl, os_release_paths,
    package_probes, CommandOutput, ShellLookup,
};

fn args(entries: Vec<(&str, ArgValue)>) -> ToolArgs {
    ToolArgs { entries: entries.into_iter().map(|(k, v)| (k.to_string(), v)).collect() }
}

fn out(success: bool, stdout: &str, stderr: &str) -> CommandOutput {
    CommandOutput { success, stdout: stdout.to_string(), stderr: stderr.to_string() }
}

fn vars(v: &[(&str, &str)]) -> Vec<(String, String)> {
    v.iter().map(|(k, x)| (k.to_string(), x.to_string())).collect()
}

#[test]
fn environment_is_sorted_by_name() {
    let r = get_env(&args(vec![]), vars(&[("PATH", "/bin"), ("HOME", "/root"), ("A_B", "x"), ("HOME", "again")]));
    assert_eq!(r, "A_B=x\nHOME=/root\nHOME=again\nPATH=/bin");
}

#[test]
fn environment_filter_matches_name_or_value() {
    let vs = vars(&[("PATH", "/usr/bin"), ("HOME", "/root"), ("SHELL", "/bin/BASH"), ("EDITOR", "vim")]);
    assert_eq!(get_env(&args(vec![("filter", ArgValue::Text("bin".to_string()))]), vs.clone()), "PATH=/usr/bin\nSHELL=/bin/BASH");
    assert_eq!(get_env(&args(vec![("filter", ArgValue::Text("Home".to_string()))]), vs.clone()), "HOME=/root");
    assert_eq!(get_env(&args(vec![("filter", ArgValue::Text("nothing".to_string()))]), vs), "");
    assert_eq!(get_env(&args(vec![]), vec![]), "");
}

#[test]
fn environment_filter_ignores_case() {
    let vs = vars(&[("PATH", "/usr/bin"), ("HOME", "/root"), ("SHELL", "/bin/BASH")]);
    let lower = get_env(&args(vec![("filter", ArgValue::Text("bash".to_string()))]), vs.clone());
    let upper = get_env(&args(vec![("filter", ArgValue::Text("BASH".to_string()))]), vs);
    assert_eq!(lower, upper);
    assert_eq!(lower, "SHELL=/bin/BASH");
}

#[test]
fn shells_skip_comments_and_blank_lines() {
    let content = "# /etc/shells: valid login shells\n/bin/sh\n\n   \n/bin/bash\r\n #indented\n/usr/bin/zsh";
    assert_eq!(get_shells(&Ok(content.to_string())), Ok("/bin/sh\n/bin/bash\n #indented\n/usr/bin/zsh".to_string()));
    assert_eq!(get_shells(&Ok(String::new())), Ok(String::new()));
    assert_eq!(
        get_shells(&Err("No such file or directory (os error 2)".to_string())),
        Err("Failed to read /etc/shells: No such file or directory (os error 2)".to_string())
    );
}

#[test]
fn default_shell_from_the_environment_first() {
    match default_shell_lookup(Some("/bin/zsh".to_string()), Some("alice".to_string())) {
        ShellLookup::Known(s) => assert_eq!(s, "/bin/zsh"),
        _ => panic!("SHELL is set"),
    }
    match default_shell_lookup(None, Some("alice".to_string())) {
        ShellLookup::AskPasswd(u) => assert_eq!(u, "alice"),
        _ => panic!("SHELL is not set"),
    }
    match default_shell_lookup(None, None) {
        ShellLookup::AskPasswd(u) => assert_eq!(u, "root"),
        _ => panic!("SHELL is not set"),
    }
}

#[test]
fn default_shell_from_the_user_database() {
    let line = "alice:x:1000:1000:Alice:/home/alice:/bin/zsh\n";
    assert_eq!(default_shell_from_getent(Ok(out(true, line, ""))), Ok("/bin/zsh".to_string()));
    assert_eq!(
        default_shell_from_getent(Ok(out(true, "alice:x:1000:1000::/home/alice:\n", ""))),
        Err("Could not determine default shell".to_string())
    );
    assert_eq!(default_shell_from_getent(Ok(out(false, line, ""))), Err("Could not determine default shell".to_string()));
    assert_eq!(default_shell_from_getent(Err("not found".to_string())), Err("not found".to_string()));
}

#[test]
fn os_release_from_the_first_readable_file() {
    let paths = os_release_paths();
    assert_eq!(paths, vec!["/etc/os-release", "/usr/lib/os-release", "/etc/lsb-release"]);
    assert_eq!(get_os_info(&vec![None, Some("ID=arch\n".to_string())]), Ok("# /usr/lib/os-release\nID=arch\n".to_string()));
    assert_eq!(get_os_info(&vec![Some("ID=ubuntu".to_string())]), Ok("# /etc/os-release\nID=ubuntu".to_string()));
    assert_eq!(get_os_info(&vec![None, None, None]), Err("No OS release file found".to_string()));
    assert_eq!(get_os_info(&vec![]), Err("No OS release file found".to_string()));
}

#[test]
fn wsl_is_recognised_by_the_kernel_version() {
    assert!(is_wsl(&Some("Linux version 5.15.153.1-microsoft-standard-WSL2".to_string())));
    assert!(is_wsl(&Some("Linux version 4.4.0-19041-Microsoft".to_string())));
    assert!(!is_wsl(&Some("Linux version 6.9.1-arch1-1".to_string())));
    assert!(!is_wsl(&None));
}

#[test]
fn wsl_config_only_under_wsl() {
    assert_eq!(get_wsl_config(false, Ok("[boot]".to_string())), Err("read:get_wsl_config is only available on WSL".to_string()));
    assert_eq!(get_wsl_config(true, Ok("[boot]\nsystemd=true\n".to_string())), Ok("[boot]\nsystemd=true\n".to_string()));
    assert_eq!(
        get_wsl_config(true, Err("No such file or directory (os error 2)".to_string())),
        Err("Failed to read /etc/wsl.conf: No such file or directory (os error 2)".to_string())
    );
}

#[test]
fn system_info_is_trimmed() {
    assert_eq!(get_system_info(Ok(out(true, "Linux host 6.1 x86_64\n", ""))), Ok("Linux host 6.1 x86_64".to_string()));
    assert_eq!(get_system_info(Ok(out(false, "", "  uname: bad\n"))), Err("uname: bad".to_string()));
    assert_eq!(get_system_info(Err("No such file".to_string())), Err("No such file".to_string()));
}

#[test]
fn disk_usage_keeps_the_output() {
    assert_eq!(disk_usage_path(&args(vec![])), "/");
    assert_eq!(disk_usage_path(&args(vec![("path", ArgValue::Text("/home".to_string()))])), "/home");
    let table = "Filesystem Size\n/dev/sda 100G\n";
    assert_eq!(get_disk_usage(Ok(out(true, table, ""))), Ok(table.to_string()));
    assert_eq!(get_disk_usage(Ok(out(false, "", "df: /nope: No such file\n"))), Err("df: /nope: No such file".to_string()));
    assert_eq!(command_result(Ok(out(true, " x \u{3000}", "")), true), Ok("x".to_string()));
}

#[test]
fn package_managers_found_are_listed() {
    let probes = package_probes();
    assert_eq!(probes.len(), 27);
    assert_eq!(probes[0].program, "pacman");
    assert_eq!(probes[26].program, "go");
    assert_eq!(probes[26].arg, "version");
    let mut outs: Vec<Option<CommandOutput>> = (0..27).map(|_| None).collect();
    outs[1] = Some(out(true, "apt 2.7.14 (amd64)\n", ""));
    outs[17] = Some(out(false, "  cargo 1.80.0\nextra\n", ""));
    outs[18] = Some(out(false, "", "pip: not found"));
    outs[26] = Some(out(true, "", ""));
    assert_eq!(get_package_manager(&outs), "apt: apt 2.7.14 (amd64)\ncargo: cargo 1.80.0\ngo: ");
    let none: Vec<Option<CommandOutput>> = (0..27).map(|_| None).collect();
    assert_eq!(get_package_manager(&none), "No package managers found");
}
