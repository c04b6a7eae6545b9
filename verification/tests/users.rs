use mcp_wsl::passwd::{build_uid_map, lookup_user, parse_u32_str, resolve_exec_user, ProcessIds};

const PASSWD: &str = "root:x:0:0:root:/root:/bin/bash\n\
daemon:x:1:1:daemon:/usr/sbin:/usr/sbin/nologin\n\
alice:x:1000:1000:Alice:/home/alice:/bin/zsh\n\
broken:x:12a:5:bad uid:/:/bin/sh\n\
short:x:7\n\
bob:x:1001:xyz:Bob:/home/bob:/bin/bash\n";

fn db() -> Result<String, String> {
    Ok(PASSWD.to_string())
}

#[test]
fn numbers_parse_as_rust_does() {
    assert_eq!(parse_u32_str("0"), Some(0));
    assert_eq!(parse_u32_str("+42"), Some(42));
    assert_eq!(parse_u32_str("007"), Some(7));
    assert_eq!(parse_u32_str("4294967295"), Some(u32::MAX));
    assert_eq!(parse_u32_str("4294967296"), None);
    assert_eq!(parse_u32_str(""), None);
    assert_eq!(parse_u32_str("+"), None);
    assert_eq!(parse_u32_str("-1"), None);
    assert_eq!(parse_u32_str(" 1"), None);
    assert_eq!(parse_u32_str("99999999999999999999999"), None);
    for s in ["0", "+1", "12a", "", "+", "-0", "4294967295", "4294967296", "１"] {
        assert_eq!(parse_u32_str(s), s.parse::<u32>().ok(), "{s}");
    }
}

#[test]
fn users_are_found_by_name() {
    assert_eq!(lookup_user(&db(), "alice"), Ok((1000, 1000)));
    assert_eq!(lookup_user(&db(), "root"), Ok((0, 0)));
}

#[test]
fn users_are_found_by_uid() {
    assert_eq!(lookup_user(&db(), "1000"), Ok((1000, 1000)));
    assert_eq!(lookup_user(&db(), "+1"), Ok((1, 1)));
}

#[test]
fn unknown_users_are_reported() {
    assert_eq!(lookup_user(&db(), "carol"), Err("User 'carol' not found".to_string()));
    assert_eq!(lookup_user(&db(), "4242"), Err("User '4242' not found".to_string()));
    assert_eq!(lookup_user(&db(), "short"), Err("User 'short' not found".to_string()));
}

#[test]
fn bad_ids_are_reported() {
    assert_eq!(lookup_user(&db(), "broken"), Err("Invalid UID for 'broken'".to_string()));
    assert_eq!(lookup_user(&db(), "bob"), Err("Invalid GID for 'bob'".to_string()));
}

#[test]
fn unreadable_database_is_reported() {
    let r = lookup_user(&Err("permission denied".to_string()), "alice");
    assert_eq!(r, Err("Cannot read /etc/passwd: permission denied".to_string()));
}

#[test]
fn uid_table_keeps_the_last_name() {
    let m = build_uid_map(&Ok("a:x:5:5\nb:x:5:5\nc:x:bad\nd:x:6\ne:x\n".to_string()));
    assert_eq!(m.name_of(5), Some("b".to_string()));
    assert_eq!(m.name_of(6), Some("d".to_string()));
    assert_eq!(m.name_of(7), None);
    let empty = build_uid_map(&Err("nope".to_string()));
    assert_eq!(empty.name_of(0), None);
}

#[test]
fn no_user_runs_as_the_caller() {
    let ids = ProcessIds { uid: 1000, gid: 1000, euid: 1000 };
    assert_eq!(resolve_exec_user(&None, &ids, &Err("unused".to_string()), "/bin/mcp"), Ok((1000, 1000)));
}

#[test]
fn the_caller_itself_needs_no_setuid() {
    let ids = ProcessIds { uid: 1000, gid: 1000, euid: 1000 };
    assert_eq!(resolve_exec_user(&Some("alice".to_string()), &ids, &db(), "/bin/mcp"), Ok((1000, 1000)));
}

#[test]
fn another_user_needs_setuid_root() {
    let ids = ProcessIds { uid: 1000, gid: 1000, euid: 1000 };
    let r = resolve_exec_user(&Some("root".to_string()), &ids, &db(), "/usr/local/bin/mcp-wsl");
    assert_eq!(
        r,
        Err("Cannot run as 'root': mcp-wsl must be installed with setuid root.\nFix:\n  sudo chown root:root \"/usr/local/bin/mcp-wsl\"\n  sudo chmod u+s \"/usr/local/bin/mcp-wsl\"".to_string())
    );
}

#[test]
fn setuid_root_switches_users() {
    let ids = ProcessIds { uid: 1000, gid: 1000, euid: 0 };
    assert_eq!(resolve_exec_user(&Some("daemon".to_string()), &ids, &db(), "/bin/mcp"), Ok((1, 1)));
}

#[test]
fn lookup_errors_pass_through() {
    let ids = ProcessIds { uid: 1000, gid: 1000, euid: 0 };
    assert_eq!(
        resolve_exec_user(&Some("nobody-here".to_string()), &ids, &db(), "/bin/mcp"),
        Err("User 'nobody-here' not found".to_string())
    );
}
