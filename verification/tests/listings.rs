use mcp_wsl::args::{ArgValue, ToolArgs};
use mcp_wsl::files::{
    dir_error, dir_path, file_record, get_file, list_dir, pattern_error, ContentMode, ContentRead, DirEntryInfo,
    EntryKind, FileMeta,
};
use mcp_wsl::procs::{list_procs, ProcSample};
use mcp_wsl::record::{Field, FieldValue};

fn args(entries: Vec<(&str, ArgValue)>) -> ToolArgs {
    ToolArgs { entries: entries.into_iter().map(|(k, v)| (k.to_string(), v)).collect() }
}

fn show(r: &Vec<Field>) -> Vec<(String, String)> {
    r.iter()
        .map(|f| {
            let v = match &f.value {
                FieldValue::Text(s) => s.clone(),
                FieldValue::Count(n) => format!("#{n}"),
            };
            (f.key.clone(), v)
        })
        .collect()
}

fn get<'a>(r: &'a Vec<Field>, key: &str) -> Option<&'a FieldValue> {
    r.iter().find(|f| f.key == key).map(|f| &f.value)
}

fn text_of(r: &Vec<Field>, key: &str) -> String {
    match get(r, key) {
        Some(FieldValue::Text(s)) => s.clone(),
        _ => panic!("no text under {key}"),
    }
}

fn sample(pid: u32, uid: Option<u32>, name: &str, cmd: &[&str]) -> ProcSample {
    ProcSample {
        pid,
        uid,
        cpu: "0.5%".to_string(),
        memory: 2048,
        virtual_memory: 3 * 1024 * 1024,
        run_time: 3725,
        status: "Sleeping".to_string(),
        name: name.to_string(),
        command: cmd.iter().map(|s| s.to_string()).collect(),
    }
}

const PASSWD: &str = "root:x:0:0::/root:/bin/sh\nalice:x:1000:1000::/home/alice:/bin/sh\n";

#[test]
fn processes_have_every_field_by_default() {
    let ps = vec![sample(42, Some(1000), "bash", &["/bin/bash", "-l"])];
    let out = list_procs(&args(vec![]), &Ok(PASSWD.to_string()), &ps);
    assert_eq!(out.len(), 1);
    assert_eq!(
        show(&out[0]),
        vec![
            ("pid".to_string(), "#42".to_string()),
            ("user".to_string(), "alice".to_string()),
            ("cpu".to_string(), "0.5%".to_string()),
            ("memory".to_string(), "2.0K".to_string()),
            ("virtual_memory".to_string(), "3.0M".to_string()),
            ("time".to_string(), "1:02:05".to_string()),
            ("status".to_string(), "Sleeping".to_string()),
            ("name".to_string(), "bash".to_string()),
            ("command".to_string(), "/bin/bash -l".to_string()),
        ]
    );
}

#[test]
fn processes_are_ordered_by_pid() {
    let ps = vec![
        sample(30, Some(0), "c", &[]),
        sample(10, Some(0), "a", &[]),
        sample(20, None, "b", &[]),
    ];
    let out = list_procs(&args(vec![]), &Ok(PASSWD.to_string()), &ps);
    let pids: Vec<String> = out.iter().map(|r| show(r)[0].1.clone()).collect();
    assert_eq!(pids, vec!["#10", "#20", "#30"]);
    assert_eq!(text_of(&out[1], "user"), "?");
}

#[test]
fn selected_fields_only_each_once() {
    let ps = vec![sample(2, Some(7), "x", &["x"]), sample(1, Some(0), "y", &["y"])];
    let a = args(vec![(
        "fields",
        ArgValue::Array(vec![
            Some("name".to_string()),
            Some("bogus".to_string()),
            None,
            Some("user".to_string()),
            Some("name".to_string()),
        ]),
    )]);
    let out = list_procs(&a, &Err("unreadable".to_string()), &ps);
    assert_eq!(show(&out[0]), vec![("name".to_string(), "x".to_string()), ("user".to_string(), "?".to_string())]);
    assert_eq!(out.len(), 2);
    // Without a pid field the input order stays.
    assert_eq!(text_of(&out[1], "name"), "y");
}

#[test]
fn processes_are_filtered_case_insensitively() {
    let ps = vec![
        sample(1, Some(0), "systemd", &["/sbin/init"]),
        sample(2, Some(1000), "Firefox", &["/usr/bin/firefox", "--new"]),
        sample(3, Some(1000), "bash", &["-bash"]),
    ];
    let out = list_procs(&args(vec![("filter", ArgValue::Text("FIRE".to_string()))]), &Ok(PASSWD.to_string()), &ps);
    assert_eq!(out.len(), 1);
    assert_eq!(text_of(&out[0], "name"), "Firefox");
    let by_user = list_procs(&args(vec![("filter", ArgValue::Text("ALI".to_string()))]), &Ok(PASSWD.to_string()), &ps);
    assert_eq!(by_user.len(), 2);
}

#[test]
fn the_filter_reads_command_name_and_user_whatever_is_shown() {
    let ps = vec![
        sample(1, Some(0), "systemd", &["/sbin/init"]),
        sample(2, Some(1000), "Firefox", &["/usr/bin/firefox", "--new"]),
        sample(3, Some(1000), "bash", &["-bash"]),
    ];
    let pid_only = |f: &str| {
        list_procs(
            &args(vec![
                ("filter", ArgValue::Text(f.to_string())),
                ("fields", ArgValue::Array(vec![Some("pid".to_string())])),
            ]),
            &Ok(PASSWD.to_string()),
            &ps,
        )
    };
    let by_name = pid_only("fire");
    assert_eq!(by_name.len(), 1);
    assert_eq!(show(&by_name[0]), vec![("pid".to_string(), "#2".to_string())]);
    let by_command = pid_only("SBIN");
    assert_eq!(by_command.len(), 1);
    assert_eq!(show(&by_command[0]), vec![("pid".to_string(), "#1".to_string())]);
    let by_user = pid_only("alice");
    assert_eq!(by_user.iter().map(|r| show(r)).collect::<Vec<_>>(), vec![
        vec![("pid".to_string(), "#2".to_string())],
        vec![("pid".to_string(), "#3".to_string())],
    ]);
    assert!(pid_only("zzz").is_empty());
}

#[test]
fn a_filter_narrows_the_unfiltered_listing() {
    let ps = vec![
        sample(30, Some(1000), "bash", &["-bash"]),
        sample(2, Some(1000), "Firefox", &["/usr/bin/firefox", "--new"]),
        sample(1, Some(0), "systemd", &["/sbin/init"]),
    ];
    let all = list_procs(&args(vec![]), &Ok(PASSWD.to_string()), &ps);
    let filtered = list_procs(&args(vec![("filter", ArgValue::Text("A".to_string()))]), &Ok(PASSWD.to_string()), &ps);
    let expected: Vec<_> = all
        .iter()
        .filter(|r| ["command", "name", "user"].iter().any(|k| text_of(r, k).to_lowercase().contains("a")))
        .map(|r| show(r))
        .collect();
    assert_eq!(filtered.iter().map(|r| show(r)).collect::<Vec<_>>(), expected);
    assert_eq!(expected.len(), 2);
    let upper = list_procs(&args(vec![("filter", ArgValue::Text("BASH".to_string()))]), &Ok(PASSWD.to_string()), &ps);
    let lower = list_procs(&args(vec![("filter", ArgValue::Text("bash".to_string()))]), &Ok(PASSWD.to_string()), &ps);
    assert_eq!(upper.iter().map(|r| show(r)).collect::<Vec<_>>(), lower.iter().map(|r| show(r)).collect::<Vec<_>>());
    assert_eq!(upper.len(), 1);
}

fn entry(name: &str, kind: EntryKind, meta: Option<FileMeta>) -> DirEntryInfo {
    DirEntryInfo { name: name.to_string(), kind, meta }
}

fn meta() -> Option<FileMeta> {
    Some(FileMeta { mode: 0o100640, size: 123, modified: Some(0) })
}

#[test]
fn directory_entries_are_named_and_typed_in_name_order() {
    let es = vec![
        entry("zeta", EntryKind::File, meta()),
        entry(".hidden", EntryKind::File, meta()),
        entry("Alpha", EntryKind::Directory, meta()),
        entry("link", EntryKind::Symlink, None),
        entry("beta", EntryKind::Other, meta()),
    ];
    let out = list_dir(&args(vec![]), &es);
    let names: Vec<String> = out.iter().map(|r| text_of(r, "name")).collect();
    assert_eq!(names, vec!["Alpha", "beta", "link", "zeta"]);
    assert_eq!(
        show(&out[0]),
        vec![("name".to_string(), "Alpha".to_string()), ("type".to_string(), "directory".to_string())]
    );
    assert_eq!(text_of(&out[1], "type"), "other");
    assert_eq!(text_of(&out[2], "type"), "symlink");
}

#[test]
fn hidden_entries_and_stat_fields_on_request() {
    let es = vec![entry("b", EntryKind::File, meta()), entry(".a", EntryKind::File, meta()), entry("c", EntryKind::File, None)];
    let a = args(vec![
        ("show_hidden", ArgValue::Bool(true)),
        ("show_permissions", ArgValue::Bool(true)),
        ("show_size", ArgValue::Bool(true)),
        ("show_modified", ArgValue::Bool(true)),
    ]);
    let out = list_dir(&a, &es);
    assert_eq!(out.len(), 3);
    assert_eq!(
        show(&out[0]),
        vec![
            ("name".to_string(), ".a".to_string()),
            ("type".to_string(), "file".to_string()),
            ("permissions".to_string(), "rw-r-----".to_string()),
            ("size".to_string(), "#123".to_string()),
            ("modified".to_string(), "1970-01-01 00:00:00 UTC".to_string()),
        ]
    );
    // No metadata, no stat fields.
    assert_eq!(show(&out[2]).len(), 2);
}

#[test]
fn directory_path_and_errors() {
    assert_eq!(dir_path(&args(vec![])), None);
    assert_eq!(dir_path(&args(vec![("path", ArgValue::Text("/etc".to_string()))])), Some("/etc".to_string()));
    assert_eq!(dir_path(&args(vec![("path", ArgValue::Bool(true))])), None);
    assert_eq!(dir_error("/x", "denied"), "Cannot read directory /x: denied");
    assert_eq!(pattern_error("bad"), "Invalid glob pattern: bad");
}

#[test]
fn file_query_requires_a_pattern() {
    assert_eq!(get_file(&args(vec![])).err(), Some("glob parameter is required".to_string()));
    let q = get_file(&args(vec![("glob", ArgValue::Text("/etc/*.conf".to_string()))])).ok().unwrap();
    assert_eq!(q.pattern, "/etc/*.conf");
    assert_eq!(q.limit, u64::MAX);
    assert!(q.content == ContentMode::Skip);
    let q = get_file(&args(vec![
        ("glob", ArgValue::Text("*".to_string())),
        ("limit", ArgValue::Number(Some(2))),
        ("content", ArgValue::Text("hex".to_string())),
    ]))
    .ok()
    .unwrap();
    assert_eq!(q.limit, 2);
    assert!(q.content == ContentMode::Hex);
    let q = get_file(&args(vec![("glob", ArgValue::Text("*".to_string())), ("content", ArgValue::Text("TEXT".to_string()))]))
        .ok()
        .unwrap();
    assert!(q.content == ContentMode::Skip);
}

#[test]
fn file_records_carry_contents() {
    let q = get_file(&args(vec![
        ("glob", ArgValue::Text("*".to_string())),
        ("show_size", ArgValue::Bool(true)),
        ("content", ArgValue::Text("hex".to_string())),
    ]))
    .ok()
    .unwrap();
    let r = file_record(&q, "/f".to_string(), &meta(), ContentRead::Bytes(Ok(vec![0x00, 0xab, 0x10, 0xff])));
    assert_eq!(
        show(&r),
        vec![
            ("path".to_string(), "/f".to_string()),
            ("size".to_string(), "#123".to_string()),
            ("content".to_string(), "00ab10ff".to_string()),
        ]
    );
    let r = file_record(&q, "/g".to_string(), &None, ContentRead::Text(Err("Is a directory".to_string())));
    assert_eq!(
        show(&r),
        vec![("path".to_string(), "/g".to_string()), ("content_error".to_string(), "Is a directory".to_string())]
    );
    let r = file_record(&q, "/h".to_string(), &None, ContentRead::Text(Ok("hello".to_string())));
    assert_eq!(text_of(&r, "content"), "hello");
    let r = file_record(&q, "/h".to_string(), &None, ContentRead::Skipped);
    assert_eq!(show(&r).len(), 1);
}

#[test]
fn hex_content_decodes_to_the_bytes() {
    let q = get_file(&args(vec![
        ("glob", ArgValue::Text("*".to_string())),
        ("content", ArgValue::Text("hex".to_string())),
    ]))
    .ok()
    .unwrap();
    let bytes: Vec<u8> = (0..=255u8).collect();
    let r = file_record(&q, "/all".to_string(), &None, ContentRead::Bytes(Ok(bytes.clone())));
    let hex = text_of(&r, "content");
    let decoded: Vec<u8> = (0..hex.len() / 2).map(|i| u8::from_str_radix(&hex[2 * i..2 * i + 2], 16).unwrap()).collect();
    assert_eq!(decoded, bytes);
    assert_eq!(hex, hex.to_lowercase());
}

#[test]
fn listings_are_written_as_pretty_json() {
    let rs = vec![vec![
        Field { key: "pid".to_string(), value: FieldValue::Count(7) },
        Field { key: "name".to_string(), value: FieldValue::Text("a\"b".to_string()) },
    ]];
    let text = mcp_wsl::replies::records_text(&rs).unwrap();
    assert_eq!(text, "[\n  {\n    \"name\": \"a\\\"b\",\n    \"pid\": 7\n  }\n]");
    assert_eq!(mcp_wsl::replies::records_text(&vec![]).unwrap(), "[]");
    let report = mcp_wsl::exec::ExecReport { status: -1, stdout: "out".to_string(), stderr: String::new() };
    assert_eq!(
        mcp_wsl::replies::report_text(&report).unwrap(),
        "{\n  \"status\": -1,\n  \"stderr\": \"\",\n  \"stdout\": \"out\"\n}"
    );
}
