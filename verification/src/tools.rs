//! The tool catalog: what each tool is called, how it is described and
//! which parameters it takes, and the lookup of a tool by name.
use vstd::prelude::*;
use crate::text::{push_str, str_eq};

verus! {

/// The tools this server offers.
#[derive(Clone, Copy, PartialEq, Eq, Structural, Debug)]
pub enum ToolKind {
    SystemInfo,
    OsInfo,
    ListDir,
    Mounts,
    WslConfig,
    DiskUsage,
    Env,
    Procs,
    File,
    PackageManager,
    Shells,
    DefaultShell,
    ExecuteCommand,
    ExecuteShellCommand,
}

/// The JSON type of a parameter, as its schema states it.
pub enum ParamKindView {
    Text,
    Boolean,
    Integer,
    TextList,
    /// A string taking one of the listed values.
    Choice(Seq<Seq<char>>),
    /// An array of strings, each one of the listed values.
    ChoiceList(Seq<Seq<char>>),
}

pub struct ParamView {
    pub name: Seq<char>,
    pub kind: ParamKindView,
    pub description: Seq<char>,
}

pub struct ToolView {
    pub name: Seq<char>,
    pub description: Seq<char>,
    pub params: Seq<ParamView>,
    pub required: Seq<Seq<char>>,
}

pub enum ParamKind {
    Text,
    Boolean,
    Integer,
    TextList,
    Choice(Vec<String>),
    ChoiceList(Vec<String>),
}

/// One parameter of a tool's input schema.
pub struct ParamSpec {
    pub name: String,
    pub kind: ParamKind,
    pub description: String,
}

/// One entry of the tool listing.
pub struct ToolSpec {
    pub name: String,
    pub description: String,
    pub params: Vec<ParamSpec>,
    pub required: Vec<String>,
}

impl View for ParamKind {
    type V = ParamKindView;

    open spec fn view(&self) -> ParamKindView {
        match self {
            ParamKind::Text => ParamKindView::Text,
            ParamKind::Boolean => ParamKindView::Boolean,
            ParamKind::Integer => ParamKindView::Integer,
            ParamKind::TextList => ParamKindView::TextList,
            ParamKind::Choice(v) => ParamKindView::Choice(crate::text::string_views(v@)),
            ParamKind::ChoiceList(v) => ParamKindView::ChoiceList(crate::text::string_views(v@)),
        }
    }
}

impl View for ParamSpec {
    type V = ParamView;

    open spec fn view(&self) -> ParamView {
        ParamView { name: self.name@, kind: self.kind@, description: self.description@ }
    }
}

pub open spec fn param_views(v: Seq<ParamSpec>) -> Seq<ParamView> {
    Seq::new(v.len(), |i: int| v[i]@)
}

impl View for ToolSpec {
    type V = ToolView;

    open spec fn view(&self) -> ToolView {
        ToolView {
            name: self.name@,
            description: self.description@,
            params: param_views(self.params@),
            required: crate::text::string_views(self.required@),
        }
    }
}

/// The order of the tool listing.
pub open spec fn catalog_order() -> Seq<ToolKind> {
    seq![
        ToolKind::SystemInfo,
        ToolKind::OsInfo,
        ToolKind::ListDir,
        ToolKind::Mounts,
        ToolKind::WslConfig,
        ToolKind::DiskUsage,
        ToolKind::Env,
        ToolKind::Procs,
        ToolKind::File,
        ToolKind::PackageManager,
        ToolKind::Shells,
        ToolKind::DefaultShell,
        ToolKind::ExecuteCommand,
        ToolKind::ExecuteShellCommand,
    ]
}

fn owned(s: &str) -> (r: String)
    ensures
        r@ == s@,
{
    s.to_owned()
}

fn param(name: &str, kind: ParamKind, description: &str) -> (p: ParamSpec)
    ensures
        p@ == (ParamView { name: name@, kind: kind@, description: description@ }),
{
    ParamSpec { name: owned(name), kind, description: owned(description) }
}

fn entry(name: &str, description: &str, params: Vec<ParamSpec>, required: Vec<String>) -> (t: ToolSpec)
    ensures
        t@.name == name@,
        t@.description == description@,
        t@.params == param_views(params@),
        t@.required == crate::text::string_views(required@),
{
    ToolSpec { name: owned(name), description: owned(description), params, required }
}

/// The name under which each tool is listed and called.
pub open spec fn tool_name(k: ToolKind) -> Seq<char> {
    match k {
        ToolKind::SystemInfo => "read:get_system_info"@,
        ToolKind::OsInfo => "read:get_os_info"@,
        ToolKind::ListDir => "read:list_dir"@,
        ToolKind::Mounts => "read:get_mounts"@,
        ToolKind::WslConfig => "read:get_wsl_config"@,
        ToolKind::DiskUsage => "read:get_disk_usage"@,
        ToolKind::Env => "read:get_env"@,
        ToolKind::Procs => "read:list_procs"@,
        ToolKind::File => "read:get_file"@,
        ToolKind::PackageManager => "read:get_package_manager"@,
        ToolKind::Shells => "read:get_shells"@,
        ToolKind::DefaultShell => "read:get_default_shell"@,
        ToolKind::ExecuteCommand => "exec:execute_command"@,
        ToolKind::ExecuteShellCommand => "exec:execute_shell_command"@,
    }
}

/// What each tool is listed with: its name, description, parameters and
/// the parameters it requires.
pub open spec fn tool_view(k: ToolKind) -> ToolView {
    match k {
        ToolKind::SystemInfo => ToolView {
            name: tool_name(k),
            description: "Returns system information equivalent to `uname -a`"@,
            params: seq![],
            required: seq![],
        },

        ToolKind::OsInfo => ToolView {
            name: tool_name(k),
            description: "Returns OS distribution information from /etc/os-release and variants"@,
            params: seq![],
            required: seq![],
        },

        ToolKind::ListDir => ToolView {
            name: tool_name(k),
            description: "Lists directory contents with optional stat fields"@,
            params: seq![
                ParamView { name: "path"@, kind: ParamKindView::Text, description: "Directory path (default: current working directory)"@ },
                ParamView { name: "show_permissions"@, kind: ParamKindView::Boolean, description: "Include Unix permission string"@ },
                ParamView { name: "show_size"@, kind: ParamKindView::Boolean, description: "Include size in bytes"@ },
                ParamView { name: "show_modified"@, kind: ParamKindView::Boolean, description: "Include last-modified timestamp"@ },
                ParamView { name: "show_hidden"@, kind: ParamKindView::Boolean, description: "Include dot-files"@ },
            ],
            required: seq![],
        },

        ToolKind::Mounts => ToolView {
            name: tool_name(k),
            description: "Returns mounted filesystems (equivalent to `mount` or /proc/mounts)"@,
            params: seq![],
            required: seq![],
        },

        ToolKind::WslConfig => ToolView {
            name: tool_name(k),
            description: "Returns the contents of /etc/wsl.conf"@,
            params: seq![],
            required: seq![],
        },

        ToolKind::DiskUsage => ToolView {
            name: tool_name(k),
            description: "Returns disk usage for a path, equivalent to `df -h`"@,
            params: seq![
                ParamView { name: "path"@, kind: ParamKindView::Text, description: "Path to check (default: /)"@ },
            ],
            required: seq![],
        },

        ToolKind::Env => ToolView {
            name: tool_name(k),
            description: "Returns environment variables, optionally filtered by a substring"@,
            params: seq![
                ParamView { name: "filter"@, kind: ParamKindView::Text, description: "Case-insensitive substring to match against key or value"@ },
            ],
            required: seq![],
        },

        ToolKind::Procs => ToolView {
            name: tool_name(k),
            description: "Lists running processes with optional filtering and field selection"@,
            params: seq![
                ParamView { name: "filter"@, kind: ParamKindView::Text, description: "Case-insensitive substring to match against command, name, or user"@ },
                ParamView { name: "fields"@, kind: ParamKindView::ChoiceList(seq!["pid"@, "user"@, "cpu"@, "memory"@, "virtual_memory"@, "time"@, "status"@, "name"@, "command"@]), description: "Fields to include (default: all)"@ },
            ],
            required: seq![],
        },

        ToolKind::File => ToolView {
            name: tool_name(k),
            description: "Retrieves file metadata and optionally content for files matching a glob pattern"@,
            params: seq![
                ParamView { name: "glob"@, kind: ParamKindView::Text, description: "Glob pattern to match files"@ },
                ParamView { name: "limit"@, kind: ParamKindView::Integer, description: "Maximum number of matched files to return"@ },
                ParamView { name: "show_permissions"@, kind: ParamKindView::Boolean, description: "Include Unix permission string"@ },
                ParamView { name: "show_size"@, kind: ParamKindView::Boolean, description: "Include size in bytes"@ },
                ParamView { name: "show_modified"@, kind: ParamKindView::Boolean, description: "Include last-modified timestamp"@ },
                ParamView { name: "content"@, kind: ParamKindView::Choice(seq!["none"@, "text"@, "hex"@]), description: "Whether and how to return file contents (default: none)"@ },
            ],
            required: seq!["glob"@],
        },

        ToolKind::PackageManager => ToolView {
            name: tool_name(k),
            description: "Detects available package managers (system, AUR helpers, language-specific)"@,
            params: seq![],
            required: seq![],
        },

        ToolKind::Shells => ToolView {
            name: tool_name(k),
            description: "Lists available shells from /etc/shells"@,
            params: seq![],
            required: seq![],
        },

        ToolKind::DefaultShell => ToolView {
            name: tool_name(k),
            description: "Returns the current user's default shell"@,
            params: seq![],
            required: seq![],
        },

        ToolKind::ExecuteCommand => ToolView {
            name: tool_name(k),
            description: "Executes a binary with explicit arguments. Captures stdout/stderr unless redirected to files."@,
            params: seq![
                ParamView { name: "command"@, kind: ParamKindView::Text, description: "Binary name or absolute path"@ },
                ParamView { name: "args"@, kind: ParamKindView::TextList, description: "Argument list"@ },
                ParamView { name: "user"@, kind: ParamKindView::Text, description: "Run as this user (name or numeric UID). Requires mcp-wsl to be installed with setuid root."@ },
                ParamView { name: "stdin"@, kind: ParamKindView::Text, description: "Text to pass to stdin"@ },
                ParamView { name: "stdin_file"@, kind: ParamKindView::Text, description: "Path to file whose contents are piped to stdin"@ },
                ParamView { name: "stdout_file"@, kind: ParamKindView::Text, description: "Write stdout to this file instead of returning it"@ },
                ParamView { name: "stderr_file"@, kind: ParamKindView::Text, description: "Write stderr to this file instead of returning it"@ },
                ParamView { name: "timeout_secs"@, kind: ParamKindView::Integer, description: "Timeout in seconds (default: 30)"@ },
                ParamView { name: "working_dir"@, kind: ParamKindView::Text, description: "Working directory for the command"@ },
            ],
            required: seq!["command"@],
        },

        ToolKind::ExecuteShellCommand => ToolView {
            name: tool_name(k),
            description: "Executes a full shell command string supporting pipes, redirects, and shell builtins."@,
            params: seq![
                ParamView { name: "command"@, kind: ParamKindView::Text, description: "Full shell command string"@ },
                ParamView { name: "shell"@, kind: ParamKindView::Text, description: "Shell to use (default: /bin/sh)"@ },
                ParamView { name: "user"@, kind: ParamKindView::Text, description: "Run as this user (name or numeric UID). Requires mcp-wsl to be installed with setuid root."@ },
                ParamView { name: "stdin"@, kind: ParamKindView::Text, description: "Text to pass to stdin"@ },
                ParamView { name: "stdout_file"@, kind: ParamKindView::Text, description: "Write stdout to this file instead of returning it"@ },
                ParamView { name: "stderr_file"@, kind: ParamKindView::Text, description: "Write stderr to this file instead of returning it"@ },
                ParamView { name: "timeout_secs"@, kind: ParamKindView::Integer, description: "Timeout in seconds (default: 30)"@ },
                ParamView { name: "working_dir"@, kind: ParamKindView::Text, description: "Working directory for the command"@ },
            ],
            required: seq!["command"@],
        },
    }
}

/// The listing entry of one tool.
pub fn tool_spec(kind: ToolKind) -> (t: ToolSpec)
    ensures
        t@ == tool_view(kind),
{
    match kind {
        ToolKind::SystemInfo => {
            let mut params: Vec<ParamSpec> = Vec::new();
            let mut required: Vec<String> = Vec::new();
            let t = entry("read:get_system_info", "Returns system information equivalent to `uname -a`", params, required);
            assert(t@.params =~~= tool_view(kind).params);
            assert(t@.required =~= tool_view(kind).required);
            t
        },
        ToolKind::OsInfo => {
            let mut params: Vec<ParamSpec> = Vec::new();
            let mut required: Vec<String> = Vec::new();
            let t = entry("read:get_os_info", "Returns OS distribution information from /etc/os-release and variants", params, required);
            assert(t@.params =~~= tool_view(kind).params);
            assert(t@.required =~= tool_view(kind).required);
            t
        },
        ToolKind::ListDir => {
            let mut params: Vec<ParamSpec> = Vec::new();
            params.push(param("path", ParamKind::Text, "Directory path (default: current working directory)"));
            params.push(param("show_permissions", ParamKind::Boolean, "Include Unix permission string"));
            params.push(param("show_size", ParamKind::Boolean, "Include size in bytes"));
            params.push(param("show_modified", ParamKind::Boolean, "Include last-modified timestamp"));
            params.push(param("show_hidden", ParamKind::Boolean, "Include dot-files"));
            let mut required: Vec<String> = Vec::new();
            let t = entry("read:list_dir", "Lists directory contents with optional stat fields", params, required);
            assert(t@.params =~~= tool_view(kind).params);
            assert(t@.required =~= tool_view(kind).required);
            t
        },
        ToolKind::Mounts => {
            let mut params: Vec<ParamSpec> = Vec::new();
            let mut required: Vec<String> = Vec::new();
            let t = entry("read:get_mounts", "Returns mounted filesystems (equivalent to `mount` or /proc/mounts)", params, required);
            assert(t@.params =~~= tool_view(kind).params);
            assert(t@.required =~= tool_view(kind).required);
            t
        },
        ToolKind::WslConfig => {
            let mut params: Vec<ParamSpec> = Vec::new();
            let mut required: Vec<String> = Vec::new();
            let t = entry("read:get_wsl_config", "Returns the contents of /etc/wsl.conf", params, required);
            assert(t@.params =~~= tool_view(kind).params);
            assert(t@.required =~= tool_view(kind).required);
            t
        },
        ToolKind::DiskUsage => {
            let mut params: Vec<ParamSpec> = Vec::new();
            params.push(param("path", ParamKind::Text, "Path to check (default: /)"));
            let mut required: Vec<String> = Vec::new();
            let t = entry("read:get_disk_usage", "Returns disk usage for a path, equivalent to `df -h`", params, required);
            assert(t@.params =~~= tool_view(kind).params);
            assert(t@.required =~= tool_view(kind).required);
            t
        },
        ToolKind::Env => {
            let mut params: Vec<ParamSpec> = Vec::new();
            params.push(param("filter", ParamKind::Text, "Case-insensitive substring to match against key or value"));
            let mut required: Vec<String> = Vec::new();
            let t = entry("read:get_env", "Returns environment variables, optionally filtered by a substring", params, required);
            assert(t@.params =~~= tool_view(kind).params);
            assert(t@.required =~= tool_view(kind).required);
            t
        },
        ToolKind::Procs => {
            let mut params: Vec<ParamSpec> = Vec::new();
            params.push(param("filter", ParamKind::Text, "Case-insensitive substring to match against command, name, or user"));
            let mut choices1: Vec<String> = Vec::new();
            choices1.push(owned("pid"));
            choices1.push(owned("user"));
            choices1.push(owned("cpu"));
            choices1.push(owned("memory"));
            choices1.push(owned("virtual_memory"));
            choices1.push(owned("time"));
            choices1.push(owned("status"));
            choices1.push(owned("name"));
            choices1.push(owned("command"));
            assert(crate::text::string_views(choices1@) =~= seq!["pid"@, "user"@, "cpu"@, "memory"@, "virtual_memory"@, "time"@, "status"@, "name"@, "command"@]);
            params.push(param("fields", ParamKind::ChoiceList(choices1), "Fields to include (default: all)"));
            let mut required: Vec<String> = Vec::new();
            let t = entry("read:list_procs", "Lists running processes with optional filtering and field selection", params, required);
            assert(t@.params =~~= tool_view(kind).params);
            assert(t@.required =~= tool_view(kind).required);
            t
        },
        ToolKind::File => {
            let mut params: Vec<ParamSpec> = Vec::new();
            params.push(param("glob", ParamKind::Text, "Glob pattern to match files"));
            params.push(param("limit", ParamKind::Integer, "Maximum number of matched files to return"));
            params.push(param("show_permissions", ParamKind::Boolean, "Include Unix permission string"));
            params.push(param("show_size", ParamKind::Boolean, "Include size in bytes"));
            params.push(param("show_modified", ParamKind::Boolean, "Include last-modified timestamp"));
            let mut choices5: Vec<String> = Vec::new();
            choices5.push(owned("none"));
            choices5.push(owned("text"));
            choices5.push(owned("hex"));
            assert(crate::text::string_views(choices5@) =~= seq!["none"@, "text"@, "hex"@]);
            params.push(param("content", ParamKind::Choice(choices5), "Whether and how to return file contents (default: none)"));
            let mut required: Vec<String> = Vec::new();
            required.push(owned("glob"));
            let t = entry("read:get_file", "Retrieves file metadata and optionally content for files matching a glob pattern", params, required);
            assert(t@.params =~~= tool_view(kind).params);
            assert(t@.required =~= tool_view(kind).required);
            t
        },
        ToolKind::PackageManager => {
            let mut params: Vec<ParamSpec> = Vec::new();
            let mut required: Vec<String> = Vec::new();
            let t = entry("read:get_package_manager", "Detects available package managers (system, AUR helpers, language-specific)", params, required);
            assert(t@.params =~~= tool_view(kind).params);
            assert(t@.required =~= tool_view(kind).required);
            t
        },
        ToolKind::Shells => {
            let mut params: Vec<ParamSpec> = Vec::new();
            let mut required: Vec<String> = Vec::new();
            let t = entry("read:get_shells", "Lists available shells from /etc/shells", params, required);
            assert(t@.params =~~= tool_view(kind).params);
            assert(t@.required =~= tool_view(kind).required);
            t
        },
        ToolKind::DefaultShell => {
            let mut params: Vec<ParamSpec> = Vec::new();
            let mut required: Vec<String> = Vec::new();
            let t = entry("read:get_default_shell", "Returns the current user's default shell", params, required);
            assert(t@.params =~~= tool_view(kind).params);
            assert(t@.required =~= tool_view(kind).required);
            t
        },
        ToolKind::ExecuteCommand => {
            let mut params: Vec<ParamSpec> = Vec::new();
            params.push(param("command", ParamKind::Text, "Binary name or absolute path"));
            params.push(param("args", ParamKind::TextList, "Argument list"));
            params.push(param("user", ParamKind::Text, "Run as this user (name or numeric UID). Requires mcp-wsl to be installed with setuid root."));
            params.push(param("stdin", ParamKind::Text, "Text to pass to stdin"));
            params.push(param("stdin_file", ParamKind::Text, "Path to file whose contents are piped to stdin"));
            params.push(param("stdout_file", ParamKind::Text, "Write stdout to this file instead of returning it"));
            params.push(param("stderr_file", ParamKind::Text, "Write stderr to this file instead of returning it"));
            params.push(param("timeout_secs", ParamKind::Integer, "Timeout in seconds (default: 30)"));
            params.push(param("working_dir", ParamKind::Text, "Working directory for the command"));
            let mut required: Vec<String> = Vec::new();
            required.push(owned("command"));
            let t = entry("exec:execute_command", "Executes a binary with explicit arguments. Captures stdout/stderr unless redirected to files.", params, required);
            assert(t@.params =~~= tool_view(kind).params);
            assert(t@.required =~= tool_view(kind).required);
            t
        },
        ToolKind::ExecuteShellCommand => {
            let mut params: Vec<ParamSpec> = Vec::new();
            params.push(param("command", ParamKind::Text, "Full shell command string"));
            params.push(param("shell", ParamKind::Text, "Shell to use (default: /bin/sh)"));
            params.push(param("user", ParamKind::Text, "Run as this user (name or numeric UID). Requires mcp-wsl to be installed with setuid root."));
            params.push(param("stdin", ParamKind::Text, "Text to pass to stdin"));
            params.push(param("stdout_file", ParamKind::Text, "Write stdout to this file instead of returning it"));
            params.push(param("stderr_file", ParamKind::Text, "Write stderr to this file instead of returning it"));
            params.push(param("timeout_secs", ParamKind::Integer, "Timeout in seconds (default: 30)"));
            params.push(param("working_dir", ParamKind::Text, "Working directory for the command"));
            let mut required: Vec<String> = Vec::new();
            required.push(owned("command"));
            let t = entry("exec:execute_shell_command", "Executes a full shell command string supporting pipes, redirects, and shell builtins.", params, required);
            assert(t@.params =~~= tool_view(kind).params);
            assert(t@.required =~= tool_view(kind).required);
            t
        },
    }
}
/// The tool listing, in catalog order (`tools/list`).
pub fn tool_list() -> (r: Vec<ToolSpec>)
    ensures
        r@.len() == catalog_order().len(),
        forall|i: int| 0 <= i < r@.len() ==> #[trigger] r@[i]@ == tool_view(catalog_order()[i]),
{
    let kinds = [
        ToolKind::SystemInfo,
        ToolKind::OsInfo,
        ToolKind::ListDir,
        ToolKind::Mounts,
        ToolKind::WslConfig,
        ToolKind::DiskUsage,
        ToolKind::Env,
        ToolKind::Procs,
        ToolKind::File,
        ToolKind::PackageManager,
        ToolKind::Shells,
        ToolKind::DefaultShell,
        ToolKind::ExecuteCommand,
        ToolKind::ExecuteShellCommand,
    ];
    assert(kinds@ =~= catalog_order());
    let mut r: Vec<ToolSpec> = Vec::new();
    for i in 0..kinds.len()
        invariant
            kinds@ == catalog_order(),
            r@.len() == i,
            forall|j: int| 0 <= j < i ==> #[trigger] r@[j]@ == tool_view(catalog_order()[j]),
    {
        r.push(tool_spec(kinds[i]));
    }
    r
}

/// The tool called `name`, or the error that names the unknown tool.
pub fn dispatch(name: &str) -> (r: Result<ToolKind, String>)
    ensures
        match r {
            Ok(k) => tool_name(k) == name@,
            Err(msg) => msg@ == "Unknown tool: "@ + name@
                && forall|k: ToolKind| #[trigger] tool_name(k) != name@,
        },
{
    if str_eq(name, "read:get_system_info") { return Ok(ToolKind::SystemInfo); }
    if str_eq(name, "read:get_os_info") { return Ok(ToolKind::OsInfo); }
    if str_eq(name, "read:list_dir") { return Ok(ToolKind::ListDir); }
    if str_eq(name, "read:get_mounts") { return Ok(ToolKind::Mounts); }
    if str_eq(name, "read:get_wsl_config") { return Ok(ToolKind::WslConfig); }
    if str_eq(name, "read:get_disk_usage") { return Ok(ToolKind::DiskUsage); }
    if str_eq(name, "read:get_env") { return Ok(ToolKind::Env); }
    if str_eq(name, "read:list_procs") { return Ok(ToolKind::Procs); }
    if str_eq(name, "read:get_file") { return Ok(ToolKind::File); }
    if str_eq(name, "read:get_package_manager") { return Ok(ToolKind::PackageManager); }
    if str_eq(name, "read:get_shells") { return Ok(ToolKind::Shells); }
    if str_eq(name, "read:get_default_shell") { return Ok(ToolKind::DefaultShell); }
    if str_eq(name, "exec:execute_command") { return Ok(ToolKind::ExecuteCommand); }
    if str_eq(name, "exec:execute_shell_command") { return Ok(ToolKind::ExecuteShellCommand); }
    let mut msg = String::new();
    push_str(&mut msg, "Unknown tool: ");
    push_str(&mut msg, name);
    Err(msg)
}

/// Each tool has a name of its own, and the listing holds every tool exactly
/// once under that name. With the contract of `dispatch`, every listed name
/// is dispatched to its tool, and no other name is.
pub proof fn law_catalog()
    ensures
        forall|a: ToolKind, b: ToolKind| #[trigger] tool_name(a) == #[trigger] tool_name(b) ==> a == b,
        forall|k: ToolKind| #[trigger] catalog_order().contains(k),
        forall|i: int, j: int| 0 <= i < j < catalog_order().len() ==> #[trigger] catalog_order()[i] != #[trigger] catalog_order()[j],
        forall|k: ToolKind| #[trigger] tool_view(k).name == tool_name(k),
{
    reveal_strlit("read:get_system_info");
    reveal_strlit("read:get_os_info");
    reveal_strlit("read:list_dir");
    reveal_strlit("read:get_mounts");
    reveal_strlit("read:get_wsl_config");
    reveal_strlit("read:get_disk_usage");
    reveal_strlit("read:get_env");
    reveal_strlit("read:list_procs");
    reveal_strlit("read:get_file");
    reveal_strlit("read:get_package_manager");
    reveal_strlit("read:get_shells");
    reveal_strlit("read:get_default_shell");
    reveal_strlit("exec:execute_command");
    reveal_strlit("exec:execute_shell_command");
    assert forall|a: ToolKind, b: ToolKind| #[trigger] tool_name(a) == #[trigger] tool_name(b) implies a == b by {
        let x = tool_name(a);
        let y = tool_name(b);
        assert(x.len() == y.len());
        assert(x[0] == y[0]);
        assert(x[5] == y[5]);
        assert(x[9] == y[9]);
    }
    assert forall|k: ToolKind| #[trigger] catalog_order().contains(k) by {
        match k {
            ToolKind::SystemInfo => { assert(catalog_order()[0] == k); },
            ToolKind::OsInfo => { assert(catalog_order()[1] == k); },
            ToolKind::ListDir => { assert(catalog_order()[2] == k); },
            ToolKind::Mounts => { assert(catalog_order()[3] == k); },
            ToolKind::WslConfig => { assert(catalog_order()[4] == k); },
            ToolKind::DiskUsage => { assert(catalog_order()[5] == k); },
            ToolKind::Env => { assert(catalog_order()[6] == k); },
            ToolKind::Procs => { assert(catalog_order()[7] == k); },
            ToolKind::File => { assert(catalog_order()[8] == k); },
            ToolKind::PackageManager => { assert(catalog_order()[9] == k); },
            ToolKind::Shells => { assert(catalog_order()[10] == k); },
            ToolKind::DefaultShell => { assert(catalog_order()[11] == k); },
            ToolKind::ExecuteCommand => { assert(catalog_order()[12] == k); },
            ToolKind::ExecuteShellCommand => { assert(catalog_order()[13] == k); },
        }
    }
}

} // verus!
