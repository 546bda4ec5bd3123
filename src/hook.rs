//! Runtime-hook artifacts and the environment that makes the host load the
//! profiler: the fixed names and values, the text of the environment file,
//! launcher and menu entry, and the status derived from what is found.
use vstd::prelude::*;
use crate::injection::{join_path, joined_path};
use crate::injection::{CSS_FILE, PRELOAD_FILE};
use crate::text::{chars_of, contains, contains_all};

verus! {

pub const PROFILER_GUID: &'static str = "{D1A6F5A0-1234-4567-89AB-CDEF01234567}";

pub const HOOK_DLL: &'static str = "UprootedHook.dll";

pub const HOOK_DEPS: &'static str = "UprootedHook.deps.json";

pub const ENV_ENABLE: &'static str = "CORECLR_ENABLE_PROFILING";

pub const ENV_PROFILER: &'static str = "CORECLR_PROFILER";

pub const ENV_PROFILER_PATH: &'static str = "CORECLR_PROFILER_PATH";

pub const ENV_READY_TO_RUN: &'static str = "DOTNET_ReadyToRun";

pub const ENV_STARTUP_HOOKS: &'static str = "DOTNET_STARTUP_HOOKS";

pub const LAUNCHER_FILE: &'static str = "launch-root.sh";

/// The per-user directory that receives the artifacts: under
/// `LOCALAPPDATA` on Windows, under `HOME` elsewhere.
pub open spec fn uprooted_dir(base: Seq<char>, windows: bool) -> Seq<char> {
    if windows {
        joined_path(joined_path(base, "Root"@, true), "uprooted"@, true)
    } else {
        joined_path(base, ".local/share/uprooted"@, false)
    }
}

pub fn get_uprooted_dir(base: &str, windows: bool) -> (r: String)
    ensures
        r@ == uprooted_dir(base@, windows),
{
    if windows {
        let root = join_path(base, "Root", true);
        join_path(root.as_str(), "uprooted", true)
    } else {
        join_path(base, ".local/share/uprooted", false)
    }
}

/// Presence of each artifact and correctness of each variable, with the two
/// aggregates.
#[derive(Clone, Copy, Debug, PartialEq, Eq, Structural, Default)]
pub struct HookStatus {
    pub profiler_dll: bool,
    pub hook_dll: bool,
    pub hook_deps: bool,
    pub preload_js: bool,
    pub theme_css: bool,
    pub env_enable_profiling: bool,
    pub env_profiler_guid: bool,
    pub env_profiler_path: bool,
    pub env_ready_to_run: bool,
    pub files_ok: bool,
    pub env_ok: bool,
}

/// The four variable checks: enable flag, profiler identity, profiler path,
/// ready-to-run switch.
#[derive(Clone, Copy, Debug, PartialEq, Eq, Structural)]
pub struct EnvFlags {
    pub enable: bool,
    pub guid: bool,
    pub path: bool,
    pub ready_to_run: bool,
}

/// The profiler library's file name on the platform.
pub open spec fn profiler_file(windows: bool) -> Seq<char> {
    if windows {
        "uprooted_profiler.dll"@
    } else {
        "libuprooted_profiler.so"@
    }
}

pub fn profiler_filename(windows: bool) -> (r: &'static str)
    ensures
        r@ == profiler_file(windows),
{
    if windows {
        "uprooted_profiler.dll"
    } else {
        "libuprooted_profiler.so"
    }
}

/// The deployed artifact names, in deployment order.
pub open spec fn artifact_files(windows: bool) -> Seq<Seq<char>> {
    seq![profiler_file(windows), HOOK_DLL@, HOOK_DEPS@, PRELOAD_FILE@, CSS_FILE@]
}

pub fn artifact_names(windows: bool) -> (r: Vec<&'static str>)
    ensures
        r@.map_values(|s: &'static str| s@) == artifact_files(windows),
{
    let r = vec![profiler_filename(windows), HOOK_DLL, HOOK_DEPS, PRELOAD_FILE, CSS_FILE];
    assert(r@.map_values(|s: &'static str| s@) =~= artifact_files(windows));
    r
}

/// The variables that removal deletes: the four that are set, and the
/// startup-hooks variable of older versions.
pub fn env_var_names() -> (r: Vec<&'static str>)
    ensures
        r@.map_values(|s: &'static str| s@) == seq![
            ENV_ENABLE@,
            ENV_PROFILER@,
            ENV_PROFILER_PATH@,
            ENV_READY_TO_RUN@,
            ENV_STARTUP_HOOKS@,
        ],
{
    let r = vec![ENV_ENABLE, ENV_PROFILER, ENV_PROFILER_PATH, ENV_READY_TO_RUN, ENV_STARTUP_HOOKS];
    assert(r@.map_values(|s: &'static str| s@) =~= seq![
        ENV_ENABLE@,
        ENV_PROFILER@,
        ENV_PROFILER_PATH@,
        ENV_READY_TO_RUN@,
        ENV_STARTUP_HOOKS@,
    ]);
    r
}

/// The status: files are ok when all five artifacts exist; the environment
/// is ok when the enable flag, identity and path are right (the ready-to-run
/// switch is reported but not required).
pub fn check_hook_status(
    profiler_dll: bool,
    hook_dll: bool,
    hook_deps: bool,
    preload_js: bool,
    theme_css: bool,
    env: EnvFlags,
) -> (r: HookStatus)
    ensures
        r.profiler_dll == profiler_dll,
        r.hook_dll == hook_dll,
        r.hook_deps == hook_deps,
        r.preload_js == preload_js,
        r.theme_css == theme_css,
        r.env_enable_profiling == env.enable,
        r.env_profiler_guid == env.guid,
        r.env_profiler_path == env.path,
        r.env_ready_to_run == env.ready_to_run,
        r.files_ok == (profiler_dll && hook_dll && hook_deps && preload_js && theme_css),
        r.env_ok == (env.enable && env.guid && env.path),
{
    HookStatus {
        profiler_dll,
        hook_dll,
        hook_deps,
        preload_js,
        theme_css,
        env_enable_profiling: env.enable,
        env_profiler_guid: env.guid,
        env_profiler_path: env.path,
        env_ready_to_run: env.ready_to_run,
        files_ok: profiler_dll && hook_dll && hook_deps && preload_js && theme_css,
        env_ok: env.enable && env.guid && env.path,
    }
}

fn text_has(v: &Vec<char>, p: &str) -> (r: bool)
    ensures
        r == contains(v@, p@),
{
    let pv = chars_of(p);
    contains_all(v, &pv)
}

/// The variable checks read from an environment file or launcher script:
/// each is a substring test.
pub fn env_flags_from_text(content: &str) -> (r: EnvFlags)
    ensures
        r.enable == contains(content@, "CORECLR_ENABLE_PROFILING=1"@),
        r.guid == contains(content@, PROFILER_GUID@),
        r.path == contains(content@, "CORECLR_PROFILER_PATH="@),
        r.ready_to_run == contains(content@, "DOTNET_ReadyToRun=0"@),
{
    let v = chars_of(content);
    EnvFlags {
        enable: text_has(&v, "CORECLR_ENABLE_PROFILING=1"),
        guid: text_has(&v, PROFILER_GUID),
        path: text_has(&v, "CORECLR_PROFILER_PATH="),
        ready_to_run: text_has(&v, "DOTNET_ReadyToRun=0"),
    }
}

fn value_is(v: &Option<String>, expected: &str) -> (r: bool)
    ensures
        r == match v {
            Some(s) => s@ == expected@,
            None => false,
        },
{
    match v {
        Some(s) => {
            let e = String::from_str(expected);
            *s == e
        },
        None => false,
    }
}

/// The variable checks read from stored values (`None` where a value is
/// missing or unreadable): exact comparisons, and a non-empty path.
pub fn env_flags_from_values(
    enable: &Option<String>,
    guid: &Option<String>,
    path: &Option<String>,
    ready_to_run: &Option<String>,
) -> (r: EnvFlags)
    ensures
        r.enable == (enable is Some && enable->Some_0@ == "1"@),
        r.guid == (guid is Some && guid->Some_0@ == PROFILER_GUID@),
        r.path == (path is Some && path->Some_0@.len() > 0),
        r.ready_to_run == (ready_to_run is Some && ready_to_run->Some_0@ == "0"@),
{
    let p = match path {
        Some(s) => !s.as_str().is_empty(),
        None => false,
    };
    EnvFlags {
        enable: value_is(enable, "1"),
        guid: value_is(guid, PROFILER_GUID),
        path: p,
        ready_to_run: value_is(ready_to_run, "0"),
    }
}

/// The drop-in environment file.
pub open spec fn env_conf(profiler_path: Seq<char>) -> Seq<char> {
    "# Uprooted CLR profiler — remove this file or run the uninstaller to disable\nCORECLR_ENABLE_PROFILING=1\nCORECLR_PROFILER="@
        + PROFILER_GUID@ + "\nCORECLR_PROFILER_PATH="@ + profiler_path
        + "\nDOTNET_ReadyToRun=0\n"@
}

pub fn env_conf_text(profiler_path: &str) -> (r: String)
    ensures
        r@ == env_conf(profiler_path@),
{
    let mut r = String::from_str(
        "# Uprooted CLR profiler — remove this file or run the uninstaller to disable\nCORECLR_ENABLE_PROFILING=1\nCORECLR_PROFILER=",
    );
    r.append(PROFILER_GUID);
    r.append("\nCORECLR_PROFILER_PATH=");
    r.append(profiler_path);
    r.append("\nDOTNET_ReadyToRun=0\n");
    r
}

/// The launcher script: exports the variables, then runs the host.
pub open spec fn launcher_script(profiler_path: Seq<char>, root_path: Seq<char>) -> Seq<char> {
    "#!/bin/bash\n# Uprooted launcher - sets CLR profiler env vars for Root only\nexport CORECLR_ENABLE_PROFILING=1\nexport CORECLR_PROFILER='"@
        + PROFILER_GUID@ + "'\nexport CORECLR_PROFILER_PATH='"@ + profiler_path
        + "'\nexport DOTNET_ReadyToRun=0\nexec '"@ + root_path + "' \"$@\"\n"@
}

pub fn launcher_script_text(profiler_path: &str, root_path: &str) -> (r: String)
    ensures
        r@ == launcher_script(profiler_path@, root_path@),
{
    let mut r = String::from_str(
        "#!/bin/bash\n# Uprooted launcher - sets CLR profiler env vars for Root only\nexport CORECLR_ENABLE_PROFILING=1\nexport CORECLR_PROFILER='",
    );
    r.append(PROFILER_GUID);
    r.append("'\nexport CORECLR_PROFILER_PATH='");
    r.append(profiler_path);
    r.append("'\nexport DOTNET_ReadyToRun=0\nexec '");
    r.append(root_path);
    r.append("' \"$@\"\n");
    r
}

/// The desktop-menu entry that starts the launcher.
pub open spec fn desktop_entry(wrapper: Seq<char>) -> Seq<char> {
    "[Desktop Entry]\nName=Root (Uprooted)\nComment=Root Communications with Uprooted mods\nExec="@
        + wrapper
        + "\nType=Application\nCategories=Network;Chat;\nTerminal=false\n"@
}

pub fn desktop_entry_text(wrapper: &str) -> (r: String)
    ensures
        r@ == desktop_entry(wrapper@),
{
    let mut r = String::from_str(
        "[Desktop Entry]\nName=Root (Uprooted)\nComment=Root Communications with Uprooted mods\nExec=",
    );
    r.append(wrapper);
    r.append("\nType=Application\nCategories=Network;Chat;\nTerminal=false\n");
    r
}

} // verus!
