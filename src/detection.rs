//! Installation detection: where the host keeps its profile and executable,
//! which documents are eligible for patching, and the status snapshot.
use vstd::prelude::*;
use crate::hook::HookStatus;
use crate::injection::{join_path, joined_path};
use crate::markers::{is_patched, is_patched_text};

verus! {

pub const PROFILE_SUBPATH: &'static str = ".local/share/Root Communications/Root/profile/default";

pub const WEBRTC_DIR: &'static str = "WebRtcBundle";

pub const ROOT_APPS_DIR: &'static str = "RootApps";

pub const INDEX_FILE: &'static str = "index.html";

/// The profile directory: under `LOCALAPPDATA` on Windows, under `HOME`
/// elsewhere. An empty base gives a relative path, never an error.
pub open spec fn profile_dir(base: Seq<char>, windows: bool) -> Seq<char> {
    if windows {
        joined_path(
            joined_path(
                joined_path(joined_path(base, "Root Communications"@, true), "Root"@, true),
                "profile"@,
                true,
            ),
            "default"@,
            true,
        )
    } else {
        joined_path(base, PROFILE_SUBPATH@, false)
    }
}

pub fn get_profile_dir(base: &str, windows: bool) -> (r: String)
    ensures
        r@ == profile_dir(base@, windows),
{
    if windows {
        let a = join_path(base, "Root Communications", true);
        let b = join_path(a.as_str(), "Root", true);
        let c = join_path(b.as_str(), "profile", true);
        join_path(c.as_str(), "default", true)
    } else {
        join_path(base, PROFILE_SUBPATH, false)
    }
}

/// `base` followed by `tail`, as `format!("{}{}", base, tail)` writes it.
pub open spec fn concat(base: Seq<char>, tail: Seq<char>) -> Seq<char> {
    base + tail
}

fn concat_of(base: &str, tail: &str) -> (r: String)
    ensures
        r@ == concat(base@, tail@),
{
    let mut r = String::from_str(base);
    r.append(tail);
    r
}

/// The places searched for the host executable, in order. The first is also
/// the path reported when none exists.
pub open spec fn root_exe_candidates(base: Seq<char>, windows: bool) -> Seq<Seq<char>> {
    if windows {
        seq![
            joined_path(
                joined_path(joined_path(base, "Root"@, true), "current"@, true),
                "Root.exe"@,
                true,
            ),
        ]
    } else {
        seq![
            concat(base, "/Applications/Root.AppImage"@),
            concat(base, "/Downloads/Root.AppImage"@),
            concat(base, "/.local/bin/Root.AppImage"@),
            "/opt/Root.AppImage"@,
            "/usr/bin/Root.AppImage"@,
            joined_path(base, ".local/bin/Root"@, false),
        ]
    }
}

pub fn get_root_exe_candidates(base: &str, windows: bool) -> (r: Vec<String>)
    ensures
        r@.map_values(|s: String| s@) == root_exe_candidates(base@, windows),
{
    let mut r: Vec<String> = Vec::new();
    if windows {
        let a = join_path(base, "Root", true);
        let b = join_path(a.as_str(), "current", true);
        r.push(join_path(b.as_str(), "Root.exe", true));
    } else {
        r.push(concat_of(base, "/Applications/Root.AppImage"));
        r.push(concat_of(base, "/Downloads/Root.AppImage"));
        r.push(concat_of(base, "/.local/bin/Root.AppImage"));
        r.push(String::from_str("/opt/Root.AppImage"));
        r.push(String::from_str("/usr/bin/Root.AppImage"));
        r.push(join_path(base, ".local/bin/Root", false));
    }
    assert(r@.map_values(|s: String| s@) =~= root_exe_candidates(base@, windows));
    r
}

/// Picks the executable path: the first candidate whose `exists` flag is set,
/// else the first candidate.
pub fn get_root_exe_path(candidates: &Vec<String>, exists: &Vec<bool>) -> (r: String)
    requires
        candidates.len() > 0,
        exists.len() == candidates.len(),
    ensures
        (exists@.contains(true)) ==> (exists|i: int|
            0 <= i < exists.len() && exists[i] && r@ == candidates@[i]@ && forall|k: int|
                0 <= k < i ==> !exists[k]),
        !exists@.contains(true) ==> r@ == candidates@[0]@,
{
    let mut i: usize = 0;
    while i < candidates.len()
        invariant
            i <= candidates.len() == exists.len(),
            forall|k: int| 0 <= k < i ==> !exists[k],
        decreases candidates.len() - i,
    {
        if exists[i] {
            return candidates[i].clone();
        }
        i = i + 1;
    }
    assert(!exists@.contains(true));
    candidates[0].clone()
}

/// The fixed entry point of the profile.
pub open spec fn webrtc_index(profile: Seq<char>, windows: bool) -> Seq<char> {
    joined_path(joined_path(profile, WEBRTC_DIR@, windows), INDEX_FILE@, windows)
}

pub fn webrtc_index_path(profile: &str, windows: bool) -> (r: String)
    ensures
        r@ == webrtc_index(profile@, windows),
{
    let d = join_path(profile, WEBRTC_DIR, windows);
    join_path(d.as_str(), INDEX_FILE, windows)
}

/// The directory whose subdirectories hold plugin entry points.
pub open spec fn root_apps(profile: Seq<char>, windows: bool) -> Seq<char> {
    joined_path(profile, ROOT_APPS_DIR@, windows)
}

pub fn root_apps_path(profile: &str, windows: bool) -> (r: String)
    ensures
        r@ == root_apps(profile@, windows),
{
    join_path(profile, ROOT_APPS_DIR, windows)
}

/// The entry point of the plugin in subdirectory `name`.
pub open spec fn plugin_index(profile: Seq<char>, name: Seq<char>, windows: bool) -> Seq<char> {
    joined_path(joined_path(root_apps(profile, windows), name, windows), INDEX_FILE@, windows)
}

pub fn plugin_index_path(profile: &str, name: &str, windows: bool) -> (r: String)
    ensures
        r@ == plugin_index(profile@, name@, windows),
{
    let apps = root_apps_path(profile, windows);
    let d = join_path(apps.as_str(), name, windows);
    join_path(d.as_str(), INDEX_FILE, windows)
}

/// The eligible documents: the fixed entry point when it exists, then the
/// entry point of every plugin subdirectory that has one, in listing order.
pub fn find_target_html_files(
    profile: &str,
    windows: bool,
    webrtc_exists: bool,
    plugin_dirs: &Vec<String>,
) -> (r: Vec<String>)
    ensures
        r.len() == plugin_dirs.len() + if webrtc_exists {
            1int
        } else {
            0
        },
        webrtc_exists ==> r@[0]@ == webrtc_index(profile@, windows),
        forall|k: int|
            0 <= k < plugin_dirs.len() ==> r@[k + if webrtc_exists {
                1int
            } else {
                0
            }]@ == plugin_index(profile@, (#[trigger] plugin_dirs@[k])@, windows),
{
    let mut r: Vec<String> = Vec::new();
    if webrtc_exists {
        r.push(webrtc_index_path(profile, windows));
    }
    let off: usize = if webrtc_exists {
        1
    } else {
        0
    };
    let mut i: usize = 0;
    while i < plugin_dirs.len()
        invariant
            i <= plugin_dirs.len(),
            r.len() == i + off,
            off == (if webrtc_exists {
                1int
            } else {
                0
            }),
            webrtc_exists ==> r@[0]@ == webrtc_index(profile@, windows),
            forall|k: int|
                0 <= k < i ==> r@[k + off]@ == plugin_index(
                    profile@,
                    (#[trigger] plugin_dirs@[k])@,
                    windows,
                ),
        decreases plugin_dirs.len() - i,
    {
        r.push(plugin_index_path(profile, plugin_dirs[i].as_str(), windows));
        i = i + 1;
    }
    r
}

/// Installed when any readable document is patched; unreadable ones (`None`)
/// count as not patched.
pub open spec fn any_patched(contents: Seq<Option<String>>) -> bool {
    exists|i: int|
        0 <= i < contents.len() && match #[trigger] contents[i] {
            Some(c) => is_patched_text(c@),
            None => false,
        }
}

pub fn check_is_installed(contents: &Vec<Option<String>>) -> (r: bool)
    ensures
        r == any_patched(contents@),
{
    let mut i: usize = 0;
    while i < contents.len()
        invariant
            i <= contents.len(),
            forall|k: int|
                0 <= k < i ==> match #[trigger] contents@[k] {
                    Some(c) => !is_patched_text(c@),
                    None => true,
                },
        decreases contents.len() - i,
    {
        match &contents[i] {
            Some(c) => {
                if is_patched(c.as_str()) {
                    return true;
                }
            },
            None => {},
        }
        i = i + 1;
    }
    false
}

/// The consolidated status snapshot.
pub struct DetectionResult {
    pub root_found: bool,
    pub root_path: String,
    pub profile_dir: String,
    pub html_files: Vec<String>,
    pub is_installed: bool,
    pub hook_status: HookStatus,
}

/// Builds the snapshot from what was found; `contents` holds the text of each
/// document, or `None` where reading failed.
pub fn detect(
    root_found: bool,
    root_path: String,
    profile_dir: String,
    html_files: Vec<String>,
    contents: &Vec<Option<String>>,
    hook_status: HookStatus,
) -> (r: DetectionResult)
    ensures
        r.root_found == root_found,
        r.root_path@ == root_path@,
        r.profile_dir@ == profile_dir@,
        r.html_files@ == html_files@,
        r.is_installed == any_patched(contents@),
        r.hook_status == hook_status,
{
    let is_installed = check_is_installed(contents);
    DetectionResult { root_found, root_path, profile_dir, html_files, is_installed, hook_status }
}

} // verus!
