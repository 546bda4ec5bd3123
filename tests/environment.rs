use uprooted::detection::{
    check_is_installed, detect, find_target_html_files, get_profile_dir, get_root_exe_candidates,
    get_root_exe_path,
};
use uprooted::hook::{
    artifact_names, check_hook_status, get_uprooted_dir, desktop_entry_text, env_conf_text, env_flags_from_text,
    env_flags_from_values, env_var_names, launcher_script_text, EnvFlags, HookStatus,
};
use uprooted::injection::{build_injection, join_path};
use uprooted::orchestrator::{finish_uninstall, next_action, step_failure, stored_failure, Action, Step, Transition};
use uprooted::patcher::{backup_path_of, PatchResult};
use uprooted::settings::{load_settings, settings_path};

#[test]
fn profile_dir_linux_and_windows() {
    assert_eq!(
        get_profile_dir("/home/u", false),
        "/home/u/.local/share/Root Communications/Root/profile/default"
    );
    assert_eq!(get_profile_dir("", false), ".local/share/Root Communications/Root/profile/default");
    assert_eq!(
        get_profile_dir("C:\\Users\\u\\AppData\\Local", true),
        "C:\\Users\\u\\AppData\\Local\\Root Communications\\Root\\profile\\default"
    );
}

#[test]
fn join_path_separators() {
    assert_eq!(join_path("/a/", "b", false), "/a/b");
    assert_eq!(join_path("/a", "b", false), "/a/b");
    assert_eq!(join_path("C:\\a\\", "b", true), "C:\\a\\b");
}

#[test]
fn root_exe_first_existing_or_fallback() {
    let c = get_root_exe_candidates("/home/u", false);
    assert_eq!(c.len(), 6);
    assert_eq!(c[5], "/home/u/.local/bin/Root");
    let none = vec![false; 6];
    assert_eq!(get_root_exe_path(&c, &none), "/home/u/Applications/Root.AppImage");
    let mut some = vec![false; 6];
    some[3] = true;
    some[5] = true;
    assert_eq!(get_root_exe_path(&c, &some), "/opt/Root.AppImage");
    let w = get_root_exe_candidates("C:\\L", true);
    assert_eq!(w, vec!["C:\\L\\Root\\current\\Root.exe".to_string()]);
}

#[test]
fn target_files_listing() {
    let dirs = vec!["pluginA".to_string(), "pluginB".to_string()];
    let r = find_target_html_files("/p", false, true, &dirs);
    assert_eq!(
        r,
        vec![
            "/p/WebRtcBundle/index.html".to_string(),
            "/p/RootApps/pluginA/index.html".to_string(),
            "/p/RootApps/pluginB/index.html".to_string(),
        ]
    );
    let r2 = find_target_html_files("/p", false, false, &Vec::new());
    assert!(r2.is_empty());
}

#[test]
fn installed_if_any_document_patched() {
    let contents = vec![None, Some("<html></html>".to_string()), Some("<!-- uprooted -->".to_string())];
    assert!(check_is_installed(&contents));
    let clean = vec![None, Some("<html></html>".to_string())];
    assert!(!check_is_installed(&clean));
    let status = HookStatus::default();
    let d = detect(false, "/r".to_string(), "/p".to_string(), vec!["/p/a".to_string()], &contents, status);
    assert!(d.is_installed);
    assert!(!d.root_found);
    assert_eq!(d.html_files, vec!["/p/a".to_string()]);
}

#[test]
fn hook_status_aggregates() {
    let env = EnvFlags { enable: true, guid: true, path: true, ready_to_run: false };
    let s = check_hook_status(true, true, true, true, true, env);
    assert!(s.files_ok);
    assert!(s.env_ok);
    assert!(!s.env_ready_to_run);
    let s2 = check_hook_status(true, false, true, true, true, EnvFlags { path: false, ..env });
    assert!(!s2.files_ok);
    assert!(!s2.env_ok);
}

#[test]
fn env_flags_from_conf_file() {
    let conf = env_conf_text("/home/u/.local/share/uprooted/libuprooted_profiler.so");
    let f = env_flags_from_text(&conf);
    assert_eq!(f, EnvFlags { enable: true, guid: true, path: true, ready_to_run: true });
    let script = launcher_script_text("/x/lib.so", "/opt/Root.AppImage");
    let g = env_flags_from_text(&script);
    assert_eq!(g, EnvFlags { enable: true, guid: true, path: true, ready_to_run: true });
    let h = env_flags_from_text("");
    assert_eq!(h, EnvFlags { enable: false, guid: false, path: false, ready_to_run: false });
}

#[test]
fn env_flags_exact_values() {
    let f = env_flags_from_values(
        &Some("1".to_string()),
        &Some("{D1A6F5A0-1234-4567-89AB-CDEF01234567}".to_string()),
        &Some("C:\\x.dll".to_string()),
        &Some("0".to_string()),
    );
    assert_eq!(f, EnvFlags { enable: true, guid: true, path: true, ready_to_run: true });
    let g = env_flags_from_values(&Some("true".to_string()), &None, &Some(String::new()), &Some("00".to_string()));
    assert_eq!(g, EnvFlags { enable: false, guid: false, path: false, ready_to_run: false });
}

#[test]
fn generated_texts_exact() {
    assert_eq!(
        env_conf_text("/p.so"),
        "# Uprooted CLR profiler — remove this file or run the uninstaller to disable\nCORECLR_ENABLE_PROFILING=1\nCORECLR_PROFILER={D1A6F5A0-1234-4567-89AB-CDEF01234567}\nCORECLR_PROFILER_PATH=/p.so\nDOTNET_ReadyToRun=0\n"
    );
    assert_eq!(
        launcher_script_text("/p.so", "/r"),
        "#!/bin/bash\n# Uprooted launcher - sets CLR profiler env vars for Root only\nexport CORECLR_ENABLE_PROFILING=1\nexport CORECLR_PROFILER='{D1A6F5A0-1234-4567-89AB-CDEF01234567}'\nexport CORECLR_PROFILER_PATH='/p.so'\nexport DOTNET_ReadyToRun=0\nexec '/r' \"$@\"\n"
    );
    assert_eq!(
        desktop_entry_text("/w.sh"),
        "[Desktop Entry]\nName=Root (Uprooted)\nComment=Root Communications with Uprooted mods\nExec=/w.sh\nType=Application\nCategories=Network;Chat;\nTerminal=false\n"
    );
}

#[test]
fn fixed_names() {
    assert_eq!(
        artifact_names(false),
        vec!["libuprooted_profiler.so", "UprootedHook.dll", "UprootedHook.deps.json", "uprooted-preload.js", "uprooted.css"]
    );
    assert_eq!(artifact_names(true)[0], "uprooted_profiler.dll");
    assert_eq!(env_var_names().len(), 5);
    assert_eq!(env_var_names()[4], "DOTNET_STARTUP_HOOKS");
    assert_eq!(backup_path_of("/p/index.html"), "/p/index.html.uprooted.bak");
}

#[test]
fn injection_block_changes_with_settings() {
    let a = build_injection("{\"enabled\":true}", "/d", false);
    let b = build_injection("{\"enabled\":false}", "/d", false);
    assert_ne!(a, b);
    assert!(b.contains("window.__UPROOTED_SETTINGS__={\"enabled\":false};"));
}

#[test]
fn step_failures_and_uninstall_finish() {
    let r = step_failure(Step::DeployFiles, "disk full");
    assert!(!r.success);
    assert_eq!(r.message, "Failed to deploy files: disk full");
    assert_eq!(step_failure(Step::SetEnv, "e").message, "Failed to set env vars: e");
    assert_eq!(step_failure(Step::RemoveEnv, "e").message, "Failed to remove env vars: e");
    let done = PatchResult { success: true, message: "ok".to_string(), files_patched: vec!["/a".to_string()] };
    let f = finish_uninstall(done, Err("busy".to_string()));
    assert!(!f.success);
    assert_eq!(f.message, "HTML restored but failed to remove files: busy");
    assert_eq!(f.files_patched, vec!["/a".to_string()]);
    let done2 = PatchResult { success: true, message: "ok".to_string(), files_patched: vec![] };
    let g = finish_uninstall(done2, Ok(()));
    assert!(g.success);
    assert_eq!(g.message, "ok");
}

#[test]
fn settings_defaults_and_path() {
    let s = load_settings(None);
    assert!(s.enabled);
    assert!(s.plugins.is_empty());
    assert_eq!(s.custom_css, "");
    assert_eq!(settings_path("/p", false), "/p/uprooted-settings.json");
}

#[test]
fn uprooted_dir_per_platform() {
    assert_eq!(get_uprooted_dir("/home/u", false), "/home/u/.local/share/uprooted");
    assert_eq!(get_uprooted_dir("C:\\L", true), "C:\\L\\Root\\uprooted");
}

#[test]
fn transition_steps_in_order() {
    assert_eq!(next_action(Transition::Install, 0, true), Some(Action::DeployFiles));
    assert_eq!(next_action(Transition::Install, 2, true), Some(Action::PatchDocuments));
    assert_eq!(next_action(Transition::Install, 3, true), None);
    assert_eq!(next_action(Transition::Uninstall, 0, true), Some(Action::RemoveEnv));
    assert_eq!(next_action(Transition::Uninstall, 1, true), Some(Action::UnpatchDocuments));
    assert_eq!(next_action(Transition::Uninstall, 2, true), Some(Action::RemoveFiles));
    assert_eq!(next_action(Transition::Uninstall, 2, false), None);
    assert_eq!(next_action(Transition::Repair, 2, true), Some(Action::RepairDocuments));
}

#[test]
fn stored_failure_keeps_stored_paths() {
    let done = PatchResult {
        success: true,
        message: "ok".to_string(),
        files_patched: vec!["/a".to_string(), "/b".to_string(), "/c".to_string()],
    };
    let stored = vec!["/a".to_string(), "/x".to_string(), "/c".to_string()];
    let r = stored_failure(done, &stored, "Failed to write /b: full".to_string());
    assert!(!r.success);
    assert_eq!(r.message, "Failed to write /b: full");
    assert_eq!(r.files_patched, vec!["/a".to_string(), "/c".to_string()]);
}
