use jb_vmoptions_helper::vmoptions::{
    is_executable, is_executable_extension, launcher_target, options_path_candidates,
    resolve_options_path, vmoptions_update, LauncherPatterns,
};

fn strings(v: &[&str]) -> Vec<String> {
    v.iter().map(|s| s.to_string()).collect()
}

#[test]
fn executable_by_permission_bits() {
    assert!(is_executable(Some(0o755)));
    assert!(is_executable(Some(0o100)));
    assert!(is_executable(Some(0o001)));
    assert!(!is_executable(Some(0o644)));
    assert!(!is_executable(None));
}

#[test]
fn executable_by_extension() {
    assert!(is_executable_extension(Some("exe")));
    assert!(is_executable_extension(Some("BAT")));
    assert!(is_executable_extension(Some("Cmd")));
    assert!(!is_executable_extension(Some("sh")));
    assert!(!is_executable_extension(Some("exe ")));
    assert!(!is_executable_extension(None));
}

#[test]
fn candidates_for_64_bit_program() {
    assert_eq!(
        options_path_candidates("/opt/idea/bin/idea64"),
        Some(strings(&[
            "/opt/idea/bin/idea64.vmoptions",
            "/opt/idea/bin/idea64.exe.vmoptions",
            "/opt/idea/bin/idea.exe.vmoptions",
            "/opt/idea/bin/idea64.vmoptions",
            "/opt/idea/bin/idea.vmoptions",
        ]))
    );
}

#[test]
fn candidates_for_script() {
    assert_eq!(
        options_path_candidates("/opt/idea/bin/idea.sh"),
        Some(strings(&[
            "/opt/idea/bin/idea.sh.vmoptions",
            "/opt/idea/bin/idea64.exe.vmoptions",
            "/opt/idea/bin/idea.exe.vmoptions",
            "/opt/idea/bin/idea64.vmoptions",
            "/opt/idea/bin/idea.vmoptions",
        ]))
    );
}

#[test]
fn no_candidates_without_directory_or_name() {
    assert_eq!(options_path_candidates("/"), None);
    assert_eq!(options_path_candidates(""), None);
    assert_eq!(options_path_candidates("/opt/.."), None);
}

#[test]
fn resolve_takes_first_existing_candidate() {
    let existing = strings(&["/opt/idea/bin/idea.vmoptions", "/opt/idea/bin/idea64.vmoptions"]);
    assert_eq!(
        resolve_options_path("/opt/idea/bin/idea.sh", &existing),
        Some("/opt/idea/bin/idea64.vmoptions".to_string())
    );
    assert_eq!(
        resolve_options_path("/opt/idea/bin/idea.sh", &Vec::new()),
        Some("/opt/idea/bin/idea.vmoptions".to_string())
    );
    assert_eq!(resolve_options_path("/", &existing), None);
}

#[test]
fn update_appends_option_on_its_own_line() {
    assert_eq!(
        vmoptions_update("-Xms128m\n-Xmx750m\n\n  ", "-Xmx4g"),
        Some("-Xms128m\n-Xmx750m\n-Xmx4g\n".to_string())
    );
    assert_eq!(vmoptions_update("", "-Xmx4g"), Some("\n-Xmx4g\n".to_string()));
}

#[test]
fn update_skips_present_option() {
    assert_eq!(vmoptions_update("-Xms128m\n-Xmx4g\n", "-Xmx4g"), None);
    assert_eq!(vmoptions_update("-Xmx4gb\n", "-Xmx4g"), None);
    assert_eq!(vmoptions_update("anything", ""), None);
}

#[test]
fn update_twice_is_update_once() {
    let once = vmoptions_update("-Xms128m", "-Dawt.useSystemAAFontSettings=lcd").unwrap();
    assert_eq!(vmoptions_update(&once, "-Dawt.useSystemAAFontSettings=lcd"), None);
}

#[test]
fn shell_launcher_target() {
    let pats = LauncherPatterns::new().unwrap();
    let script = "#!/bin/sh\n# Toolbox launcher\n  \"/home/u/.local/share/JetBrains/Toolbox/apps/idea/bin/idea.sh\" \"$@\"  \n";
    assert_eq!(
        launcher_target(&pats, script),
        Some("/home/u/.local/share/JetBrains/Toolbox/apps/idea/bin/idea.sh".to_string())
    );
}

#[test]
fn batch_launcher_target() {
    let pats = LauncherPatterns::new().unwrap();
    let quoted = "@echo off\r\nSTART \"\" \"C:\\Users\\u\\AppData\\Local\\JetBrains\\Toolbox\\apps\\idea\\bin\\idea64.exe\" %*\r\n";
    assert_eq!(
        launcher_target(&pats, quoted),
        Some("C:\\Users\\u\\AppData\\Local\\JetBrains\\Toolbox\\apps\\idea\\bin\\idea64.exe".to_string())
    );
    let bare = "start \"\" %JAVA_OPTS% C:\\Tools\\rider\\bin\\rider64.exe\n";
    assert_eq!(launcher_target(&pats, bare), Some("C:\\Tools\\rider\\bin\\rider64.exe".to_string()));
}

#[test]
fn first_matching_line_wins() {
    let pats = LauncherPatterns::new().unwrap();
    let script = "\"/a/JetBrains/x/bin/one\" \"$@\"\n\"/b/JetBrains/y/bin/two\" \"$@\"\n";
    assert_eq!(launcher_target(&pats, script), Some("/a/JetBrains/x/bin/one".to_string()));
}

#[test]
fn no_launcher_line() {
    let pats = LauncherPatterns::new().unwrap();
    assert_eq!(launcher_target(&pats, "#!/bin/sh\nexec /usr/bin/idea \"$@\"\n"), None);
    assert_eq!(launcher_target(&pats, "\"/opt/idea/bin/idea.sh\" \"$@\""), None);
    assert_eq!(launcher_target(&pats, ""), None);
}

#[test]
fn resolved_file_lies_beside_the_program() {
    let binary = "/opt/clion/bin/clion64";
    let existing = strings(&["/opt/clion/bin/clion64.exe.vmoptions", "/opt/clion/bin/clion.vmoptions"]);
    let found = resolve_options_path(binary, &existing).unwrap();
    assert_eq!(found, "/opt/clion/bin/clion64.exe.vmoptions");
    assert_eq!(std::path::Path::new(&found).parent(), std::path::Path::new(binary).parent());
    assert!(found.ends_with(".vmoptions"));
}

#[test]
fn missing_options_file_is_created_beside_the_program() {
    assert_eq!(
        resolve_options_path("/opt/goland/bin/goland64", &strings(&["/elsewhere/goland.vmoptions"])),
        Some("/opt/goland/bin/goland.vmoptions".to_string())
    );
}

#[test]
fn launcher_patterns_compile() {
    assert!(LauncherPatterns::new().is_some());
}

#[test]
fn later_options_keep_earlier_ones() {
    let mut content = "-Xms128m\n-Xmx750m   \n".to_string();
    for opt in ["-Xmx4g", "-Xms1g", "-Xmx4g", "-Dfile.encoding=UTF-8"] {
        if let Some(next) = vmoptions_update(&content, opt) {
            content = next;
        }
    }
    assert_eq!(content, "-Xms128m\n-Xmx750m\n-Xmx4g\n-Xms1g\n-Dfile.encoding=UTF-8\n");
    for opt in ["-Xms128m", "-Xmx750m", "-Xmx4g", "-Xms1g", "-Dfile.encoding=UTF-8"] {
        assert!(content.contains(opt));
    }
}
