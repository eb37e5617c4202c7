use pvm::commands::{
    list_lines, plan_add, plan_ext, plan_ext_enable_edit, plan_ext_enable_prepare, plan_import,
    plan_ini, plan_install, plan_install_existing, plan_uninstall, plan_use, ExtCommand, PathRef,
    PhpVersion, Step,
};
use pvm::ini::{configure_ini_content, enable_extension, ExtensionEdit};
use pvm::path_env::{
    choose_existing_php, clean_and_update_path_string, needs_version_probe, registry_string_bytes,
    PathEntryFacts, PathUpdateError,
};
use pvm::php_cli::{
    extension_from_file_name, list_extension_lines, loaded_modules, parse_php_version_output,
    PhpOutputError,
};
use pvm::releases::{
    release_from_href, releases_from_hrefs, remote_listing_lines, scrape_php_releases_from_html,
    InstallUrl,
};
use pvm::update::{
    choose_new_executable, is_newer_version, NewExecutable, parse_timestamp, select_update, update_check_due, update_from_release_json,
    version_banner, ReleaseAsset, ReleaseInfo, UpdateError, UpdateOutcome, PVM_VERSION,
};

fn version(id: i32, v: &str, path: &str, current: bool) -> PhpVersion {
    PhpVersion { id, version: v.to_string(), path: path.to_string(), is_current: current }
}

fn in_base(p: &PathRef, name: &str) -> bool {
    p.stored.is_none() && p.parts.len() == 1 && p.parts[0] == name
}

fn is_stored(p: &PathRef, path: &str) -> bool {
    p.stored.as_deref() == Some(path) && p.parts.is_empty()
}

fn said(s: &Step, text: &str) -> bool {
    matches!(s, Step::Say(t) if t == text)
}

#[test]
fn test_version_comparison() {
    assert!(is_newer_version("v1.0.0", "v1.0.1"));
    assert!(is_newer_version("1.0.0", "v1.1.0"));
    assert!(is_newer_version("1.0.0", "2.0.0"));
    assert!(!is_newer_version("v1.0.1", "v1.0.0"));
    assert!(!is_newer_version("1.0.0", "1.0.0"));
    assert!(!is_newer_version("2.0.0", "1.9.9"));
    assert!(is_newer_version("1.0", "1.0.1"));
    assert!(!is_newer_version("1.0.1", "1.0"));
}

#[test]
fn test_clean_and_update_path_string() {
    let pvm_dir = r"C:\Users\devsa\.pvm";
    let pvm_php_dir = r"C:\Users\devsa\.pvm\php";
    let old_php_dir = r"C:\php";

    let current_path = r"C:\Windows;C:\Windows\System32;C:\php;C:\Program Files\Git\cmd";
    let new_path =
        clean_and_update_path_string(current_path, Some(old_php_dir), pvm_dir, pvm_php_dir).unwrap();
    let paths: Vec<String> = new_path.split(';').map(|p| p.to_string()).collect();
    assert!(!paths.contains(&r"C:\php".to_string()));
    assert!(paths.contains(&r"C:\Users\devsa\.pvm".to_string()));
    assert!(paths.contains(&r"C:\Users\devsa\.pvm\php".to_string()));
    assert!(paths.contains(&r"C:\Windows".to_string()));

    let current_path_2 = r"C:\Windows;C:\Users\devsa\.pvm;C:\Users\devsa\.pvm\php";
    let new_path_2 = clean_and_update_path_string(current_path_2, None, pvm_dir, pvm_php_dir).unwrap();
    let paths_2: Vec<String> = new_path_2.split(';').map(|p| p.to_string()).collect();
    assert!(paths_2.contains(&r"C:\Users\devsa\.pvm".to_string()));
    assert!(paths_2.contains(&r"C:\Users\devsa\.pvm\php".to_string()));
}

#[test]
fn newer_version_handles_leading_v_and_odd_parts() {
    assert!(is_newer_version("vv1.2", "1.3"));
    assert!(!is_newer_version("1.2.x", "1.2"));
    assert!(is_newer_version("1..2", "1.3"));
    assert!(!is_newer_version("", ""));
    assert!(is_newer_version("", "0.0.1"));
    assert!(!is_newer_version("4294967295", "1.+1"));
    assert!(is_newer_version("1", "1.+1"));
    assert!(is_newer_version("4294967296", "0.1"));
    assert!(!is_newer_version("1", "1.-1"));
    assert!(is_newer_version("2.1.4", "v2.10.0"));
}

#[test]
fn newer_version_is_a_strict_order_on_examples() {
    let vs = ["1.0", "1.0.1", "v1.1", "2", "0.9.9", "1.0.0"];
    for a in vs.iter() {
        assert!(!is_newer_version(a, a));
        for b in vs.iter() {
            if is_newer_version(a, b) {
                assert!(!is_newer_version(b, a));
            }
            for c in vs.iter() {
                if is_newer_version(a, b) && is_newer_version(b, c) {
                    assert!(is_newer_version(a, c));
                }
            }
        }
    }
}

#[test]
fn path_update_exact_result_and_idempotence() {
    let once = clean_and_update_path_string(
        r"C:\Windows;;C:\PHP\;C:\tools\pvm\;D:\bin",
        Some(r"c:\php"),
        r"C:\tools\pvm",
        r"C:\tools\pvm\php",
    )
    .unwrap();
    assert_eq!(once, r"C:\Windows;D:\bin;C:\tools\pvm;C:\tools\pvm\php");
    let twice = clean_and_update_path_string(&once, None, r"C:\tools\pvm", r"C:\tools\pvm\php").unwrap();
    assert_eq!(twice, once);
}

#[test]
fn path_update_refuses_unrepresentable_directory() {
    let r = clean_and_update_path_string("C:\\Windows", None, "C:\\a;b", "C:\\p");
    assert_eq!(r, Err(PathUpdateError::UnrepresentableDirectory));
    let r2 = clean_and_update_path_string("C:\\Windows", None, "C:\\a", "C:\\\"p\"");
    assert_eq!(r2, Err(PathUpdateError::UnrepresentableDirectory));
    assert_eq!(clean_and_update_path_string("", None, "A", "B").unwrap(), "A;B");
}

#[test]
fn enable_extension_uncomments_first_listing() {
    let ini = ";extension=curl\r\n;extension_dir = \"ext\"\r\n;extension=mbstring\r\n";
    match enable_extension(ini, "curl") {
        ExtensionEdit::Enabled(text) => {
            assert_eq!(text, "extension=curl\r\n;extension_dir = \"ext\"\r\n;extension=mbstring");
            assert!(matches!(enable_extension(&text, "curl"), ExtensionEdit::AlreadyEnabled));
        }
        other => panic!("unexpected {:?}", other),
    }
    assert!(matches!(enable_extension(ini, "gd"), ExtensionEdit::NotListed));
    assert!(matches!(enable_extension("  extension=gd  \n", "gd"), ExtensionEdit::AlreadyEnabled));
    match enable_extension("a\n  ;extension=gd \n;extension=gd\n", "gd") {
        ExtensionEdit::Enabled(text) => assert_eq!(text, "a\r\nextension=gd\r\n;extension=gd"),
        other => panic!("unexpected {:?}", other),
    }
}

#[test]
fn configure_ini_sets_extension_dir_and_curl() {
    let ini = "[PHP]\n; extension_dir = \"./\"\n;extension_dir = \"ext\"\n;extension=curl\n;extension=curl\n";
    assert_eq!(
        configure_ini_content(ini),
        "[PHP]\r\n; extension_dir = \"./\"\r\nextension_dir = \"ext\"\r\nextension=curl\r\n;extension=curl"
    );
    assert_eq!(configure_ini_content(""), "");
    assert_eq!(configure_ini_content("x\r\ny"), "x\r\ny");
}

#[test]
fn release_links_are_read_as_the_listing_page_gives_them() {
    let u = release_from_href("/downloads/releases/php-8.3.3-nts-Win32-vs16-x64.zip").unwrap();
    assert_eq!(u.version, "8.3.3");
    assert_eq!(u.url, "https://windows.php.net/downloads/releases/php-8.3.3-nts-Win32-vs16-x64.zip");
    assert_eq!(u.type_, "nts");
    assert_eq!(u.architecture, "x64");
    assert_eq!(u.id, None);

    let v = release_from_href("php-8.2.1-Win32-vs16-x86.zip").unwrap();
    assert_eq!(v.url, "https://windows.php.net/downloads/releases/php-8.2.1-Win32-vs16-x86.zip");
    assert_eq!(v.type_, "ts");
    assert_eq!(v.architecture, "x86");

    let w = release_from_href("https://example.org/php-7.4.0-Win32-x64.zip").unwrap();
    assert_eq!(w.url, "https://example.org/php-7.4.0-Win32-x64.zip");

    assert!(release_from_href("/downloads/releases/php-debug-pack-8.3.3-x64.zip").is_none());
    assert!(release_from_href("/downloads/releases/php-devel-pack-8.3.3.zip").is_none());
    assert!(release_from_href("/downloads/releases/php-test-pack-8.3.3.zip").is_none());
    assert!(release_from_href("/downloads/releases/archives/").is_none());
    assert!(release_from_href("/php-/x").is_none());
}

#[test]
fn releases_from_hrefs_skips_missing_and_foreign_links() {
    let hrefs = vec![
        None,
        Some("php-8.3.3-Win32-vs16-x64.zip".to_string()),
        Some("/index.html".to_string()),
        Some("php-8.3.3-nts-Win32-vs16-x64.zip".to_string()),
    ];
    let urls = releases_from_hrefs(&hrefs);
    assert_eq!(urls.len(), 2);
    assert_eq!(urls[0].type_, "ts");
    assert_eq!(urls[1].type_, "nts");
}

#[test]
fn releases_are_scraped_from_html() {
    let html = "<html><body><a href=\"/downloads/releases/php-8.3.3-nts-Win32-vs16-x64.zip\">x</a>\
                <a>no link</a><a href=\"php-8.2.0-Win32-vs16-x86.zip\">y</a>\
                <a href=\"php-debug-pack-8.2.0-x86.zip\">z</a></body></html>";
    let urls = scrape_php_releases_from_html(html);
    assert_eq!(urls.len(), 2);
    assert_eq!(urls[0].version, "8.3.3");
    assert_eq!(urls[0].type_, "nts");
    assert_eq!(urls[0].architecture, "x64");
    assert_eq!(urls[1].version, "8.2.0");
    assert_eq!(urls[1].url, "https://windows.php.net/downloads/releases/php-8.2.0-Win32-vs16-x86.zip");
    assert!(scrape_php_releases_from_html("<p>nothing</p>").is_empty());
}

#[test]
fn remote_listing_is_a_padded_table() {
    let urls = vec![InstallUrl {
        id: Some(1),
        version: "8.3.3".to_string(),
        url: "u".to_string(),
        type_: "nts".to_string(),
        architecture: "x64".to_string(),
    }];
    let lines = remote_listing_lines(&urls);
    assert_eq!(lines.len(), 4);
    assert_eq!(lines[0], "\nAvailable remote versions:");
    assert_eq!(lines[1], "Version      | Type  | Arch ");
    assert_eq!(lines[2], "-------------------------------");
    assert_eq!(lines[3], "8.3.3        | nts   | x64  ");
    assert_eq!(remote_listing_lines(&Vec::new()), vec!["No remote versions found".to_string()]);
}

fn release(tag: Option<&str>, assets: Option<Vec<(Option<&str>, Option<&str>)>>) -> ReleaseInfo {
    ReleaseInfo {
        tag_name: tag.map(|t| t.to_string()),
        assets: assets.map(|a| {
            a.into_iter()
                .map(|(n, u)| ReleaseAsset {
                    name: n.map(|s| s.to_string()),
                    browser_download_url: u.map(|s| s.to_string()),
                })
                .collect()
        }),
    }
}

#[test]
fn update_selection_follows_the_release_record() {
    let r = release(
        Some("v2.2.0"),
        Some(vec![
            (Some("pvm-v2.2.0-windows-x64.exe"), Some("exe")),
            (Some("pvm-v2.2.0-windows-x64.zip"), None),
            (Some("pvm-v2.2.0-win-x64.zip"), Some("https://dl/zip")),
        ]),
    );
    match select_update("2.1.4", &r) {
        Ok(UpdateOutcome::Available(t, u)) => {
            assert_eq!(t, "v2.2.0");
            assert_eq!(u, "https://dl/zip");
        }
        other => panic!("unexpected {:?}", other),
    }
    assert!(matches!(select_update("2.2.0", &r), Ok(UpdateOutcome::UpToDate)));
    assert!(matches!(select_update("2.1.4", &release(None, None)), Err(UpdateError::MissingTagName)));
    assert!(matches!(select_update("2.1.4", &release(Some("3.0"), None)), Err(UpdateError::MissingAssets)));
    assert!(matches!(select_update("3.1", &release(Some("3.0"), None)), Ok(UpdateOutcome::UpToDate)));
    assert!(matches!(
        select_update("2.1.4", &release(Some("3.0"), Some(vec![(Some("src.tar.gz"), Some("x"))]))),
        Ok(UpdateOutcome::UpToDate)
    ));
}

#[test]
fn update_from_json_text() {
    let body = r#"{"tag_name":"v9.0.0","assets":[{"name":"pvm-windows-x64.zip","browser_download_url":"https://x/y.zip"}]}"#;
    match update_from_release_json(PVM_VERSION, body) {
        Ok(UpdateOutcome::Available(t, u)) => {
            assert_eq!(t, "v9.0.0");
            assert_eq!(u, "https://x/y.zip");
        }
        other => panic!("unexpected {:?}", other),
    }
    assert!(matches!(update_from_release_json(PVM_VERSION, "not json"), Err(UpdateError::Json(_))));
    assert!(matches!(update_from_release_json(PVM_VERSION, r#"{"tag_name":5}"#), Err(UpdateError::MissingTagName)));
    assert!(matches!(
        update_from_release_json(PVM_VERSION, r#"{"tag_name":"v9.0.0","assets":{}}"#),
        Err(UpdateError::MissingAssets)
    ));
}

#[test]
fn update_check_throttles_to_once_a_day() {
    assert!(update_check_due(1_000, None));
    assert!(!update_check_due(1_000 + 86_399, Some(1_000)));
    assert!(update_check_due(1_000 + 86_400, Some(1_000)));
    assert_eq!(parse_timestamp("1700000000"), Some(1_700_000_000));
    assert_eq!(parse_timestamp("+12"), Some(12));
    assert_eq!(parse_timestamp(""), None);
    assert_eq!(parse_timestamp("12a"), None);
    assert_eq!(parse_timestamp("18446744073709551615"), Some(u64::MAX));
    assert_eq!(parse_timestamp("18446744073709551616"), None);
}

#[test]
fn test_version_command() {
    assert_eq!(PVM_VERSION, "2.1.4");
    assert_eq!(version_banner(), "PVM version v2.1.4");
}

#[test]
fn php_version_is_read_from_cli_output() {
    let out = "PHP 8.3.3 (cli) (built: Feb 13 2024 23:17:12) (NTS Visual C++ 2019 x64)\r\nCopyright (c) The PHP Group\r\n";
    assert_eq!(parse_php_version_output(out).unwrap(), "8.3.3");
    assert_eq!(parse_php_version_output("  PHP\t7.4.0 \n"), Ok("7.4.0".to_string()));
    assert_eq!(parse_php_version_output(""), Err(PhpOutputError::EmptyOutput));
    assert_eq!(parse_php_version_output("PHP\n8.0"), Err(PhpOutputError::UnexpectedFormat));
    assert_eq!(parse_php_version_output("Zend 4.3\n"), Err(PhpOutputError::UnexpectedFormat));
}

#[test]
fn loaded_modules_come_from_the_php_section() {
    let out = "[PHP Modules]\r\nCore\r\n curl \r\n\r\nMbString\r\n[Zend Modules]\r\nXdebug\r\n";
    assert_eq!(loaded_modules(out), vec!["core", "curl", "mbstring"]);
    assert!(loaded_modules("Core\ncurl\n").is_empty());
    assert_eq!(loaded_modules("[PHP Modules]\nzip"), vec!["zip"]);
}

#[test]
fn extension_files_are_named_php_name_dll() {
    assert_eq!(extension_from_file_name("php_curl.dll"), Some("curl".to_string()));
    assert_eq!(extension_from_file_name("php_PDO_MySQL.dll"), Some("pdo_mysql".to_string()));
    assert_eq!(extension_from_file_name("php_.dll"), Some(String::new()));
    assert_eq!(extension_from_file_name("libcrypto.dll"), None);
    assert_eq!(extension_from_file_name("php_curl.so"), None);
    let files = vec!["php_curl.dll".to_string(), "README".to_string(), "php_gd.dll".to_string()];
    let lines = list_extension_lines("[PHP Modules]\nCore\ncurl\n[Zend Modules]\n", &files);
    assert_eq!(lines, vec![format!("{:<20} loaded", "curl"), format!("{:<20} disabled", "gd")]);
}

#[test]
fn add_plan_copies_and_registers() {
    let steps = plan_add("8.3.3", "/tmp/local", false, true);
    assert_eq!(steps.len(), 3);
    assert!(matches!(&steps[0], Step::CopyDir { from, to } if is_stored(from, "/tmp/local") && in_base(to, "php8.3.3")));
    assert!(matches!(&steps[1], Step::AddVersion { version, path, is_current } if version == "8.3.3" && in_base(path, "php8.3.3") && !*is_current));
    assert!(said(&steps[2], "Added version 8.3.3"));
    let known = plan_add("8.3.3", "/tmp/local", true, true);
    assert_eq!(known.len(), 1);
    assert!(said(&known[0], "Version 8.3.3 already exists"));
    let missing = plan_add("8.3.3", "/nowhere", false, false);
    assert!(matches!(&missing[0], Step::Fail(m) if m == "Source path '/nowhere' does not exist"));
}

#[test]
fn use_plan_switches_the_active_installation() {
    let target = Some(version(2, "8.2.0", "/b/php8.2.0", false));
    let current = Some(version(1, "8.3.3", "/b/php", true));
    let steps = plan_use("8.2", &target, true, &current, true);
    assert!(said(&steps[0], "Using version /b/php8.2.0"));
    assert!(matches!(&steps[1], Step::ReportMove { finished: false, source, to } if source == "/b/php" && in_base(to, "php8.3.3")));
    assert!(matches!(&steps[2], Step::Rename { from, to } if is_stored(from, "/b/php") && in_base(to, "php8.3.3")));
    assert!(matches!(&steps[3], Step::ReportMove { finished: true, .. }));
    assert!(matches!(&steps[4], Step::SetPathAndCurrent { id: 1, path, is_current: false } if in_base(path, "php8.3.3")));
    assert!(matches!(&steps[5], Step::Rename { from, to } if is_stored(from, "/b/php8.2.0") && in_base(to, "php")));
    assert!(matches!(&steps[6], Step::SetPathAndCurrent { id: 2, path, is_current: true } if in_base(path, "php")));
    assert!(said(&steps[7], "Using version 8.2.0"));
    assert!(matches!(&steps[8], Step::RunSetup));
    assert_eq!(steps.len(), 9);

    let first = plan_use("8.3.3", &Some(version(1, "8.3.3", "/b/php8.3.3", false)), true, &None, false);
    assert_eq!(first.len(), 5);
    assert!(matches!(&first[2], Step::SetPathAndCurrent { id: 1, is_current: true, .. }));

    let none = plan_use("9", &None, false, &current, true);
    assert!(said(&none[0], "Version 9 not found") && none.len() == 1);
    let active = plan_use("8.3", &current, true, &current, true);
    assert!(said(&active[0], "Version 8.3.3 is already in use") && active.len() == 1);
    let gone = plan_use("8.2", &target, false, &current, true);
    assert_eq!(gone.len(), 2);
    assert!(said(&gone[1], "Path /b/php8.2.0 not found"));
    let unmoved = plan_use("8.2", &target, true, &current, false);
    assert_eq!(unmoved.len(), 8);
}

#[test]
fn uninstall_plan_spares_the_active_installation() {
    let active = plan_uninstall("8.2.0", &Some(version(2, "8.2.0", "/b/php", true)), true);
    assert_eq!(active.len(), 1);
    assert!(said(&active[0], "Version 8.2.0 is currently in use. Switch to another version before uninstalling."));
    let steps = plan_uninstall("8.3", &Some(version(1, "8.3.3", "/b/php8.3.3", false)), true);
    assert!(matches!(&steps[0], Step::RemoveDir(p) if is_stored(p, "/b/php8.3.3")));
    assert!(said(&steps[1], "Deleted folder: /b/php8.3.3"));
    assert!(matches!(&steps[2], Step::RemoveVersionsNamed(v) if v == "8.3.3"));
    assert!(said(&steps[3], "Uninstalled version 8.3.3"));
    let missing = plan_uninstall("8.3", &Some(version(1, "8.3.3", "/b/php8.3.3", false)), false);
    assert!(said(&missing[0], "Folder not found: /b/php8.3.3") && missing.len() == 3);
    assert!(said(&plan_uninstall("7", &None, false)[0], "Version 7 not found"));
}

#[test]
fn list_prints_each_installation() {
    let lines = list_lines("/b", &vec![version(1, "8.3.3", "/b/php", true), version(2, "8.2.0", "/b/php8.2.0", false)]);
    assert_eq!(lines, vec!["Current working directory: /b", "8.3.3 - /b/php (current)", "8.2.0 - /b/php8.2.0 "]);
    assert_eq!(list_lines("/b", &Vec::new()), vec!["Current working directory: /b", "No versions found"]);
}

#[test]
fn ini_and_ext_plans() {
    let cur = Some(version(1, "8.3.3", "/b/php", true));
    let open = plan_ini(&cur, true, false);
    assert!(matches!(&open[0], Step::OpenInEditor(p) if p.stored.as_deref() == Some("/b/php") && p.parts == vec!["php.ini".to_string()]));
    let copy = plan_ini(&cur, false, true);
    assert_eq!(copy.len(), 3);
    assert!(matches!(&copy[1], Step::CopyFile { .. }));
    assert_eq!(plan_ini(&cur, false, false).len(), 2);
    assert!(said(&plan_ini(&None, true, true)[0], "No current version found"));

    let listed = plan_ext(&cur, true, Some(ExtCommand::List));
    assert!(matches!(&listed[0], Step::ListExtensions { .. }));
    assert!(matches!(&plan_ext(&cur, true, None)[0], Step::OpenFolder(_)));
    assert!(said(&plan_ext(&cur, false, None)[0], "ext not found"));
    assert!(said(&plan_ext(&None, true, None)[0], "Version not found"));
}

#[test]
fn ext_enable_plans() {
    let (steps, go_on) = plan_ext_enable_prepare(false, true, true);
    assert!(!go_on && said(&steps[0], "file not found"));
    let (steps, go_on) = plan_ext_enable_prepare(true, false, true);
    assert!(go_on && steps.len() == 2 && matches!(&steps[1], Step::CopyFile { .. }));
    let (steps, go_on) = plan_ext_enable_prepare(true, false, false);
    assert!(!go_on && said(&steps[1], "php.ini-development not found"));
    let (steps, go_on) = plan_ext_enable_prepare(true, true, false);
    assert!(go_on && steps.is_empty());

    let edit = plan_ext_enable_edit(";extension=curl\r\n;extension=mbstring\r\n", "curl");
    assert!(matches!(&edit[0], Step::WriteFile { content, .. } if content == "extension=curl\r\n;extension=mbstring"));
    assert!(said(&edit[1], "extension enabled"));
    assert!(said(&plan_ext_enable_edit("extension=curl", "curl")[0], "extension already enabled"));
    assert!(said(&plan_ext_enable_edit("", "curl")[0], "extension not found in ini file"));
    assert_eq!(pvm::commands::extension_dll_path("curl").parts, vec!["php", "ext", "php_curl.dll"]);
}

#[test]
fn install_plans() {
    assert!(said(&plan_install_existing(&Some(version(1, "8.3.3", "/b/p", false)))[0], "Version 8.3.3 already exists"));
    assert!(plan_install_existing(&None).is_empty());
    let chosen = Some(InstallUrl {
        id: Some(4),
        version: "8.3.3".to_string(),
        url: "https://x/php.zip".to_string(),
        type_: "nts".to_string(),
        architecture: "x64".to_string(),
    });
    let steps = plan_install("8.3", &chosen);
    assert_eq!(steps.len(), 9);
    assert!(matches!(&steps[1], Step::Download { url, to } if url == "https://x/php.zip" && in_base(to, "php8.3.3.zip")));
    assert!(matches!(&steps[3], Step::Extract { archive, to } if in_base(archive, "php8.3.3.zip") && in_base(to, "php8.3.3")));
    assert!(matches!(&steps[7], Step::AddVersion { is_current: false, .. }));
    assert!(said(&steps[8], "installed successfully 8.3.3"));
    assert!(said(&plan_install("9.9", &None)[0], "Download url not found for version 9.9"));
}

#[test]
fn import_plan() {
    let steps = plan_import("8.1.0", "C:\\php", false, false);
    assert!(said(&steps[0], "Detected existing PHP version 8.1.0 installed at: C:\\php"));
    assert_eq!(steps.len(), 5);
    assert!(matches!(&steps[2], Step::CopyDir { to, .. } if in_base(to, "php8.1.0")));
    assert_eq!(plan_import("8.1.0", "C:\\php", false, true).len(), 1);
    assert!(said(&plan_import("8.1.0", "C:\\php", true, false)[1], "Version 8.1.0 is already registered under PVM."));
}

#[test]
fn registry_strings_are_utf16_with_terminator() {
    assert_eq!(registry_string_bytes(""), vec![0, 0]);
    assert_eq!(registry_string_bytes("A;"), vec![0x41, 0, 0x3b, 0, 0, 0]);
    let s = "é\u{20ac}\u{1f600}";
    let mut expected: Vec<u8> = s.encode_utf16().flat_map(|c| c.to_le_bytes()).collect();
    expected.push(0);
    expected.push(0);
    assert_eq!(registry_string_bytes(s), expected);
    assert_eq!(registry_string_bytes("\u{1f600}"), vec![0x3d, 0xd8, 0x00, 0xde, 0, 0]);
}

#[test]
fn new_executable_is_found_in_the_unpacked_release() {
    let names = vec!["README.md".to_string(), ".exe".to_string(), "pvm-v3.exe".to_string(), "x.exe".to_string()];
    assert_eq!(choose_new_executable(true, true, &names), NewExecutable::UpperCase);
    assert_eq!(choose_new_executable(false, true, &names), NewExecutable::LowerCase);
    assert_eq!(choose_new_executable(false, false, &names), NewExecutable::Entry(2));
    assert_eq!(choose_new_executable(false, false, &vec!["a.zip".to_string()]), NewExecutable::Missing);
}

#[test]
fn trailing_zero_components_compare_alike() {
    assert!(!is_newer_version("1.0", "1.0.0"));
    assert!(!is_newer_version("1.0.0", "1.0"));
    assert!(!is_newer_version("v2", "2.0.0.0"));
}

fn apply_to_registry(rows: &mut Vec<PhpVersion>, steps: &[Step], next_id: &mut i32) {
    for s in steps {
        match s {
            Step::SetPathAndCurrent { id, is_current, .. } => {
                for r in rows.iter_mut() {
                    if r.id == *id {
                        r.is_current = *is_current;
                    }
                }
            }
            Step::AddVersion { version: v, is_current, .. } => {
                rows.push(version(*next_id, v, "", *is_current));
                *next_id += 1;
            }
            Step::RemoveVersionsNamed(v) => rows.retain(|r| &r.version != v),
            _ => {}
        }
    }
}

#[test]
fn registry_keeps_one_active_installation() {
    let mut rows = vec![version(1, "8.3.3", "/b/php", true), version(2, "8.2.0", "/b/php8.2.0", false)];
    let mut next_id = 3;
    let current = rows.iter().find(|r| r.is_current).cloned();
    let target = Some(rows[1].clone());
    let steps = plan_use("8.2", &target, true, &current, true);
    apply_to_registry(&mut rows, &steps, &mut next_id);
    let active: Vec<i32> = rows.iter().filter(|r| r.is_current).map(|r| r.id).collect();
    assert_eq!(active, vec![2]);

    let steps = plan_add("7.4.0", "/x", false, true);
    apply_to_registry(&mut rows, &steps, &mut next_id);
    let steps = plan_uninstall("8.2.0", &Some(rows[1].clone()), true);
    apply_to_registry(&mut rows, &steps, &mut next_id);
    assert_eq!(rows.len(), 3);
    let steps = plan_uninstall("8.3.3", &Some(rows[0].clone()), true);
    apply_to_registry(&mut rows, &steps, &mut next_id);
    assert_eq!(rows.len(), 2);
    assert_eq!(rows.iter().filter(|r| r.is_current).count(), 1);
}

fn entry(has: bool, inside: bool, v: Option<&str>) -> PathEntryFacts {
    PathEntryFacts { has_php_exe: has, inside_base: inside, reported_version: v.map(|s| s.to_string()) }
}

#[test]
fn setup_imports_the_first_answering_php_outside_the_base() {
    assert!(needs_version_probe(true, false));
    assert!(!needs_version_probe(true, true));
    assert!(!needs_version_probe(false, false));
    let entries = vec![
        entry(false, false, None),
        entry(true, true, Some("8.3.3")),
        entry(true, false, None),
        entry(true, false, Some("8.1.0")),
        entry(true, false, Some("7.4.0")),
    ];
    assert_eq!(choose_existing_php(&entries), Some(3));
    let early = vec![entry(false, false, None), entry(true, true, Some("8.3.3")), entry(true, false, None)];
    assert_eq!(choose_existing_php(&early), None);
    assert_eq!(choose_existing_php(&Vec::new()), None);
}

#[test]
fn use_retires_the_previous_installation_and_keeps_the_others() {
    let target = Some(version(2, "8.2.0", "/b/php8.2.0", false));
    let current = Some(version(1, "8.3.3", "/b/php", true));
    let steps = plan_use("8.2.0", &target, true, &current, true);
    let sets: Vec<(i32, bool, Vec<String>)> = steps
        .iter()
        .filter_map(|s| match s {
            Step::SetPathAndCurrent { id, path, is_current } => Some((*id, *is_current, path.parts.clone())),
            _ => None,
        })
        .collect();
    assert_eq!(sets, vec![(1, false, vec!["php8.3.3".to_string()]), (2, true, vec!["php".to_string()])]);
}
