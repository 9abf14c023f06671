use bpm::filter::{
    any_or_all, architecture_markers_with_pos, match_inner, platform_markers_with_pos, select,
    select_list, sort_list, Arch, Combination, Host, MatchPos, Os,
};

fn strings(items: &[&str]) -> Vec<String> {
    items.iter().map(|s| s.to_string()).collect()
}

fn markers(items: &[(&str, MatchPos)]) -> Vec<(String, MatchPos)> {
    items.iter().map(|(s, p)| (s.to_string(), *p)).collect()
}

#[test]
fn test_markers_with_pos() {
    assert_eq!(
        platform_markers_with_pos(&Os::Windows),
        vec![
            ("windows".to_string(), MatchPos::All),
            ("win32".to_string(), MatchPos::All),
            (".exe".to_string(), MatchPos::End),
            (".msi".to_string(), MatchPos::End),
        ]
    );
}

#[test]
fn test_any_or_all() {
    let items = vec![1, 2, 3];
    let flags: Vec<bool> = items.iter().map(|item| *item == 1).collect();
    assert!(any_or_all(&flags, Combination::Any));
    assert!(!any_or_all(&flags, Combination::All));
}

#[test]
fn test_match_inner() {
    assert!(match_inner(
        "asdfoo123",
        &markers(&[("foo", MatchPos::All)]),
        None,
        None
    ));

    assert!(!match_inner(
        "asdfoo123",
        &markers(&[("foo", MatchPos::Begin)]),
        None,
        None
    ));
    assert!(match_inner(
        "asdfoo123",
        &markers(&[("asd", MatchPos::Begin)]),
        None,
        None
    ));

    assert!(match_inner(
        "asdfoo123",
        &markers(&[("123", MatchPos::End)]),
        None,
        None
    ));
}

#[test]
fn test_select_platform() {
    let assets = strings(&["65windowsasd", "asdlasflinuxsad12", "flaksjddarwina165"]);

    let windows = select_list(
        assets.clone(),
        &platform_markers_with_pos(&Os::Windows),
        None,
        None,
    );
    assert!(!windows.is_empty());
    assert_eq!(windows[0], "65windowsasd");

    let linux = select_list(
        assets.clone(),
        &platform_markers_with_pos(&Os::Linux),
        None,
        None,
    );
    assert!(!linux.is_empty());
    assert_eq!(linux[0], "asdlasflinuxsad12");

    let macos = select_list(assets, &platform_markers_with_pos(&Os::Macos), None, None);
    assert!(!macos.is_empty());
    assert_eq!(macos[0], "flaksjddarwina165");
}

#[test]
fn lib_test_sort_list() {
    let assets = strings(&["foo", "bar", "baz"]);
    let sorted = sort_list(assets, &markers(&[("a", MatchPos::All)]), None, None, None);
    assert_eq!(sorted, strings(&["bar", "baz", "foo"]));
}

#[test]
fn test_select_typstyle() {
    let assets = strings(&[
        "typstyle-alpine-x64",
        "typstyle-alpine-x64.debug",
        "typstyle-darwin-arm64",
        "typstyle-darwin-arm64.dwarf",
        "typstyle-darwin-x64",
        "typstyle-darwin-x64.dwarf",
        "typstyle-linux-arm64",
        "typstyle-linux-arm64.debug",
        "typstyle-linux-armhf",
        "typstyle-linux-armhf.debug",
        "typstyle-linux-x64",
        "typstyle-linux-x64.debug",
        "typstyle-win32-arm64.exe",
        "typstyle-win32-arm64.pdb",
        "typstyle-win32-x64.exe",
        "typstyle-win32-x64.pdb",
    ]);

    let host = Host {
        os: Os::Windows,
        arch: Arch::X86_64,
    };
    let selected_assets = select(assets.clone(), &host);
    assert!(!selected_assets.is_empty());
    assert_eq!(selected_assets[0], "typstyle-win32-x64.exe");
    // the debug-symbol sibling is demoted to the end, not excluded
    assert_eq!(
        selected_assets,
        strings(&["typstyle-win32-x64.exe", "typstyle-win32-x64.pdb"])
    );
}

#[test]
fn manual_test() {
    let assets = strings(&[
        "asd-macos-x86_64-123.zip",
        "asd-windows-x86_64-123.zip",
        "asd-linux-x86_64-123.zip",
        "asd-macos-aarch64-123.zip",
        "asd-windows-aarch64-123.zip",
        "asd-linux-aarch64-123.zip",
    ]);

    let host = Host {
        os: Os::Linux,
        arch: Arch::X86_64,
    };
    let selected_assets = select(assets, &host);
    println!("Selected asset: {:?}", selected_assets);
}

#[test]
fn test_select_list() {
    let list = strings(&["12", "13", "23"]);
    let prompts = markers(&[("1", MatchPos::All)]);
    let result = select_list(list, &prompts, Some(Combination::All), Some(false));
    assert_eq!(result, strings(&["12", "13"]));

    let list = strings(&["12", "13", "23", "34"]);
    let prompts = markers(&[("1", MatchPos::All), ("2", MatchPos::All)]);
    let result = select_list(list, &prompts, Some(Combination::Any), Some(false));
    assert_eq!(result, strings(&["12", "13", "23"]));

    let list = strings(&["12", "13", "23", "34", "21"]);
    let prompts = markers(&[("1", MatchPos::All), ("2", MatchPos::All)]);
    let result = select_list(list, &prompts, Some(Combination::All), Some(false));
    assert_eq!(result, strings(&["12", "21"]));
}

#[test]
fn filter_test_sort_list() {
    let list = strings(&["12", "13", "23"]);
    let prompts = markers(&[("2", MatchPos::All)]);
    let result = sort_list(list, &prompts, Some(Combination::All), Some(false), None);
    assert_eq!(result, strings(&["12", "23", "13"]));
}

#[test]
fn case_insensitive_by_default() {
    let windows = platform_markers_with_pos(&Os::Windows);
    assert!(match_inner("ASD-WINDOWS-X64.ZIP", &windows, None, None));
    assert!(match_inner("asd-windows-x64.zip", &windows, None, None));
    // with an explicit case-sensitive comparison the upper-case candidate
    // no longer matches the lower-case marker
    assert!(!match_inner("ASD-WINDOWS-X64.ZIP", &windows, None, Some(true)));
}

#[test]
fn select_end_to_end_windows_host() {
    let assets = strings(&[
        "asd-macos-x86_64.zip",
        "asd-windows-x86_64.zip",
        "asd-linux-x86_64.zip",
    ]);
    let host = Host {
        os: Os::Windows,
        arch: Arch::X86_64,
    };
    assert_eq!(select(assets, &host), strings(&["asd-windows-x86_64.zip"]));
}

#[test]
fn select_may_return_empty() {
    let assets = strings(&["tool-linux-x86_64.tar.gz"]);
    let host = Host {
        os: Os::Windows,
        arch: Arch::Aarch64,
    };
    let selected: Vec<String> = select(assets, &host);
    assert!(selected.is_empty());
}

#[test]
fn architecture_markers_cover_known_isas() {
    assert_eq!(
        architecture_markers_with_pos(&Arch::X86_64),
        vec![
            ("x64".to_string(), MatchPos::All),
            ("x86_64".to_string(), MatchPos::All),
            ("amd64".to_string(), MatchPos::All),
        ]
    );
    assert_eq!(
        architecture_markers_with_pos(&Arch::Other("riscv64".to_string())),
        vec![("riscv64".to_string(), MatchPos::All)]
    );
}
