use livefetch::logo::{builtin_logo_names, linux_distro_ids, lookup, lookup_strict, Logo, Platform};

fn catalog() -> Vec<Logo> {
    builtin_logo_names()
        .into_iter()
        .map(|name| Logo { name, width: 3, lines: vec!["x".to_string(), "y".to_string()] })
        .collect()
}

#[test]
fn builtin_catalog_order() {
    let names = builtin_logo_names();
    assert_eq!(names.len(), 18);
    assert_eq!(names[0], "arch");
    assert_eq!(names[15], "macos");
    assert_eq!(names[17], "tux");
    assert_eq!(catalog()[0].height(), 2);
}

#[test]
fn lookup_by_name_and_alias() {
    let cat = catalog();
    assert_eq!(lookup(&cat, "Arch", &Platform::Other), Some(0));
    assert_eq!(lookup(&cat, "  archlinux ", &Platform::Other), Some(0));
    assert_eq!(lookup(&cat, "POP!_OS", &Platform::Other), Some(5));
    assert_eq!(lookup(&cat, "Darwin", &Platform::Other), Some(15));
    assert_eq!(lookup(&cat, "windows11", &Platform::Other), Some(16));
    assert_eq!(lookup(&cat, "penguin", &Platform::Other), Some(17));
    assert_eq!(lookup(&cat, "none", &Platform::MacOs), None);
    assert_eq!(lookup(&cat, "plan9", &Platform::MacOs), None);
}

#[test]
fn lookup_auto_follows_the_platform() {
    let cat = catalog();
    assert_eq!(lookup(&cat, "", &Platform::MacOs), Some(15));
    assert_eq!(lookup(&cat, "AUTO", &Platform::Windows), Some(16));
    assert_eq!(lookup(&cat, "auto", &Platform::Other), Some(17));
    let ids = Platform::Linux(vec!["zzz".to_string(), "Ubuntu".to_string(), "debian".to_string()]);
    assert_eq!(lookup(&cat, "auto", &ids), Some(1));
    assert_eq!(livefetch::logo::auto(&cat, &Platform::Linux(vec![])), Some(17));
    let mint = linux_distro_ids("ID=linuxmint\nID_LIKE=ubuntu\n");
    assert_eq!(livefetch::logo::auto(&cat, &Platform::Linux(mint)), Some(4));
    assert_eq!(livefetch::logo::auto(&Vec::new(), &Platform::Other), None);
}

#[test]
fn strict_lookup_has_no_aliases() {
    let cat = catalog();
    assert_eq!(lookup_strict(&cat, " Fedora "), Some(3));
    assert_eq!(lookup_strict(&cat, "archlinux"), None);
}

#[test]
fn distro_ids_from_os_release() {
    let txt = "NAME=\"Ubuntu\"\nID=ubuntu\nID_LIKE=debian\nVERSION_ID=\"24.04\"\n";
    assert_eq!(linux_distro_ids(txt), vec!["ubuntu".to_string(), "debian".to_string()]);
    let txt2 = "ID_LIKE=\"rhel fedora\"\nID=\"centos\"\n";
    assert_eq!(
        linux_distro_ids(txt2),
        vec!["centos".to_string(), "rhel".to_string(), "fedora".to_string()]
    );
    assert!(linux_distro_ids("").is_empty());
}

#[test]
fn names_match_ignoring_case_and_spaces() {
    let cat = catalog();
    let a = lookup(&cat, "  ARCH ", &Platform::Other);
    let b = lookup(&cat, "arch", &Platform::Other);
    assert_eq!(a, b);
    assert_eq!(a, Some(0));
}

#[test]
fn unknown_distro_falls_back_to_tux() {
    let cat = catalog();
    let ids = Platform::Linux(vec!["zzz".to_string(), "plan9".to_string()]);
    assert_eq!(livefetch::logo::auto(&cat, &ids), Some(17));
}
