use pacman_helper::{archives, convert, resolve, ArchiveFile, Pkg, PkgType};

fn file(name: &str) -> ArchiveFile {
    ArchiveFile { name: String::from(name), path: format!("/var/cache/pacman/pkg/{}", name) }
}

fn firefox() -> Pkg {
    convert("[2022-02-12T12:02:12+0800] [ALPM] upgraded firefox (96.0.3-1 -> 97.0-0.1)").unwrap()
}

#[test]
fn archive_of_the_old_version_is_resolved() {
    let entries = vec![file("firefox-96.0.3-1-x86_64.pkg.tar.zst")];
    let candidates = archives(&entries);
    let found = resolve(&firefox(), &candidates).unwrap();
    assert_eq!(found.name, "firefox-96.0.3-1-x86_64.pkg.tar.zst");
    assert_eq!(found.path, "/var/cache/pacman/pkg/firefox-96.0.3-1-x86_64.pkg.tar.zst");
}

#[test]
fn archive_of_another_version_is_not_resolved() {
    let entries = vec![file("firefox-95.0-1-x86_64.pkg.tar.zst")];
    let candidates = archives(&entries);
    assert_eq!(candidates.len(), 1);
    assert!(resolve(&firefox(), &candidates).is_none());
}

#[test]
fn nothing_is_resolved_among_no_candidates() {
    assert!(resolve(&firefox(), &Vec::new()).is_none());
}

#[test]
fn the_one_candidate_that_fits_is_resolved_wherever_it_stands() {
    let entries = vec![
        file("firefox-95.0-1-x86_64.pkg.tar.zst"),
        file("firefox-developer-edition-96.0.3-1-x86_64.pkg.tar.zst"),
        file("opencc-1.1.2-3-x86_64.pkg.tar.zst"),
        file("firefox-96.0.3-1-x86_64.pkg.tar.zst"),
        file("firefox-97.0-0.1-x86_64.pkg.tar.zst"),
    ];
    let candidates = archives(&entries);
    let found = resolve(&firefox(), &candidates).unwrap();
    assert!(std::ptr::eq(found, &entries[3]));
}

#[test]
fn the_first_of_several_that_fit_is_resolved() {
    let entries = vec![
        file("firefox-96.0.3-10-x86_64.pkg.tar.zst"),
        file("firefox-96.0.3-1-x86_64.pkg.tar.zst"),
        file("firefox-96.0.3-1-aarch64.pkg.tar.zst"),
    ];
    let candidates = archives(&entries);
    let found = resolve(&firefox(), &candidates).unwrap();
    assert_eq!(found.name, "firefox-96.0.3-10-x86_64.pkg.tar.zst");
}

#[test]
fn name_must_begin_with_the_identifier() {
    let entries = vec![file("x-firefox-96.0.3-1-x86_64.pkg.tar.zst"), file("firefox-96.0.3")];
    let listed: Vec<&ArchiveFile> = entries.iter().collect();
    assert!(resolve(&firefox(), &listed).is_none());
    let exact = vec![file("firefox-96.0.3-1")];
    let listed: Vec<&ArchiveFile> = exact.iter().collect();
    assert_eq!(resolve(&firefox(), &listed).unwrap().name, "firefox-96.0.3-1");
}

#[test]
fn resolve_goes_by_name_and_version_not_by_type() {
    let record = Pkg {
        name: String::from("opencc"),
        version: String::from("1.1.2-3"),
        p_type: PkgType::Installed,
    };
    let entries = vec![file("opencc-1.1.2-3-x86_64.pkg.tar.zst")];
    assert!(resolve(&record, &archives(&entries)).is_some());
}

#[test]
fn only_package_archives_are_candidates() {
    let entries = vec![
        file("firefox-96.0.3-1-x86_64.pkg.tar.zst.sig"),
        file("firefox-96.0.3-1-x86_64.pkg.tar.zst"),
        file("firefox-96.0.3-1-x86_64.pkg.tar.xz"),
        file("firefox-96.0.3-1-x86_64.tar.zst"),
        file(".pkg.tar.zst"),
        file("pkg.tar.zst"),
        file("download-abc.part"),
        file("zstd-1.5.2-1-x86_64.pkg.tar.zst"),
    ];
    assert!(entries[1].is_package());
    assert!(!entries[0].is_package());
    assert!(!entries[5].is_package());
    let names: Vec<&str> = archives(&entries).iter().map(|f| f.name.as_str()).collect();
    assert_eq!(
        names,
        vec![
            "firefox-96.0.3-1-x86_64.pkg.tar.zst",
            ".pkg.tar.zst",
            "zstd-1.5.2-1-x86_64.pkg.tar.zst"
        ]
    );
}

#[test]
fn signature_beside_the_archive_is_no_candidate() {
    let entries = vec![
        file("firefox-96.0.3-1-x86_64.pkg.tar.zst.sig"),
        file("firefox-96.0.3-1-x86_64.pkg.tar.zst"),
    ];
    let candidates = archives(&entries);
    assert!(std::ptr::eq(resolve(&firefox(), &candidates).unwrap(), &entries[1]));
}
