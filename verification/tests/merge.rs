//! Merging installers of two versions.
use anthelion::manifest::{
    Architecture, Installer, InstallerType, NestedInstallerFile, Scope, Switches,
};
use anthelion::merge::{
    check_package_type, clear_equal_locales, decide_merge, first_smallest, fix_relative_paths,
    inherit, kept_minimum_os_version, lowercase_extension, merge_type, shares_url, ManifestFacts,
    NestedCandidate,
};

fn installer(url: &str, architecture: Architecture) -> Installer {
    Installer {
        locale: None,
        architecture,
        installer_type: None,
        nested_installer_type: None,
        nested_installer_files: Vec::new(),
        scope: None,
        url: url.to_owned(),
        sha_256: String::new(),
        release_date: None,
        product_code: None,
        apps_and_features_entries: Vec::new(),
        install_location: None,
        all_install_modes: false,
        switches: Switches::none(),
        expected_return_codes: Vec::new(),
    }
}

fn nested(path: &str) -> NestedCandidate {
    NestedCandidate {
        file: NestedInstallerFile {
            relative_file_path: path.to_owned(),
            portable_command_alias: Some("alias".to_owned()),
        },
        normalized_path: path.replace("./", ""),
    }
}

fn paths(list: Vec<&str>) -> Vec<String> {
    list.into_iter().map(str::to_owned).collect()
}

fn fixed(files: Vec<&str>, archive: Option<Vec<&str>>) -> Vec<String> {
    let candidates: Vec<NestedCandidate> = files.into_iter().map(nested).collect();
    fix_relative_paths(&candidates, &archive.map(paths))
        .into_iter()
        .map(|file| {
            assert_eq!(file.portable_command_alias, Some("alias".to_owned()));
            file.relative_file_path
        })
        .collect()
}

#[test]
fn inherits_what_the_manifest_says() {
    let mut installers = vec![installer("a", Architecture::X64), installer("b", Architecture::X86)];
    installers[0].scope = Some(Scope::User);
    installers[1].installer_type = Some(InstallerType::Msi);

    inherit(
        &mut installers,
        &ManifestFacts {
            installer_type: None,
            nested_installer_type: Some(InstallerType::Exe),
            scope: Some(Scope::Machine),
        },
    );

    assert_eq!(installers[0].scope, Some(Scope::Machine));
    assert_eq!(installers[0].installer_type, None);
    assert_eq!(installers[1].installer_type, Some(InstallerType::Msi));
    assert_eq!(installers[1].nested_installer_type, Some(InstallerType::Exe));
    assert_eq!(installers[1].url, "b");
}

#[test]
fn knows_urls_that_occur_twice() {
    let installers = vec![
        installer("a", Architecture::X64),
        installer("b", Architecture::X86),
        installer("a", Architecture::Arm64),
    ];
    assert!(shares_url(&installers, "a"));
    assert!(!shares_url(&installers, "b"));
    assert!(!shares_url(&installers, "c"));
}

#[test]
fn a_portable_installer_keeps_its_type() {
    let (portable, exe, msi) =
        (Some(InstallerType::Portable), Some(InstallerType::Exe), Some(InstallerType::Msi));
    assert_eq!(merge_type(portable, exe), portable);
    assert_eq!(merge_type(exe, portable), exe);
    assert_eq!(merge_type(exe, msi), msi);
    assert_eq!(merge_type(None, portable), None);
    assert_eq!(merge_type(msi, None), None);
}

#[test]
fn lowers_the_extension_alone() {
    assert_eq!(lowercase_extension("Dir/App.EXE"), "Dir/App.exe");
    assert_eq!(lowercase_extension("App.Setup.MSI"), "App.Setup.msi");
    assert_eq!(lowercase_extension("README"), "README");
    assert_eq!(lowercase_extension(".EXE"), ".EXE");
}

#[test]
fn keeps_nested_files_without_an_archive() {
    assert_eq!(fixed(vec!["a.exe", "b.exe"], None), vec!["a.exe", "b.exe"]);
}

#[test]
fn brings_nested_files_in_line_with_the_archive() {
    assert_eq!(fixed(vec!["app.exe"], Some(vec!["app.exe", "app2.exe"])), vec!["app.exe"]);
    // The path as it stands stays where its normal form is in the archive.
    assert_eq!(fixed(vec!["./app.exe"], Some(vec!["app.exe"])), vec!["./app.exe"]);
    assert_eq!(
        fixed(
            vec!["app-1.0/tool.exe"],
            Some(vec!["other/readme.exe", "app-1.1/tool.EXE", "app-2.223/tool.exe"])
        ),
        vec!["app-1.1/tool.exe"]
    );
    // Of two that are equally close the first is taken.
    assert_eq!(fixed(vec!["ab"], Some(vec!["ac", "ad"])), vec!["ac"]);
    assert!(fixed(vec!["app.exe"], Some(Vec::new())).is_empty());
}

#[test]
fn nested_files_that_become_the_same_are_kept_once() {
    let bare = |path: &str, alias: Option<&str>| NestedCandidate {
        file: NestedInstallerFile {
            relative_file_path: path.to_owned(),
            portable_command_alias: alias.map(str::to_owned),
        },
        normalized_path: path.to_owned(),
    };
    let shown = |candidates: Vec<NestedCandidate>, archive: Option<Vec<&str>>| -> Vec<(String, Option<String>)> {
        fix_relative_paths(&candidates, &archive.map(paths))
            .into_iter()
            .map(|file| (file.relative_file_path, file.portable_command_alias))
            .collect()
    };
    assert_eq!(
        shown(vec![bare("a.exe", None), bare("b.exe", None)], Some(vec!["c.exe"])),
        vec![("c.exe".to_owned(), None)]
    );
    // Files with different aliases are different.
    assert_eq!(
        shown(vec![bare("a.exe", Some("a")), bare("b.exe", None)], Some(vec!["c.exe"])),
        vec![("c.exe".to_owned(), Some("a".to_owned())), ("c.exe".to_owned(), None)]
    );
    assert_eq!(
        shown(vec![bare("a.exe", None), bare("a.exe", None), bare("b.exe", None)], None),
        vec![("a.exe".to_owned(), None), ("b.exe".to_owned(), None)]
    );
}

#[test]
fn decides_how_installers_merge() {
    let mut previous = installer("old", Architecture::X86);
    previous.installer_type = Some(InstallerType::Portable);
    let mut new = installer("new", Architecture::X64);
    new.installer_type = Some(InstallerType::Exe);

    let decision = decide_merge(
        &previous,
        &new,
        &vec![nested("v1/a.exe")],
        &vec![nested("v0/b.exe")],
        &Vec::new(),
        paths(vec!["v2/a.exe"]),
        &vec![installer("old", Architecture::X86), installer("old", Architecture::X64)],
    );

    assert_eq!(decision.installer_type, Some(InstallerType::Portable));
    assert_eq!(decision.url, "new");
    assert_eq!(decision.architecture, Some(Architecture::X86));
    let files = decision.nested_installer_files.unwrap();
    assert_eq!(files.len(), 1);
    assert_eq!(files[0].relative_file_path, "v2/a.exe");

    let decision = decide_merge(
        &previous,
        &new,
        &Vec::new(),
        &vec![nested("v0/b.exe")],
        &vec![nested("v9/c.exe")],
        Vec::new(),
        &vec![installer("old", Architecture::X86)],
    );
    assert_eq!(decision.architecture, None);
    assert_eq!(decision.nested_installer_files.unwrap()[0].relative_file_path, "v0/b.exe");

    let decision = decide_merge(
        &previous,
        &new,
        &Vec::new(),
        &Vec::new(),
        &Vec::new(),
        paths(vec!["x.exe"]),
        &Vec::new(),
    );
    assert!(decision.nested_installer_files.is_none());
}

#[test]
fn clears_locales_that_are_all_the_same() {
    let cleared = |locales: Vec<Option<&str>>| {
        let mut locales: Vec<Option<String>> =
            locales.into_iter().map(|locale| locale.map(str::to_owned)).collect();
        clear_equal_locales(&mut locales);
        locales
    };
    assert_eq!(cleared(vec![Some("en-US"), None, Some("en-US")]), vec![None, None, None]);
    assert_eq!(
        cleared(vec![Some("en-US"), Some("de-DE")]),
        vec![Some("en-US".to_owned()), Some("de-DE".to_owned())]
    );
    assert_eq!(cleared(vec![Some("en-US")]), vec![None]);
    assert!(cleared(Vec::new()).is_empty());
}

#[test]
fn drops_the_minimum_version_that_every_system_meets() {
    assert_eq!(kept_minimum_os_version(Some((10, 0, 0, 0))), None);
    assert_eq!(kept_minimum_os_version(Some((10, 0, 17763, 0))), Some((10, 0, 17763, 0)));
    assert_eq!(kept_minimum_os_version(None), None);
}

#[test]
fn does_not_mix_fonts_and_applications() {
    let application = || installer("a", Architecture::X64);
    let font = || {
        let mut font = installer("f", Architecture::Neutral);
        font.installer_type = Some(InstallerType::Font);
        font
    };
    let zipped_font = || {
        let mut font = installer("z", Architecture::Neutral);
        font.installer_type = Some(InstallerType::Zip);
        font.nested_installer_type = Some(InstallerType::Font);
        font
    };

    assert_eq!(check_package_type(&Vec::new()), Ok(false));
    assert_eq!(check_package_type(&vec![application(), application()]), Ok(false));
    assert_eq!(check_package_type(&vec![font(), zipped_font()]), Ok(true));
    let mixed =
        Err("Application and font installers cannot be mixed in the same manifest".to_owned());
    assert_eq!(check_package_type(&vec![font(), application()]), mixed);
    assert_eq!(check_package_type(&vec![application(), zipped_font()]), mixed);
}

#[test]
fn finds_the_first_of_the_smallest() {
    assert_eq!(first_smallest(&vec![3, 1, 2, 1]), Some(1));
    assert_eq!(first_smallest(&vec![7]), Some(0));
    assert_eq!(first_smallest(&Vec::new()), None);
}
