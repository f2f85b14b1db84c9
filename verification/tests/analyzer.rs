//! Which analysis a file gets, and what comes of it.
use anthelion::analyzer::{
    after_signature, architecture_from_file_name, extension_of, first_step,
    override_x86_from_file_name, Analyzer, ExeFacts, FontAnalysis, Method, Step,
    ValidFileExtensions,
};
use anthelion::manifest::{Architecture, Installer, Switches};

fn installer(architecture: Architecture) -> Installer {
    Installer {
        locale: None,
        architecture,
        installer_type: None,
        nested_installer_type: None,
        nested_installer_files: Vec::new(),
        scope: None,
        url: String::new(),
        sha_256: String::new(),
        release_date: None,
        product_code: None,
        apps_and_features_entries: Vec::new(),
        install_location: None,
        all_install_modes: false,
        switches: Switches::none(),
        expected_return_codes: Vec::new(),
    }
}

fn overridden(file_name: &str) -> Architecture {
    let mut installers = vec![installer(Architecture::X86)];

    override_x86_from_file_name(&mut installers, file_name);

    installers[0].architecture
}

#[test]
fn overrides_x86_with_file_name_architecture() {
    let cases = vec![
        ("MyApp-arm64.exe", Architecture::Arm64),
        ("MyApp_aarch64.exe", Architecture::Arm64),
        ("MyApp-amd64.exe", Architecture::X64),
        ("MyApp.x64.exe", Architecture::X64),
        ("MyApp-win64.exe", Architecture::X64),
        ("MyApp-x86_64.exe", Architecture::X64),
        ("MyApp-arm64ec.exe", Architecture::Arm64),
        // The rightmost architecture name wins
        ("MyApp-win32-x64.exe", Architecture::X64),
        ("MyApp_x64_arm64.exe", Architecture::Arm64),
    ];
    for (file_name, expected) in cases {
        assert_eq!(overridden(file_name), expected, "{file_name}");
    }
}

#[test]
fn keeps_x86_without_a_better_file_name_architecture() {
    let cases = vec![
        "MyApp.exe",
        "MyApp-x86.exe",
        "MyApp-win32.exe",
        "MyApp-neutral.exe",
        // `x64` here is part of a longer word, so it isn't a delimited architecture name
        "MyAppx64Bridge.exe",
    ];
    for file_name in cases {
        assert_eq!(overridden(file_name), Architecture::X86, "{file_name}");
    }
}

#[test]
fn does_not_override_a_non_x86_architecture() {
    let mut installers = vec![installer(Architecture::Arm64)];

    override_x86_from_file_name(&mut installers, "MyApp-x64.exe");

    assert_eq!(installers[0].architecture, Architecture::Arm64);
}

#[test]
fn overrides_every_x86_installer_and_no_other() {
    let mut installers = vec![
        installer(Architecture::X86),
        installer(Architecture::Neutral),
        installer(Architecture::X86),
    ];

    override_x86_from_file_name(&mut installers, "setup (x64).exe");

    let found: Vec<Architecture> = installers.iter().map(|i| i.architecture).collect();
    assert_eq!(found, vec![Architecture::X64, Architecture::Neutral, Architecture::X64]);
}

#[test]
fn finds_each_architecture_name() {
    let cases = vec![
        ("winarm64", Architecture::Arm64),
        ("aarch64", Architecture::Arm64),
        ("arm64ec", Architecture::Arm64),
        ("x86_64", Architecture::X64),
        ("x86-64", Architecture::X64),
        ("win64a", Architecture::Arm64),
        ("64-bit", Architecture::X64),
        ("winx64", Architecture::X64),
        ("64bit", Architecture::X64),
        ("amd64", Architecture::X64),
        ("arm64", Architecture::Arm64),
        ("win64", Architecture::X64),
        ("ia64", Architecture::X64),
        ("x64", Architecture::X64),
    ];
    for (name, expected) in cases {
        assert_eq!(architecture_from_file_name(name), Some(expected));
        assert_eq!(architecture_from_file_name(&name.to_uppercase()), Some(expected));
        assert_eq!(architecture_from_file_name(&format!("a+{name},b")), Some(expected));
        assert_eq!(architecture_from_file_name(&format!("a{name}")), None);
    }
    assert_eq!(architecture_from_file_name(""), None);
    assert_eq!(architecture_from_file_name("äpp-x64.exe"), Some(Architecture::X64));
    assert_eq!(architecture_from_file_name("äx64.exe"), None);
}

#[test]
fn knows_the_extensions_that_can_be_analyzed() {
    let cases = vec![
        ("a.msi", ValidFileExtensions::Msi),
        ("a.MSIX", ValidFileExtensions::Msix),
        ("a.appx", ValidFileExtensions::Appx),
        ("a.msixbundle", ValidFileExtensions::MsixBundle),
        ("a.AppxBundle", ValidFileExtensions::AppxBundle),
        ("a.b.zip", ValidFileExtensions::Zip),
        ("dir/a.exe", ValidFileExtensions::Exe),
        ("a.fnt", ValidFileExtensions::Fnt),
        ("a.otc", ValidFileExtensions::Otc),
        ("a.otf", ValidFileExtensions::Otf),
        ("a.ttc", ValidFileExtensions::Ttc),
        ("a.ttf", ValidFileExtensions::Ttf),
    ];
    for (path, expected) in cases {
        assert_eq!(ValidFileExtensions::from_path(path), Some(expected));
        assert_eq!(
            ValidFileExtensions::from_path(&format!("x.{}", expected.as_str())),
            Some(expected)
        );
    }
    for path in vec!["", "exe", ".exe", "dir.exe/a", "a.exe.txt", "a."] {
        assert_eq!(ValidFileExtensions::from_path(path), None, "{path}");
    }
    assert_eq!(extension_of("0.84.1-build.56537"), Some("56537".to_owned()));
    assert_eq!(extension_of("a.tar.GZ"), Some("GZ".to_owned()));
    assert_eq!(extension_of("a"), None);
    assert_eq!(extension_of("a."), Some(String::new()));
    // Slashes at the end, and parts that lead nowhere, do not count.
    assert_eq!(extension_of("foo.exe/"), Some("exe".to_owned()));
    assert_eq!(extension_of("foo.exe/./"), Some("exe".to_owned()));
    for path in vec!["", "/", ".", "..", "../..", "foo.exe/..", "./.", ".exe/"] {
        assert_eq!(extension_of(path), None, "{path}");
    }
}

#[test]
fn picks_the_analysis_by_the_extension() {
    assert_eq!(first_step("a.msi"), Some(Step::Analyze(Method::Msi)));
    assert_eq!(first_step("a.zip"), Some(Step::Analyze(Method::Zip)));
    assert_eq!(first_step("a.exe"), Some(Step::Analyze(Method::Exe)));
    assert_eq!(first_step("a.appxbundle"), Some(Step::Analyze(Method::MsixBundle)));
    assert_eq!(first_step("a.msixbundle"), Some(Step::Analyze(Method::MsixBundle)));
    assert_eq!(first_step("a.ttf"), Some(Step::Analyze(Method::Font)));
    assert_eq!(first_step("a.msix"), Some(Step::CheckSignature));
    assert_eq!(first_step("a.appx"), Some(Step::CheckSignature));
    assert_eq!(first_step("a.txt"), None);
    // An unsigned package is analyzed as the archive that it is.
    assert_eq!(after_signature(true), Method::Msix);
    assert_eq!(after_signature(false), Method::Zip);
}

#[test]
fn takes_what_an_executable_tells() {
    let exe = ExeFacts {
        installers: vec![installer(Architecture::X86)],
        legal_copyright: Some("(c)".to_owned()),
        product_name: Some("P".to_owned()),
        company_name: Some("Company".to_owned()),
        file_version: Some("1.0".to_owned()),
        product_version: None,
        pe_info: Some(7),
    };

    let analyzer: Analyzer<i32, (), ()> = Analyzer::from_exe(exe, "setup-x64.exe");

    assert_eq!(analyzer.copyright, Some("(c)".to_owned()));
    // A name of one character is too short.
    assert_eq!(analyzer.package_name, None);
    assert_eq!(analyzer.publisher, Some("Company".to_owned()));
    assert_eq!(analyzer.file_version, Some("1.0".to_owned()));
    assert_eq!(analyzer.product_version, None);
    assert_eq!(analyzer.pe_info, Some(7));
    assert_eq!(analyzer.file_name, "");
    assert_eq!(analyzer.into_installers()[0].architecture, Architecture::X64);
}

#[test]
fn bounds_the_texts_of_an_executable() {
    let told = |copyright: &str, name: &str, publisher: &str| {
        let exe = ExeFacts {
            installers: Vec::new(),
            legal_copyright: Some(copyright.to_owned()),
            product_name: Some(name.to_owned()),
            company_name: Some(publisher.to_owned()),
            file_version: None,
            product_version: None,
            pe_info: None,
        };
        let analyzer: Analyzer<(), (), ()> = Analyzer::from_exe(exe, "a.exe");
        (
            analyzer.copyright.is_some(),
            analyzer.package_name.is_some(),
            analyzer.publisher.is_some(),
        )
    };

    assert_eq!(told("ab", "a", "a"), (false, false, false));
    assert_eq!(told("abc", "ab", "ab"), (true, true, true));
    assert_eq!(told("äöü", "äö", "äö"), (true, true, true));
    let (long, middle) = ("x".repeat(512), "x".repeat(256));
    assert_eq!(told(&long, &middle, &middle), (true, true, true));
    let (long, middle) = ("x".repeat(513), "x".repeat(257));
    assert_eq!(told(&long, &middle, &middle), (false, false, false));
}

#[test]
fn keeps_of_a_font_what_was_asked_for() {
    let font = |analysis: FontAnalysis| {
        let analyzer: Analyzer<(), &str, ()> = Analyzer::from_font(
            vec![installer(Architecture::Neutral)],
            Some("info"),
            Some("1.5".to_owned()),
            analysis,
        );
        (analyzer.font_version, analyzer.font_info, analyzer.installers.len())
    };

    assert_eq!(font(FontAnalysis::Version), (Some("1.5".to_owned()), None, 1));
    assert_eq!(font(FontAnalysis::Full), (None, Some("info"), 1));
    assert_eq!(font(FontAnalysis::Skip), (None, None, 1));
}

#[test]
fn keeps_an_archive_beside_its_installers() {
    let zipped: Analyzer<(), (), &str> =
        Analyzer::from_zip("archive", vec![installer(Architecture::Arm)]);
    assert_eq!(zipped.zip, Some("archive"));
    assert_eq!(zipped.installers[0].architecture, Architecture::Arm);

    let plain: Analyzer<(), (), &str> =
        Analyzer::from_installers(vec![installer(Architecture::X86)]);
    assert_eq!(plain.zip, None);
    assert_eq!(plain.copyright, None);
    assert_eq!(plain.installers[0].architecture, Architecture::X86);
}
