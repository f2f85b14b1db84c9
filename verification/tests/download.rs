//! Downloaded files.
use anthelion::download::{
    infer_extension, known_architecture, local_name, name_or_path, sha256_digest, to_hex,
    DownloadedFile,
};
use anthelion::manifest::Architecture;
use anthelion::source::{parse_installer_url, Url};
use anthelion::winget::architecture_in_url;

fn downloaded_file(url: Url, file_name: &str) -> DownloadedFile {
    DownloadedFile {
        url,
        sha_256: String::new(),
        file_name: file_name.to_owned(),
        last_modified: None,
    }
}

#[test]
fn does_not_infer_architecture_for_bundle_with_extensionless_url() {
    let file = downloaded_file(
        parse_installer_url("https://example.com/download/WinDirStat_x86_x64_arm64").unwrap(),
        "WinDirStat_x86_x64_arm64.msixbundle",
    );

    assert_eq!(architecture_in_url(file.url.as_str()), Some(Architecture::Arm64));
    assert_eq!(file.architecture(), None);
}

#[test]
fn allows_explicit_architecture_override_for_bundle() {
    // The architecture that "https://example.com/download/application|arm64" names.
    let mut url = parse_installer_url("https://example.com/download/application").unwrap();
    url.architecture = Some(Architecture::Arm64);
    let file = downloaded_file(url, "application.msixbundle");

    assert_eq!(file.architecture(), Some(Architecture::Arm64));
}

#[test]
fn infers_architecture_for_non_bundle() {
    let file = downloaded_file(
        parse_installer_url("https://example.com/download/application-arm64").unwrap(),
        "application.exe",
    );

    assert_eq!(file.architecture(), Some(Architecture::Arm64));
}

#[test]
fn an_override_comes_before_what_the_url_names() {
    let mut url = parse_installer_url("https://example.com/app-x64.exe").unwrap();
    assert_eq!(
        known_architecture(&url, "app.exe", Some(Architecture::X64)),
        Some(Architecture::X64)
    );
    assert_eq!(known_architecture(&url, "app.appxbundle", Some(Architecture::X64)), None);
    assert_eq!(known_architecture(&url, "app.exe", None), None);
    url.architecture = Some(Architecture::Arm);
    assert_eq!(
        known_architecture(&url, "app.exe", Some(Architecture::X64)),
        Some(Architecture::Arm)
    );
}

#[test]
fn infers_extension_from_magic_bytes() {
    let cases: Vec<(&[u8], &str, &str)> = vec![
        // No extension in the URL, MSI on the wire.
        (
            b"\xD0\xCF\x11\xE0\xA1\xB1\x1A\xE1rest",
            "0.84.1-build.56537",
            "0.84.1-build.56537.msi",
        ),
        (b"MZ\x90\x00", "installer-latest", "installer-latest.exe"),
        // A valid extension is always left as it is, whatever the bytes say.
        (b"MZ\x90\x00", "setup.msi", "setup.msi"),
        // Zip containers are ambiguous between .zip, .msix and .appx, so they are not guessed.
        (b"PK\x03\x04", "bundle-latest", "bundle-latest"),
        (b"not an installer", "mystery", "mystery"),
        // Signatures that are cut short.
        (b"\xD0\xCF\x11\xE0\xA1\xB1\x1A", "mystery", "mystery"),
        (b"M", "mystery", "mystery"),
    ];
    for (bytes, file_name, expected) in cases {
        assert_eq!(infer_extension(file_name.to_owned(), bytes), expected);
    }
}

#[test]
fn infers_extension_from_an_empty_file() {
    assert_eq!(infer_extension("mystery".to_owned(), &[]), "mystery");
}

#[test]
fn hashes_a_local_file() {
    let url = parse_installer_url("https://example.com/a.exe").unwrap();

    let file = DownloadedFile::from_local("dir/a.exe", b"abc", url);

    assert_eq!(file.file_name, "a.exe");
    assert_eq!(
        file.sha_256,
        "BA7816BF8F01CFEA414140DE5DAE2223B00361A396177A9CB410FF61F20015AD"
    );
    assert_eq!(file.last_modified, None);
    assert_eq!(file.url.as_str(), "https://example.com/a.exe");

    let url = parse_installer_url("https://example.com/a.exe").unwrap();
    assert_eq!(DownloadedFile::from_local("..", b"", url).file_name, "..");
}

#[test]
fn a_local_file_is_called_by_the_last_part_of_its_path() {
    for (path, name) in vec![
        ("/usr/bin/", "bin"),
        ("tmp/foo.txt", "foo.txt"),
        ("foo.txt", "foo.txt"),
        ("foo.txt/.", "foo.txt"),
        ("foo.txt/.//", "foo.txt"),
        ("./a.exe", "a.exe"),
        ("dir/..a", "..a"),
        // Paths without a last part.
        ("foo.txt/..", "foo.txt/.."),
        ("/", "/"),
        (".", "."),
        ("./.", "./."),
        ("", ""),
    ] {
        assert_eq!(local_name(path), name, "{path}");
    }
    assert_eq!(name_or_path("dir/a", Some("b".to_owned())), "b");
    assert_eq!(name_or_path("dir/a", None), "dir/a");
}

#[test]
fn the_url_tells_the_architecture_whatever_its_scheme() {
    assert_eq!(architecture_in_url("ftp://example.com/app-arm64.exe"), Some(Architecture::Arm64));
    assert_eq!(architecture_in_url("ftp://example.com/app.exe"), None);
    // A name, an extension or a dot at the start of the text.
    assert_eq!(architecture_in_url("x64"), None);
    assert_eq!(architecture_in_url("exe"), None);
    assert_eq!(architecture_in_url("a.exe"), None);
    assert_eq!(architecture_in_url("arm:/x86/a"), Some(Architecture::X86));
    assert_eq!(architecture_in_url("x64.exe"), Some(Architecture::X64));

    let mut url = parse_installer_url("ftp://example.com/app-arm64.exe").unwrap();
    assert_eq!(
        downloaded_file(url.copy(), "app.exe").architecture(),
        Some(Architecture::Arm64)
    );
    url.architecture = Some(Architecture::X86);
    assert_eq!(downloaded_file(url, "app.exe").architecture(), Some(Architecture::X86));
}

#[test]
fn writes_hashes_in_upper_case() {
    assert_eq!(
        sha256_digest(b""),
        "E3B0C44298FC1C149AFBF4C8996FB92427AE41E4649B934CA495991B7852B855"
    );
    assert_eq!(sha256_digest(&vec![0u8; 20000]).len(), 64);
    assert_eq!(to_hex(&vec![0, 9, 10, 255, 0x1F]), "00090AFF1F");
    assert_eq!(to_hex(&Vec::new()), "");
}

#[test]
fn finds_architectures_in_urls() {
    let cases = vec![
        ("https://example.com/app-x86_64.exe", Some(Architecture::X64)),
        ("https://example.com/i386/app.exe", Some(Architecture::X86)),
        ("https://example.com/app_ARM64.zip", Some(Architecture::Arm64)),
        ("https://example.com/appx64.msi", Some(Architecture::X64)),
        ("https://example.com/app.exe", None),
        ("https://example.com/x64", Some(Architecture::X64)),
    ];
    for (url, expected) in cases {
        assert_eq!(architecture_in_url(url), expected, "{url}");
    }
}
