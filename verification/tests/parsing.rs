use version_check::version_and_date_from_rustc_verbose_version;
use version_check::version_and_date_from_rustc_version;

fn check_parse(s: &str, expected_version: &str, expected_date: Option<&str>) {
    if let (Some(v), d) = version_and_date_from_rustc_version(s) {
        let e_d: Option<&str> = expected_date;
        assert_eq!((v, d), (expected_version.to_string(), e_d.map(|s| s.to_string())));
    } else {
        panic!("{:?} didn't parse for version testing.", s);
    }
}

#[test]
fn test_version_parse() {
    check_parse("rustc 1.18.0", "1.18.0", None);
    check_parse("rustc 1.8.0", "1.8.0", None);
    check_parse("rustc 1.20.0-nightly", "1.20.0-nightly", None);
    check_parse("rustc 1.20", "1.20", None);
    check_parse("rustc 1.3", "1.3", None);
    check_parse("rustc 1", "1", None);
    check_parse("rustc 1.5.1-beta", "1.5.1-beta", None);

    check_parse("rustc 1.20.0 (2017-07-09)", "1.20.0", Some("2017-07-09"));

    check_parse("rustc 1.20.0-dev (2017-07-09)", "1.20.0-dev", Some("2017-07-09"));

    check_parse(
        "rustc 1.20.0-nightly (d84693b93 2017-07-09)",
        "1.20.0-nightly",
        Some("2017-07-09"),
    );

    check_parse("rustc 1.20.0 (d84693b93 2017-07-09)", "1.20.0", Some("2017-07-09"));

    check_parse(
        "warning: invalid logging spec 'warning', ignoring it
                      rustc 1.30.0-nightly (3bc2ca7e4 2018-09-20)",
        "1.30.0-nightly",
        Some("2018-09-20"),
    );

    check_parse(
        "warning: invalid logging spec 'warning', ignoring it\n
                      rustc 1.30.0-nightly (3bc2ca7e4 2018-09-20)",
        "1.30.0-nightly",
        Some("2018-09-20"),
    );

    check_parse(
        "warning: invalid logging spec 'warning', ignoring it
                      warning: something else went wrong
                      rustc 1.30.0-nightly (3bc2ca7e4 2018-09-20)",
        "1.30.0-nightly",
        Some("2018-09-20"),
    );
}

#[test]
fn test_verbose_version_parse() {
    let mut versions = vec![];

    versions.push((
        "\
rustc 1.0.0 (a59de37e9 2015-05-13) (built 2015-05-14)
binary: rustc
commit-hash: a59de37e99060162a2674e3ff45409ac73595c0e
commit-date: 2015-05-13
build-date: 2015-05-14
host: x86_64-unknown-linux-gnu
release: 1.0.0
",
        "1.0.0",
        Some("2015-05-13"),
    ));

    versions.push((
        "\
rustc 1.50.0 (cb75ad5db 2021-02-10)
binary: rustc
commit-hash: cb75ad5db02783e8b0222fee363c5f63f7e2cf5b
commit-date: 2021-02-10
host: x86_64-unknown-linux-gnu
release: 1.50.0
",
        "1.50.0",
        Some("2021-02-10"),
    ));

    versions.push((
        "\
rustc 1.52.0-nightly (234781afe 2021-03-07)
binary: rustc
commit-hash: 234781afe33d3f339b002f85f948046d8476cfc9
commit-date: 2021-03-07
host: x86_64-unknown-linux-gnu
release: 1.52.0-nightly
LLVM version: 12.0.0
",
        "1.52.0-nightly",
        Some("2021-03-07"),
    ));

    versions.push((
        "\
rustc 1.41.1
binary: rustc
commit-hash: unknown
commit-date: unknown
host: x86_64-unknown-linux-gnu
release: 1.41.1
LLVM version: 7.0
",
        "1.41.1",
        None,
    ));

    versions.push((
        "\
rustc 1.49.0
binary: rustc
commit-hash: unknown
commit-date: unknown
host: x86_64-unknown-linux-gnu
release: 1.49.0
",
        "1.49.0",
        None,
    ));

    versions.push((
        "\
rustc 1.50.0 (Fedora 1.50.0-1.fc33)
binary: rustc
commit-hash: unknown
commit-date: unknown
host: x86_64-unknown-linux-gnu
release: 1.50.0
",
        "1.50.0",
        None,
    ));

    // Now compare what we parse to expected values
    for (s, expected_version, expected_date) in versions {
        if let (Some(version), date) = version_and_date_from_rustc_verbose_version(s) {
            assert_eq!(version, expected_version);
            assert_eq!(date.as_ref().map(|d| &**d), expected_date);
        } else {
            panic!("{:?} didn't parse for version testing.", s);
        }

        // Throw in a few warning lines
        let warnings = "\
warning: invalid logging spec 'warning', ignoring it
warning: something else went wrong
";
        let w = format!("{}{}", warnings, s);
        if let (Some(version), date) = version_and_date_from_rustc_verbose_version(&w) {
            assert_eq!(version, expected_version);
            assert_eq!(date.as_ref().map(|d| &**d), expected_date);
        } else {
            panic!("{:?} didn't parse for version testing.", s);
        }
    }
}
