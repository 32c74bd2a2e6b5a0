use version_check::Channel;
use version_check::Date;
use version_check::Version;
use version_check::is_exact_date;
use version_check::is_exact_version;
use version_check::is_feature_flaggable;
use version_check::is_max_date;
use version_check::is_max_version;
use version_check::is_min_date;
use version_check::is_min_version;
use version_check::triple;

const VERBOSE_STABLE: &str = "\
rustc 1.50.0 (cb75ad5db 2021-02-10)
binary: rustc
commit-date: 2021-02-10
release: 1.50.0
";

#[test]
fn version_ordering_is_numeric() {
    let a = Version::parse("1.9.0").unwrap();
    let b = Version::parse("1.10.0").unwrap();
    assert!(a < b);
    assert!(b > a);
    assert!(a <= a);
    assert_eq!(a, Version::parse("1.9.0").unwrap());
    assert!(Version::parse("0.9.9").unwrap() < Version::parse("1.0.0").unwrap());
    assert!(Version::parse("1.2.3").unwrap() < Version::parse("1.2.4").unwrap());
}

#[test]
fn version_parse_shapes() {
    let v = Version::parse("1.18.0").unwrap();
    assert_eq!((v.major, v.minor, v.patch), (1, 18, 0));
    let v = Version::parse("1.20.0-nightly").unwrap();
    assert_eq!((v.major, v.minor, v.patch), (1, 20, 0));
    // two numeric components are not enough
    assert_eq!(Version::parse("1.20"), None);
    assert_eq!(Version::parse(""), None);
    assert_eq!(Version::parse("one.two.three"), None);
    // a fourth numeric component is one too many
    assert_eq!(Version::parse("1.2.3.4"), None);
    // non-numeric tokens are passed over, numeric ones are kept
    assert_eq!(Version::parse("1.x.2.3"), Some(Version { major: 1, minor: 2, patch: 3 }));
    // a component beyond 16 bits does not count as numeric
    assert_eq!(Version::parse("1.70000.0"), None);
    assert_eq!(
        Version::parse("65535.65535.65535"),
        Some(Version { major: 65535, minor: 65535, patch: 65535 })
    );
}

#[test]
fn date_ordering_is_chronological() {
    let a = Date::parse("2016-12-18").unwrap();
    let b = Date::parse("2017-01-09").unwrap();
    assert!(a < b);
    assert!(b >= a);
    assert_eq!(a, Date::parse("2016-12-18").unwrap());
    assert_eq!((b.year, b.month, b.day), (2017, 1, 9));
}

#[test]
fn date_parse_shapes() {
    assert_eq!(Date::parse("not-a-date"), None);
    assert_eq!(Date::parse("2021-02"), None);
    assert_eq!(Date::parse("2021-02-10-11"), None);
    assert_eq!(Date::parse("70000-01-02"), None);
    assert_eq!(Date::parse("2021-300-10"), None);
    assert_eq!(Date::parse("2021-02-10"), Some(Date { year: 2021, month: 2, day: 10 }));
}

#[test]
fn channel_classification() {
    let nightly = Channel::parse("1.20.0-nightly").unwrap();
    assert_eq!(nightly, Channel::Nightly);
    assert!(nightly.supports_features());
    assert!(!nightly.is_stable());

    let beta = Channel::parse("1.20.0-beta").unwrap();
    assert_eq!(beta, Channel::Beta);
    assert!(!beta.supports_features());
    assert!(!beta.is_stable());

    let stable = Channel::parse("1.20.0").unwrap();
    assert_eq!(stable, Channel::Stable);
    assert!(!stable.supports_features());
    assert!(stable.is_stable());

    let dev = Channel::parse("1.20.0-dev").unwrap();
    assert_eq!(dev, Channel::Dev);
    assert!(dev.supports_features());
    assert!(!dev.is_stable());

    assert_eq!(Channel::Stable.name(), "stable");
    assert_eq!(Channel::Beta.name(), "beta");
    assert_eq!(Channel::Nightly.name(), "nightly");
    assert_eq!(Channel::Dev.name(), "dev");

    // nightly wins over beta and dev when several tags occur
    assert_eq!(Channel::parse("1.20.0-beta-nightly").unwrap(), Channel::Nightly);
}

#[test]
fn end_to_end_stable_triple() {
    let out = Some(VERBOSE_STABLE);
    let (version, channel, date) = triple(out).unwrap();
    assert_eq!(version, Version { major: 1, minor: 50, patch: 0 });
    assert_eq!(channel, Channel::Stable);
    assert_eq!(date, Date { year: 2021, month: 2, day: 10 });
    assert_eq!(is_min_version(out, "1.49.0"), Some(true));
    assert_eq!(is_max_date(out, "2020-01-01"), Some(false));
}

#[test]
fn queries_on_stable_output() {
    let out = Some(VERBOSE_STABLE);
    assert_eq!(is_min_version(out, "1.50.0"), Some(true));
    assert_eq!(is_min_version(out, "1.50.1"), Some(false));
    assert_eq!(is_max_version(out, "1.50.0"), Some(true));
    assert_eq!(is_max_version(out, "1.49.9"), Some(false));
    assert_eq!(is_exact_version(out, "1.50.0"), Some(true));
    assert_eq!(is_exact_version(out, "1.50.1"), Some(false));
    assert_eq!(is_min_date(out, "2021-02-10"), Some(true));
    assert_eq!(is_min_date(out, "2021-02-11"), Some(false));
    assert_eq!(is_max_date(out, "2021-02-10"), Some(true));
    assert_eq!(is_exact_date(out, "2021-02-10"), Some(true));
    assert_eq!(is_exact_date(out, "2021-02-09"), Some(false));
    assert_eq!(is_feature_flaggable(out), Some(false));
}

#[test]
fn malformed_bounds_give_absent() {
    let out = Some(VERBOSE_STABLE);
    assert_eq!(is_min_version(out, "1.20"), None);
    assert_eq!(is_max_version(out, "not-a-version"), None);
    assert_eq!(is_exact_version(out, ""), None);
    assert_eq!(is_min_date(out, "not-a-date"), None);
    assert_eq!(is_max_date(out, "2021-02"), None);
    assert_eq!(is_exact_date(out, "yesterday"), None);
}

#[test]
fn absent_output_gives_absent() {
    assert_eq!(triple(None), None);
    assert_eq!(is_min_version(None, "1.0.0"), None);
    assert_eq!(is_max_version(None, "1.0.0"), None);
    assert_eq!(is_exact_version(None, "1.0.0"), None);
    assert_eq!(is_min_date(None, "2021-02-10"), None);
    assert_eq!(is_max_date(None, "2021-02-10"), None);
    assert_eq!(is_exact_date(None, "2021-02-10"), None);
    assert_eq!(is_feature_flaggable(None), None);
    assert_eq!(Version::read(None), None);
    assert_eq!(Date::read(None), None);
    assert_eq!(Channel::read(None), None);
}

#[test]
fn reads_from_verbose_output() {
    let out = Some(VERBOSE_STABLE);
    assert_eq!(Version::read(out), Some(Version { major: 1, minor: 50, patch: 0 }));
    assert_eq!(Date::read(out), Some(Date { year: 2021, month: 2, day: 10 }));
    assert_eq!(Channel::read(out), Some(Channel::Stable));

    let nightly = "\
rustc 1.52.0-nightly (234781afe 2021-03-07)
release: 1.52.0-nightly
commit-date: 2021-03-07
";
    assert_eq!(Channel::read(Some(nightly)), Some(Channel::Nightly));
    assert_eq!(is_feature_flaggable(Some(nightly)), Some(true));

    // an unknown commit date clears the header's date and fails the triple
    let unknown = "\
rustc 1.41.1 (f3e1a954d 2020-02-24)
commit-date: unknown
release: 1.41.1
";
    assert_eq!(Date::read(Some(unknown)), None);
    assert_eq!(triple(Some(unknown)), None);
    assert_eq!(Version::read(Some(unknown)), Some(Version { major: 1, minor: 41, patch: 1 }));

    // a release line overrides the header's version
    let overridden = "\
rustc 1.49.0 (e1884a8e3 2020-12-29)
release: 1.50.0
commit-date: 2020-12-29
";
    assert_eq!(Version::read(Some(overridden)), Some(Version { major: 1, minor: 50, patch: 0 }));
}
