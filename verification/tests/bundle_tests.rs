//! Tests of candidate choice, run diagnostics, and the bundle run.

use cargo_lichking::bundle::BestChoice;
use cargo_lichking::bundle::FoundTexts;
use cargo_lichking::bundle::LicenseInfo;
use cargo_lichking::bundle::RunDiagnostics;
use cargo_lichking::bundle::choose_text;
use cargo_lichking::bundle::get_lich;
use cargo_lichking::bundle::roots_name;
use cargo_lichking::bundle::run;
use cargo_lichking::discovery::Confidence;
use cargo_lichking::discovery::FileEntry;
use cargo_lichking::discovery::LicenseText;
use cargo_lichking::license::License;
use cargo_lichking::load::Package;

fn text(path: &str, confidence: Confidence) -> LicenseText {
    LicenseText {
        path: String::from(path),
        text: format!("text of {}", path),
        confidence,
    }
}

fn package(id: &str, name: &str, version: &str, license: Option<&str>) -> Package {
    Package {
        id: String::from(id),
        name: String::from(name),
        version: String::from(version),
        license: license.map(String::from),
        license_file: None,
    }
}

fn entry(name: &str, text: Option<&str>) -> FileEntry {
    FileEntry {
        name: String::from(name),
        path: format!("/pkg/{}", name),
        text: text.map(String::from),
    }
}

#[test]
fn choose_single_confident() {
    let (best, info) = choose_text(vec![text("a", Confidence::Confident)]);
    assert_eq!(info, LicenseInfo::Confident);
    match best {
        BestChoice::Single(t) => assert_eq!(t.path, "a"),
        _ => panic!("expected a single choice"),
    }
}

#[test]
fn choose_two_confident_keeps_first_as_representative() {
    // Two confident candidates: ambiguity is recorded, but the tier is
    // still confident and the first by discovery order is the
    // representative; the low-quality flag stays untouched.
    let (best, info) = choose_text(vec![
        text("first", Confidence::Confident),
        text("second", Confidence::Confident),
    ]);
    assert_eq!(info, LicenseInfo::Confident);
    let mut diag = RunDiagnostics::new();
    diag.record_choice(&best, info);
    match best {
        BestChoice::Multiple(ts) => {
            assert_eq!(ts.len(), 2);
            assert_eq!(ts[0].path, "first");
        }
        _ => panic!("expected the ambiguous candidates to be kept"),
    }
    assert_eq!(diag.issues, vec![LicenseInfo::MultiplePossibleLicenseFiles]);
    assert!(!diag.low_quality_license);
    assert!(!diag.missing_license);
}

#[test]
fn choose_prefers_higher_tier() {
    let (best, info) = choose_text(vec![
        text("bad", Confidence::Unsure),
        text("good", Confidence::SemiConfident),
        text("other", Confidence::NoTemplate),
    ]);
    assert_eq!(info, LicenseInfo::SemiConfident);
    match best {
        BestChoice::Single(t) => assert_eq!(t.path, "good"),
        _ => panic!("expected a single choice"),
    }
}

#[test]
fn choose_ambiguous_low_tier_sets_low_quality() {
    let (best, info) = choose_text(vec![
        text("one", Confidence::Unsure),
        text("two", Confidence::Unsure),
    ]);
    assert_eq!(info, LicenseInfo::Unsure);
    let mut diag = RunDiagnostics::new();
    diag.record_choice(&best, info);
    assert!(diag.low_quality_license);
    assert!(!diag.missing_license);
    assert_eq!(diag.issues, vec![LicenseInfo::MultiplePossibleLicenseFiles]);
}

#[test]
fn choose_nothing_marks_missing() {
    // No candidates at all: the result is absent and the run records a
    // missing license.
    let (best, info) = choose_text(vec![]);
    assert!(matches!(best, BestChoice::Absent));
    assert_eq!(info, LicenseInfo::MissingLicenseFile);
    let mut diag = RunDiagnostics::new();
    diag.record_choice(&best, info);
    assert!(diag.missing_license);
    assert!(!diag.low_quality_license);
    assert_eq!(diag.issues, vec![LicenseInfo::MissingLicenseFile]);
}

#[test]
fn diagnostics_flags_are_monotonic() {
    let mut diag = RunDiagnostics::new();
    diag.record_choice(&BestChoice::Absent, LicenseInfo::MissingLicenseFile);
    assert!(diag.missing_license);
    // A later clean choice does not reset the flag.
    diag.record_choice(
        &BestChoice::Single(text("a", Confidence::Confident)),
        LicenseInfo::Confident,
    );
    assert!(diag.missing_license);
}

#[test]
fn get_lich_unspecified_license() {
    let pkg = package("p1", "p1", "1.0.0", None);
    let mut diag = RunDiagnostics::new();
    let lich = get_lich(&pkg, &vec![], &mut diag);
    assert_eq!(lich.license, License::Unspecified);
    assert!(matches!(
        lich.texts,
        FoundTexts::Single(BestChoice::Absent, LicenseInfo::UnspecifiedLicenseInPackage)
    ));
    assert_eq!(diag.issues, vec![LicenseInfo::UnspecifiedLicenseInPackage]);
    assert!(!diag.missing_license);
}

#[test]
fn get_lich_single_license_with_text() {
    let pkg = package("p1", "p1", "1.0.0", Some("MIT"));
    let entries = vec![entry("LICENSE-MIT", License::MIT.template())];
    let mut diag = RunDiagnostics::new();
    let lich = get_lich(&pkg, &entries, &mut diag);
    assert_eq!(lich.license, License::MIT);
    match lich.texts {
        FoundTexts::Single(BestChoice::Single(t), LicenseInfo::Confident) => {
            assert_eq!(t.path, "/pkg/LICENSE-MIT");
        }
        _ => panic!("expected one confident text"),
    }
    assert!(!diag.missing_license);
}

#[test]
fn get_lich_multiple_license_aligns_members() {
    let pkg = package("p1", "p1", "1.0.0", Some("MIT/Apache-2.0"));
    let entries = vec![entry("LICENSE-MIT", License::MIT.template())];
    let mut diag = RunDiagnostics::new();
    let lich = get_lich(&pkg, &entries, &mut diag);
    match lich.texts {
        FoundTexts::Multiple(choices) => {
            assert_eq!(choices.len(), 2);
            // Member order is the canonical order: MIT first.
            assert!(matches!(choices[0].1, LicenseInfo::Confident));
            assert!(matches!(choices[1].1, LicenseInfo::MissingLicenseFile));
        }
        _ => panic!("expected one choice per member"),
    }
    assert!(diag.missing_license);
}

#[test]
fn roots_name_formats() {
    let one = vec![package("a", "alpha", "1", None)];
    assert_eq!(roots_name(&one), "alpha package");
    let two = vec![
        package("a", "alpha", "1", None),
        package("b", "beta", "1", None),
    ];
    assert_eq!(roots_name(&two), "alpha and beta packages");
    let three = vec![
        package("a", "alpha", "1", None),
        package("b", "beta", "1", None),
        package("c", "gamma", "1", None),
    ];
    assert_eq!(roots_name(&three), "alpha, beta and gamma packages");
}

#[test]
fn run_sorts_by_name_then_version() {
    let roots = vec![package("r", "root", "1", Some("MIT"))];
    let packages = vec![
        (package("b", "beta", "1.0.0", Some("MIT")), vec![]),
        (package("a2", "alpha", "1.2.0", Some("MIT")), vec![]),
        (package("a1", "alpha", "1.1.0", Some("MIT")), vec![]),
    ];
    let report = run(&roots, packages);
    assert_eq!(report.roots_name, "root package");
    let names: Vec<(String, String)> = report
        .liches
        .iter()
        .map(|l| (l.package.name.clone(), l.package.version.clone()))
        .collect();
    assert_eq!(
        names,
        vec![
            (String::from("alpha"), String::from("1.1.0")),
            (String::from("alpha"), String::from("1.2.0")),
            (String::from("beta"), String::from("1.0.0")),
        ]
    );
    // No texts were found anywhere, so the run failed with missing
    // licenses.
    assert!(report.diagnostics.missing_license);
    assert!(report.failed());
}

#[test]
fn run_with_texts_succeeds() {
    let roots = vec![package("r", "root", "1", Some("MIT"))];
    let packages = vec![(
        package("p", "pkg", "1.0.0", Some("MIT")),
        vec![entry("LICENSE-MIT", License::MIT.template())],
    )];
    let report = run(&roots, packages);
    assert!(!report.diagnostics.missing_license);
    assert!(!report.diagnostics.low_quality_license);
    assert!(!report.failed());
    assert_eq!(report.liches.len(), 1);
}
