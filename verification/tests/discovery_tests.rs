//! Tests of word-frequency scoring and license-text discovery.

use cargo_lichking::discovery::Confidence;
use cargo_lichking::discovery::FileEntry;
use cargo_lichking::discovery::better_find;
use cargo_lichking::discovery::calculate_frequency;
use cargo_lichking::discovery::check_against_template;
use cargo_lichking::discovery::compare;
use cargo_lichking::discovery::find_generic_license_text;
use cargo_lichking::discovery::find_license_text;
use cargo_lichking::discovery::generic_license_name;
use cargo_lichking::discovery::name_matches;
use cargo_lichking::license::License;

fn entry(name: &str, text: Option<&str>) -> FileEntry {
    FileEntry {
        name: String::from(name),
        path: format!("/pkg/{}", name),
        text: text.map(String::from),
    }
}

#[test]
fn frequency_counts_lowercased_words() {
    let f = calculate_frequency("Hello hello WORLD world world");
    assert_eq!(f.count_of(&String::from("hello")), 2);
    assert_eq!(f.count_of(&String::from("world")), 3);
    assert_eq!(f.count_of(&String::from("absent")), 0);
    assert!(f.contains_word(&String::from("hello")));
    assert!(!f.contains_word(&String::from("Hello")));
    assert_eq!(f.entry_count(), 2);
}

#[test]
fn frequency_words_are_alphanumeric_runs() {
    let f = calculate_frequency("one,two;three_four 5x");
    assert_eq!(f.count_of(&String::from("one")), 1);
    assert_eq!(f.count_of(&String::from("two")), 1);
    // An underscore is a word character, so it joins a single word.
    assert_eq!(f.count_of(&String::from("three_four")), 1);
    assert_eq!(f.count_of(&String::from("5x")), 1);
}

#[test]
fn compare_counts_differences_and_leftovers() {
    // template: a a b; text: a c c
    let text = calculate_frequency("a c c");
    let template = calculate_frequency("a a b");
    // |1-2| for a, |0-1| for b, plus 2 leftover for c.
    assert_eq!(compare(text, &template), 4);
}

#[test]
fn compare_identical_is_zero() {
    let text = calculate_frequency("alpha beta alpha");
    let template = calculate_frequency("beta alpha alpha");
    assert_eq!(compare(text, &template), 0);
}

#[test]
fn identical_text_is_confident() {
    // A candidate identical to its template scores zero errors.
    let t = License::MIT.template().unwrap();
    assert_eq!(check_against_template(t, &License::MIT), Confidence::Confident);
}

#[test]
fn disjoint_text_is_unsure() {
    // A candidate sharing no word with the template scores at least the
    // whole template total.
    assert_eq!(
        check_against_template("zzyzx plugh xyzzy", &License::MIT),
        Confidence::Unsure
    );
}

#[test]
fn missing_template_is_no_template() {
    assert_eq!(
        check_against_template("anything at all", &License::Custom(String::from("Foo"))),
        Confidence::NoTemplate
    );
    assert_eq!(
        check_against_template("anything at all", &License::X11),
        Confidence::NoTemplate
    );
}

#[test]
fn multiple_pools_member_templates() {
    // The candidate holding both members' templates matches the pooled
    // word bag exactly.
    let mit = License::MIT.template().unwrap();
    let zlib = License::Zlib.template().unwrap();
    let both = format!("{} {}", mit, zlib);
    let license = License::Multiple(vec![License::MIT, License::Zlib]);
    assert_eq!(check_against_template(&both, &license), Confidence::Confident);
}

#[test]
fn multiple_without_member_template_is_no_template() {
    let license = License::Multiple(vec![License::MIT, License::X11]);
    assert_eq!(
        check_against_template(License::MIT.template().unwrap(), &license),
        Confidence::NoTemplate
    );
}

#[test]
fn generic_names_ignore_case() {
    assert!(generic_license_name("LICENSE"));
    assert!(generic_license_name("license"));
    assert!(generic_license_name("LiCeNcE"));
    assert!(generic_license_name("license.md"));
    assert!(generic_license_name("LICENSE.TXT"));
    assert!(!generic_license_name("LICENSE-MIT"));
    assert!(!generic_license_name("README"));
}

#[test]
fn name_matches_by_slug_synonym() {
    assert!(name_matches("MIT", &License::MIT));
    assert!(name_matches("LICENSE-MIT", &License::MIT));
    assert!(name_matches("LICENSE-MIT.txt", &License::MIT));
    assert!(!name_matches("LICENSE-APACHE", &License::MIT));
    assert!(name_matches("LICENSE-APACHE", &License::Apache_2_0));
    assert!(name_matches("apache-2.0", &License::Apache_2_0));
}

#[test]
fn name_matches_custom_by_its_own_slug() {
    let custom = License::Custom(String::from("Beerware"));
    assert!(name_matches("BEERWARE", &custom));
    assert!(name_matches("LICENSE-beerware", &custom));
    assert!(!name_matches("LICENSE-MIT", &custom));
}

#[test]
fn better_find_collects_matching_files() {
    let mit = License::MIT.template().unwrap();
    let entries = vec![
        entry("README.md", Some("nothing here")),
        entry("LICENSE-MIT", Some(mit)),
    ];
    let found = better_find(&entries, &License::MIT);
    assert_eq!(found.len(), 1);
    assert_eq!(found[0].path, "/pkg/LICENSE-MIT");
    assert_eq!(found[0].confidence, Confidence::Confident);
}

#[test]
fn better_find_skips_unreadable_files() {
    let entries = vec![entry("LICENSE-MIT", None)];
    let found = better_find(&entries, &License::MIT);
    assert_eq!(found.len(), 0);
}

#[test]
fn better_find_falls_back_to_generic() {
    let mit = License::MIT.template().unwrap();
    let entries = vec![
        entry("README.md", Some("nothing")),
        entry("LICENSE", Some(mit)),
    ];
    let found = better_find(&entries, &License::MIT);
    assert_eq!(found.len(), 1);
    assert_eq!(found[0].path, "/pkg/LICENSE");
    assert_eq!(found[0].confidence, Confidence::Confident);
}

#[test]
fn better_find_last_generic_wins() {
    let entries = vec![
        entry("LICENSE", Some("first body")),
        entry("LICENCE", Some("second body")),
    ];
    let found = better_find(&entries, &License::MIT);
    assert_eq!(found.len(), 1);
    assert_eq!(found[0].path, "/pkg/LICENCE");
    assert_eq!(found[0].text, "second body");
}

#[test]
fn better_find_prefers_specific_over_generic() {
    let entries = vec![
        entry("LICENSE", Some("generic body")),
        entry("LICENSE-MIT", Some("specific body")),
    ];
    let found = better_find(&entries, &License::MIT);
    assert_eq!(found.len(), 1);
    assert_eq!(found[0].path, "/pkg/LICENSE-MIT");
}

#[test]
fn find_license_text_matches_exact_names_only() {
    let entries = vec![
        entry("MIT", Some("body one")),
        entry("LICENSE-MIT", Some("body two")),
        entry("LICENSE-MIT.txt", Some("body three")),
    ];
    let found = find_license_text(&entries, &License::MIT);
    assert_eq!(found.len(), 2);
    assert_eq!(found[0].path, "/pkg/MIT");
    assert_eq!(found[1].path, "/pkg/LICENSE-MIT");
}

#[test]
fn find_license_text_apache_answers_to_license_apache() {
    let entries = vec![
        entry("LICENSE-APACHE", Some("body")),
        entry("APACHE-2.0", Some("other")),
    ];
    let found = find_license_text(&entries, &License::Apache_2_0);
    assert_eq!(found.len(), 1);
    assert_eq!(found[0].path, "/pkg/LICENSE-APACHE");
}

#[test]
fn find_generic_license_text_takes_first_readable() {
    let entries = vec![
        entry("LICENSE", None),
        entry("LICENCE", Some("body")),
        entry("LICENSE.TXT", Some("later body")),
    ];
    let found = find_generic_license_text(&entries, &License::MIT).unwrap();
    assert_eq!(found.path, "/pkg/LICENCE");
    let none = find_generic_license_text(&vec![entry("README", Some("x"))], &License::MIT);
    assert!(none.is_none());
}
