//! Tests of license parsing, display, synonyms, templates, and the
//! compatibility oracle.

use cargo_lichking::Compat;
use cargo_lichking::license::License;
use cargo_lichking::options::By;

#[test]
fn parse_canonical_identifiers() {
    assert_eq!(License::parse("MIT"), License::MIT);
    assert_eq!(License::parse("Unlicense"), License::Unlicense);
    assert_eq!(License::parse("0BSD"), License::BSD_0_Clause);
    assert_eq!(License::parse("CC0-1.0"), License::CC0_1_0);
    assert_eq!(License::parse("X11"), License::X11);
    assert_eq!(License::parse("BSD-2-Clause"), License::BSD_2_Clause);
    assert_eq!(License::parse("BSD-3-Clause"), License::BSD_3_Clause);
    assert_eq!(License::parse("Apache-2.0"), License::Apache_2_0);
    assert_eq!(
        License::parse("Apache-2.0 WITH LLVM-exception"),
        License::Apache_2_0_WITH_LLVM_exception
    );
    assert_eq!(License::parse("MPL-1.1"), License::MPL_1_1);
    assert_eq!(License::parse("MPL-2.0"), License::MPL_2_0);
    assert_eq!(License::parse("Zlib"), License::Zlib);
}

#[test]
fn parse_aliases() {
    assert_eq!(License::parse("GPL-2.0"), License::GPL_2_0);
    assert_eq!(License::parse("GPL-2.0-only"), License::GPL_2_0);
    assert_eq!(License::parse("GPL-2.0+"), License::GPL_2_0Plus);
    assert_eq!(License::parse("GPL-2.0-or-later"), License::GPL_2_0Plus);
    assert_eq!(License::parse("GPL-3.0"), License::GPL_3_0);
    assert_eq!(License::parse("GPL-3.0-or-later"), License::GPL_3_0Plus);
    assert_eq!(License::parse("LGPL-2.0"), License::LGPL_2_0);
    assert_eq!(License::parse("LGPL-2.1+"), License::LGPL_2_1Plus);
    assert_eq!(License::parse("LGPL-3.0-only"), License::LGPL_3_0);
    assert_eq!(License::parse("AGPL-3.0"), License::AGPL_3_0);
    assert_eq!(License::parse("AGPL-3.0-or-later"), License::AGPL_3_0Plus);
}

#[test]
fn parse_trims_whitespace() {
    assert_eq!(License::parse("  MIT  "), License::MIT);
    assert_eq!(License::parse("\tZlib\n"), License::Zlib);
}

#[test]
fn parse_empty_is_unspecified() {
    assert_eq!(License::parse(""), License::Unspecified);
    assert_eq!(License::parse("   "), License::Unspecified);
}

#[test]
fn parse_unknown_is_custom() {
    assert_eq!(
        License::parse("Beerware"),
        License::Custom(String::from("Beerware"))
    );
    assert_eq!(
        License::parse("  WTFPL "),
        License::Custom(String::from("WTFPL"))
    );
}

#[test]
fn parse_slash_expression() {
    let l = License::parse("MIT/Apache-2.0");
    assert_eq!(
        l,
        License::Multiple(vec![License::MIT, License::Apache_2_0])
    );
}

#[test]
fn parse_expression_order_is_canonical() {
    // Whatever order the input lists the members in, the result is the
    // fixed canonical order.
    let a = License::parse("Apache-2.0/MIT");
    let b = License::parse("MIT/Apache-2.0");
    assert_eq!(a, b);
    assert_eq!(
        a,
        License::Multiple(vec![License::MIT, License::Apache_2_0])
    );
}

#[test]
fn parse_or_expression() {
    let l = License::parse("MIT OR Apache-2.0");
    assert_eq!(
        l,
        License::Multiple(vec![License::MIT, License::Apache_2_0])
    );
}

#[test]
fn parse_mixed_separators() {
    let l = License::parse("Zlib/MIT OR Apache-2.0");
    assert_eq!(
        l,
        License::Multiple(vec![License::MIT, License::Apache_2_0, License::Zlib])
    );
}

#[test]
fn parse_keeps_duplicate_members() {
    let l = License::parse("MIT/MIT");
    assert_eq!(l, License::Multiple(vec![License::MIT, License::MIT]));
}

#[test]
fn display_canonical_strings() {
    assert_eq!(License::MIT.display(), "MIT");
    assert_eq!(License::BSD_0_Clause.display(), "0BSD");
    assert_eq!(License::LGPL_2_0.display(), "LGPL-2.0-only");
    assert_eq!(License::GPL_3_0Plus.display(), "GPL-3.0-or-later");
    assert_eq!(
        License::Apache_2_0_WITH_LLVM_exception.display(),
        "Apache-2.0 WITH LLVM-exception"
    );
}

#[test]
fn display_special_cases() {
    assert_eq!(
        License::Custom(String::from("Beerware")).display(),
        "Beerware"
    );
    assert_eq!(
        License::File(String::from("COPYING")).display(),
        "License specified in file (COPYING)"
    );
    assert_eq!(License::Unspecified.display(), "No license specified");
    assert_eq!(
        License::Multiple(vec![License::MIT, License::Apache_2_0]).display(),
        "MIT / Apache-2.0"
    );
}

#[test]
fn display_parse_round_trip() {
    let all = vec![
        License::Unlicense,
        License::BSD_0_Clause,
        License::CC0_1_0,
        License::MIT,
        License::X11,
        License::BSD_2_Clause,
        License::BSD_3_Clause,
        License::Apache_2_0,
        License::Apache_2_0_WITH_LLVM_exception,
        License::LGPL_2_0,
        License::LGPL_2_1,
        License::LGPL_2_1Plus,
        License::LGPL_3_0,
        License::LGPL_3_0Plus,
        License::MPL_1_1,
        License::MPL_2_0,
        License::GPL_2_0,
        License::GPL_2_0Plus,
        License::GPL_3_0,
        License::GPL_3_0Plus,
        License::AGPL_3_0,
        License::AGPL_3_0Plus,
        License::Zlib,
    ];
    for l in all {
        let shown = l.display();
        let back = License::parse(&shown);
        assert_eq!(back, l);
        assert_eq!(back.display(), shown);
    }
}

#[test]
fn can_include_reflexive_permissive() {
    assert_eq!(License::MIT.can_include(&License::MIT), Compat::Yes);
}

#[test]
fn can_include_refuses_copyleft_under_permissive() {
    assert_eq!(License::MIT.can_include(&License::GPL_3_0), Compat::No);
}

#[test]
fn can_include_permissive_under_copyleft() {
    assert_eq!(License::GPL_3_0Plus.can_include(&License::MIT), Compat::Yes);
}

#[test]
fn can_include_custom_is_unknown() {
    let custom = License::Custom(String::from("Foo"));
    assert_eq!(custom.can_include(&License::MIT), Compat::Unknown);
    assert_eq!(License::MIT.can_include(&custom), Compat::Unknown);
}

#[test]
fn can_include_file_is_unknown() {
    let file = License::File(String::from("COPYING"));
    assert_eq!(License::MIT.can_include(&file), Compat::Unknown);
    assert_eq!(file.can_include(&License::MIT), Compat::Unknown);
}

#[test]
fn can_include_unspecified_dependency_is_refused() {
    assert_eq!(
        License::MIT.can_include(&License::Unspecified),
        Compat::No
    );
    assert_eq!(
        License::Custom(String::from("Foo")).can_include(&License::Unspecified),
        Compat::No
    );
    assert_eq!(
        License::Unspecified.can_include(&License::Unspecified),
        Compat::No
    );
}

#[test]
fn can_include_unspecified_consumer_takes_most_permissive() {
    assert_eq!(License::Unspecified.can_include(&License::MIT), Compat::Yes);
    assert_eq!(
        License::Unspecified.can_include(&License::Apache_2_0),
        Compat::No
    );
}

#[test]
fn can_include_multiple_consumer_is_conjunctive() {
    // AND semantics: the MIT member cannot include GPL-2.0, so the whole
    // expression cannot.
    let consumer = License::Multiple(vec![License::MIT, License::Apache_2_0]);
    assert_eq!(consumer.can_include(&License::GPL_2_0), Compat::No);
}

#[test]
fn can_include_multiple_dependency_is_disjunctive() {
    // OR semantics: the MIT member suffices.
    let dep = License::Multiple(vec![License::GPL_2_0, License::MIT]);
    assert_eq!(License::MIT.can_include(&dep), Compat::Yes);
}

#[test]
fn can_include_lgpl_2_0_is_unknown() {
    assert_eq!(License::LGPL_2_0.can_include(&License::MIT), Compat::Unknown);
    assert_eq!(License::GPL_3_0.can_include(&License::LGPL_2_0), Compat::Unknown);
}

#[test]
fn can_include_lattice_spot_checks() {
    assert_eq!(License::Apache_2_0.can_include(&License::Apache_2_0), Compat::Yes);
    assert_eq!(License::Apache_2_0.can_include(&License::MPL_2_0), Compat::No);
    assert_eq!(License::MPL_2_0.can_include(&License::Apache_2_0), Compat::Yes);
    assert_eq!(License::GPL_2_0.can_include(&License::Apache_2_0), Compat::No);
    assert_eq!(License::GPL_3_0.can_include(&License::Apache_2_0), Compat::Yes);
    assert_eq!(License::AGPL_3_0.can_include(&License::GPL_3_0), Compat::Yes);
    assert_eq!(License::GPL_3_0.can_include(&License::AGPL_3_0), Compat::No);
}

#[test]
fn can_include_outside_tier_consumers_admit_mit_only() {
    assert_eq!(License::Zlib.can_include(&License::MIT), Compat::Yes);
    assert_eq!(License::Zlib.can_include(&License::X11), Compat::No);
    assert_eq!(
        License::Apache_2_0_WITH_LLVM_exception.can_include(&License::MIT),
        Compat::Yes
    );
    assert_eq!(
        License::Apache_2_0_WITH_LLVM_exception.can_include(&License::Apache_2_0),
        Compat::No
    );
}

#[test]
fn template_subset() {
    assert!(License::Unlicense.template().is_some());
    assert!(License::MIT.template().is_some());
    assert!(License::Apache_2_0.template().is_some());
    assert!(License::Apache_2_0_WITH_LLVM_exception.template().is_some());
    assert!(License::BSD_0_Clause.template().is_some());
    assert!(License::BSD_3_Clause.template().is_some());
    assert!(License::GPL_2_0Plus.template().is_some());
    assert!(License::GPL_3_0Plus.template().is_some());
    assert!(License::LGPL_2_1Plus.template().is_some());
    assert!(License::LGPL_3_0Plus.template().is_some());
    assert!(License::Zlib.template().is_some());

    assert!(License::X11.template().is_none());
    assert!(License::BSD_2_Clause.template().is_none());
    assert!(License::GPL_2_0.template().is_none());
    assert!(License::GPL_3_0.template().is_none());
    assert!(License::MPL_2_0.template().is_none());
    assert!(License::Custom(String::from("Foo")).template().is_none());
    assert!(License::Unspecified.template().is_none());
}

#[test]
fn synonyms_are_slugs_longest_first() {
    let syns = License::MIT.synonyms();
    assert_eq!(syns, vec![String::from("mit")]);

    let apache = License::Apache_2_0.synonyms();
    assert_eq!(
        apache,
        vec![
            String::from("apache-2-0"),
            String::from("apache-2"),
            String::from("apache2"),
            String::from("apache"),
        ]
    );
    for w in apache.windows(2) {
        assert!(w[0].len() >= w[1].len());
    }
}

#[test]
fn default_license_is_unspecified() {
    assert_eq!(License::default(), License::Unspecified);
}

#[test]
fn by_parses_from_str() {
    assert!(matches!("license".parse::<By>(), Ok(By::License)));
    assert!(matches!("crate".parse::<By>(), Ok(By::Crate)));
    let err = "bogus".parse::<By>();
    assert!(matches!(err, Err(_)));
    assert_eq!(err.unwrap_err(), "Cannot parse By from 'bogus'");
}
