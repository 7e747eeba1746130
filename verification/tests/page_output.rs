use license_page::group::group;
use license_page::model::{
    DependencyRecord, ExceptionId, LicenseExpression, LicenseId, LicenseItem, LicensePart,
    LicenseRequirement,
};
use license_page::opt::ToMarkdownPageOpt;
use license_page::page::{assemble, escape_markdown, BodyStyle, PageError};
use license_page::store::{TextEntry, TextStore};

fn spdx_license(name: &str) -> LicenseId {
    let full_name = spdx::license_id(name)
        .map_or(name.to_string(), |id| id.full_name.to_string());
    LicenseId { name: name.to_string(), full_name }
}

fn spdx_req(name: &str) -> LicenseRequirement {
    LicenseRequirement { license_item: LicenseItem::Spdx(spdx_license(name)), exception: None }
}

fn record(
    name: &str,
    version: &str,
    authors: &[&str],
    expr: &str,
    req_names: &[&str],
) -> DependencyRecord {
    DependencyRecord {
        name: name.to_string(),
        version: version.to_string(),
        authors: authors.iter().map(|a| a.to_string()).collect(),
        repository: format!("https://example.invalid/{name}"),
        license_expression: LicenseExpression {
            text: expr.to_string(),
            requirements: req_names.iter().map(|n| spdx_req(n)).collect(),
        },
    }
}

fn empty_store() -> TextStore {
    TextStore::from_entries(Vec::new()).unwrap()
}

fn page(records: Vec<DependencyRecord>) -> String {
    let gs = group(records);
    assemble(&gs, &empty_store(), BodyStyle::Fenced, &ToMarkdownPageOpt::new()).unwrap()
}

#[test]
fn empty_input_yields_headers_only() {
    let doc = page(Vec::new());
    assert_eq!(doc, "# Crate Licenses\n\n# License and Exception Full Texts\n");
}

#[test]
fn shared_expression_one_group_one_text() {
    let doc = page(vec![
        record("a", "1.0", &[], "MIT", &["MIT"]),
        record("b", "2.0", &[], "MIT", &["MIT"]),
    ]);
    assert!(doc.contains("\n## `MIT`\n\nUsed by 2 crates:\n\n"));
    assert!(doc.contains("- a 1.0\n"));
    assert!(doc.contains("- b 2.0\n"));
    let text_section = doc.split("\n# License and Exception Full Texts\n").nth(1).unwrap();
    let entries = text_section.matches("\n## ").count();
    assert_eq!(entries, 1);
    assert!(text_section.contains("\n## MIT License\n"));
}

#[test]
fn or_expression_two_sorted_texts() {
    let doc = page(vec![record(
        "dual",
        "1.0",
        &[],
        "MIT OR Apache-2.0",
        &["MIT", "Apache-2.0"],
    )]);
    let text_section = doc.split("\n# License and Exception Full Texts\n").nth(1).unwrap();
    assert_eq!(text_section.matches("\n## ").count(), 2);
    let apache = text_section.find("Apache License 2\\.0").unwrap();
    let mit = text_section.find("MIT License").unwrap();
    // Sorted by identifier: Apache-2.0 before MIT, each exactly once.
    assert!(apache < mit);
}

#[test]
fn identifiers_deduplicated_across_expressions() {
    let doc = page(vec![
        record("a", "1.0", &[], "MIT", &["MIT"]),
        record("b", "1.0", &[], "MIT OR Apache-2.0", &["MIT", "Apache-2.0"]),
        record("c", "1.0", &[], "Apache-2.0", &["Apache-2.0"]),
    ]);
    let text_section = doc.split("\n# License and Exception Full Texts\n").nth(1).unwrap();
    assert_eq!(text_section.matches("\n## ").count(), 2);
}

#[test]
fn author_lines_zero_one_many() {
    let doc = page(vec![
        record("none", "1.0", &[], "MIT", &["MIT"]),
        record("one", "1.0", &["Alice"], "MIT", &["MIT"]),
        record("many", "1.0", &["Alice", "Bob"], "MIT", &["MIT"]),
    ]);
    assert!(doc.contains("- none 1.0\n  - Repository: https://example.invalid/none\n- one 1.0"));
    assert!(doc.contains("- one 1.0\n  - Repository: https://example.invalid/one\n  - Primary author: Alice\n"));
    assert!(doc.contains(
        "- many 1.0\n  - Repository: https://example.invalid/many\n  - Primary authors:\n    - Alice\n    - Bob\n"
    ));
    assert_eq!(doc.matches("Primary authors:").count(), 1);
    assert_eq!(doc.matches("Primary author").count(), 2);
}

#[test]
fn singular_crate_noun() {
    let doc = page(vec![record("solo", "1.0", &[], "Zlib", &["Zlib"])]);
    assert!(doc.contains("Used by 1 crate:\n"));
    assert!(!doc.contains("Used by 1 crates:"));
}

#[test]
fn other_item_aborts_generation() {
    let rec = DependencyRecord {
        name: "custom".to_string(),
        version: "1.0".to_string(),
        authors: Vec::new(),
        repository: "https://example.invalid/custom".to_string(),
        license_expression: LicenseExpression {
            text: "LicenseRef-My-Custom".to_string(),
            requirements: vec![LicenseRequirement {
                license_item: LicenseItem::Other("LicenseRef-My-Custom".to_string()),
                exception: None,
            }],
        },
    };
    let gs = group(vec![rec]);
    let r = assemble(&gs, &empty_store(), BodyStyle::Fenced, &ToMarkdownPageOpt::new());
    match r {
        Err(PageError::UnsupportedLicenseItem { expression }) => {
            assert_eq!(expression, "LicenseRef-My-Custom");
        }
        _ => panic!("a non-SPDX item must abort generation"),
    }
}

#[test]
fn unknown_identifier_reported() {
    let gs = group(vec![record(
        "odd",
        "1.0",
        &[],
        "No-Such-License-Xyz",
        &["No-Such-License-Xyz"],
    )]);
    let r = assemble(&gs, &empty_store(), BodyStyle::Fenced, &ToMarkdownPageOpt::new());
    match r {
        Err(PageError::UnresolvedIdentifier { name }) => {
            assert_eq!(name, "No-Such-License-Xyz");
        }
        _ => panic!("an unknown identifier must abort generation"),
    }
}

#[test]
fn store_overrides_secondary_database() {
    let store = TextStore::from_entries(vec![TextEntry {
        key: "mit".to_string(),
        text: "hand-wrapped MIT text\n".to_string(),
    }])
    .unwrap();
    let part = LicensePart::License(spdx_license("MIT"));
    let rt = part.resolve(&store).unwrap();
    assert_eq!(rt.title, "MIT License");
    assert_eq!(rt.body, "hand-wrapped MIT text\n");
}

#[test]
fn secondary_database_is_the_fallback() {
    let part = LicensePart::License(spdx_license("MIT"));
    let rt = part.resolve(&empty_store()).unwrap();
    assert_eq!(rt.body, spdx::license_id("MIT").unwrap().text());
    assert!(rt.body.contains("Permission is hereby granted"));
}

#[test]
fn exception_resolution_and_title() {
    let part = LicensePart::Exception(ExceptionId { name: "LLVM-exception".to_string() });
    let rt = part.resolve(&empty_store()).unwrap();
    assert_eq!(rt.title, "`LLVM-exception`");
    assert_eq!(rt.body, spdx::exception_id("LLVM-exception").unwrap().text());
}

#[test]
fn escape_markdown_exact() {
    assert_eq!(escape_markdown("plain words"), "plain words");
    assert_eq!(escape_markdown("A*B_C"), "A\\*B\\_C");
    assert_eq!(escape_markdown("Apache License 2.0"), "Apache License 2\\.0");
    assert_eq!(escape_markdown("`x`"), "\\`x\\`");
}

#[test]
fn quoted_body_style() {
    let store = TextStore::from_entries(vec![TextEntry {
        key: "mit".to_string(),
        text: "line one\nline two\n".to_string(),
    }])
    .unwrap();
    let gs = group(vec![record("a", "1.0", &[], "MIT", &["MIT"])]);
    let doc = assemble(&gs, &store, BodyStyle::Quoted, &ToMarkdownPageOpt::new()).unwrap();
    assert!(doc.contains("\n## MIT License\n\n> line one\n> line two\n"));
    assert!(!doc.contains("```text"));
}

#[test]
fn preambles_are_framed_in() {
    let mut opt = ToMarkdownPageOpt::new();
    *opt.preamble_section_mut() = Some("A leading section.".to_string());
    *opt.crate_licenses_preamble_mut() = Some("Words under the heading.".to_string());
    let gs = group(Vec::new());
    let doc = assemble(&gs, &empty_store(), BodyStyle::Fenced, &opt).unwrap();
    assert_eq!(
        doc,
        "A leading section.\n\n# Crate Licenses\n\nWords under the heading.\n\n# License and Exception Full Texts\n"
    );
}

#[test]
fn fenced_body_wraps_verbatim() {
    let store = TextStore::from_entries(vec![TextEntry {
        key: "mit".to_string(),
        text: "the text\n".to_string(),
    }])
    .unwrap();
    let gs = group(vec![record("a", "1.0", &[], "MIT", &["MIT"])]);
    let doc = assemble(&gs, &store, BodyStyle::Fenced, &ToMarkdownPageOpt::new()).unwrap();
    assert!(doc.contains("\n## MIT License\n\n```text\nthe text\n```\n"));
}

#[test]
fn licenses_order_before_exceptions_in_text_section() {
    let rec = DependencyRecord {
        name: "gpl-classpath".to_string(),
        version: "1.0".to_string(),
        authors: Vec::new(),
        repository: "https://example.invalid/gpl-classpath".to_string(),
        license_expression: LicenseExpression {
            text: "GPL-2.0-only WITH Classpath-exception-2.0 OR MIT".to_string(),
            requirements: vec![
                LicenseRequirement {
                    license_item: LicenseItem::Spdx(spdx_license("GPL-2.0-only")),
                    exception: Some(ExceptionId {
                        name: "Classpath-exception-2.0".to_string(),
                    }),
                },
                spdx_req("MIT"),
            ],
        },
    };
    let doc = page(vec![rec]);
    let text_section = doc.split("\n# License and Exception Full Texts\n").nth(1).unwrap();
    assert_eq!(text_section.matches("\n## ").count(), 3);
    let gpl = text_section.find("GNU General Public License").unwrap();
    let mit = text_section.find("MIT License").unwrap();
    let classpath = text_section.find("\\`Classpath\\-exception\\-2\\.0\\`").unwrap();
    assert!(gpl < mit);
    assert!(mit < classpath);
}
