use license_page::group::{group, LicenseGroup};
use license_page::model::{
    DependencyRecord, ExceptionId, LicenseExpression, LicenseId, LicenseItem, LicenseRequirement,
};

fn spdx_req(name: &str) -> LicenseRequirement {
    let full_name = spdx::license_id(name).map_or(name.to_string(), |id| id.full_name.to_string());
    LicenseRequirement {
        license_item: LicenseItem::Spdx(LicenseId { name: name.to_string(), full_name }),
        exception: None,
    }
}

fn record(name: &str, version: &str, expr: &str, req_names: &[&str]) -> DependencyRecord {
    DependencyRecord {
        name: name.to_string(),
        version: version.to_string(),
        authors: Vec::new(),
        repository: format!("https://example.invalid/{name}"),
        license_expression: LicenseExpression {
            text: expr.to_string(),
            requirements: req_names.iter().map(|n| spdx_req(n)).collect(),
        },
    }
}

fn summary(gs: &[LicenseGroup]) -> Vec<(String, usize, Vec<String>)> {
    gs.iter()
        .map(|g| {
            (
                g.expression.text.clone(),
                g.count,
                g.members.iter().map(|m| m.name.clone()).collect(),
            )
        })
        .collect()
}

#[test]
fn two_records_one_expression() {
    let gs = group(vec![
        record("a", "1.0", "MIT", &["MIT"]),
        record("b", "2.0", "MIT", &["MIT"]),
    ]);
    assert_eq!(gs.len(), 1);
    assert_eq!(gs[0].expression.text, "MIT");
    assert_eq!(gs[0].count, 2);
    let names: Vec<&str> = gs[0].members.iter().map(|m| m.name.as_str()).collect();
    assert_eq!(names, ["a", "b"]);
}

#[test]
fn groups_sorted_by_expression_string() {
    let gs = group(vec![
        record("z", "1.0", "Zlib", &["Zlib"]),
        record("a", "1.0", "Apache-2.0", &["Apache-2.0"]),
        record("m", "1.0", "MIT", &["MIT"]),
        record("m2", "1.0", "MIT", &["MIT"]),
    ]);
    let keys: Vec<&str> = gs.iter().map(|g| g.expression.text.as_str()).collect();
    assert_eq!(keys, ["Apache-2.0", "MIT", "Zlib"]);
}

#[test]
fn grouping_is_deterministic() {
    let make = || {
        vec![
            record("one", "0.1", "MIT OR Apache-2.0", &["MIT", "Apache-2.0"]),
            record("two", "0.2", "MIT", &["MIT"]),
            record("three", "0.3", "BSD-3-Clause", &["BSD-3-Clause"]),
            record("four", "0.4", "MIT", &["MIT"]),
        ]
    };
    let first = summary(&group(make()));
    let second = summary(&group(make()));
    assert_eq!(first, second);
}

#[test]
fn counts_sum_to_record_number() {
    let records = vec![
        record("one", "0.1", "MIT", &["MIT"]),
        record("two", "0.2", "Apache-2.0", &["Apache-2.0"]),
        record("three", "0.3", "MIT", &["MIT"]),
        record("four", "0.4", "Zlib", &["Zlib"]),
        record("five", "0.5", "MIT", &["MIT"]),
    ];
    let total = records.len();
    let gs = group(records);
    let sum: usize = gs.iter().map(|g| g.count).sum();
    assert_eq!(sum, total);
    for g in &gs {
        assert_eq!(g.count, g.members.len());
    }
}

#[test]
fn each_record_in_exactly_one_group() {
    let records = vec![
        record("one", "0.1", "MIT", &["MIT"]),
        record("two", "0.2", "Apache-2.0", &["Apache-2.0"]),
        record("three", "0.3", "MIT", &["MIT"]),
    ];
    let names: Vec<String> = records.iter().map(|r| r.name.clone()).collect();
    let exprs: Vec<String> = records.iter().map(|r| r.license_expression.text.clone()).collect();
    let gs = group(records);
    for (name, expr) in names.iter().zip(exprs.iter()) {
        let holders: Vec<&LicenseGroup> = gs
            .iter()
            .filter(|g| g.members.iter().any(|m| &m.name == name))
            .collect();
        assert_eq!(holders.len(), 1);
        assert_eq!(&holders[0].expression.text, expr);
    }
}

#[test]
fn empty_input_yields_no_groups() {
    let gs = group(Vec::new());
    assert_eq!(gs.len(), 0);
}

#[test]
fn exception_requirement_kept() {
    let rec = DependencyRecord {
        name: "gpl-classpath".to_string(),
        version: "1.0".to_string(),
        authors: vec!["Carol".to_string()],
        repository: "https://example.invalid/gpl-classpath".to_string(),
        license_expression: LicenseExpression {
            text: "GPL-2.0-only WITH Classpath-exception-2.0".to_string(),
            requirements: vec![LicenseRequirement {
                license_item: LicenseItem::Spdx(LicenseId {
                    name: "GPL-2.0-only".to_string(),
                    full_name: "GNU General Public License v2.0 only".to_string(),
                }),
                exception: Some(ExceptionId { name: "Classpath-exception-2.0".to_string() }),
            }],
        },
    };
    let gs = group(vec![rec]);
    assert_eq!(gs.len(), 1);
    let req = &gs[0].members[0].license_expression.requirements[0];
    assert!(req.exception.is_some());
}
