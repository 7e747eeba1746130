use license_page::opt::{GetLicensesOpt, ToMarkdownPageOpt};

#[test]
fn get_licenses_opt_defaults() {
    let opt = GetLicensesOpt::new();
    assert!(!opt.avoid_dev_deps());
    assert!(!opt.avoid_build_deps());
    assert!(!opt.avoid_proc_macros());
    let opt = GetLicensesOpt::default();
    assert!(!opt.avoid_dev_deps());
    assert!(!opt.avoid_build_deps());
    assert!(!opt.avoid_proc_macros());
}

#[test]
fn get_licenses_opt_mutators() {
    let mut opt = GetLicensesOpt::new();
    *opt.avoid_dev_deps_mut() = true;
    assert!(opt.avoid_dev_deps());
    assert!(!opt.avoid_build_deps());
    *opt.avoid_build_deps_mut() = true;
    assert!(opt.avoid_build_deps());
    *opt.avoid_proc_macros_mut() = true;
    assert!(opt.avoid_proc_macros());
    *opt.avoid_dev_deps_mut() = false;
    assert!(!opt.avoid_dev_deps());
}

#[test]
fn to_markdown_page_opt_accessors() {
    let mut opt = ToMarkdownPageOpt::new();
    assert!(opt.crate_licenses_preamble().is_none());
    assert!(opt.preamble_section().is_none());
    *opt.crate_licenses_preamble_mut() = Some("under the heading".to_string());
    *opt.preamble_section_mut() = Some("up front".to_string());
    assert_eq!(opt.crate_licenses_preamble(), Some("under the heading"));
    assert_eq!(opt.preamble_section(), Some("up front"));
    *opt.preamble_section_mut() = None;
    assert!(opt.preamble_section().is_none());
}
