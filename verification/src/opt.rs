//! Options steering which dependencies are gathered and how the final
//! Markdown page is framed.

use vstd::prelude::*;

verus! {

/// Which classes of dependency to exclude before grouping; everything is
/// included by default.
pub struct GetLicensesOpt {
    pub avoid_dev_deps: bool,
    pub avoid_build_deps: bool,
    pub avoid_proc_macros: bool,
}

impl GetLicensesOpt {
    pub fn new() -> (r: Self)
        ensures
            !r.avoid_dev_deps,
            !r.avoid_build_deps,
            !r.avoid_proc_macros,
    {
        Self { avoid_dev_deps: false, avoid_build_deps: false, avoid_proc_macros: false }
    }

    pub fn avoid_dev_deps(&self) -> (r: bool)
        ensures
            r == self.avoid_dev_deps,
    {
        self.avoid_dev_deps
    }

    pub fn avoid_build_deps(&self) -> (r: bool)
        ensures
            r == self.avoid_build_deps,
    {
        self.avoid_build_deps
    }

    pub fn avoid_proc_macros(&self) -> (r: bool)
        ensures
            r == self.avoid_proc_macros,
    {
        self.avoid_proc_macros
    }

    pub fn avoid_dev_deps_mut(&mut self) -> (r: &mut bool)
        ensures
            *r == old(self).avoid_dev_deps,
            final(self).avoid_dev_deps == *final(r),
            final(self).avoid_build_deps == old(self).avoid_build_deps,
            final(self).avoid_proc_macros == old(self).avoid_proc_macros,
    {
        &mut self.avoid_dev_deps
    }

    pub fn avoid_build_deps_mut(&mut self) -> (r: &mut bool)
        ensures
            *r == old(self).avoid_build_deps,
            final(self).avoid_build_deps == *final(r),
            final(self).avoid_dev_deps == old(self).avoid_dev_deps,
            final(self).avoid_proc_macros == old(self).avoid_proc_macros,
    {
        &mut self.avoid_build_deps
    }

    pub fn avoid_proc_macros_mut(&mut self) -> (r: &mut bool)
        ensures
            *r == old(self).avoid_proc_macros,
            final(self).avoid_proc_macros == *final(r),
            final(self).avoid_dev_deps == old(self).avoid_dev_deps,
            final(self).avoid_build_deps == old(self).avoid_build_deps,
    {
        &mut self.avoid_proc_macros
    }
}

impl Default for GetLicensesOpt {
    fn default() -> (r: Self)
        ensures
            !r.avoid_dev_deps,
            !r.avoid_build_deps,
            !r.avoid_proc_macros,
    {
        Self::new()
    }
}

/// How the emitted Markdown page is framed: an optional section placed in
/// front of the whole page, and an optional preamble placed directly under
/// the dependency-listing heading.
pub struct ToMarkdownPageOpt {
    pub crate_licenses_preamble: Option<String>,
    pub preamble_section: Option<String>,
}

impl ToMarkdownPageOpt {
    pub fn new() -> (r: Self)
        ensures
            r.crate_licenses_preamble is None,
            r.preamble_section is None,
    {
        Self { crate_licenses_preamble: None, preamble_section: None }
    }

    pub fn crate_licenses_preamble(&self) -> (r: Option<&str>)
        ensures
            match r {
                Some(s) => self.crate_licenses_preamble matches Some(p) && p@ == s@,
                None => self.crate_licenses_preamble is None,
            },
    {
        match &self.crate_licenses_preamble {
            Some(s) => Some(s.as_str()),
            None => None,
        }
    }

    pub fn crate_licenses_preamble_mut(&mut self) -> (r: &mut Option<String>)
        ensures
            *r == old(self).crate_licenses_preamble,
            final(self).crate_licenses_preamble == *final(r),
            final(self).preamble_section == old(self).preamble_section,
    {
        &mut self.crate_licenses_preamble
    }

    pub fn preamble_section(&self) -> (r: Option<&str>)
        ensures
            match r {
                Some(s) => self.preamble_section matches Some(p) && p@ == s@,
                None => self.preamble_section is None,
            },
    {
        match &self.preamble_section {
            Some(s) => Some(s.as_str()),
            None => None,
        }
    }

    pub fn preamble_section_mut(&mut self) -> (r: &mut Option<String>)
        ensures
            *r == old(self).preamble_section,
            final(self).preamble_section == *final(r),
            final(self).crate_licenses_preamble == old(self).crate_licenses_preamble,
    {
        &mut self.preamble_section
    }
}

impl Default for ToMarkdownPageOpt {
    fn default() -> (r: Self)
        ensures
            r.crate_licenses_preamble is None,
            r.preamble_section is None,
    {
        Self::new()
    }
}

} // verus!
