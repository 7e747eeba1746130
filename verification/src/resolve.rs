//! The Identifier Resolver: turns a referenced license or exception into a
//! display title and the full legal text, preferring the License Text Store
//! and falling back to the secondary reference database of the `spdx` crate.

use vstd::prelude::*;

use crate::model::{LicensePart, LicensePartV};
use crate::store::{lookup_spec, TextEntryV, TextStore};
use crate::strutil::{lower_seq, push_char};
use vstd::string::StringExecFns;

verus! {

/// The license text the secondary reference database registers for an
/// identifier, if any: a fixed function of the identifier alone.
pub uninterp spec fn spdx_license_text_of(name: Seq<char>) -> Option<Seq<char>>;

/// The exception text the secondary reference database registers for an
/// identifier, if any: a fixed function of the identifier alone.
pub uninterp spec fn spdx_exception_text_of(name: Seq<char>) -> Option<Seq<char>>;

/// Relies on `spdx::license_id` and `spdx::LicenseId::text`: the crate maps
/// a recognized SPDX license identifier to its full text through its
/// compiled-in tables, so the result depends on the identifier alone.
#[verifier::external_body]
fn spdx_license_text(name: &str) -> (r: Option<String>)
    ensures
        match r {
            Some(t) => spdx_license_text_of(name@) == Some(t@),
            None => spdx_license_text_of(name@) is None,
        },
{
    match spdx::license_id(name) {
        Some(id) => Some(id.text().to_owned()),
        None => None,
    }
}

/// Relies on `spdx::exception_id` and `spdx::ExceptionId::text`: the crate
/// maps a recognized SPDX exception identifier to its full text through its
/// compiled-in tables, so the result depends on the identifier alone.
#[verifier::external_body]
fn spdx_exception_text(name: &str) -> (r: Option<String>)
    ensures
        match r {
            Some(t) => spdx_exception_text_of(name@) == Some(t@),
            None => spdx_exception_text_of(name@) is None,
        },
{
    match spdx::exception_id(name) {
        Some(id) => Some(id.text().to_owned()),
        None => None,
    }
}

/// A resolved identifier: what the text section prints for it.
pub struct ResolvedText {
    pub title: String,
    pub body: String,
}

/// Ghost image of a `ResolvedText`.
pub ghost struct ResolvedTextV {
    pub title: Seq<char>,
    pub body: Seq<char>,
}

impl View for ResolvedText {
    type V = ResolvedTextV;

    open spec fn view(&self) -> ResolvedTextV {
        ResolvedTextV { title: self.title@, body: self.body@ }
    }
}

/// The display title of a part: a license's registered full name; an
/// exception's name wrapped in backticks, marking exceptions apart from
/// licenses in the output.
pub open spec fn title_spec(p: LicensePartV) -> Seq<char> {
    match p {
        LicensePartV::License(id) => id.full_name,
        LicensePartV::Exception(e) => seq!['`'] + e.name + seq!['`'],
    }
}

/// The body of a part: for a license, the Text Store override when its
/// lowercased identifier is a key there, the secondary database otherwise;
/// for an exception, always the secondary database.
pub open spec fn body_spec(p: LicensePartV, store: Seq<TextEntryV>) -> Option<Seq<char>> {
    match p {
        LicensePartV::License(id) => match lookup_spec(store, lower_seq(id.name)) {
            Some(t) => Some(t),
            None => spdx_license_text_of(id.name),
        },
        LicensePartV::Exception(e) => spdx_exception_text_of(e.name),
    }
}

/// Title and body together; nothing exactly when the secondary database
/// does not carry the identifier either.
pub open spec fn resolve_spec(p: LicensePartV, store: Seq<TextEntryV>) -> Option<ResolvedTextV> {
    match body_spec(p, store) {
        Some(b) => Some(ResolvedTextV { title: title_spec(p), body: b }),
        None => None,
    }
}

impl LicensePart {
    /// The display title of this part.
    pub fn title(&self) -> (t: String)
        ensures
            t@ == title_spec(self@),
    {
        match self {
            LicensePart::License(id) => id.full_name.clone(),
            LicensePart::Exception(e) => {
                let mut s = String::new();
                push_char(&mut s, '`');
                s.append(e.name.as_str());
                push_char(&mut s, '`');
                assert(s@ =~= seq!['`'] + e.name@ + seq!['`']);
                s
            },
        }
    }

    /// Resolves this part against the store and the secondary database.
    pub fn resolve(&self, store: &TextStore) -> (r: Option<ResolvedText>)
        ensures
            match r {
                Some(rt) => resolve_spec(self@, store@) == Some(rt@),
                None => resolve_spec(self@, store@) is None,
            },
    {
        let title = self.title();
        let body_opt: Option<String> = match self {
            LicensePart::License(id) => match store.lookup(id.name.as_str()) {
                Some(t) => Some(t.to_owned()),
                None => spdx_license_text(id.name.as_str()),
            },
            LicensePart::Exception(e) => spdx_exception_text(e.name.as_str()),
        };
        match body_opt {
            Some(body) => Some(ResolvedText { title, body }),
            None => None,
        }
    }
}

} // verus!
