//! The data the page generator works on: dependency records, their license
//! expressions (already parsed by the caller into requirement terms), and the
//! license/exception identifiers those terms reference.

use vstd::prelude::*;

use crate::strutil::{seq_lt, Rank, str_compare};

verus! {

/// A recognized SPDX license identifier, carried as plain text: its short
/// name (`MIT`) and its registered full display name (`MIT License`).
pub struct LicenseId {
    pub name: String,
    pub full_name: String,
}

/// Ghost image of a `LicenseId`.
pub ghost struct LicenseIdV {
    pub name: Seq<char>,
    pub full_name: Seq<char>,
}

impl View for LicenseId {
    type V = LicenseIdV;

    open spec fn view(&self) -> LicenseIdV {
        LicenseIdV { name: self.name@, full_name: self.full_name@ }
    }
}

/// A recognized SPDX exception identifier.
pub struct ExceptionId {
    pub name: String,
}

/// Ghost image of an `ExceptionId`.
pub ghost struct ExceptionIdV {
    pub name: Seq<char>,
}

impl View for ExceptionId {
    type V = ExceptionIdV;

    open spec fn view(&self) -> ExceptionIdV {
        ExceptionIdV { name: self.name@ }
    }
}

/// One license term of an expression: either a recognized SPDX license, or a
/// custom, non-SPDX license reference carried verbatim. The latter cannot be
/// resolved to any text and is a fatal condition for page generation.
pub enum LicenseItem {
    Spdx(LicenseId),
    Other(String),
}

/// Ghost image of a `LicenseItem`.
pub ghost enum LicenseItemV {
    Spdx(LicenseIdV),
    Other(Seq<char>),
}

impl View for LicenseItem {
    type V = LicenseItemV;

    open spec fn view(&self) -> LicenseItemV {
        match self {
            LicenseItem::Spdx(id) => LicenseItemV::Spdx(id@),
            LicenseItem::Other(s) => LicenseItemV::Other(s@),
        }
    }
}

/// One requirement term of a license expression: a license item, optionally
/// qualified by an exception (the `WITH` operator).
pub struct LicenseRequirement {
    pub license_item: LicenseItem,
    pub exception: Option<ExceptionId>,
}

/// Ghost image of a `LicenseRequirement`.
pub ghost struct LicenseRequirementV {
    pub license_item: LicenseItemV,
    pub exception: Option<ExceptionIdV>,
}

impl View for LicenseRequirement {
    type V = LicenseRequirementV;

    open spec fn view(&self) -> LicenseRequirementV {
        LicenseRequirementV {
            license_item: self.license_item@,
            exception: match &self.exception {
                Some(e) => Some(e@),
                None => None,
            },
        }
    }
}

/// The ghost image of a sequence of requirements, element by element.
pub open spec fn view_reqs(s: Seq<LicenseRequirement>) -> Seq<LicenseRequirementV> {
    s.map_values(|r: LicenseRequirement| r@)
}

/// The ghost image of a sequence of strings, element by element.
pub open spec fn view_strings(s: Seq<String>) -> Seq<Seq<char>> {
    s.map_values(|a: String| a@)
}

/// A parsed license expression: its stable string rendering (used verbatim
/// as the grouping key and printed verbatim) together with its ordered
/// requirement terms.
pub struct LicenseExpression {
    pub text: String,
    pub requirements: Vec<LicenseRequirement>,
}

/// Ghost image of a `LicenseExpression`.
pub ghost struct LicenseExpressionV {
    pub text: Seq<char>,
    pub requirements: Seq<LicenseRequirementV>,
}

impl View for LicenseExpression {
    type V = LicenseExpressionV;

    open spec fn view(&self) -> LicenseExpressionV {
        LicenseExpressionV { text: self.text@, requirements: view_reqs(self.requirements@) }
    }
}

/// The metadata describing one third-party dependency.
pub struct DependencyRecord {
    pub name: String,
    pub version: String,
    pub authors: Vec<String>,
    pub repository: String,
    pub license_expression: LicenseExpression,
}

/// Ghost image of a `DependencyRecord`.
pub ghost struct DependencyRecordV {
    pub name: Seq<char>,
    pub version: Seq<char>,
    pub authors: Seq<Seq<char>>,
    pub repository: Seq<char>,
    pub license_expression: LicenseExpressionV,
}

impl View for DependencyRecord {
    type V = DependencyRecordV;

    open spec fn view(&self) -> DependencyRecordV {
        DependencyRecordV {
            name: self.name@,
            version: self.version@,
            authors: view_strings(self.authors@),
            repository: self.repository@,
            license_expression: self.license_expression@,
        }
    }
}

/// A reference to a license or exception whose full text the page must
/// carry, used as the deduplication and ordering key of the text section.
pub enum LicensePart {
    License(LicenseId),
    Exception(ExceptionId),
}

/// Ghost image of a `LicensePart`.
pub ghost enum LicensePartV {
    License(LicenseIdV),
    Exception(ExceptionIdV),
}

impl View for LicensePart {
    type V = LicensePartV;

    open spec fn view(&self) -> LicensePartV {
        match self {
            LicensePart::License(id) => LicensePartV::License(id@),
            LicensePart::Exception(e) => LicensePartV::Exception(e@),
        }
    }
}

impl Clone for LicenseId {
    fn clone(&self) -> (r: Self)
        ensures
            r@ == self@,
    {
        LicenseId { name: self.name.clone(), full_name: self.full_name.clone() }
    }
}

impl Clone for ExceptionId {
    fn clone(&self) -> (r: Self)
        ensures
            r@ == self@,
    {
        ExceptionId { name: self.name.clone() }
    }
}

impl Clone for LicenseItem {
    fn clone(&self) -> (r: Self)
        ensures
            r@ == self@,
    {
        match self {
            LicenseItem::Spdx(id) => LicenseItem::Spdx(id.clone()),
            LicenseItem::Other(s) => LicenseItem::Other(s.clone()),
        }
    }
}

impl Clone for LicenseRequirement {
    fn clone(&self) -> (r: Self)
        ensures
            r@ == self@,
    {
        LicenseRequirement {
            license_item: self.license_item.clone(),
            exception: match &self.exception {
                Some(e) => Some(e.clone()),
                None => None,
            },
        }
    }
}

impl Clone for LicenseExpression {
    fn clone(&self) -> (r: Self)
        ensures
            r@ == self@,
    {
        let mut reqs: Vec<LicenseRequirement> = Vec::new();
        let n = self.requirements.len();
        let mut i: usize = 0;
        while i < n
            invariant
                i <= n,
                n == self.requirements.len(),
                view_reqs(reqs@) == view_reqs(self.requirements@.take(i as int)),
            decreases n - i,
        {
            let c = self.requirements[i].clone();
            let ghost prev = reqs@;
            reqs.push(c);
            proof {
                broadcast use vstd::seq::Seq::lemma_push_map_commute;
                broadcast use vstd::seq::Seq::lemma_map_take_succ;

                assert(reqs@ == prev.push(c));
                assert(view_reqs(reqs@) =~= view_reqs(self.requirements@.take(i as int + 1)));
            }
            i = i + 1;
        }
        assert(self.requirements@.take(n as int) =~= self.requirements@);
        let r = LicenseExpression { text: self.text.clone(), requirements: reqs };
        r
    }
}

/// Licenses order before exceptions.
pub open spec fn part_class(p: LicensePartV) -> int {
    match p {
        LicensePartV::License(_) => 0,
        LicensePartV::Exception(_) => 1,
    }
}

/// The identifier a part is keyed by: its canonical short name.
pub open spec fn part_name(p: LicensePartV) -> Seq<char> {
    match p {
        LicensePartV::License(id) => id.name,
        LicensePartV::Exception(e) => e.name,
    }
}

/// Two parts reference the same identifier: same class, same canonical name.
pub open spec fn part_same_key(p: LicensePartV, q: LicensePartV) -> bool {
    part_class(p) == part_class(q) && part_name(p) == part_name(q)
}

/// The intrinsic total order on parts: licenses first, then by canonical
/// name. This is the order of the emitted text section.
pub open spec fn part_lt(p: LicensePartV, q: LicensePartV) -> bool {
    part_class(p) < part_class(q) || (part_class(p) == part_class(q) && seq_lt(
        part_name(p),
        part_name(q),
    ))
}

impl LicensePart {
    /// Compares two parts in the intrinsic order; `Equal` means the two
    /// reference the same identifier.
    pub fn compare(&self, other: &LicensePart) -> (r: Rank)
        ensures
            (r == Rank::Less) == part_lt(self@, other@),
            (r == Rank::Greater) == part_lt(other@, self@),
            (r == Rank::Equal) == part_same_key(self@, other@),
    {
        let (ca, na): (usize, &String) = match self {
            LicensePart::License(id) => (0, &id.name),
            LicensePart::Exception(e) => (1, &e.name),
        };
        let (cb, nb): (usize, &String) = match other {
            LicensePart::License(id) => (0, &id.name),
            LicensePart::Exception(e) => (1, &e.name),
        };
        if ca < cb {
            Rank::Less
        } else if cb < ca {
            Rank::Greater
        } else {
            str_compare(na.as_str(), nb.as_str())
        }
    }
}

/// `part_lt` is transitive.
pub proof fn lemma_part_lt_trans(a: LicensePartV, b: LicensePartV, c: LicensePartV)
    requires
        part_lt(a, b),
        part_lt(b, c),
    ensures
        part_lt(a, c),
{
    if part_class(a) == part_class(b) && part_class(b) == part_class(c) {
        crate::strutil::lemma_seq_lt_trans(part_name(a), part_name(b), part_name(c));
    }
}

/// Of two parts, either one orders strictly before the other or they share
/// their key, and never more than one of the three.
pub proof fn lemma_part_lt_trichotomy(a: LicensePartV, b: LicensePartV)
    ensures
        part_lt(a, b) || part_lt(b, a) || part_same_key(a, b),
        part_lt(a, b) ==> !part_lt(b, a) && !part_same_key(a, b),
        part_lt(b, a) ==> !part_lt(a, b) && !part_same_key(a, b),
{
    crate::strutil::lemma_seq_lt_trichotomy(part_name(a), part_name(b));
}

} // verus!
