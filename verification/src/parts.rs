//! Collecting the license and exception identifiers referenced by the
//! grouped dependencies: every requirement term of every group's expression
//! contributes its parts, which are deduplicated by identifier and held in
//! the intrinsic part order, so the text section is sorted and carries each
//! identifier exactly once.

use vstd::prelude::*;

use crate::group::{view_groups, LicenseGroup, LicenseGroupV};
use crate::model::{
    lemma_part_lt_trans, lemma_part_lt_trichotomy, part_lt, part_same_key, LicenseItem,
    LicenseItemV, LicensePart, LicensePartV, LicenseRequirementV,
};
use crate::strutil::Rank;

verus! {

/// Whether a requirement's license item is a custom, non-SPDX reference.
pub open spec fn req_is_other(req: LicenseRequirementV) -> bool {
    req.license_item is Other
}

/// Whether any requirement of the sequence carries a non-SPDX item.
pub open spec fn reqs_have_other(reqs: Seq<LicenseRequirementV>) -> bool {
    exists|i: int| 0 <= i < reqs.len() && req_is_other(#[trigger] reqs[i])
}

/// Whether any group's expression carries a non-SPDX item.
pub open spec fn groups_have_other(gs: Seq<LicenseGroupV>) -> bool {
    exists|g: int|
        0 <= g < gs.len() && reqs_have_other(#[trigger] gs[g].expression.requirements)
}

/// The parts one requirement references: its license (when it is a
/// recognized SPDX license) and its exception, if any.
pub open spec fn req_parts(req: LicenseRequirementV) -> Seq<LicensePartV> {
    (match req.license_item {
        LicenseItemV::Spdx(id) => seq![LicensePartV::License(id)],
        LicenseItemV::Other(_) => Seq::empty(),
    }) + (match req.exception {
        Some(e) => seq![LicensePartV::Exception(e)],
        None => Seq::empty(),
    })
}

/// All parts referenced by a requirement sequence, in reading order.
pub open spec fn reqs_parts(reqs: Seq<LicenseRequirementV>) -> Seq<LicensePartV>
    decreases reqs.len(),
{
    if reqs.len() == 0 {
        Seq::empty()
    } else {
        reqs_parts(reqs.drop_last()) + req_parts(reqs.last())
    }
}

/// All parts referenced across the groups, in reading order, duplicates
/// included.
pub open spec fn groups_parts(gs: Seq<LicenseGroupV>) -> Seq<LicensePartV>
    decreases gs.len(),
{
    if gs.len() == 0 {
        Seq::empty()
    } else {
        groups_parts(gs.drop_last()) + reqs_parts(gs.last().expression.requirements)
    }
}

/// Parts strictly ascending in the intrinsic order: sorted, no identifier
/// twice.
pub open spec fn parts_sorted(ps: Seq<LicensePartV>) -> bool {
    forall|i: int, j: int| 0 <= i < j < ps.len() ==> part_lt(ps[i], ps[j])
}

/// Whether some element of `ps` references the same identifier as `q`.
pub open spec fn has_part_key(ps: Seq<LicensePartV>, q: LicensePartV) -> bool {
    exists|i: int| 0 <= i < ps.len() && part_same_key(#[trigger] ps[i], q)
}

/// Inserts a part into a sorted part sequence, keeping the first-seen value
/// for an identifier already present.
pub open spec fn insert_part_spec(ps: Seq<LicensePartV>, p: LicensePartV) -> Seq<LicensePartV>
    decreases ps.len(),
{
    if ps.len() == 0 {
        seq![p]
    } else if part_same_key(p, ps[0]) {
        ps
    } else if part_lt(p, ps[0]) {
        seq![p] + ps
    } else {
        seq![ps[0]] + insert_part_spec(ps.drop_first(), p)
    }
}

/// The deduplicated, sorted sequence of a part sequence, folded in reading
/// order.
pub open spec fn dedup_parts_spec(flat: Seq<LicensePartV>) -> Seq<LicensePartV>
    decreases flat.len(),
{
    if flat.len() == 0 {
        Seq::empty()
    } else {
        insert_part_spec(dedup_parts_spec(flat.drop_last()), flat.last())
    }
}

/// What one insertion does: order kept, the new identifier present, no other
/// identifier gained or lost, and every element an element of the input or
/// the inserted part itself.
proof fn lemma_insert_part_props(ps: Seq<LicensePartV>, p: LicensePartV)
    requires
        parts_sorted(ps),
    ensures
        parts_sorted(insert_part_spec(ps, p)),
        forall|q: LicensePartV|
            has_part_key(insert_part_spec(ps, p), q) <==> has_part_key(ps, q) || part_same_key(
                p,
                q,
            ),
        forall|j: int|
            0 <= j < insert_part_spec(ps, p).len() ==> #[trigger] insert_part_spec(ps, p)[j] == p
                || ps.contains(insert_part_spec(ps, p)[j]),
    decreases ps.len(),
{
    let out = insert_part_spec(ps, p);
    if ps.len() == 0 {
        assert(out =~= seq![p]);
        assert(part_same_key(p, p));
        assert forall|q: LicensePartV| has_part_key(out, q) implies has_part_key(ps, q)
            || part_same_key(p, q) by {
            let i = choose|i: int| 0 <= i < out.len() && part_same_key(#[trigger] out[i], q);
            assert(out[i] == p);
        }
        assert(forall|q: LicensePartV|
            part_same_key(p, q) ==> part_same_key(#[trigger] out[0], q));
    } else if part_same_key(p, ps[0]) {
        assert(out == ps);
        assert forall|q: LicensePartV|
            has_part_key(ps, q) || part_same_key(p, q) implies has_part_key(out, q) by {
            if part_same_key(p, q) {
                lemma_part_lt_trichotomy(ps[0], q);
                lemma_part_lt_trichotomy(p, q);
                lemma_part_lt_trichotomy(p, ps[0]);
                assert(part_same_key(ps[0], q));
            }
        }
        assert(forall|j: int| 0 <= j < out.len() ==> ps.contains(#[trigger] out[j]));
    } else if part_lt(p, ps[0]) {
        assert(out =~= seq![p] + ps);
        assert(forall|j: int| 1 <= j < out.len() ==> out[j] == ps[j - 1]);
        assert forall|i: int, j: int| 0 <= i < j < out.len() implies part_lt(
            out[i],
            out[j],
        ) by {
            if i == 0 && j > 1 {
                lemma_part_lt_trans(p, ps[0], ps[j - 1]);
            }
        }
        assert(part_same_key(p, p) && out[0] == p);
        assert forall|q: LicensePartV| has_part_key(out, q) implies has_part_key(ps, q)
            || part_same_key(p, q) by {
            let i = choose|i: int| 0 <= i < out.len() && part_same_key(#[trigger] out[i], q);
            if i > 0 {
                assert(part_same_key(ps[i - 1], q));
            }
        }
        assert forall|q: LicensePartV|
            has_part_key(ps, q) || part_same_key(p, q) implies has_part_key(out, q) by {
            if has_part_key(ps, q) {
                let w = choose|w: int| 0 <= w < ps.len() && part_same_key(#[trigger] ps[w], q);
                assert(part_same_key(out[w + 1], q));
            } else {
                assert(part_same_key(out[0], q));
            }
        }
        assert forall|j: int| 0 <= j < out.len() implies #[trigger] out[j] == p || ps.contains(
            out[j],
        ) by {
            if j > 0 {
                assert(ps[j - 1] == out[j]);
            }
        }
    } else {
        let tail = ps.drop_first();
        assert(forall|i: int| 0 <= i < tail.len() ==> tail[i] == ps[i + 1]);
        lemma_insert_part_props(tail, p);
        let ins = insert_part_spec(tail, p);
        assert(out =~= seq![ps[0]] + ins);
        assert(forall|j: int| 1 <= j < out.len() ==> out[j] == ins[j - 1]);
        lemma_part_lt_trichotomy(p, ps[0]);
        assert(part_lt(ps[0], p));
        assert forall|i: int, j: int| 0 <= i < j < out.len() implies part_lt(
            out[i],
            out[j],
        ) by {
            if i == 0 {
                let x = ins[j - 1];
                if x == p {
                } else {
                    let w = choose|w: int| 0 <= w < tail.len() && tail[w] == x;
                    assert(ps[w + 1] == x);
                    assert(part_lt(ps[0], ps[w + 1]));
                }
            }
        }
        assert forall|q: LicensePartV| has_part_key(out, q) implies has_part_key(ps, q)
            || part_same_key(p, q) by {
            let i = choose|i: int| 0 <= i < out.len() && part_same_key(#[trigger] out[i], q);
            if i > 0 {
                assert(part_same_key(ins[i - 1], q));
                assert(has_part_key(ins, q));
                if has_part_key(tail, q) {
                    let w = choose|w: int|
                        0 <= w < tail.len() && part_same_key(#[trigger] tail[w], q);
                    assert(part_same_key(ps[w + 1], q));
                }
            }
        }
        assert forall|q: LicensePartV|
            has_part_key(ps, q) || part_same_key(p, q) implies has_part_key(out, q) by {
            if has_part_key(ps, q) {
                let w = choose|w: int| 0 <= w < ps.len() && part_same_key(#[trigger] ps[w], q);
                if w == 0 {
                    assert(part_same_key(out[0], q));
                } else {
                    assert(part_same_key(tail[w - 1], q));
                    assert(has_part_key(tail, q));
                    assert(has_part_key(ins, q));
                    let v = choose|v: int|
                        0 <= v < ins.len() && part_same_key(#[trigger] ins[v], q);
                    assert(part_same_key(out[v + 1], q));
                }
            } else {
                assert(has_part_key(ins, q));
                let v = choose|v: int| 0 <= v < ins.len() && part_same_key(#[trigger] ins[v], q);
                assert(part_same_key(out[v + 1], q));
            }
        }
        assert forall|j: int| 0 <= j < out.len() implies #[trigger] out[j] == p || ps.contains(
            out[j],
        ) by {
            if j > 0 {
                let x = ins[j - 1];
                if x != p {
                    let w = choose|w: int| 0 <= w < tail.len() && tail[w] == x;
                    assert(ps[w + 1] == x);
                }
            }
        }
    }
}

/// The law of deduplication: the collected parts stand in strictly
/// ascending intrinsic order, each comes from the referenced parts, and an
/// identifier is represented exactly when it is referenced — whatever the
/// number of dependencies and expressions referencing it.
pub proof fn lemma_dedup_parts_props(flat: Seq<LicensePartV>)
    ensures
        parts_sorted(dedup_parts_spec(flat)),
        forall|q: LicensePartV|
            has_part_key(dedup_parts_spec(flat), q) <==> has_part_key(flat, q),
        forall|j: int|
            0 <= j < dedup_parts_spec(flat).len() ==> flat.contains(
                #[trigger] dedup_parts_spec(flat)[j],
            ),
    decreases flat.len(),
{
    if flat.len() > 0 {
        let prefix = flat.drop_last();
        lemma_dedup_parts_props(prefix);
        lemma_insert_part_props(dedup_parts_spec(prefix), flat.last());
        assert(forall|i: int| 0 <= i < prefix.len() ==> prefix[i] == flat[i]);
        assert forall|q: LicensePartV|
            has_part_key(dedup_parts_spec(flat), q) implies has_part_key(flat, q) by {
            if has_part_key(prefix, q) {
                let w = choose|w: int|
                    0 <= w < prefix.len() && part_same_key(#[trigger] prefix[w], q);
                assert(part_same_key(flat[w], q));
            } else {
                assert(part_same_key(flat.last(), q));
                assert(part_same_key(flat[flat.len() - 1], q));
            }
        }
        assert forall|q: LicensePartV|
            has_part_key(flat, q) implies has_part_key(dedup_parts_spec(flat), q) by {
            let w = choose|w: int| 0 <= w < flat.len() && part_same_key(#[trigger] flat[w], q);
            if w < flat.len() - 1 {
                assert(part_same_key(prefix[w], q));
                assert(has_part_key(prefix, q));
                assert(has_part_key(dedup_parts_spec(prefix), q));
            } else {
                assert(part_same_key(flat.last(), q));
            }
            assert(has_part_key(insert_part_spec(dedup_parts_spec(prefix), flat.last()), q));
        }
        assert forall|j: int| 0 <= j < dedup_parts_spec(flat).len() implies flat.contains(
            #[trigger] dedup_parts_spec(flat)[j],
        ) by {
            let x = dedup_parts_spec(flat)[j];
            if x == flat.last() {
                assert(flat[flat.len() - 1] == x);
            } else if dedup_parts_spec(prefix).contains(x) {
                let w = choose|w: int|
                    0 <= w < dedup_parts_spec(prefix).len() && dedup_parts_spec(prefix)[w] == x;
                assert(prefix.contains(x));
                let v = choose|v: int| 0 <= v < prefix.len() && prefix[v] == x;
                assert(flat[v] == x);
            }
        }
    }
}

/// The ghost image of a sequence of parts, element by element.
pub open spec fn view_parts(s: Seq<LicensePart>) -> Seq<LicensePartV> {
    s.map_values(|p: LicensePart| p@)
}

/// Inserts a part into the sorted, deduplicated parts built so far.
fn insert_part(parts: Vec<LicensePart>, p: LicensePart) -> (out: Vec<LicensePart>)
    ensures
        view_parts(out@) == insert_part_spec(view_parts(parts@), p@),
    decreases parts@.len(),
{
    let ghost psv = view_parts(parts@);
    let mut parts = parts;
    if parts.len() == 0 {
        parts.push(p);
        assert(view_parts(parts@) =~= seq![parts@[0]@]);
        parts
    } else {
        match p.compare(&parts[0]) {
            Rank::Equal => {
                assert(view_parts(parts@) == insert_part_spec(psv, p@));
                parts
            },
            Rank::Less => {
                parts.insert(0, p);
                assert(view_parts(parts@) =~= seq![p@] + psv);
                parts
            },
            Rank::Greater => {
                let h = parts.remove(0);
                assert(view_parts(parts@) =~= psv.drop_first());
                let mut out = insert_part(parts, p);
                out.insert(0, h);
                assert(view_parts(out@) =~= seq![psv[0]] + insert_part_spec(
                    psv.drop_first(),
                    p@,
                ));
                out
            },
        }
    }
}

/// Walks every requirement of every group and hands back all referenced
/// parts in reading order, or the expression text of an offending group
/// when a non-SPDX item stands anywhere: nothing can be resolved for such
/// an item, so generation must abort.
fn extract_parts(groups: &Vec<LicenseGroup>) -> (r: Result<Vec<LicensePart>, String>)
    ensures
        match r {
            Ok(flat) => !groups_have_other(view_groups(groups@)) && view_parts(flat@)
                == groups_parts(view_groups(groups@)),
            Err(e) => groups_have_other(view_groups(groups@)) && exists|g: int|
                0 <= g < view_groups(groups@).len() && #[trigger] view_groups(
                    groups@,
                )[g].expression.text == e@ && reqs_have_other(
                    view_groups(groups@)[g].expression.requirements,
                ),
        },
{
    let ghost gsv = view_groups(groups@);
    let mut flat: Vec<LicensePart> = Vec::new();
    let glen = groups.len();
    let mut g: usize = 0;
    while g < glen
        invariant
            g <= glen,
            glen == groups.len(),
            gsv == view_groups(groups@),
            !groups_have_other(gsv.take(g as int)),
            view_parts(flat@) == groups_parts(gsv.take(g as int)),
        decreases glen - g,
    {
        let reqs = &groups[g].expression.requirements;
        let ghost rv = gsv[g as int].expression.requirements;
        assert(rv == crate::model::view_reqs(reqs@));
        let rlen = reqs.len();
        let mut i: usize = 0;
        while i < rlen
            invariant
                i <= rlen,
                rlen == reqs.len(),
                gsv == view_groups(groups@),
                g < glen == groups.len(),
                reqs == &groups@[g as int].expression.requirements,
                rv == gsv[g as int].expression.requirements,
                rv == crate::model::view_reqs(reqs@),
                !groups_have_other(gsv.take(g as int)),
                !reqs_have_other(rv.take(i as int)),
                view_parts(flat@) == groups_parts(gsv.take(g as int)) + reqs_parts(
                    rv.take(i as int),
                ),
            decreases rlen - i,
        {
            let req = &reqs[i];
            assert(req@ == rv[i as int]);
            match &req.license_item {
                LicenseItem::Other(_) => {
                    assert(req_is_other(rv[i as int]));
                    assert(reqs_have_other(rv));
                    assert(groups_have_other(gsv)) by {
                        assert(reqs_have_other(gsv[g as int].expression.requirements));
                    }
                    let e = groups[g].expression.text.clone();
                    assert(gsv[g as int].expression.text == e@);
                    return Err(e);
                },
                LicenseItem::Spdx(id) => {
                    flat.push(LicensePart::License(id.clone()));
                },
            }
            match &req.exception {
                Some(e) => {
                    flat.push(LicensePart::Exception(e.clone()));
                },
                None => {},
            }
            proof {
                broadcast use vstd::seq::Seq::lemma_push_map_commute;

                assert(rv.take(i as int + 1).drop_last() =~= rv.take(i as int));
                assert(rv.take(i as int + 1).last() == rv[i as int]);
                assert(reqs_parts(rv.take(i as int + 1)) =~= reqs_parts(rv.take(i as int))
                    + req_parts(rv[i as int]));
                assert(view_parts(flat@) =~= groups_parts(gsv.take(g as int)) + reqs_parts(
                    rv.take(i as int + 1),
                ));
                assert(!reqs_have_other(rv.take(i as int + 1))) by {
                    assert(forall|k: int|
                        0 <= k < i as int + 1 ==> rv.take(i as int + 1)[k] == rv.take(
                            i as int,
                        ).push(rv[i as int])[k]);
                }
            }
            i = i + 1;
        }
        proof {
            assert(rv.take(rlen as int) =~= rv);
            assert(gsv.take(g as int + 1).drop_last() =~= gsv.take(g as int));
            assert(gsv.take(g as int + 1).last() == gsv[g as int]);
            assert(view_parts(flat@) == groups_parts(gsv.take(g as int + 1)));
            assert(!groups_have_other(gsv.take(g as int + 1))) by {
                assert(forall|k: int|
                    0 <= k < g as int + 1 ==> gsv.take(g as int + 1)[k] == gsv.take(
                        g as int,
                    ).push(gsv[g as int])[k]);
            }
        }
        g = g + 1;
    }
    assert(gsv.take(glen as int) =~= gsv);
    Ok(flat)
}

/// Folds a flat part sequence into its sorted, deduplicated form.
fn dedup_parts(flat: Vec<LicensePart>) -> (parts: Vec<LicensePart>)
    ensures
        view_parts(parts@) == dedup_parts_spec(view_parts(flat@)),
{
    let ghost orig = view_parts(flat@);
    let mut rest = flat;
    let mut parts: Vec<LicensePart> = Vec::new();
    let ghost mut done: int = 0;
    while rest.len() > 0
        invariant
            0 <= done <= orig.len(),
            done + rest@.len() == orig.len(),
            view_parts(rest@) == orig.skip(done),
            view_parts(parts@) == dedup_parts_spec(orig.take(done)),
        decreases rest@.len(),
    {
        let ghost restv = view_parts(rest@);
        let p = rest.remove(0);
        proof {
            assert(p@ == restv[0]);
            assert(restv[0] == orig[done]);
            assert(view_parts(rest@) =~= restv.drop_first());
            assert(restv.drop_first() =~= orig.skip(done + 1));
        }
        parts = insert_part(parts, p);
        proof {
            assert(orig.take(done + 1).drop_last() =~= orig.take(done));
            assert(orig.take(done + 1).last() == orig[done]);
            done = done + 1;
        }
    }
    assert(orig.take(done) =~= orig);
    parts
}

/// Collects every license and exception identifier referenced across the
/// groups into a sorted sequence carrying each identifier exactly once, or
/// reports the expression text of a group whose expression holds a non-SPDX
/// item.
pub fn collect_parts(groups: &Vec<LicenseGroup>) -> (r: Result<Vec<LicensePart>, String>)
    ensures
        match r {
            Ok(parts) => !groups_have_other(view_groups(groups@)) && view_parts(parts@)
                == dedup_parts_spec(groups_parts(view_groups(groups@))),
            Err(e) => groups_have_other(view_groups(groups@)) && exists|g: int|
                0 <= g < view_groups(groups@).len() && #[trigger] view_groups(
                    groups@,
                )[g].expression.text == e@ && reqs_have_other(
                    view_groups(groups@)[g].expression.requirements,
                ),
        },
{
    match extract_parts(groups) {
        Ok(flat) => Ok(dedup_parts(flat)),
        Err(e) => Err(e),
    }
}

} // verus!
