//! The Dependency Grouper: partitions a flat list of dependency records into
//! groups keyed by the exact string rendering of their license expression,
//! ordered by ascending string comparison, each group keeping its members in
//! input order.

use vstd::prelude::*;

use crate::model::{DependencyRecord, DependencyRecordV, LicenseExpression, LicenseExpressionV};
use crate::strutil::{lemma_seq_lt_trans, lemma_seq_lt_trichotomy, seq_lt, str_compare, Rank};

verus! {

/// One group of the listing: a license expression, the dependencies governed
/// by it in input order, and how many they are.
pub struct LicenseGroup {
    pub expression: LicenseExpression,
    pub count: usize,
    pub members: Vec<DependencyRecord>,
}

/// Ghost image of a `LicenseGroup`.
pub ghost struct LicenseGroupV {
    pub expression: LicenseExpressionV,
    pub count: int,
    pub members: Seq<DependencyRecordV>,
}

impl View for LicenseGroup {
    type V = LicenseGroupV;

    open spec fn view(&self) -> LicenseGroupV {
        LicenseGroupV {
            expression: self.expression@,
            count: self.count as int,
            members: view_records(self.members@),
        }
    }
}

/// The ghost image of a sequence of records, element by element.
pub open spec fn view_records(s: Seq<DependencyRecord>) -> Seq<DependencyRecordV> {
    s.map_values(|r: DependencyRecord| r@)
}

/// The ghost image of a sequence of groups, element by element.
pub open spec fn view_groups(s: Seq<LicenseGroup>) -> Seq<LicenseGroupV> {
    s.map_values(|g: LicenseGroup| g@)
}

/// The grouping key of a record: the exact string rendering of its license
/// expression.
pub open spec fn rec_key(r: DependencyRecordV) -> Seq<char> {
    r.license_expression.text
}

/// The key of a group.
pub open spec fn group_key(g: LicenseGroupV) -> Seq<char> {
    g.expression.text
}

/// A fresh group holding one record.
pub open spec fn singleton_group(r: DependencyRecordV) -> LicenseGroupV {
    LicenseGroupV { expression: r.license_expression, count: 1, members: seq![r] }
}

/// A group extended by one more member.
pub open spec fn push_member(g: LicenseGroupV, r: DependencyRecordV) -> LicenseGroupV {
    LicenseGroupV {
        expression: g.expression,
        count: g.members.len() as int + 1,
        members: g.members.push(r),
    }
}

/// Inserts one record into a key-sorted group sequence: joins the group with
/// its key if there is one, opens a new group at the ordered position
/// otherwise.
pub open spec fn insert_record(gs: Seq<LicenseGroupV>, r: DependencyRecordV) -> Seq<LicenseGroupV>
    decreases gs.len(),
{
    if gs.len() == 0 {
        seq![singleton_group(r)]
    } else if rec_key(r) == group_key(gs[0]) {
        seq![push_member(gs[0], r)] + gs.drop_first()
    } else if seq_lt(rec_key(r), group_key(gs[0])) {
        seq![singleton_group(r)] + gs
    } else {
        seq![gs[0]] + insert_record(gs.drop_first(), r)
    }
}

/// The functional specification of grouping: records are folded, in input
/// order, into a group sequence sorted by expression string. Grouping is a
/// function of the input alone, so repeated runs on the same input emit the
/// groups in the same order.
pub open spec fn group_spec(rs: Seq<DependencyRecordV>) -> Seq<LicenseGroupV>
    decreases rs.len(),
{
    if rs.len() == 0 {
        Seq::empty()
    } else {
        insert_record(group_spec(rs.drop_last()), rs.last())
    }
}

/// Group keys are strictly ascending in the order of `seq_lt`.
pub open spec fn groups_sorted(gs: Seq<LicenseGroupV>) -> bool {
    forall|i: int, j: int| 0 <= i < j < gs.len() ==> seq_lt(group_key(gs[i]), group_key(gs[j]))
}

/// Every group's count equals the number of its members.
pub open spec fn counts_consistent(gs: Seq<LicenseGroupV>) -> bool {
    forall|i: int| 0 <= i < gs.len() ==> #[trigger] gs[i].count == gs[i].members.len()
}

/// The sum of the counts over a group sequence.
pub open spec fn sum_counts(gs: Seq<LicenseGroupV>) -> int
    decreases gs.len(),
{
    if gs.len() == 0 {
        0
    } else {
        gs[0].count + sum_counts(gs.drop_first())
    }
}

/// The members of the first group keyed `k`, or the empty sequence when no
/// group is.
pub open spec fn group_members(gs: Seq<LicenseGroupV>, k: Seq<char>) -> Seq<DependencyRecordV>
    decreases gs.len(),
{
    if gs.len() == 0 {
        Seq::empty()
    } else if group_key(gs[0]) == k {
        gs[0].members
    } else {
        group_members(gs.drop_first(), k)
    }
}

/// A group sequence without any group keyed `k` has no members for `k`.
proof fn lemma_no_key_no_members(gs: Seq<LicenseGroupV>, k: Seq<char>)
    requires
        forall|i: int| 0 <= i < gs.len() ==> group_key(#[trigger] gs[i]) != k,
    ensures
        group_members(gs, k) == Seq::<DependencyRecordV>::empty(),
    decreases gs.len(),
{
    if gs.len() > 0 {
        assert(group_key(gs[0]) != k);
        assert(forall|i: int|
            0 <= i < gs.drop_first().len() ==> group_key(#[trigger] gs.drop_first()[i]) != k);
        lemma_no_key_no_members(gs.drop_first(), k);
    }
}

/// Nonempty members for `k` mean some group is keyed `k`.
proof fn lemma_members_nonempty_has_key(gs: Seq<LicenseGroupV>, k: Seq<char>)
    requires
        group_members(gs, k).len() > 0,
    ensures
        exists|i: int| 0 <= i < gs.len() && group_key(#[trigger] gs[i]) == k,
    decreases gs.len(),
{
    if gs.len() > 0 {
        if group_key(gs[0]) == k {
            assert(group_key(gs[0]) == k);
        } else {
            lemma_members_nonempty_has_key(gs.drop_first(), k);
            let i = choose|i: int|
                0 <= i < gs.drop_first().len() && group_key(#[trigger] gs.drop_first()[i]) == k;
            assert(group_key(gs[i + 1]) == k);
        }
    }
}

/// What one insertion does: it keeps the keys sorted, keeps counts equal to
/// member numbers, adds exactly one to the summed counts, and introduces no
/// key beyond those present and the record's own.
proof fn lemma_insert_record_props(gs: Seq<LicenseGroupV>, r: DependencyRecordV)
    requires
        groups_sorted(gs),
        counts_consistent(gs),
    ensures
        groups_sorted(insert_record(gs, r)),
        counts_consistent(insert_record(gs, r)),
        sum_counts(insert_record(gs, r)) == sum_counts(gs) + 1,
        forall|j: int|
            0 <= j < insert_record(gs, r).len() ==> group_key(#[trigger] insert_record(gs, r)[j])
                == rec_key(r) || exists|i: int|
                0 <= i < gs.len() && group_key(#[trigger] gs[i]) == group_key(
                    insert_record(gs, r)[j],
                ),
    decreases gs.len(),
{
    let out = insert_record(gs, r);
    let rk = rec_key(r);
    if gs.len() == 0 {
        assert(out =~= seq![singleton_group(r)]);
        assert(out.drop_first() =~= Seq::<LicenseGroupV>::empty());
        assert(sum_counts(Seq::<LicenseGroupV>::empty()) == 0);
        assert(sum_counts(gs) == 0);
        assert(sum_counts(out) == 1);
    } else {
        let tail = gs.drop_first();
        assert(forall|i: int| 0 <= i < tail.len() ==> tail[i] == gs[i + 1]);
        if rk == group_key(gs[0]) {
            assert(out =~= seq![push_member(gs[0], r)] + tail);
            assert(out.drop_first() =~= tail);
            assert(out[0].count == out[0].members.len());
            assert(sum_counts(out) == out[0].count + sum_counts(tail));
            assert(gs[0].count == gs[0].members.len());
            assert(sum_counts(gs) == gs[0].count + sum_counts(tail));
        } else if seq_lt(rk, group_key(gs[0])) {
            assert(out =~= seq![singleton_group(r)] + gs);
            assert(out.drop_first() =~= gs);
            assert(forall|j: int| 1 <= j < out.len() ==> out[j] == gs[j - 1]);
            assert forall|i: int, j: int|
                0 <= i < j < out.len() implies seq_lt(
                group_key(out[i]),
                group_key(out[j]),
            ) by {
                if i == 0 {
                    if j > 1 {
                        lemma_seq_lt_trans(rk, group_key(gs[0]), group_key(gs[j - 1]));
                    }
                }
            }
            assert(sum_counts(out) == 1 + sum_counts(gs));
        } else {
            let ins = insert_record(tail, r);
            assert(groups_sorted(tail) && counts_consistent(tail));
            lemma_insert_record_props(tail, r);
            assert(out =~= seq![gs[0]] + ins);
            assert(out.drop_first() =~= ins);
            assert(forall|j: int| 1 <= j < out.len() ==> out[j] == ins[j - 1]);
            lemma_seq_lt_trichotomy(rk, group_key(gs[0]));
            assert(seq_lt(group_key(gs[0]), rk));
            assert forall|i: int, j: int|
                0 <= i < j < out.len() implies seq_lt(
                group_key(out[i]),
                group_key(out[j]),
            ) by {
                if i == 0 {
                    let kj = group_key(ins[j - 1]);
                    if kj == rk {
                    } else {
                        let w = choose|w: int|
                            0 <= w < tail.len() && group_key(#[trigger] tail[w]) == kj;
                        assert(seq_lt(group_key(gs[0]), group_key(gs[w + 1])));
                    }
                }
            }
            assert(sum_counts(out) == gs[0].count + sum_counts(ins));
            assert(sum_counts(gs) == gs[0].count + sum_counts(tail));
            assert forall|j: int|
                0 <= j < out.len() implies group_key(out[j]) == rk || exists|i: int|
                0 <= i < gs.len() && group_key(#[trigger] gs[i]) == group_key(out[j]) by {
                if j == 0 {
                    assert(group_key(gs[0]) == group_key(out[0]));
                } else {
                    let kj = group_key(ins[j - 1]);
                    if kj != rk {
                        let w = choose|w: int|
                            0 <= w < tail.len() && group_key(#[trigger] tail[w]) == kj;
                        assert(group_key(gs[w + 1]) == kj);
                    }
                }
            }
        }
    }
}

/// What one insertion does to the members of each key: the record's own key
/// gains exactly that record, at the end; every other key keeps its members.
proof fn lemma_insert_record_members(gs: Seq<LicenseGroupV>, r: DependencyRecordV, k: Seq<char>)
    requires
        groups_sorted(gs),
    ensures
        group_members(insert_record(gs, r), k) == if k == rec_key(r) {
            group_members(gs, k).push(r)
        } else {
            group_members(gs, k)
        },
    decreases gs.len(),
{
    let out = insert_record(gs, r);
    let rk = rec_key(r);
    if gs.len() == 0 {
        assert(out =~= seq![singleton_group(r)]);
        assert(out.drop_first() =~= Seq::<LicenseGroupV>::empty());
        assert(group_members(Seq::<LicenseGroupV>::empty(), k) == Seq::<DependencyRecordV>::empty());
        if k == rk {
            assert(group_members(out, k) == singleton_group(r).members);
            assert(Seq::<DependencyRecordV>::empty().push(r) =~= seq![r]);
        }
    } else {
        let tail = gs.drop_first();
        assert(forall|i: int| 0 <= i < tail.len() ==> tail[i] == gs[i + 1]);
        if rk == group_key(gs[0]) {
            assert(out =~= seq![push_member(gs[0], r)] + tail);
            assert(out.drop_first() =~= tail);
            assert(group_key(out[0]) == group_key(gs[0]));
        } else if seq_lt(rk, group_key(gs[0])) {
            assert(out =~= seq![singleton_group(r)] + gs);
            assert(out.drop_first() =~= gs);
            if k == rk {
                assert(group_members(out, k) == singleton_group(r).members);
                assert forall|i: int| 0 <= i < gs.len() implies group_key(
                    #[trigger] gs[i],
                ) != k by {
                    if i > 0 {
                        lemma_seq_lt_trans(rk, group_key(gs[0]), group_key(gs[i]));
                    }
                    lemma_seq_lt_trichotomy(k, group_key(gs[i]));
                }
                lemma_no_key_no_members(gs, k);
                assert(Seq::<DependencyRecordV>::empty().push(r) =~= seq![r]);
            } else {
                assert(group_key(out[0]) == rk);
            }
        } else {
            let ins = insert_record(tail, r);
            assert(groups_sorted(tail));
            lemma_insert_record_members(tail, r, k);
            assert(out =~= seq![gs[0]] + ins);
            assert(out.drop_first() =~= ins);
            assert(group_key(out[0]) == group_key(gs[0]));
            lemma_seq_lt_trichotomy(rk, group_key(gs[0]));
        }
    }
}

/// The laws of grouping, stated of the functional specification: the groups
/// stand in a strictly ascending, deterministic key order; every count is
/// the number of members of its group; and the counts sum to the number of
/// input records, so no record is lost or duplicated.
pub proof fn lemma_group_spec_properties(rs: Seq<DependencyRecordV>)
    ensures
        groups_sorted(group_spec(rs)),
        counts_consistent(group_spec(rs)),
        sum_counts(group_spec(rs)) == rs.len(),
    decreases rs.len(),
{
    if rs.len() > 0 {
        lemma_group_spec_properties(rs.drop_last());
        lemma_insert_record_props(group_spec(rs.drop_last()), rs.last());
    }
}

/// The partition law: for every key, the members of the group keyed by it
/// are exactly the input records bearing that key, in input order.
pub proof fn lemma_group_spec_partition(rs: Seq<DependencyRecordV>, k: Seq<char>)
    ensures
        group_members(group_spec(rs), k) == rs.filter(|r: DependencyRecordV| rec_key(r) == k),
    decreases rs.len(),
{
    reveal(Seq::filter);
    let pred = |r: DependencyRecordV| rec_key(r) == k;
    if rs.len() == 0 {
        assert(rs.filter(pred) =~= Seq::<DependencyRecordV>::empty());
    } else {
        let prefix = rs.drop_last();
        lemma_group_spec_partition(prefix, k);
        lemma_group_spec_properties(prefix);
        lemma_insert_record_members(group_spec(prefix), rs.last(), k);
    }
}

/// Every record of the input belongs to exactly one produced group: one
/// group carries its expression string, and no second one does.
pub proof fn lemma_record_in_one_group(rs: Seq<DependencyRecordV>, i: int)
    requires
        0 <= i < rs.len(),
    ensures
        exists|j: int|
            0 <= j < group_spec(rs).len() && group_key(#[trigger] group_spec(rs)[j]) == rec_key(
                rs[i],
            ),
        forall|j1: int, j2: int|
            (0 <= j1 < group_spec(rs).len() && 0 <= j2 < group_spec(rs).len() && group_key(
                #[trigger] group_spec(rs)[j1],
            ) == rec_key(rs[i]) && group_key(#[trigger] group_spec(rs)[j2]) == rec_key(rs[i]))
                ==> j1 == j2,
{
    let k = rec_key(rs[i]);
    let pred = |r: DependencyRecordV| rec_key(r) == k;
    lemma_group_spec_partition(rs, k);
    rs.lemma_filter_contains(pred, i);
    assert(rs.filter(pred).len() > 0) by {
        assert(rs.filter(pred).contains(rs[i]));
    }
    lemma_members_nonempty_has_key(group_spec(rs), k);
    lemma_group_spec_properties(rs);
    assert forall|j1: int, j2: int|
        (0 <= j1 < group_spec(rs).len() && 0 <= j2 < group_spec(rs).len() && group_key(
            #[trigger] group_spec(rs)[j1],
        ) == k && group_key(#[trigger] group_spec(rs)[j2]) == k) implies j1 == j2 by {
        lemma_seq_lt_trichotomy(k, k);
    }
}

/// Inserts one record into the key-sorted groups built so far.
fn insert_sorted(gs: Vec<LicenseGroup>, r: DependencyRecord) -> (out: Vec<LicenseGroup>)
    ensures
        view_groups(out@) == insert_record(view_groups(gs@), r@),
    decreases gs@.len(),
{
    let ghost gsv = view_groups(gs@);
    let mut gs = gs;
    if gs.len() == 0 {
        let expression = r.license_expression.clone();
        let mut members: Vec<DependencyRecord> = Vec::new();
        members.push(r);
        let g = LicenseGroup { expression, count: 1, members };
        assert(view_records(g.members@) =~= seq![g.members@[0]@]);
        let mut out: Vec<LicenseGroup> = Vec::new();
        out.push(g);
        assert(view_groups(out@) =~= insert_record(gsv, r@));
        out
    } else {
        match str_compare(
            r.license_expression.text.as_str(),
            gs[0].expression.text.as_str(),
        ) {
            Rank::Equal => {
                let mut g0 = gs.remove(0);
                let ghost g0v = g0@;
                g0.members.push(r);
                g0.count = g0.members.len();
                proof {
                    broadcast use vstd::seq::Seq::lemma_push_map_commute;

                    assert(g0@.members =~= g0v.members.push(r@));
                    assert(g0@ == push_member(gsv[0], r@));
                }
                gs.insert(0, g0);
                assert(view_groups(gs@) =~= seq![push_member(gsv[0], r@)] + gsv.drop_first());
                gs
            },
            Rank::Less => {
                let expression = r.license_expression.clone();
                let mut members: Vec<DependencyRecord> = Vec::new();
                members.push(r);
                let g = LicenseGroup { expression, count: 1, members };
                assert(view_records(g.members@) =~= seq![g.members@[0]@]);
                assert(g@ == singleton_group(r@));
                gs.insert(0, g);
                assert(view_groups(gs@) =~= seq![singleton_group(r@)] + gsv);
                gs
            },
            Rank::Greater => {
                let g0 = gs.remove(0);
                assert(view_groups(gs@) =~= gsv.drop_first());
                let mut out = insert_sorted(gs, r);
                out.insert(0, g0);
                assert(view_groups(out@) =~= seq![gsv[0]] + insert_record(
                    gsv.drop_first(),
                    r@,
                ));
                out
            },
        }
    }
}

/// Groups the records by the string rendering of their license expression.
/// The result is exactly `group_spec` of the input: groups sorted by
/// expression string, members in input order, counts equal to member
/// numbers.
pub fn group(records: Vec<DependencyRecord>) -> (gs: Vec<LicenseGroup>)
    ensures
        view_groups(gs@) == group_spec(view_records(records@)),
{
    let ghost orig = view_records(records@);
    let mut rest = records;
    let mut gs: Vec<LicenseGroup> = Vec::new();
    let ghost mut done: int = 0;
    while rest.len() > 0
        invariant
            0 <= done <= orig.len(),
            done + rest@.len() == orig.len(),
            view_records(rest@) == orig.skip(done),
            view_groups(gs@) == group_spec(orig.take(done)),
        decreases rest@.len(),
    {
        let ghost restv = view_records(rest@);
        let r = rest.remove(0);
        proof {
            assert(r@ == restv[0]);
            assert(restv[0] == orig[done]);
            assert(view_records(rest@) =~= restv.drop_first());
            assert(restv.drop_first() =~= orig.skip(done + 1));
        }
        gs = insert_sorted(gs, r);
        proof {
            assert(orig.take(done + 1).drop_last() =~= orig.take(done));
            assert(orig.take(done + 1).last() == orig[done]);
            assert(group_spec(orig.take(done + 1)) == insert_record(
                group_spec(orig.take(done)),
                orig[done],
            ));
            done = done + 1;
        }
    }
    assert(orig.take(done) =~= orig);
    gs
}

} // verus!
