//! The engine's laws: properties of the store and the aggregation that
//! hold for every input, stated over the specification functions that the
//! executable operations are proved to implement.

use vstd::prelude::*;
use crate::condition::ConditionView;
use crate::condition_set::ConditionSet;
use crate::condition_type::ConditionType;
use crate::status::ConditionStatus;
use crate::store::{
    wf_store, has_type, idx_of, cond_at, types_of, spec_set_cond, lemma_set_cond,
    lemma_idx_of_unique,
};
use crate::manager::{
    is_unhappy_dependent, spec_find_unhappy, happy_mirror, happy_all_true, mk_cond,
    spec_recompute, spec_mark_true, spec_mark_true_with_reason, spec_mark_false,
    spec_mark_unknown,
};

verus! {

/// The unhappy-dependent scan reads nothing but the unhappy dependents:
/// two stores of equal length that agree on every entry that either store
/// considers an unhappy dependent scan to the same result.
pub proof fn lemma_find_unhappy_congruence<C: ConditionType>(
    s1: Seq<ConditionView<C>>,
    s2: Seq<ConditionView<C>>,
    set: ConditionSet<C>,
)
    requires
        s1.len() == s2.len(),
        forall|i: int|
            0 <= i < s1.len() && (is_unhappy_dependent(set, #[trigger] s1[i])
                || is_unhappy_dependent(set, #[trigger] s2[i])) ==> s1[i] == s2[i],
    ensures
        spec_find_unhappy(s1, set) == spec_find_unhappy(s2, set),
    decreases s1.len(),
{
    if s1.len() > 0 {
        let p1 = s1.drop_last();
        let p2 = s2.drop_last();
        assert forall|i: int|
            0 <= i < p1.len() && (is_unhappy_dependent(set, #[trigger] p1[i])
                || is_unhappy_dependent(set, #[trigger] p2[i])) implies p1[i] == p2[i] by {
            assert(p1[i] == s1[i]);
            assert(p2[i] == s2[i]);
        }
        lemma_find_unhappy_congruence(p1, p2, set);
        let n = s1.len() - 1;
        if is_unhappy_dependent(set, s1.last()) || is_unhappy_dependent(set, s2.last()) {
            assert(s1[n] == s2[n]);
        }
    }
}

/// What the unhappy-dependent scan returns: nothing exactly when no entry
/// is an unhappy dependent; otherwise one of the unhappy dependents, and
/// one that no unhappy dependent outranks.  In particular, when dependents
/// are `False`, the result is `False`, and among `False` dependents with
/// timestamps none is later than the result.
pub proof fn lemma_find_unhappy_characterization<C: ConditionType>(
    s: Seq<ConditionView<C>>,
    set: ConditionSet<C>,
)
    ensures
        match spec_find_unhappy(s, set) {
            Option::None => forall|i: int|
                0 <= i < s.len() ==> !is_unhappy_dependent(set, #[trigger] s[i]),
            Option::Some(u) => {
                &&& exists|i: int|
                    0 <= i < s.len() && #[trigger] s[i] == u && is_unhappy_dependent(set, s[i])
                &&& forall|i: int|
                    0 <= i < s.len() && is_unhappy_dependent(set, #[trigger] s[i])
                        ==> !s[i].outranks(u)
            },
        },
    decreases s.len(),
{
    if s.len() > 0 {
        let p = s.drop_last();
        lemma_find_unhappy_characterization(p, set);
        let n = s.len() - 1;
        let last = s.last();
        assert(forall|i: int| 0 <= i < n ==> #[trigger] s[i] == p[i]);
        match spec_find_unhappy(p, set) {
            Option::None => {
                if is_unhappy_dependent(set, last) {
                    assert(spec_find_unhappy(s, set) == Option::Some(last));
                    assert(s[n] == last && is_unhappy_dependent(set, s[n]));
                }
            }
            Option::Some(u) => {
                let wi = choose|i: int|
                    0 <= i < p.len() && #[trigger] p[i] == u && is_unhappy_dependent(set, p[i]);
                assert(s[wi] == u && is_unhappy_dependent(set, s[wi]));
                if is_unhappy_dependent(set, last) && last.outranks(u) {
                    assert(spec_find_unhappy(s, set) == Option::Some(last));
                    assert(s[n] == last && is_unhappy_dependent(set, s[n]));
                    assert forall|i: int|
                        0 <= i < s.len() && is_unhappy_dependent(set, #[trigger] s[i])
                            implies !s[i].outranks(last) by {
                        if i < n && s[i].outranks(last) {
                            crate::condition::lemma_outranks_transitive(s[i], last, u);
                        }
                    }
                }
            }
        }
    }
}

/// The tie-break between failing dependents: when exactly two entries
/// block happiness, both `False`, the scan returns the one whose
/// transition time is later.
pub proof fn lemma_tie_break_later_false_wins<C: ConditionType>(
    s: Seq<ConditionView<C>>,
    set: ConditionSet<C>,
    i: int,
    j: int,
)
    requires
        0 <= i < s.len(),
        0 <= j < s.len(),
        is_unhappy_dependent(set, s[i]),
        is_unhappy_dependent(set, s[j]),
        s[i].status == ConditionStatus::False,
        s[j].status == ConditionStatus::False,
        s[i].last_transition_time is Some,
        s[j].last_transition_time is Some,
        s[j].last_transition_time->0 > s[i].last_transition_time->0,
        forall|k: int|
            0 <= k < s.len() && is_unhappy_dependent(set, #[trigger] s[k]) ==> k == i || k == j,
    ensures
        spec_find_unhappy(s, set) == Option::Some(s[j]),
{
    lemma_find_unhappy_characterization(s, set);
    assert(s[j].outranks(s[i]));
    match spec_find_unhappy(s, set) {
        Option::None => {
            assert(!is_unhappy_dependent(set, s[j]));
        }
        Option::Some(u) => {
            let wk = choose|k: int|
                0 <= k < s.len() && #[trigger] s[k] == u && is_unhappy_dependent(set, s[k]);
            assert(wk == i || wk == j);
            assert(!s[j].outranks(u));
            assert(u == s[j]);
        }
    }
}

/// An upsert whose incoming value is no unhappy dependent, over a store
/// whose entry of that type (if any) is none either, leaves the
/// unhappy-dependent scan unchanged.
pub proof fn lemma_find_unhappy_after_set_cond<C: ConditionType>(
    s: Seq<ConditionView<C>>,
    c: ConditionView<C>,
    now: i64,
    set: ConditionSet<C>,
)
    requires
        wf_store(s),
        !is_unhappy_dependent(set, c.stamped(now)),
        has_type(s, c.type_) ==> !is_unhappy_dependent(set, cond_at(s, c.type_)),
    ensures
        spec_find_unhappy(spec_set_cond(s, c, now), set) == spec_find_unhappy(s, set),
{
    let r = spec_set_cond(s, c, now);
    lemma_set_cond(s, c, now);
    if has_type(s, c.type_) {
        if cond_at(s, c.type_).value_eq(c) {
        } else {
            let i = idx_of(s, c.type_);
            assert(r == s.update(i, c.stamped(now)));
            assert forall|k: int|
                0 <= k < s.len() && (is_unhappy_dependent(set, #[trigger] s[k])
                    || is_unhappy_dependent(set, #[trigger] r[k])) implies s[k] == r[k] by {
                if k == i {
                    assert(s[k] == cond_at(s, c.type_));
                    assert(r[k] == c.stamped(now));
                }
            }
            lemma_find_unhappy_congruence(s, r, set);
        }
    } else {
        assert(r == s.push(c.stamped(now)));
        assert(r.drop_last() =~= s);
        assert(r.last() == c.stamped(now));
    }
}

/// Being a prefix is transitive.
proof fn lemma_prefix_transitive<T>(a: Seq<T>, b: Seq<T>, c: Seq<T>)
    requires
        a.is_prefix_of(b),
        b.is_prefix_of(c),
    ensures
        a.is_prefix_of(c),
{
    assert(a =~= c.subrange(0, a.len() as int)) by {
        assert(forall|i: int| 0 <= i < a.len() ==> a[i] == b.subrange(0, a.len() as int)[i]);
        assert(forall|i: int| 0 <= i < b.len() ==> b[i] == c.subrange(0, b.len() as int)[i]);
    }
}

/// Order preservation of one upsert: the types already in the store keep
/// their positions; a new type is appended at the end.
pub proof fn lemma_set_cond_keeps_order<C: ConditionType>(
    s: Seq<ConditionView<C>>,
    c: ConditionView<C>,
    now: i64,
)
    requires
        wf_store(s),
    ensures
        types_of(s).is_prefix_of(types_of(spec_set_cond(s, c, now))),
{
    lemma_set_cond(s, c, now);
    if has_type(s, c.type_) {
        assert(types_of(s).is_prefix_of(types_of(s))) by {
            assert(types_of(s).subrange(0, types_of(s).len() as int) =~= types_of(s));
        }
    } else {
        let t2 = types_of(s).push(c.type_);
        assert(t2.subrange(0, types_of(s).len() as int) =~= types_of(s));
    }
}

/// Order preservation of the mark-true operation: however often existing
/// types are updated, iteration order stays first-seen order, with any
/// brand-new types appended.
pub proof fn lemma_mark_true_keeps_order<C: ConditionType>(
    s: Seq<ConditionView<C>>,
    set: ConditionSet<C>,
    t: C,
    reason: Option<Seq<char>>,
    message: Option<Seq<char>>,
    now: i64,
)
    requires
        wf_store(s),
    ensures
        types_of(s).is_prefix_of(
            types_of(spec_mark_true_with_reason(s, set, t, reason, message, now)),
        ),
{
    let c = mk_cond(t, ConditionStatus::True, set.spec_severity(t), reason, message);
    let s1 = spec_set_cond(s, c, now);
    lemma_set_cond(s, c, now);
    lemma_set_cond_keeps_order(s, c, now);
    lemma_recompute_keeps_order(s1, set, t, now);
    lemma_prefix_transitive(
        types_of(s),
        types_of(s1),
        types_of(spec_recompute(s1, set, t, now)),
    );
}

/// Order preservation of the recompute step.
pub proof fn lemma_recompute_keeps_order<C: ConditionType>(
    s: Seq<ConditionView<C>>,
    set: ConditionSet<C>,
    trigger: C,
    now: i64,
)
    requires
        wf_store(s),
    ensures
        types_of(s).is_prefix_of(types_of(spec_recompute(s, set, trigger, now))),
{
    match spec_find_unhappy(s, set) {
        Option::Some(d) => {
            lemma_set_cond_keeps_order(s, happy_mirror(set, d), now);
        }
        Option::None => {
            if trigger != set.happy {
                lemma_set_cond_keeps_order(s, happy_all_true(set), now);
            } else {
                assert(types_of(s).subrange(0, types_of(s).len() as int) =~= types_of(s));
            }
        }
    }
}

/// Order preservation of the mark-false operation.
pub proof fn lemma_mark_false_keeps_order<C: ConditionType>(
    s: Seq<ConditionView<C>>,
    set: ConditionSet<C>,
    t: C,
    reason: Seq<char>,
    message: Option<Seq<char>>,
    now: i64,
)
    requires
        wf_store(s),
    ensures
        types_of(s).is_prefix_of(types_of(spec_mark_false(s, set, t, reason, message, now))),
{
    let c = mk_cond(
        t,
        ConditionStatus::False,
        set.spec_severity(t),
        Option::Some(reason),
        message,
    );
    let s1 = spec_set_cond(s, c, now);
    lemma_set_cond(s, c, now);
    lemma_set_cond_keeps_order(s, c, now);
    if set.dependents@.contains(t) {
        let c2 = mk_cond(
            set.happy,
            ConditionStatus::False,
            set.spec_severity(set.happy),
            Option::Some(reason),
            message,
        );
        lemma_set_cond_keeps_order(s1, c2, now);
        lemma_prefix_transitive(
            types_of(s),
            types_of(s1),
            types_of(spec_set_cond(s1, c2, now)),
        );
    }
}

/// Marking a condition true twice with identical payload is idempotent:
/// the second call changes nothing, not even a transition timestamp.  The
/// one family of inputs left out: re-marking the happy condition itself
/// true while a dependent still blocks happiness, where each call first
/// overwrites and then re-derives the happy condition, stamping it anew.
pub proof fn lemma_mark_true_idempotent<C: ConditionType>(
    s: Seq<ConditionView<C>>,
    set: ConditionSet<C>,
    t: C,
    ts1: i64,
    ts2: i64,
)
    requires
        set.wf(),
        wf_store(s),
        has_type(s, set.happy),
        t != set.happy || spec_find_unhappy(s, set) is None,
    ensures
        spec_mark_true(spec_mark_true(s, set, t, ts1), set, t, ts2)
            == spec_mark_true(s, set, t, ts1),
{
    let c_t = mk_cond(t, ConditionStatus::True, set.spec_severity(t), Option::None, Option::None);
    let s1 = spec_set_cond(s, c_t, ts1);
    lemma_set_cond(s, c_t, ts1);
    let s2 = spec_recompute(s1, set, t, ts1);
    assert(spec_mark_true(s, set, t, ts1) == s2);
    if t != set.happy {
        match spec_find_unhappy(s1, set) {
            Option::Some(d) => {
                let m = happy_mirror(set, d);
                lemma_set_cond(s1, m, ts1);
                assert(s2 == spec_set_cond(s1, m, ts1));
                lemma_find_unhappy_characterization(s1, set);
                let wi = choose|i: int|
                    0 <= i < s1.len() && #[trigger] s1[i] == d && is_unhappy_dependent(set, s1[i]);
                if d.type_ == t {
                    lemma_idx_of_unique(s1, t, wi);
                    assert(cond_at(s1, t).value_eq(c_t));
                    assert(d.status == ConditionStatus::True);
                    assert(false);
                }
                assert(cond_at(s2, t) == cond_at(s1, t));
                assert(cond_at(s2, t).value_eq(c_t));
                assert(has_type(s2, t));
                let s3 = spec_set_cond(s2, c_t, ts2);
                lemma_set_cond(s2, c_t, ts2);
                assert(s3 == s2);
                assert(cond_at(s1, set.happy).type_ == set.happy);
                lemma_find_unhappy_after_set_cond(s1, m, ts1, set);
                assert(spec_find_unhappy(s2, set) == Option::Some(d));
                assert(cond_at(s2, m.type_).value_eq(m));
                assert(has_type(s2, m.type_));
                assert(spec_recompute(s3, set, t, ts2) == spec_set_cond(s2, m, ts2));
                assert(spec_set_cond(s2, m, ts2) == s2);
            }
            Option::None => {
                let a = happy_all_true(set);
                lemma_set_cond(s1, a, ts1);
                assert(s2 == spec_set_cond(s1, a, ts1));
                assert(cond_at(s2, t) == cond_at(s1, t));
                assert(cond_at(s2, t).value_eq(c_t));
                assert(has_type(s2, t));
                let s3 = spec_set_cond(s2, c_t, ts2);
                lemma_set_cond(s2, c_t, ts2);
                assert(s3 == s2);
                assert(cond_at(s1, set.happy).type_ == set.happy);
                lemma_find_unhappy_after_set_cond(s1, a, ts1, set);
                assert(spec_find_unhappy(s2, set) is None);
                assert(cond_at(s2, a.type_).value_eq(a));
                assert(has_type(s2, a.type_));
                assert(spec_recompute(s3, set, t, ts2) == spec_set_cond(s2, a, ts2));
                assert(spec_set_cond(s2, a, ts2) == s2);
            }
        }
    } else {
        assert(cond_at(s, set.happy).type_ == set.happy);
        lemma_find_unhappy_after_set_cond(s, c_t, ts1, set);
        assert(spec_find_unhappy(s1, set) is None);
        assert(s2 == s1);
        let s3 = spec_set_cond(s1, c_t, ts2);
        lemma_set_cond(s1, c_t, ts2);
        assert(cond_at(s1, t).value_eq(c_t) && has_type(s1, t));
        assert(s3 == s1);
        assert(spec_recompute(s3, set, t, ts2) == s1);
    }
}

/// Aggregation correctness of the recompute step: when any dependent
/// blocks happiness the happy condition ends carrying the worst
/// dependent's status, reason and message; when none does it ends `True`
/// with reason and message cleared.
pub proof fn lemma_recompute_mirrors_worst<C: ConditionType>(
    s: Seq<ConditionView<C>>,
    set: ConditionSet<C>,
    trigger: C,
    now: i64,
)
    requires
        wf_store(s),
        has_type(s, set.happy),
        trigger != set.happy,
    ensures
        ({
            let post = spec_recompute(s, set, trigger, now);
            match spec_find_unhappy(s, set) {
                Option::Some(d) => {
                    &&& cond_at(post, set.happy).status == d.status
                    &&& cond_at(post, set.happy).reason == d.reason
                    &&& cond_at(post, set.happy).message == d.message
                },
                Option::None => {
                    &&& cond_at(post, set.happy).status == ConditionStatus::True
                    &&& cond_at(post, set.happy).reason is None
                    &&& cond_at(post, set.happy).message is None
                },
            }
        }),
{
    match spec_find_unhappy(s, set) {
        Option::Some(d) => {
            lemma_set_cond(s, happy_mirror(set, d), now);
        }
        Option::None => {
            lemma_set_cond(s, happy_all_true(set), now);
        }
    }
}

/// Aggregation correctness of marking true: when every unhappy dependent
/// in the store is of the marked type, the happy condition ends `True`.
pub proof fn lemma_mark_true_all_true<C: ConditionType>(
    s: Seq<ConditionView<C>>,
    set: ConditionSet<C>,
    t: C,
    now: i64,
)
    requires
        set.wf(),
        wf_store(s),
        has_type(s, set.happy),
        t != set.happy,
        forall|i: int|
            0 <= i < s.len() && is_unhappy_dependent(set, #[trigger] s[i]) ==> s[i].type_ == t,
    ensures
        cond_at(spec_mark_true(s, set, t, now), set.happy).status == ConditionStatus::True,
        cond_at(spec_mark_true(s, set, t, now), set.happy).reason is None,
        cond_at(spec_mark_true(s, set, t, now), set.happy).message is None,
{
    let c_t = mk_cond(t, ConditionStatus::True, set.spec_severity(t), Option::None, Option::None);
    let s1 = spec_set_cond(s, c_t, now);
    lemma_set_cond(s, c_t, now);
    lemma_find_unhappy_characterization(s1, set);
    match spec_find_unhappy(s1, set) {
        Option::Some(d) => {
            let wi = choose|i: int|
                0 <= i < s1.len() && #[trigger] s1[i] == d && is_unhappy_dependent(set, s1[i]);
            if wi < s.len() {
                if s[wi].type_ == t {
                    lemma_idx_of_unique(s, t, wi);
                    assert(s1[wi] == cond_at(s1, t) || s1[wi] == s[wi]) by {
                        if !cond_at(s, t).value_eq(c_t) {
                            assert(s1 == s.update(idx_of(s, t), c_t.stamped(now)));
                        }
                    }
                    assert(cond_at(s1, t).value_eq(c_t));
                    lemma_idx_of_unique(s1, t, wi);
                    assert(false);
                } else {
                    assert(s1[wi] == s[wi]);
                    assert(false);
                }
            } else {
                assert(s1 == s.push(c_t.stamped(now)));
                assert(s1[wi] == c_t.stamped(now));
                assert(false);
            }
        }
        Option::None => {
            lemma_set_cond(s1, happy_all_true(set), now);
        }
    }
}

/// Aggregation correctness of marking false: a dependent going false
/// forces the happy condition `False` with the same reason and message,
/// whatever the other dependents hold.
pub proof fn lemma_mark_false_dependent_forces_happy<C: ConditionType>(
    s: Seq<ConditionView<C>>,
    set: ConditionSet<C>,
    t: C,
    reason: Seq<char>,
    message: Option<Seq<char>>,
    now: i64,
)
    requires
        set.wf(),
        wf_store(s),
        set.dependents@.contains(t),
    ensures
        ({
            let post = spec_mark_false(s, set, t, reason, message, now);
            &&& has_type(post, set.happy)
            &&& cond_at(post, set.happy).status == ConditionStatus::False
            &&& cond_at(post, set.happy).reason == Option::Some(reason)
            &&& cond_at(post, set.happy).message == message
        }),
{
    let c_t = mk_cond(
        t,
        ConditionStatus::False,
        set.spec_severity(t),
        Option::Some(reason),
        message,
    );
    let s1 = spec_set_cond(s, c_t, now);
    lemma_set_cond(s, c_t, now);
    let c_h = mk_cond(
        set.happy,
        ConditionStatus::False,
        set.spec_severity(set.happy),
        Option::Some(reason),
        message,
    );
    lemma_set_cond(s1, c_h, now);
}

/// A fresh `Unknown` observation does not mask a hard failure: as long as
/// some other dependent stands `False`, marking any condition unknown
/// leaves the happy condition `False`.
pub proof fn lemma_mark_unknown_does_not_mask_false<C: ConditionType>(
    s: Seq<ConditionView<C>>,
    set: ConditionSet<C>,
    t: C,
    reason: Seq<char>,
    message: Option<Seq<char>>,
    now: i64,
)
    requires
        set.wf(),
        wf_store(s),
        has_type(s, set.happy),
        exists|i: int|
            0 <= i < s.len() && is_unhappy_dependent(set, #[trigger] s[i])
                && s[i].status == ConditionStatus::False && s[i].type_ != t,
    ensures
        cond_at(spec_mark_unknown(s, set, t, reason, message, now), set.happy).status
            == ConditionStatus::False,
{
    let c_t = mk_cond(
        t,
        ConditionStatus::Unknown,
        set.spec_severity(t),
        Option::Some(reason),
        message,
    );
    let s1 = spec_set_cond(s, c_t, now);
    lemma_set_cond(s, c_t, now);
    let wi = choose|i: int|
        0 <= i < s.len() && is_unhappy_dependent(set, #[trigger] s[i])
            && s[i].status == ConditionStatus::False && s[i].type_ != t;
    assert(s1[wi] == s[wi]);
    lemma_find_unhappy_characterization(s1, set);
    match spec_find_unhappy(s1, set) {
        Option::Some(d) => {
            assert(!s1[wi].outranks(d));
            assert(d.status == ConditionStatus::False);
            if cond_at(s1, set.happy).status != ConditionStatus::False {
                let c_h = mk_cond(
                    set.happy,
                    ConditionStatus::False,
                    set.spec_severity(set.happy),
                    Option::Some(reason),
                    message,
                );
                lemma_set_cond(s1, c_h, now);
            }
        }
        Option::None => {
            assert(!is_unhappy_dependent(set, s1[wi]));
            assert(false);
        }
    }
}

/// Marking a terminal condition unknown resets readiness: when no
/// dependent of another type stands `False`, the happy condition becomes
/// `Unknown`, carrying the caller's reason and message.
pub proof fn lemma_mark_unknown_resets_happy<C: ConditionType>(
    s: Seq<ConditionView<C>>,
    set: ConditionSet<C>,
    t: C,
    reason: Seq<char>,
    message: Option<Seq<char>>,
    now: i64,
)
    requires
        set.wf(),
        wf_store(s),
        has_type(s, set.happy),
        set.spec_is_terminal(t),
        forall|i: int|
            0 <= i < s.len() && is_unhappy_dependent(set, #[trigger] s[i])
                && s[i].status == ConditionStatus::False ==> s[i].type_ == t,
    ensures
        ({
            let post = spec_mark_unknown(s, set, t, reason, message, now);
            &&& has_type(post, set.happy)
            &&& cond_at(post, set.happy).status == ConditionStatus::Unknown
            &&& cond_at(post, set.happy).reason == Option::Some(reason)
            &&& cond_at(post, set.happy).message == message
        }),
{
    let c_t = mk_cond(
        t,
        ConditionStatus::Unknown,
        set.spec_severity(t),
        Option::Some(reason),
        message,
    );
    let s1 = spec_set_cond(s, c_t, now);
    lemma_set_cond(s, c_t, now);
    lemma_find_unhappy_characterization(s1, set);
    let false_dependent_remains = match spec_find_unhappy(s1, set) {
        Option::Some(d) => d.status == ConditionStatus::False,
        Option::None => false,
    };
    if false_dependent_remains {
        let d = spec_find_unhappy(s1, set)->0;
        let wi = choose|i: int|
            0 <= i < s1.len() && #[trigger] s1[i] == d && is_unhappy_dependent(set, s1[i]);
        if wi < s.len() {
            if s[wi].type_ == t {
                lemma_idx_of_unique(s, t, wi);
                assert(s1[wi] == cond_at(s1, t) || s1[wi] == s[wi]) by {
                    if !cond_at(s, t).value_eq(c_t) {
                        assert(s1 == s.update(idx_of(s, t), c_t.stamped(now)));
                    }
                }
                assert(cond_at(s1, t).value_eq(c_t));
                lemma_idx_of_unique(s1, t, wi);
                assert(false);
            } else {
                assert(s1[wi] == s[wi]);
                assert(false);
            }
        } else {
            assert(s1 == s.push(c_t.stamped(now)));
            assert(s1[wi] == c_t.stamped(now));
            assert(false);
        }
    }
    let c_h = mk_cond(
        set.happy,
        ConditionStatus::Unknown,
        set.spec_severity(set.happy),
        Option::Some(reason),
        message,
    );
    lemma_set_cond(s1, c_h, now);
}

/// What the recompute step would write for the happy condition, given the
/// current store.
pub open spec fn happy_candidate<C: ConditionType>(
    s: Seq<ConditionView<C>>,
    set: ConditionSet<C>,
) -> ConditionView<C> {
    match spec_find_unhappy(s, set) {
        Option::Some(d) => happy_mirror(set, d),
        Option::None => happy_all_true(set),
    }
}

/// Whether the stored happy condition already agrees (up to its timestamp)
/// with what aggregation would derive from the dependents.  Every store
/// maintained exclusively through the manager's mark operations is in this
/// state between operations.
pub open spec fn happy_synced<C: ConditionType>(
    s: Seq<ConditionView<C>>,
    set: ConditionSet<C>,
) -> bool {
    &&& has_type(s, set.happy)
    &&& cond_at(s, set.happy).value_eq(happy_candidate(s, set))
}

/// Independence from non-terminal conditions, for marking true: on a store
/// whose happy condition agrees with its dependents, marking a
/// non-dependent, non-happy condition true leaves the stored happy
/// condition exactly as it was.  (On a store whose happy condition is
/// stale, any mark operation re-derives it, so the restriction to synced
/// stores is essential.)
pub proof fn lemma_nonterminal_mark_true_keeps_happy<C: ConditionType>(
    s: Seq<ConditionView<C>>,
    set: ConditionSet<C>,
    t: C,
    now: i64,
)
    requires
        set.wf(),
        wf_store(s),
        !set.spec_is_terminal(t),
        happy_synced(s, set),
    ensures
        ({
            let post = spec_mark_true(s, set, t, now);
            has_type(post, set.happy) && cond_at(post, set.happy) == cond_at(s, set.happy)
        }),
{
    assert(t != set.happy);
    let c_t = mk_cond(t, ConditionStatus::True, set.spec_severity(t), Option::None, Option::None);
    let s1 = spec_set_cond(s, c_t, now);
    lemma_set_cond(s, c_t, now);
    if has_type(s, t) {
        assert(cond_at(s, t).type_ == t);
    }
    lemma_find_unhappy_after_set_cond(s, c_t, now, set);
    assert(cond_at(s1, set.happy) == cond_at(s, set.happy));
    match spec_find_unhappy(s1, set) {
        Option::Some(d) => {
            assert(happy_candidate(s, set) == happy_mirror(set, d));
            assert(cond_at(s1, set.happy).value_eq(happy_mirror(set, d)));
            lemma_set_cond(s1, happy_mirror(set, d), now);
            assert(spec_mark_true(s, set, t, now) == s1);
        }
        Option::None => {
            assert(cond_at(s1, set.happy).value_eq(happy_all_true(set)));
            lemma_set_cond(s1, happy_all_true(set), now);
            assert(spec_mark_true(s, set, t, now) == s1);
        }
    }
}

/// Independence from non-terminal conditions, for marking false: the happy
/// condition is only forced false for dependents, so marking a
/// non-terminal condition false never touches it.
pub proof fn lemma_nonterminal_mark_false_keeps_happy<C: ConditionType>(
    s: Seq<ConditionView<C>>,
    set: ConditionSet<C>,
    t: C,
    reason: Seq<char>,
    message: Option<Seq<char>>,
    now: i64,
)
    requires
        wf_store(s),
        has_type(s, set.happy),
        !set.spec_is_terminal(t),
    ensures
        ({
            let post = spec_mark_false(s, set, t, reason, message, now);
            has_type(post, set.happy) && cond_at(post, set.happy) == cond_at(s, set.happy)
        }),
{
    let c_t = mk_cond(
        t,
        ConditionStatus::False,
        set.spec_severity(t),
        Option::Some(reason),
        message,
    );
    lemma_set_cond(s, c_t, now);
    assert(!set.dependents@.contains(t));
}

/// Independence from non-terminal conditions, for marking unknown: on a
/// synced store, marking a non-dependent, non-happy condition unknown
/// leaves the stored happy condition exactly as it was.
pub proof fn lemma_nonterminal_mark_unknown_keeps_happy<C: ConditionType>(
    s: Seq<ConditionView<C>>,
    set: ConditionSet<C>,
    t: C,
    reason: Seq<char>,
    message: Option<Seq<char>>,
    now: i64,
)
    requires
        set.wf(),
        wf_store(s),
        !set.spec_is_terminal(t),
        happy_synced(s, set),
    ensures
        ({
            let post = spec_mark_unknown(s, set, t, reason, message, now);
            has_type(post, set.happy) && cond_at(post, set.happy) == cond_at(s, set.happy)
        }),
{
    assert(t != set.happy);
    let c_t = mk_cond(
        t,
        ConditionStatus::Unknown,
        set.spec_severity(t),
        Option::Some(reason),
        message,
    );
    let s1 = spec_set_cond(s, c_t, now);
    lemma_set_cond(s, c_t, now);
    if has_type(s, t) {
        assert(cond_at(s, t).type_ == t);
    }
    lemma_find_unhappy_after_set_cond(s, c_t, now, set);
    assert(cond_at(s1, set.happy) == cond_at(s, set.happy));
    match spec_find_unhappy(s1, set) {
        Option::Some(d) => {
            assert(happy_candidate(s, set) == happy_mirror(set, d));
            assert(cond_at(s1, set.happy).status == d.status);
            if d.status == ConditionStatus::False {
                assert(cond_at(s1, set.happy).status == ConditionStatus::False);
                assert(spec_mark_unknown(s, set, t, reason, message, now) == s1);
            } else {
                assert(spec_mark_unknown(s, set, t, reason, message, now) == s1);
            }
        }
        Option::None => {
            assert(spec_mark_unknown(s, set, t, reason, message, now) == s1);
        }
    }
}

/// Order preservation of the mark-unknown operation.
pub proof fn lemma_mark_unknown_keeps_order<C: ConditionType>(
    s: Seq<ConditionView<C>>,
    set: ConditionSet<C>,
    t: C,
    reason: Seq<char>,
    message: Option<Seq<char>>,
    now: i64,
)
    requires
        wf_store(s),
    ensures
        types_of(s).is_prefix_of(types_of(spec_mark_unknown(s, set, t, reason, message, now))),
{
    let c = mk_cond(
        t,
        ConditionStatus::Unknown,
        set.spec_severity(t),
        Option::Some(reason),
        message,
    );
    let s1 = spec_set_cond(s, c, now);
    lemma_set_cond(s, c, now);
    lemma_set_cond_keeps_order(s, c, now);
    let false_dependent_remains = match spec_find_unhappy(s1, set) {
        Option::Some(d) => d.status == ConditionStatus::False,
        Option::None => false,
    };
    if false_dependent_remains {
        if cond_at(s1, set.happy).status != ConditionStatus::False {
            let c2 = mk_cond(
                set.happy,
                ConditionStatus::False,
                set.spec_severity(set.happy),
                Option::Some(reason),
                message,
            );
            lemma_set_cond_keeps_order(s1, c2, now);
            lemma_prefix_transitive(
                types_of(s),
                types_of(s1),
                types_of(spec_set_cond(s1, c2, now)),
            );
        }
    } else {
        if set.spec_is_terminal(t) {
            let c2 = mk_cond(
                set.happy,
                ConditionStatus::Unknown,
                set.spec_severity(set.happy),
                Option::Some(reason),
                message,
            );
            lemma_set_cond_keeps_order(s1, c2, now);
            lemma_prefix_transitive(
                types_of(s),
                types_of(s1),
                types_of(spec_set_cond(s1, c2, now)),
            );
        }
    }
}

} // verus!
