//! The stateful facade over a [`ConditionSet`] and a [`Conditions`] store:
//! mark operations for individual conditions, and the aggregation that
//! keeps the happy condition a function of its dependents.

use vstd::prelude::*;
use vstd::pervasive::unreached;
use crate::clock::now_millis;
use crate::condition::{Condition, ConditionView, clone_opt_string, opt_string_view};
use crate::condition_set::{ConditionSet, contains_type};
use crate::condition_type::ConditionType;
use crate::status::{ConditionStatus, ConditionSeverity};
use crate::store::{Conditions, wf_store, has_type, cond_at, spec_set_cond, lemma_set_cond};

verus! {

/// Whether `c` blocks happiness: a terminal condition other than the happy
/// condition itself whose status is not `True`.
pub open spec fn is_unhappy_dependent<C: ConditionType>(
    set: ConditionSet<C>,
    c: ConditionView<C>,
) -> bool {
    &&& c.type_ != set.happy
    &&& set.spec_is_terminal(c.type_)
    &&& c.status != ConditionStatus::True
}

/// The most unhappy dependent of the store, scanned in order: a `False`
/// status outranks `Unknown`; between equal statuses the later transition
/// time outranks; remaining ties go to the earlier entry.  `None` means
/// every dependent is currently `True`.
pub open spec fn spec_find_unhappy<C: ConditionType>(
    s: Seq<ConditionView<C>>,
    set: ConditionSet<C>,
) -> Option<ConditionView<C>>
    decreases s.len(),
{
    if s.len() == 0 {
        Option::None
    } else {
        let prefix = spec_find_unhappy(s.drop_last(), set);
        let last = s.last();
        if is_unhappy_dependent(set, last) {
            match prefix {
                Option::None => Option::Some(last),
                Option::Some(u) => if last.outranks(u) {
                    Option::Some(last)
                } else {
                    Option::Some(u)
                },
            }
        } else {
            prefix
        }
    }
}

/// The happy condition mirroring its most unhappy dependent `d`.
pub open spec fn happy_mirror<C: ConditionType>(
    set: ConditionSet<C>,
    d: ConditionView<C>,
) -> ConditionView<C> {
    ConditionView {
        type_: set.happy,
        status: d.status,
        severity: set.spec_severity(set.happy),
        last_transition_time: Option::None,
        reason: d.reason,
        message: d.message,
    }
}

/// The happy condition when every dependent is `True`.
pub open spec fn happy_all_true<C: ConditionType>(set: ConditionSet<C>) -> ConditionView<C> {
    ConditionView {
        type_: set.happy,
        status: ConditionStatus::True,
        severity: set.spec_severity(set.happy),
        last_transition_time: Option::None,
        reason: Option::None,
        message: Option::None,
    }
}

/// A condition value before stamping (the upsert chooses the timestamp).
pub open spec fn mk_cond<C: ConditionType>(
    t: C,
    status: ConditionStatus,
    severity: ConditionSeverity,
    reason: Option<Seq<char>>,
    message: Option<Seq<char>>,
) -> ConditionView<C> {
    ConditionView {
        type_: t,
        status: status,
        severity: severity,
        last_transition_time: Option::None,
        reason: reason,
        message: message,
    }
}

/// Recomputing happiness after `trigger` changed: the happy condition
/// mirrors the most unhappy dependent if one exists; otherwise it is set
/// `True`, unless the trigger was the happy condition itself, which was
/// just written directly and must not be overwritten.
pub open spec fn spec_recompute<C: ConditionType>(
    s: Seq<ConditionView<C>>,
    set: ConditionSet<C>,
    trigger: C,
    now: i64,
) -> Seq<ConditionView<C>> {
    match spec_find_unhappy(s, set) {
        Option::Some(d) => spec_set_cond(s, happy_mirror(set, d), now),
        Option::None => if trigger != set.happy {
            spec_set_cond(s, happy_all_true(set), now)
        } else {
            s
        },
    }
}

/// Marking `t` true with a retained reason and message, then recomputing
/// happiness.
pub open spec fn spec_mark_true_with_reason<C: ConditionType>(
    s: Seq<ConditionView<C>>,
    set: ConditionSet<C>,
    t: C,
    reason: Option<Seq<char>>,
    message: Option<Seq<char>>,
    now: i64,
) -> Seq<ConditionView<C>> {
    spec_recompute(
        spec_set_cond(s, mk_cond(t, ConditionStatus::True, set.spec_severity(t), reason, message), now),
        set,
        t,
        now,
    )
}

/// Marking `t` true (reason and message cleared), then recomputing
/// happiness.
pub open spec fn spec_mark_true<C: ConditionType>(
    s: Seq<ConditionView<C>>,
    set: ConditionSet<C>,
    t: C,
    now: i64,
) -> Seq<ConditionView<C>> {
    spec_mark_true_with_reason(s, set, t, Option::None, Option::None, now)
}

/// Marking `t` false; if `t` is a dependent the happy condition is forced
/// `False` with the same reason and message, since a concrete failure must
/// never be masked by stale aggregation state.
pub open spec fn spec_mark_false<C: ConditionType>(
    s: Seq<ConditionView<C>>,
    set: ConditionSet<C>,
    t: C,
    reason: Seq<char>,
    message: Option<Seq<char>>,
    now: i64,
) -> Seq<ConditionView<C>> {
    let s1 = spec_set_cond(
        s,
        mk_cond(t, ConditionStatus::False, set.spec_severity(t), Option::Some(reason), message),
        now,
    );
    if set.dependents@.contains(t) {
        spec_set_cond(
            s1,
            mk_cond(
                set.happy,
                ConditionStatus::False,
                set.spec_severity(set.happy),
                Option::Some(reason),
                message,
            ),
            now,
        )
    } else {
        s1
    }
}

/// Marking `t` unknown.  When a `False` dependent remains after the
/// update (the scan's worst dependent is `False`), the happy condition is
/// escalated to `False` with the caller's reason, unless it already is
/// `False`: a fresh unknown observation must not hide a hard failure.
/// When no `False` dependent remains and `t` is terminal, the happy
/// condition becomes `Unknown` with the caller's reason.
pub open spec fn spec_mark_unknown<C: ConditionType>(
    s: Seq<ConditionView<C>>,
    set: ConditionSet<C>,
    t: C,
    reason: Seq<char>,
    message: Option<Seq<char>>,
    now: i64,
) -> Seq<ConditionView<C>> {
    let s1 = spec_set_cond(
        s,
        mk_cond(t, ConditionStatus::Unknown, set.spec_severity(t), Option::Some(reason), message),
        now,
    );
    let false_dependent_remains = match spec_find_unhappy(s1, set) {
        Option::Some(d) => d.status == ConditionStatus::False,
        Option::None => false,
    };
    if false_dependent_remains {
        if cond_at(s1, set.happy).status != ConditionStatus::False {
            spec_set_cond(
                s1,
                mk_cond(
                    set.happy,
                    ConditionStatus::False,
                    set.spec_severity(set.happy),
                    Option::Some(reason),
                    message,
                ),
                now,
            )
        } else {
            s1
        }
    } else {
        if set.spec_is_terminal(t) {
            spec_set_cond(
                s1,
                mk_cond(
                    set.happy,
                    ConditionStatus::Unknown,
                    set.spec_severity(set.happy),
                    Option::Some(reason),
                    message,
                ),
                now,
            )
        } else {
            s1
        }
    }
}

/// Mutates a [`Conditions`] store in accordance with the dependency chain
/// declared by the store's [`ConditionType`].
pub struct ConditionManager<C: ConditionType> {
    pub set: ConditionSet<C>,
    pub conditions: Conditions<C>,
}

impl<C: ConditionType> ConditionManager<C> {
    /// The manager invariant: a valid configuration over a well-formed
    /// store that holds the happy condition.
    pub open spec fn wf(self) -> bool {
        &&& self.set.wf()
        &&& wf_store(self.conditions@)
        &&& has_type(self.conditions@, self.set.happy)
    }

    /// A manager over a properly seeded store.  The conditions must hold
    /// the happy type exactly once and no duplicate types, and the domain
    /// `C` must not declare its happy type as a dependent; violating either
    /// is a configuration-time contract violation.
    pub fn new(conditions: Conditions<C>) -> (r: Self)
        requires
            !C::spec_dependents().contains(C::spec_happy()),
            wf_store(conditions@),
            has_type(conditions@, C::spec_happy()),
        ensures
            r.set.happy == C::spec_happy(),
            r.set.dependents@ == C::spec_dependents(),
            r.conditions == conditions,
            r.wf(),
    {
        ConditionManager { set: ConditionSet::new(), conditions }
    }

    /// Lookup by type; `None` if the type has never been set.
    pub fn get_condition(&self, condition_type: C) -> (r: Option<&Condition<C>>)
        requires
            wf_store(self.conditions@),
        ensures
            match r {
                Option::Some(c) => has_type(self.conditions@, condition_type)
                    && c@ == cond_at(self.conditions@, condition_type),
                Option::None => !has_type(self.conditions@, condition_type),
            },
    {
        self.conditions.get_cond(&condition_type)
    }

    /// The happy condition.  The store of a well-formed manager always
    /// holds it, so the lookup cannot fail.
    pub fn get_top_level_condition(&self) -> (r: &Condition<C>)
        requires
            self.wf(),
        ensures
            r@ == cond_at(self.conditions@, self.set.happy),
            r@.type_ == self.set.happy,
    {
        match self.conditions.get_cond(&self.set.happy) {
            Some(c) => c,
            None => unreached(),
        }
    }

    /// Whether the resource is ready overall: the happy condition's stored
    /// status is `True`.
    pub fn is_happy(&self) -> (r: bool)
        requires
            self.wf(),
        ensures
            r == (cond_at(self.conditions@, self.set.happy).status == ConditionStatus::True),
    {
        self.get_top_level_condition().is_true()
    }

    /// The most unhappy dependent, if any dependent is not `True`.  This is
    /// an inspection: the store is not changed, and in particular not
    /// reordered.
    pub fn find_unhappy_dependent(&self) -> (r: Option<&Condition<C>>)
        ensures
            match r {
                Option::Some(c) => spec_find_unhappy(self.conditions@, self.set) == Option::Some(c@),
                Option::None => spec_find_unhappy(self.conditions@, self.set) is None,
            },
    {
        let ghost s = self.conditions@;
        let mut best: Option<usize> = None;
        let mut i: usize = 0;
        while i < self.conditions.0.len()
            invariant
                i <= s.len(),
                s == self.conditions@,
                s.len() == self.conditions.0.len(),
                match best {
                    Option::None => spec_find_unhappy(s.take(i as int), self.set) is None,
                    Option::Some(b) => b < i
                        && spec_find_unhappy(s.take(i as int), self.set)
                            == Option::Some(s[b as int]),
                },
            decreases s.len() - i,
        {
            let cond = &self.conditions.0[i];
            let unhappy = !cond.type_.same_as(&self.set.happy)
                && self.set.is_terminal(&cond.type_)
                && !cond.is_true();
            proof {
                assert(s.take(i + 1).drop_last() =~= s.take(i as int));
                assert(s.take(i + 1).last() == s[i as int]);
                assert(unhappy == is_unhappy_dependent(self.set, s[i as int]));
            }
            if unhappy {
                best = match best {
                    None => Some(i),
                    Some(b) => if self.conditions.0[i].outranks(&self.conditions.0[b]) {
                        Some(i)
                    } else {
                        Some(b)
                    },
                };
            }
            i = i + 1;
        }
        proof {
            assert(s.take(s.len() as int) =~= s);
        }
        match best {
            Some(b) => Some(&self.conditions.0[b]),
            None => None,
        }
    }

    /// Recompute the happy condition after `condition_type` changed, at an
    /// explicit time.
    fn recompute_happiness_at(&mut self, condition_type: &C, now: i64)
        requires
            old(self).wf(),
        ensures
            final(self).wf(),
            final(self).set == old(self).set,
            final(self).conditions@
                == spec_recompute(old(self).conditions@, old(self).set, *condition_type, now),
    {
        let ghost s = self.conditions@;
        let happy_type = self.set.happy;
        let severity = self.set.severity(&happy_type);
        let cond: Option<Condition<C>> = match self.find_unhappy_dependent() {
            Some(dependent) => Some(Condition {
                type_: happy_type,
                status: dependent.status,
                severity,
                last_transition_time: None,
                reason: clone_opt_string(&dependent.reason),
                message: clone_opt_string(&dependent.message),
            }),
            None => if !condition_type.same_as(&happy_type) {
                Some(Condition {
                    type_: happy_type,
                    status: ConditionStatus::True,
                    severity,
                    last_transition_time: None,
                    reason: None,
                    message: None,
                })
            } else {
                None
            },
        };
        match cond {
            Some(cond) => {
                proof {
                    match spec_find_unhappy(s, self.set) {
                        Option::Some(d) => assert(cond@ == happy_mirror(self.set, d)),
                        Option::None => assert(cond@ == happy_all_true(self.set)),
                    }
                    lemma_set_cond(s, cond@, now);
                }
                self.conditions.set_cond_at(cond, now);
            }
            None => {
                proof {
                    assert(self.conditions@ == spec_recompute(s, self.set, *condition_type, now));
                }
            }
        }
    }

    /// Mark `condition_type` true, clearing its reason and message, then
    /// recompute happiness, at an explicit time.
    pub fn mark_true_at(&mut self, condition_type: C, now: i64)
        requires
            old(self).wf(),
        ensures
            final(self).wf(),
            final(self).set == old(self).set,
            final(self).conditions@
                == spec_mark_true(old(self).conditions@, old(self).set, condition_type, now),
    {
        let ghost s = self.conditions@;
        let severity = self.set.severity(&condition_type);
        let cond = Condition {
            type_: condition_type,
            status: ConditionStatus::True,
            severity,
            last_transition_time: None,
            reason: None,
            message: None,
        };
        proof {
            lemma_set_cond(s, cond@, now);
        }
        self.conditions.set_cond_at(cond, now);
        self.recompute_happiness_at(&condition_type, now);
    }

    /// Mark `condition_type` true, then recompute happiness.
    pub fn mark_true(&mut self, condition_type: C)
        requires
            old(self).wf(),
        ensures
            final(self).wf(),
            final(self).set == old(self).set,
            exists|now: i64|
                final(self).conditions@
                    == spec_mark_true(old(self).conditions@, old(self).set, condition_type, now),
    {
        let now = now_millis();
        self.mark_true_at(condition_type, now);
    }

    /// Mark `condition_type` true but retain the supplied reason and
    /// message, then recompute happiness, at an explicit time.
    pub fn mark_true_with_reason_at(
        &mut self,
        condition_type: C,
        reason: &str,
        message: Option<String>,
        now: i64,
    )
        requires
            old(self).wf(),
        ensures
            final(self).wf(),
            final(self).set == old(self).set,
            final(self).conditions@ == spec_mark_true_with_reason(
                old(self).conditions@,
                old(self).set,
                condition_type,
                Option::Some(reason@),
                opt_string_view(message),
                now,
            ),
    {
        let ghost s = self.conditions@;
        let severity = self.set.severity(&condition_type);
        let cond = Condition {
            type_: condition_type,
            status: ConditionStatus::True,
            severity,
            last_transition_time: None,
            reason: Some(String::from_str(reason)),
            message,
        };
        proof {
            lemma_set_cond(s, cond@, now);
        }
        self.conditions.set_cond_at(cond, now);
        self.recompute_happiness_at(&condition_type, now);
    }

    /// Mark `condition_type` true with a reason, then recompute happiness.
    pub fn mark_true_with_reason(&mut self, condition_type: C, reason: &str, message: Option<String>)
        requires
            old(self).wf(),
        ensures
            final(self).wf(),
            final(self).set == old(self).set,
            exists|now: i64|
                final(self).conditions@ == spec_mark_true_with_reason(
                    old(self).conditions@,
                    old(self).set,
                    condition_type,
                    Option::Some(reason@),
                    opt_string_view(message),
                    now,
                ),
    {
        let now = now_millis();
        self.mark_true_with_reason_at(condition_type, reason, message, now);
    }

    /// Mark `condition_type` false; a dependent going false also forces the
    /// happy condition false with the same reason, at an explicit time.
    pub fn mark_false_at(
        &mut self,
        condition_type: C,
        reason: &str,
        message: Option<String>,
        now: i64,
    )
        requires
            old(self).wf(),
        ensures
            final(self).wf(),
            final(self).set == old(self).set,
            final(self).conditions@ == spec_mark_false(
                old(self).conditions@,
                old(self).set,
                condition_type,
                reason@,
                opt_string_view(message),
                now,
            ),
    {
        let ghost s = self.conditions@;
        let severity = self.set.severity(&condition_type);
        let message_for_happy = clone_opt_string(&message);
        let cond = Condition {
            type_: condition_type,
            status: ConditionStatus::False,
            severity,
            last_transition_time: None,
            reason: Some(String::from_str(reason)),
            message,
        };
        proof {
            lemma_set_cond(s, cond@, now);
        }
        self.conditions.set_cond_at(cond, now);
        if contains_type(&self.set.dependents, &condition_type) {
            let ghost s1 = self.conditions@;
            let happy_type = self.set.happy;
            let happy_severity = self.set.severity(&happy_type);
            let happy_cond = Condition {
                type_: happy_type,
                status: ConditionStatus::False,
                severity: happy_severity,
                last_transition_time: None,
                reason: Some(String::from_str(reason)),
                message: message_for_happy,
            };
            proof {
                lemma_set_cond(s1, happy_cond@, now);
            }
            self.conditions.set_cond_at(happy_cond, now);
        }
    }

    /// Mark `condition_type` false, forcing the happy condition false as
    /// well when the type is a dependent.
    pub fn mark_false(&mut self, condition_type: C, reason: &str, message: Option<String>)
        requires
            old(self).wf(),
        ensures
            final(self).wf(),
            final(self).set == old(self).set,
            exists|now: i64|
                final(self).conditions@ == spec_mark_false(
                    old(self).conditions@,
                    old(self).set,
                    condition_type,
                    reason@,
                    opt_string_view(message),
                    now,
                ),
    {
        let now = now_millis();
        self.mark_false_at(condition_type, reason, message, now);
    }

    /// Mark `condition_type` unknown; a remaining `False` dependent
    /// escalates the happy condition to `False`, and with no `False`
    /// dependent left a terminal trigger resets the happy condition to
    /// `Unknown`, at an explicit time.
    pub fn mark_unknown_at(
        &mut self,
        condition_type: C,
        reason: &str,
        message: Option<String>,
        now: i64,
    )
        requires
            old(self).wf(),
        ensures
            final(self).wf(),
            final(self).set == old(self).set,
            final(self).conditions@ == spec_mark_unknown(
                old(self).conditions@,
                old(self).set,
                condition_type,
                reason@,
                opt_string_view(message),
                now,
            ),
    {
        let ghost s = self.conditions@;
        let severity = self.set.severity(&condition_type);
        let message_for_happy = clone_opt_string(&message);
        let cond = Condition {
            type_: condition_type,
            status: ConditionStatus::Unknown,
            severity,
            last_transition_time: None,
            reason: Some(String::from_str(reason)),
            message,
        };
        proof {
            lemma_set_cond(s, cond@, now);
        }
        self.conditions.set_cond_at(cond, now);
        let ghost s1 = self.conditions@;
        let (have_unhappy, unhappy_is_false): (bool, bool) = match self.find_unhappy_dependent() {
            Some(dependent) => (true, dependent.is_false()),
            None => (false, false),
        };
        if have_unhappy && unhappy_is_false {
            let top_is_false = self.get_top_level_condition().is_false();
            if !top_is_false {
                let happy_type = self.set.happy;
                let happy_severity = self.set.severity(&happy_type);
                let happy_cond = Condition {
                    type_: happy_type,
                    status: ConditionStatus::False,
                    severity: happy_severity,
                    last_transition_time: None,
                    reason: Some(String::from_str(reason)),
                    message: message_for_happy,
                };
                proof {
                    lemma_set_cond(s1, happy_cond@, now);
                }
                self.conditions.set_cond_at(happy_cond, now);
            }
        } else {
            if self.set.is_terminal(&condition_type) {
                let happy_type = self.set.happy;
                let happy_severity = self.set.severity(&happy_type);
                let happy_cond = Condition {
                    type_: happy_type,
                    status: ConditionStatus::Unknown,
                    severity: happy_severity,
                    last_transition_time: None,
                    reason: Some(String::from_str(reason)),
                    message: message_for_happy,
                };
                proof {
                    lemma_set_cond(s1, happy_cond@, now);
                }
                self.conditions.set_cond_at(happy_cond, now);
            }
        }
    }

    /// Mark `condition_type` unknown, escalating or resetting the happy
    /// condition as the remaining dependents dictate.
    pub fn mark_unknown(&mut self, condition_type: C, reason: &str, message: Option<String>)
        requires
            old(self).wf(),
        ensures
            final(self).wf(),
            final(self).set == old(self).set,
            exists|now: i64|
                final(self).conditions@ == spec_mark_unknown(
                    old(self).conditions@,
                    old(self).set,
                    condition_type,
                    reason@,
                    opt_string_view(message),
                    now,
                ),
    {
        let now = now_millis();
        self.mark_unknown_at(condition_type, reason, message, now);
    }
}

} // verus!
