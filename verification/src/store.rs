//! The authoritative, ordered record of condition values for one resource
//! instance.
//!
//! The store is a sequence of conditions, unique by type.  Updating an
//! existing type keeps its position; only brand-new types are appended, so
//! iteration order is first-seen order.  The central write primitive,
//! [`Conditions::set_cond_at`], is idempotent: writing a value equal to the
//! stored one (up to the transition timestamp) changes nothing.

use vstd::prelude::*;
use crate::clock::now_millis;
use crate::condition::{Condition, ConditionView};
use crate::condition_type::ConditionType;
use crate::status::{ConditionStatus, ConditionSeverity};

verus! {

/// An ordered collection of [`Condition`], unique by type, that maintains
/// transition times.
pub struct Conditions<C: ConditionType>(pub Vec<Condition<C>>);

impl<C: ConditionType> View for Conditions<C> {
    type V = Seq<ConditionView<C>>;

    open spec fn view(&self) -> Seq<ConditionView<C>> {
        self.0@.map_values(|c: Condition<C>| c@)
    }
}

/// The store invariant: no two entries share a type.
pub open spec fn wf_store<C>(s: Seq<ConditionView<C>>) -> bool {
    forall|i: int, j: int| 0 <= i < j < s.len() ==> s[i].type_ != s[j].type_
}

/// Whether the store holds an entry of type `t`.
pub open spec fn has_type<C>(s: Seq<ConditionView<C>>, t: C) -> bool {
    exists|i: int| 0 <= i < s.len() && s[i].type_ == t
}

/// The index of the entry of type `t` (meaningful when `has_type` holds;
/// unique when the store is well formed).
pub open spec fn idx_of<C>(s: Seq<ConditionView<C>>, t: C) -> int {
    choose|i: int| 0 <= i < s.len() && s[i].type_ == t
}

/// The entry of type `t` (meaningful when `has_type` holds).
pub open spec fn cond_at<C>(s: Seq<ConditionView<C>>, t: C) -> ConditionView<C> {
    s[idx_of(s, t)]
}

/// The types of the entries, in store order.
pub open spec fn types_of<C>(s: Seq<ConditionView<C>>) -> Seq<C> {
    s.map_values(|c: ConditionView<C>| c.type_)
}

/// In a well-formed store, any entry of type `t` stands at `idx_of`.
pub proof fn lemma_idx_of_unique<C>(s: Seq<ConditionView<C>>, t: C, i: int)
    requires
        wf_store(s),
        0 <= i < s.len(),
        s[i].type_ == t,
    ensures
        has_type(s, t),
        idx_of(s, t) == i,
        cond_at(s, t) == s[i],
{
    assert(has_type(s, t));
    let j = idx_of(s, t);
    assert(0 <= j < s.len() && s[j].type_ == t);
    if i < j {
        assert(s[i].type_ != s[j].type_);
    } else if j < i {
        assert(s[j].type_ != s[i].type_);
    }
}

/// What one upsert does to the store's value: a brand-new type is stamped
/// and appended; an existing type is left alone when the incoming value
/// equals the stored one up to the timestamp, and otherwise replaced in
/// place with a re-stamped value.
pub open spec fn spec_set_cond<C>(
    s: Seq<ConditionView<C>>,
    c: ConditionView<C>,
    now: i64,
) -> Seq<ConditionView<C>> {
    if has_type(s, c.type_) {
        if cond_at(s, c.type_).value_eq(c) {
            s
        } else {
            s.update(idx_of(s, c.type_), c.stamped(now))
        }
    } else {
        s.push(c.stamped(now))
    }
}

/// The facts every caller of an upsert needs: the invariant is preserved,
/// order is preserved with new types appended, the written type now holds
/// the written value, and every other entry is untouched.
pub proof fn lemma_set_cond<C>(s: Seq<ConditionView<C>>, c: ConditionView<C>, now: i64)
    requires
        wf_store(s),
    ensures
        wf_store(spec_set_cond(s, c, now)),
        has_type(s, c.type_) ==> types_of(spec_set_cond(s, c, now)) == types_of(s),
        !has_type(s, c.type_) ==> types_of(spec_set_cond(s, c, now)) == types_of(s).push(c.type_),
        forall|t: C| has_type(spec_set_cond(s, c, now), t) <==> (has_type(s, t) || t == c.type_),
        has_type(spec_set_cond(s, c, now), c.type_),
        cond_at(spec_set_cond(s, c, now), c.type_).value_eq(c),
        cond_at(s, c.type_).value_eq(c) && has_type(s, c.type_)
            ==> spec_set_cond(s, c, now) == s,
        !(cond_at(s, c.type_).value_eq(c) && has_type(s, c.type_))
            ==> cond_at(spec_set_cond(s, c, now), c.type_) == c.stamped(now),
        forall|t: C|
            t != c.type_ && has_type(s, t)
                ==> idx_of(spec_set_cond(s, c, now), t) == idx_of(s, t)
                    && #[trigger] cond_at(spec_set_cond(s, c, now), t) == cond_at(s, t),
        forall|i: int|
            0 <= i < s.len() && s[i].type_ != c.type_
                ==> #[trigger] spec_set_cond(s, c, now)[i] == s[i],
        s.len() <= spec_set_cond(s, c, now).len(),
{
    let r = spec_set_cond(s, c, now);
    if has_type(s, c.type_) {
        let i = idx_of(s, c.type_);
        assert(0 <= i < s.len() && s[i].type_ == c.type_);
        if cond_at(s, c.type_).value_eq(c) {
            assert(r == s);
        } else {
            assert(r == s.update(i, c.stamped(now)));
            assert(r[i].type_ == c.type_);
            assert(forall|k: int| 0 <= k < s.len() && k != i ==> r[k] == s[k]);
            assert(wf_store(r));
            assert(types_of(r) =~= types_of(s));
            lemma_idx_of_unique(r, c.type_, i);
        }
        assert(forall|t: C| has_type(r, t) <==> (has_type(s, t) || t == c.type_));
        assert forall|t: C| t != c.type_ && has_type(s, t)
            implies idx_of(r, t) == idx_of(s, t) && #[trigger] cond_at(r, t) == cond_at(s, t) by {
            let j = idx_of(s, t);
            assert(0 <= j < s.len() && s[j].type_ == t);
            assert(j != i);
            assert(r[j] == s[j]);
            lemma_idx_of_unique(r, t, j);
        }
    } else {
        assert(r == s.push(c.stamped(now)));
        assert(forall|k: int| 0 <= k < s.len() ==> r[k] == s[k]);
        assert(r[s.len() as int].type_ == c.type_);
        assert forall|i: int, j: int| 0 <= i < j < r.len() implies r[i].type_ != r[j].type_ by {
            if j < s.len() {
                assert(s[i].type_ != s[j].type_);
            } else {
                assert(r[j].type_ == c.type_);
                assert(r[i].type_ == s[i].type_);
                assert(!(exists|k: int| 0 <= k < s.len() && s[k].type_ == c.type_));
            }
        }
        assert(types_of(r) =~= types_of(s).push(c.type_));
        lemma_idx_of_unique(r, c.type_, s.len() as int);
        assert forall|t: C| has_type(r, t) implies (has_type(s, t) || t == c.type_) by {
            let k = choose|k: int| 0 <= k < r.len() && r[k].type_ == t;
            if k < s.len() {
                assert(s[k].type_ == t);
            }
        }
        assert forall|t: C| t != c.type_ && has_type(s, t)
            implies idx_of(r, t) == idx_of(s, t) && #[trigger] cond_at(r, t) == cond_at(s, t) by {
            let j = idx_of(s, t);
            assert(0 <= j < s.len() && s[j].type_ == t);
            assert(r[j] == s[j]);
            lemma_idx_of_unique(r, t, j);
        }
    }
}

impl<C: ConditionType> Conditions<C> {
    /// A store from an explicit list of conditions.  The list must hold the
    /// happy condition and no duplicate types; handing in anything else is a
    /// configuration-time contract violation.
    pub fn with_conditions(conditions: Vec<Condition<C>>) -> (r: Conditions<C>)
        requires
            wf_store(conditions@.map_values(|c: Condition<C>| c@)),
            has_type(conditions@.map_values(|c: Condition<C>| c@), C::spec_happy()),
        ensures
            r@ == conditions@.map_values(|c: Condition<C>| c@),
            wf_store(r@),
            has_type(r@, C::spec_happy()),
    {
        Conditions(conditions)
    }

    /// The number of conditions in the store.
    pub fn len(&self) -> (r: usize)
        ensures
            r == self@.len(),
    {
        self.0.len()
    }

    /// The condition at a position, in first-seen order.
    pub fn at(&self, i: usize) -> (r: &Condition<C>)
        requires
            i < self@.len(),
        ensures
            r@ == self@[i as int],
    {
        &self.0[i]
    }

    /// The position of the entry of type `t`, if one exists.
    fn position_of(&self, t: &C) -> (r: Option<usize>)
        requires
            wf_store(self@),
        ensures
            match r {
                Option::Some(i) => {
                    &&& has_type(self@, *t)
                    &&& i < self@.len()
                    &&& idx_of(self@, *t) == i as int
                },
                Option::None => !has_type(self@, *t),
            },
    {
        let ghost s = self@;
        let mut i: usize = 0;
        while i < self.0.len()
            invariant
                i <= self.0.len(),
                s == self@,
                s.len() == self.0.len(),
                wf_store(s),
                forall|k: int| 0 <= k < i ==> s[k].type_ != *t,
            decreases self.0.len() - i,
        {
            if self.0[i].type_.same_as(t) {
                proof {
                    lemma_idx_of_unique(s, *t, i as int);
                }
                return Some(i);
            }
            i = i + 1;
        }
        None
    }

    /// Lookup by type; `None` if the type has never been set.
    pub fn get_cond(&self, t: &C) -> (r: Option<&Condition<C>>)
        requires
            wf_store(self@),
        ensures
            match r {
                Option::Some(c) => has_type(self@, *t) && c@ == cond_at(self@, *t),
                Option::None => !has_type(self@, *t),
            },
    {
        match self.position_of(t) {
            Some(i) => Some(&self.0[i]),
            None => None,
        }
    }

    /// The central write primitive, at an explicit time: append a stamped
    /// condition of a brand-new type; leave an existing entry alone when
    /// only its timestamp would change; otherwise replace it in place,
    /// re-stamped.
    pub fn set_cond_at(&mut self, condition: Condition<C>, now: i64)
        requires
            wf_store(old(self)@),
        ensures
            final(self)@ == spec_set_cond(old(self)@, condition@, now),
            wf_store(final(self)@),
    {
        let ghost s = self@;
        let ghost c = condition@;
        match self.position_of(&condition.type_) {
            Some(i) => {
                if self.0[i].value_equals(&condition) {
                    proof {
                        assert(self@ == spec_set_cond(s, c, now));
                    }
                } else {
                    let mut updated = condition;
                    updated.last_transition_time = Some(now);
                    proof {
                        assert(updated@ == c.stamped(now));
                    }
                    self.0.set(i, updated);
                    proof {
                        assert(self@ =~= s.update(idx_of(s, c.type_), c.stamped(now)));
                        lemma_set_cond(s, c, now);
                    }
                }
            }
            None => {
                let mut appended = condition;
                appended.last_transition_time = Some(now);
                proof {
                    assert(appended@ == c.stamped(now));
                }
                self.0.push(appended);
                proof {
                    assert(self@ =~= s.push(c.stamped(now)));
                    lemma_set_cond(s, c, now);
                }
            }
        }
    }

    /// The central write primitive, stamping with the current wall-clock
    /// time.
    pub fn set_cond(&mut self, condition: Condition<C>)
        requires
            wf_store(old(self)@),
        ensures
            exists|now: i64| final(self)@ == spec_set_cond(old(self)@, condition@, now),
            wf_store(final(self)@),
    {
        let now = now_millis();
        self.set_cond_at(condition, now);
    }
}

/// The store with which a resource is seeded at a given time: the happy
/// condition first, then every dependent, each `Unknown` with severity
/// `Error` and stamped `now`.
pub open spec fn spec_seed<C: ConditionType>(now: i64) -> Seq<ConditionView<C>> {
    Seq::new(
        C::spec_dependents().len() + 1,
        |i: int| ConditionView {
            type_: if i == 0 { C::spec_happy() } else { C::spec_dependents()[i - 1] },
            status: ConditionStatus::Unknown,
            severity: ConditionSeverity::Error,
            last_transition_time: Option::Some(now),
            reason: Option::None,
            message: Option::None,
        },
    )
}

impl<C: ConditionType> Conditions<C> {
    /// A store pre-seeded at an explicit time with one `Unknown` condition
    /// per expected type: the happy type and every dependent.
    pub fn seeded_at(now: i64) -> (r: Conditions<C>)
        ensures
            r@ == spec_seed::<C>(now),
    {
        let mut entries: Vec<Condition<C>> = Vec::new();
        entries.push(Condition::new_at(C::happy(), now));
        let dependents = C::dependents();
        let mut i: usize = 0;
        while i < dependents.len()
            invariant
                i <= dependents.len(),
                dependents@ == C::spec_dependents(),
                entries@.len() == i + 1,
                forall|k: int|
                    0 <= k <= i ==> #[trigger] entries@[k]@ == spec_seed::<C>(now)[k],
            decreases dependents.len() - i,
        {
            entries.push(Condition::new_at(dependents[i], now));
            i = i + 1;
        }
        let r = Conditions(entries);
        proof {
            assert(r@ =~= spec_seed::<C>(now));
        }
        r
    }
}

impl<C: ConditionType> Default for Conditions<C> {
    /// A store pre-seeded at the current wall-clock time.
    fn default() -> (r: Conditions<C>)
        ensures
            exists|now: i64| r@ == spec_seed::<C>(now),
    {
        Conditions::seeded_at(now_millis())
    }
}

} // verus!
