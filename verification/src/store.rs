//! The rule store: an ordered collection of tamper rules with unique
//! identifiers, and the evaluation of a payload against it.
//!
//! Rules keep the order in which they were added, and that order is their
//! priority: of the rules that apply to a payload, the first one acts.

use crate::hex::{decode_replacement, replacement_bytes};
use crate::rule::{
    action_of, models, ActionModel, HookType, PacketAction, RuleModel, TamperAction, TamperRule,
};
use crate::text::str_equal;
use crate::wildcard::{
    leftmost_at, matches_at, pattern_matches, tokens_of, wildcard_find, PatternToken,
};
use vstd::prelude::*;

verus! {

/// Why a store operation was refused.
#[derive(Clone, Copy, Debug, PartialEq, Eq, Structural)]
pub enum StoreError {
    /// A rule with the same identifier is already in the store.
    DuplicateId,
    /// No rule of the store has the identifier.
    NotFound,
}

/// Whether some rule carries the identifier.
pub open spec fn has_id(rules: Seq<RuleModel>, id: Seq<char>) -> bool {
    exists|i: int| 0 <= i < rules.len() && (#[trigger] rules[i]).id == id
}

/// Whether no two rules share an identifier.
pub open spec fn unique_ids(rules: Seq<RuleModel>) -> bool {
    forall|i: int, j: int|
        0 <= i < j < rules.len() ==> (#[trigger] rules[i]).id != (#[trigger] rules[j]).id
}

/// How adding a rule with the identifier ends: it is refused where a rule
/// carries the identifier already.
pub open spec fn add_result(rules: Seq<RuleModel>, id: Seq<char>) -> Result<(), StoreError> {
    if has_id(rules, id) {
        Err(StoreError::DuplicateId)
    } else {
        Ok(())
    }
}

/// The rules after `rule` was to be added: with it at the end, or as they
/// were where adding it is refused.
pub open spec fn after_add(rules: Seq<RuleModel>, rule: RuleModel) -> Seq<RuleModel> {
    if has_id(rules, rule.id) {
        rules
    } else {
        rules.push(rule)
    }
}

/// How an operation on the rule with the identifier ends: it is refused
/// where no rule carries the identifier.
pub open spec fn lookup_result(rules: Seq<RuleModel>, id: Seq<char>) -> Result<(), StoreError> {
    if has_id(rules, id) {
        Ok(())
    } else {
        Err(StoreError::NotFound)
    }
}

/// The rules without the one that carries the identifier.
pub open spec fn without_id(rules: Seq<RuleModel>, id: Seq<char>) -> Seq<RuleModel> {
    rules.filter(|r: RuleModel| r.id != id)
}

/// The rules with `rule` standing where the rule of its identifier stood.
pub open spec fn with_replaced(rules: Seq<RuleModel>, rule: RuleModel) -> Seq<RuleModel> {
    rules.map_values(
        |r: RuleModel|
            if r.id == rule.id {
                rule
            } else {
                r
            },
    )
}

/// The rules with the active flag of one of them set.
pub open spec fn with_active(rules: Seq<RuleModel>, id: Seq<char>, active: bool) -> Seq<
    RuleModel,
> {
    rules.map_values(
        |r: RuleModel|
            if r.id == id {
                RuleModel { active, ..r }
            } else {
                r
            },
    )
}

/// The rules with every hit counter at zero.
pub open spec fn with_hits_cleared(rules: Seq<RuleModel>) -> Seq<RuleModel> {
    rules.map_values(|r: RuleModel| RuleModel { hits: 0, ..r })
}

/// A rule after one more hit. The counter stops at its largest value.
pub open spec fn with_hit(rule: RuleModel) -> RuleModel {
    RuleModel {
        hits: if rule.hits < u64::MAX {
            (rule.hits + 1) as u64
        } else {
            rule.hits
        },
        ..rule
    }
}

/// Whether a rule is consulted for a call of this kind and matches the payload.
pub open spec fn applies(rule: RuleModel, kind: HookType, data: Seq<u8>) -> bool {
    rule.active && rule.hook == kind && pattern_matches(rule.match_pattern, data)
}

/// The position of the first rule that applies, if any does.
pub open spec fn first_applicable(rules: Seq<RuleModel>, kind: HookType, data: Seq<u8>) -> Option<
    int,
>
    decreases rules.len(),
{
    if rules.len() == 0 {
        None
    } else {
        match first_applicable(rules.drop_last(), kind, data) {
            Some(i) => Some(i),
            None => if applies(rules.last(), kind, data) {
                Some(rules.len() - 1)
            } else {
                None
            },
        }
    }
}

/// The position at which a token sequence first occurs in the data.
pub open spec fn first_offset(tokens: Seq<PatternToken>, data: Seq<u8>) -> int {
    choose|offset: int| leftmost_at(tokens, data, offset)
}

/// The data with `length` bytes from `offset` on exchanged for `replacement`.
pub open spec fn spliced(data: Seq<u8>, offset: int, length: int, replacement: Seq<u8>) -> Seq<
    u8,
> {
    data.take(offset) + replacement + data.skip(offset + length)
}

/// What a rule that applies to the payload makes of it: `Block`, or the
/// payload with the first match of the rule's pattern exchanged for the
/// rule's replacement bytes.
pub open spec fn verdict(rule: RuleModel, data: Seq<u8>) -> ActionModel {
    match rule.action {
        TamperAction::Block => ActionModel::Block,
        TamperAction::Replace => {
            let tokens = tokens_of(rule.match_pattern)->0;
            ActionModel::Replace(
                spliced(
                    data,
                    first_offset(tokens, data),
                    tokens.len() as int,
                    replacement_bytes(rule.replace),
                ),
            )
        },
    }
}

/// What the rules decide for a payload: the verdict of the first rule
/// that applies, or nothing where none does.
pub open spec fn rule_action(rules: Seq<RuleModel>, kind: HookType, data: Seq<u8>) -> Option<
    ActionModel,
> {
    match first_applicable(rules, kind, data) {
        Some(i) => Some(verdict(rules[i], data)),
        None => None,
    }
}

/// The rules after a payload was evaluated against them: the first rule
/// that applies has one more hit, and nothing else has changed.
pub open spec fn rules_after(rules: Seq<RuleModel>, kind: HookType, data: Seq<u8>) -> Seq<
    RuleModel,
> {
    match first_applicable(rules, kind, data) {
        Some(i) => rules.update(i, with_hit(rules[i])),
        None => rules,
    }
}

/// The first position of an occurrence is the only one that nothing precedes.
pub proof fn lemma_leftmost_unique(tokens: Seq<PatternToken>, data: Seq<u8>, offset: int)
    requires
        leftmost_at(tokens, data, offset),
    ensures
        first_offset(tokens, data) == offset,
{
    let chosen = first_offset(tokens, data);
    assert(leftmost_at(tokens, data, chosen));
    if chosen < offset {
        assert(!matches_at(tokens, data, chosen));
    }
    if offset < chosen {
        assert(!matches_at(tokens, data, offset));
    }
}

/// What `first_applicable` finds: a rule that applies and that no applying
/// rule precedes, or that no rule applies.
pub proof fn lemma_first_applicable(rules: Seq<RuleModel>, kind: HookType, data: Seq<u8>)
    ensures
        match first_applicable(rules, kind, data) {
            Some(i) => 0 <= i < rules.len() && applies(rules[i], kind, data) && forall|j: int|
                0 <= j < i ==> !applies(#[trigger] rules[j], kind, data),
            None => forall|j: int| 0 <= j < rules.len() ==> !applies(#[trigger] rules[j], kind, data),
        },
    decreases rules.len(),
{
    if rules.len() > 0 {
        lemma_first_applicable(rules.drop_last(), kind, data);
        assert(forall|j: int|
            0 <= j < rules.len() - 1 ==> rules.drop_last()[j] == #[trigger] rules[j]);
    }
}

/// Builds the payload that a `Replace` rule yields.
fn splice(data: &[u8], offset: usize, length: usize, replacement: &Vec<u8>) -> (r: Vec<u8>)
    requires
        offset + length <= data@.len(),
    ensures
        r@ == spliced(data@, offset as int, length as int, replacement@),
{
    assert(data@.len() == data.len());
    let mut out: Vec<u8> = Vec::new();
    let mut i: usize = 0;
    while i < offset
        invariant
            i <= offset <= data@.len(),
            out@ == data@.take(i as int),
        decreases offset - i,
    {
        out.push(data[i]);
        proof {
            assert(data@.take(i + 1) =~= data@.take(i as int).push(data@[i as int]));
        }
        i = i + 1;
    }
    let mut j: usize = 0;
    while j < replacement.len()
        invariant
            j <= replacement@.len(),
            out@ == data@.take(offset as int) + replacement@.take(j as int),
        decreases replacement@.len() - j,
    {
        out.push(replacement[j]);
        proof {
            assert(replacement@.take(j + 1) =~= replacement@.take(j as int).push(
                replacement@[j as int],
            ));
            assert(out@ =~= data@.take(offset as int) + replacement@.take(j + 1));
        }
        j = j + 1;
    }
    proof {
        assert(replacement@.take(replacement@.len() as int) =~= replacement@);
    }
    let rest: usize = offset + length;
    let mut k: usize = rest;
    while k < data.len()
        invariant
            rest == offset + length,
            rest <= k <= data@.len(),
            out@ == data@.take(offset as int) + replacement@ + data@.subrange(rest as int, k as int),
        decreases data@.len() - k,
    {
        out.push(data[k]);
        proof {
            assert(data@.subrange(rest as int, k + 1) =~= data@.subrange(rest as int, k as int).push(
                data@[k as int],
            ));
            assert(out@ =~= data@.take(offset as int) + replacement@ + data@.subrange(
                rest as int,
                k + 1,
            ));
        }
        k = k + 1;
    }
    proof {
        assert(data@.subrange(rest as int, data@.len() as int) =~= data@.skip(rest as int));
    }
    out
}

/// Evaluates a payload against rules, in their order.
///
/// The first active rule for calls of kind `hook_type` whose pattern
/// matches the payload counts one more hit and decides: `Block`, or
/// `Replace` with the payload in which the first match has given way to the
/// rule's replacement. No rule after it is consulted. Where no rule
/// applies, the result is `None` and nothing changes.
pub fn apply_tamper_rules(data: &[u8], hook_type: HookType, rules: &mut Vec<TamperRule>) -> (r:
    Option<PacketAction>)
    ensures
        action_of(r) == rule_action(models(old(rules)@), hook_type, data@),
        models(final(rules)@) == rules_after(models(old(rules)@), hook_type, data@),
        final(rules)@.len() == old(rules)@.len(),
{
    let ghost before = models(rules@);
    let mut idx: usize = 0;
    while idx < rules.len()
        invariant
            idx <= rules@.len(),
            rules@ == old(rules)@,
            before == models(old(rules)@),
            first_applicable(before.take(idx as int), hook_type, data@) is None,
        decreases rules@.len() - idx,
    {
        proof {
            assert(before.take(idx + 1).drop_last() =~= before.take(idx as int));
            assert(before.take(idx + 1).last() == rules@[idx as int]@);
        }
        if rules[idx].active && rules[idx].hook == hook_type {
            match wildcard_find(rules[idx].match_pattern.as_str(), data) {
                Some((offset, length)) => {
                    let action = match rules[idx].action {
                        TamperAction::Block => PacketAction::Block,
                        TamperAction::Replace => {
                            let replacement = decode_replacement(rules[idx].replace.as_str());
                            proof {
                                let tokens = tokens_of(rules@[idx as int].match_pattern@)->0;
                                lemma_leftmost_unique(tokens, data@, offset as int);
                            }
                            PacketAction::Replace(splice(data, offset, length, &replacement))
                        },
                    };
                    let hits = rules[idx].hits;
                    if hits < u64::MAX {
                        rules[idx].hits = hits + 1;
                    }
                    proof {
                        lemma_found_in_prefix(before, hook_type, data@, idx as int);
                        assert(models(rules@) =~= before.update(
                            idx as int,
                            with_hit(before[idx as int]),
                        ));
                    }
                    return Some(action);
                },
                None => {},
            }
        }
        idx = idx + 1;
    }
    proof {
        assert(before.take(rules@.len() as int) =~= before);
    }
    None
}

/// Where the rules before position `at` do not apply and the rule at `at`
/// does, `at` is the first applicable position of the whole sequence.
pub proof fn lemma_found_in_prefix(rules: Seq<RuleModel>, kind: HookType, data: Seq<u8>, at: int)
    requires
        0 <= at < rules.len(),
        first_applicable(rules.take(at), kind, data) is None,
        applies(rules[at], kind, data),
    ensures
        first_applicable(rules, kind, data) == Some(at),
    decreases rules.len(),
{
    if at == rules.len() - 1 {
        assert(rules.drop_last() =~= rules.take(at));
    } else {
        assert(rules.drop_last().take(at) =~= rules.take(at));
        lemma_found_in_prefix(rules.drop_last(), kind, data, at);
    }
}

/// The ordered collection of tamper rules.
pub struct RuleStore {
    rules: Vec<TamperRule>,
}

impl View for RuleStore {
    type V = Seq<RuleModel>;

    closed spec fn view(&self) -> Seq<RuleModel> {
        models(self.rules@)
    }
}

impl RuleStore {
    /// The invariant of a store: identifiers are unique.
    pub open spec fn wf(&self) -> bool {
        unique_ids(self@)
    }

    /// An empty store.
    pub fn new() -> (r: Self)
        ensures
            r@ == Seq::<RuleModel>::empty(),
            r.wf(),
    {
        let r = RuleStore { rules: Vec::new() };
        assert(r@ =~= Seq::<RuleModel>::empty());
        r
    }

    /// The number of rules.
    pub fn len(&self) -> (r: usize)
        ensures
            r == self@.len(),
    {
        self.rules.len()
    }

    /// The position of the rule with the identifier.
    fn position(&self, id: &str) -> (r: Option<usize>)
        ensures
            match r {
                Some(i) => i < self@.len() && self@[i as int].id == id@ && forall|j: int|
                    0 <= j < i ==> (#[trigger] self@[j]).id != id@,
                None => !has_id(self@, id@),
            },
    {
        let mut i: usize = 0;
        while i < self.rules.len()
            invariant
                i <= self.rules@.len(),
                forall|j: int| 0 <= j < i ==> (#[trigger] self@[j]).id != id@,
            decreases self.rules@.len() - i,
        {
            if str_equal(self.rules[i].id.as_str(), id) {
                return Some(i);
            }
            i = i + 1;
        }
        None
    }

    /// Adds a rule at the end.
    ///
    /// Refused, with the store unchanged, when a rule of the store has the
    /// same identifier.
    pub fn add(&mut self, rule: TamperRule) -> (r: Result<(), StoreError>)
        requires
            old(self).wf(),
        ensures
            final(self).wf(),
            r == add_result(old(self)@, rule@.id),
            final(self)@ == after_add(old(self)@, rule@),
    {
        match self.position(rule.id.as_str()) {
            Some(_) => Err(StoreError::DuplicateId),
            None => {
                self.rules.push(rule);
                proof {
                    assert(self@ =~= old(self)@.push(rule@));
                }
                Ok(())
            },
        }
    }

    /// Removes the rule with the identifier. Succeeds whether or not there
    /// was one.
    pub fn remove(&mut self, id: &str) -> (r: Result<(), StoreError>)
        requires
            old(self).wf(),
        ensures
            final(self).wf(),
            r is Ok,
            final(self)@ == without_id(old(self)@, id@),
    {
        match self.position(id) {
            None => {
                proof {
                    lemma_without_absent(self@, id@);
                }
            },
            Some(i) => {
                let _ = self.rules.remove(i);
                proof {
                    assert(self@ =~= old(self)@.remove(i as int));
                    lemma_without_present(old(self)@, id@, i as int);
                }
            },
        }
        Ok(())
    }

    /// Puts `rule` in the place of the rule that has its identifier.
    ///
    /// Refused, with the store unchanged, when no rule has it.
    pub fn update(&mut self, rule: TamperRule) -> (r: Result<(), StoreError>)
        requires
            old(self).wf(),
        ensures
            final(self).wf(),
            r == lookup_result(old(self)@, rule@.id),
            final(self)@ == with_replaced(old(self)@, rule@),
    {
        match self.position(rule.id.as_str()) {
            None => {
                proof {
                    lemma_absent_untouched(self@, rule@.id);
                    assert(self@ =~= with_replaced(self@, rule@));
                }
                Err(StoreError::NotFound)
            },
            Some(i) => {
                self.rules[i] = rule;
                proof {
                    assert(self@ =~= old(self)@.update(i as int, rule@));
                    assert(self@ =~= with_replaced(old(self)@, rule@));
                }
                Ok(())
            },
        }
    }

    /// Sets the active flag of the rule with the identifier.
    ///
    /// Refused, with the store unchanged, when no rule has it.
    pub fn set_active(&mut self, id: &str, active: bool) -> (r: Result<(), StoreError>)
        requires
            old(self).wf(),
        ensures
            final(self).wf(),
            r == lookup_result(old(self)@, id@),
            final(self)@ == with_active(old(self)@, id@, active),
    {
        match self.position(id) {
            None => {
                proof {
                    lemma_absent_untouched(self@, id@);
                    assert(self@ =~= with_active(self@, id@, active));
                }
                Err(StoreError::NotFound)
            },
            Some(i) => {
                self.rules[i].active = active;
                proof {
                    assert(self@ =~= old(self)@.update(
                        i as int,
                        RuleModel { active, ..old(self)@[i as int] },
                    ));
                    assert(self@ =~= with_active(old(self)@, id@, active));
                }
                Ok(())
            },
        }
    }

    /// A copy of the rules, in their order.
    pub fn list(&self) -> (r: Vec<TamperRule>)
        ensures
            models(r@) == self@,
    {
        let mut out: Vec<TamperRule> = Vec::new();
        let mut i: usize = 0;
        while i < self.rules.len()
            invariant
                i <= self.rules@.len(),
                out@.len() == i,
                forall|j: int| 0 <= j < i ==> (#[trigger] out@[j])@ == self.rules@[j]@,
            decreases self.rules@.len() - i,
        {
            out.push(self.rules[i].clone());
            i = i + 1;
        }
        proof {
            assert(models(out@) =~= self@);
        }
        out
    }

    /// Sets the hit counter of every rule to zero.
    pub fn clear_all_hits(&mut self)
        requires
            old(self).wf(),
        ensures
            final(self).wf(),
            final(self)@ == with_hits_cleared(old(self)@),
    {
        let mut i: usize = 0;
        while i < self.rules.len()
            invariant
                i <= self.rules@.len(),
                self.rules@.len() == old(self).rules@.len(),
                forall|j: int|
                    0 <= j < i ==> (#[trigger] self.rules@[j])@ == (RuleModel {
                        hits: 0,
                        ..old(self).rules@[j]@
                    }),
                forall|j: int|
                    i <= j < self.rules@.len() ==> (#[trigger] self.rules@[j]) == old(
                        self,
                    ).rules@[j],
            decreases self.rules@.len() - i,
        {
            self.rules[i].hits = 0;
            i = i + 1;
        }
        proof {
            assert(self@ =~= with_hits_cleared(old(self)@));
        }
    }

    /// Evaluates a payload against the rules of the store, as
    /// [`apply_tamper_rules`] does.
    pub fn find_action(&mut self, data: &[u8], kind: HookType) -> (r: Option<PacketAction>)
        requires
            old(self).wf(),
        ensures
            final(self).wf(),
            action_of(r) == rule_action(old(self)@, kind, data@),
            final(self)@ == rules_after(old(self)@, kind, data@),
    {
        proof {
            lemma_first_applicable(self@, kind, data@);
        }
        apply_tamper_rules(data, kind, &mut self.rules)
    }
}

/// Where no rule carries an identifier, every rule carries another.
proof fn lemma_absent_untouched(rules: Seq<RuleModel>, id: Seq<char>)
    requires
        !has_id(rules, id),
    ensures
        forall|i: int| 0 <= i < rules.len() ==> (#[trigger] rules[i]).id != id,
{
}

/// A rule that was added stands at the end of the store, and cannot be
/// added a second time: the store refuses it and stays as it is.
pub proof fn lemma_add_then_add(rules: Seq<RuleModel>, rule: RuleModel)
    requires
        unique_ids(rules),
        add_result(rules, rule.id) is Ok,
    ensures
        after_add(rules, rule).last() == rule,
        unique_ids(after_add(rules, rule)),
        add_result(after_add(rules, rule), rule.id) == Err::<(), StoreError>(
            StoreError::DuplicateId,
        ),
        after_add(after_add(rules, rule), rule) == after_add(rules, rule),
{
    let now = rules.push(rule);
    assert(now[now.len() - 1].id == rule.id);
    lemma_absent_untouched(rules, rule.id);
    assert forall|i: int, j: int| 0 <= i < j < now.len() implies (#[trigger] now[i]).id != (
    #[trigger] now[j]).id by {
        if j < rules.len() {
            assert(now[i] == rules[i] && now[j] == rules[j]);
        } else {
            assert(now[i] == rules[i]);
        }
    }
}

/// An update keeps every rule at its position: the store is as long as it
/// was, each position holds the identifier it held, and only the rule with
/// the identifier of the new rule has changed, into the new rule.
pub proof fn lemma_update_keeps_positions(rules: Seq<RuleModel>, rule: RuleModel)
    ensures
        with_replaced(rules, rule).len() == rules.len(),
        forall|i: int|
            0 <= i < rules.len() ==> (#[trigger] with_replaced(rules, rule)[i]).id == rules[i].id,
        forall|i: int|
            0 <= i < rules.len() ==> (#[trigger] with_replaced(rules, rule)[i]) == if rules[i].id
                == rule.id {
                rule
            } else {
                rules[i]
            },
        unique_ids(rules) ==> unique_ids(with_replaced(rules, rule)),
{
    let now = with_replaced(rules, rule);
    if unique_ids(rules) {
        assert forall|i: int, j: int| 0 <= i < j < now.len() implies (#[trigger] now[i]).id != (
        #[trigger] now[j]).id by {
            assert(now[i].id == rules[i].id && now[j].id == rules[j].id);
        }
    }
}

/// Clearing the hits sets every counter to zero and changes nothing else.
pub proof fn lemma_clear_changes_hits_only(rules: Seq<RuleModel>)
    ensures
        with_hits_cleared(rules).len() == rules.len(),
        forall|i: int| 0 <= i < rules.len() ==> (#[trigger] with_hits_cleared(rules)[i]).hits == 0,
        forall|i: int|
            0 <= i < rules.len() ==> (#[trigger] with_hits_cleared(rules)[i]) == (RuleModel {
                hits: 0,
                ..rules[i]
            }),
        unique_ids(rules) ==> unique_ids(with_hits_cleared(rules)),
{
    let now = with_hits_cleared(rules);
    if unique_ids(rules) {
        assert forall|i: int, j: int| 0 <= i < j < now.len() implies (#[trigger] now[i]).id != (
        #[trigger] now[j]).id by {
            assert(now[i].id == rules[i].id && now[j].id == rules[j].id);
        }
    }
}

/// Making a rule active or inactive changes the flag of that rule and
/// nothing else; its hit counter stays.
pub proof fn lemma_switch_changes_flag_only(rules: Seq<RuleModel>, id: Seq<char>, active: bool)
    ensures
        with_active(rules, id, active).len() == rules.len(),
        forall|i: int|
            0 <= i < rules.len() ==> (#[trigger] with_active(rules, id, active)[i]) == if rules[i].id
                == id {
                RuleModel { active, ..rules[i] }
            } else {
                rules[i]
            },
        forall|i: int|
            0 <= i < rules.len() ==> (#[trigger] with_active(rules, id, active)[i]).hits
                == rules[i].hits,
{
}

/// Evaluating a payload never lowers a hit counter, raises one at most,
/// by one at most, and changes nothing else.
pub proof fn lemma_hits_only_grow(rules: Seq<RuleModel>, kind: HookType, data: Seq<u8>)
    ensures
        rules_after(rules, kind, data).len() == rules.len(),
        forall|i: int|
            0 <= i < rules.len() ==> (#[trigger] rules_after(rules, kind, data)[i]).hits
                >= rules[i].hits,
        forall|i: int|
            0 <= i < rules.len() ==> (#[trigger] rules_after(rules, kind, data)[i]) == if Some(i)
                == first_applicable(rules, kind, data) {
                with_hit(rules[i])
            } else {
                rules[i]
            },
        unique_ids(rules) ==> unique_ids(rules_after(rules, kind, data)),
{
    lemma_first_applicable(rules, kind, data);
    let now = rules_after(rules, kind, data);
    if unique_ids(rules) {
        assert forall|i: int, j: int| 0 <= i < j < now.len() implies (#[trigger] now[i]).id != (
        #[trigger] now[j]).id by {
            assert(now[i].id == rules[i].id && now[j].id == rules[j].id);
        }
    }
}

/// Rules that are not active, or are for calls of another kind, have no
/// part in what is decided for a payload: the first rule that applies is
/// active, is for calls of this kind, and matches the payload.
pub proof fn lemma_first_match_wins(rules: Seq<RuleModel>, kind: HookType, data: Seq<u8>)
    ensures
        match first_applicable(rules, kind, data) {
            Some(i) => {
                &&& 0 <= i < rules.len()
                &&& rules[i].active
                &&& rules[i].hook == kind
                &&& pattern_matches(rules[i].match_pattern, data)
                &&& forall|j: int| 0 <= j < i ==> !applies(#[trigger] rules[j], kind, data)
                &&& forall|j: int|
                    0 <= j < rules.len() && j != i ==> (#[trigger] rules_after(rules, kind, data)[j])
                        == rules[j]
            },
            None => rules_after(rules, kind, data) == rules && rule_action(rules, kind, data) is None,
        },
{
    lemma_first_applicable(rules, kind, data);
}

/// Removing an identifier that no rule carries changes nothing.
proof fn lemma_without_absent(rules: Seq<RuleModel>, id: Seq<char>)
    requires
        !has_id(rules, id),
    ensures
        without_id(rules, id) == rules,
    decreases rules.len(),
{
    reveal(Seq::filter);
    if rules.len() > 0 {
        assert(rules.last().id != id);
        assert forall|i: int| 0 <= i < rules.drop_last().len() implies (#[trigger] rules.drop_last()[i]).id
            != id by {
            assert(rules.drop_last()[i] == rules[i]);
        }
        lemma_without_absent(rules.drop_last(), id);
        assert(rules.drop_last().push(rules.last()) =~= rules);
    }
}

/// Where identifiers are unique, removing the identifier of the rule at
/// position `at` removes that rule and no other.
proof fn lemma_without_present(rules: Seq<RuleModel>, id: Seq<char>, at: int)
    requires
        unique_ids(rules),
        0 <= at < rules.len(),
        rules[at].id == id,
    ensures
        without_id(rules, id) == rules.remove(at),
        unique_ids(rules.remove(at)),
    decreases rules.len(),
{
    reveal(Seq::filter);
    let front = rules.drop_last();
    if at == rules.len() - 1 {
        assert(!has_id(front, id)) by {
            if has_id(front, id) {
                let i = choose|i: int| 0 <= i < front.len() && (#[trigger] front[i]).id == id;
                assert(front[i] == rules[i]);
            }
        }
        lemma_without_absent(front, id);
        assert(rules.remove(at) =~= front);
    } else {
        assert(front[at] == rules[at]);
        assert(unique_ids(front)) by {
            assert forall|i: int, j: int| 0 <= i < j < front.len() implies (#[trigger] front[i]).id
                != (#[trigger] front[j]).id by {
                assert(front[i] == rules[i] && front[j] == rules[j]);
            }
        }
        lemma_without_present(front, id, at);
        assert(rules.last().id != id);
        assert(rules.remove(at) =~= front.remove(at).push(rules.last()));
    }
    assert forall|i: int, j: int| 0 <= i < j < rules.remove(at).len() implies (#[trigger] rules.remove(
        at,
    )[i]).id != (#[trigger] rules.remove(at)[j]).id by {
        let a = if i < at { i } else { i + 1 };
        let b = if j < at { j } else { j + 1 };
        assert(rules.remove(at)[i] == rules[a]);
        assert(rules.remove(at)[j] == rules[b]);
    }
}

} // verus!
