//! Properties of the library as a whole: what every editing operation
//! keeps, and how typing, matching and erasing relate.
use vstd::prelude::*;
use crate::text::{
    collapse, lower, lower_seq, lemma_collapse_idempotent, is_ws, first_index_of,
    lemma_collapse_is_collapsed, lemma_lower_idempotent,
};
use crate::hook::{
    after_key, key_action, is_passive_key, BufAction, BUF_MAX, match_index, first_firing, rule_fires,
    scope_split, erase_count, last_occurrence, last_occurrence_from, focus_of, listed, exe_name,
    text_after, trigger_proper, key_char, is_boundary,
};
use crate::model::{ConfigView, RuleView};
use crate::ids::{id_alphabet, time_digit, spec_id, reading_millis};
use crate::clock::millis_of;
use crate::store::{config_ok, rules_ok, rule_fields_ok};
use crate::commands::{
    add_outcome, update_outcome, delete_outcome, settled, with_trigger, index_of_id,
    lemma_index_of_id, fields_problem, trigger_taken, merge_all, merge_step, last_index_of_key,
    with_rules, overwrites, CommandErrorView, clashes,
};

verus! {

proof fn lemma_rules_ok_push(rules: Seq<RuleView>, r: RuleView)
    requires
        rules_ok(rules),
        rule_fields_ok(r),
        r.id.len() > 0 ==> forall|i: int| 0 <= i < rules.len() ==> #[trigger] rules[i].id != r.id,
        forall|i: int| 0 <= i < rules.len() ==> lower_seq(#[trigger] rules[i].trigger) != lower_seq(r.trigger),
    ensures
        rules_ok(rules.push(r)),
{
    let s = rules.push(r);
    assert forall|k: int| 0 <= k < s.len() implies rule_fields_ok(#[trigger] s[k]) by {
        if k < rules.len() {
            assert(s[k] == rules[k]);
        }
    }
    assert forall|j: int, k: int|
        0 <= j < k < s.len() && s[k].id.len() > 0 implies #[trigger] s[j].id != #[trigger] s[k].id by {
        assert(s[j] == rules[j]);
        if k < rules.len() {
            assert(s[k] == rules[k]);
        }
    }
    assert forall|j: int, k: int| 0 <= j < k < s.len() implies lower_seq(#[trigger] s[j].trigger) != lower_seq(
        #[trigger] s[k].trigger,
    ) by {
        assert(s[j] == rules[j]);
        if k < rules.len() {
            assert(s[k] == rules[k]);
        }
    }
}

proof fn lemma_rules_ok_update(rules: Seq<RuleView>, pos: int, r: RuleView)
    requires
        rules_ok(rules),
        0 <= pos < rules.len(),
        rule_fields_ok(r),
        r.id == rules[pos].id,
        forall|i: int| 0 <= i < rules.len() && i != pos ==> lower_seq(#[trigger] rules[i].trigger) != lower_seq(r.trigger),
    ensures
        rules_ok(rules.update(pos, r)),
{
    let s = rules.update(pos, r);
    assert forall|k: int| 0 <= k < s.len() implies rule_fields_ok(#[trigger] s[k]) by {
        if k != pos {
            assert(s[k] == rules[k]);
        }
    }
    assert forall|j: int, k: int|
        0 <= j < k < s.len() && s[k].id.len() > 0 implies #[trigger] s[j].id != #[trigger] s[k].id by {
        assert(s[j].id == rules[j].id);
        assert(s[k].id == rules[k].id);
    }
    assert forall|j: int, k: int| 0 <= j < k < s.len() implies lower_seq(#[trigger] s[j].trigger) != lower_seq(
        #[trigger] s[k].trigger,
    ) by {
        if j != pos {
            assert(s[j] == rules[j]);
        }
        if k != pos {
            assert(s[k] == rules[k]);
        }
    }
}

proof fn lemma_rules_ok_remove(rules: Seq<RuleView>, pos: int)
    requires
        rules_ok(rules),
        0 <= pos < rules.len(),
    ensures
        rules_ok(rules.remove(pos)),
{
    let s = rules.remove(pos);
    assert forall|k: int| 0 <= k < s.len() implies rule_fields_ok(#[trigger] s[k]) by {
        if k >= pos {
            assert(s[k] == rules[k + 1]);
        }
    }
    assert forall|j: int, k: int|
        0 <= j < k < s.len() && s[k].id.len() > 0 implies #[trigger] s[j].id != #[trigger] s[k].id by {
        let jj = if j < pos { j } else { j + 1 };
        let kk = if k < pos { k } else { k + 1 };
        assert(s[j] == rules[jj]);
        assert(s[k] == rules[kk]);
    }
    assert forall|j: int, k: int| 0 <= j < k < s.len() implies lower_seq(#[trigger] s[j].trigger) != lower_seq(
        #[trigger] s[k].trigger,
    ) by {
        let jj = if j < pos { j } else { j + 1 };
        let kk = if k < pos { k } else { k + 1 };
        assert(s[j] == rules[jj]);
        assert(s[k] == rules[kk]);
    }
}

/// A rule that passed the field checks has a trigger in the stored form.
proof fn lemma_checked_fields(rule: RuleView)
    requires
        fields_problem(collapse(rule.trigger), rule.replacement) is None,
    ensures
        rule_fields_ok(with_trigger(rule, collapse(rule.trigger))),
{
    lemma_collapse_idempotent(rule.trigger);
}

/// Adding a rule keeps a valid configuration valid, provided its id is
/// fresh: non-empty and not the id of any current rule.
pub proof fn law_add_keeps_valid(c: ConfigView, rule: RuleView, id: Seq<char>, stamp: Seq<char>)
    requires
        config_ok(c),
        id.len() > 0,
        forall|i: int| 0 <= i < c.rules.len() ==> #[trigger] c.rules[i].id != id,
    ensures
        add_outcome(c, settled(rule, id, stamp)) matches Ok(c2) ==> config_ok(c2),
{
    let r = settled(rule, id, stamp);
    if let Ok(c2) = add_outcome(c, r) {
        let t = collapse(r.trigger);
        lemma_checked_fields(r);
        assert forall|i: int| 0 <= i < c.rules.len() implies lower_seq(#[trigger] c.rules[i].trigger)
            != lower_seq(t) by {
            if lower_seq(c.rules[i].trigger) == lower_seq(t) {
                assert(trigger_taken(c.rules, t, -1));
            }
        }
        lemma_rules_ok_push(c.rules, with_trigger(r, t));
    }
}

/// Updating a rule keeps a valid configuration valid; the rule keeps the
/// id it is stored under.
pub proof fn law_update_keeps_valid(c: ConfigView, id: Seq<char>, rule: RuleView)
    requires
        config_ok(c),
    ensures
        update_outcome(c, id, rule) matches Ok(c2) ==> {
            &&& config_ok(c2)
            &&& c2.rules.len() == c.rules.len()
            &&& c2.rules[index_of_id(c.rules, id)].id == id
        },
{
    if let Ok(c2) = update_outcome(c, id, rule) {
        lemma_index_of_id(c.rules, id);
        let pos = index_of_id(c.rules, id);
        let t = collapse(rule.trigger);
        lemma_checked_fields(rule);
        assert forall|i: int| 0 <= i < c.rules.len() && i != pos implies lower_seq(
            #[trigger] c.rules[i].trigger,
        ) != lower_seq(t) by {
            if lower_seq(c.rules[i].trigger) == lower_seq(t) {
                assert(trigger_taken(c.rules, t, pos));
            }
        }
        lemma_rules_ok_update(c.rules, pos, with_trigger(rule, t));
    }
}

/// A successful update changes only the rule stored under `id` (the first
/// with that id): the other rules and all settings stay; that rule keeps
/// its id and creation time and takes the given content, its trigger
/// normalized.
pub proof fn law_update_changes_one_rule(c: ConfigView, id: Seq<char>, rule: RuleView)
    ensures
        update_outcome(c, id, rule) matches Ok(c2) ==> {
            let pos = index_of_id(c.rules, id);
            &&& 0 <= pos < c.rules.len()
            &&& c.rules[pos].id == id
            &&& c2 == with_rules(c, c2.rules)
            &&& c2.rules.len() == c.rules.len()
            &&& forall|i: int| 0 <= i < c.rules.len() && i != pos ==> #[trigger] c2.rules[i] == c.rules[i]
            &&& c2.rules[pos].id == id
            &&& c2.rules[pos].created_at == c.rules[pos].created_at
            &&& c2.rules[pos].trigger == collapse(rule.trigger)
            &&& c2.rules[pos].replacement == rule.replacement
            &&& c2.rules[pos].enabled == rule.enabled
        },
{
    lemma_index_of_id(c.rules, id);
}

/// Deleting a rule keeps a valid configuration valid and removes exactly
/// one rule.
pub proof fn law_delete_keeps_valid(c: ConfigView, id: Seq<char>)
    requires
        config_ok(c),
    ensures
        delete_outcome(c, id) matches Ok(c2) ==> config_ok(c2) && c2.rules.len() + 1 == c.rules.len(),
{
    if let Ok(c2) = delete_outcome(c, id) {
        lemma_index_of_id(c.rules, id);
        lemma_rules_ok_remove(c.rules, index_of_id(c.rules, id));
    }
}

/// Deleting a rule just added under a fresh id gives back the configuration
/// as it was before the addition.
pub proof fn law_delete_undoes_add(c: ConfigView, rule: RuleView, id: Seq<char>, stamp: Seq<char>)
    requires
        forall|i: int| 0 <= i < c.rules.len() ==> #[trigger] c.rules[i].id != id,
    ensures
        add_outcome(c, settled(rule, id, stamp)) matches Ok(c2) ==> delete_outcome(c2, id) == Ok::<
            ConfigView,
            CommandErrorView,
        >(c),
{
    if let Ok(c2) = add_outcome(c, settled(rule, id, stamp)) {
        let s = c2.rules;
        assert(s.len() == c.rules.len() + 1);
        assert(s[c.rules.len() as int].id == id);
        lemma_index_of_id(s, id);
        let k = index_of_id(s, id);
        if k < c.rules.len() {
            assert(s[k] == c.rules[k]);
        }
        assert(k == c.rules.len());
        assert(s.remove(k) =~= c.rules);
        assert(with_rules(c2, c.rules) == c);
    }
}

proof fn lemma_last_index_of_key(rules: Seq<RuleView>, key: Seq<char>)
    ensures
        -1 <= last_index_of_key(rules, key) < rules.len(),
        last_index_of_key(rules, key) >= 0 ==> lower_seq(rules[last_index_of_key(rules, key)].trigger) == key,
        last_index_of_key(rules, key) < 0 ==> forall|i: int|
            0 <= i < rules.len() ==> lower_seq(#[trigger] rules[i].trigger) != key,
    decreases rules.len(),
{
    if rules.len() > 0 && lower_seq(rules.last().trigger) != key {
        let front = rules.drop_last();
        lemma_last_index_of_key(front, key);
        assert forall|i: int| 0 <= i < front.len() implies #[trigger] rules[i] == front[i] by {}
    }
}

/// The id is that of a current rule, or the id given to one of the first
/// `k` imported rules that is appended (its trigger clashes with no current
/// rule).
spec fn id_known(orig: Seq<RuleView>, inc: Seq<RuleView>, ids: Seq<Seq<char>>, k: int, x: Seq<char>) -> bool {
    (exists|i: int| 0 <= i < orig.len() && #[trigger] orig[i].id == x) || (exists|j: int|
        0 <= j < k && !clashes(orig, inc[j].trigger) && #[trigger] ids[j] == x)
}

/// The ids given to the imported rules that are appended are non-empty,
/// distinct, and not ids of current rules.
pub open spec fn fresh_ids(orig: Seq<RuleView>, inc: Seq<RuleView>, ids: Seq<Seq<char>>) -> bool {
    &&& forall|j: int|
        0 <= j < inc.len() && !clashes(orig, inc[j].trigger) ==> (#[trigger] ids[j]).len() > 0
    &&& forall|j1: int, j2: int|
        0 <= j1 < j2 < inc.len() && !clashes(orig, inc[j1].trigger) && !clashes(orig, inc[j2].trigger)
            ==> #[trigger] ids[j1] != #[trigger] ids[j2]
    &&& forall|j: int, i: int|
        0 <= j < inc.len() && 0 <= i < orig.len() && !clashes(orig, inc[j].trigger) ==> #[trigger] ids[j]
            != #[trigger] orig[i].id
}

/// No two rules' triggers are equal up to ASCII case.
pub open spec fn distinct_triggers(rules: Seq<RuleView>) -> bool {
    forall|j: int, k: int|
        0 <= j < k < rules.len() ==> lower_seq(#[trigger] rules[j].trigger) != lower_seq(
            #[trigger] rules[k].trigger,
        )
}

/// The imported rules a merge appends, in order: those whose trigger
/// clashes with no current rule, each under its id and, when it has no
/// creation time, its stamp.
pub open spec fn appended(
    rules: Seq<RuleView>,
    incoming: Seq<RuleView>,
    ids: Seq<Seq<char>>,
    stamps: Seq<Seq<char>>,
) -> Seq<RuleView>
    decreases incoming.len(),
{
    if incoming.len() == 0 {
        Seq::empty()
    } else {
        let prev = appended(rules, incoming.drop_last(), ids.drop_last(), stamps.drop_last());
        if clashes(rules, incoming.last().trigger) {
            prev
        } else {
            prev.push(settled(incoming.last(), ids.last(), stamps.last()))
        }
    }
}

proof fn lemma_appended_from(
    rules: Seq<RuleView>,
    incoming: Seq<RuleView>,
    ids: Seq<Seq<char>>,
    stamps: Seq<Seq<char>>,
)
    ensures
        forall|t: int|
            0 <= t < appended(rules, incoming, ids, stamps).len() ==> exists|j: int|
                0 <= j < incoming.len() && (#[trigger] appended(rules, incoming, ids, stamps)[t]).trigger
                    == incoming[j].trigger,
    decreases incoming.len(),
{
    if incoming.len() > 0 {
        let front = incoming.drop_last();
        lemma_appended_from(rules, front, ids.drop_last(), stamps.drop_last());
        let prev = appended(rules, front, ids.drop_last(), stamps.drop_last());
        let cur = appended(rules, incoming, ids, stamps);
        assert forall|t: int| 0 <= t < cur.len() implies exists|j: int|
            0 <= j < incoming.len() && (#[trigger] cur[t]).trigger == incoming[j].trigger by {
            if t < prev.len() {
                let j = choose|j: int| 0 <= j < front.len() && (#[trigger] prev[t]).trigger == front[j].trigger;
                assert(cur[t] == prev[t]);
                assert(incoming[j] == front[j]);
            } else {
                assert(cur[t].trigger == incoming[incoming.len() - 1].trigger);
            }
        }
    }
}

/// Merging keeps every current rule where it is, with its id, its creation
/// time and its trigger up to ASCII case, whatever the decisions; the list
/// only grows.
pub proof fn law_merge_keeps_identity(
    rules: Seq<RuleView>,
    incoming: Seq<RuleView>,
    ds: Seq<(Seq<char>, Seq<char>)>,
    ids: Seq<Seq<char>>,
    stamps: Seq<Seq<char>>,
)
    ensures
        merge_all(rules, incoming, ds, ids, stamps).len() >= rules.len(),
        forall|i: int|
            0 <= i < rules.len() ==> {
                &&& (#[trigger] merge_all(rules, incoming, ds, ids, stamps)[i]).id == rules[i].id
                &&& merge_all(rules, incoming, ds, ids, stamps)[i].created_at == rules[i].created_at
                &&& lower_seq(merge_all(rules, incoming, ds, ids, stamps)[i].trigger) == lower_seq(
                    rules[i].trigger,
                )
            },
    decreases incoming.len(),
{
    if incoming.len() > 0 {
        law_merge_keeps_identity(rules, incoming.drop_last(), ds, ids.drop_last(), stamps.drop_last());
        let prev = merge_all(rules, incoming.drop_last(), ds, ids.drop_last(), stamps.drop_last());
        lemma_last_index_of_key(prev, lower_seq(incoming.last().trigger));
    }
}

/// The shape of a merge of imported rules with distinct triggers: the
/// current rules first (see `law_merge_keeps_identity`), then exactly the
/// imported rules whose trigger clashes with no current rule, in import
/// order, each under its id and, when it has no creation time, its stamp.
pub proof fn law_merge_appends_new_triggers(
    rules: Seq<RuleView>,
    incoming: Seq<RuleView>,
    ds: Seq<(Seq<char>, Seq<char>)>,
    ids: Seq<Seq<char>>,
    stamps: Seq<Seq<char>>,
)
    requires
        distinct_triggers(incoming),
    ensures
        merge_all(rules, incoming, ds, ids, stamps).len() == rules.len() + appended(
            rules,
            incoming,
            ids,
            stamps,
        ).len(),
        merge_all(rules, incoming, ds, ids, stamps).skip(rules.len() as int) == appended(
            rules,
            incoming,
            ids,
            stamps,
        ),
    decreases incoming.len(),
{
    if incoming.len() > 0 {
        let front = incoming.drop_last();
        let fi = ids.drop_last();
        let fs = stamps.drop_last();
        assert forall|j: int, k: int| 0 <= j < k < front.len() implies lower_seq(
            #[trigger] front[j].trigger,
        ) != lower_seq(#[trigger] front[k].trigger) by {
            assert(front[j] == incoming[j] && front[k] == incoming[k]);
        }
        law_merge_appends_new_triggers(rules, front, ds, fi, fs);
        law_merge_keeps_identity(rules, front, ds, fi, fs);
        lemma_appended_from(rules, front, fi, fs);
        let prev = merge_all(rules, front, ds, fi, fs);
        let ap = appended(rules, front, fi, fs);
        let x = incoming.last();
        let key = lower_seq(x.trigger);
        let r = rules.len() as int;
        let last = incoming.len() - 1;
        lemma_last_index_of_key(prev, key);
        let idx = last_index_of_key(prev, key);
        if idx >= r {
            assert(prev[idx] == ap[idx - r]);
            let j = choose|j: int| 0 <= j < front.len() && (#[trigger] ap[idx - r]).trigger == front[j].trigger;
            assert(front[j] == incoming[j]);
            assert(lower_seq(incoming[j].trigger) != lower_seq(incoming[last].trigger));
            assert(false);
        }
        if clashes(rules, x.trigger) {
            let i = choose|i: int|
                0 <= i < rules.len() && i != -1 && #[trigger] lower_seq(rules[i].trigger) == lower_seq(x.trigger);
            assert(lower_seq(prev[i].trigger) == key);
            assert(idx >= 0);
            let m = merge_all(rules, incoming, ds, ids, stamps);
            assert(m.skip(r) =~= prev.skip(r));
        } else {
            if idx >= 0 {
                assert(lower_seq(prev[idx].trigger) == key);
                assert(lower_seq(rules[idx].trigger) == key);
                assert(trigger_taken(rules, x.trigger, -1));
                assert(false);
            }
            let m = merge_all(rules, incoming, ds, ids, stamps);
            assert(m.skip(r) =~= prev.skip(r).push(settled(x, ids.last(), stamps.last())));
        }
    }
}

proof fn lemma_merge_prefix_ok(
    orig: Seq<RuleView>,
    inc: Seq<RuleView>,
    ds: Seq<(Seq<char>, Seq<char>)>,
    ids: Seq<Seq<char>>,
    stamps: Seq<Seq<char>>,
    n: int,
)
    requires
        rules_ok(orig),
        forall|k: int| 0 <= k < inc.len() ==> rule_fields_ok(#[trigger] inc[k]),
        ids.len() == inc.len(),
        stamps.len() == inc.len(),
        0 <= n <= inc.len(),
        fresh_ids(orig, inc, ids),
    ensures
        rules_ok(merge_all(orig, inc.take(n), ds, ids.take(n), stamps.take(n))),
        forall|i: int|
            0 <= i < merge_all(orig, inc.take(n), ds, ids.take(n), stamps.take(n)).len() && (
            #[trigger] merge_all(orig, inc.take(n), ds, ids.take(n), stamps.take(n))[i]).id.len() > 0
                ==> id_known(orig, inc, ids, n, merge_all(orig, inc.take(n), ds, ids.take(n), stamps.take(n))[i].id),
    decreases n,
{
    if n == 0 {
        assert(inc.take(0) =~= Seq::<RuleView>::empty());
        assert forall|i: int|
            0 <= i < orig.len() && (#[trigger] orig[i]).id.len() > 0 implies id_known(orig, inc, ids, 0, orig[i].id) by {}
    } else {
        lemma_merge_prefix_ok(orig, inc, ds, ids, stamps, n - 1);
        assert(inc.take(n).drop_last() =~= inc.take(n - 1));
        assert(ids.take(n).drop_last() =~= ids.take(n - 1));
        assert(stamps.take(n).drop_last() =~= stamps.take(n - 1));
        assert(inc.take(n).last() == inc[n - 1]);
        assert(ids.take(n).last() == ids[n - 1]);
        assert(stamps.take(n).last() == stamps[n - 1]);
        let prev = merge_all(orig, inc.take(n - 1), ds, ids.take(n - 1), stamps.take(n - 1));
        let cur = merge_all(orig, inc.take(n), ds, ids.take(n), stamps.take(n));
        let r = inc[n - 1];
        assert(cur == merge_step(prev, r, ds, ids[n - 1], stamps[n - 1]));
        assert(rule_fields_ok(r));
        let key = lower_seq(r.trigger);
        lemma_last_index_of_key(prev, key);
        let idx = last_index_of_key(prev, key);
        if idx >= 0 {
            if overwrites(ds, r.trigger) {
                let nr = RuleView { id: prev[idx].id, created_at: prev[idx].created_at, ..r };
                assert forall|i: int| 0 <= i < prev.len() && i != idx implies lower_seq(
                    #[trigger] prev[i].trigger,
                ) != lower_seq(nr.trigger) by {
                    assert(lower_seq(prev[i].trigger) != lower_seq(prev[idx].trigger));
                }
                lemma_rules_ok_update(prev, idx, nr);
                assert forall|i: int| 0 <= i < cur.len() && (#[trigger] cur[i]).id.len() > 0 implies id_known(
                    orig,
                    inc,
                    ids,
                    n,
                    cur[i].id,
                ) by {
                    assert(cur[i].id == prev[i].id);
                    assert(id_known(orig, inc, ids, n - 1, prev[i].id));
                }
            } else {
                assert forall|i: int| 0 <= i < cur.len() && (#[trigger] cur[i]).id.len() > 0 implies id_known(
                    orig,
                    inc,
                    ids,
                    n,
                    cur[i].id,
                ) by {
                    assert(id_known(orig, inc, ids, n - 1, prev[i].id));
                }
            }
        } else {
            law_merge_keeps_identity(orig, inc.take(n - 1), ds, ids.take(n - 1), stamps.take(n - 1));
            assert(!clashes(orig, r.trigger)) by {
                if clashes(orig, r.trigger) {
                    let i = choose|i: int|
                        0 <= i < orig.len() && i != -1 && #[trigger] lower_seq(orig[i].trigger) == lower_seq(r.trigger);
                    assert(lower_seq(prev[i].trigger) == key);
                }
            }
            let nr = settled(r, ids[n - 1], stamps[n - 1]);
            assert forall|i: int| 0 <= i < prev.len() implies #[trigger] prev[i].id != nr.id by {
                if prev[i].id == nr.id {
                    assert(id_known(orig, inc, ids, n - 1, prev[i].id));
                    if exists|i2: int| 0 <= i2 < orig.len() && #[trigger] orig[i2].id == prev[i].id {
                        let i2 = choose|i2: int| 0 <= i2 < orig.len() && #[trigger] orig[i2].id == prev[i].id;
                        assert(ids[n - 1] != orig[i2].id);
                    } else {
                        let j = choose|j: int|
                            0 <= j < n - 1 && !clashes(orig, inc[j].trigger) && #[trigger] ids[j] == prev[i].id;
                        assert(ids[j] != ids[n - 1]);
                    }
                }
            }
            lemma_rules_ok_push(prev, nr);
            assert forall|i: int| 0 <= i < cur.len() && (#[trigger] cur[i]).id.len() > 0 implies id_known(
                orig,
                inc,
                ids,
                n,
                cur[i].id,
            ) by {
                if i < prev.len() {
                    assert(cur[i] == prev[i]);
                    assert(id_known(orig, inc, ids, n - 1, prev[i].id));
                } else {
                    assert(cur[i].id == ids[n - 1]);
                }
            }
        }
    }
}

/// Merging an import keeps a valid configuration valid, provided the import
/// is valid and the ids given to the rules it appends are non-empty,
/// distinct and not ids of current rules (see `fresh_ids`).
pub proof fn law_merge_keeps_valid(
    c: ConfigView,
    incoming: ConfigView,
    ds: Seq<(Seq<char>, Seq<char>)>,
    ids: Seq<Seq<char>>,
    stamps: Seq<Seq<char>>,
)
    requires
        config_ok(c),
        config_ok(incoming),
        ids.len() == incoming.rules.len(),
        stamps.len() == incoming.rules.len(),
        fresh_ids(c.rules, incoming.rules, ids),
    ensures
        config_ok(with_rules(c, merge_all(c.rules, incoming.rules, ds, ids, stamps))),
{
    let n = incoming.rules.len() as int;
    assert forall|k: int| 0 <= k < incoming.rules.len() implies rule_fields_ok(#[trigger] incoming.rules[k]) by {}
    lemma_merge_prefix_ok(c.rules, incoming.rules, ds, ids, stamps, n);
    assert(incoming.rules.take(n) =~= incoming.rules);
    assert(ids.take(n) =~= ids);
    assert(stamps.take(n) =~= stamps);
}

/// Merging without decisions changes no current rule: every clash is
/// skipped, and imported rules with new triggers go after the current ones.
pub proof fn law_merge_default_skips(
    rules: Seq<RuleView>,
    incoming: Seq<RuleView>,
    ids: Seq<Seq<char>>,
    stamps: Seq<Seq<char>>,
)
    ensures
        merge_all(rules, incoming, Seq::empty(), ids, stamps).len() >= rules.len(),
        merge_all(rules, incoming, Seq::empty(), ids, stamps).take(rules.len() as int) == rules,
    decreases incoming.len(),
{
    if incoming.len() > 0 {
        law_merge_default_skips(rules, incoming.drop_last(), ids.drop_last(), stamps.drop_last());
        let prev = merge_all(rules, incoming.drop_last(), Seq::empty(), ids.drop_last(), stamps.drop_last());
        let x = incoming.last();
        assert(!overwrites(Seq::empty(), x.trigger));
        assert(prev.push(settled(x, ids.last(), stamps.last())).take(rules.len() as int) =~= prev.take(
            rules.len() as int,
        ));
    }
}

/// Typing a character and then Backspace gives back the buffer, as long as
/// the buffer was below its cap.
pub proof fn law_backspace_undoes_char(buf: Seq<char>, c: char)
    requires
        buf.len() < BUF_MAX,
    ensures
        after_key(after_key(buf, BufAction::Char(c)), BufAction::Backspace) == buf,
{
    assert(buf.push(c).drop_last() =~= buf);
}

/// Navigation, modifier and function keys leave the buffer as it is.
pub proof fn law_passive_keys_keep_buffer(buf: Seq<char>, vk: u16, shift_down: bool)
    requires
        is_passive_key(vk),
    ensures
        after_key(buf, key_action(vk, shift_down)) == buf,
{
}

/// A rule fires only when the buffer ends with whitespace after some text.
pub proof fn law_match_needs_boundary(buffer: Seq<char>, rules: Seq<RuleView>, exe: Seq<char>)
    ensures
        match_index(buffer, rules, exe) >= 0 ==> buffer.len() >= 2 && is_ws(buffer.last()),
{
}

proof fn lemma_lower_keeps_ws(c: char)
    ensures
        is_ws(lower(c)) == is_ws(c),
{
}

/// When a rule fires, the characters erased are exactly its trigger proper
/// (without any application scope) and the whitespace after it; after the
/// paste the text reads: what was typed before the trigger, the
/// replacement, then that whitespace.
pub proof fn law_erase_only_trigger_span(buffer: Seq<char>, r: RuleView, exe: Seq<char>)
    requires
        buffer.len() >= 2,
        is_ws(buffer.last()),
        rule_fires(r, buffer.drop_last(), exe),
    ensures
        erase_count(buffer, r.trigger) == trigger_proper(r.trigger).len() + 1,
        text_after(buffer, erase_count(buffer, r.trigger), r.replacement.push(buffer.last()))
            == buffer.subrange(0, buffer.len() - 1 - trigger_proper(r.trigger).len()) + r.replacement
            + seq![buffer.last()],
{
    let raw = scope_split(r.trigger).1;
    let t = trigger_proper(r.trigger);
    let tl = t.len() as int;
    let h = buffer.len() - 1;
    let head = buffer.drop_last();
    let b = lower_seq(buffer);
    let tt = lower_seq(t);
    assert(tl >= 1 && h >= tl);
    lemma_collapse_is_collapsed(raw);
    assert(!is_ws(t[tl - 1])) by {
        if is_ws(t[tl - 1]) {
            assert(tl - 1 < tl - 1);
        }
    }
    lemma_lower_keeps_ws(t[tl - 1]);
    lemma_lower_keeps_ws(buffer[h]);
    let i = h + 1 - tl;
    assert(b.subrange(i, i + tl)[tl - 1] == b[h]);
    assert(tt[tl - 1] == lower(t[tl - 1]));
    assert(b.subrange(i, i + tl) != tt);
    assert(b.subrange(h - tl, h) =~= lower_seq(head.subrange(h - tl, h)));
    assert(last_occurrence_from(b, tt, h - tl) == h - tl);
    assert(last_occurrence(b, tt) == h - tl);
    assert(r.replacement.push(buffer.last()) =~= r.replacement + seq![buffer.last()]);
}

proof fn lemma_fires_ignores_case(r: RuleView, head: Seq<char>, exe: Seq<char>)
    ensures
        rule_fires(r, lower_seq(head), exe) == rule_fires(r, head, exe),
{
    let (scope, raw) = scope_split(r.trigger);
    let trig = collapse(raw);
    let n = trig.len();
    let h = head.len();
    let lh = lower_seq(head);
    if h >= n {
        assert(lh.subrange(h - n, h as int) =~= lower_seq(head.subrange(h - n, h as int)));
        lemma_lower_idempotent(head.subrange(h - n, h as int));
        if h > n {
            lemma_lower_keeps_ws(head[h - n - 1]);
        }
    }
}

proof fn lemma_first_firing_ignores_case(rules: Seq<RuleView>, head: Seq<char>, exe: Seq<char>, n: int)
    requires
        0 <= n <= rules.len(),
    ensures
        first_firing(rules, lower_seq(head), exe, n) == first_firing(rules, head, exe, n),
    decreases n,
{
    if n > 0 {
        lemma_first_firing_ignores_case(rules, head, exe, n - 1);
        lemma_fires_ignores_case(rules[n - 1], head, exe);
    }
}

/// Matching ignores ASCII case: a typed text and its lowercase form
/// complete the same rule.
pub proof fn law_match_ignores_case(buffer: Seq<char>, rules: Seq<RuleView>, exe: Seq<char>)
    ensures
        match_index(lower_seq(buffer), rules, exe) == match_index(buffer, rules, exe),
{
    let lb = lower_seq(buffer);
    if buffer.len() >= 2 {
        lemma_lower_keeps_ws(buffer.last());
        assert(lb.drop_last() =~= lower_seq(buffer.drop_last()));
        lemma_first_firing_ignores_case(rules, buffer.drop_last(), exe, rules.len() as int);
    }
}

/// A blacklisted application is always excluded, whatever `scoped_to` says.
pub proof fn law_blacklist_wins(
    path: Seq<char>,
    blacklist: Seq<Seq<char>>,
    scoped_to: Option<Seq<Seq<char>>>,
)
    requires
        lower_seq(exe_name(path)).len() > 0,
        listed(blacklist, lower_seq(exe_name(path))),
    ensures
        focus_of(Some(path), blacklist, scoped_to).1,
{
}

/// Without a non-empty `scoped_to`, only blacklisted applications are
/// excluded.
pub proof fn law_unscoped_only_blacklist(
    path: Option<Seq<char>>,
    blacklist: Seq<Seq<char>>,
    scoped_to: Option<Seq<Seq<char>>>,
)
    requires
        scoped_to matches Some(s) ==> s.len() == 0,
    ensures
        focus_of(path, blacklist, scoped_to).1 ==> (path matches Some(p) && listed(
            blacklist,
            lower_seq(exe_name(p)),
        )),
{
}

/// Largest timestamp, in milliseconds, whose ten base-32 digits hold it whole.
pub open spec fn id_time_limit() -> u64 {
    0x4_0000_0000_0000
}

proof fn lemma_alphabet_increasing(x: int, y: int)
    requires
        0 <= x < y < 32,
    ensures
        (id_alphabet()[x] as u32) < (id_alphabet()[y] as u32),
    decreases y - x,
{
    let a = id_alphabet();
    assert(a.len() == 32);
    assert(a[0] == '0' && a[1] == '1' && a[2] == '2' && a[3] == '3' && a[4] == '4' && a[5] == '5');
    assert(a[6] == '6' && a[7] == '7' && a[8] == '8' && a[9] == '9' && a[10] == 'A' && a[11] == 'B');
    assert(a[12] == 'C' && a[13] == 'D' && a[14] == 'E' && a[15] == 'F' && a[16] == 'G');
    assert(a[17] == 'H' && a[18] == 'J' && a[19] == 'K' && a[20] == 'M' && a[21] == 'N');
    assert(a[22] == 'P' && a[23] == 'Q' && a[24] == 'R' && a[25] == 'S' && a[26] == 'T');
    assert(a[27] == 'V' && a[28] == 'W' && a[29] == 'X' && a[30] == 'Y' && a[31] == 'Z');
    if y > x + 1 {
        lemma_alphabet_increasing(x, y - 1);
    }
}

/// The first `i` base-32 digits of a timestamp below `id_time_limit`, as a
/// number.
spec fn time_prefix(ms: u64, i: int) -> u64 {
    ms >> ((50 - 5 * i) as u64)
}

proof fn lemma_prefix_step(ms: u64, i: int)
    requires
        0 <= i < 10,
    ensures
        time_prefix(ms, i + 1) == (time_prefix(ms, i) << 5u64) | (time_digit(ms, i) as u64),
        time_digit(ms, i) < 32,
{
    let s: u64 = (45 - 5 * i) as u64;
    assert(s + 5 <= 50);
    assert(((ms >> s) == (((ms >> (s + 5)) << 5u64) | ((ms >> s) & 31u64))) && ((ms >> s) & 31u64) < 32)
        by (bit_vector)
        requires
            s + 5 <= 50,
    ;
}

proof fn lemma_equal_digits_equal_prefix(ms1: u64, ms2: u64, i: int)
    requires
        0 <= i <= 10,
        ms1 < id_time_limit(),
        ms2 < id_time_limit(),
        forall|j: int| 0 <= j < i ==> time_digit(ms1, j) == time_digit(ms2, j),
    ensures
        time_prefix(ms1, i) == time_prefix(ms2, i),
    decreases i,
{
    if i == 0 {
        assert((ms1 >> 50u64) == 0 && (ms2 >> 50u64) == 0) by (bit_vector)
            requires
                ms1 < 0x4_0000_0000_0000u64,
                ms2 < 0x4_0000_0000_0000u64,
        ;
    } else {
        lemma_equal_digits_equal_prefix(ms1, ms2, i - 1);
        lemma_prefix_step(ms1, i - 1);
        lemma_prefix_step(ms2, i - 1);
    }
}

/// Ids sort by creation time: the id of an earlier millisecond comes first
/// in character order, whatever the random tails, for timestamps below
/// `id_time_limit` (some 35 000 years after 1970).
pub proof fn law_ids_sort_by_time(ms1: u64, ms2: u64, tail1: Seq<u8>, tail2: Seq<u8>)
    requires
        ms1 < ms2 < id_time_limit(),
    ensures
        exists|k: int|
            0 <= k < 10 && spec_id(ms1, tail1).take(k) == spec_id(ms2, tail2).take(k) && (#[trigger] spec_id(
                ms1,
                tail1,
            )[k] as u32) < (spec_id(ms2, tail2)[k] as u32),
{
    let a = spec_id(ms1, tail1);
    let b = spec_id(ms2, tail2);
    if forall|j: int| 0 <= j < 10 ==> time_digit(ms1, j) == time_digit(ms2, j) {
        lemma_equal_digits_equal_prefix(ms1, ms2, 10);
        assert(ms1 >> 0u64 == ms1 && ms2 >> 0u64 == ms2) by (bit_vector);
        assert(false);
    }
    let k = choose|k: int| 0 <= k < 10 && time_digit(ms1, k) != time_digit(ms2, k) && forall|j: int|
        0 <= j < k ==> time_digit(ms1, j) == time_digit(ms2, j);
    lemma_equal_digits_equal_prefix(ms1, ms2, k);
    lemma_prefix_step(ms1, k);
    lemma_prefix_step(ms2, k);
    let s: u64 = (45 - 5 * k) as u64;
    assert((ms1 >> s) <= (ms2 >> s)) by (bit_vector)
        requires
            ms1 < ms2,
    ;
    let p: u64 = time_prefix(ms1, k);
    let d1: u64 = time_digit(ms1, k) as u64;
    let d2: u64 = time_digit(ms2, k) as u64;
    assert(d1 <= d2) by (bit_vector)
        requires
            ((p << 5u64) | d1) <= ((p << 5u64) | d2),
            d1 < 32,
            d2 < 32,
    ;
    lemma_alphabet_increasing(time_digit(ms1, k), time_digit(ms2, k));
    assert(a.take(k) =~= b.take(k));
    assert(a[k] == id_alphabet()[time_digit(ms1, k)]);
    assert(b[k] == id_alphabet()[time_digit(ms2, k)]);
}

/// Ids sort by the clock readings they were made at: an id made at a
/// reading with fewer whole milliseconds comes first in character order,
/// whatever the random bytes, for readings below `id_time_limit`
/// milliseconds.
pub proof fn law_ids_sort_by_reading(
    secs1: u64,
    nanos1: u32,
    secs2: u64,
    nanos2: u32,
    tail1: Seq<u8>,
    tail2: Seq<u8>,
)
    requires
        millis_of(secs1, nanos1) < millis_of(secs2, nanos2) < id_time_limit(),
    ensures
        exists|k: int|
            0 <= k < 10 && spec_id(reading_millis(Some((secs1, nanos1))), tail1).take(k) == spec_id(
                reading_millis(Some((secs2, nanos2))),
                tail2,
            ).take(k) && (#[trigger] spec_id(reading_millis(Some((secs1, nanos1))), tail1)[k] as u32) < (
            spec_id(reading_millis(Some((secs2, nanos2))), tail2)[k] as u32),
{
    assert(reading_millis(Some((secs1, nanos1))) == millis_of(secs1, nanos1));
    assert(reading_millis(Some((secs2, nanos2))) == millis_of(secs2, nanos2));
    law_ids_sort_by_time(reading_millis(Some((secs1, nanos1))), reading_millis(Some((secs2, nanos2))), tail1, tail2);
}


/// The character printed above `c` on a US keyboard's key for `c` (what
/// Shift gives); letters stay as they are (the buffer folds case), and
/// characters without a shifted form map to themselves.
pub open spec fn us_shifted(c: char) -> char {
    if c == '1' { '!' } else if c == '2' { '@' } else if c == '3' { '#' } else if c == '4' { '$' }
    else if c == '5' { '%' } else if c == '6' { '^' } else if c == '7' { '&' } else if c == '8' { '*' }
    else if c == '9' { '(' } else if c == '0' { ')' } else if c == '-' { '_' } else if c == '=' { '+' }
    else if c == '[' { '{' } else if c == ']' { '}' } else if c == '\\' { '|' } else if c == ';' { ':' }
    else if c == '\'' { '"' } else if c == ',' { '<' } else if c == '.' { '>' } else if c == '/' { '?' }
    else if c == '`' { '~' } else { c }
}

/// Shift on a key types the shifted form of what the key types without
/// it, as printed on a US keyboard: Shift+1 is '!', Shift+- is '_',
/// Shift+; is ':', and so on; keys that type nothing do so either way.
pub proof fn law_shift_types_us_shifted(vk: u16)
    ensures
        match key_char(vk, false) {
            Some(c) => key_char(vk, true) == Some(us_shifted(c)),
            None => key_char(vk, true) is None,
        },
{
    if 0x41 <= vk && vk <= 0x5A {
        let c = ((vk - 0x41 + 0x61) as char);
        assert('a' <= c && c <= 'z');
    }
}

/// Every key that types a whitespace character (space, Enter, Tab) is a
/// boundary, after which the matcher runs; and every boundary key types
/// whitespace.
pub proof fn law_whitespace_keys_are_boundaries(vk: u16, shift_down: bool)
    ensures
        (key_action(vk, shift_down) matches BufAction::Char(c) && is_ws(c)) <==> is_boundary(
            key_action(vk, shift_down),
        ),
{
    if 0x41 <= vk && vk <= 0x5A {
        let c = ((vk - 0x41 + 0x61) as char);
        assert(0x61 <= (c as u32) && (c as u32) <= 0x7A);
    }
    if 0x30 <= vk && vk <= 0x39 && !shift_down {
        let c = (vk as char);
        assert(0x30 <= (c as u32) && (c as u32) <= 0x39);
    }
}

/// A typed character always lands at the end of the buffer, and the buffer
/// keeps the latest typing: it is what it was with the character appended,
/// less only its oldest character when it was at its cap.
pub proof fn law_typing_keeps_latest(buf: Seq<char>, c: char)
    ensures
        after_key(buf, BufAction::Char(c)).len() > 0,
        after_key(buf, BufAction::Char(c)).last() == c,
        after_key(buf, BufAction::Char(c)) == buf.push(c) || (buf.len() >= BUF_MAX && after_key(
            buf,
            BufAction::Char(c),
        ) == buf.push(c).skip(1)),
{
    assert(buf.push(c).drop_first() =~= buf.push(c).skip(1));
}


/// A rule without an application scope fires on its trigger typed in any
/// ASCII case (whatever case the trigger is stored in), at the start of the
/// typed text or after whitespace, once whitespace follows.
pub proof fn law_trigger_fires_in_any_case(
    r: RuleView,
    before: Seq<char>,
    typed: Seq<char>,
    w: char,
    exe: Seq<char>,
)
    requires
        r.enabled,
        first_index_of(r.trigger, ':') < 0,
        trigger_proper(r.trigger).len() > 0,
        lower_seq(typed) == lower_seq(trigger_proper(r.trigger)),
        before.len() == 0 || is_ws(before.last()),
        is_ws(w),
    ensures
        match_index(before + typed + seq![w], seq![r], exe) == 0,
{
    let buffer = before + typed + seq![w];
    let head = buffer.drop_last();
    assert(head =~= before + typed);
    let t = trigger_proper(r.trigger);
    assert(scope_split(r.trigger) == (None::<Seq<char>>, r.trigger));
    assert(typed.len() == lower_seq(typed).len());
    assert(t.len() == lower_seq(t).len());
    let h = head.len() as int;
    let n = t.len() as int;
    assert(head.subrange(h - n, h) =~= typed);
    if before.len() > 0 {
        assert(head[h - n - 1] == before.last());
    }
    assert(rule_fires(r, head, exe));
    assert(buffer.last() == w);
    assert(first_firing(seq![r], head, exe, 0) == -1);
    assert(first_firing(seq![r], head, exe, 1) == 0);
}


/// An overwrite takes all of the imported rule's content: when imported
/// rule `k`'s trigger clashes (up to ASCII case) with current rule `i` and
/// its decision is "overwrite", the merged rule at `i` is the imported rule
/// with only the current rule's id and creation time (current and imported
/// triggers each distinct up to ASCII case, as in valid files).
pub proof fn law_overwrite_takes_imported_content(
    rules: Seq<RuleView>,
    incoming: Seq<RuleView>,
    ds: Seq<(Seq<char>, Seq<char>)>,
    ids: Seq<Seq<char>>,
    stamps: Seq<Seq<char>>,
    i: int,
    k: int,
)
    requires
        distinct_triggers(rules),
        distinct_triggers(incoming),
        0 <= i < rules.len(),
        0 <= k < incoming.len(),
        lower_seq(rules[i].trigger) == lower_seq(incoming[k].trigger),
        overwrites(ds, incoming[k].trigger),
    ensures
        merge_all(rules, incoming, ds, ids, stamps)[i] == (RuleView {
            id: rules[i].id,
            created_at: rules[i].created_at,
            ..incoming[k]
        }),
    decreases incoming.len(),
{
    let last = incoming.len() - 1;
    let front = incoming.drop_last();
    let fi = ids.drop_last();
    let fs = stamps.drop_last();
    assert forall|j: int, l: int| 0 <= j < l < front.len() implies lower_seq(
        #[trigger] front[j].trigger,
    ) != lower_seq(#[trigger] front[l].trigger) by {
        assert(front[j] == incoming[j] && front[l] == incoming[l]);
    }
    law_merge_keeps_identity(rules, front, ds, fi, fs);
    law_merge_appends_new_triggers(rules, front, ds, fi, fs);
    lemma_appended_from(rules, front, fi, fs);
    let prev = merge_all(rules, front, ds, fi, fs);
    let ap = appended(rules, front, fi, fs);
    let r = rules.len() as int;
    let x = incoming[last];
    let key = lower_seq(x.trigger);
    lemma_last_index_of_key(prev, key);
    let idx = last_index_of_key(prev, key);
    assert(incoming.last() == x);
    if k == last {
        assert(lower_seq(prev[i].trigger) == key);
        assert(idx >= 0);
        if idx >= r {
            assert(prev[idx] == ap[idx - r]);
            let j = choose|j: int| 0 <= j < front.len() && (#[trigger] ap[idx - r]).trigger == front[j].trigger;
            assert(front[j] == incoming[j]);
            assert(false);
        }
        if idx != i {
            assert(lower_seq(rules[idx].trigger) == key);
            if idx < i {
                assert(lower_seq(rules[idx].trigger) != lower_seq(rules[i].trigger));
            } else {
                assert(lower_seq(rules[i].trigger) != lower_seq(rules[idx].trigger));
            }
        }
        assert(idx == i);
    } else {
        assert(front[k] == incoming[k]);
        law_overwrite_takes_imported_content(rules, front, ds, fi, fs, i, k);
        assert(lower_seq(incoming[k].trigger) != key);
        assert(lower_seq(prev[i].trigger) == lower_seq(rules[i].trigger));
        if idx >= 0 {
            assert(idx != i);
        }
    }
}

} // verus!
