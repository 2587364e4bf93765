//! Conservation properties of the usage aggregation: every counted bucket
//! is counted once in the daily breakdown, once in the model summaries,
//! and each day is the sum of its models.

use crate::text::lemma_seq_lt_irreflexive;
use crate::types::{DailyView, ModelUsageView, Tally};
use crate::usage::{
    cost_texts_of, daily_view, dates_view, model_used_on, day_entry, day_models, entry_keys, event_in, event_models, event_tally,
    is_daily_breakdown, lemma_entry_keys_distinct, lemma_event_models, model_summary, on_day, period_models,
    strictly_sorted, tally_add, tally_of, tally_zero, UsageEvent,
};
use vstd::prelude::*;

verus! {

/// Counters summed over the events that satisfy `p`.
pub open spec fn tally_where(ev: Seq<UsageEvent>, p: spec_fn(UsageEvent) -> bool) -> Tally
    decreases ev.len(),
{
    if ev.len() == 0 {
        tally_zero()
    } else if p(ev.last()) {
        tally_add(tally_where(ev.drop_last(), p), event_tally(ev.last()))
    } else {
        tally_where(ev.drop_last(), p)
    }
}

/// The events of label `l` among those satisfying `p`.
pub open spec fn labelled(p: spec_fn(UsageEvent) -> bool, f: spec_fn(UsageEvent) -> Seq<char>, l: Seq<char>) -> spec_fn(
    UsageEvent,
) -> bool {
    |e: UsageEvent| p(e) && f(e) == l
}

/// Counters summed label by label.
pub open spec fn sum_by_label(
    ev: Seq<UsageEvent>,
    p: spec_fn(UsageEvent) -> bool,
    f: spec_fn(UsageEvent) -> Seq<char>,
    labels: Seq<Seq<char>>,
) -> Tally
    decreases labels.len(),
{
    if labels.len() == 0 {
        tally_zero()
    } else {
        tally_add(sum_by_label(ev, p, f, labels.drop_last()), tally_where(ev, labelled(p, f, labels.last())))
    }
}

proof fn lemma_sum_by_label_empty(p: spec_fn(UsageEvent) -> bool, f: spec_fn(UsageEvent) -> Seq<char>, labels: Seq<Seq<char>>)
    ensures
        sum_by_label(Seq::empty(), p, f, labels) == tally_zero(),
    decreases labels.len(),
{
    if labels.len() > 0 {
        lemma_sum_by_label_empty(p, f, labels.drop_last());
    }
}

proof fn lemma_sum_by_label_push(
    ev: Seq<UsageEvent>,
    e: UsageEvent,
    p: spec_fn(UsageEvent) -> bool,
    f: spec_fn(UsageEvent) -> Seq<char>,
    labels: Seq<Seq<char>>,
)
    requires
        labels.no_duplicates(),
    ensures
        sum_by_label(ev.push(e), p, f, labels) == tally_add(
            sum_by_label(ev, p, f, labels),
            if p(e) && labels.contains(f(e)) {
                event_tally(e)
            } else {
                tally_zero()
            },
        ),
    decreases labels.len(),
{
    assert(ev.push(e).drop_last() =~= ev);
    assert(ev.push(e).last() == e);
    if labels.len() > 0 {
        let rest = labels.drop_last();
        assert(rest.no_duplicates()) by {
            assert forall|a: int, b: int| 0 <= a < rest.len() && 0 <= b < rest.len() && a != b implies rest[a]
                != rest[b] by {
                assert(rest[a] == labels[a] && rest[b] == labels[b]);
            }
        }
        lemma_sum_by_label_push(ev, e, p, f, rest);
        let l = labels.last();
        if p(e) && f(e) == l {
            assert(!rest.contains(l)) by {
                if rest.contains(l) {
                    let k = choose|k: int| 0 <= k < rest.len() && rest[k] == l;
                    assert(labels[k] == labels[labels.len() - 1]);
                }
            }
            assert(labels.contains(f(e))) by {
                assert(labels[labels.len() - 1] == l);
            }
        } else if p(e) {
            assert(labels.contains(f(e)) == rest.contains(f(e))) by {
                if labels.contains(f(e)) {
                    let k = choose|k: int| 0 <= k < labels.len() && labels[k] == f(e);
                    assert(k < labels.len() - 1);
                    assert(rest[k] == f(e));
                }
                if rest.contains(f(e)) {
                    let k = choose|k: int| 0 <= k < rest.len() && rest[k] == f(e);
                    assert(labels[k] == f(e));
                }
            }
        }
    }
}

/// Summing label by label over labels that cover every event gives the
/// sum over all events.
pub proof fn lemma_partition(
    ev: Seq<UsageEvent>,
    p: spec_fn(UsageEvent) -> bool,
    f: spec_fn(UsageEvent) -> Seq<char>,
    labels: Seq<Seq<char>>,
)
    requires
        labels.no_duplicates(),
        forall|i: int| 0 <= i < ev.len() && p(ev[i]) ==> labels.contains(f(ev[i])),
    ensures
        sum_by_label(ev, p, f, labels) == tally_where(ev, p),
    decreases ev.len(),
{
    if ev.len() == 0 {
        lemma_sum_by_label_empty(p, f, labels);
        assert(ev =~= Seq::<UsageEvent>::empty());
    } else {
        let rest = ev.drop_last();
        let e = ev.last();
        assert(ev == rest.push(e));
        assert forall|i: int| 0 <= i < rest.len() && p(rest[i]) implies labels.contains(f(rest[i])) by {
            assert(rest[i] == ev[i]);
        }
        lemma_partition(rest, p, f, labels);
        lemma_sum_by_label_push(rest, e, p, f, labels);
        if p(e) {
            assert(ev[ev.len() - 1] == e);
            assert(labels.contains(f(e)));
        } else {
            let x = sum_by_label(rest, p, f, labels);
            assert(tally_add(x, tally_zero()) == x);
        }
    }
}

pub proof fn lemma_tally_of_where(ev: Seq<UsageEvent>, date: Option<Seq<char>>, model: Option<Seq<char>>)
    ensures
        tally_of(ev, date, model) == tally_where(ev, |e: UsageEvent| event_in(e, date, model)),
    decreases ev.len(),
{
    if ev.len() > 0 {
        lemma_tally_of_where(ev.drop_last(), date, model);
    }
}

/// Counters of a sequence of days, summed.
pub open spec fn sum_days(days: Seq<DailyView>) -> Tally
    decreases days.len(),
{
    if days.len() == 0 {
        tally_zero()
    } else {
        tally_add(sum_days(days.drop_last()), days.last().tally)
    }
}

/// Counters of a sequence of model entries, summed.
pub open spec fn sum_models(models: Seq<ModelUsageView>) -> Tally
    decreases models.len(),
{
    if models.len() == 0 {
        tally_zero()
    } else {
        tally_add(sum_models(models.drop_last()), models.last().tally)
    }
}

pub open spec fn any_event() -> spec_fn(UsageEvent) -> bool {
    |e: UsageEvent| true
}

pub open spec fn date_of() -> spec_fn(UsageEvent) -> Seq<char> {
    |e: UsageEvent| e.date
}

pub open spec fn model_of() -> spec_fn(UsageEvent) -> Seq<char> {
    |e: UsageEvent| e.model
}

proof fn lemma_sum_days_by_label(days: Seq<DailyView>, ev: Seq<UsageEvent>)
    requires
        forall|i: int| 0 <= i < days.len() ==> #[trigger] days[i] == daily_view(ev, days[i].date),
    ensures
        sum_days(days) == sum_by_label(ev, any_event(), date_of(), dates_view(days)),
    decreases days.len(),
{
    if days.len() > 0 {
        let rest = days.drop_last();
        assert forall|i: int| 0 <= i < rest.len() implies #[trigger] rest[i] == daily_view(ev, rest[i].date) by {
            assert(rest[i] == days[i]);
        }
        lemma_sum_days_by_label(rest, ev);
        assert(dates_view(days).drop_last() =~= dates_view(rest));
        let d = days.last().date;
        assert(days[days.len() - 1] == days.last());
        lemma_tally_of_where(ev, Some(d), None);
        assert((|e: UsageEvent| event_in(e, Some(d), None)) =~= labelled(any_event(), date_of(), d));
    }
}

/// The period counters are the sum of the daily counters: every bucket is
/// counted on exactly one day of the breakdown.
pub proof fn law_period_is_sum_of_days(days: Seq<DailyView>, ev: Seq<UsageEvent>)
    requires
        is_daily_breakdown(days, ev),
    ensures
        sum_days(days) == tally_of(ev, None, None),
{
    let labels = dates_view(days);
    assert(labels.no_duplicates()) by {
        assert forall|a: int, b: int| 0 <= a < labels.len() && 0 <= b < labels.len() && a != b implies labels[a]
            != labels[b] by {
            if a < b {
                assert(crate::text::seq_lt(labels[a], labels[b]));
            } else {
                assert(crate::text::seq_lt(labels[b], labels[a]));
            }
            lemma_seq_lt_irreflexive(labels[a]);
        }
    }
    assert forall|i: int| 0 <= i < ev.len() && any_event()(ev[i]) implies labels.contains(date_of()(ev[i])) by {
        assert(crate::usage::has_event_on(ev, ev[i].date));
    }
    lemma_sum_days_by_label(days, ev);
    lemma_partition(ev, any_event(), date_of(), labels);
    lemma_tally_of_where(ev, None, None);
    assert((|e: UsageEvent| event_in(e, None, None)) =~= any_event());
}


pub open spec fn names_of(models: Seq<ModelUsageView>) -> Seq<Seq<char>> {
    models.map_values(|m: ModelUsageView| m.name)
}

proof fn lemma_sum_models_by_label(
    models: Seq<ModelUsageView>,
    ev: Seq<UsageEvent>,
    p: spec_fn(UsageEvent) -> bool,
    f: spec_fn(UsageEvent) -> Seq<char>,
)
    requires
        forall|i: int| 0 <= i < models.len() ==> #[trigger] models[i].tally == tally_where(ev, labelled(p, f, models[i].name)),
    ensures
        sum_models(models) == sum_by_label(ev, p, f, names_of(models)),
    decreases models.len(),
{
    if models.len() > 0 {
        let rest = models.drop_last();
        assert forall|i: int| 0 <= i < rest.len() implies #[trigger] rest[i].tally == tally_where(
            ev,
            labelled(p, f, rest[i].name),
        ) by {
            assert(rest[i] == models[i]);
        }
        lemma_sum_models_by_label(rest, ev, p, f);
        assert(names_of(models).drop_last() =~= names_of(rest));
        assert(models[models.len() - 1] == models.last());
    }
}

/// The model summaries add up to the period counters: every bucket is
/// counted under exactly one model.
pub proof fn law_period_is_sum_of_models(ev: Seq<UsageEvent>, dates: Seq<Seq<char>>)
    ensures
        sum_models(period_models(ev, dates)) == tally_of(ev, None, None),
{
    let models = period_models(ev, dates);
    let names = event_models(ev);
    lemma_event_models(ev);
    assert forall|i: int| 0 <= i < models.len() implies #[trigger] models[i].tally == tally_where(
        ev,
        labelled(any_event(), model_of(), models[i].name),
    ) by {
        let n = names[i];
        assert(models[i] == model_summary(ev, dates, n));
        lemma_tally_of_where(ev, None, Some(n));
        assert((|e: UsageEvent| event_in(e, None, Some(n))) =~= labelled(any_event(), model_of(), n));
    }
    lemma_sum_models_by_label(models, ev, any_event(), model_of());
    assert(names_of(models) =~= names);
    assert forall|i: int| 0 <= i < ev.len() && any_event()(ev[i]) implies names.contains(model_of()(ev[i])) by {}
    lemma_partition(ev, any_event(), model_of(), names);
    lemma_tally_of_where(ev, None, None);
    assert((|e: UsageEvent| event_in(e, None, None)) =~= any_event());
}

proof fn lemma_filter_no_duplicates(s: Seq<(Seq<char>, Seq<char>)>, p: spec_fn((Seq<char>, Seq<char>)) -> bool)
    requires
        s.no_duplicates(),
    ensures
        s.filter(p).no_duplicates(),
    decreases s.len(),
{
    if s.len() > 0 {
        let rest = s.drop_last();
        assert(rest.no_duplicates()) by {
            assert forall|a: int, b: int| 0 <= a < rest.len() && 0 <= b < rest.len() && a != b implies rest[a]
                != rest[b] by {
                assert(rest[a] == s[a] && rest[b] == s[b]);
            }
        }
        lemma_filter_no_duplicates(rest, p);
        assert(s == rest.push(s.last()));
        rest.lemma_filter_push(s.last(), p);
        if p(s.last()) {
            let f = rest.filter(p);
            assert(!f.contains(s.last())) by {
                if f.contains(s.last()) {
                    rest.lemma_filter_contains_rev(p, s.last());
                    let k = choose|k: int| 0 <= k < rest.len() && rest[k] == s.last();
                    assert(s[k] == s[s.len() - 1]);
                }
            }
            assert(f.push(s.last()).no_duplicates()) by {
                assert forall|a: int, b: int| 0 <= a < f.len() + 1 && 0 <= b < f.len() + 1 && a != b implies f.push(
                    s.last(),
                )[a] != f.push(s.last())[b] by {
                    if a == f.len() {
                        assert(f.contains(f[b]));
                    } else if b == f.len() {
                        assert(f.contains(f[a]));
                    }
                }
            }
        }
    }
}

/// Each day's counters are the sum of its models' counters.
pub proof fn law_day_is_sum_of_models(ev: Seq<UsageEvent>, date: Seq<char>)
    ensures
        sum_models(daily_view(ev, date).models) == daily_view(ev, date).tally,
{
    let keys = entry_keys(ev);
    let day_keys = keys.filter(on_day(date));
    let models = day_models(ev, date);
    let p = |e: UsageEvent| e.date == date;
    lemma_entry_keys_distinct(ev);
    lemma_filter_no_duplicates(keys, on_day(date));
    assert forall|i: int| 0 <= i < models.len() implies #[trigger] models[i].tally == tally_where(
        ev,
        labelled(p, model_of(), models[i].name),
    ) by {
        let k = day_keys[i];
        keys.lemma_filter_pred(on_day(date), i);
        assert(models[i] == day_entry(ev, k));
        lemma_tally_of_where(ev, Some(k.0), Some(k.1));
        assert((|e: UsageEvent| event_in(e, Some(k.0), Some(k.1))) =~= labelled(p, model_of(), k.1));
    }
    lemma_sum_models_by_label(models, ev, p, model_of());
    let names = names_of(models);
    assert(names.no_duplicates()) by {
        assert forall|a: int, b: int| 0 <= a < names.len() && 0 <= b < names.len() && a != b implies names[a]
            != names[b] by {
            keys.lemma_filter_pred(on_day(date), a);
            keys.lemma_filter_pred(on_day(date), b);
            assert(day_keys[a] != day_keys[b]);
            assert(names[a] == day_keys[a].1 && names[b] == day_keys[b].1);
        }
    }
    assert forall|i: int| 0 <= i < ev.len() && p(ev[i]) implies names.contains(model_of()(ev[i])) by {
        let k = (ev[i].date, ev[i].model);
        assert(keys.contains(k));
        let x = choose|x: int| 0 <= x < keys.len() && keys[x] == k;
        keys.lemma_filter_contains(on_day(date), x);
        assert(day_keys.contains(k));
        let y = choose|y: int| 0 <= y < day_keys.len() && day_keys[y] == k;
        assert(names[y] == k.1);
    }
    lemma_partition(ev, p, model_of(), names);
    lemma_tally_of_where(ev, Some(date), None);
    assert((|e: UsageEvent| event_in(e, Some(date), None)) =~= p);
}


// ── Cost texts of the model summaries ───────────────────────────

/// A (day, model) pair with no event has no cost texts.
proof fn lemma_costs_absent(ev: Seq<UsageEvent>, d: Seq<char>, m: Seq<char>)
    requires
        !entry_keys(ev).contains((d, m)),
    ensures
        cost_texts_of(ev, Some(d), Some(m)) == Seq::<Seq<char>>::empty(),
    decreases ev.len(),
{
    if ev.len() > 0 {
        let k = (ev.last().date, ev.last().model);
        assert(!entry_keys(ev.drop_last()).contains((d, m))) by {
            if entry_keys(ev.drop_last()).contains((d, m)) {
                let j = choose|j: int| 0 <= j < entry_keys(ev.drop_last()).len() && entry_keys(ev.drop_last())[j] == (
                d,
                m,
            );
                if entry_keys(ev.drop_last()).contains(k) {
                    assert(entry_keys(ev)[j] == (d, m));
                } else {
                    assert(entry_keys(ev)[j] == (d, m));
                }
            }
        }
        if ev.last().date == d && ev.last().model == m {
            if entry_keys(ev.drop_last()).contains(k) {
            } else {
                assert(entry_keys(ev)[entry_keys(ev).len() - 1] == (d, m));
            }
        }
        lemma_costs_absent(ev.drop_last(), d, m);
    }
}

/// Leaving out elements that map to nothing does not change the flattening.
proof fn lemma_flatten_filter_empty<T, A>(s: Seq<T>, p: spec_fn(T) -> bool, f: spec_fn(T) -> Seq<A>)
    requires
        forall|i: int| 0 <= i < s.len() && !p(#[trigger] s[i]) ==> f(s[i]) == Seq::<A>::empty(),
    ensures
        s.filter(p).map_values(f).flatten() == s.map_values(f).flatten(),
    decreases s.len(),
{
    if s.len() == 0 {
        assert(s.filter(p) =~= Seq::<T>::empty()) by {
            reveal(Seq::filter);
        }
        assert(s.filter(p).map_values(f) =~= Seq::<Seq<A>>::empty());
        assert(s.map_values(f) =~= Seq::<Seq<A>>::empty());
    } else {
        let init = s.drop_last();
        let x = s.last();
        assert(s =~= init.push(x));
        assert forall|i: int| 0 <= i < init.len() && !p(#[trigger] init[i]) implies f(init[i]) == Seq::<A>::empty() by {
            assert(s[i] == init[i]);
        }
        lemma_flatten_filter_empty(init, p, f);
        init.lemma_filter_push(x, p);
        assert(s.map_values(f) =~= init.map_values(f).push(f(x)));
        init.map_values(f).lemma_flatten_push(f(x));
        if p(x) {
            assert(s.filter(p).map_values(f) =~= init.filter(p).map_values(f).push(f(x)));
            init.filter(p).map_values(f).lemma_flatten_push(f(x));
        } else {
            assert(s[s.len() - 1] == x);
            assert(f(x) == Seq::<A>::empty());
            assert(init.map_values(f).flatten() + f(x) =~= init.map_values(f).flatten());
        }
    }
}

/// Appending one item to one group adds that item to the flattened multiset.
proof fn lemma_flatten_grow_group<A>(s: Seq<Seq<A>>, k: int, c: A)
    requires
        0 <= k < s.len(),
    ensures
        s.update(k, s[k].push(c)).flatten().to_multiset() =~= s.flatten().to_multiset().insert(c),
    decreases s.len(),
{
    broadcast use vstd::seq_lib::lemma_multiset_commutative, vstd::seq_lib::to_multiset_build;
    broadcast use vstd::multiset::group_multiset_axioms;

    let t = s.update(k, s[k].push(c));
    let init = s.drop_last();
    assert(s =~= init.push(s.last()));
    init.lemma_flatten_push(s.last());
    if k == s.len() - 1 {
        assert(t =~= init.push(s[k].push(c)));
        init.lemma_flatten_push(s[k].push(c));
        assert(init.flatten() + s[k].push(c) =~= (init.flatten() + s[k]).push(c));
    } else {
        let tinit = init.update(k, init[k].push(c));
        assert(t =~= tinit.push(s.last()));
        tinit.lemma_flatten_push(s.last());
        lemma_flatten_grow_group(init, k, c);
    }
}

/// The per-day cost groups of a model, over dates that list each event's
/// day once, hold the model's cost texts with their repetitions.
proof fn lemma_day_groups_multiset(ev: Seq<UsageEvent>, dates: Seq<Seq<char>>, m: Seq<char>)
    requires
        dates.no_duplicates(),
        forall|j: int| 0 <= j < ev.len() ==> dates.contains(#[trigger] ev[j].date),
    ensures
        dates.map_values(|d: Seq<char>| cost_texts_of(ev, Some(d), Some(m))).flatten().to_multiset()
            =~= cost_texts_of(ev, None, Some(m)).to_multiset(),
    decreases ev.len(),
{
    broadcast use vstd::seq_lib::to_multiset_build;

    let g = dates.map_values(|d: Seq<char>| cost_texts_of(ev, Some(d), Some(m)));
    if ev.len() == 0 {
        reveal_with_fuel(Seq::flatten, 1);
        assert forall|i: int| 0 <= i < g.len() implies g[i] == Seq::<Seq<char>>::empty() by {}
        assert(g.flatten() =~= Seq::<Seq<char>>::empty()) by {
            lemma_flatten_of_empties(g);
        }
        assert(cost_texts_of(ev, None, Some(m)) =~= Seq::<Seq<char>>::empty());
    } else {
        let pre = ev.drop_last();
        let e = ev.last();
        assert forall|j: int| 0 <= j < pre.len() implies dates.contains(#[trigger] pre[j].date) by {
            assert(pre[j] == ev[j]);
        }
        lemma_day_groups_multiset(pre, dates, m);
        let gp = dates.map_values(|d: Seq<char>| cost_texts_of(pre, Some(d), Some(m)));
        if e.model == m && e.cost is Some {
            let c = e.cost->0;
            assert(dates.contains(ev[ev.len() - 1].date));
            let k = choose|k: int| 0 <= k < dates.len() && dates[k] == e.date;
            assert forall|i: int| 0 <= i < dates.len() && i != k implies dates[i] != e.date by {}
            assert(g =~= gp.update(k, gp[k].push(c)));
            lemma_flatten_grow_group(gp, k, c);
        } else {
            assert(g =~= gp);
        }
    }
}

/// The flattening of groups that are all empty is empty.
proof fn lemma_flatten_of_empties<A>(s: Seq<Seq<A>>)
    requires
        forall|i: int| 0 <= i < s.len() ==> #[trigger] s[i] == Seq::<A>::empty(),
    ensures
        s.flatten() =~= Seq::<A>::empty(),
    decreases s.len(),
{
    if s.len() > 0 {
        let init = s.drop_last();
        assert(s =~= init.push(s.last()));
        assert forall|i: int| 0 <= i < init.len() implies #[trigger] init[i] == Seq::<A>::empty() by {
            assert(init[i] == s[i]);
        }
        lemma_flatten_of_empties(init);
        init.lemma_flatten_push(s.last());
        assert(s[s.len() - 1] == Seq::<A>::empty());
    }
}

/// Each model summary holds every cost of its model exactly once: its
/// per-day cost groups, put together, have the same cost texts, with the
/// same repetitions, as all of the model's buckets over the period.  So the
/// model's period cost is the sum of its bucket costs, and of its days.
pub proof fn law_model_costs_are_all_its_costs(ev: Seq<UsageEvent>, dates: Seq<Seq<char>>, i: int)
    requires
        dates.no_duplicates(),
        forall|j: int| 0 <= j < ev.len() ==> dates.contains(#[trigger] ev[j].date),
        0 <= i < period_models(ev, dates).len(),
    ensures
        period_models(ev, dates)[i].cost_parts.flatten().to_multiset() == cost_texts_of(
            ev,
            None,
            Some(period_models(ev, dates)[i].name),
        ).to_multiset(),
{
    let m = event_models(ev)[i];
    let f = |d: Seq<char>| cost_texts_of(ev, Some(d), Some(m));
    assert(period_models(ev, dates)[i] == model_summary(ev, dates, m));
    assert forall|j: int| 0 <= j < dates.len() && !model_used_on(ev, m)(#[trigger] dates[j]) implies f(dates[j])
        == Seq::<Seq<char>>::empty() by {
        lemma_costs_absent(ev, dates[j], m);
    }
    lemma_flatten_filter_empty(dates, model_used_on(ev, m), f);
    lemma_day_groups_multiset(ev, dates, m);
}


/// In a daily breakdown of the events, each model's period summary holds
/// every cost text of that model's buckets exactly once (see
/// `law_model_costs_are_all_its_costs`).
pub proof fn law_breakdown_model_costs(days: Seq<DailyView>, ev: Seq<UsageEvent>, i: int)
    requires
        is_daily_breakdown(days, ev),
        0 <= i < period_models(ev, dates_view(days)).len(),
    ensures
        period_models(ev, dates_view(days))[i].cost_parts.flatten().to_multiset() == cost_texts_of(
            ev,
            None,
            Some(period_models(ev, dates_view(days))[i].name),
        ).to_multiset(),
{
    let labels = dates_view(days);
    assert(labels.no_duplicates()) by {
        assert forall|a: int, b: int| 0 <= a < labels.len() && 0 <= b < labels.len() && a != b implies labels[a]
            != labels[b] by {
            if a < b {
                assert(crate::text::seq_lt(labels[a], labels[b]));
            } else {
                assert(crate::text::seq_lt(labels[b], labels[a]));
            }
            lemma_seq_lt_irreflexive(labels[a]);
        }
    }
    assert forall|j: int| 0 <= j < ev.len() implies labels.contains(#[trigger] ev[j].date) by {
        assert(crate::usage::has_event_on(ev, ev[j].date));
    }
    law_model_costs_are_all_its_costs(ev, labels, i);
}

} // verus!
