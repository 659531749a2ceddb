//! Delta debugging of fault schedules.

use vstd::prelude::*;

use crate::mock::schedule::{
    effect_removed, in_order, packet_before, rule_removed, rule_views, with_rules, FaultSchedule,
    RuleView, ScheduleView,
};

verus! {

/// Whether `still_fails` may answer `answer` for some schedule that looks like `view`.
pub open spec fn answered<F: Fn(&FaultSchedule) -> bool>(still_fails: F, view: ScheduleView, answer: bool) -> bool {
    exists|s: FaultSchedule| s@ == view && #[trigger] call_ensures(still_fails, (&s,), answer)
}

/// Whether each rule is needed: without any one of them the failure was gone.
pub open spec fn every_rule_is_needed<F: Fn(&FaultSchedule) -> bool>(still_fails: F, view: ScheduleView) -> bool {
    forall|i: int|
        0 <= i < view.rules.len() ==> answered(still_fails, #[trigger] rule_removed(view, i), false)
}

/// Whether each effect is needed: without any one of them the failure was gone.
pub open spec fn every_effect_is_needed<F: Fn(&FaultSchedule) -> bool>(
    still_fails: F,
    view: ScheduleView,
) -> bool {
    forall|i: int, j: int|
        0 <= i < view.rules.len() && 0 <= j < view.rules[i].effects.len() ==> answered(
            still_fails,
            #[trigger] effect_removed(view, i, j),
            false,
        )
}

/// Whether `small` is `big` with some items left out.
pub open spec fn is_sublist<T>(small: Seq<T>, big: Seq<T>) -> bool {
    exists|places: Seq<int>| #[trigger] picks(small, big, places)
}

/// Whether `small` holds the items of `big` at `places`, which increase.
pub open spec fn picks<T>(small: Seq<T>, big: Seq<T>, places: Seq<int>) -> bool {
    &&& places.len() == small.len()
    &&& forall|i: int|
        0 <= i < places.len() ==> 0 <= #[trigger] places[i] < big.len() && big[places[i]]
            == small[i]
    &&& forall|i: int, j: int| 0 <= i < j < places.len() ==> places[i] < places[j]
}

/// Whether `small` has the rules of `big`, each with some effects left out.
pub open spec fn has_fewer_effects(small: Seq<RuleView>, big: Seq<RuleView>) -> bool {
    &&& small.len() == big.len()
    &&& forall|i: int|
        0 <= i < small.len() ==> (#[trigger] small[i]).link == big[i].link && small[i].occurrence
            == big[i].occurrence && is_sublist(small[i].effects, big[i].effects)
}

proof fn sublist_of_itself<T>(s: Seq<T>)
    ensures
        is_sublist(s, s),
{
    assert(picks(s, s, Seq::new(s.len(), |i: int| i)));
}

proof fn sublist_without<T>(small: Seq<T>, big: Seq<T>, start: int, end: int)
    requires
        is_sublist(small, big),
        0 <= start <= end <= small.len(),
    ensures
        is_sublist(small.take(start) + small.skip(end), big),
{
    let places = choose|places: Seq<int>| #[trigger] picks(small, big, places);
    let fewer = places.take(start) + places.skip(end);
    assert(picks(small.take(start) + small.skip(end), big, fewer));
}

proof fn sublist_without_one<T>(small: Seq<T>, big: Seq<T>, i: int)
    requires
        is_sublist(small, big),
        0 <= i < small.len(),
    ensures
        is_sublist(small.remove(i), big),
{
    sublist_without(small, big, i, i + 1);
    assert(small.remove(i) =~= small.take(i) + small.skip(i + 1));
}

proof fn sublist_of_sublist<T>(small: Seq<T>, middle: Seq<T>, big: Seq<T>)
    requires
        is_sublist(small, middle),
        is_sublist(middle, big),
    ensures
        is_sublist(small, big),
{
    let inner = choose|places: Seq<int>| #[trigger] picks(small, middle, places);
    let outer = choose|places: Seq<int>| #[trigger] picks(middle, big, places);
    assert(picks(small, big, Seq::new(small.len(), |i: int| outer[inner[i]])));
}

/// A schedule without the rules from `start` to `end`.
pub open spec fn rules_removed(s: ScheduleView, start: int, end: int) -> ScheduleView {
    with_rules(s, s.rules.take(start) + s.rules.skip(end))
}

/// A copy without the rules from `start` to `end`.
fn without_rules(schedule: &FaultSchedule, start: usize, end: usize) -> (candidate: FaultSchedule)
    requires
        start <= end <= schedule@.rules.len(),
    ensures
        candidate@ == rules_removed(schedule@, start as int, end as int),
{
    let ghost all = schedule@;
    let mut candidate = schedule.clone();
    let mut left: usize = end - start;
    assert(all.rules =~= all.rules.take(start as int) + all.rules.skip(start as int));
    while left > 0
        invariant
            start + left <= end,
            start <= end <= all.rules.len(),
            candidate@ == rules_removed(all, start as int, end - left),
        decreases left,
    {
        candidate = candidate.without_rule(start);
        left = left - 1;
        assert(candidate@.rules =~= rules_removed(all, start as int, end - left).rules);
    }
    candidate
}

/// A schedule without its `run`-th run, where the rules are cut into runs of `chunk` rules
/// from the first on. The last run may be shorter.
pub open spec fn run_removed(s: ScheduleView, chunk: int, run: int) -> ScheduleView {
    let end = (run + 1) * chunk;
    rules_removed(
        s,
        run * chunk,
        if end < s.rules.len() {
            end
        } else {
            s.rules.len() as int
        },
    )
}

/// Whether the first `runs` runs of `chunk` rules are needed: without any one of them the
/// failure was gone.
pub open spec fn runs_are_needed<F: Fn(&FaultSchedule) -> bool>(
    still_fails: F,
    view: ScheduleView,
    chunk: int,
    runs: int,
) -> bool {
    forall|run: int|
        0 <= run < runs && run * chunk < view.rules.len() ==> answered(
            still_fails,
            #[trigger] run_removed(view, chunk, run),
            false,
        )
}

/// Whether the `run`-th run of `chunk` rules is there and is the first one that the failure
/// does not need.
pub open spec fn is_first_needless_run<F: Fn(&FaultSchedule) -> bool>(
    still_fails: F,
    view: ScheduleView,
    chunk: int,
    run: int,
) -> bool {
    &&& 0 <= run
    &&& run * chunk < view.rules.len()
    &&& runs_are_needed(still_fails, view, chunk, run)
    &&& answered(still_fails, run_removed(view, chunk, run), true)
}

/// Into how large runs the rules are cut, for so many runs or one less.
pub open spec fn run_size(rules: int, granularity: int) -> int
    recommends
        rules > 0,
        granularity > 0,
{
    (rules - 1) / granularity + 1
}

/// Whether leaving out runs goes on from a schedule and a number of runs to the next: the first
/// needless run is left out and there is one run less, though never less than two, or every run
/// is needed and there are twice as many, though never more than there are rules.
pub open spec fn is_run_step<F: Fn(&FaultSchedule) -> bool>(
    still_fails: F,
    from: (ScheduleView, int),
    to: (ScheduleView, int),
) -> bool {
    let (view, granularity) = from;
    let total = view.rules.len() as int;
    let chunk = run_size(total, granularity);
    &&& total >= 2
    &&& {
        ||| {
            &&& exists|run: int|
                to.0 == run_removed(view, chunk, run) && #[trigger] is_first_needless_run(
                    still_fails,
                    view,
                    chunk,
                    run,
                )
            &&& to.1 == (if granularity > 2 {
                granularity - 1
            } else {
                2
            })
        }
        ||| {
            &&& runs_are_needed(still_fails, view, chunk, total)
            &&& granularity < total
            &&& to.0 == view
            &&& to.1 == (if 2 * granularity < total {
                2 * granularity
            } else {
                total
            })
        }
    }
}

/// Whether leaving out runs ends here: there are no two rules left, or each of them is needed.
pub open spec fn is_run_end<F: Fn(&FaultSchedule) -> bool>(
    still_fails: F,
    at: (ScheduleView, int),
) -> bool {
    let total = at.0.rules.len() as int;
    total < 2 || (at.1 >= total && runs_are_needed(
        still_fails,
        at.0,
        run_size(total, at.1),
        total,
    ))
}

/// Whether `path` goes from cutting `from` into two runs to where leaving out runs ends.
pub open spec fn is_run_path<F: Fn(&FaultSchedule) -> bool>(
    still_fails: F,
    from: ScheduleView,
    path: Seq<(ScheduleView, int)>,
) -> bool {
    &&& path.len() > 0
    &&& path[0] == (from, 2int)
    &&& forall|i: int, j: int|
        #![trigger path[i], path[j]]
        0 <= i && j == i + 1 && j < path.len() ==> is_run_step(still_fails, path[i], path[j])
    &&& is_run_end(still_fails, path.last())
}

/// Whether `to` is left of `from` when runs of rules are left out.
pub open spec fn is_left_of_runs<F: Fn(&FaultSchedule) -> bool>(
    still_fails: F,
    from: ScheduleView,
    to: ScheduleView,
) -> bool {
    exists|path: Seq<(ScheduleView, int)>|
        path.last().0 == to && #[trigger] is_run_path(still_fails, from, path)
}

/// Whether a rule is there and is the first one that the failure does not need.
pub open spec fn is_first_needless_rule<F: Fn(&FaultSchedule) -> bool>(
    still_fails: F,
    view: ScheduleView,
    i: int,
) -> bool {
    &&& 0 <= i < view.rules.len()
    &&& forall|k: int| 0 <= k < i ==> answered(still_fails, #[trigger] rule_removed(view, k), false)
    &&& answered(still_fails, rule_removed(view, i), true)
}

/// Whether `path` goes from `from` to where each rule is needed, and leaves out the first
/// needless rule each time.
pub open spec fn is_rule_path<F: Fn(&FaultSchedule) -> bool>(
    still_fails: F,
    from: ScheduleView,
    path: Seq<ScheduleView>,
) -> bool {
    &&& path.len() > 0
    &&& path[0] == from
    &&& forall|i: int, j: int|
        #![trigger path[i], path[j]]
        0 <= i && j == i + 1 && j < path.len() ==> is_rule_step(still_fails, path[i], path[j])
    &&& every_rule_is_needed(still_fails, path.last())
}

/// Whether `to` is `from` without its first needless rule.
pub open spec fn is_rule_step<F: Fn(&FaultSchedule) -> bool>(
    still_fails: F,
    from: ScheduleView,
    to: ScheduleView,
) -> bool {
    exists|i: int|
        to == rule_removed(from, i) && #[trigger] is_first_needless_rule(still_fails, from, i)
}

/// Whether `to` is left of `from` when rules are left out one by one.
pub open spec fn is_left_of_rules<F: Fn(&FaultSchedule) -> bool>(
    still_fails: F,
    from: ScheduleView,
    to: ScheduleView,
) -> bool {
    exists|path: Seq<ScheduleView>|
        path.last() == to && #[trigger] is_rule_path(still_fails, from, path)
}

/// Whether an effect is there and is the first one that the failure does not need.
pub open spec fn is_first_needless_effect<F: Fn(&FaultSchedule) -> bool>(
    still_fails: F,
    view: ScheduleView,
    i: int,
    j: int,
) -> bool {
    &&& 0 <= i < view.rules.len()
    &&& 0 <= j < view.rules[i].effects.len()
    &&& forall|k: int, l: int|
        0 <= k && 0 <= l && ((k < i && l < view.rules[k].effects.len()) || (k == i && l < j))
            ==> answered(still_fails, #[trigger] effect_removed(view, k, l), false)
    &&& answered(still_fails, effect_removed(view, i, j), true)
}

/// Whether `to` is `from` without its first needless effect.
pub open spec fn is_effect_step<F: Fn(&FaultSchedule) -> bool>(
    still_fails: F,
    from: ScheduleView,
    to: ScheduleView,
) -> bool {
    exists|i: int, j: int|
        to == effect_removed(from, i, j) && #[trigger] is_first_needless_effect(
            still_fails,
            from,
            i,
            j,
        )
}

/// Whether `path` goes from `from` to where each effect is needed, and leaves out the first
/// needless effect each time.
pub open spec fn is_effect_path<F: Fn(&FaultSchedule) -> bool>(
    still_fails: F,
    from: ScheduleView,
    path: Seq<ScheduleView>,
) -> bool {
    &&& path.len() > 0
    &&& path[0] == from
    &&& forall|i: int, j: int|
        #![trigger path[i], path[j]]
        0 <= i && j == i + 1 && j < path.len() ==> is_effect_step(still_fails, path[i], path[j])
    &&& every_effect_is_needed(still_fails, path.last())
}

/// Whether `to` is left of `from` when effects are left out one by one.
pub open spec fn is_left_of_effects<F: Fn(&FaultSchedule) -> bool>(
    still_fails: F,
    from: ScheduleView,
    to: ScheduleView,
) -> bool {
    exists|path: Seq<ScheduleView>|
        path.last() == to && #[trigger] is_effect_path(still_fails, from, path)
}

/// Whether `result` is left of `all` when runs of rules, then rules and then effects are left
/// out.
pub open spec fn is_minimized<F: Fn(&FaultSchedule) -> bool>(
    still_fails: F,
    all: ScheduleView,
    result: ScheduleView,
) -> bool {
    exists|shorter: ScheduleView, shortest: ScheduleView|
        {
            &&& #[trigger] is_left_of_runs(still_fails, all, shorter)
            &&& is_left_of_rules(still_fails, shorter, shortest)
            &&& #[trigger] is_left_of_effects(still_fails, shortest, result)
        }
}

/// Where runs of one rule are all needed, each rule is.
proof fn runs_of_one_are_rules<F: Fn(&FaultSchedule) -> bool>(still_fails: F, view: ScheduleView)
    requires
        runs_are_needed(still_fails, view, 1, view.rules.len() as int),
    ensures
        every_rule_is_needed(still_fails, view),
{
    assert forall|i: int| 0 <= i < view.rules.len() implies answered(
        still_fails,
        #[trigger] rule_removed(view, i),
        false,
    ) by {
        assert(answered(still_fails, run_removed(view, 1, i), false));
        assert(run_removed(view, 1, i).rules =~= rule_removed(view, i).rules);
    }
}

/// The schedule without the first run of `chunk` rules that the failure does not need,
/// where the rules are cut into such runs from the first on. There is none where each run
/// is needed.
fn without_some_run<F: Fn(&FaultSchedule) -> bool>(
    schedule: &FaultSchedule,
    chunk: usize,
    still_fails: &F,
) -> (r: Option<FaultSchedule>)
    requires
        chunk > 0,
        forall|s: FaultSchedule| #[trigger] call_requires(*still_fails, (&s,)),
    ensures
        match r {
            Some(smaller) => exists|run: int|
                smaller@ == run_removed(schedule@, chunk as int, run)
                    && #[trigger] is_first_needless_run(*still_fails, schedule@, chunk as int, run),
            None => runs_are_needed(
                *still_fails,
                schedule@,
                chunk as int,
                schedule@.rules.len() as int,
            ),
        },
{
    let total: usize = schedule.rules().len();
    let mut start: usize = 0;
    let ghost mut run: int = 0;
    while start < total
        invariant
            chunk > 0,
            total == schedule@.rules.len(),
            start <= total,
            0 <= run,
            start == run * chunk || (start == total && total <= run * chunk),
            runs_are_needed(*still_fails, schedule@, chunk as int, run),
            forall|s: FaultSchedule| #[trigger] call_requires(*still_fails, (&s,)),
        decreases total - start,
    {
        assert((run + 1) * chunk == run * chunk + chunk) by (nonlinear_arith);
        let end: usize = if chunk < total - start {
            start + chunk
        } else {
            total
        };
        let candidate = without_rules(schedule, start, end);
        assert(candidate@ == run_removed(schedule@, chunk as int, run));
        if still_fails(&candidate) {
            assert(is_first_needless_run(*still_fails, schedule@, chunk as int, run));
            return Some(candidate);
        }
        assert(answered(*still_fails, candidate@, false));
        proof {
            run = run + 1;
        }
        start = end;
    }
    proof {
        assert forall|other: int|
            0 <= other < schedule@.rules.len() && other * chunk < schedule@.rules.len() implies answered(
            *still_fails,
            #[trigger] run_removed(schedule@, chunk as int, other),
            false,
        ) by {
            assert(other < run) by (nonlinear_arith)
                requires
                    other * chunk < total,
                    total <= run * chunk,
                    chunk > 0,
            ;
        }
    }
    None
}

/// The schedule without the first rule that the failure does not need.
fn without_some_rule<F: Fn(&FaultSchedule) -> bool>(schedule: &FaultSchedule, still_fails: &F) -> (r: Option<
    FaultSchedule,
>)
    requires
        forall|s: FaultSchedule| #[trigger] call_requires(*still_fails, (&s,)),
    ensures
        match r {
            Some(smaller) => exists|i: int|
                smaller@ == rule_removed(schedule@, i) && #[trigger] is_first_needless_rule(
                    *still_fails,
                    schedule@,
                    i,
                ),
            None => every_rule_is_needed(*still_fails, schedule@),
        },
{
    let total: usize = schedule.rules().len();
    let mut index: usize = 0;
    while index < total
        invariant
            total == schedule@.rules.len(),
            index <= total,
            forall|s: FaultSchedule| #[trigger] call_requires(*still_fails, (&s,)),
            forall|i: int|
                0 <= i < index ==> answered(
                    *still_fails,
                    #[trigger] rule_removed(schedule@, i),
                    false,
                ),
        decreases total - index,
    {
        let candidate = schedule.without_rule(index);
        if still_fails(&candidate) {
            assert(is_first_needless_rule(*still_fails, schedule@, index as int));
            return Some(candidate);
        }
        assert(answered(*still_fails, candidate@, false));
        index = index + 1;
    }
    None
}

/// The schedule without the first effect that the failure does not need.
fn without_some_effect<F: Fn(&FaultSchedule) -> bool>(schedule: &FaultSchedule, still_fails: &F) -> (r: Option<
    FaultSchedule,
>)
    requires
        forall|s: FaultSchedule| #[trigger] call_requires(*still_fails, (&s,)),
    ensures
        match r {
            Some(smaller) => exists|i: int, j: int|
                smaller@ == effect_removed(schedule@, i, j) && #[trigger] is_first_needless_effect(
                    *still_fails,
                    schedule@,
                    i,
                    j,
                ),
            None => every_effect_is_needed(*still_fails, schedule@),
        },
{
    let rules = schedule.rules();
    let total: usize = rules.len();
    let mut rule: usize = 0;
    while rule < total
        invariant
            total == schedule@.rules.len(),
            rules@.len() == total,
            rule_views(rules@) == schedule@.rules,
            rule <= total,
            forall|s: FaultSchedule| #[trigger] call_requires(*still_fails, (&s,)),
            forall|i: int, j: int|
                0 <= i < rule && 0 <= j < schedule@.rules[i].effects.len() ==> answered(
                    *still_fails,
                    #[trigger] effect_removed(schedule@, i, j),
                    false,
                ),
        decreases total - rule,
    {
        assert(rule_views(rules@)[rule as int] == rules@[rule as int]@);
        let effects: usize = rules[rule].effects.len();
        let mut effect: usize = 0;
        while effect < effects
            invariant
                total == schedule@.rules.len(),
                rule < total,
                effects == schedule@.rules[rule as int].effects.len(),
                effect <= effects,
                forall|s: FaultSchedule| #[trigger] call_requires(*still_fails, (&s,)),
                forall|i: int, j: int|
                    0 <= i < rule && 0 <= j < schedule@.rules[i].effects.len() ==> answered(
                        *still_fails,
                        #[trigger] effect_removed(schedule@, i, j),
                        false,
                    ),
                forall|j: int|
                    0 <= j < effect ==> answered(
                        *still_fails,
                        #[trigger] effect_removed(schedule@, rule as int, j),
                        false,
                    ),
            decreases effects - effect,
        {
            let candidate = schedule.without_effect(rule, effect);
            if still_fails(&candidate) {
                assert(is_first_needless_effect(
                    *still_fails,
                    schedule@,
                    rule as int,
                    effect as int,
                ));
                return Some(candidate);
            }
            assert(answered(*still_fails, candidate@, false));
            effect = effect + 1;
        }
        rule = rule + 1;
    }
    None
}

/// Leaves out runs of rules, in ever smaller runs, as long as the failure stays: in the end
/// each rule is needed, or at most one is left.
fn drop_runs<F: Fn(&FaultSchedule) -> bool>(schedule: &FaultSchedule, still_fails: &F) -> (r: FaultSchedule)
    requires
        forall|s: FaultSchedule| #[trigger] call_requires(*still_fails, (&s,)),
        answered(*still_fails, schedule@, true),
    ensures
        answered(*still_fails, r@, true),
        is_left_of_runs(*still_fails, schedule@, r@),
        r@.rules.len() >= 2 ==> every_rule_is_needed(*still_fails, r@),
        is_sublist(r@.rules, schedule@.rules),
        r@ == with_rules(schedule@, r@.rules),
{
    let mut current = schedule.clone();
    let mut granularity: usize = 2;
    let mut done = false;
    let ghost mut path: Seq<(ScheduleView, int)> = seq![(schedule@, 2int)];
    proof {
        sublist_of_itself(schedule@.rules);
    }
    while !done && current.rules().len() >= 2
        invariant
            granularity >= 2,
            forall|s: FaultSchedule| #[trigger] call_requires(*still_fails, (&s,)),
            answered(*still_fails, current@, true),
            path.len() > 0,
            path[0] == (schedule@, 2int),
            path.last() == (current@, granularity as int),
            forall|i: int, j: int|
                #![trigger path[i], path[j]]
                0 <= i && j == i + 1 && j < path.len() ==> is_run_step(
                    *still_fails,
                    path[i],
                    path[j],
                ),
            done ==> is_run_end(*still_fails, path.last()),
            done ==> every_rule_is_needed(*still_fails, current@),
            is_sublist(current@.rules, schedule@.rules),
            current@ == with_rules(schedule@, current@.rules),
        decreases
                if done {
                    0int
                } else {
                    1
                },
                current@.rules.len(),
                if current@.rules.len() > granularity {
                    current@.rules.len() - granularity
                } else {
                    0
                },
    {
        let total: usize = current.rules().len();
        let chunk: usize = (total - 1) / granularity + 1;
        let ghost at = path.last();
        assert(chunk == run_size(total as int, granularity as int));
        match without_some_run(&current, chunk, still_fails) {
            Some(smaller) => {
                proof {
                    let run = choose|run: int|
                        smaller@ == run_removed(current@, chunk as int, run)
                            && #[trigger] is_first_needless_run(
                            *still_fails,
                            current@,
                            chunk as int,
                            run,
                        );
                    let start = run * chunk;
                    let end = if start + chunk < total {
                        start + chunk
                    } else {
                        total as int
                    };
                    assert((run + 1) * chunk == start + chunk) by (nonlinear_arith)
                        requires
                            start == run * chunk,
                    ;
                    assert(0 <= start) by (nonlinear_arith)
                        requires
                            start == run * chunk,
                            0 <= run,
                            0 < chunk,
                    ;
                    sublist_without(current@.rules, schedule@.rules, start, end);
                }
                current = smaller;
                granularity = if granularity > 2 {
                    granularity - 1
                } else {
                    2
                };
                proof {
                    assert(is_run_step(*still_fails, at, (current@, granularity as int)));
                    path = path.push((current@, granularity as int));
                }
            },
            None => {
                if granularity >= total {
                    proof {
                        assert((total - 1) / granularity as int == 0) by (nonlinear_arith)
                            requires
                                1 <= total <= granularity,
                        ;
                        runs_of_one_are_rules(*still_fails, current@);
                    }
                    done = true;
                } else {
                    granularity = if granularity <= total / 2 {
                        granularity * 2
                    } else {
                        total
                    };
                    proof {
                        assert(is_run_step(*still_fails, at, (current@, granularity as int)));
                        path = path.push((current@, granularity as int));
                    }
                }
            },
        }
    }
    assert(is_run_path(*still_fails, schedule@, path));
    current
}

/// Leaves out rules one by one until each is needed.
fn drop_rules<F: Fn(&FaultSchedule) -> bool>(schedule: &FaultSchedule, still_fails: &F) -> (r: FaultSchedule)
    requires
        forall|s: FaultSchedule| #[trigger] call_requires(*still_fails, (&s,)),
        answered(*still_fails, schedule@, true),
    ensures
        answered(*still_fails, r@, true),
        is_left_of_rules(*still_fails, schedule@, r@),
        every_rule_is_needed(*still_fails, r@),
        is_sublist(r@.rules, schedule@.rules),
        r@ == with_rules(schedule@, r@.rules),
{
    let mut current = schedule.clone();
    let ghost mut path: Seq<ScheduleView> = seq![schedule@];
    proof {
        sublist_of_itself(schedule@.rules);
    }
    loop
        invariant
            forall|s: FaultSchedule| #[trigger] call_requires(*still_fails, (&s,)),
            answered(*still_fails, current@, true),
            path.len() > 0,
            path[0] == schedule@,
            path.last() == current@,
            forall|i: int, j: int|
                #![trigger path[i], path[j]]
                0 <= i && j == i + 1 && j < path.len() ==> is_rule_step(
                    *still_fails,
                    path[i],
                    path[j],
                ),
            is_sublist(current@.rules, schedule@.rules),
            current@ == with_rules(schedule@, current@.rules),
        ensures
            every_rule_is_needed(*still_fails, current@),
        decreases current@.rules.len(),
    {
        match without_some_rule(&current, still_fails) {
            Some(smaller) => {
                proof {
                    let i = choose|i: int|
                        smaller@ == rule_removed(current@, i)
                            && #[trigger] is_first_needless_rule(*still_fails, current@, i);
                    sublist_without_one(current@.rules, schedule@.rules, i);
                    assert(is_rule_step(*still_fails, current@, smaller@));
                    path = path.push(smaller@);
                }
                current = smaller;
            },
            None => {
                break ;
            },
        }
    }
    assert(is_rule_path(*still_fails, schedule@, path));
    current
}

/// The number of effects of all rules together.
spec fn effect_count(rules: Seq<RuleView>) -> nat
    decreases rules.len(),
{
    if rules.len() == 0 {
        0
    } else {
        effect_count(rules.drop_last()) + rules.last().effects.len()
    }
}

proof fn effect_count_shrinks(rules: Seq<RuleView>, i: int, one: RuleView)
    requires
        0 <= i < rules.len(),
        one.effects.len() < rules[i].effects.len(),
    ensures
        effect_count(rules.update(i, one)) < effect_count(rules),
    decreases rules.len(),
{
    let after = rules.update(i, one);
    if i == rules.len() - 1 {
        assert(after.drop_last() =~= rules.drop_last());
    } else {
        assert(after.drop_last() =~= rules.drop_last().update(i, one));
        effect_count_shrinks(rules.drop_last(), i, one);
    }
}

proof fn fewer_effects_of_itself(rules: Seq<RuleView>)
    ensures
        has_fewer_effects(rules, rules),
{
    assert forall|i: int| 0 <= i < rules.len() implies is_sublist(
        (#[trigger] rules[i]).effects,
        rules[i].effects,
    ) by {
        sublist_of_itself(rules[i].effects);
    }
}

/// Leaves out effects one by one until each is needed.
fn drop_effects<F: Fn(&FaultSchedule) -> bool>(schedule: &FaultSchedule, still_fails: &F) -> (r: FaultSchedule)
    requires
        forall|s: FaultSchedule| #[trigger] call_requires(*still_fails, (&s,)),
        answered(*still_fails, schedule@, true),
    ensures
        answered(*still_fails, r@, true),
        is_left_of_effects(*still_fails, schedule@, r@),
        every_effect_is_needed(*still_fails, r@),
        has_fewer_effects(r@.rules, schedule@.rules),
        r@ == with_rules(schedule@, r@.rules),
{
    let mut current = schedule.clone();
    let ghost mut path: Seq<ScheduleView> = seq![schedule@];
    proof {
        fewer_effects_of_itself(schedule@.rules);
    }
    loop
        invariant
            forall|s: FaultSchedule| #[trigger] call_requires(*still_fails, (&s,)),
            answered(*still_fails, current@, true),
            path.len() > 0,
            path[0] == schedule@,
            path.last() == current@,
            forall|i: int, j: int|
                #![trigger path[i], path[j]]
                0 <= i && j == i + 1 && j < path.len() ==> is_effect_step(
                    *still_fails,
                    path[i],
                    path[j],
                ),
            has_fewer_effects(current@.rules, schedule@.rules),
            current@ == with_rules(schedule@, current@.rules),
        ensures
            every_effect_is_needed(*still_fails, current@),
        decreases effect_count(current@.rules),
    {
        match without_some_effect(&current, still_fails) {
            Some(smaller) => {
                proof {
                    let before = current@.rules;
                    let (i, j) = choose|i: int, j: int|
                        smaller@ == effect_removed(current@, i, j)
                            && #[trigger] is_first_needless_effect(*still_fails, current@, i, j);
                    let one = RuleView { effects: before[i].effects.remove(j), ..before[i] };
                    effect_count_shrinks(before, i, one);
                    sublist_without_one(before[i].effects, schedule@.rules[i].effects, j);
                    assert(is_effect_step(*still_fails, current@, smaller@));
                    path = path.push(smaller@);
                }
                current = smaller;
            },
            None => {
                break ;
            },
        }
    }
    assert(is_effect_path(*still_fails, schedule@, path));
    current
}

/// Whether `result` comes from `all` by leaving out rules until each is needed and
/// then effects until each is needed.
pub open spec fn is_minimal<F: Fn(&FaultSchedule) -> bool>(
    still_fails: F,
    all: ScheduleView,
    result: ScheduleView,
) -> bool {
    exists|middle: Seq<RuleView>|
        {
            &&& is_sublist(middle, all.rules)
            &&& every_rule_is_needed(still_fails, with_rules(all, middle))
            &&& #[trigger] has_fewer_effects(result.rules, middle)
        }
}

/// What is left when rules and then effects are left out stands in order where the whole
/// did.
pub proof fn minimal_stays_in_order(all: Seq<RuleView>, middle: Seq<RuleView>, result: Seq<RuleView>)
    requires
        in_order(all),
        is_sublist(middle, all),
        has_fewer_effects(result, middle),
    ensures
        in_order(result),
{
    let places = choose|places: Seq<int>| #[trigger] picks(middle, all, places);
    assert forall|i: int, j: int| 0 <= i < j < result.len() implies packet_before(
        (#[trigger] result[i]).link,
        result[i].occurrence,
        (#[trigger] result[j]).link,
        result[j].occurrence,
    ) by {
        assert(all[places[i]] == middle[i]);
        assert(all[places[j]] == middle[j]);
    }
}

/// A smaller schedule on which a failure still shows: delta debugging.
///
/// `still_fails` sees a complete schedule each time and runs it from a fresh state. A
/// schedule on which it does not answer `true` comes back as it is.
pub fn minimize_schedule<F: Fn(&FaultSchedule) -> bool>(schedule: &FaultSchedule, still_fails: F) -> (r: FaultSchedule)
    requires
        forall|s: FaultSchedule| #[trigger] call_requires(still_fails, (&s,)),
    ensures
        r@ == with_rules(schedule@, r@.rules),
        (answered(still_fails, schedule@, false) && r@ == schedule@) || {
            &&& answered(still_fails, schedule@, true)
            &&& answered(still_fails, r@, true)
            &&& is_minimized(still_fails, schedule@, r@)
            &&& every_effect_is_needed(still_fails, r@)
            &&& is_minimal(still_fails, schedule@, r@)
        },
        schedule.wf() ==> r.wf(),
{
    if !still_fails(schedule) {
        assert(answered(still_fails, schedule@, false));
        return schedule.clone();
    }
    assert(answered(still_fails, schedule@, true));
    let shorter = drop_runs(schedule, &still_fails);
    let shortest = drop_rules(&shorter, &still_fails);
    let smallest = drop_effects(&shortest, &still_fails);
    proof {
        sublist_of_sublist(shortest@.rules, shorter@.rules, schedule@.rules);
        assert(shortest@ == with_rules(schedule@, shortest@.rules));
        assert(is_left_of_runs(still_fails, schedule@, shorter@));
        assert(is_left_of_effects(still_fails, shortest@, smallest@));
        assert(has_fewer_effects(smallest@.rules, shortest@.rules));
        if schedule.wf() {
            minimal_stays_in_order(schedule@.rules, shortest@.rules, smallest@.rules);
        }
    }
    smallest
}

/// Whether `still_fails` answers the same each time it sees schedules that look the same.
pub open spec fn is_repeatable<F: Fn(&FaultSchedule) -> bool>(still_fails: F) -> bool {
    forall|view: ScheduleView|
        !(#[trigger] answered(still_fails, view, true) && answered(still_fails, view, false))
}

proof fn needless_run_is_not_needed<F: Fn(&FaultSchedule) -> bool>(
    still_fails: F,
    view: ScheduleView,
    chunk: int,
    run: int,
)
    requires
        is_repeatable(still_fails),
        chunk >= 1,
        is_first_needless_run(still_fails, view, chunk, run),
    ensures
        !runs_are_needed(still_fails, view, chunk, view.rules.len() as int),
{
    assert(run <= run * chunk) by (nonlinear_arith)
        requires
            0 <= run,
            1 <= chunk,
    ;
    if runs_are_needed(still_fails, view, chunk, view.rules.len() as int) {
        assert(answered(still_fails, run_removed(view, chunk, run), false));
    }
}

proof fn first_needless_run_is_unique<F: Fn(&FaultSchedule) -> bool>(
    still_fails: F,
    view: ScheduleView,
    chunk: int,
    a: int,
    b: int,
)
    requires
        is_repeatable(still_fails),
        is_first_needless_run(still_fails, view, chunk, a),
        is_first_needless_run(still_fails, view, chunk, b),
    ensures
        a == b,
{
    assert(answered(still_fails, run_removed(view, chunk, a), true));
    assert(answered(still_fails, run_removed(view, chunk, b), true));
}

proof fn run_step_is_determined<F: Fn(&FaultSchedule) -> bool>(
    still_fails: F,
    from: (ScheduleView, int),
    a: (ScheduleView, int),
)
    requires
        is_repeatable(still_fails),
        from.1 >= 2,
        is_run_step(still_fails, from, a),
    ensures
        a.1 >= 2,
        !is_run_end(still_fails, from),
        forall|b: (ScheduleView, int)| #[trigger] is_run_step(still_fails, from, b) ==> a == b,
{
    let (view, granularity) = from;
    let total = view.rules.len() as int;
    let chunk = run_size(total, granularity);
    assert(chunk >= 1) by {
        vstd::arithmetic::div_mod::lemma_div_pos_is_pos(total - 1, granularity);
    }
    assert forall|run: int| #[trigger] is_first_needless_run(still_fails, view, chunk, run) implies
        !runs_are_needed(still_fails, view, chunk, total) by {
        needless_run_is_not_needed(still_fails, view, chunk, run);
    }
    assert forall|b: (ScheduleView, int)| #[trigger] is_run_step(still_fails, from, b) implies a == b by {
        if !runs_are_needed(still_fails, view, chunk, total) {
            let x = choose|run: int|
                a.0 == run_removed(view, chunk, run) && #[trigger] is_first_needless_run(
                    still_fails,
                    view,
                    chunk,
                    run,
                );
            let y = choose|run: int|
                b.0 == run_removed(view, chunk, run) && #[trigger] is_first_needless_run(
                    still_fails,
                    view,
                    chunk,
                    run,
                );
            first_needless_run_is_unique(still_fails, view, chunk, x, y);
        }
    }
}

proof fn run_paths_agree<F: Fn(&FaultSchedule) -> bool>(
    still_fails: F,
    from: ScheduleView,
    p: Seq<(ScheduleView, int)>,
    q: Seq<(ScheduleView, int)>,
    i: int,
)
    requires
        is_repeatable(still_fails),
        is_run_path(still_fails, from, p),
        is_run_path(still_fails, from, q),
        0 <= i < p.len(),
        i < q.len(),
    ensures
        p[i] == q[i],
        p[i].1 >= 2,
        i + 1 == p.len() <==> i + 1 == q.len(),
    decreases i,
{
    if i > 0 {
        run_paths_agree(still_fails, from, p, q, i - 1);
        assert(is_run_step(still_fails, p[i - 1], p[i]));
        assert(is_run_step(still_fails, q[i - 1], q[i]));
        run_step_is_determined(still_fails, p[i - 1], p[i]);
    }
    if i + 1 < p.len() {
        assert(is_run_step(still_fails, p[i], p[i + 1]));
        run_step_is_determined(still_fails, p[i], p[i + 1]);
    }
    if i + 1 < q.len() {
        assert(is_run_step(still_fails, q[i], q[i + 1]));
        run_step_is_determined(still_fails, q[i], q[i + 1]);
    }
}

proof fn run_paths_end_alike<F: Fn(&FaultSchedule) -> bool>(
    still_fails: F,
    from: ScheduleView,
    p: Seq<(ScheduleView, int)>,
    q: Seq<(ScheduleView, int)>,
)
    requires
        is_repeatable(still_fails),
        is_run_path(still_fails, from, p),
        is_run_path(still_fails, from, q),
    ensures
        p.last() == q.last(),
{
    let last = if p.len() <= q.len() {
        p.len() - 1
    } else {
        q.len() - 1
    };
    run_paths_agree(still_fails, from, p, q, last);
}

proof fn rule_step_is_determined<F: Fn(&FaultSchedule) -> bool>(
    still_fails: F,
    from: ScheduleView,
    a: ScheduleView,
)
    requires
        is_repeatable(still_fails),
        is_rule_step(still_fails, from, a),
    ensures
        !every_rule_is_needed(still_fails, from),
        forall|b: ScheduleView| #[trigger] is_rule_step(still_fails, from, b) ==> a == b,
{
    let x = choose|i: int|
        a == rule_removed(from, i) && #[trigger] is_first_needless_rule(still_fails, from, i);
    assert(answered(still_fails, rule_removed(from, x), true));
    assert forall|b: ScheduleView| #[trigger] is_rule_step(still_fails, from, b) implies a == b by {
        let y = choose|i: int|
            b == rule_removed(from, i) && #[trigger] is_first_needless_rule(still_fails, from, i);
        assert(answered(still_fails, rule_removed(from, y), true));
        assert(x == y);
    }
}

proof fn rule_paths_agree<F: Fn(&FaultSchedule) -> bool>(
    still_fails: F,
    from: ScheduleView,
    p: Seq<ScheduleView>,
    q: Seq<ScheduleView>,
    i: int,
)
    requires
        is_repeatable(still_fails),
        is_rule_path(still_fails, from, p),
        is_rule_path(still_fails, from, q),
        0 <= i < p.len(),
        i < q.len(),
    ensures
        p[i] == q[i],
        i + 1 == p.len() <==> i + 1 == q.len(),
    decreases i,
{
    if i > 0 {
        rule_paths_agree(still_fails, from, p, q, i - 1);
        assert(is_rule_step(still_fails, p[i - 1], p[i]));
        assert(is_rule_step(still_fails, q[i - 1], q[i]));
        rule_step_is_determined(still_fails, p[i - 1], p[i]);
    }
    if i + 1 < p.len() {
        assert(is_rule_step(still_fails, p[i], p[i + 1]));
        rule_step_is_determined(still_fails, p[i], p[i + 1]);
    }
    if i + 1 < q.len() {
        assert(is_rule_step(still_fails, q[i], q[i + 1]));
        rule_step_is_determined(still_fails, q[i], q[i + 1]);
    }
}

proof fn rule_paths_end_alike<F: Fn(&FaultSchedule) -> bool>(
    still_fails: F,
    from: ScheduleView,
    p: Seq<ScheduleView>,
    q: Seq<ScheduleView>,
)
    requires
        is_repeatable(still_fails),
        is_rule_path(still_fails, from, p),
        is_rule_path(still_fails, from, q),
    ensures
        p.last() == q.last(),
{
    let last = if p.len() <= q.len() {
        p.len() - 1
    } else {
        q.len() - 1
    };
    rule_paths_agree(still_fails, from, p, q, last);
}

proof fn effect_step_is_determined<F: Fn(&FaultSchedule) -> bool>(
    still_fails: F,
    from: ScheduleView,
    a: ScheduleView,
)
    requires
        is_repeatable(still_fails),
        is_effect_step(still_fails, from, a),
    ensures
        !every_effect_is_needed(still_fails, from),
        forall|b: ScheduleView| #[trigger] is_effect_step(still_fails, from, b) ==> a == b,
{
    let (i, j) = choose|i: int, j: int|
        a == effect_removed(from, i, j) && #[trigger] is_first_needless_effect(
            still_fails,
            from,
            i,
            j,
        );
    assert(answered(still_fails, effect_removed(from, i, j), true));
    assert forall|b: ScheduleView| #[trigger] is_effect_step(still_fails, from, b) implies a == b by {
        let (k, l) = choose|k: int, l: int|
            b == effect_removed(from, k, l) && #[trigger] is_first_needless_effect(
                still_fails,
                from,
                k,
                l,
            );
        assert(answered(still_fails, effect_removed(from, k, l), true));
        assert(i == k && j == l);
    }
}

proof fn effect_paths_agree<F: Fn(&FaultSchedule) -> bool>(
    still_fails: F,
    from: ScheduleView,
    p: Seq<ScheduleView>,
    q: Seq<ScheduleView>,
    i: int,
)
    requires
        is_repeatable(still_fails),
        is_effect_path(still_fails, from, p),
        is_effect_path(still_fails, from, q),
        0 <= i < p.len(),
        i < q.len(),
    ensures
        p[i] == q[i],
        i + 1 == p.len() <==> i + 1 == q.len(),
    decreases i,
{
    if i > 0 {
        effect_paths_agree(still_fails, from, p, q, i - 1);
        assert(is_effect_step(still_fails, p[i - 1], p[i]));
        assert(is_effect_step(still_fails, q[i - 1], q[i]));
        effect_step_is_determined(still_fails, p[i - 1], p[i]);
    }
    if i + 1 < p.len() {
        assert(is_effect_step(still_fails, p[i], p[i + 1]));
        effect_step_is_determined(still_fails, p[i], p[i + 1]);
    }
    if i + 1 < q.len() {
        assert(is_effect_step(still_fails, q[i], q[i + 1]));
        effect_step_is_determined(still_fails, q[i], q[i + 1]);
    }
}

proof fn effect_paths_end_alike<F: Fn(&FaultSchedule) -> bool>(
    still_fails: F,
    from: ScheduleView,
    p: Seq<ScheduleView>,
    q: Seq<ScheduleView>,
)
    requires
        is_repeatable(still_fails),
        is_effect_path(still_fails, from, p),
        is_effect_path(still_fails, from, q),
    ensures
        p.last() == q.last(),
{
    let last = if p.len() <= q.len() {
        p.len() - 1
    } else {
        q.len() - 1
    };
    effect_paths_agree(still_fails, from, p, q, last);
}

/// A failure that shows each time it is looked for is always minimized to the same schedule.
pub proof fn minimizing_is_determined<F: Fn(&FaultSchedule) -> bool>(
    still_fails: F,
    all: ScheduleView,
    a: ScheduleView,
    b: ScheduleView,
)
    requires
        is_repeatable(still_fails),
        is_minimized(still_fails, all, a),
        is_minimized(still_fails, all, b),
    ensures
        a == b,
{
    let (shorter_a, shortest_a) = choose|shorter: ScheduleView, shortest: ScheduleView|
        {
            &&& #[trigger] is_left_of_runs(still_fails, all, shorter)
            &&& is_left_of_rules(still_fails, shorter, shortest)
            &&& #[trigger] is_left_of_effects(still_fails, shortest, a)
        };
    let (shorter_b, shortest_b) = choose|shorter: ScheduleView, shortest: ScheduleView|
        {
            &&& #[trigger] is_left_of_runs(still_fails, all, shorter)
            &&& is_left_of_rules(still_fails, shorter, shortest)
            &&& #[trigger] is_left_of_effects(still_fails, shortest, b)
        };
    run_paths_end_alike(
        still_fails,
        all,
        choose|path: Seq<(ScheduleView, int)>|
            path.last().0 == shorter_a && #[trigger] is_run_path(still_fails, all, path),
        choose|path: Seq<(ScheduleView, int)>|
            path.last().0 == shorter_b && #[trigger] is_run_path(still_fails, all, path),
    );
    rule_paths_end_alike(
        still_fails,
        shorter_a,
        choose|path: Seq<ScheduleView>|
            path.last() == shortest_a && #[trigger] is_rule_path(still_fails, shorter_a, path),
        choose|path: Seq<ScheduleView>|
            path.last() == shortest_b && #[trigger] is_rule_path(still_fails, shorter_b, path),
    );
    effect_paths_end_alike(
        still_fails,
        shortest_a,
        choose|path: Seq<ScheduleView>|
            path.last() == a && #[trigger] is_effect_path(still_fails, shortest_a, path),
        choose|path: Seq<ScheduleView>|
            path.last() == b && #[trigger] is_effect_path(still_fails, shortest_b, path),
    );
}

/// A schedule that fails is cut down to one that still fails, and of which no effect can be left
/// out; one that does not fail stays as it is. What is left are rules of the schedule in their
/// order, each with no other effects than it had, and nothing but rules is touched.
pub proof fn what_is_left_still_fails<F: Fn(&FaultSchedule) -> bool>(
    schedule: FaultSchedule,
    still_fails: F,
    r: FaultSchedule,
    i: int,
    j: int,
)
    requires
        call_ensures(minimize_schedule::<F>, (&schedule, still_fails), r),
        is_repeatable(still_fails),
        answered(still_fails, schedule@, true),
    ensures
        answered(still_fails, r@, true),
        0 <= i < r@.rules.len() && 0 <= j < r@.rules[i].effects.len() ==> answered(
            still_fails,
            effect_removed(r@, i, j),
            false,
        ),
        r@.rules.len() <= schedule@.rules.len(),
        0 <= i < r@.rules.len() ==> exists|k: int|
            0 <= k < schedule@.rules.len() && (#[trigger] schedule@.rules[k]).link == r@.rules[i].link
                && schedule@.rules[k].occurrence == r@.rules[i].occurrence && is_sublist(
                r@.rules[i].effects,
                schedule@.rules[k].effects,
            ),
        r@ == with_rules(schedule@, r@.rules),
{
    let middle = choose|middle: Seq<RuleView>|
        {
            &&& is_sublist(middle, schedule@.rules)
            &&& every_rule_is_needed(still_fails, with_rules(schedule@, middle))
            &&& #[trigger] has_fewer_effects(r@.rules, middle)
        };
    let places = choose|places: Seq<int>| #[trigger] picks(middle, schedule@.rules, places);
    picked_are_no_more(middle, schedule@.rules, places, places.len());
    if 0 <= i < r@.rules.len() {
        assert(r@.rules[i].link == middle[i].link);
        assert(schedule@.rules[places[i]] == middle[i]);
    }
}

proof fn picked_are_no_more<T>(small: Seq<T>, big: Seq<T>, places: Seq<int>, n: nat)
    requires
        picks(small, big, places),
        n <= places.len(),
    ensures
        n > 0 ==> places[n - 1] >= n - 1,
        n > 0 ==> n <= big.len(),
    decreases n,
{
    if n > 1 {
        picked_are_no_more(small, big, places, (n - 1) as nat);
        assert(places[n - 2] < places[n - 1]);
    }
    if n > 0 {
        assert(0 <= places[n - 1] < big.len());
    }
}

/// A run is as long as it must be for so many runs to make up the rules, and no longer.
pub proof fn runs_make_up_the_rules(rules: int, granularity: int)
    requires
        rules > 0,
        granularity > 0,
    ensures
        run_size(rules, granularity) * granularity >= rules,
        (run_size(rules, granularity) - 1) * granularity < rules,
        run_size(rules, granularity) >= 1,
{
    let q = (rules - 1) / granularity;
    vstd::arithmetic::div_mod::lemma_fundamental_div_mod(rules - 1, granularity);
    vstd::arithmetic::div_mod::lemma_mod_bound(rules - 1, granularity);
    vstd::arithmetic::div_mod::lemma_div_pos_is_pos(rules - 1, granularity);
    assert((q + 1) * granularity == q * granularity + granularity) by (nonlinear_arith);
    assert(granularity * q == q * granularity) by (nonlinear_arith);
}

/// Rules are tried in halves first; where a run can be left out the rest is tried in one run
/// less, but at least in two, and where none can, in twice as many, up to one for each rule.
pub proof fn runs_get_shorter<F: Fn(&FaultSchedule) -> bool>(
    still_fails: F,
    from: (ScheduleView, int),
    to: (ScheduleView, int),
    path: Seq<(ScheduleView, int)>,
)
    requires
        from.1 >= 2,
        is_run_step(still_fails, from, to),
        is_run_path(still_fails, from.0, path),
    ensures
        path[0].1 == 2,
        to.0 == from.0 || answered(still_fails, to.0, true),
        to.0.rules.len() <= from.0.rules.len(),
        to.0 != from.0 ==> to.0.rules.len() < from.0.rules.len() && (to.1 == from.1 - 1 || (from.1
            == 2 && to.1 == 2)),
        to.0 == from.0 ==> from.1 < to.1 <= from.0.rules.len() && (to.1 == 2 * from.1 || (to.1
            == from.0.rules.len() && to.1 < 2 * from.1)),
        is_run_end(still_fails, path.last()),
        path.last().0.rules.len() >= 2 ==> path.last().1 >= path.last().0.rules.len(),
{
    let view = from.0;
    let total = view.rules.len() as int;
    let chunk = run_size(total, from.1);
    runs_make_up_the_rules(total, from.1);
    if exists|run: int|
        to.0 == run_removed(view, chunk, run) && #[trigger] is_first_needless_run(
            still_fails,
            view,
            chunk,
            run,
        ) {
        let run = choose|run: int|
            to.0 == run_removed(view, chunk, run) && #[trigger] is_first_needless_run(
                still_fails,
                view,
                chunk,
                run,
            );
        assert((run + 1) * chunk == run * chunk + chunk) by (nonlinear_arith);
        assert(run * chunk >= 0) by (nonlinear_arith)
            requires
                run >= 0,
                chunk >= 1,
        ;
        assert(to.0.rules.len() < view.rules.len());
    }
}

} // verus!
