//! The properties the library states of itself, proved against the same
//! spec functions its public contracts use.
use vstd::prelude::*;

use crate::calendar::{CalendarEvent, CalendarOptions, spec_options_eq};
use crate::dates::{Date, day_number, is_weekend};
use crate::models::GuildCalendar;
use crate::reconcile::{DeliveryState, DeliveryEvent, spec_delivery_step};
use crate::render::{
    SpecLocEvent, SpecDayGroup, SpecDisplay, spec_render, spec_localize, spec_survives,
    spec_window_end, spec_groups, spec_add_event, spec_synthesize, spec_insert_sorted,
    spec_sort, key_le, group_index, group_touch_index, lemma_group_index_properties,
};
use crate::sync::{
    spec_groups_sound, spec_groups_complete, spec_covered, spec_pair_origin, spec_channel_pair,
    spec_deliverable, spec_options_for, spec_same_options,
};
verus! {

// --- rendering is a pure function --------------------------------------------

/// Rendering twice from identical inputs yields identical display content:
/// the result is a function of the event list, the options and the instant
/// alone, with no hidden state.
pub proof fn lemma_render_idempotent(
    events: Seq<CalendarEvent>,
    opts: CalendarOptions,
    now_ms: int,
    r1: SpecDisplay,
    r2: SpecDisplay,
)
    requires
        r1 == spec_render(events, opts, now_ms),
        r2 == spec_render(events, opts, now_ms),
    ensures
        r1 == r2,
{
}

// --- grouping characterized ---------------------------------------------------

/// The events of the groups keyed (sd, ed), among the first `n`, in their
/// original relative order.
pub open spec fn spec_key_events(
    events: Seq<CalendarEvent>,
    tz: Seq<char>,
    opts: CalendarOptions,
    wend: int,
    n: int,
    sd: Date,
    ed: Date,
) -> Seq<SpecLocEvent>
    decreases n,
{
    if n <= 0 {
        Seq::empty()
    } else {
        let prev = spec_key_events(events, tz, opts, wend, n - 1, sd, ed);
        match spec_localize(events[n - 1], tz) {
            Some(le) => if spec_survives(le, opts, wend) && le.start.date == sd && le.end.date
                == ed {
                prev.push(le)
            } else {
                prev
            },
            None => prev,
        }
    }
}

pub open spec fn spec_group_keys_unique(gs: Seq<SpecDayGroup>) -> bool {
    forall|g1: int, g2: int|
        0 <= g1 < g2 < gs.len() ==> !((#[trigger] gs[g1]).start_date == (
        #[trigger] gs[g2]).start_date && gs[g1].end_date == gs[g2].end_date)
}

/// Every member of every group is a surviving event carrying the group's
/// date pair.
pub open spec fn spec_groups_members_ok(gs: Seq<SpecDayGroup>, opts: CalendarOptions, wend: int) ->
    bool {
    forall|g: int, j: int|
        0 <= g < gs.len() && 0 <= j < (#[trigger] gs[g]).events.len() ==> {
            &&& spec_survives(#[trigger] gs[g].events[j], opts, wend)
            &&& gs[g].events[j].start.date == gs[g].start_date
            &&& gs[g].events[j].end.date == gs[g].end_date
        }
}

proof fn lemma_group_index_after_push(gs: Seq<SpecDayGroup>, ng: SpecDayGroup, sd: Date, ed: Date)
    requires
        group_index(gs, ng.start_date, ng.end_date, 0) == -1,
    ensures
        group_index(gs.push(ng), sd, ed, 0) == (if group_index(gs, sd, ed, 0) != -1 {
            group_index(gs, sd, ed, 0)
        } else if ng.start_date == sd && ng.end_date == ed {
            gs.len() as int
        } else {
            -1
        }),
{
    lemma_group_index_push_from(gs, ng, sd, ed, 0);
}

proof fn lemma_group_index_push_from(
    gs: Seq<SpecDayGroup>,
    ng: SpecDayGroup,
    sd: Date,
    ed: Date,
    from: int,
)
    requires
        0 <= from,
    ensures
        group_index(gs.push(ng), sd, ed, from) == (if group_index(gs, sd, ed, from) != -1 {
            group_index(gs, sd, ed, from)
        } else if ng.start_date == sd && ng.end_date == ed && from <= gs.len() {
            gs.len() as int
        } else {
            -1
        }),
    decreases gs.len() + 1 - from,
{
    let t = gs.push(ng);
    if from < gs.len() {
        assert(t[from] == gs[from]);
        if !(gs[from].start_date == sd && gs[from].end_date == ed) {
            lemma_group_index_push_from(gs, ng, sd, ed, from + 1);
        }
    } else if from == gs.len() {
        assert(t[from] == ng);
        assert(group_index(gs, sd, ed, from) == -1);
        if !(ng.start_date == sd && ng.end_date == ed) {
            assert(group_index(t, sd, ed, from + 1) == -1);
        }
    }
}

proof fn lemma_group_index_same_keys(
    s1: Seq<SpecDayGroup>,
    s2: Seq<SpecDayGroup>,
    sd: Date,
    ed: Date,
    from: int,
)
    requires
        s1.len() == s2.len(),
        forall|j: int|
            0 <= j < s1.len() ==> (#[trigger] s1[j]).start_date == s2[j].start_date && s1[j].end_date
                == s2[j].end_date,
    ensures
        group_index(s1, sd, ed, from) == group_index(s2, sd, ed, from),
    decreases s1.len() - from,
{
    if 0 <= from < s1.len() && !(s1[from].start_date == sd && s1[from].end_date == ed) {
        lemma_group_index_same_keys(s1, s2, sd, ed, from + 1);
    }
}

/// What one grouping step does to the characterization.
proof fn lemma_add_event_characterize(gs: Seq<SpecDayGroup>, le: SpecLocEvent, sd: Date, ed: Date)
    requires
        spec_group_keys_unique(gs),
    ensures
        spec_group_keys_unique(spec_add_event(gs, le)),
        ({
            let ns = spec_add_event(gs, le);
            let k_old = group_index(gs, sd, ed, 0);
            let k_new = group_index(ns, sd, ed, 0);
            if le.start.date == sd && le.end.date == ed {
                &&& k_new != -1
                &&& (k_old != -1 ==> k_new == k_old && ns[k_new].events == gs[k_old].events.push(
                    le,
                ))
                &&& (k_old == -1 ==> ns[k_new].events == seq![le])
            } else {
                &&& k_new == k_old
                &&& (k_old != -1 ==> ns[k_new].events == gs[k_old].events)
            }
        }),
{
    let k = group_index(gs, le.start.date, le.end.date, 0);
    lemma_group_index_properties(gs, le.start.date, le.end.date, 0);
    lemma_group_index_properties(gs, sd, ed, 0);
    let ns = spec_add_event(gs, le);
    if k == -1 {
        let ng = SpecDayGroup { start_date: le.start.date, end_date: le.end.date, events: seq![le] };
        assert(ns == gs.push(ng));
        lemma_group_index_after_push(gs, ng, sd, ed);
        assert forall|g1: int, g2: int|
            0 <= g1 < g2 < ns.len() implies !((#[trigger] ns[g1]).start_date == (
        #[trigger] ns[g2]).start_date && ns[g1].end_date == ns[g2].end_date) by {
            if g2 == gs.len() {
                assert(ns[g1] == gs[g1]);
                assert(ns[g2] == ng);
            }
        }
        if le.start.date == sd && le.end.date == ed {
            assert(group_index(gs, sd, ed, 0) == -1);
        }
    } else {
        assert(ns.len() == gs.len());
        assert(forall|j: int|
            0 <= j < ns.len() ==> (#[trigger] ns[j]).start_date == gs[j].start_date
                && ns[j].end_date == gs[j].end_date);
        lemma_group_index_same_keys(ns, gs, sd, ed, 0);
        lemma_group_index_properties(ns, sd, ed, 0);
        if le.start.date == sd && le.end.date == ed {
            assert(group_index(gs, sd, ed, 0) == k) by {
                lemma_group_index_properties(gs, sd, ed, 0);
                lemma_group_index_properties(gs, le.start.date, le.end.date, 0);
            }
        }
    }
}

/// Grouping, characterized: group keys are unique; every group member is a
/// surviving event with the group's date pair; and the group keyed
/// (sd, ed), when present, holds exactly the surviving events with that
/// local date pair, in their original relative order.
pub proof fn lemma_grouping_characterized(
    events: Seq<CalendarEvent>,
    tz: Seq<char>,
    opts: CalendarOptions,
    wend: int,
    n: int,
    sd: Date,
    ed: Date,
)
    requires
        0 <= n <= events.len(),
    ensures
        spec_group_keys_unique(spec_groups(events, tz, opts, wend, n)),
        spec_groups_members_ok(spec_groups(events, tz, opts, wend, n), opts, wend),
        ({
            let gs = spec_groups(events, tz, opts, wend, n);
            let k = group_index(gs, sd, ed, 0);
            &&& (k != -1 ==> gs[k].events == spec_key_events(events, tz, opts, wend, n, sd, ed))
            &&& (k == -1 ==> spec_key_events(events, tz, opts, wend, n, sd, ed) == Seq::<
                SpecLocEvent,
            >::empty())
        }),
    decreases n,
{
    if n > 0 {
        lemma_grouping_characterized(events, tz, opts, wend, n - 1, sd, ed);
        let prev = spec_groups(events, tz, opts, wend, n - 1);
        let gs = spec_groups(events, tz, opts, wend, n);
        match spec_localize(events[n - 1], tz) {
            Some(le) => {
                if spec_survives(le, opts, wend) {
                    lemma_add_event_characterize(prev, le, sd, ed);
                    lemma_add_event_characterize(prev, le, le.start.date, le.end.date);
                    // members stay sound: the new member is the surviving event
                    let k = group_index(prev, le.start.date, le.end.date, 0);
                    lemma_group_index_properties(prev, le.start.date, le.end.date, 0);
                    assert forall|g: int, j: int|
                        0 <= g < gs.len() && 0 <= j < (#[trigger] gs[g]).events.len() implies {
                        &&& spec_survives(#[trigger] gs[g].events[j], opts, wend)
                        &&& gs[g].events[j].start.date == gs[g].start_date
                        &&& gs[g].events[j].end.date == gs[g].end_date
                    } by {
                        if k == -1 {
                            if g < prev.len() {
                                assert(gs[g] == prev[g]);
                            } else {
                                assert(gs[g].events == seq![le]);
                            }
                        } else {
                            if g != k {
                                assert(gs[g] == prev[g]);
                            } else {
                                if j < prev[k].events.len() {
                                    assert(gs[g].events[j] == prev[k].events[j]);
                                } else {
                                    assert(gs[g].events[j] == le);
                                }
                            }
                        }
                    }
                }
            },
            None => {},
        }
    } else {
        let gs = spec_groups(events, tz, opts, wend, 0);
        assert(group_index(gs, sd, ed, 0) == -1);
    }
}

proof fn lemma_insert_sorted_contains(s: Seq<SpecDayGroup>, g: SpecDayGroup, x: SpecDayGroup)
    ensures
        spec_insert_sorted(s, g).contains(x) <==> (s.contains(x) || x == g),
    decreases s.len(),
{
    let r = spec_insert_sorted(s, g);
    if s.len() == 0 {
        assert(r == seq![g]);
        assert(r.contains(x) <==> x == g) by {
            if x == g {
                assert(r[0] == x);
            }
        }
        assert(!s.contains(x));
    } else if key_le(s[0], g) {
        lemma_insert_sorted_contains(s.drop_first(), g, x);
        assert(r == seq![s[0]] + spec_insert_sorted(s.drop_first(), g));
        assert(r.contains(x) <==> (x == s[0] || spec_insert_sorted(s.drop_first(), g).contains(
            x,
        ))) by {
            if r.contains(x) {
                let i = choose|i: int| 0 <= i < r.len() && r[i] == x;
                if i > 0 {
                    assert(spec_insert_sorted(s.drop_first(), g)[i - 1] == x);
                }
            }
            if x == s[0] {
                assert(r[0] == x);
            }
            if spec_insert_sorted(s.drop_first(), g).contains(x) {
                let i = choose|i: int|
                    0 <= i < spec_insert_sorted(s.drop_first(), g).len() && spec_insert_sorted(
                        s.drop_first(),
                        g,
                    )[i] == x;
                assert(r[i + 1] == x);
            }
        }
        assert(s.contains(x) <==> (x == s[0] || s.drop_first().contains(x))) by {
            if s.contains(x) {
                let i = choose|i: int| 0 <= i < s.len() && s[i] == x;
                if i > 0 {
                    assert(s.drop_first()[i - 1] == x);
                }
            }
            if s.drop_first().contains(x) {
                let i = choose|i: int| 0 <= i < s.drop_first().len() && s.drop_first()[i] == x;
                assert(s[i + 1] == x);
            }
        }
    } else {
        assert(r == seq![g] + s);
        assert(r.contains(x) <==> (x == g || s.contains(x))) by {
            if r.contains(x) {
                let i = choose|i: int| 0 <= i < r.len() && r[i] == x;
                if i > 0 {
                    assert(s[i - 1] == x);
                }
            }
            if x == g {
                assert(r[0] == x);
            }
            if s.contains(x) {
                let i = choose|i: int| 0 <= i < s.len() && s[i] == x;
                assert(r[i + 1] == x);
            }
        }
    }
}

proof fn lemma_sort_contains(gs: Seq<SpecDayGroup>, x: SpecDayGroup)
    ensures
        spec_sort(gs).contains(x) <==> gs.contains(x),
    decreases gs.len(),
{
    if gs.len() > 0 {
        lemma_sort_contains(gs.drop_last(), x);
        lemma_insert_sorted_contains(spec_sort(gs.drop_last()), gs.last(), x);
        assert(gs.contains(x) <==> (gs.drop_last().contains(x) || x == gs.last())) by {
            if gs.contains(x) {
                let i = choose|i: int| 0 <= i < gs.len() && gs[i] == x;
                if i < gs.len() - 1 {
                    assert(gs.drop_last()[i] == x);
                }
            }
            if gs.drop_last().contains(x) {
                let i = choose|i: int| 0 <= i < gs.drop_last().len() && gs.drop_last()[i] == x;
                assert(gs[i] == x);
            }
            if x == gs.last() {
                assert(gs[gs.len() - 1] == x);
            }
        }
    }
}

/// Events sharing one (local start date, local end date) pair always stand
/// in one and the same group of the sorted display, holding exactly those
/// surviving events in their original relative order.
pub proof fn lemma_same_date_pair_shares_one_group(
    events: Seq<CalendarEvent>,
    tz: Seq<char>,
    opts: CalendarOptions,
    wend: int,
    sd: Date,
    ed: Date,
)
    requires
        spec_key_events(events, tz, opts, wend, events.len() as int, sd, ed).len() > 0,
    ensures
        ({
            let sorted = spec_sort(spec_groups(events, tz, opts, wend, events.len() as int));
            exists|i: int|
                0 <= i < sorted.len() && (#[trigger] sorted[i]).start_date == sd
                    && sorted[i].end_date == ed && sorted[i].events == spec_key_events(
                    events,
                    tz,
                    opts,
                    wend,
                    events.len() as int,
                    sd,
                    ed,
                )
        }),
{
    let n = events.len() as int;
    let gs = spec_groups(events, tz, opts, wend, n);
    let sorted = spec_sort(gs);
    lemma_grouping_characterized(events, tz, opts, wend, n, sd, ed);
    let k = group_index(gs, sd, ed, 0);
    assert(k != -1);
    lemma_group_index_properties(gs, sd, ed, 0);
    assert(gs.contains(gs[k]));
    lemma_sort_contains(gs, gs[k]);
    let i = choose|i: int| 0 <= i < sorted.len() && sorted[i] == gs[k];
    assert(sorted[i].start_date == sd && sorted[i].end_date == ed);
}

// --- window boundary ----------------------------------------------------------

/// With weekends shown, the display window's boundary is inclusive: an
/// event whose local start date is exactly `num_of_days` days past today is
/// kept, and one day beyond is dropped.
pub proof fn lemma_window_boundary_inclusive(
    le: SpecLocEvent,
    opts: CalendarOptions,
    today: Date,
)
    requires
        !opts.skip_weekend,
    ensures
        day_number(le.start.date) == day_number(today) + opts.num_of_days ==> spec_survives(
            le,
            opts,
            spec_window_end(today, opts),
        ),
        day_number(le.start.date) == day_number(today) + opts.num_of_days + 1 ==> !spec_survives(
            le,
            opts,
            spec_window_end(today, opts),
        ),
{
}

// --- weekend skip -------------------------------------------------------------

/// With weekends skipped, an event whose local start or end falls on a
/// Saturday or Sunday survives no filter, and so never reaches any group,
/// whatever the window.
pub proof fn lemma_weekend_event_never_rendered(
    events: Seq<CalendarEvent>,
    tz: Seq<char>,
    opts: CalendarOptions,
    wend: int,
    n: int,
    le: SpecLocEvent,
)
    requires
        opts.skip_weekend,
        is_weekend(le.start.date) || is_weekend(le.end.date),
        0 <= n <= events.len(),
    ensures
        !spec_survives(le, opts, wend),
        forall|g: int, j: int|
            0 <= g < spec_groups(events, tz, opts, wend, n).len() && 0 <= j < (#[trigger] spec_groups(
                events,
                tz,
                opts,
                wend,
                n,
            )[g]).events.len() ==> #[trigger] spec_groups(events, tz, opts, wend, n)[g].events[j]
                != le,
{
    lemma_grouping_characterized(events, tz, opts, wend, n, le.start.date, le.end.date);
    let gs = spec_groups(events, tz, opts, wend, n);
    assert forall|g: int, j: int|
        0 <= g < gs.len() && 0 <= j < (#[trigger] gs[g]).events.len() implies #[trigger] gs[g].events[j]
        != le by {
        assert(spec_survives(gs[g].events[j], opts, wend));
    }
}

// --- empty-day synthesis ------------------------------------------------------

/// Synthesis adds a placeholder exactly for the untouched dates: group keys
/// stay unique, the incoming groups are kept unchanged as a prefix, every
/// walked non-skipped date is afterwards touched by some group, and every
/// group the synthesis added is an empty single-date placeholder for a date
/// that no incoming group touched -- so a date a real group spans never also
/// gets a synthetic entry.
pub proof fn lemma_synthesis_covers_dates(
    gs: Seq<SpecDayGroup>,
    today: Date,
    opts: CalendarOptions,
    count: int,
)
    requires
        spec_group_keys_unique(gs),
    ensures
        spec_group_keys_unique(spec_synthesize(gs, today, opts, count)),
        spec_synthesize(gs, today, opts, count).len() >= gs.len(),
        forall|j: int|
            0 <= j < gs.len() ==> #[trigger] spec_synthesize(gs, today, opts, count)[j] == gs[j],
        forall|i: int|
            0 <= i < count && !(opts.skip_weekend && is_weekend(
                #[trigger] crate::dates::spec_add_days(today, i),
            )) ==> group_touch_index(
                spec_synthesize(gs, today, opts, count),
                crate::dates::spec_add_days(today, i),
                0,
            ) != -1,
        forall|j: int|
            gs.len() <= j < spec_synthesize(gs, today, opts, count).len() ==> {
                let ng = #[trigger] spec_synthesize(gs, today, opts, count)[j];
                &&& ng.events.len() == 0
                &&& ng.start_date == ng.end_date
                &&& group_touch_index(gs, ng.start_date, 0) == -1
            },
    decreases count,
{
    if count > 0 {
        lemma_synthesis_covers_dates(gs, today, opts, count - 1);
        let prev = spec_synthesize(gs, today, opts, count - 1);
        let d = crate::dates::spec_add_days(today, count - 1);
        let ns = spec_synthesize(gs, today, opts, count);
        if !(opts.skip_weekend && is_weekend(d)) {
            let k = group_touch_index(prev, d, 0);
            lemma_group_touch_index_properties(prev, d, 0);
            if k == -1 {
                let ng = SpecDayGroup { start_date: d, end_date: d, events: Seq::empty() };
                assert(ns == prev.push(ng));
                assert forall|g1: int, g2: int|
                    0 <= g1 < g2 < ns.len() implies !((#[trigger] ns[g1]).start_date == (
                #[trigger] ns[g2]).start_date && ns[g1].end_date == ns[g2].end_date) by {
                    if g2 == prev.len() {
                        assert(ns[g1] == prev[g1]);
                    }
                }
                assert forall|i: int|
                    0 <= i < count && !(opts.skip_weekend && is_weekend(
                        #[trigger] crate::dates::spec_add_days(today, i),
                    )) implies group_touch_index(
                    ns,
                    crate::dates::spec_add_days(today, i),
                    0,
                ) != -1 by {
                    let di = crate::dates::spec_add_days(today, i);
                    if i == count - 1 {
                        assert(ns[prev.len() as int].start_date == di);
                        lemma_group_touch_index_properties(ns, di, 0);
                        if group_touch_index(ns, di, 0) == -1 {
                            assert(!(ns[prev.len() as int].start_date == di
                                || ns[prev.len() as int].end_date == di));
                        }
                    } else {
                        let t0 = group_touch_index(prev, di, 0);
                        lemma_group_touch_index_properties(prev, di, 0);
                        assert(ns[t0] == prev[t0]);
                        lemma_group_touch_index_properties(ns, di, 0);
                        if group_touch_index(ns, di, 0) == -1 {
                            assert(!(ns[t0].start_date == di || ns[t0].end_date == di));
                        }
                    }
                }
                assert forall|j: int| gs.len() <= j < ns.len() implies {
                    let g = #[trigger] ns[j];
                    &&& g.events.len() == 0
                    &&& g.start_date == g.end_date
                    &&& group_touch_index(gs, g.start_date, 0) == -1
                } by {
                    if j < prev.len() {
                        assert(ns[j] == prev[j]);
                    } else {
                        assert(ns[j] == ng);
                        // No group of `prev`, and so none of its prefix `gs`,
                        // touches the new placeholder's date.
                        lemma_group_touch_index_properties(gs, d, 0);
                        let tg = group_touch_index(gs, d, 0);
                        if tg != -1 {
                            assert(prev[tg] == gs[tg]);
                            assert(prev[tg].start_date == d || prev[tg].end_date == d);
                        }
                    }
                }
            } else {
                assert(ns == prev);
            }
        } else {
            assert(ns == prev);
        }
    }
}

/// Mirror of [`lemma_group_index_properties`] for the touch search.
pub proof fn lemma_group_touch_index_properties(gs: Seq<SpecDayGroup>, d: Date, from: int)
    requires
        0 <= from,
    ensures
        group_touch_index(gs, d, from) == -1 ==> (forall|j: int|
            from <= j < gs.len() ==> !((#[trigger] gs[j]).start_date == d || gs[j].end_date
                == d)),
        group_touch_index(gs, d, from) != -1 ==> {
            let k = group_touch_index(gs, d, from);
            &&& from <= k < gs.len()
            &&& (gs[k].start_date == d || gs[k].end_date == d)
        },
    decreases gs.len() - from,
{
    if 0 <= from < gs.len() && !(gs[from].start_date == d || gs[from].end_date == d) {
        lemma_group_touch_index_properties(gs, d, from + 1);
    }
}

/// A date is never rendered twice: an empty synthesized group whose start
/// or end date an earlier group already covered contributes no field, while
/// any other group contributes exactly one.
pub proof fn lemma_emit_covers_each_date_once(
    gs: Seq<SpecDayGroup>,
    opts: CalendarOptions,
    now_year: int,
    n: int,
)
    requires
        0 <= n < gs.len(),
    ensures
        ({
            let prev = crate::render::spec_emit(gs, opts, now_year, n);
            let next = crate::render::spec_emit(gs, opts, now_year, n + 1);
            if opts.show_if_no_events && gs[n].events.len() == 0 && (prev.1.contains(
                gs[n].start_date,
            ) || prev.1.contains(gs[n].end_date)) {
                next.0 == prev.0
            } else {
                next.0.len() == prev.0.len() + 1 && next.1.contains(gs[n].start_date)
                    && next.1.contains(gs[n].end_date)
            }
        }),
{
    let prev = crate::render::spec_emit(gs, opts, now_year, n);
    let next = crate::render::spec_emit(gs, opts, now_year, n + 1);
    if !(opts.show_if_no_events && gs[n].events.len() == 0 && (prev.1.contains(gs[n].start_date)
        || prev.1.contains(gs[n].end_date))) {
        if gs[n].start_date == gs[n].end_date {
            assert(next.1.last() == gs[n].start_date);
        } else {
            assert(next.1[next.1.len() - 2] == gs[n].start_date);
            assert(next.1.last() == gs[n].end_date);
        }
    }
}

/// Every walked non-skipped date of the window keeps an entry in the sorted
/// display groups: a group whose start or end falls on that date, be it a
/// real event group or the synthesized placeholder.
pub proof fn lemma_window_date_has_group(
    gs: Seq<SpecDayGroup>,
    today: Date,
    opts: CalendarOptions,
    count: int,
    i: int,
)
    requires
        spec_group_keys_unique(gs),
        0 <= i < count,
        !(opts.skip_weekend && is_weekend(crate::dates::spec_add_days(today, i))),
    ensures
        ({
            let d = crate::dates::spec_add_days(today, i);
            let sorted = spec_sort(spec_synthesize(gs, today, opts, count));
            exists|g: int|
                0 <= g < sorted.len() && ((#[trigger] sorted[g]).start_date == d
                    || sorted[g].end_date == d)
        }),
{
    let d = crate::dates::spec_add_days(today, i);
    let syn = spec_synthesize(gs, today, opts, count);
    lemma_synthesis_covers_dates(gs, today, opts, count);
    let k = group_touch_index(syn, d, 0);
    assert(k != -1);
    lemma_group_touch_index_properties(syn, d, 0);
    assert(syn.contains(syn[k]));
    lemma_sort_contains(syn, syn[k]);
    let sorted = spec_sort(syn);
    let g = choose|g: int| 0 <= g < sorted.len() && sorted[g] == syn[k];
    assert(sorted[g].start_date == d || sorted[g].end_date == d);
}

// --- one task per options class -----------------------------------------------

/// Two deliverable subscriptions whose configurations resolve to the same
/// options are always served out of one and the same task group, so the
/// engine renders once for the whole equivalence class. The requirements are
/// exactly what [`crate::sync::plan_calendar_update`] ensures of its plan's
/// groups, read back through [`crate::sync::spec_plan_groups`].
pub proof fn lemma_equal_options_share_task(
    groups: Seq<(CalendarOptions, Seq<(u64, Option<u64>)>)>,
    gcs: Seq<GuildCalendar>,
    forced: bool,
    k1: int,
    k2: int,
)
    requires
        forall|g1: int, g2: int|
            0 <= g1 < g2 < groups.len() ==> !spec_options_eq(
                (#[trigger] groups[g1]).0,
                (#[trigger] groups[g2]).0,
            ),
        spec_groups_complete(groups, gcs, forced, gcs.len() as int),
        0 <= k1 < gcs.len(),
        0 <= k2 < gcs.len(),
        spec_deliverable(gcs[k1], forced),
        spec_deliverable(gcs[k2], forced),
        spec_same_options(gcs[k1], gcs[k2]),
    ensures
        exists|g: int|
            0 <= g < groups.len() && (#[trigger] groups[g]).1.contains(spec_channel_pair(gcs[k1]))
                && groups[g].1.contains(spec_channel_pair(gcs[k2])),
{
    assert(spec_covered(groups, gcs, k1));
    assert(spec_covered(groups, gcs, k2));
    let g1 = choose|g: int|
        0 <= g < groups.len() && spec_options_for(gcs[k1], (#[trigger] groups[g]).0)
            && groups[g].1.contains(spec_channel_pair(gcs[k1]));
    let g2 = choose|g: int|
        0 <= g < groups.len() && spec_options_for(gcs[k2], (#[trigger] groups[g]).0)
            && groups[g].1.contains(spec_channel_pair(gcs[k2]));
    assert(Some(groups[g1].0.timezone@) == Some(groups[g2].0.timezone@));
    assert(spec_options_eq(groups[g1].0, groups[g2].0));
    if g1 != g2 {
        if g1 < g2 {
            assert(!spec_options_eq(groups[g1].0, groups[g2].0));
        } else {
            assert(!spec_options_eq(groups[g2].0, groups[g1].0));
            assert(spec_options_eq(groups[g2].0, groups[g1].0));
        }
    }
    assert(groups[g1].1.contains(spec_channel_pair(gcs[k1])));
    assert(groups[g1].1.contains(spec_channel_pair(gcs[k2])));
}

// --- forced cycles target only flagged subscriptions ---------------------------

/// In a cycle triggered by force-update flags, every recipient pair of every
/// task belongs to a subscription whose own flag is set: unflagged
/// subscriptions are not re-delivered. The soundness requirement is what
/// [`crate::sync::plan_calendar_update`] ensures of its plan's groups when
/// the cycle is forced.
pub proof fn lemma_forced_cycle_targets_flagged_only(
    groups: Seq<(CalendarOptions, Seq<(u64, Option<u64>)>)>,
    gcs: Seq<GuildCalendar>,
    g: int,
    p: int,
)
    requires
        spec_groups_sound(groups, gcs, true),
        0 <= g < groups.len(),
        0 <= p < groups[g].1.len(),
    ensures
        exists|k: int|
            0 <= k < gcs.len() && (#[trigger] gcs[k]).forceUpdate && groups[g].1[p]
                == spec_channel_pair(gcs[k]),
{
    assert(spec_pair_origin(groups, gcs, true, g, p));
    let k0 = choose|k: int|
        0 <= k < gcs.len() && spec_deliverable(#[trigger] gcs[k], true) && spec_options_for(
            gcs[k],
            groups[g].0,
        ) && groups[g].1[p] == spec_channel_pair(gcs[k]);
    assert(gcs[k0].forceUpdate);
}

// --- edit failure falls back to exactly one create -----------------------------

/// A failed edit of the stored message is followed by creating a new one;
/// its id, when it differs from the stored id, is what gets persisted.
pub proof fn lemma_edit_failure_falls_back_to_create(old_id: u64, new_id: u64)
    ensures
        spec_delivery_step(
            spec_delivery_step(DeliveryState::Editing(old_id), DeliveryEvent::EditFailed),
            DeliveryEvent::CreateSucceeded(new_id),
        ) == DeliveryState::Delivered(new_id),
{
}

} // verus!
