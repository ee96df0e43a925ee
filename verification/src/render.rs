//! The rendering engine: a pure transformation from an event list and
//! rendering options to the ordered display sections of one channel message.
//!
//! The stages mirror one another in spec and executable form: localize each
//! event into the target zone and drop time-less ones, filter by weekend rule
//! and display window, group by the pair of local start and end date,
//! synthesize empty groups for uncovered dates of the window, sort groups by
//! date, and format one header and body per group.
use vstd::prelude::*;
use vstd::string::*;

use crate::calendar::{CalendarEvent, CalendarOptions};
use crate::dates::{
    Date, LocalDateTime, day_number, exec_day_number, exec_is_weekend, is_weekend, next_day,
    spec_add_days, work_end_dn, lemma_work_end_bounds, lemma_day_number_bounds,
    lemma_add_days_unfold_right,
};
use crate::fmt::{
    iso_date, long_date, time_hm, push_iso_date, push_long_date, push_time_hm,
};
use crate::tz::{local_civil, civil_in_zone, MIN_TIMESTAMP_MS, MAX_TIMESTAMP_MS};

verus! {

/// An event translated into the target zone, keeping only what rendering
/// reads.
pub struct LocalizedEvent {
    pub summary: String,
    pub start: LocalDateTime,
    pub end: LocalDateTime,
}

/// The mathematical image of a [`LocalizedEvent`].
pub struct SpecLocEvent {
    pub summary: Seq<char>,
    pub start: LocalDateTime,
    pub end: LocalDateTime,
}

impl View for LocalizedEvent {
    type V = SpecLocEvent;

    open spec fn view(&self) -> SpecLocEvent {
        SpecLocEvent { summary: self.summary@, start: self.start, end: self.end }
    }
}

impl SpecLocEvent {
    pub open spec fn wf(self) -> bool {
        self.start.wf() && self.end.wf()
    }
}

/// All events sharing one (local start date, local end date) pair, in their
/// original relative order.
pub struct DayGroup {
    pub start_date: Date,
    pub end_date: Date,
    pub events: Vec<LocalizedEvent>,
}

/// The mathematical image of a [`DayGroup`].
pub struct SpecDayGroup {
    pub start_date: Date,
    pub end_date: Date,
    pub events: Seq<SpecLocEvent>,
}

impl View for DayGroup {
    type V = SpecDayGroup;

    open spec fn view(&self) -> SpecDayGroup {
        SpecDayGroup {
            start_date: self.start_date,
            end_date: self.end_date,
            events: self.events@.map_values(|e: LocalizedEvent| e@),
        }
    }
}

impl SpecDayGroup {
    pub open spec fn wf(self) -> bool {
        &&& self.start_date.wf()
        &&& self.end_date.wf()
        &&& forall|i: int| 0 <= i < self.events.len() ==> (#[trigger] self.events[i]).wf()
    }
}

/// One section of the rendered message.
pub struct EmbedField {
    pub name: String,
    pub value: String,
    pub inline: bool,
}

impl View for EmbedField {
    type V = (Seq<char>, Seq<char>, bool);

    open spec fn view(&self) -> (Seq<char>, Seq<char>, bool) {
        (self.name@, self.value@, self.inline)
    }
}

/// The rendered message: a title and its ordered sections.
pub struct DisplayContent {
    pub title: String,
    pub fields: Vec<EmbedField>,
}

/// The mathematical image of a [`DisplayContent`].
pub struct SpecDisplay {
    pub title: Seq<char>,
    pub fields: Seq<(Seq<char>, Seq<char>, bool)>,
}

impl View for DisplayContent {
    type V = SpecDisplay;

    open spec fn view(&self) -> SpecDisplay {
        SpecDisplay {
            title: self.title@,
            fields: self.fields@.map_values(|f: EmbedField| f@),
        }
    }
}

pub open spec fn groups_view(s: Seq<DayGroup>) -> Seq<SpecDayGroup> {
    s.map_values(|g: DayGroup| g@)
}

// --- the display window ------------------------------------------------------

/// Day number of the last date whose events are displayed: `num_of_days`
/// calendar days after today, or, when weekends are skipped, the end of a
/// window of `num_of_days` Monday-to-Friday work days.
pub open spec fn spec_window_end(today: Date, opts: CalendarOptions) -> int {
    if opts.skip_weekend {
        work_end_dn(day_number(today), opts.num_of_days as int)
    } else {
        day_number(today) + opts.num_of_days as int
    }
}

// --- localization and filtering ----------------------------------------------

/// Translate an event into the zone; an event lacking a start or an end has
/// nothing to place on the calendar and is dropped.
pub open spec fn spec_localize(e: CalendarEvent, tz: Seq<char>) -> Option<SpecLocEvent> {
    match (e.start, e.end) {
        (Some(s), Some(t)) => Some(
            SpecLocEvent {
                summary: e.summary@,
                start: local_civil(tz, s as int),
                end: local_civil(tz, t as int),
            },
        ),
        _ => None,
    }
}

/// Whether a localized event is rendered: it must not touch a weekend when
/// weekends are skipped, and its local start date must not lie past the
/// window end.
pub open spec fn spec_survives(le: SpecLocEvent, opts: CalendarOptions, wend: int) -> bool {
    &&& !(opts.skip_weekend && (is_weekend(le.start.date) || is_weekend(le.end.date)))
    &&& day_number(le.start.date) <= wend
}

// --- grouping by (start date, end date) --------------------------------------

/// Index of the first group at or after `from` keyed by this date pair, or -1.
pub open spec fn group_index(gs: Seq<SpecDayGroup>, sd: Date, ed: Date, from: int) -> int
    decreases gs.len() - from,
{
    if !(0 <= from < gs.len()) {
        -1
    } else if gs[from].start_date == sd && gs[from].end_date == ed {
        from
    } else {
        group_index(gs, sd, ed, from + 1)
    }
}

/// Append the event to its date pair's group, or open a new group at the end.
pub open spec fn spec_add_event(gs: Seq<SpecDayGroup>, le: SpecLocEvent) -> Seq<SpecDayGroup> {
    let k = group_index(gs, le.start.date, le.end.date, 0);
    if k == -1 {
        gs.push(SpecDayGroup { start_date: le.start.date, end_date: le.end.date, events: seq![le] })
    } else {
        gs.update(
            k,
            SpecDayGroup {
                start_date: gs[k].start_date,
                end_date: gs[k].end_date,
                events: gs[k].events.push(le),
            },
        )
    }
}

/// Groups formed by the first `n` events, in first-appearance order.
pub open spec fn spec_groups(
    events: Seq<CalendarEvent>,
    tz: Seq<char>,
    opts: CalendarOptions,
    wend: int,
    n: int,
) -> Seq<SpecDayGroup>
    decreases n,
{
    if n <= 0 {
        Seq::empty()
    } else {
        let prev = spec_groups(events, tz, opts, wend, n - 1);
        match spec_localize(events[n - 1], tz) {
            Some(le) => if spec_survives(le, opts, wend) {
                spec_add_event(prev, le)
            } else {
                prev
            },
            None => prev,
        }
    }
}

// --- synthesis of empty days -------------------------------------------------

/// Index of the first group at or after `from` that touches the date: its
/// start or its end falls on it. A date some group touches is already
/// rendered under that group's header and gets no synthetic entry.
pub open spec fn group_touch_index(gs: Seq<SpecDayGroup>, d: Date, from: int) -> int
    decreases gs.len() - from,
{
    if !(0 <= from < gs.len()) {
        -1
    } else if gs[from].start_date == d || gs[from].end_date == d {
        from
    } else {
        group_touch_index(gs, d, from + 1)
    }
}

/// Add an empty group for the date unless some group already touches it.
pub open spec fn spec_add_empty_day(gs: Seq<SpecDayGroup>, d: Date) -> Seq<SpecDayGroup> {
    if group_touch_index(gs, d, 0) == -1 {
        gs.push(SpecDayGroup { start_date: d, end_date: d, events: Seq::empty() })
    } else {
        gs
    }
}

/// Walk the first `i` dates of the window, skipping weekend dates when asked,
/// and give each remaining date an entry.
pub open spec fn spec_synthesize(
    gs: Seq<SpecDayGroup>,
    today: Date,
    opts: CalendarOptions,
    i: int,
) -> Seq<SpecDayGroup>
    decreases i,
{
    if i <= 0 {
        gs
    } else {
        let prev = spec_synthesize(gs, today, opts, i - 1);
        let d = spec_add_days(today, i - 1);
        if opts.skip_weekend && is_weekend(d) {
            prev
        } else {
            spec_add_empty_day(prev, d)
        }
    }
}

/// How many dates the synthesis walks: every date from today through the
/// window end, and none when date headers for empty days are not wanted.
pub open spec fn spec_synth_count(today: Date, opts: CalendarOptions, wend: int) -> int {
    if opts.show_if_no_events {
        wend - day_number(today) + 1
    } else {
        0
    }
}

// --- sorting groups by date pair ---------------------------------------------

pub open spec fn date_lt(a: Date, b: Date) -> bool {
    ||| a.year < b.year
    ||| (a.year == b.year && a.month < b.month)
    ||| (a.year == b.year && a.month == b.month && a.day < b.day)
}

/// The group order: lexicographic over (start date, end date), dates compared
/// chronologically.
pub open spec fn key_le(a: SpecDayGroup, b: SpecDayGroup) -> bool {
    ||| date_lt(a.start_date, b.start_date)
    ||| (a.start_date == b.start_date && (date_lt(a.end_date, b.end_date) || a.end_date
        == b.end_date))
}

/// Insert after every group that is less than or equal, keeping insertion
/// stable.
pub open spec fn spec_insert_sorted(sorted: Seq<SpecDayGroup>, g: SpecDayGroup) -> Seq<
    SpecDayGroup,
>
    decreases sorted.len(),
{
    if sorted.len() == 0 {
        seq![g]
    } else if key_le(sorted[0], g) {
        seq![sorted[0]] + spec_insert_sorted(sorted.drop_first(), g)
    } else {
        seq![g] + sorted
    }
}

pub open spec fn spec_sort(gs: Seq<SpecDayGroup>) -> Seq<SpecDayGroup>
    decreases gs.len(),
{
    if gs.len() == 0 {
        Seq::empty()
    } else {
        spec_insert_sorted(spec_sort(gs.drop_last()), gs.last())
    }
}

// --- emission ----------------------------------------------------------------

/// One listing line: local start and end time and the event's summary.
pub open spec fn spec_line(le: SpecLocEvent) -> Seq<char> {
    time_hm(le.start.hour as int, le.start.minute as int) + " - "@ + time_hm(
        le.end.hour as int,
        le.end.minute as int,
    ) + " | "@ + le.summary + "\n"@
}

pub open spec fn spec_lines(events: Seq<SpecLocEvent>, n: int) -> Seq<char>
    decreases n,
{
    if n <= 0 {
        Seq::empty()
    } else {
        spec_lines(events, n - 1) + spec_line(events[n - 1])
    }
}

/// A group's body: its lines, or a placeholder when the group is empty.
pub open spec fn spec_body(events: Seq<SpecLocEvent>) -> Seq<char> {
    if events.len() == 0 {
        "No events"@
    } else {
        spec_lines(events, events.len() as int)
    }
}

/// A group's header: the long weekday form while start, end and the current
/// UTC year agree, the ISO form otherwise; a group spanning two dates names
/// both.
pub open spec fn spec_header(g: SpecDayGroup, now_year: int) -> Seq<char> {
    let use_iso = g.start_date.year != g.end_date.year || g.start_date.year as int != now_year;
    let first = if use_iso {
        iso_date(g.start_date)
    } else {
        long_date(g.start_date)
    };
    if iso_date(g.start_date) != iso_date(g.end_date) {
        first + " // "@ + (if use_iso {
            iso_date(g.end_date)
        } else {
            long_date(g.end_date)
        })
    } else {
        first
    }
}

/// Fields and covered dates after emitting the first `n` groups. A date is
/// rendered at most once: an empty synthesized group whose date was already
/// covered is dropped.
pub open spec fn spec_emit(
    gs: Seq<SpecDayGroup>,
    opts: CalendarOptions,
    now_year: int,
    n: int,
) -> (Seq<(Seq<char>, Seq<char>, bool)>, Seq<Date>)
    decreases n,
{
    if n <= 0 {
        (Seq::empty(), Seq::empty())
    } else {
        let prev = spec_emit(gs, opts, now_year, n - 1);
        let g = gs[n - 1];
        if opts.show_if_no_events && g.events.len() == 0 && (prev.1.contains(g.start_date)
            || prev.1.contains(g.end_date)) {
            prev
        } else {
            let passed = if g.start_date == g.end_date {
                prev.1.push(g.start_date)
            } else {
                prev.1.push(g.start_date).push(g.end_date)
            };
            (
                prev.0.push(
                    (spec_header(g, now_year), "```"@ + spec_body(g.events) + "```"@, false),
                ),
                passed,
            )
        }
    }
}

/// The whole engine as a function of the event list, the options and one
/// instant: the instant fixes today's date in the target zone and the
/// current UTC year.
pub open spec fn spec_render(
    events: Seq<CalendarEvent>,
    opts: CalendarOptions,
    now_ms: int,
) -> SpecDisplay {
    let tz = opts.timezone@;
    let today = local_civil(tz, now_ms).date;
    let now_year = local_civil("UTC"@, now_ms).date.year as int;
    let wend = spec_window_end(today, opts);
    let grouped = spec_groups(events, tz, opts, wend, events.len() as int);
    let synthesized = spec_synthesize(grouped, today, opts, spec_synth_count(today, opts, wend));
    let sorted = spec_sort(synthesized);
    SpecDisplay {
        title: "Events"@,
        fields: spec_emit(sorted, opts, now_year, sorted.len() as int).0,
    }
}

// --- well-formedness through the stages ----------------------------------------

pub open spec fn all_groups_wf(gs: Seq<SpecDayGroup>) -> bool {
    forall|i: int| 0 <= i < gs.len() ==> (#[trigger] gs[i]).wf()
}

pub proof fn lemma_group_index_properties(gs: Seq<SpecDayGroup>, sd: Date, ed: Date, from: int)
    requires
        0 <= from,
    ensures
        group_index(gs, sd, ed, from) == -1 ==> (forall|j: int|
            from <= j < gs.len() ==> !(gs[j].start_date == sd && gs[j].end_date == ed)),
        group_index(gs, sd, ed, from) != -1 ==> {
            let k = group_index(gs, sd, ed, from);
            &&& from <= k < gs.len()
            &&& gs[k].start_date == sd && gs[k].end_date == ed
            &&& forall|j: int| from <= j < k ==> !(gs[j].start_date == sd && gs[j].end_date == ed)
        },
    decreases gs.len() - from,
{
    if 0 <= from < gs.len() && !(gs[from].start_date == sd && gs[from].end_date == ed) {
        lemma_group_index_properties(gs, sd, ed, from + 1);
    }
}

proof fn lemma_add_event_wf(gs: Seq<SpecDayGroup>, le: SpecLocEvent)
    requires
        all_groups_wf(gs),
        le.wf(),
    ensures
        all_groups_wf(spec_add_event(gs, le)),
{
    lemma_group_index_properties(gs, le.start.date, le.end.date, 0);
    let r = spec_add_event(gs, le);
    assert forall|i: int| 0 <= i < r.len() implies (#[trigger] r[i]).wf() by {
        let k = group_index(gs, le.start.date, le.end.date, 0);
        if k == -1 {
            if i < gs.len() {
                assert(r[i] == gs[i]);
            }
        } else {
            if i != k {
                assert(r[i] == gs[i]);
            } else {
                assert(gs[k].wf());
            }
        }
    }
}

proof fn lemma_add_empty_day_wf(gs: Seq<SpecDayGroup>, d: Date)
    requires
        all_groups_wf(gs),
        d.wf(),
    ensures
        all_groups_wf(spec_add_empty_day(gs, d)),
{
    let r = spec_add_empty_day(gs, d);
    assert forall|i: int| 0 <= i < r.len() implies (#[trigger] r[i]).wf() by {
        if group_touch_index(gs, d, 0) == -1 && i == gs.len() {
        } else {
            assert(r[i] == gs[i]);
        }
    }
}

proof fn lemma_insert_sorted_wf(s: Seq<SpecDayGroup>, g: SpecDayGroup)
    requires
        all_groups_wf(s),
        g.wf(),
    ensures
        all_groups_wf(spec_insert_sorted(s, g)),
    decreases s.len(),
{
    if s.len() == 0 {
    } else if key_le(s[0], g) {
        assert(all_groups_wf(s.drop_first()));
        lemma_insert_sorted_wf(s.drop_first(), g);
        let r = spec_insert_sorted(s, g);
        assert forall|i: int| 0 <= i < r.len() implies (#[trigger] r[i]).wf() by {
            if i > 0 {
                assert(r[i] == spec_insert_sorted(s.drop_first(), g)[i - 1]);
            }
        }
    }
}

proof fn lemma_sort_wf(gs: Seq<SpecDayGroup>)
    requires
        all_groups_wf(gs),
    ensures
        all_groups_wf(spec_sort(gs)),
    decreases gs.len(),
{
    if gs.len() > 0 {
        assert(all_groups_wf(gs.drop_last()));
        lemma_sort_wf(gs.drop_last());
        lemma_insert_sorted_wf(spec_sort(gs.drop_last()), gs.last());
    }
}

// --- executable stages ---------------------------------------------------------

fn find_group(groups: &Vec<DayGroup>, sd: &Date, ed: &Date) -> (r: Option<usize>)
    ensures
        match r {
            Some(i) => i as int == group_index(groups_view(groups@), *sd, *ed, 0) && (i as int)
                < groups@.len(),
            None => group_index(groups_view(groups@), *sd, *ed, 0) == -1,
        },
{
    let mut i: usize = 0;
    while i < groups.len()
        invariant
            0 <= i <= groups@.len(),
            group_index(groups_view(groups@), *sd, *ed, 0) == group_index(
                groups_view(groups@),
                *sd,
                *ed,
                i as int,
            ),
        decreases groups@.len() - i,
    {
        proof {
            assert(groups_view(groups@)[i as int] == groups@[i as int]@);
        }
        if groups[i].start_date == *sd && groups[i].end_date == *ed {
            return Some(i);
        }
        i = i + 1;
    }
    None
}

fn add_event(groups: &mut Vec<DayGroup>, le: LocalizedEvent)
    ensures
        groups_view(final(groups)@) == spec_add_event(groups_view(old(groups)@), le@),
{
    let ghost gv = groups_view(old(groups)@);
    let ghost lev = le@;
    let sd: Date = le.start.date;
    let ed: Date = le.end.date;
    match find_group(groups, &sd, &ed) {
        Some(k) => {
            proof {
                lemma_group_index_properties(gv, sd, ed, 0);
            }
            let mut g = groups.remove(k);
            g.events.push(le);
            groups.insert(k, g);
            proof {
                let newv = groups_view(groups@);
                let target = spec_add_event(gv, lev);
                assert(groups@ =~= old(groups)@.update(
                    k as int,
                    groups@[k as int],
                ));
                assert(groups@[k as int].events@ =~= old(groups)@[k as int].events@.push(le));
                assert(groups@[k as int]@.events =~= gv[k as int].events.push(lev));
                assert(groups@[k as int]@ == target[k as int]);
                assert(newv =~= target);
            }
        },
        None => {
            let mut evs: Vec<LocalizedEvent> = Vec::new();
            evs.push(le);
            proof {
                assert(evs@.map_values(|e: LocalizedEvent| e@) =~= seq![lev]);
            }
            groups.push(DayGroup { start_date: sd, end_date: ed, events: evs });
            proof {
                assert(groups_view(groups@) =~= spec_add_event(gv, lev));
            }
        },
    }
}

fn find_touching_group(groups: &Vec<DayGroup>, d: &Date) -> (r: Option<usize>)
    ensures
        match r {
            Some(i) => i as int == group_touch_index(groups_view(groups@), *d, 0) && (i as int)
                < groups@.len(),
            None => group_touch_index(groups_view(groups@), *d, 0) == -1,
        },
{
    let mut i: usize = 0;
    while i < groups.len()
        invariant
            0 <= i <= groups@.len(),
            group_touch_index(groups_view(groups@), *d, 0) == group_touch_index(
                groups_view(groups@),
                *d,
                i as int,
            ),
        decreases groups@.len() - i,
    {
        proof {
            assert(groups_view(groups@)[i as int] == groups@[i as int]@);
        }
        if groups[i].start_date == *d || groups[i].end_date == *d {
            return Some(i);
        }
        i = i + 1;
    }
    None
}

fn date_lt_exec(a: &Date, b: &Date) -> (r: bool)
    ensures
        r == date_lt(*a, *b),
{
    a.year < b.year || (a.year == b.year && a.month < b.month) || (a.year == b.year && a.month
        == b.month && a.day < b.day)
}

fn group_key_le(a: &DayGroup, b: &DayGroup) -> (r: bool)
    ensures
        r == key_le(a@, b@),
{
    date_lt_exec(&a.start_date, &b.start_date) || (a.start_date == b.start_date && (date_lt_exec(
        &a.end_date,
        &b.end_date,
    ) || a.end_date == b.end_date))
}

proof fn lemma_insert_sorted_at(s: Seq<SpecDayGroup>, g: SpecDayGroup, pos: int)
    requires
        0 <= pos <= s.len(),
        forall|j: int| 0 <= j < pos ==> key_le(s[j], g),
        pos < s.len() ==> !key_le(s[pos], g),
    ensures
        spec_insert_sorted(s, g) =~= s.subrange(0, pos) + seq![g] + s.subrange(
            pos,
            s.len() as int,
        ),
    decreases s.len(),
{
    if s.len() == 0 {
    } else if pos == 0 {
        assert(!key_le(s[0], g));
        assert(s.subrange(0, 0) + seq![g] + s.subrange(0, s.len() as int) =~= seq![g] + s);
    } else {
        assert(key_le(s[0], g));
        let t = s.drop_first();
        assert(forall|j: int| 0 <= j < pos - 1 ==> key_le(#[trigger] t[j], g));
        lemma_insert_sorted_at(t, g, pos - 1);
        assert(spec_insert_sorted(s, g) =~= seq![s[0]] + spec_insert_sorted(t, g));
        assert(seq![s[0]] + (t.subrange(0, pos - 1) + seq![g] + t.subrange(
            pos - 1,
            t.len() as int,
        )) =~= s.subrange(0, pos) + seq![g] + s.subrange(pos, s.len() as int));
    }
}

fn insert_into_sorted(sorted: &mut Vec<DayGroup>, g: DayGroup)
    ensures
        groups_view(final(sorted)@) == spec_insert_sorted(groups_view(old(sorted)@), g@),
{
    let ghost sv = groups_view(old(sorted)@);
    let mut pos: usize = 0;
    while pos < sorted.len()
        invariant
            0 <= pos <= sorted@.len(),
            sorted@ == old(sorted)@,
            sv == groups_view(sorted@),
            forall|j: int| 0 <= j < pos ==> key_le(#[trigger] sv[j], g@),
        ensures
            0 <= pos <= sorted@.len(),
            sorted@ == old(sorted)@,
            sv == groups_view(sorted@),
            forall|j: int| 0 <= j < pos ==> key_le(#[trigger] sv[j], g@),
            pos as int == sorted@.len() || !key_le(sv[pos as int], g@),
        decreases sorted@.len() - pos,
    {
        proof {
            assert(sv[pos as int] == sorted@[pos as int]@);
        }
        if !group_key_le(&sorted[pos], &g) {
            break;
        }
        pos = pos + 1;
    }
    proof {
        lemma_insert_sorted_at(sv, g@, pos as int);
    }
    sorted.insert(pos, g);
    proof {
        assert(groups_view(sorted@) =~= sv.subrange(0, pos as int) + seq![g@] + sv.subrange(
            pos as int,
            sv.len() as int,
        ));
    }
}

fn sort_groups(groups: Vec<DayGroup>) -> (r: Vec<DayGroup>)
    ensures
        groups_view(r@) == spec_sort(groups_view(groups@)),
{
    let ghost orig = groups_view(groups@);
    let mut rest = groups;
    let mut sorted: Vec<DayGroup> = Vec::new();
    proof {
        assert(groups_view(rest@) =~= orig.subrange(0, orig.len() as int));
        assert(groups_view(sorted@) =~= spec_sort(orig.subrange(0, 0)));
    }
    while rest.len() > 0
        invariant
            rest@.len() <= orig.len(),
            groups_view(rest@) =~= orig.subrange(
                orig.len() - rest@.len(),
                orig.len() as int,
            ),
            groups_view(sorted@) == spec_sort(orig.subrange(0, orig.len() - rest@.len())),
        decreases rest@.len(),
    {
        let ghost k = orig.len() - rest@.len();
        let ghost pre = rest@;
        let g = rest.remove(0);
        proof {
            assert(groups_view(pre)[0] == pre[0]@);
            assert(groups_view(pre)[0] == orig.subrange(k as int, orig.len() as int)[0]);
            assert(g@ == orig[k as int]);
            assert(rest@ =~= pre.drop_first());
            assert(groups_view(rest@) =~= groups_view(pre).drop_first());
            assert(groups_view(rest@) =~= orig.subrange(k as int + 1, orig.len() as int));
        }
        insert_into_sorted(&mut sorted, g);
        proof {
            let prefix = orig.subrange(0, k as int);
            let prefix1 = orig.subrange(0, k as int + 1);
            assert(prefix1.drop_last() =~= prefix);
            assert(prefix1.last() == orig[k as int]);
            assert(spec_sort(prefix1) == spec_insert_sorted(spec_sort(prefix), orig[k as int]));
        }
    }
    proof {
        assert(orig.subrange(0, orig.len() as int) =~= orig);
    }
    sorted
}

fn dates_contains(v: &Vec<Date>, d: &Date) -> (r: bool)
    ensures
        r == v@.contains(*d),
{
    let mut i: usize = 0;
    while i < v.len()
        invariant
            0 <= i <= v@.len(),
            forall|j: int| 0 <= j < i ==> v@[j] != *d,
        decreases v@.len() - i,
    {
        if v[i] == *d {
            proof {
                assert(v@[i as int] == *d);
            }
            return true;
        }
        i = i + 1;
    }
    proof {
        assert(!v@.contains(*d));
    }
    false
}

/// Format one group's body, fenced as the message shows it.
fn render_body(g: &DayGroup) -> (r: String)
    requires
        g@.wf(),
    ensures
        r@ == "```"@ + spec_body(g@.events) + "```"@,
{
    let mut v = String::from_str("```");
    if g.events.len() == 0 {
        v.append("No events");
        proof {
            assert(g@.events.len() == 0);
            assert(v@ =~= "```"@ + spec_body(g@.events));
        }
    } else {
        let mut j: usize = 0;
        while j < g.events.len()
            invariant
                0 <= j <= g.events@.len(),
                g@.wf(),
                g@.events.len() == g.events@.len(),
                v@ == "```"@ + spec_lines(g@.events, j as int),
            decreases g.events@.len() - j,
        {
            proof {
                assert(g@.events[j as int] == g.events@[j as int]@);
                assert(g@.events[j as int].wf());
            }
            let e = &g.events[j];
            push_time_hm(&mut v, e.start.hour, e.start.minute);
            v.append(" - ");
            push_time_hm(&mut v, e.end.hour, e.end.minute);
            v.append(" | ");
            v.append(e.summary.as_str());
            v.append("\n");
            proof {
                assert(v@ =~= "```"@ + spec_lines(g@.events, j as int + 1));
            }
            j = j + 1;
        }
        proof {
            assert(g@.events.len() != 0);
            assert(v@ == "```"@ + spec_body(g@.events));
        }
    }
    v.append("```");
    v
}

/// Format one group's header.
fn render_header(g: &DayGroup, now_year: i32) -> (r: String)
    requires
        g@.start_date.wf(),
        g@.end_date.wf(),
    ensures
        r@ == spec_header(g@, now_year as int),
{
    let mut iso_s = String::new();
    push_iso_date(&mut iso_s, &g.start_date);
    let mut iso_e = String::new();
    push_iso_date(&mut iso_e, &g.end_date);
    let use_iso: bool = g.start_date.year != g.end_date.year || g.start_date.year != now_year;
    let mut first = String::new();
    if use_iso {
        push_iso_date(&mut first, &g.start_date);
    } else {
        push_long_date(&mut first, &g.start_date);
    }
    if !(iso_s == iso_e) {
        first.append(" // ");
        if use_iso {
            push_iso_date(&mut first, &g.end_date);
        } else {
            push_long_date(&mut first, &g.end_date);
        }
    }
    first
}

pub open spec fn fields_view(s: Seq<EmbedField>) -> Seq<(Seq<char>, Seq<char>, bool)> {
    s.map_values(|f: EmbedField| f@)
}

/// Render an event list into the display content of one channel message, as
/// read at the instant `now_ms` (Unix milliseconds). Pure: the result is a
/// function of the three arguments alone.
pub fn to_embed(events: Vec<CalendarEvent>, options: CalendarOptions, now_ms: i64) -> (r:
    DisplayContent)
    requires
        forall|i: int| 0 <= i < events@.len() ==> (#[trigger] events@[i]).wf(),
        0 <= options.num_of_days <= 400_000,
        MIN_TIMESTAMP_MS <= now_ms <= MAX_TIMESTAMP_MS,
    ensures
        r@ == spec_render(events@, options, now_ms as int),
{
    let ghost tz = options.timezone@;
    let today_ldt: LocalDateTime = civil_in_zone(options.timezone.as_str(), now_ms);
    let today: Date = today_ldt.date;
    let now_year: i32 = civil_in_zone("UTC", now_ms).date.year;
    let today_dn: i64 = exec_day_number(&today);
    proof {
        lemma_day_number_bounds(today);
        lemma_work_end_bounds(today_dn as int, options.num_of_days as int);
    }
    let wend: i64 = if options.skip_weekend {
        let delta = work_window_delta_local(&today, options.num_of_days as i64);
        today_dn + delta
    } else {
        today_dn + options.num_of_days as i64
    };
    proof {
        assert(wend as int == spec_window_end(today, options));
    }

    // Localize, filter and group the events.
    let mut groups: Vec<DayGroup> = Vec::new();
    let mut i: usize = 0;
    proof {
        assert(groups_view(groups@) =~= spec_groups(events@, tz, options, wend as int, 0));
    }
    while i < events.len()
        invariant
            0 <= i <= events@.len(),
            forall|k: int| 0 <= k < events@.len() ==> (#[trigger] events@[k]).wf(),
            groups_view(groups@) == spec_groups(events@, tz, options, wend as int, i as int),
            all_groups_wf(groups_view(groups@)),
            tz == options.timezone@,
        decreases events@.len() - i,
    {
        let e = &events[i];
        let ghost prev = groups_view(groups@);
        match (e.start, e.end) {
            (Some(s), Some(t)) => {
                proof {
                    assert(events@[i as int].wf());
                }
                let sl: LocalDateTime = civil_in_zone(options.timezone.as_str(), s);
                let el: LocalDateTime = civil_in_zone(options.timezone.as_str(), t);
                let keep: bool = if options.skip_weekend && (exec_is_weekend(&sl.date)
                    || exec_is_weekend(&el.date)) {
                    false
                } else {
                    exec_day_number(&sl.date) <= wend
                };
                let ghost lev = spec_localize(events@[i as int], tz).unwrap();
                proof {
                    assert(keep == spec_survives(lev, options, wend as int));
                }
                if keep {
                    let le = LocalizedEvent { summary: e.summary.clone(), start: sl, end: el };
                    proof {
                        assert(le@ == lev);
                        lemma_add_event_wf(prev, lev);
                    }
                    add_event(&mut groups, le);
                }
            },
            _ => {},
        }
        i = i + 1;
    }

    // Give every uncovered date of the window its own (empty) entry.
    if options.show_if_no_events {
        let ghost base = groups_view(groups@);
        let count: i64 = wend - today_dn + 1;
        proof {
            assert(count as int == spec_synth_count(today, options, wend as int));
            assert(count <= 1_300_000);
        }
        let mut d: Date = today;
        let mut step: i64 = 0;
        while step < count
            invariant
                0 <= step,
                step <= count || count < 0,
                count <= 1_300_000,
                today.wf(),
                today.year <= 9999,
                d == spec_add_days(today, step as int),
                d.wf(),
                d.year <= 9999 + step,
                groups_view(groups@) == spec_synthesize(base, today, options, step as int),
                all_groups_wf(groups_view(groups@)),
            decreases count - step,
        {
            let ghost prev = groups_view(groups@);
            if !(options.skip_weekend && exec_is_weekend(&d)) {
                match find_touching_group(&groups, &d) {
                    Some(idx) => {
                        proof {
                            assert(group_touch_index(prev, d, 0) == idx as int);
                            assert(groups_view(groups@) =~= spec_add_empty_day(prev, d));
                        }
                    },
                    None => {
                        let evs: Vec<LocalizedEvent> = Vec::new();
                        proof {
                            assert(evs@.map_values(|e: LocalizedEvent| e@)
                                =~= Seq::<SpecLocEvent>::empty());
                        }
                        groups.push(DayGroup { start_date: d, end_date: d, events: evs });
                        proof {
                            assert(groups_view(groups@) =~~= spec_add_empty_day(prev, d));
                            lemma_add_empty_day_wf(prev, d);
                        }
                    },
                }
            }
            proof {
                lemma_add_days_unfold_right(today, step as int + 1);
            }
            d = next_day(&d);
            step = step + 1;
        }
    }
    proof {
        assert(groups_view(groups@) == spec_synthesize(
            spec_groups(events@, tz, options, wend as int, events@.len() as int),
            today,
            options,
            spec_synth_count(today, options, wend as int),
        ));
    }

    // Order the groups by their date pair.
    let ghost presort = groups_view(groups@);
    let sorted: Vec<DayGroup> = sort_groups(groups);
    proof {
        lemma_sort_wf(presort);
    }
    let ghost sorted_v = groups_view(sorted@);

    // Emit one header and body per group, covering each date once.
    let mut fields: Vec<EmbedField> = Vec::new();
    let mut passed: Vec<Date> = Vec::new();
    let mut n: usize = 0;
    proof {
        assert(fields_view(fields@) =~= spec_emit(sorted_v, options, now_year as int, 0).0);
        assert(passed@ =~= spec_emit(sorted_v, options, now_year as int, 0).1);
    }
    while n < sorted.len()
        invariant
            0 <= n <= sorted@.len(),
            sorted_v == groups_view(sorted@),
            all_groups_wf(sorted_v),
            fields_view(fields@) == spec_emit(sorted_v, options, now_year as int, n as int).0,
            passed@ == spec_emit(sorted_v, options, now_year as int, n as int).1,
        decreases sorted@.len() - n,
    {
        proof {
            assert(sorted_v[n as int] == sorted@[n as int]@);
            assert(sorted_v[n as int].wf());
        }
        let g = &sorted[n];
        let skip: bool = options.show_if_no_events && g.events.len() == 0 && (dates_contains(
            &passed,
            &g.start_date,
        ) || dates_contains(&passed, &g.end_date));
        if !skip {
            passed.push(g.start_date);
            if !(g.start_date == g.end_date) {
                passed.push(g.end_date);
            }
            let name = render_header(g, now_year);
            let value = render_body(g);
            fields.push(EmbedField { name, value, inline: false });
            proof {
                assert(fields_view(fields@) =~= spec_emit(
                    sorted_v,
                    options,
                    now_year as int,
                    n as int + 1,
                ).0);
                assert(passed@ =~= spec_emit(sorted_v, options, now_year as int, n as int + 1).1);
            }
        }
        n = n + 1;
    }
    let title = String::from_str("Events");
    let r = DisplayContent { title, fields };
    proof {
        assert(r@.fields =~= spec_render(events@, options, now_ms as int).fields);
        assert(r@ == spec_render(events@, options, now_ms as int));
    }
    r
}

/// Compute the work-day window span from today.
fn work_window_delta_local(today: &Date, n: i64) -> (delta: i64)
    requires
        today.wf(),
        today.year <= 9999,
        0 <= n <= 400_000,
    ensures
        day_number(*today) + delta == work_end_dn(day_number(*today), n as int),
        0 <= delta <= 3 * n,
{
    let delta = crate::tz::work_window_delta(today, n);
    proof {
        lemma_work_end_bounds(day_number(*today), n as int);
    }
    delta
}

} // verus!
