//! The poll sweep's per-calendar planning: decide who participates this
//! cycle, resolve and deduplicate rendering options, and emit one update
//! task per options class, in a deterministic order.
use vstd::prelude::*;
use core::cmp::Ordering;

use crate::calendar::{
    CalendarEvent, CalendarOptions, spec_event_eq, spec_options_eq, spec_options_cmp,
};
use crate::diff::spec_lists_match;
use crate::events::UpdateCalendarEvent;
use crate::models::GuildCalendar;
use crate::parse::{parse_u64, spec_parse_u64};
use crate::tz::tz_canon;

verus! {

/// The composite key of a subscription row.
pub struct SubscriptionKey {
    pub guild_id: i32,
    pub calendar_id: i32,
    pub channel_id: String,
}

/// What one poll cycle decided for one calendar that needs an update.
pub struct SyncPlan {
    /// Whether this cycle was triggered by force-update flags.
    pub forced: bool,
    /// One update task per distinct rendering options among the
    /// participating subscriptions.
    pub tasks: Vec<UpdateCalendarEvent>,
    /// The subscriptions whose force-update flag this cycle honors; the
    /// flag is cleared for exactly these once the tasks are handed over.
    pub clear_force_update: Vec<SubscriptionKey>,
}

pub open spec fn spec_any_force(gcs: Seq<GuildCalendar>) -> bool {
    exists|i: int| 0 <= i < gcs.len() && (#[trigger] gcs[i]).forceUpdate
}

pub open spec fn spec_message_id(gc: GuildCalendar) -> Option<u64> {
    match gc.messageId {
        Some(m) => spec_parse_u64(m@),
        None => None,
    }
}

/// The (channel id, last-known message id) pair a subscription contributes.
pub open spec fn spec_channel_pair(gc: GuildCalendar) -> (u64, Option<u64>) {
    (spec_parse_u64(gc.channelId@).unwrap(), spec_message_id(gc))
}

/// Whether the subscription takes part in this cycle: when the cycle was
/// forced, only the force-flagged subscriptions do.
pub open spec fn spec_participates(gc: GuildCalendar, forced: bool) -> bool {
    forced ==> gc.forceUpdate
}

/// A participating subscription that can actually be served: its channel id
/// parses and its timezone names a zone.
pub open spec fn spec_deliverable(gc: GuildCalendar, forced: bool) -> bool {
    &&& spec_participates(gc, forced)
    &&& spec_parse_u64(gc.channelId@) is Some
    &&& tz_canon(gc.timezone@) is Some
}

/// The options a subscription resolves to.
pub open spec fn spec_options_for(gc: GuildCalendar, o: CalendarOptions) -> bool {
    &&& tz_canon(gc.timezone@) == Some(o.timezone@)
    &&& o.num_of_days == gc.nbDisplayedDays
    &&& o.skip_weekend == gc.skipWeekend
    &&& o.show_if_no_events == !gc.skipEmptyDays
}

/// Two subscriptions whose stored configurations resolve to field-wise
/// equal rendering options.
pub open spec fn spec_same_options(a: GuildCalendar, b: GuildCalendar) -> bool {
    &&& tz_canon(a.timezone@) == tz_canon(b.timezone@)
    &&& a.nbDisplayedDays == b.nbDisplayedDays
    &&& a.skipWeekend == b.skipWeekend
    &&& a.skipEmptyDays == b.skipEmptyDays
}

pub open spec fn spec_key_for(k: SubscriptionKey, gc: GuildCalendar) -> bool {
    &&& k.guild_id == gc.guild_id
    &&& k.calendar_id == gc.calendar_id
    &&& k.channel_id@ == gc.channelId@
}

// Group lists are viewed as sequences of (options, recipient pairs).
pub open spec fn groups_seq_view(s: Seq<(CalendarOptions, Vec<(u64, Option<u64>)>)>) -> Seq<
    (CalendarOptions, Seq<(u64, Option<u64>)>),
> {
    s.map_values(|e: (CalendarOptions, Vec<(u64, Option<u64>)>)| (e.0, e.1@))
}

/// The recipient pair at (g, p) stems from a deliverable subscription that
/// resolves to the group's options.
pub open spec fn spec_pair_origin(
    groups: Seq<(CalendarOptions, Seq<(u64, Option<u64>)>)>,
    gcs: Seq<GuildCalendar>,
    forced: bool,
    g: int,
    p: int,
) -> bool {
    exists|k: int|
        0 <= k < gcs.len() && spec_deliverable(#[trigger] gcs[k], forced) && spec_options_for(
            gcs[k],
            groups[g].0,
        ) && groups[g].1[p] == spec_channel_pair(gcs[k])
}

pub open spec fn spec_groups_sound(
    groups: Seq<(CalendarOptions, Seq<(u64, Option<u64>)>)>,
    gcs: Seq<GuildCalendar>,
    forced: bool,
) -> bool {
    forall|g: int, p: int|
        0 <= g < groups.len() && 0 <= p < groups[g].1.len() ==> #[trigger] spec_pair_origin(
            groups,
            gcs,
            forced,
            g,
            p,
        )
}

/// Subscription `k` is served: some group resolves to its options and lists
/// its pair.
pub open spec fn spec_covered(
    groups: Seq<(CalendarOptions, Seq<(u64, Option<u64>)>)>,
    gcs: Seq<GuildCalendar>,
    k: int,
) -> bool {
    exists|g: int|
        0 <= g < groups.len() && spec_options_for(gcs[k], (#[trigger] groups[g]).0)
            && groups[g].1.contains(spec_channel_pair(gcs[k]))
}

pub open spec fn spec_groups_complete(
    groups: Seq<(CalendarOptions, Seq<(u64, Option<u64>)>)>,
    gcs: Seq<GuildCalendar>,
    forced: bool,
    upto: int,
) -> bool {
    forall|k: int|
        0 <= k < upto && spec_deliverable(#[trigger] gcs[k], forced) ==> spec_covered(
            groups,
            gcs,
            k,
        )
}

/// Key `j` names a subscription that is force-flagged and served this cycle
/// (deliverable: it participates, its channel id parses, its timezone names
/// a zone). A flag is never cleared for a subscription that received no
/// update task.
pub open spec fn spec_key_origin(
    keys: Seq<SubscriptionKey>,
    gcs: Seq<GuildCalendar>,
    forced: bool,
    j: int,
) -> bool {
    exists|m: int|
        0 <= m < gcs.len() && (#[trigger] gcs[m]).forceUpdate && spec_deliverable(gcs[m], forced)
            && spec_key_for(keys[j], gcs[m])
}

pub open spec fn spec_keys_sound(
    keys: Seq<SubscriptionKey>,
    gcs: Seq<GuildCalendar>,
    forced: bool,
) -> bool {
    forall|j: int| 0 <= j < keys.len() ==> #[trigger] spec_key_origin(keys, gcs, forced, j)
}

/// Subscription `m` has a key listed for it.
pub open spec fn spec_key_listed(keys: Seq<SubscriptionKey>, gc: GuildCalendar) -> bool {
    exists|j: int| 0 <= j < keys.len() && spec_key_for(#[trigger] keys[j], gc)
}

pub open spec fn spec_keys_complete(
    keys: Seq<SubscriptionKey>,
    gcs: Seq<GuildCalendar>,
    forced: bool,
    upto: int,
) -> bool {
    forall|m: int|
        0 <= m < upto && (#[trigger] gcs[m]).forceUpdate && spec_deliverable(gcs[m], forced)
            ==> spec_key_listed(keys, gcs[m])
}

/// The grouping a plan's tasks carry, read back from the tasks.
pub open spec fn spec_plan_groups(plan: SyncPlan) -> Seq<
    (CalendarOptions, Seq<(u64, Option<u64>)>),
> {
    plan.tasks@.map_values(
        |t: UpdateCalendarEvent| (t.calendar_options, t.discord_channel_and_message_ids@),
    )
}

fn any_force_update(gcs: &Vec<GuildCalendar>) -> (r: bool)
    ensures
        r == spec_any_force(gcs@),
{
    let mut i: usize = 0;
    while i < gcs.len()
        invariant
            0 <= i <= gcs@.len(),
            forall|j: int| 0 <= j < i ==> !(#[trigger] gcs@[j]).forceUpdate,
        decreases gcs@.len() - i,
    {
        if gcs[i].forceUpdate {
            return true;
        }
        i = i + 1;
    }
    false
}

/// Copy an event list; the copy agrees with its source position by position
/// on every field change detection and rendering read.
fn clone_events(v: &Vec<CalendarEvent>) -> (r: Vec<CalendarEvent>)
    ensures
        spec_lists_match(r@, v@),
{
    let mut r: Vec<CalendarEvent> = Vec::new();
    let mut i: usize = 0;
    while i < v.len()
        invariant
            0 <= i <= v@.len(),
            r@.len() == i,
            forall|j: int| 0 <= j < i ==> spec_event_eq(#[trigger] r@[j], v@[j]),
        decreases v@.len() - i,
    {
        let e = &v[i];
        r.push(
            CalendarEvent {
                id: e.id.clone(),
                summary: e.summary.clone(),
                description: e.description.clone(),
                start: e.start,
                end: e.end,
                event_source: e.event_source,
            },
        );
        i = i + 1;
    }
    r
}

fn find_options_group(
    groups: &Vec<(CalendarOptions, Vec<(u64, Option<u64>)>)>,
    o: &CalendarOptions,
) -> (r: Option<usize>)
    ensures
        match r {
            Some(i) => (i as int) < groups@.len() && spec_options_eq(groups@[i as int].0, *o),
            None => forall|j: int|
                0 <= j < groups@.len() ==> !spec_options_eq((#[trigger] groups@[j]).0, *o),
        },
{
    let mut i: usize = 0;
    while i < groups.len()
        invariant
            0 <= i <= groups@.len(),
            forall|j: int| 0 <= j < i ==> !spec_options_eq((#[trigger] groups@[j]).0, *o),
        decreases groups@.len() - i,
    {
        if groups[i].0 == *o {
            return Some(i);
        }
        i = i + 1;
    }
    None
}

fn find_insert_pos(
    groups: &Vec<(CalendarOptions, Vec<(u64, Option<u64>)>)>,
    o: &CalendarOptions,
) -> (pos: usize)
    ensures
        pos <= groups@.len(),
        forall|j: int|
            0 <= j < pos ==> spec_options_cmp((#[trigger] groups@[j]).0, *o) != Ordering::Greater,
        (pos as int) < groups@.len() ==> spec_options_cmp(groups@[pos as int].0, *o)
            == Ordering::Greater,
{
    let mut pos: usize = 0;
    while pos < groups.len()
        invariant
            0 <= pos <= groups@.len(),
            forall|j: int|
                0 <= j < pos ==> spec_options_cmp((#[trigger] groups@[j]).0, *o)
                    != Ordering::Greater,
        ensures
            0 <= pos <= groups@.len(),
            forall|j: int|
                0 <= j < pos ==> spec_options_cmp((#[trigger] groups@[j]).0, *o)
                    != Ordering::Greater,
            (pos as int) < groups@.len() ==> spec_options_cmp(groups@[pos as int].0, *o)
                == Ordering::Greater,
        decreases groups@.len() - pos,
    {
        let c = groups[pos].0.partial_cmp(o);
        match c {
            Some(Ordering::Greater) => {
                break;
            },
            _ => {},
        }
        pos = pos + 1;
    }
    pos
}

/// The group order relation is transitive.
proof fn lemma_options_cmp_trans(a: CalendarOptions, b: CalendarOptions, c: CalendarOptions)
    requires
        spec_options_cmp(a, b) != Ordering::Greater,
        spec_options_cmp(b, c) != Ordering::Greater,
    ensures
        spec_options_cmp(a, c) != Ordering::Greater,
{
}

proof fn lemma_options_cmp_flip(a: CalendarOptions, b: CalendarOptions)
    requires
        spec_options_cmp(a, b) == Ordering::Greater,
    ensures
        spec_options_cmp(b, a) != Ordering::Greater,
{
}

proof fn lemma_transfer_after_update(
    gv: Seq<(CalendarOptions, Seq<(u64, Option<u64>)>)>,
    nv: Seq<(CalendarOptions, Seq<(u64, Option<u64>)>)>,
    gcs: Seq<GuildCalendar>,
    forced: bool,
    g: int,
    i: int,
    pair: (u64, Option<u64>),
)
    requires
        spec_groups_sound(gv, gcs, forced),
        spec_groups_complete(gv, gcs, forced, i),
        nv.len() == gv.len(),
        0 <= g < gv.len(),
        forall|x: int| 0 <= x < nv.len() && x != g ==> #[trigger] nv[x] == gv[x],
        nv[g].0 == gv[g].0,
        nv[g].1 == gv[g].1.push(pair),
        0 <= i < gcs.len(),
        spec_deliverable(gcs[i], forced),
        spec_options_for(gcs[i], nv[g].0),
        pair == spec_channel_pair(gcs[i]),
    ensures
        spec_groups_sound(nv, gcs, forced),
        spec_groups_complete(nv, gcs, forced, i + 1),
{
    assert forall|g2: int, p: int|
        0 <= g2 < nv.len() && 0 <= p < nv[g2].1.len() implies #[trigger] spec_pair_origin(
        nv,
        gcs,
        forced,
        g2,
        p,
    ) by {
        if g2 == g && p == nv[g2].1.len() - 1 {
            assert(nv[g2].1[p] == pair);
        } else {
            assert(nv[g2].0 == gv[g2].0);
            assert(nv[g2].1[p] == gv[g2].1[p]);
            assert(spec_pair_origin(gv, gcs, forced, g2, p));
            let k0 = choose|k: int|
                0 <= k < gcs.len() && spec_deliverable(#[trigger] gcs[k], forced)
                    && spec_options_for(gcs[k], gv[g2].0) && gv[g2].1[p] == spec_channel_pair(
                    gcs[k],
                );
            assert(spec_options_for(gcs[k0], nv[g2].0));
            assert(nv[g2].1[p] == spec_channel_pair(gcs[k0]));
        }
    }
    assert forall|k2: int|
        0 <= k2 < i + 1 && spec_deliverable(#[trigger] gcs[k2], forced) implies spec_covered(
        nv,
        gcs,
        k2,
    ) by {
        if k2 == i {
            assert(nv[g].1.last() == pair);
            assert(nv[g].1.contains(spec_channel_pair(gcs[k2])));
        } else {
            assert(spec_covered(gv, gcs, k2));
            let g0 = choose|g2: int|
                0 <= g2 < gv.len() && spec_options_for(gcs[k2], (#[trigger] gv[g2]).0)
                    && gv[g2].1.contains(spec_channel_pair(gcs[k2]));
            if g0 == g {
                let p0 = choose|p: int|
                    0 <= p < gv[g0].1.len() && gv[g0].1[p] == spec_channel_pair(gcs[k2]);
                assert(nv[g0].1[p0] == spec_channel_pair(gcs[k2]));
                assert(nv[g0].1.contains(spec_channel_pair(gcs[k2])));
            } else {
                assert(nv[g0] == gv[g0]);
                assert(nv[g0].1.contains(spec_channel_pair(gcs[k2])));
            }
        }
    }
}

proof fn lemma_transfer_after_insert(
    gv: Seq<(CalendarOptions, Seq<(u64, Option<u64>)>)>,
    nv: Seq<(CalendarOptions, Seq<(u64, Option<u64>)>)>,
    gcs: Seq<GuildCalendar>,
    forced: bool,
    pos: int,
    i: int,
    pair: (u64, Option<u64>),
    newopts: CalendarOptions,
)
    requires
        spec_groups_sound(gv, gcs, forced),
        spec_groups_complete(gv, gcs, forced, i),
        nv.len() == gv.len() + 1,
        0 <= pos < nv.len(),
        forall|x: int| 0 <= x < pos ==> #[trigger] nv[x] == gv[x],
        forall|x: int| pos < x < nv.len() ==> #[trigger] nv[x] == gv[x - 1],
        nv[pos].0 == newopts,
        nv[pos].1 == seq![pair],
        0 <= i < gcs.len(),
        spec_deliverable(gcs[i], forced),
        spec_options_for(gcs[i], newopts),
        pair == spec_channel_pair(gcs[i]),
    ensures
        spec_groups_sound(nv, gcs, forced),
        spec_groups_complete(nv, gcs, forced, i + 1),
{
    assert forall|g2: int, p: int|
        0 <= g2 < nv.len() && 0 <= p < nv[g2].1.len() implies #[trigger] spec_pair_origin(
        nv,
        gcs,
        forced,
        g2,
        p,
    ) by {
        if g2 == pos {
            assert(nv[g2].1[p] == pair);
        } else {
            let gold = if g2 < pos {
                g2
            } else {
                g2 - 1
            };
            assert(nv[g2] == gv[gold]);
            assert(spec_pair_origin(gv, gcs, forced, gold, p));
            let k0 = choose|k: int|
                0 <= k < gcs.len() && spec_deliverable(#[trigger] gcs[k], forced)
                    && spec_options_for(gcs[k], gv[gold].0) && gv[gold].1[p] == spec_channel_pair(
                    gcs[k],
                );
            assert(spec_options_for(gcs[k0], nv[g2].0));
            assert(nv[g2].1[p] == spec_channel_pair(gcs[k0]));
        }
    }
    assert forall|k2: int|
        0 <= k2 < i + 1 && spec_deliverable(#[trigger] gcs[k2], forced) implies spec_covered(
        nv,
        gcs,
        k2,
    ) by {
        if k2 == i {
            assert(nv[pos].1[0] == spec_channel_pair(gcs[k2]));
            assert(nv[pos].1.contains(spec_channel_pair(gcs[k2])));
        } else {
            assert(spec_covered(gv, gcs, k2));
            let g0 = choose|g2: int|
                0 <= g2 < gv.len() && spec_options_for(gcs[k2], (#[trigger] gv[g2]).0)
                    && gv[g2].1.contains(spec_channel_pair(gcs[k2]));
            let gn = if g0 < pos {
                g0
            } else {
                g0 + 1
            };
            assert(nv[gn] == gv[g0]);
            assert(nv[gn].1.contains(spec_channel_pair(gcs[k2])));
        }
    }
}

/// Plan one calendar's update: decide who participates, resolve options,
/// group equal options together, and order the groups. Subscriptions whose
/// channel id does not parse or whose timezone names no zone are skipped,
/// as configuration faults isolated to them.
pub fn plan_calendar_update(
    calendar_id: &String,
    new_events: &Vec<CalendarEvent>,
    guild_calendars: &Vec<GuildCalendar>,
) -> (plan: SyncPlan)
    ensures
        plan.forced == spec_any_force(guild_calendars@),
        forall|t: int|
            0 <= t < plan.tasks@.len() ==> (#[trigger] plan.tasks@[t]).calendar_id@
                == calendar_id@ && spec_lists_match(plan.tasks@[t].new_events@, new_events@),
        forall|t1: int, t2: int|
            0 <= t1 < t2 < plan.tasks@.len() ==> spec_options_cmp(
                (#[trigger] plan.tasks@[t1]).calendar_options,
                (#[trigger] plan.tasks@[t2]).calendar_options,
            ) != Ordering::Greater,
        forall|t1: int, t2: int|
            0 <= t1 < t2 < plan.tasks@.len() ==> !spec_options_eq(
                (#[trigger] plan.tasks@[t1]).calendar_options,
                (#[trigger] plan.tasks@[t2]).calendar_options,
            ),
        spec_groups_sound(spec_plan_groups(plan), guild_calendars@, plan.forced),
        spec_groups_complete(
            spec_plan_groups(plan),
            guild_calendars@,
            plan.forced,
            guild_calendars@.len() as int,
        ),
        forall|t: int|
            0 <= t < plan.tasks@.len() ==> (#[trigger] plan.tasks@[t]).discord_channel_and_message_ids@.len()
                > 0,
        spec_keys_sound(plan.clear_force_update@, guild_calendars@, plan.forced),
        spec_keys_complete(
            plan.clear_force_update@,
            guild_calendars@,
            plan.forced,
            guild_calendars@.len() as int,
        ),
{
    let forced: bool = any_force_update(guild_calendars);
    let gcs_len: usize = guild_calendars.len();

    let mut groups: Vec<(CalendarOptions, Vec<(u64, Option<u64>)>)> = Vec::new();
    let mut i: usize = 0;
    while i < gcs_len
        invariant
            0 <= i <= gcs_len,
            gcs_len == guild_calendars@.len(),
            forall|g1: int, g2: int|
                0 <= g1 < g2 < groups@.len() ==> spec_options_cmp(
                    (#[trigger] groups@[g1]).0,
                    (#[trigger] groups@[g2]).0,
                ) != Ordering::Greater,
            forall|g1: int, g2: int|
                0 <= g1 < g2 < groups@.len() ==> !spec_options_eq(
                    (#[trigger] groups@[g1]).0,
                    (#[trigger] groups@[g2]).0,
                ),
            forall|g: int| 0 <= g < groups@.len() ==> (#[trigger] groups@[g]).1@.len() > 0,
            spec_groups_sound(groups_seq_view(groups@), guild_calendars@, forced),
            spec_groups_complete(groups_seq_view(groups@), guild_calendars@, forced, i as int),
        decreases gcs_len - i,
    {
        let gc = &guild_calendars[i];
        let ghost gci = guild_calendars@[i as int];
        let participates: bool = !forced || gc.forceUpdate;
        let mut served: bool = false;
        if participates {
            match parse_u64(gc.channelId.as_str()) {
                None => {},
                Some(channel) => {
                    let msg: Option<u64> = match &gc.messageId {
                        Some(m) => parse_u64(m.as_str()),
                        None => None,
                    };
                    proof {
                        assert((channel, msg) == spec_channel_pair(gci));
                    }
                    match CalendarOptions::resolve(gc) {
                        Err(_) => {},
                        Ok(o) => {
                            served = true;
                            let ghost gv = groups_seq_view(groups@);
                            let ghost pre_groups = groups@;
                            proof {
                                assert(spec_deliverable(gci, forced));
                                assert(spec_options_for(gci, o));
                            }
                            match find_options_group(&groups, &o) {
                                Some(g) => {
                                    let mut entry = groups.remove(g);
                                    entry.1.push((channel, msg));
                                    groups.insert(g, entry);
                                    proof {
                                        let nv = groups_seq_view(groups@);
                                        assert(groups@ =~= pre_groups.update(
                                            g as int,
                                            groups@[g as int],
                                        ));
                                        assert forall|x: int|
                                            0 <= x < nv.len() && x != g as int implies #[trigger] nv[x]
                                            == gv[x] by {
                                            assert(groups@[x] == pre_groups[x]);
                                        }
                                        assert(nv.len() == gv.len());
                                        assert(nv[g as int].0 == gv[g as int].0);
                                        assert(nv[g as int].1 =~= gv[g as int].1.push(
                                            (channel, msg),
                                        ));
                                        assert(spec_options_eq(gv[g as int].0, o));
                                        assert(spec_options_for(gci, nv[g as int].0));
                                        lemma_transfer_after_update(
                                            gv,
                                            nv,
                                            guild_calendars@,
                                            forced,
                                            g as int,
                                            i as int,
                                            (channel, msg),
                                        );
                                    }
                                },
                                None => {
                                    let pos: usize = find_insert_pos(&groups, &o);
                                    let mut pairs: Vec<(u64, Option<u64>)> = Vec::new();
                                    pairs.push((channel, msg));
                                    let ghost newopts = o;
                                    groups.insert(pos, (o, pairs));
                                    proof {
                                        let nv = groups_seq_view(groups@);
                                        assert(nv.len() == gv.len() + 1);
                                        assert forall|x: int| 0 <= x < pos implies #[trigger] nv[x]
                                            == gv[x] by {
                                            assert(groups@[x] == pre_groups[x]);
                                        }
                                        assert forall|x: int|
                                            (pos as int) < x < nv.len() implies #[trigger] nv[x]
                                            == gv[x - 1] by {
                                            assert(groups@[x] == pre_groups[x - 1]);
                                        }
                                        assert(nv[pos as int].0 == newopts);
                                        assert(nv[pos as int].1 =~= seq![(channel, msg)]);
                                        assert forall|g1: int, g2: int|
                                            0 <= g1 < g2 < nv.len() implies spec_options_cmp(
                                            (#[trigger] nv[g1]).0,
                                            (#[trigger] nv[g2]).0,
                                        ) != Ordering::Greater by {
                                            if g2 == pos as int {
                                                assert(nv[g1].0 == gv[g1].0);
                                                assert(spec_options_cmp(gv[g1].0, newopts)
                                                    != Ordering::Greater);
                                            } else if g1 == pos as int {
                                                assert(nv[g2].0 == gv[g2 - 1].0);
                                                lemma_options_cmp_flip(gv[pos as int].0, newopts);
                                                if g2 - 1 > pos as int {
                                                    lemma_options_cmp_trans(
                                                        newopts,
                                                        gv[pos as int].0,
                                                        gv[g2 - 1].0,
                                                    );
                                                }
                                            }
                                        }
                                        assert forall|g1: int, g2: int|
                                            0 <= g1 < g2 < nv.len() implies !spec_options_eq(
                                            (#[trigger] nv[g1]).0,
                                            (#[trigger] nv[g2]).0,
                                        ) by {
                                            if g1 == pos as int {
                                                assert(nv[g2].0 == gv[g2 - 1].0);
                                            } else if g2 == pos as int {
                                                assert(nv[g1].0 == gv[g1].0);
                                            }
                                        }
                                        lemma_transfer_after_insert(
                                            gv,
                                            nv,
                                            guild_calendars@,
                                            forced,
                                            pos as int,
                                            i as int,
                                            (channel, msg),
                                            newopts,
                                        );
                                    }
                                },
                            }
                        },
                    }
                },
            }
        }
        proof {
            if !served {
                assert(!spec_deliverable(gci, forced));
                assert forall|k2: int|
                    0 <= k2 < i as int + 1 && spec_deliverable(
                        #[trigger] guild_calendars@[k2],
                        forced,
                    ) implies spec_covered(groups_seq_view(groups@), guild_calendars@, k2) by {
                    assert(k2 < i as int);
                }
            }
        }
        i = i + 1;
    }

    // The force flags honored this cycle: one key per flagged subscription
    // that was actually served.
    let mut clear_force_update: Vec<SubscriptionKey> = Vec::new();
    let mut k: usize = 0;
    while k < gcs_len
        invariant
            0 <= k <= gcs_len,
            gcs_len == guild_calendars@.len(),
            spec_keys_sound(clear_force_update@, guild_calendars@, forced),
            spec_keys_complete(clear_force_update@, guild_calendars@, forced, k as int),
        decreases gcs_len - k,
    {
        let gc = &guild_calendars[k];
        let served_flag: bool = gc.forceUpdate && match parse_u64(gc.channelId.as_str()) {
            Some(_) => match CalendarOptions::resolve(gc) {
                Ok(_) => true,
                Err(_) => false,
            },
            None => false,
        };
        proof {
            assert(served_flag == (guild_calendars@[k as int].forceUpdate && spec_deliverable(
                guild_calendars@[k as int],
                forced,
            )));
        }
        if served_flag {
            let ghost oldc = clear_force_update@;
            clear_force_update.push(
                SubscriptionKey {
                    guild_id: gc.guild_id,
                    calendar_id: gc.calendar_id,
                    channel_id: gc.channelId.clone(),
                },
            );
            proof {
                let nc = clear_force_update@;
                assert(nc.len() == oldc.len() + 1);
                assert(forall|j: int| 0 <= j < oldc.len() ==> #[trigger] nc[j] == oldc[j]);
                assert(spec_key_for(nc[oldc.len() as int], guild_calendars@[k as int]));
                assert forall|j: int| 0 <= j < nc.len() implies #[trigger] spec_key_origin(
                    nc,
                    guild_calendars@,
                    forced,
                    j,
                ) by {
                    if j < oldc.len() {
                        assert(spec_key_origin(oldc, guild_calendars@, forced, j));
                        let m0 = choose|m: int|
                            0 <= m < guild_calendars@.len() && (#[trigger] guild_calendars@[m]).forceUpdate
                                && spec_deliverable(guild_calendars@[m], forced) && spec_key_for(
                                oldc[j],
                                guild_calendars@[m],
                            );
                        assert(spec_key_for(nc[j], guild_calendars@[m0]));
                    } else {
                        assert(guild_calendars@[k as int].forceUpdate && spec_deliverable(
                            guild_calendars@[k as int],
                            forced,
                        ));
                    }
                }
                assert forall|m: int|
                    0 <= m < k as int + 1 && (#[trigger] guild_calendars@[m]).forceUpdate
                        && spec_deliverable(guild_calendars@[m], forced) implies spec_key_listed(
                    nc,
                    guild_calendars@[m],
                ) by {
                    if m < k as int {
                        assert(spec_key_listed(oldc, guild_calendars@[m]));
                        let j0 = choose|j: int|
                            0 <= j < oldc.len() && spec_key_for(
                                #[trigger] oldc[j],
                                guild_calendars@[m],
                            );
                        assert(spec_key_for(nc[j0], guild_calendars@[m]));
                    } else {
                        assert(spec_key_for(nc[oldc.len() as int], guild_calendars@[m]));
                    }
                }
            }
        }
        k = k + 1;
    }

    // One task per group, in group order.
    let ghost final_groups = groups_seq_view(groups@);
    let mut tasks: Vec<UpdateCalendarEvent> = Vec::new();
    let mut rest = groups;
    while rest.len() > 0
        invariant
            tasks@.len() + rest@.len() == final_groups.len(),
            groups_seq_view(rest@) =~= final_groups.subrange(
                tasks@.len() as int,
                final_groups.len() as int,
            ),
            forall|g: int| 0 <= g < final_groups.len() ==> (#[trigger] final_groups[g]).1.len()
                > 0,
            forall|t: int|
                0 <= t < tasks@.len() ==> {
                    &&& (#[trigger] tasks@[t]).calendar_id@ == calendar_id@
                    &&& spec_lists_match(tasks@[t].new_events@, new_events@)
                    &&& tasks@[t].calendar_options == final_groups[t].0
                    &&& tasks@[t].discord_channel_and_message_ids@ == final_groups[t].1
                },
        decreases rest@.len(),
    {
        let ghost t0 = tasks@.len() as int;
        let ghost pre = rest@;
        let (o, pairs) = rest.remove(0);
        proof {
            assert(groups_seq_view(pre)[0] == (o, pairs@));
            assert((o, pairs@) == final_groups[t0]);
            assert(rest@ =~= pre.drop_first());
            assert(groups_seq_view(rest@) =~= groups_seq_view(pre).drop_first());
        }
        tasks.push(
            UpdateCalendarEvent {
                calendar_id: calendar_id.clone(),
                new_events: clone_events(new_events),
                calendar_options: o,
                discord_channel_and_message_ids: pairs,
            },
        );
    }

    let plan = SyncPlan { forced, tasks, clear_force_update };
    proof {
        assert(spec_plan_groups(plan) =~= final_groups) by {
            assert forall|t: int|
                0 <= t < plan.tasks@.len() implies #[trigger] spec_plan_groups(plan)[t]
                == final_groups[t] by {
                assert(plan.tasks@[t].calendar_options == final_groups[t].0);
                assert(plan.tasks@[t].discord_channel_and_message_ids@ == final_groups[t].1);
            }
        }
        assert forall|t1: int, t2: int|
            0 <= t1 < t2 < plan.tasks@.len() implies spec_options_cmp(
            (#[trigger] plan.tasks@[t1]).calendar_options,
            (#[trigger] plan.tasks@[t2]).calendar_options,
        ) != Ordering::Greater && !spec_options_eq(
            plan.tasks@[t1].calendar_options,
            plan.tasks@[t2].calendar_options,
        ) by {
            assert(plan.tasks@[t1].calendar_options == final_groups[t1].0);
            assert(plan.tasks@[t2].calendar_options == final_groups[t2].0);
        }
    }
    plan
}

} // verus!
