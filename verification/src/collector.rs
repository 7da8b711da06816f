//! Core collector decisions: dispatch, intervals between polls, ingest batches and
//! what becomes of those that are refused.

use vstd::prelude::*;
use vstd::utf8::encode_utf8;

use crate::chance::random_below;
use crate::change_detection::{build_change_payload, change};
use crate::config::CollectorSettings;
use crate::json::{
    field, i64_field, lemma_list_view, list_view, opt_i64_json, parsed_bytes, text_field,
    text_or_empty, Json, JsonObject, JsonView,
};
use crate::models::{id_of, internal_only, is_internal_only_host, ServerState, ServerStateView};
use crate::names::lemma_names_differ;
use crate::ping::{after_probe, after_upload};
use crate::scheduler::{law_scheduled_polls_are_kept, scheduled, Due, SchedulerHandle};
use crate::sync::{
    catalog, force_pinged, incoming, law_refresh_mirrors_catalog, made_due, refreshed, states_of,
    CatalogEntry, CatalogView, Jitter,
};
use crate::table::Table;
use crate::text::{begins_with, chars_of, lowered, trimmed};
use crate::wal::{
    batch_of, batch_written, bytes_left, clock_goes_on, drained, files, first_completed,
    in_name_order, in_step, items_of, law_written_batch_is_drained_last, listing, name_before,
    payload_of, readable, record, BatchView, DiskFile, SegmentFile, SegmentView, WalBuffer, WalView,
    WritePhase,
};

verus! {

broadcast use vstd::string::group_string_axioms;

// ---------------------------------------------------------------------------
// Authorization
// ---------------------------------------------------------------------------

/// The header fields of the `http` crate.
#[verifier::external_type_specification]
#[verifier::external_body]
#[verifier::reject_recursive_types(T)]
pub struct ExHeaderMap<T>(reqwest::header::HeaderMap<T>);

/// The value of a header field of the `http` crate.
#[verifier::external_type_specification]
#[verifier::external_body]
pub struct ExHeaderValue(reqwest::header::HeaderValue);

/// The values of the fields in a header, by the field's name in lower case.
pub uninterp spec fn header_fields(headers: reqwest::header::HeaderMap) -> Map<
    Seq<char>,
    Seq<Seq<u8>>,
>;

/// A character that a header field's value may hold.
pub open spec fn is_header_char(c: char) -> bool {
    (c as u32 >= 32 && c as u32 != 127) || c as u32 == 9
}

/// A text that a header field's value may be.
pub open spec fn is_header_text(text: Seq<char>) -> bool {
    forall|i: int| 0 <= i < text.len() ==> is_header_char(#[trigger] text[i])
}

/// The one field `authorization` with a text as its one value.
pub open spec fn authorization(value: Seq<char>) -> Map<Seq<char>, Seq<Seq<u8>>> {
    Map::<Seq<char>, Seq<Seq<u8>>>::empty().insert("authorization"@, seq![encode_utf8(value)])
}

/// `HeaderMap::new`, `HeaderValue::from_str` and `HeaderMap::insert` of the
/// `http` crate, under the name `authorization`: the header has that one field,
/// with the bytes of the text as its one value. `HeaderValue::from_str` fails on
/// control characters other than the tab.
#[verifier::external_body]
fn authorization_header(value: &str) -> (r: reqwest::header::HeaderMap)
    requires
        is_header_text(value@),
    ensures
        header_fields(r) == authorization(value@),
{
    let mut headers = reqwest::header::HeaderMap::new();
    headers.insert(
        reqwest::header::AUTHORIZATION,
        reqwest::header::HeaderValue::from_str(value).unwrap(),
    );
    headers
}

/// Whether a header field's value may be this text.
pub fn fits_header(text: &str) -> (r: bool)
    ensures
        r == is_header_text(text@),
{
    let chars = chars_of(text);
    let mut i: usize = 0;
    while i < chars.len()
        invariant
            0 <= i <= chars@.len(),
            chars@ == text@,
            forall|j: int| 0 <= j < i ==> is_header_char(#[trigger] text@[j]),
        decreases chars@.len() - i,
    {
        let c: u32 = chars[i] as u32;
        if !((c >= 32 && c != 127) || c == 9) {
            assert(!is_header_char(text@[i as int]));
            return false;
        }
        i = i + 1;
    }
    true
}

/// Build auth headers from an optional bearer token.
pub fn build_headers(token: &Option<String>) -> (r: Option<reqwest::header::HeaderMap>)
    requires
        token matches Some(t) ==> is_header_text(t@),
    ensures
        r is Some <==> token is Some,
        token matches Some(t) ==> header_fields(r->0) == authorization("Bearer "@ + t@),
{
    match token {
        Some(t) => {
            let mut value = "Bearer ".to_owned();
            value.append(t.as_str());
            proof {
                reveal_strlit("Bearer ");
                assert(is_header_text("Bearer "@));
                assert(is_header_text(value@));
            }
            Some(authorization_header(value.as_str()))
        },
        None => None,
    }
}

// ---------------------------------------------------------------------------
// Dispatch
// ---------------------------------------------------------------------------

/// Whether a poll that has come due is still wanted: its server is known and
/// has not been given another time since.
pub open spec fn wanted(
    states: Map<Seq<char>, ServerStateView>,
    key: Seq<char>,
    due: u128,
) -> bool {
    states.dom().contains(key) && states[key].next_due == due
}

/// Whether a poll that has come due is still wanted.
pub fn is_wanted(states: &Table<ServerState>, key: &str, due: u128) -> (r: bool)
    requires
        states.wf(),
    ensures
        r == wanted(states_of(states@), key@, due),
{
    match states.get(key) {
        Some(state) => state.next_due == due,
        None => false,
    }
}

/// Once a server was made due, the polls that were scheduled for it at other
/// times are no longer wanted, and the new one is.
pub proof fn law_rescheduling_supersedes(c: CatalogView, key: Seq<char>, now: u64, due: u128)
    requires
        c.states.dom().contains(key),
    ensures
        wanted(made_due(c, key, now).states, key, due) <==> due == now,
{
}

/// A server that was fetched for a force ping is polled at once: it is due now,
/// and the poll that is wanted is on the schedule under the server's id.
pub proof fn law_fetched_force_ping_is_wanted(
    c: CatalogView,
    target: Seq<char>,
    server: JsonView,
    fallback: bool,
    now: u64,
    probe_interval: u64,
    jitter: Jitter,
)
    ensures
        ({
            let after = force_pinged(c, target, server, fallback, now, probe_interval, jitter);
            &&& wanted(after.states, target, now as u128)
            &&& after.queue.contains(Due { key: id_of(server), due: now as u128 })
        }),
{
    law_scheduled_polls_are_kept(c.queue, Due { key: id_of(server), due: now as u128 });
}

/// A known server that is force pinged is polled at once: it is due now, and its
/// poll is on the schedule.
pub proof fn law_known_force_ping_is_wanted(c: CatalogView, target: Seq<char>, now: u64)
    requires
        c.states.dom().contains(target),
    ensures
        ({
            let after = made_due(c, target, now);
            &&& wanted(after.states, target, now as u128)
            &&& after.queue.contains(Due { key: c.states[target].key, due: now as u128 })
        }),
{
    law_scheduled_polls_are_kept(
        c.queue,
        Due { key: c.states[target].key, due: now as u128 },
    );
}

/// A server that has left the catalog is not polled any more, whatever is still
/// scheduled for it.
pub proof fn law_removed_servers_are_not_polled(
    c: CatalogView,
    entries: Seq<CatalogEntry>,
    now: u64,
    probe_interval: u64,
    jitters: Seq<Jitter>,
    key: Seq<char>,
    due: u128,
)
    requires
        !incoming(entries).contains(key),
    ensures
        !wanted(refreshed(c, entries, now, probe_interval, jitters).states, key, due),
{
    law_refresh_mirrors_catalog(c, entries, now, probe_interval, jitters);
}

/// Whether a server cannot be polled from here: it is managed by a plugin and
/// only reachable from inside.
pub open spec fn unreachable(state: ServerStateView) -> bool {
    state.plugin_managed && internal_only(state.target.host)
}

/// Whether a server cannot be polled from here.
pub fn skips_poll(state: &ServerState) -> (r: bool)
    ensures
        r == unreachable(state@),
{
    state.plugin_managed && is_internal_only_host(state.host.as_str())
}

// ---------------------------------------------------------------------------
// Intervals
// ---------------------------------------------------------------------------

/// A random factor: between nine tenths and eleven tenths, in billionths.
pub open spec fn is_factor(factor: u64) -> bool {
    900_000_000 <= factor < 1_100_000_000
}

/// An interval in nanoseconds, made longer or shorter by the factor, and of a
/// least length.
pub open spec fn jittered(interval: int, factor: u64, least: int) -> int {
    let wait = interval * factor / 1_000_000_000;
    if wait < least {
        least
    } else {
        wait
    }
}

/// The interval of a server that has never answered in nanoseconds: that of one
/// that is down, multiplied but not made shorter, up to the greatest interval.
pub open spec fn slowed_interval(settings: CollectorSettings) -> int {
    let offline = settings.offline_interval_seconds * 1_000_000_000;
    let multiplied = settings.offline_interval_seconds
        * settings.initial_failure_slowdown_multiplier;
    let most = settings.initial_failure_max_interval_seconds * 1_000_000_000;
    let slowed = if multiplied < offline {
        offline
    } else {
        multiplied
    };
    if slowed > most {
        most
    } else {
        slowed
    }
}

/// The interval after a poll in nanoseconds. A server that has never answered
/// is polled less and less often once it has failed some times in a row.
pub open spec fn interval_after(
    state: ServerStateView,
    plugin_managed: bool,
    up: bool,
    settings: CollectorSettings,
) -> int {
    let offline = settings.offline_interval_seconds * 1_000_000_000;
    if plugin_managed {
        settings.plugin_compare_interval_seconds * 1_000_000_000
    } else if up {
        settings.online_interval_seconds * 1_000_000_000
    } else if !state.has_succeeded && state.initial_failures
        >= settings.initial_failures_before_slowdown {
        slowed_interval(settings)
    } else {
        offline
    }
}

/// The interval after a poll in nanoseconds.
pub fn poll_interval(
    state: &ServerState,
    plugin_managed: bool,
    status_ok: bool,
    settings: &CollectorSettings,
) -> (r: u128)
    ensures
        r == interval_after(state@, plugin_managed, status_ok, *settings),
        r <= 0x1_0000_0000_0000_0000 * 1_000_000_000,
{
    let offline: u128 = settings.offline_interval_seconds as u128 * 1_000_000_000;
    if plugin_managed {
        return settings.plugin_compare_interval_seconds as u128 * 1_000_000_000;
    }
    if status_ok {
        return settings.online_interval_seconds as u128 * 1_000_000_000;
    }
    if state.has_succeeded || state.initial_failures < settings.initial_failures_before_slowdown {
        return offline;
    }
    let multiplier: i64 = settings.initial_failure_slowdown_multiplier;
    let slowed: u128 = if multiplier < 1_000_000_000 {
        proof {
            let secs = settings.offline_interval_seconds;
            assert(secs * multiplier <= secs * 1_000_000_000) by (nonlinear_arith)
                requires
                    secs >= 0,
                    multiplier < 1_000_000_000,
            ;
        }
        offline
    } else {
        proof {
            let secs = settings.offline_interval_seconds;
            assert(secs * 1_000_000_000 <= secs * multiplier < 0x1_0000_0000_0000_0000
                * 0x1_0000_0000_0000_0000) by (nonlinear_arith)
                requires
                    0 <= secs < 0x1_0000_0000_0000_0000,
                    1_000_000_000 <= multiplier < 0x1_0000_0000_0000_0000,
            ;
        }
        settings.offline_interval_seconds as u128 * multiplier as u128
    };
    let most: u128 = settings.initial_failure_max_interval_seconds as u128 * 1_000_000_000;
    if slowed > most {
        most
    } else {
        slowed
    }
}

/// An interval in nanoseconds, made longer or shorter by the factor.
fn jitter(interval: u128, factor: u64, least: u128) -> (r: u128)
    requires
        interval <= 0x1_0000_0000_0000_0000 * 1_000_000_000,
        is_factor(factor),
        least <= 60_000_000_000,
    ensures
        r == jittered(interval as int, factor, least as int),
        r < 0x2_0000_0000_0000_0000 * 1_000_000_000,
{
    proof {
        assert(interval * factor <= interval * 1_100_000_000) by (nonlinear_arith)
            requires
                0 <= interval,
                factor < 1_100_000_000,
        ;
    }
    let wait: u128 = interval * factor as u128 / 1_000_000_000;
    if wait < least {
        least
    } else {
        wait
    }
}

/// Draws a factor.
fn draw_factor() -> (r: u64)
    ensures
        is_factor(r),
{
    900_000_000 + random_below(200_000_000) as u64
}

/// A server that has never answered waits no less than one that is merely down,
/// unless the greatest interval is shorter, and never longer than that interval.
pub proof fn law_slowdown_is_bounded(state: ServerStateView, settings: CollectorSettings)
    requires
        !state.has_succeeded,
        state.initial_failures >= settings.initial_failures_before_slowdown,
    ensures
        ({
            let slowed = interval_after(state, false, false, settings);
            let most = settings.initial_failure_max_interval_seconds * 1_000_000_000;
            let offline = settings.offline_interval_seconds * 1_000_000_000;
            &&& slowed <= most
            &&& offline <= most ==> slowed >= offline
        }),
{
}

/// The random factor moves an interval by a tenth at most, but for the least
/// length.
pub proof fn law_jitter_is_a_tenth(interval: int, factor: u64, least: int)
    requires
        interval >= 0,
        is_factor(factor),
    ensures
        jittered(interval, factor, least) >= least,
        10 * jittered(interval, factor, least) <= 11 * interval || jittered(
            interval,
            factor,
            least,
        ) == least,
        10 * jittered(interval, factor, least) >= 9 * interval - 10,
{
    let product = interval * factor;
    assert(900_000_000 * interval <= product <= 1_100_000_000 * interval) by (nonlinear_arith)
        requires
            product == interval * factor,
            interval >= 0,
            900_000_000 <= factor < 1_100_000_000,
    ;
}

// ---------------------------------------------------------------------------
// After a poll
// ---------------------------------------------------------------------------

/// The state once the outcome of a poll was counted.
pub open spec fn counted_poll(state: ServerStateView, up: bool) -> ServerStateView {
    if up {
        ServerStateView { has_succeeded: true, consecutive_failures: 0, ..state }
    } else {
        ServerStateView {
            consecutive_failures: (state.consecutive_failures + 1) as u32,
            initial_failures: if state.has_succeeded {
                state.initial_failures
            } else {
                (state.initial_failures + 1) as u32
            },
            ..state
        }
    }
}

/// Whether one more failure can be counted.
pub open spec fn can_count(state: ServerStateView) -> bool {
    &&& state.consecutive_failures < u32::MAX
    &&& state.has_succeeded || state.initial_failures < u32::MAX
}

/// Counts the outcome of a poll.
pub fn count_poll(state: &mut ServerState, status_ok: bool)
    requires
        status_ok || can_count(old(state)@),
    ensures
        final(state)@ == counted_poll(old(state)@, status_ok),
{
    if status_ok {
        state.has_succeeded = true;
        state.consecutive_failures = 0;
    } else {
        state.consecutive_failures = state.consecutive_failures + 1;
        if !state.has_succeeded {
            state.initial_failures = state.initial_failures + 1;
        }
    }
}

/// A failure is counted toward the slowdown only until the first success.
pub proof fn law_success_ends_initial_failures(state: ServerStateView, up: bool)
    requires
        state.has_succeeded,
    ensures
        counted_poll(state, up).initial_failures == state.initial_failures,
        counted_poll(state, up).has_succeeded,
{
}

/// The catalog once a server that cannot be polled was put off.
pub open spec fn put_off(
    c: CatalogView,
    key: Seq<char>,
    plugin_interval_seconds: u64,
    now: u64,
    factor: u64,
) -> CatalogView {
    if c.states.dom().contains(key) {
        let due = (now + jittered(
            plugin_interval_seconds * 1_000_000_000,
            factor,
            60_000_000_000,
        )) as u128;
        CatalogView {
            states: c.states.insert(key, ServerStateView { next_due: due, ..c.states[key] }),
            queue: scheduled(c.queue, Due { key, due }),
        }
    } else {
        c
    }
}

/// Puts a server off that cannot be polled, with the random factor given.
pub fn put_off_with(
    states: &mut Table<ServerState>,
    scheduler: &mut SchedulerHandle,
    key: &str,
    plugin_interval_seconds: u64,
    now: u64,
    factor: u64,
)
    requires
        old(states).wf(),
        old(scheduler).wf(),
        is_factor(factor),
    ensures
        final(states).wf(),
        final(scheduler).wf(),
        catalog(*final(states), *final(scheduler)) == put_off(
            catalog(*old(states), *old(scheduler)),
            key@,
            plugin_interval_seconds,
            now,
            factor,
        ),
{
    let ghost before = states@;
    if let Some(state) = states.get_mut(key) {
        let wait = jitter(
            plugin_interval_seconds as u128 * 1_000_000_000,
            factor,
            60_000_000_000,
        );
        state.next_due = now as u128 + wait;
        scheduler.schedule(key.to_owned(), state.next_due);
        assert(states_of(before.insert(key@, *state)) =~= states_of(before).insert(key@, state@));
    }
}

/// Puts a server off that cannot be polled.
pub fn put_off_unreachable(
    states: &mut Table<ServerState>,
    scheduler: &mut SchedulerHandle,
    key: &str,
    plugin_interval_seconds: u64,
    now: u64,
)
    requires
        old(states).wf(),
        old(scheduler).wf(),
    ensures
        final(states).wf(),
        final(scheduler).wf(),
        exists|factor: u64|
            is_factor(factor) && catalog(*final(states), *final(scheduler)) == #[trigger] put_off(
                catalog(*old(states), *old(scheduler)),
                key@,
                plugin_interval_seconds,
                now,
                factor,
            ),
{
    let factor: u64 = draw_factor();
    put_off_with(states, scheduler, key, plugin_interval_seconds, now, factor);
}

/// The state once a poll was counted, with the time of the next poll set from the
/// counted state, and what is reported of the poll. A server that is managed by a
/// plugin is not reported down.
pub open spec fn finished_poll(
    state: ServerStateView,
    plugin_managed: bool,
    payload: JsonView,
    up: bool,
    settings: CollectorSettings,
    now: u64,
    factor: u64,
) -> (ServerStateView, Option<JsonView>) {
    let counted = counted_poll(state, up);
    let wait = jittered(
        interval_after(counted, plugin_managed, up, settings),
        factor,
        1_000_000_000,
    );
    let after = ServerStateView { next_due: (now + wait) as u128, ..counted };
    if plugin_managed && !up {
        (after, None)
    } else {
        change(after, payload, up)
    }
}

/// Counts the outcome of a poll, sets when the server is polled next, with the
/// random factor given, and returns what is to be reported of the poll.
pub fn finish_poll_with(
    state: &mut ServerState,
    scheduler: &mut SchedulerHandle,
    key: &str,
    plugin_managed: bool,
    payload: &Json,
    status_ok: bool,
    settings: &CollectorSettings,
    now: u64,
    factor: u64,
) -> (r: Option<Json>)
    requires
        old(scheduler).wf(),
        is_factor(factor),
        status_ok || can_count(old(state)@),
    ensures
        final(scheduler).wf(),
        ({
            let done = finished_poll(
                old(state)@,
                plugin_managed,
                payload@,
                status_ok,
                *settings,
                now,
                factor,
            );
            &&& final(state)@ == done.0
            &&& final(scheduler)@ == scheduled(
                old(scheduler)@,
                Due { key: key@, due: done.0.next_due },
            )
            &&& match r {
                Some(report) => done.1 == Some(report@),
                None => done.1 is None,
            }
        }),
{
    count_poll(state, status_ok);
    let interval = poll_interval(state, plugin_managed, status_ok, settings);
    let wait = jitter(interval, factor, 1_000_000_000);
    state.next_due = now as u128 + wait;
    scheduler.schedule(key.to_owned(), state.next_due);
    if plugin_managed && !status_ok {
        return None;
    }
    build_change_payload(state, payload, status_ok)
}

/// Counts the outcome of a poll, sets when the server is polled next and returns
/// what is to be reported of the poll.
pub fn finish_poll(
    state: &mut ServerState,
    scheduler: &mut SchedulerHandle,
    key: &str,
    plugin_managed: bool,
    payload: &Json,
    status_ok: bool,
    settings: &CollectorSettings,
    now: u64,
) -> (r: Option<Json>)
    requires
        old(scheduler).wf(),
        status_ok || can_count(old(state)@),
    ensures
        final(scheduler).wf(),
        exists|factor: u64|
            {
                &&& is_factor(factor)
                &&& final(state)@ == (#[trigger] finished_poll(
                    old(state)@,
                    plugin_managed,
                    payload@,
                    status_ok,
                    *settings,
                    now,
                    factor,
                )).0
                &&& final(scheduler)@ == scheduled(
                    old(scheduler)@,
                    Due { key: key@, due: final(state)@.next_due },
                )
                &&& match r {
                    Some(report) => finished_poll(
                        old(state)@,
                        plugin_managed,
                        payload@,
                        status_ok,
                        *settings,
                        now,
                        factor,
                    ).1 == Some(report@),
                    None => finished_poll(
                        old(state)@,
                        plugin_managed,
                        payload@,
                        status_ok,
                        *settings,
                        now,
                        factor,
                    ).1 is None,
                }
            },
{
    let factor: u64 = draw_factor();
    finish_poll_with(
        state,
        scheduler,
        key,
        plugin_managed,
        payload,
        status_ok,
        settings,
        now,
        factor,
    )
}

/// A server is polled again in a second at the earliest.
pub proof fn law_next_poll_is_later(
    state: ServerStateView,
    plugin_managed: bool,
    payload: JsonView,
    up: bool,
    settings: CollectorSettings,
    now: u64,
    factor: u64,
)
    requires
        is_factor(factor),
    ensures
        finished_poll(state, plugin_managed, payload, up, settings, now, factor).0.next_due >= now
            + 1_000_000_000,
{
    let interval = interval_after(counted_poll(state, up), plugin_managed, up, settings);
    assert(interval * factor <= interval * 1_100_000_000) by (nonlinear_arith)
        requires
            0 <= interval,
            factor < 1_100_000_000,
    ;
}

/// A server waits the slowed interval after a poll exactly when the poll failed,
/// none has succeeded yet, and the failures, this one counted, have reached the
/// limit; otherwise it waits the interval of its outcome.
pub proof fn law_slowdown_follows_the_count(
    state: ServerStateView,
    payload: JsonView,
    up: bool,
    settings: CollectorSettings,
    now: u64,
    factor: u64,
)
    requires
        is_factor(factor),
        up || can_count(state),
    ensures
        ({
            let next = finished_poll(state, false, payload, up, settings, now, factor).0.next_due;
            let slow = !up && !state.has_succeeded && state.initial_failures + 1
                >= settings.initial_failures_before_slowdown;
            let interval = if slow {
                slowed_interval(settings)
            } else if up {
                settings.online_interval_seconds * 1_000_000_000
            } else {
                settings.offline_interval_seconds * 1_000_000_000
            };
            next == now + jittered(interval, factor, 1_000_000_000)
        }),
{
    let interval = interval_after(counted_poll(state, up), false, up, settings);
    assert(interval * factor <= interval * 1_100_000_000) by (nonlinear_arith)
        requires
            0 <= interval,
            factor < 1_100_000_000,
    ;
}

/// A Bedrock probe and the upload of a favicon, which come between a poll and the
/// counting of it, leave the counts alone.
pub proof fn law_probe_and_upload_keep_the_counts(
    state: ServerStateView,
    patched: bool,
    probe_interval: u64,
    probe_jitter: u64,
    ratio: i64,
    hash: Seq<char>,
    uploaded: bool,
    up: bool,
)
    ensures
        ({
            let probed = after_probe(state, patched, probe_interval, probe_jitter, ratio);
            let then = after_upload(probed, hash, uploaded);
            &&& then.has_succeeded == state.has_succeeded
            &&& then.initial_failures == state.initial_failures
            &&& then.consecutive_failures == state.consecutive_failures
            &&& counted_poll(then, up) == after_upload(
                after_probe(counted_poll(state, up), patched, probe_interval, probe_jitter, ratio),
                hash,
                uploaded,
            )
        }),
{
}

// ---------------------------------------------------------------------------
// Ingest batches
// ---------------------------------------------------------------------------

/// The reports that are waiting to be sent.
#[derive(Debug)]
pub struct IngestBatch {
    pub items: Vec<Json>,
    pub batch_size: usize,
}

/// The batch once a report has come, and what is sent: the whole batch where it
/// is full.
pub open spec fn batch_after(batch: Seq<JsonView>, item: JsonView, batch_size: int) -> (
    Seq<JsonView>,
    Option<Seq<JsonView>>,
) {
    let grown = batch.push(item);
    if grown.len() >= batch_size {
        (Seq::empty(), Some(grown))
    } else {
        (grown, None)
    }
}

impl IngestBatch {
    pub open spec fn view(self) -> Seq<JsonView> {
        list_view(self.items@)
    }

    /// The batch without reports.
    pub fn new(batch_size: usize) -> (r: Self)
        ensures
            r@ == Seq::<JsonView>::empty(),
            r.batch_size == batch_size,
    {
        IngestBatch { items: Vec::new(), batch_size }
    }

    fn take(&mut self) -> (r: Vec<Json>)
        ensures
            r@ == old(self).items@,
            final(self)@ == Seq::<JsonView>::empty(),
            final(self).batch_size == old(self).batch_size,
    {
        let mut sent: Vec<Json> = Vec::new();
        sent.append(&mut self.items);
        assert(sent@ =~= old(self).items@);
        sent
    }

    /// Takes a report in, and returns the batch where it is to be sent.
    pub fn push(&mut self, item: Json) -> (r: Option<Vec<Json>>)
        ensures
            final(self).batch_size == old(self).batch_size,
            final(self)@ == batch_after(old(self)@, item@, old(self).batch_size as int).0,
            match r {
                Some(sent) => batch_after(old(self)@, item@, old(self).batch_size as int).1 == Some(
                    list_view(sent@),
                ),
                None => batch_after(old(self)@, item@, old(self).batch_size as int).1 is None,
            },
    {
        let ghost before = self.items@;
        self.items.push(item);
        proof {
            assert(self.items@.drop_last() =~= before);
            lemma_list_view(self.items@);
        }
        if self.items.len() >= self.batch_size {
            Some(self.take())
        } else {
            None
        }
    }

    /// Returns the reports that have been waiting, if any, when it is time to
    /// send them.
    pub fn flush(&mut self) -> (r: Option<Vec<Json>>)
        ensures
            final(self).batch_size == old(self).batch_size,
            final(self)@ == Seq::<JsonView>::empty(),
            match r {
                Some(sent) => old(self)@.len() > 0 && list_view(sent@) == old(self)@,
                None => old(self)@.len() == 0,
            },
    {
        proof {
            lemma_list_view(self.items@);
        }
        if self.items.len() > 0 {
            Some(self.take())
        } else {
            assert(self@ =~= Seq::<JsonView>::empty());
            None
        }
    }
}

/// No report is lost or doubled on its way through a batch, and their order
/// stays: what is sent and what is left are together what was there and what
/// came.
pub proof fn law_batches_lose_nothing(batch: Seq<JsonView>, item: JsonView, batch_size: int)
    ensures
        ({
            let (left, sent) = batch_after(batch, item, batch_size);
            match sent {
                Some(items) => items + left == batch.push(item) && left.len() == 0,
                None => left == batch.push(item) && left.len() < batch_size,
            }
        }),
{
    let (left, sent) = batch_after(batch, item, batch_size);
    if let Some(items) = sent {
        assert(items + left =~= batch.push(item));
    }
}

/// What follows an attempt to send a batch.
#[derive(Debug)]
pub enum IngestStep {
    /// The batch was refused; these reports go to the write-ahead log.
    Persist(Vec<Json>),
    /// Reports are waiting in the log; the segment at this place of the listing
    /// is to be sent next.
    Drain(usize),
    /// Nothing is waiting.
    Rest,
}

/// The place of the segment that is to be sent next.
pub open spec fn next_drained(wal: WalView, list: Seq<SegmentView>) -> Option<int> {
    first_completed(wal, list, 0)
}

/// The log once it is to be drained: the segment that was being written is closed,
/// so that it is drained too.
pub open spec fn sealed(wal: WalView) -> WalView {
    WalView { current_segment: None, ..wal }
}

/// The segment that is to be sent next, or that nothing is waiting.
pub fn next_drain(wal: &WalBuffer, segments: &Vec<SegmentFile>) -> (r: IngestStep)
    ensures
        match r {
            IngestStep::Persist(_) => false,
            IngestStep::Drain(i) => i < segments@.len() && next_drained(wal@, files(segments@))
                == Some(i as int),
            IngestStep::Rest => next_drained(wal@, files(segments@)) is None,
        },
{
    match wal.oldest_completed(segments) {
        Some(i) => IngestStep::Drain(i),
        None => IngestStep::Rest,
    }
}

/// What follows an attempt to send a batch. One that was refused is persisted as
/// it is. Once one was sent, what has been waiting in the log is drained, oldest
/// segment first, the one that was being written among them.
pub fn after_send(
    sent: bool,
    batch: Vec<Json>,
    wal: &mut WalBuffer,
    segments: &Vec<SegmentFile>,
) -> (r: IngestStep)
    ensures
        final(wal)@ == if sent {
            sealed(old(wal)@)
        } else {
            old(wal)@
        },
        match r {
            IngestStep::Persist(items) => !sent && items@ == batch@,
            IngestStep::Drain(i) => sent && i < segments@.len() && next_drained(
                sealed(old(wal)@),
                files(segments@),
            ) == Some(i as int),
            IngestStep::Rest => sent && next_drained(sealed(old(wal)@), files(segments@)) is None,
        },
{
    if !sent {
        return IngestStep::Persist(batch);
    }
    wal.seal();
    next_drain(wal, segments)
}

/// Whether a segment of the log can be deleted after an attempt to send its
/// reports: only when none is left in it that was not sent.
pub fn is_drained(reports: &Vec<Json>, sent: bool) -> (r: bool)
    ensures
        r == (sent || reports@.len() == 0),
{
    sent || reports.len() == 0
}

/// On recovery nothing stays behind in the log: as long as there is a segment,
/// the oldest is drained next.
pub proof fn law_recovery_drains_every_segment(wal: WalView, list: Seq<SegmentView>)
    requires
        in_name_order(list),
    ensures
        list.len() == 0 ==> next_drained(sealed(wal), list) is None,
        list.len() > 0 ==> next_drained(sealed(wal), list) == Some(0int),
        forall|i: int|
            0 <= i < list.len() ==> !name_before((#[trigger] list[i]).name, list[0].name) || i == 0,
{
}

/// A batch that was refused is not lost: once it was persisted, as long as the
/// log keeps to its budget, draining gives what was waiting before and then the
/// batch, in order.
pub proof fn law_refused_batch_is_drained(
    wal: WalView,
    batch: Seq<JsonView>,
    disk: Seq<DiskFile>,
    clock: spec_fn(int) -> u64,
)
    requires
        forall|i: int|
            0 <= i < batch.len() ==> payload_of(#[trigger] batch[i]).len() <= 16_777_216
                && parsed_bytes(payload_of(batch[i])) == Some(batch[i]),
        in_step(wal, disk),
        wal.total_bytes + bytes_left(batch.map_values(|v: JsonView| payload_of(v)), 0)
            <= wal.max_bytes,
        in_name_order(listing(disk)),
        clock_goes_on(disk, clock, 0, batch.len() as int),
    ensures
        ({
            let writer = BatchView {
                records: batch.map_values(|v: JsonView| record(payload_of(v))),
                written: 0,
                phase: WritePhase::MakeRoom,
            };
            let then = batch_written(wal, writer, disk, clock).1;
            &&& drained(then) == drained(disk) + batch
            &&& in_name_order(listing(then))
        }),
{
    let payloads = batch.map_values(|v: JsonView| payload_of(v));
    assert forall|i: int| 0 <= i < payloads.len() implies readable(#[trigger] payloads[i]) by {
        assert(payloads[i] == payload_of(batch[i]));
    }
    law_written_batch_is_drained_last(wal, payloads, 0, WritePhase::MakeRoom, disk, clock);
    assert(batch_of(payloads, 0, WritePhase::MakeRoom).records =~= batch.map_values(
        |v: JsonView| record(payload_of(v)),
    ));
    assert(payloads.skip(0) =~= payloads);
    assert(items_of(payloads) =~= batch);
}

/// Where batches are sent.
pub fn ingest_url(monitoring_api: &str) -> (r: String)
    ensures
        r@ == monitoring_api@ + "/monitoring/ingest/unverified"@,
{
    let mut url = monitoring_api.to_owned();
    url.append("/monitoring/ingest/unverified");
    url
}

/// The body in which a batch is sent.
pub fn ingest_body(batch: Vec<Json>) -> (r: Json)
    ensures
        r@ == JsonView::Object(
            Map::<Seq<char>, JsonView>::empty().insert(
                "items"@,
                JsonView::Array(list_view(batch@)),
            ),
        ),
{
    Json::Object(JsonObject::new().with("items", Json::Array(batch)))
}

// ---------------------------------------------------------------------------
// Laws of intervals and counts
// ---------------------------------------------------------------------------

/// A success clears the failures in a row and is remembered; a failure adds one to
/// them, and one to the initial failures as long as there was no success. Nothing
/// else of the state changes.
pub proof fn law_outcomes_are_counted(state: ServerStateView, up: bool)
    requires
        up || can_count(state),
    ensures
        ({
            let after = counted_poll(state, up);
            &&& up ==> after.has_succeeded && after.consecutive_failures == 0
                && after.initial_failures == state.initial_failures
            &&& !up ==> after.has_succeeded == state.has_succeeded && after.consecutive_failures
                == state.consecutive_failures + 1
            &&& !up && !state.has_succeeded ==> after.initial_failures == state.initial_failures + 1
            &&& !up && state.has_succeeded ==> after.initial_failures == state.initial_failures
            &&& after == (ServerStateView {
                has_succeeded: after.has_succeeded,
                consecutive_failures: after.consecutive_failures,
                initial_failures: after.initial_failures,
                ..state
            })
        }),
{
}

/// The slowed interval is the interval of a server that is down times the
/// multiplier, where that is no less and not beyond the greatest interval.
pub proof fn law_slowed_interval_is_multiplied(settings: CollectorSettings)
    ensures
        ({
            let secs = settings.offline_interval_seconds;
            let multiplied = secs * settings.initial_failure_slowdown_multiplier;
            let most = settings.initial_failure_max_interval_seconds * 1_000_000_000;
            &&& secs * 1_000_000_000 <= multiplied <= most ==> slowed_interval(settings)
                == multiplied
            &&& multiplied > most && multiplied >= secs * 1_000_000_000 ==> slowed_interval(
                settings,
            ) == most
            &&& multiplied < secs * 1_000_000_000 <= most ==> slowed_interval(settings) == secs
                * 1_000_000_000
        }),
{
}

/// A jittered interval is the interval times the factor, down to the nanosecond,
/// where that is not less than the least.
pub proof fn law_jitter_multiplies(interval: int, factor: u64, least: int)
    requires
        interval >= 0,
    ensures
        ({
            let wait = jittered(interval, factor, least);
            &&& wait >= least
            &&& interval * factor >= least * 1_000_000_000 ==> wait * 1_000_000_000 <= interval
                * factor < (wait + 1) * 1_000_000_000
            &&& interval * factor < least * 1_000_000_000 ==> wait == least
        }),
{
    assert(interval * factor >= 0) by (nonlinear_arith)
        requires
            interval >= 0,
            factor >= 0,
    ;
}

/// A server that a plugin manages is compared at the interval set for that, is not
/// reported down, and then keeps what was reported of it.
pub proof fn law_plugin_managed_servers_are_compared(
    state: ServerStateView,
    payload: JsonView,
    up: bool,
    settings: CollectorSettings,
    now: u64,
    factor: u64,
)
    requires
        is_factor(factor),
    ensures
        ({
            let done = finished_poll(state, true, payload, up, settings, now, factor);
            &&& done.0.next_due == now + jittered(
                settings.plugin_compare_interval_seconds * 1_000_000_000,
                factor,
                1_000_000_000,
            )
            &&& !up ==> done.1 is None && done.0.emitted == state.emitted
        }),
{
    let interval = settings.plugin_compare_interval_seconds * 1_000_000_000;
    assert(interval * factor <= interval * 1_100_000_000) by (nonlinear_arith)
        requires
            0 <= interval,
            factor < 1_100_000_000,
    ;
}

/// What a finished poll reports is what the poll says, of the server that was
/// polled; of its state the poll changes the counts, the next time and what was
/// reported alone.
pub proof fn law_finished_poll_reports_the_poll(
    state: ServerStateView,
    payload: JsonView,
    settings: CollectorSettings,
    now: u64,
    factor: u64,
    plugin_managed: bool,
)
    ensures
        ({
            let done = finished_poll(state, plugin_managed, payload, true, settings, now, factor);
            let after = done.0;
            &&& done.1 matches Some(report) ==> {
                &&& text_field(report, "server_id"@) == Some(state.server_id)
                &&& field(report, "online"@) == Some(opt_i64_json(i64_field(payload, "online"@)))
                &&& field(report, "max_players"@) == Some(
                    opt_i64_json(i64_field(payload, "max_players"@)),
                )
                &&& text_field(report, "motd"@) == Some(trimmed(text_or_empty(payload, "motd"@)))
                &&& text_field(report, "version"@) == Some(
                    trimmed(text_or_empty(payload, "version"@)),
                )
            }
            &&& !state.emitted.any ==> done.1 is Some
            &&& state.emitted.online != i64_field(payload, "online"@) ==> done.1 is Some
            &&& after.has_succeeded && after.consecutive_failures == 0
            &&& after == (ServerStateView {
                has_succeeded: true,
                consecutive_failures: 0,
                next_due: after.next_due,
                emitted: after.emitted,
                ..state
            })
        }),
{
    lemma_names_differ();
}

/// A server that cannot be polled is put off by the interval set for comparison,
/// jittered, and by a minute at least; its poll is then the one that is wanted, and
/// no other server changes.
pub proof fn law_unreachable_server_is_put_off(
    c: CatalogView,
    key: Seq<char>,
    plugin_interval_seconds: u64,
    now: u64,
    factor: u64,
    other: Seq<char>,
)
    requires
        is_factor(factor),
        c.states.dom().contains(key),
        other != key,
    ensures
        ({
            let after = put_off(c, key, plugin_interval_seconds, now, factor);
            let due = after.states[key].next_due;
            &&& due >= now + 60_000_000_000
            &&& plugin_interval_seconds * factor >= 60_000_000_000 ==> due == now
                + plugin_interval_seconds * factor
            &&& wanted(after.states, key, due)
            &&& after.queue.contains(Due { key, due })
            &&& after.states[key] == (ServerStateView { next_due: due, ..c.states[key] })
            &&& after.states.dom() == c.states.dom()
            &&& c.states.dom().contains(other) ==> after.states[other] == c.states[other]
        }),
{
    let secs = plugin_interval_seconds as int;
    let product = secs * factor;
    assert(0 <= product <= secs * 1_100_000_000) by (nonlinear_arith)
        requires
            product == secs * factor,
            0 <= secs,
            0 <= factor < 1_100_000_000,
    ;
    assert((secs * 1_000_000_000) * factor == product * 1_000_000_000) by (nonlinear_arith)
        requires
            product == secs * factor,
    ;
    assert((product * 1_000_000_000) / 1_000_000_000 == product);
    let after = put_off(c, key, plugin_interval_seconds, now, factor);
    law_scheduled_polls_are_kept(c.queue, Due { key, due: after.states[key].next_due });
    assert(after.states.dom() =~= c.states.dom());
}

/// Only a server that a plugin manages and whose host is internal is not polled.
pub proof fn law_only_internal_plugin_servers_are_skipped(state: ServerStateView)
    ensures
        unreachable(state) <==> state.plugin_managed && begins_with(
            lowered(trimmed(state.target.host)),
            "internal-"@,
        ),
{
}

/// A poll is wanted exactly at the time at which its server is due.
pub proof fn law_polls_are_wanted_when_due(
    states: Map<Seq<char>, ServerStateView>,
    key: Seq<char>,
    due: u128,
)
    ensures
        states.dom().contains(key) ==> (wanted(states, key, due) <==> states[key].next_due == due),
        !states.dom().contains(key) ==> !wanted(states, key, due),
{
}

/// The header for a text has the field `authorization` and no other, with the
/// text's bytes as its only value.
pub proof fn law_header_has_one_field(value: Seq<char>, name: Seq<char>)
    ensures
        authorization(value).dom().contains(name) <==> name == "authorization"@,
        authorization(value)["authorization"@].len() == 1,
        authorization(value)["authorization"@][0] == encode_utf8(value),
{
}

/// The random factor may be any from nine tenths up to eleven.
pub proof fn law_factor_is_about_one(factor: u64)
    ensures
        is_factor(factor) <==> 9 * 100_000_000 <= factor && factor < 11 * 100_000_000,
{
}

} // verus!
