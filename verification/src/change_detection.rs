//! Change detection: compare current poll result with last emitted state.

use vstd::prelude::*;

use crate::digest::{digest_of, text_digest};
use crate::json::{
    field, i64_field, lemma_list_view, list_view, opt_i64_json, text_of_value,
    text_field, text_or_empty, texts_json, Json, JsonObject, JsonView,
};
use crate::models::{nothing_emitted, EmittedView, ServerState, ServerStateView};
use crate::names::lemma_names_differ;
use crate::text::{
    dedup_names, distinct_names, join, joined, opt_text, same_opt_text, same_text, texts, trim,
    trimmed,
};

verus! {

broadcast use vstd::string::group_string_axioms;

// ---------------------------------------------------------------------------
// Players
// ---------------------------------------------------------------------------

/// The texts among some values.
pub open spec fn text_items(items: Seq<JsonView>) -> Seq<Seq<char>>
    decreases items.len(),
{
    if items.len() == 0 {
        Seq::empty()
    } else {
        let before = text_items(items.drop_last());
        match text_of_value(items.last()) {
            Some(t) => before.push(t),
            None => before,
        }
    }
}

/// The distinct player names in the `players` of a value.
pub open spec fn player_names(extra: JsonView) -> Seq<Seq<char>> {
    match field(extra, "players"@) {
        Some(JsonView::Array(items)) => distinct_names(text_items(items)),
        _ => Seq::empty(),
    }
}

/// Extract deduplicated player names from the `extra.players` field.
pub fn extract_players(extra: &Json) -> (r: Vec<String>)
    ensures
        texts(r@) == player_names(extra@),
{
    let items = match extra.get("players") {
        Some(v) => match v.as_array() {
            Some(items) => items,
            None => {
                let none: Vec<String> = Vec::new();
                assert(texts(none@) =~= Seq::<Seq<char>>::empty());
                return none;
            },
        },
        None => {
            let none: Vec<String> = Vec::new();
            assert(texts(none@) =~= Seq::<Seq<char>>::empty());
            return none;
        },
    };
    let ghost all = list_view(items@);
    proof {
        lemma_list_view(items@);
    }
    let mut names: Vec<String> = Vec::new();
    let mut i: usize = 0;
    assert(texts(names@) =~= text_items(all.take(0)));
    while i < items.len()
        invariant
            0 <= i <= items@.len(),
            all == list_view(items@),
            all.len() == items@.len(),
            forall|j: int| 0 <= j < items@.len() ==> all[j] == (#[trigger] items@[j])@,
            texts(names@) == text_items(all.take(i as int)),
        decreases items@.len() - i,
    {
        assert(all.take(i + 1).drop_last() =~= all.take(i as int));
        match items[i].as_str() {
            Some(name) => {
                let ghost before = texts(names@);
                names.push(name.to_owned());
                assert(texts(names@) =~= before.push(name@));
            },
            None => {},
        }
        i = i + 1;
    }
    assert(all.take(i as int) =~= all);
    dedup_names(&names)
}

/// The digest of a player list, of which an empty one has none.
pub open spec fn list_hash(players: Seq<Seq<char>>) -> Option<Seq<char>> {
    if players.len() == 0 {
        None
    } else {
        Some(text_digest(joined(players, "\n"@)))
    }
}

/// Hash player list for change detection.
pub fn players_hash(players: &Vec<String>) -> (r: Option<String>)
    ensures
        opt_text(r) == list_hash(texts(players@)),
{
    if players.is_empty() {
        return None;
    }
    let payload = join(players, "\n");
    Some(digest_of(payload.as_str()))
}

// ---------------------------------------------------------------------------
// Observations
// ---------------------------------------------------------------------------

/// What a poll says of a server.
pub struct Observation {
    pub up: bool,
    pub online: Option<i64>,
    pub max_players: Option<i64>,
    pub version: String,
    pub motd: String,
    pub country: String,
    pub country_code: String,
    pub players: Vec<String>,
    pub players_hash: Option<String>,
}

#[verifier::ext_equal]
pub struct ObservationView {
    pub up: bool,
    pub online: Option<i64>,
    pub max_players: Option<i64>,
    pub version: Seq<char>,
    pub motd: Seq<char>,
    pub country: Seq<char>,
    pub country_code: Seq<char>,
    pub players: Seq<Seq<char>>,
    pub players_hash: Option<Seq<char>>,
}

impl Observation {
    pub open spec fn view(self) -> ObservationView {
        ObservationView {
            up: self.up,
            online: self.online,
            max_players: self.max_players,
            version: self.version@,
            motd: self.motd@,
            country: self.country@,
            country_code: self.country_code@,
            players: texts(self.players@),
            players_hash: opt_text(self.players_hash),
        }
    }
}

/// The text, or the empty one.
pub open spec fn or_empty(text: Option<Seq<char>>) -> Seq<char> {
    match text {
        Some(t) => t,
        None => Seq::empty(),
    }
}

/// The trimmed text under a key.
pub open spec fn reported(payload: JsonView, key: Seq<char>) -> Seq<char> {
    trimmed(text_or_empty(payload, key))
}

/// The first text, or the second where the first is empty.
pub open spec fn first_filled(text: Seq<char>, other: Seq<char>) -> Seq<char> {
    if text.len() == 0 {
        other
    } else {
        text
    }
}

/// What a poll says of a server. Of a server that is down the poll says that
/// nobody is online; all else is as it was last reported, but for a country that
/// is known anew.
pub open spec fn observation(emitted: EmittedView, payload: JsonView, up: bool) -> ObservationView {
    if up {
        let players = match field(payload, "extra"@) {
            Some(extra) => player_names(extra),
            None => Seq::empty(),
        };
        ObservationView {
            up: true,
            online: i64_field(payload, "online"@),
            max_players: i64_field(payload, "max_players"@),
            version: reported(payload, "version"@),
            motd: reported(payload, "motd"@),
            country: reported(payload, "country"@),
            country_code: reported(payload, "country_code"@),
            players,
            players_hash: list_hash(players),
        }
    } else {
        ObservationView {
            up: false,
            online: Some(0),
            max_players: emitted.max_players,
            version: or_empty(emitted.version),
            motd: or_empty(emitted.motd),
            country: first_filled(reported(payload, "country"@), or_empty(emitted.country)),
            country_code: first_filled(
                reported(payload, "country_code"@),
                or_empty(emitted.country_code),
            ),
            players: Seq::empty(),
            players_hash: None,
        }
    }
}

fn report(payload: &Json, key: &str) -> (r: String)
    ensures
        r@ == reported(payload@, key@),
{
    match payload.text_at(key) {
        Some(t) => trim(t).to_owned(),
        None => {
            assert(trimmed(Seq::<char>::empty()) =~= Seq::<char>::empty());
            String::new()
        },
    }
}

fn text_or_new(text: &Option<String>) -> (r: String)
    ensures
        r@ == or_empty(opt_text(*text)),
{
    match text {
        Some(t) => t.clone(),
        None => String::new(),
    }
}

fn fill(text: String, other: &Option<String>) -> (r: String)
    ensures
        r@ == first_filled(text@, or_empty(opt_text(*other))),
{
    if text.as_str().is_empty() {
        text_or_new(other)
    } else {
        text
    }
}

/// What a poll says of a server.
pub fn observe(state: &ServerState, payload: &Json, status_ok: bool) -> (r: Observation)
    ensures
        r@ == observation(state@.emitted, payload@, status_ok),
{
    let country = report(payload, "country");
    let country_code = report(payload, "country_code");
    if status_ok {
        let players = match payload.get("extra") {
            Some(extra) => extract_players(extra),
            None => {
                let none: Vec<String> = Vec::new();
                assert(texts(none@) =~= Seq::<Seq<char>>::empty());
                none
            },
        };
        let players_hash = players_hash(&players);
        Observation {
            up: true,
            online: payload.i64_at("online"),
            max_players: payload.i64_at("max_players"),
            version: report(payload, "version"),
            motd: report(payload, "motd"),
            country,
            country_code,
            players,
            players_hash,
        }
    } else {
        // When offline, preserve last known metadata.
        let players: Vec<String> = Vec::new();
        assert(texts(players@) =~= Seq::<Seq<char>>::empty());
        Observation {
            up: false,
            online: Some(0),
            max_players: state.last_emitted_max_players,
            version: text_or_new(&state.last_emitted_version),
            motd: text_or_new(&state.last_emitted_motd),
            country: fill(country, &state.last_emitted_country),
            country_code: fill(country_code, &state.last_emitted_country_code),
            players,
            players_hash: None,
        }
    }
}

// ---------------------------------------------------------------------------
// Events
// ---------------------------------------------------------------------------

/// Why a report is sent.
#[derive(Debug, Clone, Copy, PartialEq, Eq, Structural)]
pub enum EventType {
    StateFull,
    ServerUp,
    ServerDown,
    OnlineChanged,
    StateUpdated,
}

impl EventType {
    pub open spec fn name(self) -> Seq<char> {
        match self {
            EventType::StateFull => "state_full"@,
            EventType::ServerUp => "server_up"@,
            EventType::ServerDown => "server_down"@,
            EventType::OnlineChanged => "online_changed"@,
            EventType::StateUpdated => "state_updated"@,
        }
    }

    /// The name under which the event is reported.
    pub fn as_str(&self) -> (r: &'static str)
        ensures
            r@ == self.name(),
    {
        match self {
            EventType::StateFull => "state_full",
            EventType::ServerUp => "server_up",
            EventType::ServerDown => "server_down",
            EventType::OnlineChanged => "online_changed",
            EventType::StateUpdated => "state_updated",
        }
    }
}

/// Whether the descriptive data differ from what was last reported.
pub open spec fn meta_differs(emitted: EmittedView, seen: ObservationView) -> bool {
    ||| emitted.max_players != seen.max_players
    ||| or_empty(emitted.version) != seen.version
    ||| or_empty(emitted.motd) != seen.motd
    ||| or_empty(emitted.country) != seen.country
    ||| or_empty(emitted.country_code) != seen.country_code
}

/// What is to be reported: the full state the first time, then a server that
/// went up or down, then another number of players, then any other change, and
/// nothing where nothing changed.
pub open spec fn event(emitted: EmittedView, seen: ObservationView) -> Option<EventType> {
    if !emitted.any {
        Some(EventType::StateFull)
    } else if emitted.up != Some(seen.up) {
        if seen.up {
            Some(EventType::ServerUp)
        } else {
            Some(EventType::ServerDown)
        }
    } else if emitted.online != seen.online {
        Some(EventType::OnlineChanged)
    } else if meta_differs(emitted, seen) || emitted.players_hash != seen.players_hash {
        Some(EventType::StateUpdated)
    } else {
        None
    }
}

fn same_or_empty(text: &Option<String>, other: &str) -> (r: bool)
    ensures
        r == (or_empty(opt_text(*text)) == other@),
{
    match text {
        Some(t) => same_text(t.as_str(), other),
        None => {
            let blank = other.is_empty();
            proof {
                if blank {
                    assert(other@ =~= Seq::<char>::empty());
                }
            }
            blank
        },
    }
}

fn same_opt_i64(a: Option<i64>, b: Option<i64>) -> (r: bool)
    ensures
        r == (a == b),
{
    match (a, b) {
        (Some(x), Some(y)) => x == y,
        (None, None) => true,
        _ => false,
    }
}

/// What is to be reported of a server.
pub fn detect_event(state: &ServerState, seen: &Observation) -> (r: Option<EventType>)
    ensures
        r == event(state@.emitted, seen@),
{
    let changed_online = !same_opt_i64(state.last_emitted_online, seen.online);
    let changed_up = match state.last_emitted_up {
        Some(up) => up != seen.up,
        None => true,
    };
    let changed_meta = !same_opt_i64(state.last_emitted_max_players, seen.max_players)
        || !same_or_empty(&state.last_emitted_version, seen.version.as_str())
        || !same_or_empty(&state.last_emitted_motd, seen.motd.as_str())
        || !same_or_empty(&state.last_emitted_country, seen.country.as_str())
        || !same_or_empty(&state.last_emitted_country_code, seen.country_code.as_str());
    let changed_players = !same_opt_text(&state.last_emitted_players_hash, &seen.players_hash);
    if !state.has_emitted_state {
        Some(EventType::StateFull)
    } else if changed_up {
        if seen.up {
            Some(EventType::ServerUp)
        } else {
            Some(EventType::ServerDown)
        }
    } else if changed_online {
        Some(EventType::OnlineChanged)
    } else if changed_meta || changed_players {
        Some(EventType::StateUpdated)
    } else {
        // No change.
        None
    }
}

// ---------------------------------------------------------------------------
// Reports
// ---------------------------------------------------------------------------

/// The `extra` of a report.
pub open spec fn report_extra(plugin_managed: bool, seen: ObservationView) -> JsonView {
    let none = Map::<Seq<char>, JsonView>::empty();
    let players = if seen.players.len() > 0 {
        none.insert("players"@, texts_json(seen.players))
    } else {
        none
    };
    let status = players.insert(
        "poll_status"@,
        JsonView::Text(
            if seen.up {
                "ok"@
            } else {
                "failed"@
            },
        ),
    );
    JsonView::Object(
        if plugin_managed {
            status.insert("compare_probe"@, JsonView::Bool(true))
        } else {
            status
        },
    )
}

/// The report of an event.
pub open spec fn report_json(
    state: ServerStateView,
    payload: JsonView,
    seen: ObservationView,
    event: EventType,
) -> JsonView {
    let collected_at = match field(payload, "collected_at"@) {
        Some(v) => v,
        None => JsonView::Null,
    };
    JsonView::Object(
        Map::<Seq<char>, JsonView>::empty()
            .insert("server_id"@, JsonView::Text(state.server_id))
            .insert("collected_at"@, collected_at)
            .insert("online"@, opt_i64_json(seen.online))
            .insert("max_players"@, opt_i64_json(seen.max_players))
            .insert("version"@, JsonView::Text(seen.version))
            .insert("motd"@, JsonView::Text(seen.motd))
            .insert("country"@, JsonView::Text(seen.country))
            .insert("country_code"@, JsonView::Text(seen.country_code))
            .insert("event_type"@, JsonView::Text(event.name()))
            .insert("extra"@, report_extra(state.plugin_managed, seen)),
    )
}

/// What counts as reported once a report was made.
pub open spec fn emitted_after(emitted: EmittedView, seen: ObservationView) -> EmittedView {
    EmittedView {
        any: true,
        up: Some(seen.up),
        online: seen.online,
        max_players: seen.max_players,
        version: Some(seen.version),
        motd: Some(seen.motd),
        country: Some(seen.country),
        country_code: Some(seen.country_code),
        players_hash: seen.players_hash,
        at: emitted.at,
    }
}

/// The state after a poll and the report that it gives rise to, if any.
pub open spec fn change(state: ServerStateView, payload: JsonView, up: bool) -> (
    ServerStateView,
    Option<JsonView>,
) {
    let seen = observation(state.emitted, payload, up);
    match event(state.emitted, seen) {
        Some(event) => (
            ServerStateView { emitted: emitted_after(state.emitted, seen), ..state },
            Some(report_json(state, payload, seen, event)),
        ),
        None => (state, None),
    }
}

fn build_extra(plugin_managed: bool, seen: &Observation) -> (r: Json)
    ensures
        r@ == report_extra(plugin_managed, seen@),
{
    let mut extra = JsonObject::new();
    if !seen.players.is_empty() {
        extra.insert("players", Json::texts(&seen.players));
    }
    extra.insert("poll_status", Json::text(if seen.up { "ok" } else { "failed" }));
    if plugin_managed {
        extra.insert("compare_probe", Json::Bool(true));
    }
    Json::Object(extra)
}

/// Compare current poll payload against last emitted state.
/// Returns the enriched payload with event_type, or None if unchanged.
pub fn build_change_payload(state: &mut ServerState, payload: &Json, status_ok: bool) -> (r: Option<
    Json,
>)
    ensures
        final(state)@ == change(old(state)@, payload@, status_ok).0,
        match r {
            Some(report) => change(old(state)@, payload@, status_ok).1 == Some(report@),
            None => change(old(state)@, payload@, status_ok).1 is None,
        },
{
    let seen = observe(state, payload, status_ok);
    let event = match detect_event(state, &seen) {
        Some(event) => event,
        None => return None,
    };
    let collected_at = match payload.get("collected_at") {
        Some(v) => v.copy(),
        None => Json::Null,
    };
    let out = JsonObject::new()
        .with("server_id", Json::text(state.server_id.as_str()))
        .with("collected_at", collected_at)
        .with("online", Json::opt_signed(seen.online))
        .with("max_players", Json::opt_signed(seen.max_players))
        .with("version", Json::text(seen.version.as_str()))
        .with("motd", Json::text(seen.motd.as_str()))
        .with("country", Json::text(seen.country.as_str()))
        .with("country_code", Json::text(seen.country_code.as_str()))
        .with("event_type", Json::text(event.as_str()))
        .with("extra", build_extra(state.plugin_managed, &seen));
    // Update emitted state.
    state.has_emitted_state = true;
    state.last_emitted_up = Some(seen.up);
    state.last_emitted_online = seen.online;
    state.last_emitted_max_players = seen.max_players;
    state.last_emitted_version = Some(seen.version);
    state.last_emitted_motd = Some(seen.motd);
    state.last_emitted_country = Some(seen.country);
    state.last_emitted_country_code = Some(seen.country_code);
    state.last_emitted_players_hash = seen.players_hash;
    Some(Json::Object(out))
}

// ---------------------------------------------------------------------------
// Laws
// ---------------------------------------------------------------------------

/// A poll that says the same again gives rise to no second report and leaves
/// the state alone.
pub proof fn law_repeated_poll_is_silent(state: ServerStateView, payload: JsonView, up: bool)
    ensures
        change(change(state, payload, up).0, payload, up) == (
            change(state, payload, up).0,
            None::<JsonView>,
        ),
{
}

/// There is no report exactly where one was made before and the poll says
/// nothing else than it did.
pub proof fn law_silent_exactly_when_unchanged(
    state: ServerStateView,
    payload: JsonView,
    up: bool,
)
    ensures
        change(state, payload, up).1 is None <==> {
            let seen = observation(state.emitted, payload, up);
            let e = state.emitted;
            &&& e.any
            &&& e.up == Some(seen.up)
            &&& e.online == seen.online
            &&& e.max_players == seen.max_players
            &&& or_empty(e.version) == seen.version
            &&& or_empty(e.motd) == seen.motd
            &&& or_empty(e.country) == seen.country
            &&& or_empty(e.country_code) == seen.country_code
            &&& e.players_hash == seen.players_hash
        },
        change(state, payload, up).1 is None ==> change(state, payload, up).0 == state,
{
}

/// After a reset the next poll is reported in full, whatever it says.
pub proof fn law_reset_forces_full_report(state: ServerStateView, payload: JsonView, up: bool)
    ensures
        ({
            let reset = ServerStateView { emitted: nothing_emitted(), ..state };
            let seen = observation(nothing_emitted(), payload, up);
            change(reset, payload, up).1 == Some(
                report_json(reset, payload, seen, EventType::StateFull),
            )
        }),
{
}

/// A server that goes down is reported with nobody online and with the version,
/// message and capacity that were last known, and they stay known.
pub proof fn law_down_keeps_metadata(state: ServerStateView, payload: JsonView)
    ensures
        ({
            let seen = observation(state.emitted, payload, false);
            let after = change(state, payload, false).0.emitted;
            &&& seen.online == Some(0i64)
            &&& seen.players.len() == 0
            &&& seen.max_players == state.emitted.max_players
            &&& seen.version == or_empty(state.emitted.version)
            &&& seen.motd == or_empty(state.emitted.motd)
            &&& after.max_players == state.emitted.max_players
            &&& or_empty(after.version) == or_empty(state.emitted.version)
            &&& or_empty(after.motd) == or_empty(state.emitted.motd)
        }),
{
}

/// A poll changes nothing of the state but what was last reported.
pub proof fn law_change_touches_emitted_alone(
    state: ServerStateView,
    payload: JsonView,
    up: bool,
)
    ensures
        change(state, payload, up).0 == (ServerStateView {
            emitted: change(state, payload, up).0.emitted,
            ..state
        }),
{
}

/// A report carries the values that count as reported once it was made, each
/// under its own name, so that nothing is noted that was not sent.
pub proof fn law_report_carries_what_counts_as_reported(
    state: ServerStateView,
    payload: JsonView,
    up: bool,
)
    ensures
        change(state, payload, up).1 matches Some(report) ==> {
            let noted = change(state, payload, up).0.emitted;
            &&& noted.any
            &&& noted.up == Some(up)
            &&& field(report, "online"@) == Some(opt_i64_json(noted.online))
            &&& field(report, "max_players"@) == Some(opt_i64_json(noted.max_players))
            &&& noted.version is Some && text_field(report, "version"@) == noted.version
            &&& noted.motd is Some && text_field(report, "motd"@) == noted.motd
            &&& noted.country is Some && text_field(report, "country"@) == noted.country
            &&& noted.country_code is Some && text_field(report, "country_code"@)
                == noted.country_code
            &&& text_field(report, "server_id"@) == Some(state.server_id)
            &&& field(report, "collected_at"@) == match field(payload, "collected_at"@) {
                Some(time) => Some(time),
                None => Some(JsonView::Null),
            }
        },
{
    lemma_names_differ();
}

/// What is reported of a server that is up are the figures and the trimmed texts
/// of the poll, whatever was reported before.
pub proof fn law_up_report_is_the_poll(state: ServerStateView, payload: JsonView)
    ensures
        change(state, payload, true).1 matches Some(report) ==> {
            &&& field(report, "online"@) == Some(opt_i64_json(i64_field(payload, "online"@)))
            &&& field(report, "max_players"@) == Some(
                opt_i64_json(i64_field(payload, "max_players"@)),
            )
            &&& text_field(report, "version"@) == Some(
                trimmed(text_or_empty(payload, "version"@)),
            )
            &&& text_field(report, "motd"@) == Some(trimmed(text_or_empty(payload, "motd"@)))
            &&& text_field(report, "country"@) == Some(
                trimmed(text_or_empty(payload, "country"@)),
            )
            &&& text_field(report, "country_code"@) == Some(
                trimmed(text_or_empty(payload, "country_code"@)),
            )
        },
{
    lemma_names_differ();
}

/// What is reported of a server that is down: nobody online, the capacity, version
/// and message that were last reported, and the country that the poll names or
/// else the last one.
pub proof fn law_down_report_is_the_last_known(state: ServerStateView, payload: JsonView)
    ensures
        change(state, payload, false).1 matches Some(report) ==> {
            let before = state.emitted;
            let country = trimmed(text_or_empty(payload, "country"@));
            let code = trimmed(text_or_empty(payload, "country_code"@));
            &&& field(report, "online"@) == Some(opt_i64_json(Some(0)))
            &&& field(report, "max_players"@) == Some(opt_i64_json(before.max_players))
            &&& before.version matches Some(v) ==> text_field(report, "version"@) == Some(v)
            &&& before.motd matches Some(m) ==> text_field(report, "motd"@) == Some(m)
            &&& country.len() > 0 ==> text_field(report, "country"@) == Some(country)
            &&& code.len() > 0 ==> text_field(report, "country_code"@) == Some(code)
            &&& country.len() == 0 && before.country is Some ==> text_field(report, "country"@)
                == before.country
            &&& code.len() == 0 && before.country_code is Some ==> text_field(
                report,
                "country_code"@,
            ) == before.country_code
        },
{
    lemma_names_differ();
}

/// A report names the event: the first report of a server, its going up or down,
/// another number of players, or another change; the first that applies.
pub proof fn law_report_names_the_event(state: ServerStateView, payload: JsonView, up: bool)
    ensures
        change(state, payload, up).1 matches Some(report) ==> {
            let noted = change(state, payload, up).0.emitted;
            let name = text_field(report, "event_type"@);
            if !state.emitted.any {
                name == Some("state_full"@)
            } else if state.emitted.up != Some(up) {
                name == Some(
                    if up {
                        "server_up"@
                    } else {
                        "server_down"@
                    },
                )
            } else if state.emitted.online != noted.online {
                name == Some("online_changed"@)
            } else {
                name == Some("state_updated"@) && noted != state.emitted
            }
        },
{
    lemma_names_differ();
}

/// What a report says beside the figures: the players that the poll names, if
/// any, whether the poll succeeded, and whether it is there for comparison only.
pub proof fn law_report_extra(state: ServerStateView, payload: JsonView, up: bool)
    ensures
        change(state, payload, up).1 matches Some(report) ==> {
            let extra = field(report, "extra"@)->0;
            let players = match field(payload, "extra"@) {
                Some(polled) => player_names(polled),
                None => Seq::empty(),
            };
            &&& field(report, "extra"@) is Some
            &&& text_field(extra, "poll_status"@) == Some(
                if up {
                    "ok"@
                } else {
                    "failed"@
                },
            )
            &&& up && players.len() > 0 ==> field(extra, "players"@) == Some(texts_json(players))
            &&& !up || players.len() == 0 ==> field(extra, "players"@) is None
            &&& state.plugin_managed ==> field(extra, "compare_probe"@) == Some(
                JsonView::Bool(true),
            )
            &&& !state.plugin_managed ==> field(extra, "compare_probe"@) is None
        },
{
    lemma_names_differ();
}

/// A poll of a server that is up is silent exactly where all that it says was
/// reported already.
pub proof fn law_up_silence_means_all_was_reported(state: ServerStateView, payload: JsonView)
    ensures
        change(state, payload, true).1 is None <==> {
            let e = state.emitted;
            let players = match field(payload, "extra"@) {
                Some(polled) => player_names(polled),
                None => Seq::empty(),
            };
            &&& e.any
            &&& e.up == Some(true)
            &&& e.online == i64_field(payload, "online"@)
            &&& e.max_players == i64_field(payload, "max_players"@)
            &&& or_empty(e.version) == trimmed(text_or_empty(payload, "version"@))
            &&& or_empty(e.motd) == trimmed(text_or_empty(payload, "motd"@))
            &&& or_empty(e.country) == trimmed(text_or_empty(payload, "country"@))
            &&& or_empty(e.country_code) == trimmed(text_or_empty(payload, "country_code"@))
            &&& players.len() == 0 ==> e.players_hash is None
            &&& players.len() > 0 ==> e.players_hash == Some(
                text_digest(joined(players, seq!['\n'])),
            )
        },
{
    reveal_strlit("\n");
    assert("\n"@ =~= seq!['\n']);
}

proof fn lemma_text_items(list: Seq<Seq<char>>)
    ensures
        text_items(texts_json(list)->Array_0) == list,
    decreases list.len(),
{
    let items = texts_json(list)->Array_0;
    if list.len() > 0 {
        let shorter = list.drop_last();
        lemma_text_items(shorter);
        assert(items.drop_last() =~= texts_json(shorter)->Array_0);
        assert(shorter.push(list.last()) =~= list);
    } else {
        assert(text_items(items) =~= list);
    }
}

/// The players of a list of names are those names, trimmed, each once, in order,
/// and the digest of a poll's players is that of their lines.
pub proof fn law_players_are_read_from_their_list(
    fields: Map<Seq<char>, JsonView>,
    list: Seq<Seq<char>>,
)
    ensures
        player_names(JsonView::Object(fields.insert("players"@, texts_json(list))))
            == distinct_names(list),
        !fields.dom().contains("players"@) ==> player_names(JsonView::Object(fields)).len() == 0,
{
    lemma_text_items(list);
}

} // verus!
