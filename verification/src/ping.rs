//! What a status poll yields, and the favicons and Bedrock probes that follow it.

use base64::Engine;
use vstd::prelude::*;
use vstd::utf8::is_ascii_chars;

use crate::chance::random_below;
use crate::change_detection::{change, law_players_are_read_from_their_list, player_names};
use crate::digest::{digest_of, text_digest};
use crate::json::{
    field, i64_field, int_number, text_field, text_or_empty, texts_json, Json, JsonObject, JsonView,
};
use crate::models::{
    next_probe, schedule_next_bedrock_probe_with, wants_probe, ServerState, ServerStateView,
    BEDROCK_DEFAULT_PORT,
};
use crate::names::lemma_names_differ;
use crate::text::{
    begins_with, dedup_names, distinct_names, lemma_trimmed_again, lowered, opt_text, same_text,
    starts_with, texts, trimmed,
};

verus! {

broadcast use vstd::string::group_string_axioms;

// ---------------------------------------------------------------------------
// Results of polls
// ---------------------------------------------------------------------------

/// What a server answers to a status request.
#[derive(Debug)]
pub struct StatusReply {
    pub online: u64,
    pub max_players: u64,
    pub version: String,
    /// The text of the description.
    pub motd: Option<String>,
    /// The favicon's PNG bytes.
    pub favicon: Option<Vec<u8>>,
    /// The names of some of the players.
    pub sample: Option<Vec<String>>,
}

pub struct StatusView {
    pub online: u64,
    pub max_players: u64,
    pub version: Seq<char>,
    pub motd: Option<Seq<char>>,
    pub favicon: Option<Seq<u8>>,
    pub sample: Option<Seq<Seq<char>>>,
}

impl StatusReply {
    pub open spec fn view(self) -> StatusView {
        StatusView {
            online: self.online,
            max_players: self.max_players,
            version: self.version@,
            motd: opt_text(self.motd),
            favicon: match self.favicon {
                Some(bytes) => Some(bytes@),
                None => None,
            },
            sample: match self.sample {
                Some(names) => Some(texts(names@)),
                None => None,
            },
        }
    }
}

/// Result of polling one server.
#[derive(Debug)]
pub struct PollResult {
    pub payload: Json,
    pub status_ok: bool,
    pub favicon: String,
}

pub struct PollView {
    pub payload: JsonView,
    pub status_ok: bool,
    pub favicon: Seq<char>,
}

impl PollResult {
    pub open spec fn view(self) -> PollView {
        PollView {
            payload: self.payload@,
            status_ok: self.status_ok,
            favicon: self.favicon@,
        }
    }
}

/// The text that the standard alphabet of `base64` makes of bytes.
pub uninterp spec fn base64_text(bytes: Seq<u8>) -> Seq<char>;

/// The length of that text: four characters for three bytes, the last group
/// padded.
pub open spec fn base64_len(len: int) -> int {
    (len + 2) / 3 * 4
}

/// `Engine::encode` with the engine `STANDARD` of the `base64` crate: the text
/// depends on the bytes alone and has four characters for each begun group of
/// three bytes. The crate panics where so long a text cannot be held.
#[verifier::external_body]
fn encode_base64(bytes: &Vec<u8>) -> (r: String)
    requires
        base64_len(bytes@.len() as int) <= isize::MAX,
    ensures
        r@ == base64_text(bytes@),
        r@.len() == base64_len(bytes@.len() as int),
{
    base64::engine::general_purpose::STANDARD.encode(bytes)
}

/// The data URL of a favicon whose `base64` text is given.
pub open spec fn data_url(encoded: Seq<char>) -> Seq<char> {
    "data:image/png;base64,"@ + encoded
}

/// The data URL of a favicon, empty where there is none.
pub open spec fn favicon_url(favicon: Option<Seq<u8>>) -> Seq<char> {
    match favicon {
        Some(bytes) => if bytes.len() > 0 {
            data_url(base64_text(bytes))
        } else {
            Seq::empty()
        },
        None => Seq::empty(),
    }
}

/// The favicon is short enough for its data URL to be made.
pub open spec fn favicon_fits(favicon: Option<Vec<u8>>) -> bool {
    favicon matches Some(bytes) ==> base64_len(bytes@.len() as int) <= isize::MAX
}

/// The data URL of a favicon whose `base64` text is given.
pub fn favicon_data_url(encoded: &str) -> (r: String)
    ensures
        r@ == data_url(encoded@),
{
    let mut url = "data:image/png;base64,".to_owned();
    url.append(encoded);
    url
}

/// The data URL of a favicon, empty where there is none.
pub fn encode_favicon(favicon: &Option<Vec<u8>>) -> (r: String)
    requires
        favicon_fits(*favicon),
    ensures
        r@ == favicon_url(
            match *favicon {
                Some(bytes) => Some(bytes@),
                None => None,
            },
        ),
{
    match favicon {
        Some(bytes) if bytes.len() > 0 => {
            let encoded = encode_base64(bytes);
            favicon_data_url(encoded.as_str())
        },
        _ => String::new(),
    }
}

/// The part of a poll's payload that every poll has.
pub open spec fn base_payload(
    server_id: Seq<char>,
    collected_at: Seq<char>,
    country: Seq<char>,
    country_code: Seq<char>,
) -> Map<Seq<char>, JsonView> {
    Map::<Seq<char>, JsonView>::empty()
        .insert("server_id"@, JsonView::Text(server_id))
        .insert("collected_at"@, JsonView::Text(collected_at))
        .insert("country"@, JsonView::Text(country))
        .insert("country_code"@, JsonView::Text(country_code))
}

/// What a poll carries beside the figures: the players that are named, if any.
pub open spec fn extra_of(sample: Option<Seq<Seq<char>>>) -> JsonView {
    let players = match sample {
        Some(names) => distinct_names(names),
        None => Seq::empty(),
    };
    if players.len() > 0 {
        JsonView::Object(
            Map::<Seq<char>, JsonView>::empty().insert("players"@, texts_json(players)),
        )
    } else {
        JsonView::Object(Map::empty())
    }
}

/// The result of a poll from the server's reply, or from none.
pub open spec fn polled(
    server_id: Seq<char>,
    collected_at: Seq<char>,
    country: Seq<char>,
    country_code: Seq<char>,
    reply: Option<StatusView>,
) -> PollView {
    let base = base_payload(server_id, collected_at, country, country_code);
    match reply {
        Some(status) => PollView {
            payload: JsonView::Object(
                base
                    .insert("online"@, JsonView::Number(int_number(status.online as int)))
                    .insert("max_players"@, JsonView::Number(int_number(status.max_players as int)))
                    .insert("version"@, JsonView::Text(status.version))
                    .insert("motd"@, JsonView::Text(
                        match status.motd {
                            Some(motd) => motd,
                            None => Seq::empty(),
                        },
                    ))
                    .insert("extra"@, extra_of(status.sample)),
            ),
            status_ok: true,
            favicon: favicon_url(status.favicon),
        },
        None => PollView {
            payload: JsonView::Object(
                base
                    .insert("online"@, JsonView::Null)
                    .insert("max_players"@, JsonView::Null)
                    .insert("version"@, JsonView::Text(Seq::empty()))
                    .insert("motd"@, JsonView::Text(Seq::empty())),
            ),
            status_ok: false,
            favicon: Seq::empty(),
        },
    }
}

fn build_extra(sample: &Option<Vec<String>>) -> (r: Json)
    ensures
        r@ == extra_of(
            match *sample {
                Some(names) => Some(texts(names@)),
                None => None,
            },
        ),
{
    let players = match sample {
        Some(names) => dedup_names(names),
        None => Vec::new(),
    };
    if players.len() > 0 {
        Json::Object(JsonObject::new().with("players", Json::texts(&players)))
    } else {
        Json::Object(JsonObject::new())
    }
}

/// The result of a poll from the server's reply, or from none.
pub fn poll_result(
    server_id: &str,
    collected_at: &str,
    country: &str,
    country_code: &str,
    reply: &Option<StatusReply>,
) -> (r: PollResult)
    requires
        reply matches Some(status) ==> favicon_fits(status.favicon),
    ensures
        r@ == polled(
            server_id@,
            collected_at@,
            country@,
            country_code@,
            match *reply {
                Some(status) => Some(status@),
                None => None,
            },
        ),
{
    let base = JsonObject::new().with("server_id", Json::text(server_id)).with(
        "collected_at",
        Json::text(collected_at),
    ).with("country", Json::text(country)).with("country_code", Json::text(country_code));
    match reply {
        Some(status) => {
            let motd = match &status.motd {
                Some(motd) => motd.clone(),
                None => String::new(),
            };
            let payload = base.with("online", Json::unsigned(status.online)).with(
                "max_players",
                Json::unsigned(status.max_players),
            ).with("version", Json::text(status.version.as_str())).with(
                "motd",
                Json::Text(motd),
            ).with("extra", build_extra(&status.sample));
            PollResult {
                payload: Json::Object(payload),
                status_ok: true,
                favicon: encode_favicon(&status.favicon),
            }
        },
        None => {
            let payload = base.with("online", Json::Null).with("max_players", Json::Null).with(
                "version",
                Json::Text(String::new()),
            ).with("motd", Json::Text(String::new()));
            PollResult { payload: Json::Object(payload), status_ok: false, favicon: String::new() }
        },
    }
}

// ---------------------------------------------------------------------------
// Timestamps
// ---------------------------------------------------------------------------

/// The time of so many seconds and nanoseconds after the epoch, as `chrono`
/// writes it in a format; nothing where it has no such time.
pub uninterp spec fn formatted_utc(secs: i64, nanos: u32, format: Seq<char>) -> Option<Seq<char>>;

/// The time of so many seconds and nanoseconds after the epoch, as `chrono`
/// writes it after RFC 3339; nothing where it has no such time.
pub uninterp spec fn rfc3339_utc(secs: i64, nanos: u32) -> Option<Seq<char>>;

/// `NaiveDateTime::format` of the time that `DateTime::from_timestamp` of the
/// `chrono` crate makes: the text depends on the arguments alone. `chrono` panics
/// on a format that it does not know.
#[verifier::external_body]
fn format_utc(secs: i64, nanos: u32, format: &str) -> (r: Option<String>)
    requires
        format@ == "%Y-%m-%dT%H:%M:%S%.6f"@,
    ensures
        opt_text(r) == formatted_utc(secs, nanos, format@),
{
    match chrono::DateTime::from_timestamp(secs, nanos) {
        Some(time) => Some(time.naive_utc().format(format).to_string()),
        None => None,
    }
}

/// `DateTime::to_rfc3339` of the time that `DateTime::from_timestamp` of the
/// `chrono` crate makes: the text depends on the arguments alone.
#[verifier::external_body]
fn write_rfc3339(secs: i64, nanos: u32) -> (r: Option<String>)
    ensures
        opt_text(r) == rfc3339_utc(secs, nanos),
{
    match chrono::DateTime::from_timestamp(secs, nanos) {
        Some(time) => Some(time.to_rfc3339()),
        None => None,
    }
}

/// When a poll was made, in microseconds and without an offset.
pub fn collected_at(secs: i64, nanos: u32) -> (r: Option<String>)
    ensures
        opt_text(r) == formatted_utc(secs, nanos, "%Y-%m-%dT%H:%M:%S%.6f"@),
{
    format_utc(secs, nanos, "%Y-%m-%dT%H:%M:%S%.6f")
}

/// When a discovery probe was made.
pub fn probed_at(secs: i64, nanos: u32) -> (r: Option<String>)
    ensures
        opt_text(r) == rfc3339_utc(secs, nanos),
{
    write_rfc3339(secs, nanos)
}

// ---------------------------------------------------------------------------
// Favicons
// ---------------------------------------------------------------------------

/// The hash of a favicon, if it is an image's data URL.
pub open spec fn hash_of_favicon(value: Seq<char>) -> Option<Seq<char>> {
    if begins_with(value, "data:image"@) {
        Some(text_digest(value))
    } else {
        None
    }
}

/// Hash a favicon data URL for change detection.
pub fn favicon_hash(value: &str) -> (r: Option<String>)
    ensures
        opt_text(r) == hash_of_favicon(value@),
{
    if starts_with(value, "data:image") {
        Some(digest_of(value))
    } else {
        None
    }
}

/// The upload of a favicon.
#[derive(Debug)]
pub struct FaviconUpload {
    pub url: String,
    pub body: Json,
    pub hash: String,
}

pub struct UploadView {
    pub url: Seq<char>,
    pub body: JsonView,
    pub hash: Seq<char>,
}

impl FaviconUpload {
    pub open spec fn view(self) -> UploadView {
        UploadView { url: self.url@, body: self.body@, hash: self.hash@ }
    }
}

/// The address of a server under server-service.
pub open spec fn server_resource(api: Seq<char>, server_id: Seq<char>, what: Seq<char>) -> Seq<
    char,
> {
    api + "/internal/servers/"@ + server_id + what
}

fn resource_url(api: &str, server_id: &str, what: &str) -> (r: String)
    ensures
        r@ == server_resource(api@, server_id@, what@),
{
    let mut url = api.to_owned();
    url.append("/internal/servers/");
    url.append(server_id);
    url.append(what);
    url
}

/// The upload that a poll's favicon calls for: where requests can be
/// authorized, that of a favicon with another hash than the last one uploaded.
pub open spec fn upload_of(
    state: ServerStateView,
    favicon: Seq<char>,
    api: Seq<char>,
    authorized: bool,
) -> Option<UploadView> {
    match hash_of_favicon(favicon) {
        Some(hash) => if authorized && state.last_favicon_hash != Some(hash) {
            Some(
                UploadView {
                    url: server_resource(api, state.server_id, "/favicon"@),
                    body: JsonView::Object(
                        Map::<Seq<char>, JsonView>::empty()
                            .insert("data_url"@, JsonView::Text(favicon))
                            .insert("hash"@, JsonView::Text(hash)),
                    ),
                    hash,
                },
            )
        } else {
            None
        },
        None => None,
    }
}

/// The upload that a poll's favicon calls for.
pub fn favicon_upload(
    state: &ServerState,
    favicon: &str,
    api: &str,
    authorized: bool,
) -> (r: Option<FaviconUpload>)
    ensures
        match r {
            Some(upload) => upload_of(state@, favicon@, api@, authorized) == Some(upload@),
            None => upload_of(state@, favicon@, api@, authorized) is None,
        },
{
    if !authorized {
        return None;
    }
    let hash = match favicon_hash(favicon) {
        Some(hash) => hash,
        None => return None,
    };
    if let Some(last) = &state.last_favicon_hash {
        if same_text(last.as_str(), hash.as_str()) {
            return None;
        }
    }
    let body = JsonObject::new().with("data_url", Json::text(favicon)).with(
        "hash",
        Json::text(hash.as_str()),
    );
    Some(
        FaviconUpload {
            url: resource_url(api, state.server_id.as_str(), "/favicon"),
            body: Json::Object(body),
            hash,
        },
    )
}

/// The state after an upload of a favicon was answered.
pub open spec fn after_upload(
    state: ServerStateView,
    hash: Seq<char>,
    success: bool,
) -> ServerStateView {
    if success {
        ServerStateView { last_favicon_hash: Some(hash), ..state }
    } else {
        state
    }
}

/// Notes that a favicon was uploaded, if it was.
pub fn favicon_uploaded(state: &mut ServerState, upload: FaviconUpload, success: bool)
    ensures
        final(state)@ == after_upload(old(state)@, upload.hash@, success),
{
    if success {
        state.last_favicon_hash = Some(upload.hash);
    }
}

/// A favicon that was uploaded is not uploaded again, and one whose upload
/// failed is.
pub proof fn law_favicon_is_uploaded_once(
    state: ServerStateView,
    favicon: Seq<char>,
    api: Seq<char>,
    authorized: bool,
)
    ensures
        upload_of(state, favicon, api, authorized) matches Some(upload) ==> upload_of(
            after_upload(state, upload.hash, true),
            favicon,
            api,
            authorized,
        ) is None && upload_of(after_upload(state, upload.hash, false), favicon, api, authorized)
            == Some(upload),
{
}

// ---------------------------------------------------------------------------
// Bedrock probes
// ---------------------------------------------------------------------------

/// The port on which a server is probed for Bedrock, where it is to be probed.
pub open spec fn probe_port(state: ServerStateView) -> Option<u16> {
    match (state.next_bedrock_probe, state.target.bedrock_port) {
        (None, _) => None,
        (Some(_), Some(port)) => Some(port),
        (Some(_), None) => Some(BEDROCK_DEFAULT_PORT),
    }
}

/// The port on which a server is probed for Bedrock, where it is to be probed.
pub fn bedrock_probe_port(state: &ServerState) -> (r: Option<u16>)
    ensures
        r == probe_port(state@),
{
    match state.next_bedrock_probe {
        None => None,
        Some(_) => match state.bedrock_port {
            Some(port) => Some(port),
            None => Some(BEDROCK_DEFAULT_PORT),
        },
    }
}

/// The request that tells server-service of a server that answered a probe.
#[derive(Debug)]
pub struct EditionPatch {
    pub url: String,
    pub body: Json,
}

/// The request that tells server-service of a server that answered a probe:
/// none where it did not answer or requests cannot be authorized.
pub fn edition_patch(
    state: &ServerState,
    api: &str,
    authorized: bool,
    answered: bool,
) -> (r: Option<EditionPatch>)
    ensures
        match r {
            Some(patch) => authorized && answered && patch.url@ == server_resource(
                api@,
                state.server_id@,
                "/edition"@,
            ) && patch.body@ == JsonView::Object(
                Map::<Seq<char>, JsonView>::empty().insert(
                    "game_edition"@,
                    JsonView::Text("java_bedrock"@),
                ),
            ),
            None => !(authorized && answered),
        },
{
    if authorized && answered {
        let body = JsonObject::new().with("game_edition", Json::text("java_bedrock"));
        Some(
            EditionPatch {
                url: resource_url(api, state.server_id.as_str(), "/edition"),
                body: Json::Object(body),
            },
        )
    } else {
        None
    }
}

/// A catalog entry once its edition was patched.
pub open spec fn with_both_editions(server: JsonView) -> JsonView {
    match server {
        JsonView::Object(fields) => JsonView::Object(
            fields.insert("game_edition"@, JsonView::Text("java_bedrock"@)),
        ),
        other => other,
    }
}

/// The state after a probe: the edition is noted where it was patched, and the
/// next probe is set, counted from the start.
pub open spec fn after_probe(
    state: ServerStateView,
    patched: bool,
    probe_interval: u64,
    probe_jitter: u64,
    ratio: i64,
) -> ServerStateView {
    let server = if patched {
        with_both_editions(state.server)
    } else {
        state.server
    };
    ServerStateView {
        server,
        next_bedrock_probe: next_probe(server, 0, probe_interval, probe_jitter, ratio),
        ..state
    }
}

/// Notes the outcome of a probe and sets the next one, off by `ratio` billionths
/// of the greatest deviation. A server whose edition was patched is not probed
/// again.
pub fn finish_probe_with(
    state: &mut ServerState,
    patched: bool,
    probe_interval: u64,
    probe_jitter: u64,
    ratio: i64,
)
    requires
        -1_000_000_000 <= ratio < 1_000_000_000,
    ensures
        final(state)@ == after_probe(old(state)@, patched, probe_interval, probe_jitter, ratio),
        patched && old(state)@.server is Object ==> final(state)@.next_bedrock_probe is None,
{
    if patched {
        if let Json::Object(object) = &mut state.server {
            object.insert("game_edition", Json::text("java_bedrock"));
        }
    }
    proof {
        reveal_strlit("java_bedrock");
        reveal_strlit("java");
        if patched && state.server@ is Object {
            let named = "java_bedrock"@;
            assert(field(state.server@, "game_edition"@) == Some(JsonView::Text(named)));
            assert(is_ascii_chars(named));
            assert(lowered(named).len() != "java"@.len());
        }
    }
    state.next_bedrock_probe =
    schedule_next_bedrock_probe_with(&state.server, 0, probe_interval, probe_jitter, ratio);
}

/// Notes the outcome of a probe and sets the next one with a random deviation.
pub fn finish_probe(state: &mut ServerState, patched: bool, probe_interval: u64, probe_jitter: u64)
    ensures
        exists|ratio: i64|
            -1_000_000_000 <= ratio < 1_000_000_000 && final(state)@ == #[trigger] after_probe(
                old(state)@,
                patched,
                probe_interval,
                probe_jitter,
                ratio,
            ),
        patched && old(state)@.server is Object ==> final(state)@.next_bedrock_probe is None,
{
    let ratio: i64 = random_below(2_000_000_000) as i64 - 1_000_000_000;
    finish_probe_with(state, patched, probe_interval, probe_jitter, ratio);
}

// ---------------------------------------------------------------------------
// Laws of payloads and requests
// ---------------------------------------------------------------------------

/// The payload of a poll that was answered has the reply's figures and texts under
/// their names, with where and when the poll was made.
pub proof fn law_payload_holds_the_reply(
    server_id: Seq<char>,
    collected_at: Seq<char>,
    country: Seq<char>,
    country_code: Seq<char>,
    status: StatusView,
)
    ensures
        ({
            let result = polled(server_id, collected_at, country, country_code, Some(status));
            let payload = result.payload;
            &&& result.status_ok
            &&& text_field(payload, "server_id"@) == Some(server_id)
            &&& text_field(payload, "collected_at"@) == Some(collected_at)
            &&& text_field(payload, "country"@) == Some(country)
            &&& text_field(payload, "country_code"@) == Some(country_code)
            &&& field(payload, "online"@) == Some(
                JsonView::Number(int_number(status.online as int)),
            )
            &&& field(payload, "max_players"@) == Some(
                JsonView::Number(int_number(status.max_players as int)),
            )
            &&& text_field(payload, "version"@) == Some(status.version)
            &&& status.motd is Some ==> text_field(payload, "motd"@) == status.motd
            &&& status.motd is None ==> text_or_empty(payload, "motd"@).len() == 0
            &&& field(payload, "extra"@) is Some
            &&& player_names(field(payload, "extra"@)->0) == match status.sample {
                Some(names) => distinct_names(names),
                None => Seq::empty(),
            }
        }),
{
    lemma_names_differ();
    let names = match status.sample {
        Some(names) => names,
        None => Seq::empty(),
    };
    assert(distinct_names(Seq::<Seq<char>>::empty()).len() == 0);
    let players = distinct_names(names);
    law_players_are_read_from_their_list(Map::empty(), players);
    lemma_distinct_again(names);
    if players.len() == 0 {
        assert(players =~= Seq::<Seq<char>>::empty());
        assert(player_names(extra_of(status.sample)) =~= players);
    }
}

/// The payload of a poll that was not answered has no figures and no texts, but
/// still says where and when the poll was made.
pub proof fn law_payload_of_no_reply_is_blank(
    server_id: Seq<char>,
    collected_at: Seq<char>,
    country: Seq<char>,
    country_code: Seq<char>,
)
    ensures
        ({
            let result = polled(server_id, collected_at, country, country_code, None);
            let payload = result.payload;
            &&& !result.status_ok
            &&& result.favicon.len() == 0
            &&& text_field(payload, "server_id"@) == Some(server_id)
            &&& text_field(payload, "collected_at"@) == Some(collected_at)
            &&& text_field(payload, "country"@) == Some(country)
            &&& text_field(payload, "country_code"@) == Some(country_code)
            &&& field(payload, "online"@) == Some(JsonView::Null)
            &&& field(payload, "max_players"@) == Some(JsonView::Null)
            &&& text_field(payload, "version"@) == Some(Seq::<char>::empty())
            &&& text_field(payload, "motd"@) == Some(Seq::<char>::empty())
            &&& field(payload, "extra"@) is None
        }),
{
    lemma_names_differ();
}

/// What a server answers is what is noted of it as reported, and with it sent.
pub proof fn law_reply_is_reported(
    state: ServerStateView,
    collected_at: Seq<char>,
    country: Seq<char>,
    country_code: Seq<char>,
    status: StatusView,
)
    requires
        status.online <= i64::MAX,
        status.max_players <= i64::MAX,
    ensures
        ({
            let result = polled(
                state.server_id,
                collected_at,
                country,
                country_code,
                Some(status),
            );
            change(state, result.payload, true).1 matches Some(report) ==> {
                &&& i64_field(report, "online"@) == Some(status.online as i64)
                &&& i64_field(report, "max_players"@) == Some(status.max_players as i64)
                &&& text_field(report, "version"@) == Some(trimmed(status.version))
                &&& status.motd matches Some(motd) ==> text_field(report, "motd"@) == Some(
                    trimmed(motd),
                )
                &&& text_field(report, "country"@) == Some(trimmed(country))
                &&& text_field(report, "country_code"@) == Some(trimmed(country_code))
                &&& text_field(report, "collected_at"@) == Some(collected_at)
                &&& text_field(report, "server_id"@) == Some(state.server_id)
            }
        }),
{
    lemma_names_differ();
}

proof fn lemma_distinct_again(list: Seq<Seq<char>>)
    ensures
        distinct_names(distinct_names(list)) == distinct_names(list),
    decreases list.len(),
{
    if list.len() > 0 {
        let shorter = list.drop_last();
        lemma_distinct_again(shorter);
        let before = distinct_names(shorter);
        let name = trimmed(list.last());
        if !(name.len() == 0 || before.contains(name)) {
            let now = before.push(name);
            assert(now.drop_last() =~= before);
            lemma_trimmed_again(list.last());
        }
    }
}

/// A favicon's data URL is that of a PNG image and of the favicon's bytes; without
/// bytes there is none.
pub proof fn law_favicon_url_is_an_image(bytes: Seq<u8>)
    ensures
        favicon_url(None).len() == 0,
        favicon_url(Some(Seq::empty())).len() == 0,
        bytes.len() > 0 ==> favicon_url(Some(bytes)) == "data:image/png;base64,"@ + base64_text(
            bytes,
        ),
        bytes.len() > 0 ==> hash_of_favicon(favicon_url(Some(bytes))) == Some(
            text_digest(favicon_url(Some(bytes))),
        ),
{
    reveal_strlit("data:image");
    reveal_strlit("data:image/png;base64,");
    if bytes.len() > 0 {
        let url = favicon_url(Some(bytes));
        assert(url.take(10) =~= "data:image"@);
    }
}

/// An upload brings the favicon and its hash to the server's own address; it is
/// made exactly for an image's data URL whose hash is not the last one.
pub proof fn law_upload_brings_the_favicon(
    state: ServerStateView,
    favicon: Seq<char>,
    api: Seq<char>,
    authorized: bool,
)
    ensures
        upload_of(state, favicon, api, authorized) is Some <==> authorized && begins_with(
            favicon,
            "data:image"@,
        ) && state.last_favicon_hash != Some(text_digest(favicon)),
        upload_of(state, favicon, api, authorized) matches Some(upload) ==> {
            &&& upload.url == api + "/internal/servers/"@ + state.server_id + "/favicon"@
            &&& upload.hash == text_digest(favicon)
            &&& text_field(upload.body, "data_url"@) == Some(favicon)
            &&& text_field(upload.body, "hash"@) == Some(text_digest(favicon))
        },
        after_upload(state, favicon, true) == (ServerStateView {
            last_favicon_hash: Some(favicon),
            ..state
        }),
        after_upload(state, favicon, false) == state,
{
    lemma_names_differ();
}

/// A server is probed on its Bedrock port, or on the game's where it has none, and
/// only where a probe is set.
pub proof fn law_probe_goes_to_the_bedrock_port(state: ServerStateView)
    ensures
        probe_port(state) is Some <==> state.next_bedrock_probe is Some,
        probe_port(state) is Some && state.target.bedrock_port is Some ==> probe_port(state)
            == state.target.bedrock_port,
        probe_port(state) is Some && state.target.bedrock_port is None ==> probe_port(state)
            == Some(19132u16),
{
}

/// A probe changes the edition in the entry where it was patched, and nothing else
/// of the entry; of the state it changes the entry and the next probe alone.
pub proof fn law_probe_touches_the_edition_alone(
    state: ServerStateView,
    patched: bool,
    probe_interval: u64,
    probe_jitter: u64,
    ratio: i64,
    other: Seq<char>,
)
    requires
        other != "game_edition"@,
    ensures
        ({
            let after = after_probe(state, patched, probe_interval, probe_jitter, ratio);
            &&& !patched ==> after.server == state.server
            &&& field(after.server, other) == field(state.server, other)
            &&& patched && state.server is Object ==> text_field(after.server, "game_edition"@)
                == Some("java_bedrock"@)
            &&& after == (ServerStateView {
                server: after.server,
                next_bedrock_probe: after.next_bedrock_probe,
                ..state
            })
            &&& after.next_bedrock_probe is Some <==> wants_probe(after.server, probe_interval)
        }),
{
}

} // verus!
