//! Rows and catalog items as the internal services exchange them.

use vstd::prelude::*;
use vstd::utf8::is_ascii_chars;

use crate::change_detection::change;
use crate::json::{
    field, i64_field, i64_of_value, int_number, json_text, opt_i64_json, opt_text_json,
    printed_json, text_field, text_of_value, text_or_empty, Json, JsonObject, JsonView,
};
use crate::models::{address, id_of, plugin_managed, target_of, Edition, ServerStateView};
use crate::names::lemma_names_differ;
use crate::text::{
    integer_text, law_signed_numeral_round_trip, lowered, opt_text, parse_i64, signed_value,
    trimmed,
};

verus! {

broadcast use vstd::string::group_string_axioms;

/// One row of an ingest batch. The open-ended `extra` object is carried as a
/// JSON string.
#[derive(Debug)]
pub struct IngestPoint {
    pub server_id: i64,
    pub collected_at: Option<String>,
    pub online: Option<i32>,
    pub max_players: Option<i32>,
    pub version: Option<String>,
    pub motd: Option<String>,
    pub favicon: Option<String>,
    pub country: Option<String>,
    pub country_code: Option<String>,
    pub event_type: Option<String>,
    pub player_id: Option<String>,
    pub player_name: Option<String>,
    pub online_delta: Option<i32>,
    pub extra_json: Option<String>,
}

#[verifier::ext_equal]
pub struct IngestPointView {
    pub server_id: i64,
    pub collected_at: Option<Seq<char>>,
    pub online: Option<i32>,
    pub max_players: Option<i32>,
    pub version: Option<Seq<char>>,
    pub motd: Option<Seq<char>>,
    pub favicon: Option<Seq<char>>,
    pub country: Option<Seq<char>>,
    pub country_code: Option<Seq<char>>,
    pub event_type: Option<Seq<char>>,
    pub player_id: Option<Seq<char>>,
    pub player_name: Option<Seq<char>>,
    pub online_delta: Option<i32>,
    pub extra_json: Option<Seq<char>>,
}

impl IngestPoint {
    pub open spec fn view(self) -> IngestPointView {
        IngestPointView {
            server_id: self.server_id,
            collected_at: opt_text(self.collected_at),
            online: self.online,
            max_players: self.max_players,
            version: opt_text(self.version),
            motd: opt_text(self.motd),
            favicon: opt_text(self.favicon),
            country: opt_text(self.country),
            country_code: opt_text(self.country_code),
            event_type: opt_text(self.event_type),
            player_id: opt_text(self.player_id),
            player_name: opt_text(self.player_name),
            online_delta: self.online_delta,
            extra_json: opt_text(self.extra_json),
        }
    }
}

/// An id that is a number or a numeral.
pub open spec fn id_number(value: JsonView) -> Option<i64> {
    match i64_of_value(value) {
        Some(n) => Some(n),
        None => match text_of_value(value) {
            Some(t) => match signed_value(t) {
                Some(n) => Some(n as i64),
                None => None,
            },
            None => None,
        },
    }
}

/// The low 32 bits of a number, as a signed number.
pub open spec fn low_bits(n: int) -> int {
    let low = n % 0x1_0000_0000;
    if low >= 0x8000_0000 {
        low - 0x1_0000_0000
    } else {
        low
    }
}

/// The low 32 bits of the number in a field.
pub open spec fn i32_field(row: JsonView, key: Seq<char>) -> Option<i32> {
    match i64_field(row, key) {
        Some(n) => Some(low_bits(n as int) as i32),
        None => None,
    }
}

/// The text of what a row carries beside its fields.
pub open spec fn extra_text(row: JsonView) -> Option<Seq<char>> {
    match field(row, "extra"@) {
        Some(v) => if v is Null {
            None
        } else {
            Some(printed_json(v))
        },
        None => None,
    }
}

/// The row that a report becomes.
pub open spec fn ingest_point(row: JsonView) -> IngestPointView {
    IngestPointView {
        server_id: match field(row, "server_id"@) {
            Some(v) => match id_number(v) {
                Some(n) => n,
                None => 0,
            },
            None => 0,
        },
        collected_at: text_field(row, "collected_at"@),
        online: i32_field(row, "online"@),
        max_players: i32_field(row, "max_players"@),
        version: text_field(row, "version"@),
        motd: text_field(row, "motd"@),
        favicon: text_field(row, "favicon"@),
        country: text_field(row, "country"@),
        country_code: text_field(row, "country_code"@),
        event_type: text_field(row, "event_type"@),
        player_id: text_field(row, "player_id"@),
        player_name: text_field(row, "player_name"@),
        online_delta: i32_field(row, "online_delta"@),
        extra_json: extra_text(row),
    }
}

/// server_id may arrive as a JSON number or a string.
fn value_as_i64(v: &Json) -> (r: Option<i64>)
    ensures
        r == id_number(v@),
{
    if let Some(n) = v.as_i64() {
        return Some(n);
    }
    match v.as_str() {
        Some(t) => parse_i64(t),
        None => None,
    }
}

fn truncated(n: i64) -> (r: i32)
    ensures
        r == low_bits(n as int),
{
    let low: i128 = if n >= 0 {
        n as i128 % 0x1_0000_0000
    } else {
        0xffff_ffff - (-1 - n as i128) % 0x1_0000_0000
    };
    assert(low == n as int % 0x1_0000_0000);
    if low >= 0x8000_0000 {
        (low - 0x1_0000_0000) as i32
    } else {
        low as i32
    }
}

fn i32_at(row: &Json, key: &str) -> (r: Option<i32>)
    ensures
        r == i32_field(row@, key@),
{
    match row.i64_at(key) {
        Some(n) => Some(truncated(n)),
        None => None,
    }
}

fn owned_text(row: &Json, key: &str) -> (r: Option<String>)
    ensures
        opt_text(r) == text_field(row@, key@),
{
    match row.text_at(key) {
        Some(t) => Some(t.to_owned()),
        None => None,
    }
}

/// Convert a report into the row that is sent.
pub fn value_to_ingest_point(row: &Json) -> (r: IngestPoint)
    ensures
        r@ == ingest_point(row@),
{
    let extra_json = match row.get("extra") {
        Some(v) => match v {
            Json::Null => None,
            _ => Some(json_text(v)),
        },
        None => None,
    };
    let server_id: i64 = match row.get("server_id") {
        Some(v) => match value_as_i64(v) {
            Some(n) => n,
            None => 0,
        },
        None => 0,
    };
    IngestPoint {
        server_id,
        collected_at: owned_text(row, "collected_at"),
        online: i32_at(row, "online"),
        max_players: i32_at(row, "max_players"),
        version: owned_text(row, "version"),
        motd: owned_text(row, "motd"),
        favicon: owned_text(row, "favicon"),
        country: owned_text(row, "country"),
        country_code: owned_text(row, "country_code"),
        event_type: owned_text(row, "event_type"),
        player_id: owned_text(row, "player_id"),
        player_name: owned_text(row, "player_name"),
        online_delta: i32_at(row, "online_delta"),
        extra_json,
    }
}

/// A server of the catalog.
#[derive(Debug)]
pub struct ServerCatalogItem {
    pub id: i64,
    pub project_id: Option<i64>,
    pub project_online_strategy: Option<String>,
    pub ip_or_domain: String,
    pub server_role: String,
    pub proxy_type: Option<String>,
    pub parent_id: Option<i64>,
    pub ping_ip_or_domain: Option<String>,
    pub ping_port: Option<i32>,
    pub bedrock_port: Option<i32>,
    pub game_edition: String,
    pub is_verified: bool,
    pub verification_source: Option<String>,
    pub verified_plugin_last_seen_at: Option<String>,
}

#[verifier::ext_equal]
pub struct CatalogItemView {
    pub id: i64,
    pub project_id: Option<i64>,
    pub project_online_strategy: Option<Seq<char>>,
    pub ip_or_domain: Seq<char>,
    pub server_role: Seq<char>,
    pub proxy_type: Option<Seq<char>>,
    pub parent_id: Option<i64>,
    pub ping_ip_or_domain: Option<Seq<char>>,
    pub ping_port: Option<i32>,
    pub bedrock_port: Option<i32>,
    pub game_edition: Seq<char>,
    pub is_verified: bool,
    pub verification_source: Option<Seq<char>>,
    pub verified_plugin_last_seen_at: Option<Seq<char>>,
}

impl ServerCatalogItem {
    pub open spec fn view(self) -> CatalogItemView {
        CatalogItemView {
            id: self.id,
            project_id: self.project_id,
            project_online_strategy: opt_text(self.project_online_strategy),
            ip_or_domain: self.ip_or_domain@,
            server_role: self.server_role@,
            proxy_type: opt_text(self.proxy_type),
            parent_id: self.parent_id,
            ping_ip_or_domain: opt_text(self.ping_ip_or_domain),
            ping_port: self.ping_port,
            bedrock_port: self.bedrock_port,
            game_edition: self.game_edition@,
            is_verified: self.is_verified,
            verification_source: opt_text(self.verification_source),
            verified_plugin_last_seen_at: opt_text(self.verified_plugin_last_seen_at),
        }
    }
}

/// An optional number of 32 bits in 64.
pub open spec fn widened(n: Option<i32>) -> Option<i64> {
    match n {
        Some(v) => Some(v as i64),
        None => None,
    }
}

fn widen(n: Option<i32>) -> (r: Option<i64>)
    ensures
        r == widened(n),
{
    match n {
        Some(v) => Some(v as i64),
        None => None,
    }
}

/// The catalog entry of an item.
pub open spec fn catalog_value(item: CatalogItemView) -> JsonView {
    JsonView::Object(
        Map::<Seq<char>, JsonView>::empty()
            .insert("id"@, JsonView::Number(int_number(item.id as int)))
            .insert("project_id"@, opt_i64_json(item.project_id))
            .insert("project_online_strategy"@, opt_text_json(item.project_online_strategy))
            .insert("ip_or_domain"@, JsonView::Text(item.ip_or_domain))
            .insert("server_role"@, JsonView::Text(item.server_role))
            .insert("proxy_type"@, opt_text_json(item.proxy_type))
            .insert("parent_id"@, opt_i64_json(item.parent_id))
            .insert("ping_ip_or_domain"@, opt_text_json(item.ping_ip_or_domain))
            .insert("ping_port"@, opt_i64_json(widened(item.ping_port)))
            .insert("bedrock_port"@, opt_i64_json(widened(item.bedrock_port)))
            .insert("game_edition"@, JsonView::Text(item.game_edition))
            .insert("is_verified"@, JsonView::Bool(item.is_verified))
            .insert("verification_source"@, opt_text_json(item.verification_source))
            .insert("verified_plugin_last_seen_at"@, opt_text_json(item.verified_plugin_last_seen_at)),
    )
}

/// Convert a catalog item into the entry that the catalog is refreshed from.
pub fn catalog_item_to_value(item: &ServerCatalogItem) -> (r: Json)
    ensures
        r@ == catalog_value(item@),
{
    Json::Object(
        JsonObject::new()
            .with("id", Json::signed(item.id))
            .with("project_id", Json::opt_signed(item.project_id))
            .with("project_online_strategy", Json::opt_text(&item.project_online_strategy))
            .with("ip_or_domain", Json::text(item.ip_or_domain.as_str()))
            .with("server_role", Json::text(item.server_role.as_str()))
            .with("proxy_type", Json::opt_text(&item.proxy_type))
            .with("parent_id", Json::opt_signed(item.parent_id))
            .with("ping_ip_or_domain", Json::opt_text(&item.ping_ip_or_domain))
            .with("ping_port", Json::opt_signed(widen(item.ping_port)))
            .with("bedrock_port", Json::opt_signed(widen(item.bedrock_port)))
            .with("game_edition", Json::text(item.game_edition.as_str()))
            .with("is_verified", Json::Bool(item.is_verified))
            .with("verification_source", Json::opt_text(&item.verification_source))
            .with("verified_plugin_last_seen_at", Json::opt_text(&item.verified_plugin_last_seen_at)),
    )
}

/// The entry of an item has the item's id.
pub proof fn law_catalog_entry_keeps_the_id(item: CatalogItemView)
    ensures
        id_of(catalog_value(item)) == integer_text(item.id as int),
{
    reveal_strlit("id");
    reveal_strlit("project_id");
    reveal_strlit("project_online_strategy");
    reveal_strlit("ip_or_domain");
    reveal_strlit("server_role");
    reveal_strlit("proxy_type");
    reveal_strlit("parent_id");
    reveal_strlit("ping_ip_or_domain");
    reveal_strlit("ping_port");
    reveal_strlit("bedrock_port");
    reveal_strlit("game_edition");
    reveal_strlit("is_verified");
    reveal_strlit("verification_source");
    reveal_strlit("verified_plugin_last_seen_at");
    let id = "id"@;
    assert("project_id"@.len() > id.len());
    assert("project_online_strategy"@.len() > id.len());
    assert("ip_or_domain"@.len() > id.len());
    assert("server_role"@.len() > id.len());
    assert("proxy_type"@.len() > id.len());
    assert("parent_id"@.len() > id.len());
    assert("ping_ip_or_domain"@.len() > id.len());
    assert("ping_port"@.len() > id.len());
    assert("bedrock_port"@.len() > id.len());
    assert("game_edition"@.len() > id.len());
    assert("is_verified"@.len() > id.len());
    assert("verification_source"@.len() > id.len());
    assert("verified_plugin_last_seen_at"@.len() > id.len());
    assert(field(catalog_value(item), id) == Some(
        JsonView::Number(int_number(item.id as int)),
    ));
}

/// A number that fits 32 bits stays as it is.
pub proof fn law_small_numbers_are_kept(n: int)
    requires
        i32::MIN <= n <= i32::MAX,
    ensures
        low_bits(n) == n,
{
}

/// A text that is put under a name in a report becomes the field of that name in
/// the row, and no other field changes.
pub proof fn law_row_text_follows_its_name(fields: Map<Seq<char>, JsonView>, text: Seq<char>)
    ensures
        ({
            let row = ingest_point(JsonView::Object(fields));
            let value = JsonView::Text(text);
            &&& ingest_point(JsonView::Object(fields.insert("collected_at"@, value))) == (
            IngestPointView {
                collected_at: Some(text),
                ..row
            })
            &&& ingest_point(JsonView::Object(fields.insert("version"@, value))) == (
            IngestPointView {
                version: Some(text),
                ..row
            })
            &&& ingest_point(JsonView::Object(fields.insert("motd"@, value))) == (
            IngestPointView {
                motd: Some(text),
                ..row
            })
            &&& ingest_point(JsonView::Object(fields.insert("favicon"@, value))) == (
            IngestPointView {
                favicon: Some(text),
                ..row
            })
            &&& ingest_point(JsonView::Object(fields.insert("country"@, value))) == (
            IngestPointView {
                country: Some(text),
                ..row
            })
            &&& ingest_point(JsonView::Object(fields.insert("country_code"@, value))) == (
            IngestPointView {
                country_code: Some(text),
                ..row
            })
            &&& ingest_point(JsonView::Object(fields.insert("event_type"@, value))) == (
            IngestPointView {
                event_type: Some(text),
                ..row
            })
            &&& ingest_point(JsonView::Object(fields.insert("player_id"@, value))) == (
            IngestPointView {
                player_id: Some(text),
                ..row
            })
            &&& ingest_point(JsonView::Object(fields.insert("player_name"@, value))) == (
            IngestPointView {
                player_name: Some(text),
                ..row
            })
        }),
{
    lemma_names_differ();
}

/// A number that is put under a name in a report becomes the field of that name
/// in the row, cut to 32 bits, and no other field changes.
pub proof fn law_row_number_follows_its_name(
    fields: Map<Seq<char>, JsonView>,
    n: i64,
)
    ensures
        ({
            let row = ingest_point(JsonView::Object(fields));
            let value = JsonView::Number(int_number(n as int));
            let cut = low_bits(n as int) as i32;
            &&& ingest_point(JsonView::Object(fields.insert("server_id"@, value))) == (
            IngestPointView { server_id: n, ..row })
            &&& ingest_point(JsonView::Object(fields.insert("online"@, value))) == (
            IngestPointView {
                online: Some(cut),
                ..row
            })
            &&& ingest_point(JsonView::Object(fields.insert("max_players"@, value))) == (
            IngestPointView {
                max_players: Some(cut),
                ..row
            })
            &&& ingest_point(JsonView::Object(fields.insert("online_delta"@, value))) == (
            IngestPointView {
                online_delta: Some(cut),
                ..row
            })
        }),
{
    lemma_names_differ();
}

/// The id of a row may be a numeral, and what is open-ended in a report becomes
/// its text.
pub proof fn law_row_id_and_extra(fields: Map<Seq<char>, JsonView>, n: i64, extra: JsonView)
    requires
        !(extra is Null),
    ensures
        ({
            let row = ingest_point(JsonView::Object(fields));
            let id = JsonView::Text(integer_text(n as int));
            &&& ingest_point(JsonView::Object(fields.insert("server_id"@, id))) == (
            IngestPointView { server_id: n, ..row })
            &&& ingest_point(JsonView::Object(fields.insert("extra"@, extra))) == (
            IngestPointView { extra_json: Some(printed_json(extra)), ..row })
            &&& ingest_point(JsonView::Object(fields.insert("extra"@, JsonView::Null))) == (
            IngestPointView { extra_json: None, ..row })
        }),
{
    lemma_names_differ();
    law_signed_numeral_round_trip(n as int);
}

/// What is cut to 32 bits differs from the number by a multiple of their range.
pub proof fn law_low_bits_are_congruent(n: int)
    ensures
        i32::MIN <= low_bits(n) <= i32::MAX,
        (n - low_bits(n)) % 0x1_0000_0000 == 0,
{
}

/// An empty report makes an empty row.
pub proof fn law_empty_report_makes_an_empty_row()
    ensures
        ingest_point(JsonView::Object(Map::empty())) == (IngestPointView {
            server_id: 0,
            collected_at: None,
            online: None,
            max_players: None,
            version: None,
            motd: None,
            favicon: None,
            country: None,
            country_code: None,
            event_type: None,
            player_id: None,
            player_name: None,
            online_delta: None,
            extra_json: None,
        }),
{
}

/// The number that a row has for one in a report.
pub open spec fn row_number(n: Option<i64>) -> Option<i32> {
    match n {
        Some(v) => Some(low_bits(v as int) as i32),
        None => None,
    }
}

/// The row of what a poll of a server that is up gives rise to holds what the
/// poll says, each under its name, and the event.
pub proof fn law_poll_reaches_its_row(state: ServerStateView, payload: JsonView, id: i64)
    requires
        state.server_id == integer_text(id as int),
    ensures
        change(state, payload, true).1 matches Some(report) ==> {
            let row = ingest_point(report);
            &&& row.server_id == id
            &&& row.online == row_number(i64_field(payload, "online"@))
            &&& row.max_players == row_number(i64_field(payload, "max_players"@))
            &&& row.version == Some(trimmed(text_or_empty(payload, "version"@)))
            &&& row.motd == Some(trimmed(text_or_empty(payload, "motd"@)))
            &&& row.country == Some(trimmed(text_or_empty(payload, "country"@)))
            &&& row.country_code == Some(trimmed(text_or_empty(payload, "country_code"@)))
            &&& row.collected_at == text_field(payload, "collected_at"@)
            &&& row.event_type == if !state.emitted.any {
                Some("state_full"@)
            } else if state.emitted.up != Some(true) {
                Some("server_up"@)
            } else if state.emitted.online != i64_field(payload, "online"@) {
                Some("online_changed"@)
            } else {
                Some("state_updated"@)
            }
            &&& row.extra_json is Some
            &&& row.favicon is None && row.player_id is None && row.player_name is None
                && row.online_delta is None
        },
{
    lemma_names_differ();
    law_signed_numeral_round_trip(id as int);
}

/// The row of a server that is down says so: nobody online, the event where it was
/// up before, and what was last known of it.
pub proof fn law_outage_reaches_its_row(state: ServerStateView, payload: JsonView, id: i64)
    requires
        state.server_id == integer_text(id as int),
        state.emitted.any,
        state.emitted.up == Some(true),
    ensures
        change(state, payload, false).1 matches Some(report) && {
            let row = ingest_point(report);
            &&& row.server_id == id
            &&& row.event_type == Some("server_down"@)
            &&& row.online == Some(0i32)
            &&& row.max_players == row_number(state.emitted.max_players)
            &&& state.emitted.version is Some ==> row.version == state.emitted.version
            &&& state.emitted.motd is Some ==> row.motd == state.emitted.motd
        },
{
    lemma_names_differ();
    law_signed_numeral_round_trip(id as int);
}

/// An item's entry has each of the item's values under its name.
pub proof fn law_catalog_entry_holds_the_item(item: CatalogItemView)
    ensures
        ({
            let entry = catalog_value(item);
            &&& i64_field(entry, "id"@) == Some(item.id)
            &&& i64_field(entry, "project_id"@) == item.project_id
            &&& i64_field(entry, "parent_id"@) == item.parent_id
            &&& text_field(entry, "project_online_strategy"@) == item.project_online_strategy
            &&& text_field(entry, "ip_or_domain"@) == Some(item.ip_or_domain)
            &&& text_field(entry, "server_role"@) == Some(item.server_role)
            &&& text_field(entry, "proxy_type"@) == item.proxy_type
            &&& text_field(entry, "ping_ip_or_domain"@) == item.ping_ip_or_domain
            &&& text_field(entry, "game_edition"@) == Some(item.game_edition)
            &&& text_field(entry, "verification_source"@) == item.verification_source
            &&& text_field(entry, "verified_plugin_last_seen_at"@)
                == item.verified_plugin_last_seen_at
            &&& field(entry, "is_verified"@) == Some(JsonView::Bool(item.is_verified))
            &&& item.ping_port matches Some(p) ==> i64_field(entry, "ping_port"@) == Some(p as i64)
            &&& item.ping_port is None ==> field(entry, "ping_port"@) == Some(JsonView::Null)
            &&& item.bedrock_port matches Some(p) ==> i64_field(entry, "bedrock_port"@) == Some(
                p as i64,
            )
            &&& item.bedrock_port is None ==> field(entry, "bedrock_port"@) == Some(JsonView::Null)
        }),
{
    lemma_names_differ();
}

/// A server is polled where its catalog item says, and is the plugin's where the
/// item says so.
pub proof fn law_item_is_polled_where_it_says(item: CatalogItemView)
    ensures
        ({
            let entry = catalog_value(item);
            let target = target_of(entry);
            let at = match item.ping_ip_or_domain {
                Some(ping) if ping.len() > 0 => ping,
                _ => item.ip_or_domain,
            };
            &&& target.host == address(at).0
            &&& item.ping_port matches Some(p) ==> 0 <= p <= u16::MAX && p != 25565 ==> target.port
                == Some(p as u16)
            &&& item.ping_port is None && address(at).1 is Some ==> target.port == address(at).1
            &&& item.bedrock_port matches Some(p) ==> 0 <= p <= u16::MAX ==> target.bedrock_port
                == Some(p as u16)
            &&& item.bedrock_port is None ==> target.bedrock_port is None
            &&& target.edition == Edition::Bedrock <==> lowered(item.game_edition) == "bedrock"@
            &&& plugin_managed(entry) <==> item.is_verified && item.verification_source is Some
                && lowered(trimmed(item.verification_source->0)) == "plugin"@
        }),
{
    lemma_names_differ();
    reveal_strlit("plugin");
    assert(trimmed(Seq::<char>::empty()) =~= Seq::<char>::empty());
    assert(is_ascii_chars(Seq::<char>::empty()));
    assert(lowered(Seq::<char>::empty()) =~= Seq::<char>::empty());
    assert("plugin"@.len() == 6);
}

} // verus!
