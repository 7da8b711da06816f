//! The names of JSON fields, told apart.

use vstd::prelude::*;

verus! {

/// The lengths of the names, and of names that are equally long a character in
/// which they differ: no two names are the same.
pub proof fn lemma_names_differ()
    ensures
        "server_id"@.len() == 9,
        "server_id"@[1] == 'e',
        "collected_at"@.len() == 12,
        "collected_at"@[3] == 'l',
        "online"@.len() == 6,
        "max_players"@.len() == 11,
        "max_players"@[1] == 'a',
        "version"@.len() == 7,
        "version"@[0] == 'v',
        "motd"@.len() == 4,
        "motd"@[0] == 'm',
        "motd"@[1] == 'o',
        "country"@.len() == 7,
        "country"@[0] == 'c',
        "country_code"@.len() == 12,
        "country_code"@[3] == 'n',
        "event_type"@.len() == 10,
        "event_type"@[3] == 'n',
        "extra"@.len() == 5,
        "extra"@[1] == 'x',
        "players"@.len() == 7,
        "players"@[0] == 'p',
        "poll_status"@.len() == 11,
        "poll_status"@[1] == 'o',
        "compare_probe"@.len() == 13,
        "candidate_id"@.len() == 12,
        "candidate_id"@[3] == 'd',
        "status_ok"@.len() == 9,
        "status_ok"@[1] == 't',
        "error"@.len() == 5,
        "error"@[1] == 'r',
        "probed_at"@.len() == 9,
        "probed_at"@[1] == 'r',
        "host"@.len() == 4,
        "host"@[0] == 'h',
        "host"@[1] == 'o',
        "port"@.len() == 4,
        "port"@[0] == 'p',
        "port"@[1] == 'o',
        "edition"@.len() == 7,
        "edition"@[0] == 'e',
        "favicon"@.len() == 7,
        "favicon"@[0] == 'f',
        "elapsed_ms"@.len() == 10,
        "elapsed_ms"@[3] == 'p',
        "player_id"@.len() == 9,
        "player_id"@[1] == 'l',
        "player_name"@.len() == 11,
        "player_name"@[1] == 'l',
        "online_delta"@.len() == 12,
        "online_delta"@[3] == 'i',
        "id"@.len() == 2,
        "ip_or_domain"@.len() == 12,
        "ip_or_domain"@[3] == 'o',
        "ping_ip_or_domain"@.len() == 17,
        "ping_port"@.len() == 9,
        "ping_port"@[1] == 'i',
        "bedrock_port"@.len() == 12,
        "bedrock_port"@[3] == 'r',
        "game_edition"@.len() == 12,
        "game_edition"@[3] == 'e',
        "is_verified"@.len() == 11,
        "is_verified"@[1] == 's',
        "verification_source"@.len() == 19,
        "project_id"@.len() == 10,
        "project_id"@[3] == 'j',
        "project_online_strategy"@.len() == 23,
        "server_role"@.len() == 11,
        "server_role"@[1] == 'e',
        "proxy_type"@.len() == 10,
        "proxy_type"@[3] == 'x',
        "parent_id"@.len() == 9,
        "parent_id"@[1] == 'a',
        "verified_plugin_last_seen_at"@.len() == 28,
        "data_url"@.len() == 8,
        "hash"@.len() == 4,
        "hash"@[0] == 'h',
        "hash"@[1] == 'a',
        "all"@.len() == 3,
        "all"@[0] == 'a',
        "server_ids"@.len() == 10,
        "server_ids"@[3] == 'v',
        "ids"@.len() == 3,
        "ids"@[0] == 'i',
{
    reveal_strlit("server_id");
    reveal_strlit("collected_at");
    reveal_strlit("online");
    reveal_strlit("max_players");
    reveal_strlit("version");
    reveal_strlit("motd");
    reveal_strlit("country");
    reveal_strlit("country_code");
    reveal_strlit("event_type");
    reveal_strlit("extra");
    reveal_strlit("players");
    reveal_strlit("poll_status");
    reveal_strlit("compare_probe");
    reveal_strlit("candidate_id");
    reveal_strlit("status_ok");
    reveal_strlit("error");
    reveal_strlit("probed_at");
    reveal_strlit("host");
    reveal_strlit("port");
    reveal_strlit("edition");
    reveal_strlit("favicon");
    reveal_strlit("elapsed_ms");
    reveal_strlit("player_id");
    reveal_strlit("player_name");
    reveal_strlit("online_delta");
    reveal_strlit("id");
    reveal_strlit("ip_or_domain");
    reveal_strlit("ping_ip_or_domain");
    reveal_strlit("ping_port");
    reveal_strlit("bedrock_port");
    reveal_strlit("game_edition");
    reveal_strlit("is_verified");
    reveal_strlit("verification_source");
    reveal_strlit("project_id");
    reveal_strlit("project_online_strategy");
    reveal_strlit("server_role");
    reveal_strlit("proxy_type");
    reveal_strlit("parent_id");
    reveal_strlit("verified_plugin_last_seen_at");
    reveal_strlit("data_url");
    reveal_strlit("hash");
    reveal_strlit("all");
    reveal_strlit("server_ids");
    reveal_strlit("ids");
}

} // verus!
