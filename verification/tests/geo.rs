use server_poller::config::{EnvValue, GeoSettings, Settings};
use server_poller::geo::{
    dns_key, effective_port, geo_key, lookup_url, place_of, GeoCache, GeoReply, Place,
};
use server_poller::models::Edition;
use server_poller::table::Table;

const SECOND: u64 = 1_000_000_000;

fn settings() -> GeoSettings {
    GeoSettings {
        dns_cache_max_entries: 2,
        ..Settings::load(&Table::<EnvValue>::new()).geo
    }
}

fn place(country: &str, code: &str) -> Place {
    Place { country: country.to_string(), country_code: code.to_string() }
}

#[test]
fn places_are_kept_for_their_time() {
    let mut cache = GeoCache::new(settings());
    assert!(cache.cached_place("a:1", 0).is_none());
    cache.store_place("a:1".to_string(), &place("France", "FR"), 5 * SECOND);
    cache.store_place("b:1".to_string(), &place("", ""), 5 * SECOND);
    assert_eq!(cache.cached_place("a:1", 3604 * SECOND).unwrap().country, "France");
    assert!(cache.cached_place("a:1", 3605 * SECOND).is_none());
    assert_eq!(cache.cached_place("b:1", 304 * SECOND).unwrap().country, "");
    assert!(cache.cached_place("b:1", 305 * SECOND).is_none());
    assert_eq!(cache.size(), 2);
}

#[test]
fn addresses_are_kept_for_their_time() {
    let mut cache = GeoCache::new(settings());
    cache.store_ip("a:1".to_string(), "1.2.3.4".to_string(), 0);
    cache.store_ip("b:1".to_string(), String::new(), 0);
    assert_eq!(cache.cached_ip("a:1", 599 * SECOND).as_deref(), Some("1.2.3.4"));
    assert!(cache.cached_ip("a:1", 600 * SECOND).is_none());
    assert_eq!(cache.cached_ip("b:1", 119 * SECOND).as_deref(), Some(""));
    assert!(cache.cached_ip("b:1", 120 * SECOND).is_none());
}

#[test]
fn a_full_cache_drops_what_has_expired() {
    let mut cache = GeoCache::new(settings());
    cache.store_ip("a:1".to_string(), "1.2.3.4".to_string(), 0);
    cache.store_ip("b:1".to_string(), String::new(), 0);
    cache.store_ip("c:1".to_string(), "5.6.7.8".to_string(), 200 * SECOND);
    assert_eq!(cache.cached_ip("a:1", 200 * SECOND).as_deref(), Some("1.2.3.4"));
    assert!(cache.cached_ip("b:1", 0).is_none());
    assert_eq!(cache.cached_ip("c:1", 200 * SECOND).as_deref(), Some("5.6.7.8"));
}

#[test]
fn keys_ports_and_addresses() {
    assert_eq!(dns_key("h", 25565), "h:25565");
    assert_eq!(geo_key("h", None), "h:0");
    assert_eq!(geo_key("h", Some(1)), "h:1");
    assert_eq!(effective_port(None, Edition::Bedrock), 19132);
    assert_eq!(effective_port(Some(5), Edition::Bedrock), 5);
    assert_eq!(
        lookup_url("1.2.3.4").as_deref(),
        Some("http://ip-api.com/json/1.2.3.4?fields=status,country,countryCode")
    );
    assert_eq!(lookup_url(""), None);
}

#[test]
fn only_successful_lookups_give_a_place() {
    let reply = |status: &str| {
        Some(GeoReply {
            status: status.to_string(),
            country: "France".to_string(),
            country_code: "FR".to_string(),
        })
    };
    assert_eq!(place_of(reply("success")).country_code, "FR");
    assert_eq!(place_of(reply("fail")).country_code, "");
    assert_eq!(place_of(None).country, "");
}
