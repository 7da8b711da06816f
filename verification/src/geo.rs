//! Geolocation lookup with TTL-based caching.

use vstd::prelude::*;

use crate::config::GeoSettings;
use crate::models::{address, law_address_round_trip, Edition};
use crate::table::Table;
use crate::text::{decimal_text, opt_text, push_decimal, same_text};

verus! {

broadcast use vstd::string::group_string_axioms;

/// Where a server is.
#[derive(Debug)]
pub struct Place {
    pub country: String,
    pub country_code: String,
}

#[verifier::ext_equal]
pub struct PlaceView {
    pub country: Seq<char>,
    pub country_code: Seq<char>,
}

impl Place {
    pub open spec fn view(self) -> PlaceView {
        PlaceView { country: self.country@, country_code: self.country_code@ }
    }

    /// A copy of the place.
    pub fn copy(&self) -> (r: Self)
        ensures
            r@ == self@,
    {
        Place { country: self.country.clone(), country_code: self.country_code.clone() }
    }
}

/// No place.
pub open spec fn nowhere() -> PlaceView {
    PlaceView { country: Seq::empty(), country_code: Seq::empty() }
}

/// What a lookup of an address answers.
#[derive(Debug)]
pub struct GeoReply {
    pub status: String,
    pub country: String,
    pub country_code: String,
}

#[derive(Debug)]
struct CacheEntry {
    place: Place,
    expires_at: u128,
}

#[derive(Debug)]
struct DnsEntry {
    ip: String,
    expires_at: u128,
}

/// What was found under a key, and until when that holds.
#[verifier::ext_equal]
pub struct Cached<T> {
    pub value: T,
    pub expires_at: u128,
}

/// What the caches hold.
#[verifier::ext_equal]
pub struct GeoView {
    pub places: Map<Seq<char>, Cached<PlaceView>>,
    pub ips: Map<Seq<char>, Cached<Seq<char>>>,
}

/// Places by host and port, and addresses by host and port.
#[derive(Debug)]
pub struct GeoCache {
    geo_entries: Table<CacheEntry>,
    dns_entries: Table<DnsEntry>,
    settings: GeoSettings,
}

/// A host and a port.
pub open spec fn host_port(host: Seq<char>, port: u16) -> Seq<char> {
    host + ":"@ + decimal_text(port as int)
}

/// The key of a server's place.
pub open spec fn place_key(host: Seq<char>, port: Option<u16>) -> Seq<char> {
    host_port(
        host,
        match port {
            Some(p) => p,
            None => 0,
        },
    )
}

/// The value under a key at a time, as long as it has not expired.
pub open spec fn live<T>(cache: Map<Seq<char>, Cached<T>>, key: Seq<char>, now: u64) -> Option<T> {
    if cache.dom().contains(key) && now < cache[key].expires_at {
        Some(cache[key].value)
    } else {
        None
    }
}

/// A time so many seconds from now.
pub open spec fn expiry(now: u64, ttl_seconds: u64) -> u128 {
    (now + ttl_seconds * 1_000_000_000) as u128
}

/// The caches once a place was found, or none: an unknown place is asked for
/// again sooner.
pub open spec fn place_stored(
    g: GeoView,
    settings: GeoSettings,
    key: Seq<char>,
    place: PlaceView,
    now: u64,
) -> GeoView {
    let ttl = if place == nowhere() {
        settings.retry_seconds
    } else {
        settings.ttl_seconds
    };
    GeoView {
        places: g.places.insert(key, Cached { value: place, expires_at: expiry(now, ttl) }),
        ..g
    }
}

/// The entries that have not expired.
pub open spec fn unexpired<T>(cache: Map<Seq<char>, Cached<T>>, now: u64) -> Map<
    Seq<char>,
    Cached<T>,
> {
    cache.restrict(
        Set::new(|k: Seq<char>| cache.dom().contains(k) && cache[k].expires_at > now),
    )
}

/// The caches once a host was resolved, or not, which the empty address stands
/// for: a failure is tried again sooner, and expired entries leave a cache that
/// is full.
pub open spec fn ip_stored(
    g: GeoView,
    settings: GeoSettings,
    key: Seq<char>,
    ip: Seq<char>,
    now: u64,
) -> GeoView {
    let ttl = if ip.len() == 0 {
        settings.dns_retry_seconds
    } else {
        settings.dns_ttl_seconds
    };
    let room = if g.ips.dom().len() >= settings.dns_cache_max_entries {
        unexpired(g.ips, now)
    } else {
        g.ips
    };
    GeoView { ips: room.insert(key, Cached { value: ip, expires_at: expiry(now, ttl) }), ..g }
}

fn expires(now: u64, ttl_seconds: u64) -> (r: u128)
    ensures
        r == expiry(now, ttl_seconds),
{
    now as u128 + ttl_seconds as u128 * 1_000_000_000
}

/// The text of a host and a port.
pub fn dns_key(host: &str, port: u16) -> (r: String)
    ensures
        r@ == host_port(host@, port),
{
    let mut key = host.to_owned();
    key.append(":");
    push_decimal(&mut key, port as u64);
    key
}

/// The key of a server's place.
pub fn geo_key(host: &str, port: Option<u16>) -> (r: String)
    ensures
        r@ == place_key(host@, port),
{
    dns_key(
        host,
        match port {
            Some(p) => p,
            None => 0,
        },
    )
}

/// The port under which a host is resolved.
pub fn effective_port(port: Option<u16>, edition: Edition) -> (r: u16)
    ensures
        r == match port {
            Some(p) => p,
            None => edition.port(),
        },
{
    match port {
        Some(p) => p,
        None => edition.default_port(),
    }
}

/// Where the place of an address is looked up; a host that could not be resolved
/// is not looked up.
pub open spec fn lookup_address(ip: Seq<char>) -> Option<Seq<char>> {
    if ip.len() == 0 {
        None
    } else {
        Some("http://ip-api.com/json/"@ + ip + "?fields=status,country,countryCode"@)
    }
}

/// Where the place of an address is looked up.
pub fn lookup_url(ip: &str) -> (r: Option<String>)
    ensures
        opt_text(r) == lookup_address(ip@),
{
    if ip.is_empty() {
        return None;
    }
    let mut url = "http://ip-api.com/json/".to_owned();
    url.append(ip);
    url.append("?fields=status,country,countryCode");
    Some(url)
}

/// The place that a lookup gives: that of a reply that reports success, and none
/// in any other case.
pub fn place_of(reply: Option<GeoReply>) -> (r: Place)
    ensures
        r@ == match reply {
            Some(data) => if data.status@ == "success"@ {
                PlaceView { country: data.country@, country_code: data.country_code@ }
            } else {
                nowhere()
            },
            None => nowhere(),
        },
{
    match reply {
        Some(data) if same_text(data.status.as_str(), "success") => {
            Place { country: data.country, country_code: data.country_code }
        },
        _ => Place { country: String::new(), country_code: String::new() },
    }
}

spec fn places_view(table: Map<Seq<char>, CacheEntry>) -> Map<Seq<char>, Cached<PlaceView>> {
    table.map_values(|e: CacheEntry| Cached { value: e.place@, expires_at: e.expires_at })
}

spec fn ips_view(table: Map<Seq<char>, DnsEntry>) -> Map<Seq<char>, Cached<Seq<char>>> {
    table.map_values(|e: DnsEntry| Cached { value: e.ip@, expires_at: e.expires_at })
}

/// Takes the expired entries out.
fn drop_expired(table: &mut Table<DnsEntry>, now: u64)
    requires
        old(table).wf(),
    ensures
        final(table).wf(),
        ips_view(final(table)@) == unexpired(ips_view(old(table)@), now),
{
    let ghost start = ips_view(table@);
    let ghost valid = Set::new(
        |k: Seq<char>| start.dom().contains(k) && start[k].expires_at > now,
    );
    let mut i: usize = 0;
    while i < table.len()
        invariant
            table.wf(),
            0 <= i <= table.keys().len(),
            valid == Set::new(
                |k: Seq<char>| start.dom().contains(k) && start[k].expires_at > now,
            ),
            forall|j: int| 0 <= j < i ==> valid.contains(#[trigger] table.keys()[j]),
            forall|k: Seq<char>| #[trigger]
                table@.dom().contains(k) ==> start.dom().contains(k) && start[k] == ips_view(
                    table@,
                )[k],
            ips_view(table@).restrict(valid) == start.restrict(valid),
        decreases table.keys().len() - i,
    {
        proof {
            table.lemma_entries();
        }
        let ghost key = table.keys()[i as int];
        assert(table@.dom().contains(key));
        if table.value_at(i).expires_at > now as u128 {
            i = i + 1;
        } else {
            let ghost before = table@;
            let _expired = table.remove_at(i);
            assert(ips_view(table@).restrict(valid) =~= ips_view(before).restrict(valid));
        }
    }
    proof {
        table.lemma_entries();
        assert forall|k: Seq<char>| table@.dom().contains(k) implies valid.contains(k) by {
            let j = table.keys().index_of(k);
            assert(valid.contains(table.keys()[j]));
        }
        assert(ips_view(table@) =~= ips_view(table@).restrict(valid));
    }
}

impl GeoCache {
    pub closed spec fn view(self) -> GeoView {
        GeoView {
            places: places_view(self.geo_entries@),
            ips: ips_view(self.dns_entries@),
        }
    }

    /// The settings that the cache was made with.
    pub closed spec fn settings(self) -> GeoSettings {
        self.settings
    }

    pub closed spec fn wf(self) -> bool {
        self.geo_entries.wf() && self.dns_entries.wf()
    }

    /// The caches, empty.
    pub fn new(settings: GeoSettings) -> (r: Self)
        ensures
            r.wf(),
            r.settings() == settings,
            r@ == (GeoView { places: Map::empty(), ips: Map::empty() }),
    {
        let r = GeoCache { geo_entries: Table::new(), dns_entries: Table::new(), settings };
        assert(r@.places =~= Map::<Seq<char>, Cached<PlaceView>>::empty());
        assert(r@.ips =~= Map::<Seq<char>, Cached<Seq<char>>>::empty());
        r
    }

    /// The place under a key, as long as it has not expired.
    pub fn cached_place(&self, key: &str, now: u64) -> (r: Option<Place>)
        requires
            self.wf(),
        ensures
            match r {
                Some(place) => live(self@.places, key@, now) == Some(place@),
                None => live(self@.places, key@, now) is None,
            },
    {
        match self.geo_entries.get(key) {
            Some(entry) if (now as u128) < entry.expires_at => Some(entry.place.copy()),
            _ => None,
        }
    }

    /// Keeps a place that was found, or that none was.
    pub fn store_place(&mut self, key: String, place: &Place, now: u64)
        requires
            old(self).wf(),
        ensures
            final(self).wf(),
            final(self).settings() == old(self).settings(),
            final(self)@ == place_stored(old(self)@, old(self).settings(), key@, place@, now),
    {
        let unknown = place.country.as_str().is_empty() && place.country_code.as_str().is_empty();
        proof {
            assert(unknown ==> place@ =~= nowhere());
        }
        let ttl: u64 = if unknown {
            self.settings.retry_seconds
        } else {
            self.settings.ttl_seconds
        };
        let ghost before = self.geo_entries@;
        let entry = CacheEntry { place: place.copy(), expires_at: expires(now, ttl) };
        let ghost cached = Cached { value: entry.place@, expires_at: entry.expires_at };
        self.geo_entries.insert(key, entry);
        assert(places_view(self.geo_entries@) =~= places_view(before).insert(key@, cached));
    }

    /// The address under a key, as long as it has not expired. The empty one
    /// says that the host could not be resolved.
    pub fn cached_ip(&self, key: &str, now: u64) -> (r: Option<String>)
        requires
            self.wf(),
        ensures
            match r {
                Some(ip) => live(self@.ips, key@, now) == Some(ip@),
                None => live(self@.ips, key@, now) is None,
            },
    {
        match self.dns_entries.get(key) {
            Some(entry) if (now as u128) < entry.expires_at => Some(entry.ip.clone()),
            _ => None,
        }
    }

    /// Keeps the address of a host, or that it could not be resolved.
    pub fn store_ip(&mut self, key: String, ip: String, now: u64)
        requires
            old(self).wf(),
        ensures
            final(self).wf(),
            final(self).settings() == old(self).settings(),
            final(self)@ == ip_stored(old(self)@, old(self).settings(), key@, ip@, now),
    {
        let ttl: u64 = if ip.as_str().is_empty() {
            self.settings.dns_retry_seconds
        } else {
            self.settings.dns_ttl_seconds
        };
        assert(ips_view(self.dns_entries@).dom() =~= self.dns_entries@.dom());
        // Evict expired entries if cache is too large.
        if self.dns_entries.len() >= self.settings.dns_cache_max_entries {
            drop_expired(&mut self.dns_entries, now);
        }
        let ghost before = self.dns_entries@;
        let entry = DnsEntry { ip, expires_at: expires(now, ttl) };
        let ghost cached = Cached { value: entry.ip@, expires_at: entry.expires_at };
        self.dns_entries.insert(key, entry);
        assert(ips_view(self.dns_entries@) =~= ips_view(before).insert(key@, cached));
    }

    /// The number of places that are held.
    pub fn size(&self) -> (r: usize)
        requires
            self.wf(),
        ensures
            r == self@.places.dom().len(),
    {
        assert(places_view(self.geo_entries@).dom() =~= self.geo_entries@.dom());
        self.geo_entries.len()
    }
}

// ---------------------------------------------------------------------------
// Laws
// ---------------------------------------------------------------------------

/// A place that was stored is found until its time is over, and every other key
/// gives what it gave before.
pub proof fn law_stored_place_is_found(
    g: GeoView,
    settings: GeoSettings,
    key: Seq<char>,
    place: PlaceView,
    now: u64,
    later: u64,
)
    ensures
        ({
            let after = place_stored(g, settings, key, place, now);
            let ttl = if place == nowhere() {
                settings.retry_seconds
            } else {
                settings.ttl_seconds
            };
            &&& later < now + ttl * 1_000_000_000 ==> live(after.places, key, later) == Some(place)
            &&& later >= now + ttl * 1_000_000_000 ==> live(after.places, key, later) is None
            &&& forall|other: Seq<char>|
                other != key ==> #[trigger] live(after.places, other, later) == live(
                    g.places,
                    other,
                    later,
                )
        }),
{
}

/// An address that was stored is found until its time is over, and every other
/// key gives what it gave before: evicting drops what has expired and nothing
/// else.
pub proof fn law_stored_ip_is_found(
    g: GeoView,
    settings: GeoSettings,
    key: Seq<char>,
    ip: Seq<char>,
    now: u64,
    later: u64,
)
    requires
        now <= later,
    ensures
        ({
            let after = ip_stored(g, settings, key, ip, now);
            let ttl = if ip.len() == 0 {
                settings.dns_retry_seconds
            } else {
                settings.dns_ttl_seconds
            };
            &&& later < now + ttl * 1_000_000_000 ==> live(after.ips, key, later) == Some(ip)
            &&& later >= now + ttl * 1_000_000_000 ==> live(after.ips, key, later) is None
            &&& forall|other: Seq<char>|
                other != key ==> #[trigger] live(after.ips, other, later) == live(
                    g.ips,
                    other,
                    later,
                )
        }),
{
}

/// The key under which a host is resolved tells the host and the port, and so does
/// that of its place, a server without a port counting as on port 0.
pub proof fn law_keys_tell_host_and_port(host: Seq<char>, port: u16)
    requires
        !host.contains(':'),
        host.len() > 0 && host[0] == '[' ==> !host.contains(']'),
    ensures
        address(host_port(host, port)) == (host, Some(port)),
        address(place_key(host, Some(port))) == (host, Some(port)),
        address(place_key(host, None)) == (host, Some(0u16)),
{
    reveal_strlit(":");
    assert(":"@ =~= seq![':']);
    law_address_round_trip(host, port);
    law_address_round_trip(host, 0);
}

/// An address that is known is looked up under itself, and none is looked up for a
/// host that could not be resolved.
pub proof fn law_known_addresses_are_looked_up(ip: Seq<char>)
    ensures
        lookup_address(ip) is None <==> ip.len() == 0,
        ip.len() > 0 ==> lookup_address(ip) == Some(
            "http://ip-api.com/json/"@ + ip + "?fields=status,country,countryCode"@,
        ),
{
}

/// A place that was stored is found as it is, without the other cache changing,
/// and the same holds of an address.
pub proof fn law_caches_are_apart(
    g: GeoView,
    settings: GeoSettings,
    key: Seq<char>,
    place: PlaceView,
    ip: Seq<char>,
    now: u64,
)
    ensures
        place_stored(g, settings, key, place, now).ips == g.ips,
        place_stored(g, settings, key, place, now).places[key].value == place,
        ip_stored(g, settings, key, ip, now).places == g.places,
        ip_stored(g, settings, key, ip, now).ips[key].value == ip,
        g.ips.dom().len() < settings.dns_cache_max_entries ==> g.ips.dom().subset_of(
            ip_stored(g, settings, key, ip, now).ips.dom(),
        ),
{
}

} // verus!
