//! State models and server address helpers.

use vstd::prelude::*;
use vstd::string::*;
use vstd::utf8::is_ascii_chars;

use crate::chance::random_below;
use crate::json::{
    bool_field, field, int_number, json_text, printed_json, text_field, text_or_empty, Json,
    JsonView,
};
use crate::names::lemma_names_differ;
use crate::text::{
    all_digits, ascii_lowered, begins_with, chars_of, decimal, is_digit, lower, lowered, opt_text,
    parse_u16, parse_unsigned, same_text, split, split_text, starts_with, texts, trim, trimmed,
    unsigned_value,
};

verus! {

broadcast use vstd::string::group_string_axioms;

pub const JAVA_DEFAULT_PORT: u16 = 25565;

pub const BEDROCK_DEFAULT_PORT: u16 = 19132;

/// The nanoseconds of a second. Points in time are counted in nanoseconds from
/// the start of the process.
pub const NANOS_PER_SECOND: u64 = 1_000_000_000;

// ---------------------------------------------------------------------------
// Editions
// ---------------------------------------------------------------------------

/// The two editions of the game.
#[derive(Debug, Clone, Copy, PartialEq, Eq, Structural)]
pub enum Edition {
    Java,
    Bedrock,
}

impl Edition {
    pub open spec fn name(self) -> Seq<char> {
        match self {
            Edition::Java => "java"@,
            Edition::Bedrock => "bedrock"@,
        }
    }

    /// The edition's name.
    pub fn as_str(&self) -> (r: &'static str)
        ensures
            r@ == self.name(),
    {
        match self {
            Edition::Java => "java",
            Edition::Bedrock => "bedrock",
        }
    }

    pub open spec fn port(self) -> u16 {
        match self {
            Edition::Java => 25565,
            Edition::Bedrock => 19132,
        }
    }

    /// The port that servers of the edition listen on.
    pub fn default_port(&self) -> (r: u16)
        ensures
            r == self.port(),
    {
        match self {
            Edition::Java => JAVA_DEFAULT_PORT,
            Edition::Bedrock => BEDROCK_DEFAULT_PORT,
        }
    }
}

/// The edition that a name in lower case stands for: Bedrock by its name, and
/// Java for anything else.
pub open spec fn edition_named(lowered: Seq<char>) -> Edition {
    if lowered == "bedrock"@ {
        Edition::Bedrock
    } else {
        Edition::Java
    }
}

/// The edition of a catalog entry.
pub open spec fn edition_of(value: Option<Seq<char>>) -> Edition {
    match value {
        Some(v) => edition_named(lowered(v)),
        None => Edition::Java,
    }
}

/// The edition that a name in lower case stands for.
pub fn edition_from_lowered(lowered: &str) -> (r: Edition)
    ensures
        r == edition_named(lowered@),
{
    if same_text(lowered, "bedrock") {
        Edition::Bedrock
    } else {
        Edition::Java
    }
}

/// The edition that a name stands for, whatever its case.
pub fn normalize_edition(value: Option<&str>) -> (r: Edition)
    ensures
        match value {
            Some(v) => r == edition_of(Some(v@)),
            None => r == edition_of(None),
        },
{
    match value {
        Some(v) => {
            let lowered = lower(v);
            edition_from_lowered(lowered.as_str())
        },
        None => Edition::Java,
    }
}

// ---------------------------------------------------------------------------
// Addresses
// ---------------------------------------------------------------------------

/// The place of the first `c` in a text, or the text's length.
pub open spec fn first_of(text: Seq<char>, c: char) -> int
    decreases text.len(),
{
    if text.len() == 0 || text[0] == c {
        0
    } else {
        1 + first_of(text.drop_first(), c)
    }
}

/// How often `c` comes in a text.
pub open spec fn count_of(text: Seq<char>, c: char) -> int
    decreases text.len(),
{
    if text.len() == 0 {
        0
    } else {
        count_of(text.drop_last(), c) + if text.last() == c {
            1int
        } else {
            0
        }
    }
}

/// The port that a numeral stands for.
pub open spec fn port_value(text: Seq<char>) -> Option<u16> {
    match unsigned_value(text, u16::MAX as int) {
        Some(n) => Some(n as u16),
        None => None,
    }
}

/// Host and port of `host[:port]`, where an IPv6 host may stand in brackets.
/// Without brackets a port is read only after a colon that is the only one.
pub open spec fn address(value: Seq<char>) -> (Seq<char>, Option<u16>) {
    let bracket = first_of(value, ']');
    let colon = first_of(value, ':');
    if value.len() > 0 && value[0] == '[' && bracket < value.len() {
        let host = value.subrange(1, bracket);
        let rest = value.skip(bracket + 1);
        if rest.len() > 0 && rest[0] == ':' {
            (host, port_value(rest.skip(1)))
        } else {
            (host, None)
        }
    } else if count_of(value, ':') == 1 && port_value(value.skip(colon + 1)) is Some {
        (value.take(colon), port_value(value.skip(colon + 1)))
    } else {
        (value, None)
    }
}

proof fn lemma_first_of(text: Seq<char>, c: char)
    ensures
        0 <= first_of(text, c) <= text.len(),
        first_of(text, c) < text.len() ==> text[first_of(text, c)] == c,
        forall|i: int| 0 <= i < first_of(text, c) ==> text[i] != c,
    decreases text.len(),
{
    if text.len() > 0 && text[0] != c {
        lemma_first_of(text.drop_first(), c);
        assert forall|i: int| 0 <= i < first_of(text, c) implies text[i] != c by {
            if i > 0 {
                assert(text[i] == text.drop_first()[i - 1]);
            }
        }
    }
}

/// The place of the first `c` in the characters, or their number.
fn find_char(chars: &Vec<char>, c: char) -> (r: usize)
    ensures
        r == first_of(chars@, c),
        r <= chars@.len(),
{
    let mut i: usize = 0;
    proof {
        lemma_first_of(chars@, c);
    }
    while i < chars.len() && chars[i] != c
        invariant
            0 <= i <= chars@.len(),
            i <= first_of(chars@, c) <= chars@.len(),
            first_of(chars@, c) < chars@.len() ==> chars@[first_of(chars@, c)] == c,
            forall|j: int| 0 <= j < first_of(chars@, c) ==> chars@[j] != c,
        decreases chars@.len() - i,
    {
        i = i + 1;
    }
    i
}

/// How often `c` comes among the characters.
fn count_char(chars: &Vec<char>, c: char) -> (r: usize)
    ensures
        r == count_of(chars@, c),
{
    let mut n: usize = 0;
    let mut i: usize = 0;
    while i < chars.len()
        invariant
            0 <= i <= chars@.len(),
            n <= i,
            n == count_of(chars@.take(i as int), c),
        decreases chars@.len() - i,
    {
        assert(chars@.take(i + 1).drop_last() =~= chars@.take(i as int));
        if chars[i] == c {
            n = n + 1;
        }
        i = i + 1;
    }
    assert(chars@.take(i as int) =~= chars@);
    n
}

/// Parse "host[:port]" including IPv6 bracket notation.
pub fn parse_address(value: &str) -> (r: (String, Option<u16>))
    ensures
        (r.0@, r.1) == address(value@),
{
    let cs = chars_of(value);
    let n: usize = cs.len();
    let bracket = find_char(&cs, ']');
    if n > 0 && cs[0] == '[' && bracket < n {
        proof {
            lemma_first_of(value@, ']');
        }
        let host = value.substring_char(1, bracket);
        if bracket + 1 < n && cs[bracket + 1] == ':' {
            let digits = value.substring_char(bracket + 2, n);
            assert(value@.skip(bracket + 1).skip(1) =~= value@.subrange(bracket + 2, n as int));
            return (host.to_owned(), parse_u16(digits));
        }
        return (host.to_owned(), None);
    }
    if count_char(&cs, ':') == 1 {
        let colon = find_char(&cs, ':');
        proof {
            lemma_count_positive(value@, ':');
        }
        let digits = value.substring_char(colon + 1, n);
        assert(value@.skip(colon + 1) =~= value@.subrange(colon + 1, n as int));
        match parse_u16(digits) {
            Some(port) => {
                let host = value.substring_char(0, colon);
                assert(value@.take(colon as int) =~= value@.subrange(0, colon as int));
                return (host.to_owned(), Some(port));
            },
            None => {},
        }
    }
    (value.to_owned(), None)
}

proof fn lemma_count_positive(text: Seq<char>, c: char)
    requires
        count_of(text, c) > 0,
    ensures
        first_of(text, c) < text.len(),
    decreases text.len(),
{
    lemma_first_of(text, c);
    if text.last() != c {
        lemma_count_positive(text.drop_last(), c);
        lemma_first_of(text.drop_last(), c);
        let i = first_of(text.drop_last(), c);
        assert(text[i] == text.drop_last()[i]);
    }
}

proof fn lemma_first_of_at(text: Seq<char>, c: char, at: int)
    requires
        0 <= at < text.len(),
        text[at] == c,
        forall|i: int| 0 <= i < at ==> text[i] != c,
    ensures
        first_of(text, c) == at,
{
    lemma_first_of(text, c);
}

proof fn lemma_count_none(text: Seq<char>, c: char)
    requires
        !text.contains(c),
    ensures
        count_of(text, c) == 0,
    decreases text.len(),
{
    if text.len() > 0 {
        assert(text[text.len() - 1] != c);
        assert forall|i: int| 0 <= i < text.len() - 1 implies text.drop_last()[i] != c by {
            assert(text[i] != c);
        }
        lemma_count_none(text.drop_last(), c);
    }
}

proof fn lemma_count_concat(a: Seq<char>, b: Seq<char>, c: char)
    ensures
        count_of(a + b, c) == count_of(a, c) + count_of(b, c),
    decreases b.len(),
{
    if b.len() == 0 {
        assert(a + b =~= a);
    } else {
        assert((a + b).drop_last() =~= a + b.drop_last());
        lemma_count_concat(a, b.drop_last(), c);
    }
}

proof fn lemma_port_text(port: u16)
    ensures
        port_value(crate::text::decimal_text(port as int)) == Some(port),
        !crate::text::decimal_text(port as int).contains(':'),
{
    crate::text::law_numeral_round_trip(port as int, u16::MAX as int);
    crate::text::lemma_decimal_text(port as int);
}

/// A host without colons, written with a port, is read back as the two.
pub proof fn law_address_round_trip(host: Seq<char>, port: u16)
    requires
        !host.contains(':'),
        host.len() > 0 && host[0] == '[' ==> !host.contains(']'),
    ensures
        address(host + seq![':'] + crate::text::decimal_text(port as int)) == (host, Some(port)),
{
    let digits = crate::text::decimal_text(port as int);
    let n = host.len() as int;
    let value = host + seq![':'] + digits;
    lemma_port_text(port);
    crate::text::lemma_decimal_text(port as int);
    lemma_first_of_at(value, ':', host.len() as int);
    lemma_first_of(value, ']');
    lemma_count_none(host, ':');
    lemma_count_none(digits, ':');
    lemma_count_concat(host, seq![':'] + digits, ':');
    lemma_count_concat(seq![':'], digits, ':');
    assert(seq![':'].drop_last() =~= Seq::<char>::empty());
    assert(count_of(seq![':'], ':') == 1) by {
        reveal_with_fuel(count_of, 2);
    }
    assert(value =~= host + (seq![':'] + digits));
    assert(value.skip(n + 1) =~= digits);
    assert(value.take(host.len() as int) =~= host);
    let bracket = first_of(value, ']');
    if host.len() == 0 {
        assert(value[0] == ':');
    } else if host[0] == '[' && bracket < value.len() {
        if bracket < host.len() {
            assert(host[bracket] == ']');
            assert(host.contains(']'));
        } else if bracket > host.len() {
            assert(is_digit(digits[bracket - host.len() - 1]));
        }
    }
}

/// A host in brackets, written with a port, is read back as the two, colons and
/// all.
pub proof fn law_bracketed_address_round_trip(host: Seq<char>, port: u16)
    requires
        !host.contains(']'),
    ensures
        address(seq!['['] + host + seq![']', ':'] + crate::text::decimal_text(port as int)) == (
            host,
            Some(port),
        ),
        address(seq!['['] + host + seq![']']) == (host, None::<u16>),
{
    let digits = crate::text::decimal_text(port as int);
    let n = host.len() as int;
    let value = seq!['['] + host + seq![']', ':'] + digits;
    lemma_port_text(port);
    assert forall|i: int| 0 <= i < n + 1 implies value[i] != ']' by {
        if i > 0 {
            assert(host[i - 1] != ']');
        }
    }
    lemma_first_of_at(value, ']', n + 1);
    assert(value.subrange(1, n + 1) =~= host);
    assert(value.skip(n + 2).skip(1) =~= digits);
    let bare = seq!['['] + host + seq![']'];
    assert forall|i: int| 0 <= i < n + 1 implies bare[i] != ']' by {
        if i > 0 {
            assert(host[i - 1] != ']');
        }
    }
    lemma_first_of_at(bare, ']', n + 1);
    assert(bare.subrange(1, n + 1) =~= host);
}

/// A text with two colons or more that does not begin with a bracket is a host
/// alone.
pub proof fn law_raw_ipv6_has_no_port(value: Seq<char>)
    requires
        count_of(value, ':') != 1,
        value.len() > 0 ==> value[0] != '[',
    ensures
        address(value) == (value, None::<u16>),
{
}

// ---------------------------------------------------------------------------
// IP addresses
// ---------------------------------------------------------------------------

/// A number up to 255 in decimal, without leading zeros.
pub open spec fn is_octet(text: Seq<char>) -> bool {
    &&& all_digits(text)
    &&& text.len() <= 3
    &&& decimal(text) <= 255
    &&& text.len() == 1 || text[0] != '0'
}

/// Four octets with dots between.
pub open spec fn is_ipv4(text: Seq<char>) -> bool {
    let parts = split(text, '.');
    parts.len() == 4 && forall|i: int| 0 <= i < 4 ==> is_octet(#[trigger] parts[i])
}

pub open spec fn is_hex(c: char) -> bool {
    is_digit(c) || ('a' <= c && c <= 'f') || ('A' <= c && c <= 'F')
}

/// One to four hexadecimal digits.
pub open spec fn is_group(text: Seq<char>) -> bool {
    &&& 1 <= text.len() <= 4
    &&& forall|i: int| 0 <= i < text.len() ==> is_hex(#[trigger] text[i])
}

/// How many groups a run of groups with colons between has. With `tail`, an
/// IPv4 address may be the last part; it counts for two. The empty text is the
/// run of none.
pub open spec fn groups_of(text: Seq<char>, tail: bool) -> Option<int> {
    let parts = split(text, ':');
    let n = parts.len() as int;
    if text.len() == 0 {
        Some(0)
    } else if forall|i: int| 0 <= i < n - 1 ==> is_group(#[trigger] parts[i]) {
        if is_group(parts[n - 1]) {
            Some(n)
        } else if tail && is_ipv4(parts[n - 1]) {
            Some(n + 1)
        } else {
            None
        }
    } else {
        None
    }
}

/// The place of the first two colons in a row, or the text's length.
pub open spec fn gap_of(text: Seq<char>) -> int
    decreases text.len(),
{
    if text.len() < 2 {
        text.len() as int
    } else if text[0] == ':' && text[1] == ':' {
        0
    } else {
        1 + gap_of(text.drop_first())
    }
}

/// Eight groups, or fewer with two colons in the place of one group or more.
pub open spec fn is_ipv6(text: Seq<char>) -> bool {
    let gap = gap_of(text);
    if gap < text.len() {
        match (groups_of(text.take(gap), false), groups_of(text.skip(gap + 2), true)) {
            (Some(head), Some(tail)) => head + tail <= 7,
            _ => false,
        }
    } else {
        groups_of(text, true) == Some(8int)
    }
}

fn octet(text: &str) -> (r: bool)
    ensures
        r == is_octet(text@),
{
    let cs = chars_of(text);
    if cs.len() == 0 || cs.len() > 3 || (cs.len() > 1 && cs[0] == '0') || cs[0] == '+' {
        return false;
    }
    parse_unsigned(text, 255).is_some()
}

fn ipv4(text: &str) -> (r: bool)
    ensures
        r == is_ipv4(text@),
{
    let parts = split_text(text, '.');
    if parts.len() != 4 {
        return false;
    }
    let mut i: usize = 0;
    while i < 4
        invariant
            0 <= i <= 4,
            parts@.len() == 4,
            texts(parts@) == split(text@, '.'),
            forall|j: int| 0 <= j < i ==> is_octet(#[trigger] texts(parts@)[j]),
        decreases 4 - i,
    {
        if !octet(parts[i].as_str()) {
            assert(!is_octet(texts(parts@)[i as int]));
            return false;
        }
        assert(is_octet(texts(parts@)[i as int]));
        i = i + 1;
    }
    true
}

fn hex_char(c: char) -> (r: bool)
    ensures
        r == is_hex(c),
{
    ('0' <= c && c <= '9') || ('a' <= c && c <= 'f') || ('A' <= c && c <= 'F')
}

fn group(text: &str) -> (r: bool)
    ensures
        r == is_group(text@),
{
    let cs = chars_of(text);
    if cs.len() == 0 || cs.len() > 4 {
        return false;
    }
    let mut i: usize = 0;
    while i < cs.len()
        invariant
            0 <= i <= cs@.len(),
            cs@ == text@,
            forall|j: int| 0 <= j < i ==> is_hex(#[trigger] text@[j]),
        decreases cs@.len() - i,
    {
        if !hex_char(cs[i]) {
            assert(!is_hex(text@[i as int]));
            return false;
        }
        i = i + 1;
    }
    true
}

fn count_groups(text: &str, tail: bool) -> (r: Option<usize>)
    ensures
        match r {
            Some(n) => groups_of(text@, tail) matches Some(m) && (m == n || (m > 8 && n > 8)),
            None => groups_of(text@, tail) is None,
        },
{
    if text.is_empty() {
        return Some(0);
    }
    let parts = split_text(text, ':');
    let n: usize = parts.len();
    proof {
        crate::text::lemma_split_not_empty(text@, ':');
        assert(texts(parts@).len() == parts@.len());
    }
    let mut i: usize = 0;
    while i < n - 1
        invariant
            0 <= i <= n - 1,
            n == parts@.len(),
            texts(parts@) == split(text@, ':'),
            text@.len() > 0,
            forall|j: int| 0 <= j < i ==> is_group(#[trigger] texts(parts@)[j]),
        decreases n - i,
    {
        if !group(parts[i].as_str()) {
            assert(!is_group(texts(parts@)[i as int]));
            return None;
        }
        assert(is_group(texts(parts@)[i as int]));
        i = i + 1;
    }
    let last = parts[n - 1].as_str();
    assert(last@ == texts(parts@)[n - 1]);
    if group(last) {
        Some(n)
    } else if tail && ipv4(last) {
        if n > 8 {
            Some(n)
        } else {
            Some(n + 1)
        }
    } else {
        None
    }
}

fn find_gap(chars: &Vec<char>) -> (r: usize)
    ensures
        r == gap_of(chars@),
        r <= chars@.len(),
        r < chars@.len() ==> r + 2 <= chars@.len(),
{
    let n: usize = chars.len();
    let mut i: usize = 0;
    assert(chars@.skip(0) =~= chars@);
    while n - i >= 2 && !(chars[i] == ':' && chars[i + 1] == ':')
        invariant
            0 <= i <= n,
            n == chars@.len(),
            gap_of(chars@) == i + gap_of(chars@.skip(i as int)),
        decreases n - i,
    {
        assert(chars@.skip(i as int).drop_first() =~= chars@.skip(i + 1));
        i = i + 1;
    }
    if n - i >= 2 {
        i
    } else {
        n
    }
}

/// Whether a host is an IP address and not a name.
pub fn looks_like_ip(host: &str) -> (r: bool)
    ensures
        r == (is_ipv4(host@) || is_ipv6(host@)),
{
    if ipv4(host) {
        return true;
    }
    let cs = chars_of(host);
    let n: usize = cs.len();
    let gap = find_gap(&cs);
    if gap < n {
        let head = host.substring_char(0, gap);
        let tail = host.substring_char(gap + 2, n);
        assert(host@.take(gap as int) =~= head@);
        assert(host@.skip(gap + 2) =~= tail@);
        match (count_groups(head, false), count_groups(tail, true)) {
            (Some(a), Some(b)) => a <= 7 && b <= 7 - a,
            _ => false,
        }
    } else {
        match count_groups(host, true) {
            Some(k) => k == 8,
            None => false,
        }
    }
}

// ---------------------------------------------------------------------------
// Catalog entries
// ---------------------------------------------------------------------------

/// The port under a key: a number cut to 16 bits, or a numeral.
pub open spec fn port_field(server: JsonView, key: Seq<char>) -> Option<u16> {
    match field(server, key) {
        Some(JsonView::Number(n)) => match n.unsigned {
            Some(u) => Some((u % 0x1_0000) as u16),
            None => None,
        },
        Some(JsonView::Text(t)) => port_value(t),
        _ => None,
    }
}

/// The port under a key: a number cut to 16 bits, or a numeral.
fn port_at(server: &Json, key: &str) -> (r: Option<u16>)
    ensures
        r == port_field(server@, key@),
{
    match server.get(key) {
        Some(Json::Number(n)) => match n.unsigned() {
            Some(u) => Some((u % 0x1_0000) as u16),
            None => None,
        },
        Some(Json::Text(t)) => parse_u16(t.as_str()),
        _ => None,
    }
}

/// Poll port and Bedrock port of a server. The catalog's ping port counts before
/// the one in the address, but Java's default port is taken only for a host that
/// is an IP address: for a name it would hide the SRV record. A Bedrock server
/// without any port is polled on its Bedrock port.
pub open spec fn state_ports(
    server: JsonView,
    host: Seq<char>,
    parsed_port: Option<u16>,
    edition: Edition,
) -> (Option<u16>, Option<u16>) {
    let bedrock_port = port_field(server, "bedrock_port"@);
    let explicit = match port_field(server, "ping_port"@) {
        Some(p) => if edition == Edition::Java && p == 25565 && !(is_ipv4(host) || is_ipv6(
            host,
        )) {
            parsed_port
        } else {
            Some(p)
        },
        None => parsed_port,
    };
    let port = if edition == Edition::Bedrock && explicit is None {
        bedrock_port
    } else {
        explicit
    };
    (port, bedrock_port)
}

/// Resolve effective poll port and bedrock port from server catalog data.
pub fn resolve_state_ports(
    server: &Json,
    host: &str,
    parsed_port: Option<u16>,
    edition: Edition,
) -> (r: (Option<u16>, Option<u16>))
    ensures
        r == state_ports(server@, host@, parsed_port, edition),
{
    let mut port = parsed_port;
    match port_at(server, "ping_port") {
        Some(pp) => {
            // Ignore default Java port for hostname targets to honor SRV records.
            let ignore_default_java = edition != Edition::Bedrock && pp == JAVA_DEFAULT_PORT
                && !looks_like_ip(host);
            if !ignore_default_java {
                port = Some(pp);
            }
        },
        None => {},
    }
    let bedrock_port = port_at(server, "bedrock_port");
    // For Bedrock edition with no explicit port, use bedrock_port.
    if edition == Edition::Bedrock && port.is_none() {
        port = bedrock_port;
    }
    (port, bedrock_port)
}

/// Whether the plugin on the server itself reports for it.
pub open spec fn plugin_managed(server: JsonView) -> bool {
    bool_field(server, "is_verified"@) && lowered(
        trimmed(text_or_empty(server, "verification_source"@)),
    ) == "plugin"@
}

/// The text under a key, or the empty one.
fn text_or_blank<'a>(server: &'a Json, key: &str) -> (r: &'a str)
    ensures
        r@ == text_or_empty(server@, key@),
{
    match server.text_at(key) {
        Some(t) => t,
        None => {
            proof {
                reveal_strlit("");
            }
            assert(""@ =~= Seq::<char>::empty());
            ""
        },
    }
}

/// Whether a source in lower case is the plugin.
pub fn source_is_plugin(lowered: &str) -> (r: bool)
    ensures
        r == (lowered@ == "plugin"@),
{
    same_text(lowered, "plugin")
}

/// Whether the plugin on the server itself reports for it.
pub fn is_plugin_managed(server: &Json) -> (r: bool)
    ensures
        r == plugin_managed(server@),
{
    let verified = server.bool_at("is_verified");
    let source = lower(trim(text_or_blank(server, "verification_source")));
    verified && source_is_plugin(source.as_str())
}

/// The edition that a catalog entry names, Java where it names none.
pub open spec fn named_edition(server: JsonView) -> Seq<char> {
    match text_field(server, "game_edition"@) {
        Some(t) => t,
        None => "java"@,
    }
}

/// Whether a server is to be probed for Bedrock: where probing is on, those of
/// the Java edition.
pub open spec fn wants_probe(server: JsonView, probe_interval: u64) -> bool {
    probe_interval != 0 && lowered(named_edition(server)) == "java"@
}

/// Whether an edition in lower case is Java.
pub fn edition_is_java(lowered: &str) -> (r: bool)
    ensures
        r == (lowered@ == "java"@),
{
    same_text(lowered, "java")
}

/// Whether a server is to be probed for Bedrock.
pub fn wants_bedrock_probe(server: &Json, probe_interval: u64) -> (r: bool)
    ensures
        r == wants_probe(server@, probe_interval),
{
    let named = match server.text_at("game_edition") {
        Some(t) => t,
        None => "java",
    };
    let edition = lower(named);
    if probe_interval == 0 {
        return false;
    }
    edition_is_java(edition.as_str())
}

/// Whether a host in lower case is only reachable from inside.
pub fn begins_internal(lowered: &str) -> (r: bool)
    ensures
        r == begins_with(lowered@, "internal-"@),
{
    starts_with(lowered, "internal-")
}

/// Whether a host is only reachable from inside: its name begins with
/// `internal-`, whatever its case.
pub fn is_internal_only_host(host: &str) -> (r: bool)
    ensures
        r == internal_only(host@),
{
    let lowered = lower(trim(host));
    begins_internal(lowered.as_str())
}

pub open spec fn internal_only(host: Seq<char>) -> bool {
    begins_with(lowered(trimmed(host)), "internal-"@)
}

/// The identifier of a catalog entry as text.
pub open spec fn id_of(server: JsonView) -> Seq<char> {
    match field(server, "id"@) {
        None => Seq::empty(),
        Some(JsonView::Number(n)) => n.text,
        Some(JsonView::Text(t)) => t,
        Some(other) => printed_json(other),
    }
}

/// The identifier of a catalog entry as text.
pub fn id_text(server: &Json) -> (r: String)
    ensures
        r@ == id_of(server@),
{
    match server.get("id") {
        None => String::new(),
        Some(Json::Number(n)) => n.text(),
        Some(Json::Text(t)) => t.clone(),
        Some(other) => json_text(other),
    }
}

/// The address of a catalog entry that is to be polled.
pub open spec fn host_value_of(server: JsonView) -> Seq<char> {
    match text_field(server, "ping_ip_or_domain"@) {
        Some(t) => if t.len() > 0 {
            t
        } else {
            text_or_empty(server, "ip_or_domain"@)
        },
        None => text_or_empty(server, "ip_or_domain"@),
    }
}

/// The address of a catalog entry that is to be polled.
fn host_value<'a>(server: &'a Json) -> (r: &'a str)
    ensures
        r@ == host_value_of(server@),
{
    match server.text_at("ping_ip_or_domain") {
        Some(t) => {
            if !t.is_empty() {
                return t;
            }
        },
        None => {},
    }
    text_or_blank(server, "ip_or_domain")
}

/// Where a server is polled.
pub struct Target {
    pub host: String,
    pub port: Option<u16>,
    pub bedrock_port: Option<u16>,
    pub edition: Edition,
}

#[verifier::ext_equal]
pub struct TargetView {
    pub host: Seq<char>,
    pub port: Option<u16>,
    pub bedrock_port: Option<u16>,
    pub edition: Edition,
}

impl Target {
    pub open spec fn view(self) -> TargetView {
        TargetView {
            host: self.host@,
            port: self.port,
            bedrock_port: self.bedrock_port,
            edition: self.edition,
        }
    }
}

/// Where the server of a catalog entry is polled.
pub open spec fn target_of(server: JsonView) -> TargetView {
    let (host, parsed_port) = address(host_value_of(server));
    let edition = edition_of(text_field(server, "game_edition"@));
    let (port, bedrock_port) = state_ports(server, host, parsed_port, edition);
    TargetView { host, port, bedrock_port, edition }
}

/// Where the server of a catalog entry is polled.
pub fn poll_target(server: &Json) -> (r: Target)
    ensures
        r@ == target_of(server@),
{
    let (host, parsed_port) = parse_address(host_value(server));
    let edition = normalize_edition(server.text_at("game_edition"));
    let (port, bedrock_port) = resolve_state_ports(server, host.as_str(), parsed_port, edition);
    Target { host, port, bedrock_port, edition }
}

// ---------------------------------------------------------------------------
// Per-server state
// ---------------------------------------------------------------------------

/// Per-server polling state held in memory.
#[derive(Debug)]
pub struct ServerState {
    pub key: String,
    pub server_id: String,
    pub server: Json,
    pub host: String,
    pub port: Option<u16>,
    pub bedrock_port: Option<u16>,
    pub edition: Edition,
    pub next_due: u128,
    pub next_bedrock_probe: Option<u128>,
    pub next_query_attempt: u64,
    pub plugin_managed: bool,
    pub plugin_fallback_mode: bool,
    pub last_favicon_hash: Option<String>,
    pub has_succeeded: bool,
    pub initial_failures: u32,
    pub consecutive_failures: u32,
    pub has_emitted_state: bool,
    pub last_emitted_up: Option<bool>,
    pub last_emitted_online: Option<i64>,
    pub last_emitted_max_players: Option<i64>,
    pub last_emitted_version: Option<String>,
    pub last_emitted_motd: Option<String>,
    pub last_emitted_country: Option<String>,
    pub last_emitted_country_code: Option<String>,
    pub last_emitted_players_hash: Option<String>,
    pub last_emitted_at: Option<u128>,
}

/// What was last reported of a server.
#[verifier::ext_equal]
pub struct EmittedView {
    pub any: bool,
    pub up: Option<bool>,
    pub online: Option<i64>,
    pub max_players: Option<i64>,
    pub version: Option<Seq<char>>,
    pub motd: Option<Seq<char>>,
    pub country: Option<Seq<char>>,
    pub country_code: Option<Seq<char>>,
    pub players_hash: Option<Seq<char>>,
    pub at: Option<u128>,
}

/// What a server's state is.
#[verifier::ext_equal]
pub struct ServerStateView {
    pub key: Seq<char>,
    pub server_id: Seq<char>,
    pub server: JsonView,
    pub target: TargetView,
    pub next_due: u128,
    pub next_bedrock_probe: Option<u128>,
    pub next_query_attempt: u64,
    pub plugin_managed: bool,
    pub plugin_fallback_mode: bool,
    pub last_favicon_hash: Option<Seq<char>>,
    pub has_succeeded: bool,
    pub initial_failures: u32,
    pub consecutive_failures: u32,
    pub emitted: EmittedView,
}

/// Nothing was reported.
pub open spec fn nothing_emitted() -> EmittedView {
    EmittedView {
        any: false,
        up: None,
        online: None,
        max_players: None,
        version: None,
        motd: None,
        country: None,
        country_code: None,
        players_hash: None,
        at: None,
    }
}

impl ServerState {
    pub open spec fn emitted(self) -> EmittedView {
        EmittedView {
            any: self.has_emitted_state,
            up: self.last_emitted_up,
            online: self.last_emitted_online,
            max_players: self.last_emitted_max_players,
            version: opt_text(self.last_emitted_version),
            motd: opt_text(self.last_emitted_motd),
            country: opt_text(self.last_emitted_country),
            country_code: opt_text(self.last_emitted_country_code),
            players_hash: opt_text(self.last_emitted_players_hash),
            at: self.last_emitted_at,
        }
    }

    pub open spec fn view(self) -> ServerStateView {
        ServerStateView {
            key: self.key@,
            server_id: self.server_id@,
            server: self.server@,
            target: TargetView {
                host: self.host@,
                port: self.port,
                bedrock_port: self.bedrock_port,
                edition: self.edition,
            },
            next_due: self.next_due,
            next_bedrock_probe: self.next_bedrock_probe,
            next_query_attempt: self.next_query_attempt,
            plugin_managed: self.plugin_managed,
            plugin_fallback_mode: self.plugin_fallback_mode,
            last_favicon_hash: opt_text(self.last_favicon_hash),
            has_succeeded: self.has_succeeded,
            initial_failures: self.initial_failures,
            consecutive_failures: self.consecutive_failures,
            emitted: self.emitted(),
        }
    }

    /// Reset all emitted fields (forces full re-emission).
    pub fn reset_emitted(&mut self)
        ensures
            final(self)@ == (ServerStateView { emitted: nothing_emitted(), ..old(self)@ }),
    {
        self.has_emitted_state = false;
        self.last_emitted_up = None;
        self.last_emitted_online = None;
        self.last_emitted_max_players = None;
        self.last_emitted_version = None;
        self.last_emitted_motd = None;
        self.last_emitted_country = None;
        self.last_emitted_country_code = None;
        self.last_emitted_players_hash = None;
        self.last_emitted_at = None;
    }
}

/// Seconds in nanoseconds, at least one second.
pub open spec fn spread_nanos(seconds: u64) -> int {
    if seconds == 0 {
        1_000_000_000
    } else {
        seconds * 1_000_000_000
    }
}

/// Seconds in nanoseconds, at least one second.
pub fn spread_of(seconds: u64) -> (r: u128)
    ensures
        r == spread_nanos(seconds),
        r > 0,
        r < 0x8000_0000_0000_0000_0000_0000,
{
    if seconds == 0 {
        1_000_000_000
    } else {
        seconds as u128 * 1_000_000_000
    }
}

/// When a server is first probed for Bedrock, `jitter` into the interval.
pub open spec fn seeded_probe(
    server: JsonView,
    now: u64,
    probe_interval: u64,
    jitter: u128,
) -> Option<u128> {
    if wants_probe(server, probe_interval) {
        Some((now + jitter) as u128)
    } else {
        None
    }
}

/// When a server is first probed for Bedrock, `jitter` into the interval.
pub fn seed_bedrock_probe_with(server: &Json, now: u64, probe_interval: u64, jitter: u128) -> (r:
    Option<u128>)
    requires
        jitter < spread_nanos(probe_interval),
    ensures
        r == seeded_probe(server@, now, probe_interval, jitter),
{
    if wants_bedrock_probe(server, probe_interval) {
        Some(now as u128 + jitter)
    } else {
        None
    }
}

/// When a server is first probed for Bedrock: at a random point of the interval.
pub fn seed_bedrock_probe(server: &Json, now: u64, probe_interval: u64) -> (r: Option<u128>)
    ensures
        match r {
            Some(t) => wants_probe(server@, probe_interval) && now <= t < now + spread_nanos(
                probe_interval,
            ),
            None => !wants_probe(server@, probe_interval),
        },
{
    let jitter = random_below(spread_of(probe_interval));
    seed_bedrock_probe_with(server, now, probe_interval, jitter)
}

/// When a server is probed next: the interval later, off by `ratio` billionths
/// of the greatest deviation, but a minute later at least.
pub open spec fn next_probe(
    server: JsonView,
    now: u64,
    probe_interval: u64,
    probe_jitter: u64,
    ratio: i64,
) -> Option<u128> {
    if wants_probe(server, probe_interval) {
        let interval = probe_interval * 1_000_000_000 + probe_jitter * ratio;
        let wait = if interval < 60_000_000_000 {
            60_000_000_000
        } else {
            interval
        };
        Some((now + wait) as u128)
    } else {
        None
    }
}

/// When a server is probed next, off by `ratio` billionths of the greatest
/// deviation.
pub fn schedule_next_bedrock_probe_with(
    server: &Json,
    now: u64,
    probe_interval: u64,
    probe_jitter: u64,
    ratio: i64,
) -> (r: Option<u128>)
    requires
        -1_000_000_000 <= ratio < 1_000_000_000,
    ensures
        r == next_probe(server@, now, probe_interval, probe_jitter, ratio),
{
    if !wants_bedrock_probe(server, probe_interval) {
        return None;
    }
    proof {
        assert(-0x4000_0000_0000_0000_0000_0000 < probe_jitter * ratio
            < 0x4000_0000_0000_0000_0000_0000) by (nonlinear_arith)
            requires
                -1_000_000_000 <= ratio < 1_000_000_000,
                0 <= probe_jitter <= u64::MAX,
        ;
    }
    let interval: i128 = probe_interval as i128 * 1_000_000_000 + probe_jitter as i128
        * ratio as i128;
    let wait: i128 = if interval < 60_000_000_000 {
        60_000_000_000
    } else {
        interval
    };
    Some(now as u128 + wait as u128)
}

/// When a server is probed next: the interval later with a random deviation.
pub fn schedule_next_bedrock_probe(
    server: &Json,
    now: u64,
    probe_interval: u64,
    probe_jitter: u64,
) -> (r: Option<u128>)
    ensures
        r is Some <==> wants_probe(server@, probe_interval),
        r is Some ==> exists|ratio: i64|
            -1_000_000_000 <= ratio < 1_000_000_000 && r == next_probe(
                server@,
                now,
                probe_interval,
                probe_jitter,
                ratio,
            ),
{
    let ratio: i64 = random_below(2_000_000_000) as i64 - 1_000_000_000;
    schedule_next_bedrock_probe_with(server, now, probe_interval, probe_jitter, ratio)
}

/// The next probe comes a minute later at the earliest, and within the greatest
/// deviation of the interval or after that minute.
pub proof fn law_next_probe_is_bounded(
    server: JsonView,
    now: u64,
    probe_interval: u64,
    probe_jitter: u64,
    ratio: i64,
)
    requires
        -1_000_000_000 <= ratio < 1_000_000_000,
    ensures
        next_probe(server, now, probe_interval, probe_jitter, ratio) matches Some(t) ==> {
            &&& t >= now + 60_000_000_000
            &&& t >= now + (probe_interval - probe_jitter) * 1_000_000_000
            &&& t <= now + (probe_interval + probe_jitter) * 1_000_000_000 || t == now
                + 60_000_000_000
        },
{
    let off = probe_jitter * ratio;
    assert(-1_000_000_000 * probe_jitter <= off <= 1_000_000_000 * probe_jitter)
        by (nonlinear_arith)
        requires
            off == probe_jitter * ratio,
            -1_000_000_000 <= ratio < 1_000_000_000,
            0 <= probe_jitter,
    ;
}

/// The state of a server that enters the catalog, first due `due_jitter` from
/// now and first probed `probe_jitter` from now.
pub open spec fn built_state(
    server: JsonView,
    now: u64,
    probe_interval: u64,
    due_jitter: u128,
    probe_jitter: u128,
) -> ServerStateView {
    ServerStateView {
        key: id_of(server),
        server_id: id_of(server),
        server,
        target: target_of(server),
        next_due: (now + due_jitter) as u128,
        next_bedrock_probe: seeded_probe(server, now, probe_interval, probe_jitter),
        next_query_attempt: now,
        plugin_managed: plugin_managed(server),
        plugin_fallback_mode: false,
        last_favicon_hash: None,
        has_succeeded: false,
        initial_failures: 0,
        consecutive_failures: 0,
        emitted: nothing_emitted(),
    }
}

/// The state of a server that enters the catalog, with the two random delays
/// given.
pub fn build_state_with(
    server: Json,
    now: u64,
    startup_spread: u64,
    probe_interval: u64,
    due_jitter: u128,
    probe_jitter: u128,
) -> (r: ServerState)
    requires
        due_jitter < spread_nanos(startup_spread),
        probe_jitter < spread_nanos(probe_interval),
    ensures
        r@ == built_state(server@, now, probe_interval, due_jitter, probe_jitter),
{
    let server_id = id_text(&server);
    let key = server_id.clone();
    let target = poll_target(&server);
    let next_due: u128 = now as u128 + due_jitter;
    let next_bedrock_probe = seed_bedrock_probe_with(&server, now, probe_interval, probe_jitter);
    let plugin_managed = is_plugin_managed(&server);
    ServerState {
        key,
        server_id,
        server,
        host: target.host,
        port: target.port,
        bedrock_port: target.bedrock_port,
        edition: target.edition,
        next_due,
        next_bedrock_probe,
        next_query_attempt: now,
        plugin_managed,
        plugin_fallback_mode: false,
        last_favicon_hash: None,
        has_succeeded: false,
        initial_failures: 0,
        consecutive_failures: 0,
        has_emitted_state: false,
        last_emitted_up: None,
        last_emitted_online: None,
        last_emitted_max_players: None,
        last_emitted_version: None,
        last_emitted_motd: None,
        last_emitted_country: None,
        last_emitted_country_code: None,
        last_emitted_players_hash: None,
        last_emitted_at: None,
    }
}

/// Build initial ServerState from a catalog server JSON object.
pub fn build_state(server: Json, now: u64, startup_spread: u64, probe_interval: u64) -> (r:
    ServerState)
    ensures
        exists|due_jitter: u128, probe_jitter: u128|
            due_jitter < spread_nanos(startup_spread) && probe_jitter < spread_nanos(probe_interval)
                && r@ == #[trigger] built_state(
                server@,
                now,
                probe_interval,
                due_jitter,
                probe_jitter,
            ),
{
    let due_jitter = random_below(spread_of(startup_spread));
    let probe_jitter = random_below(spread_of(probe_interval));
    build_state_with(server, now, startup_spread, probe_interval, due_jitter, probe_jitter)
}

// ---------------------------------------------------------------------------
// Laws of catalog entries
// ---------------------------------------------------------------------------

/// What is read of an address is in it: a host without a port is the whole of it,
/// and a port is what stands behind the host and a colon.
pub proof fn law_address_is_taken_apart(value: Seq<char>)
    requires
        value.len() > 0 ==> value[0] != '[',
    ensures
        match address(value) {
            (host, Some(port)) => value == host + seq![':'] + value.skip(host.len() as int + 1)
                && port_value(value.skip(host.len() as int + 1)) == Some(port),
            (host, None) => host == value,
        },
{
    lemma_first_of(value, ':');
    let colon = first_of(value, ':');
    if address(value).1 is Some {
        if colon >= value.len() {
            lemma_count_none(value, ':');
        }
        assert(value =~= value.take(colon) + seq![':'] + value.skip(colon + 1));
    }
}

/// A port in an entry is a number or a numeral; a number beyond sixteen bits loses
/// what is above them.
pub proof fn law_ports_are_numbers_or_numerals(
    fields: Map<Seq<char>, JsonView>,
    key: Seq<char>,
    port: u16,
    high: int,
)
    requires
        0 <= high < 0x1_0000_0000_0000,
    ensures
        ({
            let number = JsonView::Number(int_number(high * 0x1_0000 + port));
            let numeral = JsonView::Text(crate::text::decimal_text(port as int));
            &&& port_field(JsonView::Object(fields.insert(key, number)), key) == Some(port)
            &&& port_field(JsonView::Object(fields.insert(key, numeral)), key) == Some(port)
            &&& port_field(JsonView::Object(fields.insert(key, JsonView::Null)), key) is None
            &&& port_field(JsonView::Object(fields.remove(key)), key) is None
        }),
{
    lemma_port_text(port);
    assert((high * 0x1_0000 + port) % 0x1_0000 == port) by (nonlinear_arith)
        requires
            0 <= port < 0x1_0000,
    ;
}

/// A ping port that is given is the port polled, whatever stands in the address.
/// Java's default port is the one exception: for a host that is a name it is left
/// to the SRV record, and the port in the address stays.
pub proof fn law_ping_port_comes_first(
    server: JsonView,
    host: Seq<char>,
    parsed: Option<u16>,
    edition: Edition,
    port: u16,
)
    requires
        port_field(server, "ping_port"@) == Some(port),
    ensures
        edition != Edition::Java || port != 25565 || is_ipv4(host) || is_ipv6(host) ==> state_ports(
            server,
            host,
            parsed,
            edition,
        ).0 == Some(port),
        edition == Edition::Java && port == 25565 && !is_ipv4(host) && !is_ipv6(host)
            ==> state_ports(server, host, parsed, edition).0 == parsed,
{
}

/// Without a ping port the port in the address is polled, and where there is none
/// either, a Bedrock server on its Bedrock port. The Bedrock port itself is what
/// the entry says, whatever else it says.
pub proof fn law_address_port_comes_second(
    server: JsonView,
    host: Seq<char>,
    parsed: Option<u16>,
    edition: Edition,
)
    ensures
        ({
            let bedrock = port_field(server, "bedrock_port"@);
            let ports = state_ports(server, host, parsed, edition);
            &&& ports.1 == bedrock
            &&& port_field(server, "ping_port"@) is None ==> {
                &&& parsed is Some ==> ports.0 == parsed
                &&& parsed is None && edition == Edition::Bedrock ==> ports.0 == bedrock
                &&& parsed is None && edition == Edition::Java ==> ports.0 is None
            }
        }),
{
}

/// An entry is polled at its own address: the ping address where one is given, or
/// else the address that players use.
pub proof fn law_ping_address_comes_first(
    fields: Map<Seq<char>, JsonView>,
    ping: Seq<char>,
    public: Seq<char>,
)
    requires
        ping.len() > 0,
    ensures
        ({
            let with_public = fields.insert("ip_or_domain"@, JsonView::Text(public));
            let both = JsonView::Object(
                with_public.insert("ping_ip_or_domain"@, JsonView::Text(ping)),
            );
            let blank = JsonView::Object(
                with_public.insert("ping_ip_or_domain"@, JsonView::Text(Seq::empty())),
            );
            let none = JsonView::Object(with_public.remove("ping_ip_or_domain"@));
            &&& target_of(both).host == address(ping).0
            &&& target_of(blank).host == address(public).0
            &&& target_of(none).host == address(public).0
        }),
{
    lemma_names_differ();
}

/// A host and a port that are written in an entry are where the server is polled,
/// as long as the entry gives no ping port.
pub proof fn law_written_address_is_polled(
    fields: Map<Seq<char>, JsonView>,
    host: Seq<char>,
    port: u16,
)
    requires
        !host.contains(':'),
        host.len() > 0 && host[0] == '[' ==> !host.contains(']'),
        !fields.dom().contains("ping_ip_or_domain"@),
        !fields.dom().contains("ping_port"@),
    ensures
        ({
            let written = host + seq![':'] + crate::text::decimal_text(port as int);
            let server = JsonView::Object(
                fields.insert("ip_or_domain"@, JsonView::Text(written)),
            );
            target_of(server).host == host && target_of(server).port == Some(port)
        }),
{
    lemma_names_differ();
    law_address_round_trip(host, port);
}

/// The ping port of an entry is where the server is polled, whatever port its
/// address has.
pub proof fn law_ping_port_is_polled(fields: Map<Seq<char>, JsonView>, port: u16)
    requires
        port != 25565,
    ensures
        target_of(
            JsonView::Object(
                fields.insert("ping_port"@, JsonView::Number(int_number(port as int))),
            ),
        ).port == Some(port),
{
    lemma_names_differ();
}

/// The Bedrock port of an entry is the one that is probed.
pub proof fn law_bedrock_port_is_kept(fields: Map<Seq<char>, JsonView>, port: u16)
    ensures
        target_of(
            JsonView::Object(
                fields.insert("bedrock_port"@, JsonView::Number(int_number(port as int))),
            ),
        ).bedrock_port == Some(port),
{
    lemma_names_differ();
}

/// The edition of an entry is Bedrock exactly where it says so, in any case.
pub proof fn law_edition_is_what_the_entry_says(fields: Map<Seq<char>, JsonView>, name: Seq<char>)
    ensures
        ({
            let server = JsonView::Object(
                fields.insert("game_edition"@, JsonView::Text(name)),
            );
            let silent = JsonView::Object(fields.remove("game_edition"@));
            &&& target_of(server).edition == Edition::Bedrock <==> lowered(name) == "bedrock"@
            &&& target_of(silent).edition == Edition::Java
            &&& wants_probe(server, 1) <==> lowered(name) == "java"@
            &&& wants_probe(silent, 1)
            &&& !wants_probe(server, 0) && !wants_probe(silent, 0)
        }),
{
    reveal_strlit("java");
    assert("java"@ =~= seq!['j', 'a', 'v', 'a']);
    assert(ascii_lowered("java"@) =~= "java"@);
    assert(is_ascii_chars("java"@));
}

/// Editions have the names and the ports of the game.
pub proof fn law_editions_of_the_game(edition: Edition)
    ensures
        edition.name() == if edition == Edition::Bedrock {
            "bedrock"@
        } else {
            "java"@
        },
        edition.port() == if edition == Edition::Bedrock {
            19132u16
        } else {
            25565u16
        },
        edition_of(Some(edition.name())) == edition,
{
    reveal_strlit("java");
    reveal_strlit("bedrock");
    assert("java"@ =~= seq!['j', 'a', 'v', 'a']);
    assert("bedrock"@ =~= seq!['b', 'e', 'd', 'r', 'o', 'c', 'k']);
    assert(ascii_lowered("java"@) =~= "java"@);
    assert(ascii_lowered("bedrock"@) =~= "bedrock"@);
    assert(is_ascii_chars("java"@) && is_ascii_chars("bedrock"@));
}

/// A plugin reports for a server exactly where the entry is verified and its
/// source is the plugin, whatever the case and the white space around it.
pub proof fn law_plugin_manages_verified_entries(
    fields: Map<Seq<char>, JsonView>,
    verified: bool,
    source: Seq<char>,
)
    ensures
        ({
            let flagged = fields.insert("is_verified"@, JsonView::Bool(verified));
            let server = JsonView::Object(
                flagged.insert("verification_source"@, JsonView::Text(source)),
            );
            plugin_managed(server) <==> verified && lowered(trimmed(source)) == "plugin"@
        }),
{
    lemma_names_differ();
}

/// The id of an entry is its text or its numeral.
pub proof fn law_id_is_a_text_or_a_numeral(
    fields: Map<Seq<char>, JsonView>,
    id: Seq<char>,
    n: int,
)
    ensures
        id_of(JsonView::Object(fields.insert("id"@, JsonView::Text(id)))) == id,
        id_of(JsonView::Object(fields.insert("id"@, JsonView::Number(int_number(n)))))
            == crate::text::integer_text(n),
        id_of(JsonView::Object(fields.remove("id"@))).len() == 0,
{
}

/// A new server starts from its entry, with nothing counted and nothing reported,
/// and is due and probed the given delays from now.
pub proof fn law_new_state_starts_from_its_entry(
    server: JsonView,
    now: u64,
    probe_interval: u64,
    due_jitter: u128,
    probe_jitter: u128,
)
    requires
        now + due_jitter <= u128::MAX,
        now + probe_jitter <= u128::MAX,
    ensures
        ({
            let state = built_state(server, now, probe_interval, due_jitter, probe_jitter);
            &&& state.server == server
            &&& state.key == id_of(server) && state.server_id == id_of(server)
            &&& state.target == target_of(server)
            &&& state.plugin_managed == plugin_managed(server)
            &&& state.next_due == now + due_jitter
            &&& state.next_query_attempt == now
            &&& state.next_bedrock_probe == if wants_probe(server, probe_interval) {
                Some((now + probe_jitter) as u128)
            } else {
                None
            }
            &&& !state.has_succeeded && state.initial_failures == 0 && state.consecutive_failures
                == 0
            &&& !state.emitted.any && state.emitted.up is None && state.emitted.online is None
            &&& state.last_favicon_hash is None
        }),
{
}

/// The next probe comes the interval later and off by the given part of the
/// deviation, where that is a minute or more.
pub proof fn law_next_probe_is_the_interval_later(
    server: JsonView,
    now: u64,
    probe_interval: u64,
    probe_jitter: u64,
    ratio: i64,
)
    requires
        -1_000_000_000 <= ratio < 1_000_000_000,
        probe_interval * 1_000_000_000 + probe_jitter * ratio >= 60_000_000_000,
        wants_probe(server, probe_interval),
    ensures
        next_probe(server, now, probe_interval, probe_jitter, ratio) matches Some(t) && t - now
            == probe_interval * 1_000_000_000 + probe_jitter * ratio,
{
    let off = probe_jitter * ratio;
    assert(-1_000_000_000 * probe_jitter <= off <= 1_000_000_000 * probe_jitter)
        by (nonlinear_arith)
        requires
            off == probe_jitter * ratio,
            -1_000_000_000 <= ratio < 1_000_000_000,
            0 <= probe_jitter,
    ;
}

/// What stands in brackets is the host, whatever follows, and what follows is a
/// port only behind a colon.
pub proof fn law_brackets_hold_the_host(host: Seq<char>, rest: Seq<char>)
    requires
        !host.contains(']'),
    ensures
        ({
            let read = address(seq!['['] + host + seq![']'] + rest);
            &&& read.0 == host
            &&& rest.len() > 0 && rest[0] == ':' ==> read.1 == port_value(rest.skip(1))
            &&& rest.len() == 0 || rest[0] != ':' ==> read.1 is None
        }),
{
    let value = seq!['['] + host + seq![']'] + rest;
    let n = host.len() as int;
    assert forall|i: int| 0 <= i < n + 1 implies value[i] != ']' by {
        if i > 0 {
            assert(host[i - 1] != ']');
        }
    }
    lemma_first_of_at(value, ']', n + 1);
    assert(value.subrange(1, n + 1) =~= host);
    assert(value.skip(n + 2) =~= rest);
}

/// Delays are spread over the whole of the seconds that are given, and over one
/// second where none are.
pub proof fn law_delays_are_spread_over_the_seconds(seconds: u64)
    ensures
        seconds > 0 ==> spread_nanos(seconds) == seconds * 1_000_000_000,
        seconds == 0 ==> spread_nanos(seconds) == 1_000_000_000,
{
}

} // verus!
