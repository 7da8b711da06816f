//! Server catalog synchronization, trigger files, force pings and discovery
//! probes.

use vstd::prelude::*;

use crate::chance::random_below;
use crate::json::{
    array_of_value, bool_of_value, field, i64_field, int_number, lemma_list_view, list_view,
    opt_u64_json, parse_json, parsed_json, text_field, text_or_empty, texts_json, u64_of_value,
    Json, JsonObject, JsonView,
};
use crate::models::{
    build_state_with, built_state, id_of, id_text, is_plugin_managed, nothing_emitted,
    plugin_managed, poll_target, seed_bedrock_probe_with, seeded_probe, spread_nanos, spread_of,
    target_of, wants_bedrock_probe, wants_probe, Edition, ServerState, ServerStateView,
};
use crate::names::lemma_names_differ;
use crate::ping::{favicon_url, polled, PollResult, PollView, StatusView};
use crate::scheduler::{law_scheduled_polls_are_kept, scheduled, Due, SchedulerHandle};
use crate::table::Table;
use crate::text::{
    ascii_lowered, chars_of, decimal_text, is_space, joined, lemma_decimal_text, lemma_words_tail,
    lower, lower_ascii, lowered, opt_text, push_decimal, same_text, split_words, texts, trim,
    trimmed, words,
};

verus! {

broadcast use vstd::string::group_string_axioms;

// ---------------------------------------------------------------------------
// Trigger files
// ---------------------------------------------------------------------------

/// The server id that a JSON value names.
pub open spec fn listed_id(value: JsonView) -> Option<Seq<char>> {
    let id = match value {
        JsonView::Text(t) => trimmed(t),
        JsonView::Number(n) => n.text,
        _ => Seq::empty(),
    };
    if id.len() > 0 {
        Some(id)
    } else {
        None
    }
}

/// The server ids that a list names.
pub open spec fn listed_ids(items: Seq<JsonView>) -> Seq<Seq<char>>
    decreases items.len(),
{
    if items.len() == 0 {
        Seq::empty()
    } else {
        let before = listed_ids(items.drop_last());
        match listed_id(items.last()) {
            Some(id) => before.push(id),
            None => before,
        }
    }
}

/// The text with spaces for commas.
pub open spec fn commas_blanked(text: Seq<char>) -> Seq<char> {
    Seq::new(
        text.len(),
        |i: int|
            if text[i] == ',' {
                ' '
            } else {
                text[i]
            },
    )
}

/// The servers that a JSON trigger names: all of them, or a list. Nothing where
/// the value is neither an object nor a list.
pub open spec fn json_targets(value: JsonView) -> Option<Option<Seq<Seq<char>>>> {
    match value {
        JsonView::Object(_) => {
            let all = match field(value, "all"@) {
                Some(v) => bool_of_value(v) == Some(true),
                None => false,
            };
            let list = match field(value, "server_ids"@) {
                Some(v) => array_of_value(v),
                None => match field(value, "ids"@) {
                    Some(v) => array_of_value(v),
                    None => None,
                },
            };
            if all {
                Some(None)
            } else {
                match list {
                    Some(items) => Some(Some(listed_ids(items))),
                    None => Some(Some(Seq::empty())),
                }
            }
        },
        JsonView::Array(items) => Some(Some(listed_ids(items))),
        _ => None,
    }
}

/// A word in lower case that stands for all servers.
pub open spec fn is_all_word(word: Seq<char>) -> bool {
    word == "all"@ || word == "*"@
}

/// Whether a trigger is a word for all servers, whatever its case. A list, which
/// has commas or spaces in it, is none.
pub open spec fn names_all(content: Seq<char>) -> bool {
    !content.contains(',') && !content.contains(' ') && is_all_word(lowered(content))
}

/// The servers that a trigger names, none standing for all of them. The content
/// is given without the white space around it, with whether it is a word for all
/// servers and, where it is JSON, as the value.
pub open spec fn targets_of(
    content: Seq<char>,
    all: bool,
    value: Option<JsonView>,
) -> Option<Seq<Seq<char>>> {
    if content.len() == 0 {
        Some(Seq::empty())
    } else if all {
        None
    } else {
        let named = match value {
            Some(v) => if content[0] == '{' || content[0] == '[' {
                json_targets(v)
            } else {
                None
            },
            None => None,
        };
        match named {
            Some(targets) => targets,
            None => Some(words(commas_blanked(content))),
        }
    }
}

/// The servers that the content of a trigger file names, none standing for all
/// of them.
pub open spec fn trigger_targets(content: Seq<char>) -> Option<Seq<Seq<char>>> {
    let content = trimmed(content);
    targets_of(content, names_all(content), parsed_json(content))
}

/// The texts of an optional list.
pub open spec fn opt_texts(list: Option<Vec<String>>) -> Option<Seq<Seq<char>>> {
    match list {
        Some(l) => Some(texts(l@)),
        None => None,
    }
}

fn ids_of(items: &Vec<Json>) -> (r: Vec<String>)
    ensures
        texts(r@) == listed_ids(list_view(items@)),
{
    let ghost all = list_view(items@);
    let mut out: Vec<String> = Vec::new();
    let mut i: usize = 0;
    proof {
        lemma_list_view(items@);
        assert(texts(out@) =~= listed_ids(all.take(0)));
    }
    while i < items.len()
        invariant
            0 <= i <= items@.len(),
            all == list_view(items@),
            all.len() == items@.len(),
            forall|j: int| 0 <= j < all.len() ==> #[trigger] all[j] == items@[j]@,
            texts(out@) == listed_ids(all.take(i as int)),
        decreases items@.len() - i,
    {
        let ghost before = out@;
        proof {
            assert(all.take(i + 1).drop_last() =~= all.take(i as int));
            assert(all.take(i + 1).last() == items@[i as int]@);
        }
        let id = match &items[i] {
            Json::Text(t) => trim(t.as_str()).to_owned(),
            Json::Number(n) => n.text(),
            _ => String::new(),
        };
        if !id.as_str().is_empty() {
            out.push(id);
            assert(texts(out@) =~= texts(before).push(id@));
        }
        i = i + 1;
    }
    assert(all.take(i as int) =~= all);
    out
}

fn blank_commas(text: &str) -> (r: String)
    ensures
        r@ == commas_blanked(text@),
{
    let chars = chars_of(text);
    let mut out = String::new();
    let mut i: usize = 0;
    while i < chars.len()
        invariant
            0 <= i <= chars@.len(),
            chars@ == text@,
            out@ == commas_blanked(text@).take(i as int),
        decreases chars@.len() - i,
    {
        out.push(
            if chars[i] == ',' {
                ' '
            } else {
                chars[i]
            },
        );
        assert(out@ =~= commas_blanked(text@).take(i + 1));
        i = i + 1;
    }
    assert(out@ =~= commas_blanked(text@));
    out
}

/// The servers that a JSON trigger names.
pub fn json_trigger_targets(value: &Json) -> (r: Option<Option<Vec<String>>>)
    ensures
        match r {
            Some(t) => json_targets(value@) == Some(opt_texts(t)),
            None => json_targets(value@) is None,
        },
{
    match value {
        Json::Object(_) => {
            let all = match value.get("all") {
                Some(v) => match v.as_bool() {
                    Some(b) => b,
                    None => false,
                },
                None => false,
            };
            if all {
                return Some(None);
            }
            let list = match value.get("server_ids") {
                Some(v) => v.as_array(),
                None => match value.get("ids") {
                    Some(v) => v.as_array(),
                    None => None,
                },
            };
            match list {
                Some(items) => Some(Some(ids_of(items))),
                None => {
                    let none: Vec<String> = Vec::new();
                    assert(texts(none@) =~= Seq::<Seq<char>>::empty());
                    Some(Some(none))
                },
            }
        },
        Json::Array(items) => Some(Some(ids_of(items))),
        _ => None,
    }
}

/// The servers that a trigger names, its content given without the white space
/// around it, in lower case and, where it is JSON, as the value.
pub fn trigger_targets_of(content: &str, lowered: &str, value: &Option<Json>) -> (r: Option<
    Vec<String>,
>)
    ensures
        opt_texts(r) == targets_of(
            content@,
            is_all_word(lowered@),
            match *value {
                Some(v) => Some(v@),
                None => None,
            },
        ),
{
    if content.is_empty() {
        let none: Vec<String> = Vec::new();
        assert(texts(none@) =~= Seq::<Seq<char>>::empty());
        return Some(none);
    }
    if same_text(lowered, "all") || same_text(lowered, "*") {
        return None;
    }
    let first: char = chars_of(content)[0];
    if first == '{' || first == '[' {
        if let Some(v) = value {
            if let Some(targets) = json_trigger_targets(v) {
                return targets;
            }
        }
    }
    let blanked = blank_commas(content);
    Some(split_words(blanked.as_str()))
}

/// Parse trigger file content. Returns None for "all", Some(ids) for specific
/// targets.
pub fn parse_trigger_content(content: &str) -> (r: Option<Vec<String>>)
    ensures
        opt_texts(r) == trigger_targets(content@),
{
    let content = trim(content);
    let lowered = lower(content);
    proof {
        if is_all_word(lowered@) {
            reveal_strlit("all");
            reveal_strlit("*");
            if lowered@ == "all"@ {
                assert(lowered@ =~= seq!['a', 'l', 'l']);
            } else {
                assert(lowered@ =~= seq!['*']);
            }
            assert(!lowered@.contains(',') && !lowered@.contains(' '));
        }
    }
    let value = parse_json(content);
    trigger_targets_of(content, lowered.as_str(), &value)
}

/// A text that can be listed as an id: not empty, without white space or commas.
pub open spec fn is_listable(id: Seq<char>) -> bool {
    id.len() > 0 && forall|i: int| 0 <= i < id.len() ==> !is_space(#[trigger] id[i]) && id[i] != ','
}

proof fn lemma_joined_ids(ids: Seq<Seq<char>>, separator: char)
    requires
        ids.len() > 0,
        forall|i: int| 0 <= i < ids.len() ==> is_listable(#[trigger] ids[i]),
        separator == ',' || separator == ' ',
    ensures
        ({
            let text = joined(ids, seq![separator]);
            &&& text.len() > 0
            &&& text[0] == ids[0][0]
            &&& !is_space(text.last())
            &&& ids.len() > 1 ==> text.contains(separator)
            &&& words(commas_blanked(text)) == ids
        }),
    decreases ids.len(),
{
    let text = joined(ids, seq![separator]);
    let n = ids.len() - 1;
    let id = ids[n];
    assert(is_listable(id));
    assert(commas_blanked(id) =~= id);
    if n == 0 {
        lemma_words_tail(Seq::empty(), id);
        assert(seq![id] =~= ids);
    } else {
        let shorter = ids.drop_last();
        assert forall|i: int| 0 <= i < shorter.len() implies is_listable(#[trigger] shorter[i]) by {
            assert(shorter[i] == ids[i]);
        }
        lemma_joined_ids(shorter, separator);
        let before = joined(shorter, seq![separator]);
        assert(text =~= before + seq![separator] + id);
        assert(text[before.len() as int] == separator);
        assert(text.last() == id.last());
        assert(commas_blanked(text) =~= commas_blanked(before) + seq![' '] + id);
        lemma_words_tail(commas_blanked(before), id);
        assert(shorter.push(id) =~= ids);
    }
}

/// Ids that are joined by commas or by spaces are read back, in order and with
/// those that come twice, unless the list begins like JSON or is a single word
/// for all servers.
pub proof fn law_listed_ids_are_read(ids: Seq<Seq<char>>, separator: char)
    requires
        separator == ',' || separator == ' ',
        forall|i: int| 0 <= i < ids.len() ==> is_listable(#[trigger] ids[i]),
        ids.len() > 0 ==> ids[0][0] != '{' && ids[0][0] != '[',
        ids.len() == 1 ==> !is_all_word(lowered(ids[0])),
    ensures
        trigger_targets(joined(ids, seq![separator])) == Some(ids),
{
    let text = joined(ids, seq![separator]);
    if ids.len() == 0 {
        assert(trimmed(text) =~= text);
        assert(ids =~= Seq::<Seq<char>>::empty());
    } else {
        assert(is_listable(ids[0]));
        lemma_joined_ids(ids, separator);
        assert(!is_space(text[0]));
        assert(trimmed(text) == text);
    }
}

/// How long to wait between looks at the trigger file, in nanoseconds: half a
/// second at least.
pub fn trigger_interval(poll: i64) -> (r: u64)
    ensures
        r == if poll < 500_000_000 {
            500_000_000
        } else {
            poll as int
        },
{
    if poll < 500_000_000 {
        500_000_000
    } else {
        poll as u64
    }
}

/// How long to wait for a request, in whole seconds, of a time in nanoseconds
/// that counts as half a second at least.
pub fn pop_timeout_seconds(timeout: i64) -> (r: u64)
    ensures
        r == if timeout < 500_000_000 {
            0
        } else {
            timeout as int / 1_000_000_000
        },
{
    trigger_interval(timeout) / 1_000_000_000
}

// ---------------------------------------------------------------------------
// States and schedule
// ---------------------------------------------------------------------------

/// What is known of the servers, and when they are polled.
#[verifier::ext_equal]
pub struct CatalogView {
    pub states: Map<Seq<char>, ServerStateView>,
    pub queue: Seq<Due>,
}

/// The states in a table.
pub open spec fn states_of(table: Map<Seq<char>, ServerState>) -> Map<Seq<char>, ServerStateView> {
    table.map_values(|s: ServerState| s@)
}

/// The states in a table, and a schedule.
pub open spec fn catalog(states: Table<ServerState>, scheduler: SchedulerHandle) -> CatalogView {
    CatalogView { states: states_of(states@), queue: scheduler@ }
}

proof fn lemma_states_insert(table: Map<Seq<char>, ServerState>, key: Seq<char>, state: ServerState)
    ensures
        states_of(table.insert(key, state)) == states_of(table).insert(key, state@),
{
    assert(states_of(table.insert(key, state)) =~= states_of(table).insert(key, state@));
}

/// The catalog once the server under a key is made due.
pub open spec fn made_due(c: CatalogView, key: Seq<char>, now: u64) -> CatalogView {
    if c.states.dom().contains(key) {
        let state = c.states[key];
        CatalogView {
            states: c.states.insert(key, ServerStateView { next_due: now as u128, ..state }),
            queue: scheduled(c.queue, Due { key: state.key, due: now as u128 }),
        }
    } else {
        c
    }
}

/// The catalog once the servers under some keys are made due, one after another.
pub open spec fn all_made_due(c: CatalogView, keys: Seq<Seq<char>>, now: u64) -> CatalogView
    decreases keys.len(),
{
    if keys.len() == 0 {
        c
    } else {
        made_due(all_made_due(c, keys.drop_last(), now), keys.last(), now)
    }
}

/// How many of the keys are those of a server.
pub open spec fn known(states: Map<Seq<char>, ServerStateView>, keys: Seq<Seq<char>>) -> nat
    decreases keys.len(),
{
    if keys.len() == 0 {
        0
    } else {
        known(states, keys.drop_last()) + if states.dom().contains(keys.last()) {
            1nat
        } else {
            0
        }
    }
}

/// Makes the server under a key due, and says whether there is one.
pub fn make_due(
    states: &mut Table<ServerState>,
    scheduler: &mut SchedulerHandle,
    key: &str,
    now: u64,
) -> (r: bool)
    requires
        old(states).wf(),
        old(scheduler).wf(),
    ensures
        final(states).wf(),
        final(scheduler).wf(),
        final(states).keys() == old(states).keys(),
        r == old(states)@.dom().contains(key@),
        catalog(*final(states), *final(scheduler)) == made_due(
            catalog(*old(states), *old(scheduler)),
            key@,
            now,
        ),
{
    let ghost before = states@;
    match states.get_mut(key) {
        Some(state) => {
            state.next_due = now as u128;
            scheduler.schedule(state.key.clone(), now as u128);
            proof {
                lemma_states_insert(before, key@, *state);
            }
            true
        },
        None => false,
    }
}

proof fn lemma_all_made_due_keys(c: CatalogView, keys: Seq<Seq<char>>, now: u64)
    ensures
        all_made_due(c, keys, now).states.dom() == c.states.dom(),
    decreases keys.len(),
{
    if keys.len() > 0 {
        lemma_all_made_due_keys(c, keys.drop_last(), now);
        assert(all_made_due(c, keys, now).states.dom() =~= c.states.dom());
    }
}

/// Carries out a trigger: makes the servers that it names due, or all of them,
/// and says how many there were.
pub fn apply_trigger(
    states: &mut Table<ServerState>,
    scheduler: &mut SchedulerHandle,
    targets: &Option<Vec<String>>,
    now: u64,
) -> (r: usize)
    requires
        old(states).wf(),
        old(scheduler).wf(),
    ensures
        final(states).wf(),
        final(scheduler).wf(),
        final(states).keys() == old(states).keys(),
        match *targets {
            Some(ids) => r == known(states_of(old(states)@), texts(ids@)) && catalog(
                *final(states),
                *final(scheduler),
            ) == all_made_due(catalog(*old(states), *old(scheduler)), texts(ids@), now),
            None => r == old(states).keys().len() && catalog(*final(states), *final(scheduler))
                == all_made_due(catalog(*old(states), *old(scheduler)), old(states).keys(), now),
        },
{
    let ghost start = catalog(*states, *scheduler);
    let ghost all = states.keys();
    let mut i: usize = 0;
    match targets {
        Some(ids) => {
            let ghost keys = texts(ids@);
            let mut count: usize = 0;
            assert(keys.take(0) =~= Seq::<Seq<char>>::empty());
            while i < ids.len()
                invariant
                    0 <= i <= ids@.len(),
                    count <= i,
                    keys == texts(ids@),
                    states.wf(),
                    scheduler.wf(),
                    states.keys() == all,
                    start == catalog(*old(states), *old(scheduler)),
                    count == known(start.states, keys.take(i as int)),
                    catalog(*states, *scheduler) == all_made_due(start, keys.take(i as int), now),
                decreases ids@.len() - i,
            {
                proof {
                    lemma_all_made_due_keys(start, keys.take(i as int), now);
                    assert(keys.take(i + 1).drop_last() =~= keys.take(i as int));
                    assert(keys.take(i + 1).last() == ids@[i as int]@);
                    assert(states@.dom() =~= states_of(states@).dom());
                }
                if make_due(states, scheduler, ids[i].as_str(), now) {
                    count = count + 1;
                }
                i = i + 1;
            }
            assert(keys.take(i as int) =~= keys);
            count
        },
        None => {
            let n: usize = states.len();
            assert(all.take(0) =~= Seq::<Seq<char>>::empty());
            while i < n
                invariant
                    0 <= i <= n,
                    n == all.len(),
                    states.wf(),
                    scheduler.wf(),
                    states.keys() == all,
                    catalog(*states, *scheduler) == all_made_due(start, all.take(i as int), now),
                decreases n - i,
            {
                proof {
                    assert(all.take(i + 1).drop_last() =~= all.take(i as int));
                    assert(all.take(i + 1).last() == all[i as int]);
                }
                let key = states.key_at(i).to_owned();
                let _known = make_due(states, scheduler, key.as_str(), now);
                i = i + 1;
            }
            assert(all.take(i as int) =~= all);
            n
        },
    }
}

/// A trigger makes the servers it names due, leaves every other server as it is,
/// and neither adds a server nor takes one away.
pub proof fn law_trigger_makes_named_servers_due(c: CatalogView, keys: Seq<Seq<char>>, now: u64)
    ensures
        all_made_due(c, keys, now).states.dom() == c.states.dom(),
        forall|k: Seq<char>| #[trigger]
            c.states.dom().contains(k) ==> all_made_due(c, keys, now).states[k] == if keys.contains(
                k,
            ) {
                ServerStateView { next_due: now as u128, ..c.states[k] }
            } else {
                c.states[k]
            },
    decreases keys.len(),
{
    lemma_all_made_due_keys(c, keys, now);
    if keys.len() > 0 {
        let shorter = keys.drop_last();
        law_trigger_makes_named_servers_due(c, shorter, now);
        lemma_all_made_due_keys(c, shorter, now);
        assert forall|k: Seq<char>| #[trigger] c.states.dom().contains(k) implies all_made_due(
            c,
            keys,
            now,
        ).states[k] == if keys.contains(k) {
            ServerStateView { next_due: now as u128, ..c.states[k] }
        } else {
            c.states[k]
        } by {
            if shorter.contains(k) {
                assert(keys[shorter.index_of(k)] == k);
            }
            if keys.contains(k) && k != keys.last() {
                assert(shorter[keys.index_of(k)] == k);
            }
            if k == keys.last() {
                assert(keys[keys.len() - 1] == k);
            }
        }
    }
}

// ---------------------------------------------------------------------------
// Catalog refresh
// ---------------------------------------------------------------------------

/// A server of the catalog, and whether its plugin has fallen silent, so that it
/// is polled in the plugin's place.
#[derive(Debug)]
pub struct CatalogEntry {
    pub server: Json,
    pub fallback_mode: bool,
}

/// The random delays of a server that enters the catalog: until it is first
/// polled, and until it is first probed for Bedrock.
#[derive(Clone, Copy, Debug)]
pub struct Jitter {
    pub due: u128,
    pub probe: u128,
}

/// What a refresh did.
#[derive(Clone, Copy, PartialEq, Eq, Structural, Debug)]
pub struct RefreshCounts {
    pub total: usize,
    pub added: usize,
    pub updated: usize,
    pub removed: usize,
}

/// The delays lie within the spreads that they are drawn from.
pub open spec fn jitter_fits(jitter: Jitter, startup_spread: u64, probe_interval: u64) -> bool {
    &&& jitter.due < spread_nanos(startup_spread)
    &&& jitter.probe < spread_nanos(probe_interval)
}

/// The state of a server in the catalog already, once its entry was read again.
pub open spec fn refreshed_state(
    state: ServerStateView,
    server: JsonView,
    fallback: bool,
    now: u64,
    probe_interval: u64,
    probe_jitter: u128,
) -> ServerStateView {
    let moved = state.target != target_of(server);
    ServerStateView {
        server,
        target: target_of(server),
        next_query_attempt: if moved {
            now
        } else {
            state.next_query_attempt
        },
        emitted: if moved {
            nothing_emitted()
        } else {
            state.emitted
        },
        plugin_managed: plugin_managed(server),
        plugin_fallback_mode: fallback,
        next_due: if fallback && !state.plugin_fallback_mode {
            now as u128
        } else {
            state.next_due
        },
        next_bedrock_probe: if wants_probe(server, probe_interval)
            && state.next_bedrock_probe is Some {
            state.next_bedrock_probe
        } else {
            seeded_probe(server, now, probe_interval, probe_jitter)
        },
        ..state
    }
}

/// The state of a server that is new in the catalog.
pub open spec fn new_state(
    server: JsonView,
    fallback: bool,
    now: u64,
    probe_interval: u64,
    jitter: Jitter,
) -> ServerStateView {
    ServerStateView {
        plugin_fallback_mode: fallback,
        ..built_state(server, now, probe_interval, jitter.due, jitter.probe)
    }
}

/// The catalog once one of its entries was read. An entry without an id is
/// passed over.
pub open spec fn entry_merged(
    c: CatalogView,
    server: JsonView,
    fallback: bool,
    now: u64,
    probe_interval: u64,
    jitter: Jitter,
) -> CatalogView {
    let key = id_of(server);
    if key.len() == 0 {
        c
    } else if c.states.dom().contains(key) {
        let state = c.states[key];
        let after = refreshed_state(state, server, fallback, now, probe_interval, jitter.probe);
        CatalogView {
            states: c.states.insert(key, after),
            queue: if fallback && !state.plugin_fallback_mode {
                scheduled(c.queue, Due { key, due: now as u128 })
            } else {
                c.queue
            },
        }
    } else {
        let state = new_state(server, fallback, now, probe_interval, jitter);
        CatalogView {
            states: c.states.insert(key, state),
            queue: scheduled(c.queue, Due { key, due: state.next_due }),
        }
    }
}

/// The catalog once its entries were read one after another.
pub open spec fn entries_merged(
    c: CatalogView,
    entries: Seq<CatalogEntry>,
    now: u64,
    probe_interval: u64,
    jitters: Seq<Jitter>,
) -> CatalogView
    decreases entries.len(),
{
    if entries.len() == 0 {
        c
    } else {
        let n = entries.len() - 1;
        entry_merged(
            entries_merged(c, entries.drop_last(), now, probe_interval, jitters),
            entries[n].server@,
            entries[n].fallback_mode,
            now,
            probe_interval,
            jitters[n],
        )
    }
}

/// How many entries were new.
pub open spec fn count_added(
    c: CatalogView,
    entries: Seq<CatalogEntry>,
    now: u64,
    probe_interval: u64,
    jitters: Seq<Jitter>,
) -> nat
    decreases entries.len(),
{
    if entries.len() == 0 {
        0
    } else {
        let shorter = entries.drop_last();
        let before = entries_merged(c, shorter, now, probe_interval, jitters);
        let key = id_of(entries.last().server@);
        count_added(c, shorter, now, probe_interval, jitters) + if key.len() > 0
            && !before.states.dom().contains(key) {
            1nat
        } else {
            0
        }
    }
}

/// How many entries gave a known server another target.
pub open spec fn count_updated(
    c: CatalogView,
    entries: Seq<CatalogEntry>,
    now: u64,
    probe_interval: u64,
    jitters: Seq<Jitter>,
) -> nat
    decreases entries.len(),
{
    if entries.len() == 0 {
        0
    } else {
        let shorter = entries.drop_last();
        let before = entries_merged(c, shorter, now, probe_interval, jitters);
        let server = entries.last().server@;
        let key = id_of(server);
        count_updated(c, shorter, now, probe_interval, jitters) + if key.len() > 0
            && before.states.dom().contains(key) && before.states[key].target != target_of(
            server,
        ) {
            1nat
        } else {
            0
        }
    }
}

/// The ids of the entries, those without an id left out.
pub open spec fn incoming(entries: Seq<CatalogEntry>) -> Set<Seq<char>> {
    Set::new(
        |k: Seq<char>|
            k.len() > 0 && exists|i: int|
                0 <= i < entries.len() && id_of((#[trigger] entries[i]).server@) == k,
    )
}

/// The catalog after a refresh: its entries were read, and the servers that are
/// not among them were dropped.
pub open spec fn refreshed(
    c: CatalogView,
    entries: Seq<CatalogEntry>,
    now: u64,
    probe_interval: u64,
    jitters: Seq<Jitter>,
) -> CatalogView {
    let merged = entries_merged(c, entries, now, probe_interval, jitters);
    CatalogView { states: merged.states.restrict(incoming(entries)), queue: merged.queue }
}

/// The counts are those of a refresh.
pub open spec fn counted(
    counts: RefreshCounts,
    c: CatalogView,
    entries: Seq<CatalogEntry>,
    now: u64,
    probe_interval: u64,
    jitters: Seq<Jitter>,
) -> bool {
    let merged = entries_merged(c, entries, now, probe_interval, jitters);
    let after = refreshed(c, entries, now, probe_interval, jitters);
    &&& counts.total == after.states.dom().len()
    &&& counts.removed == merged.states.dom().len() - after.states.dom().len()
    &&& counts.added == count_added(c, entries, now, probe_interval, jitters)
    &&& counts.updated == count_updated(c, entries, now, probe_interval, jitters)
}

/// Brings the state of a known server up to date, and says whether its target
/// changed and whether it is due at once.
fn refresh_state(
    state: &mut ServerState,
    server: Json,
    fallback: bool,
    now: u64,
    probe_interval: u64,
    probe_jitter: u128,
) -> (r: (bool, bool))
    requires
        probe_jitter < spread_nanos(probe_interval),
    ensures
        final(state)@ == refreshed_state(
            old(state)@,
            server@,
            fallback,
            now,
            probe_interval,
            probe_jitter,
        ),
        r.0 == (old(state)@.target != target_of(server@)),
        r.1 == (fallback && !old(state).plugin_fallback_mode),
{
    let target = poll_target(&server);
    let moved = !same_text(state.host.as_str(), target.host.as_str()) || state.port != target.port
        || state.edition != target.edition || state.bedrock_port != target.bedrock_port;
    if moved {
        state.host = target.host;
        state.port = target.port;
        state.edition = target.edition;
        state.bedrock_port = target.bedrock_port;
        state.next_query_attempt = now;
        state.reset_emitted();
    }
    state.plugin_managed = is_plugin_managed(&server);
    let fell_silent = fallback && !state.plugin_fallback_mode;
    state.plugin_fallback_mode = fallback;
    if fell_silent {
        state.next_due = now as u128;
    }
    if !wants_bedrock_probe(&server, probe_interval) || state.next_bedrock_probe.is_none() {
        state.next_bedrock_probe =
        seed_bedrock_probe_with(&server, now, probe_interval, probe_jitter);
    }
    state.server = server;
    (moved, fell_silent)
}

/// What reading an entry did.
#[derive(Clone, Copy, PartialEq, Eq, Structural, Debug)]
enum Merge {
    Skipped,
    Kept,
    Updated,
    Added,
}

/// Reads one entry of the catalog.
fn merge_entry(
    states: &mut Table<ServerState>,
    scheduler: &mut SchedulerHandle,
    entry: &CatalogEntry,
    now: u64,
    startup_spread: u64,
    probe_interval: u64,
    jitter: Jitter,
) -> (r: Merge)
    requires
        old(states).wf(),
        old(scheduler).wf(),
        jitter_fits(jitter, startup_spread, probe_interval),
    ensures
        final(states).wf(),
        final(scheduler).wf(),
        catalog(*final(states), *final(scheduler)) == entry_merged(
            catalog(*old(states), *old(scheduler)),
            entry.server@,
            entry.fallback_mode,
            now,
            probe_interval,
            jitter,
        ),
        ({
            let key = id_of(entry.server@);
            let before = states_of(old(states)@);
            r == if key.len() == 0 {
                Merge::Skipped
            } else if !before.dom().contains(key) {
                Merge::Added
            } else if before[key].target != target_of(entry.server@) {
                Merge::Updated
            } else {
                Merge::Kept
            }
        }),
{
    let ghost before = states@;
    let key = id_text(&entry.server);
    if key.as_str().is_empty() {
        return Merge::Skipped;
    }
    assert(states_of(before).dom() =~= before.dom());
    match states.get_mut(key.as_str()) {
        Some(state) => {
            let (moved, fell_silent) = refresh_state(
                state,
                entry.server.copy(),
                entry.fallback_mode,
                now,
                probe_interval,
                jitter.probe,
            );
            proof {
                lemma_states_insert(before, key@, *state);
            }
            if fell_silent {
                scheduler.schedule(key, now as u128);
            }
            return if moved {
                Merge::Updated
            } else {
                Merge::Kept
            };
        },
        None => {},
    }
    let mut state = build_state_with(
        entry.server.copy(),
        now,
        startup_spread,
        probe_interval,
        jitter.due,
        jitter.probe,
    );
    state.plugin_fallback_mode = entry.fallback_mode;
    let next_due = state.next_due;
    let state_key = state.key.clone();
    proof {
        lemma_states_insert(before, key@, state);
    }
    states.insert(key, state);
    scheduler.schedule(state_key, next_due);
    Merge::Added
}

/// Refreshes the catalog from the entries that were fetched, with the random
/// delays given. Without entries nothing changes, and the refresh has failed.
pub fn refresh_with(
    states: &mut Table<ServerState>,
    scheduler: &mut SchedulerHandle,
    entries: &Vec<CatalogEntry>,
    now: u64,
    startup_spread: u64,
    probe_interval: u64,
    jitters: &Vec<Jitter>,
) -> (r: Option<RefreshCounts>)
    requires
        old(states).wf(),
        old(scheduler).wf(),
        jitters@.len() == entries@.len(),
        forall|i: int|
            0 <= i < jitters@.len() ==> jitter_fits(
                #[trigger] jitters@[i],
                startup_spread,
                probe_interval,
            ),
    ensures
        final(states).wf(),
        final(scheduler).wf(),
        match r {
            None => entries@.len() == 0 && *final(states) == *old(states) && *final(scheduler)
                == *old(scheduler),
            Some(counts) => entries@.len() > 0 && catalog(*final(states), *final(scheduler))
                == refreshed(
                catalog(*old(states), *old(scheduler)),
                entries@,
                now,
                probe_interval,
                jitters@,
            ) && counted(
                counts,
                catalog(*old(states), *old(scheduler)),
                entries@,
                now,
                probe_interval,
                jitters@,
            ),
        },
{
    let n: usize = entries.len();
    if n == 0 {
        return None;
    }
    let ghost all = entries@;
    let ghost start = catalog(*states, *scheduler);
    let mut incoming_keys: Vec<String> = Vec::new();
    let mut added: usize = 0;
    let mut updated: usize = 0;
    let mut i: usize = 0;
    assert(all.take(0) =~= Seq::<CatalogEntry>::empty());
    assert(texts(incoming_keys@).to_set() =~= incoming(all.take(0)));
    while i < n
        invariant
            0 <= i <= n,
            n == all.len(),
            n == jitters@.len(),
            added <= i,
            updated <= i,
            all == entries@,
            states.wf(),
            scheduler.wf(),
            forall|i: int|
                0 <= i < jitters@.len() ==> jitter_fits(
                    #[trigger] jitters@[i],
                    startup_spread,
                    probe_interval,
                ),
            catalog(*states, *scheduler) == entries_merged(
                start,
                all.take(i as int),
                now,
                probe_interval,
                jitters@,
            ),
            added == count_added(start, all.take(i as int), now, probe_interval, jitters@),
            updated == count_updated(start, all.take(i as int), now, probe_interval, jitters@),
            texts(incoming_keys@).to_set() == incoming(all.take(i as int)),
        decreases n - i,
    {
        let entry = &entries[i];
        proof {
            assert(all.take(i + 1).drop_last() =~= all.take(i as int));
            assert(all.take(i + 1).last() == all[i as int]);
        }
        let key = id_text(&entry.server);
        let ghost before = texts(incoming_keys@);
        if !key.as_str().is_empty() {
            incoming_keys.push(key);
            assert(texts(incoming_keys@) =~= before.push(key@));
        }
        proof {
            lemma_incoming(all, i as int);
            before.lemma_push_to_set_commute(key@);
        }
        match merge_entry(
            states,
            scheduler,
            entry,
            now,
            startup_spread,
            probe_interval,
            jitters[i],
        ) {
            Merge::Added => added = added + 1,
            Merge::Updated => updated = updated + 1,
            _ => {},
        }
        i = i + 1;
    }
    assert(all.take(i as int) =~= all);
    let ghost merged = states@;
    let before: usize = states.len();
    states.keep(&incoming_keys);
    let total: usize = states.len();
    proof {
        assert(states_of(merged).dom() =~= merged.dom());
        assert(states_of(states@) =~= states_of(merged).restrict(incoming(all)));
        assert(states_of(states@).dom() =~= states@.dom());
        vstd::set_lib::lemma_len_subset(states@.dom(), merged.dom());
    }
    Some(RefreshCounts { total, added, updated, removed: before - total })
}

proof fn lemma_incoming(entries: Seq<CatalogEntry>, n: int)
    requires
        0 <= n < entries.len(),
    ensures
        incoming(entries.take(n + 1)) == if id_of(entries[n].server@).len() > 0 {
            incoming(entries.take(n)).insert(id_of(entries[n].server@))
        } else {
            incoming(entries.take(n))
        },
{
    let key = id_of(entries[n].server@);
    let long = entries.take(n + 1);
    let short = entries.take(n);
    let want = if key.len() > 0 {
        incoming(short).insert(key)
    } else {
        incoming(short)
    };
    assert forall|k: Seq<char>| incoming(long).contains(k) <==> want.contains(k) by {
        if incoming(long).contains(k) {
            let i = choose|i: int|
                0 <= i < long.len() && id_of((#[trigger] long[i]).server@) == k;
            if i < n {
                assert(short[i] == long[i]);
            }
        }
        if incoming(short).contains(k) {
            let i = choose|i: int|
                0 <= i < short.len() && id_of((#[trigger] short[i]).server@) == k;
            assert(long[i] == short[i]);
        }
        assert(long[n] == entries[n]);
    }
    assert(incoming(long) =~= want);
}

/// Draws the random delays of a server.
fn draw_jitter(startup_spread: u64, probe_interval: u64) -> (r: Jitter)
    ensures
        jitter_fits(r, startup_spread, probe_interval),
{
    Jitter {
        due: random_below(spread_of(startup_spread)),
        probe: random_below(spread_of(probe_interval)),
    }
}

/// Refresh the server catalog once from the entries that were fetched. Without
/// entries nothing changes, and the refresh has failed.
pub fn refresh_servers_once(
    states: &mut Table<ServerState>,
    scheduler: &mut SchedulerHandle,
    entries: &Vec<CatalogEntry>,
    now: u64,
    startup_spread: u64,
    probe_interval: u64,
) -> (r: Option<RefreshCounts>)
    requires
        old(states).wf(),
        old(scheduler).wf(),
    ensures
        final(states).wf(),
        final(scheduler).wf(),
        r is None <==> entries@.len() == 0,
        r is None ==> *final(states) == *old(states) && *final(scheduler) == *old(scheduler),
        r matches Some(counts) ==> exists|jitters: Seq<Jitter>|
            jitters.len() == entries@.len() && (forall|i: int|
                0 <= i < jitters.len() ==> jitter_fits(
                    #[trigger] jitters[i],
                    startup_spread,
                    probe_interval,
                )) && catalog(*final(states), *final(scheduler)) == refreshed(
                catalog(*old(states), *old(scheduler)),
                entries@,
                now,
                probe_interval,
                jitters,
            ) && #[trigger] counted(
                counts,
                catalog(*old(states), *old(scheduler)),
                entries@,
                now,
                probe_interval,
                jitters,
            ),
{
    let n: usize = entries.len();
    let mut jitters: Vec<Jitter> = Vec::new();
    while jitters.len() < n
        invariant
            jitters@.len() <= n,
            forall|i: int|
                0 <= i < jitters@.len() ==> jitter_fits(
                    #[trigger] jitters@[i],
                    startup_spread,
                    probe_interval,
                ),
        decreases n - jitters@.len(),
    {
        jitters.push(draw_jitter(startup_spread, probe_interval));
    }
    refresh_with(states, scheduler, entries, now, startup_spread, probe_interval, &jitters)
}

/// How long to wait until the next refresh, in seconds.
pub fn refresh_delay(success: bool, refresh_seconds: u64, retry_seconds: u64) -> (r: u64)
    ensures
        r == if success {
            refresh_seconds
        } else {
            retry_seconds
        },
{
    if success {
        refresh_seconds
    } else {
        retry_seconds
    }
}

proof fn lemma_merged_keys(
    c: CatalogView,
    entries: Seq<CatalogEntry>,
    now: u64,
    probe_interval: u64,
    jitters: Seq<Jitter>,
)
    ensures
        entries_merged(c, entries, now, probe_interval, jitters).states.dom()
            == c.states.dom().union(incoming(entries)),
    decreases entries.len(),
{
    let after = entries_merged(c, entries, now, probe_interval, jitters).states.dom();
    if entries.len() == 0 {
        assert(after =~= c.states.dom().union(incoming(entries)));
    } else {
        let n = entries.len() - 1;
        lemma_merged_keys(c, entries.drop_last(), now, probe_interval, jitters);
        lemma_incoming(entries, n);
        assert(entries.take(n + 1) =~= entries);
        assert(entries.take(n) =~= entries.drop_last());
        assert(after =~= c.states.dom().union(incoming(entries)));
    }
}

/// After a refresh there is a state for each server of the catalog that has an
/// id, and for no other.
pub proof fn law_refresh_mirrors_catalog(
    c: CatalogView,
    entries: Seq<CatalogEntry>,
    now: u64,
    probe_interval: u64,
    jitters: Seq<Jitter>,
)
    ensures
        refreshed(c, entries, now, probe_interval, jitters).states.dom() == incoming(entries),
{
    lemma_merged_keys(c, entries, now, probe_interval, jitters);
    assert(refreshed(c, entries, now, probe_interval, jitters).states.dom() =~= incoming(entries));
}

/// A refresh takes no poll off the schedule, and a server that is new in the
/// catalog has a poll for the time at which it is due.
pub proof fn law_new_servers_are_scheduled(
    c: CatalogView,
    entries: Seq<CatalogEntry>,
    now: u64,
    probe_interval: u64,
    jitters: Seq<Jitter>,
)
    ensures
        forall|other: Due| #[trigger]
            c.queue.contains(other) ==> refreshed(
                c,
                entries,
                now,
                probe_interval,
                jitters,
            ).queue.contains(other),
        ({
            let after = refreshed(c, entries, now, probe_interval, jitters);
            forall|k: Seq<char>| #[trigger]
                after.states.dom().contains(k) && !c.states.dom().contains(k)
                    ==> after.queue.contains(Due { key: k, due: after.states[k].next_due })
        }),
{
    lemma_merged_schedule(c, entries, now, probe_interval, jitters);
    let merged = entries_merged(c, entries, now, probe_interval, jitters);
    let after = refreshed(c, entries, now, probe_interval, jitters);
    assert forall|k: Seq<char>| #[trigger]
        after.states.dom().contains(k) && !c.states.dom().contains(k) implies after.queue.contains(
        Due { key: k, due: after.states[k].next_due },
    ) by {
        assert(merged.states.dom().contains(k));
    }
}

proof fn lemma_merged_schedule(
    c: CatalogView,
    entries: Seq<CatalogEntry>,
    now: u64,
    probe_interval: u64,
    jitters: Seq<Jitter>,
)
    ensures
        forall|other: Due| #[trigger]
            c.queue.contains(other) ==> entries_merged(
                c,
                entries,
                now,
                probe_interval,
                jitters,
            ).queue.contains(other),
        ({
            let merged = entries_merged(c, entries, now, probe_interval, jitters);
            forall|k: Seq<char>| #[trigger]
                merged.states.dom().contains(k) && !c.states.dom().contains(k)
                    ==> merged.queue.contains(Due { key: k, due: merged.states[k].next_due })
        }),
    decreases entries.len(),
{
    if entries.len() > 0 {
        let n = entries.len() - 1;
        lemma_merged_schedule(c, entries.drop_last(), now, probe_interval, jitters);
        let before = entries_merged(c, entries.drop_last(), now, probe_interval, jitters);
        let merged = entries_merged(c, entries, now, probe_interval, jitters);
        let key = id_of(entries[n].server@);
        let entry = Due { key, due: merged.states[key].next_due };
        law_scheduled_polls_are_kept(before.queue, entry);
        assert forall|k: Seq<char>| #[trigger]
            merged.states.dom().contains(k) && !c.states.dom().contains(
                k,
            ) implies merged.queue.contains(Due { key: k, due: merged.states[k].next_due }) by {
            if k != key {
                assert(before.states.dom().contains(k));
            }
        }
    }
}

/// Reading an entry again that has not changed leaves the server's state as it
/// is, whenever that happens.
pub proof fn law_unchanged_entry_changes_nothing(
    state: ServerStateView,
    server: JsonView,
    fallback: bool,
    now: u64,
    later: u64,
    probe_interval: u64,
    jitter: u128,
    other_jitter: u128,
)
    ensures
        ({
            let once = refreshed_state(state, server, fallback, now, probe_interval, jitter);
            refreshed_state(once, server, fallback, later, probe_interval, other_jitter) == once
        }),
{
}

/// A refresh leaves the polling progress of a known server alone: its key, its
/// failures and its favicon, and what was reported of it unless its target
/// changed, in which case everything is reported anew.
pub proof fn law_refresh_keeps_progress(
    state: ServerStateView,
    server: JsonView,
    fallback: bool,
    now: u64,
    probe_interval: u64,
    jitter: u128,
)
    ensures
        ({
            let after = refreshed_state(state, server, fallback, now, probe_interval, jitter);
            &&& after.key == state.key
            &&& after.server_id == state.server_id
            &&& after.last_favicon_hash == state.last_favicon_hash
            &&& after.has_succeeded == state.has_succeeded
            &&& after.initial_failures == state.initial_failures
            &&& after.consecutive_failures == state.consecutive_failures
            &&& state.target == target_of(server) ==> after.emitted == state.emitted
            &&& state.target != target_of(server) ==> after.emitted == nothing_emitted()
            &&& !fallback ==> after.next_due == state.next_due
        }),
{
}

// ---------------------------------------------------------------------------
// Force pings
// ---------------------------------------------------------------------------

/// What became of a force ping.
#[derive(Debug)]
pub enum ForcePing {
    /// It names no server.
    Ignored,
    /// The server was made due.
    Scheduled,
    /// The server under this key is not known; its entry is to be fetched.
    Unknown(String),
}

/// Carries out a force ping as far as the server is known.
pub fn force_ping(
    states: &mut Table<ServerState>,
    scheduler: &mut SchedulerHandle,
    request: &str,
    now: u64,
) -> (r: ForcePing)
    requires
        old(states).wf(),
        old(scheduler).wf(),
    ensures
        final(states).wf(),
        final(scheduler).wf(),
        ({
            let target = trimmed(request@);
            let before = catalog(*old(states), *old(scheduler));
            let after = catalog(*final(states), *final(scheduler));
            match r {
                ForcePing::Ignored => target.len() == 0 && after == before,
                ForcePing::Scheduled => target.len() > 0 && before.states.dom().contains(target)
                    && after == made_due(before, target, now),
                ForcePing::Unknown(key) => target.len() > 0 && !before.states.dom().contains(target)
                    && key@ == target && after == before,
            }
        }),
{
    let target = trim(request);
    if target.is_empty() {
        return ForcePing::Ignored;
    }
    assert(states_of(states@).dom() =~= states@.dom());
    if make_due(states, scheduler, target, now) {
        ForcePing::Scheduled
    } else {
        ForcePing::Unknown(target.to_owned())
    }
}

/// The catalog once the entry of a force ping was fetched: the server stands
/// under the key that the ping named, and is due now.
pub open spec fn force_pinged(
    c: CatalogView,
    target: Seq<char>,
    server: JsonView,
    fallback: bool,
    now: u64,
    probe_interval: u64,
    jitter: Jitter,
) -> CatalogView {
    CatalogView {
        states: c.states.insert(
            target,
            ServerStateView {
                next_due: now as u128,
                ..new_state(server, fallback, now, probe_interval, jitter)
            },
        ),
        queue: scheduled(c.queue, Due { key: id_of(server), due: now as u128 }),
    }
}

/// Takes the server in that was fetched for a force ping, with the random delays
/// given.
pub fn force_ping_fetched_with(
    states: &mut Table<ServerState>,
    scheduler: &mut SchedulerHandle,
    target: String,
    entry: CatalogEntry,
    now: u64,
    startup_spread: u64,
    probe_interval: u64,
    jitter: Jitter,
)
    requires
        old(states).wf(),
        old(scheduler).wf(),
        jitter_fits(jitter, startup_spread, probe_interval),
    ensures
        final(states).wf(),
        final(scheduler).wf(),
        catalog(*final(states), *final(scheduler)) == force_pinged(
            catalog(*old(states), *old(scheduler)),
            target@,
            entry.server@,
            entry.fallback_mode,
            now,
            probe_interval,
            jitter,
        ),
{
    let ghost before = states@;
    let mut state = build_state_with(
        entry.server,
        now,
        startup_spread,
        probe_interval,
        jitter.due,
        jitter.probe,
    );
    state.plugin_fallback_mode = entry.fallback_mode;
    state.next_due = now as u128;
    let state_key = state.key.clone();
    proof {
        lemma_states_insert(before, target@, state);
    }
    states.insert(target, state);
    scheduler.schedule(state_key, now as u128);
}

/// Takes the server in that was fetched for a force ping.
pub fn force_ping_fetched(
    states: &mut Table<ServerState>,
    scheduler: &mut SchedulerHandle,
    target: String,
    entry: CatalogEntry,
    now: u64,
    startup_spread: u64,
    probe_interval: u64,
)
    requires
        old(states).wf(),
        old(scheduler).wf(),
    ensures
        final(states).wf(),
        final(scheduler).wf(),
        exists|jitter: Jitter|
            jitter_fits(jitter, startup_spread, probe_interval) && catalog(
                *final(states),
                *final(scheduler),
            ) == #[trigger] force_pinged(
                catalog(*old(states), *old(scheduler)),
                target@,
                entry.server@,
                entry.fallback_mode,
                now,
                probe_interval,
                jitter,
            ),
{
    let jitter = draw_jitter(startup_spread, probe_interval);
    force_ping_fetched_with(
        states,
        scheduler,
        target,
        entry,
        now,
        startup_spread,
        probe_interval,
        jitter,
    );
}

// ---------------------------------------------------------------------------
// Fetching the catalog
// ---------------------------------------------------------------------------

/// Paginated server list response from server-service.
#[derive(Debug)]
pub struct ServerListResponse {
    pub items: Vec<Json>,
    pub total: u64,
}

/// The fetching of all servers, page by page: first those of the list itself,
/// then the subservers.
#[derive(Debug)]
pub struct CatalogFetch {
    pub subservers: bool,
    pub page: u64,
    /// How many servers were there before this list.
    pub start: usize,
    pub servers: Vec<Json>,
    pub done: bool,
}

#[verifier::ext_equal]
pub struct FetchView {
    pub subservers: bool,
    pub page: int,
    pub start: int,
    pub servers: Seq<JsonView>,
    pub done: bool,
}

/// The address of a page of the list.
pub open spec fn page_address(
    api: Seq<char>,
    page: int,
    limit: int,
    subservers: bool,
) -> Seq<char> {
    api + "/internal/servers?page="@ + decimal_text(page) + "&limit="@ + decimal_text(limit)
        + if subservers {
        "&role=subserver"@
    } else {
        Seq::empty()
    }
}

/// The fetching once a request was answered: by a page, or in a way that ends
/// the list. A list also ends once it holds as many servers as it says there
/// are; after the list itself the subservers follow.
pub open spec fn fetched(f: FetchView, reply: Reply) -> FetchView {
    let servers = match reply {
        Some((items, _)) => f.servers + items,
        None => f.servers,
    };
    let ended = match reply {
        Some((_, total)) => servers.len() - f.start >= total,
        None => true,
    };
    if !ended {
        FetchView { page: f.page + 1, servers, ..f }
    } else if f.subservers {
        FetchView { servers, done: true, ..f }
    } else {
        FetchView { subservers: true, page: 1, start: servers.len() as int, servers, done: false }
    }
}

impl CatalogFetch {
    pub open spec fn view(self) -> FetchView {
        FetchView {
            subservers: self.subservers,
            page: self.page as int,
            start: self.start as int,
            servers: list_view(self.servers@),
            done: self.done,
        }
    }

    /// The list begins within the servers that were fetched.
    pub open spec fn wf(self) -> bool {
        self.start <= self.servers@.len()
    }

    /// The fetching before the first request.
    pub fn new() -> (r: Self)
        ensures
            r.wf(),
            r@ == fetch_start(),
    {
        CatalogFetch { subservers: false, page: 1, start: 0, servers: Vec::new(), done: false }
    }

    /// The address of the page to be fetched next.
    pub fn next_url(&self, api: &str, page_size: u64) -> (r: String)
        ensures
            r@ == page_address(api@, self@.page, page_size as int, self@.subservers),
    {
        let mut url = api.to_owned();
        url.append("/internal/servers?page=");
        push_decimal(&mut url, self.page);
        url.append("&limit=");
        push_decimal(&mut url, page_size);
        if self.subservers {
            url.append("&role=subserver");
        }
        assert(url@ =~= page_address(api@, self@.page, page_size as int, self@.subservers));
        url
    }

    /// Takes the answer to a request in.
    pub fn take_reply(&mut self, reply: Option<ServerListResponse>)
        requires
            old(self).wf(),
            old(self).page < u64::MAX,
        ensures
            final(self).wf(),
            final(self)@ == fetched(
                old(self)@,
                match reply {
                    Some(page) => Some((list_view(page.items@), page.total)),
                    None => None,
                },
            ),
    {
        let ended = match reply {
            Some(page) => {
                let mut items = page.items;
                proof {
                    lemma_list_view(self.servers@);
                    lemma_list_view(items@);
                    lemma_list_view(self.servers@ + items@);
                    let both = self.servers@ + items@;
                    let apart = list_view(self.servers@) + list_view(items@);
                    assert forall|i: int| 0 <= i < both.len() implies list_view(both)[i]
                        == apart[i] by {
                        assert(list_view(both)[i] == both[i]@);
                        if i >= self.servers@.len() {
                            assert(both[i] == items@[i - self.servers@.len()]);
                        }
                    }
                    assert(list_view(both) =~= apart);
                }
                self.servers.append(&mut items);
                (self.servers.len() - self.start) as u64 >= page.total
            },
            None => true,
        };
        proof {
            lemma_list_view(self.servers@);
        }
        if !ended {
            self.page = self.page + 1;
        } else if self.subservers {
            self.done = true;
        } else {
            self.subservers = true;
            self.page = 1;
            self.start = self.servers.len();
            self.done = false;
        }
    }
}

/// The answer to a request for a page: its servers and how many there are in
/// all, or nothing usable.
pub type Reply = Option<(Seq<JsonView>, u64)>;

/// The fetching before the first request.
pub open spec fn fetch_start() -> FetchView {
    FetchView { subservers: false, page: 1, start: 0, servers: Seq::empty(), done: false }
}

/// The fetching once requests were answered one after another, until it is done.
pub open spec fn fetch_run(f: FetchView, replies: Seq<Reply>) -> FetchView
    decreases replies.len(),
{
    if replies.len() == 0 || f.done {
        f
    } else {
        fetch_run(fetched(f, replies[0]), replies.drop_first())
    }
}

/// The servers of some answers in their order.
pub open spec fn replied_servers(replies: Seq<Reply>) -> Seq<JsonView>
    decreases replies.len(),
{
    if replies.len() == 0 {
        Seq::empty()
    } else {
        let first = match replies[0] {
            Some((items, _)) => items,
            None => Seq::empty(),
        };
        first + replied_servers(replies.drop_first())
    }
}

/// The answers make up one whole list, of which so many servers were fetched
/// before: the last answer, and no other, is a failure or brings as many servers
/// as it says there are.
pub open spec fn is_listing(replies: Seq<Reply>, before: int) -> bool
    decreases replies.len(),
{
    if replies.len() == 0 {
        false
    } else {
        match replies[0] {
            None => replies.len() == 1,
            Some((items, total)) => if before + items.len() >= total {
                replies.len() == 1
            } else {
                is_listing(replies.drop_first(), before + items.len())
            },
        }
    }
}

/// While a list is fetched, its pages are asked for one after another.
pub proof fn law_pages_are_asked_in_order(f: FetchView, replies: Seq<Reply>, n: int)
    requires
        !f.done,
        is_listing(replies, f.servers.len() - f.start),
        0 <= n < replies.len(),
    ensures
        ({
            let then = fetch_run(f, replies.take(n));
            &&& !then.done
            &&& then.page == f.page + n
            &&& then.subservers == f.subservers
        }),
    decreases n,
{
    if n > 0 {
        let next = fetched(f, replies[0]);
        law_pages_are_asked_in_order(next, replies.drop_first(), n - 1);
        assert(replies.take(n).drop_first() =~= replies.drop_first().take(n - 1));
        assert(replies.take(n)[0] == replies[0]);
    }
}

/// The fetching once a whole list was answered.
spec fn listing_ended(f: FetchView, replies: Seq<Reply>) -> FetchView {
    let servers = f.servers + replied_servers(replies);
    if f.subservers {
        FetchView { page: f.page + replies.len() - 1, servers, done: true, ..f }
    } else {
        FetchView { subservers: true, page: 1, start: servers.len() as int, servers, done: false }
    }
}

proof fn lemma_listing(f: FetchView, replies: Seq<Reply>, more: Seq<Reply>)
    requires
        !f.done,
        is_listing(replies, f.servers.len() - f.start),
    ensures
        fetch_run(f, replies + more) == fetch_run(listing_ended(f, replies), more),
    decreases replies.len(),
{
    let all = replies + more;
    let next = fetched(f, replies[0]);
    let rest = replies.drop_first();
    let first = match replies[0] {
        Some((items, _)) => items,
        None => Seq::empty(),
    };
    assert(all[0] == replies[0]);
    assert(all.drop_first() =~= rest + more);
    assert(fetch_run(f, all) == fetch_run(next, rest + more));
    assert(replied_servers(replies) == first + replied_servers(rest));
    assert(f.servers + first =~= next.servers);
    assert(f.servers + replied_servers(replies) =~= next.servers + replied_servers(rest));
    if replies.len() == 1 {
        assert(rest =~= Seq::<Reply>::empty());
        assert(rest + more =~= more);
        assert(next.servers + replied_servers(rest) =~= next.servers);
        assert(!is_listing(rest, f.servers.len() - f.start + first.len()));
        assert(next =~= listing_ended(f, replies));
    } else {
        lemma_listing(next, rest, more);
        assert(listing_ended(next, rest) =~= listing_ended(f, replies));
    }
}

/// What is fetched in all: the servers of the list itself and then the
/// subservers, each in the order of their pages. A failure ends its own list
/// alone and takes nothing away.
pub proof fn law_fetch_gives_both_lists(
    servers: Seq<Reply>,
    subservers: Seq<Reply>,
    more: Seq<Reply>,
)
    requires
        is_listing(servers, 0),
        is_listing(subservers, 0),
    ensures
        ({
            let then = fetch_run(fetch_start(), servers + subservers + more);
            &&& then.done
            &&& then.servers == replied_servers(servers) + replied_servers(subservers)
        }),
{
    let f = fetch_start();
    let first = f.servers + replied_servers(servers);
    assert(first =~= replied_servers(servers));
    let second = listing_ended(f, servers);
    assert(servers + subservers + more =~= servers + (subservers + more));
    lemma_listing(f, servers, subservers + more);
    lemma_listing(second, subservers, more);
}

/// A request that is answered in no usable way ends its list and loses nothing
/// that was fetched before.
pub proof fn law_failed_page_keeps_what_was_fetched(f: FetchView)
    ensures
        fetched(f, None).servers == f.servers,
        f.subservers ==> fetched(f, None).done,
        !f.subservers ==> fetched(f, None).subservers && fetched(f, None).page == 1,
{
}

/// The address of one server, where an id is given.
pub open spec fn server_address(api: Seq<char>, server_id: Seq<char>) -> Option<Seq<char>> {
    let id = trimmed(server_id);
    if id.len() > 0 {
        Some(api + "/internal/servers/"@ + id)
    } else {
        None
    }
}

/// The address of one server, where an id is given.
pub fn server_url(api: &str, server_id: &str) -> (r: Option<String>)
    ensures
        opt_text(r) == server_address(api@, server_id@),
{
    let id = trim(server_id);
    if id.is_empty() {
        return None;
    }
    let mut url = api.to_owned();
    url.append("/internal/servers/");
    url.append(id);
    Some(url)
}

// ---------------------------------------------------------------------------
// Discovery probes
// ---------------------------------------------------------------------------

/// A request to probe a discovery candidate.
#[derive(Debug)]
pub struct DiscoveryProbeRequest {
    pub candidate_id: String,
    pub host: String,
    pub port: Option<u16>,
    pub edition: Option<String>,
}

/// A discovery candidate that is to be probed.
#[derive(Debug)]
pub struct Candidate {
    pub candidate_id: String,
    pub host: String,
    pub port: Option<u16>,
    pub edition: Edition,
}

#[verifier::ext_equal]
pub struct CandidateView {
    pub candidate_id: Seq<char>,
    pub host: Seq<char>,
    pub port: Option<u16>,
    pub edition: Edition,
}

impl Candidate {
    pub open spec fn view(self) -> CandidateView {
        CandidateView {
            candidate_id: self.candidate_id@,
            host: self.host@,
            port: self.port,
            edition: self.edition,
        }
    }
}

/// The candidate of a request; nothing where the id or the host is blank.
pub open spec fn candidate_of(
    candidate_id: Seq<char>,
    host: Seq<char>,
    port: Option<u16>,
    edition: Option<Seq<char>>,
) -> Option<CandidateView> {
    if trimmed(candidate_id).len() == 0 || trimmed(host).len() == 0 {
        None
    } else {
        Some(
            CandidateView {
                candidate_id,
                host: trimmed(host),
                port,
                edition: match edition {
                    Some(name) => if ascii_lowered(name) == "bedrock"@ {
                        Edition::Bedrock
                    } else {
                        Edition::Java
                    },
                    None => Edition::Java,
                },
            },
        )
    }
}

/// The candidate of a request; nothing where the id or the host is blank.
pub fn check_probe_request(request: DiscoveryProbeRequest) -> (r: Option<Candidate>)
    ensures
        match r {
            Some(c) => candidate_of(
                request.candidate_id@,
                request.host@,
                request.port,
                opt_text(request.edition),
            ) == Some(c@),
            None => candidate_of(
                request.candidate_id@,
                request.host@,
                request.port,
                opt_text(request.edition),
            ) is None,
        },
{
    let host = trim(request.host.as_str());
    if trim(request.candidate_id.as_str()).is_empty() || host.is_empty() {
        return None;
    }
    let edition = match &request.edition {
        Some(name) if same_text(lower_ascii(name.as_str()).as_str(), "bedrock") => {
            Edition::Bedrock
        },
        _ => Edition::Java,
    };
    let host = host.to_owned();
    Some(Candidate { candidate_id: request.candidate_id, host, port: request.port, edition })
}

/// What is answered to a discovery probe.
pub open spec fn probe_answer(
    c: CandidateView,
    result: PollView,
    probed_at: Seq<char>,
    elapsed_ms: u64,
) -> JsonView {
    JsonView::Object(
        Map::<Seq<char>, JsonView>::empty()
            .insert("candidate_id"@, JsonView::Text(c.candidate_id))
            .insert("status_ok"@, JsonView::Bool(result.status_ok))
            .insert("error"@, if result.status_ok {
                JsonView::Null
            } else {
                JsonView::Text("probe failed"@)
            })
            .insert("probed_at"@, JsonView::Text(probed_at))
            .insert("host"@, JsonView::Text(c.host))
            .insert("port"@, match c.port {
                Some(port) => JsonView::Number(int_number(port as int)),
                None => JsonView::Null,
            })
            .insert("edition"@, JsonView::Text(c.edition.name()))
            .insert("online"@, opt_u64_json(u64_field(result.payload, "online"@)))
            .insert("max_players"@, opt_u64_json(u64_field(result.payload, "max_players"@)))
            .insert("version"@, JsonView::Text(text_or_empty(result.payload, "version"@)))
            .insert("motd"@, JsonView::Text(text_or_empty(result.payload, "motd"@)))
            .insert("favicon"@, JsonView::Text(result.favicon))
            .insert("elapsed_ms"@, JsonView::Number(int_number(elapsed_ms as int))),
    )
}

/// The natural number in a field.
pub open spec fn u64_field(value: JsonView, key: Seq<char>) -> Option<u64> {
    match field(value, key) {
        Some(v) => u64_of_value(v),
        None => None,
    }
}

fn number_at(value: &Json, key: &str) -> (r: Json)
    ensures
        r@ == opt_u64_json(u64_field(value@, key@)),
{
    match value.get(key) {
        Some(v) => Json::opt_unsigned(v.as_u64()),
        None => Json::Null,
    }
}

fn text_in(value: &Json, key: &str) -> (r: Json)
    ensures
        r@ == JsonView::Text(text_or_empty(value@, key@)),
{
    match value.text_at(key) {
        Some(t) => Json::text(t),
        None => Json::Text(String::new()),
    }
}

/// What is answered to a discovery probe.
pub fn probe_response(
    candidate: &Candidate,
    result: &PollResult,
    probed_at: &str,
    elapsed_ms: u64,
) -> (r: Json)
    ensures
        r@ == probe_answer(candidate@, result@, probed_at@, elapsed_ms),
{
    let error = if result.status_ok {
        Json::Null
    } else {
        Json::text("probe failed")
    };
    let port = match candidate.port {
        Some(port) => Json::unsigned(port as u64),
        None => Json::Null,
    };
    Json::Object(
        JsonObject::new().with("candidate_id", Json::text(candidate.candidate_id.as_str())).with(
            "status_ok",
            Json::Bool(result.status_ok),
        ).with("error", error).with("probed_at", Json::text(probed_at)).with(
            "host",
            Json::text(candidate.host.as_str()),
        ).with("port", port).with("edition", Json::text(candidate.edition.as_str())).with(
            "online",
            number_at(&result.payload, "online"),
        ).with("max_players", number_at(&result.payload, "max_players")).with(
            "version",
            text_in(&result.payload, "version"),
        ).with("motd", text_in(&result.payload, "motd")).with(
            "favicon",
            Json::text(result.favicon.as_str()),
        ).with("elapsed_ms", Json::unsigned(elapsed_ms)),
    )
}

/// Where the answer to a probe is put.
pub fn probe_result_key(prefix: &str, candidate_id: &str) -> (r: String)
    ensures
        r@ == prefix@ + candidate_id@,
{
    let mut key = prefix.to_owned();
    key.append(candidate_id);
    key
}

/// How long the answer to a probe is kept, in seconds: a minute at least.
pub fn probe_result_ttl(seconds: u64) -> (r: u64)
    ensures
        r == if seconds < 60 {
            60
        } else {
            seconds
        },
{
    if seconds < 60 {
        60
    } else {
        seconds
    }
}

// ---------------------------------------------------------------------------
// Laws of discovery probes
// ---------------------------------------------------------------------------

/// The answer to a probe carries the figures and texts of the server's reply, and
/// of the candidate what was asked.
pub proof fn law_probe_answer_carries_the_reply(
    c: CandidateView,
    collected_at: Seq<char>,
    country: Seq<char>,
    country_code: Seq<char>,
    status: StatusView,
    probed_at: Seq<char>,
    elapsed_ms: u64,
)
    ensures
        ({
            let result = polled(
                c.candidate_id,
                collected_at,
                country,
                country_code,
                Some(status),
            );
            let answer = probe_answer(c, result, probed_at, elapsed_ms);
            &&& field(answer, "online"@) == Some(JsonView::Number(int_number(status.online as int)))
            &&& field(answer, "max_players"@) == Some(
                JsonView::Number(int_number(status.max_players as int)),
            )
            &&& text_field(answer, "version"@) == Some(status.version)
            &&& status.motd matches Some(motd) ==> text_field(answer, "motd"@) == Some(motd)
            &&& text_field(answer, "favicon"@) == Some(favicon_url(status.favicon))
            &&& field(answer, "status_ok"@) == Some(JsonView::Bool(true))
            &&& field(answer, "error"@) == Some(JsonView::Null)
        }),
{
    lemma_names_differ();
}

/// The answer to a probe that failed says so and has no figures.
pub proof fn law_failed_probe_is_answered(
    c: CandidateView,
    collected_at: Seq<char>,
    country: Seq<char>,
    country_code: Seq<char>,
    probed_at: Seq<char>,
    elapsed_ms: u64,
)
    ensures
        ({
            let result = polled(c.candidate_id, collected_at, country, country_code, None);
            let answer = probe_answer(c, result, probed_at, elapsed_ms);
            &&& field(answer, "online"@) == Some(JsonView::Null)
            &&& field(answer, "max_players"@) == Some(JsonView::Null)
            &&& text_field(answer, "version"@) == Some(Seq::<char>::empty())
            &&& text_field(answer, "motd"@) == Some(Seq::<char>::empty())
            &&& text_field(answer, "favicon"@) == Some(Seq::<char>::empty())
            &&& field(answer, "status_ok"@) == Some(JsonView::Bool(false))
            &&& text_field(answer, "error"@) == Some("probe failed"@)
        }),
{
    lemma_names_differ();
}

/// Whatever a probe found, its answer says of whom it is, where the candidate was
/// probed, when, and how long that took.
pub proof fn law_probe_answer_names_the_candidate(
    c: CandidateView,
    result: PollView,
    probed_at: Seq<char>,
    elapsed_ms: u64,
)
    ensures
        ({
            let answer = probe_answer(c, result, probed_at, elapsed_ms);
            &&& text_field(answer, "candidate_id"@) == Some(c.candidate_id)
            &&& text_field(answer, "host"@) == Some(c.host)
            &&& c.port matches Some(port) ==> i64_field(answer, "port"@) == Some(port as i64)
            &&& c.port is None ==> field(answer, "port"@) == Some(JsonView::Null)
            &&& text_field(answer, "edition"@) == Some(
                if c.edition == Edition::Bedrock {
                    "bedrock"@
                } else {
                    "java"@
                },
            )
            &&& text_field(answer, "probed_at"@) == Some(probed_at)
            &&& field(answer, "elapsed_ms"@) == Some(
                JsonView::Number(int_number(elapsed_ms as int)),
            )
            &&& field(answer, "status_ok"@) == Some(JsonView::Bool(result.status_ok))
            &&& text_field(answer, "favicon"@) == Some(result.favicon)
        }),
{
    lemma_names_differ();
}

/// A candidate is what the request says: its id as it is, its host without the
/// white space around it, its port, and Bedrock only where the request says so, in
/// any case. A request without an id or a host is none.
pub proof fn law_candidate_is_what_was_asked(
    candidate_id: Seq<char>,
    host: Seq<char>,
    port: Option<u16>,
    edition: Option<Seq<char>>,
)
    ensures
        candidate_of(candidate_id, host, port, edition) is None <==> trimmed(candidate_id).len()
            == 0 || trimmed(host).len() == 0,
        candidate_of(candidate_id, host, port, edition) matches Some(c) ==> {
            &&& c.candidate_id == candidate_id
            &&& c.host == trimmed(host)
            &&& c.port == port
            &&& c.edition == Edition::Bedrock <==> edition is Some && ascii_lowered(edition->0)
                == "bedrock"@
        },
{
}

// ---------------------------------------------------------------------------
// Laws of addresses under server-service
// ---------------------------------------------------------------------------

/// A page is asked for by its number and size, and the subservers by their role
/// besides; one server by its id.
pub proof fn law_requests_name_what_they_ask_for(
    api: Seq<char>,
    page: int,
    limit: int,
    server_id: Seq<char>,
)
    ensures
        page_address(api, page, limit, false) == api + "/internal/servers?page="@ + decimal_text(
            page,
        ) + "&limit="@ + decimal_text(limit),
        page_address(api, page, limit, true) == page_address(api, page, limit, false)
            + "&role=subserver"@,
        server_address(api, server_id) is None <==> trimmed(server_id).len() == 0,
        server_address(api, server_id) is Some ==> server_address(api, server_id) == Some(
            api + "/internal/servers/"@ + trimmed(server_id),
        ),
{
    let plain = page_address(api, page, limit, false);
    assert(plain =~= api + "/internal/servers?page="@ + decimal_text(page) + "&limit="@
        + decimal_text(limit));
}

// ---------------------------------------------------------------------------
// Laws of JSON triggers
// ---------------------------------------------------------------------------

proof fn lemma_listed_texts(ids: Seq<Seq<char>>)
    requires
        forall|i: int| 0 <= i < ids.len() ==> is_listable(#[trigger] ids[i]),
    ensures
        listed_ids(texts_json(ids)->Array_0) == ids,
    decreases ids.len(),
{
    let items = texts_json(ids)->Array_0;
    if ids.len() == 0 {
        assert(listed_ids(items) =~= ids);
    } else {
        let shorter = ids.drop_last();
        let id = ids[ids.len() - 1];
        assert(is_listable(id));
        assert forall|i: int| 0 <= i < shorter.len() implies is_listable(#[trigger] shorter[i]) by {
            assert(shorter[i] == ids[i]);
        }
        lemma_listed_texts(shorter);
        assert(items.drop_last() =~= texts_json(shorter)->Array_0);
        assert(!is_space(id[0]) && !is_space(id[id.len() - 1]));
        assert(trimmed(id) == id);
        assert(shorter.push(id) =~= ids);
    }
}

/// Ids that are listed in JSON are read back, in order, from a list or from an
/// object that holds it under either name, the first of which counts before the
/// other; and an object that asks for all servers gets them all.
pub proof fn law_json_ids_are_read(
    fields: Map<Seq<char>, JsonView>,
    ids: Seq<Seq<char>>,
    others: JsonView,
)
    requires
        forall|i: int| 0 <= i < ids.len() ==> is_listable(#[trigger] ids[i]),
        !fields.dom().contains("all"@),
        !fields.dom().contains("server_ids"@),
    ensures
        ({
            let list = texts_json(ids);
            let wanted = Some(Some(ids));
            let short = fields.insert("ids"@, list);
            let both = fields.insert("ids"@, others).insert("server_ids"@, list);
            &&& json_targets(list) == wanted
            &&& json_targets(JsonView::Object(short)) == wanted
            &&& json_targets(JsonView::Object(both)) == wanted
            &&& json_targets(JsonView::Object(short.insert("all"@, JsonView::Bool(false))))
                == wanted
            &&& json_targets(JsonView::Object(both.insert("all"@, JsonView::Bool(true)))) == Some(
                None::<Seq<Seq<char>>>,
            )
        }),
{
    lemma_names_differ();
    lemma_listed_texts(ids);
}

/// An item of a list names the server with its text, without the white space
/// around it, or with its numeral; blanks and other values name none.
pub proof fn law_items_name_servers(text: Seq<char>, n: int, flag: bool)
    ensures
        trimmed(text).len() > 0 ==> listed_id(JsonView::Text(text)) == Some(trimmed(text)),
        trimmed(text).len() == 0 ==> listed_id(JsonView::Text(text)) is None,
        n >= 0 ==> listed_id(JsonView::Number(int_number(n))) == Some(decimal_text(n)),
        listed_id(JsonView::Bool(flag)) is None,
        listed_id(JsonView::Null) is None,
{
    if n >= 0 {
        lemma_decimal_text(n);
        assert(decimal_text(n).len() > 0);
    }
}

/// A trigger that is JSON is read as JSON, where it begins like it.
pub proof fn law_json_trigger_is_read(content: Seq<char>)
    requires
        trimmed(content).len() > 0,
        trimmed(content)[0] == '{' || trimmed(content)[0] == '[',
        !names_all(trimmed(content)),
    ensures
        parsed_json(trimmed(content)) matches Some(value) ==> {
            &&& value is Array ==> trigger_targets(content) == Some(listed_ids(value->Array_0))
            &&& field(value, "all"@) == Some(JsonView::Bool(true)) ==> trigger_targets(
                content,
            ) is None
            &&& field(value, "all"@) is None && field(value, "server_ids"@) is Some && field(
                value,
                "server_ids"@,
            )->0 is Array ==> trigger_targets(content) == Some(
                listed_ids(field(value, "server_ids"@)->0->Array_0),
            )
        },
{
}

// ---------------------------------------------------------------------------
// Laws of the refresh
// ---------------------------------------------------------------------------

/// What a refresh makes of a known server: its entry and what follows from it are
/// taken over, a server that moved starts anew, one whose plugin fell silent is due
/// at once, and probes are set, kept or ended as the entry wants.
pub proof fn law_refreshed_server_follows_its_entry(
    state: ServerStateView,
    server: JsonView,
    fallback: bool,
    now: u64,
    probe_interval: u64,
    jitter: u128,
)
    requires
        now + jitter <= u128::MAX,
    ensures
        ({
            let after = refreshed_state(state, server, fallback, now, probe_interval, jitter);
            &&& after.target == target_of(server)
            &&& after.server == server
            &&& after.plugin_managed == plugin_managed(server)
            &&& after.plugin_fallback_mode == fallback
            &&& state.target != target_of(server) ==> after.next_query_attempt == now
                && !after.emitted.any
            &&& state.target == target_of(server) ==> after.next_query_attempt
                == state.next_query_attempt && after.emitted == state.emitted
            &&& fallback && !state.plugin_fallback_mode ==> after.next_due == now
            &&& !fallback || state.plugin_fallback_mode ==> after.next_due == state.next_due
            &&& !wants_probe(server, probe_interval) ==> after.next_bedrock_probe is None
            &&& wants_probe(server, probe_interval) && state.next_bedrock_probe is Some
                ==> after.next_bedrock_probe == state.next_bedrock_probe
            &&& wants_probe(server, probe_interval) && state.next_bedrock_probe is None
                ==> after.next_bedrock_probe == Some((now + jitter) as u128)
        }),
{
}

proof fn lemma_merged_entry(
    c: CatalogView,
    entries: Seq<CatalogEntry>,
    now: u64,
    probe_interval: u64,
    jitters: Seq<Jitter>,
    at: int,
)
    requires
        0 <= at < entries.len(),
        id_of(entries[at].server@).len() > 0,
        forall|j: int|
            at < j < entries.len() ==> id_of((#[trigger] entries[j]).server@) != id_of(
                entries[at].server@,
            ),
    ensures
        ({
            let key = id_of(entries[at].server@);
            let merged = entries_merged(c, entries, now, probe_interval, jitters);
            let before = entries_merged(c, entries.take(at), now, probe_interval, jitters);
            let once = entry_merged(
                before,
                entries[at].server@,
                entries[at].fallback_mode,
                now,
                probe_interval,
                jitters[at],
            );
            &&& merged.states.dom().contains(key)
            &&& merged.states[key] == once.states[key]
        }),
    decreases entries.len(),
{
    let n = entries.len() - 1;
    let shorter = entries.drop_last();
    if at == n {
        assert(entries.take(at) =~= shorter);
    } else {
        assert forall|j: int| at < j < shorter.len() implies id_of((#[trigger] shorter[j]).server@)
            != id_of(shorter[at].server@) by {
            assert(shorter[j] == entries[j]);
        }
        lemma_merged_entry(c, shorter, now, probe_interval, jitters, at);
        assert(shorter.take(at) =~= entries.take(at));
        assert(id_of(entries[n].server@) != id_of(entries[at].server@));
    }
}

/// After a refresh every server of the catalog is polled where its last entry
/// says, has that entry, and is the plugin's where the entry says so.
pub proof fn law_refresh_takes_the_last_entry_over(
    c: CatalogView,
    entries: Seq<CatalogEntry>,
    now: u64,
    probe_interval: u64,
    jitters: Seq<Jitter>,
    at: int,
)
    requires
        0 <= at < entries.len(),
        id_of(entries[at].server@).len() > 0,
        forall|j: int|
            at < j < entries.len() ==> id_of((#[trigger] entries[j]).server@) != id_of(
                entries[at].server@,
            ),
    ensures
        ({
            let key = id_of(entries[at].server@);
            let after = refreshed(c, entries, now, probe_interval, jitters);
            &&& after.states.dom().contains(key)
            &&& after.states[key].target == target_of(entries[at].server@)
            &&& after.states[key].server == entries[at].server@
            &&& after.states[key].plugin_managed == plugin_managed(entries[at].server@)
            &&& after.states[key].plugin_fallback_mode == entries[at].fallback_mode
        }),
{
    lemma_merged_entry(c, entries, now, probe_interval, jitters, at);
    assert(incoming(entries).contains(id_of(entries[at].server@)));
}

proof fn lemma_merge_keeps_others(
    c: CatalogView,
    entries: Seq<CatalogEntry>,
    now: u64,
    probe_interval: u64,
    jitters: Seq<Jitter>,
    key: Seq<char>,
)
    requires
        !incoming(entries).contains(key),
    ensures
        ({
            let merged = entries_merged(c, entries, now, probe_interval, jitters);
            &&& merged.states.dom().contains(key) == c.states.dom().contains(key)
            &&& c.states.dom().contains(key) ==> merged.states[key] == c.states[key]
        }),
    decreases entries.len(),
{
    if entries.len() > 0 {
        let n = entries.len() - 1;
        lemma_incoming(entries, n);
        assert(entries.take(n + 1) =~= entries);
        assert(entries.take(n) =~= entries.drop_last());
        lemma_merge_keeps_others(c, entries.drop_last(), now, probe_interval, jitters, key);
    }
}

/// A refresh keeps the progress of a server that comes once in the catalog: what
/// was counted, and what was reported as long as it has not moved.
pub proof fn law_refresh_keeps_what_was_reported(
    c: CatalogView,
    entries: Seq<CatalogEntry>,
    now: u64,
    probe_interval: u64,
    jitters: Seq<Jitter>,
    at: int,
)
    requires
        0 <= at < entries.len(),
        id_of(entries[at].server@).len() > 0,
        forall|j: int|
            0 <= j < entries.len() && j != at ==> id_of((#[trigger] entries[j]).server@) != id_of(
                entries[at].server@,
            ),
        c.states.dom().contains(id_of(entries[at].server@)),
    ensures
        ({
            let key = id_of(entries[at].server@);
            let before = c.states[key];
            let after = refreshed(c, entries, now, probe_interval, jitters).states[key];
            &&& after.has_succeeded == before.has_succeeded
            &&& after.initial_failures == before.initial_failures
            &&& after.consecutive_failures == before.consecutive_failures
            &&& after.last_favicon_hash == before.last_favicon_hash
            &&& after.key == before.key && after.server_id == before.server_id
            &&& before.target == target_of(entries[at].server@) ==> after.emitted == before.emitted
            &&& before.target != target_of(entries[at].server@) ==> !after.emitted.any
            &&& !entries[at].fallback_mode ==> after.next_due == before.next_due
        }),
{
    lemma_merged_entry(c, entries, now, probe_interval, jitters, at);
    assert(incoming(entries).contains(id_of(entries[at].server@)));
    let earlier = entries.take(at);
    assert(!incoming(earlier).contains(id_of(entries[at].server@))) by {
        if incoming(earlier).contains(id_of(entries[at].server@)) {
            let j = choose|j: int|
                0 <= j < earlier.len() && id_of((#[trigger] earlier[j]).server@) == id_of(
                    entries[at].server@,
                );
            assert(earlier[j] == entries[j]);
        }
    }
    lemma_merge_keeps_others(
        c,
        earlier,
        now,
        probe_interval,
        jitters,
        id_of(entries[at].server@),
    );
}

/// A server that is new in the catalog starts from its entry.
pub proof fn law_refresh_adds_new_servers(
    c: CatalogView,
    entries: Seq<CatalogEntry>,
    now: u64,
    probe_interval: u64,
    jitters: Seq<Jitter>,
    at: int,
)
    requires
        0 <= at < entries.len(),
        id_of(entries[at].server@).len() > 0,
        forall|j: int|
            0 <= j < entries.len() && j != at ==> id_of((#[trigger] entries[j]).server@) != id_of(
                entries[at].server@,
            ),
        !c.states.dom().contains(id_of(entries[at].server@)),
        now + jitters[at].due <= u128::MAX,
    ensures
        ({
            let key = id_of(entries[at].server@);
            let after = refreshed(c, entries, now, probe_interval, jitters).states[key];
            &&& after.key == key && after.server_id == key
            &&& after.next_due == now + jitters[at].due
            &&& after.next_query_attempt == now
            &&& !after.emitted.any && !after.has_succeeded
            &&& after.initial_failures == 0 && after.consecutive_failures == 0
        }),
{
    lemma_merged_entry(c, entries, now, probe_interval, jitters, at);
    assert(incoming(entries).contains(id_of(entries[at].server@)));
    let earlier = entries.take(at);
    assert(!incoming(earlier).contains(id_of(entries[at].server@))) by {
        if incoming(earlier).contains(id_of(entries[at].server@)) {
            let j = choose|j: int|
                0 <= j < earlier.len() && id_of((#[trigger] earlier[j]).server@) == id_of(
                    entries[at].server@,
                );
            assert(earlier[j] == entries[j]);
        }
    }
    lemma_merge_keeps_others(
        c,
        earlier,
        now,
        probe_interval,
        jitters,
        id_of(entries[at].server@),
    );
}

/// The counts balance: there are as many servers before those that left were
/// dropped as there were and were added.
pub proof fn law_refresh_counts_balance(
    c: CatalogView,
    entries: Seq<CatalogEntry>,
    now: u64,
    probe_interval: u64,
    jitters: Seq<Jitter>,
)
    requires
        c.states.dom().finite(),
    ensures
        ({
            let merged = entries_merged(c, entries, now, probe_interval, jitters).states.dom();
            &&& merged.finite()
            &&& merged.len() == c.states.dom().len() + count_added(
                c,
                entries,
                now,
                probe_interval,
                jitters,
            )
            &&& forall|counts: RefreshCounts| #[trigger]
                counted(counts, c, entries, now, probe_interval, jitters) ==> counts.total
                    + counts.removed == c.states.dom().len() + counts.added
        }),
    decreases entries.len(),
{
    if entries.len() > 0 {
        law_refresh_counts_balance(c, entries.drop_last(), now, probe_interval, jitters);
    }
}

/// An entry counts as updated exactly where it gives a known server another
/// target.
pub proof fn law_updates_are_counted(
    c: CatalogView,
    entries: Seq<CatalogEntry>,
    now: u64,
    probe_interval: u64,
    jitters: Seq<Jitter>,
)
    requires
        entries.len() > 0,
        !incoming(entries.drop_last()).contains(id_of(entries.last().server@)),
    ensures
        ({
            let key = id_of(entries.last().server@);
            let before = count_updated(c, entries.drop_last(), now, probe_interval, jitters);
            let moved = key.len() > 0 && c.states.dom().contains(key) && c.states[key].target
                != target_of(entries.last().server@);
            count_updated(c, entries, now, probe_interval, jitters) == if moved {
                before + 1
            } else {
                before
            }
        }),
{
    lemma_merge_keeps_others(
        c,
        entries.drop_last(),
        now,
        probe_interval,
        jitters,
        id_of(entries.last().server@),
    );
}

/// A server that is fetched for a force ping starts from its entry, under the key
/// that was named, due now; no other server changes.
pub proof fn law_force_ping_takes_the_entry_in(
    c: CatalogView,
    target: Seq<char>,
    server: JsonView,
    fallback: bool,
    now: u64,
    probe_interval: u64,
    jitter: Jitter,
    other: Seq<char>,
)
    requires
        other != target,
    ensures
        ({
            let after = force_pinged(c, target, server, fallback, now, probe_interval, jitter);
            let state = after.states[target];
            &&& after.states.dom() == c.states.dom().insert(target)
            &&& state.target == target_of(server) && state.server == server
            &&& state.server_id == id_of(server)
            &&& state.next_due == now
            &&& state.plugin_managed == plugin_managed(server)
            &&& !state.emitted.any
            &&& c.states.dom().contains(other) ==> after.states[other] == c.states[other]
        }),
{
    let after = force_pinged(c, target, server, fallback, now, probe_interval, jitter);
    assert(after.states.dom() =~= c.states.dom().insert(target));
}

/// Delays fit exactly where they lie within the seconds that they are spread over.
pub proof fn law_delays_lie_within_their_spreads(
    jitter: Jitter,
    startup_spread: u64,
    probe_interval: u64,
)
    requires
        startup_spread > 0,
        probe_interval > 0,
    ensures
        jitter_fits(jitter, startup_spread, probe_interval) <==> jitter.due < startup_spread
            * 1_000_000_000 && jitter.probe < probe_interval * 1_000_000_000,
{
}

/// A trigger puts a poll for now on the schedule for each server that it names,
/// takes none off, and counts those that it names and that are known.
pub proof fn law_trigger_schedules_named_servers(
    c: CatalogView,
    keys: Seq<Seq<char>>,
    now: u64,
    key: Seq<char>,
)
    ensures
        keys.contains(key) && c.states.dom().contains(key) ==> all_made_due(
            c,
            keys,
            now,
        ).queue.contains(Due { key: c.states[key].key, due: now as u128 }),
        forall|other: Due| #[trigger]
            c.queue.contains(other) ==> all_made_due(c, keys, now).queue.contains(other),
        known(c.states, keys.push(key)) == known(c.states, keys) + if c.states.dom().contains(
            key,
        ) {
            1nat
        } else {
            0
        },
        known(c.states, Seq::empty()) == 0,
    decreases keys.len(),
{
    assert(keys.push(key).drop_last() =~= keys);
    if keys.len() > 0 {
        let shorter = keys.drop_last();
        law_trigger_schedules_named_servers(c, shorter, now, key);
        law_trigger_makes_named_servers_due(c, shorter, now);
        let before = all_made_due(c, shorter, now);
        let last = keys.last();
        if c.states.dom().contains(last) {
            law_scheduled_polls_are_kept(
                before.queue,
                Due { key: c.states[last].key, due: now as u128 },
            );
            assert(before.states[last].key == c.states[last].key);
        }
        if keys.contains(key) && key != last {
            assert(shorter[keys.index_of(key)] == key);
        }
    }
}

} // verus!
