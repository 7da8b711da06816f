//! Write-ahead log buffer for ingest batches.
//!
//! When monitoring-service is unreachable, batches are persisted to segmented
//! append-log files on disk. On recovery they are drained oldest-first.
//!
//! Record format: `[4B u32 BE length][payload bytes][0x0A sentinel]`
//! Segment files: `buffer-{epoch_millis}.wal`
//!
//! This module holds the format, the order of the segments and the bookkeeping
//! of their sizes; the files themselves are read and written elsewhere.

use vstd::multiset::Multiset;
use vstd::prelude::*;
use vstd::seq_lib::group_to_multiset_ensures;
use vstd::slice::{slice_subrange, slice_to_vec};
use vstd::utf8::encode_utf8;

use crate::bytes::{be32, be32_value, law_be32_round_trip, push_be32, read_be32};
use crate::json::{
    json_text, lemma_list_view, list_view, parse_json_bytes, parsed_bytes, plain,
    printed_json, Json, JsonView,
};
use crate::text::{chars_of, decimal, decimal_text, lemma_decimal_text, push_decimal, same_text};

verus! {

broadcast use vstd::string::group_string_axioms;

pub const SENTINEL: u8 = 0x0a;

/// The longest payload that is read back.
pub const MAX_PAYLOAD: usize = 16_777_216;

// ---------------------------------------------------------------------------
// Records
// ---------------------------------------------------------------------------

/// The payload of a value: the bytes of its compact text.
pub open spec fn payload_of(item: JsonView) -> Seq<u8> {
    encode_utf8(printed_json(item))
}

/// A payload as it stands in a segment. The length field holds the length's low
/// 32 bits.
pub open spec fn record(payload: Seq<u8>) -> Seq<u8> {
    be32((payload.len() % 0x1_0000_0000) as u32) + payload + seq![0x0au8]
}

/// The records of some payloads one after another.
pub open spec fn segment(payloads: Seq<Seq<u8>>) -> Seq<u8>
    decreases payloads.len(),
{
    if payloads.len() == 0 {
        Seq::empty()
    } else {
        segment(payloads.drop_last()) + record(payloads.last())
    }
}

/// A payload as it stands in a segment.
fn encode_record(payload: &[u8]) -> (r: Vec<u8>)
    ensures
        r@ == record(payload@),
{
    let mut out: Vec<u8> = Vec::new();
    push_be32(&mut out, (payload.len() as u64 % 0x1_0000_0000) as u32);
    out.extend_from_slice(payload);
    out.push(SENTINEL);
    assert(out@ =~= record(payload@));
    out
}

/// A value as it stands in a segment. A plain value is read back from its
/// payload.
pub fn encode_item(item: &Json) -> (r: Vec<u8>)
    ensures
        r@ == record(payload_of(item@)),
        plain(item@) ==> parsed_bytes(payload_of(item@)) == Some(item@),
{
    let text = json_text(item);
    encode_record(text.as_str().as_bytes())
}

/// The values that are read from a segment, `max` at most: those of the records
/// that end in the sentinel and hold JSON. Reading stops at a record that is cut
/// off or claims an absurd length.
pub open spec fn segment_items(bytes: Seq<u8>, max: nat) -> Seq<JsonView>
    decreases bytes.len(),
{
    let n = be32_value(bytes.take(4));
    if max == 0 || bytes.len() < 4 || n > 16_777_216 || bytes.len() < n + 5 {
        Seq::empty()
    } else {
        let rest = bytes.skip(n + 5);
        match parsed_bytes(bytes.subrange(4, 4 + n)) {
            Some(item) if bytes[4 + n] == 0x0a => seq![item] + segment_items(
                rest,
                (max - 1) as nat,
            ),
            _ => segment_items(rest, max),
        }
    }
}

/// Reads the values of a segment, `max_items` at most.
pub fn read_segment(bytes: &Vec<u8>, max_items: usize) -> (r: Vec<Json>)
    ensures
        list_view(r@) == segment_items(bytes@, max_items as nat),
{
    let mut items: Vec<Json> = Vec::new();
    let total: usize = bytes.len();
    let mut pos: usize = 0;
    assert(bytes@.skip(0) =~= bytes@);
    assert(list_view(items@) + segment_items(bytes@.skip(0), max_items as nat) =~= segment_items(
        bytes@,
        max_items as nat,
    ));
    loop
        invariant_except_break
            total == bytes@.len(),
            0 <= pos <= total,
            items@.len() <= max_items,
            list_view(items@) + segment_items(
                bytes@.skip(pos as int),
                (max_items - items@.len()) as nat,
            ) == segment_items(bytes@, max_items as nat),
        ensures
            list_view(items@) == segment_items(bytes@, max_items as nat),
        decreases total - pos,
    {
        let ghost rest = bytes@.skip(pos as int);
        let ghost room = (max_items - items@.len()) as nat;
        if items.len() >= max_items || total - pos < 4 {
            assert(segment_items(rest, room) =~= Seq::<JsonView>::empty());
            assert(list_view(items@) + segment_items(rest, room) =~= list_view(items@));
            break;
        }
        // Length prefix.
        let payload_len: usize = read_be32(bytes, pos) as usize;
        assert(rest.take(4) =~= bytes@.subrange(pos as int, pos + 4));
        // Reject absurdly large records, and records that were cut off.
        if payload_len > MAX_PAYLOAD || total - pos < payload_len + 5 {
            assert(segment_items(rest, room) =~= Seq::<JsonView>::empty());
            assert(list_view(items@) + segment_items(rest, room) =~= list_view(items@));
            break;
        }
        let next: usize = pos + payload_len + 5;
        let sentinel = bytes[next - 1];
        let payload = slice_to_vec(
            slice_subrange(bytes.as_slice(), pos + 4, pos + 4 + payload_len),
        );
        proof {
            assert(payload@ =~= rest.subrange(4, 4 + payload_len));
            assert(rest.skip(payload_len + 5) =~= bytes@.skip(next as int));
            assert(rest[4 + payload_len] == sentinel);
        }
        if sentinel == SENTINEL {
            if let Some(item) = parse_json_bytes(&payload) {
                let ghost before = items@;
                let ghost found = item@;
                items.push(item);
                proof {
                    assert(items@.drop_last() =~= before);
                    let after = segment_items(bytes@.skip(next as int), (room - 1) as nat);
                    assert(list_view(before) + (seq![found] + after) =~= list_view(before).push(
                        found,
                    ) + after);
                }
            }
        }
        pos = next;
    }
    items
}

// ---------------------------------------------------------------------------
// Laws of records
// ---------------------------------------------------------------------------

/// A payload that is read back: JSON of no absurd length.
pub open spec fn readable(payload: Seq<u8>) -> bool {
    payload.len() <= 16_777_216 && parsed_bytes(payload) is Some
}

/// The values in some payloads.
pub open spec fn items_of(payloads: Seq<Seq<u8>>) -> Seq<JsonView> {
    Seq::new(payloads.len(), |i: int| parsed_bytes(payloads[i])->0)
}

proof fn lemma_record_first(payload: Seq<u8>, rest: Seq<u8>, max: nat)
    requires
        readable(payload),
        max > 0,
    ensures
        segment_items(record(payload) + rest, max) == seq![parsed_bytes(payload)->0]
            + segment_items(rest, (max - 1) as nat),
{
    let n = payload.len() as int;
    let bytes = record(payload) + rest;
    law_be32_round_trip(n as u32);
    assert(bytes.take(4) =~= be32(n as u32));
    assert(bytes.subrange(4, 4 + n) =~= payload);
    assert(bytes.skip(n + 5) =~= rest);
    assert(bytes[4 + n] == 0x0a);
}

proof fn lemma_segment_first(payloads: Seq<Seq<u8>>)
    requires
        payloads.len() > 0,
    ensures
        segment(payloads) == record(payloads[0]) + segment(payloads.drop_first()),
    decreases payloads.len(),
{
    if payloads.len() == 1 {
        assert(payloads.drop_last() =~= Seq::<Seq<u8>>::empty());
        assert(payloads.drop_first() =~= Seq::<Seq<u8>>::empty());
        assert(segment(payloads) =~= record(payloads[0]) + segment(payloads.drop_first()));
    } else {
        lemma_segment_first(payloads.drop_last());
        assert(payloads.drop_last().drop_first() =~= payloads.drop_first().drop_last());
        assert(payloads.drop_first().last() == payloads.last());
        assert(segment(payloads) =~= record(payloads[0]) + segment(payloads.drop_first()));
    }
}

/// What was written to a segment is read back in the order of writing, up to the
/// number asked for; what stands after it is read on.
pub proof fn law_segment_round_trip(payloads: Seq<Seq<u8>>, after: Seq<u8>, max: nat)
    requires
        forall|i: int| 0 <= i < payloads.len() ==> readable(#[trigger] payloads[i]),
    ensures
        max <= payloads.len() ==> segment_items(segment(payloads) + after, max) == items_of(
            payloads,
        ).take(max as int),
        max >= payloads.len() ==> segment_items(segment(payloads) + after, max) == items_of(
            payloads,
        ) + segment_items(after, (max - payloads.len()) as nat),
    decreases payloads.len(),
{
    let all = items_of(payloads);
    if payloads.len() == 0 {
        assert(segment(payloads) + after =~= after);
        assert(all + segment_items(after, max) =~= segment_items(after, max));
        assert(max == 0 ==> segment_items(after, max) =~= all.take(0));
    } else if max == 0 {
        assert(all.take(0) =~= Seq::<JsonView>::empty());
    } else {
        let first = payloads[0];
        let others = payloads.drop_first();
        assert forall|i: int| 0 <= i < others.len() implies readable(#[trigger] others[i]) by {
            assert(others[i] == payloads[i + 1]);
        }
        lemma_segment_first(payloads);
        assert(segment(payloads) + after =~= record(first) + (segment(others) + after));
        assert(readable(first));
        lemma_record_first(first, segment(others) + after, max);
        law_segment_round_trip(others, after, (max - 1) as nat);
        assert(all =~= seq![parsed_bytes(first)->0] + items_of(others));
        if max <= payloads.len() {
            assert(seq![all[0]] + items_of(others).take(max - 1) =~= all.take(max as int));
        }
        if max >= payloads.len() {
            let tail = segment_items(after, (max - payloads.len()) as nat);
            assert(seq![all[0]] + (items_of(others) + tail) =~= all + tail);
        }
    }
}

/// Values that are read back from their payloads one by one are read back from
/// the segment that they were appended to, in order.
pub proof fn law_written_items_are_read(items: Seq<JsonView>, max: nat)
    requires
        forall|i: int|
            0 <= i < items.len() ==> payload_of(#[trigger] items[i]).len() <= 16_777_216
                && parsed_bytes(payload_of(items[i])) == Some(items[i]),
        max >= items.len(),
    ensures
        segment_items(segment(items.map_values(|v: JsonView| payload_of(v))), max) == items,
{
    let payloads = items.map_values(|v: JsonView| payload_of(v));
    assert forall|i: int| 0 <= i < payloads.len() implies readable(#[trigger] payloads[i]) by {
        assert(payloads[i] == payload_of(items[i]));
    }
    law_segment_round_trip(payloads, Seq::empty(), max);
    assert(segment(payloads) + Seq::<u8>::empty() =~= segment(payloads));
    assert(items_of(payloads) =~= items);
    let room = (max - payloads.len()) as nat;
    assert(segment_items(Seq::<u8>::empty(), room) =~= Seq::<JsonView>::empty());
    assert(items_of(payloads) + segment_items(Seq::<u8>::empty(), room) =~= items);
}

proof fn lemma_torn_record(torn: Seq<u8>, written: int, max: nat)
    requires
        0 <= written < record(torn).len(),
        torn.len() <= 16_777_216,
    ensures
        segment_items(record(torn).take(written), max) == Seq::<JsonView>::empty(),
{
    let rest = record(torn).take(written);
    assert(rest.len() == written < torn.len() + 5);
    if written >= 4 {
        law_be32_round_trip(torn.len() as u32);
        assert(rest.take(4) =~= be32(torn.len() as u32));
        assert(be32_value(rest.take(4)) == torn.len());
    }
}

/// A record that was cut off, as by a crash in the middle of writing, takes
/// nothing away: the records before it are read, and it is not.
pub proof fn law_torn_record_is_discarded(
    payloads: Seq<Seq<u8>>,
    torn: Seq<u8>,
    written: int,
    max: nat,
)
    requires
        forall|i: int| 0 <= i < payloads.len() ==> readable(#[trigger] payloads[i]),
        0 <= written < record(torn).len(),
        torn.len() <= 16_777_216,
        max >= payloads.len(),
    ensures
        segment_items(segment(payloads) + record(torn).take(written), max) == items_of(payloads),
{
    let rest = record(torn).take(written);
    law_segment_round_trip(payloads, rest, max);
    let room = (max - payloads.len()) as nat;
    lemma_torn_record(torn, written, room);
    assert(items_of(payloads) + segment_items(rest, room) =~= items_of(payloads));
}

/// A record whose last byte is not the sentinel, or whose payload is no JSON, is
/// passed over; what stands after it is read.
pub proof fn law_corrupt_record_is_skipped(payload: Seq<u8>, last: u8, rest: Seq<u8>, max: nat)
    requires
        payload.len() <= 16_777_216,
        last != 0x0a || parsed_bytes(payload) is None,
    ensures
        segment_items(be32(payload.len() as u32) + payload + seq![last] + rest, max)
            == segment_items(rest, max),
{
    let n = payload.len() as int;
    let bytes = be32(n as u32) + payload + seq![last] + rest;
    law_be32_round_trip(n as u32);
    assert(bytes.take(4) =~= be32(n as u32));
    assert(bytes.subrange(4, 4 + n) =~= payload);
    assert(bytes.skip(n + 5) =~= rest);
    assert(bytes[4 + n] == last);
}

// ---------------------------------------------------------------------------
// Segment files
// ---------------------------------------------------------------------------

/// A file in the buffer's directory.
#[derive(Debug)]
pub struct SegmentFile {
    pub name: String,
    pub size: u64,
}

pub struct SegmentView {
    pub name: Seq<char>,
    pub size: u64,
}

impl SegmentFile {
    pub open spec fn view(self) -> SegmentView {
        SegmentView { name: self.name@, size: self.size }
    }
}

/// The files of a list.
pub open spec fn files(list: Seq<SegmentFile>) -> Seq<SegmentView> {
    Seq::new(list.len(), |i: int| list[i].view())
}

/// The name of the segment that is begun at a time, in milliseconds since the
/// epoch.
pub open spec fn segment_name(millis: u64) -> Seq<char> {
    "buffer-"@ + decimal_text(millis as int) + ".wal"@
}

/// A name with the extension `wal`, and with something before it.
pub open spec fn is_segment_name(name: Seq<char>) -> bool {
    name.len() > 4 && name.skip(name.len() - 4) == ".wal"@
}

/// The order of file names: the first character that differs decides, and a name
/// comes after its own beginning.
pub open spec fn name_before(a: Seq<char>, b: Seq<char>) -> bool {
    exists|k: int| #[trigger] differs_at(a, b, k)
}

/// The names agree up to `k`, where the first ends or has the lesser character.
pub open spec fn differs_at(a: Seq<char>, b: Seq<char>, k: int) -> bool {
    &&& 0 <= k <= a.len()
    &&& k < b.len()
    &&& a.take(k) == b.take(k)
    &&& (k == a.len() || (a[k] as u32) < (b[k] as u32))
}

/// No file comes before one that stands earlier in the list.
pub open spec fn in_name_order(list: Seq<SegmentView>) -> bool {
    forall|i: int, j: int|
        0 <= i < j < list.len() ==> !name_before(
            (#[trigger] list[j]).name,
            (#[trigger] list[i]).name,
        )
}

/// The sizes of the files of a list together.
pub open spec fn total_size(list: Seq<SegmentView>) -> int
    decreases list.len(),
{
    if list.len() == 0 {
        0
    } else {
        total_size(list.drop_last()) + list.last().size
    }
}

proof fn lemma_name_before_transitive(a: Seq<char>, b: Seq<char>, c: Seq<char>)
    requires
        name_before(a, b),
        name_before(b, c),
    ensures
        name_before(a, c),
{
    let i = choose|k: int| #[trigger] differs_at(a, b, k);
    let j = choose|k: int| #[trigger] differs_at(b, c, k);
    let k = if i <= j {
        i
    } else {
        j
    };
    assert(a.take(k) =~= a.take(i).take(k));
    assert(b.take(k) =~= b.take(i).take(k));
    assert(b.take(k) =~= b.take(j).take(k));
    assert(c.take(k) =~= c.take(j).take(k));
    if i < j {
        assert(b[i] == b.take(j)[i] && c[i] == c.take(j)[i]);
    }
    if j < i {
        assert(a[j] == a.take(i)[j] && b[j] == b.take(i)[j]);
    }
    assert(differs_at(a, c, k));
}

fn comes_before(a: &str, b: &str) -> (r: bool)
    ensures
        r == name_before(a@, b@),
{
    let x = chars_of(a);
    let y = chars_of(b);
    let mut i: usize = 0;
    while i < x.len() && i < y.len() && x[i] == y[i]
        invariant
            0 <= i <= x@.len(),
            i <= y@.len(),
            x@ == a@,
            y@ == b@,
            a@.take(i as int) == b@.take(i as int),
        decreases x@.len() - i,
    {
        assert(a@.take(i + 1) =~= a@.take(i as int).push(a@[i as int]));
        assert(b@.take(i + 1) =~= b@.take(i as int).push(b@[i as int]));
        i = i + 1;
    }
    let r = i < y.len() && (i == x.len() || (x[i] as u32) < (y[i] as u32));
    proof {
        if r {
            assert(differs_at(a@, b@, i as int));
        } else {
            assert forall|k: int| !#[trigger] differs_at(a@, b@, k) by {
                if differs_at(a@, b@, k) {
                    if k < i {
                        assert(a@[k] == a@.take(i as int)[k]);
                        assert(b@[k] == b@.take(i as int)[k]);
                    } else if k > i {
                        assert(a@[i as int] == a@.take(k)[i as int]);
                        assert(b@[i as int] == b@.take(k)[i as int]);
                    }
                }
            }
        }
    }
    r
}

fn has_segment_name(name: &str) -> (r: bool)
    ensures
        r == is_segment_name(name@),
{
    let chars = chars_of(name);
    let n: usize = chars.len();
    proof {
        reveal_strlit(".wal");
        if n > 4 {
            assert(name@.skip(n - 4) =~= ".wal"@ <==> (name@[n - 4] == '.' && name@[n - 3] == 'w'
                && name@[n - 2] == 'a' && name@[n - 1] == 'l')) by {
                let tail = name@.skip(n - 4);
                assert(tail.len() == 4);
                assert(tail[0] == name@[n - 4] && tail[1] == name@[n - 3] && tail[2] == name@[n - 2]
                    && tail[3] == name@[n - 1]);
            }
        }
    }
    n > 4 && chars[n - 4] == '.' && chars[n - 3] == 'w' && chars[n - 2] == 'a' && chars[n - 1]
        == 'l'
}

/// The segments among the files of a directory, in the order of their names.
pub fn sorted_segments(entries: Vec<SegmentFile>) -> (r: Vec<SegmentFile>)
    ensures
        in_name_order(files(r@)),
        files(r@).to_multiset() == files(entries@).filter(
            |f: SegmentView| is_segment_name(f.name),
        ).to_multiset(),
{
    broadcast use group_to_multiset_ensures;

    let ghost wanted = |f: SegmentView| is_segment_name(f.name);
    let ghost all = files(entries@);
    let mut rest = entries;
    let mut sorted: Vec<SegmentFile> = Vec::new();
    proof {
        reveal(Seq::filter);
        assert(files(sorted@) =~= Seq::<SegmentView>::empty());
        assert(files(sorted@).to_multiset() =~= Multiset::<SegmentView>::empty());
        assert(all.filter(wanted).to_multiset().add(files(sorted@).to_multiset()) =~= all.filter(
            wanted,
        ).to_multiset());
    }
    while rest.len() > 0
        invariant
            wanted == (|f: SegmentView| is_segment_name(f.name)),
            in_name_order(files(sorted@)),
            files(rest@).filter(wanted).to_multiset().add(files(sorted@).to_multiset())
                == all.filter(wanted).to_multiset(),
        decreases rest@.len(),
    {
        let ghost before = files(rest@);
        let at: usize = rest.len() - 1;
        let file = rest.remove(at);
        proof {
            reveal(Seq::filter);
            assert(before.drop_last() =~= files(rest@));
            assert(before.last() == file.view());
        }
        if has_segment_name(file.name.as_str()) {
            insert_by_name(&mut sorted, file);
            proof {
                let kept = files(rest@).filter(wanted);
                assert(before.filter(wanted) == kept.push(file.view()));
                kept.to_multiset_ensures();
                assert(kept.push(file.view()).to_multiset() =~= kept.to_multiset().insert(
                    file.view(),
                ));
            }
        }
        assert(files(rest@).filter(wanted).to_multiset().add(files(sorted@).to_multiset())
            =~= all.filter(wanted).to_multiset());
    }
    proof {
        reveal(Seq::filter);
        assert(files(rest@) =~= Seq::<SegmentView>::empty());
        assert(files(rest@).filter(wanted).to_multiset().add(files(sorted@).to_multiset())
            =~= files(sorted@).to_multiset());
    }
    sorted
}

/// Puts a file where it belongs in the order of names.
fn insert_by_name(sorted: &mut Vec<SegmentFile>, file: SegmentFile)
    requires
        in_name_order(files(old(sorted)@)),
    ensures
        in_name_order(files(final(sorted)@)),
        files(final(sorted)@).to_multiset() == files(old(sorted)@).to_multiset().insert(
            file.view(),
        ),
{
    broadcast use group_to_multiset_ensures;

    let ghost before = files(sorted@);
    let mut at: usize = 0;
    while at < sorted.len() && !comes_before(file.name.as_str(), sorted[at].name.as_str())
        invariant
            0 <= at <= sorted@.len(),
            before == files(sorted@),
            forall|i: int|
                0 <= i < at ==> !name_before(file.name@, (#[trigger] before[i]).name),
        decreases sorted@.len() - at,
    {
        at = at + 1;
    }
    sorted.insert(at, file);
    proof {
        let after = files(sorted@);
        assert(after =~= before.insert(at as int, file.view()));
        assert(after.remove(at as int) =~= before);
        assert(after[at as int] == file.view());
        assert(after.to_multiset() =~= before.to_multiset().insert(file.view()));
        assert forall|i: int, j: int| 0 <= i < j < after.len() implies !name_before(
            (#[trigger] after[j]).name,
            (#[trigger] after[i]).name,
        ) by {
            if j == at {
                assert(after[i] == before[i]);
            } else if i == at {
                assert(after[j] == before[j - 1]);
                if name_before(before[j - 1].name, file.name@) {
                    let next = before[at as int].name;
                    lemma_name_before_transitive(before[j - 1].name, file.name@, next);
                    if j - 1 == at {
                        let k = choose|k: int| #[trigger] differs_at(next, next, k);
                        assert(differs_at(next, next, k));
                    }
                }
            } else {
                assert(after[j] == before[if j > at { j - 1 } else { j }]);
                assert(after[i] == before[if i > at { i - 1 } else { i }]);
            }
        }
    }
}

proof fn lemma_name_before_tail(a: Seq<char>, b: Seq<char>, more_a: Seq<char>, more_b: Seq<char>)
    requires
        name_before(a, b),
        a.len() == b.len(),
    ensures
        name_before(a + more_a, b + more_b),
{
    let k = choose|k: int| #[trigger] differs_at(a, b, k);
    assert((a + more_a).take(k) =~= a.take(k));
    assert((b + more_b).take(k) =~= b.take(k));
    assert(differs_at(a + more_a, b + more_b, k));
}

proof fn lemma_numerals_in_order(a: int, b: int)
    requires
        0 <= a < b,
        decimal_text(a).len() == decimal_text(b).len(),
    ensures
        name_before(decimal_text(a), decimal_text(b)),
    decreases b,
{
    let x = decimal_text(a);
    let y = decimal_text(b);
    if b < 10 {
        assert(x.take(0) =~= y.take(0));
        assert(differs_at(x, y, 0));
    } else {
        let n = x.len() - 1;
        if a < 10 {
            lemma_decimal_text(b / 10);
            assert(false);
        }
        assert(x =~= decimal_text(a / 10) + seq![x[n]]);
        assert(y =~= decimal_text(b / 10) + seq![y[n]]);
        if a / 10 < b / 10 {
            lemma_numerals_in_order(a / 10, b / 10);
            lemma_name_before_tail(
                decimal_text(a / 10),
                decimal_text(b / 10),
                seq![x[n]],
                seq![y[n]],
            );
        } else {
            assert(x.take(n) =~= decimal_text(a / 10));
            assert(y.take(n) =~= decimal_text(b / 10));
            assert(differs_at(x, y, n));
        }
    }
}

/// Segments come in the order in which they were begun, as long as their times
/// have equally many digits.
pub proof fn law_segment_names_follow_time(earlier: u64, later: u64)
    requires
        earlier < later,
        decimal_text(earlier as int).len() == decimal_text(later as int).len(),
    ensures
        name_before(segment_name(earlier), segment_name(later)),
{
    let x = decimal_text(earlier as int);
    let y = decimal_text(later as int);
    let head = "buffer-"@;
    lemma_numerals_in_order(earlier as int, later as int);
    let k = choose|k: int| #[trigger] differs_at(x, y, k);
    assert((head + x).take(head.len() + k) =~= head + x.take(k));
    assert((head + y).take(head.len() + k) =~= head + y.take(k));
    assert(differs_at(head + x, head + y, head.len() + k));
    lemma_name_before_tail(head + x, head + y, ".wal"@, ".wal"@);
}

/// The name of a segment is one that is listed.
pub proof fn law_segment_name_is_listed(millis: u64)
    ensures
        is_segment_name(segment_name(millis)),
{
    let name = segment_name(millis);
    lemma_decimal_text(millis as int);
    reveal_strlit(".wal");
    assert(name.skip(name.len() - 4) =~= ".wal"@);
}

// ---------------------------------------------------------------------------
// Bookkeeping
// ---------------------------------------------------------------------------

/// The segment that is being written.
#[derive(Debug)]
pub struct SegmentWriter {
    pub name: String,
    pub size: u64,
}

/// The sizes of the buffer and of the segment that is being written.
#[derive(Debug)]
pub struct WalBuffer {
    pub max_bytes: u64,
    pub segment_max_bytes: u64,
    pub current_segment: Option<SegmentWriter>,
    pub total_bytes: u64,
}

pub struct WalView {
    pub max_bytes: u64,
    pub segment_max_bytes: u64,
    pub current_segment: Option<SegmentView>,
    pub total_bytes: u64,
}

/// How far the writing of a record has come: whether room is still being made,
/// or a segment was begun for the record.
#[derive(Clone, Copy, PartialEq, Eq, Structural, Debug)]
pub enum WritePhase {
    MakeRoom,
    Placed,
}

/// What is to be done next to write a batch: delete the segment at this place of
/// the listing, begin a new segment, append the next record to the current one,
/// or nothing more.
#[derive(Clone, Copy, PartialEq, Eq, Structural, Debug)]
pub enum WriteStep {
    Evict(usize),
    Rotate,
    Append,
    Done,
}

/// A batch on its way to the buffer.
#[derive(Debug)]
pub struct BatchWriter {
    pub records: Vec<Vec<u8>>,
    /// How many of the records were written.
    pub written: usize,
    pub phase: WritePhase,
}

pub struct BatchView {
    pub records: Seq<Seq<u8>>,
    pub written: int,
    pub phase: WritePhase,
}

/// The bytes of a list of byte strings.
pub open spec fn byte_lists(list: Seq<Vec<u8>>) -> Seq<Seq<u8>> {
    Seq::new(list.len(), |i: int| list[i]@)
}

impl BatchWriter {
    pub open spec fn view(self) -> BatchView {
        BatchView {
            records: byte_lists(self.records@),
            written: self.written as int,
            phase: self.phase,
        }
    }

    pub open spec fn wf(self) -> bool {
        self.written <= self.records@.len()
    }

    /// The batch of some values, of which none was written yet. A plain value is
    /// read back from its payload.
    pub fn new(items: &Vec<Json>) -> (r: Self)
        ensures
            r.wf(),
            r@.written == 0,
            r@.phase == WritePhase::MakeRoom,
            r@.records == list_view(items@).map_values(|v: JsonView| record(payload_of(v))),
            forall|i: int|
                0 <= i < items@.len() && plain((#[trigger] items@[i])@) ==> parsed_bytes(
                    payload_of(items@[i]@),
                ) == Some(items@[i]@),
    {
        let mut records: Vec<Vec<u8>> = Vec::new();
        let mut i: usize = 0;
        while i < items.len()
            invariant
                0 <= i <= items@.len(),
                records@.len() == i,
                forall|j: int|
                    0 <= j < i ==> (#[trigger] records@[j])@ == record(payload_of(items@[j]@)),
                forall|j: int|
                    0 <= j < i && plain((#[trigger] items@[j])@) ==> parsed_bytes(
                        payload_of(items@[j]@),
                    ) == Some(items@[j]@),
            decreases items@.len() - i,
        {
            records.push(encode_item(&items[i]));
            i = i + 1;
        }
        proof {
            lemma_list_view(items@);
            assert(byte_lists(records@) =~= list_view(items@).map_values(
                |v: JsonView| record(payload_of(v)),
            ));
        }
        BatchWriter { records, written: 0, phase: WritePhase::MakeRoom }
    }
}

/// Whether a file is the segment that is being written.
pub open spec fn is_current(wal: WalView, file: SegmentView) -> bool {
    wal.current_segment matches Some(s) && s.name == file.name
}

/// The place of the first completed segment, at or after a place in the list.
pub open spec fn first_completed(wal: WalView, list: Seq<SegmentView>, from: int) -> Option<int>
    decreases list.len() - from,
{
    if from < 0 || from >= list.len() {
        None
    } else if !is_current(wal, list[from]) {
        Some(from)
    } else {
        first_completed(wal, list, from + 1)
    }
}

/// The next step in writing a record of a size: the oldest completed segments
/// leave while the buffer is over its budget, and a new segment is begun where
/// the current one is full or absent.
pub open spec fn next_step(
    wal: WalView,
    phase: WritePhase,
    list: Seq<SegmentView>,
    size: u64,
) -> WriteStep {
    if phase == WritePhase::Placed {
        WriteStep::Append
    } else {
        match first_completed(wal, list, 0) {
            Some(i) if wal.total_bytes + size > wal.max_bytes => WriteStep::Evict(i as usize),
            _ => match wal.current_segment {
                Some(s) if s.size + size <= wal.segment_max_bytes => WriteStep::Append,
                _ => WriteStep::Rotate,
            },
        }
    }
}

/// The buffer over the segments that are there already.
pub open spec fn opened(list: Seq<SegmentView>, max_bytes: u64, segment_max_bytes: u64) -> WalView {
    WalView {
        max_bytes,
        segment_max_bytes,
        current_segment: None,
        total_bytes: total_size(list) as u64,
    }
}

/// The next step in writing a batch.
pub open spec fn batch_step(wal: WalView, batch: BatchView, list: Seq<SegmentView>) -> WriteStep {
    if batch.written >= batch.records.len() {
        WriteStep::Done
    } else {
        next_step(wal, batch.phase, list, batch.records[batch.written].len() as u64)
    }
}

/// The buffer after a segment of a size was deleted.
pub open spec fn after_delete(wal: WalView, size: u64) -> WalView {
    WalView {
        total_bytes: if wal.total_bytes >= size {
            (wal.total_bytes - size) as u64
        } else {
            0
        },
        ..wal
    }
}

/// The buffer after a record of a size was appended to the current segment.
pub open spec fn after_append(wal: WalView, size: u64) -> WalView {
    WalView {
        current_segment: match wal.current_segment {
            Some(s) => Some(SegmentView { name: s.name, size: (s.size + size) as u64 }),
            None => None,
        },
        total_bytes: (wal.total_bytes + size) as u64,
        ..wal
    }
}

proof fn lemma_total_size_grows(list: Seq<SegmentView>, n: int)
    requires
        0 <= n <= list.len(),
    ensures
        0 <= total_size(list.take(n)) <= total_size(list),
    decreases list.len(),
{
    if n == list.len() {
        assert(list.take(n) =~= list);
        if n > 0 {
            lemma_total_size_grows(list.drop_last(), n - 1);
        }
    } else {
        lemma_total_size_grows(list.drop_last(), n);
        assert(list.drop_last().take(n) =~= list.take(n));
    }
}

impl WalBuffer {
    pub open spec fn view(self) -> WalView {
        WalView {
            max_bytes: self.max_bytes,
            segment_max_bytes: self.segment_max_bytes,
            current_segment: match self.current_segment {
                Some(s) => Some(SegmentView { name: s.name@, size: s.size }),
                None => None,
            },
            total_bytes: self.total_bytes,
        }
    }

    /// The buffer over the segments that are there already.
    pub fn open(segments: &Vec<SegmentFile>, max_bytes: u64, segment_max_bytes: u64) -> (r: Self)
        requires
            total_size(files(segments@)) <= u64::MAX,
        ensures
            r@ == opened(files(segments@), max_bytes, segment_max_bytes),
    {
        let ghost list = files(segments@);
        let mut total_bytes: u64 = 0;
        let mut i: usize = 0;
        while i < segments.len()
            invariant
                0 <= i <= segments@.len(),
                list == files(segments@),
                total_size(list) <= u64::MAX,
                total_bytes == total_size(list.take(i as int)),
            decreases segments@.len() - i,
        {
            proof {
                lemma_total_size_grows(list, i + 1);
                assert(list.take(i + 1).drop_last() =~= list.take(i as int));
            }
            total_bytes = total_bytes + segments[i].size;
            i = i + 1;
        }
        assert(list.take(i as int) =~= list);
        WalBuffer { max_bytes, segment_max_bytes, current_segment: None, total_bytes }
    }

    /// The place of the oldest segment that is not being written.
    pub fn oldest_completed(&self, segments: &Vec<SegmentFile>) -> (r: Option<usize>)
        ensures
            match r {
                Some(i) => first_completed(self@, files(segments@), 0) == Some(i as int) && i
                    < segments@.len(),
                None => first_completed(self@, files(segments@), 0) is None,
            },
    {
        let mut i: usize = 0;
        while i < segments.len()
            invariant
                0 <= i <= segments@.len(),
                first_completed(self@, files(segments@), 0) == first_completed(
                    self@,
                    files(segments@),
                    i as int,
                ),
            decreases segments@.len() - i,
        {
            assert(files(segments@)[i as int] == segments@[i as int].view());
            let current = match &self.current_segment {
                Some(s) => same_text(s.name.as_str(), segments[i].name.as_str()),
                None => false,
            };
            if !current {
                return Some(i);
            }
            i = i + 1;
        }
        None
    }

    /// Whether there are completed segments waiting to be drained.
    pub fn has_pending(&self, segments: &Vec<SegmentFile>) -> (r: bool)
        ensures
            r == exists|i: int|
                0 <= i < segments@.len() && !is_current(
                    self@,
                    (#[trigger] segments@[i]).view(),
                ),
    {
        proof {
            lemma_first_completed(self@, files(segments@), 0);
        }
        match self.oldest_completed(segments) {
            Some(i) => {
                assert(files(segments@)[i as int] == segments@[i as int].view());
                true
            },
            None => {
                assert forall|i: int| 0 <= i < segments@.len() implies is_current(
                    self@,
                    (#[trigger] segments@[i]).view(),
                ) by {
                    assert(files(segments@)[i] == segments@[i].view());
                }
                false
            },
        }
    }

    /// What is to be done next to persist a batch.
    pub fn write_batch(&self, batch: &BatchWriter, segments: &Vec<SegmentFile>) -> (r: WriteStep)
        requires
            batch.wf(),
        ensures
            r == batch_step(self@, batch@, files(segments@)),
            r matches WriteStep::Evict(i) ==> i < segments@.len(),
            r == WriteStep::Append && batch.phase == WritePhase::MakeRoom
                ==> self.current_segment is Some,
    {
        if batch.written >= batch.records.len() {
            return WriteStep::Done;
        }
        let record = &batch.records[batch.written];
        assert(batch@.records[batch@.written] == record@);
        self.write_step(batch.phase, segments, record.len() as u64)
    }

    /// What is to be done next to write a record of a size.
    fn write_step(
        &self,
        phase: WritePhase,
        segments: &Vec<SegmentFile>,
        size: u64,
    ) -> (r: WriteStep)
        ensures
            r == next_step(self@, phase, files(segments@), size),
            r matches WriteStep::Evict(i) ==> i < segments@.len(),
            r == WriteStep::Append && phase == WritePhase::MakeRoom
                ==> self.current_segment is Some,
    {
        if phase == WritePhase::Placed {
            return WriteStep::Append;
        }
        // Evict oldest segments if over budget.
        if self.total_bytes as u128 + size as u128 > self.max_bytes as u128 {
            if let Some(i) = self.oldest_completed(segments) {
                return WriteStep::Evict(i);
            }
        }
        // Rotate segment if current is full or absent.
        match &self.current_segment {
            Some(s) if s.size as u128 + size as u128 <= self.segment_max_bytes as u128 => {
                WriteStep::Append
            },
            _ => WriteStep::Rotate,
        }
    }

    /// Takes a deleted segment off the buffer's size.
    pub fn delete_segment(&mut self, size: u64)
        ensures
            final(self)@ == after_delete(old(self)@, size),
    {
        if self.total_bytes >= size {
            self.total_bytes = self.total_bytes - size;
        } else {
            self.total_bytes = 0;
        }
    }

    /// Closes the current segment, which is then completed.
    pub fn seal(&mut self)
        ensures
            final(self)@ == (WalView { current_segment: None, ..old(self)@ }),
    {
        self.current_segment = None;
    }

    /// Closes the current segment and names the one that takes its place.
    pub fn close_segment(&mut self, millis: u64) -> (r: String)
        ensures
            r@ == segment_name(millis),
            final(self)@ == (WalView { current_segment: None, ..old(self)@ }),
    {
        self.current_segment = None;
        let mut name = "buffer-".to_owned();
        push_decimal(&mut name, millis);
        name.append(".wal");
        name
    }

    /// Makes a segment that was opened for the next record the current one.
    pub fn begin_segment(&mut self, name: String, batch: &mut BatchWriter)
        ensures
            final(self)@ == (WalView {
                current_segment: Some(SegmentView { name: name@, size: 0 }),
                ..old(self)@
            }),
            final(batch)@ == (BatchView { phase: WritePhase::Placed, ..old(batch)@ }),
            old(batch).wf() ==> final(batch).wf(),
    {
        self.current_segment = Some(SegmentWriter { name, size: 0 });
        batch.phase = WritePhase::Placed;
    }

    /// Adds the next record, which was appended to the current segment.
    pub fn append_record(&mut self, batch: &mut BatchWriter)
        requires
            old(batch).written < old(batch).records@.len(),
            old(self).current_segment matches Some(s) ==> s.size
                + old(batch)@.records[old(batch)@.written].len() <= u64::MAX,
            old(self).total_bytes + old(batch)@.records[old(batch)@.written].len() <= u64::MAX,
        ensures
            final(self)@ == after_append(
                old(self)@,
                old(batch)@.records[old(batch)@.written].len() as u64,
            ),
            final(batch)@ == (BatchView {
                written: old(batch)@.written + 1,
                phase: WritePhase::MakeRoom,
                ..old(batch)@
            }),
            final(batch).wf(),
    {
        assert(batch@.records[batch@.written] == batch.records@[batch.written as int]@);
        let size: u64 = batch.records[batch.written].len() as u64;
        assert(batch.written < batch.records.len());
        if let Some(s) = &mut self.current_segment {
            s.size = s.size + size;
        }
        self.total_bytes = self.total_bytes + size;
        batch.written = batch.written + 1;
        batch.phase = WritePhase::MakeRoom;
    }
}

// ---------------------------------------------------------------------------
// Laws of the bookkeeping
// ---------------------------------------------------------------------------

proof fn lemma_first_completed(wal: WalView, list: Seq<SegmentView>, from: int)
    requires
        0 <= from,
    ensures
        match first_completed(wal, list, from) {
            Some(i) => from <= i < list.len() && !is_current(wal, list[i]) && forall|j: int|
                from <= j < i ==> is_current(wal, #[trigger] list[j]),
            None => forall|j: int| from <= j < list.len() ==> is_current(wal, #[trigger] list[j]),
        },
    decreases list.len() - from,
{
    if from < list.len() && is_current(wal, list[from]) {
        lemma_first_completed(wal, list, from + 1);
    }
}

/// Where the listing is in order, the segment that is drained or evicted is the
/// oldest: no completed segment comes before it. The one that is being written
/// is never taken.
pub proof fn law_oldest_completed_goes_first(wal: WalView, list: Seq<SegmentView>)
    requires
        in_name_order(list),
    ensures
        first_completed(wal, list, 0) matches Some(i) ==> {
            &&& 0 <= i < list.len()
            &&& !is_current(wal, list[i])
            &&& forall|j: int|
                0 <= j < list.len() && j != i && !is_current(wal, #[trigger] list[j])
                    ==> !name_before(list[j].name, list[i].name)
        },
{
    lemma_first_completed(wal, list, 0);
}

/// A record is written only within the budget, or when no completed segment is
/// left to be evicted for it.
pub proof fn law_writing_keeps_to_the_budget(wal: WalView, list: Seq<SegmentView>, size: u64)
    requires
        !(next_step(wal, WritePhase::MakeRoom, list, size) is Evict),
    ensures
        wal.total_bytes + size <= wal.max_bytes || forall|i: int|
            0 <= i < list.len() ==> is_current(wal, #[trigger] list[i]),
{
    lemma_first_completed(wal, list, 0);
}

proof fn lemma_total_size_remove(list: Seq<SegmentView>, at: int)
    requires
        0 <= at < list.len(),
    ensures
        total_size(list.remove(at)) == total_size(list) - list[at].size,
        total_size(list.remove(at)) >= 0,
    decreases list.len(),
{
    lemma_total_size_grows(list.remove(at), 0);
    if at == list.len() - 1 {
        assert(list.remove(at) =~= list.drop_last());
    } else {
        lemma_total_size_remove(list.drop_last(), at);
        assert(list.remove(at).drop_last() =~= list.drop_last().remove(at));
    }
}

/// The buffer's size stays the size of its segments when one of them is deleted.
pub proof fn law_total_follows_deletion(wal: WalView, list: Seq<SegmentView>, at: int)
    requires
        wal.total_bytes == total_size(list),
        0 <= at < list.len(),
    ensures
        after_delete(wal, list[at].size).total_bytes == total_size(list.remove(at)),
{
    lemma_total_size_remove(list, at);
}

/// The buffer's size stays the size of its segments when a record is appended to
/// one of them.
pub proof fn law_total_follows_append(wal: WalView, list: Seq<SegmentView>, at: int, size: u64)
    requires
        wal.total_bytes == total_size(list),
        0 <= at < list.len(),
        wal.total_bytes + size <= u64::MAX,
        list[at].size + size <= u64::MAX,
    ensures
        after_append(wal, size).total_bytes == total_size(
            list.update(
                at,
                SegmentView { name: list[at].name, size: (list[at].size + size) as u64 },
            ),
        ),
{
    let grown = SegmentView { name: list[at].name, size: (list[at].size + size) as u64 };
    let after = list.update(at, grown);
    lemma_total_size_remove(list, at);
    lemma_total_size_remove(after, at);
    assert(after.remove(at) =~= list.remove(at));
}

// ---------------------------------------------------------------------------
// The order of draining
// ---------------------------------------------------------------------------

/// How much of a batch is still to be done: the records, whether a segment was
/// begun for the next one, and the segments that may yet be evicted.
pub open spec fn steps_left(batch: BatchView, list: Seq<SegmentView>) -> (int, int, int) {
    (
        batch.records.len() - batch.written,
        if batch.phase == WritePhase::MakeRoom {
            1
        } else {
            0
        },
        list.len() as int,
    )
}

/// Less is still to be done: fewer records, or no segment more to begin, or
/// fewer segments.
pub open spec fn fewer_steps(a: (int, int, int), b: (int, int, int)) -> bool {
    a.0 < b.0 || (a.0 == b.0 && (a.1 < b.1 || (a.1 == b.1 && a.2 < b.2)))
}

/// Writing a batch comes to an end: each step lessens what is still to be done,
/// whatever segments there are after it, and the batch is done when every record
/// was appended.
pub proof fn law_batch_comes_to_an_end(
    wal: WalView,
    batch: BatchView,
    list: Seq<SegmentView>,
    later: Seq<SegmentView>,
)
    requires
        0 <= batch.written <= batch.records.len(),
        list.len() <= usize::MAX,
    ensures
        match batch_step(wal, batch, list) {
            WriteStep::Evict(i) => fewer_steps(
                steps_left(batch, list.remove(i as int)),
                steps_left(batch, list),
            ),
            WriteStep::Rotate => fewer_steps(
                steps_left(BatchView { phase: WritePhase::Placed, ..batch }, later),
                steps_left(batch, list),
            ),
            WriteStep::Append => fewer_steps(
                steps_left(
                    BatchView {
                        written: batch.written + 1,
                        phase: WritePhase::MakeRoom,
                        ..batch
                    },
                    later,
                ),
                steps_left(batch, list),
            ),
            WriteStep::Done => batch.written == batch.records.len(),
        },
{
    lemma_first_completed(wal, list, 0);
}

/// A segment on disk.
pub struct DiskFile {
    pub name: Seq<char>,
    pub bytes: Seq<u8>,
}

/// The listing of the segments on disk.
pub open spec fn listing(disk: Seq<DiskFile>) -> Seq<SegmentView> {
    Seq::new(
        disk.len(),
        |i: int| SegmentView { name: disk[i].name, size: disk[i].bytes.len() as u64 },
    )
}

/// All the values of a segment.
pub open spec fn file_items(bytes: Seq<u8>) -> Seq<JsonView> {
    segment_items(bytes, bytes.len())
}

/// The values on disk in the order in which they are drained, segment by
/// segment.
pub open spec fn drained(disk: Seq<DiskFile>) -> Seq<JsonView>
    decreases disk.len(),
{
    if disk.len() == 0 {
        Seq::empty()
    } else {
        drained(disk.drop_last()) + file_items(disk.last().bytes)
    }
}

/// The segments once a record was appended to the last of them, which is the
/// one that is being written.
pub open spec fn appended(disk: Seq<DiskFile>, record: Seq<u8>) -> Seq<DiskFile> {
    disk.drop_last().push(
        DiskFile { name: disk.last().name, bytes: disk.last().bytes + record },
    )
}

/// The buffer and the segments once a batch was written, step by step. `clock`
/// says when a segment is begun for a record; time goes on, so a new segment
/// comes last.
pub open spec fn batch_written(
    wal: WalView,
    batch: BatchView,
    disk: Seq<DiskFile>,
    clock: spec_fn(int) -> u64,
) -> (WalView, Seq<DiskFile>)
    decreases
            batch.records.len() - batch.written,
            if batch.phase == WritePhase::MakeRoom {
                1int
            } else {
                0
            },
            disk.len(),
{
    match batch_step(wal, batch, listing(disk)) {
        WriteStep::Evict(i) => if i < disk.len() {
            batch_written(
                after_delete(wal, listing(disk)[i as int].size),
                batch,
                disk.remove(i as int),
                clock,
            )
        } else {
            (wal, disk)
        },
        WriteStep::Rotate => {
            let name = segment_name(clock(batch.written));
            batch_written(
                WalView { current_segment: Some(SegmentView { name, size: 0 }), ..wal },
                BatchView { phase: WritePhase::Placed, ..batch },
                disk.push(DiskFile { name, bytes: Seq::empty() }),
                clock,
            )
        },
        WriteStep::Append => batch_written(
            after_append(wal, batch.records[batch.written].len() as u64),
            BatchView { written: batch.written + 1, phase: WritePhase::MakeRoom, ..batch },
            appended(disk, batch.records[batch.written]),
            clock,
        ),
        WriteStep::Done => (wal, disk),
    }
}

/// The records of some payloads.
pub open spec fn records_of(payloads: Seq<Seq<u8>>) -> Seq<Seq<u8>> {
    Seq::new(payloads.len(), |i: int| record(payloads[i]))
}

/// The batch of some payloads, of which so many were written.
pub open spec fn batch_of(payloads: Seq<Seq<u8>>, written: int, phase: WritePhase) -> BatchView {
    BatchView { records: records_of(payloads), written, phase }
}

/// A segment that holds whole records that are read back, and nothing else.
pub open spec fn is_whole(bytes: Seq<u8>) -> bool {
    exists|payloads: Seq<Seq<u8>>| #[trigger]
        segment(payloads) == bytes && forall|i: int|
            0 <= i < payloads.len() ==> readable(#[trigger] payloads[i])
}

/// The segment that is being written, if any, is the last one on disk, has the
/// size that the buffer holds, and is whole.
pub open spec fn in_step(wal: WalView, disk: Seq<DiskFile>) -> bool {
    wal.current_segment matches Some(s) ==> {
        &&& disk.len() > 0
        &&& disk.last().name == s.name
        &&& disk.last().bytes.len() == s.size
        &&& is_whole(disk.last().bytes)
    }
}

/// The names that the clock gives to new segments come after those on disk, and
/// one after another.
pub open spec fn clock_goes_on(
    disk: Seq<DiskFile>,
    clock: spec_fn(int) -> u64,
    from: int,
    to: int,
) -> bool {
    &&& forall|i: int, k: int|
        0 <= i < disk.len() && from <= k < to ==> name_before(
            (#[trigger] disk[i]).name,
            segment_name(#[trigger] clock(k)),
        )
    &&& forall|j: int, k: int|
        from <= j < k < to ==> name_before(
            segment_name(#[trigger] clock(j)),
            segment_name(#[trigger] clock(k)),
        )
}

proof fn lemma_segment_grows(payloads: Seq<Seq<u8>>, n: int)
    requires
        0 <= n <= payloads.len(),
    ensures
        segment(payloads).len() >= 5 * payloads.len(),
        segment(payloads.take(n)).len() <= segment(payloads).len(),
        n < payloads.len() ==> segment(payloads.take(n + 1)) == segment(payloads.take(n)) + record(
            payloads[n],
        ),
    decreases payloads.len(),
{
    if n < payloads.len() {
        assert(payloads.take(n + 1).drop_last() =~= payloads.take(n));
        assert(payloads.take(n + 1).last() == payloads[n]);
    }
    if payloads.len() > 0 {
        let shorter = payloads.drop_last();
        if n < payloads.len() {
            lemma_segment_grows(shorter, n);
            assert(shorter.take(n) =~= payloads.take(n));
        } else {
            lemma_segment_grows(shorter, n - 1);
            assert(payloads.take(n) =~= payloads);
        }
    } else {
        assert(payloads.take(n) =~= payloads);
    }
}

proof fn lemma_whole_items(payloads: Seq<Seq<u8>>)
    requires
        forall|i: int| 0 <= i < payloads.len() ==> readable(#[trigger] payloads[i]),
    ensures
        file_items(segment(payloads)) == items_of(payloads),
{
    let bytes = segment(payloads);
    lemma_segment_grows(payloads, 0);
    law_segment_round_trip(payloads, Seq::empty(), bytes.len());
    assert(bytes + Seq::<u8>::empty() =~= bytes);
    let room = (bytes.len() - payloads.len()) as nat;
    assert(segment_items(Seq::<u8>::empty(), room) =~= Seq::<JsonView>::empty());
    assert(items_of(payloads) + Seq::<JsonView>::empty() =~= items_of(payloads));
}

proof fn lemma_whole_append(bytes: Seq<u8>, payload: Seq<u8>)
    requires
        is_whole(bytes),
        readable(payload),
    ensures
        is_whole(bytes + record(payload)),
        file_items(bytes + record(payload)) == file_items(bytes).push(parsed_bytes(payload)->0),
{
    let payloads = choose|payloads: Seq<Seq<u8>>| #[trigger]
        segment(payloads) == bytes && forall|i: int|
            0 <= i < payloads.len() ==> readable(#[trigger] payloads[i]);
    let more = payloads.push(payload);
    assert(more.drop_last() =~= payloads);
    assert(segment(more) == bytes + record(payload));
    assert forall|i: int| 0 <= i < more.len() implies readable(#[trigger] more[i]) by {
        if i < payloads.len() {
            assert(more[i] == payloads[i]);
        }
    }
    lemma_whole_items(payloads);
    lemma_whole_items(more);
    assert(items_of(more) =~= items_of(payloads).push(parsed_bytes(payload)->0));
}

proof fn lemma_name_after(a: Seq<char>, b: Seq<char>)
    requires
        name_before(a, b),
    ensures
        !name_before(b, a),
{
    if name_before(b, a) {
        lemma_name_before_transitive(a, b, a);
        let k = choose|k: int| #[trigger] differs_at(a, a, k);
        assert(differs_at(a, a, k));
    }
}

/// The bytes of the records that are still to be written.
pub open spec fn bytes_left(payloads: Seq<Seq<u8>>, written: int) -> int
    decreases payloads.len() - written,
{
    if written < 0 || written >= payloads.len() {
        0
    } else {
        record(payloads[written]).len() + bytes_left(payloads, written + 1)
    }
}

proof fn lemma_bytes_left(payloads: Seq<Seq<u8>>, written: int)
    ensures
        bytes_left(payloads, written) >= 0,
    decreases payloads.len() - written,
{
    if 0 <= written < payloads.len() {
        lemma_bytes_left(payloads, written + 1);
    }
}

/// Nothing of a batch is lost: as long as the buffer keeps to its budget, what is
/// drained once a batch was written is what was there before and then the batch,
/// in order, whatever number of segments it takes. The listing stays in order,
/// so that the oldest segment is drained first.
pub proof fn law_written_batch_is_drained_last(
    wal: WalView,
    payloads: Seq<Seq<u8>>,
    written: int,
    phase: WritePhase,
    disk: Seq<DiskFile>,
    clock: spec_fn(int) -> u64,
)
    requires
        0 <= written <= payloads.len(),
        forall|i: int| 0 <= i < payloads.len() ==> readable(#[trigger] payloads[i]),
        in_step(wal, disk),
        phase == WritePhase::Placed ==> wal.current_segment is Some && written < payloads.len(),
        phase == WritePhase::Placed ==> wal.current_segment->0.size == 0,
        wal.total_bytes + bytes_left(payloads, written) <= wal.max_bytes,
        in_name_order(listing(disk)),
        phase == WritePhase::MakeRoom ==> clock_goes_on(
            disk,
            clock,
            written,
            payloads.len() as int,
        ),
        phase == WritePhase::Placed ==> clock_goes_on(
            disk,
            clock,
            written + 1,
            payloads.len() as int,
        ),
    ensures
        ({
            let (after, then) = batch_written(wal, batch_of(payloads, written, phase), disk, clock);
            &&& drained(then) == drained(disk) + items_of(payloads.skip(written))
            &&& in_name_order(listing(then))
            &&& in_step(after, then)
            &&& after.total_bytes == wal.total_bytes + bytes_left(payloads, written)
        }),
    decreases
            payloads.len() - written,
            if phase == WritePhase::MakeRoom {
                1int
            } else {
                0
            },
{
    let batch = batch_of(payloads, written, phase);
    let end = payloads.len() as int;
    lemma_bytes_left(payloads, written);
    if written == payloads.len() {
        assert(items_of(payloads.skip(written)) =~= Seq::<JsonView>::empty());
        assert(drained(disk) + items_of(payloads.skip(written)) =~= drained(disk));
    } else {
        lemma_bytes_left(payloads, written + 1);
        let size = record(payloads[written]).len() as u64;
        assert(batch.records[written] == record(payloads[written]));
        match batch_step(wal, batch, listing(disk)) {
            WriteStep::Evict(i) => {
                assert(false);
            },
            WriteStep::Rotate => {
                let name = segment_name(clock(written));
                let begun = WalView {
                    current_segment: Some(SegmentView { name, size: 0 }),
                    ..wal
                };
                let then = disk.push(DiskFile { name, bytes: Seq::empty() });
                assert(segment(Seq::<Seq<u8>>::empty()) == Seq::<u8>::empty());
                assert(is_whole(Seq::<u8>::empty()));
                assert(then.drop_last() =~= disk);
                assert(file_items(Seq::<u8>::empty()) =~= Seq::<JsonView>::empty());
                assert(drained(then) =~= drained(disk));
                let list = listing(then);
                assert forall|i: int, j: int| 0 <= i < j < list.len() implies !name_before(
                    (#[trigger] list[j]).name,
                    (#[trigger] list[i]).name,
                ) by {
                    if j < disk.len() {
                        assert(listing(disk)[i] == list[i] && listing(disk)[j] == list[j]);
                    } else {
                        assert(name_before(disk[i].name, segment_name(clock(written))));
                        lemma_name_after(disk[i].name, name);
                    }
                }
                assert forall|i: int, k: int|
                    0 <= i < then.len() && written + 1 <= k < end implies name_before(
                    (#[trigger] then[i]).name,
                    segment_name(#[trigger] clock(k)),
                ) by {
                    if i < disk.len() {
                        assert(then[i] == disk[i]);
                    } else {
                        assert(name_before(
                            segment_name(clock(written)),
                            segment_name(clock(k)),
                        ));
                    }
                }
                law_written_batch_is_drained_last(
                    begun,
                    payloads,
                    written,
                    WritePhase::Placed,
                    then,
                    clock,
                );
            },
            WriteStep::Append => {
                let then = appended(disk, record(payloads[written]));
                let after = after_append(wal, size);
                lemma_whole_append(disk.last().bytes, payloads[written]);
                assert(then.drop_last() =~= disk.drop_last());
                assert(drained(then) =~= drained(disk).push(parsed_bytes(payloads[written])->0));
                assert forall|i: int| 0 <= i < disk.len() implies (#[trigger] then[i]).name
                    == disk[i].name by {}
                let list = listing(then);
                assert forall|i: int, j: int| 0 <= i < j < list.len() implies !name_before(
                    (#[trigger] list[j]).name,
                    (#[trigger] list[i]).name,
                ) by {
                    assert(listing(disk)[i].name == then[i].name);
                    assert(listing(disk)[j].name == then[j].name);
                }
                assert forall|i: int, k: int|
                    0 <= i < then.len() && written + 1 <= k < end implies name_before(
                    (#[trigger] then[i]).name,
                    segment_name(#[trigger] clock(k)),
                ) by {
                    assert(then[i].name == disk[i].name);
                }
                law_written_batch_is_drained_last(
                    after,
                    payloads,
                    written + 1,
                    WritePhase::MakeRoom,
                    then,
                    clock,
                );
                let rest = items_of(payloads.skip(written));
                assert(rest =~= seq![parsed_bytes(payloads[written])->0] + items_of(
                    payloads.skip(written + 1),
                ));
                assert(drained(disk) + rest =~= drained(then) + items_of(
                    payloads.skip(written + 1),
                ));
            },
            WriteStep::Done => {},
        }
    }
}

proof fn lemma_one_segment(
    wal: WalView,
    payloads: Seq<Seq<u8>>,
    written: int,
    phase: WritePhase,
    name: Seq<char>,
    clock: spec_fn(int) -> u64,
)
    requires
        0 <= written <= payloads.len(),
        phase == WritePhase::Placed ==> written < payloads.len(),
        wal.current_segment == Some(
            SegmentView { name, size: segment(payloads.take(written)).len() as u64 },
        ),
        wal.total_bytes == segment(payloads.take(written)).len(),
        segment(payloads).len() <= wal.max_bytes,
        segment(payloads).len() <= wal.segment_max_bytes,
    ensures
        batch_written(
            wal,
            batch_of(payloads, written, phase),
            seq![DiskFile { name, bytes: segment(payloads.take(written)) }],
            clock,
        ).1 == seq![DiskFile { name, bytes: segment(payloads) }],
    decreases payloads.len() - written,
{
    let disk = seq![DiskFile { name, bytes: segment(payloads.take(written)) }];
    if written == payloads.len() {
        assert(payloads.take(written) =~= payloads);
    } else {
        let batch = batch_of(payloads, written, phase);
        let size = record(payloads[written]).len() as u64;
        lemma_segment_grows(payloads, written);
        lemma_segment_grows(payloads, written + 1);
        assert(batch.records[written] == record(payloads[written]));
        assert(batch_step(wal, batch, listing(disk)) == WriteStep::Append);
        assert(appended(disk, record(payloads[written])) =~= seq![
            DiskFile { name, bytes: segment(payloads.take(written + 1)) },
        ]);
        lemma_one_segment(
            after_append(wal, size),
            payloads,
            written + 1,
            WritePhase::MakeRoom,
            name,
            clock,
        );
    }
}

/// A batch that was written to an empty directory comes back when the buffer is
/// opened anew: the oldest segment is completed and gives the values, in order.
pub proof fn law_batch_survives_reopening(
    items: Seq<JsonView>,
    max_bytes: u64,
    segment_max_bytes: u64,
    clock: spec_fn(int) -> u64,
    max: nat,
)
    requires
        items.len() > 0,
        forall|i: int|
            0 <= i < items.len() ==> payload_of(#[trigger] items[i]).len() <= 16_777_216
                && parsed_bytes(payload_of(items[i])) == Some(items[i]),
        segment(items.map_values(|v: JsonView| payload_of(v))).len() <= max_bytes,
        segment(items.map_values(|v: JsonView| payload_of(v))).len() <= segment_max_bytes,
        max >= items.len(),
    ensures
        ({
            let batch = BatchView {
                records: items.map_values(|v: JsonView| record(payload_of(v))),
                written: 0,
                phase: WritePhase::MakeRoom,
            };
            let none = Seq::<DiskFile>::empty();
            let fresh = opened(listing(none), max_bytes, segment_max_bytes);
            let disk = batch_written(fresh, batch, none, clock).1;
            let again = opened(listing(disk), max_bytes, segment_max_bytes);
            &&& first_completed(again, listing(disk), 0) == Some(0int)
            &&& is_segment_name(disk[0].name)
            &&& segment_items(disk[0].bytes, max) == items
            &&& disk.len() == 1
        }),
{
    let payloads = items.map_values(|v: JsonView| payload_of(v));
    let batch = batch_of(payloads, 0, WritePhase::MakeRoom);
    assert(batch.records =~= items.map_values(|v: JsonView| record(payload_of(v))));
    let none = Seq::<DiskFile>::empty();
    let fresh = opened(listing(none), max_bytes, segment_max_bytes);
    let name = segment_name(clock(0));
    let begun = WalView { current_segment: Some(SegmentView { name, size: 0 }), ..fresh };
    assert(listing(none) =~= Seq::<SegmentView>::empty());
    assert(batch_step(fresh, batch, listing(none)) == WriteStep::Rotate);
    assert(payloads.take(0) =~= Seq::<Seq<u8>>::empty());
    assert(segment(payloads.take(0)) =~= Seq::<u8>::empty());
    assert(none.push(DiskFile { name, bytes: Seq::empty() }) =~= seq![
        DiskFile { name, bytes: segment(payloads.take(0)) },
    ]);
    lemma_one_segment(begun, payloads, 0, WritePhase::Placed, name, clock);
    law_written_items_are_read(items, max);
    law_segment_name_is_listed(clock(0));
}

proof fn lemma_drained_first(disk: Seq<DiskFile>)
    requires
        disk.len() > 0,
    ensures
        drained(disk) == file_items(disk[0].bytes) + drained(disk.drop_first()),
    decreases disk.len(),
{
    let rest = disk.drop_first();
    let first = file_items(disk[0].bytes);
    if disk.len() == 1 {
        assert(disk.drop_last() =~= Seq::<DiskFile>::empty());
        assert(rest =~= Seq::<DiskFile>::empty());
        assert(drained(disk) =~= first + drained(rest));
    } else {
        lemma_drained_first(disk.drop_last());
        assert(disk.drop_last().drop_first() =~= rest.drop_last());
        assert(rest.last() == disk.last());
        assert(drained(disk) =~= first + drained(rest));
    }
}

/// Where the segment that is being written is the last one, what an eviction
/// loses is what would be drained first, and no more than one segment of it.
pub proof fn law_eviction_loses_the_oldest(wal: WalView, disk: Seq<DiskFile>, size: u64)
    requires
        disk.len() <= usize::MAX,
        forall|i: int| 0 <= i < disk.len() - 1 ==> !is_current(wal, #[trigger] listing(disk)[i]),
    ensures
        next_step(wal, WritePhase::MakeRoom, listing(disk), size) matches WriteStep::Evict(i) ==> i
            == 0 && drained(disk) == file_items(disk[0].bytes) + drained(disk.remove(0)),
{
    lemma_first_completed(wal, listing(disk), 0);
    if next_step(wal, WritePhase::MakeRoom, listing(disk), size) is Evict {
        if disk.len() > 1 {
            assert(!is_current(wal, listing(disk)[0]));
        }
        lemma_drained_first(disk);
        assert(disk.remove(0) =~= disk.drop_first());
    }
}

// ---------------------------------------------------------------------------
// Laws of the format
// ---------------------------------------------------------------------------

/// A record is the payload's length in four bytes, the most significant first, the
/// payload, and a line feed.
pub proof fn law_record_layout(payload: Seq<u8>)
    requires
        payload.len() < 0x1_0000_0000,
    ensures
        ({
            let bytes = record(payload);
            let n = payload.len() as int;
            &&& bytes.len() == n + 5
            &&& bytes[0] * 0x100_0000 + bytes[1] * 0x1_0000 + bytes[2] * 0x100 + bytes[3] == n
            &&& bytes.subrange(4, n + 4) == payload
            &&& bytes[n + 4] == 10u8
        }),
{
    let bytes = record(payload);
    let n = payload.len() as int;
    law_be32_round_trip(n as u32);
    assert(bytes.take(4) =~= be32(n as u32));
    assert(bytes[0] == be32(n as u32)[0] && bytes[1] == be32(n as u32)[1] && bytes[2] == be32(
        n as u32,
    )[2] && bytes[3] == be32(n as u32)[3]);
    assert(bytes.subrange(4, n + 4) =~= payload);
}

/// A segment is named after the time at which it was begun, which can be read from
/// the name.
pub proof fn law_segment_is_named_after_its_time(millis: u64)
    ensures
        ({
            let name = segment_name(millis);
            let n = name.len() as int;
            &&& n > 11
            &&& name.take(7) == seq!['b', 'u', 'f', 'f', 'e', 'r', '-']
            &&& decimal(name.subrange(7, n - 4)) == millis
            &&& name.skip(n - 4) == seq!['.', 'w', 'a', 'l']
        }),
{
    reveal_strlit("buffer-");
    reveal_strlit(".wal");
    lemma_decimal_text(millis as int);
    let name = segment_name(millis);
    let n = name.len() as int;
    assert(name.take(7) =~= seq!['b', 'u', 'f', 'f', 'e', 'r', '-']);
    assert(name.skip(n - 4) =~= seq!['.', 'w', 'a', 'l']);
    assert(name.subrange(7, n - 4) =~= decimal_text(millis as int));
}

/// A file is a segment exactly where its name goes on to `.wal` after something
/// else.
pub proof fn law_segments_end_in_wal(stem: Seq<char>, name: Seq<char>)
    ensures
        is_segment_name(stem + seq!['.', 'w', 'a', 'l']) <==> stem.len() > 0,
        is_segment_name(name) ==> name == name.take(name.len() - 4) + seq!['.', 'w', 'a', 'l'],
{
    reveal_strlit(".wal");
    assert(".wal"@ =~= seq!['.', 'w', 'a', 'l']);
    let whole = stem + seq!['.', 'w', 'a', 'l'];
    assert(whole.skip(whole.len() - 4) =~= seq!['.', 'w', 'a', 'l']);
    if is_segment_name(name) {
        assert(name =~= name.take(name.len() - 4) + name.skip(name.len() - 4));
    }
}

/// A record goes to the current segment exactly where it fits there, and a segment
/// is begun for it otherwise, once the buffer is within its budget.
pub proof fn law_record_goes_where_it_fits(wal: WalView, list: Seq<SegmentView>, size: u64)
    requires
        wal.total_bytes + size <= wal.max_bytes,
    ensures
        ({
            let step = next_step(wal, WritePhase::MakeRoom, list, size);
            match wal.current_segment {
                Some(s) => if s.size + size <= wal.segment_max_bytes {
                    step == WriteStep::Append
                } else {
                    step == WriteStep::Rotate
                },
                None => step == WriteStep::Rotate,
            }
        }),
        next_step(wal, WritePhase::Placed, list, size) == WriteStep::Append,
{
}

/// Over its budget the buffer gives up a completed segment, if there is one.
pub proof fn law_over_budget_evicts(wal: WalView, list: Seq<SegmentView>, size: u64, at: int)
    requires
        wal.total_bytes + size > wal.max_bytes,
        0 <= at < list.len(),
        !is_current(wal, list[at]),
        list.len() <= usize::MAX,
    ensures
        next_step(wal, WritePhase::MakeRoom, list, size) matches WriteStep::Evict(i) && i <= at
            && !is_current(wal, list[i as int]),
{
    lemma_first_completed(wal, list, 0);
}

/// The buffer that is opened holds the sizes of the segments that are there, each
/// counted once, and writes to none of them.
pub proof fn law_opening_counts_each_segment(
    list: Seq<SegmentView>,
    file: SegmentView,
    max_bytes: u64,
    segment_max_bytes: u64,
)
    requires
        total_size(list) + file.size <= u64::MAX,
    ensures
        opened(list.push(file), max_bytes, segment_max_bytes).total_bytes == opened(
            list,
            max_bytes,
            segment_max_bytes,
        ).total_bytes + file.size,
        opened(Seq::empty(), max_bytes, segment_max_bytes).total_bytes == 0,
        opened(list, max_bytes, segment_max_bytes).current_segment is None,
        opened(list, max_bytes, segment_max_bytes).max_bytes == max_bytes,
        opened(list, max_bytes, segment_max_bytes).segment_max_bytes == segment_max_bytes,
{
    lemma_total_size_grows(list, 0);
    assert(list.push(file).drop_last() =~= list);
}

} // verus!
