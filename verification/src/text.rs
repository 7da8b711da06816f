//! Text as sequences of characters: trimming, splitting, decimal numerals, and
//! the few operations of the standard library that the rest of the crate uses.

use vstd::prelude::*;
use vstd::string::*;
use vstd::utf8::*;

verus! {

broadcast use vstd::string::group_string_axioms;

// ---------------------------------------------------------------------------
// Standard library operations taken on trust
// ---------------------------------------------------------------------------

/// `String::push` appends one character.
pub assume_specification[ String::push ](text: &mut String, c: char)
    ensures
        final(text)@ == old(text)@.push(c),
;

/// The lower case of a text, as `str::to_lowercase` gives it.
pub uninterp spec fn lowercase(text: Seq<char>) -> Seq<char>;

/// The lower case of one ASCII character.
pub open spec fn ascii_lower(c: char) -> char {
    if 'A' <= c && c <= 'Z' {
        (c as u32 + 32) as char
    } else {
        c
    }
}

/// The text with each of its ASCII capitals made small.
pub open spec fn ascii_lowered(text: Seq<char>) -> Seq<char> {
    Seq::new(text.len(), |i: int| ascii_lower(text[i]))
}

/// `str::to_lowercase`. What Unicode's tables make of other scripts is left to
/// the name; of a text of ASCII characters alone it is claimed that each
/// capital letter becomes the small one and that nothing else changes, and of
/// any text that commas and spaces, which have no case, do not go away.
#[verifier::external_body]
fn to_lowercase(text: &str) -> (r: String)
    ensures
        r@ == lowercase(text@),
        is_ascii_chars(text@) ==> r@ == ascii_lowered(text@),
        text@.contains(',') ==> r@.contains(','),
        text@.contains(' ') ==> r@.contains(' '),
{
    text.to_lowercase()
}

/// The lower case of a text: that of its ASCII capitals where it has no other
/// characters.
pub open spec fn lowered(text: Seq<char>) -> Seq<char> {
    if is_ascii_chars(text) {
        ascii_lowered(text)
    } else {
        lowercase(text)
    }
}

/// The lower case of a text.
pub fn lower(text: &str) -> (r: String)
    ensures
        r@ == lowered(text@),
        text@.contains(',') ==> r@.contains(','),
        text@.contains(' ') ==> r@.contains(' '),
{
    to_lowercase(text)
}

/// The text with each of its ASCII capitals made small.
pub fn lower_ascii(text: &str) -> (r: String)
    ensures
        r@ == ascii_lowered(text@),
{
    let mut out = String::new();
    for c in it: text.chars()
        invariant
            out@ == ascii_lowered(it.seq()).take(it.index() as int),
            it.seq() == text@,
    {
        if 'A' <= c && c <= 'Z' {
            out.push((c as u8 + 32) as char);
        } else {
            out.push(c);
        }
        assert(out@ =~= ascii_lowered(it.seq()).take(it.index() + 1));
    }
    assert(out@ =~= ascii_lowered(text@));
    out
}

/// The characters that `String::from_utf8_lossy` makes of a byte sequence.
pub uninterp spec fn lossy_utf8(bytes: Seq<u8>) -> Seq<char>;

/// `String::from_utf8_lossy`. Bytes that are valid UTF-8 are decoded as such;
/// where replacement characters go in other bytes is left to the name.
#[verifier::external_body]
pub(crate) fn from_utf8_lossy(bytes: &[u8]) -> (r: String)
    ensures
        r@ == lossy_utf8(bytes@),
        valid_utf8(bytes@) ==> r@ == decode_utf8(bytes@),
{
    String::from_utf8_lossy(bytes).into_owned()
}

// ---------------------------------------------------------------------------
// Characters and comparison
// ---------------------------------------------------------------------------

/// The texts of a sequence of strings.
pub open spec fn texts(list: Seq<String>) -> Seq<Seq<char>> {
    Seq::new(list.len(), |i: int| list[i]@)
}

/// The text of an optional string.
pub open spec fn opt_text(text: Option<String>) -> Option<Seq<char>> {
    match text {
        Some(t) => Some(t@),
        None => None,
    }
}

/// Unicode's `White_Space` property.
pub open spec fn is_space(c: char) -> bool {
    let n = c as u32;
    ||| 0x09 <= n <= 0x0d
    ||| n == 0x20
    ||| n == 0x85
    ||| n == 0xa0
    ||| n == 0x1680
    ||| 0x2000 <= n <= 0x200a
    ||| n == 0x2028
    ||| n == 0x2029
    ||| n == 0x202f
    ||| n == 0x205f
    ||| n == 0x3000
}

/// Whether a character is white space.
pub fn is_whitespace(c: char) -> (r: bool)
    ensures
        r == is_space(c),
{
    let n: u32 = c as u32;
    (0x09 <= n && n <= 0x0d) || n == 0x20 || n == 0x85 || n == 0xa0 || n == 0x1680 || (0x2000 <= n
        && n <= 0x200a) || n == 0x2028 || n == 0x2029 || n == 0x202f || n == 0x205f || n == 0x3000
}

/// The characters of a text.
pub fn chars_of(text: &str) -> (r: Vec<char>)
    ensures
        r@ == text@,
{
    let mut out: Vec<char> = Vec::new();
    for c in it: text.chars()
        invariant
            out@ == it.seq().take(it.index() as int),
            it.seq() == text@,
    {
        out.push(c);
    }
    out
}

/// Whether two texts are the same.
pub fn same_text(a: &str, b: &str) -> (r: bool)
    ensures
        r == (a@ == b@),
{
    let x = a.as_bytes();
    let y = b.as_bytes();
    proof {
        encode_utf8_decode_utf8(a@);
        encode_utf8_decode_utf8(b@);
    }
    if x.len() != y.len() {
        return false;
    }
    let n: usize = x.len();
    let mut i: usize = 0;
    while i < n
        invariant
            0 <= i <= n,
            n == x@.len(),
            n == y@.len(),
            x@ == encode_utf8(a@),
            y@ == encode_utf8(b@),
            forall|j: int| 0 <= j < i ==> x@[j] == y@[j],
        decreases n - i,
    {
        if x[i] != y[i] {
            return false;
        }
        i = i + 1;
    }
    assert(x@ =~= y@);
    true
}

/// Whether two optional texts are the same.
pub fn same_opt_text(a: &Option<String>, b: &Option<String>) -> (r: bool)
    ensures
        r == (opt_text(*a) == opt_text(*b)),
{
    match (a, b) {
        (Some(x), Some(y)) => same_text(x.as_str(), y.as_str()),
        (None, None) => true,
        _ => false,
    }
}

/// Whether `prefix` begins `text`.
pub open spec fn begins_with(text: Seq<char>, prefix: Seq<char>) -> bool {
    &&& prefix.len() <= text.len()
    &&& text.take(prefix.len() as int) == prefix
}

/// Whether `prefix` begins `text`.
pub fn starts_with(text: &str, prefix: &str) -> (r: bool)
    ensures
        r == begins_with(text@, prefix@),
{
    let t = chars_of(text);
    let p = chars_of(prefix);
    if p.len() > t.len() {
        return false;
    }
    let mut i: usize = 0;
    while i < p.len()
        invariant
            0 <= i <= p@.len() <= t@.len(),
            t@ == text@,
            p@ == prefix@,
            forall|j: int| 0 <= j < i ==> t@[j] == p@[j],
        decreases p@.len() - i,
    {
        if t[i] != p[i] {
            assert(text@.take(prefix@.len() as int)[i as int] != prefix@[i as int]);
            return false;
        }
        i = i + 1;
    }
    assert(text@.take(prefix@.len() as int) =~= prefix@);
    true
}

// ---------------------------------------------------------------------------
// Trimming
// ---------------------------------------------------------------------------

/// The text from its first character that is not white space.
pub open spec fn trim_start(text: Seq<char>) -> Seq<char>
    decreases text.len(),
{
    if text.len() > 0 && is_space(text[0]) {
        trim_start(text.drop_first())
    } else {
        text
    }
}

/// The text up to its last character that is not white space.
pub open spec fn trim_end(text: Seq<char>) -> Seq<char>
    decreases text.len(),
{
    if text.len() > 0 && is_space(text.last()) {
        trim_end(text.drop_last())
    } else {
        text
    }
}

/// The text without the white space around it.
pub open spec fn trimmed(text: Seq<char>) -> Seq<char> {
    trim_end(trim_start(text))
}

/// The text without the white space around it.
pub fn trim<'a>(text: &'a str) -> (r: &'a str)
    ensures
        r@ == trimmed(text@),
{
    let cs = chars_of(text);
    let n: usize = cs.len();
    let mut lo: usize = 0;
    assert(text@.skip(0) =~= text@);
    while lo < n && is_whitespace(cs[lo])
        invariant
            0 <= lo <= n,
            n == cs@.len(),
            cs@ == text@,
            trim_start(text@) == trim_start(text@.skip(lo as int)),
        decreases n - lo,
    {
        assert(text@.skip(lo as int).drop_first() =~= text@.skip(lo + 1));
        lo = lo + 1;
    }
    let ghost start = text@.skip(lo as int);
    assert(trim_start(text@) == start);
    let mut hi: usize = n;
    assert(text@.subrange(lo as int, n as int) =~= start);
    while hi > lo && is_whitespace(cs[hi - 1])
        invariant
            0 <= lo <= hi <= n,
            n == cs@.len(),
            cs@ == text@,
            trim_end(start) == trim_end(text@.subrange(lo as int, hi as int)),
        decreases hi,
    {
        assert(text@.subrange(lo as int, hi as int).drop_last() =~= text@.subrange(
            lo as int,
            hi - 1,
        ));
        hi = hi - 1;
    }
    text.substring_char(lo, hi)
}

// ---------------------------------------------------------------------------
// Splitting and joining
// ---------------------------------------------------------------------------

/// The parts of a text between the occurrences of a separator, empty ones
/// included.
pub open spec fn split(text: Seq<char>, separator: char) -> Seq<Seq<char>>
    decreases text.len(),
{
    if text.len() == 0 {
        seq![Seq::<char>::empty()]
    } else {
        let before = split(text.drop_last(), separator);
        if text.last() == separator {
            before.push(Seq::<char>::empty())
        } else {
            before.drop_last().push(before.last().push(text.last()))
        }
    }
}

/// A text has at least one part.
pub proof fn lemma_split_not_empty(text: Seq<char>, separator: char)
    ensures
        split(text, separator).len() >= 1,
    decreases text.len(),
{
    if text.len() > 0 {
        lemma_split_not_empty(text.drop_last(), separator);
    }
}

/// The parts of a text between the occurrences of a separator.
pub fn split_text(text: &str, separator: char) -> (r: Vec<String>)
    ensures
        texts(r@) == split(text@, separator),
{
    let cs = chars_of(text);
    let mut parts: Vec<String> = Vec::new();
    let mut part = String::new();
    let mut i: usize = 0;
    assert(texts(parts@).push(part@) =~= split(text@.take(0), separator));
    while i < cs.len()
        invariant
            0 <= i <= cs@.len(),
            cs@ == text@,
            texts(parts@).push(part@) == split(text@.take(i as int), separator),
        decreases cs@.len() - i,
    {
        let c = cs[i];
        let ghost before = texts(parts@).push(part@);
        let ghost old_parts = texts(parts@);
        let ghost old_part = part@;
        assert(text@.take(i + 1).drop_last() =~= text@.take(i as int));
        if c == separator {
            parts.push(part);
            part = String::new();
            assert(texts(parts@) =~= before);
        } else {
            part.push(c);
            assert(before.drop_last() =~= old_parts);
            assert(before.last() == old_part);
        }
        i = i + 1;
    }
    assert(text@.take(i as int) =~= text@);
    let ghost before = texts(parts@).push(part@);
    parts.push(part);
    assert(texts(parts@) =~= before);
    parts
}

/// The words of a text: its longest runs of characters other than white space.
pub open spec fn words(text: Seq<char>) -> Seq<Seq<char>>
    decreases text.len(),
{
    if text.len() == 0 {
        Seq::empty()
    } else {
        let before = words(text.drop_last());
        if is_space(text.last()) {
            before
        } else if text.len() == 1 || is_space(text[text.len() - 2]) {
            before.push(seq![text.last()])
        } else {
            before.drop_last().push(before.last().push(text.last()))
        }
    }
}

/// A word after a space is the last of the words.
pub proof fn lemma_words_tail(text: Seq<char>, word: Seq<char>)
    requires
        word.len() > 0,
        forall|i: int| 0 <= i < word.len() ==> !is_space(#[trigger] word[i]),
    ensures
        words(text + seq![' '] + word) == words(text).push(word),
        words(word) == seq![word],
    decreases word.len(),
{
    let whole = text + seq![' '] + word;
    let n = word.len() - 1;
    let shorter = word.drop_last();
    assert(whole.drop_last() =~= text + seq![' '] + shorter);
    assert(whole.last() == word[n]);
    assert(!is_space(word[n]));
    if n == 0 {
        let spaced = text + seq![' '];
        assert(whole.drop_last() =~= spaced);
        assert(spaced.drop_last() =~= text);
        assert(words(spaced) == words(text));
        assert(whole[whole.len() - 2] == ' ');
        assert(seq![word[0]] =~= word);
        assert(shorter =~= Seq::<char>::empty());
        assert(words(shorter) =~= Seq::<Seq<char>>::empty());
        assert(words(word) == words(shorter).push(seq![word[0]]));
        assert(words(word) =~= seq![word]);
    } else {
        assert forall|i: int| 0 <= i < shorter.len() implies !is_space(#[trigger] shorter[i]) by {
            assert(shorter[i] == word[i]);
        }
        lemma_words_tail(text, shorter);
        assert(whole[whole.len() - 2] == word[n - 1]);
        assert(!is_space(word[n - 1]));
        assert(shorter.push(word[n]) =~= word);
        assert(words(text).push(shorter).drop_last().push(word) =~= words(text).push(word));
        assert(seq![shorter].drop_last().push(word) =~= seq![word]);
    }
}

/// The words of a text.
pub fn split_words(text: &str) -> (r: Vec<String>)
    ensures
        texts(r@) == words(text@),
{
    let cs = chars_of(text);
    let mut out: Vec<String> = Vec::new();
    let mut word = String::new();
    let mut open: bool = false;
    let mut i: usize = 0;
    assert(texts(out@) =~= words(text@.take(0)));
    while i < cs.len()
        invariant
            0 <= i <= cs@.len(),
            cs@ == text@,
            open == (i > 0 && !is_space(text@[i - 1])),
            open ==> texts(out@).push(word@) == words(text@.take(i as int)),
            !open ==> texts(out@) == words(text@.take(i as int)) && word@.len() == 0,
        decreases cs@.len() - i,
    {
        let c = cs[i];
        let ghost old_out = texts(out@);
        let ghost old_word = word@;
        let ghost now = text@.take(i + 1);
        assert(now.drop_last() =~= text@.take(i as int));
        assert(i > 0 ==> now[now.len() - 2] == text@[i - 1]);
        if is_whitespace(c) {
            if open {
                out.push(word);
                word = String::new();
                open = false;
                assert(texts(out@) =~= old_out.push(old_word));
            }
        } else {
            word.push(c);
            if open {
                assert(old_out.push(old_word).drop_last() =~= old_out);
                assert(texts(out@).push(word@) =~= words(now));
            } else {
                open = true;
                assert(word@ =~= seq![c]);
                assert(texts(out@).push(word@) =~= words(now));
            }
        }
        i = i + 1;
    }
    assert(text@.take(i as int) =~= text@);
    if open {
        let ghost all = texts(out@).push(word@);
        out.push(word);
        assert(texts(out@) =~= all);
    }
    out
}

/// The texts one after another with a separator between neighbours.
pub open spec fn joined(list: Seq<Seq<char>>, separator: Seq<char>) -> Seq<char>
    decreases list.len(),
{
    if list.len() == 0 {
        Seq::empty()
    } else if list.len() == 1 {
        list[0]
    } else {
        joined(list.drop_last(), separator) + separator + list.last()
    }
}

proof fn lemma_split_tail(text: Seq<char>, tail: Seq<char>, separator: char)
    requires
        !tail.contains(separator),
    ensures
        split(text + seq![separator] + tail, separator) == split(text, separator).push(tail),
        split(tail, separator) == seq![tail],
    decreases tail.len(),
{
    let whole = text + seq![separator] + tail;
    if tail.len() == 0 {
        assert(tail =~= Seq::<char>::empty());
        assert(whole.drop_last() =~= text);
        assert(whole.last() == separator);
    } else {
        let shorter = tail.drop_last();
        assert(!shorter.contains(separator)) by {
            if shorter.contains(separator) {
                assert(tail[shorter.index_of(separator)] == separator);
            }
        }
        lemma_split_tail(text, shorter, separator);
        assert(tail.contains(tail.last()));
        assert(whole.drop_last() =~= text + seq![separator] + shorter);
        assert(shorter.push(tail.last()) =~= tail);
        let before = split(text, separator);
        assert(before.push(shorter).drop_last().push(tail) =~= before.push(tail));
        assert(seq![shorter].drop_last().push(tail) =~= seq![tail]);
    }
}

/// Texts that were joined by a separator which is in none of them come apart
/// again.
pub proof fn law_split_undoes_join(list: Seq<Seq<char>>, separator: char)
    requires
        list.len() > 0,
        forall|i: int| 0 <= i < list.len() ==> !(#[trigger] list[i]).contains(separator),
    ensures
        split(joined(list, seq![separator]), separator) == list,
    decreases list.len(),
{
    let n = list.len() - 1;
    assert(!list[n].contains(separator));
    if n == 0 {
        lemma_split_tail(Seq::empty(), list[0], separator);
        assert(seq![list[0]] =~= list);
    } else {
        let shorter = list.drop_last();
        assert forall|i: int| 0 <= i < shorter.len() implies !(#[trigger] shorter[i]).contains(
            separator,
        ) by {
            assert(shorter[i] == list[i]);
        }
        law_split_undoes_join(shorter, separator);
        lemma_split_tail(joined(shorter, seq![separator]), list[n], separator);
        assert(shorter.push(list[n]) =~= list);
    }
}

/// The texts one after another with a separator between neighbours.
pub fn join(list: &Vec<String>, separator: &str) -> (r: String)
    ensures
        r@ == joined(texts(list@), separator@),
{
    let mut out = String::new();
    let mut i: usize = 0;
    assert(texts(list@).take(0) =~= Seq::<Seq<char>>::empty());
    while i < list.len()
        invariant
            0 <= i <= list@.len(),
            out@ == joined(texts(list@).take(i as int), separator@),
        decreases list@.len() - i,
    {
        assert(texts(list@).take(i + 1).drop_last() =~= texts(list@).take(i as int));
        if i > 0 {
            out.append(separator);
        }
        out.append(list[i].as_str());
        proof {
            if i == 0 {
                assert(out@ =~= list@[0]@);
            }
        }
        i = i + 1;
    }
    assert(texts(list@).take(i as int) =~= texts(list@));
    out
}

/// Whether the list holds the text.
pub fn list_has(list: &Vec<String>, text: &str) -> (r: bool)
    ensures
        r == texts(list@).contains(text@),
{
    let mut i: usize = 0;
    while i < list.len()
        invariant
            0 <= i <= list@.len(),
            forall|j: int| 0 <= j < i ==> list@[j]@ != text@,
        decreases list@.len() - i,
    {
        if same_text(list[i].as_str(), text) {
            assert(texts(list@)[i as int] == text@);
            return true;
        }
        i = i + 1;
    }
    assert forall|j: int| 0 <= j < texts(list@).len() implies texts(list@)[j] != text@ by {}
    false
}

/// The distinct trimmed texts of a list, blank ones left out, in the order of
/// their first occurrence.
pub open spec fn distinct_names(list: Seq<Seq<char>>) -> Seq<Seq<char>>
    decreases list.len(),
{
    if list.len() == 0 {
        Seq::empty()
    } else {
        let before = distinct_names(list.drop_last());
        let name = trimmed(list.last());
        if name.len() == 0 || before.contains(name) {
            before
        } else {
            before.push(name)
        }
    }
}

/// No name comes twice, none is blank, and each one is a trimmed text of the
/// list.
pub proof fn law_distinct_names(list: Seq<Seq<char>>)
    ensures
        distinct_names(list).no_duplicates(),
        forall|i: int|
            0 <= i < distinct_names(list).len() ==> (#[trigger] distinct_names(list)[i]).len() > 0,
        forall|i: int|
            0 <= i < distinct_names(list).len() ==> exists|j: int|
                0 <= j < list.len() && #[trigger] distinct_names(list)[i] == trimmed(
                    #[trigger] list[j],
                ),
        forall|j: int|
            0 <= j < list.len() && trimmed(#[trigger] list[j]).len() > 0 ==> distinct_names(
                list,
            ).contains(trimmed(list[j])),
    decreases list.len(),
{
    if list.len() > 0 {
        let shorter = list.drop_last();
        let before = distinct_names(shorter);
        let name = trimmed(list.last());
        law_distinct_names(shorter);
        let now = distinct_names(list);
        assert forall|i: int| 0 <= i < now.len() implies exists|j: int|
            0 <= j < list.len() && #[trigger] now[i] == trimmed(#[trigger] list[j]) by {
            if i < before.len() {
                let j = choose|j: int|
                    0 <= j < shorter.len() && before[i] == trimmed(#[trigger] shorter[j]);
                assert(list[j] == shorter[j]);
            } else {
                assert(now[i] == trimmed(list[list.len() - 1]));
            }
        }
        assert forall|j: int|
            0 <= j < list.len() && trimmed(#[trigger] list[j]).len() > 0 implies now.contains(
            trimmed(list[j]),
        ) by {
            if j < shorter.len() {
                assert(list[j] == shorter[j]);
                let k = choose|k: int| 0 <= k < before.len() && before[k] == trimmed(shorter[j]);
                assert(now[k] == before[k]);
            } else if before.contains(name) {
            } else {
                assert(now[now.len() - 1] == name);
            }
        }
    }
}

/// The distinct trimmed names of a list, blank ones left out.
pub fn dedup_names(list: &Vec<String>) -> (r: Vec<String>)
    ensures
        texts(r@) == distinct_names(texts(list@)),
{
    let mut out: Vec<String> = Vec::new();
    let mut i: usize = 0;
    assert(texts(out@) =~= distinct_names(texts(list@).take(0)));
    while i < list.len()
        invariant
            0 <= i <= list@.len(),
            texts(out@) == distinct_names(texts(list@).take(i as int)),
        decreases list@.len() - i,
    {
        assert(texts(list@).take(i + 1).drop_last() =~= texts(list@).take(i as int));
        let name = trim(list[i].as_str());
        if !name.is_empty() && !list_has(&out, name) {
            let ghost before = texts(out@);
            out.push(name.to_owned());
            assert(texts(out@) =~= before.push(name@));
        }
        i = i + 1;
    }
    assert(texts(list@).take(i as int) =~= texts(list@));
    out
}

// ---------------------------------------------------------------------------
// Numerals
// ---------------------------------------------------------------------------

/// Whether a character is a decimal digit.
pub open spec fn is_digit(c: char) -> bool {
    '0' <= c && c <= '9'
}

/// Whether a text is a run of one or more decimal digits.
pub open spec fn all_digits(text: Seq<char>) -> bool {
    &&& text.len() > 0
    &&& forall|i: int| 0 <= i < text.len() ==> is_digit(#[trigger] text[i])
}

/// The number that a run of decimal digits stands for.
pub open spec fn decimal(text: Seq<char>) -> int
    decreases text.len(),
{
    if text.len() == 0 {
        0
    } else {
        10 * decimal(text.drop_last()) + (text.last() as int - '0' as int)
    }
}

/// The number that a numeral without a minus sign stands for, if it is at most
/// `limit`. A plus sign may come first.
pub open spec fn unsigned_value(text: Seq<char>, limit: int) -> Option<int> {
    let digits = if text.len() > 0 && text[0] == '+' {
        text.skip(1)
    } else {
        text
    };
    if all_digits(digits) && decimal(digits) <= limit {
        Some(decimal(digits))
    } else {
        None
    }
}

/// The number that a numeral stands for, if it fits in 64 bits with a sign.
pub open spec fn signed_value(text: Seq<char>) -> Option<int> {
    if text.len() > 0 && text[0] == '-' {
        let digits = text.skip(1);
        if all_digits(digits) && -decimal(digits) >= i64::MIN {
            Some(-decimal(digits))
        } else {
            None
        }
    } else {
        unsigned_value(text, i64::MAX as int)
    }
}

proof fn lemma_decimal_grows(text: Seq<char>, n: int)
    requires
        0 <= n <= text.len(),
        forall|i: int| 0 <= i < text.len() ==> is_digit(#[trigger] text[i]),
    ensures
        0 <= decimal(text.take(n)) <= decimal(text),
    decreases text.len(),
{
    if n < text.len() {
        lemma_decimal_grows(text.drop_last(), n);
        assert(text.drop_last().take(n) =~= text.take(n));
    } else {
        assert(text.take(n) =~= text);
        if text.len() > 0 {
            lemma_decimal_grows(text.drop_last(), text.len() - 1);
            assert(text.drop_last().take(text.len() - 1) =~= text.drop_last());
        }
    }
}

/// Reads the digits from `from` to the end.
fn read_digits(chars: &Vec<char>, from: usize, limit: u64) -> (r: Option<u64>)
    requires
        from <= chars@.len(),
    ensures
        match r {
            Some(n) => all_digits(chars@.skip(from as int)) && n == decimal(
                chars@.skip(from as int),
            ) && n <= limit,
            None => !(all_digits(chars@.skip(from as int)) && decimal(chars@.skip(from as int))
                <= limit),
        },
{
    let ghost digits = chars@.skip(from as int);
    if from == chars.len() {
        return None;
    }
    let mut value: u128 = 0;
    let mut i: usize = from;
    while i < chars.len()
        invariant
            from <= i <= chars@.len(),
            digits == chars@.skip(from as int),
            forall|j: int| 0 <= j < i - from ==> is_digit(#[trigger] digits[j]),
            value == decimal(digits.take(i - from)),
            value <= limit,
        decreases chars@.len() - i,
    {
        let c = chars[i];
        assert(digits[i - from] == c);
        if !('0' <= c && c <= '9') {
            return None;
        }
        assert(digits.take(i - from + 1).drop_last() =~= digits.take(i - from));
        value = value * 10 + (c as u32 - '0' as u32) as u128;
        if value > limit as u128 {
            proof {
                if all_digits(digits) {
                    lemma_decimal_grows(digits, i - from + 1);
                }
            }
            return None;
        }
        i = i + 1;
    }
    assert(digits.take(i - from) =~= digits);
    Some(value as u64)
}

/// Reads a numeral of at most `limit`, as `str::parse` reads an unsigned one.
pub fn parse_unsigned(text: &str, limit: u64) -> (r: Option<u64>)
    ensures
        match r {
            Some(n) => unsigned_value(text@, limit as int) == Some(n as int),
            None => unsigned_value(text@, limit as int) is None,
        },
{
    let cs = chars_of(text);
    if cs.len() > 0 && cs[0] == '+' {
        read_digits(&cs, 1, limit)
    } else {
        assert(cs@.skip(0) =~= cs@);
        read_digits(&cs, 0, limit)
    }
}

/// Reads a port number.
pub fn parse_u16(text: &str) -> (r: Option<u16>)
    ensures
        match r {
            Some(n) => unsigned_value(text@, u16::MAX as int) == Some(n as int),
            None => unsigned_value(text@, u16::MAX as int) is None,
        },
{
    match parse_unsigned(text, 65535) {
        Some(n) => Some(n as u16),
        None => None,
    }
}

/// Reads a numeral with 64 bits and a sign.
pub fn parse_i64(text: &str) -> (r: Option<i64>)
    ensures
        match r {
            Some(n) => signed_value(text@) == Some(n as int),
            None => signed_value(text@) is None,
        },
{
    let cs = chars_of(text);
    if cs.len() > 0 && cs[0] == '-' {
        match read_digits(&cs, 1, 0x8000_0000_0000_0000) {
            Some(n) => Some((0 - n as i128) as i64),
            None => None,
        }
    } else {
        match parse_unsigned(text, 0x7fff_ffff_ffff_ffff) {
            Some(n) => Some(n as i64),
            None => None,
        }
    }
}

/// The decimal digit for a number below ten.
pub open spec fn digit_char(n: int) -> char {
    ('0' as u32 + n) as char
}

/// The decimal numeral of a natural number, without leading zeros.
pub open spec fn decimal_text(n: int) -> Seq<char>
    decreases n,
{
    if n < 10 {
        seq![digit_char(n)]
    } else {
        decimal_text(n / 10).push(digit_char(n % 10))
    }
}

/// The decimal numeral of an integer.
pub open spec fn integer_text(n: int) -> Seq<char> {
    if n < 0 {
        seq!['-'] + decimal_text(-n)
    } else {
        decimal_text(n)
    }
}

/// Appends the numeral of `n`.
pub fn push_decimal(out: &mut String, n: u64)
    ensures
        final(out)@ == old(out)@ + decimal_text(n as int),
    decreases n,
{
    if n >= 10 {
        push_decimal(out, n / 10);
    }
    let d: u8 = (n % 10) as u8;
    let c: char = (48u8 + d) as char;
    assert(c == digit_char((n % 10) as int));
    out.push(c);
    assert(out@ =~= old(out)@ + decimal_text(n as int));
}

/// A numeral is made of digits and stands for its number.
pub proof fn lemma_decimal_text(n: int)
    requires
        0 <= n,
    ensures
        all_digits(decimal_text(n)),
        decimal(decimal_text(n)) == n,
    decreases n,
{
    if n >= 10 {
        lemma_decimal_text(n / 10);
        let before = decimal_text(n / 10);
        assert(decimal_text(n).drop_last() =~= before);
        assert(decimal_text(n).last() as int - '0' as int == n % 10);
    } else {
        assert(decimal_text(n).drop_last() =~= Seq::<char>::empty());
        assert(decimal(decimal_text(n).drop_last()) == 0);
        assert(decimal_text(n).last() as int - '0' as int == n);
    }
}

/// A numeral that was written is read back as the number.
pub proof fn law_numeral_round_trip(n: int, limit: int)
    requires
        0 <= n <= limit,
    ensures
        unsigned_value(decimal_text(n), limit) == Some(n),
{
    lemma_decimal_text(n);
    assert(is_digit(decimal_text(n)[0]));
}

/// A numeral that was written is read back as the number, with a sign too.
pub proof fn law_signed_numeral_round_trip(n: int)
    requires
        i64::MIN <= n <= i64::MAX,
    ensures
        signed_value(integer_text(n)) == Some(n),
{
    if n < 0 {
        lemma_decimal_text(-n);
        assert(integer_text(n).skip(1) =~= decimal_text(-n));
    } else {
        lemma_decimal_text(n);
        assert(is_digit(decimal_text(n)[0]));
    }
}

/// The hexadecimal digit for a number below sixteen.
pub open spec fn hex_digit(n: int) -> char {
    if n < 10 {
        ('0' as u32 + n) as char
    } else {
        ('a' as u32 + (n - 10)) as char
    }
}

/// The bytes in hexadecimal, two small digits each.
pub open spec fn hex_text(bytes: Seq<u8>) -> Seq<char> {
    Seq::new(
        2 * bytes.len(),
        |i: int|
            if i % 2 == 0 {
                hex_digit(bytes[i / 2] as int / 16)
            } else {
                hex_digit(bytes[i / 2] as int % 16)
            },
    )
}

fn hex_char(n: u8) -> (r: char)
    requires
        n < 16,
    ensures
        r == hex_digit(n as int),
{
    if n < 10 {
        (48u8 + n) as char
    } else {
        (97u8 + (n - 10)) as char
    }
}

/// The bytes in hexadecimal, two small digits each.
pub fn hex(bytes: &Vec<u8>) -> (r: String)
    ensures
        r@ == hex_text(bytes@),
{
    let mut out = String::new();
    let mut i: usize = 0;
    while i < bytes.len()
        invariant
            0 <= i <= bytes@.len(),
            out@ == hex_text(bytes@.take(i as int)),
        decreases bytes@.len() - i,
    {
        let b = bytes[i];
        let ghost before = out@;
        out.push(hex_char(b / 16));
        out.push(hex_char(b % 16));
        proof {
            let now = bytes@.take(i + 1);
            assert forall|k: int| 0 <= k < 2 * now.len() implies out@[k] == hex_text(now)[k] by {
                if k < 2 * i {
                    assert(out@[k] == before[k]);
                    assert(now[k / 2] == bytes@.take(i as int)[k / 2]);
                }
            }
            assert(out@ =~= hex_text(now));
        }
        i = i + 1;
    }
    assert(bytes@.take(i as int) =~= bytes@);
    out
}

// ---------------------------------------------------------------------------
// Laws of trimming and of case
// ---------------------------------------------------------------------------

proof fn lemma_trim_start(text: Seq<char>)
    ensures
        trim_start(text).len() <= text.len(),
        trim_start(text) == text.skip(text.len() - trim_start(text).len()),
        trim_start(text).len() > 0 ==> !is_space(trim_start(text)[0]),
        forall|i: int|
            0 <= i < text.len() - trim_start(text).len() ==> is_space(#[trigger] text[i]),
    decreases text.len(),
{
    if text.len() > 0 && is_space(text[0]) {
        let rest = text.drop_first();
        lemma_trim_start(rest);
        let n = text.len() - trim_start(text).len();
        assert(rest.skip(n - 1) =~= text.skip(n));
        assert forall|i: int| 0 <= i < n implies is_space(#[trigger] text[i]) by {
            if i > 0 {
                assert(text[i] == rest[i - 1]);
            }
        }
    } else {
        assert(text.skip(0) =~= text);
    }
}

proof fn lemma_trim_end(text: Seq<char>)
    ensures
        trim_end(text).len() <= text.len(),
        trim_end(text) == text.take(trim_end(text).len() as int),
        trim_end(text).len() > 0 ==> !is_space(trim_end(text).last()),
        forall|i: int| trim_end(text).len() <= i < text.len() ==> is_space(#[trigger] text[i]),
    decreases text.len(),
{
    if text.len() > 0 && is_space(text.last()) {
        let rest = text.drop_last();
        lemma_trim_end(rest);
        let n = trim_end(text).len() as int;
        assert(rest.take(n) =~= text.take(n));
        assert forall|i: int| n <= i < text.len() implies is_space(#[trigger] text[i]) by {
            if i < rest.len() {
                assert(text[i] == rest[i]);
            }
        }
    } else {
        assert(text.take(text.len() as int) =~= text);
    }
}

/// What is left of a text has no white space at either end and is a part of it
/// with nothing but white space around.
pub proof fn law_trimmed_text(text: Seq<char>)
    ensures
        ({
            let rest = trimmed(text);
            let from = text.len() - trim_start(text).len();
            &&& 0 <= from && from + rest.len() <= text.len()
            &&& rest == text.subrange(from, from + rest.len())
            &&& rest.len() > 0 ==> !is_space(rest[0]) && !is_space(rest.last())
            &&& forall|i: int| 0 <= i < from ==> is_space(#[trigger] text[i])
            &&& forall|i: int| from + rest.len() <= i < text.len() ==> is_space(#[trigger] text[i])
        }),
{
    lemma_trim_start(text);
    let start = trim_start(text);
    lemma_trim_end(start);
    let rest = trimmed(text);
    let from = text.len() - start.len();
    assert(rest =~= text.subrange(from, from + rest.len()));
    if rest.len() > 0 {
        assert(rest[0] == start[0]);
    }
    assert forall|i: int| from + rest.len() <= i < text.len() implies is_space(
        #[trigger] text[i],
    ) by {
        assert(text[i] == start[i - from]);
    }
}

/// A trimmed text is not trimmed further.
pub proof fn lemma_trimmed_again(text: Seq<char>)
    ensures
        trimmed(trimmed(text)) == trimmed(text),
{
    law_trimmed_text(text);
}

/// Lowering an ASCII text keeps its length, leaves every character alone that is
/// no capital, and is not undone or furthered by lowering again.
pub proof fn law_lowered_text(text: Seq<char>)
    requires
        is_ascii_chars(text),
    ensures
        lowered(text).len() == text.len(),
        lowered(lowered(text)) == lowered(text),
        forall|i: int|
            0 <= i < text.len() && !('A' <= text[i] <= 'Z') ==> #[trigger] lowered(text)[i]
                == text[i],
        forall|i: int|
            0 <= i < text.len() && 'A' <= text[i] <= 'Z' ==> (#[trigger] lowered(text)[i]) as u32
                == text[i] as u32 + 32,
{
    let low = lowered(text);
    assert forall|i: int| 0 <= i < low.len() implies '\0' <= #[trigger] low[i] <= '\u{7f}' by {
        assert(low[i] == ascii_lower(text[i]));
        assert('\0' <= text[i] <= '\u{7f}');
    }
    assert(is_ascii_chars(low));
    assert forall|i: int| 0 <= i < low.len() implies ascii_lowered(low)[i] == low[i] by {
        assert(low[i] == ascii_lower(text[i]));
    }
    assert(ascii_lowered(low) =~= low);
}

/// Each byte is two hexadecimal digits, the high one first, so that different bytes
/// have different digits.
pub proof fn law_bytes_are_two_digits(bytes: Seq<u8>, others: Seq<u8>)
    ensures
        hex_text(bytes).len() == 2 * bytes.len(),
        forall|i: int|
            0 <= i < hex_text(bytes).len() ==> '0' <= #[trigger] hex_text(bytes)[i] <= '9' || 'a'
                <= hex_text(bytes)[i] <= 'f',
        hex_text(bytes) == hex_text(others) ==> bytes == others,
        forall|i: int|
            0 <= i < bytes.len() && (#[trigger] bytes[i]) < 10 ==> hex_text(bytes)[2 * i] == '0'
                && hex_text(bytes)[2 * i + 1] as u32 == 48 + bytes[i],
{
    if hex_text(bytes) == hex_text(others) {
        assert(hex_text(bytes).len() == hex_text(others).len());
        assert forall|i: int| 0 <= i < bytes.len() implies bytes[i] == others[i] by {
            assert(hex_text(bytes)[2 * i] == hex_text(others)[2 * i]);
            assert(hex_text(bytes)[2 * i + 1] == hex_text(others)[2 * i + 1]);
            assert((2 * i) / 2 == i && (2 * i + 1) / 2 == i);
        }
        assert(bytes =~= others);
    }
    assert forall|i: int| 0 <= i < bytes.len() && (#[trigger] bytes[i]) < 10 implies hex_text(
        bytes,
    )[2 * i] == '0' && hex_text(bytes)[2 * i + 1] as u32 == 48 + bytes[i] by {
        assert((2 * i) / 2 == i && (2 * i + 1) / 2 == i);
    }
}

} // verus!
