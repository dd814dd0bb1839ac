//! HTTP headers: as the script writes and reads them, and as they go over the wire.
use reqwest::header::{HeaderMap, HeaderName, HeaderValue};
use vstd::prelude::*;
use vstd::string::*;
#[allow(unused_imports)]
use vstd::utf8::encode_utf8;

verus! {

/// A name and a value, as text.
pub type TextPair = (Seq<char>, Seq<char>);

/// A name and a value, the value as it goes over the wire.
pub type WirePair = (Seq<char>, Seq<u8>);

/// The headers of a message as `http` keeps them.
#[verifier::external_type_specification]
#[verifier::external_body]
#[verifier::reject_recursive_types(T)]
pub struct ExHeaderMap<T>(HeaderMap<T>);

/// One header value as `http` keeps it.
#[verifier::external_type_specification]
#[verifier::external_body]
pub struct ExHeaderValue(HeaderValue);

/// What a header map holds, in the order in which it is walked: a name comes once for each value
/// that it has.
pub uninterp spec fn header_entries(map: HeaderMap) -> Seq<WirePair>;

/// The pairs of a list, as text and bytes.
pub open spec fn wire_pairs(list: Seq<(String, Vec<u8>)>) -> Seq<WirePair> {
    list.map_values(|pair: (String, Vec<u8>)| (pair.0@, pair.1@))
}

/// The pairs of a list, as text.
pub open spec fn text_pairs(list: Seq<(String, String)>) -> Seq<TextPair> {
    list.map_values(|pair: (String, String)| (pair.0@, pair.1@))
}

/// Whether a header name may hold `c`.
pub open spec fn is_name_char(c: char) -> bool {
    ||| '0' <= c <= '9'
    ||| 'A' <= c <= 'Z'
    ||| 'a' <= c <= 'z'
    ||| '!' <= c <= '\''
    ||| c == '*' || c == '+' || c == '-' || c == '.'
    ||| c == '^' || c == '_' || c == '`' || c == '|' || c == '~'
}

/// Whether `name` is the name of a header.
pub open spec fn is_header_name(name: Seq<char>) -> bool {
    &&& 0 < name.len() <= 65535
    &&& forall|i: int| 0 <= i < name.len() ==> is_name_char(#[trigger] name[i])
}

/// `c` in lower case, where it is a letter of ASCII.
pub open spec fn lower_char(c: char) -> char {
    if 'A' <= c <= 'Z' {
        (c as u32 + 32) as char
    } else {
        c
    }
}

/// `text` with the letters of ASCII in lower case.
pub open spec fn lower(text: Seq<char>) -> Seq<char> {
    text.map_values(|c: char| lower_char(c))
}

/// Whether a header value may hold `c`: of the control characters of ASCII only the tab.
pub open spec fn is_value_char(c: char) -> bool {
    c == '\t' || (c >= ' ' && c != '\x7f')
}

/// Whether `value` can be sent as the value of a header.
pub open spec fn is_header_value(value: Seq<char>) -> bool {
    forall|i: int| 0 <= i < value.len() ==> is_value_char(#[trigger] value[i])
}

/// Whether a byte stands for a visible character of ASCII, a space or a tab.
pub open spec fn is_visible(b: u8) -> bool {
    32 <= b < 127 || b == 9
}

/// The text of a header value. There is none unless each byte is visible.
pub open spec fn value_text(value: Seq<u8>) -> Option<Seq<char>> {
    if forall|i: int| 0 <= i < value.len() ==> is_visible(#[trigger] value[i]) {
        Some(value.map_values(|b: u8| b as char))
    } else {
        None
    }
}

/// `http::header::HeaderName::from_bytes` accepts a name of 1 to 65535 of the characters that
/// [`is_name_char`] lists, and puts it in lower case.
#[verifier::external_body]
fn parse_header_name(name: &str) -> (r: Option<String>)
    ensures
        r is Some == is_header_name(name@),
        r matches Some(parsed) ==> parsed@ == lower(name@),
{
    HeaderName::from_bytes(name.as_bytes()).ok().map(|name| name.as_str().to_string())
}

/// `http::header::HeaderValue::from_str` accepts any text that holds no control character of
/// ASCII but the tab.
#[verifier::external_body]
fn accepts_header_value(value: &str) -> (r: bool)
    ensures
        r == is_header_value(value@),
{
    HeaderValue::from_str(value).is_ok()
}

/// `http::header::HeaderValue::to_str` gives the text of a value of visible characters alone, and
/// none of any other.
#[verifier::external_body]
fn header_value_text(value: &Vec<u8>) -> (r: Option<String>)
    ensures
        r is Some == value_text(value@) is Some,
        r matches Some(text) ==> Some(text@) == value_text(value@),
{
    HeaderValue::from_bytes(value).ok()?.to_str().ok().map(|text| text.to_string())
}

/// `http::HeaderMap::iter` walks the entries.
#[verifier::external_body]
fn header_pairs(map: &HeaderMap) -> (r: Vec<(String, Vec<u8>)>)
    ensures
        wire_pairs(r@) == header_entries(*map),
{
    map.iter().map(|(name, value)| (name.to_string(), value.as_bytes().to_vec())).collect()
}

/// `http::HeaderMap::new` makes a map without entries.
pub assume_specification[ HeaderMap::<HeaderValue>::new ]() -> (r: HeaderMap)
    ensures
        header_entries(r) == Seq::<WirePair>::empty(),
;

/// Whether an entry is under another name than `name`.
pub open spec fn under_other_name(name: Seq<char>) -> spec_fn(WirePair) -> bool {
    |entry: WirePair| entry.0 != name
}

/// The entries after `value` was put under `name`: in the place of the first value that the name
/// had, the others being dropped, or else at the end.
pub open spec fn put(entries: Seq<WirePair>, name: Seq<char>, value: Seq<u8>) -> Seq<WirePair>
    decreases entries.len(),
{
    if entries.len() == 0 {
        seq![(name, value)]
    } else if entries[0].0 == name {
        seq![(name, value)] + entries.drop_first().filter(under_other_name(name))
    } else {
        seq![entries[0]] + put(entries.drop_first(), name, value)
    }
}

/// How many entries a header map has room for, whatever their names.
pub const SURE_ENTRIES: usize = 6554;

/// `http::HeaderMap::try_insert` puts a value under a name, in lower case, or finds the map full
/// and leaves its entries alone. How many entries it takes depends on how their names hash:
/// 24576, and fewer where many names collide, though no fewer than [`SURE_ENTRIES`].
#[verifier::external_body]
fn try_insert_header(map: &mut HeaderMap, name: &str, value: &str) -> (r: bool)
    requires
        is_header_name(name@),
        is_header_value(value@),
    ensures
        r ==> header_entries(*final(map)) == put(
            header_entries(*old(map)),
            lower(name@),
            encode_utf8(value@),
        ),
        !r ==> header_entries(*final(map)) == header_entries(*old(map)),
        header_entries(*old(map)).len() < SURE_ENTRIES ==> r,
{
    let name = HeaderName::from_bytes(name.as_bytes()).unwrap();
    let value = HeaderValue::from_str(value).unwrap();
    map.try_insert(name, value).is_ok()
}

/// The value under each name of a list, the last one where a name comes more than once.
pub open spec fn table_of(pairs: Seq<TextPair>) -> Map<Seq<char>, Seq<char>>
    decreases pairs.len(),
{
    if pairs.len() == 0 {
        Map::empty()
    } else {
        table_of(pairs.drop_last()).insert(pairs.last().0, pairs.last().1)
    }
}

/// Whether no name comes twice in a list.
pub open spec fn distinct_names<V>(pairs: Seq<(Seq<char>, V)>) -> bool {
    forall|i: int, j: int|
        0 <= i < j < pairs.len() ==> (#[trigger] pairs[i]).0 != (#[trigger] pairs[j]).0
}

proof fn lemma_table_names(pairs: Seq<TextPair>, name: Seq<char>)
    ensures
        table_of(pairs).contains_key(name) == exists|i: int|
            0 <= i < pairs.len() && (#[trigger] pairs[i]).0 == name,
    decreases pairs.len(),
{
    if pairs.len() > 0 {
        let init = pairs.drop_last();
        lemma_table_names(init, name);
        if exists|i: int| 0 <= i < pairs.len() && (#[trigger] pairs[i]).0 == name {
            let i = choose|i: int| 0 <= i < pairs.len() && (#[trigger] pairs[i]).0 == name;
            if i < init.len() {
                assert(init[i].0 == name);
            }
        }
    }
}

proof fn lemma_table_value(pairs: Seq<TextPair>, i: int)
    requires
        distinct_names(pairs),
        0 <= i < pairs.len(),
    ensures
        table_of(pairs).contains_key(pairs[i].0),
        table_of(pairs)[pairs[i].0] == pairs[i].1,
    decreases pairs.len(),
{
    let init = pairs.drop_last();
    if i < init.len() {
        lemma_table_value(init, i);
    }
}

proof fn lemma_table_update(pairs: Seq<TextPair>, i: int, value: Seq<char>)
    requires
        distinct_names(pairs),
        0 <= i < pairs.len(),
    ensures
        distinct_names(pairs.update(i, (pairs[i].0, value))),
        table_of(pairs.update(i, (pairs[i].0, value))) == table_of(pairs).insert(
            pairs[i].0,
            value,
        ),
    decreases pairs.len(),
{
    let new = pairs.update(i, (pairs[i].0, value));
    let init = pairs.drop_last();
    if i == pairs.len() - 1 {
        assert(new.drop_last() =~= init);
    } else {
        lemma_table_update(init, i, value);
        assert(new.drop_last() =~= init.update(i, (init[i].0, value)));
    }
}

/// Headers as a script sees them: at most one value for each name.
pub struct HeaderTable {
    entries: Vec<(String, String)>,
}

impl HeaderTable {
    /// The names and values in the order in which they were put in.
    pub closed spec fn pairs(&self) -> Seq<TextPair> {
        text_pairs(self.entries@)
    }

    /// The value of each name.
    pub open spec fn view(&self) -> Map<Seq<char>, Seq<char>> {
        table_of(self.pairs())
    }

    /// No name comes twice.
    pub open spec fn wf(&self) -> bool {
        distinct_names(self.pairs())
    }

    /// A table without headers.
    pub fn new() -> (r: Self)
        ensures
            r.wf(),
            r.pairs() == Seq::<TextPair>::empty(),
            r@ == Map::<Seq<char>, Seq<char>>::empty(),
    {
        HeaderTable { entries: Vec::new() }
    }

    /// How many headers there are.
    pub fn len(&self) -> (r: usize)
        ensures
            r == self.pairs().len(),
    {
        self.entries.len()
    }

    /// The headers, to look at.
    pub fn entries(&self) -> (r: &Vec<(String, String)>)
        ensures
            text_pairs(r@) == self.pairs(),
            r@.len() == self.pairs().len(),
            forall|i: int|
                0 <= i < r@.len() ==> (#[trigger] r@[i]).0@ == self.pairs()[i].0 && r@[i].1@
                    == self.pairs()[i].1,
    {
        &self.entries
    }

    /// The value of `name`, if it has one.
    pub fn get(&self, name: &String) -> (r: Option<&String>)
        requires
            self.wf(),
        ensures
            r is Some == self@.contains_key(name@),
            r matches Some(value) ==> value@ == self@[name@],
    {
        let mut i: usize = 0;
        while i < self.entries.len()
            invariant
                self.wf(),
                i <= self.entries@.len(),
                forall|k: int| 0 <= k < i ==> (#[trigger] self.pairs()[k]).0 != name@,
            decreases self.entries@.len() - i,
        {
            if self.entries[i].0 == *name {
                proof {
                    lemma_table_value(self.pairs(), i as int);
                }
                return Some(&self.entries[i].1);
            }
            i += 1;
        }
        proof {
            lemma_table_names(self.pairs(), name@);
        }
        None
    }

    /// Gives `name` the value `value`, in place of the one it had.
    pub fn insert(&mut self, name: String, value: String)
        requires
            old(self).wf(),
        ensures
            final(self).wf(),
            final(self)@ == old(self)@.insert(name@, value@),
            final(self).pairs() == if old(self)@.contains_key(name@) {
                replaced(old(self).pairs(), name@, value@)
            } else {
                old(self).pairs().push((name@, value@))
            },
    {
        let ghost before = self.pairs();
        let mut i: usize = 0;
        while i < self.entries.len()
            invariant
                self.pairs() == before,
                self.wf(),
                i <= self.entries@.len(),
                forall|k: int| 0 <= k < i ==> (#[trigger] before[k]).0 != name@,
                before == old(self).pairs(),
            decreases self.entries@.len() - i,
        {
            if self.entries[i].0 == name {
                let ghost text = value@;
                proof {
                    lemma_table_names(before, name@);
                    lemma_table_update(before, i as int, text);
                }
                self.entries[i] = (name, value);
                proof {
                    assert(self.pairs() =~= before.update(i as int, (name@, text)));
                }
                return ;
            }
            i += 1;
        }
        let ghost pair = (name@, value@);
        self.entries.push((name, value));
        proof {
            lemma_table_names(before, pair.0);
            assert(self.pairs() =~= before.push(pair));
            assert(self.pairs().drop_last() =~= before);
        }
    }
}

/// A list with the value of `name` replaced.
pub open spec fn replaced(pairs: Seq<TextPair>, name: Seq<char>, value: Seq<char>) -> Seq<
    TextPair,
> {
    pairs.map_values(
        |pair: TextPair|
            if pair.0 == name {
                (name, value)
            } else {
                pair
            },
    )
}

/// The headers that have a value of visible characters alone, each with the last such value.
pub open spec fn visible_headers(entries: Seq<WirePair>) -> Map<Seq<char>, Seq<char>>
    decreases entries.len(),
{
    if entries.len() == 0 {
        Map::empty()
    } else {
        let init = visible_headers(entries.drop_last());
        match value_text(entries.last().1) {
            Some(text) => init.insert(entries.last().0, text),
            None => init,
        }
    }
}

/// Reads headers for a script: those whose value is text, the last value where there are more.
pub fn visible_table(list: &Vec<(String, Vec<u8>)>) -> (r: HeaderTable)
    ensures
        r.wf(),
        r@ == visible_headers(wire_pairs(list@)),
{
    let ghost entries = wire_pairs(list@);
    let mut table = HeaderTable::new();
    let mut i: usize = 0;
    while i < list.len()
        invariant
            i <= list@.len(),
            entries == wire_pairs(list@),
            table.wf(),
            table@ == visible_headers(entries.take(i as int)),
        decreases list@.len() - i,
    {
        proof {
            assert(entries.take(i + 1).drop_last() =~= entries.take(i as int));
        }
        if let Some(text) = header_value_text(&list[i].1) {
            table.insert(list[i].0.clone(), text);
        }
        i += 1;
    }
    assert(entries.take(list@.len() as int) =~= entries);
    table
}

/// Reads the headers of a message for a script.
pub fn visible_headers_of(map: &HeaderMap) -> (r: HeaderTable)
    ensures
        r.wf(),
        r@ == visible_headers(header_entries(*map)),
{
    visible_table(&header_pairs(map))
}

/// Whether each name of a list is the name of a header.
pub open spec fn all_header_names(pairs: Seq<TextPair>) -> bool {
    forall|i: int| 0 <= i < pairs.len() ==> is_header_name((#[trigger] pairs[i]).0)
}

/// The entries that a list of headers is sent as: one after the other they are put under their
/// name, in lower case; those with a value that cannot be sent are left out.
pub open spec fn sent_headers(pairs: Seq<TextPair>) -> Seq<WirePair>
    decreases pairs.len(),
{
    if pairs.len() == 0 {
        Seq::empty()
    } else {
        let init = sent_headers(pairs.drop_last());
        let (name, value) = pairs.last();
        if is_header_value(value) {
            put(init, lower(name), encode_utf8(value))
        } else {
            init
        }
    }
}

/// Whether each name of a table is the name of a header.
pub fn has_header_names(table: &HeaderTable) -> (r: bool)
    ensures
        r == all_header_names(table.pairs()),
        r <==> forall|i: int|
            0 <= i < table.pairs().len() ==> is_header_name((#[trigger] table.pairs()[i]).0),
{
    let mut i: usize = 0;
    while i < table.entries.len()
        invariant
            i <= table.entries@.len(),
            forall|k: int| 0 <= k < i ==> is_header_name((#[trigger] table.pairs()[k]).0),
        decreases table.entries@.len() - i,
    {
        assert(table.pairs()[i as int].0 == table.entries@[i as int].0@);
        if parse_header_name(&table.entries[i].0).is_none() {
            return false;
        }
        i += 1;
    }
    true
}

/// Writes the headers of a script for the wire. None where the header map has no room for them;
/// fewer than [`SURE_ENTRIES`] always find room.
pub fn request_headers(table: &HeaderTable) -> (r: Option<HeaderMap>)
    requires
        all_header_names(table.pairs()),
    ensures
        r matches Some(map) ==> header_entries(map) == sent_headers(table.pairs()),
        sent_headers(table.pairs()).len() < SURE_ENTRIES ==> r is Some,
        5 * sent_headers(table.pairs()).len() < 32768 ==> r is Some,
{
    let ghost pairs = table.pairs();
    let mut map = HeaderMap::<HeaderValue>::new();
    let mut i: usize = 0;
    while i < table.entries.len()
        invariant
            i <= table.entries@.len(),
            pairs == table.pairs(),
            all_header_names(pairs),
            header_entries(map) == sent_headers(pairs.take(i as int)),
        decreases table.entries@.len() - i,
    {
        let name: &str = table.entries[i].0.as_str();
        let value: &str = table.entries[i].1.as_str();
        proof {
            assert(pairs.take(i + 1).drop_last() =~= pairs.take(i as int));
            assert(is_header_name(pairs[i as int].0));
            lemma_sent_grows(pairs, i as int);
        }
        if accepts_header_value(value) {
            if !try_insert_header(&mut map, name, value) {
                return None;
            }
        }
        i += 1;
    }
    assert(pairs.take(pairs.len() as int) =~= pairs);
    Some(map)
}

proof fn lemma_sent_grows(pairs: Seq<TextPair>, i: int)
    requires
        0 <= i <= pairs.len(),
    ensures
        sent_headers(pairs.take(i)).len() <= sent_headers(pairs).len(),
    decreases pairs.len(),
{
    if i == pairs.len() {
        assert(pairs.take(i) =~= pairs);
    } else {
        let init = pairs.drop_last();
        lemma_sent_grows(init, i);
        assert(init.take(i) =~= pairs.take(i));
        each_header_is_sent_once(init);
        lemma_put_shape(sent_headers(init), lower(pairs.last().0), encode_utf8(pairs.last().1));
    }
}

proof fn lemma_put_shape(entries: Seq<WirePair>, name: Seq<char>, value: Seq<u8>)
    requires
        distinct_names(entries),
    ensures
        forall|i: int|
            0 <= i < entries.len() && (#[trigger] entries[i]).0 == name ==> put(
                entries,
                name,
                value,
            ) == entries.update(i, (name, value)),
        (forall|i: int| 0 <= i < entries.len() ==> (#[trigger] entries[i]).0 != name) ==> put(
            entries,
            name,
            value,
        ) == entries.push((name, value)),
    decreases entries.len(),
{
    if entries.len() > 0 {
        let rest = entries.drop_first();
        lemma_put_shape(rest, name, value);
        if entries[0].0 == name {
            lemma_filter_all(rest, under_other_name(name));
        } else {
            assert forall|i: int| 0 <= i < entries.len() && (#[trigger] entries[i]).0
                == name implies put(entries, name, value) == entries.update(i, (name, value)) by {
                assert(rest[i - 1].0 == name);
            }
        }
    }
}

proof fn lemma_filter_all<T>(s: Seq<T>, keep: spec_fn(T) -> bool)
    requires
        forall|i: int| 0 <= i < s.len() ==> keep(#[trigger] s[i]),
    ensures
        s.filter(keep) == s,
    decreases s.len(),
{
    reveal(Seq::filter);
    if s.len() > 0 {
        lemma_filter_all(s.drop_last(), keep);
    }
}

proof fn lemma_put_distinct(entries: Seq<WirePair>, name: Seq<char>, value: Seq<u8>)
    requires
        distinct_names(entries),
    ensures
        distinct_names(put(entries, name, value)),
{
    lemma_put_shape(entries, name, value);
}

proof fn lemma_visible_update(entries: Seq<WirePair>, i: int, value: Seq<u8>, text: Seq<char>)
    requires
        distinct_names(entries),
        0 <= i < entries.len(),
        value_text(value) == Some(text),
    ensures
        visible_headers(entries.update(i, (entries[i].0, value))) == visible_headers(
            entries,
        ).insert(entries[i].0, text),
    decreases entries.len(),
{
    let name = entries[i].0;
    let new = entries.update(i, (name, value));
    let init = entries.drop_last();
    if i == entries.len() - 1 {
        assert(new.drop_last() =~= init);
    } else {
        lemma_visible_update(init, i, value, text);
        assert(new.drop_last() =~= init.update(i, (init[i].0, value)));
    }
}

proof fn lemma_visible_put(
    entries: Seq<WirePair>,
    name: Seq<char>,
    value: Seq<u8>,
    text: Seq<char>,
)
    requires
        distinct_names(entries),
        value_text(value) == Some(text),
    ensures
        visible_headers(put(entries, name, value)) == visible_headers(entries).insert(name, text),
{
    lemma_put_shape(entries, name, value);
    if exists|i: int| 0 <= i < entries.len() && (#[trigger] entries[i]).0 == name {
        let i = choose|i: int| 0 <= i < entries.len() && (#[trigger] entries[i]).0 == name;
        lemma_visible_update(entries, i, value, text);
    } else {
        assert(entries.push((name, value)).drop_last() =~= entries);
    }
}

/// Whether `text` is made of visible characters of ASCII, spaces and tabs.
pub open spec fn is_visible_text(text: Seq<char>) -> bool {
    forall|i: int| 0 <= i < text.len() ==> (' ' <= #[trigger] text[i] < '\x7f' || text[i] == '\t')
}

/// Visible text that goes over the wire as a header value is read as what it was.
pub proof fn visible_text_survives_the_wire(text: Seq<char>)
    requires
        is_visible_text(text),
    ensures
        is_header_value(text),
        value_text(encode_utf8(text)) == Some(text),
{
    assert forall|i: int| 0 <= i < text.len() implies is_value_char(#[trigger] text[i]) by {}
    vstd::utf8::is_ascii_chars_encode_utf8(text);
}

/// No header is sent twice, however its name was spelled.
pub proof fn each_header_is_sent_once(pairs: Seq<TextPair>)
    ensures
        distinct_names(sent_headers(pairs)),
    decreases pairs.len(),
{
    if pairs.len() > 0 {
        each_header_is_sent_once(pairs.drop_last());
        lemma_put_distinct(
            sent_headers(pairs.drop_last()),
            lower(pairs.last().0),
            encode_utf8(pairs.last().1),
        );
    }
}

/// No more headers are sent than were written.
pub proof fn no_header_is_made_up(pairs: Seq<TextPair>)
    ensures
        sent_headers(pairs).len() <= pairs.len(),
    decreases pairs.len(),
{
    if pairs.len() > 0 {
        let init = pairs.drop_last();
        no_header_is_made_up(init);
        each_header_is_sent_once(init);
        lemma_put_shape(sent_headers(init), lower(pairs.last().0), encode_utf8(pairs.last().1));
    }
}

/// Headers of visible text that are sent and read again are the same, under their names in lower
/// case.
pub proof fn headers_survive_the_wire(pairs: Seq<TextPair>)
    requires
        forall|i: int| 0 <= i < pairs.len() ==> is_visible_text((#[trigger] pairs[i]).1),
    ensures
        visible_headers(sent_headers(pairs)) == table_of(
            pairs.map_values(|pair: TextPair| (lower(pair.0), pair.1)),
        ),
    decreases pairs.len(),
{
    let lowered = pairs.map_values(|pair: TextPair| (lower(pair.0), pair.1));
    if pairs.len() > 0 {
        let init = pairs.drop_last();
        let (name, value) = pairs.last();
        headers_survive_the_wire(init);
        each_header_is_sent_once(init);
        visible_text_survives_the_wire(value);
        lemma_visible_put(sent_headers(init), lower(name), encode_utf8(value), value);
        assert(lowered.drop_last() =~= init.map_values(
            |pair: TextPair| (lower(pair.0), pair.1),
        ));
    }
}

/// Of two values under one name the later one is sent.
pub proof fn a_later_value_replaces_the_earlier(
    entries: Seq<WirePair>,
    name: Seq<char>,
    earlier: Seq<u8>,
    later: Seq<u8>,
)
    requires
        distinct_names(entries),
    ensures
        put(put(entries, name, earlier), name, later) == put(entries, name, later),
{
    lemma_put_shape(entries, name, earlier);
    lemma_put_shape(entries, name, later);
    lemma_put_distinct(entries, name, earlier);
    let once = put(entries, name, earlier);
    lemma_put_shape(once, name, later);
    if exists|i: int| 0 <= i < entries.len() && (#[trigger] entries[i]).0 == name {
        let i = choose|i: int| 0 <= i < entries.len() && (#[trigger] entries[i]).0 == name;
        assert(once[i].0 == name);
    } else {
        assert(once[entries.len() as int].0 == name);
    }
}

/// A header name has from 1 to 65535 characters, each a letter or a digit of ASCII or one of the
/// signs that a name may hold; no other text is one.
pub proof fn header_names_are_made_of_name_characters(name: Seq<char>)
    ensures
        is_header_name(name) <==> {
            &&& 1 <= name.len() <= 65535
            &&& forall|i: int|
                0 <= i < name.len() ==> {
                    ||| 33 <= (#[trigger] name[i]) as int <= 39
                    ||| 48 <= name[i] as int <= 57
                    ||| 65 <= name[i] as int <= 90
                    ||| 94 <= name[i] as int <= 122
                    ||| name[i] as int == 42 || name[i] as int == 43
                    ||| name[i] as int == 45 || name[i] as int == 46
                    ||| name[i] as int == 124 || name[i] as int == 126
                }
        },
{
    if is_header_name(name) {
        assert forall|i: int| 0 <= i < name.len() implies {
            ||| 33 <= (#[trigger] name[i]) as int <= 39
            ||| 48 <= name[i] as int <= 57
            ||| 65 <= name[i] as int <= 90
            ||| 94 <= name[i] as int <= 122
            ||| name[i] as int == 42 || name[i] as int == 43
            ||| name[i] as int == 45 || name[i] as int == 46
            ||| name[i] as int == 124 || name[i] as int == 126
        } by {
            assert(is_name_char(name[i]));
        }
    }
}

/// A header value is any text without control characters of ASCII, the tab excepted.
pub proof fn header_values_hold_no_control_characters(value: Seq<char>)
    ensures
        is_header_value(value) <==> forall|i: int|
            0 <= i < value.len() ==> (#[trigger] value[i]) as int == 9 || (value[i] as int >= 32
                && value[i] as int != 127),
{
    if is_header_value(value) {
        assert forall|i: int| 0 <= i < value.len() implies (#[trigger] value[i]) as int == 9 || (
        value[i] as int >= 32 && value[i] as int != 127) by {
            assert(is_value_char(value[i]));
        }
    }
}

/// A value has a text if and only if all its bytes are visible or tabs, and then the text has a
/// character for each byte, of the same number.
pub proof fn the_text_of_a_value_is_its_bytes(value: Seq<u8>)
    ensures
        value_text(value) is Some <==> forall|i: int|
            0 <= i < value.len() ==> (#[trigger] value[i]) == 9 || 32 <= value[i] <= 126,
        value_text(value) matches Some(text) ==> {
            &&& text.len() == value.len()
            &&& forall|i: int| 0 <= i < value.len() ==> (#[trigger] text[i]) as int == value[i]
        },
{
    if value_text(value) is Some {
        assert forall|i: int| 0 <= i < value.len() implies (#[trigger] value[i]) == 9 || 32
            <= value[i] <= 126 by {
            assert(is_visible(value[i]));
        }
    }
}

/// Lower case changes the letters from A to Z and nothing else, each in its place.
pub proof fn lower_case_changes_capital_letters_alone(text: Seq<char>)
    ensures
        lower(text).len() == text.len(),
        forall|i: int|
            0 <= i < text.len() && 65 <= (#[trigger] text[i]) as int <= 90 ==> lower(text)[i]
                as int == text[i] as int + 32,
        forall|i: int|
            0 <= i < text.len() && !(65 <= (#[trigger] text[i]) as int <= 90) ==> lower(text)[i]
                == text[i],
        lower(lower(text)) == lower(text),
{
    assert(lower(lower(text)) =~= lower(text));
}

/// After a value was put under a name, the name has that value and no other, and the entries
/// under other names are the same in the same order.
pub proof fn putting_a_value_touches_one_name(
    entries: Seq<WirePair>,
    name: Seq<char>,
    value: Seq<u8>,
)
    requires
        distinct_names(entries),
    ensures
        put(entries, name, value).contains((name, value)),
        forall|i: int|
            0 <= i < put(entries, name, value).len() && (#[trigger] put(
                entries,
                name,
                value,
            )[i]).0 == name ==> put(entries, name, value)[i].1 == value,
        forall|i: int|
            0 <= i < entries.len() ==> put(entries, name, value)[i].0 == (
            #[trigger] entries[i]).0,
        forall|i: int|
            0 <= i < entries.len() && (#[trigger] entries[i]).0 != name ==> put(
                entries,
                name,
                value,
            )[i] == entries[i],
        entries.len() <= put(entries, name, value).len() <= entries.len() + 1,
        forall|i: int|
            entries.len() <= i < put(entries, name, value).len() ==> #[trigger] put(
                entries,
                name,
                value,
            )[i] == (name, value),
{
    lemma_put_shape(entries, name, value);
    let new = put(entries, name, value);
    if exists|i: int| 0 <= i < entries.len() && (#[trigger] entries[i]).0 == name {
        let i = choose|i: int| 0 <= i < entries.len() && (#[trigger] entries[i]).0 == name;
        assert(new == entries.update(i, (name, value)));
        assert(new[i] == (name, value));
    } else {
        assert(new == entries.push((name, value)));
        assert(new[entries.len() as int] == (name, value));
    }
}

/// The last value of a header that can be sent is sent, under the name in lower case.
pub proof fn the_last_value_is_sent(pairs: Seq<TextPair>, i: int)
    requires
        0 <= i < pairs.len(),
        is_header_value(pairs[i].1),
        forall|j: int|
            i < j < pairs.len() && lower((#[trigger] pairs[j]).0) == lower(pairs[i].0)
                ==> !is_header_value(pairs[j].1),
    ensures
        sent_headers(pairs).contains((lower(pairs[i].0), encode_utf8(pairs[i].1))),
    decreases pairs.len(),
{
    let init = pairs.drop_last();
    let sent = sent_headers(init);
    let entry = (lower(pairs[i].0), encode_utf8(pairs[i].1));
    let last = pairs.last();
    each_header_is_sent_once(init);
    putting_a_value_touches_one_name(sent, lower(last.0), encode_utf8(last.1));
    if i < pairs.len() - 1 {
        assert forall|j: int|
            i < j < init.len() && lower((#[trigger] init[j]).0) == lower(
                init[i].0,
            ) implies !is_header_value(init[j].1) by {
            assert(init[j] == pairs[j]);
        }
        the_last_value_is_sent(init, i);
        let k = choose|k: int| 0 <= k < sent.len() && sent[k] == entry;
        if is_header_value(last.1) {
            assert(pairs[pairs.len() - 1] == last);
            assert(lower(last.0) != entry.0);
            assert(sent[k].0 != lower(last.0));
            assert(sent_headers(pairs)[k] == entry);
        }
    }
}

/// What is sent was written: each entry is the value of a header that can be sent, after which no
/// other such value was written under its name.
pub proof fn what_is_sent_was_written(pairs: Seq<TextPair>, k: int)
    requires
        0 <= k < sent_headers(pairs).len(),
    ensures
        exists|i: int|
            {
                &&& 0 <= i < pairs.len()
                &&& is_header_value((#[trigger] pairs[i]).1)
                &&& sent_headers(pairs)[k] == (lower(pairs[i].0), encode_utf8(pairs[i].1))
                &&& forall|j: int|
                    i < j < pairs.len() && lower((#[trigger] pairs[j]).0) == lower(pairs[i].0)
                        ==> !is_header_value(pairs[j].1)
            },
    decreases pairs.len(),
{
    let init = pairs.drop_last();
    let sent = sent_headers(init);
    let last = pairs.last();
    let name = lower(last.0);
    each_header_is_sent_once(init);
    putting_a_value_touches_one_name(sent, name, encode_utf8(last.1));
    assert(pairs[pairs.len() - 1] == last);
    if is_header_value(last.1) && sent_headers(pairs)[k].0 == name {
        assert(sent_headers(pairs)[k] == (name, encode_utf8(last.1)));
    } else {
        assert(k < sent.len());
        assert(sent_headers(pairs)[k] == sent[k]);
        what_is_sent_was_written(init, k);
        let i = choose|i: int|
            {
                &&& 0 <= i < init.len()
                &&& is_header_value((#[trigger] init[i]).1)
                &&& sent[k] == (lower(init[i].0), encode_utf8(init[i].1))
                &&& forall|j: int|
                    i < j < init.len() && lower((#[trigger] init[j]).0) == lower(init[i].0)
                        ==> !is_header_value(init[j].1)
            };
        assert(is_header_value(pairs[i].1));
        assert forall|j: int|
            i < j < pairs.len() && lower((#[trigger] pairs[j]).0) == lower(
                pairs[i].0,
            ) implies !is_header_value(pairs[j].1) by {
            if j < init.len() {
                assert(init[j] == pairs[j]);
            }
        }
    }
}

/// Headers are sent in the order in which their names were first written: one more header keeps
/// the earlier names in their places.
pub proof fn headers_keep_their_places(pairs: Seq<TextPair>, more: TextPair)
    ensures
        sent_headers(pairs).len() <= sent_headers(pairs.push(more)).len(),
        forall|k: int|
            0 <= k < sent_headers(pairs).len() ==> (#[trigger] sent_headers(pairs)[k]).0
                == sent_headers(pairs.push(more))[k].0,
{
    assert(pairs.push(more).drop_last() =~= pairs);
    each_header_is_sent_once(pairs);
    putting_a_value_touches_one_name(sent_headers(pairs), lower(more.0), encode_utf8(more.1));
}

/// The last value of a header that is text is the one that is read.
pub proof fn the_last_text_is_read(entries: Seq<WirePair>, i: int)
    requires
        0 <= i < entries.len(),
        value_text(entries[i].1) is Some,
        forall|j: int|
            i < j < entries.len() && (#[trigger] entries[j]).0 == entries[i].0 ==> value_text(
                entries[j].1,
            ) is None,
    ensures
        visible_headers(entries).contains_key(entries[i].0),
        Some(visible_headers(entries)[entries[i].0]) == value_text(entries[i].1),
    decreases entries.len(),
{
    let init = entries.drop_last();
    if i < entries.len() - 1 {
        assert forall|j: int|
            i < j < init.len() && (#[trigger] init[j]).0 == init[i].0 implies value_text(
            init[j].1,
        ) is None by {
            assert(init[j] == entries[j]);
        }
        the_last_text_is_read(init, i);
        assert(entries[entries.len() - 1] == entries.last());
    }
}

/// What is read was there: a header that is read has a value that is text.
pub proof fn what_is_read_was_there(entries: Seq<WirePair>, name: Seq<char>)
    requires
        visible_headers(entries).contains_key(name),
    ensures
        exists|i: int|
            {
                &&& 0 <= i < entries.len()
                &&& (#[trigger] entries[i]).0 == name
                &&& value_text(entries[i].1) == Some(visible_headers(entries)[name])
            },
    decreases entries.len(),
{
    if entries.len() > 0 {
        let init = entries.drop_last();
        let last = entries.last();
        assert(entries[entries.len() - 1] == last);
        if !(last.0 == name && value_text(last.1) is Some) {
            what_is_read_was_there(init, name);
            let i = choose|i: int|
                {
                    &&& 0 <= i < init.len()
                    &&& (#[trigger] init[i]).0 == name
                    &&& value_text(init[i].1) == Some(visible_headers(init)[name])
                };
            assert(entries[i] == init[i]);
        }
    }
}

/// A table has a value for each name of its list and for no other, and where no name comes twice
/// it is the value beside the name.
pub proof fn a_table_has_the_values_of_its_list(pairs: Seq<TextPair>, name: Seq<char>, i: int)
    requires
        distinct_names(pairs),
    ensures
        table_of(pairs).contains_key(name) <==> exists|k: int|
            0 <= k < pairs.len() && (#[trigger] pairs[k]).0 == name,
        0 <= i < pairs.len() ==> table_of(pairs).contains_key(pairs[i].0) && table_of(
            pairs,
        )[pairs[i].0] == pairs[i].1,
{
    lemma_table_names(pairs, name);
    if 0 <= i < pairs.len() {
        lemma_table_value(pairs, i);
    }
}

/// Replacing a value keeps the names in their places, and all other values.
pub proof fn replacing_touches_one_value(pairs: Seq<TextPair>, name: Seq<char>, value: Seq<char>)
    ensures
        replaced(pairs, name, value).len() == pairs.len(),
        forall|i: int|
            0 <= i < pairs.len() ==> {
                &&& replaced(pairs, name, value)[i].0 == (#[trigger] pairs[i]).0
                &&& pairs[i].0 == name ==> replaced(pairs, name, value)[i].1 == value
                &&& pairs[i].0 != name ==> replaced(pairs, name, value)[i].1 == pairs[i].1
            },
{
}

/// The headers of a request are named well if and only if each of them is.
pub proof fn one_bad_name_spoils_the_headers(pairs: Seq<TextPair>, i: int)
    requires
        0 <= i < pairs.len(),
    ensures
        !is_header_name(pairs[i].0) ==> !all_header_names(pairs),
        all_header_names(pairs) <==> is_header_name(pairs[i].0) && all_header_names(
            pairs.remove(i),
        ),
{
    let rest = pairs.remove(i);
    if all_header_names(pairs) {
        assert forall|k: int| 0 <= k < rest.len() implies is_header_name(
            (#[trigger] rest[k]).0,
        ) by {
            if k < i {
                assert(rest[k] == pairs[k]);
            } else {
                assert(rest[k] == pairs[k + 1]);
            }
        }
    }
    if is_header_name(pairs[i].0) && all_header_names(rest) {
        assert forall|k: int| 0 <= k < pairs.len() implies is_header_name(
            (#[trigger] pairs[k]).0,
        ) by {
            if k < i {
                assert(rest[k] == pairs[k]);
            } else if k > i {
                assert(rest[k - 1] == pairs[k]);
            }
        }
    }
}

/// A list is seen pair by pair, each in its place, with its whole name and value.
pub proof fn a_list_is_seen_pair_by_pair(
    texts: Seq<(String, String)>,
    values: Seq<(String, Vec<u8>)>,
)
    ensures
        text_pairs(texts).len() == texts.len(),
        wire_pairs(values).len() == values.len(),
        forall|i: int|
            0 <= i < texts.len() ==> text_pairs(texts)[i].0 == (#[trigger] texts[i]).0@
                && text_pairs(texts)[i].1 == texts[i].1@,
        forall|i: int|
            0 <= i < values.len() ==> wire_pairs(values)[i].0 == (#[trigger] values[i]).0@
                && wire_pairs(values)[i].1 == values[i].1@,
{
}

} // verus!
