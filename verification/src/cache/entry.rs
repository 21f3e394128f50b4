//! Cached decisions, the shards that hold them, and their encoding.
use crate::model::{optional_view, views};
use crate::pb::text_map_field;
use crate::text_map::{ascending, lemma_ascending_exists, map_of, TextMap};
use crate::wire::{
    decode, decoded, delimited_field, field_read, is_tag, lemma_merged_delimited,
    lemma_merged_number, lemma_merged_text, merge_nested, merge_repeated, merged, nested_merged,
    number_field, payload_number, payload_text, put_delimited, put_number, put_text, read_text,
    read_varint, text_field, FieldValue, Payload, WireMessage, RECURSION_LIMIT,
};
use vstd::prelude::*;

verus! {

/// A header that belongs to a cached decision.
#[derive(Debug, PartialEq)]
pub struct CachedHeader {
    /// Field 1.
    pub name: String,
    /// Field 2.
    pub value: String,
}

impl View for CachedHeader {
    type V = (Seq<char>, Seq<char>);

    open spec fn view(&self) -> (Seq<char>, Seq<char>) {
        (self.name@, self.value@)
    }
}

impl Clone for CachedHeader {
    fn clone(&self) -> (copy: Self)
        ensures
            copy@ == self@,
    {
        CachedHeader { name: self.name.clone(), value: self.value.clone() }
    }
}

impl WireMessage for CachedHeader {
    open spec fn initial() -> (Seq<char>, Seq<char>) {
        (seq![], seq![])
    }

    fn empty() -> (message: Self) {
        CachedHeader { name: String::new(), value: String::new() }
    }

    open spec fn is_map(tag: u32) -> bool {
        false
    }

    fn holds_map(tag: u32) -> (map: bool) {
        false
    }

    open spec fn field_merged(
        model: (Seq<char>, Seq<char>),
        tag: u32,
        payload: Payload,
        budget: nat,
    ) -> Option<(Seq<char>, Seq<char>)> {
        if tag == 1 {
            match payload_text(payload) {
                Some(name) => Some((name, model.1)),
                None => None,
            }
        } else if tag == 2 {
            match payload_text(payload) {
                Some(value) => Some((model.0, value)),
                None => None,
            }
        } else {
            Some(model)
        }
    }

    fn merge_field(&mut self, tag: u32, value: FieldValue<'_>, budget: u32) -> (valid: bool) {
        if tag == 1 {
            match read_text(value) {
                Some(text) => {
                    self.name = text;
                    true
                },
                None => false,
            }
        } else if tag == 2 {
            match read_text(value) {
                Some(text) => {
                    self.value = text;
                    true
                },
                None => false,
            }
        } else {
            true
        }
    }
}

impl Default for CachedHeader {
    fn default() -> (message: Self)
        ensures
            message@ == CachedHeader::initial(),
    {
        CachedHeader::empty()
    }
}

/// A cached decision, with what it does to the request or to the reply.
#[derive(Debug, PartialEq)]
pub struct CacheEntry {
    /// Field 1: the time at which the entry is of no use any more.
    pub expires_at_ms: u64,
    /// Field 2: whether the request is let through.
    pub allowed: bool,
    /// Field 3: the status of the reply to a denied request.
    pub denied_status: u32,
    /// Field 4: the body of the reply to a denied request.
    pub denied_body: String,
    /// Field 5: the headers of the reply to a denied request.
    pub response_headers: Vec<CachedHeader>,
    /// Field 6: the headers that an allowed request is given.
    pub request_headers: Vec<CachedHeader>,
}

/// The mathematical [`CacheEntry`].
pub struct CacheEntryModel {
    pub expires_at_ms: u64,
    pub allowed: bool,
    pub denied_status: u32,
    pub denied_body: Seq<char>,
    pub response_headers: Seq<(Seq<char>, Seq<char>)>,
    pub request_headers: Seq<(Seq<char>, Seq<char>)>,
}

impl View for CacheEntry {
    type V = CacheEntryModel;

    open spec fn view(&self) -> CacheEntryModel {
        CacheEntryModel {
            expires_at_ms: self.expires_at_ms,
            allowed: self.allowed,
            denied_status: self.denied_status,
            denied_body: self.denied_body@,
            response_headers: views(self.response_headers@),
            request_headers: views(self.request_headers@),
        }
    }
}

fn copy_headers(headers: &Vec<CachedHeader>) -> (copies: Vec<CachedHeader>)
    ensures
        views(copies@) == views(headers@),
{
    let mut copies: Vec<CachedHeader> = Vec::new();
    let mut i: usize = 0;
    while i < headers.len()
        invariant
            i <= headers@.len(),
            views(copies@) =~= views(headers@).take(i as int),
        decreases headers@.len() - i,
    {
        let ghost before = copies@;
        copies.push(headers[i].clone());
        proof {
            assert(views(copies@) =~= views(before).push(headers@[i as int]@));
        }
        i = i + 1;
    }
    copies
}

impl Clone for CacheEntry {
    fn clone(&self) -> (copy: Self)
        ensures
            copy@ == self@,
    {
        CacheEntry {
            expires_at_ms: self.expires_at_ms,
            allowed: self.allowed,
            denied_status: self.denied_status,
            denied_body: self.denied_body.clone(),
            response_headers: copy_headers(&self.response_headers),
            request_headers: copy_headers(&self.request_headers),
        }
    }
}

impl WireMessage for CacheEntry {
    open spec fn initial() -> CacheEntryModel {
        CacheEntryModel {
            expires_at_ms: 0,
            allowed: false,
            denied_status: 0,
            denied_body: seq![],
            response_headers: seq![],
            request_headers: seq![],
        }
    }

    fn empty() -> (message: Self) {
        let message = CacheEntry {
            expires_at_ms: 0,
            allowed: false,
            denied_status: 0,
            denied_body: String::new(),
            response_headers: Vec::new(),
            request_headers: Vec::new(),
        };
        proof {
            assert(views(message.response_headers@) =~= seq![]);
            assert(views(message.request_headers@) =~= seq![]);
        }
        message
    }

    open spec fn is_map(tag: u32) -> bool {
        false
    }

    fn holds_map(tag: u32) -> (map: bool) {
        false
    }

    open spec fn field_merged(
        model: CacheEntryModel,
        tag: u32,
        payload: Payload,
        budget: nat,
    ) -> Option<CacheEntryModel> {
        if tag == 1 {
            match payload_number(payload) {
                Some(number) => Some(CacheEntryModel { expires_at_ms: number, ..model }),
                None => None,
            }
        } else if tag == 2 {
            match payload_number(payload) {
                Some(number) => Some(CacheEntryModel { allowed: number != 0, ..model }),
                None => None,
            }
        } else if tag == 3 {
            match payload_number(payload) {
                Some(number) => Some(CacheEntryModel { denied_status: number as u32, ..model }),
                None => None,
            }
        } else if tag == 4 {
            match payload_text(payload) {
                Some(denied_body) => Some(CacheEntryModel { denied_body, ..model }),
                None => None,
            }
        } else if tag == 5 {
            match nested_merged::<CachedHeader>(CachedHeader::initial(), payload, budget) {
                Some(header) => Some(
                    CacheEntryModel {
                        response_headers: model.response_headers.push(header),
                        ..model
                    },
                ),
                None => None,
            }
        } else if tag == 6 {
            match nested_merged::<CachedHeader>(CachedHeader::initial(), payload, budget) {
                Some(header) => Some(
                    CacheEntryModel {
                        request_headers: model.request_headers.push(header),
                        ..model
                    },
                ),
                None => None,
            }
        } else {
            Some(model)
        }
    }

    fn merge_field(&mut self, tag: u32, value: FieldValue<'_>, budget: u32) -> (valid: bool) {
        if tag == 1 {
            match read_varint(value) {
                Some(number) => {
                    self.expires_at_ms = number;
                    true
                },
                None => false,
            }
        } else if tag == 2 {
            match read_varint(value) {
                Some(number) => {
                    self.allowed = number != 0;
                    true
                },
                None => false,
            }
        } else if tag == 3 {
            match read_varint(value) {
                Some(number) => {
                    self.denied_status = number as u32;
                    true
                },
                None => false,
            }
        } else if tag == 4 {
            match read_text(value) {
                Some(text) => {
                    self.denied_body = text;
                    true
                },
                None => false,
            }
        } else if tag == 5 {
            merge_repeated(&mut self.response_headers, value, budget)
        } else if tag == 6 {
            merge_repeated(&mut self.request_headers, value, budget)
        } else {
            true
        }
    }
}

impl Default for CacheEntry {
    fn default() -> (message: Self)
        ensures
            message@ == CacheEntry::initial(),
    {
        CacheEntry::empty()
    }
}

/// A key of the cache with its decision, as a shard's encoding holds them.
#[derive(Clone, Debug, PartialEq)]
pub struct ShardItem {
    /// Field 1.
    pub key: String,
    /// Field 2.
    pub entry: CacheEntry,
}

impl View for ShardItem {
    type V = (Seq<char>, CacheEntryModel);

    open spec fn view(&self) -> (Seq<char>, CacheEntryModel) {
        (self.key@, self.entry@)
    }
}

impl WireMessage for ShardItem {
    open spec fn initial() -> (Seq<char>, CacheEntryModel) {
        (seq![], CacheEntry::initial())
    }

    fn empty() -> (message: Self) {
        ShardItem { key: String::new(), entry: CacheEntry::empty() }
    }

    open spec fn is_map(tag: u32) -> bool {
        false
    }

    fn holds_map(tag: u32) -> (map: bool) {
        false
    }

    open spec fn field_merged(
        model: (Seq<char>, CacheEntryModel),
        tag: u32,
        payload: Payload,
        budget: nat,
    ) -> Option<(Seq<char>, CacheEntryModel)> {
        if tag == 1 {
            match payload_text(payload) {
                Some(key) => Some((key, model.1)),
                None => None,
            }
        } else if tag == 2 {
            match nested_merged::<CacheEntry>(model.1, payload, budget) {
                Some(entry) => Some((model.0, entry)),
                None => None,
            }
        } else {
            Some(model)
        }
    }

    fn merge_field(&mut self, tag: u32, value: FieldValue<'_>, budget: u32) -> (valid: bool) {
        if tag == 1 {
            match read_text(value) {
                Some(text) => {
                    self.key = text;
                    true
                },
                None => false,
            }
        } else if tag == 2 {
            merge_nested(&mut self.entry, value, budget)
        } else {
            true
        }
    }
}

/// One shard of the cache.
#[derive(Clone, Debug, PartialEq)]
pub struct CacheShard {
    /// Field 1: the decisions by their keys.
    pub entries: TextMap<CacheEntry>,
}

impl View for CacheShard {
    type V = Map<Seq<char>, CacheEntryModel>;

    open spec fn view(&self) -> Map<Seq<char>, CacheEntryModel> {
        self.entries@
    }
}

impl Default for CacheShard {
    fn default() -> (shard: Self)
        ensures
            shard@ == Map::<Seq<char>, CacheEntryModel>::empty(),
    {
        CacheShard { entries: TextMap::new() }
    }
}

impl WireMessage for CacheShard {
    open spec fn initial() -> Map<Seq<char>, CacheEntryModel> {
        Map::empty()
    }

    fn empty() -> (message: Self) {
        CacheShard { entries: TextMap::new() }
    }

    open spec fn is_map(tag: u32) -> bool {
        tag == 1
    }

    fn holds_map(tag: u32) -> (map: bool) {
        tag == 1
    }

    open spec fn field_merged(
        model: Map<Seq<char>, CacheEntryModel>,
        tag: u32,
        payload: Payload,
        budget: nat,
    ) -> Option<Map<Seq<char>, CacheEntryModel>> {
        if tag == 1 {
            match nested_merged::<ShardItem>(ShardItem::initial(), payload, budget) {
                Some(item) => Some(model.insert(item.0, item.1)),
                None => None,
            }
        } else {
            Some(model)
        }
    }

    fn merge_field(&mut self, tag: u32, value: FieldValue<'_>, budget: u32) -> (valid: bool) {
        if tag == 1 {
            let mut item = ShardItem::empty();
            if !merge_nested(&mut item, value, budget) {
                return false;
            }
            self.entries.insert(item.key, item.entry);
            true
        } else {
            true
        }
    }
}

impl CacheEntryModel {
    /// The encoding of the entry.
    pub open spec fn encoded(self) -> Seq<u8> {
        number_field(1, self.expires_at_ms) + number_field(
            2,
            if self.allowed {
                1
            } else {
                0
            },
        ) + number_field(3, self.denied_status as u64) + text_field(4, self.denied_body)
            + text_map_field(5, self.response_headers) + text_map_field(6, self.request_headers)
    }
}

/// The encoding of a key and its decision. What the reader starts from anyway is left out.
pub open spec fn item_encoded(key: Seq<char>, entry: CacheEntryModel) -> Seq<u8> {
    text_field(1, key) + (if entry == CacheEntry::initial() {
        seq![]
    } else {
        delimited_field(2, entry.encoded())
    })
}

/// The encoding of a shard's items, one after the other.
pub open spec fn items_encoded(items: Seq<(Seq<char>, CacheEntryModel)>) -> Seq<u8>
    decreases items.len(),
{
    if items.len() == 0 {
        seq![]
    } else {
        items_encoded(items.drop_last()) + delimited_field(
            1,
            item_encoded(items.last().0, items.last().1),
        )
    }
}

/// The encoding of a shard: its items in the order of their keys.
pub open spec fn shard_encoded(shard: Map<Seq<char>, CacheEntryModel>) -> Seq<u8> {
    items_encoded(ascending(shard))
}

fn put_headers(tag: u32, headers: &Vec<CachedHeader>, buf: &mut Vec<u8>)
    requires
        is_tag(tag),
    ensures
        final(buf)@ == old(buf)@ + text_map_field(tag, views(headers@)),
{
    let ghost pairs = views(headers@);
    let mut i: usize = 0;
    proof {
        assert(pairs.take(0) =~= seq![]);
        assert(buf@ =~= old(buf)@ + text_map_field(tag, pairs.take(0)));
    }
    while i < headers.len()
        invariant
            i <= headers@.len(),
            pairs == views(headers@),
            is_tag(tag),
            buf@ == old(buf)@ + text_map_field(tag, pairs.take(i as int)),
        decreases headers@.len() - i,
    {
        let mut header: Vec<u8> = Vec::new();
        put_text(1, headers[i].name.as_str(), &mut header);
        put_text(2, headers[i].value.as_str(), &mut header);
        proof {
            let pair = pairs[i as int];
            assert(header@ =~= text_field(1, pair.0) + text_field(2, pair.1));
            assert(pairs.take(i + 1).drop_last() =~= pairs.take(i as int));
        }
        put_delimited(tag, header.as_slice(), buf);
        proof {
            assert(buf@ =~= old(buf)@ + text_map_field(tag, pairs.take(i + 1)));
        }
        i = i + 1;
    }
    proof {
        assert(pairs.take(headers@.len() as int) =~= pairs);
    }
}

impl CacheEntry {
    /// The encoding of the entry.
    pub fn encode_to_vec(&self) -> (bytes: Vec<u8>)
        ensures
            bytes@ == self@.encoded(),
    {
        let mut buf: Vec<u8> = Vec::new();
        put_number(1, self.expires_at_ms, &mut buf);
        let allowed: u64 = if self.allowed {
            1
        } else {
            0
        };
        put_number(2, allowed, &mut buf);
        put_number(3, self.denied_status as u64, &mut buf);
        put_text(4, self.denied_body.as_str(), &mut buf);
        put_headers(5, &self.response_headers, &mut buf);
        put_headers(6, &self.request_headers, &mut buf);
        proof {
            assert(buf@ =~= self@.encoded());
        }
        buf
    }

    /// Whether the entry is the one that a reader starts from.
    fn is_initial(&self) -> (initial: bool)
        ensures
            initial == (self@ == CacheEntry::initial()),
    {
        let initial = self.expires_at_ms == 0 && !self.allowed && self.denied_status == 0
            && self.denied_body.as_str().is_empty() && self.response_headers.len() == 0
            && self.request_headers.len() == 0;
        proof {
            if initial {
                assert(self@.denied_body =~= seq![]);
                assert(self@.response_headers =~= seq![]);
                assert(self@.request_headers =~= seq![]);
            }
        }
        initial
    }
}

impl CacheShard {
    /// The encoding of the shard.
    pub fn encode_to_vec(&self) -> (bytes: Vec<u8>)
        ensures
            bytes@ == shard_encoded(self@),
    {
        let count = self.entries.len();
        let ghost items = self.entries.pairs();
        let mut buf: Vec<u8> = Vec::new();
        let mut i: usize = 0;
        proof {
            assert(items.take(0) =~= seq![]);
        }
        while i < count
            invariant
                i <= count,
                count == items.len(),
                items == self.entries.pairs(),
                buf@ == items_encoded(items.take(i as int)),
            decreases count - i,
        {
            let key = self.entries.key_at(i);
            let entry = self.entries.value_at(i);
            let mut item: Vec<u8> = Vec::new();
            put_text(1, key, &mut item);
            if !entry.is_initial() {
                put_delimited(2, entry.encode_to_vec().as_slice(), &mut item);
            }
            proof {
                let pair = items[i as int];
                assert(item@ =~= item_encoded(pair.0, pair.1));
                assert(items.take(i + 1).drop_last() =~= items.take(i as int));
            }
            put_delimited(1, item.as_slice(), &mut buf);
            i = i + 1;
        }
        proof {
            assert(items.take(count as int) =~= items);
        }
        buf
    }
}

/// The shard that stored bytes hold: an empty one where there are none or they are invalid.
pub open spec fn shard_decoded(bytes: Option<Seq<u8>>) -> Map<Seq<char>, CacheEntryModel> {
    match bytes {
        Some(bytes) => match decoded::<CacheShard>(bytes) {
            Some(shard) => shard,
            None => Map::empty(),
        },
        None => Map::empty(),
    }
}

/// Reads a shard from what is stored of it.
pub fn decode_shard(bytes: Option<&[u8]>) -> (shard: CacheShard)
    ensures
        shard@ == shard_decoded(optional_view(bytes)),
{
    match bytes {
        Some(bytes) => match decode::<CacheShard>(bytes) {
            Some(shard) => shard,
            None => CacheShard::default(),
        },
        None => CacheShard::default(),
    }
}

proof fn lemma_header_round_trip(header: (Seq<char>, Seq<char>), budget: nat)
    requires
        (text_field(1, header.0) + text_field(2, header.1)).len() <= u64::MAX,
    ensures
        merged::<CachedHeader>(
            CachedHeader::initial(),
            text_field(1, header.0) + text_field(2, header.1),
            budget,
        ) == Some(header),
{
    let start = CachedHeader::initial();
    let second = text_field(2, header.1);
    lemma_merged_text::<CachedHeader>(start, 1, header.0, second, budget);
    if header.0.len() == 0 {
        assert(header.0 =~= seq![]);
    }
    let named = (header.0, start.1);
    assert(second + seq![] =~= second);
    lemma_merged_text::<CachedHeader>(named, 2, header.1, seq![], budget);
    if header.1.len() == 0 {
        assert(header.1 =~= seq![]);
    }
}

/// The entry with more headers for the reply, or, at tag 6, more headers for the request.
spec fn with_headers(
    entry: CacheEntryModel,
    tag: u32,
    headers: Seq<(Seq<char>, Seq<char>)>,
) -> CacheEntryModel {
    if tag == 5 {
        CacheEntryModel { response_headers: entry.response_headers + headers, ..entry }
    } else {
        CacheEntryModel { request_headers: entry.request_headers + headers, ..entry }
    }
}

proof fn lemma_headers_round_trip(
    entry: CacheEntryModel,
    tag: u32,
    headers: Seq<(Seq<char>, Seq<char>)>,
    rest: Seq<u8>,
    budget: nat,
)
    requires
        tag == 5 || tag == 6,
        text_map_field(tag, headers).len() <= u64::MAX,
        budget > 0,
    ensures
        merged::<CacheEntry>(entry, text_map_field(tag, headers) + rest, budget) == merged::<
            CacheEntry,
        >(with_headers(entry, tag, headers), rest, budget),
    decreases headers.len(),
{
    if headers.len() == 0 {
        assert(text_map_field(tag, headers) + rest =~= rest);
        assert(entry.response_headers + headers =~= entry.response_headers);
        assert(entry.request_headers + headers =~= entry.request_headers);
    } else {
        let before = headers.drop_last();
        let last = headers.last();
        let content = text_field(1, last.0) + text_field(2, last.1);
        let field = delimited_field(tag, content);
        assert(text_map_field(tag, headers) + rest =~= text_map_field(tag, before) + (field
            + rest));
        lemma_headers_round_trip(entry, tag, before, field + rest, budget);
        let partial = with_headers(entry, tag, before);
        lemma_merged_delimited::<CacheEntry>(partial, tag, content, rest, budget);
        let payload = Payload::Bytes(content);
        assert(nested_merged::<CachedHeader>(CachedHeader::initial(), payload, budget) == Some(
            last,
        )) by {
            lemma_header_round_trip(last, (budget - 1) as nat);
        }
        assert(before.push(last) =~= headers);
        assert(entry.response_headers + before.push(last) =~= (entry.response_headers
            + before).push(last));
        assert(entry.request_headers + before.push(last) =~= (entry.request_headers
            + before).push(last));
        assert(CacheEntry::field_merged(partial, tag, payload, budget) == Some(
            with_headers(entry, tag, headers),
        ));
    }
}

#[verifier::rlimit(40)]
proof fn lemma_entry_round_trip(entry: CacheEntryModel, budget: nat)
    requires
        entry.encoded().len() <= u64::MAX,
        budget > 0,
    ensures
        merged::<CacheEntry>(CacheEntry::initial(), entry.encoded(), budget) == Some(entry),
{
    let f6 = text_map_field(6, entry.request_headers);
    let f5 = text_map_field(5, entry.response_headers);
    let f4 = text_field(4, entry.denied_body);
    let f3 = number_field(3, entry.denied_status as u64);
    let allowed: u64 = if entry.allowed {
        1
    } else {
        0
    };
    let f2 = number_field(2, allowed);
    let f1 = number_field(1, entry.expires_at_ms);
    let r5 = f6 + seq![];
    let r4 = f5 + r5;
    let r3 = f4 + r4;
    let r2 = f3 + r3;
    let r1 = f2 + r2;
    assert(entry.encoded() =~= f1 + r1);
    let m0 = CacheEntry::initial();
    let m1 = CacheEntryModel { expires_at_ms: entry.expires_at_ms, ..m0 };
    let m2 = CacheEntryModel { allowed: entry.allowed, ..m1 };
    let m3 = CacheEntryModel { denied_status: entry.denied_status, ..m2 };
    let m4 = CacheEntryModel { denied_body: entry.denied_body, ..m3 };
    let m5 = CacheEntryModel { response_headers: entry.response_headers, ..m4 };
    lemma_merged_number::<CacheEntry>(m0, 1, entry.expires_at_ms, r1, budget);
    lemma_merged_number::<CacheEntry>(m1, 2, allowed, r2, budget);
    lemma_merged_number::<CacheEntry>(m2, 3, entry.denied_status as u64, r3, budget);
    lemma_merged_text::<CacheEntry>(m3, 4, entry.denied_body, r4, budget);
    if entry.denied_body.len() == 0 {
        assert(entry.denied_body =~= seq![]);
    }
    lemma_headers_round_trip(m4, 5, entry.response_headers, r5, budget);
    assert(m4.response_headers + entry.response_headers =~= entry.response_headers);
    lemma_headers_round_trip(m5, 6, entry.request_headers, seq![], budget);
    assert(m5.request_headers + entry.request_headers =~= entry.request_headers);
}

proof fn lemma_item_round_trip(key: Seq<char>, entry: CacheEntryModel, budget: nat)
    requires
        item_encoded(key, entry).len() <= u64::MAX,
        budget > 1,
    ensures
        merged::<ShardItem>(ShardItem::initial(), item_encoded(key, entry), budget) == Some(
            (key, entry),
        ),
{
    let start = ShardItem::initial();
    let keyed = (key, start.1);
    if entry == CacheEntry::initial() {
        lemma_merged_text::<ShardItem>(start, 1, key, seq![], budget);
    } else {
        let field = delimited_field(2, entry.encoded());
        lemma_merged_text::<ShardItem>(start, 1, key, field, budget);
        assert(field + seq![] =~= field);
        lemma_merged_delimited::<ShardItem>(keyed, 2, entry.encoded(), seq![], budget);
        lemma_entry_round_trip(entry, (budget - 1) as nat);
    }
    if key.len() == 0 {
        assert(key =~= seq![]);
    }
}

proof fn lemma_items_round_trip(
    items: Seq<(Seq<char>, CacheEntryModel)>,
    rest: Seq<u8>,
    budget: nat,
)
    requires
        items_encoded(items).len() <= u64::MAX,
        budget > 2,
    ensures
        merged::<CacheShard>(Map::empty(), items_encoded(items) + rest, budget) == merged::<
            CacheShard,
        >(map_of(items), rest, budget),
    decreases items.len(),
{
    if items.len() == 0 {
        assert(items_encoded(items) + rest =~= rest);
    } else {
        let before = items.drop_last();
        let last = items.last();
        let content = item_encoded(last.0, last.1);
        let field = delimited_field(1, content);
        assert(items_encoded(items) + rest =~= items_encoded(before) + (field + rest));
        lemma_items_round_trip(before, field + rest, budget);
        lemma_merged_delimited::<CacheShard>(map_of(before), 1, content, rest, budget);
        lemma_item_round_trip(last.0, last.1, (budget - 1) as nat);
    }
}

/// A shard that was stored is the shard that is read back. The bound is what a buffer can hold.
pub proof fn law_shard_round_trip(shard: Map<Seq<char>, CacheEntryModel>)
    requires
        shard.dom().finite(),
        shard_encoded(shard).len() <= u64::MAX,
    ensures
        shard_decoded(Some(shard_encoded(shard))) == shard,
{
    let items = ascending(shard);
    lemma_ascending_exists(shard);
    assert(items_encoded(items) + seq![] =~= items_encoded(items));
    lemma_items_round_trip(items, seq![], RECURSION_LIMIT as nat);
}

proof fn lemma_merged_finite(
    shard: Map<Seq<char>, CacheEntryModel>,
    bytes: Seq<u8>,
    budget: nat,
)
    requires
        shard.dom().finite(),
    ensures
        merged::<CacheShard>(shard, bytes, budget) matches Some(after) ==> after.dom().finite(),
    decreases bytes.len(),
{
    if bytes.len() > 0 {
        match field_read::<CacheShard>(bytes, budget) {
            Some((tag, payload, rest)) => {
                match CacheShard::field_merged(shard, tag, payload, budget) {
                    Some(next) => {
                        if rest.len() < bytes.len() {
                            lemma_merged_finite(next, rest, budget);
                        }
                    },
                    None => {},
                }
            },
            None => {},
        }
    }
}

/// A shard that is read has finitely many entries.
pub proof fn lemma_decoded_finite(bytes: Option<Seq<u8>>)
    ensures
        shard_decoded(bytes).dom().finite(),
{
    match bytes {
        Some(bytes) => lemma_merged_finite(Map::empty(), bytes, RECURSION_LIMIT as nat),
        None => {},
    }
}

} // verus!
