//! Market records and the snapshot parser.

use vstd::prelude::*;
use crate::decimal::{decimal_text, parse_decimal, Decimal};
use crate::json::{decode_json, json_document, JsonDocument, JsonEntry, JsonField};

verus! {

/// The statistics of one trading pair.
#[derive(Clone, Debug, PartialEq, Eq)]
pub struct MarketRecord {
    pub avg24hr: String,
    pub base_volume: Decimal,
    pub high24hr: String,
    pub highest_bid: String,
    pub last: Decimal,
    pub low24hr: String,
    pub lowest_ask: String,
    pub percent_change: Decimal,
    pub quote_volume: Decimal,
}

/// A market record with its texts seen as characters.
pub struct RecordView {
    pub avg24hr: Seq<char>,
    pub base_volume: Decimal,
    pub high24hr: Seq<char>,
    pub highest_bid: Seq<char>,
    pub last: Decimal,
    pub low24hr: Seq<char>,
    pub lowest_ask: Seq<char>,
    pub percent_change: Decimal,
    pub quote_volume: Decimal,
}

impl View for MarketRecord {
    type V = RecordView;

    open spec fn view(&self) -> RecordView {
        RecordView {
            avg24hr: self.avg24hr@,
            base_volume: self.base_volume,
            high24hr: self.high24hr@,
            highest_bid: self.highest_bid@,
            last: self.last,
            low24hr: self.low24hr@,
            lowest_ask: self.lowest_ask@,
            percent_change: self.percent_change,
            quote_volume: self.quote_volume,
        }
    }
}

impl MarketRecord {
    /// Every decimal of the record is in rust_decimal's range.
    pub open spec fn wf(&self) -> bool {
        self.base_volume.wf() && self.last.wf() && self.percent_change.wf() && self.quote_volume.wf()
    }
}

/// Why a payload was rejected.
#[derive(Clone, Copy, Debug, PartialEq, Eq)]
pub enum SnapshotError {
    MalformedPayload,
}

/// The text of the first field from position `i` on named `key`, if that
/// field is a string.
pub open spec fn field_text_from(fields: Seq<(String, JsonField)>, key: Seq<char>, i: int) -> Option<Seq<char>>
    decreases fields.len() - i,
{
    if i < 0 || i >= fields.len() {
        None
    } else if fields[i].0@ == key {
        match fields[i].1 {
            JsonField::Text(t) => Some(t@),
            JsonField::Other => None,
        }
    } else {
        field_text_from(fields, key, i + 1)
    }
}

/// The text of the field named `key`, if there is one and it is a string.
pub open spec fn field_text(fields: Seq<(String, JsonField)>, key: Seq<char>) -> Option<Seq<char>> {
    field_text_from(fields, key, 0)
}

/// The decimal in the field named `key`, if it is a string that reads as one.
pub open spec fn field_decimal(fields: Seq<(String, JsonField)>, key: Seq<char>) -> Option<Decimal> {
    match field_text(fields, key) {
        Some(t) => match decimal_text(t) {
            Some(d) => Some(Decimal { mantissa: d.0 as i128, scale: d.1 as u32 }),
            None => None,
        },
        None => None,
    }
}

/// The record that the fields give: all nine must be strings, and the four
/// numeric ones must read as decimals.
pub open spec fn record_of(fields: Seq<(String, JsonField)>) -> Option<RecordView> {
    let avg = field_text(fields, "avg24hr"@);
    let base = field_decimal(fields, "baseVolume"@);
    let high = field_text(fields, "high24hr"@);
    let bid = field_text(fields, "highestBid"@);
    let last = field_decimal(fields, "last"@);
    let low = field_text(fields, "low24hr"@);
    let ask = field_text(fields, "lowestAsk"@);
    let pct = field_decimal(fields, "percentChange"@);
    let quote = field_decimal(fields, "quoteVolume"@);
    if avg is Some && base is Some && high is Some && bid is Some && last is Some && low is Some
        && ask is Some && pct is Some && quote is Some {
        Some(
            RecordView {
                avg24hr: avg->0,
                base_volume: base->0,
                high24hr: high->0,
                highest_bid: bid->0,
                last: last->0,
                low24hr: low->0,
                lowest_ask: ask->0,
                percent_change: pct->0,
                quote_volume: quote->0,
            },
        )
    } else {
        None
    }
}

/// The record under a pair symbol, if the entry is an object of valid fields.
pub open spec fn entry_record(e: JsonEntry) -> Option<RecordView> {
    match e {
        JsonEntry::Object(fields) => record_of(fields@),
        JsonEntry::Other => None,
    }
}

/// The document is an object whose every entry holds a valid record.
pub open spec fn document_valid(doc: JsonDocument) -> bool {
    match doc {
        JsonDocument::Object(entries) => forall|i: int|
            0 <= i < entries.len() ==> (#[trigger] entry_record(entries[i].1)) is Some,
        _ => false,
    }
}

/// The snapshot `v` holds, in order, the pairs of the object `doc` with their records.
pub open spec fn snapshot_matches(doc: JsonDocument, v: Seq<(String, MarketRecord)>) -> bool {
    match doc {
        JsonDocument::Object(entries) => {
            &&& v.len() == entries.len()
            &&& forall|i: int|
                0 <= i < v.len() ==> {
                    &&& (#[trigger] v[i]).0@ == entries[i].0@
                    &&& entry_record(entries[i].1) == Some(v[i].1@)
                    &&& v[i].1.wf()
                }
        },
        _ => false,
    }
}

/// The text of the field named `key`, if it is a string.
fn find_text(fields: &Vec<(String, JsonField)>, key: &str) -> (r: Option<String>)
    ensures
        match r {
            Some(t) => field_text(fields@, key@) == Some(t@),
            None => field_text(fields@, key@) is None,
        },
{
    let k = key.to_owned();
    let mut i: usize = 0;
    while i < fields.len()
        invariant
            i <= fields.len(),
            k@ == key@,
            field_text(fields@, key@) == field_text_from(fields@, key@, i as int),
        decreases fields.len() - i,
    {
        if fields[i].0 == k {
            return match &fields[i].1 {
                JsonField::Text(t) => Some(t.clone()),
                JsonField::Other => None,
            };
        }
        i = i + 1;
    }
    None
}

/// The decimal in the field named `key`, if it is a string that reads as one.
fn find_decimal(fields: &Vec<(String, JsonField)>, key: &str) -> (r: Option<Decimal>)
    ensures
        r == field_decimal(fields@, key@),
        r matches Some(d) ==> d.wf(),
{
    match find_text(fields, key) {
        Some(t) => match parse_decimal(t.as_str()) {
            Ok(d) => Some(d),
            Err(_) => None,
        },
        None => None,
    }
}

/// The record that an entry's fields give, if all nine are present and valid.
pub fn record_from_fields(fields: &Vec<(String, JsonField)>) -> (r: Option<MarketRecord>)
    ensures
        match r {
            Some(m) => m.wf() && record_of(fields@) == Some(m@),
            None => record_of(fields@) is None,
        },
{
    let avg24hr = find_text(fields, "avg24hr");
    let base_volume = find_decimal(fields, "baseVolume");
    let high24hr = find_text(fields, "high24hr");
    let highest_bid = find_text(fields, "highestBid");
    let last = find_decimal(fields, "last");
    let low24hr = find_text(fields, "low24hr");
    let lowest_ask = find_text(fields, "lowestAsk");
    let percent_change = find_decimal(fields, "percentChange");
    let quote_volume = find_decimal(fields, "quoteVolume");
    match (avg24hr, base_volume, high24hr, highest_bid, last, low24hr, lowest_ask, percent_change, quote_volume) {
        (Some(avg24hr), Some(base_volume), Some(high24hr), Some(highest_bid), Some(last),
            Some(low24hr), Some(lowest_ask), Some(percent_change), Some(quote_volume)) => {
            Some(MarketRecord {
                avg24hr,
                base_volume,
                high24hr,
                highest_bid,
                last,
                low24hr,
                lowest_ask,
                percent_change,
                quote_volume,
            })
        },
        _ => None,
    }
}

/// The snapshot in a decoded document: every entry must be a valid record,
/// or the whole document is rejected.
pub fn snapshot_from_document(doc: &JsonDocument) -> (r: Result<Vec<(String, MarketRecord)>, SnapshotError>)
    ensures
        match r {
            Ok(v) => document_valid(*doc) && snapshot_matches(*doc, v@),
            Err(e) => e == SnapshotError::MalformedPayload && !document_valid(*doc),
        },
{
    match doc {
        JsonDocument::Object(entries) => {
            let mut out: Vec<(String, MarketRecord)> = Vec::new();
            let mut i: usize = 0;
            while i < entries.len()
                invariant
                    *doc == JsonDocument::Object(*entries),
                    i <= entries.len(),
                    out.len() == i,
                    forall|j: int|
                        0 <= j < i ==> {
                            &&& (#[trigger] out@[j]).0@ == entries@[j].0@
                            &&& entry_record(entries@[j].1) == Some(out@[j].1@)
                            &&& out@[j].1.wf()
                        },
                decreases entries.len() - i,
            {
                let rec = match &entries[i].1 {
                    JsonEntry::Object(fields) => record_from_fields(fields),
                    JsonEntry::Other => None,
                };
                match rec {
                    Some(m) => {
                        out.push((entries[i].0.clone(), m));
                    },
                    None => {
                        assert(entry_record(entries@[i as int].1) is None);
                        assert(!document_valid(*doc));
                        return Err(SnapshotError::MalformedPayload);
                    },
                }
                i = i + 1;
            }
            assert(document_valid(*doc)) by {
                assert forall|j: int| 0 <= j < entries.len() implies (#[trigger] entry_record(entries@[j].1)) is Some by {
                    assert(out@[j].0@ == entries@[j].0@);
                }
            }
            Ok(out)
        },
        _ => Err(SnapshotError::MalformedPayload),
    }
}

/// The snapshot in a payload's bytes, or `MalformedPayload` when the bytes are
/// not a JSON object whose every entry holds the nine fields as strings, the
/// four numeric ones readable as decimals.
pub fn parse_snapshot(bytes: &[u8]) -> (r: Result<Vec<(String, MarketRecord)>, SnapshotError>)
    ensures
        match r {
            Ok(v) => document_valid(json_document(bytes@)) && snapshot_matches(json_document(bytes@), v@),
            Err(e) => e == SnapshotError::MalformedPayload && !document_valid(json_document(bytes@)),
        },
{
    let doc = decode_json(bytes);
    snapshot_from_document(&doc)
}

/// A record that lacks one of its fields, or holds it as something other
/// than a string, rejects the whole payload.
pub proof fn lemma_missing_field_rejected(doc: JsonDocument, i: int, key: Seq<char>)
    requires
        doc is Object,
        0 <= i < doc->Object_0.len(),
        doc->Object_0[i].1 is Object,
        field_text(doc->Object_0[i].1->Object_0@, key) is None,
        key == "avg24hr"@ || key == "baseVolume"@ || key == "high24hr"@ || key == "highestBid"@
            || key == "last"@ || key == "low24hr"@ || key == "lowestAsk"@ || key == "percentChange"@
            || key == "quoteVolume"@,
    ensures
        !document_valid(doc),
{
    if let JsonDocument::Object(entries) = doc {
        assert(entry_record(entries[i].1) is None);
    }
}

} // verus!
