//! Display rows: one styled, formatted row per pair, ordered by pair symbol.

use vstd::prelude::*;
use vstd::utf8::encode_utf8;
use crate::decimal::Decimal;
use crate::snapshot::{document_valid, parse_snapshot, snapshot_matches, MarketRecord, RecordView, SnapshotError};
use crate::json::{json_document, JsonDocument};
use crate::style::{classify, style_of, RowStyle};
use crate::text::{decimal_text_fixed, format_fixed, pad_left};

verus! {

/// The width of the price and volume columns.
pub const AMOUNT_WIDTH: usize = 10;

/// The width of the percent-change column.
pub const PERCENT_WIDTH: usize = 5;

/// The number of fractional digits every number is shown with.
pub const SHOWN_DIGITS: u32 = 2;

/// One row of the table: its style and its five cells.
#[derive(Clone, Debug, PartialEq, Eq)]
pub struct DisplayRow {
    pub style: RowStyle,
    pub cells: Vec<String>,
}

/// The cells of a row as character sequences.
pub open spec fn cells_view(r: DisplayRow) -> Seq<Seq<char>> {
    r.cells@.map_values(|c: String| c@)
}

/// A number as its column shows it: rounded to two digits, right-aligned.
pub open spec fn shown(d: Decimal, width: nat) -> Seq<char> {
    pad_left(decimal_text_fixed(d, SHOWN_DIGITS as nat), width)
}

/// The cells of the row of `pair`: the symbol, the last price, the percent
/// change, the base volume and the quote volume.
pub open spec fn row_cells(pair: Seq<char>, rec: RecordView) -> Seq<Seq<char>> {
    seq![
        pair,
        shown(rec.last, AMOUNT_WIDTH as nat),
        shown(rec.percent_change, PERCENT_WIDTH as nat),
        shown(rec.base_volume, AMOUNT_WIDTH as nat),
        shown(rec.quote_volume, AMOUNT_WIDTH as nat),
    ]
}

/// `r` is the row of `pair` with record `rec`.
pub open spec fn is_row_of(r: DisplayRow, pair: Seq<char>, rec: RecordView) -> bool {
    r.style == style_of(rec.percent_change) && cells_view(r) == row_cells(pair, rec)
}

/// Lexicographic order on bytes: `a` is at most `b`.
pub open spec fn bytes_le(a: Seq<u8>, b: Seq<u8>) -> bool
    decreases a.len(),
{
    if a.len() == 0 {
        true
    } else if b.len() == 0 {
        false
    } else if a[0] != b[0] {
        a[0] < b[0]
    } else {
        bytes_le(a.drop_first(), b.drop_first())
    }
}

/// The sort key of a row: the bytes of its first cell.
pub open spec fn row_key(r: DisplayRow) -> Seq<u8> {
    encode_utf8(r.cells@[0]@)
}

/// Every row has a first cell to sort by.
pub open spec fn rows_keyed(s: Seq<DisplayRow>) -> bool {
    forall|i: int| 0 <= i < s.len() ==> (#[trigger] s[i]).cells.len() >= 1
}

/// The rows are in ascending byte order of their first cells.
pub open spec fn sorted_by_pair(s: Seq<DisplayRow>) -> bool {
    forall|i: int, j: int| 0 <= i < j < s.len() ==> bytes_le(#[trigger] row_key(s[i]), #[trigger] row_key(s[j]))
}

/// Any two byte strings are ordered one way or the other.
pub proof fn lemma_bytes_le_total(a: Seq<u8>, b: Seq<u8>)
    ensures
        bytes_le(a, b) || bytes_le(b, a),
    decreases a.len(),
{
    if a.len() > 0 && b.len() > 0 && a[0] == b[0] {
        lemma_bytes_le_total(a.drop_first(), b.drop_first());
    }
}

/// The byte order is transitive.
pub proof fn lemma_bytes_le_transitive(a: Seq<u8>, b: Seq<u8>, c: Seq<u8>)
    requires
        bytes_le(a, b),
        bytes_le(b, c),
    ensures
        bytes_le(a, c),
    decreases a.len(),
{
    if a.len() > 0 && b.len() > 0 && c.len() > 0 && a[0] == b[0] && b[0] == c[0] {
        lemma_bytes_le_transitive(a.drop_first(), b.drop_first(), c.drop_first());
    }
}

/// Byte strings that are ordered both ways are equal.
pub proof fn lemma_bytes_le_antisymmetric(a: Seq<u8>, b: Seq<u8>)
    requires
        bytes_le(a, b),
        bytes_le(b, a),
    ensures
        a == b,
    decreases a.len(),
{
    if a.len() > 0 && b.len() > 0 {
        lemma_bytes_le_antisymmetric(a.drop_first(), b.drop_first());
        assert forall|i: int| 0 <= i < a.len() implies a[i] == b[i] by {
            if i > 0 {
                assert(a[i] == a.drop_first()[i - 1]);
                assert(b[i] == b.drop_first()[i - 1]);
            }
        }
    }
    assert(a =~= b);
}

/// Compares two byte strings lexicographically.
fn bytes_le_exec(a: &[u8], b: &[u8]) -> (r: bool)
    ensures
        r == bytes_le(a@, b@),
{
    let mut i: usize = 0;
    assert(a@.skip(0) =~= a@);
    assert(b@.skip(0) =~= b@);
    while i < a.len() && i < b.len()
        invariant
            i <= a.len(),
            i <= b.len(),
            bytes_le(a@, b@) == bytes_le(a@.skip(i as int), b@.skip(i as int)),
        decreases a.len() - i,
    {
        if a[i] != b[i] {
            return a[i] < b[i];
        }
        assert(a@.skip(i as int).drop_first() =~= a@.skip(i + 1));
        assert(b@.skip(i as int).drop_first() =~= b@.skip(i + 1));
        i = i + 1;
    }
    i == a.len()
}

/// Whether row `a` sorts no later than row `b`.
fn row_le(a: &DisplayRow, b: &DisplayRow) -> (r: bool)
    requires
        a.cells.len() >= 1,
        b.cells.len() >= 1,
    ensures
        r == bytes_le(row_key(*a), row_key(*b)),
{
    bytes_le_exec(a.cells[0].as_str().as_bytes(), b.cells[0].as_str().as_bytes())
}

/// The header row of the table.
pub fn header() -> (r: Vec<String>)
    ensures
        r@.map_values(|c: String| c@) == seq!["Pair"@, "Price"@, "%"@, "Vol."@, "Value"@],
{
    let r = vec![
        "Pair".to_owned(),
        "Price".to_owned(),
        "%".to_owned(),
        "Vol.".to_owned(),
        "Value".to_owned(),
    ];
    assert(r@.map_values(|c: String| c@) =~= seq!["Pair"@, "Price"@, "%"@, "Vol."@, "Value"@]);
    r
}

/// The row of one pair: its style from the percent change, and its cells.
pub fn format_row(pair: &String, rec: &MarketRecord) -> (r: DisplayRow)
    requires
        rec.wf(),
    ensures
        is_row_of(r, pair@, rec@),
{
    let style = classify(rec.percent_change);
    let cells = vec![
        pair.clone(),
        format_fixed(rec.last, SHOWN_DIGITS, AMOUNT_WIDTH),
        format_fixed(rec.percent_change, SHOWN_DIGITS, PERCENT_WIDTH),
        format_fixed(rec.base_volume, SHOWN_DIGITS, AMOUNT_WIDTH),
        format_fixed(rec.quote_volume, SHOWN_DIGITS, AMOUNT_WIDTH),
    ];
    let r = DisplayRow { style, cells };
    assert(cells_view(r) =~= row_cells(pair@, rec@));
    r
}

/// The rows of a snapshot, in its order.
pub fn format_rows(snapshot: &Vec<(String, MarketRecord)>) -> (r: Vec<DisplayRow>)
    requires
        forall|i: int| 0 <= i < snapshot.len() ==> (#[trigger] snapshot@[i]).1.wf(),
    ensures
        r.len() == snapshot.len(),
        forall|i: int| 0 <= i < r.len() ==> is_row_of(#[trigger] r@[i], snapshot@[i].0@, snapshot@[i].1@),
{
    let mut r: Vec<DisplayRow> = Vec::new();
    let mut i: usize = 0;
    while i < snapshot.len()
        invariant
            i <= snapshot.len(),
            r.len() == i,
            forall|j: int| 0 <= j < snapshot.len() ==> (#[trigger] snapshot@[j]).1.wf(),
            forall|j: int| 0 <= j < i ==> is_row_of(#[trigger] r@[j], snapshot@[j].0@, snapshot@[j].1@),
        decreases snapshot.len() - i,
    {
        let row = format_row(&snapshot[i].0, &snapshot[i].1);
        r.push(row);
        i = i + 1;
    }
    r
}

/// Sorts rows by pair symbol in ascending byte order.
pub fn sort_rows(rows: &mut Vec<DisplayRow>)
    requires
        rows_keyed(old(rows)@),
    ensures
        final(rows)@.to_multiset() == old(rows)@.to_multiset(),
        sorted_by_pair(final(rows)@),
        rows_keyed(final(rows)@),
{
    let mut rest: Vec<DisplayRow> = Vec::new();
    std::mem::swap(rows, &mut rest);
    let ghost orig = rest@;
    proof {
        rows@.to_multiset_ensures();
        vstd::multiset::lemma_multiset_empty_len(rows@.to_multiset());
        assert(rows@.to_multiset().add(rest@.to_multiset()) =~= orig.to_multiset());
    }
    while rest.len() > 0
        invariant
            rows_keyed(rest@),
            rows_keyed(rows@),
            rows@.to_multiset().add(rest@.to_multiset()) == orig.to_multiset(),
            sorted_by_pair(rows@),
            forall|a: int, b: int|
                0 <= a < rows.len() && 0 <= b < rest.len() ==> bytes_le(#[trigger] row_key(rows@[a]), #[trigger] row_key(rest@[b])),
        decreases rest.len(),
    {
        let mut k: usize = 0;
        let mut j: usize = 1;
        proof {
            lemma_bytes_le_total(row_key(rest@[0]), row_key(rest@[0]));
        }
        while j < rest.len()
            invariant
                rows_keyed(rest@),
                0 <= k < j <= rest.len(),
                forall|b: int| 0 <= b < j ==> bytes_le(row_key(rest@[k as int]), #[trigger] row_key(rest@[b])),
            decreases rest.len() - j,
        {
            if !row_le(&rest[k], &rest[j]) {
                proof {
                    lemma_bytes_le_total(row_key(rest@[k as int]), row_key(rest@[j as int]));
                    assert forall|b: int| 0 <= b <= j implies bytes_le(row_key(rest@[j as int]), #[trigger] row_key(rest@[b])) by {
                        if b == j {
                            lemma_bytes_le_total(row_key(rest@[b]), row_key(rest@[b]));
                        } else {
                            lemma_bytes_le_transitive(row_key(rest@[j as int]), row_key(rest@[k as int]), row_key(rest@[b]));
                        }
                    }
                }
                k = j;
            } else {
                proof {
                    lemma_bytes_le_total(row_key(rest@[j as int]), row_key(rest@[j as int]));
                }
            }
            j = j + 1;
        }
        let ghost before = rest@;
        let ghost done = rows@;
        let m = rest.remove(k);
        proof {
            before.to_multiset_ensures();
            done.to_multiset_ensures();
            assert(before.remove(k as int).to_multiset() == before.to_multiset().remove(m));
            assert forall|b: int| 0 <= b < rest.len() implies bytes_le(row_key(m), #[trigger] row_key(rest@[b])) by {
                if b < k {
                    assert(rest@[b] == before[b]);
                } else {
                    assert(rest@[b] == before[b + 1]);
                }
            }
            assert(before.contains(m));
        }
        rows.push(m);
        proof {
            assert(rows@ == done.push(m));
            assert(done.push(m).to_multiset() == done.to_multiset().insert(m));
            assert(before.to_multiset().count(m) > 0);
            assert(rows@.to_multiset().add(rest@.to_multiset()) =~= orig.to_multiset());
            assert forall|a: int, b: int| 0 <= a < rows.len() && 0 <= b < rows.len() && a < b implies
                bytes_le(#[trigger] row_key(rows@[a]), #[trigger] row_key(rows@[b])) by {
                if b == rows.len() - 1 {
                    assert(rows@[b] == m);
                    assert(rows@[a] == done[a]);
                    assert(bytes_le(row_key(done[a]), row_key(before[k as int])));
                } else {
                    assert(rows@[a] == done[a]);
                    assert(rows@[b] == done[b]);
                }
            }
            assert forall|a: int, b: int| 0 <= a < rows.len() && 0 <= b < rest.len() implies
                bytes_le(#[trigger] row_key(rows@[a]), #[trigger] row_key(rest@[b])) by {
                let bb = if b < k { b } else { b + 1 };
                assert(rest@[b] == before[bb]);
                if a < rows.len() - 1 {
                    assert(rows@[a] == done[a]);
                } else {
                    assert(rows@[a] == m);
                }
            }
        }
    }
    proof {
        rest@.to_multiset_ensures();
        vstd::multiset::lemma_multiset_empty_len(rest@.to_multiset());
    }
    assert(rows@.to_multiset() =~= rows@.to_multiset().add(rest@.to_multiset()));
}

/// `u` holds, in order, the rows of the pairs of `snapshot`.
pub open spec fn rows_of(snapshot: Seq<(String, MarketRecord)>, u: Seq<DisplayRow>) -> bool {
    &&& u.len() == snapshot.len()
    &&& forall|i: int| 0 <= i < u.len() ==> is_row_of(#[trigger] u[i], snapshot[i].0@, snapshot[i].1@)
}

/// `r` holds the rows of the pairs of `snapshot`, ordered by pair symbol.
pub open spec fn ordered_rows_of(snapshot: Seq<(String, MarketRecord)>, r: Seq<DisplayRow>) -> bool {
    &&& sorted_by_pair(r)
    &&& exists|u: Seq<DisplayRow>| rows_of(snapshot, u) && #[trigger] u.to_multiset() == r.to_multiset()
}

/// The table rows of a snapshot: one per pair, styled and formatted, ordered
/// by pair symbol.
pub fn market_rows(snapshot: &Vec<(String, MarketRecord)>) -> (r: Vec<DisplayRow>)
    requires
        forall|i: int| 0 <= i < snapshot.len() ==> (#[trigger] snapshot@[i]).1.wf(),
    ensures
        r.len() == snapshot.len(),
        ordered_rows_of(snapshot@, r@),
{
    let mut rows = format_rows(snapshot);
    let ghost u = rows@;
    assert forall|i: int| 0 <= i < rows.len() implies (#[trigger] rows@[i]).cells.len() >= 1 by {
        assert(cells_view(rows@[i]).len() == 5);
    }
    sort_rows(&mut rows);
    proof {
        u.to_multiset_ensures();
        rows@.to_multiset_ensures();
        assert(rows_of(snapshot@, u));
    }
    rows
}

/// `rows` is the table of the valid document `doc`: the rows of its
/// snapshot, ordered by pair symbol.
pub open spec fn table_of(doc: JsonDocument, rows: Seq<DisplayRow>) -> bool {
    &&& document_valid(doc)
    &&& exists|v: Seq<(String, MarketRecord)>| #[trigger] snapshot_matches(doc, v) && ordered_rows_of(v, rows)
}

/// The table rows of a payload, or `MalformedPayload` (and no rows) when any
/// part of it is malformed.
pub fn market_table(bytes: &[u8]) -> (r: Result<Vec<DisplayRow>, SnapshotError>)
    ensures
        match r {
            Ok(rows) => table_of(json_document(bytes@), rows@),
            Err(e) => e == SnapshotError::MalformedPayload && !document_valid(json_document(bytes@)),
        },
{
    match parse_snapshot(bytes) {
        Ok(snapshot) => {
            let rows = market_rows(&snapshot);
            assert(snapshot_matches(json_document(bytes@), snapshot@));
            assert(table_of(json_document(bytes@), rows@));
            Ok(rows)
        },
        Err(e) => Err(e),
    }
}

/// No two rows share a sort key.
pub open spec fn keys_distinct(s: Seq<DisplayRow>) -> bool {
    forall|i: int, j: int| 0 <= i < j < s.len() ==> #[trigger] row_key(s[i]) != #[trigger] row_key(s[j])
}

/// Ordering by pair is deterministic: two orderings of the same rows, whose
/// pair symbols are distinct, are the same sequence.
pub proof fn lemma_ordering_unique(s1: Seq<DisplayRow>, s2: Seq<DisplayRow>)
    requires
        rows_keyed(s1),
        rows_keyed(s2),
        sorted_by_pair(s1),
        sorted_by_pair(s2),
        s1.to_multiset() == s2.to_multiset(),
        keys_distinct(s1),
    ensures
        s1 == s2,
    decreases s1.len(),
{
    s1.to_multiset_ensures();
    s2.to_multiset_ensures();
    if s1.len() == 0 {
        assert(s1 =~= s2);
    } else {
        let x1 = s1[0];
        let x2 = s2[0];
        assert(s1.contains(x1));
        assert(s2.contains(x2));
        assert(s2.to_multiset().count(x1) > 0);
        assert(s1.to_multiset().count(x2) > 0);
        assert(s2.contains(x1));
        assert(s1.contains(x2));
        let j = choose|j: int| 0 <= j < s2.len() && s2[j] == x1;
        let i = choose|i: int| 0 <= i < s1.len() && s1[i] == x2;
        lemma_bytes_le_total(row_key(x1), row_key(x1));
        lemma_bytes_le_total(row_key(x2), row_key(x2));
        if i > 0 {
            assert(bytes_le(row_key(s1[0]), row_key(s1[i])));
        }
        if j > 0 {
            assert(bytes_le(row_key(s2[0]), row_key(s2[j])));
        }
        assert(bytes_le(row_key(x1), row_key(x2)));
        assert(bytes_le(row_key(x2), row_key(x1)));
        lemma_bytes_le_antisymmetric(row_key(x1), row_key(x2));
        assert(i == 0);
        assert(x1 == x2);
        let t1 = s1.drop_first();
        let t2 = s2.drop_first();
        assert(s1.remove(0) =~= t1);
        assert(s2.remove(0) =~= t2);
        assert(t1.to_multiset() == t2.to_multiset());
        assert(rows_keyed(t1));
        assert(rows_keyed(t2));
        assert(sorted_by_pair(t1)) by {
            assert forall|a: int, b: int| 0 <= a < b < t1.len() implies bytes_le(#[trigger] row_key(t1[a]), #[trigger] row_key(t1[b])) by {
                assert(t1[a] == s1[a + 1] && t1[b] == s1[b + 1]);
            }
        }
        assert(sorted_by_pair(t2)) by {
            assert forall|a: int, b: int| 0 <= a < b < t2.len() implies bytes_le(#[trigger] row_key(t2[a]), #[trigger] row_key(t2[b])) by {
                assert(t2[a] == s2[a + 1] && t2[b] == s2[b + 1]);
            }
        }
        assert(keys_distinct(t1)) by {
            assert forall|a: int, b: int| 0 <= a < b < t1.len() implies #[trigger] row_key(t1[a]) != #[trigger] row_key(t1[b]) by {
                assert(t1[a] == s1[a + 1] && t1[b] == s1[b + 1]);
            }
        }
        lemma_ordering_unique(t1, t2);
        assert(s1 =~= s2) by {
            assert forall|k: int| 0 <= k < s1.len() implies s1[k] == s2[k] by {
                if k > 0 {
                    assert(s1[k] == t1[k - 1] && s2[k] == t2[k - 1]);
                }
            }
        }
    }
}

} // verus!
