//! Records as table leaf cells store them: two leading varints (payload size
//! and row id), a header of serial-type codes, and a body from which the
//! column values are cut in header order.

use vstd::prelude::*;
use vstd::slice::slice_to_vec;
use crate::varint::{
    lemma_varint_len_positive, parse_varint, varint_len, varint_value, varint_whole,
};

verus! {

/// One decoded row: its key and the raw bytes of each column. An empty
/// buffer stands for NULL.
#[derive(Debug)]
pub struct Record {
    pub row_id: i64,
    pub column_values: Vec<Vec<u8>>,
}

/// What a record is, as plain values.
pub struct RecordView {
    pub row_id: int,
    pub column_values: Seq<Seq<u8>>,
}

impl View for Record {
    type V = RecordView;

    open spec fn view(&self) -> RecordView {
        RecordView { row_id: self.row_id as int, column_values: buffers_view(self.column_values@) }
    }
}

/// The contents of a list of byte buffers.
pub open spec fn buffers_view(buffers: Seq<Vec<u8>>) -> Seq<Seq<u8>> {
    buffers.map_values(|b: Vec<u8>| b@)
}

/// Number of body bytes that a column with serial type `code` occupies.
pub open spec fn serial_type_width(code: int) -> nat {
    if code == 5 {
        6
    } else if code == 6 || code == 7 {
        8
    } else if 1 <= code <= 4 {
        code as nat
    } else if code >= 12 && code % 2 == 0 {
        ((code - 12) / 2) as nat
    } else if code >= 13 {
        ((code - 13) / 2) as nat
    } else {
        0
    }
}

/// Computes `serial_type_width`.
pub fn column_width(code: i64) -> (w: u64)
    ensures
        w == serial_type_width(code as int),
{
    if code == 5 {
        6
    } else if code == 6 || code == 7 {
        8
    } else if 1 <= code && code <= 4 {
        code as u64
    } else if code >= 12 && code % 2 == 0 {
        ((code - 12) / 2) as u64
    } else if code >= 13 {
        ((code - 13) / 2) as u64
    } else {
        0
    }
}

/// Whether every serial-type code that stands in `header` from `offset` on
/// is a whole varint, none of them cut by the end of the header.
pub open spec fn header_codes_whole(header: Seq<u8>, offset: nat) -> bool
    decreases header.len() - offset,
    via header_codes_whole_decreases
{
    if offset >= header.len() {
        true
    } else {
        let rest = header.skip(offset as int);
        varint_whole(rest) && header_codes_whole(header, offset + varint_len(rest))
    }
}

#[via_fn]
proof fn header_codes_whole_decreases(header: Seq<u8>, offset: nat) {
    if offset < header.len() {
        lemma_varint_len_positive(header.skip(offset as int));
    }
}

/// The body widths of the columns whose serial-type codes stand in `header`
/// from `offset` on, in header order.
pub open spec fn header_widths(header: Seq<u8>, offset: nat) -> Seq<u64>
    decreases header.len() - offset,
    via header_widths_decreases
{
    if offset >= header.len() {
        Seq::empty()
    } else {
        let rest = header.skip(offset as int);
        seq![serial_type_width(varint_value(rest)) as u64] + header_widths(
            header,
            offset + varint_len(rest),
        )
    }
}

#[via_fn]
proof fn header_widths_decreases(header: Seq<u8>, offset: nat) {
    if offset < header.len() {
        lemma_varint_len_positive(header.skip(offset as int));
    }
}

/// Sum of the first `n` widths.
pub open spec fn width_sum(widths: Seq<u64>, n: nat) -> nat
    recommends
        n <= widths.len(),
    decreases n,
{
    if n == 0 {
        0
    } else {
        width_sum(widths, (n - 1) as nat) + widths[n - 1] as nat
    }
}

/// Length in bytes of the header of the record that `data` starts with, as
/// the header's first varint declares it.
pub open spec fn record_header_len(data: Seq<u8>) -> int {
    varint_value(data)
}

/// Whether `data` begins with a whole record header: the varint that gives
/// the header's length, a header of that length inside `data` that holds
/// this varint, and behind it whole serial-type codes up to the header's
/// end.
pub open spec fn record_header_fits(data: Seq<u8>) -> bool {
    &&& varint_whole(data)
    &&& varint_len(data) <= record_header_len(data) <= data.len()
    &&& header_codes_whole(data.take(record_header_len(data)), varint_len(data))
}

/// The body width of each column of the record in `data`, in header order.
pub open spec fn record_widths(data: Seq<u8>) -> Seq<u64> {
    header_widths(data.take(record_header_len(data)), varint_len(data))
}

/// The column values that `widths` cut from `body`: one per width, each
/// starting where the one before it ends.
pub open spec fn body_columns(body: Seq<u8>, widths: Seq<u64>) -> Seq<Seq<u8>> {
    Seq::new(
        widths.len(),
        |i: int| body.subrange(width_sum(widths, i as nat) as int, width_sum(widths, (i + 1) as nat) as int),
    )
}

/// Whether `data` holds a whole record: a header that fits, and a body long
/// enough for every column the header announces.
pub open spec fn record_well_formed(data: Seq<u8>) -> bool {
    &&& record_header_fits(data)
    &&& width_sum(record_widths(data), record_widths(data).len()) <= data.len()
        - record_header_len(data)
}

/// The column values of the record in `data`.
pub open spec fn record_columns(data: Seq<u8>) -> Seq<Seq<u8>> {
    body_columns(data.skip(record_header_len(data)), record_widths(data))
}

pub proof fn lemma_width_sum_monotonic(widths: Seq<u64>, i: nat, n: nat)
    requires
        i <= n <= widths.len(),
    ensures
        width_sum(widths, i) <= width_sum(widths, n),
    decreases n - i,
{
    if i < n {
        lemma_width_sum_monotonic(widths, i, (n - 1) as nat);
    }
}

/// Reads the header of the record that `record_data` starts with: its length
/// in bytes and the body width of each column. `None` when the header's
/// length or one of its serial-type codes is cut short, or when the declared
/// header does not fit in `record_data`.
pub fn extract_record_description(record_data: &[u8]) -> (r: Option<(usize, Vec<u64>)>)
    ensures
        r is Some <==> record_header_fits(record_data@),
        r matches Some(d) ==> d.0 == record_header_len(record_data@) && d.1@ == record_widths(
            record_data@,
        ),
{
    let (header_size, first_len) = match parse_varint(record_data) {
        None => {
            return None;
        },
        Some(found) => found,
    };
    if header_size < first_len as i64 || header_size as u64 > record_data.len() as u64 {
        return None;
    }
    let header_len: usize = header_size as usize;
    let header = &record_data[0..header_len];
    let mut widths: Vec<u64> = Vec::new();
    let mut offset: usize = first_len;
    while offset < header_len
        invariant
            first_len <= offset <= header_len,
            header_len == header@.len(),
            header@ == record_data@.take(header_len as int),
            varint_whole(record_data@),
            first_len == varint_len(record_data@),
            header_len == record_header_len(record_data@),
            header_len <= record_data@.len(),
            header_codes_whole(header@, offset as nat) == header_codes_whole(
                header@,
                first_len as nat,
            ),
            widths@ + header_widths(header@, offset as nat) == header_widths(
                header@,
                first_len as nat,
            ),
        decreases header_len - offset,
    {
        let rest = &header[offset..header_len];
        assert(rest@ =~= header@.skip(offset as int));
        let (code, n) = match parse_varint(rest) {
            None => {
                assert(!header_codes_whole(header@, offset as nat));
                return None;
            },
            Some(found) => found,
        };
        let ghost before = widths@;
        widths.push(column_width(code));
        assert(widths@ + header_widths(header@, (offset + n) as nat) =~= before + header_widths(
            header@,
            offset as nat,
        ));
        offset = offset + n;
    }
    assert(widths@ =~= widths@ + header_widths(header@, offset as nat));
    Some((header_len, widths))
}

/// Cuts the column values out of a record body, one per width. `None` when
/// the widths ask for more bytes than `record_body` has.
pub fn extract_record_column_values(widths: &Vec<u64>, record_body: &[u8]) -> (r: Option<
    Vec<Vec<u8>>,
>)
    ensures
        r is Some <==> width_sum(widths@, widths@.len()) <= record_body@.len(),
        r matches Some(v) ==> buffers_view(v@) == body_columns(record_body@, widths@),
{
    let mut column_values: Vec<Vec<u8>> = Vec::new();
    let mut offset: usize = 0;
    let mut index: usize = 0;
    while index < widths.len()
        invariant
            index <= widths@.len(),
            offset == width_sum(widths@, index as nat),
            offset <= record_body@.len(),
            buffers_view(column_values@) == body_columns(record_body@, widths@).take(index as int),
        decreases widths@.len() - index,
    {
        let width: u64 = widths[index];
        if width > (record_body.len() - offset) as u64 {
            proof {
                lemma_width_sum_monotonic(widths@, (index + 1) as nat, widths@.len());
            }
            return None;
        }
        let end: usize = offset + width as usize;
        let column_value = slice_to_vec(&record_body[offset..end]);
        let ghost before = column_values@;
        column_values.push(column_value);
        assert(buffers_view(column_values@) =~= body_columns(record_body@, widths@).take(
            index + 1,
        )) by {
            assert(buffers_view(column_values@) =~= buffers_view(before).push(column_value@));
        }
        offset = end;
        index = index + 1;
    }
    assert(body_columns(record_body@, widths@).take(index as int) =~= body_columns(
        record_body@,
        widths@,
    ));
    Some(column_values)
}

/// Number of bytes that the two leading varints of `cell` occupy: the
/// payload size and the row id.
pub open spec fn cell_payload_offset(cell: Seq<u8>) -> nat {
    varint_len(cell) + varint_len(cell.skip(varint_len(cell) as int))
}

/// The row id that `cell` carries in its second varint.
pub open spec fn cell_row_id(cell: Seq<u8>) -> int {
    varint_value(cell.skip(varint_len(cell) as int))
}

/// The record that follows the two leading varints of `cell`.
pub open spec fn cell_payload(cell: Seq<u8>) -> Seq<u8> {
    cell.skip(cell_payload_offset(cell) as int)
}

/// Whether `cell` holds both leading varints whole and a whole record after
/// them.
pub open spec fn cell_well_formed(cell: Seq<u8>) -> bool {
    &&& varint_whole(cell)
    &&& varint_whole(cell.skip(varint_len(cell) as int))
    &&& record_well_formed(cell_payload(cell))
}

/// The row that a well-formed `cell` stands for.
pub open spec fn cell_record(cell: Seq<u8>) -> RecordView {
    RecordView { row_id: cell_row_id(cell), column_values: record_columns(cell_payload(cell)) }
}

impl Record {
    /// Decodes one table leaf cell, given from its payload-size varint on.
    /// `None` when the cell ends before its varints or its record do.
    pub fn from_cell(cell: &[u8]) -> (r: Option<Record>)
        ensures
            r is Some <==> cell_well_formed(cell@),
            r matches Some(record) ==> record@ == cell_record(cell@),
    {
        let size_len = match parse_varint(cell) {
            None => {
                return None;
            },
            Some((_, size_len)) => size_len,
        };
        let after_size = &cell[size_len..cell.len()];
        assert(after_size@ =~= cell@.skip(size_len as int));
        let (row_id, row_id_len) = match parse_varint(after_size) {
            None => {
                return None;
            },
            Some(found) => found,
        };
        let record_data = &cell[size_len + row_id_len..cell.len()];
        assert(record_data@ =~= cell_payload(cell@));
        match extract_record_description(record_data) {
            None => None,
            Some((header_len, widths)) => {
                let record_body = &record_data[header_len..record_data.len()];
                assert(record_body@ =~= record_data@.skip(header_len as int));
                match extract_record_column_values(&widths, record_body) {
                    None => None,
                    Some(column_values) => Some(Record { row_id, column_values }),
                }
            },
        }
    }
}

} // verus!
