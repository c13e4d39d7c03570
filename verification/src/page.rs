//! B-tree pages: the page header, the cell-pointer array that follows it, and
//! the cells of table leaf and table interior pages.

use vstd::prelude::*;
use vstd::slice::slice_to_vec;
use crate::record::{
    buffers_view, cell_payload_offset, cell_record, cell_well_formed, Record, RecordView,
};
use crate::varint::{parse_varint, varint_len, varint_value, varint_whole};

verus! {

/// Tag byte of a table leaf page.
pub const TABLE_LEAF: u8 = 0x0D;

/// Tag byte of a table interior page.
pub const TABLE_INTERIOR: u8 = 0x05;

/// Tag byte of an index leaf page.
pub const INDEX_LEAF: u8 = 0x0A;

/// Tag byte of an index interior page.
pub const INDEX_INTERIOR: u8 = 0x02;

/// The big-endian reading of two bytes.
pub open spec fn be_u16(hi: u8, lo: u8) -> nat {
    hi as nat * 256 + lo as nat
}

/// The big-endian reading of the four bytes of `bytes` that start at `at`.
pub open spec fn be_u32(bytes: Seq<u8>, at: int) -> nat {
    bytes[at] as nat * 0x100_0000 + bytes[at + 1] as nat * 0x1_0000 + bytes[at + 2] as nat * 0x100
        + bytes[at + 3] as nat
}

/// Reads two bytes of `data` as a big-endian integer.
pub fn read_u16(data: &[u8], at: usize) -> (r: u16)
    requires
        at + 2 <= data@.len(),
    ensures
        r == be_u16(data@[at as int], data@[at + 1]),
{
    (data[at] as u16) * 256 + data[at + 1] as u16
}

/// Reads four bytes of `data` as a big-endian integer.
pub fn read_u32(data: &[u8], at: usize) -> (r: u32)
    requires
        at + 4 <= data@.len(),
    ensures
        r == be_u32(data@, at as int),
{
    (data[at] as u32) * 0x100_0000 + (data[at + 1] as u32) * 0x1_0000 + (data[at + 2] as u32)
        * 0x100 + data[at + 3] as u32
}

/// Number of cells that the page header at `base` announces.
pub open spec fn page_cell_count(page: Seq<u8>, base: int) -> nat {
    be_u16(page[base + 3], page[base + 4])
}

/// The `i`-th entry of the cell-pointer array that starts at `array_start`.
pub open spec fn page_cell_pointer(page: Seq<u8>, array_start: int, i: int) -> nat {
    be_u16(page[array_start + 2 * i], page[array_start + 2 * i + 1])
}

/// Whether the page header of `header_len` bytes at `base` and the
/// cell-pointer array behind it lie inside `page`.
pub open spec fn cell_array_fits(page: Seq<u8>, base: int, header_len: int) -> bool {
    &&& base + header_len <= page.len()
    &&& base + header_len + 2 * page_cell_count(page, base) <= page.len()
}

/// The cell-pointer array of `count` entries that starts at `array_start`.
pub open spec fn cell_pointers(page: Seq<u8>, array_start: int, count: nat) -> Seq<u16> {
    Seq::new(count, |i: int| page_cell_pointer(page, array_start, i) as u16)
}

/// Where the table leaf cell at `pointer` ends: behind its two leading
/// varints and the payload whose size the first of them gives.
pub open spec fn leaf_cell_end(page: Seq<u8>, pointer: int) -> int {
    pointer + cell_payload_offset(page.skip(pointer)) + varint_value(page.skip(pointer))
}

/// Whether a whole table leaf cell stands at `pointer`: both leading
/// varints whole, a payload size that is not negative, and the payload
/// inside `page`.
pub open spec fn leaf_cell_fits(page: Seq<u8>, pointer: int) -> bool {
    &&& pointer < page.len()
    &&& varint_whole(page.skip(pointer))
    &&& varint_whole(page.skip(pointer + varint_len(page.skip(pointer))))
    &&& 0 <= varint_value(page.skip(pointer))
    &&& leaf_cell_end(page, pointer) <= page.len()
}

/// The bytes of the table leaf cell at `pointer`.
pub open spec fn leaf_cell_bytes(page: Seq<u8>, pointer: int) -> Seq<u8> {
    page.subrange(pointer, leaf_cell_end(page, pointer))
}

/// Whether every one of `pointers` leads to a whole table leaf cell.
pub open spec fn leaf_cells_fit(page: Seq<u8>, pointers: Seq<u16>) -> bool {
    forall|i: int| 0 <= i < pointers.len() ==> leaf_cell_fits(page, #[trigger] pointers[i] as int)
}

/// The table leaf cells that `pointers` lead to, in pointer order.
pub open spec fn leaf_cells(page: Seq<u8>, pointers: Seq<u16>) -> Seq<Seq<u8>> {
    Seq::new(pointers.len(), |i: int| leaf_cell_bytes(page, pointers[i] as int))
}

/// Reads the cell-pointer array of `count` entries that starts at
/// `array_start`.
pub fn read_cell_pointers(data: &[u8], array_start: usize, count: u16) -> (r: Vec<u16>)
    requires
        array_start + 2 * count <= data@.len(),
    ensures
        r@ == cell_pointers(data@, array_start as int, count as nat),
{
    let mut pointers: Vec<u16> = Vec::new();
    let mut index: usize = 0;
    let length: usize = data.len();
    while index < count as usize
        invariant
            index <= count,
            array_start + 2 * count <= data@.len() == length,
            pointers@ == cell_pointers(data@, array_start as int, index as nat),
        decreases count - index,
    {
        let pointer = read_u16(data, array_start + 2 * index);
        pointers.push(pointer);
        assert(pointers@ =~= cell_pointers(data@, array_start as int, (index + 1) as nat));
        index = index + 1;
    }
    pointers
}

/// Copies out the table leaf cells that `pointers` lead to. `None` when one
/// of them does not lead to a whole cell.
pub fn read_leaf_cells(data: &[u8], pointers: &Vec<u16>) -> (r: Option<Vec<Vec<u8>>>)
    ensures
        r is Some <==> leaf_cells_fit(data@, pointers@),
        r matches Some(cells) ==> buffers_view(cells@) == leaf_cells(data@, pointers@),
{
    let mut cells: Vec<Vec<u8>> = Vec::new();
    let mut index: usize = 0;
    while index < pointers.len()
        invariant
            index <= pointers@.len(),
            leaf_cells_fit(data@, pointers@.take(index as int)),
            buffers_view(cells@) == leaf_cells(data@, pointers@).take(index as int),
        decreases pointers@.len() - index,
    {
        let pointer: usize = pointers[index] as usize;
        assert(pointers@.take(index + 1)[index as int] == pointers@[index as int]);
        if pointer >= data.len() {
            return None;
        }
        let from_size = &data[pointer..data.len()];
        assert(from_size@ =~= data@.skip(pointer as int));
        let (payload_size, size_len) = match parse_varint(from_size) {
            None => {
                return None;
            },
            Some(found) => found,
        };
        if payload_size < 0 {
            return None;
        }
        let from_row_id = &data[pointer + size_len..data.len()];
        assert(from_row_id@ =~= data@.skip(pointer + size_len));
        let row_id_len = match parse_varint(from_row_id) {
            None => {
                return None;
            },
            Some((_, row_id_len)) => row_id_len,
        };
        assert(from_row_id@ =~= from_size@.skip(size_len as int));
        let payload_start: usize = pointer + size_len + row_id_len;
        if payload_size as u64 > (data.len() - payload_start) as u64 {
            return None;
        }
        let cell_end: usize = payload_start + payload_size as usize;
        let cell = slice_to_vec(&data[pointer..cell_end]);
        let ghost before = cells@;
        cells.push(cell);
        assert(buffers_view(cells@) =~= leaf_cells(data@, pointers@).take(index + 1)) by {
            assert(buffers_view(cells@) =~= buffers_view(before).push(cell@));
        }
        assert(leaf_cells_fit(data@, pointers@.take(index + 1))) by {
            assert forall|i: int| 0 <= i < index + 1 implies leaf_cell_fits(
                data@,
                #[trigger] pointers@.take(index + 1)[i] as int,
            ) by {
                if i < index {
                    assert(pointers@.take(index as int)[i] == pointers@.take(index + 1)[i]);
                }
            }
        }
        index = index + 1;
    }
    assert(pointers@.take(index as int) =~= pointers@);
    assert(leaf_cells(data@, pointers@).take(index as int) =~= leaf_cells(data@, pointers@));
    Some(cells)
}

/// The contents of a list of records.
pub open spec fn records_view(records: Seq<Record>) -> Seq<RecordView> {
    records.map_values(|r: Record| r@)
}

/// Whether every one of `cells` holds a whole record.
pub open spec fn cells_well_formed(cells: Seq<Seq<u8>>) -> bool {
    forall|i: int| 0 <= i < cells.len() ==> cell_well_formed(#[trigger] cells[i])
}

/// The rows that `cells` stand for, in cell order.
pub open spec fn cells_records(cells: Seq<Seq<u8>>) -> Seq<RecordView> {
    cells.map_values(|cell: Seq<u8>| cell_record(cell))
}

/// Decodes every cell into a row, in cell order. `None` when one of them
/// ends before its record does.
pub fn decode_cells(cells: &Vec<Vec<u8>>) -> (r: Option<Vec<Record>>)
    ensures
        r is Some <==> cells_well_formed(buffers_view(cells@)),
        r matches Some(records) ==> records_view(records@) == cells_records(buffers_view(cells@)),
{
    let mut records: Vec<Record> = Vec::new();
    let mut index: usize = 0;
    while index < cells.len()
        invariant
            index <= cells@.len(),
            cells_well_formed(buffers_view(cells@).take(index as int)),
            records_view(records@) == cells_records(buffers_view(cells@)).take(index as int),
        decreases cells@.len() - index,
    {
        assert(buffers_view(cells@)[index as int] == cells@[index as int]@);
        match Record::from_cell(cells[index].as_slice()) {
            None => {
                return None;
            },
            Some(record) => {
                let ghost before = records@;
                records.push(record);
                assert(records_view(records@) =~= cells_records(buffers_view(cells@)).take(
                    index + 1,
                )) by {
                    assert(records_view(records@) =~= records_view(before).push(record@));
                }
                assert(cells_well_formed(buffers_view(cells@).take(index + 1))) by {
                    assert forall|i: int| 0 <= i < index + 1 implies cell_well_formed(
                        #[trigger] buffers_view(cells@).take(index + 1)[i],
                    ) by {
                        if i < index {
                            assert(buffers_view(cells@).take(index as int)[i] == buffers_view(
                                cells@,
                            ).take(index + 1)[i]);
                        }
                    }
                }
            },
        }
        index = index + 1;
    }
    assert(buffers_view(cells@).take(index as int) =~= buffers_view(cells@));
    assert(cells_records(buffers_view(cells@)).take(index as int) =~= cells_records(
        buffers_view(cells@),
    ));
    Some(records)
}

/// Whether a table leaf page header at `base`, its cell-pointer array and
/// every cell the array points to lie inside `page`.
pub open spec fn leaf_page_fits(page: Seq<u8>, base: int) -> bool {
    &&& cell_array_fits(page, base, 8)
    &&& leaf_cells_fit(page, cell_pointers(page, base + 8, page_cell_count(page, base)))
}

/// The cells of the table leaf page whose header stands at `base`.
pub open spec fn leaf_page_cells(page: Seq<u8>, base: int) -> Seq<Seq<u8>> {
    leaf_cells(page, cell_pointers(page, base + 8, page_cell_count(page, base)))
}

/// A table leaf page: its eight header bytes and its cells, each from its
/// payload-size varint to the end of its payload.
#[derive(Debug)]
pub struct LeafTablePage {
    pub header: [u8; 8],
    pub cells: Vec<Vec<u8>>,
}

impl LeafTablePage {
    /// Reads a table leaf page from the bytes of one page. `None` when the
    /// header, the pointer array or a cell reaches beyond `data`.
    pub fn from_bytes(data: &[u8]) -> (r: Option<Self>)
        ensures
            r is Some <==> leaf_page_fits(data@, 0),
            r matches Some(page) ==> page.header@ == data@.take(8) && buffers_view(page.cells@)
                == leaf_page_cells(data@, 0),
    {
        if data.len() < 8 {
            return None;
        }
        let header: [u8; 8] = [
            data[0],
            data[1],
            data[2],
            data[3],
            data[4],
            data[5],
            data[6],
            data[7],
        ];
        assert(header@ =~= data@.take(8));
        let cell_count = read_u16(data, 3);
        if 2 * (cell_count as usize) > data.len() - 8 {
            return None;
        }
        let pointers = read_cell_pointers(data, 8, cell_count);
        match read_leaf_cells(data, &pointers) {
            None => None,
            Some(cells) => Some(LeafTablePage { header, cells }),
        }
    }

    /// Decodes the page's cells into rows, in cell order. `None` when a cell
    /// ends before its record does.
    pub fn to_table_rows(&self) -> (r: Option<Vec<Record>>)
        ensures
            r is Some <==> cells_well_formed(buffers_view(self.cells@)),
            r matches Some(records) ==> records_view(records@) == cells_records(
                buffers_view(self.cells@),
            ),
    {
        decode_cells(&self.cells)
    }
}

/// Whether a whole table interior cell stands at `pointer`: four bytes of
/// child page number and a whole varint of key.
pub open spec fn interior_cell_fits(page: Seq<u8>, pointer: int) -> bool {
    &&& pointer + 4 <= page.len()
    &&& varint_whole(page.skip(pointer + 4))
}

/// The child page number and the separator key of the table interior cell at
/// `pointer`.
pub open spec fn interior_cell(page: Seq<u8>, pointer: int) -> (u32, i64) {
    (be_u32(page, pointer) as u32, varint_value(page.skip(pointer + 4)) as i64)
}

/// Whether the twelve-byte header of a table interior page, its cell-pointer
/// array and every cell the array points to lie inside `page`.
pub open spec fn interior_page_fits(page: Seq<u8>) -> bool {
    &&& cell_array_fits(page, 0, 12)
    &&& forall|i: int|
        0 <= i < page_cell_count(page, 0) ==> interior_cell_fits(
            page,
            #[trigger] page_cell_pointer(page, 12, i) as int,
        )
}

/// The cells of a table interior page, in pointer order.
pub open spec fn interior_page_cells(page: Seq<u8>) -> Seq<(u32, i64)> {
    Seq::new(
        page_cell_count(page, 0),
        |i: int| interior_cell(page, page_cell_pointer(page, 12, i) as int),
    )
}

/// The right-most child that the header of a table interior page names;
/// zero stands for none.
pub open spec fn interior_right_most(page: Seq<u8>) -> Option<u32> {
    if be_u32(page, 8) == 0 {
        None
    } else {
        Some(be_u32(page, 8) as u32)
    }
}

/// A table interior page: its twelve header bytes, its cells as pairs of
/// child page number and separator key, and the right-most child.
#[derive(Debug)]
pub struct InteriorTablePage {
    pub header: [u8; 12],
    pub cells: Vec<(u32, i64)>,
    pub right_most_child: Option<u32>,
}

impl InteriorTablePage {
    /// Reads a table interior page from the bytes of one page. `None` when
    /// the header, the pointer array or a cell reaches beyond `data`.
    pub fn from_bytes(data: &[u8]) -> (r: Option<Self>)
        ensures
            r is Some <==> interior_page_fits(data@),
            r matches Some(page) ==> {
                &&& page.header@ == data@.take(12)
                &&& page.cells@ == interior_page_cells(data@)
                &&& page.right_most_child == interior_right_most(data@)
            },
    {
        if data.len() < 12 {
            return None;
        }
        let header: [u8; 12] = [
            data[0],
            data[1],
            data[2],
            data[3],
            data[4],
            data[5],
            data[6],
            data[7],
            data[8],
            data[9],
            data[10],
            data[11],
        ];
        assert(header@ =~= data@.take(12));
        let cell_count = read_u16(data, 3);
        if 2 * (cell_count as usize) > data.len() - 12 {
            return None;
        }
        let right_most = read_u32(data, 8);
        let right_most_child = if right_most == 0 {
            None
        } else {
            Some(right_most)
        };
        let pointers = read_cell_pointers(data, 12, cell_count);
        let mut cells: Vec<(u32, i64)> = Vec::new();
        let mut index: usize = 0;
        while index < pointers.len()
            invariant
                index <= pointers@.len() == cell_count,
                cell_count == page_cell_count(data@, 0),
                cell_array_fits(data@, 0, 12),
                pointers@ == cell_pointers(data@, 12, cell_count as nat),
                forall|i: int|
                    0 <= i < index ==> interior_cell_fits(
                        data@,
                        #[trigger] page_cell_pointer(data@, 12, i) as int,
                    ),
                cells@ == interior_page_cells(data@).take(index as int),
            decreases pointers@.len() - index,
        {
            let pointer: usize = pointers[index] as usize;
            assert(pointer == page_cell_pointer(data@, 12, index as int));
            if pointer + 4 > data.len() {
                return None;
            }
            let child = read_u32(data, pointer);
            let from_key = &data[pointer + 4..data.len()];
            assert(from_key@ =~= data@.skip(pointer + 4));
            let key = match parse_varint(from_key) {
                None => {
                    return None;
                },
                Some((key, _)) => key,
            };
            cells.push((child, key));
            assert(cells@ =~= interior_page_cells(data@).take(index + 1));
            index = index + 1;
        }
        assert(interior_page_cells(data@).take(index as int) =~= interior_page_cells(data@));
        Some(InteriorTablePage { header, cells, right_most_child })
    }
}

/// A page of a table B-tree, by its kind.
#[derive(Debug)]
pub enum TablePage {
    Leaf(LeafTablePage),
    Interior(InteriorTablePage),
}

/// Whether `page` begins with the tag of a table leaf or a table interior
/// page, and can be read as a page of that kind.
pub open spec fn table_page_fits(page: Seq<u8>) -> bool {
    &&& page.len() > 0
    &&& (page[0] == TABLE_LEAF && leaf_page_fits(page, 0)) || (page[0] == TABLE_INTERIOR
        && interior_page_fits(page))
}

impl TablePage {
    /// Reads a page of a table B-tree as the kind that its first byte names.
    /// `None` when that byte is the tag of neither kind, or when the page
    /// cannot be read as a page of its kind.
    pub fn from_bytes(data: &[u8]) -> (r: Option<TablePage>)
        ensures
            r is Some <==> table_page_fits(data@),
            match r {
                Some(TablePage::Leaf(leaf)) => {
                    &&& data@[0] == TABLE_LEAF
                    &&& leaf.header@ == data@.take(8)
                    &&& buffers_view(leaf.cells@) == leaf_page_cells(data@, 0)
                },
                Some(TablePage::Interior(interior)) => {
                    &&& data@[0] == TABLE_INTERIOR
                    &&& interior.header@ == data@.take(12)
                    &&& interior.cells@ == interior_page_cells(data@)
                    &&& interior.right_most_child == interior_right_most(data@)
                },
                None => true,
            },
    {
        if data.len() == 0 {
            return None;
        }
        let tag: u8 = data[0];
        if tag == TABLE_LEAF {
            match LeafTablePage::from_bytes(data) {
                Some(leaf) => Some(TablePage::Leaf(leaf)),
                None => None,
            }
        } else if tag == TABLE_INTERIOR {
            match InteriorTablePage::from_bytes(data) {
                Some(interior) => Some(TablePage::Interior(interior)),
                None => None,
            }
        } else {
            None
        }
    }
}

} // verus!
