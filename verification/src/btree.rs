//! The table B-tree walk: from a root page down through interior pages to the
//! leaves, children left to right and the right-most child last, so that rows
//! come out in the order in which the file stores their keys.

use vstd::prelude::*;
use crate::page::{
    cells_records, cells_well_formed, interior_page_cells, interior_page_fits,
    interior_right_most, leaf_page_cells, leaf_page_fits, records_view, InteriorTablePage,
    TablePage, INDEX_INTERIOR, INDEX_LEAF, TABLE_INTERIOR, TABLE_LEAF,
};
use crate::record::{Record, RecordView};

verus! {

/// A page that the walk could not use: its number and the tag byte found at
/// its start, or zero when the page lies outside the file.
#[derive(Clone, Copy, Debug, PartialEq, Eq, Structural)]
pub struct PageFault {
    pub page_number: u32,
    pub tag: u8,
}

/// Whether page `page_number`, counted from one, lies inside a file of
/// `image_len` bytes.
pub open spec fn page_in_range(image_len: nat, page_size: nat, page_number: nat) -> bool {
    &&& page_size > 0
    &&& page_number >= 1
    &&& page_number * page_size <= image_len
}

/// The bytes of page `page_number`, counted from one.
pub open spec fn page_of(image: Seq<u8>, page_size: nat, page_number: nat) -> Seq<u8> {
    image.subrange((page_number - 1) * page_size, (page_number * page_size) as int)
}

/// The pages below a table interior page, in the order in which the walk
/// visits them: the child of each cell, then the right-most child.
pub open spec fn interior_children(cells: Seq<(u32, i64)>, right_most: Option<u32>) -> Seq<u32> {
    cells.map_values(|cell: (u32, i64)| cell.0) + match right_most {
        Some(child) => seq![child],
        None => Seq::empty(),
    }
}

/// The rows of the table B-tree rooted at `page_number`, or the first page
/// on the way that cannot be used. A leaf gives its cells' rows; an interior
/// page gives the rows of its children in order, as long as `depth` allows
/// one more level; an index page gives no rows.
pub open spec fn walk(image: Seq<u8>, page_size: nat, page_number: u32, depth: nat) -> Result<
    Seq<RecordView>,
    PageFault,
>
    decreases depth, 0nat,
{
    if !page_in_range(image.len(), page_size, page_number as nat) {
        Err(PageFault { page_number, tag: 0 })
    } else {
        let page = page_of(image, page_size, page_number as nat);
        let tag = page[0];
        if tag == TABLE_LEAF {
            if leaf_page_fits(page, 0) && cells_well_formed(leaf_page_cells(page, 0)) {
                Ok(cells_records(leaf_page_cells(page, 0)))
            } else {
                Err(PageFault { page_number, tag })
            }
        } else if tag == TABLE_INTERIOR {
            if depth == 0 || !interior_page_fits(page) {
                Err(PageFault { page_number, tag })
            } else {
                walk_children(
                    image,
                    page_size,
                    interior_children(interior_page_cells(page), interior_right_most(page)),
                    (depth - 1) as nat,
                )
            }
        } else if tag == INDEX_LEAF || tag == INDEX_INTERIOR {
            Ok(Seq::empty())
        } else {
            Err(PageFault { page_number, tag })
        }
    }
}

/// The rows of the subtrees rooted at `children`, one after the other, or
/// the first fault met.
pub open spec fn walk_children(
    image: Seq<u8>,
    page_size: nat,
    children: Seq<u32>,
    depth: nat,
) -> Result<Seq<RecordView>, PageFault>
    decreases depth, children.len() + 1,
{
    if children.len() == 0 {
        Ok(Seq::empty())
    } else {
        match walk(image, page_size, children[0], depth) {
            Err(fault) => Err(fault),
            Ok(first) => match walk_children(image, page_size, children.drop_first(), depth) {
                Err(fault) => Err(fault),
                Ok(rest) => Ok(first + rest),
            },
        }
    }
}

/// Whether the outcome `r` of a walk is what `expected` says.
pub open spec fn walk_matches(
    r: Result<Vec<Record>, PageFault>,
    expected: Result<Seq<RecordView>, PageFault>,
) -> bool {
    match (r, expected) {
        (Ok(records), Ok(rows)) => records_view(records@) == rows,
        (Err(fault), Err(other)) => fault == other,
        _ => false,
    }
}

proof fn lemma_page_bounds(image_len: nat, page_size: nat, page_number: nat)
    requires
        page_size > 0,
        page_number >= 1,
    ensures
        page_in_range(image_len, page_size, page_number) <==> page_number - 1 < image_len
            / page_size,
        page_in_range(image_len, page_size, page_number) ==> (page_number - 1) * page_size
            + page_size == page_number * page_size,
{
    let q = image_len / page_size;
    assert(q * page_size <= image_len < (q + 1) * page_size) by (nonlinear_arith)
        requires
            q == image_len / page_size,
            page_size > 0,
    ;
    if page_number <= q {
        assert(page_number * page_size <= q * page_size) by (nonlinear_arith)
            requires
                page_number <= q,
        ;
    } else {
        assert(page_number * page_size >= (q + 1) * page_size) by (nonlinear_arith)
            requires
                page_number >= q + 1,
        ;
    }
    assert((page_number - 1) * page_size + page_size == page_number * page_size)
        by (nonlinear_arith);
}

/// The bytes of page `page_number` of `image`, or `None` when the page lies
/// outside it.
pub fn read_page(image: &[u8], page_size: usize, page_number: u32) -> (r: Option<&[u8]>)
    ensures
        r is Some <==> page_in_range(image@.len(), page_size as nat, page_number as nat),
        r matches Some(page) ==> page@ == page_of(image@, page_size as nat, page_number as nat)
            && page@.len() == page_size,
{
    if page_size == 0 || page_number == 0 {
        return None;
    }
    proof {
        lemma_page_bounds(image@.len(), page_size as nat, page_number as nat);
    }
    let index: usize = (page_number - 1) as usize;
    if index >= image.len() / page_size {
        return None;
    }
    assert(index * page_size + page_size <= image@.len()) by (nonlinear_arith)
        requires
            (index + 1) * page_size <= image@.len(),
    ;
    let start: usize = index * page_size;
    Some(&image[start..start + page_size])
}

/// Collects the rows of the table B-tree rooted at `page_number`, visiting
/// the children of every interior page left to right and its right-most
/// child last. Fails with the first page that lies outside `image`, carries
/// an unknown tag, is cut short, or is an interior page more than `depth`
/// levels below the root.
pub fn walk_table(image: &[u8], page_size: usize, page_number: u32, depth: usize) -> (r: Result<
    Vec<Record>,
    PageFault,
>)
    ensures
        walk_matches(r, walk(image@, page_size as nat, page_number, depth as nat)),
    decreases depth, 0nat,
{
    let page = match read_page(image, page_size, page_number) {
        None => {
            return Err(PageFault { page_number, tag: 0 });
        },
        Some(page) => page,
    };
    let tag: u8 = page[0];
    if tag == INDEX_LEAF || tag == INDEX_INTERIOR {
        let records: Vec<Record> = Vec::new();
        assert(records_view(records@) =~= Seq::<RecordView>::empty());
        return Ok(records);
    }
    match TablePage::from_bytes(page) {
        None => Err(PageFault { page_number, tag }),
        Some(TablePage::Leaf(leaf)) => match leaf.to_table_rows() {
            None => Err(PageFault { page_number, tag }),
            Some(records) => Ok(records),
        },
        Some(TablePage::Interior(interior)) => if depth == 0 {
            Err(PageFault { page_number, tag })
        } else {
            walk_below(image, page_size, &interior, depth - 1)
        },
    }
}

/// Collects the rows below an interior page: those of the subtree of each
/// cell's child, in cell order, and then those of the right-most child.
pub fn walk_below(image: &[u8], page_size: usize, interior: &InteriorTablePage, depth: usize) -> (r:
    Result<Vec<Record>, PageFault>)
    ensures
        walk_matches(
            r,
            walk_children(
                image@,
                page_size as nat,
                interior_children(interior.cells@, interior.right_most_child),
                depth as nat,
            ),
        ),
    decreases depth, 1nat,
{
    let ghost children = interior_children(interior.cells@, interior.right_most_child);
    let mut records: Vec<Record> = Vec::new();
    let mut index: usize = 0;
    proof {
        assert(children.skip(0) =~= children);
        lemma_join_empty(walk_children(image@, page_size as nat, children, depth as nat));
        assert(records_view(records@) =~= Seq::<RecordView>::empty());
    }
    while index < interior.cells.len()
        invariant
            index <= interior.cells@.len(),
            children == interior_children(interior.cells@, interior.right_most_child),
            walk_children(image@, page_size as nat, children, depth as nat) == join(
                records_view(records@),
                walk_children(image@, page_size as nat, children.skip(index as int), depth as nat),
            ),
        decreases interior.cells@.len() - index,
    {
        let child: u32 = interior.cells[index].0;
        proof {
            lemma_walk_children_step(image@, page_size as nat, children, index as int, depth as nat);
        }
        match walk_table(image, page_size, child, depth) {
            Err(fault) => {
                return Err(fault);
            },
            Ok(mut rows) => {
                let ghost before = records_view(records@);
                let ghost added = records_view(rows@);
                append_records(&mut records, &mut rows);
                proof {
                    lemma_join_assoc(
                        before,
                        added,
                        walk_children(
                            image@,
                            page_size as nat,
                            children.skip(index + 1),
                            depth as nat,
                        ),
                    );
                }
            },
        }
        index = index + 1;
    }
    match interior.right_most_child {
        None => {
            assert(children.skip(index as int) =~= Seq::<u32>::empty());
            assert(records_view(records@) + Seq::<RecordView>::empty() =~= records_view(records@));
            Ok(records)
        },
        Some(child) => {
            proof {
                lemma_walk_children_step(
                    image@,
                    page_size as nat,
                    children,
                    index as int,
                    depth as nat,
                );
                assert(children.skip(index + 1) =~= Seq::<u32>::empty());
            }
            match walk_table(image, page_size, child, depth) {
                Err(fault) => Err(fault),
                Ok(mut rows) => {
                    let ghost added = records_view(rows@);
                    append_records(&mut records, &mut rows);
                    assert(added + Seq::<RecordView>::empty() =~= added);
                    Ok(records)
                },
            }
        },
    }
}

/// The rows gathered so far followed by what the rest of a walk gives.
pub open spec fn join(rows: Seq<RecordView>, rest: Result<Seq<RecordView>, PageFault>) -> Result<
    Seq<RecordView>,
    PageFault,
> {
    match rest {
        Ok(more) => Ok(rows + more),
        Err(fault) => Err(fault),
    }
}

proof fn lemma_join_empty(rest: Result<Seq<RecordView>, PageFault>)
    ensures
        join(Seq::empty(), rest) == rest,
{
    match rest {
        Ok(more) => {
            assert(Seq::<RecordView>::empty() + more =~= more);
        },
        Err(_) => {},
    }
}

proof fn lemma_join_assoc(
    before: Seq<RecordView>,
    added: Seq<RecordView>,
    rest: Result<Seq<RecordView>, PageFault>,
)
    ensures
        join(before, join(added, rest)) == join(before + added, rest),
{
    match rest {
        Ok(more) => {
            assert(before + (added + more) =~= (before + added) + more);
        },
        Err(_) => {},
    }
}

proof fn lemma_walk_children_step(
    image: Seq<u8>,
    page_size: nat,
    children: Seq<u32>,
    index: int,
    depth: nat,
)
    requires
        0 <= index < children.len(),
    ensures
        walk_children(image, page_size, children.skip(index), depth) == match walk(
            image,
            page_size,
            children[index],
            depth,
        ) {
            Err(fault) => Err(fault),
            Ok(first) => join(first, walk_children(image, page_size, children.skip(index + 1), depth)),
        },
{
    assert(children.skip(index).drop_first() =~= children.skip(index + 1));
}

/// Moves every record of `more` to the end of `records`.
fn append_records(records: &mut Vec<Record>, more: &mut Vec<Record>)
    ensures
        records_view(final(records)@) == records_view(old(records)@) + records_view(old(more)@),
{
    let ghost before = records@;
    let ghost added = more@;
    records.append(more);
    assert(records_view(records@) =~= records_view(before) + records_view(added));
}

/// Whether the row ids of `rows` ascend strictly and all lie above `low` and
/// not above `high`.
pub open spec fn ascending_within(rows: Seq<RecordView>, low: int, high: int) -> bool {
    &&& forall|i: int| 0 <= i < rows.len() ==> low < (#[trigger] rows[i]).row_id <= high
    &&& forall|i: int, j: int|
        0 <= i < j < rows.len() ==> (#[trigger] rows[i]).row_id < (#[trigger] rows[j]).row_id
}

/// Whether the table B-tree rooted at `page_number` keeps its keys in order:
/// the row ids of each leaf ascend, and the rows below each child of an
/// interior page lie above the separator key before it and not above its
/// own, all of them above `low` and not above `high`.
pub open spec fn ordered_tree(
    image: Seq<u8>,
    page_size: nat,
    page_number: u32,
    depth: nat,
    low: int,
    high: int,
) -> bool
    decreases depth, 0nat,
{
    if !page_in_range(image.len(), page_size, page_number as nat) {
        true
    } else {
        let page = page_of(image, page_size, page_number as nat);
        if page[0] == TABLE_LEAF {
            ascending_within(cells_records(leaf_page_cells(page, 0)), low, high)
        } else if page[0] == TABLE_INTERIOR && depth > 0 {
            ordered_children(
                image,
                page_size,
                interior_page_cells(page),
                interior_right_most(page),
                (depth - 1) as nat,
                low,
                high,
            )
        } else {
            true
        }
    }
}

/// Whether the subtrees below the cells of an interior page, and below its
/// right-most child, keep their keys in order between `low` and `high`.
pub open spec fn ordered_children(
    image: Seq<u8>,
    page_size: nat,
    cells: Seq<(u32, i64)>,
    right_most: Option<u32>,
    depth: nat,
    low: int,
    high: int,
) -> bool
    decreases depth, cells.len() + 1,
{
    if cells.len() == 0 {
        match right_most {
            None => true,
            Some(child) => ordered_tree(image, page_size, child, depth, low, high),
        }
    } else {
        &&& low < cells[0].1 <= high
        &&& ordered_tree(image, page_size, cells[0].0, depth, low, cells[0].1 as int)
        &&& ordered_children(
            image,
            page_size,
            cells.drop_first(),
            right_most,
            depth,
            cells[0].1 as int,
            high,
        )
    }
}

proof fn lemma_ascending_concat(
    first: Seq<RecordView>,
    rest: Seq<RecordView>,
    low: int,
    middle: int,
    high: int,
)
    requires
        ascending_within(first, low, middle),
        ascending_within(rest, middle, high),
        low <= middle <= high,
    ensures
        ascending_within(first + rest, low, high),
{
    let all = first + rest;
    assert forall|i: int| 0 <= i < all.len() implies low < (#[trigger] all[i]).row_id <= high by {
        if i < first.len() {
            assert(all[i] == first[i]);
        } else {
            assert(all[i] == rest[i - first.len()]);
        }
    }
    assert forall|i: int, j: int| 0 <= i < j < all.len() implies (#[trigger] all[i]).row_id < (
    #[trigger] all[j]).row_id by {
        if j < first.len() {
            assert(all[i] == first[i] && all[j] == first[j]);
        } else if i < first.len() {
            assert(all[i] == first[i] && all[j] == rest[j - first.len()]);
        } else {
            assert(all[i] == rest[i - first.len()] && all[j] == rest[j - first.len()]);
        }
    }
}

/// In a table B-tree that keeps its keys in order, the walk yields rows
/// whose row ids ascend strictly: every row of a subtree comes out before
/// every row of the subtrees to its right.
pub proof fn lemma_walk_ascending(
    image: Seq<u8>,
    page_size: nat,
    page_number: u32,
    depth: nat,
    low: int,
    high: int,
)
    requires
        walk(image, page_size, page_number, depth) is Ok,
        ordered_tree(image, page_size, page_number, depth, low, high),
    ensures
        ascending_within(walk(image, page_size, page_number, depth)->Ok_0, low, high),
    decreases depth, 0nat,
{
    let page = page_of(image, page_size, page_number as nat);
    if page[0] == TABLE_INTERIOR {
        lemma_walk_children_ascending(
            image,
            page_size,
            interior_page_cells(page),
            interior_right_most(page),
            (depth - 1) as nat,
            low,
            high,
        );
    }
}

proof fn lemma_walk_children_ascending(
    image: Seq<u8>,
    page_size: nat,
    cells: Seq<(u32, i64)>,
    right_most: Option<u32>,
    depth: nat,
    low: int,
    high: int,
)
    requires
        walk_children(image, page_size, interior_children(cells, right_most), depth) is Ok,
        ordered_children(image, page_size, cells, right_most, depth, low, high),
    ensures
        ascending_within(
            walk_children(image, page_size, interior_children(cells, right_most), depth)->Ok_0,
            low,
            high,
        ),
    decreases depth, cells.len() + 1,
{
    let children = interior_children(cells, right_most);
    if cells.len() == 0 {
        match right_most {
            None => {
                assert(children =~= Seq::<u32>::empty());
            },
            Some(child) => {
                assert(children =~= seq![child]);
                assert(children.drop_first() =~= Seq::<u32>::empty());
                lemma_walk_ascending(image, page_size, child, depth, low, high);
                let rows = walk(image, page_size, child, depth)->Ok_0;
                assert(rows + Seq::<RecordView>::empty() =~= rows);
            },
        }
    } else {
        assert(children[0] == cells[0].0);
        assert(children.drop_first() =~= interior_children(cells.drop_first(), right_most));
        lemma_walk_ascending(image, page_size, cells[0].0, depth, low, cells[0].1 as int);
        lemma_walk_children_ascending(
            image,
            page_size,
            cells.drop_first(),
            right_most,
            depth,
            cells[0].1 as int,
            high,
        );
        lemma_ascending_concat(
            walk(image, page_size, cells[0].0, depth)->Ok_0,
            walk_children(image, page_size, children.drop_first(), depth)->Ok_0,
            low,
            cells[0].1 as int,
            high,
        );
    }
}

} // verus!
