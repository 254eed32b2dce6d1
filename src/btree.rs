//! B-tree pages and their cells.
use vstd::prelude::*;
use crate::bytes::{be_at, copy_bytes, pow256, read_be_unsigned};
use crate::header::DATABASE_HEADER_SIZE;
use crate::error::DecodeError;
use crate::record::{read_record, record_of};
use crate::varint::{decode_varint, lemma_decode_varint_length, read_varint_at};

verus! {

/// The kind of a b-tree page, from its first header byte.
#[derive(Debug, Clone, Copy, PartialEq, Eq, Structural)]
pub enum PageType {
    IndexInterior,
    TableInterior,
    IndexLeaf,
    TableLeaf,
}

/// The page type that tag byte `b` names: 2, 5, 10 or 13.
pub open spec fn page_type_of(b: u8) -> Result<PageType, DecodeError> {
    if b == 2 {
        Ok(PageType::IndexInterior)
    } else if b == 5 {
        Ok(PageType::TableInterior)
    } else if b == 10 {
        Ok(PageType::IndexLeaf)
    } else if b == 13 {
        Ok(PageType::TableLeaf)
    } else {
        Err(DecodeError::InvalidPageType(b))
    }
}

/// Interior pages carry a right-most child pointer in their header.
pub open spec fn is_interior(t: PageType) -> bool {
    t == PageType::IndexInterior || t == PageType::TableInterior
}

/// The length of the page header of a page of type `t`.
pub open spec fn page_header_len(t: PageType) -> nat {
    if is_interior(t) {
        12
    } else {
        8
    }
}

impl PageType {
    /// The page type that tag byte `value` names, or `InvalidPageType`.
    pub fn try_from(value: u8) -> (r: Result<PageType, DecodeError>)
        ensures
            r == page_type_of(value),
    {
        match value {
            2 => Ok(PageType::IndexInterior),
            5 => Ok(PageType::TableInterior),
            10 => Ok(PageType::IndexLeaf),
            13 => Ok(PageType::TableLeaf),
            _ => Err(DecodeError::InvalidPageType(value)),
        }
    }

    /// Whether pages of this type carry a right-most child pointer.
    pub fn is_interior(&self) -> (r: bool)
        ensures
            r == is_interior(*self),
    {
        match self {
            PageType::IndexInterior | PageType::TableInterior => true,
            _ => false,
        }
    }
}

/// The header of a b-tree page.
#[derive(Debug, Clone, Copy, PartialEq, Eq)]
pub struct BTreePageHeader {
    pub page_type: PageType,
    pub first_freeblock_offset: u16,
    pub num_cells: u16,
    pub cell_content_area: u16,
    pub num_frag_free_bytes: u8,
    pub right_most_pointer: Option<u32>,
}

impl BTreePageHeader {
    /// The right-most pointer is there exactly on interior pages.
    pub open spec fn wf(&self) -> bool {
        self.right_most_pointer is Some <==> is_interior(self.page_type)
    }
}

/// A table-leaf cell: a row id and the payload that holds the row's record.
#[derive(Debug, PartialEq)]
pub struct TableLeafCell {
    pub rowid: u64,
    pub payload: Vec<u8>,
}

/// A cell of a b-tree page.
#[derive(Debug, PartialEq)]
pub enum BTreeCell {
    TableLeafCell(TableLeafCell),
}

/// What a `BTreeCell` holds, in mathematical terms.
pub enum CellView {
    TableLeaf { rowid: u64, payload: Seq<u8> },
}

impl View for BTreeCell {
    type V = CellView;

    open spec fn view(&self) -> CellView {
        match self {
            BTreeCell::TableLeafCell(c) => CellView::TableLeaf { rowid: c.rowid, payload: c.payload@ },
        }
    }
}

/// The cell of a page of type `t` that starts at `page[pos]`.
pub open spec fn cell_at(page: Seq<u8>, t: PageType, pos: int) -> Result<CellView, DecodeError> {
    if t != PageType::TableLeaf {
        Err(DecodeError::UnsupportedCellVariant)
    } else if pos > page.len() {
        Err(DecodeError::OutOfBounds)
    } else {
        match decode_varint(page.subrange(pos, page.len() as int)) {
            None => Err(DecodeError::OutOfBounds),
            Some((size, n1)) => match decode_varint(page.subrange(pos + n1, page.len() as int)) {
                None => Err(DecodeError::OutOfBounds),
                Some((rowid, n2)) => {
                    let start = pos + n1 + n2;
                    if start + size > page.len() {
                        Err(DecodeError::OutOfBounds)
                    } else {
                        Ok(CellView::TableLeaf { rowid, payload: page.subrange(start, start + size) })
                    }
                },
            },
        }
    }
}

/// Decodes the cell of a page of type `page_type` that starts at `page[pos]`.
///
/// A table-leaf cell is a payload-length varint, a row-id varint and the
/// payload; a payload running past the page gives `OutOfBounds`. Cells of the
/// other page types give `UnsupportedCellVariant`.
pub fn read_btree_cell(page: &[u8], page_type: &PageType, pos: usize) -> (r: Result<BTreeCell, DecodeError>)
    ensures
        match cell_at(page@, *page_type, pos as int) {
            Ok(c) => r matches Ok(cell) && cell@ == c,
            Err(e) => r == Err::<BTreeCell, DecodeError>(e),
        },
{
    match page_type {
        PageType::TableLeaf => {},
        _ => {
            return Err(DecodeError::UnsupportedCellVariant);
        },
    }
    let len = page.len();
    if pos > len {
        return Err(DecodeError::OutOfBounds);
    }
    proof {
        lemma_decode_varint_length(page@.subrange(pos as int, len as int));
    }
    let (payload_size, n1) = match read_varint_at(page, pos) {
        Ok(x) => x,
        Err(e) => {
            return Err(e);
        },
    };
    let at = pos + n1;
    proof {
        lemma_decode_varint_length(page@.subrange(at as int, len as int));
    }
    let (rowid, n2) = match read_varint_at(page, at) {
        Ok(x) => x,
        Err(e) => {
            return Err(e);
        },
    };
    let start = at + n2;
    if payload_size > (len - start) as u64 {
        return Err(DecodeError::OutOfBounds);
    }
    let payload = copy_bytes(page, start, payload_size as usize);
    Ok(BTreeCell::TableLeafCell(TableLeafCell { rowid, payload }))
}

/// Where the page header starts: after the file header on page 1.
pub open spec fn header_start(page_idx: usize) -> int {
    if page_idx == 1 {
        DATABASE_HEADER_SIZE as int
    } else {
        0
    }
}

/// The header of page number `page_idx`, whose bytes are `page`.
pub open spec fn page_header_of(page: Seq<u8>, page_idx: usize) -> Result<BTreePageHeader, DecodeError> {
    let pos = header_start(page_idx);
    if page.len() <= pos {
        Err(DecodeError::OutOfBounds)
    } else {
        match page_type_of(page[pos]) {
            Err(e) => Err(e),
            Ok(t) => if page.len() < pos + page_header_len(t) {
                Err(DecodeError::OutOfBounds)
            } else {
                Ok(
                    BTreePageHeader {
                        page_type: t,
                        first_freeblock_offset: be_at(page, pos + 1, 2) as u16,
                        num_cells: be_at(page, pos + 3, 2) as u16,
                        cell_content_area: be_at(page, pos + 5, 2) as u16,
                        num_frag_free_bytes: page[pos + 7],
                        right_most_pointer: if is_interior(t) {
                            Some(be_at(page, pos + 8, 4) as u32)
                        } else {
                            None
                        },
                    },
                )
            },
        }
    }
}

/// Cell `k` of a page of type `t` whose cell pointer array starts at
/// `page[ptrs]`. A table-leaf cell's payload must hold a record that decodes.
pub open spec fn indexed_cell(page: Seq<u8>, t: PageType, ptrs: int, k: nat) -> Result<
    CellView,
    DecodeError,
> {
    let at = ptrs + 2 * k;
    if page.len() < at + 2 {
        Err(DecodeError::OutOfBounds)
    } else {
        match cell_at(page, t, be_at(page, at, 2) as int) {
            Err(e) => Err(e),
            Ok(c) => match c {
                CellView::TableLeaf { rowid, payload } => match record_of(payload) {
                    Err(e) => Err(e),
                    Ok(_) => Ok(c),
                },
            },
        }
    }
}

/// The first `k` cells of a page of type `t` whose cell pointer array starts at
/// `page[ptrs]`, in pointer-array order; the first error met, if any.
pub open spec fn page_cells(page: Seq<u8>, t: PageType, ptrs: int, k: nat) -> Result<
    Seq<CellView>,
    DecodeError,
>
    decreases k,
{
    if k == 0 {
        Ok(Seq::empty())
    } else {
        match page_cells(page, t, ptrs, (k - 1) as nat) {
            Err(e) => Err(e),
            Ok(cs) => match indexed_cell(page, t, ptrs, (k - 1) as nat) {
                Err(e) => Err(e),
                Ok(c) => Ok(cs.push(c)),
            },
        }
    }
}

proof fn lemma_page_cells_error(page: Seq<u8>, t: PageType, ptrs: int, k: nat, m: nat)
    requires
        k <= m,
        page_cells(page, t, ptrs, k) is Err,
    ensures
        page_cells(page, t, ptrs, m) == page_cells(page, t, ptrs, k),
    decreases m - k,
{
    if k < m {
        lemma_page_cells_error(page, t, ptrs, k, (m - 1) as nat);
    }
}

/// What a `BTreePage` holds: its header and its cells.
pub struct PageView {
    pub header: BTreePageHeader,
    pub cells: Seq<CellView>,
}

/// Page number `page_idx`, decoded from its bytes `page`.
pub open spec fn page_of(page: Seq<u8>, page_idx: usize) -> Result<PageView, DecodeError> {
    match page_header_of(page, page_idx) {
        Err(e) => Err(e),
        Ok(h) => match page_cells(
            page,
            h.page_type,
            header_start(page_idx) + page_header_len(h.page_type),
            h.num_cells as nat,
        ) {
            Err(e) => Err(e),
            Ok(cs) => Ok(PageView { header: h, cells: cs }),
        },
    }
}

/// A decoded b-tree page: its header and its cells in pointer-array order.
#[derive(Debug, PartialEq)]
pub struct BTreePage {
    pub header: BTreePageHeader,
    pub cells: Vec<BTreeCell>,
}

impl View for BTreePage {
    type V = PageView;

    open spec fn view(&self) -> PageView {
        PageView { header: self.header, cells: self.cells@.map_values(|c: BTreeCell| c@) }
    }
}

fn read_page_header(page: &[u8], page_idx: usize) -> (r: Result<BTreePageHeader, DecodeError>)
    ensures
        r == page_header_of(page@, page_idx),
{
    let pos: usize = if page_idx == 1 {
        DATABASE_HEADER_SIZE
    } else {
        0
    };
    let len = page.len();
    if len <= pos {
        return Err(DecodeError::OutOfBounds);
    }
    let page_type = match PageType::try_from(page[pos]) {
        Ok(t) => t,
        Err(e) => {
            return Err(e);
        },
    };
    let interior = page_type.is_interior();
    let header_len: usize = if interior {
        12
    } else {
        8
    };
    if len - pos < header_len {
        return Err(DecodeError::OutOfBounds);
    }
    let right_most_pointer = if interior {
        Some(read_be_unsigned(page, pos + 8, 4) as u32)
    } else {
        None
    };
    Ok(
        BTreePageHeader {
            page_type,
            first_freeblock_offset: read_be_unsigned(page, pos + 1, 2) as u16,
            num_cells: read_be_unsigned(page, pos + 3, 2) as u16,
            cell_content_area: read_be_unsigned(page, pos + 5, 2) as u16,
            num_frag_free_bytes: page[pos + 7],
            right_most_pointer,
        },
    )
}

fn read_indexed_cell(page: &[u8], page_type: &PageType, ptrs: usize, k: usize) -> (r: Result<
    BTreeCell,
    DecodeError,
>)
    requires
        ptrs <= 112,
        k < 0x10000,
    ensures
        match indexed_cell(page@, *page_type, ptrs as int, k as nat) {
            Ok(c) => r matches Ok(cell) && cell@ == c,
            Err(e) => r == Err::<BTreeCell, DecodeError>(e),
        },
{
    let at: usize = ptrs + 2 * k;
    if page.len() < at + 2 {
        return Err(DecodeError::OutOfBounds);
    }
    let cell_pointer = read_be_unsigned(page, at, 2);
    proof {
        reveal_with_fuel(pow256, 3);
    }
    let cell_pointer = cell_pointer as usize;
    let cell = match read_btree_cell(page, page_type, cell_pointer) {
        Ok(c) => c,
        Err(e) => {
            return Err(e);
        },
    };
    match &cell {
        BTreeCell::TableLeafCell(c) => {
            match read_record(c.payload.as_slice()) {
                Ok(_) => {},
                Err(e) => {
                    return Err(e);
                },
            }
        },
    }
    Ok(cell)
}

/// Decodes page number `page_idx` (counted from 1) from its bytes `page`.
///
/// The page header starts at byte 0, or after the 100-byte file header on
/// page 1. It is followed by the cell pointer array, whose entries are
/// decoded in order as cells; the record in each table-leaf cell's payload
/// must decode too. A page-type byte outside {2, 5, 10, 13} gives
/// `InvalidPageType`; a header or pointer past the end of `page` gives
/// `OutOfBounds`; a failing cell or record gives its error.
pub fn read_btree_page(page: &[u8], page_idx: usize) -> (r: Result<BTreePage, DecodeError>)
    ensures
        match page_of(page@, page_idx) {
            Ok(pv) => r matches Ok(pg) && pg@ == pv && pg.header.wf(),
            Err(e) => r == Err::<BTreePage, DecodeError>(e),
        },
{
    let header = match read_page_header(page, page_idx) {
        Ok(h) => h,
        Err(e) => {
            return Err(e);
        },
    };
    let len = page.len();
    let start: usize = if page_idx == 1 {
        DATABASE_HEADER_SIZE
    } else {
        0
    };
    let ptrs: usize = if header.page_type.is_interior() {
        start + 12
    } else {
        start + 8
    };
    let ghost p = page@;
    let ghost t = header.page_type;
    let mut cells: Vec<BTreeCell> = Vec::new();
    let mut i: u16 = 0;
    assert(cells@.map_values(|c: BTreeCell| c@) =~= Seq::<CellView>::empty());
    while i < header.num_cells
        invariant
            p == page@,
            len == page@.len(),
            t == header.page_type,
            header == page_header_of(p, page_idx)->Ok_0,
            page_header_of(p, page_idx) is Ok,
            ptrs == header_start(page_idx) + page_header_len(t),
            ptrs <= 112,
            i <= header.num_cells,
            page_cells(p, t, ptrs as int, i as nat) == Ok::<Seq<CellView>, DecodeError>(
                cells@.map_values(|c: BTreeCell| c@),
            ),
        decreases header.num_cells - i,
    {
        let cell = match read_indexed_cell(page, &header.page_type, ptrs, i as usize) {
            Ok(c) => c,
            Err(e) => {
                proof {
                    lemma_page_cells_error(p, t, ptrs as int, (i + 1) as nat, header.num_cells as nat);
                }
                return Err(e);
            },
        };
        let ghost before = cells@.map_values(|c: BTreeCell| c@);
        let ghost cv = cell@;
        cells.push(cell);
        assert(cells@.map_values(|c: BTreeCell| c@) =~= before.push(cv));
        i = i + 1;
    }
    Ok(BTreePage { header, cells })
}

} // verus!
