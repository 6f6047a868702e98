use vstd::prelude::*;
use vstd::string::StringSliceAdditionalSpecFns;

use crate::common::{
    fixed_of, fixed_text, fixed_to_string, push_all, read_array, string_to_fixed, MIN_COL_NAME_SIZE,
    MIN_DIR_NAME_SIZE,
};
use crate::error::DbError;
use crate::pageman::{Page, PAGE_NAME_SIZE};

verus! {

/// Magic byte that opens every directory record.
pub const DIRECTORY_MAGIC: u8 = 0xCC;

/// Most pages a directory takes through `add_page`.
pub const PAGES_PER_DIRECTORY: usize = 32;

/// Width in bytes of a directory's name field.
pub const DIRECTORY_NAME_SIZE: usize = MIN_DIR_NAME_SIZE;

/// Magic byte reserved for column records.
pub const COLUMN_MAGIC: u8 = 0xEA;

/// Width in bytes of a column's name field.
pub const COLUMN_NAME_SIZE: usize = MIN_COL_NAME_SIZE;

/// Type tag of an integer column.
pub const COLUMN_INT: u8 = 0x00;

/// Type tag of a floating-point column.
pub const COLUMN_FLOAT: u8 = 0x01;

/// Type tag of a string column.
pub const COLUMN_STRING: u8 = 0x02;

/// Size in bytes of a directory header: magic, name, page count, column count.
pub const DIRECTORY_HEADER_SIZE: usize = 11;

/// Size in bytes of an encoded column: type tag and name.
pub const COLUMN_RECORD_SIZE: usize = 9;

pub struct DirectoryColumn {
    pub type_: u8,
    pub name: [u8; COLUMN_NAME_SIZE],
}

pub struct DirectoryHeader {
    pub magic: u8,
    pub name: [u8; DIRECTORY_NAME_SIZE],
    pub page_count: u8,
    pub column_count: u8,
}

pub struct Directory {
    pub header: DirectoryHeader,
    pub columns: Vec<DirectoryColumn>,
    pub names: Vec<[u8; PAGE_NAME_SIZE]>,
}

impl View for DirectoryColumn {
    /// The type tag and the name field.
    type V = (u8, Seq<u8>);

    open spec fn view(&self) -> (u8, Seq<u8>) {
        (self.type_, self.name@)
    }
}

/// A directory as plain values.
pub struct DirectoryView {
    pub magic: u8,
    pub name: Seq<u8>,
    pub page_count: u8,
    pub column_count: u8,
    pub columns: Seq<(u8, Seq<u8>)>,
    pub names: Seq<Seq<u8>>,
}

impl DirectoryView {
    /// The header agrees with the lists it counts, and every field has its width.
    pub open spec fn wf(&self) -> bool {
        &&& self.magic == DIRECTORY_MAGIC
        &&& self.name.len() == DIRECTORY_NAME_SIZE
        &&& self.page_count == self.names.len()
        &&& self.column_count == self.columns.len()
        &&& forall|i: int| 0 <= i < self.columns.len() ==> #[trigger] self.columns[i].1.len() == COLUMN_NAME_SIZE
        &&& forall|i: int| 0 <= i < self.names.len() ==> #[trigger] self.names[i].len() == PAGE_NAME_SIZE
    }
}

impl View for Directory {
    type V = DirectoryView;

    open spec fn view(&self) -> DirectoryView {
        DirectoryView {
            magic: self.header.magic,
            name: self.header.name@,
            page_count: self.header.page_count,
            column_count: self.header.column_count,
            columns: self.columns@.map_values(|c: DirectoryColumn| c@),
            names: self.names@.map_values(|n: [u8; PAGE_NAME_SIZE]| n@),
        }
    }
}

/// The bytes of a list of columns: for each, in order, its tag and its name field.
pub open spec fn columns_bytes(cs: Seq<(u8, Seq<u8>)>) -> Seq<u8>
    decreases cs.len(),
{
    if cs.len() == 0 {
        seq![]
    } else {
        columns_bytes(cs.drop_last()) + seq![cs.last().0] + cs.last().1
    }
}

/// The bytes of a list of name fields, one after the other.
pub open spec fn names_bytes(ns: Seq<Seq<u8>>) -> Seq<u8>
    decreases ns.len(),
{
    if ns.len() == 0 {
        seq![]
    } else {
        names_bytes(ns.drop_last()) + ns.last()
    }
}

/// The bytes of a directory record: header, columns, page names.
pub open spec fn encode_directory(d: DirectoryView) -> Seq<u8> {
    seq![d.magic] + d.name + seq![d.page_count, d.column_count] + columns_bytes(d.columns)
        + names_bytes(d.names)
}

/// Offset of the page names in a record with `column_count` columns.
pub open spec fn names_offset(column_count: u8) -> int {
    DIRECTORY_HEADER_SIZE + COLUMN_RECORD_SIZE * column_count
}

/// Size of a directory record with the given counts.
pub open spec fn directory_size(page_count: u8, column_count: u8) -> int {
    names_offset(column_count) + PAGE_NAME_SIZE * page_count
}

/// What decoding `b` as a directory record gives. The whole header is read before the
/// magic byte is checked; then exactly as many columns and page names as the header
/// counts are read. Bytes after the record are ignored.
pub open spec fn decode_directory(b: Seq<u8>) -> Result<DirectoryView, DbError> {
    if b.len() < DIRECTORY_HEADER_SIZE {
        Err(DbError::UnexpectedEof)
    } else if b[0] != DIRECTORY_MAGIC {
        Err(DbError::InvalidMagic { expected: DIRECTORY_MAGIC, found: b[0] })
    } else if b.len() < directory_size(b[9], b[10]) {
        Err(DbError::UnexpectedEof)
    } else {
        let off = names_offset(b[10]);
        Ok(
            DirectoryView {
                magic: b[0],
                name: b.subrange(1, 9),
                page_count: b[9],
                column_count: b[10],
                columns: Seq::new(
                    b[10] as nat,
                    |i: int|
                        (
                            b[DIRECTORY_HEADER_SIZE + 9 * i],
                            b.subrange(DIRECTORY_HEADER_SIZE + 9 * i + 1, DIRECTORY_HEADER_SIZE + 9 * i + 9),
                        ),
                ),
                names: Seq::new(b[9] as nat, |i: int| b.subrange(off + 8 * i, off + 8 * i + 8)),
            },
        )
    }
}

/// Where each column lands in the bytes of a column list.
proof fn lemma_columns_bytes(cs: Seq<(u8, Seq<u8>)>)
    requires
        forall|i: int| 0 <= i < cs.len() ==> #[trigger] cs[i].1.len() == COLUMN_NAME_SIZE,
    ensures
        columns_bytes(cs).len() == COLUMN_RECORD_SIZE * cs.len(),
        forall|i: int|
            0 <= i < cs.len() ==> #[trigger] columns_bytes(cs)[COLUMN_RECORD_SIZE * i] == cs[i].0,
        forall|i: int, k: int|
            0 <= i < cs.len() && 0 <= k < COLUMN_NAME_SIZE ==> #[trigger] columns_bytes(cs)[COLUMN_RECORD_SIZE * i + 1 + k]
                == #[trigger] cs[i].1[k],
    decreases cs.len(),
{
    if cs.len() > 0 {
        let front = cs.drop_last();
        assert forall|i: int| 0 <= i < front.len() implies #[trigger] front[i].1.len() == COLUMN_NAME_SIZE by {
            assert(front[i] == cs[i]);
        }
        lemma_columns_bytes(front);
        assert forall|i: int, k: int|
            0 <= i < cs.len() && 0 <= k < COLUMN_NAME_SIZE implies #[trigger] columns_bytes(cs)[COLUMN_RECORD_SIZE * i + 1 + k]
                == #[trigger] cs[i].1[k] by {
            if i < front.len() {
                assert(front[i] == cs[i]);
                assert(columns_bytes(front)[COLUMN_RECORD_SIZE * i + 1 + k] == front[i].1[k]);
            }
        }
        assert forall|i: int| 0 <= i < cs.len() implies #[trigger] columns_bytes(cs)[COLUMN_RECORD_SIZE * i] == cs[i].0 by {
            if i < front.len() {
                assert(front[i] == cs[i]);
                assert(columns_bytes(front)[COLUMN_RECORD_SIZE * i] == front[i].0);
            }
        }
    }
}

/// Where each name lands in the bytes of a name list.
proof fn lemma_names_bytes(ns: Seq<Seq<u8>>)
    requires
        forall|i: int| 0 <= i < ns.len() ==> #[trigger] ns[i].len() == PAGE_NAME_SIZE,
    ensures
        names_bytes(ns).len() == PAGE_NAME_SIZE * ns.len(),
        forall|i: int, k: int|
            0 <= i < ns.len() && 0 <= k < PAGE_NAME_SIZE ==> #[trigger] names_bytes(ns)[PAGE_NAME_SIZE * i + k]
                == #[trigger] ns[i][k],
    decreases ns.len(),
{
    if ns.len() > 0 {
        let front = ns.drop_last();
        assert forall|i: int| 0 <= i < front.len() implies #[trigger] front[i].len() == PAGE_NAME_SIZE by {
            assert(front[i] == ns[i]);
        }
        lemma_names_bytes(front);
        assert forall|i: int, k: int|
            0 <= i < ns.len() && 0 <= k < PAGE_NAME_SIZE implies #[trigger] names_bytes(ns)[PAGE_NAME_SIZE * i + k]
                == #[trigger] ns[i][k] by {
            if i < front.len() {
                assert(front[i] == ns[i]);
                assert(names_bytes(front)[PAGE_NAME_SIZE * i + k] == front[i][k]);
            }
        }
    }
}

/// A well-formed directory is decoded from its own encoding unchanged: the same name,
/// counts, columns with their tags in order, and page names in order.
pub proof fn lemma_directory_round_trip(d: DirectoryView)
    requires
        d.wf(),
    ensures
        decode_directory(encode_directory(d)) == Ok::<DirectoryView, DbError>(d),
{
    let b = encode_directory(d);
    let cb = columns_bytes(d.columns);
    let nb = names_bytes(d.names);
    lemma_columns_bytes(d.columns);
    lemma_names_bytes(d.names);
    let head = seq![d.magic] + d.name + seq![d.page_count, d.column_count];
    assert(b == head + cb + nb);
    let off = names_offset(d.column_count);
    let r = decode_directory(b)->Ok_0;
    assert(b.subrange(1, 9) =~= d.name);
    assert forall|i: int| 0 <= i < d.columns.len() implies r.columns[i] == d.columns[i] by {
        assert(b[DIRECTORY_HEADER_SIZE + 9 * i] == cb[COLUMN_RECORD_SIZE * i]);
        assert forall|k: int| 0 <= k < COLUMN_NAME_SIZE implies
            b[DIRECTORY_HEADER_SIZE + 9 * i + 1 + k] == d.columns[i].1[k] by {
            assert(b[DIRECTORY_HEADER_SIZE + 9 * i + 1 + k] == cb[COLUMN_RECORD_SIZE * i + 1 + k]);
        }
        assert(b.subrange(DIRECTORY_HEADER_SIZE + 9 * i + 1, DIRECTORY_HEADER_SIZE + 9 * i + 9)
            =~= d.columns[i].1);
    }
    assert forall|i: int| 0 <= i < d.names.len() implies r.names[i] == d.names[i] by {
        assert forall|k: int| 0 <= k < PAGE_NAME_SIZE implies b[off + 8 * i + k] == d.names[i][k] by {
            assert(b[off + 8 * i + k] == nb[PAGE_NAME_SIZE * i + k]);
        }
        assert(b.subrange(off + 8 * i, off + 8 * i + 8) =~= d.names[i]);
    }
    assert(r.columns =~= d.columns);
    assert(r.names =~= d.names);
}

/// Decoding fails on a wrong first byte once the header is there, whatever the rest
/// holds, and reports the byte expected and the byte found.
pub proof fn lemma_directory_magic_checked(b: Seq<u8>)
    requires
        b.len() >= DIRECTORY_HEADER_SIZE,
        b[0] != DIRECTORY_MAGIC,
    ensures
        decode_directory(b) == Err::<DirectoryView, DbError>(
            DbError::InvalidMagic { expected: DIRECTORY_MAGIC, found: b[0] },
        ),
{
}

impl Directory {
    /// The directory is well formed: see `DirectoryView::wf`.
    pub open spec fn wf(&self) -> bool {
        self@.wf()
    }

    /// An empty directory named `name` (cut to its field's width) with the given columns,
    /// or none.
    pub fn new(name: &str, columns: Option<Vec<DirectoryColumn>>) -> (r: Directory)
        requires
            columns is Some ==> columns->Some_0@.len() <= 255,
        ensures
            r.wf(),
            r@.name == fixed_of(name.spec_bytes(), DIRECTORY_NAME_SIZE as nat),
            r@.names.len() == 0,
            r@.columns == match columns {
                Some(v) => v@.map_values(|c: DirectoryColumn| c@),
                None => Seq::<(u8, Seq<u8>)>::empty(),
            },
    {
        let columns_vec = match columns {
            Some(v) => v,
            None => Vec::new(),
        };
        let column_count: u8 = columns_vec.len() as u8;
        let r = Directory {
            header: DirectoryHeader {
                magic: DIRECTORY_MAGIC,
                name: string_to_fixed(name),
                page_count: 0,
                column_count,
            },
            columns: columns_vec,
            names: Vec::with_capacity(PAGES_PER_DIRECTORY),
        };
        assert(r@.names =~= Seq::<Seq<u8>>::empty());
        r
    }

    /// Appends the name of `page`, unless the directory already holds
    /// `PAGES_PER_DIRECTORY` pages.
    pub fn add_page(&mut self, page: &Page) -> (r: Result<(), DbError>)
        requires
            old(self).wf(),
        ensures
            final(self).wf(),
            r is Ok <==> old(self)@.names.len() < PAGES_PER_DIRECTORY,
            r is Ok ==> final(self)@ == (DirectoryView {
                page_count: (old(self)@.page_count + 1) as u8,
                names: old(self)@.names.push(page.header.name@),
                ..old(self)@
            }),
            r is Err ==> final(self)@ == old(self)@ && r->Err_0 == DbError::InvalidPageCount(
                old(self)@.names.len() as u8,
            ),
    {
        if self.names.len() >= PAGES_PER_DIRECTORY {
            return Err(DbError::InvalidPageCount(self.names.len() as u8));
        }
        self.names.push(page.header.name);
        self.header.page_count = self.names.len() as u8;
        assert(self@.names =~= old(self)@.names.push(page.header.name@));
        Ok(())
    }

    /// The bytes of this directory as stored: header, columns in order, page names in
    /// order.
    pub fn to_bytes(&self) -> (r: Vec<u8>)
        ensures
            r@ == encode_directory(self@),
    {
        let mut out: Vec<u8> = Vec::new();
        out.push(self.header.magic);
        push_all(&mut out, self.header.name.as_slice());
        out.push(self.header.page_count);
        out.push(self.header.column_count);
        let ghost head = out@;
        let mut i: usize = 0;
        while i < self.columns.len()
            invariant
                i <= self.columns@.len(),
                out@ == head + columns_bytes(self@.columns.take(i as int)),
            decreases self.columns@.len() - i,
        {
            out.push(self.columns[i].type_);
            push_all(&mut out, self.columns[i].name.as_slice());
            i = i + 1;
            assert(self@.columns.take(i as int).drop_last() =~= self@.columns.take(i - 1));
            assert(out@ =~= head + columns_bytes(self@.columns.take(i as int)));
        }
        assert(self@.columns.take(i as int) =~= self@.columns);
        let ghost mid = out@;
        let mut j: usize = 0;
        while j < self.names.len()
            invariant
                j <= self.names@.len(),
                out@ == mid + names_bytes(self@.names.take(j as int)),
            decreases self.names@.len() - j,
        {
            push_all(&mut out, self.names[j].as_slice());
            j = j + 1;
            assert(self@.names.take(j as int).drop_last() =~= self@.names.take(j - 1));
            assert(out@ =~= mid + names_bytes(self@.names.take(j as int)));
        }
        assert(self@.names.take(j as int) =~= self@.names);
        out
    }

    /// Reads a directory record from the start of `data`.
    pub fn from_bytes(data: &[u8]) -> (r: Result<Directory, DbError>)
        ensures
            match r {
                Ok(d) => d.wf() && decode_directory(data@) == Ok::<DirectoryView, DbError>(d@),
                Err(e) => decode_directory(data@) == Err::<DirectoryView, DbError>(e),
            },
    {
        if data.len() < DIRECTORY_HEADER_SIZE {
            return Err(DbError::UnexpectedEof);
        }
        let magic: u8 = data[0];
        let name: [u8; DIRECTORY_NAME_SIZE] = read_array(data, 1);
        let page_count: u8 = data[9];
        let column_count: u8 = data[10];
        if magic != DIRECTORY_MAGIC {
            return Err(DbError::InvalidMagic { expected: DIRECTORY_MAGIC, found: magic });
        }
        let off: usize = DIRECTORY_HEADER_SIZE + COLUMN_RECORD_SIZE * (column_count as usize);
        let size: usize = off + PAGE_NAME_SIZE * (page_count as usize);
        if data.len() < size {
            return Err(DbError::UnexpectedEof);
        }
        let ghost expected = decode_directory(data@)->Ok_0;
        let mut columns: Vec<DirectoryColumn> = Vec::with_capacity(column_count as usize);
        let mut i: usize = 0;
        while i < column_count as usize
            invariant
                size <= data@.len(),
                off == names_offset(column_count),
                size == directory_size(page_count, column_count),
                column_count == data@[10],
                i <= column_count,
                columns@.len() == i,
                forall|k: int|
                    0 <= k < i ==> #[trigger] columns@[k]@ == (
                        data@[DIRECTORY_HEADER_SIZE + 9 * k],
                        data@.subrange(DIRECTORY_HEADER_SIZE + 9 * k + 1, DIRECTORY_HEADER_SIZE + 9 * k + 9),
                    ),
            decreases column_count - i,
        {
            let at: usize = DIRECTORY_HEADER_SIZE + COLUMN_RECORD_SIZE * i;
            let col_name: [u8; COLUMN_NAME_SIZE] = read_array(data, at + 1);
            columns.push(DirectoryColumn { type_: data[at], name: col_name });
            i = i + 1;
        }
        let mut names: Vec<[u8; PAGE_NAME_SIZE]> = Vec::with_capacity(page_count as usize);
        let mut j: usize = 0;
        while j < page_count as usize
            invariant
                size <= data@.len(),
                off == names_offset(column_count),
                size == directory_size(page_count, column_count),
                page_count == data@[9],
                column_count == data@[10],
                j <= page_count,
                names@.len() == j,
                forall|k: int|
                    0 <= k < j ==> #[trigger] names@[k]@ == data@.subrange(off + 8 * k, off + 8 * k + 8),
            decreases page_count - j,
        {
            let page_name: [u8; PAGE_NAME_SIZE] = read_array(data, off + PAGE_NAME_SIZE * j);
            names.push(page_name);
            j = j + 1;
        }
        let d = Directory {
            header: DirectoryHeader { magic, name, page_count, column_count },
            columns,
            names,
        };
        assert(d@.columns =~= expected.columns);
        assert(d@.names =~= expected.names);
        Ok(d)
    }

    /// The directory's name: its name field read as text.
    pub fn get_name(&self) -> (r: String)
        ensures
            r@ == fixed_text(self.header.name@),
    {
        fixed_to_string(self.header.name.as_slice())
    }

    /// The names of the pages, read as text, in the order they were added.
    pub fn get_page_names(&self) -> (r: Vec<String>)
        ensures
            r@.len() == self.names@.len(),
            forall|i: int| 0 <= i < r@.len() ==> #[trigger] r@[i]@ == fixed_text(self.names@[i]@),
    {
        let mut result: Vec<String> = Vec::new();
        let mut i: usize = 0;
        while i < self.names.len()
            invariant
                i <= self.names@.len(),
                result@.len() == i,
                forall|k: int| 0 <= k < i ==> #[trigger] result@[k]@ == fixed_text(self.names@[k]@),
            decreases self.names@.len() - i,
        {
            result.push(fixed_to_string(self.names[i].as_slice()));
            i = i + 1;
        }
        result
    }
}

impl DirectoryColumn {
    /// An integer column named `name` (cut to its field's width).
    pub fn new_int(name: &str) -> (r: DirectoryColumn)
        ensures
            r@ == (COLUMN_INT, fixed_of(name.spec_bytes(), COLUMN_NAME_SIZE as nat)),
    {
        DirectoryColumn { type_: COLUMN_INT, name: string_to_fixed(name) }
    }

    /// A floating-point column named `name` (cut to its field's width).
    pub fn new_float(name: &str) -> (r: DirectoryColumn)
        ensures
            r@ == (COLUMN_FLOAT, fixed_of(name.spec_bytes(), COLUMN_NAME_SIZE as nat)),
    {
        DirectoryColumn { type_: COLUMN_FLOAT, name: string_to_fixed(name) }
    }

    /// A string column named `name` (cut to its field's width).
    pub fn new_string(name: &str) -> (r: DirectoryColumn)
        ensures
            r@ == (COLUMN_STRING, fixed_of(name.spec_bytes(), COLUMN_NAME_SIZE as nat)),
    {
        DirectoryColumn { type_: COLUMN_STRING, name: string_to_fixed(name) }
    }

    /// The column's name: its name field read as text.
    pub fn get_name(&self) -> (r: String)
        ensures
            r@ == fixed_text(self.name@),
    {
        fixed_to_string(self.name.as_slice())
    }
}

} // verus!
