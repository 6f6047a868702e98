use vstd::prelude::*;
use vstd::string::StringSliceAdditionalSpecFns;

use vstd::utf8::encode_utf8;

use crate::common::{
    fixed_of, fixed_text, fixed_to_string, lemma_fixed_text_round_trip, push_all, read_array,
    string_to_fixed, MIN_PAGE_NAME_SIZE,
};
use crate::error::DbError;

verus! {

/// Magic byte that opens every page record.
pub const PAGE_MAGIC: u8 = 0xCA;

/// Size in bytes of a page's content buffer.
pub const PAGE_CONTENT_SIZE: usize = 256;

/// Byte that marks the end of the meaningful content inside the buffer.
pub const PAGE_END: u8 = 0xED;

/// Byte reserved to separate columns inside page content.
pub const COLUMN_DELIMITER: u8 = 0xEE;

/// Width in bytes of a page's name field.
pub const PAGE_NAME_SIZE: usize = MIN_PAGE_NAME_SIZE;

/// Size in bytes of an encoded page: magic, name, content.
pub const PAGE_RECORD_SIZE: usize = 265;

pub struct PageHeader {
    pub magic: u8,
    pub name: [u8; PAGE_NAME_SIZE],
}

pub struct Page {
    pub header: PageHeader,
    pub content: [u8; PAGE_CONTENT_SIZE],
}

/// A page as plain values.
pub struct PageView {
    pub magic: u8,
    pub name: Seq<u8>,
    pub content: Seq<u8>,
}

impl View for Page {
    type V = PageView;

    open spec fn view(&self) -> PageView {
        PageView { magic: self.header.magic, name: self.header.name@, content: self.content@ }
    }
}

/// The content buffer made from `payload`: at most `PAGE_CONTENT_SIZE - 1` of its bytes,
/// the end marker right after them, zeros after that.
pub open spec fn content_of(payload: Seq<u8>) -> Seq<u8> {
    let n = if payload.len() < PAGE_CONTENT_SIZE { payload.len() as int } else { PAGE_CONTENT_SIZE - 1 };
    Seq::new(
        PAGE_CONTENT_SIZE as nat,
        |i: int|
            if i < n {
                payload[i]
            } else if i == n {
                PAGE_END
            } else {
                0u8
            },
    )
}

/// The page that `Page::new` builds from the bytes of a name and a payload.
pub open spec fn page_of(name: Seq<u8>, payload: Seq<u8>) -> PageView {
    PageView {
        magic: PAGE_MAGIC,
        name: fixed_of(name, PAGE_NAME_SIZE as nat),
        content: content_of(payload),
    }
}

/// Index of the first end marker in `c` at or after `i`, or `c.len()` if there is none.
pub open spec fn end_from(c: Seq<u8>, i: int) -> int
    decreases c.len() - i,
{
    if i < 0 || i >= c.len() {
        c.len() as int
    } else if c[i] == PAGE_END {
        i
    } else {
        end_from(c, i + 1)
    }
}

/// The meaningful content of a buffer: everything before its first end marker, or the
/// whole buffer when it holds none.
pub open spec fn logical_content(c: Seq<u8>) -> Seq<u8> {
    c.take(end_from(c, 0))
}

/// The bytes of a page record: magic, name field, content buffer.
pub open spec fn encode_page(p: PageView) -> Seq<u8> {
    seq![p.magic] + p.name + p.content
}

/// What decoding `b` as a page record gives. The magic byte is checked as soon as it is
/// read; bytes after the record are ignored.
pub open spec fn decode_page(b: Seq<u8>) -> Result<PageView, DbError> {
    if b.len() < 1 {
        Err(DbError::UnexpectedEof)
    } else if b[0] != PAGE_MAGIC {
        Err(DbError::InvalidMagic { expected: PAGE_MAGIC, found: b[0] })
    } else if b.len() < PAGE_RECORD_SIZE {
        Err(DbError::UnexpectedEof)
    } else {
        Ok(
            PageView {
                magic: b[0],
                name: b.subrange(1, 1 + PAGE_NAME_SIZE),
                content: b.subrange(1 + PAGE_NAME_SIZE, PAGE_RECORD_SIZE as int),
            },
        )
    }
}

/// Scanning from `i` stops at the end marker at `n` when none stands in between.
proof fn lemma_end_at(c: Seq<u8>, i: int, n: int)
    requires
        0 <= i <= n < c.len(),
        c[n] == PAGE_END,
        forall|k: int| i <= k < n ==> c[k] != PAGE_END,
    ensures
        end_from(c, i) == n,
    decreases n - i,
{
    if i < n {
        lemma_end_at(c, i + 1, n);
    }
}

/// A payload without end markers in the part that is kept comes back from the buffer
/// made of it, cut to `PAGE_CONTENT_SIZE - 1` bytes.
pub proof fn lemma_content_kept(payload: Seq<u8>)
    requires
        forall|k: int| 0 <= k < payload.len() && k < PAGE_CONTENT_SIZE - 1 ==> payload[k] != PAGE_END,
    ensures
        logical_content(content_of(payload)) == payload.take(
            if payload.len() < PAGE_CONTENT_SIZE { payload.len() as int } else { PAGE_CONTENT_SIZE - 1 },
        ),
{
    let n = if payload.len() < PAGE_CONTENT_SIZE { payload.len() as int } else { PAGE_CONTENT_SIZE - 1 };
    let c = content_of(payload);
    lemma_end_at(c, 0, n);
    assert(c.take(n) =~= payload.take(n));
}

/// A page whose fields have their widths decodes from its own encoding.
pub proof fn lemma_page_codec(p: PageView)
    requires
        p.magic == PAGE_MAGIC,
        p.name.len() == PAGE_NAME_SIZE,
        p.content.len() == PAGE_CONTENT_SIZE,
    ensures
        decode_page(encode_page(p)) == Ok::<PageView, DbError>(p),
{
    let b = encode_page(p);
    assert(b.subrange(1, 1 + PAGE_NAME_SIZE) =~= p.name);
    assert(b.subrange(1 + PAGE_NAME_SIZE, PAGE_RECORD_SIZE as int) =~= p.content);
}

/// A page built from a name of at most `PAGE_NAME_SIZE` bytes that does not end in NUL,
/// and a payload shorter than `PAGE_CONTENT_SIZE` that holds no end marker, is decoded
/// from its encoding unchanged; its name reads back as the name and its content as the
/// payload.
pub proof fn lemma_page_round_trip(name: Seq<char>, payload: Seq<u8>)
    requires
        encode_utf8(name).len() <= PAGE_NAME_SIZE,
        name.len() == 0 || name.last() != '\0',
        payload.len() < PAGE_CONTENT_SIZE,
        forall|k: int| 0 <= k < payload.len() ==> payload[k] != PAGE_END,
    ensures
        decode_page(encode_page(page_of(encode_utf8(name), payload))) == Ok::<PageView, DbError>(
            page_of(encode_utf8(name), payload),
        ),
        fixed_text(page_of(encode_utf8(name), payload).name) == name,
        logical_content(page_of(encode_utf8(name), payload).content) == payload,
{
    lemma_page_codec(page_of(encode_utf8(name), payload));
    lemma_fixed_text_round_trip(name, PAGE_NAME_SIZE as nat);
    lemma_content_kept(payload);
    assert(payload.take(payload.len() as int) =~= payload);
}

/// A payload of `PAGE_CONTENT_SIZE` bytes or more keeps exactly its first
/// `PAGE_CONTENT_SIZE - 1` bytes, when none of them is the end marker.
pub proof fn lemma_payload_truncated(payload: Seq<u8>)
    requires
        payload.len() >= PAGE_CONTENT_SIZE,
        forall|k: int| 0 <= k < PAGE_CONTENT_SIZE - 1 ==> payload[k] != PAGE_END,
    ensures
        logical_content(content_of(payload)) == payload.take(PAGE_CONTENT_SIZE - 1),
        content_of(payload)[PAGE_CONTENT_SIZE - 1] == PAGE_END,
{
    lemma_content_kept(payload);
}

/// Decoding fails on a wrong first byte, whatever follows it, and reports the byte
/// expected and the byte found.
pub proof fn lemma_page_magic_checked(b: Seq<u8>)
    requires
        b.len() >= 1,
        b[0] != PAGE_MAGIC,
    ensures
        decode_page(b) == Err::<PageView, DbError>(
            DbError::InvalidMagic { expected: PAGE_MAGIC, found: b[0] },
        ),
{
}

impl Page {
    /// Builds a page named `name` whose content is `buffer`, cut to
    /// `PAGE_CONTENT_SIZE - 1` bytes so that the end marker always fits.
    pub fn new(name: &str, buffer: &[u8]) -> (r: Result<Page, DbError>)
        ensures
            name.spec_bytes().len() <= PAGE_NAME_SIZE <==> r is Ok,
            r is Ok ==> r->Ok_0@ == page_of(name.spec_bytes(), buffer@),
            r is Err ==> (match r->Err_0 {
                DbError::InvalidInput { expected, found } => expected@ == name@ && found
                    == PAGE_NAME_SIZE,
                _ => false,
            }),
    {
        if name.as_bytes().len() > PAGE_NAME_SIZE {
            return Err(DbError::InvalidInput { expected: name.to_owned(), found: PAGE_NAME_SIZE });
        }
        let mut content = [0u8; PAGE_CONTENT_SIZE];
        let copy_len: usize = if buffer.len() < PAGE_CONTENT_SIZE {
            buffer.len()
        } else {
            PAGE_CONTENT_SIZE - 1
        };
        let mut i: usize = 0;
        while i < copy_len
            invariant
                copy_len < PAGE_CONTENT_SIZE,
                copy_len <= buffer@.len(),
                i <= copy_len,
                content@.len() == PAGE_CONTENT_SIZE,
                forall|j: int| 0 <= j < i ==> content@[j] == buffer@[j],
                forall|j: int| i <= j < PAGE_CONTENT_SIZE ==> content@[j] == 0u8,
            decreases copy_len - i,
        {
            content[i] = buffer[i];
            i = i + 1;
        }
        content[copy_len] = PAGE_END;
        let page = Page {
            header: PageHeader { magic: PAGE_MAGIC, name: string_to_fixed(name) },
            content,
        };
        assert(page@.content =~= content_of(buffer@));
        Ok(page)
    }

    /// The bytes of this page as stored: magic, name field, content buffer.
    pub fn to_bytes(&self) -> (r: Vec<u8>)
        ensures
            r@ == encode_page(self@),
    {
        let mut out: Vec<u8> = Vec::new();
        out.push(self.header.magic);
        push_all(&mut out, self.header.name.as_slice());
        push_all(&mut out, self.content.as_slice());
        assert(out@ =~= encode_page(self@));
        out
    }

    /// Reads a page record from the start of `data`.
    pub fn from_bytes(data: &[u8]) -> (r: Result<Page, DbError>)
        ensures
            match r {
                Ok(p) => decode_page(data@) == Ok::<PageView, DbError>(p@),
                Err(e) => decode_page(data@) == Err::<PageView, DbError>(e),
            },
    {
        if data.len() < 1 {
            return Err(DbError::UnexpectedEof);
        }
        let magic: u8 = data[0];
        if magic != PAGE_MAGIC {
            return Err(DbError::InvalidMagic { expected: PAGE_MAGIC, found: magic });
        }
        if data.len() < PAGE_RECORD_SIZE {
            return Err(DbError::UnexpectedEof);
        }
        let name: [u8; PAGE_NAME_SIZE] = read_array(data, 1);
        let content: [u8; PAGE_CONTENT_SIZE] = read_array(data, 1 + PAGE_NAME_SIZE);
        Ok(Page { header: PageHeader { magic, name }, content })
    }

    /// The page's name: its name field read as text.
    pub fn get_name(&self) -> (r: String)
        ensures
            r@ == fixed_text(self.header.name@),
    {
        fixed_to_string(self.header.name.as_slice())
    }

    /// The content before the first end marker, or the whole buffer if it holds none.
    pub fn get_content(&self) -> (r: &[u8])
        ensures
            r@ == logical_content(self.content@),
    {
        let mut end: usize = 0;
        while end < PAGE_CONTENT_SIZE && self.content[end] != PAGE_END
            invariant
                end <= PAGE_CONTENT_SIZE,
                self.content@.len() == PAGE_CONTENT_SIZE,
                end_from(self.content@, end as int) == end_from(self.content@, 0),
            decreases PAGE_CONTENT_SIZE - end,
        {
            end = end + 1;
        }
        vstd::slice::slice_subrange(self.content.as_slice(), 0, end)
    }
}

} // verus!
