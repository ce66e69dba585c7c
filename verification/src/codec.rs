//! The row wire format: a result set travels as a flat byte buffer holding
//! one array per row, each array one tagged, self-describing value per cell
//! in column-ordinal order. A decoder needs no external schema beyond the
//! accompanying column list for naming.
//!
//! Layout: each row is a 4-byte little-endian cell count followed by its
//! cells. Each cell is a one-byte type tag followed by its payload: nothing
//! for null and booleans; an 8-byte little-endian integer (two's complement
//! for the signed kinds) for integers and timestamps; the raw IEEE-754 bit
//! pattern, 4 or 8 bytes little-endian, for floats; a 4-byte little-endian
//! byte length followed by that many bytes for text (UTF-8) and blobs.
//!
//! Encoding is a pure function of the row data, so decoding an encoded
//! result set yields it back exactly; `lemma_parse_rows_of_rows_bytes`
//! states that round trip.

use vstd::bytes::*;
use vstd::prelude::*;
use vstd::slice::{slice_subrange, slice_to_vec};
use vstd::string::StrSliceExecFns;
use vstd::utf8::*;

use crate::cell::{Cell, CellModel};
use crate::error::DbError;

verus! {

pub const TAG_NULL: u8 = 0;

pub const TAG_FALSE: u8 = 1;

pub const TAG_TRUE: u8 = 2;

pub const TAG_INT: u8 = 3;

pub const TAG_UINT: u8 = 4;

pub const TAG_F32: u8 = 5;

pub const TAG_F64: u8 = 6;

pub const TAG_TEXT: u8 = 7;

pub const TAG_BLOB: u8 = 8;

pub const TAG_TIMESTAMP: u8 = 9;

/// The two's-complement image of a signed 64-bit value.
pub open spec fn u64_of_i64(i: i64) -> u64 {
    if i >= 0 {
        i as u64
    } else {
        (i + 0x1_0000_0000_0000_0000) as u64
    }
}

/// The signed 64-bit value whose two's-complement image `u` is.
pub open spec fn i64_of_u64(u: u64) -> i64 {
    if u <= i64::MAX as u64 {
        u as i64
    } else {
        (u - 0x1_0000_0000_0000_0000) as i64
    }
}

pub proof fn lemma_i64_u64_roundtrip(i: i64)
    ensures
        i64_of_u64(u64_of_i64(i)) == i,
{
}

/// Whether a cell can be encoded: its type has an encoder and its payload
/// length fits the 4-byte length prefix.
pub open spec fn cell_ok(c: CellModel) -> bool {
    match c {
        CellModel::Text(s) => encode_utf8(s).len() <= u32::MAX,
        CellModel::Blob(b) => b.len() <= u32::MAX,
        CellModel::Unsupported(_) => false,
        _ => true,
    }
}

/// The bytes of one encoded cell (meaningful only when `cell_ok` holds).
pub open spec fn cell_bytes(c: CellModel) -> Seq<u8> {
    match c {
        CellModel::Null => seq![TAG_NULL],
        CellModel::Bool(b) => if b {
            seq![TAG_TRUE]
        } else {
            seq![TAG_FALSE]
        },
        CellModel::Int(i) => seq![TAG_INT] + spec_u64_to_le_bytes(u64_of_i64(i)),
        CellModel::Uint(u) => seq![TAG_UINT] + spec_u64_to_le_bytes(u),
        CellModel::F32Bits(b) => seq![TAG_F32] + spec_u32_to_le_bytes(b),
        CellModel::F64Bits(b) => seq![TAG_F64] + spec_u64_to_le_bytes(b),
        CellModel::Text(s) => seq![TAG_TEXT] + spec_u32_to_le_bytes(
            encode_utf8(s).len() as u32,
        ) + encode_utf8(s),
        CellModel::Blob(b) => seq![TAG_BLOB] + spec_u32_to_le_bytes(b.len() as u32) + b,
        CellModel::Timestamp(t) => seq![TAG_TIMESTAMP] + spec_u64_to_le_bytes(u64_of_i64(t)),
        CellModel::Unsupported(_) => Seq::empty(),
    }
}

/// Whether a whole row can be encoded.
pub open spec fn row_ok(r: Seq<CellModel>) -> bool {
    &&& r.len() <= u32::MAX
    &&& forall|i: int| 0 <= i < r.len() ==> cell_ok(#[trigger] r[i])
}

/// Whether a whole result set can be encoded.
pub open spec fn rows_ok(rs: Seq<Seq<CellModel>>) -> bool {
    forall|i: int| 0 <= i < rs.len() ==> row_ok(#[trigger] rs[i])
}

pub open spec fn cells_bytes(r: Seq<CellModel>) -> Seq<u8>
    decreases r.len(),
{
    if r.len() == 0 {
        Seq::empty()
    } else {
        cell_bytes(r[0]) + cells_bytes(r.skip(1))
    }
}

/// The bytes of one encoded row: cell count, then the cells.
pub open spec fn row_bytes(r: Seq<CellModel>) -> Seq<u8> {
    spec_u32_to_le_bytes(r.len() as u32) + cells_bytes(r)
}

/// The bytes of a whole encoded result set, row after row.
pub open spec fn rows_bytes(rs: Seq<Seq<CellModel>>) -> Seq<u8>
    decreases rs.len(),
{
    if rs.len() == 0 {
        Seq::empty()
    } else {
        row_bytes(rs[0]) + rows_bytes(rs.skip(1))
    }
}

/// Reads a 4-byte little-endian integer off the front of `s`.
pub open spec fn take_u32(s: Seq<u8>) -> Option<(u32, Seq<u8>)> {
    if s.len() >= 4 {
        Some((spec_u32_from_le_bytes(s.take(4)), s.skip(4)))
    } else {
        None
    }
}

/// Reads an 8-byte little-endian integer off the front of `s`.
pub open spec fn take_u64(s: Seq<u8>) -> Option<(u64, Seq<u8>)> {
    if s.len() >= 8 {
        Some((spec_u64_from_le_bytes(s.take(8)), s.skip(8)))
    } else {
        None
    }
}

/// Parses one cell off the front of `s`: the tag, then the payload the tag
/// calls for. Fails on an unknown tag, a truncated payload, or text that is
/// not valid UTF-8.
pub open spec fn parse_cell(s: Seq<u8>) -> Option<(CellModel, Seq<u8>)> {
    if s.len() == 0 {
        None
    } else {
        let tag = s[0];
        let r = s.skip(1);
        if tag == TAG_NULL {
            Some((CellModel::Null, r))
        } else if tag == TAG_FALSE {
            Some((CellModel::Bool(false), r))
        } else if tag == TAG_TRUE {
            Some((CellModel::Bool(true), r))
        } else if tag == TAG_INT {
            match take_u64(r) {
                Some((u, r2)) => Some((CellModel::Int(i64_of_u64(u)), r2)),
                None => None,
            }
        } else if tag == TAG_UINT {
            match take_u64(r) {
                Some((u, r2)) => Some((CellModel::Uint(u), r2)),
                None => None,
            }
        } else if tag == TAG_F32 {
            match take_u32(r) {
                Some((b, r2)) => Some((CellModel::F32Bits(b), r2)),
                None => None,
            }
        } else if tag == TAG_F64 {
            match take_u64(r) {
                Some((b, r2)) => Some((CellModel::F64Bits(b), r2)),
                None => None,
            }
        } else if tag == TAG_TEXT {
            match take_u32(r) {
                Some((n, r2)) => if n <= r2.len() && valid_utf8(r2.take(n as int)) {
                    Some((CellModel::Text(decode_utf8(r2.take(n as int))), r2.skip(n as int)))
                } else {
                    None
                },
                None => None,
            }
        } else if tag == TAG_BLOB {
            match take_u32(r) {
                Some((n, r2)) => if n <= r2.len() {
                    Some((CellModel::Blob(r2.take(n as int)), r2.skip(n as int)))
                } else {
                    None
                },
                None => None,
            }
        } else if tag == TAG_TIMESTAMP {
            match take_u64(r) {
                Some((u, r2)) => Some((CellModel::Timestamp(i64_of_u64(u)), r2)),
                None => None,
            }
        } else {
            None
        }
    }
}

/// Parses exactly `n` cells off the front of `s`.
pub open spec fn parse_cells(s: Seq<u8>, n: nat) -> Option<(Seq<CellModel>, Seq<u8>)>
    decreases n,
{
    if n == 0 {
        Some((Seq::empty(), s))
    } else {
        match parse_cell(s) {
            Some((c, r)) => match parse_cells(r, (n - 1) as nat) {
                Some((cs, r2)) => Some((seq![c] + cs, r2)),
                None => None,
            },
            None => None,
        }
    }
}

/// Parses one row off the front of `s`: the cell count, then that many cells.
pub open spec fn parse_row(s: Seq<u8>) -> Option<(Seq<CellModel>, Seq<u8>)> {
    match take_u32(s) {
        Some((n, r)) => parse_cells(r, n as nat),
        None => None,
    }
}

/// Parses a whole buffer as a result set: rows until the buffer is empty.
/// Fails if any row fails or if bytes are left over.
pub open spec fn parse_rows(s: Seq<u8>) -> Option<Seq<Seq<CellModel>>>
    decreases s.len(),
{
    if s.len() == 0 {
        Some(Seq::empty())
    } else {
        match parse_row(s) {
            Some((row, r)) => if r.len() < s.len() {
                match parse_rows(r) {
                    Some(rest) => Some(seq![row] + rest),
                    None => None,
                }
            } else {
                None
            },
            None => None,
        }
    }
}

/// The two's-complement image, computed without leaving the value range.
pub fn u64_from_i64(i: i64) -> (u: u64)
    ensures
        u == u64_of_i64(i),
{
    if i >= 0 {
        i as u64
    } else {
        let w: i128 = (i as i128) + 0x1_0000_0000_0000_0000;
        w as u64
    }
}

/// Inverse of `u64_from_i64`.
pub fn i64_from_u64(u: u64) -> (i: i64)
    ensures
        i == i64_of_u64(u),
{
    if u <= 0x7fff_ffff_ffff_ffff {
        u as i64
    } else {
        let w: i128 = (u as i128) - 0x1_0000_0000_0000_0000;
        w as i64
    }
}

fn push_u32_le(buf: &mut Vec<u8>, n: u32)
    ensures
        final(buf)@ == old(buf)@ + spec_u32_to_le_bytes(n),
{
    let mut bs = u32_to_le_bytes(n);
    buf.append(&mut bs);
}

fn push_u64_le(buf: &mut Vec<u8>, n: u64)
    ensures
        final(buf)@ == old(buf)@ + spec_u64_to_le_bytes(n),
{
    let mut bs = u64_to_le_bytes(n);
    buf.append(&mut bs);
}

/// Whether this cell's type has an encoder and its payload fits the length
/// prefix.
pub fn cell_encodable(c: &Cell) -> (b: bool)
    ensures
        b == cell_ok(c@),
{
    match c {
        Cell::Text(s) => {
            let bs = s.as_str().as_bytes_vec();
            bs.len() <= u32::MAX as usize
        },
        Cell::Blob(v) => v.len() <= u32::MAX as usize,
        Cell::Unsupported(_) => false,
        _ => true,
    }
}

/// Appends the encoding of one cell to `buf`.
fn encode_cell(buf: &mut Vec<u8>, c: &Cell)
    requires
        cell_ok(c@),
    ensures
        final(buf)@ == old(buf)@ + cell_bytes(c@),
{
    match c {
        Cell::Null => {
            buf.push(TAG_NULL);
            assert(buf@ =~= old(buf)@ + cell_bytes(c@));
        },
        Cell::Bool(b) => {
            if *b {
                buf.push(TAG_TRUE);
            } else {
                buf.push(TAG_FALSE);
            }
            assert(buf@ =~= old(buf)@ + cell_bytes(c@));
        },
        Cell::Int(i) => {
            buf.push(TAG_INT);
            push_u64_le(buf, u64_from_i64(*i));
            assert(buf@ =~= old(buf)@ + cell_bytes(c@));
        },
        Cell::Uint(u) => {
            buf.push(TAG_UINT);
            push_u64_le(buf, *u);
            assert(buf@ =~= old(buf)@ + cell_bytes(c@));
        },
        Cell::F32Bits(b) => {
            buf.push(TAG_F32);
            push_u32_le(buf, *b);
            assert(buf@ =~= old(buf)@ + cell_bytes(c@));
        },
        Cell::F64Bits(b) => {
            buf.push(TAG_F64);
            push_u64_le(buf, *b);
            assert(buf@ =~= old(buf)@ + cell_bytes(c@));
        },
        Cell::Text(s) => {
            let mut bs = s.as_str().as_bytes_vec();
            buf.push(TAG_TEXT);
            push_u32_le(buf, bs.len() as u32);
            buf.append(&mut bs);
            assert(buf@ =~= old(buf)@ + cell_bytes(c@));
        },
        Cell::Blob(v) => {
            let mut bs = slice_to_vec(v.as_slice());
            buf.push(TAG_BLOB);
            push_u32_le(buf, bs.len() as u32);
            buf.append(&mut bs);
            assert(buf@ =~= old(buf)@ + cell_bytes(c@));
        },
        Cell::Timestamp(t) => {
            buf.push(TAG_TIMESTAMP);
            push_u64_le(buf, u64_from_i64(*t));
            assert(buf@ =~= old(buf)@ + cell_bytes(c@));
        },
        Cell::Unsupported(_) => {
            proof {
                assert(false);
            }
        },
    }
}

/// Whether a whole row can be encoded.
pub fn row_encodable(r: &Vec<Cell>) -> (b: bool)
    ensures
        b == row_ok(r.deep_view()),
{
    if r.len() > u32::MAX as usize {
        return false;
    }
    let mut i: usize = 0;
    while i < r.len()
        invariant
            i <= r.len(),
            r.len() <= u32::MAX,
            forall|j: int| 0 <= j < i ==> cell_ok(#[trigger] r.deep_view()[j]),
        decreases r.len() - i,
    {
        if !cell_encodable(&r[i]) {
            proof {
                assert(r.deep_view()[i as int] == r[i as int]@);
            }
            return false;
        }
        proof {
            assert(r.deep_view()[i as int] == r[i as int]@);
        }
        i += 1;
    }
    true
}

/// Appends the encoding of one row to `buf`.
fn encode_row(buf: &mut Vec<u8>, row: &Vec<Cell>)
    requires
        row_ok(row.deep_view()),
    ensures
        final(buf)@ == old(buf)@ + row_bytes(row.deep_view()),
{
    push_u32_le(buf, row.len() as u32);
    let mut i: usize = 0;
    while i < row.len()
        invariant
            i <= row.len(),
            row_ok(row.deep_view()),
            buf@ == old(buf)@ + spec_u32_to_le_bytes(row.deep_view().len() as u32) + cells_bytes(
                row.deep_view().take(i as int),
            ),
        decreases row.len() - i,
    {
        encode_cell(buf, &row[i]);
        proof {
            lemma_cells_bytes_push(row.deep_view().take(i as int), row.deep_view()[i as int]);
            assert(row.deep_view().take(i + 1) =~= row.deep_view().take(i as int).push(
                row.deep_view()[i as int],
            ));
        }
        i += 1;
    }
    proof {
        assert(row.deep_view().take(row.len() as int) =~= row.deep_view());
    }
}

/// Encodes a whole result set, or reports the first reason it cannot be
/// encoded. Succeeds exactly when every cell's type has an encoder and every
/// length fits the wire format's prefixes.
pub fn encode_rows(rows: &Vec<Vec<Cell>>) -> (r: Result<Vec<u8>, DbError>)
    ensures
        match r {
            Ok(buf) => rows_ok(rows.deep_view()) && buf@ == rows_bytes(rows.deep_view()),
            Err(e) => !rows_ok(rows.deep_view()) && e is Encoding,
        },
{
    let mut i: usize = 0;
    while i < rows.len()
        invariant
            i <= rows.len(),
            forall|j: int| 0 <= j < i ==> row_ok(#[trigger] rows.deep_view()[j]),
        decreases rows.len() - i,
    {
        if !row_encodable(&rows[i]) {
            proof {
                assert(rows.deep_view()[i as int] == rows[i as int].deep_view());
            }
            return Err(DbError::Encoding("result set holds a cell no encoder accepts".to_owned()));
        }
        proof {
            assert(rows.deep_view()[i as int] == rows[i as int].deep_view());
        }
        i += 1;
    }
    // pre-size with a coarse estimate; exact sizing is not part of the contract
    let estimate: usize = if rows.len() <= usize::MAX / 2 {
        rows.len() * 2
    } else {
        rows.len()
    };
    let mut buf: Vec<u8> = Vec::with_capacity(estimate);
    let mut i: usize = 0;
    while i < rows.len()
        invariant
            i <= rows.len(),
            rows_ok(rows.deep_view()),
            buf@ == rows_bytes(rows.deep_view().take(i as int)),
        decreases rows.len() - i,
    {
        proof {
            assert(rows.deep_view()[i as int] == rows[i as int].deep_view());
        }
        encode_row(&mut buf, &rows[i]);
        proof {
            lemma_rows_bytes_push(rows.deep_view().take(i as int), rows.deep_view()[i as int]);
            assert(rows.deep_view().take(i + 1) =~= rows.deep_view().take(i as int).push(
                rows.deep_view()[i as int],
            ));
        }
        i += 1;
    }
    proof {
        assert(rows.deep_view().take(rows.len() as int) =~= rows.deep_view());
    }
    Ok(buf)
}

proof fn lemma_cells_bytes_push(r: Seq<CellModel>, c: CellModel)
    ensures
        cells_bytes(r.push(c)) == cells_bytes(r) + cell_bytes(c),
    decreases r.len(),
{
    if r.len() == 0 {
        assert(r.push(c)[0] == c);
        assert(r.push(c).skip(1) =~= Seq::<CellModel>::empty());
        assert(cells_bytes(r.push(c)) == cell_bytes(c) + cells_bytes(Seq::<CellModel>::empty()));
        assert(cells_bytes(Seq::<CellModel>::empty()) == Seq::<u8>::empty());
        assert(cells_bytes(r) == Seq::<u8>::empty());
        assert(cells_bytes(r.push(c)) =~= cells_bytes(r) + cell_bytes(c));
    } else {
        assert(r.push(c)[0] == r[0]);
        assert(r.push(c).skip(1) =~= r.skip(1).push(c));
        lemma_cells_bytes_push(r.skip(1), c);
        assert(cells_bytes(r.push(c)) == cell_bytes(r[0]) + (cells_bytes(r.skip(1)) + cell_bytes(
            c,
        )));
        assert(cells_bytes(r) == cell_bytes(r[0]) + cells_bytes(r.skip(1)));
        assert(cells_bytes(r.push(c)) =~= cells_bytes(r) + cell_bytes(c));
    }
}

proof fn lemma_rows_bytes_push(rs: Seq<Seq<CellModel>>, x: Seq<CellModel>)
    ensures
        rows_bytes(rs.push(x)) == rows_bytes(rs) + row_bytes(x),
    decreases rs.len(),
{
    if rs.len() == 0 {
        assert(rs.push(x)[0] == x);
        assert(rs.push(x).skip(1) =~= Seq::<Seq<CellModel>>::empty());
        assert(rows_bytes(rs.push(x)) == row_bytes(x) + rows_bytes(Seq::<Seq<CellModel>>::empty()));
        assert(rows_bytes(Seq::<Seq<CellModel>>::empty()) == Seq::<u8>::empty());
        assert(rows_bytes(rs) == Seq::<u8>::empty());
        assert(rows_bytes(rs.push(x)) =~= rows_bytes(rs) + row_bytes(x));
    } else {
        assert(rs.push(x)[0] == rs[0]);
        assert(rs.push(x).skip(1) =~= rs.skip(1).push(x));
        lemma_rows_bytes_push(rs.skip(1), x);
        assert(rows_bytes(rs.push(x)) == row_bytes(rs[0]) + (rows_bytes(rs.skip(1)) + row_bytes(
            x,
        )));
        assert(rows_bytes(rs) == row_bytes(rs[0]) + rows_bytes(rs.skip(1)));
        assert(rows_bytes(rs.push(x)) =~= rows_bytes(rs) + row_bytes(x));
    }
}


/// Relies on std::str::from_utf8, which succeeds exactly on valid UTF-8 and
/// yields the characters that the bytes encode.
#[verifier::external_body]
fn bytes_to_string(v: &[u8]) -> (r: Option<String>)
    ensures
        r is Some <==> valid_utf8(v@),
        r matches Some(s) ==> s@ == decode_utf8(v@),
{
    match core::str::from_utf8(v) {
        Ok(s) => Some(s.to_owned()),
        Err(_) => None,
    }
}

fn read_u32(buf: &Vec<u8>, pos: usize) -> (r: Option<(u32, usize)>)
    requires
        pos <= buf.len(),
    ensures
        match r {
            Some(v) => v.1 == pos + 4 && v.1 <= buf.len() && take_u32(buf@.skip(pos as int))
                == Some((v.0, buf@.skip(v.1 as int))),
            None => take_u32(buf@.skip(pos as int)) is None,
        },
{
    if buf.len() - pos >= 4 {
        let s = slice_subrange(buf.as_slice(), pos, pos + 4);
        let n = u32_from_le_bytes(s);
        proof {
            assert(s@ =~= buf@.skip(pos as int).take(4));
            assert(buf@.skip(pos as int).skip(4) =~= buf@.skip(pos as int + 4));
        }
        Some((n, pos + 4))
    } else {
        None
    }
}

fn read_u64(buf: &Vec<u8>, pos: usize) -> (r: Option<(u64, usize)>)
    requires
        pos <= buf.len(),
    ensures
        match r {
            Some(v) => v.1 == pos + 8 && v.1 <= buf.len() && take_u64(buf@.skip(pos as int))
                == Some((v.0, buf@.skip(v.1 as int))),
            None => take_u64(buf@.skip(pos as int)) is None,
        },
{
    if buf.len() - pos >= 8 {
        let s = slice_subrange(buf.as_slice(), pos, pos + 8);
        let n = u64_from_le_bytes(s);
        proof {
            assert(s@ =~= buf@.skip(pos as int).take(8));
            assert(buf@.skip(pos as int).skip(8) =~= buf@.skip(pos as int + 8));
        }
        Some((n, pos + 8))
    } else {
        None
    }
}

fn parse_cell_exec(buf: &Vec<u8>, pos: usize) -> (r: Option<(Cell, usize)>)
    requires
        pos <= buf.len(),
    ensures
        match r {
            Some(v) => pos < v.1 <= buf.len() && parse_cell(buf@.skip(pos as int)) == Some(
                (v.0@, buf@.skip(v.1 as int)),
            ),
            None => parse_cell(buf@.skip(pos as int)) is None,
        },
{
    if pos == buf.len() {
        return None;
    }
    let tag = buf[pos];
    proof {
        assert(buf@.skip(pos as int)[0] == buf@[pos as int]);
        assert(buf@.skip(pos as int).skip(1) =~= buf@.skip(pos as int + 1));
    }
    if tag == TAG_NULL {
        Some((Cell::Null, pos + 1))
    } else if tag == TAG_FALSE {
        Some((Cell::Bool(false), pos + 1))
    } else if tag == TAG_TRUE {
        Some((Cell::Bool(true), pos + 1))
    } else if tag == TAG_INT {
        match read_u64(buf, pos + 1) {
            Some((u, p2)) => Some((Cell::Int(i64_from_u64(u)), p2)),
            None => None,
        }
    } else if tag == TAG_UINT {
        match read_u64(buf, pos + 1) {
            Some((u, p2)) => Some((Cell::Uint(u), p2)),
            None => None,
        }
    } else if tag == TAG_F32 {
        match read_u32(buf, pos + 1) {
            Some((b, p2)) => Some((Cell::F32Bits(b), p2)),
            None => None,
        }
    } else if tag == TAG_F64 {
        match read_u64(buf, pos + 1) {
            Some((b, p2)) => Some((Cell::F64Bits(b), p2)),
            None => None,
        }
    } else if tag == TAG_TEXT {
        match read_u32(buf, pos + 1) {
            Some((n, p2)) => {
                if (n as usize) <= buf.len() - p2 {
                    let end = p2 + n as usize;
                    let bs = slice_subrange(buf.as_slice(), p2, end);
                    proof {
                        assert(bs@ =~= buf@.skip(p2 as int).take(n as int));
                        assert(buf@.skip(p2 as int).skip(n as int) =~= buf@.skip(end as int));
                    }
                    match bytes_to_string(bs) {
                        Some(txt) => Some((Cell::Text(txt), end)),
                        None => None,
                    }
                } else {
                    None
                }
            },
            None => None,
        }
    } else if tag == TAG_BLOB {
        match read_u32(buf, pos + 1) {
            Some((n, p2)) => {
                if (n as usize) <= buf.len() - p2 {
                    let end = p2 + n as usize;
                    let bs = slice_subrange(buf.as_slice(), p2, end);
                    proof {
                        assert(bs@ =~= buf@.skip(p2 as int).take(n as int));
                        assert(buf@.skip(p2 as int).skip(n as int) =~= buf@.skip(end as int));
                    }
                    Some((Cell::Blob(slice_to_vec(bs)), end))
                } else {
                    None
                }
            },
            None => None,
        }
    } else if tag == TAG_TIMESTAMP {
        match read_u64(buf, pos + 1) {
            Some((u, p2)) => Some((Cell::Timestamp(i64_from_u64(u)), p2)),
            None => None,
        }
    } else {
        None
    }
}

fn parse_row_exec(buf: &Vec<u8>, pos: usize) -> (r: Option<(Vec<Cell>, usize)>)
    requires
        pos <= buf.len(),
    ensures
        match r {
            Some(v) => pos < v.1 <= buf.len() && parse_row(buf@.skip(pos as int)) == Some(
                (v.0.deep_view(), buf@.skip(v.1 as int)),
            ),
            None => parse_row(buf@.skip(pos as int)) is None,
        },
{
    match read_u32(buf, pos) {
        None => None,
        Some((n, p1)) => {
            let mut cells: Vec<Cell> = Vec::new();
            let mut p: usize = p1;
            let mut k: u32 = 0;
            proof {
                assert(cells.deep_view() =~= Seq::<CellModel>::empty());
                let pc = parse_cells(buf@.skip(p1 as int), n as nat);
                if pc is Some {
                    assert(Seq::<CellModel>::empty() + pc->Some_0.0 =~= pc->Some_0.0);
                }
            }
            while k < n
                invariant
                    pos + 4 == p1,
                    p1 <= p,
                    p <= buf.len(),
                    k <= n,
                    take_u32(buf@.skip(pos as int)) == Some((n, buf@.skip(p1 as int))),
                    (match parse_cells(buf@.skip(p as int), (n - k) as nat) {
                        Some(res) => parse_cells(buf@.skip(p1 as int), n as nat) == Some(
                            (cells.deep_view() + res.0, res.1),
                        ),
                        None => parse_cells(buf@.skip(p1 as int), n as nat) is None,
                    }),
                decreases n - k,
            {
                match parse_cell_exec(buf, p) {
                    None => {
                        proof {
                            assert(parse_cells(buf@.skip(p as int), (n - k) as nat) is None);
                        }
                        return None;
                    },
                    Some((c, p2)) => {
                        let ghost old_dv = cells.deep_view();
                        let ghost s_p = buf@.skip(p as int);
                        let ghost s_p2 = buf@.skip(p2 as int);
                        cells.push(c);
                        proof {
                            assert(cells.deep_view() =~= old_dv.push(c@));
                            assert(parse_cell(s_p) == Some((c@, s_p2)));
                            let m = (n - k) as nat;
                            assert(parse_cells(s_p, m) == (match parse_cells(
                                s_p2,
                                (m - 1) as nat,
                            ) {
                                Some(res) => Some((seq![c@] + res.0, res.1)),
                                None => None,
                            }));
                            let pc2 = parse_cells(s_p2, (m - 1) as nat);
                            if pc2 is Some {
                                assert(old_dv.push(c@) + pc2->Some_0.0 =~= old_dv + (seq![c@]
                                    + pc2->Some_0.0));
                            }
                        }
                        p = p2;
                        k = k + 1;
                    },
                }
            }
            proof {
                assert(parse_cells(buf@.skip(p as int), (n - k) as nat) == Some(
                    (Seq::<CellModel>::empty(), buf@.skip(p as int)),
                ));
                assert(cells.deep_view() + Seq::<CellModel>::empty() =~= cells.deep_view());
            }
            Some((cells, p))
        },
    }
}

/// Decodes a whole buffer back into rows of cells. Succeeds exactly when the
/// buffer parses as a result set with nothing left over.
pub fn decode_rows(buf: &Vec<u8>) -> (r: Option<Vec<Vec<Cell>>>)
    ensures
        match r {
            Some(rows) => parse_rows(buf@) == Some(rows.deep_view()),
            None => parse_rows(buf@) is None,
        },
{
    let mut rows: Vec<Vec<Cell>> = Vec::new();
    let mut pos: usize = 0;
    proof {
        assert(buf@.skip(0) =~= buf@);
        assert(rows.deep_view() =~= Seq::<Seq<CellModel>>::empty());
        let pr = parse_rows(buf@);
        if pr is Some {
            assert(Seq::<Seq<CellModel>>::empty() + pr->Some_0 =~= pr->Some_0);
        }
    }
    while pos < buf.len()
        invariant
            pos <= buf.len(),
            (match parse_rows(buf@.skip(pos as int)) {
                Some(rest) => parse_rows(buf@) == Some(rows.deep_view() + rest),
                None => parse_rows(buf@) is None,
            }),
        decreases buf.len() - pos,
    {
        match parse_row_exec(buf, pos) {
            None => {
                proof {
                    assert(parse_rows(buf@.skip(pos as int)) is None);
                }
                return None;
            },
            Some((row, p2)) => {
                let ghost old_dv = rows.deep_view();
                let ghost s_pos = buf@.skip(pos as int);
                let ghost s_p2 = buf@.skip(p2 as int);
                rows.push(row);
                proof {
                    assert(rows.deep_view() =~= old_dv.push(row.deep_view()));
                    assert(parse_row(s_pos) == Some((row.deep_view(), s_p2)));
                    assert(s_p2.len() < s_pos.len());
                    assert(parse_rows(s_pos) == (match parse_rows(s_p2) {
                        Some(rest) => Some(seq![row.deep_view()] + rest),
                        None => None,
                    }));
                    let pr2 = parse_rows(s_p2);
                    if pr2 is Some {
                        assert(old_dv.push(row.deep_view()) + pr2->Some_0 =~= old_dv + (seq![
                            row.deep_view(),
                        ] + pr2->Some_0));
                    }
                }
                pos = p2;
            },
        }
    }
    proof {
        assert(buf@.skip(pos as int).len() == 0);
        assert(parse_rows(buf@.skip(pos as int)) == Some(Seq::<Seq<CellModel>>::empty()));
        assert(rows.deep_view() + Seq::<Seq<CellModel>>::empty() =~= rows.deep_view());
    }
    Some(rows)
}

proof fn lemma_take_u32_of(n: u32, rest: Seq<u8>)
    ensures
        take_u32(spec_u32_to_le_bytes(n) + rest) == Some((n, rest)),
{
    lemma_auto_spec_u32_to_from_le_bytes();
    assert((spec_u32_to_le_bytes(n) + rest).take(4) =~= spec_u32_to_le_bytes(n));
    assert((spec_u32_to_le_bytes(n) + rest).skip(4) =~= rest);
}

proof fn lemma_take_u64_of(n: u64, rest: Seq<u8>)
    ensures
        take_u64(spec_u64_to_le_bytes(n) + rest) == Some((n, rest)),
{
    lemma_auto_spec_u64_to_from_le_bytes();
    assert((spec_u64_to_le_bytes(n) + rest).take(8) =~= spec_u64_to_le_bytes(n));
    assert((spec_u64_to_le_bytes(n) + rest).skip(8) =~= rest);
}

proof fn lemma_parse_cell_of(c: CellModel, rest: Seq<u8>)
    requires
        cell_ok(c),
    ensures
        parse_cell(cell_bytes(c) + rest) == Some((c, rest)),
{
    let s = cell_bytes(c) + rest;
    match c {
        CellModel::Null => {
            assert(s[0] == TAG_NULL);
            assert(s.skip(1) =~= rest);
        },
        CellModel::Bool(b) => {
            if b {
                assert(s[0] == TAG_TRUE);
            } else {
                assert(s[0] == TAG_FALSE);
            }
            assert(s.skip(1) =~= rest);
        },
        CellModel::Int(i) => {
            assert(s[0] == TAG_INT);
            assert(s.skip(1) =~= spec_u64_to_le_bytes(u64_of_i64(i)) + rest);
            lemma_take_u64_of(u64_of_i64(i), rest);
            lemma_i64_u64_roundtrip(i);
        },
        CellModel::Uint(u) => {
            assert(s[0] == TAG_UINT);
            assert(s.skip(1) =~= spec_u64_to_le_bytes(u) + rest);
            lemma_take_u64_of(u, rest);
        },
        CellModel::F32Bits(b) => {
            assert(s[0] == TAG_F32);
            assert(s.skip(1) =~= spec_u32_to_le_bytes(b) + rest);
            lemma_take_u32_of(b, rest);
        },
        CellModel::F64Bits(b) => {
            assert(s[0] == TAG_F64);
            assert(s.skip(1) =~= spec_u64_to_le_bytes(b) + rest);
            lemma_take_u64_of(b, rest);
        },
        CellModel::Text(t) => {
            let bytes = encode_utf8(t);
            let n = bytes.len() as u32;
            assert(s[0] == TAG_TEXT);
            assert(s.skip(1) =~= spec_u32_to_le_bytes(n) + (bytes + rest));
            lemma_take_u32_of(n, bytes + rest);
            assert((bytes + rest).take(n as int) =~= bytes);
            assert((bytes + rest).skip(n as int) =~= rest);
            encode_utf8_valid_utf8(t);
            encode_utf8_decode_utf8(t);
        },
        CellModel::Blob(b) => {
            let n = b.len() as u32;
            assert(s[0] == TAG_BLOB);
            assert(s.skip(1) =~= spec_u32_to_le_bytes(n) + (b + rest));
            lemma_take_u32_of(n, b + rest);
            assert((b + rest).take(n as int) =~= b);
            assert((b + rest).skip(n as int) =~= rest);
        },
        CellModel::Timestamp(t) => {
            assert(s[0] == TAG_TIMESTAMP);
            assert(s.skip(1) =~= spec_u64_to_le_bytes(u64_of_i64(t)) + rest);
            lemma_take_u64_of(u64_of_i64(t), rest);
            lemma_i64_u64_roundtrip(t);
        },
        CellModel::Unsupported(_) => {
            assert(false);
        },
    }
}

proof fn lemma_parse_cells_of(r: Seq<CellModel>, rest: Seq<u8>)
    requires
        forall|i: int| 0 <= i < r.len() ==> cell_ok(#[trigger] r[i]),
    ensures
        parse_cells(cells_bytes(r) + rest, r.len() as nat) == Some((r, rest)),
    decreases r.len(),
{
    if r.len() == 0 {
        assert(cells_bytes(r) + rest =~= rest);
        assert(r =~= Seq::<CellModel>::empty());
    } else {
        let tail_bytes = cells_bytes(r.skip(1)) + rest;
        assert(cells_bytes(r) + rest =~= cell_bytes(r[0]) + tail_bytes);
        lemma_parse_cell_of(r[0], tail_bytes);
        assert forall|i: int| 0 <= i < r.skip(1).len() implies cell_ok(#[trigger] r.skip(1)[i]) by {
            assert(r.skip(1)[i] == r[i + 1]);
        }
        lemma_parse_cells_of(r.skip(1), rest);
        assert(seq![r[0]] + r.skip(1) =~= r);
    }
}

proof fn lemma_parse_row_of(r: Seq<CellModel>, rest: Seq<u8>)
    requires
        row_ok(r),
    ensures
        parse_row(row_bytes(r) + rest) == Some((r, rest)),
{
    let n = r.len() as u32;
    assert(row_bytes(r) + rest =~= spec_u32_to_le_bytes(n) + (cells_bytes(r) + rest));
    lemma_take_u32_of(n, cells_bytes(r) + rest);
    lemma_parse_cells_of(r, rest);
}

/// Round trip: a buffer holding an encoded result set parses back to exactly
/// the rows that were encoded -- column order, row order and values are all
/// preserved, and nulls remain null.
pub proof fn lemma_parse_rows_of_rows_bytes(rs: Seq<Seq<CellModel>>)
    requires
        rows_ok(rs),
    ensures
        parse_rows(rows_bytes(rs)) == Some(rs),
    decreases rs.len(),
{
    if rs.len() == 0 {
    } else {
        let rest = rows_bytes(rs.skip(1));
        lemma_parse_row_of(rs[0], rest);
        lemma_auto_spec_u32_to_from_le_bytes();
        assert(row_bytes(rs[0]).len() >= 4);
        assert(rows_bytes(rs) == row_bytes(rs[0]) + rest);
        assert(rest.len() < rows_bytes(rs).len());
        assert forall|i: int| 0 <= i < rs.skip(1).len() implies row_ok(#[trigger] rs.skip(1)[i]) by {
            assert(rs.skip(1)[i] == rs[i + 1]);
        }
        lemma_parse_rows_of_rows_bytes(rs.skip(1));
        assert(seq![rs[0]] + rs.skip(1) =~= rs);
    }
}

} // verus!
