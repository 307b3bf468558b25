//! The saved document: the spritesheet reference and the painted cells,
//! in a binary layout of little-endian fixed-width integers.
//!
//! ```text
//! document:  path length (u64), path (UTF-8), rows (u64), columns (u64),
//!            cell count (u64), cells
//! cell:      x (i32), y (i32), u_min, v_min, u_max, v_max (u32 each)
//! ```
use vstd::prelude::*;
use vstd::utf8::{decode_utf8, encode_utf8, encode_utf8_decode_utf8, encode_utf8_valid_utf8, valid_utf8};
use crate::tile::{TilePos, TileRegion};

verus! {

/// The bytes of one cell in a document.
pub const CELL_BYTES: usize = 24;

/// The little-endian value of eight bytes.
pub open spec fn le_u64(b0: u8, b1: u8, b2: u8, b3: u8, b4: u8, b5: u8, b6: u8, b7: u8) -> u64 {
    (b0 as u64) | ((b1 as u64) << 8u64) | ((b2 as u64) << 16u64) | ((b3 as u64) << 24u64) | ((
    b4 as u64) << 32u64) | ((b5 as u64) << 40u64) | ((b6 as u64) << 48u64) | ((b7 as u64)
        << 56u64)
}

/// The little-endian value of four bytes.
pub open spec fn le_u32(b0: u8, b1: u8, b2: u8, b3: u8) -> u32 {
    (b0 as u32) | ((b1 as u32) << 8u32) | ((b2 as u32) << 16u32) | ((b3 as u32) << 24u32)
}

/// The value of the eight bytes of `b` from `at` on.
pub open spec fn u64_at(b: Seq<u8>, at: int) -> u64 {
    le_u64(b[at], b[at + 1], b[at + 2], b[at + 3], b[at + 4], b[at + 5], b[at + 6], b[at + 7])
}

/// The value of the four bytes of `b` from `at` on.
pub open spec fn u32_at(b: Seq<u8>, at: int) -> u32 {
    le_u32(b[at], b[at + 1], b[at + 2], b[at + 3])
}

/// `n` as eight little-endian bytes.
pub open spec fn u64_bytes(n: u64) -> Seq<u8> {
    seq![
        n as u8,
        (n >> 8u64) as u8,
        (n >> 16u64) as u8,
        (n >> 24u64) as u8,
        (n >> 32u64) as u8,
        (n >> 40u64) as u8,
        (n >> 48u64) as u8,
        (n >> 56u64) as u8,
    ]
}

/// `n` as four little-endian bytes.
pub open spec fn u32_bytes(n: u32) -> Seq<u8> {
    seq![n as u8, (n >> 8u32) as u8, (n >> 16u32) as u8, (n >> 24u32) as u8]
}

/// How a spritesheet image is sliced into tiles.
pub struct SpriteSheet {
    pub path: String,
    pub rows: u64,
    pub columns: u64,
}

pub ghost struct SpriteSheetView {
    pub path: Seq<char>,
    pub rows: u64,
    pub columns: u64,
}

impl View for SpriteSheet {
    type V = SpriteSheetView;

    open spec fn view(&self) -> SpriteSheetView {
        SpriteSheetView { path: self.path@, rows: self.rows, columns: self.columns }
    }
}

impl SpriteSheet {
    pub fn new(path: String, rows: u64, columns: u64) -> (r: SpriteSheet)
        ensures
            r@ == (SpriteSheetView { path: path@, rows, columns }),
    {
        SpriteSheet { path, rows, columns }
    }

    pub fn clone_sheet(&self) -> (r: SpriteSheet)
        ensures
            r@ == self@,
    {
        SpriteSheet { path: self.path.clone(), rows: self.rows, columns: self.columns }
    }
}

/// A saved workspace: the spritesheet and the painted cells, in order.
pub struct Document {
    pub sprite_sheet: SpriteSheet,
    pub tiles: Vec<(TilePos, TileRegion)>,
}

pub ghost struct DocumentView {
    pub sprite_sheet: SpriteSheetView,
    pub tiles: Seq<(TilePos, TileRegion)>,
}

impl View for Document {
    type V = DocumentView;

    open spec fn view(&self) -> DocumentView {
        DocumentView { sprite_sheet: self.sprite_sheet@, tiles: self.tiles@ }
    }
}

/// The bytes of one cell.
pub open spec fn cell_bytes(e: (TilePos, TileRegion)) -> Seq<u8> {
    u32_bytes(e.0.0 as u32) + u32_bytes(e.0.1 as u32) + u32_bytes(e.1.u_min) + u32_bytes(e.1.v_min)
        + u32_bytes(e.1.u_max) + u32_bytes(e.1.v_max)
}

/// The cell held by the bytes of `b` from `at` on.
pub open spec fn cell_at(b: Seq<u8>, at: int) -> (TilePos, TileRegion) {
    (
        (u32_at(b, at) as i32, u32_at(b, at + 4) as i32),
        TileRegion {
            u_min: u32_at(b, at + 8),
            v_min: u32_at(b, at + 12),
            u_max: u32_at(b, at + 16),
            v_max: u32_at(b, at + 20),
        },
    )
}

/// The bytes of a sequence of cells, one after the other.
pub open spec fn cells_bytes(s: Seq<(TilePos, TileRegion)>) -> Seq<u8>
    decreases s.len(),
{
    if s.len() == 0 {
        Seq::empty()
    } else {
        cells_bytes(s.drop_last()) + cell_bytes(s.last())
    }
}

/// Whether the lengths of `d` fit the document's length fields.
pub open spec fn encodable(d: DocumentView) -> bool {
    encode_utf8(d.sprite_sheet.path).len() <= u64::MAX && d.tiles.len() <= u64::MAX
}

/// The bytes of a document.
pub open spec fn document_bytes(d: DocumentView) -> Seq<u8> {
    let p = encode_utf8(d.sprite_sheet.path);
    u64_bytes(p.len() as u64) + p + u64_bytes(d.sprite_sheet.rows) + u64_bytes(
        d.sprite_sheet.columns,
    ) + u64_bytes(d.tiles.len() as u64) + cells_bytes(d.tiles)
}

/// The document that `b` holds, or `None` where `b` is truncated, too long,
/// or its path is not UTF-8.
pub open spec fn parse_document(b: Seq<u8>) -> Option<DocumentView> {
    if b.len() < 8 {
        None
    } else {
        let plen = u64_at(b, 0) as int;
        if b.len() < 32 + plen {
            None
        } else {
            let p = b.subrange(8, 8 + plen);
            let n = u64_at(b, 24 + plen) as int;
            if !valid_utf8(p) || b.len() - (32 + plen) != CELL_BYTES * n {
                None
            } else {
                Some(
                    DocumentView {
                        sprite_sheet: SpriteSheetView {
                            path: decode_utf8(p),
                            rows: u64_at(b, 8 + plen),
                            columns: u64_at(b, 16 + plen),
                        },
                        tiles: Seq::new(
                            n as nat,
                            |i: int| cell_at(b, 32 + plen + CELL_BYTES * i),
                        ),
                    },
                )
            }
        }
    }
}

proof fn lemma_u64_bytes(n: u64)
    ensures
        u64_at(u64_bytes(n), 0) == n,
        u64_bytes(n).len() == 8,
{
    let b = u64_bytes(n);
    assert(b[0] == n as u8 && b[1] == (n >> 8u64) as u8 && b[2] == (n >> 16u64) as u8 && b[3] == (n
        >> 24u64) as u8 && b[4] == (n >> 32u64) as u8 && b[5] == (n >> 40u64) as u8 && b[6] == (n
        >> 48u64) as u8 && b[7] == (n >> 56u64) as u8);
    assert(le_u64(
        n as u8,
        (n >> 8u64) as u8,
        (n >> 16u64) as u8,
        (n >> 24u64) as u8,
        (n >> 32u64) as u8,
        (n >> 40u64) as u8,
        (n >> 48u64) as u8,
        (n >> 56u64) as u8,
    ) == n) by (bit_vector);
}

proof fn lemma_u32_bytes(n: u32)
    ensures
        u32_at(u32_bytes(n), 0) == n,
        u32_bytes(n).len() == 4,
{
    let b = u32_bytes(n);
    assert(b[0] == n as u8 && b[1] == (n >> 8u32) as u8 && b[2] == (n >> 16u32) as u8 && b[3] == (n
        >> 24u32) as u8);
    assert(le_u32(n as u8, (n >> 8u32) as u8, (n >> 16u32) as u8, (n >> 24u32) as u8) == n)
        by (bit_vector);
}

proof fn lemma_i32_u32(x: i32)
    ensures
        (x as u32) as i32 == x,
{
    assert((x as u32) as i32 == x) by (bit_vector);
}

/// Reading at `at + k` in `a + b + c` where `a` has length `at`.
proof fn lemma_u32_in(pre: Seq<u8>, mid: Seq<u8>, post: Seq<u8>)
    requires
        mid.len() == 4,
    ensures
        u32_at(pre + mid + post, pre.len() as int) == u32_at(mid, 0),
{
    let b = pre + mid + post;
    let k = pre.len() as int;
    assert(b[k] == mid[0] && b[k + 1] == mid[1] && b[k + 2] == mid[2] && b[k + 3] == mid[3]);
}

proof fn lemma_u64_in(pre: Seq<u8>, mid: Seq<u8>, post: Seq<u8>)
    requires
        mid.len() == 8,
    ensures
        u64_at(pre + mid + post, pre.len() as int) == u64_at(mid, 0),
{
    let b = pre + mid + post;
    let k = pre.len() as int;
    assert(b[k] == mid[0] && b[k + 1] == mid[1] && b[k + 2] == mid[2] && b[k + 3] == mid[3]);
    assert(b[k + 4] == mid[4] && b[k + 5] == mid[5] && b[k + 6] == mid[6] && b[k + 7] == mid[7]);
}

/// A cell read back from its own bytes, wherever they stand.
proof fn lemma_cell_in(pre: Seq<u8>, e: (TilePos, TileRegion), post: Seq<u8>)
    ensures
        cell_at(pre + cell_bytes(e) + post, pre.len() as int) == e,
        cell_bytes(e).len() == CELL_BYTES,
{
    let b = pre + cell_bytes(e) + post;
    let k = pre.len() as int;
    let x = u32_bytes(e.0.0 as u32);
    let y = u32_bytes(e.0.1 as u32);
    let a = u32_bytes(e.1.u_min);
    let c = u32_bytes(e.1.v_min);
    let d = u32_bytes(e.1.u_max);
    let f = u32_bytes(e.1.v_max);
    lemma_u32_bytes(e.0.0 as u32);
    lemma_u32_bytes(e.0.1 as u32);
    lemma_u32_bytes(e.1.u_min);
    lemma_u32_bytes(e.1.v_min);
    lemma_u32_bytes(e.1.u_max);
    lemma_u32_bytes(e.1.v_max);
    lemma_i32_u32(e.0.0);
    lemma_i32_u32(e.0.1);
    assert(b =~= pre + x + (y + a + c + d + f + post));
    lemma_u32_in(pre, x, y + a + c + d + f + post);
    assert(b =~= (pre + x) + y + (a + c + d + f + post));
    lemma_u32_in(pre + x, y, a + c + d + f + post);
    assert(b =~= (pre + x + y) + a + (c + d + f + post));
    lemma_u32_in(pre + x + y, a, c + d + f + post);
    assert(b =~= (pre + x + y + a) + c + (d + f + post));
    lemma_u32_in(pre + x + y + a, c, d + f + post);
    assert(b =~= (pre + x + y + a + c) + d + (f + post));
    lemma_u32_in(pre + x + y + a + c, d, f + post);
    assert(b =~= (pre + x + y + a + c + d) + f + post);
    lemma_u32_in(pre + x + y + a + c + d, f, post);
}

/// Each cell stands at its own offset in the bytes of a cell sequence.
proof fn lemma_cells_bytes(pre: Seq<u8>, s: Seq<(TilePos, TileRegion)>)
    ensures
        cells_bytes(s).len() == CELL_BYTES * s.len(),
        forall|i: int|
            0 <= i < s.len() ==> #[trigger] cell_at(pre + cells_bytes(s), pre.len() + CELL_BYTES * i)
                == s[i],
    decreases s.len(),
{
    if s.len() > 0 {
        let t = s.drop_last();
        lemma_cells_bytes(pre, t);
        let e = s.last();
        lemma_cell_in(pre + cells_bytes(t), e, Seq::empty());
        assert forall|i: int| 0 <= i < s.len() implies #[trigger] cell_at(
            pre + cells_bytes(s),
            pre.len() + CELL_BYTES * i,
        ) == s[i] by {
            if i < t.len() {
                let at = pre.len() + CELL_BYTES * i;
                let b = pre + cells_bytes(s);
                let b0 = pre + cells_bytes(t);
                assert(b =~= b0 + cell_bytes(e));
                assert(at + CELL_BYTES <= b0.len()) by (nonlinear_arith)
                    requires
                        at == pre.len() + CELL_BYTES * i,
                        b0.len() == pre.len() + CELL_BYTES * t.len(),
                        i < t.len(),
                ;
                assert forall|j: int| at <= j < at + CELL_BYTES implies b[j] == b0[j] by {}
                assert(cell_at(b, at) == cell_at(b0, at));
            } else {
                assert(pre + cells_bytes(s) =~= (pre + cells_bytes(t)) + cell_bytes(e) + Seq::empty());
            }
        }
    }
}

/// Reading back the bytes of a document gives the document.
#[verifier::rlimit(40)]
pub proof fn lemma_document_round_trip(d: DocumentView)
    requires
        encodable(d),
    ensures
        parse_document(document_bytes(d)) == Some(d),
{
    let p = encode_utf8(d.sprite_sheet.path);
    let plen = p.len() as int;
    let a = u64_bytes(p.len() as u64);
    let r = u64_bytes(d.sprite_sheet.rows);
    let c = u64_bytes(d.sprite_sheet.columns);
    let n = u64_bytes(d.tiles.len() as u64);
    let t = cells_bytes(d.tiles);
    let b = document_bytes(d);
    lemma_u64_bytes(p.len() as u64);
    lemma_u64_bytes(d.sprite_sheet.rows);
    lemma_u64_bytes(d.sprite_sheet.columns);
    lemma_u64_bytes(d.tiles.len() as u64);
    lemma_cells_bytes(a + p + r + c + n, d.tiles);
    assert(b =~= a + p + r + c + n + t);
    assert(b =~= Seq::<u8>::empty() + a + (p + r + c + n + t));
    lemma_u64_in(Seq::empty(), a, p + r + c + n + t);
    assert(b =~= (a + p) + r + (c + n + t));
    lemma_u64_in(a + p, r, c + n + t);
    assert(b =~= (a + p + r) + c + (n + t));
    lemma_u64_in(a + p + r, c, n + t);
    assert(b =~= (a + p + r + c) + n + t);
    lemma_u64_in(a + p + r + c, n, t);
    assert(b.subrange(8, 8 + plen) =~= p);
    encode_utf8_valid_utf8(d.sprite_sheet.path);
    encode_utf8_decode_utf8(d.sprite_sheet.path);
    let pre = a + p + r + c + n;
    assert(pre.len() == 32 + plen);
    assert(b =~= pre + t);
    assert(u64_at(b, 0) as int == plen);
    assert(u64_at(b, 24 + plen) as int == d.tiles.len());
    assert(b.len() - (32 + plen) == CELL_BYTES * d.tiles.len());
    let tiles = Seq::new(d.tiles.len(), |i: int| cell_at(b, 32 + plen + CELL_BYTES * i));
    assert(tiles =~= d.tiles);
}

/// Relies on `String::from_utf8`: it succeeds exactly on valid UTF-8, and
/// the string holds the characters that the bytes encode.
#[verifier::external_body]
fn string_from_utf8(b: Vec<u8>) -> (r: Option<String>)
    ensures
        match r {
            Some(s) => valid_utf8(b@) && s@ == decode_utf8(b@),
            None => !valid_utf8(b@),
        },
{
    String::from_utf8(b).ok()
}

fn push_u64(out: &mut Vec<u8>, n: u64)
    ensures
        final(out)@ == old(out)@ + u64_bytes(n),
{
    out.push(n as u8);
    out.push((n >> 8u64) as u8);
    out.push((n >> 16u64) as u8);
    out.push((n >> 24u64) as u8);
    out.push((n >> 32u64) as u8);
    out.push((n >> 40u64) as u8);
    out.push((n >> 48u64) as u8);
    out.push((n >> 56u64) as u8);
    assert(out@ =~= old(out)@ + u64_bytes(n));
}

fn push_u32(out: &mut Vec<u8>, n: u32)
    ensures
        final(out)@ == old(out)@ + u32_bytes(n),
{
    out.push(n as u8);
    out.push((n >> 8u32) as u8);
    out.push((n >> 16u32) as u8);
    out.push((n >> 24u32) as u8);
    assert(out@ =~= old(out)@ + u32_bytes(n));
}

fn push_cell(out: &mut Vec<u8>, e: (TilePos, TileRegion))
    ensures
        final(out)@ == old(out)@ + cell_bytes(e),
{
    push_u32(out, e.0.0 as u32);
    push_u32(out, e.0.1 as u32);
    push_u32(out, e.1.u_min);
    push_u32(out, e.1.v_min);
    push_u32(out, e.1.u_max);
    push_u32(out, e.1.v_max);
    assert(out@ =~= old(out)@ + cell_bytes(e));
}

fn read_u64(b: &Vec<u8>, at: usize) -> (r: u64)
    requires
        at + 8 <= b@.len(),
        b@.len() <= usize::MAX,
    ensures
        r == u64_at(b@, at as int),
{
    (b[at] as u64) | ((b[at + 1] as u64) << 8u64) | ((b[at + 2] as u64) << 16u64) | ((b[at
        + 3] as u64) << 24u64) | ((b[at + 4] as u64) << 32u64) | ((b[at + 5] as u64) << 40u64)
        | ((b[at + 6] as u64) << 48u64) | ((b[at + 7] as u64) << 56u64)
}

fn read_u32(b: &Vec<u8>, at: usize) -> (r: u32)
    requires
        at + 4 <= b@.len(),
        b@.len() <= usize::MAX,
    ensures
        r == u32_at(b@, at as int),
{
    (b[at] as u32) | ((b[at + 1] as u32) << 8u32) | ((b[at + 2] as u32) << 16u32) | ((b[at
        + 3] as u32) << 24u32)
}

fn read_cell(b: &Vec<u8>, at: usize) -> (r: (TilePos, TileRegion))
    requires
        at + CELL_BYTES <= b@.len(),
        b@.len() <= usize::MAX,
    ensures
        r == cell_at(b@, at as int),
{
    let x = #[verifier::truncate] (read_u32(b, at) as i32);
    let y = #[verifier::truncate] (read_u32(b, at + 4) as i32);
    let region = TileRegion {
        u_min: read_u32(b, at + 8),
        v_min: read_u32(b, at + 12),
        u_max: read_u32(b, at + 16),
        v_max: read_u32(b, at + 20),
    };
    ((x, y), region)
}

/// The bytes of `doc`.
pub fn encode(doc: &Document) -> (r: Vec<u8>)
    ensures
        encodable(doc@),
        r@ == document_bytes(doc@),
{
    let path = doc.sprite_sheet.path.as_str().as_bytes();
    let mut out: Vec<u8> = Vec::new();
    push_u64(&mut out, path.len() as u64);
    let mut i: usize = 0;
    while i < path.len()
        invariant
            i <= path@.len(),
            out@ == u64_bytes(path@.len() as u64) + path@.take(i as int),
        decreases path@.len() - i,
    {
        out.push(path[i]);
        assert(path@.take(i + 1) =~= path@.take(i as int).push(path@[i as int]));
        i = i + 1;
    }
    assert(path@.take(path@.len() as int) =~= path@);
    push_u64(&mut out, doc.sprite_sheet.rows);
    push_u64(&mut out, doc.sprite_sheet.columns);
    push_u64(&mut out, doc.tiles.len() as u64);
    let ghost head = out@;
    let mut k: usize = 0;
    while k < doc.tiles.len()
        invariant
            k <= doc.tiles@.len(),
            out@ == head + cells_bytes(doc.tiles@.take(k as int)),
        decreases doc.tiles@.len() - k,
    {
        push_cell(&mut out, doc.tiles[k]);
        proof {
            let t = doc.tiles@.take(k + 1);
            assert(t.drop_last() =~= doc.tiles@.take(k as int));
            assert(head + cells_bytes(t) =~= head + cells_bytes(doc.tiles@.take(k as int))
                + cell_bytes(doc.tiles@[k as int]));
        }
        k = k + 1;
    }
    assert(doc.tiles@.take(doc.tiles@.len() as int) =~= doc.tiles@);
    assert(out@ =~= document_bytes(doc@));
    out
}

/// The document that `b` holds; `None` where `b` is truncated, too long, or
/// its path is not UTF-8.
pub fn decode(b: &Vec<u8>) -> (r: Option<Document>)
    ensures
        match r {
            Some(d) => parse_document(b@) == Some(d@),
            None => parse_document(b@) is None,
        },
{
    let len = b.len();
    if len < 32 {
        return None;
    }
    let plen = read_u64(b, 0);
    if plen > (len - 32) as u64 {
        return None;
    }
    let p = plen as usize;
    let mut pb: Vec<u8> = Vec::new();
    let mut i: usize = 0;
    while i < p
        invariant
            i <= p,
            p + 32 <= len,
            len == b@.len(),
            pb@ == b@.subrange(8, 8 + i),
        decreases p - i,
    {
        pb.push(b[8 + i]);
        assert(b@.subrange(8, 8 + i + 1) =~= b@.subrange(8, 8 + i).push(b@[8 + i]));
        i = i + 1;
    }
    let path = match string_from_utf8(pb) {
        Some(s) => s,
        None => {
            return None;
        },
    };
    let rows = read_u64(b, 8 + p);
    let columns = read_u64(b, 16 + p);
    let n = read_u64(b, 24 + p);
    let rest = len - 32 - p;
    if n > (rest / CELL_BYTES) as u64 {
        assert(rest != CELL_BYTES * n) by (nonlinear_arith)
            requires
                n > rest / CELL_BYTES,
                CELL_BYTES == 24,
        ;
        return None;
    }
    let count = n as usize;
    assert(count * CELL_BYTES <= rest) by (nonlinear_arith)
        requires
            count <= rest / CELL_BYTES,
            CELL_BYTES == 24,
    ;
    if count * CELL_BYTES != rest {
        return None;
    }
    let base = 32 + p;
    let mut tiles: Vec<(TilePos, TileRegion)> = Vec::new();
    let mut k: usize = 0;
    while k < count
        invariant
            k <= count,
            base + CELL_BYTES * count == len,
            len == b@.len(),
            tiles@.len() == k,
            forall|j: int| 0 <= j < k ==> tiles@[j] == cell_at(b@, base + CELL_BYTES * j),
        decreases count - k,
    {
        assert(base + CELL_BYTES * k + CELL_BYTES <= len) by (nonlinear_arith)
            requires
                k < count,
                base + CELL_BYTES * count == len,
        ;
        let cell = read_cell(b, base + CELL_BYTES * k);
        tiles.push(cell);
        k = k + 1;
    }
    let doc = Document { sprite_sheet: SpriteSheet { path, rows, columns }, tiles };
    assert(doc@.tiles =~= parse_document(b@)->0.tiles);
    Some(doc)
}

} // verus!
