//! Bounds-checked reads of a blob in aligned blocks of four bytes.

use vstd::prelude::*;
use vstd::string::*;
use vstd::utf8::*;

verus! {

/// Bytes in one aligned block.
pub const BLOCK_SIZE: usize = 4;

/// One cell (block) as a factor in a big-endian number.
pub const CELL_FACTOR: u64 = 0x1_0000_0000;

/// Number of blocks that `size` bytes occupy once padded.
pub open spec fn blocks_for(size: int) -> int {
    (size + 3) / 4
}

/// Block `index` lies inside `data`.
pub open spec fn block_fits(data: Seq<u8>, index: int) -> bool {
    0 <= index && 4 * index + 4 <= data.len()
}

/// The big-endian value of block `index`.
pub open spec fn block_value(data: Seq<u8>, index: int) -> int {
    let b = 4 * index;
    data[b] * 0x100_0000 + data[b + 1] * 0x1_0000 + data[b + 2] * 0x100 + data[b + 3]
}

/// The big-endian value of the `width` blocks from block `index`.
pub open spec fn cells_value(data: Seq<u8>, index: int, width: nat) -> int
    decreases width,
{
    if width == 0 {
        0
    } else {
        cells_value(data, index, (width - 1) as nat) * CELL_FACTOR + block_value(
            data,
            index + width - 1,
        )
    }
}

/// The `width` blocks from block `index` lie inside `data` (no block is needed for width 0).
pub open spec fn cells_fit(data: Seq<u8>, index: int, width: nat) -> bool {
    width == 0 || (0 <= index && 4 * (index + width) <= data.len())
}

/// A number of at most two cells, as the 64-bit reader gives it.
pub open spec fn read_number(data: Seq<u8>, index: int, width: nat) -> Option<u64> {
    if width <= 2 && cells_fit(data, index, width) {
        Some(cells_value(data, index, width) as u64)
    } else {
        None
    }
}

/// A number of at most four cells, as the 128-bit reader gives it.
pub open spec fn read_big_number(data: Seq<u8>, index: int, width: nat) -> Option<u128> {
    if width <= 4 && cells_fit(data, index, width) {
        Some(cells_value(data, index, width) as u128)
    } else {
        None
    }
}

/// Largest value plus one of `width` cells.
pub open spec fn cells_limit(width: nat) -> int
    decreases width,
{
    if width == 0 {
        1
    } else {
        cells_limit((width - 1) as nat) * CELL_FACTOR
    }
}

/// Index of the first zero byte at or after `from`, or the length when there is none.
pub open spec fn nul_index(data: Seq<u8>, from: int) -> int
    decreases data.len() - from,
{
    if from < 0 || from >= data.len() {
        data.len() as int
    } else if data[from] == 0 {
        from
    } else {
        nul_index(data, from + 1)
    }
}

/// The zero-terminated text at byte `offset`, when it ends inside `data` and is UTF-8.
pub open spec fn text_at(data: Seq<u8>, offset: int) -> Option<Seq<char>> {
    let end = nul_index(data, offset);
    if 0 <= offset && end < data.len() && valid_utf8(data.subrange(offset, end)) {
        Some(decode_utf8(data.subrange(offset, end)))
    } else {
        None
    }
}

/// The zero-terminated pieces of `data` from byte `from` on; bytes after the last zero are
/// not part of any piece.
pub open spec fn nul_pieces(data: Seq<u8>, from: int) -> Seq<Seq<u8>>
    decreases data.len() - from,
{
    let end = nul_index(data, from);
    if from < 0 || end >= data.len() {
        seq![]
    } else {
        proof {
            lemma_nul_index_bounds(data, from);
        }
        seq![data.subrange(from, end)] + nul_pieces(data, end + 1)
    }
}

/// Every piece is UTF-8.
pub open spec fn all_utf8(pieces: Seq<Seq<u8>>) -> bool {
    forall|i: int| 0 <= i < pieces.len() ==> valid_utf8(#[trigger] pieces[i])
}

/// The first zero at or after `from` lies between `from` and the end, and no zero comes before it.
pub proof fn lemma_nul_index_bounds(data: Seq<u8>, from: int)
    requires
        0 <= from,
    ensures
        from <= nul_index(data, from) <= data.len() || (from > data.len() && nul_index(
            data,
            from,
        ) == data.len()),
        nul_index(data, from) < data.len() ==> data[nul_index(data, from)] == 0,
        forall|k: int| from <= k < nul_index(data, from) ==> data[k] != 0,
    decreases data.len() - from,
{
    if from < data.len() && data[from] != 0 {
        lemma_nul_index_bounds(data, from + 1);
    }
}

/// A number of `width` cells is less than 2 to the power 32 times `width`.
proof fn lemma_cells_bound(data: Seq<u8>, index: int, width: nat)
    requires
        cells_fit(data, index, width),
    ensures
        0 <= cells_value(data, index, width) < cells_limit(width),
    decreases width,
{
    if width > 0 {
        lemma_cells_bound(data, index, (width - 1) as nat);
        let b = 4 * (index + width - 1);
        assert(0 <= data[b] < 256 && 0 <= data[b + 1] < 256 && 0 <= data[b + 2] < 256 && 0
            <= data[b + 3] < 256);
    }
}

/// Reading `width` cells at block `index` gives the same number as reading the bytes of
/// those cells on their own.
pub proof fn lemma_cells_of_slice(data: Seq<u8>, index: int, width: nat)
    requires
        0 <= index,
        4 * (index + width) <= data.len(),
    ensures
        cells_value(data, index, width) == cells_value(
            data.subrange(4 * index, 4 * (index + width)),
            0,
            width,
        ),
    decreases width,
{
    let piece = data.subrange(4 * index, 4 * (index + width));
    if width > 0 {
        let shorter = data.subrange(4 * index, 4 * (index + width - 1));
        lemma_cells_of_slice(data, index, (width - 1) as nat);
        assert(cells_value(piece, 0, (width - 1) as nat) == cells_value(
            shorter,
            0,
            (width - 1) as nat,
        )) by {
            lemma_cells_prefix(piece, shorter, (width - 1) as nat);
        }
        let b = 4 * (width - 1);
        assert(piece[b] == data[4 * (index + width - 1)]);
        assert(piece[b + 1] == data[4 * (index + width - 1) + 1]);
        assert(piece[b + 2] == data[4 * (index + width - 1) + 2]);
        assert(piece[b + 3] == data[4 * (index + width - 1) + 3]);
    }
}

/// Cells read from the start of `longer` only depend on the bytes it shares with `shorter`.
proof fn lemma_cells_prefix(longer: Seq<u8>, shorter: Seq<u8>, width: nat)
    requires
        4 * width <= shorter.len() <= longer.len(),
        forall|k: int| 0 <= k < shorter.len() ==> longer[k] == shorter[k],
    ensures
        cells_value(longer, 0, width) == cells_value(shorter, 0, width),
    decreases width,
{
    if width > 0 {
        lemma_cells_prefix(longer, shorter, (width - 1) as nat);
        let b = 4 * (width - 1);
        assert(longer[b] == shorter[b] && longer[b + 1] == shorter[b + 1] && longer[b + 2]
            == shorter[b + 2] && longer[b + 3] == shorter[b + 3]);
    }
}

/// Block index of byte `index` (rounded down).
pub(crate) fn align_block(index: usize) -> (r: usize)
    ensures
        r == index / 4,
{
    index / BLOCK_SIZE
}

/// First byte of block `index`.
pub(crate) fn locate_block(index: usize) -> (r: usize)
    requires
        4 * index <= usize::MAX,
    ensures
        r == 4 * index,
{
    index * BLOCK_SIZE
}

/// Number of blocks that `raw_size` bytes occupy.
pub(crate) fn align_size(raw_size: usize) -> (r: usize)
    ensures
        r == blocks_for(raw_size as int),
{
    raw_size / BLOCK_SIZE + if raw_size % BLOCK_SIZE == 0 {
        0
    } else {
        1
    }
}

/// The four bytes of block `index`, when it lies inside `data`.
pub(crate) fn read_aligned_block(data: &[u8], index: usize) -> (r: Option<[u8; 4]>)
    ensures
        r is Some <==> block_fits(data@, index as int),
        r matches Some(b) ==> b@ == data@.subrange(4 * index, 4 * index + 4),
{
    if index >= data.len() / BLOCK_SIZE {
        None
    } else {
        let first = index * BLOCK_SIZE;
        let block = [data[first], data[first + 1], data[first + 2], data[first + 3]];
        assert(block@ =~= data@.subrange(4 * index, 4 * index + 4));
        Some(block)
    }
}

/// The big-endian value of block `index`, when it lies inside `data`.
pub(crate) fn read_aligned_be_u32(data: &[u8], index: usize) -> (r: Option<u32>)
    ensures
        r is Some <==> block_fits(data@, index as int),
        r matches Some(v) ==> v == block_value(data@, index as int),
{
    match read_aligned_block(data, index) {
        Some(b) => {
            let v: u32 = (b[0] as u32) * 0x100_0000 + (b[1] as u32) * 0x1_0000 + (b[2] as u32)
                * 0x100 + b[3] as u32;
            Some(v)
        },
        None => None,
    }
}

/// A number of up to four cells from block `index`.
pub(crate) fn read_aligned_be_big_number(data: &[u8], index: usize, block_size: usize) -> (r:
    Option<u128>)
    ensures
        r == read_big_number(data@, index as int, block_size as nat),
{
    if block_size <= 2 {
        match read_aligned_be_number(data, index, block_size) {
            Some(v) => {
                proof {
                    lemma_cells_bound(data@, index as int, block_size as nat);
                    reveal_with_fuel(cells_limit, 3);
                }
                Some(v as u128)
            },
            None => None,
        }
    } else if block_size <= 4 {
        if index >= data.len() / BLOCK_SIZE {
            return None;
        }
        let mut num: u128 = 0;
        let mut i: usize = 0;
        while i < block_size
            invariant
                3 <= block_size <= 4,
                i <= block_size,
                index < data@.len() / 4,
                data@.len() <= usize::MAX,
                cells_fit(data@, index as int, i as nat),
                num == cells_value(data@, index as int, i as nat),
                num < cells_limit(i as nat),
            decreases block_size - i,
        {
            let bytes = match read_aligned_be_u32(data, index + i) {
                Some(v) => v,
                None => {
                    return None;
                },
            };
            proof {
                reveal_with_fuel(cells_limit, 5);
            }
            num = num * 0x1_0000_0000 + bytes as u128;
            i = i + 1;
        }
        proof {
            lemma_cells_bound(data@, index as int, block_size as nat);
        }
        Some(num)
    } else {
        None
    }
}

/// A number of up to two cells from block `index`; width 0 reads nothing and gives 0.
pub(crate) fn read_aligned_be_number(data: &[u8], index: usize, block_size: usize) -> (r: Option<
    u64,
>)
    ensures
        r == read_number(data@, index as int, block_size as nat),
{
    proof {
        reveal_with_fuel(cells_value, 3);
    }
    if block_size == 0 {
        Some(0)
    } else if block_size == 1 {
        match read_aligned_be_u32(data, index) {
            Some(v) => Some(v as u64),
            None => None,
        }
    } else if block_size == 2 {
        if index >= data.len() / BLOCK_SIZE {
            return None;
        }
        let high = match read_aligned_be_u32(data, index) {
            Some(v) => v,
            None => {
                return None;
            },
        };
        let low = match read_aligned_be_u32(data, index + 1) {
            Some(v) => v,
            None => {
                return None;
            },
        };
        Some((high as u64) * 0x1_0000_0000 + low as u64)
    } else {
        None
    }
}

/// Relies on `core::str::from_utf8`: it accepts exactly the valid UTF-8 byte sequences and
/// hands back a string made of the same bytes.
#[verifier::external_body]
fn utf8_str(bytes: &[u8]) -> (r: Option<&str>)
    ensures
        r is Some <==> valid_utf8(bytes@),
        r matches Some(s) ==> s.spec_bytes() == bytes@,
{
    core::str::from_utf8(bytes).ok()
}

/// The zero-terminated UTF-8 text that starts at byte `offset`.
pub(crate) fn read_name(data: &[u8], offset: usize) -> (r: Option<&str>)
    ensures
        r is Some <==> text_at(data@, offset as int) is Some,
        r matches Some(s) ==> text_at(data@, offset as int) == Some(s@) && s.spec_bytes()
            == data@.subrange(offset as int, nul_index(data@, offset as int)),
{
    if offset >= data.len() {
        return None;
    }
    let mut end = offset;
    while end < data.len() && data[end] != 0
        invariant
            offset <= end <= data@.len(),
            nul_index(data@, offset as int) == nul_index(data@, end as int),
        decreases data.len() - end,
    {
        end = end + 1;
    }
    if end == data.len() {
        return None;
    }
    let text = utf8_str(&data[offset..end]);
    proof {
        if let Some(s) = text {
            encode_utf8_decode_utf8(s@);
        }
    }
    text
}

/// The zero-terminated UTF-8 text that starts at block `index`.
pub(crate) fn read_aligned_name(data: &[u8], index: usize) -> (r: Option<&str>)
    ensures
        r is Some <==> text_at(data@, 4 * index) is Some,
        r matches Some(s) ==> text_at(data@, 4 * index) == Some(s@) && s.spec_bytes()
            == data@.subrange(4 * index, nul_index(data@, 4 * index)),
{
    if index > data.len() / BLOCK_SIZE {
        return None;
    }
    read_name(data, locate_block(index))
}

/// The `size` bytes from block `index`.
pub open spec fn span(data: Seq<u8>, index: int, size: int) -> Seq<u8> {
    data.subrange(4 * index, 4 * index + size)
}

/// The zero-terminated UTF-8 pieces of the `size` bytes from block `index`.
pub(crate) fn read_aligned_sized_strings(data: &[u8], index: usize, size: usize) -> (r: Option<
    Vec<&str>,
>)
    ensures
        r is Some <==> 4 * index + size <= data@.len() && all_utf8(
            nul_pieces(span(data@, index as int, size as int), 0),
        ),
        r matches Some(v) ==> v@.len() == nul_pieces(span(data@, index as int, size as int), 0).len()
            && forall|i: int|
            0 <= i < v@.len() ==> #[trigger] v@[i]@ == decode_utf8(
                nul_pieces(span(data@, index as int, size as int), 0)[i],
            ),
{
    if index > data.len() / BLOCK_SIZE {
        return None;
    }
    let first = locate_block(index);
    if size > data.len() - first {
        return None;
    }
    let bytes = &data[first..first + size];
    let ghost all = nul_pieces(bytes@, 0);
    let ghost mut done: Seq<Seq<u8>> = seq![];
    let mut res: Vec<&str> = Vec::new();
    let mut current: usize = 0;
    let mut last: usize = 0;
    while current < bytes.len()
        invariant
            bytes@ == span(data@, index as int, size as int),
            all == nul_pieces(bytes@, 0),
            0 <= last <= current <= bytes@.len(),
            all == done + nul_pieces(bytes@, last as int),
            nul_index(bytes@, last as int) == nul_index(bytes@, current as int),
            all_utf8(done),
            res@.len() == done.len(),
            forall|i: int| 0 <= i < res@.len() ==> #[trigger] res@[i]@ == decode_utf8(done[i]),
        decreases bytes.len() - current,
    {
        if bytes[current] == 0 {
            let ghost piece = bytes@.subrange(last as int, current as int);
            assert(nul_pieces(bytes@, last as int) == seq![piece] + nul_pieces(
                bytes@,
                current + 1,
            ));
            match utf8_str(&bytes[last..current]) {
                Some(s) => {
                    proof {
                        encode_utf8_decode_utf8(s@);
                    }
                    res.push(s);
                    proof {
                        done = done.push(piece);
                        assert(all == done + nul_pieces(bytes@, current + 1));
                    }
                    last = current + 1;
                },
                None => {
                    assert(all[done.len() as int] == piece);
                    return None;
                },
            }
        }
        current = current + 1;
    }
    assert(nul_pieces(bytes@, last as int) == Seq::<Seq<u8>>::empty());
    assert(done == all);
    Some(res)
}

} // verus!
