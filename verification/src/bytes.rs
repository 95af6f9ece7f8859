use vstd::prelude::*;

verus! {

/// The little-endian unsigned 32-bit value stored at byte offset `i` of `data`.
pub open spec fn le_u32_at(data: Seq<u8>, i: int) -> int
    recommends
        0 <= i,
        i + 4 <= data.len(),
{
    data[i] as int + data[i + 1] as int * 0x100 + data[i + 2] as int * 0x10000 + data[i
        + 3] as int * 0x1000000
}

/// The little-endian signed 32-bit value stored at byte offset `i` of `data`.
pub open spec fn le_i32_at(data: Seq<u8>, i: int) -> int
    recommends
        0 <= i,
        i + 4 <= data.len(),
{
    if le_u32_at(data, i) < 0x80000000 {
        le_u32_at(data, i)
    } else {
        le_u32_at(data, i) - 0x100000000
    }
}

/// Reads the little-endian unsigned 32-bit value at `pos`.
pub fn read_le_u32(data: &Vec<u8>, pos: usize) -> (r: u32)
    requires
        pos + 4 <= data@.len(),
    ensures
        r as int == le_u32_at(data@, pos as int),
{
    let n: usize = data.len();
    proof {
        // Ties the sequence length to `usize`, so the index sums below
        // cannot overflow.
        assert(pos + 4 <= n);
    }
    let b0 = data[pos] as u32;
    let b1 = data[pos + 1] as u32;
    let b2 = data[pos + 2] as u32;
    let b3 = data[pos + 3] as u32;
    b0 + b1 * 0x100 + b2 * 0x10000 + b3 * 0x1000000
}

/// Reads the little-endian signed 32-bit value at `pos`.
pub fn read_le_i32(data: &Vec<u8>, pos: usize) -> (r: i32)
    requires
        pos + 4 <= data@.len(),
    ensures
        r as int == le_i32_at(data@, pos as int),
{
    let u = read_le_u32(data, pos);
    if u < 0x80000000 {
        u as i32
    } else {
        -1 - ((0xFFFFFFFFu32 - u) as i32)
    }
}

/// Copies the bytes of `data` in the range `[start, end)` into a fresh vector.
pub fn copy_range(data: &Vec<u8>, start: usize, end: usize) -> (r: Vec<u8>)
    requires
        start <= end,
        end <= data@.len(),
    ensures
        r@ == data@.subrange(start as int, end as int),
{
    let mut out: Vec<u8> = Vec::new();
    let mut i: usize = start;
    while i < end
        invariant
            start <= i <= end,
            end <= data@.len(),
            out@ == data@.subrange(start as int, i as int),
        decreases end - i,
    {
        out.push(data[i]);
        i = i + 1;
        proof {
            assert(out@ =~= data@.subrange(start as int, i as int));
        }
    }
    out
}

} // verus!
