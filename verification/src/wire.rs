use vstd::prelude::*;

verus! {

/// A big-endian 16-bit quantity read from two consecutive bytes.
pub open spec fn spec_read_u16(buf: Seq<u8>, i: int) -> int {
    buf[i] * 256 + buf[i + 1]
}

/// Read a big-endian 16-bit quantity at offset `i`.
pub fn read_u16_at(buf: &Vec<u8>, i: usize) -> (r: u16)
    requires
        i + 2 <= buf@.len(),
    ensures
        r == spec_read_u16(buf@, i as int),
{
    let n = buf.len();
    assert(i + 2 <= n);
    (buf[i] as u16) * 256 + (buf[i + 1] as u16)
}

/// Append `src[start..end]` to `out`.
pub fn append_range(out: &mut Vec<u8>, src: &Vec<u8>, start: usize, end: usize)
    requires
        start <= end <= src@.len(),
    ensures
        final(out)@ == old(out)@ + src@.subrange(start as int, end as int),
{
    proof {
        assert(out@ =~= old(out)@ + src@.subrange(start as int, start as int));
    }
    let mut j: usize = start;
    while j < end
        invariant
            start <= j <= end <= src@.len(),
            out@ == old(out)@ + src@.subrange(start as int, j as int),
        decreases end - j,
    {
        out.push(src[j]);
        proof {
            assert((old(out)@ + src@.subrange(start as int, j as int)).push(src@[j as int])
                =~= old(out)@ + src@.subrange(start as int, j as int + 1));
        }
        j = j + 1;
    }
}

/// Append the whole of `src` to `out`.
pub fn append_all(out: &mut Vec<u8>, src: &Vec<u8>)
    ensures
        final(out)@ == old(out)@ + src@,
{
    append_range(out, src, 0, src.len());
    proof {
        assert(src@.subrange(0, src@.len() as int) =~= src@);
    }
}

} // verus!
