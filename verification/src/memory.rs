//! The machine's memory: 256 bytes, addressed modulo 256.

use vstd::prelude::*;

verus! {

/// Number of bytes in a [`Memory`].
pub const MEMORY_SIZE: usize = 256;

/// Whether `mem` can be the contents of a memory: exactly 256 bytes.
pub open spec fn is_image(mem: Seq<u8>) -> bool {
    mem.len() == 256
}

/// The cell that address `addr` falls on.
pub open spec fn cell(addr: int) -> int {
    addr % 256
}

/// The contents after `bytes` have been written to consecutive cells starting
/// at `addr`, the address wrapping from 255 to 0.
///
/// Cell `i` lies `off = (i - addr) mod 256` cells after the start. It is
/// written by the bytes at positions `off`, `off + 256`, `off + 512`, and so
/// on; the last of them below `bytes.len()` is the one that stays. A cell with
/// `off >= bytes.len()` is not written at all.
pub open spec fn written(mem: Seq<u8>, addr: int, bytes: Seq<u8>) -> Seq<u8> {
    Seq::new(
        256,
        |i: int|
            {
                let off = (i - addr) % 256;
                if off < bytes.len() {
                    bytes[off + 256 * ((bytes.len() - 1 - off) / 256)]
                } else {
                    mem[i]
                }
            },
    )
}

/// Writing one more byte is writing the shorter run and then that byte.
pub proof fn lemma_written_push(mem: Seq<u8>, addr: int, bytes: Seq<u8>, b: u8)
    requires
        is_image(mem),
    ensures
        written(mem, addr, bytes.push(b)) == written(mem, addr, bytes).update(
            cell(addr + bytes.len()),
            b,
        ),
{
    let n = bytes.len() as int;
    let target = cell(addr + n);
    let longer = bytes.push(b);
    assert forall|i: int| 0 <= i < 256 implies written(mem, addr, longer)[i] == written(
        mem,
        addr,
        bytes,
    ).update(target, b)[i] by {
        let off = (i - addr) % 256;
        if i == target {
            assert(off == n % 256);
            assert(off + 256 * ((n - off) / 256) == n);
        } else {
            assert(off != n % 256);
            if off < n {
                assert((n - off) / 256 == (n - 1 - off) / 256);
            }
        }
    }
    assert(written(mem, addr, longer) =~= written(mem, addr, bytes).update(target, b));
}

/// Writing nothing changes nothing.
pub proof fn lemma_written_empty(mem: Seq<u8>, addr: int)
    requires
        is_image(mem),
    ensures
        written(mem, addr, Seq::<u8>::empty()) == mem,
{
    assert(written(mem, addr, Seq::<u8>::empty()) =~= mem);
}

/// A run of at most 256 bytes is found again byte by byte: the byte at
/// position `k` lies in the cell `(addr + k) mod 256`, so a run that crosses
/// address 255 continues at address 0.
pub proof fn lemma_written_wraps(mem: Seq<u8>, addr: int, bytes: Seq<u8>, k: int)
    requires
        is_image(mem),
        bytes.len() <= 256,
        0 <= k < bytes.len(),
    ensures
        written(mem, addr, bytes)[cell(addr + k)] == bytes[k],
{
    let i = cell(addr + k);
    let off = (i - addr) % 256;
    assert(off == k);
    assert((bytes.len() - 1 - off) / 256 == 0);
}

/// A cell outside a run of at most 256 bytes keeps its byte.
pub proof fn lemma_written_elsewhere(mem: Seq<u8>, addr: int, bytes: Seq<u8>, i: int)
    requires
        is_image(mem),
        0 <= i < 256,
        (i - addr) % 256 >= bytes.len(),
    ensures
        written(mem, addr, bytes)[i] == mem[i],
{
}

/// A fixed block of 256 bytes. Every address is taken modulo 256, so no access
/// is ever out of bounds.
pub struct Memory {
    mem: [u8; 256],
}

impl View for Memory {
    type V = Seq<u8>;

    closed spec fn view(&self) -> Seq<u8> {
        self.mem@
    }
}

impl Memory {
    /// Every memory holds exactly 256 bytes.
    pub proof fn lemma_is_image(&self)
        ensures
            is_image(self@),
    {
    }

    /// A memory of 256 zero bytes.
    pub fn new() -> (m: Memory)
        ensures
            m@ == Seq::new(256, |i: int| 0u8),
    {
        let m = Memory { mem: [0u8; 256] };
        assert(m@ =~= Seq::new(256, |i: int| 0u8));
        m
    }

    /// The number of bytes, always 256.
    pub fn size(&self) -> (n: usize)
        ensures
            n == 256,
            n == self@.len(),
    {
        MEMORY_SIZE
    }

    /// The byte in the cell that `addr` falls on.
    pub fn read(&self, addr: usize) -> (b: u8)
        ensures
            b == self@[cell(addr as int)],
    {
        self.mem[addr % 256]
    }

    /// Puts `val` into the cell that `addr` falls on and leaves the others.
    pub fn write(&mut self, addr: usize, val: u8)
        ensures
            final(self)@ == old(self)@.update(cell(addr as int), val),
    {
        let a = addr % 256;
        self.mem[a] = val;
        assert(self@ =~= old(self)@.update(cell(addr as int), val));
    }

    /// Writes `bytes` to consecutive cells starting at `addr`, wrapping from
    /// 255 to 0. Where the run is longer than the memory, later bytes replace
    /// earlier ones.
    pub fn write_bytes(&mut self, addr: usize, bytes: &[u8])
        ensures
            final(self)@ == written(old(self)@, addr as int, bytes@),
    {
        let mut a = addr % 256;
        let mut k: usize = 0;
        proof {
            lemma_written_empty(self@, addr as int);
            assert(bytes@.take(0) =~= Seq::<u8>::empty());
        }
        while k < bytes.len()
            invariant
                k <= bytes.len(),
                a == cell(addr + k),
                self@ == written(old(self)@, addr as int, bytes@.take(k as int)),
            decreases bytes.len() - k,
        {
            proof {
                lemma_written_push(old(self)@, addr as int, bytes@.take(k as int), bytes[k as int]);
                assert(bytes@.take(k as int).push(bytes[k as int]) =~= bytes@.take(k + 1));
            }
            self.mem[a] = bytes[k];
            assert(self@ =~= written(old(self)@, addr as int, bytes@.take(k + 1)));
            a = (a + 1) % 256;
            k += 1;
        }
        assert(bytes@.take(k as int) =~= bytes@);
    }
}

} // verus!
