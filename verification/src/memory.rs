use vstd::arithmetic::power2::*;
use vstd::prelude::*;

use crate::error::CpuError;
use crate::word::{
    le_bytes, le_value, lemma_le_value_bound, lemma_le_value_of_bytes, lemma_pow2_bytes, overwrite,
};

verus! {

/// The access widths, in bytes, that loads and stores support.
pub open spec fn valid_width(width: u8) -> bool {
    width == 1 || width == 2 || width == 4 || width == 8
}

/// Where an access of `width` bytes at `addr` falls in `len` bytes of memory that start
/// at `base`, or why it is refused.
pub open spec fn access_spec(base: u64, len: nat, addr: u64, width: u8) -> Result<nat, CpuError> {
    if !valid_width(width) {
        Err(CpuError::BusError(addr))
    } else if width > 1 && addr % (width as u64) != 0 {
        Err(CpuError::Misaligned { addr, width })
    } else if addr < base || (addr - base) + width > len {
        Err(CpuError::BusError(addr))
    } else {
        Ok((addr - base) as nat)
    }
}

/// What a load of `width` bytes at `addr` returns from memory `data` that starts at `base`.
pub open spec fn load_spec(base: u64, data: Seq<u8>, addr: u64, width: u8) -> Result<u64, CpuError> {
    match access_spec(base, data.len(), addr, width) {
        Ok(off) => Ok(le_value(data.subrange(off as int, off + width)) as u64),
        Err(e) => Err(e),
    }
}

/// The memory contents after a store of the `width` low bytes of `value` at `addr`,
/// and the store's outcome.
pub open spec fn store_spec(base: u64, data: Seq<u8>, addr: u64, width: u8, value: u64) -> (
    Seq<u8>,
    Result<(), CpuError>,
) {
    match access_spec(base, data.len(), addr, width) {
        Ok(off) => (overwrite(data, off as int, le_bytes(value as nat, width as nat)), Ok(())),
        Err(e) => (data, Err(e)),
    }
}

/// A block of byte-addressed RAM that starts at `base`.
pub struct Memory {
    base: u64,
    data: Vec<u8>,
}

impl Memory {
    /// The address of the first byte.
    pub closed spec fn base(&self) -> u64 {
        self.base
    }

    /// The bytes held, the one at `base` first.
    pub closed spec fn bytes(&self) -> Seq<u8> {
        self.data@
    }

    pub fn new(base: u64, size: usize) -> (m: Self)
        ensures
            m.base() == base,
            m.bytes() == Seq::new(size as nat, |i: int| 0u8),
    {
        let mut data: Vec<u8> = Vec::with_capacity(size);
        let mut i: usize = 0;
        while i < size
            invariant
                i <= size,
                data@ == Seq::new(i as nat, |k: int| 0u8),
            decreases size - i,
        {
            data.push(0);
            i = i + 1;
        }
        Self { base, data }
    }

    pub fn load(&self, addr: u64, width: u8) -> (r: Result<u64, CpuError>)
        ensures
            r == load_spec(self.base(), self.bytes(), addr, width),
    {
        let offset = self.check_access(addr, width)?;
        let w = width as usize;
        let ghost data = self.data@;
        let mut value: u64 = 0;
        let mut i: usize = w;
        proof {
            lemma2_to64();
            assert(data.subrange(offset + w, offset + w) =~= Seq::<u8>::empty());
        }
        while i > 0
            invariant
                offset + w <= self.data.len(),
                data == self.data@,
                valid_width(width),
                w == width,
                i <= w,
                value == le_value(data.subrange(offset + i, offset + w)),
            decreases i,
        {
            let ghost rest = data.subrange(offset + i, offset + w);
            let ghost s = data.subrange(offset + i - 1, offset + w);
            proof {
                assert(s.drop_first() =~= rest);
                lemma_le_value_bound(rest);
                lemma_pow2_bytes(rest.len());
                lemma2_to64();
                let k = rest.len();
                assert(k + 1 <= 8);
                if 8 * (k + 1) < 64 {
                    lemma_pow2_strictly_increases(8 * (k + 1), 64);
                }
                assert(pow2(8 * (k + 1)) <= 0x1_0000_0000_0000_0000);
                assert(value * 256 + 255 < pow2(8 * (k + 1)));
            }
            value = value * 256 + self.data[offset + i - 1] as u64;
            i = i - 1;
        }
        proof {
            assert(data.subrange(offset as int, offset + width) =~= data.subrange(offset + i, offset + w));
        }
        Ok(value)
    }

    pub fn store(&mut self, addr: u64, width: u8, value: u64) -> (r: Result<(), CpuError>)
        ensures
            final(self).base() == old(self).base(),
            (final(self).bytes(), r) == store_spec(old(self).base(), old(self).bytes(), addr, width, value),
    {
        let offset = self.check_access(addr, width)?;
        let w = width as usize;
        let ghost old_data = self.data@;
        let ghost bytes = le_bytes(value as nat, width as nat);
        let mut rem: u64 = value;
        let mut i: usize = 0;
        proof {
            lemma2_to64();
            assert(value as nat / pow2(8 * 0nat) == value);
        }
        while i < w
            invariant
                offset + w <= old_data.len(),
                offset + w <= self.data.len(),
                self.data@.len() == old_data.len(),
                self.base == old(self).base,
                w == width,
                bytes == le_bytes(value as nat, width as nat),
                i <= w,
                rem == value as nat / pow2(8 * i as nat),
                forall|k: int|
                    0 <= k < old_data.len() ==> #[trigger] self.data@[k] == if offset <= k < offset + i {
                        bytes[k - offset]
                    } else {
                        old_data[k]
                    },
            decreases w - i,
        {
            proof {
                lemma_pow2_bytes(i as nat);
                lemma_pow2_pos(8 * i as nat);
                vstd::arithmetic::div_mod::lemma_div_denominator(value as int, pow2(8 * i as nat) as int, 256);
                assert(8 * (i + 1) as nat == 8 * (i as nat + 1));
            }
            self.data.set(offset + i, (rem % 256) as u8);
            rem = rem / 256;
            i = i + 1;
        }
        proof {
            assert(self.data@ =~= overwrite(old_data, offset as int, bytes));
        }
        Ok(())
    }

    fn check_access(&self, addr: u64, width: u8) -> (r: Result<usize, CpuError>)
        ensures
            match access_spec(self.base(), self.bytes().len(), addr, width) {
                Ok(off) => r == Ok::<usize, CpuError>(off as usize),
                Err(e) => r == Err::<usize, CpuError>(e),
            },
            r is Ok ==> r->Ok_0 + width <= self.bytes().len() && valid_width(width),
    {
        if !(width == 1 || width == 2 || width == 4 || width == 8) {
            return Err(CpuError::BusError(addr));
        }
        if width > 1 && addr % (width as u64) != 0 {
            return Err(CpuError::Misaligned { addr, width });
        }
        let offset = match addr.checked_sub(self.base) {
            Some(offset) => offset,
            None => return Err(CpuError::BusError(addr)),
        };
        assert(self.data@.len() == self.data.len());
        let end = match offset.checked_add(width as u64) {
            Some(end) => end,
            None => return Err(CpuError::BusError(addr)),
        };
        if end > self.data.len() as u64 {
            return Err(CpuError::BusError(addr));
        }
        Ok(offset as usize)
    }
}

} // verus!

verus! {

/// A load of the bytes that a store has just written gives back the stored value,
/// cut down to the width of the access.
pub proof fn lemma_load_after_store(base: u64, data: Seq<u8>, addr: u64, width: u8, value: u64)
    requires
        store_spec(base, data, addr, width, value).1 is Ok,
    ensures
        load_spec(base, store_spec(base, data, addr, width, value).0, addr, width) == Ok::<
            u64,
            CpuError,
        >((value as nat % pow2(8 * width as nat)) as u64),
{
    let off = access_spec(base, data.len(), addr, width)->Ok_0;
    let bytes = le_bytes(value as nat, width as nat);
    let after = store_spec(base, data, addr, width, value).0;
    assert(after.subrange(off as int, off + width) =~= bytes);
    lemma_le_value_of_bytes(value as nat, width as nat);
}

/// A store leaves alone what a load of other bytes reads.
pub proof fn lemma_load_unaffected_by_store(
    base: u64,
    data: Seq<u8>,
    addr: u64,
    width: u8,
    value: u64,
    other: u64,
    other_width: u8,
)
    requires
        addr + width <= other || other + other_width <= addr,
    ensures
        load_spec(base, store_spec(base, data, addr, width, value).0, other, other_width)
            == load_spec(base, data, other, other_width),
{
    let after = store_spec(base, data, addr, width, value).0;
    if let Ok(off) = access_spec(base, data.len(), other, other_width) {
        if let Ok(woff) = access_spec(base, data.len(), addr, width) {
            assert(after.subrange(off as int, off + other_width) =~= data.subrange(
                off as int,
                off + other_width,
            ));
        }
    }
}

/// A store writes its value least significant byte first: byte `i` of the access, read
/// back on its own, is byte `i` of the value.
pub proof fn lemma_store_is_little_endian(
    base: u64,
    data: Seq<u8>,
    addr: u64,
    width: u8,
    value: u64,
    i: int,
)
    requires
        store_spec(base, data, addr, width, value).1 is Ok,
        0 <= i < width,
    ensures
        load_spec(base, store_spec(base, data, addr, width, value).0, (addr + i) as u64, 1)
            == Ok::<u64, CpuError>(((value as nat / pow2(8 * i as nat)) % 256) as u64),
{
    let off = access_spec(base, data.len(), addr, width)->Ok_0;
    let bytes = le_bytes(value as nat, width as nat);
    let after = store_spec(base, data, addr, width, value).0;
    assert(addr + width - 1 <= u64::MAX) by {
        if width == 2 {
            assert(addr % 2 == 0 ==> addr + 1 <= u64::MAX) by (bit_vector);
        } else if width == 4 {
            assert(addr % 4 == 0 ==> addr + 3 <= u64::MAX) by (bit_vector);
        } else if width == 8 {
            assert(addr % 8 == 0 ==> addr + 7 <= u64::MAX) by (bit_vector);
        }
    }
    let a = (addr + i) as u64;
    assert(access_spec(base, data.len(), a, 1) == Ok::<nat, CpuError>((off + i) as nat));
    let one = after.subrange(off + i, off + i + 1);
    assert(one =~= seq![bytes[i]]);
    assert(le_value(one.drop_first()) == 0);
}

/// When an access succeeds and how it fails: a width other than 1, 2, 4 or 8 bytes is a
/// bus error; a wider access at an address that is not a multiple of its width is
/// misaligned; otherwise it succeeds exactly when all its bytes lie in the memory, and is
/// a bus error when they do not. A store succeeds or fails as a load of the same bytes.
pub proof fn lemma_access_outcomes(base: u64, data: Seq<u8>, addr: u64, width: u8, value: u64)
    ensures
        !(width == 1 || width == 2 || width == 4 || width == 8) ==> load_spec(base, data, addr, width)
            == Err::<u64, CpuError>(CpuError::BusError(addr)),
        (width == 2 || width == 4 || width == 8) && addr % (width as u64) != 0 ==> load_spec(
            base,
            data,
            addr,
            width,
        ) == Err::<u64, CpuError>(CpuError::Misaligned { addr, width }),
        (width == 1 || width == 2 || width == 4 || width == 8) && addr % (width as u64) == 0 ==> (
        load_spec(base, data, addr, width) is Ok <==> base <= addr && addr + width <= base
            + data.len()),
        (width == 1 || width == 2 || width == 4 || width == 8) && addr % (width as u64) == 0 && !(
        base <= addr && addr + width <= base + data.len()) ==> load_spec(base, data, addr, width)
            == Err::<u64, CpuError>(CpuError::BusError(addr)),
        load_spec(base, data, addr, width) is Ok ==> store_spec(base, data, addr, width, value).1
            is Ok,
        load_spec(base, data, addr, width) is Err ==> store_spec(base, data, addr, width, value)
            == (data, Err::<(), CpuError>(load_spec(base, data, addr, width)->Err_0)),
{
}

} // verus!
