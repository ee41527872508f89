//! Word-addressed memory for the LC-3: 65536 words of 16 bits, with the
//! memory-mapped keyboard status and data registers. A read of the keyboard
//! status register first polls the console for one byte and rewrites the two
//! keyboard registers before the stored word is returned.
use vstd::prelude::*;

use crate::console::Console;

verus! {

/// Address of the keyboard status register.
pub const KBSR: u16 = 0xFE00;

/// Address of the keyboard data register.
pub const KBDR: u16 = 0xFE02;

/// Number of addressable words.
pub const MEMORY_WORDS: usize = 0x10000;

/// The two memory-mapped keyboard registers.
#[allow(non_camel_case_types)]
pub enum MemRegister {
    KBSR,
    KBDR,
}

impl MemRegister {
    /// The memory address this register lives at.
    pub fn value(&self) -> (r: u16)
        ensures
            r == match self {
                MemRegister::KBSR => KBSR,
                MemRegister::KBDR => KBDR,
            },
    {
        match self {
            MemRegister::KBSR => KBSR,
            MemRegister::KBDR => KBDR,
        }
    }
}

/// True when a read at `addr` can complete: only a read of the keyboard
/// status register needs a pending input byte at cursor `pos`.
pub open spec fn read_ok(inp: Seq<u8>, pos: int, addr: u16) -> bool {
    addr == KBSR ==> pos < inp.len()
}

/// Memory contents after a read at `addr`: a read of the keyboard status
/// register consumes the byte at `pos` and rewrites the keyboard registers
/// (status ready bit, data byte); any other read leaves memory unchanged.
pub open spec fn mem_after_read(mem: Seq<u16>, inp: Seq<u8>, pos: int, addr: u16) -> Seq<u16>
    recommends
        read_ok(inp, pos, addr),
{
    if addr == KBSR {
        if inp[pos] != 0 {
            mem.update(KBSR as int, 0x8000u16).update(KBDR as int, inp[pos] as u16)
        } else {
            mem.update(KBSR as int, 0u16)
        }
    } else {
        mem
    }
}

/// Input cursor after a read at `addr`.
pub open spec fn pos_after_read(pos: int, addr: u16) -> int {
    if addr == KBSR {
        pos + 1
    } else {
        pos
    }
}

/// The word a read at `addr` returns: the stored word, observed after the
/// keyboard-register side effect (so a read of the status register sees the
/// just-updated ready bit).
pub open spec fn read_result(mem: Seq<u16>, inp: Seq<u8>, pos: int, addr: u16) -> u16
    recommends
        read_ok(inp, pos, addr),
        mem.len() == MEMORY_WORDS,
{
    mem_after_read(mem, inp, pos, addr)[addr as int]
}

/// A completed read touches memory only at the two keyboard registers,
/// keeps its length, and moves the input cursor forward by at most one.
pub proof fn lemma_read_frame(mem: Seq<u16>, inp: Seq<u8>, pos: int, addr: u16)
    requires
        read_ok(inp, pos, addr),
        mem.len() == MEMORY_WORDS,
    ensures
        mem_after_read(mem, inp, pos, addr).len() == mem.len(),
        forall|a: int|
            0 <= a < mem.len() && a != KBSR as int && a != KBDR as int
                ==> mem_after_read(mem, inp, pos, addr)[a] == mem[a],
        pos <= pos_after_read(pos, addr) <= pos + 1,
{
}

/// One pending console byte makes a poll of the keyboard status register
/// report the ready bit and leaves the byte in the data register; a zero
/// byte (no key) clears the ready bit instead.
pub proof fn lemma_keyboard_poll(mem: Seq<u16>, inp: Seq<u8>, pos: int)
    requires
        mem.len() == MEMORY_WORDS,
        0 <= pos < inp.len(),
    ensures
        inp[pos] != 0 ==> read_result(mem, inp, pos, KBSR) == 0x8000
            && mem_after_read(mem, inp, pos, KBSR)[KBDR as int] == inp[pos] as u16,
        inp[pos] == 0 ==> read_result(mem, inp, pos, KBSR) == 0,
{
}

/// The big-endian origin word at the head of a program image.
pub open spec fn image_origin(image: Seq<u8>) -> u16
    recommends
        image.len() >= 2,
{
    ((image[0] as u16) * 256 + image[1] as u16) as u16
}

/// The `i`-th big-endian payload word of a program image (after the
/// origin word).
pub open spec fn image_word(image: Seq<u8>, i: int) -> u16
    recommends
        0 <= i,
        2 + 2 * i + 1 < image.len(),
{
    ((image[2 + 2 * i] as u16) * 256 + image[2 + 2 * i + 1] as u16) as u16
}

/// Whether a program image can be loaded: it holds the origin word and
/// whole words after it, and the payload fits between the origin address
/// and the end of memory.
pub open spec fn image_fits(image: Seq<u8>) -> bool {
    &&& image.len() >= 2
    &&& image.len() % 2 == 0
    &&& image_origin(image) + (image.len() - 2) / 2 <= 0x10000
}

/// 65536 words of storage, zero-initialized.
pub struct Memory(pub Vec<u16>);

impl View for Memory {
    type V = Seq<u16>;

    open spec fn view(&self) -> Seq<u16> {
        self.0@
    }
}

impl Memory {
    /// Memory always holds exactly one word per 16-bit address.
    pub open spec fn wf(&self) -> bool {
        self@.len() == MEMORY_WORDS
    }

    /// Returns a zero-initialized memory.
    pub fn new() -> (m: Memory)
        ensures
            m.wf(),
            forall|a: int| 0 <= a < MEMORY_WORDS ==> m@[a] == 0u16,
    {
        let mut words: Vec<u16> = Vec::new();
        while words.len() < MEMORY_WORDS
            invariant
                words@.len() <= MEMORY_WORDS,
                forall|a: int| 0 <= a < words@.len() ==> words@[a] == 0u16,
            decreases MEMORY_WORDS - words.len(),
        {
            words.push(0);
        }
        Memory(words)
    }

    /// Returns an immutable view of the underlying word store.
    pub fn raw(&self) -> (r: &[u16])
        ensures
            r@ == self@,
    {
        self.0.as_slice()
    }

    /// Returns a mutable view of the underlying word store.
    pub fn raw_mut(&mut self) -> (r: &mut [u16])
        ensures
            r@ == old(self)@,
            final(self)@ == final(r)@,
    {
        self.0.as_mut_slice()
    }

    /// Stores `val` at `addr`; no side effects.
    pub fn memory_write(&mut self, addr: u16, val: u16)
        requires
            old(self).wf(),
        ensures
            final(self).wf(),
            final(self)@ == old(self)@.update(addr as int, val),
    {
        self.0[addr as usize] = val;
    }

    /// Loads a program image: the leading big-endian word names the origin
    /// address, and each following big-endian word is stored at
    /// consecutive addresses from there. An image without a whole origin
    /// word, with a trailing half word, or whose payload runs past the end
    /// of memory is rejected and nothing is written.
    pub fn load_image(&mut self, image: &Vec<u8>) -> (r: bool)
        requires
            old(self).wf(),
        ensures
            final(self).wf(),
            r == image_fits(image@),
            !r ==> final(self)@ == old(self)@,
            r ==> ({
                let n = (image@.len() - 2) / 2;
                let org = image_origin(image@) as int;
                &&& forall|i: int|
                    0 <= i < n ==> final(self)@[org + i] == image_word(image@, i)
                &&& forall|a: int|
                    0 <= a < MEMORY_WORDS && !(org <= a < org + n)
                        ==> final(self)@[a] == old(self)@[a]
            }),
    {
        if image.len() < 2 || image.len() % 2 != 0 {
            return false;
        }
        let hi: u8 = image[0];
        let lo: u8 = image[1];
        let origin: u16 = ((hi as u16) << 8) | (lo as u16);
        proof {
            assert(((hi as u16) << 8) | (lo as u16) == hi as u16 * 256 + lo as u16)
                by (bit_vector);
        }
        let n: usize = (image.len() - 2) / 2;
        if n > 0x10000 - (origin as usize) {
            return false;
        }

        let mut i: usize = 0;
        while i < n
            invariant
                self.wf(),
                image@.len() >= 2,
                n == (image@.len() - 2) / 2,
                origin == image_origin(image@),
                origin + n <= 0x10000,
                0 <= i <= n,
                forall|j: int|
                    0 <= j < i ==> self@[origin as int + j] == image_word(image@, j),
                forall|a: int|
                    0 <= a < MEMORY_WORDS && !(origin as int <= a < origin as int + i)
                        ==> self@[a] == old(self)@[a],
            decreases n - i,
        {
            let hi2: u8 = image[2 + 2 * i];
            let lo2: u8 = image[2 + 2 * i + 1];
            let w: u16 = ((hi2 as u16) << 8) | (lo2 as u16);
            proof {
                assert(((hi2 as u16) << 8) | (lo2 as u16) == hi2 as u16 * 256 + lo2 as u16)
                    by (bit_vector);
            }
            self.memory_write(origin + (i as u16), w);
            i = i + 1;
        }
        true
    }

    /// Reads the word at `addr`. A read of the keyboard status register
    /// first consumes one console byte: a non-zero byte sets the ready bit
    /// and stores the byte in the data register, a zero byte clears the
    /// ready bit. `None` means the console has no pending byte (the point at
    /// which the machine blocks for input); nothing is changed in that case.
    pub fn memory_read(&mut self, addr: u16, con: &mut Console) -> (r: Option<u16>)
        requires
            old(self).wf(),
            old(con).wf(),
        ensures
            final(self).wf(),
            final(con).wf(),
            final(con).input@ == old(con).input@,
            final(con).output@ == old(con).output@,
            read_ok(old(con).input@, old(con).pos as int, addr) ==> {
                &&& r == Some(read_result(old(self)@, old(con).input@, old(con).pos as int, addr))
                &&& final(self)@ == mem_after_read(old(self)@, old(con).input@, old(con).pos as int, addr)
                &&& final(con).pos == pos_after_read(old(con).pos as int, addr)
            },
            !read_ok(old(con).input@, old(con).pos as int, addr) ==> {
                &&& r is None
                &&& final(self)@ == old(self)@
                &&& final(con).pos == old(con).pos
            },
    {
        if addr == KBSR {
            match con.read_byte() {
                None => None,
                Some(b) => {
                    if b != 0 {
                        self.memory_write(KBSR, 1u16 << 15);
                        self.memory_write(KBDR, b as u16);
                    } else {
                        self.memory_write(KBSR, 0);
                    }
                    proof {
                        assert(1u16 << 15 == 0x8000) by (bit_vector);
                    }
                    Some(self.0[addr as usize])
                }
            }
        } else {
            Some(self.0[addr as usize])
        }
    }
}

} // verus!
