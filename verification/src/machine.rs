//! The live execution context: memory, pointers, registries, and the
//! verified primitives the interpreter is built from.

use vstd::prelude::*;
use crate::error::MemoryErr;
use crate::hosts::{assoc_find, assoc_idx, bytes_eq, HostFn, Table};
use crate::image::Image;
use crate::sem::{
    s_cstr, s_cstr_end, s_fetch, s_rd, s_read, s_tr, s_wr, s_write, st_pop, st_push, MState,
};
use crate::word::{be_val, be_rep, lemma_be_rep_index, lemma_be_rep_len, lemma_be_val_bound,
    lemma_wr_mem, valid_width, wr_mem};
use vstd::arithmetic::div_mod::lemma_div_denominator;
use vstd::arithmetic::power2::{lemma2_to64, lemma_pow2_adds, lemma_pow2_pos,
    lemma_pow2_strictly_increases, pow2};

verus! {

/// A machine in its initial state: zeroed memory, pointers at zero, the
/// rabbit counter just above capacity, and nothing registered.
pub open spec fn init_state(capacity: nat) -> MState {
    MState {
        mem: Seq::new(capacity, |i: int| 0u8),
        text_start: 0,
        stack_start: 0,
        end: capacity - 8,
        sp: 0,
        ep: 0,
        errcode: 0,
        sbm_stack: 0,
        sbm_exec: 0,
        rabbit_top: capacity as int + 1,
        hosts: Seq::empty(),
        robjs: Seq::empty(),
        rfns: Seq::empty(),
    }
}

/// `m` after an image with these sections has been mounted: the static
/// section at offset 0, the text section after it, boundaries recorded.
pub open spec fn mounted(m: MState, statics: Seq<u8>, text: Seq<u8>) -> MState {
    MState {
        mem: statics + text + m.mem.skip(statics.len() + text.len() as int),
        text_start: statics.len() as int,
        stack_start: statics.len() + text.len() as int,
        ..m
    }
}

/// A live execution context with a fixed byte capacity.
pub struct Machine {
    memory: Vec<u8>,
    text_start: i64,
    stack_start: i64,
    end: i64,
    stack_pointer: i64,
    exec_pointer: i64,
    errcode: u8,
    sbm_stack: i64,
    sbm_exec: i64,
    rabbit_top: i64,
    hosts: Vec<(Vec<u8>, Table)>,
    rabbit_objs: Vec<(i64, usize)>,
    rabbit_fns: Vec<(i64, HostFn)>,
}

impl View for Machine {
    type V = MState;

    closed spec fn view(&self) -> MState {
        MState {
            mem: self.memory@,
            text_start: self.text_start as int,
            stack_start: self.stack_start as int,
            end: self.end as int,
            sp: self.stack_pointer as int,
            ep: self.exec_pointer as int,
            errcode: self.errcode,
            sbm_stack: self.sbm_stack as int,
            sbm_exec: self.sbm_exec as int,
            rabbit_top: self.rabbit_top as int,
            hosts: self.hosts@.map_values(|p: (Vec<u8>, Table)| (p.0@, p.1@)),
            robjs: self.rabbit_objs@.map_values(|p: (i64, usize)| (p.0 as int, p.1 as int)),
            rfns: self.rabbit_fns@.map_values(|p: (i64, HostFn)| (p.0 as int, p.1)),
        }
    }
}

impl Machine {
    /// Creates a machine of `capacity` bytes; the last 8 are the padded
    /// tail that keeps unaligned 64-bit reads inside the buffer.
    pub fn new(capacity: usize) -> (r: Machine)
        requires
            8 <= capacity,
            capacity + 1 <= i64::MAX,
        ensures
            r@ == init_state(capacity as nat),
            r@.inv(),
    {
        let m = Machine {
            memory: vec![0u8; capacity],
            text_start: 0,
            stack_start: 0,
            end: capacity as i64 - 8,
            stack_pointer: 0,
            exec_pointer: 0,
            errcode: 0,
            sbm_stack: 0,
            sbm_exec: 0,
            rabbit_top: capacity as i64 + 1,
            hosts: Vec::new(),
            rabbit_objs: Vec::new(),
            rabbit_fns: Vec::new(),
        };
        proof {
            assert(m@ =~~= init_state(capacity as nat));
        }
        m
    }

    /// Registers a host table under a symbolic name, before any `invoke`.
    pub fn register(&mut self, name: Vec<u8>, table: Table)
        requires
            old(self)@.inv(),
        ensures
            final(self)@ == (MState {
                hosts: old(self)@.hosts.push((name@, table@)),
                ..old(self)@
            }),
            final(self)@.inv(),
    {
        let ghost before = self@;
        let ghost n = name@;
        let ghost t = table@;
        self.hosts.push((name, table));
        proof {
            assert(self@ =~~= (MState { hosts: before.hosts.push((n, t)), ..before }));
        }
    }

    /// Copies an image's static and text sections into memory and records
    /// the section boundaries; the image itself is not retained.
    pub fn mount(&mut self, image: &Image) -> (r: Result<(), MemoryErr>)
        requires
            old(self)@.inv(),
        ensures
            final(self)@.inv(),
            match r {
                Ok(()) => image.statics().len() + image.text().len() <= old(self)@.end
                    && final(self)@ == mounted(old(self)@, image.statics(), image.text()),
                Err(e) => e == MemoryErr::OutOfMemory
                    && image.statics().len() + image.text().len() > old(self)@.end
                    && final(self)@ == old(self)@,
            },
    {
        let sl = image.static_section.len();
        let tl = image.text_section.len();
        if sl >= self.memory.len() || tl >= self.memory.len() - sl
            || ((sl + tl) as i64) > self.end {
            return Err(MemoryErr::OutOfMemory);
        }
        let ghost orig = self@;
        let mut i: usize = 0;
        while i < sl
            invariant
                sl == image.static_section.len(),
                sl <= self.memory.len(),
                0 <= i <= sl,
                self@ == (MState { mem: self@.mem, ..orig }),
                self@.mem.len() == orig.mem.len(),
                forall|j: int| 0 <= j < i ==> self@.mem[j] == image.statics()[j],
                forall|j: int| i <= j < orig.mem.len() ==> self@.mem[j] == orig.mem[j],
            decreases sl - i,
        {
            self.memory[i] = image.static_section[i];
            i = i + 1;
        }
        let mut k: usize = 0;
        while k < tl
            invariant
                sl == image.static_section.len(),
                tl == image.text_section.len(),
                sl + tl <= self.memory.len(),
                0 <= k <= tl,
                self@ == (MState { mem: self@.mem, ..orig }),
                self@.mem.len() == orig.mem.len(),
                forall|j: int| 0 <= j < sl ==> self@.mem[j] == image.statics()[j],
                forall|j: int| 0 <= j < k ==> self@.mem[sl + j] == image.text()[j],
                forall|j: int| sl + k <= j < orig.mem.len() ==> self@.mem[j] == orig.mem[j],
            decreases tl - k,
        {
            self.memory[sl + k] = image.text_section[k];
            k = k + 1;
        }
        self.text_start = sl as i64;
        self.stack_start = (sl + tl) as i64;
        proof {
            assert(self@.mem =~= image.statics() + image.text() + orig.mem.skip(sl + tl));
            assert(self@ =~~= mounted(orig, image.statics(), image.text()));
        }
        Ok(())
    }

    /// Mints a fresh rabbit handle; handles are strictly greater than the
    /// machine's capacity and never repeat within a machine.
    pub(crate) fn next_rabbit(&mut self) -> (r: i64)
        requires
            old(self)@.inv(),
            old(self)@.rabbit_top < i64::MAX,
        ensures
            final(self)@ == (MState { rabbit_top: old(self)@.rabbit_top + 1, ..old(self)@ }),
            r as int == old(self)@.rabbit_top + 1,
    {
        let ghost before = self@;
        self.rabbit_top = self.rabbit_top + 1;
        proof {
            assert(self@ =~~= (MState { rabbit_top: before.rabbit_top + 1, ..before }));
        }
        self.rabbit_top
    }

    /// Signed-address translation: negative addresses are taken relative
    /// to the stack pointer; the result must lie in `[0, end)`.
    pub fn translate(&self, addr: i64) -> (r: Result<usize, MemoryErr>)
        requires
            self@.inv(),
        ensures
            match r {
                Ok(p) => s_tr(self@, addr as int) == Some(p as int),
                Err(e) => e == MemoryErr::SegmentationFault && s_tr(self@, addr as int) is None,
            },
    {
        let eff: i64 = if addr < 0 {
            addr + self.stack_pointer
        } else {
            addr
        };
        if eff < 0 || eff >= self.end {
            Err(MemoryErr::SegmentationFault)
        } else {
            let cap = self.memory.len();
            proof {
                assert(self@.end == cap - 8);
            }
            Ok(eff as usize)
        }
    }

    /// Big-endian read of `w` bytes at a resolved position; the padded
    /// tail guarantees the bytes exist.
    fn read_raw(&self, pos: usize, w: usize) -> (r: u64)
        requires
            pos + 8 <= self@.mem.len(),
            1 <= w <= 8,
        ensures
            r as nat == s_rd(self@, pos as int, w as nat),
            (r as nat) < pow2(8 * w as nat),
    {
        proof {
            lemma2_to64();
        }
        let n = self.memory.len();
        let mut acc: u64 = 0;
        let mut i: usize = 0;
        while i < w
            invariant
                n == self@.mem.len(),
                pos + 8 <= n,
                1 <= w <= 8,
                0 <= i <= w,
                acc as nat == be_val(self@.mem.subrange(pos as int, pos + i)),
                (acc as nat) < pow2(8 * i as nat),
            decreases w - i,
        {
            proof {
                lemma2_to64();
                if 8 * i < 56 {
                    lemma_pow2_strictly_increases(8 * i as nat, 56);
                }
                lemma_pow2_adds(56, 8);
                lemma_pow2_adds(8 * i as nat, 8);
                assert(self@.mem.subrange(pos as int, pos + i + 1).drop_last()
                    =~= self@.mem.subrange(pos as int, pos + i));
                assert(self@.mem.subrange(pos as int, pos + i + 1).last()
                    == self@.mem[pos + i]);
            }
            let b = self.memory[pos + i];
            acc = acc * 256 + (b as u64);
            i = i + 1;
        }
        proof {
            lemma_be_val_bound(self@.mem.subrange(pos as int, pos + w));
        }
        acc
    }

    /// Big-endian write of the `w` low bytes of `v` at a resolved
    /// position; the padded tail guarantees the bytes exist.
    fn write_raw(&mut self, pos: usize, w: usize, v: u64)
        requires
            pos + 8 <= old(self)@.mem.len(),
            1 <= w <= 8,
        ensures
            final(self)@ == s_wr(old(self)@, pos as int, w as nat, v as nat),
    {
        let ghost orig = self@;
        proof {
            lemma_be_rep_len(v as nat, w as nat);
            lemma2_to64();
            assert((v as nat) / pow2(0) == v as nat);
        }
        let n = self.memory.len();
        let mut acc: u64 = v;
        let mut i: usize = 0;
        while i < w
            invariant
                n == self@.mem.len(),
                pos + 8 <= n,
                1 <= w <= 8,
                0 <= i <= w,
                self@.mem.len() == orig.mem.len(),
                self@ == (MState { mem: self@.mem, ..orig }),
                acc as nat == (v as nat) / pow2(8 * i as nat),
                forall|j: int|
                    pos + w - i <= j < pos + w ==> self@.mem[j]
                        == be_rep(v as nat, w as nat)[j - pos],
                forall|j: int|
                    0 <= j < orig.mem.len() && !(pos + w - i <= j < pos + w) ==> self@.mem[j]
                        == orig.mem[j],
            decreases w - i,
        {
            proof {
                lemma2_to64();
                lemma_be_rep_index(v as nat, w as nat, w - 1 - i);
                lemma_pow2_pos(8 * i as nat);
                lemma_div_denominator(v as int, pow2(8 * i as nat) as int, 256);
                lemma_pow2_adds(8 * i as nat, 8);
            }
            let b = (acc % 256) as u8;
            self.memory[pos + w - 1 - i] = b;
            acc = acc / 256;
            i = i + 1;
        }
        proof {
            lemma_wr_mem(orig.mem, pos as int, w as nat, v as nat);
            assert(self@.mem =~= wr_mem(orig.mem, pos as int, w as nat, v as nat));
            assert(self@ =~~= s_wr(orig, pos as int, w as nat, v as nat));
        }
    }

    /// Typed read: translate `addr`, then read the `w`-byte word there.
    pub fn read(&self, addr: i64, w: usize) -> (r: Result<u64, MemoryErr>)
        requires
            self@.inv(),
            valid_width(w as nat),
        ensures
            match r {
                Ok(v) => s_read(self@, addr as int, w as nat) == Some(v as nat)
                    && (v as nat) < pow2(8 * w as nat),
                Err(e) => e == MemoryErr::SegmentationFault
                    && s_read(self@, addr as int, w as nat) is None,
            },
    {
        let pos = match self.translate(addr) {
            Ok(p) => p,
            Err(e) => {
                return Err(e);
            },
        };
        Ok(self.read_raw(pos, w))
    }

    /// Typed write: translate `addr`, then overwrite the `w`-byte word
    /// there with the low bytes of `v`.
    pub fn write(&mut self, addr: i64, w: usize, v: u64) -> (r: Result<(), MemoryErr>)
        requires
            old(self)@.inv(),
            valid_width(w as nat),
        ensures
            final(self)@.inv(),
            match r {
                Ok(()) => s_write(old(self)@, addr as int, w as nat, v as nat)
                    == Some(final(self)@),
                Err(e) => e == MemoryErr::SegmentationFault
                    && s_write(old(self)@, addr as int, w as nat, v as nat) is None
                    && final(self)@ == old(self)@,
            },
    {
        let pos = match self.translate(addr) {
            Ok(p) => p,
            Err(e) => {
                return Err(e);
            },
        };
        proof {
            lemma_wr_mem(self@.mem, pos as int, w as nat, v as nat);
        }
        self.write_raw(pos, w, v);
        Ok(())
    }

    /// Exchanges the `w`-byte words at two addresses.
    pub fn swap(&mut self, a: i64, b: i64, w: usize) -> (r: Result<(), MemoryErr>)
        requires
            old(self)@.inv(),
            valid_width(w as nat),
        ensures
            final(self)@.inv(),
            match r {
                Ok(()) => s_tr(old(self)@, a as int) is Some && s_tr(old(self)@, b as int)
                    is Some && final(self)@ == crate::sem::s_exchange(
                    old(self)@,
                    s_tr(old(self)@, a as int)->Some_0,
                    s_tr(old(self)@, b as int)->Some_0,
                    w as nat,
                ),
                Err(e) => e == MemoryErr::SegmentationFault && (s_tr(old(self)@, a as int)
                    is None || s_tr(old(self)@, b as int) is None) && final(self)@ == old(
                    self,
                )@,
            },
    {
        let pa = match self.translate(a) {
            Ok(p) => p,
            Err(e) => {
                return Err(e);
            },
        };
        let pb = match self.translate(b) {
            Ok(p) => p,
            Err(e) => {
                return Err(e);
            },
        };
        let n = self.memory.len();
        proof {
            assert(self@.end == n - 8);
        }
        let va = self.read_raw(pa, w);
        let vb = self.read_raw(pb, w);
        proof {
            lemma_wr_mem(self@.mem, pa as int, w as nat, vb as nat);
        }
        self.write_raw(pa, w, vb);
        proof {
            lemma_wr_mem(self@.mem, pb as int, w as nat, va as nat);
        }
        self.write_raw(pb, w, va);
        Ok(())
    }

    /// Fetches a `w`-byte operand at the execution pointer, advancing it.
    pub(crate) fn fetch(&mut self, w: usize) -> (r: Result<u64, MemoryErr>)
        requires
            old(self)@.inv(),
            1 <= w <= 8,
        ensures
            final(self)@.inv(),
            match r {
                Ok(v) => s_fetch(old(self)@, w as nat) == Some((final(self)@, v as nat))
                    && (v as nat) < pow2(8 * w as nat),
                Err(e) => e == MemoryErr::SegmentationFault
                    && s_fetch(old(self)@, w as nat) is None
                    && final(self)@ == old(self)@,
            },
    {
        if self.exec_pointer > self.end - (w as i64) {
            return Err(MemoryErr::SegmentationFault);
        }
        let ghost before = self@;
        let n = self.memory.len();
        proof {
            assert(self@.end == n - 8);
        }
        let v = self.read_raw(self.exec_pointer as usize, w);
        self.exec_pointer = self.exec_pointer + (w as i64);
        proof {
            assert(self@ =~~= (MState { ep: before.ep + w, ..before }));
        }
        Ok(v)
    }

    /// Pushes the `w` low bytes of `v`, advancing the stack pointer.
    pub(crate) fn push_w(&mut self, w: usize, v: u64) -> (r: Result<(), MemoryErr>)
        requires
            old(self)@.inv(),
            1 <= w <= 8,
        ensures
            final(self)@.inv(),
            match r {
                Ok(()) => st_push(old(self)@, w as nat, v as nat) == Some(final(self)@),
                Err(e) => e == MemoryErr::SegmentationFault
                    && st_push(old(self)@, w as nat, v as nat) is None
                    && final(self)@ == old(self)@,
            },
    {
        if self.stack_pointer > self.end - (w as i64) {
            return Err(MemoryErr::SegmentationFault);
        }
        let ghost before = self@;
        let n = self.memory.len();
        proof {
            assert(self@.end == n - 8);
            lemma_wr_mem(self@.mem, self@.sp, w as nat, v as nat);
        }
        self.write_raw(self.stack_pointer as usize, w, v);
        self.stack_pointer = self.stack_pointer + (w as i64);
        proof {
            assert(self@ =~~= (MState {
                mem: wr_mem(before.mem, before.sp, w as nat, v as nat),
                sp: before.sp + w,
                ..before
            }));
        }
        Ok(())
    }

    /// Pops a `w`-byte word, lowering the stack pointer.
    pub(crate) fn pop_w(&mut self, w: usize) -> (r: Result<u64, MemoryErr>)
        requires
            old(self)@.inv(),
            1 <= w <= 8,
        ensures
            final(self)@.inv(),
            match r {
                Ok(v) => st_pop(old(self)@, w as nat) == Some((final(self)@, v as nat))
                    && (v as nat) < pow2(8 * w as nat),
                Err(e) => e == MemoryErr::SegmentationFault
                    && st_pop(old(self)@, w as nat) is None
                    && final(self)@ == old(self)@,
            },
    {
        if self.stack_pointer < (w as i64) {
            return Err(MemoryErr::SegmentationFault);
        }
        let ghost before = self@;
        let n = self.memory.len();
        proof {
            assert(self@.end == n - 8);
        }
        let v = self.read_raw((self.stack_pointer - (w as i64)) as usize, w);
        self.stack_pointer = self.stack_pointer - (w as i64);
        proof {
            assert(self@ =~~= (MState { sp: before.sp - w, ..before }));
        }
        Ok(v)
    }

    /// Reads the C string at resolved position `p`, stopping before `end`.
    pub(crate) fn read_cstr(&self, p: usize) -> (r: Option<Vec<u8>>)
        requires
            self@.inv(),
            p < self@.end,
        ensures
            match r {
                Some(v) => s_cstr(self@, p as int) == Some(v@),
                None => s_cstr(self@, p as int) is None,
            },
    {
        let mut out: Vec<u8> = Vec::new();
        let mut i: usize = p;
        let n = self.memory.len();
        proof {
            assert(self@.end == n - 8);
        }
        let end = self.end as usize;
        while i < end
            invariant
                self@.inv(),
                end == self@.end,
                p <= i <= end,
                out@ =~= self@.mem.subrange(p as int, i as int),
                forall|j: int| p <= j < i ==> self@.mem[j] != 0,
            decreases end - i,
        {
            let b = self.memory[i];
            if b == 0 {
                proof {
                    lemma_cstr_end_found(self@, p as int, i as int);
                }
                return Some(out);
            }
            out.push(b);
            proof {
                assert(out@ =~= self@.mem.subrange(p as int, i + 1));
            }
            i = i + 1;
        }
        proof {
            lemma_cstr_end_missing(self@, p as int);
        }
        None
    }

    /// One past the last legally addressable byte.
    pub(crate) fn end(&self) -> (r: i64)
        ensures
            r as int == self@.end,
    {
        self.end
    }

    /// The machine's full byte capacity.
    pub(crate) fn capacity(&self) -> (r: usize)
        ensures
            r as int == self@.capacity(),
    {
        self.memory.len()
    }

    /// The execution pointer.
    pub(crate) fn exec_ptr(&self) -> (r: i64)
        ensures
            r as int == self@.ep,
    {
        self.exec_pointer
    }

    /// The stack pointer.
    pub(crate) fn stack_ptr(&self) -> (r: i64)
        ensures
            r as int == self@.sp,
    {
        self.stack_pointer
    }

    /// The bottom of the stack, established at mount time.
    pub(crate) fn stack_base(&self) -> (r: i64)
        ensures
            r as int == self@.stack_start,
    {
        self.stack_start
    }

    /// The last thrown error byte.
    pub(crate) fn err_code(&self) -> (r: u8)
        ensures
            r == self@.errcode,
    {
        self.errcode
    }

    /// The stack-break marker, stack half first.
    pub(crate) fn sbm(&self) -> (r: (i64, i64))
        ensures
            r.0 as int == self@.sbm_stack,
            r.1 as int == self@.sbm_exec,
    {
        (self.sbm_stack, self.sbm_exec)
    }

    /// The rabbit handle counter.
    pub(crate) fn rabbit_ceiling(&self) -> (r: i64)
        ensures
            r as int == self@.rabbit_top,
    {
        self.rabbit_top
    }

    /// The byte at a resolved position.
    pub(crate) fn byte_at(&self, pos: usize) -> (r: u8)
        requires
            pos < self@.mem.len(),
        ensures
            r == self@.mem[pos as int],
    {
        self.memory[pos]
    }

    /// Moves the execution pointer to a validated offset.
    pub(crate) fn set_exec_ptr(&mut self, t: i64)
        requires
            old(self)@.inv(),
            0 <= t as int <= old(self)@.end,
        ensures
            final(self)@ == (MState { ep: t as int, ..old(self)@ }),
            final(self)@.inv(),
    {
        let ghost before = self@;
        self.exec_pointer = t;
        proof {
            assert(self@ =~~= (MState { ep: t as int, ..before }));
        }
    }

    /// Moves the stack pointer to a validated offset.
    pub(crate) fn set_stack_ptr(&mut self, t: i64)
        requires
            old(self)@.inv(),
            0 <= t as int <= old(self)@.end,
        ensures
            final(self)@ == (MState { sp: t as int, ..old(self)@ }),
            final(self)@.inv(),
    {
        let ghost before = self@;
        self.stack_pointer = t;
        proof {
            assert(self@ =~~= (MState { sp: t as int, ..before }));
        }
    }

    /// Records an error byte.
    pub(crate) fn set_err_code(&mut self, c: u8)
        ensures
            final(self)@ == (MState { errcode: c, ..old(self)@ }),
    {
        let ghost before = self@;
        self.errcode = c;
        proof {
            assert(self@ =~~= (MState { errcode: c, ..before }));
        }
    }

    /// Replaces the stack-break marker, stack half first.
    pub(crate) fn set_sbm(&mut self, ss: i64, se: i64)
        ensures
            final(self)@ == (MState {
                sbm_stack: ss as int,
                sbm_exec: se as int,
                ..old(self)@
            }),
    {
        let ghost before = self@;
        self.sbm_stack = ss;
        self.sbm_exec = se;
        proof {
            assert(self@ =~~= (MState {
                sbm_stack: ss as int,
                sbm_exec: se as int,
                ..before
            }));
        }
    }

    /// Looks a rabbit handle up among the bound host callables.
    pub(crate) fn find_rfn(&self, h: i64) -> (r: Option<HostFn>)
        ensures
            r == assoc_find(self@.rfns, h as int),
    {
        let n = self.rabbit_fns.len();
        let mut i: usize = 0;
        while i < n
            invariant
                n == self.rabbit_fns.len(),
                0 <= i <= n,
                forall|j: int| 0 <= j < i ==> (#[trigger] self@.rfns[j]).0 != h as int,
            decreases n - i,
        {
            assert(self@.rfns[i as int]
                == (self.rabbit_fns@[i as int].0 as int, self.rabbit_fns@[i as int].1));
            if self.rabbit_fns[i].0 == h {
                proof {
                    crate::hosts::lemma_assoc_skip(self@.rfns, h as int, i as int);
                }
                return Some(self.rabbit_fns[i].1);
            }
            i = i + 1;
        }
        proof {
            crate::hosts::lemma_assoc_skip(self@.rfns, h as int, n as int);
        }
        None
    }

    /// Looks a rabbit handle up among the docked tables.
    pub(crate) fn find_robj(&self, h: i64) -> (r: Option<usize>)
        ensures
            match r {
                Some(i) => assoc_find(self@.robjs, h as int) == Some(i as int),
                None => assoc_find(self@.robjs, h as int) is None,
            },
    {
        let n = self.rabbit_objs.len();
        let mut i: usize = 0;
        while i < n
            invariant
                n == self.rabbit_objs.len(),
                0 <= i <= n,
                forall|j: int| 0 <= j < i ==> (#[trigger] self@.robjs[j]).0 != h as int,
            decreases n - i,
        {
            assert(self@.robjs[i as int]
                == (self.rabbit_objs@[i as int].0 as int, self.rabbit_objs@[i as int].1 as int));
            if self.rabbit_objs[i].0 == h {
                proof {
                    crate::hosts::lemma_assoc_skip(self@.robjs, h as int, i as int);
                }
                return Some(self.rabbit_objs[i].1);
            }
            i = i + 1;
        }
        proof {
            crate::hosts::lemma_assoc_skip(self@.robjs, h as int, n as int);
        }
        None
    }

    /// Finds the index of the registered host table of a name.
    pub(crate) fn find_host(&self, name: &Vec<u8>) -> (r: Option<usize>)
        ensures
            match r {
                Some(i) => assoc_idx(self@.hosts, name@) == Some(i as int),
                None => assoc_idx(self@.hosts, name@) is None,
            },
    {
        let n = self.hosts.len();
        let mut i: usize = 0;
        while i < n
            invariant
                n == self.hosts.len(),
                0 <= i <= n,
                forall|j: int| 0 <= j < i ==> (#[trigger] self@.hosts[j]).0 != name@,
            decreases n - i,
        {
            assert(self@.hosts[i as int]
                == (self.hosts@[i as int].0@, self.hosts@[i as int].1@));
            if bytes_eq(&self.hosts[i].0, name) {
                proof {
                    crate::hosts::lemma_assoc_skip(self@.hosts, name@, i as int);
                    crate::hosts::lemma_assoc_idx(self@.hosts, name@);
                }
                return Some(i);
            }
            i = i + 1;
        }
        proof {
            crate::hosts::lemma_assoc_skip(self@.hosts, name@, n as int);
        }
        None
    }

    /// Borrows the host table at a registry index.
    pub(crate) fn host_at(&self, i: usize) -> (r: &Table)
        requires
            i < self@.hosts.len(),
        ensures
            r@ == self@.hosts[i as int].1,
    {
        &self.hosts[i].1
    }

    /// Records a freshly minted handle for a docked table.
    pub(crate) fn bind_obj(&mut self, h: i64, idx: usize)
        requires
            old(self)@.inv(),
            idx < old(self)@.hosts.len(),
        ensures
            final(self)@ == (MState {
                robjs: old(self)@.robjs.push((h as int, idx as int)),
                ..old(self)@
            }),
            final(self)@.inv(),
    {
        let ghost before = self@;
        self.rabbit_objs.push((h, idx));
        proof {
            assert(self@ =~~= (MState {
                robjs: before.robjs.push((h as int, idx as int)),
                ..before
            }));
        }
    }

    /// Records a freshly minted handle for a bound host callable.
    pub(crate) fn bind_fn(&mut self, h: i64, f: HostFn)
        requires
            old(self)@.inv(),
        ensures
            final(self)@ == (MState {
                rfns: old(self)@.rfns.push((h as int, f)),
                ..old(self)@
            }),
            final(self)@.inv(),
    {
        let ghost before = self@;
        self.rabbit_fns.push((h, f));
        proof {
            assert(self@ =~~= (MState { rfns: before.rfns.push((h as int, f)), ..before }));
        }
    }
}

/// A scan that found the first zero byte pins down the C string's end.
pub proof fn lemma_cstr_end_found(m: MState, p: int, i: int)
    requires
        0 <= p <= i < m.end,
        m.mem[i] == 0,
        forall|j: int| p <= j < i ==> m.mem[j] != 0,
    ensures
        s_cstr_end(m, p) == Some(i),
    decreases i - p,
{
    if p < i {
        lemma_cstr_end_found(m, p + 1, i);
    }
}

/// A scan that ran to `end` without a zero byte shows there is no string.
pub proof fn lemma_cstr_end_missing(m: MState, p: int)
    requires
        0 <= p,
        forall|j: int| p <= j < m.end ==> m.mem[j] != 0,
    ensures
        s_cstr_end(m, p) is None,
    decreases m.end - p,
{
    if p < m.end {
        lemma_cstr_end_missing(m, p + 1);
    }
}

} // verus!
