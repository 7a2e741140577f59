//! Small-step semantics of the execution core.
//!
//! [`MState`] is the abstract state of a machine; [`step`] decodes and runs
//! one instruction over it. The executable interpreter is specified — and
//! verified — against these functions: its result on a program is pinned to
//! an iterate of [`step`].

use vstd::prelude::*;
use crate::error::{InvokeErr, InvokeResult, MemoryErr};
use crate::hosts::{assoc_find, assoc_idx, stdabi_magic, HostFn};
use crate::word::{be_val, sgn64, sgn8, u64_of, wr_mem};
use vstd::arithmetic::power2::pow2;

verus! {

/// The abstract state of a machine.
#[verifier::ext_equal]
pub ghost struct MState {
    /// The linear byte store, `capacity` bytes.
    pub mem: Seq<u8>,
    /// First byte of the text section, set at mount time.
    pub text_start: int,
    /// One past the text section; bottom of the upward-growing stack.
    pub stack_start: int,
    /// One past the last legally addressable byte: `capacity - 8`.
    pub end: int,
    /// First free byte above the stack top.
    pub sp: int,
    /// Next instruction stream byte to fetch.
    pub ep: int,
    /// Last thrown error byte; 0 means none.
    pub errcode: u8,
    /// Stack half of the stack-break marker; `(0, 0)` means no handler.
    pub sbm_stack: int,
    /// Execution half of the stack-break marker.
    pub sbm_exec: int,
    /// Monotonically increasing rabbit handle counter, above `capacity`.
    pub rabbit_top: int,
    /// Host tables registered with the hypervisor, by name.
    pub hosts: Seq<(Seq<u8>, Seq<(Seq<u8>, HostFn)>)>,
    /// Rabbit handles naming docked tables (as indices into `hosts`).
    pub robjs: Seq<(int, int)>,
    /// Rabbit handles naming bound host callables.
    pub rfns: Seq<(int, HostFn)>,
}

/// What one step of the machine yields.
#[verifier::ext_equal]
pub ghost enum Step {
    /// The instruction succeeded; execution goes on from this state.
    Next(MState),
    /// The invocation terminated with this result.
    Done(MState, InvokeResult),
    /// The invocation failed with this error.
    Fail(MState, InvokeErr),
}

impl MState {
    /// The machine's full byte capacity, including the padded tail.
    pub open spec fn capacity(self) -> int {
        self.mem.len() as int
    }

    /// Well-formedness: established by construction and preserved by every
    /// instruction. In particular `0 <= sp <= end` and `0 <= ep <= end`
    /// hold after any successful instruction.
    pub open spec fn inv(self) -> bool {
        &&& 8 <= self.mem.len()
        &&& self.mem.len() + 1 <= i64::MAX
        &&& self.end == self.mem.len() - 8
        &&& 0 <= self.sp <= self.end
        &&& 0 <= self.ep <= self.end
        &&& 0 <= self.text_start <= self.stack_start <= self.end
        &&& self.capacity() < self.rabbit_top <= i64::MAX
        &&& forall|i: int|
            0 <= i < self.robjs.len() ==> {
                &&& i64::MIN <= (#[trigger] self.robjs[i]).0 <= i64::MAX
                &&& 0 <= self.robjs[i].1 < self.hosts.len()
            }
        &&& forall|i: int|
            0 <= i < self.rfns.len() ==> i64::MIN <= (#[trigger] self.rfns[i]).0 <= i64::MAX
    }
}

/// The step that reports a segmentation fault in state `m`.
pub open spec fn segfault(m: MState) -> Step {
    Step::Fail(m, InvokeErr::MemErr(MemoryErr::SegmentationFault))
}

/// Signed-address translation: negative addresses are stack-relative.
pub open spec fn s_tr(m: MState, addr: int) -> Option<int> {
    let eff = if addr < 0 {
        addr + m.sp
    } else {
        addr
    };
    if 0 <= eff && eff < m.end {
        Some(eff)
    } else {
        None
    }
}

/// The `w`-byte big-endian word at resolved position `pos`.
pub open spec fn s_rd(m: MState, pos: int, w: nat) -> nat {
    be_val(m.mem.subrange(pos, pos + w))
}

/// `m` with the `w`-byte word at resolved position `pos` replaced by `v`.
pub open spec fn s_wr(m: MState, pos: int, w: nat, v: nat) -> MState {
    MState { mem: wr_mem(m.mem, pos, w, v), ..m }
}

/// Typed read at a guest address: translate, then read.
pub open spec fn s_read(m: MState, addr: int, w: nat) -> Option<nat> {
    match s_tr(m, addr) {
        Some(pos) => Some(s_rd(m, pos, w)),
        None => None,
    }
}

/// Typed write at a guest address: translate, then write.
pub open spec fn s_write(m: MState, addr: int, w: nat, v: nat) -> Option<MState> {
    match s_tr(m, addr) {
        Some(pos) => Some(s_wr(m, pos, w, v)),
        None => None,
    }
}

/// Fetches a `w`-byte operand from the instruction stream.
pub open spec fn s_fetch(m: MState, w: nat) -> Option<(MState, nat)> {
    if 0 <= m.ep && m.ep + w <= m.end {
        Some((MState { ep: m.ep + w, ..m }, s_rd(m, m.ep, w)))
    } else {
        None
    }
}

/// Pushes a `w`-byte word, advancing the stack pointer.
pub open spec fn st_push(m: MState, w: nat, v: nat) -> Option<MState> {
    if 0 <= m.sp && m.sp + w <= m.end {
        Some(MState { mem: wr_mem(m.mem, m.sp, w, v), sp: m.sp + w, ..m })
    } else {
        None
    }
}

/// Pops a `w`-byte word, lowering the stack pointer.
pub open spec fn st_pop(m: MState, w: nat) -> Option<(MState, nat)> {
    if w <= m.sp && m.sp <= m.end {
        Some((MState { sp: m.sp - w, ..m }, s_rd(m, m.sp - w, w)))
    } else {
        None
    }
}

/// Exchange of the `w`-byte words at two resolved positions.
pub open spec fn s_exchange(m: MState, pa: int, pb: int, w: nat) -> MState {
    let va = s_rd(m, pa, w);
    let vb = s_rd(m, pb, w);
    s_wr(s_wr(m, pa, w, vb), pb, w, va)
}

/// End of the C string at resolved position `p`: the first zero byte at or
/// after `p`, if one lies below `end`.
pub open spec fn s_cstr_end(m: MState, p: int) -> Option<int>
    decreases m.end - p,
{
    if !(0 <= p < m.end) {
        None
    } else if m.mem[p] == 0 {
        Some(p)
    } else {
        s_cstr_end(m, p + 1)
    }
}

/// The bytes of the C string at resolved position `p`, without the
/// terminator.
pub open spec fn s_cstr(m: MState, p: int) -> Option<Seq<u8>> {
    match s_cstr_end(m, p) {
        Some(e) => Some(m.mem.subrange(p, e)),
        None => None,
    }
}

/// `pushv`: push an immediate `w`-byte constant.
pub open spec fn sp_pushv(m: MState, w: nat) -> Step {
    match s_fetch(m, w) {
        Some((m1, v)) => match st_push(m1, w, v) {
            Some(m2) => Step::Next(m2),
            None => segfault(m1),
        },
        None => segfault(m),
    }
}

/// `push`: read a `w`-byte word at a memory address and push it.
pub open spec fn sp_push(m: MState, w: nat) -> Step {
    match s_fetch(m, 8) {
        Some((m1, a)) => match s_read(m1, sgn64(a), w) {
            Some(v) => match st_push(m1, w, v) {
                Some(m2) => Step::Next(m2),
                None => segfault(m1),
            },
            None => segfault(m1),
        },
        None => segfault(m),
    }
}

/// `swap`: exchange the `w`-byte words at two addresses.
pub open spec fn sp_swap(m: MState, w: nat) -> Step {
    match s_fetch(m, 8) {
        Some((m1, a)) => match s_fetch(m1, 8) {
            Some((m2, b)) => match (s_tr(m2, sgn64(a)), s_tr(m2, sgn64(b))) {
                (Some(pa), Some(pb)) => Step::Next(s_exchange(m2, pa, pb, w)),
                _ => segfault(m2),
            },
            None => segfault(m1),
        },
        None => segfault(m),
    }
}

/// `cpy`: copy the `w`-byte word at `src` to `dst`.
pub open spec fn sp_cpy(m: MState, w: nat) -> Step {
    match s_fetch(m, 8) {
        Some((m1, a)) => match s_fetch(m1, 8) {
            Some((m2, b)) => match s_read(m2, sgn64(a), w) {
                Some(v) => match s_write(m2, sgn64(b), w, v) {
                    Some(m3) => Step::Next(m3),
                    None => segfault(m2),
                },
                None => segfault(m2),
            },
            None => segfault(m1),
        },
        None => segfault(m),
    }
}

/// `cpyv`: write an immediate `w`-byte constant at an address.
pub open spec fn sp_cpyv(m: MState, w: nat) -> Step {
    match s_fetch(m, 8) {
        Some((m1, a)) => match s_fetch(m1, w) {
            Some((m2, v)) => match s_write(m2, sgn64(a), w, v) {
                Some(m3) => Step::Next(m3),
                None => segfault(m2),
            },
            None => segfault(m1),
        },
        None => segfault(m),
    }
}

/// `pop`: drop `w` bytes from the stack.
pub open spec fn sp_pop(m: MState, w: nat) -> Step {
    match st_pop(m, w) {
        Some((m1, _v)) => Step::Next(m1),
        None => segfault(m),
    }
}

/// `popm`: pop a `w`-byte word and write it at an address.
pub open spec fn sp_popm(m: MState, w: nat) -> Step {
    match st_pop(m, w) {
        Some((m1, v)) => match s_fetch(m1, 8) {
            Some((m2, a)) => match s_write(m2, sgn64(a), w, v) {
                Some(m3) => Step::Next(m3),
                None => segfault(m2),
            },
            None => segfault(m1),
        },
        None => segfault(m),
    }
}

/// The four arithmetic instruction families.
#[derive(Clone, Copy, Debug, PartialEq, Eq, Structural)]
pub enum ArithOp {
    Add,
    Sub,
    Mul,
    Div,
}

/// Width-`w` unsigned arithmetic, wrapping modulo `2^(8w)`.
pub open spec fn arith(op: ArithOp, v1: nat, v2: nat, w: nat) -> nat {
    let m = pow2(8 * w);
    match op {
        ArithOp::Add => (v1 + v2) % m,
        ArithOp::Sub => ((v1 - v2) % (m as int)) as nat,
        ArithOp::Mul => (v1 * v2) % m,
        ArithOp::Div => v1 / v2,
    }
}

/// `add`/`sub`/`mul`/`div`: combine the words at two addresses, overwriting
/// the first. A zero divisor fails with `DivideByZero`.
pub open spec fn sp_arith(m: MState, w: nat, op: ArithOp) -> Step {
    match s_fetch(m, 8) {
        Some((m1, a)) => match s_fetch(m1, 8) {
            Some((m2, b)) => match (s_read(m2, sgn64(a), w), s_read(m2, sgn64(b), w)) {
                (Some(v1), Some(v2)) => if op is Div && v2 == 0 {
                    Step::Fail(m2, InvokeErr::DivideByZero)
                } else {
                    match s_write(m2, sgn64(a), w, arith(op, v1, v2, w)) {
                        Some(m3) => Step::Next(m3),
                        None => segfault(m2),
                    }
                },
                _ => segfault(m2),
            },
            None => segfault(m1),
        },
        None => segfault(m),
    }
}

/// The byte pushed by a comparison: 0 equal, 1 first greater, 2 second
/// greater. Comparison is unsigned at each width.
pub open spec fn cmp_byte(v1: nat, v2: nat) -> nat {
    if v1 == v2 {
        0
    } else if v1 > v2 {
        1
    } else {
        2
    }
}

/// The tail of a comparison once the second word is in hand: read the
/// first word and push the comparison byte.
pub open spec fn sp_cmp_fin(m2: MState, ai: int, v2: nat, w: nat) -> Step {
    match s_read(m2, ai, w) {
        Some(v1) => match st_push(m2, 1, cmp_byte(v1, v2)) {
            Some(m3) => Step::Next(m3),
            None => segfault(m2),
        },
        None => segfault(m2),
    }
}

/// `cmp`/`cmpv`: compare the word at an address with a second word read
/// from memory or taken as an immediate, pushing one byte.
pub open spec fn sp_cmp(m: MState, w: nat, imm: bool) -> Step {
    match s_fetch(m, 8) {
        Some((m1, a)) => if imm {
            match s_fetch(m1, w) {
                Some((m2, v2)) => sp_cmp_fin(m2, sgn64(a), v2, w),
                None => segfault(m1),
            }
        } else {
            match s_fetch(m1, 8) {
                Some((m2, b)) => match s_read(m2, sgn64(b), w) {
                    Some(v2) => sp_cmp_fin(m2, sgn64(a), v2, w),
                    None => segfault(m2),
                },
                None => segfault(m1),
            }
        },
        None => segfault(m),
    }
}

/// `bnot`: flip all bits of the byte at an address.
pub open spec fn sp_bnot(m: MState) -> Step {
    match s_fetch(m, 8) {
        Some((m1, a)) => match s_read(m1, sgn64(a), 1) {
            Some(v) => match s_write(m1, sgn64(a), 1, (255 - v) as nat) {
                Some(m2) => Step::Next(m2),
                None => segfault(m1),
            },
            None => segfault(m1),
        },
        None => segfault(m),
    }
}

/// `not`: logically negate the byte at an address (0 becomes 1, else 0).
pub open spec fn sp_not(m: MState) -> Step {
    match s_fetch(m, 8) {
        Some((m1, a)) => match s_read(m1, sgn64(a), 1) {
            Some(v) => match s_write(m1, sgn64(a), 1, if v == 0 { 1nat } else { 0nat }) {
                Some(m2) => Step::Next(m2),
                None => segfault(m1),
            },
            None => segfault(m1),
        },
        None => segfault(m),
    }
}

/// The combination performed by `bor`/`vor`/`band`/`vand`.
pub open spec fn byte_bin(is_or: bool, v1: nat, v2: nat) -> nat {
    if is_or {
        ((v1 as u8) | (v2 as u8)) as nat
    } else {
        ((v1 as u8) & (v2 as u8)) as nat
    }
}

/// The tail of a byte OR/AND once both bytes are in hand.
pub open spec fn sp_bbin_fin(m2: MState, ai: int, is_or: bool, v1: nat, v2: nat) -> Step {
    match s_write(m2, ai, 1, byte_bin(is_or, v1, v2)) {
        Some(m3) => Step::Next(m3),
        None => segfault(m2),
    }
}

/// `bor`/`vor`/`band`/`vand`: OR or AND the byte at an address with a
/// second byte from memory or from the stream, overwriting the first.
pub open spec fn sp_bbin(m: MState, is_or: bool, imm: bool) -> Step {
    match s_fetch(m, 8) {
        Some((m1, a)) => match s_read(m1, sgn64(a), 1) {
            Some(v1) => if imm {
                match s_fetch(m1, 1) {
                    Some((m2, v2)) => sp_bbin_fin(m2, sgn64(a), is_or, v1, v2),
                    None => segfault(m1),
                }
            } else {
                match s_fetch(m1, 8) {
                    Some((m2, b)) => match s_read(m2, sgn64(b), 1) {
                        Some(v2) => sp_bbin_fin(m2, sgn64(a), is_or, v1, v2),
                        None => segfault(m2),
                    },
                    None => segfault(m1),
                }
            },
            None => segfault(m1),
        },
        None => segfault(m),
    }
}

/// `bnorm`: normalise the byte at an address to 0 or 1.
pub open spec fn sp_bnorm(m: MState) -> Step {
    match s_fetch(m, 8) {
        Some((m1, a)) => match s_read(m1, sgn64(a), 1) {
            Some(v) => match s_write(m1, sgn64(a), 1, if v == 0 { 0nat } else { 1nat }) {
                Some(m2) => Step::Next(m2),
                None => segfault(m1),
            },
            None => segfault(m1),
        },
        None => segfault(m),
    }
}

/// The word written by `shift`: negative amounts shift left, positive
/// amounts shift right; amounts at or beyond the width yield 0.
pub open spec fn shifted(v: nat, amt: int, w: nat) -> nat {
    if amt < 0 {
        (v * pow2((0 - amt) as nat)) % pow2(8 * w)
    } else {
        v / pow2(amt as nat)
    }
}

/// `shift`: shift the `w`-byte word at an address by a signed 8-bit amount.
pub open spec fn sp_shift(m: MState, w: nat) -> Step {
    match s_fetch(m, 8) {
        Some((m1, a)) => match s_read(m1, sgn64(a), w) {
            Some(v) => match s_fetch(m1, 1) {
                Some((m2, av)) => {
                    let amt = sgn8(av);
                    if amt == 0 {
                        Step::Next(m2)
                    } else {
                        match s_write(m2, sgn64(a), w, shifted(v, amt, w)) {
                            Some(m3) => Step::Next(m3),
                            None => segfault(m2),
                        }
                    }
                },
                None => segfault(m1),
            },
            None => segfault(m1),
        },
        None => segfault(m),
    }
}

/// `jmp`: add a signed 64-bit displacement to the execution pointer.
pub open spec fn sp_jmp(m: MState) -> Step {
    match s_fetch(m, 8) {
        Some((m1, d)) => {
            let t = m1.ep + sgn64(d);
            if 0 <= t <= m1.end {
                Step::Next(MState { ep: t, ..m1 })
            } else {
                segfault(m1)
            }
        },
        None => segfault(m),
    }
}

/// `branch`: pop one byte; if it is zero, jump to the operand address.
pub open spec fn sp_branch(m: MState) -> Step {
    match s_fetch(m, 8) {
        Some((m1, t)) => match st_pop(m1, 1) {
            Some((m2, v)) => if v != 0 {
                Step::Next(m2)
            } else {
                let ti = sgn64(t);
                if 0 <= ti <= m2.end {
                    Step::Next(MState { ep: ti, ..m2 })
                } else {
                    segfault(m2)
                }
            },
            None => segfault(m1),
        },
        None => segfault(m),
    }
}

/// `call`: push the return address and jump to the operand address.
pub open spec fn sp_call(m: MState) -> Step {
    match s_fetch(m, 8) {
        Some((m1, t)) => {
            let ti = sgn64(t);
            if !(0 <= ti <= m1.end) {
                segfault(m1)
            } else {
                match st_push(m1, 8, m1.ep as nat) {
                    Some(m2) => Step::Next(MState { ep: ti, ..m2 }),
                    None => segfault(m1),
                }
            }
        },
        None => segfault(m),
    }
}

/// `ret`: pop an L-word return address and jump to it.
pub open spec fn sp_ret(m: MState) -> Step {
    match st_pop(m, 8) {
        Some((m1, v)) => {
            let ti = sgn64(v);
            if 0 <= ti <= m1.end {
                Step::Next(MState { ep: ti, ..m1 })
            } else {
                segfault(m1)
            }
        },
        None => segfault(m),
    }
}

/// Effect of running a host callable; terminal either way for the
/// conformance callable.
pub open spec fn s_host(m: MState, f: HostFn) -> Step {
    match f {
        HostFn::StdabiTest => match st_pop(m, 8) {
            Some((m1, v)) => match s_tr(m1, sgn64(v)) {
                Some(p) => match s_cstr(m1, p) {
                    Some(s) => if s == stdabi_magic() {
                        Step::Done(m1, InvokeResult::StdabiTestSuccess)
                    } else {
                        Step::Fail(m1, InvokeErr::StdabiTestFailure)
                    },
                    None => Step::Fail(m1, InvokeErr::StringProcessingError),
                },
                None => segfault(m1),
            },
            None => segfault(m),
        },
    }
}

/// `throw` after its code has been fetched: record the code, then rewind to
/// the stack-break marker, or abort when the marker is the sentinel.
pub open spec fn s_throw(m: MState, c: u8) -> Step {
    let m1 = MState { errcode: c, ..m };
    if m.sbm_stack == 0 && m.sbm_exec == 0 {
        Step::Fail(m1, InvokeErr::UncaughtThrow(c))
    } else if 0 <= m.sbm_stack && m.sbm_stack + 16 <= m.end && 0 <= m.sbm_exec <= m.end {
        Step::Next(MState { sp: m.sbm_stack + 16, ep: m.sbm_exec, ..m1 })
    } else {
        segfault(m1)
    }
}

/// `invokevirtual`: read an L-word through the operand address; a rabbit
/// handle runs the bound host callable, a code offset is called.
pub open spec fn sp_invokevirtual(m: MState) -> Step {
    match s_fetch(m, 8) {
        Some((m1, p)) => match s_read(m1, sgn64(p), 8) {
            Some(v) => {
                let vi = sgn64(v);
                if vi > m1.capacity() {
                    match assoc_find(m1.rfns, vi) {
                        Some(f) => s_host(m1, f),
                        None => s_throw(m1, 2),
                    }
                } else if !(0 <= vi <= m1.end) {
                    segfault(m1)
                } else {
                    match st_push(m1, 8, m1.ep as nat) {
                        Some(m2) => Step::Next(MState { ep: vi, ..m2 }),
                        None => segfault(m1),
                    }
                }
            },
            None => segfault(m1),
        },
        None => segfault(m),
    }
}

/// `dock`: read a table name at the operand address, mint a rabbit handle
/// for the registered table of that name, and push the handle. An unknown
/// name throws code 3; an exhausted counter throws code 4.
pub open spec fn sp_dock(m: MState) -> Step {
    match s_fetch(m, 8) {
        Some((m1, a)) => match s_tr(m1, sgn64(a)) {
            Some(p) => match s_cstr(m1, p) {
                Some(name) => match assoc_idx(m1.hosts, name) {
                    Some(i) => if m1.rabbit_top >= i64::MAX {
                        s_throw(m1, 4)
                    } else {
                        let h = m1.rabbit_top + 1;
                        let m2 = MState {
                            rabbit_top: h,
                            robjs: m1.robjs.push((h, i)),
                            ..m1
                        };
                        match st_push(m2, 8, h as nat) {
                            Some(m3) => Step::Next(m3),
                            None => segfault(m2),
                        }
                    },
                    None => s_throw(m1, 3),
                },
                None => Step::Fail(m1, InvokeErr::StringProcessingError),
            },
            None => segfault(m1),
        },
        None => segfault(m),
    }
}

/// `loadfun`: pop a docked table's handle, read a symbol name at the
/// operand address, and mint a handle for the callable of that name.
pub open spec fn sp_loadfun(m: MState) -> Step {
    match s_fetch(m, 8) {
        Some((m1, a)) => match st_pop(m1, 8) {
            Some((m2, hv)) => match s_tr(m2, sgn64(a)) {
                Some(p) => match s_cstr(m2, p) {
                    Some(name) => match assoc_find(m2.robjs, sgn64(hv)) {
                        Some(ti) => match assoc_find(m2.hosts[ti].1, name) {
                            Some(f) => if m2.rabbit_top >= i64::MAX {
                                s_throw(m2, 4)
                            } else {
                                let h = m2.rabbit_top + 1;
                                let m3 = MState {
                                    rabbit_top: h,
                                    rfns: m2.rfns.push((h, f)),
                                    ..m2
                                };
                                match st_push(m3, 8, h as nat) {
                                    Some(m4) => Step::Next(m4),
                                    None => segfault(m3),
                                }
                            },
                            None => s_throw(m2, 3),
                        },
                        None => s_throw(m2, 3),
                    },
                    None => Step::Fail(m2, InvokeErr::StringProcessingError),
                },
                None => segfault(m2),
            },
            None => segfault(m1),
        },
        None => segfault(m),
    }
}

/// `throw`: fetch the 8-bit error code and throw it.
pub open spec fn sp_throw(m: MState) -> Step {
    match s_fetch(m, 1) {
        Some((m1, c)) => s_throw(m1, c as u8),
        None => segfault(m),
    }
}

/// `checkerr` once its target is in hand: pop the saved stack-break
/// marker back into the machine, then, if the previous instruction left
/// an error code, re-arm it and jump to the handler.
pub open spec fn s_checkerr(m1: MState, olde: u8, ti: int) -> Step {
    match st_pop(m1, 8) {
        Some((m2, ss)) => match st_pop(m2, 8) {
            Some((m3, se)) => {
                let m4 = MState { sbm_stack: sgn64(ss), sbm_exec: sgn64(se), ..m3 };
                if olde != 0 {
                    if 0 <= ti <= m4.end {
                        Step::Next(MState { errcode: olde, ep: ti, ..m4 })
                    } else {
                        segfault(MState { errcode: olde, ..m4 })
                    }
                } else {
                    Step::Next(m4)
                }
            },
            None => segfault(m2),
        },
        None => segfault(m1),
    }
}

/// `checkerr`: fetch the handler target and run the marker restore.
pub open spec fn sp_checkerr(m: MState, olde: u8) -> Step {
    match s_fetch(m, 8) {
        Some((m1, t)) => s_checkerr(m1, olde, sgn64(t)),
        None => segfault(m),
    }
}

/// `geterr`: push the last thrown error code as one byte.
pub open spec fn sp_geterr(m: MState, olde: u8) -> Step {
    match st_push(m, 1, olde as nat) {
        Some(m1) => Step::Next(m1),
        None => segfault(m),
    }
}

/// `exit`: terminate the invocation with the signed operand as its value.
pub open spec fn sp_exit(m: MState) -> Step {
    match s_fetch(m, 8) {
        Some((m1, v)) => Step::Done(m1, InvokeResult::Value(sgn64(v) as i64)),
        None => segfault(m),
    }
}

/// `setsbm`: push the previous stack-break marker (stack half on top) and
/// arm a new one that skips the 9-byte call instruction that follows.
pub open spec fn sp_setsbm(m: MState) -> Step {
    match st_push(m, 8, u64_of(m.sbm_exec)) {
        Some(m1) => match st_push(m1, 8, u64_of(m.sbm_stack)) {
            Some(m2) => Step::Next(
                MState { sbm_stack: m.sp, sbm_exec: m.ep + 9, ..m2 },
            ),
            None => segfault(m1),
        },
        None => segfault(m),
    }
}

/// The width encoded by an opcode's offset within its family: L, I, S, B.
pub open spec fn decode_w(k: int) -> nat {
    if k == 0 {
        8
    } else if k == 1 {
        4
    } else if k == 2 {
        2
    } else {
        1
    }
}

/// True for the opcode bytes the machine defines.
pub open spec fn is_opcode(op: u8) -> bool {
    op <= 74
}

/// Decode and run one instruction: fetch the opcode byte, clear the error
/// code (remembering it for `checkerr` and `geterr`), and dispatch.
pub open spec fn step(m: MState) -> Step {
    if !(0 <= m.ep && m.ep < m.end) {
        segfault(m)
    } else {
        let op = m.mem[m.ep] as int;
        let olde = m.errcode;
        let m0 = MState { ep: m.ep + 1, errcode: 0, ..m };
        if op < 4 {
            sp_pushv(m0, decode_w(op))
        } else if op < 8 {
            sp_push(m0, decode_w(op - 4))
        } else if op < 12 {
            sp_swap(m0, decode_w(op - 8))
        } else if op < 16 {
            sp_cpy(m0, decode_w(op - 12))
        } else if op < 20 {
            sp_cpyv(m0, decode_w(op - 16))
        } else if op < 24 {
            sp_pop(m0, decode_w(op - 20))
        } else if op < 28 {
            sp_popm(m0, decode_w(op - 24))
        } else if op < 32 {
            sp_arith(m0, decode_w(op - 28), ArithOp::Add)
        } else if op < 36 {
            sp_arith(m0, decode_w(op - 32), ArithOp::Sub)
        } else if op < 40 {
            sp_arith(m0, decode_w(op - 36), ArithOp::Mul)
        } else if op < 44 {
            sp_arith(m0, decode_w(op - 40), ArithOp::Div)
        } else if op < 48 {
            sp_cmp(m0, decode_w(op - 44), false)
        } else if op < 52 {
            sp_cmp(m0, decode_w(op - 48), true)
        } else if op == 52 {
            sp_bnot(m0)
        } else if op == 53 {
            sp_not(m0)
        } else if op == 54 {
            sp_bbin(m0, true, false)
        } else if op == 55 {
            sp_bbin(m0, true, true)
        } else if op == 56 {
            sp_bbin(m0, false, false)
        } else if op == 57 {
            sp_bbin(m0, false, true)
        } else if op < 62 {
            sp_shift(m0, decode_w(op - 58))
        } else if op == 62 {
            sp_bnorm(m0)
        } else if op == 63 {
            sp_jmp(m0)
        } else if op == 64 {
            sp_branch(m0)
        } else if op == 65 {
            sp_call(m0)
        } else if op == 66 {
            sp_ret(m0)
        } else if op == 67 {
            sp_invokevirtual(m0)
        } else if op == 68 {
            sp_dock(m0)
        } else if op == 69 {
            sp_loadfun(m0)
        } else if op == 70 {
            sp_throw(m0)
        } else if op == 71 {
            sp_checkerr(m0, olde)
        } else if op == 72 {
            sp_geterr(m0, olde)
        } else if op == 73 {
            sp_exit(m0)
        } else if op == 74 {
            sp_setsbm(m0)
        } else {
            Step::Fail(m0, InvokeErr::BadInstruction)
        }
    }
}

/// Up to `n` iterated steps from `m`; a terminal outcome is sticky.
pub open spec fn stepn(m: MState, n: nat) -> Step
    decreases n,
{
    if n == 0 {
        Step::Next(m)
    } else {
        match step(m) {
            Step::Next(m2) => stepn(m2, (n - 1) as nat),
            terminal => terminal,
        }
    }
}

/// A run that reached `c` after `n` steps continues with `step(c)`.
pub proof fn lemma_stepn_snoc(m: MState, n: nat)
    requires
        stepn(m, n) is Next,
    ensures
        stepn(m, n + 1) == step(stepn(m, n)->Next_0),
    decreases n,
{
    if n == 0 {
        match step(m) {
            Step::Next(m2) => {
                assert(stepn(m2, 0) == Step::Next(m2));
                assert(stepn(m, 1) == step(m));
            },
            _ => {},
        }
    } else {
        match step(m) {
            Step::Next(m2) => {
                lemma_stepn_snoc(m2, (n - 1) as nat);
            },
            _ => {},
        }
    }
}

/// The state from which `invoke(at)` starts running `m`'s program.
pub open spec fn invoke_start(m: MState, at: int) -> MState {
    MState { ep: at, sp: m.stack_start, ..m }
}

/// How the interpreter's loop reports one instruction's outcome.
pub enum Flow {
    /// Keep running.
    Cont,
    /// Terminate the invocation with this result.
    Halt(InvokeResult),
}

/// The step described by an interpreter outcome in state `m`.
pub open spec fn flow_step(m: MState, r: Result<Flow, InvokeErr>) -> Step {
    match r {
        Ok(Flow::Cont) => Step::Next(m),
        Ok(Flow::Halt(v)) => Step::Done(m, v),
        Err(e) => Step::Fail(m, e),
    }
}

/// The step claimed by `invoke`'s result in final state `m`.
pub open spec fn final_step(m: MState, r: Result<InvokeResult, InvokeErr>) -> Step {
    match r {
        Ok(v) => Step::Done(m, v),
        Err(e) => Step::Fail(m, e),
    }
}

} // verus!
