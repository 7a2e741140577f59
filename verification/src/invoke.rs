//! The interpreter: one verified handler per instruction family, each
//! proved equal to its small-step specification, and the dispatch loop
//! that drives a whole invocation.

use vstd::prelude::*;
use crate::error::{InvokeErr, InvokeResult, MemoryErr};
use crate::hosts::{lemma_assoc_idx, ExtData, HostFn};
use crate::machine::Machine;
use crate::sem::{
    arith, flow_step, invoke_start, final_step, s_host, s_throw, sp_arith, sp_bbin, sp_bnorm,
    sp_bnot, sp_branch, sp_call, sp_checkerr, sp_cmp, sp_cpy, sp_cpyv, sp_dock, sp_exit,
    sp_geterr, sp_invokevirtual, sp_jmp, sp_loadfun, sp_not, sp_pop, sp_popm, sp_push, sp_pushv,
    sp_ret, sp_setsbm, sp_shift, sp_swap, sp_throw, step, stepn, lemma_stepn_snoc, ArithOp,
    Flow, MState, Step,
};
use crate::word::{pow2_128, to_signed, to_signed8, from_signed, valid_width};
use vstd::arithmetic::div_mod::{
    lemma_basic_div, lemma_mod_multiples_basic, lemma_mod_multiples_vanish,
};
use vstd::arithmetic::mul::lemma_mul_is_associative;
use vstd::arithmetic::power2::{
    lemma2_to64, lemma2_to64_rest, lemma_pow2_adds, lemma_pow2_pos,
    lemma_pow2_strictly_increases, pow2,
};

verus! {

/// Width-`w` wrapping arithmetic on naive values.
fn arith_exec(op: ArithOp, v1: u64, v2: u64, w: usize) -> (r: u64)
    requires
        1 <= w <= 8,
        (v1 as nat) < pow2(8 * w as nat),
        (v2 as nat) < pow2(8 * w as nat),
        op is Div ==> v2 != 0,
    ensures
        r as nat == arith(op, v1 as nat, v2 as nat, w as nat),
{
    let m128 = pow2_128(8 * w);
    proof {
        lemma_pow2_pos((8 * w) as nat);
        lemma2_to64();
        lemma2_to64_rest();
        if 8 * w < 64 {
            lemma_pow2_strictly_increases((8 * w) as nat, 64);
        }
    }
    match op {
        ArithOp::Add => {
            let x = (v1 as u128) + (v2 as u128);
            proof {
                assert((x as int) % (m128 as int) >= 0 && (x as int) % (m128 as int)
                    < m128 as int) by (nonlinear_arith)
                    requires
                        x >= 0,
                        m128 > 0,
                ;
            }
            (x % m128) as u64
        },
        ArithOp::Sub => {
            let x = (v1 as u128) + m128 - (v2 as u128);
            proof {
                assert((x as int) % (m128 as int) >= 0 && (x as int) % (m128 as int)
                    < m128 as int) by (nonlinear_arith)
                    requires
                        x >= 0,
                        m128 > 0,
                ;
                lemma_mod_multiples_vanish(1, v1 as int - v2 as int, m128 as int);
            }
            (x % m128) as u64
        },
        ArithOp::Mul => {
            proof {
                assert((v1 as u128) * (v2 as u128) <= 0xFFFFFFFFFFFFFFFFu128
                    * 0xFFFFFFFFFFFFFFFFu128) by (nonlinear_arith)
                    requires
                        (v1 as u128) <= 0xFFFFFFFFFFFFFFFFu128,
                        (v2 as u128) <= 0xFFFFFFFFFFFFFFFFu128,
                ;
            }
            let x = (v1 as u128) * (v2 as u128);
            proof {
                assert((x as int) % (m128 as int) >= 0 && (x as int) % (m128 as int)
                    < m128 as int) by (nonlinear_arith)
                    requires
                        x >= 0,
                        m128 > 0,
                ;
            }
            (x % m128) as u64
        },
        ArithOp::Div => v1 / v2,
    }
}

/// Left shift of a width-`w` word by `k`, wrapping modulo the width.
fn shl_exec(v: u64, k: usize, w: usize) -> (r: u64)
    requires
        1 <= w <= 8,
        (v as nat) < pow2(8 * w as nat),
        1 <= k <= 128,
    ensures
        r as nat == (v as nat * pow2(k as nat)) % pow2(8 * w as nat),
{
    proof {
        lemma_pow2_pos((8 * w) as nat);
    }
    if k >= 8 * w {
        proof {
            let b = (8 * w) as nat;
            let e = (k - 8 * w) as nat;
            lemma_pow2_pos(e);
            lemma_pow2_adds(e, b);
            lemma_mul_is_associative(v as int, pow2(e) as int, pow2(b) as int);
            lemma_mod_multiples_basic((v as nat * pow2(e)) as int, pow2(b) as int);
        }
        0
    } else {
        let m128 = pow2_128(8 * w);
        let p = pow2_128(k);
        proof {
            lemma2_to64();
            lemma2_to64_rest();
            if 8 * w < 64 {
                lemma_pow2_strictly_increases((8 * w) as nat, 64);
            }
            lemma_pow2_strictly_increases(k as nat, 64);
            assert((v as u128) * p <= 0xFFFFFFFFFFFFFFFFu128 * 0x10000000000000000u128
                && (v as u128) * p >= 0) by (nonlinear_arith)
                requires
                    (v as u128) <= 0xFFFFFFFFFFFFFFFFu128,
                    p <= 0x10000000000000000u128,
            ;
        }
        let x = (v as u128) * p;
        proof {
            assert((x as int) % (m128 as int) >= 0 && (x as int) % (m128 as int)
                < m128 as int) by (nonlinear_arith)
                requires
                    x >= 0,
                    m128 > 0,
            ;
        }
        (x % m128) as u64
    }
}

/// Logical right shift of a width-`w` word by `k`.
fn shr_exec(v: u64, k: usize, w: usize) -> (r: u64)
    requires
        1 <= w <= 8,
        (v as nat) < pow2(8 * w as nat),
        1 <= k <= 128,
    ensures
        r as nat == (v as nat) / pow2(k as nat),
{
    if k >= 8 * w {
        proof {
            if 8 * w < k {
                lemma_pow2_strictly_increases((8 * w) as nat, k as nat);
            }
            lemma_pow2_pos(k as nat);
            lemma_basic_div(v as int, pow2(k as nat) as int);
        }
        0
    } else {
        proof {
            lemma2_to64();
            lemma2_to64_rest();
            lemma_pow2_pos(k as nat);
            lemma_pow2_strictly_increases(k as nat, 64);
        }
        let p = pow2_128(k) as u64;
        v / p
    }
}

impl Machine {
    /// `pushv`: push an immediate `w`-byte constant.
    fn op_pushv(&mut self, w: usize) -> (r: Result<Flow, InvokeErr>)
        requires
            old(self)@.inv(),
            valid_width(w as nat),
        ensures
            final(self)@.inv(),
            sp_pushv(old(self)@, w as nat) == flow_step(final(self)@, r),
    {
        let v = match self.fetch(w) {
            Ok(v) => v,
            Err(e) => {
                return Err(InvokeErr::MemErr(e));
            },
        };
        match self.push_w(w, v) {
            Ok(()) => Ok(Flow::Cont),
            Err(e) => Err(InvokeErr::MemErr(e)),
        }
    }

    /// `push`: read a `w`-byte word at a memory address and push it.
    fn op_push(&mut self, w: usize) -> (r: Result<Flow, InvokeErr>)
        requires
            old(self)@.inv(),
            valid_width(w as nat),
        ensures
            final(self)@.inv(),
            sp_push(old(self)@, w as nat) == flow_step(final(self)@, r),
    {
        let a = match self.fetch(8) {
            Ok(v) => v,
            Err(e) => {
                return Err(InvokeErr::MemErr(e));
            },
        };
        let v = match self.read(to_signed(a), w) {
            Ok(v) => v,
            Err(e) => {
                return Err(InvokeErr::MemErr(e));
            },
        };
        match self.push_w(w, v) {
            Ok(()) => Ok(Flow::Cont),
            Err(e) => Err(InvokeErr::MemErr(e)),
        }
    }

    /// `swap`: exchange the `w`-byte words at two addresses.
    fn op_swap(&mut self, w: usize) -> (r: Result<Flow, InvokeErr>)
        requires
            old(self)@.inv(),
            valid_width(w as nat),
        ensures
            final(self)@.inv(),
            sp_swap(old(self)@, w as nat) == flow_step(final(self)@, r),
    {
        let a = match self.fetch(8) {
            Ok(v) => v,
            Err(e) => {
                return Err(InvokeErr::MemErr(e));
            },
        };
        let b = match self.fetch(8) {
            Ok(v) => v,
            Err(e) => {
                return Err(InvokeErr::MemErr(e));
            },
        };
        match self.swap(to_signed(a), to_signed(b), w) {
            Ok(()) => Ok(Flow::Cont),
            Err(e) => Err(InvokeErr::MemErr(e)),
        }
    }

    /// `cpy`: copy the `w`-byte word at `src` to `dst`.
    fn op_cpy(&mut self, w: usize) -> (r: Result<Flow, InvokeErr>)
        requires
            old(self)@.inv(),
            valid_width(w as nat),
        ensures
            final(self)@.inv(),
            sp_cpy(old(self)@, w as nat) == flow_step(final(self)@, r),
    {
        let a = match self.fetch(8) {
            Ok(v) => v,
            Err(e) => {
                return Err(InvokeErr::MemErr(e));
            },
        };
        let b = match self.fetch(8) {
            Ok(v) => v,
            Err(e) => {
                return Err(InvokeErr::MemErr(e));
            },
        };
        let v = match self.read(to_signed(a), w) {
            Ok(v) => v,
            Err(e) => {
                return Err(InvokeErr::MemErr(e));
            },
        };
        match self.write(to_signed(b), w, v) {
            Ok(()) => Ok(Flow::Cont),
            Err(e) => Err(InvokeErr::MemErr(e)),
        }
    }

    /// `cpyv`: write an immediate `w`-byte constant at an address.
    fn op_cpyv(&mut self, w: usize) -> (r: Result<Flow, InvokeErr>)
        requires
            old(self)@.inv(),
            valid_width(w as nat),
        ensures
            final(self)@.inv(),
            sp_cpyv(old(self)@, w as nat) == flow_step(final(self)@, r),
    {
        let a = match self.fetch(8) {
            Ok(v) => v,
            Err(e) => {
                return Err(InvokeErr::MemErr(e));
            },
        };
        let v = match self.fetch(w) {
            Ok(v) => v,
            Err(e) => {
                return Err(InvokeErr::MemErr(e));
            },
        };
        match self.write(to_signed(a), w, v) {
            Ok(()) => Ok(Flow::Cont),
            Err(e) => Err(InvokeErr::MemErr(e)),
        }
    }

    /// `pop`: drop `w` bytes from the stack.
    fn op_pop(&mut self, w: usize) -> (r: Result<Flow, InvokeErr>)
        requires
            old(self)@.inv(),
            valid_width(w as nat),
        ensures
            final(self)@.inv(),
            sp_pop(old(self)@, w as nat) == flow_step(final(self)@, r),
    {
        match self.pop_w(w) {
            Ok(_v) => Ok(Flow::Cont),
            Err(e) => Err(InvokeErr::MemErr(e)),
        }
    }

    /// `popm`: pop a `w`-byte word and write it at an address.
    fn op_popm(&mut self, w: usize) -> (r: Result<Flow, InvokeErr>)
        requires
            old(self)@.inv(),
            valid_width(w as nat),
        ensures
            final(self)@.inv(),
            sp_popm(old(self)@, w as nat) == flow_step(final(self)@, r),
    {
        let v = match self.pop_w(w) {
            Ok(v) => v,
            Err(e) => {
                return Err(InvokeErr::MemErr(e));
            },
        };
        let a = match self.fetch(8) {
            Ok(v) => v,
            Err(e) => {
                return Err(InvokeErr::MemErr(e));
            },
        };
        match self.write(to_signed(a), w, v) {
            Ok(()) => Ok(Flow::Cont),
            Err(e) => Err(InvokeErr::MemErr(e)),
        }
    }

    /// `add`/`sub`/`mul`/`div`: combine the words at two addresses,
    /// overwriting the first.
    fn op_arith(&mut self, w: usize, op: ArithOp) -> (r: Result<Flow, InvokeErr>)
        requires
            old(self)@.inv(),
            valid_width(w as nat),
        ensures
            final(self)@.inv(),
            sp_arith(old(self)@, w as nat, op) == flow_step(final(self)@, r),
    {
        let a = match self.fetch(8) {
            Ok(v) => v,
            Err(e) => {
                return Err(InvokeErr::MemErr(e));
            },
        };
        let b = match self.fetch(8) {
            Ok(v) => v,
            Err(e) => {
                return Err(InvokeErr::MemErr(e));
            },
        };
        let v1 = match self.read(to_signed(a), w) {
            Ok(v) => v,
            Err(e) => {
                return Err(InvokeErr::MemErr(e));
            },
        };
        let v2 = match self.read(to_signed(b), w) {
            Ok(v) => v,
            Err(e) => {
                return Err(InvokeErr::MemErr(e));
            },
        };
        if matches!(op, ArithOp::Div) && v2 == 0 {
            return Err(InvokeErr::DivideByZero);
        }
        let val = arith_exec(op, v1, v2, w);
        match self.write(to_signed(a), w, val) {
            Ok(()) => Ok(Flow::Cont),
            Err(e) => Err(InvokeErr::MemErr(e)),
        }
    }

    /// `cmp`/`cmpv`: compare two width-`w` words, pushing one byte.
    fn op_cmp(&mut self, w: usize, imm: bool) -> (r: Result<Flow, InvokeErr>)
        requires
            old(self)@.inv(),
            valid_width(w as nat),
        ensures
            final(self)@.inv(),
            sp_cmp(old(self)@, w as nat, imm) == flow_step(final(self)@, r),
    {
        let a = match self.fetch(8) {
            Ok(v) => v,
            Err(e) => {
                return Err(InvokeErr::MemErr(e));
            },
        };
        let v2 = if imm {
            match self.fetch(w) {
                Ok(v) => v,
                Err(e) => {
                    return Err(InvokeErr::MemErr(e));
                },
            }
        } else {
            let b = match self.fetch(8) {
                Ok(v) => v,
                Err(e) => {
                    return Err(InvokeErr::MemErr(e));
                },
            };
            match self.read(to_signed(b), w) {
                Ok(v) => v,
                Err(e) => {
                    return Err(InvokeErr::MemErr(e));
                },
            }
        };
        let v1 = match self.read(to_signed(a), w) {
            Ok(v) => v,
            Err(e) => {
                return Err(InvokeErr::MemErr(e));
            },
        };
        let c: u64 = if v1 == v2 {
            0
        } else if v1 > v2 {
            1
        } else {
            2
        };
        match self.push_w(1, c) {
            Ok(()) => Ok(Flow::Cont),
            Err(e) => Err(InvokeErr::MemErr(e)),
        }
    }

    /// `bnot`: flip all bits of the byte at an address.
    fn op_bnot(&mut self) -> (r: Result<Flow, InvokeErr>)
        requires
            old(self)@.inv(),
        ensures
            final(self)@.inv(),
            sp_bnot(old(self)@) == flow_step(final(self)@, r),
    {
        let a = match self.fetch(8) {
            Ok(v) => v,
            Err(e) => {
                return Err(InvokeErr::MemErr(e));
            },
        };
        let v = match self.read(to_signed(a), 1) {
            Ok(v) => v,
            Err(e) => {
                return Err(InvokeErr::MemErr(e));
            },
        };
        proof {
            lemma2_to64();
        }
        match self.write(to_signed(a), 1, 255 - v) {
            Ok(()) => Ok(Flow::Cont),
            Err(e) => Err(InvokeErr::MemErr(e)),
        }
    }

    /// `not`: logically negate the byte at an address.
    fn op_not(&mut self) -> (r: Result<Flow, InvokeErr>)
        requires
            old(self)@.inv(),
        ensures
            final(self)@.inv(),
            sp_not(old(self)@) == flow_step(final(self)@, r),
    {
        let a = match self.fetch(8) {
            Ok(v) => v,
            Err(e) => {
                return Err(InvokeErr::MemErr(e));
            },
        };
        let v = match self.read(to_signed(a), 1) {
            Ok(v) => v,
            Err(e) => {
                return Err(InvokeErr::MemErr(e));
            },
        };
        let out: u64 = if v == 0 {
            1
        } else {
            0
        };
        match self.write(to_signed(a), 1, out) {
            Ok(()) => Ok(Flow::Cont),
            Err(e) => Err(InvokeErr::MemErr(e)),
        }
    }

    /// `bor`/`vor`/`band`/`vand`: OR or AND two bytes, overwriting the
    /// first.
    fn op_bbin(&mut self, is_or: bool, imm: bool) -> (r: Result<Flow, InvokeErr>)
        requires
            old(self)@.inv(),
        ensures
            final(self)@.inv(),
            sp_bbin(old(self)@, is_or, imm) == flow_step(final(self)@, r),
    {
        let a = match self.fetch(8) {
            Ok(v) => v,
            Err(e) => {
                return Err(InvokeErr::MemErr(e));
            },
        };
        let v1 = match self.read(to_signed(a), 1) {
            Ok(v) => v,
            Err(e) => {
                return Err(InvokeErr::MemErr(e));
            },
        };
        let v2 = if imm {
            match self.fetch(1) {
                Ok(v) => v,
                Err(e) => {
                    return Err(InvokeErr::MemErr(e));
                },
            }
        } else {
            let b = match self.fetch(8) {
                Ok(v) => v,
                Err(e) => {
                    return Err(InvokeErr::MemErr(e));
                },
            };
            match self.read(to_signed(b), 1) {
                Ok(v) => v,
                Err(e) => {
                    return Err(InvokeErr::MemErr(e));
                },
            }
        };
        proof {
            lemma2_to64();
        }
        let out: u64 = if is_or {
            (((v1 as u8) | (v2 as u8)) as u64)
        } else {
            (((v1 as u8) & (v2 as u8)) as u64)
        };
        match self.write(to_signed(a), 1, out) {
            Ok(()) => Ok(Flow::Cont),
            Err(e) => Err(InvokeErr::MemErr(e)),
        }
    }

    /// `bnorm`: normalise the byte at an address to 0 or 1.
    fn op_bnorm(&mut self) -> (r: Result<Flow, InvokeErr>)
        requires
            old(self)@.inv(),
        ensures
            final(self)@.inv(),
            sp_bnorm(old(self)@) == flow_step(final(self)@, r),
    {
        let a = match self.fetch(8) {
            Ok(v) => v,
            Err(e) => {
                return Err(InvokeErr::MemErr(e));
            },
        };
        let v = match self.read(to_signed(a), 1) {
            Ok(v) => v,
            Err(e) => {
                return Err(InvokeErr::MemErr(e));
            },
        };
        let out: u64 = if v == 0 {
            0
        } else {
            1
        };
        match self.write(to_signed(a), 1, out) {
            Ok(()) => Ok(Flow::Cont),
            Err(e) => Err(InvokeErr::MemErr(e)),
        }
    }

    /// `jmp`: add a signed 64-bit displacement to the execution pointer.
    fn op_jmp(&mut self) -> (r: Result<Flow, InvokeErr>)
        requires
            old(self)@.inv(),
        ensures
            final(self)@.inv(),
            sp_jmp(old(self)@) == flow_step(final(self)@, r),
    {
        let d = match self.fetch(8) {
            Ok(v) => v,
            Err(e) => {
                return Err(InvokeErr::MemErr(e));
            },
        };
        let t = (self.exec_ptr() as i128) + (to_signed(d) as i128);
        if t < 0 || t > (self.end() as i128) {
            return Err(InvokeErr::MemErr(MemoryErr::SegmentationFault));
        }
        self.set_exec_ptr(t as i64);
        Ok(Flow::Cont)
    }

    /// `branch`: pop one byte; if it is zero, jump to the operand address.
    fn op_branch(&mut self) -> (r: Result<Flow, InvokeErr>)
        requires
            old(self)@.inv(),
        ensures
            final(self)@.inv(),
            sp_branch(old(self)@) == flow_step(final(self)@, r),
    {
        let t = match self.fetch(8) {
            Ok(v) => v,
            Err(e) => {
                return Err(InvokeErr::MemErr(e));
            },
        };
        let v = match self.pop_w(1) {
            Ok(v) => v,
            Err(e) => {
                return Err(InvokeErr::MemErr(e));
            },
        };
        if v != 0 {
            return Ok(Flow::Cont);
        }
        let ti = to_signed(t);
        if ti < 0 || ti > self.end() {
            return Err(InvokeErr::MemErr(MemoryErr::SegmentationFault));
        }
        self.set_exec_ptr(ti);
        Ok(Flow::Cont)
    }

    /// `call`: push the return address and jump to the operand address.
    fn op_call(&mut self) -> (r: Result<Flow, InvokeErr>)
        requires
            old(self)@.inv(),
        ensures
            final(self)@.inv(),
            sp_call(old(self)@) == flow_step(final(self)@, r),
    {
        let t = match self.fetch(8) {
            Ok(v) => v,
            Err(e) => {
                return Err(InvokeErr::MemErr(e));
            },
        };
        let ti = to_signed(t);
        if ti < 0 || ti > self.end() {
            return Err(InvokeErr::MemErr(MemoryErr::SegmentationFault));
        }
        let ra = self.exec_ptr();
        match self.push_w(8, ra as u64) {
            Ok(()) => {
                self.set_exec_ptr(ti);
                Ok(Flow::Cont)
            },
            Err(e) => Err(InvokeErr::MemErr(e)),
        }
    }

    /// `ret`: pop an L-word return address and jump to it.
    fn op_ret(&mut self) -> (r: Result<Flow, InvokeErr>)
        requires
            old(self)@.inv(),
        ensures
            final(self)@.inv(),
            sp_ret(old(self)@) == flow_step(final(self)@, r),
    {
        let v = match self.pop_w(8) {
            Ok(v) => v,
            Err(e) => {
                return Err(InvokeErr::MemErr(e));
            },
        };
        let ti = to_signed(v);
        if ti < 0 || ti > self.end() {
            return Err(InvokeErr::MemErr(MemoryErr::SegmentationFault));
        }
        self.set_exec_ptr(ti);
        Ok(Flow::Cont)
    }

    /// `throw` once its code is in hand: record the code, then rewind to
    /// the stack-break marker, or abort on the `(0, 0)` sentinel.
    pub(crate) fn throw(&mut self, code: u8) -> (r: Result<Flow, InvokeErr>)
        requires
            old(self)@.inv(),
        ensures
            final(self)@.inv(),
            s_throw(old(self)@, code) == flow_step(final(self)@, r),
    {
        self.set_err_code(code);
        let (ss, se) = self.sbm();
        if ss == 0 && se == 0 {
            return Err(InvokeErr::UncaughtThrow(code));
        }
        let e = self.end();
        if ss < 0 || se < 0 || se > e || ss > e - 16 {
            return Err(InvokeErr::MemErr(MemoryErr::SegmentationFault));
        }
        self.set_stack_ptr(ss + 16);
        self.set_exec_ptr(se);
        Ok(Flow::Cont)
    }

    /// `throw`: fetch the 8-bit error code and throw it.
    fn op_throw(&mut self) -> (r: Result<Flow, InvokeErr>)
        requires
            old(self)@.inv(),
        ensures
            final(self)@.inv(),
            sp_throw(old(self)@) == flow_step(final(self)@, r),
    {
        let c = match self.fetch(1) {
            Ok(v) => v,
            Err(e) => {
                return Err(InvokeErr::MemErr(e));
            },
        };
        proof {
            lemma2_to64();
        }
        self.throw(c as u8)
    }

    /// `checkerr`: pop the saved stack-break marker back into the
    /// machine, then jump to the handler if an error code is pending.
    fn op_checkerr(&mut self, olde: u8) -> (r: Result<Flow, InvokeErr>)
        requires
            old(self)@.inv(),
        ensures
            final(self)@.inv(),
            sp_checkerr(old(self)@, olde) == flow_step(final(self)@, r),
    {
        let t = match self.fetch(8) {
            Ok(v) => v,
            Err(e) => {
                return Err(InvokeErr::MemErr(e));
            },
        };
        let ss = match self.pop_w(8) {
            Ok(v) => v,
            Err(e) => {
                return Err(InvokeErr::MemErr(e));
            },
        };
        let se = match self.pop_w(8) {
            Ok(v) => v,
            Err(e) => {
                return Err(InvokeErr::MemErr(e));
            },
        };
        self.set_sbm(to_signed(ss), to_signed(se));
        if olde != 0 {
            self.set_err_code(olde);
            let ti = to_signed(t);
            if ti < 0 || ti > self.end() {
                return Err(InvokeErr::MemErr(MemoryErr::SegmentationFault));
            }
            self.set_exec_ptr(ti);
        }
        Ok(Flow::Cont)
    }

    /// `geterr`: push the last thrown error code as one byte.
    fn op_geterr(&mut self, olde: u8) -> (r: Result<Flow, InvokeErr>)
        requires
            old(self)@.inv(),
        ensures
            final(self)@.inv(),
            sp_geterr(old(self)@, olde) == flow_step(final(self)@, r),
    {
        match self.push_w(1, olde as u64) {
            Ok(()) => Ok(Flow::Cont),
            Err(e) => Err(InvokeErr::MemErr(e)),
        }
    }

    /// `exit`: terminate the invocation with the signed operand.
    fn op_exit(&mut self) -> (r: Result<Flow, InvokeErr>)
        requires
            old(self)@.inv(),
        ensures
            final(self)@.inv(),
            sp_exit(old(self)@) == flow_step(final(self)@, r),
    {
        let v = match self.fetch(8) {
            Ok(v) => v,
            Err(e) => {
                return Err(InvokeErr::MemErr(e));
            },
        };
        Ok(Flow::Halt(InvokeResult::Value(to_signed(v))))
    }

    /// `setsbm`: push the previous stack-break marker (stack half on top)
    /// and arm a new one that skips the 9-byte call that follows.
    fn op_setsbm(&mut self) -> (r: Result<Flow, InvokeErr>)
        requires
            old(self)@.inv(),
        ensures
            final(self)@.inv(),
            sp_setsbm(old(self)@) == flow_step(final(self)@, r),
    {
        let (ss, se) = self.sbm();
        let sp0 = self.stack_ptr();
        let ep0 = self.exec_ptr();
        match self.push_w(8, from_signed(se)) {
            Ok(()) => {},
            Err(e) => {
                return Err(InvokeErr::MemErr(e));
            },
        };
        match self.push_w(8, from_signed(ss)) {
            Ok(()) => {},
            Err(e) => {
                return Err(InvokeErr::MemErr(e));
            },
        };
        self.set_sbm(sp0, ep0 + 9);
        Ok(Flow::Cont)
    }

    /// Runs a bound host callable; the conformance callable terminates
    /// the invocation either way.
    fn host_call(&mut self, f: HostFn) -> (r: Result<Flow, InvokeErr>)
        requires
            old(self)@.inv(),
        ensures
            final(self)@.inv(),
            s_host(old(self)@, f) == flow_step(final(self)@, r),
    {
        match f {
            HostFn::StdabiTest => {
                let av = match self.pop_w(8) {
                    Ok(v) => v,
                    Err(e) => {
                        return Err(InvokeErr::MemErr(e));
                    },
                };
                let pos = match self.translate(to_signed(av)) {
                    Ok(p) => p,
                    Err(e) => {
                        return Err(InvokeErr::MemErr(e));
                    },
                };
                let s = match self.read_cstr(pos) {
                    Some(s) => s,
                    None => {
                        return Err(InvokeErr::StringProcessingError);
                    },
                };
                if crate::hosts::is_stdabi_magic(&s) {
                    Ok(Flow::Halt(InvokeResult::StdabiTestSuccess))
                } else {
                    Err(InvokeErr::StdabiTestFailure)
                }
            },
        }
    }

    /// `invokevirtual`: read an L-word through the operand address; a
    /// rabbit handle runs the bound callable, a code offset is called.
    fn op_invokevirtual(&mut self) -> (r: Result<Flow, InvokeErr>)
        requires
            old(self)@.inv(),
        ensures
            final(self)@.inv(),
            sp_invokevirtual(old(self)@) == flow_step(final(self)@, r),
    {
        let p = match self.fetch(8) {
            Ok(v) => v,
            Err(e) => {
                return Err(InvokeErr::MemErr(e));
            },
        };
        let v = match self.read(to_signed(p), 8) {
            Ok(v) => v,
            Err(e) => {
                return Err(InvokeErr::MemErr(e));
            },
        };
        let vi = to_signed(v);
        if vi > self.capacity() as i64 {
            match self.find_rfn(vi) {
                Some(f) => self.host_call(f),
                None => self.throw(2),
            }
        } else {
            if vi < 0 || vi > self.end() {
                return Err(InvokeErr::MemErr(MemoryErr::SegmentationFault));
            }
            let ra = self.exec_ptr();
            match self.push_w(8, ra as u64) {
                Ok(()) => {
                    self.set_exec_ptr(vi);
                    Ok(Flow::Cont)
                },
                Err(e) => Err(InvokeErr::MemErr(e)),
            }
        }
    }

    /// `dock`: bind the registered host table named at the operand
    /// address to a fresh rabbit handle and push the handle.
    fn op_dock(&mut self) -> (r: Result<Flow, InvokeErr>)
        requires
            old(self)@.inv(),
        ensures
            final(self)@.inv(),
            sp_dock(old(self)@) == flow_step(final(self)@, r),
    {
        let a = match self.fetch(8) {
            Ok(v) => v,
            Err(e) => {
                return Err(InvokeErr::MemErr(e));
            },
        };
        let pos = match self.translate(to_signed(a)) {
            Ok(p) => p,
            Err(e) => {
                return Err(InvokeErr::MemErr(e));
            },
        };
        let name = match self.read_cstr(pos) {
            Some(s) => s,
            None => {
                return Err(InvokeErr::StringProcessingError);
            },
        };
        let idx = match self.find_host(&name) {
            Some(i) => i,
            None => {
                return self.throw(3);
            },
        };
        proof {
            lemma_assoc_idx(self@.hosts, name@);
        }
        if self.rabbit_ceiling() >= i64::MAX {
            return self.throw(4);
        }
        let h = self.next_rabbit();
        self.bind_obj(h, idx);
        match self.push_w(8, h as u64) {
            Ok(()) => Ok(Flow::Cont),
            Err(e) => Err(InvokeErr::MemErr(e)),
        }
    }

    /// `loadfun`: pop a docked table's handle, look the symbol named at
    /// the operand address up in it, and push a handle for the callable.
    fn op_loadfun(&mut self) -> (r: Result<Flow, InvokeErr>)
        requires
            old(self)@.inv(),
        ensures
            final(self)@.inv(),
            sp_loadfun(old(self)@) == flow_step(final(self)@, r),
    {
        let a = match self.fetch(8) {
            Ok(v) => v,
            Err(e) => {
                return Err(InvokeErr::MemErr(e));
            },
        };
        let hv = match self.pop_w(8) {
            Ok(v) => v,
            Err(e) => {
                return Err(InvokeErr::MemErr(e));
            },
        };
        let pos = match self.translate(to_signed(a)) {
            Ok(p) => p,
            Err(e) => {
                return Err(InvokeErr::MemErr(e));
            },
        };
        let name = match self.read_cstr(pos) {
            Some(s) => s,
            None => {
                return Err(InvokeErr::StringProcessingError);
            },
        };
        let ti = match self.find_robj(to_signed(hv)) {
            Some(i) => i,
            None => {
                return self.throw(3);
            },
        };
        proof {
            lemma_assoc_idx(self@.robjs, crate::word::sgn64(hv as nat));
        }
        let fd = self.host_at(ti).lookup(&name);
        let f = match fd {
            Some(ExtData::Function(f)) => f,
            Some(ExtData::Table(_)) => unreached(),
            None => {
                return self.throw(3);
            },
        };
        if self.rabbit_ceiling() >= i64::MAX {
            return self.throw(4);
        }
        let h = self.next_rabbit();
        self.bind_fn(h, f);
        match self.push_w(8, h as u64) {
            Ok(()) => Ok(Flow::Cont),
            Err(e) => Err(InvokeErr::MemErr(e)),
        }
    }

    /// `shift`: shift the word at an address by a signed 8-bit amount.
    fn op_shift(&mut self, w: usize) -> (r: Result<Flow, InvokeErr>)
        requires
            old(self)@.inv(),
            valid_width(w as nat),
        ensures
            final(self)@.inv(),
            sp_shift(old(self)@, w as nat) == flow_step(final(self)@, r),
    {
        let a = match self.fetch(8) {
            Ok(v) => v,
            Err(e) => {
                return Err(InvokeErr::MemErr(e));
            },
        };
        let v = match self.read(to_signed(a), w) {
            Ok(v) => v,
            Err(e) => {
                return Err(InvokeErr::MemErr(e));
            },
        };
        let av = match self.fetch(1) {
            Ok(v) => v,
            Err(e) => {
                return Err(InvokeErr::MemErr(e));
            },
        };
        proof {
            lemma2_to64();
        }
        let amt = to_signed8(av);
        if amt == 0 {
            return Ok(Flow::Cont);
        }
        let val = if amt < 0 {
            shl_exec(v, (-amt) as usize, w)
        } else {
            shr_exec(v, amt as usize, w)
        };
        match self.write(to_signed(a), w, val) {
            Ok(()) => Ok(Flow::Cont),
            Err(e) => Err(InvokeErr::MemErr(e)),
        }
    }

    /// Decode and run one instruction, exactly as [`step`] describes.
    #[verifier::rlimit(60)]
    fn step_exec(&mut self) -> (r: Result<Flow, InvokeErr>)
        requires
            old(self)@.inv(),
        ensures
            final(self)@.inv(),
            step(old(self)@) == flow_step(final(self)@, r),
    {
        let ghost pre = self@;
        let ep = self.exec_ptr();
        if ep >= self.end() {
            return Err(InvokeErr::MemErr(MemoryErr::SegmentationFault));
        }
        let cap = self.capacity();
        let op = self.byte_at(ep as usize);
        self.set_exec_ptr(ep + 1);
        let olde = self.err_code();
        self.set_err_code(0);
        proof {
            assert(self@ =~~= (MState { ep: pre.ep + 1, errcode: 0, ..pre }));
        }
        let r = match op {
            0 => self.op_pushv(8),
            1 => self.op_pushv(4),
            2 => self.op_pushv(2),
            3 => self.op_pushv(1),
            4 => self.op_push(8),
            5 => self.op_push(4),
            6 => self.op_push(2),
            7 => self.op_push(1),
            8 => self.op_swap(8),
            9 => self.op_swap(4),
            10 => self.op_swap(2),
            11 => self.op_swap(1),
            12 => self.op_cpy(8),
            13 => self.op_cpy(4),
            14 => self.op_cpy(2),
            15 => self.op_cpy(1),
            16 => self.op_cpyv(8),
            17 => self.op_cpyv(4),
            18 => self.op_cpyv(2),
            19 => self.op_cpyv(1),
            20 => self.op_pop(8),
            21 => self.op_pop(4),
            22 => self.op_pop(2),
            23 => self.op_pop(1),
            24 => self.op_popm(8),
            25 => self.op_popm(4),
            26 => self.op_popm(2),
            27 => self.op_popm(1),
            28 => self.op_arith(8, ArithOp::Add),
            29 => self.op_arith(4, ArithOp::Add),
            30 => self.op_arith(2, ArithOp::Add),
            31 => self.op_arith(1, ArithOp::Add),
            32 => self.op_arith(8, ArithOp::Sub),
            33 => self.op_arith(4, ArithOp::Sub),
            34 => self.op_arith(2, ArithOp::Sub),
            35 => self.op_arith(1, ArithOp::Sub),
            36 => self.op_arith(8, ArithOp::Mul),
            37 => self.op_arith(4, ArithOp::Mul),
            38 => self.op_arith(2, ArithOp::Mul),
            39 => self.op_arith(1, ArithOp::Mul),
            40 => self.op_arith(8, ArithOp::Div),
            41 => self.op_arith(4, ArithOp::Div),
            42 => self.op_arith(2, ArithOp::Div),
            43 => self.op_arith(1, ArithOp::Div),
            44 => self.op_cmp(8, false),
            45 => self.op_cmp(4, false),
            46 => self.op_cmp(2, false),
            47 => self.op_cmp(1, false),
            48 => self.op_cmp(8, true),
            49 => self.op_cmp(4, true),
            50 => self.op_cmp(2, true),
            51 => self.op_cmp(1, true),
            52 => self.op_bnot(),
            53 => self.op_not(),
            54 => self.op_bbin(true, false),
            55 => self.op_bbin(true, true),
            56 => self.op_bbin(false, false),
            57 => self.op_bbin(false, true),
            58 => self.op_shift(8),
            59 => self.op_shift(4),
            60 => self.op_shift(2),
            61 => self.op_shift(1),
            62 => self.op_bnorm(),
            63 => self.op_jmp(),
            64 => self.op_branch(),
            65 => self.op_call(),
            66 => self.op_ret(),
            67 => self.op_invokevirtual(),
            68 => self.op_dock(),
            69 => self.op_loadfun(),
            70 => self.op_throw(),
            71 => self.op_checkerr(olde),
            72 => self.op_geterr(olde),
            73 => self.op_exit(),
            74 => self.op_setsbm(),
            _ => Err(InvokeErr::BadInstruction),
        };
        proof {
            assert(step(pre) == flow_step(self@, r));
        }
        r
    }

    /// Drives the machine from code offset `at` until an `exit`, a host
    /// outcome or an error. The result and the machine's final state are
    /// pinned to an iterate of [`step`] from the start state. A program
    /// still running after `2^64 - 1` instructions is reported as
    /// [`InvokeErr::Stalled`].
    #[verifier::loop_isolation(false)]
    #[verifier::rlimit(100)]
    pub fn invoke(&mut self, at: i64) -> (r: Result<InvokeResult, InvokeErr>)
        requires
            old(self)@.inv(),
        ensures
            final(self)@.inv(),
            !(0 <= at as int <= old(self)@.end) ==> final(self)@ == old(self)@ && r == Err::<
                InvokeResult,
                InvokeErr,
            >(InvokeErr::MemErr(MemoryErr::SegmentationFault)),
            (0 <= at as int <= old(self)@.end) && r != Err::<InvokeResult, InvokeErr>(
                InvokeErr::Stalled,
            ) ==> exists|n: nat|
                stepn(invoke_start(old(self)@, at as int), n) == final_step(final(self)@, r),
            r == Err::<InvokeResult, InvokeErr>(InvokeErr::Stalled) ==> stepn(
                invoke_start(old(self)@, at as int),
                u64::MAX as nat,
            ) == Step::Next(final(self)@),
    {
        if at < 0 || at > self.end() {
            return Err(InvokeErr::MemErr(MemoryErr::SegmentationFault));
        }
        self.set_exec_ptr(at);
        let sb = self.stack_base();
        self.set_stack_ptr(sb);
        let ghost start = invoke_start(old(self)@, at as int);
        proof {
            assert(self@ =~~= start);
            assert(stepn(start, 0) == Step::Next(self@));
        }
        let ghost mut n: nat = 0;
        let mut fuel: u64 = u64::MAX;
        loop
            invariant
                self@.inv(),
                stepn(start, n) == Step::Next(self@),
                fuel as nat + n == u64::MAX as nat,
            decreases fuel,
        {
            if fuel == 0 {
                return Err(InvokeErr::Stalled);
            }
            fuel = fuel - 1;
            let ghost pre = self@;
            let res = self.step_exec();
            proof {
                lemma_stepn_snoc(start, n);
                n = n + 1;
                assert(stepn(start, n) == step(pre));
            }
            match res {
                Ok(Flow::Cont) => {},
                Ok(Flow::Halt(v)) => {
                    proof {
                        assert(stepn(start, n) == final_step(
                            self@,
                            Ok::<InvokeResult, InvokeErr>(v),
                        ));
                    }
                    return Ok(v);
                },
                Err(e) => {
                    proof {
                        assert(stepn(start, n) == final_step(
                            self@,
                            Err::<InvokeResult, InvokeErr>(e),
                        ));
                    }
                    return Err(e);
                },
            }
        }
    }
}

} // verus!
