//! The laws the execution core is held to, stated over the small-step
//! semantics and proved once and for all.

use vstd::prelude::*;
use crate::error::InvokeErr;
use crate::hosts::lemma_assoc_idx;
use crate::machine::mounted;
use crate::sem::{
    arith, decode_w, is_opcode, s_checkerr, s_cstr, s_exchange, s_host, s_rd, s_read, s_throw,
    s_tr, s_wr, s_write, s_fetch, sp_arith, sp_bbin, sp_bbin_fin, sp_bnorm, sp_bnot, sp_cmp,
    sp_cmp_fin, sp_cpy, sp_cpyv, sp_dock, sp_invokevirtual, sp_loadfun, sp_not, sp_push,
    sp_pushv, sp_setsbm, sp_shift, sp_swap, st_pop, st_push, step, ArithOp, MState, Step,
};
use crate::word::{
    be_rep, be_val, lemma_be_rep_len, lemma_be_rep_of_val, lemma_be_val_bound, lemma_be_val_rep,
    lemma_sgn64_u64_of, lemma_wr_mem, sgn64, u64_of, valid_width, wr_mem,
};
use vstd::arithmetic::div_mod::{
    lemma_fundamental_div_mod, lemma_mod_division_less_than_divisor, lemma_mod_multiples_vanish,
    lemma_small_mod,
};
use vstd::arithmetic::power2::{lemma_pow2_pos, pow2};

verus! {

/// Whatever a step yields, the state it carries is well-formed.
pub open spec fn inv_step(s: Step) -> bool {
    match s {
        Step::Next(m) => m.inv(),
        Step::Done(m, _) => m.inv(),
        Step::Fail(m, _) => m.inv(),
    }
}

proof fn lemma_st_push_inv(m: MState, w: nat, v: nat)
    requires
        m.inv(),
        w <= 8,
    ensures
        st_push(m, w, v) is Some ==> st_push(m, w, v)->Some_0.inv(),
{
    if st_push(m, w, v) is Some {
        lemma_wr_mem(m.mem, m.sp, w, v);
    }
}

proof fn lemma_s_write_inv(m: MState, a: int, w: nat, v: nat)
    requires
        m.inv(),
        1 <= w <= 8,
    ensures
        s_write(m, a, w, v) is Some ==> s_write(m, a, w, v)->Some_0.inv(),
{
    match s_tr(m, a) {
        Some(p) => {
            lemma_wr_mem(m.mem, p, w, v);
        },
        None => {},
    }
}

proof fn lemma_s_exchange_inv(m: MState, pa: int, pb: int, w: nat)
    requires
        m.inv(),
        1 <= w <= 8,
        0 <= pa < m.end,
        0 <= pb < m.end,
    ensures
        s_exchange(m, pa, pb, w).inv(),
{
    let vb = s_rd(m, pb, w);
    let va = s_rd(m, pa, w);
    lemma_wr_mem(m.mem, pa, w, vb);
    lemma_wr_mem(s_wr(m, pa, w, vb).mem, pb, w, va);
}

proof fn lemma_s_throw_inv(m: MState, c: u8)
    requires
        m.inv(),
    ensures
        inv_step(s_throw(m, c)),
{
}

proof fn lemma_s_host_inv(m: MState, f: crate::hosts::HostFn)
    requires
        m.inv(),
    ensures
        inv_step(s_host(m, f)),
{
}

/// After any successful instruction the machine is still well-formed: in
/// particular `0 <= stack_pointer <= end` and `0 <= exec_pointer <= end`,
/// whatever the program does. The same holds of the state a terminated or
/// failed invocation leaves behind.
pub proof fn lemma_step_preserves_inv(m: MState)
    requires
        m.inv(),
    ensures
        inv_step(step(m)),
{
    if 0 <= m.ep && m.ep < m.end {
        let op = m.mem[m.ep] as int;
        let m0 = MState { ep: m.ep + 1, errcode: 0, ..m };
        assert(m0.inv());
        if op < 4 {
            lemma_sp_pushv_inv(m0, decode_w(op));
        } else if op < 8 {
            lemma_sp_push_inv(m0, decode_w(op - 4));
        } else if op < 12 {
            lemma_sp_swap_inv(m0, decode_w(op - 8));
        } else if op < 16 {
            lemma_sp_cpy_inv(m0, decode_w(op - 12));
        } else if op < 20 {
            lemma_sp_cpyv_inv(m0, decode_w(op - 16));
        } else if op < 24 {
            // pop only lowers the stack pointer
        } else if op < 28 {
            match st_pop(m0, decode_w(op - 24)) {
                Some((m1, v)) => match s_fetch(m1, 8) {
                    Some((m2, a)) => {
                        lemma_s_write_inv(m2, crate::word::sgn64(a), decode_w(op - 24), v);
                    },
                    None => {},
                },
                None => {},
            }
        } else if op < 44 {
            let k = if op < 32 {
                op - 28
            } else if op < 36 {
                op - 32
            } else if op < 40 {
                op - 36
            } else {
                op - 40
            };
            let aop = if op < 32 {
                ArithOp::Add
            } else if op < 36 {
                ArithOp::Sub
            } else if op < 40 {
                ArithOp::Mul
            } else {
                ArithOp::Div
            };
            lemma_sp_arith_inv(m0, decode_w(k), aop);
        } else if op < 52 {
            lemma_sp_cmp_inv(m0, decode_w(if op < 48 { op - 44 } else { op - 48 }), op >= 48);
        } else if op < 58 {
            lemma_sp_byte_inv(m0, op);
        } else if op < 62 {
            lemma_sp_shift_inv(m0, decode_w(op - 58));
        } else if op == 62 {
            lemma_sp_byte_inv(m0, op);
        } else if op == 65 {
            match s_fetch(m0, 8) {
                Some((m1, t)) => {
                    lemma_st_push_inv(m1, 8, m1.ep as nat);
                },
                None => {},
            }
        } else if op == 67 {
            lemma_sp_invokevirtual_inv(m0);
        } else if op == 68 {
            lemma_sp_dock_inv(m0);
        } else if op == 69 {
            lemma_sp_loadfun_inv(m0);
        } else if op == 70 {
            match s_fetch(m0, 1) {
                Some((m1, c)) => {
                    lemma_s_throw_inv(m1, c as u8);
                },
                None => {},
            }
        } else if op == 72 {
            lemma_st_push_inv(m0, 1, m.errcode as nat);
        } else if op == 74 {
            lemma_sp_setsbm_inv(m0);
        } else {
            // jmp, branch, ret, checkerr, exit and undefined opcodes only
            // move validated pointers or pop words
        }
    }
}

proof fn lemma_sp_pushv_inv(m: MState, w: nat)
    requires
        m.inv(),
        1 <= w <= 8,
    ensures
        inv_step(sp_pushv(m, w)),
{
    match s_fetch(m, w) {
        Some((m1, v)) => {
            lemma_st_push_inv(m1, w, v);
        },
        None => {},
    }
}

proof fn lemma_sp_push_inv(m: MState, w: nat)
    requires
        m.inv(),
        1 <= w <= 8,
    ensures
        inv_step(sp_push(m, w)),
{
    match s_fetch(m, 8) {
        Some((m1, a)) => match s_read(m1, sgn64(a), w) {
            Some(v) => {
                lemma_st_push_inv(m1, w, v);
            },
            None => {},
        },
        None => {},
    }
}

proof fn lemma_sp_swap_inv(m: MState, w: nat)
    requires
        m.inv(),
        1 <= w <= 8,
    ensures
        inv_step(sp_swap(m, w)),
{
    match s_fetch(m, 8) {
        Some((m1, a)) => match s_fetch(m1, 8) {
            Some((m2, b)) => match (s_tr(m2, sgn64(a)), s_tr(m2, sgn64(b))) {
                (Some(pa), Some(pb)) => {
                    lemma_s_exchange_inv(m2, pa, pb, w);
                },
                _ => {},
            },
            None => {},
        },
        None => {},
    }
}

proof fn lemma_sp_cpy_inv(m: MState, w: nat)
    requires
        m.inv(),
        1 <= w <= 8,
    ensures
        inv_step(sp_cpy(m, w)),
{
    match s_fetch(m, 8) {
        Some((m1, a)) => match s_fetch(m1, 8) {
            Some((m2, b)) => match s_read(m2, sgn64(a), w) {
                Some(v) => {
                    lemma_s_write_inv(m2, sgn64(b), w, v);
                },
                None => {},
            },
            None => {},
        },
        None => {},
    }
}

proof fn lemma_sp_cpyv_inv(m: MState, w: nat)
    requires
        m.inv(),
        1 <= w <= 8,
    ensures
        inv_step(sp_cpyv(m, w)),
{
    match s_fetch(m, 8) {
        Some((m1, a)) => match s_fetch(m1, w) {
            Some((m2, v)) => {
                lemma_s_write_inv(m2, sgn64(a), w, v);
            },
            None => {},
        },
        None => {},
    }
}

proof fn lemma_sp_arith_inv(m: MState, w: nat, op: ArithOp)
    requires
        m.inv(),
        1 <= w <= 8,
    ensures
        inv_step(sp_arith(m, w, op)),
{
    match s_fetch(m, 8) {
        Some((m1, a)) => match s_fetch(m1, 8) {
            Some((m2, b)) => match (s_read(m2, sgn64(a), w), s_read(m2, sgn64(b), w)) {
                (Some(v1), Some(v2)) => {
                    lemma_s_write_inv(m2, sgn64(a), w, arith(op, v1, v2, w));
                },
                _ => {},
            },
            None => {},
        },
        None => {},
    }
}

proof fn lemma_sp_cmp_inv(m: MState, w: nat, imm: bool)
    requires
        m.inv(),
        1 <= w <= 8,
    ensures
        inv_step(sp_cmp(m, w, imm)),
{
    match s_fetch(m, 8) {
        Some((m1, a)) => {
            if imm {
                match s_fetch(m1, w) {
                    Some((m2, v2)) => {
                        lemma_sp_cmp_fin_inv(m2, sgn64(a), v2, w);
                    },
                    None => {},
                }
            } else {
                match s_fetch(m1, 8) {
                    Some((m2, b)) => match s_read(m2, sgn64(b), w) {
                        Some(v2) => {
                            lemma_sp_cmp_fin_inv(m2, sgn64(a), v2, w);
                        },
                        None => {},
                    },
                    None => {},
                }
            }
        },
        None => {},
    }
}

proof fn lemma_sp_cmp_fin_inv(m2: MState, ai: int, v2: nat, w: nat)
    requires
        m2.inv(),
        1 <= w <= 8,
    ensures
        inv_step(sp_cmp_fin(m2, ai, v2, w)),
{
    match s_read(m2, ai, w) {
        Some(v1) => {
            lemma_st_push_inv(m2, 1, crate::sem::cmp_byte(v1, v2));
        },
        None => {},
    }
}

proof fn lemma_sp_byte_inv(m: MState, op: int)
    requires
        m.inv(),
        52 <= op <= 57 || op == 62,
    ensures
        op == 52 ==> inv_step(sp_bnot(m)),
        op == 53 ==> inv_step(sp_not(m)),
        op == 54 ==> inv_step(sp_bbin(m, true, false)),
        op == 55 ==> inv_step(sp_bbin(m, true, true)),
        op == 56 ==> inv_step(sp_bbin(m, false, false)),
        op == 57 ==> inv_step(sp_bbin(m, false, true)),
        op == 62 ==> inv_step(sp_bnorm(m)),
{
    match s_fetch(m, 8) {
        Some((m1, a)) => {
            let ai = sgn64(a);
            lemma_s_write_inv(m1, ai, 1, (255 - s_rd(m1, s_tr(m1, ai)->Some_0, 1)) as nat);
            lemma_s_write_inv(m1, ai, 1, 0);
            lemma_s_write_inv(m1, ai, 1, 1);
            match s_read(m1, ai, 1) {
                Some(v1) => {
                    match s_fetch(m1, 1) {
                        Some((m2, v2)) => {
                            lemma_sp_bbin_fin_inv(m2, ai, v1, v2);
                        },
                        None => {},
                    }
                    match s_fetch(m1, 8) {
                        Some((m2, b)) => match s_read(m2, sgn64(b), 1) {
                            Some(v2) => {
                                lemma_sp_bbin_fin_inv(m2, ai, v1, v2);
                            },
                            None => {},
                        },
                        None => {},
                    }
                },
                None => {},
            }
        },
        None => {},
    }
}

proof fn lemma_sp_bbin_fin_inv(m2: MState, ai: int, v1: nat, v2: nat)
    requires
        m2.inv(),
    ensures
        inv_step(sp_bbin_fin(m2, ai, true, v1, v2)),
        inv_step(sp_bbin_fin(m2, ai, false, v1, v2)),
{
    lemma_s_write_inv(m2, ai, 1, crate::sem::byte_bin(true, v1, v2));
    lemma_s_write_inv(m2, ai, 1, crate::sem::byte_bin(false, v1, v2));
}

proof fn lemma_sp_shift_inv(m: MState, w: nat)
    requires
        m.inv(),
        1 <= w <= 8,
    ensures
        inv_step(sp_shift(m, w)),
{
    match s_fetch(m, 8) {
        Some((m1, a)) => match s_read(m1, sgn64(a), w) {
            Some(v) => match s_fetch(m1, 1) {
                Some((m2, av)) => {
                    lemma_s_write_inv(m2, sgn64(a), w, crate::sem::shifted(v, crate::word::sgn8(av), w));
                },
                None => {},
            },
            None => {},
        },
        None => {},
    }
}

proof fn lemma_sp_invokevirtual_inv(m: MState)
    requires
        m.inv(),
    ensures
        inv_step(sp_invokevirtual(m)),
{
    match s_fetch(m, 8) {
        Some((m1, p)) => match s_read(m1, sgn64(p), 8) {
            Some(v) => {
                let vi = sgn64(v);
                if vi > m1.capacity() {
                    match crate::hosts::assoc_find(m1.rfns, vi) {
                        Some(f) => {
                            lemma_s_host_inv(m1, f);
                        },
                        None => {
                            lemma_s_throw_inv(m1, 2);
                        },
                    }
                } else {
                    lemma_st_push_inv(m1, 8, m1.ep as nat);
                }
            },
            None => {},
        },
        None => {},
    }
}

proof fn lemma_sp_dock_inv(m: MState)
    requires
        m.inv(),
    ensures
        inv_step(sp_dock(m)),
{
    match s_fetch(m, 8) {
        Some((m1, a)) => match s_tr(m1, sgn64(a)) {
            Some(p) => match s_cstr(m1, p) {
                Some(name) => match crate::hosts::assoc_idx(m1.hosts, name) {
                    Some(i) => {
                        lemma_assoc_idx(m1.hosts, name);
                        if m1.rabbit_top >= i64::MAX {
                            lemma_s_throw_inv(m1, 4);
                        } else {
                            let h = m1.rabbit_top + 1;
                            let m2 = MState {
                                rabbit_top: h,
                                robjs: m1.robjs.push((h, i)),
                                ..m1
                            };
                            assert(m2.inv());
                            lemma_st_push_inv(m2, 8, h as nat);
                        }
                    },
                    None => {
                        lemma_s_throw_inv(m1, 3);
                    },
                },
                None => {},
            },
            None => {},
        },
        None => {},
    }
}

proof fn lemma_sp_loadfun_inv(m: MState)
    requires
        m.inv(),
    ensures
        inv_step(sp_loadfun(m)),
{
    match s_fetch(m, 8) {
        Some((m1, a)) => match st_pop(m1, 8) {
            Some((m2, hv)) => match s_tr(m2, sgn64(a)) {
                Some(p) => match s_cstr(m2, p) {
                    Some(name) => match crate::hosts::assoc_find(m2.robjs, sgn64(hv)) {
                        Some(ti) => match crate::hosts::assoc_find(m2.hosts[ti].1, name) {
                            Some(f) => {
                                if m2.rabbit_top >= i64::MAX {
                                    lemma_s_throw_inv(m2, 4);
                                } else {
                                    let h = m2.rabbit_top + 1;
                                    let m3 = MState {
                                        rabbit_top: h,
                                        rfns: m2.rfns.push((h, f)),
                                        ..m2
                                    };
                                    assert(m3.inv());
                                    lemma_st_push_inv(m3, 8, h as nat);
                                }
                            },
                            None => {
                                lemma_s_throw_inv(m2, 3);
                            },
                        },
                        None => {
                            lemma_s_throw_inv(m2, 3);
                        },
                    },
                    None => {},
                },
                None => {},
            },
            None => {},
        },
        None => {},
    }
}

proof fn lemma_sp_setsbm_inv(m: MState)
    requires
        m.inv(),
    ensures
        inv_step(sp_setsbm(m)),
{
    lemma_st_push_inv(m, 8, u64_of(m.sbm_exec));
    match st_push(m, 8, u64_of(m.sbm_exec)) {
        Some(m1) => {
            lemma_st_push_inv(m1, 8, u64_of(m.sbm_stack));
        },
        None => {},
    }
}

/// Well-formedness is an invariant of whole runs: every state an
/// invocation passes through or terminates in is well-formed.
pub proof fn lemma_stepn_preserves_inv(m: MState, n: nat)
    requires
        m.inv(),
    ensures
        inv_step(crate::sem::stepn(m, n)),
    decreases n,
{
    if n > 0 {
        lemma_step_preserves_inv(m);
        match step(m) {
            Step::Next(m2) => {
                lemma_stepn_preserves_inv(m2, (n - 1) as nat);
            },
            _ => {},
        }
    }
}

/// A word pushed at width `w` is popped back bit-for-bit, with the stack
/// pointer restored, for every width and every value of that width.
pub proof fn lemma_push_pop(m: MState, w: nat, v: nat)
    requires
        m.inv(),
        valid_width(w),
        v < pow2(8 * w),
        m.sp + w <= m.end,
    ensures
        st_push(m, w, v) is Some,
        ({
            let m1 = st_push(m, w, v)->Some_0;
            &&& st_pop(m1, w) is Some
            &&& st_pop(m1, w)->Some_0.1 == v
            &&& st_pop(m1, w)->Some_0.0.sp == m.sp
            &&& st_pop(m1, w)->Some_0.0.ep == m.ep
        }),
{
    let m1 = st_push(m, w, v)->Some_0;
    lemma_wr_mem(m.mem, m.sp, w, v);
    lemma_be_rep_len(v, w);
    assert(m1.mem.subrange(m.sp, m.sp + w) == be_rep(v, w));
    lemma_be_val_rep(v, w);
}

/// Exchanging the words at two addresses twice is a no-op, for addresses
/// that are equal or whose `w`-byte ranges do not overlap.
pub proof fn lemma_swap_twice(m: MState, pa: int, pb: int, w: nat)
    requires
        0 <= pa,
        pa + w <= m.mem.len(),
        0 <= pb,
        pb + w <= m.mem.len(),
        pa == pb || pa + w <= pb || pb + w <= pa,
    ensures
        s_exchange(s_exchange(m, pa, pb, w), pa, pb, w) == m,
{
    let av = m.mem.subrange(pa, pa + w);
    let bv = m.mem.subrange(pb, pb + w);
    let va = be_val(av);
    let vb = be_val(bv);
    lemma_be_val_bound(av);
    lemma_be_val_bound(bv);
    lemma_be_rep_len(va, w);
    lemma_be_rep_len(vb, w);
    lemma_be_rep_of_val(av);
    lemma_be_rep_of_val(bv);
    let mem1 = wr_mem(m.mem, pa, w, vb);
    lemma_wr_mem(m.mem, pa, w, vb);
    let mem2 = wr_mem(mem1, pb, w, va);
    lemma_wr_mem(mem1, pb, w, va);
    let m1 = s_exchange(m, pa, pb, w);
    if pa == pb {
        assert(va == vb);
        assert(mem2 =~= m.mem);
        assert(m1 =~~= m);
        let mem3 = wr_mem(m.mem, pa, w, vb);
        let mem4 = wr_mem(mem3, pb, w, va);
        assert(mem4 =~= m.mem);
        assert(s_exchange(m1, pa, pb, w) =~~= m);
    } else {
        assert(m1.mem == mem2);
        assert(m1.mem.subrange(pa, pa + w) =~= be_rep(vb, w));
        assert(m1.mem.subrange(pb, pb + w) =~= be_rep(va, w));
        lemma_be_val_rep(vb, w);
        lemma_be_val_rep(va, w);
        assert(s_rd(m1, pa, w) == vb);
        assert(s_rd(m1, pb, w) == va);
        let mem3 = wr_mem(m1.mem, pa, w, va);
        lemma_wr_mem(m1.mem, pa, w, va);
        let mem4 = wr_mem(mem3, pb, w, vb);
        lemma_wr_mem(mem3, pb, w, vb);
        assert(mem4 =~= m.mem);
        assert(s_exchange(m1, pa, pb, w) =~~= m);
    }
}

/// Copying `w` bytes leaves the source unchanged and makes the target an
/// exact copy, for addresses that are equal or non-overlapping.
pub proof fn lemma_cpy(m: MState, pa: int, pb: int, w: nat)
    requires
        0 <= pa,
        pa + w <= m.mem.len(),
        0 <= pb,
        pb + w <= m.mem.len(),
        pa == pb || pa + w <= pb || pb + w <= pa,
    ensures
        ({
            let m2 = s_wr(m, pb, w, s_rd(m, pa, w));
            &&& m2.mem.subrange(pa, pa + w) == m.mem.subrange(pa, pa + w)
            &&& m2.mem.subrange(pb, pb + w) == m.mem.subrange(pa, pa + w)
        }),
{
    let av = m.mem.subrange(pa, pa + w);
    let va = be_val(av);
    lemma_be_rep_len(va, w);
    lemma_be_rep_of_val(av);
    lemma_wr_mem(m.mem, pb, w, va);
    let m2 = s_wr(m, pb, w, va);
    assert(m2.mem.subrange(pb, pb + w) == be_rep(va, w));
    assert(be_rep(va, w) == av);
    assert(m2.mem.subrange(pa, pa + w) =~= av);
}

/// For unsigned words at non-overlapping addresses, adding the word at
/// `pb` into `pa` and then subtracting it again restores the original
/// word at `pa` (arithmetic is modulo `2^(8w)`).
pub proof fn lemma_add_sub(m: MState, pa: int, pb: int, w: nat)
    requires
        valid_width(w),
        0 <= pa,
        pa + w <= m.mem.len(),
        0 <= pb,
        pb + w <= m.mem.len(),
        pa + w <= pb || pb + w <= pa,
    ensures
        ({
            let v1 = s_rd(m, pa, w);
            let v2 = s_rd(m, pb, w);
            let m1 = s_wr(m, pa, w, arith(ArithOp::Add, v1, v2, w));
            let m2 = s_wr(m1, pa, w, arith(ArithOp::Sub, s_rd(m1, pa, w), s_rd(m1, pb, w), w));
            m2.mem.subrange(pa, pa + w) == m.mem.subrange(pa, pa + w)
        }),
{
    let mm = pow2(8 * w);
    lemma_pow2_pos(8 * w);
    let av = m.mem.subrange(pa, pa + w);
    let bv = m.mem.subrange(pb, pb + w);
    let v1 = be_val(av);
    let v2 = be_val(bv);
    lemma_be_val_bound(av);
    lemma_be_val_bound(bv);
    let s = arith(ArithOp::Add, v1, v2, w);
    lemma_mod_division_less_than_divisor((v1 + v2) as int, mm as int);
    let m1 = s_wr(m, pa, w, s);
    lemma_wr_mem(m.mem, pa, w, s);
    lemma_be_rep_len(s, w);
    assert(m1.mem.subrange(pa, pa + w) == be_rep(s, w));
    lemma_be_val_rep(s, w);
    assert(s_rd(m1, pa, w) == s);
    assert(m1.mem.subrange(pb, pb + w) =~= bv);
    assert(s_rd(m1, pb, w) == v2);
    let d = arith(ArithOp::Sub, s, v2, w);
    lemma_fundamental_div_mod((v1 + v2) as int, mm as int);
    let q = ((v1 + v2) as int) / (mm as int);
    assert(s == v1 + v2 - (mm as int) * q);
    lemma_mod_multiples_vanish(-q, v1 as int, mm as int);
    assert((mm as int) * (-q) == -((mm as int) * q)) by (nonlinear_arith);
    assert(s - v2 == (mm as int) * (-q) + v1);
    assert((s - v2) % (mm as int) == (v1 as int) % (mm as int));
    lemma_small_mod(v1, mm);
    assert(d == v1);
    let m2 = s_wr(m1, pa, w, d);
    lemma_wr_mem(m1.mem, pa, w, d);
    lemma_be_rep_of_val(av);
    assert(m2.mem.subrange(pa, pa + w) == be_rep(v1, w));
}

/// Any code byte outside the defined opcode table fails the step with
/// `BadInstruction`; the machine is left as it was, but for the already
/// advanced execution pointer and the cleared error code.
pub proof fn lemma_bad_instruction(m: MState)
    requires
        m.inv(),
        0 <= m.ep < m.end,
        !is_opcode(m.mem[m.ep]),
    ensures
        step(m) == Step::Fail(
            (MState { ep: m.ep + 1, errcode: 0, ..m }),
            InvokeErr::BadInstruction,
        ),
{
}

/// Endianness round trip: an L-word read back out of a mounted static
/// section is exactly the byte sequence as written.
pub proof fn lemma_endian_round_trip(m: MState, statics: Seq<u8>, text: Seq<u8>, a: int)
    requires
        statics.len() + text.len() <= m.mem.len(),
        0 <= a,
        a + 8 <= statics.len(),
    ensures
        ({
            let mm = mounted(m, statics, text);
            &&& s_rd(mm, a, 8) == be_val(statics.subrange(a, a + 8))
            &&& be_rep(s_rd(mm, a, 8), 8) == statics.subrange(a, a + 8)
        }),
{
    let mm = mounted(m, statics, text);
    assert(mm.mem.subrange(a, a + 8) =~= statics.subrange(a, a + 8));
    lemma_be_rep_of_val(statics.subrange(a, a + 8));
}

/// The structured-error round trip: `setsbm`, then `throw c`, then
/// `checkerr target` reaches `target` with the error code re-armed to `c`
/// (so `geterr` observes `c`), and with the stack pointer and the
/// stack-break marker restored to their state just before `setsbm`.
pub proof fn lemma_sbm_round_trip(m: MState, c: u8, target: int)
    requires
        m.inv(),
        m.sp + 16 <= m.end,
        m.ep + 9 <= m.end,
        c != 0,
        0 <= target <= m.end,
        i64::MIN <= m.sbm_stack <= i64::MAX,
        i64::MIN <= m.sbm_exec <= i64::MAX,
    ensures
        sp_setsbm(m) is Next,
        ({
            let m1 = sp_setsbm(m)->Next_0;
            &&& s_throw(m1, c) is Next
            &&& ({
                let m2 = s_throw(m1, c)->Next_0;
                &&& m2.errcode == c
                &&& m2.ep == m.ep + 9
                &&& s_checkerr(m2, c, target) is Next
                &&& ({
                    let m3 = s_checkerr(m2, c, target)->Next_0;
                    &&& m3.ep == target
                    &&& m3.errcode == c
                    &&& m3.sp == m.sp
                    &&& m3.sbm_stack == m.sbm_stack
                    &&& m3.sbm_exec == m.sbm_exec
                })
            })
        }),
{
    vstd::arithmetic::power2::lemma2_to64();
    vstd::arithmetic::power2::lemma2_to64_rest();
    let pe = u64_of(m.sbm_exec);
    let ps = u64_of(m.sbm_stack);
    let mem1 = wr_mem(m.mem, m.sp, 8, pe);
    lemma_wr_mem(m.mem, m.sp, 8, pe);
    lemma_be_rep_len(pe, 8);
    let mem2 = wr_mem(mem1, m.sp + 8, 8, ps);
    lemma_wr_mem(mem1, m.sp + 8, 8, ps);
    lemma_be_rep_len(ps, 8);
    let m1 = sp_setsbm(m)->Next_0;
    assert(m1.mem == mem2);
    assert(m1.sbm_stack == m.sp && m1.sbm_exec == m.ep + 9);
    assert(m1.sp == m.sp + 16);
    assert(!(m1.sbm_stack == 0 && m1.sbm_exec == 0));
    let m2 = s_throw(m1, c)->Next_0;
    assert(m2.sp == m.sp + 16 && m2.ep == m.ep + 9 && m2.errcode == c);
    assert(m2.mem == mem2);
    // The two saved L-words are still on the stack: the top decodes to the
    // old stack half, the next to the old execution half.
    assert(mem2.subrange(m.sp + 8, m.sp + 16) == be_rep(ps, 8));
    assert(mem2.subrange(m.sp, m.sp + 8) =~= be_rep(pe, 8));
    lemma_be_val_rep(ps, 8);
    lemma_be_val_rep(pe, 8);
    assert(s_rd(m2, m.sp + 8, 8) == ps);
    assert(s_rd(m2, m.sp, 8) == pe);
    lemma_sgn64_u64_of(m.sbm_stack);
    lemma_sgn64_u64_of(m.sbm_exec);
    let p1 = st_pop(m2, 8)->Some_0;
    assert(p1.1 == ps && p1.0.sp == m.sp + 8);
    let p2 = st_pop(p1.0, 8)->Some_0;
    assert(p2.1 == pe && p2.0.sp == m.sp);
}

/// A `throw` with the sentinel marker aborts the invocation with
/// `UncaughtThrow`, leaving the machine untouched but for the recorded
/// error code.
pub proof fn lemma_uncaught_throw(m: MState, c: u8)
    requires
        m.sbm_stack == 0,
        m.sbm_exec == 0,
    ensures
        s_throw(m, c) == Step::Fail((MState { errcode: c, ..m }), InvokeErr::UncaughtThrow(c)),
{
}

} // verus!
