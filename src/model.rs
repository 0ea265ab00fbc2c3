//! A register model of the chip: what a sequence of transfers leaves in it.
use vstd::prelude::*;

use crate::addresses::{CONFIG_LOCK_REGISTER, CONFIG_WRITE_ENABLE, PAGE_SELECT_REGISTER};
use crate::bus::{select_plan, unlock_transfer, Step};
use crate::fl3741::{
    bulk_transfer, fill_plan, page_code, pwm_page, register_plan, FIRST_BANK_LEN, SECOND_BANK_LEN,
};
use crate::fl3743;

verus! {

/// The chip as transfers see it: whether page select is unlocked, the
/// selected page, and the register values, keyed by (page, register).
pub struct Chip {
    pub unlocked: bool,
    pub page: u8,
    pub regs: Map<(u8, int), u8>,
}

/// Does the bulk transfer `t` on `page` reach register `k`?
pub open spec fn covers(page: u8, t: Seq<u8>, k: (u8, int)) -> bool {
    k.0 == page && t[0] <= k.1 < t[0] + t.len() - 1
}

/// One transfer: a write of the unlock code to the lock register unlocks
/// page select; a page select takes effect only when unlocked, and locks
/// again; any other transfer writes its bytes from its start register on.
pub open spec fn apply(c: Chip, t: Seq<u8>) -> Chip {
    if t.len() == 0 {
        c
    } else if t[0] == CONFIG_LOCK_REGISTER {
        Chip { unlocked: t.len() == 2 && t[1] == CONFIG_WRITE_ENABLE, ..c }
    } else if t[0] == PAGE_SELECT_REGISTER {
        Chip { unlocked: false, page: if c.unlocked && t.len() == 2 { t[1] } else { c.page }, ..c }
    } else {
        Chip {
            regs: Map::new(
                |k: (u8, int)| covers(c.page, t, k) || c.regs.contains_key(k),
                |k: (u8, int)|
                    if covers(c.page, t, k) {
                        t[k.1 - t[0] + 1]
                    } else {
                        c.regs[k]
                    },
            ),
            ..c
        }
    }
}

/// One step: a write acts as `apply` says; a read changes nothing.
pub open spec fn step(c: Chip, s: Step) -> Chip {
    match s {
        Step::Write(bytes) => apply(c, bytes),
        Step::Read(_) => c,
    }
}

/// The chip after the steps of `plan`, in order.
pub open spec fn replay(c: Chip, plan: Seq<Step>) -> Chip
    decreases plan.len(),
{
    if plan.len() == 0 {
        c
    } else {
        step(replay(c, plan.drop_last()), plan.last())
    }
}

/// Is register `reg` of `page` one of the chip's PWM registers?
pub open spec fn pwm_cell(page: u8, reg: int) -> bool {
    ||| page == 0 && 0 <= reg < FIRST_BANK_LEN
    ||| page == 1 && 0 <= reg < SECOND_BANK_LEN
}

pub proof fn lemma_replay_concat(c: Chip, p: Seq<Step>, q: Seq<Step>)
    ensures
        replay(c, p + q) == replay(replay(c, p), q),
    decreases q.len(),
{
    if q.len() == 0 {
        assert(p + q =~= p);
    } else {
        assert((p + q).drop_last() =~= p + q.drop_last());
        lemma_replay_concat(c, p, q.drop_last());
    }
}

proof fn lemma_replay_last(c: Chip, p: Seq<Step>, s: Step)
    ensures
        replay(c, p.push(s)) == step(replay(c, p), s),
{
    assert(p.push(s).drop_last() =~= p);
}

proof fn lemma_replay_select(c: Chip, code: u8)
    ensures
        replay(c, select_plan(code)) == (Chip { unlocked: false, page: code, regs: c.regs }),
{
    let e = Seq::<Step>::empty();
    let u = Step::Write(unlock_transfer());
    let sel = Step::Write(seq![PAGE_SELECT_REGISTER, code]);
    lemma_replay_last(c, e, u);
    assert(e.push(u) =~= seq![u]);
    lemma_replay_last(c, seq![u], sel);
    assert(seq![u].push(sel) =~= select_plan(code));
    let c1 = apply(c, unlock_transfer());
    assert(c1 == Chip { unlocked: true, ..c });
    assert(apply(c1, seq![PAGE_SELECT_REGISTER, code]) =~= Chip {
        unlocked: false,
        page: code,
        regs: c.regs,
    });
}

/// Select page `code`, then write `bytes` there: a register that `bytes`
/// reaches on that page takes its value, any other keeps its own.
proof fn lemma_replay_bank_write(c: Chip, code: u8, bytes: Seq<u8>, k: (u8, int))
    requires
        bytes.len() >= 1,
        bytes[0] != CONFIG_LOCK_REGISTER,
        bytes[0] != PAGE_SELECT_REGISTER,
    ensures
        ({
            let d = replay(c, select_plan(code).push(Step::Write(bytes)));
            &&& covers(code, bytes, k) ==> d.regs.contains_key(k) && d.regs[k] == bytes[k.1
                - bytes[0] + 1]
            &&& !covers(code, bytes, k) && c.regs.contains_key(k) ==> d.regs.contains_key(k)
                && d.regs[k] == c.regs[k]
        }),
{
    lemma_replay_last(c, select_plan(code), Step::Write(bytes));
    lemma_replay_select(c, code);
}

/// Filling with `b` and then writing 0 to one PWM register (the one a
/// mapping function gave for some coordinate) leaves every PWM register at
/// `b` but that one, which holds 0.
pub proof fn lemma_fill_then_clear(c: Chip, b: u8, reg: u8, frame: u8)
    requires
        pwm_cell(page_code(pwm_page(frame)), reg as int),
    ensures
        ({
            let d = replay(c, fill_plan(b) + register_plan(pwm_page(frame), reg, 0));
            forall|p: u8, i: int| #![trigger pwm_cell(p, i)]
                pwm_cell(p, i) ==> d.regs.contains_key((p, i)) && d.regs[(p, i)] == if p
                    == page_code(pwm_page(frame)) && i == reg {
                    0
                } else {
                    b
                }
        }),
{
    let b1 = bulk_transfer(b, FIRST_BANK_LEN as nat);
    let b2 = bulk_transfer(b, SECOND_BANK_LEN as nat);
    let first = select_plan(0).push(Step::Write(b1));
    let second = select_plan(1).push(Step::Write(b2));
    let z = seq![reg, 0u8];
    let code = page_code(pwm_page(frame));
    let clear = select_plan(code).push(Step::Write(z));
    assert(fill_plan(b) == first + second);
    assert(register_plan(pwm_page(frame), reg, 0) == clear);
    lemma_replay_concat(c, fill_plan(b), clear);
    lemma_replay_concat(c, first, second);
    let c1 = replay(c, first);
    let c2 = replay(c1, second);
    let d = replay(c2, clear);
    assert(b1[0] == 0 && b2[0] == 0);
    assert forall|p: u8, i: int| #![trigger pwm_cell(p, i)] pwm_cell(p, i) implies d.regs.contains_key(
        (p, i),
    ) && d.regs[(p, i)] == if p == code && i == reg {
        0
    } else {
        b
    } by {
        let k = (p, i);
        lemma_replay_bank_write(c, 0, b1, k);
        lemma_replay_bank_write(c1, 1, b2, k);
        lemma_replay_bank_write(c2, code, z, k);
        if p == 0 {
            assert(covers(0, b1, k));
            assert(b1[i - b1[0] + 1] == b);
        } else {
            assert(covers(1, b2, k));
            assert(b2[i - b2[0] + 1] == b);
        }
        if p == code && i == reg {
            assert(covers(code, z, k));
        } else {
            assert(!covers(code, z, k));
        }
    }
}

/// Whatever state the chip was in, writing back a configuration value, a
/// scaling value and a frame leaves exactly those in its registers.
pub proof fn lemma_replay_restore(c: Chip, config: u8, scale: u8, matrix: Seq<u8>)
    requires
        matrix.len() == fl3743::MATRIX_LEN,
    ensures
        ({
            let d = replay(c, fl3743::restore_plan(config, scale, matrix));
            &&& d.regs.contains_key((2u8, 0int)) && d.regs[(2u8, 0int)] == config
            &&& forall|i: int| #![trigger d.regs[(1u8, i)]] #![trigger d.regs.contains_key((1u8, i))]
                1 <= i <= fl3743::MATRIX_LEN ==> d.regs.contains_key((1u8, i)) && d.regs[(1u8, i)]
                    == scale
            &&& forall|i: int| #![trigger d.regs[(0u8, i)]] #![trigger d.regs.contains_key((0u8, i))]
                1 <= i <= fl3743::MATRIX_LEN ==> d.regs.contains_key((0u8, i)) && d.regs[(0u8, i)]
                    == matrix[i - 1]
        }),
{
    let p5 = fl3743::register_plan(fl3743::Page::Config, fl3743::CONFIG_REGISTER, config);
    let p6 = fl3743::scaling_plan(scale);
    let p7 = fl3743::fill_matrix_plan(matrix);
    lemma_replay_concat(c, p5 + p6, p7);
    lemma_replay_concat(c, p5, p6);
    let cfg_bytes = seq![fl3743::CONFIG_REGISTER, config];
    let s_bytes = fl3743::led_transfer(fl3743::uniform(scale, fl3743::MATRIX_LEN as nat));
    let m_bytes = fl3743::led_transfer(matrix);
    assert(s_bytes[0] == 1 && m_bytes[0] == 1);
    let d1 = replay(c, p5);
    let d2 = replay(d1, p6);
    let d = replay(d2, p7);
    let key = (2u8, 0int);
    lemma_replay_bank_write(c, 2, cfg_bytes, key);
    lemma_replay_bank_write(d1, 1, s_bytes, key);
    lemma_replay_bank_write(d2, 0, m_bytes, key);
    assert(d == replay(c, fl3743::restore_plan(config, scale, matrix)));
    assert forall|i: int| #![trigger d.regs[(1u8, i)]] #![trigger d.regs.contains_key((1u8, i))]
        1 <= i <= fl3743::MATRIX_LEN implies d.regs.contains_key((1u8, i)) && d.regs[(1u8, i)]
        == scale by {
        lemma_replay_bank_write(d1, 1, s_bytes, (1u8, i));
        lemma_replay_bank_write(d2, 0, m_bytes, (1u8, i));
        assert(s_bytes[i - s_bytes[0] + 1] == scale);
    }
    assert forall|i: int| #![trigger d.regs[(0u8, i)]] #![trigger d.regs.contains_key((0u8, i))]
        1 <= i <= fl3743::MATRIX_LEN implies d.regs.contains_key((0u8, i)) && d.regs[(0u8, i)]
        == matrix[i - 1] by {
        lemma_replay_bank_write(d2, 0, m_bytes, (0u8, i));
        assert(m_bytes[i - m_bytes[0] + 1] == matrix[i - 1]);
    }
}

/// `reset_restore` keeps the chip's state across the reset: when the values
/// it read are the chip's own (its configuration, the scaling value that
/// every LED shares, its frame), replaying all its transfers leaves the
/// configuration, scaling and PWM registers as they were.
pub proof fn lemma_reset_restore_round_trip(c: Chip, config: u8, scale: u8, matrix: Seq<u8>)
    requires
        matrix.len() == fl3743::MATRIX_LEN,
        c.regs.contains_key((2u8, 0int)) && c.regs[(2u8, 0int)] == config,
        forall|i: int| #![trigger c.regs[(1u8, i)]]
            1 <= i <= fl3743::MATRIX_LEN ==> c.regs.contains_key((1u8, i)) && c.regs[(1u8, i)] == scale,
        forall|i: int| #![trigger c.regs[(0u8, i)]]
            1 <= i <= fl3743::MATRIX_LEN ==> c.regs.contains_key((0u8, i)) && c.regs[(0u8, i)]
                == matrix[i - 1],
    ensures
        ({
            let d = replay(c, fl3743::reset_restore_plan(config, scale, matrix));
            &&& d.regs.contains_key((2u8, 0int)) && d.regs[(2u8, 0int)] == c.regs[(2u8, 0int)]
            &&& forall|p: u8, i: int| #![trigger d.regs[(p, i)]] #![trigger d.regs.contains_key((p, i))]
                p <= 1 && 1 <= i <= fl3743::MATRIX_LEN ==> d.regs.contains_key((p, i))
                    && d.regs[(p, i)] == c.regs[(p, i)]
        }),
{
    let before = fl3743::capture_plan(config, scale, matrix) + fl3743::setup_plan();
    lemma_replay_concat(c, before, fl3743::restore_plan(config, scale, matrix));
    lemma_replay_restore(replay(c, before), config, scale, matrix);
    let d = replay(c, fl3743::reset_restore_plan(config, scale, matrix));
    assert forall|p: u8, i: int| #![trigger d.regs[(p, i)]] #![trigger d.regs.contains_key((p, i))]
        p <= 1 && 1 <= i <= fl3743::MATRIX_LEN implies d.regs.contains_key((p, i)) && d.regs[(p, i)]
        == c.regs[(p, i)] by {
        if p == 0 {
            assert(c.regs[(0u8, i)] == matrix[i - 1]);
        } else {
            assert(c.regs[(1u8, i)] == scale);
        }
    }
}


/// On the IS31FL3743A, filling with `b` and then writing 0 to one LED
/// register leaves the frame, as a read-back sees it, at `b` everywhere but
/// that register, which holds 0.
pub proof fn lemma_fill_then_clear_frame(c: Chip, b: u8, reg: u8)
    requires
        1 <= reg <= fl3743::MATRIX_LEN,
    ensures
        ({
            let d = replay(c, fl3743::fill_plan(b) + fl3743::register_plan(fl3743::Page::Pwm, reg, 0));
            forall|i: int| #![trigger d.regs[(0u8, i)]] #![trigger d.regs.contains_key((0u8, i))]
                1 <= i <= fl3743::MATRIX_LEN ==> d.regs.contains_key((0u8, i)) && d.regs[(0u8, i)]
                    == if i == reg {
                    0
                } else {
                    b
                }
        }),
{
    let fill = fl3743::fill_plan(b);
    let clear = fl3743::register_plan(fl3743::Page::Pwm, reg, 0);
    lemma_replay_concat(c, fill, clear);
    let c1 = replay(c, fill);
    let d = replay(c1, clear);
    let f_bytes = fl3743::led_transfer(fl3743::uniform(b, fl3743::MATRIX_LEN as nat));
    let z_bytes = seq![reg, 0u8];
    assert(f_bytes[0] == 1);
    assert forall|i: int| #![trigger d.regs[(0u8, i)]] #![trigger d.regs.contains_key((0u8, i))]
        1 <= i <= fl3743::MATRIX_LEN implies d.regs.contains_key((0u8, i)) && d.regs[(0u8, i)]
        == if i == reg {
        0
    } else {
        b
    } by {
        lemma_replay_bank_write(c, 0, f_bytes, (0u8, i));
        lemma_replay_bank_write(c1, 0, z_bytes, (0u8, i));
        assert(f_bytes[i - f_bytes[0] + 1] == b);
        if i == reg {
            assert(covers(0u8, z_bytes, (0u8, i)));
        } else {
            assert(!covers(0u8, z_bytes, (0u8, i)));
        }
    }
}

} // verus!
