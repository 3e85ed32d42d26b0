//! The meaning of the emitted instructions over the cell tape, and the
//! laws the translator's output obeys: chunked addition acts as one
//! addition modulo 256, opposite pointer moves cancel, a push followed
//! by a pop restores the cell and the auxiliary pointer, a loop tests
//! its cell before every iteration and skips its body when the cell is
//! zero, and registration precedes a function body, so a body can call
//! its own function.

use vstd::prelude::*;

use crate::assembler::AsmItem;
use crate::compiler::add_chunks;
use crate::scope::lookup_fn;

verus! {

/// The observable machine state the emitted code acts on: the byte
/// tape, the data pointer (`r8`), the auxiliary stack pointer (`r9`)
/// and the byte accumulator (`al`).
pub struct CellMachine {
    pub mem: Map<u64, u8>,
    pub data_ptr: u64,
    pub aux_ptr: u64,
    pub acc: u8,
}

/// 64-bit wrapping addition, as `lea` computes an address.
pub open spec fn wrap_add64(a: u64, b: u64) -> u64 {
    if a + b < 0x1_0000_0000_0000_0000 {
        (a + b) as u64
    } else {
        (a + b - 0x1_0000_0000_0000_0000) as u64
    }
}

/// 64-bit wrapping subtraction.
pub open spec fn wrap_sub64(a: u64, b: u64) -> u64 {
    if b <= a {
        (a - b) as u64
    } else {
        (a + 0x1_0000_0000_0000_0000 - b) as u64
    }
}

/// What one straight-line item does to the machine. Directives, label
/// binds and control-flow items leave the state unchanged here; control
/// flow is the concern of the stream's layout, not of the data effect.
pub open spec fn step_item(s: CellMachine, item: AsmItem) -> CellMachine {
    match item {
        AsmItem::AddCell(n) => CellMachine {
            mem: s.mem.insert(
                s.data_ptr,
                (((s.mem[s.data_ptr] + n) % 256) as u8),
            ),
            ..s
        },
        AsmItem::SubCell(n) => CellMachine {
            mem: s.mem.insert(
                s.data_ptr,
                (((s.mem[s.data_ptr] + 256 - (n % 256)) % 256) as u8),
            ),
            ..s
        },
        AsmItem::LeaDataAdd(n) => CellMachine { data_ptr: wrap_add64(s.data_ptr, n as u64), ..s },
        AsmItem::LeaDataSub(n) => CellMachine { data_ptr: wrap_sub64(s.data_ptr, n as u64), ..s },
        AsmItem::LeaAuxAdd(n) => CellMachine { aux_ptr: wrap_add64(s.aux_ptr, n as u64), ..s },
        AsmItem::LeaAuxSub(n) => CellMachine { aux_ptr: wrap_sub64(s.aux_ptr, n as u64), ..s },
        AsmItem::MovAccFromData => CellMachine { acc: s.mem[s.data_ptr], ..s },
        AsmItem::MovDataFromAcc => CellMachine { mem: s.mem.insert(s.data_ptr, s.acc), ..s },
        AsmItem::MovAuxFromAcc => CellMachine { mem: s.mem.insert(s.aux_ptr, s.acc), ..s },
        AsmItem::MovAccFromAux => CellMachine { acc: s.mem[s.aux_ptr], ..s },
        _ => s,
    }
}

/// Runs a stream of straight-line items left to right.
pub open spec fn run_items(s: CellMachine, items: Seq<AsmItem>) -> CellMachine
    decreases items.len(),
{
    if items.len() == 0 {
        s
    } else {
        run_items(step_item(s, items[0]), items.drop_first())
    }
}

/// Executing the chunked addition emitted for `Add(n)` against any
/// initial cell value yields that value plus `n`, modulo 256, however
/// many 255-chunks were emitted; pointers and accumulator are
/// untouched, and no other cell changes.
pub proof fn lemma_add_chunks_effect(s: CellMachine, n: u64)
    ensures
        ({
            let r = run_items(s, add_chunks(n));
            &&& r.mem == s.mem.insert(
                s.data_ptr,
                (((s.mem[s.data_ptr] + n) % 256) as u8),
            )
            &&& r.data_ptr == s.data_ptr
            &&& r.aux_ptr == s.aux_ptr
            &&& r.acc == s.acc
        }),
    decreases n,
{
    if n > 255 {
        let s1 = step_item(s, AsmItem::AddCell(255));
        assert(add_chunks(n)[0] == AsmItem::AddCell(255));
        assert(add_chunks(n).drop_first() =~= add_chunks((n - 255) as u64));
        assert(run_items(s, add_chunks(n)) == run_items(s1, add_chunks((n - 255) as u64)));
        lemma_add_chunks_effect(s1, (n - 255) as u64);
        let v0 = s.mem[s.data_ptr] as int;
        assert(s1.mem[s.data_ptr] == ((v0 + 255) % 256) as u8);
        assert((((v0 + 255) % 256) + (n - 255)) % 256 == (v0 + n) % 256) by (nonlinear_arith);
        assert(run_items(s, add_chunks(n)).mem =~= s.mem.insert(
            s.data_ptr,
            (((s.mem[s.data_ptr] + n) % 256) as u8),
        ));
    } else {
        assert(add_chunks(n) == seq![AsmItem::AddCell(n as u32)]);
        assert(add_chunks(n)[0] == AsmItem::AddCell(n as u32));
        assert(add_chunks(n).drop_first() =~= Seq::<AsmItem>::empty());
        assert(run_items(s, add_chunks(n)) == run_items(
            step_item(s, AsmItem::AddCell(n as u32)),
            Seq::<AsmItem>::empty(),
        ));
        assert(run_items(s, add_chunks(n)) == step_item(s, AsmItem::AddCell(n as u32)));
    }
}

/// Moving the data pointer right by `n` and then left by `n` (the
/// streams emitted for `MoveRight(n)` and `MoveLeft(n)`) returns it to
/// its original address and changes nothing else.
pub proof fn lemma_move_round_trip(s: CellMachine, n: u64)
    requires
        n <= 0x7FFF_FFFF,
    ensures
        ({
            let r = run_items(
                s,
                seq![AsmItem::LeaDataAdd(n as u32), AsmItem::LeaDataSub(n as u32)],
            );
            &&& r.data_ptr == s.data_ptr
            &&& r.mem == s.mem
            &&& r.aux_ptr == s.aux_ptr
            &&& r.acc == s.acc
        }),
{
    let items = seq![AsmItem::LeaDataAdd(n as u32), AsmItem::LeaDataSub(n as u32)];
    let s1 = step_item(s, items[0]);
    let rest = items.drop_first();
    assert(rest =~= seq![AsmItem::LeaDataSub(n as u32)]);
    assert(rest.drop_first() =~= Seq::<AsmItem>::empty());
    assert(run_items(s, items) == run_items(s1, rest));
    assert(run_items(s1, rest) == run_items(step_item(s1, rest[0]), Seq::<AsmItem>::empty()));
    assert(wrap_sub64(wrap_add64(s.data_ptr, n), n) == s.data_ptr);
}

/// A push followed immediately by a pop (the streams emitted for
/// `StackPush` then `StackPop`) leaves the data-pointer cell, the data
/// pointer, the auxiliary pointer and the accumulator's final copy of
/// the cell all consistent: the cell and both pointers are unchanged.
pub proof fn lemma_push_pop_round_trip(s: CellMachine)
    ensures
        ({
            let r = run_items(
                s,
                seq![
                    AsmItem::LeaAuxAdd(1),
                    AsmItem::MovAccFromData,
                    AsmItem::MovAuxFromAcc,
                    AsmItem::MovAccFromAux,
                    AsmItem::MovDataFromAcc,
                    AsmItem::LeaAuxSub(1),
                ],
            );
            &&& r.mem[s.data_ptr] == s.mem[s.data_ptr]
            &&& r.data_ptr == s.data_ptr
            &&& r.aux_ptr == s.aux_ptr
        }),
{
    let items = seq![
        AsmItem::LeaAuxAdd(1),
        AsmItem::MovAccFromData,
        AsmItem::MovAuxFromAcc,
        AsmItem::MovAccFromAux,
        AsmItem::MovDataFromAcc,
        AsmItem::LeaAuxSub(1),
    ];
    let s1 = step_item(s, items[0]);
    let s2 = step_item(s1, items[1]);
    let s3 = step_item(s2, items[2]);
    let s4 = step_item(s3, items[3]);
    let s5 = step_item(s4, items[4]);
    let s6 = step_item(s5, items[5]);
    assert(items.drop_first() =~= items.subrange(1, 6));
    assert(items.subrange(1, 6).drop_first() =~= items.subrange(2, 6));
    assert(items.subrange(2, 6).drop_first() =~= items.subrange(3, 6));
    assert(items.subrange(3, 6).drop_first() =~= items.subrange(4, 6));
    assert(items.subrange(4, 6).drop_first() =~= items.subrange(5, 6));
    assert(items.subrange(5, 6).drop_first() =~= Seq::<AsmItem>::empty());
    assert(items.subrange(1, 6)[0] == items[1]);
    assert(items.subrange(2, 6)[0] == items[2]);
    assert(items.subrange(3, 6)[0] == items[3]);
    assert(items.subrange(4, 6)[0] == items[4]);
    assert(items.subrange(5, 6)[0] == items[5]);
    assert(run_items(s, items) == run_items(s1, items.subrange(1, 6)));
    assert(run_items(s1, items.subrange(1, 6)) == run_items(s2, items.subrange(2, 6)));
    assert(run_items(s2, items.subrange(2, 6)) == run_items(s3, items.subrange(3, 6)));
    assert(run_items(s3, items.subrange(3, 6)) == run_items(s4, items.subrange(4, 6)));
    assert(run_items(s4, items.subrange(4, 6)) == run_items(s5, items.subrange(5, 6)));
    assert(run_items(s5, items.subrange(5, 6)) == run_items(s6, Seq::<AsmItem>::empty()));
    assert(run_items(s5, items.subrange(5, 6)) == s6);
    assert(run_items(s, items) == s6);
    assert(wrap_sub64(wrap_add64(s.aux_ptr, 1), 1) == s.aux_ptr);
    assert(s6.mem[s.data_ptr] == s.mem[s.data_ptr]);
}

/// Compiling `Add(300)` emits exactly two arithmetic instructions on
/// the cell: one addition of 255, then one of 45.
pub proof fn lemma_add_three_hundred_chunks()
    ensures
        add_chunks(300) == seq![AsmItem::AddCell(255), AsmItem::AddCell(45)],
{
    assert(add_chunks(45) == seq![AsmItem::AddCell(45)]);
    assert(add_chunks(300) =~= seq![AsmItem::AddCell(255), AsmItem::AddCell(45)]);
}

/// A machine position inside an instruction stream: the index of the
/// next item, the data state, and the zero flag left by the last
/// comparison.
pub struct LoopMachine {
    pub pc: int,
    pub cell: CellMachine,
    pub zf: bool,
}

/// The index of the first `Bind` of the given label in the stream.
pub open spec fn bind_pos(items: Seq<AsmItem>, id: nat) -> int
    decreases items.len(),
{
    if items.len() == 0 {
        0
    } else if items[0] == AsmItem::Bind(id) {
        0
    } else {
        1 + bind_pos(items.drop_first(), id)
    }
}

/// One control step: a comparison sets the zero flag from the tested
/// cell, a conditional jump branches on it to the label's bind
/// position, an unconditional jump always does, and every other item
/// acts on the data state and falls through.
pub open spec fn ctrl_step(items: Seq<AsmItem>, m: LoopMachine) -> LoopMachine {
    match items[m.pc] {
        AsmItem::CmpCellZero => LoopMachine {
            pc: m.pc + 1,
            zf: m.cell.mem[m.cell.data_ptr] == 0,
            ..m
        },
        AsmItem::Je(id) => if m.zf {
            LoopMachine { pc: bind_pos(items, id), ..m }
        } else {
            LoopMachine { pc: m.pc + 1, ..m }
        },
        AsmItem::Jmp(id) => LoopMachine { pc: bind_pos(items, id), ..m },
        _ => LoopMachine { pc: m.pc + 1, cell: step_item(m.cell, items[m.pc]), ..m },
    }
}

/// The stream the translator emits for `Condition(body)`: the loop
/// head, the test, the conditional exit, the body, the back edge and
/// the end label.
pub open spec fn cond_items(start_id: nat, end_id: nat, body: Seq<AsmItem>) -> Seq<AsmItem> {
    seq![
        AsmItem::ZeroBytes,
        AsmItem::Bind(start_id),
        AsmItem::CmpCellZero,
        AsmItem::Je(end_id),
    ] + body + seq![AsmItem::Jmp(start_id), AsmItem::Bind(end_id), AsmItem::ZeroBytes]
}

/// A label bound nowhere in a prefix is found past it.
pub proof fn lemma_bind_pos_concat(prefix: Seq<AsmItem>, rest: Seq<AsmItem>, id: nat)
    requires
        forall|i: int| 0 <= i < prefix.len() ==> prefix[i] != AsmItem::Bind(id),
    ensures
        bind_pos(prefix + rest, id) == prefix.len() + bind_pos(rest, id),
    decreases prefix.len(),
{
    if prefix.len() > 0 {
        assert((prefix + rest)[0] == prefix[0]);
        assert((prefix + rest).drop_first() =~= prefix.drop_first() + rest);
        lemma_bind_pos_concat(prefix.drop_first(), rest, id);
    } else {
        assert(prefix + rest =~= rest);
    }
}

/// A loop whose entry cell is zero executes its body zero times: from
/// the comparison, two steps land just past the loop's end label, with
/// the data state untouched. The body hypothesis holds of every stream
/// the translator emits, whose inner blocks bind only labels created
/// after the loop's own.
pub proof fn lemma_condition_zero_entry(
    start_id: nat,
    end_id: nat,
    body: Seq<AsmItem>,
    m: LoopMachine,
)
    requires
        start_id != end_id,
        forall|i: int| 0 <= i < body.len() ==> body[i] != AsmItem::Bind(end_id),
        m.pc == 2,
        m.cell.mem[m.cell.data_ptr] == 0,
    ensures
        ({
            let items = cond_items(start_id, end_id, body);
            let m2 = ctrl_step(items, ctrl_step(items, m));
            &&& m2.pc == body.len() + 5
            &&& m2.cell == m.cell
        }),
{
    let items = cond_items(start_id, end_id, body);
    let head = seq![
        AsmItem::ZeroBytes,
        AsmItem::Bind(start_id),
        AsmItem::CmpCellZero,
        AsmItem::Je(end_id),
    ];
    let tail = seq![AsmItem::Jmp(start_id), AsmItem::Bind(end_id), AsmItem::ZeroBytes];
    assert(items[2] == AsmItem::CmpCellZero);
    assert(items[3] == AsmItem::Je(end_id));
    let m1 = ctrl_step(items, m);
    assert(m1.pc == 3 && m1.zf);
    assert(items =~= (head + body) + tail);
    assert forall|i: int| 0 <= i < (head + body).len() implies (head + body)[i] != AsmItem::Bind(
        end_id,
    ) by {
        if i >= 4 {
            assert((head + body)[i] == body[i - 4]);
        }
    }
    lemma_bind_pos_concat(head + body, tail, end_id);
    assert(tail[0] != AsmItem::Bind(end_id));
    assert(tail.drop_first() =~= seq![AsmItem::Bind(end_id), AsmItem::ZeroBytes]);
    assert(bind_pos(seq![AsmItem::Bind(end_id), AsmItem::ZeroBytes], end_id) == 0);
    assert(bind_pos(tail, end_id) == 1);
    assert(bind_pos(items, end_id) == body.len() + 5);
}

/// A loop whose entry cell is non-zero proceeds into its body: from
/// the comparison, two steps land on the body's first position, with
/// the data state untouched. Together with the zero case, the exit
/// edge is taken exactly when the tested cell is zero.
pub proof fn lemma_condition_nonzero_enters_body(
    start_id: nat,
    end_id: nat,
    body: Seq<AsmItem>,
    m: LoopMachine,
)
    requires
        m.pc == 2,
        m.cell.mem[m.cell.data_ptr] != 0,
    ensures
        ({
            let items = cond_items(start_id, end_id, body);
            let m2 = ctrl_step(items, ctrl_step(items, m));
            &&& m2.pc == 4
            &&& m2.cell == m.cell
        }),
{
    let items = cond_items(start_id, end_id, body);
    assert(items[2] == AsmItem::CmpCellZero);
    assert(items[3] == AsmItem::Je(end_id));
}

/// The loop's back edge returns control to the comparison: from the
/// closing jump, two steps (the jump, then the loop-head label) land on
/// the test again, so the cell is re-evaluated at every iteration.
pub proof fn lemma_condition_back_edge(
    start_id: nat,
    end_id: nat,
    body: Seq<AsmItem>,
    m: LoopMachine,
)
    requires
        forall|i: int| 0 <= i < body.len() ==> body[i] != AsmItem::Bind(start_id),
        m.pc == body.len() + 4,
    ensures
        ({
            let items = cond_items(start_id, end_id, body);
            let m2 = ctrl_step(items, ctrl_step(items, m));
            &&& m2.pc == 2
            &&& m2.cell == m.cell
        }),
{
    let items = cond_items(start_id, end_id, body);
    let first = seq![AsmItem::ZeroBytes];
    let rest = seq![AsmItem::Bind(start_id), AsmItem::CmpCellZero, AsmItem::Je(end_id)] + body
        + seq![AsmItem::Jmp(start_id), AsmItem::Bind(end_id), AsmItem::ZeroBytes];
    assert(items =~= first + rest);
    lemma_bind_pos_concat(first, rest, start_id);
    assert(rest[0] == AsmItem::Bind(start_id));
    assert(bind_pos(items, start_id) == 1);
    assert(items[(body.len() + 4) as int] == AsmItem::Jmp(start_id));
    let m1 = ctrl_step(items, m);
    assert(m1.pc == 1);
    assert(items[1] == AsmItem::Bind(start_id));
}

/// A function's name is registered before its body is translated, so
/// inside the body — whatever was registered meanwhile — the name
/// resolves; recursion is permitted.
pub proof fn lemma_self_call_resolves(
    fns: Seq<(Seq<char>, nat)>,
    name: Seq<char>,
    entry: nat,
    later: Seq<(Seq<char>, nat)>,
)
    ensures
        lookup_fn(fns.push((name, entry)) + later, name) is Some,
    decreases later.len(),
{
    if later.len() == 0 {
        assert(fns.push((name, entry)) + later =~= fns.push((name, entry)));
    } else {
        lemma_self_call_resolves(fns, name, entry, later.drop_last());
        assert((fns.push((name, entry)) + later).drop_last() =~= fns.push((name, entry))
            + later.drop_last());
    }
}

} // verus!
