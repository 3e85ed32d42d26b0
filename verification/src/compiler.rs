//! The instruction translator: walks the IR tree depth-first and emits
//! symbolic instructions through the assembler capability, keeping the
//! data pointer in `r8` and the auxiliary stack pointer in `r9`.
//!
//! The whole translation is mirrored by the spec functions
//! [`trans_node`], [`trans_nodes`] and [`trans_function`] over a ghost
//! translation state [`TState`]; the executable translator is verified
//! to realize exactly that mirror, except that the assembler capability
//! may reject an emission at any point, which surfaces as an
//! [`CompilerErrorKind::AssemblerError`].

use vstd::prelude::*;

use crate::assembler::{
    asm_accepts, bind_pending, code_bytes_of, has_bind, label_ip_of, Asm, AsmItem, Assembled,
};
use crate::ir::{IrNode, IrOp, Span};
use crate::obj::{
    emit_object, ips_of, lemma_zero_all_none, lemma_zero_all_push, lemma_zero_all_split,
    lemma_zero_entry_push, lemma_zero_entry_split, obj_relocs, obj_symbols, obj_text,
    object_trans, plan_matches, plan_syms_model, relocs_model, split_fns, split_others,
    synth_span, zero_all, zero_call_site, zero_entry, ExternalSym, FnSym, ObjectPlan, RelocEntry,
};
use crate::scope::{clone_string, lookup_fn, ScopeManager, ScopeName};

verus! {

broadcast use {
    vstd::seq::axiom_seq_index_decreases,
    vstd::seq::axiom_seq_subrange_decreases,
    vstd::std_specs::vec::axiom_vec_decreases_to_view,
    vstd::std_specs::vec::axiom_vec_index_decreases,
    vstd::seq_lib::group_seq_lib_default,
    vstd::seq::Seq::lemma_filter_push,
};

/// The calling conventions a foreign function may expect. Only the two
/// x86-64 conventions have a modeled argument-marshaling strategy; any
/// other choice is a configuration error reported at translation time.
#[derive(Clone, Copy, PartialEq, Eq, Structural, Debug)]
pub enum CallingConvention {
    X86_64SystemVAmd64,
    X86_64MicrosoftX64,
    /// The 32-bit C convention; accepted by the front end's
    /// configuration but not marshaled by this backend.
    X86Cdecl,
}

/// Settings a compile request consumes but does not own.
#[derive(Clone, Copy, PartialEq, Eq, Structural, Debug)]
pub struct CompilerSettings {
    /// Base address used only when resolving addresses for the raw
    /// bytecode output path.
    pub base_address: u64,
}

/// The kinds of failure a compile request can end with.
#[derive(Debug)]
pub enum CompilerErrorKind {
    /// The assembler capability rejected an instruction or layout;
    /// wraps the underlying message.
    AssemblerError(String),
    /// A `MoveRight`/`MoveLeft` displacement exceeds the representable
    /// range.
    MoveTooLarge(u64),
    /// A call references a name absent from the function registry at
    /// the time of translation.
    FunctionNotFound(String),
    /// An IR node kind this backend does not translate.
    UnsupportedOperation,
    /// The configured calling convention has no modeled
    /// argument-marshaling strategy.
    UnsupportedCallingConvention,
    /// The object builder could not record a relocation for an external
    /// symbol.
    RelocationFailed(String),
    /// An internal-consistency fault of the translator or object
    /// builder, distinct from bad input: a resolved address fell
    /// outside the assembled buffer.
    InternalFault,
}

/// A compile failure: its kind, with the originating source span when
/// one is available.
#[derive(Debug)]
pub struct CompilerError {
    pub kind: CompilerErrorKind,
    pub span: Option<Span>,
}

/// The deterministic failures of translation, i.e. all of them except
/// an assembler rejection.
pub enum TransErr {
    MoveTooLarge(u64),
    FunctionNotFound(Seq<char>),
    UnsupportedOperation,
    UnsupportedCallingConvention,
}

/// The ghost translation state: everything translation accumulates.
#[verifier::ext_equal]
pub struct TState {
    /// The symbolic instruction stream emitted so far.
    pub items: Seq<AsmItem>,
    /// How many labels have been created.
    pub labels: nat,
    /// The function registry, in registration order, newest last.
    pub fns: Seq<(Seq<char>, nat)>,
    /// The functions registered at root scope, in registration order.
    pub globals: Seq<(Seq<char>, nat)>,
    /// How many scopes are active above the root.
    pub depth: nat,
    /// The external-call table: one entry per distinct name in
    /// first-call order, with that name's call-site labels in emission
    /// order.
    pub exts: Seq<(Seq<char>, Seq<nat>)>,
}

/// The outcome of (a part of) a translation.
pub enum TransRes {
    Good(TState),
    Fail(TransErr, Span),
}

/// Whether a compile error renders the given deterministic translation
/// failure.
pub open spec fn err_matches(e: CompilerError, k: TransErr, sp: Span) -> bool {
    &&& e.span == Some(sp)
    &&& match k {
        TransErr::MoveTooLarge(n) => e.kind matches CompilerErrorKind::MoveTooLarge(m) && m == n,
        TransErr::FunctionNotFound(nm) => e.kind matches CompilerErrorKind::FunctionNotFound(s)
            && s@ == nm,
        TransErr::UnsupportedOperation => e.kind is UnsupportedOperation,
        TransErr::UnsupportedCallingConvention => e.kind is UnsupportedCallingConvention,
    }
}

/// The item is no bind of a label at or above `n`.
pub open spec fn bind_below(item: AsmItem, n: nat) -> bool {
    item matches AsmItem::Bind(b) ==> b < n
}

/// The item binds, if it binds at all, a label in `[lo, hi)`.
pub open spec fn bind_in_range(item: AsmItem, lo: nat, hi: nat) -> bool {
    item matches AsmItem::Bind(b) ==> lo <= b < hi
}

/// Every label recorded anywhere in the state was created.
pub open spec fn st_bounded(st: TState) -> bool {
    &&& forall|i: int| 0 <= i < st.fns.len() ==> (#[trigger] st.fns[i]).1 < st.labels
    &&& forall|i: int| 0 <= i < st.globals.len() ==> (#[trigger] st.globals[i]).1 < st.labels
    &&& forall|i: int, j: int|
        0 <= i < st.exts.len() && 0 <= j < st.exts[i].1.len() ==> (#[trigger] st.exts[i].1[j])
            < st.labels
    &&& forall|i: int| 0 <= i < st.items.len() ==> bind_below(#[trigger] st.items[i], st.labels)
}

/// Translation only appends to the stream, and every appended bind
/// names a label created during the same step.
pub open spec fn items_extend(pre: TState, post: TState) -> bool {
    &&& post.items.len() >= pre.items.len()
    &&& forall|k: int| 0 <= k < pre.items.len() ==> #[trigger] post.items[k] == pre.items[k]
    &&& forall|k: int|
        pre.items.len() <= k < post.items.len() ==> bind_in_range(
            #[trigger] post.items[k],
            pre.labels,
            post.labels,
        )
}

/// The arithmetic instructions emitted for `Add(n)`: chunks of 255
/// until the remainder fits a byte, then the remainder.
pub open spec fn add_chunks(n: u64) -> Seq<AsmItem>
    decreases n,
{
    if n > 255 {
        seq![AsmItem::AddCell(255)] + add_chunks((n - 255) as u64)
    } else {
        seq![AsmItem::AddCell(n as u32)]
    }
}

/// Whether this backend has an argument-marshaling strategy for the
/// convention.
pub open spec fn cc_supported(cc: CallingConvention) -> bool {
    cc is X86_64SystemVAmd64 || cc is X86_64MicrosoftX64
}

/// The marshaling prologue of an external call: save both dedicated
/// registers, then compute the addresses of the two saved slots into
/// the convention's argument registers.
pub open spec fn marshal_items(cc: CallingConvention) -> Seq<AsmItem> {
    match cc {
        CallingConvention::X86_64SystemVAmd64 => seq![
            AsmItem::PushData,
            AsmItem::PushAux,
            AsmItem::LeaArg1SysV,
            AsmItem::LeaArg2SysV,
        ],
        CallingConvention::X86_64MicrosoftX64 => seq![
            AsmItem::PushData,
            AsmItem::PushAux,
            AsmItem::LeaArg1Win,
            AsmItem::LeaArg2Win,
        ],
        CallingConvention::X86Cdecl => Seq::empty(),
    }
}

/// Index of the entry for `name` in the external-call table, if any.
pub open spec fn ext_find(exts: Seq<(Seq<char>, Seq<nat>)>, name: Seq<char>) -> Option<int>
    decreases exts.len(),
{
    if exts.len() == 0 {
        None
    } else if exts[0].0 == name {
        Some(0)
    } else {
        match ext_find(exts.drop_first(), name) {
            Some(i) => Some(i + 1),
            None => None,
        }
    }
}

/// Records one call site for `name` in the external-call table.
pub open spec fn ext_add(exts: Seq<(Seq<char>, Seq<nat>)>, name: Seq<char>, site: nat) -> Seq<
    (Seq<char>, Seq<nat>),
> {
    match ext_find(exts, name) {
        Some(i) => exts.update(i, (name, exts[i].1.push(site))),
        None => exts.push((name, seq![site])),
    }
}

/// What translating one node does to the state, if the assembler
/// accepts every emission.
pub open spec fn trans_node(cc: CallingConvention, st: TState, node: IrNode) -> TransRes
    decreases node, 1int,
{
    match node.node {
        IrOp::Add(n) => TransRes::Good(TState { items: st.items + add_chunks(n), ..st }),
        IrOp::Subtract(n) => TransRes::Good(
            TState { items: st.items.push(AsmItem::SubCell((n % 256) as u32)), ..st },
        ),
        IrOp::MoveRight(n) => if n > 0x7FFF_FFFF {
            TransRes::Fail(TransErr::MoveTooLarge(n), node.span)
        } else {
            TransRes::Good(TState { items: st.items.push(AsmItem::LeaDataAdd(n as u32)), ..st })
        },
        IrOp::MoveLeft(n) => if n > 0x7FFF_FFFF {
            TransRes::Fail(TransErr::MoveTooLarge(n), node.span)
        } else {
            TransRes::Good(TState { items: st.items.push(AsmItem::LeaDataSub(n as u32)), ..st })
        },
        IrOp::StackPush => TransRes::Good(
            TState {
                items: st.items + seq![
                    AsmItem::LeaAuxAdd(1),
                    AsmItem::MovAccFromData,
                    AsmItem::MovAuxFromAcc,
                ],
                ..st
            },
        ),
        IrOp::StackPop => TransRes::Good(
            TState {
                items: st.items + seq![
                    AsmItem::MovAccFromAux,
                    AsmItem::MovDataFromAcc,
                    AsmItem::LeaAuxSub(1),
                ],
                ..st
            },
        ),
        IrOp::Condition(body) => {
            let start_id = st.labels;
            let end_id = st.labels + 1;
            let entered = TState {
                items: st.items + seq![
                    AsmItem::ZeroBytes,
                    AsmItem::Bind(start_id),
                    AsmItem::CmpCellZero,
                    AsmItem::Je(end_id),
                ],
                labels: st.labels + 2,
                depth: st.depth + 1,
                ..st
            };
            match trans_nodes(cc, entered, body@) {
                TransRes::Good(after) => TransRes::Good(
                    TState {
                        items: after.items + seq![
                            AsmItem::Jmp(start_id),
                            AsmItem::Bind(end_id),
                            AsmItem::ZeroBytes,
                        ],
                        depth: (after.depth - 1) as nat,
                        ..after
                    },
                ),
                f => f,
            }
        },
        IrOp::Function(name, body) => trans_function(cc, st, name@, node.span, body@),
        IrOp::FunctionCall(name) => match lookup_fn(st.fns, name@) {
            Some(id) => TransRes::Good(
                TState { items: st.items.push(AsmItem::CallLabel(id)), ..st },
            ),
            None => TransRes::Fail(TransErr::FunctionNotFound(name@), node.span),
        },
        IrOp::ExternalFunctionCall(name) => if !cc_supported(cc) {
            TransRes::Fail(TransErr::UnsupportedCallingConvention, node.span)
        } else {
            let site = st.labels;
            TransRes::Good(
                TState {
                    items: st.items + seq![AsmItem::ZeroBytes] + marshal_items(cc) + seq![
                        AsmItem::Bind(site),
                        AsmItem::CallLabel(site),
                        AsmItem::PopAux,
                        AsmItem::PopData,
                    ],
                    labels: st.labels + 1,
                    exts: ext_add(st.exts, name@, site),
                    ..st
                },
            )
        },
        IrOp::Input => TransRes::Fail(TransErr::UnsupportedOperation, node.span),
        IrOp::Output => TransRes::Fail(TransErr::UnsupportedOperation, node.span),
    }
}

/// What declaring and translating a function does to the state: bind an
/// entry label, register the name (before the body, so the body can
/// call it recursively), translate the body in a fresh scope, and emit
/// the return.
pub open spec fn trans_function(
    cc: CallingConvention,
    st: TState,
    name: Seq<char>,
    span: Span,
    body: Seq<IrNode>,
) -> TransRes
    decreases body, 1int,
{
    let fid = st.labels;
    let registered = TState {
        items: st.items + seq![AsmItem::ZeroBytes, AsmItem::Bind(fid)],
        labels: st.labels + 1,
        fns: st.fns.push((name, fid)),
        globals: if st.depth == 0 {
            st.globals.push((name, fid))
        } else {
            st.globals
        },
        depth: st.depth + 1,
        exts: st.exts,
    };
    match trans_nodes(cc, registered, body) {
        TransRes::Good(after) => TransRes::Good(
            TState { items: after.items.push(AsmItem::Ret), depth: (after.depth - 1) as nat, ..after },
        ),
        f => f,
    }
}

/// What translating a sequence of nodes does to the state: the fold of
/// [`trans_node`], stopping at the first failure.
pub open spec fn trans_nodes(cc: CallingConvention, st: TState, nodes: Seq<IrNode>) -> TransRes
    decreases nodes, 0int,
{
    if nodes.len() == 0 {
        TransRes::Good(st)
    } else {
        match trans_node(cc, st, nodes[0]) {
            TransRes::Good(st1) => trans_nodes(cc, st1, nodes.drop_first()),
            f => f,
        }
    }
}

/// The x86-64 backend of one compile request: its configuration, its
/// scope and function registry, and its external-call table.
pub struct Compiler {
    bitness: u32,
    calling_convention: CallingConvention,
    settings: CompilerSettings,
    external_calls: Vec<(String, Vec<usize>)>,
    scopes: ScopeManager,
}

impl Compiler {
    /// The configured calling convention.
    pub closed spec fn cc(&self) -> CallingConvention {
        self.calling_convention
    }

    /// The configured settings.
    pub closed spec fn spec_settings(&self) -> CompilerSettings {
        self.settings
    }

    /// The scope stack is well formed.
    pub closed spec fn wf(&self) -> bool {
        self.scopes.wf()
    }

    /// The external-call table as the ghost model sees it.
    pub closed spec fn exts_view(&self) -> Seq<(Seq<char>, Seq<nat>)> {
        Seq::new(
            self.external_calls@.len(),
            |i: int|
                (
                    self.external_calls@[i].0@,
                    Seq::new(
                        self.external_calls@[i].1@.len(),
                        |j: int| self.external_calls@[i].1@[j] as nat,
                    ),
                ),
        )
    }

    /// The ghost translation state this compiler holds, joined with the
    /// given assembler stream and label count.
    pub closed spec fn state_with(&self, items: Seq<AsmItem>, labels: nat) -> TState {
        TState {
            items,
            labels,
            fns: self.scopes.fns_view(),
            globals: self.scopes.globals_view(),
            depth: self.scopes.depth(),
            exts: self.exts_view(),
        }
    }

    /// A fresh backend: empty registry and empty external-call table,
    /// as every compile request requires.
    pub fn new(
        bitness: u32,
        compiler_settings: CompilerSettings,
        calling_convention: CallingConvention,
    ) -> (r: Compiler)
        requires
            bitness == 64,
        ensures
            r.wf(),
            r.cc() == calling_convention,
            r.spec_settings() == compiler_settings,
            r.spec_bitness() == bitness,
            r.state_with(Seq::<AsmItem>::empty(), 0) == empty_state(),
    {
        let r = Compiler {
            bitness,
            calling_convention,
            settings: compiler_settings,
            external_calls: Vec::new(),
            scopes: ScopeManager::new(),
        };
        proof {
            assert(r.exts_view() =~= Seq::<(Seq<char>, Seq<nat>)>::empty());
            assert(r.state_with(Seq::<AsmItem>::empty(), 0) =~~= empty_state());
        }
        r
    }

    /// Records one external call site under its function name: appended
    /// to the name's entry if one exists, else a new entry is opened.
    fn add_external_call(&mut self, name: String, label: usize)
        ensures
            final(self).exts_view() == ext_add(old(self).exts_view(), name@, label as nat),
            final(self).wf() == old(self).wf(),
            final(self).cc() == old(self).cc(),
            final(self).spec_settings() == old(self).spec_settings(),
            final(self).spec_bitness() == old(self).spec_bitness(),
            final(self).scopes == old(self).scopes,
    {
        let ghost pre = self.exts_view();
        let mut i: usize = 0;
        while i < self.external_calls.len()
            invariant
                *self == *old(self),
                pre == self.exts_view(),
                i <= self.external_calls@.len(),
                forall|j: int| 0 <= j < i ==> (#[trigger] self.exts_view()[j]).0 != name@,
            decreases self.external_calls@.len() - i,
        {
            if string_eq(&self.external_calls[i].0, &name) {
                proof {
                    assert(pre[i as int].0 == self.external_calls@[i as int].0@);
                    lemma_ext_find_at(pre, name@, i as int);
                }
                let ghost vecs0 = self.external_calls@;
                let mut entry = self.external_calls.remove(i);
                entry.1.push(label);
                self.external_calls.insert(i, entry);
                proof {
                    let post = self.exts_view();
                    let tgt = ext_add(pre, name@, label as nat);
                    assert(self.external_calls@ =~= vecs0.update(i as int, entry));
                    assert(post.len() == tgt.len());
                    assert forall|k: int|
                        0 <= k < post.len() implies post[k].0 == tgt[k].0 && post[k].1 =~= tgt[k].1 by {
                        if k == i {
                            assert(post[k].1 =~= pre[i as int].1.push(label as nat));
                            assert(post[k].0 == name@);
                        } else {
                            assert(post[k].1 =~= pre[k].1);
                        }
                    }
                    assert(post =~~= tgt);
                }
                return ;
            }
            i += 1;
        }
        proof {
            lemma_ext_find_none(self.exts_view(), name@);
        }
        let ghost named = name@;
        self.external_calls.push((name, vec![label]));
        proof {
            let post = self.exts_view();
            let tgt = ext_add(pre, named, label as nat);
            assert(post.len() == tgt.len());
            assert forall|k: int|
                0 <= k < post.len() implies post[k].0 == tgt[k].0 && post[k].1 =~= tgt[k].1 by {
                if k == post.len() - 1 {
                    assert(post[k].1 =~= seq![label as nat]);
                } else {
                    assert(post[k].1 =~= pre[k].1);
                }
            }
            assert(post =~~= tgt);
        }
    }
}

impl Compiler {
    /// The configured bitness.
    pub closed spec fn spec_bitness(&self) -> u32 {
        self.bitness
    }

    /// Translates one IR node to symbolic x86 instructions, emitting
    /// through the assembler.
    ///
    /// On success the emitted stream, the label pool, the registry and
    /// the external-call table advance exactly as [`trans_node`] says;
    /// on failure the error is either the assembler's rejection or the
    /// deterministic failure [`trans_node`] names, with the node's span.
    fn translate_ir_node_impl(&mut self, code_asm: &mut Asm, ir_node: &IrNode) -> (r: Result<
        (),
        CompilerError,
    >)
        requires
            old(self).wf(),
            st_bounded(old(self).state_with(old(code_asm)@, old(code_asm).label_count())),
        ensures
            final(self).wf(),
            final(self).cc() == old(self).cc(),
            final(self).spec_settings() == old(self).spec_settings(),
            final(self).spec_bitness() == old(self).spec_bitness(),
            ({
                let pre = old(self).state_with(old(code_asm)@, old(code_asm).label_count());
                let post = final(self).state_with(final(code_asm)@, final(code_asm).label_count());
                match r {
                    Ok(_) => trans_node(old(self).cc(), pre, *ir_node) == TransRes::Good(post)
                        && st_bounded(post),
                    Err(e) => trans_node(old(self).cc(), pre, *ir_node) matches TransRes::Fail(
                        k,
                        sp,
                    ) && err_matches(e, k, sp),
                }
            }),
        decreases *ir_node, 2int,
    {
        let ghost pre = self.state_with(code_asm@, code_asm.label_count());
        let ghost cc0 = self.calling_convention;
        let span = ir_node.span;
        match &ir_node.node {
            IrOp::Add(n) => {
                let n0: u64 = *n;
                let ghost items0 = code_asm@;
                let mut rem: u64 = n0;
                while rem > 255
                    invariant
                        *self == *old(self),
                        old(self).wf(),
                        code_asm.label_count() == old(code_asm).label_count(),
                        code_asm@ + add_chunks(rem) == old(code_asm)@ + add_chunks(n0),
                    decreases rem,
                {
                    match code_asm.add_cell(255) {
                        Ok(_) => {},
                        Err(m) => {
                            return Err(asm_error(m, span));
                        },
                    }
                    proof {
                        assert(add_chunks(rem) == seq![AsmItem::AddCell(255)] + add_chunks(
                            (rem - 255) as u64,
                        ));
                        assert(code_asm@ + add_chunks((rem - 255) as u64) =~= old(code_asm)@
                            + add_chunks(n0));
                    }
                    rem = rem - 255;
                }
                match code_asm.add_cell(rem as u32) {
                    Ok(_) => {},
                    Err(m) => {
                        return Err(asm_error(m, span));
                    },
                }
                proof {
                    assert(add_chunks(rem) == seq![AsmItem::AddCell(rem as u32)]);
                    assert(code_asm@ =~= old(code_asm)@ + add_chunks(n0));
                    let post = self.state_with(code_asm@, code_asm.label_count());
                    assert(post =~~= (TState { items: pre.items + add_chunks(n0), ..pre }));
                    assert(trans_node(cc0, pre, *ir_node) == TransRes::Good(post));
                    lemma_trans_node_inv(cc0, pre, *ir_node);
                }
                Ok(())
            },
            IrOp::Subtract(n) => {
                let low: u64 = *n % 256;
                match code_asm.sub_cell(low as u32) {
                    Ok(_) => {},
                    Err(m) => {
                        return Err(asm_error(m, span));
                    },
                }
                proof {
                    let post = self.state_with(code_asm@, code_asm.label_count());
                    assert(post =~~= (TState {
                        items: pre.items.push(AsmItem::SubCell((*n % 256) as u32)),
                        ..pre
                    }));
                    lemma_trans_node_inv(cc0, pre, *ir_node);
                }
                Ok(())
            },
            IrOp::MoveRight(n) => {
                if *n > 0x7FFF_FFFF {
                    return Err(
                        CompilerError {
                            kind: CompilerErrorKind::MoveTooLarge(*n),
                            span: Some(span),
                        },
                    );
                }
                match code_asm.lea_data_add(*n as u32) {
                    Ok(_) => {},
                    Err(m) => {
                        return Err(asm_error(m, span));
                    },
                }
                proof {
                    let post = self.state_with(code_asm@, code_asm.label_count());
                    assert(post =~~= (TState {
                        items: pre.items.push(AsmItem::LeaDataAdd(*n as u32)),
                        ..pre
                    }));
                    lemma_trans_node_inv(cc0, pre, *ir_node);
                }
                Ok(())
            },
            IrOp::MoveLeft(n) => {
                if *n > 0x7FFF_FFFF {
                    return Err(
                        CompilerError {
                            kind: CompilerErrorKind::MoveTooLarge(*n),
                            span: Some(span),
                        },
                    );
                }
                match code_asm.lea_data_sub(*n as u32) {
                    Ok(_) => {},
                    Err(m) => {
                        return Err(asm_error(m, span));
                    },
                }
                proof {
                    let post = self.state_with(code_asm@, code_asm.label_count());
                    assert(post =~~= (TState {
                        items: pre.items.push(AsmItem::LeaDataSub(*n as u32)),
                        ..pre
                    }));
                    lemma_trans_node_inv(cc0, pre, *ir_node);
                }
                Ok(())
            },
            IrOp::StackPush => {
                match code_asm.lea_aux_add(1) {
                    Ok(_) => {},
                    Err(m) => {
                        return Err(asm_error(m, span));
                    },
                }
                match code_asm.mov_acc_from_data() {
                    Ok(_) => {},
                    Err(m) => {
                        return Err(asm_error(m, span));
                    },
                }
                match code_asm.mov_aux_from_acc() {
                    Ok(_) => {},
                    Err(m) => {
                        return Err(asm_error(m, span));
                    },
                }
                proof {
                    let post = self.state_with(code_asm@, code_asm.label_count());
                    assert(post.items =~= pre.items + seq![
                        AsmItem::LeaAuxAdd(1),
                        AsmItem::MovAccFromData,
                        AsmItem::MovAuxFromAcc,
                    ]);
                    assert(post =~~= (TState {
                        items: pre.items + seq![
                            AsmItem::LeaAuxAdd(1),
                            AsmItem::MovAccFromData,
                            AsmItem::MovAuxFromAcc,
                        ],
                        ..pre
                    }));
                    lemma_trans_node_inv(cc0, pre, *ir_node);
                }
                Ok(())
            },
            IrOp::StackPop => {
                match code_asm.mov_acc_from_aux() {
                    Ok(_) => {},
                    Err(m) => {
                        return Err(asm_error(m, span));
                    },
                }
                match code_asm.mov_data_from_acc() {
                    Ok(_) => {},
                    Err(m) => {
                        return Err(asm_error(m, span));
                    },
                }
                match code_asm.lea_aux_sub(1) {
                    Ok(_) => {},
                    Err(m) => {
                        return Err(asm_error(m, span));
                    },
                }
                proof {
                    let post = self.state_with(code_asm@, code_asm.label_count());
                    assert(post =~~= (TState {
                        items: pre.items + seq![
                            AsmItem::MovAccFromAux,
                            AsmItem::MovDataFromAcc,
                            AsmItem::LeaAuxSub(1),
                        ],
                        ..pre
                    }));
                    lemma_trans_node_inv(cc0, pre, *ir_node);
                }
                Ok(())
            },
            IrOp::Condition(cond_ir_nodes) => {
                let start_label = code_asm.create_label();
                let end_label = code_asm.create_label();
                match code_asm.zero_bytes() {
                    Ok(_) => {},
                    Err(m) => {
                        return Err(asm_error(m, span));
                    },
                }
                proof {
                    assert(code_asm@ =~= pre.items.push(AsmItem::ZeroBytes));
                    assert(!has_bind(code_asm@, start_label as nat)) by {
                        if has_bind(code_asm@, start_label as nat) {
                            let i = choose|i: int|
                                0 <= i < code_asm@.len() && code_asm@[i] == AsmItem::Bind(
                                    start_label as nat,
                                );
                            if i < pre.items.len() {
                                assert(bind_below(pre.items[i], pre.labels));
                            }
                        }
                    }
                    assert(!bind_pending(code_asm@));
                }
                match code_asm.bind_label(start_label) {
                    Ok(_) => {},
                    Err(m) => {
                        return Err(asm_error(m, span));
                    },
                }
                match code_asm.cmp_cell_zero() {
                    Ok(_) => {},
                    Err(m) => {
                        return Err(asm_error(m, span));
                    },
                }
                match code_asm.je(end_label) {
                    Ok(_) => {},
                    Err(m) => {
                        return Err(asm_error(m, span));
                    },
                }
                let anon = self.scopes.next_unnamed_scope_number();
                self.scopes.push_scope(ScopeName::Anon(anon));
                let ghost entered = TState {
                    items: pre.items + seq![
                        AsmItem::ZeroBytes,
                        AsmItem::Bind(pre.labels),
                        AsmItem::CmpCellZero,
                        AsmItem::Je(pre.labels + 1),
                    ],
                    labels: pre.labels + 2,
                    depth: pre.depth + 1,
                    ..pre
                };
                proof {
                    let cur = self.state_with(code_asm@, code_asm.label_count());
                    assert(cur =~~= entered);
                    assert forall|i: int| 0 <= i < entered.fns.len() implies (
                    #[trigger] entered.fns[i]).1 < entered.labels by {
                        assert(pre.fns[i].1 < pre.labels);
                    }
                    assert forall|i: int| 0 <= i < entered.globals.len() implies (
                    #[trigger] entered.globals[i]).1 < entered.labels by {
                        assert(pre.globals[i].1 < pre.labels);
                    }
                    assert forall|i: int, j: int|
                        0 <= i < entered.exts.len() && 0 <= j < entered.exts[i].1.len() implies (
                    #[trigger] entered.exts[i].1[j]) < entered.labels by {
                        assert(pre.exts[i].1[j] < pre.labels);
                    }
                    assert(st_bounded(entered));
                    assert(decreases_to!(*ir_node => *cond_ir_nodes));
                    assert(decreases_to!(*cond_ir_nodes => cond_ir_nodes@));
                }
                match self.translate_nodes(code_asm, cond_ir_nodes) {
                    Ok(_) => {},
                    Err(e) => {
                        proof {
                            assert(trans_node(cc0, pre, *ir_node) == match trans_nodes(
                                cc0,
                                entered,
                                cond_ir_nodes@,
                            ) {
                                TransRes::Good(after) => TransRes::Good(
                                    TState {
                                        items: after.items + seq![
                                            AsmItem::Jmp(pre.labels),
                                            AsmItem::Bind(pre.labels + 1),
                                            AsmItem::ZeroBytes,
                                        ],
                                        depth: (after.depth - 1) as nat,
                                        ..after
                                    },
                                ),
                                f => f,
                            });
                        }
                        return Err(e);
                    },
                }
                proof {
                    lemma_trans_nodes_inv(cc0, entered, cond_ir_nodes@);
                }
                self.scopes.pop_scope();
                match code_asm.jmp(start_label) {
                    Ok(_) => {},
                    Err(m) => {
                        return Err(asm_error(m, span));
                    },
                }
                proof {
                    let after = trans_nodes(cc0, entered, cond_ir_nodes@)->Good_0;
                    assert(code_asm@ =~= after.items.push(AsmItem::Jmp(pre.labels)));
                    assert(!has_bind(code_asm@, end_label as nat)) by {
                        if has_bind(code_asm@, end_label as nat) {
                            let i = choose|i: int|
                                0 <= i < code_asm@.len() && code_asm@[i] == AsmItem::Bind(
                                    end_label as nat,
                                );
                            if i < pre.items.len() {
                                assert(after.items[i] == entered.items[i]);
                                assert(entered.items[i] == pre.items[i]);
                                assert(bind_below(pre.items[i], pre.labels));
                            } else if i < entered.items.len() {
                                assert(after.items[i] == entered.items[i]);
                                assert(entered.items[i] == seq![
                                    AsmItem::ZeroBytes,
                                    AsmItem::Bind(pre.labels),
                                    AsmItem::CmpCellZero,
                                    AsmItem::Je(pre.labels + 1),
                                ][i - pre.items.len()]);
                            } else if i < after.items.len() {
                                assert(bind_in_range(
                                    after.items[i],
                                    entered.labels,
                                    after.labels,
                                ));
                            }
                        }
                    }
                    assert(!bind_pending(code_asm@));
                }
                match code_asm.bind_label(end_label) {
                    Ok(_) => {},
                    Err(m) => {
                        return Err(asm_error(m, span));
                    },
                }
                match code_asm.zero_bytes() {
                    Ok(_) => {},
                    Err(m) => {
                        return Err(asm_error(m, span));
                    },
                }
                proof {
                    let after = trans_nodes(cc0, entered, cond_ir_nodes@)->Good_0;
                    let post = self.state_with(code_asm@, code_asm.label_count());
                    assert(post =~~= (TState {
                        items: after.items + seq![
                            AsmItem::Jmp(pre.labels),
                            AsmItem::Bind(pre.labels + 1),
                            AsmItem::ZeroBytes,
                        ],
                        depth: (after.depth - 1) as nat,
                        ..after
                    }));
                    assert(trans_node(cc0, pre, *ir_node) == TransRes::Good(post));
                    lemma_trans_node_inv(cc0, pre, *ir_node);
                }
                Ok(())
            },
            IrOp::Function(fn_name, fn_ir_nodes) => {
                proof {
                    assert(decreases_to!(*ir_node => *fn_ir_nodes));
                    assert(decreases_to!(*fn_ir_nodes => fn_ir_nodes@));
                }
                let r = self.translate_function_impl(code_asm, fn_name, span, fn_ir_nodes);
                proof {
                    assert(trans_node(cc0, pre, *ir_node) == trans_function(
                        cc0,
                        pre,
                        fn_name@,
                        span,
                        fn_ir_nodes@,
                    ));
                }
                r
            },
            IrOp::FunctionCall(fn_name) => {
                match self.scopes.get_fn(fn_name) {
                    Some(fn_label) => {
                        proof {
                            lemma_lookup_in(pre.fns, fn_name@);
                            let i = choose|i: int|
                                0 <= i < pre.fns.len() && pre.fns[i] == (
                                    fn_name@,
                                    fn_label as nat,
                                );
                            assert(pre.fns[i].1 < pre.labels);
                        }
                        match code_asm.call_label(fn_label) {
                            Ok(_) => {},
                            Err(m) => {
                                return Err(asm_error(m, span));
                            },
                        }
                        proof {
                            let post = self.state_with(code_asm@, code_asm.label_count());
                            assert(post =~~= (TState {
                                items: pre.items.push(AsmItem::CallLabel(fn_label as nat)),
                                ..pre
                            }));
                            lemma_trans_node_inv(cc0, pre, *ir_node);
                        }
                        Ok(())
                    },
                    None => Err(
                        CompilerError {
                            kind: CompilerErrorKind::FunctionNotFound(clone_string(fn_name)),
                            span: Some(span),
                        },
                    ),
                }
            },
            IrOp::ExternalFunctionCall(ext_name) => {
                match self.calling_convention {
                    CallingConvention::X86Cdecl => {
                        return Err(
                            CompilerError {
                                kind: CompilerErrorKind::UnsupportedCallingConvention,
                                span: Some(span),
                            },
                        );
                    },
                    _ => {},
                }
                let ext_label = code_asm.create_label();
                match code_asm.zero_bytes() {
                    Ok(_) => {},
                    Err(m) => {
                        return Err(asm_error(m, span));
                    },
                }
                match self.calling_convention {
                    CallingConvention::X86_64SystemVAmd64 => {
                        match code_asm.push_data() {
                            Ok(_) => {},
                            Err(m) => {
                                return Err(asm_error(m, span));
                            },
                        }
                        match code_asm.push_aux() {
                            Ok(_) => {},
                            Err(m) => {
                                return Err(asm_error(m, span));
                            },
                        }
                        match code_asm.lea_arg1_sysv() {
                            Ok(_) => {},
                            Err(m) => {
                                return Err(asm_error(m, span));
                            },
                        }
                        match code_asm.lea_arg2_sysv() {
                            Ok(_) => {},
                            Err(m) => {
                                return Err(asm_error(m, span));
                            },
                        }
                        proof {
                            assert(code_asm@ =~= pre.items + seq![AsmItem::ZeroBytes]
                                + marshal_items(cc0));
                        }
                    },
                    CallingConvention::X86_64MicrosoftX64 => {
                        match code_asm.push_data() {
                            Ok(_) => {},
                            Err(m) => {
                                return Err(asm_error(m, span));
                            },
                        }
                        match code_asm.push_aux() {
                            Ok(_) => {},
                            Err(m) => {
                                return Err(asm_error(m, span));
                            },
                        }
                        match code_asm.lea_arg1_win() {
                            Ok(_) => {},
                            Err(m) => {
                                return Err(asm_error(m, span));
                            },
                        }
                        match code_asm.lea_arg2_win() {
                            Ok(_) => {},
                            Err(m) => {
                                return Err(asm_error(m, span));
                            },
                        }
                        proof {
                            assert(code_asm@ =~= pre.items + seq![AsmItem::ZeroBytes]
                                + marshal_items(cc0));
                        }
                    },
                    CallingConvention::X86Cdecl => {
                        return Err(
                            CompilerError {
                                kind: CompilerErrorKind::UnsupportedCallingConvention,
                                span: Some(span),
                            },
                        );
                    },
                }
                proof {
                    assert(marshal_items(cc0).len() == 4);
                    assert(!has_bind(code_asm@, ext_label as nat)) by {
                        if has_bind(code_asm@, ext_label as nat) {
                            let i = choose|i: int|
                                0 <= i < code_asm@.len() && code_asm@[i] == AsmItem::Bind(
                                    ext_label as nat,
                                );
                            if i < pre.items.len() {
                                assert(code_asm@[i] == pre.items[i]);
                                assert(bind_below(pre.items[i], pre.labels));
                            } else if i == pre.items.len() {
                                assert(code_asm@[i] == AsmItem::ZeroBytes);
                            } else {
                                assert(code_asm@[i] == marshal_items(cc0)[i - pre.items.len()
                                    - 1]);
                            }
                        }
                    }
                    assert(code_asm@.last() == marshal_items(cc0)[3]);
                    assert(!bind_pending(code_asm@));
                }
                match code_asm.bind_label(ext_label) {
                    Ok(_) => {},
                    Err(m) => {
                        return Err(asm_error(m, span));
                    },
                }
                self.add_external_call(clone_string(ext_name), ext_label);
                match code_asm.call_label(ext_label) {
                    Ok(_) => {},
                    Err(m) => {
                        return Err(asm_error(m, span));
                    },
                }
                match code_asm.pop_aux() {
                    Ok(_) => {},
                    Err(m) => {
                        return Err(asm_error(m, span));
                    },
                }
                match code_asm.pop_data() {
                    Ok(_) => {},
                    Err(m) => {
                        return Err(asm_error(m, span));
                    },
                }
                proof {
                    let post = self.state_with(code_asm@, code_asm.label_count());
                    assert(post.items =~= pre.items + seq![AsmItem::ZeroBytes] + marshal_items(
                        cc0,
                    ) + seq![
                        AsmItem::Bind(pre.labels),
                        AsmItem::CallLabel(pre.labels),
                        AsmItem::PopAux,
                        AsmItem::PopData,
                    ]);
                    assert(post =~~= (TState {
                        items: pre.items + seq![AsmItem::ZeroBytes] + marshal_items(cc0) + seq![
                            AsmItem::Bind(pre.labels),
                            AsmItem::CallLabel(pre.labels),
                            AsmItem::PopAux,
                            AsmItem::PopData,
                        ],
                        labels: pre.labels + 1,
                        exts: ext_add(pre.exts, ext_name@, pre.labels),
                        ..pre
                    }));
                    assert(trans_node(cc0, pre, *ir_node) == TransRes::Good(post));
                    lemma_trans_node_inv(cc0, pre, *ir_node);
                }
                Ok(())
            },
            IrOp::Input => Err(
                CompilerError { kind: CompilerErrorKind::UnsupportedOperation, span: Some(span) },
            ),
            IrOp::Output => Err(
                CompilerError { kind: CompilerErrorKind::UnsupportedOperation, span: Some(span) },
            ),
        }
    }

    /// Translates a function declaration: binds the entry label,
    /// registers the name before the body so the body can call it,
    /// translates the body in a fresh scope, and emits the return.
    fn translate_function_impl(
        &mut self,
        code_asm: &mut Asm,
        name: &String,
        span: Span,
        children: &Vec<IrNode>,
    ) -> (r: Result<(), CompilerError>)
        requires
            old(self).wf(),
            st_bounded(old(self).state_with(old(code_asm)@, old(code_asm).label_count())),
        ensures
            final(self).wf(),
            final(self).cc() == old(self).cc(),
            final(self).spec_settings() == old(self).spec_settings(),
            final(self).spec_bitness() == old(self).spec_bitness(),
            ({
                let pre = old(self).state_with(old(code_asm)@, old(code_asm).label_count());
                let post = final(self).state_with(final(code_asm)@, final(code_asm).label_count());
                match r {
                    Ok(_) => trans_function(old(self).cc(), pre, name@, span, children@)
                        == TransRes::Good(post) && st_bounded(post),
                    Err(e) => trans_function(old(self).cc(), pre, name@, span, children@) matches
                        TransRes::Fail(k, sp) && err_matches(e, k, sp),
                }
            }),
        decreases children@, 1int,
    {
        let ghost pre = self.state_with(code_asm@, code_asm.label_count());
        let ghost cc0 = self.calling_convention;
        let fn_label = code_asm.create_label();
        match code_asm.zero_bytes() {
            Ok(_) => {},
            Err(m) => {
                return Err(asm_error(m, span));
            },
        }
        proof {
            assert(code_asm@ =~= pre.items.push(AsmItem::ZeroBytes));
            assert(!has_bind(code_asm@, fn_label as nat)) by {
                if has_bind(code_asm@, fn_label as nat) {
                    let i = choose|i: int|
                        0 <= i < code_asm@.len() && code_asm@[i] == AsmItem::Bind(
                            fn_label as nat,
                        );
                    if i < pre.items.len() {
                        assert(bind_below(pre.items[i], pre.labels));
                    }
                }
            }
            assert(!bind_pending(code_asm@));
        }
        match code_asm.bind_label(fn_label) {
            Ok(_) => {},
            Err(m) => {
                return Err(asm_error(m, span));
            },
        }
        self.scopes.push_fn((clone_string(name), fn_label));
        self.scopes.push_scope(ScopeName::Named(clone_string(name)));
        let ghost registered = TState {
            items: pre.items + seq![AsmItem::ZeroBytes, AsmItem::Bind(pre.labels)],
            labels: pre.labels + 1,
            fns: pre.fns.push((name@, pre.labels)),
            globals: if pre.depth == 0 {
                pre.globals.push((name@, pre.labels))
            } else {
                pre.globals
            },
            depth: pre.depth + 1,
            exts: pre.exts,
        };
        proof {
            let cur = self.state_with(code_asm@, code_asm.label_count());
            assert(cur =~~= registered);
            assert forall|i: int| 0 <= i < registered.fns.len() implies (
            #[trigger] registered.fns[i]).1 < registered.labels by {
                if i < pre.fns.len() {
                    assert(pre.fns[i].1 < pre.labels);
                }
            }
            assert forall|i: int| 0 <= i < registered.globals.len() implies (
            #[trigger] registered.globals[i]).1 < registered.labels by {
                if i < pre.globals.len() {
                    assert(pre.globals[i].1 < pre.labels);
                }
            }
            assert forall|i: int, j: int|
                0 <= i < registered.exts.len() && 0 <= j < registered.exts[i].1.len() implies (
            #[trigger] registered.exts[i].1[j]) < registered.labels by {
                assert(pre.exts[i].1[j] < pre.labels);
            }
            assert(st_bounded(registered));
        }
        match self.translate_nodes(code_asm, children) {
            Ok(_) => {},
            Err(e) => {
                return Err(e);
            },
        }
        proof {
            lemma_trans_nodes_inv(cc0, registered, children@);
        }
        self.scopes.pop_scope();
        match code_asm.ret() {
            Ok(_) => {},
            Err(m) => {
                return Err(asm_error(m, span));
            },
        }
        proof {
            let after = trans_nodes(cc0, registered, children@)->Good_0;
            let post = self.state_with(code_asm@, code_asm.label_count());
            assert(post =~~= (TState {
                items: after.items.push(AsmItem::Ret),
                depth: (after.depth - 1) as nat,
                ..after
            }));
            assert(trans_function(cc0, pre, name@, span, children@) == TransRes::Good(post));
            lemma_trans_function_inv(cc0, pre, name@, span, children@);
        }
        Ok(())
    }

    /// Translates a sequence of IR nodes in order, stopping at the
    /// first failure, exactly as [`trans_nodes`] folds [`trans_node`].
    fn translate_nodes(&mut self, code_asm: &mut Asm, nodes: &Vec<IrNode>) -> (r: Result<
        (),
        CompilerError,
    >)
        requires
            old(self).wf(),
            st_bounded(old(self).state_with(old(code_asm)@, old(code_asm).label_count())),
        ensures
            final(self).wf(),
            final(self).cc() == old(self).cc(),
            final(self).spec_settings() == old(self).spec_settings(),
            final(self).spec_bitness() == old(self).spec_bitness(),
            ({
                let pre = old(self).state_with(old(code_asm)@, old(code_asm).label_count());
                let post = final(self).state_with(final(code_asm)@, final(code_asm).label_count());
                match r {
                    Ok(_) => trans_nodes(old(self).cc(), pre, nodes@) == TransRes::Good(post)
                        && st_bounded(post),
                    Err(e) => trans_nodes(old(self).cc(), pre, nodes@) matches TransRes::Fail(
                        k,
                        sp,
                    ) && err_matches(e, k, sp),
                }
            }),
        decreases nodes@, 0int,
    {
        let ghost pre = self.state_with(code_asm@, code_asm.label_count());
        let ghost cc0 = self.calling_convention;
        let mut i: usize = 0;
        proof {
            assert(nodes@.skip(0) =~= nodes@);
        }
        while i < nodes.len()
            invariant
                i <= nodes@.len(),
                self.wf(),
                self.cc() == cc0,
                cc0 == old(self).cc(),
                self.spec_settings() == old(self).spec_settings(),
                self.spec_bitness() == old(self).spec_bitness(),
                pre == old(self).state_with(old(code_asm)@, old(code_asm).label_count()),
                st_bounded(self.state_with(code_asm@, code_asm.label_count())),
                trans_nodes(cc0, pre, nodes@) == trans_nodes(
                    cc0,
                    self.state_with(code_asm@, code_asm.label_count()),
                    nodes@.skip(i as int),
                ),
            decreases nodes@.len() - i,
        {
            let ghost cur = self.state_with(code_asm@, code_asm.label_count());
            proof {
                assert(decreases_to!(nodes@ => nodes@[i as int]));
            }
            match self.translate_ir_node_impl(code_asm, &nodes[i]) {
                Ok(_) => {
                    proof {
                        let nxt = self.state_with(code_asm@, code_asm.label_count());
                        assert(nodes@.skip(i as int)[0] == nodes@[i as int]);
                        assert(nodes@.skip(i as int).drop_first() =~= nodes@.skip(i as int + 1));
                        assert(trans_nodes(cc0, cur, nodes@.skip(i as int)) == trans_nodes(
                            cc0,
                            nxt,
                            nodes@.skip(i as int + 1),
                        ));
                    }
                },
                Err(e) => {
                    proof {
                        assert(nodes@.skip(i as int)[0] == nodes@[i as int]);
                    }
                    return Err(e);
                },
            }
            i += 1;
        }
        proof {
            assert(nodes@.skip(nodes@.len() as int) =~= Seq::<IrNode>::empty());
        }
        Ok(())
    }
}

impl Compiler {
    /// Creates the assembler, translates the whole sequence, and
    /// assembles at the given base address. Produces exactly one
    /// assembled result per compile request.
    fn translate_ir_node(&mut self, ir_node: &Vec<IrNode>, base_address: u64) -> (r: Result<
        Assembled,
        CompilerError,
    >)
        requires
            old(self).wf(),
            old(self).spec_bitness() == 64,
            old(self).state_with(Seq::<AsmItem>::empty(), 0) == empty_state(),
        ensures
            final(self).wf(),
            ({
                let tr = trans_nodes(old(self).cc(), empty_state(), ir_node@);
                match r {
                    Ok(out) => {
                        &&& tr is Good
                        &&& asm_accepts(tr->Good_0.items, tr->Good_0.labels, base_address)
                        &&& tr->Good_0 == final(self).state_with(
                            tr->Good_0.items,
                            tr->Good_0.labels,
                        )
                        &&& st_bounded(tr->Good_0)
                        &&& out.bytes@ == code_bytes_of(tr->Good_0.items, base_address)
                        &&& out.ips@.len() == tr->Good_0.labels
                        &&& forall|i: int|
                            0 <= i < out.ips@.len() ==> out.ips@[i] == label_ip_of(
                                tr->Good_0.items,
                                base_address,
                                i as nat,
                            )
                    },
                    Err(e) => match tr {
                        TransRes::Good(st) => e.kind is AssemblerError && e.span is None
                            && !asm_accepts(st.items, st.labels, base_address),
                        TransRes::Fail(k, sp) => err_matches(e, k, sp),
                    },
                }
            }),
    {
        let mut code_asm = Asm::new(self.bitness);
        proof {
            assert(self.state_with(code_asm@, code_asm.label_count()) == empty_state());
            assert(st_bounded(empty_state()));
        }
        match self.translate_nodes(&mut code_asm, ir_node) {
            Ok(_) => {},
            Err(e) => {
                return Err(e);
            },
        }
        match code_asm.assemble(base_address) {
            Ok(out) => Ok(out),
            Err(m) => Err(
                CompilerError { kind: CompilerErrorKind::AssemblerError(m), span: None },
            ),
        }
    }

    /// Compiles the IR to a raw executable instruction stream, with all
    /// internal control flow resolved relative to the configured base
    /// address.
    pub fn compile_to_bytecode(&mut self, ir: Vec<IrNode>) -> (r: Result<Vec<u8>, CompilerError>)
        requires
            old(self).wf(),
            old(self).spec_bitness() == 64,
            old(self).state_with(Seq::<AsmItem>::empty(), 0) == empty_state(),
        ensures
            final(self).wf(),
            ({
                let tr = trans_nodes(old(self).cc(), empty_state(), ir@);
                match r {
                    Ok(bytes) => tr is Good && asm_accepts(
                        tr->Good_0.items,
                        tr->Good_0.labels,
                        old(self).spec_settings().base_address,
                    ) && bytes@ == code_bytes_of(
                        tr->Good_0.items,
                        old(self).spec_settings().base_address,
                    ),
                    Err(e) => match tr {
                        TransRes::Good(st) => e.kind is AssemblerError && e.span is None
                            && !asm_accepts(
                            st.items,
                            st.labels,
                            old(self).spec_settings().base_address,
                        ),
                        TransRes::Fail(k, sp) => err_matches(e, k, sp),
                    },
                }
            }),
    {
        let base = self.settings.base_address;
        match self.translate_ir_node(&ir, base) {
            Ok(out) => Ok(out.bytes),
            Err(e) => Err(e),
        }
    }

    /// Compiles the IR to the verified object-artifact plan: top-level
    /// functions become exported symbols, the non-function statements
    /// are wrapped into one synthesized entry function, every external
    /// call target is neutralized to zero, and one undefined symbol
    /// with one relocation per call site is recorded per external name.
    pub fn compile_to_object_plan(&mut self, ast: Vec<IrNode>) -> (r: Result<
        ObjectPlan,
        CompilerError,
    >)
        requires
            old(self).wf(),
            old(self).spec_bitness() == 64,
            old(self).state_with(Seq::<AsmItem>::empty(), 0) == empty_state(),
        ensures
            final(self).wf(),
            ({
                let tr = object_trans(old(self).cc(), empty_state(), ast@);
                match r {
                    Ok(plan) => tr is Good && asm_accepts(tr->Good_0.items, tr->Good_0.labels, 0)
                        && plan_matches(plan, tr->Good_0),
                    Err(e) => match tr {
                        TransRes::Good(st) => (e.kind is AssemblerError && e.span is None
                            && !asm_accepts(st.items, st.labels, 0)) || (e.kind is InternalFault
                            && asm_accepts(st.items, st.labels, 0) && zero_all(
                            Some(code_bytes_of(st.items, 0)),
                            st.exts,
                            ips_of(st),
                        ) is None),
                        TransRes::Fail(k, sp) => err_matches(e, k, sp),
                    },
                }
            }),
    {
        let ghost cc0 = self.calling_convention;
        let ghost all = ast@;
        let mut rest = ast;
        let mut fn_ast: Vec<IrNode> = Vec::new();
        let mut non_fn_ast: Vec<IrNode> = Vec::new();
        proof {
            assert(all.take(0) =~= Seq::<IrNode>::empty());
            assert(all.skip(0) =~= all);
            assert(fn_ast@ =~= split_fns(all.take(0)));
            assert(non_fn_ast@ =~= split_others(all.take(0)));
        }
        while rest.len() > 0
            invariant
                rest@.len() <= all.len(),
                fn_ast@ == split_fns(all.take(all.len() - rest@.len())),
                non_fn_ast@ == split_others(all.take(all.len() - rest@.len())),
                rest@ == all.skip(all.len() - rest@.len()),
            decreases rest@.len(),
        {
            let ghost processed = all.len() - rest@.len();
            let node = rest.remove(0);
            proof {
                assert(node == all[processed as int]);
                assert(all.take(processed as int + 1) =~= all.take(processed as int).push(
                    all[processed as int],
                ));
                assert(rest@ =~= all.skip(processed as int + 1));
            }
            let is_function = match &node.node {
                IrOp::Function(_, _) => true,
                _ => false,
            };
            if is_function {
                fn_ast.push(node);
            } else {
                non_fn_ast.push(node);
            }
            proof {
                assert(fn_ast@ =~= split_fns(all.take(processed as int + 1)));
                assert(non_fn_ast@ =~= split_others(all.take(processed as int + 1)));
            }
        }
        proof {
            assert(all.take(all.len() as int) =~= all);
        }
        let mut code_asm = Asm::new(self.bitness);
        proof {
            assert(self.state_with(code_asm@, code_asm.label_count()) == empty_state());
            assert(st_bounded(empty_state()));
        }
        match self.translate_nodes(&mut code_asm, &fn_ast) {
            Ok(_) => {},
            Err(e) => {
                return Err(e);
            },
        }
        let ghost st1 = self.state_with(code_asm@, code_asm.label_count());
        let start_name: String = "_start".to_owned();
        let synth = Span { offset: 0, length: 1 };
        match self.translate_function_impl(&mut code_asm, &start_name, synth, &non_fn_ast) {
            Ok(_) => {},
            Err(e) => {
                return Err(e);
            },
        }
        let ghost st = self.state_with(code_asm@, code_asm.label_count());
        proof {
            assert(object_trans(cc0, empty_state(), all) == TransRes::Good(st));
            lemma_trans_function_inv(cc0, st1, "_start"@, synth_span(), split_others(all));
        }
        let res = match code_asm.assemble(0) {
            Ok(res) => res,
            Err(m) => {
                return Err(CompilerError { kind: CompilerErrorKind::AssemblerError(m), span: None });
            },
        };
        proof {
            assert(res.ips@ =~= ips_of(st));
        }
        let globals = self.scopes.get_global_functions();
        proof {
            lemma_trans_nodes_inv(cc0, empty_state(), split_fns(all));
            assert(st.globals.len() >= 1);
        }
        let n_declared = globals.len() - 1;
        let mut fn_syms: Vec<FnSym> = Vec::new();
        let mut k: usize = 0;
        while k < n_declared
            invariant
                k <= n_declared,
                n_declared == globals@.len() - 1,
                globals@.len() >= 1,
                globals@.len() == st.globals.len(),
                forall|i: int|
                    0 <= i < globals@.len() ==> #[trigger] st.globals[i] == (
                        globals@[i].0@,
                        globals@[i].1 as nat,
                    ),
                st_bounded(st),
                res.ips@ == ips_of(st),
                res.ips@.len() == st.labels,
                fn_syms@.len() == k,
                forall|i: int|
                    0 <= i < k ==> (#[trigger] fn_syms@[i]).name@ == st.globals[i].0
                        && fn_syms@[i].offset == ips_of(st)[st.globals[i].1 as int],
            decreases globals@.len() - k,
        {
            proof {
                assert(st.globals[k as int].1 < st.labels);
            }
            let nm = clone_string(&globals[k].0);
            let off = res.ips[globals[k].1];
            fn_syms.push(FnSym { name: nm, offset: off });
            k += 1;
        }
        let entry_offset: u64;
        match self.scopes.get_fn(&start_name) {
            Some(id) => {
                proof {
                    lemma_lookup_in(st.fns, "_start"@);
                    let i = choose|i: int|
                        0 <= i < st.fns.len() && st.fns[i] == ("_start"@, id as nat);
                    assert(st.fns[i].1 < st.labels);
                }
                entry_offset = res.ips[id];
            },
            None => {
                proof {
                    lemma_lookup_found(st.fns, "_start"@, st1.fns.len() as int);
                    assert(false);
                }
                return Err(CompilerError { kind: CompilerErrorKind::InternalFault, span: None });
            },
        }
        let ghost code0 = code_bytes_of(st.items, 0);
        let mut bytes = res.bytes;
        let mut externals: Vec<ExternalSym> = Vec::new();
        let ghost exts = st.exts;
        proof {
            assert(exts == self.exts_view());
            assert(exts.take(0) =~= Seq::<(Seq<char>, Seq<nat>)>::empty());
        }
        let n_ext = self.external_calls.len();
        let mut e: usize = 0;
        while e < n_ext
            invariant
                e <= n_ext,
                self.wf(),
                all == ast@,
                cc0 == old(self).cc(),
                object_trans(cc0, empty_state(), all) == TransRes::Good(st),
                asm_accepts(st.items, st.labels, 0),
                code0 == code_bytes_of(st.items, 0),
                n_ext == self.external_calls@.len(),
                exts == self.exts_view(),
                exts == st.exts,
                st_bounded(st),
                res.ips@ == ips_of(st),
                res.ips@.len() == st.labels,
                zero_all(Some(code0), exts.take(e as int), res.ips@) == Some(bytes@),
                externals@.len() == e,
                forall|i: int|
                    0 <= i < e ==> {
                        let x = #[trigger] externals@[i];
                        &&& x.name@ == exts[i].0
                        &&& x.sites@.len() == exts[i].1.len()
                        &&& x.relocs@.len() == exts[i].1.len()
                        &&& forall|j: int|
                            0 <= j < exts[i].1.len() ==> (#[trigger] x.sites@[j]) == ips_of(
                                st,
                            )[exts[i].1[j] as int] && x.relocs@[j].offset == x.sites@[j] + 1
                                && x.relocs@[j].addend == -4
                    },
            decreases n_ext - e,
        {
            let ghost b_outer = bytes@;
            let ghost sites_g = exts[e as int].1;
            let n_sites = self.external_calls[e].1.len();
            let mut sites: Vec<u64> = Vec::new();
            let mut relocs: Vec<RelocEntry> = Vec::new();
            let mut j: usize = 0;
            proof {
                assert(sites_g.take(0) =~= Seq::<nat>::empty());
                assert(exts[e as int] == (
                    self.external_calls@[e as int].0@,
                    Seq::new(
                        self.external_calls@[e as int].1@.len(),
                        |q: int| self.external_calls@[e as int].1@[q] as nat,
                    ),
                ));
            }
            while j < n_sites
                invariant
                    e < n_ext,
                    j <= n_sites,
                    self.wf(),
                    all == ast@,
                    cc0 == old(self).cc(),
                    object_trans(cc0, empty_state(), all) == TransRes::Good(st),
                    asm_accepts(st.items, st.labels, 0),
                    code0 == code_bytes_of(st.items, 0),
                    n_ext == self.external_calls@.len(),
                    n_sites == self.external_calls@[e as int].1@.len(),
                    exts[e as int].0 == self.external_calls@[e as int].0@,
                    exts == self.exts_view(),
                    exts == st.exts,
                    st_bounded(st),
                    res.ips@ == ips_of(st),
                    res.ips@.len() == st.labels,
                    sites_g == exts[e as int].1,
                    sites_g.len() == n_sites,
                    forall|q: int|
                        0 <= q < n_sites ==> (#[trigger] sites_g[q])
                            == self.external_calls@[e as int].1@[q] as nat,
                    zero_entry(Some(b_outer), sites_g.take(j as int), res.ips@) == Some(bytes@),
                    zero_all(Some(code0), exts.take(e as int), res.ips@) == Some(b_outer),
                    sites@.len() == j,
                    relocs@.len() == j,
                    forall|q: int|
                        0 <= q < j ==> (#[trigger] sites@[q]) == ips_of(st)[sites_g[q] as int]
                            && relocs@[q].offset == sites@[q] + 1 && relocs@[q].addend == -4,
                decreases n_sites - j,
            {
                let id = self.external_calls[e].1[j];
                proof {
                    assert(sites_g[j as int] == id as nat);
                    assert(exts[e as int].1[j as int] < st.labels);
                }
                let ip = res.ips[id];
                if (bytes.len() as u64) < 5 || ip > (bytes.len() as u64) - 5 {
                    proof {
                        assert(zero_call_site(bytes@, ip) is None);
                        assert(sites_g.take(j + 1) =~= sites_g.take(j as int).push(
                            sites_g[j as int],
                        ));
                        lemma_zero_entry_push(
                            Some(b_outer),
                            sites_g.take(j as int),
                            sites_g[j as int],
                            res.ips@,
                        );
                        assert(res.ips@[sites_g[j as int] as int] == ip);
                        assert(zero_entry(Some(b_outer), sites_g.take(j + 1), res.ips@) is None);
                        lemma_zero_entry_split(Some(b_outer), sites_g, j + 1, res.ips@);
                        assert(zero_entry(Some(b_outer), sites_g, res.ips@) is None);
                        lemma_zero_all_split(Some(code0), exts, e as int + 1, res.ips@);
                        assert(exts.take(e as int + 1) =~= exts.take(e as int).push(
                            exts[e as int],
                        ));
                        lemma_zero_all_push(
                            Some(code0),
                            exts.take(e as int),
                            exts[e as int],
                            res.ips@,
                        );
                        assert(zero_all(Some(code0), exts.take(e as int + 1), res.ips@) is None);
                        lemma_zero_all_none(exts.skip(e as int + 1), res.ips@);
                        assert(zero_all(Some(code0), exts, res.ips@) is None);
                    }
                    return Err(
                        CompilerError { kind: CompilerErrorKind::InternalFault, span: None },
                    );
                }
                let ghost before = bytes@;
                let base_idx = ip as usize;
                bytes[base_idx + 1] = 0;
                bytes[base_idx + 2] = 0;
                bytes[base_idx + 3] = 0;
                bytes[base_idx + 4] = 0;
                proof {
                    assert(bytes@ =~= zero_call_site(before, ip)->Some_0);
                    assert(zero_call_site(before, ip) == Some(bytes@));
                    assert(sites_g.take(j + 1) =~= sites_g.take(j as int).push(sites_g[j as int]));
                    lemma_zero_entry_push(Some(b_outer), sites_g.take(j as int), sites_g[j as int], res.ips@);
                    assert(zero_entry(Some(b_outer), sites_g.take(j + 1), res.ips@) == Some(
                        bytes@,
                    ));
                }
                sites.push(ip);
                relocs.push(RelocEntry { offset: ip + 1, addend: -4 });
                j += 1;
            }
            proof {
                assert(sites_g.take(n_sites as int) =~= sites_g);
                assert(exts.take(e as int + 1) =~= exts.take(e as int).push(exts[e as int]));
                lemma_zero_all_push(Some(code0), exts.take(e as int), exts[e as int], res.ips@);
                assert(zero_all(Some(code0), exts.take(e as int + 1), res.ips@) == Some(bytes@));
            }
            let nm = clone_string(&self.external_calls[e].0);
            let ghost sites_v = sites@;
            let ghost relocs_v = relocs@;
            externals.push(ExternalSym { name: nm, sites, relocs });
            proof {
                assert(externals@.last().sites@ == sites_v);
                assert(externals@.last().relocs@ == relocs_v);
                assert forall|i: int| 0 <= i < e + 1 implies {
                    let x = #[trigger] externals@[i];
                    &&& x.name@ == exts[i].0
                    &&& x.sites@.len() == exts[i].1.len()
                    &&& x.relocs@.len() == exts[i].1.len()
                    &&& forall|q: int|
                        0 <= q < exts[i].1.len() ==> (#[trigger] x.sites@[q]) == ips_of(
                            st,
                        )[exts[i].1[q] as int] && x.relocs@[q].offset == x.sites@[q] + 1
                            && x.relocs@[q].addend == -4
                } by {
                    if i == e {
                        assert(externals@[i] == externals@.last());
                    } else {
                        assert(externals@[i] == externals@.drop_last()[i]);
                    }
                }
            }
            e += 1;
        }
        proof {
            assert(exts.take(n_ext as int) =~= exts);
        }
        let plan = ObjectPlan { text: bytes, fn_syms, entry_offset, externals };
        proof {
            assert(plan_matches(plan, st));
        }
        Ok(plan)
    }

    /// Compiles the IR to a relocatable object artifact, realizing the
    /// verified plan through the object writer.
    pub fn compile_to_object_file(&mut self, ast: Vec<IrNode>, filename: &str) -> (r: Result<
        object::write::Object<'static>,
        CompilerError,
    >)
        requires
            old(self).wf(),
            old(self).spec_bitness() == 64,
            old(self).state_with(Seq::<AsmItem>::empty(), 0) == empty_state(),
        ensures
            final(self).wf(),
            ({
                let tr = object_trans(old(self).cc(), empty_state(), ast@);
                match r {
                    Ok(o) => tr is Good && asm_accepts(tr->Good_0.items, tr->Good_0.labels, 0)
                        && exists|plan: ObjectPlan|
                        {
                            &&& #[trigger] plan_matches(plan, tr->Good_0)
                            &&& obj_symbols(o) == plan_syms_model(plan, filename@)
                            &&& obj_relocs(o) == relocs_model(
                                plan.externals@,
                                plan.fn_syms@.len() + 2,
                            )
                            &&& obj_text(o) == plan.text@
                        },
                    Err(e) => match tr {
                        TransRes::Good(st) => (e.kind is AssemblerError && e.span is None
                            && !asm_accepts(st.items, st.labels, 0)) || (e.kind is InternalFault
                            && asm_accepts(st.items, st.labels, 0) && zero_all(
                            Some(code_bytes_of(st.items, 0)),
                            st.exts,
                            ips_of(st),
                        ) is None),
                        TransRes::Fail(k, sp) => err_matches(e, k, sp),
                    },
                }
            }),
    {
        let plan = match self.compile_to_object_plan(ast) {
            Ok(plan) => plan,
            Err(e) => {
                return Err(e);
            },
        };
        match emit_object(&plan, filename) {
            Ok(o) => Ok(o),
            Err(m) => Err(
                CompilerError { kind: CompilerErrorKind::RelocationFailed(m), span: None },
            ),
        }
    }
}

/// Builds the error that wraps an assembler rejection.
fn asm_error(msg: String, span: Span) -> (r: CompilerError)
    ensures
        r.kind is AssemblerError,
        r.span == Some(span),
{
    CompilerError { kind: CompilerErrorKind::AssemblerError(msg), span: Some(span) }
}

/// The state a fresh compile request starts from.
pub open spec fn empty_state() -> TState {
    TState {
        items: Seq::empty(),
        labels: 0,
        fns: Seq::empty(),
        globals: Seq::empty(),
        depth: 0,
        exts: Seq::empty(),
    }
}

/// Compares two strings by contents.
fn string_eq(a: &String, b: &String) -> (r: bool)
    ensures
        r == (a@ == b@),
{
    *a == *b
}

/// A found table index is in range and carries the name.
pub proof fn lemma_ext_find_bounds(exts: Seq<(Seq<char>, Seq<nat>)>, name: Seq<char>)
    ensures
        ext_find(exts, name) matches Some(i) ==> 0 <= i < exts.len() && exts[i].0 == name,
    decreases exts.len(),
{
    if exts.len() > 0 && exts[0].0 != name {
        lemma_ext_find_bounds(exts.drop_first(), name);
    }
}

/// A resolved registry entry really stands in the registry.
pub proof fn lemma_lookup_in(fns: Seq<(Seq<char>, nat)>, name: Seq<char>)
    ensures
        lookup_fn(fns, name) matches Some(id) ==> exists|i: int|
            0 <= i < fns.len() && fns[i] == (name, id),
    decreases fns.len(),
{
    if fns.len() > 0 && fns.last().0 != name {
        lemma_lookup_in(fns.drop_last(), name);
        if lookup_fn(fns, name) is Some {
            let id = lookup_fn(fns, name)->Some_0;
            let i = choose|i: int| 0 <= i < fns.drop_last().len() && fns.drop_last()[i] == (
                name,
                id,
            );
            assert(fns[i] == (name, id));
        }
    }
}

/// A name that stands in the registry resolves.
pub proof fn lemma_lookup_found(fns: Seq<(Seq<char>, nat)>, name: Seq<char>, i: int)
    requires
        0 <= i < fns.len(),
        fns[i].0 == name,
    ensures
        lookup_fn(fns, name) is Some,
    decreases fns.len(),
{
    if fns.last().0 != name {
        lemma_lookup_found(fns.drop_last(), name, i);
    }
}

/// Every chunked-add item is a cell addition, never a bind.
proof fn lemma_add_chunks_items(n: u64)
    ensures
        forall|i: int| 0 <= i < add_chunks(n).len() ==> (#[trigger] add_chunks(n)[i]) is AddCell,
    decreases n,
{
    if n > 255 {
        lemma_add_chunks_items((n - 255) as u64);
        assert forall|i: int| 0 <= i < add_chunks(n).len() implies (
        #[trigger] add_chunks(n)[i]) is AddCell by {
            if i > 0 {
                assert(add_chunks(n)[i] == add_chunks((n - 255) as u64)[i - 1]);
            }
        }
    }
}

/// Bind bounds carry across an appending step.
proof fn lemma_binds_bounded(pre: TState, post: TState)
    requires
        forall|i: int|
            0 <= i < pre.items.len() ==> bind_below(#[trigger] pre.items[i], pre.labels),
        post.labels >= pre.labels,
        items_extend(pre, post),
    ensures
        forall|i: int|
            0 <= i < post.items.len() ==> bind_below(#[trigger] post.items[i], post.labels),
{
    assert forall|i: int| 0 <= i < post.items.len() implies bind_below(
        post.items[i],
        post.labels,
    ) by {
        if i < pre.items.len() {
            assert(bind_below(pre.items[i], pre.labels));
        }
    }
}

/// An appended stretch without binds extends the stream.
proof fn lemma_extend_no_binds(pre: TState, post: TState, added: Seq<AsmItem>)
    requires
        post.items == pre.items + added,
        post.labels >= pre.labels,
        forall|i: int| 0 <= i < added.len() ==> !((#[trigger] added[i]) is Bind),
    ensures
        items_extend(pre, post),
{
    assert forall|k: int|
        pre.items.len() <= k < post.items.len() implies bind_in_range(
        #[trigger] post.items[k],
        pre.labels,
        post.labels,
    ) by {
        assert(post.items[k] == added[k - pre.items.len()]);
    }
}

/// `items_extend` composes across two steps.
proof fn lemma_extend_trans(a: TState, b: TState, c: TState)
    requires
        items_extend(a, b),
        items_extend(b, c),
        a.labels <= b.labels,
        b.labels <= c.labels,
    ensures
        items_extend(a, c),
{
    assert forall|k: int|
        a.items.len() <= k < c.items.len() implies bind_in_range(
        #[trigger] c.items[k],
        a.labels,
        c.labels,
    ) by {
        if k < b.items.len() {
            assert(bind_in_range(b.items[k], a.labels, b.labels));
        } else {
            assert(bind_in_range(c.items[k], b.labels, c.labels));
        }
    }
}

/// The translation of one node only grows the label pool and the
/// function registry, and restores the scope depth: registration
/// happens the moment a function's translation begins and is never
/// undone, which is what lets a body call its own function recursively.
pub proof fn lemma_trans_node_inv(cc: CallingConvention, st: TState, node: IrNode)
    ensures
        trans_node(cc, st, node) matches TransRes::Good(p) ==> p.labels >= st.labels && p.depth
            == st.depth && p.fns.len() >= st.fns.len() && (forall|i: int|
            0 <= i < st.fns.len() ==> p.fns[i] == st.fns[i]) && (st.depth > 0 ==> p.globals
            == st.globals) && items_extend(st, p) && (st_bounded(st) ==> st_bounded(p)),
    decreases node, 1int,
{
    match node.node {
        IrOp::Add(n) => {
            let p = trans_node(cc, st, node)->Good_0;
            lemma_add_chunks_items(n);
            assert forall|i: int|
                0 <= i < add_chunks(n).len() implies !((#[trigger] add_chunks(n)[i]) is Bind) by {}
            lemma_extend_no_binds(st, p, add_chunks(n));
            if st_bounded(st) {
                lemma_binds_bounded(st, p);
            }
        },
        IrOp::Subtract(n) => {
            let p = trans_node(cc, st, node)->Good_0;
            assert(p.items =~= st.items + seq![AsmItem::SubCell((n % 256) as u32)]);
            lemma_extend_no_binds(st, p, seq![AsmItem::SubCell((n % 256) as u32)]);
            if st_bounded(st) {
                lemma_binds_bounded(st, p);
            }
        },
        IrOp::MoveRight(n) => {
            if n <= 0x7FFF_FFFF {
                let p = trans_node(cc, st, node)->Good_0;
                assert(p.items =~= st.items + seq![AsmItem::LeaDataAdd(n as u32)]);
                lemma_extend_no_binds(st, p, seq![AsmItem::LeaDataAdd(n as u32)]);
                if st_bounded(st) {
                    lemma_binds_bounded(st, p);
                }
            }
        },
        IrOp::MoveLeft(n) => {
            if n <= 0x7FFF_FFFF {
                let p = trans_node(cc, st, node)->Good_0;
                assert(p.items =~= st.items + seq![AsmItem::LeaDataSub(n as u32)]);
                lemma_extend_no_binds(st, p, seq![AsmItem::LeaDataSub(n as u32)]);
                if st_bounded(st) {
                    lemma_binds_bounded(st, p);
                }
            }
        },
        IrOp::StackPush => {
            let p = trans_node(cc, st, node)->Good_0;
            lemma_extend_no_binds(
                st,
                p,
                seq![AsmItem::LeaAuxAdd(1), AsmItem::MovAccFromData, AsmItem::MovAuxFromAcc],
            );
            if st_bounded(st) {
                lemma_binds_bounded(st, p);
            }
        },
        IrOp::StackPop => {
            let p = trans_node(cc, st, node)->Good_0;
            lemma_extend_no_binds(
                st,
                p,
                seq![AsmItem::MovAccFromAux, AsmItem::MovDataFromAcc, AsmItem::LeaAuxSub(1)],
            );
            if st_bounded(st) {
                lemma_binds_bounded(st, p);
            }
        },
        IrOp::Condition(body) => {
            let entered = TState {
                items: st.items + seq![
                    AsmItem::ZeroBytes,
                    AsmItem::Bind(st.labels),
                    AsmItem::CmpCellZero,
                    AsmItem::Je(st.labels + 1),
                ],
                labels: st.labels + 2,
                depth: st.depth + 1,
                ..st
            };
            assert forall|k: int|
                st.items.len() <= k < entered.items.len() implies bind_in_range(
                #[trigger] entered.items[k],
                st.labels,
                entered.labels,
            ) by {
                assert(entered.items[k] == entered.items.subrange(
                    st.items.len() as int,
                    entered.items.len() as int,
                )[k - st.items.len()]);
                assert(entered.items[k] == seq![
                    AsmItem::ZeroBytes,
                    AsmItem::Bind(st.labels),
                    AsmItem::CmpCellZero,
                    AsmItem::Je(st.labels + 1),
                ][k - st.items.len()]);
            }
            assert(items_extend(st, entered));
            lemma_trans_nodes_inv(cc, entered, body@);
            match trans_nodes(cc, entered, body@) {
                TransRes::Good(after) => {
                    let p = trans_node(cc, st, node)->Good_0;
                    lemma_extend_trans(st, entered, after);
                    let closing = seq![
                        AsmItem::Jmp(st.labels),
                        AsmItem::Bind(st.labels + 1),
                        AsmItem::ZeroBytes,
                    ];
                    assert forall|k: int|
                        st.items.len() <= k < p.items.len() implies bind_in_range(
                        #[trigger] p.items[k],
                        st.labels,
                        p.labels,
                    ) by {
                        if k < after.items.len() {
                            assert(p.items[k] == after.items[k]);
                            assert(bind_in_range(after.items[k], st.labels, after.labels));
                        } else {
                            assert(p.items[k] == closing[k - after.items.len()]);
                            assert(after.labels >= st.labels + 2);
                        }
                    }
                    assert forall|k: int| 0 <= k < st.items.len() implies #[trigger] p.items[k]
                        == st.items[k] by {
                        assert(p.items[k] == after.items[k]);
                    }
                    assert(items_extend(st, p));
                    if st_bounded(st) {
                        lemma_binds_bounded(st, p);
                    }
                },
                _ => {},
            }
        },
        IrOp::Function(name, body) => {
            lemma_trans_function_inv(cc, st, name@, node.span, body@);
        },
        IrOp::FunctionCall(name) => {
            match lookup_fn(st.fns, name@) {
                Some(id) => {
                    let p = trans_node(cc, st, node)->Good_0;
                    assert(p.items =~= st.items + seq![AsmItem::CallLabel(id)]);
                    lemma_extend_no_binds(st, p, seq![AsmItem::CallLabel(id)]);
                    if st_bounded(st) {
                        lemma_binds_bounded(st, p);
                    }
                },
                None => {},
            }
        },
        IrOp::ExternalFunctionCall(name) => {
            if cc_supported(cc) {
                let p = trans_node(cc, st, node)->Good_0;
                assert(p.labels == st.labels + 1);
                assert(p.exts == ext_add(st.exts, name@, st.labels));
                let added = seq![AsmItem::ZeroBytes] + marshal_items(cc) + seq![
                    AsmItem::Bind(st.labels),
                    AsmItem::CallLabel(st.labels),
                    AsmItem::PopAux,
                    AsmItem::PopData,
                ];
                assert forall|k: int|
                    st.items.len() <= k < p.items.len() implies bind_in_range(
                    #[trigger] p.items[k],
                    st.labels,
                    p.labels,
                ) by {
                    assert(p.items[k] == added[k - st.items.len()]);
                }
                assert(items_extend(st, p));
                if st_bounded(st) {
                    lemma_ext_find_bounds(st.exts, name@);
                    assert forall|i: int, j: int|
                        0 <= i < p.exts.len() && 0 <= j < p.exts[i].1.len() implies (
                    #[trigger] p.exts[i].1[j]) < p.labels by {
                        match ext_find(st.exts, name@) {
                            Some(k) => {
                                assert(0 <= k < st.exts.len());
                                if i == k {
                                    assert(p.exts[i].1 == st.exts[k].1.push(st.labels));
                                    if j < st.exts[k].1.len() {
                                        assert(p.exts[i].1[j] == st.exts[k].1[j]);
                                        assert(st.exts[k].1[j] < st.labels);
                                    } else {
                                        assert(p.exts[i].1[j] == st.labels);
                                    }
                                } else {
                                    assert(p.exts[i] == st.exts[i]);
                                    assert(st.exts[i].1[j] < st.labels);
                                }
                            },
                            None => {
                                if i < st.exts.len() {
                                    assert(p.exts[i] == st.exts[i]);
                                    assert(st.exts[i].1[j] < st.labels);
                                } else {
                                    assert(p.exts[i].1 == seq![st.labels]);
                                    assert(p.exts[i].1[j] == st.labels);
                                }
                            },
                        }
                    }
                    lemma_binds_bounded(st, p);
                }
            }
        },
        _ => {},
    }
}

/// See [`lemma_trans_node_inv`]; the same invariants for a function
/// declaration.
pub proof fn lemma_trans_function_inv(
    cc: CallingConvention,
    st: TState,
    name: Seq<char>,
    span: Span,
    body: Seq<IrNode>,
)
    ensures
        trans_function(cc, st, name, span, body) matches TransRes::Good(p) ==> p.labels
            >= st.labels + 1 && p.depth == st.depth && p.fns.len() > st.fns.len() && (forall|
            i: int,
        |
            0 <= i < st.fns.len() ==> p.fns[i] == st.fns[i]) && p.fns[st.fns.len() as int] == (
            name,
            st.labels,
        ) && p.globals == (if st.depth == 0 {
            st.globals.push((name, st.labels))
        } else {
            st.globals
        }) && items_extend(st, p) && (st_bounded(st) ==> st_bounded(p)),
    decreases body, 1int,
{
    let registered = TState {
        items: st.items + seq![AsmItem::ZeroBytes, AsmItem::Bind(st.labels)],
        labels: st.labels + 1,
        fns: st.fns.push((name, st.labels)),
        globals: if st.depth == 0 {
            st.globals.push((name, st.labels))
        } else {
            st.globals
        },
        depth: st.depth + 1,
        exts: st.exts,
    };
    assert forall|k: int|
        st.items.len() <= k < registered.items.len() implies bind_in_range(
        #[trigger] registered.items[k],
        st.labels,
        registered.labels,
    ) by {
        assert(registered.items[k] == seq![AsmItem::ZeroBytes, AsmItem::Bind(st.labels)][k
            - st.items.len()]);
    }
    assert(items_extend(st, registered));
    lemma_trans_nodes_inv(cc, registered, body);
    match trans_nodes(cc, registered, body) {
        TransRes::Good(after) => {
            let p = trans_function(cc, st, name, span, body)->Good_0;
            assert(p.items =~= after.items + seq![AsmItem::Ret]);
            lemma_extend_no_binds(after, p, seq![AsmItem::Ret]);
            lemma_extend_trans(st, registered, after);
            lemma_extend_trans(st, after, p);
            if st_bounded(st) {
                lemma_binds_bounded(st, p);
            }
        },
        _ => {},
    }
}

/// See [`lemma_trans_node_inv`]; the same invariants for a sequence.
pub proof fn lemma_trans_nodes_inv(cc: CallingConvention, st: TState, nodes: Seq<IrNode>)
    ensures
        trans_nodes(cc, st, nodes) matches TransRes::Good(p) ==> p.labels >= st.labels && p.depth
            == st.depth && p.fns.len() >= st.fns.len() && (forall|i: int|
            0 <= i < st.fns.len() ==> p.fns[i] == st.fns[i]) && (st.depth > 0 ==> p.globals
            == st.globals) && items_extend(st, p) && (st_bounded(st) ==> st_bounded(p)),
    decreases nodes, 0int,
{
    if nodes.len() > 0 {
        lemma_trans_node_inv(cc, st, nodes[0]);
        match trans_node(cc, st, nodes[0]) {
            TransRes::Good(st1) => {
                lemma_trans_nodes_inv(cc, st1, nodes.drop_first());
                match trans_nodes(cc, st1, nodes.drop_first()) {
                    TransRes::Good(p) => {
                        lemma_extend_trans(st, st1, p);
                    },
                    _ => {},
                }
            },
            _ => {},
        }
    }
}

/// If no entry before `i` is named `name` and the entry at `i` is,
/// the table's entry for `name` is the one at `i`.
proof fn lemma_ext_find_at(exts: Seq<(Seq<char>, Seq<nat>)>, name: Seq<char>, i: int)
    requires
        0 <= i < exts.len(),
        exts[i].0 == name,
        forall|j: int| 0 <= j < i ==> (#[trigger] exts[j]).0 != name,
    ensures
        ext_find(exts, name) == Some(i),
    decreases i,
{
    if i > 0 {
        lemma_ext_find_at(exts.drop_first(), name, i - 1);
    }
}

/// If no entry is named `name`, the table has no entry for it.
proof fn lemma_ext_find_none(exts: Seq<(Seq<char>, Seq<nat>)>, name: Seq<char>)
    requires
        forall|j: int| 0 <= j < exts.len() ==> (#[trigger] exts[j]).0 != name,
    ensures
        ext_find(exts, name) is None,
    decreases exts.len(),
{
    if exts.len() > 0 {
        lemma_ext_find_none(exts.drop_first(), name);
    }
}

} // verus!
