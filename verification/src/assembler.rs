//! The assembler capability: a thin, trusted layer over iced-x86's
//! `CodeAssembler`, together with the symbolic model of the instruction
//! stream that the translator emits.
//!
//! The stream is modeled as a sequence of [`AsmItem`]s; every wrapper
//! states which item its call appends. Labels are referred to by index
//! into the list of labels created so far, and a `Bind` item marks the
//! position a label is bound to.
//!
//! The emission wrappers promise success outright: with these fixed
//! operand forms, iced-x86's emission methods build a valid
//! instruction unconditionally, and `add_instr` refuses only an
//! anonymous label combined with a named one — nothing here creates an
//! anonymous label or requests an instruction prefix, and the fields
//! of [`Asm`] are crate-private, so no other value can reach the
//! wrappers. Binding a label and assembling can fail, and say exactly
//! when.

use vstd::prelude::*;

use iced_x86::code_asm::{
    al, byte_ptr, dword_ptr, qword_ptr, r8, r9, rcx, rdi, rdx, rsi, rsp, CodeAssembler, CodeLabel,
};
use iced_x86::BlockEncoderOptions;

verus! {

#[verifier::external_type_specification]
#[verifier::external_body]
pub struct ExCodeAssembler(CodeAssembler);

#[verifier::external_type_specification]
#[verifier::external_body]
pub struct ExCodeLabel(CodeLabel);

/// One symbolic instruction (or directive) of the emitted stream.
///
/// The data pointer lives in `r8`, the auxiliary stack pointer in `r9`,
/// and `al` is the scratch byte accumulator. Label operands are indices
/// into the labels created on the assembler.
pub enum AsmItem {
    /// The zero-length phantom directive, emitted so that a position
    /// exists for a label to bind to.
    ZeroBytes,
    /// The label with the given index is bound to the next emitted
    /// instruction.
    Bind(nat),
    /// `add byte ptr [r8], imm`
    AddCell(u32),
    /// `sub byte ptr [r8], imm`
    SubCell(u32),
    /// `cmp byte ptr [r8], 0`
    CmpCellZero,
    /// `je label`
    Je(nat),
    /// `jmp label`
    Jmp(nat),
    /// `call label`
    CallLabel(nat),
    /// `lea r8, [r8 + n]`
    LeaDataAdd(u32),
    /// `lea r8, [r8 - n]`
    LeaDataSub(u32),
    /// `lea r9, [r9 + n]`
    LeaAuxAdd(u32),
    /// `lea r9, [r9 - n]`
    LeaAuxSub(u32),
    /// `mov al, byte ptr [r8]`
    MovAccFromData,
    /// `mov byte ptr [r8], al`
    MovDataFromAcc,
    /// `mov byte ptr [r9], al`
    MovAuxFromAcc,
    /// `mov al, byte ptr [r9]`
    MovAccFromAux,
    /// `push r8`
    PushData,
    /// `push r9`
    PushAux,
    /// `pop r8`
    PopData,
    /// `pop r9`
    PopAux,
    /// `lea rdi, [rsp + 8]` (System V first argument)
    LeaArg1SysV,
    /// `lea rsi, [rsp]` (System V second argument)
    LeaArg2SysV,
    /// `lea rcx, [rsp + 8]` (Microsoft x64 first argument)
    LeaArg1Win,
    /// `lea rdx, [rsp]` (Microsoft x64 second argument)
    LeaArg2Win,
    /// `ret`
    Ret,
}

/// The symbolic instruction stream held by an assembler.
pub uninterp spec fn asm_items(a: &CodeAssembler) -> Seq<AsmItem>;

/// The machine code that assembling the given stream at the given base
/// address produces.
pub uninterp spec fn code_bytes_of(items: Seq<AsmItem>, base_address: u64) -> Seq<u8>;

/// The resolved address of the label with the given index, once the
/// given stream is assembled at the given base address.
pub uninterp spec fn label_ip_of(items: Seq<AsmItem>, base_address: u64, id: nat) -> u64;

/// Whether the block encoder accepts the stream: it refuses exactly a
/// stream whose last bind still waits for an instruction, a created
/// label that was never bound, or a branch out of encodable range —
/// all deterministic in the stream, the label count and the base.
pub uninterp spec fn asm_accepts(items: Seq<AsmItem>, labels: nat, base_address: u64) -> bool;

/// Whether the stream already binds the given label.
pub open spec fn has_bind(items: Seq<AsmItem>, id: nat) -> bool {
    exists|i: int| 0 <= i < items.len() && items[i] == AsmItem::Bind(id)
}

/// Whether the stream ends with a bind still waiting for an
/// instruction to attach to.
pub open spec fn bind_pending(items: Seq<AsmItem>) -> bool {
    items.len() > 0 && items.last() is Bind
}

/// An assembler together with the labels created on it, indexed by
/// creation order. The fields stay crate-private so that every value
/// is built by the wrappers below, which never request an instruction
/// prefix and never create an anonymous label; the emission contracts
/// rely on that.
pub(crate) struct Asm {
    pub(crate) inner: CodeAssembler,
    pub(crate) labels: Vec<CodeLabel>,
}

/// The outcome of assembling: the machine-code buffer and the resolved
/// address of each label, indexed as the labels were.
pub(crate) struct Assembled {
    pub bytes: Vec<u8>,
    pub ips: Vec<u64>,
}

impl Asm {
    /// The symbolic stream emitted so far.
    pub(crate) open spec fn view(&self) -> Seq<AsmItem> {
        asm_items(&self.inner)
    }

    /// How many labels have been created.
    pub(crate) open spec fn label_count(&self) -> nat {
        self.labels@.len()
    }

    /// Relies on iced-x86's `CodeAssembler::new`, which accepts the
    /// bitness 64 and starts with no instructions.
    #[verifier::external_body]
    pub(crate) fn new(bitness: u32) -> (r: Asm)
        requires
            bitness == 64,
        ensures
            r@ == Seq::<AsmItem>::empty(),
            asm_items(&r.inner) == r@,
            r.label_count() == 0,
    {
        Asm { inner: CodeAssembler::new(bitness).unwrap(), labels: Vec::new() }
    }

    /// Relies on iced-x86's `CodeAssembler::create_label`: creating a
    /// label emits nothing.
    #[verifier::external_body]
    pub(crate) fn create_label(&mut self) -> (id: usize)
        ensures
            final(self)@ == old(self)@,
            final(self).label_count() == old(self).label_count() + 1,
            id == old(self).label_count(),
    {
        let l = self.inner.create_label();
        self.labels.push(l);
        self.labels.len() - 1
    }

    /// Relies on iced-x86's `CodeAssembler::set_label`: it fails exactly
    /// when the label is already bound or another bind still waits for
    /// an instruction (a created label is never empty, so its other
    /// check cannot fire), it mutates nothing on failure, and on
    /// success it binds the label to the next emitted instruction.
    #[verifier::external_body]
    pub(crate) fn bind_label(&mut self, id: usize) -> (r: Result<(), String>)
        requires
            id < old(self).label_count(),
        ensures
            r is Ok <==> !has_bind(old(self)@, id as nat) && !bind_pending(old(self)@),
            r is Ok ==> final(self)@ == old(self)@.push(AsmItem::Bind(id as nat))
                && final(self).label_count() == old(self).label_count(),
            r is Err ==> *final(self) == *old(self),
    {
        self.inner.set_label(&mut self.labels[id]).map_err(|e| format!("{}", e))
    }

    /// Relies on iced-x86's `CodeAssembler::zero_bytes`: a zero-length
    /// directive that gives labels a position to bind to.
    #[verifier::external_body]
    pub(crate) fn zero_bytes(&mut self) -> (r: Result<(), String>)
        ensures
            r is Ok,
            final(self)@ == old(self)@.push(AsmItem::ZeroBytes),
            final(self).label_count() == old(self).label_count(),
    {
        self.inner.zero_bytes().map_err(|e| format!("{}", e))
    }

    /// Relies on iced-x86's `CodeAssembler::add` with operands
    /// `byte ptr [r8], imm`.
    #[verifier::external_body]
    pub(crate) fn add_cell(&mut self, imm: u32) -> (r: Result<(), String>)
        requires
            imm <= 255,
        ensures
            r is Ok,
            final(self)@ == old(self)@.push(AsmItem::AddCell(imm)),
            final(self).label_count() == old(self).label_count(),
    {
        self.inner.add(byte_ptr(r8), imm).map_err(|e| format!("{}", e))
    }

    /// Relies on iced-x86's `CodeAssembler::sub` with operands
    /// `byte ptr [r8], imm`.
    #[verifier::external_body]
    pub(crate) fn sub_cell(&mut self, imm: u32) -> (r: Result<(), String>)
        requires
            imm <= 255,
        ensures
            r is Ok,
            final(self)@ == old(self)@.push(AsmItem::SubCell(imm)),
            final(self).label_count() == old(self).label_count(),
    {
        self.inner.sub(byte_ptr(r8), imm).map_err(|e| format!("{}", e))
    }

    /// Relies on iced-x86's `CodeAssembler::cmp` with operands
    /// `byte ptr [r8], 0`.
    #[verifier::external_body]
    pub(crate) fn cmp_cell_zero(&mut self) -> (r: Result<(), String>)
        ensures
            r is Ok,
            final(self)@ == old(self)@.push(AsmItem::CmpCellZero),
            final(self).label_count() == old(self).label_count(),
    {
        self.inner.cmp(byte_ptr(r8), 0).map_err(|e| format!("{}", e))
    }

    /// Relies on iced-x86's `CodeAssembler::je` against a created label.
    #[verifier::external_body]
    pub(crate) fn je(&mut self, id: usize) -> (r: Result<(), String>)
        requires
            id < old(self).label_count(),
        ensures
            r is Ok,
            final(self)@ == old(self)@.push(AsmItem::Je(id as nat)),
            final(self).label_count() == old(self).label_count(),
    {
        self.inner.je(self.labels[id]).map_err(|e| format!("{}", e))
    }

    /// Relies on iced-x86's `CodeAssembler::jmp` against a created label.
    #[verifier::external_body]
    pub(crate) fn jmp(&mut self, id: usize) -> (r: Result<(), String>)
        requires
            id < old(self).label_count(),
        ensures
            r is Ok,
            final(self)@ == old(self)@.push(AsmItem::Jmp(id as nat)),
            final(self).label_count() == old(self).label_count(),
    {
        self.inner.jmp(self.labels[id]).map_err(|e| format!("{}", e))
    }

    /// Relies on iced-x86's `CodeAssembler::call` against a created
    /// label.
    #[verifier::external_body]
    pub(crate) fn call_label(&mut self, id: usize) -> (r: Result<(), String>)
        requires
            id < old(self).label_count(),
        ensures
            r is Ok,
            final(self)@ == old(self)@.push(AsmItem::CallLabel(id as nat)),
            final(self).label_count() == old(self).label_count(),
    {
        self.inner.call(self.labels[id]).map_err(|e| format!("{}", e))
    }

    /// Relies on iced-x86's `CodeAssembler::lea` with operands
    /// `r8, [r8 + n]`.
    #[verifier::external_body]
    pub(crate) fn lea_data_add(&mut self, n: u32) -> (r: Result<(), String>)
        ensures
            r is Ok,
            final(self)@ == old(self)@.push(AsmItem::LeaDataAdd(n)),
            final(self).label_count() == old(self).label_count(),
    {
        self.inner.lea(r8, dword_ptr(r8 + n)).map_err(|e| format!("{}", e))
    }

    /// Relies on iced-x86's `CodeAssembler::lea` with operands
    /// `r8, [r8 - n]`.
    #[verifier::external_body]
    pub(crate) fn lea_data_sub(&mut self, n: u32) -> (r: Result<(), String>)
        ensures
            r is Ok,
            final(self)@ == old(self)@.push(AsmItem::LeaDataSub(n)),
            final(self).label_count() == old(self).label_count(),
    {
        self.inner.lea(r8, dword_ptr(r8 - n)).map_err(|e| format!("{}", e))
    }

    /// Relies on iced-x86's `CodeAssembler::lea` with operands
    /// `r9, [r9 + n]`.
    #[verifier::external_body]
    pub(crate) fn lea_aux_add(&mut self, n: u32) -> (r: Result<(), String>)
        ensures
            r is Ok,
            final(self)@ == old(self)@.push(AsmItem::LeaAuxAdd(n)),
            final(self).label_count() == old(self).label_count(),
    {
        self.inner.lea(r9, dword_ptr(r9 + n)).map_err(|e| format!("{}", e))
    }

    /// Relies on iced-x86's `CodeAssembler::lea` with operands
    /// `r9, [r9 - n]`.
    #[verifier::external_body]
    pub(crate) fn lea_aux_sub(&mut self, n: u32) -> (r: Result<(), String>)
        ensures
            r is Ok,
            final(self)@ == old(self)@.push(AsmItem::LeaAuxSub(n)),
            final(self).label_count() == old(self).label_count(),
    {
        self.inner.lea(r9, dword_ptr(r9 - n)).map_err(|e| format!("{}", e))
    }

    /// Relies on iced-x86's `CodeAssembler::mov` with operands
    /// `al, byte ptr [r8]`.
    #[verifier::external_body]
    pub(crate) fn mov_acc_from_data(&mut self) -> (r: Result<(), String>)
        ensures
            r is Ok,
            final(self)@ == old(self)@.push(AsmItem::MovAccFromData),
            final(self).label_count() == old(self).label_count(),
    {
        self.inner.mov(al, byte_ptr(r8)).map_err(|e| format!("{}", e))
    }

    /// Relies on iced-x86's `CodeAssembler::mov` with operands
    /// `byte ptr [r8], al`.
    #[verifier::external_body]
    pub(crate) fn mov_data_from_acc(&mut self) -> (r: Result<(), String>)
        ensures
            r is Ok,
            final(self)@ == old(self)@.push(AsmItem::MovDataFromAcc),
            final(self).label_count() == old(self).label_count(),
    {
        self.inner.mov(byte_ptr(r8), al).map_err(|e| format!("{}", e))
    }

    /// Relies on iced-x86's `CodeAssembler::mov` with operands
    /// `byte ptr [r9], al`.
    #[verifier::external_body]
    pub(crate) fn mov_aux_from_acc(&mut self) -> (r: Result<(), String>)
        ensures
            r is Ok,
            final(self)@ == old(self)@.push(AsmItem::MovAuxFromAcc),
            final(self).label_count() == old(self).label_count(),
    {
        self.inner.mov(byte_ptr(r9), al).map_err(|e| format!("{}", e))
    }

    /// Relies on iced-x86's `CodeAssembler::mov` with operands
    /// `al, byte ptr [r9]`.
    #[verifier::external_body]
    pub(crate) fn mov_acc_from_aux(&mut self) -> (r: Result<(), String>)
        ensures
            r is Ok,
            final(self)@ == old(self)@.push(AsmItem::MovAccFromAux),
            final(self).label_count() == old(self).label_count(),
    {
        self.inner.mov(al, byte_ptr(r9)).map_err(|e| format!("{}", e))
    }

    /// Relies on iced-x86's `CodeAssembler::push` with operand `r8`.
    #[verifier::external_body]
    pub(crate) fn push_data(&mut self) -> (r: Result<(), String>)
        ensures
            r is Ok,
            final(self)@ == old(self)@.push(AsmItem::PushData),
            final(self).label_count() == old(self).label_count(),
    {
        self.inner.push(r8).map_err(|e| format!("{}", e))
    }

    /// Relies on iced-x86's `CodeAssembler::push` with operand `r9`.
    #[verifier::external_body]
    pub(crate) fn push_aux(&mut self) -> (r: Result<(), String>)
        ensures
            r is Ok,
            final(self)@ == old(self)@.push(AsmItem::PushAux),
            final(self).label_count() == old(self).label_count(),
    {
        self.inner.push(r9).map_err(|e| format!("{}", e))
    }

    /// Relies on iced-x86's `CodeAssembler::pop` with operand `r8`.
    #[verifier::external_body]
    pub(crate) fn pop_data(&mut self) -> (r: Result<(), String>)
        ensures
            r is Ok,
            final(self)@ == old(self)@.push(AsmItem::PopData),
            final(self).label_count() == old(self).label_count(),
    {
        self.inner.pop(r8).map_err(|e| format!("{}", e))
    }

    /// Relies on iced-x86's `CodeAssembler::pop` with operand `r9`.
    #[verifier::external_body]
    pub(crate) fn pop_aux(&mut self) -> (r: Result<(), String>)
        ensures
            r is Ok,
            final(self)@ == old(self)@.push(AsmItem::PopAux),
            final(self).label_count() == old(self).label_count(),
    {
        self.inner.pop(r9).map_err(|e| format!("{}", e))
    }

    /// Relies on iced-x86's `CodeAssembler::lea` with operands
    /// `rdi, [rsp + 8]`.
    #[verifier::external_body]
    pub(crate) fn lea_arg1_sysv(&mut self) -> (r: Result<(), String>)
        ensures
            r is Ok,
            final(self)@ == old(self)@.push(AsmItem::LeaArg1SysV),
            final(self).label_count() == old(self).label_count(),
    {
        self.inner.lea(rdi, qword_ptr(rsp + 8)).map_err(|e| format!("{}", e))
    }

    /// Relies on iced-x86's `CodeAssembler::lea` with operands
    /// `rsi, [rsp]`.
    #[verifier::external_body]
    pub(crate) fn lea_arg2_sysv(&mut self) -> (r: Result<(), String>)
        ensures
            r is Ok,
            final(self)@ == old(self)@.push(AsmItem::LeaArg2SysV),
            final(self).label_count() == old(self).label_count(),
    {
        self.inner.lea(rsi, qword_ptr(rsp)).map_err(|e| format!("{}", e))
    }

    /// Relies on iced-x86's `CodeAssembler::lea` with operands
    /// `rcx, [rsp + 8]`.
    #[verifier::external_body]
    pub(crate) fn lea_arg1_win(&mut self) -> (r: Result<(), String>)
        ensures
            r is Ok,
            final(self)@ == old(self)@.push(AsmItem::LeaArg1Win),
            final(self).label_count() == old(self).label_count(),
    {
        self.inner.lea(rcx, qword_ptr(rsp + 8)).map_err(|e| format!("{}", e))
    }

    /// Relies on iced-x86's `CodeAssembler::lea` with operands
    /// `rdx, [rsp]`.
    #[verifier::external_body]
    pub(crate) fn lea_arg2_win(&mut self) -> (r: Result<(), String>)
        ensures
            r is Ok,
            final(self)@ == old(self)@.push(AsmItem::LeaArg2Win),
            final(self).label_count() == old(self).label_count(),
    {
        self.inner.lea(rdx, qword_ptr(rsp)).map_err(|e| format!("{}", e))
    }

    /// Relies on iced-x86's `CodeAssembler::ret`.
    #[verifier::external_body]
    pub(crate) fn ret(&mut self) -> (r: Result<(), String>)
        ensures
            r is Ok,
            final(self)@ == old(self)@.push(AsmItem::Ret),
            final(self).label_count() == old(self).label_count(),
    {
        self.inner.ret().map_err(|e| format!("{}", e))
    }

    /// Relies on iced-x86's `CodeAssembler::assemble_options` (with
    /// relocation info and new instruction offsets requested) and
    /// `CodeAssemblerResult::label_ip`: the outcome is a deterministic
    /// function of the stream, the label count and the base — it fails
    /// exactly when a bind still waits for an instruction, a created
    /// label was never bound, or a branch is out of encodable range.
    /// On success the buffer holds the encoding of the emitted stream
    /// at the given base address, and every created label resolves to
    /// its address.
    #[verifier::external_body]
    pub(crate) fn assemble(self, base_address: u64) -> (r: Result<Assembled, String>)
        ensures
            r is Ok <==> asm_accepts(self@, self.label_count(), base_address),
            r is Ok ==> {
                let out = r->Ok_0;
                &&& out.bytes@ == code_bytes_of(self@, base_address)
                &&& out.ips@.len() == self.label_count()
                &&& forall|i: int|
                    0 <= i < out.ips@.len() ==> out.ips@[i] == label_ip_of(
                        self@,
                        base_address,
                        i as nat,
                    )
            },
    {
        let mut inner = self.inner;
        let options = BlockEncoderOptions::RETURN_RELOC_INFOS
            | BlockEncoderOptions::RETURN_NEW_INSTRUCTION_OFFSETS;
        let res = match inner.assemble_options(base_address, options) {
            Ok(r) => r,
            Err(e) => return Err(format!("{}", e)),
        };
        let mut ips: Vec<u64> = Vec::with_capacity(self.labels.len());
        for l in &self.labels {
            match res.label_ip(l) {
                Ok(ip) => ips.push(ip),
                Err(e) => return Err(format!("{}", e)),
            }
        }
        Ok(Assembled { bytes: res.inner.code_buffer, ips })
    }
}

} // verus!
