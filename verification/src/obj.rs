//! The object builder: turns one finished translation into a
//! relocatable object artifact.
//!
//! The artifact is computed first as a verified [`ObjectPlan`] — the
//! neutralized text, the resolved function symbols, the entry symbol
//! offset, and one undefined-symbol entry per distinct external name
//! with its relocation records — and the plan is then realized through
//! a thin, trusted layer over the object crate's writer.

use vstd::prelude::*;

use crate::assembler::{code_bytes_of, label_ip_of, AsmItem};
use crate::compiler::{trans_function, trans_nodes, CallingConvention, TransRes, TState};
use crate::ir::{IrNode, Span};
use crate::scope::lookup_fn;
use object::write::{Object, SectionId, Symbol, SymbolId};

verus! {

broadcast use {vstd::seq_lib::group_seq_lib_default, vstd::seq::Seq::lemma_filter_push};

#[verifier::external_type_specification]
#[verifier::external_body]
pub struct ExObject<'a>(Object<'a>);

#[verifier::external_type_specification]
#[verifier::external_body]
pub struct ExSectionId(SectionId);

#[verifier::external_type_specification]
#[verifier::external_body]
pub struct ExSymbolId(SymbolId);

/// One symbol table entry of the artifact, as the model sees it.
pub struct SymModel {
    pub name: Seq<char>,
    pub value: u64,
    pub size: u64,
    /// Whether the symbol is defined in the text section (as opposed to
    /// an undefined external reference).
    pub defined: bool,
    /// Whether this is the file name symbol.
    pub is_file: bool,
}

/// One relocation record of the artifact, as the model sees it:
/// a 32-bit PC-relative patch at `offset` against symbol `sym`.
pub struct RelocModel {
    pub offset: u64,
    pub sym: nat,
    pub addend: int,
    pub rel32: bool,
}

/// The symbol table of an object under construction.
pub uninterp spec fn obj_symbols(o: Object) -> Seq<SymModel>;

/// The relocation records of an object under construction.
pub uninterp spec fn obj_relocs(o: Object) -> Seq<RelocModel>;

/// The contents of the object's text section.
pub uninterp spec fn obj_text(o: Object) -> Seq<u8>;

/// The position of a symbol id in the symbol table.
pub uninterp spec fn sym_index(s: SymbolId) -> nat;

/// One relocation of the plan: the section offset to patch and the
/// addend; the kind is always 32-bit PC-relative.
pub struct RelocEntry {
    pub offset: u64,
    pub addend: i64,
}

/// One external function of the plan: its name, the addresses of its
/// call instructions, and the relocation records for them.
pub struct ExternalSym {
    pub name: String,
    pub sites: Vec<u64>,
    pub relocs: Vec<RelocEntry>,
}

/// One resolved top-level function symbol of the plan.
pub struct FnSym {
    pub name: String,
    pub offset: u64,
}

/// The verified description of the object artifact: everything the
/// writer needs, computed and checked before any writer call is made.
pub struct ObjectPlan {
    /// The assembled text with every external call target neutralized
    /// to zero, ready to be patched by a linker.
    pub text: Vec<u8>,
    /// One symbol per top-level declared function, at its resolved
    /// in-section offset.
    pub fn_syms: Vec<FnSym>,
    /// The resolved offset of the synthesized entry function.
    pub entry_offset: u64,
    /// One entry per distinct external name, in first-call order.
    pub externals: Vec<ExternalSym>,
}

/// Whether a top-level node is a function declaration.
pub open spec fn is_fn_node(node: IrNode) -> bool {
    node.node is Function
}

/// The top-level function declarations, in order.
pub open spec fn split_fns(ast: Seq<IrNode>) -> Seq<IrNode> {
    ast.filter(|n: IrNode| is_fn_node(n))
}

/// The top-level non-function statements, in order.
pub open spec fn split_others(ast: Seq<IrNode>) -> Seq<IrNode> {
    ast.filter(|n: IrNode| !is_fn_node(n))
}

/// The span attached to the synthesized entry function.
pub open spec fn synth_span() -> Span {
    Span { offset: 0, length: 1 }
}

/// What the object-building translation does: the declared functions
/// first, then one synthesized entry function wrapping the non-function
/// statements.
pub open spec fn object_trans(cc: CallingConvention, st: TState, ast: Seq<IrNode>) -> TransRes {
    match trans_nodes(cc, st, split_fns(ast)) {
        TransRes::Good(st1) => trans_function(cc, st1, "_start"@, synth_span(), split_others(ast)),
        f => f,
    }
}

/// Every label's resolved address, for a stream assembled at base 0.
pub open spec fn ips_of(st: TState) -> Seq<u64> {
    Seq::new(st.labels, |i: int| label_ip_of(st.items, 0, i as nat))
}

/// Zeroes the four call-target bytes of one call site (the byte after
/// the call opcode onward), or reports that the site does not fit the
/// buffer.
pub open spec fn zero_call_site(bytes: Seq<u8>, site: u64) -> Option<Seq<u8>> {
    if site + 5 <= bytes.len() {
        Some(Seq::new(bytes.len(), |i: int| if site + 1 <= i < site + 5 { 0u8 } else { bytes[i] }))
    } else {
        None
    }
}

/// Zeroes the call sites of one external entry, left to right.
pub open spec fn zero_entry(bytes: Option<Seq<u8>>, sites: Seq<nat>, ips: Seq<u64>) -> Option<
    Seq<u8>,
>
    decreases sites.len(),
{
    match bytes {
        None => None,
        Some(b) => if sites.len() == 0 {
            Some(b)
        } else {
            zero_entry(zero_call_site(b, ips[sites[0] as int]), sites.drop_first(), ips)
        },
    }
}

/// Zeroes every recorded external call site, entry by entry.
pub open spec fn zero_all(
    bytes: Option<Seq<u8>>,
    exts: Seq<(Seq<char>, Seq<nat>)>,
    ips: Seq<u64>,
) -> Option<Seq<u8>>
    decreases exts.len(),
{
    if exts.len() == 0 {
        bytes
    } else {
        zero_all(zero_entry(bytes, exts[0].1, ips), exts.drop_first(), ips)
    }
}

/// A buffer already lost stays lost, however many entries follow.
pub proof fn lemma_zero_all_none(exts: Seq<(Seq<char>, Seq<nat>)>, ips: Seq<u64>)
    ensures
        zero_all(None, exts, ips) is None,
    decreases exts.len(),
{
    if exts.len() > 0 {
        lemma_zero_all_none(exts.drop_first(), ips);
    }
}

/// Zeroing a site list splits at any point.
pub proof fn lemma_zero_entry_split(b: Option<Seq<u8>>, sites: Seq<nat>, j: int, ips: Seq<u64>)
    requires
        0 <= j <= sites.len(),
    ensures
        zero_entry(b, sites, ips) == zero_entry(
            zero_entry(b, sites.take(j), ips),
            sites.skip(j),
            ips,
        ),
    decreases j,
{
    if j == 0 {
        assert(sites.take(0) =~= Seq::<nat>::empty());
        assert(sites.skip(0) =~= sites);
    } else {
        match b {
            None => {},
            Some(bb) => {
                let stepped = zero_call_site(bb, ips[sites[0] as int]);
                lemma_zero_entry_split(stepped, sites.drop_first(), j - 1, ips);
                assert(sites.drop_first().take(j - 1) =~= sites.take(j).drop_first());
                assert(sites.drop_first().skip(j - 1) =~= sites.skip(j));
                assert(sites.take(j)[0] == sites[0]);
            },
        }
    }
}

/// Zeroing the external table splits at any point.
pub proof fn lemma_zero_all_split(
    b: Option<Seq<u8>>,
    exts: Seq<(Seq<char>, Seq<nat>)>,
    e: int,
    ips: Seq<u64>,
)
    requires
        0 <= e <= exts.len(),
    ensures
        zero_all(b, exts, ips) == zero_all(zero_all(b, exts.take(e), ips), exts.skip(e), ips),
    decreases e,
{
    if e == 0 {
        assert(exts.take(0) =~= Seq::<(Seq<char>, Seq<nat>)>::empty());
        assert(exts.skip(0) =~= exts);
    } else {
        let stepped = zero_entry(b, exts[0].1, ips);
        lemma_zero_all_split(stepped, exts.drop_first(), e - 1, ips);
        assert(exts.drop_first().take(e - 1) =~= exts.take(e).drop_first());
        assert(exts.drop_first().skip(e - 1) =~= exts.skip(e));
        assert(exts.take(e)[0] == exts[0]);
    }
}

/// Zeroing no sites leaves the buffer as it stands.
pub proof fn lemma_zero_entry_empty(b: Option<Seq<u8>>, ips: Seq<u64>)
    ensures
        zero_entry(b, Seq::<nat>::empty(), ips) == b,
{
}

/// Zeroing no entries leaves the buffer as it stands.
pub proof fn lemma_zero_all_empty(b: Option<Seq<u8>>, ips: Seq<u64>)
    ensures
        zero_all(b, Seq::<(Seq<char>, Seq<nat>)>::empty(), ips) == b,
{
}

/// Zeroing one more site at the end composes.
pub proof fn lemma_zero_entry_push(b: Option<Seq<u8>>, sites: Seq<nat>, x: nat, ips: Seq<u64>)
    ensures
        zero_entry(b, sites.push(x), ips) == (match zero_entry(b, sites, ips) {
            Some(bb) => zero_call_site(bb, ips[x as int]),
            None => None,
        }),
    decreases sites.len(),
{
    match b {
        None => {},
        Some(bb) => {
            if sites.len() == 0 {
                assert(sites.push(x)[0] == x);
                assert(sites.push(x).drop_first() =~= Seq::<nat>::empty());
                lemma_zero_entry_empty(zero_call_site(bb, ips[x as int]), ips);
                lemma_zero_entry_empty(Some(bb), ips);
            } else {
                assert(sites.push(x)[0] == sites[0]);
                assert(sites.push(x).drop_first() =~= sites.drop_first().push(x));
                lemma_zero_entry_push(
                    zero_call_site(bb, ips[sites[0] as int]),
                    sites.drop_first(),
                    x,
                    ips,
                );
            }
        },
    }
}

/// Zeroing one more external entry at the end composes.
pub proof fn lemma_zero_all_push(
    b: Option<Seq<u8>>,
    exts: Seq<(Seq<char>, Seq<nat>)>,
    x: (Seq<char>, Seq<nat>),
    ips: Seq<u64>,
)
    ensures
        zero_all(b, exts.push(x), ips) == zero_entry(zero_all(b, exts, ips), x.1, ips),
    decreases exts.len(),
{
    if exts.len() == 0 {
        assert(exts.push(x)[0] == x);
        assert(exts.push(x).drop_first() =~= Seq::<(Seq<char>, Seq<nat>)>::empty());
        lemma_zero_all_empty(zero_entry(b, x.1, ips), ips);
        lemma_zero_all_empty(b, ips);
    } else {
        assert(exts.push(x)[0] == exts[0]);
        assert(exts.push(x).drop_first() =~= exts.drop_first().push(x));
        lemma_zero_all_push(zero_entry(b, exts[0].1, ips), exts.drop_first(), x, ips);
    }
}

/// Whether a plan renders the translation state `st`: symbols at their
/// resolved label addresses, the text neutralized at every call site,
/// and one external entry per distinct name with relocations at
/// call-site + 1 and addend -4.
pub open spec fn plan_matches(plan: ObjectPlan, st: TState) -> bool {
    let ips = ips_of(st);
    &&& st.globals.len() >= 1
    &&& plan.fn_syms@.len() == st.globals.len() - 1
    &&& forall|k: int|
        0 <= k < st.globals.len() - 1 ==> (#[trigger] plan.fn_syms@[k]).name@ == st.globals[k].0
            && plan.fn_syms@[k].offset == ips[st.globals[k].1 as int]
    &&& lookup_fn(st.fns, "_start"@) is Some
    &&& plan.entry_offset == ips[lookup_fn(st.fns, "_start"@)->Some_0 as int]
    &&& zero_all(Some(code_bytes_of(st.items, 0)), st.exts, ips) == Some(plan.text@)
    &&& plan.externals@.len() == st.exts.len()
    &&& forall|k: int|
        0 <= k < st.exts.len() ==> {
            let e = #[trigger] plan.externals@[k];
            &&& e.name@ == st.exts[k].0
            &&& e.sites@.len() == st.exts[k].1.len()
            &&& e.relocs@.len() == st.exts[k].1.len()
            &&& forall|j: int|
                0 <= j < st.exts[k].1.len() ==> (#[trigger] e.sites@[j]) == ips[st.exts[k].1[j] as int]
                    && e.relocs@[j].offset == e.sites@[j] + 1 && e.relocs@[j].addend == -4
        }
}

/// The symbol table that realizing a plan produces: the file symbol,
/// the pre-created function symbols (resolved), the entry symbol, then
/// one undefined symbol per external name.
pub open spec fn plan_syms_model(plan: ObjectPlan, filename: Seq<char>) -> Seq<SymModel> {
    seq![SymModel { name: filename, value: 0, size: 0, defined: true, is_file: true }] + Seq::new(
        plan.fn_syms@.len(),
        |k: int|
            SymModel {
                name: plan.fn_syms@[k].name@,
                value: plan.fn_syms@[k].offset,
                size: 0,
                defined: true,
                is_file: false,
            },
    ) + seq![
        SymModel {
            name: "_start"@,
            value: plan.entry_offset,
            size: 0,
            defined: true,
            is_file: false,
        },
    ] + Seq::new(
        plan.externals@.len(),
        |k: int|
            SymModel {
                name: plan.externals@[k].name@,
                value: 0,
                size: 0,
                defined: false,
                is_file: false,
            },
    )
}

/// The relocation records that realizing a plan produces, in emission
/// order; `base_sym` is the symbol index of the first external name.
pub open spec fn relocs_model(exts: Seq<ExternalSym>, base_sym: nat) -> Seq<RelocModel>
    decreases exts.len(),
{
    if exts.len() == 0 {
        Seq::empty()
    } else {
        Seq::new(
            exts[0].relocs@.len(),
            |j: int|
                RelocModel {
                    offset: exts[0].relocs@[j].offset,
                    sym: base_sym,
                    addend: exts[0].relocs@[j].addend as int,
                    rel32: true,
                },
        ) + relocs_model(exts.drop_first(), base_sym + 1)
    }
}

/// Relies on the object crate's `Object::new` for an ELF, x86-64,
/// little-endian relocatable object with nothing in it yet.
#[verifier::external_body]
fn obj_new() -> (o: Object<'static>)
    ensures
        obj_symbols(o) == Seq::<SymModel>::empty(),
        obj_relocs(o) == Seq::<RelocModel>::empty(),
        obj_text(o) == Seq::<u8>::empty(),
{
    Object::new(object::BinaryFormat::Elf, object::Architecture::X86_64, object::Endianness::Little)
}

/// Relies on the object crate's `Object::add_file_symbol`: appends one
/// file symbol named by the bytes handed to it.
#[verifier::external_body]
fn obj_add_file_symbol(o: &mut Object<'static>, name: &str)
    ensures
        obj_symbols(*final(o)) == obj_symbols(*old(o)).push(
            SymModel { name: name@, value: 0, size: 0, defined: true, is_file: true },
        ),
        obj_relocs(*final(o)) == obj_relocs(*old(o)),
        obj_text(*final(o)) == obj_text(*old(o)),
{
    let _ = o.add_file_symbol(name.as_bytes().to_vec());
}

/// Relies on the object crate's `Object::add_section`: adds the `.text`
/// section, touching neither symbols nor relocations.
#[verifier::external_body]
fn obj_add_text_section(o: &mut Object<'static>) -> (s: SectionId)
    ensures
        obj_symbols(*final(o)) == obj_symbols(*old(o)),
        obj_relocs(*final(o)) == obj_relocs(*old(o)),
        obj_text(*final(o)) == obj_text(*old(o)),
{
    o.add_section(Vec::new(), b".text".to_vec(), object::SectionKind::Text)
}

/// Relies on the object crate's `Object::add_symbol`: appends one
/// dynamically scoped text symbol defined in the given section, valued
/// 0 until it is resolved, and returns its id.
#[verifier::external_body]
fn obj_add_fn_symbol(o: &mut Object<'static>, name: &String, section: SectionId) -> (s: SymbolId)
    ensures
        obj_symbols(*final(o)) == obj_symbols(*old(o)).push(
            SymModel { name: name@, value: 0, size: 0, defined: true, is_file: false },
        ),
        sym_index(s) == obj_symbols(*old(o)).len(),
        obj_relocs(*final(o)) == obj_relocs(*old(o)),
        obj_text(*final(o)) == obj_text(*old(o)),
{
    o.add_symbol(
        Symbol {
            name: name.as_bytes().to_vec(),
            value: 0,
            size: 0,
            kind: object::SymbolKind::Text,
            scope: object::SymbolScope::Dynamic,
            weak: false,
            section: object::write::SymbolSection::Section(section),
            flags: object::SymbolFlags::None,
        },
    )
}

/// Relies on the object crate's `Object::add_symbol`: appends one
/// undefined, dynamically scoped text symbol (an external reference)
/// and returns its id.
#[verifier::external_body]
fn obj_add_undef_symbol(o: &mut Object<'static>, name: &String) -> (s: SymbolId)
    ensures
        obj_symbols(*final(o)) == obj_symbols(*old(o)).push(
            SymModel { name: name@, value: 0, size: 0, defined: false, is_file: false },
        ),
        sym_index(s) == obj_symbols(*old(o)).len(),
        obj_relocs(*final(o)) == obj_relocs(*old(o)),
        obj_text(*final(o)) == obj_text(*old(o)),
{
    o.add_symbol(
        Symbol {
            name: name.as_bytes().to_vec(),
            value: 0,
            size: 0,
            kind: object::SymbolKind::Text,
            scope: object::SymbolScope::Dynamic,
            weak: false,
            section: object::write::SymbolSection::Undefined,
            flags: object::SymbolFlags::None,
        },
    )
}

/// Relies on the object crate's `Object::add_symbol_data` with
/// alignment 16: into an empty section it appends the data at offset 0
/// and points the symbol at it.
#[verifier::external_body]
fn obj_add_symbol_data(
    o: &mut Object<'static>,
    sym: SymbolId,
    section: SectionId,
    data: &Vec<u8>,
) -> (off: u64)
    requires
        sym_index(sym) < obj_symbols(*old(o)).len(),
        !obj_symbols(*old(o))[sym_index(sym) as int].is_file,
        obj_text(*old(o)).len() == 0,
    ensures
        off == 0,
        obj_text(*final(o)) == data@,
        obj_symbols(*final(o)) == obj_symbols(*old(o)).update(
            sym_index(sym) as int,
            SymModel {
                name: obj_symbols(*old(o))[sym_index(sym) as int].name,
                value: 0,
                size: data@.len() as u64,
                defined: true,
                is_file: false,
            },
        ),
        obj_relocs(*final(o)) == obj_relocs(*old(o)),
{
    o.add_symbol_data(sym, section, data.as_slice(), 16)
}

/// Relies on the object crate's `Object::set_symbol_data`: points an
/// already added (non-file, hence dynamically scoped) symbol at the
/// given offset and size in the section.
#[verifier::external_body]
fn obj_set_symbol_data(
    o: &mut Object<'static>,
    sym: SymbolId,
    section: SectionId,
    offset: u64,
    size: u64,
)
    requires
        sym_index(sym) < obj_symbols(*old(o)).len(),
        !obj_symbols(*old(o))[sym_index(sym) as int].is_file,
    ensures
        obj_symbols(*final(o)) == obj_symbols(*old(o)).update(
            sym_index(sym) as int,
            SymModel {
                name: obj_symbols(*old(o))[sym_index(sym) as int].name,
                value: offset,
                size,
                defined: true,
                is_file: false,
            },
        ),
        obj_relocs(*final(o)) == obj_relocs(*old(o)),
        obj_text(*final(o)) == obj_text(*old(o)),
{
    o.set_symbol_data(sym, section, offset, size)
}

/// Relies on the object crate's `Object::add_relocation` with a
/// generic 32-bit PC-relative relocation: for an ELF x86-64 object
/// these flags translate to the 32-bit PC-relative relocation type,
/// the format stores addends in the relocation record, and no data is
/// written, so the call succeeds and appends exactly that record.
#[verifier::external_body]
fn obj_add_relocation(
    o: &mut Object<'static>,
    section: SectionId,
    offset: u64,
    symbol: SymbolId,
    addend: i64,
) -> (r: Result<(), String>)
    ensures
        r is Ok,
        r is Ok ==> obj_relocs(*final(o)) == obj_relocs(*old(o)).push(
            RelocModel { offset, sym: sym_index(symbol), addend: addend as int, rel32: true },
        ) && obj_symbols(*final(o)) == obj_symbols(*old(o)) && obj_text(*final(o)) == obj_text(
            *old(o),
        ),
{
    o.add_relocation(
        section,
        object::write::Relocation {
            offset,
            symbol,
            addend,
            flags: object::RelocationFlags::Generic {
                kind: object::RelocationKind::Relative,
                encoding: object::RelocationEncoding::X86RipRelative,
                size: 32,
            },
        },
    ).map_err(|e| format!("{}", e))
}

/// Realizes a plan as an object: the file symbol, one pre-created
/// symbol per top-level function, the text section holding the
/// neutralized code, the entry symbol at its offset, one undefined
/// symbol per external name with its relocations, and finally the
/// function symbols pointed at their resolved offsets.
pub fn emit_object(plan: &ObjectPlan, filename: &str) -> (r: Result<Object<'static>, String>)
    ensures
        r is Ok,
        r matches Ok(o) ==> obj_symbols(o) == plan_syms_model(*plan, filename@) && obj_relocs(o)
            == relocs_model(plan.externals@, plan.fn_syms@.len() + 2) && obj_text(o)
            == plan.text@,
{
    let ghost file_sym = SymModel {
        name: filename@,
        value: 0,
        size: 0,
        defined: true,
        is_file: true,
    };
    let ghost fnsyms0 = Seq::new(
        plan.fn_syms@.len(),
        |i: int|
            SymModel {
                name: plan.fn_syms@[i].name@,
                value: 0,
                size: 0,
                defined: true,
                is_file: false,
            },
    );
    let mut o = obj_new();
    obj_add_file_symbol(&mut o, filename);
    let text_section = obj_add_text_section(&mut o);
    let mut fn_sym_ids: Vec<SymbolId> = Vec::new();
    let mut k: usize = 0;
    while k < plan.fn_syms.len()
        invariant
            k <= plan.fn_syms@.len(),
            fn_sym_ids@.len() == k,
            fnsyms0 == Seq::new(
                plan.fn_syms@.len(),
                |i: int|
                    SymModel {
                        name: plan.fn_syms@[i].name@,
                        value: 0,
                        size: 0,
                        defined: true,
                        is_file: false,
                    },
            ),
            file_sym == (SymModel {
                name: filename@,
                value: 0,
                size: 0,
                defined: true,
                is_file: true,
            }),
            obj_symbols(o) == seq![file_sym] + fnsyms0.take(k as int),
            forall|i: int| 0 <= i < k ==> sym_index(#[trigger] fn_sym_ids@[i]) == i + 1,
            obj_relocs(o) == Seq::<RelocModel>::empty(),
            obj_text(o) == Seq::<u8>::empty(),
        decreases plan.fn_syms@.len() - k,
    {
        let s = obj_add_fn_symbol(&mut o, &plan.fn_syms[k].name, text_section);
        fn_sym_ids.push(s);
        proof {
            assert(fnsyms0.take(k + 1) =~= fnsyms0.take(k as int).push(fnsyms0[k as int]));
            assert(obj_symbols(o) =~= seq![file_sym] + fnsyms0.take(k + 1));
        }
        k += 1;
    }
    proof {
        assert(fnsyms0.take(plan.fn_syms@.len() as int) =~= fnsyms0);
    }
    let start_name: String = "_start".to_owned();
    let start_sym = obj_add_fn_symbol(&mut o, &start_name, text_section);
    let _off = obj_add_symbol_data(&mut o, start_sym, text_section, &plan.text);
    obj_set_symbol_data(&mut o, start_sym, text_section, plan.entry_offset, 0);
    let ghost start_resolved = SymModel {
        name: "_start"@,
        value: plan.entry_offset,
        size: 0,
        defined: true,
        is_file: false,
    };
    let ghost syms_before_ext = seq![file_sym] + fnsyms0 + seq![start_resolved];
    proof {
        assert(obj_symbols(o) =~= syms_before_ext);
    }
    let ghost undefs = Seq::new(
        plan.externals@.len(),
        |i: int|
            SymModel {
                name: plan.externals@[i].name@,
                value: 0,
                size: 0,
                defined: false,
                is_file: false,
            },
    );
    let mut e: usize = 0;
    while e < plan.externals.len()
        invariant
            e <= plan.externals@.len(),
            syms_before_ext.len() == plan.fn_syms@.len() + 2,
            undefs == Seq::new(
                plan.externals@.len(),
                |i: int|
                    SymModel {
                        name: plan.externals@[i].name@,
                        value: 0,
                        size: 0,
                        defined: false,
                        is_file: false,
                    },
            ),
            obj_symbols(o) == syms_before_ext + undefs.take(e as int),
            obj_relocs(o) == relocs_model(
                plan.externals@.take(e as int),
                plan.fn_syms@.len() + 2,
            ),
            obj_text(o) == plan.text@,
        decreases plan.externals@.len() - e,
    {
        let sym = obj_add_undef_symbol(&mut o, &plan.externals[e].name);
        proof {
            assert(undefs.take(e + 1) =~= undefs.take(e as int).push(undefs[e as int]));
            assert(obj_symbols(o) =~= syms_before_ext + undefs.take(e + 1));
            assert(sym_index(sym) == plan.fn_syms@.len() + 2 + e);
        }
        let ghost relocs_before = obj_relocs(o);
        let mut j: usize = 0;
        while j < plan.externals[e].relocs.len()
            invariant
                e < plan.externals@.len(),
                j <= plan.externals@[e as int].relocs@.len(),
                sym_index(sym) == plan.fn_syms@.len() + 2 + e,
                obj_relocs(o) == relocs_before + Seq::new(
                    j as nat,
                    |i: int|
                        RelocModel {
                            offset: plan.externals@[e as int].relocs@[i].offset,
                            sym: (plan.fn_syms@.len() + 2 + e) as nat,
                            addend: plan.externals@[e as int].relocs@[i].addend as int,
                            rel32: true,
                        },
                ),
                obj_symbols(o) == syms_before_ext + undefs.take(e + 1),
                syms_before_ext.len() == plan.fn_syms@.len() + 2,
                undefs.len() == plan.externals@.len(),
                obj_text(o) == plan.text@,
            decreases plan.externals@[e as int].relocs@.len() - j,
        {
            let off = plan.externals[e].relocs[j].offset;
            let add = plan.externals[e].relocs[j].addend;
            match obj_add_relocation(&mut o, text_section, off, sym, add) {
                Ok(_) => {},
                Err(m) => {
                    return Err(m);
                },
            }
            proof {
                assert(obj_relocs(o) =~= relocs_before + Seq::new(
                    (j + 1) as nat,
                    |i: int|
                        RelocModel {
                            offset: plan.externals@[e as int].relocs@[i].offset,
                            sym: (plan.fn_syms@.len() + 2 + e) as nat,
                            addend: plan.externals@[e as int].relocs@[i].addend as int,
                            rel32: true,
                        },
                ));
            }
            j += 1;
        }
        proof {
            lemma_relocs_model_step(plan.externals@, e as int, (plan.fn_syms@.len() + 2) as nat);
            assert(obj_relocs(o) =~= relocs_model(
                plan.externals@.take(e + 1),
                plan.fn_syms@.len() + 2,
            ));
        }
        e += 1;
    }
    proof {
        assert(undefs.take(plan.externals@.len() as int) =~= undefs);
        assert(plan.externals@.take(plan.externals@.len() as int) =~= plan.externals@);
    }
    let ghost target = plan_syms_model(*plan, filename@);
    proof {
        assert(target.len() == syms_before_ext.len() + undefs.len());
        assert forall|i: int| 0 <= i < target.len() implies #[trigger] target[i] == (if 1 <= i < 1
            + plan.fn_syms@.len() {
            SymModel {
                name: plan.fn_syms@[i - 1].name@,
                value: plan.fn_syms@[i - 1].offset,
                size: 0,
                defined: true,
                is_file: false,
            }
        } else {
            (syms_before_ext + undefs)[i]
        }) by {}
    }
    let mut k2: usize = 0;
    while k2 < plan.fn_syms.len()
        invariant
            k2 <= plan.fn_syms@.len(),
            fn_sym_ids@.len() == plan.fn_syms@.len(),
            forall|i: int| 0 <= i < plan.fn_syms@.len() ==> sym_index(#[trigger] fn_sym_ids@[i])
                == i + 1,
            target == plan_syms_model(*plan, filename@),
            target.len() == plan.fn_syms@.len() + 2 + plan.externals@.len(),
            syms_before_ext.len() == plan.fn_syms@.len() + 2,
            fnsyms0 == Seq::new(
                plan.fn_syms@.len(),
                |i: int|
                    SymModel {
                        name: plan.fn_syms@[i].name@,
                        value: 0,
                        size: 0,
                        defined: true,
                        is_file: false,
                    },
            ),
            file_sym == (SymModel {
                name: filename@,
                value: 0,
                size: 0,
                defined: true,
                is_file: true,
            }),
            start_resolved == (SymModel {
                name: "_start"@,
                value: plan.entry_offset,
                size: 0,
                defined: true,
                is_file: false,
            }),
            syms_before_ext == seq![file_sym] + fnsyms0 + seq![start_resolved],
            forall|i: int| 0 <= i < target.len() ==> #[trigger] target[i] == (if 1 <= i < 1
                + plan.fn_syms@.len() {
                SymModel {
                    name: plan.fn_syms@[i - 1].name@,
                    value: plan.fn_syms@[i - 1].offset,
                    size: 0,
                    defined: true,
                    is_file: false,
                }
            } else {
                (syms_before_ext + undefs)[i]
            }),
            forall|i: int| 0 <= i < syms_before_ext.len() + undefs.len()
                ==> !(#[trigger] (syms_before_ext + undefs)[i]).is_file || i == 0,
            obj_symbols(o).len() == target.len(),
            forall|i: int|
                0 <= i < target.len() ==> #[trigger] obj_symbols(o)[i] == (if 1 <= i < 1 + k2 {
                    target[i]
                } else {
                    (syms_before_ext + undefs)[i]
                }),
            obj_relocs(o) == relocs_model(plan.externals@, plan.fn_syms@.len() + 2),
            obj_text(o) == plan.text@,
        decreases plan.fn_syms@.len() - k2,
    {
        proof {
            assert((syms_before_ext + undefs)[k2 + 1] == fnsyms0[k2 as int]);
            assert(obj_symbols(o)[k2 + 1].name == plan.fn_syms@[k2 as int].name@);
            assert(!obj_symbols(o)[k2 + 1].is_file);
        }
        obj_set_symbol_data(
            &mut o,
            fn_sym_ids[k2],
            text_section,
            plan.fn_syms[k2].offset,
            0,
        );
        proof {
            assert forall|i: int|
                0 <= i < target.len() implies #[trigger] obj_symbols(o)[i] == (if 1 <= i < 1 + (k2
                + 1) {
                target[i]
            } else {
                (syms_before_ext + undefs)[i]
            }) by {}
        }
        k2 += 1;
    }
    proof {
        assert(obj_symbols(o) =~= target);
    }
    Ok(o)
}

/// Unrolls [`relocs_model`] one external at a time.
proof fn lemma_relocs_model_step(exts: Seq<ExternalSym>, e: int, base: nat)
    requires
        0 <= e < exts.len(),
    ensures
        relocs_model(exts.take(e + 1), base) == relocs_model(exts.take(e), base) + Seq::new(
            exts[e].relocs@.len(),
            |i: int|
                RelocModel {
                    offset: exts[e].relocs@[i].offset,
                    sym: (base + e) as nat,
                    addend: exts[e].relocs@[i].addend as int,
                    rel32: true,
                },
        ),
    decreases e,
{
    if e == 0 {
        assert(exts.take(1).drop_first() =~= Seq::<ExternalSym>::empty());
        assert(exts.take(1)[0] == exts[0]);
        assert(relocs_model(exts.take(0), base) =~= Seq::<RelocModel>::empty());
        assert(relocs_model(Seq::<ExternalSym>::empty(), (base + 1) as nat)
            =~= Seq::<RelocModel>::empty());
        assert(relocs_model(exts.take(1), base) == Seq::new(
            exts.take(1)[0].relocs@.len(),
            |i: int|
                RelocModel {
                    offset: exts.take(1)[0].relocs@[i].offset,
                    sym: base,
                    addend: exts.take(1)[0].relocs@[i].addend as int,
                    rel32: true,
                },
        ) + relocs_model(exts.take(1).drop_first(), (base + 1) as nat));
        assert(relocs_model(exts.take(1), base) =~= Seq::new(
            exts[0].relocs@.len(),
            |i: int|
                RelocModel {
                    offset: exts[0].relocs@[i].offset,
                    sym: base,
                    addend: exts[0].relocs@[i].addend as int,
                    rel32: true,
                },
        ));
    } else {
        lemma_relocs_model_step(exts.drop_first(), e - 1, (base + 1) as nat);
        assert(exts.take(e + 1).drop_first() =~= exts.drop_first().take(e));
        assert(exts.take(e).drop_first() =~= exts.drop_first().take(e - 1));
        assert(relocs_model(exts.take(e + 1), base) == Seq::new(
            exts[0].relocs@.len(),
            |i: int|
                RelocModel {
                    offset: exts[0].relocs@[i].offset,
                    sym: base,
                    addend: exts[0].relocs@[i].addend as int,
                    rel32: true,
                },
        ) + relocs_model(exts.drop_first().take(e), base + 1));
        assert(relocs_model(exts.take(e + 1), base) =~= relocs_model(exts.take(e), base)
            + Seq::new(
            exts[e].relocs@.len(),
            |i: int|
                RelocModel {
                    offset: exts[e].relocs@[i].offset,
                    sym: (base + e) as nat,
                    addend: exts[e].relocs@[i].addend as int,
                    rel32: true,
                },
        ));
    }
}

} // verus!
