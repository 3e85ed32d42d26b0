use object::{Object as _, ObjectSection as _, ObjectSymbol as _};
use tapec::compiler::{CallingConvention, Compiler, CompilerErrorKind, CompilerSettings};
use tapec::ir::{IrNode, IrOp, Span};

fn node(op: IrOp) -> IrNode {
    IrNode { node: op, span: Span { offset: 0, length: 1 } }
}

fn sysv() -> Compiler {
    Compiler::new(
        64,
        CompilerSettings { base_address: 0 },
        CallingConvention::X86_64SystemVAmd64,
    )
}

#[test]
fn add_three_hundred_emits_two_chunked_adds() {
    let mut c = sysv();
    let bytes = c.compile_to_bytecode(vec![node(IrOp::Add(300))]).unwrap();
    // add byte ptr [r8], 255 ; add byte ptr [r8], 45
    assert_eq!(bytes, vec![0x41, 0x80, 0x00, 0xFF, 0x41, 0x80, 0x00, 0x2D]);
}

#[test]
fn add_small_emits_one_add() {
    let mut c = sysv();
    let bytes = c.compile_to_bytecode(vec![node(IrOp::Add(7))]).unwrap();
    assert_eq!(bytes, vec![0x41, 0x80, 0x00, 0x07]);
}

#[test]
fn subtract_takes_low_eight_bits() {
    let mut c = sysv();
    let bytes = c.compile_to_bytecode(vec![node(IrOp::Subtract(300))]).unwrap();
    // sub byte ptr [r8], 44
    assert_eq!(bytes, vec![0x41, 0x80, 0x28, 0x2C]);
}

#[test]
fn move_right_then_left_compiles() {
    let mut c = sysv();
    let bytes = c
        .compile_to_bytecode(vec![node(IrOp::MoveRight(5)), node(IrOp::MoveLeft(5))])
        .unwrap();
    assert!(!bytes.is_empty());
}

#[test]
fn move_too_large_is_rejected() {
    let mut c = sysv();
    let r = c.compile_to_bytecode(vec![node(IrOp::MoveRight(0x8000_0000))]);
    match r {
        Err(e) => assert!(matches!(e.kind, CompilerErrorKind::MoveTooLarge(0x8000_0000))),
        Ok(_) => panic!("an oversized displacement must be rejected"),
    }
}

#[test]
fn move_left_too_large_is_rejected() {
    let mut c = sysv();
    let r = c.compile_to_bytecode(vec![node(IrOp::MoveLeft(0xFFFF_FFFF_FFFF))]);
    assert!(matches!(r, Err(e) if matches!(e.kind, CompilerErrorKind::MoveTooLarge(_))));
}

#[test]
fn stack_push_pop_compiles() {
    let mut c = sysv();
    let bytes = c
        .compile_to_bytecode(vec![node(IrOp::StackPush), node(IrOp::StackPop)])
        .unwrap();
    assert!(!bytes.is_empty());
}

#[test]
fn condition_emits_test_and_loop() {
    let mut c = sysv();
    let bytes = c
        .compile_to_bytecode(vec![node(IrOp::Condition(vec![node(IrOp::Add(1))]))])
        .unwrap();
    // cmp byte ptr [r8], 0
    assert_eq!(&bytes[0..4], &[0x41, 0x80, 0x38, 0x00]);
    // je (short) over the body
    assert_eq!(bytes[4], 0x74);
    // the loop closes with a backward jmp to the comparison
    let jmp_at = bytes.len() - 2;
    assert_eq!(bytes[jmp_at], 0xEB);
    let disp = bytes[jmp_at + 1] as i8 as i64;
    let target = (jmp_at as i64) + 2 + disp;
    assert_eq!(target, 0);
}

#[test]
fn recursive_self_call_translates() {
    let mut c = sysv();
    let r = c.compile_to_bytecode(vec![node(IrOp::Function(
        "f".to_string(),
        vec![node(IrOp::FunctionCall("f".to_string()))],
    ))]);
    assert!(r.is_ok());
}

#[test]
fn call_to_later_sibling_is_not_found() {
    let mut c = sysv();
    let r = c.compile_to_bytecode(vec![
        node(IrOp::FunctionCall("g".to_string())),
        node(IrOp::Function("g".to_string(), vec![])),
    ]);
    match r {
        Err(e) => match e.kind {
            CompilerErrorKind::FunctionNotFound(name) => assert_eq!(name, "g"),
            _ => panic!("expected the function-not-found condition"),
        },
        Ok(_) => panic!("a call to a not-yet-registered function must fail"),
    }
}

#[test]
fn unsupported_operation_is_rejected() {
    let mut c = sysv();
    let r = c.compile_to_bytecode(vec![node(IrOp::Input)]);
    assert!(matches!(r, Err(e) if matches!(e.kind, CompilerErrorKind::UnsupportedOperation)));
}

#[test]
fn unsupported_convention_is_rejected() {
    let mut c = Compiler::new(
        64,
        CompilerSettings { base_address: 0 },
        CallingConvention::X86Cdecl,
    );
    let r = c.compile_to_bytecode(vec![node(IrOp::ExternalFunctionCall(
        "host_fn".to_string(),
    ))]);
    assert!(
        matches!(r, Err(e) if matches!(e.kind, CompilerErrorKind::UnsupportedCallingConvention))
    );
}

#[test]
fn external_call_yields_one_undefined_symbol_and_relocation() {
    let mut c = sysv();
    let plan = c
        .compile_to_object_plan(vec![node(IrOp::ExternalFunctionCall(
            "host_fn".to_string(),
        ))])
        .unwrap();
    assert_eq!(plan.externals.len(), 1);
    assert_eq!(plan.externals[0].name, "host_fn");
    assert_eq!(plan.externals[0].sites.len(), 1);
    assert_eq!(plan.externals[0].relocs.len(), 1);
    let site = plan.externals[0].sites[0];
    let reloc = &plan.externals[0].relocs[0];
    assert_eq!(reloc.offset, site + 1);
    assert_eq!(reloc.addend, -4);
    // the call target operand is neutralized to zero
    for i in 1..5 {
        assert_eq!(plan.text[(site + i) as usize], 0);
    }
    // the call opcode itself stands at the site
    assert_eq!(plan.text[site as usize], 0xE8);
}

#[test]
fn two_external_calls_to_one_name_share_the_symbol() {
    let mut c = sysv();
    let plan = c
        .compile_to_object_plan(vec![
            node(IrOp::ExternalFunctionCall("host_fn".to_string())),
            node(IrOp::ExternalFunctionCall("host_fn".to_string())),
        ])
        .unwrap();
    assert_eq!(plan.externals.len(), 1);
    assert_eq!(plan.externals[0].sites.len(), 2);
    assert_eq!(plan.externals[0].relocs.len(), 2);
}

#[test]
fn object_exports_function_and_entry_calls_it() {
    let mut c = sysv();
    let plan = c
        .compile_to_object_plan(vec![
            node(IrOp::Function("inc".to_string(), vec![node(IrOp::Add(1))])),
            node(IrOp::FunctionCall("inc".to_string())),
        ])
        .unwrap();
    assert_eq!(plan.fn_syms.len(), 1);
    assert_eq!(plan.fn_syms[0].name, "inc");
    let inc_off = plan.fn_syms[0].offset;
    let entry = plan.entry_offset as usize;
    // the entry's first instruction is a direct near call to inc's offset
    assert_eq!(plan.text[entry], 0xE8);
    let disp = i32::from_le_bytes([
        plan.text[entry + 1],
        plan.text[entry + 2],
        plan.text[entry + 3],
        plan.text[entry + 4],
    ]) as i64;
    let target = (entry as i64) + 5 + disp;
    assert_eq!(target, inc_off as i64);
}

#[test]
fn object_file_is_produced() {
    let mut c = sysv();
    let r = c.compile_to_object_file(
        vec![
            node(IrOp::Function("inc".to_string(), vec![node(IrOp::Add(1))])),
            node(IrOp::ExternalFunctionCall("host_fn".to_string())),
        ],
        "prog.tape",
    );
    assert!(r.is_ok());
}

#[test]
fn microsoft_convention_marshals_into_rcx_rdx() {
    let mut c = Compiler::new(
        64,
        CompilerSettings { base_address: 0 },
        CallingConvention::X86_64MicrosoftX64,
    );
    let r = c.compile_to_bytecode(vec![node(IrOp::ExternalFunctionCall(
        "host_fn".to_string(),
    ))]);
    assert!(r.is_ok());
}

#[test]
fn straight_line_bytecode_is_position_independent() {
    let mut low = Compiler::new(
        64,
        CompilerSettings { base_address: 0 },
        CallingConvention::X86_64SystemVAmd64,
    );
    let mut high = Compiler::new(
        64,
        CompilerSettings { base_address: 0x40_0000 },
        CallingConvention::X86_64SystemVAmd64,
    );
    let prog = || vec![node(IrOp::Add(1))];
    let a = low.compile_to_bytecode(prog()).unwrap();
    let b = high.compile_to_bytecode(prog()).unwrap();
    // position-independent code is identical wherever it is based
    assert_eq!(a, b);
}

#[test]
fn nested_conditions_compile() {
    let mut c = sysv();
    let r = c.compile_to_bytecode(vec![node(IrOp::Condition(vec![
        node(IrOp::Subtract(1)),
        node(IrOp::Condition(vec![node(IrOp::MoveRight(1))])),
    ]))]);
    assert!(r.is_ok());
}

#[test]
fn nested_function_is_not_exported() {
    let mut c = sysv();
    let plan = c
        .compile_to_object_plan(vec![node(IrOp::Function(
            "outer".to_string(),
            vec![
                node(IrOp::Function("inner".to_string(), vec![])),
                node(IrOp::FunctionCall("inner".to_string())),
            ],
        ))])
        .unwrap();
    assert_eq!(plan.fn_syms.len(), 1);
    assert_eq!(plan.fn_syms[0].name, "outer");
    assert!(plan.externals.is_empty());
}

#[test]
fn emitted_object_parses_back_with_symbols_and_relocation() {
    let mut c = sysv();
    let obj = c
        .compile_to_object_file(
            vec![
                node(IrOp::Function("inc".to_string(), vec![node(IrOp::Add(1))])),
                node(IrOp::ExternalFunctionCall("host_fn".to_string())),
            ],
            "prog.tape",
        )
        .unwrap();
    let bytes = obj.write().unwrap();
    let parsed = object::File::parse(&*bytes).unwrap();
    let mut saw_host_fn = false;
    let mut saw_inc = false;
    let mut saw_start = false;
    for sym in parsed.symbols() {
        match sym.name().unwrap() {
            "host_fn" => {
                saw_host_fn = true;
                assert!(sym.is_undefined());
            },
            "inc" => saw_inc = true,
            "_start" => saw_start = true,
            _ => {},
        }
    }
    assert!(saw_host_fn && saw_inc && saw_start);
    let text = parsed
        .sections()
        .find(|s| s.name().unwrap() == ".text")
        .unwrap();
    let relocs: Vec<_> = text.relocations().collect();
    assert_eq!(relocs.len(), 1);
    assert_eq!(relocs[0].1.addend(), -4);
}
