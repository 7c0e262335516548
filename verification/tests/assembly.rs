use assembler::error::AsmError;
use assembler::inst::{process_directive, process_instruction, Inst, InstLine, Offset};
use assembler::opcode::{Format, Opcode};
use assembler::operand::{
    parse_constant, parse_literal, process_op_ra_c2_rb, process_op_ra_rb_rc_c3, process_params,
    register_string_parse, Con, Params,
};
use assembler::prog::Prog;
use assembler::symbols::SymbolTable;
use assembler::text::{
    char_is_space, find, is_alphanumeric, parse_number, same_text, split_lines, split_once, trim,
};

fn word(text: &str, table: &SymbolTable, pc: usize) -> usize {
    process_instruction(text).unwrap().unwrap().encode_instruction(table, pc).unwrap()
}

#[test]
fn three_register_words_follow_the_layout() {
    let table = SymbolTable::new();
    for (name, code) in [("add", 12usize), ("sub", 14), ("and", 20), ("or", 22)] {
        for (ra, rb, rc) in [(0usize, 0usize, 0usize), (1, 2, 3), (31, 31, 31), (7, 0, 19)] {
            let text = format!("{} r{}, r{}, r{}", name, ra, rb, rc);
            let expected = (code << 27) + (ra << 22) + (rb << 17) + (rc << 12);
            assert_eq!(word(&text, &table, 64), expected);
        }
    }
}

#[test]
fn documented_words() {
    let table = SymbolTable::new();
    assert_eq!(word("ADD r1, r2, r3", &table, 0), 0x60443000);
    assert_eq!(word("ANDI r1,r1,1", &table, 0), 0xA8420001);
    assert_eq!(word("STOP", &table, 0), 0xF8000000);
    assert_eq!(word("ST r1,0(r30)", &table, 0), 0x187C0000);
    assert_eq!(word("BR r29", &table, 0), 0x403A0001);
    assert_eq!(word("BRNZ r31,r3", &table, 0), 0x403E3003);
    assert_eq!(word("brnv", &table, 0), 0x40000000);
    assert_eq!(word("nop", &table, 0), 0);
}

#[test]
fn mnemonics_are_looked_up_in_upper_case() {
    assert_eq!(Opcode::from_mnemonic("add"), Some(Opcode::ADD));
    assert_eq!(Opcode::from_mnemonic("Shra"), Some(Opcode::SHRA));
    assert_eq!(Opcode::from_mnemonic("STOP"), Some(Opcode::STOP));
    assert_eq!(Opcode::from_mnemonic("mov"), None);
    assert_eq!(Opcode::from_name("ADD"), Some(Opcode::ADD));
    assert_eq!(Opcode::from_name("add"), None);
    assert_eq!(Opcode::from_name(""), None);
}

#[test]
fn opcode_table() {
    assert_eq!(Opcode::NOP.to_num(), 0);
    assert_eq!(Opcode::LAR.to_num(), 6);
    assert_eq!(Opcode::BRMI.to_num(), 8);
    assert_eq!(Opcode::SHC.to_num(), 29);
    assert_eq!(Opcode::STOP.to_num(), 31);
    assert_eq!(Opcode::LD.operand_format(), Format::Displacement);
    assert_eq!(Opcode::ORI.operand_format(), Format::RegisterImmediate);
    assert_eq!(Opcode::NEG.operand_format(), Format::TwoRegister);
    assert_eq!(Opcode::BRNV.operand_format(), Format::Branch);
}

#[test]
fn register_tokens() {
    assert_eq!(register_string_parse(" r07 "), Ok(7));
    assert_eq!(register_string_parse("r31"), Ok(31));
    for bad in ["r32", "r-2", "rrr", "a23", "", "r 2", "r+5", "R1", "r", "r100"] {
        assert_eq!(register_string_parse(bad), Err(AsmError::BadRegister), "[{}]", bad);
    }
}

#[test]
fn constants_and_literals() {
    assert_eq!(parse_constant(" 42 "), Ok(Con::C(42)));
    assert_eq!(parse_constant("LABEL"), Ok(Con::S("LABEL")));
    assert_eq!(parse_constant("-1"), Ok(Con::C(usize::MAX)));
    assert_eq!(parse_constant("-0"), Ok(Con::C(0)));
    assert_eq!(parse_constant("-8"), Ok(Con::C(usize::MAX - 7)));
    assert_eq!(parse_constant(""), Err(AsmError::BadConstant));
    assert_eq!(parse_constant("a,b"), Err(AsmError::BadConstant));
    assert_eq!(parse_constant("+5"), Err(AsmError::BadConstant));
    assert_eq!(parse_constant("-x"), Err(AsmError::BadConstant));
    // A number too large for the machine word is no literal; made of digits,
    // it is a name.
    assert_eq!(
        parse_constant("99999999999999999999999999"),
        Ok(Con::S("99999999999999999999999999"))
    );
    assert_eq!(parse_literal("12"), Some(12));
    assert_eq!(parse_literal("x12"), None);
}

#[test]
fn negative_constants_wrap_to_the_field() {
    let table = SymbolTable::new();
    assert_eq!(word("addi r1, r2, -1", &table, 0), (13 << 27) + (1 << 22) + (2 << 17) + 0x1FFFF);
    assert_eq!(word("shl r1, r2, -1", &table, 0), (28 << 27) + (1 << 22) + (2 << 17) + 0xFFF);
    assert_eq!(word("addi r1, r2, 131073", &table, 0), (13 << 27) + (1 << 22) + (2 << 17) + 1);
}

#[test]
fn long_address_is_relative_to_the_next_instruction() {
    let mut table = SymbolTable::new();
    table.define("AHEAD", 100).unwrap();
    table.define("BACK", 0).unwrap();
    let base = (2usize << 27) + (1 << 22);
    // Forward: from 8 to 100.
    assert_eq!(word("ldr r1, AHEAD", &table, 8), base + 88);
    assert_eq!(word("ldr r1, 100", &table, 8), base + 88);
    // Backward: from 8 to 0.
    assert_eq!(word("ldr r1, BACK", &table, 8), base + (0x400000 - 12));
    // To the next instruction itself.
    assert_eq!(word("ldr r1, 12", &table, 8), base);
}

#[test]
fn undefined_symbol_is_an_error() {
    let table = SymbolTable::new();
    let inst = process_instruction("addi r1, r2, NOWHERE").unwrap().unwrap();
    assert_eq!(inst.encode_instruction(&table, 0), Err(AsmError::UndefinedSymbol));
    let program = Prog::new("file", "lar r1, NOWHERE").unwrap();
    assert_eq!(program.encode(), Err(AsmError::UndefinedSymbol));
}

#[test]
fn forward_reference_resolves() {
    let source = "addi r1,r2,LABEL\nadd r1,r2,r3\nLABEL: stop";
    let out = Prog::new("file", source).unwrap().encode().unwrap();
    assert_eq!(
        out,
        "00000000\n00000000\t68440008\n00000004\t60443000\n00000008\tf8000000\n"
    );
    let source = "LABEL: stop\nadd r1,r2,r3\naddi r1,r2,LABEL";
    let out = Prog::new("file", source).unwrap().encode().unwrap();
    assert_eq!(
        out,
        "00000000\n00000000\tf8000000\n00000004\t60443000\n00000008\t68440000\n"
    );
}

#[test]
fn duplicate_label_fails() {
    let result = Prog::new("file", "A: nop\nadd r1,r2,r3\nA: stop");
    assert_eq!(result.err(), Some(AsmError::DuplicateSymbol));
}

#[test]
fn org_sets_the_next_address() {
    let source = "nop\n.org 100\nadd r1,r2,r3\nadd r1,r2,r3\n";
    let out = Prog::new("file", source).unwrap().encode().unwrap();
    assert_eq!(
        out,
        "00000000\n00000000\t00000000\n00000064\t60443000\n00000068\t60443000\n"
    );
}

#[test]
fn dw_reserves_thirty_two_bytes_each() {
    let source = ".dw 2\nstop";
    let out = Prog::new("file", source).unwrap().encode().unwrap();
    assert_eq!(out, "00000000\n00000040\tf8000000\n");
}

#[test]
fn directives() {
    assert_eq!(process_directive(".org   12"), Ok(Offset::Absolute(12)));
    assert_eq!(process_directive(".dw 0"), Ok(Offset::Relative(0)));
    for bad in [".org", ".org x", ".word 4", ".dw -1", ".org 1 2"] {
        assert_eq!(process_directive(bad), Err(AsmError::BadDirective), "[{}]", bad);
    }
    let huge = format!(".dw {}", usize::MAX);
    assert_eq!(process_directive(&huge), Err(AsmError::BadDirective));
}

#[test]
fn address_overflow_is_an_error() {
    let source = format!(".org {}\nnop\nnop", usize::MAX);
    assert_eq!(Prog::new("file", &source).err(), Some(AsmError::AddressOverflow));
}

#[test]
fn assembling_twice_gives_the_same_text() {
    let source = "START: la r1, 4(r2)\n ; only a comment\nbrzr r1, r2\nlar r3, START\n";
    let first = Prog::new("one", source).unwrap().encode().unwrap();
    let second = Prog::new("two", source).unwrap().encode().unwrap();
    assert_eq!(first, second);
}

#[test]
fn lines_are_taken_apart() {
    let line = InstLine::new("  LOOP:  add r1, r2, r3   ; sum ").unwrap().unwrap();
    assert_eq!(line.raw(), "  LOOP:  add r1, r2, r3   ; sum ");
    assert_eq!(line.label(), Some("LOOP"));
    assert_eq!(line.comment(), Some("sum"));
    assert_eq!(line.offset(), Offset::Relative(4));
    assert_eq!(
        line.inst(),
        Some(Inst {
            opcode: Opcode::ADD,
            params: Params { ra: Some(1), rb: Some(2), rc: Some(3), c1: None, c2: None, c3: None },
        })
    );
    assert_eq!(line.encode_instruction(&SymbolTable::new(), 0), Ok(Some(0x60443000)));

    let empty = InstLine::new("   ").unwrap().unwrap();
    assert_eq!(empty.label(), None);
    assert_eq!(empty.inst(), None);
    assert_eq!(empty.offset(), Offset::Relative(0));
    assert_eq!(empty.encode_instruction(&SymbolTable::new(), 0), Ok(None));

    let only_label = InstLine::new("HERE:").unwrap().unwrap();
    assert_eq!(only_label.label(), Some("HERE"));
    assert_eq!(only_label.offset(), Offset::Relative(0));

    let directive = InstLine::new("DATA: .org 64 ; table").unwrap().unwrap();
    assert_eq!(directive.label(), Some("DATA"));
    assert_eq!(directive.offset(), Offset::Absolute(64));
    assert_eq!(directive.inst(), None);
}

#[test]
fn each_error_has_an_input() {
    assert_eq!(InstLine::new("mov r1, r2").err(), Some(AsmError::UnknownOpcode));
    assert_eq!(InstLine::new("add r1, r2").err(), Some(AsmError::OperandCount));
    assert_eq!(InstLine::new("stop r1").err(), Some(AsmError::OperandCount));
    assert_eq!(InstLine::new("add r1, r2, r32").err(), Some(AsmError::BadRegister));
    assert_eq!(InstLine::new("addi r1, r2, a!b").err(), Some(AsmError::BadConstant));
    assert_eq!(InstLine::new(".org").err(), Some(AsmError::BadDirective));
    assert_eq!(process_params("r1", &Opcode::BRNV), Err(AsmError::OperandCount));
    assert_eq!(
        assembler::operand::process_branch("r1", &Opcode::ADD),
        Err(AsmError::WrongFormat)
    );
    assert_eq!(AsmError::UndefinedSymbol.message(), "undefined symbol");
    assert_eq!(AsmError::DuplicateSymbol.message(), "encountered duplicate symbol");
}

#[test]
fn displacement_syntax() {
    assert_eq!(
        process_op_ra_c2_rb("r1, TABLE(r4)"),
        Ok(Params { ra: Some(1), rb: Some(4), rc: None, c1: None, c2: Some(Con::S("TABLE")), c3: None })
    );
    // A `)` before the `(` is no displacement: the whole field is the constant.
    assert_eq!(process_op_ra_c2_rb("r1, 5)(r2"), Err(AsmError::BadConstant));
    assert_eq!(process_op_ra_c2_rb("r1, 5(r40)"), Err(AsmError::BadRegister));
}

#[test]
fn shift_takes_a_register_or_a_literal() {
    assert_eq!(
        process_op_ra_rb_rc_c3("r1, r2, r9"),
        Ok(Params { ra: Some(1), rb: Some(2), rc: Some(9), c1: None, c2: None, c3: Some(Con::C(0)) })
    );
    assert_eq!(process_op_ra_rb_rc_c3("r1, r2, COUNT"), Err(AsmError::BadConstant));
}

#[test]
fn text_primitives() {
    assert_eq!(trim("  a b \t\r\n"), "a b");
    assert_eq!(trim("\u{3000}x\u{a0}"), "x");
    assert_eq!(trim("   "), "");
    assert_eq!(find("héllo, world", ','), Some(5));
    assert_eq!(find("abc", 'z'), None);
    assert_eq!(split_once("a,b,c", ','), Some(("a", "b,c")));
    assert_eq!(split_once("abc", ','), None);
    assert_eq!(parse_number("0042"), Some(42));
    assert_eq!(parse_number(""), None);
    assert_eq!(parse_number("4 2"), None);
    assert_eq!(parse_number(&usize::MAX.to_string()), Some(usize::MAX));
    assert_eq!(parse_number(&format!("{}0", usize::MAX)), None);
    assert!(is_alphanumeric("abc123"));
    assert!(!is_alphanumeric("abc-123"));
    assert!(same_text("abc", "abc"));
    assert!(!same_text("abc", "abcd"));
    assert!(!same_text("abd", "abc"));
}

#[test]
fn lines_of_a_text() {
    assert_eq!(split_lines(""), Vec::<&str>::new());
    assert_eq!(split_lines("a"), vec!["a"]);
    assert_eq!(split_lines("a\n"), vec!["a"]);
    assert_eq!(split_lines("a\r\nb\n\nc"), vec!["a", "b", "", "c"]);
    assert_eq!(split_lines("a\r"), vec!["a\r"]);
    assert_eq!(split_lines("\n"), vec![""]);
    let text = "one\r\ntwo\nthree\r";
    assert_eq!(split_lines(text), text.lines().collect::<Vec<&str>>());
}

#[test]
fn symbol_table() {
    let mut table = SymbolTable::new();
    assert_eq!(table.define("A", 4), Ok(()));
    assert_eq!(table.define("A", 8), Err(AsmError::DuplicateSymbol));
    assert_eq!(table.get("A"), Some(4));
    assert_eq!(table.get("B"), None);
}

#[test]
fn white_space_is_what_the_standard_library_calls_white_space() {
    for code in 0..=0x10FFFFu32 {
        if let Some(c) = char::from_u32(code) {
            assert_eq!(char_is_space(c), c.is_whitespace(), "U+{:04X}", code);
        }
    }
}

#[test]
fn trimming_agrees_with_the_standard_library() {
    for text in ["", " ", "a", " a", "a ", "\t a b \r\n", "\u{2003}x y\u{85}", " \u{200b} "] {
        assert_eq!(trim(text), text.trim(), "[{:?}]", text);
    }
}
