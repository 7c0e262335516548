use vstd::prelude::*;
use crate::error::AsmError;
use crate::opcode::{Format, Opcode};
use crate::operand::{operands_of, process_params, Con, ConView, Params, ParamsView};
use crate::symbols::SymbolTable;
use crate::text::{
    contains, index_of, number_of, parse_number, same_text, split_first, split_once, trim,
    trimmed, uppercase,
};

verus! {

/// One instruction: an opcode and its operands.
#[derive(Debug, Clone, Copy, PartialEq, Eq)]
pub struct Inst<'a> {
    pub opcode: Opcode,
    pub params: Params<'a>,
}

/// What an `Inst` holds.
pub struct InstView {
    pub opcode: Opcode,
    pub params: ParamsView,
}

impl<'a> View for Inst<'a> {
    type V = InstView;

    open spec fn view(&self) -> InstView {
        InstView { opcode: self.opcode, params: self.params@ }
    }
}

impl InstView {
    /// The operands fit the layout of an instruction word.
    pub open spec fn wf(self) -> bool {
        self.params.wf()
    }
}

/// What an optional `Inst` holds.
pub open spec fn inst_view(inst: Option<Inst>) -> Option<InstView> {
    match inst {
        Some(i) => Some(i@),
        None => None,
    }
}

/// The number of values of a `c1` field, which is 22 bits wide.
pub const C1_RANGE: usize = 0x40_0000;

/// The number of values of a `c2` field, which is 17 bits wide.
pub const C2_RANGE: usize = 0x2_0000;

/// The number of values of a `c3` field, which is 12 bits wide.
pub const C3_RANGE: usize = 0x1000;

/// The value that the constant `c` stands for: its literal, or the address
/// that `symbols` gives its name.
pub open spec fn resolved(c: ConView, symbols: Map<Seq<char>, usize>) -> Result<
    usize,
    AsmError,
> {
    match c {
        ConView::C(x) => Ok(x),
        ConView::S(name) => if symbols.contains_key(name) {
            Ok(symbols[name])
        } else {
            Err(AsmError::UndefinedSymbol)
        },
    }
}

/// Whether the constant `c`, if it is there and names a symbol, names one of
/// `symbols`.
pub open spec fn names_bound(c: Option<ConView>, symbols: Map<Seq<char>, usize>) -> bool {
    c matches Some(ConView::S(name)) ==> symbols.contains_key(name)
}

/// The `c1` field for the target `value` in the instruction at `pc`: the
/// distance from the address after the instruction, as a 22-bit number in
/// two's complement.
pub open spec fn long_field(value: usize, pc: usize) -> int {
    (value + C1_RANGE - 4 - pc) % (C1_RANGE as int)
}

/// The contents of the `c1` field: zero without a constant, else its value
/// relative to the program counter.
pub open spec fn field_c1(c: Option<ConView>, symbols: Map<Seq<char>, usize>, pc: usize) -> Result<
    int,
    AsmError,
> {
    match c {
        None => Ok(0),
        Some(c) => match resolved(c, symbols) {
            Ok(value) => Ok(long_field(value, pc)),
            Err(e) => Err(e),
        },
    }
}

/// The contents of a field that holds an absolute constant: zero without a
/// constant, else its value reduced to the `range` of the field.
pub open spec fn field_absolute(
    c: Option<ConView>,
    symbols: Map<Seq<char>, usize>,
    range: usize,
) -> Result<int, AsmError> {
    match c {
        None => Ok(0),
        Some(c) => match resolved(c, symbols) {
            Ok(value) => Ok(value as int % range as int),
            Err(e) => Err(e),
        },
    }
}

/// The contents of a register field: zero without a register.
pub open spec fn field_register(r: Option<usize>) -> int {
    match r {
        Some(x) => x as int,
        None => 0,
    }
}

/// The word that encodes `inst` at the address `pc`. From the top: five bits
/// of opcode, five bits each of `ra`, `rb` and `rc`, then twelve bits; `c1`
/// takes the low 22 bits, `c2` the low 17, `c3` the low 12. The word is the
/// sum of the fields, each at its place. A symbol that `symbols` lacks is an
/// error.
pub open spec fn word_of(inst: InstView, symbols: Map<Seq<char>, usize>, pc: usize) -> Result<
    int,
    AsmError,
> {
    match field_c1(inst.params.c1, symbols, pc) {
        Err(e) => Err(e),
        Ok(c1) => match field_absolute(inst.params.c2, symbols, C2_RANGE) {
            Err(e) => Err(e),
            Ok(c2) => match field_absolute(inst.params.c3, symbols, C3_RANGE) {
                Err(e) => Err(e),
                Ok(c3) => Ok(
                    inst.opcode.code() * 0x800_0000 + field_register(inst.params.ra) * 0x40_0000
                        + field_register(inst.params.rb) * 0x2_0000 + field_register(
                        inst.params.rc,
                    ) * 0x1000 + c1 + c2 + c3,
                ),
            },
        },
    }
}

/// The outcome `r` with its word, if it has one, as a number.
pub open spec fn word_view(r: Result<usize, AsmError>) -> Result<int, AsmError> {
    match r {
        Ok(w) => Ok(w as int),
        Err(e) => Err(e),
    }
}

/// A well-formed instruction encodes to a word of 32 bits.
pub proof fn lemma_word_fits(inst: InstView, symbols: Map<Seq<char>, usize>, pc: usize)
    requires
        inst.wf(),
    ensures
        word_of(inst, symbols, pc) matches Ok(w) ==> 0 <= w < 0x1_0000_0000,
{
}

/// Law: an instruction of three registers `ra`, `rb` and `rc`, each below 32,
/// encodes to `(code << 27) + (ra << 22) + (rb << 17) + (rc << 12)`, at every
/// address and with every table of symbols.
pub proof fn lemma_three_register_word(
    opcode: Opcode,
    ra: usize,
    rb: usize,
    rc: usize,
    symbols: Map<Seq<char>, usize>,
    pc: usize,
)
    requires
        opcode.format() == Format::ThreeRegister,
        ra < 32,
        rb < 32,
        rc < 32,
    ensures
        word_of(
            InstView {
                opcode,
                params: ParamsView {
                    ra: Some(ra),
                    rb: Some(rb),
                    rc: Some(rc),
                    ..ParamsView::none()
                },
            },
            symbols,
            pc,
        ) == Ok::<int, AsmError>(
            (opcode.code() << 27) + (ra << 22) + (rb << 17) + (rc << 12),
        ),
{
    let code = opcode.code();
    assert(code << 27 == code * 0x800_0000) by (bit_vector)
        requires
            code < 32,
    ;
    assert(ra << 22 == ra * 0x40_0000) by (bit_vector)
        requires
            ra < 32,
    ;
    assert(rb << 17 == rb * 0x2_0000) by (bit_vector)
        requires
            rb < 32,
    ;
    assert(rc << 12 == rc * 0x1000) by (bit_vector)
        requires
            rc < 32,
    ;
}

/// Law: where a well-formed instruction has a `c1` constant that stands for
/// the target address `target`, the low 22 bits of its word at the address
/// `pc` are `(target + 2^22 - 4 - pc) mod 2^22`, whether the target lies
/// after the instruction or before it.
pub proof fn lemma_long_address_field(
    inst: InstView,
    symbols: Map<Seq<char>, usize>,
    pc: usize,
    target: usize,
)
    requires
        inst.wf(),
        inst.params.c1 matches Some(c) && resolved(c, symbols) == Ok::<usize, AsmError>(target),
    ensures
        word_of(inst, symbols, pc) matches Ok(w) && w % 0x40_0000 == (target + 0x40_0000 - 4
            - pc) % 0x40_0000,
{
}

/// Law: a word is emitted for an instruction exactly where each symbol that
/// its constants name is in the table; else the error is that of an undefined
/// symbol.
pub proof fn lemma_word_needs_symbols(inst: InstView, symbols: Map<Seq<char>, usize>, pc: usize)
    ensures
        word_of(inst, symbols, pc) is Ok <==> names_bound(inst.params.c1, symbols) && names_bound(
            inst.params.c2,
            symbols,
        ) && names_bound(inst.params.c3, symbols),
        word_of(inst, symbols, pc) matches Err(e) ==> e == AsmError::UndefinedSymbol,
{
}

/// Looks up what the constant `c` stands for.
fn resolve(c: &Con, symbols: &SymbolTable) -> (r: Result<usize, AsmError>)
    ensures
        r == resolved(c@, symbols@),
{
    match c {
        Con::C(x) => Ok(*x),
        Con::S(name) => match symbols.get(name) {
            Some(address) => Ok(address),
            None => Err(AsmError::UndefinedSymbol),
        },
    }
}

/// Places a register number or an opcode at the bit `shift` of the word.
fn place(x: usize, shift: u32) -> (r: usize)
    requires
        x < 32,
        shift == 27 || shift == 22 || shift == 17 || shift == 12,
    ensures
        shift == 27 ==> r == x * 0x800_0000,
        shift == 22 ==> r == x * 0x40_0000,
        shift == 17 ==> r == x * 0x2_0000,
        shift == 12 ==> r == x * 0x1000,
{
    assert(x << 27 == x * 0x800_0000) by (bit_vector)
        requires
            x < 32,
    ;
    assert(x << 22 == x * 0x40_0000) by (bit_vector)
        requires
            x < 32,
    ;
    assert(x << 17 == x * 0x2_0000) by (bit_vector)
        requires
            x < 32,
    ;
    assert(x << 12 == x * 0x1000) by (bit_vector)
        requires
            x < 32,
    ;
    x << shift
}

impl<'a> Inst<'a> {
    /// Encodes the instruction as the word that stands at the address `pc`.
    pub fn encode_instruction(&self, symbol_map: &SymbolTable, pc: usize) -> (r: Result<
        usize,
        AsmError,
    >)
        requires
            self@.wf(),
        ensures
            word_view(r) == word_of(self@, symbol_map@, pc),
            r matches Ok(w) ==> w < 0x1_0000_0000,
    {
        let op = self.opcode.to_num();
        let ra = match self.params.ra {
            Some(x) => x,
            None => 0,
        };
        let rb = match self.params.rb {
            Some(x) => x,
            None => 0,
        };
        let rc = match self.params.rc {
            Some(x) => x,
            None => 0,
        };
        let c1 = match &self.params.c1 {
            Some(c) => {
                let value = resolve(c, symbol_map)?;
                assert((value % C1_RANGE + 2 * C1_RANGE - 4 - pc % C1_RANGE) % (C1_RANGE as int)
                    == long_field(value, pc));
                (value % C1_RANGE + 2 * C1_RANGE - 4 - pc % C1_RANGE) % C1_RANGE
            },
            None => 0,
        };
        let c2 = match &self.params.c2 {
            Some(c) => resolve(c, symbol_map)? % C2_RANGE,
            None => 0,
        };
        let c3 = match &self.params.c3 {
            Some(c) => resolve(c, symbol_map)? % C3_RANGE,
            None => 0,
        };
        let op = place(op, 27);
        let ra = place(ra, 22);
        let rb = place(rb, 17);
        let rc = place(rc, 12);
        Ok(op + ra + rb + rc + c1 + c2 + c3)
    }
}

/// The instruction that `text` writes: none where `text` is empty; else a
/// mnemonic, which ends at the first space, and after that space the
/// operands. The mnemonic is looked up in upper case.
pub open spec fn instruction_of(text: Seq<char>) -> Result<Option<InstView>, AsmError> {
    if text.len() == 0 {
        Ok(None)
    } else {
        let (mnemonic, operands) = match split_first(text, ' ') {
            Some(parts) => parts,
            None => (text, Seq::empty()),
        };
        match Opcode::named(uppercase(mnemonic)) {
            None => Err(AsmError::UnknownOpcode),
            Some(opcode) => match operands_of(opcode, operands) {
                Err(e) => Err(e),
                Ok(params) => Ok(Some(InstView { opcode, params })),
            },
        }
    }
}

/// Reads an instruction, if `inst` holds one.
pub fn process_instruction<'a>(inst: &'a str) -> (r: Result<Option<Inst<'a>>, AsmError>)
    ensures
        match r {
            Ok(i) => instruction_of(inst@) == Ok::<Option<InstView>, AsmError>(inst_view(i)),
            Err(e) => instruction_of(inst@) == Err::<Option<InstView>, AsmError>(e),
        },
        r matches Ok(Some(i)) ==> i@.wf(),
{
    if inst.unicode_len() == 0 {
        return Ok(None);
    }
    let (mnemonic, operands) = match split_once(inst, ' ') {
        Some(parts) => parts,
        None => {
            proof {
                reveal_strlit("");
                assert(""@ =~= Seq::<char>::empty());
            }
            (inst, "")
        },
    };
    let opcode = match Opcode::from_mnemonic(mnemonic) {
        Some(opcode) => opcode,
        None => {
            return Err(AsmError::UnknownOpcode);
        },
    };
    let params = process_params(operands, &opcode)?;
    Ok(Some(Inst { opcode, params }))
}

/// How a line moves the location counter.
#[derive(Debug, Clone, Copy, PartialEq, Eq, Structural)]
pub enum Offset {
    /// The counter advances by this many bytes.
    Relative(usize),
    /// The counter is set to this address.
    Absolute(usize),
}

/// The number of bytes that one instruction takes.
pub const WORD_BYTES: usize = 4;

/// The number of bytes that `.dw` reserves for each unit of its count.
pub const DW_UNIT: usize = 32;

/// What the directive `text` does to the location counter. The keyword ends
/// at the first space; the value after it is a decimal number. `.org` sets
/// the counter to the value, `.dw` advances it by `DW_UNIT` times the value.
pub open spec fn directive_of(text: Seq<char>) -> Result<Offset, AsmError> {
    match split_first(text, ' ') {
        None => Err(AsmError::BadDirective),
        Some((keyword, value)) => match number_of(trimmed(value)) {
            None => Err(AsmError::BadDirective),
            Some(n) => if trimmed(keyword) == ".org"@ {
                Ok(Offset::Absolute(n))
            } else if trimmed(keyword) == ".dw"@ && DW_UNIT * n <= usize::MAX {
                Ok(Offset::Relative((DW_UNIT * n) as usize))
            } else {
                Err(AsmError::BadDirective)
            },
        },
    }
}

/// Reads a directive.
pub fn process_directive(line: &str) -> (r: Result<Offset, AsmError>)
    ensures
        r == directive_of(line@),
{
    let (keyword, value) = match split_once(line, ' ') {
        Some(parts) => parts,
        None => {
            return Err(AsmError::BadDirective);
        },
    };
    let keyword = trim(keyword);
    let n = match parse_number(trim(value)) {
        Some(n) => n,
        None => {
            return Err(AsmError::BadDirective);
        },
    };
    if same_text(keyword, ".org") {
        Ok(Offset::Absolute(n))
    } else if same_text(keyword, ".dw") {
        match DW_UNIT.checked_mul(n) {
            Some(bytes) => Ok(Offset::Relative(bytes)),
            None => Err(AsmError::BadDirective),
        }
    } else {
        Err(AsmError::BadDirective)
    }
}

/// What an optional string holds.
pub open spec fn text_view(s: Option<&str>) -> Option<Seq<char>> {
    match s {
        Some(s) => Some(s@),
        None => None,
    }
}

/// One line of source text, taken apart.
#[derive(Debug, Clone, Copy, PartialEq, Eq)]
pub struct InstLine<'a> {
    raw: &'a str,
    label: Option<&'a str>,
    inst: Option<Inst<'a>>,
    offset: Offset,
    comment: Option<&'a str>,
}

/// What an `InstLine` holds.
pub struct LineView {
    /// The line as it was written.
    pub raw: Seq<char>,
    /// The name before the first `:`.
    pub label: Option<Seq<char>>,
    /// The instruction, where the line has one.
    pub inst: Option<InstView>,
    /// How the line moves the location counter.
    pub offset: Offset,
    /// The text after the first `;`.
    pub comment: Option<Seq<char>>,
}

impl LineView {
    /// A line with an instruction holds a well-formed one and advances the
    /// location counter by one word.
    pub open spec fn wf(self) -> bool {
        self.inst matches Some(i) ==> i.wf() && self.offset == Offset::Relative(WORD_BYTES)
    }
}

/// The parts of `raw`. The comment is what follows the first `;`; in what
/// stands before it, the label is what precedes the first `:`; the rest is
/// the body. Each part is trimmed. A body with a `.` in it is a directive,
/// any other body an instruction or nothing; an instruction advances the
/// location counter by one word, nothing by zero bytes.
pub open spec fn line_of(raw: Seq<char>) -> Result<LineView, AsmError> {
    let line = trimmed(raw);
    let (code, comment) = match split_first(line, ';') {
        Some((code, comment)) => (trimmed(code), Some(trimmed(comment))),
        None => (trimmed(line), None),
    };
    let (body, label) = match split_first(code, ':') {
        Some((label, body)) => (trimmed(body), Some(trimmed(label))),
        None => (trimmed(code), None),
    };
    if index_of(body, '.').is_some() {
        match directive_of(body) {
            Err(e) => Err(e),
            Ok(offset) => Ok(LineView { raw, label, inst: None, offset, comment }),
        }
    } else {
        match instruction_of(body) {
            Err(e) => Err(e),
            Ok(Some(inst)) => Ok(
                LineView {
                    raw,
                    label,
                    inst: Some(inst),
                    offset: Offset::Relative(WORD_BYTES),
                    comment,
                },
            ),
            Ok(None) => Ok(
                LineView { raw, label, inst: None, offset: Offset::Relative(0), comment },
            ),
        }
    }
}

/// The word of a line at the address `pc`: that of its instruction, or none.
pub open spec fn line_word(line: LineView, symbols: Map<Seq<char>, usize>, pc: usize) -> Result<
    Option<int>,
    AsmError,
> {
    match line.inst {
        None => Ok(None),
        Some(inst) => match word_of(inst, symbols, pc) {
            Ok(w) => Ok(Some(w)),
            Err(e) => Err(e),
        },
    }
}

impl<'a> View for InstLine<'a> {
    type V = LineView;

    closed spec fn view(&self) -> LineView {
        LineView {
            raw: self.raw@,
            label: text_view(self.label),
            inst: inst_view(self.inst),
            offset: self.offset,
            comment: text_view(self.comment),
        }
    }
}

impl<'a> InstLine<'a> {
    #[verifier::type_invariant]
    spec fn well_formed(self) -> bool {
        self@.wf()
    }

    /// Takes one line of source text apart. It never answers `Ok(None)`.
    pub fn new(inst: &'a str) -> (r: Result<Option<InstLine<'a>>, AsmError>)
        ensures
            match r {
                Ok(Some(line)) => line_of(inst@) == Ok::<LineView, AsmError>(line@),
                Ok(None) => false,
                Err(e) => line_of(inst@) == Err::<LineView, AsmError>(e),
            },
    {
        let raw = inst;
        let line = trim(raw);
        let (line, comment) = match split_once(line, ';') {
            Some((code, comment)) => (trim(code), Some(trim(comment))),
            None => (trim(line), None),
        };
        let (line, label) = match split_once(line, ':') {
            Some((label, body)) => (trim(body), Some(trim(label))),
            None => (trim(line), None),
        };
        let (inst, offset) = if contains(line, '.') {
            (None, process_directive(line)?)
        } else {
            match process_instruction(line)? {
                Some(inst) => (Some(inst), Offset::Relative(WORD_BYTES)),
                None => (None, Offset::Relative(0)),
            }
        };
        Ok(Some(InstLine { raw, label, inst, offset, comment }))
    }

    /// The line as it was written.
    pub fn raw(&self) -> (r: &'a str)
        ensures
            r@ == self@.raw,
    {
        self.raw
    }

    /// The label that the line defines.
    pub fn label(&self) -> (r: Option<&'a str>)
        ensures
            text_view(r) == self@.label,
    {
        self.label
    }

    /// The instruction of the line.
    pub fn inst(&self) -> (r: Option<Inst<'a>>)
        ensures
            inst_view(r) == self@.inst,
            r matches Some(i) ==> i@.wf(),
    {
        proof {
            use_type_invariant(self);
        }
        self.inst
    }

    /// How the line moves the location counter.
    pub fn offset(&self) -> (r: Offset)
        ensures
            r == self@.offset,
    {
        self.offset
    }

    /// The comment that ends the line.
    pub fn comment(&self) -> (r: Option<&'a str>)
        ensures
            text_view(r) == self@.comment,
    {
        self.comment
    }

    /// Encodes the instruction of the line, if it has one, as the word that
    /// stands at the address `pc`.
    pub fn encode_instruction(&self, symbol_map: &SymbolTable, pc: usize) -> (r: Result<
        Option<usize>,
        AsmError,
    >)
        ensures
            match r {
                Ok(Some(w)) => line_word(self@, symbol_map@, pc) == Ok::<Option<int>, AsmError>(
                    Some(w as int),
                ) && w < 0x1_0000_0000,
                Ok(None) => line_word(self@, symbol_map@, pc) == Ok::<Option<int>, AsmError>(
                    None,
                ),
                Err(e) => line_word(self@, symbol_map@, pc) == Err::<Option<int>, AsmError>(e),
            },
    {
        proof {
            use_type_invariant(self);
        }
        match &self.inst {
            Some(inst) => Ok(Some(inst.encode_instruction(symbol_map, pc)?)),
            None => Ok(None),
        }
    }
}

} // verus!
