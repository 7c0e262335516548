use vstd::prelude::*;
use crate::error::{result_view, AsmError};
use crate::opcode::{Format, Opcode};
use crate::text::{
    all_alphanumeric, digit_of, digits_of, find, index_of, is_alphanumeric, is_first,
    lemma_digits_read_back, lemma_index_of_found, lemma_trimmed_unchanged, number_of,
    parse_number, split_first, split_once, trim, trimmed,
};

verus! {

/// A constant operand: a literal, already a machine word, or the name of a
/// symbol that stands for an address.
#[derive(Debug, Clone, Copy, PartialEq, Eq)]
pub enum Con<'a> {
    C(usize),
    S(&'a str),
}

/// What a `Con` holds.
pub enum ConView {
    C(usize),
    S(Seq<char>),
}

impl<'a> View for Con<'a> {
    type V = ConView;

    open spec fn view(&self) -> ConView {
        match *self {
            Con::C(x) => ConView::C(x),
            Con::S(s) => ConView::S(s@),
        }
    }
}

/// What an optional `Con` holds.
pub open spec fn con_view(c: Option<Con>) -> Option<ConView> {
    match c {
        Some(c) => Some(c@),
        None => None,
    }
}

/// The operands of one instruction: up to three registers and up to three
/// constants. Which slots are filled depends on the opcode's format; an empty
/// slot is encoded as zero.
#[derive(Debug, Clone, Copy, PartialEq, Eq)]
pub struct Params<'a> {
    pub ra: Option<usize>,
    pub rb: Option<usize>,
    pub rc: Option<usize>,
    pub c1: Option<Con<'a>>,
    pub c2: Option<Con<'a>>,
    pub c3: Option<Con<'a>>,
}

/// What a `Params` holds.
pub struct ParamsView {
    pub ra: Option<usize>,
    pub rb: Option<usize>,
    pub rc: Option<usize>,
    pub c1: Option<ConView>,
    pub c2: Option<ConView>,
    pub c3: Option<ConView>,
}

impl<'a> View for Params<'a> {
    type V = ParamsView;

    open spec fn view(&self) -> ParamsView {
        ParamsView {
            ra: self.ra,
            rb: self.rb,
            rc: self.rc,
            c1: con_view(self.c1),
            c2: con_view(self.c2),
            c3: con_view(self.c3),
        }
    }
}

impl ParamsView {
    /// The operands fit the layout of an instruction word: every register is
    /// one of `r0` .. `r31`, and no constant lies over a register field or
    /// over another constant. `c1` takes the bits of `rb` and `rc`, `c2`
    /// those of `rc`.
    pub open spec fn wf(self) -> bool {
        &&& self.ra matches Some(r) ==> r < 32
        &&& self.rb matches Some(r) ==> r < 32
        &&& self.rc matches Some(r) ==> r < 32
        &&& self.c1 is Some ==> self.rb is None && self.rc is None && self.c2 is None
            && self.c3 is None
        &&& self.c2 is Some ==> self.rc is None && self.c3 is None
    }
}

/// The register that `token` names: after trimming, an `r` and one or two
/// decimal digits that write a number below 32.
pub open spec fn register_of(token: Seq<char>) -> Result<usize, AsmError> {
    let t = trimmed(token);
    if 2 <= t.len() <= 3 && t.first() == 'r' {
        match number_of(t.drop_first()) {
            Some(n) => if n < 32 {
                Ok(n)
            } else {
                Err(AsmError::BadRegister)
            },
            None => Err(AsmError::BadRegister),
        }
    } else {
        Err(AsmError::BadRegister)
    }
}

/// The token that names register `n`: an `r` and the number in base ten.
pub open spec fn register_token(n: nat) -> Seq<char> {
    seq!['r'] + digits_of(n)
}

/// Law: each of the tokens `r0` .. `r31` is read as the register it names.
pub proof fn lemma_register_tokens(n: nat)
    requires
        n < 32,
    ensures
        register_of(register_token(n)) == Ok::<usize, AsmError>(n as usize),
{
    let t = register_token(n);
    let d = digits_of(n);
    lemma_digits_read_back(n);
    reveal_with_fuel(digits_of, 2);
    assert(1 <= d.len() <= 2);
    assert(digit_of(d.last()) is Some);
    assert(t.last() == d.last());
    lemma_trimmed_unchanged(t);
    assert(t.drop_first() =~= d);
}

/// The machine word that stands for `-n` in two's complement.
pub open spec fn negated(n: usize) -> usize {
    if n == 0 {
        0
    } else {
        (usize::MAX - n + 1) as usize
    }
}

/// Law: a negated literal, reduced to a field of 12, 17 or 22 bits, is the
/// two's complement of the number at the width of that field.
pub proof fn lemma_negated_in_field(n: usize, range: int)
    requires
        range == 0x1000 || range == 0x2_0000 || range == 0x40_0000,
    ensures
        negated(n) as int % range == (range - n as int % range) % range,
{
    assert(usize::MAX == 0xffff_ffff || usize::MAX == 0xffff_ffff_ffff_ffff);
}

/// The value of the literal `t`: a decimal number, or a `-` and a decimal
/// number, which is then negated at the full width of the machine word.
pub open spec fn literal_value(t: Seq<char>) -> Option<usize> {
    if t.len() > 0 && t.first() == '-' {
        match number_of(t.drop_first()) {
            Some(n) => Some(negated(n)),
            None => None,
        }
    } else {
        number_of(t)
    }
}

/// The literal that `token` writes, once trimmed.
pub open spec fn literal_of(token: Seq<char>) -> Option<usize> {
    literal_value(trimmed(token))
}

/// The constant that `token` writes, once trimmed: a literal, or else a
/// symbol name, which is one or more letters and numbers.
pub open spec fn constant_of(token: Seq<char>) -> Result<ConView, AsmError> {
    let t = trimmed(token);
    match literal_value(t) {
        Some(n) => Ok(ConView::C(n)),
        None => if t.len() > 0 && all_alphanumeric(t) {
            Ok(ConView::S(t))
        } else {
            Err(AsmError::BadConstant)
        },
    }
}

/// Reads a register token.
pub fn register_string_parse(reg: &str) -> (r: Result<usize, AsmError>)
    ensures
        r == register_of(reg@),
        r matches Ok(n) ==> n < 32,
{
    let reg = trim(reg);
    let len = reg.unicode_len();
    if len < 2 || len > 3 {
        return Err(AsmError::BadRegister);
    }
    if reg.get_char(0) != 'r' {
        return Err(AsmError::BadRegister);
    }
    match parse_number(reg.substring_char(1, len)) {
        Some(n) => if n < 32 {
            Ok(n)
        } else {
            Err(AsmError::BadRegister)
        },
        None => Err(AsmError::BadRegister),
    }
}

/// Reads a literal that has been trimmed already.
fn parse_literal_value(t: &str) -> (r: Option<usize>)
    ensures
        r == literal_value(t@),
{
    let len = t.unicode_len();
    if len > 0 && t.get_char(0) == '-' {
        match parse_number(t.substring_char(1, len)) {
            Some(n) => if n == 0 {
                Some(0)
            } else {
                Some(usize::MAX - n + 1)
            },
            None => None,
        }
    } else {
        parse_number(t)
    }
}

/// Reads a literal constant: no symbol is accepted in its place.
pub fn parse_literal(token: &str) -> (r: Option<usize>)
    ensures
        r == literal_of(token@),
{
    parse_literal_value(trim(token))
}

/// Reads a constant token: a literal or a symbol name.
pub fn parse_constant<'a>(con: &'a str) -> (r: Result<Con<'a>, AsmError>)
    ensures
        result_view(r) == constant_of(con@),
{
    let con = trim(con);
    match parse_literal_value(con) {
        Some(n) => Ok(Con::C(n)),
        None => if con.unicode_len() > 0 && is_alphanumeric(con) {
            Ok(Con::S(con))
        } else {
            Err(AsmError::BadConstant)
        },
    }
}

impl ParamsView {
    /// The operands with every slot empty.
    pub open spec fn none() -> ParamsView {
        ParamsView { ra: None, rb: None, rc: None, c1: None, c2: None, c3: None }
    }
}

/// The operands of an instruction that takes none: `text` must hold nothing
/// but white space.
pub open spec fn operands_none(text: Seq<char>) -> Result<ParamsView, AsmError> {
    if trimmed(text).len() == 0 {
        Ok(ParamsView::none())
    } else {
        Err(AsmError::OperandCount)
    }
}

/// The operands `ra, rb, rc`. The text is cut at its first two commas; a
/// missing comma is reported before any register is read, and the registers
/// are read from left to right.
pub open spec fn operands_three_register(text: Seq<char>) -> Result<ParamsView, AsmError> {
    match split_first(text, ',') {
        None => Err(AsmError::OperandCount),
        Some((a, rest)) => match split_first(rest, ',') {
            None => Err(AsmError::OperandCount),
            Some((b, c)) => match register_of(a) {
                Err(e) => Err(e),
                Ok(ra) => match register_of(b) {
                    Err(e) => Err(e),
                    Ok(rb) => match register_of(c) {
                        Err(e) => Err(e),
                        Ok(rc) => Ok(
                            ParamsView {
                                ra: Some(ra),
                                rb: Some(rb),
                                rc: Some(rc),
                                ..ParamsView::none()
                            },
                        ),
                    },
                },
            },
        },
    }
}

/// Law: three register tokens with commas between them are read as the
/// three registers they name. The first two tokens hold no comma themselves.
pub proof fn lemma_three_register_text(a: Seq<char>, b: Seq<char>, c: Seq<char>)
    requires
        forall|j: int| 0 <= j < a.len() ==> a[j] != ',',
        forall|j: int| 0 <= j < b.len() ==> b[j] != ',',
        register_of(a) is Ok,
        register_of(b) is Ok,
        register_of(c) is Ok,
    ensures
        operands_three_register(a + seq![','] + b + seq![','] + c) == Ok::<
            ParamsView,
            AsmError,
        >(
            ParamsView {
                ra: Some(register_of(a).unwrap()),
                rb: Some(register_of(b).unwrap()),
                rc: Some(register_of(c).unwrap()),
                ..ParamsView::none()
            },
        ),
{
    let text = a + seq![','] + b + seq![','] + c;
    let rest = b + seq![','] + c;
    assert(is_first(text, ',', a.len() as int));
    lemma_index_of_found(text, ',', a.len() as int);
    assert(text.take(a.len() as int) =~= a);
    assert(text.skip(a.len() as int + 1) =~= rest);
    assert(is_first(rest, ',', b.len() as int));
    lemma_index_of_found(rest, ',', b.len() as int);
    assert(rest.take(b.len() as int) =~= b);
    assert(rest.skip(b.len() as int + 1) =~= c);
}

/// The operands `ra, rb, c2`, cut and read like three registers but for the
/// last field, which is a constant.
pub open spec fn operands_register_immediate(text: Seq<char>) -> Result<ParamsView, AsmError> {
    match split_first(text, ',') {
        None => Err(AsmError::OperandCount),
        Some((a, rest)) => match split_first(rest, ',') {
            None => Err(AsmError::OperandCount),
            Some((b, c)) => match register_of(a) {
                Err(e) => Err(e),
                Ok(ra) => match register_of(b) {
                    Err(e) => Err(e),
                    Ok(rb) => match constant_of(c) {
                        Err(e) => Err(e),
                        Ok(c2) => Ok(
                            ParamsView {
                                ra: Some(ra),
                                rb: Some(rb),
                                c2: Some(c2),
                                ..ParamsView::none()
                            },
                        ),
                    },
                },
            },
        },
    }
}

/// The field `c2(rb)` taken apart: the text of the constant and, where the
/// field has a `(` before a `)`, the text of the base register between the
/// first `(` and the first `)`. What follows that `)` is not looked at.
/// Without such a pair the whole field is the constant.
pub open spec fn displacement_parts(field: Seq<char>) -> (Seq<char>, Option<Seq<char>>) {
    match (index_of(field, '('), index_of(field, ')')) {
        (Some(x), Some(y)) => if x < y {
            (field.take(x), Some(field.subrange(x + 1, y)))
        } else {
            (field, None)
        },
        _ => (field, None),
    }
}

/// The operands `ra, c2(rb)`. The text is cut at its first comma. The base
/// register is `r0` where the second field names none. The registers are
/// read before the constant.
pub open spec fn operands_displacement(text: Seq<char>) -> Result<ParamsView, AsmError> {
    match split_first(text, ',') {
        None => Err(AsmError::OperandCount),
        Some((a, field)) => match register_of(a) {
            Err(e) => Err(e),
            Ok(ra) => {
                let (constant, base) = displacement_parts(field);
                let rb = match base {
                    Some(b) => register_of(b),
                    None => Ok(0),
                };
                match rb {
                    Err(e) => Err(e),
                    Ok(rb) => match constant_of(constant) {
                        Err(e) => Err(e),
                        Ok(c2) => Ok(
                            ParamsView {
                                ra: Some(ra),
                                rb: Some(rb),
                                c2: Some(c2),
                                ..ParamsView::none()
                            },
                        ),
                    },
                }
            },
        },
    }
}

/// The operands `ra, c1`, cut at the first comma.
pub open spec fn operands_long_address(text: Seq<char>) -> Result<ParamsView, AsmError> {
    match split_first(text, ',') {
        None => Err(AsmError::OperandCount),
        Some((a, c)) => match register_of(a) {
            Err(e) => Err(e),
            Ok(ra) => match constant_of(c) {
                Err(e) => Err(e),
                Ok(c1) => Ok(ParamsView { ra: Some(ra), c1: Some(c1), ..ParamsView::none() }),
            },
        },
    }
}

/// The operands `ra, rc`, cut at the first comma.
pub open spec fn operands_two_register(text: Seq<char>) -> Result<ParamsView, AsmError> {
    match split_first(text, ',') {
        None => Err(AsmError::OperandCount),
        Some((a, c)) => match register_of(a) {
            Err(e) => Err(e),
            Ok(ra) => match register_of(c) {
                Err(e) => Err(e),
                Ok(rc) => Ok(ParamsView { ra: Some(ra), rc: Some(rc), ..ParamsView::none() }),
            },
        },
    }
}

/// The operands of a shift, `ra, rb, rc` or `ra, rb, c3`. The third field is
/// read as a register first; only if it is none, as a literal, and then `rc`
/// is `r0`. With a register the constant is zero.
pub open spec fn operands_shift(text: Seq<char>) -> Result<ParamsView, AsmError> {
    match split_first(text, ',') {
        None => Err(AsmError::OperandCount),
        Some((a, rest)) => match split_first(rest, ',') {
            None => Err(AsmError::OperandCount),
            Some((b, c)) => match register_of(a) {
                Err(e) => Err(e),
                Ok(ra) => match register_of(b) {
                    Err(e) => Err(e),
                    Ok(rb) => match register_of(c) {
                        Ok(rc) => Ok(
                            ParamsView {
                                ra: Some(ra),
                                rb: Some(rb),
                                rc: Some(rc),
                                c3: Some(ConView::C(0)),
                                ..ParamsView::none()
                            },
                        ),
                        Err(_) => match literal_of(c) {
                            Some(n) => Ok(
                                ParamsView {
                                    ra: Some(ra),
                                    rb: Some(rb),
                                    rc: Some(0),
                                    c3: Some(ConView::C(n)),
                                    ..ParamsView::none()
                                },
                            ),
                            None => Err(AsmError::BadConstant),
                        },
                    },
                },
            },
        },
    }
}

/// The operands of a branch with registers `rb` and `rc` and the condition
/// `condition`.
pub open spec fn branch_operands(rb: usize, rc: usize, condition: usize) -> ParamsView {
    ParamsView {
        rb: Some(rb),
        rc: Some(rc),
        c3: Some(ConView::C(condition)),
        ..ParamsView::none()
    }
}

/// The operands of the branch `op`. `BR` takes the one register `rb`, `BRNV`
/// takes no text at all, the conditional branches take `rb, rc`; a register
/// that is not named is `r0`. The opcode's condition goes into `c3`. An
/// opcode that is no branch is refused.
pub open spec fn operands_branch(op: Opcode, text: Seq<char>) -> Result<ParamsView, AsmError> {
    match op {
        Opcode::BR => match register_of(text) {
            Err(e) => Err(e),
            Ok(rb) => Ok(branch_operands(rb, 0, 1)),
        },
        Opcode::BRNV => if text.len() == 0 {
            Ok(branch_operands(0, 0, 0))
        } else {
            Err(AsmError::OperandCount)
        },
        Opcode::BRZR | Opcode::BRNZ | Opcode::BRPL | Opcode::BRMI => match split_first(
            text,
            ',',
        ) {
            None => Err(AsmError::OperandCount),
            Some((b, c)) => match register_of(b) {
                Err(e) => Err(e),
                Ok(rb) => match register_of(c) {
                    Err(e) => Err(e),
                    Ok(rc) => Ok(branch_operands(rb, rc, op.condition().unwrap())),
                },
            },
        },
        _ => Err(AsmError::WrongFormat),
    }
}

/// The operands of `op` as `text` writes them, in the format of `op`.
pub open spec fn operands_of(op: Opcode, text: Seq<char>) -> Result<ParamsView, AsmError> {
    match op.format() {
        Format::NoOperand => operands_none(text),
        Format::ThreeRegister => operands_three_register(text),
        Format::RegisterImmediate => operands_register_immediate(text),
        Format::Displacement => operands_displacement(text),
        Format::LongAddress => operands_long_address(text),
        Format::TwoRegister => operands_two_register(text),
        Format::Branch => operands_branch(op, text),
        Format::Shift => operands_shift(text),
    }
}

/// Reads the operands of an instruction that takes none.
pub fn process_op<'a>(inst: &'a str) -> (r: Result<Params<'a>, AsmError>)
    ensures
        result_view(r) == operands_none(inst@),
        r matches Ok(p) ==> p@.wf(),
{
    let inst = trim(inst);
    if inst.unicode_len() == 0 {
        Ok(Params { ra: None, rb: None, rc: None, c1: None, c2: None, c3: None })
    } else {
        Err(AsmError::OperandCount)
    }
}

/// Reads the operands `ra, rb, rc`.
pub fn process_op_ra_rb_rc<'a>(inst: &'a str) -> (r: Result<Params<'a>, AsmError>)
    ensures
        result_view(r) == operands_three_register(inst@),
        r matches Ok(p) ==> p@.wf(),
{
    let (ra, inst) = match split_once(inst, ',') {
        Some(parts) => parts,
        None => {
            return Err(AsmError::OperandCount);
        },
    };
    let (rb, rc) = match split_once(inst, ',') {
        Some(parts) => parts,
        None => {
            return Err(AsmError::OperandCount);
        },
    };
    let ra = register_string_parse(ra)?;
    let rb = register_string_parse(rb)?;
    let rc = register_string_parse(rc)?;
    Ok(Params { ra: Some(ra), rb: Some(rb), rc: Some(rc), c1: None, c2: None, c3: None })
}

/// Reads the operands `ra, c2(rb)`.
pub fn process_op_ra_c2_rb<'a>(inst: &'a str) -> (r: Result<Params<'a>, AsmError>)
    ensures
        result_view(r) == operands_displacement(inst@),
        r matches Ok(p) ==> p@.wf(),
{
    let (ra, inst) = match split_once(inst, ',') {
        Some(parts) => parts,
        None => {
            return Err(AsmError::OperandCount);
        },
    };
    let ra = register_string_parse(ra)?;
    let (c2, rb) = match (find(inst, '('), find(inst, ')')) {
        (Some(x), Some(y)) => if x < y {
            (inst.substring_char(0, x), register_string_parse(inst.substring_char(x + 1, y))?)
        } else {
            (inst, 0)
        },
        _ => (inst, 0),
    };
    let c2 = parse_constant(c2)?;
    Ok(Params { ra: Some(ra), rb: Some(rb), rc: None, c1: None, c2: Some(c2), c3: None })
}

/// Reads the operands `ra, rb, c2`.
pub fn process_op_ra_rb_c2<'a>(inst: &'a str) -> (r: Result<Params<'a>, AsmError>)
    ensures
        result_view(r) == operands_register_immediate(inst@),
        r matches Ok(p) ==> p@.wf(),
{
    let (ra, inst) = match split_once(inst, ',') {
        Some(parts) => parts,
        None => {
            return Err(AsmError::OperandCount);
        },
    };
    let (rb, c2) = match split_once(inst, ',') {
        Some(parts) => parts,
        None => {
            return Err(AsmError::OperandCount);
        },
    };
    let ra = register_string_parse(ra)?;
    let rb = register_string_parse(rb)?;
    let c2 = parse_constant(c2)?;
    Ok(Params { ra: Some(ra), rb: Some(rb), rc: None, c1: None, c2: Some(c2), c3: None })
}

/// Reads the operands `ra, c1`.
pub fn process_op_ra_c1<'a>(inst: &'a str) -> (r: Result<Params<'a>, AsmError>)
    ensures
        result_view(r) == operands_long_address(inst@),
        r matches Ok(p) ==> p@.wf(),
{
    let (ra, c1) = match split_once(inst, ',') {
        Some(parts) => parts,
        None => {
            return Err(AsmError::OperandCount);
        },
    };
    let ra = register_string_parse(ra)?;
    let c1 = parse_constant(c1)?;
    Ok(Params { ra: Some(ra), rb: None, rc: None, c1: Some(c1), c2: None, c3: None })
}

/// Reads the operands `ra, rc`.
pub fn process_op_ra_rc<'a>(inst: &'a str) -> (r: Result<Params<'a>, AsmError>)
    ensures
        result_view(r) == operands_two_register(inst@),
        r matches Ok(p) ==> p@.wf(),
{
    let (ra, rc) = match split_once(inst, ',') {
        Some(parts) => parts,
        None => {
            return Err(AsmError::OperandCount);
        },
    };
    let ra = register_string_parse(ra)?;
    let rc = register_string_parse(rc)?;
    Ok(Params { ra: Some(ra), rb: None, rc: Some(rc), c1: None, c2: None, c3: None })
}

/// Reads the operands of a shift: `ra, rb, rc` or `ra, rb, c3`.
pub fn process_op_ra_rb_rc_c3<'a>(inst: &'a str) -> (r: Result<Params<'a>, AsmError>)
    ensures
        result_view(r) == operands_shift(inst@),
        r matches Ok(p) ==> p@.wf(),
{
    let (ra, inst) = match split_once(inst, ',') {
        Some(parts) => parts,
        None => {
            return Err(AsmError::OperandCount);
        },
    };
    let (rb, last) = match split_once(inst, ',') {
        Some(parts) => parts,
        None => {
            return Err(AsmError::OperandCount);
        },
    };
    let ra = register_string_parse(ra)?;
    let rb = register_string_parse(rb)?;
    let (rc, c3) = match register_string_parse(last) {
        Ok(rc) => (rc, 0),
        Err(_) => match parse_literal(last) {
            Some(n) => (0, n),
            None => {
                return Err(AsmError::BadConstant);
            },
        },
    };
    Ok(
        Params {
            ra: Some(ra),
            rb: Some(rb),
            rc: Some(rc),
            c1: None,
            c2: None,
            c3: Some(Con::C(c3)),
        },
    )
}

/// Reads the operands of the branch `opcode`.
pub fn process_branch<'a>(inst: &'a str, opcode: &Opcode) -> (r: Result<Params<'a>, AsmError>)
    ensures
        result_view(r) == operands_branch(*opcode, inst@),
        r matches Ok(p) ==> p@.wf(),
{
    let (rb, rc, condition) = match opcode {
        Opcode::BR => (register_string_parse(inst)?, 0, 1),
        Opcode::BRNV => if inst.unicode_len() == 0 {
            (0, 0, 0)
        } else {
            return Err(AsmError::OperandCount);
        },
        Opcode::BRZR | Opcode::BRNZ | Opcode::BRPL | Opcode::BRMI => {
            let (rb, rc) = match split_once(inst, ',') {
                Some(parts) => parts,
                None => {
                    return Err(AsmError::OperandCount);
                },
            };
            let rb = register_string_parse(rb)?;
            let rc = register_string_parse(rc)?;
            let condition: usize = match opcode {
                Opcode::BRZR => 2,
                Opcode::BRNZ => 3,
                Opcode::BRPL => 4,
                _ => 5,
            };
            (rb, rc, condition)
        },
        _ => {
            return Err(AsmError::WrongFormat);
        },
    };
    Ok(
        Params {
            ra: None,
            rb: Some(rb),
            rc: Some(rc),
            c1: None,
            c2: None,
            c3: Some(Con::C(condition)),
        },
    )
}

/// Reads the operands of `opcode` in the format that `opcode` has.
pub fn process_params<'a>(inst: &'a str, opcode: &Opcode) -> (r: Result<Params<'a>, AsmError>)
    ensures
        result_view(r) == operands_of(*opcode, inst@),
        r matches Ok(p) ==> p@.wf(),
{
    match opcode.operand_format() {
        Format::NoOperand => process_op(inst),
        Format::ThreeRegister => process_op_ra_rb_rc(inst),
        Format::RegisterImmediate => process_op_ra_rb_c2(inst),
        Format::Displacement => process_op_ra_c2_rb(inst),
        Format::LongAddress => process_op_ra_c1(inst),
        Format::TwoRegister => process_op_ra_rc(inst),
        Format::Branch => process_branch(inst, opcode),
        Format::Shift => process_op_ra_rb_rc_c3(inst),
    }
}

} // verus!
