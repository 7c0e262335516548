use vstd::prelude::*;
use crate::text::{same_text, to_uppercase, uppercase};

verus! {

/// The mnemonics of the instruction set.
#[derive(Debug, Clone, Copy, PartialEq, Eq, Structural)]
pub enum Opcode {
    NOP,
    STOP,
    ADD,
    SUB,
    AND,
    OR,
    ADDI,
    ANDI,
    ORI,
    LD,
    ST,
    LA,
    LDR,
    STR,
    LAR,
    NEG,
    NOT,
    BR,
    BRNV,
    BRZR,
    BRNZ,
    BRPL,
    BRMI,
    SHR,
    SHRA,
    SHL,
    SHC,
}

/// The operand shapes. Every opcode has exactly one.
#[derive(Debug, Clone, Copy, PartialEq, Eq, Structural)]
pub enum Format {
    /// No operand at all.
    NoOperand,
    /// `ra, rb, rc`.
    ThreeRegister,
    /// `ra, rb, c2`.
    RegisterImmediate,
    /// `ra, c2(rb)`, or `ra, c2` with `r0` as the base.
    Displacement,
    /// `ra, c1`, with a wide constant relative to the program counter.
    LongAddress,
    /// `ra, rc`.
    TwoRegister,
    /// The branches: `rb`, nothing, or `rb, rc`, by the condition.
    Branch,
    /// `ra, rb, rc` or `ra, rb, c3`.
    Shift,
}

impl Opcode {
    /// The five-bit number of the opcode. The branches share one.
    pub open spec fn code(self) -> usize {
        match self {
            Opcode::NOP => 0,
            Opcode::LD => 1,
            Opcode::LDR => 2,
            Opcode::ST => 3,
            Opcode::STR => 4,
            Opcode::LA => 5,
            Opcode::LAR => 6,
            Opcode::BR => 8,
            Opcode::BRNV => 8,
            Opcode::BRZR => 8,
            Opcode::BRNZ => 8,
            Opcode::BRPL => 8,
            Opcode::BRMI => 8,
            Opcode::ADD => 12,
            Opcode::ADDI => 13,
            Opcode::SUB => 14,
            Opcode::NEG => 15,
            Opcode::AND => 20,
            Opcode::ANDI => 21,
            Opcode::OR => 22,
            Opcode::ORI => 23,
            Opcode::NOT => 24,
            Opcode::SHR => 26,
            Opcode::SHRA => 27,
            Opcode::SHL => 28,
            Opcode::SHC => 29,
            Opcode::STOP => 31,
        }
    }

    /// The operand shape of the opcode.
    pub open spec fn format(self) -> Format {
        match self {
            Opcode::NOP | Opcode::STOP => Format::NoOperand,
            Opcode::ADD | Opcode::SUB | Opcode::AND | Opcode::OR => Format::ThreeRegister,
            Opcode::ADDI | Opcode::ANDI | Opcode::ORI => Format::RegisterImmediate,
            Opcode::LD | Opcode::ST | Opcode::LA => Format::Displacement,
            Opcode::LDR | Opcode::STR | Opcode::LAR => Format::LongAddress,
            Opcode::NEG | Opcode::NOT => Format::TwoRegister,
            Opcode::BR | Opcode::BRNV | Opcode::BRZR | Opcode::BRNZ | Opcode::BRPL
            | Opcode::BRMI => Format::Branch,
            Opcode::SHR | Opcode::SHRA | Opcode::SHL | Opcode::SHC => Format::Shift,
        }
    }

    /// The condition that a branch carries in its constant field. Only the
    /// branches have one.
    pub open spec fn condition(self) -> Option<usize> {
        match self {
            Opcode::BRNV => Some(0),
            Opcode::BR => Some(1),
            Opcode::BRZR => Some(2),
            Opcode::BRNZ => Some(3),
            Opcode::BRPL => Some(4),
            Opcode::BRMI => Some(5),
            _ => None,
        }
    }

    /// The mnemonic, in upper case.
    pub open spec fn name(self) -> Seq<char> {
        match self {
            Opcode::NOP => "NOP"@,
            Opcode::STOP => "STOP"@,
            Opcode::ADD => "ADD"@,
            Opcode::SUB => "SUB"@,
            Opcode::AND => "AND"@,
            Opcode::OR => "OR"@,
            Opcode::ADDI => "ADDI"@,
            Opcode::ANDI => "ANDI"@,
            Opcode::ORI => "ORI"@,
            Opcode::LD => "LD"@,
            Opcode::ST => "ST"@,
            Opcode::LA => "LA"@,
            Opcode::LDR => "LDR"@,
            Opcode::STR => "STR"@,
            Opcode::LAR => "LAR"@,
            Opcode::NEG => "NEG"@,
            Opcode::NOT => "NOT"@,
            Opcode::BR => "BR"@,
            Opcode::BRNV => "BRNV"@,
            Opcode::BRZR => "BRZR"@,
            Opcode::BRNZ => "BRNZ"@,
            Opcode::BRPL => "BRPL"@,
            Opcode::BRMI => "BRMI"@,
            Opcode::SHR => "SHR"@,
            Opcode::SHRA => "SHRA"@,
            Opcode::SHL => "SHL"@,
            Opcode::SHC => "SHC"@,
        }
    }

    /// The opcode whose mnemonic is exactly `name`.
    pub open spec fn named(name: Seq<char>) -> Option<Opcode> {
        if exists|op: Opcode| #[trigger] op.name() == name {
            Some(choose|op: Opcode| #[trigger] op.name() == name)
        } else {
            None
        }
    }

    /// No two opcodes share a mnemonic.
    pub proof fn lemma_names_differ(a: Opcode, b: Opcode)
        requires
            a.name() == b.name(),
        ensures
            a == b,
    {
        reveal_strlit("NOP");
        reveal_strlit("STOP");
        reveal_strlit("ADD");
        reveal_strlit("SUB");
        reveal_strlit("AND");
        reveal_strlit("OR");
        reveal_strlit("ADDI");
        reveal_strlit("ANDI");
        reveal_strlit("ORI");
        reveal_strlit("LD");
        reveal_strlit("ST");
        reveal_strlit("LA");
        reveal_strlit("LDR");
        reveal_strlit("STR");
        reveal_strlit("LAR");
        reveal_strlit("NEG");
        reveal_strlit("NOT");
        reveal_strlit("BR");
        reveal_strlit("BRNV");
        reveal_strlit("BRZR");
        reveal_strlit("BRNZ");
        reveal_strlit("BRPL");
        reveal_strlit("BRMI");
        reveal_strlit("SHR");
        reveal_strlit("SHRA");
        reveal_strlit("SHL");
        reveal_strlit("SHC");
        let n = a.name();
        assert(n.len() == b.name().len());
        assert(n[0] == b.name()[0]);
        assert(n[1] == b.name()[1]);
        if n.len() > 2 {
            assert(n[2] == b.name()[2]);
        }
        if n.len() > 3 {
            assert(n[3] == b.name()[3]);
        }
    }

    /// The five-bit number of the opcode.
    pub fn to_num(&self) -> (r: usize)
        ensures
            r == self.code(),
            r < 32,
    {
        match self {
            Opcode::NOP => 0,
            Opcode::LD => 1,
            Opcode::LDR => 2,
            Opcode::ST => 3,
            Opcode::STR => 4,
            Opcode::LA => 5,
            Opcode::LAR => 6,
            Opcode::BR => 8,
            Opcode::BRNV => 8,
            Opcode::BRZR => 8,
            Opcode::BRNZ => 8,
            Opcode::BRPL => 8,
            Opcode::BRMI => 8,
            Opcode::ADD => 12,
            Opcode::ADDI => 13,
            Opcode::SUB => 14,
            Opcode::NEG => 15,
            Opcode::AND => 20,
            Opcode::ANDI => 21,
            Opcode::OR => 22,
            Opcode::ORI => 23,
            Opcode::NOT => 24,
            Opcode::SHR => 26,
            Opcode::SHRA => 27,
            Opcode::SHL => 28,
            Opcode::SHC => 29,
            Opcode::STOP => 31,
        }
    }

    /// The operand shape of the opcode.
    pub fn operand_format(&self) -> (r: Format)
        ensures
            r == self.format(),
    {
        match self {
            Opcode::NOP | Opcode::STOP => Format::NoOperand,
            Opcode::ADD | Opcode::SUB | Opcode::AND | Opcode::OR => Format::ThreeRegister,
            Opcode::ADDI | Opcode::ANDI | Opcode::ORI => Format::RegisterImmediate,
            Opcode::LD | Opcode::ST | Opcode::LA => Format::Displacement,
            Opcode::LDR | Opcode::STR | Opcode::LAR => Format::LongAddress,
            Opcode::NEG | Opcode::NOT => Format::TwoRegister,
            Opcode::BR | Opcode::BRNV | Opcode::BRZR | Opcode::BRNZ | Opcode::BRPL
            | Opcode::BRMI => Format::Branch,
            Opcode::SHR | Opcode::SHRA | Opcode::SHL | Opcode::SHC => Format::Shift,
        }
    }

    /// Looks `name` up in the table of mnemonics, letter for letter.
    pub fn from_name(name: &str) -> (r: Option<Opcode>)
        ensures
            r == Opcode::named(name@),
    {
        let r = if same_text(name, "NOP") {
            Some(Opcode::NOP)
        } else if same_text(name, "STOP") {
            Some(Opcode::STOP)
        } else if same_text(name, "ADD") {
            Some(Opcode::ADD)
        } else if same_text(name, "SUB") {
            Some(Opcode::SUB)
        } else if same_text(name, "AND") {
            Some(Opcode::AND)
        } else if same_text(name, "OR") {
            Some(Opcode::OR)
        } else if same_text(name, "ADDI") {
            Some(Opcode::ADDI)
        } else if same_text(name, "ANDI") {
            Some(Opcode::ANDI)
        } else if same_text(name, "ORI") {
            Some(Opcode::ORI)
        } else if same_text(name, "LD") {
            Some(Opcode::LD)
        } else if same_text(name, "ST") {
            Some(Opcode::ST)
        } else if same_text(name, "LA") {
            Some(Opcode::LA)
        } else if same_text(name, "LDR") {
            Some(Opcode::LDR)
        } else if same_text(name, "STR") {
            Some(Opcode::STR)
        } else if same_text(name, "LAR") {
            Some(Opcode::LAR)
        } else if same_text(name, "NEG") {
            Some(Opcode::NEG)
        } else if same_text(name, "NOT") {
            Some(Opcode::NOT)
        } else if same_text(name, "BR") {
            Some(Opcode::BR)
        } else if same_text(name, "BRNV") {
            Some(Opcode::BRNV)
        } else if same_text(name, "BRZR") {
            Some(Opcode::BRZR)
        } else if same_text(name, "BRNZ") {
            Some(Opcode::BRNZ)
        } else if same_text(name, "BRPL") {
            Some(Opcode::BRPL)
        } else if same_text(name, "BRMI") {
            Some(Opcode::BRMI)
        } else if same_text(name, "SHR") {
            Some(Opcode::SHR)
        } else if same_text(name, "SHRA") {
            Some(Opcode::SHRA)
        } else if same_text(name, "SHL") {
            Some(Opcode::SHL)
        } else if same_text(name, "SHC") {
            Some(Opcode::SHC)
        } else {
            None
        };
        proof {
            match r {
                Some(op) => {
                    assert(op.name() == name@);
                    let other = choose|other: Opcode| #[trigger] other.name() == name@;
                    Opcode::lemma_names_differ(op, other);
                },
                None => {
                    assert forall|op: Opcode| #[trigger] op.name() != name@ by {}
                },
            }
        }
        r
    }

    /// Looks a mnemonic up without regard to the case of its letters: it is
    /// put in upper case first.
    pub fn from_mnemonic(mnemonic: &str) -> (r: Option<Opcode>)
        ensures
            r == Opcode::named(uppercase(mnemonic@)),
    {
        let upper = to_uppercase(mnemonic);
        Opcode::from_name(upper.as_str())
    }
}

} // verus!
