use vstd::prelude::*;
use crate::error::{result_view, AsmError};
use crate::inst::{line_of, line_word, resolved, InstLine, LineView, Offset};
use crate::operand::ConView;
use crate::symbols::SymbolTable;
use crate::text::{lines_of, split_lines, texts};

verus! {

/// The state of the scan phase after some lines.
pub struct Scan {
    /// The lines so far, each with the address it was given.
    pub lines: Seq<(usize, LineView)>,
    /// The labels so far, each with the address of the line that bears it.
    pub symbols: Map<Seq<char>, usize>,
    /// The location counter: the address that the next line will be given.
    pub counter: usize,
}

impl Scan {
    /// The state before the first line: nothing recorded, the counter at 0.
    pub open spec fn start() -> Scan {
        Scan { lines: Seq::empty(), symbols: Map::empty(), counter: 0 }
    }
}

/// Where the location counter stands after a line that moves it by `offset`:
/// a relative offset is added, an absolute one replaces the counter. There is
/// no such place where the sum leaves the machine word.
pub open spec fn advanced(counter: usize, offset: Offset) -> Option<usize> {
    match offset {
        Offset::Relative(n) => if counter + n <= usize::MAX {
            Some((counter + n) as usize)
        } else {
            None
        },
        Offset::Absolute(a) => Some(a),
    }
}

/// The scan of one more line. The line is taken apart and recorded at the
/// location counter; its label, if it has one, is bound to that address and
/// must be new; then the counter moves by the line's offset.
pub open spec fn scan_line(state: Scan, raw: Seq<char>) -> Result<Scan, AsmError> {
    match line_of(raw) {
        Err(e) => Err(e),
        Ok(line) => if line.label matches Some(l) && state.symbols.contains_key(l) {
            Err(AsmError::DuplicateSymbol)
        } else {
            match advanced(state.counter, line.offset) {
                None => Err(AsmError::AddressOverflow),
                Some(next) => Ok(
                    Scan {
                        lines: state.lines.push((state.counter, line)),
                        symbols: match line.label {
                            Some(l) => state.symbols.insert(l, state.counter),
                            None => state.symbols,
                        },
                        counter: next,
                    },
                ),
            }
        },
    }
}

/// The scan of the lines `raws`, in their order. The first error ends it.
pub open spec fn scan_lines(raws: Seq<Seq<char>>) -> Result<Scan, AsmError>
    decreases raws.len(),
{
    if raws.len() == 0 {
        Ok(Scan::start())
    } else {
        match scan_lines(raws.drop_last()) {
            Err(e) => Err(e),
            Ok(state) => scan_line(state, raws.last()),
        }
    }
}

/// An error in the scan of the first `n` lines is the error of the whole scan.
pub proof fn lemma_scan_error_stays(raws: Seq<Seq<char>>, n: int)
    requires
        0 <= n <= raws.len(),
        scan_lines(raws.take(n)) is Err,
    ensures
        scan_lines(raws) == scan_lines(raws.take(n)),
    decreases raws.len() - n,
{
    if n == raws.len() {
        assert(raws.take(n) =~= raws);
    } else {
        assert(raws.drop_last().take(n) =~= raws.take(n));
        lemma_scan_error_stays(raws.drop_last(), n);
    }
}

/// The address that follows line `k` of the scan `s`: that of the next line,
/// or the location counter after the last line.
pub open spec fn address_after(s: Scan, k: int) -> usize {
    if k + 1 < s.lines.len() {
        s.lines[k + 1].0
    } else {
        s.counter
    }
}

/// What holds of the state `s` that the scan of `raws` ends in: every line
/// is recorded, in order, as it was taken apart; the first address is 0 and
/// each line's offset leads to the address after it; and the table binds
/// the labels of the lines, each to the address of its line, and nothing
/// else.
pub open spec fn scanned(raws: Seq<Seq<char>>, s: Scan) -> bool {
    &&& s.lines.len() == raws.len()
    &&& forall|k: int|
        0 <= k < raws.len() ==> line_of(raws[k]) == Ok::<LineView, AsmError>(
            (#[trigger] s.lines[k]).1,
        )
    &&& if raws.len() == 0 {
        s.counter == 0
    } else {
        s.lines[0].0 == 0
    }
    &&& forall|k: int|
        0 <= k < raws.len() ==> advanced((#[trigger] s.lines[k]).0, s.lines[k].1.offset) == Some(
            address_after(s, k),
        )
    &&& forall|k: int|
        0 <= k < raws.len() ==> ((#[trigger] s.lines[k]).1.label matches Some(l)
            ==> s.symbols.contains_key(l) && s.symbols[l] == s.lines[k].0)
    &&& forall|l: Seq<char>| #[trigger]
        s.symbols.contains_key(l) ==> exists|k: int|
            0 <= k < raws.len() && (#[trigger] s.lines[k]).1.label == Some(l)
}

/// A scan that succeeds ends in a state of which `scanned` holds.
pub proof fn lemma_scanned(raws: Seq<Seq<char>>)
    ensures
        scan_lines(raws) matches Ok(s) ==> scanned(raws, s),
    decreases raws.len(),
{
    if raws.len() > 0 {
        let front = raws.drop_last();
        lemma_scanned(front);
        if let Ok(s) = scan_lines(raws) {
            let p = scan_lines(front).unwrap();
            let line = line_of(raws.last()).unwrap();
            let n = front.len() as int;
            assert(s.lines == p.lines.push((p.counter, line)));
            assert forall|k: int| 0 <= k < raws.len() implies line_of(raws[k]) == Ok::<
                LineView,
                AsmError,
            >((#[trigger] s.lines[k]).1) by {
                if k < n {
                    assert(s.lines[k] == p.lines[k]);
                    assert(raws[k] == front[k]);
                }
            }
            if n > 0 {
                assert(s.lines[0] == p.lines[0]);
            }
            assert forall|k: int| 0 <= k < raws.len() implies advanced(
                (#[trigger] s.lines[k]).0,
                s.lines[k].1.offset,
            ) == Some(address_after(s, k)) by {
                if k < n {
                    assert(s.lines[k] == p.lines[k]);
                    if k + 1 < n {
                        assert(s.lines[k + 1] == p.lines[k + 1]);
                    }
                    assert(address_after(s, k) == address_after(p, k));
                }
            }
            assert forall|k: int| 0 <= k < raws.len() implies ((#[trigger] s.lines[k]).1.label
                matches Some(l) ==> s.symbols.contains_key(l) && s.symbols[l]
                == s.lines[k].0) by {
                if k < n {
                    assert(s.lines[k] == p.lines[k]);
                }
            }
            assert forall|l: Seq<char>| #[trigger] s.symbols.contains_key(l) implies exists|
                k: int,
            |
                0 <= k < raws.len() && (#[trigger] s.lines[k]).1.label == Some(l) by {
                if p.symbols.contains_key(l) {
                    let k = choose|k: int|
                        0 <= k < front.len() && (#[trigger] p.lines[k]).1.label == Some(l);
                    assert(s.lines[k] == p.lines[k]);
                } else {
                    assert(s.lines[n].1.label == Some(l));
                }
            }
        }
    }
}

/// Law: in a scanned program a label stands for the address of the line that
/// bears it. A reference to the label resolves to that address wherever the
/// reference stands, before the line or after it, for the table is complete
/// before any word is encoded.
pub proof fn lemma_label_resolves(raws: Seq<Seq<char>>, k: int)
    requires
        scan_lines(raws) is Ok,
        0 <= k < raws.len(),
        scan_lines(raws).unwrap().lines[k].1.label is Some,
    ensures
        ({
            let s = scan_lines(raws).unwrap();
            resolved(ConView::S(s.lines[k].1.label.unwrap()), s.symbols) == Ok::<
                usize,
                AsmError,
            >(s.lines[k].0)
        }),
{
    lemma_scanned(raws);
    let s = scan_lines(raws).unwrap();
    assert(s.lines[k].1.label matches Some(l) ==> s.symbols.contains_key(l));
}

/// Law: where two lines bear the same label the scan fails, so that there is
/// no program and no output. Unless an earlier error ends the scan before the
/// second of the two lines, the error is that of a duplicate symbol.
pub proof fn lemma_duplicate_label_fails(raws: Seq<Seq<char>>, i: int, j: int)
    requires
        0 <= i < j < raws.len(),
        line_of(raws[i]) is Ok,
        line_of(raws[j]) is Ok,
        line_of(raws[i]).unwrap().label is Some,
        line_of(raws[i]).unwrap().label == line_of(raws[j]).unwrap().label,
    ensures
        scan_lines(raws) is Err,
        scan_lines(raws.take(j)) is Ok ==> scan_lines(raws) == Err::<Scan, AsmError>(
            AsmError::DuplicateSymbol,
        ),
{
    let front = raws.take(j);
    if scan_lines(front) is Err {
        lemma_scan_error_stays(raws, j);
    } else {
        let p = scan_lines(front).unwrap();
        lemma_scanned(front);
        assert(front[i] == raws[i]);
        assert(line_of(front[i]) == Ok::<LineView, AsmError>(p.lines[i].1));
        let more = raws.take(j + 1);
        assert(more.drop_last() =~= front);
        assert(more.last() == raws[j]);
        assert(scan_lines(more) == Err::<Scan, AsmError>(AsmError::DuplicateSymbol));
        lemma_scan_error_stays(raws, j + 1);
    }
}

/// Law: the first line of a scanned program stands at address 0, and each
/// line's offset decides the address of the line after it: a relative offset
/// is added to the line's own address, an absolute offset is the next
/// address whatever the line's own address was.
pub proof fn lemma_addresses_follow(raws: Seq<Seq<char>>, k: int)
    requires
        scan_lines(raws) is Ok,
        0 <= k < raws.len(),
    ensures
        ({
            let s = scan_lines(raws).unwrap();
            &&& s.lines.len() == raws.len()
            &&& s.lines[0].0 == 0
            &&& match s.lines[k].1.offset {
                Offset::Relative(n) => address_after(s, k) == s.lines[k].0 + n,
                Offset::Absolute(a) => address_after(s, k) == a,
            }
        }),
{
    lemma_scanned(raws);
    let s = scan_lines(raws).unwrap();
    assert(advanced(s.lines[k].0, s.lines[k].1.offset) == Some(address_after(s, k)));
}

/// The words of `lines`, each with its address, in the order of the lines. A
/// line without an instruction has no word. The first error ends the encoding.
pub open spec fn words_of(lines: Seq<(usize, LineView)>, symbols: Map<Seq<char>, usize>) -> Result<
    Seq<(usize, int)>,
    AsmError,
>
    decreases lines.len(),
{
    if lines.len() == 0 {
        Ok(Seq::empty())
    } else {
        match words_of(lines.drop_last(), symbols) {
            Err(e) => Err(e),
            Ok(words) => match line_word(lines.last().1, symbols, lines.last().0) {
                Err(e) => Err(e),
                Ok(None) => Ok(words),
                Ok(Some(w)) => Ok(words.push((lines.last().0, w))),
            },
        }
    }
}

/// An error in the encoding of the first `n` lines is the error of the whole
/// encoding.
pub proof fn lemma_words_error_stays(
    lines: Seq<(usize, LineView)>,
    symbols: Map<Seq<char>, usize>,
    n: int,
)
    requires
        0 <= n <= lines.len(),
        words_of(lines.take(n), symbols) is Err,
    ensures
        words_of(lines, symbols) == words_of(lines.take(n), symbols),
    decreases lines.len() - n,
{
    if n == lines.len() {
        assert(lines.take(n) =~= lines);
    } else {
        assert(lines.drop_last().take(n) =~= lines.take(n));
        lemma_words_error_stays(lines.drop_last(), symbols, n);
    }
}

/// The hexadecimal digit for `d`, in lower case.
pub open spec fn hex_digit(d: int) -> char {
    if d == 0 {
        '0'
    } else if d == 1 {
        '1'
    } else if d == 2 {
        '2'
    } else if d == 3 {
        '3'
    } else if d == 4 {
        '4'
    } else if d == 5 {
        '5'
    } else if d == 6 {
        '6'
    } else if d == 7 {
        '7'
    } else if d == 8 {
        '8'
    } else if d == 9 {
        '9'
    } else if d == 10 {
        'a'
    } else if d == 11 {
        'b'
    } else if d == 12 {
        'c'
    } else if d == 13 {
        'd'
    } else if d == 14 {
        'e'
    } else {
        'f'
    }
}

/// `n` in hexadecimal, with zeros in front up to `width` digits; more digits
/// where `n` needs them.
pub open spec fn hex(n: nat, width: nat) -> Seq<char>
    decreases n, width,
{
    if n < 16 && width <= 1 {
        seq![hex_digit(n as int)]
    } else {
        hex(
            n / 16,
            if width > 0 {
                (width - 1) as nat
            } else {
                0
            },
        ) + seq![hex_digit((n % 16) as int)]
    }
}

/// The record of one word: its address and the word, each in eight
/// hexadecimal digits, with a tab between them and a line feed after them.
pub open spec fn record(address: usize, word: int) -> Seq<char> {
    hex(address as nat, 8) + seq!['\t'] + hex(word as nat, 8) + seq!['\n']
}

/// The output text for `words`: the leading record, which is always the
/// same, then the record of each word.
pub open spec fn rendered(words: Seq<(usize, int)>) -> Seq<char>
    decreases words.len(),
{
    if words.len() == 0 {
        "00000000\n"@
    } else {
        rendered(words.drop_last()) + record(words.last().0, words.last().1)
    }
}

/// The text of one hexadecimal digit.
fn hex_digit_text(d: usize) -> (r: &'static str)
    requires
        d < 16,
    ensures
        r@ == seq![hex_digit(d as int)],
{
    proof {
        reveal_strlit("0");
        reveal_strlit("1");
        reveal_strlit("2");
        reveal_strlit("3");
        reveal_strlit("4");
        reveal_strlit("5");
        reveal_strlit("6");
        reveal_strlit("7");
        reveal_strlit("8");
        reveal_strlit("9");
        reveal_strlit("a");
        reveal_strlit("b");
        reveal_strlit("c");
        reveal_strlit("d");
        reveal_strlit("e");
        reveal_strlit("f");
    }
    let r = if d == 0 {
        "0"
    } else if d == 1 {
        "1"
    } else if d == 2 {
        "2"
    } else if d == 3 {
        "3"
    } else if d == 4 {
        "4"
    } else if d == 5 {
        "5"
    } else if d == 6 {
        "6"
    } else if d == 7 {
        "7"
    } else if d == 8 {
        "8"
    } else if d == 9 {
        "9"
    } else if d == 10 {
        "a"
    } else if d == 11 {
        "b"
    } else if d == 12 {
        "c"
    } else if d == 13 {
        "d"
    } else if d == 14 {
        "e"
    } else {
        "f"
    };
    assert(r@ =~= seq![hex_digit(d as int)]);
    r
}

/// Appends `n` to `out` in hexadecimal, in `width` digits or more.
fn push_hex(out: &mut String, n: usize, width: usize)
    ensures
        final(out)@ == old(out)@ + hex(n as nat, width as nat),
    decreases n, width,
{
    if n < 16 && width <= 1 {
        out.append(hex_digit_text(n));
    } else {
        push_hex(
            out,
            n / 16,
            if width > 0 {
                width - 1
            } else {
                0
            },
        );
        out.append(hex_digit_text(n % 16));
        assert(out@ =~= old(out)@ + hex(n as nat, width as nat));
    }
}

/// Appends the record of one word to `out`.
fn push_record(out: &mut String, address: usize, word: usize)
    ensures
        final(out)@ == old(out)@ + record(address, word as int),
{
    proof {
        reveal_strlit("\t");
        reveal_strlit("\n");
    }
    push_hex(out, address, 8);
    out.append("\t");
    push_hex(out, word, 8);
    out.append("\n");
    assert(out@ =~= old(out)@ + record(address, word as int));
}

/// The lines of a program as they were recorded, each with its address.
pub open spec fn recorded(lines: Seq<(usize, InstLine)>) -> Seq<(usize, LineView)> {
    Seq::new(lines.len(), |i: int| (lines[i].0, lines[i].1@))
}

/// One unit of assembly after the scan phase: its lines, each with the
/// address it was given, and the table of its labels.
pub struct Prog<'a> {
    pub name: &'a str,
    lines: Vec<(usize, InstLine<'a>)>,
    symbol_map: SymbolTable,
}

/// What a `Prog` holds.
pub struct ProgView {
    /// The name of the unit.
    pub name: Seq<char>,
    /// The lines, each with its address.
    pub lines: Seq<(usize, LineView)>,
    /// The addresses of the labels.
    pub symbols: Map<Seq<char>, usize>,
}

impl<'a> View for Prog<'a> {
    type V = ProgView;

    closed spec fn view(&self) -> ProgView {
        ProgView { name: self.name@, lines: recorded(self.lines@), symbols: self.symbol_map@ }
    }
}

/// The program that the scan phase makes of the source text `contents`.
pub open spec fn program_of(name: Seq<char>, contents: Seq<char>) -> Result<ProgView, AsmError> {
    match scan_lines(lines_of(contents)) {
        Ok(state) => Ok(ProgView { name, lines: state.lines, symbols: state.symbols }),
        Err(e) => Err(e),
    }
}

/// The output text of the program `p`: the encode phase turns each line that
/// has an instruction into a word, with the complete table of symbols and
/// the line's own address.
pub open spec fn output_of(p: ProgView) -> Result<Seq<char>, AsmError> {
    match words_of(p.lines, p.symbols) {
        Ok(words) => Ok(rendered(words)),
        Err(e) => Err(e),
    }
}

/// Law: assembling is a function of the source text. The same text gives the
/// same outcome, the same output or the same error, each time and under
/// whatever name.
pub proof fn lemma_output_repeats(first: Seq<char>, second: Seq<char>, contents: Seq<char>)
    ensures
        match (program_of(first, contents), program_of(second, contents)) {
            (Ok(p), Ok(q)) => output_of(p) == output_of(q),
            (Err(e), Err(f)) => e == f,
            _ => false,
        },
{
}

impl<'a> Prog<'a> {
    /// The scan phase: gives every line of `contents` its address and binds
    /// every label. The first error ends it, and then there is no program.
    pub fn new(name: &'a str, contents: &'a str) -> (r: Result<Prog<'a>, AsmError>)
        ensures
            result_view(r) == program_of(name@, contents@),
    {
        let source_lines = split_lines(contents);
        let ghost raws = lines_of(contents@);
        let mut lines: Vec<(usize, InstLine<'a>)> = Vec::new();
        let mut symbol_map = SymbolTable::new();
        let mut loc_counter: usize = 0;
        let mut i: usize = 0;
        proof {
            assert(raws.take(0) =~= Seq::<Seq<char>>::empty());
            assert(recorded(lines@) =~= Seq::<(usize, LineView)>::empty());
        }
        while i < source_lines.len()
            invariant
                i <= source_lines.len(),
                texts(source_lines@) == raws,
                raws == lines_of(contents@),
                scan_lines(raws.take(i as int)) == Ok::<Scan, AsmError>(
                    Scan {
                        lines: recorded(lines@),
                        symbols: symbol_map@,
                        counter: loc_counter,
                    },
                ),
            decreases source_lines.len() - i,
        {
            proof {
                assert(raws.take(i + 1).drop_last() =~= raws.take(i as int));
                assert(raws.take(i + 1).last() == source_lines@[i as int]@);
                if scan_lines(raws.take(i + 1)) is Err {
                    lemma_scan_error_stays(raws, i + 1);
                }
            }
            match InstLine::new(source_lines[i])? {
                Some(inst_line) => {
                    if let Some(label) = inst_line.label() {
                        symbol_map.define(label, loc_counter)?;
                    }
                    let next = match inst_line.offset() {
                        Offset::Relative(n) => match loc_counter.checked_add(n) {
                            Some(next) => next,
                            None => {
                                return Err(AsmError::AddressOverflow);
                            },
                        },
                        Offset::Absolute(a) => a,
                    };
                    proof {
                        assert(recorded(lines@.push((loc_counter, inst_line))) =~= recorded(
                            lines@,
                        ).push((loc_counter, inst_line@)));
                    }
                    lines.push((loc_counter, inst_line));
                    loc_counter = next;
                },
                None => (),
            }
            i = i + 1;
        }
        proof {
            assert(raws.take(i as int) =~= raws);
        }
        Ok(Prog { name, lines, symbol_map })
    }

    /// The encode phase: the output text, with one record for each
    /// instruction, in the order of the lines. The first error ends it, and
    /// then there is no output.
    pub fn encode(&self) -> (r: Result<String, AsmError>)
        ensures
            result_view(r) == output_of(self@),
    {
        let mut s = String::from_str("00000000\n");
        let ghost all = recorded(self.lines@);
        let ghost mut words: Seq<(usize, int)> = Seq::empty();
        let mut i: usize = 0;
        proof {
            assert(all.take(0) =~= Seq::<(usize, LineView)>::empty());
        }
        while i < self.lines.len()
            invariant
                i <= self.lines.len(),
                all == recorded(self.lines@),
                words_of(all.take(i as int), self.symbol_map@) == Ok::<
                    Seq<(usize, int)>,
                    AsmError,
                >(words),
                s@ == rendered(words),
            decreases self.lines.len() - i,
        {
            proof {
                assert(all.take(i + 1).drop_last() =~= all.take(i as int));
                assert(all.take(i + 1).last() == all[i as int]);
                if words_of(all.take(i + 1), self.symbol_map@) is Err {
                    lemma_words_error_stays(all, self.symbol_map@, i + 1);
                }
            }
            let address = self.lines[i].0;
            match self.lines[i].1.encode_instruction(&self.symbol_map, address)? {
                Some(word) => {
                    push_record(&mut s, address, word);
                    proof {
                        let more = words.push((address, word as int));
                        assert(more.drop_last() =~= words);
                        words = more;
                    }
                },
                None => (),
            }
            i = i + 1;
        }
        proof {
            assert(all.take(i as int) =~= all);
        }
        Ok(s)
    }
}

} // verus!
