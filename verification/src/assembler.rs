//! The two passes over a program: the first binds the labels, the second
//! resolves the symbols and encodes the instructions.

use crate::code::{encode, Code};
use crate::error::{AsmError, ErrorKind};
use crate::mnemonics::is_bits;
use crate::parser::{lemma_next_command, next_command, Parser};
use crate::syntax::{instruction_text, is_label_line, label_name, label_range};
use crate::table::{bind, predefined_symbols, Symbols, Table, FIRST_VARIABLE, MAX_ADDRESS};
use crate::text::{starts_with, texts, to_chars};
use crate::words::{instruction_count, lemma_words};
use vstd::prelude::*;
use vstd::string::StrSliceExecFns;

verus! {

/// The failure of kind `kind` at the line with the number `number`.
pub open spec fn failure(number: nat, kind: ErrorKind) -> AsmError {
    AsmError { line: number as usize, kind }
}

/// Where the first pass stands: the bindings so far, and the number of
/// instructions seen so far.
pub struct LabelPass {
    pub bound: Map<Seq<char>, i16>,
    pub count: nat,
}

/// The first pass on one line, which has the number `number`. A line
/// without a command changes nothing. A label definition binds its name to
/// the number of instructions before it, unless the name is bound already;
/// it fails where it is malformed or that number is no address. Any other
/// line is an instruction and is counted.
pub open spec fn label_step(p: LabelPass, line: Seq<char>, number: nat) -> Result<
    LabelPass,
    AsmError,
> {
    let text = instruction_text(line);
    if text.len() == 0 {
        Ok(p)
    } else if is_label_line(text) {
        match label_name(text) {
            None => Err(failure(number, ErrorKind::MalformedLabel)),
            Some(name) => if p.count > MAX_ADDRESS {
                Err(failure(number, ErrorKind::AddressOutOfRange))
            } else {
                Ok(LabelPass { bound: bind(p.bound, name, p.count as i16), count: p.count })
            },
        }
    } else {
        Ok(LabelPass { bound: p.bound, count: p.count + 1 })
    }
}

/// The first pass on the first `n` lines, from the bindings `bound`. It
/// stops at the first line that fails.
pub open spec fn label_pass(lines: Seq<Seq<char>>, n: nat, bound: Map<Seq<char>, i16>) -> Result<
    LabelPass,
    AsmError,
>
    decreases n,
{
    if n == 0 {
        Ok(LabelPass { bound, count: 0 })
    } else {
        match label_pass(lines, (n - 1) as nat, bound) {
            Err(e) => Err(e),
            Ok(p) => label_step(p, lines[n - 1], n),
        }
    }
}

/// Where the second pass stands: the symbols, and the words made so far.
pub struct EncodePass {
    pub symbols: Symbols,
    pub words: Seq<Seq<char>>,
}

/// The second pass on one line, which has the number `number`. A line
/// without a command and a label definition change nothing. Any other line
/// is encoded: its word is added, or the pass fails with what the encoder
/// reports.
pub open spec fn encode_step(p: EncodePass, line: Seq<char>, number: nat) -> Result<
    EncodePass,
    AsmError,
> {
    let text = instruction_text(line);
    if text.len() == 0 || is_label_line(text) {
        Ok(p)
    } else {
        match encode(p.symbols, text) {
            (after, Ok(word)) => Ok(EncodePass { symbols: after, words: p.words.push(word) }),
            (_, Err(kind)) => Err(failure(number, kind)),
        }
    }
}

/// The second pass on the first `n` lines, from the symbols `symbols`.
/// It stops at the first line that fails.
pub open spec fn encode_pass(lines: Seq<Seq<char>>, n: nat, symbols: Symbols) -> Result<
    EncodePass,
    AsmError,
>
    decreases n,
{
    if n == 0 {
        Ok(EncodePass { symbols, words: Seq::empty() })
    } else {
        match encode_pass(lines, (n - 1) as nat, symbols) {
            Err(e) => Err(e),
            Ok(p) => encode_step(p, lines[n - 1], n),
        }
    }
}

/// The symbols that a fresh table holds.
pub open spec fn fresh_symbols() -> Symbols {
    Symbols { bound: predefined_symbols(), next_free: FIRST_VARIABLE as int }
}

/// The words of a program: the first pass from the predefined symbols
/// alone, and on its bindings the second pass with 16 as the first variable
/// address.
pub open spec fn assembled(lines: Seq<Seq<char>>) -> Result<Seq<Seq<char>>, AsmError> {
    match label_pass(lines, lines.len(), predefined_symbols()) {
        Err(e) => Err(e),
        Ok(labels) => match encode_pass(
            lines,
            lines.len(),
            Symbols { bound: labels.bound, next_free: FIRST_VARIABLE as int },
        ) {
            Err(e) => Err(e),
            Ok(p) => Ok(p.words),
        },
    }
}

/// Lines without a command leave the first pass where it stands.
pub proof fn lemma_label_pass_skip(
    lines: Seq<Seq<char>>,
    from: nat,
    to: nat,
    bound: Map<Seq<char>, i16>,
)
    requires
        from <= to <= lines.len(),
        forall|i: int| from <= i < to ==> instruction_text(#[trigger] lines[i]).len() == 0,
    ensures
        label_pass(lines, to, bound) == label_pass(lines, from, bound),
    decreases to - from,
{
    if from < to {
        lemma_label_pass_skip(lines, from, (to - 1) as nat, bound);
        assert(instruction_text(lines[to - 1]).len() == 0);
    }
}

/// Once the first pass has failed, it stays failed.
pub proof fn lemma_label_pass_failed(
    lines: Seq<Seq<char>>,
    from: nat,
    to: nat,
    bound: Map<Seq<char>, i16>,
)
    requires
        from <= to,
        label_pass(lines, from, bound) is Err,
    ensures
        label_pass(lines, to, bound) == label_pass(lines, from, bound),
    decreases to - from,
{
    if from < to {
        lemma_label_pass_failed(lines, from, (to - 1) as nat, bound);
    }
}

/// Lines without a command leave the second pass where it stands.
pub proof fn lemma_encode_pass_skip(lines: Seq<Seq<char>>, from: nat, to: nat, symbols: Symbols)
    requires
        from <= to <= lines.len(),
        forall|i: int| from <= i < to ==> instruction_text(#[trigger] lines[i]).len() == 0,
    ensures
        encode_pass(lines, to, symbols) == encode_pass(lines, from, symbols),
    decreases to - from,
{
    if from < to {
        lemma_encode_pass_skip(lines, from, (to - 1) as nat, symbols);
        assert(instruction_text(lines[to - 1]).len() == 0);
    }
}

/// Once the second pass has failed, it stays failed.
pub proof fn lemma_encode_pass_failed(lines: Seq<Seq<char>>, from: nat, to: nat, symbols: Symbols)
    requires
        from <= to,
        encode_pass(lines, from, symbols) is Err,
    ensures
        encode_pass(lines, to, symbols) == encode_pass(lines, from, symbols),
    decreases to - from,
{
    if from < to {
        lemma_encode_pass_failed(lines, from, (to - 1) as nat, symbols);
    }
}

impl Table {
    /// The first pass: reads `parser` from its first line to its last and
    /// binds each label to the number of instructions before it. Leaves
    /// `parser` at its start. Where a line fails, the table holds the
    /// labels of the lines before it.
    pub fn init_label(&mut self, parser: &mut Parser) -> (r: Result<(), AsmError>)
        requires
            old(self).wf(),
            old(parser).wf(),
        ensures
            final(self).wf(),
            final(parser).wf(),
            final(parser).source() == old(parser).source(),
            final(parser).cursor() == 0,
            final(self)@.next_free == old(self)@.next_free,
            match label_pass(
                old(parser).source(),
                old(parser).source().len(),
                old(self)@.bound,
            ) {
                Ok(p) => r is Ok && final(self)@.bound == p.bound,
                Err(e) => {
                    &&& r == Err::<(), AsmError>(e)
                    &&& e.line >= 1
                    &&& label_pass(
                        old(parser).source(),
                        (e.line - 1) as nat,
                        old(self)@.bound,
                    ) matches Ok(p)
                    &&& final(self)@.bound == p.bound
                },
            },
    {
        parser.rewind();
        let ghost lines = parser.source();
        let ghost bound = self@.bound;
        let mut count: usize = 0;
        proof {
            parser.lemma_wf();
        }
        loop
            invariant
                self.wf(),
                parser.wf(),
                parser.source() == lines,
                lines == old(parser).source(),
                bound == old(self)@.bound,
                lines.len() <= usize::MAX,
                count <= parser.cursor() <= lines.len(),
                self@.next_free == old(self)@.next_free,
                label_pass(lines, parser.cursor(), bound) == Ok::<LabelPass, AsmError>(
                    LabelPass { bound: self@.bound, count: count as nat },
                ),
            ensures
                parser.cursor() == lines.len(),
            decreases lines.len() - parser.cursor(),
        {
            let ghost before = parser.cursor();
            let ghost at = next_command(lines, before);
            proof {
                lemma_next_command(lines, before);
                lemma_label_pass_skip(lines, before, at, bound);
            }
            if !parser.set_command() {
                break ;
            }
            let number: usize = parser.line_number();
            let command: &String = parser.current_command();
            if starts_with(command, '(') {
                let v: Vec<char> = to_chars(command.as_str());
                match label_range(&v) {
                    None => {
                        proof {
                            lemma_label_pass_failed(lines, at + 1, lines.len(), bound);
                        }
                        parser.rewind();
                        return Err(AsmError { line: number, kind: ErrorKind::MalformedLabel });
                    },
                    Some((from, to)) => {
                        if count > 32767 {
                            proof {
                                lemma_label_pass_failed(lines, at + 1, lines.len(), bound);
                            }
                            parser.rewind();
                            return Err(
                                AsmError { line: number, kind: ErrorKind::AddressOutOfRange },
                            );
                        }
                        self.add(command.as_str().substring_char(from, to), count as i16);
                    },
                }
            } else {
                count = count + 1;
            }
        }
        parser.rewind();
        Ok(())
    }
}

/// The assembler: the lines of a program and the symbol table for them.
pub struct HackAssembler {
    parser: Parser,
    table: Table,
}

impl View for HackAssembler {
    type V = Symbols;

    closed spec fn view(&self) -> Symbols {
        self.table@
    }
}

impl HackAssembler {
    /// The lines of the program that was loaded last, each as its characters.
    pub closed spec fn source(&self) -> Seq<Seq<char>> {
        self.parser.source()
    }

    /// Well-formedness: that of the table and of the line source.
    pub closed spec fn wf(&self) -> bool {
        self.table.wf() && self.parser.wf()
    }

    /// An assembler with no program loaded: it holds no line, and its
    /// table is fresh.
    pub fn new() -> (assembler: HackAssembler)
        ensures
            assembler.wf(),
            assembler.source() == Seq::<Seq<char>>::empty(),
            assembler@ == fresh_symbols(),
    {
        let assembler = HackAssembler { parser: Parser::new(Vec::new()), table: Table::new() };
        assert(assembler.source() =~= Seq::<Seq<char>>::empty());
        assembler
    }

    /// The first pass over the loaded program, on the table as it stands.
    fn add_labels_symbols_map(&mut self) -> (r: Result<(), AsmError>)
        requires
            old(self).wf(),
        ensures
            final(self).wf(),
            final(self).source() == old(self).source(),
            final(self)@.next_free == old(self)@.next_free,
            match label_pass(old(self).source(), old(self).source().len(), old(self)@.bound) {
                Ok(p) => r is Ok && final(self)@.bound == p.bound,
                Err(e) => r == Err::<(), AsmError>(e),
            },
    {
        self.table.init_label(&mut self.parser)
    }

    /// Loads the program `lines` and runs the first pass on it, from a
    /// fresh table. Where the pass fails, no program is loaded and the table
    /// is fresh.
    pub fn load_file(&mut self, lines: Vec<String>) -> (r: Result<(), AsmError>)
        ensures
            final(self).wf(),
            match label_pass(texts(lines@), lines@.len(), predefined_symbols()) {
                Ok(p) => r is Ok && final(self).source() == texts(lines@) && final(self)@
                    == Symbols { bound: p.bound, next_free: FIRST_VARIABLE as int },
                Err(e) => r == Err::<(), AsmError>(e) && final(self).source() == Seq::<
                    Seq<char>,
                >::empty() && final(self)@ == fresh_symbols(),
            },
    {
        self.parser = Parser::new(lines);
        self.table = Table::new();
        match self.add_labels_symbols_map() {
            Ok(()) => Ok(()),
            Err(e) => {
                *self = HackAssembler::new();
                Err(e)
            },
        }
    }

    /// The second pass over the loaded program: the word of each
    /// instruction, in the order of the lines. Symbols that are not bound
    /// become variables and stay bound. Where a line fails, no program is
    /// loaded any more and the table is fresh.
    pub fn assemble(&mut self) -> (r: Result<Vec<String>, AsmError>)
        requires
            old(self).wf(),
        ensures
            final(self).wf(),
            match encode_pass(old(self).source(), old(self).source().len(), old(self)@) {
                Ok(p) => r matches Ok(words) && texts(words@) == p.words && final(self).source()
                    == old(self).source() && final(self)@ == p.symbols,
                Err(e) => r matches Err(f) && f == e && final(self).source() == Seq::<
                    Seq<char>,
                >::empty() && final(self)@ == fresh_symbols(),
            },
    {
        self.parser.rewind();
        let ghost lines = self.parser.source();
        let ghost symbols = self.table@;
        let mut code = Code::new();
        proof {
            self.parser.lemma_wf();
        }
        loop
            invariant
                self.table.wf(),
                self.parser.wf(),
                self.parser.source() == lines,
                lines == old(self).source(),
                symbols == old(self)@,
                self.parser.cursor() <= lines.len(),
                encode_pass(lines, self.parser.cursor(), symbols) == Ok::<EncodePass, AsmError>(
                    EncodePass { symbols: self.table@, words: code@ },
                ),
            ensures
                self.parser.cursor() == lines.len(),
            decreases lines.len() - self.parser.cursor(),
        {
            let ghost before = self.parser.cursor();
            let ghost at = next_command(lines, before);
            proof {
                lemma_next_command(lines, before);
                lemma_encode_pass_skip(lines, before, at, symbols);
            }
            if !self.parser.set_command() {
                break ;
            }
            let number: usize = self.parser.line_number();
            let command: &String = self.parser.current_command();
            if !starts_with(command, '(') {
                match code.encode(command, &mut self.table) {
                    Ok(word) => {
                        code.write(word.as_str());
                    },
                    Err(kind) => {
                        proof {
                            lemma_encode_pass_failed(lines, at + 1, lines.len(), symbols);
                        }
                        *self = HackAssembler::new();
                        return Err(AsmError { line: number, kind });
                    },
                }
            }
        }
        self.parser.rewind();
        Ok(code.into_lines())
    }
}

impl Default for HackAssembler {
    /// An assembler with no program loaded and a fresh table.
    fn default() -> (assembler: HackAssembler)
        ensures
            assembler.wf(),
            assembler.source() == Seq::<Seq<char>>::empty(),
            assembler@ == fresh_symbols(),
    {
        HackAssembler::new()
    }
}

/// Assembles the program `lines`: the word of each instruction, in the
/// order of the lines, or the first failure. The result depends on the
/// lines alone. There is one word for each instruction, and each word is 16
/// binary digits.
pub fn assemble_lines(lines: Vec<String>) -> (r: Result<Vec<String>, AsmError>)
    ensures
        match assembled(texts(lines@)) {
            Ok(words) => r matches Ok(out) && texts(out@) == words,
            Err(e) => r matches Err(f) && f == e,
        },
        r matches Ok(out) ==> out@.len() == instruction_count(texts(lines@), lines@.len())
            && forall|i: int| 0 <= i < out@.len() ==> is_bits(#[trigger] out@[i]@, 16),
{
    let ghost source = texts(lines@);
    let mut assembler = HackAssembler::new();
    match assembler.load_file(lines) {
        Ok(()) => {
            let ghost start = assembler@;
            let r = assembler.assemble();
            proof {
                if r is Ok {
                    let out = r->Ok_0;
                    lemma_words(source, source.len(), start);
                    assert forall|i: int| 0 <= i < out@.len() implies is_bits(
                        #[trigger] out@[i]@,
                        16,
                    ) by {
                        assert(texts(out@)[i] == out@[i]@);
                    }
                }
            }
            r
        },
        Err(e) => Err(e),
    }
}

} // verus!
