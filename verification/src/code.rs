//! The encoder: from an address or the text of a computation to the
//! 16-character binary word, and the list of words written so far.

use crate::error::ErrorKind;
use crate::mnemonics::{comp_mem_code, comp_no_mem_code, dest_code, jump_code};
use crate::syntax::{
    classify_literal, comp_field, dest_field, is_address_line, is_symbol, is_symbol_range,
    jump_field, literal_value, operand, parse_literal, split_fields, Fields, Literal,
};
use crate::table::{allocate, Symbols, Table};
use crate::text::{
    find_char, lemma_find_props, starts_with, texts, to_chars, trim, trim_range,
};
use vstd::arithmetic::div_mod::lemma_div_denominator;
use vstd::arithmetic::power2::{lemma2_to64, lemma_pow2_pos, lemma_pow2_unfold, pow2};
use vstd::prelude::*;
use vstd::string::StrSliceExecFns;
use vstd::string::StringExecFns;

verus! {

/// The binary digit of `value` that has the weight `2^k`.
pub open spec fn bit_char(value: int, k: nat) -> char {
    if (value / pow2(k) as int) % 2 == 1 {
        '1'
    } else {
        '0'
    }
}

/// The word of an addressing instruction: `0`, and after it the 15 binary
/// digits of the address, the highest first. An address below 0 has none.
pub open spec fn address_word(address: i16) -> Result<Seq<char>, ErrorKind> {
    if address < 0 {
        Err(ErrorKind::AddressOutOfRange)
    } else {
        Ok(seq!['0'] + Seq::new(15, |i: int| bit_char(address as int, (14 - i) as nat)))
    }
}

/// Whether a computation reads memory: its mnemonic holds the operand `M`.
pub open spec fn reads_memory(comp: Seq<char>) -> bool {
    comp.contains('M')
}

/// The seven bits of a computation: `1` and its code in the table of
/// computations on memory where it reads memory, else `0` and its code in
/// the other table. `None` where the table in question lacks the mnemonic.
pub open spec fn comp_bits(comp: Seq<char>) -> Option<Seq<char>> {
    if reads_memory(comp) {
        match comp_mem_code(comp) {
            Some(code) => Some("1"@ + code),
            None => None,
        }
    } else {
        match comp_no_mem_code(comp) {
            Some(code) => Some("0"@ + code),
            None => None,
        }
    }
}

/// The mnemonic that a destination or jump field is looked up by: the field
/// itself, or `null` for a field that is absent or empty.
pub open spec fn field_key(field: Seq<char>) -> Seq<char> {
    if field.len() == 0 {
        "null"@
    } else {
        field
    }
}

/// The word of a computation: `111`, the seven bits of the computation,
/// the three of the destination and the three of the jump. Fails where one
/// of the three mnemonics is in no table.
pub open spec fn compute_word(text: Seq<char>) -> Result<Seq<char>, ErrorKind> {
    match (
        comp_bits(comp_field(text)),
        dest_code(field_key(dest_field(text))),
        jump_code(field_key(jump_field(text))),
    ) {
        (Some(c), Some(d), Some(j)) => Ok("111"@ + c + d + j),
        _ => Err(ErrorKind::UnknownMnemonic),
    }
}

/// The address that the operand of `@` stands for: the value of an integer
/// literal, which must lie in `0..=32767`; else the address of a symbol,
/// which is bound as a variable where it was not bound before.
pub open spec fn resolve(s: Symbols, operand: Seq<char>) -> (Symbols, Result<i16, ErrorKind>) {
    match classify_literal(literal_value(operand)) {
        Literal::Address(address) => (s, Ok(address)),
        Literal::OutOfRange => (s, Err(ErrorKind::AddressOutOfRange)),
        Literal::NotLiteral => if is_symbol(operand) {
            allocate(s, operand)
        } else {
            (s, Err(ErrorKind::MalformedOperand))
        },
    }
}

/// The word of an instruction and the symbols after it was encoded: an
/// addressing instruction where the text opens with `@`, else a computation.
pub open spec fn encode(s: Symbols, text: Seq<char>) -> (Symbols, Result<Seq<char>, ErrorKind>) {
    if is_address_line(text) {
        match resolve(s, operand(text)) {
            (after, Ok(address)) => (after, address_word(address)),
            (after, Err(kind)) => (after, Err(kind)),
        }
    } else {
        (s, compute_word(text))
    }
}

/// A word or the failure to make one, the word by its characters.
pub open spec fn word_view(r: Result<String, ErrorKind>) -> Result<Seq<char>, ErrorKind> {
    match r {
        Ok(word) => Ok(word@),
        Err(kind) => Err(kind),
    }
}

/// The encoder, with the words it was given to write, in order.
pub struct Code {
    lines: Vec<String>,
}

impl View for Code {
    type V = Seq<Seq<char>>;

    closed spec fn view(&self) -> Seq<Seq<char>> {
        texts(self.lines@)
    }
}

impl Code {
    /// An encoder that has written nothing.
    pub fn new() -> (code: Code)
        ensures
            code@ == Seq::<Seq<char>>::empty(),
    {
        let code = Code { lines: Vec::new() };
        assert(code@ =~= Seq::<Seq<char>>::empty());
        code
    }

    /// The word of the addressing instruction that loads `a`.
    pub fn a_instruction(&self, a: i16) -> (r: Result<String, ErrorKind>)
        ensures
            word_view(r) == address_word(a),
    {
        if a < 0 {
            return Err(ErrorKind::AddressOutOfRange);
        }
        let mut digits: Vec<bool> = Vec::new();
        let mut rest: u16 = a as u16;
        proof {
            lemma2_to64();
        }
        while digits.len() < 15
            invariant
                0 <= a,
                digits.len() <= 15,
                rest == a as int / pow2(digits.len() as nat) as int,
                forall|k: int|
                    0 <= k < digits.len() ==> digits[k] == ((a as int / pow2(k as nat) as int) % 2
                        == 1),
            decreases 15 - digits.len(),
        {
            proof {
                let k = digits.len() as nat;
                lemma_pow2_pos(k);
                lemma_pow2_unfold(k + 1);
                lemma_div_denominator(a as int, pow2(k) as int, 2);
            }
            digits.push(rest % 2 == 1);
            rest = rest / 2;
        }
        let mut word = String::new();
        word.append("0");
        proof {
            reveal_strlit("0");
            reveal_strlit("1");
        }
        let ghost target = address_word(a)->Ok_0;
        let mut i: usize = 0;
        while i < 15
            invariant
                0 <= a,
                i <= 15,
                digits.len() == 15,
                target == address_word(a)->Ok_0,
                forall|k: int|
                    0 <= k < 15 ==> digits[k] == ((a as int / pow2(k as nat) as int) % 2 == 1),
                "0"@ == seq!['0'],
                "1"@ == seq!['1'],
                word@ == target.take(i + 1),
            decreases 15 - i,
        {
            if digits[14 - i] {
                word.append("1");
            } else {
                word.append("0");
            }
            proof {
                assert(target[i + 1] == bit_char(a as int, (14 - i) as nat));
                assert(word@ =~= target.take(i + 2));
            }
            i += 1;
        }
        proof {
            assert(target.take(16) =~= target);
        }
        Ok(word)
    }

    /// The word of the computation `a`, by the tables of `table`.
    pub fn c_instruction(&self, a: &String, table: &Table) -> (r: Result<String, ErrorKind>)
        requires
            table.wf(),
        ensures
            word_view(r) == compute_word(a@),
    {
        let text: &str = a.as_str();
        let v: Vec<char> = to_chars(text);
        let f: Fields = split_fields(&v);
        let comp: &str = text.substring_char(f.comp.0, f.comp.1);
        let at: usize = find_char(&v, f.comp.0, f.comp.1, 'M');
        let memory: bool = at < f.comp.1;
        proof {
            lemma_find_props(comp@, 'M');
        }
        let comp_code: Option<&String> = if memory {
            table.get_a1(comp)
        } else {
            table.get_a0(comp)
        };
        let dest: &str = if f.dest.0 == f.dest.1 {
            "null"
        } else {
            text.substring_char(f.dest.0, f.dest.1)
        };
        let jump: &str = if f.jump.0 == f.jump.1 {
            "null"
        } else {
            text.substring_char(f.jump.0, f.jump.1)
        };
        let dest_code: Option<&String> = table.get_dst(dest);
        let jump_code: Option<&String> = table.get_jmp(jump);
        match (comp_code, dest_code, jump_code) {
            (Some(c), Some(d), Some(j)) => {
                let mut word = String::new();
                word.append("111");
                if memory {
                    word.append("1");
                } else {
                    word.append("0");
                }
                word.append(c.as_str());
                word.append(d.as_str());
                word.append(j.as_str());
                proof {
                    let bits = comp_bits(comp_field(a@))->Some_0;
                    assert(word@ =~= "111"@ + bits + d@ + j@);
                }
                Ok(word)
            },
            _ => Err(ErrorKind::UnknownMnemonic),
        }
    }

    /// The address that `operand`, trimmed, stands for as the operand of
    /// `@`. Binds it as a variable where it is a symbol that was not bound.
    pub fn resolve(&self, operand: &str, table: &mut Table) -> (r: Result<i16, ErrorKind>)
        requires
            old(table).wf(),
        ensures
            final(table).wf(),
            (final(table)@, r) == resolve(old(table)@, trim(operand@)),
    {
        let v: Vec<char> = to_chars(operand);
        proof {
            assert(v@.subrange(0, v.len() as int) =~= v@);
        }
        let (from, to) = trim_range(&v, 0, v.len());
        match parse_literal(&v, from, to) {
            Literal::Address(address) => Ok(address),
            Literal::OutOfRange => Err(ErrorKind::AddressOutOfRange),
            Literal::NotLiteral => {
                if is_symbol_range(&v, from, to) {
                    table.allocate_variable(operand.substring_char(from, to))
                } else {
                    Err(ErrorKind::MalformedOperand)
                }
            },
        }
    }

    /// The word of the instruction `command`. Binds the operand of an
    /// addressing instruction as a variable where it is a symbol that was
    /// not bound.
    pub fn encode(&self, command: &String, table: &mut Table) -> (r: Result<String, ErrorKind>)
        requires
            old(table).wf(),
        ensures
            final(table).wf(),
            (final(table)@, word_view(r)) == encode(old(table)@, command@),
    {
        if starts_with(command, '@') {
            let text: &str = command.as_str();
            let rest: &str = text.substring_char(1, text.unicode_len());
            proof {
                assert(rest@ =~= command@.skip(1));
            }
            match self.resolve(rest, table) {
                Ok(address) => self.a_instruction(address),
                Err(kind) => Err(kind),
            }
        } else {
            self.c_instruction(command, table)
        }
    }

    /// Takes `text` as the next word written.
    pub fn write(&mut self, text: &str)
        ensures
            final(self)@ == old(self)@.push(text@),
    {
        self.lines.push(text.to_string());
        assert(self@ =~= old(self)@.push(text@));
    }

    /// The words written, in order.
    pub fn into_lines(self) -> (lines: Vec<String>)
        ensures
            texts(lines@) == self@,
    {
        self.lines
    }
}

} // verus!
