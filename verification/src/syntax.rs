//! The grammar of a source line: comments, labels, operands of `@`, and the
//! three fields of a computation.

use crate::text::{find, find_char, trim, trim_range};
use vstd::prelude::*;

verus! {

/// A decimal digit.
pub open spec fn is_digit(c: char) -> bool {
    0x30 <= c as u32 <= 0x39
}

/// The number a decimal digit stands for.
pub open spec fn digit_value(c: char) -> nat {
    (c as u32 - 0x30) as nat
}

/// A letter of the Latin alphabet, in either case.
pub open spec fn is_letter(c: char) -> bool {
    0x41 <= c as u32 <= 0x5A || 0x61 <= c as u32 <= 0x7A
}

/// A character that may occur in a symbol: a letter, a digit or `_`.
pub open spec fn is_symbol_char(c: char) -> bool {
    is_letter(c) || is_digit(c) || c == '_'
}

/// A symbol: letters, digits and `_`, at least one, and no digit in front.
pub open spec fn is_symbol(s: Seq<char>) -> bool {
    &&& s.len() > 0
    &&& !is_digit(s[0])
    &&& forall|i: int| 0 <= i < s.len() ==> is_symbol_char(#[trigger] s[i])
}

/// One or more decimal digits.
pub open spec fn is_digits(s: Seq<char>) -> bool {
    &&& s.len() > 0
    &&& forall|i: int| 0 <= i < s.len() ==> is_digit(#[trigger] s[i])
}

/// The number that a string of decimal digits denotes.
pub open spec fn decimal_value(s: Seq<char>) -> nat
    decreases s.len(),
{
    if s.len() == 0 {
        0
    } else {
        decimal_value(s.drop_last()) * 10 + digit_value(s.last())
    }
}

/// The value of `s` as an integer literal: decimal digits, with `+` or `-`
/// in front or without a sign. `None` where `s` is no such literal.
pub open spec fn literal_value(s: Seq<char>) -> Option<int> {
    if s.len() > 0 && s[0] == '-' && is_digits(s.skip(1)) {
        Some(-(decimal_value(s.skip(1)) as int))
    } else if s.len() > 0 && s[0] == '+' && is_digits(s.skip(1)) {
        Some(decimal_value(s.skip(1)) as int)
    } else if is_digits(s) {
        Some(decimal_value(s) as int)
    } else {
        None
    }
}

/// What is left of a source line once the comment (all from the first `/`
/// on) and the white space around the rest are taken away. Empty for a
/// blank line and for a line that is a comment only.
pub open spec fn instruction_text(line: Seq<char>) -> Seq<char> {
    trim(line.take(find(line, '/') as int))
}

/// Whether the text is a label definition: it opens with `(`.
pub open spec fn is_label_line(text: Seq<char>) -> bool {
    text.len() > 0 && text[0] == '('
}

/// Whether the text is an addressing instruction: it opens with `@`.
pub open spec fn is_address_line(text: Seq<char>) -> bool {
    text.len() > 0 && text[0] == '@'
}

/// The name that a label definition `(NAME)` binds. `None` where the text
/// does not close with `)` or what stands between the brackets, trimmed, is
/// no symbol.
pub open spec fn label_name(text: Seq<char>) -> Option<Seq<char>> {
    if text.len() >= 2 && text[0] == '(' && text.last() == ')' && is_symbol(
        trim(text.subrange(1, text.len() - 1)),
    ) {
        Some(trim(text.subrange(1, text.len() - 1)))
    } else {
        None
    }
}

/// The operand of an addressing instruction: what follows `@`, trimmed.
pub open spec fn operand(text: Seq<char>) -> Seq<char> {
    trim(text.skip(1))
}

/// What follows the destination in a computation: all after the first `=`,
/// or the whole text where there is no `=`.
pub open spec fn after_dest(text: Seq<char>) -> Seq<char> {
    if find(text, '=') < text.len() {
        text.skip(find(text, '=') as int + 1)
    } else {
        text
    }
}

/// The destination field: what stands before the first `=`, trimmed; empty
/// where there is no `=`.
pub open spec fn dest_field(text: Seq<char>) -> Seq<char> {
    if find(text, '=') < text.len() {
        trim(text.take(find(text, '=') as int))
    } else {
        Seq::empty()
    }
}

/// The computation field: what stands between the destination and the first
/// `;` after it, trimmed.
pub open spec fn comp_field(text: Seq<char>) -> Seq<char> {
    trim(after_dest(text).take(find(after_dest(text), ';') as int))
}

/// The jump field: what follows the first `;` after the destination,
/// trimmed; empty where there is no `;`.
pub open spec fn jump_field(text: Seq<char>) -> Seq<char> {
    if find(after_dest(text), ';') < after_dest(text).len() {
        trim(after_dest(text).skip(find(after_dest(text), ';') as int + 1))
    } else {
        Seq::empty()
    }
}

/// Decides `is_digit`.
pub fn is_decimal_digit(c: char) -> (r: bool)
    ensures
        r == is_digit(c),
{
    let n: u32 = c as u32;
    0x30 <= n && n <= 0x39
}

/// Decides `is_symbol_char`.
pub fn is_symbol_character(c: char) -> (r: bool)
    ensures
        r == is_symbol_char(c),
{
    let n: u32 = c as u32;
    (0x41 <= n && n <= 0x5A) || (0x61 <= n && n <= 0x7A) || (0x30 <= n && n <= 0x39) || c == '_'
}

/// Decides `is_symbol` on the window `[from, to)` of `v`.
pub fn is_symbol_range(v: &Vec<char>, from: usize, to: usize) -> (r: bool)
    requires
        from <= to <= v.len(),
    ensures
        r == is_symbol(v@.subrange(from as int, to as int)),
{
    let ghost w = v@.subrange(from as int, to as int);
    if from == to || is_decimal_digit(v[from]) {
        assert(from < to ==> w[0] == v@[from as int]);
        return false;
    }
    let mut i: usize = from;
    while i < to
        invariant
            from <= i <= to <= v.len(),
            w == v@.subrange(from as int, to as int),
            forall|j: int| 0 <= j < i - from ==> is_symbol_char(#[trigger] w[j]),
        decreases to - i,
    {
        if !is_symbol_character(v[i]) {
            assert(w[i - from] == v@[i as int]);
            return false;
        }
        i += 1;
    }
    assert(w[0] == v@[from as int]);
    true
}

/// An integer literal as the assembler reads it.
#[derive(Clone, Copy, Debug, PartialEq, Eq, Structural)]
pub enum Literal {
    /// The text is no integer literal.
    NotLiteral,
    /// A literal whose value is an address: it lies in `0..=32767`.
    Address(i16),
    /// A literal whose value is no address.
    OutOfRange,
}

/// How `value`, the result of `literal_value`, reads as a `Literal`.
pub open spec fn classify_literal(value: Option<int>) -> Literal {
    match value {
        None => Literal::NotLiteral,
        Some(n) => if 0 <= n <= 32767 {
            Literal::Address(n as i16)
        } else {
            Literal::OutOfRange
        },
    }
}

/// Appending a digit to a string of digits multiplies its value by ten and
/// adds the digit.
pub proof fn lemma_decimal_value_push(s: Seq<char>, n: int)
    requires
        0 <= n < s.len(),
    ensures
        decimal_value(s.take(n + 1)) == decimal_value(s.take(n)) * 10 + digit_value(s[n]),
{
    assert(s.take(n + 1).drop_last() =~= s.take(n));
}

/// Reads the window `[from, to)` of `v` as an integer literal.
#[verifier::loop_isolation(false)]
pub fn parse_literal(v: &Vec<char>, from: usize, to: usize) -> (r: Literal)
    requires
        from <= to <= v.len(),
    ensures
        r == classify_literal(literal_value(v@.subrange(from as int, to as int))),
{
    let ghost w = v@.subrange(from as int, to as int);
    let mut start: usize = from;
    let mut negative: bool = false;
    if from < to && (v[from] == '-' || v[from] == '+') {
        negative = v[from] == '-';
        start = from + 1;
    }
    let ghost digits = v@.subrange(start as int, to as int);
    proof {
        if from < to {
            assert(w[0] == v@[from as int]);
        }
        if start > from {
            assert(w.skip(1) =~= digits);
            assert(!is_digit(w[0]));
        }
    }
    if start == to {
        return Literal::NotLiteral;
    }
    let mut value: u32 = 0;
    let mut over: bool = false;
    let mut i: usize = start;
    while i < to
        invariant
            start <= i <= to <= v.len(),
            digits == v@.subrange(start as int, to as int),
            forall|j: int| 0 <= j < i - start ==> is_digit(#[trigger] digits[j]),
            !over ==> value == decimal_value(digits.take(i - start)) && value <= 32767,
            over ==> decimal_value(digits.take(i - start)) > 32767,
        decreases to - i,
    {
        let c: char = v[i];
        proof {
            assert(digits[i - start] == c);
            lemma_decimal_value_push(digits, i - start);
        }
        if !is_decimal_digit(c) {
            proof {
                if start > from {
                    assert(!is_digits(digits));
                } else {
                    assert(w =~= digits);
                }
            }
            return Literal::NotLiteral;
        }
        if !over {
            value = value * 10 + (c as u32 - 0x30);
            if value > 32767 {
                over = true;
            }
        }
        i += 1;
    }
    proof {
        assert(digits.take(to - start) =~= digits);
        assert(is_digits(digits));
        if start == from {
            assert(w =~= digits);
            assert(w[0] == digits[0]);
        }
    }
    if over {
        Literal::OutOfRange
    } else if negative {
        if value == 0 {
            Literal::Address(0)
        } else {
            Literal::OutOfRange
        }
    } else {
        Literal::Address(value as i16)
    }
}

/// The window of a line that holds its instruction text.
pub fn text_range(v: &Vec<char>) -> (r: (usize, usize))
    ensures
        r.0 <= r.1 <= v.len(),
        v@.subrange(r.0 as int, r.1 as int) == instruction_text(v@),
{
    let end: usize = find_char(v, 0, v.len(), '/');
    proof {
        assert(v@.subrange(0, v.len() as int) =~= v@);
        assert(v@.subrange(0, end as int) =~= v@.take(end as int));
    }
    trim_range(v, 0, end)
}

/// The window of a label definition that holds its name, or `None` where
/// the definition is malformed.
pub fn label_range(v: &Vec<char>) -> (r: Option<(usize, usize)>)
    ensures
        match r {
            Some((from, to)) => from <= to <= v.len() && label_name(v@) == Some(
                v@.subrange(from as int, to as int),
            ),
            None => label_name(v@) is None,
        },
{
    let n: usize = v.len();
    if n < 2 || v[0] != '(' || v[n - 1] != ')' {
        return None;
    }
    let (from, to) = trim_range(v, 1, n - 1);
    if is_symbol_range(v, from, to) {
        Some((from, to))
    } else {
        None
    }
}

/// The windows of a computation that hold its three fields.
pub struct Fields {
    pub dest: (usize, usize),
    pub comp: (usize, usize),
    pub jump: (usize, usize),
}

/// Splits a computation into its destination, computation and jump fields.
pub fn split_fields(v: &Vec<char>) -> (f: Fields)
    ensures
        f.dest.0 <= f.dest.1 <= v.len(),
        f.comp.0 <= f.comp.1 <= v.len(),
        f.jump.0 <= f.jump.1 <= v.len(),
        v@.subrange(f.dest.0 as int, f.dest.1 as int) == dest_field(v@),
        v@.subrange(f.comp.0 as int, f.comp.1 as int) == comp_field(v@),
        v@.subrange(f.jump.0 as int, f.jump.1 as int) == jump_field(v@),
{
    let n: usize = v.len();
    let equals: usize = find_char(v, 0, n, '=');
    proof {
        assert(v@.subrange(0, n as int) =~= v@);
    }
    let dest: (usize, usize) = if equals < n {
        proof {
            assert(v@.subrange(0, equals as int) =~= v@.take(equals as int));
        }
        trim_range(v, 0, equals)
    } else {
        proof {
            assert(v@.subrange(0, 0) =~= Seq::<char>::empty());
        }
        (0, 0)
    };
    let start: usize = if equals < n {
        equals + 1
    } else {
        0
    };
    let ghost rest = v@.subrange(start as int, n as int);
    proof {
        assert(rest =~= after_dest(v@));
    }
    let semicolon: usize = find_char(v, start, n, ';');
    proof {
        assert(v@.subrange(start as int, semicolon as int) =~= rest.take(semicolon - start));
    }
    let comp: (usize, usize) = trim_range(v, start, semicolon);
    let jump: (usize, usize) = if semicolon < n {
        proof {
            assert(v@.subrange(semicolon as int + 1, n as int) =~= rest.skip(
                semicolon - start + 1,
            ));
        }
        trim_range(v, semicolon + 1, n)
    } else {
        proof {
            assert(v@.subrange(0, 0) =~= Seq::<char>::empty());
        }
        (0, 0)
    };
    Fields { dest, comp, jump }
}

} // verus!
