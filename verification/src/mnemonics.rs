//! The fixed vocabulary: computation, destination and jump mnemonics with
//! their codes, and the predefined symbols with their addresses.

use vstd::prelude::*;

verus! {

/// Code of a computation that does not read memory.
pub open spec fn comp_no_mem_code(m: Seq<char>) -> Option<Seq<char>> {
    if m == "0"@ {
        Some("101010"@)
    } else if m == "1"@ {
        Some("111111"@)
    } else if m == "-1"@ {
        Some("111010"@)
    } else if m == "D"@ {
        Some("001100"@)
    } else if m == "A"@ {
        Some("110000"@)
    } else if m == "!D"@ {
        Some("001101"@)
    } else if m == "!A"@ {
        Some("110001"@)
    } else if m == "-D"@ {
        Some("001111"@)
    } else if m == "-A"@ {
        Some("110011"@)
    } else if m == "D+1"@ {
        Some("011111"@)
    } else if m == "A+1"@ {
        Some("110111"@)
    } else if m == "D-1"@ {
        Some("001110"@)
    } else if m == "A-1"@ {
        Some("110010"@)
    } else if m == "D+A"@ {
        Some("000010"@)
    } else if m == "D-A"@ {
        Some("010011"@)
    } else if m == "A-D"@ {
        Some("000111"@)
    } else if m == "D&A"@ {
        Some("000000"@)
    } else if m == "D|A"@ {
        Some("010101"@)
    } else {
        None
    }
}

/// Code of a computation that reads memory (the operand `M`).
pub open spec fn comp_mem_code(m: Seq<char>) -> Option<Seq<char>> {
    if m == "M"@ {
        Some("110000"@)
    } else if m == "!M"@ {
        Some("110001"@)
    } else if m == "-M"@ {
        Some("110011"@)
    } else if m == "M+1"@ {
        Some("110111"@)
    } else if m == "M-1"@ {
        Some("110010"@)
    } else if m == "D+M"@ {
        Some("000010"@)
    } else if m == "D-M"@ {
        Some("010011"@)
    } else if m == "M-D"@ {
        Some("000111"@)
    } else if m == "D&M"@ {
        Some("000000"@)
    } else if m == "D|M"@ {
        Some("010101"@)
    } else {
        None
    }
}

/// Code of a destination.
pub open spec fn dest_code(m: Seq<char>) -> Option<Seq<char>> {
    if m == "null"@ {
        Some("000"@)
    } else if m == "M"@ {
        Some("001"@)
    } else if m == "D"@ {
        Some("010"@)
    } else if m == "MD"@ {
        Some("011"@)
    } else if m == "A"@ {
        Some("100"@)
    } else if m == "AM"@ {
        Some("101"@)
    } else if m == "AD"@ {
        Some("110"@)
    } else if m == "AMD"@ {
        Some("111"@)
    } else {
        None
    }
}

/// Code of a jump.
pub open spec fn jump_code(m: Seq<char>) -> Option<Seq<char>> {
    if m == "null"@ {
        Some("000"@)
    } else if m == "JGT"@ {
        Some("001"@)
    } else if m == "JEQ"@ {
        Some("010"@)
    } else if m == "JGE"@ {
        Some("011"@)
    } else if m == "JLT"@ {
        Some("100"@)
    } else if m == "JNE"@ {
        Some("101"@)
    } else if m == "JLE"@ {
        Some("110"@)
    } else if m == "JMP"@ {
        Some("111"@)
    } else {
        None
    }
}

/// Address of a predefined symbol.
pub open spec fn predefined(name: Seq<char>) -> Option<i16> {
    if name == "R0"@ {
        Some(0i16)
    } else if name == "R1"@ {
        Some(1i16)
    } else if name == "R2"@ {
        Some(2i16)
    } else if name == "R3"@ {
        Some(3i16)
    } else if name == "R4"@ {
        Some(4i16)
    } else if name == "R5"@ {
        Some(5i16)
    } else if name == "R6"@ {
        Some(6i16)
    } else if name == "R7"@ {
        Some(7i16)
    } else if name == "R8"@ {
        Some(8i16)
    } else if name == "R9"@ {
        Some(9i16)
    } else if name == "R10"@ {
        Some(10i16)
    } else if name == "R11"@ {
        Some(11i16)
    } else if name == "R12"@ {
        Some(12i16)
    } else if name == "R13"@ {
        Some(13i16)
    } else if name == "R14"@ {
        Some(14i16)
    } else if name == "R15"@ {
        Some(15i16)
    } else if name == "SCREEN"@ {
        Some(16384i16)
    } else if name == "KBD"@ {
        Some(24576i16)
    } else if name == "SP"@ {
        Some(0i16)
    } else if name == "LCL"@ {
        Some(1i16)
    } else if name == "ARG"@ {
        Some(2i16)
    } else if name == "THIS"@ {
        Some(3i16)
    } else if name == "THAT"@ {
        Some(4i16)
    } else {
        None
    }
}

/// Whether `s` is the one character `a`.
pub open spec fn spells1(s: Seq<char>, a: char) -> bool {
    s.len() == 1 && s[0] == a
}

/// Whether `s` is the 2 characters `a`, `b`, in this order.
pub open spec fn spells2(s: Seq<char>, a: char, b: char) -> bool {
    s.len() == 2 && s[0] == a && s[1] == b
}

/// Whether `s` is the 3 characters `a`, `b`, `c`, in this order.
pub open spec fn spells3(s: Seq<char>, a: char, b: char, c: char) -> bool {
    s.len() == 3 && s[0] == a && s[1] == b && s[2] == c
}

/// Whether `s` is the 4 characters `a`, `b`, `c`, `d`, in this order.
pub open spec fn spells4(s: Seq<char>, a: char, b: char, c: char, d: char) -> bool {
    s.len() == 4 && s[0] == a && s[1] == b && s[2] == c && s[3] == d
}

/// Whether `s` is the 6 characters `a`, `b`, `c`, `d`, `e`, `f`, in this order.
pub open spec fn spells6(
    s: Seq<char>,
    a: char,
    b: char,
    c: char,
    d: char,
    e: char,
    f: char,
) -> bool {
    s.len() == 6 && s[0] == a && s[1] == b && s[2] == c && s[3] == d && s[4] == e && s[5] == f
}

/// Whether `s` is `width` binary digits.
pub open spec fn is_bits(s: Seq<char>, width: nat) -> bool {
    &&& s.len() == width
    &&& forall|i: int| 0 <= i < s.len() ==> #[trigger] s[i] == '0' || s[i] == '1'
}

/// What the mnemonics of computations without memory are made of.
pub proof fn lemma_comp_no_mem_mnemonics()
    ensures
        spells1("0"@, '0'),
        spells1("1"@, '1'),
        spells2("-1"@, '-', '1'),
        spells1("D"@, 'D'),
        spells1("A"@, 'A'),
        spells2("!D"@, '!', 'D'),
        spells2("!A"@, '!', 'A'),
        spells2("-D"@, '-', 'D'),
        spells2("-A"@, '-', 'A'),
        spells3("D+1"@, 'D', '+', '1'),
        spells3("A+1"@, 'A', '+', '1'),
        spells3("D-1"@, 'D', '-', '1'),
        spells3("A-1"@, 'A', '-', '1'),
        spells3("D+A"@, 'D', '+', 'A'),
        spells3("D-A"@, 'D', '-', 'A'),
        spells3("A-D"@, 'A', '-', 'D'),
        spells3("D&A"@, 'D', '&', 'A'),
        spells3("D|A"@, 'D', '|', 'A'),
{
    reveal_strlit("0");
    reveal_strlit("1");
    reveal_strlit("-1");
    reveal_strlit("D");
    reveal_strlit("A");
    reveal_strlit("!D");
    reveal_strlit("!A");
    reveal_strlit("-D");
    reveal_strlit("-A");
    reveal_strlit("D+1");
    reveal_strlit("A+1");
    reveal_strlit("D-1");
    reveal_strlit("A-1");
    reveal_strlit("D+A");
    reveal_strlit("D-A");
    reveal_strlit("A-D");
    reveal_strlit("D&A");
    reveal_strlit("D|A");
}

/// What the mnemonics of computations on memory are made of.
pub proof fn lemma_comp_mem_mnemonics()
    ensures
        spells1("M"@, 'M'),
        spells2("!M"@, '!', 'M'),
        spells2("-M"@, '-', 'M'),
        spells3("M+1"@, 'M', '+', '1'),
        spells3("M-1"@, 'M', '-', '1'),
        spells3("D+M"@, 'D', '+', 'M'),
        spells3("D-M"@, 'D', '-', 'M'),
        spells3("M-D"@, 'M', '-', 'D'),
        spells3("D&M"@, 'D', '&', 'M'),
        spells3("D|M"@, 'D', '|', 'M'),
{
    reveal_strlit("M");
    reveal_strlit("!M");
    reveal_strlit("-M");
    reveal_strlit("M+1");
    reveal_strlit("M-1");
    reveal_strlit("D+M");
    reveal_strlit("D-M");
    reveal_strlit("M-D");
    reveal_strlit("D&M");
    reveal_strlit("D|M");
}

/// What the destination mnemonics are made of.
pub proof fn lemma_dest_mnemonics()
    ensures
        spells4("null"@, 'n', 'u', 'l', 'l'),
        spells1("M"@, 'M'),
        spells1("D"@, 'D'),
        spells2("MD"@, 'M', 'D'),
        spells1("A"@, 'A'),
        spells2("AM"@, 'A', 'M'),
        spells2("AD"@, 'A', 'D'),
        spells3("AMD"@, 'A', 'M', 'D'),
{
    reveal_strlit("null");
    reveal_strlit("M");
    reveal_strlit("D");
    reveal_strlit("MD");
    reveal_strlit("A");
    reveal_strlit("AM");
    reveal_strlit("AD");
    reveal_strlit("AMD");
}

/// What the jump mnemonics are made of.
pub proof fn lemma_jump_mnemonics()
    ensures
        spells4("null"@, 'n', 'u', 'l', 'l'),
        spells3("JGT"@, 'J', 'G', 'T'),
        spells3("JEQ"@, 'J', 'E', 'Q'),
        spells3("JGE"@, 'J', 'G', 'E'),
        spells3("JLT"@, 'J', 'L', 'T'),
        spells3("JNE"@, 'J', 'N', 'E'),
        spells3("JLE"@, 'J', 'L', 'E'),
        spells3("JMP"@, 'J', 'M', 'P'),
{
    reveal_strlit("null");
    reveal_strlit("JGT");
    reveal_strlit("JEQ");
    reveal_strlit("JGE");
    reveal_strlit("JLT");
    reveal_strlit("JNE");
    reveal_strlit("JLE");
    reveal_strlit("JMP");
}

/// What the names of the predefined symbols are made of.
pub proof fn lemma_predefined_names()
    ensures
        spells2("R0"@, 'R', '0'),
        spells2("R1"@, 'R', '1'),
        spells2("R2"@, 'R', '2'),
        spells2("R3"@, 'R', '3'),
        spells2("R4"@, 'R', '4'),
        spells2("R5"@, 'R', '5'),
        spells2("R6"@, 'R', '6'),
        spells2("R7"@, 'R', '7'),
        spells2("R8"@, 'R', '8'),
        spells2("R9"@, 'R', '9'),
        spells3("R10"@, 'R', '1', '0'),
        spells3("R11"@, 'R', '1', '1'),
        spells3("R12"@, 'R', '1', '2'),
        spells3("R13"@, 'R', '1', '3'),
        spells3("R14"@, 'R', '1', '4'),
        spells3("R15"@, 'R', '1', '5'),
        spells6("SCREEN"@, 'S', 'C', 'R', 'E', 'E', 'N'),
        spells3("KBD"@, 'K', 'B', 'D'),
        spells2("SP"@, 'S', 'P'),
        spells3("LCL"@, 'L', 'C', 'L'),
        spells3("ARG"@, 'A', 'R', 'G'),
        spells4("THIS"@, 'T', 'H', 'I', 'S'),
        spells4("THAT"@, 'T', 'H', 'A', 'T'),
{
    reveal_strlit("R0");
    reveal_strlit("R1");
    reveal_strlit("R2");
    reveal_strlit("R3");
    reveal_strlit("R4");
    reveal_strlit("R5");
    reveal_strlit("R6");
    reveal_strlit("R7");
    reveal_strlit("R8");
    reveal_strlit("R9");
    reveal_strlit("R10");
    reveal_strlit("R11");
    reveal_strlit("R12");
    reveal_strlit("R13");
    reveal_strlit("R14");
    reveal_strlit("R15");
    reveal_strlit("SCREEN");
    reveal_strlit("KBD");
    reveal_strlit("SP");
    reveal_strlit("LCL");
    reveal_strlit("ARG");
    reveal_strlit("THIS");
    reveal_strlit("THAT");
}

/// What the computation codes are made of.
pub proof fn lemma_comp_codes()
    ensures
        spells6("101010"@, '1', '0', '1', '0', '1', '0'),
        spells6("111111"@, '1', '1', '1', '1', '1', '1'),
        spells6("111010"@, '1', '1', '1', '0', '1', '0'),
        spells6("001100"@, '0', '0', '1', '1', '0', '0'),
        spells6("110000"@, '1', '1', '0', '0', '0', '0'),
        spells6("001101"@, '0', '0', '1', '1', '0', '1'),
        spells6("110001"@, '1', '1', '0', '0', '0', '1'),
        spells6("001111"@, '0', '0', '1', '1', '1', '1'),
        spells6("110011"@, '1', '1', '0', '0', '1', '1'),
        spells6("011111"@, '0', '1', '1', '1', '1', '1'),
        spells6("110111"@, '1', '1', '0', '1', '1', '1'),
        spells6("001110"@, '0', '0', '1', '1', '1', '0'),
        spells6("110010"@, '1', '1', '0', '0', '1', '0'),
        spells6("000010"@, '0', '0', '0', '0', '1', '0'),
        spells6("010011"@, '0', '1', '0', '0', '1', '1'),
        spells6("000111"@, '0', '0', '0', '1', '1', '1'),
        spells6("000000"@, '0', '0', '0', '0', '0', '0'),
        spells6("010101"@, '0', '1', '0', '1', '0', '1'),
{
    reveal_strlit("101010");
    reveal_strlit("111111");
    reveal_strlit("111010");
    reveal_strlit("001100");
    reveal_strlit("110000");
    reveal_strlit("001101");
    reveal_strlit("110001");
    reveal_strlit("001111");
    reveal_strlit("110011");
    reveal_strlit("011111");
    reveal_strlit("110111");
    reveal_strlit("001110");
    reveal_strlit("110010");
    reveal_strlit("000010");
    reveal_strlit("010011");
    reveal_strlit("000111");
    reveal_strlit("000000");
    reveal_strlit("010101");
}

/// What the destination and jump codes are made of.
pub proof fn lemma_field_codes()
    ensures
        spells3("000"@, '0', '0', '0'),
        spells3("001"@, '0', '0', '1'),
        spells3("010"@, '0', '1', '0'),
        spells3("011"@, '0', '1', '1'),
        spells3("100"@, '1', '0', '0'),
        spells3("101"@, '1', '0', '1'),
        spells3("110"@, '1', '1', '0'),
        spells3("111"@, '1', '1', '1'),
{
    reveal_strlit("000");
    reveal_strlit("001");
    reveal_strlit("010");
    reveal_strlit("011");
    reveal_strlit("100");
    reveal_strlit("101");
    reveal_strlit("110");
    reveal_strlit("111");
}

} // verus!
