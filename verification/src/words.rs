//! What every word looks like: 16 binary digits, one word for each
//! instruction, and the digits of an address spell that address.

use crate::assembler::encode_pass;
use crate::code::{
    address_word, bit_char, comp_bits, compute_word, encode, field_key, resolve,
};
use crate::mnemonics::{
    comp_mem_code, comp_no_mem_code, dest_code, is_bits, jump_code, lemma_comp_codes,
    lemma_comp_mem_mnemonics, lemma_comp_no_mem_mnemonics, lemma_field_codes,
};
use crate::syntax::{
    comp_field, dest_field, instruction_text, is_address_line, is_label_line, jump_field,
    operand,
};
use crate::table::Symbols;
use vstd::arithmetic::div_mod::{
    lemma_div_denominator, lemma_fundamental_div_mod, lemma_fundamental_div_mod_converse,
    lemma_mod_bound,
};
use vstd::arithmetic::power2::{lemma2_to64, lemma_pow2_pos, lemma_pow2_unfold, pow2};
use vstd::prelude::*;

verus! {

/// Every mnemonic of the vocabulary has a code of fixed width: six binary
/// digits for a computation, three for a destination, three for a jump.
pub proof fn lemma_code_widths(m: Seq<char>)
    ensures
        comp_no_mem_code(m) matches Some(c) ==> is_bits(c, 6),
        comp_mem_code(m) matches Some(c) ==> is_bits(c, 6),
        dest_code(m) matches Some(c) ==> is_bits(c, 3),
        jump_code(m) matches Some(c) ==> is_bits(c, 3),
{
    lemma_comp_codes();
    lemma_field_codes();
}

/// The two tables of computations are told apart by the operand `M`: every
/// mnemonic of the table of computations on memory holds it, and no
/// mnemonic of the other table does.
pub proof fn lemma_comp_tables_apart(m: Seq<char>)
    ensures
        comp_mem_code(m) is Some ==> m.contains('M'),
        comp_no_mem_code(m) is Some ==> !m.contains('M'),
{
    lemma_comp_mem_mnemonics();
    lemma_comp_no_mem_mnemonics();
    if comp_mem_code(m) is Some {
        assert(m[0] == 'M' || (m.len() > 1 && m[1] == 'M') || (m.len() > 2 && m[2] == 'M'));
    }
    if comp_no_mem_code(m) is Some {
        assert forall|i: int| 0 <= i < m.len() implies m[i] != 'M' by {
            assert(i == 0 || i == 1 || i == 2);
        }
    }
}

/// The number that binary digits denote, the highest digit first.
pub open spec fn binary_value(s: Seq<char>) -> nat
    decreases s.len(),
{
    if s.len() == 0 {
        0
    } else {
        2 * binary_value(s.drop_last()) + if s.last() == '1' {
            1nat
        } else {
            0nat
        }
    }
}

/// The digits of `value` with the weights `2^(width - 1)` down to `2^0`.
pub open spec fn binary_digits(value: int, width: nat) -> Seq<char> {
    Seq::new(width, |i: int| bit_char(value, (width - 1 - i) as nat))
}

/// The low `width` digits of a number denote what is left of it on
/// division by `2^width`.
pub proof fn lemma_binary_value_of_digits(value: int, width: nat)
    requires
        0 <= value,
    ensures
        binary_value(binary_digits(value, width)) == value % (pow2(width) as int),
    decreases width,
{
    lemma2_to64();
    if width > 0 {
        let s = binary_digits(value, width);
        let half = value / 2;
        lemma_pow2_pos((width - 1) as nat);
        lemma_pow2_unfold(width);
        assert(s.drop_last() =~= binary_digits(half, (width - 1) as nat)) by {
            assert forall|i: int| 0 <= i < width - 1 implies s[i] == bit_char(
                half,
                (width - 2 - i) as nat,
            ) by {
                let k = (width - 1 - i) as nat;
                lemma_pow2_pos((k - 1) as nat);
                lemma_pow2_unfold(k);
                lemma_div_denominator(
                    value,
                    2,
                    pow2((k - 1) as nat) as int,
                );
            }
        }
        lemma_binary_value_of_digits(half, (width - 1) as nat);
        assert(s.last() == bit_char(value, 0));
        let p = pow2((width - 1) as nat) as int;
        assert(value % (2 * p) == 2 * (half % p) + value % 2) by {
            lemma_fundamental_div_mod(value, 2);
            lemma_fundamental_div_mod(half, p);
            lemma_mod_bound(half, p);
            let q = half / p;
            let r = 2 * (half % p) + value % 2;
            assert(value == 2 * (p * q + half % p) + value % 2);
            assert(value == (2 * p) * q + r) by (nonlinear_arith)
                requires
                    value == 2 * (p * q + half % p) + value % 2,
                    r == 2 * (half % p) + value % 2,
            ;
            lemma_fundamental_div_mod_converse(value, 2 * p, q, r);
        }
    }
}

/// The word of an addressing instruction is 16 binary digits, and they
/// denote the address.
pub proof fn lemma_address_word(address: i16)
    ensures
        address_word(address) is Ok <==> address >= 0,
        address_word(address) matches Ok(w) ==> is_bits(w, 16) && w[0] == '0' && binary_value(w)
            == address,
{
    if address >= 0 {
        let w = address_word(address)->Ok_0;
        let low = binary_digits(address as int, 15);
        assert(w =~= seq!['0'] + low);
        lemma_binary_value_of_digits(address as int, 15);
        lemma2_to64();
        lemma_binary_value_prefix_zero(low);
    }
}

/// A `0` in front of binary digits does not change what they denote.
pub proof fn lemma_binary_value_prefix_zero(s: Seq<char>)
    ensures
        binary_value(seq!['0'] + s) == binary_value(s),
    decreases s.len(),
{
    let t = seq!['0'] + s;
    if s.len() == 0 {
        assert(t.drop_last() =~= Seq::<char>::empty());
        assert(binary_value(t.drop_last()) == 0);
        assert(t.last() == '0');
    } else {
        assert(t.drop_last() =~= seq!['0'] + s.drop_last());
        assert(t.last() == s.last());
        lemma_binary_value_prefix_zero(s.drop_last());
    }
}

/// The word of a computation is 16 binary digits that open with `111`.
pub proof fn lemma_compute_word(text: Seq<char>)
    ensures
        compute_word(text) matches Ok(w) ==> is_bits(w, 16) && w[0] == '1' && w[1] == '1' && w[2]
            == '1',
{
    if compute_word(text) is Ok {
        let w = compute_word(text)->Ok_0;
        let c = comp_bits(comp_field(text))->Some_0;
        lemma_code_widths(comp_field(text));
        lemma_code_widths(field_key(dest_field(text)));
        lemma_code_widths(field_key(jump_field(text)));
        reveal_strlit("111");
        reveal_strlit("1");
        reveal_strlit("0");
        assert(is_bits(c, 7));
    }
}

/// Every word that the encoder makes is 16 binary digits.
pub proof fn lemma_encode_word(s: Symbols, text: Seq<char>)
    ensures
        encode(s, text).1 matches Ok(w) ==> is_bits(w, 16),
{
    lemma_compute_word(text);
    if is_address_line(text) {
        match resolve(s, operand(text)) {
            (_, Ok(address)) => {
                lemma_address_word(address);
            },
            (_, Err(_)) => {},
        }
    }
}

/// The number of instructions among the first `n` lines: the lines that
/// hold a command and are no label definition.
pub open spec fn instruction_count(lines: Seq<Seq<char>>, n: nat) -> nat
    decreases n,
{
    if n == 0 {
        0
    } else {
        let text = instruction_text(lines[n - 1]);
        instruction_count(lines, (n - 1) as nat) + if text.len() > 0 && !is_label_line(text) {
            1nat
        } else {
            0nat
        }
    }
}

/// The second pass makes one word for each instruction, and each word is
/// 16 binary digits.
pub proof fn lemma_words(lines: Seq<Seq<char>>, n: nat, symbols: Symbols)
    requires
        encode_pass(lines, n, symbols) is Ok,
    ensures
        encode_pass(lines, n, symbols)->Ok_0.words.len() == instruction_count(lines, n),
        forall|i: int|
            0 <= i < instruction_count(lines, n) ==> is_bits(
                #[trigger] encode_pass(lines, n, symbols)->Ok_0.words[i],
                16,
            ),
    decreases n,
{
    if n > 0 {
        let before = encode_pass(lines, (n - 1) as nat, symbols);
        assert(before is Ok);
        lemma_words(lines, (n - 1) as nat, symbols);
        lemma_encode_word(before->Ok_0.symbols, instruction_text(lines[n - 1]));
    }
}

} // verus!
