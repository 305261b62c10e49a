//! What the second pass binds: each new symbol to the next free address, in
//! the order of first use; and what it leaves alone.

use crate::assembler::{
    assembled, encode_pass, encode_step, label_pass, lemma_encode_pass_failed, EncodePass,
};
use crate::code::encode;
use crate::error::{AsmError, ErrorKind};
use crate::syntax::{
    instruction_text, is_address_line, is_label_line, is_symbol, literal_value, operand,
};
use crate::table::{predefined_symbols, Symbols, FIRST_VARIABLE, MAX_ADDRESS};
use crate::words::{instruction_count, lemma_words};
use vstd::prelude::*;

verus! {

/// The symbol that the command `text` refers to: the operand of an
/// addressing instruction, where it is a symbol and no integer literal.
pub open spec fn symbol_of(text: Seq<char>) -> Option<Seq<char>> {
    if is_address_line(text) && literal_value(operand(text)) is None && is_symbol(operand(text)) {
        Some(operand(text))
    } else {
        None
    }
}

/// The variables of the first `n` lines: the symbols referred to there that
/// are not bound in `bound`, each once, in the order of first use.
pub open spec fn variables(lines: Seq<Seq<char>>, n: nat, bound: Map<Seq<char>, i16>) -> Seq<
    Seq<char>,
>
    decreases n,
{
    if n == 0 {
        Seq::empty()
    } else {
        let before = variables(lines, (n - 1) as nat, bound);
        match symbol_of(instruction_text(lines[n - 1])) {
            Some(name) => if bound.contains_key(name) || before.contains(name) {
                before
            } else {
                before.push(name)
            },
            None => before,
        }
    }
}

/// Where the second pass has come through `to` lines, it has come through
/// any fewer.
pub proof fn lemma_encode_pass_prefix(lines: Seq<Seq<char>>, n: nat, to: nat, symbols: Symbols)
    requires
        n <= to,
        encode_pass(lines, to, symbols) is Ok,
    ensures
        encode_pass(lines, n, symbols) is Ok,
{
    if encode_pass(lines, n, symbols) is Err {
        lemma_encode_pass_failed(lines, n, to, symbols);
    }
}

/// Whether `after` is `before` with the names of `vars` bound to the
/// addresses from the first free one on, in this order: the name with index
/// `i` to `before.next_free + i`. What `before` binds keeps its address, and
/// nothing else is bound.
pub open spec fn bound_in_order(before: Symbols, after: Symbols, vars: Seq<Seq<char>>) -> bool {
    &&& vars.no_duplicates()
    &&& after.next_free == before.next_free + vars.len()
    &&& after.next_free <= MAX_ADDRESS + 1
    &&& forall|i: int|
        0 <= i < vars.len() ==> !before.bound.contains_key(#[trigger] vars[i])
            && after.bound.contains_key(vars[i]) && after.bound[vars[i]] == before.next_free + i
    &&& forall|k: Seq<char>|
        before.bound.contains_key(k) ==> #[trigger] after.bound.contains_key(k) && after.bound[k]
            == before.bound[k]
    &&& forall|k: Seq<char>| #[trigger]
        after.bound.contains_key(k) ==> before.bound.contains_key(k) || vars.contains(k)
}

/// The second pass gives the variables the addresses from the first free
/// one on, in the order of first use, however often each is used again.
pub proof fn lemma_variables_in_order(lines: Seq<Seq<char>>, n: nat, symbols: Symbols)
    requires
        encode_pass(lines, n, symbols) is Ok,
        symbols.valid(),
    ensures
        bound_in_order(
            symbols,
            encode_pass(lines, n, symbols)->Ok_0.symbols,
            variables(lines, n, symbols.bound),
        ),
    decreases n,
{
    if n > 0 {
        let m = (n - 1) as nat;
        lemma_encode_pass_prefix(lines, m, n, symbols);
        lemma_variables_in_order(lines, m, symbols);
        let before = encode_pass(lines, m, symbols)->Ok_0.symbols;
        let after = encode_pass(lines, n, symbols)->Ok_0.symbols;
        let old_vars = variables(lines, m, symbols.bound);
        let vars = variables(lines, n, symbols.bound);
        let text = instruction_text(lines[n - 1]);
        assert(bound_in_order(symbols, before, old_vars));
        match symbol_of(text) {
            Some(name) => {
                if symbols.bound.contains_key(name) || old_vars.contains(name) {
                    assert(before.bound.contains_key(name));
                    assert(after == before);
                    assert(vars == old_vars);
                } else {
                    assert(!before.bound.contains_key(name));
                    assert(after.next_free == before.next_free + 1);
                    assert(after.bound == before.bound.insert(name, before.next_free as i16));
                    assert(vars == old_vars.push(name));
                    lemma_push_in_order(symbols, before, old_vars, name);
                }
            },
            None => {
                assert(after == before);
                assert(vars == old_vars);
            },
        }
    }
}

/// One more variable: binding a name that is not bound to the next free
/// address keeps the variables in order.
proof fn lemma_push_in_order(start: Symbols, before: Symbols, vars: Seq<Seq<char>>, name: Seq<char>)
    requires
        start.valid(),
        bound_in_order(start, before, vars),
        !before.bound.contains_key(name),
        before.next_free <= MAX_ADDRESS,
    ensures
        bound_in_order(
            start,
            Symbols {
                bound: before.bound.insert(name, before.next_free as i16),
                next_free: before.next_free + 1,
            },
            vars.push(name),
        ),
{
    let after = Symbols {
        bound: before.bound.insert(name, before.next_free as i16),
        next_free: before.next_free + 1,
    };
    let more = vars.push(name);
    assert(!start.bound.contains_key(name));
    assert(!vars.contains(name)) by {
        if vars.contains(name) {
            let i = choose|i: int| 0 <= i < vars.len() && vars[i] == name;
            assert(before.bound.contains_key(vars[i]));
        }
    }
    assert(more.no_duplicates()) by {
        assert forall|i: int, j: int|
            0 <= i < more.len() && 0 <= j < more.len() && i != j implies more[i] != more[j] by {
            if i < vars.len() {
                assert(vars.contains(vars[i]));
            }
            if j < vars.len() {
                assert(vars.contains(vars[j]));
            }
        }
    }
    assert forall|i: int| 0 <= i < more.len() implies !start.bound.contains_key(
        #[trigger] more[i],
    ) && after.bound.contains_key(more[i]) && after.bound[more[i]] == start.next_free + i by {
        if i < vars.len() {
            assert(more[i] == vars[i]);
            assert(vars.contains(vars[i]));
        }
    }
    assert forall|k: Seq<char>| #[trigger]
        after.bound.contains_key(k) implies start.bound.contains_key(k) || more.contains(k) by {
        if k == name {
            assert(more[vars.len() as int] == name);
        } else if !start.bound.contains_key(k) {
            assert(before.bound.contains_key(k));
            let i = choose|i: int| 0 <= i < vars.len() && vars[i] == k;
            assert(more[i] == k);
        }
    }
}

/// In a program that is assembled from a fresh table, the variables get
/// the addresses 16, 17 and so on, in the order of first use. The variables
/// are the symbols referred to that are neither predefined nor a label.
pub proof fn lemma_variables_from_16(lines: Seq<Seq<char>>)
    requires
        assembled(lines) is Ok,
    ensures
        ({
            let labels = label_pass(lines, lines.len(), predefined_symbols())->Ok_0.bound;
            let start = Symbols { bound: labels, next_free: FIRST_VARIABLE as int };
            let after = encode_pass(lines, lines.len(), start)->Ok_0.symbols;
            let vars = variables(lines, lines.len(), labels);
            forall|i: int|
                0 <= i < vars.len() ==> after.bound.contains_key(#[trigger] vars[i])
                    && after.bound[vars[i]] == 16 + i
        }),
{
    let labels = label_pass(lines, lines.len(), predefined_symbols())->Ok_0.bound;
    let start = Symbols { bound: labels, next_free: FIRST_VARIABLE as int };
    lemma_variables_in_order(lines, lines.len(), start);
}

/// The word of an addressing instruction with an integer literal is the
/// same whatever the symbols are, and encoding it binds nothing.
pub proof fn lemma_literal_ignores_symbols(s1: Symbols, s2: Symbols, text: Seq<char>)
    requires
        is_address_line(text),
        literal_value(operand(text)) is Some,
    ensures
        encode(s1, text).1 == encode(s2, text).1,
        encode(s1, text).0 == s1,
        encode(s2, text).0 == s2,
{
}

/// The word of a computation is the same whatever the symbols are, and
/// encoding it binds nothing.
pub proof fn lemma_computation_ignores_symbols(s1: Symbols, s2: Symbols, text: Seq<char>)
    requires
        !is_address_line(text),
    ensures
        encode(s1, text).1 == encode(s2, text).1,
        encode(s1, text).0 == s1,
        encode(s2, text).0 == s2,
{
}

/// Whether `later` binds all that `earlier` binds, to the same addresses.
pub open spec fn extends(later: Map<Seq<char>, i16>, earlier: Map<Seq<char>, i16>) -> bool {
    forall|k: Seq<char>| #[trigger]
        earlier.contains_key(k) ==> later.contains_key(k) && later[k] == earlier[k]
}

/// The second pass only adds bindings.
pub proof fn lemma_encode_pass_extends(lines: Seq<Seq<char>>, n: nat, to: nat, symbols: Symbols)
    requires
        n <= to,
        encode_pass(lines, to, symbols) is Ok,
    ensures
        encode_pass(lines, n, symbols) is Ok,
        extends(
            encode_pass(lines, to, symbols)->Ok_0.symbols.bound,
            encode_pass(lines, n, symbols)->Ok_0.symbols.bound,
        ),
    decreases to - n,
{
    lemma_encode_pass_prefix(lines, n, to, symbols);
    if n < to {
        lemma_encode_pass_prefix(lines, (to - 1) as nat, to, symbols);
        lemma_encode_pass_extends(lines, n, (to - 1) as nat, symbols);
    }
}

/// On symbols that hold all the bindings that the second pass ends with,
/// the pass makes the same words and binds nothing.
pub proof fn lemma_encode_pass_on_later(
    lines: Seq<Seq<char>>,
    n: nat,
    to: nat,
    symbols: Symbols,
    later: Symbols,
)
    requires
        n <= to,
        encode_pass(lines, to, symbols) is Ok,
        extends(later.bound, encode_pass(lines, to, symbols)->Ok_0.symbols.bound),
    ensures
        encode_pass(lines, n, symbols) is Ok,
        encode_pass(lines, n, later) == Ok::<EncodePass, AsmError>(
            EncodePass { symbols: later, words: encode_pass(lines, n, symbols)->Ok_0.words },
        ),
    decreases n,
{
    lemma_encode_pass_extends(lines, n, to, symbols);
    if n > 0 {
        let m = (n - 1) as nat;
        lemma_encode_pass_on_later(lines, m, to, symbols, later);
        let before = encode_pass(lines, m, symbols)->Ok_0;
        let after = encode_pass(lines, n, symbols)->Ok_0;
        let text = instruction_text(lines[n - 1]);
        match symbol_of(text) {
            Some(name) => {
                assert(after.symbols.bound.contains_key(name));
                assert(later.bound.contains_key(name));
            },
            None => {},
        }
    } else {
        assert(encode_pass(lines, 0, symbols)->Ok_0.words =~= Seq::<Seq<char>>::empty());
    }
}

/// The second pass only adds words: the words of the first `n` lines open
/// the words of any more lines.
pub proof fn lemma_words_grow(lines: Seq<Seq<char>>, n: nat, to: nat, symbols: Symbols)
    requires
        n <= to,
        encode_pass(lines, to, symbols) is Ok,
    ensures
        encode_pass(lines, n, symbols) is Ok,
        encode_pass(lines, n, symbols)->Ok_0.words.is_prefix_of(
            encode_pass(lines, to, symbols)->Ok_0.words,
        ),
    decreases to - n,
{
    lemma_encode_pass_prefix(lines, n, to, symbols);
    if n < to {
        lemma_encode_pass_prefix(lines, (to - 1) as nat, to, symbols);
        lemma_words_grow(lines, n, (to - 1) as nat, symbols);
    }
}

/// The words stand in the order of the lines, and each is the word of its
/// line by the symbols that the pass ends with: the instruction on the line
/// with the index `at` has the word with the index
/// `instruction_count(lines, at)`. So a reference to a label or a variable
/// is encoded by the address that the symbol has in the end, whether it was
/// bound before the line or after it.
pub proof fn lemma_word_of_line(lines: Seq<Seq<char>>, symbols: Symbols, at: nat)
    requires
        at < lines.len(),
        encode_pass(lines, lines.len(), symbols) is Ok,
        instruction_text(lines[at as int]).len() > 0,
        !is_label_line(instruction_text(lines[at as int])),
    ensures
        ({
            let end = encode_pass(lines, lines.len(), symbols)->Ok_0;
            let k = instruction_count(lines, at) as int;
            &&& k < end.words.len()
            &&& encode(end.symbols, instruction_text(lines[at as int])).1 == Ok::<
                Seq<char>,
                ErrorKind,
            >(end.words[k])
            &&& encode(end.symbols, instruction_text(lines[at as int])).0 == end.symbols
        }),
{
    let n = lines.len();
    let end = encode_pass(lines, n, symbols)->Ok_0;
    let text = instruction_text(lines[at as int]);
    lemma_words_grow(lines, at + 1, n, symbols);
    lemma_words_grow(lines, at, at + 1, symbols);
    lemma_words(lines, at, symbols);
    lemma_words(lines, at + 1, symbols);
    lemma_encode_pass_on_later(lines, at, n, symbols, end.symbols);
    lemma_encode_pass_on_later(lines, at + 1, n, symbols, end.symbols);
    let before = encode_pass(lines, at, symbols)->Ok_0;
    let after = encode_pass(lines, at + 1, symbols)->Ok_0;
    let k = instruction_count(lines, at) as int;
    assert(before.words.len() == k);
    assert(after.words.len() == k + 1);
    assert(end.words[k] == after.words[k]);
    let again = encode_step(
        EncodePass { symbols: end.symbols, words: before.words },
        lines[at as int],
        at + 1,
    );
    assert(again == Ok::<EncodePass, AsmError>(
        EncodePass { symbols: end.symbols, words: after.words },
    ));
    let word = encode(end.symbols, text).1->Ok_0;
    assert(before.words.push(word) == after.words);
    assert(before.words.push(word)[k] == word);
}

/// Assembling the same program again, on the symbols that the second pass
/// has left, gives the same words and binds nothing more.
pub proof fn lemma_assemble_again(lines: Seq<Seq<char>>, symbols: Symbols)
    requires
        encode_pass(lines, lines.len(), symbols) is Ok,
    ensures
        encode_pass(lines, lines.len(), encode_pass(lines, lines.len(), symbols)->Ok_0.symbols)
            == encode_pass(lines, lines.len(), symbols),
{
    let n = lines.len();
    let end = encode_pass(lines, n, symbols)->Ok_0;
    lemma_encode_pass_on_later(lines, n, n, symbols, end.symbols);
}

} // verus!
