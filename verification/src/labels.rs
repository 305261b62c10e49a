//! What the first pass binds: each label to the number of instructions
//! before its definition, and nothing that was bound before anew.

use crate::assembler::{label_pass, lemma_label_pass_failed};
use crate::syntax::{instruction_text, label_name};
use crate::words::instruction_count;
use vstd::prelude::*;

verus! {

/// Whether line `i` is a well-formed definition of the label `name`.
pub open spec fn defines(lines: Seq<Seq<char>>, i: int, name: Seq<char>) -> bool {
    label_name(instruction_text(lines[i])) == Some(name)
}

/// Where the first pass has come through `to` lines, it has come through
/// any fewer.
pub proof fn lemma_label_pass_prefix(
    lines: Seq<Seq<char>>,
    n: nat,
    to: nat,
    bound: Map<Seq<char>, i16>,
)
    requires
        n <= to,
        label_pass(lines, to, bound) is Ok,
    ensures
        label_pass(lines, n, bound) is Ok,
{
    if label_pass(lines, n, bound) is Err {
        lemma_label_pass_failed(lines, n, to, bound);
    }
}

/// The first pass counts the instructions.
pub proof fn lemma_label_count(lines: Seq<Seq<char>>, n: nat, bound: Map<Seq<char>, i16>)
    requires
        label_pass(lines, n, bound) is Ok,
    ensures
        label_pass(lines, n, bound)->Ok_0.count == instruction_count(lines, n),
    decreases n,
{
    if n > 0 {
        lemma_label_count(lines, (n - 1) as nat, bound);
    }
}

/// A name that was not bound and that no line so far defines is not bound.
pub proof fn lemma_label_unbound(
    lines: Seq<Seq<char>>,
    n: nat,
    bound: Map<Seq<char>, i16>,
    name: Seq<char>,
)
    requires
        label_pass(lines, n, bound) is Ok,
        !bound.contains_key(name),
        forall|j: int| 0 <= j < n ==> !defines(lines, j, name),
    ensures
        !label_pass(lines, n, bound)->Ok_0.bound.contains_key(name),
    decreases n,
{
    if n > 0 {
        lemma_label_unbound(lines, (n - 1) as nat, bound, name);
        assert(!defines(lines, n - 1, name));
    }
}

/// The first binding of a name stays: what is bound after `n` lines is
/// bound to the same address after any more. With `n` as 0 this says that
/// the pass rebinds nothing that was bound before it, so no predefined
/// symbol either.
pub proof fn lemma_label_stays(
    lines: Seq<Seq<char>>,
    n: nat,
    to: nat,
    bound: Map<Seq<char>, i16>,
    name: Seq<char>,
)
    requires
        n <= to,
        label_pass(lines, to, bound) is Ok,
        label_pass(lines, n, bound) is Ok,
        label_pass(lines, n, bound)->Ok_0.bound.contains_key(name),
    ensures
        label_pass(lines, to, bound)->Ok_0.bound.contains_key(name),
        label_pass(lines, to, bound)->Ok_0.bound[name] == label_pass(
            lines,
            n,
            bound,
        )->Ok_0.bound[name],
    decreases to - n,
{
    if n < to {
        lemma_label_pass_prefix(lines, (to - 1) as nat, to, bound);
        lemma_label_stays(lines, n, (to - 1) as nat, bound, name);
    }
}

/// After the first pass, a label stands for the number of instructions
/// before its definition: for a line `at` that defines `name`, where
/// `name` was not bound before the pass and no earlier line defines it.
pub proof fn lemma_label_address(
    lines: Seq<Seq<char>>,
    bound: Map<Seq<char>, i16>,
    at: nat,
    name: Seq<char>,
)
    requires
        at < lines.len(),
        label_pass(lines, lines.len(), bound) is Ok,
        defines(lines, at as int, name),
        !bound.contains_key(name),
        forall|j: int| 0 <= j < at ==> !defines(lines, j, name),
    ensures
        label_pass(lines, lines.len(), bound)->Ok_0.bound.contains_key(name),
        label_pass(lines, lines.len(), bound)->Ok_0.bound[name] == instruction_count(lines, at),
{
    lemma_label_pass_prefix(lines, at, lines.len(), bound);
    lemma_label_pass_prefix(lines, at + 1, lines.len(), bound);
    lemma_label_unbound(lines, at, bound, name);
    lemma_label_count(lines, at, bound);
    let before = label_pass(lines, at, bound)->Ok_0;
    let after = label_pass(lines, at + 1, bound)->Ok_0;
    assert(after.bound == before.bound.insert(name, before.count as i16));
    lemma_label_stays(lines, at + 1, lines.len(), bound, name);
}

} // verus!
