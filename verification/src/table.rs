//! The symbol table and the four encoding tables.

use crate::error::ErrorKind;
use crate::mnemonics::{
    comp_mem_code, comp_no_mem_code, dest_code, jump_code, lemma_comp_mem_mnemonics,
    lemma_comp_no_mem_mnemonics, lemma_dest_mnemonics, lemma_jump_mnemonics,
    lemma_predefined_names, predefined,
};
use vstd::hash_map::StringHashMap;
use vstd::prelude::*;

verus! {

/// The largest address an instruction can hold: 15 unsigned bits.
pub const MAX_ADDRESS: i16 = 32767;

/// The address given to the first variable.
pub const FIRST_VARIABLE: i16 = 16;

/// The bindings a fresh table starts with.
pub open spec fn predefined_symbols() -> Map<Seq<char>, i16> {
    Map::new(|k: Seq<char>| predefined(k) is Some, |k: Seq<char>| predefined(k).unwrap())
}

/// What a symbol table holds: its bindings and the next free variable address.
pub struct Symbols {
    pub bound: Map<Seq<char>, i16>,
    pub next_free: int,
}

impl Symbols {
    /// Whether the next free variable address is at least 16 and at most one
    /// past the largest address.
    pub open spec fn valid(self) -> bool {
        FIRST_VARIABLE <= self.next_free <= MAX_ADDRESS + 1
    }
}

/// `m` with `name` bound to `address`, unless `name` is bound already:
/// the first binding of a name stays.
pub open spec fn bind(m: Map<Seq<char>, i16>, name: Seq<char>, address: i16) -> Map<
    Seq<char>,
    i16,
> {
    if m.contains_key(name) {
        m
    } else {
        m.insert(name, address)
    }
}

/// The address of `name` as a variable: the one it is bound to, or else the
/// next free one, which it takes. Fails when no address is left.
pub open spec fn allocate(s: Symbols, name: Seq<char>) -> (Symbols, Result<i16, ErrorKind>) {
    if s.bound.contains_key(name) {
        (s, Ok(s.bound[name]))
    } else if s.next_free > MAX_ADDRESS {
        (s, Err(ErrorKind::AddressOutOfRange))
    } else {
        (
            Symbols {
                bound: s.bound.insert(name, s.next_free as i16),
                next_free: s.next_free + 1,
            },
            Ok(s.next_free as i16),
        )
    }
}

/// Whether `m` holds exactly the entries of `codes`, each value by its characters.
pub open spec fn holds_codes(m: Map<Seq<char>, String>, codes: Map<Seq<char>, Seq<char>>) -> bool {
    &&& forall|k: Seq<char>| #[trigger] m.contains_key(k) <==> codes.contains_key(k)
    &&& forall|k: Seq<char>| #[trigger] m.contains_key(k) ==> m[k]@ == codes[k]
}

/// A lookup function as a map: the mnemonics it knows, each with its code.
pub open spec fn as_map(codes: spec_fn(Seq<char>) -> Option<Seq<char>>) -> Map<
    Seq<char>,
    Seq<char>,
> {
    Map::new(|k: Seq<char>| codes(k) is Some, |k: Seq<char>| codes(k).unwrap())
}

/// Whether every predefined symbol is bound in `m` to its address.
pub open spec fn keeps_predefined(m: Map<Seq<char>, i16>) -> bool {
    forall|k: Seq<char>| #[trigger]
        predefined(k) is Some ==> m.contains_key(k) && m[k] == predefined(k).unwrap()
}

/// The table of computations that do not read memory.
fn build_comp_no_mem() -> (m: StringHashMap<String>)
    ensures
        holds_codes(m@, as_map(|k: Seq<char>| comp_no_mem_code(k))),
{
    let mut m: StringHashMap<String> = StringHashMap::new();
    m.insert("0".to_string(), "101010".to_string());
    m.insert("1".to_string(), "111111".to_string());
    m.insert("-1".to_string(), "111010".to_string());
    m.insert("D".to_string(), "001100".to_string());
    m.insert("A".to_string(), "110000".to_string());
    m.insert("!D".to_string(), "001101".to_string());
    m.insert("!A".to_string(), "110001".to_string());
    m.insert("-D".to_string(), "001111".to_string());
    m.insert("-A".to_string(), "110011".to_string());
    m.insert("D+1".to_string(), "011111".to_string());
    m.insert("A+1".to_string(), "110111".to_string());
    m.insert("D-1".to_string(), "001110".to_string());
    m.insert("A-1".to_string(), "110010".to_string());
    m.insert("D+A".to_string(), "000010".to_string());
    m.insert("D-A".to_string(), "010011".to_string());
    m.insert("A-D".to_string(), "000111".to_string());
    m.insert("D&A".to_string(), "000000".to_string());
    m.insert("D|A".to_string(), "010101".to_string());
    proof {
        lemma_comp_no_mem_mnemonics();
    }
    m
}

/// The table of computations that read memory.
fn build_comp_mem() -> (m: StringHashMap<String>)
    ensures
        holds_codes(m@, as_map(|k: Seq<char>| comp_mem_code(k))),
{
    let mut m: StringHashMap<String> = StringHashMap::new();
    m.insert("M".to_string(), "110000".to_string());
    m.insert("!M".to_string(), "110001".to_string());
    m.insert("-M".to_string(), "110011".to_string());
    m.insert("M+1".to_string(), "110111".to_string());
    m.insert("M-1".to_string(), "110010".to_string());
    m.insert("D+M".to_string(), "000010".to_string());
    m.insert("D-M".to_string(), "010011".to_string());
    m.insert("M-D".to_string(), "000111".to_string());
    m.insert("D&M".to_string(), "000000".to_string());
    m.insert("D|M".to_string(), "010101".to_string());
    proof {
        lemma_comp_mem_mnemonics();
    }
    m
}

/// The table of destinations.
fn build_dest() -> (m: StringHashMap<String>)
    ensures
        holds_codes(m@, as_map(|k: Seq<char>| dest_code(k))),
{
    let mut m: StringHashMap<String> = StringHashMap::new();
    m.insert("null".to_string(), "000".to_string());
    m.insert("M".to_string(), "001".to_string());
    m.insert("D".to_string(), "010".to_string());
    m.insert("MD".to_string(), "011".to_string());
    m.insert("A".to_string(), "100".to_string());
    m.insert("AM".to_string(), "101".to_string());
    m.insert("AD".to_string(), "110".to_string());
    m.insert("AMD".to_string(), "111".to_string());
    proof {
        lemma_dest_mnemonics();
    }
    m
}

/// The table of jumps.
fn build_jump() -> (m: StringHashMap<String>)
    ensures
        holds_codes(m@, as_map(|k: Seq<char>| jump_code(k))),
{
    let mut m: StringHashMap<String> = StringHashMap::new();
    m.insert("null".to_string(), "000".to_string());
    m.insert("JGT".to_string(), "001".to_string());
    m.insert("JEQ".to_string(), "010".to_string());
    m.insert("JGE".to_string(), "011".to_string());
    m.insert("JLT".to_string(), "100".to_string());
    m.insert("JNE".to_string(), "101".to_string());
    m.insert("JLE".to_string(), "110".to_string());
    m.insert("JMP".to_string(), "111".to_string());
    proof {
        lemma_jump_mnemonics();
    }
    m
}

/// The predefined symbols, each bound to its address.
fn build_predefined() -> (m: StringHashMap<i16>)
    ensures
        m@ == predefined_symbols(),
{
    let mut m: StringHashMap<i16> = StringHashMap::new();
    m.insert("R0".to_string(), 0);
    m.insert("R1".to_string(), 1);
    m.insert("R2".to_string(), 2);
    m.insert("R3".to_string(), 3);
    m.insert("R4".to_string(), 4);
    m.insert("R5".to_string(), 5);
    m.insert("R6".to_string(), 6);
    m.insert("R7".to_string(), 7);
    m.insert("R8".to_string(), 8);
    m.insert("R9".to_string(), 9);
    m.insert("R10".to_string(), 10);
    m.insert("R11".to_string(), 11);
    m.insert("R12".to_string(), 12);
    m.insert("R13".to_string(), 13);
    m.insert("R14".to_string(), 14);
    m.insert("R15".to_string(), 15);
    m.insert("SCREEN".to_string(), 16384);
    m.insert("KBD".to_string(), 24576);
    m.insert("SP".to_string(), 0);
    m.insert("LCL".to_string(), 1);
    m.insert("ARG".to_string(), 2);
    m.insert("THIS".to_string(), 3);
    m.insert("THAT".to_string(), 4);
    proof {
        lemma_predefined_names();
        assert(m@ =~= predefined_symbols());
    }
    m
}

/// The symbol table together with the encoding tables.
pub struct Table {
    comp_no_mem: StringHashMap<String>,
    comp_mem: StringHashMap<String>,
    dest: StringHashMap<String>,
    jump: StringHashMap<String>,
    tables: StringHashMap<i16>,
    next_free: u16,
}

impl View for Table {
    type V = Symbols;

    closed spec fn view(&self) -> Symbols {
        Symbols { bound: self.tables@, next_free: self.next_free as int }
    }
}

impl Table {
    /// Well-formedness: the encoding tables hold the fixed vocabulary, every
    /// predefined symbol is bound to its address, and the next free variable
    /// address is at least 16 and at most one past the largest address.
    pub closed spec fn wf(&self) -> bool {
        &&& holds_codes(self.comp_no_mem@, as_map(|k: Seq<char>| comp_no_mem_code(k)))
        &&& holds_codes(self.comp_mem@, as_map(|k: Seq<char>| comp_mem_code(k)))
        &&& holds_codes(self.dest@, as_map(|k: Seq<char>| dest_code(k)))
        &&& holds_codes(self.jump@, as_map(|k: Seq<char>| jump_code(k)))
        &&& keeps_predefined(self.tables@)
        &&& FIRST_VARIABLE <= self.next_free <= MAX_ADDRESS + 1
    }

    /// What well-formedness says of the symbols.
    pub proof fn lemma_wf_symbols(&self)
        requires
            self.wf(),
        ensures
            keeps_predefined(self@.bound),
            self@.valid(),
    {
    }

    /// A table with the fixed vocabulary, the 23 predefined symbols, and 16
    /// as the next free variable address.
    pub fn new() -> (t: Table)
        ensures
            t.wf(),
            t@.bound == predefined_symbols(),
            t@.next_free == FIRST_VARIABLE,
    {
        Table {
            comp_no_mem: build_comp_no_mem(),
            comp_mem: build_comp_mem(),
            dest: build_dest(),
            jump: build_jump(),
            tables: build_predefined(),
            next_free: 16,
        }
    }

    /// The code of `key` as a computation that does not read memory.
    pub fn get_a0(&self, key: &str) -> (r: Option<&String>)
        requires
            self.wf(),
        ensures
            match r {
                Some(code) => comp_no_mem_code(key@) == Some(code@),
                None => comp_no_mem_code(key@) is None,
            },
    {
        self.comp_no_mem.get(key)
    }

    /// The code of `key` as a computation that reads memory.
    pub fn get_a1(&self, key: &str) -> (r: Option<&String>)
        requires
            self.wf(),
        ensures
            match r {
                Some(code) => comp_mem_code(key@) == Some(code@),
                None => comp_mem_code(key@) is None,
            },
    {
        self.comp_mem.get(key)
    }

    /// The code of `key` as a destination.
    pub fn get_dst(&self, key: &str) -> (r: Option<&String>)
        requires
            self.wf(),
        ensures
            match r {
                Some(code) => dest_code(key@) == Some(code@),
                None => dest_code(key@) is None,
            },
    {
        self.dest.get(key)
    }

    /// The code of `key` as a jump.
    pub fn get_jmp(&self, key: &str) -> (r: Option<&String>)
        requires
            self.wf(),
        ensures
            match r {
                Some(code) => jump_code(key@) == Some(code@),
                None => jump_code(key@) is None,
            },
    {
        self.jump.get(key)
    }

    /// Whether `key` is bound.
    pub fn is_exists(&self, key: &str) -> (r: bool)
        ensures
            r == self@.bound.contains_key(key@),
    {
        self.tables.contains_key(key)
    }

    /// The address that `key` is bound to.
    pub fn lookup(&self, key: &str) -> (r: Option<i16>)
        ensures
            r == if self@.bound.contains_key(key@) {
                Some(self@.bound[key@])
            } else {
                None::<i16>
            },
    {
        match self.tables.get(key) {
            Some(address) => Some(*address),
            None => None,
        }
    }

    /// Binds `key` to `num` unless `key` is bound already.
    pub fn add(&mut self, key: &str, num: i16)
        requires
            old(self).wf(),
        ensures
            final(self).wf(),
            final(self)@.bound == bind(old(self)@.bound, key@, num),
            final(self)@.next_free == old(self)@.next_free,
    {
        self.add_if_not_exist(key, num);
    }

    /// Binds `key` to `num` unless `key` is bound already, and says whether
    /// it made the binding.
    pub fn add_if_not_exist(&mut self, key: &str, num: i16) -> (added: bool)
        requires
            old(self).wf(),
        ensures
            final(self).wf(),
            added == !old(self)@.bound.contains_key(key@),
            final(self)@.bound == bind(old(self)@.bound, key@, num),
            final(self)@.next_free == old(self)@.next_free,
    {
        if !self.is_exists(key) {
            self.tables.insert(key.to_string(), num);
            return true;
        }
        false
    }

    /// The address of `name` as a variable: the one it is bound to, or else
    /// the next free one, which `name` takes.
    pub fn allocate_variable(&mut self, name: &str) -> (r: Result<i16, ErrorKind>)
        requires
            old(self).wf(),
        ensures
            final(self).wf(),
            (final(self)@, r) == allocate(old(self)@, name@),
    {
        match self.lookup(name) {
            Some(address) => Ok(address),
            None => {
                if self.next_free > 32767 {
                    Err(ErrorKind::AddressOutOfRange)
                } else {
                    let address: i16 = self.next_free as i16;
                    self.tables.insert(name.to_string(), address);
                    self.next_free = self.next_free + 1;
                    Ok(address)
                }
            },
        }
    }
}

} // verus!
