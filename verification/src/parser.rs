//! Symbol table, two-pass resolver and instruction encoder. Pass one
//! binds each label declaration to the program counter; pass two encodes
//! address instructions (allocating fresh variables from 16 upward) and
//! compute instructions into 16-character binary words.

use vstd::prelude::*;
use vstd::string::*;

use crate::error::{ErrorKind, TranslateError};
use crate::lexer::{InstrKind, Instruction, Token, token_triples};
use crate::text::{
    bin_rep, bin_str, contains_seq, find_sub, first_match_idx, is_digit, is_digit_char,
    lemma_first_match_idx, opt_view, parse_u16, spec_parse_u16, str_eq, views_of,
};

verus! {

/// The mapping a sequence of bindings builds up, later bindings winning.
pub open spec fn table_map(e: Seq<(String, u16)>) -> Map<Seq<char>, u16>
    decreases e.len(),
{
    if e.len() == 0 {
        Map::empty()
    } else {
        table_map(e.drop_last()).insert(e.last().0@, e.last().1)
    }
}

proof fn lemma_match_contains(e: Seq<(String, u16)>, i: int, k: Seq<char>)
    requires
        0 <= i < e.len(),
        e[i].0@ == k,
    ensures
        table_map(e).contains_key(k),
    decreases e.len(),
{
    if i < e.len() - 1 {
        lemma_match_contains(e.drop_last(), i, k);
    }
}

proof fn lemma_last_match(e: Seq<(String, u16)>, i: int, k: Seq<char>)
    requires
        0 <= i < e.len(),
        e[i].0@ == k,
        forall|j: int| i < j < e.len() ==> e[j].0@ != k,
    ensures
        table_map(e).contains_key(k),
        table_map(e)[k] == e[i].1,
    decreases e.len(),
{
    if i == e.len() - 1 {
    } else {
        assert(e.last().0@ != k);
        lemma_last_match(e.drop_last(), i, k);
    }
}

proof fn lemma_no_match(e: Seq<(String, u16)>, k: Seq<char>)
    requires
        forall|j: int| 0 <= j < e.len() ==> e[j].0@ != k,
    ensures
        !table_map(e).contains_key(k),
    decreases e.len(),
{
    if e.len() > 0 {
        lemma_no_match(e.drop_last(), k);
    }
}

proof fn lemma_submap_insert(
    m1: Map<Seq<char>, u16>,
    m2: Map<Seq<char>, u16>,
    k: Seq<char>,
    v: u16,
)
    requires
        m1.submap_of(m2),
        !m2.contains_key(k),
    ensures
        m1.submap_of(m2.insert(k, v)),
{
    assert forall|q: Seq<char>| #[trigger] m1.dom().contains(q) implies m2.insert(
        k,
        v,
    ).dom().contains(q) && m1[q] == m2.insert(k, v)[q] by {
        assert(m2.contains_key(q));
    }
}

/// The symbols every run starts from.
pub open spec fn predefined_map() -> Map<Seq<char>, u16> {
    Map::empty().insert("SP"@, 0u16).insert("LCL"@, 1u16).insert("ARG"@, 2u16).insert(
        "THIS"@,
        3u16,
    ).insert("THAT"@, 4u16).insert("R0"@, 0u16).insert("R1"@, 1u16).insert("R2"@, 2u16).insert(
        "R3"@,
        3u16,
    ).insert("R4"@, 4u16).insert("R5"@, 5u16).insert("R6"@, 6u16).insert("R7"@, 7u16).insert(
        "R8"@,
        8u16,
    ).insert("R9"@, 9u16).insert("R10"@, 10u16).insert("R11"@, 11u16).insert("R12"@, 12u16).insert(
        "R13"@,
        13u16,
    ).insert("R14"@, 14u16).insert("R15"@, 15u16).insert("SCREEN"@, 16384u16).insert(
        "KBD"@,
        24576u16,
    )
}

fn push_sym(t: &mut Vec<(String, u16)>, name: &str, addr: u16)
    ensures
        table_map(final(t)@) == table_map(old(t)@).insert(name@, addr),
{
    let owned = String::from_str(name);
    t.push((owned, addr));
    proof {
        assert(t@.drop_last() =~= old(t)@);
    }
}

/// Two-pass resolver and encoder. Owns the symbol table of one run.
#[derive(Debug)]
pub struct Parser {
    pub symbol_table: Vec<(String, u16)>,
}

impl Parser {
    /// The symbol bindings as a mapping.
    pub open spec fn spec_map(&self) -> Map<Seq<char>, u16> {
        table_map(self.symbol_table@)
    }

    /// The predefined symbols are bound and never overwritten, and every
    /// bound address fits in the 15-bit operand field.
    pub open spec fn wf(&self) -> bool {
        &&& predefined_map().submap_of(self.spec_map())
        &&& forall|k: Seq<char>|
            self.spec_map().contains_key(k) ==> self.spec_map()[k] <= 32767
    }

    /// A fresh table holding exactly the predefined symbols.
    pub fn new() -> (r: Parser)
        ensures
            r.wf(),
            r.spec_map() == predefined_map(),
    {
        let mut t: Vec<(String, u16)> = Vec::new();
        proof {
            assert(table_map(t@) =~= Map::<Seq<char>, u16>::empty());
        }
        push_sym(&mut t, "SP", 0);
        push_sym(&mut t, "LCL", 1);
        push_sym(&mut t, "ARG", 2);
        push_sym(&mut t, "THIS", 3);
        push_sym(&mut t, "THAT", 4);
        push_sym(&mut t, "R0", 0);
        push_sym(&mut t, "R1", 1);
        push_sym(&mut t, "R2", 2);
        push_sym(&mut t, "R3", 3);
        push_sym(&mut t, "R4", 4);
        push_sym(&mut t, "R5", 5);
        push_sym(&mut t, "R6", 6);
        push_sym(&mut t, "R7", 7);
        push_sym(&mut t, "R8", 8);
        push_sym(&mut t, "R9", 9);
        push_sym(&mut t, "R10", 10);
        push_sym(&mut t, "R11", 11);
        push_sym(&mut t, "R12", 12);
        push_sym(&mut t, "R13", 13);
        push_sym(&mut t, "R14", 14);
        push_sym(&mut t, "R15", 15);
        push_sym(&mut t, "SCREEN", 16384);
        push_sym(&mut t, "KBD", 24576);
        let r = Parser { symbol_table: t };
        proof {
            assert(r.spec_map() == predefined_map());
            assert forall|k: Seq<char>| r.spec_map().contains_key(k) implies r.spec_map()[k]
                <= 32767 by {}
        }
        r
    }

    /// Whether a symbol is bound.
    pub fn contains_symbol(&self, symbol: &str) -> (r: bool)
        ensures
            r == self.spec_map().contains_key(symbol@),
    {
        let n = self.symbol_table.len();
        let mut i: usize = 0;
        while i < n
            invariant
                n == self.symbol_table@.len(),
                i <= n,
                forall|j: int| 0 <= j < i ==> self.symbol_table@[j].0@ != symbol@,
            decreases n - i,
        {
            if str_eq(self.symbol_table[i].0.as_str(), symbol) {
                proof {
                    lemma_match_contains(self.symbol_table@, i as int, symbol@);
                }
                return true;
            }
            i += 1;
        }
        proof {
            lemma_no_match(self.symbol_table@, symbol@);
        }
        false
    }

    /// The address a bound symbol resolves to.
    pub fn get_address(&self, symbol: &str) -> (r: u16)
        requires
            self.spec_map().contains_key(symbol@),
        ensures
            r == self.spec_map()[symbol@],
    {
        let mut i = self.symbol_table.len();
        while i > 0
            invariant
                i <= self.symbol_table@.len(),
                forall|j: int|
                    i <= j < self.symbol_table@.len() ==> self.symbol_table@[j].0@ != symbol@,
            decreases i,
        {
            i -= 1;
            if str_eq(self.symbol_table[i].0.as_str(), symbol) {
                proof {
                    lemma_last_match(self.symbol_table@, i as int, symbol@);
                }
                return self.symbol_table[i].1;
            }
        }
        proof {
            lemma_no_match(self.symbol_table@, symbol@);
            assert(false);
        }
        0
    }

    /// Binds a symbol unless it is already bound; an existing binding —
    /// predefined symbols above all — is never overwritten.
    pub fn insert_symbol(&mut self, symbol: &str, address: u16)
        ensures
            old(self).spec_map().contains_key(symbol@) ==> *final(self) == *old(self),
            !old(self).spec_map().contains_key(symbol@) ==> final(self).spec_map() == old(
                self,
            ).spec_map().insert(symbol@, address),
            old(self).wf() && address <= 32767 ==> final(self).wf(),
    {
        if self.contains_symbol(symbol) {
            return ;
        }
        let ghost m0 = self.spec_map();
        let owned = String::from_str(symbol);
        self.symbol_table.push((owned, address));
        proof {
            assert(self.symbol_table@.drop_last() =~= old(self).symbol_table@);
            if old(self).wf() && address <= 32767 {
                lemma_submap_insert(predefined_map(), m0, symbol@, address);
            }
        }
    }
}

/// Fixed comp table: text of the comp field to its seven encoded bits,
/// the high bit selecting the A register or the M memory operand.
pub open spec fn comp_code(t: Seq<char>) -> Option<u16> {
    if t == "0"@ {
        Some(0b0101010u16)
    } else if t == "1"@ {
        Some(0b0111111u16)
    } else if t == "-1"@ {
        Some(0b0111010u16)
    } else if t == "D"@ {
        Some(0b0001100u16)
    } else if t == "A"@ {
        Some(0b0110000u16)
    } else if t == "!D"@ {
        Some(0b0001101u16)
    } else if t == "!A"@ {
        Some(0b0110001u16)
    } else if t == "-D"@ {
        Some(0b0001111u16)
    } else if t == "-A"@ {
        Some(0b0110011u16)
    } else if t == "D+1"@ {
        Some(0b0011111u16)
    } else if t == "A+1"@ {
        Some(0b0110111u16)
    } else if t == "D-1"@ {
        Some(0b0001110u16)
    } else if t == "A-1"@ {
        Some(0b0110010u16)
    } else if t == "D+A"@ {
        Some(0b0000010u16)
    } else if t == "D-A"@ {
        Some(0b0010011u16)
    } else if t == "A-D"@ {
        Some(0b0000111u16)
    } else if t == "D&A"@ {
        Some(0b0000000u16)
    } else if t == "D|A"@ {
        Some(0b0010101u16)
    } else if t == "M"@ {
        Some(0b1110000u16)
    } else if t == "!M"@ {
        Some(0b1110001u16)
    } else if t == "-M"@ {
        Some(0b1110011u16)
    } else if t == "M+1"@ {
        Some(0b1110111u16)
    } else if t == "M-1"@ {
        Some(0b1110010u16)
    } else if t == "D+M"@ {
        Some(0b1000010u16)
    } else if t == "D-M"@ {
        Some(0b1010011u16)
    } else if t == "M-D"@ {
        Some(0b1000111u16)
    } else if t == "D&M"@ {
        Some(0b1000000u16)
    } else if t == "D|M"@ {
        Some(0b1010101u16)
    } else {
        None
    }
}

/// Fixed dest table: text of the dest field to its three encoded bits.
pub open spec fn dest_code(t: Seq<char>) -> Option<u16> {
    if t == "null"@ {
        Some(0b000u16)
    } else if t == "M"@ {
        Some(0b001u16)
    } else if t == "D"@ {
        Some(0b010u16)
    } else if t == "MD"@ {
        Some(0b011u16)
    } else if t == "A"@ {
        Some(0b100u16)
    } else if t == "AM"@ {
        Some(0b101u16)
    } else if t == "AD"@ {
        Some(0b110u16)
    } else if t == "AMD"@ {
        Some(0b111u16)
    } else {
        None
    }
}

/// Fixed jump table: text of the jump field to its three encoded bits.
pub open spec fn jump_code(t: Seq<char>) -> Option<u16> {
    if t == "null"@ {
        Some(0b000u16)
    } else if t == "JGT"@ {
        Some(0b001u16)
    } else if t == "JEQ"@ {
        Some(0b010u16)
    } else if t == "JGE"@ {
        Some(0b011u16)
    } else if t == "JLT"@ {
        Some(0b100u16)
    } else if t == "JNE"@ {
        Some(0b101u16)
    } else if t == "JLE"@ {
        Some(0b110u16)
    } else if t == "JMP"@ {
        Some(0b111u16)
    } else {
        None
    }
}

fn comp_lookup(t: &str) -> (r: Option<u16>)
    ensures
        r == comp_code(t@),
{
    if str_eq(t, "0") {
        Some(0b0101010)
    } else if str_eq(t, "1") {
        Some(0b0111111)
    } else if str_eq(t, "-1") {
        Some(0b0111010)
    } else if str_eq(t, "D") {
        Some(0b0001100)
    } else if str_eq(t, "A") {
        Some(0b0110000)
    } else if str_eq(t, "!D") {
        Some(0b0001101)
    } else if str_eq(t, "!A") {
        Some(0b0110001)
    } else if str_eq(t, "-D") {
        Some(0b0001111)
    } else if str_eq(t, "-A") {
        Some(0b0110011)
    } else if str_eq(t, "D+1") {
        Some(0b0011111)
    } else if str_eq(t, "A+1") {
        Some(0b0110111)
    } else if str_eq(t, "D-1") {
        Some(0b0001110)
    } else if str_eq(t, "A-1") {
        Some(0b0110010)
    } else if str_eq(t, "D+A") {
        Some(0b0000010)
    } else if str_eq(t, "D-A") {
        Some(0b0010011)
    } else if str_eq(t, "A-D") {
        Some(0b0000111)
    } else if str_eq(t, "D&A") {
        Some(0b0000000)
    } else if str_eq(t, "D|A") {
        Some(0b0010101)
    } else if str_eq(t, "M") {
        Some(0b1110000)
    } else if str_eq(t, "!M") {
        Some(0b1110001)
    } else if str_eq(t, "-M") {
        Some(0b1110011)
    } else if str_eq(t, "M+1") {
        Some(0b1110111)
    } else if str_eq(t, "M-1") {
        Some(0b1110010)
    } else if str_eq(t, "D+M") {
        Some(0b1000010)
    } else if str_eq(t, "D-M") {
        Some(0b1010011)
    } else if str_eq(t, "M-D") {
        Some(0b1000111)
    } else if str_eq(t, "D&M") {
        Some(0b1000000)
    } else if str_eq(t, "D|M") {
        Some(0b1010101)
    } else {
        None
    }
}

fn dest_lookup(t: &str) -> (r: Option<u16>)
    ensures
        r == dest_code(t@),
{
    if str_eq(t, "null") {
        Some(0b000)
    } else if str_eq(t, "M") {
        Some(0b001)
    } else if str_eq(t, "D") {
        Some(0b010)
    } else if str_eq(t, "MD") {
        Some(0b011)
    } else if str_eq(t, "A") {
        Some(0b100)
    } else if str_eq(t, "AM") {
        Some(0b101)
    } else if str_eq(t, "AD") {
        Some(0b110)
    } else if str_eq(t, "AMD") {
        Some(0b111)
    } else {
        None
    }
}

fn jump_lookup(t: &str) -> (r: Option<u16>)
    ensures
        r == jump_code(t@),
{
    if str_eq(t, "null") {
        Some(0b000)
    } else if str_eq(t, "JGT") {
        Some(0b001)
    } else if str_eq(t, "JEQ") {
        Some(0b010)
    } else if str_eq(t, "JGE") {
        Some(0b011)
    } else if str_eq(t, "JLT") {
        Some(0b100)
    } else if str_eq(t, "JNE") {
        Some(0b101)
    } else if str_eq(t, "JLE") {
        Some(0b110)
    } else if str_eq(t, "JMP") {
        Some(0b111)
    } else {
        None
    }
}

/// The `;` separator.
pub open spec fn semi() -> Seq<char> {
    seq![';']
}

/// The `=` separator.
pub open spec fn eq_mark() -> Seq<char> {
    seq!['=']
}

/// The part of `s` before the first occurrence of `pat`.
pub open spec fn seg_before(s: Seq<char>, pat: Seq<char>) -> Seq<char> {
    s.take(first_match_idx(s, pat))
}

/// The part of `s` between the first occurrence of `pat` and the next
/// one (or the end).
pub open spec fn seg_after(s: Seq<char>, pat: Seq<char>) -> Seq<char> {
    let rest = s.skip(first_match_idx(s, pat) + pat.len() as int);
    if contains_seq(rest, pat) {
        rest.take(first_match_idx(rest, pat))
    } else {
        rest
    }
}

/// The comp field of a compute instruction: before `;` when a jump is
/// present, after `=` when a destination is present, absent otherwise.
/// A combined `dest=comp;jump` form is not supported: its comp lookup
/// fails and the instruction is rejected as malformed.
pub open spec fn comp_text(s: Seq<char>) -> Option<Seq<char>> {
    if contains_seq(s, semi()) {
        Some(seg_before(s, semi()))
    } else if contains_seq(s, eq_mark()) {
        Some(seg_after(s, eq_mark()))
    } else {
        None
    }
}

/// The three encoded dest bits of a compute instruction.
pub open spec fn dest_field(s: Seq<char>) -> Option<u16> {
    if contains_seq(s, semi()) {
        Some(0u16)
    } else if contains_seq(s, eq_mark()) {
        dest_code(seg_before(s, eq_mark()))
    } else {
        None
    }
}

/// The three encoded jump bits of a compute instruction.
pub open spec fn jump_field(s: Seq<char>) -> Option<u16> {
    if contains_seq(s, eq_mark()) {
        Some(0u16)
    } else if contains_seq(s, semi()) {
        jump_code(seg_after(s, semi()))
    } else {
        None
    }
}

/// The 16-character machine word of a compute instruction:
/// `111` + comp(7) + dest(3) + jump(3); `None` when any field misses its
/// table.
pub open spec fn spec_c_word(s: Seq<char>) -> Option<Seq<char>> {
    match comp_text(s) {
        None => None,
        Some(ct) => match comp_code(ct) {
            None => None,
            Some(c) => match dest_field(s) {
                None => None,
                Some(d) => match jump_field(s) {
                    None => None,
                    Some(j) => Some(
                        seq!['1', '1', '1'] + bin_rep(c, 7) + bin_rep(d, 3) + bin_rep(j, 3),
                    ),
                },
            },
        },
    }
}

/// Encodes a compute instruction, as [`spec_c_word`] describes.
fn encode_c(token: &str) -> (r: Option<String>)
    ensures
        opt_view(r) == spec_c_word(token@),
{
    proof {
        reveal_strlit(";");
        reveal_strlit("=");
        assert(";"@ =~= semi());
        assert("="@ =~= eq_mark());
    }
    let n = token.unicode_len();
    let semi_idx = find_sub(token, ";");
    let eq_idx = find_sub(token, "=");
    proof {
        if let Some(i) = semi_idx {
            lemma_first_match_idx(token@, semi(), i as int);
        }
        if let Some(j) = eq_idx {
            lemma_first_match_idx(token@, eq_mark(), j as int);
        }
    }
    let ct: Option<String> = match semi_idx {
        Some(i) => {
            let piece = token.substring_char(0, i);
            proof {
                assert(piece@ =~= seg_before(token@, semi()));
            }
            Some(String::from_str(piece))
        },
        None => match eq_idx {
            Some(j) => {
                let rest = token.substring_char(j + 1, n);
                proof {
                    assert(rest@ =~= token@.skip(j as int + 1));
                }
                match find_sub(rest, "=") {
                    Some(k) => {
                        proof {
                            lemma_first_match_idx(rest@, eq_mark(), k as int);
                        }
                        let piece = rest.substring_char(0, k);
                        proof {
                            assert(piece@ =~= seg_after(token@, eq_mark()));
                        }
                        Some(String::from_str(piece))
                    },
                    None => {
                        proof {
                            assert(rest@ =~= seg_after(token@, eq_mark()));
                        }
                        Some(String::from_str(rest))
                    },
                }
            },
            None => None,
        },
    };
    let c: u16 = match ct {
        None => {
            return None;
        },
        Some(cs) => match comp_lookup(cs.as_str()) {
            None => {
                return None;
            },
            Some(c) => c,
        },
    };
    let d: u16 = match semi_idx {
        Some(_) => 0,
        None => match eq_idx {
            Some(j) => {
                let piece = token.substring_char(0, j);
                proof {
                    assert(piece@ =~= seg_before(token@, eq_mark()));
                }
                match dest_lookup(piece) {
                    None => {
                        return None;
                    },
                    Some(d) => d,
                }
            },
            None => {
                return None;
            },
        },
    };
    let j_bits: u16 = match eq_idx {
        Some(_) => 0,
        None => match semi_idx {
            Some(i) => {
                let rest = token.substring_char(i + 1, n);
                proof {
                    assert(rest@ =~= token@.skip(i as int + 1));
                }
                let jt: &str = match find_sub(rest, ";") {
                    Some(k) => {
                        proof {
                            lemma_first_match_idx(rest@, semi(), k as int);
                        }
                        let piece = rest.substring_char(0, k);
                        proof {
                            assert(piece@ =~= seg_after(token@, semi()));
                        }
                        piece
                    },
                    None => {
                        proof {
                            assert(rest@ =~= seg_after(token@, semi()));
                        }
                        rest
                    },
                };
                match jump_lookup(jt) {
                    None => {
                        return None;
                    },
                    Some(j) => j,
                }
            },
            None => {
                return None;
            },
        },
    };
    let mut w = String::from_str("111");
    proof {
        reveal_strlit("111");
        assert("111"@ =~= seq!['1', '1', '1']);
    }
    let cb = bin_str(c, 7);
    w.append(cb.as_str());
    let db = bin_str(d, 3);
    w.append(db.as_str());
    let jb = bin_str(j_bits, 3);
    w.append(jb.as_str());
    Some(w)
}

/// The name inside a label declaration `(name)`.
pub open spec fn label_name(s: Seq<char>) -> Seq<char> {
    let body = if s.len() > 0 && s[0] == '(' {
        s.drop_first()
    } else {
        s
    };
    if body.len() > 0 && body.last() == ')' {
        body.drop_last()
    } else {
        body
    }
}

fn label_name_of(s: &str) -> (r: String)
    ensures
        r@ == label_name(s@),
{
    let n = s.unicode_len();
    let start: usize = if n > 0 && s.get_char(0) == '(' {
        1
    } else {
        0
    };
    let end: usize = if n > start && s.get_char(n - 1) == ')' {
        n - 1
    } else {
        n
    };
    let piece = s.substring_char(start, end);
    proof {
        assert(piece@ =~= label_name(s@));
    }
    String::from_str(piece)
}

/// The operand of an address instruction `@operand`.
pub open spec fn a_operand(s: Seq<char>) -> Seq<char> {
    if s.len() > 0 && s[0] == '@' {
        s.drop_first()
    } else {
        s
    }
}

/// Pass one over the token stream: a label declaration binds its name to
/// the current program counter unless the name is already bound; every
/// other instruction advances the counter by one. A label past the
/// 15-bit address range is fatal.
pub open spec fn spec_first_pass(
    ts: Seq<(InstrKind, Seq<char>, int)>,
    m: Map<Seq<char>, u16>,
    pc: int,
) -> Result<Map<Seq<char>, u16>, (ErrorKind, int, Seq<char>)>
    decreases ts.len(),
{
    if ts.len() == 0 {
        Ok(m)
    } else {
        match ts[0].0 {
            InstrKind::Label => {
                let name = label_name(ts[0].1);
                if m.contains_key(name) {
                    spec_first_pass(ts.drop_first(), m, pc)
                } else if pc > 32767 {
                    Err((ErrorKind::AddressOutOfRange, ts[0].2, ts[0].1))
                } else {
                    spec_first_pass(ts.drop_first(), m.insert(name, pc as u16), pc)
                }
            },
            _ => spec_first_pass(ts.drop_first(), m, pc + 1),
        }
    }
}

/// Resolving one address instruction in pass two: a digit-led operand
/// encodes directly (rejected past 32767 or unreadable), a bound symbol
/// substitutes its address, an unknown symbol is allocated the next free
/// address.
pub open spec fn spec_a_resolve(op: Seq<char>, m: Map<Seq<char>, u16>, ram: int) -> Result<
    (u16, Map<Seq<char>, u16>, int),
    ErrorKind,
> {
    if op.len() > 0 && is_digit(op[0]) {
        match spec_parse_u16(op) {
            Some(v) => if v <= 32767 {
                Ok((v, m, ram))
            } else {
                Err(ErrorKind::AddressOutOfRange)
            },
            None => Err(ErrorKind::AddressOutOfRange),
        }
    } else if m.contains_key(op) {
        Ok((m[op], m, ram))
    } else if ram > 32767 {
        Err(ErrorKind::AddressOutOfRange)
    } else {
        Ok((ram as u16, m.insert(op, ram as u16), ram + 1))
    }
}

/// Pass two over the token stream: label declarations emit nothing,
/// address instructions emit the 16-bit binary of their resolved value,
/// compute instructions emit their encoded word.
pub open spec fn spec_second_pass(
    ts: Seq<(InstrKind, Seq<char>, int)>,
    m: Map<Seq<char>, u16>,
    ram: int,
    out: Seq<Seq<char>>,
) -> Result<(Seq<Seq<char>>, Map<Seq<char>, u16>, int), (ErrorKind, int, Seq<char>)>
    decreases ts.len(),
{
    if ts.len() == 0 {
        Ok((out, m, ram))
    } else {
        match ts[0].0 {
            InstrKind::Label => spec_second_pass(ts.drop_first(), m, ram, out),
            InstrKind::Address => match spec_a_resolve(a_operand(ts[0].1), m, ram) {
                Err(k) => Err((k, ts[0].2, ts[0].1)),
                Ok((v, m2, r2)) => spec_second_pass(
                    ts.drop_first(),
                    m2,
                    r2,
                    out.push(bin_rep(v, 16)),
                ),
            },
            InstrKind::Compute => match spec_c_word(ts[0].1) {
                None => Err((ErrorKind::MalformedComputeInstruction, ts[0].2, ts[0].1)),
                Some(w) => spec_second_pass(ts.drop_first(), m, ram, out.push(w)),
            },
        }
    }
}

impl Parser {
    /// Walks the token stream once and binds every label declaration to
    /// the program counter of the instruction that follows it.
    pub fn first_pass(&mut self, tokens: &Vec<Token>) -> (r: Result<(), TranslateError>)
        requires
            old(self).wf(),
        ensures
            final(self).wf(),
            match r {
                Ok(_) => spec_first_pass(token_triples(tokens@), old(self).spec_map(), 0)
                    == Ok::<_, (ErrorKind, int, Seq<char>)>(final(self).spec_map()),
                Err(e) => spec_first_pass(token_triples(tokens@), old(self).spec_map(), 0)
                    == Err::<Map<Seq<char>, u16>, _>((e.kind, e.line as int, e.text@)),
            },
    {
        let ghost m0 = self.spec_map();
        let ghost tv = token_triples(tokens@);
        let mut pc: usize = 0;
        let mut i: usize = 0;
        proof {
            assert(tv.skip(0) =~= tv);
        }
        while i < tokens.len()
            invariant
                self.wf(),
                m0 == old(self).spec_map(),
                tv == token_triples(tokens@),
                tv.len() == tokens@.len(),
                i <= tokens@.len(),
                pc <= i,
                spec_first_pass(tv, m0, 0) == spec_first_pass(
                    tv.skip(i as int),
                    self.spec_map(),
                    pc as int,
                ),
            decreases tokens@.len() - i,
        {
            proof {
                assert(tv[i as int] == (
                    tokens@[i as int].spec_kind(),
                    tokens@[i as int].spec_text(),
                    tokens@[i as int].line as int,
                ));
                assert(tv.skip(i as int)[0] == tv[i as int]);
                assert(tv.skip(i as int).drop_first() =~= tv.skip(i as int + 1));
            }
            let token = &tokens[i];
            match token.get_token() {
                Instruction::LInstruction(label) => {
                    let name = label_name_of(label.as_str());
                    if self.contains_symbol(name.as_str()) {
                        // an existing binding is never overwritten
                    } else if pc > 32767 {
                        return Err(
                            TranslateError {
                                kind: ErrorKind::AddressOutOfRange,
                                line: token.line,
                                text: label.clone(),
                            },
                        );
                    } else {
                        self.insert_symbol(name.as_str(), pc as u16);
                    }
                },
                _ => {
                    pc += 1;
                },
            }
            i += 1;
        }
        proof {
            assert(tv.skip(i as int) =~= Seq::<(InstrKind, Seq<char>, int)>::empty());
        }
        Ok(())
    }

    /// Walks the token stream once more and encodes each instruction
    /// into its 16-character binary word, allocating unknown symbols as
    /// variables from address 16 upward in first-appearance order.
    pub fn parse(&mut self, tokens: &Vec<Token>) -> (r: Result<Vec<String>, TranslateError>)
        requires
            old(self).wf(),
        ensures
            final(self).wf(),
            match r {
                Ok(out) => spec_second_pass(
                    token_triples(tokens@),
                    old(self).spec_map(),
                    16,
                    Seq::empty(),
                ) matches Ok(t) && t.0 == views_of(out@) && t.1 == final(self).spec_map(),
                Err(e) => spec_second_pass(
                    token_triples(tokens@),
                    old(self).spec_map(),
                    16,
                    Seq::empty(),
                ) matches Err(err) && err.0 == e.kind && err.1 == e.line as int && err.2 == e.text@,
            },
    {
        let ghost m0 = self.spec_map();
        let ghost tv = token_triples(tokens@);
        let mut ram_address: u16 = 16;
        let mut bitcode: Vec<String> = Vec::new();
        let mut i: usize = 0;
        proof {
            assert(tv.skip(0) =~= tv);
            assert(views_of(bitcode@) =~= Seq::<Seq<char>>::empty());
        }
        while i < tokens.len()
            invariant
                self.wf(),
                m0 == old(self).spec_map(),
                tv == token_triples(tokens@),
                tv.len() == tokens@.len(),
                i <= tokens@.len(),
                16 <= ram_address <= 32768,
                spec_second_pass(tv, m0, 16, Seq::empty()) == spec_second_pass(
                    tv.skip(i as int),
                    self.spec_map(),
                    ram_address as int,
                    views_of(bitcode@),
                ),
            decreases tokens@.len() - i,
        {
            proof {
                assert(tv[i as int] == (
                    tokens@[i as int].spec_kind(),
                    tokens@[i as int].spec_text(),
                    tokens@[i as int].line as int,
                ));
                assert(tv.skip(i as int)[0] == tv[i as int]);
                assert(tv.skip(i as int).drop_first() =~= tv.skip(i as int + 1));
            }
            let token = &tokens[i];
            match token.get_token() {
                Instruction::LInstruction(_) => {},
                Instruction::AInstruction(a_token) => {
                    let full = a_token.as_str();
                    let n = full.unicode_len();
                    let op: &str = if n > 0 && full.get_char(0) == '@' {
                        let rest = full.substring_char(1, n);
                        proof {
                            assert(rest@ =~= a_operand(full@));
                        }
                        rest
                    } else {
                        full
                    };
                    let on = op.unicode_len();
                    if on > 0 && is_digit_char(op.get_char(0)) {
                        let parsed = parse_u16(op);
                        let mut value: u16 = 0;
                        let mut good = false;
                        match parsed {
                            Some(v) => {
                                if v <= 32767 {
                                    value = v;
                                    good = true;
                                }
                            },
                            None => {},
                        }
                        if !good {
                            return Err(
                                TranslateError {
                                    kind: ErrorKind::AddressOutOfRange,
                                    line: token.line,
                                    text: a_token.clone(),
                                },
                            );
                        }
                        let word = bin_str(value, 16);
                        let ghost b0 = bitcode@;
                        let ghost w0 = word@;
                        bitcode.push(word);
                        proof {
                            assert(bitcode@.drop_last() =~= b0);
                            assert(views_of(bitcode@) =~= views_of(b0).push(w0));
                        }
                    } else if self.contains_symbol(op) {
                        let addr = self.get_address(op);
                        let word = bin_str(addr, 16);
                        let ghost b0 = bitcode@;
                        let ghost w0 = word@;
                        bitcode.push(word);
                        proof {
                            assert(bitcode@.drop_last() =~= b0);
                            assert(views_of(bitcode@) =~= views_of(b0).push(w0));
                        }
                    } else if ram_address > 32767 {
                        return Err(
                            TranslateError {
                                kind: ErrorKind::AddressOutOfRange,
                                line: token.line,
                                text: a_token.clone(),
                            },
                        );
                    } else {
                        self.insert_symbol(op, ram_address);
                        let word = bin_str(ram_address, 16);
                        let ghost b0 = bitcode@;
                        let ghost w0 = word@;
                        bitcode.push(word);
                        ram_address += 1;
                        proof {
                            assert(bitcode@.drop_last() =~= b0);
                            assert(views_of(bitcode@) =~= views_of(b0).push(w0));
                        }
                    }
                },
                Instruction::CInstruction(c_token) => {
                    match encode_c(c_token.as_str()) {
                        Some(word) => {
                            let ghost b0 = bitcode@;
                            let ghost w0 = word@;
                            bitcode.push(word);
                            proof {
                                assert(bitcode@.drop_last() =~= b0);
                                assert(views_of(bitcode@) =~= views_of(b0).push(w0));
                            }
                        },
                        None => {
                            return Err(
                                TranslateError {
                                    kind: ErrorKind::MalformedComputeInstruction,
                                    line: token.line,
                                    text: c_token.clone(),
                                },
                            );
                        },
                    }
                },
            }
            i += 1;
        }
        proof {
            assert(tv.skip(i as int) =~= Seq::<(InstrKind, Seq<char>, int)>::empty());
        }
        Ok(bitcode)
    }
}

/// Whatever the program binds, `SP` resolves to 0 and `SCREEN` to 16384:
/// the predefined symbols are part of every well-formed table and are
/// never overwritten by labels or variables.
pub proof fn lemma_predefined_fixed(p: &Parser)
    requires
        p.wf(),
    ensures
        p.spec_map().contains_key("SP"@),
        p.spec_map()["SP"@] == 0,
        p.spec_map().contains_key("SCREEN"@),
        p.spec_map()["SCREEN"@] == 16384,
{
    reveal_strlit("SP");
    reveal_strlit("LCL");
    reveal_strlit("ARG");
    reveal_strlit("THIS");
    reveal_strlit("THAT");
    reveal_strlit("R0");
    reveal_strlit("R1");
    reveal_strlit("R2");
    reveal_strlit("R3");
    reveal_strlit("R4");
    reveal_strlit("R5");
    reveal_strlit("R6");
    reveal_strlit("R7");
    reveal_strlit("R8");
    reveal_strlit("R9");
    reveal_strlit("R10");
    reveal_strlit("R11");
    reveal_strlit("R12");
    reveal_strlit("R13");
    reveal_strlit("R14");
    reveal_strlit("R15");
    reveal_strlit("SCREEN");
    reveal_strlit("KBD");
    assert("SP"@.len() == 2 && "LCL"@.len() == 3 && "ARG"@.len() == 3 && "THIS"@.len() == 4
        && "THAT"@.len() == 4 && "R0"@.len() == 2 && "R1"@.len() == 2 && "R2"@.len() == 2
        && "R3"@.len() == 2 && "R4"@.len() == 2 && "R5"@.len() == 2 && "R6"@.len() == 2
        && "R7"@.len() == 2 && "R8"@.len() == 2 && "R9"@.len() == 2 && "R10"@.len() == 3
        && "R11"@.len() == 3 && "R12"@.len() == 3 && "R13"@.len() == 3 && "R14"@.len() == 3
        && "R15"@.len() == 3 && "SCREEN"@.len() == 6 && "KBD"@.len() == 3);
    assert("SP"@ != "LCL"@);
    assert("SP"@ != "ARG"@);
    assert("SP"@ != "THIS"@);
    assert("SP"@ != "THAT"@);
    assert("SP"@[0] == 'S' && "R0"@[0] == 'R' && "R1"@[0] == 'R' && "R2"@[0] == 'R' && "R3"@[0]
        == 'R' && "R4"@[0] == 'R' && "R5"@[0] == 'R' && "R6"@[0] == 'R' && "R7"@[0] == 'R'
        && "R8"@[0] == 'R' && "R9"@[0] == 'R');
    assert("SP"@ != "R0"@);
    assert("SP"@ != "R1"@);
    assert("SP"@ != "R2"@);
    assert("SP"@ != "R3"@);
    assert("SP"@ != "R4"@);
    assert("SP"@ != "R5"@);
    assert("SP"@ != "R6"@);
    assert("SP"@ != "R7"@);
    assert("SP"@ != "R8"@);
    assert("SP"@ != "R9"@);
    assert("SP"@ != "R10"@);
    assert("SP"@ != "R11"@);
    assert("SP"@ != "R12"@);
    assert("SP"@ != "R13"@);
    assert("SP"@ != "R14"@);
    assert("SP"@ != "R15"@);
    assert("SP"@ != "SCREEN"@);
    assert("SP"@ != "KBD"@);
    assert("SCREEN"@ != "KBD"@);
    assert(predefined_map().contains_key("SP"@));
    assert(predefined_map()["SP"@] == 0);
    assert(predefined_map().contains_key("SCREEN"@));
    assert(predefined_map()["SCREEN"@] == 16384);
}

} // verus!
